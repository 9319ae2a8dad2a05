//! A `Series` is one round of the tournament: a perfect pairing of all six
//! alliances into three simultaneous matches, together with its coverage
//! matrix recording which pairs met.

use vstd::prelude::*;
use crate::matrix::Matrix;
use crate::pairing::{appears, match_sym_eq, match_wf, Match};
use crate::perms::{falling, index_perms, k_permutations_up_to};

verus! {

/// How many of the matches alliance `a` takes part in.
pub open spec fn count_app(ms: Seq<Match>, a: int) -> nat
    decreases ms.len(),
{
    if ms.len() == 0 {
        0
    } else {
        count_app(ms.drop_last(), a) + if appears(ms.last(), a) {
            1nat
        } else {
            0nat
        }
    }
}

/// Match `m` is the contest between alliances `x` and `y`.
pub open spec fn covers(m: Match, x: int, y: int) -> bool {
    (m.0 == x && m.1 == y) || (m.0 == y && m.1 == x)
}

/// How many of the matches pit alliance `x` against alliance `y`.
pub open spec fn pair_count(ms: Seq<Match>, x: int, y: int) -> nat
    decreases ms.len(),
{
    if ms.len() == 0 {
        0
    } else {
        pair_count(ms.drop_last(), x, y) + if covers(ms.last(), x, y) {
            1nat
        } else {
            0nat
        }
    }
}

/// A perfect pairing: three well-formed matches in which every alliance
/// appears exactly once.
pub open spec fn matches_wf(ms: Seq<Match>) -> bool {
    &&& ms.len() == 3
    &&& forall|k: int| 0 <= k < ms.len() ==> match_wf(ms[k])
    &&& forall|a: int| 1 <= a <= 6 ==> count_app(ms, a) == 1
}

/// The position of the one match in which alliance `a` plays.
pub open spec fn idx_of(ms: Seq<Match>, a: int) -> int {
    choose|k: int| 0 <= k < ms.len() && appears(ms[k], a)
}

/// The field (+1 or -1) alliance `a` is assigned to when the match list
/// `ms` is played at schedule position `pos`: the parity of its match
/// position combined with the series position decides.
pub open spec fn field_val(ms: Seq<Match>, pos: int, a: int) -> int {
    if (idx_of(ms, a) + pos * (crate::NUM_SERIES as int)) % 2 == 0 {
        1
    } else {
        -1
    }
}

/// The matrix `p` is the coverage matrix of the match list `ms`: cell
/// (i, j) counts the matches between alliances i+1 and j+1, and the
/// diagonal is zero.
pub open spec fn plays_match(ms: Seq<Match>, p: Matrix) -> bool {
    &&& p.wf()
    &&& forall|i: int, j: int|
        0 <= i < 6 && 0 <= j < 6 ==> p.at(i, j) == (if i == j {
            0int
        } else {
            pair_count(ms, i + 1, j + 1) as int
        })
}

pub proof fn lemma_count_app_ge1(ms: Seq<Match>, a: int, k: int)
    requires
        0 <= k < ms.len(),
        appears(ms[k], a),
    ensures
        count_app(ms, a) >= 1,
    decreases ms.len(),
{
    if k == ms.len() - 1 {
    } else {
        lemma_count_app_ge1(ms.drop_last(), a, k);
    }
}

pub proof fn lemma_count_app_ge2(ms: Seq<Match>, a: int, k1: int, k2: int)
    requires
        0 <= k1 < k2 < ms.len(),
        appears(ms[k1], a),
        appears(ms[k2], a),
    ensures
        count_app(ms, a) >= 2,
    decreases ms.len(),
{
    if k2 == ms.len() - 1 {
        lemma_count_app_ge1(ms.drop_last(), a, k1);
    } else {
        lemma_count_app_ge2(ms.drop_last(), a, k1, k2);
    }
}

pub proof fn lemma_count_app_exists(ms: Seq<Match>, a: int)
    requires
        count_app(ms, a) >= 1,
    ensures
        exists|k: int| 0 <= k < ms.len() && appears(ms[k], a),
    decreases ms.len(),
{
    if ms.len() > 0 {
        if appears(ms.last(), a) {
            assert(appears(ms[ms.len() - 1], a));
        } else {
            lemma_count_app_exists(ms.drop_last(), a);
            let k = choose|k: int|
                0 <= k < ms.drop_last().len() && appears(ms.drop_last()[k], a);
            assert(appears(ms[k], a));
        }
    }
}

/// For a well-formed match list, `idx_of` is the one position at which an
/// alliance appears.
pub proof fn lemma_idx_of(ms: Seq<Match>, a: int)
    requires
        matches_wf(ms),
        1 <= a <= 6,
    ensures
        0 <= idx_of(ms, a) < ms.len(),
        appears(ms[idx_of(ms, a)], a),
        forall|k: int| 0 <= k < ms.len() && appears(ms[k], a) ==> k == idx_of(ms, a),
{
    lemma_count_app_exists(ms, a);
    let i = idx_of(ms, a);
    assert(0 <= i < ms.len() && appears(ms[i], a));
    assert forall|k: int| 0 <= k < ms.len() && appears(ms[k], a) implies k == i by {
        if k < i {
            lemma_count_app_ge2(ms, a, k, i);
        } else if k > i {
            lemma_count_app_ge2(ms, a, i, k);
        }
    }
}

pub proof fn lemma_pair_count_le_len(ms: Seq<Match>, x: int, y: int)
    ensures
        pair_count(ms, x, y) <= ms.len(),
    decreases ms.len(),
{
    if ms.len() > 0 {
        lemma_pair_count_le_len(ms.drop_last(), x, y);
    }
}

/// The off-diagonal cells of row `i` of matrix `p`, summed over columns
/// 0..j.
pub open spec fn row_sum_off(p: Matrix, i: int, j: int) -> int
    decreases j,
{
    if j <= 0 {
        0
    } else {
        row_sum_off(p, i, j - 1) + if j - 1 == i {
            0int
        } else {
            p.at(i, j - 1)
        }
    }
}

/// The pair counts of alliance `a` against each partner below `y`.
pub open spec fn ps_sum(ms: Seq<Match>, a: int, y: int) -> nat
    decreases y,
{
    if y <= 1 {
        0
    } else {
        ps_sum(ms, a, y - 1) + if y - 1 == a {
            0nat
        } else {
            pair_count(ms, a, y - 1)
        }
    }
}

/// How many partners below `y` a single match pits alliance `a` against.
pub open spec fn cov_sum(m: Match, a: int, y: int) -> nat
    decreases y,
{
    if y <= 1 {
        0
    } else {
        cov_sum(m, a, y - 1) + if y - 1 == a {
            0nat
        } else if covers(m, a, y - 1) {
            1nat
        } else {
            0nat
        }
    }
}

proof fn lemma_cov_sum_appears(m: Match, a: int)
    requires
        match_wf(m),
        1 <= a <= 6,
    ensures
        cov_sum(m, a, 7) == if appears(m, a) {
            1nat
        } else {
            0nat
        },
{
    reveal_with_fuel(cov_sum, 8);
}

proof fn lemma_ps_split(ms: Seq<Match>, a: int, y: int)
    requires
        ms.len() > 0,
    ensures
        ps_sum(ms, a, y) == ps_sum(ms.drop_last(), a, y) + cov_sum(ms.last(), a, y),
    decreases y,
{
    if y > 1 {
        lemma_ps_split(ms, a, y - 1);
    }
}

proof fn lemma_ps_counts(ms: Seq<Match>, a: int)
    requires
        forall|k: int| 0 <= k < ms.len() ==> match_wf(ms[k]),
        1 <= a <= 6,
    ensures
        ps_sum(ms, a, 7) == count_app(ms, a),
    decreases ms.len(),
{
    if ms.len() == 0 {
        reveal_with_fuel(ps_sum, 8);
    } else {
        assert(forall|k: int| 0 <= k < ms.drop_last().len() ==> match_wf(ms.drop_last()[k]));
        lemma_ps_counts(ms.drop_last(), a);
        lemma_ps_split(ms, a, 7);
        assert(match_wf(ms[ms.len() - 1]));
        lemma_cov_sum_appears(ms.last(), a);
    }
}

proof fn lemma_row_equals_ps(s: Series, i: int, j: int)
    requires
        s.wf(),
        0 <= i < 6,
        0 <= j <= 6,
    ensures
        row_sum_off(s.plays, i, j) == ps_sum(s.matches@, i + 1, j + 1),
    decreases j,
{
    if j == 0 {
        reveal_with_fuel(ps_sum, 2);
    } else {
        lemma_row_equals_ps(s, i, j - 1);
    }
}

/// Every row of a well-formed series' coverage matrix sums to one over
/// its off-diagonal cells: each alliance meets exactly one opponent in
/// one round.
pub proof fn lemma_coverage_row_sums(s: Series)
    requires
        s.wf(),
    ensures
        forall|i: int| 0 <= i < 6 ==> row_sum_off(s.plays, i, 6) == 1,
{
    assert forall|i: int| 0 <= i < 6 implies row_sum_off(s.plays, i, 6) == 1 by {
        lemma_row_equals_ps(s, i, 6);
        lemma_ps_counts(s.matches@, i + 1);
    }
}

/// The three matches read off a permutation of the six alliance
/// identifiers: consecutive pairs, each identifier shifted from a 0-based
/// position to a 1-based alliance.
pub open spec fn chunk_to_matches(p: Seq<usize>) -> Seq<Match> {
    seq![
        Match((p[0] + 1) as usize, (p[1] + 1) as usize),
        Match((p[2] + 1) as usize, (p[3] + 1) as usize),
        Match((p[4] + 1) as usize, (p[5] + 1) as usize),
    ]
}

/// Two match lists present the same pairings in the same order; the order
/// inside each match does not matter.
pub open spec fn key_eq(x: Seq<Match>, y: Seq<Match>) -> bool {
    x.len() == y.len() && forall|k: int| 0 <= k < x.len() ==> match_sym_eq(x[k], y[k])
}

/// Some already collected match list presents the same series as `c`.
pub open spec fn has_key(us: Seq<Seq<Match>>, c: Seq<Match>) -> bool {
    exists|j: int| 0 <= j < us.len() && key_eq(us[j], c)
}

/// The match lists of the series universe read off a permutation stream:
/// every length-6 permutation that yields a perfect pairing contributes
/// its match list, and a list presenting pairings already collected is
/// dropped (the first presentation wins).
pub open spec fn universe_from(perms: Seq<Seq<usize>>) -> Seq<Seq<Match>>
    decreases perms.len(),
{
    if perms.len() == 0 {
        Seq::empty()
    } else {
        let prev = universe_from(perms.drop_last());
        let c = chunk_to_matches(perms.last());
        if perms.last().len() == 6 && matches_wf(c) && !has_key(prev, c) {
            prev.push(c)
        } else {
            prev
        }
    }
}

/// The match lists of the full series universe, in generation order.
pub open spec fn universe_of() -> Seq<Seq<Match>> {
    universe_from(index_perms(6, 6).take(falling(6, 6) as int))
}

/// Generating the universe is deterministic: any two generation runs list
/// the same match lists in the same order, so the universe is a single
/// finite, order-stable value.
pub proof fn lemma_universe_deterministic(a: Seq<Seq<Match>>, b: Seq<Seq<Match>>)
    requires
        a == universe_of(),
        b == universe_of(),
    ensures
        a == b,
{
}

fn key_eq_exec(a: &Vec<Match>, b: &Vec<Match>) -> (r: bool)
    ensures
        r == key_eq(a@, b@),
{
    if a.len() != b.len() {
        return false;
    }
    let mut k: usize = 0;
    while k < a.len()
        invariant
            k <= a@.len(),
            a@.len() == b@.len(),
            forall|t: int| 0 <= t < k ==> match_sym_eq(a@[t], b@[t]),
        decreases a@.len() - k,
    {
        if !(a[k] == b[k]) {
            return false;
        }
        k = k + 1;
    }
    true
}

fn list_has_key(list: &Vec<Series>, cand: &Vec<Match>) -> (r: bool)
    ensures
        r == (exists|j: int| 0 <= j < list@.len() && key_eq(list@[j].matches@, cand@)),
{
    let mut j: usize = 0;
    while j < list.len()
        invariant
            j <= list@.len(),
            forall|t: int| 0 <= t < j ==> !key_eq(list@[t].matches@, cand@),
        decreases list@.len() - j,
    {
        if key_eq_exec(&list[j].matches, cand) {
            return true;
        }
        j = j + 1;
    }
    false
}

/// One round of three simultaneous matches and its coverage matrix.
#[derive(Debug)]
pub struct Series {
    pub matches: Vec<Match>,
    pub plays: Matrix,
}

impl Series {
    /// The matches form a perfect pairing and the matrix reflects them.
    pub open spec fn wf(self) -> bool {
        &&& matches_wf(self.matches@)
        &&& plays_match(self.matches@, self.plays)
    }

    /// Record one played match in the coverage matrix, in both of the two
    /// symmetric cells.
    pub fn mark_played(&mut self, m: &Match)
        requires
            match_wf(*m),
            old(self).plays.wf(),
            old(self).plays.at(m.0 - 1, m.1 - 1) < usize::MAX,
            old(self).plays.at(m.1 - 1, m.0 - 1) < usize::MAX,
        ensures
            final(self).matches == old(self).matches,
            final(self).plays.wf(),
            final(self).plays.at(m.0 - 1, m.1 - 1) == old(self).plays.at(m.0 - 1, m.1 - 1) + 1,
            final(self).plays.at(m.1 - 1, m.0 - 1) == old(self).plays.at(m.1 - 1, m.0 - 1) + 1,
            forall|i: int, j: int|
                0 <= i < 6 && 0 <= j < 6 && !(i == m.0 - 1 && j == m.1 - 1) && !(i == m.1 - 1 && j
                    == m.0 - 1) ==> final(self).plays.at(i, j) == old(self).plays.at(i, j),
    {
        let x = m.0 - 1;
        let y = m.1 - 1;
        let v = self.plays.get(x, y);
        self.plays.set(x, y, v + 1);
        let w = self.plays.get(y, x);
        self.plays.set(y, x, w + 1);
    }

    /// Build a series from a candidate match list, together with its
    /// coverage matrix. Yields a value exactly when the list is a perfect
    /// pairing of the six alliances.
    pub fn from_matches(matches: Vec<Match>) -> (r: Option<Series>)
        ensures
            r.is_some() <==> matches_wf(matches@),
            r matches Some(s) ==> s.matches@ == matches@ && s.wf(),
    {
        if matches.len() != 3 {
            return None;
        }
        let mut k: usize = 0;
        while k < 3
            invariant
                k <= 3,
                matches@.len() == 3,
                forall|t: int| 0 <= t < k ==> match_wf(matches@[t]),
            decreases 3 - k,
        {
            let m = matches[k];
            if !(1 <= m.0 && m.0 <= 6 && 1 <= m.1 && m.1 <= 6 && m.0 != m.1) {
                assert(!match_wf(matches@[k as int]));
                return None;
            }
            k = k + 1;
        }
        let mut a: usize = 1;
        while a <= 6
            invariant
                1 <= a <= 7,
                matches@.len() == 3,
                forall|t: int| 0 <= t < 3 ==> match_wf(matches@[t]),
                forall|b: int| 1 <= b < a ==> count_app(matches@, b) == 1,
            decreases 7 - a,
        {
            let mut count: usize = 0;
            let mut k2: usize = 0;
            while k2 < 3
                invariant
                    k2 <= 3,
                    count <= k2,
                    matches@.len() == 3,
                    1 <= a <= 6,
                    count == count_app(matches@.take(k2 as int), a as int),
                decreases 3 - k2,
            {
                let m = matches[k2];
                proof {
                    assert(matches@.take(k2 as int + 1).drop_last() =~= matches@.take(k2 as int));
                    assert(matches@.take(k2 as int + 1).last() == matches@[k2 as int]);
                }
                if m.0 == a || m.1 == a {
                    count = count + 1;
                }
                k2 = k2 + 1;
            }
            proof {
                assert(matches@.take(3) =~= matches@);
            }
            if count != 1 {
                return None;
            }
            a = a + 1;
        }
        let mut s = Series { matches, plays: Matrix::zero() };
        let mut k3: usize = 0;
        while k3 < 3
            invariant
                k3 <= 3,
                s.matches@ == matches@,
                s.matches@.len() == 3,
                forall|t: int| 0 <= t < 3 ==> match_wf(s.matches@[t]),
                forall|b: int| 1 <= b <= 6 ==> count_app(s.matches@, b) == 1,
                plays_match(s.matches@.take(k3 as int), s.plays),
            decreases 3 - k3,
        {
            let m = s.matches[k3];
            proof {
                lemma_pair_count_le_len(s.matches@.take(k3 as int), m.0 as int, m.1 as int);
                lemma_pair_count_le_len(s.matches@.take(k3 as int), m.1 as int, m.0 as int);
            }
            s.mark_played(&m);
            proof {
                assert(s.matches@.take(k3 as int + 1).drop_last() =~= s.matches@.take(k3 as int));
                assert(s.matches@.take(k3 as int + 1).last() == s.matches@[k3 as int]);
            }
            k3 = k3 + 1;
        }
        proof {
            assert(s.matches@.take(3) =~= s.matches@);
        }
        Some(s)
    }

    /// For each alliance, the position of the match it plays in: entry
    /// `a` is the index of the one match in which alliance `a + 1`
    /// appears.
    pub fn get_match_num(&self) -> (r: Vec<usize>)
        requires
            self.wf(),
        ensures
            r@.len() == 6,
            forall|a: int| 0 <= a < 6 ==> r@[a] as int == idx_of(self.matches@, a + 1),
            forall|a: int| 0 <= a < 6 ==> r@[a] < 3,
    {
        let mut r: Vec<usize> = Vec::new();
        let mut a: usize = 1;
        while a <= 6
            invariant
                1 <= a <= 7,
                self.wf(),
                r@.len() == a - 1,
                forall|b: int| 0 <= b < a - 1 ==> r@[b] as int == idx_of(self.matches@, b + 1),
                forall|b: int| 0 <= b < a - 1 ==> r@[b] < 3,
            decreases 7 - a,
        {
            let mut found: usize = 3;
            let mut k: usize = 0;
            while k < 3
                invariant
                    k <= 3,
                    1 <= a <= 6,
                    self.wf(),
                    found == 3 || (found < k && appears(self.matches@[found as int], a as int)),
                    found == 3 ==> forall|t: int|
                        0 <= t < k ==> !appears(self.matches@[t], a as int),
                decreases 3 - k,
            {
                let m = self.matches[k];
                if found == 3 && (m.0 == a || m.1 == a) {
                    found = k;
                }
                k = k + 1;
            }
            proof {
                lemma_idx_of(self.matches@, a as int);
            }
            assert(found < 3);
            assert(found as int == idx_of(self.matches@, a as int));
            r.push(found);
            a = a + 1;
        }
        r
    }

    /// The two alliances of the first match of the series.
    pub fn get_first_teams(&self) -> (r: (usize, usize))
        requires
            self.wf(),
        ensures
            r.0 == self.matches@[0].0,
            r.1 == self.matches@[0].1,
    {
        (self.matches[0].0, self.matches[0].1)
    }

    /// The two alliances of the last match of the series.
    pub fn get_last_teams(&self) -> (r: (usize, usize))
        requires
            self.wf(),
        ensures
            r.0 == self.matches@[2].0,
            r.1 == self.matches@[2].1,
    {
        (self.matches[2].0, self.matches[2].1)
    }

    /// Which of the two physical fields each alliance is sent to when this
    /// series stands at position `series` of a schedule: entry `a` is +1
    /// or -1 for alliance `a + 1`, alternating with the parity of its
    /// match position combined with the series position.
    #[verifier::rlimit(30)]
    pub fn get_fields(&self, series: usize) -> (r: Vec<i64>)
        requires
            self.wf(),
            series < crate::NUM_SERIES,
        ensures
            r@.len() == 6,
            forall|a: int|
                0 <= a < 6 ==> r@[a] as int == field_val(self.matches@, series as int, a + 1),
    {
        let mut r: Vec<i64> = Vec::new();
        let mut z: usize = 0;
        while z < 6
            invariant
                z <= 6,
                r@.len() == z,
                forall|t: int| 0 <= t < z ==> r@[t] == 0i64,
            decreases 6 - z,
        {
            r.push(0);
            z = z + 1;
        }
        proof {
            assert forall|a: int| 1 <= a <= 6 implies 0 <= #[trigger] idx_of(self.matches@, a) < 3 by {
                lemma_idx_of(self.matches@, a);
            }
        }
        let mut k: usize = 0;
        while k < 3
            invariant
                k <= 3,
                self.wf(),
                series < 5,
                r@.len() == 6,
                forall|a: int| 1 <= a <= 6 ==> 0 <= #[trigger] idx_of(self.matches@, a) < 3,
                forall|a: int|
                    1 <= a <= 6 && #[trigger] idx_of(self.matches@, a) < k ==> r@[a - 1] as int
                        == field_val(self.matches@, series as int, a),
                forall|a: int|
                    1 <= a <= 6 && #[trigger] idx_of(self.matches@, a) >= k ==> r@[a - 1] == 0i64,
            decreases 3 - k,
        {
            let modifier: i64 = if (k + series * crate::NUM_SERIES) % 2 == 0 {
                1
            } else {
                -1
            };
            let m = self.matches[k];
            let ghost old_r = r@;
            proof {
                lemma_idx_of(self.matches@, m.0 as int);
                lemma_idx_of(self.matches@, m.1 as int);
                assert forall|a: int| 1 <= a <= 6 && !appears(self.matches@[k as int], a)
                    implies idx_of(self.matches@, a) != k as int by {
                    lemma_idx_of(self.matches@, a);
                }
            }
            r.set(m.0 - 1, modifier);
            r.set(m.1 - 1, modifier);
            proof {
                assert forall|a: int| 1 <= a <= 6 && #[trigger] idx_of(self.matches@, a) < k + 1
                    implies r@[a - 1] as int == field_val(self.matches@, series as int, a) by {
                    lemma_idx_of(self.matches@, a);
                    assert(match_wf(self.matches@[k as int]));
                    if a == m.0 as int || a == m.1 as int {
                        assert(appears(self.matches@[k as int], a));
                        assert(idx_of(self.matches@, a) == k as int);
                        assert(r@[a - 1] == modifier);
                        assert(modifier as int == field_val(self.matches@, series as int, a));
                    } else {
                        assert(idx_of(self.matches@, a) != k as int);
                        assert(r@[a - 1] == old_r[a - 1]);
                    }
                }
                assert forall|a: int| 1 <= a <= 6 && #[trigger] idx_of(self.matches@, a) >= k + 1
                    implies r@[a - 1] == 0i64 by {
                    lemma_idx_of(self.matches@, a);
                    if a == m.0 as int || a == m.1 as int {
                        assert(idx_of(self.matches@, a) == k as int);
                        assert(false);
                    } else {
                        assert(r@[a - 1] == old_r[a - 1]);
                    }
                }
            }
            k = k + 1;
        }
        r
    }

    /// Generate the full series universe: read a series off every
    /// permutation of the six alliances and keep the first presentation of
    /// each distinct ordered pairing list.
    pub fn get_permutations() -> (r: Vec<Series>)
        ensures
            r@.len() == universe_of().len(),
            forall|k: int|
                0 <= k < r@.len() ==> (#[trigger] r@[k]).wf() && r@[k].matches@ == universe_of()[k],
    {
        proof {
            reveal_with_fuel(falling, 10);
            assert(falling(0, 0) == 1);
            assert(falling(1, 1) == 1);
            assert(falling(2, 2) == 2);
            assert(falling(3, 3) == 6);
            assert(falling(4, 4) == 24);
            assert(falling(5, 5) == 120);
            assert(falling(6, 6) == 720);
        }
        let perms = k_permutations_up_to(6, 6, 720);
        let ghost allp = index_perms(6, 6).take(falling(6, 6) as int);
        proof {
            assert(perms@.len() == 720);
            assert(index_perms(6, 6).len() >= 720);
            assert(allp.len() == 720);
            assert(forall|i: int| 0 <= i < 720 ==> perms@[i]@ == allp[i]);
        }
        let mut res: Vec<Series> = Vec::new();
        let mut idx: usize = 0;
        while idx < perms.len()
            invariant
                idx <= perms@.len(),
                perms@.len() == 720,
                allp == index_perms(6, 6).take(falling(6, 6) as int),
                allp.len() == 720,
                forall|i: int| 0 <= i < 720 ==> perms@[i]@ == allp[i],
                forall|i: int| 0 <= i < 720 ==> (#[trigger] perms@[i]@).len() == 6,
                forall|i: int, t: int| 0 <= i < 720 && 0 <= t < 6 ==> perms@[i]@[t] < 6,
                res@.len() == universe_from(allp.take(idx as int)).len(),
                forall|k: int|
                    0 <= k < res@.len() ==> (#[trigger] res@[k]).wf() && res@[k].matches@
                        == universe_from(allp.take(idx as int))[k],
            decreases perms@.len() - idx,
        {
            let p = &perms[idx];
            let matches: Vec<Match> = vec![
                Match(p[0] + 1, p[1] + 1),
                Match(p[2] + 1, p[3] + 1),
                Match(p[4] + 1, p[5] + 1),
            ];
            proof {
                assert(matches@ =~= chunk_to_matches(p@));
                assert(allp.take(idx as int + 1).drop_last() =~= allp.take(idx as int));
                assert(allp.take(idx as int + 1).last() == allp[idx as int]);
            }
            match Series::from_matches(matches) {
                Some(s) => {
                    let dup = list_has_key(&res, &s.matches);
                    proof {
                        let prev = universe_from(allp.take(idx as int));
                        let c = chunk_to_matches(allp[idx as int]);
                        if dup {
                            let j = choose|j: int|
                                0 <= j < res@.len() && key_eq(res@[j].matches@, c);
                            assert(key_eq(prev[j], c));
                            assert(has_key(prev, c));
                        } else {
                            if has_key(prev, c) {
                                let j = choose|j: int| 0 <= j < prev.len() && key_eq(prev[j], c);
                                assert(key_eq(res@[j].matches@, c));
                                assert(false);
                            }
                            assert(universe_from(allp.take(idx as int + 1)) == prev.push(c));
                        }
                    }
                    if !dup {
                        res.push(s);
                    }
                },
                None => {
                    proof {
                        assert(!matches_wf(chunk_to_matches(allp[idx as int])));
                    }
                },
            }
            idx = idx + 1;
        }
        proof {
            assert(allp.take(720) =~= allp);
        }
        res
    }

    /// A structurally equal copy of this series.
    pub fn duplicate(&self) -> (r: Series)
        ensures
            r.matches@ == self.matches@,
            r.plays.cells@ == self.plays.cells@,
    {
        let mut ms: Vec<Match> = Vec::new();
        let mut k: usize = 0;
        while k < self.matches.len()
            invariant
                k <= self.matches@.len(),
                ms@.len() == k,
                forall|t: int| 0 <= t < k ==> ms@[t] == self.matches@[t],
            decreases self.matches@.len() - k,
        {
            ms.push(self.matches[k]);
            k = k + 1;
        }
        proof {
            assert(ms@ =~= self.matches@);
        }
        Series { matches: ms, plays: self.plays.duplicate() }
    }
}

} // verus!
