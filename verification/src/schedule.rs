//! A `Schedule` is an ordered list of five series that together cover
//! every pair of alliances exactly once, with an adjacency filter and two
//! fairness metrics.

use vstd::prelude::*;
use crate::matrix::Matrix;
use crate::pairing::{appears, Match};
use crate::series::{
    covers, field_val, idx_of, matches_wf, pair_count, Series,
};

verus! {

/// The match lists of a sequence of series.
pub open spec fn views_of(ss: Seq<Series>) -> Seq<Seq<Match>> {
    Seq::new(ss.len(), |i: int| ss[i].matches@)
}

/// Every round is a perfect pairing.
pub open spec fn all_wf(vs: Seq<Seq<Match>>) -> bool {
    forall|k: int| 0 <= k < vs.len() ==> matches_wf(#[trigger] vs[k])
}

/// Across the whole list of rounds, how often alliances `x` and `y` meet.
pub open spec fn sum_pair(vs: Seq<Seq<Match>>, x: int, y: int) -> nat
    decreases vs.len(),
{
    if vs.len() == 0 {
        0
    } else {
        sum_pair(vs.drop_last(), x, y) + pair_count(vs.last(), x, y)
    }
}

/// The coverage invariant: five perfect-pairing rounds in which every pair
/// of distinct alliances meets exactly once.
pub open spec fn coverage_ok(vs: Seq<Seq<Match>>) -> bool {
    &&& vs.len() == 5
    &&& all_wf(vs)
    &&& forall|x: int, y: int|
        1 <= x <= 6 && 1 <= y <= 6 && x != y ==> sum_pair(vs, x, y) == 1
}

/// An alliance of the last match of round `x` would open the next round.
pub open spec fn boundary_clash(x: Seq<Match>, y: Seq<Match>) -> bool {
    appears(y[0], x[2].0 as int) || appears(y[0], x[2].1 as int)
}

/// No alliance plays the last match of one round and the first match of
/// the next.
pub open spec fn b2b_ok(vs: Seq<Seq<Match>>) -> bool {
    forall|i: int| 0 <= i < vs.len() - 1 ==> !boundary_clash(#[trigger] vs[i], vs[i + 1])
}

/// The rest gap of alliance `a` at the boundary between rounds `i` and
/// `i + 1`: the number of matches between its two appearances.
pub open spec fn adj_delta(vs: Seq<Seq<Match>>, a: int, i: int) -> int {
    3 + idx_of(vs[i + 1], a) - idx_of(vs[i], a)
}

/// The least rest gap of alliance `a` over the first `n` boundaries.
pub open spec fn min_delta_upto(vs: Seq<Seq<Match>>, a: int, n: int) -> int
    decreases n,
{
    if n <= 1 {
        adj_delta(vs, a, 0)
    } else {
        let prev = min_delta_upto(vs, a, n - 1);
        let d = adj_delta(vs, a, n - 1);
        if d < prev {
            d
        } else {
            prev
        }
    }
}

/// The least rest gap of alliance `a` anywhere in the schedule.
pub open spec fn min_delta(vs: Seq<Seq<Match>>, a: int) -> int {
    min_delta_upto(vs, a, 4)
}

pub open spec fn delta_sum_upto(vs: Seq<Seq<Match>>, a: int) -> int
    decreases a,
{
    if a <= 0 {
        0
    } else {
        delta_sum_upto(vs, a - 1) + min_delta(vs, a)
    }
}

/// The per-alliance least rest gaps, summed over the six alliances. The
/// average rest gap of the schedule is this value divided by ALLIANCES.
pub open spec fn delta_sum(vs: Seq<Seq<Match>>) -> int {
    delta_sum_upto(vs, 6)
}

pub open spec fn field_sum_upto(vs: Seq<Seq<Match>>, a: int, n: int) -> int
    decreases n,
{
    if n <= 0 {
        0
    } else {
        field_sum_upto(vs, a, n - 1) + field_val(vs[n - 1], n - 1, a)
    }
}

/// The field bias of alliance `a`: its +1/-1 field assignments summed over
/// the five rounds. The mean bias is this value divided by NUM_SERIES.
pub open spec fn field_sum(vs: Seq<Seq<Match>>, a: int) -> int {
    field_sum_upto(vs, a, 5)
}

pub open spec fn max_field_upto(vs: Seq<Seq<Match>>, a: int) -> int
    decreases a,
{
    if a <= 1 {
        field_sum(vs, 1)
    } else {
        let prev = max_field_upto(vs, a - 1);
        let c = field_sum(vs, a);
        if c > prev {
            c
        } else {
            prev
        }
    }
}

/// The largest per-alliance field bias sum.
pub open spec fn max_field(vs: Seq<Seq<Match>>) -> int {
    max_field_upto(vs, 6)
}

pub proof fn lemma_sum_pair_bound(vs: Seq<Seq<Match>>, x: int, y: int)
    requires
        forall|t: int| 0 <= t < vs.len() ==> (#[trigger] vs[t]).len() <= 3,
    ensures
        sum_pair(vs, x, y) <= 3 * vs.len(),
    decreases vs.len(),
{
    if vs.len() > 0 {
        lemma_sum_pair_bound(vs.drop_last(), x, y);
        crate::series::lemma_pair_count_le_len(vs.last(), x, y);
    }
}

/// The search space is not empty: the six alliances admit at least one
/// list of five rounds that satisfies the coverage invariant, exhibited
/// by a concrete one-factorization.
pub proof fn lemma_valid_schedule_exists()
    ensures
        exists|vs: Seq<Seq<Match>>| #[trigger] coverage_ok(vs),
{
    let r1 = seq![Match(1usize, 2usize), Match(3usize, 4usize), Match(5usize, 6usize)];
    let r2 = seq![Match(1usize, 3usize), Match(2usize, 5usize), Match(4usize, 6usize)];
    let r3 = seq![Match(1usize, 4usize), Match(2usize, 6usize), Match(3usize, 5usize)];
    let r4 = seq![Match(1usize, 5usize), Match(2usize, 4usize), Match(3usize, 6usize)];
    let r5 = seq![Match(1usize, 6usize), Match(2usize, 3usize), Match(4usize, 5usize)];
    let vs = seq![r1, r2, r3, r4, r5];
    reveal_with_fuel(crate::series::count_app, 5);
    reveal_with_fuel(crate::series::pair_count, 5);
    reveal_with_fuel(sum_pair, 7);
    assert forall|k: int| 0 <= k < vs.len() implies matches_wf(#[trigger] vs[k]) by {
        assert(vs[k].drop_last().drop_last() =~= vs[k].take(1));
        assert(vs[k].drop_last() =~= vs[k].take(2));
    }
    assert forall|x: int, y: int| 1 <= x <= 6 && 1 <= y <= 6 && x != y implies sum_pair(
        vs,
        x,
        y,
    ) == 1 by {
        assert forall|k: int| 0 <= k < 5 implies pair_count(#[trigger] vs[k], x, y)
            == pair_count(vs[k].take(2), x, y) + (if covers(vs[k][2], x, y) {
            1nat
        } else {
            0nat
        }) && pair_count(vs[k].take(2), x, y) == pair_count(vs[k].take(1), x, y) + (if covers(
            vs[k][1],
            x,
            y,
        ) {
            1nat
        } else {
            0nat
        }) && pair_count(vs[k].take(1), x, y) == (if covers(vs[k][0], x, y) {
            1nat
        } else {
            0nat
        }) by {
            assert(vs[k].drop_last() =~= vs[k].take(2));
            assert(vs[k].take(2).drop_last() =~= vs[k].take(1));
            assert(vs[k].take(1).drop_last() =~= vs[k].take(0));
        }
        assert(vs.drop_last() =~= vs.take(4));
        assert(vs.take(4).drop_last() =~= vs.take(3));
        assert(vs.take(3).drop_last() =~= vs.take(2));
        assert(vs.take(2).drop_last() =~= vs.take(1));
        assert(vs.take(1).drop_last() =~= vs.take(0));
        assert(sum_pair(vs, x, y) == pair_count(vs[0], x, y) + pair_count(vs[1], x, y)
            + pair_count(vs[2], x, y) + pair_count(vs[3], x, y) + pair_count(vs[4], x, y));
    }
    assert(coverage_ok(vs));
}

/// Five rounds covering every pair of alliances exactly once.
#[derive(Debug)]
pub struct Schedule {
    pub series: Vec<Series>,
}

/// The candidate rounds satisfy the coverage invariant: summing their
/// coverage matrices on top of the identity yields the all-ones matrix.
fn is_valid(entry: &Vec<Series>) -> (r: bool)
    requires
        entry@.len() == 5,
        forall|k: int| 0 <= k < 5 ==> (#[trigger] entry@[k]).wf(),
    ensures
        r == coverage_ok(views_of(entry@)),
{
    let ghost vs = views_of(entry@);
    let mut check = Matrix::identity();
    let mut k: usize = 0;
    while k < 5
        invariant
            k <= 5,
            entry@.len() == 5,
            vs == views_of(entry@),
            forall|t: int| 0 <= t < 5 ==> (#[trigger] entry@[t]).wf(),
            check.wf(),
            forall|i: int, j: int|
                0 <= i < 6 && 0 <= j < 6 ==> check.at(i, j) == (if i == j {
                    1int
                } else {
                    sum_pair(vs.take(k as int), i + 1, j + 1) as int
                }),
        decreases 5 - k,
    {
        proof {
            assert forall|i: int, j: int| 0 <= i < 6 && 0 <= j < 6 implies check.at(i, j)
                + entry@[k as int].plays.at(i, j) <= usize::MAX by {
                assert forall|t: int| 0 <= t < vs.take(k as int).len() implies (#[trigger] vs.take(
                    k as int,
                )[t]).len() <= 3 by {
                    assert(vs.take(k as int)[t] == entry@[t].matches@);
                }
                lemma_sum_pair_bound(vs.take(k as int), i + 1, j + 1);
                crate::series::lemma_pair_count_le_len(entry@[k as int].matches@, i + 1, j + 1);
            }
        }
        check.add_assign(&entry[k].plays);
        proof {
            assert(vs.take(k as int + 1).drop_last() =~= vs.take(k as int));
            assert(vs.take(k as int + 1).last() == vs[k as int]);
            assert(vs[k as int] == entry@[k as int].matches@);
        }
        k = k + 1;
    }
    proof {
        assert(vs.take(5) =~= vs);
    }
    let r = check.is_all(1);
    proof {
        assert forall|t: int| 0 <= t < vs.len() implies matches_wf(#[trigger] vs[t]) by {
            assert(vs[t] == entry@[t].matches@);
        }
        if r {
            assert forall|x: int, y: int| 1 <= x <= 6 && 1 <= y <= 6 && x != y implies sum_pair(
                vs,
                x,
                y,
            ) == 1 by {
                assert(check.at(x - 1, y - 1) == 1);
            }
        } else {
            if coverage_ok(vs) {
                assert forall|i: int, j: int| 0 <= i < 6 && 0 <= j < 6 implies check.at(i, j)
                    == 1 by {
                    if i != j {
                        assert(sum_pair(vs, i + 1, j + 1) == 1);
                    }
                }
                assert(false);
            }
        }
    }
    r
}

impl Schedule {
    /// The stored rounds satisfy the coverage invariant.
    pub open spec fn wf(self) -> bool {
        &&& self.series@.len() == 5
        &&& forall|k: int| 0 <= k < 5 ==> (#[trigger] self.series@[k]).wf()
        &&& coverage_ok(views_of(self.series@))
    }

    /// The match lists of this schedule's rounds.
    pub open spec fn views(self) -> Seq<Seq<Match>> {
        views_of(self.series@)
    }

    /// Assemble a schedule from five candidate rounds. Yields a value
    /// exactly when the rounds cover every pair of alliances exactly
    /// once; any candidate list missing a required pair is rejected.
    pub fn from_series(entry: Vec<Series>) -> (r: Option<Schedule>)
        requires
            entry@.len() == 5,
            forall|k: int| 0 <= k < 5 ==> (#[trigger] entry@[k]).wf(),
        ensures
            r.is_some() <==> coverage_ok(views_of(entry@)),
            r matches Some(s) ==> s.series@ == entry@ && s.wf(),
    {
        if is_valid(&entry) {
            Some(Schedule { series: entry })
        } else {
            None
        }
    }

    /// No alliance closes one round and opens the next: scanning the four
    /// round boundaries in order, no alliance of a last match reappears in
    /// the following first match.
    pub fn check_back_to_back(&self) -> (r: bool)
        requires
            self.wf(),
        ensures
            r == b2b_ok(self.views()),
    {
        let ghost vs = self.views();
        let mut i: usize = 0;
        while i < 4
            invariant
                i <= 4,
                self.wf(),
                vs == self.views(),
                forall|t: int| 0 <= t < i ==> !boundary_clash(#[trigger] vs[t], vs[t + 1]),
            decreases 4 - i,
        {
            let last = self.series[i].get_last_teams();
            let first = self.series[i + 1].get_first_teams();
            if first.0 == last.0 || first.1 == last.0 || first.0 == last.1 || first.1 == last.1 {
                proof {
                    assert(boundary_clash(vs[i as int], vs[i as int + 1]));
                }
                return false;
            }
            proof {
                assert(!boundary_clash(vs[i as int], vs[i as int + 1]));
            }
            i = i + 1;
        }
        true
    }

    /// The summed per-alliance least rest gap of this schedule, scaled by
    /// ALLIANCES: for each alliance take the smallest gap between its
    /// matches in adjacent rounds, and sum that over the alliances. The
    /// average of the minima is this value divided by ALLIANCES; larger
    /// means more generous rest.
    pub fn avg_min_delta(&self) -> (r: usize)
        requires
            self.wf(),
        ensures
            r as int == delta_sum(self.views()),
    {
        let ghost vs = self.views();
        let mut sp: Vec<Vec<usize>> = Vec::new();
        let mut i: usize = 0;
        while i < 5
            invariant
                i <= 5,
                self.wf(),
                vs == self.views(),
                sp@.len() == i,
                forall|t: int, b: int|
                    0 <= t < i && 0 <= b < 6 ==> #[trigger] sp@[t]@[b] as int == idx_of(
                        vs[t],
                        b + 1,
                    ),
                forall|t: int| 0 <= t < i ==> (#[trigger] sp@[t]@).len() == 6,
                forall|t: int, b: int| 0 <= t < i && 0 <= b < 6 ==> #[trigger] sp@[t]@[b] < 3,
        decreases 5 - i,
        {
            let row = self.series[i].get_match_num();
            proof {
                assert(vs[i as int] == self.series@[i as int].matches@);
            }
            sp.push(row);
            i = i + 1;
        }
        let mut total: usize = 0;
        let mut a: usize = 1;
        while a <= 6
            invariant
                1 <= a <= 7,
                vs.len() == 5,
                sp@.len() == 5,
                forall|t: int, b: int|
                    0 <= t < 5 && 0 <= b < 6 ==> #[trigger] sp@[t]@[b] as int == idx_of(
                        vs[t],
                        b + 1,
                    ),
                forall|t: int| 0 <= t < 5 ==> (#[trigger] sp@[t]@).len() == 6,
                forall|t: int, b: int| 0 <= t < 5 && 0 <= b < 6 ==> #[trigger] sp@[t]@[b] < 3,
                total as int == delta_sum_upto(vs, a - 1),
                total <= 5 * (a - 1),
            decreases 7 - a,
        {
            let mut cur: usize = 3 + sp[1][a - 1] - sp[0][a - 1];
            let mut i2: usize = 1;
            while i2 < 4
                invariant
                    1 <= i2 <= 4,
                    1 <= a <= 6,
                    vs.len() == 5,
                    sp@.len() == 5,
                    forall|t: int, b: int|
                        0 <= t < 5 && 0 <= b < 6 ==> #[trigger] sp@[t]@[b] as int == idx_of(
                            vs[t],
                            b + 1,
                        ),
                    forall|t: int| 0 <= t < 5 ==> (#[trigger] sp@[t]@).len() == 6,
                    forall|t: int, b: int| 0 <= t < 5 && 0 <= b < 6 ==> #[trigger] sp@[t]@[b] < 3,
                    cur as int == min_delta_upto(vs, a as int, i2 as int),
                    1 <= cur <= 5,
                decreases 4 - i2,
            {
                let d: usize = 3 + sp[i2 + 1][a - 1] - sp[i2][a - 1];
                if d < cur {
                    cur = d;
                }
                i2 = i2 + 1;
            }
            total = total + cur;
            a = a + 1;
        }
        total
    }

    /// The largest per-alliance field bias of this schedule, scaled by
    /// NUM_SERIES: sum each alliance's +1/-1 field assignments over the
    /// five rounds and take the maximum over the alliances. The mean bias
    /// of the most biased alliance is this value divided by NUM_SERIES.
    pub fn max_field_sep(&self) -> (r: i64)
        requires
            self.wf(),
        ensures
            r as int == max_field(self.views()),
    {
        let ghost vs = self.views();
        let mut fields: Vec<Vec<i64>> = Vec::new();
        let mut i: usize = 0;
        while i < 5
            invariant
                i <= 5,
                self.wf(),
                vs == self.views(),
                fields@.len() == i,
                forall|t: int, b: int|
                    0 <= t < i && 0 <= b < 6 ==> #[trigger] fields@[t]@[b] as int == field_val(
                        vs[t],
                        t,
                        b + 1,
                    ),
                forall|t: int| 0 <= t < i ==> (#[trigger] fields@[t]@).len() == 6,
            decreases 5 - i,
        {
            let row = self.series[i].get_fields(i);
            proof {
                assert(vs[i as int] == self.series@[i as int].matches@);
            }
            fields.push(row);
            i = i + 1;
        }
        let mut best: i64 = Self::field_sum_exec(&fields, 1, Ghost(vs));
        proof {
            assert(best as int == max_field_upto(vs, 1));
        }
        let mut a: usize = 2;
        while a <= 6
            invariant
                2 <= a <= 7,
                vs.len() == 5,
                fields@.len() == 5,
                forall|t: int, b: int|
                    0 <= t < 5 && 0 <= b < 6 ==> #[trigger] fields@[t]@[b] as int == field_val(
                        vs[t],
                        t,
                        b + 1,
                    ),
                forall|t: int| 0 <= t < 5 ==> (#[trigger] fields@[t]@).len() == 6,
                best as int == max_field_upto(vs, a - 1),
                -5 <= best <= 5,
            decreases 7 - a,
        {
            let c = Self::field_sum_exec(&fields, a, Ghost(vs));
            if c > best {
                best = c;
            }
            a = a + 1;
        }
        best
    }

    /// The field bias sum of one alliance over the five rounds.
    fn field_sum_exec(fields: &Vec<Vec<i64>>, a: usize, Ghost(vs): Ghost<Seq<Seq<Match>>>) -> (r:
        i64)
        requires
            fields@.len() == 5,
            1 <= a <= 6,
            forall|t: int| 0 <= t < 5 ==> (#[trigger] fields@[t]@).len() == 6,
            forall|t: int, b: int|
                0 <= t < 5 && 0 <= b < 6 ==> -1 <= #[trigger] fields@[t]@[b] <= 1,
            forall|t: int, b: int|
                0 <= t < 5 && 0 <= b < 6 ==> #[trigger] fields@[t]@[b] as int == field_val(
                    vs[t],
                    t,
                    b + 1,
                ),
        ensures
            r as int == field_sum(vs, a as int),
            -5 <= r <= 5,
    {
        let mut s: i64 = 0;
        let mut i: usize = 0;
        while i < 5
            invariant
                i <= 5,
                1 <= a <= 6,
                fields@.len() == 5,
                forall|t: int| 0 <= t < 5 ==> (#[trigger] fields@[t]@).len() == 6,
                forall|t: int, b: int|
                    0 <= t < 5 && 0 <= b < 6 ==> -1 <= #[trigger] fields@[t]@[b] <= 1,
                forall|t: int, b: int|
                    0 <= t < 5 && 0 <= b < 6 ==> #[trigger] fields@[t]@[b] as int == field_val(
                        vs[t],
                        t,
                        b + 1,
                    ),
                -(i as i64) <= s <= i as i64,
                s as int == field_sum_upto(vs, a as int, i as int),
            decreases 5 - i,
        {
            s = s + fields[i][a - 1];
            i = i + 1;
        }
        s
    }
}

} // verus!
