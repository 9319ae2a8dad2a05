//! The search driver: enumerate ordered five-tuples drawn from the series
//! universe, keep the tuples that form valid schedules and pass the
//! adjacency filter, and select the best survivor.

use vstd::prelude::*;
use crate::pairing::Match;
use crate::perms::{falling, index_perms, k_permutations_up_to};
use crate::schedule::{b2b_ok, coverage_ok, delta_sum, views_of, Schedule};
use crate::series::{universe_of, Series};

verus! {

/// n factorial.
pub open spec fn fact(n: int) -> nat
    decreases n,
{
    if n <= 0 {
        1
    } else {
        (n * fact(n - 1)) as nat
    }
}

proof fn lemma_fact_pos(n: int)
    ensures
        fact(n) >= 1,
    decreases n,
{
    if n > 0 {
        lemma_fact_pos(n - 1);
        assert(n * fact(n - 1) >= fact(n - 1)) by (nonlinear_arith)
            requires
                n >= 1,
                fact(n - 1) >= 0,
        ;
    }
}

proof fn lemma_fact_mono(i: int, j: int)
    requires
        0 <= i <= j,
    ensures
        fact(i) <= fact(j),
    decreases j,
{
    if i < j {
        lemma_fact_mono(i, j - 1);
        lemma_fact_pos(j - 1);
        assert(j * fact(j - 1) >= fact(j - 1)) by (nonlinear_arith)
            requires
                j >= 1,
                fact(j - 1) >= 0,
        ;
    }
}

/// n factorial, as a machine integer.
pub fn factorial(n: u64) -> (r: u64)
    requires
        n <= 20,
    ensures
        r as nat == fact(n as int),
{
    proof {
        reveal_with_fuel(fact, 21);
        assert(fact(20) == 2432902008176640000);
    }
    let mut acc: u64 = 1;
    let mut i: u64 = 1;
    while i <= n
        invariant
            1 <= i <= n + 1,
            n <= 20,
            acc as nat == fact(i as int - 1),
            fact(20) == 2432902008176640000,
        decreases n + 1 - i,
    {
        proof {
            lemma_fact_mono(i as int, 20);
            assert(fact(i as int) == i * fact(i as int - 1));
        }
        acc = acc * i;
        i = i + 1;
    }
    acc
}

/// An upper bound on falling factorials whose starting point is at most
/// the full permutation count of the six alliances.
pub open spec fn pow720(k: int) -> nat
    decreases k,
{
    if k <= 0 {
        1
    } else {
        (720 * pow720(k - 1)) as nat
    }
}

proof fn lemma_falling_le_pow(n: int, k: int)
    requires
        0 <= n <= 720,
        0 <= k,
    ensures
        falling(n, k) <= pow720(k),
    decreases k,
{
    if k > 0 && n > 0 {
        lemma_falling_le_pow(n - 1, k - 1);
        assert(n * falling(n - 1, k - 1) <= 720 * pow720(k - 1)) by (nonlinear_arith)
            requires
                0 <= n <= 720,
                0 <= falling(n - 1, k - 1) <= pow720(k - 1),
        ;
    }
}

proof fn lemma_pow720_mono(i: int, j: int)
    requires
        0 <= i <= j,
    ensures
        pow720(i) <= pow720(j),
    decreases j,
{
    if i < j {
        lemma_pow720_mono(i, j - 1);
        assert(720 * pow720(j - 1) >= pow720(j - 1)) by (nonlinear_arith)
            requires
                pow720(j - 1) >= 0,
        ;
    }
}

proof fn lemma_falling_step(n: int, k: int)
    requires
        0 <= k < n,
    ensures
        falling(n, k + 1) == falling(n, k) * (n - k),
    decreases k,
{
    if k == 0 {
        assert(falling(n, 1) == n * falling(n - 1, 0));
        assert(falling(n - 1, 0) == 1);
        assert(falling(n, 0) == 1);
        assert(falling(n, 1) == falling(n, 0) * n) by (nonlinear_arith)
            requires
                falling(n, 1) == n * falling(n - 1, 0),
                falling(n - 1, 0) == 1,
                falling(n, 0) == 1,
        ;
    } else {
        lemma_falling_step(n - 1, k - 1);
        assert(falling(n, k + 1) == n * falling(n - 1, k));
        assert(falling(n, k) == n * falling(n - 1, k - 1));
        assert(falling(n - 1, k) == falling(n - 1, k - 1) * (n - k));
        assert(falling(n, k + 1) == falling(n, k) * (n - k)) by (nonlinear_arith)
            requires
                falling(n, k + 1) == n * falling(n - 1, k),
                falling(n, k) == n * falling(n - 1, k - 1),
                falling(n - 1, k) == falling(n - 1, k - 1) * (n - k),
        ;
    }
}

/// The number of ordered five-tuples that can be drawn from a universe of
/// `series` distinct series: the falling factorial over NUM_SERIES draws.
pub fn total_iterations(series: u64) -> (r: u64)
    requires
        series <= 720,
    ensures
        r as nat == falling(series as int, crate::NUM_SERIES as int),
{
    proof {
        reveal_with_fuel(pow720, 7);
        assert(pow720(5) == 193491763200000);
    }
    let mut acc: u64 = 1;
    let mut j: u64 = 0;
    while j < 5
        invariant
            j <= 5,
            series <= 720,
            acc as nat == falling(series as int, j as int),
            pow720(5) == 193491763200000,
        decreases 5 - j,
    {
        proof {
            lemma_falling_le_pow(series as int, j as int);
            lemma_falling_le_pow(series as int, j as int + 1);
        }
        if series > j {
            proof {
                lemma_falling_step(series as int, j as int);
                lemma_pow720_mono(j as int + 1, 5);
                assert(acc * (series - j) == falling(series as int, j as int + 1))
                    by (nonlinear_arith)
                    requires
                        acc as nat == falling(series as int, j as int),
                        series > j,
                        falling(series as int, j as int + 1) == falling(series as int, j as int)
                            * (series as int - j as int),
                ;
            }
            acc = acc * (series - j);
        } else {
            proof {
                lemma_falling_zero(series as int, j as int);
            }
            acc = 0;
        }
        j = j + 1;
    }
    acc
}

proof fn lemma_falling_zero(n: int, k: int)
    requires
        0 <= n <= k,
    ensures
        falling(n, k + 1) == 0,
    decreases n,
{
    if n > 0 {
        lemma_falling_zero(n - 1, k - 1);
        assert(falling(n, k + 1) == n * falling(n - 1, k));
        assert(falling(n, k + 1) == 0) by (nonlinear_arith)
            requires
                falling(n, k + 1) == n * falling(n - 1, k),
                falling(n - 1, k) == 0,
        ;
    } else {
        assert(falling(n, k + 1) == 0);
    }
}

/// The match lists of the five universe entries an index tuple picks.
pub open spec fn sched_of(uni: Seq<Seq<Match>>, p: Seq<usize>) -> Seq<Seq<Match>> {
    Seq::new(5, |k: int| uni[p[k] as int])
}

/// The index tuple picks five rounds that form a valid schedule and pass
/// the adjacency filter.
pub open spec fn tuple_ok(uni: Seq<Seq<Match>>, p: Seq<usize>) -> bool {
    &&& p.len() == 5
    &&& forall|t: int| 0 <= t < 5 ==> p[t] < uni.len()
    &&& coverage_ok(sched_of(uni, p))
    &&& b2b_ok(sched_of(uni, p))
}

/// The surviving schedules of an index tuple stream, in stream order.
pub open spec fn survivors_from(uni: Seq<Seq<Match>>, perms: Seq<Seq<usize>>) -> Seq<
    Seq<Seq<Match>>,
>
    decreases perms.len(),
{
    if perms.len() == 0 {
        Seq::empty()
    } else {
        let prev = survivors_from(uni, perms.drop_last());
        if tuple_ok(uni, perms.last()) {
            prev.push(sched_of(uni, perms.last()))
        } else {
            prev
        }
    }
}

/// The cap on examined tuples: the caller's cap if one is given, else the
/// largest count this platform could collect.
pub open spec fn cap_of(take: Option<usize>) -> int {
    match take {
        Some(t) => t as int,
        None => usize::MAX as int,
    }
}

/// The surviving schedules of the capped search over the whole universe.
pub open spec fn survivors_spec(take: Option<usize>) -> Seq<Seq<Seq<Match>>> {
    let uni = universe_of();
    let n = uni.len() as usize;
    let total = falling(n as int, crate::NUM_SERIES as int) as int;
    let count = if cap_of(take) <= total {
        cap_of(take)
    } else {
        total
    };
    survivors_from(uni, index_perms(n, 5).take(count))
}

/// Examine ordered five-tuples of distinct series from the universe, at
/// most `take` of them if a cap is given, and collect every tuple that
/// forms a valid schedule and passes the back-to-back filter, in
/// enumeration order.
pub fn get_valid_schedules(take: Option<usize>) -> (r: Vec<Schedule>)
    ensures
        r@.len() == survivors_spec(take).len(),
        forall|k: int|
            0 <= k < r@.len() ==> (#[trigger] r@[k]).wf() && r@[k].views() == survivors_spec(
                take,
            )[k],
{
    let universe = Series::get_permutations();
    let n = universe.len();
    let cap: usize = match take {
        Some(t) => t,
        None => usize::MAX,
    };
    let perms = k_permutations_up_to(n, 5, cap);
    let ghost uni = universe_of();
    let ghost pviews = Seq::new(perms@.len(), |i: int| perms@[i]@);
    proof {
        assert(pviews =~= index_perms(n, 5).take(pviews.len() as int));
        assert(pviews.len() as int == if cap_of(take) <= falling(n as int, 5) as int {
            cap_of(take)
        } else {
            falling(n as int, 5) as int
        });
    }
    let mut r: Vec<Schedule> = Vec::new();
    let mut pi: usize = 0;
    while pi < perms.len()
        invariant
            pi <= perms@.len(),
            uni == universe_of(),
            universe@.len() == uni.len(),
            n == universe@.len(),
            forall|i: int|
                0 <= i < uni.len() ==> (#[trigger] universe@[i]).wf() && universe@[i].matches@
                    == uni[i],
            pviews == Seq::new(perms@.len(), |i: int| perms@[i]@),
            forall|i: int| 0 <= i < perms@.len() ==> (#[trigger] perms@[i]@).len() == 5,
            forall|i: int, t: int|
                0 <= i < perms@.len() && 0 <= t < 5 ==> #[trigger] perms@[i]@[t] < n,
            r@.len() == survivors_from(uni, pviews.take(pi as int)).len(),
            forall|k: int|
                0 <= k < r@.len() ==> (#[trigger] r@[k]).wf() && r@[k].views() == survivors_from(
                    uni,
                    pviews.take(pi as int),
                )[k],
        decreases perms@.len() - pi,
    {
        let p = &perms[pi];
        let mut entry: Vec<Series> = Vec::new();
        let mut k: usize = 0;
        while k < 5
            invariant
                k <= 5,
                p@.len() == 5,
                forall|t: int| 0 <= t < 5 ==> #[trigger] p@[t] < n,
                n == universe@.len(),
                uni.len() == universe@.len(),
                forall|i: int|
                    0 <= i < uni.len() ==> (#[trigger] universe@[i]).wf() && universe@[i].matches@
                        == uni[i],
                entry@.len() == k,
                forall|t: int|
                    0 <= t < k ==> (#[trigger] entry@[t]).wf() && entry@[t].matches@ == uni[p@[t] as int],
            decreases 5 - k,
        {
            let dup = universe[p[k]].duplicate();
            proof {
                let orig = universe@[p@[k as int] as int];
                assert(orig.wf());
                assert forall|i: int, j: int| 0 <= i < 6 && 0 <= j < 6 implies dup.plays.at(i, j)
                    == orig.plays.at(i, j) by {}
                assert(dup.wf());
            }
            entry.push(dup);
            k = k + 1;
        }
        proof {
            assert(views_of(entry@) =~= sched_of(uni, p@));
            assert(pviews.take(pi as int + 1).drop_last() =~= pviews.take(pi as int));
            assert(pviews.take(pi as int + 1).last() == pviews[pi as int]);
            assert(pviews[pi as int] == p@);
        }
        match Schedule::from_series(entry) {
            Some(s) => {
                if s.check_back_to_back() {
                    proof {
                        assert(tuple_ok(uni, p@));
                        assert(s.views() == sched_of(uni, p@));
                    }
                    r.push(s);
                } else {
                    proof {
                        assert(!tuple_ok(uni, p@));
                    }
                }
            },
            None => {
                proof {
                    assert(!coverage_ok(sched_of(uni, p@)));
                    assert(!tuple_ok(uni, p@));
                }
            },
        }
        pi = pi + 1;
    }
    proof {
        assert(pviews.take(pviews.len() as int) =~= pviews);
    }
    r
}

/// The index of the best surviving schedule under the total order by
/// summed least rest gap: the first schedule whose metric no other
/// schedule exceeds. An empty collection has no best schedule.
pub fn best_schedule(schedules: &Vec<Schedule>) -> (r: Option<usize>)
    requires
        forall|k: int| 0 <= k < schedules@.len() ==> (#[trigger] schedules@[k]).wf(),
    ensures
        r.is_some() <==> schedules@.len() > 0,
        r matches Some(i) ==> i < schedules@.len() && (forall|j: int|
            0 <= j < schedules@.len() ==> delta_sum(#[trigger] schedules@[j].views()) <= delta_sum(
                schedules@[i as int].views(),
            )) && (forall|j: int|
            0 <= j < i ==> delta_sum(#[trigger] schedules@[j].views()) < delta_sum(
                schedules@[i as int].views(),
            )),
{
    if schedules.len() == 0 {
        return None;
    }
    let mut best: usize = 0;
    let mut best_val: usize = schedules[0].avg_min_delta();
    let mut k: usize = 1;
    while k < schedules.len()
        invariant
            1 <= k <= schedules@.len(),
            best < k,
            forall|t: int| 0 <= t < schedules@.len() ==> (#[trigger] schedules@[t]).wf(),
            best_val as int == delta_sum(schedules@[best as int].views()),
            forall|j: int|
                0 <= j < k ==> delta_sum(#[trigger] schedules@[j].views()) <= best_val as int,
            forall|j: int|
                0 <= j < best ==> delta_sum(#[trigger] schedules@[j].views()) < best_val as int,
        decreases schedules@.len() - k,
    {
        let v = schedules[k].avg_min_delta();
        if v > best_val {
            best = k;
            best_val = v;
        }
        k = k + 1;
    }
    Some(best)
}

} // verus!
