//! The persisted form of a schedule collection: plain nested lists, one
//! pair of alliance identifiers per match. Coverage matrices are not
//! persisted; they are rebuilt from the matches on loading.

use vstd::prelude::*;
use crate::pairing::Match;
use crate::schedule::{coverage_ok, delta_sum, max_field, Schedule};
use crate::series::Series;

verus! {

/// The persisted pairs of one round's match list.
pub open spec fn pairs_of_matches(ms: Seq<Match>) -> Seq<(usize, usize)> {
    Seq::new(ms.len(), |k: int| (ms[k].0, ms[k].1))
}

/// One schedule's persisted record: its rounds, each as its match pairs.
pub open spec fn encode_sched(vs: Seq<Seq<Match>>) -> Seq<Seq<(usize, usize)>> {
    Seq::new(vs.len(), |i: int| pairs_of_matches(vs[i]))
}

/// The persisted records of a whole schedule collection.
pub open spec fn encode_all(xs: Seq<Seq<Seq<Match>>>) -> Seq<Seq<Seq<(usize, usize)>>> {
    Seq::new(xs.len(), |i: int| encode_sched(xs[i]))
}

/// The match list a persisted round decodes to.
pub open spec fn matches_of_pairs(ps: Seq<(usize, usize)>) -> Seq<Match> {
    Seq::new(ps.len(), |k: int| Match(ps[k].0, ps[k].1))
}

/// The match lists a persisted schedule record decodes to.
pub open spec fn decode_sched(d: Seq<Seq<(usize, usize)>>) -> Seq<Seq<Match>> {
    Seq::new(d.len(), |i: int| matches_of_pairs(d[i]))
}

/// Every record of the collection decodes to rounds that satisfy the
/// coverage invariant.
pub open spec fn decodable(ds: Seq<Seq<Seq<(usize, usize)>>>) -> bool {
    forall|i: int| 0 <= i < ds.len() ==> coverage_ok(decode_sched(#[trigger] ds[i]))
}

/// The nested mathematical value of a record collection.
pub open spec fn rec_view(d: Vec<Vec<Vec<(usize, usize)>>>) -> Seq<Seq<Seq<(usize, usize)>>> {
    Seq::new(d@.len(), |i: int| Seq::new(d@[i]@.len(), |j: int| d@[i]@[j]@))
}

/// The views of a schedule collection.
pub open spec fn scheds_views(ss: Seq<Schedule>) -> Seq<Seq<Seq<Match>>> {
    Seq::new(ss.len(), |i: int| ss[i].views())
}

/// Serialize a schedule collection to its persisted record form.
pub fn to_pairs(schedules: &Vec<Schedule>) -> (r: Vec<Vec<Vec<(usize, usize)>>>)
    requires
        forall|k: int| 0 <= k < schedules@.len() ==> (#[trigger] schedules@[k]).wf(),
    ensures
        rec_view(r) == encode_all(scheds_views(schedules@)),
{
    let mut r: Vec<Vec<Vec<(usize, usize)>>> = Vec::new();
    let mut i: usize = 0;
    while i < schedules.len()
        invariant
            i <= schedules@.len(),
            forall|k: int| 0 <= k < schedules@.len() ==> (#[trigger] schedules@[k]).wf(),
            r@.len() == i,
            forall|k: int|
                0 <= k < i ==> (Seq::new((#[trigger] r@[k])@.len(), |j: int| r@[k]@[j]@))
                    == encode_sched(schedules@[k].views()),
        decreases schedules@.len() - i,
    {
        let sched = &schedules[i];
        let mut rec: Vec<Vec<(usize, usize)>> = Vec::new();
        let mut j: usize = 0;
        while j < 5
            invariant
                j <= 5,
                sched.wf(),
                rec@.len() == j,
                forall|t: int|
                    0 <= t < j ==> (#[trigger] rec@[t])@ == pairs_of_matches(sched.views()[t]),
            decreases 5 - j,
        {
            let series = &sched.series[j];
            let mut row: Vec<(usize, usize)> = Vec::new();
            let mut k: usize = 0;
            while k < 3
                invariant
                    k <= 3,
                    sched.wf(),
                    j < 5,
                    series == &sched.series[j as int],
                    row@.len() == k,
                    forall|t: int|
                        0 <= t < k ==> #[trigger] row@[t] == (series.matches@[t].0,
                        series.matches@[t].1),
                decreases 3 - k,
            {
                let m = series.matches[k];
                row.push((m.0, m.1));
                k = k + 1;
            }
            proof {
                assert(row@ =~= pairs_of_matches(sched.views()[j as int]));
            }
            rec.push(row);
            j = j + 1;
        }
        proof {
            assert((Seq::new(rec@.len(), |j: int| rec@[j]@)) =~= encode_sched(sched.views()));
        }
        r.push(rec);
        i = i + 1;
    }
    proof {
        assert(rec_view(r) =~= encode_all(scheds_views(schedules@)));
    }
    r
}

/// Reload a schedule collection from its persisted record form, rebuilding
/// every coverage matrix from the recorded matches. Yields a value exactly
/// when every record decodes to rounds satisfying the coverage invariant;
/// a damaged record makes the whole load fail.
pub fn from_pairs(data: &Vec<Vec<Vec<(usize, usize)>>>) -> (r: Option<Vec<Schedule>>)
    ensures
        r.is_some() <==> decodable(rec_view(*data)),
        r matches Some(out) ==> out@.len() == data@.len() && forall|i: int|
            0 <= i < out@.len() ==> (#[trigger] out@[i]).wf() && out@[i].views() == decode_sched(
                rec_view(*data)[i],
            ),
{
    let ghost dv = rec_view(*data);
    let mut out: Vec<Schedule> = Vec::new();
    let mut i: usize = 0;
    while i < data.len()
        invariant
            i <= data@.len(),
            dv == rec_view(*data),
            dv.len() == data@.len(),
            out@.len() == i,
            forall|k: int|
                0 <= k < i ==> coverage_ok(decode_sched(#[trigger] dv[k])),
            forall|k: int|
                0 <= k < i ==> (#[trigger] out@[k]).wf() && out@[k].views() == decode_sched(dv[k]),
        decreases data@.len() - i,
    {
        let rec = &data[i];
        if rec.len() != 5 {
            proof {
                assert(decode_sched(dv[i as int]).len() != 5);
                assert(!coverage_ok(decode_sched(dv[i as int])));
            }
            return None;
        }
        let mut entry: Vec<Series> = Vec::new();
        let mut j: usize = 0;
        while j < 5
            invariant
                j <= 5,
                i < data@.len(),
                dv == rec_view(*data),
                dv.len() == data@.len(),
                rec == &data@[i as int],
                rec@.len() == 5,
                entry@.len() == j,
                forall|t: int|
                    0 <= t < j ==> (#[trigger] entry@[t]).wf() && entry@[t].matches@
                        == decode_sched(dv[i as int])[t],
            decreases 5 - j,
        {
            let row = &rec[j];
            let mut ms: Vec<Match> = Vec::new();
            let mut k: usize = 0;
            while k < row.len()
                invariant
                    k <= row@.len(),
                    ms@.len() == k,
                    forall|t: int|
                        0 <= t < k ==> #[trigger] ms@[t] == Match(row@[t].0, row@[t].1),
                decreases row@.len() - k,
            {
                let p = row[k];
                ms.push(Match(p.0, p.1));
                k = k + 1;
            }
            proof {
                assert(ms@ =~= matches_of_pairs(row@));
                assert(row@ == dv[i as int][j as int]);
                assert(matches_of_pairs(row@) == decode_sched(dv[i as int])[j as int]);
            }
            match Series::from_matches(ms) {
                Some(s) => {
                    entry.push(s);
                },
                None => {
                    proof {
                        assert(!crate::series::matches_wf(
                            decode_sched(dv[i as int])[j as int],
                        ));
                        assert(!coverage_ok(decode_sched(dv[i as int])));
                    }
                    return None;
                },
            }
            j = j + 1;
        }
        proof {
            assert(crate::schedule::views_of(entry@) =~= decode_sched(dv[i as int]));
        }
        match Schedule::from_series(entry) {
            Some(s) => {
                out.push(s);
            },
            None => {
                proof {
                    assert(!coverage_ok(decode_sched(dv[i as int])));
                }
                return None;
            },
        }
        i = i + 1;
    }
    Some(out)
}

/// Round trip: persisting a collection of valid schedules and reloading it
/// reproduces rounds with the same match lists, hence identical recomputed
/// coverage matrices, and both scoring metrics recompute to the same
/// values.
pub proof fn lemma_round_trip(ss: Seq<Schedule>)
    requires
        forall|k: int| 0 <= k < ss.len() ==> (#[trigger] ss[k]).wf(),
    ensures
        decodable(encode_all(scheds_views(ss))),
        forall|k: int|
            0 <= k < ss.len() ==> decode_sched(#[trigger] encode_all(scheds_views(ss))[k])
                == ss[k].views(),
        forall|k: int|
            0 <= k < ss.len() ==> delta_sum(
                decode_sched(#[trigger] encode_all(scheds_views(ss))[k]),
            ) == delta_sum(ss[k].views()),
        forall|k: int|
            0 <= k < ss.len() ==> max_field(
                decode_sched(#[trigger] encode_all(scheds_views(ss))[k]),
            ) == max_field(ss[k].views()),
{
    assert forall|k: int| 0 <= k < ss.len() implies decode_sched(
        #[trigger] encode_all(scheds_views(ss))[k],
    ) == ss[k].views() by {
        let vs = ss[k].views();
        assert forall|i: int| 0 <= i < vs.len() implies matches_of_pairs(
            pairs_of_matches(#[trigger] vs[i]),
        ) == vs[i] by {
            assert(matches_of_pairs(pairs_of_matches(vs[i])) =~= vs[i]);
        }
        assert(decode_sched(encode_sched(vs)) =~= vs);
    }
    assert forall|k: int| 0 <= k < ss.len() implies coverage_ok(
        decode_sched(#[trigger] encode_all(scheds_views(ss))[k]),
    ) by {
        assert(decode_sched(encode_all(scheds_views(ss))[k]) == ss[k].views());
        assert(coverage_ok(ss[k].views()));
    }
}

/// Two well-formed series with the same matches carry the same coverage
/// matrix: the matrix is determined by the matches, so rebuilding it on
/// load reproduces the persisted schedule's matrix exactly.
pub proof fn lemma_matrix_determined(s1: Series, s2: Series)
    requires
        s1.wf(),
        s2.wf(),
        s1.matches@ == s2.matches@,
    ensures
        s1.plays.cells@ == s2.plays.cells@,
{
    assert forall|t: int| 0 <= t < 36 implies s1.plays.cells@[t] == s2.plays.cells@[t] by {
        let i = t / 6;
        let j = t % 6;
        assert(0 <= i < 6 && 0 <= j < 6);
        assert(i * 6 + j == t);
        assert(s1.plays.at(i, j) == s2.plays.at(i, j));
    }
    assert(s1.plays.cells@ =~= s2.plays.cells@);
}

} // verus!
