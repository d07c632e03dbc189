//! The single-window policy: one measurement from the start of the
//! workload to its end.

use crate::command::duration_ms_between;
use crate::measurement::MeasurementResult;
use crate::source::{Metric, SourceResult};
use vstd::prelude::*;
use vstd::string::StrSliceExecFns;

verus! {

/// The metrics of all the phases, phase after phase.
pub open spec fn flattened(measures: Seq<Vec<Metric>>) -> Seq<Metric>
    decreases measures.len(),
{
    if measures.len() == 0 {
        Seq::empty()
    } else {
        flattened(measures.drop_last()) + measures.last()@
    }
}

/// Lexicographic order of texts by the code points of their characters,
/// which is the order of strings.
pub open spec fn text_le(a: Seq<char>, b: Seq<char>) -> bool
    decreases a.len(),
{
    if a.len() == 0 {
        true
    } else if b.len() == 0 {
        false
    } else {
        a[0] < b[0] || (a[0] == b[0] && text_le(a.drop_first(), b.drop_first()))
    }
}

/// `places` lists each position of a sequence of length `n` once.
pub open spec fn is_rearrangement(places: Seq<int>, n: nat) -> bool {
    &&& places.len() == n
    &&& forall|k: int| 0 <= k < n ==> 0 <= #[trigger] places[k] < n
    &&& forall|k: int, l: int| 0 <= k < l < n ==> #[trigger] places[k] != #[trigger] places[l]
}

/// `sorted` holds the metrics of `metrics` in the order of their names,
/// those of one name in the order in which they stood.
pub open spec fn sorted_by_name(metrics: Seq<Metric>, sorted: Seq<Metric>) -> bool {
    exists|places: Seq<int>|
        {
            &&& #[trigger] is_rearrangement(places, metrics.len())
            &&& sorted.len() == metrics.len()
            &&& forall|k: int| 0 <= k < sorted.len() ==> #[trigger] sorted[k] == metrics[places[k]]
            &&& forall|k: int, l: int|
                0 <= k < l < sorted.len() ==> text_le(
                    (#[trigger] sorted[k]).name@,
                    (#[trigger] sorted[l]).name@,
                )
            &&& forall|k: int, l: int|
                0 <= k < l < sorted.len() && sorted[k].name@ == sorted[l].name@ ==> #[trigger] places[k]
                    < #[trigger] places[l]
        }
}

/// Every text comes at or before itself.
proof fn lemma_text_le_reflexive(a: Seq<char>)
    ensures
        text_le(a, a),
    decreases a.len(),
{
    if a.len() > 0 {
        lemma_text_le_reflexive(a.drop_first());
    }
}

/// Of two texts one comes at or before the other.
proof fn lemma_text_le_total(a: Seq<char>, b: Seq<char>)
    ensures
        text_le(a, b) || text_le(b, a),
    decreases a.len(),
{
    if a.len() > 0 && b.len() > 0 {
        lemma_text_le_total(a.drop_first(), b.drop_first());
    }
}

/// The order of texts is transitive.
proof fn lemma_text_le_transitive(a: Seq<char>, b: Seq<char>, c: Seq<char>)
    requires
        text_le(a, b),
        text_le(b, c),
    ensures
        text_le(a, c),
    decreases a.len(),
{
    if a.len() > 0 && b.len() > 0 && c.len() > 0 {
        if a[0] == b[0] && b[0] == c[0] {
            lemma_text_le_transitive(a.drop_first(), b.drop_first(), c.drop_first());
        }
    }
}

/// Whether `a` comes at or before `b` in the order of strings.
pub fn name_le(a: &str, b: &str) -> (r: bool)
    ensures
        r == text_le(a@, b@),
{
    let n = a.unicode_len();
    let m = b.unicode_len();
    let mut i: usize = 0;
    proof {
        assert(a@.skip(0) =~= a@);
        assert(b@.skip(0) =~= b@);
    }
    while i < n && i < m
        invariant
            0 <= i <= n,
            i <= m,
            n == a@.len(),
            m == b@.len(),
            text_le(a@, b@) == text_le(a@.skip(i as int), b@.skip(i as int)),
        decreases n - i,
    {
        let x = a.get_char(i);
        let y = b.get_char(i);
        proof {
            assert(a@.skip(i as int)[0] == x);
            assert(b@.skip(i as int)[0] == y);
            assert(a@.skip(i as int).drop_first() =~= a@.skip(i + 1));
            assert(b@.skip(i as int).drop_first() =~= b@.skip(i + 1));
        }
        if x < y {
            return true;
        }
        if x > y {
            return false;
        }
        i += 1;
    }
    i == n
}

/// The metrics in the order of their names, which is the order of
/// strings; metrics of one name keep the order in which they stood.
pub fn sort_by_name(metrics: &Vec<Metric>) -> (sorted: Vec<Metric>)
    ensures
        sorted_by_name(metrics@, sorted@),
{
    let mut sorted: Vec<Metric> = Vec::new();
    let ghost mut places: Seq<int> = Seq::empty();
    let mut k: usize = 0;
    while k < metrics.len()
        invariant
            0 <= k <= metrics@.len(),
            sorted@.len() == k,
            is_rearrangement(places, k as nat),
            forall|j: int| 0 <= j < k ==> #[trigger] sorted@[j] == metrics@[places[j]],
            forall|j: int, l: int|
                0 <= j < l < k ==> text_le((#[trigger] sorted@[j]).name@, (#[trigger] sorted@[l]).name@),
            forall|j: int, l: int|
                0 <= j < l < k && sorted@[j].name@ == sorted@[l].name@ ==> #[trigger] places[j]
                    < #[trigger] places[l],
        decreases metrics@.len() - k,
    {
        let x = metrics[k].clone();
        let mut p: usize = k;
        while p > 0 && !name_le(sorted[p - 1].name.as_str(), x.name.as_str())
            invariant
                0 <= p <= k,
                sorted@.len() == k,
                forall|j: int| p <= j < k ==> !text_le((#[trigger] sorted@[j]).name@, x.name@),
            decreases p,
        {
            p -= 1;
        }
        let ghost before = sorted@;
        let ghost old_places = places;
        sorted.insert(p, x);
        proof {
            places = old_places.insert(p as int, k as int);
            before.insert_ensures(p as int, x);
            old_places.insert_ensures(p as int, k as int);
            let after = sorted@;
            assert forall|j: int| 0 <= j < k + 1 implies 0 <= #[trigger] places[j] < k + 1 by {
                if j < p {
                    assert(places[j] == old_places[j]);
                } else if j > p {
                    assert(places[j] == old_places[j - 1]);
                }
            }
            assert forall|j: int, l: int| 0 <= j < l < k + 1 implies #[trigger] places[j]
                != #[trigger] places[l] by {
                let pj = if j < p {
                    j
                } else {
                    j - 1
                };
                let pl = if l < p {
                    l
                } else {
                    l - 1
                };
                if j != p {
                    assert(places[j] == old_places[pj]);
                }
                if l != p {
                    assert(places[l] == old_places[pl]);
                }
            }
            assert forall|j: int| 0 <= j < k + 1 implies #[trigger] after[j]
                == metrics@[places[j]] by {
                if j < p {
                    assert(after[j] == before[j]);
                    assert(places[j] == old_places[j]);
                } else if j > p {
                    assert(after[j] == before[j - 1]);
                    assert(places[j] == old_places[j - 1]);
                }
            }
            assert forall|j: int, l: int| 0 <= j < l < k + 1 implies text_le(
                (#[trigger] after[j]).name@,
                (#[trigger] after[l]).name@,
            ) by {
                if l < p {
                    assert(after[j] == before[j] && after[l] == before[l]);
                } else if l == p {
                    assert(after[j] == before[j]);
                    assert(text_le(before[p - 1].name@, x.name@));
                    if j < p - 1 {
                        assert(text_le(before[j].name@, before[p - 1].name@));
                        lemma_text_le_transitive(
                            before[j].name@,
                            before[p - 1].name@,
                            x.name@,
                        );
                    }
                } else if j == p {
                    assert(after[l] == before[l - 1]);
                    assert(!text_le(before[l - 1].name@, x.name@));
                    lemma_text_le_total(before[l - 1].name@, x.name@);
                } else if j < p {
                    assert(after[j] == before[j] && after[l] == before[l - 1]);
                } else {
                    assert(after[j] == before[j - 1] && after[l] == before[l - 1]);
                }
            }
            assert forall|j: int, l: int|
                0 <= j < l < k + 1 && after[j].name@ == after[l].name@ implies #[trigger] places[j]
                < #[trigger] places[l] by {
                if l < p {
                    assert(after[j] == before[j] && after[l] == before[l]);
                    assert(places[j] == old_places[j] && places[l] == old_places[l]);
                } else if l == p {
                    assert(places[j] == old_places[j]);
                } else if j == p {
                    assert(after[l] == before[l - 1]);
                    lemma_text_le_reflexive(x.name@);
                } else if j < p {
                    assert(after[j] == before[j] && after[l] == before[l - 1]);
                    assert(places[j] == old_places[j] && places[l] == old_places[l - 1]);
                } else {
                    assert(after[j] == before[j - 1] && after[l] == before[l - 1]);
                    assert(places[j] == old_places[j - 1] && places[l] == old_places[l - 1]);
                }
            }
        }
        k += 1;
    }
    proof {
        assert(is_rearrangement(places, metrics@.len()));
    }
    sorted
}

/// The result of a run in one window: all the metrics that the sources
/// merged, sorted by name, with the duration between the two timestamps.
pub fn measure_simple(result: SourceResult, exit_code: i32, begin_time: u128, end_time: u128) -> (
    measured: MeasurementResult
)
    requires
        begin_time <= end_time,
    ensures
        sorted_by_name(flattened(result.measures@), measured.metrics@),
        measured.duration_ms == duration_ms_between(begin_time, end_time),
        measured.exit_code == exit_code,
        measured.measure_count == result.count,
        measured.measure_delta == result.measure_delta,
{
    let mut metrics: Vec<Metric> = Vec::new();
    let mut p: usize = 0;
    proof {
        assert(result.measures@.take(0) =~= Seq::<Vec<Metric>>::empty());
    }
    while p < result.measures.len()
        invariant
            0 <= p <= result.measures@.len(),
            metrics@ == flattened(result.measures@.take(p as int)),
        decreases result.measures@.len() - p,
    {
        let phase = &result.measures[p];
        let ghost before = metrics@;
        let mut m: usize = 0;
        while m < phase.len()
            invariant
                0 <= m <= phase@.len(),
                metrics@ == before + phase@.take(m as int),
            decreases phase@.len() - m,
        {
            metrics.push(phase[m].clone());
            assert(phase@.take(m as int).push(phase@[m as int]) =~= phase@.take(m + 1));
            m += 1;
        }
        proof {
            assert(phase@.take(m as int) =~= phase@);
            assert(result.measures@.take(p + 1).drop_last() =~= result.measures@.take(p as int));
            assert(result.measures@.take(p + 1).last() == result.measures@[p as int]);
        }
        p += 1;
    }
    proof {
        assert(result.measures@.take(p as int) =~= result.measures@);
    }
    let metrics = sort_by_name(&metrics);
    let duration_ms = (end_time - begin_time) / 1000;
    MeasurementResult {
        exit_code,
        duration_ms,
        measure_count: result.count,
        metrics,
        measure_delta: result.measure_delta,
    }
}

} // verus!
