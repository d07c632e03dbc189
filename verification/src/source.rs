//! Measurement sources: what they report and how they are driven.

use crate::error::JouleProfilerError;
use crate::source::rapl::snapshot::{reports_first_uncovered, EnergySnapshot};
use crate::source::rapl::{
    describes_domains, reports_state, sampled, sampled_and_closed, Rapl, RaplState,
};
use std::time::Duration;
use vstd::prelude::*;

pub mod rapl;

verus! {

/// One reported value: the name of a counter, its value, the unit and the
/// source that measured it.
#[derive(Debug)]
pub struct Metric {
    pub name: String,
    pub value: u64,
    pub unit: String,
    pub source: String,
}

impl Clone for Metric {
    fn clone(&self) -> (copy: Self)
        ensures
            copy == *self,
    {
        Metric {
            name: self.name.clone(),
            value: self.value,
            unit: self.unit.clone(),
            source: self.source.clone(),
        }
    }
}

/// The metrics of one phase.
pub type Metrics = Vec<Metric>;

/// The commands that drive a source.
#[derive(Debug, Clone, Copy, PartialEq, Eq)]
pub enum SourceEvent {
    Measure,
    Phase,
    Start,
    Pause,
    Stop,
}

/// What a source hands back when it stops: the metrics of each phase in
/// order, the number of samples it took and the average time between two
/// samples, in microseconds.
#[derive(Debug)]
pub struct SourceResult {
    pub measures: Vec<Metrics>,
    pub count: u64,
    pub measure_delta: u128,
}

/// The description of a counter, whatever has been measured.
#[derive(Debug)]
pub struct Sensor {
    pub name: String,
    pub unit: String,
    pub source: String,
}

/// What every kind of source can do.
pub trait MetricReader {
    /// Measure the sensors metrics: take `reading` as the new sample.
    /// `None` stands for numbers too large to be accumulated.
    fn measure(&mut self, reading: EnergySnapshot) -> Option<Result<(), JouleProfilerError>>;

    /// Sample, then initialize a new measure phase. `None` stands for
    /// numbers too large to be accumulated.
    fn phase(&mut self, reading: EnergySnapshot) -> Option<Result<(), JouleProfilerError>>;

    /// Retrieve all sensors measures.
    fn retrieve(&mut self) -> Result<SourceResult, JouleProfilerError>;

    /// Get all the metric source sensors.
    fn get_sensors(&self) -> Result<Vec<Sensor>, JouleProfilerError>;

    /// Get the polling interval of the metric source if supported.
    fn get_polling_interval(&self) -> (interval: Option<Duration>)
        default_ensures
            interval is None,
    {
        None
    }

    fn get_name(&self) -> &'static str;
}

/// The kinds of source, each with its state.
#[derive(Debug)]
pub enum MetricSource {
    Rapl(Rapl),
}

impl View for MetricSource {
    type V = RaplState;

    open spec fn view(&self) -> RaplState {
        match self {
            MetricSource::Rapl(rapl) => rapl@,
        }
    }
}

impl MetricSource {
    /// The polling interval that the source was made with.
    pub open spec fn polling(&self) -> Option<Duration> {
        match self {
            MetricSource::Rapl(rapl) => rapl.polling(),
        }
    }
}

impl MetricSource {
    /// A source of the same kind over the same domains and with the same
    /// polling interval, that has sampled nothing yet.
    pub fn fresh(&self) -> (source: Self)
        ensures
            source@ == RaplState::initial(self@.domains),
            source.polling() == self.polling(),
    {
        match self {
            MetricSource::Rapl(rapl) => MetricSource::Rapl(rapl.fresh()),
        }
    }
}

impl Clone for MetricSource {
    fn clone(&self) -> (copy: Self)
        ensures
            copy@ == self@,
            copy.polling() == self.polling(),
    {
        match self {
            MetricSource::Rapl(rapl) => MetricSource::Rapl(rapl.clone()),
        }
    }
}

impl MetricReader for MetricSource {
    fn measure(&mut self, reading: EnergySnapshot) -> (r: Option<Result<(), JouleProfilerError>>)
        ensures
            final(self).polling() == old(self).polling(),
            match r {
                None => final(self)@ == old(self)@ && !old(self)@.can_sample(reading.energies_uj@),
                Some(outcome) => {
                    &&& old(self)@.can_sample(reading.energies_uj@)
                    &&& sampled(old(self)@, final(self)@, reading.energies_uj@)
                    &&& outcome is Err <==> old(self)@.record_fails(reading.energies_uj@)
                    &&& outcome matches Err(e) ==> reports_first_uncovered(
                        e,
                        old(self)@.domains,
                        old(self)@.last.unwrap(),
                        reading.energies_uj@,
                    )
                },
            },
    {
        match self {
            MetricSource::Rapl(rapl) => rapl.measure(reading),
        }
    }

    fn phase(&mut self, reading: EnergySnapshot) -> (r: Option<Result<(), JouleProfilerError>>)
        ensures
            final(self).polling() == old(self).polling(),
            match r {
                None => final(self)@ == old(self)@ && !old(self)@.can_sample(reading.energies_uj@),
                Some(outcome) => {
                    &&& old(self)@.can_sample(reading.energies_uj@)
                    &&& sampled_and_closed(old(self)@, final(self)@, reading.energies_uj@)
                    &&& outcome is Err <==> old(self)@.record_fails(reading.energies_uj@)
                    &&& outcome matches Err(e) ==> reports_first_uncovered(
                        e,
                        old(self)@.domains,
                        old(self)@.last.unwrap(),
                        reading.energies_uj@,
                    )
                },
            },
    {
        match self {
            MetricSource::Rapl(rapl) => rapl.phase(reading),
        }
    }

    fn retrieve(&mut self) -> (r: Result<SourceResult, JouleProfilerError>)
        ensures
            final(self)@ == old(self)@.flushed(),
            final(self).polling() == old(self).polling(),
            r matches Ok(result) && reports_state(result, old(self)@.flushed()),
    {
        match self {
            MetricSource::Rapl(rapl) => rapl.retrieve(),
        }
    }

    fn get_sensors(&self) -> (r: Result<Vec<Sensor>, JouleProfilerError>)
        ensures
            r matches Ok(sensors) && describes_domains(sensors@, self@.domains),
    {
        match self {
            MetricSource::Rapl(rapl) => rapl.get_sensors(),
        }
    }

    fn get_polling_interval(&self) -> (interval: Option<Duration>)
        ensures
            interval == self.polling(),
    {
        match self {
            MetricSource::Rapl(rapl) => rapl.get_polling_interval(),
        }
    }

    fn get_name(&self) -> (name: &'static str)
        ensures
            name@ == "Powercap"@,
    {
        match self {
            MetricSource::Rapl(rapl) => rapl.get_name(),
        }
    }
}

/// How a worker ended: with its source's result, with a failure of its
/// source, or abnormally.
#[derive(Debug)]
pub enum WorkerOutcome {
    Finished(SourceResult),
    Failed(JouleProfilerError),
    Panicked,
}

/// The results of the workers that finished, in the workers' order: a
/// worker that failed or ended abnormally leaves nothing.
pub open spec fn surviving(outcomes: Seq<WorkerOutcome>) -> Seq<SourceResult>
    decreases outcomes.len(),
{
    if outcomes.len() == 0 {
        Seq::empty()
    } else {
        match outcomes.last() {
            WorkerOutcome::Finished(result) => surviving(outcomes.drop_last()).push(result),
            _ => surviving(outcomes.drop_last()),
        }
    }
}

/// The largest number of phases that any of the results holds.
pub open spec fn max_phases(all: Seq<SourceResult>) -> nat
    decreases all.len(),
{
    if all.len() == 0 {
        0
    } else {
        let rest = max_phases(all.drop_last());
        if all.last().measures@.len() > rest {
            all.last().measures@.len()
        } else {
            rest
        }
    }
}

/// The metrics of phase `i` of all the results that have such a phase, one
/// result after the other.
pub open spec fn merged_phase(all: Seq<SourceResult>, i: int) -> Seq<Metric>
    decreases all.len(),
{
    if all.len() == 0 {
        Seq::empty()
    } else {
        merged_phase(all.drop_last(), i) + if 0 <= i < all.last().measures@.len() {
            all.last().measures@[i]@
        } else {
            Seq::empty()
        }
    }
}

/// Sum of the sample counts of the results.
pub open spec fn total_count(all: Seq<SourceResult>) -> nat
    decreases all.len(),
{
    if all.len() == 0 {
        0
    } else {
        total_count(all.drop_last()) + all.last().count as nat
    }
}

/// Sum of the average intervals of the results.
pub open spec fn total_delta(all: Seq<SourceResult>) -> nat
    decreases all.len(),
{
    if all.len() == 0 {
        0
    } else {
        total_delta(all.drop_last()) + all.last().measure_delta as nat
    }
}

/// The mean of `n` numbers that add up to `total`, rounded down; of no
/// number at all it is zero.
pub open spec fn mean(total: nat, n: nat) -> nat {
    if n == 0 {
        0
    } else {
        total / n
    }
}

/// `merged` is the merge of `all`: phase by phase the metrics of all the
/// results, and of the sample counts and the average intervals the mean.
/// The merge of no result has no phase, and zero for both means.
pub open spec fn merges(merged: SourceResult, all: Seq<SourceResult>) -> bool {
    &&& merged.measures@.len() == max_phases(all)
    &&& forall|i: int|
        0 <= i < merged.measures@.len() ==> (#[trigger] merged.measures@[i])@ == merged_phase(all, i)
    &&& merged.count == mean(total_count(all), all.len())
    &&& merged.measure_delta == mean(total_delta(all), all.len())
}

/// Unfolds the sums and the merge at the prefix of length `k + 1`.
proof fn lemma_surviving_step(outcomes: Seq<WorkerOutcome>, k: int)
    requires
        0 <= k < outcomes.len(),
    ensures
        outcomes[k] matches WorkerOutcome::Finished(result) ==> surviving(outcomes.take(k + 1))
            == surviving(outcomes.take(k)).push(result),
        !(outcomes[k] is Finished) ==> surviving(outcomes.take(k + 1)) == surviving(
            outcomes.take(k),
        ),
{
    assert(outcomes.take(k + 1).drop_last() =~= outcomes.take(k));
    assert(outcomes.take(k + 1).last() == outcomes[k]);
}

/// What one more result adds to the sums, the maximum and a merged phase.
proof fn lemma_push_result(all: Seq<SourceResult>, result: SourceResult)
    ensures
        total_count(all.push(result)) == total_count(all) + result.count,
        total_delta(all.push(result)) == total_delta(all) + result.measure_delta,
        max_phases(all.push(result)) == if result.measures@.len() > max_phases(all) {
            result.measures@.len()
        } else {
            max_phases(all)
        },
        forall|i: int| #[trigger]
            merged_phase(all.push(result), i) == merged_phase(all, i) + if 0 <= i
                < result.measures@.len() {
                result.measures@[i]@
            } else {
                Seq::empty()
            },
{
    assert(all.push(result).drop_last() =~= all);
    assert(all.push(result).last() == result);
}

/// The largest number of phases is the number of phases of one of the
/// results, and none of them has more.
pub proof fn lemma_max_phases(all: Seq<SourceResult>)
    ensures
        forall|k: int| 0 <= k < all.len() ==> (#[trigger] all[k]).measures@.len() <= max_phases(all),
        all.len() > 0 ==> exists|k: int|
            0 <= k < all.len() && (#[trigger] all[k]).measures@.len() == max_phases(all),
        all.len() == 0 ==> max_phases(all) == 0,
    decreases all.len(),
{
    if all.len() > 0 {
        let init = all.drop_last();
        lemma_max_phases(init);
        assert forall|k: int| 0 <= k < all.len() implies (#[trigger] all[k]).measures@.len()
            <= max_phases(all) by {
            if k < init.len() {
                assert(init[k] == all[k]);
            }
        }
        if all.last().measures@.len() > max_phases(init) || init.len() == 0 {
            assert(all[all.len() - 1].measures@.len() == max_phases(all));
        } else {
            let k = choose|k: int|
                0 <= k < init.len() && (#[trigger] init[k]).measures@.len() == max_phases(init);
            assert(all[k] == init[k]);
        }
    }
}

/// A worker that did not finish contributes nothing to the merge: the
/// surviving results are the same with it and without it.
pub proof fn lemma_failed_worker_leaves_nothing(outcomes: Seq<WorkerOutcome>, k: int)
    requires
        0 <= k < outcomes.len(),
        !(outcomes[k] is Finished),
    ensures
        surviving(outcomes) == surviving(outcomes.remove(k)),
    decreases outcomes.len(),
{
    let n = outcomes.len() - 1;
    if k == n {
        assert(outcomes.remove(k) =~= outcomes.drop_last());
    } else {
        lemma_failed_worker_leaves_nothing(outcomes.drop_last(), k);
        assert(outcomes.remove(k).drop_last() =~= outcomes.drop_last().remove(k));
        assert(outcomes.remove(k).last() == outcomes.last());
    }
}

/// The survivors of a part of the workers are no more than those of all.
proof fn lemma_survivors_of_prefix(outcomes: Seq<WorkerOutcome>, k: int)
    requires
        0 <= k <= outcomes.len(),
    ensures
        surviving(outcomes.take(k)).len() <= surviving(outcomes).len(),
    decreases outcomes.len() - k,
{
    if k == outcomes.len() {
        assert(outcomes.take(k) =~= outcomes);
    } else {
        lemma_survivors_of_prefix(outcomes, k + 1);
        lemma_surviving_step(outcomes, k);
    }
}

/// A sum written as so many times `n` and a rest has the mean that many
/// plus the mean of the rest.
proof fn lemma_mean_of_parts(total: nat, n: nat, quotients: nat, remainders: nat)
    requires
        n > 0,
        total == n * quotients + remainders,
    ensures
        total / n == quotients + remainders / n,
{
    vstd::arithmetic::div_mod::lemma_hoist_over_denominator(
        remainders as int,
        quotients as int,
        n,
    );
    assert(quotients * n == n * quotients) by (nonlinear_arith);
}

/// The merge of what the workers left to those that finished is the merge
/// without a worker that did not: such a worker adds no metric and no
/// empty phase, and does not count where the means are taken.
pub proof fn lemma_merge_leaves_failed_out(
    merged: SourceResult,
    outcomes: Seq<WorkerOutcome>,
    k: int,
)
    requires
        0 <= k < outcomes.len(),
        !(outcomes[k] is Finished),
        merges(merged, surviving(outcomes)),
    ensures
        merges(merged, surviving(outcomes.remove(k))),
{
    lemma_failed_worker_leaves_nothing(outcomes, k);
}

/// The merge has as many phases as the survivor with the most phases has,
/// and none where no worker survived.
pub proof fn lemma_merge_phase_count(merged: SourceResult, all: Seq<SourceResult>)
    requires
        merges(merged, all),
    ensures
        forall|j: int| 0 <= j < all.len() ==> (#[trigger] all[j]).measures@.len()
            <= merged.measures@.len(),
        all.len() > 0 ==> exists|j: int|
            0 <= j < all.len() && (#[trigger] all[j]).measures@.len() == merged.measures@.len(),
        all.len() == 0 ==> merged.measures@.len() == 0 && merged.count == 0
            && merged.measure_delta == 0,
{
    lemma_max_phases(all);
}

/// Merges what the workers left: phase by phase the metrics of all the
/// workers that finished, with the mean of their sample counts and of their
/// average intervals. A worker that failed or ended abnormally is left
/// out; where none finished, the merge has no phase and zero for both
/// means.
pub fn merge_outcomes(outcomes: &Vec<WorkerOutcome>) -> (merged: SourceResult)
    ensures
        merges(merged, surviving(outcomes@)),
{
    let ghost all = surviving(outcomes@);
    let mut nb_sources: usize = 0;
    let mut max_len: usize = 0;
    let mut count_sum: u128 = 0;
    let mut k: usize = 0;
    proof {
        assert(outcomes@.take(0) =~= Seq::<WorkerOutcome>::empty());
    }
    while k < outcomes.len()
        invariant
            0 <= k <= outcomes@.len(),
            nb_sources == surviving(outcomes@.take(k as int)).len(),
            nb_sources <= k,
            max_len == max_phases(surviving(outcomes@.take(k as int))),
            count_sum == total_count(surviving(outcomes@.take(k as int))),
            count_sum <= nb_sources * u64::MAX,
        decreases outcomes@.len() - k,
    {
        proof {
            lemma_surviving_step(outcomes@, k as int);
        }
        if let WorkerOutcome::Finished(result) = &outcomes[k] {
            proof {
                lemma_push_result(surviving(outcomes@.take(k as int)), *result);
                assert((nb_sources + 1) * u64::MAX == nb_sources * u64::MAX + u64::MAX)
                    by (nonlinear_arith);
                assert(nb_sources * u64::MAX <= usize::MAX * u64::MAX) by (nonlinear_arith)
                    requires
                        nb_sources <= usize::MAX,
                ;
                assert(usize::MAX * u64::MAX + u64::MAX <= u128::MAX) by (nonlinear_arith)
                    requires
                        usize::MAX <= u64::MAX,
                ;
            }
            nb_sources += 1;
            if result.measures.len() > max_len {
                max_len = result.measures.len();
            }
            count_sum = count_sum + result.count as u128;
        }
        k += 1;
    }
    proof {
        assert(outcomes@.take(k as int) =~= outcomes@);
    }
    if nb_sources == 0 {
        proof {
            assert(all =~= Seq::<SourceResult>::empty());
        }
        return SourceResult { measures: Vec::new(), count: 0, measure_delta: 0 };
    }
    let n: u128 = nb_sources as u128;
    let mut quotients: u128 = 0;
    let mut remainders: u128 = 0;
    let ghost mut seen: nat = 0;
    let mut w: usize = 0;
    proof {
        assert(outcomes@.take(0) =~= Seq::<WorkerOutcome>::empty());
        assert(n * 0 + 0 == 0) by (nonlinear_arith);
        assert(0 * (u128::MAX / n) == 0) by (nonlinear_arith);
        assert(0 * (n - 1) == 0) by (nonlinear_arith);
        assert(0 * u128::MAX == 0) by (nonlinear_arith);
    }
    while w < outcomes.len()
        invariant
            0 <= w <= outcomes@.len(),
            all == surviving(outcomes@),
            n == all.len(),
            0 < n <= usize::MAX,
            seen == surviving(outcomes@.take(w as int)).len(),
            seen <= n,
            total_delta(surviving(outcomes@.take(w as int))) == n * quotients + remainders,
            total_delta(surviving(outcomes@.take(w as int))) <= seen * u128::MAX,
            quotients <= seen * (u128::MAX / n),
            remainders <= seen * (n - 1),
        decreases outcomes@.len() - w,
    {
        proof {
            lemma_surviving_step(outcomes@, w as int);
        }
        if let WorkerOutcome::Finished(result) = &outcomes[w] {
            let delta = result.measure_delta;
            let q = delta / n;
            let r = delta % n;
            proof {
                lemma_push_result(surviving(outcomes@.take(w as int)), *result);
                lemma_survivors_of_prefix(outcomes@, w + 1);
                let cap = u128::MAX / n;
                assert(delta == n * q + r && q <= cap && r <= n - 1) by (nonlinear_arith)
                    requires
                        q == delta / n,
                        r == delta % n,
                        cap == u128::MAX / n,
                        0 < n,
                        0 <= delta <= u128::MAX,
                ;
                assert((seen + 1) * cap == seen * cap + cap && (seen + 1) * cap <= u128::MAX)
                    by (nonlinear_arith)
                    requires
                        seen + 1 <= n,
                        cap == u128::MAX / n,
                        0 < n,
                ;
                assert((seen + 1) * (n - 1) == seen * (n - 1) + (n - 1) && (seen + 1) * (n - 1)
                    <= u128::MAX) by (nonlinear_arith)
                    requires
                        seen + 1 <= n,
                        0 < n <= 0xffff_ffff_ffff_ffff,
                ;
                assert((seen + 1) * u128::MAX == seen * u128::MAX + u128::MAX)
                    by (nonlinear_arith);
                assert(n * (quotients + q) + (remainders + r) == (n * quotients + remainders) + (n
                    * q + r)) by (nonlinear_arith);
                seen = seen + 1;
            }
            quotients = quotients + q;
            remainders = remainders + r;
        }
        w += 1;
    }
    proof {
        assert(outcomes@.take(w as int) =~= outcomes@);
        lemma_mean_of_parts(total_delta(all), n as nat, quotients as nat, remainders as nat);
        assert(total_delta(all) / (n as nat) <= u128::MAX) by (nonlinear_arith)
            requires
                total_delta(all) <= n * u128::MAX,
                0 < n,
        ;
        assert(count_sum / n <= u64::MAX) by (nonlinear_arith)
            requires
                count_sum <= n * u64::MAX,
                0 < n,
        ;
    }
    let measure_delta = quotients + remainders / n;
    let measure_count = (count_sum / n) as u64;
    let mut measures: Vec<Metrics> = Vec::new();
    let mut i: usize = 0;
    while i < max_len
        invariant
            0 <= i <= max_len,
            all == surviving(outcomes@),
            measures@.len() == i,
            forall|j: int| 0 <= j < i ==> (#[trigger] measures@[j])@ == merged_phase(all, j),
        decreases max_len - i,
    {
        let mut phase_metrics: Vec<Metric> = Vec::new();
        let mut v: usize = 0;
        proof {
            assert(outcomes@.take(0) =~= Seq::<WorkerOutcome>::empty());
        }
        while v < outcomes.len()
            invariant
                0 <= v <= outcomes@.len(),
                phase_metrics@ == merged_phase(surviving(outcomes@.take(v as int)), i as int),
            decreases outcomes@.len() - v,
        {
            proof {
                lemma_surviving_step(outcomes@, v as int);
            }
            if let WorkerOutcome::Finished(result) = &outcomes[v] {
                proof {
                    lemma_push_result(surviving(outcomes@.take(v as int)), *result);
                }
                if i < result.measures.len() {
                    let source_metrics = &result.measures[i];
                    let ghost before = phase_metrics@;
                    let mut m: usize = 0;
                    while m < source_metrics.len()
                        invariant
                            0 <= m <= source_metrics@.len(),
                            phase_metrics@ == before + source_metrics@.take(m as int),
                        decreases source_metrics@.len() - m,
                    {
                        phase_metrics.push(source_metrics[m].clone());
                        assert(source_metrics@.take(m as int).push(source_metrics@[m as int])
                            =~= source_metrics@.take(m + 1));
                        m += 1;
                    }
                    assert(source_metrics@.take(m as int) =~= source_metrics@);
                } else {
                    assert(phase_metrics@ + Seq::<Metric>::empty() =~= phase_metrics@);
                }
            }
            v += 1;
        }
        proof {
            assert(outcomes@.take(v as int) =~= outcomes@);
        }
        measures.push(phase_metrics);
        i += 1;
    }
    SourceResult { measures, count: measure_count, measure_delta }
}

/// The configured sources, held as templates: the workers of each
/// iteration get new sources made from them, never the templates
/// themselves nor what an earlier iteration left.
#[derive(Debug)]
pub struct SourceManager {
    sources: Vec<MetricSource>,
}

impl SourceManager {
    /// The templates, in the order in which they were configured.
    pub closed spec fn templates(&self) -> Seq<MetricSource> {
        self.sources@
    }

    /// A manager of the given sources, which it keeps as they are.
    pub fn new(sources: Vec<MetricSource>) -> (manager: Self)
        ensures
            manager.templates() == sources@,
    {
        Self { sources }
    }

    /// The sources for the workers of one iteration: for each template a
    /// source over the template's domains and with its polling interval,
    /// that has sampled nothing yet, whatever the template's own state.
    pub fn start_workers(&self) -> (workers: Vec<MetricSource>)
        ensures
            workers@.len() == self.templates().len(),
            forall|i: int|
                0 <= i < workers@.len() ==> (#[trigger] workers@[i])@ == RaplState::initial(
                    self.templates()[i]@.domains,
                ) && workers@[i].polling() == self.templates()[i].polling(),
    {
        let mut workers: Vec<MetricSource> = Vec::new();
        let mut i: usize = 0;
        while i < self.sources.len()
            invariant
                0 <= i <= self.sources@.len(),
                workers@.len() == i,
                forall|j: int|
                    0 <= j < i ==> (#[trigger] workers@[j])@ == RaplState::initial(
                        self.sources@[j]@.domains,
                    ) && workers@[j].polling() == self.sources@[j].polling(),
            decreases self.sources@.len() - i,
        {
            workers.push(self.sources[i].fresh());
            i += 1;
        }
        workers
    }

    /// Merges what the workers of one iteration left, as `merge_outcomes`
    /// does: a worker that did not finish is left out, and a run of which
    /// fewer workers finished than were started, or none, still has its
    /// result.
    pub fn join(&self, outcomes: &Vec<WorkerOutcome>) -> (merged: SourceResult)
        ensures
            merges(merged, surviving(outcomes@)),
    {
        merge_outcomes(outcomes)
    }
}

/// What a worker is to do with its source next.
#[derive(Debug, Clone, Copy, PartialEq, Eq)]
pub enum WorkerAction {
    /// Nothing.
    Idle,
    /// Take a sample.
    Measure,
    /// Take a sample and close the window.
    Phase,
    /// Hand back the final result and end.
    Retrieve,
}

/// What a worker that does not poll does on a command: it samples on
/// `Measure` and on `Phase` and leaves every other command to its caller.
pub fn handle_event_no_polling(event: SourceEvent) -> (action: WorkerAction)
    ensures
        action == (match event {
            SourceEvent::Phase => WorkerAction::Phase,
            SourceEvent::Measure => WorkerAction::Measure,
            _ => WorkerAction::Idle,
        }),
{
    match event {
        SourceEvent::Phase => WorkerAction::Phase,
        SourceEvent::Measure => WorkerAction::Measure,
        _ => WorkerAction::Idle,
    }
}

/// The part of a worker's state that decides what it does: whether it
/// polls at all, and whether polling is switched on.
#[derive(Debug, Clone, Copy)]
pub struct Worker {
    pub polls: bool,
    pub polling_active: bool,
}

impl Worker {
    /// The worker of a source with the given polling interval: it polls if
    /// there is one, and polling is switched on from the start.
    pub fn new(polling_interval: Option<Duration>) -> (worker: Self)
        ensures
            worker.polls == polling_interval is Some,
            worker.polling_active,
    {
        Worker { polls: polling_interval.is_some(), polling_active: true }
    }

    /// What the worker does on a command. `Stop` always ends it with the
    /// final result; `Measure` and `Phase` always sample, whether polling
    /// is switched on or not; `Start` and `Pause` switch polling.
    pub fn on_event(&mut self, event: SourceEvent) -> (action: WorkerAction)
        ensures
            final(self).polls == old(self).polls,
            final(self).polling_active == (match event {
                SourceEvent::Start if old(self).polls => true,
                SourceEvent::Pause if old(self).polls => false,
                _ => old(self).polling_active,
            }),
            action == (match event {
                SourceEvent::Stop => WorkerAction::Retrieve,
                SourceEvent::Measure => WorkerAction::Measure,
                SourceEvent::Phase => WorkerAction::Phase,
                _ => WorkerAction::Idle,
            }),
    {
        if !self.polls {
            return match event {
                SourceEvent::Stop => WorkerAction::Retrieve,
                event => handle_event_no_polling(event),
            };
        }
        match event {
            SourceEvent::Start => {
                self.polling_active = true;
                WorkerAction::Idle
            },
            SourceEvent::Pause => {
                self.polling_active = false;
                WorkerAction::Idle
            },
            SourceEvent::Stop => WorkerAction::Retrieve,
            SourceEvent::Measure => WorkerAction::Measure,
            SourceEvent::Phase => WorkerAction::Phase,
        }
    }

    /// What the worker does when its interval has gone by: it samples
    /// while polling is switched on.
    pub fn on_tick(&self) -> (action: WorkerAction)
        ensures
            action == if self.polls && self.polling_active {
                WorkerAction::Measure
            } else {
                WorkerAction::Idle
            },
    {
        if self.polls && self.polling_active {
            WorkerAction::Measure
        } else {
            WorkerAction::Idle
        }
    }

    /// Whether a failure of `action` ends the worker: a failed sample or a
    /// failed hand-back ends its loop, whether it polls or not, and the
    /// failure is what it completes with. Where nothing was to be done,
    /// nothing has failed.
    pub fn ends_on_failure(&self, action: WorkerAction) -> (ends: bool)
        ensures
            ends == (action != WorkerAction::Idle),
    {
        match action {
            WorkerAction::Idle => false,
            _ => true,
        }
    }
}

} // verus!
