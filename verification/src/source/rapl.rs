//! The powercap source: a list of counter domains and the accumulator
//! that turns successive snapshots into per-phase totals.

use crate::error::JouleProfilerError;
use crate::source::rapl::counters::{lists_map, sum_maps, sums_fit, CounterMap};
use crate::source::rapl::domain::{
    domains_of, domains_on, get_domains, qualifying, selected_sockets, wanted_sockets, CounterRead,
    DomainCandidate, RaplDomain,
};
use crate::source::rapl::snapshot::{
    all_covered, all_readable, checked_measurement_from_snapshots,
    compute_measurement_from_snapshots, counter_key, counter_name, deltas_fit, merged_counters,
    readings_of, reports_first_uncovered, reports_first_unread, EnergySnapshot,
};
use crate::source::{Metric, MetricReader, MetricSource, Metrics, Sensor, SourceResult};
use std::collections::HashSet;
use crate::util::time::{get_timestamp, monotonic_now, nanos_between};
use std::time::Duration;
use tokio::time::Instant;
use vstd::prelude::*;
use vstd::string::StringExecFns;

pub mod counters;
pub mod domain;
pub mod snapshot;

verus! {

/// The state of a powercap source, as mathematics.
pub struct RaplState {
    /// The domains that are sampled.
    pub domains: Seq<RaplDomain>,
    /// The counters of the phases that are closed, oldest first.
    pub closed: Seq<Map<Seq<char>, u64>>,
    /// The running counters of the open phase.
    pub open: Map<Seq<char>, u64>,
    /// The readings of the last sample, if one serves as the baseline.
    pub last: Option<Map<Seq<char>, u64>>,
    /// Number of samples taken.
    pub count: nat,
    /// Time that went by between the samples, in nanoseconds.
    pub elapsed_ns: nat,
    /// Whether a sample has been timed yet.
    pub clock_started: bool,
}

impl RaplState {
    /// The state of a source that has sampled nothing yet.
    pub open spec fn initial(domains: Seq<RaplDomain>) -> RaplState {
        RaplState {
            domains,
            closed: Seq::empty(),
            open: Map::empty(),
            last: None,
            count: 0,
            elapsed_ns: 0,
            clock_started: false,
        }
    }

    /// There is a baseline, and `reading` lacks a domain that it has, or the
    /// other way round.
    pub open spec fn record_fails(self, reading: Map<Seq<char>, u64>) -> bool {
        self.last matches Some(prev) && !all_covered(self.domains, prev, reading)
    }

    /// The deltas from the baseline to `reading` can be computed and added
    /// to the running counters within 64 bits.
    pub open spec fn counters_fit(self, reading: Map<Seq<char>, u64>) -> bool {
        match self.last {
            Some(prev) => all_covered(self.domains, prev, reading) ==> deltas_fit(
                self.domains,
                prev,
                reading,
            ) && sums_fit(self.open, merged_counters(self.domains, prev, reading)),
            None => true,
        }
    }

    /// A sample `reading` can be counted and its deltas accumulated within
    /// 64 bits.
    pub open spec fn can_sample(self, reading: Map<Seq<char>, u64>) -> bool {
        self.count < u64::MAX && self.counters_fit(reading)
    }

    /// A sample `reading`, taken `dt` nanoseconds after the last one, can be
    /// recorded within the machine's number ranges.
    pub open spec fn can_record(self, reading: Map<Seq<char>, u64>, dt: nat) -> bool {
        self.can_sample(reading) && self.elapsed_ns + dt <= u128::MAX
    }

    /// The state after the sample `reading`, taken `dt` nanoseconds after
    /// the last one. The first sample only sets the baseline. A later one
    /// adds the merged deltas since the baseline to the running counters
    /// and becomes the baseline; where it cannot be compared with the
    /// baseline, the counters stay and no baseline is left.
    pub open spec fn record(self, reading: Map<Seq<char>, u64>, dt: nat) -> RaplState {
        RaplState {
            open: match self.last {
                Some(prev) if all_covered(self.domains, prev, reading) => sum_maps(
                    self.open,
                    merged_counters(self.domains, prev, reading),
                ),
                _ => self.open,
            },
            last: if self.record_fails(reading) {
                None
            } else {
                Some(reading)
            },
            count: self.count + 1,
            elapsed_ns: self.elapsed_ns + dt,
            ..self
        }
    }

    /// The state after the open phase is closed: its counters become the
    /// newest closed phase and the running counters are empty again.
    pub open spec fn close_phase(self) -> RaplState {
        RaplState { closed: self.closed.push(self.open), open: Map::empty(), ..self }
    }

    /// The state after a sample that closes the phase; a sample that fails
    /// closes nothing.
    pub open spec fn phase(self, reading: Map<Seq<char>, u64>, dt: nat) -> RaplState {
        if self.record_fails(reading) {
            self.record(reading, dt)
        } else {
            self.record(reading, dt).close_phase()
        }
    }

    /// The state after the final flush: running counters that hold anything
    /// become one more closed phase.
    pub open spec fn flushed(self) -> RaplState {
        RaplState {
            closed: if self.open == Map::<Seq<char>, u64>::empty() {
                self.closed
            } else {
                self.closed.push(self.open)
            },
            open: Map::empty(),
            ..self
        }
    }

    /// The same state, with the clock running.
    pub open spec fn timed(self) -> RaplState {
        RaplState { clock_started: true, ..self }
    }

    /// Average time between two samples, in microseconds: zero below two
    /// samples, else the elapsed time over the number of intervals.
    pub open spec fn average_interval_us(self) -> nat {
        if self.count > 1 {
            ((self.elapsed_ns as int / 1000) / (self.count - 1)) as nat
        } else {
            0
        }
    }
}

/// The powercap source over the domains that a scan found, filtered with
/// the socket filter if one is provided; it has sampled nothing yet. Fails
/// when the scan found no domain.
pub fn init_rapl(
    candidates: &Vec<DomainCandidate>,
    sockets: Option<&HashSet<u32>>,
    poll_interval: Option<Duration>,
) -> (r: Result<MetricSource, JouleProfilerError>)
    ensures
        match r {
            Ok(source) => qualifying(candidates@).len() > 0 && source.polling() == poll_interval
                && exists|discovered: Seq<RaplDomain>|
                #[trigger] domains_of(discovered, qualifying(candidates@)) && source@
                    == RaplState::initial(
                    domains_on(discovered, selected_sockets(discovered, wanted_sockets(sockets))),
                ),
            Err(e) => e is NoDomains && qualifying(candidates@).len() == 0,
        },
{
    let domains = match get_domains(candidates, sockets) {
        Ok(domains) => domains,
        Err(e) => {
            return Err(e);
        },
    };
    let rapl = Rapl::new(domains, poll_interval);
    Ok(MetricSource::Rapl(rapl))
}

/// The sequence of name and value of a list of metrics.
pub open spec fn metric_pairs(metrics: Seq<Metric>) -> Seq<(Seq<char>, u64)> {
    metrics.map_values(|m: Metric| (m.name@, m.value))
}

/// `metrics` reports `counters`: one metric per counter, with the counter's
/// name and value, in microjoules and from the powercap source.
pub open spec fn reports_counters(metrics: Seq<Metric>, counters: Map<Seq<char>, u64>) -> bool {
    &&& lists_map(metric_pairs(metrics), counters)
    &&& counters.dom().finite()
    &&& metrics.len() == counters.dom().len()
    &&& forall|i: int|
        0 <= i < metrics.len() ==> (#[trigger] metrics[i]).unit@ == "µJ"@ && metrics[i].source@
            == "powercap"@
}

/// `result` is what a source in state `state`, flushed, hands back.
pub open spec fn reports_state(result: SourceResult, state: RaplState) -> bool {
    &&& result.measures@.len() == state.closed.len()
    &&& forall|p: int|
        0 <= p < state.closed.len() ==> reports_counters(
            (#[trigger] result.measures@[p])@,
            state.closed[p],
        )
    &&& result.count == state.count
    &&& result.measure_delta == state.average_interval_us()
}

/// `sensors` describes `domains`, one sensor per domain and in their order.
pub open spec fn describes_domains(sensors: Seq<Sensor>, domains: Seq<RaplDomain>) -> bool {
    &&& sensors.len() == domains.len()
    &&& forall|i: int|
        0 <= i < domains.len() ==> {
            &&& (#[trigger] sensors[i]).name@ == counter_name(domains[i].name@, domains[i].socket)
            &&& sensors[i].unit@ == "µJ"@
            &&& sensors[i].source@ == "powercap"@
        }
}

/// A powercap source: its domains, the closed phases, the running counters
/// of the open phase and the bookkeeping of its samples.
#[derive(Debug)]
pub struct Rapl {
    domains: Vec<RaplDomain>,
    measures: Vec<CounterMap>,
    last_measure: Option<EnergySnapshot>,
    measure_counters: CounterMap,
    poll_interval: Option<Duration>,
    /// Number of snapshots taken
    count: u64,
    /// Total elapsed time between snapshots, in nanoseconds
    total_elapsed_ns: u128,
    /// Monotonic timestamp of last snapshot
    last_instant: Option<Instant>,
}

impl View for Rapl {
    type V = RaplState;

    closed spec fn view(&self) -> RaplState {
        RaplState {
            domains: self.domains@,
            closed: self.measures@.map_values(|c: CounterMap| c@),
            open: self.measure_counters@,
            last: match self.last_measure {
                Some(s) => Some(s.energies_uj@),
                None => None,
            },
            count: self.count as nat,
            elapsed_ns: self.total_elapsed_ns as nat,
            clock_started: self.last_instant is Some,
        }
    }
}

impl Rapl {
    /// The polling interval that the source was made with.
    pub closed spec fn polling(&self) -> Option<Duration> {
        self.poll_interval
    }

    /// A source over `domains` that has sampled nothing yet.
    pub fn new(domains: Vec<RaplDomain>, poll_interval: Option<Duration>) -> (rapl: Self)
        ensures
            rapl@ == RaplState::initial(domains@),
            rapl.polling() == poll_interval,
    {
        let rapl = Rapl {
            domains,
            poll_interval,
            measures: Vec::new(),
            last_measure: None,
            measure_counters: CounterMap::new(),
            count: 0,
            total_elapsed_ns: 0,
            last_instant: None,
        };
        assert(rapl@.closed =~= Seq::empty());
        rapl
    }

    /// A source over the same domains and with the same polling interval,
    /// that has sampled nothing yet.
    pub fn fresh(&self) -> (rapl: Self)
        ensures
            rapl@ == RaplState::initial(self@.domains),
            rapl.polling() == self.polling(),
    {
        let domains = self.domains.clone();
        assert(domains@ =~= self.domains@);
        Rapl::new(domains, self.poll_interval)
    }

    /// The domains that the source samples.
    pub fn domains(&self) -> (domains: &Vec<RaplDomain>)
        ensures
            domains@ == self@.domains,
    {
        &self.domains
    }

    /// The running counters of the open phase.
    pub fn measure_counters(&self) -> (counters: &CounterMap)
        ensures
            counters@ == self@.open,
    {
        &self.measure_counters
    }

    /// The counters of the closed phases, oldest first.
    pub fn measures(&self) -> (closed: &Vec<CounterMap>)
        ensures
            closed@.map_values(|c: CounterMap| c@) == self@.closed,
    {
        &self.measures
    }

    /// Number of samples taken so far.
    pub fn count(&self) -> (count: u64)
        ensures
            count == self@.count,
    {
        self.count
    }

    /// Whether the sample `reading`, taken `elapsed_ns` after the last one,
    /// can be recorded within the machine's number ranges.
    pub fn record_fits(&self, reading: &EnergySnapshot, elapsed_ns: u128) -> (fits: bool)
        ensures
            fits == self@.can_record(reading.energies_uj@, elapsed_ns as nat),
    {
        if self.count == u64::MAX || self.total_elapsed_ns.checked_add(elapsed_ns).is_none() {
            return false;
        }
        match &self.last_measure {
            None => true,
            Some(old) => match checked_measurement_from_snapshots(
                self.domains.as_slice(),
                old,
                reading,
            ) {
                None => false,
                Some(Err(_)) => true,
                Some(Ok(diff)) => self.measure_counters.can_add_all(&diff),
            },
        }
    }

    /// Takes `reading` as the new sample, `elapsed_ns` nanoseconds after the
    /// last one. Fails, with the report of the missing reading, when the
    /// sample cannot be compared with the baseline.
    pub fn record(&mut self, reading: EnergySnapshot, elapsed_ns: u128) -> (r: Result<
        (),
        JouleProfilerError,
    >)
        requires
            old(self)@.can_record(reading.energies_uj@, elapsed_ns as nat),
        ensures
            final(self)@ == old(self)@.record(reading.energies_uj@, elapsed_ns as nat),
            final(self).polling() == old(self).polling(),
            r is Err <==> old(self)@.record_fails(reading.energies_uj@),
            r matches Err(e) ==> reports_first_uncovered(
                e,
                old(self)@.domains,
                old(self)@.last.unwrap(),
                reading.energies_uj@,
            ),
    {
        self.total_elapsed_ns = self.total_elapsed_ns + elapsed_ns;
        self.count = self.count + 1;
        let mut previous: Option<EnergySnapshot> = None;
        std::mem::swap(&mut previous, &mut self.last_measure);
        if let Some(old) = previous {
            let diff = match compute_measurement_from_snapshots(
                self.domains.as_slice(),
                &old,
                &reading,
            ) {
                Ok(diff) => diff,
                Err(e) => {
                    return Err(e);
                },
            };
            self.measure_counters.add_all(&diff);
        }
        self.last_measure = Some(reading);
        Ok(())
    }

    /// Moves the running counters into the list of closed phases and starts
    /// the next phase with none.
    pub fn close_phase(&mut self)
        ensures
            final(self)@ == old(self)@.close_phase(),
            final(self).polling() == old(self).polling(),
    {
        let mut phase_counters = CounterMap::new();
        std::mem::swap(&mut phase_counters, &mut self.measure_counters);
        self.measures.push(phase_counters);
        assert(self@.closed =~= old(self)@.closed.push(old(self)@.open));
    }

    /// Makes a snapshot of what came of reading the counter files, given in
    /// the domains' order, stamped with the current time. The first domain
    /// of which no number was read is reported, and no snapshot is made: a
    /// snapshot never holds a part of the domains only.
    pub fn read_snapshot(&self, reads: &Vec<CounterRead>) -> (r: Result<
        EnergySnapshot,
        JouleProfilerError,
    >)
        ensures
            r is Ok <==> self@.domains.len() <= reads@.len() && all_readable(
                reads@.take(self@.domains.len() as int),
            ),
            match r {
                Ok(snapshot) => {
                    &&& snapshot.energies_uj@ == readings_of(
                        self@.domains,
                        reads@.take(self@.domains.len() as int),
                    )
                    &&& forall|i: int|
                        0 <= i < self@.domains.len() ==> snapshot.energies_uj@.contains_key(
                            (#[trigger] self@.domains[i]).path@,
                        )
                },
                Err(e) => reports_first_unread(e, self@.domains, reads@),
            },
    {
        EnergySnapshot::from_readings(self.domains.as_slice(), reads, get_timestamp())
    }
}

/// `after` is `before` with the sample `reading` recorded at some distance
/// in time from the last one: at none, if no sample had been timed before.
pub open spec fn sampled(before: RaplState, after: RaplState, reading: Map<Seq<char>, u64>) -> bool {
    exists|dt: nat|
        before.can_record(reading, dt) && (!before.clock_started ==> dt == 0) && after
            == (#[trigger] before.record(reading, dt)).timed()
}

/// `after` is `before` with the sample `reading` recorded, as in `sampled`,
/// and the phase closed if the sample did not fail.
pub open spec fn sampled_and_closed(
    before: RaplState,
    after: RaplState,
    reading: Map<Seq<char>, u64>,
) -> bool {
    exists|dt: nat|
        before.can_record(reading, dt) && (!before.clock_started ==> dt == 0) && after
            == (#[trigger] before.phase(reading, dt)).timed()
}

impl MetricReader for Rapl {
    /// Reads the monotonic clock and records `reading` as the new sample,
    /// with the time since the last sample as far as 128 bits of
    /// nanoseconds hold it. `None`, with the source unchanged, exactly when
    /// the sample cannot be counted or its deltas accumulated in 64 bits.
    fn measure(&mut self, reading: EnergySnapshot) -> (r: Option<Result<(), JouleProfilerError>>)
        ensures
            final(self).polling() == old(self).polling(),
            match r {
                None => final(self)@ == old(self)@ && !old(self)@.can_sample(reading.energies_uj@),
                Some(outcome) => {
                    &&& old(self)@.can_sample(reading.energies_uj@)
                    &&& sampled(old(self)@, final(self)@, reading.energies_uj@)
                    &&& outcome is Err <==> old(self)@.record_fails(reading.energies_uj@)
                    &&& outcome matches Err(e) ==> reports_first_uncovered(
                        e,
                        old(self)@.domains,
                        old(self)@.last.unwrap(),
                        reading.energies_uj@,
                    )
                },
            },
    {
        let now = monotonic_now();
        let since_last = match &self.last_instant {
            Some(last) => nanos_between(last, &now),
            None => 0,
        };
        let room = u128::MAX - self.total_elapsed_ns;
        let elapsed_ns = if since_last <= room {
            since_last
        } else {
            room
        };
        if !self.record_fits(&reading, elapsed_ns) {
            return None;
        }
        let ghost before = self@;
        let ghost readings = reading.energies_uj@;
        self.last_instant = Some(now);
        assert(self@ == before.timed());
        let outcome = self.record(reading, elapsed_ns);
        assert(self@ == before.record(readings, elapsed_ns as nat).timed());
        Some(outcome)
    }

    /// Samples as `measure` does, then closes the phase. A sample that
    /// fails closes nothing. `None`, with the source unchanged, exactly when
    /// the sample cannot be counted or its deltas accumulated in 64 bits.
    fn phase(&mut self, reading: EnergySnapshot) -> (r: Option<Result<(), JouleProfilerError>>)
        ensures
            final(self).polling() == old(self).polling(),
            match r {
                None => final(self)@ == old(self)@ && !old(self)@.can_sample(reading.energies_uj@),
                Some(outcome) => {
                    &&& old(self)@.can_sample(reading.energies_uj@)
                    &&& sampled_and_closed(old(self)@, final(self)@, reading.energies_uj@)
                    &&& outcome is Err <==> old(self)@.record_fails(reading.energies_uj@)
                    &&& outcome matches Err(e) ==> reports_first_uncovered(
                        e,
                        old(self)@.domains,
                        old(self)@.last.unwrap(),
                        reading.energies_uj@,
                    )
                },
            },
    {
        let ghost before = self@;
        let ghost readings = reading.energies_uj@;
        match self.measure(reading) {
            None => None,
            Some(Err(e)) => {
                proof {
                    let dt = choose|dt: nat|
                        before.can_record(readings, dt) && (!before.clock_started ==> dt == 0)
                            && self@ == (#[trigger] before.record(readings, dt)).timed();
                    assert(self@ == before.phase(readings, dt).timed());
                }
                Some(Err(e))
            },
            Some(Ok(())) => {
                proof {
                    let dt = choose|dt: nat|
                        before.can_record(readings, dt) && (!before.clock_started ==> dt == 0)
                            && self@ == (#[trigger] before.record(readings, dt)).timed();
                    assert(self@.close_phase() == before.phase(readings, dt).timed());
                }
                self.close_phase();
                Some(Ok(()))
            },
        }
    }

    /// Closes what is still open and hands back every closed phase as
    /// metrics, with the number of samples and the average time between
    /// two of them. Never fails.
    fn retrieve(&mut self) -> (r: Result<SourceResult, JouleProfilerError>)
        ensures
            final(self)@ == old(self)@.flushed(),
            final(self).polling() == old(self).polling(),
            r matches Ok(result) && reports_state(result, old(self)@.flushed()),
    {
        let mut remaining = CounterMap::new();
        std::mem::swap(&mut remaining, &mut self.measure_counters);
        if !remaining.is_empty() {
            self.measures.push(remaining);
        }
        assert(self@.closed =~= old(self)@.flushed().closed);
        let mut measures: Vec<Metrics> = Vec::new();
        let mut p: usize = 0;
        while p < self.measures.len()
            invariant
                0 <= p <= self.measures@.len(),
                measures@.len() == p,
                forall|q: int|
                    0 <= q < p ==> reports_counters(
                        (#[trigger] measures@[q])@,
                        self.measures@[q]@,
                    ),
            decreases self.measures@.len() - p,
        {
            let metrics = metrics_of(&self.measures[p]);
            measures.push(metrics);
            p += 1;
        }
        let avg_delta_us: u128 = if self.count > 1 {
            (self.total_elapsed_ns / 1000) / ((self.count - 1) as u128)
        } else {
            0
        };
        Ok(SourceResult { measures, count: self.count, measure_delta: avg_delta_us })
    }

    /// One sensor per domain, named as the domain's merged counter is.
    /// Never fails.
    fn get_sensors(&self) -> (r: Result<Vec<Sensor>, JouleProfilerError>)
        ensures
            r matches Ok(sensors) && describes_domains(sensors@, self@.domains),
    {
        let mut sensors: Vec<Sensor> = Vec::new();
        let mut i: usize = 0;
        while i < self.domains.len()
            invariant
                0 <= i <= self.domains@.len(),
                describes_domains(sensors@, self.domains@.take(i as int)),
            decreases self.domains@.len() - i,
        {
            let domain = &self.domains[i];
            sensors.push(
                Sensor {
                    name: counter_key(domain.name.as_str(), domain.socket),
                    source: String::from_str("powercap"),
                    unit: String::from_str("µJ"),
                },
            );
            i += 1;
        }
        assert(self.domains@.take(i as int) =~= self.domains@);
        Ok(sensors)
    }

    fn get_polling_interval(&self) -> (interval: Option<Duration>)
        ensures
            interval == self.polling(),
    {
        self.poll_interval
    }

    fn get_name(&self) -> (name: &'static str)
        ensures
            name@ == "Powercap"@,
    {
        "Powercap"
    }
}

/// The metrics that report `counters`.
fn metrics_of(counters: &CounterMap) -> (metrics: Metrics)
    ensures
        reports_counters(metrics@, counters@),
{
    let pairs = counters.pairs();
    let mut metrics: Vec<Metric> = Vec::new();
    let mut i: usize = 0;
    while i < pairs.len()
        invariant
            0 <= i <= pairs@.len(),
            metrics@.len() == i,
            forall|j: int|
                0 <= j < i ==> {
                    &&& (#[trigger] metrics@[j]).name@ == pairs@[j].0@
                    &&& metrics@[j].value == pairs@[j].1
                    &&& metrics@[j].unit@ == "µJ"@
                    &&& metrics@[j].source@ == "powercap"@
                },
        decreases pairs@.len() - i,
    {
        metrics.push(
            Metric {
                name: pairs[i].0.clone(),
                value: pairs[i].1,
                unit: String::from_str("µJ"),
                source: String::from_str("powercap"),
            },
        );
        i += 1;
    }
    assert(metric_pairs(metrics@) =~= pairs@.map_values(|e: (String, u64)| (e.0@, e.1)));
    metrics
}

impl Clone for Rapl {
    fn clone(&self) -> (copy: Self)
        ensures
            copy@ == self@,
            copy.polling() == self.polling(),
    {
        let domains = self.domains.clone();
        assert(domains@ =~= self.domains@);
        let mut measures: Vec<CounterMap> = Vec::new();
        let mut p: usize = 0;
        while p < self.measures.len()
            invariant
                0 <= p <= self.measures@.len(),
                measures@.len() == p,
                forall|q: int| 0 <= q < p ==> (#[trigger] measures@[q])@ == self.measures@[q]@,
            decreases self.measures@.len() - p,
        {
            measures.push(self.measures[p].clone());
            p += 1;
        }
        let last_measure = match &self.last_measure {
            Some(snapshot) => Some(snapshot.clone()),
            None => None,
        };
        let copy = Rapl {
            domains,
            measures,
            last_measure,
            measure_counters: self.measure_counters.clone(),
            poll_interval: self.poll_interval,
            count: self.count,
            total_elapsed_ns: self.total_elapsed_ns,
            last_instant: self.last_instant,
        };
        assert(copy@.closed =~= self@.closed);
        copy
    }
}

/// One sample of a source's history: what was read, how long after the
/// sample before it, and whether it was to close the phase.
pub struct Sample {
    pub reading: Map<Seq<char>, u64>,
    pub dt: nat,
    pub closes: bool,
}

impl RaplState {
    /// The state after a history of samples, oldest first.
    pub open spec fn run(self, samples: Seq<Sample>) -> RaplState
        decreases samples.len(),
    {
        if samples.len() == 0 {
            self
        } else {
            let before = self.run(samples.drop_last());
            let sample = samples.last();
            if sample.closes {
                before.phase(sample.reading, sample.dt)
            } else {
                before.record(sample.reading, sample.dt)
            }
        }
    }

    /// Number of the samples of a history that closed a phase: those that
    /// were to close one and did not fail.
    pub open spec fn phases_closed(self, samples: Seq<Sample>) -> nat
        decreases samples.len(),
    {
        if samples.len() == 0 {
            0
        } else {
            let before = self.run(samples.drop_last());
            let sample = samples.last();
            self.phases_closed(samples.drop_last()) + if sample.closes && !before.record_fails(
                sample.reading,
            ) {
                1nat
            } else {
                0nat
            }
        }
    }
}

/// The first sample after construction leaves the running counters empty.
/// The second one changes them by exactly the merged deltas between the two
/// snapshots; where the two cannot be compared it changes nothing.
pub proof fn lemma_first_and_second_sample(
    domains: Seq<RaplDomain>,
    first: Map<Seq<char>, u64>,
    second: Map<Seq<char>, u64>,
    dt1: nat,
    dt2: nat,
)
    ensures
        RaplState::initial(domains).record(first, dt1).open == Map::<Seq<char>, u64>::empty(),
        all_covered(domains, first, second) ==> RaplState::initial(domains).record(
            first,
            dt1,
        ).record(second, dt2).open == merged_counters(domains, first, second),
        !all_covered(domains, first, second) ==> RaplState::initial(domains).record(
            first,
            dt1,
        ).record(second, dt2).open == Map::<Seq<char>, u64>::empty(),
{
    let empty = Map::<Seq<char>, u64>::empty();
    let merged = merged_counters(domains, first, second);
    assert(sum_maps(empty, merged) =~= merged);
}

/// A sample that closes the phase and does not fail appends exactly one
/// closed phase, which holds the running counters as they were after the
/// sample, and leaves the running counters empty, whether anything was
/// accumulated or not.
pub proof fn lemma_phase_appends_one(state: RaplState, reading: Map<Seq<char>, u64>, dt: nat)
    requires
        !state.record_fails(reading),
    ensures
        state.phase(reading, dt).closed.len() == state.closed.len() + 1,
        state.phase(reading, dt).closed.last() == state.record(reading, dt).open,
        state.phase(reading, dt).closed.drop_last() == state.closed,
        state.phase(reading, dt).open == Map::<Seq<char>, u64>::empty(),
{
    assert(state.phase(reading, dt).closed.drop_last() =~= state.closed);
}

/// After any history of samples, a new source holds as many closed phases
/// as samples closed one, and the final flush hands back that many phases
/// when no counter is open, and one more when some are.
pub proof fn lemma_retrieve_counts_phases(domains: Seq<RaplDomain>, samples: Seq<Sample>)
    ensures
        RaplState::initial(domains).run(samples).closed.len() == RaplState::initial(
            domains,
        ).phases_closed(samples),
        RaplState::initial(domains).run(samples).flushed().closed.len() == RaplState::initial(
            domains,
        ).phases_closed(samples) + if RaplState::initial(domains).run(samples).open == Map::<
            Seq<char>,
            u64,
        >::empty() {
            0nat
        } else {
            1nat
        },
    decreases samples.len(),
{
    if samples.len() > 0 {
        lemma_retrieve_counts_phases(domains, samples.drop_last());
    }
}

/// The number of samples of a history is the number of samples recorded.
pub proof fn lemma_run_counts_samples(state: RaplState, samples: Seq<Sample>)
    ensures
        state.run(samples).count == state.count + samples.len(),
        state.run(samples).domains == state.domains,
    decreases samples.len(),
{
    if samples.len() > 0 {
        lemma_run_counts_samples(state, samples.drop_last());
    }
}

/// The average interval is zero below two samples, and otherwise the
/// elapsed time, in whole microseconds, over the number of intervals.
pub proof fn lemma_average_interval(state: RaplState)
    ensures
        state.count < 2 ==> state.average_interval_us() == 0,
        state.count >= 2 ==> state.average_interval_us() == (state.elapsed_ns as int / 1000) / (
        state.count - 1),
        state.flushed().average_interval_us() == state.average_interval_us(),
{
}

} // verus!
