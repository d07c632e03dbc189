//! Listing the sensors of the configured sources.

use crate::source::rapl::describes_domains;
use crate::source::rapl::domain::RaplDomain;
use crate::source::{MetricReader, MetricSource, Sensor};
use vstd::prelude::*;

verus! {

/// The domains of all the sources, source after source.
pub open spec fn all_domains(sources: Seq<MetricSource>) -> Seq<RaplDomain>
    decreases sources.len(),
{
    if sources.len() == 0 {
        Seq::empty()
    } else {
        all_domains(sources.drop_last()) + sources.last()@.domains
    }
}

/// The sensors of all the sources, source after source: one per domain,
/// named as the domain's merged counter is.
pub fn run_list_sensors(sources: &Vec<MetricSource>) -> (sensors: Vec<Sensor>)
    ensures
        describes_domains(sensors@, all_domains(sources@)),
{
    let mut sensors: Vec<Sensor> = Vec::new();
    let mut i: usize = 0;
    proof {
        assert(sources@.take(0) =~= Seq::<MetricSource>::empty());
    }
    while i < sources.len()
        invariant
            0 <= i <= sources@.len(),
            describes_domains(sensors@, all_domains(sources@.take(i as int))),
        decreases sources@.len() - i,
    {
        proof {
            assert(sources@.take(i + 1).drop_last() =~= sources@.take(i as int));
            assert(sources@.take(i + 1).last() == sources@[i as int]);
        }
        if let Ok(mut found) = sources[i].get_sensors() {
            sensors.append(&mut found);
        }
        i += 1;
    }
    proof {
        assert(sources@.take(i as int) =~= sources@);
    }
    sensors
}

} // verus!
