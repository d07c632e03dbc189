//! Snapshots of all counters at one instant, and the energy consumed
//! between two of them.

use crate::error::JouleProfilerError;
use crate::source::rapl::counters::CounterMap;
use crate::source::rapl::domain::{CounterRead, RaplDomain};
use crate::text::{
    decimal_string, decimal_text, parse_failure_text, parse_u64, to_uppercase, trim,
    trimmed_text, uppercase_text,
};
use vstd::prelude::*;
use vstd::string::StringExecFns;

verus! {

/// The raw value of every counter, by the domain's path, with the time of
/// capture in microseconds.
#[derive(Debug)]
pub struct EnergySnapshot {
    pub energies_uj: CounterMap,
    pub timestamp_us: u128,
}

impl Clone for EnergySnapshot {
    fn clone(&self) -> (copy: Self)
        ensures
            copy.energies_uj@ == self.energies_uj@,
            copy.timestamp_us == self.timestamp_us,
    {
        EnergySnapshot { energies_uj: self.energies_uj.clone(), timestamp_us: self.timestamp_us }
    }
}

/// Energy consumed between two readings of a counter that wraps at `max`.
pub open spec fn energy_diff_spec(start: u64, end: u64, max: u64) -> int {
    if end >= start {
        end - start
    } else {
        (max - start) + end
    }
}

/// Name of the merged counter of a domain name on a socket: the name in
/// upper case, an underscore, the socket's index.
pub open spec fn counter_name(name: Seq<char>, socket: u32) -> Seq<char> {
    uppercase_text(name) + "_"@ + decimal_text(socket as nat)
}

/// Both snapshots hold a reading of `d`.
pub open spec fn covered(d: RaplDomain, begin: Map<Seq<char>, u64>, end: Map<Seq<char>, u64>) -> bool {
    begin.contains_key(d.path@) && end.contains_key(d.path@)
}

/// Both snapshots hold a reading of every domain.
pub open spec fn all_covered(
    domains: Seq<RaplDomain>,
    begin: Map<Seq<char>, u64>,
    end: Map<Seq<char>, u64>,
) -> bool {
    forall|i: int| 0 <= i < domains.len() ==> covered(#[trigger] domains[i], begin, end)
}

/// Energy that `d` consumed between the two snapshots.
pub open spec fn domain_delta(
    d: RaplDomain,
    begin: Map<Seq<char>, u64>,
    end: Map<Seq<char>, u64>,
) -> int {
    energy_diff_spec(begin[d.path@], end[d.path@], d.max_energy_uj)
}

/// A counter that went backwards started no higher than the domain's bound.
pub open spec fn delta_in_range(
    d: RaplDomain,
    begin: Map<Seq<char>, u64>,
    end: Map<Seq<char>, u64>,
) -> bool {
    end[d.path@] < begin[d.path@] ==> begin[d.path@] <= d.max_energy_uj
}

/// Sum of the deltas of the domains called `name` on `socket`.
pub open spec fn group_total(
    domains: Seq<RaplDomain>,
    begin: Map<Seq<char>, u64>,
    end: Map<Seq<char>, u64>,
    name: Seq<char>,
    socket: u32,
) -> int
    decreases domains.len(),
{
    if domains.len() == 0 {
        0
    } else {
        let last = domains.last();
        group_total(domains.drop_last(), begin, end, name, socket) + if last.name@ == name
            && last.socket == socket {
            domain_delta(last, begin, end)
        } else {
            0
        }
    }
}

/// Every delta can be computed and every group's sum fits in 64 bits.
pub open spec fn deltas_fit(
    domains: Seq<RaplDomain>,
    begin: Map<Seq<char>, u64>,
    end: Map<Seq<char>, u64>,
) -> bool {
    forall|i: int|
        0 <= i < domains.len() ==> delta_in_range(#[trigger] domains[i], begin, end) && group_total(
            domains,
            begin,
            end,
            domains[i].name@,
            domains[i].socket,
        ) <= u64::MAX
}

/// The merged counters of a list of domains: each domain's counter holds the
/// sum over the domains of the same name and socket. Should two such groups
/// share a counter name, the group of the later domain is the one kept.
pub open spec fn merged_counters(
    domains: Seq<RaplDomain>,
    begin: Map<Seq<char>, u64>,
    end: Map<Seq<char>, u64>,
) -> Map<Seq<char>, u64>
    decreases domains.len(),
{
    if domains.len() == 0 {
        Map::empty()
    } else {
        let last = domains.last();
        merged_counters(domains.drop_last(), begin, end).insert(
            counter_name(last.name@, last.socket),
            group_total(domains, begin, end, last.name@, last.socket) as u64,
        )
    }
}

/// What is reported when a snapshot lacks a reading of `d`: the start
/// snapshot is looked at first.
pub open spec fn missing_reading_text(d: RaplDomain, begin: Map<Seq<char>, u64>) -> Seq<char> {
    (if !begin.contains_key(d.path@) {
        "Missing start energy snapshot for domain '"@
    } else {
        "Missing end energy snapshot for domain '"@
    }) + d.name@ + "'"@
}

/// `e` reports the first domain of which a snapshot lacks a reading.
pub open spec fn reports_first_uncovered(
    e: JouleProfilerError,
    domains: Seq<RaplDomain>,
    begin: Map<Seq<char>, u64>,
    end: Map<Seq<char>, u64>,
) -> bool {
    exists|i: int|
        0 <= i < domains.len() && !covered(#[trigger] domains[i], begin, end) && all_covered(
            domains.take(i),
            begin,
            end,
        ) && (e matches JouleProfilerError::RaplReadError(text) && text@ == missing_reading_text(
            domains[i],
            begin,
        ))
}

/// Compute the energy difference between two measures, handle overflows with
/// the counter's bound.
pub fn energy_diff(start: u64, end: u64, max: u64) -> (diff: u64)
    requires
        end < start ==> start <= max,
    ensures
        diff == energy_diff_spec(start, end, max),
{
    if end >= start {
        end - start
    } else {
        (max - start) + end
    }
}

/// Unfolds `group_total` and `merged_counters` at the prefix of length `i + 1`.
proof fn lemma_prefix_step(
    domains: Seq<RaplDomain>,
    begin: Map<Seq<char>, u64>,
    end: Map<Seq<char>, u64>,
    i: int,
)
    requires
        0 <= i < domains.len(),
    ensures
        forall|name: Seq<char>, socket: u32| #[trigger]
            group_total(domains.take(i + 1), begin, end, name, socket) == group_total(
                domains.take(i),
                begin,
                end,
                name,
                socket,
            ) + if domains[i].name@ == name && domains[i].socket == socket {
                domain_delta(domains[i], begin, end)
            } else {
                0
            },
        merged_counters(domains.take(i + 1), begin, end) == merged_counters(
            domains.take(i),
            begin,
            end,
        ).insert(
            counter_name(domains[i].name@, domains[i].socket),
            group_total(domains.take(i + 1), begin, end, domains[i].name@, domains[i].socket) as u64,
        ),
{
    assert(domains.take(i + 1).drop_last() =~= domains.take(i));
    assert(domains.take(i + 1).last() == domains[i]);
}

/// Deltas that are in range are not negative.
proof fn lemma_delta_nonnegative(
    d: RaplDomain,
    begin: Map<Seq<char>, u64>,
    end: Map<Seq<char>, u64>,
)
    requires
        delta_in_range(d, begin, end),
    ensures
        0 <= domain_delta(d, begin, end),
{
}

/// With deltas in range, a group's sum over a prefix is at most its sum
/// over the whole list.
proof fn lemma_group_total_grows(
    domains: Seq<RaplDomain>,
    begin: Map<Seq<char>, u64>,
    end: Map<Seq<char>, u64>,
    name: Seq<char>,
    socket: u32,
    k: int,
)
    requires
        0 <= k <= domains.len(),
        forall|i: int| 0 <= i < domains.len() ==> delta_in_range(#[trigger] domains[i], begin, end),
    ensures
        0 <= group_total(domains.take(k), begin, end, name, socket) <= group_total(
            domains,
            begin,
            end,
            name,
            socket,
        ),
    decreases domains.len() - k,
{
    if k == domains.len() {
        assert(domains.take(k) =~= domains);
        lemma_group_total_nonnegative(domains, begin, end, name, socket);
    } else {
        lemma_group_total_grows(domains, begin, end, name, socket, k + 1);
        lemma_prefix_step(domains, begin, end, k);
        lemma_delta_nonnegative(domains[k], begin, end);
        lemma_group_total_nonnegative(domains.take(k), begin, end, name, socket);
    }
}

/// With deltas in range, a group's sum is not negative.
proof fn lemma_group_total_nonnegative(
    domains: Seq<RaplDomain>,
    begin: Map<Seq<char>, u64>,
    end: Map<Seq<char>, u64>,
    name: Seq<char>,
    socket: u32,
)
    requires
        forall|i: int| 0 <= i < domains.len() ==> delta_in_range(#[trigger] domains[i], begin, end),
    ensures
        0 <= group_total(domains, begin, end, name, socket),
    decreases domains.len(),
{
    if domains.len() > 0 {
        let init = domains.drop_last();
        assert forall|i: int| 0 <= i < init.len() implies delta_in_range(
            #[trigger] init[i],
            begin,
            end,
        ) by {
            assert(init[i] == domains[i]);
        }
        lemma_group_total_nonnegative(init, begin, end, name, socket);
        lemma_delta_nonnegative(domains.last(), begin, end);
    }
}

/// Running sum of the deltas of the domains that share a name and a socket.
struct Group {
    name: String,
    socket: u32,
    total: u64,
}

/// Some group of `groups` is the one of `name` on `socket`.
spec fn group_known(groups: Seq<Group>, name: Seq<char>, socket: u32) -> bool {
    exists|g: int| 0 <= g < groups.len() && (#[trigger] groups[g]).name@ == name && groups[g].socket == socket
}

/// `groups` holds, without repetition, the sums over `seen` of every group
/// that has a domain in `seen`.
spec fn groups_sum_up(
    groups: Seq<Group>,
    seen: Seq<RaplDomain>,
    begin: Map<Seq<char>, u64>,
    end: Map<Seq<char>, u64>,
) -> bool {
    &&& forall|a: int, b: int|
        0 <= a < b < groups.len() ==> !((#[trigger] groups[a]).name@ == (#[trigger] groups[b]).name@
            && groups[a].socket == groups[b].socket)
    &&& forall|g: int|
        0 <= g < groups.len() ==> (#[trigger] groups[g]).total == group_total(
            seen,
            begin,
            end,
            groups[g].name@,
            groups[g].socket,
        )
    &&& forall|name: Seq<char>, socket: u32|
        !group_known(groups, name, socket) ==> #[trigger] group_total(seen, begin, end, name, socket)
            == 0
}

/// Position of the group of `name` on `socket`, if there is one.
fn find_group(groups: &Vec<Group>, name: &String, socket: u32) -> (r: Option<usize>)
    ensures
        match r {
            Some(g) => g < groups@.len() && groups@[g as int].name@ == name@ && groups@[g as int].socket
                == socket,
            None => !group_known(groups@, name@, socket),
        },
{
    let mut g: usize = 0;
    while g < groups.len()
        invariant
            0 <= g <= groups.len(),
            forall|h: int|
                0 <= h < g ==> !((#[trigger] groups@[h]).name@ == name@ && groups@[h].socket == socket),
        decreases groups.len() - g,
    {
        if groups[g].socket == socket && groups[g].name == *name {
            return Some(g);
        }
        g += 1;
    }
    None
}

/// The counter name of a domain name on a socket.
pub fn counter_key(name: &str, socket: u32) -> (key: String)
    ensures
        key@ == counter_name(name@, socket),
{
    let mut key = to_uppercase(name);
    key.append("_");
    let digits = decimal_string(socket);
    key.append(digits.as_str());
    key
}

/// The report of a domain that a snapshot has no reading of.
fn missing_reading(d: &RaplDomain, start_missing: bool) -> (e: JouleProfilerError)
    ensures
        e matches JouleProfilerError::RaplReadError(text) && text@ == (if start_missing {
            "Missing start energy snapshot for domain '"@
        } else {
            "Missing end energy snapshot for domain '"@
        }) + d.name@ + "'"@,
{
    let head = if start_missing {
        String::from_str("Missing start energy snapshot for domain '")
    } else {
        String::from_str("Missing end energy snapshot for domain '")
    };
    let mut text = head.concat(d.name.as_str());
    text.append("'");
    JouleProfilerError::RaplReadError(text)
}

/// The two readings of every domain, or the report of the first domain
/// that a snapshot has no reading of.
fn paired_readings(domains: &[RaplDomain], begin: &EnergySnapshot, end: &EnergySnapshot) -> (r:
    Result<Vec<(u64, u64)>, JouleProfilerError>)
    ensures
        match r {
            Ok(pairs) => {
                &&& all_covered(domains@, begin.energies_uj@, end.energies_uj@)
                &&& pairs@.len() == domains@.len()
                &&& forall|i: int|
                    0 <= i < domains@.len() ==> (#[trigger] pairs@[i]) == (
                        begin.energies_uj@[domains@[i].path@],
                        end.energies_uj@[domains@[i].path@],
                    )
            },
            Err(e) => reports_first_uncovered(e, domains@, begin.energies_uj@, end.energies_uj@),
        },
{
    let mut pairs: Vec<(u64, u64)> = Vec::new();
    let mut i: usize = 0;
    while i < domains.len()
        invariant
            0 <= i <= domains@.len(),
            pairs@.len() == i,
            all_covered(domains@.take(i as int), begin.energies_uj@, end.energies_uj@),
            forall|j: int|
                0 <= j < i ==> (#[trigger] pairs@[j]) == (
                    begin.energies_uj@[domains@[j].path@],
                    end.energies_uj@[domains@[j].path@],
                ),
        decreases domains@.len() - i,
    {
        let d = &domains[i];
        let start_uj = match begin.energies_uj.get(d.path.as_str()) {
            Some(v) => v,
            None => {
                return Err(missing_reading(d, true));
            },
        };
        let end_uj = match end.energies_uj.get(d.path.as_str()) {
            Some(v) => v,
            None => {
                return Err(missing_reading(d, false));
            },
        };
        pairs.push((start_uj, end_uj));
        proof {
            let next = domains@.take(i + 1);
            assert forall|j: int| 0 <= j < next.len() implies covered(
                #[trigger] next[j],
                begin.energies_uj@,
                end.energies_uj@,
            ) by {
                if j < i {
                    assert(domains@.take(i as int)[j] == next[j]);
                }
            }
        }
        i += 1;
    }
    proof {
        assert(domains@.take(i as int) =~= domains@);
    }
    Ok(pairs)
}

/// Compute one measurement from two energy snapshots, or say that the
/// numbers are too large: `None` stands for deltas that cannot be computed
/// or summed in 64 bits.
pub fn checked_measurement_from_snapshots(
    domains: &[RaplDomain],
    begin: &EnergySnapshot,
    end: &EnergySnapshot,
) -> (r: Option<Result<CounterMap, JouleProfilerError>>)
    ensures
        match r {
            Some(Ok(counters)) => {
                &&& all_covered(domains@, begin.energies_uj@, end.energies_uj@)
                &&& deltas_fit(domains@, begin.energies_uj@, end.energies_uj@)
                &&& counters@ == merged_counters(domains@, begin.energies_uj@, end.energies_uj@)
            },
            Some(Err(e)) => reports_first_uncovered(e, domains@, begin.energies_uj@, end.energies_uj@),
            None => all_covered(domains@, begin.energies_uj@, end.energies_uj@) && !deltas_fit(
                domains@,
                begin.energies_uj@,
                end.energies_uj@,
            ),
        },
{
    let pairs = match paired_readings(domains, begin, end) {
        Ok(pairs) => pairs,
        Err(e) => {
            return Some(Err(e));
        },
    };
    let ghost all = domains@;
    let ghost b = begin.energies_uj@;
    let ghost e = end.energies_uj@;
    let mut groups: Vec<Group> = Vec::new();
    let mut counters = CounterMap::new();
    let mut i: usize = 0;
    while i < domains.len()
        invariant
            0 <= i <= all.len(),
            all == domains@,
            b == begin.energies_uj@,
            e == end.energies_uj@,
            pairs@.len() == all.len(),
            all_covered(all, b, e),
            forall|j: int|
                0 <= j < all.len() ==> (#[trigger] pairs@[j]) == (b[all[j].path@], e[all[j].path@]),
            forall|j: int| 0 <= j < i ==> delta_in_range(#[trigger] all[j], b, e),
            groups_sum_up(groups@, all.take(i as int), b, e),
            counters@ == merged_counters(all.take(i as int), b, e),
        decreases all.len() - i,
    {
        let d = &domains[i];
        let (start_uj, end_uj) = pairs[i];
        if end_uj < start_uj && start_uj > d.max_energy_uj {
            assert(!delta_in_range(all[i as int], b, e));
            return None;
        }
        let diff_uj = energy_diff(start_uj, end_uj, d.max_energy_uj);
        let found = find_group(&groups, &d.name, d.socket);
        proof {
            lemma_prefix_step(all, b, e, i as int);
        }
        let ghost before = groups@;
        let total = match found {
            Some(g) => {
                let sum = match groups[g].total.checked_add(diff_uj) {
                    Some(sum) => sum,
                    None => {
                        proof {
                            if deltas_fit(all, b, e) {
                                lemma_group_total_grows(all, b, e, d.name@, d.socket, i + 1);
                            }
                        }
                        return None;
                    },
                };
                groups.set(g, Group { name: d.name.clone(), socket: d.socket, total: sum });
                proof {
                    assert forall|name: Seq<char>, socket: u32| !group_known(groups@, name, socket)
                        implies #[trigger] group_total(all.take(i + 1), b, e, name, socket) == 0 by {
                        if group_known(before, name, socket) {
                            let h = choose|h: int|
                                0 <= h < before.len() && (#[trigger] before[h]).name@ == name
                                    && before[h].socket == socket;
                            assert(groups@[h].name@ == name && groups@[h].socket == socket);
                        }
                    }
                    assert forall|h: int| 0 <= h < groups@.len() implies (#[trigger] groups@[h]).total
                        == group_total(all.take(i + 1), b, e, groups@[h].name@, groups@[h].socket) by {
                        if h != g {
                            assert(before[h] == groups@[h]);
                            if h < g {
                                assert(!(before[h].name@ == before[g as int].name@ && before[h].socket
                                    == before[g as int].socket));
                            } else {
                                assert(!(before[g as int].name@ == before[h].name@ && before[g as int].socket
                                    == before[h].socket));
                            }
                        }
                    }
                    assert forall|x: int, y: int| 0 <= x < y < groups@.len() implies !((
                    #[trigger] groups@[x]).name@ == (#[trigger] groups@[y]).name@ && groups@[x].socket
                        == groups@[y].socket) by {
                        assert(!(before[x].name@ == before[y].name@ && before[x].socket
                            == before[y].socket));
                    }
                }
                sum
            },
            None => {
                groups.push(Group { name: d.name.clone(), socket: d.socket, total: diff_uj });
                proof {
                    let fresh = before.len() as int;
                    assert(groups@[fresh].name@ == d.name@ && groups@[fresh].socket == d.socket);
                    assert forall|name: Seq<char>, socket: u32| !group_known(groups@, name, socket)
                        implies #[trigger] group_total(all.take(i + 1), b, e, name, socket) == 0 by {
                        if group_known(before, name, socket) {
                            let h = choose|h: int|
                                0 <= h < before.len() && (#[trigger] before[h]).name@ == name
                                    && before[h].socket == socket;
                            assert(groups@[h].name@ == name && groups@[h].socket == socket);
                        }
                    }
                    assert forall|h: int| 0 <= h < groups@.len() implies (#[trigger] groups@[h]).total
                        == group_total(all.take(i + 1), b, e, groups@[h].name@, groups@[h].socket) by {
                        if h < fresh {
                            assert(before[h] == groups@[h]);
                        }
                    }
                    assert forall|x: int, y: int| 0 <= x < y < groups@.len() implies !((
                    #[trigger] groups@[x]).name@ == (#[trigger] groups@[y]).name@ && groups@[x].socket
                        == groups@[y].socket) by {
                        if y < fresh {
                            assert(!(before[x].name@ == before[y].name@ && before[x].socket
                                == before[y].socket));
                        } else {
                            assert(before[x] == groups@[x]);
                        }
                    }
                }
                diff_uj
            },
        };
        counters.insert(counter_key(d.name.as_str(), d.socket), total);
        i += 1;
    }
    proof {
        assert(all.take(i as int) =~= all);
        assert forall|j: int| 0 <= j < all.len() implies group_total(
            all,
            b,
            e,
            (#[trigger] all[j]).name@,
            all[j].socket,
        ) <= u64::MAX by {
            if group_known(groups@, all[j].name@, all[j].socket) {
                let h = choose|h: int|
                    0 <= h < groups@.len() && (#[trigger] groups@[h]).name@ == all[j].name@
                        && groups@[h].socket == all[j].socket;
            }
        }
    }
    Some(Ok(counters))
}

/// Compute one measurement from two energy snapshots: per domain the
/// wraparound-safe delta, summed over the domains that share a name and a
/// socket, under the counter name of that group.
pub fn compute_measurement_from_snapshots(
    domains: &[RaplDomain],
    begin: &EnergySnapshot,
    end: &EnergySnapshot,
) -> (r: Result<CounterMap, JouleProfilerError>)
    requires
        all_covered(domains@, begin.energies_uj@, end.energies_uj@) ==> deltas_fit(
            domains@,
            begin.energies_uj@,
            end.energies_uj@,
        ),
    ensures
        match r {
            Ok(counters) => {
                &&& all_covered(domains@, begin.energies_uj@, end.energies_uj@)
                &&& counters@ == merged_counters(domains@, begin.energies_uj@, end.energies_uj@)
            },
            Err(e) => reports_first_uncovered(e, domains@, begin.energies_uj@, end.energies_uj@),
        },
{
    match checked_measurement_from_snapshots(domains, begin, end) {
        Some(r) => r,
        None => {
            proof {
                assert(false);
            }
            Ok(CounterMap::new())
        },
    }
}

/// Two equal readings of a counter mean that no energy was consumed,
/// whatever the counter's bound.
pub proof fn lemma_energy_diff_of_equal_readings(x: u64, max: u64)
    ensures
        energy_diff_spec(x, x, max) == 0,
{
}

/// For a counter whose bound lies above the first reading, the delta is the
/// plain difference when the counter did not go backwards, and otherwise the
/// way up to the bound plus the second reading; it is never negative and
/// stays below the bound after a wrap.
pub proof fn lemma_energy_diff_wraps_at_bound(start: u64, end: u64, max: u64)
    requires
        max > start,
    ensures
        end >= start ==> energy_diff_spec(start, end, max) == end - start,
        end < start ==> energy_diff_spec(start, end, max) == (max - start) + end,
        end < start ==> energy_diff_spec(start, end, max) < max,
        0 <= energy_diff_spec(start, end, max),
{
}

/// The merged counters are exactly the counter names of the domains.
pub proof fn lemma_merged_keys(
    domains: Seq<RaplDomain>,
    begin: Map<Seq<char>, u64>,
    end: Map<Seq<char>, u64>,
    key: Seq<char>,
)
    ensures
        merged_counters(domains, begin, end).contains_key(key) <==> exists|i: int|
            0 <= i < domains.len() && counter_name(
                (#[trigger] domains[i]).name@,
                domains[i].socket,
            ) == key,
    decreases domains.len(),
{
    if domains.len() > 0 {
        let init = domains.drop_last();
        let last = domains.last();
        lemma_merged_keys(init, begin, end, key);
        if merged_counters(domains, begin, end).contains_key(key) {
            if counter_name(last.name@, last.socket) == key {
                assert(domains[domains.len() - 1] == last);
            } else {
                let i = choose|i: int|
                    0 <= i < init.len() && counter_name((#[trigger] init[i]).name@, init[i].socket)
                        == key;
                assert(domains[i] == init[i]);
            }
        }
        if exists|i: int|
            0 <= i < domains.len() && counter_name((#[trigger] domains[i]).name@, domains[i].socket)
                == key {
            let i = choose|i: int|
                0 <= i < domains.len() && counter_name(
                    (#[trigger] domains[i]).name@,
                    domains[i].socket,
                ) == key;
            if i < init.len() {
                assert(init[i] == domains[i]);
            }
        }
    }
}

/// Domains that share a name and a socket contribute additively: the merged
/// counter of a domain holds the sum of the deltas of all the domains of its
/// name and socket, as long as no domain of another name or socket is given
/// the same counter name.
pub proof fn lemma_merged_counter_is_group_sum(
    domains: Seq<RaplDomain>,
    begin: Map<Seq<char>, u64>,
    end: Map<Seq<char>, u64>,
    i: int,
)
    requires
        0 <= i < domains.len(),
        deltas_fit(domains, begin, end),
        forall|j: int|
            0 <= j < domains.len() && counter_name((#[trigger] domains[j]).name@, domains[j].socket)
                == counter_name(domains[i].name@, domains[i].socket) ==> domains[j].name@
                == domains[i].name@ && domains[j].socket == domains[i].socket,
    ensures
        merged_counters(domains, begin, end).contains_key(
            counter_name(domains[i].name@, domains[i].socket),
        ),
        merged_counters(domains, begin, end)[counter_name(domains[i].name@, domains[i].socket)]
            == group_total(domains, begin, end, domains[i].name@, domains[i].socket),
    decreases domains.len(),
{
    let init = domains.drop_last();
    let last = domains.last();
    let key = counter_name(domains[i].name@, domains[i].socket);
    assert(domains[domains.len() - 1] == last);
    if counter_name(last.name@, last.socket) == key {
        assert(last.name@ == domains[i].name@ && last.socket == domains[i].socket);
        lemma_group_total_nonnegative(domains, begin, end, last.name@, last.socket);
    } else {
        assert(i < init.len());
        assert(init[i] == domains[i]);
        assert forall|j: int| 0 <= j < init.len() implies delta_in_range(
            #[trigger] init[j],
            begin,
            end,
        ) && group_total(init, begin, end, init[j].name@, init[j].socket) <= u64::MAX by {
            assert(init[j] == domains[j]);
            assert(domains.take(init.len() as int) =~= init);
            lemma_group_total_grows(
                domains,
                begin,
                end,
                init[j].name@,
                init[j].socket,
                init.len() as int,
            );
        }
        assert forall|j: int|
            0 <= j < init.len() && counter_name((#[trigger] init[j]).name@, init[j].socket)
                == counter_name(init[i].name@, init[i].socket) implies init[j].name@
            == init[i].name@ && init[j].socket == init[i].socket by {
            assert(init[j] == domains[j]);
        }
        lemma_merged_counter_is_group_sum(init, begin, end, i);
    }
}

/// What came of reading each of the counter files is a number.
pub open spec fn all_readable(reads: Seq<CounterRead>) -> bool {
    forall|i: int| 0 <= i < reads.len() ==> (#[trigger] reads[i]).value() is Some
}

/// What is reported when the content of the counter file of `d` is no number.
pub open spec fn invalid_reading_text(d: RaplDomain, content: Seq<char>) -> Seq<char> {
    "Invalid energy value '"@ + trimmed_text(content) + "' in domain '"@ + d.name@ + "': "@
        + parse_failure_text(trimmed_text(content))
}

/// `e` reports that no number came of reading the counter file of `d`.
pub open spec fn reports_unread(e: JouleProfilerError, d: RaplDomain, read: CounterRead) -> bool {
    match read {
        CounterRead::Content(content) => e matches JouleProfilerError::ParseEnergyError(text)
            && text@ == invalid_reading_text(d, content@),
        CounterRead::Denied => e is InsufficientPermissions,
        CounterRead::Unreadable(why) => e matches JouleProfilerError::RaplReadError(text) && text@
            == why@,
    }
}

/// The readings of a snapshot made from what came of reading the counter
/// files, one per domain and in the domains' order.
pub open spec fn readings_of(domains: Seq<RaplDomain>, reads: Seq<CounterRead>) -> Map<
    Seq<char>,
    u64,
>
    decreases domains.len(),
{
    if domains.len() == 0 || reads.len() != domains.len() {
        Map::empty()
    } else {
        readings_of(domains.drop_last(), reads.drop_last()).insert(
            domains.last().path@,
            reads.last().value().unwrap() as u64,
        )
    }
}

/// Number of the domains that are given a read: reads are paired with
/// domains in order.
pub open spec fn paired_len(domains: Seq<RaplDomain>, reads: Seq<CounterRead>) -> int {
    if domains.len() <= reads.len() {
        domains.len() as int
    } else {
        reads.len() as int
    }
}

/// What is reported of a domain that no read was made for.
pub open spec fn unread_domain_text(d: RaplDomain) -> Seq<char> {
    "Missing reading for domain '"@ + d.name@ + "'"@
}

/// `e` reports the first of the domains of which no number was read: the
/// first whose read gave none, or, where every read that was made gave
/// one, the first domain that no read was made for.
pub open spec fn reports_first_unread(
    e: JouleProfilerError,
    domains: Seq<RaplDomain>,
    reads: Seq<CounterRead>,
) -> bool {
    let paired = paired_len(domains, reads);
    if all_readable(reads.take(paired)) {
        paired < domains.len() && (e matches JouleProfilerError::RaplReadError(text) && text@
            == unread_domain_text(domains[paired]))
    } else {
        exists|i: int|
            0 <= i < paired && (#[trigger] reads[i]).value() is None && all_readable(reads.take(i))
                && reports_unread(e, domains[i], reads[i])
    }
}

/// A snapshot made of one read for each domain holds a reading of every
/// domain: no snapshot holds a part of the domains only.
pub proof fn lemma_snapshot_is_whole(domains: Seq<RaplDomain>, reads: Seq<CounterRead>)
    requires
        reads.len() == domains.len(),
    ensures
        forall|i: int|
            0 <= i < domains.len() ==> readings_of(domains, reads).contains_key(
                (#[trigger] domains[i]).path@,
            ),
    decreases domains.len(),
{
    if domains.len() > 0 {
        lemma_snapshot_is_whole(domains.drop_last(), reads.drop_last());
        assert forall|i: int| 0 <= i < domains.len() implies readings_of(
            domains,
            reads,
        ).contains_key((#[trigger] domains[i]).path@) by {
            if i < domains.len() - 1 {
                assert(domains.drop_last()[i] == domains[i]);
            }
        }
    }
}

impl EnergySnapshot {
    /// The snapshot taken at `timestamp_us` in which every domain has the
    /// number that came of reading its counter file, the reads being given
    /// in the domains' order. The first domain of which no number was read,
    /// be the file unreadable, its content no number or the read not made,
    /// is reported, and no snapshot is made: a snapshot never holds a part
    /// of the domains only.
    pub fn from_readings(domains: &[RaplDomain], reads: &Vec<CounterRead>, timestamp_us: u128) -> (r:
        Result<EnergySnapshot, JouleProfilerError>)
        ensures
            r is Ok <==> domains@.len() <= reads@.len() && all_readable(
                reads@.take(domains@.len() as int),
            ),
            match r {
                Ok(snapshot) => {
                    &&& snapshot.timestamp_us == timestamp_us
                    &&& snapshot.energies_uj@ == readings_of(
                        domains@,
                        reads@.take(domains@.len() as int),
                    )
                    &&& forall|i: int|
                        0 <= i < domains@.len() ==> snapshot.energies_uj@.contains_key(
                            (#[trigger] domains@[i]).path@,
                        )
                },
                Err(e) => reports_first_unread(e, domains@, reads@),
            },
    {
        let n = if domains.len() <= reads.len() {
            domains.len()
        } else {
            reads.len()
        };
        let mut map = CounterMap::new();
        let mut i: usize = 0;
        while i < n
            invariant
                0 <= i <= n,
                n == paired_len(domains@, reads@),
                all_readable(reads@.take(i as int)),
                map@ == readings_of(domains@.take(i as int), reads@.take(i as int)),
            decreases n - i,
        {
            let d = &domains[i];
            proof {
                if all_readable(reads@.take(n as int)) {
                    assert(reads@.take(n as int)[i as int].value() is Some);
                }
            }
            let val_uj = match &reads[i] {
                CounterRead::Content(content) => {
                    let text = trim(content.as_str());
                    match parse_u64(text.as_str()) {
                        Ok(v) => v,
                        Err(why) => {
                            let mut report = String::from_str("Invalid energy value '");
                            report.append(text.as_str());
                            report.append("' in domain '");
                            report.append(d.name.as_str());
                            report.append("': ");
                            report.append(why.as_str());
                            return Err(JouleProfilerError::ParseEnergyError(report));
                        },
                    }
                },
                CounterRead::Denied => {
                    return Err(JouleProfilerError::InsufficientPermissions);
                },
                CounterRead::Unreadable(why) => {
                    return Err(JouleProfilerError::RaplReadError(why.clone()));
                },
            };
            map.insert(d.path.clone(), val_uj);
            proof {
                let ds = domains@.take(i + 1);
                let cs = reads@.take(i + 1);
                assert(ds.drop_last() =~= domains@.take(i as int));
                assert(cs.drop_last() =~= reads@.take(i as int));
                assert(ds.last() == domains@[i as int]);
                assert(cs.last() == reads@[i as int]);
                assert forall|j: int| 0 <= j < cs.len() implies (#[trigger] cs[j]).value() is Some by {
                    if j < i {
                        assert(reads@.take(i as int)[j] == cs[j]);
                    }
                }
            }
            i += 1;
        }
        if n < domains.len() {
            let mut report = String::from_str("Missing reading for domain '");
            report.append(domains[n].name.as_str());
            report.append("'");
            return Err(JouleProfilerError::RaplReadError(report));
        }
        proof {
            assert(domains@.take(n as int) =~= domains@);
            lemma_snapshot_is_whole(domains@, reads@.take(n as int));
        }
        Ok(EnergySnapshot { energies_uj: map, timestamp_us })
    }
}

} // verus!
