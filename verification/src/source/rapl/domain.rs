//! Counter domains and the socket indices they belong to.

use crate::error::JouleProfilerError;
use crate::text::{
    parse_u32, parse_u64, parse_unsigned, split_on, split_text, texts, trim, trimmed_text,
};
use std::collections::HashSet;
use vstd::prelude::*;
use vstd::std_specs::iter::IteratorSpec;
use vstd::string::{StrSliceExecFns, StringExecFns};

verus! {

broadcast use vstd::std_specs::hash::group_hash_axioms;

/// One hardware energy counter: where it is read, what it is called, which
/// socket it belongs to and the value at which it wraps around.
#[derive(Debug)]
pub struct RaplDomain {
    /// Location of the counter; also the key of its readings in a snapshot.
    pub path: String,
    /// Logical name of the domain, such as `package-0`, `core` or `dram`.
    pub name: String,
    /// Index of the socket this domain belongs to.
    pub socket: u32,
    /// Largest value of the counter, in microjoules, before it wraps.
    pub max_energy_uj: u64,
}

impl Clone for RaplDomain {
    fn clone(&self) -> (copy: Self)
        ensures
            copy == *self,
    {
        RaplDomain {
            path: self.path.clone(),
            name: self.name.clone(),
            socket: self.socket,
            max_energy_uj: self.max_energy_uj,
        }
    }
}

/// The socket indices that occur among `domains`.
pub open spec fn sockets_of(domains: Seq<RaplDomain>) -> Set<u32> {
    Set::new(|s: u32| exists|i: int| 0 <= i < domains.len() && (#[trigger] domains[i]).socket == s)
}

/// Discovers all unique socket indices from the given RAPL domains.
pub fn discover_sockets(domains: &[RaplDomain]) -> (sockets: HashSet<u32>)
    ensures
        sockets@ == sockets_of(domains@),
{
    let mut sockets: HashSet<u32> = HashSet::new();
    let mut i: usize = 0;
    while i < domains.len()
        invariant
            0 <= i <= domains@.len(),
            sockets@ == sockets_of(domains@.take(i as int)),
        decreases domains@.len() - i,
    {
        sockets.insert(domains[i].socket);
        proof {
            let before = domains@.take(i as int);
            let after = domains@.take(i + 1);
            assert forall|s: u32| #[trigger]
                sockets_of(after).contains(s) <==> sockets_of(before).insert(
                    domains@[i as int].socket,
                ).contains(s) by {
                if sockets_of(after).contains(s) {
                    let j = choose|j: int| 0 <= j < after.len() && (#[trigger] after[j]).socket == s;
                    if j < i {
                        assert(before[j].socket == s);
                    }
                }
                if sockets_of(before).contains(s) {
                    let j = choose|j: int|
                        0 <= j < before.len() && (#[trigger] before[j]).socket == s;
                    assert(after[j].socket == s);
                }
                if s == domains@[i as int].socket {
                    assert(after[i as int].socket == s);
                }
            }
            assert(sockets@ =~= sockets_of(after));
        }
        i += 1;
    }
    proof {
        assert(domains@.take(i as int) =~= domains@);
        assert(sockets_of(domains@.take(0)) =~= Set::<u32>::empty());
    }
    sockets
}

/// Keeps of a socket filter the indices that exist: an index that
/// was asked for and is not among `sockets` is dropped without complaint.
pub fn filter_sockets(spec: &HashSet<u32>, sockets: &HashSet<u32>) -> (kept: HashSet<u32>)
    ensures
        kept@ == spec@.intersect(sockets@),
{
    let mut kept: HashSet<u32> = HashSet::new();
    let ghost listed: Seq<u32> = vstd::std_specs::hash::spec_hash_keys_iter(spec).remaining().unref();
    let ghost mut done: int = 0;
    for s in it: spec.iter()
        invariant
            done == it.index(),
            it.seq().unref() == listed,
            listed.to_set() == spec@,
            kept@ == Set::new(
                |x: u32|
                    sockets@.contains(x) && exists|j: int|
                        0 <= j < done && #[trigger] listed[j] == x,
            ),
    {
        if sockets.contains(s) {
            kept.insert(*s);
        }
        proof {
            assert(listed[done] == *s);
            done = done + 1;
        }
    }
    proof {
        assert(done == listed.len());
        assert forall|x: u32| #[trigger]
            kept@.contains(x) <==> spec@.intersect(sockets@).contains(x) by {
            if kept@.contains(x) {
                let j = choose|j: int| 0 <= j < done && #[trigger] listed[j] == x;
                assert(listed.contains(x));
            }
            if spec@.intersect(sockets@).contains(x) {
                assert(listed.contains(x));
            }
        }
        assert(kept@ =~= spec@.intersect(sockets@));
    }
    kept
}

/// The elements of a set of indices, each once and in no stated order.
fn indices_of(set: &HashSet<u32>) -> (listed: Vec<u32>)
    ensures
        listed@.to_set() == set@,
        listed@.no_duplicates(),
{
    let mut out: Vec<u32> = Vec::new();
    let ghost all: Seq<u32> = vstd::std_specs::hash::spec_hash_keys_iter(set).remaining().unref();
    let ghost mut done: int = 0;
    for s in it: set.iter()
        invariant
            done == it.index(),
            it.seq().unref() == all,
            out@ == all.take(done),
    {
        out.push(*s);
        proof {
            assert(all[done] == *s);
            assert(all.take(done).push(*s) =~= all.take(done + 1));
            done = done + 1;
        }
    }
    proof {
        assert(all.take(done) =~= all);
        let refs = vstd::std_specs::hash::spec_hash_keys_iter(set).remaining();
        assert forall|i: int, j: int| 0 <= i < all.len() && 0 <= j < all.len() && i != j implies all[i]
            != all[j] by {
            assert(refs[i] != refs[j]);
        }
    }
    out
}

/// The set of indices of a socket filter, if one is given.
pub open spec fn wanted_sockets(spec: Option<&HashSet<u32>>) -> Option<Set<u32>> {
    match spec {
        Some(wanted) => Some(wanted@),
        None => None,
    }
}

/// The sockets to measure: all that were discovered, or of those the ones
/// that the filter asks for.
pub open spec fn selected_sockets(domains: Seq<RaplDomain>, spec: Option<Set<u32>>) -> Set<u32> {
    match spec {
        Some(wanted) => wanted.intersect(sockets_of(domains)),
        None => sockets_of(domains),
    }
}

/// The sockets to measure, each once: all that the domains have, or of
/// those the ones that the filter asks for.
pub fn parse_or_all_sockets(domains: &[RaplDomain], spec: Option<&HashSet<u32>>) -> (sockets: Vec<
    u32,
>)
    ensures
        sockets@.to_set() == selected_sockets(domains@, wanted_sockets(spec)),
        sockets@.no_duplicates(),
{
    let mut sockets = discover_sockets(domains);
    if let Some(spec) = spec {
        sockets = filter_sockets(spec, &sockets);
    }
    indices_of(&sockets)
}

/// The domains of `domains` whose socket is among `sockets`, in order.
pub open spec fn domains_on(domains: Seq<RaplDomain>, sockets: Set<u32>) -> Seq<RaplDomain> {
    domains.filter(|d: RaplDomain| sockets.contains(d.socket))
}

/// Whether `wanted` holds `socket`.
fn holds_socket(wanted: &Vec<u32>, socket: u32) -> (found: bool)
    ensures
        found == wanted@.to_set().contains(socket),
{
    let mut i: usize = 0;
    while i < wanted.len()
        invariant
            0 <= i <= wanted@.len(),
            forall|j: int| 0 <= j < i ==> wanted@[j] != socket,
        decreases wanted@.len() - i,
    {
        if wanted[i] == socket {
            assert(wanted@.contains(socket));
            return true;
        }
        i += 1;
    }
    assert(!wanted@.contains(socket));
    false
}

/// The domains of the sockets to measure, in the order of discovery. An
/// index of the filter that no domain has is dropped silently.
pub fn select_domains(domains: Vec<RaplDomain>, spec: Option<&HashSet<u32>>) -> (kept: Vec<
    RaplDomain,
>)
    ensures
        kept@ == domains_on(domains@, selected_sockets(domains@, wanted_sockets(spec))),
{
    let sockets = parse_or_all_sockets(domains.as_slice(), spec);
    let ghost allowed = sockets@.to_set();
    let ghost pred = |d: RaplDomain| allowed.contains(d.socket);
    let mut kept: Vec<RaplDomain> = Vec::new();
    let mut i: usize = 0;
    proof {
        reveal(Seq::filter);
        assert(domains@.take(0).filter(pred) =~= Seq::<RaplDomain>::empty());
    }
    while i < domains.len()
        invariant
            0 <= i <= domains@.len(),
            allowed == sockets@.to_set(),
            pred == (|d: RaplDomain| allowed.contains(d.socket)),
            kept@ == domains@.take(i as int).filter(pred),
        decreases domains@.len() - i,
    {
        proof {
            reveal(Seq::filter);
            assert(domains@.take(i + 1).drop_last() =~= domains@.take(i as int));
            assert(domains@.take(i + 1).last() == domains@[i as int]);
        }
        if holds_socket(&sockets, domains[i].socket) {
            kept.push(domains[i].clone());
        }
        i += 1;
    }
    proof {
        assert(domains@.take(i as int) =~= domains@);
    }
    kept
}

/// True for the names that the vendor gives to the directories of domains.
pub open spec fn is_rapl_name(name: Seq<char>) -> bool {
    "intel-rapl:"@.is_prefix_of(name)
}

/// `i` is where the index ends in `rest`: at the first colon, or at the end
/// where there is none.
pub open spec fn index_ends_at(rest: Seq<char>, i: int) -> bool {
    &&& 0 <= i <= rest.len()
    &&& forall|j: int| 0 <= j < i ==> rest[j] != ':'
    &&& i < rest.len() ==> rest[i] == ':'
}

/// The text of `rest` before its first colon.
pub open spec fn up_to_colon(rest: Seq<char>) -> Seq<char> {
    rest.take(choose|i: int| index_ends_at(rest, i))
}

/// The socket index that the name of a directory carries: what stands
/// between the vendor's prefix and the next colon, if that is a number.
pub open spec fn component_socket(name: Seq<char>) -> Option<u32> {
    if is_rapl_name(name) {
        match parse_unsigned(up_to_colon(name.skip("intel-rapl:"@.len() as int)), u32::MAX as nat) {
            Some(n) => Some(n as u32),
            None => None,
        }
    } else {
        None
    }
}

/// The socket index that the first of `pieces` with an index carries, and
/// zero where none carries one.
pub open spec fn socket_of_pieces(pieces: Seq<Seq<char>>) -> u32
    decreases pieces.len(),
{
    if pieces.len() == 0 {
        0
    } else {
        match component_socket(pieces.first()) {
            Some(socket) => socket,
            None => socket_of_pieces(pieces.drop_first()),
        }
    }
}

/// The socket index of a path: that of the first of its components,
/// which slashes part, that carries one, and zero where none does.
pub open spec fn socket_of_path(path: Seq<char>) -> u32 {
    socket_of_pieces(split_on(path, '/'))
}

/// There is one place where the index ends.
proof fn lemma_index_end_unique(rest: Seq<char>, i: int, j: int)
    requires
        index_ends_at(rest, i),
        index_ends_at(rest, j),
    ensures
        i == j,
{
}

/// Whether `name` starts as the directories of domains do.
pub fn is_rapl_directory(name: &str) -> (yes: bool)
    ensures
        yes == is_rapl_name(name@),
{
    let prefix = "intel-rapl:";
    proof {
        reveal_strlit("intel-rapl:");
    }
    let n = name.unicode_len();
    let k = prefix.unicode_len();
    if n < k {
        return false;
    }
    let mut i: usize = 0;
    while i < k
        invariant
            0 <= i <= k,
            k == prefix@.len(),
            prefix@ == "intel-rapl:"@,
            k <= n,
            n == name@.len(),
            forall|j: int| 0 <= j < i ==> name@[j] == prefix@[j],
        decreases k - i,
    {
        if name.get_char(i) != prefix.get_char(i) {
            proof {
                if is_rapl_name(name@) {
                    let head = name@.subrange(0, prefix@.len() as int);
                    assert(prefix@ == head);
                    assert(head[i as int] == name@[i as int]);
                }
            }
            return false;
        }
        i += 1;
    }
    assert(prefix@ =~= name@.subrange(0, k as int));
    true
}

/// The socket index that the name of a directory carries, if any.
pub fn socket_of_name(name: &str) -> (socket: Option<u32>)
    ensures
        socket == component_socket(name@),
{
    if !is_rapl_directory(name) {
        return None;
    }
    proof {
        reveal_strlit("intel-rapl:");
    }
    let n = name.unicode_len();
    let k: usize = 11;
    let ghost rest = name@.skip(k as int);
    let mut end: usize = k;
    while end < n && name.get_char(end) != ':'
        invariant
            k <= end <= n,
            n == name@.len(),
            rest == name@.skip(k as int),
            forall|j: int| 0 <= j < end - k ==> rest[j] != ':',
        decreases n - end,
    {
        end += 1;
    }
    let idx = name.substring_char(k, end);
    proof {
        assert(index_ends_at(rest, end - k));
        let chosen = choose|i: int| index_ends_at(rest, i);
        lemma_index_end_unique(rest, end - k, chosen);
        assert(idx@ =~= up_to_colon(rest));
    }
    parse_u32(idx)
}

/// Extracts the socket number from a RAPL domain path: the index of the
/// first component that carries one, zero where none does. Never fails.
pub fn extract_socket_number(path: &str) -> (r: Result<u32, JouleProfilerError>)
    ensures
        r matches Ok(socket) && socket == socket_of_path(path@),
{
    let pieces = split_text(path, '/');
    let mut i: usize = 0;
    assert(texts(pieces@).skip(0) =~= texts(pieces@));
    while i < pieces.len()
        invariant
            0 <= i <= pieces@.len(),
            texts(pieces@) == split_on(path@, '/'),
            socket_of_pieces(texts(pieces@)) == socket_of_pieces(texts(pieces@).skip(i as int)),
        decreases pieces@.len() - i,
    {
        let ghost rest = texts(pieces@).skip(i as int);
        proof {
            assert(rest.first() == pieces@[i as int]@);
            assert(rest.drop_first() =~= texts(pieces@).skip(i + 1));
        }
        if let Some(n) = socket_of_name(pieces[i].as_str()) {
            assert(socket_of_pieces(rest) == n);
            return Ok(n);
        }
        assert(socket_of_pieces(rest) == socket_of_pieces(rest.drop_first()));
        i += 1;
    }
    proof {
        assert(texts(pieces@).skip(i as int).len() == 0);
    }
    Ok(0)
}

/// What a scan found of one directory that may hold a domain.
#[derive(Debug)]
pub struct DomainCandidate {
    /// Path of the directory.
    pub dir: String,
    /// Path of the counter file in the directory, whether it is there or not.
    pub energy_path: String,
    /// Whether the counter file is there.
    pub has_energy: bool,
    /// Content of the file that names the domain, if it could be read.
    pub name: Option<String>,
    /// Content of the file that holds the counter's bound, if it is there
    /// and could be read.
    pub max_energy_range: Option<String>,
}

impl DomainCandidate {
    /// The name of the domain: what the naming file holds, without the
    /// white space around it, and `unknown` where there is no such file.
    pub open spec fn domain_name(&self) -> Seq<char> {
        trimmed_text(
            match self.name {
                Some(name) => name@,
                None => "unknown"@,
            },
        )
    }

    /// The counter's bound, where the file for it holds a number.
    pub open spec fn bound(&self) -> Option<nat> {
        match self.max_energy_range {
            Some(text) => parse_unsigned(trimmed_text(text@), u64::MAX as nat),
            None => None,
        }
    }

    /// The directory counts as a domain: it holds a counter and a bound.
    pub open spec fn qualifies(&self) -> bool {
        self.has_energy && self.bound() is Some
    }

    /// `d` is the domain of this directory: read at the counter file,
    /// named as the naming file has it, on the socket that the directory's
    /// path carries, with the bound that the bound's file holds.
    pub open spec fn yields(&self, d: RaplDomain) -> bool {
        &&& d.path@ == self.energy_path@
        &&& d.name@ == self.domain_name()
        &&& d.socket == socket_of_path(self.dir@)
        &&& d.max_energy_uj == self.bound().unwrap()
    }
}

/// The candidates that count as domains, in order.
pub open spec fn qualifying(candidates: Seq<DomainCandidate>) -> Seq<DomainCandidate> {
    candidates.filter(|c: DomainCandidate| c.qualifies())
}

/// `domains` holds the domain of each of `found`, in order.
pub open spec fn domains_of(domains: Seq<RaplDomain>, found: Seq<DomainCandidate>) -> bool {
    &&& domains.len() == found.len()
    &&& forall|k: int| 0 <= k < found.len() ==> (#[trigger] found[k]).yields(domains[k])
}

/// Adds a RAPL domain to the output vector if the directory holds a
/// counter and a bound for it. Never fails.
pub fn add_domain_if_energy(candidate: &DomainCandidate, out: &mut Vec<RaplDomain>) -> (r: Result<
    (),
    JouleProfilerError,
>)
    ensures
        r is Ok,
        candidate.qualifies() ==> final(out)@.len() == old(out)@.len() + 1
            && final(out)@.drop_last() == old(out)@
            && candidate.yields(final(out)@.last()),
        !candidate.qualifies() ==> final(out)@ == old(out)@,
{
    if !candidate.has_energy {
        return Ok(());
    }
    let name = match &candidate.name {
        Some(content) => trim(content.as_str()),
        None => trim("unknown"),
    };
    let socket = match extract_socket_number(candidate.dir.as_str()) {
        Ok(socket) => socket,
        Err(e) => {
            return Err(e);
        },
    };
    let max_energy_uj_option = match &candidate.max_energy_range {
        Some(content) => match parse_u64(trim(content.as_str()).as_str()) {
            Ok(v) => Some(v),
            Err(_) => None,
        },
        None => None,
    };
    if let Some(max_energy_uj) = max_energy_uj_option {
        out.push(RaplDomain { path: candidate.energy_path.clone(), name, socket, max_energy_uj });
        assert(out@.drop_last() =~= old(out)@);
    }
    Ok(())
}

/// Discovers the RAPL domains among the directories that a scan found:
/// the domain of every directory that counts as one, in order. Fails when
/// there is none.
pub fn discover_domains(candidates: &Vec<DomainCandidate>) -> (r: Result<
    Vec<RaplDomain>,
    JouleProfilerError,
>)
    ensures
        match r {
            Ok(domains) => qualifying(candidates@).len() > 0 && domains_of(
                domains@,
                qualifying(candidates@),
            ),
            Err(e) => e is NoDomains && qualifying(candidates@).len() == 0,
        },
{
    let mut domains: Vec<RaplDomain> = Vec::new();
    let mut i: usize = 0;
    proof {
        reveal(Seq::filter);
        assert(qualifying(candidates@.take(0)) =~= Seq::<DomainCandidate>::empty());
    }
    while i < candidates.len()
        invariant
            0 <= i <= candidates@.len(),
            domains_of(domains@, qualifying(candidates@.take(i as int))),
        decreases candidates@.len() - i,
    {
        let ghost before = domains@;
        proof {
            reveal(Seq::filter);
            assert(candidates@.take(i + 1).drop_last() =~= candidates@.take(i as int));
            assert(candidates@.take(i + 1).last() == candidates@[i as int]);
        }
        match add_domain_if_energy(&candidates[i], &mut domains) {
            Ok(()) => {},
            Err(e) => {
                return Err(e);
            },
        }
        proof {
            let found = qualifying(candidates@.take(i + 1));
            assert forall|k: int| 0 <= k < found.len() implies (#[trigger] found[k]).yields(
                domains@[k],
            ) by {
                if candidates@[i as int].qualifies() && k < before.len() {
                    assert(domains@.drop_last()[k] == domains@[k]);
                    assert(qualifying(candidates@.take(i as int))[k] == found[k]);
                }
            }
        }
        i += 1;
    }
    proof {
        assert(candidates@.take(i as int) =~= candidates@);
    }
    if domains.len() == 0 {
        return Err(JouleProfilerError::NoDomains);
    }
    Ok(domains)
}

/// Retrieve the RAPL domains among what a scan found, filtered with the
/// socket filter if one is provided.
pub fn get_domains(candidates: &Vec<DomainCandidate>, spec: Option<&HashSet<u32>>) -> (r: Result<
    Vec<RaplDomain>,
    JouleProfilerError,
>)
    ensures
        match r {
            Ok(kept) => qualifying(candidates@).len() > 0 && exists|discovered: Seq<RaplDomain>|
                #[trigger] domains_of(discovered, qualifying(candidates@)) && kept@ == domains_on(
                    discovered,
                    selected_sockets(discovered, wanted_sockets(spec)),
                ),
            Err(e) => e is NoDomains && qualifying(candidates@).len() == 0,
        },
{
    let domains = match discover_domains(candidates) {
        Ok(domains) => domains,
        Err(e) => {
            return Err(e);
        },
    };
    Ok(select_domains(domains, spec))
}

/// The root of the counter hierarchy when neither the configuration nor
/// the environment names one.
pub open spec fn default_rapl_path() -> Seq<char> {
    "/sys/devices/virtual/powercap/intel-rapl"@
}

/// Resolves the RAPL base path: the configured path first, then the one
/// from the environment, then the built-in one.
pub fn rapl_base_path(config_override: Option<&str>, from_environment: Option<String>) -> (path:
    String)
    ensures
        path@ == (match (config_override, from_environment) {
            (Some(configured), _) => configured@,
            (None, Some(inherited)) => inherited@,
            (None, None) => default_rapl_path(),
        }),
{
    if let Some(path) = config_override {
        return path.to_owned();
    }
    if let Some(env_path) = from_environment {
        return env_path;
    }
    String::from_str("/sys/devices/virtual/powercap/intel-rapl")
}

/// Checks that the RAPL interface is usable at the given base path, from
/// what a look at the path showed: whether it exists, whether it is a
/// directory, and whether listing it was denied.
pub fn check_rapl(base: &str, exists: bool, is_dir: bool, denied: bool) -> (r: Result<
    (),
    JouleProfilerError,
>)
    ensures
        match r {
            Ok(()) => exists && is_dir && !denied,
            Err(JouleProfilerError::RaplNotAvailable(path)) => !exists && path@ == base@,
            Err(JouleProfilerError::InvalidRaplPath(path)) => exists && !is_dir && path@ == base@,
            Err(JouleProfilerError::InsufficientPermissions) => exists && is_dir && denied,
            Err(_) => false,
        },
{
    if !exists {
        return Err(JouleProfilerError::RaplNotAvailable(base.to_owned()));
    }
    if !is_dir {
        return Err(JouleProfilerError::InvalidRaplPath(base.to_owned()));
    }
    if denied {
        return Err(JouleProfilerError::InsufficientPermissions);
    }
    Ok(())
}

/// What came of reading a counter file: its content, or why there is none.
#[derive(Debug)]
pub enum CounterRead {
    /// The content of the file.
    Content(String),
    /// The file may not be read with the current rights.
    Denied,
    /// The file could not be read, for the reason given.
    Unreadable(String),
}

impl CounterRead {
    /// The number that was read: the decimal number that the content holds
    /// between white space, if there is a content and it holds one.
    pub open spec fn value(&self) -> Option<nat> {
        match self {
            CounterRead::Content(content) => parse_unsigned(
                trimmed_text(content@),
                u64::MAX as nat,
            ),
            _ => None,
        }
    }
}

/// What is reported when the counter file of `d` holds no number.
pub open spec fn invalid_energy_text(d: RaplDomain, content: Seq<char>) -> Seq<char> {
    "Invalid energy value '"@ + trimmed_text(content) + "' in domain "@ + d.name@
}

/// Reads the current energy counter value of a RAPL domain from what came
/// of reading its counter file.
pub fn read_energy(domain: &RaplDomain, read: &CounterRead) -> (r: Result<u64, JouleProfilerError>)
    ensures
        match r {
            Ok(energy) => read.value() == Some(energy as nat),
            Err(e) => read.value() is None && (match read {
                CounterRead::Content(content) => e matches JouleProfilerError::ParseEnergyError(
                    text,
                ) && text@ == invalid_energy_text(*domain, content@),
                CounterRead::Denied => e is InsufficientPermissions,
                CounterRead::Unreadable(why) => e matches JouleProfilerError::RaplReadError(text)
                    && text@ == "Failed to read "@ + domain.name@ + ": "@ + why@,
            }),
        },
{
    match read {
        CounterRead::Content(content) => {
            let text = trim(content.as_str());
            match parse_u64(text.as_str()) {
                Ok(energy) => Ok(energy),
                Err(_) => {
                    let mut report = String::from_str("Invalid energy value '");
                    report.append(text.as_str());
                    report.append("' in domain ");
                    report.append(domain.name.as_str());
                    Err(JouleProfilerError::ParseEnergyError(report))
                },
            }
        },
        CounterRead::Denied => Err(JouleProfilerError::InsufficientPermissions),
        CounterRead::Unreadable(why) => {
            let mut report = String::from_str("Failed to read ");
            report.append(domain.name.as_str());
            report.append(": ");
            report.append(why.as_str());
            Err(JouleProfilerError::RaplReadError(report))
        },
    }
}

/// Checks that the operating system has the counter interface: Linux has.
pub fn check_os(os: &str) -> (r: Result<(), JouleProfilerError>)
    ensures
        match r {
            Ok(()) => os@ == "linux"@,
            Err(e) => os@ != "linux"@ && (e matches JouleProfilerError::UnsupportedOS(name) && name@
                == os@),
        },
{
    let name = os.to_owned();
    if name == String::from_str("linux") {
        Ok(())
    } else {
        Err(JouleProfilerError::UnsupportedOS(name))
    }
}

} // verus!
