use joule_profiler::error::JouleProfilerError;
use joule_profiler::source::rapl::domain::{
    add_domain_if_energy, check_os, check_rapl, discover_domains, discover_sockets,
    extract_socket_number, filter_sockets, get_domains, is_rapl_directory, parse_or_all_sockets,
    rapl_base_path, read_energy, select_domains, socket_of_name,
    CounterRead, DomainCandidate, RaplDomain,
};
use joule_profiler::source::rapl::init_rapl;
use joule_profiler::source::{MetricReader, MetricSource};
use std::time::Duration;
use std::collections::HashSet;

fn make_domain_dir(
    base: &str,
    name: &str,
    socket: u32,
    _energy: u64,
    max_energy: u64,
) -> DomainCandidate {
    let dir = format!("{}/intel-rapl:{}", base, socket);
    DomainCandidate {
        energy_path: format!("{}/energy_uj", dir),
        dir,
        has_energy: true,
        name: Some(name.to_string()),
        max_energy_range: Some(max_energy.to_string()),
    }
}

fn pkg(path: &str, socket: u32) -> RaplDomain {
    RaplDomain {
        path: path.into(),
        name: "pkg".into(),
        socket,
        max_energy_uj: 1,
    }
}

#[test]
fn rapl_base_path_uses_override() {
    let path = rapl_base_path(Some("/custom/path"), None);
    assert_eq!(path, "/custom/path");
}

#[test]
fn rapl_base_path_prefers_override_then_environment_then_default() {
    assert_eq!(
        rapl_base_path(Some("/custom/path"), Some("/from/env".to_string())),
        "/custom/path"
    );
    assert_eq!(rapl_base_path(None, Some("/from/env".to_string())), "/from/env");
    assert_eq!(
        rapl_base_path(None, None),
        "/sys/devices/virtual/powercap/intel-rapl"
    );
}

#[test]
fn extract_socket_number_from_path() {
    let path = "/sys/devices/intel-rapl:2/intel-rapl:2:0";
    let socket = extract_socket_number(path).unwrap();
    assert_eq!(socket, 2);
}

#[test]
fn extract_socket_number_defaults_to_zero() {
    let path = "/weird/path/no-socket";
    let socket = extract_socket_number(path).unwrap();
    assert_eq!(socket, 0);
}

#[test]
fn extract_socket_number_takes_the_first_component_with_an_index() {
    assert_eq!(extract_socket_number("/base/intel-rapl:x/intel-rapl:7:1").unwrap(), 7);
    assert_eq!(extract_socket_number("intel-rapl:13").unwrap(), 13);
    assert_eq!(extract_socket_number("/a/intel-rapl:4294967296/b").unwrap(), 0);
    assert_eq!(extract_socket_number("/a/intel-rapl:/intel-rapl:5").unwrap(), 5);
    assert_eq!(extract_socket_number("").unwrap(), 0);
    assert_eq!(extract_socket_number("/").unwrap(), 0);
    assert_eq!(extract_socket_number("//intel-rapl:9//").unwrap(), 9);
    assert_eq!(extract_socket_number("/a/./intel-rapl:no/../intel-rapl:3/intel-rapl:4").unwrap(), 3);
}

#[test]
fn socket_of_name_reads_the_index_after_the_prefix() {
    assert_eq!(socket_of_name("intel-rapl:0"), Some(0));
    assert_eq!(socket_of_name("intel-rapl:2:0"), Some(2));
    assert_eq!(socket_of_name("intel-rapl:+3:x:y"), Some(3));
    assert_eq!(socket_of_name("intel-rapl:4294967295"), Some(4294967295));
    assert_eq!(socket_of_name("intel-rapl:4294967296"), None);
    assert_eq!(socket_of_name("intel-rapl:"), None);
    assert_eq!(socket_of_name("intel-rapl::1"), None);
    assert_eq!(socket_of_name("intel-rapl: 1"), None);
    assert_eq!(socket_of_name("intel-rapl"), None);
    assert_eq!(socket_of_name("Intel-rapl:1"), None);
    assert_eq!(socket_of_name("xintel-rapl:1"), None);
    assert_eq!(socket_of_name(""), None);
}

#[test]
fn is_rapl_directory_wants_the_vendor_prefix() {
    assert!(is_rapl_directory("intel-rapl:0"));
    assert!(is_rapl_directory("intel-rapl:"));
    assert!(is_rapl_directory("intel-rapl:0:1"));
    assert!(!is_rapl_directory("intel-rapl"));
    assert!(!is_rapl_directory("intel-rapx:0"));
    assert!(!is_rapl_directory("power"));
    assert!(!is_rapl_directory(""));
}

#[test]
fn discover_domains_finds_valid_domain() {
    let base = "/tmp/base";

    let candidates = vec![make_domain_dir(base, "package", 0, 100, 1_000)];

    let domains = discover_domains(&candidates).unwrap();

    assert_eq!(domains.len(), 1);
    let d = &domains[0];
    assert_eq!(d.name, "package");
    assert_eq!(d.socket, 0);
    assert_eq!(d.max_energy_uj, 1_000);
}

#[test]
fn discover_domains_ignores_missing_max_energy() {
    let candidates = vec![DomainCandidate {
        dir: "/tmp/base/intel-rapl:0".to_string(),
        energy_path: "/tmp/base/intel-rapl:0/energy_uj".to_string(),
        has_energy: true,
        name: None,
        max_energy_range: None,
    }];

    let err = discover_domains(&candidates).unwrap_err().message();

    assert!(err.contains("No RAPL domains found"));
}

#[test]
fn discover_domains_reads_name_socket_and_bound() {
    let candidates = vec![
        DomainCandidate {
            dir: "/base/intel-rapl:1".to_string(),
            energy_path: "/base/intel-rapl:1/energy_uj".to_string(),
            has_energy: true,
            name: Some("package-1\n".to_string()),
            max_energy_range: Some("262143328850\n".to_string()),
        },
        DomainCandidate {
            dir: "/base/intel-rapl:1/intel-rapl:1:0".to_string(),
            energy_path: "/base/intel-rapl:1/intel-rapl:1:0/energy_uj".to_string(),
            has_energy: true,
            name: None,
            max_energy_range: Some(" 1000 ".to_string()),
        },
        DomainCandidate {
            dir: "/base/intel-rapl:1/intel-rapl:1:1".to_string(),
            energy_path: "/base/intel-rapl:1/intel-rapl:1:1/energy_uj".to_string(),
            has_energy: false,
            name: Some("dram".to_string()),
            max_energy_range: Some("1000".to_string()),
        },
        DomainCandidate {
            dir: "/base/intel-rapl:1/intel-rapl:1:2".to_string(),
            energy_path: "/base/intel-rapl:1/intel-rapl:1:2/energy_uj".to_string(),
            has_energy: true,
            name: Some("uncore".to_string()),
            max_energy_range: Some("many".to_string()),
        },
    ];
    let domains = discover_domains(&candidates).unwrap();
    assert_eq!(domains.len(), 2);
    assert_eq!(domains[0].name, "package-1");
    assert_eq!(domains[0].path, "/base/intel-rapl:1/energy_uj");
    assert_eq!(domains[0].socket, 1);
    assert_eq!(domains[0].max_energy_uj, 262143328850);
    assert_eq!(domains[1].name, "unknown");
    assert_eq!(domains[1].path, "/base/intel-rapl:1/intel-rapl:1:0/energy_uj");
    assert_eq!(domains[1].socket, 1);
    assert_eq!(domains[1].max_energy_uj, 1000);
}

#[test]
fn discover_domains_without_candidates_fails() {
    match discover_domains(&Vec::new()) {
        Err(JouleProfilerError::NoDomains) => {}
        other => panic!("unexpected outcome: {:?}", other),
    }
}

#[test]
fn add_domain_if_energy_adds_at_most_one() {
    let mut out = vec![pkg("a", 0)];
    let candidate = make_domain_dir("/b", "core", 3, 1, 77);
    add_domain_if_energy(&candidate, &mut out).unwrap();
    assert_eq!(out.len(), 2);
    assert_eq!(out[0].path, "a");
    assert_eq!(out[1].name, "core");
    assert_eq!(out[1].socket, 3);
    assert_eq!(out[1].max_energy_uj, 77);
    assert_eq!(out[1].path, "/b/intel-rapl:3/energy_uj");

    let mut without_counter = make_domain_dir("/b", "core", 3, 1, 77);
    without_counter.has_energy = false;
    add_domain_if_energy(&without_counter, &mut out).unwrap();
    assert_eq!(out.len(), 2);
}

#[test]
fn read_energy_reads_valid_value() {
    let domain = RaplDomain {
        path: "/tmp/energy_uj".into(),
        name: "package".to_string(),
        socket: 0,
        max_energy_uj: 1_000,
    };

    let energy = read_energy(&domain, &CounterRead::Content("12345".to_string())).unwrap();
    assert_eq!(energy, 12345);
    assert_eq!(
        read_energy(&domain, &CounterRead::Content(" 678\n".to_string())).unwrap(),
        678
    );
}

#[test]
fn read_energy_invalid_value_fails() {
    let domain = RaplDomain {
        path: "/tmp/energy_uj".into(),
        name: "package".to_string(),
        socket: 0,
        max_energy_uj: 1_000,
    };

    let err = read_energy(&domain, &CounterRead::Content("abc".to_string()))
        .unwrap_err()
        .message();
    assert!(err.contains("Invalid energy value"));
    match read_energy(&domain, &CounterRead::Content(" -4 ".to_string())) {
        Err(JouleProfilerError::ParseEnergyError(text)) => {
            assert_eq!(text, "Invalid energy value '-4' in domain package");
        }
        other => panic!("unexpected outcome: {:?}", other),
    }
}

#[test]
fn read_energy_tells_denied_from_other_reasons() {
    let domain = pkg("/p", 0);
    match read_energy(&domain, &CounterRead::Denied) {
        Err(JouleProfilerError::InsufficientPermissions) => {}
        other => panic!("unexpected outcome: {:?}", other),
    }
    match read_energy(&domain, &CounterRead::Unreadable("no such file".to_string())) {
        Err(JouleProfilerError::RaplReadError(text)) => {
            assert_eq!(text, "Failed to read pkg: no such file");
        }
        other => panic!("unexpected outcome: {:?}", other),
    }
}

#[test]
fn check_os_wants_linux() {
    assert!(check_os("linux").is_ok());
    match check_os("macos") {
        Err(JouleProfilerError::UnsupportedOS(name)) => assert_eq!(name, "macos"),
        other => panic!("unexpected outcome: {:?}", other),
    }
    assert!(check_os("Linux").is_err());
    assert!(check_os("").is_err());
}

#[test]
fn init_rapl_makes_a_new_source_over_the_filtered_domains() {
    let candidates = vec![
        make_domain_dir("/base", "package-0", 0, 1, 1_000),
        make_domain_dir("/base", "package-1", 1, 1, 1_000),
    ];
    let spec: HashSet<u32> = [0, 8].into_iter().collect();
    let mut source = init_rapl(&candidates, Some(&spec), Some(Duration::from_secs(1))).unwrap();
    assert_eq!(source.get_polling_interval(), Some(Duration::from_secs(1)));
    let sensors = source.get_sensors().unwrap();
    assert_eq!(sensors.len(), 1);
    assert_eq!(sensors[0].name, "PACKAGE-0_0");
    let MetricSource::Rapl(rapl) = &source;
    assert_eq!(rapl.count(), 0);
    assert!(source.retrieve().unwrap().measures.is_empty());
    match init_rapl(&Vec::new(), None, None) {
        Err(JouleProfilerError::NoDomains) => {}
        other => panic!("unexpected outcome: {:?}", other.map(|_| ())),
    }
}

#[test]
fn check_rapl_reports_what_is_wrong_with_the_root() {
    assert!(check_rapl("/r", true, true, false).is_ok());
    match check_rapl("/r", false, false, false) {
        Err(JouleProfilerError::RaplNotAvailable(path)) => assert_eq!(path, "/r"),
        other => panic!("unexpected outcome: {:?}", other),
    }
    match check_rapl("/r", true, false, false) {
        Err(JouleProfilerError::InvalidRaplPath(path)) => assert_eq!(path, "/r"),
        other => panic!("unexpected outcome: {:?}", other),
    }
    match check_rapl("/r", true, true, true) {
        Err(JouleProfilerError::InsufficientPermissions) => {}
        other => panic!("unexpected outcome: {:?}", other),
    }
    match check_rapl("/r", false, true, true) {
        Err(JouleProfilerError::RaplNotAvailable(_)) => {}
        other => panic!("unexpected outcome: {:?}", other),
    }
}

// ---------- sockets utilities ----------

#[test]
fn discover_sockets_returns_unique_sockets() {
    let domains = vec![pkg("a", 0), pkg("b", 1)];

    let sockets = discover_sockets(&domains);
    assert_eq!(sockets.len(), 2);
    assert!(sockets.contains(&0));
    assert!(sockets.contains(&1));
}

#[test]
fn discover_sockets_counts_a_shared_socket_once() {
    let domains = vec![pkg("a", 4), pkg("b", 4), pkg("c", 0), pkg("d", 4)];
    let sockets = discover_sockets(&domains);
    assert_eq!(sockets.len(), 2);
    assert!(sockets.contains(&4));
    assert!(sockets.contains(&0));
    assert!(discover_sockets(&[]).is_empty());
}

#[test]
fn filter_sockets_intersects_correctly() {
    let available: HashSet<u32> = [0, 1, 2].into_iter().collect();
    let spec: HashSet<u32> = [1, 3].into_iter().collect();

    let filtered = filter_sockets(&spec, &available);

    assert_eq!(filtered.len(), 1);
    assert!(filtered.contains(&1));
}

#[test]
fn filter_sockets_drops_every_unknown_index() {
    let available: HashSet<u32> = [0, 1, 2].into_iter().collect();
    let spec: HashSet<u32> = [7, 9].into_iter().collect();
    assert!(filter_sockets(&spec, &available).is_empty());
    let none: HashSet<u32> = HashSet::new();
    assert!(filter_sockets(&none, &available).is_empty());
    assert!(filter_sockets(&available, &none).is_empty());
    assert_eq!(filter_sockets(&available, &available), available);
}

#[test]
fn parse_or_all_sockets_without_spec_returns_all() {
    let domains = vec![pkg("a", 0), pkg("b", 1)];

    let sockets = parse_or_all_sockets(&domains, None);
    assert_eq!(sockets.len(), 2);
}

#[test]
fn parse_or_all_sockets_with_spec_keeps_what_exists() {
    let domains = vec![pkg("a", 0), pkg("b", 1), pkg("c", 2)];
    let spec: HashSet<u32> = [1, 3].into_iter().collect();
    let sockets = parse_or_all_sockets(&domains, Some(&spec));
    assert_eq!(sockets, vec![1]);
}

#[test]
fn select_domains_keeps_the_order_of_discovery() {
    let domains = vec![pkg("a", 2), pkg("b", 0), pkg("c", 1), pkg("d", 2)];
    let spec: HashSet<u32> = [2, 1, 9].into_iter().collect();
    let kept = select_domains(domains.clone(), Some(&spec));
    let paths: Vec<&str> = kept.iter().map(|d| d.path.as_str()).collect();
    assert_eq!(paths, vec!["a", "c", "d"]);
    let all = select_domains(domains, None);
    assert_eq!(all.len(), 4);
}

#[test]
fn get_domains_discovers_then_filters() {
    let candidates = vec![
        make_domain_dir("/base", "package-0", 0, 1, 1_000),
        make_domain_dir("/base", "package-1", 1, 1, 1_000),
    ];
    let spec: HashSet<u32> = [1, 3].into_iter().collect();
    let kept = get_domains(&candidates, Some(&spec)).unwrap();
    assert_eq!(kept.len(), 1);
    assert_eq!(kept[0].name, "package-1");
    assert_eq!(get_domains(&candidates, None).unwrap().len(), 2);
    let nothing: HashSet<u32> = [5].into_iter().collect();
    assert!(get_domains(&candidates, Some(&nothing)).unwrap().is_empty());
    match get_domains(&Vec::new(), None) {
        Err(JouleProfilerError::NoDomains) => {}
        other => panic!("unexpected outcome: {:?}", other),
    }
}
