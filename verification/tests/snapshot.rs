use joule_profiler::error::JouleProfilerError;
use joule_profiler::source::rapl::counters::CounterMap;
use joule_profiler::source::rapl::domain::{CounterRead, RaplDomain};
use joule_profiler::source::rapl::snapshot::{
    checked_measurement_from_snapshots, compute_measurement_from_snapshots, counter_key,
    energy_diff, EnergySnapshot,
};

fn snapshot(values: &[(&str, u64)]) -> EnergySnapshot {
    let mut energies_uj = CounterMap::new();
    for (k, v) in values.iter() {
        energies_uj.insert(k.to_string(), *v);
    }
    EnergySnapshot {
        energies_uj,
        timestamp_us: 0,
    }
}

fn content(text: &str) -> CounterRead {
    CounterRead::Content(text.to_string())
}

fn domain(name: &str, socket: u32, path: &str, max_energy_uj: u64) -> RaplDomain {
    RaplDomain {
        name: name.to_string(),
        socket,
        path: path.into(),
        max_energy_uj,
    }
}

#[test]
fn energy_diff_without_overflow() {
    let diff = energy_diff(100, 250, 1_000);
    assert_eq!(diff, 150);
}

#[test]
fn energy_diff_with_overflow() {
    let diff = energy_diff(900, 100, 1_000);
    assert_eq!(diff, 200);
}

#[test]
fn energy_diff_exact_wrap() {
    let diff = energy_diff(900, 0, 1_000);
    assert_eq!(diff, 100);
}

#[test]
fn energy_diff_of_equal_readings_is_zero() {
    assert_eq!(energy_diff(0, 0, 1_000), 0);
    assert_eq!(energy_diff(417, 417, 1_000), 0);
    assert_eq!(energy_diff(u64::MAX, u64::MAX, 0), 0);
}

#[test]
fn energy_diff_at_the_edges_of_the_range() {
    assert_eq!(energy_diff(0, u64::MAX, u64::MAX), u64::MAX);
    assert_eq!(energy_diff(1_000, 999, 1_000), 999);
    assert_eq!(energy_diff(1, 0, u64::MAX), u64::MAX - 1);
}

#[test]
fn compute_single_domain_single_socket() {
    let domains = vec![domain("package", 0, "/sys/powercap/package0", 1_000)];

    let begin = snapshot(&[("/sys/powercap/package0", 100)]);
    let end = snapshot(&[("/sys/powercap/package0", 250)]);

    let result = compute_measurement_from_snapshots(&domains, &begin, &end).unwrap();

    assert_eq!(result.len(), 1);
    assert_eq!(result.get("PACKAGE_0"), Some(150));
}

#[test]
fn compute_handles_overflow() {
    let domains = vec![domain("package", 0, "/sys/powercap/package0", 1_000)];

    let begin = snapshot(&[("/sys/powercap/package0", 900)]);
    let end = snapshot(&[("/sys/powercap/package0", 100)]);

    let result = compute_measurement_from_snapshots(&domains, &begin, &end).unwrap();

    assert_eq!(result.get("PACKAGE_0"), Some(200));
}

#[test]
fn compute_aggregates_same_domain_same_socket() {
    let domains = vec![
        domain("core", 0, "/core0", 1_000),
        domain("core", 0, "/core1", 1_000),
    ];

    let begin = snapshot(&[("/core0", 100), ("/core1", 200)]);

    let end = snapshot(&[("/core0", 300), ("/core1", 500)]);

    let result = compute_measurement_from_snapshots(&domains, &begin, &end).unwrap();

    // (300-100) + (500-200) = 200 + 300 = 500
    assert_eq!(result.get("CORE_0"), Some(500));
}

#[test]
fn compute_separates_sockets() {
    let domains = vec![
        domain("package", 0, "/pkg0", 1_000),
        domain("package", 1, "/pkg1", 1_000),
    ];

    let begin = snapshot(&[("/pkg0", 100), ("/pkg1", 400)]);

    let end = snapshot(&[("/pkg0", 200), ("/pkg1", 700)]);

    let result = compute_measurement_from_snapshots(&domains, &begin, &end).unwrap();

    assert_eq!(result.get("PACKAGE_0"), Some(100));
    assert_eq!(result.get("PACKAGE_1"), Some(300));
}

#[test]
fn error_when_start_snapshot_missing() {
    let domains = vec![domain("package", 0, "/pkg0", 1_000)];

    let begin = snapshot(&[]);
    let end = snapshot(&[("/pkg0", 100)]);

    let err = compute_measurement_from_snapshots(&domains, &begin, &end)
        .unwrap_err()
        .message();

    assert!(err.contains("Missing start energy snapshot"));
}

#[test]
fn error_when_end_snapshot_missing() {
    let domains = vec![domain("package", 0, "/pkg0", 1_000)];

    let begin = snapshot(&[("/pkg0", 100)]);
    let end = snapshot(&[]);

    let err = compute_measurement_from_snapshots(&domains, &begin, &end)
        .unwrap_err()
        .message();

    assert!(err.contains("Missing end energy snapshot"));
}

#[test]
fn missing_snapshot_is_a_read_error_naming_the_domain() {
    let domains = vec![
        domain("package", 0, "/pkg0", 1_000),
        domain("dram", 0, "/dram0", 1_000),
    ];
    let begin = snapshot(&[("/pkg0", 100)]);
    let end = snapshot(&[("/pkg0", 100)]);

    match compute_measurement_from_snapshots(&domains, &begin, &end) {
        Err(JouleProfilerError::RaplReadError(text)) => {
            assert_eq!(text, "Missing start energy snapshot for domain 'dram'");
        }
        other => panic!("unexpected outcome: {:?}", other),
    }
}

#[test]
fn compute_without_domains_is_empty() {
    let domains: Vec<RaplDomain> = Vec::new();
    let begin = snapshot(&[("/pkg0", 1)]);
    let end = snapshot(&[("/pkg0", 2)]);
    let result = compute_measurement_from_snapshots(&domains, &begin, &end).unwrap();
    assert!(result.is_empty());
    assert_eq!(result.len(), 0);
}

#[test]
fn compute_sums_three_domains_and_keeps_other_groups_apart() {
    let domains = vec![
        domain("core", 0, "/a", 1_000),
        domain("dram", 0, "/b", 1_000),
        domain("core", 0, "/c", 1_000),
        domain("core", 1, "/d", 1_000),
        domain("core", 0, "/e", 1_000),
    ];
    let begin = snapshot(&[("/a", 10), ("/b", 20), ("/c", 990), ("/d", 0), ("/e", 5)]);
    let end = snapshot(&[("/a", 15), ("/b", 120), ("/c", 10), ("/d", 7), ("/e", 5)]);

    let result = compute_measurement_from_snapshots(&domains, &begin, &end).unwrap();

    // 5 + (1000 - 990 + 10) + 0 = 25
    assert_eq!(result.get("CORE_0"), Some(25));
    assert_eq!(result.get("DRAM_0"), Some(100));
    assert_eq!(result.get("CORE_1"), Some(7));
    assert_eq!(result.len(), 3);
    assert_eq!(result.get("core_0"), None);
}

#[test]
fn counter_key_is_upper_case_name_and_socket() {
    assert_eq!(counter_key("package", 0), "PACKAGE_0");
    assert_eq!(counter_key("dram", 1), "DRAM_1");
    assert_eq!(counter_key("package-0", 12), "PACKAGE-0_12");
    assert_eq!(counter_key("", 4294967295), "_4294967295");
}

#[test]
fn checked_measurement_reports_sums_beyond_64_bits() {
    let domains = vec![
        domain("core", 0, "/a", u64::MAX),
        domain("core", 0, "/b", u64::MAX),
    ];
    let begin = snapshot(&[("/a", 0), ("/b", 0)]);
    let end = snapshot(&[("/a", u64::MAX), ("/b", 1)]);
    assert!(checked_measurement_from_snapshots(&domains, &begin, &end).is_none());

    let end = snapshot(&[("/a", u64::MAX - 1), ("/b", 1)]);
    let merged = checked_measurement_from_snapshots(&domains, &begin, &end)
        .unwrap()
        .unwrap();
    assert_eq!(merged.get("CORE_0"), Some(u64::MAX));
}

#[test]
fn checked_measurement_reports_a_reading_above_the_bound() {
    let domains = vec![domain("core", 0, "/a", 100)];
    let begin = snapshot(&[("/a", 500)]);
    let end = snapshot(&[("/a", 20)]);
    assert!(checked_measurement_from_snapshots(&domains, &begin, &end).is_none());

    // a missing reading is reported before any number is looked at
    let end = snapshot(&[]);
    let outcome = checked_measurement_from_snapshots(&domains, &begin, &end).unwrap();
    assert!(outcome.unwrap_err().message().contains("Missing end energy snapshot"));
}

#[test]
fn snapshot_from_readings_parses_each_counter_file() {
    let domains = vec![
        domain("package", 0, "/pkg0", 1_000),
        domain("dram", 0, "/dram0", 1_000),
    ];
    let contents = vec![content("12345\n"), content("  7 ")];
    let snapshot = EnergySnapshot::from_readings(&domains, &contents, 99).unwrap();
    assert_eq!(snapshot.timestamp_us, 99);
    assert_eq!(snapshot.energies_uj.len(), 2);
    assert_eq!(snapshot.energies_uj.get("/pkg0"), Some(12345));
    assert_eq!(snapshot.energies_uj.get("/dram0"), Some(7));
}

#[test]
fn snapshot_from_readings_reports_the_first_bad_content() {
    let domains = vec![
        domain("package", 0, "/pkg0", 1_000),
        domain("dram", 0, "/dram0", 1_000),
    ];
    let contents = vec![content("1"), content(" abc\n")];
    match EnergySnapshot::from_readings(&domains, &contents, 0) {
        Err(JouleProfilerError::ParseEnergyError(text)) => {
            assert_eq!(
                text,
                "Invalid energy value 'abc' in domain 'dram': invalid digit found in string"
            );
        }
        other => panic!("unexpected outcome: {:?}", other),
    }
    let contents = vec![content(""), content("5")];
    let err = EnergySnapshot::from_readings(&domains, &contents, 0).unwrap_err();
    assert_eq!(
        err.message(),
        "Failed to parse energy value: Invalid energy value '' in domain 'package': cannot parse integer from empty string"
    );
    let contents = vec![content("18446744073709551616"), content("5")];
    let err = EnergySnapshot::from_readings(&domains, &contents, 0).unwrap_err();
    assert!(err.message().ends_with("number too large to fit in target type"));
    let contents = vec![content("18446744073709551615"), content("+5")];
    let snapshot = EnergySnapshot::from_readings(&domains, &contents, 0).unwrap();
    assert_eq!(snapshot.energies_uj.get("/pkg0"), Some(u64::MAX));
    assert_eq!(snapshot.energies_uj.get("/dram0"), Some(5));
}

#[test]
fn counter_map_keeps_one_value_per_key() {
    let mut map = CounterMap::new();
    assert!(map.is_empty());
    map.insert("a".to_string(), 1);
    map.insert("b".to_string(), 2);
    map.insert("a".to_string(), 3);
    assert_eq!(map.len(), 2);
    assert_eq!(map.get("a"), Some(3));
    assert_eq!(map.get("b"), Some(2));
    assert_eq!(map.get("c"), None);
    assert!(map.contains_key("b"));
    assert!(!map.contains_key(""));

    let mut more = CounterMap::new();
    more.insert("b".to_string(), 40);
    more.insert("z".to_string(), 5);
    assert!(map.can_add_all(&more));
    map.add_all(&more);
    assert_eq!(map.get("a"), Some(3));
    assert_eq!(map.get("b"), Some(42));
    assert_eq!(map.get("z"), Some(5));
    assert_eq!(map.len(), 3);

    let mut huge = CounterMap::new();
    huge.insert("b".to_string(), u64::MAX - 41);
    assert!(!map.can_add_all(&huge));
    huge.insert("b".to_string(), u64::MAX - 42);
    assert!(map.can_add_all(&huge));

    let copy = map.clone();
    let mut pairs = copy.pairs();
    pairs.sort();
    assert_eq!(
        pairs,
        vec![("a".to_string(), 3), ("b".to_string(), 42), ("z".to_string(), 5)]
    );
}
