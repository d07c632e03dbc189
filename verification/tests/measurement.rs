use joule_profiler::command::phases::{
    is_in_time_order, measure_phases, token_of, PhaseLog, TokenPattern,
};
use joule_profiler::command::simple::{measure_simple, name_le, sort_by_name};
use joule_profiler::command::list_sensors::run_list_sensors;
use joule_profiler::command::{check_command, exit_code_of, launch_failure};
use joule_profiler::config::{output_format, parse_sockets, OutputFormat};
use joule_profiler::error::JouleProfilerError;
use joule_profiler::measurement::{
    MeasurementResult, Phase, PhaseMeasurementResult, PhaseResult, PhaseToken,
};
use joule_profiler::source::rapl::domain::RaplDomain;
use joule_profiler::source::rapl::Rapl;
use joule_profiler::source::{Metric, MetricSource, SourceEvent, SourceResult};
use joule_profiler::text::{decimal_string, parse_number, split_text};
use joule_profiler::util::time::get_timestamp;
use std::collections::HashSet;

fn metric(name: &str, value: u64) -> Metric {
    Metric {
        name: name.to_string(),
        value,
        unit: "µJ".to_string(),
        source: "powercap".to_string(),
    }
}

fn names(metrics: &Vec<Metric>) -> Vec<String> {
    metrics.iter().map(|m| format!("{}={}", m.name, m.value)).collect()
}

#[test]
fn phase_token_texts() {
    assert_eq!(PhaseToken::Start.to_text(), "START");
    assert_eq!(PhaseToken::End.to_text(), "END");
    assert_eq!(PhaseToken::Token("__A__".to_string()).to_text(), "__A__");
    assert_eq!(Option::<String>::from(PhaseToken::Start), None);
    assert_eq!(Option::<String>::from(PhaseToken::End), None);
    assert_eq!(
        Option::<String>::from(PhaseToken::Token("__A__".to_string())),
        Some("__A__".to_string())
    );
}

#[test]
fn phase_result_is_named_by_its_two_boundaries() {
    let window = PhaseResult::new(
        &PhaseToken::Start,
        &PhaseToken::Token("__INIT__".to_string()),
        None,
        Some(12),
        vec![metric("PACKAGE_0", 5)],
        42,
    );
    assert_eq!(window.name, "START -> __INIT__");
    assert_eq!(window.start_token, None);
    assert_eq!(window.end_token, Some("__INIT__".to_string()));
    assert_eq!(window.start_line, None);
    assert_eq!(window.end_line, Some(12));
    assert_eq!(window.duration_ms, 42);
    assert_eq!(window.extract_keys(), vec!["PACKAGE_0"]);

    let last = PhaseResult::new(
        &PhaseToken::Token("__A__".to_string()),
        &PhaseToken::End,
        Some(3),
        None,
        Vec::new(),
        0,
    );
    assert_eq!(last.name, "__A__ -> END");
    assert_eq!(last.start_token, Some("__A__".to_string()));
    assert_eq!(last.end_token, None);
    assert!(last.extract_keys().is_empty());
}

#[test]
fn extract_keys_list_the_metric_names_in_order() {
    let simple = MeasurementResult {
        metrics: vec![metric("B_0", 1), metric("A_0", 2), metric("B_0", 3)],
        duration_ms: 1,
        exit_code: 0,
        measure_count: 2,
        measure_delta: 0,
    };
    assert_eq!(simple.extract_keys(), vec!["B_0", "A_0", "B_0"]);

    let phases = PhaseMeasurementResult {
        phases: vec![
            PhaseResult::new(
                &PhaseToken::Start,
                &PhaseToken::Token("t".to_string()),
                None,
                Some(1),
                vec![metric("A_0", 1), metric("B_0", 2)],
                1,
            ),
            PhaseResult::new(
                &PhaseToken::Token("t".to_string()),
                &PhaseToken::End,
                Some(1),
                None,
                vec![metric("A_0", 3)],
                1,
            ),
        ],
        duration_ms: 2,
        exit_code: 0,
    };
    assert_eq!(phases.extract_keys(), vec!["A_0", "B_0", "A_0"]);
}

#[test]
fn two_boundary_lines_give_three_windows() {
    let pattern = TokenPattern::new("__[A-Z0-9_]+__").unwrap();
    let lines = ["starting", "__TOK1__", "working", "done __TOK2__ here", "bye"];

    let mut log = PhaseLog::begin(1_000);
    let mut commands = Vec::new();
    for (line_index, line) in lines.iter().enumerate() {
        if let Some(command) = log.on_line(&pattern, line, line_index) {
            commands.push(command);
        }
    }
    let now = get_timestamp();
    log.end(now + 5_000);

    assert_eq!(commands, vec![SourceEvent::Phase, SourceEvent::Phase]);
    assert_eq!(log.phases().len(), 4);
    assert!(is_in_time_order(log.phases()));

    let sources_result = SourceResult {
        measures: vec![
            vec![metric("PACKAGE_0", 10)],
            vec![metric("PACKAGE_0", 20)],
            vec![metric("PACKAGE_0", 30)],
        ],
        count: 5,
        measure_delta: 0,
    };
    let measured = measure_phases(log.phases(), &sources_result, 3);
    assert_eq!(measured.exit_code, 3);
    assert_eq!(measured.phases.len(), 3);
    assert_eq!(measured.phases[0].name, "START -> __TOK1__");
    assert_eq!(measured.phases[1].name, "__TOK1__ -> __TOK2__");
    assert_eq!(measured.phases[2].name, "__TOK2__ -> END");
    assert_eq!(measured.phases[0].start_line, None);
    assert_eq!(measured.phases[0].end_line, Some(2));
    assert_eq!(measured.phases[1].start_line, Some(2));
    assert_eq!(measured.phases[1].end_line, Some(4));
    assert_eq!(measured.phases[2].start_line, Some(4));
    assert_eq!(measured.phases[2].end_line, None);
    assert_eq!(measured.phases[0].metrics[0].value, 10);
    assert_eq!(measured.phases[1].metrics[0].value, 20);
    assert_eq!(measured.phases[2].metrics[0].value, 30);
    assert_eq!(measured.phases[0].start_token, None);
    assert_eq!(measured.phases[0].end_token, Some("__TOK1__".to_string()));
    assert_eq!(measured.phases[2].end_token, None);
}

#[test]
fn windows_carry_the_time_between_their_boundaries() {
    let mut log = PhaseLog::begin(1_000);
    log.token("a".to_string(), 3_500, 0);
    log.token("b".to_string(), 3_500, 9);
    log.end(10_999);
    let sources_result = SourceResult {
        measures: vec![Vec::new(), Vec::new(), Vec::new(), vec![metric("X_0", 1)]],
        count: 0,
        measure_delta: 0,
    };
    let measured = measure_phases(log.phases(), &sources_result, 0);
    assert_eq!(measured.phases.len(), 3);
    assert_eq!(measured.phases[0].duration_ms, 2);
    assert_eq!(measured.phases[1].duration_ms, 0);
    assert_eq!(measured.phases[2].duration_ms, 7);
    assert_eq!(measured.duration_ms, 9);
    assert_eq!(measured.phases[1].start_line, Some(1));
    assert_eq!(measured.phases[1].end_line, Some(10));
}

#[test]
fn a_run_without_tokens_is_one_window() {
    let mut log = PhaseLog::begin(0);
    log.end(2_000);
    let sources_result = SourceResult {
        measures: vec![vec![metric("X_0", 1)]],
        count: 2,
        measure_delta: 0,
    };
    let measured = measure_phases(log.phases(), &sources_result, 0);
    assert_eq!(measured.phases.len(), 1);
    assert_eq!(measured.phases[0].name, "START -> END");
    assert_eq!(measured.duration_ms, 2);

    // a log that holds its start only has no window
    let log = PhaseLog::begin(7);
    let measured = measure_phases(log.phases(), &sources_result, 0);
    assert!(measured.phases.is_empty());
    assert_eq!(measured.duration_ms, 0);
}

#[test]
fn time_order_is_checked_between_all_markers() {
    let at = |timestamp: u128| Phase {
        token: PhaseToken::Start,
        timestamp,
        line_number: None,
    };
    assert!(is_in_time_order(&Vec::new()));
    assert!(is_in_time_order(&vec![at(5)]));
    assert!(is_in_time_order(&vec![at(5), at(5), at(6)]));
    assert!(!is_in_time_order(&vec![at(5), at(4)]));
    assert!(!is_in_time_order(&vec![at(1), at(2), at(3), at(2)]));
}

#[test]
fn token_is_the_first_group_or_the_whole_match() {
    assert_eq!(token_of("whole".to_string(), None), "whole");
    assert_eq!(token_of("whole".to_string(), Some("part".to_string())), "part");

    let plain = TokenPattern::new("__[A-Z0-9_]+__").unwrap();
    assert_eq!(plain.token_in("x __PHASE1__ y __P2__"), Some("__PHASE1__".to_string()));
    assert_eq!(plain.token_in("nothing here"), None);
    assert_eq!(plain.token_in(""), None);

    let grouped = TokenPattern::new("phase=([a-z]+)").unwrap();
    assert_eq!(grouped.token_in("now phase=init!"), Some("init".to_string()));
    assert_eq!(grouped.token_in("phase=123"), None);

    let optional = TokenPattern::new("tok(?:-([a-z]+))?").unwrap();
    assert_eq!(optional.token_in("a tok-x"), Some("x".to_string()));
    assert_eq!(optional.token_in("a tok"), Some("tok".to_string()));
}

#[test]
fn an_invalid_pattern_is_reported_with_the_pattern() {
    match TokenPattern::new("foo(bar") {
        Err(JouleProfilerError::InvalidPattern(text)) => {
            assert!(text.starts_with("foo(bar: "));
            assert!(text.len() > "foo(bar: ".len());
        }
        other => panic!("unexpected outcome: {:?}", other.map(|_| ())),
    }
}

#[test]
fn simple_result_sorts_all_metrics_by_name() {
    let result = SourceResult {
        measures: vec![
            vec![metric("PACKAGE_1", 1), metric("CORE_0", 2)],
            vec![metric("DRAM_0", 3), metric("CORE_0", 4), metric("core_0", 5)],
        ],
        count: 6,
        measure_delta: 17,
    };
    let measured = measure_simple(result, 2, 1_000_000, 3_500_999);
    assert_eq!(
        names(&measured.metrics),
        vec!["CORE_0=2", "CORE_0=4", "DRAM_0=3", "PACKAGE_1=1", "core_0=5"]
    );
    assert_eq!(measured.duration_ms, 2_500);
    assert_eq!(measured.exit_code, 2);
    assert_eq!(measured.measure_count, 6);
    assert_eq!(measured.measure_delta, 17);

    let empty = SourceResult {
        measures: Vec::new(),
        count: 0,
        measure_delta: 0,
    };
    let measured = measure_simple(empty, 0, 5, 5);
    assert!(measured.metrics.is_empty());
    assert_eq!(measured.duration_ms, 0);
}

#[test]
fn sensors_of_all_sources_are_listed() {
    let domain = |name: &str, socket: u32| RaplDomain {
        path: format!("/{}{}", name, socket),
        name: name.to_string(),
        socket,
        max_energy_uj: 1,
    };
    let sources = vec![
        MetricSource::Rapl(Rapl::new(vec![domain("package", 0), domain("dram", 0)], None)),
        MetricSource::Rapl(Rapl::new(Vec::new(), None)),
        MetricSource::Rapl(Rapl::new(vec![domain("package", 1)], None)),
    ];
    let sensors = run_list_sensors(&sources);
    let listed: Vec<&str> = sensors.iter().map(|s| s.name.as_str()).collect();
    assert_eq!(listed, vec!["PACKAGE_0", "DRAM_0", "PACKAGE_1"]);
    assert!(run_list_sensors(&Vec::new()).is_empty());
}

#[test]
fn command_line_decisions() {
    assert!(check_command(&vec!["ls".to_string()]).is_ok());
    match check_command(&Vec::new()) {
        Err(JouleProfilerError::NoCommand) => {}
        other => panic!("unexpected outcome: {:?}", other),
    }
    match launch_failure("prog", true, "why") {
        JouleProfilerError::CommandNotFound(name) => assert_eq!(name, "prog"),
        other => panic!("unexpected failure: {:?}", other),
    }
    match launch_failure("prog", false, "why") {
        JouleProfilerError::CommandExecutionFailed(text) => assert_eq!(text, "why"),
        other => panic!("unexpected failure: {:?}", other),
    }
    assert_eq!(exit_code_of(Some(0)), 0);
    assert_eq!(exit_code_of(Some(-7)), -7);
    assert_eq!(exit_code_of(None), 1);
}

#[test]
fn output_format_prefers_json() {
    assert_eq!(output_format(false, false), OutputFormat::Terminal);
    assert_eq!(output_format(true, false), OutputFormat::Json);
    assert_eq!(output_format(false, true), OutputFormat::Csv);
    assert_eq!(output_format(true, true), OutputFormat::Json);
}

#[test]
fn parse_sockets_reads_the_indices_between_commas() {
    let set = |values: &[u32]| values.iter().copied().collect::<HashSet<u32>>();
    assert_eq!(parse_sockets("0"), set(&[0]));
    assert_eq!(parse_sockets("0,1"), set(&[0, 1]));
    assert_eq!(parse_sockets(" 3 , 1,3,\t2\n"), set(&[1, 2, 3]));
    assert_eq!(parse_sockets("1,x,2,,-3,4294967296,+7"), set(&[1, 2, 7]));
    assert_eq!(parse_sockets(""), set(&[]));
    assert_eq!(parse_sockets(","), set(&[]));
    assert_eq!(parse_sockets("4294967295,"), set(&[4294967295]));
}

#[test]
fn every_failure_has_a_message() {
    let all = vec![
        (JouleProfilerError::UnsupportedOS("plan9".to_string()), "plan9"),
        (JouleProfilerError::RaplNotAvailable("/x".to_string()), "/x"),
        (JouleProfilerError::InvalidRaplPath("/y".to_string()), "/y"),
        (JouleProfilerError::InsufficientPermissions, "permissions"),
        (JouleProfilerError::NoDomains, "No RAPL domains found"),
        (JouleProfilerError::RaplReadError("gone".to_string()), "gone"),
        (JouleProfilerError::ParseEnergyError("abc".to_string()), "abc"),
        (JouleProfilerError::NoCommand, "No command"),
        (JouleProfilerError::OutputFileCreationFailed("/o".to_string()), "/o"),
        (JouleProfilerError::CommandNotFound("prog".to_string()), "prog"),
        (JouleProfilerError::CommandExecutionFailed("boom".to_string()), "boom"),
        (JouleProfilerError::InvalidPattern("(".to_string()), "("),
    ];
    for (failure, part) in all {
        let message = failure.message();
        assert!(message.contains(part), "{} lacks {}", message, part);
    }
    assert_eq!(JouleProfilerError::NoDomains.message(), "No RAPL domains found");
    assert_eq!(
        JouleProfilerError::CommandNotFound("prog".to_string()).message(),
        "Command not found: prog"
    );
}

#[test]
fn split_text_keeps_empty_pieces() {
    assert_eq!(split_text("a,b", ','), vec!["a", "b"]);
    assert_eq!(split_text("", ','), vec![""]);
    assert_eq!(split_text(",", ','), vec!["", ""]);
    assert_eq!(split_text("a,,b,", ','), vec!["a", "", "b", ""]);
    assert_eq!(split_text("/sys/é/x", '/'), vec!["", "sys", "é", "x"]);
    assert_eq!(split_text("no separator", '/'), vec!["no separator"]);
}

#[test]
fn decimal_string_writes_every_digit() {
    assert_eq!(decimal_string(0), "0");
    assert_eq!(decimal_string(9), "9");
    assert_eq!(decimal_string(10), "10");
    assert_eq!(decimal_string(1234567890), "1234567890");
    assert_eq!(decimal_string(u32::MAX), "4294967295");
}

#[test]
fn parse_number_reads_what_the_standard_parser_reads() {
    let samples = [
        "", "+", "-", "0", "+0", "-0", "7", "007", "+42", "++42", "4 2", " 42", "42 ", "4_2",
        "0x10", "1e3", "١٢٣", "12a", "a12", "4294967295", "4294967296", "+4294967295",
        "18446744073709551615", "18446744073709551616", "018446744073709551615",
        "99999999999999999999999999", "00000000000000000000000001", "1.0", "+-1", "٣",
    ];
    for sample in samples {
        assert_eq!(
            parse_number(sample, u64::MAX),
            sample.parse::<u64>().ok(),
            "as u64: {:?}",
            sample
        );
        assert_eq!(
            parse_number(sample, u32::MAX as u64),
            sample.parse::<u32>().ok().map(|v| v as u64),
            "as u32: {:?}",
            sample
        );
    }
    assert_eq!(parse_number("100", 99), None);
    assert_eq!(parse_number("99", 99), Some(99));
    assert_eq!(parse_number("0", 0), Some(0));
    assert_eq!(parse_number("1", 0), None);
}

#[test]
fn names_are_ordered_as_strings_are() {
    let samples = [
        "", "a", "A", "ab", "abc", "abd", "b", "CORE_0", "CORE_1", "CORE_10", "core_0", "é", "z",
        "zz", "\u{10000}", "\u{ffff}", "DRAM_0", "PACKAGE-0_0", "PACKAGE_0",
    ];
    for a in samples {
        for b in samples {
            assert_eq!(name_le(a, b), a <= b, "{:?} and {:?}", a, b);
        }
    }
}

#[test]
fn sort_by_name_is_stable() {
    let metrics = vec![
        metric("b", 1),
        metric("a", 2),
        metric("b", 3),
        metric("", 4),
        metric("a", 5),
        metric("ab", 6),
        metric("b", 7),
    ];
    let sorted = sort_by_name(&metrics);
    assert_eq!(names(&sorted), vec!["=4", "a=2", "a=5", "ab=6", "b=1", "b=3", "b=7"]);
    let mut expected = metrics.clone();
    expected.sort_by_key(|m| m.name.clone());
    assert_eq!(names(&sorted), names(&expected));
    assert!(sort_by_name(&Vec::new()).is_empty());
}
