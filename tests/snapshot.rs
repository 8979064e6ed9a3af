use foundry_core::outcome::{SnapshotConfig, SuiteResult, Test, TestOutcome, TestResult};
use foundry_core::snapshot::{
    check_snapshots, diff_snapshots, Format, SnapshotDiff, SnapshotEntry, SnapshotGas, SnapshotMismatch,
};

#[test]
fn can_parse_basic_snapshot_entry() {
    let s = "deposit() (gas: 7222)";
    let entry = SnapshotEntry::from_str(s).unwrap();
    assert_eq!(
        entry,
        SnapshotEntry { signature: "deposit()".to_string(), gas_used: SnapshotGas::Standard(7222) }
    );
}

#[test]
fn can_parse_fuzz_snapshot_entry() {
    let s = "deposit() (μ: 100, ~:200)";
    let entry = SnapshotEntry::from_str(s).unwrap();
    assert_eq!(
        entry,
        SnapshotEntry {
            signature: "deposit()".to_string(),
            gas_used: SnapshotGas::Fuzz { median: 200, mean: 100 }
        }
    );
}

#[test]
fn parses_entry_with_params_and_bare_gas() {
    let entry = SnapshotEntry::from_str("testTransfer(uint256,address) (123)").unwrap();
    assert_eq!(entry.signature, "testTransfer(uint256,address)");
    assert_eq!(entry.gas_used, SnapshotGas::Standard(123));
}

#[test]
fn rejects_malformed_snapshot_lines() {
    assert!(SnapshotEntry::from_str("deposit() gas: 7222").is_err());
    assert!(SnapshotEntry::from_str("deposit() (gas: )").is_err());
    assert!(SnapshotEntry::from_str("(gas: 1)").is_err());
    assert!(SnapshotEntry::from_str("deposit() (gas: 99999999999999999999999)").is_err());
    let err = SnapshotEntry::from_str("nonsense").unwrap_err();
    assert_eq!(err.line, "nonsense");
}

#[test]
fn gas_change_is_source_minus_target() {
    let d = SnapshotDiff {
        signature: "f()".to_string(),
        source_gas_used: SnapshotGas::Standard(100),
        target_gas_used: SnapshotGas::Fuzz { mean: 1, median: 150 },
    };
    assert_eq!(d.gas_change(), -50);
    assert_eq!(SnapshotGas::Fuzz { mean: 7, median: 9 }.gas(), 9);
}

#[test]
fn reads_table_format_names() {
    assert_eq!(Format::from_str("t"), Ok(Format::Table));
    assert_eq!(Format::from_str("table"), Ok(Format::Table));
    assert_eq!(Format::from_str("tab"), Err("tab".to_string()));
}

fn outcome() -> TestOutcome {
    let suite_a = SuiteResult {
        duration_nanos: 5,
        test_results: vec![
            ("a()".to_string(), TestResult { success: true, gas: SnapshotGas::Standard(300) }),
            ("b()".to_string(), TestResult { success: false, gas: SnapshotGas::Standard(100) }),
        ],
    };
    let suite_b = SuiteResult {
        duration_nanos: 7,
        test_results: vec![(
            "c()".to_string(),
            TestResult { success: true, gas: SnapshotGas::Fuzz { mean: 1, median: 200 } },
        )],
    };
    TestOutcome::new(
        vec![("src/A.t.sol:ATest".to_string(), suite_a), ("src/B.t.sol:BTest".to_string(), suite_b)],
        false,
    )
}

#[test]
fn outcome_lists_tests_in_order() {
    let o = outcome();
    let names: Vec<String> = o.tests().into_iter().map(|t| t.signature).collect();
    assert_eq!(names, vec!["a()", "b()", "c()"]);
    assert_eq!(o.successes().len(), 2);
    assert_eq!(o.failures()[0].signature, "b()");
    assert!(o.has_disallowed_failures());
    assert_eq!(o.duration(), 12);
    assert_eq!(o.into_tests().len(), 3);
}

#[test]
fn test_names_split_artifact_id() {
    let t = Test {
        artifact_id: "src/A.t.sol:ATest".to_string(),
        signature: "a()".to_string(),
        result: TestResult { success: true, gas: SnapshotGas::Fuzz { mean: 3, median: 4 } },
    };
    assert_eq!(t.contract_name(), "ATest");
    assert_eq!(t.file_name(), "src/A.t.sol");
    assert_eq!(t.gas_used(), 4);
}

#[test]
fn snapshot_config_filters_and_sorts() {
    let asc = SnapshotConfig { asc: true, desc: false, min: Some(150), max: None };
    let got: Vec<u64> = asc.apply(outcome()).iter().map(|t| t.gas_used()).collect();
    assert_eq!(got, vec![200, 300]);
    let desc = SnapshotConfig { asc: false, desc: true, min: None, max: None };
    let got: Vec<u64> = desc.apply(outcome()).iter().map(|t| t.gas_used()).collect();
    assert_eq!(got, vec![300, 200, 100]);
    let plain = SnapshotConfig { asc: false, desc: false, min: None, max: Some(250) };
    let got: Vec<u64> = plain.apply(outcome()).iter().map(|t| t.gas_used()).collect();
    assert_eq!(got, vec![100, 200]);
    assert!(plain.is_in_gas_range(250));
    assert!(!plain.is_in_gas_range(251));
}

fn entry(sig: &str, gas: u64) -> SnapshotEntry {
    SnapshotEntry { signature: sig.to_string(), gas_used: SnapshotGas::Standard(gas) }
}

#[test]
fn check_reports_changes_and_missing_entries() {
    let expected = vec![entry("a()", 1), entry("b()", 2), entry("a()", 5)];
    let current = vec![entry("a()", 5), entry("b()", 3), entry("c()", 4)];
    let m = check_snapshots(&current, &expected);
    assert_eq!(
        m,
        vec![
            SnapshotMismatch::Changed {
                signature: "b()".to_string(),
                current: SnapshotGas::Standard(3),
                expected: SnapshotGas::Standard(2)
            },
            SnapshotMismatch::Missing { signature: "c()".to_string() },
        ]
    );
    assert!(check_snapshots(&vec![entry("a()", 5)], &expected).is_empty());
}

#[test]
fn diff_pairs_entries_or_names_the_missing_one() {
    let expected = vec![entry("a()", 10), entry("b()", 20)];
    let d = diff_snapshots(&vec![entry("b()", 25), entry("a()", 5)], &expected).unwrap();
    assert_eq!(d[0].gas_change(), 5);
    assert_eq!(d[1].gas_change(), -5);
    assert_eq!(diff_snapshots(&vec![entry("z()", 1)], &expected), Err("z()".to_string()));
}

#[test]
fn outcome_keeps_suites_sorted_by_id() {
    let suite = |n: u64| SuiteResult {
        duration_nanos: n,
        test_results: vec![(format!("t{n}()"), TestResult { success: true, gas: SnapshotGas::Standard(n) })],
    };
    let o = TestOutcome::new(
        vec![("b".to_string(), suite(1)), ("a".to_string(), suite(2)), ("b".to_string(), suite(3)), ("ab".to_string(), suite(4))],
        true,
    );
    let ids: Vec<&str> = o.results.iter().map(|(k, _)| k.as_str()).collect();
    assert_eq!(ids, vec!["a", "ab", "b"]);
    assert_eq!(o.results[2].1.duration_nanos, 3);
    let sigs: Vec<String> = o.tests().into_iter().map(|t| t.signature).collect();
    assert_eq!(sigs, vec!["t2()", "t4()", "t3()"]);
}
