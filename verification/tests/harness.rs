//! End-to-end tests of one fixture's lifecycle: inputs view, verdicts,
//! sibling-file actions and the batch tally.

use std::time::Duration;
use std::time::SystemTime;

use snaptest::parse::parse_sections;
use snaptest::report::basename;
use snaptest::report::conclude_fixture;
use snaptest::report::sibling_path;
use snaptest::run::batch_result;
use snaptest::run::build_inputs;
use snaptest::run::record;
use snaptest::run::select_expected;
use snaptest::BatchResult;
use snaptest::Outcome;
use snaptest::ProcessingTally;
use snaptest::SiblingAction;
use snaptest::SnapError;
use snaptest::TestReturn;

const FIXTURE: &str = "[a]\nhello\n[expected.fmt]\nHELLO\n\n";
const PATH: &str = "tests/fix.snap";

fn run_one(fixture: &str, id: &[u8], f: impl Fn(&snaptest::SnapshotInputs) -> String) -> (Outcome, SiblingAction, Vec<u8>) {
    let text = fixture.as_bytes();
    let secs = parse_sections(text);
    let k = select_expected(&secs, id).expect("expected section present");
    let inputs = build_inputs(text, &secs).expect("valid UTF-8");
    let out = f(&inputs);
    let report = conclude_fixture(
        text,
        &secs,
        k,
        TestReturn::Returned(out),
        PATH.as_bytes(),
        id,
        &SystemTime::now(),
    );
    (report.outcome, report.action, report.sibling)
}

#[test]
fn uppercasing_function_matches_and_leaves_no_sibling() {
    let (outcome, action, _sib) = run_one(FIXTURE, b"fmt", |inp| {
        inp.get_str("a").unwrap().trim().to_uppercase()
    });
    assert_eq!(outcome, Outcome::Matched);
    assert!(matches!(action, SiblingAction::DeleteIfExists));

    let mut tally = ProcessingTally::new();
    record(&mut tally, outcome);
    assert_eq!(tally.processed, 1);
    assert_eq!(tally.succeeded, 1);
    assert_eq!(tally.skipped, 0);
    assert_eq!(batch_result(false, &tally), BatchResult::Passed);
}

#[test]
fn identity_function_mismatches_and_writes_the_sibling() {
    let (outcome, action, sib) = run_one(FIXTURE, b"fmt", |inp| {
        inp.get_str("a").unwrap().trim().to_string()
    });
    assert_eq!(outcome, Outcome::Mismatched);
    assert_eq!(sib, b"tests/fix.fmt.new".to_vec());
    match action {
        SiblingAction::Write(m) => {
            assert_eq!(m.expected, b"[expected.fmt]\nHELLO\n\n".to_vec());
            assert_eq!(m.actual, b"[expected.fmt]\nhello\n\n".to_vec());
            assert_eq!(m.line, 3);
            assert_eq!(m.before_label, b"fix.snap".to_vec());
            assert_eq!(m.after_label, b"fix.fmt.new".to_vec());
            assert!(!m.timestamp.is_empty());
            // the two sides differ in exactly one line: HELLO became hello
            let e: Vec<&[u8]> = m.expected.split(|b| *b == 10).collect();
            let a: Vec<&[u8]> = m.actual.split(|b| *b == 10).collect();
            assert_eq!(e.len(), a.len());
            let diffs: Vec<usize> =
                (0..e.len()).filter(|i| e[*i] != a[*i]).collect();
            assert_eq!(diffs, vec![1]);
            assert_eq!(e[1], b"HELLO");
            assert_eq!(a[1], b"hello");
        },
        _ => panic!("expected a sibling write"),
    }

    let mut tally = ProcessingTally::new();
    record(&mut tally, outcome);
    assert_eq!(tally.processed, 1);
    assert_eq!(tally.succeeded, 0);
    assert_eq!(tally.skipped, 0);
    assert_eq!(batch_result(false, &tally), BatchResult::Failed);
}

#[test]
fn rerun_of_a_matched_fixture_still_deletes_never_writes() {
    for _ in 0..2 {
        let (outcome, action, _sib) = run_one(FIXTURE, b"fmt", |inp| {
            inp.get_str("a").unwrap().trim().to_uppercase()
        });
        assert_eq!(outcome, Outcome::Matched);
        assert!(matches!(action, SiblingAction::DeleteIfExists));
    }
}

#[test]
fn missing_expected_section_is_skipped_and_never_counted() {
    let text = FIXTURE.as_bytes();
    let secs = parse_sections(text);
    assert!(select_expected(&secs, b"other").is_none());

    let mut tally = ProcessingTally::new();
    record(&mut tally, Outcome::Skipped);
    assert_eq!(tally.processed, 0);
    assert_eq!(tally.succeeded, 0);
    assert_eq!(tally.skipped, 1);
    assert_eq!(batch_result(false, &tally), BatchResult::Passed);
}

#[test]
fn aborting_function_is_a_failure_without_a_patch() {
    let text = FIXTURE.as_bytes();
    let secs = parse_sections(text);
    let k = select_expected(&secs, b"fmt").unwrap();
    let report = conclude_fixture(
        text,
        &secs,
        k,
        TestReturn::Aborted,
        PATH.as_bytes(),
        b"fmt",
        &SystemTime::now(),
    );
    assert_eq!(report.outcome, Outcome::Panicked);
    assert!(matches!(report.action, SiblingAction::Untouched));

    let mut tally = ProcessingTally::new();
    record(&mut tally, report.outcome);
    assert_eq!(tally.processed, 1);
    assert_eq!(tally.succeeded, 0);
    assert_eq!(batch_result(false, &tally), BatchResult::Failed);
}

#[test]
fn far_future_modification_time_still_yields_a_report() {
    let text = FIXTURE.as_bytes();
    let secs = parse_sections(text);
    let k = select_expected(&secs, b"fmt").unwrap();
    let far_future = SystemTime::UNIX_EPOCH + Duration::from_secs(200_000_000_000_000);
    let report = conclude_fixture(
        text,
        &secs,
        k,
        TestReturn::Returned("wrong".to_string()),
        PATH.as_bytes(),
        b"fmt",
        &far_future,
    );
    assert_eq!(report.outcome, Outcome::Mismatched);
    match report.action {
        SiblingAction::Write(m) => assert!(!m.timestamp.is_empty()),
        _ => panic!("expected a sibling write"),
    }
}

#[test]
fn pre_epoch_modification_time_still_yields_a_report() {
    let text = FIXTURE.as_bytes();
    let secs = parse_sections(text);
    let k = select_expected(&secs, b"fmt").unwrap();
    let distant_past = SystemTime::UNIX_EPOCH - Duration::from_secs(200_000_000_000_000);
    let report = conclude_fixture(
        text,
        &secs,
        k,
        TestReturn::Returned("wrong".to_string()),
        PATH.as_bytes(),
        b"fmt",
        &distant_past,
    );
    assert_eq!(report.outcome, Outcome::Mismatched);
    match report.action {
        SiblingAction::Write(m) => assert!(!m.timestamp.is_empty()),
        _ => panic!("expected a sibling write"),
    }
}

#[test]
fn timeout_overrides_any_tally() {
    let mut tally = ProcessingTally::new();
    record(&mut tally, Outcome::Matched);
    assert_eq!(batch_result(true, &tally), BatchResult::TimedOut);
    assert_eq!(batch_result(false, &tally), BatchResult::Passed);
}

#[test]
fn input_view_serves_raw_text_and_reports_missing_keys() {
    let text = FIXTURE.as_bytes();
    let secs = parse_sections(text);
    let inputs = build_inputs(text, &secs).unwrap();
    assert_eq!(inputs.get_str("a").unwrap(), "hello\n");
    match inputs.get_str("nope") {
        Err(SnapError::MissingSection(k)) => assert_eq!(k, "nope"),
        _ => panic!("expected a missing-section error"),
    }
    // the expected section is not part of the input view
    assert!(matches!(
        inputs.get_str("expected.fmt"),
        Err(SnapError::MissingSection(_))
    ));
}

#[test]
fn input_view_decodes_json_and_reports_bad_json() {
    let text = "[nums]\n[3, 4, 5]\n[expected.fmt]\nx\n";
    let secs = parse_sections(text.as_bytes());
    let inputs = build_inputs(text.as_bytes(), &secs).unwrap();
    let nums: Vec<i64> = inputs.get_json("nums").unwrap();
    assert_eq!(nums, vec![3, 4, 5]);
    let bad: Result<i64, SnapError> = inputs.get_json("nums");
    assert!(matches!(bad, Err(SnapError::Decode)));
    let missing: Result<i64, SnapError> = inputs.get_json("absent");
    assert!(matches!(missing, Err(SnapError::MissingSection(_))));
}

#[test]
fn sibling_path_replaces_or_appends_the_extension() {
    assert_eq!(sibling_path(b"dir/fix.snap", b"fmt"), b"dir/fix.fmt.new".to_vec());
    assert_eq!(sibling_path(b"fix.snap", b"fmt"), b"fix.fmt.new".to_vec());
    assert_eq!(sibling_path(b"dir/fix", b"fmt"), b"dir/fix.fmt.new".to_vec());
    assert_eq!(sibling_path(b"dir/.hidden", b"fmt"), b"dir/.hidden.fmt.new".to_vec());
    assert_eq!(sibling_path(b"a.b/fix", b"fmt"), b"a.b/fix.fmt.new".to_vec());
}

#[test]
fn basename_takes_the_last_path_component() {
    assert_eq!(basename(b"dir/sub/fix.snap"), b"fix.snap".to_vec());
    assert_eq!(basename(b"fix.snap"), b"fix.snap".to_vec());
}
