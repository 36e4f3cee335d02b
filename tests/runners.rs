use regex_bench::config::{PerfScenario, TestCase};
use regex_bench::functional::{execute_cases, judge_case, run_case, Status};
use regex_bench::performance::{execute_performance, judge_matches, run_scenario};

fn case(pattern: &str, text: &str, should_match: bool) -> TestCase {
    TestCase {
        name: "c".to_string(),
        pattern: pattern.to_string(),
        text: text.to_string(),
        should_match,
        ..TestCase::default()
    }
}

fn repeat_scenario(base: &str, size: usize, pattern: &str, iterations: usize) -> PerfScenario {
    PerfScenario {
        name: "s".to_string(),
        pattern: pattern.to_string(),
        text_base: base.to_string(),
        text_size: size,
        iterations,
        ..PerfScenario::default()
    }
}

#[test]
fn literal_match_passes() {
    let r = run_case(&case("hello", "hello world", true));
    assert_eq!(r.status, Status::Pass);
    assert!(r.compile_ok && r.actual_match);
    assert_eq!(r.notes, "");
}

#[test]
fn absent_literal_passes_when_no_match_expected() {
    let r = run_case(&case("xyz", "hello world", false));
    assert_eq!(r.status, Status::Pass);
    assert!(!r.actual_match);
    assert_eq!(r.notes, "");
}

#[test]
fn full_match_verified() {
    let mut c = case("a+", "aaa", true);
    c.verify_full_match = true;
    c.expected_match = "aaa".to_string();
    let r = run_case(&c);
    assert_eq!(r.status, Status::Pass);
    assert!(r.match_verified);
    assert_eq!(r.notes, "");
}

#[test]
fn full_match_mismatch_fails_with_both_texts() {
    let mut c = case("a+", "aaa", true);
    c.verify_full_match = true;
    c.expected_match = "aa".to_string();
    let r = run_case(&c);
    assert_eq!(r.status, Status::Fail);
    assert!(!r.match_verified);
    assert_eq!(r.notes, "expected_full_match:aa, got:aaa");
}

#[test]
fn first_match_is_leftmost() {
    let mut c = case("b+", "abbcbbb", true);
    c.verify_full_match = true;
    c.expected_match = "bb".to_string();
    assert_eq!(run_case(&c).status, Status::Pass);
}

#[test]
fn unexpected_and_missing_matches() {
    let r = run_case(&case("o", "hello", false));
    assert_eq!((r.status, r.notes.as_str()), (Status::Fail, "unexpected match"));
    let r = run_case(&case("z", "hello", true));
    assert_eq!((r.status, r.notes.as_str()), (Status::Fail, "missing expected match"));
}

#[test]
fn compile_failure_expected_passes() {
    let mut c = case("(", "x", false);
    c.should_compile = false;
    let r = run_case(&c);
    assert_eq!(r.status, Status::Pass);
    assert!(!r.compile_ok);
    assert_eq!(r.notes, "");
    assert_eq!(r.match_ns, 0);
}

#[test]
fn compile_failure_unexpected_fails_with_error_text() {
    let r = run_case(&case("(", "x", false));
    assert_eq!(r.status, Status::Fail);
    assert!(!r.compile_ok);
    assert!(r.notes.starts_with("compile_error:"));
    assert!(r.notes.len() > "compile_error:".len());
    assert_eq!(r.match_ns, 0);
}

#[test]
fn compile_success_when_failure_expected() {
    let mut c = case("a", "a", true);
    c.should_compile = false;
    let r = run_case(&c);
    assert_eq!(r.status, Status::Fail);
    assert!(r.compile_ok && !r.actual_match);
    assert_eq!(r.notes, "expected compile failure but succeeded");
    assert_eq!(r.match_ns, 0);
}

#[test]
fn verified_no_match_with_empty_expectation() {
    let mut c = case("q", "abc", false);
    c.verify_full_match = true;
    let r = run_case(&c);
    assert_eq!(r.status, Status::Pass);
    assert!(r.match_verified);
    c.expected_match = "q".to_string();
    let r = run_case(&c);
    assert_eq!(r.status, Status::Fail);
    assert_eq!(r.notes, "full match verification failed");
}

#[test]
fn judge_case_from_given_outcomes() {
    let c = case("p", "t", true);
    let r = judge_case(&c, None, Some("m".to_string()), 5, 7);
    assert_eq!((r.status, r.compile_ns, r.match_ns), (Status::Pass, 5, 7));
    let r = judge_case(&c, Some("bad".to_string()), None, 5, 0);
    assert_eq!((r.status, r.notes.as_str()), (Status::Fail, "compile_error:bad"));
    let r = judge_case(&c, None, None, 1, 2);
    assert_eq!((r.status, r.notes.as_str()), (Status::Fail, "missing expected match"));
}

#[test]
fn cases_run_in_order() {
    let cases = vec![case("a", "a", true), case("b", "a", true), case("(", "", true)];
    let rs = execute_cases(&cases);
    let st: Vec<Status> = rs.iter().map(|r| r.status).collect();
    assert_eq!(st, vec![Status::Pass, Status::Fail, Status::Fail]);
    assert_eq!(rs[1].test_case.pattern, "b");
}

#[test]
fn repeat_scenario_passes() {
    let r = run_scenario(&repeat_scenario("x", 1000, "x", 10));
    assert_eq!(r.status, Status::Pass);
    assert!(r.matched);
    assert_eq!(r.notes, "");
    assert_eq!(r.match_avg_ns, r.match_total_ns / 10);
    assert_eq!((r.scenario.text_size, r.scenario.iterations), (1000, 10));
}

#[test]
fn zero_size_is_rejected_before_compiling() {
    let r = run_scenario(&repeat_scenario("x", 0, "x", 10));
    assert_eq!(r.status, Status::Fail);
    assert_eq!(r.notes, "text_size must be > 0");
    assert_eq!((r.compile_ns, r.match_total_ns, r.match_avg_ns), (0, 0, 0));
    assert!(!r.matched);
}

#[test]
fn zero_iterations_is_rejected() {
    let r = run_scenario(&repeat_scenario("x", 10, "x", 0));
    assert_eq!((r.status, r.notes.as_str()), (Status::Fail, "iterations must be > 0"));
    assert_eq!((r.compile_ns, r.match_total_ns), (0, 0));
}

#[test]
fn generation_failure_is_reported() {
    let r = run_scenario(&repeat_scenario("", 10, "x", 1));
    assert_eq!(r.status, Status::Fail);
    assert_eq!(r.notes, "text_base cannot be empty for repeat strategy");
    assert_eq!(r.compile_ns, 0);
}

#[test]
fn scenario_compile_failure() {
    let r = run_scenario(&repeat_scenario("x", 10, "[", 3));
    assert_eq!(r.status, Status::Fail);
    assert!(r.notes.starts_with("compile_error:"));
    assert_eq!(r.match_total_ns, 0);
}

#[test]
fn scenario_match_expectations() {
    let mut s = repeat_scenario("abc", 300, "d", 2);
    let r = run_scenario(&s);
    assert_eq!((r.status, r.notes.as_str()), (Status::Fail, "expected match missing"));
    assert!(!r.matched);
    s.should_match = false;
    assert_eq!(run_scenario(&s).status, Status::Pass);
    s.pattern = "ca".to_string();
    let r = run_scenario(&s);
    assert_eq!((r.status, r.notes.as_str()), (Status::Fail, "unexpected match"));
}

#[test]
fn injected_and_anchored_scenarios_match() {
    let mut s = repeat_scenario("x", 5000, "needle", 2);
    s.text_strategy = "inject".to_string();
    s.insert_interval = 1000;
    assert!(run_scenario(&s).matched);
    let mut s = repeat_scenario("x", 500, "^BEGIN.*END$", 1);
    s.text_strategy = "anchor".to_string();
    s.anchor_prefix = "BEGIN".to_string();
    s.anchor_suffix = "END".to_string();
    let r = run_scenario(&s);
    assert_eq!(r.status, Status::Pass);
}

#[test]
fn judge_matches_table() {
    assert_eq!(judge_matches(true, true), (Status::Pass, String::new()));
    assert_eq!(judge_matches(false, false), (Status::Pass, String::new()));
    assert_eq!(judge_matches(true, false), (Status::Fail, "expected match missing".to_string()));
    assert_eq!(judge_matches(false, true), (Status::Fail, "unexpected match".to_string()));
}

#[test]
fn scenarios_run_in_order() {
    let rs = execute_performance(&[repeat_scenario("x", 0, "x", 1), repeat_scenario("x", 5, "x", 1)]);
    assert_eq!(rs.len(), 2);
    assert_eq!(rs[0].status, Status::Fail);
    assert_eq!(rs[1].status, Status::Pass);
}
