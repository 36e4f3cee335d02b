use regex_bench::config::{PerfScenario, TestCase};
use regex_bench::functional::{judge_case, Status};
use regex_bench::performance::PerfResult;
use regex_bench::report::{functionality_row, performance_row, FUNCTIONALITY_HEADER, PERFORMANCE_HEADER};

#[test]
fn headers_name_the_columns() {
    assert_eq!(
        FUNCTIONALITY_HEADER.split('\t').collect::<Vec<_>>(),
        vec![
            "name", "should_compile", "compile_ok", "should_match", "actual_match",
            "verify_full_match", "match_verified", "compile_ns", "match_ns", "status", "notes"
        ]
    );
    assert_eq!(
        PERFORMANCE_HEADER.split('\t').collect::<Vec<_>>(),
        vec![
            "name", "pattern", "text_size", "iterations", "compile_ns", "match_total_ns",
            "match_avg_ns", "throughput_mb_s", "matched", "status", "notes"
        ]
    );
}

#[test]
fn functionality_row_cells() {
    let c = TestCase {
        name: "lit".to_string(),
        pattern: "a".to_string(),
        text: "b".to_string(),
        should_match: true,
        ..TestCase::default()
    };
    let r = judge_case(&c, None, None, 1234, 0);
    assert_eq!(
        functionality_row(&r),
        "lit\ttrue\ttrue\ttrue\tfalse\tfalse\tfalse\t1234\t0\tFAIL\tmissing expected match"
    );
}

#[test]
fn functionality_row_sanitizes_notes() {
    let c = TestCase { name: "e".to_string(), ..TestCase::default() };
    let r = judge_case(&c, Some("line one\nline\ttwo".to_string()), None, 10, 0);
    assert_eq!(
        functionality_row(&r),
        "e\ttrue\tfalse\tfalse\tfalse\tfalse\tfalse\t10\t0\tFAIL\tcompile_error:line one line two"
    );
}

#[test]
fn performance_row_cells() {
    let r = PerfResult {
        scenario: PerfScenario {
            name: "p".to_string(),
            pattern: "x+".to_string(),
            text_size: 1000,
            iterations: 10,
            ..PerfScenario::default()
        },
        compile_ns: 18446744073709551615,
        match_total_ns: 5000,
        match_avg_ns: 500,
        matched: true,
        status: Status::Pass,
        notes: String::new(),
    };
    assert_eq!(
        performance_row(&r, "1.9073"),
        "p\tx+\t1000\t10\t18446744073709551615\t5000\t500\t1.9073\ttrue\tPASS\t"
    );
}

#[test]
fn status_labels() {
    assert_eq!(Status::Pass.label(), "PASS");
    assert_eq!(Status::Fail.label(), "FAIL");
}
