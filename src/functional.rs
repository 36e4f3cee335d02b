//! The functionality runner: compiles each case's pattern, searches its text
//! for the first match, and judges the outcome against the expectations.

use vstd::prelude::*;

use crate::config::{TestCase, TestCaseView};
use crate::engine::{clamp_nanos, clock_now, first_match, leftmost_match, nanos_since, pattern_compiles, Matcher};

verus! {

/// The terminal status of a case or a scenario.
#[derive(PartialEq, Eq, Structural, Clone, Copy, Debug)]
pub enum Status {
    Pass,
    Fail,
}

/// The word that the result tables write for a status.
pub open spec fn status_text(s: Status) -> Seq<char> {
    match s {
        Status::Pass => "PASS"@,
        Status::Fail => "FAIL"@,
    }
}

impl Status {
    /// The status as the result tables write it.
    pub fn label(&self) -> (r: &'static str)
        ensures
            r@ == status_text(*self),
    {
        match self {
            Status::Pass => "PASS",
            Status::Fail => "FAIL",
        }
    }
}

/// What is decided of a case: whether it compiled, matched and matched the
/// expected text, its status, and the notes that explain a failure.
pub struct CaseVerdict {
    pub compile_ok: bool,
    pub actual_match: bool,
    pub match_verified: bool,
    pub status: Status,
    pub notes: Seq<char>,
}

/// The verdict on case `c`, given the engine's error text where the pattern
/// did not compile, and otherwise the first match found in the text.
///
/// A compile failure passes exactly where the case expects one. A pattern
/// that compiles against expectation fails at once. Otherwise the case
/// passes where a match was found exactly where one was expected and, under
/// full-match verification, the match is the expected text (or no match was
/// expected or found and the expected text is empty).
pub open spec fn case_verdict(
    c: TestCaseView,
    engine_error: Option<Seq<char>>,
    found: Option<Seq<char>>,
) -> CaseVerdict {
    match engine_error {
        Some(msg) => CaseVerdict {
            compile_ok: false,
            actual_match: false,
            match_verified: false,
            status: if c.should_compile {
                Status::Fail
            } else {
                Status::Pass
            },
            notes: if c.should_compile {
                "compile_error:"@ + msg
            } else {
                seq![]
            },
        },
        None => if !c.should_compile {
            CaseVerdict {
                compile_ok: true,
                actual_match: false,
                match_verified: false,
                status: Status::Fail,
                notes: "expected compile failure but succeeded"@,
            }
        } else {
            let actual = found is Some;
            let verified = match found {
                Some(m) => c.verify_full_match && m == c.expected_match,
                None => c.verify_full_match && c.expected_match.len() == 0 && !c.should_match,
            };
            let (status, notes) = if c.should_match != actual {
                (
                    Status::Fail,
                    if actual {
                        "unexpected match"@
                    } else {
                        "missing expected match"@
                    },
                )
            } else if !c.verify_full_match || verified {
                (Status::Pass, seq![])
            } else {
                (
                    Status::Fail,
                    match found {
                        Some(m) => "expected_full_match:"@ + c.expected_match + ", got:"@ + m,
                        None => "full match verification failed"@,
                    },
                )
            };
            CaseVerdict {
                compile_ok: true,
                actual_match: actual,
                match_verified: verified,
                status,
                notes,
            }
        },
    }
}

/// The outcome of one functionality case.
#[derive(Debug)]
pub struct CaseResult {
    pub test_case: TestCase,
    pub compile_ok: bool,
    pub actual_match: bool,
    pub match_verified: bool,
    pub compile_ns: u64,
    pub match_ns: u64,
    pub status: Status,
    pub notes: String,
}

impl CaseResult {
    /// What this result decided.
    pub open spec fn verdict(&self) -> CaseVerdict {
        CaseVerdict {
            compile_ok: self.compile_ok,
            actual_match: self.actual_match,
            match_verified: self.match_verified,
            status: self.status,
            notes: self.notes@,
        }
    }
}

/// `a` followed by `b`.
fn concat(a: &str, b: &str) -> (r: String)
    ensures
        r@ == a@ + b@,
{
    let mut r = String::from_str(a);
    r.append(b);
    r
}

/// Judges case `case` from the engine's error text where its pattern did not
/// compile (`engine_error`), or else the first match found (`found`), and
/// records the timings given.
pub fn judge_case(
    case: &TestCase,
    engine_error: Option<String>,
    found: Option<String>,
    compile_ns: u64,
    match_ns: u64,
) -> (r: CaseResult)
    ensures
        r.verdict() == case_verdict(
            case@,
            match engine_error {
                Some(e) => Some(e@),
                None => None,
            },
            match found {
                Some(m) => Some(m@),
                None => None,
            },
        ),
        r.test_case@ == case@,
        r.compile_ns == compile_ns,
        r.match_ns == match_ns,
        r.status == Status::Pass <==> r.notes@.len() == 0,
{
    proof {
        reveal_strlit("compile_error:");
        reveal_strlit("expected compile failure but succeeded");
        reveal_strlit("unexpected match");
        reveal_strlit("missing expected match");
        reveal_strlit("expected_full_match:");
        reveal_strlit("full match verification failed");
    }
    let test_case = case.copied();
    match engine_error {
        Some(msg) => {
            let (status, notes) = if case.should_compile {
                (Status::Fail, concat("compile_error:", msg.as_str()))
            } else {
                (Status::Pass, String::new())
            };
            CaseResult {
                test_case,
                compile_ok: false,
                actual_match: false,
                match_verified: false,
                compile_ns,
                match_ns,
                status,
                notes,
            }
        },
        None => {
            if !case.should_compile {
                return CaseResult {
                    test_case,
                    compile_ok: true,
                    actual_match: false,
                    match_verified: false,
                    compile_ns,
                    match_ns,
                    status: Status::Fail,
                    notes: String::from_str("expected compile failure but succeeded"),
                };
            }
            let actual = found.is_some();
            let verified = match &found {
                Some(m) => case.verify_full_match && *m == case.expected_match,
                None => case.verify_full_match && case.expected_match.as_str().is_empty()
                    && !case.should_match,
            };
            let (status, notes) = if case.should_match != actual {
                (
                    Status::Fail,
                    String::from_str(
                        if actual {
                            "unexpected match"
                        } else {
                            "missing expected match"
                        },
                    ),
                )
            } else if !case.verify_full_match || verified {
                (Status::Pass, String::new())
            } else {
                match &found {
                    Some(m) => {
                        let mut n = concat("expected_full_match:", case.expected_match.as_str());
                        n.append(", got:");
                        n.append(m.as_str());
                        (Status::Fail, n)
                    },
                    None => (Status::Fail, String::from_str("full match verification failed")),
                }
            };
            CaseResult {
                test_case,
                compile_ok: true,
                actual_match: actual,
                match_verified: verified,
                compile_ns,
                match_ns,
                status,
                notes,
            }
        },
    }
}


/// What holds of `r` as the outcome of running case `c`: it carries the case;
/// where the pattern compiles, the verdict is that on the first match of the
/// pattern in the text (no search is made where a compile failure was
/// expected); where it does not, the verdict is that on some error text; and
/// no match time is recorded where no search was made.
pub open spec fn case_run(c: TestCaseView, r: CaseResult) -> bool {
    &&& r.test_case@ == c
    &&& pattern_compiles(c.pattern) ==> r.verdict() == case_verdict(
        c,
        None,
        leftmost_match(c.pattern, c.text),
    )
    &&& !pattern_compiles(c.pattern) ==> exists|msg: Seq<char>|
        r.verdict() == #[trigger] case_verdict(c, Some(msg), None)
    &&& !(pattern_compiles(c.pattern) && c.should_compile) ==> r.match_ns == 0
    &&& r.status == Status::Pass <==> r.notes@.len() == 0
}

/// Runs one case: times the compilation of its pattern, then, where it
/// compiled as expected, times the search for the first match in its text,
/// and judges the outcome.
pub fn run_case(case: &TestCase) -> (r: CaseResult)
    ensures
        case_run(case@, r),
{
    let start = clock_now();
    let compiled = Matcher::compile(case.pattern.as_str());
    let compile_ns = clamp_nanos(nanos_since(&start));
    match compiled {
        Err(msg) => {
            let ghost m = msg@;
            let r = judge_case(case, Some(msg), None, compile_ns, 0);
            assert(r.verdict() == case_verdict(case@, Some(m), None));
            r
        },
        Ok(matcher) => {
            if !case.should_compile {
                judge_case(case, None, None, compile_ns, 0)
            } else {
                let match_start = clock_now();
                let found = first_match(&matcher, case.text.as_str());
                let match_ns = clamp_nanos(nanos_since(&match_start));
                judge_case(case, None, found, compile_ns, match_ns)
            }
        },
    }
}

/// Runs every case in order, one result for each.
pub fn execute_cases(cases: &[TestCase]) -> (r: Vec<CaseResult>)
    ensures
        r@.len() == cases@.len(),
        forall|i: int| 0 <= i < cases@.len() ==> case_run(cases@[i]@, #[trigger] r@[i]),
{
    let mut results: Vec<CaseResult> = Vec::new();
    let mut i: usize = 0;
    while i < cases.len()
        invariant
            i <= cases@.len(),
            results@.len() == i,
            forall|j: int| 0 <= j < i ==> case_run(cases@[j]@, #[trigger] results@[j]),
        decreases cases@.len() - i,
    {
        let r = run_case(&cases[i]);
        results.push(r);
        i += 1;
    }
    results
}

} // verus!
