//! The performance runner: builds each scenario's corpus, compiles its
//! pattern once, and times the given number of match checks.

use vstd::prelude::*;
use vstd::utf8::{decode_utf8, valid_utf8};

use crate::config::{PerfScenario, PerfScenarioView};
use crate::corpus::{corpus_outcome, generate_text_buffer};
use crate::engine::{clamp_nanos, clock_now, has_match, leftmost_match, nanos_since, pattern_compiles, Matcher};
use crate::functional::Status;

verus! {

/// The outcome of one performance scenario. The throughput is not held
/// here: it follows from `text_size`, `iterations` and `match_total_ns`.
#[derive(Debug)]
pub struct PerfResult {
    pub scenario: PerfScenario,
    pub compile_ns: u64,
    pub match_total_ns: u64,
    pub match_avg_ns: u64,
    pub matched: bool,
    pub status: Status,
    pub notes: String,
}

/// Why a scenario is turned down before anything is built, if it is.
pub open spec fn scenario_rejection(s: PerfScenarioView) -> Option<Seq<char>> {
    if s.text_size == 0 {
        Some("text_size must be > 0"@)
    } else if s.iterations == 0 {
        Some("iterations must be > 0"@)
    } else {
        None
    }
}

/// A scenario's corpus as text, or why there is none.
pub open spec fn corpus_text(s: PerfScenarioView) -> Result<Seq<char>, Seq<char>> {
    match corpus_outcome(s) {
        Ok(b) => if valid_utf8(b) {
            Ok(decode_utf8(b))
        } else {
            Err("generated text is not valid UTF-8"@)
        },
        Err(e) => Err(e),
    }
}

/// The status and notes of a scenario whose checks did or did not find a
/// match: it passes exactly where that was expected.
pub open spec fn match_verdict(should_match: bool, matched: bool) -> (Status, Seq<char>) {
    if matched == should_match {
        (Status::Pass, seq![])
    } else if should_match {
        (Status::Fail, "expected match missing"@)
    } else {
        (Status::Fail, "unexpected match"@)
    }
}

/// Judges a scenario whose checks did (`matched`) or did not find a match.
pub fn judge_matches(should_match: bool, matched: bool) -> (r: (Status, String))
    ensures
        (r.0, r.1@) == match_verdict(should_match, matched),
{
    if matched == should_match {
        (Status::Pass, String::new())
    } else if should_match {
        (Status::Fail, String::from_str("expected match missing"))
    } else {
        (Status::Fail, String::from_str("unexpected match"))
    }
}

/// What holds of `r` as the outcome of running scenario `s`.
///
/// A scenario with no size or no iterations, or whose corpus cannot be
/// built, fails with the reason as notes and with nothing compiled or timed.
/// One whose pattern does not compile fails with the engine's error text and
/// no match time. Otherwise `matched` tells whether the pattern matches the
/// corpus, the status follows `match_verdict`, and the average match time is
/// the total over the iterations divided by their number.
pub open spec fn perf_run(s: PerfScenarioView, r: PerfResult) -> bool {
    &&& r.scenario@ == s
    &&& r.status == Status::Pass <==> r.notes@.len() == 0
    &&& match scenario_rejection(s) {
        Some(why) => {
            &&& r.status == Status::Fail
            &&& r.notes@ == why
            &&& r.compile_ns == 0 && r.match_total_ns == 0 && r.match_avg_ns == 0 && !r.matched
        },
        None => match corpus_text(s) {
            Err(e) => {
                &&& r.status == Status::Fail
                &&& r.notes@ == e
                &&& r.compile_ns == 0 && r.match_total_ns == 0 && r.match_avg_ns == 0
                    && !r.matched
            },
            Ok(t) => if !pattern_compiles(s.pattern) {
                &&& r.status == Status::Fail
                &&& exists|msg: Seq<char>| r.notes@ == "compile_error:"@ + msg
                &&& r.match_total_ns == 0 && r.match_avg_ns == 0 && !r.matched
            } else {
                &&& r.matched == leftmost_match(s.pattern, t) is Some
                &&& (r.status, r.notes@) == match_verdict(s.should_match, r.matched)
                &&& r.match_avg_ns == r.match_total_ns / (s.iterations as u64)
            },
        },
    }
}

/// Runs one scenario: builds its corpus, times the compilation of its
/// pattern, then times `iterations` match checks against the corpus,
/// summing their times (held at `u64::MAX`).
pub fn run_scenario(scenario: &PerfScenario) -> (r: PerfResult)
    ensures
        perf_run(scenario@, r),
{
    proof {
        reveal_strlit("text_size must be > 0");
        reveal_strlit("iterations must be > 0");
        reveal_strlit("expected match missing");
        reveal_strlit("unexpected match");
        reveal_strlit("compile_error:");
        reveal_strlit("generated text is not valid UTF-8");
        reveal_strlit("text_base cannot be empty for repeat strategy");
        reveal_strlit("anchor strategy requires anchor_prefix and anchor_suffix");
        reveal_strlit("text_size too small for anchor strategy");
        reveal_strlit("unknown text_strategy: ");
    }
    let mut result = PerfResult {
        scenario: scenario.copied(),
        compile_ns: 0,
        match_total_ns: 0,
        match_avg_ns: 0,
        matched: false,
        status: Status::Fail,
        notes: String::new(),
    };
    if scenario.text_size == 0 {
        result.notes = String::from_str("text_size must be > 0");
        return result;
    }
    if scenario.iterations == 0 {
        result.notes = String::from_str("iterations must be > 0");
        return result;
    }
    let text = match generate_text_buffer(scenario) {
        Ok(t) => t,
        Err(e) => {
            assert(e@.len() > 0);
            result.notes = e;
            return result;
        },
    };
    proof {
        vstd::utf8::encode_utf8_decode_utf8(text@);
    }
    let start = clock_now();
    let compiled = Matcher::compile(scenario.pattern.as_str());
    result.compile_ns = clamp_nanos(nanos_since(&start));
    let matcher = match compiled {
        Ok(m) => m,
        Err(msg) => {
            let mut notes = String::from_str("compile_error:");
            notes.append(msg.as_str());
            result.notes = notes;
            return result;
        },
    };
    let mut total: u64 = 0;
    let mut matched_any = false;
    let mut i: usize = 0;
    while i < scenario.iterations
        invariant
            i <= scenario.iterations,
            matcher.pattern() == scenario.pattern@,
            i == 0 ==> !matched_any,
            i > 0 ==> matched_any == leftmost_match(scenario.pattern@, text@) is Some,
        decreases scenario.iterations - i,
    {
        let match_start = clock_now();
        let did_match = has_match(&matcher, text.as_str());
        let ns = clamp_nanos(nanos_since(&match_start));
        total = total.saturating_add(ns);
        if did_match {
            matched_any = true;
        }
        i += 1;
    }
    result.match_total_ns = total;
    result.match_avg_ns = total / (scenario.iterations as u64);
    result.matched = matched_any;
    let (status, notes) = judge_matches(scenario.should_match, matched_any);
    result.status = status;
    result.notes = notes;
    result
}

/// Runs every scenario in order, one result for each.
pub fn execute_performance(scenarios: &[PerfScenario]) -> (r: Vec<PerfResult>)
    ensures
        r@.len() == scenarios@.len(),
        forall|i: int| 0 <= i < scenarios@.len() ==> perf_run(scenarios@[i]@, #[trigger] r@[i]),
{
    let mut results: Vec<PerfResult> = Vec::new();
    let mut i: usize = 0;
    while i < scenarios.len()
        invariant
            i <= scenarios@.len(),
            results@.len() == i,
            forall|j: int| 0 <= j < i ==> perf_run(scenarios@[j]@, #[trigger] results@[j]),
        decreases scenarios@.len() - i,
    {
        let r = run_scenario(&scenarios[i]);
        results.push(r);
        i += 1;
    }
    results
}

} // verus!
