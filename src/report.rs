//! The result tables: one tab-separated line per case or scenario under a
//! fixed header, in the column order that other implementations share.

use vstd::prelude::*;

use crate::functional::{status_text, CaseResult};
use crate::performance::PerfResult;
use crate::text::{bool_text, decimal, push_bool, push_decimal, sanitize_notes, sanitized};

verus! {

/// The header line of the functionality table.
pub const FUNCTIONALITY_HEADER: &'static str =
    "name\tshould_compile\tcompile_ok\tshould_match\tactual_match\tverify_full_match\tmatch_verified\tcompile_ns\tmatch_ns\tstatus\tnotes";

/// The header line of the performance table.
pub const PERFORMANCE_HEADER: &'static str =
    "name\tpattern\ttext_size\titerations\tcompile_ns\tmatch_total_ns\tmatch_avg_ns\tthroughput_mb_s\tmatched\tstatus\tnotes";

/// The cell separator.
pub open spec fn tab() -> Seq<char> {
    seq!['\t']
}

/// `cells` separated by tabs.
pub open spec fn joined(cells: Seq<Seq<char>>) -> Seq<char>
    decreases cells.len(),
{
    if cells.len() == 0 {
        seq![]
    } else if cells.len() == 1 {
        cells[0]
    } else {
        joined(cells.drop_last()) + tab() + cells.last()
    }
}

proof fn lemma_joined_step(cells: Seq<Seq<char>>, k: int)
    requires
        1 <= k < cells.len(),
    ensures
        joined(cells.take(k + 1)) == joined(cells.take(k)) + tab() + cells[k],
{
    assert(cells.take(k + 1).drop_last() =~= cells.take(k));
}

proof fn lemma_joined_first(cells: Seq<Seq<char>>)
    requires
        cells.len() >= 1,
    ensures
        joined(cells.take(1)) == cells[0],
{
}

/// The cells of the functionality table's line for `r`.
pub open spec fn functionality_cells(r: CaseResult) -> Seq<Seq<char>> {
    seq![
        r.test_case.name@,
        bool_text(r.test_case.should_compile),
        bool_text(r.compile_ok),
        bool_text(r.test_case.should_match),
        bool_text(r.actual_match),
        bool_text(r.test_case.verify_full_match),
        bool_text(r.match_verified),
        decimal(r.compile_ns as nat),
        decimal(r.match_ns as nat),
        status_text(r.status),
        sanitized(r.notes@),
    ]
}

/// The cells of the performance table's line for `r`, with `throughput` as
/// the text of its throughput cell.
pub open spec fn performance_cells(r: PerfResult, throughput: Seq<char>) -> Seq<Seq<char>> {
    seq![
        r.scenario.name@,
        r.scenario.pattern@,
        decimal(r.scenario.text_size as nat),
        decimal(r.scenario.iterations as nat),
        decimal(r.compile_ns as nat),
        decimal(r.match_total_ns as nat),
        decimal(r.match_avg_ns as nat),
        throughput,
        bool_text(r.matched),
        status_text(r.status),
        sanitized(r.notes@),
    ]
}

/// Appends a tab and then `cell` to `out`.
fn push_cell(out: &mut String, cell: &str)
    ensures
        final(out)@ == old(out)@ + tab() + cell@,
{
    out.push('\t');
    out.append(cell);
    proof {
        assert(final(out)@ =~= old(out)@ + tab() + cell@);
    }
}

/// Appends a tab and then the word for `b` to `out`.
fn push_bool_cell(out: &mut String, b: bool)
    ensures
        final(out)@ == old(out)@ + tab() + bool_text(b),
{
    out.push('\t');
    push_bool(out, b);
    proof {
        assert(final(out)@ =~= old(out)@ + tab() + bool_text(b));
    }
}

/// Appends a tab and then the decimal notation of `n` to `out`.
fn push_decimal_cell(out: &mut String, n: u64)
    ensures
        final(out)@ == old(out)@ + tab() + decimal(n as nat),
{
    out.push('\t');
    push_decimal(out, n);
    proof {
        assert(final(out)@ =~= old(out)@ + tab() + decimal(n as nat));
    }
}

/// The functionality table's line for `r`, its notes with tabs and line
/// breaks turned into spaces.
pub fn functionality_row(r: &CaseResult) -> (line: String)
    ensures
        line@ == joined(functionality_cells(*r)),
{
    let ghost cells = functionality_cells(*r);
    let mut out = r.test_case.name.clone();
    proof {
        lemma_joined_first(cells);
    }
    push_bool_cell(&mut out, r.test_case.should_compile);
    proof {
        lemma_joined_step(cells, 1);
    }
    push_bool_cell(&mut out, r.compile_ok);
    proof {
        lemma_joined_step(cells, 2);
    }
    push_bool_cell(&mut out, r.test_case.should_match);
    proof {
        lemma_joined_step(cells, 3);
    }
    push_bool_cell(&mut out, r.actual_match);
    proof {
        lemma_joined_step(cells, 4);
    }
    push_bool_cell(&mut out, r.test_case.verify_full_match);
    proof {
        lemma_joined_step(cells, 5);
    }
    push_bool_cell(&mut out, r.match_verified);
    proof {
        lemma_joined_step(cells, 6);
    }
    push_decimal_cell(&mut out, r.compile_ns);
    proof {
        lemma_joined_step(cells, 7);
    }
    push_decimal_cell(&mut out, r.match_ns);
    proof {
        lemma_joined_step(cells, 8);
    }
    push_cell(&mut out, r.status.label());
    proof {
        lemma_joined_step(cells, 9);
    }
    let notes = sanitize_notes(r.notes.as_str());
    push_cell(&mut out, notes.as_str());
    proof {
        lemma_joined_step(cells, 10);
        assert(cells.take(11) =~= cells);
    }
    out
}

/// The performance table's line for `r`, with `throughput` written in its
/// throughput cell and its notes with tabs and line breaks turned into
/// spaces.
pub fn performance_row(r: &PerfResult, throughput: &str) -> (line: String)
    ensures
        line@ == joined(performance_cells(*r, throughput@)),
{
    let ghost cells = performance_cells(*r, throughput@);
    let mut out = r.scenario.name.clone();
    proof {
        lemma_joined_first(cells);
    }
    push_cell(&mut out, r.scenario.pattern.as_str());
    proof {
        lemma_joined_step(cells, 1);
    }
    push_decimal_cell(&mut out, r.scenario.text_size as u64);
    proof {
        lemma_joined_step(cells, 2);
    }
    push_decimal_cell(&mut out, r.scenario.iterations as u64);
    proof {
        lemma_joined_step(cells, 3);
    }
    push_decimal_cell(&mut out, r.compile_ns);
    proof {
        lemma_joined_step(cells, 4);
    }
    push_decimal_cell(&mut out, r.match_total_ns);
    proof {
        lemma_joined_step(cells, 5);
    }
    push_decimal_cell(&mut out, r.match_avg_ns);
    proof {
        lemma_joined_step(cells, 6);
    }
    push_cell(&mut out, throughput);
    proof {
        lemma_joined_step(cells, 7);
    }
    push_bool_cell(&mut out, r.matched);
    proof {
        lemma_joined_step(cells, 8);
    }
    push_cell(&mut out, r.status.label());
    proof {
        lemma_joined_step(cells, 9);
    }
    let notes = sanitize_notes(r.notes.as_str());
    push_cell(&mut out, notes.as_str());
    proof {
        lemma_joined_step(cells, 10);
        assert(cells.take(11) =~= cells);
    }
    out
}

} // verus!
