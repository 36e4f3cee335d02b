//! Deterministic corpora of an exact byte length for performance scenarios.

use vstd::prelude::*;
use vstd::utf8::{encode_utf8, valid_utf8};

use crate::config::{PerfScenario, PerfScenarioView};
use crate::text::{chars_are, chars_of, string_of};

verus! {

/// The first `size` bytes of `base` repeated end to end without limit.
pub open spec fn tiled(base: Seq<u8>, size: nat) -> Seq<u8>
    recommends
        base.len() > 0,
{
    Seq::new(size, |i: int| base[i % base.len() as int])
}

/// `base` repeated to exactly `size` bytes, the last copy cut short where
/// needed; fails on an empty base.
pub fn generate_repeat_text(base: &str, size: usize) -> (r: Result<Vec<u8>, String>)
    ensures
        match r {
            Ok(v) => encode_utf8(base@).len() > 0 && v@ == tiled(encode_utf8(base@), size as nat)
                && v@.len() == size,
            Err(e) => encode_utf8(base@).len() == 0
                && e@ == "text_base cannot be empty for repeat strategy"@,
        },
{
    let b = base.as_bytes();
    if b.len() == 0 {
        return Err(String::from_str("text_base cannot be empty for repeat strategy"));
    }
    let mut out: Vec<u8> = Vec::with_capacity(size);
    let mut j: usize = 0;
    while out.len() < size
        invariant
            b@ == encode_utf8(base@),
            b@.len() > 0,
            out@.len() <= size,
            j == (out@.len() as int) % (b@.len() as int),
            out@ == tiled(b@, out@.len()),
        decreases size - out@.len(),
    {
        let ghost before = out@;
        out.push(b[j]);
        proof {
            assert(out@ =~= tiled(b@, out@.len()));
        }
        j = j + 1;
        if j == b.len() {
            j = 0;
        }
        proof {
            let n = b@.len() as int;
            let l = before.len() as int;
            assert((l + 1) % n == if l % n + 1 < n {
                l % n + 1
            } else {
                0
            }) by (nonlinear_arith)
                requires
                    n > 0,
                    l >= 0,
            ;
        }
    }
    Ok(out)
}


/// The chunk length that injection uses: `interval`, or 256 where it is 0.
pub open spec fn chunk_len(interval: usize) -> nat {
    if interval == 0 {
        256
    } else {
        interval as nat
    }
}

/// `text` cut into chunks of `k` bytes, with `pat` after every chunk that
/// more text follows.
pub open spec fn interleaved(text: Seq<u8>, pat: Seq<u8>, k: nat) -> Seq<u8>
    decreases text.len(),
{
    if k == 0 || text.len() <= k {
        text
    } else {
        text.take(k as int) + pat + interleaved(text.skip(k as int), pat, k)
    }
}

/// The injected corpus: the repeated base with `pat` after every chunk,
/// cut back to `size` bytes.
pub open spec fn injected(base: Seq<u8>, size: nat, pat: Seq<u8>, interval: usize) -> Seq<u8> {
    interleaved(tiled(base, size), pat, chunk_len(interval)).take(size as int)
}

proof fn lemma_interleaved_len(text: Seq<u8>, pat: Seq<u8>, k: nat)
    ensures
        interleaved(text, pat, k).len() >= text.len(),
    decreases text.len(),
{
    if !(k == 0 || text.len() <= k) {
        lemma_interleaved_len(text.skip(k as int), pat, k);
    }
}

/// `base` repeated to `size` bytes, with a copy of `pattern` after every
/// `interval` bytes (256 where `interval` is 0), then cut back to `size`
/// bytes; fails on an empty base.
pub fn generate_inject_text(base: &str, size: usize, pattern: &str, interval: usize) -> (r: Result<
    Vec<u8>,
    String,
>)
    ensures
        match r {
            Ok(v) => encode_utf8(base@).len() > 0 && v@ == injected(
                encode_utf8(base@),
                size as nat,
                encode_utf8(pattern@),
                interval,
            ) && v@.len() == size,
            Err(e) => encode_utf8(base@).len() == 0
                && e@ == "text_base cannot be empty for repeat strategy"@,
        },
{
    let text = generate_repeat_text(base, size)?;
    let k: usize = if interval == 0 {
        256
    } else {
        interval
    };
    let p = pattern.as_bytes();
    let ghost full = interleaved(text@, p@, k as nat);
    let mut out: Vec<u8> = Vec::with_capacity(size);
    let mut pos: usize = 0;
    proof {
        assert(text@.skip(0) =~= text@);
    }
    while pos < text.len()
        invariant
            pos <= text@.len(),
            k > 0,
            full == interleaved(text@, p@, k as nat),
            out@ + interleaved(text@.skip(pos as int), p@, k as nat) == full,
        decreases text@.len() - pos,
    {
        let ghost rest = text@.skip(pos as int);
        let end: usize = if text.len() - pos < k {
            text.len()
        } else {
            pos + k
        };
        let mut i: usize = pos;
        let ghost before = out@;
        while i < end
            invariant
                pos <= i <= end <= text@.len(),
                out@ == before + text@.subrange(pos as int, i as int),
            decreases end - i,
        {
            out.push(text[i]);
            i += 1;
            proof {
                assert(out@ =~= before + text@.subrange(pos as int, i as int));
            }
        }
        if end < text.len() {
            let mut q: usize = 0;
            let ghost mid = out@;
            while q < p.len()
                invariant
                    q <= p@.len(),
                    out@ == mid + p@.take(q as int),
                decreases p@.len() - q,
            {
                out.push(p[q]);
                q += 1;
                proof {
                    assert(out@ =~= mid + p@.take(q as int));
                }
            }
            proof {
                assert(p@.take(p@.len() as int) =~= p@);
                assert(rest.take(k as int) =~= text@.subrange(pos as int, end as int));
                assert(rest.skip(k as int) =~= text@.skip(end as int));
                assert(out@ + interleaved(text@.skip(end as int), p@, k as nat) =~= before + (
                rest.take(k as int) + p@ + interleaved(rest.skip(k as int), p@, k as nat)));
            }
        } else {
            proof {
                assert(rest =~= text@.subrange(pos as int, end as int));
                assert(text@.skip(end as int) =~= seq![]);
                assert(interleaved(text@.skip(end as int), p@, k as nat) =~= seq![]);
                assert(out@ + interleaved(text@.skip(end as int), p@, k as nat) =~= out@);
            }
        }
        pos = end;
    }
    proof {
        assert(text@.skip(pos as int) =~= seq![]);
        assert(out@ + interleaved(text@.skip(pos as int), p@, k as nat) =~= out@);
        lemma_interleaved_len(text@, p@, k as nat);
    }
    out.truncate(size);
    proof {
        assert(out@ =~= full.take(size as int));
    }
    Ok(out)
}


/// Where copy `j` (from 0) of a pattern of `m` bytes starts in a text
/// interleaved every `k` bytes: after `j + 1` chunks and `j` copies.
pub open spec fn copy_start(j: int, k: nat, m: nat) -> int {
    (j + 1) * k + j * m
}

proof fn lemma_interleaved_copy(text: Seq<u8>, pat: Seq<u8>, k: nat, j: int)
    requires
        k > 0,
        0 <= j,
        (j + 1) * k < text.len(),
    ensures
        copy_start(j, k, pat.len()) + pat.len() <= interleaved(text, pat, k).len(),
        interleaved(text, pat, k).subrange(
            copy_start(j, k, pat.len()),
            copy_start(j, k, pat.len()) + pat.len(),
        ) == pat,
    decreases j,
{
    let m = pat.len();
    assert(text.len() > k) by (nonlinear_arith)
        requires
            (j + 1) * k < text.len(),
            j >= 0,
    ;
    let head = text.take(k as int);
    let rest = interleaved(text.skip(k as int), pat, k);
    assert(interleaved(text, pat, k) == head + pat + rest);
    if j == 0 {
        assert((0 + 1) * k + 0 * m == k) by (nonlinear_arith);
        assert(copy_start(0, k, m) == k);
        assert((head + pat + rest).subrange(k as int, (k + m) as int) =~= pat);
    } else {
        assert(j * k < text.skip(k as int).len()) by (nonlinear_arith)
            requires
                (j + 1) * k < text.len(),
                text.skip(k as int).len() == text.len() - k,
        ;
        lemma_interleaved_copy(text.skip(k as int), pat, k, j - 1);
        let c = copy_start(j - 1, k, m);
        assert((j + 1) * k + j * m == k + m + (j * k + (j - 1) * m)) by (nonlinear_arith);
        assert(copy_start(j, k, m) == k + m + c);
        assert((head + pat + rest).subrange(k + m + c, k + m + c + m) =~= rest.subrange(
            c,
            c + m,
        ));
    }
}

/// An injected corpus holds a copy of its pattern after each of its first
/// `size / interval - 1` chunks, the copies one after another without
/// overlap; this holds wherever those copies fit in `size` bytes, that is
/// where `size / (interval + pattern length) + 1 >= size / interval`.
pub proof fn lemma_inject_finds_pattern(base: Seq<u8>, size: nat, pat: Seq<u8>, interval: usize)
    requires
        base.len() > 0,
        interval > 0,
        size / (interval + pat.len()) as nat + 1 >= size / interval as nat,
    ensures
        forall|j: int|
            0 <= j && j + 1 < size / interval as nat ==> #[trigger] copy_start(
                j,
                interval as nat,
                pat.len(),
            ) + pat.len() <= copy_start(j + 1, interval as nat, pat.len()),
        forall|j: int|
            0 <= j && j + 1 < size / interval as nat ==> injected(
                base,
                size,
                pat,
                interval,
            ).subrange(
                #[trigger] copy_start(j, interval as nat, pat.len()),
                copy_start(j, interval as nat, pat.len()) + pat.len(),
            ) == pat,
{
    let k = interval as nat;
    let m = pat.len();
    let text = tiled(base, size);
    assert forall|j: int| 0 <= j && j + 1 < size / k implies #[trigger] copy_start(j, k, m) + m
        <= copy_start(j + 1, k, m) by {
        assert(copy_start(j + 1, k, m) == copy_start(j, k, m) + k + m) by (nonlinear_arith);
    }
    assert forall|j: int| 0 <= j && j + 1 < size / k implies injected(base, size, pat, interval).subrange(
        #[trigger] copy_start(j, k, m),
        copy_start(j, k, m) + m,
    ) == pat by {
        assert((j + 1) * k < size) by (nonlinear_arith)
            requires
                j + 1 < size / k,
                k > 0,
        ;
        let q = size / (k + m);
        assert(q * (k + m) <= size) by (nonlinear_arith)
            requires
                q == size / (k + m),
                k > 0,
        ;
        assert((j + 1) * (k + m) <= q * (k + m)) by (nonlinear_arith)
            requires
                j + 1 <= q,
                k > 0,
        ;
        assert(copy_start(j, k, m) + m == (j + 1) * (k + m)) by (nonlinear_arith);
        assert(copy_start(j, k, m) + m <= size);
        lemma_interleaved_copy(text, pat, k, j);
        let full = interleaved(text, pat, k);
        lemma_interleaved_len(text, pat, k);
        assert(full.take(size as int).subrange(copy_start(j, k, m), copy_start(j, k, m) + m)
            =~= full.subrange(copy_start(j, k, m), copy_start(j, k, m) + m));
    }
}


/// The anchored corpus: `prefix`, then `base` repeated to fill, then `suffix`,
/// `size` bytes in all.
pub open spec fn anchored(prefix: Seq<u8>, base: Seq<u8>, suffix: Seq<u8>, size: nat) -> Seq<u8> {
    prefix + tiled(base, (size - prefix.len() - suffix.len()) as nat) + suffix
}

/// What the anchor strategy makes of a scenario.
pub open spec fn anchor_outcome(s: PerfScenarioView) -> Result<Seq<u8>, Seq<char>> {
    let p = encode_utf8(s.anchor_prefix);
    let q = encode_utf8(s.anchor_suffix);
    let b = encode_utf8(s.text_base);
    if s.anchor_prefix.len() == 0 || s.anchor_suffix.len() == 0 {
        Err("anchor strategy requires anchor_prefix and anchor_suffix"@)
    } else if s.text_size < p.len() + q.len() {
        Err("text_size too small for anchor strategy"@)
    } else if b.len() == 0 {
        Err("text_base cannot be empty for repeat strategy"@)
    } else {
        Ok(anchored(p, b, q, s.text_size as nat))
    }
}

/// The scenario's anchor prefix and suffix around repeated base text,
/// `text_size` bytes in all; fails where the prefix or the suffix is empty,
/// where they do not fit in `text_size`, or where the base is empty.
pub fn generate_anchor_text(scenario: &PerfScenario) -> (r: Result<Vec<u8>, String>)
    ensures
        match r {
            Ok(v) => anchor_outcome(scenario@) == Ok::<Seq<u8>, Seq<char>>(v@)
                && v@.len() == scenario.text_size
                && v@.take(encode_utf8(scenario.anchor_prefix@).len() as int) == encode_utf8(
                    scenario.anchor_prefix@,
                ) && v@.skip(
                    v@.len() - encode_utf8(scenario.anchor_suffix@).len(),
                ) == encode_utf8(scenario.anchor_suffix@),
            Err(e) => anchor_outcome(scenario@) == Err::<Seq<u8>, Seq<char>>(e@),
        },
{
    if scenario.anchor_prefix.as_str().is_empty() || scenario.anchor_suffix.as_str().is_empty() {
        return Err(String::from_str("anchor strategy requires anchor_prefix and anchor_suffix"));
    }
    let p = scenario.anchor_prefix.as_str().as_bytes();
    let q = scenario.anchor_suffix.as_str().as_bytes();
    if scenario.text_size < p.len() || scenario.text_size - p.len() < q.len() {
        return Err(String::from_str("text_size too small for anchor strategy"));
    }
    let filler_size = scenario.text_size - p.len() - q.len();
    let filler = generate_repeat_text(scenario.text_base.as_str(), filler_size)?;
    let mut out: Vec<u8> = Vec::with_capacity(scenario.text_size);
    let mut i: usize = 0;
    while i < p.len()
        invariant
            i <= p@.len(),
            out@ == p@.take(i as int),
        decreases p@.len() - i,
    {
        out.push(p[i]);
        i += 1;
        proof {
            assert(out@ =~= p@.take(i as int));
        }
    }
    let ghost head = out@;
    i = 0;
    while i < filler.len()
        invariant
            i <= filler@.len(),
            out@ == head + filler@.take(i as int),
        decreases filler@.len() - i,
    {
        out.push(filler[i]);
        i += 1;
        proof {
            assert(out@ =~= head + filler@.take(i as int));
        }
    }
    let ghost body = out@;
    i = 0;
    while i < q.len()
        invariant
            i <= q@.len(),
            out@ == body + q@.take(i as int),
        decreases q@.len() - i,
    {
        out.push(q[i]);
        i += 1;
        proof {
            assert(out@ =~= body + q@.take(i as int));
        }
    }
    proof {
        assert(p@.take(p@.len() as int) =~= p@);
        assert(q@.take(q@.len() as int) =~= q@);
        assert(filler@.take(filler@.len() as int) =~= filler@);
        assert(out@ =~= p@ + filler@ + q@);
        assert(out@.take(p@.len() as int) =~= p@);
        assert(out@.skip(out@.len() - q@.len()) =~= q@);
    }
    Ok(out)
}

/// How a scenario's corpus is built.
#[derive(PartialEq, Eq, Structural, Clone, Copy, Debug)]
pub enum TextStrategy {
    Repeat,
    Inject,
    Anchor,
}

/// `c` in lower case where it is an ASCII capital letter.
pub open spec fn ascii_lower(c: char) -> char {
    if 'A' <= c <= 'Z' {
        ((c as u32) + 32) as char
    } else {
        c
    }
}

/// `s` with its ASCII capital letters in lower case, as
/// `str::to_ascii_lowercase` gives it.
pub open spec fn ascii_lowercase(s: Seq<char>) -> Seq<char> {
    s.map_values(|c: char| ascii_lower(c))
}

/// The strategy that a scenario's `text_strategy` names: an empty name is
/// `repeat`, and names are read without regard to ASCII case.
pub open spec fn strategy_named(name: Seq<char>) -> Result<TextStrategy, Seq<char>> {
    let l = ascii_lowercase(name);
    if name.len() == 0 || l == "repeat"@ {
        Ok(TextStrategy::Repeat)
    } else if l == "inject"@ {
        Ok(TextStrategy::Inject)
    } else if l == "anchor"@ {
        Ok(TextStrategy::Anchor)
    } else {
        Err("unknown text_strategy: "@ + l)
    }
}

/// Reads a strategy name.
pub fn parse_strategy(name: &str) -> (r: Result<TextStrategy, String>)
    ensures
        match r {
            Ok(t) => strategy_named(name@) == Ok::<TextStrategy, Seq<char>>(t),
            Err(e) => strategy_named(name@) == Err::<TextStrategy, Seq<char>>(e@),
        },
{
    let cs = chars_of(name);
    let mut l: Vec<char> = Vec::new();
    let mut i: usize = 0;
    while i < cs.len()
        invariant
            i <= cs@.len(),
            cs@ == name@,
            l@ == ascii_lowercase(cs@).take(i as int),
        decreases cs@.len() - i,
    {
        let c = cs[i];
        if 'A' <= c && c <= 'Z' {
            l.push(((c as u8) + 32) as char);
        } else {
            l.push(c);
        }
        i += 1;
        proof {
            assert(l@ =~= ascii_lowercase(cs@).take(i as int));
        }
    }
    proof {
        assert(ascii_lowercase(cs@).take(i as int) =~= ascii_lowercase(cs@));
    }
    if cs.len() == 0 || chars_are(&l, "repeat") {
        Ok(TextStrategy::Repeat)
    } else if chars_are(&l, "inject") {
        Ok(TextStrategy::Inject)
    } else if chars_are(&l, "anchor") {
        Ok(TextStrategy::Anchor)
    } else {
        let mut e = String::from_str("unknown text_strategy: ");
        let t = string_of(&l);
        e.append(t.as_str());
        Err(e)
    }
}


/// The bytes of a scenario's corpus, or why it cannot be built.
pub open spec fn corpus_outcome(s: PerfScenarioView) -> Result<Seq<u8>, Seq<char>> {
    let b = encode_utf8(s.text_base);
    let base_error = "text_base cannot be empty for repeat strategy"@;
    match strategy_named(s.text_strategy) {
        Err(e) => Err(e),
        Ok(TextStrategy::Repeat) => if b.len() == 0 {
            Err(base_error)
        } else {
            Ok(tiled(b, s.text_size as nat))
        },
        Ok(TextStrategy::Inject) => if b.len() == 0 {
            Err(base_error)
        } else {
            Ok(injected(b, s.text_size as nat, encode_utf8(s.pattern), s.insert_interval))
        },
        Ok(TextStrategy::Anchor) => anchor_outcome(s),
    }
}

/// Relies on `String::from_utf8`: it accepts exactly the valid UTF-8 byte
/// sequences, and the string it returns holds those bytes.
#[verifier::external_body]
fn utf8_string(bytes: Vec<u8>) -> (r: Option<String>)
    ensures
        r is Some <==> valid_utf8(bytes@),
        r matches Some(t) ==> encode_utf8(t@) == bytes@,
{
    String::from_utf8(bytes).ok()
}

/// The corpus of a scenario as text; fails where the strategy is unknown or
/// cannot build a corpus, or where the cut at `text_size` bytes falls inside
/// a character.
pub fn generate_text_buffer(scenario: &PerfScenario) -> (r: Result<String, String>)
    ensures
        match corpus_outcome(scenario@) {
            Ok(bytes) => if valid_utf8(bytes) {
                r is Ok && encode_utf8(r->Ok_0@) == bytes
            } else {
                r is Err && r->Err_0@ == "generated text is not valid UTF-8"@
            },
            Err(e) => r is Err && r->Err_0@ == e,
        },
{
    let strategy = parse_strategy(scenario.text_strategy.as_str())?;
    let bytes = match strategy {
        TextStrategy::Repeat => generate_repeat_text(
            scenario.text_base.as_str(),
            scenario.text_size,
        )?,
        TextStrategy::Inject => generate_inject_text(
            scenario.text_base.as_str(),
            scenario.text_size,
            scenario.pattern.as_str(),
            scenario.insert_interval,
        )?,
        TextStrategy::Anchor => generate_anchor_text(scenario)?,
    };
    match utf8_string(bytes) {
        Some(t) => Ok(t),
        None => Err(String::from_str("generated text is not valid UTF-8")),
    }
}

} // verus!
