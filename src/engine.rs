//! The regular-expression engine under test and the clock that times it.
//! Everything that calls into them is here.

use vstd::prelude::*;

verus! {

#[verifier::external_type_specification]
#[verifier::external_body]
pub struct ExRegex(regex::Regex);

#[verifier::external_type_specification]
#[verifier::external_body]
pub struct ExRegexError(regex::Error);

#[verifier::external_type_specification]
#[verifier::external_body]
pub struct ExInstant(std::time::Instant);

/// Whether the engine accepts pattern `p`: `regex::Regex::new` rejects an
/// invalid pattern or one whose compiled form exceeds the default size
/// limit, both of which depend on the pattern alone.
pub uninterp spec fn pattern_compiles(p: Seq<char>) -> bool;

/// The text of the leftmost-first match of pattern `p` in `t`, if any, as
/// `regex::Regex::find` reports it.
pub uninterp spec fn leftmost_match(p: Seq<char>, t: Seq<char>) -> Option<Seq<char>>;

/// Relies on `regex::Regex::new`: it succeeds exactly on the patterns it
/// accepts.
#[verifier::external_body]
fn compile_regex(p: &str) -> (r: Result<regex::Regex, regex::Error>)
    ensures
        r is Ok <==> pattern_compiles(p@),
{
    regex::Regex::new(p)
}

/// Relies on the `Display` impl of `regex::Error` for the error's text.
#[verifier::external_body]
fn error_text(e: &regex::Error) -> (r: String) {
    e.to_string()
}

/// A compiled pattern, with the pattern it was compiled from.
pub struct Matcher {
    re: regex::Regex,
    source: Ghost<Seq<char>>,
}

impl Matcher {
    /// The pattern this matcher was compiled from.
    pub closed spec fn pattern(&self) -> Seq<char> {
        self.source@
    }

    /// Compiles `p`, or gives the engine's error text.
    pub fn compile(p: &str) -> (r: Result<Matcher, String>)
        ensures
            r is Ok <==> pattern_compiles(p@),
            r matches Ok(m) ==> m.pattern() == p@,
    {
        match compile_regex(p) {
            Ok(re) => Ok(Matcher { re, source: Ghost(p@) }),
            Err(e) => Err(error_text(&e)),
        }
    }
}

/// Relies on `regex::Regex::find` and `regex::Match::as_str`: the text of
/// the first match of the matcher's pattern in `text`.
#[verifier::external_body]
pub(crate) fn first_match(m: &Matcher, text: &str) -> (r: Option<String>)
    ensures
        match r {
            Some(s) => leftmost_match(m.pattern(), text@) == Some(s@),
            None => leftmost_match(m.pattern(), text@) is None,
        },
{
    match m.re.find(text) {
        Some(found) => Some(found.as_str().to_string()),
        None => None,
    }
}

/// Relies on `regex::Regex::is_match`, which is true exactly where `find`
/// reports a match.
#[verifier::external_body]
pub(crate) fn has_match(m: &Matcher, text: &str) -> (r: bool)
    ensures
        r == leftmost_match(m.pattern(), text@) is Some,
{
    m.re.is_match(text)
}

/// Relies on `std::time::Instant::now` for a point in time to measure from.
#[verifier::external_body]
pub(crate) fn clock_now() -> std::time::Instant {
    std::time::Instant::now()
}

/// Relies on `std::time::Instant::elapsed` and `Duration::as_nanos`: the
/// nanoseconds since `start`.
#[verifier::external_body]
pub(crate) fn nanos_since(start: &std::time::Instant) -> u128 {
    start.elapsed().as_nanos()
}

/// A duration in nanoseconds as a `u64`, held at `u64::MAX` beyond it.
pub fn clamp_nanos(n: u128) -> (r: u64)
    ensures
        r == if n > u64::MAX as u128 {
            u64::MAX as u128
        } else {
            n
        },
{
    if n > u64::MAX as u128 {
        u64::MAX
    } else {
        n as u64
    }
}

} // verus!
