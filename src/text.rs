//! Character-level helpers shared by the configuration parser and the
//! result tables.

use vstd::prelude::*;

verus! {

/// `String::push` appends one character to the end of the string.
pub assume_specification[ String::push ](s: &mut String, ch: char)
    ensures
        final(s)@ == old(s)@.push(ch),
;

/// The characters of `s`, in order.
pub fn chars_of(s: &str) -> (r: Vec<char>)
    ensures
        r@ == s@,
{
    let mut r: Vec<char> = Vec::new();
    for c in iter: s.chars()
        invariant
            r@ == iter.seq().take(iter.index() as int),
    {
        r.push(c);
    }
    r
}

/// A string holding exactly the characters of `cs`.
pub fn string_of(cs: &[char]) -> (r: String)
    ensures
        r@ == cs@,
{
    let mut r = String::new();
    let mut i: usize = 0;
    while i < cs.len()
        invariant
            i <= cs@.len(),
            r@ == cs@.take(i as int),
        decreases cs@.len() - i,
    {
        r.push(cs[i]);
        i += 1;
        proof {
            assert(cs@.take(i as int) =~= cs@.take(i - 1 as int).push(cs@[i - 1 as int]));
        }
    }
    proof {
        assert(cs@.take(cs@.len() as int) =~= cs@);
    }
    r
}


/// Whether `c` has the Unicode `White_Space` property, as `char::is_whitespace` reports.
pub open spec fn is_white_space(c: char) -> bool {
    let u = c as u32;
    (0x9 <= u <= 0xd) || u == 0x20 || u == 0x85 || u == 0xa0 || u == 0x1680 || (0x2000 <= u
        <= 0x200a) || u == 0x2028 || u == 0x2029 || u == 0x202f || u == 0x205f || u == 0x3000
}

/// `s` without its leading white space.
pub open spec fn trim_start(s: Seq<char>) -> Seq<char>
    decreases s.len(),
{
    if s.len() > 0 && is_white_space(s[0]) {
        trim_start(s.drop_first())
    } else {
        s
    }
}

/// `s` without its trailing white space.
pub open spec fn trim_end(s: Seq<char>) -> Seq<char>
    decreases s.len(),
{
    if s.len() > 0 && is_white_space(s.last()) {
        trim_end(s.drop_last())
    } else {
        s
    }
}

/// `s` without white space at either end.
pub open spec fn trim(s: Seq<char>) -> Seq<char> {
    trim_end(trim_start(s))
}

/// Whether `c` is white space, as `char::is_whitespace` reports.
pub fn is_white_space_char(c: char) -> (r: bool)
    ensures
        r == is_white_space(c),
{
    let u = c as u32;
    (0x9 <= u && u <= 0xd) || u == 0x20 || u == 0x85 || u == 0xa0 || u == 0x1680 || (0x2000 <= u
        && u <= 0x200a) || u == 0x2028 || u == 0x2029 || u == 0x202f || u == 0x205f || u == 0x3000
}

/// The characters of `s[lo..hi]`.
pub fn slice_chars(s: &[char], lo: usize, hi: usize) -> (r: Vec<char>)
    requires
        lo <= hi <= s@.len(),
    ensures
        r@ == s@.subrange(lo as int, hi as int),
{
    let mut r: Vec<char> = Vec::new();
    let mut i: usize = lo;
    while i < hi
        invariant
            lo <= i <= hi <= s@.len(),
            r@ == s@.subrange(lo as int, i as int),
        decreases hi - i,
    {
        r.push(s[i]);
        i += 1;
        proof {
            assert(s@.subrange(lo as int, i as int) =~= s@.subrange(lo as int, i - 1 as int).push(
                s@[i - 1 as int],
            ));
        }
    }
    r
}

/// `s` with the white space at both ends removed, as `str::trim` does.
pub fn trim_chars(s: &[char]) -> (r: Vec<char>)
    ensures
        r@ == trim(s@),
{
    let mut lo: usize = 0;
    proof {
        assert(s@.skip(0) =~= s@);
    }
    while lo < s.len() && is_white_space_char(s[lo])
        invariant
            lo <= s@.len(),
            trim_start(s@) == trim_start(s@.skip(lo as int)),
        decreases s@.len() - lo,
    {
        proof {
            assert(s@.skip(lo as int).drop_first() =~= s@.skip(lo + 1));
        }
        lo += 1;
    }
    let ghost mid = s@.skip(lo as int);
    let mut hi: usize = s.len();
    while hi > lo && is_white_space_char(s[hi - 1])
        invariant
            lo <= hi <= s@.len(),
            mid == s@.skip(lo as int),
            trim_end(mid) == trim_end(s@.subrange(lo as int, hi as int)),
        decreases hi,
    {
        proof {
            assert(s@.subrange(lo as int, hi as int).drop_last() =~= s@.subrange(
                lo as int,
                hi - 1,
            ));
        }
        hi -= 1;
    }
    proof {
        assert(s@.skip(lo as int) =~= s@.subrange(lo as int, s@.len() as int));
        if lo < s@.len() {
            assert(s@.skip(lo as int)[0] == s@[lo as int]);
        }
        assert(trim_start(s@.skip(lo as int)) == s@.skip(lo as int));
        if hi > lo {
            assert(s@.subrange(lo as int, hi as int).last() == s@[hi - 1]);
        }
    }
    slice_chars(s, lo, hi)
}


/// `line` without one trailing carriage return.
pub open spec fn strip_cr(line: Seq<char>) -> Seq<char> {
    if line.len() > 0 && line.last() == '\r' {
        line.drop_last()
    } else {
        line
    }
}

/// The lines finished so far and the one still open, after reading `s`.
pub open spec fn line_split(s: Seq<char>) -> (Seq<Seq<char>>, Seq<char>)
    decreases s.len(),
{
    if s.len() == 0 {
        (seq![], seq![])
    } else {
        let (done, cur) = line_split(s.drop_last());
        if s.last() == '\n' {
            (done.push(strip_cr(cur)), seq![])
        } else {
            (done, cur.push(s.last()))
        }
    }
}

/// The lines of `s` as `str::lines` yields them: split at `\n` or `\r\n`, with
/// no empty line after a final line ending.
pub open spec fn lines_of(s: Seq<char>) -> Seq<Seq<char>> {
    let (done, cur) = line_split(s);
    if cur.len() == 0 {
        done
    } else {
        done.push(cur)
    }
}

/// The views of a sequence of character vectors.
pub open spec fn char_vec_views(v: Seq<Vec<char>>) -> Seq<Seq<char>> {
    v.map_values(|x: Vec<char>| x@)
}

/// Splits `s` into its lines.
pub fn split_lines(s: &[char]) -> (r: Vec<Vec<char>>)
    ensures
        char_vec_views(r@) == lines_of(s@),
{
    let mut done: Vec<Vec<char>> = Vec::new();
    let mut cur: Vec<char> = Vec::new();
    let mut i: usize = 0;
    while i < s.len()
        invariant
            i <= s@.len(),
            line_split(s@.take(i as int)) == (char_vec_views(done@), cur@),
        decreases s@.len() - i,
    {
        proof {
            assert(s@.take(i + 1).drop_last() =~= s@.take(i as int));
        }
        if s[i] == '\n' {
            if cur.len() > 0 && cur[cur.len() - 1] == '\r' {
                cur.pop();
            }
            done.push(cur);
            cur = Vec::new();
            proof {
                assert(char_vec_views(done@) =~= line_split(s@.take(i + 1)).0);
            }
        } else {
            cur.push(s[i]);
        }
        i += 1;
    }
    proof {
        assert(s@.take(s@.len() as int) =~= s@);
    }
    if cur.len() > 0 {
        done.push(cur);
        proof {
            assert(char_vec_views(done@) =~= lines_of(s@));
        }
    }
    done
}

/// The position of the first `c` in `s`, if any.
pub open spec fn first_index(s: Seq<char>, c: char) -> Option<int>
    decreases s.len(),
{
    if s.len() == 0 {
        None
    } else if s[0] == c {
        Some(0)
    } else {
        match first_index(s.drop_first(), c) {
            Some(i) => Some(i + 1),
            None => None,
        }
    }
}

pub proof fn lemma_first_index(s: Seq<char>, c: char, i: int)
    requires
        0 <= i <= s.len(),
        forall|j: int| 0 <= j < i ==> s[j] != c,
    ensures
        i < s.len() && s[i] == c ==> first_index(s, c) == Some(i),
        i == s.len() ==> first_index(s, c) is None,
    decreases i,
{
    if i > 0 {
        lemma_first_index(s.drop_first(), c, i - 1);
    }
}

/// Finds the first `c` in `s`.
pub fn find_char(s: &[char], c: char) -> (r: Option<usize>)
    ensures
        match r {
            Some(i) => i < s@.len() && s@[i as int] == c && first_index(s@, c) == Some(i as int),
            None => first_index(s@, c) is None,
        },
{
    let mut i: usize = 0;
    while i < s.len()
        invariant
            i <= s@.len(),
            forall|j: int| 0 <= j < i ==> s@[j] != c,
        decreases s@.len() - i,
    {
        if s[i] == c {
            proof {
                lemma_first_index(s@, c, i as int);
            }
            return Some(i);
        }
        i += 1;
    }
    proof {
        lemma_first_index(s@, c, i as int);
    }
    None
}

/// The character that a backslash followed by `c` stands for.
pub open spec fn escaped(c: char) -> char {
    if c == 'n' {
        '\n'
    } else if c == 't' {
        '\t'
    } else if c == 'r' {
        '\r'
    } else {
        c
    }
}

/// `s` with its escapes replaced: `\n`, `\t`, `\r` and `\\` by newline, tab,
/// carriage return and backslash; a backslash before any other character is
/// dropped, as is a backslash at the very end.
pub open spec fn unescape_seq(s: Seq<char>) -> Seq<char>
    decreases s.len(),
{
    if s.len() == 0 {
        seq![]
    } else if s[0] == '\\' {
        if s.len() == 1 {
            seq![]
        } else {
            seq![escaped(s[1])] + unescape_seq(s.skip(2))
        }
    } else {
        seq![s[0]] + unescape_seq(s.skip(1))
    }
}

/// The characters of `s` with their escapes replaced (see `unescape_seq`).
pub fn unescape_chars(s: &[char]) -> (r: Vec<char>)
    ensures
        r@ == unescape_seq(s@),
{
    let mut r: Vec<char> = Vec::new();
    let mut i: usize = 0;
    proof {
        assert(s@.skip(0) =~= s@);
    }
    while i < s.len()
        invariant
            i <= s@.len(),
            r@ + unescape_seq(s@.skip(i as int)) == unescape_seq(s@),
        decreases s@.len() - i,
    {
        let ghost rest = s@.skip(i as int);
        if s[i] == '\\' {
            if i + 1 < s.len() {
                let n = s[i + 1];
                let e = if n == 'n' {
                    '\n'
                } else if n == 't' {
                    '\t'
                } else if n == 'r' {
                    '\r'
                } else {
                    n
                };
                r.push(e);
                proof {
                    assert(rest.skip(2) =~= s@.skip(i + 2));
                }
                i += 2;
            } else {
                proof {
                    assert(s@.skip(i + 1) =~= seq![]);
                }
                i += 1;
            }
        } else {
            r.push(s[i]);
            proof {
                assert(rest.skip(1) =~= s@.skip(i + 1));
            }
            i += 1;
        }
    }
    proof {
        assert(s@.skip(i as int) =~= seq![]);
        assert(r@ + seq![] =~= r@);
    }
    r
}


/// Whether `a` holds exactly the characters of `lit`.
pub fn chars_are(a: &[char], lit: &str) -> (r: bool)
    ensures
        r == (a@ == lit@),
{
    let l = chars_of(lit);
    if a.len() != l.len() {
        return false;
    }
    let mut i: usize = 0;
    while i < a.len()
        invariant
            i <= a@.len() == l@.len(),
            l@ == lit@,
            forall|j: int| 0 <= j < i ==> a@[j] == l@[j],
        decreases a@.len() - i,
    {
        if a[i] != l[i] {
            return false;
        }
        i += 1;
    }
    proof {
        assert(a@ =~= l@);
    }
    true
}

/// `notes` with every tab, carriage return and newline turned into a space.
pub open spec fn sanitized(notes: Seq<char>) -> Seq<char> {
    Seq::new(
        notes.len(),
        |i: int|
            if notes[i] == '\t' || notes[i] == '\r' || notes[i] == '\n' {
                ' '
            } else {
                notes[i]
            },
    )
}

/// Collapses each tab, carriage return or newline in `notes` to one space, so
/// that the notes fit in one table cell.
pub fn sanitize_notes(notes: &str) -> (r: String)
    ensures
        r@ == sanitized(notes@),
{
    let cs = chars_of(notes);
    let mut r = String::new();
    let mut i: usize = 0;
    while i < cs.len()
        invariant
            i <= cs@.len(),
            cs@ == notes@,
            r@ == sanitized(cs@).take(i as int),
        decreases cs@.len() - i,
    {
        let c = cs[i];
        if c == '\t' || c == '\r' || c == '\n' {
            r.push(' ');
        } else {
            r.push(c);
        }
        i += 1;
        proof {
            assert(r@ =~= sanitized(cs@).take(i as int));
        }
    }
    proof {
        assert(sanitized(cs@).take(i as int) =~= sanitized(cs@));
    }
    r
}

/// Replaces the escapes in `value` (see `unescape_seq`).
pub fn unescape(value: &str) -> (r: String)
    ensures
        r@ == unescape_seq(value@),
{
    let cs = chars_of(value);
    let u = unescape_chars(&cs);
    string_of(&u)
}

/// The boolean that `value` spells, or `default` for any other word.
pub open spec fn bool_word(value: Seq<char>, default: bool) -> bool {
    if value == "true"@ || value == "TRUE"@ || value == "True"@ || value == "1"@ || value
        == "yes"@ || value == "YES"@ || value == "Yes"@ {
        true
    } else if value == "false"@ || value == "FALSE"@ || value == "False"@ || value == "0"@
        || value == "no"@ || value == "NO"@ || value == "No"@ {
        false
    } else {
        default
    }
}

/// Reads a boolean word; an unknown or empty word gives `default`.
pub fn parse_bool(value: &str, default: bool) -> (r: bool)
    ensures
        r == bool_word(value@, default),
{
    let v = chars_of(value);
    if chars_are(&v, "true") || chars_are(&v, "TRUE") || chars_are(&v, "True") || chars_are(
        &v,
        "1",
    ) || chars_are(&v, "yes") || chars_are(&v, "YES") || chars_are(&v, "Yes") {
        true
    } else if chars_are(&v, "false") || chars_are(&v, "FALSE") || chars_are(&v, "False")
        || chars_are(&v, "0") || chars_are(&v, "no") || chars_are(&v, "NO") || chars_are(
        &v,
        "No",
    ) {
        false
    } else {
        default
    }
}

/// Whether `c` is an ASCII decimal digit.
pub open spec fn is_digit(c: char) -> bool {
    '0' <= c <= '9'
}

/// The number that the decimal digits `s` spell.
pub open spec fn digits_value(s: Seq<char>) -> int
    decreases s.len(),
{
    if s.len() == 0 {
        0
    } else {
        digits_value(s.drop_last()) * 10 + (s.last() as int - '0' as int)
    }
}

/// The digits of a number in `usize` syntax: an optional `+`, then the digits.
pub open spec fn unsigned_digits(s: Seq<char>) -> Seq<char> {
    if s.len() > 0 && s[0] == '+' {
        s.drop_first()
    } else {
        s
    }
}

/// The `usize` that `s` spells as `str::parse::<usize>` reads it, if any: at
/// least one decimal digit after an optional `+`, and no more than `usize::MAX`.
pub open spec fn usize_value(s: Seq<char>) -> Option<usize> {
    let d = unsigned_digits(s);
    if d.len() > 0 && (forall|i: int| 0 <= i < d.len() ==> is_digit(d[i])) && digits_value(d)
        <= usize::MAX {
        Some(digits_value(d) as usize)
    } else {
        None
    }
}

proof fn lemma_digits_grow(s: Seq<char>, j: int)
    requires
        0 <= j <= s.len(),
        forall|i: int| 0 <= i < s.len() ==> is_digit(s[i]),
    ensures
        0 <= digits_value(s.take(j)) <= digits_value(s),
    decreases s.len(),
{
    if s.len() > 0 {
        if j == s.len() {
            assert(s.take(j) =~= s);
            lemma_digits_grow(s.drop_last(), j - 1);
        } else {
            lemma_digits_grow(s.drop_last(), j);
            assert(s.drop_last().take(j) =~= s.take(j));
        }
    }
}

/// Reads a non-negative integer, or fails with `invalid integer: <value>`.
pub fn parse_usize(value: &str) -> (r: Result<usize, String>)
    ensures
        match r {
            Ok(n) => usize_value(value@) == Some(n),
            Err(e) => usize_value(value@) is None && e@ == "invalid integer: "@ + value@,
        },
{
    let cs = chars_of(value);
    let mut start: usize = 0;
    if cs.len() > 0 && cs[0] == '+' {
        start = 1;
    }
    let ghost d = unsigned_digits(cs@);
    proof {
        assert(d =~= cs@.skip(start as int));
    }
    let mut ok = start < cs.len();
    let mut n: usize = 0;
    let mut i: usize = start;
    while ok && i < cs.len()
        invariant
            start <= i <= cs@.len(),
            cs@ == value@,
            d == cs@.skip(start as int),
            d == unsigned_digits(value@),
            ok ==> d.len() > 0,
            ok ==> forall|k: int| 0 <= k < i - start ==> is_digit(d[k]),
            ok ==> n == digits_value(d.take(i - start)),
            !ok ==> usize_value(value@) is None,
        decreases cs@.len() - i,
    {
        let c = cs[i];
        if '0' <= c && c <= '9' {
            let digit = (c as u32 - '0' as u32) as usize;
            proof {
                assert(d.take(i - start + 1).drop_last() =~= d.take(i - start));
                assert(d.take(i - start + 1).last() == c);
                assert(digits_value(d.take(i - start + 1)) == n * 10 + digit);
            }
            if n > (usize::MAX - digit) / 10 {
                ok = false;
                proof {
                    assert(n * 10 + digit > usize::MAX) by (nonlinear_arith)
                        requires
                            n > (usize::MAX - digit) / 10,
                            digit <= 9,
                    ;
                    if (forall|k: int| 0 <= k < d.len() ==> is_digit(d[k])) {
                        lemma_digits_grow(d, i - start + 1);
                        assert(digits_value(d) > usize::MAX);
                    }
                }
            } else {
                n = n * 10 + digit;
            }
        } else {
            ok = false;
            proof {
                assert(d[i - start] == c);
                assert(!is_digit(d[i - start]));
            }
        }
        i += 1;
    }
    if ok {
        proof {
            assert(d.take(i - start) =~= d);
        }
        Ok(n)
    } else {
        let mut e = String::from_str("invalid integer: ");
        e.append(value);
        Err(e)
    }
}


/// The decimal digit character for `d`.
pub open spec fn digit_char(d: nat) -> char {
    ((48 + d) as u8) as char
}

/// The decimal notation of `n`, without leading zeros.
pub open spec fn decimal(n: nat) -> Seq<char>
    decreases n,
{
    if n < 10 {
        seq![digit_char(n)]
    } else {
        decimal(n / 10).push(digit_char(n % 10))
    }
}

/// Appends the decimal notation of `n` to `out`.
pub fn push_decimal(out: &mut String, n: u64)
    ensures
        final(out)@ == old(out)@ + decimal(n as nat),
    decreases n,
{
    if n >= 10 {
        push_decimal(out, n / 10);
    }
    let d = (n % 10) as u8;
    out.push((48u8 + d) as char);
    proof {
        assert(final(out)@ =~= old(out)@ + decimal(n as nat));
    }
}

/// The word for a boolean, as `bool`'s `Display` writes it.
pub open spec fn bool_text(b: bool) -> Seq<char> {
    if b {
        "true"@
    } else {
        "false"@
    }
}

/// Appends the word for `b` to `out`.
pub fn push_bool(out: &mut String, b: bool)
    ensures
        final(out)@ == old(out)@ + bool_text(b),
{
    out.append(if b {
        "true"
    } else {
        "false"
    });
}


/// `lines` written one after another, each ended by a newline.
pub open spec fn lines_text(lines: Seq<Seq<char>>) -> Seq<char>
    decreases lines.len(),
{
    if lines.len() == 0 {
        seq![]
    } else {
        lines_text(lines.drop_last()) + lines.last() + seq!['\n']
    }
}

/// A line that reads back as itself: no newline in it, no carriage return
/// at its end.
pub open spec fn plain_line(line: Seq<char>) -> bool {
    &&& forall|i: int| 0 <= i < line.len() ==> line[i] != '\n'
    &&& (line.len() == 0 || line.last() != '\r')
}

proof fn lemma_split_extend(s: Seq<char>, l: Seq<char>)
    requires
        forall|i: int| 0 <= i < l.len() ==> l[i] != '\n',
    ensures
        line_split(s + l) == (line_split(s).0, line_split(s).1 + l),
    decreases l.len(),
{
    if l.len() == 0 {
        assert(s + l =~= s);
        assert(line_split(s).1 + l =~= line_split(s).1);
    } else {
        assert((s + l).drop_last() =~= s + l.drop_last());
        lemma_split_extend(s, l.drop_last());
        assert(line_split(s).1 + l.drop_last() + seq![l.last()] =~= line_split(s).1 + l);
        assert((s + l).last() == l.last());
    }
}

/// Lines that each read back as themselves, written each with a newline,
/// read back as the same lines.
pub proof fn lemma_lines_text(lines: Seq<Seq<char>>)
    requires
        forall|i: int| 0 <= i < lines.len() ==> plain_line(#[trigger] lines[i]),
    ensures
        line_split(lines_text(lines)) == (lines, Seq::<char>::empty()),
        lines_of(lines_text(lines)) == lines,
    decreases lines.len(),
{
    if lines.len() > 0 {
        let front = lines.drop_last();
        assert forall|i: int| 0 <= i < front.len() implies plain_line(#[trigger] front[i]) by {
            assert(front[i] == lines[i]);
        }
        lemma_lines_text(front);
        let l = lines.last();
        assert(plain_line(lines[lines.len() - 1]));
        let t = lines_text(front);
        lemma_split_extend(t, l);
        assert(seq![] + l =~= l);
        let whole = t + l + seq!['\n'];
        assert(whole.drop_last() =~= t + l);
        assert(lines_text(lines) == whole);
        assert(strip_cr(l) == l);
        assert(front.push(l) =~= lines);
    }
}

proof fn lemma_trim_start_len(s: Seq<char>)
    ensures
        trim_start(s).len() <= s.len(),
        s.len() > 0 && is_white_space(s[0]) ==> trim_start(s).len() < s.len(),
    decreases s.len(),
{
    if s.len() > 0 && is_white_space(s[0]) {
        lemma_trim_start_len(s.drop_first());
    }
}

proof fn lemma_trim_end_len(s: Seq<char>)
    ensures
        trim_end(s).len() <= s.len(),
        s.len() > 0 && is_white_space(s.last()) ==> trim_end(s).len() < s.len(),
    decreases s.len(),
{
    if s.len() > 0 && is_white_space(s.last()) {
        lemma_trim_end_len(s.drop_last());
    }
}

/// A text that trimming leaves alone neither starts nor ends with white space.
pub proof fn lemma_trimmed_ends(s: Seq<char>)
    requires
        trim(s) == s,
        s.len() > 0,
    ensures
        !is_white_space(s[0]),
        !is_white_space(s.last()),
{
    lemma_trim_start_len(s);
    lemma_trim_end_len(trim_start(s));
    if !is_white_space(s[0]) {
        assert(trim_start(s) == s);
        lemma_trim_end_len(s);
    }
}

/// A text whose ends are not white space is its own trim.
pub proof fn lemma_trim_keeps(s: Seq<char>)
    requires
        s.len() > 0,
        !is_white_space(s[0]),
        !is_white_space(s.last()),
    ensures
        trim(s) == s,
{
    assert(trim_start(s) == s);
}

} // verus!
