//! The configuration language: records of `key=value` lines separated by
//! `---` lines, read into functionality cases or performance scenarios.

use vstd::prelude::*;

use crate::text::{
    bool_word, chars_are, chars_of, find_char, first_index, lines_of, slice_chars, split_lines,
    string_of, trim, trim_chars, unescape_chars, unescape_seq, usize_value, parse_usize,
    char_vec_views, is_white_space, lemma_first_index, lemma_lines_text, lemma_trim_keeps,
    lemma_trimmed_ends, lines_text, plain_line,
};

verus! {

/// How one line of a configuration file reads.
pub enum LineKind {
    Blank,
    Separator,
    Entry { key: Seq<char>, value: Seq<char> },
    Malformed,
}

/// A line is blank or a separator by its trimmed text; otherwise it must hold
/// an `=`, and the key and the unescaped value are the trimmed text on either
/// side of the first one.
pub open spec fn classify(line: Seq<char>) -> LineKind {
    let t = trim(line);
    if t.len() == 0 {
        LineKind::Blank
    } else if t == "---"@ {
        LineKind::Separator
    } else {
        match first_index(line, '=') {
            Some(i) => LineKind::Entry {
                key: trim(line.take(i)),
                value: unescape_seq(trim(line.skip(i + 1))),
            },
            None => LineKind::Malformed,
        }
    }
}

/// The reader's state after some lines: the records finished, the record
/// being filled, and whether any key was set in it.
pub type Progress<R> = (Seq<R>, R, bool);

/// One line's effect on the reader's state.
pub open spec fn step<R>(
    st: Progress<R>,
    line: Seq<char>,
    fresh: R,
    apply: spec_fn(R, Seq<char>, Seq<char>) -> Result<R, Seq<char>>,
) -> Result<Progress<R>, Seq<char>> {
    let (done, cur, open) = st;
    match classify(line) {
        LineKind::Blank => Ok(st),
        LineKind::Separator => if open {
            Ok((done.push(cur), fresh, false))
        } else {
            Ok(st)
        },
        LineKind::Entry { key, value } => match apply(cur, key, value) {
            Ok(c) => Ok((done, c, true)),
            Err(e) => Err(e),
        },
        LineKind::Malformed => Err("invalid line: "@ + line),
    }
}

/// The reader's state after `lines`, or the first error.
pub open spec fn fold_lines<R>(
    lines: Seq<Seq<char>>,
    fresh: R,
    apply: spec_fn(R, Seq<char>, Seq<char>) -> Result<R, Seq<char>>,
) -> Result<Progress<R>, Seq<char>>
    decreases lines.len(),
{
    if lines.len() == 0 {
        Ok((seq![], fresh, false))
    } else {
        match fold_lines(lines.drop_last(), fresh, apply) {
            Ok(st) => step(st, lines.last(), fresh, apply),
            Err(e) => Err(e),
        }
    }
}

/// The records that `content` holds, each begun from `fresh` and filled by
/// `apply` key by key; a record in which no key was set is not one.
pub open spec fn parse_records<R>(
    content: Seq<char>,
    fresh: R,
    apply: spec_fn(R, Seq<char>, Seq<char>) -> Result<R, Seq<char>>,
) -> Result<Seq<R>, Seq<char>> {
    match fold_lines(lines_of(content), fresh, apply) {
        Ok((done, cur, open)) => Ok(
            if open {
                done.push(cur)
            } else {
                done
            },
        ),
        Err(e) => Err(e),
    }
}

/// Once reading has failed, later lines do not change the error.
pub proof fn lemma_error_sticks<R>(
    lines: Seq<Seq<char>>,
    j: int,
    fresh: R,
    apply: spec_fn(R, Seq<char>, Seq<char>) -> Result<R, Seq<char>>,
)
    requires
        0 <= j <= lines.len(),
        fold_lines(lines.take(j), fresh, apply) is Err,
    ensures
        fold_lines(lines, fresh, apply) == fold_lines(lines.take(j), fresh, apply),
    decreases lines.len() - j,
{
    if j < lines.len() {
        assert(lines.take(j + 1).drop_last() =~= lines.take(j));
        lemma_error_sticks(lines, j + 1, fresh, apply);
    } else {
        assert(lines.take(j) =~= lines);
    }
}

/// A line as the reader sees it.
pub enum LineRead {
    Blank,
    Separator,
    Entry { key: Vec<char>, value: String },
    Malformed,
}

/// Reads one line.
pub fn read_line(line: &[char]) -> (r: LineRead)
    ensures
        match (r, classify(line@)) {
            (LineRead::Blank, LineKind::Blank) => true,
            (LineRead::Separator, LineKind::Separator) => true,
            (LineRead::Entry { key, value }, LineKind::Entry { key: k, value: v }) => key@ == k
                && value@ == v,
            (LineRead::Malformed, LineKind::Malformed) => true,
            _ => false,
        },
{
    let t = trim_chars(line);
    if t.len() == 0 {
        return LineRead::Blank;
    }
    if chars_are(&t, "---") {
        return LineRead::Separator;
    }
    let n = line.len();
    match find_char(line, '=') {
        Some(i) => {
            let k = slice_chars(line, 0, i);
            let v = slice_chars(line, i + 1, n);
            proof {
                assert(k@ =~= line@.take(i as int));
                assert(v@ =~= line@.skip(i + 1));
            }
            let key = trim_chars(&k);
            let tv = trim_chars(&v);
            let u = unescape_chars(&tv);
            LineRead::Entry { key, value: string_of(&u) }
        },
        None => LineRead::Malformed,
    }
}


/// One functionality case.
#[derive(Debug)]
pub struct TestCase {
    pub name: String,
    pub pattern: String,
    pub text: String,
    pub should_compile: bool,
    pub should_match: bool,
    pub verify_full_match: bool,
    pub expected_match: String,
    pub description: String,
}

/// A case as its contracts see it.
pub struct TestCaseView {
    pub name: Seq<char>,
    pub pattern: Seq<char>,
    pub text: Seq<char>,
    pub should_compile: bool,
    pub should_match: bool,
    pub verify_full_match: bool,
    pub expected_match: Seq<char>,
    pub description: Seq<char>,
}

impl View for TestCase {
    type V = TestCaseView;

    open spec fn view(&self) -> TestCaseView {
        TestCaseView {
            name: self.name@,
            pattern: self.pattern@,
            text: self.text@,
            should_compile: self.should_compile,
            should_match: self.should_match,
            verify_full_match: self.verify_full_match,
            expected_match: self.expected_match@,
            description: self.description@,
        }
    }
}

/// A case before any key is read: it should compile, and need not match.
pub open spec fn default_case() -> TestCaseView {
    TestCaseView {
        name: seq![],
        pattern: seq![],
        text: seq![],
        should_compile: true,
        should_match: false,
        verify_full_match: false,
        expected_match: seq![],
        description: seq![],
    }
}

impl Default for TestCase {
    fn default() -> (r: TestCase)
        ensures
            r@ == default_case(),
    {
        TestCase {
            name: String::new(),
            pattern: String::new(),
            text: String::new(),
            should_compile: true,
            should_match: false,
            verify_full_match: false,
            expected_match: String::new(),
            description: String::new(),
        }
    }
}

/// The case `c` with `key` set to `value`, or the error for an unknown key.
pub open spec fn set_case_field(c: TestCaseView, key: Seq<char>, value: Seq<char>) -> Result<
    TestCaseView,
    Seq<char>,
> {
    if key == "name"@ {
        Ok(TestCaseView { name: value, ..c })
    } else if key == "pattern"@ {
        Ok(TestCaseView { pattern: value, ..c })
    } else if key == "text"@ {
        Ok(TestCaseView { text: value, ..c })
    } else if key == "should_compile"@ {
        Ok(TestCaseView { should_compile: bool_word(value, true), ..c })
    } else if key == "should_match"@ {
        Ok(TestCaseView { should_match: bool_word(value, false), ..c })
    } else if key == "verify_full_match"@ {
        Ok(TestCaseView { verify_full_match: bool_word(value, false), ..c })
    } else if key == "expected"@ {
        Ok(TestCaseView { expected_match: value, ..c })
    } else if key == "description"@ {
        Ok(TestCaseView { description: value, ..c })
    } else {
        Err("unknown key: "@ + key)
    }
}

/// How a key sets a field of a case.
pub open spec fn case_fields() -> spec_fn(TestCaseView, Seq<char>, Seq<char>) -> Result<
    TestCaseView,
    Seq<char>,
> {
    |c: TestCaseView, k: Seq<char>, v: Seq<char>| set_case_field(c, k, v)
}

/// The views of a sequence of cases.
pub open spec fn case_views(v: Seq<TestCase>) -> Seq<TestCaseView> {
    v.map_values(|c: TestCase| c@)
}

/// The error for an unknown key.
fn unknown_key(key: &[char]) -> (r: String)
    ensures
        r@ == "unknown key: "@ + key@,
{
    let mut e = String::from_str("unknown key: ");
    let k = string_of(key);
    e.append(k.as_str());
    e
}

impl TestCase {
    /// Sets the field that `key` names to `value`.
    pub fn set_field(&mut self, key: &[char], value: String) -> (r: Result<(), String>)
        ensures
            match set_case_field(old(self)@, key@, value@) {
                Ok(c) => r is Ok && final(self)@ == c,
                Err(e) => r is Err && r->Err_0@ == e,
            },
    {
        if chars_are(key, "name") {
            self.name = value;
        } else if chars_are(key, "pattern") {
            self.pattern = value;
        } else if chars_are(key, "text") {
            self.text = value;
        } else if chars_are(key, "should_compile") {
            self.should_compile = crate::text::parse_bool(value.as_str(), true);
        } else if chars_are(key, "should_match") {
            self.should_match = crate::text::parse_bool(value.as_str(), false);
        } else if chars_are(key, "verify_full_match") {
            self.verify_full_match = crate::text::parse_bool(value.as_str(), false);
        } else if chars_are(key, "expected") {
            self.expected_match = value;
        } else if chars_are(key, "description") {
            self.description = value;
        } else {
            return Err(unknown_key(key));
        }
        Ok(())
    }
}

/// Reads the functionality cases that `content` holds.
pub fn parse_test_cases(content: &str) -> (r: Result<Vec<TestCase>, String>)
    ensures
        match r {
            Ok(v) => parse_records(content@, default_case(), case_fields()) == Ok::<
                Seq<TestCaseView>,
                Seq<char>,
            >(case_views(v@)),
            Err(e) => parse_records(content@, default_case(), case_fields()) == Err::<
                Seq<TestCaseView>,
                Seq<char>,
            >(e@),
        },
{
    let cs = chars_of(content);
    let lines = split_lines(&cs);
    let ghost ls = lines_of(content@);
    let mut cases: Vec<TestCase> = Vec::new();
    let mut cur = TestCase::default();
    let mut open = false;
    let mut i: usize = 0;
    proof {
        assert(ls.take(0) =~= seq![]);
        assert(case_views(cases@) =~= seq![]);
    }
    while i < lines.len()
        invariant
            i <= lines@.len(),
            ls == char_vec_views(lines@),
            ls == lines_of(content@),
            fold_lines(ls.take(i as int), default_case(), case_fields()) == Ok::<
                Progress<TestCaseView>,
                Seq<char>,
            >((case_views(cases@), cur@, open)),
        decreases lines@.len() - i,
    {
        proof {
            assert(ls.take(i + 1).drop_last() =~= ls.take(i as int));
            assert(ls.take(i + 1).last() == lines@[i as int]@);
        }
        let line = &lines[i];
        match read_line(line.as_slice()) {
            LineRead::Blank => {},
            LineRead::Separator => {
                if open {
                    let ghost prev = case_views(cases@);
                    let ghost last = cur@;
                    cases.push(cur);
                    cur = TestCase::default();
                    open = false;
                    proof {
                        assert(case_views(cases@) =~= prev.push(last));
                    }
                }
            },
            LineRead::Entry { key, value } => {
                match cur.set_field(key.as_slice(), value) {
                    Ok(()) => {
                        open = true;
                    },
                    Err(e) => {
                        proof {
                            lemma_error_sticks(ls, i + 1, default_case(), case_fields());
                        }
                        return Err(e);
                    },
                }
            },
            LineRead::Malformed => {
                let mut e = String::from_str("invalid line: ");
                let l = string_of(line.as_slice());
                e.append(l.as_str());
                proof {
                    lemma_error_sticks(ls, i + 1, default_case(), case_fields());
                }
                return Err(e);
            },
        }
        i += 1;
    }
    proof {
        assert(ls.take(i as int) =~= ls);
    }
    if open {
        let ghost prev = case_views(cases@);
        let ghost last = cur@;
        cases.push(cur);
        proof {
            assert(case_views(cases@) =~= prev.push(last));
        }
    }
    Ok(cases)
}


impl TestCase {
    /// A field-for-field copy.
    pub fn copied(&self) -> (r: TestCase)
        ensures
            r@ == self@,
    {
        TestCase {
            name: self.name.clone(),
            pattern: self.pattern.clone(),
            text: self.text.clone(),
            should_compile: self.should_compile,
            should_match: self.should_match,
            verify_full_match: self.verify_full_match,
            expected_match: self.expected_match.clone(),
            description: self.description.clone(),
        }
    }
}

/// One performance scenario.
#[derive(Debug)]
pub struct PerfScenario {
    pub name: String,
    pub pattern: String,
    pub text_strategy: String,
    pub text_base: String,
    pub text_size: usize,
    pub iterations: usize,
    pub should_match: bool,
    pub insert_interval: usize,
    pub anchor_prefix: String,
    pub anchor_suffix: String,
    pub description: String,
}

/// A scenario as its contracts see it.
pub struct PerfScenarioView {
    pub name: Seq<char>,
    pub pattern: Seq<char>,
    pub text_strategy: Seq<char>,
    pub text_base: Seq<char>,
    pub text_size: usize,
    pub iterations: usize,
    pub should_match: bool,
    pub insert_interval: usize,
    pub anchor_prefix: Seq<char>,
    pub anchor_suffix: Seq<char>,
    pub description: Seq<char>,
}

impl View for PerfScenario {
    type V = PerfScenarioView;

    open spec fn view(&self) -> PerfScenarioView {
        PerfScenarioView {
            name: self.name@,
            pattern: self.pattern@,
            text_strategy: self.text_strategy@,
            text_base: self.text_base@,
            text_size: self.text_size,
            iterations: self.iterations,
            should_match: self.should_match,
            insert_interval: self.insert_interval,
            anchor_prefix: self.anchor_prefix@,
            anchor_suffix: self.anchor_suffix@,
            description: self.description@,
        }
    }
}

/// A scenario before any key is read: repeat strategy, one iteration, a
/// match expected, injections every 512 bytes.
pub open spec fn default_scenario() -> PerfScenarioView {
    PerfScenarioView {
        name: seq![],
        pattern: seq![],
        text_strategy: "repeat"@,
        text_base: seq![],
        text_size: 0,
        iterations: 1,
        should_match: true,
        insert_interval: 512,
        anchor_prefix: seq![],
        anchor_suffix: seq![],
        description: seq![],
    }
}

impl Default for PerfScenario {
    fn default() -> (r: PerfScenario)
        ensures
            r@ == default_scenario(),
    {
        PerfScenario {
            name: String::new(),
            pattern: String::new(),
            text_strategy: String::from_str("repeat"),
            text_base: String::new(),
            text_size: 0,
            iterations: 1,
            should_match: true,
            insert_interval: 512,
            anchor_prefix: String::new(),
            anchor_suffix: String::new(),
            description: String::new(),
        }
    }
}

/// The count that `value` spells, or the error for one that is no count.
pub open spec fn count_field(value: Seq<char>) -> Result<usize, Seq<char>> {
    match usize_value(value) {
        Some(n) => Ok(n),
        None => Err("invalid integer: "@ + value),
    }
}

/// The scenario `s` with `key` set to `value`, or the error for an unknown
/// key or a count that does not read.
pub open spec fn set_scenario_field(s: PerfScenarioView, key: Seq<char>, value: Seq<char>) -> Result<
    PerfScenarioView,
    Seq<char>,
> {
    if key == "name"@ {
        Ok(PerfScenarioView { name: value, ..s })
    } else if key == "pattern"@ {
        Ok(PerfScenarioView { pattern: value, ..s })
    } else if key == "text_strategy"@ {
        Ok(PerfScenarioView { text_strategy: value, ..s })
    } else if key == "text_base"@ {
        Ok(PerfScenarioView { text_base: value, ..s })
    } else if key == "text_size"@ {
        match count_field(value) {
            Ok(n) => Ok(PerfScenarioView { text_size: n, ..s }),
            Err(e) => Err(e),
        }
    } else if key == "iterations"@ {
        match count_field(value) {
            Ok(n) => Ok(PerfScenarioView { iterations: n, ..s }),
            Err(e) => Err(e),
        }
    } else if key == "should_match"@ {
        Ok(PerfScenarioView { should_match: bool_word(value, true), ..s })
    } else if key == "insert_interval"@ {
        match count_field(value) {
            Ok(n) => Ok(PerfScenarioView { insert_interval: n, ..s }),
            Err(e) => Err(e),
        }
    } else if key == "anchor_prefix"@ {
        Ok(PerfScenarioView { anchor_prefix: value, ..s })
    } else if key == "anchor_suffix"@ {
        Ok(PerfScenarioView { anchor_suffix: value, ..s })
    } else if key == "description"@ {
        Ok(PerfScenarioView { description: value, ..s })
    } else {
        Err("unknown key: "@ + key)
    }
}

/// How a key sets a field of a scenario.
pub open spec fn scenario_fields() -> spec_fn(PerfScenarioView, Seq<char>, Seq<char>) -> Result<
    PerfScenarioView,
    Seq<char>,
> {
    |s: PerfScenarioView, k: Seq<char>, v: Seq<char>| set_scenario_field(s, k, v)
}

/// The views of a sequence of scenarios.
pub open spec fn scenario_views(v: Seq<PerfScenario>) -> Seq<PerfScenarioView> {
    v.map_values(|s: PerfScenario| s@)
}

impl PerfScenario {
    /// Sets the field that `key` names to `value`.
    pub fn set_field(&mut self, key: &[char], value: String) -> (r: Result<(), String>)
        ensures
            match set_scenario_field(old(self)@, key@, value@) {
                Ok(s) => r is Ok && final(self)@ == s,
                Err(e) => r is Err && r->Err_0@ == e,
            },
    {
        if chars_are(key, "name") {
            self.name = value;
        } else if chars_are(key, "pattern") {
            self.pattern = value;
        } else if chars_are(key, "text_strategy") {
            self.text_strategy = value;
        } else if chars_are(key, "text_base") {
            self.text_base = value;
        } else if chars_are(key, "text_size") {
            self.text_size = parse_usize(value.as_str())?;
        } else if chars_are(key, "iterations") {
            self.iterations = parse_usize(value.as_str())?;
        } else if chars_are(key, "should_match") {
            self.should_match = crate::text::parse_bool(value.as_str(), true);
        } else if chars_are(key, "insert_interval") {
            self.insert_interval = parse_usize(value.as_str())?;
        } else if chars_are(key, "anchor_prefix") {
            self.anchor_prefix = value;
        } else if chars_are(key, "anchor_suffix") {
            self.anchor_suffix = value;
        } else if chars_are(key, "description") {
            self.description = value;
        } else {
            return Err(unknown_key(key));
        }
        Ok(())
    }

    /// A field-for-field copy.
    pub fn copied(&self) -> (r: PerfScenario)
        ensures
            r@ == self@,
    {
        PerfScenario {
            name: self.name.clone(),
            pattern: self.pattern.clone(),
            text_strategy: self.text_strategy.clone(),
            text_base: self.text_base.clone(),
            text_size: self.text_size,
            iterations: self.iterations,
            should_match: self.should_match,
            insert_interval: self.insert_interval,
            anchor_prefix: self.anchor_prefix.clone(),
            anchor_suffix: self.anchor_suffix.clone(),
            description: self.description.clone(),
        }
    }
}

/// Reads the performance scenarios that `content` holds.
pub fn parse_performance_scenarios(content: &str) -> (r: Result<Vec<PerfScenario>, String>)
    ensures
        match r {
            Ok(v) => parse_records(content@, default_scenario(), scenario_fields()) == Ok::<
                Seq<PerfScenarioView>,
                Seq<char>,
            >(scenario_views(v@)),
            Err(e) => parse_records(content@, default_scenario(), scenario_fields()) == Err::<
                Seq<PerfScenarioView>,
                Seq<char>,
            >(e@),
        },
{
    let cs = chars_of(content);
    let lines = split_lines(&cs);
    let ghost ls = lines_of(content@);
    let mut scenarios: Vec<PerfScenario> = Vec::new();
    let mut cur = PerfScenario::default();
    let mut open = false;
    let mut i: usize = 0;
    proof {
        assert(ls.take(0) =~= seq![]);
        assert(scenario_views(scenarios@) =~= seq![]);
    }
    while i < lines.len()
        invariant
            i <= lines@.len(),
            ls == char_vec_views(lines@),
            ls == lines_of(content@),
            fold_lines(ls.take(i as int), default_scenario(), scenario_fields()) == Ok::<
                Progress<PerfScenarioView>,
                Seq<char>,
            >((scenario_views(scenarios@), cur@, open)),
        decreases lines@.len() - i,
    {
        proof {
            assert(ls.take(i + 1).drop_last() =~= ls.take(i as int));
            assert(ls.take(i + 1).last() == lines@[i as int]@);
        }
        let line = &lines[i];
        match read_line(line.as_slice()) {
            LineRead::Blank => {},
            LineRead::Separator => {
                if open {
                    let ghost prev = scenario_views(scenarios@);
                    let ghost last = cur@;
                    scenarios.push(cur);
                    cur = PerfScenario::default();
                    open = false;
                    proof {
                        assert(scenario_views(scenarios@) =~= prev.push(last));
                    }
                }
            },
            LineRead::Entry { key, value } => {
                match cur.set_field(key.as_slice(), value) {
                    Ok(()) => {
                        open = true;
                    },
                    Err(e) => {
                        proof {
                            lemma_error_sticks(ls, i + 1, default_scenario(), scenario_fields());
                        }
                        return Err(e);
                    },
                }
            },
            LineRead::Malformed => {
                let mut e = String::from_str("invalid line: ");
                let l = string_of(line.as_slice());
                e.append(l.as_str());
                proof {
                    lemma_error_sticks(ls, i + 1, default_scenario(), scenario_fields());
                }
                return Err(e);
            },
        }
        i += 1;
    }
    proof {
        assert(ls.take(i as int) =~= ls);
    }
    if open {
        let ghost prev = scenario_views(scenarios@);
        let ghost last = cur@;
        scenarios.push(cur);
        proof {
            assert(scenario_views(scenarios@) =~= prev.push(last));
        }
    }
    Ok(scenarios)
}


/// A `key=value` line as written, before trimming and unescaping.
pub type Entry = (Seq<char>, Seq<char>);

/// The line `key=value` for an entry.
pub open spec fn entry_line(e: Entry) -> Seq<char> {
    e.0 + seq!['='] + e.1
}

/// An entry that is written on one line and reads back as itself: key and
/// value untouched by trimming, no `=` in the key, no newline in either.
pub open spec fn entry_ok(e: Entry) -> bool {
    &&& trim(e.0) == e.0
    &&& trim(e.1) == e.1
    &&& forall|i: int| 0 <= i < e.0.len() ==> e.0[i] != '=' && e.0[i] != '\n'
    &&& forall|i: int| 0 <= i < e.1.len() ==> e.1[i] != '\n'
}

/// The lines of a record written from `entries`.
pub open spec fn record_lines(entries: Seq<Entry>) -> Seq<Seq<char>> {
    entries.map_values(|e: Entry| entry_line(e))
}

/// The record that `entries` fill in, one after another, from `fresh`.
pub open spec fn fill<R>(
    fresh: R,
    entries: Seq<Entry>,
    apply: spec_fn(R, Seq<char>, Seq<char>) -> Result<R, Seq<char>>,
) -> Result<R, Seq<char>>
    decreases entries.len(),
{
    if entries.len() == 0 {
        Ok(fresh)
    } else {
        match fill(fresh, entries.drop_last(), apply) {
            Ok(c) => apply(c, entries.last().0, unescape_seq(entries.last().1)),
            Err(e) => Err(e),
        }
    }
}

proof fn lemma_classify_entry(e: Entry)
    requires
        entry_ok(e),
    ensures
        classify(entry_line(e)) == (LineKind::Entry { key: e.0, value: unescape_seq(e.1) }),
        plain_line(entry_line(e)),
{
    let line = entry_line(e);
    let i = e.0.len() as int;
    assert(line[i] == '=');
    assert forall|j: int| 0 <= j < i implies line[j] != '=' by {
        assert(line[j] == e.0[j]);
    }
    lemma_first_index(line, '=', i);
    assert(line.take(i) =~= e.0);
    assert(line.skip(i + 1) =~= e.1);
    assert(!is_white_space('='));
    if e.0.len() > 0 {
        lemma_trimmed_ends(e.0);
        assert(line[0] == e.0[0]);
    }
    if e.1.len() > 0 {
        lemma_trimmed_ends(e.1);
        assert(line.last() == e.1.last());
    }
    lemma_trim_keeps(line);
    reveal_strlit("---");
    assert(line != "---"@) by {
        if line == "---"@ {
            assert(line[i] == '-');
        }
    }
    assert forall|j: int| 0 <= j < line.len() implies line[j] != '\n' by {
        if j < i {
            assert(line[j] == e.0[j]);
        } else if j > i {
            assert(line[j] == e.1[j - i - 1]);
        }
    }
}

proof fn lemma_classify_separator()
    ensures
        classify("---"@) == LineKind::Separator,
        plain_line("---"@),
{
    reveal_strlit("---");
    lemma_trim_keeps("---"@);
}

proof fn lemma_fill_prefix<R>(
    fresh: R,
    entries: Seq<Entry>,
    k: int,
    apply: spec_fn(R, Seq<char>, Seq<char>) -> Result<R, Seq<char>>,
)
    requires
        0 <= k <= entries.len(),
        fill(fresh, entries, apply) is Ok,
    ensures
        fill(fresh, entries.take(k), apply) is Ok,
    decreases entries.len() - k,
{
    if k == entries.len() {
        assert(entries.take(k) =~= entries);
    } else {
        lemma_fill_prefix(fresh, entries, k + 1, apply);
        assert(entries.take(k + 1).drop_last() =~= entries.take(k));
    }
}

proof fn lemma_fold_run<R>(
    lines: Seq<Seq<char>>,
    start: int,
    entries: Seq<Entry>,
    done: Seq<R>,
    fresh: R,
    apply: spec_fn(R, Seq<char>, Seq<char>) -> Result<R, Seq<char>>,
    k: int,
)
    requires
        0 <= start,
        start + entries.len() <= lines.len(),
        forall|i: int| 0 <= i < entries.len() ==> lines[start + i] == entry_line(entries[i]),
        forall|i: int| 0 <= i < entries.len() ==> entry_ok(#[trigger] entries[i]),
        fold_lines(lines.take(start), fresh, apply) == Ok::<Progress<R>, Seq<char>>(
            (done, fresh, false),
        ),
        fill(fresh, entries, apply) is Ok,
        0 <= k <= entries.len(),
    ensures
        fold_lines(lines.take(start + k), fresh, apply) == Ok::<Progress<R>, Seq<char>>(
            (done, fill(fresh, entries.take(k), apply)->Ok_0, k > 0),
        ),
    decreases k,
{
    if k == 0 {
        assert(entries.take(0) =~= Seq::<Entry>::empty());
    } else {
        lemma_fold_run(lines, start, entries, done, fresh, apply, k - 1);
        lemma_fill_prefix(fresh, entries, k, apply);
        assert(lines.take(start + k).drop_last() =~= lines.take(start + k - 1));
        assert(lines.take(start + k).last() == lines[start + k - 1]);
        lemma_classify_entry(entries[k - 1]);
        assert(entries.take(k).drop_last() =~= entries.take(k - 1));
        assert(entries.take(k).last() == entries[k - 1]);
    }
}

/// A text of two records, each a non-empty run of well-formed `key=value`
/// lines, with a `---` line between them, reads as exactly those two
/// records, each filled key by key from the fresh record, so that a field
/// whose key does not appear keeps its default.
pub proof fn lemma_two_records<R>(
    first: Seq<Entry>,
    second: Seq<Entry>,
    fresh: R,
    apply: spec_fn(R, Seq<char>, Seq<char>) -> Result<R, Seq<char>>,
)
    requires
        first.len() > 0,
        second.len() > 0,
        forall|i: int| 0 <= i < first.len() ==> entry_ok(#[trigger] first[i]),
        forall|i: int| 0 <= i < second.len() ==> entry_ok(#[trigger] second[i]),
        fill(fresh, first, apply) is Ok,
        fill(fresh, second, apply) is Ok,
    ensures
        parse_records(
            lines_text(record_lines(first) + seq!["---"@] + record_lines(second)),
            fresh,
            apply,
        ) == Ok::<Seq<R>, Seq<char>>(
            seq![fill(fresh, first, apply)->Ok_0, fill(fresh, second, apply)->Ok_0],
        ),
{
    let a = record_lines(first);
    let b = record_lines(second);
    let ls = a + seq!["---"@] + b;
    let n1 = first.len() as int;
    let n2 = second.len() as int;
    lemma_classify_separator();
    assert forall|i: int| 0 <= i < ls.len() implies plain_line(#[trigger] ls[i]) by {
        if i < n1 {
            lemma_classify_entry(first[i]);
        } else if i > n1 {
            lemma_classify_entry(second[i - n1 - 1]);
        }
    }
    lemma_lines_text(ls);
    assert(ls.take(0) =~= Seq::<Seq<char>>::empty());
    lemma_fold_run(ls, 0, first, seq![], fresh, apply, n1);
    assert(first.take(n1) =~= first);
    let r1 = fill(fresh, first, apply)->Ok_0;
    assert(ls.take(n1 + 1).drop_last() =~= ls.take(n1));
    assert(ls.take(n1 + 1).last() == "---"@);
    assert(fold_lines(ls.take(n1 + 1), fresh, apply) == Ok::<Progress<R>, Seq<char>>(
        (seq![r1], fresh, false),
    ));
    lemma_fold_run(ls, n1 + 1, second, seq![r1], fresh, apply, n2);
    assert(second.take(n2) =~= second);
    assert(ls.take(n1 + 1 + n2) =~= ls);
    let r2 = fill(fresh, second, apply)->Ok_0;
    assert(seq![r1].push(r2) =~= seq![r1, r2]);
}

} // verus!
