use regex_bench::config::{parse_performance_scenarios, parse_test_cases, PerfScenario, TestCase};
use regex_bench::text::{parse_bool, parse_usize, sanitize_notes, unescape};

#[test]
fn unescape_newline_escape() {
    assert_eq!(unescape("a\\nb"), "a\nb");
}

#[test]
fn unescape_unknown_escape_drops_backslash() {
    assert_eq!(unescape("a\\qb"), "aqb");
}

#[test]
fn unescape_known_escapes() {
    assert_eq!(unescape("\\t\\r\\\\x"), "\t\r\\x");
    assert_eq!(unescape("plain"), "plain");
}

#[test]
fn unescape_trailing_backslash_is_dropped() {
    assert_eq!(unescape("ab\\"), "ab");
    assert_eq!(unescape(""), "");
}

#[test]
fn parse_bool_vocabulary() {
    for w in ["true", "TRUE", "True", "1", "yes", "YES", "Yes"] {
        assert!(parse_bool(w, false), "{w}");
    }
    for w in ["false", "FALSE", "False", "0", "no", "NO", "No"] {
        assert!(!parse_bool(w, true), "{w}");
    }
}

#[test]
fn parse_bool_unknown_word_gives_default() {
    assert!(parse_bool("maybe", true));
    assert!(!parse_bool("maybe", false));
    assert!(parse_bool("", true));
    assert!(!parse_bool("tRUE", false));
}

#[test]
fn parse_usize_accepts_digits() {
    assert_eq!(parse_usize("42"), Ok(42));
    assert_eq!(parse_usize("0"), Ok(0));
    assert_eq!(parse_usize("+7"), Ok(7));
    assert_eq!(parse_usize("18446744073709551615"), Ok(18446744073709551615));
}

#[test]
fn parse_usize_rejects_other_text() {
    assert_eq!(parse_usize("-1"), Err("invalid integer: -1".to_string()));
    assert_eq!(parse_usize(""), Err("invalid integer: ".to_string()));
    assert_eq!(parse_usize("+"), Err("invalid integer: +".to_string()));
    assert_eq!(parse_usize("12a"), Err("invalid integer: 12a".to_string()));
    assert_eq!(
        parse_usize("18446744073709551616"),
        Err("invalid integer: 18446744073709551616".to_string())
    );
}

#[test]
fn sanitize_notes_collapses_breaks() {
    assert_eq!(sanitize_notes("a\tb\r\nc"), "a b  c");
    assert_eq!(sanitize_notes("clean"), "clean");
}

#[test]
fn two_records_parse_with_defaults() {
    let content = "name=first\npattern=a+\nshould_match=true\n---\nname=second\ntext=hello\\tworld\n";
    let cases = parse_test_cases(content).unwrap();
    assert_eq!(cases.len(), 2);
    assert_eq!(cases[0].name, "first");
    assert_eq!(cases[0].pattern, "a+");
    assert!(cases[0].should_match);
    assert_eq!(cases[0].text, "");
    assert!(cases[0].should_compile);
    assert!(!cases[0].verify_full_match);
    assert_eq!(cases[1].name, "second");
    assert_eq!(cases[1].text, "hello\tworld");
    assert_eq!(cases[1].pattern, "");
    assert!(cases[1].should_compile);
    assert!(!cases[1].should_match);
    assert_eq!(cases[1].expected_match, "");
}

#[test]
fn parse_trims_keys_and_values_and_splits_at_first_equals() {
    let cases = parse_test_cases("  name = spaced  \r\n pattern = a=b \r\n").unwrap();
    assert_eq!(cases.len(), 1);
    assert_eq!(cases[0].name, "spaced");
    assert_eq!(cases[0].pattern, "a=b");
}

#[test]
fn any_key_opens_a_record_and_empty_blocks_make_none() {
    let cases = parse_test_cases("---\n\n---\npattern=x\n---\n---\n").unwrap();
    assert_eq!(cases.len(), 1);
    assert_eq!(cases[0].name, "");
    assert_eq!(cases[0].pattern, "x");
    assert!(parse_test_cases("").unwrap().is_empty());
}

#[test]
fn case_fields_all_read() {
    let content = "name=n\npattern=p\ntext=t\nshould_compile=no\nshould_match=yes\nverify_full_match=1\nexpected=e\ndescription=d";
    let cases = parse_test_cases(content).unwrap();
    assert_eq!(cases.len(), 1);
    let c = &cases[0];
    assert_eq!(
        (c.name.as_str(), c.pattern.as_str(), c.text.as_str(), c.expected_match.as_str(), c.description.as_str()),
        ("n", "p", "t", "e", "d")
    );
    assert!(!c.should_compile && c.should_match && c.verify_full_match);
}

#[test]
fn lenient_booleans_fall_back_to_defaults() {
    let cases = parse_test_cases("name=x\nshould_compile=perhaps\nshould_match=perhaps\n").unwrap();
    assert!(cases[0].should_compile);
    assert!(!cases[0].should_match);
}

#[test]
fn unknown_key_fails_the_whole_file() {
    let r = parse_test_cases("name=ok\n---\nname=x\ncolour=red\n");
    assert_eq!(r.unwrap_err(), "unknown key: colour");
}

#[test]
fn line_without_equals_fails_the_whole_file() {
    let r = parse_test_cases("name=ok\njust words\n");
    assert_eq!(r.unwrap_err(), "invalid line: just words");
}

#[test]
fn default_records() {
    let c = TestCase::default();
    assert!(c.should_compile && !c.should_match && !c.verify_full_match);
    let s = PerfScenario::default();
    assert_eq!(s.text_strategy, "repeat");
    assert_eq!((s.text_size, s.iterations, s.insert_interval), (0, 1, 512));
    assert!(s.should_match);
}

#[test]
fn two_scenarios_parse_with_defaults() {
    let content = "name=s1\ntext_strategy=inject\ntext_base=ab\ntext_size=100\niterations=3\ninsert_interval=10\npattern=zz\n---\nname=s2\nanchor_prefix=<\nanchor_suffix=>\nshould_match=no\ndescription=two\n";
    let s = parse_performance_scenarios(content).unwrap();
    assert_eq!(s.len(), 2);
    assert_eq!(s[0].name, "s1");
    assert_eq!(s[0].text_strategy, "inject");
    assert_eq!(s[0].text_base, "ab");
    assert_eq!((s[0].text_size, s[0].iterations, s[0].insert_interval), (100, 3, 10));
    assert_eq!(s[0].pattern, "zz");
    assert!(s[0].should_match);
    assert_eq!(s[1].name, "s2");
    assert_eq!(s[1].text_strategy, "repeat");
    assert_eq!((s[1].text_size, s[1].iterations, s[1].insert_interval), (0, 1, 512));
    assert_eq!((s[1].anchor_prefix.as_str(), s[1].anchor_suffix.as_str()), ("<", ">"));
    assert!(!s[1].should_match);
    assert_eq!(s[1].description, "two");
}

#[test]
fn bad_count_fails_the_whole_file() {
    let r = parse_performance_scenarios("name=a\ntext_size=12kb\n");
    assert_eq!(r.unwrap_err(), "invalid integer: 12kb");
    let r = parse_performance_scenarios("name=a\niterations=-3\n");
    assert_eq!(r.unwrap_err(), "invalid integer: -3");
}

#[test]
fn scenario_unknown_key_and_bad_line() {
    assert_eq!(
        parse_performance_scenarios("name=a\nsize=3\n").unwrap_err(),
        "unknown key: size"
    );
    assert_eq!(
        parse_performance_scenarios("name=a\n===\n").unwrap_err(),
        "unknown key: "
    );
    assert_eq!(
        parse_performance_scenarios("name a\n").unwrap_err(),
        "invalid line: name a"
    );
}
