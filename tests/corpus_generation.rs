use regex_bench::config::PerfScenario;
use regex_bench::corpus::{
    generate_anchor_text, generate_inject_text, generate_repeat_text, generate_text_buffer,
    parse_strategy, TextStrategy,
};

fn count(hay: &[u8], needle: &[u8]) -> usize {
    hay.windows(needle.len()).filter(|w| *w == needle).count()
}

fn scenario(strategy: &str, base: &str, size: usize) -> PerfScenario {
    PerfScenario {
        text_strategy: strategy.to_string(),
        text_base: base.to_string(),
        text_size: size,
        ..PerfScenario::default()
    }
}

#[test]
fn repeat_tiles_and_cuts() {
    assert_eq!(generate_repeat_text("ab", 5).unwrap(), b"ababa".to_vec());
    assert_eq!(generate_repeat_text("abc", 6).unwrap(), b"abcabc".to_vec());
    assert_eq!(generate_repeat_text("abc", 0).unwrap(), Vec::<u8>::new());
}

#[test]
fn repeat_has_exact_length_and_tiles_the_base() {
    for size in [1usize, 7, 64, 1000] {
        let v = generate_repeat_text("xyz", size).unwrap();
        assert_eq!(v.len(), size);
        for (i, b) in v.iter().enumerate() {
            assert_eq!(*b, b"xyz"[i % 3]);
        }
    }
}

#[test]
fn repeat_rejects_empty_base() {
    assert_eq!(
        generate_repeat_text("", 10).unwrap_err(),
        "text_base cannot be empty for repeat strategy"
    );
}

#[test]
fn inject_places_pattern_after_each_chunk() {
    let v = generate_inject_text("x", 10, "AB", 3).unwrap();
    assert_eq!(v, b"xxxABxxxAB".to_vec());
    let v = generate_inject_text("x", 7, "AB", 3).unwrap();
    assert_eq!(v, b"xxxABxx".to_vec());
}

#[test]
fn inject_no_pattern_after_last_chunk() {
    assert_eq!(generate_inject_text("x", 3, "AB", 3).unwrap(), b"xxx".to_vec());
    assert_eq!(generate_inject_text("x", 2, "AB", 5).unwrap(), b"xx".to_vec());
}

#[test]
fn inject_zero_interval_means_256() {
    let v = generate_inject_text("x", 300, "Q", 0).unwrap();
    assert_eq!(v.len(), 300);
    assert_eq!(v[256], b'Q');
    assert_eq!(count(&v, b"Q"), 1);
}

#[test]
fn inject_length_is_exact_and_pattern_repeats() {
    let v = generate_inject_text("x", 1000, "needle", 100).unwrap();
    assert_eq!(v.len(), 1000);
    assert!(count(&v, b"needle") >= 1000 / 100 - 1);
    let v = generate_inject_text("ab", 777, "a-very-long-pattern-indeed", 5).unwrap();
    assert_eq!(v.len(), 777);
}

#[test]
fn inject_rejects_empty_base() {
    assert_eq!(
        generate_inject_text("", 10, "p", 2).unwrap_err(),
        "text_base cannot be empty for repeat strategy"
    );
}

#[test]
fn anchor_wraps_filler() {
    let mut s = scenario("anchor", "ab", 7);
    s.anchor_prefix = "<".to_string();
    s.anchor_suffix = "/>".to_string();
    assert_eq!(generate_anchor_text(&s).unwrap(), b"<abab/>".to_vec());
    s.text_size = 3;
    assert_eq!(generate_anchor_text(&s).unwrap(), b"</>".to_vec());
}

#[test]
fn anchor_errors() {
    let mut s = scenario("anchor", "ab", 7);
    assert_eq!(
        generate_anchor_text(&s).unwrap_err(),
        "anchor strategy requires anchor_prefix and anchor_suffix"
    );
    s.anchor_prefix = "<<".to_string();
    s.anchor_suffix = ">>".to_string();
    s.text_size = 3;
    assert_eq!(
        generate_anchor_text(&s).unwrap_err(),
        "text_size too small for anchor strategy"
    );
    s.text_size = 9;
    s.text_base = String::new();
    assert_eq!(
        generate_anchor_text(&s).unwrap_err(),
        "text_base cannot be empty for repeat strategy"
    );
}

#[test]
fn strategy_names() {
    assert_eq!(parse_strategy("repeat"), Ok(TextStrategy::Repeat));
    assert_eq!(parse_strategy(""), Ok(TextStrategy::Repeat));
    assert_eq!(parse_strategy("InJeCt"), Ok(TextStrategy::Inject));
    assert_eq!(parse_strategy("ANCHOR"), Ok(TextStrategy::Anchor));
    assert_eq!(
        parse_strategy("Shuffle"),
        Err("unknown text_strategy: shuffle".to_string())
    );
}

#[test]
fn text_buffer_dispatches_on_strategy() {
    assert_eq!(generate_text_buffer(&scenario("REPEAT", "ab", 5)).unwrap(), "ababa");
    let mut s = scenario("inject", "x", 10);
    s.pattern = "AB".to_string();
    s.insert_interval = 3;
    assert_eq!(generate_text_buffer(&s).unwrap(), "xxxABxxxAB");
    let mut s = scenario("anchor", "-", 6);
    s.anchor_prefix = "[".to_string();
    s.anchor_suffix = "]".to_string();
    assert_eq!(generate_text_buffer(&s).unwrap(), "[----]");
    assert_eq!(
        generate_text_buffer(&scenario("spiral", "x", 5)).unwrap_err(),
        "unknown text_strategy: spiral"
    );
}

#[test]
fn text_buffer_multibyte_base() {
    assert_eq!(generate_text_buffer(&scenario("repeat", "é", 4)).unwrap(), "éé");
    assert_eq!(
        generate_text_buffer(&scenario("repeat", "é", 3)).unwrap_err(),
        "generated text is not valid UTF-8"
    );
}
