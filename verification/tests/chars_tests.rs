use taintflow::chars::{parse_i64, parses_as_i64, split_char, trim_end_char, trim_non_ident, trim_start_char};

fn chars(s: &str) -> Vec<char> {
    s.chars().collect()
}

fn text(v: &[char]) -> String {
    v.iter().collect()
}

#[test]
fn integers_parse_within_range() {
    assert_eq!(parse_i64(&chars("+12")), Some(12));
    assert_eq!(parse_i64(&chars("-9223372036854775808")), Some(i64::MIN));
    assert_eq!(parse_i64(&chars("9223372036854775807")), Some(i64::MAX));
    assert_eq!(parse_i64(&chars("9223372036854775808")), None);
    assert_eq!(parse_i64(&chars("")), None);
    assert_eq!(parse_i64(&chars("-")), None);
    assert_eq!(parse_i64(&chars("12a")), None);
    assert!(parses_as_i64(&chars("007")));
    assert!(!parses_as_i64(&chars("1.5")));
}

#[test]
fn trimming_helpers() {
    assert_eq!(text(&trim_non_ident(&chars("(user_id);"))), "user_id");
    assert_eq!(text(&trim_non_ident(&chars("()"))), "");
    assert_eq!(text(&trim_end_char(&chars("a;;"), ';')), "a");
    assert_eq!(text(&trim_start_char(&chars("..a.b"), '.')), "a.b");
}

#[test]
fn splitting_keeps_empty_pieces() {
    let pieces: Vec<String> = split_char(&chars("a,b,"), ',').iter().map(|p| text(p)).collect();
    assert_eq!(pieces, vec!["a".to_string(), "b".to_string(), String::new()]);
}

#[test]
fn words_and_dotted_runs() {
    let ws: Vec<String> = taintflow::chars::words(&chars("  String  v =\ts.next(); ")).iter().map(|w| text(w)).collect();
    assert_eq!(ws, vec!["String", "v", "=", "s.next();"]);
    let runs: Vec<String> = taintflow::chars::split_non_dotted(&chars("a.b(c, d)")).iter().map(|w| text(w)).collect();
    assert_eq!(runs, vec!["a.b", "c", "", "d", ""]);
}
