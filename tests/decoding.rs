use save_parser::{parse_line, parse_lines, parse_simple_value, CoercionFailure, ParseResult, Value};

fn lines(src: &[&str]) -> Vec<String> {
    src.iter().map(|l| l.to_string()).collect()
}

fn text(s: &str) -> Value {
    Value::String(s.to_string())
}

fn float_of(v: Option<&Value>) -> f64 {
    match v {
        Some(Value::Float(t)) => t.parse::<f64>().unwrap(),
        other => panic!("not a float: {:?}", other),
    }
}

#[test]
fn quoted_value_is_string_without_quotes() {
    assert_eq!(parse_line("name = \"Test\""), Some(("name".to_string(), text("Test"))));
    assert_eq!(parse_line("title = \"two words  \""), Some(("title".to_string(), text("two words  "))));
}

#[test]
fn quoted_words_and_numbers_stay_strings() {
    assert_eq!(parse_simple_value("\"yes\""), Ok(text("yes")));
    assert_eq!(parse_simple_value("\"123\""), Ok(text("123")));
    assert_eq!(parse_simple_value("\"\""), Ok(text("")));
}

#[test]
fn lone_quote_is_plain_text() {
    assert_eq!(parse_simple_value("\""), Ok(text("\"")));
}

#[test]
fn yes_and_no_in_any_case() {
    assert_eq!(parse_line("active = yes"), Some(("active".to_string(), Value::Boolean(true))));
    assert_eq!(parse_line("active = YeS"), Some(("active".to_string(), Value::Boolean(true))));
    assert_eq!(parse_line("active = no"), Some(("active".to_string(), Value::Boolean(false))));
    assert_eq!(parse_line("active = NO"), Some(("active".to_string(), Value::Boolean(false))));
    assert_eq!(parse_simple_value("yess"), Ok(text("yess")));
}

#[test]
fn whole_numbers_are_integers() {
    assert_eq!(parse_line("count = 42"), Some(("count".to_string(), Value::Integer(42))));
    assert_eq!(parse_simple_value("-17"), Ok(Value::Integer(-17)));
    assert_eq!(parse_simple_value("+5"), Ok(Value::Integer(5)));
    assert_eq!(parse_simple_value("007"), Ok(Value::Integer(7)));
}

#[test]
fn integer_limits() {
    assert_eq!(parse_simple_value("9223372036854775807"), Ok(Value::Integer(i64::MAX)));
    assert_eq!(parse_simple_value("-9223372036854775808"), Ok(Value::Integer(i64::MIN)));
}

#[test]
fn integers_out_of_range_are_floats() {
    assert_eq!(
        parse_simple_value("9223372036854775808"),
        Ok(Value::Float("9223372036854775808".to_string()))
    );
    assert_eq!(
        parse_simple_value("-9223372036854775809"),
        Ok(Value::Float("-9223372036854775809".to_string()))
    );
}

#[test]
fn decimals_are_floats() {
    let r = parse_lines(&lines(&["ratio = 3.14", "whole = 4.0"]));
    assert_eq!(float_of(r.get("ratio")), 3.14);
    assert_eq!(r.get("whole"), Some(&Value::Float("4.0".to_string())));
    assert_eq!(float_of(r.get("whole")), 4.0);
}

#[test]
fn float_grammar() {
    for t in ["1e5", "-2.5E-3", ".5", "5.", "+1.0e+2", "inf", "-Infinity", "NaN"] {
        assert_eq!(parse_simple_value(t), Ok(Value::Float(t.to_string())), "{}", t);
        assert!(t.parse::<f64>().is_ok());
    }
    for t in ["1e", "e5", ".", "-", "1.2.3", "1e+", "infin", "0x10", "1_000"] {
        assert_eq!(parse_simple_value(t), Ok(text(t)), "{}", t);
        assert!(t.parse::<f64>().is_err());
    }
}

#[test]
fn empty_value_fails() {
    assert_eq!(parse_simple_value(""), Err(CoercionFailure::EmptyValue));
    assert_eq!(parse_simple_value("  \t "), Err(CoercionFailure::EmptyValue));
    assert_eq!(parse_line("key ="), None);
    assert_eq!(parse_line("key =   "), None);
}

#[test]
fn other_text_is_kept_verbatim() {
    assert_eq!(parse_line("tag = ENG"), Some(("tag".to_string(), text("ENG"))));
    assert_eq!(parse_line("a = b = c"), Some(("a".to_string(), text("b = c"))));
}

#[test]
fn key_and_value_are_trimmed() {
    assert_eq!(parse_line("  key \t=   value  "), Some(("key".to_string(), text("value"))));
    assert_eq!(parse_line("k =\u{3000}v\u{a0}"), Some(("k".to_string(), text("v"))));
    assert_eq!(parse_line("= 1"), Some(("".to_string(), Value::Integer(1))));
}

#[test]
fn comment_lines_assign_nothing() {
    assert_eq!(parse_line("# a = 1"), None);
    assert_eq!(parse_line("   #b=2"), None);
    assert_eq!(parse_line("#"), None);
}

#[test]
fn hash_after_key_is_not_a_comment() {
    assert_eq!(parse_line("a = #1"), Some(("a".to_string(), text("#1"))));
}

#[test]
fn lines_without_equals_assign_nothing() {
    assert_eq!(parse_line("just words"), None);
    assert_eq!(parse_line(""), None);
    assert_eq!(parse_line("}"), None);
}

#[test]
fn braces_assign_nothing() {
    assert_eq!(parse_line("k = { a b c }"), None);
    assert_eq!(parse_line("k = {"), None);
    assert_eq!(parse_line("k = a{b"), None);
    assert_eq!(parse_line("k = \"{\""), None);
}

#[test]
fn later_assignment_wins() {
    let r = parse_lines(&lines(&["k = 1", "other = 3", "k = 2"]));
    assert_eq!(r.get("k"), Some(&Value::Integer(2)));
    assert_eq!(r.into_entries().len(), 2);
}

#[test]
fn save_file_scenario() {
    let r = parse_lines(&lines(&[
        "# comment",
        "name = \"Test\"",
        "active = yes",
        "count = 10",
        "ratio = 2.5",
        "nested = { 1 2 3 }",
    ]));
    assert_eq!(r.get("name"), Some(&text("Test")));
    assert_eq!(r.get("active"), Some(&Value::Boolean(true)));
    assert_eq!(r.get("count"), Some(&Value::Integer(10)));
    assert_eq!(float_of(r.get("ratio")), 2.5);
    assert_eq!(r.get("nested"), None);
    assert_eq!(r.get("# comment"), None);
    assert_eq!(r.into_entries().len(), 4);
}

#[test]
fn feeding_lines_one_by_one() {
    let mut r = ParseResult::new();
    r.feed_line("a = 1");
    r.feed_line("broken line");
    r.feed_line("b = no");
    assert_eq!(r.get("a"), Some(&Value::Integer(1)));
    assert_eq!(r.get("b"), Some(&Value::Boolean(false)));
    assert_eq!(r.get("c"), None);
}

#[test]
fn empty_input_gives_empty_result() {
    let r = parse_lines(&Vec::new());
    assert_eq!(r.get("a"), None);
    assert!(r.into_entries().is_empty());
}

#[test]
fn composite_values_can_be_built() {
    let mut m = std::collections::HashMap::new();
    m.insert("x".to_string(), Value::Integer(1));
    let o = Value::Object(m);
    let a = Value::Array(vec![Value::Boolean(true), o]);
    match a {
        Value::Array(items) => assert_eq!(items.len(), 2),
        _ => unreachable!(),
    }
}
