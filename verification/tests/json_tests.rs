use elza_cli::json::JsonValue;
use elza_cli::json_read::parse_text;
use elza_cli::json_read::ParseError;
use elza_cli::json_write::to_pretty_text;

fn to_chars(s: &str) -> Vec<char> {
    s.chars().collect()
}

fn to_string(v: &[char]) -> String {
    v.iter().collect()
}

fn parse_str(s: &str) -> Result<JsonValue, ParseError> {
    parse_text(&to_chars(s))
}

#[test]
fn parses_scalars() {
    assert!(matches!(parse_str("null"), Ok(JsonValue::Null)));
    assert!(matches!(parse_str("true"), Ok(JsonValue::Bool(true))));
    assert!(matches!(parse_str("false"), Ok(JsonValue::Bool(false))));
    match parse_str("42") {
        Ok(JsonValue::Num(s)) => assert_eq!(to_string(&s), "42"),
        other => panic!("expected a number, got {:?}", other.is_ok()),
    }
    match parse_str("-1.5e3") {
        Ok(JsonValue::Num(s)) => assert_eq!(to_string(&s), "-1.5e3"),
        _ => panic!("expected a number"),
    }
}

#[test]
fn parses_strings_with_escapes() {
    match parse_str("\"a\\n\\\"b\\\\\"") {
        Ok(JsonValue::Str(s)) => assert_eq!(to_string(&s), "a\n\"b\\"),
        _ => panic!("expected a string"),
    }
}

#[test]
fn parses_nested_structures() {
    let v = parse_str("{ \"a\": [1, 2, {\"b\": null}], \"c\": \"d\" }").unwrap();
    match v {
        JsonValue::Obj(ms) => {
            assert_eq!(ms.len(), 2);
            assert_eq!(to_string(&ms[0].key), "a");
            assert_eq!(to_string(&ms[1].key), "c");
        }
        _ => panic!("expected an object"),
    }
}

#[test]
fn duplicate_keys_keep_the_later_value() {
    let v = parse_str("{\"a\": 1, \"a\": 2}").unwrap();
    match v {
        JsonValue::Obj(ms) => {
            assert_eq!(ms.len(), 1);
            match &ms[0].value {
                JsonValue::Num(s) => assert_eq!(to_string(s), "2"),
                _ => panic!("expected a number"),
            }
        }
        _ => panic!("expected an object"),
    }
}

#[test]
fn error_on_truncated_input() {
    assert_eq!(parse_str("{\"a\": 1"), Err(ParseError::UnexpectedEnd));
    assert_eq!(parse_str(""), Err(ParseError::UnexpectedEnd));
}

#[test]
fn error_on_unexpected_character() {
    assert_eq!(parse_str("@"), Err(ParseError::UnexpectedChar));
    assert_eq!(parse_str("[1; 2]"), Err(ParseError::UnexpectedChar));
}

#[test]
fn error_on_unknown_escape() {
    assert_eq!(parse_str("\"\\q\""), Err(ParseError::BadEscape));
}

#[test]
fn error_on_trailing_text() {
    assert_eq!(parse_str("1 2"), Err(ParseError::TrailingCharacters));
}

#[test]
fn error_on_absurd_nesting() {
    let deep = "[".repeat(60);
    assert_eq!(parse_str(&deep), Err(ParseError::TooDeep));
}

#[test]
fn pretty_text_round_trips_through_the_parser() {
    let v = parse_str("{\"b\": [1, 2], \"a\": {\"x\": true}, \"s\": \"q\\\"uote\"}").unwrap();
    let text = to_pretty_text(&v);
    let v2 = parse_text(&text).unwrap();
    let text2 = to_pretty_text(&v2);
    assert_eq!(to_string(&text), to_string(&text2));
}

#[test]
fn pretty_text_matches_the_conventional_format() {
    let v = parse_str("{\"a\": 1, \"b\": [true]}").unwrap();
    let text = to_string(&to_pretty_text(&v));
    assert_eq!(text, "{\n  \"a\": 1,\n  \"b\": [\n    true\n  ]\n}");
}

#[test]
fn pretty_text_agrees_with_serde_json() {
    let source = "{\"name\": \"demo\", \"nested\": {\"k\": [1, 2, null, false]}, \"s\": \"a\\nb\"}";
    let ours = to_string(&to_pretty_text(&parse_str(source).unwrap()));
    let serde_value: serde_json::Value = serde_json::from_str(source).unwrap();
    let theirs = serde_json::to_string_pretty(&serde_value).unwrap();
    assert_eq!(ours, theirs);
}
