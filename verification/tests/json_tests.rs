use kube_eye_export_server::json::parse_text;
use kube_eye_export_server::json::to_text;
use kube_eye_export_server::value::clone_value;
use kube_eye_export_server::value::value_eq;
use kube_eye_export_server::value::ConfigValue;

#[test]
fn parses_scalars() {
    assert_eq!(parse_text("null").unwrap(), ConfigValue::Null);
    assert_eq!(parse_text(" true ").unwrap(), ConfigValue::Bool(true));
    assert_eq!(parse_text("false").unwrap(), ConfigValue::Bool(false));
    assert_eq!(parse_text("42").unwrap(), ConfigValue::Int(42));
    assert_eq!(parse_text("-7").unwrap(), ConfigValue::Int(-7));
    assert_eq!(
        parse_text("\"hi\"").unwrap(),
        ConfigValue::Str("hi".to_string())
    );
}

#[test]
fn parses_extreme_integers() {
    assert_eq!(
        parse_text("9223372036854775807").unwrap(),
        ConfigValue::Int(i64::MAX)
    );
    assert_eq!(
        parse_text("-9223372036854775808").unwrap(),
        ConfigValue::Int(i64::MIN)
    );
    assert!(parse_text("9223372036854775808").is_err());
    assert!(parse_text("-9223372036854775809").is_err());
}

#[test]
fn reports_error_offsets() {
    assert_eq!(parse_text("").unwrap_err().at, 0);
    assert_eq!(parse_text("  [1, ]").unwrap_err().at, 6);
    assert_eq!(parse_text("{\"a\" 1}").unwrap_err().at, 5);
    assert_eq!(parse_text("\"unterminated").unwrap_err().at, 13);
    assert_eq!(parse_text("null junk").unwrap_err().at, 5);
}

#[test]
fn strings_reject_uncarryable_characters() {
    assert_eq!(parse_text("\"a\\b\"").unwrap_err().at, 2);
    assert_eq!(parse_text("\"a\nb\"").unwrap_err().at, 2);
    assert!(parse_text("\"tab\tchar\"").is_err());
    assert!(parse_text("{\"a\\b\": 1}").is_err());
    assert!(parse_text("\"plain text\"").is_ok());
}

#[test]
fn duplicate_keys_keep_the_last_binding() {
    let v = parse_text(r#"{"a": 1, "a": 2}"#).unwrap();
    let expected = parse_text(r#"{"a": 2}"#).unwrap();
    assert!(value_eq(&v, &expected));
}

#[test]
fn printing_is_canonical() {
    let v = parse_text(" { \"a\" : [ 1 , true , \"x\" ] , \"b\" : null } ").unwrap();
    assert_eq!(to_text(&v), r#"{"a":[1,true,"x"],"b":null}"#);
    assert_eq!(to_text(&ConfigValue::Int(-12)), "-12");
    assert_eq!(to_text(&ConfigValue::Int(0)), "0");
}

#[test]
fn parse_print_round_trip() {
    let text = r#"{"name":"report","tags":[1,-2,3],"nested":{"on":true,"off":false,"none":null}}"#;
    let v = parse_text(text).unwrap();
    assert_eq!(to_text(&v), text);
    let again = parse_text(&to_text(&v)).unwrap();
    assert!(value_eq(&v, &again));
}

#[test]
fn clone_is_deep_equal() {
    let v = parse_text(r#"{"a":[{"b":"c"}],"d":5}"#).unwrap();
    let copy = clone_value(&v);
    assert!(value_eq(&v, &copy));
    assert_eq!(v, copy);
}

#[test]
fn unicode_strings_survive() {
    let v = parse_text("{\"标题\": \"报告\"}").unwrap();
    let printed = to_text(&v);
    assert!(printed.contains("报告"));
    let again = parse_text(&printed).unwrap();
    assert!(value_eq(&v, &again));
}
