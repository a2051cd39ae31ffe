use pleme_actions_shared::input::{input_parse_error, input_values, input_var_name};
use pleme_actions_shared::scalar::{
    classify_scalar, is_json_shaped, parse_i64, parse_scalar, InputValue,
};
use pleme_actions_shared::{EnvSource, MapEnv, StringMap};

fn finite_float(s: &str) -> bool {
    s.parse::<f64>().map(|f| f.is_finite()).unwrap_or(false)
}

fn scalar(s: &str) -> InputValue {
    parse_scalar(s, finite_float(s))
}

fn pairs(map: &StringMap) -> Vec<(String, String)> {
    map.entries().clone()
}

#[test]
fn mapenv_with_helper_matches_raw_insertion() {
    let a = MapEnv::new()
        .with("WORKING_DIRECTORY", "x")
        .with("ACTION", "y");
    let mut b = MapEnv::new();
    b.vars.insert("INPUT_WORKING_DIRECTORY".into(), "x".into());
    b.vars.insert("INPUT_ACTION".into(), "y".into());
    assert_eq!(pairs(&a.vars), pairs(&b.vars));
    assert_eq!(pairs(&a.collect_input_vars()), pairs(&b.collect_input_vars()));
}

#[test]
fn non_input_prefixed_vars_are_ignored() {
    let mut env = MapEnv::new();
    env.vars.insert("GITHUB_ACTOR".into(), "drzzln".into());
    env.vars.insert("RUNNER_OS".into(), "Linux".into());
    env = env.with("WORKING_DIRECTORY", "/tmp/x").with("ACTION", "plan");
    let collected = pairs(&env.collect_input_vars());
    assert_eq!(
        collected,
        vec![
            ("action".to_string(), "plan".to_string()),
            ("working_directory".to_string(), "/tmp/x".to_string()),
        ]
    );
}

#[test]
fn later_key_in_order_wins_after_lowercasing() {
    let mut env = MapEnv::new();
    env.vars.insert("INPUT_a".into(), "lower".into());
    env.vars.insert("INPUT_A".into(), "upper".into());
    // "INPUT_A" sorts before "INPUT_a", so the lower-case key is collected last.
    assert_eq!(pairs(&env.collect_input_vars()), vec![("a".to_string(), "lower".to_string())]);
}

#[test]
fn map_keeps_keys_sorted_and_replaces_values() {
    let mut m = StringMap::new();
    m.insert("b".into(), "1".into());
    m.insert("a".into(), "2".into());
    m.insert("c".into(), "3".into());
    m.insert("b".into(), "4".into());
    m.insert("é".into(), "5".into());
    m.insert("Z".into(), "6".into());
    let keys: Vec<&str> = m.entries().iter().map(|(k, _)| k.as_str()).collect();
    assert_eq!(keys, vec!["Z", "a", "b", "c", "é"]);
    assert_eq!(m.entries()[2].1, "4");
    assert_eq!(m.len(), 5);
}

#[test]
fn input_var_name_strips_prefix_and_lowercases() {
    assert_eq!(input_var_name("INPUT_MAX_RUNNERS"), Some("max_runners".to_string()));
    assert_eq!(input_var_name("INPUT_"), Some(String::new()));
    assert_eq!(input_var_name("INPUT_Ünï"), Some("Ünï".to_string()));
    assert_eq!(input_var_name("input_x"), None);
    assert_eq!(input_var_name("GITHUB_ACTOR"), None);
}

#[test]
fn parse_scalar_recognizes_booleans() {
    assert_eq!(scalar("true"), InputValue::Bool(true));
    assert_eq!(scalar("false"), InputValue::Bool(false));
    // Edge cases: capitalized / spaced strings stay strings
    assert!(matches!(scalar("True"), InputValue::Text(_)));
    assert!(matches!(scalar("FALSE"), InputValue::Text(_)));
}

#[test]
fn parse_scalar_recognizes_integers_and_floats() {
    assert!(matches!(scalar("42"), InputValue::Integer(42)));
    assert!(matches!(scalar("-1"), InputValue::Integer(-1)));
    assert!(matches!(scalar("3.14"), InputValue::Float(_)));
    // Non-numeric stays string
    assert!(matches!(scalar("v1.2.3"), InputValue::Text(_)));
}

#[test]
fn parse_scalar_falls_back_to_string_for_invalid_json() {
    // Looks like JSON-start but isn't — fall back to string
    assert_eq!(scalar("{invalid"), InputValue::Text("{invalid".into()));
}

#[test]
fn json_shaped_values_are_json() {
    assert_eq!(
        scalar(r#"{"github_token": "ghp_abc"}"#),
        InputValue::Json(r#"{"github_token": "ghp_abc"}"#.into())
    );
    assert_eq!(scalar("  [1, 2]"), InputValue::Json("  [1, 2]".into()));
    // Shaped like JSON (ideographic space is white space), but not JSON.
    assert!(is_json_shaped("\u{3000}[]"));
    assert_eq!(scalar("\u{3000}[]"), InputValue::Text("\u{3000}[]".into()));
    assert!(is_json_shaped("\t\n {"));
    assert!(!is_json_shaped("x{"));
    assert!(!is_json_shaped("   "));
}

#[test]
fn json_validity_is_only_asked_for_json_shaped_values() {
    assert_eq!(classify_scalar("abc", false, true), InputValue::Text("abc".into()));
    assert_eq!(classify_scalar("[x", false, true), InputValue::Json("[x".into()));
    assert_eq!(classify_scalar("7", true, true), InputValue::Integer(7));
}

#[test]
fn float_overflow_stays_a_string() {
    assert!(matches!(scalar("1e400"), InputValue::Text(_)));
    assert!(matches!(scalar("NaN"), InputValue::Text(_)));
    assert!(matches!(scalar("inf"), InputValue::Text(_)));
}

#[test]
fn i64_parsing_follows_from_str() {
    assert_eq!(parse_i64("0"), Some(0));
    assert_eq!(parse_i64("+17"), Some(17));
    assert_eq!(parse_i64("-0042"), Some(-42));
    assert_eq!(parse_i64("9223372036854775807"), Some(i64::MAX));
    assert_eq!(parse_i64("-9223372036854775808"), Some(i64::MIN));
    assert_eq!(parse_i64("9223372036854775808"), None);
    assert_eq!(parse_i64("-9223372036854775809"), None);
    assert_eq!(parse_i64("99999999999999999999999"), None);
    assert_eq!(parse_i64(""), None);
    assert_eq!(parse_i64("-"), None);
    assert_eq!(parse_i64("+"), None);
    assert_eq!(parse_i64(" 1"), None);
    assert_eq!(parse_i64("1_000"), None);
    for s in ["12", "-5", "+0", "123456789012", "x", "--1", "٣"] {
        assert_eq!(parse_i64(s), s.parse::<i64>().ok(), "{s}");
    }
}

#[test]
fn typed_values_in_name_order() {
    let env = MapEnv::new()
        .with("MAX_RUNNERS", "5")
        .with("AUTO_APPROVE", "true")
        .with("THRESHOLD", "0.5");
    let vars = env.collect_input_vars();
    let floats: Vec<bool> = vars.entries().iter().map(|(_, v)| finite_float(v)).collect();
    let values = input_values(&vars, &floats);
    assert_eq!(
        values,
        vec![
            ("auto_approve".to_string(), InputValue::Bool(true)),
            ("max_runners".to_string(), InputValue::Integer(5)),
            ("threshold".to_string(), InputValue::Float("0.5".into())),
        ]
    );
}

#[test]
fn missing_required_field_errors() {
    let err = input_parse_error("missing field `action`");
    assert!(err.is_fatal());
    let cmd = err.as_workflow_command();
    assert!(cmd.starts_with("::error "));
    assert!(cmd.contains("title=Action input parse error"));
    assert!(cmd.ends_with("::failed to parse INPUT_* env vars: missing field `action`"));
}

#[test]
fn clone_and_default_keep_entries() {
    let env = MapEnv::default().with("A", "1");
    let copy = env.clone();
    assert_eq!(pairs(&copy.vars), vec![("INPUT_A".to_string(), "1".to_string())]);
    assert_eq!(pairs(&MapEnv::default().vars), vec![]);
}
