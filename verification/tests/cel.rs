use cel_interpreter::objects::{Key, Map as CelMap, Value};
use std::collections::HashMap;
use std::sync::Arc;

use sdui::cel::{cel_to_eval, eval_to_cel, finish_compile, finish_eval, CelEngine};
use sdui::engine::{require_bool, EvalEnv, ExprCache, ExprError, ExpressionEngine};
use sdui::strmap::StrMap;
use sdui::value::EvalValue;

fn map(entries: Vec<(&str, EvalValue)>) -> EvalValue {
    let mut m = StrMap::new();
    for (k, v) in entries {
        m.insert(k.to_string(), v);
    }
    EvalValue::Mapping(m)
}

fn text(s: &str) -> EvalValue {
    EvalValue::String(s.to_string())
}

#[test]
fn evaluates_literal_true() {
    let engine = CelEngine::new();
    let expr = engine.compile("true").expect("compile");
    let env = EvalEnv::new();
    assert!(engine.eval_bool(&expr, &env).expect("eval"));
}

#[test]
fn evaluates_literal_false() {
    let engine = CelEngine::new();
    let expr = engine.compile("false").expect("compile");
    let env = EvalEnv::new();
    assert!(!engine.eval_bool(&expr, &env).expect("eval"));
}

#[test]
fn evaluates_integer_equality() {
    let engine = CelEngine::new();
    let expr = engine.compile("1 + 1 == 2").expect("compile");
    let env = EvalEnv::new();
    assert!(engine.eval_bool(&expr, &env).expect("eval"));
}

#[test]
fn evaluates_string_equality() {
    let engine = CelEngine::new();
    let expr = engine.compile("'a' == 'a'").expect("compile");
    let env = EvalEnv::new();
    assert!(engine.eval_bool(&expr, &env).expect("eval"));
}

#[test]
fn returns_not_bool_for_non_bool_expression() {
    let engine = CelEngine::new();
    let expr = engine.compile("1 + 1").expect("compile");
    let env = EvalEnv::new();
    match engine.eval_bool(&expr, &env) {
        Err(ExprError::NotBool { got }) => assert_eq!(got, "Int"),
        other => panic!("expected NotBool, got {other:?}"),
    }
}

#[test]
fn returns_parse_failed_for_malformed_expression() {
    let engine = CelEngine::new();
    match engine.compile("1 +") {
        Err(ExprError::ParseFailed(_)) => {}
        other => panic!("expected ParseFailed, got {other:?}"),
    }
}

#[test]
fn eval_returns_typed_int() {
    let engine = CelEngine::new();
    let expr = engine.compile("1 + 2").expect("compile");
    let env = EvalEnv::new();
    assert_eq!(engine.eval(&expr, &env).expect("eval"), EvalValue::Int(3));
}

#[test]
fn eval_reads_top_level_variable() {
    let engine = CelEngine::new();
    let expr = engine.compile("x + 1").expect("compile");
    let mut env = EvalEnv::new();
    env.set("x", EvalValue::Int(41));
    assert_eq!(engine.eval(&expr, &env).expect("eval"), EvalValue::Int(42));
}

#[test]
fn eval_reads_nested_map_variable() {
    let engine = CelEngine::new();
    let expr = engine.compile("state.count + 1").expect("compile");
    let mut env = EvalEnv::new();
    env.set("state", map(vec![("count", EvalValue::Int(7))]));
    assert_eq!(engine.eval(&expr, &env).expect("eval"), EvalValue::Int(8));
}

#[test]
fn eval_bool_compares_string_against_null() {
    let engine = CelEngine::new();
    let expr = engine.compile("ui.hovered == 'counter_btn'").expect("compile");
    let mut env = EvalEnv::new();
    env.set("ui", map(vec![("hovered", EvalValue::Null), ("pressed", EvalValue::Null)]));
    assert!(!engine.eval_bool(&expr, &env).expect("eval"));
}

#[test]
fn eval_bool_matches_string_in_map() {
    let engine = CelEngine::new();
    let expr = engine.compile("ui.hovered == 'counter_btn'").expect("compile");
    let mut env = EvalEnv::new();
    env.set("ui", map(vec![("hovered", text("counter_btn")), ("pressed", EvalValue::Null)]));
    assert!(engine.eval_bool(&expr, &env).expect("eval"));
}

#[test]
fn eval_missing_top_level_variable_errors() {
    let engine = CelEngine::new();
    let expr = engine.compile("no_such_var").expect("compile");
    let env = EvalEnv::new();
    match engine.eval(&expr, &env) {
        Err(ExprError::EvalFailed(_)) => {}
        other => panic!("expected EvalFailed, got {other:?}"),
    }
}

#[test]
fn eval_value_variant_names() {
    assert_eq!(EvalValue::Null.variant_name(), "Null");
    assert_eq!(EvalValue::Bool(true).variant_name(), "Bool");
    assert_eq!(EvalValue::Int(0).variant_name(), "Int");
    assert_eq!(EvalValue::UInt(0).variant_name(), "UInt");
    assert_eq!(EvalValue::Float(0.0f64.to_bits()).variant_name(), "Float");
    assert_eq!(EvalValue::String("".into()).variant_name(), "String");
    assert_eq!(EvalValue::List(vec![]).variant_name(), "List");
    assert_eq!(EvalValue::Mapping(StrMap::new()).variant_name(), "Map");
}

#[test]
fn expr_cache_returns_same_entry_for_same_source() {
    let engine = CelEngine::new();
    let mut cache = ExprCache::new();
    let _ = cache.compile_cached(&engine, "true").expect("compile1");
    assert_eq!(cache.len(), 1);
    let _ = cache.compile_cached(&engine, "true").expect("compile2");
    assert_eq!(cache.len(), 1, "same source should not add an entry");
    let _ = cache.compile_cached(&engine, "false").expect("compile3");
    assert_eq!(cache.len(), 2, "new source adds an entry");
}

#[test]
fn expr_cache_propagates_parse_errors_and_does_not_cache_them() {
    let engine = CelEngine::new();
    let mut cache = ExprCache::new();
    match cache.compile_cached(&engine, "1 +") {
        Err(ExprError::ParseFailed(_)) => {}
        other => panic!("expected ParseFailed, got {other:?}"),
    }
    assert_eq!(cache.len(), 0, "failed compiles must not poison the cache");
}

#[test]
fn parser_panics_name_the_quoted_input() {
    let engine = CelEngine::new();
    match engine.compile("1 +") {
        Err(ExprError::ParseFailed(m)) => assert_eq!(m, "parser panicked on input \"1 +\""),
        other => panic!("expected ParseFailed, got {other:?}"),
    }
}

#[test]
fn parse_errors_keep_their_text() {
    let engine = CelEngine::new();
    match engine.compile("a${b}") {
        Err(ExprError::ParseFailed(m)) => {
            assert!(!m.is_empty() && !m.starts_with("parser panicked"), "{m}");
        }
        other => panic!("expected ParseFailed, got {other:?}"),
    }
}

#[test]
fn interpreter_panics_are_evaluation_failures() {
    let engine = CelEngine::new();
    let expr = engine.compile("Foo{}").expect("compile");
    match engine.eval(&expr, &EvalEnv::new()) {
        Err(ExprError::EvalFailed(m)) => assert_eq!(m, "interpreter panicked"),
        other => panic!("expected EvalFailed, got {other:?}"),
    }
}

#[test]
fn evaluation_errors_keep_their_text() {
    let engine = CelEngine::new();
    let expr = engine.compile("no_such_var").expect("compile");
    match engine.eval(&expr, &EvalEnv::new()) {
        Err(e) => assert_eq!(
            e.message(),
            "expression evaluation failed: Undeclared reference to 'no_such_var'"
        ),
        other => panic!("expected an error, got {other:?}"),
    }
}

#[test]
fn error_messages_say_what_went_wrong() {
    assert_eq!(
        ExprError::ParseFailed("x".into()).message(),
        "expression parse failed: x"
    );
    assert_eq!(
        ExprError::EvalFailed("y".into()).message(),
        "expression evaluation failed: y"
    );
    assert_eq!(
        ExprError::NotBool { got: "Int".into() }.message(),
        "expression did not evaluate to bool (got Int)"
    );
}

#[test]
fn values_cross_the_bridge_and_come_back() {
    let v = map(vec![
        ("null", EvalValue::Null),
        ("yes", EvalValue::Bool(true)),
        ("int", EvalValue::Int(-5)),
        ("uint", EvalValue::UInt(u64::MAX)),
        ("float", EvalValue::Float(1.5f64.to_bits())),
        ("text", text("héllo")),
        ("list", EvalValue::List(vec![EvalValue::Int(1), text("two")])),
        ("inner", map(vec![("k", EvalValue::Bool(false))])),
    ]);
    assert_eq!(cel_to_eval(&eval_to_cel(&v)), v);
}

#[test]
fn kinds_without_use_are_missing_and_other_keys_are_dropped() {
    assert_eq!(cel_to_eval(&Value::Bytes(Arc::new(vec![1, 2]))), EvalValue::Null);
    assert_eq!(
        cel_to_eval(&Value::Function(Arc::new("f".to_string()), None)),
        EvalValue::Null
    );
    let mut m = HashMap::new();
    m.insert(Key::String(Arc::new("kept".to_string())), Value::Int(1));
    m.insert(Key::Int(7), Value::Int(2));
    m.insert(Key::Uint(7), Value::Int(3));
    m.insert(Key::Bool(true), Value::Int(4));
    let v = Value::Map(CelMap { map: Arc::new(m) });
    assert_eq!(cel_to_eval(&v), map(vec![("kept", EvalValue::Int(1))]));
}

#[test]
fn eval_gives_every_kind_of_value() {
    let engine = CelEngine::new();
    let run = |src: &str| {
        let expr = engine.compile(src).expect("compile");
        engine.eval(&expr, &EvalEnv::new()).expect("eval")
    };
    assert_eq!(run("null"), EvalValue::Null);
    assert_eq!(run("1.5"), EvalValue::Float(1.5f64.to_bits()));
    assert_eq!(run("7u"), EvalValue::UInt(7));
    assert_eq!(run("'a' + 'b'"), text("ab"));
    assert_eq!(run("[1, 2]"), EvalValue::List(vec![EvalValue::Int(1), EvalValue::Int(2)]));
    assert_eq!(run("{'k': 1, 2: 3}"), map(vec![("k", EvalValue::Int(1))]));
    assert_eq!(run("b'xy'"), EvalValue::Null);
}

#[test]
fn outcomes_of_a_run_are_read_one_by_one() {
    assert_eq!(finish_eval(Ok(Value::Int(4))).expect("value"), EvalValue::Int(4));
    assert!(matches!(finish_eval(Err(Some("boom".into()))), Err(ExprError::EvalFailed(m)) if m == "boom"));
    assert!(matches!(finish_eval(Err(None)), Err(ExprError::EvalFailed(m)) if m == "interpreter panicked"));
    assert!(matches!(
        finish_compile("x", Err(Some("bad".into()))),
        Err(ExprError::ParseFailed(m)) if m == "bad"
    ));
}

#[test]
fn boolean_places_are_strict() {
    assert!(matches!(require_bool(Ok(EvalValue::Bool(true))), Ok(true)));
    assert!(matches!(require_bool(Ok(EvalValue::Bool(false))), Ok(false)));
    assert!(matches!(require_bool(Ok(EvalValue::Null)), Err(ExprError::NotBool { got }) if got == "Null"));
    assert!(matches!(
        require_bool(Err(ExprError::EvalFailed("e".into()))),
        Err(ExprError::EvalFailed(m)) if m == "e"
    ));
}

#[test]
fn environments_bind_overwrite_and_copy() {
    let mut env = EvalEnv::default();
    assert!(env.get("x").is_none());
    env.set("x", EvalValue::Int(1));
    env.set("x", EvalValue::Int(2));
    env.set("a", text("b"));
    let copy = env.clone();
    assert_eq!(copy.get("x"), Some(&EvalValue::Int(2)));
    assert_eq!(copy.get("a"), Some(&text("b")));
    assert_eq!(copy.get("y"), None);
}

#[test]
fn caches_start_empty_and_keep_what_compiled() {
    let engine = CelEngine::default();
    let mut cache = ExprCache::default();
    assert!(cache.is_empty());
    assert!(cache.compile_cached(&engine, "1").is_ok());
    assert!(cache.compile_cached(&engine, "1 +").is_err());
    assert!(!cache.is_empty());
    assert_eq!(cache.len(), 1);
}
