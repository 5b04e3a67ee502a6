use sdui::cel::CelEngine;
use sdui::engine::{EvalEnv, ExprCache, ExprError};
use sdui::show::{eval_value_to_string, show_outcome};
use sdui::strmap::StrMap;
use sdui::template::{find_interp_end, interpolate_text};
use sdui::value::EvalValue;

fn interp_helper(src: &str, env: &EvalEnv) -> String {
    let engine = CelEngine::new();
    let mut cache = ExprCache::new();
    interpolate_text(src, &engine, env, &mut cache)
}

fn env_with_count(count: i64) -> EvalEnv {
    let mut env = EvalEnv::new();
    let mut state = StrMap::new();
    state.insert("count".into(), EvalValue::Int(count));
    env.set("state", EvalValue::Mapping(state));
    env
}

#[test]
fn interp_passes_through_plain_text() {
    let env = env_with_count(0);
    assert_eq!(interp_helper("Hello, world!", &env), "Hello, world!");
}

#[test]
fn interp_bare_dollar_is_literal() {
    let env = env_with_count(0);
    assert_eq!(interp_helper("Cost: $5.99", &env), "Cost: $5.99");
    assert_eq!(interp_helper("trailing $", &env), "trailing $");
}

#[test]
fn interp_escape_dollar() {
    let env = env_with_count(0);
    assert_eq!(interp_helper("$$", &env), "$");
    assert_eq!(interp_helper("price $$5", &env), "price $5");
}

#[test]
fn interp_escape_braced_dollar() {
    let env = env_with_count(0);
    assert_eq!(interp_helper("$${x}", &env), "${x}");
}

#[test]
fn interp_single_interp() {
    let env = env_with_count(7);
    assert_eq!(interp_helper("Count: ${state.count}", &env), "Count: 7");
}

#[test]
fn interp_multiple_interps() {
    let mut env = EvalEnv::new();
    env.set("x", EvalValue::Int(1));
    env.set("y", EvalValue::Int(2));
    assert_eq!(interp_helper("${x} and ${y}", &env), "1 and 2");
    assert_eq!(interp_helper("${x}${y}", &env), "12");
}

#[test]
fn interp_unclosed_preserves_literal_remainder() {
    let env = env_with_count(0);
    assert_eq!(interp_helper("Count: ${unclosed", &env), "Count: ${unclosed");
}

#[test]
fn interp_parser_handles_double_quoted_brace_in_string() {
    let env = env_with_count(0);
    assert_eq!(interp_helper("${\"}\"}", &env), "}");
}

#[test]
fn interp_parser_handles_single_quoted_brace_in_string() {
    let env = env_with_count(0);
    assert_eq!(interp_helper("${'}'}", &env), "}");
}

#[test]
fn interp_parser_handles_nested_braces_in_expression() {
    let env = env_with_count(0);
    assert_eq!(interp_helper("${{'k': 1}['k']}", &env), "1");
}

#[test]
fn interp_parser_handles_backslash_escaped_quote_in_string() {
    let env = env_with_count(0);
    assert_eq!(interp_helper("${'a\\'b'}", &env), "a'b");
}

#[test]
fn interp_empty_braces_skipped() {
    let env = env_with_count(0);
    assert_eq!(interp_helper("before${}after", &env), "beforeafter");
}

#[test]
fn interp_parse_failure_substitutes_empty() {
    let env = env_with_count(0);
    assert_eq!(interp_helper("val=${1 +}", &env), "val=");
}

#[test]
fn interp_eval_failure_substitutes_empty() {
    let env = env_with_count(0);
    assert_eq!(interp_helper("${undeclared}", &env), "");
}

#[test]
fn interp_preserves_utf8_multibyte() {
    let mut env = EvalEnv::new();
    env.set("name", EvalValue::String("세계".into()));
    assert_eq!(interp_helper("안녕, ${name}!", &env), "안녕, 세계!");
}

#[test]
fn interp_balanced_nested_braces_are_forwarded_to_cel() {
    let mut env = EvalEnv::new();
    env.set("a", EvalValue::Int(1));
    assert_eq!(interp_helper("${a${b}}", &env), "");
}

#[test]
fn doubled_dollars_write_any_text() {
    let env = EvalEnv::new();
    for s in ["", "$", "$$", "${x}", "$${", "a$b${", "no dollars", "$$$$", "{$}"] {
        assert_eq!(interp_helper(&s.replace('$', "$$"), &env), s, "{s:?}");
    }
}

#[test]
fn closing_brace_is_found_by_balance() {
    let chars = |s: &str| s.chars().collect::<Vec<char>>();
    assert_eq!(find_interp_end(&chars("a}"), 0), Some(1));
    assert_eq!(find_interp_end(&chars("${a{b}c}d}"), 2), Some(7));
    assert_eq!(find_interp_end(&chars("'}'"), 0), None);
    assert_eq!(find_interp_end(&chars("'\\'}'}"), 0), Some(5));
    assert_eq!(find_interp_end(&chars("{"), 0), None);
    assert_eq!(find_interp_end(&chars(""), 0), None);
    assert_eq!(find_interp_end(&chars("a}"), 2), None);
    assert_eq!(find_interp_end(&chars("a}"), 3), None);
    assert_eq!(find_interp_end(&chars("a}"), usize::MAX), None);
}

#[test]
fn compiled_interpolations_are_kept() {
    let engine = CelEngine::new();
    let mut cache = ExprCache::new();
    let env = env_with_count(1);
    assert_eq!(
        interpolate_text("${state.count} ${state.count} ${1 +}", &engine, &env, &mut cache),
        "1 1 "
    );
    assert_eq!(cache.len(), 1);
}

#[test]
fn values_read_in_their_natural_form() {
    assert_eq!(eval_value_to_string(&EvalValue::Null), "");
    assert_eq!(eval_value_to_string(&EvalValue::Bool(true)), "true");
    assert_eq!(eval_value_to_string(&EvalValue::Bool(false)), "false");
    assert_eq!(eval_value_to_string(&EvalValue::Int(i64::MIN)), "-9223372036854775808");
    assert_eq!(eval_value_to_string(&EvalValue::Int(0)), "0");
    assert_eq!(eval_value_to_string(&EvalValue::UInt(u64::MAX)), "18446744073709551615");
    assert_eq!(eval_value_to_string(&EvalValue::Float(2.5f64.to_bits())), "2.5");
    assert_eq!(eval_value_to_string(&EvalValue::Float(3.0f64.to_bits())), "3");
    assert_eq!(eval_value_to_string(&EvalValue::Float(f64::NAN.to_bits())), "NaN");
    assert_eq!(eval_value_to_string(&EvalValue::String("as is".into())), "as is");
}

#[test]
fn lists_and_maps_read_as_json() {
    let mut m = StrMap::new();
    m.insert("b".to_string(), EvalValue::List(vec![EvalValue::Int(-1), EvalValue::Null]));
    m.insert("a".to_string(), EvalValue::String("x\"y".into()));
    m.insert("c".to_string(), EvalValue::Float(1.5f64.to_bits()));
    m.insert("d".to_string(), EvalValue::Float(f64::INFINITY.to_bits()));
    m.insert("e".to_string(), EvalValue::UInt(7));
    m.insert("f".to_string(), EvalValue::Bool(true));
    assert_eq!(
        eval_value_to_string(&EvalValue::Mapping(m)),
        "{\"a\":\"x\\\"y\",\"b\":[-1,null],\"c\":1.5,\"d\":null,\"e\":7,\"f\":true}"
    );
    assert_eq!(eval_value_to_string(&EvalValue::List(vec![])), "[]");
}

#[test]
fn errors_read_as_nothing() {
    assert_eq!(show_outcome(&Ok(EvalValue::Int(3))), "3");
    assert_eq!(show_outcome(&Err(ExprError::EvalFailed("x".into()))), "");
}

#[test]
fn expressions_that_compile_are_kept() {
    let engine = CelEngine::new();
    let env = EvalEnv::new();
    let mut cache = ExprCache::new();
    interpolate_text("${1} and ${2} and ${1}, ${1 +}, $${3}", &engine, &env, &mut cache);
    assert_eq!(cache.len(), 2);
    interpolate_text("plain", &engine, &env, &mut cache);
    assert_eq!(cache.len(), 2);
}

#[test]
fn texts_put_together_read_as_their_parts() {
    let env = env_with_count(3);
    let first = "n=${state.count}, $$${'}'} and ${} ";
    for second in ["", "$${x}", "${state.count + 1}", "${open", "{$"] {
        let whole = format!("{first}{second}");
        assert_eq!(
            interp_helper(&whole, &env),
            interp_helper(first, &env) + &interp_helper(second, &env)
        );
    }
    assert_eq!(interp_helper("${state.count}${state.count + 1}", &env), "34");
}
