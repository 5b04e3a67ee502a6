use sdui::cel::CelEngine;
use sdui::engine::{EvalEnv, ExprCache, ExprError};
use sdui::json::{eval_value_to_json, json_to_eval_value, Json, JsonNumber};
use sdui::json_text::{from_serde, json_compact, json_pretty, parse_json, to_serde};
use sdui::mutate::{apply_mutations, apply_outcome};
use sdui::path::{split_path, write_path};
use sdui::scene::Mutation;
use sdui::strmap::StrMap;
use sdui::text::{chars_of, order_keys, same_text, text_of, KeyOrder};
use sdui::value::EvalValue;

fn whole(n: i64) -> Json {
    if n < 0 {
        Json::Number(JsonNumber::NegInt(n))
    } else {
        Json::Number(JsonNumber::PosInt(n as u64))
    }
}

fn decimal(f: f64) -> Json {
    Json::Number(JsonNumber::Float(f.to_bits()))
}

fn string(s: &str) -> Json {
    Json::String(s.to_string())
}

fn members(entries: Vec<(&str, Json)>) -> StrMap<Json> {
    let mut m = StrMap::new();
    for (k, v) in entries {
        m.insert(k.to_string(), v);
    }
    m
}

fn object(entries: Vec<(&str, Json)>) -> Json {
    Json::Object(members(entries))
}

fn mutation(path: &str, set: &str) -> Mutation {
    Mutation { path: path.to_string(), set: set.to_string() }
}

#[test]
fn maps_do_not_depend_on_the_order_of_insertion() {
    let mut a = StrMap::new();
    let mut b = StrMap::new();
    for k in ["b", "", "aa", "a", "é", "z"] {
        a.insert(k.to_string(), k.len());
    }
    for k in ["z", "é", "a", "aa", "", "b"] {
        b.insert(k.to_string(), 0);
        b.insert(k.to_string(), k.len());
    }
    assert_eq!(a, b);
    assert_eq!(a.len(), 6);
    assert_eq!(a.get("é"), Some(&2));
    assert_eq!(a.at("aa"), &2);
    assert!(a.contains_key("") && !a.contains_key("c"));
    assert_eq!(a.remove("aa"), Some(2));
    assert_eq!(a.remove("aa"), None);
    assert_eq!(a.get("aa"), None);
    assert_eq!(a.len(), 5);
    assert!(!a.is_empty());
    assert!(StrMap::<u8>::new().is_empty());
}

#[test]
fn keys_are_ordered_by_bytes() {
    assert!(matches!(order_keys("a", "b"), KeyOrder::Before));
    assert!(matches!(order_keys("a", "aa"), KeyOrder::Before));
    assert!(matches!(order_keys("", "a"), KeyOrder::Before));
    assert!(matches!(order_keys("z", "é"), KeyOrder::Before));
    assert!(matches!(order_keys("b", "ab"), KeyOrder::After));
    assert!(matches!(order_keys("é", "é"), KeyOrder::Same));
    assert!(same_text("x", "x") && !same_text("x", "X"));
}

#[test]
fn texts_are_taken_apart_and_put_together() {
    let chars = chars_of("aé세");
    assert_eq!(chars, vec!['a', 'é', '세']);
    assert_eq!(text_of(&chars, 1, 3), "é세");
    assert_eq!(text_of(&chars, 1, 1), "");
}

#[test]
fn json_survives_a_trip_through_evaluation() {
    let j = object(vec![
        ("null", Json::Null),
        ("yes", Json::Bool(true)),
        ("int", whole(5)),
        ("neg", whole(-5)),
        ("big", Json::Number(JsonNumber::PosInt(u64::MAX))),
        ("float", decimal(0.1)),
        ("text", string("t")),
        ("list", Json::Array(vec![whole(1), object(vec![])])),
    ]);
    assert_eq!(eval_value_to_json(&json_to_eval_value(&j)), j);
    assert_eq!(j.clone(), j);
}

#[test]
fn json_numbers_prefer_signed_integers() {
    assert_eq!(json_to_eval_value(&whole(7)), EvalValue::Int(7));
    assert_eq!(json_to_eval_value(&whole(i64::MIN)), EvalValue::Int(i64::MIN));
    let big = Json::Number(JsonNumber::PosInt(1 << 63));
    assert_eq!(json_to_eval_value(&big), EvalValue::UInt(1 << 63));
    assert_eq!(json_to_eval_value(&decimal(2.0)), EvalValue::Float(2.0f64.to_bits()));
    assert_eq!(json_to_eval_value(&decimal(f64::NAN)), EvalValue::Null);
}

#[test]
fn stored_values_settle() {
    assert_eq!(json_to_eval_value(&eval_value_to_json(&EvalValue::UInt(3))), EvalValue::Int(3));
    assert_eq!(eval_value_to_json(&EvalValue::Float(f64::INFINITY.to_bits())), Json::Null);
    assert_eq!(eval_value_to_json(&EvalValue::Float(f64::MAX.to_bits())), decimal(f64::MAX));
    assert_eq!(eval_value_to_json(&EvalValue::Float(5e-324f64.to_bits())), decimal(5e-324));
    assert_eq!(
        eval_value_to_json(&EvalValue::List(vec![EvalValue::Bool(false), EvalValue::Int(-1)])),
        Json::Array(vec![Json::Bool(false), whole(-1)])
    );
}

#[test]
fn json_texts_come_from_serde_json() {
    let j = object(vec![("b", Json::Array(vec![whole(-1), decimal(1.5)])), ("a", Json::Null)]);
    assert_eq!(json_compact(&j), "{\"a\":null,\"b\":[-1,1.5]}");
    assert_eq!(json_pretty(&j), "{\n  \"a\": null,\n  \"b\": [\n    -1,\n    1.5\n  ]\n}");
    assert_eq!(parse_json(" {\"b\": [-1, 1.5], \"a\": null}"), Ok(j));
    assert!(parse_json("{").is_err());
    assert_eq!(
        parse_json("[1 2]"),
        Err("expected `,` or `]` at line 1 column 4".to_string())
    );
}

#[test]
fn json_values_convert_both_ways() {
    let j = object(vec![
        ("n", Json::Array(vec![whole(0), whole(-7), decimal(2.0), Json::Number(JsonNumber::PosInt(u64::MAX))])),
        ("s", string("x")),
        ("t", Json::Bool(true)),
        ("z", Json::Null),
    ]);
    assert_eq!(from_serde(&to_serde(&j)), j);
}

#[test]
fn paths_split_at_dots() {
    assert_eq!(split_path("count"), vec!["count"]);
    assert_eq!(split_path("cart.items"), vec!["cart", "items"]);
    assert_eq!(split_path(""), vec![""]);
    assert_eq!(split_path("a..b."), vec!["a", "", "b", ""]);
}

#[test]
fn writes_create_objects_on_the_way() {
    let mut state = StrMap::new();
    write_path(&mut state, "a.b.c", whole(1));
    assert_eq!(state, members(vec![("a", object(vec![("b", object(vec![("c", whole(1))]))]))]));
    write_path(&mut state, "a.b.d", whole(2));
    write_path(&mut state, "a.x", whole(3));
    assert_eq!(
        state,
        members(vec![(
            "a",
            object(vec![("b", object(vec![("c", whole(1)), ("d", whole(2))])), ("x", whole(3))])
        )])
    );
}

#[test]
fn writes_replace_what_is_no_object() {
    let mut state = members(vec![("a", whole(1)), ("keep", string("me"))]);
    write_path(&mut state, "a.b.c", Json::Bool(true));
    assert_eq!(
        state,
        members(vec![
            ("a", object(vec![("b", object(vec![("c", Json::Bool(true))]))])),
            ("keep", string("me")),
        ])
    );
    write_path(&mut state, "a.b", whole(5));
    write_path(&mut state, "a.b", whole(6));
    assert_eq!(state.get("a"), Some(&object(vec![("b", whole(6))])));
    write_path(&mut state, "", whole(0));
    assert_eq!(state.get(""), Some(&whole(0)));
}

#[test]
fn mutations_hand_back_the_first_error() {
    let engine = CelEngine::new();
    let mut cache = ExprCache::new();
    let env = EvalEnv::new();
    let mut state = members(vec![("n", whole(1))]);
    let ms = vec![
        mutation("n", "2"),
        mutation("n", "missing"),
        mutation("m", "1 +"),
        mutation("o", "'done'"),
    ];
    match apply_mutations(&mut state, &ms, &engine, &env, &mut cache) {
        Some(ExprError::EvalFailed(m)) => assert_eq!(m, "Undeclared reference to 'missing'"),
        other => panic!("expected EvalFailed, got {other:?}"),
    }
    assert_eq!(state, members(vec![("n", whole(2)), ("o", string("done"))]));
    assert!(apply_mutations(&mut state, &[], &engine, &env, &mut cache).is_none());
}

#[test]
fn mutations_all_see_the_environment_from_before() {
    let engine = CelEngine::new();
    let mut cache = ExprCache::new();
    let mut env = EvalEnv::new();
    env.set("x", EvalValue::Int(1));
    let mut state = members(vec![]);
    let ms = vec![mutation("x", "x + 1"), mutation("y", "x + 1")];
    assert!(apply_mutations(&mut state, &ms, &engine, &env, &mut cache).is_none());
    assert_eq!(state, members(vec![("x", whole(2)), ("y", whole(2))]));
}

#[test]
fn outcomes_are_written_one_by_one() {
    let mut state = members(vec![]);
    let m = mutation("a.b", "ignored");
    assert!(apply_outcome(&mut state, &m, Ok(EvalValue::UInt(4))).is_none());
    assert_eq!(state, members(vec![("a", object(vec![("b", whole(4))]))]));
    let copy = state.clone();
    assert!(apply_outcome(&mut state, &m, Err(ExprError::EvalFailed("x".into()))).is_some());
    assert_eq!(state, copy);
}

#[test]
fn doubles_are_compared_as_numbers() {
    let value = |f: f64| EvalValue::Float(f.to_bits());
    assert_eq!(value(0.0), value(-0.0));
    assert_ne!(value(f64::NAN), value(f64::NAN));
    assert_eq!(value(f64::INFINITY), value(f64::INFINITY));
    assert_ne!(value(1.0), value(-1.0));
    assert_ne!(value(1.0), EvalValue::Int(1));
    assert_eq!(EvalValue::List(vec![value(0.0)]), EvalValue::List(vec![value(-0.0)]));
    assert_ne!(EvalValue::List(vec![value(f64::NAN)]), EvalValue::List(vec![value(f64::NAN)]));
    assert_eq!(decimal(0.0), decimal(-0.0));
    assert_ne!(decimal(1.0), whole(1));
    assert_eq!(object(vec![("a", decimal(-0.0))]), object(vec![("a", decimal(0.0))]));
    assert_ne!(object(vec![("a", whole(1))]), object(vec![("b", whole(1))]));
    assert_ne!(object(vec![("a", whole(1))]), object(vec![]));
}
