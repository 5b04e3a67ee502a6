use sdui::json::{Json, JsonNumber};
use sdui::json_text::{json_pretty, parse_json};
use sdui::strmap::StrMap;
use sdui::wire::{open_scene, wrap_scene, SceneShapeError};

#[test]
fn wrapped_values_open_to_what_was_wrapped() {
    let mut state = StrMap::new();
    state.insert("count".to_string(), Json::Number(JsonNumber::PosInt(0)));
    let root = parse_json(r#"{"type": "Text", "label": "A"}"#).expect("root");
    let text = json_pretty(&wrap_scene(state.clone(), root.clone()));
    assert_eq!(open_scene(&parse_json(&text).expect("parse")), Ok((state, root)));
}

#[test]
fn wrappers_may_leave_out_the_state() {
    let top = parse_json(r#"{"root": {"type": "Text"}}"#).expect("parse");
    let (state, root) = open_scene(&top).expect("scene");
    assert!(state.is_empty());
    assert_eq!(root, parse_json(r#"{"type": "Text"}"#).expect("parse"));
    let list = parse_json(r#"[{"n": 1}, {"type": "Text"}]"#).expect("parse");
    let (state, root) = open_scene(&list).expect("scene");
    assert_eq!(state.get("n"), Some(&Json::Number(JsonNumber::PosInt(1))));
    assert_eq!(root, parse_json(r#"{"type": "Text"}"#).expect("parse"));
}

#[test]
fn first_fault_in_key_order_is_reported() {
    let fault = |text: &str| open_scene(&parse_json(text).expect("parse")).expect_err("fault");
    assert_eq!(fault(r#"{"state": 1, "root": {}}"#), SceneShapeError::StateIsNoObject);
    assert_eq!(fault(r#"{"zz": 1, "state": null}"#), SceneShapeError::StateIsNoObject);
    assert_eq!(
        fault(r#"{"state": null, "aa": 1}"#),
        SceneShapeError::UnknownField("aa".to_string())
    );
    assert_eq!(fault("[{}]"), SceneShapeError::NoScene);
    assert_eq!(fault("[1, {}]"), SceneShapeError::NoScene);
    assert_eq!(fault("7"), SceneShapeError::NoScene);
    assert_eq!(
        fault(r#"{"state": 1}"#).message(),
        "invalid type of `state`, expected a map"
    );
    assert_eq!(
        SceneShapeError::NoScene.message(),
        "expected a scene: a node, or a `state` and a `root`"
    );
}
