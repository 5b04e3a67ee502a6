use sdui::coord::Coord;
use sdui::format::{
    mutation_from_json, node_from_json, FileNumber, NumberForm, SceneFileError, SceneTextError,
};
use sdui::json::{Json, JsonNumber};
use sdui::json_text::{json_compact, parse_json};
use sdui::save::{mutation_to_json, node_to_json};
use sdui::scene::{Condition, Frame, Image, ImageSource, Mutation, Scene, SceneNode, Text};
use sdui::strmap::StrMap;
use sdui::wire::SceneShapeError;

#[derive(Clone, Copy, Debug, PartialEq, PartialOrd)]
struct Px(f32);

impl Coord for Px {
    fn spec_zero() -> Self {
        Px(0.0)
    }
    fn spec_plus(self, other: Self) -> Self {
        Px(self.0 + other.0)
    }
    fn spec_at_least(self, other: Self) -> bool {
        self.0 >= other.0
    }
    fn spec_below(self, other: Self) -> bool {
        self.0 < other.0
    }
    fn spec_double_bits(self) -> u64 {
        (self.0 as f64).to_bits()
    }
    fn spec_whole(self) -> i32 {
        self.0 as i32
    }
    fn zero() -> Self {
        Px(0.0)
    }
    fn plus(self, other: Self) -> Self {
        Px(self.0 + other.0)
    }
    fn at_least(self, other: Self) -> bool {
        self.0 >= other.0
    }
    fn below(self, other: Self) -> bool {
        self.0 < other.0
    }
    fn double_bits(self) -> u64 {
        (self.0 as f64).to_bits()
    }
    fn whole(self) -> i32 {
        self.0 as i32
    }
}

impl FileNumber for Px {
    fn spec_from_number(n: JsonNumber) -> Self {
        Px::from_number(n)
    }
    fn from_number(n: JsonNumber) -> Self {
        match n {
            JsonNumber::PosInt(u) => Px(u as f32),
            JsonNumber::NegInt(i) => Px(i as f32),
            JsonNumber::Float(bits) => Px(f64::from_bits(bits) as f32),
        }
    }
    fn spec_form(self) -> NumberForm {
        self.form()
    }
    fn form(self) -> NumberForm {
        NumberForm::Single(self.0.to_bits())
    }
}

type PxNode = SceneNode<Px>;

fn rgba(r: f32, g: f32, b: f32, a: f32) -> [Px; 4] {
    [Px(r), Px(g), Px(b), Px(a)]
}

fn new_frame(label: &str, color: [Px; 4], x: f32, y: f32, w: f32, h: f32) -> PxNode {
    SceneNode::Frame(Frame::new(label, color, Px(x), Px(y), Px(w), Px(h)))
}

fn frame_a() -> PxNode {
    new_frame("A", rgba(1.0, 0.0, 0.0, 1.0), 0.0, 0.0, 10.0, 10.0)
}

fn frame_b() -> PxNode {
    new_frame("B", rgba(0.0, 1.0, 0.0, 1.0), 0.0, 0.0, 20.0, 20.0)
}

fn value(text: &str) -> Json {
    parse_json(text).expect("parse")
}

fn read_node(text: &str) -> Option<PxNode> {
    node_from_json(&value(text), false)
}

fn read_scene(text: &str) -> Result<Scene<Px>, SceneFileError> {
    Scene::deserialize(&value(text))
}

fn load_counter_scene() -> Scene<Px> {
    let json = r#"{
            "state": { "count": 0 },
            "root": {
                "type": "Frame",
                "label": "counter-root",
                "background_color": [0.1, 0.1, 0.12, 1.0],
                "x": 0.0, "y": 0.0, "width": 800.0, "height": 600.0,
                "children": [
                    {
                        "type": "Condition",
                        "when": "ui.hovered == 'counter_btn'",
                        "then": {
                            "type": "Frame",
                            "id": "counter_btn",
                            "label": "button-hovered",
                            "background_color": [0.3, 0.6, 1.0, 1.0],
                            "x": 100.0, "y": 200.0, "width": 160.0, "height": 64.0,
                            "on_click": [{ "path": "count", "set": "state.count + 1" }]
                        },
                        "else": {
                            "type": "Frame",
                            "id": "counter_btn",
                            "label": "button-idle",
                            "background_color": [0.2, 0.45, 0.8, 1.0],
                            "x": 100.0, "y": 200.0, "width": 160.0, "height": 64.0,
                            "on_click": [{ "path": "count", "set": "state.count + 1" }]
                        }
                    },
                    {
                        "type": "Text",
                        "id": "counter_display",
                        "label": "display",
                        "content": "Count: ${state.count}",
                        "font_size": 32.0,
                        "color": [1.0, 1.0, 1.0, 1.0],
                        "x": 300.0, "y": 210.0, "width": 300.0, "height": 40.0
                    }
                ]
            }
        }"#;
    Scene::from_text(json).expect("parse counter scene")
}

#[test]
fn scene_node_json_round_trip() {
    let scene = new_frame("smoke-frame", rgba(0.2, 0.6, 1.0, 1.0), 100.0, 80.0, 300.0, 200.0);

    let json = scene.to_pretty_text();
    let deserialized = read_node(&json).expect("deserialize");
    let json2 = deserialized.to_pretty_text();

    assert_eq!(scene, deserialized);
    assert_eq!(json, json2);

    match &deserialized {
        SceneNode::Frame(f) => {
            assert_eq!(f.label, "smoke-frame");
            assert_eq!(f.background_color, rgba(0.2, 0.6, 1.0, 1.0));
            assert_eq!(f.x, Px(100.0));
            assert!(f.children.is_empty());
        }
        _ => panic!("expected Frame"),
    }
}

#[test]
fn nested_scene_json_round_trip() {
    let scene = SceneNode::Frame(Frame {
        id: None,
        label: "parent".to_string(),
        background_color: rgba(0.2, 0.6, 1.0, 1.0),
        x: Px(100.0),
        y: Px(80.0),
        width: Px(300.0),
        height: Px(200.0),
        children: vec![new_frame("child", rgba(1.0, 0.4, 0.1, 1.0), 20.0, 20.0, 120.0, 80.0)],
        on_click: Vec::new(),
    });

    let json = scene.to_pretty_text();
    let deserialized = read_node(&json).expect("deserialize");
    assert_eq!(scene, deserialized);
}

#[test]
fn text_node_json_round_trip() {
    let scene = SceneNode::Text(Text {
        id: None,
        label: "greeting".to_string(),
        content: "Hello, SDUI!".to_string(),
        font_size: Px(24.0),
        color: rgba(1.0, 1.0, 1.0, 1.0),
        x: Px(10.0),
        y: Px(5.0),
        width: Px(200.0),
        height: Px(30.0),
        on_click: Vec::new(),
    });

    let json = scene.to_pretty_text();
    assert!(json.contains("\"type\": \"Text\""));

    let deserialized = read_node(&json).expect("deserialize");
    assert_eq!(scene, deserialized);
    assert_eq!(deserialized.label(), "greeting");
    assert!(deserialized.children().is_empty());
}

#[test]
fn image_node_json_round_trip() {
    let scene = SceneNode::Image(Image {
        id: None,
        label: "smoke-image".to_string(),
        source: ImageSource::Url {
            url: "http://127.0.0.1:8138/assets/smoke.png".to_string(),
        },
        alt: Some("Checker pattern test image".to_string()),
        x: Px(20.0),
        y: Px(180.0),
        width: Px(120.0),
        height: Px(120.0),
        on_click: Vec::new(),
    });

    let json = scene.to_pretty_text();
    assert!(json.contains("\"type\": \"Image\""));
    assert!(json.contains("\"kind\": \"url\""));

    let deserialized = read_node(&json).expect("deserialize");
    assert_eq!(scene, deserialized);
    assert_eq!(deserialized.label(), "smoke-image");
    assert!(deserialized.children().is_empty());

    match deserialized {
        SceneNode::Image(i) => match i.source {
            ImageSource::Url { url } => {
                assert_eq!(url, "http://127.0.0.1:8138/assets/smoke.png");
            }
            ImageSource::Path { .. } => panic!("expected Url source"),
        },
        _ => panic!("expected Image"),
    }
}

#[test]
fn condition_node_json_round_trip() {
    let scene = SceneNode::Condition(Condition {
        when: "true".to_string(),
        then_branch: Box::new(frame_a()),
        else_branch: Some(Box::new(frame_b())),
    });

    let json = scene.to_pretty_text();
    assert!(json.contains("\"type\": \"Condition\""));
    assert!(json.contains("\"then\""));
    assert!(json.contains("\"else\""));
    assert!(!json.contains("else_branch"));

    let deserialized = read_node(&json).expect("deserialize");
    assert_eq!(scene, deserialized);
}

#[test]
fn condition_with_missing_else_deserializes() {
    let json = r#"{
            "type": "Condition",
            "when": "true",
            "then": {
                "type": "Frame",
                "label": "A",
                "background_color": [1.0, 0.0, 0.0, 1.0],
                "x": 0.0, "y": 0.0, "width": 10.0, "height": 10.0
            }
        }"#;
    match read_node(json).expect("deserialize") {
        SceneNode::Condition(c) => {
            assert_eq!(c.when, "true");
            assert!(c.else_branch.is_none());
        }
        _ => panic!("expected Condition"),
    }
}

#[test]
fn scene_wrapper_round_trip() {
    let mut state = StrMap::new();
    state.insert("count".to_string(), Json::Number(JsonNumber::PosInt(0)));
    let scene = Scene { state, root: frame_a() };
    let json = scene.to_pretty_text();
    assert!(json.contains("\"state\""));
    assert!(json.contains("\"root\""));
    let deserialized = read_scene(&json).expect("deserialize");
    assert_eq!(scene, deserialized);
}

#[test]
fn scene_wrapper_back_compat_bare_root() {
    let bare_json = r#"{
            "type": "Frame",
            "label": "smoke-frame",
            "background_color": [0.2, 0.6, 1.0, 1.0],
            "x": 100.0, "y": 80.0, "width": 300.0, "height": 320.0
        }"#;
    let scene = read_scene(bare_json).expect("deserialize bare");
    assert!(scene.state.is_empty(), "bare root implies empty state");
    match &scene.root {
        SceneNode::Frame(f) => assert_eq!(f.label, "smoke-frame"),
        _ => panic!("expected Frame"),
    }
}

#[test]
fn scene_wrapper_malformed_fails_loud() {
    let bad = r#"{"state": {}}"#;
    let err = read_scene(bad).expect_err("must fail");
    let msg = err.message();
    assert!(
        msg.contains("root") || msg.contains("missing field"),
        "error message should mention missing root: {msg}"
    );
    assert_eq!(err, SceneFileError::Shape(SceneShapeError::MissingRoot));
    assert_eq!(msg, "missing field `root`");
}

#[test]
fn scene_wrapper_rejects_unknown_fields_on_wrapped() {
    let bad = r#"{
            "state": {},
            "root": {
                "type": "Frame",
                "label": "x",
                "background_color": [0,0,0,1],
                "x": 0, "y": 0, "width": 1, "height": 1
            },
            "extra_field": "should fail"
        }"#;
    let err = read_scene(bad).expect_err("must fail");
    let msg = err.message();
    assert!(
        msg.contains("extra_field") || msg.contains("unknown field"),
        "expected unknown-field error, got: {msg}"
    );
    assert_eq!(
        err,
        SceneFileError::Shape(SceneShapeError::UnknownField("extra_field".to_string()))
    );
}

#[test]
fn mutation_serde_round_trip() {
    let m = Mutation {
        path: "count".to_string(),
        set: "state.count + 1".to_string(),
    };
    let json = m.to_text();
    assert_eq!(json, r#"{"path":"count","set":"state.count + 1"}"#);
    let back = mutation_from_json(&value(&json)).expect("deserialize");
    assert_eq!(m, back);
    assert_eq!(value(&json), mutation_to_json(&m));
    assert_eq!(
        m.to_pretty_text(),
        "{\n  \"path\": \"count\",\n  \"set\": \"state.count + 1\"\n}"
    );
}

#[test]
fn frame_with_id_and_on_click_round_trips() {
    let frame = SceneNode::Frame(Frame {
        id: Some("counter_btn".to_string()),
        label: "button".to_string(),
        background_color: rgba(0.2, 0.45, 0.8, 1.0),
        x: Px(100.0),
        y: Px(200.0),
        width: Px(160.0),
        height: Px(64.0),
        children: vec![],
        on_click: vec![Mutation {
            path: "count".to_string(),
            set: "state.count + 1".to_string(),
        }],
    });
    let json = frame.to_text();
    assert!(json.contains("\"id\":\"counter_btn\""));
    assert!(json.contains("\"on_click\""));
    assert!(json.contains("\"path\":\"count\""));
    let back = read_node(&json).expect("deserialize");
    assert_eq!(frame, back);
}

#[test]
fn frame_without_id_or_on_click_keeps_serialized_json_clean() {
    let frame = new_frame("x", [Px(0.0); 4], 0.0, 0.0, 1.0, 1.0);
    let json = frame.to_text();
    assert!(!json.contains("\"id\""), "empty id should not serialize: {json}");
    assert!(
        !json.contains("\"on_click\""),
        "empty on_click should not serialize: {json}"
    );
    assert_eq!(
        json,
        "{\"type\":\"Frame\",\"label\":\"x\",\"background_color\":[0.0,0.0,0.0,0.0],\
         \"x\":0.0,\"y\":0.0,\"width\":1.0,\"height\":1.0,\"children\":[]}"
    );
}

#[test]
fn missing_values_are_written_as_null() {
    let image = SceneNode::Image(Image {
        id: None,
        label: "pic".to_string(),
        source: ImageSource::Path { path: "/tmp/pic.png".to_string() },
        alt: None,
        x: Px(f32::NAN),
        y: Px(0.5),
        width: Px(f32::INFINITY),
        height: Px(-2.0),
        on_click: vec![],
    });
    let text = image.to_text();
    assert_eq!(
        text,
        "{\"type\":\"Image\",\"label\":\"pic\",\
         \"source\":{\"kind\":\"path\",\"path\":\"/tmp/pic.png\"},\"alt\":null,\
         \"x\":null,\"y\":0.5,\"width\":null,\"height\":-2.0}"
    );
    assert_eq!(value(&text), node_to_json(&image));
    let choice: PxNode = SceneNode::Condition(Condition {
        when: "a".to_string(),
        then_branch: Box::new(image),
        else_branch: None,
    });
    let json = choice.to_text();
    assert!(json.ends_with(",\"else\":null}"));
    assert_eq!(value(&json), node_to_json(&choice));
    assert!(read_node(&json).is_none());
}

#[test]
fn fields_of_a_list_stand_in_their_order() {
    let list = r#"["Frame", null, "A", [1, 0, 0, 1], 0, 0.0, 10, 10]"#;
    assert_eq!(read_node(list), Some(frame_a()));
    let full = r#"["Frame", "f", "A", [1, 0, 0, 1], 0, 0, 10, 10, [], [["n", "1"]]]"#;
    match read_node(full).expect("frame") {
        SceneNode::Frame(f) => {
            assert_eq!(f.id.as_deref(), Some("f"));
            assert_eq!(f.on_click[0].path, "n");
            assert_eq!(f.on_click[0].set, "1");
        }
        _ => panic!("expected Frame"),
    }
    let long = r#"["Frame", "f", "A", [1, 0, 0, 1], 0, 0, 10, 10, [], [], 1]"#;
    assert_eq!(read_node(long), None);
}

#[test]
fn kinds_below_the_root_may_be_numbers() {
    let frame = r#"{"type": 0, "label": "A", "background_color": [1, 0, 0, 1],
        "x": 0, "y": 0, "width": 10, "height": 10}"#;
    assert_eq!(read_node(frame), None);
    let choice = format!("{{\"type\": \"Condition\", \"when\": \"a\", \"then\": {frame}}}");
    match read_node(&choice).expect("choice") {
        SceneNode::Condition(c) => assert_eq!(*c.then_branch, frame_a()),
        _ => panic!("expected Condition"),
    }
    assert_eq!(node_from_json(&value(frame), true), Some(frame_a()));
}

#[test]
fn values_that_are_no_nodes_are_refused() {
    for text in [
        "7",
        "{}",
        r#"{"type": "Circle"}"#,
        r#"{"type": "Frame", "label": "A"}"#,
        r#"{"type": "Frame", "label": "A", "background_color": [1, 0, 0],
            "x": 0, "y": 0, "width": 10, "height": 10}"#,
        r#"{"type": "Frame", "label": "A", "background_color": [1, 0, 0, 1],
            "x": "0", "y": 0, "width": 10, "height": 10}"#,
        r#"{"type": "Frame", "label": "A", "background_color": [1, 0, 0, 1],
            "x": 0, "y": 0, "width": 10, "height": 10, "children": [3]}"#,
        r#"{"type": "Frame", "label": "A", "background_color": [1, 0, 0, 1],
            "x": 0, "y": 0, "width": 10, "height": 10, "on_click": null}"#,
        r#"{"type": "Image", "label": "A", "source": {"kind": "file", "path": "p"},
            "x": 0, "y": 0, "width": 10, "height": 10}"#,
        r#"{"type": "Condition", "when": "a"}"#,
    ] {
        assert_eq!(read_node(text), None, "{text}");
        assert_eq!(
            read_scene(&format!("{{\"root\": {text}}}")),
            Err(SceneFileError::Node),
            "{text}"
        );
    }
    assert_eq!(SceneFileError::Node.message(), "the root of the scene is not a node");
    assert!(mutation_from_json(&value(r#"{"path": "n"}"#)).is_none());
}

#[test]
fn fields_that_are_not_known_are_passed_over_in_nodes() {
    let frame = r#"{"type": "Frame", "label": "A", "background_color": [1, 0, 0, 1],
        "x": 0, "y": 0, "width": 10, "height": 10, "id": null, "stray": [1]}"#;
    assert_eq!(read_node(frame), Some(frame_a()));
}

#[test]
fn what_is_read_first_decides_the_fault() {
    let fault = |text: &str| read_scene(text).expect_err("fault");
    assert_eq!(fault(r#"{"root": 1, "zz": 1}"#), SceneFileError::Node);
    assert_eq!(fault(r#"{"root": 1, "state": 1}"#), SceneFileError::Node);
    assert_eq!(
        fault(r#"{"root": 1, "aa": 1}"#),
        SceneFileError::Shape(SceneShapeError::UnknownField("aa".to_string()))
    );
    assert_eq!(fault("[{}, 1, 2]"), SceneFileError::Node);
    assert_eq!(fault("[1, 1]"), SceneFileError::Shape(SceneShapeError::NoScene));
    assert_eq!(fault("7"), SceneFileError::Shape(SceneShapeError::NoScene));
}

#[test]
fn whole_numbers_are_read_from_every_form() {
    assert_eq!(i32::from_number(JsonNumber::PosInt(7)), 7);
    assert_eq!(i32::from_number(JsonNumber::PosInt(u64::MAX)), i32::MAX);
    assert_eq!(i32::from_number(JsonNumber::NegInt(-7)), -7);
    assert_eq!(i32::from_number(JsonNumber::NegInt(i64::MIN)), i32::MIN);
    for (double, whole) in [
        (0.0, 0),
        (-0.75, 0),
        (2.99, 2),
        (-2.99, -2),
        (2147483647.5, i32::MAX),
        (-2147483648.0, i32::MIN),
        (1e300, i32::MAX),
        (f64::NEG_INFINITY, i32::MIN),
        (f64::NAN, 0),
        (1e-320, 0),
    ] {
        assert_eq!(i32::from_number(JsonNumber::Float(f64::to_bits(double))), whole, "{double}");
    }
    for n in [0, 1, -1, 12345, -98765, i32::MAX, i32::MIN] {
        assert_eq!(i32::from_number(JsonNumber::Float(n.double_bits())), n);
    }
}

#[test]
fn bare_nodes_come_back_as_scenes_without_state() {
    let json = json_compact(&node_to_json(&frame_b()));
    assert_eq!(read_scene(&json), Ok(Scene::new(frame_b())));
}

#[test]
fn existing_smoke_scene_still_parses_as_scene() {
    let smoke_json = r#"{
            "type": "Frame",
            "label": "smoke-frame",
            "background_color": [0.2, 0.6, 1.0, 1.0],
            "x": 100.0, "y": 80.0, "width": 300.0, "height": 320.0,
            "children": [
                {
                    "type": "Frame",
                    "label": "child-frame",
                    "background_color": [1.0, 0.4, 0.1, 1.0],
                    "x": 20.0, "y": 20.0, "width": 120.0, "height": 80.0
                },
                {
                    "type": "Text",
                    "label": "greeting",
                    "content": "Hello, SDUI!",
                    "font_size": 24.0,
                    "color": [1.0, 1.0, 1.0, 1.0],
                    "x": 20.0, "y": 120.0, "width": 200.0, "height": 30.0
                },
                {
                    "type": "Image",
                    "label": "smoke-image",
                    "source": { "kind": "url", "url": "http://127.0.0.1:8138/assets/smoke.png" },
                    "alt": "Checker pattern test image",
                    "x": 20.0, "y": 180.0, "width": 120.0, "height": 120.0
                }
            ]
        }"#;
    let scene: Scene<Px> = Scene::from_text(smoke_json).expect("deserialize smoke");
    assert!(scene.state.is_empty());
    match &scene.root {
        SceneNode::Frame(f) => assert_eq!(f.label, "smoke-frame"),
        _ => panic!("expected Frame"),
    }
}

#[test]
fn counter_scene_parses_with_initial_count() {
    let scene = load_counter_scene();
    assert_eq!(scene.state.get("count"), Some(&Json::Number(JsonNumber::PosInt(0))));
    match &scene.root {
        SceneNode::Frame(f) => assert_eq!(f.label, "counter-root"),
        _ => panic!("expected Frame root"),
    }
}

#[test]
fn whole_scenes_survive_their_text() {
    let scene = load_counter_scene();
    assert_eq!(Scene::from_text(&scene.to_text()), Ok(scene.clone()));
    assert_eq!(Scene::from_text(&scene.to_pretty_text()), Ok(scene.clone()));
    assert_eq!(Scene::deserialize(&scene.serialize()), Ok(scene));
}

#[test]
fn texts_without_a_scene_are_refused() {
    let read = |text: &str| Scene::<Px>::from_text(text).expect_err("must fail");
    match read("{\"root\": ") {
        SceneTextError::Json(message) => {
            assert_eq!(message, "EOF while parsing a value at line 1 column 9");
        }
        other => panic!("expected a parse error, got {other:?}"),
    }
    assert_eq!(
        read("{\"root\": ").message(),
        "EOF while parsing a value at line 1 column 9"
    );
    assert_eq!(read("{\"root\": 1}"), SceneTextError::Scene(SceneFileError::Node));
    assert_eq!(read("{}").message(), "missing field `root`");
}

#[test]
fn fields_are_written_in_the_order_of_their_declaration() {
    let mut state = StrMap::new();
    state.insert("b".to_string(), value("[1, {\"k\": \"two\\nlines\"}]"));
    state.insert("a".to_string(), value("{}"));
    let scene = Scene {
        state,
        root: SceneNode::Frame(Frame {
            id: Some("f".to_string()),
            label: "say \"hi\"".to_string(),
            background_color: rgba(0.2, 0.6, 1.0, 1.0),
            x: Px(0.1),
            y: Px(-3.0),
            width: Px(640.0),
            height: Px(4.5),
            children: vec![SceneNode::Text(Text {
                id: None,
                label: "t".to_string(),
                content: "c".to_string(),
                font_size: Px(12.0),
                color: rgba(0.0, 0.0, 0.0, 1.0),
                x: Px(1.0),
                y: Px(2.0),
                width: Px(3.0),
                height: Px(4.0),
                on_click: vec![],
            })],
            on_click: vec![Mutation { path: "p".to_string(), set: "1".to_string() }],
        }),
    };
    assert_eq!(
        scene.to_text(),
        "{\"state\":{\"a\":{},\"b\":[1,{\"k\":\"two\\nlines\"}]},\
         \"root\":{\"type\":\"Frame\",\"id\":\"f\",\"label\":\"say \\\"hi\\\"\",\
         \"background_color\":[0.2,0.6,1.0,1.0],\"x\":0.1,\"y\":-3.0,\"width\":640.0,\
         \"height\":4.5,\"children\":[{\"type\":\"Text\",\"label\":\"t\",\"content\":\"c\",\
         \"font_size\":12.0,\"color\":[0.0,0.0,0.0,1.0],\"x\":1.0,\"y\":2.0,\"width\":3.0,\
         \"height\":4.0}],\"on_click\":[{\"path\":\"p\",\"set\":\"1\"}]}}"
    );
    let pretty = r#"{
  "state": {
    "a": {},
    "b": [
      1,
      {
        "k": "two\nlines"
      }
    ]
  },
  "root": {
    "type": "Frame",
    "id": "f",
    "label": "say \"hi\"",
    "background_color": [
      0.2,
      0.6,
      1.0,
      1.0
    ],
    "x": 0.1,
    "y": -3.0,
    "width": 640.0,
    "height": 4.5,
    "children": [
      {
        "type": "Text",
        "label": "t",
        "content": "c",
        "font_size": 12.0,
        "color": [
          0.0,
          0.0,
          0.0,
          1.0
        ],
        "x": 1.0,
        "y": 2.0,
        "width": 3.0,
        "height": 4.0
      }
    ],
    "on_click": [
      {
        "path": "p",
        "set": "1"
      }
    ]
  }
}"#;
    assert_eq!(scene.to_pretty_text(), pretty);
}

#[test]
fn numbers_are_written_with_the_digits_of_their_precision() {
    let color = |node: String| {
        let from = node.find('[').expect("colour");
        let to = node.find(']').expect("colour");
        node[from..=to].to_string()
    };
    for n in [0.1f32, 0.2, 1e20, 1e-7, 16777217.0, f32::MAX, f32::MIN_POSITIVE, -0.0, 1e-45] {
        let written = new_frame("n", [Px(n); 4], 0.0, 0.0, 1.0, 1.0).to_text();
        let digits = serde_json::to_string(&n).expect("number");
        assert_eq!(color(written), format!("[{digits},{digits},{digits},{digits}]"));
    }
    for n in [f32::NAN, f32::INFINITY, f32::NEG_INFINITY] {
        let written = new_frame("n", [Px(n); 4], 0.0, 0.0, 1.0, 1.0).to_text();
        assert_eq!(color(written), "[null,null,null,null]");
    }
    let whole = SceneNode::Frame(Frame::new("n", [7i32, -2, 0, i32::MIN], 0, 0, 1, 1));
    assert_eq!(color(whole.to_text()), "[7.0,-2.0,0.0,-2147483648.0]");
}
