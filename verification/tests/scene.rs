use accesskit::{Action, Role};
use sdui::cel::CelEngine;
use sdui::coord::Coord;
use sdui::engine::{EvalEnv, ExprCache};
use sdui::flat::{flatten_scene, FlatNode, FlatNodeKind};
use sdui::ids::{fnv1a_64, node_id_from_string, root_node_id, NodeId, EPHEMERAL_NODE_ID_BASE};
use sdui::interact::{
    build_eval_env, hit_test, refresh_interaction_after_rebuild, validate_flat, InteractionState,
    SceneValidation,
};
use sdui::json::{Json, JsonNumber};
use sdui::mutate::apply_mutations;
use sdui::resolve::resolve_scene;
use sdui::scene::{Condition, Frame, Image, ImageSource, Mutation, Scene, SceneNode, Text};
use sdui::strmap::StrMap;
use sdui::value::EvalValue;

#[derive(Clone, Copy, Debug, PartialEq, PartialOrd)]
struct Px(f32);

impl Coord for Px {
    fn spec_zero() -> Self {
        Px(0.0)
    }
    fn spec_plus(self, other: Self) -> Self {
        Px(self.0 + other.0)
    }
    fn spec_at_least(self, other: Self) -> bool {
        self.0 >= other.0
    }
    fn spec_below(self, other: Self) -> bool {
        self.0 < other.0
    }
    fn spec_double_bits(self) -> u64 {
        (self.0 as f64).to_bits()
    }
    fn spec_whole(self) -> i32 {
        self.0 as i32
    }
    fn zero() -> Self {
        Px(0.0)
    }
    fn plus(self, other: Self) -> Self {
        Px(self.0 + other.0)
    }
    fn at_least(self, other: Self) -> bool {
        self.0 >= other.0
    }
    fn below(self, other: Self) -> bool {
        self.0 < other.0
    }
    fn double_bits(self) -> u64 {
        (self.0 as f64).to_bits()
    }
    fn whole(self) -> i32 {
        self.0 as i32
    }
}

type PxNode = SceneNode<Px>;

fn rgba(r: f32, g: f32, b: f32, a: f32) -> [Px; 4] {
    [Px(r), Px(g), Px(b), Px(a)]
}

fn clear() -> [Px; 4] {
    [Px(0.0); 4]
}

fn new_frame(label: &str, color: [Px; 4], x: f32, y: f32, w: f32, h: f32) -> PxNode {
    SceneNode::Frame(Frame::new(label, color, Px(x), Px(y), Px(w), Px(h)))
}

fn frame(
    id: Option<&str>,
    label: &str,
    color: [Px; 4],
    at: (f32, f32, f32, f32),
    children: Vec<PxNode>,
    on_click: Vec<Mutation>,
) -> PxNode {
    SceneNode::Frame(Frame {
        id: id.map(|s| s.to_string()),
        label: label.to_string(),
        background_color: color,
        x: Px(at.0),
        y: Px(at.1),
        width: Px(at.2),
        height: Px(at.3),
        children,
        on_click,
    })
}

fn mutation(path: &str, set: &str) -> Mutation {
    Mutation { path: path.to_string(), set: set.to_string() }
}

fn choice(when: &str, yes: PxNode, no: Option<PxNode>) -> PxNode {
    SceneNode::Condition(Condition {
        when: when.to_string(),
        then_branch: Box::new(yes),
        else_branch: no.map(Box::new),
    })
}

fn frame_a() -> PxNode {
    new_frame("A", rgba(1.0, 0.0, 0.0, 1.0), 0.0, 0.0, 10.0, 10.0)
}

fn frame_b() -> PxNode {
    new_frame("B", rgba(0.0, 1.0, 0.0, 1.0), 0.0, 0.0, 20.0, 20.0)
}

fn resolve(scene: &PxNode) -> Option<PxNode> {
    let engine = CelEngine::new();
    let env = EvalEnv::new();
    let mut cache = ExprCache::new();
    resolve_scene(scene, &engine, &env, &mut cache)
}

fn whole(n: u64) -> Json {
    Json::Number(JsonNumber::PosInt(n))
}

fn one_value(key: &str, value: EvalValue) -> EvalValue {
    let mut m = StrMap::new();
    m.insert(key.to_string(), value);
    EvalValue::Mapping(m)
}

fn interface(hovered: EvalValue) -> EvalValue {
    let mut ui = StrMap::new();
    ui.insert("hovered".to_string(), hovered);
    ui.insert("pressed".to_string(), EvalValue::Null);
    EvalValue::Mapping(ui)
}

fn load_counter_scene() -> Scene<Px> {
    let button = |label: &str, color: [Px; 4]| {
        frame(
            Some("counter_btn"),
            label,
            color,
            (100.0, 200.0, 160.0, 64.0),
            vec![],
            vec![mutation("count", "state.count + 1")],
        )
    };
    let root = frame(
        None,
        "counter-root",
        rgba(0.1, 0.1, 0.12, 1.0),
        (0.0, 0.0, 800.0, 600.0),
        vec![
            choice(
                "ui.hovered == 'counter_btn'",
                button("button-hovered", rgba(0.3, 0.6, 1.0, 1.0)),
                Some(button("button-idle", rgba(0.2, 0.45, 0.8, 1.0))),
            ),
            SceneNode::Text(Text {
                id: Some("counter_display".to_string()),
                label: "display".to_string(),
                content: "Count: ${state.count}".to_string(),
                font_size: Px(32.0),
                color: [Px(1.0); 4],
                x: Px(300.0),
                y: Px(210.0),
                width: Px(300.0),
                height: Px(40.0),
                on_click: vec![],
            }),
        ],
        vec![],
    );
    let mut state = StrMap::new();
    state.insert("count".to_string(), whole(0));
    Scene { state, root }
}

#[test]
fn accesskit_node_has_bounds() {
    let frame = Frame::new("test", rgba(1.0, 0.0, 0.0, 1.0), Px(10.0), Px(20.0), Px(100.0), Px(50.0));
    let node = frame.to_accesskit_node();
    let bounds = node.bounds().expect("bounds should be set");
    assert_eq!(bounds.x0, 10.0);
    assert_eq!(bounds.y0, 20.0);
    assert_eq!(bounds.x1, 110.0);
    assert_eq!(bounds.y1, 70.0);
}

#[test]
fn flatten_scene_resolves_absolute_positions() {
    let scene = frame(
        None,
        "parent",
        rgba(0.2, 0.6, 1.0, 1.0),
        (100.0, 80.0, 300.0, 200.0),
        vec![new_frame("child", rgba(1.0, 0.4, 0.1, 1.0), 20.0, 10.0, 120.0, 80.0)],
        vec![],
    );
    let flat = flatten_scene(&scene);
    assert_eq!(flat.len(), 2);
    assert_ne!(flat[0].id, root_node_id());
    assert_ne!(flat[1].id, root_node_id());
    assert_ne!(flat[0].id, flat[1].id);
    assert_eq!(flat[0].abs_x, Px(100.0));
    assert_eq!(flat[0].abs_y, Px(80.0));
    assert_eq!(flat[0].child_ids, vec![flat[1].id]);
    assert_eq!(flat[1].abs_x, Px(120.0));
    assert_eq!(flat[1].abs_y, Px(90.0));
    assert!(flat[1].child_ids.is_empty());
}

#[test]
fn flatten_scene_with_text_child() {
    let scene = frame(
        None,
        "container",
        clear(),
        (50.0, 30.0, 200.0, 100.0),
        vec![SceneNode::Text(Text {
            id: None,
            label: "title".into(),
            content: "Hello".into(),
            font_size: Px(24.0),
            color: rgba(1.0, 1.0, 1.0, 1.0),
            x: Px(10.0),
            y: Px(10.0),
            width: Px(100.0),
            height: Px(30.0),
            on_click: Vec::new(),
        })],
        vec![],
    );
    let flat = flatten_scene(&scene);
    assert_eq!(flat.len(), 2);
    assert_eq!(flat[0].child_ids, vec![flat[1].id]);
    assert!(matches!(flat[0].kind, FlatNodeKind::Frame { .. }));
    assert_eq!(flat[1].abs_x, Px(60.0));
    assert_eq!(flat[1].abs_y, Px(40.0));
    assert!(flat[1].child_ids.is_empty());
    match &flat[1].kind {
        FlatNodeKind::Text { content, font_size, color } => {
            assert_eq!(content, "Hello");
            assert_eq!(*font_size, Px(24.0));
            assert_eq!(*color, rgba(1.0, 1.0, 1.0, 1.0));
        }
        _ => panic!("expected Text"),
    }
    let ak = flat[1].to_accesskit_node();
    assert_eq!(ak.role(), Role::Label);
    assert_eq!(ak.label().unwrap().to_string(), "Hello");
}

#[test]
fn flat_node_accesskit_has_absolute_bounds_and_children() {
    let scene = frame(
        None,
        "root-frame",
        clear(),
        (50.0, 30.0, 200.0, 100.0),
        vec![new_frame("nested", [Px(1.0); 4], 10.0, 10.0, 80.0, 40.0)],
        vec![],
    );
    let flat = flatten_scene(&scene);
    let parent_ak = flat[0].to_accesskit_node();
    let child_ak = flat[1].to_accesskit_node();
    let pb = parent_ak.bounds().unwrap();
    assert_eq!(pb.x0, 50.0);
    assert_eq!(pb.y0, 30.0);
    assert_eq!(pb.x1, 250.0);
    assert_eq!(pb.y1, 130.0);
    assert_eq!(parent_ak.children(), &[accesskit::NodeId(flat[1].id.0)]);
    let cb = child_ak.bounds().unwrap();
    assert_eq!(cb.x0, 60.0);
    assert_eq!(cb.y0, 40.0);
    assert_eq!(cb.x1, 140.0);
    assert_eq!(cb.y1, 80.0);
}

#[test]
fn flatten_scene_with_image_child() {
    let scene = frame(
        None,
        "container",
        clear(),
        (50.0, 30.0, 200.0, 200.0),
        vec![SceneNode::Image(Image {
            id: None,
            label: "pic".into(),
            source: ImageSource::Path { path: "/tmp/pic.png".into() },
            alt: Some("A test picture".into()),
            x: Px(10.0),
            y: Px(20.0),
            width: Px(64.0),
            height: Px(64.0),
            on_click: Vec::new(),
        })],
        vec![],
    );
    let flat = flatten_scene(&scene);
    assert_eq!(flat.len(), 2);
    assert_eq!(flat[0].child_ids, vec![flat[1].id]);
    assert!(matches!(flat[0].kind, FlatNodeKind::Frame { .. }));
    assert_eq!(flat[1].abs_x, Px(60.0));
    assert_eq!(flat[1].abs_y, Px(50.0));
    assert!(flat[1].child_ids.is_empty());
    match &flat[1].kind {
        FlatNodeKind::Image { source, alt } => {
            assert_eq!(*source, ImageSource::Path { path: "/tmp/pic.png".into() });
            assert_eq!(alt.as_deref(), Some("A test picture"));
        }
        _ => panic!("expected Image"),
    }
}

#[test]
fn flat_node_image_uses_role_image() {
    let scene = SceneNode::Image(Image {
        id: None,
        label: "fallback-label".into(),
        source: ImageSource::Url { url: "http://example/foo.png".into() },
        alt: None,
        x: Px(0.0),
        y: Px(0.0),
        width: Px(50.0),
        height: Px(50.0),
        on_click: Vec::new(),
    });
    let flat = flatten_scene(&scene);
    assert_eq!(flat.len(), 1);
    let ak = flat[0].to_accesskit_node();
    assert_eq!(ak.role(), Role::Image);
    assert_eq!(ak.label().unwrap().to_string(), "fallback-label");
    let bounds = ak.bounds().unwrap();
    assert_eq!(bounds.x0, 0.0);
    assert_eq!(bounds.y0, 0.0);
    assert_eq!(bounds.x1, 50.0);
    assert_eq!(bounds.y1, 50.0);
}

#[test]
fn resolve_scene_true_selects_then() {
    let scene = choice("true", frame_a(), Some(frame_b()));
    let resolved = resolve(&scene).expect("root resolved to a branch");
    let flat = flatten_scene(&resolved);
    assert_eq!(flat.len(), 1);
    assert_eq!(flat[0].label, "A");
    assert_ne!(flat[0].id, root_node_id());
}

#[test]
fn resolve_scene_false_selects_else() {
    let scene = choice("false", frame_a(), Some(frame_b()));
    let resolved = resolve(&scene).expect("root resolved to a branch");
    let flat = flatten_scene(&resolved);
    assert_eq!(flat.len(), 1);
    assert_eq!(flat[0].label, "B");
    assert_ne!(flat[0].id, root_node_id());
}

#[test]
fn resolve_scene_false_with_missing_else_emits_none() {
    let scene = choice("false", frame_a(), None);
    assert!(resolve(&scene).is_none());
}

#[test]
fn resolve_scene_inside_frame_filters_child() {
    let scene = frame(
        None,
        "parent",
        clear(),
        (0.0, 0.0, 100.0, 100.0),
        vec![choice("true", frame_a(), None), choice("false", frame_b(), None)],
        vec![],
    );
    let resolved = resolve(&scene).expect("root resolved");
    let flat = flatten_scene(&resolved);
    assert_eq!(flat.len(), 2);
    assert_ne!(flat[0].id, root_node_id());
    assert_eq!(flat[0].child_ids, vec![flat[1].id]);
    assert_eq!(flat[1].label, "A");
    assert_ne!(flat[1].id, root_node_id());
}

#[test]
fn resolve_scene_eval_failure_treated_as_false() {
    let scene = choice("1 + 1", frame_a(), Some(frame_b()));
    let resolved = resolve(&scene).expect("root resolved");
    let flat = flatten_scene(&resolved);
    assert_eq!(flat.len(), 1);
    assert_eq!(flat[0].label, "B");
}

#[test]
fn resolve_scene_parse_failure_treated_as_false_with_warning() {
    let scene = choice("1 +", frame_a(), Some(frame_b()));
    let resolved = resolve(&scene).expect("root resolved");
    let flat = flatten_scene(&resolved);
    assert_eq!(flat.len(), 1);
    assert_eq!(flat[0].label, "B");
}

#[test]
fn stable_nodeid_hash_of_string_id_is_deterministic() {
    let scene = frame(Some("counter_btn"), "btn", clear(), (0.0, 0.0, 10.0, 10.0), vec![], vec![]);
    let a = flatten_scene(&scene);
    let b = flatten_scene(&scene);
    assert_eq!(a.len(), 1);
    assert_eq!(a[0].id, b[0].id);
    assert_eq!(a[0].author_id.as_deref(), Some("counter_btn"));
}

#[test]
fn stable_nodeid_different_ids_get_different_hashes() {
    let mk = |id: &str| frame(Some(id), "x", clear(), (0.0, 0.0, 1.0, 1.0), vec![], vec![]);
    let a = flatten_scene(&mk("btn_a"));
    let b = flatten_scene(&mk("btn_b"));
    assert_ne!(a[0].id, b[0].id);
}

#[test]
fn anonymous_nodes_get_ephemeral_nodeid_with_top_bit_set() {
    let scene = frame_a();
    let flat = flatten_scene(&scene);
    assert_eq!(flat.len(), 1);
    assert_ne!(flat[0].id, root_node_id());
    assert!(
        (flat[0].id.0 & EPHEMERAL_NODE_ID_BASE) != 0,
        "anonymous id {:#x} should have ephemeral high bit set",
        flat[0].id.0
    );
    assert!(flat[0].author_id.is_none());
}

#[test]
fn named_and_anonymous_id_spaces_are_disjoint() {
    let named = frame(Some("z"), "z", clear(), (0.0, 0.0, 1.0, 1.0), vec![], vec![]);
    let named_flat = flatten_scene(&named);
    let anon_flat = flatten_scene(&frame_a());
    assert_eq!(named_flat[0].id.0 & EPHEMERAL_NODE_ID_BASE, 0);
    assert_ne!(anon_flat[0].id.0 & EPHEMERAL_NODE_ID_BASE, 0);
}

#[test]
fn hit_test_topmost_wins() {
    let scene = frame(
        None,
        "root",
        clear(),
        (0.0, 0.0, 100.0, 100.0),
        vec![
            frame(Some("a"), "a", clear(), (10.0, 10.0, 50.0, 50.0), vec![], vec![]),
            frame(Some("b"), "b", clear(), (20.0, 20.0, 50.0, 50.0), vec![], vec![]),
        ],
        vec![],
    );
    let flat = flatten_scene(&scene);
    let hit = hit_test(&flat, Px(30.0), Px(30.0)).expect("hit");
    assert_eq!(hit.author_id.as_deref(), Some("b"));
}

#[test]
fn hit_test_ignores_nodes_without_id() {
    let scene = frame(None, "root", clear(), (0.0, 0.0, 100.0, 100.0), vec![], vec![]);
    let flat = flatten_scene(&scene);
    assert_eq!(flat.len(), 1);
    assert!(hit_test(&flat, Px(50.0), Px(50.0)).is_none());
}

#[test]
fn hit_test_respects_absolute_bounds() {
    let scene = frame(Some("btn"), "btn", clear(), (100.0, 200.0, 160.0, 64.0), vec![], vec![]);
    let flat = flatten_scene(&scene);
    assert!(hit_test(&flat, Px(180.0), Px(232.0)).is_some());
    assert!(hit_test(&flat, Px(260.0), Px(232.0)).is_none());
    assert!(hit_test(&flat, Px(259.0), Px(263.0)).is_some());
    assert!(hit_test(&flat, Px(100.0), Px(264.0)).is_none());
}

#[test]
fn apply_mutations_updates_state_map() {
    let engine = CelEngine::new();
    let mut cache = ExprCache::new();
    let mut state = StrMap::new();
    state.insert("count".to_string(), whole(0));
    let mut env = EvalEnv::new();
    env.set("state", one_value("count", EvalValue::Int(0)));
    let muts = vec![mutation("count", "state.count + 1")];
    apply_mutations(&mut state, &muts, &engine, &env, &mut cache);
    assert_eq!(state.get("count"), Some(&whole(1)));
}

#[test]
fn apply_mutations_skips_parse_failures_and_continues() {
    let engine = CelEngine::new();
    let mut cache = ExprCache::new();
    let mut state = StrMap::new();
    state.insert("count".into(), whole(5));
    let mut env = EvalEnv::new();
    env.set("state", one_value("count", EvalValue::Int(5)));
    let muts = vec![mutation("count", "1 +"), mutation("count", "state.count + 10")];
    apply_mutations(&mut state, &muts, &engine, &env, &mut cache);
    assert_eq!(state.get("count"), Some(&whole(15)));
}

#[test]
fn apply_mutations_writes_nested_path() {
    let engine = CelEngine::new();
    let mut cache = ExprCache::new();
    let mut state: StrMap<Json> = StrMap::new();
    let env = EvalEnv::new();
    let muts = vec![mutation("cart.items", "3")];
    apply_mutations(&mut state, &muts, &engine, &env, &mut cache);
    let mut cart = StrMap::new();
    cart.insert("items".to_string(), whole(3));
    assert_eq!(state.get("cart"), Some(&Json::Object(cart)));
}

#[test]
fn resolve_with_hovered_switches_condition_branch() {
    let scene = choice(
        "ui.hovered == 'btn'",
        frame(None, "hovered", rgba(0.3, 0.6, 0.9, 1.0), (0.0, 0.0, 10.0, 10.0), vec![], vec![]),
        Some(frame(None, "idle", rgba(0.2, 0.4, 0.7, 1.0), (0.0, 0.0, 10.0, 10.0), vec![], vec![])),
    );
    let engine = CelEngine::new();
    let mut cache = ExprCache::new();
    let mut env_idle = EvalEnv::new();
    env_idle.set("ui", interface(EvalValue::Null));
    let resolved_idle = resolve_scene(&scene, &engine, &env_idle, &mut cache).expect("root");
    assert_eq!(resolved_idle.label(), "idle");
    let mut env_hover = EvalEnv::new();
    env_hover.set("ui", interface(EvalValue::String("btn".into())));
    let resolved_hover = resolve_scene(&scene, &engine, &env_hover, &mut cache).expect("root");
    assert_eq!(resolved_hover.label(), "hovered");
}

#[test]
fn fnv1a_64_is_deterministic() {
    assert_eq!(fnv1a_64(b"counter_btn"), fnv1a_64(b"counter_btn"));
    assert_ne!(fnv1a_64(b"counter_btn"), fnv1a_64(b"counter_btn_2"));
}

#[test]
fn fnv1a_64_has_the_published_values() {
    assert_eq!(fnv1a_64(b""), 0xcbf29ce484222325);
    assert_eq!(fnv1a_64(b"a"), 0xaf63dc4c8601ec8c);
    assert_eq!(fnv1a_64(b"foobar"), 0x85944171f73967e8);
    assert_eq!(node_id_from_string("a"), NodeId(0x2f63dc4c8601ec8c));
}

#[test]
fn counter_idle_resolves_to_button_idle_branch() {
    let scene = load_counter_scene();
    let engine = CelEngine::new();
    let mut cache = ExprCache::new();
    let interaction = InteractionState::default();
    let env = build_eval_env(&interaction, &scene.state);
    let resolved = resolve_scene(&scene.root, &engine, &env, &mut cache).expect("resolve idle");
    let root = match resolved {
        SceneNode::Frame(f) => f,
        _ => panic!("root"),
    };
    let btn = match &root.children[0] {
        SceneNode::Frame(f) => f,
        _ => panic!("button"),
    };
    assert_eq!(btn.label, "button-idle");
    assert_eq!(btn.id.as_deref(), Some("counter_btn"));
}

#[test]
fn counter_hovered_resolves_to_button_hovered_branch() {
    let scene = load_counter_scene();
    let engine = CelEngine::new();
    let mut cache = ExprCache::new();
    let interaction = InteractionState { hovered: Some("counter_btn".into()), pressed: None };
    let env = build_eval_env(&interaction, &scene.state);
    let resolved = resolve_scene(&scene.root, &engine, &env, &mut cache).expect("resolve hover");
    let root = match resolved {
        SceneNode::Frame(f) => f,
        _ => panic!("root"),
    };
    let btn = match &root.children[0] {
        SceneNode::Frame(f) => f,
        _ => panic!("button"),
    };
    assert_eq!(btn.label, "button-hovered");
    assert_eq!(btn.id.as_deref(), Some("counter_btn"));
    assert!(btn.background_color[0] > Px(0.25) && btn.background_color[2] >= Px(0.99));
}

#[test]
fn counter_click_increments_state_count() {
    let scene = load_counter_scene();
    let engine = CelEngine::new();
    let mut cache = ExprCache::new();
    let mut state = scene.state.clone();
    assert_eq!(state.get("count"), Some(&whole(0)));
    let interaction = InteractionState {
        hovered: Some("counter_btn".into()),
        pressed: Some("counter_btn".into()),
    };
    for click in 1..=3 {
        let env = build_eval_env(&interaction, &state);
        let resolved = resolve_scene(&scene.root, &engine, &env, &mut cache).expect("resolve");
        let flat = flatten_scene(&resolved);
        let btn = flat
            .iter()
            .find(|n| n.author_id.as_deref() == Some("counter_btn"))
            .expect("counter_btn flat");
        apply_mutations(&mut state, &btn.on_click, &engine, &env, &mut cache);
        assert_eq!(state.get("count"), Some(&whole(click)), "after {click} clicks");
    }
}

#[test]
fn counter_hit_test_picks_button_at_center() {
    let scene = load_counter_scene();
    let engine = CelEngine::new();
    let mut cache = ExprCache::new();
    let interaction = InteractionState::default();
    let env = build_eval_env(&interaction, &scene.state);
    let resolved = resolve_scene(&scene.root, &engine, &env, &mut cache).expect("resolve");
    let flat = flatten_scene(&resolved);
    let hit = hit_test(&flat, Px(180.0), Px(232.0)).expect("hit");
    assert_eq!(hit.author_id.as_deref(), Some("counter_btn"));
    assert!(hit_test(&flat, Px(5.0), Px(5.0)).is_none());
    let hit = hit_test(&flat, Px(450.0), Px(230.0)).expect("hit display");
    assert_eq!(hit.author_id.as_deref(), Some("counter_display"));
}

#[test]
fn refresh_interaction_drops_stale_hovered() {
    let scene = frame_a();
    let flat = flatten_scene(&scene);
    let mut interaction = InteractionState {
        hovered: Some("vanished".into()),
        pressed: Some("also_gone".into()),
    };
    refresh_interaction_after_rebuild(&mut interaction, &flat);
    assert!(interaction.hovered.is_none());
    assert!(interaction.pressed.is_none());
}

#[test]
fn refresh_interaction_keeps_valid_hovered() {
    let scene = frame(Some("kept"), "kept", clear(), (0.0, 0.0, 10.0, 10.0), vec![], vec![]);
    let flat = flatten_scene(&scene);
    let mut interaction = InteractionState { hovered: Some("kept".into()), pressed: None };
    refresh_interaction_after_rebuild(&mut interaction, &flat);
    assert_eq!(interaction.hovered.as_deref(), Some("kept"));
}

#[test]
fn resolve_scene_interpolates_text_content() {
    let engine = CelEngine::new();
    let mut cache = ExprCache::new();
    let scene = SceneNode::Text(Text {
        id: Some("display".into()),
        label: "display".into(),
        content: "Count: ${state.count}".into(),
        font_size: Px(16.0),
        color: [Px(1.0); 4],
        x: Px(0.0),
        y: Px(0.0),
        width: Px(100.0),
        height: Px(20.0),
        on_click: vec![],
    });
    let mut env = EvalEnv::new();
    env.set("state", one_value("count", EvalValue::Int(42)));
    let resolved = resolve_scene(&scene, &engine, &env, &mut cache).expect("resolve");
    match resolved {
        SceneNode::Text(t) => assert_eq!(t.content, "Count: 42"),
        _ => panic!("expected Text"),
    }
}

#[test]
fn counter_display_interpolates_current_count() {
    let scene = load_counter_scene();
    let engine = CelEngine::new();
    let mut cache = ExprCache::new();
    let interaction = InteractionState::default();
    let env = build_eval_env(&interaction, &scene.state);
    let resolved = resolve_scene(&scene.root, &engine, &env, &mut cache).expect("resolve");
    let root = match resolved {
        SceneNode::Frame(f) => f,
        _ => panic!("root"),
    };
    match &root.children[1] {
        SceneNode::Text(t) => {
            assert_eq!(t.content, "Count: 0");
            assert_eq!(t.id.as_deref(), Some("counter_display"));
        }
        _ => panic!("expected Text for counter_display"),
    }
}

#[test]
fn counter_full_click_cycle_increments_display_text() {
    let scene = load_counter_scene();
    let engine = CelEngine::new();
    let mut cache = ExprCache::new();
    let mut state = scene.state.clone();
    for expected_count in 1..=3 {
        let interaction = InteractionState {
            hovered: Some("counter_btn".into()),
            pressed: Some("counter_btn".into()),
        };
        let env = build_eval_env(&interaction, &state);
        let resolved = resolve_scene(&scene.root, &engine, &env, &mut cache).expect("resolve");
        let flat = flatten_scene(&resolved);
        let btn = flat
            .iter()
            .find(|n| n.author_id.as_deref() == Some("counter_btn"))
            .unwrap();
        apply_mutations(&mut state, &btn.on_click, &engine, &env, &mut cache);
        let env_after = build_eval_env(&interaction, &state);
        let resolved_after =
            resolve_scene(&scene.root, &engine, &env_after, &mut cache).expect("resolve");
        let flat_after = flatten_scene(&resolved_after);
        let display = flat_after
            .iter()
            .find(|n| n.author_id.as_deref() == Some("counter_display"))
            .unwrap();
        match &display.kind {
            FlatNodeKind::Text { content, .. } => {
                assert_eq!(content, &format!("Count: {expected_count}"));
            }
            _ => panic!("expected Text"),
        }
    }
}

#[test]
fn clickable_frame_promotes_role_to_button_and_adds_action() {
    let scene = frame(
        Some("btn"),
        "btn",
        clear(),
        (0.0, 0.0, 10.0, 10.0),
        vec![],
        vec![mutation("count", "1")],
    );
    let flat = flatten_scene(&scene);
    let ak = flat[0].to_accesskit_node();
    assert_eq!(ak.role(), Role::Button);
    assert!(ak.supports_action(Action::Click), "clickable Frame must carry Action::Click");
}

#[test]
fn non_clickable_frame_stays_generic_container_without_click_action() {
    let scene = frame_a();
    let flat = flatten_scene(&scene);
    let ak = flat[0].to_accesskit_node();
    assert_eq!(ak.role(), Role::GenericContainer);
    assert!(!ak.supports_action(Action::Click));
}

#[test]
fn validate_flat_accepts_unique_ids() {
    let scene = frame(
        Some("root"),
        "root",
        clear(),
        (0.0, 0.0, 100.0, 100.0),
        vec![frame(Some("child"), "child", clear(), (0.0, 0.0, 50.0, 50.0), vec![], vec![])],
        vec![],
    );
    let flat = flatten_scene(&scene);
    assert!(validate_flat(&flat).is_ok());
}

#[test]
fn validate_flat_accepts_all_anonymous_nodes() {
    let scene = frame(
        None,
        "anon-parent",
        clear(),
        (0.0, 0.0, 100.0, 100.0),
        vec![frame_a(), frame_b()],
        vec![],
    );
    let flat = flatten_scene(&scene);
    assert!(validate_flat(&flat).is_ok());
}

#[test]
fn validate_flat_rejects_duplicate_author_ids() {
    let dup_scene = frame(
        Some("root"),
        "root",
        clear(),
        (0.0, 0.0, 100.0, 100.0),
        vec![
            frame(Some("btn"), "a", clear(), (0.0, 0.0, 10.0, 10.0), vec![], vec![]),
            frame(Some("btn"), "b", clear(), (20.0, 0.0, 10.0, 10.0), vec![], vec![]),
        ],
        vec![],
    );
    let flat = flatten_scene(&dup_scene);
    match validate_flat(&flat) {
        Err(SceneValidation::DuplicateAuthorId { id, count }) => {
            assert_eq!(id, "btn");
            assert_eq!(count, 2);
        }
        other => panic!("expected DuplicateAuthorId, got {other:?}"),
    }
}

#[test]
fn validate_flat_returns_duplicate_even_when_only_two() {
    let node = |id: u64, label: &str, abs_x: f32| FlatNode {
        id: NodeId(id),
        author_id: Some("x".into()),
        label: label.to_string(),
        kind: FlatNodeKind::Frame { background_color: clear() },
        abs_x: Px(abs_x),
        abs_y: Px(0.0),
        width: Px(1.0),
        height: Px(1.0),
        child_ids: vec![],
        on_click: vec![],
    };
    let flat = vec![node(1, "x1", 0.0), node(2, "x2", 10.0)];
    assert!(matches!(
        validate_flat(&flat),
        Err(SceneValidation::DuplicateAuthorId { .. })
    ));
}

#[test]
fn validate_flat_counter_scene_is_unique() {
    let scene = load_counter_scene();
    let engine = CelEngine::new();
    let mut cache = ExprCache::new();
    let env = build_eval_env(&InteractionState::default(), &scene.state);
    let resolved = resolve_scene(&scene.root, &engine, &env, &mut cache).unwrap();
    let flat = flatten_scene(&resolved);
    assert!(validate_flat(&flat).is_ok());
}

#[test]
fn duplicates_are_reported_in_words() {
    let e = SceneValidation::DuplicateAuthorId { id: "b\"tn".into(), count: 3 };
    assert_eq!(
        e.message(),
        "duplicate author id \"b\\\"tn\" appears on 3 flattened nodes; \
         AT tree IDs alias and click dispatch is ambiguous"
    );
}

#[test]
fn first_duplicate_in_list_order_is_reported() {
    let named = |id: &str| frame(Some(id), id, clear(), (0.0, 0.0, 1.0, 1.0), vec![], vec![]);
    let scene = frame(
        None,
        "root",
        clear(),
        (0.0, 0.0, 1.0, 1.0),
        vec![named("z"), named("a"), named("a"), named("z"), named("z")],
        vec![],
    );
    assert_eq!(
        validate_flat(&flatten_scene(&scene)),
        Err(SceneValidation::DuplicateAuthorId { id: "z".into(), count: 3 })
    );
}

#[test]
fn whole_pixels_measure_like_any_other_number() {
    let root: SceneNode<i32> = SceneNode::Frame(Frame {
        id: Some("root".into()),
        label: "root".into(),
        background_color: [0; 4],
        x: 10,
        y: 20,
        width: 100,
        height: 50,
        children: vec![SceneNode::Frame(Frame::new("inner", [0; 4], 5, -3, 7, 8))],
        on_click: vec![],
    });
    let flat = flatten_scene(&root);
    assert_eq!((flat[1].abs_x, flat[1].abs_y), (15, 17));
    let bounds = flat[1].to_accesskit_node().bounds().unwrap();
    assert_eq!((bounds.x0, bounds.y0, bounds.x1, bounds.y1), (15.0, 17.0, 22.0, 25.0));
    assert!(hit_test(&flat, 109, 69).is_some());
    assert!(hit_test(&flat, 110, 69).is_none());
    for n in [0, 1, -1, 2, 3, 1000, -1000, i32::MAX, i32::MIN] {
        assert_eq!(n.double_bits(), (n as f64).to_bits(), "{n}");
        assert_eq!(n.whole(), n);
    }
    assert_eq!(i32::MAX.plus(1), i32::MAX);
    assert_eq!(i32::MIN.plus(-1), i32::MIN);
    assert_eq!(<i32 as Coord>::zero(), 0);
}
