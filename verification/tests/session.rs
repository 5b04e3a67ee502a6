use accesskit::Role;
use sdui::ax::build_tree_update;
use sdui::cel::CelEngine;
use sdui::dump::{ax_dump_text, dump_file_name, inspect_dump};
use sdui::flat::flatten_scene;
use sdui::ids::{node_id_from_string, root_node_id, NodeId};
use sdui::images::collect_image_sources;
use sdui::interact::SceneValidation;
use sdui::json::{Json, JsonNumber};
use sdui::mirror::{mount_mirror_node, plan_mount, tag_matches, MirrorNode, MountStep};
use sdui::paint::{frame_vertices, paint_images, paint_texts, PaintImage};
use sdui::scene::{Condition, Frame, Image, ImageSource, Mutation, Scene, SceneNode, Text};
use sdui::session::{InputEvent, Session};
use sdui::strmap::StrMap;

fn mutation(path: &str, set: &str) -> Mutation {
    Mutation { path: path.to_string(), set: set.to_string() }
}

fn frame(
    id: Option<&str>,
    label: &str,
    at: (i32, i32, i32, i32),
    children: Vec<SceneNode<i32>>,
    on_click: Vec<Mutation>,
) -> SceneNode<i32> {
    SceneNode::Frame(Frame {
        id: id.map(|s| s.to_string()),
        label: label.to_string(),
        background_color: [1, 2, 3, 4],
        x: at.0,
        y: at.1,
        width: at.2,
        height: at.3,
        children,
        on_click,
    })
}

fn text(id: &str, content: &str, on_click: Vec<Mutation>) -> SceneNode<i32> {
    SceneNode::Text(Text {
        id: Some(id.to_string()),
        label: id.to_string(),
        content: content.to_string(),
        font_size: 12,
        color: [9, 8, 7, 6],
        x: 300,
        y: 10,
        width: 50,
        height: 20,
        on_click,
    })
}

fn image(source: ImageSource, alt: Option<&str>) -> SceneNode<i32> {
    SceneNode::Image(Image {
        id: None,
        label: "picture".to_string(),
        source,
        alt: alt.map(|s| s.to_string()),
        x: 1,
        y: 2,
        width: 30,
        height: 40,
        on_click: vec![],
    })
}

fn url(u: &str) -> ImageSource {
    ImageSource::Url { url: u.to_string() }
}

fn choice(when: &str, yes: SceneNode<i32>, no: Option<SceneNode<i32>>) -> SceneNode<i32> {
    SceneNode::Condition(Condition {
        when: when.to_string(),
        then_branch: Box::new(yes),
        else_branch: no.map(Box::new),
    })
}

fn counter() -> Scene<i32> {
    let button = |label: &str| {
        frame(
            Some("btn"),
            label,
            (100, 200, 160, 64),
            vec![],
            vec![mutation("count", "state.count + 1")],
        )
    };
    let root = frame(
        None,
        "root",
        (0, 0, 800, 600),
        vec![
            choice("ui.hovered == 'btn'", button("hot"), Some(button("cold"))),
            text("display", "Count: ${state.count}", vec![]),
        ],
        vec![],
    );
    let mut state = StrMap::new();
    state.insert("count".to_string(), Json::Number(JsonNumber::PosInt(0)));
    Scene { state, root }
}

fn start(scene: Scene<i32>) -> Session<i32, CelEngine> {
    Session::new(scene, CelEngine::new()).expect("session")
}

fn count(s: &Session<i32, CelEngine>) -> Option<&Json> {
    s.state().get("count")
}

fn label_of(s: &Session<i32, CelEngine>, id: &str) -> String {
    s.flat().iter().find(|n| n.author_id.as_deref() == Some(id)).expect("node").label.clone()
}

fn number(n: u64) -> Json {
    Json::Number(JsonNumber::PosInt(n))
}

#[test]
fn hover_press_and_release_click_the_button() {
    let mut s = start(counter());
    assert_eq!(label_of(&s, "btn"), "cold");
    assert!(s.validate().is_ok());
    assert!(s.handle(&InputEvent::PointerMoved { x: 180, y: 232 }).is_some());
    assert_eq!(label_of(&s, "btn"), "hot");
    assert_eq!(s.interaction().hovered.as_deref(), Some("btn"));
    assert!(s.handle(&InputEvent::PointerMoved { x: 181, y: 232 }).is_none());
    assert!(s.handle(&InputEvent::ButtonPressed { primary: true }).is_some());
    assert_eq!(s.interaction().pressed.as_deref(), Some("btn"));
    assert!(s.handle(&InputEvent::ButtonPressed { primary: true }).is_none());
    let update = s.handle(&InputEvent::ButtonReleased { primary: true }).expect("redraw");
    assert!(update.warnings.is_empty() && update.validation.is_ok());
    assert_eq!(update.clicked.as_deref(), Some("btn"));
    assert_eq!(count(&s), Some(&number(1)));
    assert!(s.interaction().pressed.is_none());
    let display = s.flat().iter().find(|n| n.author_id.as_deref() == Some("display")).unwrap();
    assert_eq!(display.to_accesskit_node().label().unwrap().to_string(), "Count: 1");
}

#[test]
fn release_elsewhere_clicks_nothing() {
    let mut s = start(counter());
    s.pointer_moved(180, 232);
    s.pointer_pressed();
    s.pointer_moved(310, 15);
    assert_eq!(s.interaction().hovered.as_deref(), Some("display"));
    assert_eq!(s.interaction().pressed.as_deref(), Some("btn"));
    let update = s.pointer_released();
    assert!(update.clicked.is_none() && update.warnings.is_empty());
    assert_eq!(count(&s), Some(&number(0)));
    assert!(s.interaction().pressed.is_none());
}

#[test]
fn leaving_clears_hover_and_press() {
    let mut s = start(counter());
    assert!(s.handle(&InputEvent::PointerLeft).is_none());
    s.pointer_moved(180, 232);
    s.pointer_pressed();
    assert!(s.handle(&InputEvent::PointerLeft).is_some());
    assert!(s.interaction().hovered.is_none() && s.interaction().pressed.is_none());
    assert_eq!(label_of(&s, "btn"), "cold");
    s.pointer_released();
    assert_eq!(count(&s), Some(&number(0)));
}

#[test]
fn other_buttons_and_actions_are_ignored() {
    let mut s = start(counter());
    s.pointer_moved(180, 232);
    assert!(s.handle(&InputEvent::ButtonPressed { primary: false }).is_none());
    assert!(s.handle(&InputEvent::ButtonReleased { primary: false }).is_none());
    let target = node_id_from_string("btn");
    assert!(s.handle(&InputEvent::ActionRequested { click: false, target }).is_none());
    assert_eq!(count(&s), Some(&number(0)));
}

#[test]
fn assistive_technology_can_click() {
    let mut s = start(counter());
    let target = node_id_from_string("btn");
    for n in 1..=3 {
        let update = s.handle(&InputEvent::ActionRequested { click: true, target }).expect("redraw");
        assert!(update.warnings.is_empty());
        assert_eq!(update.clicked.as_deref(), Some("btn"));
        assert_eq!(count(&s), Some(&number(n)));
    }
    assert!(s.action_requested(NodeId(12345)).is_none());
    let anonymous = s.flat()[0].id;
    assert!(s.action_requested(anonymous).is_none());
}

#[test]
fn failed_mutations_are_reported() {
    let mut scene = counter();
    scene.root = frame(
        Some("btn"),
        "b",
        (0, 0, 10, 10),
        vec![],
        vec![mutation("count", "nope"), mutation("count", "7")],
    );
    let mut s = start(scene);
    let update = s.action_requested(node_id_from_string("btn")).expect("redraw");
    let said: Vec<String> = update.warnings.iter().map(|w| w.message()).collect();
    assert_eq!(
        said,
        vec![
            "sdui: mutation eval failed: expression evaluation failed: \
             Undeclared reference to 'nope' (path = \"count\", set = \"nope\")"
        ]
    );
    assert_eq!(count(&s), Some(&number(7)));
}

#[test]
fn names_that_vanish_are_dropped() {
    let mut scene = counter();
    scene.root = frame(
        None,
        "root",
        (0, 0, 100, 100),
        vec![choice(
            "state.count == 0",
            frame(
                Some("once"),
                "once",
                (0, 0, 50, 50),
                vec![],
                vec![mutation("count", "1")],
            ),
            None,
        )],
        vec![],
    );
    let mut s = start(scene);
    s.pointer_moved(10, 10);
    s.pointer_pressed();
    s.pointer_released();
    assert_eq!(count(&s), Some(&number(1)));
    assert_eq!(s.flat().len(), 1);
    assert!(s.interaction().hovered.is_none());
}

#[test]
fn scenes_that_come_to_nothing_do_not_start_and_do_not_vanish() {
    let nothing = Scene::new(choice("false", frame(None, "x", (0, 0, 1, 1), vec![], vec![]), None));
    assert!(Session::new(nothing, CelEngine::new()).is_none());
    let mut scene = counter();
    scene.root = choice(
        "state.count == 0",
        frame(Some("b"), "b", (0, 0, 9, 9), vec![], vec![mutation("count", "5")]),
        None,
    );
    let mut s = start(scene);
    s.action_requested(node_id_from_string("b"));
    assert_eq!(count(&s), Some(&number(5)));
    assert_eq!(s.scene().label(), "b");
}

#[test]
fn repeated_names_are_reported_on_rebuild() {
    let twice = frame(
        None,
        "root",
        (0, 0, 9, 9),
        vec![
            frame(Some("x"), "a", (0, 0, 5, 5), vec![], vec![]),
            frame(Some("x"), "b", (0, 0, 5, 5), vec![], vec![]),
        ],
        vec![],
    );
    let mut s = start(Scene::new(twice));
    let want = Err(SceneValidation::DuplicateAuthorId { id: "x".to_string(), count: 2 });
    assert_eq!(s.validate(), want);
    assert_eq!(s.rebuild().0, want);
}

#[test]
fn tree_update_holds_window_and_every_node() {
    let scene = frame(
        Some("root"),
        "root",
        (1, 2, 30, 40),
        vec![text("t", "hello", vec![]), image(url("u"), Some("alt"))],
        vec![],
    );
    let update = build_tree_update(&scene);
    let flat = flatten_scene(&scene);
    assert_eq!(update.nodes.len(), 4);
    assert_eq!(update.tree.as_ref().map(|t| t.root.0), Some(root_node_id().0));
    assert_eq!(update.focus.0, 0);
    assert_eq!(update.nodes[0].0 .0, 0);
    assert_eq!(update.nodes[0].1.role(), Role::Window);
    assert_eq!(update.nodes[0].1.label().unwrap().to_string(), "sdui");
    assert_eq!(update.nodes[0].1.children(), &[accesskit::NodeId(flat[0].id.0)]);
    assert_eq!(update.nodes[1].1.children().len(), 2);
    assert_eq!(update.nodes[3].1.label().unwrap().to_string(), "alt");
    let bounds = update.nodes[2].1.bounds().unwrap();
    assert_eq!((bounds.x0, bounds.y0, bounds.x1, bounds.y1), (301.0, 12.0, 351.0, 32.0));
}

#[test]
fn single_nodes_have_accessibility_nodes_of_their_own() {
    let t = text("t", "hello", vec![]).to_accesskit_node();
    assert_eq!(t.role(), Role::Label);
    assert_eq!(t.label().unwrap().to_string(), "hello");
    let i = image(url("u"), None).to_accesskit_node();
    assert_eq!(i.role(), Role::Image);
    assert_eq!(i.label().unwrap().to_string(), "picture");
    let b = i.bounds().unwrap();
    assert_eq!((b.x0, b.y0, b.x1, b.y1), (1.0, 2.0, 31.0, 42.0));
    let clickable = flatten_scene(&text("t", "go", vec![mutation("a", "1")]));
    assert!(clickable[0].is_clickable());
    assert_eq!(clickable[0].to_accesskit_node().role(), Role::Button);
}

#[test]
fn labels_and_children_of_nodes() {
    let t = text("t", "x", vec![]);
    assert_eq!(t.label(), "t");
    assert!(t.children().is_empty());
    let c = choice("true", t.clone(), None);
    assert_eq!(c.label(), "");
    assert!(c.children().is_empty());
    let f = frame(None, "f", (0, 0, 1, 1), vec![t.clone(), c.clone()], vec![]);
    assert_eq!(f.label(), "f");
    assert_eq!(f.children(), &[t, c]);
    assert_eq!(f.clone(), f);
}

#[test]
fn dump_shows_the_whole_tree() {
    let scene = frame(
        Some("f"),
        "frame",
        (1, 2, 30, 40),
        vec![text("t", "hello", vec![])],
        vec![],
    );
    let text = ax_dump_text(&scene, 42);
    let want = r#"{
  "pid": 42,
  "root": {
    "children": [
      {
        "bounds": {
          "x0": 1.0,
          "x1": 31.0,
          "y0": 2.0,
          "y1": 42.0
        },
        "children": [
          {
            "bounds": {
              "x0": 301.0,
              "x1": 351.0,
              "y0": 12.0,
              "y1": 32.0
            },
            "id": "t",
            "label": "hello",
            "role": "static_text"
          }
        ],
        "id": "f",
        "label": "frame",
        "role": "generic_container"
      }
    ],
    "label": "sdui",
    "role": "window"
  },
  "source": "app-native AccessKit dump"
}"#;
    assert_eq!(text, want);
    assert_eq!(inspect_dump(&text), Ok(want.to_string()));
    assert_eq!(inspect_dump("[1,2]"), Ok("[\n  1,\n  2\n]".to_string()));
    assert!(inspect_dump("{").is_err());
    assert_eq!(dump_file_name(42), "ax-dump-42.json");
}

#[test]
fn images_are_collected_in_drawing_order() {
    let scene = frame(
        None,
        "f",
        (0, 0, 1, 1),
        vec![
            image(url("a"), None),
            frame(None, "g", (0, 0, 1, 1), vec![image(url("b"), None)], vec![]),
            text("t", "x", vec![]),
            image(ImageSource::Path { path: "c".to_string() }, None),
        ],
        vec![],
    );
    let mut out = vec![url("first")];
    collect_image_sources(&scene, &mut out);
    assert_eq!(
        out,
        vec![url("first"), url("a"), url("b"), ImageSource::Path { path: "c".to_string() }]
    );
}

#[test]
fn frames_become_two_triangles_and_texts_keep_their_boxes() {
    let scene = frame(None, "f", (10, 20, 30, 40), vec![text("t", "hi", vec![])], vec![]);
    let flat = flatten_scene(&scene);
    let corners: Vec<(i32, i32)> = frame_vertices(&flat).iter().map(|v| (v.x, v.y)).collect();
    assert_eq!(corners, vec![(10, 20), (40, 20), (10, 60), (10, 60), (40, 20), (40, 60)]);
    assert!(frame_vertices(&flat).iter().all(|v| v.color == [1, 2, 3, 4]));
    let texts = paint_texts(&flat);
    assert_eq!(texts.len(), 1);
    assert_eq!(texts[0].content, "hi");
    assert_eq!(texts[0].font_size, 12);
    assert_eq!((texts[0].left, texts[0].top), (310, 30));
    assert_eq!(
        (texts[0].clip_left, texts[0].clip_top, texts[0].clip_right, texts[0].clip_bottom),
        (310, 30, 360, 50)
    );
}

fn attributes(m: &MirrorNode) -> Vec<(&str, &str)> {
    m.attributes.iter().map(|(k, v)| (k.as_str(), v.as_str())).collect()
}

#[test]
fn mirror_speaks_aria() {
    let scene = frame(
        Some("f"),
        "box",
        (0, 0, 1, 1),
        vec![
            text("t", "plain", vec![]),
            text("b", "press", vec![mutation("x", "1")]),
            image(url("u.png"), Some("cat")),
            image(ImageSource::Path { path: "p".to_string() }, None),
        ],
        vec![mutation("x", "1")],
    );
    let m = mount_mirror_node(&scene);
    assert_eq!(m.tag, "div");
    assert_eq!(m.id.as_deref(), Some("f"));
    assert_eq!(attributes(&m), vec![("role", "button"), ("aria-label", "box")]);
    assert_eq!(m.children.len(), 4);
    assert_eq!(m.children[0].tag, "span");
    assert_eq!(attributes(&m.children[0]), vec![("role", "paragraph"), ("aria-label", "plain")]);
    assert_eq!(m.children[1].tag, "div");
    assert_eq!(attributes(&m.children[1]), vec![("role", "button"), ("aria-label", "press")]);
    assert_eq!(m.children[2].tag, "img");
    assert_eq!(
        attributes(&m.children[2]),
        vec![
            ("src", "u.png"),
            ("alt", "cat"),
            ("aria-label", "cat"),
            ("width", "30"),
            ("height", "40"),
        ]
    );
    assert_eq!(m.children[3].tag, "div");
    assert_eq!(attributes(&m.children[3]), vec![("role", "img"), ("aria-label", "picture")]);
    let clicked = |source: ImageSource| {
        let mut node = image(source, Some("cat"));
        if let SceneNode::Image(i) = &mut node {
            i.on_click.push(mutation("x", "1"));
        }
        mount_mirror_node(&node)
    };
    let remote = clicked(url("u.png"));
    assert_eq!(remote.tag, "div");
    assert_eq!(
        attributes(&remote),
        vec![
            ("role", "button"),
            ("src", "u.png"),
            ("alt", "cat"),
            ("aria-label", "cat"),
            ("width", "30"),
            ("height", "40"),
        ]
    );
    let local = clicked(ImageSource::Path { path: "p".to_string() });
    assert_eq!(local.tag, "div");
    assert_eq!(attributes(&local), vec![("role", "button"), ("aria-label", "cat")]);
    let group = mount_mirror_node(&frame(None, "g", (0, 0, 1, 1), vec![], vec![]));
    assert_eq!(attributes(&group), vec![("role", "group"), ("aria-label", "g")]);
    assert!(group.id.is_none());
}

#[test]
fn named_elements_stay_in_the_document() {
    let before = mount_mirror_node(&frame(
        Some("root"),
        "r",
        (0, 0, 1, 1),
        vec![text("a", "x", vec![]), text("b", "y", vec![]), frame(None, "n", (0, 0, 1, 1), vec![], vec![])],
        vec![],
    ));
    let after = mount_mirror_node(&frame(
        Some("root"),
        "r",
        (0, 0, 1, 1),
        vec![
            text("b", "new", vec![]),
            text("a", "clickable now", vec![mutation("q", "1")]),
            text("c", "z", vec![]),
            text("b", "again", vec![]),
            frame(None, "n", (0, 0, 1, 1), vec![], vec![]),
        ],
        vec![],
    ));
    assert_eq!(
        plan_mount(&before, &after),
        vec![
            MountStep::Reuse,
            MountStep::Reuse,
            MountStep::Create,
            MountStep::Create,
            MountStep::Create,
            MountStep::Create,
        ]
    );
    assert!(tag_matches("DIV", "div") && tag_matches("Img", "iMG"));
    assert!(!tag_matches("DIV", "span") && !tag_matches("é", "É") && !tag_matches("di", "div"));
}

#[test]
fn mutations_write_into_state_only() {
    let mut scene = counter();
    scene.root = frame(
        Some("btn"),
        "b ${ui.hovered == 'btn'}",
        (0, 0, 10, 10),
        vec![text("t", "${ui.hovered}", vec![])],
        vec![mutation("ui.hovered", "'forged'")],
    );
    let mut s = start(scene);
    s.pointer_moved(5, 5);
    s.pointer_pressed();
    s.pointer_released();
    assert!(s.state().contains_key("ui"));
    let shown = s.flat()[1].to_accesskit_node().label().unwrap().to_string();
    assert_eq!(shown, "btn");
}

#[test]
fn scenes_warn_in_the_order_of_the_tree() {
    let root = frame(
        None,
        "root",
        (0, 0, 9, 9),
        vec![
            choice("1", text("a", "never", vec![]), Some(text("b", "${} and ${gone}", vec![]))),
            text("c", "open ${state", vec![]),
            choice("(1 +", text("d", "x", vec![]), None),
        ],
        vec![],
    );
    let (session, warnings) = Session::start(Scene::new(root), CelEngine::new());
    assert_eq!(session.expect("session").flat().len(), 3);
    let said: Vec<String> = warnings.iter().map(|w| w.message()).collect();
    assert_eq!(
        said[0],
        "sdui: condition eval failed: expression did not evaluate to bool (got Int) \
         (expr = \"1\"); defaulting to false"
    );
    assert_eq!(said[1], "sdui: empty ${} in text content: \"${} and ${gone}\"; skipping");
    assert_eq!(
        said[2],
        "sdui: interp eval failed: expression evaluation failed: \
         Undeclared reference to 'gone' (expr = \"gone\")"
    );
    assert_eq!(
        said[3],
        "sdui: unclosed ${ in text content: \"open ${state\"; emitting literal remainder"
    );
    assert!(said[4].starts_with("sdui: condition parse failed: expression parse failed: "));
    assert!(said[4].ends_with(" (expr = \"(1 +\"); defaulting to false"));
    assert_eq!(said.len(), 5);
}

#[test]
fn every_skipped_mutation_is_warned_of() {
    let root = frame(
        Some("btn"),
        "b",
        (0, 0, 9, 9),
        vec![],
        vec![mutation("a", "(1 +"), mutation("b", "2"), mutation("c", "gone")],
    );
    let mut s = start(Scene::new(root));
    let update = s.action_requested(node_id_from_string("btn")).expect("redraw");
    assert_eq!(update.warnings.len(), 2);
    assert!(update.warnings[0].message().starts_with("sdui: mutation parse failed: "));
    assert!(update.warnings[0].message().ends_with("(path = \"a\", set = \"(1 +\")"));
    assert!(update.warnings[1].message().starts_with("sdui: mutation eval failed: "));
}

#[test]
fn images_are_painted_in_drawing_order() {
    let scene = frame(
        None,
        "f",
        (10, 20, 100, 100),
        vec![image(url("a"), None), text("t", "x", vec![]), image(url("b"), Some("alt"))],
        vec![],
    );
    let painted = paint_images(&flatten_scene(&scene));
    assert_eq!(painted.len(), 2);
    assert_eq!(
        painted[0],
        PaintImage { source: url("a"), left: 11, top: 22, right: 41, bottom: 62 }
    );
    assert_eq!(painted[1].source, url("b"));
}

#[test]
fn copies_are_equal() {
    let scene = counter();
    assert_eq!(scene.clone(), scene);
    let SceneNode::Frame(root) = scene.root else {
        panic!("expected a frame");
    };
    assert_eq!(root.clone(), root);
    let SceneNode::Condition(choice) = &root.children[0] else {
        panic!("expected a choice");
    };
    assert_eq!(choice.clone(), *choice);
}
