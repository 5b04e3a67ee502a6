use sdui::args::{
    contains_text, parse_example_arg, parse_serve_args, resolve_port, scene_file, select_scene,
    BundledScene, ServeArgs, ServeArgsError, MOCK_SERVER_PORT,
};
use sdui::commands::{
    bindgen_step, cmd_build_all, cmd_inspect_ax, has_wasm_target, mock_build_step, serve_arguments,
    web_build_steps, InspectStep, Step, Tool,
};
use sdui::images::{after_fetch, first_fetch_step, FetchOutcomeStep, FetchStep};
use sdui::json::{Json, JsonNumber};
use sdui::json_text::parse_json;
use sdui::number::{parse_port, signed_text, unsigned_text};
use sdui::scene::ImageSource;
use sdui::surface::{frame_step, pick_format, surface_extent, FrameStep, TextureStatus};
use sdui::wire::{crate_name, is_bare_node, WirePlaceholder};

fn strings(args: &[&str]) -> Vec<String> {
    args.iter().map(|a| a.to_string()).collect()
}

#[test]
fn example_is_the_value_of_the_first_flag() {
    assert_eq!(parse_example_arg(&strings(&["app"])), "smoke");
    assert_eq!(parse_example_arg(&strings(&[])), "smoke");
    assert_eq!(parse_example_arg(&strings(&["app", "--example", "counter"])), "counter");
    assert_eq!(parse_example_arg(&strings(&["--example", "counter"])), "smoke");
    assert_eq!(parse_example_arg(&strings(&["app", "x", "--example"])), "smoke");
    assert_eq!(
        parse_example_arg(&strings(&["app", "--example", "a", "--example", "b"])),
        "a"
    );
    assert_eq!(parse_example_arg(&strings(&["app", "--example", "--example"])), "--example");
    assert_eq!(scene_file("counter"), "examples/counter/scene.json");
}

#[test]
fn server_reads_what_it_is_given() {
    let args = serve_arguments("target/dist", 8137, "counter");
    assert_eq!(
        args,
        strings(&["--dist", "target/dist", "--port", "8137", "--example", "counter"])
    );
    assert_eq!(
        parse_serve_args(&args),
        Ok(ServeArgs { dist: "target/dist".into(), port: 8137, example: "counter".into() })
    );
}

#[test]
fn server_arguments_have_defaults_and_errors() {
    assert_eq!(
        parse_serve_args(&strings(&["--port", "1", "--dist", "a", "--dist", "b"])),
        Ok(ServeArgs { dist: "b".into(), port: 1, example: "smoke".into() })
    );
    assert_eq!(parse_serve_args(&[]), Err(ServeArgsError::MissingDist));
    assert_eq!(
        parse_serve_args(&strings(&["--dist", "a"])),
        Err(ServeArgsError::MissingPort)
    );
    assert_eq!(
        parse_serve_args(&strings(&["--port", "65536"])),
        Err(ServeArgsError::BadPort("65536".into()))
    );
    assert_eq!(
        parse_serve_args(&strings(&["--dist", "a", "huh"])),
        Err(ServeArgsError::Unexpected("huh".into()))
    );
    assert_eq!(
        parse_serve_args(&strings(&["huh", "x", "--dist"])),
        Err(ServeArgsError::Unexpected("huh".into()))
    );
}

#[test]
fn ports_are_read_like_numbers() {
    for (text, port) in [
        ("0", Some(0)),
        ("8138", Some(8138)),
        ("+7", Some(7)),
        ("00065535", Some(65535)),
        ("65536", None),
        ("99999999999999999999", None),
        ("", None),
        ("+", None),
        ("-1", None),
        (" 1", None),
        ("1x", None),
        ("١", None),
    ] {
        assert_eq!(parse_port(text), port, "{text:?}");
        assert_eq!(text.parse::<u16>().ok(), port, "{text:?}");
    }
}

#[test]
fn mock_port_comes_from_argument_then_setting() {
    assert_eq!(resolve_port(Some("1"), Some("2")), 1);
    assert_eq!(resolve_port(Some("x"), Some("2")), 2);
    assert_eq!(resolve_port(None, Some("2")), 2);
    assert_eq!(resolve_port(Some("x"), Some("y")), MOCK_SERVER_PORT);
    assert_eq!(resolve_port(None, None), 8138);
}

#[test]
fn page_path_selects_the_scene() {
    assert_eq!(select_scene(Some("/examples/counter/")), BundledScene::Counter);
    assert_eq!(select_scene(Some("/examples/smoke/")), BundledScene::Smoke);
    assert_eq!(select_scene(None), BundledScene::Smoke);
    assert!(contains_text("abc", "") && contains_text("", ""));
    assert!(contains_text("ababc", "abc") && !contains_text("ab", "abc"));
}

#[test]
fn integers_are_written_in_decimal() {
    for i in [0, 1, -1, 9, 10, -10, 12345, i64::MAX, i64::MIN] {
        assert_eq!(signed_text(i), i.to_string());
    }
    for u in [0, 10, u64::MAX] {
        assert_eq!(unsigned_text(u), u.to_string());
    }
}

#[test]
fn builds_install_what_is_missing() {
    let contexts = |steps: Vec<Step>| steps.into_iter().map(|s| s.context).collect::<Vec<_>>();
    let web = "cargo build -p app-web --target wasm32-unknown-unknown";
    assert_eq!(contexts(cmd_build_all(true)), strings(&["cargo build -p app-native", web]));
    assert_eq!(
        contexts(cmd_build_all(false)),
        strings(&["rustup target add", "cargo build -p app-native", web])
    );
    assert_eq!(contexts(web_build_steps(true, true)), strings(&[web]));
    assert_eq!(
        contexts(web_build_steps(false, false)),
        strings(&["rustup target add", "cargo install wasm-bindgen-cli", web])
    );
    assert_eq!(
        bindgen_step("out", "in.wasm"),
        Step {
            tool: Tool::WasmBindgen,
            args: strings(&["--target", "web", "--no-typescript", "--out-dir", "out", "in.wasm"]),
            context: "wasm-bindgen".into(),
        }
    );
    assert_eq!(mock_build_step().args, strings(&["build", "-p", "mock-server"]));
}

#[test]
fn wasm_target_is_found_in_its_own_line() {
    assert!(has_wasm_target("x86_64-unknown-linux-gnu\nwasm32-unknown-unknown\n"));
    assert!(has_wasm_target("wasm32-unknown-unknown"));
    assert!(has_wasm_target("  wasm32-unknown-unknown\r\nother"));
    assert!(!has_wasm_target("wasm32-unknown-unknown (default)"));
    assert!(!has_wasm_target("xwasm32-unknown-unknown"));
    assert!(!has_wasm_target(""));
}

#[test]
fn dumps_are_waited_for_once() {
    assert_eq!(cmd_inspect_ax(true, false), InspectStep::Show);
    assert_eq!(cmd_inspect_ax(true, true), InspectStep::Show);
    assert_eq!(cmd_inspect_ax(false, false), InspectStep::WaitAndLookAgain);
    assert_eq!(cmd_inspect_ax(false, true), InspectStep::GiveUp);
}

#[test]
fn images_are_fetched_until_they_come() {
    let url = ImageSource::Url { url: "http://x/y.png".into() };
    let path = ImageSource::Path { path: "/y.png".into() };
    assert!(matches!(first_fetch_step(&url), FetchStep::Fetch(u) if u == "http://x/y.png"));
    assert!(matches!(first_fetch_step(&path), FetchStep::Placeholder(p) if p == "/y.png"));
    assert_eq!(after_fetch(true), FetchOutcomeStep::Show);
    assert_eq!(after_fetch(false), FetchOutcomeStep::RetryAfter(1000));
}

#[test]
fn surfaces_prefer_srgb_and_have_a_pixel() {
    assert_eq!(pick_format(&[false, true, true]), 1);
    assert_eq!(pick_format(&[false, false]), 0);
    assert_eq!(pick_format(&[true]), 0);
    assert_eq!(surface_extent(0), 1);
    assert_eq!(surface_extent(640), 640);
    assert_eq!(frame_step(TextureStatus::Ready), FrameStep::Draw);
    assert_eq!(frame_step(TextureStatus::Stale), FrameStep::Reconfigure);
    assert_eq!(frame_step(TextureStatus::Failed), FrameStep::Retry);
}

#[test]
fn bare_nodes_have_a_type() {
    let bare = parse_json("{\"type\": \"Frame\"}").expect("json");
    let wrapped = parse_json("{\"state\": {}, \"root\": {\"type\": \"Frame\"}}").expect("json");
    assert!(is_bare_node(&bare));
    assert!(!is_bare_node(&wrapped));
    assert!(!is_bare_node(&Json::Number(JsonNumber::PosInt(1))));
    assert_eq!(crate_name(), "sdui-presets");
    assert_eq!(WirePlaceholder { version: 1 }.version, 1);
}
