use rway::harness::checks::ipc::IpcJsonChecks;
use rway::harness::checks::output::OutputJsonChecks;
use rway::harness::checks::tiling::TilingOuterChecks;
use rway::harness::checks::window::WindowOuterChecks;
use rway::harness::checks::workspace::WorkspaceOuterChecks;
use rway::harness::checks::{appearance, config, input, ipc, output, tiling, window, workspace, OuterChecks};
use rway::harness::suite::{Category, CompatReport, Harness, TestFn, TestStatus};

fn run(h: &Harness) -> CompatReport {
    let statuses: Vec<TestStatus> = h.test_list().iter().map(|t| (t.test_fn.f)()).collect();
    h.tally(&statuses, None)
}

fn skipped() -> TestFn {
    TestFn::new(|| TestStatus::Skip("checked by the application".to_string()))
}

fn ipc_json() -> IpcJsonChecks {
    IpcJsonChecks {
        version_info_fields: skipped(),
        version_info_json_format: skipped(),
        workspace_info_fields: skipped(),
        tree_node_type_rename: skipped(),
        tree_node_nested: skipped(),
        command_result_format: skipped(),
        output_info_fields: skipped(),
        tree_node_optional_skip: skipped(),
    }
}

fn tiling_outer() -> TilingOuterChecks {
    TilingOuterChecks { normalize_sizes: skipped() }
}

fn window_outer() -> WindowOuterChecks {
    WindowOuterChecks { move_to_workspace: skipped(), move_to_output: skipped() }
}

fn workspace_outer() -> WorkspaceOuterChecks {
    WorkspaceOuterChecks { workspace_focused_via_ipc: skipped(), workspace_move_to: skipped() }
}

fn output_json() -> OutputJsonChecks {
    OutputJsonChecks { ipc_output_info: skipped(), ipc_rect_fields: skipped(), ipc_mode_fields: skipped() }
}

fn outer() -> OuterChecks {
    OuterChecks {
        ipc: ipc_json(),
        tiling: tiling_outer(),
        window: window_outer(),
        workspace: workspace_outer(),
        output: output_json(),
    }
}

#[test]
fn config_tests_register_without_panic() {
    let mut h = Harness::new();
    config::register(&mut h);
    let report = run(&h);
    assert!(report.total > 0);
}

#[test]
fn ipc_tests_register_without_panic() {
    let mut h = Harness::new();
    ipc::register(&mut h, ipc_json());
    let report = run(&h);
    assert!(report.total > 0);
}

#[test]
fn tiling_tests_register_without_panic() {
    let mut h = Harness::new();
    tiling::register(&mut h, tiling_outer());
    let report = run(&h);
    assert!(report.total > 0);
}

#[test]
fn window_tests_register_without_panic() {
    let mut h = Harness::new();
    window::register(&mut h, window_outer());
    let report = run(&h);
    assert!(report.total > 0);
}

#[test]
fn workspace_tests_register_without_panic() {
    let mut h = Harness::new();
    workspace::register(&mut h, workspace_outer());
    let report = run(&h);
    assert!(report.total > 0);
}

#[test]
fn input_tests_register_without_panic() {
    let mut h = Harness::new();
    input::register(&mut h);
    let report = run(&h);
    assert!(report.total > 0);
}

#[test]
fn output_tests_register_without_panic() {
    let mut h = Harness::new();
    output::register(&mut h, output_json());
    let report = run(&h);
    assert!(report.total > 0);
}

#[test]
fn appearance_tests_register_without_panic() {
    let mut h = Harness::new();
    appearance::register(&mut h);
    let report = run(&h);
    assert!(report.total > 0);
}

#[test]
fn register_all_does_not_panic() {
    let mut h = Harness::new();
    h.register_all(outer());
    let report = run(&h);
    assert!(report.total > 0);
}

#[test]
fn register_all_adds_every_category_in_order() {
    let mut h = Harness::new();
    h.register_all(outer());
    let tests = h.test_list();
    assert_eq!(tests.len(), 240);
    let counts = [
        (Category::Config, 43),
        (Category::Ipc, 36),
        (Category::Tiling, 28),
        (Category::Window, 35),
        (Category::Workspace, 22),
        (Category::Input, 28),
        (Category::Output, 23),
        (Category::Appearance, 25),
    ];
    let mut at = 0;
    for (c, n) in counts.iter() {
        for t in &tests[at..at + n] {
            assert!(t.category == *c);
        }
        at += n;
    }
    assert_eq!(tests[0].name, "parse_set_variable");
    assert_eq!(tests[239].name, "client_background_color");
    let report = run(&h);
    assert_eq!(report.total, 240);
    assert_eq!(report.by_category.len(), 8);
}

#[test]
fn register_keeps_earlier_checks_first() {
    let mut h = Harness::new();
    input::register(&mut h);
    config::register(&mut h);
    let tests = h.test_list();
    assert_eq!(tests.len(), 28 + 43);
    assert!(tests[0].category == Category::Input);
    assert_eq!(tests[0].name, "keybinding_modifiers");
    assert_eq!(tests[0].sway_feature, "bindsym modifiers");
    assert!(tests[28].category == Category::Config);
    assert_eq!(tests[28].name, "parse_set_variable");
    assert_eq!(tests[28].description, "解析 set $mod Mod4 变量定义");
}

#[test]
fn config_checks_results() {
    assert!(config::test_parse_set_variable().is_pass());
    assert!(config::test_parse_bindsym().is_pass());
    assert!(config::test_parse_gaps_inner().is_pass());
    assert!(config::test_parse_for_window().is_pass());
    assert!(config::test_parse_workspace_output().is_pass());
    assert!(config::test_parse_focus_follows_mouse_always().is_pass());
    // The parser keeps no `default_orientation`.
    assert!(config::test_parse_default_orientation().is_fail());
}

#[test]
fn input_and_output_checks_results() {
    assert!(input::test_keybinding_modifiers().is_pass());
    assert!(input::test_input_xkb_layout().is_pass());
    assert!(input::test_input_merge_settings().is_pass());
    assert!(matches!(input::test_bindswitch(), TestStatus::NotImplemented));
    // The parser sets no binding flags.
    assert!(input::test_bindsym_release_flag().is_fail());
    assert!(output::test_output_config_resolution().is_pass());
    assert!(output::test_output_config_scale().is_pass());
    assert!(output::test_multi_output_tiling().is_pass());
    // The parser keeps no `power` setting.
    assert!(output::test_output_power().is_fail());
}

#[test]
fn ipc_and_appearance_checks_results() {
    assert!(ipc::test_protocol_magic_bytes().is_pass());
    assert!(ipc::test_encode_decode_roundtrip().is_pass());
    assert!(ipc::test_subscribe_event_types().is_pass());
    assert!(ipc::test_event_type_bar_state_update().is_pass());
    assert!(appearance::test_default_border_none().is_pass());
    // The parser keeps no `client.*` colours.
    assert!(appearance::test_client_urgent_colors().is_fail());
    assert!(appearance::test_border_command().is_fail());
}

#[test]
fn tree_checks_pass_in_a_full_run() {
    let mut h = Harness::new();
    tiling::register(&mut h, tiling_outer());
    window::register(&mut h, window_outer());
    workspace::register(&mut h, workspace_outer());
    let statuses: Vec<TestStatus> = h.test_list().iter().map(|t| (t.test_fn.f)()).collect();
    let names: Vec<&str> = h.test_list().iter().map(|t| t.name.as_str()).collect();
    for name in ["splith_two_windows", "gaps_inner", "directional_move", "swap_container", "window_marks",
        "switch_hides_others", "workspace_dedup", "span_workspace_outputs", "resize_grow_shrink"] {
        let i = names.iter().position(|n| *n == name).unwrap();
        assert!(statuses[i].is_pass(), "{name}");
    }
}
