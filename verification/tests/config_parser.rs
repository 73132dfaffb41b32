use rway::config::lex::split_first;
use rway::config::parser::{
    parse_key_combo, parse_position, parse_resolution, strip_inline_comment, substitute_vars,
};
use rway::config::{
    parse, Action, BorderStyle, Config, Direction, FocusFollowsMouse, GapsConfig, LayoutType,
    Modifier, ParseError,
    SplitDirection, StringHashMap, WindowRuleAction,
};

fn parse_ok(input: &str) -> Config {
    match parse(input) {
        Ok(c) => c,
        Err(e) => panic!("parse should succeed: {:?}", e),
    }
}

fn parse_err(input: &str) -> ParseError {
    match parse(input) {
        Ok(_) => panic!("parse should fail"),
        Err(e) => e,
    }
}

/// The number that a decimal text of the configuration stands for.
fn as_f64(text: &Option<String>) -> Option<f64> {
    text.as_deref().map(|s| s.parse::<f64>().unwrap())
}

#[test]
fn empty_input_returns_default_config() {
    let cfg = parse_ok("");
    assert!(cfg.keybindings.is_empty());
    assert!(cfg.variables.is_empty());
}

#[test]
fn whitespace_only_input_is_valid() {
    let cfg = parse_ok("   \n\t\n  ");
    assert!(cfg.keybindings.is_empty());
}

#[test]
fn comment_lines_are_ignored() {
    let cfg = parse_ok("# 这是注释\n# 另一行注释");
    assert!(cfg.keybindings.is_empty());
}

#[test]
fn inline_comment_is_stripped() {
    let cfg = parse_ok("gaps inner 10 # 内边距");
    assert_eq!(cfg.gaps.inner, 10);
}

#[test]
fn inline_comment_after_quoted_string() {
    // 引号内的 # 不应被视为注释
    let cfg = parse_ok(r#"for_window [app_id="test#name"] floating enable"#);
    assert_eq!(cfg.window_rules.len(), 1);
    assert_eq!(cfg.window_rules[0].criteria.app_id.as_deref(), Some("test#name"));
}

#[test]
fn set_variable_simple() {
    let cfg = parse_ok("set $mod Mod4");
    assert_eq!(cfg.variables.get("mod"), Some(&"Mod4".to_string()));
}

#[test]
fn set_variable_multiword_value() {
    let cfg = parse_ok("set $term foot --server");
    assert_eq!(cfg.variables.get("term"), Some(&"foot --server".to_string()));
}

#[test]
fn variable_substitution_in_bindsym() {
    let cfg = parse_ok("set $mod Mod4\nbindsym $mod+Return exec foot");
    assert_eq!(cfg.keybindings.len(), 1);
    assert!(cfg.keybindings[0].modifiers.contains(&Modifier::Mod4));
    assert_eq!(cfg.keybindings[0].key, "Return");
}

#[test]
fn variable_substitution_in_exec() {
    let cfg = parse_ok("set $term foot\nexec $term");
    assert_eq!(cfg.exec_commands[0].command, "foot");
}

#[test]
fn undefined_variable_kept_as_is() {
    let cfg = parse_ok("exec $undefined_var");
    assert_eq!(cfg.exec_commands[0].command, "$undefined_var");
}

#[test]
fn set_missing_dollar_sign_returns_error() {
    let err = parse_err("set mod Mod4");
    assert!(matches!(err, ParseError::Syntax { .. }));
}

#[test]
fn set_empty_variable_name_returns_error() {
    // "set $" 后面没有名称
    let err = parse_err("set $ Mod4");
    assert!(matches!(err, ParseError::Syntax { .. }));
}

#[test]
fn bindsym_exec_action() {
    let cfg = parse_ok("bindsym Mod4+Return exec foot");
    assert_eq!(cfg.keybindings.len(), 1);
    let kb = &cfg.keybindings[0];
    assert_eq!(kb.modifiers, vec![Modifier::Mod4]);
    assert_eq!(kb.key, "Return");
    assert_eq!(kb.action, Action::Exec("foot".to_string()));
}

#[test]
fn bindsym_exec_multiword() {
    let cfg = parse_ok("bindsym Mod4+d exec wofi --show drun");
    let kb = &cfg.keybindings[0];
    assert_eq!(kb.action, Action::Exec("wofi --show drun".to_string()));
}

#[test]
fn bindsym_kill() {
    let cfg = parse_ok("bindsym Mod4+Shift+q kill");
    let kb = &cfg.keybindings[0];
    assert_eq!(kb.modifiers, vec![Modifier::Mod4, Modifier::Shift]);
    assert_eq!(kb.key, "q");
    assert_eq!(kb.action, Action::Kill);
}

#[test]
fn bindsym_focus_directions() {
    let input = "bindsym Mod4+Left focus left\nbindsym Mod4+Right focus right\nbindsym Mod4+Up focus up\nbindsym Mod4+Down focus down";
    let cfg = parse_ok(input);
    assert_eq!(cfg.keybindings[0].action, Action::Focus(Direction::Left));
    assert_eq!(cfg.keybindings[1].action, Action::Focus(Direction::Right));
    assert_eq!(cfg.keybindings[2].action, Action::Focus(Direction::Up));
    assert_eq!(cfg.keybindings[3].action, Action::Focus(Direction::Down));
}

#[test]
fn bindsym_move_directions() {
    let cfg = parse_ok("bindsym Mod4+Shift+Left move left");
    assert_eq!(cfg.keybindings[0].action, Action::Move(Direction::Left));
}

#[test]
fn bindsym_workspace_number() {
    let cfg = parse_ok("bindsym Mod4+1 workspace number 1");
    assert_eq!(cfg.keybindings[0].action, Action::Workspace("1".to_string()));
}

#[test]
fn bindsym_workspace_named() {
    let cfg = parse_ok("bindsym Mod4+w workspace web");
    assert_eq!(cfg.keybindings[0].action, Action::Workspace("web".to_string()));
}

#[test]
fn bindsym_move_to_workspace() {
    let cfg = parse_ok("bindsym Mod4+Shift+1 move container to workspace number 1");
    assert_eq!(
        cfg.keybindings[0].action,
        Action::MoveToWorkspace("1".to_string())
    );
}

#[test]
fn bindsym_split_horizontal() {
    let cfg = parse_ok("bindsym Mod4+h splith");
    assert_eq!(cfg.keybindings[0].action, Action::Split(SplitDirection::Horizontal));
}

#[test]
fn bindsym_split_vertical() {
    let cfg = parse_ok("bindsym Mod4+v splitv");
    assert_eq!(cfg.keybindings[0].action, Action::Split(SplitDirection::Vertical));
}

#[test]
fn bindsym_layout_stacking() {
    let cfg = parse_ok("bindsym Mod4+s layout stacking");
    assert_eq!(cfg.keybindings[0].action, Action::Layout(LayoutType::Stacked));
}

#[test]
fn bindsym_layout_tabbed() {
    let cfg = parse_ok("bindsym Mod4+w layout tabbed");
    assert_eq!(cfg.keybindings[0].action, Action::Layout(LayoutType::Tabbed));
}

#[test]
fn bindsym_layout_toggle_split() {
    let cfg = parse_ok("bindsym Mod4+e layout toggle split");
    assert_eq!(cfg.keybindings[0].action, Action::Layout(LayoutType::Toggle));
}

#[test]
fn bindsym_fullscreen() {
    let cfg = parse_ok("bindsym Mod4+f fullscreen");
    assert_eq!(cfg.keybindings[0].action, Action::Fullscreen);
}

#[test]
fn bindsym_floating_toggle() {
    let cfg = parse_ok("bindsym Mod4+Shift+space floating toggle");
    assert_eq!(cfg.keybindings[0].action, Action::ToggleFloating);
}

#[test]
fn bindsym_reload() {
    let cfg = parse_ok("bindsym Mod4+Shift+c reload");
    assert_eq!(cfg.keybindings[0].action, Action::Reload);
}

#[test]
fn bindsym_exit() {
    let cfg = parse_ok("bindsym Mod4+Shift+e exit");
    assert_eq!(cfg.keybindings[0].action, Action::Exit);
}

#[test]
fn bindsym_unknown_action_is_raw() {
    let cfg = parse_ok("bindsym Mod4+x some_unknown_command arg1 arg2");
    assert_eq!(
        cfg.keybindings[0].action,
        Action::Raw("some_unknown_command arg1 arg2".to_string())
    );
}

#[test]
fn bindsym_ctrl_modifier() {
    let cfg = parse_ok("bindsym Control+c kill");
    assert!(cfg.keybindings[0].modifiers.contains(&Modifier::Control));
}

#[test]
fn bindsym_ctrl_alias() {
    let cfg = parse_ok("bindsym Ctrl+c kill");
    assert!(cfg.keybindings[0].modifiers.contains(&Modifier::Control));
}

#[test]
fn bindsym_mod1_modifier() {
    let cfg = parse_ok("bindsym Mod1+Tab focus right");
    assert!(cfg.keybindings[0].modifiers.contains(&Modifier::Mod1));
}

#[test]
fn bindsym_missing_combo_returns_error() {
    let err = parse_err("bindsym");
    assert!(matches!(err, ParseError::Syntax { .. }));
}

#[test]
fn multiple_keybindings() {
    let input = "bindsym Mod4+Return exec foot\nbindsym Mod4+q kill\nbindsym Mod4+f fullscreen";
    let cfg = parse_ok(input);
    assert_eq!(cfg.keybindings.len(), 3);
}

#[test]
fn output_resolution_only() {
    let cfg = parse_ok("output DP-1 resolution 2560x1440");
    assert_eq!(cfg.outputs.len(), 1);
    let out = &cfg.outputs[0];
    assert_eq!(out.name, "DP-1");
    assert_eq!(out.resolution, Some((2560, 1440)));
    assert!(out.refresh_rate.is_none());
}

#[test]
fn output_resolution_with_refresh_rate() {
    let cfg = parse_ok("output DP-1 resolution 2560x1440@144Hz");
    let out = &cfg.outputs[0];
    assert_eq!(out.resolution, Some((2560, 1440)));
    assert_eq!(as_f64(&out.refresh_rate), Some(144.0));
}

#[test]
fn output_resolution_with_decimal_refresh() {
    let cfg = parse_ok("output DP-1 resolution 1920x1080@59.94Hz");
    let out = &cfg.outputs[0];
    assert!((as_f64(&out.refresh_rate).unwrap() - 59.94).abs() < 0.001);
}

#[test]
fn output_position() {
    let cfg = parse_ok("output DP-1 position 0,0");
    assert_eq!(cfg.outputs[0].position, Some((0, 0)));
}

#[test]
fn output_negative_position() {
    let cfg = parse_ok("output DP-1 position -1920,0");
    assert_eq!(cfg.outputs[0].position, Some((-1920, 0)));
}

#[test]
fn output_scale() {
    let cfg = parse_ok("output DP-1 scale 1.5");
    assert_eq!(as_f64(&cfg.outputs[0].scale), Some(1.5));
}

#[test]
fn output_full_config() {
    let cfg = parse_ok("output DP-1 resolution 2560x1440@144Hz position 0,0 scale 1.5");
    let out = &cfg.outputs[0];
    assert_eq!(out.resolution, Some((2560, 1440)));
    assert_eq!(as_f64(&out.refresh_rate), Some(144.0));
    assert_eq!(out.position, Some((0, 0)));
    assert_eq!(as_f64(&out.scale), Some(1.5));
}

#[test]
fn output_transform() {
    let cfg = parse_ok("output DP-1 transform 90");
    assert_eq!(cfg.outputs[0].transform.as_deref(), Some("90"));
}

#[test]
fn multiple_outputs() {
    let input = "output DP-1 resolution 2560x1440@144Hz position 0,0\noutput HDMI-A-1 resolution 1920x1080 position 2560,0";
    let cfg = parse_ok(input);
    assert_eq!(cfg.outputs.len(), 2);
    assert_eq!(cfg.outputs[0].name, "DP-1");
    assert_eq!(cfg.outputs[1].name, "HDMI-A-1");
}

#[test]
fn output_invalid_resolution_returns_error() {
    let err = parse_err("output DP-1 resolution 2560-1440");
    assert!(matches!(err, ParseError::InvalidResolution(_)));
}

#[test]
fn output_invalid_position_returns_error() {
    let err = parse_err("output DP-1 position 0-0");
    assert!(matches!(err, ParseError::InvalidPosition(_)));
}

#[test]
fn output_mode_keyword_alias() {
    let cfg = parse_ok("output DP-1 mode 1920x1080");
    assert_eq!(cfg.outputs[0].resolution, Some((1920, 1080)));
}

#[test]
fn output_pos_keyword_alias() {
    let cfg = parse_ok("output DP-1 pos 100,200");
    assert_eq!(cfg.outputs[0].position, Some((100, 200)));
}

#[test]
fn input_keyboard_layout() {
    let cfg = parse_ok(r#"input "type:keyboard" xkb_layout us"#);
    assert_eq!(cfg.inputs.len(), 1);
    assert_eq!(cfg.inputs[0].identifier, "type:keyboard");
    assert_eq!(cfg.inputs[0].settings.get("xkb_layout"), Some(&"us".to_string()));
}

#[test]
fn input_pointer_accel() {
    let cfg = parse_ok(r#"input "type:pointer" accel_profile adaptive"#);
    assert_eq!(cfg.inputs[0].settings.get("accel_profile"), Some(&"adaptive".to_string()));
}

#[test]
fn input_without_quotes() {
    let cfg = parse_ok("input type:keyboard xkb_layout de");
    assert_eq!(cfg.inputs[0].identifier, "type:keyboard");
    assert_eq!(cfg.inputs[0].settings.get("xkb_layout"), Some(&"de".to_string()));
}

#[test]
fn input_same_device_merges_settings() {
    let input = "input type:keyboard xkb_layout us\ninput type:keyboard xkb_variant intl";
    let cfg = parse_ok(input);
    assert_eq!(cfg.inputs.len(), 1, "同名输入设备应合并");
    assert_eq!(cfg.inputs[0].settings.get("xkb_layout"), Some(&"us".to_string()));
    assert_eq!(cfg.inputs[0].settings.get("xkb_variant"), Some(&"intl".to_string()));
}

#[test]
fn exec_single_command() {
    let cfg = parse_ok("exec foot");
    assert_eq!(cfg.exec_commands.len(), 1);
    assert_eq!(cfg.exec_commands[0].command, "foot");
}

#[test]
fn exec_always_command() {
    let cfg = parse_ok("exec_always waybar");
    assert_eq!(cfg.exec_always.len(), 1);
    assert_eq!(cfg.exec_always[0].command, "waybar");
}

#[test]
fn exec_multiword_command() {
    let cfg = parse_ok("exec foot --server --config /etc/foot.ini");
    assert_eq!(cfg.exec_commands[0].command, "foot --server --config /etc/foot.ini");
}

#[test]
fn multiple_exec_commands() {
    let cfg = parse_ok("exec foot\nexec waybar\nexec mako");
    assert_eq!(cfg.exec_commands.len(), 3);
}

#[test]
fn gaps_inner() {
    let cfg = parse_ok("gaps inner 10");
    assert_eq!(cfg.gaps.inner, 10);
}

#[test]
fn gaps_outer() {
    let cfg = parse_ok("gaps outer 5");
    assert_eq!(cfg.gaps.outer, 5);
}

#[test]
fn gaps_both() {
    let cfg = parse_ok("gaps inner 10\ngaps outer 5");
    assert_eq!(cfg.gaps, GapsConfig { inner: 10, outer: 5 });
}

#[test]
fn gaps_zero() {
    let cfg = parse_ok("gaps inner 0");
    assert_eq!(cfg.gaps.inner, 0);
}

#[test]
fn gaps_invalid_direction_returns_error() {
    let err = parse_err("gaps diagonal 10");
    assert!(matches!(err, ParseError::Syntax { .. }));
}

#[test]
fn gaps_invalid_number_returns_error() {
    let err = parse_err("gaps inner abc");
    assert!(matches!(err, ParseError::InvalidNumber(_)));
}

#[test]
fn default_border_pixel() {
    let cfg = parse_ok("default_border pixel 2");
    assert_eq!(cfg.default_border, BorderStyle::Pixel(2));
}

#[test]
fn default_border_normal() {
    let cfg = parse_ok("default_border normal 4");
    assert_eq!(cfg.default_border, BorderStyle::Normal(4));
}

#[test]
fn default_border_none() {
    let cfg = parse_ok("default_border none");
    assert_eq!(cfg.default_border, BorderStyle::NoBorder);
}

#[test]
fn default_border_pixel_no_width_uses_2() {
    let cfg = parse_ok("default_border pixel");
    assert_eq!(cfg.default_border, BorderStyle::Pixel(2));
}

#[test]
fn default_border_unknown_style_returns_error() {
    let err = parse_err("default_border fancy 2");
    assert!(matches!(err, ParseError::Syntax { .. }));
}

#[test]
fn font_setting() {
    let cfg = parse_ok("font pango:monospace 10");
    assert_eq!(cfg.font.as_deref(), Some("pango:monospace 10"));
}

#[test]
fn focus_follows_mouse_yes() {
    let cfg = parse_ok("focus_follows_mouse yes");
    assert!(cfg.focus_follows_mouse.is_enabled());
}

#[test]
fn focus_follows_mouse_no() {
    let cfg = parse_ok("focus_follows_mouse no");
    assert!(!cfg.focus_follows_mouse.is_enabled());
}

#[test]
fn focus_follows_mouse_true() {
    let cfg = parse_ok("focus_follows_mouse true");
    assert!(cfg.focus_follows_mouse.is_enabled());
}

#[test]
fn focus_follows_mouse_1() {
    let cfg = parse_ok("focus_follows_mouse 1");
    assert!(cfg.focus_follows_mouse.is_enabled());
}

#[test]
fn for_window_app_id_floating_enable() {
    let cfg = parse_ok(r#"for_window [app_id="firefox"] floating enable"#);
    assert_eq!(cfg.window_rules.len(), 1);
    let rule = &cfg.window_rules[0];
    assert_eq!(rule.criteria.app_id.as_deref(), Some("firefox"));
    assert!(rule.criteria.class.is_none());
    assert_eq!(rule.action, WindowRuleAction::FloatingEnable);
}

#[test]
fn for_window_class_move_to_workspace() {
    let cfg = parse_ok(r#"for_window [class="Steam"] move to workspace 5"#);
    let rule = &cfg.window_rules[0];
    assert_eq!(rule.criteria.class.as_deref(), Some("Steam"));
    assert_eq!(rule.action, WindowRuleAction::MoveToWorkspace("5".to_string()));
}

#[test]
fn for_window_floating_disable() {
    let cfg = parse_ok(r#"for_window [app_id="term"] floating disable"#);
    assert_eq!(cfg.window_rules[0].action, WindowRuleAction::FloatingDisable);
}

#[test]
fn for_window_resize() {
    let cfg = parse_ok(r#"for_window [app_id="dialog"] resize 800 600"#);
    assert_eq!(cfg.window_rules[0].action, WindowRuleAction::Resize(800, 600));
}

#[test]
fn for_window_title_criteria() {
    let cfg = parse_ok(r#"for_window [title="Firefox"] floating enable"#);
    assert_eq!(cfg.window_rules[0].criteria.title.as_deref(), Some("Firefox"));
}

#[test]
fn for_window_multiple_criteria() {
    let cfg = parse_ok(r#"for_window [app_id="gimp" class="Gimp"] floating enable"#);
    let rule = &cfg.window_rules[0];
    assert_eq!(rule.criteria.app_id.as_deref(), Some("gimp"));
    assert_eq!(rule.criteria.class.as_deref(), Some("Gimp"));
}

#[test]
fn for_window_missing_bracket_returns_error() {
    let err = parse_err("for_window app_id=firefox floating enable");
    assert!(matches!(err, ParseError::Syntax { .. }));
}

#[test]
fn for_window_unclosed_bracket_returns_error() {
    let err = parse_err("for_window [app_id=firefox floating enable");
    assert!(matches!(err, ParseError::Syntax { .. }));
}

#[test]
fn workspace_single_output() {
    let cfg = parse_ok("workspace 1 output DP-1");
    assert_eq!(cfg.workspaces.len(), 1);
    assert_eq!(cfg.workspaces[0].name, "1");
    assert_eq!(cfg.workspaces[0].outputs, vec!["DP-1"]);
}

#[test]
fn workspace_multiple_outputs_rway_extension() {
    let cfg = parse_ok("workspace 2 output DP-1 HDMI-A-1");
    assert_eq!(cfg.workspaces[0].outputs, vec!["DP-1", "HDMI-A-1"]);
}

#[test]
fn workspace_three_outputs() {
    let cfg = parse_ok("workspace 1 output DP-1 HDMI-A-1 eDP-1");
    assert_eq!(cfg.workspaces[0].outputs.len(), 3);
}

#[test]
fn workspace_no_output() {
    let cfg = parse_ok("workspace 1");
    assert_eq!(cfg.workspaces[0].name, "1");
    assert!(cfg.workspaces[0].outputs.is_empty());
}

#[test]
fn multiple_workspaces() {
    let input = "workspace 1 output DP-1\nworkspace 2 output HDMI-A-1";
    let cfg = parse_ok(input);
    assert_eq!(cfg.workspaces.len(), 2);
}

#[test]
fn full_sway_config_parses_successfully() {
    let config = r#"
# rway 配置文件

set $mod Mod4
set $term foot

bindsym $mod+Return exec $term
bindsym $mod+Shift+q kill
bindsym $mod+d exec wofi --show drun
bindsym $mod+Left focus left
bindsym $mod+Right focus right
bindsym $mod+Up focus up
bindsym $mod+Down focus down
bindsym $mod+Shift+Left move left
bindsym $mod+1 workspace number 1
bindsym $mod+Shift+1 move container to workspace number 1
bindsym $mod+h splith
bindsym $mod+v splitv
bindsym $mod+s layout stacking
bindsym $mod+w layout tabbed
bindsym $mod+e layout toggle split
bindsym $mod+f fullscreen
bindsym $mod+Shift+space floating toggle
bindsym $mod+Shift+c reload
bindsym $mod+Shift+e exit

output DP-1 resolution 2560x1440@144Hz position 0,0 scale 1.5
output HDMI-A-1 resolution 1920x1080 position 2560,0

input "type:keyboard" xkb_layout us
input "type:pointer" accel_profile adaptive

gaps inner 10
gaps outer 5
default_border pixel 2

exec_always waybar
exec foot

for_window [app_id="firefox"] floating enable
for_window [class="Steam"] move to workspace 5

workspace 1 output DP-1
workspace 2 output DP-1 HDMI-A-1

font pango:monospace 10
focus_follows_mouse yes
"#;
    let cfg = parse_ok(config);

    // 验证变量
    assert_eq!(cfg.variables.get("mod"), Some(&"Mod4".to_string()));
    assert_eq!(cfg.variables.get("term"), Some(&"foot".to_string()));

    // 验证按键绑定数量
    assert_eq!(cfg.keybindings.len(), 19);

    // 验证第一个按键绑定（$mod 已替换为 Mod4）
    assert_eq!(cfg.keybindings[0].modifiers, vec![Modifier::Mod4]);
    assert_eq!(cfg.keybindings[0].key, "Return");
    assert_eq!(cfg.keybindings[0].action, Action::Exec("foot".to_string()));

    // 验证输出
    assert_eq!(cfg.outputs.len(), 2);
    assert_eq!(as_f64(&cfg.outputs[0].refresh_rate), Some(144.0));
    assert_eq!(as_f64(&cfg.outputs[0].scale), Some(1.5));

    // 验证输入
    assert_eq!(cfg.inputs.len(), 2);

    // 验证间距
    assert_eq!(cfg.gaps, GapsConfig { inner: 10, outer: 5 });

    // 验证边框
    assert_eq!(cfg.default_border, BorderStyle::Pixel(2));

    // 验证 exec
    assert_eq!(cfg.exec_always.len(), 1);
    assert_eq!(cfg.exec_commands.len(), 1);

    // 验证窗口规则
    assert_eq!(cfg.window_rules.len(), 2);

    // 验证工作区（含 rway 扩展）
    assert_eq!(cfg.workspaces.len(), 2);
    assert_eq!(cfg.workspaces[1].outputs, vec!["DP-1", "HDMI-A-1"]);

    // 验证字体和焦点
    assert_eq!(cfg.font.as_deref(), Some("pango:monospace 10"));
    assert!(cfg.focus_follows_mouse.is_enabled());
}

#[test]
fn unknown_directive_is_silently_ignored() {
    // Sway 配置中可能有 rway 不认识的指令，应宽容处理
    let cfg = parse_ok("some_unknown_directive value1 value2");
    assert!(cfg.keybindings.is_empty());
}

#[test]
fn mixed_case_focus_follows_mouse() {
    let cfg = parse_ok("focus_follows_mouse YES");
    // "YES" 不在匹配列表中，应为 false（严格匹配）
    assert!(!cfg.focus_follows_mouse.is_enabled());
}

#[test]
fn empty_output_name_is_ignored() {
    // output 后面没有名称
    let cfg = parse_ok("output");
    assert!(cfg.outputs.is_empty());
}

#[test]
fn very_large_gaps_value() {
    let cfg = parse_ok("gaps inner 65535");
    assert_eq!(cfg.gaps.inner, 65535);
}

#[test]
fn unicode_in_exec_command() {
    let cfg = parse_ok("exec echo '你好世界'");
    assert_eq!(cfg.exec_commands[0].command, "echo '你好世界'");
}

#[test]
fn special_chars_in_exec() {
    let cfg = parse_ok("exec bash -c 'echo hello && echo world'");
    assert_eq!(cfg.exec_commands[0].command, "bash -c 'echo hello && echo world'");
}

#[test]
fn multiple_dollar_vars_in_one_line() {
    let input = "set $mod Mod4\nset $term foot\nbindsym $mod+Return exec $term";
    let cfg = parse_ok(input);
    assert_eq!(cfg.keybindings[0].action, Action::Exec("foot".to_string()));
    assert!(cfg.keybindings[0].modifiers.contains(&Modifier::Mod4));
}

#[test]
fn split_first_with_spaces() {
    assert_eq!(split_first("hello world"), ("hello", "world"));
}

#[test]
fn split_first_single_word() {
    assert_eq!(split_first("hello"), ("hello", ""));
}

#[test]
fn split_first_empty() {
    assert_eq!(split_first(""), ("", ""));
}

#[test]
fn split_first_leading_spaces() {
    assert_eq!(split_first("  hello  world  "), ("hello", "world"));
}

#[test]
fn strip_inline_comment_no_comment() {
    assert_eq!(strip_inline_comment("gaps inner 10"), "gaps inner 10");
}

#[test]
fn strip_inline_comment_with_comment() {
    assert_eq!(strip_inline_comment("gaps inner 10 # 这是注释"), "gaps inner 10");
}

#[test]
fn strip_inline_comment_hash_in_double_quotes() {
    assert_eq!(
        strip_inline_comment(r#"exec echo "test # not comment""#),
        r#"exec echo "test # not comment""#
    );
}

#[test]
fn substitute_vars_no_vars() {
    let vars: StringHashMap<String> = StringHashMap::new();
    assert_eq!(substitute_vars("no vars here", &vars), "no vars here");
}

#[test]
fn substitute_vars_single() {
    let mut vars: StringHashMap<String> = StringHashMap::new();
    vars.insert("mod".to_string(), "Mod4".to_string());
    assert_eq!(substitute_vars("bindsym $mod+Return exec foot", &vars), "bindsym Mod4+Return exec foot");
}

#[test]
fn substitute_vars_multiple() {
    let mut vars: StringHashMap<String> = StringHashMap::new();
    vars.insert("mod".to_string(), "Mod4".to_string());
    vars.insert("term".to_string(), "foot".to_string());
    assert_eq!(
        substitute_vars("bindsym $mod+Return exec $term", &vars),
        "bindsym Mod4+Return exec foot"
    );
}

#[test]
fn substitute_vars_undefined_kept() {
    let vars: StringHashMap<String> = StringHashMap::new();
    assert_eq!(substitute_vars("exec $unknown", &vars), "exec $unknown");
}

#[test]
fn substitute_vars_dollar_at_end() {
    let vars: StringHashMap<String> = StringHashMap::new();
    assert_eq!(substitute_vars("exec test$", &vars), "exec test$");
}

#[test]
fn parse_key_combo_single_modifier() {
    let (mods, key) = parse_key_combo("Mod4+Return");
    assert_eq!(mods, vec![Modifier::Mod4]);
    assert_eq!(key, "Return");
}

#[test]
fn parse_key_combo_two_modifiers() {
    let (mods, key) = parse_key_combo("Mod4+Shift+q");
    assert_eq!(mods, vec![Modifier::Mod4, Modifier::Shift]);
    assert_eq!(key, "q");
}

#[test]
fn parse_key_combo_no_modifier() {
    let (mods, key) = parse_key_combo("F1");
    assert!(mods.is_empty());
    assert_eq!(key, "F1");
}

#[test]
fn parse_resolution_simple() {
    let (w, h, hz) = parse_resolution("1920x1080").unwrap();
    assert_eq!((w, h), (1920, 1080));
    assert!(hz.is_none());
}

#[test]
fn parse_resolution_with_hz() {
    let (w, h, hz) = parse_resolution("2560x1440@144Hz").unwrap();
    assert_eq!((w, h), (2560, 1440));
    assert_eq!(as_f64(&hz), Some(144.0));
}

#[test]
fn parse_resolution_invalid() {
    assert!(parse_resolution("not_a_resolution").is_err());
}

#[test]
fn parse_position_valid() {
    let (x, y) = parse_position("100,200").unwrap();
    assert_eq!((x, y), (100, 200));
}

#[test]
fn parse_position_negative() {
    let (x, y) = parse_position("-1920,0").unwrap();
    assert_eq!((x, y), (-1920, 0));
}

#[test]
fn parse_position_invalid() {
    assert!(parse_position("100-200").is_err());
}

#[test]
fn focus_follows_mouse_always_is_kept() {
    let cfg = parse_ok("focus_follows_mouse always");
    assert_eq!(cfg.focus_follows_mouse, FocusFollowsMouse::Always);
    assert_eq!(parse_ok("focus_follows_mouse yes").focus_follows_mouse, FocusFollowsMouse::Yes);
    assert_eq!(parse_ok("focus_follows_mouse off").focus_follows_mouse, FocusFollowsMouse::No);
}
