//! Checks of the configuration language: variables, bindings, gaps,
//! outputs, inputs, window rules, bars and the single-value directives.

use super::{
    any, check, has_modifier, has_string, infos, lemma_exists_image, opt_is, parsed, parsed_config, reg, unparsed,
    verdict,
};
use crate::config::types::{
    opt_view, Action, ActionModel, AssignRule, BorderStyle, ExecCommand, FocusFollowsMouse, InputConfig,
    InputModel, Keybinding, KeybindingModel, ModeBlock, Modifier, OutputConfig, OutputModel, RuleActionModel,
    RuleModel, WindowCriteria, WindowRule, WindowRuleAction, WorkspaceConfig, WorkspaceModel,
};
use crate::harness::suite::{Category, Harness, Priority, TestInfo, TestStatus};
use crate::text::{contains_seq, contains_str, str_eq};
use vstd::prelude::*;

verus! {

/// Whether a binding runs `exec alacritty`.
pub fn runs_alacritty_exec(kb: &Keybinding) -> (b: bool)
    ensures
        b == (kb@.action == ActionModel::Exec("alacritty"@)),
{
    match &kb.action {
        Action::Exec(c) => str_eq(c.as_str(), "alacritty"),
        _ => false,
    }
}

/// A binding of `Return` with `Mod4` to `exec alacritty`.
pub open spec fn mod_return_alacritty(kb: KeybindingModel) -> bool {
    kb.key == "Return"@ && kb.action == ActionModel::Exec("alacritty"@) && kb.modifiers.contains(Modifier::Mod4)
}

/// A binding of `Return` to `exec alacritty`.
pub open spec fn return_alacritty(kb: KeybindingModel) -> bool {
    kb.key == "Return"@ && kb.action == ActionModel::Exec("alacritty"@)
}

/// The command `waybar`.
pub open spec fn is_waybar(c: Seq<char>) -> bool {
    c == "waybar"@
}

/// A command that mentions `nm-applet`.
pub open spec fn mentions_nm_applet(c: Seq<char>) -> bool {
    contains_seq(c, "nm-applet"@)
}

/// A rule that floats windows whose app id is `firefox`.
pub open spec fn floats_firefox(r: RuleModel) -> bool {
    r.criteria.app_id == Some("firefox"@) && r.action == RuleActionModel::FloatingEnable
}

/// Workspace `1` bound to output `eDP-1`.
pub open spec fn one_on_edp(w: WorkspaceModel) -> bool {
    w.name == "1"@ && exists|i: int| 0 <= i < w.outputs.len() && w.outputs[i] == "eDP-1"@
}

/// An input whose identifier mentions `keyboard`.
pub open spec fn names_keyboard(i: InputModel) -> bool {
    contains_seq(i.identifier, "keyboard"@)
}

/// The mode `resize`.
pub open spec fn is_resize_mode(m: ModeBlock) -> bool {
    m.name@ == "resize"@
}

/// Output `eDP-1` at 1920x1080.
pub open spec fn edp_full_hd(o: OutputModel) -> bool {
    o.name == "eDP-1"@ && o.resolution == Some((1920u32, 1080u32))
}

/// An include path that mentions `config.d`.
pub open spec fn mentions_config_d(p: Seq<char>) -> bool {
    contains_seq(p, "config.d"@)
}

/// A rule on the window class `Firefox`.
pub open spec fn on_class_firefox(r: RuleModel) -> bool {
    r.criteria.class == Some("Firefox"@)
}

/// A rule on the window title `Calculator`.
pub open spec fn on_title_calculator(r: RuleModel) -> bool {
    r.criteria.title == Some("Calculator"@)
}

/// Windows of `firefox` assigned to workspace `2`.
pub open spec fn firefox_to_two(a: AssignRule) -> bool {
    opt_view(a.criteria.app_id) == Some("firefox"@) && a.workspace@ == "2"@
}

/// Criteria on the app id `notifications`.
pub open spec fn on_notifications(c: WindowCriteria) -> bool {
    opt_view(c.app_id) == Some("notifications"@)
}

/// `set $mod Mod4` defines `mod` (the `$` dropped).
pub fn test_parse_set_variable() -> (s: TestStatus)
    ensures
        s@ is Pass <==> (parsed_config("set $mod Mod4"@) matches Some(c) && c.variables.contains_key("mod"@)
            && c.variables["mod"@] == "Mod4"@),
{
    match parsed("set $mod Mod4") {
        Some(config) => {
            let ok = match config.variables.get("mod") {
                Some(v) => str_eq(v.as_str(), "Mod4"),
                None => false,
            };
            verdict(ok, "expected mod=Mod4")
        },
        None => unparsed(),
    }
}

/// `bindsym $mod+Return exec alacritty` gives that binding.
pub fn test_parse_bindsym() -> (s: TestStatus)
    ensures
        s@ is Pass <==> (parsed_config("set $mod Mod4\nbindsym $mod+Return exec alacritty"@) matches Some(c)
            && exists|i: int| 0 <= i < c.keybindings.len() && mod_return_alacritty(c.keybindings[i])),
{
    match parsed("set $mod Mod4\nbindsym $mod+Return exec alacritty") {
        Some(config) => {
            let pred = |x: &Keybinding| -> (b: bool)
                ensures
                    b == mod_return_alacritty(x@),
                {
                    str_eq(x.key.as_str(), "Return") && runs_alacritty_exec(x) && has_modifier(&x.modifiers, Modifier::Mod4)
                };
            let ghost f: spec_fn(Keybinding) -> KeybindingModel = |x: Keybinding| x@;
            let ghost q: spec_fn(KeybindingModel) -> bool = |m: KeybindingModel| mod_return_alacritty(m);
            let found = any::<Keybinding, KeybindingModel, _>(&config.keybindings, pred, Ghost(f), Ghost(q));
            proof {
                lemma_exists_image(config.keybindings@, config@.keybindings, f, q);
            }
            verdict(found, "bindsym $mod+Return exec alacritty not found")
        },
        None => unparsed(),
    }
}

/// `gaps inner 10` sets the inner gap.
pub fn test_parse_gaps_inner() -> (s: TestStatus)
    ensures
        s@ is Pass <==> (parsed_config("gaps inner 10"@) matches Some(c) && c.gaps.inner == 10),
{
    match parsed("gaps inner 10") {
        Some(config) => verdict(config.gaps.inner == 10, "expected gaps inner=10"),
        None => unparsed(),
    }
}

/// `gaps outer 5` sets the outer gap.
pub fn test_parse_gaps_outer() -> (s: TestStatus)
    ensures
        s@ is Pass <==> (parsed_config("gaps outer 5"@) matches Some(c) && c.gaps.outer == 5),
{
    match parsed("gaps outer 5") {
        Some(config) => verdict(config.gaps.outer == 5, "expected gaps outer=5"),
        None => unparsed(),
    }
}

/// `output * bg wallpaper.png fill` reads without error.
pub fn test_parse_output_background() -> (s: TestStatus)
    ensures
        s@ is Pass <==> parsed_config("output * bg wallpaper.png fill"@) is Some,
{
    match parsed("output * bg wallpaper.png fill") {
        Some(_config) => TestStatus::Pass,
        None => unparsed(),
    }
}

/// `default_border pixel 2` sets a two-pixel border.
pub fn test_parse_default_border() -> (s: TestStatus)
    ensures
        s@ is Pass <==> (parsed_config("default_border pixel 2"@) matches Some(c) && c.default_border == BorderStyle::Pixel(2)),
{
    match parsed("default_border pixel 2") {
        Some(config) => verdict(config.default_border == BorderStyle::Pixel(2), "expected Pixel(2)"),
        None => unparsed(),
    }
}

/// `exec waybar` adds a start command.
pub fn test_parse_exec() -> (s: TestStatus)
    ensures
        s@ is Pass <==> (parsed_config("exec waybar"@) matches Some(c)
            && exists|i: int| 0 <= i < c.exec_commands.len() && is_waybar(c.exec_commands[i])),
{
    match parsed("exec waybar") {
        Some(config) => {
            let pred = |x: &ExecCommand| -> (b: bool)
                ensures
                    b == is_waybar(x.command@),
                {
                    str_eq(x.command.as_str(), "waybar")
                };
            let ghost f: spec_fn(ExecCommand) -> Seq<char> = |x: ExecCommand| x.command@;
            let ghost q: spec_fn(Seq<char>) -> bool = |m: Seq<char>| is_waybar(m);
            let found = any::<ExecCommand, Seq<char>, _>(&config.exec_commands, pred, Ghost(f), Ghost(q));
            proof {
                lemma_exists_image(config.exec_commands@, config@.exec_commands, f, q);
            }
            verdict(found, "exec waybar not found")
        },
        None => unparsed(),
    }
}

/// `exec_always` adds a command run on every reload.
pub fn test_parse_exec_always() -> (s: TestStatus)
    ensures
        s@ is Pass <==> (parsed_config("exec_always --no-startup-id nm-applet"@) matches Some(c)
            && exists|i: int| 0 <= i < c.exec_always.len() && mentions_nm_applet(c.exec_always[i])),
{
    match parsed("exec_always --no-startup-id nm-applet") {
        Some(config) => {
            let pred = |x: &ExecCommand| -> (b: bool)
                ensures
                    b == mentions_nm_applet(x.command@),
                {
                    contains_str(x.command.as_str(), "nm-applet")
                };
            let ghost f: spec_fn(ExecCommand) -> Seq<char> = |x: ExecCommand| x.command@;
            let ghost q: spec_fn(Seq<char>) -> bool = |m: Seq<char>| mentions_nm_applet(m);
            let found = any::<ExecCommand, Seq<char>, _>(&config.exec_always, pred, Ghost(f), Ghost(q));
            proof {
                lemma_exists_image(config.exec_always@, config@.exec_always, f, q);
            }
            verdict(found, "exec_always nm-applet not found")
        },
        None => unparsed(),
    }
}

/// `focus_follows_mouse yes` turns it on.
pub fn test_parse_focus_follows_mouse() -> (s: TestStatus)
    ensures
        s@ is Pass <==> (parsed_config("focus_follows_mouse yes"@) matches Some(c) && (c.focus_follows_mouse == FocusFollowsMouse::Yes || c.focus_follows_mouse == FocusFollowsMouse::Always)),
{
    match parsed("focus_follows_mouse yes") {
        Some(config) => verdict(config.focus_follows_mouse.is_enabled(), "focus_follows_mouse should be yes"),
        None => unparsed(),
    }
}

/// `font pango:monospace 10` sets a font naming `monospace`.
pub fn test_parse_font() -> (s: TestStatus)
    ensures
        s@ is Pass <==> (parsed_config("font pango:monospace 10"@) matches Some(c) && c.font matches Some(f)
            && contains_seq(f, "monospace"@)),
{
    match parsed("font pango:monospace 10") {
        Some(config) => match &config.font {
            Some(font) => verdict(contains_str(font.as_str(), "monospace"), "unexpected font"),
            None => TestStatus::Fail(crate::text::to_string("font not parsed")),
        },
        None => unparsed(),
    }
}

/// `for_window [app_id="firefox"] floating enable` adds that rule.
pub fn test_parse_for_window() -> (s: TestStatus)
    ensures
        s@ is Pass <==> (parsed_config("for_window [app_id=\"firefox\"] floating enable"@) matches Some(c)
            && exists|i: int| 0 <= i < c.window_rules.len() && floats_firefox(c.window_rules[i])),
{
    match parsed("for_window [app_id=\"firefox\"] floating enable") {
        Some(config) => {
            let pred = |x: &WindowRule| -> (b: bool)
                ensures
                    b == floats_firefox(x@),
                {
                    opt_is(&x.criteria.app_id, "firefox") && matches!(x.action, WindowRuleAction::FloatingEnable)
                };
            let ghost f: spec_fn(WindowRule) -> RuleModel = |x: WindowRule| x@;
            let ghost q: spec_fn(RuleModel) -> bool = |m: RuleModel| floats_firefox(m);
            let found = any::<WindowRule, RuleModel, _>(&config.window_rules, pred, Ghost(f), Ghost(q));
            proof {
                lemma_exists_image(config.window_rules@, config@.window_rules, f, q);
            }
            verdict(found, "for_window rule not found")
        },
        None => unparsed(),
    }
}

/// `workspace 1 output eDP-1` binds the workspace to the output.
pub fn test_parse_workspace_output() -> (s: TestStatus)
    ensures
        s@ is Pass <==> (parsed_config("workspace 1 output eDP-1"@) matches Some(c)
            && exists|i: int| 0 <= i < c.workspaces.len() && one_on_edp(c.workspaces[i])),
{
    match parsed("workspace 1 output eDP-1") {
        Some(config) => {
            let pred = |x: &WorkspaceConfig| -> (b: bool)
                ensures
                    b == one_on_edp(x@),
                {
                    let n = str_eq(x.name.as_str(), "1");
                    let h = has_string(&x.outputs, "eDP-1");
                    proof {
                        let w = x@;
                        if h {
                            let i = choose|i: int| 0 <= i < x.outputs@.len() && x.outputs@[i]@ == "eDP-1"@;
                            assert(w.outputs[i] == "eDP-1"@);
                        }
                        if exists|i: int| 0 <= i < w.outputs.len() && w.outputs[i] == "eDP-1"@ {
                            let i = choose|i: int| 0 <= i < w.outputs.len() && w.outputs[i] == "eDP-1"@;
                            assert(x.outputs@[i]@ == "eDP-1"@);
                        }
                    }
                    n && h
                };
            let ghost f: spec_fn(WorkspaceConfig) -> WorkspaceModel = |x: WorkspaceConfig| x@;
            let ghost q: spec_fn(WorkspaceModel) -> bool = |m: WorkspaceModel| one_on_edp(m);
            let found = any::<WorkspaceConfig, WorkspaceModel, _>(&config.workspaces, pred, Ghost(f), Ghost(q));
            proof {
                lemma_exists_image(config.workspaces@, config@.workspaces, f, q);
            }
            verdict(found, "workspace output binding not found")
        },
        None => unparsed(),
    }
}

/// An `input` block configures its device.
pub fn test_parse_input_block() -> (s: TestStatus)
    ensures
        s@ is Pass <==> (parsed_config("input \"1:1:keyboard\" {\n    xkb_layout us\n}"@) matches Some(c)
            && exists|i: int| 0 <= i < c.inputs.len() && names_keyboard(c.inputs[i])),
{
    match parsed("input \"1:1:keyboard\" {\n    xkb_layout us\n}") {
        Some(config) => {
            let pred = |x: &InputConfig| -> (b: bool)
                ensures
                    b == names_keyboard(x@),
                {
                    contains_str(x.identifier.as_str(), "keyboard")
                };
            let ghost f: spec_fn(InputConfig) -> InputModel = |x: InputConfig| x@;
            let ghost q: spec_fn(InputModel) -> bool = |m: InputModel| names_keyboard(m);
            let found = any::<InputConfig, InputModel, _>(&config.inputs, pred, Ghost(f), Ghost(q));
            proof {
                lemma_exists_image(config.inputs@, config@.inputs, f, q);
            }
            verdict(found, "input block not parsed")
        },
        None => unparsed(),
    }
}

/// A `mode` block defines a binding mode.
pub fn test_parse_mode_block() -> (s: TestStatus)
    ensures
        s@ is Pass <==> (parsed_config("mode \"resize\" {\n    bindsym Left resize shrink width 10 px\n}"@) matches Some(c)
            && exists|i: int| 0 <= i < c.modes.len() && is_resize_mode(c.modes[i])),
{
    match parsed("mode \"resize\" {\n    bindsym Left resize shrink width 10 px\n}") {
        Some(config) => {
            let pred = |x: &ModeBlock| -> (b: bool)
                ensures
                    b == is_resize_mode(*x),
                {
                    str_eq(x.name.as_str(), "resize")
                };
            let ghost f: spec_fn(ModeBlock) -> ModeBlock = |x: ModeBlock| x;
            let ghost q: spec_fn(ModeBlock) -> bool = |m: ModeBlock| is_resize_mode(m);
            let found = any::<ModeBlock, ModeBlock, _>(&config.modes, pred, Ghost(f), Ghost(q));
            proof {
                lemma_exists_image(config.modes@, config@.modes, f, q);
            }
            verdict(found, "mode block not parsed")
        },
        None => unparsed(),
    }
}

/// Variables are replaced in a binding.
pub fn test_parse_variable_substitution() -> (s: TestStatus)
    ensures
        s@ is Pass <==> (parsed_config("set $mod Mod4\nset $term alacritty\nbindsym $mod+Return exec $term"@) matches Some(c)
            && exists|i: int| 0 <= i < c.keybindings.len() && return_alacritty(c.keybindings[i])),
{
    match parsed("set $mod Mod4\nset $term alacritty\nbindsym $mod+Return exec $term") {
        Some(config) => {
            let pred = |x: &Keybinding| -> (b: bool)
                ensures
                    b == return_alacritty(x@),
                {
                    str_eq(x.key.as_str(), "Return") && runs_alacritty_exec(x)
                };
            let ghost f: spec_fn(Keybinding) -> KeybindingModel = |x: Keybinding| x@;
            let ghost q: spec_fn(KeybindingModel) -> bool = |m: KeybindingModel| return_alacritty(m);
            let found = any::<Keybinding, KeybindingModel, _>(&config.keybindings, pred, Ghost(f), Ghost(q));
            proof {
                lemma_exists_image(config.keybindings@, config@.keybindings, f, q);
            }
            verdict(found, "variable substitution in bindsym failed")
        },
        None => unparsed(),
    }
}

/// Comment lines are skipped.
pub fn test_parse_comments() -> (s: TestStatus)
    ensures
        s@ is Pass <==> (parsed_config("# This is a comment\nset $mod Mod4\n# Another comment"@) matches Some(c) && c.variables.contains_key("mod"@)
            && c.variables["mod"@] == "Mod4"@),
{
    match parsed("# This is a comment\nset $mod Mod4\n# Another comment") {
        Some(config) => {
            let ok = match config.variables.get("mod") {
                Some(v) => str_eq(v.as_str(), "Mod4"),
                None => false,
            };
            verdict(ok, "comments interfered with parsing")
        },
        None => unparsed(),
    }
}

/// `output eDP-1 resolution 1920x1080` sets the mode.
pub fn test_parse_output_resolution() -> (s: TestStatus)
    ensures
        s@ is Pass <==> (parsed_config("output eDP-1 resolution 1920x1080"@) matches Some(c)
            && exists|i: int| 0 <= i < c.outputs.len() && edp_full_hd(c.outputs[i])),
{
    match parsed("output eDP-1 resolution 1920x1080") {
        Some(config) => {
            let pred = |x: &OutputConfig| -> (b: bool)
                ensures
                    b == edp_full_hd(x@),
                {
                    str_eq(x.name.as_str(), "eDP-1") && match x.resolution { Some((w, h)) => w == 1920 && h == 1080, None => false }
                };
            let ghost f: spec_fn(OutputConfig) -> OutputModel = |x: OutputConfig| x@;
            let ghost q: spec_fn(OutputModel) -> bool = |m: OutputModel| edp_full_hd(m);
            let found = any::<OutputConfig, OutputModel, _>(&config.outputs, pred, Ghost(f), Ghost(q));
            proof {
                lemma_exists_image(config.outputs@, config@.outputs, f, q);
            }
            verdict(found, "output resolution not parsed correctly")
        },
        None => unparsed(),
    }
}

/// `include` records its path.
pub fn test_parse_include_directive() -> (s: TestStatus)
    ensures
        s@ is Pass <==> (parsed_config("include /etc/sway/config.d/*"@) matches Some(c)
            && exists|i: int| 0 <= i < c.includes.len() && mentions_config_d(c.includes[i])),
{
    match parsed("include /etc/sway/config.d/*") {
        Some(config) => {
            let pred = |x: &String| -> (b: bool)
                ensures
                    b == mentions_config_d(x@),
                {
                    contains_str(x.as_str(), "config.d")
                };
            let ghost f: spec_fn(String) -> Seq<char> = |x: String| x@;
            let ghost q: spec_fn(Seq<char>) -> bool = |m: Seq<char>| mentions_config_d(m);
            let found = any::<String, Seq<char>, _>(&config.includes, pred, Ghost(f), Ghost(q));
            proof {
                lemma_exists_image(config.includes@, config@.includes, f, q);
            }
            verdict(found, "include path not found")
        },
        None => unparsed(),
    }
}

/// `default_orientation horizontal` is kept.
pub fn test_parse_default_orientation() -> (s: TestStatus)
    ensures
        s@ is Pass <==> (parsed_config("default_orientation horizontal"@) matches Some(c) && c.default_orientation == Some("horizontal"@)),
{
    match parsed("default_orientation horizontal") {
        Some(config) => verdict(opt_is(&config.default_orientation, "horizontal"), "expected horizontal"),
        None => unparsed(),
    }
}

/// `workspace_layout tabbed` is kept.
pub fn test_parse_workspace_layout() -> (s: TestStatus)
    ensures
        s@ is Pass <==> (parsed_config("workspace_layout tabbed"@) matches Some(c) && c.workspace_layout == Some("tabbed"@)),
{
    match parsed("workspace_layout tabbed") {
        Some(config) => verdict(opt_is(&config.workspace_layout, "tabbed"), "expected tabbed"),
        None => unparsed(),
    }
}

/// `xwayland enable` is kept.
pub fn test_parse_xwayland() -> (s: TestStatus)
    ensures
        s@ is Pass <==> (parsed_config("xwayland enable"@) matches Some(c) && c.xwayland == Some("enable"@)),
{
    match parsed("xwayland enable") {
        Some(config) => verdict(opt_is(&config.xwayland, "enable"), "expected enable"),
        None => unparsed(),
    }
}

/// `swaybg_command` is kept.
pub fn test_parse_swaybg_command() -> (s: TestStatus)
    ensures
        s@ is Pass <==> (parsed_config("swaybg_command /usr/bin/swaybg"@) matches Some(c) && c.swaybg_command == Some("/usr/bin/swaybg"@)),
{
    match parsed("swaybg_command /usr/bin/swaybg") {
        Some(config) => verdict(opt_is(&config.swaybg_command, "/usr/bin/swaybg"), "expected /usr/bin/swaybg"),
        None => unparsed(),
    }
}

/// `swaynag_command` is kept.
pub fn test_parse_swaynag_command() -> (s: TestStatus)
    ensures
        s@ is Pass <==> (parsed_config("swaynag_command /usr/bin/swaynag"@) matches Some(c) && c.swaynag_command == Some("/usr/bin/swaynag"@)),
{
    match parsed("swaynag_command /usr/bin/swaynag") {
        Some(config) => verdict(opt_is(&config.swaynag_command, "/usr/bin/swaynag"), "expected /usr/bin/swaynag"),
        None => unparsed(),
    }
}

/// `floating_modifier Mod4` sets the modifier.
pub fn test_parse_floating_modifier() -> (s: TestStatus)
    ensures
        s@ is Pass <==> (parsed_config("floating_modifier Mod4"@) matches Some(c) && c.floating_modifier == Some(Modifier::Mod4)),
{
    match parsed("floating_modifier Mod4") {
        Some(config) => verdict(match config.floating_modifier { Some(m) => m == Modifier::Mod4, None => false }, "expected Some(Mod4)"),
        None => unparsed(),
    }
}

/// `floating_maximum_size 1920 x 1080` sets the bound.
pub fn test_parse_floating_max_size() -> (s: TestStatus)
    ensures
        s@ is Pass <==> (parsed_config("floating_maximum_size 1920 x 1080"@) matches Some(c) && c.floating_maximum_size == Some((1920i32, 1080i32))),
{
    match parsed("floating_maximum_size 1920 x 1080") {
        Some(config) => verdict(match config.floating_maximum_size { Some((w, h)) => w == 1920 && h == 1080, None => false }, "expected (1920,1080)"),
        None => unparsed(),
    }
}

/// `floating_minimum_size 75 x 50` sets the bound.
pub fn test_parse_floating_min_size() -> (s: TestStatus)
    ensures
        s@ is Pass <==> (parsed_config("floating_minimum_size 75 x 50"@) matches Some(c) && c.floating_minimum_size == Some((75i32, 50i32))),
{
    match parsed("floating_minimum_size 75 x 50") {
        Some(config) => verdict(match config.floating_minimum_size { Some((w, h)) => w == 75 && h == 50, None => false }, "expected (75,50)"),
        None => unparsed(),
    }
}

/// `focus_follows_mouse always` is its own mode.
pub fn test_parse_focus_follows_mouse_always() -> (s: TestStatus)
    ensures
        s@ is Pass <==> (parsed_config("focus_follows_mouse always"@) matches Some(c) && c.focus_follows_mouse == FocusFollowsMouse::Always),
{
    match parsed("focus_follows_mouse always") {
        Some(config) => verdict(config.focus_follows_mouse == FocusFollowsMouse::Always, "expected Always"),
        None => unparsed(),
    }
}

/// `focus_on_window_activation smart` is kept.
pub fn test_parse_focus_on_window_activation() -> (s: TestStatus)
    ensures
        s@ is Pass <==> (parsed_config("focus_on_window_activation smart"@) matches Some(c) && c.focus_on_window_activation == Some("smart"@)),
{
    match parsed("focus_on_window_activation smart") {
        Some(config) => verdict(opt_is(&config.focus_on_window_activation, "smart"), "expected smart"),
        None => unparsed(),
    }
}

/// `focus_wrapping yes` is kept.
pub fn test_parse_focus_wrapping() -> (s: TestStatus)
    ensures
        s@ is Pass <==> (parsed_config("focus_wrapping yes"@) matches Some(c) && c.focus_wrapping == Some("yes"@)),
{
    match parsed("focus_wrapping yes") {
        Some(config) => verdict(opt_is(&config.focus_wrapping, "yes"), "expected yes"),
        None => unparsed(),
    }
}

/// `mouse_warping output` is kept.
pub fn test_parse_mouse_warping() -> (s: TestStatus)
    ensures
        s@ is Pass <==> (parsed_config("mouse_warping output"@) matches Some(c) && c.mouse_warping == Some("output"@)),
{
    match parsed("mouse_warping output") {
        Some(config) => verdict(opt_is(&config.mouse_warping, "output"), "expected output"),
        None => unparsed(),
    }
}

/// `popup_during_fullscreen smart` is kept.
pub fn test_parse_popup_during_fullscreen() -> (s: TestStatus)
    ensures
        s@ is Pass <==> (parsed_config("popup_during_fullscreen smart"@) matches Some(c) && c.popup_during_fullscreen == Some("smart"@)),
{
    match parsed("popup_during_fullscreen smart") {
        Some(config) => verdict(opt_is(&config.popup_during_fullscreen, "smart"), "expected smart"),
        None => unparsed(),
    }
}

/// `show_marks yes` turns marks on.
pub fn test_parse_show_marks() -> (s: TestStatus)
    ensures
        s@ is Pass <==> (parsed_config("show_marks yes"@) matches Some(c) && c.show_marks == Some(true)),
{
    match parsed("show_marks yes") {
        Some(config) => verdict(match config.show_marks { Some(b) => b, None => false }, "expected Some(true)"),
        None => unparsed(),
    }
}

/// `tiling_drag enable` is kept.
pub fn test_parse_tiling_drag() -> (s: TestStatus)
    ensures
        s@ is Pass <==> (parsed_config("tiling_drag enable"@) matches Some(c) && c.tiling_drag == Some("enable"@)),
{
    match parsed("tiling_drag enable") {
        Some(config) => verdict(opt_is(&config.tiling_drag, "enable"), "expected enable"),
        None => unparsed(),
    }
}

/// `title_align center` is kept.
pub fn test_parse_title_align() -> (s: TestStatus)
    ensures
        s@ is Pass <==> (parsed_config("title_align center"@) matches Some(c) && c.title_align == Some("center"@)),
{
    match parsed("title_align center") {
        Some(config) => verdict(opt_is(&config.title_align, "center"), "expected center"),
        None => unparsed(),
    }
}

/// `workspace_auto_back_and_forth yes` turns it on.
pub fn test_parse_workspace_auto_back_and_forth() -> (s: TestStatus)
    ensures
        s@ is Pass <==> (parsed_config("workspace_auto_back_and_forth yes"@) matches Some(c) && c.workspace_auto_back_and_forth),
{
    match parsed("workspace_auto_back_and_forth yes") {
        Some(config) => verdict(config.workspace_auto_back_and_forth, "expected true"),
        None => unparsed(),
    }
}

/// A `for_window` rule may match the window class.
pub fn test_parse_for_window_class() -> (s: TestStatus)
    ensures
        s@ is Pass <==> (parsed_config("for_window [class=\"Firefox\"] floating enable"@) matches Some(c)
            && exists|i: int| 0 <= i < c.window_rules.len() && on_class_firefox(c.window_rules[i])),
{
    match parsed("for_window [class=\"Firefox\"] floating enable") {
        Some(config) => {
            let pred = |x: &WindowRule| -> (b: bool)
                ensures
                    b == on_class_firefox(x@),
                {
                    opt_is(&x.criteria.class, "Firefox")
                };
            let ghost f: spec_fn(WindowRule) -> RuleModel = |x: WindowRule| x@;
            let ghost q: spec_fn(RuleModel) -> bool = |m: RuleModel| on_class_firefox(m);
            let found = any::<WindowRule, RuleModel, _>(&config.window_rules, pred, Ghost(f), Ghost(q));
            proof {
                lemma_exists_image(config.window_rules@, config@.window_rules, f, q);
            }
            verdict(found, "for_window [class] rule not found")
        },
        None => unparsed(),
    }
}

/// A `for_window` rule may match the window title.
pub fn test_parse_for_window_title() -> (s: TestStatus)
    ensures
        s@ is Pass <==> (parsed_config("for_window [title=\"Calculator\"] floating enable"@) matches Some(c)
            && exists|i: int| 0 <= i < c.window_rules.len() && on_title_calculator(c.window_rules[i])),
{
    match parsed("for_window [title=\"Calculator\"] floating enable") {
        Some(config) => {
            let pred = |x: &WindowRule| -> (b: bool)
                ensures
                    b == on_title_calculator(x@),
                {
                    opt_is(&x.criteria.title, "Calculator")
                };
            let ghost f: spec_fn(WindowRule) -> RuleModel = |x: WindowRule| x@;
            let ghost q: spec_fn(RuleModel) -> bool = |m: RuleModel| on_title_calculator(m);
            let found = any::<WindowRule, RuleModel, _>(&config.window_rules, pred, Ghost(f), Ghost(q));
            proof {
                lemma_exists_image(config.window_rules@, config@.window_rules, f, q);
            }
            verdict(found, "for_window [title] rule not found")
        },
        None => unparsed(),
    }
}

/// `assign [app_id="firefox"] workspace 2` adds that rule.
pub fn test_parse_assign_workspace() -> (s: TestStatus)
    ensures
        s@ is Pass <==> (parsed_config("assign [app_id=\"firefox\"] workspace 2"@) matches Some(c)
            && exists|i: int| 0 <= i < c.assigns.len() && firefox_to_two(c.assigns[i])),
{
    match parsed("assign [app_id=\"firefox\"] workspace 2") {
        Some(config) => {
            let pred = |x: &AssignRule| -> (b: bool)
                ensures
                    b == firefox_to_two(*x),
                {
                    opt_is(&x.criteria.app_id, "firefox") && str_eq(x.workspace.as_str(), "2")
                };
            let ghost f: spec_fn(AssignRule) -> AssignRule = |x: AssignRule| x;
            let ghost q: spec_fn(AssignRule) -> bool = |m: AssignRule| firefox_to_two(m);
            let found = any::<AssignRule, AssignRule, _>(&config.assigns, pred, Ghost(f), Ghost(q));
            proof {
                lemma_exists_image(config.assigns@, config@.assigns, f, q);
            }
            verdict(found, "assign rule not found")
        },
        None => unparsed(),
    }
}

/// `no_focus` records its criteria.
pub fn test_parse_no_focus() -> (s: TestStatus)
    ensures
        s@ is Pass <==> (parsed_config("no_focus [app_id=\"notifications\"]"@) matches Some(c)
            && exists|i: int| 0 <= i < c.no_focus_rules.len() && on_notifications(c.no_focus_rules[i])),
{
    match parsed("no_focus [app_id=\"notifications\"]") {
        Some(config) => {
            let pred = |x: &WindowCriteria| -> (b: bool)
                ensures
                    b == on_notifications(*x),
                {
                    opt_is(&x.app_id, "notifications")
                };
            let ghost f: spec_fn(WindowCriteria) -> WindowCriteria = |x: WindowCriteria| x;
            let ghost q: spec_fn(WindowCriteria) -> bool = |m: WindowCriteria| on_notifications(m);
            let found = any::<WindowCriteria, WindowCriteria, _>(&config.no_focus_rules, pred, Ghost(f), Ghost(q));
            proof {
                lemma_exists_image(config.no_focus_rules@, config@.no_focus_rules, f, q);
            }
            verdict(found, "no_focus rule not found")
        },
        None => unparsed(),
    }
}

/// A `bar` block is read.
pub fn test_parse_bar_block() -> (s: TestStatus)
    ensures
        s@ is Pass <==> (parsed_config("bar {\n    status_command waybar\n}"@) matches Some(c) && c.bar is Some),
{
    match parsed("bar {\n    status_command waybar\n}") {
        Some(config) => verdict(config.bar.is_some(), "bar block not parsed"),
        None => unparsed(),
    }
}

/// A bar's `status_command` is kept.
pub fn test_parse_bar_status_command() -> (s: TestStatus)
    ensures
        s@ is Pass <==> (parsed_config("bar {\n    status_command waybar\n}"@) matches Some(c) && c.bar matches Some(b)
            && opt_view(b.status_command) == Some("waybar"@)),
{
    match parsed("bar {\n    status_command waybar\n}") {
        Some(config) => match &config.bar {
            Some(bar) => verdict(opt_is(&bar.status_command, "waybar"), "expected waybar"),
            None => TestStatus::Fail(crate::text::to_string("bar block not parsed")),
        },
        None => unparsed(),
    }
}

/// A bar's `position` is kept.
pub fn test_parse_bar_position() -> (s: TestStatus)
    ensures
        s@ is Pass <==> (parsed_config("bar {\n    position top\n}"@) matches Some(c) && c.bar matches Some(b)
            && opt_view(b.position) == Some("top"@)),
{
    match parsed("bar {\n    position top\n}") {
        Some(config) => match &config.bar {
            Some(bar) => verdict(opt_is(&bar.position, "top"), "expected top"),
            None => TestStatus::Fail(crate::text::to_string("bar block not parsed")),
        },
        None => unparsed(),
    }
}

/// `client.focused` sets the colours of the focused window.
pub fn test_parse_client_focused() -> (s: TestStatus)
    ensures
        s@ is Pass <==> (parsed_config("client.focused #4c7899 #285577 #ffffff #2e9ef4 #285577"@) matches Some(c)
            && c.client_focused matches Some(cc) && cc.border@ == "#4c7899"@),
{
    match parsed("client.focused #4c7899 #285577 #ffffff #2e9ef4 #285577") {
        Some(config) => match &config.client_focused {
            Some(cc) => verdict(str_eq(cc.border.as_str(), "#4c7899"), "unexpected border color"),
            None => TestStatus::Fail(crate::text::to_string("client.focused not parsed")),
        },
        None => unparsed(),
    }
}

/// The configuration checks, in the order that [`register`] adds them.
pub open spec fn config_checks() -> Seq<TestInfo> {
    seq![
        check(Category::Config, "parse_set_variable"@, "set $var value"@, Priority::P0),
        check(Category::Config, "parse_bindsym"@, "bindsym"@, Priority::P0),
        check(Category::Config, "parse_gaps_inner"@, "gaps inner"@, Priority::P1),
        check(Category::Config, "parse_gaps_outer"@, "gaps outer"@, Priority::P1),
        check(Category::Config, "parse_output_background"@, "output bg"@, Priority::P1),
        check(Category::Config, "parse_default_border"@, "default_border"@, Priority::P1),
        check(Category::Config, "parse_exec"@, "exec"@, Priority::P0),
        check(Category::Config, "parse_exec_always"@, "exec_always"@, Priority::P0),
        check(Category::Config, "parse_focus_follows_mouse"@, "focus_follows_mouse"@, Priority::P1),
        check(Category::Config, "parse_font"@, "font"@, Priority::P1),
        check(Category::Config, "parse_for_window"@, "for_window"@, Priority::P1),
        check(Category::Config, "parse_workspace_output"@, "workspace output"@, Priority::P1),
        check(Category::Config, "parse_input_block"@, "input block"@, Priority::P1),
        check(Category::Config, "parse_mode_block"@, "mode block"@, Priority::P2),
        check(Category::Config, "parse_variable_substitution"@, "variable substitution"@, Priority::P0),
        check(Category::Config, "parse_comments"@, "comments"@, Priority::P0),
        check(Category::Config, "parse_output_resolution"@, "output resolution"@, Priority::P1),
        check(Category::Config, "parse_include_directive"@, "include /path/*"@, Priority::P1),
        check(Category::Config, "parse_default_orientation"@, "default_orientation horizontal|vertical|auto"@, Priority::P1),
        check(Category::Config, "parse_workspace_layout"@, "workspace_layout default|stacking|tabbed"@, Priority::P1),
        check(Category::Config, "parse_xwayland"@, "xwayland enable|disable|force"@, Priority::P1),
        check(Category::Config, "parse_swaybg_command"@, "swaybg_command <cmd>"@, Priority::P2),
        check(Category::Config, "parse_swaynag_command"@, "swaynag_command <cmd>"@, Priority::P2),
        check(Category::Config, "parse_floating_modifier"@, "floating_modifier <mod>"@, Priority::P0),
        check(Category::Config, "parse_floating_max_size"@, "floating_maximum_size <w> x <h>"@, Priority::P1),
        check(Category::Config, "parse_floating_min_size"@, "floating_minimum_size <w> x <h>"@, Priority::P1),
        check(Category::Config, "parse_focus_follows_mouse_always"@, "focus_follows_mouse always"@, Priority::P0),
        check(Category::Config, "parse_focus_on_window_activation"@, "focus_on_window_activation smart|urgent|focus|none"@, Priority::P1),
        check(Category::Config, "parse_focus_wrapping"@, "focus_wrapping yes|no|force|workspace"@, Priority::P1),
        check(Category::Config, "parse_mouse_warping"@, "mouse_warping output|container|none"@, Priority::P1),
        check(Category::Config, "parse_popup_during_fullscreen"@, "popup_during_fullscreen smart|ignore|leave_fullscreen"@, Priority::P2),
        check(Category::Config, "parse_show_marks"@, "show_marks yes|no"@, Priority::P2),
        check(Category::Config, "parse_tiling_drag"@, "tiling_drag enable|disable|toggle"@, Priority::P1),
        check(Category::Config, "parse_title_align"@, "title_align left|center|right"@, Priority::P2),
        check(Category::Config, "parse_workspace_auto_back_and_forth"@, "workspace_auto_back_and_forth yes|no"@, Priority::P1),
        check(Category::Config, "parse_for_window_class"@, "for_window [class] criteria"@, Priority::P0),
        check(Category::Config, "parse_for_window_title"@, "for_window [title] criteria"@, Priority::P0),
        check(Category::Config, "parse_assign_workspace"@, "assign [criteria] workspace"@, Priority::P1),
        check(Category::Config, "parse_no_focus"@, "no_focus [criteria]"@, Priority::P2),
        check(Category::Config, "parse_bar_block"@, "bar { } config block"@, Priority::P1),
        check(Category::Config, "parse_bar_status_command"@, "bar { status_command }"@, Priority::P1),
        check(Category::Config, "parse_bar_position"@, "bar { position top|bottom }"@, Priority::P1),
        check(Category::Config, "parse_client_focused"@, "client.focused colors"@, Priority::P1),
    ]
}

/// Registers the configuration checks after those the harness holds.
#[verifier::rlimit(60)]
pub fn register(harness: &mut Harness)
    ensures
        infos(final(harness).tests()) == infos(old(harness).tests()) + config_checks(),
{
    reg(harness, Category::Config, "parse_set_variable", "解析 set $mod Mod4 变量定义", "set $var value", Priority::P0, test_parse_set_variable);
    reg(harness, Category::Config, "parse_bindsym", "解析 bindsym $mod+Return exec alacritty", "bindsym", Priority::P0, test_parse_bindsym);
    reg(harness, Category::Config, "parse_gaps_inner", "解析 gaps inner 10", "gaps inner", Priority::P1, test_parse_gaps_inner);
    reg(harness, Category::Config, "parse_gaps_outer", "解析 gaps outer 5", "gaps outer", Priority::P1, test_parse_gaps_outer);
    reg(harness, Category::Config, "parse_output_background", "解析 output * bg wallpaper.png fill", "output bg", Priority::P1, test_parse_output_background);
    reg(harness, Category::Config, "parse_default_border", "解析 default_border pixel 2", "default_border", Priority::P1, test_parse_default_border);
    reg(harness, Category::Config, "parse_exec", "解析 exec 启动命令", "exec", Priority::P0, test_parse_exec);
    reg(harness, Category::Config, "parse_exec_always", "解析 exec_always 启动命令", "exec_always", Priority::P0, test_parse_exec_always);
    reg(harness, Category::Config, "parse_focus_follows_mouse", "解析 focus_follows_mouse yes/no", "focus_follows_mouse", Priority::P1, test_parse_focus_follows_mouse);
    reg(harness, Category::Config, "parse_font", "解析 font pango:monospace 10", "font", Priority::P1, test_parse_font);
    reg(harness, Category::Config, "parse_for_window", "解析 for_window 窗口规则", "for_window", Priority::P1, test_parse_for_window);
    reg(harness, Category::Config, "parse_workspace_output", "解析 workspace 1 output eDP-1", "workspace output", Priority::P1, test_parse_workspace_output);
    reg(harness, Category::Config, "parse_input_block", "解析 input 设备配置块", "input block", Priority::P1, test_parse_input_block);
    reg(harness, Category::Config, "parse_mode_block", "解析 mode 自定义模式块", "mode block", Priority::P2, test_parse_mode_block);
    reg(harness, Category::Config, "parse_variable_substitution", "变量替换在 bindsym 中生效", "variable substitution", Priority::P0, test_parse_variable_substitution);
    reg(harness, Category::Config, "parse_comments", "正确忽略注释行", "comments", Priority::P0, test_parse_comments);
    reg(harness, Category::Config, "parse_output_resolution", "解析 output eDP-1 resolution 1920x1080", "output resolution", Priority::P1, test_parse_output_resolution);
    reg(harness, Category::Config, "parse_include_directive", "include 指令解析", "include /path/*", Priority::P1, test_parse_include_directive);
    reg(harness, Category::Config, "parse_default_orientation", "default_orientation 解析", "default_orientation horizontal|vertical|auto", Priority::P1, test_parse_default_orientation);
    reg(harness, Category::Config, "parse_workspace_layout", "workspace_layout 解析", "workspace_layout default|stacking|tabbed", Priority::P1, test_parse_workspace_layout);
    reg(harness, Category::Config, "parse_xwayland", "xwayland 配置解析", "xwayland enable|disable|force", Priority::P1, test_parse_xwayland);
    reg(harness, Category::Config, "parse_swaybg_command", "swaybg_command 解析", "swaybg_command <cmd>", Priority::P2, test_parse_swaybg_command);
    reg(harness, Category::Config, "parse_swaynag_command", "swaynag_command 解析", "swaynag_command <cmd>", Priority::P2, test_parse_swaynag_command);
    reg(harness, Category::Config, "parse_floating_modifier", "floating_modifier 解析", "floating_modifier <mod>", Priority::P0, test_parse_floating_modifier);
    reg(harness, Category::Config, "parse_floating_max_size", "floating_maximum_size 解析", "floating_maximum_size <w> x <h>", Priority::P1, test_parse_floating_max_size);
    reg(harness, Category::Config, "parse_floating_min_size", "floating_minimum_size 解析", "floating_minimum_size <w> x <h>", Priority::P1, test_parse_floating_min_size);
    reg(harness, Category::Config, "parse_focus_follows_mouse_always", "focus_follows_mouse always 模式", "focus_follows_mouse always", Priority::P0, test_parse_focus_follows_mouse_always);
    reg(harness, Category::Config, "parse_focus_on_window_activation", "focus_on_window_activation 解析", "focus_on_window_activation smart|urgent|focus|none", Priority::P1, test_parse_focus_on_window_activation);
    reg(harness, Category::Config, "parse_focus_wrapping", "focus_wrapping 解析", "focus_wrapping yes|no|force|workspace", Priority::P1, test_parse_focus_wrapping);
    reg(harness, Category::Config, "parse_mouse_warping", "mouse_warping 解析", "mouse_warping output|container|none", Priority::P1, test_parse_mouse_warping);
    reg(harness, Category::Config, "parse_popup_during_fullscreen", "popup_during_fullscreen 解析", "popup_during_fullscreen smart|ignore|leave_fullscreen", Priority::P2, test_parse_popup_during_fullscreen);
    reg(harness, Category::Config, "parse_show_marks", "show_marks 解析", "show_marks yes|no", Priority::P2, test_parse_show_marks);
    reg(harness, Category::Config, "parse_tiling_drag", "tiling_drag 解析", "tiling_drag enable|disable|toggle", Priority::P1, test_parse_tiling_drag);
    reg(harness, Category::Config, "parse_title_align", "title_align 解析", "title_align left|center|right", Priority::P2, test_parse_title_align);
    reg(harness, Category::Config, "parse_workspace_auto_back_and_forth", "workspace_auto_back_and_forth 解析", "workspace_auto_back_and_forth yes|no", Priority::P1, test_parse_workspace_auto_back_and_forth);
    reg(harness, Category::Config, "parse_for_window_class", "for_window [class] 窗口条件匹配", "for_window [class] criteria", Priority::P0, test_parse_for_window_class);
    reg(harness, Category::Config, "parse_for_window_title", "for_window [title] 窗口条件匹配", "for_window [title] criteria", Priority::P0, test_parse_for_window_title);
    reg(harness, Category::Config, "parse_assign_workspace", "assign [criteria] workspace 自动分配窗口", "assign [criteria] workspace", Priority::P1, test_parse_assign_workspace);
    reg(harness, Category::Config, "parse_no_focus", "no_focus [criteria] 阻止自动聚焦", "no_focus [criteria]", Priority::P2, test_parse_no_focus);
    reg(harness, Category::Config, "parse_bar_block", "bar { } 配置块解析", "bar { } config block", Priority::P1, test_parse_bar_block);
    reg(harness, Category::Config, "parse_bar_status_command", "bar { status_command } 解析", "bar { status_command }", Priority::P1, test_parse_bar_status_command);
    reg(harness, Category::Config, "parse_bar_position", "bar { position top|bottom } 解析", "bar { position top|bottom }", Priority::P1, test_parse_bar_position);
    reg(harness, Category::Config, "parse_client_focused", "client.focused 颜色配置解析", "client.focused colors", Priority::P1, test_parse_client_focused);
    assert(infos(harness.tests()) =~= infos(old(harness).tests()) + config_checks());
}

} // verus!
