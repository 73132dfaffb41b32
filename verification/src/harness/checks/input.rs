//! Checks of input handling: key bindings and their flags, input devices
//! and their settings, binding modes, key codes and seats.

use super::{
    any, check, has_modifier, infos, lemma_exists_image, parsed, parsed_config, reg, setting_is, unparsed,
    verdict,
};
use crate::config::types::{
    Action, ActionModel, Bindcode, Direction, InputConfig, InputModel, Keybinding,
    KeybindingModel, LayoutType, ModeBlock, Modifier, SeatConfig, SplitDirection,
};
use crate::harness::suite::{Category, Harness, Priority, TestInfo, TestStatus};
use crate::text::{str_eq, to_string};
use vstd::prelude::*;

verus! {

/// `Mod4+Shift+q` bound to `kill`.
pub open spec fn kills_on_shift_q(kb: KeybindingModel) -> bool {
    kb.modifiers.contains(Modifier::Mod4) && kb.modifiers.contains(Modifier::Shift) && kb.key == "q"@
        && kb.action == ActionModel::Kill
}

/// A device whose setting `k` is `v`.
pub open spec fn sets(i: InputModel, k: Seq<char>, v: Seq<char>) -> bool {
    i.settings.contains_key(k) && i.settings[k] == v
}

/// A binding of `Mod4+<key>` (or of `<key>` alone, where `with_mod4` is
/// false) whose flag number `flag` is set (0 release, 1 locked, 2 whole
/// window, 3 no repeat).
pub open spec fn flagged(kb: KeybindingModel, key: Seq<char>, with_mod4: bool, flag: int) -> bool {
    kb.key == key && (with_mod4 ==> kb.modifiers.contains(Modifier::Mod4)) && if flag == 0 {
        kb.flags.release
    } else if flag == 1 {
        kb.flags.locked
    } else if flag == 2 {
        kb.flags.whole_window
    } else {
        kb.flags.no_repeat
    }
}

/// The mode `resize` with at least one binding.
pub open spec fn resize_with_bindings(m: ModeBlock) -> bool {
    m.name@ == "resize"@ && m.keybindings@.len() > 0
}

/// A binding of key code 36.
pub open spec fn code_36(b: Bindcode) -> bool {
    b.code == 36
}

/// The seat `seat0`.
pub open spec fn is_seat0(s: SeatConfig) -> bool {
    s.name@ == "seat0"@
}

/// `bindsym $mod+Shift+q kill` keeps both modifiers.
pub fn test_keybinding_modifiers() -> (s: TestStatus)
    ensures
        s@ is Pass <==> (parsed_config("set $mod Mod4\nbindsym $mod+Shift+q kill"@) matches Some(c)
            && exists|i: int| 0 <= i < c.keybindings.len() && kills_on_shift_q(c.keybindings[i])),
{
    match parsed("set $mod Mod4\nbindsym $mod+Shift+q kill") {
        Some(config) => {
            let pred = |x: &Keybinding| -> (b: bool)
                ensures
                    b == kills_on_shift_q(x@),
                {
                    has_modifier(&x.modifiers, Modifier::Mod4) && has_modifier(&x.modifiers, Modifier::Shift) && str_eq(x.key.as_str(), "q") && matches!(x.action, Action::Kill)
                };
            let ghost f: spec_fn(Keybinding) -> KeybindingModel = |x: Keybinding| x@;
            let ghost q: spec_fn(KeybindingModel) -> bool = |m: KeybindingModel| kills_on_shift_q(m);
            let found = any::<Keybinding, KeybindingModel, _>(&config.keybindings, pred, Ghost(f), Ghost(q));
            proof {
                lemma_exists_image(config.keybindings@, config@.keybindings, f, q);
            }
            verdict(found, "Mod4+Shift+q kill not parsed correctly")
        },
        None => unparsed(),
    }
}

/// Every core action kind can be built.
pub fn test_keybinding_actions() -> (s: TestStatus)
    ensures
        s@ is Pass,
{
    let actions: Vec<Action> = vec![
        Action::Exec(to_string("test")),
        Action::Focus(Direction::Left),
        Action::Move(Direction::Right),
        Action::Workspace(to_string("1")),
        Action::MoveToWorkspace(to_string("2")),
        Action::Split(SplitDirection::Horizontal),
        Action::Layout(LayoutType::Tabbed),
        Action::ToggleFloating,
        Action::Fullscreen,
        Action::Kill,
        Action::Reload,
        Action::Exit,
    ];
    verdict(actions.len() == 12, "action types incomplete")
}

/// An `input` block gives a device configuration.
pub fn test_input_device_config() -> (s: TestStatus)
    ensures
        s@ is Pass <==> (parsed_config("input \"1:1:keyboard\" {\n    xkb_layout us\n}"@) matches Some(c)
            && c.inputs.len() > 0),
{
    match parsed("input \"1:1:keyboard\" {\n    xkb_layout us\n}") {
        Some(config) => verdict(config.inputs.len() > 0, "no input config parsed"),
        None => unparsed(),
    }
}

/// `focus_follows_mouse yes` turns it on.
pub fn test_focus_follows_mouse() -> (s: TestStatus)
    ensures
        s@ is Pass <==> (parsed_config("focus_follows_mouse yes"@) matches Some(c) && (c.focus_follows_mouse == crate::config::types::FocusFollowsMouse::Yes || c.focus_follows_mouse == crate::config::types::FocusFollowsMouse::Always)),
{
    match parsed("focus_follows_mouse yes") {
        Some(config) => verdict(config.focus_follows_mouse.is_enabled(), "focus_follows_mouse not set to yes"),
        None => unparsed(),
    }
}

/// A device line sets `xkb_layout`.
pub fn test_input_xkb_layout() -> (s: TestStatus)
    ensures
        s@ is Pass <==> (parsed_config("input \"1:1:keyboard\" xkb_layout us"@) matches Some(c)
            && exists|i: int| 0 <= i < c.inputs.len() && sets(c.inputs[i], "xkb_layout"@, "us"@)),
{
    match parsed("input \"1:1:keyboard\" xkb_layout us") {
        Some(config) => {
            let pred = |x: &InputConfig| -> (b: bool)
                ensures
                    b == sets(x@, "xkb_layout"@, "us"@),
                {
                    setting_is(&x.settings, "xkb_layout", "us")
                };
            let ghost f: spec_fn(InputConfig) -> InputModel = |x: InputConfig| x@;
            let ghost q: spec_fn(InputModel) -> bool = |m: InputModel| sets(m, "xkb_layout"@, "us"@);
            let found = any::<InputConfig, InputModel, _>(&config.inputs, pred, Ghost(f), Ghost(q));
            proof {
                lemma_exists_image(config.inputs@, config@.inputs, f, q);
            }
            verdict(found, "xkb_layout setting not found")
        },
        None => unparsed(),
    }
}

/// A device line sets `xkb_options`.
pub fn test_input_xkb_options() -> (s: TestStatus)
    ensures
        s@ is Pass <==> (parsed_config("input \"1:1:keyboard\" xkb_options caps:escape"@) matches Some(c)
            && exists|i: int| 0 <= i < c.inputs.len() && sets(c.inputs[i], "xkb_options"@, "caps:escape"@)),
{
    match parsed("input \"1:1:keyboard\" xkb_options caps:escape") {
        Some(config) => {
            let pred = |x: &InputConfig| -> (b: bool)
                ensures
                    b == sets(x@, "xkb_options"@, "caps:escape"@),
                {
                    setting_is(&x.settings, "xkb_options", "caps:escape")
                };
            let ghost f: spec_fn(InputConfig) -> InputModel = |x: InputConfig| x@;
            let ghost q: spec_fn(InputModel) -> bool = |m: InputModel| sets(m, "xkb_options"@, "caps:escape"@);
            let found = any::<InputConfig, InputModel, _>(&config.inputs, pred, Ghost(f), Ghost(q));
            proof {
                lemma_exists_image(config.inputs@, config@.inputs, f, q);
            }
            verdict(found, "xkb_options setting not found")
        },
        None => unparsed(),
    }
}

/// A device line sets `xkb_variant`.
pub fn test_input_xkb_variant() -> (s: TestStatus)
    ensures
        s@ is Pass <==> (parsed_config("input \"1:1:keyboard\" xkb_variant intl"@) matches Some(c)
            && exists|i: int| 0 <= i < c.inputs.len() && sets(c.inputs[i], "xkb_variant"@, "intl"@)),
{
    match parsed("input \"1:1:keyboard\" xkb_variant intl") {
        Some(config) => {
            let pred = |x: &InputConfig| -> (b: bool)
                ensures
                    b == sets(x@, "xkb_variant"@, "intl"@),
                {
                    setting_is(&x.settings, "xkb_variant", "intl")
                };
            let ghost f: spec_fn(InputConfig) -> InputModel = |x: InputConfig| x@;
            let ghost q: spec_fn(InputModel) -> bool = |m: InputModel| sets(m, "xkb_variant"@, "intl"@);
            let found = any::<InputConfig, InputModel, _>(&config.inputs, pred, Ghost(f), Ghost(q));
            proof {
                lemma_exists_image(config.inputs@, config@.inputs, f, q);
            }
            verdict(found, "xkb_variant setting not found")
        },
        None => unparsed(),
    }
}

/// A device line sets `xkb_model`.
pub fn test_input_xkb_model() -> (s: TestStatus)
    ensures
        s@ is Pass <==> (parsed_config("input \"1:1:keyboard\" xkb_model pc105"@) matches Some(c)
            && exists|i: int| 0 <= i < c.inputs.len() && sets(c.inputs[i], "xkb_model"@, "pc105"@)),
{
    match parsed("input \"1:1:keyboard\" xkb_model pc105") {
        Some(config) => {
            let pred = |x: &InputConfig| -> (b: bool)
                ensures
                    b == sets(x@, "xkb_model"@, "pc105"@),
                {
                    setting_is(&x.settings, "xkb_model", "pc105")
                };
            let ghost f: spec_fn(InputConfig) -> InputModel = |x: InputConfig| x@;
            let ghost q: spec_fn(InputModel) -> bool = |m: InputModel| sets(m, "xkb_model"@, "pc105"@);
            let found = any::<InputConfig, InputModel, _>(&config.inputs, pred, Ghost(f), Ghost(q));
            proof {
                lemma_exists_image(config.inputs@, config@.inputs, f, q);
            }
            verdict(found, "xkb_model setting not found")
        },
        None => unparsed(),
    }
}

/// A device line sets `repeat_delay`.
pub fn test_input_repeat_delay() -> (s: TestStatus)
    ensures
        s@ is Pass <==> (parsed_config("input \"1:1:keyboard\" repeat_delay 300"@) matches Some(c)
            && exists|i: int| 0 <= i < c.inputs.len() && sets(c.inputs[i], "repeat_delay"@, "300"@)),
{
    match parsed("input \"1:1:keyboard\" repeat_delay 300") {
        Some(config) => {
            let pred = |x: &InputConfig| -> (b: bool)
                ensures
                    b == sets(x@, "repeat_delay"@, "300"@),
                {
                    setting_is(&x.settings, "repeat_delay", "300")
                };
            let ghost f: spec_fn(InputConfig) -> InputModel = |x: InputConfig| x@;
            let ghost q: spec_fn(InputModel) -> bool = |m: InputModel| sets(m, "repeat_delay"@, "300"@);
            let found = any::<InputConfig, InputModel, _>(&config.inputs, pred, Ghost(f), Ghost(q));
            proof {
                lemma_exists_image(config.inputs@, config@.inputs, f, q);
            }
            verdict(found, "repeat_delay setting not found")
        },
        None => unparsed(),
    }
}

/// A device line sets `repeat_rate`.
pub fn test_input_repeat_rate() -> (s: TestStatus)
    ensures
        s@ is Pass <==> (parsed_config("input \"1:1:keyboard\" repeat_rate 50"@) matches Some(c)
            && exists|i: int| 0 <= i < c.inputs.len() && sets(c.inputs[i], "repeat_rate"@, "50"@)),
{
    match parsed("input \"1:1:keyboard\" repeat_rate 50") {
        Some(config) => {
            let pred = |x: &InputConfig| -> (b: bool)
                ensures
                    b == sets(x@, "repeat_rate"@, "50"@),
                {
                    setting_is(&x.settings, "repeat_rate", "50")
                };
            let ghost f: spec_fn(InputConfig) -> InputModel = |x: InputConfig| x@;
            let ghost q: spec_fn(InputModel) -> bool = |m: InputModel| sets(m, "repeat_rate"@, "50"@);
            let found = any::<InputConfig, InputModel, _>(&config.inputs, pred, Ghost(f), Ghost(q));
            proof {
                lemma_exists_image(config.inputs@, config@.inputs, f, q);
            }
            verdict(found, "repeat_rate setting not found")
        },
        None => unparsed(),
    }
}

/// A device line sets `natural_scroll`.
pub fn test_input_natural_scroll() -> (s: TestStatus)
    ensures
        s@ is Pass <==> (parsed_config("input \"1:1:touchpad\" natural_scroll enabled"@) matches Some(c)
            && exists|i: int| 0 <= i < c.inputs.len() && sets(c.inputs[i], "natural_scroll"@, "enabled"@)),
{
    match parsed("input \"1:1:touchpad\" natural_scroll enabled") {
        Some(config) => {
            let pred = |x: &InputConfig| -> (b: bool)
                ensures
                    b == sets(x@, "natural_scroll"@, "enabled"@),
                {
                    setting_is(&x.settings, "natural_scroll", "enabled")
                };
            let ghost f: spec_fn(InputConfig) -> InputModel = |x: InputConfig| x@;
            let ghost q: spec_fn(InputModel) -> bool = |m: InputModel| sets(m, "natural_scroll"@, "enabled"@);
            let found = any::<InputConfig, InputModel, _>(&config.inputs, pred, Ghost(f), Ghost(q));
            proof {
                lemma_exists_image(config.inputs@, config@.inputs, f, q);
            }
            verdict(found, "natural_scroll setting not found")
        },
        None => unparsed(),
    }
}

/// A device line sets `tap`.
pub fn test_input_tap() -> (s: TestStatus)
    ensures
        s@ is Pass <==> (parsed_config("input \"1:1:touchpad\" tap enabled"@) matches Some(c)
            && exists|i: int| 0 <= i < c.inputs.len() && sets(c.inputs[i], "tap"@, "enabled"@)),
{
    match parsed("input \"1:1:touchpad\" tap enabled") {
        Some(config) => {
            let pred = |x: &InputConfig| -> (b: bool)
                ensures
                    b == sets(x@, "tap"@, "enabled"@),
                {
                    setting_is(&x.settings, "tap", "enabled")
                };
            let ghost f: spec_fn(InputConfig) -> InputModel = |x: InputConfig| x@;
            let ghost q: spec_fn(InputModel) -> bool = |m: InputModel| sets(m, "tap"@, "enabled"@);
            let found = any::<InputConfig, InputModel, _>(&config.inputs, pred, Ghost(f), Ghost(q));
            proof {
                lemma_exists_image(config.inputs@, config@.inputs, f, q);
            }
            verdict(found, "tap setting not found")
        },
        None => unparsed(),
    }
}

/// A device line sets `dwt`.
pub fn test_input_dwt() -> (s: TestStatus)
    ensures
        s@ is Pass <==> (parsed_config("input \"1:1:touchpad\" dwt enabled"@) matches Some(c)
            && exists|i: int| 0 <= i < c.inputs.len() && sets(c.inputs[i], "dwt"@, "enabled"@)),
{
    match parsed("input \"1:1:touchpad\" dwt enabled") {
        Some(config) => {
            let pred = |x: &InputConfig| -> (b: bool)
                ensures
                    b == sets(x@, "dwt"@, "enabled"@),
                {
                    setting_is(&x.settings, "dwt", "enabled")
                };
            let ghost f: spec_fn(InputConfig) -> InputModel = |x: InputConfig| x@;
            let ghost q: spec_fn(InputModel) -> bool = |m: InputModel| sets(m, "dwt"@, "enabled"@);
            let found = any::<InputConfig, InputModel, _>(&config.inputs, pred, Ghost(f), Ghost(q));
            proof {
                lemma_exists_image(config.inputs@, config@.inputs, f, q);
            }
            verdict(found, "dwt setting not found")
        },
        None => unparsed(),
    }
}

/// A device line sets `accel_profile`.
pub fn test_input_accel_profile() -> (s: TestStatus)
    ensures
        s@ is Pass <==> (parsed_config("input \"1:1:touchpad\" accel_profile adaptive"@) matches Some(c)
            && exists|i: int| 0 <= i < c.inputs.len() && sets(c.inputs[i], "accel_profile"@, "adaptive"@)),
{
    match parsed("input \"1:1:touchpad\" accel_profile adaptive") {
        Some(config) => {
            let pred = |x: &InputConfig| -> (b: bool)
                ensures
                    b == sets(x@, "accel_profile"@, "adaptive"@),
                {
                    setting_is(&x.settings, "accel_profile", "adaptive")
                };
            let ghost f: spec_fn(InputConfig) -> InputModel = |x: InputConfig| x@;
            let ghost q: spec_fn(InputModel) -> bool = |m: InputModel| sets(m, "accel_profile"@, "adaptive"@);
            let found = any::<InputConfig, InputModel, _>(&config.inputs, pred, Ghost(f), Ghost(q));
            proof {
                lemma_exists_image(config.inputs@, config@.inputs, f, q);
            }
            verdict(found, "accel_profile setting not found")
        },
        None => unparsed(),
    }
}

/// A device line sets `pointer_accel`.
pub fn test_input_pointer_accel() -> (s: TestStatus)
    ensures
        s@ is Pass <==> (parsed_config("input \"1:1:touchpad\" pointer_accel 0.5"@) matches Some(c)
            && exists|i: int| 0 <= i < c.inputs.len() && sets(c.inputs[i], "pointer_accel"@, "0.5"@)),
{
    match parsed("input \"1:1:touchpad\" pointer_accel 0.5") {
        Some(config) => {
            let pred = |x: &InputConfig| -> (b: bool)
                ensures
                    b == sets(x@, "pointer_accel"@, "0.5"@),
                {
                    setting_is(&x.settings, "pointer_accel", "0.5")
                };
            let ghost f: spec_fn(InputConfig) -> InputModel = |x: InputConfig| x@;
            let ghost q: spec_fn(InputModel) -> bool = |m: InputModel| sets(m, "pointer_accel"@, "0.5"@);
            let found = any::<InputConfig, InputModel, _>(&config.inputs, pred, Ghost(f), Ghost(q));
            proof {
                lemma_exists_image(config.inputs@, config@.inputs, f, q);
            }
            verdict(found, "pointer_accel setting not found")
        },
        None => unparsed(),
    }
}

/// A device line sets `scroll_method`.
pub fn test_input_scroll_method() -> (s: TestStatus)
    ensures
        s@ is Pass <==> (parsed_config("input \"1:1:touchpad\" scroll_method two_finger"@) matches Some(c)
            && exists|i: int| 0 <= i < c.inputs.len() && sets(c.inputs[i], "scroll_method"@, "two_finger"@)),
{
    match parsed("input \"1:1:touchpad\" scroll_method two_finger") {
        Some(config) => {
            let pred = |x: &InputConfig| -> (b: bool)
                ensures
                    b == sets(x@, "scroll_method"@, "two_finger"@),
                {
                    setting_is(&x.settings, "scroll_method", "two_finger")
                };
            let ghost f: spec_fn(InputConfig) -> InputModel = |x: InputConfig| x@;
            let ghost q: spec_fn(InputModel) -> bool = |m: InputModel| sets(m, "scroll_method"@, "two_finger"@);
            let found = any::<InputConfig, InputModel, _>(&config.inputs, pred, Ghost(f), Ghost(q));
            proof {
                lemma_exists_image(config.inputs@, config@.inputs, f, q);
            }
            verdict(found, "scroll_method setting not found")
        },
        None => unparsed(),
    }
}

/// `--release` marks the binding.
pub fn test_bindsym_release_flag() -> (s: TestStatus)
    ensures
        s@ is Pass <==> (parsed_config("bindsym --release Mod4+q kill"@) matches Some(c)
            && exists|i: int| 0 <= i < c.keybindings.len() && flagged(c.keybindings[i], "q"@, true, 0)),
{
    match parsed("bindsym --release Mod4+q kill") {
        Some(config) => {
            let pred = |x: &Keybinding| -> (b: bool)
                ensures
                    b == flagged(x@, "q"@, true, 0),
                {
                    str_eq(x.key.as_str(), "q") && has_modifier(&x.modifiers, Modifier::Mod4) && x.flags.release
                };
            let ghost f: spec_fn(Keybinding) -> KeybindingModel = |x: Keybinding| x@;
            let ghost q: spec_fn(KeybindingModel) -> bool = |m: KeybindingModel| flagged(m, "q"@, true, 0);
            let found = any::<Keybinding, KeybindingModel, _>(&config.keybindings, pred, Ghost(f), Ghost(q));
            proof {
                lemma_exists_image(config.keybindings@, config@.keybindings, f, q);
            }
            verdict(found, "--release flag not parsed correctly")
        },
        None => unparsed(),
    }
}

/// `--locked` marks the binding.
pub fn test_bindsym_locked_flag() -> (s: TestStatus)
    ensures
        s@ is Pass <==> (parsed_config("bindsym --locked Mod4+l exec swaylock"@) matches Some(c)
            && exists|i: int| 0 <= i < c.keybindings.len() && flagged(c.keybindings[i], "l"@, true, 1)),
{
    match parsed("bindsym --locked Mod4+l exec swaylock") {
        Some(config) => {
            let pred = |x: &Keybinding| -> (b: bool)
                ensures
                    b == flagged(x@, "l"@, true, 1),
                {
                    str_eq(x.key.as_str(), "l") && has_modifier(&x.modifiers, Modifier::Mod4) && x.flags.locked
                };
            let ghost f: spec_fn(Keybinding) -> KeybindingModel = |x: Keybinding| x@;
            let ghost q: spec_fn(KeybindingModel) -> bool = |m: KeybindingModel| flagged(m, "l"@, true, 1);
            let found = any::<Keybinding, KeybindingModel, _>(&config.keybindings, pred, Ghost(f), Ghost(q));
            proof {
                lemma_exists_image(config.keybindings@, config@.keybindings, f, q);
            }
            verdict(found, "--locked flag not parsed correctly")
        },
        None => unparsed(),
    }
}

/// `--whole-window` marks the binding.
pub fn test_bindsym_whole_window_flag() -> (s: TestStatus)
    ensures
        s@ is Pass <==> (parsed_config("bindsym --whole-window button2 kill"@) matches Some(c)
            && exists|i: int| 0 <= i < c.keybindings.len() && flagged(c.keybindings[i], "button2"@, false, 2)),
{
    match parsed("bindsym --whole-window button2 kill") {
        Some(config) => {
            let pred = |x: &Keybinding| -> (b: bool)
                ensures
                    b == flagged(x@, "button2"@, false, 2),
                {
                    str_eq(x.key.as_str(), "button2") && x.flags.whole_window
                };
            let ghost f: spec_fn(Keybinding) -> KeybindingModel = |x: Keybinding| x@;
            let ghost q: spec_fn(KeybindingModel) -> bool = |m: KeybindingModel| flagged(m, "button2"@, false, 2);
            let found = any::<Keybinding, KeybindingModel, _>(&config.keybindings, pred, Ghost(f), Ghost(q));
            proof {
                lemma_exists_image(config.keybindings@, config@.keybindings, f, q);
            }
            verdict(found, "--whole-window flag not parsed correctly")
        },
        None => unparsed(),
    }
}

/// `--no-repeat` marks the binding.
pub fn test_bindsym_no_repeat_flag() -> (s: TestStatus)
    ensures
        s@ is Pass <==> (parsed_config("bindsym --no-repeat Mod4+r exec rofi"@) matches Some(c)
            && exists|i: int| 0 <= i < c.keybindings.len() && flagged(c.keybindings[i], "r"@, true, 3)),
{
    match parsed("bindsym --no-repeat Mod4+r exec rofi") {
        Some(config) => {
            let pred = |x: &Keybinding| -> (b: bool)
                ensures
                    b == flagged(x@, "r"@, true, 3),
                {
                    str_eq(x.key.as_str(), "r") && has_modifier(&x.modifiers, Modifier::Mod4) && x.flags.no_repeat
                };
            let ghost f: spec_fn(Keybinding) -> KeybindingModel = |x: Keybinding| x@;
            let ghost q: spec_fn(KeybindingModel) -> bool = |m: KeybindingModel| flagged(m, "r"@, true, 3);
            let found = any::<Keybinding, KeybindingModel, _>(&config.keybindings, pred, Ghost(f), Ghost(q));
            proof {
                lemma_exists_image(config.keybindings@, config@.keybindings, f, q);
            }
            verdict(found, "--no-repeat flag not parsed correctly")
        },
        None => unparsed(),
    }
}

/// `unbindsym` removes the binding.
pub fn test_unbindsym() -> (s: TestStatus)
    ensures
        s@ is Pass <==> (parsed_config("bindsym Mod4+q kill\nunbindsym Mod4+q"@) matches Some(c) && c.keybindings.len() == 0),
{
    match parsed("bindsym Mod4+q kill\nunbindsym Mod4+q") {
        Some(config) => verdict(config.keybindings.len() == 0, "unbindsym did not remove keybinding"),
        None => unparsed(),
    }
}

/// A mode holds its bindings.
pub fn test_mode_binding() -> (s: TestStatus)
    ensures
        s@ is Pass <==> (parsed_config("mode \"resize\" {\n    bindsym Left resize shrink width 10 px\n}"@) matches Some(c)
            && exists|i: int| 0 <= i < c.modes.len() && resize_with_bindings(c.modes[i])),
{
    match parsed("mode \"resize\" {\n    bindsym Left resize shrink width 10 px\n}") {
        Some(config) => {
            let pred = |x: &ModeBlock| -> (b: bool)
                ensures
                    b == resize_with_bindings(*x),
                {
                    str_eq(x.name.as_str(), "resize") && x.keybindings.len() > 0
                };
            let ghost f: spec_fn(ModeBlock) -> ModeBlock = |x: ModeBlock| x;
            let ghost q: spec_fn(ModeBlock) -> bool = |m: ModeBlock| resize_with_bindings(m);
            let found = any::<ModeBlock, ModeBlock, _>(&config.modes, pred, Ghost(f), Ghost(q));
            proof {
                lemma_exists_image(config.modes@, config@.modes, f, q);
            }
            verdict(found, "mode 'resize' not parsed or has no keybindings")
        },
        None => unparsed(),
    }
}

/// `bindcode 36` binds a key code.
pub fn test_bindcode_support() -> (s: TestStatus)
    ensures
        s@ is Pass <==> (parsed_config("bindcode 36 exec alacritty"@) matches Some(c)
            && exists|i: int| 0 <= i < c.bindcodes.len() && code_36(c.bindcodes[i])),
{
    match parsed("bindcode 36 exec alacritty") {
        Some(config) => {
            let pred = |x: &Bindcode| -> (b: bool)
                ensures
                    b == code_36(*x),
                {
                    x.code == 36
                };
            let ghost f: spec_fn(Bindcode) -> Bindcode = |x: Bindcode| x;
            let ghost q: spec_fn(Bindcode) -> bool = |m: Bindcode| code_36(m);
            let found = any::<Bindcode, Bindcode, _>(&config.bindcodes, pred, Ghost(f), Ghost(q));
            proof {
                lemma_exists_image(config.bindcodes@, config@.bindcodes, f, q);
            }
            verdict(found, "bindcode with code 36 not found")
        },
        None => unparsed(),
    }
}

/// Two lines for one device merge their settings.
pub fn test_input_merge_settings() -> (s: TestStatus)
    ensures
        s@ is Pass <==> (parsed_config("input \"type:keyboard\" xkb_layout us\ninput \"type:keyboard\" xkb_variant intl"@) matches Some(c)
            && c.inputs.len() == 1 && sets(c.inputs[0], "xkb_layout"@, "us"@) && sets(c.inputs[0], "xkb_variant"@, "intl"@)),
{
    match parsed("input \"type:keyboard\" xkb_layout us\ninput \"type:keyboard\" xkb_variant intl") {
        Some(config) => {
            let ok = config.inputs.len() == 1 && setting_is(&config.inputs[0].settings, "xkb_layout", "us")
                && setting_is(&config.inputs[0].settings, "xkb_variant", "intl");
            verdict(ok, "input settings not merged")
        },
        None => unparsed(),
    }
}

/// A device may be named without quotes.
pub fn test_input_without_quotes() -> (s: TestStatus)
    ensures
        s@ is Pass <==> (parsed_config("input type:keyboard xkb_layout de"@) matches Some(c)
            && exists|i: int| 0 <= i < c.inputs.len() && sets(c.inputs[i], "xkb_layout"@, "de"@)),
{
    match parsed("input type:keyboard xkb_layout de") {
        Some(config) => {
            let pred = |x: &InputConfig| -> (b: bool)
                ensures
                    b == sets(x@, "xkb_layout"@, "de"@),
                {
                    setting_is(&x.settings, "xkb_layout", "de")
                };
            let ghost f: spec_fn(InputConfig) -> InputModel = |x: InputConfig| x@;
            let ghost q: spec_fn(InputModel) -> bool = |m: InputModel| sets(m, "xkb_layout"@, "de"@);
            let found = any::<InputConfig, InputModel, _>(&config.inputs, pred, Ghost(f), Ghost(q));
            proof {
                lemma_exists_image(config.inputs@, config@.inputs, f, q);
            }
            verdict(found, "input without quotes not parsed")
        },
        None => unparsed(),
    }
}

/// `bindswitch` is not implemented.
pub fn test_bindswitch() -> (s: TestStatus)
    ensures
        s@ is NotImplemented,
{
    TestStatus::NotImplemented
}

/// `bindgesture` is not implemented.
pub fn test_bindgesture() -> (s: TestStatus)
    ensures
        s@ is NotImplemented,
{
    TestStatus::NotImplemented
}

/// A `seat` line configures its seat.
pub fn test_seat_config() -> (s: TestStatus)
    ensures
        s@ is Pass <==> (parsed_config("seat seat0 hide_cursor 5000"@) matches Some(c)
            && exists|i: int| 0 <= i < c.seat_configs.len() && is_seat0(c.seat_configs[i])),
{
    match parsed("seat seat0 hide_cursor 5000") {
        Some(config) => {
            let pred = |x: &SeatConfig| -> (b: bool)
                ensures
                    b == is_seat0(*x),
                {
                    str_eq(x.name.as_str(), "seat0")
                };
            let ghost f: spec_fn(SeatConfig) -> SeatConfig = |x: SeatConfig| x;
            let ghost q: spec_fn(SeatConfig) -> bool = |m: SeatConfig| is_seat0(m);
            let found = any::<SeatConfig, SeatConfig, _>(&config.seat_configs, pred, Ghost(f), Ghost(q));
            proof {
                lemma_exists_image(config.seat_configs@, config@.seat_configs, f, q);
            }
            verdict(found, "seat config for 'seat0' not found")
        },
        None => unparsed(),
    }
}

/// The input checks, in the order that [`register`] adds them.
pub open spec fn input_checks() -> Seq<TestInfo> {
    seq![
        check(Category::Input, "keybinding_modifiers"@, "bindsym modifiers"@, Priority::P0),
        check(Category::Input, "keybinding_actions"@, "bindsym actions"@, Priority::P0),
        check(Category::Input, "input_device_config"@, "input device config"@, Priority::P1),
        check(Category::Input, "focus_follows_mouse"@, "focus_follows_mouse"@, Priority::P1),
        check(Category::Input, "bindcode_support"@, "bindcode"@, Priority::P2),
        check(Category::Input, "input_xkb_layout"@, "input <id> xkb_layout"@, Priority::P0),
        check(Category::Input, "input_xkb_options"@, "input <id> xkb_options"@, Priority::P0),
        check(Category::Input, "input_xkb_variant"@, "input <id> xkb_variant"@, Priority::P1),
        check(Category::Input, "input_xkb_model"@, "input <id> xkb_model"@, Priority::P1),
        check(Category::Input, "input_repeat_delay"@, "input <id> repeat_delay"@, Priority::P1),
        check(Category::Input, "input_repeat_rate"@, "input <id> repeat_rate"@, Priority::P1),
        check(Category::Input, "input_natural_scroll"@, "input <id> natural_scroll"@, Priority::P1),
        check(Category::Input, "input_tap"@, "input <id> tap"@, Priority::P1),
        check(Category::Input, "input_dwt"@, "input <id> dwt"@, Priority::P1),
        check(Category::Input, "input_accel_profile"@, "input <id> accel_profile"@, Priority::P1),
        check(Category::Input, "input_pointer_accel"@, "input <id> pointer_accel"@, Priority::P1),
        check(Category::Input, "input_scroll_method"@, "input <id> scroll_method"@, Priority::P1),
        check(Category::Input, "bindsym_release_flag"@, "bindsym --release"@, Priority::P1),
        check(Category::Input, "bindsym_locked_flag"@, "bindsym --locked"@, Priority::P1),
        check(Category::Input, "bindsym_whole_window_flag"@, "bindsym --whole-window"@, Priority::P2),
        check(Category::Input, "unbindsym"@, "unbindsym"@, Priority::P1),
        check(Category::Input, "mode_binding"@, "mode binding"@, Priority::P1),
        check(Category::Input, "input_merge_settings"@, "input settings merge"@, Priority::P0),
        check(Category::Input, "input_without_quotes"@, "input without quotes"@, Priority::P0),
        check(Category::Input, "bindsym_no_repeat_flag"@, "bindsym --no-repeat"@, Priority::P2),
        check(Category::Input, "bindswitch"@, "bindswitch"@, Priority::P2),
        check(Category::Input, "bindgesture"@, "bindgesture"@, Priority::P2),
        check(Category::Input, "seat_config"@, "seat configuration"@, Priority::P2),
    ]
}

/// Registers the input checks after those the harness holds.
#[verifier::rlimit(60)]
pub fn register(harness: &mut Harness)
    ensures
        infos(final(harness).tests()) == infos(old(harness).tests()) + input_checks(),
{
    reg(harness, Category::Input, "keybinding_modifiers", "按键绑定修饰键解析", "bindsym modifiers", Priority::P0, test_keybinding_modifiers);
    reg(harness, Category::Input, "keybinding_actions", "按键绑定动作类型完整", "bindsym actions", Priority::P0, test_keybinding_actions);
    reg(harness, Category::Input, "input_device_config", "输入设备配置解析", "input device config", Priority::P1, test_input_device_config);
    reg(harness, Category::Input, "focus_follows_mouse", "鼠标跟随焦点配置", "focus_follows_mouse", Priority::P1, test_focus_follows_mouse);
    reg(harness, Category::Input, "bindcode_support", "bindcode 按键码绑定", "bindcode", Priority::P2, test_bindcode_support);
    reg(harness, Category::Input, "input_xkb_layout", "输入设备 xkb_layout 配置", "input <id> xkb_layout", Priority::P0, test_input_xkb_layout);
    reg(harness, Category::Input, "input_xkb_options", "输入设备 xkb_options 配置", "input <id> xkb_options", Priority::P0, test_input_xkb_options);
    reg(harness, Category::Input, "input_xkb_variant", "输入设备 xkb_variant 配置", "input <id> xkb_variant", Priority::P1, test_input_xkb_variant);
    reg(harness, Category::Input, "input_xkb_model", "输入设备 xkb_model 配置", "input <id> xkb_model", Priority::P1, test_input_xkb_model);
    reg(harness, Category::Input, "input_repeat_delay", "输入设备 repeat_delay 配置", "input <id> repeat_delay", Priority::P1, test_input_repeat_delay);
    reg(harness, Category::Input, "input_repeat_rate", "输入设备 repeat_rate 配置", "input <id> repeat_rate", Priority::P1, test_input_repeat_rate);
    reg(harness, Category::Input, "input_natural_scroll", "输入设备 natural_scroll 配置", "input <id> natural_scroll", Priority::P1, test_input_natural_scroll);
    reg(harness, Category::Input, "input_tap", "输入设备 tap 配置", "input <id> tap", Priority::P1, test_input_tap);
    reg(harness, Category::Input, "input_dwt", "输入设备 dwt 配置", "input <id> dwt", Priority::P1, test_input_dwt);
    reg(harness, Category::Input, "input_accel_profile", "输入设备 accel_profile 配置", "input <id> accel_profile", Priority::P1, test_input_accel_profile);
    reg(harness, Category::Input, "input_pointer_accel", "输入设备 pointer_accel 配置", "input <id> pointer_accel", Priority::P1, test_input_pointer_accel);
    reg(harness, Category::Input, "input_scroll_method", "输入设备 scroll_method 配置", "input <id> scroll_method", Priority::P1, test_input_scroll_method);
    reg(harness, Category::Input, "bindsym_release_flag", "bindsym --release 标志", "bindsym --release", Priority::P1, test_bindsym_release_flag);
    reg(harness, Category::Input, "bindsym_locked_flag", "bindsym --locked 标志", "bindsym --locked", Priority::P1, test_bindsym_locked_flag);
    reg(harness, Category::Input, "bindsym_whole_window_flag", "bindsym --whole-window 标志", "bindsym --whole-window", Priority::P2, test_bindsym_whole_window_flag);
    reg(harness, Category::Input, "unbindsym", "取消按键绑定", "unbindsym", Priority::P1, test_unbindsym);
    reg(harness, Category::Input, "mode_binding", "模式绑定", "mode binding", Priority::P1, test_mode_binding);
    reg(harness, Category::Input, "input_merge_settings", "同一设备多行配置合并", "input settings merge", Priority::P0, test_input_merge_settings);
    reg(harness, Category::Input, "input_without_quotes", "无引号的 input 设备标识符", "input without quotes", Priority::P0, test_input_without_quotes);
    reg(harness, Category::Input, "bindsym_no_repeat_flag", "bindsym --no-repeat 标志", "bindsym --no-repeat", Priority::P2, test_bindsym_no_repeat_flag);
    reg(harness, Category::Input, "bindswitch", "bindswitch 开关绑定", "bindswitch", Priority::P2, test_bindswitch);
    reg(harness, Category::Input, "bindgesture", "bindgesture 手势绑定", "bindgesture", Priority::P2, test_bindgesture);
    reg(harness, Category::Input, "seat_config", "seat 配置", "seat configuration", Priority::P2, test_seat_config);
    assert(infos(harness.tests()) =~= infos(old(harness).tests()) + input_checks());
}

} // verus!
