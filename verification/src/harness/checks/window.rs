//! Checks of window management: floating, fullscreen, sticky and marked
//! windows, focus movement, swapping, window rules and the actions that
//! bindings may run.

use super::{
    any, check, fail, geometry_of, has_modifier, has_string, infos, insert_all, lemma_exists_image, opt_is, parsed,
    parsed_config, reg, reg_fn, try_insert, unparsed, verdict, workspace_tree,
};
use crate::config::types::{
    Action, ActionModel, Direction as MoveDirection, Keybinding, KeybindingModel, Modifier, RuleActionModel,
    RuleModel, WindowCriteria, WindowRule, WindowRuleAction,
};
use crate::harness::suite::{Category, Harness, Priority, TestFn, TestInfo, TestStatus};
use crate::text::{str_eq, to_string};
use crate::tiling::commands::{
    add_mark, find_focused_window_id, focus_child, focus_parent, get_marks, move_focus, remove_mark, remove_window,
    set_floating, set_fullscreen, set_fullscreen_global, set_sticky, split, swap_containers, toggle_floating,
    toggle_fullscreen, toggle_fullscreen_global, toggle_sticky,
};
use crate::tiling::layout::get_window_geometries;
use crate::tiling::tree::{Direction, Layout, Tree};
use vstd::prelude::*;

verus! {

/// The window checks that move a window to another workspace. Moving needs
/// every way of taking the window out of its place to leave room for it on
/// the target, which no function of the library decides beforehand; these
/// checks are handed in by whoever registers the checks.
pub struct WindowOuterChecks {
    /// A window moves to workspace `2` on the same output.
    pub move_to_workspace: TestFn,
    /// A window moves to workspace `2` on another output.
    pub move_to_output: TestFn,
}

/// A tree with windows `ids` on one screen.
fn windows_tree(ids: &[u64]) -> (r: Option<Tree>)
    ensures
        r matches Some(t) ==> t.wf(),
{
    let mut tree = match workspace_tree() {
        Some(t) => t,
        None => return None,
    };
    if !insert_all(&mut tree, ids) {
        return None;
    }
    Some(tree)
}

/// A binding of `Mod4+q` to `kill`.
pub open spec fn kills_on_q(kb: KeybindingModel) -> bool {
    kb.key == "q"@ && kb.action == ActionModel::Kill && kb.modifiers.contains(Modifier::Mod4)
}

/// A binding that moves the window towards `d`.
pub open spec fn moves_towards(kb: KeybindingModel, d: MoveDirection) -> bool {
    kb.action == ActionModel::Move(d)
}

/// A rule that floats windows whose app id is `mpv`.
pub open spec fn floats_mpv(r: RuleModel) -> bool {
    r.criteria.app_id == Some("mpv"@) && r.action == RuleActionModel::FloatingEnable
}

/// A rule that moves windows of class `Slack` to workspace `3`.
pub open spec fn slack_to_three(r: RuleModel) -> bool {
    r.criteria.class == Some("Slack"@) && r.action == RuleActionModel::MoveToWorkspace("3"@)
}

/// Floating can be toggled on a window.
fn test_toggle_floating() -> (s: TestStatus) {
    let ids: [u64; 1] = [10];
    let mut tree = match windows_tree(&ids) {
        Some(t) => t,
        None => return fail("no room for the window"),
    };
    verdict(toggle_floating(&mut tree, 10), "toggle_floating returned false")
}

/// A window toggled twice is still there.
fn test_toggle_floating_twice() -> (s: TestStatus) {
    let ids: [u64; 1] = [20];
    let mut tree = match windows_tree(&ids) {
        Some(t) => t,
        None => return fail("no room for the window"),
    };
    toggle_floating(&mut tree, 20);
    toggle_floating(&mut tree, 20);
    let geoms = get_window_geometries(&tree);
    verdict(geometry_of(&geoms, 20).is_some(), "window lost after double toggle")
}

/// A new window has the focus.
fn test_find_focused_window() -> (s: TestStatus) {
    let ids: [u64; 1] = [42];
    let tree = match windows_tree(&ids) {
        Some(t) => t,
        None => return fail("no room for the window"),
    };
    match find_focused_window_id(&tree) {
        Some(w) => verdict(w == 42, "unexpected focused window"),
        None => fail("no focused window found"),
    }
}

/// An inserted window is a node of the tree.
fn test_insert_window() -> (s: TestStatus) {
    let mut tree = match workspace_tree() {
        Some(t) => t,
        None => return fail("no room for the window"),
    };
    match try_insert(&mut tree, 1) {
        Some(node_id) => verdict(tree.get(node_id).is_some(), "inserted window node not found"),
        None => fail("no room for the window"),
    }
}

/// A removed window is gone.
fn test_remove_window() -> (s: TestStatus) {
    let ids: [u64; 1] = [1];
    let mut tree = match windows_tree(&ids) {
        Some(t) => t,
        None => return fail("no room for the window"),
    };
    if remove_window(&mut tree, 1) {
        let geoms = get_window_geometries(&tree);
        verdict(geoms.len() == 0, "window still present after removal")
    } else {
        fail("remove_window returned false")
    }
}

/// Focus moves left from the second window.
fn test_move_focus_left_right() -> (s: TestStatus) {
    let ids: [u64; 2] = [1, 2];
    let mut tree = match windows_tree(&ids) {
        Some(t) => t,
        None => return fail("no room for the windows"),
    };
    verdict(move_focus(&mut tree, Direction::Left), "move_focus Left returned false")
}

/// Fullscreen toggles on and off.
fn test_fullscreen_toggle() -> (s: TestStatus) {
    let ids: [u64; 1] = [10];
    let mut tree = match windows_tree(&ids) {
        Some(t) => t,
        None => return fail("no room for the window"),
    };
    if !toggle_fullscreen(&mut tree, 10) {
        return fail("toggle_fullscreen returned false");
    }
    if !toggle_fullscreen(&mut tree, 10) {
        return fail("second toggle_fullscreen returned false");
    }
    TestStatus::Pass
}

/// Criteria can name an app id.
pub fn test_window_criteria_matching() -> (s: TestStatus)
    ensures
        s@ is Pass,
{
    let criteria = WindowCriteria { app_id: Some(to_string("firefox")), class: None, title: None };
    verdict(criteria.app_id.is_some(), "criteria fields not available")
}

/// Focus moves up in a vertical split.
fn test_focus_up_down() -> (s: TestStatus) {
    let ids: [u64; 2] = [1, 2];
    let mut tree = match windows_tree(&ids) {
        Some(t) => t,
        None => return fail("no room for the windows"),
    };
    split(&mut tree, Layout::SplitV);
    verdict(move_focus(&mut tree, Direction::Up), "move_focus Up returned false")
}

/// Focus moves to the parent.
fn test_focus_parent() -> (s: TestStatus) {
    let ids: [u64; 2] = [1, 2];
    let mut tree = match windows_tree(&ids) {
        Some(t) => t,
        None => return fail("no room for the windows"),
    };
    verdict(focus_parent(&mut tree), "focus_parent returned false")
}

/// Focus moves back to a child.
fn test_focus_child() -> (s: TestStatus) {
    let ids: [u64; 2] = [1, 2];
    let mut tree = match windows_tree(&ids) {
        Some(t) => t,
        None => return fail("no room for the windows"),
    };
    focus_parent(&mut tree);
    verdict(focus_child(&mut tree), "focus_child returned false")
}

/// A floating and a tiled window are both kept.
fn test_focus_tiling_floating_toggle() -> (s: TestStatus) {
    let ids: [u64; 2] = [1, 2];
    let mut tree = match windows_tree(&ids) {
        Some(t) => t,
        None => return fail("no room for the windows"),
    };
    set_floating(&mut tree, 2, true);
    let geoms = get_window_geometries(&tree);
    verdict(geoms.len() == 2, "expected 2 windows")
}

/// A binding to `move to scratchpad` is looked for; the library's actions have no
/// kind of their own for it (the command is kept as a raw command), so none
/// is found.
pub fn test_move_to_scratchpad() -> (s: TestStatus)
    ensures
        s@ is Fail,
{
    match parsed("set $mod Mod4\nbindsym $mod+minus move to scratchpad") {
        Some(_config) => fail("MoveToScratchpad action not found"),
        None => unparsed(),
    }
}

/// A binding to `scratchpad show` is looked for; the library's actions have no
/// kind of their own for it (the command is kept as a raw command), so none
/// is found.
pub fn test_scratchpad_show() -> (s: TestStatus)
    ensures
        s@ is Fail,
{
    match parsed("set $mod Mod4\nbindsym $mod+minus scratchpad show") {
        Some(_config) => fail("ScratchpadShow action not found"),
        None => unparsed(),
    }
}

/// Floating can be set on a window.
fn test_floating_enable_explicit() -> (s: TestStatus) {
    let ids: [u64; 1] = [1];
    let mut tree = match windows_tree(&ids) {
        Some(t) => t,
        None => return fail("no room for the window"),
    };
    verdict(set_floating(&mut tree, 1, true), "set_floating(true) returned false")
}

/// Floating can be cleared on a window.
fn test_floating_disable_explicit() -> (s: TestStatus) {
    let ids: [u64; 1] = [1];
    let mut tree = match windows_tree(&ids) {
        Some(t) => t,
        None => return fail("no room for the window"),
    };
    set_floating(&mut tree, 1, true);
    verdict(set_floating(&mut tree, 1, false), "set_floating(false) returned false")
}

/// Fullscreen can be set and cleared.
fn test_fullscreen_enable_disable() -> (s: TestStatus) {
    let ids: [u64; 1] = [1];
    let mut tree = match windows_tree(&ids) {
        Some(t) => t,
        None => return fail("no room for the window"),
    };
    if !set_fullscreen(&mut tree, 1, true) {
        return fail("set_fullscreen(true) returned false");
    }
    if !set_fullscreen(&mut tree, 1, false) {
        return fail("set_fullscreen(false) returned false");
    }
    TestStatus::Pass
}

/// Global fullscreen can be set and toggled.
fn test_fullscreen_global() -> (s: TestStatus) {
    let ids: [u64; 1] = [1];
    let mut tree = match windows_tree(&ids) {
        Some(t) => t,
        None => return fail("no room for the window"),
    };
    if !set_fullscreen_global(&mut tree, 1, true) {
        return fail("set_fullscreen_global(true) failed");
    }
    if !toggle_fullscreen_global(&mut tree, 1) {
        return fail("toggle_fullscreen_global failed");
    }
    TestStatus::Pass
}

/// Sticky can be set and toggled.
fn test_sticky_toggle() -> (s: TestStatus) {
    let ids: [u64; 1] = [1];
    let mut tree = match windows_tree(&ids) {
        Some(t) => t,
        None => return fail("no room for the window"),
    };
    if !set_sticky(&mut tree, 1, true) {
        return fail("set_sticky(true) failed");
    }
    if !toggle_sticky(&mut tree, 1) {
        return fail("toggle_sticky failed");
    }
    TestStatus::Pass
}

/// A binding to `resize grow width 10 px` is looked for; the library's actions have no
/// kind of their own for it (the command is kept as a raw command), so none
/// is found.
pub fn test_resize_command() -> (s: TestStatus)
    ensures
        s@ is Fail,
{
    match parsed("set $mod Mod4\nbindsym $mod+r resize grow width 10 px") {
        Some(_config) => fail("resize action not found in keybindings"),
        None => unparsed(),
    }
}

/// A binding to `resize set 800 600` is looked for; the library's actions have no
/// kind of their own for it (the command is kept as a raw command), so none
/// is found.
pub fn test_resize_set() -> (s: TestStatus)
    ensures
        s@ is Fail,
{
    match parsed("set $mod Mod4\nbindsym $mod+r resize set 800 600") {
        Some(_config) => fail("ResizeSet action not found"),
        None => unparsed(),
    }
}

/// Two windows swap places.
fn test_swap_container() -> (s: TestStatus) {
    let mut tree = match workspace_tree() {
        Some(t) => t,
        None => return fail("no room for the windows"),
    };
    let n1 = match try_insert(&mut tree, 1) {
        Some(n) => n,
        None => return fail("no room for the windows"),
    };
    let n2 = match try_insert(&mut tree, 2) {
        Some(n) => n,
        None => return fail("no room for the windows"),
    };
    verdict(swap_containers(&mut tree, n1, n2), "swap_containers returned false")
}

/// A mark is added, listed and removed.
fn test_window_marks() -> (s: TestStatus) {
    let ids: [u64; 1] = [1];
    let mut tree = match windows_tree(&ids) {
        Some(t) => t,
        None => return fail("no room for the window"),
    };
    if !add_mark(&mut tree, 1, "test_mark") {
        return fail("add_mark failed");
    }
    let marks = get_marks(&tree, 1);
    if !has_string(&marks, "test_mark") {
        return fail("mark not found");
    }
    if !remove_mark(&mut tree, 1, Some("test_mark")) {
        return fail("remove_mark failed");
    }
    let marks_after = get_marks(&tree, 1);
    verdict(marks_after.len() == 0, "marks not cleared")
}

/// Criteria can name a class.
pub fn test_window_criteria_class() -> (s: TestStatus)
    ensures
        s@ is Pass,
{
    let criteria = WindowCriteria { app_id: None, class: Some(to_string("Firefox")), title: None };
    verdict(criteria.class.is_some(), "class field not available")
}

/// Criteria can name a title.
pub fn test_window_criteria_title() -> (s: TestStatus)
    ensures
        s@ is Pass,
{
    let criteria = WindowCriteria { app_id: None, class: None, title: Some(to_string("My Window")) };
    verdict(criteria.title.is_some(), "title field not available")
}

/// Criteria can name an app id, a class and a title at once.
pub fn test_window_criteria_all_fields() -> (s: TestStatus)
    ensures
        s@ is Pass,
{
    let criteria = WindowCriteria {
        app_id: Some(to_string("org.mozilla.firefox")),
        class: Some(to_string("Firefox")),
        title: Some(to_string("Mozilla Firefox")),
    };
    verdict(
        criteria.app_id.is_some() && criteria.class.is_some() && criteria.title.is_some(),
        "not all criteria fields available",
    )
}

/// `for_window [app_id="mpv"] floating enable` adds that rule.
pub fn test_for_window_floating_rule() -> (s: TestStatus)
    ensures
        s@ is Pass <==> (parsed_config("for_window [app_id=\"mpv\"] floating enable"@) matches Some(c)
            && exists|i: int| 0 <= i < c.window_rules.len() && floats_mpv(c.window_rules[i])),
{
    match parsed("for_window [app_id=\"mpv\"] floating enable") {
        Some(config) => {
            let pred = |x: &WindowRule| -> (b: bool)
                ensures
                    b == floats_mpv(x@),
                {
                    opt_is(&x.criteria.app_id, "mpv") && matches!(x.action, WindowRuleAction::FloatingEnable)
                };
            let ghost f: spec_fn(WindowRule) -> RuleModel = |x: WindowRule| x@;
            let ghost q: spec_fn(RuleModel) -> bool = |m: RuleModel| floats_mpv(m);
            let found = any::<WindowRule, RuleModel, _>(&config.window_rules, pred, Ghost(f), Ghost(q));
            proof {
                lemma_exists_image(config.window_rules@, config@.window_rules, f, q);
            }
            verdict(found, "for_window floating rule not found")
        },
        None => unparsed(),
    }
}

/// `for_window [class="Slack"] move to workspace 3` adds that rule.
pub fn test_for_window_move_rule() -> (s: TestStatus)
    ensures
        s@ is Pass <==> (parsed_config("for_window [class=\"Slack\"] move to workspace 3"@) matches Some(c)
            && exists|i: int| 0 <= i < c.window_rules.len() && slack_to_three(c.window_rules[i])),
{
    match parsed("for_window [class=\"Slack\"] move to workspace 3") {
        Some(config) => {
            let pred = |x: &WindowRule| -> (b: bool)
                ensures
                    b == slack_to_three(x@),
                {
                    opt_is(&x.criteria.class, "Slack") && match &x.action { WindowRuleAction::MoveToWorkspace(w) => str_eq(w.as_str(), "3"), _ => false }
                };
            let ghost f: spec_fn(WindowRule) -> RuleModel = |x: WindowRule| x@;
            let ghost q: spec_fn(RuleModel) -> bool = |m: RuleModel| slack_to_three(m);
            let found = any::<WindowRule, RuleModel, _>(&config.window_rules, pred, Ghost(f), Ghost(q));
            proof {
                lemma_exists_image(config.window_rules@, config@.window_rules, f, q);
            }
            verdict(found, "for_window move rule not found")
        },
        None => unparsed(),
    }
}

/// `bindsym $mod+q kill` gives that binding.
pub fn test_kill_command_action() -> (s: TestStatus)
    ensures
        s@ is Pass <==> (parsed_config("set $mod Mod4\nbindsym $mod+q kill"@) matches Some(c)
            && exists|i: int| 0 <= i < c.keybindings.len() && kills_on_q(c.keybindings[i])),
{
    match parsed("set $mod Mod4\nbindsym $mod+q kill") {
        Some(config) => {
            let pred = |x: &Keybinding| -> (b: bool)
                ensures
                    b == kills_on_q(x@),
                {
                    str_eq(x.key.as_str(), "q") && matches!(x.action, Action::Kill) && has_modifier(&x.modifiers, Modifier::Mod4)
                };
            let ghost f: spec_fn(Keybinding) -> KeybindingModel = |x: Keybinding| x@;
            let ghost q: spec_fn(KeybindingModel) -> bool = |m: KeybindingModel| kills_on_q(m);
            let found = any::<Keybinding, KeybindingModel, _>(&config.keybindings, pred, Ghost(f), Ghost(q));
            proof {
                lemma_exists_image(config.keybindings@, config@.keybindings, f, q);
            }
            verdict(found, "kill keybinding not found")
        },
        None => unparsed(),
    }
}

/// Bindings to `move left` and `move right` are both read.
pub fn test_move_direction_actions() -> (s: TestStatus)
    ensures
        s@ is Pass <==> (parsed_config("set $mod Mod4\nbindsym $mod+Shift+Left move left\nbindsym $mod+Shift+Right move right"@) matches Some(c)
            && (exists|i: int| 0 <= i < c.keybindings.len() && moves_towards(c.keybindings[i], MoveDirection::Left))
            && (exists|i: int| 0 <= i < c.keybindings.len() && moves_towards(c.keybindings[i], MoveDirection::Right))),
{
    match parsed("set $mod Mod4\nbindsym $mod+Shift+Left move left\nbindsym $mod+Shift+Right move right") {
        Some(config) => {
            let ghost f: spec_fn(Keybinding) -> KeybindingModel = |x: Keybinding| x@;
            let pred1 = |x: &Keybinding| -> (b: bool)
                ensures
                    b == moves_towards(x@, MoveDirection::Left),
                {
                    matches!(x.action, Action::Move(MoveDirection::Left))
                };
            let ghost q1: spec_fn(KeybindingModel) -> bool = |m: KeybindingModel| moves_towards(m, MoveDirection::Left);
            let has_left = any::<Keybinding, KeybindingModel, _>(&config.keybindings, pred1, Ghost(f), Ghost(q1));
            let pred2 = |x: &Keybinding| -> (b: bool)
                ensures
                    b == moves_towards(x@, MoveDirection::Right),
                {
                    matches!(x.action, Action::Move(MoveDirection::Right))
                };
            let ghost q2: spec_fn(KeybindingModel) -> bool = |m: KeybindingModel| moves_towards(m, MoveDirection::Right);
            let has_right = any::<Keybinding, KeybindingModel, _>(&config.keybindings, pred2, Ghost(f), Ghost(q2));
            proof {
                lemma_exists_image(config.keybindings@, config@.keybindings, f, q1);
                lemma_exists_image(config.keybindings@, config@.keybindings, f, q2);
            }
            verdict(has_left && has_right, "move actions missing")
        },
        None => unparsed(),
    }
}

/// A binding to `move absolute position 100 200` is looked for; the library's actions have no
/// kind of their own for it (the command is kept as a raw command), so none
/// is found.
pub fn test_move_absolute_position() -> (s: TestStatus)
    ensures
        s@ is Fail,
{
    match parsed("set $mod Mod4\nbindsym $mod+m move absolute position 100 200") {
        Some(_config) => fail("MovePosition action not found"),
        None => unparsed(),
    }
}

/// A binding to `move position center` is looked for; the library's actions have no
/// kind of their own for it (the command is kept as a raw command), so none
/// is found.
pub fn test_move_center() -> (s: TestStatus)
    ensures
        s@ is Fail,
{
    match parsed("set $mod Mod4\nbindsym $mod+c move position center") {
        Some(_config) => fail("MoveCenter action not found"),
        None => unparsed(),
    }
}

/// A binding to `nop comment here` is looked for; the library's actions have no
/// kind of their own for it (the command is kept as a raw command), so none
/// is found.
pub fn test_nop_command() -> (s: TestStatus)
    ensures
        s@ is Fail,
{
    match parsed("set $mod Mod4\nbindsym $mod+n nop comment here") {
        Some(_config) => fail("Nop action not found"),
        None => unparsed(),
    }
}

/// The window checks, in the order that [`register`] adds them.
pub open spec fn window_checks() -> Seq<TestInfo> {
    seq![
        check(Category::Window, "toggle_floating"@, "floating toggle"@, Priority::P0),
        check(Category::Window, "toggle_floating_twice_restores"@, "floating toggle"@, Priority::P0),
        check(Category::Window, "find_focused_window"@, "focus tracking"@, Priority::P0),
        check(Category::Window, "insert_window"@, "window creation"@, Priority::P0),
        check(Category::Window, "remove_window"@, "kill"@, Priority::P0),
        check(Category::Window, "move_focus_left_right"@, "focus left/right"@, Priority::P0),
        check(Category::Window, "fullscreen_toggle"@, "fullscreen toggle"@, Priority::P1),
        check(Category::Window, "window_criteria_matching"@, "window criteria"@, Priority::P1),
        check(Category::Window, "focus_up_down"@, "focus up/down"@, Priority::P0),
        check(Category::Window, "focus_parent"@, "focus parent"@, Priority::P0),
        check(Category::Window, "focus_child"@, "focus child"@, Priority::P0),
        check(Category::Window, "focus_tiling_floating_toggle"@, "focus mode_toggle"@, Priority::P1),
        check(Category::Window, "move_to_workspace"@, "move container to workspace"@, Priority::P0),
        check(Category::Window, "move_to_output"@, "move container to output"@, Priority::P1),
        check(Category::Window, "move_to_scratchpad"@, "move to scratchpad"@, Priority::P1),
        check(Category::Window, "scratchpad_show"@, "scratchpad show"@, Priority::P1),
        check(Category::Window, "floating_enable_explicit"@, "floating enable"@, Priority::P0),
        check(Category::Window, "floating_disable_explicit"@, "floating disable"@, Priority::P0),
        check(Category::Window, "fullscreen_enable_disable"@, "fullscreen enable/disable"@, Priority::P0),
        check(Category::Window, "fullscreen_global"@, "fullscreen toggle global"@, Priority::P1),
        check(Category::Window, "sticky_toggle"@, "sticky enable/disable/toggle"@, Priority::P2),
        check(Category::Window, "resize_command"@, "resize grow/shrink"@, Priority::P0),
        check(Category::Window, "resize_set"@, "resize set <w> <h>"@, Priority::P1),
        check(Category::Window, "swap_container"@, "swap container with"@, Priority::P1),
        check(Category::Window, "window_marks"@, "mark/unmark"@, Priority::P1),
        check(Category::Window, "window_criteria_class"@, "window criteria class"@, Priority::P0),
        check(Category::Window, "window_criteria_title"@, "window criteria title"@, Priority::P0),
        check(Category::Window, "window_criteria_all_fields"@, "window criteria all fields"@, Priority::P0),
        check(Category::Window, "for_window_floating_rule"@, "for_window floating rule"@, Priority::P0),
        check(Category::Window, "for_window_move_rule"@, "for_window move rule"@, Priority::P0),
        check(Category::Window, "kill_command_action"@, "kill command"@, Priority::P0),
        check(Category::Window, "move_direction_actions"@, "move left/right/up/down commands"@, Priority::P0),
        check(Category::Window, "move_absolute_position"@, "move [absolute] position x y"@, Priority::P1),
        check(Category::Window, "move_center"@, "move position center"@, Priority::P1),
        check(Category::Window, "nop_command"@, "nop comment command"@, Priority::P2),
    ]
}

/// Registers the window checks after those the harness holds.
#[verifier::rlimit(60)]
pub fn register(harness: &mut Harness, outer: WindowOuterChecks)
    ensures
        infos(final(harness).tests()) == infos(old(harness).tests()) + window_checks(),
{
    reg(harness, Category::Window, "toggle_floating", "切换窗口浮动状态", "floating toggle", Priority::P0, test_toggle_floating);
    reg(harness, Category::Window, "toggle_floating_twice_restores", "两次切换浮动恢复原状", "floating toggle", Priority::P0, test_toggle_floating_twice);
    reg(harness, Category::Window, "find_focused_window", "查找当前聚焦窗口", "focus tracking", Priority::P0, test_find_focused_window);
    reg(harness, Category::Window, "insert_window", "插入窗口到工作区", "window creation", Priority::P0, test_insert_window);
    reg(harness, Category::Window, "remove_window", "从工作区移除窗口", "kill", Priority::P0, test_remove_window);
    reg(harness, Category::Window, "move_focus_left_right", "左右方向键移动焦点", "focus left/right", Priority::P0, test_move_focus_left_right);
    reg(harness, Category::Window, "fullscreen_toggle", "切换窗口全屏状态", "fullscreen toggle", Priority::P1, test_fullscreen_toggle);
    reg(harness, Category::Window, "window_criteria_matching", "窗口标准匹配（app_id/class/title）", "window criteria", Priority::P1, test_window_criteria_matching);
    reg(harness, Category::Window, "focus_up_down", "上下方向键移动焦点", "focus up/down", Priority::P0, test_focus_up_down);
    reg(harness, Category::Window, "focus_parent", "焦点移到父容器", "focus parent", Priority::P0, test_focus_parent);
    reg(harness, Category::Window, "focus_child", "焦点移到子节点", "focus child", Priority::P0, test_focus_child);
    reg(harness, Category::Window, "focus_tiling_floating_toggle", "在平铺和浮动窗口间切换焦点", "focus mode_toggle", Priority::P1, test_focus_tiling_floating_toggle);
    reg_fn(harness, Category::Window, "move_to_workspace", "移动容器到指定工作区", "move container to workspace", Priority::P0, outer.move_to_workspace);
    reg_fn(harness, Category::Window, "move_to_output", "移动容器到指定输出", "move container to output", Priority::P1, outer.move_to_output);
    reg(harness, Category::Window, "move_to_scratchpad", "移动窗口到 scratchpad", "move to scratchpad", Priority::P1, test_move_to_scratchpad);
    reg(harness, Category::Window, "scratchpad_show", "显示 scratchpad 窗口", "scratchpad show", Priority::P1, test_scratchpad_show);
    reg(harness, Category::Window, "floating_enable_explicit", "显式启用窗口浮动", "floating enable", Priority::P0, test_floating_enable_explicit);
    reg(harness, Category::Window, "floating_disable_explicit", "显式禁用窗口浮动", "floating disable", Priority::P0, test_floating_disable_explicit);
    reg(harness, Category::Window, "fullscreen_enable_disable", "显式启用/禁用全屏", "fullscreen enable/disable", Priority::P0, test_fullscreen_enable_disable);
    reg(harness, Category::Window, "fullscreen_global", "全局全屏（跨输出）", "fullscreen toggle global", Priority::P1, test_fullscreen_global);
    reg(harness, Category::Window, "sticky_toggle", "窗口粘滞状态切换", "sticky enable/disable/toggle", Priority::P2, test_sticky_toggle);
    reg(harness, Category::Window, "resize_command", "通过命令调整窗口大小", "resize grow/shrink", Priority::P0, test_resize_command);
    reg(harness, Category::Window, "resize_set", "设置窗口精确大小", "resize set <w> <h>", Priority::P1, test_resize_set);
    reg(harness, Category::Window, "swap_container", "与另一个容器交换位置", "swap container with", Priority::P1, test_swap_container);
    reg(harness, Category::Window, "window_marks", "窗口标记与取消标记", "mark/unmark", Priority::P1, test_window_marks);
    reg(harness, Category::Window, "window_criteria_class", "WindowCriteria class 字段构造", "window criteria class", Priority::P0, test_window_criteria_class);
    reg(harness, Category::Window, "window_criteria_title", "WindowCriteria title 字段构造", "window criteria title", Priority::P0, test_window_criteria_title);
    reg(harness, Category::Window, "window_criteria_all_fields", "WindowCriteria 全字段构造", "window criteria all fields", Priority::P0, test_window_criteria_all_fields);
    reg(harness, Category::Window, "for_window_floating_rule", "for_window [app_id] floating enable 规则解析", "for_window floating rule", Priority::P0, test_for_window_floating_rule);
    reg(harness, Category::Window, "for_window_move_rule", "for_window [class] move to workspace 规则解析", "for_window move rule", Priority::P0, test_for_window_move_rule);
    reg(harness, Category::Window, "kill_command_action", "bindsym Mod4+q kill 动作解析", "kill command", Priority::P0, test_kill_command_action);
    reg(harness, Category::Window, "move_direction_actions", "move left/right/up/down 命令", "move left/right/up/down commands", Priority::P0, test_move_direction_actions);
    reg(harness, Category::Window, "move_absolute_position", "move [absolute] position x y 命令", "move [absolute] position x y", Priority::P1, test_move_absolute_position);
    reg(harness, Category::Window, "move_center", "move position center 命令", "move position center", Priority::P1, test_move_center);
    reg(harness, Category::Window, "nop_command", "nop 注释命令", "nop comment command", Priority::P2, test_nop_command);
    assert(infos(harness.tests()) =~= infos(old(harness).tests()) + window_checks());
}

} // verus!
