use rway::config::{
    Action, BorderStyle, Config, Direction, ExecCommand, FocusFollowsMouse, GapsConfig, LayoutType,
    Modifier, SplitDirection, WindowRuleAction,
};

#[test]
fn config_default_has_empty_collections() {
    let cfg = Config::default();
    assert!(cfg.variables.is_empty());
    assert!(cfg.keybindings.is_empty());
    assert!(cfg.outputs.is_empty());
    assert!(cfg.inputs.is_empty());
    assert!(cfg.exec_commands.is_empty());
    assert!(cfg.exec_always.is_empty());
    assert!(cfg.window_rules.is_empty());
    assert!(cfg.workspaces.is_empty());
}

#[test]
fn config_default_border_is_normal_2() {
    let cfg = Config::default();
    assert_eq!(cfg.default_border, BorderStyle::Normal(2));
}

#[test]
fn config_default_gaps_are_zero() {
    let cfg = Config::default();
    assert_eq!(cfg.gaps, GapsConfig { inner: 0, outer: 0 });
}

#[test]
fn config_default_font_is_none() {
    let cfg = Config::default();
    assert!(cfg.font.is_none());
}

#[test]
fn all_types_are_cloneable() {
    let _ = Action::Kill.clone();
    let _ = Direction::Left.clone();
    let _ = SplitDirection::Horizontal.clone();
    let _ = LayoutType::Tabbed.clone();
    let _ = BorderStyle::Pixel(2).clone();
    let _ = ExecCommand { command: "foot".into() }.clone();
}

#[test]
fn modifier_variants_are_eq() {
    assert_eq!(Modifier::Mod4, Modifier::Mod4);
    assert_ne!(Modifier::Mod1, Modifier::Mod4);
    assert_ne!(Modifier::Shift, Modifier::Control);
}

#[test]
fn border_style_none_eq() {
    assert_eq!(BorderStyle::NoBorder, BorderStyle::NoBorder);
    assert_ne!(BorderStyle::NoBorder, BorderStyle::Pixel(0));
}

#[test]
fn gaps_config_equality() {
    assert_eq!(GapsConfig { inner: 10, outer: 5 }, GapsConfig { inner: 10, outer: 5 });
    assert_ne!(GapsConfig { inner: 10, outer: 5 }, GapsConfig { inner: 5, outer: 10 });
}

#[test]
fn action_exec_eq() {
    assert_eq!(Action::Exec("foot".into()), Action::Exec("foot".into()));
    assert_ne!(Action::Exec("foot".into()), Action::Exec("alacritty".into()));
}

#[test]
fn window_rule_action_variants() {
    assert_eq!(WindowRuleAction::FloatingEnable, WindowRuleAction::FloatingEnable);
    assert_eq!(
        WindowRuleAction::MoveToWorkspace("5".into()),
        WindowRuleAction::MoveToWorkspace("5".into())
    );
    assert_eq!(WindowRuleAction::Resize(800, 600), WindowRuleAction::Resize(800, 600));
    assert_ne!(WindowRuleAction::FloatingEnable, WindowRuleAction::FloatingDisable);
}

#[test]
fn focus_follows_mouse_enabled_for_yes_and_always() {
    assert!(FocusFollowsMouse::Yes.is_enabled());
    assert!(FocusFollowsMouse::Always.is_enabled());
    assert!(!FocusFollowsMouse::No.is_enabled());
}

#[test]
fn config_default_focus_follows_mouse_is_no() {
    let cfg = Config::default();
    assert_eq!(cfg.focus_follows_mouse, FocusFollowsMouse::No);
}
