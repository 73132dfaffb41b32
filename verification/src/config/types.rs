//! The configuration model that the parser fills, with a mathematical view of
//! each type (strings as `Seq<char>`, lists as `Seq`, maps as `Map`).

use vstd::hash_map::StringHashMap;
use vstd::prelude::*;

verus! {

/// Modifier keys.
#[derive(Debug, Clone, Copy, PartialEq, Eq, Structural)]
pub enum Modifier {
    Mod1,
    Mod4,
    Shift,
    Control,
    Alt,
}

/// Focus and movement directions.
#[derive(Debug, Clone, Copy, PartialEq, Eq, Structural)]
pub enum Direction {
    Left,
    Right,
    Up,
    Down,
}

/// Split orientation.
#[derive(Debug, Clone, Copy, PartialEq, Eq, Structural)]
pub enum SplitDirection {
    Horizontal,
    Vertical,
}

/// Container layouts that a binding can select.
#[derive(Debug, Clone, Copy, PartialEq, Eq, Structural)]
pub enum LayoutType {
    SplitH,
    SplitV,
    Tabbed,
    Stacked,
    Toggle,
}

/// `floating enable|disable|toggle`.
#[derive(Debug, Clone, Copy, PartialEq, Eq, Structural)]
pub enum FloatingAction {
    Enable,
    Disable,
    Toggle,
}

/// `fullscreen enable|disable|toggle`.
#[derive(Debug, Clone, Copy, PartialEq, Eq, Structural)]
pub enum FullscreenAction {
    Enable,
    Disable,
    Toggle,
}

/// Axis of a resize command.
#[derive(Debug, Clone, Copy, PartialEq, Eq, Structural)]
pub enum ResizeAxis {
    Width,
    Height,
}

/// Unit of a resize amount.
#[derive(Debug, Clone, Copy, PartialEq, Eq, Structural)]
pub enum ResizeUnit {
    Px,
    Ppt,
}

/// `border none|normal <n>|pixel <n>|toggle`.
#[derive(Debug, Clone, Copy, PartialEq, Eq, Structural)]
pub enum BorderAction {
    NoBorder,
    Normal(u32),
    Pixel(u32),
    Toggle,
}

/// `sticky enable|disable|toggle`.
#[derive(Debug, Clone, Copy, PartialEq, Eq, Structural)]
pub enum StickyAction {
    Enable,
    Disable,
    Toggle,
}

/// The action that a key binding runs.
#[derive(Debug, Clone, PartialEq)]
pub enum Action {
    Exec(String),
    Focus(Direction),
    Move(Direction),
    Workspace(String),
    MoveToWorkspace(String),
    Split(SplitDirection),
    Layout(LayoutType),
    Fullscreen,
    ToggleFloating,
    Kill,
    Reload,
    Exit,
    /// A command kept verbatim because it is not one of the above.
    Raw(String),
}

/// View of an [`Action`].
pub enum ActionModel {
    Exec(Seq<char>),
    Focus(Direction),
    Move(Direction),
    Workspace(Seq<char>),
    MoveToWorkspace(Seq<char>),
    Split(SplitDirection),
    Layout(LayoutType),
    Fullscreen,
    ToggleFloating,
    Kill,
    Reload,
    Exit,
    Raw(Seq<char>),
}

impl View for Action {
    type V = ActionModel;

    open spec fn view(&self) -> ActionModel {
        match self {
            Action::Exec(s) => ActionModel::Exec(s@),
            Action::Focus(d) => ActionModel::Focus(*d),
            Action::Move(d) => ActionModel::Move(*d),
            Action::Workspace(s) => ActionModel::Workspace(s@),
            Action::MoveToWorkspace(s) => ActionModel::MoveToWorkspace(s@),
            Action::Split(d) => ActionModel::Split(*d),
            Action::Layout(l) => ActionModel::Layout(*l),
            Action::Fullscreen => ActionModel::Fullscreen,
            Action::ToggleFloating => ActionModel::ToggleFloating,
            Action::Kill => ActionModel::Kill,
            Action::Reload => ActionModel::Reload,
            Action::Exit => ActionModel::Exit,
            Action::Raw(s) => ActionModel::Raw(s@),
        }
    }
}

/// Binding flags (`--release`, `--locked`, `--whole-window`, `--no-repeat`).
#[derive(Debug, Clone, Copy, Default, PartialEq, Eq, Structural)]
pub struct BindingFlags {
    pub release: bool,
    pub locked: bool,
    pub whole_window: bool,
    pub no_repeat: bool,
}

/// The flags of a binding that sets none.
pub open spec fn no_flags() -> BindingFlags {
    BindingFlags { release: false, locked: false, whole_window: false, no_repeat: false }
}

impl BindingFlags {
    /// No flag set.
    pub fn none() -> (f: BindingFlags)
        ensures
            f == no_flags(),
    {
        BindingFlags { release: false, locked: false, whole_window: false, no_repeat: false }
    }
}

/// A `bindsym` key binding.
#[derive(Debug, Clone)]
pub struct Keybinding {
    pub modifiers: Vec<Modifier>,
    pub key: String,
    pub action: Action,
    pub flags: BindingFlags,
}

/// View of a [`Keybinding`].
pub struct KeybindingModel {
    pub modifiers: Seq<Modifier>,
    pub key: Seq<char>,
    pub action: ActionModel,
    pub flags: BindingFlags,
}

impl View for Keybinding {
    type V = KeybindingModel;

    open spec fn view(&self) -> KeybindingModel {
        KeybindingModel {
            modifiers: self.modifiers@,
            key: self.key@,
            action: self.action@,
            flags: self.flags,
        }
    }
}

/// An output background image and its mode.
#[derive(Debug, Clone)]
pub struct OutputBackground {
    pub source: String,
    pub mode: String,
}

/// Settings of one output. The refresh rate and the scale keep the decimal
/// text that was written; it is known to be a floating-point literal.
#[derive(Debug, Clone)]
pub struct OutputConfig {
    pub name: String,
    pub resolution: Option<(u32, u32)>,
    pub refresh_rate: Option<String>,
    pub position: Option<(i32, i32)>,
    pub scale: Option<String>,
    pub transform: Option<String>,
    pub enable: Option<bool>,
    pub power: Option<bool>,
    pub dpms: Option<bool>,
    pub bg: Option<OutputBackground>,
    pub scale_filter: Option<String>,
    pub adaptive_sync: Option<bool>,
    pub subpixel: Option<String>,
    pub max_render_time: Option<i32>,
    pub color_profile: Option<String>,
    pub allow_tearing: Option<bool>,
}

pub open spec fn opt_view(o: Option<String>) -> Option<Seq<char>> {
    match o {
        Some(s) => Some(s@),
        None => None,
    }
}

/// View of an [`OutputConfig`].
pub struct OutputModel {
    pub name: Seq<char>,
    pub resolution: Option<(u32, u32)>,
    pub refresh_rate: Option<Seq<char>>,
    pub position: Option<(i32, i32)>,
    pub scale: Option<Seq<char>>,
    pub transform: Option<Seq<char>>,
    pub enable: Option<bool>,
    pub power: Option<bool>,
    pub dpms: Option<bool>,
    pub bg: Option<OutputBackground>,
    pub scale_filter: Option<Seq<char>>,
    pub adaptive_sync: Option<bool>,
    pub subpixel: Option<Seq<char>>,
    pub max_render_time: Option<i32>,
    pub color_profile: Option<Seq<char>>,
    pub allow_tearing: Option<bool>,
}

impl View for OutputConfig {
    type V = OutputModel;

    open spec fn view(&self) -> OutputModel {
        OutputModel {
            name: self.name@,
            resolution: self.resolution,
            refresh_rate: opt_view(self.refresh_rate),
            position: self.position,
            scale: opt_view(self.scale),
            transform: opt_view(self.transform),
            enable: self.enable,
            power: self.power,
            dpms: self.dpms,
            bg: self.bg,
            scale_filter: opt_view(self.scale_filter),
            adaptive_sync: self.adaptive_sync,
            subpixel: opt_view(self.subpixel),
            max_render_time: self.max_render_time,
            color_profile: opt_view(self.color_profile),
            allow_tearing: self.allow_tearing,
        }
    }
}

/// The strings of a string-keyed map of strings.
pub open spec fn settings_view(m: StringHashMap<String>) -> Map<Seq<char>, Seq<char>> {
    m@.map_values(|s: String| s@)
}

/// Settings of one input device.
pub struct InputConfig {
    pub identifier: String,
    pub settings: StringHashMap<String>,
}

/// View of an [`InputConfig`].
pub struct InputModel {
    pub identifier: Seq<char>,
    pub settings: Map<Seq<char>, Seq<char>>,
}

impl View for InputConfig {
    type V = InputModel;

    open spec fn view(&self) -> InputModel {
        InputModel { identifier: self.identifier@, settings: settings_view(self.settings) }
    }
}

/// A command to start (`exec`, `exec_always`).
#[derive(Debug, Clone, PartialEq)]
pub struct ExecCommand {
    pub command: String,
}

/// Window border style.
#[derive(Debug, Clone, Copy, PartialEq, Eq, Structural)]
pub enum BorderStyle {
    Normal(u32),
    Pixel(u32),
    NoBorder,
}

/// Gaps between windows (`inner`) and at the screen edge (`outer`).
#[derive(Debug, Clone, Copy, PartialEq, Eq, Default, Structural)]
pub struct GapsConfig {
    pub inner: u32,
    pub outer: u32,
}

/// Which windows a rule applies to.
#[derive(Debug, Clone)]
pub struct WindowCriteria {
    pub app_id: Option<String>,
    pub class: Option<String>,
    pub title: Option<String>,
}

/// View of a [`WindowCriteria`].
pub struct CriteriaModel {
    pub app_id: Option<Seq<char>>,
    pub class: Option<Seq<char>>,
    pub title: Option<Seq<char>>,
}

impl View for WindowCriteria {
    type V = CriteriaModel;

    open spec fn view(&self) -> CriteriaModel {
        CriteriaModel {
            app_id: opt_view(self.app_id),
            class: opt_view(self.class),
            title: opt_view(self.title),
        }
    }
}

/// What a `for_window` rule does.
#[derive(Debug, Clone, PartialEq)]
pub enum WindowRuleAction {
    FloatingEnable,
    FloatingDisable,
    MoveToWorkspace(String),
    Resize(i32, i32),
}

/// View of a [`WindowRuleAction`].
pub enum RuleActionModel {
    FloatingEnable,
    FloatingDisable,
    MoveToWorkspace(Seq<char>),
    Resize(i32, i32),
}

impl View for WindowRuleAction {
    type V = RuleActionModel;

    open spec fn view(&self) -> RuleActionModel {
        match self {
            WindowRuleAction::FloatingEnable => RuleActionModel::FloatingEnable,
            WindowRuleAction::FloatingDisable => RuleActionModel::FloatingDisable,
            WindowRuleAction::MoveToWorkspace(s) => RuleActionModel::MoveToWorkspace(s@),
            WindowRuleAction::Resize(w, h) => RuleActionModel::Resize(*w, *h),
        }
    }
}

/// A `for_window` rule.
#[derive(Debug, Clone)]
pub struct WindowRule {
    pub criteria: WindowCriteria,
    pub action: WindowRuleAction,
}

/// View of a [`WindowRule`].
pub struct RuleModel {
    pub criteria: CriteriaModel,
    pub action: RuleActionModel,
}

impl View for WindowRule {
    type V = RuleModel;

    open spec fn view(&self) -> RuleModel {
        RuleModel { criteria: self.criteria@, action: self.action@ }
    }
}

/// A workspace and the outputs it is assigned to.
#[derive(Debug, Clone)]
pub struct WorkspaceConfig {
    pub name: String,
    pub outputs: Vec<String>,
}

/// View of a [`WorkspaceConfig`].
pub struct WorkspaceModel {
    pub name: Seq<char>,
    pub outputs: Seq<Seq<char>>,
}

impl View for WorkspaceConfig {
    type V = WorkspaceModel;

    open spec fn view(&self) -> WorkspaceModel {
        WorkspaceModel { name: self.name@, outputs: self.outputs@.map_values(|s: String| s@) }
    }
}

/// Colours of one client state.
#[derive(Debug, Clone, PartialEq)]
pub struct ColorConfig {
    pub border: String,
    pub background: String,
    pub text: String,
    pub indicator: String,
    pub child_border: String,
}

/// `hide_edge_borders` setting.
#[derive(Debug, Clone, Copy, PartialEq, Eq, Structural)]
pub enum HideEdgeBorders {
    Off,
    Vertical,
    Horizontal,
    Both,
    Smart,
}

/// A binding mode and its bindings.
#[derive(Debug, Clone)]
pub struct ModeBlock {
    pub name: String,
    pub keybindings: Vec<Keybinding>,
}

/// An `assign` rule.
#[derive(Debug, Clone)]
pub struct AssignRule {
    pub criteria: WindowCriteria,
    pub workspace: String,
}

/// A `bar` block.
#[derive(Debug, Clone, Default)]
pub struct BarConfig {
    pub status_command: Option<String>,
    pub position: Option<String>,
}

/// A `seat` block.
pub struct SeatConfig {
    pub name: String,
    pub settings: StringHashMap<String>,
}

/// A `bindcode` binding.
#[derive(Debug, Clone)]
pub struct Bindcode {
    pub modifiers: Vec<Modifier>,
    pub code: u32,
    pub action: Action,
    pub flags: BindingFlags,
}

/// `focus_follows_mouse yes|no|always`.
#[derive(Debug, Clone, Copy, PartialEq, Eq, Structural)]
pub enum FocusFollowsMouse {
    Yes,
    No,
    Always,
}

impl FocusFollowsMouse {
    /// Whether focus follows the mouse at all (`yes` or `always`).
    pub fn is_enabled(&self) -> (b: bool)
        ensures
            b == (*self == FocusFollowsMouse::Yes || *self == FocusFollowsMouse::Always),
    {
        match self {
            FocusFollowsMouse::Yes | FocusFollowsMouse::Always => true,
            FocusFollowsMouse::No => false,
        }
    }
}

/// A parsed configuration.
pub struct Config {
    pub variables: StringHashMap<String>,
    pub keybindings: Vec<Keybinding>,
    pub outputs: Vec<OutputConfig>,
    pub inputs: Vec<InputConfig>,
    pub exec_commands: Vec<ExecCommand>,
    pub exec_always: Vec<ExecCommand>,
    pub default_border: BorderStyle,
    pub gaps: GapsConfig,
    pub focus_follows_mouse: FocusFollowsMouse,
    pub window_rules: Vec<WindowRule>,
    pub workspaces: Vec<WorkspaceConfig>,
    pub font: Option<String>,
    pub default_floating_border: BorderStyle,
    pub floating_modifier: Option<Modifier>,
    pub floating_modifier_inverse: bool,
    pub hide_edge_borders: HideEdgeBorders,
    pub smart_borders: bool,
    pub smart_gaps: bool,
    pub title_format: Option<String>,
    pub titlebar_border_thickness: Option<u32>,
    pub titlebar_padding: Option<(u32, u32)>,
    pub client_focused: Option<ColorConfig>,
    pub client_unfocused: Option<ColorConfig>,
    pub client_focused_inactive: Option<ColorConfig>,
    pub client_urgent: Option<ColorConfig>,
    pub client_placeholder: Option<ColorConfig>,
    pub client_background: Option<String>,
    pub modes: Vec<ModeBlock>,
    pub assigns: Vec<AssignRule>,
    pub workspace_auto_back_and_forth: bool,
    pub seat_configs: Vec<SeatConfig>,
    pub bindcodes: Vec<Bindcode>,
    pub default_orientation: Option<String>,
    pub workspace_layout: Option<String>,
    pub xwayland: Option<String>,
    pub swaybg_command: Option<String>,
    pub swaynag_command: Option<String>,
    pub mouse_warping: Option<String>,
    pub focus_wrapping: Option<String>,
    pub focus_on_window_activation: Option<String>,
    pub popup_during_fullscreen: Option<String>,
    pub show_marks: Option<bool>,
    pub tiling_drag: Option<String>,
    pub title_align: Option<String>,
    pub floating_maximum_size: Option<(i32, i32)>,
    pub floating_minimum_size: Option<(i32, i32)>,
    pub no_focus_rules: Vec<WindowCriteria>,
    pub includes: Vec<String>,
    pub bar: Option<BarConfig>,
}

/// View of a [`Config`].
pub struct ConfigModel {
    pub variables: Map<Seq<char>, Seq<char>>,
    pub keybindings: Seq<KeybindingModel>,
    pub outputs: Seq<OutputModel>,
    pub inputs: Seq<InputModel>,
    pub exec_commands: Seq<Seq<char>>,
    pub exec_always: Seq<Seq<char>>,
    pub default_border: BorderStyle,
    pub gaps: GapsConfig,
    pub focus_follows_mouse: FocusFollowsMouse,
    pub window_rules: Seq<RuleModel>,
    pub workspaces: Seq<WorkspaceModel>,
    pub font: Option<Seq<char>>,
    pub default_floating_border: BorderStyle,
    pub floating_modifier: Option<Modifier>,
    pub floating_modifier_inverse: bool,
    pub hide_edge_borders: HideEdgeBorders,
    pub smart_borders: bool,
    pub smart_gaps: bool,
    pub title_format: Option<Seq<char>>,
    pub titlebar_border_thickness: Option<u32>,
    pub titlebar_padding: Option<(u32, u32)>,
    pub client_focused: Option<ColorConfig>,
    pub client_unfocused: Option<ColorConfig>,
    pub client_focused_inactive: Option<ColorConfig>,
    pub client_urgent: Option<ColorConfig>,
    pub client_placeholder: Option<ColorConfig>,
    pub client_background: Option<Seq<char>>,
    pub modes: Seq<ModeBlock>,
    pub assigns: Seq<AssignRule>,
    pub workspace_auto_back_and_forth: bool,
    pub seat_configs: Seq<SeatConfig>,
    pub bindcodes: Seq<Bindcode>,
    pub default_orientation: Option<Seq<char>>,
    pub workspace_layout: Option<Seq<char>>,
    pub xwayland: Option<Seq<char>>,
    pub swaybg_command: Option<Seq<char>>,
    pub swaynag_command: Option<Seq<char>>,
    pub mouse_warping: Option<Seq<char>>,
    pub focus_wrapping: Option<Seq<char>>,
    pub focus_on_window_activation: Option<Seq<char>>,
    pub popup_during_fullscreen: Option<Seq<char>>,
    pub show_marks: Option<bool>,
    pub tiling_drag: Option<Seq<char>>,
    pub title_align: Option<Seq<char>>,
    pub floating_maximum_size: Option<(i32, i32)>,
    pub floating_minimum_size: Option<(i32, i32)>,
    pub no_focus_rules: Seq<WindowCriteria>,
    pub includes: Seq<Seq<char>>,
    pub bar: Option<BarConfig>,
}

impl View for Config {
    type V = ConfigModel;

    open spec fn view(&self) -> ConfigModel {
        ConfigModel {
            variables: settings_view(self.variables),
            keybindings: self.keybindings@.map_values(|k: Keybinding| k@),
            outputs: self.outputs@.map_values(|o: OutputConfig| o@),
            inputs: self.inputs@.map_values(|i: InputConfig| i@),
            exec_commands: self.exec_commands@.map_values(|e: ExecCommand| e.command@),
            exec_always: self.exec_always@.map_values(|e: ExecCommand| e.command@),
            default_border: self.default_border,
            gaps: self.gaps,
            focus_follows_mouse: self.focus_follows_mouse,
            window_rules: self.window_rules@.map_values(|r: WindowRule| r@),
            workspaces: self.workspaces@.map_values(|w: WorkspaceConfig| w@),
            font: opt_view(self.font),
            default_floating_border: self.default_floating_border,
            floating_modifier: self.floating_modifier,
            floating_modifier_inverse: self.floating_modifier_inverse,
            hide_edge_borders: self.hide_edge_borders,
            smart_borders: self.smart_borders,
            smart_gaps: self.smart_gaps,
            title_format: opt_view(self.title_format),
            titlebar_border_thickness: self.titlebar_border_thickness,
            titlebar_padding: self.titlebar_padding,
            client_focused: self.client_focused,
            client_unfocused: self.client_unfocused,
            client_focused_inactive: self.client_focused_inactive,
            client_urgent: self.client_urgent,
            client_placeholder: self.client_placeholder,
            client_background: opt_view(self.client_background),
            modes: self.modes@,
            assigns: self.assigns@,
            workspace_auto_back_and_forth: self.workspace_auto_back_and_forth,
            seat_configs: self.seat_configs@,
            bindcodes: self.bindcodes@,
            default_orientation: opt_view(self.default_orientation),
            workspace_layout: opt_view(self.workspace_layout),
            xwayland: opt_view(self.xwayland),
            swaybg_command: opt_view(self.swaybg_command),
            swaynag_command: opt_view(self.swaynag_command),
            mouse_warping: opt_view(self.mouse_warping),
            focus_wrapping: opt_view(self.focus_wrapping),
            focus_on_window_activation: opt_view(self.focus_on_window_activation),
            popup_during_fullscreen: opt_view(self.popup_during_fullscreen),
            show_marks: self.show_marks,
            tiling_drag: opt_view(self.tiling_drag),
            title_align: opt_view(self.title_align),
            floating_maximum_size: self.floating_maximum_size,
            floating_minimum_size: self.floating_minimum_size,
            no_focus_rules: self.no_focus_rules@,
            includes: self.includes@.map_values(|x: String| x@),
            bar: self.bar,
        }
    }
}

/// The configuration before any directive: nothing set, `normal 2` borders,
/// no gaps, focus not following the mouse.
pub open spec fn default_model() -> ConfigModel {
    ConfigModel {
        variables: Map::empty(),
        keybindings: Seq::empty(),
        outputs: Seq::empty(),
        inputs: Seq::empty(),
        exec_commands: Seq::empty(),
        exec_always: Seq::empty(),
        default_border: BorderStyle::Normal(2),
        gaps: GapsConfig { inner: 0, outer: 0 },
        focus_follows_mouse: FocusFollowsMouse::No,
        window_rules: Seq::empty(),
        workspaces: Seq::empty(),
        font: None,
        default_floating_border: BorderStyle::Normal(2),
        floating_modifier: None,
        floating_modifier_inverse: false,
        hide_edge_borders: HideEdgeBorders::Off,
        smart_borders: false,
        smart_gaps: false,
        title_format: None,
        titlebar_border_thickness: None,
        titlebar_padding: None,
        client_focused: None,
        client_unfocused: None,
        client_focused_inactive: None,
        client_urgent: None,
        client_placeholder: None,
        client_background: None,
        modes: Seq::empty(),
        assigns: Seq::empty(),
        workspace_auto_back_and_forth: false,
        seat_configs: Seq::empty(),
        bindcodes: Seq::empty(),
        default_orientation: None,
        workspace_layout: None,
        xwayland: None,
        swaybg_command: None,
        swaynag_command: None,
        mouse_warping: None,
        focus_wrapping: None,
        focus_on_window_activation: None,
        popup_during_fullscreen: None,
        show_marks: None,
        tiling_drag: None,
        title_align: None,
        floating_maximum_size: None,
        floating_minimum_size: None,
        no_focus_rules: Seq::empty(),
        includes: Seq::empty(),
        bar: None,
    }
}

impl Config {
    /// The default configuration (see [`default_model`]).
    pub fn new() -> (c: Config)
        ensures
            c@ == default_model(),
    {
        let c = Config {
            variables: StringHashMap::new(),
            keybindings: Vec::new(),
            outputs: Vec::new(),
            inputs: Vec::new(),
            exec_commands: Vec::new(),
            exec_always: Vec::new(),
            default_border: BorderStyle::Normal(2),
            gaps: GapsConfig { inner: 0, outer: 0 },
            focus_follows_mouse: FocusFollowsMouse::No,
            window_rules: Vec::new(),
            workspaces: Vec::new(),
            font: None,
            default_floating_border: BorderStyle::Normal(2),
            floating_modifier: None,
            floating_modifier_inverse: false,
            hide_edge_borders: HideEdgeBorders::Off,
            smart_borders: false,
            smart_gaps: false,
            title_format: None,
            titlebar_border_thickness: None,
            titlebar_padding: None,
            client_focused: None,
            client_unfocused: None,
            client_focused_inactive: None,
            client_urgent: None,
            client_placeholder: None,
            client_background: None,
            modes: Vec::new(),
            assigns: Vec::new(),
            workspace_auto_back_and_forth: false,
            seat_configs: Vec::new(),
            bindcodes: Vec::new(),
            default_orientation: None,
            workspace_layout: None,
            xwayland: None,
            swaybg_command: None,
            swaynag_command: None,
            mouse_warping: None,
            focus_wrapping: None,
            focus_on_window_activation: None,
            popup_during_fullscreen: None,
            show_marks: None,
            tiling_drag: None,
            title_align: None,
            floating_maximum_size: None,
            floating_minimum_size: None,
            no_focus_rules: Vec::new(),
            includes: Vec::new(),
            bar: None,
        };
        assert(c@.variables =~= Map::empty());
        assert(c@.keybindings =~= Seq::empty());
        assert(c@.outputs =~= Seq::empty());
        assert(c@.inputs =~= Seq::empty());
        assert(c@.exec_commands =~= Seq::empty());
        assert(c@.exec_always =~= Seq::empty());
        assert(c@.window_rules =~= Seq::empty());
        assert(c@.workspaces =~= Seq::empty());
        assert(c@.modes =~= Seq::empty());
        assert(c@.assigns =~= Seq::empty());
        assert(c@.seat_configs =~= Seq::empty());
        assert(c@.bindcodes =~= Seq::empty());
        assert(c@.no_focus_rules =~= Seq::empty());
        assert(c@.includes =~= Seq::empty());
        c
    }
}

impl Default for Config {
    fn default() -> (c: Config)
        ensures
            c@ == default_model(),
    {
        Config::new()
    }
}

} // verus!
