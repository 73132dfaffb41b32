//! Sway-compatible configuration: the configuration model and its parser.

pub mod lex;
pub mod parser;
pub mod types;

pub use parser::{parse, try_parse, ParseError};
pub use types::{
    Action, AssignRule, BarConfig, Bindcode, BindingFlags, BorderAction, BorderStyle, ColorConfig,
    Config, Direction, ExecCommand, FloatingAction, FocusFollowsMouse, FullscreenAction,
    GapsConfig, HideEdgeBorders, InputConfig, Keybinding, LayoutType, ModeBlock, Modifier,
    OutputBackground, OutputConfig, ResizeAxis, ResizeUnit, SeatConfig, SplitDirection,
    StickyAction, WindowCriteria, WindowRule, WindowRuleAction, WorkspaceConfig,
};
pub use vstd::hash_map::StringHashMap;
