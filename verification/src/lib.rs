//! Tiling window-manager core: an arena tiling tree, a Sway-compatible
//! configuration parser, the i3/Sway IPC wire protocol and a compatibility
//! test harness, with their behaviour stated in Verus contracts.

pub mod seq_util;
pub mod text;
pub mod config;
pub mod harness;
pub mod ipc;
pub mod tiling;
