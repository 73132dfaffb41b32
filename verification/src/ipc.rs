//! The i3/Sway IPC wire protocol: message framing, event subscriptions and
//! the reply records that the server sends.

pub mod commands;
pub mod events;
pub mod protocol;

pub use commands::{CommandResult, IpcMode, IpcRect, TreeNode, VersionInfo, WorkspaceInfo};
pub use events::{parse_subscribe_payload, SubscriptionType, WindowEvent, WorkspaceEvent};
pub use protocol::{decode_header, encode_message, EventType, MessageType, ProtocolError, HEADER_SIZE, MAGIC};
