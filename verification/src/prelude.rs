//! Re-exports the abstractions that are likely to be used together.

pub use crate::clients::router::{RouterClient, RouterEntry};
pub use crate::protocol::entity::{
    Bot, BotCapabilities, BotCapability, BotId, EntityAvatar, EntityId,
};
pub use crate::protocol::message::{Message, MessageContent};
pub use crate::protocol::result::{ClientError, ClientErrorKind, ClientResult};
pub use crate::protocol::tool::{Tool, ToolCall, ToolCallPermissionStatus, ToolResult};
