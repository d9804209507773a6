//! The verified core of an agent runtime: skill packages, conversation
//! memory, tool registries, model providers and MCP governance.

pub mod effect;
pub mod json;
pub mod keyed;
pub mod mcp;
pub mod memory;
pub mod message;
pub mod message_channel;
pub mod observability;
pub mod order;
pub mod provider;
pub mod record;
pub mod run;
pub mod skill;
pub mod text;
pub mod text_laws;
pub mod time;
pub mod tool;
