//! Verified core of an MCP (Model Context Protocol) server over JSON-RPC 2.0
//! that offers the `update_plan`, `ask_user` and `apply_patch` tools.

pub mod text;
pub mod json;
pub mod paths;
pub mod walk;
pub mod guard;
pub mod tools;
pub mod replies;
pub mod server;
