//! The verified core of a WinDbg extension that serves the debugging session
//! over MCP: the command catalog and its search, the resources rendered from
//! it, command building and execution states, and the decisions of the
//! server and of the `!mcp` command.
pub mod catalog;
pub mod executor;
pub mod extension;
pub mod plugin_server;
pub mod resources;
pub mod search;
pub mod server;
pub mod syntax;
pub mod text;
