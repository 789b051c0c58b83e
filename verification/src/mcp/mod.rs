//! MCP client side: server configuration, tool naming, environment
//! expansion and configuration discovery.
pub mod client;
pub mod config;
pub mod discover;
pub mod expand;
