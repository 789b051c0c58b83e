pub mod hex;
pub mod json;
pub mod text;
pub mod utf8;
pub mod governance;
pub mod pdf_omni;
pub mod protocol;
pub mod mcp;
pub mod log_buffer;
pub mod permission_store;
pub mod bm_engine;
pub mod chat;
pub mod auth;
pub mod server;
pub mod gates;
pub mod git;
pub mod hostcall;
pub mod payload;
pub mod memory;
pub mod paths;
pub mod tools;
pub mod routes;
pub mod roles;
