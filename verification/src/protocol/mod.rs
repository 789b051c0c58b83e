//! The contract layer shared by kernel, plugins and storage: typed ids,
//! domain events, surface operations, capability strings and typed errors.
pub mod error;
pub mod event;
pub mod ids;
pub mod policy;
pub mod port;
pub mod surface;
