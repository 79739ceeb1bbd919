//! An HTTP Basic Authentication check in front of a single upstream origin.
//!
//! The library decides, request by request, whether the credentials match the
//! configured pair, rewrites the target of an admitted request to the upstream
//! origin, and settles what the client sees once forwarding has been tried.
pub mod auth;
pub mod config;
pub mod headers;
pub mod pipeline;
