//! Shared building blocks for MCP and web servers: token authentication, the session access
//! check, the landing page, the typed data catalog and the transport helpers, with their
//! decisions stated and proved.

pub mod auth;
pub mod cli;
pub mod credentials;
pub mod strmap;
pub mod text;
pub mod transport;
pub mod web;
