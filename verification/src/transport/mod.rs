//! MCP transports: the legacy HTTP+SSE session bookkeeping.

pub mod sse;
