//! The MCP server that exposes the memory tools to third-party MCP hosts; it
//! forwards each call to the daemon and holds no logic of its own.

pub mod tools;

use vstd::prelude::*;

verus! {

/// The running MCP server.
#[derive(Debug, Default)]
pub struct McpServer;

} // verus!
