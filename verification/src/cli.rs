//! The command tree of the `blues` command-line client.

use vstd::prelude::*;

verus! {

/// Parsed command line.
#[derive(Debug, Clone)]
pub struct Cli {
    pub command: Command,
    /// Output format: plain | rich | json.
    pub output: String,
}

#[derive(Debug, Clone, Copy, PartialEq, Eq, Structural)]
pub enum Command {
    /// Daemon lifecycle: start / stop / status.
    Daemon,
    /// Project management: init / list / activate.
    Project,
    /// Memory ops: query / save / inbox / consolidate.
    Memory,
    /// Plan ops: create / start / pause / resume / cancel / state.
    Plan,
    /// Model ops: list / route / health / usage.
    Model,
    /// MCP ops: serve.
    Mcp,
    /// Print build version and protocol version.
    Version,
}

} // verus!
