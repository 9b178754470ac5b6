//! Names of the tools `blues mcp serve` exposes.

use vstd::prelude::*;

verus! {

pub const QUERY: &'static str = "blues_memory_query";
pub const COMPILE_CONTEXT: &'static str = "blues_compile_context";
pub const SAVE: &'static str = "blues_memory_save";
pub const INBOX_LIST: &'static str = "blues_memory_inbox_list";

} // verus!
