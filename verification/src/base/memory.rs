//! The three cognitive layers of the memory engine.

use vstd::prelude::*;

verus! {

#[derive(Debug, Clone, Copy, PartialEq, Eq, Hash, Structural)]
pub enum MemoryType {
    Episodic,
    Semantic,
    Procedural,
}

} // verus!
