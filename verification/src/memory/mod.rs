//! The memory engine: three cognitive layers (episodic / semantic /
//! procedural) behind an inbox-first write funnel, multi-route recall and a
//! budget-aware context compiler.

pub mod compiler;
pub mod consolidate;
pub mod embed;
pub mod engine;
pub mod rank;
pub mod recall;
pub mod store;
pub mod types;
