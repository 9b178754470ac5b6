//! Blues: the verified core of a local AI-collaboration daemon — identifiers,
//! errors, provenance, the inbox-first memory engine with its multi-route
//! recall and budgeted context compiler, the wire-protocol error mapping, and
//! the records the other engines exchange.

pub mod agent;
pub mod base;
pub mod cli;
pub mod config;
pub mod daemon;
pub mod mcp;
pub mod memory;
pub mod model;
pub mod plan;
pub mod protocol;
pub mod sandbox;
pub mod skill;
pub mod text;
pub mod trusted;
