//! Shared types used by every part of Blues: identifiers, lifecycle states,
//! memory layers, capabilities, provenance, event kinds and the error type.

pub mod capability;
pub mod error;
pub mod event;
pub mod ids;
pub mod memory;
pub mod provenance;
pub mod status;
