//! The trusted boundary: every call into an outside crate, or into a part of
//! `std` that vstd does not specify, with the contract Verus takes on trust.

pub mod sqlite_calls;
pub mod std_calls;
pub mod time_calls;
pub mod ulid_calls;
