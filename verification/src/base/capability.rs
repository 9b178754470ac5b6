//! Capability declarations for tool calls: the side-effect categories a tool
//! may request (`fs.read`, `fs.write`, `net.fetch`, `shell.exec`). The sandbox
//! backend is bound per project in `<project>/.blues/policy.toml`.

use vstd::prelude::*;

verus! {

/// A side-effect category a tool may request, named by its dotted text.
#[derive(Debug, Clone, PartialEq, Eq, Hash)]
pub struct Capability(pub String);

impl Capability {
    pub const FS_READ: &'static str = "fs.read";
    pub const FS_WRITE: &'static str = "fs.write";
    pub const NET_FETCH: &'static str = "net.fetch";
    pub const SHELL_EXEC: &'static str = "shell.exec";

    pub fn new(s: &str) -> (r: Capability)
        ensures
            r.0@ == s@,
    {
        Capability(String::from_str(s))
    }

    pub fn as_str(&self) -> (r: &str)
        ensures
            r@ == self.0@,
    {
        self.0.as_str()
    }

    /// Display text: the capability's name.
    pub fn to_string(&self) -> (r: String)
        ensures
            r@ == self.0@,
    {
        self.0.clone()
    }
}

} // verus!
