//! The daemon's top-level handles: its configuration container and the
//! running daemon, which holds the concrete engines.

use vstd::prelude::*;

verus! {

/// Daemon configuration; it declares no field yet.
#[derive(Debug, Default, Clone)]
pub struct DaemonConfig;

/// The running daemon.
#[derive(Debug, Default)]
pub struct Daemon;

impl Daemon {
    pub fn new(config: DaemonConfig) -> (r: Daemon)
        ensures
            r == Daemon,
    {
        let _ = config;
        Daemon
    }
}

} // verus!
