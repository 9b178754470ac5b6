//! Consolidation passes over the confirmed layers. Only `decay` does work so
//! far; `Merge` and `Procedure` are accepted and leave the store as it is, so
//! callers can already wire them up.

pub mod decay;

use vstd::prelude::*;
use crate::base::error::BluesError;
use crate::base::ids::ProjectId;
use crate::memory::store::{decayed_view, SqliteStore};
use crate::memory::types::ConsolidateMode;
use crate::memory::consolidate::decay::FACTOR;

verus! {

/// Runs the consolidation passes `mode` asks for over `project`: `Decay` and
/// `All` run the decay pass; `Merge` and `Procedure` change nothing.
pub fn run(store: &mut SqliteStore, project: ProjectId, mode: ConsolidateMode) -> (r: Result<(), BluesError>)
    requires
        old(store).wf(),
    ensures
        final(store).wf(),
        final(store).index_history() == old(store).index_history(),
        r is Ok,
        (mode == ConsolidateMode::Decay || mode == ConsolidateMode::All) ==> final(store)@ == decayed_view(
            old(store)@,
            project,
            FACTOR,
        ),
        (mode == ConsolidateMode::Merge || mode == ConsolidateMode::Procedure) ==> final(store)@ == old(store)@,
{
    match mode {
        ConsolidateMode::Decay | ConsolidateMode::All => {
            decay::run(store, project)?;
        },
        ConsolidateMode::Merge | ConsolidateMode::Procedure => {},
    }
    Ok(())
}

} // verus!
