//! The decay pass: each run scales the confidence of every confirmed record
//! of a project by `FACTOR`, so memories nobody re-confirms sink over time
//! (0.95 per pass halves a confidence in about fourteen passes).

use vstd::prelude::*;
use crate::base::error::BluesError;
use crate::base::ids::ProjectId;
use crate::memory::store::{decayed, decayed_view, SqliteStore};

verus! {

/// Per-pass decay factor, 0.95 in parts per million.
pub const FACTOR: u32 = 950_000;

/// Runs one decay pass over the confirmed records of `project`.
pub fn run(store: &mut SqliteStore, project: ProjectId) -> (r: Result<(), BluesError>)
    requires
        old(store).wf(),
    ensures
        final(store).wf(),
        final(store).index_history() == old(store).index_history(),
        r is Ok,
        final(store)@ == decayed_view(old(store)@, project, FACTOR),
{
    match store.decay(project, FACTOR) {
        Ok(_) => Ok(()),
        Err(e) => Err(e),
    }
}

/// A decay pass lowers every positive confidence and never raises one.
pub proof fn lemma_decay_lowers(confidence: u32)
    ensures
        decayed(confidence, FACTOR) <= confidence,
        confidence > 0 ==> decayed(confidence, FACTOR) < confidence,
{
    assert((confidence as int * 950_000) / 1_000_000 <= confidence as int) by (nonlinear_arith);
    if confidence > 0 {
        assert((confidence as int * 950_000) / 1_000_000 < confidence as int) by (nonlinear_arith)
            requires
                confidence > 0,
        ;
    }
}

} // verus!
