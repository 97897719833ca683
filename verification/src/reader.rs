//! What follows when the reader, the part of a connection that the user supplies, has ended.
use anyhow::Error as AnyhowError;
use vstd::prelude::*;

verus! {

/// Whether the connection has to be given up now that the reader has ended with `outcome`.
///
/// The reader itself says so with `Ok(true)` or `Ok(false)`; after an error the connection is
/// always given up.
pub open spec fn gives_up(outcome: core::result::Result<bool, AnyhowError>) -> bool {
    outcome != Ok::<bool, AnyhowError>(false)
}

/// Decides whether the connection has to be given up now that the reader has ended.
pub fn need_disconnect(outcome: &core::result::Result<bool, AnyhowError>) -> (need: bool)
    ensures
        need == gives_up(*outcome),
{
    match outcome {
        Ok(need) => *need,
        Err(_) => true,
    }
}

/// What the reader says is what happens, and an error of any kind gives the connection up.
pub proof fn law_reader_decides(give_up: bool, error: AnyhowError)
    ensures
        gives_up(Ok::<bool, AnyhowError>(give_up)) == give_up,
        gives_up(Err::<bool, AnyhowError>(error)),
{
}

} // verus!
