//! Compute-backend selection: resolve the backend ("gpu" or "cpu") and probe
//! the GPU. Neither is written yet; both report so.
use vstd::prelude::*;
use crate::error::GenieError;

verus! {

/// Returns "gpu" or "cpu". Not written yet: it always fails with a
/// [`GenieError::NotImplemented`] that says so.
pub fn resolve() -> (r: Result<String, GenieError>)
    ensures
        r matches Err(GenieError::NotImplemented(m))
            && m@ == "backend::resolve not yet implemented (RUST_PLAN.md M1)"@,
{
    Err(GenieError::NotImplemented("backend::resolve not yet implemented (RUST_PLAN.md M1)".to_string()))
}

/// Real GPU probe (a tiny generation). Not written yet: it reports that the
/// GPU is not usable.
pub fn verify_gpu() -> (ok: bool)
    ensures
        !ok,
{
    false
}

} // verus!
