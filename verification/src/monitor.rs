use vstd::prelude::*;

verus! {

/// The resource monitor's breach test. A sample is the resident memory
/// of the active worker in bytes, or `None` where the process could not
/// be inspected (it vanished, or permission was denied). An unavailable
/// sample is never a breach: a worker that already died for other
/// reasons must not trigger a rotation here, and a failed sample only
/// defers the question to the next polling tick.
pub fn memory_breached(sample: Option<u64>, limit_bytes: u64) -> (r: bool)
    ensures
        r == (sample matches Some(resident) && resident > limit_bytes),
{
    match sample {
        Some(resident) => resident > limit_bytes,
        None => false,
    }
}

} // verus!
