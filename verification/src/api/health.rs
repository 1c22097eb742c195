use crate::services::health::AppHealth;
use vstd::prelude::*;

verus! {

/// The status of a health probe.
pub fn health_handler(health: &AppHealth) -> (status: u16)
    ensures
        status == if health.block_watcher@ is None && health.event_dispatcher@ is None {
            200u16
        } else {
            503u16
        },
{
    if health.is_healthy() {
        200
    } else {
        503
    }
}

} // verus!
