//! Structured health: each subsystem is healthy, or unhealthy for a reason
//! that can be read as it stands.
use vstd::prelude::*;

verus! {

#[derive(Debug)]
pub enum SubsystemHealth {
    Healthy,
    Unhealthy(String),
}

impl View for SubsystemHealth {
    /// The reason, if the subsystem is unhealthy.
    type V = Option<Seq<char>>;

    open spec fn view(&self) -> Option<Seq<char>> {
        match self {
            SubsystemHealth::Healthy => None,
            SubsystemHealth::Unhealthy(reason) => Some(reason@),
        }
    }
}

impl SubsystemHealth {
    pub fn is_healthy(&self) -> (r: bool)
        ensures
            r == (self@ is None),
    {
        match self {
            SubsystemHealth::Healthy => true,
            SubsystemHealth::Unhealthy(_) => false,
        }
    }

    /// Why the subsystem is unhealthy, and nothing where it is not.
    pub fn reason(&self) -> (r: Option<&str>)
        ensures
            r is Some <==> self@ is Some,
            r matches Some(text) ==> Some(text@) == self@,
    {
        match self {
            SubsystemHealth::Unhealthy(r) => Some(r.as_str()),
            SubsystemHealth::Healthy => None,
        }
    }
}

/// The health of the whole service.
#[derive(Debug)]
pub struct AppHealth {
    pub block_watcher: SubsystemHealth,
    pub event_dispatcher: SubsystemHealth,
}

impl AppHealth {
    /// Healthy if and only if every subsystem is.
    pub fn is_healthy(&self) -> (r: bool)
        ensures
            r == (self.block_watcher@ is None && self.event_dispatcher@ is None),
    {
        self.block_watcher.is_healthy() && self.event_dispatcher.is_healthy()
    }
}

} // verus!
