//! The shutdown signal: a flag that starts cleared, can only be set, and
//! is looked at by the ingestion loop between two reads.

use vstd::prelude::*;

verus! {

/// The process-wide request to stop.
#[derive(Debug)]
pub struct ShutdownCoordinator {
    requested: bool,
}

impl View for ShutdownCoordinator {
    type V = bool;

    /// Whether shutdown has been requested.
    closed spec fn view(&self) -> bool {
        self.requested
    }
}

impl ShutdownCoordinator {
    /// A coordinator on which nothing has been requested yet.
    pub fn new() -> (c: Self)
        ensures
            !c@,
    {
        ShutdownCoordinator { requested: false }
    }

    /// Requests shutdown. Asking again changes nothing.
    pub fn request(&mut self)
        ensures
            final(self)@,
    {
        self.requested = true;
    }

    /// Whether shutdown has been requested.
    pub fn is_requested(&self) -> (r: bool)
        ensures
            r == self@,
    {
        self.requested
    }
}

} // verus!
