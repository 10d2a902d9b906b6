use vstd::prelude::*;

verus! {

/// How a bus can be misused.
#[derive(Debug, PartialEq, Eq, Structural)]
pub enum BusError {
    /// `start` was called a second time.
    AlreadyStarted,
}

/// Where a bus stands: whether its dispatch thread was started, and whether
/// shutdown was requested. Shutdown, once requested, stays requested.
pub struct Lifecycle {
    started: bool,
    shutdown: bool,
}

impl View for Lifecycle {
    /// (started, shutdown requested)
    type V = (bool, bool);

    closed spec fn view(&self) -> (bool, bool) {
        (self.started, self.shutdown)
    }
}

/// The state after a request to stop, and whether the request was the first.
pub open spec fn after_stop(s: (bool, bool)) -> ((bool, bool), bool) {
    ((s.0, true), !s.1)
}

impl Lifecycle {
    /// A bus being configured.
    pub fn new() -> (r: Self)
        ensures
            r@ == (false, false),
    {
        Lifecycle { started: false, shutdown: false }
    }

    /// Whether the dispatch thread was started.
    pub fn is_started(&self) -> (r: bool)
        ensures
            r == self@.0,
    {
        self.started
    }

    /// Whether shutdown was requested.
    pub fn is_shutdown(&self) -> (r: bool)
        ensures
            r == self@.1,
    {
        self.shutdown
    }

    /// Subscribers may be added only before the start.
    pub fn may_subscribe(&self) -> (r: bool)
        ensures
            r == !self@.0,
    {
        !self.started
    }

    /// Marks the bus started; a second start is an error and changes nothing.
    pub fn start(&mut self) -> (r: Result<(), BusError>)
        ensures
            old(self)@.0 ==> r == Err::<(), BusError>(BusError::AlreadyStarted) && final(self)@
                == old(self)@,
            !old(self)@.0 ==> r is Ok && final(self)@ == (true, old(self)@.1),
    {
        if self.started {
            Err(BusError::AlreadyStarted)
        } else {
            self.started = true;
            Ok(())
        }
    }

    /// Requests shutdown. Returns whether this was the first request: only
    /// then is there a dispatch thread to wake and join.
    pub fn request_stop(&mut self) -> (first: bool)
        ensures
            (final(self)@, first) == after_stop(old(self)@),
    {
        let first = !self.shutdown;
        self.shutdown = true;
        first
    }
}

/// Stopping is idempotent: a second request finds shutdown requested already,
/// reports that it was not the first, and changes nothing.
pub proof fn law_stop_idempotent(s: (bool, bool))
    ensures
        after_stop(after_stop(s).0).0 == after_stop(s).0,
        !after_stop(after_stop(s).0).1,
        after_stop(s).0.1,
        after_stop(s).0.0 == s.0,
{
}

} // verus!
