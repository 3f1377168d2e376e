//! The listener: what binding and each accept decide.
//!
//! The listener performs no input or output. Its owner binds the address and
//! accepts the sockets, and tells the listener how each went; the listener
//! says whether the server stands and whether a handler is to be started.

use vstd::prelude::*;

verus! {

/// The address was not bound: the server cannot start, and binding is not
/// tried again.
#[derive(Clone, Copy, Debug, PartialEq, Eq, Structural)]
pub struct BindError;

/// Where a listener stands.
#[derive(Clone, Copy, Debug, PartialEq, Eq, Structural)]
pub enum ListenerState {
    /// The address is not bound yet.
    Binding,
    /// The address is bound and connections are accepted.
    Accepting,
    /// Binding failed. This is final.
    Failed,
}

/// What follows an accept.
#[derive(Clone, Copy, Debug, PartialEq, Eq, Structural)]
pub enum AcceptStep {
    /// Start a handler for the socket that was accepted, then accept again.
    Spawn,
    /// The accept failed: accept again.
    Retry,
    /// The listener is not accepting: there is nothing to accept.
    Stop,
}

/// The state after binding went as `bound` says.
pub open spec fn after_bind(state: ListenerState, bound: bool) -> ListenerState {
    if state != ListenerState::Binding {
        state
    } else if bound {
        ListenerState::Accepting
    } else {
        ListenerState::Failed
    }
}

/// What follows an accept that went as `accepted` says.
pub open spec fn accept_step(state: ListenerState, accepted: bool) -> AcceptStep {
    if state != ListenerState::Accepting {
        AcceptStep::Stop
    } else if accepted {
        AcceptStep::Spawn
    } else {
        AcceptStep::Retry
    }
}

/// The acceptor of connections.
pub struct Listener {
    state: ListenerState,
}

impl Listener {
    /// Where the listener stands.
    pub closed spec fn state_spec(&self) -> ListenerState {
        self.state
    }

    /// A listener whose address is not bound yet.
    pub fn new() -> (r: Self)
        ensures
            r.state_spec() == ListenerState::Binding,
    {
        Listener { state: ListenerState::Binding }
    }

    /// Where the listener stands.
    #[verifier::when_used_as_spec(state_spec)]
    pub fn state(&self) -> (r: ListenerState)
        ensures
            r == self.state_spec(),
    {
        self.state
    }

    /// Takes note of how binding went. The listener accepts from then on
    /// where the address was bound, and has failed for good where it was not.
    /// Once binding has been settled this changes nothing, and says again how
    /// it was settled.
    pub fn bound(&mut self, bound: bool) -> (r: Result<(), BindError>)
        ensures
            final(self).state_spec() == after_bind(old(self).state_spec(), bound),
            r is Ok <==> final(self).state_spec() == ListenerState::Accepting,
    {
        if self.state == ListenerState::Binding {
            if bound {
                self.state = ListenerState::Accepting;
            } else {
                self.state = ListenerState::Failed;
            }
        }
        if self.state == ListenerState::Accepting {
            Ok(())
        } else {
            Err(BindError)
        }
    }

    /// Takes note of how an accept went. However it went, the listener
    /// stands as before: an accept that fails never ends it.
    pub fn accepted(&self, accepted: bool) -> (r: AcceptStep)
        ensures
            r == accept_step(self.state_spec(), accepted),
    {
        if self.state != ListenerState::Accepting {
            AcceptStep::Stop
        } else if accepted {
            AcceptStep::Spawn
        } else {
            AcceptStep::Retry
        }
    }
}

} // verus!
