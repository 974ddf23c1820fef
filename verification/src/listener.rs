//! The listener: binding once and accepting connections, as a state machine.
//!
//! Like the worker, the listener does no input or output. It says what is to
//! be done next; whoever owns the listening socket does it and hands back
//! what happened.
use vstd::prelude::*;

verus! {

/// Where a listener stands.
#[derive(Debug, Clone, Copy, PartialEq, Eq, Structural)]
pub enum ListenerState {
    /// Not bound yet.
    Unbound,
    /// Bound, and waiting for the next connection.
    Accepting,
    /// Holding a connection that was accepted and is to be handed to a
    /// worker of its own.
    Dispatching,
    /// Serving has ended.
    Stopped,
}

/// What the owner of the listening socket is to do next.
#[derive(Debug, Clone, Copy, PartialEq, Eq, Structural)]
pub enum ListenerAction {
    /// Bind the address. This is tried once.
    Bind,
    /// Accept one connection.
    Accept,
    /// Start a worker for the accepted connection, and do not wait for it.
    Dispatch,
    /// Stop serving.
    Stop,
}

/// The outcome of an action.
#[derive(Debug, Clone, Copy, PartialEq, Eq, Structural)]
pub enum ListenerEvent {
    /// The address is bound.
    Bound,
    /// The address could not be bound.
    BindFailed,
    /// A connection was accepted.
    Accepted,
    /// Accepting ended in an error.
    AcceptFailed,
    /// The worker for the accepted connection was started.
    Dispatched,
}

/// Why serving has ended before its time.
#[derive(Debug, Clone, Copy, PartialEq, Eq, Structural)]
pub enum ListenerError {
    /// The address was not available. There is no second try and no other
    /// port.
    Bind,
    /// Accepting a connection failed. No kind of error is passed over.
    Accept,
}

/// The action that a state waits for.
pub open spec fn listener_action_for(state: ListenerState) -> ListenerAction {
    match state {
        ListenerState::Unbound => ListenerAction::Bind,
        ListenerState::Accepting => ListenerAction::Accept,
        ListenerState::Dispatching => ListenerAction::Dispatch,
        ListenerState::Stopped => ListenerAction::Stop,
    }
}

/// What a listener is.
pub struct ListenerView {
    pub state: ListenerState,
    /// How many connections are still to be accepted; `None` for no limit.
    pub remaining: Option<nat>,
    pub error: Option<ListenerError>,
}

impl ListenerView {
    /// A listener that is to accept `max_connections` connections and then
    /// stop, or to go on for ever where that is `None`.
    pub open spec fn initial(max_connections: Option<nat>) -> ListenerView {
        ListenerView { state: ListenerState::Unbound, remaining: max_connections, error: None }
    }

    /// The state in which a listener goes on after binding or dispatching:
    /// it accepts again unless it has had all its connections.
    pub open spec fn resume(remaining: Option<nat>) -> ListenerState {
        if remaining == Some(0nat) {
            ListenerState::Stopped
        } else {
            ListenerState::Accepting
        }
    }

    /// The listener after it stopped for `error`.
    pub open spec fn failed(self, error: ListenerError) -> ListenerView {
        ListenerView { state: ListenerState::Stopped, error: Some(error), ..self }
    }

    /// The listener after `event`. An event that is no outcome of the action
    /// that the listener waits for changes nothing.
    pub open spec fn step(self, event: ListenerEvent) -> ListenerView {
        match (self.state, event) {
            (ListenerState::Unbound, ListenerEvent::Bound) => ListenerView {
                state: Self::resume(self.remaining),
                ..self
            },
            (ListenerState::Unbound, ListenerEvent::BindFailed) => self.failed(ListenerError::Bind),
            (ListenerState::Accepting, ListenerEvent::Accepted) => ListenerView {
                state: ListenerState::Dispatching,
                ..self
            },
            (ListenerState::Accepting, ListenerEvent::AcceptFailed) => self.failed(
                ListenerError::Accept,
            ),
            (ListenerState::Dispatching, ListenerEvent::Dispatched) => {
                let remaining = match self.remaining {
                    Some(n) => Some((n - 1) as nat),
                    None => None,
                };
                ListenerView { state: Self::resume(remaining), remaining, ..self }
            },
            _ => self,
        }
    }

    /// The listener after a sequence of events, taken in order.
    pub open spec fn run(self, events: Seq<ListenerEvent>) -> ListenerView
        decreases events.len(),
    {
        if events.len() == 0 {
            self
        } else {
            self.step(events.first()).run(events.drop_first())
        }
    }

    /// What holds of a listener at all times: an error has stopped it, and
    /// while it accepts or dispatches it has connections left to take.
    pub open spec fn consistent(self) -> bool {
        &&& self.error is Some ==> self.state == ListenerState::Stopped
        &&& self.state == ListenerState::Accepting || self.state == ListenerState::Dispatching
            ==> self.remaining != Some(0nat)
    }
}

/// The events of `connections` connections that are accepted and dispatched
/// one after the other.
pub open spec fn served(connections: nat) -> Seq<ListenerEvent>
    decreases connections,
{
    if connections == 0 {
        Seq::empty()
    } else {
        seq![ListenerEvent::Accepted, ListenerEvent::Dispatched] + served(
            (connections - 1) as nat,
        )
    }
}

/// The listener of a server.
#[derive(Debug, Clone, Copy)]
pub struct Listener {
    state: ListenerState,
    remaining: Option<u64>,
    error: Option<ListenerError>,
}

impl View for Listener {
    type V = ListenerView;

    closed spec fn view(&self) -> ListenerView {
        ListenerView {
            state: self.state,
            remaining: match self.remaining {
                Some(n) => Some(n as nat),
                None => None,
            },
            error: self.error,
        }
    }
}

/// `max_connections` as a number without bound.
pub open spec fn limit_view(max_connections: Option<u64>) -> Option<nat> {
    match max_connections {
        Some(n) => Some(n as nat),
        None => None,
    }
}

impl Listener {
    #[verifier::type_invariant]
    spec fn well_formed(&self) -> bool {
        self@.consistent()
    }

    /// A listener that stops by itself after `max_connections` connections.
    /// With `None` it never does: it accepts until accepting fails.
    pub fn new(max_connections: Option<u64>) -> (listener: Self)
        ensures
            listener@ == ListenerView::initial(limit_view(max_connections)),
            listener@.consistent(),
    {
        Listener { state: ListenerState::Unbound, remaining: max_connections, error: None }
    }

    /// Where the listener stands.
    pub fn state(&self) -> (state: ListenerState)
        ensures
            state == self@.state,
            self@.consistent(),
    {
        proof {
            use_type_invariant(self);
        }
        self.state
    }

    /// What is to be done next for this listener.
    pub fn action(&self) -> (action: ListenerAction)
        ensures
            action == listener_action_for(self@.state),
    {
        match self.state {
            ListenerState::Unbound => ListenerAction::Bind,
            ListenerState::Accepting => ListenerAction::Accept,
            ListenerState::Dispatching => ListenerAction::Dispatch,
            ListenerState::Stopped => ListenerAction::Stop,
        }
    }

    /// How many connections are still to be accepted; `None` for no limit.
    pub fn remaining(&self) -> (remaining: Option<u64>)
        ensures
            limit_view(remaining) == self@.remaining,
    {
        self.remaining
    }

    /// Why serving ended before its time, if it did.
    pub fn error(&self) -> (error: Option<ListenerError>)
        ensures
            error == self@.error,
            error is Some ==> self@.state == ListenerState::Stopped,
    {
        proof {
            use_type_invariant(self);
        }
        self.error
    }

    /// Takes the outcome of the action that was performed for the listener.
    pub fn step(&mut self, event: ListenerEvent)
        ensures
            final(self)@ == old(self)@.step(event),
            final(self)@.consistent(),
    {
        proof {
            use_type_invariant(&*self);
            lemma_listener_step_keeps_consistent(self@, event);
        }
        match (self.state, event) {
            (ListenerState::Unbound, ListenerEvent::Bound) => {
                *self = Listener { state: Self::resume(self.remaining), ..*self };
            },
            (ListenerState::Unbound, ListenerEvent::BindFailed) => {
                *self = Listener {
                    state: ListenerState::Stopped,
                    error: Some(ListenerError::Bind),
                    ..*self
                };
            },
            (ListenerState::Accepting, ListenerEvent::Accepted) => {
                *self = Listener { state: ListenerState::Dispatching, ..*self };
            },
            (ListenerState::Accepting, ListenerEvent::AcceptFailed) => {
                *self = Listener {
                    state: ListenerState::Stopped,
                    error: Some(ListenerError::Accept),
                    ..*self
                };
            },
            (ListenerState::Dispatching, ListenerEvent::Dispatched) => {
                let remaining = match self.remaining {
                    Some(n) => Some(n - 1),
                    None => None,
                };
                *self = Listener { state: Self::resume(remaining), remaining, ..*self };
            },
            _ => {},
        }
    }

    fn resume(remaining: Option<u64>) -> (state: ListenerState)
        ensures
            state == ListenerView::resume(limit_view(remaining)),
    {
        match remaining {
            Some(0) => ListenerState::Stopped,
            _ => ListenerState::Accepting,
        }
    }
}

/// No event leads a listener out of what holds at all times.
pub proof fn lemma_listener_step_keeps_consistent(listener: ListenerView, event: ListenerEvent)
    requires
        listener.consistent(),
    ensures
        listener.step(event).consistent(),
{
}

/// Taking two sequences of events one after the other is taking their
/// concatenation.
pub proof fn lemma_listener_run_concat(
    listener: ListenerView,
    first: Seq<ListenerEvent>,
    second: Seq<ListenerEvent>,
)
    ensures
        listener.run(first + second) == listener.run(first).run(second),
    decreases first.len(),
{
    if first.len() == 0 {
        assert(first + second =~= second);
    } else {
        let all = first + second;
        assert(all.first() == first.first());
        assert(all.drop_first() =~= first.drop_first() + second);
        lemma_listener_run_concat(listener.step(first.first()), first.drop_first(), second);
    }
}

/// A listener that has stopped stays as it is.
pub proof fn lemma_stopped_is_final(listener: ListenerView, events: Seq<ListenerEvent>)
    requires
        listener.state == ListenerState::Stopped,
    ensures
        listener.run(events) == listener,
    decreases events.len(),
{
    if events.len() > 0 {
        lemma_stopped_is_final(listener, events.drop_first());
    }
}

/// A failure to bind and a failure to accept both end serving for good,
/// whatever comes after.
pub proof fn lemma_errors_are_fatal(listener: ListenerView, later: Seq<ListenerEvent>)
    ensures
        listener.state == ListenerState::Unbound ==> listener.step(ListenerEvent::BindFailed).run(
            later,
        ) == listener.failed(ListenerError::Bind),
        listener.state == ListenerState::Accepting ==> listener.step(
            ListenerEvent::AcceptFailed,
        ).run(later) == listener.failed(ListenerError::Accept),
{
    lemma_stopped_is_final(listener.failed(ListenerError::Bind), later);
    lemma_stopped_is_final(listener.failed(ListenerError::Accept), later);
}

/// What a bound listener has come to after `connections` connections were
/// accepted and dispatched: one without a limit accepts on, however many
/// there were; one with a limit accepts on with that many fewer to go, until
/// it has had them all and stops, without an error.
pub proof fn lemma_served(listener: ListenerView, connections: nat)
    requires
        listener.state == ListenerState::Accepting,
        listener.remaining matches Some(n) ==> connections <= n,
    ensures
        listener.run(served(connections)) == match listener.remaining {
            None => listener,
            Some(n) => if connections == 0 {
                listener
            } else {
                ListenerView {
                    state: ListenerView::resume(Some((n - connections) as nat)),
                    remaining: Some((n - connections) as nat),
                    ..listener
                }
            },
        },
    decreases connections,
{
    if connections > 0 {
        let round = seq![ListenerEvent::Accepted, ListenerEvent::Dispatched];
        let next = listener.step(ListenerEvent::Accepted).step(ListenerEvent::Dispatched);
        assert(round.drop_first() =~= seq![ListenerEvent::Dispatched]);
        assert(round.drop_first().drop_first() =~= Seq::<ListenerEvent>::empty());
        assert(listener.run(round) == next) by {
            reveal_with_fuel(ListenerView::run, 3);
        }
        lemma_listener_run_concat(listener, round, served((connections - 1) as nat));
        if next.state == ListenerState::Accepting {
            lemma_served(next, (connections - 1) as nat);
        } else {
            lemma_stopped_is_final(next, served((connections - 1) as nat));
        }
    }
}

} // verus!
