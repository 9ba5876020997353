//! The connection supervisor: the client-side state machine that keeps one
//! TCP session alive across three failure domains — WiFi association,
//! discovery timing, and TCP reachability.
//!
//! The supervisor never performs I/O. Each call of [`Supervisor::step`]
//! takes one observed event and answers with the next action the driving
//! loop should perform: keep listening, attempt a connect, sleep a fixed
//! backoff and retry, request WiFi re-association, or read the open
//! session. The machine has no terminal state: every event maps to a next
//! state and an action, so connect failures and session ends are retried
//! indefinitely against the last discovered endpoint and nothing is ever
//! escalated.

use vstd::prelude::*;
use crate::codec::Endpoint;

verus! {

/// The client's connection lifecycle state.
#[derive(Clone, Copy, Debug, PartialEq, Eq, Structural)]
pub enum ConnState {
    /// Waiting for the first valid discovery datagram.
    Discovering,
    /// An endpoint is known; trying to open a TCP session to it.
    Connecting,
    /// A TCP session is open and being read.
    Connected,
    /// The WiFi link was observed down; waiting on re-association.
    LinkDown,
}

/// One observation the driving loop hands to the supervisor.
#[derive(Clone, Copy, Debug, PartialEq, Eq, Structural)]
pub enum Event {
    /// Discovery completed with a valid endpoint.
    Discovered(Endpoint),
    /// A TCP connect attempt succeeded.
    ConnectOk,
    /// A TCP connect attempt failed (refused, timed out, unreachable).
    ConnectFailed,
    /// The WiFi link check before a retry found the link down.
    LinkLost,
    /// WiFi re-association completed (or its fixed delay elapsed).
    LinkRestored,
    /// The open session ended: read error or clean peer close.
    SessionEnded,
}

/// What the driving loop performs next. There is no halting action: the
/// supervisor runs for the life of the process.
#[derive(Clone, Copy, Debug, PartialEq, Eq, Structural)]
pub enum Action {
    /// Block on the discovery socket for the next datagram.
    AwaitDiscovery,
    /// Attempt a TCP connect to the current endpoint now.
    AttemptConnect,
    /// Sleep the fixed backoff, then attempt a TCP connect again.
    BackoffRetry,
    /// Request WiFi re-association.
    Reassociate,
    /// Read the next line of the open session.
    ReadSession,
}

/// The supervisor's whole state: lifecycle state plus the last discovered
/// endpoint. Nothing is persisted; a process restart rebuilds it from
/// `new`.
pub struct Supervisor {
    pub state: ConnState,
    pub endpoint: Option<Endpoint>,
}

/// Every state but `Discovering` holds an endpoint to connect to.
pub open spec fn wf(s: Supervisor) -> bool {
    s.state != ConnState::Discovering ==> s.endpoint is Some
}

/// The transition table on the full supervisor state. An event that cannot
/// occur in the current state leaves the state unchanged.
pub open spec fn spec_step(s: Supervisor, ev: Event) -> Supervisor {
    match (s.state, ev) {
        (ConnState::Discovering, Event::Discovered(e)) => Supervisor {
            state: ConnState::Connecting,
            endpoint: Some(e),
        },
        (ConnState::Connecting, Event::ConnectOk) => Supervisor {
            state: ConnState::Connected,
            ..s
        },
        (ConnState::Connecting, Event::ConnectFailed) => s,
        (ConnState::Connecting, Event::LinkLost) => Supervisor {
            state: ConnState::LinkDown,
            ..s
        },
        (ConnState::LinkDown, Event::LinkRestored) => Supervisor {
            state: ConnState::Connecting,
            ..s
        },
        (ConnState::Connected, Event::SessionEnded) => Supervisor {
            state: ConnState::Connecting,
            ..s
        },
        _ => s,
    }
}

/// The action each state answers with; only a connect failure asks for the
/// backoff sleep before the next attempt.
pub open spec fn spec_action(s: Supervisor, ev: Event) -> Action {
    if s.state == ConnState::Connecting && ev == Event::ConnectFailed {
        Action::BackoffRetry
    } else {
        match spec_step(s, ev).state {
            ConnState::Discovering => Action::AwaitDiscovery,
            ConnState::Connecting => Action::AttemptConnect,
            ConnState::Connected => Action::ReadSession,
            ConnState::LinkDown => Action::Reassociate,
        }
    }
}

impl Supervisor {
    /// A fresh supervisor: discovering, with no endpoint yet.
    pub fn new() -> (s: Supervisor)
        ensures
            s.state == ConnState::Discovering,
            s.endpoint is None,
            wf(s),
    {
        Supervisor { state: ConnState::Discovering, endpoint: None }
    }

    /// Feeds one event to the machine and returns the next action. The new
    /// state and the action follow the transition table exactly; the
    /// endpoint changes only on a discovery, and well-formedness is kept.
    pub fn step(&mut self, ev: Event) -> (a: Action)
        requires
            wf(*old(self)),
        ensures
            *final(self) == spec_step(*old(self), ev),
            a == spec_action(*old(self), ev),
            wf(*final(self)),
            !(ev matches Event::Discovered(_)) ==> final(self).endpoint == old(self).endpoint,
    {
        match (self.state, ev) {
            (ConnState::Discovering, Event::Discovered(e)) => {
                self.state = ConnState::Connecting;
                self.endpoint = Some(e);
                Action::AttemptConnect
            },
            (ConnState::Connecting, Event::ConnectOk) => {
                self.state = ConnState::Connected;
                Action::ReadSession
            },
            (ConnState::Connecting, Event::ConnectFailed) => Action::BackoffRetry,
            (ConnState::Connecting, Event::LinkLost) => {
                self.state = ConnState::LinkDown;
                Action::Reassociate
            },
            (ConnState::LinkDown, Event::LinkRestored) => {
                self.state = ConnState::Connecting;
                Action::AttemptConnect
            },
            (ConnState::Connected, Event::SessionEnded) => {
                self.state = ConnState::Connecting;
                Action::AttemptConnect
            },
            _ => {
                match self.state {
                    ConnState::Discovering => Action::AwaitDiscovery,
                    ConnState::Connecting => Action::AttemptConnect,
                    ConnState::Connected => Action::ReadSession,
                    ConnState::LinkDown => Action::Reassociate,
                }
            },
        }
    }
}

/// The machine after `n` consecutive connect failures.
pub open spec fn after_failures(s: Supervisor, n: nat) -> Supervisor
    decreases n,
{
    if n == 0 {
        s
    } else {
        spec_step(after_failures(s, (n - 1) as nat), Event::ConnectFailed)
    }
}

/// Retry never terminates on connect failure: however many consecutive
/// connect failures a `Connecting` supervisor sees, it is still
/// `Connecting` against the same endpoint, and each failure answers with
/// the backoff-and-retry action — never an exit.
pub proof fn lemma_retry_never_terminates(s: Supervisor, n: nat)
    requires
        s.state == ConnState::Connecting,
    ensures
        after_failures(s, n) == s,
        spec_action(after_failures(s, n), Event::ConnectFailed) == Action::BackoffRetry,
    decreases n,
{
    if n > 0 {
        lemma_retry_never_terminates(s, (n - 1) as nat);
    }
}

/// A session boundary triggers reconnect, not a crash: a `Connected`
/// supervisor whose peer closes or errors moves back to `Connecting`,
/// keeps the last known endpoint, and immediately asks for a new connect
/// attempt.
pub proof fn lemma_session_end_reconnects(s: Supervisor)
    requires
        s.state == ConnState::Connected,
    ensures
        spec_step(s, Event::SessionEnded).state == ConnState::Connecting,
        spec_step(s, Event::SessionEnded).endpoint == s.endpoint,
        spec_action(s, Event::SessionEnded) == Action::AttemptConnect,
{
}

} // verus!
