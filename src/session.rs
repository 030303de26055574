//! The life of one viewer's session, `Connected -> Streaming -> Closed`, as
//! a function from state and event to next state and action. The caller
//! performs the action (registering, sending, unsubscribing) and reports
//! what happened as the next event.

use vstd::prelude::*;
use crate::hub::Cadence;

verus! {

/// Where a session stands.
#[derive(Clone, Copy, Debug, PartialEq, Eq, Structural)]
pub enum Phase {
    Connected,
    Streaming,
    Closed,
}

/// What happened to a session.
#[derive(Clone, Copy, Debug, PartialEq, Eq, Structural)]
pub enum SessionEvent {
    /// The viewer is ready to receive updates.
    Start,
    /// The hub registered the session under `id`.
    Registered { id: u64 },
    /// The hub could not register the session.
    RegistrationRefused,
    /// A notification or a tick arrived.
    Notified,
    /// The transport could not send.
    SendFailed,
    /// The transport's inbound stream ended or failed.
    InboundEnded,
    /// The process is shutting down.
    Shutdown,
}

/// What the caller is to do next.
#[derive(Clone, Copy, Debug, PartialEq, Eq, Structural)]
pub enum SessionAction {
    Nothing,
    /// Register with the hub under this cadence.
    Register { cadence: Cadence },
    /// Take a snapshot of the table and send it.
    SendSnapshot,
    /// Remove the subscription `id` from the hub.
    Unsubscribe { id: u64 },
}

/// A session: its phase, its cadence, and the subscription it holds.
#[derive(Clone, Copy, Debug, PartialEq, Eq, Structural)]
pub struct Session {
    pub phase: Phase,
    pub cadence: Cadence,
    pub subscription: Option<u64>,
}

/// `s` closed, with its subscription released.
pub open spec fn closed(s: Session) -> Session {
    Session { phase: Phase::Closed, cadence: s.cadence, subscription: None }
}

/// The action that releases the subscription of `s`, if it holds one.
pub open spec fn release(s: Session) -> SessionAction {
    match s.subscription {
        Some(id) => SessionAction::Unsubscribe { id },
        None => SessionAction::Nothing,
    }
}

/// The next state and action of session `s` on event `e`.
pub open spec fn session_step(s: Session, e: SessionEvent) -> (Session, SessionAction) {
    match s.phase {
        Phase::Connected => match e {
            SessionEvent::Start => (
                Session { phase: Phase::Streaming, cadence: s.cadence, subscription: None },
                SessionAction::Register { cadence: s.cadence },
            ),
            SessionEvent::Registered { id } => (s, SessionAction::Unsubscribe { id }),
            SessionEvent::Notified => (s, SessionAction::Nothing),
            _ => (closed(s), SessionAction::Nothing),
        },
        Phase::Streaming => match e {
            SessionEvent::Registered { id } => if s.subscription is None {
                (
                    Session { phase: Phase::Streaming, cadence: s.cadence, subscription: Some(id) },
                    SessionAction::Nothing,
                )
            } else {
                (s, SessionAction::Unsubscribe { id })
            },
            SessionEvent::Notified => if s.subscription is Some {
                (s, SessionAction::SendSnapshot)
            } else {
                (s, SessionAction::Nothing)
            },
            SessionEvent::Start => (s, SessionAction::Nothing),
            _ => (closed(s), release(s)),
        },
        Phase::Closed => match e {
            SessionEvent::Registered { id } => (s, SessionAction::Unsubscribe { id }),
            _ => (s, SessionAction::Nothing),
        },
    }
}

impl Session {
    /// A freshly connected session that will subscribe under `cadence`.
    pub fn new(cadence: Cadence) -> (s: Session)
        ensures
            s == (Session { phase: Phase::Connected, cadence, subscription: None }),
    {
        Session { phase: Phase::Connected, cadence, subscription: None }
    }

    /// Moves the session on `event` and returns what the caller is to do.
    pub fn step(&mut self, event: SessionEvent) -> (a: SessionAction)
        ensures
            (*final(self), a) == session_step(*old(self), event),
    {
        match self.phase {
            Phase::Connected => match event {
                SessionEvent::Start => {
                    self.phase = Phase::Streaming;
                    self.subscription = None;
                    SessionAction::Register { cadence: self.cadence }
                },
                SessionEvent::Registered { id } => SessionAction::Unsubscribe { id },
                SessionEvent::Notified => SessionAction::Nothing,
                _ => {
                    self.phase = Phase::Closed;
                    self.subscription = None;
                    SessionAction::Nothing
                },
            },
            Phase::Streaming => match event {
                SessionEvent::Registered { id } => {
                    if self.subscription.is_none() {
                        self.subscription = Some(id);
                        SessionAction::Nothing
                    } else {
                        SessionAction::Unsubscribe { id }
                    }
                },
                SessionEvent::Notified => {
                    if self.subscription.is_some() {
                        SessionAction::SendSnapshot
                    } else {
                        SessionAction::Nothing
                    }
                },
                SessionEvent::Start => SessionAction::Nothing,
                _ => {
                    let action = match self.subscription {
                        Some(id) => SessionAction::Unsubscribe { id },
                        None => SessionAction::Nothing,
                    };
                    self.phase = Phase::Closed;
                    self.subscription = None;
                    action
                },
            },
            Phase::Closed => match event {
                SessionEvent::Registered { id } => SessionAction::Unsubscribe { id },
                _ => SessionAction::Nothing,
            },
        }
    }
}

/// A streaming session that holds subscription `id` releases it on the event
/// that closes it, and never again: no later event but a fresh registration
/// asks to unsubscribe.
pub proof fn lemma_release_once(s: Session, id: u64, closing: SessionEvent, later: SessionEvent)
    requires
        s.phase is Streaming,
        s.subscription == Some(id),
        closing is SendFailed || closing is InboundEnded || closing is Shutdown,
        !(later is Registered),
    ensures
        session_step(s, closing).1 == (SessionAction::Unsubscribe { id }),
        session_step(s, closing).0.phase is Closed,
        session_step(session_step(s, closing).0, later).1 == SessionAction::Nothing,
{
}

} // verus!
