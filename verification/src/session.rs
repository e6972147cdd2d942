//! A client connection: which service takes each message, and when the
//! connection ends.
use vstd::prelude::*;
use crate::message::{message_type, Message};
use crate::server::{is_server_type, ServerState};
use crate::sync::is_sync_type;
use crate::todo::is_todo_type;

verus! {

/// The services that take messages.
#[derive(PartialEq, Eq, Structural, Clone, Copy, Debug)]
pub enum Service {
    Server,
    Todo,
    Sync,
}

/// The service that takes a message type: server commands first, then todo,
/// then sync messages.
pub open spec fn service_for(t: Seq<char>) -> Option<Service> {
    if is_server_type(t) {
        Some(Service::Server)
    } else if is_todo_type(t) {
        Some(Service::Todo)
    } else if is_sync_type(t) {
        Some(Service::Sync)
    } else {
        None
    }
}

/// Picks the service for a message type.
pub fn dispatch(t: &str) -> (res: Option<Service>)
    ensures
        res == service_for(t@),
{
    if crate::server::is_message_type(t) {
        Some(Service::Server)
    } else if crate::todo::is_message_type(t) {
        Some(Service::Todo)
    } else if crate::sync::is_message_type(t) {
        Some(Service::Sync)
    } else {
        None
    }
}

/// Something that happens on a connection.
pub enum SessionEvent {
    /// The client connected.
    Opened,
    /// A text frame; `None` when it is not JSON.
    Text(Option<Message>),
    /// The client closed the connection.
    Closed,
    /// Any other frame.
    Other,
}

/// What the connection does next.
pub enum SessionStep {
    /// Hand the message to this service.
    Handle(Service),
    /// Keep listening.
    Continue,
    /// Stop serving this connection.
    End,
}

/// The state and next step after an event.
pub open spec fn session_spec(before: ServerState, ev: SessionEvent, after: ServerState, step: SessionStep) -> bool {
    match ev {
        SessionEvent::Opened => after == ServerState::Connected && step is Continue,
        SessionEvent::Closed => after == ServerState::Disconnected && step is End,
        SessionEvent::Other => after == before && step is Continue,
        SessionEvent::Text(m) => after == before && match m {
            Some(m) => match message_type(m) {
                Some(t) => match service_for(t) {
                    Some(s) => step == SessionStep::Handle(s),
                    None => step is Continue,
                },
                None => step is Continue,
            },
            None => step is Continue,
        },
    }
}

/// Takes one connection event.
pub fn session_step(state: &mut ServerState, ev: &SessionEvent) -> (step: SessionStep)
    ensures
        session_spec(*old(state), *ev, *final(state), step),
{
    match ev {
        SessionEvent::Opened => {
            *state = ServerState::Connected;
            SessionStep::Continue
        },
        SessionEvent::Closed => {
            *state = ServerState::Disconnected;
            SessionStep::End
        },
        SessionEvent::Other => SessionStep::Continue,
        SessionEvent::Text(m) => match m {
            Some(m) => match m.text("type") {
                Some(t) => match dispatch(t.as_str()) {
                    Some(s) => SessionStep::Handle(s),
                    None => SessionStep::Continue,
                },
                None => SessionStep::Continue,
            },
            None => SessionStep::Continue,
        },
    }
}

} // verus!
