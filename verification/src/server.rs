//! Server-level state and commands: connection state, the status page and
//! shutdown.
use vstd::prelude::*;
use vstd::string::StringExecFns;
use crate::message::{message_type, Message};
use crate::text::{decimal, push_decimal, text_eq};

verus! {

/// Whether a client is connected.
#[derive(PartialEq, Eq, Structural, Clone, Copy, Debug)]
pub enum ServerState {
    Connected,
    Disconnected,
}

/// The name of a state, as `{:?}` prints it.
pub open spec fn state_name(s: ServerState) -> Seq<char> {
    match s {
        ServerState::Connected => "Connected"@,
        ServerState::Disconnected => "Disconnected"@,
    }
}

impl ServerState {
    /// `"Connected"` or `"Disconnected"`.
    pub fn name(&self) -> (res: String)
        ensures
            res@ == state_name(*self),
    {
        match self {
            ServerState::Connected => "Connected".to_owned(),
            ServerState::Disconnected => "Disconnected".to_owned(),
        }
    }
}

/// The status page: the connection state and how many tasks the lists hold.
pub open spec fn status_text(state: ServerState, items: nat) -> Seq<char> {
    "state: "@ + state_name(state) + " \n todo items: "@ + decimal(items)
}

/// Renders the status page.
pub fn status_report(state: ServerState, items: usize) -> (res: String)
    ensures
        res@ == status_text(state, items as nat),
{
    let mut s = "state: ".to_owned().concat(state.name().as_str()).concat(" \n todo items: ");
    push_decimal(&mut s, items as u64);
    s
}

/// What a server command asks for.
pub enum ServerAction {
    /// Tell the sender and every client `notice`, stop the server, wait
    /// `grace_ms` milliseconds, then drop the connection.
    Shutdown { notice: String, grace_ms: u64 },
    /// Nothing.
    Nothing,
}

/// The notice sent before the server stops.
pub open spec fn shutdown_notice() -> Seq<char> {
    "Server shutting down..."@
}

/// Whether a message type belongs to the server service.
pub open spec fn is_server_type(t: Seq<char>) -> bool {
    t == "shutdown"@
}

/// Whether `t` is one of the server message types.
pub fn is_message_type(t: &str) -> (res: bool)
    ensures
        res == is_server_type(t@),
{
    text_eq(t, "shutdown")
}

/// Takes a server message: `shutdown` stops the server after a short grace period.
pub fn handle_message(msg: &Message) -> (res: ServerAction)
    ensures
        match res {
            ServerAction::Shutdown { notice, grace_ms } => message_type(*msg) == Some("shutdown"@)
                && notice@ == shutdown_notice() && grace_ms == 500,
            ServerAction::Nothing => message_type(*msg) != Some("shutdown"@),
        },
{
    match msg.text("type") {
        Some(t) => if text_eq(t.as_str(), "shutdown") {
            ServerAction::Shutdown { notice: "Server shutting down...".to_owned(), grace_ms: 500 }
        } else {
            ServerAction::Nothing
        },
        None => ServerAction::Nothing,
    }
}

/// The text a broadcast timer sends to every client.
pub open spec fn greeting_text(name: Seq<char>) -> Seq<char> {
    "Server broadcast: Hello from server to all WebSocket clients ("@ + name + ")!"@
}

/// The greeting broadcast for the timer called `name`.
pub fn greeting(name: &str) -> (res: String)
    ensures
        res@ == greeting_text(name@),
{
    "Server broadcast: Hello from server to all WebSocket clients (".to_owned().concat(name).concat(")!")
}

} // verus!
