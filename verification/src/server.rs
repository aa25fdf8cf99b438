use crate::protocol::results::TextField;
use crate::text::text_equals;
use vstd::prelude::*;

verus! {

/// Whether a server keeps accepting clients.
#[derive(Clone, Copy, Debug, PartialEq, Eq)]
pub struct ServerLifecycle {
    pub alive: bool,
}

impl ServerLifecycle {
    pub fn new() -> (r: ServerLifecycle)
        ensures
            r.alive,
    {
        ServerLifecycle { alive: true }
    }
}

/// Stops the server; says whether it was still running (so that a second request
/// can force an immediate exit).
pub fn kill(lifecycle: &mut ServerLifecycle) -> (was_alive: bool)
    ensures
        was_alive == old(lifecycle).alive,
        !final(lifecycle).alive,
{
    let was_alive = lifecycle.alive;
    lifecycle.alive = false;
    was_alive
}

/// Whether the server is still running.
pub fn is_alive(lifecycle: &ServerLifecycle) -> (r: bool)
    ensures
        r == lifecycle.alive,
{
    lifecycle.alive
}

/// What a message from a client asks of the server, by its `kind` field.
#[derive(Clone, Copy, Debug, PartialEq, Eq)]
pub enum ClientMessage {
    /// The client describes a test: prepare its streams.
    Configuration,
    /// The client is ready: start the streams.
    Begin,
    /// The client is done.
    End,
    /// Anything else, or no kind: the server drops the client.
    Invalid,
}

pub fn classify_client_message(kind: &TextField) -> (r: ClientMessage)
    requires
        !(*kind is NotText),
    ensures
        match *kind {
            TextField::Text(k) => r == (if k@ == "configuration"@ {
                ClientMessage::Configuration
            } else if k@ == "begin"@ {
                ClientMessage::Begin
            } else if k@ == "end"@ {
                ClientMessage::End
            } else {
                ClientMessage::Invalid
            }),
            _ => r == ClientMessage::Invalid,
        },
{
    match kind {
        TextField::Text(k) => {
            let k = k.as_str();
            if text_equals(k, "configuration") {
                ClientMessage::Configuration
            } else if text_equals(k, "begin") {
                ClientMessage::Begin
            } else if text_equals(k, "end") {
                ClientMessage::End
            } else {
                ClientMessage::Invalid
            }
        },
        _ => ClientMessage::Invalid,
    }
}

/// Whether a configuration asks the server to receive (its `role` is "download",
/// which is also what a missing role means) rather than to send.
pub fn is_download_role(role: &TextField) -> (r: bool)
    requires
        !(*role is NotText),
    ensures
        r == match *role {
            TextField::Text(k) => k@ == "download"@,
            _ => true,
        },
{
    match role {
        TextField::Text(k) => text_equals(k.as_str(), "download"),
        _ => true,
    }
}

/// Whether a configuration is for a UDP test (its `family` is "udp"; a missing
/// family means TCP).
pub fn is_udp_family(family: &TextField) -> (r: bool)
    requires
        !(*family is NotText),
    ensures
        r == match *family {
            TextField::Text(k) => k@ == "udp"@,
            _ => false,
        },
{
    match family {
        TextField::Text(k) => text_equals(k.as_str(), "udp"),
        _ => false,
    }
}

/// What the server does on a client's begin-signal.
#[derive(Clone, Copy, Debug, PartialEq, Eq)]
pub enum BeginAction {
    /// Start the test streams.
    StartStreams,
    /// The streams were started already: drop the client.
    Duplicate,
}

/// The first begin-signal starts the streams; any later one is a protocol error.
pub fn on_begin(started: &mut bool) -> (r: BeginAction)
    ensures
        !*old(started) ==> r == BeginAction::StartStreams,
        *old(started) ==> r == BeginAction::Duplicate,
        *final(started),
{
    if !*started {
        *started = true;
        BeginAction::StartStreams
    } else {
        BeginAction::Duplicate
    }
}

/// Whether a server with `active` clients takes one more: a limit of zero means
/// no limit; over the limit a new client is disconnected at once.
pub fn admits_client(active: usize, limit: usize) -> (r: bool)
    ensures
        r == (limit == 0 || active < limit),
{
    limit == 0 || active < limit
}

} // verus!
