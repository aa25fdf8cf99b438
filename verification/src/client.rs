use crate::args::Format;
use crate::protocol::results::{unfinished_below, TestResults, TextField};
use crate::text::text_equals;
use vstd::prelude::*;

verus! {

/// Once its own streams are done, a client gives the server this many seconds to
/// report the rest of its results.
pub const KILL_TIMEOUT: u64 = 5;

/// Whether a client keeps running: it runs until killed, or until a kill timer
/// that was started runs out.
#[derive(Clone, Copy, Debug, PartialEq, Eq)]
pub struct ClientLifecycle {
    pub alive: bool,
    /// The UNIX time, in seconds, at which the client stops; zero when no timer runs.
    pub kill_timer: u64,
}

impl ClientLifecycle {
    pub fn new() -> (r: ClientLifecycle)
        ensures
            r.alive,
            r.kill_timer == 0,
    {
        ClientLifecycle { alive: true, kill_timer: 0 }
    }
}

/// Stops the client; says whether it was still running (so that a second request
/// can force an immediate exit).
pub fn kill(lifecycle: &mut ClientLifecycle) -> (was_alive: bool)
    ensures
        was_alive == old(lifecycle).alive,
        !final(lifecycle).alive,
        final(lifecycle).kill_timer == old(lifecycle).kill_timer,
{
    let was_alive = lifecycle.alive;
    lifecycle.alive = false;
    was_alive
}

/// Starts a timer that stops the client `timeout` seconds after `now_secs`.
pub fn start_kill_timer(lifecycle: &mut ClientLifecycle, now_secs: u64, timeout: u64)
    requires
        now_secs + timeout <= u64::MAX,
    ensures
        final(lifecycle).kill_timer == now_secs + timeout,
        final(lifecycle).alive == old(lifecycle).alive,
{
    lifecycle.kill_timer = now_secs + timeout;
}

/// Whether the client is still running at UNIX time `now_secs`.
pub fn is_alive(lifecycle: &ClientLifecycle, now_secs: u64) -> (r: bool)
    ensures
        r == (lifecycle.alive && !(lifecycle.kill_timer != 0 && now_secs >= lifecycle.kill_timer)),
{
    if lifecycle.kill_timer != 0 {
        if now_secs >= lifecycle.kill_timer {
            return false;
        }
    }
    lifecycle.alive
}

/// How results are shown: as one JSON document at the end, or as text as they
/// come, in bits or in bytes.
#[derive(Clone, Copy, Debug, PartialEq, Eq)]
pub struct DisplayMode {
    pub json: bool,
    pub bit: bool,
}

pub fn display_mode(format: Format) -> (r: DisplayMode)
    ensures
        r == (match format {
            Format::Json => DisplayMode { json: true, bit: false },
            Format::Megabit => DisplayMode { json: false, bit: true },
            Format::Megabyte => DisplayMode { json: false, bit: false },
        }),
{
    match format {
        Format::Json => DisplayMode { json: true, bit: false },
        Format::Megabit => DisplayMode { json: false, bit: true },
        Format::Megabyte => DisplayMode { json: false, bit: false },
    }
}

/// What a client does once one of its own streams has finished.
#[derive(Clone, Copy, Debug, PartialEq, Eq)]
pub enum ClientCompletion {
    /// Other streams are still running.
    Continue,
    /// All of the client's streams are done, but the server has results to send:
    /// give it a few seconds.
    StartKillTimer,
    /// Everything is in from both sides: stop.
    Kill,
}

pub proof fn lemma_unfinished_below_finish(prepared: Set<u8>, finished: Set<u8>, idx: u8, n: int)
    ensures
        unfinished_below(prepared, finished.insert(idx), n) <= unfinished_below(
            prepared,
            finished,
            n,
        ),
    decreases n,
{
    if n > 0 {
        lemma_unfinished_below_finish(prepared, finished, idx, n - 1);
    }
}

/// Records that one of the client's own streams finished (`success` tells how),
/// and decides what follows: once no stream of the client is pending, the client
/// stops when the server has reported every stream, and otherwise waits a little
/// for it.
pub fn on_client_stream_finished<T: TestResults>(results: &mut T, idx: u8, success: bool) -> (r:
    ClientCompletion)
    requires
        unfinished_below(old(results).prepared_streams(), old(results).server_finished_streams(), 256)
            < 256,
    ensures
        final(results).pending_streams() == old(results).pending_streams().remove(idx),
        final(results).failed_streams() == (if success {
            old(results).failed_streams()
        } else {
            old(results).failed_streams().insert(idx)
        }),
        final(results).prepared_streams() == old(results).prepared_streams(),
        final(results).server_finished_streams() == old(results).server_finished_streams(),
        final(results).pending_streams().len() as u8 != 0 ==> r == ClientCompletion::Continue,
        final(results).pending_streams().len() as u8 == 0 ==> r == (if unfinished_below(
            final(results).prepared_streams(),
            final(results).server_finished_streams(),
            256,
        ) > 0 {
            ClientCompletion::StartKillTimer
        } else {
            ClientCompletion::Kill
        }),
{
    results.mark_stream_done(&idx, success);
    if results.count_in_progress_streams() == 0 {
        if results.count_in_progress_streams_server() > 0 {
            ClientCompletion::StartKillTimer
        } else {
            ClientCompletion::Kill
        }
    } else {
        ClientCompletion::Continue
    }
}

/// Records that the server reported stream `idx` (taken modulo 256) finished, as
/// failed where `failed`; says whether everything is now in from both sides, so
/// that the client stops.
pub fn on_server_stream_finished<T: TestResults>(results: &mut T, idx: i64, failed: bool) -> (stop:
    bool)
    requires
        unfinished_below(old(results).prepared_streams(), old(results).server_finished_streams(), 256)
            < 256,
    ensures
        final(results).pending_streams() == (if failed {
            old(results).pending_streams().remove(idx as u8)
        } else {
            old(results).pending_streams()
        }),
        final(results).failed_streams() == (if failed {
            old(results).failed_streams().insert(idx as u8)
        } else {
            old(results).failed_streams()
        }),
        final(results).server_finished_streams() == old(results).server_finished_streams().insert(
            idx as u8,
        ),
        final(results).prepared_streams() == old(results).prepared_streams(),
        stop == (final(results).pending_streams().len() as u8 == 0 && unfinished_below(
            final(results).prepared_streams(),
            final(results).server_finished_streams(),
            256,
        ) == 0),
{
    let i = idx as u8;
    if failed {
        results.mark_stream_done(&i, false);
    }
    results.mark_stream_done_server(&i);
    proof {
        lemma_unfinished_below_finish(
            results.prepared_streams(),
            old(results).server_finished_streams(),
            i,
            256,
        );
    }
    results.count_in_progress_streams() == 0 && results.count_in_progress_streams_server() == 0
}

/// What a message from the server asks of the client, by its `kind` field.
#[derive(Clone, Copy, Debug, PartialEq, Eq)]
pub enum ServerMessage {
    /// The server's receivers are ready: connect the senders to these ports.
    Connect,
    /// The server is ready to connect to the client's receivers.
    ConnectReady,
    /// A receive result of the server's.
    Receive,
    /// A send result of the server's.
    Send,
    /// A stream of the server's finished.
    Done,
    /// A stream of the server's failed.
    Failed,
    /// A kind that the client does not know (a kind that is not text counts as empty).
    Unknown,
    /// The message has no kind.
    NoKind,
}

pub fn classify_server_message(kind: &TextField) -> (r: ServerMessage)
    ensures
        match *kind {
            TextField::Absent => r == ServerMessage::NoKind,
            TextField::NotText => r == ServerMessage::Unknown,
            TextField::Text(k) => r == (if k@ == "connect"@ {
                ServerMessage::Connect
            } else if k@ == "connect-ready"@ {
                ServerMessage::ConnectReady
            } else if k@ == "receive"@ {
                ServerMessage::Receive
            } else if k@ == "send"@ {
                ServerMessage::Send
            } else if k@ == "done"@ {
                ServerMessage::Done
            } else if k@ == "failed"@ {
                ServerMessage::Failed
            } else {
                ServerMessage::Unknown
            }),
        },
{
    match kind {
        TextField::Absent => ServerMessage::NoKind,
        TextField::NotText => ServerMessage::Unknown,
        TextField::Text(k) => {
            let k = k.as_str();
            if text_equals(k, "connect") {
                ServerMessage::Connect
            } else if text_equals(k, "connect-ready") {
                ServerMessage::ConnectReady
            } else if text_equals(k, "receive") {
                ServerMessage::Receive
            } else if text_equals(k, "send") {
                ServerMessage::Send
            } else if text_equals(k, "done") {
                ServerMessage::Done
            } else if text_equals(k, "failed") {
                ServerMessage::Failed
            } else {
                ServerMessage::Unknown
            }
        },
    }
}

} // verus!
