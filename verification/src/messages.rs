//! What the MIDI thread and the window thread tell each other.
use vstd::prelude::*;

use std::sync::mpsc::Sender;

verus! {

/// How long the MIDI thread sleeps between pings, in milliseconds.
pub const SLEEP_TIME_MILLIS: u64 = 100;

/// How serious a logged line is.
#[derive(Clone, Copy, Debug, PartialEq, Eq, Structural)]
pub enum LogKind {
    Info,
    Warning,
    Error,
}

/// The word a log kind is shown as.
pub open spec fn log_kind_text(k: LogKind) -> Seq<char> {
    match k {
        LogKind::Info => "Info"@,
        LogKind::Warning => "Warning"@,
        LogKind::Error => "Error"@,
    }
}

impl LogKind {
    /// The word this kind is shown as (`Info`, `Warning` or `Error`).
    pub fn to_string(&self) -> (r: String)
        ensures
            r@ == log_kind_text(*self),
    {
        match self {
            LogKind::Info => String::from_str("Info"),
            LogKind::Warning => String::from_str("Warning"),
            LogKind::Error => String::from_str("Error"),
        }
    }
}

/// A line for the on-screen display.
#[derive(Debug)]
pub struct LogMessage {
    pub text: String,
    pub kind: LogKind,
}

/// What the MIDI thread reports to the window.
#[derive(Debug)]
pub enum MidiThreadMessage {
    Log(LogMessage),
    UpdateRack { path: String, enabled: bool, in_keymap: bool },
    UpdateSound { name: String, played: bool },
    Ping,
}

/// What the window asks of the MIDI thread.
#[derive(Clone, Copy, Debug, PartialEq, Eq, Structural)]
pub enum AppThreadMessage {
    CloseThread,
    AssetReload,
}

/// What the MIDI thread does with a request from the window.
#[derive(Debug)]
pub enum ThreadResponse {
    /// Close the MIDI connection and end the thread.
    Close,
    /// Keep running and report this line.
    Report(LogMessage),
}

#[verifier::external_type_specification]
#[verifier::external_body]
#[verifier::reject_recursive_types(T)]
pub struct ExSender<T>(Sender<T>);

/// Sends `message` on the channel with `Sender::send`; a closed channel is ignored.
/// Trusted: nothing is claimed of the channel.
#[verifier::external_body]
fn send_message(sender: &Sender<MidiThreadMessage>, message: MidiThreadMessage) {
    let _ = sender.send(message);
}

impl LogMessage {
    /// The message that reports `text` with the given kind.
    pub fn message(text: String, kind: LogKind) -> (r: MidiThreadMessage)
        ensures
            r matches MidiThreadMessage::Log(l) && l.text@ == text@ && l.kind == kind,
    {
        MidiThreadMessage::Log(LogMessage { text, kind })
    }

    /// Sends a log line to the window.
    pub fn send(sender: &Sender<MidiThreadMessage>, text: String, kind: LogKind) {
        send_message(sender, LogMessage::message(text, kind));
    }
}

impl AppThreadMessage {
    /// What the MIDI thread does on this request: close on `CloseThread`; on
    /// `AssetReload`, keep running and report that a restart is needed.
    pub fn response(&self) -> (r: ThreadResponse)
        ensures
            *self == AppThreadMessage::CloseThread ==> r is Close,
            *self == AppThreadMessage::AssetReload ==> (r matches ThreadResponse::Report(l)
                && l.text@ == "MIDI thread should be restarted for some changes"@ && l.kind
                == LogKind::Info),
    {
        match self {
            AppThreadMessage::CloseThread => ThreadResponse::Close,
            AppThreadMessage::AssetReload => ThreadResponse::Report(
                LogMessage {
                    text: String::from_str("MIDI thread should be restarted for some changes"),
                    kind: LogKind::Info,
                },
            ),
        }
    }
}

/// What one turn of the MIDI thread's loop does.
#[derive(Debug)]
pub enum LoopStep {
    /// Drop the MIDI connection and end the thread; nothing more is sent.
    Close,
    /// Send these messages to the window, in order, then sleep this many milliseconds.
    Continue { send: Vec<MidiThreadMessage>, sleep_millis: u64 },
}

/// One turn of the MIDI thread's loop, given the request from the window that was
/// taken this turn, if any: on `CloseThread` the thread closes at once and sends
/// nothing more; otherwise it sends the request's report, if any, then one ping, and
/// sleeps one period.
pub fn thread_step(request: Option<AppThreadMessage>) -> (r: LoopStep)
    ensures
        r is Close <==> request == Some(AppThreadMessage::CloseThread),
        request is None ==> (r matches LoopStep::Continue { send, sleep_millis } && sleep_millis
            == SLEEP_TIME_MILLIS && send.len() == 1 && send@[0] is Ping),
        request == Some(AppThreadMessage::AssetReload) ==> (r matches LoopStep::Continue {
            send,
            sleep_millis,
        } && sleep_millis == SLEEP_TIME_MILLIS && send.len() == 2 && (send@[0] matches MidiThreadMessage::Log(l)
            && l.text@ == "MIDI thread should be restarted for some changes"@ && l.kind == LogKind::Info)
            && send@[1] is Ping),
{
    match request {
        None => LoopStep::Continue { send: vec![MidiThreadMessage::Ping], sleep_millis: SLEEP_TIME_MILLIS },
        Some(req) => match req.response() {
            ThreadResponse::Close => LoopStep::Close,
            ThreadResponse::Report(line) => LoopStep::Continue {
                send: vec![MidiThreadMessage::Log(line), MidiThreadMessage::Ping],
                sleep_millis: SLEEP_TIME_MILLIS,
            },
        },
    }
}

} // verus!
