//! The rules of the server: how long to wait after a failed accept, and what
//! a connection handler does with what it reads.

use crate::cmd::{command_of, Command};
use crate::frame::{Frame, FrameView};
use crate::parse::Parsed;
use vstd::arithmetic::power2::{lemma2_to64, pow2};
use vstd::prelude::*;

verus! {

/// The number of connections that are served at one time.
pub const MAX_CONNECTIONS: usize = 250;

/// The longest wait after a failed accept, in seconds.
pub const MAX_BACKOFF: u64 = 64;

/// The wait, in seconds, after the failed accept that `failures` failed
/// accepts went before in a row: one second after the first failure, and
/// twice as long after each further one, up to 64 seconds. Nothing after
/// that: the failure that follows a wait of 64 seconds is final.
pub open spec fn backoff_delay(failures: nat) -> Option<u64> {
    if failures <= 6 {
        Some(pow2(failures) as u64)
    } else {
        None
    }
}

/// The waits between attempts to accept a connection. One of these is made
/// for every connection that is awaited, so that a successful accept starts
/// the waits anew.
pub struct Backoff {
    delay: u64,
    failures: Ghost<nat>,
}

impl Backoff {
    /// The number of failed accepts so far.
    pub closed spec fn failures(&self) -> nat {
        self.failures@
    }

    /// Whether the state is as every state that this module hands out is.
    pub closed spec fn wf(&self) -> bool {
        &&& self.failures@ <= 7
        &&& self.delay == pow2(self.failures@)
    }

    /// The state before any failure.
    pub fn new() -> (r: Backoff)
        ensures
            r.wf(),
            r.failures() == 0,
    {
        proof {
            lemma2_to64();
        }
        Backoff { delay: 1, failures: Ghost(0) }
    }

    /// Takes note of a failed accept. Returns the number of seconds to wait
    /// before the next attempt, or nothing where the failure is final.
    pub fn on_failure(&mut self) -> (r: Option<u64>)
        requires
            old(self).wf(),
        ensures
            final(self).wf(),
            r == backoff_delay(old(self).failures()),
            r is Some ==> final(self).failures() == old(self).failures() + 1,
            r is None ==> final(self).failures() == old(self).failures(),
    {
        proof {
            lemma2_to64();
        }
        if self.delay > MAX_BACKOFF {
            return None;
        }
        let delay = self.delay;
        self.delay = delay * 2;
        self.failures = Ghost((self.failures@ + 1) as nat);
        Some(delay)
    }
}

/// Something that happens to a connection handler while it waits for the
/// next request.
pub enum HandlerEvent {
    /// A frame was read.
    Frame(Frame),
    /// The client closed the connection between two frames.
    Closed,
    /// Reading failed.
    ReadError,
    /// The server shuts down.
    Shutdown,
}

/// What a connection handler does next.
pub enum HandlerAction {
    /// Carry the command out and send what it gives, then go on.
    Apply(Command),
    /// Send the frame, which tells the client of its mistake, and go on.
    Reply(Frame),
    /// End the connection in good order.
    Finish,
    /// End the connection with the read error.
    Fail,
    /// End the connection with a protocol error, which the text describes.
    Reject(String),
}

/// What a handler event is.
pub enum HandlerEventView {
    Frame(FrameView),
    Closed,
    ReadError,
    Shutdown,
}

impl View for HandlerEvent {
    type V = HandlerEventView;

    open spec fn view(&self) -> HandlerEventView {
        match self {
            HandlerEvent::Frame(frame) => HandlerEventView::Frame(frame@),
            HandlerEvent::Closed => HandlerEventView::Closed,
            HandlerEvent::ReadError => HandlerEventView::ReadError,
            HandlerEvent::Shutdown => HandlerEventView::Shutdown,
        }
    }
}

/// The rule of a connection handler, as far as it shows in which action is
/// taken. The shutdown of the server and the end of the connection end the
/// handler in good order, a read error ends it with that error. A frame
/// that is no array is a protocol error, which ends the connection. An array
/// that carries a command has the command carried out; an array that does
/// not, for a field that is missing, of the wrong kind or too many, has the
/// client told so in an error frame, and the connection goes on.
pub open spec fn handler_step(event: HandlerEventView, action: HandlerAction) -> bool {
    match event {
        HandlerEventView::Frame(frame) => if !(frame is Array) {
            action is Reject
        } else {
            match command_of(frame) {
                Parsed::Done { value, rest } => action is Apply && action->Apply_0@ == value,
                Parsed::EndOfStream => action is Reply && action->Reply_0@ == FrameView::Error(
                    "protocol error; unexpected end of stream"@,
                ),
                Parsed::Invalid => action is Reply && action->Reply_0@ is Error,
            }
        },
        HandlerEventView::Closed => action is Finish,
        HandlerEventView::ReadError => action is Fail,
        HandlerEventView::Shutdown => action is Finish,
    }
}

/// Decides what a connection handler does on `event`.
pub fn on_event(event: HandlerEvent) -> (action: HandlerAction)
    ensures
        handler_step(event@, action),
{
    match event {
        HandlerEvent::Frame(frame) => {
            let is_array = match &frame {
                Frame::Array(_) => true,
                _ => false,
            };
            if !is_array {
                return HandlerAction::Reject("protocol error; expected array".to_owned());
            }
            match Command::from_frame(frame) {
                Ok(command) => HandlerAction::Apply(command),
                Err(e) => HandlerAction::Reply(Frame::Error(e.to_string())),
            }
        },
        HandlerEvent::Closed => HandlerAction::Finish,
        HandlerEvent::ReadError => HandlerAction::Fail,
        HandlerEvent::Shutdown => HandlerAction::Finish,
    }
}

} // verus!
