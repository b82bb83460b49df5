//! How a mounted session ends.

use vstd::prelude::*;

verus! {

/// What happened to a session. `S` is the type of an error's text.
#[derive(Debug, PartialEq, Eq)]
pub enum SessionEventOf<S> {
    /// The kernel has unmounted the file system, or serving it has failed.
    Ended(Result<(), S>),
    /// The transport to the server is gone.
    TransportLost,
}

pub type SessionEvent = SessionEventOf<String>;

/// How a session ends. `S` is the type of an error's text.
#[derive(Debug, PartialEq, Eq)]
pub enum SessionEndOf<S> {
    Return(Result<(), S>),
    /// The process exits, so that a supervisor can mount again. Where `detach` is set, the mount is
    /// detached first.
    Exit { detach: bool },
}

pub type SessionEnd = SessionEndOf<String>;

/// How a session ends after an event.
pub open spec fn ending(event: SessionEvent, detach_on_transport_loss: bool) -> SessionEnd {
    match event {
        SessionEventOf::Ended(r) => SessionEndOf::Return(r),
        SessionEventOf::TransportLost => SessionEndOf::Exit { detach: detach_on_transport_loss },
    }
}

/// Decides how a session ends. On the loss of the transport the process always exits; whether the
/// dead mount is taken away first is the user's choice.
pub fn session_end(event: SessionEvent, detach_on_transport_loss: bool) -> (end: SessionEnd)
    ensures
        end == ending(event, detach_on_transport_loss),
{
    match event {
        SessionEventOf::Ended(r) => SessionEndOf::Return(r),
        SessionEventOf::TransportLost => SessionEndOf::Exit { detach: detach_on_transport_loss },
    }
}

/// An ended session is told as it ended, whatever the user chose for a loss of the transport; a lost
/// transport is never told as an end, and the mount is detached exactly where the user chose so.
pub proof fn lost_transports_exit(event: SessionEvent, detach: bool, other: bool)
    ensures
        event is TransportLost <==> ending(event, detach) is Exit,
        ending(event, detach) matches SessionEndOf::Exit { detach: d } ==> d == detach,
        event matches SessionEventOf::Ended(r) ==> {
            &&& ending(event, detach) == ending(event, other)
            &&& ending(event, detach) matches SessionEndOf::Return(told) && told == r
        },
{
}

} // verus!
