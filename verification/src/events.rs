//! The `shpool events` subscription: a child process whose output is a
//! sign that daemon-side changes — sessions created, killed, attached, or
//! detached by *other* clients — call for a fresh list.
//!
//! The payload is content-free: every line just means "something changed,
//! re-list", so it is never parsed. An end of the stream means that the
//! subscription is over. The subscribe attempt doubles as the capability
//! probe — a daemon that's down, that predates the events socket, or that
//! drops us as a slow subscriber all converge on the same end of stream.

use vstd::prelude::*;

verus! {

/// Outcome of draining whatever the pipe had ready.
#[derive(Debug, PartialEq, Eq, Clone, Copy, Structural)]
pub enum Drain {
    /// Bytes were read — daemon-side activity. Re-list.
    Activity,
    /// End of stream: the subscription is over (daemon gone, dropped,
    /// or never had an events socket). Tear down and fall back.
    Eof,
}

/// What a read from the pipe came to.
#[derive(Debug, PartialEq, Eq, Clone, Copy, Structural)]
pub enum PipeRead {
    /// That many bytes were read.
    Bytes(usize),
    /// A signal interrupted the read.
    Interrupted,
    /// The read failed.
    Failed,
}

/// What a read means.
pub open spec fn meaning(read: PipeRead) -> Drain {
    if read == PipeRead::Bytes(0) || read == PipeRead::Failed {
        Drain::Eof
    } else {
        Drain::Activity
    }
}

/// Any bytes at all mean that something has changed, and so may an
/// interruption; only the end of the stream or a failure ends the
/// subscription.
pub proof fn any_bytes_are_activity(n: usize)
    ensures
        meaning(PipeRead::Bytes(n)) == Drain::Activity <==> n > 0,
        meaning(PipeRead::Interrupted) == Drain::Activity,
        meaning(PipeRead::Failed) == Drain::Eof,
{
}

/// What a read means. The bytes' mere arrival is the whole signal. An
/// interrupted read is no end of stream: it counts as a spurious wake, whose
/// worst case is one extra refresh. Any other failure ends the subscription.
pub fn drain(read: PipeRead) -> (outcome: Drain)
    ensures
        outcome == meaning(read),
{
    match read {
        PipeRead::Bytes(n) => if n == 0 {
            Drain::Eof
        } else {
            Drain::Activity
        },
        PipeRead::Interrupted => Drain::Activity,
        PipeRead::Failed => Drain::Eof,
    }
}

}
