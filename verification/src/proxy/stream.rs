//! The life of one proxied stream.

use crate::text::str_eq;
use vstd::prelude::*;

verus! {

/// Where a stream stands.
#[derive(Debug, Clone, Copy, PartialEq, Eq, Structural)]
pub enum StreamPhase {
    /// The way out is being connected.
    Connecting,
    /// Bytes are copied both ways.
    Copying,
    /// A pooled connection turned out to be dead; a fresh one is being connected.
    Reconnecting,
    /// Bytes are copied both ways over the fresh connection.
    CopyingAgain,
    Ended,
}

/// What happened to a stream.
#[derive(Debug)]
pub enum StreamEvent {
    Connected,
    ConnectFailed,
    /// Both sides are done, after that many bytes each way.
    Copied(u64, u64),
    /// Copying failed, with that message.
    CopyFailed(String),
    /// The connection was closed through the interface.
    ClosedByApi,
    /// The server is stopping.
    Stopped,
}

/// What to do with a stream.
#[derive(Debug, Clone, Copy, PartialEq, Eq, Structural)]
pub enum StreamStep {
    /// Copy bytes both ways.
    Copy,
    /// Connect afresh, outside the pool.
    Reconnect,
    /// It is over, after that many bytes each way.
    Done(u64, u64),
    /// It failed.
    Fail,
}

/// The phase after an event, and what to do.
pub open spec fn stream_step(
    phase: StreamPhase,
    is_pool: bool,
    marker: Seq<char>,
    event: StreamEvent,
) -> (StreamPhase, StreamStep) {
    match event {
        StreamEvent::ClosedByApi => (StreamPhase::Ended, StreamStep::Done(0, 0)),
        StreamEvent::Stopped => (StreamPhase::Ended, StreamStep::Done(0, 0)),
        StreamEvent::ConnectFailed => (StreamPhase::Ended, StreamStep::Fail),
        StreamEvent::Connected => match phase {
            StreamPhase::Connecting => (StreamPhase::Copying, StreamStep::Copy),
            StreamPhase::Reconnecting => (StreamPhase::CopyingAgain, StreamStep::Copy),
            _ => (StreamPhase::Ended, StreamStep::Fail),
        },
        StreamEvent::Copied(up, down) => (StreamPhase::Ended, StreamStep::Done(up, down)),
        StreamEvent::CopyFailed(message) => if phase == StreamPhase::Copying && is_pool && message@
            == marker {
            (StreamPhase::Reconnecting, StreamStep::Reconnect)
        } else {
            (StreamPhase::Ended, StreamStep::Fail)
        },
    }
}

/// One proxied stream.
#[derive(Debug)]
pub struct StreamLife {
    pub phase: StreamPhase,
    /// Whether the way out keeps connections in a pool.
    pub is_pool: bool,
}

impl StreamLife {
    /// A stream whose way out is being connected.
    pub fn new(is_pool: bool) -> (s: StreamLife)
        ensures
            s.phase == StreamPhase::Connecting,
            s.is_pool == is_pool,
    {
        StreamLife { phase: StreamPhase::Connecting, is_pool }
    }

    /// Takes in what happened, and says what to do. `marker` is the message by which a pool says that
    /// its connection was dead from the start.
    pub fn dispatch_stream(&mut self, marker: &str, event: &StreamEvent) -> (step: StreamStep)
        ensures
            final(self).is_pool == old(self).is_pool,
            (final(self).phase, step) == stream_step(
                old(self).phase,
                old(self).is_pool,
                marker@,
                *event,
            ),
    {
        let (phase, step): (StreamPhase, StreamStep) = match event {
            StreamEvent::ClosedByApi => (StreamPhase::Ended, StreamStep::Done(0, 0)),
            StreamEvent::Stopped => (StreamPhase::Ended, StreamStep::Done(0, 0)),
            StreamEvent::ConnectFailed => (StreamPhase::Ended, StreamStep::Fail),
            StreamEvent::Connected => match self.phase {
                StreamPhase::Connecting => (StreamPhase::Copying, StreamStep::Copy),
                StreamPhase::Reconnecting => (StreamPhase::CopyingAgain, StreamStep::Copy),
                _ => (StreamPhase::Ended, StreamStep::Fail),
            },
            StreamEvent::Copied(up, down) => (StreamPhase::Ended, StreamStep::Done(*up, *down)),
            StreamEvent::CopyFailed(message) => {
                if self.phase == StreamPhase::Copying && self.is_pool && str_eq(
                    message.as_str(),
                    marker,
                ) {
                    (StreamPhase::Reconnecting, StreamStep::Reconnect)
                } else {
                    (StreamPhase::Ended, StreamStep::Fail)
                }
            },
        };
        self.phase = phase;
        step
    }
}

/// A dead connection from a pool is replaced once, and only one from a pool: no stream connects afresh
/// twice.
pub proof fn law_one_fresh_connection(
    phase: StreamPhase,
    is_pool: bool,
    marker: Seq<char>,
    event: StreamEvent,
)
    ensures
        ({
            let (next, step) = stream_step(phase, is_pool, marker, event);
            &&& step == StreamStep::Reconnect ==> phase == StreamPhase::Copying && is_pool
            &&& phase == StreamPhase::Reconnecting || phase == StreamPhase::CopyingAgain ==> next
                == StreamPhase::CopyingAgain || next == StreamPhase::Ended
            &&& phase == StreamPhase::CopyingAgain ==> next == StreamPhase::Ended
        }),
{
}

/// A stream connects and is copied. One that ran over a pooled connection which turned out dead
/// connects once more and is copied again. A stream that was copied ends with the bytes of both
/// directions, one that was closed or stopped ends with none, and every other failure fails.
pub proof fn law_course_of_a_stream(
    phase: StreamPhase,
    is_pool: bool,
    marker: Seq<char>,
    message: String,
    up: u64,
    down: u64,
)
    ensures
        stream_step(StreamPhase::Connecting, is_pool, marker, StreamEvent::Connected) == (
            StreamPhase::Copying,
            StreamStep::Copy,
        ),
        stream_step(StreamPhase::Reconnecting, is_pool, marker, StreamEvent::Connected) == (
            StreamPhase::CopyingAgain,
            StreamStep::Copy,
        ),
        stream_step(phase, is_pool, marker, StreamEvent::Copied(up, down)) == (
            StreamPhase::Ended,
            StreamStep::Done(up, down),
        ),
        stream_step(phase, is_pool, marker, StreamEvent::ClosedByApi) == (
            StreamPhase::Ended,
            StreamStep::Done(0, 0),
        ),
        stream_step(phase, is_pool, marker, StreamEvent::Stopped) == (
            StreamPhase::Ended,
            StreamStep::Done(0, 0),
        ),
        stream_step(phase, is_pool, marker, StreamEvent::ConnectFailed) == (
            StreamPhase::Ended,
            StreamStep::Fail,
        ),
        message@ == marker ==> stream_step(
            StreamPhase::Copying,
            true,
            marker,
            StreamEvent::CopyFailed(message),
        ) == (StreamPhase::Reconnecting, StreamStep::Reconnect),
        message@ != marker || !is_pool || phase != StreamPhase::Copying ==> stream_step(
            phase,
            is_pool,
            marker,
            StreamEvent::CopyFailed(message),
        ) == (StreamPhase::Ended, StreamStep::Fail),
{
}

} // verus!
