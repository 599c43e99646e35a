//! The QUIC connection that an outbound keeps and shares among its streams, and how a stream is
//! opened on it.

use crate::proxy::shadowquic_udp::{context_capacity, has_context_capacity};
use vstd::prelude::*;

verus! {

/// The connection kept for reuse, by its id.
#[derive(Debug)]
pub struct ConnectionCache {
    pub cached: Option<u64>,
}

/// What has to be done to have a connection.
#[derive(Clone, Copy, Debug, PartialEq, Eq, Structural)]
pub enum Ensure {
    /// The kept connection is still open.
    Reuse(u64),
    /// A new one has to be made.
    Establish,
}

impl ConnectionCache {
    /// No connection is kept.
    pub fn new() -> (c: ConnectionCache)
        ensures
            c.cached is None,
    {
        ConnectionCache { cached: None }
    }

    /// Whether the kept connection will do; `open` says whether it is still open.
    pub fn ensure_connection(&self, open: bool) -> (e: Ensure)
        ensures
            e == match self.cached {
                Some(id) if open => Ensure::Reuse(id),
                _ => Ensure::Establish,
            },
    {
        match self.cached {
            Some(id) if open => Ensure::Reuse(id),
            _ => Ensure::Establish,
        }
    }

    /// Notes how making a new connection ended. A failure leaves nothing behind.
    pub fn established(&mut self, id: Option<u64>)
        ensures
            final(self).cached == id,
    {
        self.cached = id;
    }

    /// Forgets the kept connection, but only if it is the one that failed: another caller may have
    /// replaced it by now.
    pub fn clear_cached_conn(&mut self, failed: u64)
        ensures
            final(self).cached == cleared(old(self).cached, failed),
    {
        if let Some(id) = self.cached {
            if id == failed {
                self.cached = None;
            }
        }
    }

    /// Forgets the kept connection because the network changed, and says which one it was.
    pub fn reset(&mut self) -> (id: Option<u64>)
        ensures
            id == old(self).cached,
            final(self).cached is None,
    {
        let id: Option<u64> = self.cached;
        self.cached = None;
        id
    }
}

/// What is kept once connection `failed` has failed.
pub open spec fn cleared(cached: Option<u64>, failed: u64) -> Option<u64> {
    if cached == Some(failed) {
        None
    } else {
        cached
    }
}

/// Where the opening of a stream stands.
#[derive(Clone, Copy, Debug, PartialEq, Eq, Structural)]
pub enum Phase {
    /// Waiting for a connection, for the first time.
    Connecting,
    /// Waiting for the stream on this connection.
    Opening(u64),
    /// Waiting for a connection after the first one turned out dead.
    Reconnecting,
    /// Waiting for the stream on the second connection.
    Reopening(u64),
    /// It is over.
    Ended,
}

/// What happened.
#[derive(Clone, Copy, Debug, PartialEq, Eq, Structural)]
pub enum OpenEvent {
    /// There is a connection.
    Connected(u64),
    /// There is none to be had.
    ConnectFailed,
    /// The stream is open. `used` counts the UDP context ids used on its connection.
    Opened { used: u32 },
    /// The stream could not be opened.
    OpenFailed,
}

/// What to do next.
#[derive(Clone, Copy, Debug, PartialEq, Eq, Structural)]
pub enum OpenAction {
    /// Reuse or make a connection.
    Connect,
    /// Open a stream on this connection.
    Open(u64),
    /// The stream on this connection is the one.
    Done(u64),
    Fail(OpenError),
}

/// Why there is no stream.
#[derive(Clone, Copy, Debug, PartialEq, Eq, Structural)]
pub enum OpenError {
    /// No connection can be made.
    NoConnection,
    /// The stream could not be opened on a fresh connection either.
    AfterReconnection,
    /// Each connection was short of UDP context ids.
    NoContextIds,
}

/// The opening of one stream. With a `margin`, a connection that has fewer UDP context ids left
/// is given up for a new one, once.
#[derive(Clone, Copy, Debug, PartialEq, Eq, Structural)]
pub struct StreamOpening {
    pub phase: Phase,
    pub rounds_left: u8,
    pub margin: Option<u32>,
}

/// What is done with an open stream.
pub open spec fn opened_step(o: StreamOpening, cached: Option<u64>, id: u64, used: u32) -> (
    StreamOpening,
    Option<u64>,
    OpenAction,
) {
    match o.margin {
        Some(margin) if !has_context_capacity(used, margin) => if o.rounds_left <= 1 {
            (
                StreamOpening { phase: Phase::Ended, rounds_left: 0, ..o },
                cleared(cached, id),
                OpenAction::Fail(OpenError::NoContextIds),
            )
        } else {
            (
                StreamOpening {
                    phase: Phase::Connecting,
                    rounds_left: (o.rounds_left - 1) as u8,
                    ..o
                },
                cleared(cached, id),
                OpenAction::Connect,
            )
        },
        _ => (StreamOpening { phase: Phase::Ended, ..o }, cached, OpenAction::Done(id)),
    }
}

/// What follows an event, if the event fits the phase.
pub open spec fn open_step(o: StreamOpening, cached: Option<u64>, event: OpenEvent) -> Option<
    (StreamOpening, Option<u64>, OpenAction),
> {
    match (o.phase, event) {
        (Phase::Connecting, OpenEvent::Connected(id)) => Some(
            (StreamOpening { phase: Phase::Opening(id), ..o }, cached, OpenAction::Open(id)),
        ),
        (Phase::Reconnecting, OpenEvent::Connected(id)) => Some(
            (StreamOpening { phase: Phase::Reopening(id), ..o }, cached, OpenAction::Open(id)),
        ),
        (Phase::Connecting, OpenEvent::ConnectFailed) => Some(
            (
                StreamOpening { phase: Phase::Ended, ..o },
                cached,
                OpenAction::Fail(OpenError::NoConnection),
            ),
        ),
        (Phase::Reconnecting, OpenEvent::ConnectFailed) => Some(
            (
                StreamOpening { phase: Phase::Ended, ..o },
                cached,
                OpenAction::Fail(OpenError::NoConnection),
            ),
        ),
        (Phase::Opening(id), OpenEvent::Opened { used }) => Some(opened_step(o, cached, id, used)),
        (Phase::Reopening(id), OpenEvent::Opened { used }) => Some(
            opened_step(o, cached, id, used),
        ),
        (Phase::Opening(id), OpenEvent::OpenFailed) => Some(
            (
                StreamOpening { phase: Phase::Reconnecting, ..o },
                cleared(cached, id),
                OpenAction::Connect,
            ),
        ),
        (Phase::Reopening(id), OpenEvent::OpenFailed) => Some(
            (
                StreamOpening { phase: Phase::Ended, ..o },
                cached,
                OpenAction::Fail(OpenError::AfterReconnection),
            ),
        ),
        _ => None,
    }
}

impl StreamOpening {
    /// Opening a stream, whatever UDP context ids its connection has left. Starts with a
    /// connection.
    pub fn open_stream_with_retry() -> (o: StreamOpening)
        ensures
            o == (StreamOpening { phase: Phase::Connecting, rounds_left: 1, margin: None }),
    {
        StreamOpening { phase: Phase::Connecting, rounds_left: 1, margin: None }
    }

    /// Opening a stream for a UDP session. Starts with a connection.
    pub fn open_udp_bistream_with_capacity(margin: u32) -> (o: StreamOpening)
        ensures
            o == (StreamOpening { phase: Phase::Connecting, rounds_left: 2, margin: Some(margin) }),
    {
        StreamOpening { phase: Phase::Connecting, rounds_left: 2, margin: Some(margin) }
    }

    /// Takes an event in. One that does not fit where the opening stands changes nothing.
    pub fn step(&mut self, cache: &mut ConnectionCache, event: OpenEvent) -> (action: Option<
        OpenAction,
    >)
        ensures
            match open_step(*old(self), old(cache).cached, event) {
                Some((o, cached, a)) => *final(self) == o && final(cache).cached == cached
                    && action == Some(a),
                None => *final(self) == *old(self) && final(cache).cached == old(cache).cached
                    && action is None,
            },
    {
        match (self.phase, event) {
            (Phase::Connecting, OpenEvent::Connected(id)) => {
                self.phase = Phase::Opening(id);
                Some(OpenAction::Open(id))
            },
            (Phase::Reconnecting, OpenEvent::Connected(id)) => {
                self.phase = Phase::Reopening(id);
                Some(OpenAction::Open(id))
            },
            (Phase::Connecting, OpenEvent::ConnectFailed) => {
                self.phase = Phase::Ended;
                Some(OpenAction::Fail(OpenError::NoConnection))
            },
            (Phase::Reconnecting, OpenEvent::ConnectFailed) => {
                self.phase = Phase::Ended;
                Some(OpenAction::Fail(OpenError::NoConnection))
            },
            (Phase::Opening(id), OpenEvent::Opened { used }) => Some(self.opened(cache, id, used)),
            (Phase::Reopening(id), OpenEvent::Opened { used }) => Some(
                self.opened(cache, id, used),
            ),
            (Phase::Opening(id), OpenEvent::OpenFailed) => {
                cache.clear_cached_conn(id);
                self.phase = Phase::Reconnecting;
                Some(OpenAction::Connect)
            },
            (Phase::Reopening(_), OpenEvent::OpenFailed) => {
                self.phase = Phase::Ended;
                Some(OpenAction::Fail(OpenError::AfterReconnection))
            },
            _ => None,
        }
    }

    fn opened(&mut self, cache: &mut ConnectionCache, id: u64, used: u32) -> (action: OpenAction)
        ensures
            (*final(self), final(cache).cached, action) == opened_step(
                *old(self),
                old(cache).cached,
                id,
                used,
            ),
    {
        if let Some(margin) = self.margin {
            if !context_capacity(used, margin) {
                cache.clear_cached_conn(id);
                if self.rounds_left <= 1 {
                    self.phase = Phase::Ended;
                    self.rounds_left = 0;
                    return OpenAction::Fail(OpenError::NoContextIds);
                }
                self.phase = Phase::Connecting;
                self.rounds_left = self.rounds_left - 1;
                return OpenAction::Connect;
            }
        }
        self.phase = Phase::Ended;
        OpenAction::Done(id)
    }
}

/// How many more events an opening can take.
pub open spec fn events_left(o: StreamOpening) -> int {
    let here = match o.phase {
        Phase::Connecting => 4int,
        Phase::Opening(_) => 3,
        Phase::Reconnecting => 2,
        Phase::Reopening(_) => 1,
        Phase::Ended => 0,
    };
    if o.phase == Phase::Ended {
        0
    } else if o.rounds_left == 0 {
        here
    } else {
        here + 4 * (o.rounds_left - 1)
    }
}

/// Opening a stream comes to an end: each event brings it nearer, and it ends with the stream or
/// with an error.
pub proof fn law_opening_ends(o: StreamOpening, cached: Option<u64>, event: OpenEvent)
    requires
        open_step(o, cached, event) is Some,
    ensures
        ({
            let (next, _, action) = open_step(o, cached, event)->0;
            &&& events_left(next) < events_left(o)
            &&& next.phase == Phase::Ended <==> (action is Done || action is Fail)
        }),
{
}

/// A connection on which the stream could not be opened is not kept; one that another caller has put
/// in its place is.
pub proof fn law_dead_connection_is_dropped(o: StreamOpening, cached: Option<u64>, id: u64)
    requires
        o.phase == Phase::Opening(id),
    ensures
        ({
            let (_, after, _) = open_step(o, cached, OpenEvent::OpenFailed)->0;
            &&& after != Some(id)
            &&& cached != Some(id) ==> after == cached
        }),
{
}

/// A UDP session is never given a connection that is short of context ids.
pub proof fn law_udp_stream_has_capacity(
    o: StreamOpening,
    cached: Option<u64>,
    margin: u32,
    used: u32,
    id: u64,
)
    requires
        o.margin == Some(margin),
        open_step(o, cached, OpenEvent::Opened { used }) matches Some((_, _, a)) && a
            == OpenAction::Done(id),
    ensures
        has_context_capacity(used, margin),
{
}

/// A stream is opened on the connection at hand, and that is done once it is open and the connection has
/// room; the connection stays for the next one.
pub proof fn law_stream_opens(o: StreamOpening, cached: Option<u64>, id: u64, used: u32)
    ensures
        o.phase == Phase::Connecting ==> (open_step(o, cached, OpenEvent::Connected(id)) matches Some(
            (next, kept, action),
        ) && action == OpenAction::Open(id) && next.phase == Phase::Opening(id) && kept == cached),
        o.phase == Phase::Reconnecting ==> (open_step(o, cached, OpenEvent::Connected(id)) matches Some(
            (next, kept, action),
        ) && action == OpenAction::Open(id) && next.phase == Phase::Reopening(id) && kept == cached),
        (o.phase == Phase::Opening(id) || o.phase == Phase::Reopening(id)) && (o.margin is None || used
            + o.margin->0 < 65535) ==> (open_step(o, cached, OpenEvent::Opened { used }) matches Some(
            (_, kept, action),
        ) && action == OpenAction::Done(id) && kept == cached),
{
}

/// A stream that cannot be opened is tried once more on a fresh connection, and then given up; without a
/// connection it is given up at once.
pub proof fn law_one_more_try(o: StreamOpening, cached: Option<u64>, id: u64)
    ensures
        o.phase == Phase::Opening(id) ==> (open_step(o, cached, OpenEvent::OpenFailed) matches Some(
            (next, _, action),
        ) && action == OpenAction::Connect && next.phase == Phase::Reconnecting),
        o.phase == Phase::Reopening(id) ==> (open_step(o, cached, OpenEvent::OpenFailed) matches Some(
            (_, _, action),
        ) && action == OpenAction::Fail(OpenError::AfterReconnection)),
        o.phase == Phase::Connecting || o.phase == Phase::Reconnecting ==> (open_step(
            o,
            cached,
            OpenEvent::ConnectFailed,
        ) matches Some((_, _, action)) && action == OpenAction::Fail(OpenError::NoConnection)),
{
}

/// A connection whose ids run short is let go for a fresh one, while tries are left; after the last one
/// it is said that there are no ids.
pub proof fn law_short_connections_are_replaced(
    o: StreamOpening,
    cached: Option<u64>,
    id: u64,
    used: u32,
    margin: u32,
)
    requires
        o.phase == Phase::Opening(id) || o.phase == Phase::Reopening(id),
        o.margin == Some(margin),
        used + margin >= 65535,
    ensures
        open_step(o, cached, OpenEvent::Opened { used }) matches Some((next, kept, action)) && kept
            != Some(id) && (cached != Some(id) ==> kept == cached) && (o.rounds_left > 1 ==> action
            == OpenAction::Connect && next.phase == Phase::Connecting && next.rounds_left
            == o.rounds_left - 1) && (o.rounds_left <= 1 ==> action == OpenAction::Fail(
            OpenError::NoContextIds,
        )),
{
}

} // verus!
