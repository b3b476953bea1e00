use vstd::prelude::*;

use crate::events::{EventBus, EventFilter};

verus! {

/// How long a client may stay silent before it is disconnected, in milliseconds.
pub const CLIENT_TIMEOUT_MS: u64 = 10_000;

/// How often the heartbeat is checked, in milliseconds.
pub const HEARTBEAT_INTERVAL_MS: u64 = 5_000;

/// A command a client sends over the socket.
#[derive(Debug, Clone, Copy, PartialEq, Eq, Structural)]
pub enum WsCommand {
    /// Receive only the events `filter` lets through.
    Subscribe { filter: EventFilter },
    /// Stop filtering.
    Unsubscribe,
}

/// What the periodic heartbeat check does.
#[derive(Debug, Clone, Copy, PartialEq, Eq, Structural)]
pub enum HeartbeatAction {
    /// Ping the client.
    Ping,
    /// The client went silent: close the connection.
    Disconnect,
}

/// Statistics of the WebSocket endpoint.
#[derive(Debug, Clone, Copy, PartialEq, Eq, Structural)]
pub struct WebSocketStats {
    pub active_connections: usize,
    pub total_messages_sent: u64,
    pub uptime_seconds: u64,
}

/// The state of one client connection: its id, when it was last heard from (milliseconds)
/// and its event filter. The socket itself is driven by the caller.
pub struct WsSession {
    id: u128,
    hb_ms: u64,
    filter: Option<EventFilter>,
}

impl WsSession {
    pub closed spec fn session_id(&self) -> u128 {
        self.id
    }

    pub closed spec fn last_heartbeat(&self) -> u64 {
        self.hb_ms
    }

    pub closed spec fn event_filter(&self) -> Option<EventFilter> {
        self.filter
    }

    /// A session with id `id`, last heard from at `now_ms`.
    pub fn new_with_id(id: u128, filter: Option<EventFilter>, now_ms: u64) -> (s: Self)
        ensures
            s.session_id() == id,
            s.last_heartbeat() == now_ms,
            s.event_filter() == filter,
    {
        WsSession { id, hb_ms: now_ms, filter }
    }

    /// A session with a fresh random id (a version-4 UUID), last heard from now.
    pub fn new(filter: Option<EventFilter>) -> (s: Self)
        ensures
            s.event_filter() == filter,
    {
        let id = crate::events::new_subscription_id();
        Self::new_with_id(id, filter, crate::clock::now_millis())
    }

    /// The session's id.
    pub fn id(&self) -> (r: u128)
        ensures
            r == self.session_id(),
    {
        self.id
    }

    /// The session's event filter.
    pub fn filter(&self) -> (r: Option<EventFilter>)
        ensures
            r == self.event_filter(),
    {
        self.filter
    }

    /// Subscribe the session to `bus` with its filter, as a new connection does; answers the
    /// subscription's id.
    pub fn start(&self, bus: &mut EventBus) -> (sub: u128)
        requires
            old(bus).wf(),
        ensures
            final(bus).wf(),
            final(bus).subscribers() == match crate::util::find_first(old(bus).subscribers(), |s: (u128, Option<EventFilter>)| s.0 == sub) {
                Some(i) => old(bus).subscribers().update(i, (sub, self.event_filter())),
                None => old(bus).subscribers().push((sub, self.event_filter())),
            },
            final(bus).history() == old(bus).history(),
    {
        bus.subscribe(self.filter)
    }

    /// The client was heard from (a ping or a pong) at `now_ms`.
    pub fn heartbeat_at(&mut self, now_ms: u64)
        ensures
            final(self).last_heartbeat() == now_ms,
            final(self).session_id() == old(self).session_id(),
            final(self).event_filter() == old(self).event_filter(),
    {
        self.hb_ms = now_ms;
    }

    /// The periodic check at `now_ms`: a client silent for more than `CLIENT_TIMEOUT_MS` is
    /// disconnected, any other is pinged.
    pub fn check_heartbeat(&self, now_ms: u64) -> (a: HeartbeatAction)
        ensures
            a == (if now_ms > self.last_heartbeat() && now_ms - self.last_heartbeat() > CLIENT_TIMEOUT_MS {
                HeartbeatAction::Disconnect
            } else {
                HeartbeatAction::Ping
            }),
    {
        if now_ms.saturating_sub(self.hb_ms) > CLIENT_TIMEOUT_MS {
            HeartbeatAction::Disconnect
        } else {
            HeartbeatAction::Ping
        }
    }

    /// Apply a client command and give the text to answer with: a subscription sets the
    /// filter, an unsubscription clears it.
    pub fn handle_command(&mut self, cmd: WsCommand) -> (reply: String)
        ensures
            final(self).session_id() == old(self).session_id(),
            final(self).last_heartbeat() == old(self).last_heartbeat(),
            match cmd {
                WsCommand::Subscribe { filter } => final(self).event_filter() == Some(filter)
                    && reply@ == "{\"status\":\"subscribed\"}"@,
                WsCommand::Unsubscribe => final(self).event_filter() is None
                    && reply@ == "{\"status\":\"unsubscribed\"}"@,
            },
    {
        match cmd {
            WsCommand::Subscribe { filter } => {
                self.filter = Some(filter);
                "{\"status\":\"subscribed\"}".to_string()
            },
            WsCommand::Unsubscribe => {
                self.filter = None;
                "{\"status\":\"unsubscribed\"}".to_string()
            },
        }
    }
}

} // verus!
