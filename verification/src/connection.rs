//! The decisions of a WebSocket connection, on the server side and on the
//! client side: when a send is queued, how closing works, the local topic
//! subscriptions, and what the connection's event loop does with each
//! incoming frame, error and queued command. Sockets, queues and timers are
//! driven by the caller, which performs the returned actions.

use vstd::prelude::*;
use vstd::utf8::encode_utf8;

use crate::close::{close_reason_view, CloseReason};
use crate::message::{Message, MessageType};
use crate::stats::{ConnectionStats, ConnectionStatsInner, wrap_add};
use crate::topics::TopicSet;
use crate::pubsub::{
    distinct_ids, has_followers, position, recipients, topics_of, with_topics, PubSubRegistry,
    SubscriberView,
};

verus! {

/// Close code used when a close is requested without one: normal closure.
pub const DEFAULT_CLOSE_CODE: u16 = 1000;

/// Close code reported when the stream ends without a close frame:
/// abnormal closure.
pub const ABNORMAL_CLOSE_CODE: u16 = 1006;

/// Most queued commands handled in one round of the event loop.
pub const MAX_COMMANDS_PER_ROUND: usize = 100;

/// Which end of the connection this is.
#[derive(Debug, Clone, Copy, PartialEq, Eq, Structural)]
pub enum Role {
    /// A connection accepted by the server; it takes part in pub/sub.
    Server,
    /// A client connection; pub/sub commands are only tracked locally.
    Client,
}

/// A command queued for the connection's event loop.
pub enum SendCommand {
    /// Send a message.
    Message(Message),
    /// Publish a message to a topic, excluding this connection.
    Publish(String, Message),
    /// Send a close frame with a code and reason, then stop.
    Close(u16, String),
}

/// What the send queue did with a command.
#[derive(Debug, Clone, Copy, PartialEq, Eq, Structural)]
pub enum QueueOutcome {
    /// The command was queued.
    Queued,
    /// The queue is full.
    Full,
    /// The event loop has gone away.
    Disconnected,
}

/// What the event loop does with a frame it received.
pub enum IncomingAction {
    /// Hand the message to the message handler.
    Deliver(Message),
    /// Report the close to the close handler; the loop stops.
    Closed(CloseReason),
}

/// What the event loop does with a queued command.
pub enum CommandAction {
    /// Send this frame.
    SendFrame(Message),
    /// Publish to a topic, excluding this connection's subscriber (the id).
    PublishExcluding(u64, String, Message),
    /// Send this close frame, flush, and stop.
    SendCloseAndStop(Message),
    /// Nothing to do.
    Ignore,
}

/// The payload size counted for a sent message: its payload bytes, and
/// nothing for a close frame.
pub open spec fn counted_size(m: Message) -> int {
    if m.kind() == MessageType::Close {
        0
    } else {
        m.payload().len() as int
    }
}

/// The state of one connection.
pub struct ConnectionState {
    role: Role,
    connection_id: u32,
    subscriber_id: Option<u64>,
    closed: bool,
    close_pending: bool,
    connected: bool,
    stats: ConnectionStatsInner,
    topics: TopicSet,
}

impl ConnectionState {
    pub closed spec fn spec_role(&self) -> Role {
        self.role
    }

    /// The connection id, and the id of the connection's subscriber in the
    /// pub/sub system (server connections only).
    pub closed spec fn spec_ids(&self) -> (u32, Option<u64>) {
        (self.connection_id, self.subscriber_id)
    }

    pub closed spec fn spec_closed(&self) -> bool {
        self.closed
    }

    /// A close was requested and its close command is still on its way to
    /// the event loop, which keeps running until it has sent the frame.
    pub closed spec fn spec_close_pending(&self) -> bool {
        self.close_pending
    }

    pub closed spec fn spec_connected(&self) -> bool {
        self.connected
    }

    pub closed spec fn spec_stats(&self) -> ConnectionStatsInner {
        self.stats
    }

    pub closed spec fn spec_topics(&self) -> Set<Seq<char>> {
        self.topics@
    }

    /// A connection accepted by the server under `connection_id`, whose
    /// subscriber in the pub/sub system is `subscriber_id`: open, with no
    /// subscriptions.
    pub fn new_server(connection_id: u32, subscriber_id: u64) -> (c: Self)
        ensures
            c.spec_role() == Role::Server,
            c.spec_ids() == (connection_id, Some(subscriber_id)),
            !c.spec_closed(),
            !c.spec_close_pending(),
            c.spec_connected(),
            c.spec_stats() == ConnectionStatsInner::zero(),
            c.spec_topics() == Set::<Seq<char>>::empty(),
    {
        ConnectionState {
            role: Role::Server,
            connection_id,
            subscriber_id: Some(subscriber_id),
            closed: false,
            close_pending: false,
            connected: true,
            stats: ConnectionStatsInner::default(),
            topics: TopicSet::new(),
        }
    }

    /// A client that has not connected yet; it has no connection id (0) and
    /// no subscriber.
    pub fn new_client() -> (c: Self)
        ensures
            c.spec_role() == Role::Client,
            c.spec_ids() == (0u32, None::<u64>),
            !c.spec_closed(),
            !c.spec_close_pending(),
            !c.spec_connected(),
            c.spec_stats() == ConnectionStatsInner::zero(),
            c.spec_topics() == Set::<Seq<char>>::empty(),
    {
        ConnectionState {
            role: Role::Client,
            connection_id: 0,
            subscriber_id: None,
            closed: false,
            close_pending: false,
            connected: false,
            stats: ConnectionStatsInner::default(),
            topics: TopicSet::new(),
        }
    }
}


/// The close code a close request resolves to: the given one truncated to
/// 16 bits, or normal closure (1000) when none is given.
pub open spec fn requested_close_code(code: Option<u32>) -> u16 {
    match code {
        Some(x) => (x % 0x10000) as u16,
        None => DEFAULT_CLOSE_CODE,
    }
}

/// The close reason a close request resolves to: the given one, or empty.
pub open spec fn requested_close_reason(reason: Option<String>) -> Seq<char> {
    match reason {
        Some(x) => x@,
        None => Seq::<char>::empty(),
    }
}

/// A close request on `pre` with `code` and `reason` leads to `post` and
/// returns `cmd`: on a closed connection nothing changes and nothing is
/// queued; otherwise the connection is closed, no longer connected, its
/// close pending, and the close command carries the resolved code and
/// reason.
pub open spec fn close_request(
    pre: ConnectionState,
    code: Option<u32>,
    reason: Option<String>,
    post: ConnectionState,
    cmd: Option<SendCommand>,
) -> bool {
    &&& pre.spec_closed() ==> cmd is None && post == pre
    &&& !pre.spec_closed() ==> {
        &&& post.spec_closed()
        &&& !post.spec_connected()
        &&& post.spec_close_pending()
        &&& post.spec_role() == pre.spec_role()
        &&& post.spec_ids() == pre.spec_ids()
        &&& post.spec_stats() == pre.spec_stats()
        &&& post.spec_topics() == pre.spec_topics()
        &&& match cmd {
            Some(SendCommand::Close(c, r)) => c == requested_close_code(code) && r@
                == requested_close_reason(reason),
            _ => false,
        }
    }
}

/// Whether the event loop keeps running in state `s`: until the connection
/// closes, and after a requested close until the close frame is written.
pub open spec fn loop_runs(s: ConnectionState) -> bool {
    !s.spec_closed() || s.spec_close_pending()
}

/// The event loop handling queued command `cmd` in state `pre` leads to
/// `post` and does `action`.
pub open spec fn command_step(
    pre: ConnectionState,
    cmd: SendCommand,
    post: ConnectionState,
    action: CommandAction,
) -> bool {
    &&& post.spec_role() == pre.spec_role()
    &&& post.spec_ids() == pre.spec_ids()
    &&& post.spec_stats() == pre.spec_stats()
    &&& post.spec_topics() == pre.spec_topics()
    &&& match cmd {
        SendCommand::Close(code, reason) => {
            &&& post.spec_closed()
            &&& !post.spec_connected()
            &&& !post.spec_close_pending()
            &&& (action matches CommandAction::SendCloseAndStop(m) && m.kind() == MessageType::Close
                && m.close_info() == Some((code, reason@)))
        },
        _ => post.spec_closed() == pre.spec_closed() && post.spec_connected()
            == pre.spec_connected() && post.spec_close_pending() == pre.spec_close_pending(),
    }
    &&& match cmd {
        SendCommand::Message(m) => action matches CommandAction::SendFrame(f) && f == m,
        SendCommand::Publish(t, m) => match pre.spec_ids().1 {
            Some(sid) => action matches CommandAction::PublishExcluding(i, x, y) && i == sid && x
                == t && y == m,
            None => action is Ignore,
        },
        SendCommand::Close(_, _) => true,
    }
}

/// The event loop handling the queued commands `cmds` in order, from
/// `states[0]`: step `i` leads from `states[i]` to `states[i + 1]` and
/// does `actions[i]`.
pub open spec fn command_run(
    states: Seq<ConnectionState>,
    cmds: Seq<SendCommand>,
    actions: Seq<CommandAction>,
) -> bool {
    &&& states.len() == cmds.len() + 1
    &&& actions.len() == cmds.len()
    &&& forall|i: int|
        0 <= i < cmds.len() ==> #[trigger] command_step(states[i], cmds[i], states[i + 1], actions[i])
}

/// A subscribe (`add`) or unsubscribe of `topic` on connection `pre` with
/// registry `reg` leads to `post` and `reg2`. A closed server connection
/// changes nothing. Otherwise the topic is added to or removed from the
/// connection's topics, nothing else of the connection changes, and a
/// server connection's subscriber gets the same edit in the registry
/// (a client leaves the registry as it was).
pub open spec fn topic_edit(
    pre: ConnectionState,
    reg: PubSubRegistry,
    post: ConnectionState,
    reg2: PubSubRegistry,
    topic: Seq<char>,
    add: bool,
) -> bool {
    if pre.spec_role() == Role::Server && pre.spec_closed() {
        post == pre && reg2 == reg
    } else {
        &&& post.spec_topics() == (if add {
            pre.spec_topics().insert(topic)
        } else {
            pre.spec_topics().remove(topic)
        })
        &&& post.spec_role() == pre.spec_role()
        &&& post.spec_ids() == pre.spec_ids()
        &&& post.spec_closed() == pre.spec_closed()
        &&& post.spec_close_pending() == pre.spec_close_pending()
        &&& post.spec_connected() == pre.spec_connected()
        &&& post.spec_stats() == pre.spec_stats()
        &&& reg2.socket_ids() == reg.socket_ids()
        &&& reg2.spec_next_id() == reg.spec_next_id()
        &&& reg2.spec_published() == reg.spec_published()
        &&& reg2.subscribers() == (match pre.spec_ids().1 {
            Some(sid) if pre.spec_role() == Role::Server => with_topics(
                reg.subscribers(),
                sid,
                if add {
                    topics_of(reg.subscribers(), sid).insert(topic)
                } else {
                    topics_of(reg.subscribers(), sid).remove(topic)
                },
            ),
            _ => reg.subscribers(),
        })
    }
}

/// An open server connection and the registry agree: its subscriber is
/// registered and follows exactly the topics the connection records.
pub open spec fn in_sync(c: ConnectionState, subs: Seq<SubscriberView>) -> bool {
    match c.spec_ids().1 {
        Some(sid) => c.spec_role() == Role::Server && !c.spec_closed() ==> position(subs, sid)
            is Some && c.spec_topics() == topics_of(subs, sid),
        None => true,
    }
}

/// The size counted for a message handed to the send queue: the byte length
/// of its payload, and nothing for a close frame.
pub fn send_size(message: &Message) -> (n: u64)
    ensures
        n == (counted_size(*message) as usize) as u64,
        message.kind() == MessageType::Close ==> n == 0,
        message.kind() != MessageType::Close ==> n == (message.payload().len() as usize) as u64,
        message.kind() == MessageType::Text ==> n == (encode_utf8(message.text_chars()).len() as usize) as u64,
{
    proof {
        if message.kind() == MessageType::Text {
            message.lemma_text_payload();
        }
    }
    if message.is_close() {
        0
    } else {
        message.payload_len() as u64
    }
}

impl ConnectionState {
    /// Whether a send may be handed to the queue now: a server connection
    /// until it is closed; a client while it is connected and not closed.
    pub fn accepts_sends(&self) -> (b: bool)
        ensures
            b == (!self.spec_closed() && (self.spec_role() == Role::Server
                || self.spec_connected())),
    {
        !self.closed && (match self.role {
            Role::Server => true,
            Role::Client => self.connected,
        })
    }

    /// Record what the send queue did with a message of `size` bytes and
    /// report whether it was queued. A queued message is counted; a full
    /// queue marks the connection backpressured; a vanished event loop marks
    /// it closed.
    pub fn record_send(&mut self, size: u64, outcome: QueueOutcome) -> (queued: bool)
        ensures
            queued == (outcome == QueueOutcome::Queued),
            final(self).spec_close_pending() == old(self).spec_close_pending(),
            final(self).spec_role() == old(self).spec_role(),
            final(self).spec_ids() == old(self).spec_ids(),
            final(self).spec_connected() == old(self).spec_connected(),
            final(self).spec_topics() == old(self).spec_topics(),
            final(self).spec_closed() == (old(self).spec_closed() || outcome
                == QueueOutcome::Disconnected),
            final(self).spec_stats() == (match outcome {
                QueueOutcome::Queued => ConnectionStatsInner {
                    messages_sent: wrap_add(old(self).spec_stats().messages_sent, 1),
                    bytes_sent: wrap_add(old(self).spec_stats().bytes_sent, size),
                    ..old(self).spec_stats()
                },
                QueueOutcome::Full => ConnectionStatsInner {
                    is_backpressured: true,
                    ..old(self).spec_stats()
                },
                QueueOutcome::Disconnected => old(self).spec_stats(),
            }),
    {
        match outcome {
            QueueOutcome::Queued => {
                self.stats.record_sent(size);
                true
            },
            QueueOutcome::Full => {
                self.stats.mark_backpressured();
                false
            },
            QueueOutcome::Disconnected => {
                self.closed = true;
                false
            },
        }
    }

    /// Close the connection. The first call marks it closed (and no longer
    /// connected) and returns the close command to queue, with code 1000
    /// when none is given (truncated to 16 bits) and an empty reason when
    /// none is given; the close is pending until the event loop has sent
    /// the frame, and the loop keeps running until then. Later calls change
    /// nothing and return `None`.
    pub fn request_close(&mut self, code: Option<u32>, reason: Option<String>) -> (cmd: Option<
        SendCommand,
    >)
        ensures
            close_request(*old(self), code, reason, *final(self), cmd),
    {
        if self.closed {
            return None;
        }
        self.closed = true;
        self.connected = false;
        self.close_pending = true;
        let c = match code {
            Some(x) => (x % 0x10000) as u16,
            None => DEFAULT_CLOSE_CODE,
        };
        let r = match reason {
            Some(x) => x,
            None => String::new(),
        };
        Some(SendCommand::Close(c, r))
    }

    /// Subscribe to `topic`. A closed server connection changes nothing. An
    /// open one records the topic and subscribes its subscriber in the
    /// registry at once, so later publishes to the topic by others reach
    /// it. A client records the topic locally and leaves the registry
    /// alone.
    pub fn subscribe(&mut self, registry: &mut PubSubRegistry, topic: String)
        ensures
            topic_edit(*old(self), *old(registry), *final(self), *final(registry), topic@, true),
    {
        match self.role {
            Role::Server => {
                if !self.closed {
                    match self.subscriber_id {
                        Some(sid) => {
                            registry.subscribe(sid, topic.clone());
                        },
                        None => {},
                    }
                    self.topics.insert(topic);
                }
            },
            Role::Client => {
                self.topics.insert(topic);
            },
        }
    }

    /// Unsubscribe from `topic`. A closed server connection changes nothing.
    /// An open one forgets the topic and unsubscribes its subscriber in the
    /// registry at once. A client forgets the topic locally and leaves the
    /// registry alone.
    pub fn unsubscribe(&mut self, registry: &mut PubSubRegistry, topic: String)
        ensures
            topic_edit(*old(self), *old(registry), *final(self), *final(registry), topic@, false),
    {
        match self.role {
            Role::Server => {
                if !self.closed {
                    match self.subscriber_id {
                        Some(sid) => {
                            registry.unsubscribe(sid, &topic);
                        },
                        None => {},
                    }
                    self.topics.remove(&topic);
                }
            },
            Role::Client => {
                self.topics.remove(&topic);
            },
        }
    }

    /// The close command could not be queued (no queue, or the queue
    /// refused it): nothing is pending any more, so the event loop may stop.
    pub fn close_not_queued(&mut self)
        ensures
            !final(self).spec_close_pending(),
            final(self).spec_role() == old(self).spec_role(),
            final(self).spec_ids() == old(self).spec_ids(),
            final(self).spec_closed() == old(self).spec_closed(),
            final(self).spec_connected() == old(self).spec_connected(),
            final(self).spec_stats() == old(self).spec_stats(),
            final(self).spec_topics() == old(self).spec_topics(),
    {
        self.close_pending = false;
    }

    /// The connection id (0 for a client).
    pub fn id(&self) -> (id: u32)
        ensures
            id == self.spec_ids().0,
    {
        self.connection_id
    }

    /// The id of the connection's subscriber in the pub/sub system, which
    /// is removed from it once the event loop ends (none for a client).
    pub fn subscriber_id(&self) -> (id: Option<u64>)
        ensures
            id == self.spec_ids().1,
    {
        self.subscriber_id
    }

    /// Whether `topic` is among the recorded subscriptions.
    pub fn is_subscribed(&self, topic: &String) -> (b: bool)
        ensures
            b == self.spec_topics().contains(topic@),
    {
        self.topics.contains(topic)
    }

    /// All recorded subscriptions, each once.
    pub fn subscriptions(&self) -> (v: Vec<String>)
        ensures
            crate::topics::names_view(v@).to_set() == self.spec_topics(),
            crate::topics::distinct_names(v@),
    {
        self.topics.to_vec()
    }

    /// The command that publishes `message` to `topic` for everyone but
    /// this connection; `None` once the connection is closed.
    pub fn publish(&self, topic: String, message: Message) -> (cmd: Option<SendCommand>)
        ensures
            self.spec_closed() ==> cmd is None,
            !self.spec_closed() ==> (cmd matches Some(SendCommand::Publish(t, m)) && t@ == topic@
                && m == message),
    {
        if self.closed {
            None
        } else {
            Some(SendCommand::Publish(topic, message))
        }
    }

    /// Whether the connection is closed.
    pub fn is_closed(&self) -> (b: bool)
        ensures
            b == self.spec_closed(),
    {
        self.closed
    }

    /// Whether a client is connected: connected and not closed.
    pub fn is_connected(&self) -> (b: bool)
        ensures
            b == (self.spec_connected() && !self.spec_closed()),
    {
        self.connected && !self.closed
    }

    /// Whether the write side is backpressured.
    pub fn is_backpressured(&self) -> (b: bool)
        ensures
            b == self.spec_stats().is_backpressured,
    {
        self.stats.is_backpressured
    }

    /// The connection's statistics, truncated to 32 bits.
    pub fn stats(&self) -> (s: ConnectionStats)
        ensures
            s == (ConnectionStats {
                messages_sent: crate::stats::low32(self.spec_stats().messages_sent),
                messages_received: crate::stats::low32(self.spec_stats().messages_received),
                bytes_sent: crate::stats::low32(self.spec_stats().bytes_sent),
                bytes_received: crate::stats::low32(self.spec_stats().bytes_received),
                write_buffer_size: crate::stats::low32(self.spec_stats().write_buffer_size),
                is_backpressured: self.spec_stats().is_backpressured,
            }),
    {
        self.stats.snapshot()
    }

    /// Whether a client may start connecting: only when not yet connected.
    pub fn may_connect(&self) -> (b: bool)
        ensures
            b == !self.spec_connected(),
    {
        !self.connected
    }

    /// Record that the handshake succeeded.
    pub fn mark_connected(&mut self)
        ensures
            final(self).spec_connected(),
            final(self).spec_closed() == old(self).spec_closed(),
            final(self).spec_close_pending() == old(self).spec_close_pending(),
            final(self).spec_role() == old(self).spec_role(),
            final(self).spec_ids() == old(self).spec_ids(),
            final(self).spec_stats() == old(self).spec_stats(),
            final(self).spec_topics() == old(self).spec_topics(),
    {
        self.connected = true;
    }
}


/// The close reason reported for a received close frame: its own, or
/// normal closure with an empty reason when it carries none.
pub open spec fn reported_close(info: Option<(u16, Seq<char>)>) -> (u16, Seq<char>) {
    match info {
        Some(r) => r,
        None => (DEFAULT_CLOSE_CODE, Seq::empty()),
    }
}

/// Whether a round of queued commands is full.
pub fn round_is_full(handled: usize) -> (b: bool)
    ensures
        b == (handled >= MAX_COMMANDS_PER_ROUND),
{
    handled >= MAX_COMMANDS_PER_ROUND
}

impl ConnectionState {
    /// Whether the event loop keeps running: until the connection closes,
    /// and after a requested close until the close frame has been sent.
    pub fn keeps_running(&self) -> (b: bool)
        ensures
            b == loop_runs(*self),
    {
        !self.closed || self.close_pending
    }

    /// Stop the connection: closed, no longer connected, nothing pending.
    fn stop(&mut self)
        ensures
            final(self).spec_closed(),
            !final(self).spec_connected(),
            !final(self).spec_close_pending(),
            final(self).spec_role() == old(self).spec_role(),
            final(self).spec_ids() == old(self).spec_ids(),
            final(self).spec_stats() == old(self).spec_stats(),
            final(self).spec_topics() == old(self).spec_topics(),
    {
        self.closed = true;
        self.connected = false;
        self.close_pending = false;
    }

    /// A frame of `wire_size` bytes arrived. It is counted; a close frame
    /// stops the connection and is reported with its close reason (normal
    /// closure with an empty reason when it has none); any other message is
    /// delivered.
    pub fn on_incoming(&mut self, message: Message, wire_size: u64) -> (action: IncomingAction)
        ensures
            final(self).spec_role() == old(self).spec_role(),
            final(self).spec_ids() == old(self).spec_ids(),
            final(self).spec_topics() == old(self).spec_topics(),
            final(self).spec_stats() == (ConnectionStatsInner {
                messages_received: wrap_add(old(self).spec_stats().messages_received, 1),
                bytes_received: wrap_add(old(self).spec_stats().bytes_received, wire_size),
                ..old(self).spec_stats()
            }),
            message.kind() == MessageType::Close ==> {
                &&& final(self).spec_closed()
                &&& !final(self).spec_connected()
                &&& !final(self).spec_close_pending()
                &&& (action matches IncomingAction::Closed(r) && close_reason_view(r)
                    == reported_close(message.close_info()))
            },
            message.kind() == MessageType::Close ==> (message.close_info() matches Some(info) ==> (
            action matches IncomingAction::Closed(r) && r.code == info.0 && r.reason@ == info.1)),
            message.kind() == MessageType::Close && message.close_info() is None ==> (
            action matches IncomingAction::Closed(r) && r.code == 1000 && r.reason@
                == Seq::<char>::empty()),
            message.kind() != MessageType::Close ==> {
                &&& final(self).spec_closed() == old(self).spec_closed()
                &&& final(self).spec_close_pending() == old(self).spec_close_pending()
                &&& final(self).spec_connected() == old(self).spec_connected()
                &&& (action matches IncomingAction::Deliver(m) && m == message)
            },
    {
        self.stats.record_received(wire_size);
        if message.is_close() {
            let reason = match message.close_reason() {
                Some(r) => r,
                None => CloseReason { code: DEFAULT_CLOSE_CODE, reason: String::new() },
            };
            self.stop();
            IncomingAction::Closed(reason)
        } else {
            IncomingAction::Deliver(message)
        }
    }

    /// Receiving or sending failed. The error is reported in any case; a
    /// fatal one stops the connection. Returns whether the loop stops.
    pub fn on_error(&mut self, fatal: bool) -> (stop: bool)
        ensures
            stop == fatal,
            final(self).spec_role() == old(self).spec_role(),
            final(self).spec_ids() == old(self).spec_ids(),
            final(self).spec_stats() == old(self).spec_stats(),
            final(self).spec_topics() == old(self).spec_topics(),
            fatal ==> final(self).spec_closed() && !final(self).spec_connected()
                && !final(self).spec_close_pending(),
            !fatal ==> *final(self) == *old(self),
    {
        if fatal {
            self.stop();
        }
        fatal
    }

    /// The stream ended without a close frame: the connection stops and the
    /// close is reported as abnormal closure, "Connection closed".
    pub fn on_stream_end(&mut self) -> (reason: CloseReason)
        ensures
            final(self).spec_closed(),
            !final(self).spec_connected(),
            !final(self).spec_close_pending(),
            final(self).spec_role() == old(self).spec_role(),
            final(self).spec_ids() == old(self).spec_ids(),
            final(self).spec_stats() == old(self).spec_stats(),
            final(self).spec_topics() == old(self).spec_topics(),
            reason.code == ABNORMAL_CLOSE_CODE,
            reason.reason@ == "Connection closed"@,
    {
        self.stop();
        let text = String::from_str("Connection closed");
        CloseReason { code: ABNORMAL_CLOSE_CODE, reason: text }
    }

    /// What the event loop does with a queued command. Messages are sent.
    /// On a connection with a subscriber in the pub/sub system (a server
    /// connection), a publish goes to the pub/sub system excluding that
    /// subscriber; without one (a client) it is ignored. A close command
    /// sends a
    /// close frame with its code and reason, flushes, and stops the
    /// connection.
    pub fn on_command(&mut self, cmd: SendCommand) -> (action: CommandAction)
        ensures
            command_step(*old(self), cmd, *final(self), action),
    {
        match cmd {
            SendCommand::Message(m) => CommandAction::SendFrame(m),
            SendCommand::Publish(t, m) => match self.subscriber_id {
                Some(sid) => CommandAction::PublishExcluding(sid, t, m),
                None => CommandAction::Ignore,
            },
            SendCommand::Close(code, reason) => {
                self.stop();
                let frame = Message::close(Some(code as u32), Some(reason));
                CommandAction::SendCloseAndStop(frame)
            },
        }
    }

    /// End of a round of queued commands: record the transport's
    /// write-buffer state, and report whether to flush (when any command was
    /// handled).
    pub fn finish_round(&mut self, handled: usize, backpressured: bool, buffer_len: u64) -> (flush:
        bool)
        ensures
            flush == (handled > 0),
            final(self).spec_stats() == (ConnectionStatsInner {
                is_backpressured: backpressured,
                write_buffer_size: buffer_len,
                ..old(self).spec_stats()
            }),
            final(self).spec_role() == old(self).spec_role(),
            final(self).spec_ids() == old(self).spec_ids(),
            final(self).spec_closed() == old(self).spec_closed(),
            final(self).spec_close_pending() == old(self).spec_close_pending(),
            final(self).spec_connected() == old(self).spec_connected(),
            final(self).spec_topics() == old(self).spec_topics(),
    {
        self.stats.record_write_buffer(backpressured, buffer_len);
        handled > 0
    }

    /// Whether a round that a command stopped still ends with its flush and
    /// write-buffer bookkeeping: on a server connection yes; a client's loop
    /// returns at once.
    pub fn finishes_round_after_stop(&self) -> (b: bool)
        ensures
            b == (self.spec_role() == Role::Server),
    {
        match self.role {
            Role::Server => true,
            Role::Client => false,
        }
    }
}


/// The capacity of a connection's send queue: `queue_size` commands, or
/// unbounded (`None`) when it is 0.
pub fn queue_capacity(queue_size: usize) -> (cap: Option<usize>)
    ensures
        cap == (if queue_size > 0 {
            Some(queue_size)
        } else {
            None::<usize>
        }),
{
    if queue_size > 0 {
        Some(queue_size)
    } else {
        None
    }
}

/// Set up a connection the server accepted under `connection_id`: it gets
/// a new subscriber in the pub/sub system, and an open state that knows
/// both ids. `None`, with the registry unchanged, once subscriber ids are
/// exhausted.
pub fn open_server_connection(registry: &mut PubSubRegistry, connection_id: u32) -> (c: Option<
    ConnectionState,
>)
    ensures
        old(registry).spec_next_id() == u64::MAX ==> c is None && final(registry).subscribers()
            == old(registry).subscribers() && final(registry).socket_ids()
            == old(registry).socket_ids(),
        old(registry).spec_next_id() < u64::MAX ==> {
            &&& final(registry).subscribers() == old(registry).subscribers().push(
                (old(registry).spec_next_id(), Set::<Seq<char>>::empty()),
            )
            &&& final(registry).socket_ids() == old(registry).socket_ids()
            &&& final(registry).spec_next_id() == old(registry).spec_next_id() + 1
            &&& c matches Some(state) && state.spec_role() == Role::Server && state.spec_ids() == (
                connection_id,
                Some(old(registry).spec_next_id()),
            ) && !state.spec_closed() && !state.spec_close_pending() && state.spec_connected()
                && state.spec_stats() == ConnectionStatsInner::zero() && state.spec_topics()
                == Set::<Seq<char>>::empty()
        },
        final(registry).spec_published() == old(registry).spec_published(),
        distinct_ids(final(registry).subscribers()),
        c matches Some(state) ==> in_sync(state, final(registry).subscribers()),
{
    match registry.create_subscriber(None) {
        Some(sid) => {
            let state = ConnectionState::new_server(connection_id, sid);
            proof {
                lemma_open_in_sync(old(registry).subscribers(), state, sid);
            }
            Some(state)
        },
        None => None,
    }
}

/// Apply a publish of a server connection's event loop to the registry:
/// publish to the topic excluding the connection's subscriber and return
/// the subscribers the message is handed to (none when nobody follows the
/// topic). Any other action changes nothing and reaches nobody.
pub fn apply_pubsub_action(registry: &mut PubSubRegistry, action: &CommandAction) -> (to: Vec<u64>)
    ensures
        final(registry).socket_ids() == old(registry).socket_ids(),
        final(registry).spec_next_id() == old(registry).spec_next_id(),
        final(registry).subscribers() == old(registry).subscribers(),
        match *action {
            CommandAction::PublishExcluding(id, t, _) => {
                &&& final(registry).spec_published() == (if has_followers(
                    old(registry).subscribers(),
                    t@,
                ) {
                    crate::stats::wrap_add(old(registry).spec_published(), 1)
                } else {
                    old(registry).spec_published()
                })
                &&& to@ == (if has_followers(old(registry).subscribers(), t@) {
                    recipients(old(registry).subscribers(), t@, Some(id))
                } else {
                    Seq::<u64>::empty()
                })
            },
            _ => {
                &&& final(registry).spec_published() == old(registry).spec_published()
                &&& to@ == Seq::<u64>::empty()
            },
        },
{
    match action {
        CommandAction::PublishExcluding(id, t, _) => match registry.publish(t, Some(*id)) {
            Some(v) => v,
            None => Vec::new(),
        },
        _ => Vec::new(),
    }
}

/// The event loop of a server connection has ended: its subscriber is
/// removed from the registry (with every socket id naming it), so nothing
/// is delivered to it any more. A client has no subscriber and leaves the
/// registry alone. Returns whether a subscriber was removed.
pub fn release_subscriber(c: &ConnectionState, registry: &mut PubSubRegistry) -> (removed: bool)
    ensures
        match c.spec_ids().1 {
            Some(sid) => {
                &&& removed == (position(old(registry).subscribers(), sid) is Some)
                &&& final(registry).subscribers() == (match position(
                    old(registry).subscribers(),
                    sid,
                ) {
                    Some(i) => old(registry).subscribers().remove(i),
                    None => old(registry).subscribers(),
                })
                &&& final(registry).socket_ids() == crate::pubsub::sockets_without(
                    old(registry).socket_ids(),
                    sid,
                )
                &&& position(final(registry).subscribers(), sid) is None
            },
            None => !removed && *final(registry) == *old(registry),
        },
        final(registry).spec_next_id() == old(registry).spec_next_id(),
        final(registry).spec_published() == old(registry).spec_published(),
{
    match c.subscriber_id {
        Some(sid) => {
            let ghost before = registry.subscribers();
            let removed = registry.remove_subscriber(sid);
            proof {
                if position(before, sid) is Some {
                    crate::pubsub::lemma_removed_receives_nothing(before, sid, Seq::empty());
                }
            }
            removed
        },
        None => false,
    }
}

proof fn lemma_pending_through(
    states: Seq<ConnectionState>,
    cmds: Seq<SendCommand>,
    actions: Seq<CommandAction>,
    k: int,
)
    requires
        command_run(states, cmds, actions),
        states[0].spec_closed(),
        states[0].spec_close_pending(),
        0 <= k < cmds.len(),
        forall|i: int| 0 <= i < cmds.len() - 1 ==> !(#[trigger] cmds[i] is Close),
    ensures
        states[k].spec_closed(),
        states[k].spec_close_pending(),
    decreases k,
{
    if k > 0 {
        let j = k - 1;
        lemma_pending_through(states, cmds, actions, j);
        assert(command_step(states[j], cmds[j], states[j + 1], actions[j]));
        assert(!(cmds[j] is Close));
        assert(states[j + 1] == states[k]);
    }
}

/// Closing writes exactly one close frame. Once a close is requested on an
/// open connection, its close command is queued behind the commands queued
/// before it (none of them a close), and the event loop handles the queue
/// in order: the loop keeps running up to the close command, writes no
/// close frame before it, writes for it a close frame with the requested
/// code (1000 when none is given) and reason (empty when none is given),
/// and stops there. Every later close request changes nothing and queues
/// nothing.
pub proof fn lemma_close_writes_one_frame(
    pre: ConnectionState,
    code: Option<u32>,
    reason: Option<String>,
    cmd: Option<SendCommand>,
    states: Seq<ConnectionState>,
    cmds: Seq<SendCommand>,
    actions: Seq<CommandAction>,
)
    requires
        !pre.spec_closed(),
        command_run(states, cmds, actions),
        close_request(pre, code, reason, states[0], cmd),
        cmds.len() > 0,
        cmd == Some(cmds.last()),
        forall|i: int| 0 <= i < cmds.len() - 1 ==> !(#[trigger] cmds[i] is Close),
    ensures
        forall|i: int| 0 <= i < cmds.len() ==> loop_runs(#[trigger] states[i]),
        forall|i: int| 0 <= i < cmds.len() - 1 ==> !(#[trigger] actions[i] is SendCloseAndStop),
        actions.last() matches CommandAction::SendCloseAndStop(m) && m.kind() == MessageType::Close
            && m.close_info() == Some((requested_close_code(code), requested_close_reason(reason))),
        !loop_runs(states.last()),
        forall|i: int| 0 <= i < states.len() ==> (#[trigger] states[i]).spec_closed(),
        forall|c: Option<u32>, r: Option<String>, post: ConnectionState, again: Option<SendCommand>|
            #[trigger] close_request(states[0], c, r, post, again) ==> again is None && post
                == states[0],
{
    let n = cmds.len() - 1;
    assert forall|i: int| 0 <= i < cmds.len() implies loop_runs(#[trigger] states[i])
        && states[i].spec_closed() by {
        lemma_pending_through(states, cmds, actions, i);
    }
    assert forall|i: int| 0 <= i < cmds.len() - 1 implies !(#[trigger] actions[i] is SendCloseAndStop) by {
        assert(command_step(states[i], cmds[i], states[i + 1], actions[i]));
        assert(!(cmds[i] is Close));
    }
    assert(command_step(states[n], cmds[n], states[n + 1], actions[n]));
    assert(states.last() == states[n + 1]);
    assert forall|i: int| 0 <= i < states.len() implies (#[trigger] states[i]).spec_closed() by {
        if i < cmds.len() {
            lemma_pending_through(states, cmds, actions, i);
        }
    }
}

/// A server connection opened on a registry starts in sync with it.
pub proof fn lemma_open_in_sync(subs: Seq<SubscriberView>, c: ConnectionState, sid: u64)
    requires
        distinct_ids(subs.push((sid, Set::<Seq<char>>::empty()))),
        c.spec_role() == Role::Server,
        c.spec_ids().1 == Some(sid),
        c.spec_topics() == Set::<Seq<char>>::empty(),
    ensures
        in_sync(c, subs.push((sid, Set::<Seq<char>>::empty()))),
{
    let after = subs.push((sid, Set::<Seq<char>>::empty()));
    crate::pubsub::lemma_position_at(after, after.len() - 1);
}

/// Subscribing and unsubscribing keep an open server connection in sync
/// with the registry: afterwards its subscriber follows exactly the topics
/// the connection records.
pub proof fn lemma_edit_keeps_sync(
    pre: ConnectionState,
    reg: PubSubRegistry,
    post: ConnectionState,
    reg2: PubSubRegistry,
    topic: Seq<char>,
    add: bool,
)
    requires
        distinct_ids(reg.subscribers()),
        in_sync(pre, reg.subscribers()),
        topic_edit(pre, reg, post, reg2, topic, add),
    ensures
        in_sync(post, reg2.subscribers()),
        distinct_ids(reg2.subscribers()),
{
    match pre.spec_ids().1 {
        Some(sid) => {
            if pre.spec_role() == Role::Server && !pre.spec_closed() {
                crate::pubsub::lemma_subscribe_unsubscribe(reg.subscribers(), sid, topic);
                let subs = reg.subscribers();
                let i = position(subs, sid)->0;
                assert(subs[i].0 == sid);
                let after = reg2.subscribers();
                assert forall|x: int, y: int| 0 <= x < y < after.len() implies after[x].0
                    != after[y].0 by {
                    assert(after[x].0 == subs[x].0 && after[y].0 == subs[y].0);
                }
                crate::pubsub::lemma_position_at(after, i);
            }
        },
        None => {},
    }
}

/// What other subscribers do in the registry keeps a connection in sync:
/// changing the topics of another subscriber, or removing another one.
pub proof fn lemma_others_keep_sync(
    c: ConnectionState,
    subs: Seq<SubscriberView>,
    other: u64,
    topics: Set<Seq<char>>,
)
    requires
        distinct_ids(subs),
        in_sync(c, subs),
        c.spec_ids().1 != Some(other),
    ensures
        in_sync(c, with_topics(subs, other, topics)),
        position(subs, other) is Some ==> in_sync(c, subs.remove(position(subs, other)->0)),
{
    match c.spec_ids().1 {
        Some(sid) => {
            crate::pubsub::lemma_others_keep_topics(subs, other, topics, sid);
            if c.spec_role() == Role::Server && !c.spec_closed() {
                let i = position(subs, sid)->0;
                assert(subs[i].0 == sid);
                let a = with_topics(subs, other, topics);
                assert(a[i].0 == sid);
                if position(subs, other) is Some {
                    let q = position(subs, other)->0;
                    assert(subs[q].0 == other);
                    let r = subs.remove(q);
                    let k = if i < q { i } else { i - 1 };
                    assert(r[k] == subs[i]);
                }
            }
        },
        None => {},
    }
}

/// Delivery follows subscription: while an open server connection is in
/// sync with the registry, every publish to a topic it records as
/// subscribed reaches its subscriber, unless the publish excludes that
/// subscriber (its own publish); a publish to a topic it does not record
/// never reaches it.
pub proof fn lemma_subscribed_receives(
    c: ConnectionState,
    subs: Seq<SubscriberView>,
    topic: Seq<char>,
    exclude: Option<u64>,
)
    requires
        distinct_ids(subs),
        in_sync(c, subs),
        c.spec_role() == Role::Server,
        !c.spec_closed(),
        c.spec_ids().1 is Some,
    ensures
        recipients(subs, topic, exclude).contains(c.spec_ids().1->0) <==> (c.spec_topics().contains(
            topic,
        ) && exclude != Some(c.spec_ids().1->0)),
        c.spec_topics().contains(topic) ==> has_followers(subs, topic),
{
    let sid = c.spec_ids().1->0;
    crate::pubsub::lemma_recipients_members(subs, topic, exclude, sid);
    crate::pubsub::lemma_recipients_members(subs, topic, None, sid);
    crate::pubsub::lemma_followers_iff_recipients(subs, topic);
}

/// A received close frame is reported with the peer's own code and reason,
/// whatever the reason text (the empty one included); normal closure with
/// an empty reason is reported only for a close frame that carries no
/// close reason at all.
pub proof fn lemma_peer_close_reported_as_sent(code: u16, text: Seq<char>)
    ensures
        reported_close(Some((code, text))) == (code, text),
        reported_close(Some((code, text))).0 == code,
        reported_close(None::<(u16, Seq<char>)>) == (1000u16, Seq::<char>::empty()),
{
}

/// The size counted for a sent message is the number of bytes of its
/// payload (for a text message, of the UTF-8 encoding of its text, not the
/// number of its characters), and nothing for a close frame.
pub proof fn lemma_counted_size_is_payload_bytes(m: Message)
    ensures
        m.kind() == MessageType::Close ==> counted_size(m) == 0,
        m.kind() != MessageType::Close ==> counted_size(m) == m.payload().len(),
        m.kind() == MessageType::Text ==> counted_size(m) == encode_utf8(m.text_chars()).len(),
{
    if m.kind() == MessageType::Text {
        m.lemma_text_payload();
    }
}

} // verus!
