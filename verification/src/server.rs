//! Server and client options, and the server's own bookkeeping: whether
//! it runs, connection counters, ids for accepted connections, and the
//! count of messages published through it.

use vstd::prelude::*;

use crate::config::Config;
use crate::stats::{low32, wrap_add};

verus! {

/// Host a server binds to when none is given.
pub open spec fn default_host() -> Seq<char> {
    "0.0.0.0"@
}

/// The decimal digits of `n`, most significant first.
pub open spec fn decimal(n: nat) -> Seq<char>
    decreases n,
{
    if n < 10 {
        seq![(48 + n) as char]
    } else {
        decimal(n / 10).push((48 + n % 10) as char)
    }
}

/// Calls `format!("{}:{}", host, port)`: the host's characters, a colon,
/// and the port in decimal, as std's `Display` writes integers.
#[verifier::external_body]
fn format_host_port(host: &str, port: u16) -> (s: String)
    ensures
        s@ == host@ + seq![':'] + decimal(port as nat),
{
    format!("{}:{}", host, port)
}

/// Send queue size per connection when none is given (0 = unbounded).
pub const DEFAULT_QUEUE_SIZE: u32 = 1024;

/// Options for creating a WebSocket server.
#[derive(Debug, Clone)]
pub struct ServerOptions {
    /// Port to listen on
    pub port: u16,
    /// Host to bind to (default: "0.0.0.0")
    pub host: Option<String>,
    /// WebSocket configuration
    pub config: Option<Config>,
    /// Send queue size per connection (0 = unbounded, default: 1024)
    pub queue_size: Option<u32>,
}

/// Options for connecting to a WebSocket server.
#[derive(Debug, Clone)]
pub struct ClientOptions {
    /// WebSocket URL (ws:// or wss://)
    pub url: String,
    /// WebSocket configuration
    pub config: Option<Config>,
    /// WebSocket subprotocol to request
    pub protocol: Option<String>,
    /// Send queue size (0 = unbounded, default: 1024)
    pub queue_size: Option<u32>,
}

/// Server statistics.
#[derive(Debug, Clone, Copy, PartialEq, Eq, Structural)]
pub struct ServerStats {
    /// Total connections accepted
    pub total_connections: u32,
    /// Currently active connections
    pub active_connections: u32,
    /// Total topics in pub/sub system
    pub topic_count: u32,
    /// Total messages published via the server's publish
    pub messages_published: u32,
}

/// The settings a client runs with once its options are resolved.
pub struct ClientSettings {
    pub url: String,
    pub config: Config,
    pub protocol: Option<String>,
    pub queue_size: usize,
}

/// The queue size that an optional setting resolves to.
pub open spec fn resolved_queue_size(q: Option<u32>) -> usize {
    match q {
        Some(n) => n as usize,
        None => DEFAULT_QUEUE_SIZE as usize,
    }
}

/// The settings of a client: missing configuration and queue size take
/// their defaults.
pub fn client_settings(options: ClientOptions) -> (s: ClientSettings)
    ensures
        s.url@ == options.url@,
        s.config == (match options.config {
            Some(c) => c,
            None => crate::config::spec_default_config(),
        }),
        s.protocol == options.protocol,
        s.queue_size == resolved_queue_size(options.queue_size),
        options.queue_size matches Some(n) ==> s.queue_size == n as usize,
        options.queue_size is None ==> s.queue_size == 1024,
{
    let config = match options.config {
        Some(c) => c,
        None => Config::default(),
    };
    let queue_size = match options.queue_size {
        Some(n) => n as usize,
        None => DEFAULT_QUEUE_SIZE as usize,
    };
    ClientSettings { url: options.url, config, protocol: options.protocol, queue_size }
}

/// `s` without its first occurrence of `id` (unchanged when `id` does not
/// occur).
pub open spec fn remove_first(s: Seq<u32>, id: u32) -> Seq<u32>
    decreases s.len(),
{
    if s.len() == 0 {
        s
    } else if s[0] == id {
        s.drop_first()
    } else {
        seq![s[0]] + remove_first(s.drop_first(), id)
    }
}

proof fn lemma_remove_first_at(s: Seq<u32>, id: u32, i: int)
    requires
        0 <= i < s.len(),
        s[i] == id,
        forall|j: int| 0 <= j < i ==> s[j] != id,
    ensures
        remove_first(s, id) == s.remove(i),
    decreases i,
{
    if i > 0 {
        let t = s.drop_first();
        assert forall|j: int| 0 <= j < i - 1 implies t[j] != id by {
            assert(t[j] == s[j + 1]);
        }
        lemma_remove_first_at(t, id, i - 1);
        assert(seq![s[0]] + t.remove(i - 1) =~= s.remove(i));
    }
}

proof fn lemma_remove_first_absent(s: Seq<u32>, id: u32)
    requires
        forall|j: int| 0 <= j < s.len() ==> s[j] != id,
    ensures
        remove_first(s, id) == s,
    decreases s.len(),
{
    if s.len() > 0 {
        let t = s.drop_first();
        assert forall|j: int| 0 <= j < t.len() implies t[j] != id by {
            assert(t[j] == s[j + 1]);
        }
        lemma_remove_first_absent(t, id);
        assert(seq![s[0]] + t =~= s);
    }
}

/// The id given by the `k`-th accept after the id `last` was handed out.
pub open spec fn id_after(last: u32, k: nat) -> int {
    (last + k) % 0x1_0000_0000
}

/// Connection ids count up from the last one handed out: accepting once
/// more after the `k`-th accept gives the `k + 1`-th id, and of fewer than
/// 2^32 accepts in a row no two give the same id.
pub proof fn lemma_accept_ids_distinct(last: u32, i: nat, j: nat)
    requires
        1 <= i < j < 0x1_0000_0000,
    ensures
        id_after(id_after(last, i) as u32, 1) == id_after(last, i + 1),
        id_after(last, i) != id_after(last, j),
{
    let a: int = last + i;
    let b: int = last + j;
    assert(0 < b - a < 0x1_0000_0000);
    assert(a % 0x1_0000_0000 != b % 0x1_0000_0000) by (nonlinear_arith)
        requires
            0 < b - a < 0x1_0000_0000,
            a >= 0,
    {
    }
    assert((a % 0x1_0000_0000 + 1) % 0x1_0000_0000 == (a + 1) % 0x1_0000_0000) by (nonlinear_arith)
        requires
            a >= 0,
    {
    }
}

/// The state of a WebSocket server apart from its sockets.
pub struct ServerState {
    host: String,
    port: u16,
    config: Config,
    queue_size: usize,
    running: bool,
    open: Vec<u32>,
    total_connections: u64,
    messages_published: u64,
    last_connection_id: u32,
    accepted: Ghost<nat>,
    ended: Ghost<nat>,
}

impl ServerState {
    pub closed spec fn spec_host(&self) -> Seq<char> {
        self.host@
    }

    pub closed spec fn spec_port(&self) -> u16 {
        self.port
    }

    pub closed spec fn spec_config(&self) -> Config {
        self.config
    }

    pub closed spec fn spec_queue_size(&self) -> usize {
        self.queue_size
    }

    pub closed spec fn spec_running(&self) -> bool {
        self.running
    }

    /// The ids of the connections accepted and not yet ended, oldest first.
    pub closed spec fn spec_open(&self) -> Seq<u32> {
        self.open@
    }

    /// Well-formed: every accepted connection is open or has ended, and the
    /// total counter holds the number accepted (modulo 2^64).
    pub closed spec fn wf(&self) -> bool {
        &&& self.open@.len() + self.ended@ == self.accepted@
        &&& self.total_connections == self.accepted@ % 0x1_0000_0000_0000_0000
    }

    /// How many connections were accepted, and how many of them have ended
    /// (failed handshake or closed), since the server was created.
    pub closed spec fn spec_history(&self) -> (nat, nat) {
        (self.accepted@, self.ended@)
    }

    /// Total accepted connections, messages published, and the last
    /// connection id handed out.
    pub closed spec fn spec_counters(&self) -> (u64, u64, u32) {
        (self.total_connections, self.messages_published, self.last_connection_id)
    }

    /// A stopped server with the given options: host "0.0.0.0", the default
    /// configuration and a queue of 1024 unless given, no connections, all
    /// counters zero.
    pub fn new(options: ServerOptions) -> (s: Self)
        ensures
            s.spec_host() == (match options.host {
                Some(h) => h@,
                None => default_host(),
            }),
            s.spec_port() == options.port,
            s.spec_config() == (match options.config {
                Some(c) => c,
                None => crate::config::spec_default_config(),
            }),
            s.spec_queue_size() == resolved_queue_size(options.queue_size),
            options.queue_size matches Some(n) ==> s.spec_queue_size() == n as usize,
            options.queue_size is None ==> s.spec_queue_size() == 1024,
            !s.spec_running(),
            s.spec_open() == Seq::<u32>::empty(),
            s.spec_counters() == (0u64, 0u64, 0u32),
            s.spec_history() == (0nat, 0nat),
            s.wf(),
    {
        let host = match options.host {
            Some(h) => h,
            None => String::from_str("0.0.0.0"),
        };
        let config = match options.config {
            Some(c) => c,
            None => Config::default(),
        };
        let queue_size = match options.queue_size {
            Some(n) => n as usize,
            None => DEFAULT_QUEUE_SIZE as usize,
        };
        ServerState {
            host,
            port: options.port,
            config,
            queue_size,
            running: false,
            open: Vec::new(),
            total_connections: 0,
            messages_published: 0,
            last_connection_id: 0,
            accepted: Ghost(0),
            ended: Ghost(0),
        }
    }

    /// Start the server: refused when it is already running, otherwise it
    /// is marked running.
    pub fn try_start(&mut self) -> (started: bool)
        requires
            old(self).wf(),
        ensures
            started == !old(self).spec_running(),
            final(self).spec_running(),
            final(self).spec_open() == old(self).spec_open(),
            final(self).spec_counters() == old(self).spec_counters(),
            final(self).spec_host() == old(self).spec_host(),
            final(self).spec_port() == old(self).spec_port(),
            final(self).wf(),
            final(self).spec_history() == old(self).spec_history(),
    {
        if self.running {
            false
        } else {
            self.running = true;
            true
        }
    }

    /// Starting failed (the listener could not be bound): the server is not
    /// running, so a later start can be tried.
    pub fn start_failed(&mut self)
        requires
            old(self).wf(),
        ensures
            !final(self).spec_running(),
            final(self).spec_open() == old(self).spec_open(),
            final(self).spec_counters() == old(self).spec_counters(),
            final(self).spec_host() == old(self).spec_host(),
            final(self).spec_port() == old(self).spec_port(),
            final(self).wf(),
            final(self).spec_history() == old(self).spec_history(),
    {
        self.running = false;
    }

    /// Stop the server. A running server stops accepting connections and
    /// returns the ids of its open connections, which are to be closed; a
    /// server already stopped returns none and changes nothing.
    pub fn stop(&mut self) -> (to_close: Vec<u32>)
        requires
            old(self).wf(),
        ensures
            !final(self).spec_running(),
            to_close@ == (if old(self).spec_running() {
                old(self).spec_open()
            } else {
                Seq::<u32>::empty()
            }),
            final(self).spec_open() == old(self).spec_open(),
            final(self).spec_counters() == old(self).spec_counters(),
            final(self).spec_host() == old(self).spec_host(),
            final(self).spec_port() == old(self).spec_port(),
            final(self).wf(),
            final(self).spec_history() == old(self).spec_history(),
    {
        if self.running {
            self.running = false;
            let ids = self.open.clone();
            proof {
                assert(ids@ =~= self.open@);
            }
            ids
        } else {
            Vec::new()
        }
    }

    /// Whether the server is running.
    pub fn is_running(&self) -> (b: bool)
        ensures
            b == self.spec_running(),
    {
        self.running
    }

    /// The port the server listens on.
    pub fn port(&self) -> (p: u16)
        ensures
            p == self.spec_port(),
    {
        self.port
    }

    /// The host the server binds to.
    pub fn host(&self) -> (h: String)
        ensures
            h@ == self.spec_host(),
    {
        self.host.clone()
    }

    /// The address string `host:port`.
    pub fn address(&self) -> (a: String)
        ensures
            a@ == self.spec_host() + seq![':'] + decimal(self.spec_port() as nat),
    {
        format_host_port(self.host.as_str(), self.port)
    }

    /// The configuration connections are accepted with.
    pub fn config(&self) -> (c: Config)
        ensures
            c == self.spec_config(),
    {
        self.config
    }

    /// The send queue size of each connection (0 = unbounded).
    pub fn queue_size(&self) -> (n: usize)
        ensures
            n == self.spec_queue_size(),
    {
        self.queue_size
    }

    /// The listener accepted a connection. A stopped server refuses it
    /// (`None`, nothing changes). A running one gives it the next
    /// connection id (wrapping around at 2^32), counts it, and records it
    /// as open.
    pub fn accept_connection(&mut self) -> (id: Option<u32>)
        requires
            old(self).wf(),
        ensures
            !old(self).spec_running() ==> id is None && *final(self) == *old(self),
            old(self).spec_running() ==> {
                &&& id matches Some(n) && n as int == id_after(old(self).spec_counters().2, 1)
                &&& final(self).spec_counters() == (
                    wrap_add(old(self).spec_counters().0, 1),
                    old(self).spec_counters().1,
                    id->0,
                )
                &&& final(self).spec_open() == old(self).spec_open().push(id->0)
                &&& final(self).spec_running()
                &&& final(self).spec_host() == old(self).spec_host()
                &&& final(self).spec_port() == old(self).spec_port()
                &&& final(self).spec_history() == (old(self).spec_history().0 + 1,
                    old(self).spec_history().1)
            },
            final(self).wf(),
    {
        if !self.running {
            return None;
        }
        self.last_connection_id = self.last_connection_id.wrapping_add(1);
        proof {
            lemma_wrap_succ(self.accepted@);
        }
        self.total_connections = self.total_connections.wrapping_add(1);
        let id = self.last_connection_id;
        self.open.push(id);
        self.accepted = Ghost(self.accepted@ + 1);
        Some(id)
    }

    fn forget(&mut self, id: u32)
        requires
            old(self).wf(),
        ensures
            final(self).spec_open() == remove_first(old(self).spec_open(), id),
            final(self).spec_running() == old(self).spec_running(),
            final(self).spec_counters() == old(self).spec_counters(),
            final(self).spec_host() == old(self).spec_host(),
            final(self).spec_port() == old(self).spec_port(),
            final(self).wf(),
            final(self).spec_history() == (old(self).spec_history().0, old(self).spec_history().1
                + if old(self).spec_open().contains(id) {
                1nat
            } else {
                0nat
            }),
    {
        let mut i: usize = 0;
        while i < self.open.len()
            invariant
                *self == *old(self),
                old(self).wf(),
                i <= self.open@.len(),
                forall|j: int| 0 <= j < i ==> self.open@[j] != id,
            decreases self.open@.len() - i,
        {
            if self.open[i] == id {
                proof {
                    lemma_remove_first_at(self.open@, id, i as int);
                    assert(self.open@.contains(id));
                }
                self.open.remove(i);
                self.ended = Ghost(self.ended@ + 1);
                return;
            }
            i += 1;
        }
        proof {
            lemma_remove_first_absent(self.open@, id);
            assert(!self.open@.contains(id));
        }
    }

    /// The handshake of accepted connection `id` failed: it is no longer
    /// open.
    pub fn handshake_failed(&mut self, id: u32)
        requires
            old(self).wf(),
        ensures
            final(self).spec_open() == remove_first(old(self).spec_open(), id),
            final(self).spec_running() == old(self).spec_running(),
            final(self).spec_counters() == old(self).spec_counters(),
            final(self).spec_host() == old(self).spec_host(),
            final(self).spec_port() == old(self).spec_port(),
            final(self).wf(),
            final(self).spec_history() == (old(self).spec_history().0, old(self).spec_history().1
                + if old(self).spec_open().contains(id) {
                1nat
            } else {
                0nat
            }),
    {
        self.forget(id);
    }

    /// Connection `id` ended (its event loop finished): it is no longer
    /// open.
    pub fn connection_closed(&mut self, id: u32)
        requires
            old(self).wf(),
        ensures
            final(self).spec_open() == remove_first(old(self).spec_open(), id),
            final(self).spec_running() == old(self).spec_running(),
            final(self).spec_counters() == old(self).spec_counters(),
            final(self).spec_host() == old(self).spec_host(),
            final(self).spec_port() == old(self).spec_port(),
            final(self).wf(),
            final(self).spec_history() == (old(self).spec_history().0, old(self).spec_history().1
                + if old(self).spec_open().contains(id) {
                1nat
            } else {
                0nat
            }),
    {
        self.forget(id);
    }

    /// Account for a server-level publish that reached `delivered`
    /// subscribers (`None` when the topic had none): the published counter
    /// grows by that number, which is returned truncated to 32 bits.
    pub fn record_publish(&mut self, delivered: Option<usize>) -> (count: u32)
        requires
            old(self).wf(),
        ensures
            count as int == (match delivered {
                Some(n) => n as int % 0x1_0000_0000,
                None => 0,
            }),
            final(self).spec_counters() == (
                old(self).spec_counters().0,
                match delivered {
                    Some(n) => wrap_add(old(self).spec_counters().1, n as u64),
                    None => old(self).spec_counters().1,
                },
                old(self).spec_counters().2,
            ),
            final(self).spec_open() == old(self).spec_open(),
            final(self).spec_running() == old(self).spec_running(),
            final(self).spec_host() == old(self).spec_host(),
            final(self).spec_port() == old(self).spec_port(),
            final(self).wf(),
            final(self).spec_history() == old(self).spec_history(),
    {
        match delivered {
            Some(n) => {
                self.messages_published = self.messages_published.wrapping_add(n as u64);
                (n as u64 % 0x1_0000_0000) as u32
            },
            None => 0,
        }
    }

    /// The server statistics, given the pub/sub system's topic count: the
    /// accepted total, the open connections, the topics and the published
    /// messages, each truncated to 32 bits.
    pub fn stats(&self, topic_count: usize) -> (s: ServerStats)
        ensures
            s == (ServerStats {
                total_connections: low32(self.spec_counters().0),
                active_connections: low32(self.spec_open().len() as u64),
                topic_count: low32(topic_count as u64),
                messages_published: low32(self.spec_counters().1),
            }),
    {
        ServerStats {
            total_connections: (self.total_connections % 0x1_0000_0000) as u32,
            active_connections: (self.open.len() as u64 % 0x1_0000_0000) as u32,
            topic_count: (topic_count as u64 % 0x1_0000_0000) as u32,
            messages_published: (self.messages_published % 0x1_0000_0000) as u32,
        }
    }
}

proof fn lemma_wrap_succ(a: nat)
    ensures
        wrap_add((a % 0x1_0000_0000_0000_0000) as u64, 1) == (a + 1) % 0x1_0000_0000_0000_0000,
{
    assert(((a % 0x1_0000_0000_0000_0000) + 1) % 0x1_0000_0000_0000_0000 == (a + 1)
        % 0x1_0000_0000_0000_0000) by (nonlinear_arith);
}

/// Over any run of a server, every accepted connection is either still
/// open or has ended (its handshake failed or it closed): the number of
/// open connections, which the statistics report as active, is the number
/// accepted minus the number ended, and the total counter is the number
/// accepted (modulo 2^64).
pub proof fn lemma_open_connections(s: ServerState)
    requires
        s.wf(),
    ensures
        s.spec_open().len() == s.spec_history().0 - s.spec_history().1,
        s.spec_counters().0 == s.spec_history().0 % 0x1_0000_0000_0000_0000,
{
}

/// A queue size that is given is kept exactly as given (0 meaning
/// unbounded); only a missing one takes the default of 1024.
pub proof fn lemma_queue_size_kept(n: u32)
    ensures
        resolved_queue_size(Some(n)) == n as usize,
        resolved_queue_size(None) == 1024,
{
}

} // verus!
