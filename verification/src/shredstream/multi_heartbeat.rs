//! Heartbeats for supplementary ports, sent in turn over one connection so that the number of
//! requests does not grow with the number of ports.
use crate::shredstream::config::{
    total_expected_relays, MULTI_HEARTBEAT_MAX_CONNECTIONS, MULTI_HEARTBEAT_PER_PORT_INTERVAL_SECS,
    MULTI_HEARTBEAT_PORT_START,
};
use crate::shredstream::heartbeat::{
    double_backoff, MAX_RECONNECT_BACKOFF_MS, MIN_RECONNECT_BACKOFF_MS,
};
use vstd::prelude::*;

verus! {

/// Heartbeats that may fail in a row before the client reconnects.
pub const MULTI_MAX_CONSECUTIVE_FAILURES: u32 = 3;

/// Pause before the first heartbeat, in which the main socket's heartbeat settles.
pub const STARTUP_DELAY_MS: u64 = 15_000;

/// Number of supplementary ports for so many known relays; the relay count is a 16-bit number.
pub open spec fn port_count(relays: nat) -> nat {
    let count = relays % 0x1_0000;
    if count > MULTI_HEARTBEAT_MAX_CONNECTIONS {
        MULTI_HEARTBEAT_MAX_CONNECTIONS as nat
    } else {
        count
    }
}

/// The supplementary ports for the given regions, one after the other.
pub fn planned_ports(regions: &[String]) -> (ports: Vec<u16>)
    requires
        11 * regions@.len() <= usize::MAX,
    ensures
        ports@ == Seq::new(
            port_count(crate::shredstream::config::relay_total(regions@)),
            |i: int| (MULTI_HEARTBEAT_PORT_START + i) as u16,
        ),
{
    let expected: usize = total_expected_relays(regions);
    let remainder: u16 = (expected % 0x1_0000) as u16;
    let count: u16 = if remainder > MULTI_HEARTBEAT_MAX_CONNECTIONS {
        MULTI_HEARTBEAT_MAX_CONNECTIONS
    } else {
        remainder
    };
    let mut ports: Vec<u16> = Vec::new();
    let mut i: u16 = 0;
    while i < count
        invariant
            i <= count <= MULTI_HEARTBEAT_MAX_CONNECTIONS,
            ports@ == Seq::new(i as nat, |k: int| (MULTI_HEARTBEAT_PORT_START + k) as u16),
        decreases count - i,
    {
        ports.push(MULTI_HEARTBEAT_PORT_START + i);
        i += 1;
        assert(ports@ =~= Seq::new(i as nat, |k: int| (MULTI_HEARTBEAT_PORT_START + k) as u16));
    }
    ports
}

/// Nanoseconds between two heartbeats for `ports` ports in turn.
pub fn tick_interval_ns(ports: u32) -> (interval: u64)
    ensures
        interval == if ports == 0 {
            MULTI_HEARTBEAT_PER_PORT_INTERVAL_SECS * 1_000_000_000
        } else {
            (MULTI_HEARTBEAT_PER_PORT_INTERVAL_SECS * 1_000_000_000) / ports as int
        },
        ports > 0 ==> interval == 40_000_000_000int / ports as int,
{
    let per_port: u64 = MULTI_HEARTBEAT_PER_PORT_INTERVAL_SECS * 1_000_000_000;
    if ports == 0 {
        per_port
    } else {
        per_port / ports as u64
    }
}

/// A full turn over the ports takes no longer than a registration can wait, 40 seconds.
pub proof fn law_every_port_is_served_in_time(ports: u32)
    requires
        ports > 0,
    ensures
        ((MULTI_HEARTBEAT_PER_PORT_INTERVAL_SECS * 1_000_000_000) / ports as int) * ports
            <= MULTI_HEARTBEAT_PER_PORT_INTERVAL_SECS * 1_000_000_000,
{
    let whole = MULTI_HEARTBEAT_PER_PORT_INTERVAL_SECS * 1_000_000_000;
    vstd::arithmetic::div_mod::lemma_fundamental_div_mod(whole, ports as int);
    vstd::arithmetic::div_mod::lemma_mod_bound(whole, ports as int);
    assert((whole / ports as int) * ports <= whole) by (nonlinear_arith)
        requires
            whole == ports as int * (whole / ports as int) + whole % ports as int,
            whole % ports as int >= 0,
    ;
}

/// Three machines that share an identity together stay below 20 supplementary heartbeats a minute,
/// however the minute falls, and on average within 20 heartbeats a minute with that of the main
/// socket, which is sent as often as that of one supplementary port.
pub proof fn law_three_machines_stay_below_limit(ports: u32)
    requires
        0 < ports <= MULTI_HEARTBEAT_MAX_CONNECTIONS,
    ensures
        ({
            let interval = (MULTI_HEARTBEAT_PER_PORT_INTERVAL_SECS * 1_000_000_000) / ports as int;
            3 * (60_000_000_000int / interval + 1) < 20
        }),
        3 * (ports + 1) * 60 <= 20 * MULTI_HEARTBEAT_PER_PORT_INTERVAL_SECS,
        3 * (MULTI_HEARTBEAT_MAX_CONNECTIONS + 1) * 60 <= 20
            * MULTI_HEARTBEAT_PER_PORT_INTERVAL_SECS,
{
    let whole = MULTI_HEARTBEAT_PER_PORT_INTERVAL_SECS * 1_000_000_000;
    let interval = whole / ports as int;
    if ports == 1 {
        assert(interval == 40_000_000_000);
        assert(60_000_000_000int / interval == 1) by {
            vstd::arithmetic::div_mod::lemma_fundamental_div_mod_converse(
                60_000_000_000,
                interval,
                1,
                20_000_000_000,
            );
        }
    } else if ports == 2 {
        assert(interval == 20_000_000_000);
        assert(60_000_000_000int / interval == 3) by {
            vstd::arithmetic::div_mod::lemma_fundamental_div_mod_converse(
                60_000_000_000,
                interval,
                3,
                0,
            );
        }
    } else {
        assert(interval == 13_333_333_333);
        assert(60_000_000_000int / interval == 4) by {
            vstd::arithmetic::div_mod::lemma_fundamental_div_mod_converse(
                60_000_000_000,
                interval,
                4,
                6_666_666_668,
            );
        }
    }
}

/// What the block engine answers to a supplementary heartbeat.
#[derive(Debug, Clone, Copy, PartialEq, Eq, Structural)]
pub enum MultiReply {
    Registered,
    /// Too many requests; try again after this many milliseconds.
    RateLimited { wait_ms: u64 },
    /// Any other failure.
    Failed,
}

/// What the loop remembers. Points in time are milliseconds of one clock.
#[derive(Debug, Clone, Copy, PartialEq, Eq, Structural)]
pub struct MultiHeartbeat {
    /// Number of heartbeats sent, which selects the port of the next one.
    pub port_idx: usize,
    /// No heartbeat is sent before this time.
    pub backoff_until_ms: Option<u64>,
    /// Pause before the next reconnection.
    pub reconnect_backoff_ms: u64,
    /// Heartbeats that failed in a row on this connection.
    pub consecutive_failures: u32,
}

impl MultiHeartbeat {
    /// The pause stays within its limits.
    pub open spec fn valid(&self) -> bool {
        &&& MIN_RECONNECT_BACKOFF_MS <= self.reconnect_backoff_ms <= MAX_RECONNECT_BACKOFF_MS
        &&& self.consecutive_failures <= MULTI_MAX_CONSECUTIVE_FAILURES
    }

    /// A loop that starts.
    pub open spec fn started() -> MultiHeartbeat {
        MultiHeartbeat {
            port_idx: 0,
            backoff_until_ms: None,
            reconnect_backoff_ms: MIN_RECONNECT_BACKOFF_MS,
            consecutive_failures: 0,
        }
    }

    /// The same with a connection that stands.
    pub open spec fn with_connection(self) -> MultiHeartbeat {
        MultiHeartbeat { consecutive_failures: 0, ..self }
    }

    /// The same before a reconnection.
    pub open spec fn with_reconnection(self) -> MultiHeartbeat {
        MultiHeartbeat {
            reconnect_backoff_ms: crate::shredstream::heartbeat::doubled_backoff(
                self.reconnect_backoff_ms,
            ),
            ..self
        }
    }

    /// Whether the block engine has asked to wait beyond `now_ms`.
    pub open spec fn waits(self, now_ms: u64) -> bool {
        self.backoff_until_ms matches Some(until) && now_ms < until
    }

    /// The same after a tick.
    pub open spec fn with_tick(self, now_ms: u64) -> MultiHeartbeat {
        if self.waits(now_ms) {
            self
        } else {
            MultiHeartbeat {
                port_idx: self.port_idx.wrapping_add(1),
                backoff_until_ms: None,
                ..self
            }
        }
    }

    /// The same after a reply.
    pub open spec fn with_reply(self, reply: MultiReply, now_ms: u64) -> MultiHeartbeat {
        match reply {
            MultiReply::Registered => MultiHeartbeat {
                consecutive_failures: 0,
                reconnect_backoff_ms: MIN_RECONNECT_BACKOFF_MS,
                ..self
            },
            MultiReply::RateLimited { wait_ms } => MultiHeartbeat {
                backoff_until_ms: Some((now_ms + wait_ms) as u64),
                ..self
            },
            MultiReply::Failed => MultiHeartbeat {
                consecutive_failures: (self.consecutive_failures + 1) as u32,
                ..self
            },
        }
    }

    /// The place of the port that a tick sends a heartbeat for.
    pub open spec fn served(self, now_ms: u64, ports: usize) -> Option<int> {
        if self.waits(now_ms) {
            None
        } else {
            Some(port_of(self.port_idx as int, ports))
        }
    }

    /// Whether a reply asks for another connection.
    pub open spec fn gives_up_on(self, reply: MultiReply) -> bool {
        reply == MultiReply::Failed && self.consecutive_failures + 1
            >= MULTI_MAX_CONSECUTIVE_FAILURES
    }

    /// A loop that starts.
    pub fn new() -> (made: MultiHeartbeat)
        ensures
            made.valid(),
            made == MultiHeartbeat::started(),
    {
        MultiHeartbeat {
            port_idx: 0,
            backoff_until_ms: None,
            reconnect_backoff_ms: MIN_RECONNECT_BACKOFF_MS,
            consecutive_failures: 0,
        }
    }

    /// The connection stands.
    pub fn on_connected(&mut self)
        requires
            old(self).valid(),
        ensures
            final(self).valid(),
            *final(self) == old(self).with_connection(),
    {
        self.consecutive_failures = 0;
    }

    /// The connection failed, or was dropped while the service runs on: the pause to wait now; the
    /// next one is twice as long.
    pub fn on_reconnect(&mut self) -> (wait_ms: u64)
        requires
            old(self).valid(),
        ensures
            final(self).valid(),
            wait_ms == old(self).reconnect_backoff_ms,
            *final(self) == old(self).with_reconnection(),
    {
        let wait_ms: u64 = self.reconnect_backoff_ms;
        self.reconnect_backoff_ms = double_backoff(wait_ms);
        wait_ms
    }

    /// A tick at time `now_ms`: the port to send a heartbeat for, by its place among `ports` of
    /// them, or `None` while the block engine has asked to wait.
    pub fn on_tick(&mut self, now_ms: u64, ports: usize) -> (port: Option<usize>)
        requires
            old(self).valid(),
            ports > 0,
        ensures
            final(self).valid(),
            *final(self) == old(self).with_tick(now_ms),
            port == if old(self).waits(now_ms) {
                None
            } else {
                Some(port_of(old(self).port_idx as int, ports) as usize)
            },
            port is Some <==> old(self).served(now_ms, ports) is Some,
            port matches Some(place) ==> Some(place as int) == old(self).served(now_ms, ports),
    {
        if let Some(until) = self.backoff_until_ms {
            if now_ms < until {
                return None;
            }
            self.backoff_until_ms = None;
        }
        let port: usize = self.port_idx % ports;
        self.port_idx = self.port_idx.wrapping_add(1);
        Some(port)
    }

    /// The block engine answered at time `now_ms`; the result says whether to reconnect, which
    /// the third failure in a row asks for.
    pub fn on_reply(&mut self, reply: MultiReply, now_ms: u64) -> (reconnect: bool)
        requires
            old(self).valid(),
            old(self).consecutive_failures < MULTI_MAX_CONSECUTIVE_FAILURES,
            reply matches MultiReply::RateLimited { wait_ms } ==> now_ms + wait_ms <= u64::MAX,
        ensures
            final(self).valid(),
            !reconnect ==> final(self).consecutive_failures < MULTI_MAX_CONSECUTIVE_FAILURES,
            *final(self) == old(self).with_reply(reply, now_ms),
            reconnect == (reply == MultiReply::Failed && old(self).consecutive_failures + 1
                >= MULTI_MAX_CONSECUTIVE_FAILURES),
            reconnect == old(self).gives_up_on(reply),
    {
        match reply {
            MultiReply::Registered => {
                self.consecutive_failures = 0;
                self.reconnect_backoff_ms = MIN_RECONNECT_BACKOFF_MS;
                false
            },
            MultiReply::RateLimited { wait_ms } => {
                self.backoff_until_ms = Some(now_ms + wait_ms);
                false
            },
            MultiReply::Failed => {
                self.consecutive_failures = self.consecutive_failures + 1;
                self.consecutive_failures >= MULTI_MAX_CONSECUTIVE_FAILURES
            },
        }
    }
}

/// As many heartbeats in a row as there are ports serve each port once: the one at place `port` is
/// served by exactly one of them. (The count of heartbeats must not pass the end of its range in
/// between.)
pub proof fn law_round_robin_serves_every_port(sent: usize, ports: usize, port: usize)
    requires
        0 < ports,
        port < ports,
        sent + ports <= usize::MAX,
    ensures
        exists|k: int| 0 <= k < ports && #[trigger] port_of(sent + k, ports) == port,
        forall|j: int, k: int|
            0 <= j < ports && 0 <= k < ports && #[trigger] port_of(sent + j, ports) == port
                && #[trigger] port_of(sent + k, ports) == port ==> j == k,
{
    let n = ports as int;
    let first = sent as int % n;
    vstd::arithmetic::div_mod::lemma_mod_bound(sent as int, n);
    vstd::arithmetic::div_mod::lemma_fundamental_div_mod(sent as int, n);
    let q = sent as int / n;
    if port >= first {
        let k = port - first;
        vstd::arithmetic::mul::lemma_mul_is_commutative(n, q);
        vstd::arithmetic::div_mod::lemma_fundamental_div_mod_converse(
            sent + k,
            n,
            q,
            port as int,
        );
        assert(port_of(sent + k, ports) == port);
    } else {
        let k = port - first + n;
        assert(sent + k == (q + 1) * n + port) by (nonlinear_arith)
            requires
                sent as int == n * q + first,
                k == port - first + n,
        ;
        vstd::arithmetic::div_mod::lemma_fundamental_div_mod_converse(
            sent + k,
            n,
            q + 1,
            port as int,
        );
        assert(port_of(sent + k, ports) == port);
    }
    assert forall|j: int, k: int|
        0 <= j < ports && 0 <= k < ports && #[trigger] port_of(sent + j, ports) == port
            && #[trigger] port_of(sent + k, ports) == port implies j == k by {
        if j < k {
            lemma_distinct_turns(sent + j, sent + k, n);
        } else if k < j {
            lemma_distinct_turns(sent + k, sent + j, n);
        }
    }
}

/// The place of the port that the heartbeat after `sent` others serves.
pub open spec fn port_of(sent: int, ports: usize) -> int {
    sent % ports as int
}

proof fn lemma_distinct_turns(a: int, b: int, n: int)
    requires
        0 < n,
        a < b < a + n,
    ensures
        a % n != b % n,
{
    vstd::arithmetic::div_mod::lemma_fundamental_div_mod(a, n);
    vstd::arithmetic::div_mod::lemma_fundamental_div_mod(b, n);
    if a % n == b % n {
        let k = b / n - a / n;
        assert(b - a == n * k) by (nonlinear_arith)
            requires
                a == n * (a / n) + a % n,
                b == n * (b / n) + b % n,
                a % n == b % n,
                k == b / n - a / n,
        ;
        assert(false) by (nonlinear_arith)
            requires
                0 < n,
                0 < n * k < n,
        ;
    }
}

/// What happens to the loop.
pub enum MultiEvent {
    /// The connection stands.
    Connected,
    /// The connection failed or was dropped.
    Reconnect,
    /// A tick at this time.
    Tick(u64),
    /// A reply at this time.
    Reply(MultiReply, u64),
}

/// The loop after several events.
pub open spec fn after_events(state: MultiHeartbeat, events: Seq<MultiEvent>) -> MultiHeartbeat
    decreases events.len(),
{
    if events.len() == 0 {
        state
    } else {
        let before = after_events(state, events.drop_last());
        match events.last() {
            MultiEvent::Connected => before.with_connection(),
            MultiEvent::Reconnect => before.with_reconnection(),
            MultiEvent::Tick(now_ms) => before.with_tick(now_ms),
            MultiEvent::Reply(reply, now_ms) => before.with_reply(reply, now_ms),
        }
    }
}

/// The places of the ports that heartbeats are sent for during several events, in order.
pub open spec fn sent_for(state: MultiHeartbeat, events: Seq<MultiEvent>, ports: usize) -> Seq<int>
    decreases events.len(),
{
    if events.len() == 0 {
        seq![]
    } else {
        let earlier = sent_for(state, events.drop_last(), ports);
        let before = after_events(state, events.drop_last());
        match events.last() {
            MultiEvent::Tick(now_ms) if !before.waits(now_ms) => earlier.push(
                port_of(before.port_idx as int, ports),
            ),
            _ => earlier,
        }
    }
}

/// Heartbeat number `k` of a loop is sent for the port at place `k` modulo the number of ports,
/// across reconnections, pauses and failures, as long as the count of heartbeats does not pass the
/// end of its range. So any run of as many heartbeats as there are ports serves each port once.
pub proof fn law_heartbeats_go_round(events: Seq<MultiEvent>, ports: usize)
    requires
        ports > 0,
        events.len() <= usize::MAX,
    ensures
        ({
            let sent = sent_for(MultiHeartbeat::started(), events, ports);
            &&& sent.len() <= events.len()
            &&& after_events(MultiHeartbeat::started(), events).port_idx == sent.len()
            &&& forall|k: int| 0 <= k < sent.len() ==> #[trigger] sent[k] == port_of(k, ports)
        }),
    decreases events.len(),
{
    if events.len() > 0 {
        law_heartbeats_go_round(events.drop_last(), ports);
    }
}

/// After a refusal for too many requests no heartbeat is sent until the pause is over, whatever
/// else happens, and the port whose turn it is keeps it.
pub proof fn law_refusal_is_followed_by_silence(
    before: MultiHeartbeat,
    wait_ms: u64,
    now_ms: u64,
    events: Seq<MultiEvent>,
    ports: usize,
)
    requires
        now_ms + wait_ms <= u64::MAX,
        forall|i: int|
            0 <= i < events.len() ==> match #[trigger] events[i] {
                MultiEvent::Tick(tick_ms) => tick_ms < now_ms + wait_ms,
                MultiEvent::Reply(MultiReply::RateLimited { wait_ms: _ }, _) => false,
                _ => true,
            },
    ensures
        ({
            let refused = before.with_reply(MultiReply::RateLimited { wait_ms }, now_ms);
            let after = after_events(refused, events);
            &&& sent_for(refused, events, ports) == Seq::<int>::empty()
            &&& after.port_idx == before.port_idx
            &&& after.backoff_until_ms == Some((now_ms + wait_ms) as u64)
            &&& !after.waits((now_ms + wait_ms) as u64)
        }),
    decreases events.len(),
{
    if events.len() > 0 {
        let shorter = events.drop_last();
        assert forall|i: int| 0 <= i < shorter.len() implies match #[trigger] shorter[i] {
            MultiEvent::Tick(tick_ms) => tick_ms < now_ms + wait_ms,
            MultiEvent::Reply(MultiReply::RateLimited { wait_ms: _ }, _) => false,
            _ => true,
        } by {
            assert(shorter[i] == events[i]);
        }
        law_refusal_is_followed_by_silence(before, wait_ms, now_ms, shorter, ports);
        assert(events[events.len() - 1] == events.last());
    }
}

} // verus!
