//! Whether the connection to the block engine is alive.
//!
//! Times are milliseconds since the service started.
use crate::text::{owned, push_decimal};
use vstd::prelude::*;
use vstd::string::StringExecFns;

verus! {

/// What is known of the connection.
#[derive(Debug, Clone, Copy, PartialEq, Eq, Structural)]
pub struct ShredstreamHealth {
    pub connected: bool,
    /// Time of the last successful heartbeat; `None` where there was none.
    pub last_successful_heartbeat_ms: Option<u64>,
    pub successful_heartbeat_count: u64,
    pub failed_heartbeat_count: u64,
    pub client_restart_count: u64,
}

/// How long a heartbeat keeps a connection healthy.
pub const HEARTBEAT_FRESH_MS: u64 = 120_000;

impl Default for ShredstreamHealth {
    fn default() -> (health: ShredstreamHealth)
        ensures
            health == (ShredstreamHealth {
                connected: false,
                last_successful_heartbeat_ms: None,
                successful_heartbeat_count: 0,
                failed_heartbeat_count: 0,
                client_restart_count: 0,
            }),
    {
        ShredstreamHealth::new()
    }
}

impl ShredstreamHealth {
    /// A service that just started: not connected, nothing counted.
    pub fn new() -> (health: ShredstreamHealth)
        ensures
            health == (ShredstreamHealth {
                connected: false,
                last_successful_heartbeat_ms: None,
                successful_heartbeat_count: 0,
                failed_heartbeat_count: 0,
                client_restart_count: 0,
            }),
    {
        ShredstreamHealth {
            connected: false,
            last_successful_heartbeat_ms: None,
            successful_heartbeat_count: 0,
            failed_heartbeat_count: 0,
            client_restart_count: 0,
        }
    }

    /// The same with another connection state.
    pub open spec fn with_connected(self, connected: bool) -> ShredstreamHealth {
        ShredstreamHealth { connected, ..self }
    }

    /// The same after a successful heartbeat.
    pub open spec fn with_success(self, uptime_ms: u64) -> ShredstreamHealth {
        ShredstreamHealth {
            last_successful_heartbeat_ms: Some(uptime_ms),
            successful_heartbeat_count: self.successful_heartbeat_count.wrapping_add(1),
            ..self
        }
    }

    /// The same after a failed heartbeat.
    pub open spec fn with_failure(self) -> ShredstreamHealth {
        ShredstreamHealth {
            failed_heartbeat_count: self.failed_heartbeat_count.wrapping_add(1),
            ..self
        }
    }

    /// The same after the client was restarted.
    pub open spec fn with_restart(self) -> ShredstreamHealth {
        ShredstreamHealth {
            client_restart_count: self.client_restart_count.wrapping_add(1),
            connected: false,
            ..self
        }
    }

    /// Notes whether there is a connection.
    pub fn set_connected(&mut self, connected: bool)
        ensures
            *final(self) == old(self).with_connected(connected),
    {
        self.connected = connected;
    }

    /// Notes a successful heartbeat.
    pub fn record_successful_heartbeat(&mut self, uptime_ms: u64)
        ensures
            *final(self) == old(self).with_success(uptime_ms),
    {
        self.last_successful_heartbeat_ms = Some(uptime_ms);
        self.successful_heartbeat_count = self.successful_heartbeat_count.wrapping_add(1);
    }

    /// Notes a failed heartbeat.
    pub fn record_failed_heartbeat(&mut self)
        ensures
            *final(self) == old(self).with_failure(),
    {
        self.failed_heartbeat_count = self.failed_heartbeat_count.wrapping_add(1);
    }

    /// Notes a restart of the client; it is not connected then.
    pub fn record_client_restart(&mut self)
        ensures
            *final(self) == old(self).with_restart(),
    {
        self.client_restart_count = self.client_restart_count.wrapping_add(1);
        self.connected = false;
    }

    /// Connected, with a successful heartbeat in the last 2 minutes.
    pub open spec fn healthy_at(&self, uptime_ms: u64) -> bool {
        &&& self.connected
        &&& match self.last_successful_heartbeat_ms {
            Some(last) => uptime_ms - last < HEARTBEAT_FRESH_MS,
            None => false,
        }
    }

    /// Seconds since the last successful heartbeat.
    pub open spec fn heartbeat_age(&self, uptime_ms: u64) -> Option<u64> {
        match self.last_successful_heartbeat_ms {
            Some(last) => Some(((uptime_ms - last) / 1000) as u64),
            None => None,
        }
    }

    /// Whether the connection is healthy: it stands, and a heartbeat was successful within the last
    /// 2 minutes.
    pub fn is_healthy(&self, uptime_ms: u64) -> (healthy: bool)
        requires
            self.last_successful_heartbeat_ms matches Some(last) ==> last <= uptime_ms,
        ensures
            healthy == self.healthy_at(uptime_ms),
    {
        if !self.connected {
            return false;
        }
        match self.last_successful_heartbeat_ms {
            Some(last) => uptime_ms - last < HEARTBEAT_FRESH_MS,
            None => false,
        }
    }

    /// Seconds since the last successful heartbeat; `None` where there was none.
    pub fn seconds_since_last_heartbeat(&self, uptime_ms: u64) -> (age: Option<u64>)
        requires
            self.last_successful_heartbeat_ms matches Some(last) ==> last <= uptime_ms,
        ensures
            age == self.heartbeat_age(uptime_ms),
    {
        match self.last_successful_heartbeat_ms {
            Some(last) => Some((uptime_ms - last) / 1000),
            None => None,
        }
    }

    /// The summary at a time.
    pub open spec fn status_at(&self, uptime_ms: u64) -> ShredstreamHealthStatus {
        ShredstreamHealthStatus {
            connected: self.connected,
            healthy: self.healthy_at(uptime_ms),
            successful_heartbeat_count: self.successful_heartbeat_count,
            failed_heartbeat_count: self.failed_heartbeat_count,
            client_restart_count: self.client_restart_count,
            seconds_since_last_heartbeat: self.heartbeat_age(uptime_ms),
            uptime_seconds: (uptime_ms / 1000),
        }
    }

    /// A summary.
    pub fn get_status(&self, uptime_ms: u64) -> (status: ShredstreamHealthStatus)
        requires
            self.last_successful_heartbeat_ms matches Some(last) ==> last <= uptime_ms,
        ensures
            status == (ShredstreamHealthStatus {
                connected: self.connected,
                healthy: self.healthy_at(uptime_ms),
                successful_heartbeat_count: self.successful_heartbeat_count,
                failed_heartbeat_count: self.failed_heartbeat_count,
                client_restart_count: self.client_restart_count,
                seconds_since_last_heartbeat: self.heartbeat_age(uptime_ms),
                uptime_seconds: (uptime_ms / 1000),
            }),
            status == self.status_at(uptime_ms),
    {
        ShredstreamHealthStatus {
            connected: self.connected,
            healthy: self.is_healthy(uptime_ms),
            successful_heartbeat_count: self.successful_heartbeat_count,
            failed_heartbeat_count: self.failed_heartbeat_count,
            client_restart_count: self.client_restart_count,
            seconds_since_last_heartbeat: self.seconds_since_last_heartbeat(uptime_ms),
            uptime_seconds: uptime_ms / 1000,
        }
    }
}

/// A summary of the connection's state.
#[derive(Debug, Clone, Copy, PartialEq, Eq, Structural)]
pub struct ShredstreamHealthStatus {
    pub connected: bool,
    pub healthy: bool,
    pub successful_heartbeat_count: u64,
    pub failed_heartbeat_count: u64,
    pub client_restart_count: u64,
    /// `None` where there was no heartbeat yet.
    pub seconds_since_last_heartbeat: Option<u64>,
    pub uptime_seconds: u64,
}

/// The summary as one line.
pub open spec fn status_text(status: ShredstreamHealthStatus) -> Seq<char> {
    "Shredstream: "@ + (if status.healthy {
        "HEALTHY"@
    } else {
        "UNHEALTHY"@
    }) + " (connected="@ + (if status.connected {
        "true"@
    } else {
        "false"@
    }) + ", heartbeats="@ + crate::text::decimal(status.successful_heartbeat_count as int) + "/"@
        + crate::text::decimal(status.successful_heartbeat_count + status.failed_heartbeat_count)
        + ", restarts="@ + crate::text::decimal(status.client_restart_count as int) + ", last_hb="@
        + (match status.seconds_since_last_heartbeat {
        Some(seconds) => crate::text::decimal(seconds as int),
        None => "never"@,
    }) + "s ago, uptime="@ + crate::text::decimal(status.uptime_seconds as int) + "s)"@
}

impl ShredstreamHealthStatus {
    /// The summary as one line.
    pub fn text(&self) -> (text: String)
        requires
            self.successful_heartbeat_count + self.failed_heartbeat_count <= u64::MAX,
        ensures
            text@ == status_text(*self),
    {
        let mut text = owned("Shredstream: ");
        text.append(
            if self.healthy {
                "HEALTHY"
            } else {
                "UNHEALTHY"
            },
        );
        text.append(" (connected=");
        text.append(
            if self.connected {
                "true"
            } else {
                "false"
            },
        );
        text.append(", heartbeats=");
        push_decimal(&mut text, self.successful_heartbeat_count);
        text.append("/");
        push_decimal(&mut text, self.successful_heartbeat_count + self.failed_heartbeat_count);
        text.append(", restarts=");
        push_decimal(&mut text, self.client_restart_count);
        text.append(", last_hb=");
        match self.seconds_since_last_heartbeat {
            Some(seconds) => push_decimal(&mut text, seconds),
            None => text.append("never"),
        }
        text.append("s ago, uptime=");
        push_decimal(&mut text, self.uptime_seconds);
        text.append("s)");
        text
    }
}

/// A heartbeat makes a connected service healthy and keeps it so for 2 minutes, and no longer.
pub proof fn law_heartbeat_keeps_healthy(health: ShredstreamHealth, at_ms: u64, later_ms: u64)
    requires
        health.connected,
        at_ms <= later_ms,
    ensures
        health.with_success(at_ms).healthy_at(later_ms) <==> later_ms < at_ms + HEARTBEAT_FRESH_MS,
{
}

/// Without a successful heartbeat a service is not healthy, connected or not.
pub proof fn law_no_heartbeat_is_unhealthy(health: ShredstreamHealth, uptime_ms: u64)
    requires
        health.last_successful_heartbeat_ms is None,
    ensures
        !health.healthy_at(uptime_ms),
        !health.with_connected(true).healthy_at(uptime_ms),
{
}

/// A service that is not connected is not healthy, whatever its heartbeats were.
pub proof fn law_restart_makes_unhealthy(health: ShredstreamHealth, uptime_ms: u64)
    ensures
        !health.with_restart().healthy_at(uptime_ms),
        !health.with_connected(false).healthy_at(uptime_ms),
{
}

/// What happens to a connection.
pub enum HealthEvent {
    Connected(bool),
    Succeeded(u64),
    Failed,
    Restarted,
}

/// What is known after several events.
pub open spec fn after_events(health: ShredstreamHealth, events: Seq<HealthEvent>) -> ShredstreamHealth
    decreases events.len(),
{
    if events.len() == 0 {
        health
    } else {
        let before = after_events(health, events.drop_last());
        match events.last() {
            HealthEvent::Connected(connected) => before.with_connected(connected),
            HealthEvent::Succeeded(uptime_ms) => before.with_success(uptime_ms),
            HealthEvent::Failed => before.with_failure(),
            HealthEvent::Restarted => before.with_restart(),
        }
    }
}

/// After a restart the service is neither connected nor healthy until a client connects anew,
/// whatever else happens.
pub proof fn law_restart_lasts_until_connected(
    health: ShredstreamHealth,
    events: Seq<HealthEvent>,
    uptime_ms: u64,
)
    requires
        forall|i: int| 0 <= i < events.len() ==> #[trigger] events[i] != HealthEvent::Connected(true),
    ensures
        !after_events(health.with_restart(), events).connected,
        !after_events(health.with_restart(), events).healthy_at(uptime_ms),
        !after_events(health.with_connected(false), events).connected,
        !after_events(health.with_connected(false), events).healthy_at(uptime_ms),
    decreases events.len(),
{
    if events.len() > 0 {
        let shorter = events.drop_last();
        assert forall|i: int| 0 <= i < shorter.len() implies #[trigger] shorter[i]
            != HealthEvent::Connected(true) by {
            assert(shorter[i] == events[i]);
        }
        law_restart_lasts_until_connected(health, shorter, uptime_ms);
        assert(events[events.len() - 1] == events.last());
    }
}

/// Whether an event changes the connection.
pub open spec fn is_connection_change(event: HealthEvent) -> bool {
    event is Connected || event is Restarted
}

/// How many events are of a sort.
pub open spec fn occurrences(events: Seq<HealthEvent>, sort: spec_fn(HealthEvent) -> bool) -> int
    decreases events.len(),
{
    if events.len() == 0 {
        0
    } else {
        occurrences(events.drop_last(), sort) + if sort(events.last()) {
            1int
        } else {
            0
        }
    }
}

/// The counts grow by one with each event of their sort and with no other, modulo their 64 bits.
pub proof fn law_counts_follow_events(health: ShredstreamHealth, events: Seq<HealthEvent>)
    ensures
        ({
            let after = after_events(health, events);
            &&& after.successful_heartbeat_count == (health.successful_heartbeat_count
                + occurrences(events, |e: HealthEvent| e is Succeeded)) % 0x1_0000_0000_0000_0000
            &&& after.failed_heartbeat_count == (health.failed_heartbeat_count + occurrences(
                events,
                |e: HealthEvent| e is Failed,
            )) % 0x1_0000_0000_0000_0000
            &&& after.client_restart_count == (health.client_restart_count + occurrences(
                events,
                |e: HealthEvent| e is Restarted,
            )) % 0x1_0000_0000_0000_0000
        }),
    decreases events.len(),
{
    if events.len() > 0 {
        law_counts_follow_events(health, events.drop_last());
    }
}

/// The connection is what the last change made it: that of a `Connected` event, none after a
/// restart, and the one at the start where nothing changed it.
pub proof fn law_last_change_decides_connection(health: ShredstreamHealth, events: Seq<HealthEvent>)
    ensures
        (forall|i: int| 0 <= i < events.len() ==> !is_connection_change(#[trigger] events[i]))
            ==> after_events(health, events).connected == health.connected,
        forall|i: int|
            0 <= i < events.len() && is_connection_change(#[trigger] events[i]) && (forall|j: int|
                i < j < events.len() ==> !is_connection_change(#[trigger] events[j])) ==> after_events(
                health,
                events,
            ).connected == (events[i] == HealthEvent::Connected(true)),
    decreases events.len(),
{
    if events.len() > 0 {
        let shorter = events.drop_last();
        let last = events.len() - 1;
        law_last_change_decides_connection(health, shorter);
        assert(events.last() == events[last]);
        if !is_connection_change(events[last]) {
            assert(after_events(health, events).connected == after_events(
                health,
                shorter,
            ).connected);
            if forall|i: int| 0 <= i < events.len() ==> !is_connection_change(#[trigger] events[i]) {
                assert forall|i: int| 0 <= i < shorter.len() implies !is_connection_change(
                    #[trigger] shorter[i],
                ) by {
                    assert(shorter[i] == events[i]);
                }
            }
        }
        assert forall|i: int|
            0 <= i < events.len() && is_connection_change(#[trigger] events[i]) && (forall|j: int|
                i < j < events.len() ==> !is_connection_change(#[trigger] events[j])) implies after_events(
            health,
            events,
        ).connected == (events[i] == HealthEvent::Connected(true)) by {
            if i < last {
                assert(!is_connection_change(events[last]));
                assert(shorter[i] == events[i]);
                assert forall|j: int| i < j < shorter.len() implies !is_connection_change(
                    #[trigger] shorter[j],
                ) by {
                    assert(shorter[j] == events[j]);
                }
            }
        }
    }
}

/// A healthy service is connected, and has a heartbeat that one of its events brought, unless it
/// had one before them.
pub proof fn law_health_has_its_reasons(
    health: ShredstreamHealth,
    events: Seq<HealthEvent>,
    uptime_ms: u64,
)
    ensures
        ({
            let after = after_events(health, events);
            &&& after.healthy_at(uptime_ms) ==> after.connected
            &&& after.healthy_at(uptime_ms) && health.last_successful_heartbeat_ms is None
                ==> exists|i: int|
                #![trigger events[i]]
                0 <= i < events.len() && (events[i] matches HealthEvent::Succeeded(at) && uptime_ms
                    - at < HEARTBEAT_FRESH_MS)
        }),
{
    lemma_heartbeat_comes_from_event(health, events);
}

proof fn lemma_heartbeat_comes_from_event(health: ShredstreamHealth, events: Seq<HealthEvent>)
    ensures
        after_events(health, events).last_successful_heartbeat_ms matches Some(at) ==> (
        health.last_successful_heartbeat_ms == Some(at) || exists|i: int|
            0 <= i < events.len() && #[trigger] events[i] == HealthEvent::Succeeded(at)),
    decreases events.len(),
{
    if events.len() > 0 {
        let shorter = events.drop_last();
        lemma_heartbeat_comes_from_event(health, shorter);
        if let Some(at) = after_events(health, events).last_successful_heartbeat_ms {
            assert(events[events.len() - 1] == events.last());
            if !(events.last() is Succeeded) && health.last_successful_heartbeat_ms != Some(at) {
                let i = choose|i: int|
                    0 <= i < shorter.len() && #[trigger] shorter[i] == HealthEvent::Succeeded(at);
                assert(events[i] == shorter[i]);
            }
        }
    }
}

} // verus!
