//! The loop that sends heartbeats for the main socket.
//!
//! The loop connects, sends a heartbeat at every tick and reconnects, after a growing pause, when
//! the block engine refuses the registration or does not answer. `HeartbeatLoop` holds what the
//! loop remembers and decides what follows each event; sending, waiting and connecting are left to
//! the thread that runs it.
use crate::shredstream::health::ShredstreamHealth;
use crate::text::parse_u64;
use std::sync::atomic::AtomicBool;
use std::sync::Arc;
use vstd::prelude::*;

verus! {

/// First and shortest pause before a reconnection.
pub const MIN_RECONNECT_BACKOFF_MS: u64 = 5_000;

/// Longest pause before a reconnection.
pub const MAX_RECONNECT_BACKOFF_MS: u64 = 60_000;

/// Heartbeats that may fail in a row before the client reconnects.
pub const MAX_CONSECUTIVE_FAILURES: u32 = 5;

/// Interval of the heartbeats until the block engine has said how long a registration lasts.
pub const INITIAL_INTERVAL_MS: u64 = 1_000;

/// Shortest and longest interval of the heartbeats.
pub const MIN_INTERVAL_MS: u64 = 1_000;

pub const MAX_INTERVAL_MS: u64 = 120_000;

/// Pause after a refusal for too many requests that does not name one.
pub const DEFAULT_RETRY_WAIT_MS: u64 = 60_000;

/// A flag shared with the tasks of one connection, which end when it is set.
#[derive(Debug)]
pub struct ScopedAtomicBool {
    pub inner: Arc<AtomicBool>,
}

impl ScopedAtomicBool {
    /// Another handle to the flag.
    pub fn get_inner_clone(&self) -> (flag: Arc<AtomicBool>)
        ensures
            flag == self.inner,
    {
        self.inner.clone()
    }
}

/// What the block engine answers to a heartbeat.
#[derive(Debug, Clone, Copy, PartialEq, Eq, Structural)]
pub enum HeartbeatReply {
    /// The registration stands for this many milliseconds.
    Registered { ttl_ms: i64 },
    /// The request is not valid.
    InvalidArgument,
    /// Too many requests; try again after this many milliseconds.
    RateLimited { wait_ms: u64 },
    /// Any other failure.
    Failed,
}

/// What the thread does after a reply.
#[derive(Debug, Clone, Copy, PartialEq, Eq, Structural)]
pub enum HeartbeatAction {
    /// Keep the connection and the tick.
    Stay,
    /// Keep the connection and tick at this interval from now on.
    TickEvery(u64),
    /// Drop the connection.
    Reconnect,
}

/// Events counted since the last report, or in total.
#[derive(Debug, Clone, Copy, PartialEq, Eq, Structural)]
pub struct HeartbeatCounts {
    pub successful: u64,
    pub failed: u64,
    pub restarts: u64,
}

/// What the loop remembers.
#[derive(Debug, Clone, Copy, PartialEq, Eq, Structural)]
pub struct HeartbeatLoop {
    /// Interval of the tick that is in force: that of the last registration, or the pause that a
    /// refusal for too many requests asked for since.
    pub tick_ms: u64,
    /// Pause before the next reconnection.
    pub backoff_ms: u64,
    /// Heartbeats that failed in a row on this connection.
    pub consecutive_failures: u32,
    /// Events since the last report.
    pub recent: HeartbeatCounts,
    /// Events up to the last report.
    pub reported: HeartbeatCounts,
}

/// A third of the time for which a registration stands, between one second and two minutes.
pub open spec fn interval_for_ttl(ttl_ms: i64) -> u64 {
    let third = ttl_third(ttl_ms as int);
    if third < MIN_INTERVAL_MS {
        MIN_INTERVAL_MS
    } else if third > MAX_INTERVAL_MS {
        MAX_INTERVAL_MS
    } else {
        third as u64
    }
}

/// A third, rounded towards zero.
pub open spec fn ttl_third(ttl_ms: int) -> int {
    if ttl_ms >= 0 {
        ttl_ms / 3
    } else {
        -((-ttl_ms) / 3)
    }
}

/// The tick in force after a reply: a registration and a refusal for too many requests set it.
pub open spec fn tick_after(tick_ms: u64, reply: HeartbeatReply) -> u64 {
    match reply {
        HeartbeatReply::Registered { ttl_ms } => interval_for_ttl(ttl_ms),
        HeartbeatReply::RateLimited { wait_ms } => wait_ms,
        _ => tick_ms,
    }
}

/// The tick in force after several replies.
pub open spec fn tick_after_all(tick_ms: u64, replies: Seq<HeartbeatReply>) -> u64
    decreases replies.len(),
{
    if replies.len() == 0 {
        tick_ms
    } else {
        tick_after(tick_after_all(tick_ms, replies.drop_last()), replies.last())
    }
}

/// Interval of the heartbeats for a registration that stands for `ttl_ms`.
pub fn heartbeat_interval(ttl_ms: i64) -> (interval: u64)
    ensures
        interval == interval_for_ttl(ttl_ms),
{
    if ttl_ms < 3_000 {
        return MIN_INTERVAL_MS;
    }
    let third: u64 = ttl_ms as u64 / 3;
    if third > MAX_INTERVAL_MS {
        MAX_INTERVAL_MS
    } else {
        third
    }
}

/// Twice the pause, up to the longest one.
pub open spec fn doubled_backoff(backoff_ms: u64) -> u64 {
    if backoff_ms * 2 > MAX_RECONNECT_BACKOFF_MS {
        MAX_RECONNECT_BACKOFF_MS
    } else {
        (backoff_ms * 2) as u64
    }
}

/// Twice the pause, up to the longest one.
pub fn double_backoff(backoff_ms: u64) -> (next: u64)
    ensures
        next == doubled_backoff(backoff_ms),
{
    if backoff_ms > MAX_RECONNECT_BACKOFF_MS / 2 {
        MAX_RECONNECT_BACKOFF_MS
    } else {
        backoff_ms * 2
    }
}

/// The pause that the text of a header asks for.
pub open spec fn asked_wait(header: Option<Seq<char>>) -> u64 {
    match header {
        Some(text) => match crate::text::parsed_u64(text) {
            Some(wait) => wait,
            None => DEFAULT_RETRY_WAIT_MS,
        },
        None => DEFAULT_RETRY_WAIT_MS,
    }
}

/// Pause that a refusal for too many requests asks for in its header, if it does.
pub fn retry_wait_ms(header: Option<&str>) -> (wait_ms: u64)
    ensures
        wait_ms == match header {
            Some(text) => match crate::text::parsed_u64(text@) {
                Some(wait) => wait,
                None => DEFAULT_RETRY_WAIT_MS,
            },
            None => DEFAULT_RETRY_WAIT_MS,
        },
        wait_ms == asked_wait(
            match header {
                Some(text) => Some(text@),
                None => None,
            },
        ),
{
    match header {
        Some(text) => match parse_u64(text) {
            Some(wait) => wait,
            None => DEFAULT_RETRY_WAIT_MS,
        },
        None => DEFAULT_RETRY_WAIT_MS,
    }
}

impl HeartbeatCounts {
    pub open spec fn none() -> HeartbeatCounts {
        HeartbeatCounts { successful: 0, failed: 0, restarts: 0 }
    }
}

impl HeartbeatLoop {
    /// The pause stays within its limits, and the client reconnects before more heartbeats than
    /// allowed have failed in a row.
    pub open spec fn valid(&self) -> bool {
        &&& MIN_RECONNECT_BACKOFF_MS <= self.backoff_ms <= MAX_RECONNECT_BACKOFF_MS
        &&& self.consecutive_failures <= MAX_CONSECUTIVE_FAILURES
    }

    /// The counts can take one more event each.
    pub open spec fn can_count(&self) -> bool {
        &&& self.recent.successful + self.reported.successful < u64::MAX
        &&& self.recent.failed + self.reported.failed < u64::MAX
        &&& self.recent.restarts + self.reported.restarts < u64::MAX
    }

    /// The same with a connection that stands.
    pub open spec fn with_connection(self) -> HeartbeatLoop {
        HeartbeatLoop { consecutive_failures: 0, ..self }
    }

    /// The same before a reconnection.
    pub open spec fn with_reconnection(self) -> HeartbeatLoop {
        HeartbeatLoop {
            backoff_ms: doubled_backoff(self.backoff_ms),
            recent: HeartbeatCounts {
                restarts: (self.recent.restarts + 1) as u64,
                ..self.recent
            },
            ..self
        }
    }

    /// The same after a reply.
    pub open spec fn with_reply(self, reply: HeartbeatReply) -> HeartbeatLoop {
        let more_failed = HeartbeatCounts {
            failed: (self.recent.failed + 1) as u64,
            ..self.recent
        };
        match reply {
            HeartbeatReply::Registered { ttl_ms } => HeartbeatLoop {
                tick_ms: interval_for_ttl(ttl_ms),
                backoff_ms: MIN_RECONNECT_BACKOFF_MS,
                consecutive_failures: 0,
                recent: HeartbeatCounts {
                    successful: (self.recent.successful + 1) as u64,
                    ..self.recent
                },
                ..self
            },
            HeartbeatReply::InvalidArgument => self,
            HeartbeatReply::RateLimited { wait_ms } => HeartbeatLoop {
                tick_ms: wait_ms,
                recent: more_failed,
                ..self
            },
            HeartbeatReply::Failed => HeartbeatLoop {
                consecutive_failures: (self.consecutive_failures + 1) as u32,
                recent: more_failed,
                ..self
            },
        }
    }

    /// What is done after a reply.
    pub open spec fn action_on(self, reply: HeartbeatReply) -> HeartbeatAction {
        match reply {
            HeartbeatReply::Registered { ttl_ms } => if interval_for_ttl(ttl_ms) != self.tick_ms {
                HeartbeatAction::TickEvery(interval_for_ttl(ttl_ms))
            } else {
                HeartbeatAction::Stay
            },
            HeartbeatReply::InvalidArgument => HeartbeatAction::Reconnect,
            HeartbeatReply::RateLimited { wait_ms } => HeartbeatAction::TickEvery(wait_ms),
            HeartbeatReply::Failed => if self.consecutive_failures + 1 >= MAX_CONSECUTIVE_FAILURES {
                HeartbeatAction::Reconnect
            } else {
                HeartbeatAction::Stay
            },
        }
    }

    /// Whether the counts leave room for one more of each.
    pub fn counts_fit(&self) -> (fit: bool)
        ensures
            fit == self.can_count(),
    {
        self.recent.successful < u64::MAX - self.reported.successful && self.recent.failed
            < u64::MAX - self.reported.failed && self.recent.restarts < u64::MAX
            - self.reported.restarts
    }

    /// A loop that starts, with the given interval or one second.
    pub fn new(initial_interval_ms: Option<u64>) -> (made: HeartbeatLoop)
        ensures
            made.valid(),
            made == (HeartbeatLoop {
                tick_ms: match initial_interval_ms {
                    Some(interval) => interval,
                    None => INITIAL_INTERVAL_MS,
                },
                backoff_ms: MIN_RECONNECT_BACKOFF_MS,
                consecutive_failures: 0,
                recent: HeartbeatCounts::none(),
                reported: HeartbeatCounts::none(),
            }),
    {
        HeartbeatLoop {
            tick_ms: match initial_interval_ms {
                Some(interval) => interval,
                None => INITIAL_INTERVAL_MS,
            },
            backoff_ms: MIN_RECONNECT_BACKOFF_MS,
            consecutive_failures: 0,
            recent: HeartbeatCounts { successful: 0, failed: 0, restarts: 0 },
            reported: HeartbeatCounts { successful: 0, failed: 0, restarts: 0 },
        }
    }

    /// The connection stands.
    pub fn on_connected(&mut self, health: &mut ShredstreamHealth)
        requires
            old(self).valid(),
        ensures
            final(self).valid(),
            *final(self) == (HeartbeatLoop { consecutive_failures: 0, ..*old(self) }),
            *final(self) == old(self).with_connection(),
            *final(health) == old(health).with_connected(true),
    {
        health.set_connected(true);
        self.consecutive_failures = 0;
    }

    /// The connection failed, or was dropped while the service runs on: the pause to wait now; the
    /// next one is twice as long.
    pub fn on_reconnect(&mut self, health: &mut ShredstreamHealth) -> (wait_ms: u64)
        requires
            old(self).valid(),
            old(self).can_count(),
        ensures
            final(self).valid(),
            wait_ms == old(self).backoff_ms,
            *final(self) == (HeartbeatLoop {
                backoff_ms: doubled_backoff(old(self).backoff_ms),
                recent: HeartbeatCounts {
                    restarts: (old(self).recent.restarts + 1) as u64,
                    ..old(self).recent
                },
                ..*old(self)
            }),
            *final(self) == old(self).with_reconnection(),
            *final(health) == old(health).with_restart(),
    {
        self.recent.restarts = self.recent.restarts + 1;
        health.record_client_restart();
        let wait_ms: u64 = self.backoff_ms;
        self.backoff_ms = double_backoff(wait_ms);
        wait_ms
    }

    /// The block engine answered a heartbeat.
    ///
    /// A registration sets the tick to a third of its time, also where a refusal had changed it,
    /// forgets earlier failures and resets the pause. An invalid request drops the connection. A
    /// refusal for too many requests sets the tick to the pause it asks for. Another failure drops
    /// the connection once it is the fifth in a row.
    pub fn on_reply(
        &mut self,
        reply: HeartbeatReply,
        health: &mut ShredstreamHealth,
        uptime_ms: u64,
    ) -> (action: HeartbeatAction)
        requires
            old(self).valid(),
            old(self).can_count(),
            old(self).consecutive_failures < MAX_CONSECUTIVE_FAILURES,
        ensures
            final(self).valid(),
            final(self).reported == old(self).reported,
            final(self).tick_ms == tick_after(old(self).tick_ms, reply),
            *final(self) == old(self).with_reply(reply),
            action == old(self).action_on(reply),
            action != HeartbeatAction::Reconnect ==> final(self).consecutive_failures
                < MAX_CONSECUTIVE_FAILURES,
            match reply {
                HeartbeatReply::Registered { ttl_ms } => {
                    &&& *final(self) == (HeartbeatLoop {
                        tick_ms: interval_for_ttl(ttl_ms),
                        backoff_ms: MIN_RECONNECT_BACKOFF_MS,
                        consecutive_failures: 0,
                        recent: HeartbeatCounts {
                            successful: (old(self).recent.successful + 1) as u64,
                            ..old(self).recent
                        },
                        ..*old(self)
                    })
                    &&& *final(health) == old(health).with_success(uptime_ms)
                    &&& action == if interval_for_ttl(ttl_ms) != old(self).tick_ms {
                        HeartbeatAction::TickEvery(interval_for_ttl(ttl_ms))
                    } else {
                        HeartbeatAction::Stay
                    }
                },
                HeartbeatReply::InvalidArgument => {
                    &&& *final(self) == *old(self)
                    &&& *final(health) == old(health).with_connected(false)
                    &&& action == HeartbeatAction::Reconnect
                },
                HeartbeatReply::RateLimited { wait_ms } => {
                    &&& *final(self) == (HeartbeatLoop {
                        tick_ms: wait_ms,
                        recent: HeartbeatCounts {
                            failed: (old(self).recent.failed + 1) as u64,
                            ..old(self).recent
                        },
                        ..*old(self)
                    })
                    &&& *final(health) == old(health).with_failure()
                    &&& action == HeartbeatAction::TickEvery(wait_ms)
                },
                HeartbeatReply::Failed => {
                    let failures = old(self).consecutive_failures + 1;
                    let dropped = failures >= MAX_CONSECUTIVE_FAILURES;
                    &&& *final(self) == (HeartbeatLoop {
                        consecutive_failures: failures as u32,
                        recent: HeartbeatCounts {
                            failed: (old(self).recent.failed + 1) as u64,
                            ..old(self).recent
                        },
                        ..*old(self)
                    })
                    &&& *final(health) == if dropped {
                        old(health).with_failure().with_connected(false)
                    } else {
                        old(health).with_failure()
                    }
                    &&& action == if dropped {
                        HeartbeatAction::Reconnect
                    } else {
                        HeartbeatAction::Stay
                    }
                },
            },
    {
        match reply {
            HeartbeatReply::Registered { ttl_ms } => {
                let new_interval: u64 = heartbeat_interval(ttl_ms);
                let changed = self.tick_ms != new_interval;
                self.tick_ms = new_interval;
                self.recent.successful = self.recent.successful + 1;
                self.consecutive_failures = 0;
                self.backoff_ms = MIN_RECONNECT_BACKOFF_MS;
                health.record_successful_heartbeat(uptime_ms);
                if changed {
                    HeartbeatAction::TickEvery(new_interval)
                } else {
                    HeartbeatAction::Stay
                }
            },
            HeartbeatReply::InvalidArgument => {
                health.set_connected(false);
                HeartbeatAction::Reconnect
            },
            HeartbeatReply::RateLimited { wait_ms } => {
                self.tick_ms = wait_ms;
                self.recent.failed = self.recent.failed + 1;
                health.record_failed_heartbeat();
                HeartbeatAction::TickEvery(wait_ms)
            },
            HeartbeatReply::Failed => {
                self.consecutive_failures = self.consecutive_failures + 1;
                self.recent.failed = self.recent.failed + 1;
                health.record_failed_heartbeat();
                if self.consecutive_failures >= MAX_CONSECUTIVE_FAILURES {
                    health.set_connected(false);
                    HeartbeatAction::Reconnect
                } else {
                    HeartbeatAction::Stay
                }
            },
        }
    }

    /// The counts since the last report, which are added to the totals and start again from 0.
    pub fn on_metrics_tick(&mut self) -> (counts: HeartbeatCounts)
        requires
            old(self).valid(),
            old(self).can_count(),
        ensures
            final(self).valid(),
            counts == old(self).recent,
            *final(self) == (HeartbeatLoop {
                recent: HeartbeatCounts::none(),
                reported: HeartbeatCounts {
                    successful: (old(self).reported.successful + old(self).recent.successful) as u64,
                    failed: (old(self).reported.failed + old(self).recent.failed) as u64,
                    restarts: (old(self).reported.restarts + old(self).recent.restarts) as u64,
                },
                ..*old(self)
            }),
    {
        let counts = self.recent;
        self.reported.successful = self.reported.successful + counts.successful;
        self.reported.failed = self.reported.failed + counts.failed;
        self.reported.restarts = self.reported.restarts + counts.restarts;
        self.recent = HeartbeatCounts { successful: 0, failed: 0, restarts: 0 };
        counts
    }
}

/// The interval that a registration leads to is between one second and two minutes, whatever the
/// block engine says, and where it is above one second a registration outlasts three heartbeats.
pub proof fn law_interval_is_bounded(ttl_ms: i64)
    ensures
        MIN_INTERVAL_MS <= interval_for_ttl(ttl_ms) <= MAX_INTERVAL_MS,
        interval_for_ttl(ttl_ms) > MIN_INTERVAL_MS ==> 3 * interval_for_ttl(ttl_ms) <= ttl_ms,
{
}

/// From a registration on, heartbeats are sent every third of its time, between one second and two
/// minutes, until the next registration or refusal for too many requests, whatever came before.
pub proof fn law_tick_follows_registration(
    tick_ms: u64,
    before: Seq<HeartbeatReply>,
    ttl_ms: i64,
    after: Seq<HeartbeatReply>,
)
    requires
        forall|i: int|
            0 <= i < after.len() ==> !(#[trigger] after[i] is Registered) && !(
            after[i] is RateLimited),
    ensures
        ({
            let replies = before.push(HeartbeatReply::Registered { ttl_ms }) + after;
            &&& tick_after_all(tick_ms, replies) == interval_for_ttl(ttl_ms)
            &&& MIN_INTERVAL_MS <= tick_after_all(tick_ms, replies) <= MAX_INTERVAL_MS
        }),
    decreases after.len(),
{
    let registered = before.push(HeartbeatReply::Registered { ttl_ms });
    if after.len() == 0 {
        assert(registered + after =~= registered);
    } else {
        let shorter = after.drop_last();
        assert forall|i: int| 0 <= i < shorter.len() implies !(#[trigger] shorter[i]
            is Registered) && !(shorter[i] is RateLimited) by {
            assert(shorter[i] == after[i]);
        }
        law_tick_follows_registration(tick_ms, before, ttl_ms, shorter);
        assert((registered + after).drop_last() =~= registered + shorter);
        assert((registered + after).last() == after[after.len() - 1]);
    }
}

/// The pause after `n` reconnections in a row.
pub open spec fn backoff_after(n: nat) -> u64
    decreases n,
{
    if n == 0 {
        MIN_RECONNECT_BACKOFF_MS
    } else {
        doubled_backoff(backoff_after((n - 1) as nat))
    }
}

/// The pauses grow from 5 to 10, 20 and 40 seconds and then stay at one minute.
pub proof fn law_backoff_doubles_up_to_a_minute(n: nat)
    ensures
        MIN_RECONNECT_BACKOFF_MS <= backoff_after(n) <= MAX_RECONNECT_BACKOFF_MS,
        n < 4 ==> backoff_after(n) == MIN_RECONNECT_BACKOFF_MS * vstd::arithmetic::power2::pow2(n),
        n >= 4 ==> backoff_after(n) == MAX_RECONNECT_BACKOFF_MS,
    decreases n,
{
    reveal_with_fuel(backoff_after, 5);
    vstd::arithmetic::power2::lemma2_to64();
    if n > 4 {
        law_backoff_doubles_up_to_a_minute((n - 1) as nat);
    }
}

/// A report neither loses nor repeats an event: the totals and the recent counts add up to the
/// same before and after it.
pub proof fn law_report_keeps_totals(before: HeartbeatLoop, after: HeartbeatLoop)
    requires
        before.can_count(),
        after.recent == HeartbeatCounts::none(),
        after.reported == (HeartbeatCounts {
            successful: (before.reported.successful + before.recent.successful) as u64,
            failed: (before.reported.failed + before.recent.failed) as u64,
            restarts: (before.reported.restarts + before.recent.restarts) as u64,
        }),
    ensures
        after.recent.successful + after.reported.successful == before.recent.successful
            + before.reported.successful,
        after.recent.failed + after.reported.failed == before.recent.failed
            + before.reported.failed,
        after.recent.restarts + after.reported.restarts == before.recent.restarts
            + before.reported.restarts,
{
}

} // verus!
