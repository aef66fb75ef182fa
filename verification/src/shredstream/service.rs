//! What the service's manager decides: whether it can start, when to restart the heartbeat
//! threads, and how long to wait before that.
use crate::shredstream::config::ShredstreamConfig;
use crate::shredstream::health::ShredstreamHealth;
use crate::shredstream::ShredstreamError;
use crate::text::{owned, same_text, trim, utf8_text};
use vstd::prelude::*;

verus! {

/// Local port at which the service takes commands.
pub const RESTART_LISTENER_PORT: u16 = 20099;

/// Least time between two restarts: 30 seconds, in nanoseconds.
pub const RESTART_COOLDOWN_NS: u64 = 30_000_000_000;

/// Pause after the heartbeat threads could not be started: 10 seconds, in nanoseconds.
pub const SPAWN_RETRY_NS: u64 = 10_000_000_000;

/// What the heartbeat threads are started with.
#[derive(Debug)]
pub struct HeartbeatConfig {
    pub block_engine_url: String,
    pub auth_url: String,
    pub regions: Vec<String>,
    pub tvu_addr: String,
    pub extra_ports: Vec<u16>,
}

/// Checks the settings of a service. `keypair_read` is the outcome of reading the key pair where
/// the settings name one; a missing URL is reported before it, missing regions after it.
pub fn checked_settings(
    config: ShredstreamConfig,
    keypair_read: Result<(), String>,
    tvu_addr: String,
    extra_ports: Vec<u16>,
) -> (settings: Result<HeartbeatConfig, ShredstreamError>)
    ensures
        config.block_engine_url is None ==> (settings matches Err(ShredstreamError::Config(m))
            && m@ == "block_engine_url is required"@),
        config.block_engine_url is Some && keypair_read is Err ==> settings == Err::<
            HeartbeatConfig,
            ShredstreamError,
        >(ShredstreamError::Config(keypair_read->Err_0)),
        config.block_engine_url is Some && keypair_read is Ok && config.regions@.len() == 0 ==> (
        settings matches Err(ShredstreamError::Config(m)) && m@
            == "at least one region must be specified"@),
        config.block_engine_url is Some && keypair_read is Ok && config.regions@.len() > 0 ==> {
            &&& settings matches Ok(s)
            &&& s.block_engine_url@ == config.block_engine_url->Some_0@
            &&& s.auth_url@ == config.block_engine_url->Some_0@
            &&& s.regions == config.regions
            &&& s.tvu_addr == tvu_addr
            &&& s.extra_ports == extra_ports
        },
{
    let block_engine_url: String = match config.block_engine_url {
        Some(url) => url,
        None => {
            return Err(ShredstreamError::Config(owned("block_engine_url is required")));
        },
    };
    let auth_url: String = block_engine_url.clone();
    match keypair_read {
        Ok(()) => {},
        Err(e) => {
            return Err(ShredstreamError::Config(e));
        },
    }
    if config.regions.len() == 0 {
        return Err(ShredstreamError::Config(owned("at least one region must be specified")));
    }
    Ok(
        HeartbeatConfig {
            block_engine_url,
            auth_url,
            regions: config.regions,
            tvu_addr,
            extra_ports,
        },
    )
}

/// Whether supplementary heartbeats are sent: where there are ports for them.
pub fn runs_multi_heartbeat(extra_ports: &Vec<u16>) -> (runs: bool)
    ensures
        runs == (extra_ports@.len() > 0),
{
    extra_ports.len() > 0
}

/// Whether one of the heartbeat threads has ended; the second one need not exist.
pub fn any_thread_dead(heartbeat_finished: bool, multi_finished: Option<bool>) -> (dead: bool)
    ensures
        dead == (heartbeat_finished || multi_finished == Some(true)),
{
    if heartbeat_finished {
        return true;
    }
    match multi_finished {
        Some(finished) => finished,
        None => false,
    }
}

/// Why the manager stops waiting.
#[derive(Debug, Clone, Copy, PartialEq, Eq, Structural)]
pub enum PollResult {
    /// A restart was asked for.
    Restart,
    /// A heartbeat thread has ended.
    ThreadDied,
    /// The service is to end.
    Exit,
}

/// Whether a datagram is the restart command: the word "restart", with white space around it or
/// not.
pub open spec fn is_restart(datagram: Seq<u8>) -> bool {
    vstd::utf8::valid_utf8(datagram) && crate::text::trimmed(vstd::utf8::decode_utf8(datagram))
        == "restart"@
}

/// Whether a datagram is the restart command.
pub fn is_restart_command(datagram: &[u8]) -> (restart: bool)
    ensures
        restart == is_restart(datagram@),
{
    match utf8_text(datagram) {
        Some(text) => {
            let command = trim(text.as_str());
            same_text(command.as_str(), "restart")
        },
        None => false,
    }
}

/// One look at the world while the heartbeat threads run: the end of the service counts first, then
/// a dead thread; a command is waited for otherwise.
pub fn poll_before_receive(exit: bool, thread_dead: bool) -> (result: Option<PollResult>)
    ensures
        result == if exit {
            Some(PollResult::Exit)
        } else if thread_dead {
            Some(PollResult::ThreadDied)
        } else {
            None
        },
        result == poll_outcome(exit, thread_dead, None),
{
    if exit {
        Some(PollResult::Exit)
    } else if thread_dead {
        Some(PollResult::ThreadDied)
    } else {
        None
    }
}

/// What a received datagram comes to: a restart, or nothing.
pub fn poll_after_receive(datagram: &[u8]) -> (result: Option<PollResult>)
    ensures
        result == if is_restart(datagram@) {
            Some(PollResult::Restart)
        } else {
            None
        },
        result == poll_outcome(false, false, Some(datagram@)),
{
    if is_restart_command(datagram) {
        Some(PollResult::Restart)
    } else {
        None
    }
}

/// The remark in the log when the heartbeat threads are stopped.
pub fn stop_reason(result: PollResult) -> (reason: &'static str)
    ensures
        reason@ == match result {
            PollResult::Restart => " (restart requested)"@,
            PollResult::ThreadDied => " (heartbeat thread died, auto-restarting)"@,
            PollResult::Exit => ""@,
        },
{
    match result {
        PollResult::Restart => " (restart requested)",
        PollResult::ThreadDied => " (heartbeat thread died, auto-restarting)",
        PollResult::Exit => "",
    }
}

/// What the manager remembers. Points in time are nanoseconds of one clock.
#[derive(Debug, Clone, Copy, PartialEq, Eq, Structural)]
pub struct ServiceManager {
    /// Time of the last restart; `None` where there was none.
    pub last_restart_ns: Option<u64>,
}

/// Time that a restart at `now` has to wait.
pub open spec fn cooldown_left(last_restart_ns: Option<u64>, now_ns: u64) -> int {
    match last_restart_ns {
        Some(last) if now_ns - last < RESTART_COOLDOWN_NS => last + RESTART_COOLDOWN_NS - now_ns,
        _ => 0,
    }
}

/// How long a restart has to wait after the threads were stopped, or `None` where the service ends.
pub open spec fn wait_after(last_restart_ns: Option<u64>, result: PollResult, now_ns: u64) -> Option<int> {
    match result {
        PollResult::Exit => None,
        _ => Some(cooldown_left(last_restart_ns, now_ns)),
    }
}

/// Why the waiting ends, from a look at the world and the datagram that arrived, if any.
pub open spec fn poll_outcome(exit: bool, thread_dead: bool, datagram: Option<Seq<u8>>) -> Option<
    PollResult,
> {
    if exit {
        Some(PollResult::Exit)
    } else if thread_dead {
        Some(PollResult::ThreadDied)
    } else {
        match datagram {
            Some(bytes) if is_restart(bytes) => Some(PollResult::Restart),
            _ => None,
        }
    }
}

impl ServiceManager {
    /// A manager that has not restarted anything.
    pub fn new() -> (manager: ServiceManager)
        ensures
            manager.last_restart_ns is None,
    {
        ServiceManager { last_restart_ns: None }
    }

    /// The heartbeat threads could not be started: the pause before the next attempt.
    pub fn on_spawn_failed(&self, health: &mut ShredstreamHealth) -> (wait_ns: u64)
        ensures
            wait_ns == SPAWN_RETRY_NS,
            *final(health) == old(health).with_connected(false),
    {
        health.set_connected(false);
        SPAWN_RETRY_NS
    }

    /// The heartbeat threads were stopped at time `now_ns`: the time to wait before they are
    /// started again, or `None` where the service ends.
    pub fn on_stopped(&self, result: PollResult, now_ns: u64) -> (wait_ns: Option<u64>)
        requires
            self.last_restart_ns matches Some(last) ==> last <= now_ns,
        ensures
            result == PollResult::Exit ==> wait_ns is None,
            result != PollResult::Exit ==> wait_ns == Some(
                cooldown_left(self.last_restart_ns, now_ns) as u64,
            ),
            wait_ns is Some <==> wait_after(self.last_restart_ns, result, now_ns) is Some,
            wait_ns matches Some(wait) ==> Some(wait as int) == wait_after(
                self.last_restart_ns,
                result,
                now_ns,
            ),
    {
        match result {
            PollResult::Exit => None,
            _ => match self.last_restart_ns {
                Some(last) => {
                    let since_last: u64 = now_ns - last;
                    if since_last < RESTART_COOLDOWN_NS {
                        Some(RESTART_COOLDOWN_NS - since_last)
                    } else {
                        Some(0)
                    }
                },
                None => Some(0),
            },
        }
    }

    /// The heartbeat threads are started again at time `now_ns`.
    pub fn on_restart(&mut self, now_ns: u64, health: &mut ShredstreamHealth)
        ensures
            final(self).last_restart_ns == Some(now_ns),
            *final(health) == old(health).with_connected(false),
    {
        self.last_restart_ns = Some(now_ns);
        health.set_connected(false);
    }
}

/// What follows the wait before a restart.
#[derive(Debug, Clone, Copy, PartialEq, Eq, Structural)]
pub enum AfterWait {
    /// The service ends: nothing is started again.
    Stop,
    /// All datagrams that wait on the socket are dropped; then the threads are started again.
    DrainAndRestart,
}

/// What follows the wait before a restart, from whether the service is to end.
pub fn after_wait(exit: bool) -> (next: AfterWait)
    ensures
        next == if exit {
            AfterWait::Stop
        } else {
            AfterWait::DrainAndRestart
        },
{
    if exit {
        AfterWait::Stop
    } else {
        AfterWait::DrainAndRestart
    }
}

/// Datagrams that arrive between two starts of the threads: while the threads run, and from the end
/// of the polling to the end of the wait.
pub ghost struct Round {
    pub running: Seq<Seq<u8>>,
    pub waiting: Seq<Seq<u8>>,
}

/// Whether one of the datagrams is the restart command.
pub open spec fn asks_for_restart(queue: Seq<Seq<u8>>) -> bool {
    exists|i: int| 0 <= i < queue.len() && #[trigger] is_restart(queue[i])
}

/// What is left on the socket once the manager has read up to the first restart command, or all of
/// it where there is none.
pub open spec fn unread(queue: Seq<Seq<u8>>) -> Seq<Seq<u8>>
    decreases queue.len(),
{
    if queue.len() == 0 {
        Seq::empty()
    } else if is_restart(queue[0]) {
        queue.skip(1)
    } else {
        unread(queue.skip(1))
    }
}

/// What is left on the socket after one round that ended as decided.
pub open spec fn queue_after(queue: Seq<Seq<u8>>, round: Round, next: AfterWait) -> Seq<Seq<u8>> {
    match next {
        AfterWait::Stop => unread(queue + round.running) + round.waiting,
        AfterWait::DrainAndRestart => Seq::empty(),
    }
}

/// What is left on the socket after some rounds, each of which ended in a restart.
pub open spec fn queue_after_rounds(rounds: Seq<Round>) -> Seq<Seq<u8>>
    decreases rounds.len(),
{
    if rounds.len() == 0 {
        Seq::empty()
    } else {
        queue_after(
            queue_after_rounds(rounds.drop_last()),
            rounds.last(),
            AfterWait::DrainAndRestart,
        )
    }
}

/// Commands do not add up: whatever arrived in earlier rounds, during their waits in particular, a
/// round ends in a restart by command only where a command arrived while its own threads ran.
pub proof fn law_queued_commands_do_not_cascade(rounds: Seq<Round>, running: Seq<Seq<u8>>)
    ensures
        queue_after_rounds(rounds) == Seq::<Seq<u8>>::empty(),
        asks_for_restart(queue_after_rounds(rounds) + running) <==> asks_for_restart(running),
{
    assert(queue_after_rounds(rounds) + running =~= running);
}

/// Restarts are at least 30 seconds apart: whoever waits as told starts again no earlier than that
/// after the last restart, and waits no longer than 30 seconds.
pub proof fn law_restarts_are_rate_limited(last_ns: u64, now_ns: u64)
    requires
        last_ns <= now_ns,
    ensures
        now_ns + cooldown_left(Some(last_ns), now_ns) >= last_ns + RESTART_COOLDOWN_NS,
        0 <= cooldown_left(Some(last_ns), now_ns) <= RESTART_COOLDOWN_NS,
        cooldown_left(None, now_ns) == 0,
{
}

/// Restarts of a manager in turn: after the restart at `restarts[i]` the threads are stopped at
/// `stops[i]`, and started again, no earlier than after the wait that is asked for, at
/// `restarts[i + 1]`.
pub open spec fn restarts_as_told(restarts: Seq<u64>, stops: Seq<u64>) -> bool {
    &&& restarts.len() == stops.len() + 1
    &&& forall|i: int|
        0 <= i < stops.len() ==> {
            &&& restarts[i] <= #[trigger] stops[i]
            &&& stops[i] + cooldown_left(Some(restarts[i]), stops[i]) <= restarts[i + 1]
        }
}

/// Whatever stops the threads, and however often, any two restarts are at least 30 seconds apart.
pub proof fn law_any_restarts_are_apart(restarts: Seq<u64>, stops: Seq<u64>, i: int, j: int)
    requires
        restarts_as_told(restarts, stops),
        0 <= i < j < restarts.len(),
    ensures
        restarts[i] + RESTART_COOLDOWN_NS <= restarts[j],
    decreases j - i,
{
    assert(restarts[j - 1] <= stops[j - 1]);
    law_restarts_are_rate_limited(restarts[j - 1], stops[j - 1]);
    if i < j - 1 {
        law_any_restarts_are_apart(restarts, stops, i, j - 1);
    }
}

} // verus!
