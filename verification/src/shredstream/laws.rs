//! What the service's decisions come to, in plain numbers and texts.
use crate::shredstream::auth::{BlockEngineConnectionError, TokenAction, TokenState};
use crate::shredstream::config::{MULTI_HEARTBEAT_MAX_CONNECTIONS, MULTI_HEARTBEAT_PORT_START};
use crate::shredstream::health::{ShredstreamHealth, ShredstreamHealthStatus};
use crate::shredstream::heartbeat::{HeartbeatAction, HeartbeatLoop, HeartbeatReply};
use crate::shredstream::multi_heartbeat::{MultiEvent, MultiHeartbeat, MultiReply};
use crate::shredstream::service::PollResult;
use crate::shredstream::ShredstreamError;
use vstd::prelude::*;

verus! {

/// Heartbeats are sent every third of the time for which a registration stands, but at least every
/// two minutes and at most every second.
pub proof fn law_heartbeats_come_three_times_per_registration(ttl_ms: i64)
    ensures
        3_000 <= ttl_ms <= 360_000 ==> {
            let interval = crate::shredstream::heartbeat::interval_for_ttl(ttl_ms);
            3 * interval <= ttl_ms && ttl_ms < 3 * interval + 3
        },
        ttl_ms < 3_000 ==> crate::shredstream::heartbeat::interval_for_ttl(ttl_ms) == 1_000,
        ttl_ms > 360_000 ==> crate::shredstream::heartbeat::interval_for_ttl(ttl_ms) == 120_000,
{
}

/// The last registration or refusal for too many requests decides on the tick: a third of the
/// registration's time, or the pause that the refusal asked for. Other replies leave it alone.
pub proof fn law_last_word_decides_the_tick(
    tick_ms: u64,
    before: Seq<HeartbeatReply>,
    word: HeartbeatReply,
    after: Seq<HeartbeatReply>,
)
    requires
        forall|i: int|
            0 <= i < after.len() ==> #[trigger] after[i] == HeartbeatReply::InvalidArgument
                || after[i] == HeartbeatReply::Failed,
    ensures
        ({
            let tick = crate::shredstream::heartbeat::tick_after_all(
                tick_ms,
                before.push(word) + after,
            );
            &&& word matches HeartbeatReply::RateLimited { wait_ms } ==> tick == wait_ms
            &&& word matches HeartbeatReply::Registered { ttl_ms } ==> (3_000 <= ttl_ms <= 360_000
                ==> 3 * tick <= ttl_ms && ttl_ms < 3 * tick + 3)
            &&& word == HeartbeatReply::Failed || word == HeartbeatReply::InvalidArgument ==> tick
                == crate::shredstream::heartbeat::tick_after_all(tick_ms, before)
        }),
    decreases after.len(),
{
    let known = before.push(word);
    if after.len() == 0 {
        assert(known + after =~= known);
        assert(known.drop_last() =~= before);
    } else {
        let shorter = after.drop_last();
        assert forall|i: int| 0 <= i < shorter.len() implies #[trigger] shorter[i]
            == HeartbeatReply::InvalidArgument || shorter[i] == HeartbeatReply::Failed by {
            assert(shorter[i] == after[i]);
        }
        law_last_word_decides_the_tick(tick_ms, before, word, shorter);
        assert((known + after).drop_last() =~= known + shorter);
        assert((known + after).last() == after[after.len() - 1]);
    }
}

/// A pause is followed by one twice as long, up to one minute; the first one is 5 seconds.
pub proof fn law_pauses_double(backoff_ms: u64)
    ensures
        backoff_ms <= 30_000 ==> crate::shredstream::heartbeat::doubled_backoff(backoff_ms) == 2
            * backoff_ms,
        backoff_ms > 30_000 ==> crate::shredstream::heartbeat::doubled_backoff(backoff_ms)
            == 60_000,
        crate::shredstream::heartbeat::backoff_after(0) == 5_000,
{
}

/// A heartbeat loop in use pauses between 5 and 60 seconds, and has seen at most 5 failures in a
/// row.
pub proof fn law_loop_stays_within_limits(beat: HeartbeatLoop)
    requires
        beat.valid(),
    ensures
        5_000 <= beat.backoff_ms <= 60_000,
        beat.consecutive_failures <= 5,
{
}

/// A service is healthy exactly where it is connected and its last successful heartbeat is less than
/// 2 minutes old; the age is given in whole seconds.
pub proof fn law_health_is_connection_and_fresh_heartbeat(health: ShredstreamHealth, uptime_ms: u64)
    ensures
        health.healthy_at(uptime_ms) <==> health.connected && (
        health.last_successful_heartbeat_ms matches Some(last) && uptime_ms - last < 120_000),
        health.heartbeat_age(uptime_ms) is Some <==> health.last_successful_heartbeat_ms is Some,
        health.last_successful_heartbeat_ms matches Some(last) ==> last <= uptime_ms ==> {
            let age = health.heartbeat_age(uptime_ms)->Some_0;
            1_000 * age <= uptime_ms - last && uptime_ms - last < 1_000 * age + 1_000
        },
{
}

/// Each event changes what it is about and nothing else.
pub proof fn law_events_change_one_thing(health: ShredstreamHealth, connected: bool, at_ms: u64)
    requires
        health.successful_heartbeat_count < u64::MAX,
        health.failed_heartbeat_count < u64::MAX,
        health.client_restart_count < u64::MAX,
    ensures
        ({
            let after = health.with_connected(connected);
            &&& after.connected == connected
            &&& after.last_successful_heartbeat_ms == health.last_successful_heartbeat_ms
            &&& after.successful_heartbeat_count == health.successful_heartbeat_count
            &&& after.failed_heartbeat_count == health.failed_heartbeat_count
            &&& after.client_restart_count == health.client_restart_count
        }),
        ({
            let after = health.with_success(at_ms);
            &&& after.connected == health.connected
            &&& after.last_successful_heartbeat_ms == Some(at_ms)
            &&& after.successful_heartbeat_count == health.successful_heartbeat_count + 1
            &&& after.failed_heartbeat_count == health.failed_heartbeat_count
            &&& after.client_restart_count == health.client_restart_count
        }),
        ({
            let after = health.with_failure();
            &&& after.connected == health.connected
            &&& after.last_successful_heartbeat_ms == health.last_successful_heartbeat_ms
            &&& after.successful_heartbeat_count == health.successful_heartbeat_count
            &&& after.failed_heartbeat_count == health.failed_heartbeat_count + 1
            &&& after.client_restart_count == health.client_restart_count
        }),
        ({
            let after = health.with_restart();
            &&& !after.connected
            &&& after.last_successful_heartbeat_ms == health.last_successful_heartbeat_ms
            &&& after.successful_heartbeat_count == health.successful_heartbeat_count
            &&& after.failed_heartbeat_count == health.failed_heartbeat_count
            &&& after.client_restart_count == health.client_restart_count + 1
        }),
{
}

/// The line of a status: healthy or not, connected or not, the successful heartbeats out of all, the
/// restarts, the age of the last heartbeat and the uptime, in this order.
pub proof fn law_status_line(status: ShredstreamHealthStatus)
    ensures
        ({
            let front = "Shredstream: "@ + (if status.healthy {
                "HEALTHY"@
            } else {
                "UNHEALTHY"@
            }) + " (connected="@ + (if status.connected {
                "true"@
            } else {
                "false"@
            });
            let total = status.successful_heartbeat_count + status.failed_heartbeat_count;
            let beats = ", heartbeats="@ + crate::text::decimal(
                status.successful_heartbeat_count as int,
            ) + "/"@ + crate::text::decimal(total);
            let rest = ", restarts="@ + crate::text::decimal(status.client_restart_count as int)
                + ", last_hb="@ + (match status.seconds_since_last_heartbeat {
                Some(seconds) => crate::text::decimal(seconds as int),
                None => "never"@,
            }) + "s ago, uptime="@ + crate::text::decimal(status.uptime_seconds as int) + "s)"@;
            crate::shredstream::health::status_text(status) == front + beats + rest
        }),
{
    let front = "Shredstream: "@ + (if status.healthy {
        "HEALTHY"@
    } else {
        "UNHEALTHY"@
    }) + " (connected="@ + (if status.connected {
        "true"@
    } else {
        "false"@
    });
    let total = status.successful_heartbeat_count + status.failed_heartbeat_count;
    let beats = ", heartbeats="@ + crate::text::decimal(status.successful_heartbeat_count as int)
        + "/"@ + crate::text::decimal(total);
    let rest = ", restarts="@ + crate::text::decimal(status.client_restart_count as int)
        + ", last_hb="@ + (match status.seconds_since_last_heartbeat {
        Some(seconds) => crate::text::decimal(seconds as int),
        None => "never"@,
    }) + "s ago, uptime="@ + crate::text::decimal(status.uptime_seconds as int) + "s)"@;
    assert(crate::shredstream::health::status_text(status) =~= front + beats + rest);
}

/// Heartbeat number `k` of the supplementary ones goes to the port at place `k` modulo the number of
/// ports, counted from the first, across reconnections, pauses and failures.
pub proof fn law_ports_take_turns(events: Seq<MultiEvent>, ports: usize)
    requires
        ports > 0,
        events.len() <= usize::MAX,
    ensures
        ({
            let sent = crate::shredstream::multi_heartbeat::sent_for(
                MultiHeartbeat::started(),
                events,
                ports,
            );
            forall|k: int| 0 <= k < sent.len() ==> #[trigger] sent[k] == k % (ports as int)
        }),
{
    crate::shredstream::multi_heartbeat::law_heartbeats_go_round(events, ports);
    let sent = crate::shredstream::multi_heartbeat::sent_for(
        MultiHeartbeat::started(),
        events,
        ports,
    );
    assert forall|k: int| 0 <= k < sent.len() implies #[trigger] sent[k] == k % (ports as int) by {
        assert(sent[k] == crate::shredstream::multi_heartbeat::port_of(k, ports));
    }
}

/// A tick sends a heartbeat unless the block engine has asked to wait beyond that time, and then the
/// next port has its turn; a tick that is waited through changes nothing.
pub proof fn law_tick_sends_unless_told_to_wait(state: MultiHeartbeat, now_ms: u64)
    requires
        state.port_idx < usize::MAX,
    ensures
        ({
            let waiting = state.backoff_until_ms matches Some(until) && now_ms < until;
            &&& state.waits(now_ms) == waiting
            &&& waiting ==> state.with_tick(now_ms) == state
            &&& !waiting ==> {
                let after = state.with_tick(now_ms);
                &&& after.port_idx == state.port_idx + 1
                &&& after.backoff_until_ms is None
                &&& after.reconnect_backoff_ms == state.reconnect_backoff_ms
                &&& after.consecutive_failures == state.consecutive_failures
            }
        }),
{
}

/// What a reply to a supplementary heartbeat changes: a registration forgets failures and pauses, a
/// refusal sets the time to wait for, another failure is counted.
pub proof fn law_multi_replies(state: MultiHeartbeat, now_ms: u64, wait_ms: u64)
    requires
        state.valid(),
        now_ms + wait_ms <= u64::MAX,
        state.consecutive_failures < 3,
    ensures
        ({
            let after = state.with_reply(MultiReply::Registered, now_ms);
            &&& after.consecutive_failures == 0
            &&& after.reconnect_backoff_ms == 5_000
            &&& after.port_idx == state.port_idx
            &&& after.backoff_until_ms == state.backoff_until_ms
        }),
        ({
            let after = state.with_reply(MultiReply::RateLimited { wait_ms }, now_ms);
            &&& after.backoff_until_ms matches Some(until)
            &&& until == now_ms + wait_ms
            &&& after.port_idx == state.port_idx
            &&& after.consecutive_failures == state.consecutive_failures
            &&& after.reconnect_backoff_ms == state.reconnect_backoff_ms
        }),
        ({
            let after = state.with_reply(MultiReply::Failed, now_ms);
            &&& after.consecutive_failures == state.consecutive_failures + 1
            &&& after.port_idx == state.port_idx
            &&& after.backoff_until_ms == state.backoff_until_ms
            &&& after.reconnect_backoff_ms == state.reconnect_backoff_ms
        }),
        state.with_connection().consecutive_failures == 0,
        state.with_connection().port_idx == state.port_idx,
        state.with_connection().backoff_until_ms == state.backoff_until_ms,
        state.with_reconnection().port_idx == state.port_idx,
        state.with_reconnection().backoff_until_ms == state.backoff_until_ms,
        state.with_reconnection().reconnect_backoff_ms == if state.reconnect_backoff_ms <= 30_000 {
            2 * state.reconnect_backoff_ms
        } else {
            60_000
        },
        MultiHeartbeat::started().port_idx == 0,
        MultiHeartbeat::started().backoff_until_ms is None,
        MultiHeartbeat::started().reconnect_backoff_ms == 5_000,
{
}

/// There are as many supplementary ports as relays are known, but at most 3, from port 20100 on.
pub proof fn law_ports_follow_relays(relays: nat)
    requires
        relays < 0x1_0000,
    ensures
        relays <= 3 ==> crate::shredstream::multi_heartbeat::port_count(relays) == relays,
        relays > 3 ==> crate::shredstream::multi_heartbeat::port_count(relays) == 3,
        MULTI_HEARTBEAT_PORT_START == 20100,
        MULTI_HEARTBEAT_MAX_CONNECTIONS == 3,
{
    vstd::arithmetic::div_mod::lemma_small_mod(relays, 0x1_0000);
}

/// The relays of the known regions, under each of their names; other regions have none.
pub proof fn law_relays_of_regions(region: Seq<char>)
    ensures
        region == "amsterdam"@ ==> crate::shredstream::config::relay_count(region) == 11,
        region == "dublin"@ ==> crate::shredstream::config::relay_count(region) == 3,
        region == "frankfurt"@ ==> crate::shredstream::config::relay_count(region) == 10,
        region == "london"@ ==> crate::shredstream::config::relay_count(region) == 6,
        region == "ny"@ || region == "new york"@ || region == "new_york"@
            ==> crate::shredstream::config::relay_count(region) == 8,
        region == "salt_lake_city"@ || region == "salt lake city"@ || region == "slc"@
            ==> crate::shredstream::config::relay_count(region) == 7,
        region == "singapore"@ ==> crate::shredstream::config::relay_count(region) == 5,
        region == "tokyo"@ ==> crate::shredstream::config::relay_count(region) == 6,
        crate::shredstream::config::relay_count(region) > 0 ==> {
            ||| region == "amsterdam"@
            ||| region == "dublin"@
            ||| region == "frankfurt"@
            ||| region == "london"@
            ||| region == "ny"@
            ||| region == "new york"@
            ||| region == "new_york"@
            ||| region == "salt_lake_city"@
            ||| region == "salt lake city"@
            ||| region == "slc"@
            ||| region == "singapore"@
            ||| region == "tokyo"@
        },
{
    reveal_strlit("amsterdam");
    reveal_strlit("dublin");
    reveal_strlit("frankfurt");
    reveal_strlit("london");
    reveal_strlit("ny");
    reveal_strlit("new york");
    reveal_strlit("new_york");
    reveal_strlit("salt_lake_city");
    reveal_strlit("salt lake city");
    reveal_strlit("slc");
    reveal_strlit("singapore");
    reveal_strlit("tokyo");
    assert("amsterdam"@[0] == 'a' && "frankfurt"@[0] == 'f' && "singapore"@[0] == 's');
    assert("dublin"@[0] == 'd' && "london"@[0] == 'l');
    assert("amsterdam"@.len() == 9);
    assert("dublin"@.len() == 6);
    assert("frankfurt"@.len() == 9);
    assert("london"@.len() == 6);
    assert("ny"@.len() == 2);
    assert("new york"@.len() == 8);
    assert("new_york"@.len() == 8);
    assert("salt_lake_city"@.len() == 14);
    assert("salt lake city"@.len() == 14);
    assert("slc"@.len() == 3);
    assert("singapore"@.len() == 9);
    assert("tokyo"@.len() == 5);
}

/// A token is renewed exactly where it expires within 5 minutes or has expired.
pub proof fn law_tokens_are_renewed_five_minutes_early(expires_at: int, now: int)
    ensures
        TokenState::due(expires_at, now) <==> expires_at < now + 300_000_000_000,
        expires_at >= now ==> crate::shredstream::auth::time_left(expires_at, now) == expires_at
            - now,
        expires_at < now ==> crate::shredstream::auth::time_left(expires_at, now) == 0,
{
}

/// What is signed starts with the key's text and ends with the challenge, with one hyphen between
/// them.
pub proof fn law_challenge_joins_key_and_challenge(key_text: Seq<char>, challenge: Seq<char>)
    ensures
        ({
            let text = crate::shredstream::auth::challenge_text(key_text, challenge);
            let n = key_text.len() as int;
            &&& text.len() == n + 1 + challenge.len()
            &&& text.subrange(0, n) == key_text
            &&& text[n] == '-'
            &&& text.subrange(n + 1, text.len() as int) == challenge
        }),
{
    reveal_strlit("-");
    let text = crate::shredstream::auth::challenge_text(key_text, challenge);
    let n = key_text.len() as int;
    assert(text.subrange(0, n) =~= key_text);
    assert(text.subrange(n + 1, text.len() as int) =~= challenge);
}

/// A restart waits until 30 seconds after the last one, and not at all where that is over or there
/// was none.
pub proof fn law_restart_waits_for_thirty_seconds(last_ns: u64, now_ns: u64)
    requires
        last_ns <= now_ns,
    ensures
        now_ns >= last_ns + 30_000_000_000 ==> crate::shredstream::service::cooldown_left(
            Some(last_ns),
            now_ns,
        ) == 0,
        now_ns < last_ns + 30_000_000_000 ==> now_ns + crate::shredstream::service::cooldown_left(
            Some(last_ns),
            now_ns,
        ) == last_ns + 30_000_000_000,
        crate::shredstream::service::cooldown_left(None, now_ns) == 0,
{
}

/// A datagram is the restart command exactly where it is valid UTF-8 for the word "restart", in
/// small letters, with nothing but white space around it.
pub proof fn law_restart_command(
    datagram: Seq<u8>,
    head: Seq<char>,
    tail: Seq<char>,
)
    requires
        crate::text_laws::blank(head),
        crate::text_laws::blank(tail),
    ensures
        vstd::utf8::valid_utf8(datagram) && vstd::utf8::decode_utf8(datagram) == head + seq![
            'r',
            'e',
            's',
            't',
            'a',
            'r',
            't',
        ] + tail ==> crate::shredstream::service::is_restart(datagram),
        crate::shredstream::service::is_restart(datagram) ==> {
            &&& vstd::utf8::valid_utf8(datagram)
            &&& exists|a: Seq<char>, b: Seq<char>|
                #![trigger crate::text_laws::blank(a), crate::text_laws::blank(b)]
                crate::text_laws::blank(a) && crate::text_laws::blank(b)
                    && vstd::utf8::decode_utf8(datagram) == a + seq![
                    'r',
                    'e',
                    's',
                    't',
                    'a',
                    'r',
                    't',
                ] + b
        },
{
    reveal_strlit("restart");
    let word = seq!['r', 'e', 's', 't', 'a', 'r', 't'];
    assert("restart"@ =~= word);
    crate::text_laws::law_trim_finds_the_text(head, word, tail);
    if crate::shredstream::service::is_restart(datagram) {
        let text = vstd::utf8::decode_utf8(datagram);
        let cut = crate::text_laws::law_trim_cuts_white_space_only(text);
        assert(text == cut.0 + word + cut.1);
        assert(crate::text_laws::blank(cut.0) && crate::text_laws::blank(cut.1));
    }
}

/// What the errors are called, each with its cause behind the name.
pub proof fn law_errors_name_their_cause(
    error: BlockEngineConnectionError,
    failure: ShredstreamError,
)
    ensures
        crate::shredstream::auth::connection_error_text(error) == match error {
            BlockEngineConnectionError::Transport(cause) => "transport error: "@ + cause@,
            BlockEngineConnectionError::Client(cause) => "client error: "@ + cause@,
            BlockEngineConnectionError::Deserialization => "deserializing error"@,
        },
        crate::shredstream::shredstream_error_text(failure) == match failure {
            ShredstreamError::Config(cause) => "configuration error: "@ + cause@,
            ShredstreamError::Connection(cause) => "connection error: "@
                + crate::shredstream::auth::connection_error_text(cause),
        },
{
}

/// The loop after several replies to heartbeats on one connection.
pub open spec fn after_replies(beat: HeartbeatLoop, replies: Seq<HeartbeatReply>) -> HeartbeatLoop
    decreases replies.len(),
{
    if replies.len() == 0 {
        beat
    } else {
        after_replies(beat, replies.drop_last()).with_reply(replies.last())
    }
}

/// Failures in a row, with refusals for too many requests between them or not.
pub open spec fn failures_in(replies: Seq<HeartbeatReply>) -> int
    decreases replies.len(),
{
    if replies.len() == 0 {
        0
    } else {
        failures_in(replies.drop_last()) + if replies.last() == HeartbeatReply::Failed {
            1int
        } else {
            0
        }
    }
}

/// A connection is dropped by the fifth failure since it was made or since the last registration,
/// and not by an earlier one; a request that is not valid drops it at once, and neither a
/// registration nor a refusal for too many requests does.
pub proof fn law_fifth_failure_drops_the_connection(
    fresh: HeartbeatLoop,
    replies: Seq<HeartbeatReply>,
    reply: HeartbeatReply,
)
    requires
        fresh.consecutive_failures == 0,
        forall|i: int|
            0 <= i < replies.len() ==> #[trigger] replies[i] == HeartbeatReply::Failed
                || replies[i] is RateLimited,
        failures_in(replies) < 5,
    ensures
        ({
            let beat = after_replies(fresh, replies);
            &&& beat.consecutive_failures == failures_in(replies)
            &&& reply == HeartbeatReply::Failed ==> (beat.action_on(reply)
                == HeartbeatAction::Reconnect <==> failures_in(replies) == 4)
            &&& reply == HeartbeatReply::Failed && failures_in(replies) < 4 ==> beat.action_on(reply)
                == HeartbeatAction::Stay
            &&& reply == HeartbeatReply::InvalidArgument ==> beat.action_on(reply)
                == HeartbeatAction::Reconnect
            &&& reply is Registered ==> beat.action_on(reply) != HeartbeatAction::Reconnect
                && beat.with_reply(reply).consecutive_failures == 0 && beat.with_reply(
                reply,
            ).backoff_ms == 5_000
            &&& reply matches HeartbeatReply::RateLimited { wait_ms } ==> beat.action_on(reply)
                == HeartbeatAction::TickEvery(wait_ms)
        }),
    decreases replies.len(),
{
    lemma_failures_bound(replies);
    if replies.len() > 0 {
        let shorter = replies.drop_last();
        assert forall|i: int| 0 <= i < shorter.len() implies #[trigger] shorter[i]
            == HeartbeatReply::Failed || shorter[i] is RateLimited by {
            assert(shorter[i] == replies[i]);
        }
        lemma_failures_bound(shorter);
        law_fifth_failure_drops_the_connection(fresh, shorter, reply);
        assert(replies[replies.len() - 1] == replies.last());
    }
}

proof fn lemma_failures_bound(replies: Seq<HeartbeatReply>)
    ensures
        0 <= failures_in(replies),
        replies.len() > 0 ==> failures_in(replies.drop_last()) <= failures_in(replies),
    decreases replies.len(),
{
    if replies.len() > 0 {
        lemma_failures_bound(replies.drop_last());
    }
}

/// Each reply is counted once: a registration as a success, a refusal for too many requests and
/// another failure as failures, a request that is not valid not at all; a reconnection counts as a
/// restart, and the pause after it is twice as long, up to a minute.
pub proof fn law_replies_are_counted(beat: HeartbeatLoop, reply: HeartbeatReply)
    requires
        beat.valid(),
        beat.can_count(),
    ensures
        ({
            let after = beat.with_reply(reply);
            &&& after.recent.successful - beat.recent.successful == if reply is Registered {
                1int
            } else {
                0
            }
            &&& after.recent.failed - beat.recent.failed == if reply is RateLimited || reply
                is Failed {
                1int
            } else {
                0
            }
            &&& after.recent.restarts == beat.recent.restarts
            &&& after.reported == beat.reported
            &&& !(reply is Registered) ==> after.backoff_ms == beat.backoff_ms
        }),
        ({
            let after = beat.with_reconnection();
            &&& after.recent.restarts == beat.recent.restarts + 1
            &&& after.recent.successful == beat.recent.successful
            &&& after.recent.failed == beat.recent.failed
            &&& after.tick_ms == beat.tick_ms
            &&& after.backoff_ms == if beat.backoff_ms <= 30_000 {
                2 * beat.backoff_ms
            } else {
                60_000
            }
        }),
        beat.with_connection().consecutive_failures == 0,
        beat.with_connection().tick_ms == beat.tick_ms,
        beat.with_connection().backoff_ms == beat.backoff_ms,
        beat.with_connection().recent == beat.recent,
{
}

/// The third failure in a row of a supplementary heartbeat asks for another connection; no earlier
/// one and no other reply does.
pub proof fn law_third_failure_asks_for_a_connection(state: MultiHeartbeat, reply: MultiReply)
    requires
        state.consecutive_failures < 3,
    ensures
        state.gives_up_on(reply) <==> reply == MultiReply::Failed && state.consecutive_failures == 2,
{
}

/// The refresh token goes first: less than 5 minutes before it expires everything is renewed, less
/// than 5 minutes before the access token expires that one is, and otherwise the next look is in 5
/// seconds.
pub proof fn law_tokens_are_looked_after(refresh_expires: int, access_expires: int, now: int)
    ensures
        ({
            let action = TokenState::action_at(refresh_expires, access_expires, now);
            &&& refresh_expires < now + 300_000_000_000 ==> action == TokenAction::FullAuth
            &&& refresh_expires >= now + 300_000_000_000 && access_expires < now + 300_000_000_000
                ==> action == TokenAction::RefreshAccess
            &&& refresh_expires >= now + 300_000_000_000 && access_expires >= now + 300_000_000_000
                ==> action == TokenAction::Sleep(5_000_000_000)
        }),
{
}

/// A refusal's header is heeded where it holds a number, in milliseconds; without one the pause is a
/// minute.
pub proof fn law_refusals_name_their_pause(header: Option<Seq<char>>, n: u64)
    ensures
        crate::shredstream::heartbeat::asked_wait(Some(crate::text::decimal(n as int))) == n,
        header is None ==> crate::shredstream::heartbeat::asked_wait(header) == 60_000,
        header matches Some(text) ==> crate::text::parsed_u64(text) is None
            ==> crate::shredstream::heartbeat::asked_wait(header) == 60_000,
{
    crate::text_laws::law_decimal_reads_back(n, 0);
}

/// A tick serves the port at the place of the number of heartbeats sent before, modulo the number of
/// ports, and none exactly while the block engine has asked to wait.
pub proof fn law_tick_serves_the_port_in_turn(state: MultiHeartbeat, now_ms: u64, ports: usize)
    requires
        ports > 0,
    ensures
        state.served(now_ms, ports) is None <==> (state.backoff_until_ms matches Some(until)
            && now_ms < until),
        state.served(now_ms, ports) matches Some(place) ==> place == state.port_idx as int % (
        ports as int) && 0 <= place < ports,
{
    vstd::arithmetic::div_mod::lemma_mod_bound(state.port_idx as int, ports as int);
}

/// After the threads were stopped, a service that is to end does not wait; otherwise the threads are
/// started again at once where the last restart is 30 seconds ago or there was none, and after the
/// rest of those 30 seconds where it is not.
pub proof fn law_stopped_threads_wait_as_told(
    last_restart_ns: Option<u64>,
    result: PollResult,
    now_ns: u64,
)
    requires
        last_restart_ns matches Some(last) ==> last <= now_ns,
    ensures
        ({
            let wait = crate::shredstream::service::wait_after(last_restart_ns, result, now_ns);
            &&& wait is None <==> result == PollResult::Exit
            &&& wait matches Some(w) ==> {
                &&& last_restart_ns is None ==> w == 0
                &&& last_restart_ns matches Some(last) ==> w == if now_ns - last
                    >= 30_000_000_000 {
                    0
                } else {
                    30_000_000_000 - (now_ns - last)
                }
            }
        }),
{
}

/// The end of the service counts before a dead thread, and that before a command; of the datagrams
/// only the restart command ends the waiting.
pub proof fn law_polling_has_an_order(exit: bool, thread_dead: bool, datagram: Option<Seq<u8>>)
    ensures
        ({
            let outcome = crate::shredstream::service::poll_outcome(exit, thread_dead, datagram);
            &&& exit <==> outcome == Some(PollResult::Exit)
            &&& !exit && thread_dead <==> outcome == Some(PollResult::ThreadDied)
            &&& !exit && !thread_dead && (datagram matches Some(bytes)
                && crate::shredstream::service::is_restart(bytes)) <==> outcome == Some(
                PollResult::Restart,
            )
        }),
{
}

/// A summary after any events gives the numbers of the events of each sort, the connection that the
/// last change made, and whether there was a heartbeat in the last 2 minutes on it.
pub proof fn law_status_follows_events(
    events: Seq<crate::shredstream::health::HealthEvent>,
    uptime_ms: u64,
    start: ShredstreamHealth,
)
    requires
        start == (ShredstreamHealth {
            connected: false,
            last_successful_heartbeat_ms: None,
            successful_heartbeat_count: 0,
            failed_heartbeat_count: 0,
            client_restart_count: 0,
        }),
        events.len() <= u64::MAX,
    ensures
        ({
            let health = crate::shredstream::health::after_events(start, events);
            let status = health.status_at(uptime_ms);
            &&& status.successful_heartbeat_count == crate::shredstream::health::occurrences(
                events,
                |e: crate::shredstream::health::HealthEvent| e is Succeeded,
            )
            &&& status.failed_heartbeat_count == crate::shredstream::health::occurrences(
                events,
                |e: crate::shredstream::health::HealthEvent| e is Failed,
            )
            &&& status.client_restart_count == crate::shredstream::health::occurrences(
                events,
                |e: crate::shredstream::health::HealthEvent| e is Restarted,
            )
            &&& status.connected == health.connected
            &&& status.healthy ==> status.connected && status.seconds_since_last_heartbeat is Some
            &&& status.healthy <==> health.connected && (
            health.last_successful_heartbeat_ms matches Some(last) && uptime_ms - last < 120_000)
            &&& status.seconds_since_last_heartbeat == health.heartbeat_age(uptime_ms)
            &&& 1_000 * status.uptime_seconds <= uptime_ms
            &&& uptime_ms < 1_000 * status.uptime_seconds + 1_000
        }),
{
    crate::shredstream::health::law_counts_follow_events(start, events);
    lemma_occurrences_bound(events, |e: crate::shredstream::health::HealthEvent| e is Succeeded);
    lemma_occurrences_bound(events, |e: crate::shredstream::health::HealthEvent| e is Failed);
    lemma_occurrences_bound(events, |e: crate::shredstream::health::HealthEvent| e is Restarted);
}

proof fn lemma_occurrences_bound(
    events: Seq<crate::shredstream::health::HealthEvent>,
    sort: spec_fn(crate::shredstream::health::HealthEvent) -> bool,
)
    ensures
        0 <= crate::shredstream::health::occurrences(events, sort) <= events.len(),
    decreases events.len(),
{
    if events.len() > 0 {
        lemma_occurrences_bound(events.drop_last(), sort);
    }
}

} // verus!
