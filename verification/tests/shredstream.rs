use slot_stream::shredstream::auth::{
    answer_challenge, bearer_header, required_tokens, uses_tls, AuthToken,
    BlockEngineConnectionError, TokenAction, TokenState, TOKEN_CHECK_PAUSE_NS, TOKEN_RENEWAL_NS,
};
use slot_stream::shredstream::config::{
    expected_relay_count, total_expected_relays, ShredstreamConfig,
};
use slot_stream::shredstream::file_log::{default_log_path, log_line, LogTarget};
use slot_stream::shredstream::health::ShredstreamHealth;
use slot_stream::shredstream::heartbeat::{
    double_backoff, heartbeat_interval, retry_wait_ms, HeartbeatAction, HeartbeatLoop,
    HeartbeatReply, ScopedAtomicBool,
};
use slot_stream::shredstream::multi_heartbeat::{
    planned_ports, tick_interval_ns, MultiHeartbeat, MultiReply,
};
use slot_stream::shredstream::service::{
    after_wait, any_thread_dead, checked_settings, is_restart_command, poll_after_receive,
    poll_before_receive, runs_multi_heartbeat, stop_reason, AfterWait, PollResult, ServiceManager,
    RESTART_COOLDOWN_NS,
};
use slot_stream::shredstream::ShredstreamError;
use solana_keypair::Keypair;
use solana_pubkey::Pubkey;
use solana_signature::Signature;
use solana_signer::Signer;
use std::sync::atomic::{AtomicBool, Ordering};
use std::sync::Arc;

fn token(value: &str, expires_at_ns: Option<i128>) -> AuthToken {
    AuthToken {
        value: value.to_string(),
        expires_at_ns,
    }
}

#[test]
fn relays_are_counted_by_region() {
    assert_eq!(expected_relay_count("amsterdam"), 11);
    assert_eq!(expected_relay_count("new york"), 8);
    assert_eq!(expected_relay_count("slc"), 7);
    assert_eq!(expected_relay_count("atlantis"), 0);
    let regions = vec!["tokyo".to_string(), "dublin".to_string(), "x".to_string()];
    assert_eq!(total_expected_relays(&regions), 9);
    assert_eq!(total_expected_relays(&[]), 0);
    let reversed = vec!["dublin".to_string(), "tokyo".to_string()];
    assert_eq!(total_expected_relays(&reversed), 9);
}

#[test]
fn settings_have_defaults() {
    let config = ShredstreamConfig::default();
    assert!(!config.enabled);
    assert!(config.auth_url().is_none());
    assert!(!ShredstreamConfig::disabled().enabled);
    let config = ShredstreamConfig::new("https://be".to_string(), vec!["ny".to_string()]);
    assert!(config.enabled);
    assert_eq!(config.auth_url(), Some("https://be".to_string()));
}

#[test]
fn a_heartbeat_keeps_the_connection_healthy_for_two_minutes() {
    let mut health = ShredstreamHealth::new();
    assert!(!health.is_healthy(10));
    health.set_connected(true);
    assert!(!health.is_healthy(10));
    assert!(!health.get_status(59_999).healthy);
    health.record_successful_heartbeat(70_000);
    assert!(health.is_healthy(189_999));
    assert!(!health.is_healthy(190_000));
    assert_eq!(health.seconds_since_last_heartbeat(75_999), Some(5));
    health.record_failed_heartbeat();
    let status = health.get_status(75_000);
    assert_eq!(
        status.text(),
        "Shredstream: HEALTHY (connected=true, heartbeats=1/2, restarts=0, last_hb=5s ago, uptime=75s)"
    );
    health.record_client_restart();
    assert!(!health.is_healthy(75_000));
    assert_eq!(health.client_restart_count, 1);
    assert_eq!(
        ShredstreamHealth::new().get_status(1_000).text(),
        "Shredstream: UNHEALTHY (connected=false, heartbeats=0/0, restarts=0, last_hb=nevers ago, uptime=1s)"
    );
}

#[test]
fn a_challenge_is_signed() {
    let secret = [7u8; 32];
    let request = answer_challenge(&secret, "abc");
    let keypair = Keypair::new_from_array(secret);
    let pubkey: Pubkey = keypair.pubkey();
    assert_eq!(request.challenge, format!("{}-abc", pubkey));
    assert_eq!(request.client_pubkey, pubkey.to_bytes().to_vec());
    let signature: Signature = keypair.sign_message(request.challenge.as_bytes());
    assert_eq!(request.signed_challenge, signature.as_ref().to_vec());
    assert!(signature.verify(&request.client_pubkey, request.challenge.as_bytes()));
}

#[test]
fn tokens_are_renewed_in_time() {
    let hour: i128 = 3_600_000_000_000;
    assert!(matches!(
        TokenState::start(token("a", None), token("r", Some(hour))),
        Err(BlockEngineConnectionError::Deserialization)
    ));
    let mut state = TokenState::start(token("a", Some(hour)), token("r", Some(2 * hour))).unwrap();
    assert_eq!(state.bearer, "a");
    assert_eq!(
        state.next_action(0),
        TokenAction::Sleep(TOKEN_CHECK_PAUSE_NS)
    );
    assert_eq!(
        state.next_action(hour - TOKEN_RENEWAL_NS),
        TokenAction::Sleep(TOKEN_CHECK_PAUSE_NS)
    );
    assert_eq!(
        state.next_action(hour - TOKEN_RENEWAL_NS + 1),
        TokenAction::RefreshAccess
    );
    state.on_access_refreshed(token("b", Some(3 * hour)));
    assert_eq!(state.bearer, "b");
    assert_eq!(
        state.next_action(2 * hour - TOKEN_RENEWAL_NS + 1),
        TokenAction::FullAuth
    );
    state.on_full_auth(token("c", Some(4 * hour)), token("s", Some(5 * hour)));
    assert_eq!(state.bearer, "c");
    assert_eq!(state.refresh_token.value, "s");
    assert!(required_tokens(Some(token("a", None)), None).is_err());
    assert!(required_tokens(None, Some(token("a", None))).is_err());
    assert!(required_tokens(Some(token("a", None)), Some(token("b", None))).is_ok());
}

#[test]
fn requests_carry_the_token() {
    assert_eq!(bearer_header("abc"), Ok("Bearer abc".to_string()));
    assert_eq!(bearer_header(""), Err("missing bearer token".to_string()));
    assert!(uses_tls("https://x"));
    assert!(!uses_tls("http://x"));
    assert!(!uses_tls("http"));
}

#[test]
fn errors_of_the_service_have_a_text() {
    assert_eq!(
        ShredstreamError::Config("x".to_string()).text(),
        "configuration error: x"
    );
    assert_eq!(
        ShredstreamError::Connection(BlockEngineConnectionError::Client("no".to_string())).text(),
        "connection error: client error: no"
    );
    assert_eq!(
        BlockEngineConnectionError::Transport("t".to_string()).text(),
        "transport error: t"
    );
    assert_eq!(
        BlockEngineConnectionError::Deserialization.text(),
        "deserializing error"
    );
}

#[test]
fn the_log_path_is_set_once() {
    let mut target = LogTarget::new();
    assert_eq!(target.log_path(), None);
    target.init(Some("/tmp/a.log"));
    target.init(Some("/tmp/b.log"));
    assert_eq!(target.log_path(), Some("/tmp/a.log"));
    let mut target = LogTarget::new();
    target.init(None);
    assert_eq!(target.log_path(), Some(default_log_path()));
    assert_eq!(log_line("12:00", "INFO", "hello"), "[12:00 INFO] hello");
}

#[test]
fn the_shared_flag_is_the_same_flag() {
    let flag = ScopedAtomicBool {
        inner: Arc::new(AtomicBool::new(false)),
    };
    let other = flag.get_inner_clone();
    other.store(true, Ordering::Relaxed);
    assert!(flag.inner.load(Ordering::Relaxed));
}

#[test]
fn intervals_follow_the_time_to_live() {
    assert_eq!(heartbeat_interval(30_000), 10_000);
    assert_eq!(heartbeat_interval(1), 1_000);
    assert_eq!(heartbeat_interval(1_000_000_000), 120_000);
    assert_eq!(double_backoff(5_000), 10_000);
    assert_eq!(double_backoff(40_000), 60_000);
    assert_eq!(retry_wait_ms(Some("1500")), 1_500);
    assert_eq!(retry_wait_ms(Some("soon")), 60_000);
    assert_eq!(retry_wait_ms(None), 60_000);
}

#[test]
fn heartbeats_drop_the_connection_after_five_failures() {
    let mut health = ShredstreamHealth::new();
    let mut beat = HeartbeatLoop::new(None);
    beat.on_connected(&mut health);
    assert!(health.connected);
    assert_eq!(
        beat.on_reply(
            HeartbeatReply::Registered { ttl_ms: 30_000 },
            &mut health,
            1_000
        ),
        HeartbeatAction::TickEvery(10_000)
    );
    assert_eq!(
        beat.on_reply(
            HeartbeatReply::Registered { ttl_ms: 30_000 },
            &mut health,
            2_000
        ),
        HeartbeatAction::Stay
    );
    assert_eq!(
        beat.on_reply(
            HeartbeatReply::RateLimited { wait_ms: 700 },
            &mut health,
            3_000
        ),
        HeartbeatAction::TickEvery(700)
    );
    for _ in 0..4 {
        assert_eq!(
            beat.on_reply(HeartbeatReply::Failed, &mut health, 4_000),
            HeartbeatAction::Stay
        );
    }
    assert_eq!(
        beat.on_reply(HeartbeatReply::Failed, &mut health, 4_000),
        HeartbeatAction::Reconnect
    );
    assert!(!health.connected);
    assert_eq!(beat.on_reconnect(&mut health), 5_000);
    assert_eq!(beat.on_reconnect(&mut health), 10_000);
    assert_eq!(health.client_restart_count, 2);
    let counts = beat.on_metrics_tick();
    assert_eq!(
        (counts.successful, counts.failed, counts.restarts),
        (2, 6, 2)
    );
    assert_eq!(beat.on_metrics_tick().failed, 0);
    assert_eq!(
        (
            beat.reported.successful,
            beat.reported.failed,
            beat.reported.restarts
        ),
        (2, 6, 2)
    );
    beat.on_connected(&mut health);
    assert_eq!(
        beat.on_reply(HeartbeatReply::InvalidArgument, &mut health, 5_000),
        HeartbeatAction::Reconnect
    );
}

#[test]
fn a_registration_ends_the_pause_of_a_refusal() {
    let mut health = ShredstreamHealth::new();
    let mut beat = HeartbeatLoop::new(None);
    beat.on_connected(&mut health);
    let registered = HeartbeatReply::Registered { ttl_ms: 120_000 };
    assert_eq!(
        beat.on_reply(registered, &mut health, 1),
        HeartbeatAction::TickEvery(40_000)
    );
    for wait_ms in [0, 500, 60_000] {
        assert_eq!(
            beat.on_reply(HeartbeatReply::RateLimited { wait_ms }, &mut health, 2),
            HeartbeatAction::TickEvery(wait_ms)
        );
        assert_eq!(beat.tick_ms, wait_ms);
        assert_eq!(
            beat.on_reply(registered, &mut health, 3),
            HeartbeatAction::TickEvery(40_000)
        );
        assert_eq!(beat.tick_ms, 40_000);
    }
    assert_eq!(
        beat.on_reply(registered, &mut health, 4),
        HeartbeatAction::Stay
    );
}

#[test]
fn a_heartbeat_at_the_start_counts() {
    let mut health = ShredstreamHealth::new();
    assert_eq!(health.seconds_since_last_heartbeat(5_000), None);
    health.set_connected(true);
    health.record_successful_heartbeat(0);
    assert_eq!(health.seconds_since_last_heartbeat(5_000), Some(5));
    assert!(health.is_healthy(119_999));
    assert!(!health.is_healthy(120_000));
}

#[test]
fn supplementary_ports_take_turns() {
    assert_eq!(
        planned_ports(&vec!["ny".to_string()]),
        vec![20100, 20101, 20102]
    );
    assert!(planned_ports(&Vec::<String>::new()).is_empty());
    assert_eq!(tick_interval_ns(3), 13_333_333_333);
    assert_eq!(tick_interval_ns(0), 40_000_000_000);
    let mut multi = MultiHeartbeat::new();
    multi.on_connected();
    let served: Vec<usize> = (0..6).map(|t| multi.on_tick(t, 3).unwrap()).collect();
    assert_eq!(served, vec![0, 1, 2, 0, 1, 2]);
    assert!(!multi.on_reply(MultiReply::RateLimited { wait_ms: 100 }, 1_000));
    assert_eq!(multi.on_tick(1_099, 3), None);
    assert_eq!(multi.on_tick(1_100, 3), Some(0));
    assert!(!multi.on_reply(MultiReply::Failed, 0));
    assert!(!multi.on_reply(MultiReply::Failed, 0));
    assert!(multi.on_reply(MultiReply::Failed, 0));
    assert_eq!(multi.on_reconnect(), 5_000);
    assert_eq!(multi.on_reconnect(), 10_000);
    multi.on_connected();
    assert!(!multi.on_reply(MultiReply::Registered, 0));
    assert_eq!(multi.on_reconnect(), 5_000);
}

#[test]
fn settings_of_the_service_are_checked() {
    let ready = || ShredstreamConfig::new("https://be".to_string(), vec!["ny".to_string()]);
    match checked_settings(
        ShredstreamConfig::default(),
        Ok(()),
        "1.2.3.4:8000".to_string(),
        vec![],
    ) {
        Err(e) => assert_eq!(e.text(), "configuration error: block_engine_url is required"),
        Ok(_) => panic!("expected an error"),
    }
    match checked_settings(ready(), Err("no key".to_string()), "a".to_string(), vec![]) {
        Err(e) => assert_eq!(e.text(), "configuration error: no key"),
        Ok(_) => panic!("expected an error"),
    }
    match checked_settings(
        ShredstreamConfig::new("u".to_string(), vec![]),
        Ok(()),
        "a".to_string(),
        vec![],
    ) {
        Err(e) => assert_eq!(
            e.text(),
            "configuration error: at least one region must be specified"
        ),
        Ok(_) => panic!("expected an error"),
    }
    let settings = checked_settings(ready(), Ok(()), "a".to_string(), vec![1]).unwrap();
    assert_eq!(settings.auth_url, "https://be");
    assert!(runs_multi_heartbeat(&settings.extra_ports));
    assert!(!runs_multi_heartbeat(&vec![]));
}

#[test]
fn restarts_wait_for_the_cooldown() {
    assert!(any_thread_dead(true, None));
    assert!(any_thread_dead(false, Some(true)));
    assert!(!any_thread_dead(false, Some(false)));
    assert!(is_restart_command(b"restart"));
    assert!(!is_restart_command(b"stop"));
    assert_eq!(poll_before_receive(true, true), Some(PollResult::Exit));
    assert_eq!(
        poll_before_receive(false, true),
        Some(PollResult::ThreadDied)
    );
    assert_eq!(poll_before_receive(false, false), None);
    assert_eq!(poll_after_receive(b"restart"), Some(PollResult::Restart));
    assert_eq!(poll_after_receive(b"noise"), None);
    assert_eq!(stop_reason(PollResult::Exit), "");
    assert_eq!(stop_reason(PollResult::Restart), " (restart requested)");

    let mut health = ShredstreamHealth::new();
    let mut manager = ServiceManager::new();
    assert_eq!(manager.on_stopped(PollResult::Restart, 5), Some(0));
    assert_eq!(manager.on_stopped(PollResult::Exit, 5), None);
    manager.on_restart(100, &mut health);
    assert_eq!(
        manager.on_stopped(PollResult::ThreadDied, 101),
        Some(RESTART_COOLDOWN_NS - 1)
    );
    health.set_connected(true);
    assert_eq!(manager.on_spawn_failed(&mut health), 10_000_000_000);
    assert!(!health.connected);
}

#[test]
fn connected_without_a_heartbeat_is_not_healthy() {
    let mut health = ShredstreamHealth::new();
    health.set_connected(true);
    assert!(!health.is_healthy(0));
    assert!(!health.get_status(0).healthy);
    health.record_failed_heartbeat();
    assert!(!health.is_healthy(1));
    health.record_successful_heartbeat(2);
    assert!(health.is_healthy(2));
}

#[test]
fn counts_are_those_of_the_events() {
    let mut health = ShredstreamHealth::new();
    for i in 0..7 {
        health.record_successful_heartbeat(i);
        if i % 2 == 0 {
            health.record_failed_heartbeat();
        }
        if i % 3 == 0 {
            health.set_connected(true);
            health.record_client_restart();
        }
    }
    let status = health.get_status(10);
    assert_eq!(status.successful_heartbeat_count, 7);
    assert_eq!(status.failed_heartbeat_count, 4);
    assert_eq!(status.client_restart_count, 3);
    assert!(!status.connected);
    assert!(!status.healthy);
    health.set_connected(true);
    assert!(health.get_status(10).healthy);
}

#[test]
fn queued_commands_are_dropped_before_a_restart() {
    assert_eq!(after_wait(true), AfterWait::Stop);
    assert_eq!(after_wait(false), AfterWait::DrainAndRestart);
    let queue: Vec<&[u8]> = vec![b"restart", b"restart", b"restart\n"];
    let mut pending = queue.clone();
    let mut restarts = 0;
    while !pending.is_empty() {
        if poll_after_receive(pending.remove(0)) == Some(PollResult::Restart) {
            restarts += 1;
            if after_wait(false) == AfterWait::DrainAndRestart {
                pending.clear();
            }
        }
    }
    assert_eq!(restarts, 1);
}

#[test]
fn counts_of_a_heartbeat_loop_have_a_limit() {
    let mut beat = HeartbeatLoop::new(None);
    assert!(beat.counts_fit());
    beat.recent.failed = u64::MAX - 1;
    assert!(beat.counts_fit());
    beat.reported.failed = 1;
    assert!(!beat.counts_fit());
}
