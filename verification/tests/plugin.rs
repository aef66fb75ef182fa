use dashmap::DashMap;
use fastbloom::AtomicBloomFilter;
use gxhash::GxBuildHasher;
use slot_stream::plugin::{
    added_answer, default_shm_path, equals_ignoring_case, parse_command, FilterCommand, CommandReply,
    KeySelection, ShmPlugin, FILTER_EXPECTED_ITEMS,
};
use slot_stream::shm::{ShmError, ShmReader};
use solana_pubkey::Pubkey;

const NOW: u64 = 1234;

fn new_filter() -> AtomicBloomFilter<GxBuildHasher> {
    AtomicBloomFilter::with_false_pos(0.00001)
        .hasher(GxBuildHasher::default())
        .expected_items(FILTER_EXPECTED_ITEMS)
}

fn new_plugin(path: &str, capacity: usize) -> ShmPlugin {
    match ShmPlugin::new(new_filter(), path.to_string(), capacity) {
        Ok(plugin) => plugin,
        Err(e) => panic!("no plugin: {}", e.text()),
    }
}

#[test]
fn test_reset_shm() {
    let mut plugin = new_plugin("/test_reset_shm", 1024 * 1024);

    // Write some data to the initial ring
    let pushed = plugin
        .writer
        .push(&mut plugin.ring, &[1u8; 32], b"initial data", NOW, &[0u8; 64]);
    assert!(pushed.is_ok());
    assert!(plugin.ring.alloc_off > 0);

    // Reset the SHM
    let result = plugin.reset_shm();
    assert!(result.is_ok(), "Reset should succeed: {:?}", result);
    assert_eq!(plugin.ring.alloc_off, 0);

    // Verify we can still write after reset
    let result = plugin.writer.push(
        &mut plugin.ring,
        &[2u8; 32],
        b"post-reset data",
        NOW,
        &[0u8; 64],
    );
    assert!(result.is_ok(), "Should be able to write after reset");
}

#[test]
fn test_concurrent_writes_during_reset() {
    let mut plugin = new_plugin("/test_concurrent_reset", 4 * 1024 * 1024);
    let num_writers = 4;
    let writes_per_thread = 100;

    // The writers take turns, and the reset comes between two of their writes.
    for j in 0..writes_per_thread {
        for i in 0..num_writers {
            let pk = [(i * 100 + j) as u8; 32];
            let data = format!("thread-{}-write-{}", i, j);
            let pushed =
                plugin
                    .writer
                    .push(&mut plugin.ring, &pk, data.as_bytes(), NOW, &[0u8; 64]);
            assert!(pushed.is_ok());
            if i == 1 && j == 50 {
                let result = plugin.reset_shm();
                assert!(
                    result.is_ok(),
                    "Reset should succeed even with concurrent writes"
                );
            }
        }
    }

    let result = plugin.writer.push(
        &mut plugin.ring,
        &[255u8; 32],
        b"final verification",
        NOW,
        &[0u8; 64],
    );
    assert!(
        result.is_ok(),
        "Should be able to write after concurrent reset"
    );
}

#[test]
fn test_reset_command_via_server() {
    let mut plugin = new_plugin("/test_server_reset", 1024 * 1024);

    // Send RESET command
    let response = plugin.handle_conn(b"RESET");
    assert!(
        response.contains("OK RESET"),
        "Should get OK RESET response, got: {}",
        response
    );

    // Verify we can still write after reset
    let result = plugin.writer.push(
        &mut plugin.ring,
        &[42u8; 32],
        b"post-server-reset",
        NOW,
        &[0u8; 64],
    );
    assert!(result.is_ok(), "Should be able to write after server reset");
}

#[test]
fn test_filtered_write_survives_reset() {
    let mut plugin = new_plugin("/test_filtered_write_reset", 2 * 1024 * 1024);

    // Add a key to the filter
    let test_pk = [7u8; 32];
    plugin.selection.filter.insert(&test_pk);

    // Write before reset
    assert!(plugin.filtered_write(&test_pk, b"before reset", &[0u8; 64], NOW));

    // Perform reset
    let result = plugin.reset_shm();
    assert!(result.is_ok(), "Reset should succeed");

    // Write after reset - should still work
    assert!(plugin.filtered_write(&test_pk, b"after reset", &[0u8; 64], NOW));
    assert_eq!(plugin.ring.alloc_off, 152);

    // Verify the filter still works
    assert!(
        plugin.selection.filter.contains(&test_pk),
        "Filter should still contain the key"
    );
}

#[test]
fn test_reset_clears_filter() {
    let mut plugin = new_plugin("/test_reset_clears_filter", 1024 * 1024);

    // Insert a key directly
    let test_pk = [88u8; 32];
    plugin.selection.filter.insert(&test_pk);
    assert!(
        plugin.selection.filter.contains(&test_pk),
        "Filter should contain key initially"
    );

    // Send RESET command
    let response = plugin.handle_conn(b"RESET");
    assert!(response.contains("OK RESET"), "Should get OK RESET");

    // Verify filter is cleared
    assert!(
        !plugin.selection.filter.contains(&test_pk),
        "Filter should be empty after RESET"
    );
}

#[test]
fn a_failed_reset_keeps_the_filter() {
    let mut plugin = new_plugin("/t_failed_reset", 4096);
    plugin.selection.filter.insert(&[88u8; 32]);
    let answer = plugin.selection.on_reset(Err("no space".to_string()));
    assert_eq!(answer, "ERR Failed to reset: no space\n");
    assert!(plugin.selection.filter.contains(&[88u8; 32]));
    let answer = plugin.selection.on_reset(Ok(()));
    assert_eq!(answer, "OK RESET (SHM queue and Filter reinitialized)\n");
    assert!(!plugin.selection.filter.contains(&[88u8; 32]));
}

#[test]
fn keys_are_added_from_a_list() {
    let mut plugin = new_plugin("/t_list", 4096);
    let answer = plugin.handle_conn(
        b" 11111111111111111111111111111111\n\tSysvarC1ock11111111111111111111111111111111 ",
    );
    assert_eq!(answer, "OK ADDED 2\n");
    assert!(plugin.selection.filter.contains(&[0u8; 32]));
    assert!(plugin.filtered_write(&[0u8; 32], b"x", &[0u8; 64], NOW));
    assert!(!plugin.filtered_write(&[9u8; 32], b"x", &[0u8; 64], NOW));
}

#[test]
fn keys_are_added_from_a_json_array() {
    let mut plugin = new_plugin("/t_json", 4096);
    let answer = plugin.handle_conn(b"[\"11111111111111111111111111111111\", \"\"]");
    assert_eq!(answer, "OK ADDED 1\n");
    assert!(plugin.selection.filter.contains(&[0u8; 32]));
    let answer = plugin.handle_conn(b"[1, 2]");
    assert!(answer.starts_with("ERR invalid JSON array: "));
}

#[test]
fn a_bad_key_is_refused() {
    let mut plugin = new_plugin("/t_bad", 4096);
    let answer = plugin.handle_conn(b"11111111111111111111111111111111 nonsense");
    assert!(answer.starts_with("ERR bad pubkey 'nonsense': "));
    // The key before it was added.
    assert!(plugin.selection.filter.contains(&[0u8; 32]));
}

#[test]
fn everything_is_written_after_a_star() {
    let mut plugin = new_plugin("/t_star", 4096);
    assert!(!plugin.filtered_write(&[9u8; 32], b"x", &[0u8; 64], NOW));
    plugin.handle_conn(b"*\n");
    assert!(plugin.selection.write_all);
    assert!(plugin.filtered_write(&[9u8; 32], b"x", &[0u8; 64], NOW));
    // Clearing the filter leaves that as it is; a list of keys ends it.
    assert_eq!(plugin.handle_conn(b"clear"), "OK CLEARED\n");
    assert!(plugin.selection.write_all);
    plugin.handle_conn(b"11111111111111111111111111111111");
    assert!(!plugin.selection.write_all);
}

#[test]
fn invalid_bytes_are_replaced() {
    let mut plugin = new_plugin("/t_lossy", 4096);
    let answer = plugin.handle_conn(&[b'a', 0xFF]);
    assert!(answer.starts_with("ERR bad pubkey 'a\u{FFFD}': "));
}

#[test]
fn written_records_are_read_back() {
    let mut plugin = new_plugin("/t_end_marker", 4096);
    let mut reader = ShmReader::open(&plugin.ring).unwrap();
    plugin.selection.write_all = true;
    assert!(plugin.filtered_write(&[5u8; 32], b"payload", &[6u8; 64], NOW));
    plugin.flush_tx_end_marker(&[6u8; 64]);
    let mut map: DashMap<Pubkey, Vec<u8>, GxBuildHasher> =
        DashMap::with_hasher(GxBuildHasher::default());
    let first = reader
        .poll_next_into_dashmap(&plugin.ring, &mut map, 0)
        .unwrap();
    assert_eq!((first.0, first.1, first.3), ([5u8; 32], NOW, false));
    let second = reader
        .poll_next_into_dashmap(&plugin.ring, &mut map, 0)
        .unwrap();
    assert!(second.3);
    // A record that does not fit is left out.
    let before = plugin.ring.alloc_off;
    assert!(plugin.filtered_write(&[5u8; 32], &[0u8; 5000], &[6u8; 64], NOW));
    assert_eq!(plugin.ring.alloc_off, before);
}

#[test]
fn commands_are_told_apart() {
    assert_eq!(parse_command(" * "), FilterCommand::WriteAll);
    assert_eq!(parse_command("Clear"), FilterCommand::Clear);
    assert_eq!(parse_command("reset\n"), FilterCommand::Reset);
    assert_eq!(parse_command(" [\"a\"]"), FilterCommand::AddJson);
    assert_eq!(parse_command("abc"), FilterCommand::AddList);
    assert!(equals_ignoring_case("ReSeT", "RESET"));
    assert!(!equals_ignoring_case("RESE", "RESET"));
    assert_eq!(added_answer(Ok(3)), "OK ADDED 3\n");
    assert_eq!(added_answer(Err("why".to_string())), "ERR why\n");
    assert_eq!(default_shm_path(), "/moufang_accounts");
}

#[test]
fn errors_of_the_ring_have_a_text() {
    assert_eq!(ShmError::InvalidHeader.text(), "invalid header");
    assert_eq!(ShmError::NoSpace.text(), "insufficient space");
    assert_eq!(ShmError::Nix("ENOENT".to_string()).text(), "nix: ENOENT");
    match ShmPlugin::new(new_filter(), "a/b".to_string(), 4096) {
        Err(e) => assert_eq!(e.text(), "invalid shm name: /a/b"),
        Ok(_) => panic!("expected an error"),
    }
    match ShmPlugin::new(new_filter(), "/ok".to_string(), 0) {
        Err(e) => assert_eq!(e.text(), "shared memory io: capacity_bytes=0"),
        Ok(_) => panic!("expected an error"),
    }
}

fn answer_of(selection: &mut KeySelection, body: &str) -> String {
    match selection.handle_text(body) {
        CommandReply::Answer(answer) => answer,
        CommandReply::Reset => panic!("a reset"),
    }
}

#[test]
fn only_named_keys_are_let_through() {
    let mut selection = KeySelection::new(new_filter());
    assert!(!selection.is_let_through(&[0u8; 32]));
    assert_eq!(answer_of(&mut selection, "[]"), "OK ADDED 0\n");
    assert!(!selection.is_let_through(&[0u8; 32]));
    let named = Pubkey::new_from_array([3u8; 32]);
    assert_eq!(answer_of(&mut selection, &named.to_string()), "OK ADDED 1\n");
    assert!(selection.is_let_through(&[3u8; 32]));
    assert!(!selection.is_let_through(&[0u8; 32]));
    // A further list adds its keys to the others.
    let other = Pubkey::new_from_array([4u8; 32]);
    assert_eq!(
        answer_of(&mut selection, &format!("[\"{}\"]", other)),
        "OK ADDED 1\n"
    );
    assert!(selection.is_let_through(&[3u8; 32]));
    assert!(selection.is_let_through(&[4u8; 32]));
    assert!(!selection.is_let_through(&[0u8; 32]));
    assert_eq!(answer_of(&mut selection, "clear"), "OK CLEARED\n");
    assert!(!selection.is_let_through(&[3u8; 32]));
    assert!(!selection.is_let_through(&[4u8; 32]));
}

#[test]
fn a_reset_is_left_to_the_owner_of_the_ring() {
    let mut selection = KeySelection::new(new_filter());
    selection.filter.insert(&[5u8; 32]);
    assert!(matches!(selection.handle_conn(b"reset"), CommandReply::Reset));
    assert!(selection.is_let_through(&[5u8; 32]));
    selection.on_reset(Ok(()));
    assert!(!selection.is_let_through(&[5u8; 32]));
}
