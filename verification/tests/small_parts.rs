use slot_stream::text::{
    parse_u64, push_decimal, push_decimal_padded, same_text, split_words, trim,
};
use slot_stream::trace::{TraceBuffer, TraceOp};

#[test]
fn numbers_are_written_and_read() {
    let mut text = String::from("n=");
    push_decimal(&mut text, 0);
    push_decimal(&mut text, 18446744073709551615);
    assert_eq!(text, "n=018446744073709551615");
    let mut text = String::new();
    push_decimal_padded(&mut text, 42, 6);
    assert_eq!(text, "000042");
    assert_eq!(parse_u64("18446744073709551615"), Some(u64::MAX));
    assert_eq!(parse_u64("18446744073709551616"), None);
    assert_eq!(parse_u64("+7"), Some(7));
    assert_eq!(parse_u64(""), None);
    assert_eq!(parse_u64("-1"), None);
}

#[test]
fn text_is_cut_as_the_standard_library_cuts_it() {
    for sample in ["", " a b ", "\u{3000}x\u{2003}\ty\n", "one", "\u{85}z\u{a0}"] {
        assert_eq!(trim(sample), sample.trim());
        let expected: Vec<String> = sample.split_whitespace().map(|w| w.to_string()).collect();
        assert_eq!(split_words(sample), expected);
    }
    assert!(same_text("abc", "abc"));
    assert!(!same_text("abc", "abd"));
}

#[test]
fn the_trace_keeps_the_last_steps() {
    let mut buffer = TraceBuffer::new();
    assert!(buffer.dump(0).is_empty());
    let slots = buffer.entries.len();
    for i in 0..slots as u64 + 3 {
        buffer.record(i, TraceOp::StaleRecord);
    }
    buffer.record(1_000_000, TraceOp::Complete);
    let lines = buffer.dump(4);
    assert_eq!(lines.len(), slots);
    assert!(matches!(lines[slots - 1], (999_996, TraceOp::Complete)));
    assert!(matches!(lines[0], (0, TraceOp::StaleRecord)));
}
