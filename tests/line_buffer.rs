use logline::line_buffer::{LineBuffer, TruncatingWrite, TRUNCATED_MARKER};
use logline::text::safe_truncate;

fn put_msg(mut line: TruncatingWrite<'_>, meta: &str, payload: &str, fields: &str) {
    line.meta_mut().push_str(meta);
    line.payload_mut().push_str(payload);
    line.fields_mut().push_str(fields);
    line.try_commit();
}

fn truncation_parametrized(limit: usize, cases: &[(&str, &str, &str, &str)]) {
    let mut buffer = LineBuffer::with_capacity(100, limit);
    for (meta, payload, fields, expected) in cases {
        let before = buffer.as_str().len();
        put_msg(buffer.truncating_write(), meta, payload, fields);

        let line = &buffer.as_str()[before..];
        assert_eq!(line, *expected);
    }
}

#[test]
fn test_safe_truncate_util() {
    for (original, truncate_to, expected) in [
        ("Hello 🫱🏻‍🫲🏿", 7, "Hello "),
        ("Hello 🫱 World 🫱", 7, "Hello "),
        ("Русский язык", 5, "Ру"),
        ("Русский язык", 23, "Русский язык"),
    ] {
        let mut original = original.to_owned();
        safe_truncate(&mut original, truncate_to);
        assert_eq!(original, expected);
    }
}

#[test]
fn test_log_truncation() {
    truncation_parametrized(
        5 + TRUNCATED_MARKER.len(),
        &[
            ("caffee ", "latte ", "ji ", "caffe TRUNCATED\n"),
            // part of payload is dropped
            ("l ", "a ", "kekekekekekekekekeke", "l kek TRUNCATED\n"),
        ],
    );
    truncation_parametrized(
        10 + TRUNCATED_MARKER.len(),
        &[
            // payload dropped
            ("hello ", "world ", "module=1234", "hello modu TRUNCATED\n"),
        ],
    );
}

#[test]
fn test_rollback_on_drop() {
    let mut buffer = LineBuffer::with_capacity(100, 1000);
    {
        let mut line = buffer.direct_write();
        line.meta_mut().push_str("Hello world");
        line.try_commit();
    }

    buffer.direct_write().meta_mut().push_str("First");
    assert_eq!(buffer.as_str(), "Hello world\n");

    buffer.truncating_write().meta_mut().push_str("Second");
    assert_eq!(buffer.as_str(), "Hello world\n");
}

// When using 0 as line size limit, buffer must contain only newlines
#[test]
fn test_always_empty_string() {
    let mut buffer = LineBuffer::with_capacity(100, 0);
    put_msg(buffer.truncating_write(), "Hello", "World", "!!!!");
    put_msg(
        buffer.truncating_write(),
        "12345",
        "I can count to 5!",
        "mood = good",
    );
    put_msg(buffer.truncating_write(), ":D", "Smiling face", "");

    assert_eq!(buffer.as_str(), "\n\n\n");
}

#[test]
fn safe_truncate_reports_rounding() {
    let mut text = "Hello 🫱🏻‍🫲🏿".to_owned();
    assert_eq!(safe_truncate(&mut text, 7), 1);
    assert_eq!(text, "Hello ");

    let mut text = "Ру".to_owned();
    assert_eq!(safe_truncate(&mut text, 3), 1);
    assert_eq!(text, "Р");

    let mut text = "abc".to_owned();
    assert_eq!(safe_truncate(&mut text, 10), 7);
    assert_eq!(text, "abc");

    let mut text = "abc".to_owned();
    assert_eq!(safe_truncate(&mut text, 0), 0);
    assert_eq!(text, "");
}

#[test]
fn line_with_room_for_marker_is_clean() {
    let mut buffer = LineBuffer::with_capacity(16, 100);
    put_msg(buffer.truncating_write(), "ts ", "msg ", "k=v");
    assert_eq!(buffer.as_str(), "ts msg k=v\n");
}

#[test]
fn line_within_budget_without_room_for_marker_is_marked() {
    let mut buffer = LineBuffer::with_capacity(16, 12);
    put_msg(buffer.truncating_write(), "hello", "", "");
    assert_eq!(buffer.as_str(), "hello TRUNCATED\n");
}

#[test]
fn empty_line_at_zero_budget_is_marked() {
    let mut buffer = LineBuffer::with_capacity(16, 0);
    put_msg(buffer.truncating_write(), "", "", "");
    assert_eq!(buffer.as_str(), " TRUNCATED\n");
}

#[test]
fn payload_is_cut_before_fields_and_meta() {
    // 4 + 16 + 4 = 24 bytes against a budget of 20: 14 bytes must go.
    let mut buffer = LineBuffer::with_capacity(64, 20);
    put_msg(buffer.truncating_write(), "meta", "payload-payload!", "f=12");
    assert_eq!(buffer.as_str(), "metapaf=12 TRUNCATED\n");
}

#[test]
fn fields_are_cut_once_payload_is_gone() {
    // 4 + 2 + 13 = 19 bytes against a budget of 15: 14 bytes must go.
    let mut buffer = LineBuffer::with_capacity(64, 15);
    put_msg(buffer.truncating_write(), "meta", "pp", "fields-fields");
    assert_eq!(buffer.as_str(), "metaf TRUNCATED\n");
}

#[test]
fn meta_is_cut_last() {
    // 10 + 2 + 2 = 14 bytes against a budget of 12: 12 bytes must go.
    let mut buffer = LineBuffer::with_capacity(64, 12);
    put_msg(buffer.truncating_write(), "abcdefghij", "pp", "ff");
    assert_eq!(buffer.as_str(), "ab TRUNCATED\n");
}

#[test]
fn cut_payload_keeps_whole_characters() {
    // 1 + 13 = 14 bytes against a budget of 13: 11 bytes must go, and the
    // cut falls inside the two bytes of "ё", which go whole.
    let mut buffer = LineBuffer::with_capacity(64, 13);
    put_msg(buffer.truncating_write(), "m", "aёxxxxxxxxxx", "");
    assert_eq!(buffer.as_str(), "ma TRUNCATED\n");
}

#[test]
fn direct_commit_refuses_long_line_whole() {
    let mut buffer = LineBuffer::with_capacity(64, 5);
    let mut line = buffer.direct_write();
    line.meta_mut().push_str("abc");
    line.payload_mut().push_str("de");
    assert_eq!(line.len(), 5);
    assert!(line.try_commit());

    let mut line = buffer.direct_write();
    line.meta_mut().push_str("abc");
    line.fields_mut().push_str("def");
    assert!(!line.try_commit());
    assert_eq!(buffer.as_str(), "abcde\n");

    put_msg(buffer.truncating_write(), "x", "", "");
    assert_eq!(buffer.as_str(), "abcde\nx TRUNCATED\n");
}

#[test]
fn segments_are_kept_between_lines() {
    let mut buffer = LineBuffer::with_capacity(64, 100);
    put_msg(buffer.truncating_write(), "a ", "b ", "c");
    put_msg(buffer.truncating_write(), "d ", "", "");
    assert_eq!(buffer.as_str(), "a b c\nd b c\n");
}

#[test]
fn clear_discards_lines_and_segments() {
    let mut buffer = LineBuffer::with_capacity(64, 100);
    put_msg(buffer.truncating_write(), "a ", "b ", "c");
    buffer.clear();
    assert_eq!(buffer.as_str(), "");
    put_msg(buffer.truncating_write(), "d", "", "");
    assert_eq!(buffer.as_str(), "d\n");
}

#[test]
fn configure_sets_budget_of_later_lines() {
    let mut buffer = LineBuffer::with_capacity(64, 100);
    put_msg(buffer.truncating_write(), "abcdef", "", "");
    buffer.configure(12);
    put_msg(buffer.truncating_write(), "abcdefghijklmn", "", "");
    assert_eq!(buffer.as_str(), "abcdef\nab TRUNCATED\n");
}

#[test]
fn truncating_lengths_count_bytes() {
    let mut buffer = LineBuffer::with_capacity(64, 100);
    put_msg(buffer.truncating_write(), "x", "", "");
    let mut line = buffer.truncating_write();
    line.meta_mut().push_str("ab");
    line.payload_mut().push_str("ё");
    line.fields_mut().push_str("k");
    assert_eq!(line.meta_len(), 2);
    assert_eq!(line.len(), 5);
}
