//! The terminal renderer observed on concrete byte streams.

use colony_core::terminal::LineBuffer;

fn lines_of(buf: &LineBuffer) -> Vec<String> {
    buf.read_lines(0)
}

#[test]
fn plain_two_lines() {
    let mut buf = LineBuffer::new();
    buf.feed(b"hello\nworld\n");
    assert_eq!(lines_of(&buf), vec!["hello".to_string(), "world".to_string()]);
}

#[test]
fn current_line_is_visible_until_terminated() {
    let mut buf = LineBuffer::new();
    buf.feed(b"hello\nwor");
    assert_eq!(lines_of(&buf), vec!["hello".to_string(), "wor".to_string()]);
    buf.feed(b"ld\n");
    assert_eq!(lines_of(&buf), vec!["hello".to_string(), "world".to_string()]);
}

#[test]
fn progress_bar_collapses_to_last_write() {
    let mut buf = LineBuffer::new();
    buf.feed(b"step 1\rstep 2\rstep 3\n");
    assert_eq!(lines_of(&buf), vec!["step 3".to_string()]);
}

#[test]
fn carriage_return_rewrites_in_place_never_splits() {
    let mut buf = LineBuffer::new();
    buf.feed(b"abcdef\rxy");
    assert_eq!(lines_of(&buf), vec!["xycdef".to_string()]);
}

#[test]
fn carriage_return_at_line_start_emits_nothing() {
    let mut buf = LineBuffer::new();
    buf.feed(b"\rab");
    assert_eq!(lines_of(&buf), vec!["ab".to_string()]);
}

#[test]
fn backspace_removes_one_code_point_at_most_to_empty() {
    let mut buf = LineBuffer::new();
    buf.feed(b"ab\x08c");
    assert_eq!(lines_of(&buf), vec!["ac".to_string()]);

    let mut buf2 = LineBuffer::new();
    buf2.feed(b"x\x08\x08\x08y");
    assert_eq!(lines_of(&buf2), vec!["y".to_string()]);
}

#[test]
fn backspace_never_reaches_prior_lines() {
    let mut buf = LineBuffer::new();
    buf.feed(b"one\n\x08\x08z");
    assert_eq!(lines_of(&buf), vec!["one".to_string(), "z".to_string()]);
}

#[test]
fn chunking_makes_no_difference() {
    let stream = b"alpha\nbeta\rgamma\ndelta";
    let mut whole = LineBuffer::new();
    whole.feed(stream);
    for cut in 0..stream.len() {
        let mut split = LineBuffer::new();
        split.feed(&stream[..cut]);
        split.feed(&stream[cut..]);
        assert_eq!(lines_of(&split), lines_of(&whole));
    }
}

#[test]
fn multibyte_codepoint_split_across_chunks() {
    let text = "caf\u{e9}\n".as_bytes();
    let mut whole = LineBuffer::new();
    whole.feed(text);
    assert_eq!(lines_of(&whole), vec!["caf\u{e9}".to_string()]);

    for cut in 0..text.len() {
        let mut split = LineBuffer::new();
        split.feed(&text[..cut]);
        split.feed(&text[cut..]);
        assert_eq!(lines_of(&split), lines_of(&whole));
    }
}

#[test]
fn four_byte_codepoint_split_across_chunks() {
    let text = "ok \u{1f600}!\n".as_bytes();
    let mut whole = LineBuffer::new();
    whole.feed(text);
    assert_eq!(lines_of(&whole), vec!["ok \u{1f600}!".to_string()]);

    for cut in 0..text.len() {
        let mut split = LineBuffer::new();
        split.feed(&text[..cut]);
        split.feed(&text[cut..]);
        assert_eq!(lines_of(&split), lines_of(&whole));
    }
}

#[test]
fn malformed_bytes_become_replacement_characters() {
    let mut buf = LineBuffer::new();
    buf.feed(&[b'a', 0xff, b'b', b'\n']);
    assert_eq!(lines_of(&buf), vec!["a\u{fffd}b".to_string()]);
}

#[test]
fn lone_continuation_byte_is_malformed() {
    let mut buf = LineBuffer::new();
    buf.feed(&[0x80, b'x', b'\n']);
    assert_eq!(lines_of(&buf), vec!["\u{fffd}x".to_string()]);
}

#[test]
fn truncated_sequence_followed_by_ascii() {
    // A three-byte lead with one continuation, then ASCII: the carry
    // is malformed and the ASCII byte stands on its own.
    let mut buf = LineBuffer::new();
    buf.feed(&[0xe2, 0x82, b'x', b'\n']);
    assert_eq!(lines_of(&buf), vec!["\u{fffd}x".to_string()]);
}

#[test]
fn incomplete_trailing_sequence_is_carried_not_rendered() {
    let mut buf = LineBuffer::new();
    buf.feed(&[b'a', 0xe2, 0x82]);
    assert_eq!(lines_of(&buf), vec!["a".to_string()]);
    buf.feed(&[0xac, b'\n']);
    assert_eq!(lines_of(&buf), vec!["a\u{20ac}".to_string()]);
}

#[test]
fn read_lines_slices_from_offset() {
    let mut buf = LineBuffer::new();
    buf.feed(b"a\nb\nc\n");
    assert_eq!(buf.read_lines(0), vec!["a".to_string(), "b".to_string(), "c".to_string()]);
    assert_eq!(buf.read_lines(1), vec!["b".to_string(), "c".to_string()]);
    assert_eq!(buf.read_lines(3), Vec::<String>::new());
    assert_eq!(buf.read_lines(7), Vec::<String>::new());
}

#[test]
fn empty_feed_shows_nothing() {
    let mut buf = LineBuffer::new();
    buf.feed(b"");
    assert_eq!(lines_of(&buf), Vec::<String>::new());
}

#[test]
fn lone_newline_freezes_an_empty_line() {
    let mut buf = LineBuffer::new();
    buf.feed(b"\n");
    assert_eq!(lines_of(&buf), vec!["".to_string()]);
}

#[test]
fn partial_rewrite_keeps_the_line_tail() {
    let mut buf = LineBuffer::new();
    buf.feed(b"abcdef\rxy\n");
    assert_eq!(lines_of(&buf), vec!["xycdef".to_string()]);
}

#[test]
fn backspace_after_a_return_still_removes_the_last_code_point() {
    let mut buf = LineBuffer::new();
    buf.feed(b"ab\r\x08");
    assert_eq!(lines_of(&buf), vec!["a".to_string()]);
}
