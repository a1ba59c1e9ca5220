//! Behavior of the tail cursor across poll cycles: growth, truncation,
//! and partial trailing lines.

use log_viewer::cursor::TailCursor;

fn lines_of(v: &[Vec<u8>]) -> Vec<&[u8]> {
    v.iter().map(|l| l.as_slice()).collect()
}

#[test]
fn growth_yields_new_offset_to_read_from() {
    let mut c = TailCursor::new(5);
    assert_eq!(c.poll(10), Some(5));
    assert_eq!(c.offset, 5);
}

#[test]
fn no_growth_yields_nothing() {
    let mut c = TailCursor::new(7);
    assert_eq!(c.poll(7), None);
    assert_eq!(c.offset, 7);
}

#[test]
fn truncation_resets_cursor_to_file_start() {
    let mut c = TailCursor::new(100);
    assert_eq!(c.poll(40), Some(0));
    assert_eq!(c.offset, 0);
}

#[test]
fn truncation_to_empty_file_reads_nothing() {
    let mut c = TailCursor::new(100);
    assert_eq!(c.poll(0), None);
    assert_eq!(c.offset, 0);
}

#[test]
fn consume_advances_by_complete_lines_only() {
    let mut c = TailCursor::new(0);
    let lines = c.consume(b"abc\ndefg\nhi");
    assert_eq!(lines_of(&lines), vec![&b"abc"[..], b"defg"]);
    // 4 bytes for "abc\n" and 5 for "defg\n"; the partial "hi" stays.
    assert_eq!(c.offset, 9);
}

#[test]
fn consume_keeps_empty_lines() {
    let mut c = TailCursor::new(0);
    let lines = c.consume(b"\n\na\n");
    assert_eq!(lines_of(&lines), vec![&b""[..], b"", b"a"]);
    assert_eq!(c.offset, 4);
}

#[test]
fn partial_line_is_reported_exactly_once() {
    let mut c = TailCursor::new(0);
    // The writer appends a line without its terminator.
    let lines = c.consume(b"half a line");
    assert!(lines.is_empty());
    assert_eq!(c.offset, 0);
    // Next poll re-reads from the same offset, terminator now present.
    let lines = c.consume(b"half a line\n");
    assert_eq!(lines_of(&lines), vec![&b"half a line"[..]]);
    assert_eq!(c.offset, 12);
}

#[test]
fn truncation_recovery_reprocesses_current_content() {
    let mut c = TailCursor::new(0);
    let lines = c.consume(b"one\ntwo\n");
    assert_eq!(lines.len(), 2);
    assert_eq!(c.offset, 8);
    // The file shrank to 4 bytes: the next read starts from offset 0 and
    // everything now in the file is processed again.
    assert_eq!(c.poll(4), Some(0));
    assert_eq!(c.offset, 0);
    let lines = c.consume(b"new\n");
    assert_eq!(lines_of(&lines), vec![&b"new"[..]]);
    assert_eq!(c.offset, 4);
}

#[test]
fn offset_is_nondecreasing_across_growing_polls() {
    let mut c = TailCursor::new(0);
    let chunks: Vec<&[u8]> = vec![b"a\nb", b"b\n", b"", b"ccc\ndd"];
    let mut consumed_bytes = 0u64;
    let mut last = c.offset;
    for chunk in chunks {
        let lines = c.consume(chunk);
        assert!(c.offset >= last);
        consumed_bytes += lines.iter().map(|l| l.len() as u64 + 1).sum::<u64>();
        assert_eq!(c.offset, consumed_bytes);
        last = c.offset;
    }
}
