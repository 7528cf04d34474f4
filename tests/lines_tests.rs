use kmers_core::lines_reader::{LineEvent, LinesReader};

fn lines_of(events: &[LineEvent]) -> Vec<(Vec<u8>, bool)> {
    events.iter().map(|e| (e.line.clone(), e.finished)).collect()
}

#[test]
fn split_line_stops_at_first_newline_and_drops_cr() {
    let (full, line, next) = LinesReader::split_line(b"ab\r\ncd\nef");
    assert!(full);
    assert_eq!(line, b"ab".to_vec());
    assert_eq!(next, 4);
}

#[test]
fn split_line_without_newline_takes_everything() {
    let (full, line, next) = LinesReader::split_line(b"xyz\r");
    assert!(!full);
    assert_eq!(line, b"xyz".to_vec());
    assert_eq!(next, 4);
}

#[test]
fn split_line_on_empty_buffer() {
    let (full, line, next) = LinesReader::split_line(b"");
    assert!(!full);
    assert!(line.is_empty());
    assert_eq!(next, 0);
}

#[test]
fn split_line_on_leading_newline() {
    let (full, line, next) = LinesReader::split_line(b"\nrest");
    assert!(full);
    assert!(line.is_empty());
    assert_eq!(next, 1);
}

#[test]
fn process_lines_joins_lines_across_chunks() {
    let chunks = vec![b"one\ntw".to_vec(), b"o\r\nthr".to_vec(), b"ee\n".to_vec()];
    let events = LinesReader::process_lines(&chunks);
    assert_eq!(
        lines_of(&events),
        vec![
            (b"one".to_vec(), false),
            (b"two".to_vec(), false),
            (b"three".to_vec(), false),
            (Vec::new(), true),
        ]
    );
}

#[test]
fn process_lines_drops_unterminated_last_line() {
    let chunks = vec![b"a\nb".to_vec()];
    let events = LinesReader::process_lines(&chunks);
    assert_eq!(lines_of(&events), vec![(b"a".to_vec(), false), (Vec::new(), true)]);
}

#[test]
fn process_lines_on_empty_stream() {
    let events = LinesReader::process_lines(&Vec::new());
    assert_eq!(lines_of(&events), vec![(Vec::new(), true)]);
}

#[test]
fn carriage_return_at_chunk_end_is_dropped() {
    let chunks = vec![b"ab\r".to_vec(), b"cd\n".to_vec()];
    let events = LinesReader::process_lines(&chunks);
    assert_eq!(lines_of(&events), vec![(b"abcd".to_vec(), false), (Vec::new(), true)]);
}

#[test]
fn feed_keeps_partial_line_until_completed() {
    let mut reader = LinesReader::new();
    let mut out = Vec::new();
    reader.feed(b"par", &mut out);
    assert!(out.is_empty());
    reader.feed(b"tial\nnext", &mut out);
    assert_eq!(lines_of(&out), vec![(b"partial".to_vec(), false)]);
    reader.feed(b"", &mut out);
    assert_eq!(lines_of(&out), vec![(b"partial".to_vec(), false), (Vec::new(), true)]);
}
