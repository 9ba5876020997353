use echo_link::stream::{frame_line, session_output, LineReader};

#[test]
fn frame_appends_exactly_one_newline() {
    assert_eq!(frame_line(b"hello"), b"hello\n".to_vec());
    assert_eq!(frame_line(b""), b"\n".to_vec());
    assert_eq!(frame_line(b"{\"state\":\"open\"}"), b"{\"state\":\"open\"}\n".to_vec());
}

#[test]
fn session_output_concatenates_frames() {
    let lines = vec![b"one".to_vec(), b"two".to_vec(), b"three".to_vec()];
    assert_eq!(session_output(&lines), b"one\ntwo\nthree\n".to_vec());
    let none: Vec<Vec<u8>> = vec![];
    assert_eq!(session_output(&none), Vec::<u8>::new());
}

#[test]
fn reader_recovers_lines_from_one_chunk() {
    let mut r = LineReader::new();
    let out = r.push_bytes(b"one\ntwo\nthree\n");
    assert_eq!(out, vec![b"one".to_vec(), b"two".to_vec(), b"three".to_vec()]);
    assert!(r.pending.is_empty());
}

#[test]
fn reader_is_chunking_independent() {
    let lines = vec![b"alpha".to_vec(), b"beta".to_vec(), b"gamma".to_vec()];
    let bytes = session_output(&lines);
    let mut whole = LineReader::new();
    let got_whole = whole.push_bytes(&bytes);
    let mut split = LineReader::new();
    let mut got_split = Vec::new();
    for chunk in bytes.chunks(4) {
        got_split.extend(split.push_bytes(chunk));
    }
    assert_eq!(got_whole, lines);
    assert_eq!(got_split, lines);
    assert!(whole.pending.is_empty());
    assert!(split.pending.is_empty());
}

#[test]
fn reader_keeps_partial_line_pending() {
    let mut r = LineReader::new();
    let out = r.push_bytes(b"first\nsec");
    assert_eq!(out, vec![b"first".to_vec()]);
    assert_eq!(r.pending, b"sec".to_vec());
    let out = r.push_bytes(b"ond\n");
    assert_eq!(out, vec![b"second".to_vec()]);
    assert!(r.pending.is_empty());
}

#[test]
fn reader_handles_empty_lines_and_chunks() {
    let mut r = LineReader::new();
    let out = r.push_bytes(b"");
    assert!(out.is_empty());
    let out = r.push_bytes(b"\n\n");
    assert_eq!(out, vec![Vec::<u8>::new(), Vec::<u8>::new()]);
    assert!(r.pending.is_empty());
}

#[test]
fn lines_survive_framing_byte_for_byte() {
    let lines = vec![
        b"{\"state\":\"open\",\"angle\":12}".to_vec(),
        b"{\"state\":\"closed\",\"angle\":0}".to_vec(),
    ];
    let mut r = LineReader::new();
    let got = r.push_bytes(&session_output(&lines));
    assert_eq!(got, lines);
}
