use sandbox::multiplex::{Multiplexer, CEILING, READ_CHUNK};
use sandbox::protocol::{decode, escape_into, DecodeError, Encoder, Source, ESCAPE};

#[test]
fn single_stream_is_verbatim() {
    let mut m = Multiplexer::new();
    m.on_read(Source::Stdout, b"abc\n");
    m.on_read(Source::Stdout, b"def");
    assert_eq!(m.into_output(), b"abc\ndef".to_vec());
}

#[test]
fn switches_are_marked_once_each() {
    let mut m = Multiplexer::new();
    m.on_read(Source::Stdout, b"X");
    m.on_read(Source::Stderr, b"Y");
    m.on_read(Source::Stdout, b"Z");
    let out = m.into_output();
    assert_eq!(out, vec![b'X', 0x7F, b'E', b'Y', 0x7F, b'O', b'Z']);
    let d = decode(&out).unwrap();
    assert_eq!(d.stdout, b"XZ".to_vec());
    assert_eq!(d.stderr, b"Y".to_vec());
    assert_eq!(d.markers, 2);
}

#[test]
fn stderr_first_gets_a_marker() {
    let mut m = Multiplexer::new();
    m.on_read(Source::Stderr, b"oops");
    m.on_read(Source::Stderr, b"!");
    assert_eq!(m.into_output(), b"\x7fEoops!".to_vec());
}

#[test]
fn literal_escape_is_doubled_and_restored() {
    let mut m = Multiplexer::new();
    m.on_read(Source::Stdout, &[1, ESCAPE, 2]);
    m.on_read(Source::Stderr, &[ESCAPE]);
    let out = m.into_output();
    assert_eq!(out, vec![1, 0x7F, 0x7F, 2, 0x7F, b'E', 0x7F, 0x7F]);
    let d = decode(&out).unwrap();
    assert_eq!(d.stdout, vec![1, ESCAPE, 2]);
    assert_eq!(d.stderr, vec![ESCAPE]);
    assert_eq!(d.markers, 1);
}

#[test]
fn escape_into_doubles_only_the_escape_byte() {
    let mut out = vec![9];
    escape_into(&mut out, &[0x7F, 0x7E, 0x7F]);
    assert_eq!(out, vec![9, 0x7F, 0x7F, 0x7E, 0x7F, 0x7F]);
}

#[test]
fn encoder_marks_only_changes() {
    let mut e = Encoder::new();
    let mut out = Vec::new();
    e.append(Source::Stdout, b"a", &mut out);
    e.append(Source::Stderr, b"b", &mut out);
    e.append(Source::Stderr, b"c", &mut out);
    assert_eq!(e.current, Source::Stderr);
    assert_eq!(out, b"a\x7fEbc".to_vec());
}

#[test]
fn decode_empty() {
    let d = decode(&[]).unwrap();
    assert!(d.stdout.is_empty());
    assert!(d.stderr.is_empty());
    assert_eq!(d.markers, 0);
}

#[test]
fn decode_dangling_escape() {
    assert_eq!(decode(&[b'a', 0x7F]).err(), Some(DecodeError::DanglingEscape));
    assert_eq!(decode(&[0x7F]).err(), Some(DecodeError::DanglingEscape));
}

#[test]
fn decode_unknown_marker() {
    assert_eq!(decode(&[b'a', 0x7F, b'x', b'b']).err(), Some(DecodeError::UnknownMarker));
    assert_eq!(decode(&[0x7F, b'x', 0x7F]).err(), Some(DecodeError::UnknownMarker));
}

#[test]
fn decode_marker_to_active_stream() {
    let d = decode(b"\x7fOa\x7fEb\x7fEc").unwrap();
    assert_eq!(d.stdout, b"a".to_vec());
    assert_eq!(d.stderr, b"bc".to_vec());
    assert_eq!(d.markers, 3);
}

#[test]
fn empty_reads_close_streams() {
    let mut m = Multiplexer::new();
    assert!(m.wants_more());
    m.on_read(Source::Stdout, b"");
    assert!(!m.is_open(Source::Stdout));
    assert!(m.is_open(Source::Stderr));
    assert!(m.wants_more());
    m.on_read(Source::Stderr, b"late");
    m.on_read(Source::Stderr, b"");
    assert!(!m.wants_more());
    assert_eq!(m.len(), 6);
    assert_eq!(m.into_output(), b"\x7fElate".to_vec());
}

#[test]
fn draining_stops_past_the_ceiling() {
    let mut m = Multiplexer::new();
    let chunk = vec![b'a'; READ_CHUNK];
    let mut reads = 0;
    while m.wants_more() {
        m.on_read(Source::Stdout, &chunk);
        reads += 1;
    }
    assert!(m.len() > CEILING);
    assert!(m.len() <= CEILING + 2 * READ_CHUNK);
    assert_eq!(reads, CEILING / READ_CHUNK + 1);
    assert!(m.is_open(Source::Stdout));
}

#[test]
fn ceiling_overshoot_with_escapes() {
    let mut m = Multiplexer::new();
    let plain = vec![b'a'; READ_CHUNK];
    let escapes = vec![ESCAPE; READ_CHUNK];
    while m.len() + READ_CHUNK <= CEILING {
        m.on_read(Source::Stdout, &plain);
    }
    assert!(m.wants_more());
    m.on_read(Source::Stderr, &escapes);
    assert!(!m.wants_more());
    assert!(m.len() <= CEILING + 2 + 2 * READ_CHUNK);
}
