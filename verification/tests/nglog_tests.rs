use ng_log::decoder::decode_world;
use ng_log::{NgError, NgEvent, NgLog};

/// The world-form expansion used by tests: each plain byte `b` becomes the
/// pair `(b ^ k, k)`, so pairwise XOR decoding recovers `b`.
fn expand_with_key(plain: &[u8], k: u8) -> Vec<u8> {
    let mut out: Vec<u8> = Vec::new();
    for &b in plain {
        out.push(b ^ k);
        out.push(k);
    }
    out
}

#[test]
fn decode_pairs_even_buffer() {
    let data: Vec<u8> = vec![1, 2, 0xFF, 0x0F];
    let out = decode_world(&data).unwrap();
    assert_eq!(out, vec![3, 0xF0]);
}

#[test]
fn decode_empty_buffer() {
    let data: Vec<u8> = Vec::new();
    let out = decode_world(&data).unwrap();
    assert!(out.is_empty());
}

#[test]
fn decode_output_is_pairwise_xor() {
    let data: Vec<u8> = vec![0x10, 0x01, 0x20, 0x02, 0x42, 0x42, 0x00, 0xAB];
    let out = decode_world(&data).unwrap();
    assert_eq!(out.len(), data.len() / 2);
    for i in 0..out.len() {
        assert_eq!(out[i], data[2 * i] ^ data[2 * i + 1]);
    }
}

#[test]
fn odd_length_rejected_by_decoder() {
    for n in [1usize, 3, 5, 101] {
        let data: Vec<u8> = vec![b'a'; n];
        assert_eq!(decode_world(&data), Err(NgError::MalformedInput));
    }
}

#[test]
fn odd_length_rejected_by_world_parse() {
    for n in [1usize, 3, 5, 101] {
        let data: Vec<u8> = vec![b'a'; n];
        let r = NgLog::world_from_bytes(&data);
        assert!(matches!(r, Err(NgError::MalformedInput)));
    }
}

#[test]
fn expand_then_decode_is_identity() {
    let plain: Vec<u8> = b"2.0\tA\tB".to_vec();
    let world = expand_with_key(&plain, 0x2A);
    assert_eq!(decode_world(&world).unwrap(), plain);
    let world_zero = expand_with_key(&plain, 0x00);
    assert_eq!(decode_world(&world_zero).unwrap(), plain);
}

#[test]
fn zero_field_line_fails() {
    let r = NgEvent::from_string(&String::from(""));
    assert_eq!(r.err(), Some(NgError::MalformedInput));
}

#[test]
fn one_field_line_fails() {
    let r = NgEvent::from_string(&String::from("1.5"));
    assert_eq!(r.err(), Some(NgError::MalformedInput));
}

#[test]
fn two_field_line_has_no_class() {
    let e = NgEvent::from_string(&String::from("1.5\tBAR")).unwrap();
    assert_eq!(e.timestamp, "1.5");
    assert_eq!(e.event_class, None);
    assert_eq!(e.event_id, "BAR");
    assert!(e.event_params.is_empty());
}

#[test]
fn three_field_line_has_class_and_no_params() {
    let e = NgEvent::from_string(&String::from("1.5\tFOO\tBAR")).unwrap();
    assert_eq!(e.timestamp, "1.5");
    assert_eq!(e.event_class, Some(String::from("FOO")));
    assert_eq!(e.event_id, "BAR");
    assert!(e.event_params.is_empty());
}

#[test]
fn extra_fields_become_params_in_order() {
    let e = NgEvent::from_string(&String::from("1.5\tFOO\tBAR\tbaz\tqux")).unwrap();
    assert_eq!(e.timestamp, "1.5");
    assert_eq!(e.event_class, Some(String::from("FOO")));
    assert_eq!(e.event_id, "BAR");
    assert_eq!(e.event_params, vec![String::from("baz"), String::from("qux")]);
}

#[test]
fn empty_fields_are_preserved() {
    let e = NgEvent::from_string(&String::from("\t")).unwrap();
    assert_eq!(e.timestamp, "");
    assert_eq!(e.event_class, None);
    assert_eq!(e.event_id, "");
    assert!(e.event_params.is_empty());
}

#[test]
fn invalid_utf8_rejected() {
    let data: Vec<u8> = vec![0x80];
    let r = NgLog::local_from_bytes(&data);
    assert!(matches!(r, Err(NgError::EncodingError)));
    let mut mixed: Vec<u8> = b"1.5\tFOO\tBAR".to_vec();
    mixed.push(0x80);
    let r = NgLog::local_from_bytes(&mixed);
    assert!(matches!(r, Err(NgError::EncodingError)));
}

#[test]
fn invalid_utf8_after_world_decode_rejected() {
    // decodes to the single byte 0x80, which is not valid UTF-8
    let data: Vec<u8> = vec![0x80, 0x00];
    let r = NgLog::world_from_bytes(&data);
    assert!(matches!(r, Err(NgError::EncodingError)));
}

#[test]
fn world_decode_end_to_end() {
    let plain = String::from("2.0\tA\tB");
    let world = expand_with_key(plain.as_bytes(), 0x2A);
    let from_world = NgLog::world_from_bytes(&world).unwrap();
    let from_text = NgLog::from_string(&plain).unwrap();
    assert_eq!(from_world.events.len(), 1);
    assert_eq!(from_text.events.len(), 1);
    let (w, t) = (&from_world.events[0], &from_text.events[0]);
    assert_eq!(w.timestamp, t.timestamp);
    assert_eq!(w.event_class, t.event_class);
    assert_eq!(w.event_id, t.event_id);
    assert_eq!(w.event_params, t.event_params);
    assert_eq!(w.timestamp, "2.0");
    assert_eq!(w.event_class, Some(String::from("A")));
    assert_eq!(w.event_id, "B");
}

#[test]
fn local_bytes_with_multibyte_text() {
    let text = "1.5\t\u{c9}v\u{e9}nement\tBAR";
    let log = NgLog::local_from_bytes(&text.as_bytes().to_vec()).unwrap();
    assert_eq!(log.events.len(), 1);
    assert_eq!(
        log.events[0].event_class,
        Some(String::from("\u{c9}v\u{e9}nement"))
    );
}

#[test]
fn round_trip_without_trailing_newline() {
    let text = String::from("1.0\tA\tB\n2.0\tC\tD\tp1\tp2");
    let log = NgLog::from_string(&text).unwrap();
    assert_eq!(log.to_string(), format!("{}\n", text));
}

#[test]
fn round_trip_with_trailing_newline() {
    let text = String::from("1.0\tA\tB\n2.0\tC\tD\n");
    let log = NgLog::from_string(&text).unwrap();
    assert_eq!(log.to_string(), text);
}

#[test]
fn event_to_string_with_class_and_params() {
    let e = NgEvent::new(
        String::from("1.5"),
        Some(String::from("FOO")),
        String::from("BAR"),
        vec![String::from("baz"), String::from("qux")],
    );
    assert_eq!(e.to_string(), "1.5\tFOO\tBAR\tbaz\tqux");
}

#[test]
fn event_to_string_without_class() {
    let e = NgEvent::new(String::from("1.5"), None, String::from("BAR"), Vec::new());
    assert_eq!(e.to_string(), "1.5\tBAR");
}

#[test]
fn empty_text_gives_empty_log() {
    let log = NgLog::from_string(&String::from("")).unwrap();
    assert_eq!(log.events.len(), 0);
    assert_eq!(log.to_string(), "");
}

#[test]
fn new_log_is_empty() {
    let log = NgLog::new(16);
    assert!(log.events.is_empty());
}

#[test]
fn first_malformed_line_aborts_parse() {
    let r = NgLog::from_string(&String::from("1.0\tA\nbad line\n2.0\tB"));
    assert_eq!(r.err(), Some(NgError::MalformedInput));
}

#[test]
fn blank_line_in_middle_is_malformed() {
    let r = NgLog::from_string(&String::from("1.0\tA\n\n2.0\tB"));
    assert_eq!(r.err(), Some(NgError::MalformedInput));
}

#[test]
fn trailing_terminator_makes_no_extra_event() {
    let log = NgLog::from_string(&String::from("1.0\tA\n")).unwrap();
    assert_eq!(log.events.len(), 1);
    assert_eq!(log.events[0].event_id, "A");
}

#[test]
fn crlf_terminator_is_consumed() {
    let log = NgLog::from_string(&String::from("1.0\tA\r\n2.0\tB")).unwrap();
    assert_eq!(log.events.len(), 2);
    assert_eq!(log.events[0].event_id, "A");
    assert_eq!(log.events[1].timestamp, "2.0");
}

#[test]
fn bare_carriage_return_is_kept() {
    let log = NgLog::from_string(&String::from("1.0\tA\rB")).unwrap();
    assert_eq!(log.events.len(), 1);
    assert_eq!(log.events[0].event_id, "A\rB");
}

#[test]
fn error_messages() {
    assert_eq!(NgError::EncodingError.message(), "invalid UTF-8 data");
    assert_eq!(NgError::MalformedInput.message(), "malformed log data");
}
