//! Event loop timers, the streaming decoder, timestamps, checksums, and
//! the encoder round trip.

use fixcore::checksum::{ChecksumAlgo, ChecksumAlgoLazy, ChecksumAlgoStd};
use fixcore::codec::{Codec, EncoderHandle, Error, TransVerticalSlash};
use fixcore::event_loop::{LlEvent, LlEventLoop};
use fixcore::message::{FieldValue, Message};
use fixcore::timestamp::{format_timestamp, parse_timestamp, utc_now_parts, Timestamp};

/// With a heartbeat of `H`, an idle input draws a `TestRequest` after `2H`
/// and a `Logout` after `3H`, which kills the loop.
#[test]
fn idle_disconnect() {
    let mut event_loop = LlEventLoop::new(Codec::new(), 3000, 0);
    assert!(event_loop.timer_event(0).is_none());
    assert!(matches!(event_loop.timer_event(3000), Some(LlEvent::Heartbeat)));
    assert!(matches!(event_loop.timer_event(6000), Some(LlEvent::TestRequest)));
    assert!(matches!(event_loop.timer_event(9000), Some(LlEvent::Logout)));
    assert!(event_loop.timer_event(12000).is_none());
}

#[test]
fn dead_input_triggers_logout() {
    let mut event_loop = LlEventLoop::new(Codec::new(), 3000, 0);
    let event = event_loop.timer_event(3000);
    assert!(matches!(event, Some(LlEvent::Heartbeat)));
    let event = event_loop.timer_event(6000);
    assert!(
        matches!(event, Some(LlEvent::Heartbeat)) || matches!(event, Some(LlEvent::TestRequest))
    );
}

/// At most one `Heartbeat` per interval: after one fires, the timer is
/// re-armed and stays quiet for a whole interval.
#[test]
fn one_heartbeat_per_interval() {
    let mut event_loop = LlEventLoop::new(Codec::new(), 3000, 0);
    assert!(matches!(event_loop.timer_event(3000), Some(LlEvent::Heartbeat)));
    assert!(event_loop.timer_event(4000).is_none());
    assert!(event_loop.timer_event(5999).is_none());
}

/// `ping_heartbeat` re-arms the liveness timers.
#[test]
fn ping_heartbeat_defers_test_request() {
    let mut event_loop = LlEventLoop::new(Codec::new(), 3000, 0);
    assert!(matches!(event_loop.timer_event(3000), Some(LlEvent::Heartbeat)));
    event_loop.ping_heartbeat(5000);
    // Without the ping a TestRequest would fire at 6000; the heartbeat
    // timer fires instead, and the probe waits until 5000 + 2H.
    assert!(matches!(event_loop.timer_event(6000), Some(LlEvent::Heartbeat)));
    assert!(matches!(event_loop.timer_event(9000), Some(LlEvent::Heartbeat)));
    assert!(event_loop.timer_event(10999).is_none());
    assert!(matches!(event_loop.timer_event(11000), Some(LlEvent::TestRequest)));
}

#[test]
fn test_multi_part_messages() {
    let msg = "8=FIX.4.4|9=122|35=D|34=215|49=CLIENT12|52=20100225-19:41:57.316|56=B|1=Marcel|11=13346|21=1|40=2|44=5|54=1|59=0|60=20100225-19:39:52.020|10=072|";
    let bytes = msg.as_bytes();
    let whole = Codec::with_transmuter(&TransVerticalSlash)
        .decode(bytes)
        .unwrap();
    let mut event_loop = LlEventLoop::new(Codec::with_transmuter(&TransVerticalSlash), 3000, 0);
    let step = 10;
    let mut used = 0;
    let mut received: Option<Message> = None;
    while used < bytes.len() {
        let end = if used + step > bytes.len() { bytes.len() } else { used + step };
        match event_loop.on_bytes(&bytes[used..end], 0) {
            None => {}
            Some(LlEvent::Message(m)) => {
                received = Some(m);
            }
            Some(_) => panic!("Expected message"),
        }
        used = end;
    }
    assert_eq!(received.expect("Partial message received"), whole);
}

/// Parsing after `clear()` equals parsing on a fresh decoder.
#[test]
fn clear_is_like_fresh() {
    let mut frame1 = EncoderHandle::start(b"FIX.4.4", b"0", 1);
    frame1.set(49, b"A");
    frame1.set_u64(34, 1);
    let frame1 = frame1.done();
    let mut frame2 = EncoderHandle::start(b"FIX.4.4", b"0", 1);
    frame2.set(49, b"B");
    frame2.set_u64(34, 2);
    let frame2 = frame2.done();

    let mut used = Codec::new();
    used.add_bytes_read(&frame1);
    assert_eq!(used.try_parse(), Ok(Some(())));
    used.clear();
    used.add_bytes_read(&frame2);
    assert_eq!(used.try_parse(), Ok(Some(())));

    let mut fresh = Codec::new();
    fresh.add_bytes_read(&frame2);
    assert_eq!(fresh.try_parse(), Ok(Some(())));
    assert_eq!(used.message(), fresh.message());
}

/// Round trip: a message built via the encoder API decodes to the same
/// field map, with the computed `BodyLength(9)` and `CheckSum(10)` around
/// it.
#[test]
fn encode_decode_round_trip() {
    let mut h = EncoderHandle::start(b"FIX.4.4", b"D", 1);
    h.set(49, b"SENDER");
    h.set(56, b"TARGET");
    h.set_u64(34, 7);
    h.set(58, b"hello world");
    let bytes = h.done();
    let m = Codec::new().decode(&bytes).unwrap();
    assert_eq!(m.get_field(8), Some(&FieldValue::Str(b"FIX.4.4".to_vec())));
    assert_eq!(m.get_raw(35).unwrap(), b"D".to_vec());
    assert_eq!(m.get_raw(49).unwrap(), b"SENDER".to_vec());
    assert_eq!(m.get_raw(56).unwrap(), b"TARGET".to_vec());
    assert_eq!(m.get_field(34), Some(&FieldValue::Int(7)));
    assert_eq!(m.get_raw(58).unwrap(), b"hello world".to_vec());
    assert_eq!(m.len(), 8);
}

/// Round trip through `Codec::encode`: every primitive value kind comes
/// back equal.
#[test]
fn message_encode_round_trip() {
    let mut m = Message::new();
    m.set_field(8, FieldValue::Str(b"FIX.4.4".to_vec()));
    m.set_field(35, FieldValue::Str(b"D".to_vec()));
    m.set_field(49, FieldValue::Str(b"SENDER".to_vec()));
    m.set_field(34, FieldValue::Int(42));
    m.set_field(44, FieldValue::Float(b"2200.75".to_vec()));
    m.set_field(54, FieldValue::Ch(b'1'));
    let codec = Codec::new();
    let bytes = codec.encode(&m).unwrap();
    let back = codec.decode(&bytes).unwrap();
    assert_eq!(back.get_field(8), Some(&FieldValue::Str(b"FIX.4.4".to_vec())));
    assert_eq!(back.get_field(35), Some(&FieldValue::Str(b"D".to_vec())));
    assert_eq!(back.get_field(49), Some(&FieldValue::Str(b"SENDER".to_vec())));
    assert_eq!(back.get_field(34), Some(&FieldValue::Int(42)));
    assert_eq!(back.get_field(44), Some(&FieldValue::Float(b"2200.75".to_vec())));
    assert_eq!(back.get_field(54), Some(&FieldValue::Ch(b'1')));
    // The computed header and trailer around the original fields.
    assert_eq!(back.len(), m.len() + 2);
    assert!(back.get_field(9).is_some());
    assert!(back.get_field(10).is_some());
}

/// The stated `BodyLength(9)` counts the bytes between its own separator
/// and the separator before `10=`.
#[test]
fn body_length_counts_body() {
    let mut h = EncoderHandle::start(b"FIX.4.4", b"D", 1);
    h.set(58, b"some text");
    let bytes = h.done();
    let m = Codec::new().decode(&bytes).unwrap();
    let stated = match m.get_field(9) {
        Some(FieldValue::Int(v)) => *v as usize,
        _ => panic!("BodyLength missing"),
    };
    // The body runs from after the second separator (which closes the
    // BodyLength field) up to and including the separator before "10=".
    let first_sep = bytes.iter().position(|b| *b == 1).unwrap();
    let second_sep = first_sep + 1 + bytes[first_sep + 1..].iter().position(|b| *b == 1).unwrap();
    let trailer_start = bytes.len() - 7;
    assert_eq!(&bytes[trailer_start..trailer_start + 3], b"10=");
    assert_eq!(stated, trailer_start - (second_sep + 1));
}

/// The trailer checksum of every finalized frame verifies; a corrupted
/// byte is caught.
#[test]
fn checksum_verifies_and_catches_corruption() {
    let mut h = EncoderHandle::start(b"FIX.4.4", b"0", 1);
    h.set(49, b"SENDER");
    let mut bytes = h.done();
    let codec = Codec::new();
    assert_eq!(codec.verify_checksum(&bytes), Ok(()));
    bytes[3] = bytes[3].wrapping_add(1);
    assert!(matches!(
        codec.verify_checksum(&bytes),
        Err(Error::InvalidChecksum(_))
    ));
}

#[test]
fn rolling_checksum_sums_modulo_256() {
    let mut algo = ChecksumAlgoStd::fresh();
    algo.roll(&[250, 10]);
    assert_eq!(algo.window_length(), 2);
    assert_eq!(algo.result(), 4);

    let mut lazy = ChecksumAlgoLazy::fresh();
    lazy.roll(&[250, 10]);
    assert_eq!(lazy.window_length(), 2);
    assert_eq!(lazy.result(), 0);
    assert!(lazy.verify(123));
}

/// Encoding without the mandatory header fields is refused.
#[test]
fn encode_requires_header_fields() {
    let codec = Codec::new();
    assert_eq!(codec.encode(&Message::new()), Err(Error::FieldWithoutValue(8)));
    let mut m = Message::new();
    m.set_field(8, FieldValue::Str(b"FIX.4.4".to_vec()));
    assert_eq!(codec.encode(&m), Err(Error::FieldWithoutValue(35)));
}

/// A malformed integer value is a syntax error.
#[test]
fn malformed_body_length_is_syntax() {
    let codec = Codec::with_transmuter(&TransVerticalSlash);
    let result = codec.decode("8=FIX.4.2|9=abc|35=D|10=000|".as_bytes());
    assert_eq!(result, Err(Error::Syntax));
}

#[test]
fn timestamp_parses_and_formats() {
    let ts = parse_timestamp(b"20100304-07:59:30").unwrap();
    assert_eq!(
        ts,
        Timestamp { year: 2010, month: 3, day: 4, hour: 7, minute: 59, second: 30, millis: 0 }
    );
    let ts2 = parse_timestamp(b"20100219-14:33:32.258").unwrap();
    assert_eq!(ts2.millis, 258);
    assert_eq!(format_timestamp(&ts2), b"20100219-14:33:32.258".to_vec());
    assert_eq!(parse_timestamp(b"2010030-07:59:30"), None);
    assert_eq!(parse_timestamp(b"20100399-07:59:30"), None);
}

#[test]
fn epoch_millis_of_known_instants() {
    let day2 = Timestamp { year: 1970, month: 1, day: 2, hour: 0, minute: 0, second: 0, millis: 0 };
    assert_eq!(day2.to_epoch_millis(), 86400000);
    let y2020 = Timestamp { year: 2020, month: 1, day: 1, hour: 0, minute: 0, second: 0, millis: 0 };
    assert_eq!(y2020.to_epoch_millis(), 1577836800000);
}

/// The clock wrapper reports calendar fields in their documented ranges.
#[test]
fn clock_fields_in_range() {
    let now = utc_now_parts();
    assert!(1 <= now.month && now.month <= 12);
    assert!(1 <= now.day && now.day <= 31);
    assert!(now.hour <= 23 && now.minute <= 59 && now.second <= 59);
    assert!(now.millis <= 1999);
}

/// A `Data` typed value is length-prefixed by the preceding integer field
/// and may contain separators.
#[test]
fn data_field_reads_length_prefixed_bytes() {
    let msg = "8=FIX.4.4|9=18|35=D|95=4|96=ab|c|10=000|";
    let codec = Codec::with_transmuter(&TransVerticalSlash);
    let m = codec.decode(msg.as_bytes()).unwrap();
    assert_eq!(m.get_field(95), Some(&FieldValue::Int(4)));
    assert_eq!(m.get_field(96), Some(&FieldValue::Data(b"ab|c".to_vec())));
}

/// The version fields the predetermined lookup refuses make the frame
/// unreadable.
#[test]
fn refused_version_tag_is_syntax() {
    let msg = "8=FIX.4.4|9=8|35=D|1156=X|10=000|";
    let codec = Codec::with_transmuter(&TransVerticalSlash);
    assert_eq!(codec.decode(msg.as_bytes()), Err(Error::Syntax));
}

/// A message holding a `Data` value round-trips: the encoder writes the
/// length field and the raw bytes, the decoder reads them back verbatim.
#[test]
fn data_field_round_trip() {
    let mut h = EncoderHandle::start(b"FIX.4.4", b"D", 1);
    h.set_u64(95, 5);
    h.set_value(96, &FieldValue::Data(b"a\x01=b|".to_vec()));
    let bytes = h.done();
    let m = Codec::new().decode(&bytes).unwrap();
    assert_eq!(m.get_field(95), Some(&FieldValue::Int(5)));
    assert_eq!(m.get_field(96), Some(&FieldValue::Data(b"a\x01=b|".to_vec())));
}

/// A garbled frame is dropped and the loop stays alive; the next frame
/// parses as on a fresh decoder.
#[test]
fn garbled_frame_is_dropped_and_loop_survives() {
    let mut event_loop = LlEventLoop::new(Codec::with_transmuter(&TransVerticalSlash), 3000, 0);
    let garbled = "X=1|9=2|35=D|10=000|";
    match event_loop.on_bytes(garbled.as_bytes(), 0) {
        Some(LlEvent::BadMessage(Error::InvalidStandardHeader)) => {}
        _ => panic!("Expected a bad-message event"),
    }
    assert!(event_loop.is_alive);
    let good = "8=FIX.4.2|9=42|35=0|49=A|56=B|34=12|52=20100304-07:59:30|10=185|";
    match event_loop.on_bytes(good.as_bytes(), 5) {
        Some(LlEvent::Message(m)) => {
            assert_eq!(m.get_raw(35).unwrap(), b"0".to_vec());
        }
        _ => panic!("Expected message"),
    }
    assert!(event_loop.is_alive);
}

/// A frame truncated mid-field is unrecoverable: the loop dies.
#[test]
fn truncated_frame_kills_loop() {
    let mut event_loop = LlEventLoop::new(Codec::with_transmuter(&TransVerticalSlash), 3000, 0);
    // The header states a two-byte body, so the frame is "complete" at
    // seventeen bytes, but it ends inside the CheckSum field.
    let truncated = "8=F|9=2|35=D|10=0";
    match event_loop.on_bytes(truncated.as_bytes(), 0) {
        Some(LlEvent::BadMessage(Error::Eof)) => {}
        other => panic!("Expected truncation, got {:?}", other.is_some()),
    }
    assert!(!event_loop.is_alive);
}

/// Two frames read in one chunk parse back to back: clearing keeps the
/// bytes of the second.
#[test]
fn pipelined_frames_parse_back_to_back() {
    let mut frame1 = EncoderHandle::start(b"FIX.4.4", b"0", 1);
    frame1.set_u64(34, 1);
    let frame1 = frame1.done();
    let mut frame2 = EncoderHandle::start(b"FIX.4.4", b"0", 1);
    frame2.set_u64(34, 2);
    let frame2 = frame2.done();
    let mut both = frame1.clone();
    both.extend_from_slice(&frame2);

    let mut event_loop = LlEventLoop::new(Codec::new(), 3000, 0);
    match event_loop.on_bytes(&both, 0) {
        Some(LlEvent::Message(m)) => assert_eq!(m.get_field(34), Some(&FieldValue::Int(1))),
        _ => panic!("Expected first message"),
    }
    match event_loop.on_bytes(&[], 1) {
        Some(LlEvent::Message(m)) => assert_eq!(m.get_field(34), Some(&FieldValue::Int(2))),
        _ => panic!("Expected second message"),
    }
}

/// With checksum verification enabled, the streaming decoder refuses a
/// frame whose trailer mis-states the sum.
#[test]
fn try_parse_verifies_checksum_when_enabled() {
    let mut h = EncoderHandle::start(b"FIX.4.4", b"0", 1);
    h.set_u64(34, 1);
    let good = h.done();
    let mut bad = good.clone();
    bad[3] = bad[3].wrapping_add(1);

    let mut strict = Codec::new();
    strict.set_checksum_verification(true);
    strict.add_bytes_read(&good);
    assert_eq!(strict.try_parse(), Ok(Some(())));
    strict.clear();
    strict.add_bytes_read(&bad);
    assert!(matches!(strict.try_parse(), Err(Error::InvalidChecksum(_))));

    // With verification off the same frame parses, as the whole-frame
    // decoder also accepts it.
    let mut lax = Codec::new();
    lax.add_bytes_read(&bad);
    assert_eq!(lax.try_parse(), Ok(Some(())));
}

/// A string value that is not valid UTF-8 is a syntax error.
#[test]
fn invalid_utf8_string_is_syntax() {
    let codec = Codec::with_transmuter(&TransVerticalSlash);
    let msg = b"8=FIX.4.2|9=5|35=D|58=\xff|10=000|";
    assert_eq!(codec.decode(msg), Err(Error::Syntax));
    let ok = "8=FIX.4.2|9=5|35=D|58=ok|10=000|";
    assert!(codec.decode(ok.as_bytes()).is_ok());
}
