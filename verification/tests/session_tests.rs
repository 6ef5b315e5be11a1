//! Session state machine behaviour: handshake, dispatch, and the
//! administrative replies.

use fixcore::codec::{Codec, EncoderHandle};
use fixcore::message::Message;
use fixcore::session::{Backend, FixConnection, Response};
use fixcore::timestamp::{format_timestamp, Timestamp};
use fixcore::validation::{config_ok, Config, Environment, Verifier, Verify};

struct TestBackend {
    inbound: Vec<Vec<u8>>,
    outbound: Vec<Vec<u8>>,
    resends: Vec<(u64, u64)>,
    handshakes: usize,
}

impl TestBackend {
    fn new() -> TestBackend {
        TestBackend { inbound: Vec::new(), outbound: Vec::new(), resends: Vec::new(), handshakes: 0 }
    }
}

impl Backend for TestBackend {
    fn on_inbound_app_message(&mut self, message: &Message) -> Result<(), ()> {
        self.on_inbound_message(message, true)
    }

    fn on_inbound_message(&mut self, message: &Message, _is_app: bool) -> Result<(), ()> {
        self.inbound.push(format!("{:?}", message).into_bytes());
        Ok(())
    }

    fn on_outbound_message(&mut self, message: &[u8]) -> Result<(), ()> {
        self.outbound.push(message.to_vec());
        Ok(())
    }

    fn on_resend_request(&mut self, begin_seq_no: u64, end_seq_no: u64) -> Result<(), ()> {
        self.resends.push((begin_seq_no, end_seq_no));
        Ok(())
    }

    fn on_successful_handshake(&mut self) -> Result<(), ()> {
        self.handshakes += 1;
        Ok(())
    }
}

fn conn() -> FixConnection<TestBackend> {
    let mut config = Config::default();
    config.sender_comp_id = b"SENDER".to_vec();
    config.target_comp_id = b"TARGET".to_vec();
    config.environment = Environment::Production { allow_test: false };
    let verifier = Verifier::new(config.clone());
    let encoder = Codec::new();
    FixConnection::new(TestBackend::new(), config, verifier, encoder, None)
}

fn now() -> Timestamp {
    Timestamp { year: 2020, month: 1, day: 2, hour: 3, minute: 4, second: 5, millis: 0 }
}

fn decode(bytes: &[u8]) -> Message {
    Codec::new().decode(bytes).unwrap()
}

fn outbound_bytes(response: Response) -> Vec<u8> {
    match response {
        Response::OutboundBytes(msg_bytes) => msg_bytes,
        _ => {
            panic!("Expected outbound bytes");
        }
    }
}

#[test]
fn test_on_heartbeat_is_due() {
    let conn = &mut conn();
    let response = conn.on_heartbeat_is_due(&now());
    let msg = decode(&response);
    assert_eq!(msg.get_raw(35).unwrap(), b"0".to_vec());
    assert_eq!(msg.get_raw(49).unwrap(), b"SENDER".to_vec());
    assert_eq!(msg.get_raw(56).unwrap(), b"TARGET".to_vec());
    assert_eq!(msg.get_u64_field(34).unwrap(), 1);
}

#[test]
fn test_logout_on_test_message_indicator() {
    let conn = &mut conn();
    let mut input_msg = EncoderHandle::start(b"FIX.4.4", b"BE", 1);
    input_msg.set(49, b"SENDER");
    input_msg.set(56, b"TARGET");
    input_msg.set_u64(34, 1);
    input_msg.set(464, b"Y");
    let input_bytes = input_msg.done();

    let response = conn.on_inbound_message(&decode(&input_bytes), &now());
    let response_msg = decode(&outbound_bytes(response));
    assert_eq!(response_msg.get_raw(35).unwrap(), b"5".to_vec());
    assert_eq!(response_msg.get_raw(49).unwrap(), b"SENDER".to_vec());
    assert_eq!(response_msg.get_raw(56).unwrap(), b"TARGET".to_vec());
    assert_eq!(response_msg.get_u64_field(34).unwrap(), 1);
    assert_eq!(
        response_msg.get_raw(58).unwrap(),
        b"TestMessageIndicator(464) was set to 'Y' but the environment \
                   is a production environment"
            .to_vec()
    );
    assert_eq!(response_msg.get_raw(112), None);
}

#[test]
fn test_logout_on_missing_seq_number() {
    let conn = &mut conn();
    let mut input_msg = EncoderHandle::start(b"FIX.4.4", b"BE", 1);
    input_msg.set(49, b"SENDER");
    input_msg.set(56, b"TARGET");
    let input_bytes = input_msg.done();

    let response = conn.on_inbound_message(&decode(&input_bytes), &now());
    let response_msg = decode(&outbound_bytes(response));
    assert_eq!(response_msg.get_raw(35).unwrap(), b"5".to_vec());
    assert_eq!(response_msg.get_raw(49).unwrap(), b"SENDER".to_vec());
    assert_eq!(response_msg.get_raw(56).unwrap(), b"TARGET".to_vec());
    assert_eq!(response_msg.get_u64_field(34).unwrap(), 1);
    assert_eq!(
        response_msg.get_raw(58).unwrap(),
        b"Missing mandatory field MsgSeqNum(34)".to_vec()
    );
}

#[test]
fn test_logout_on_low_seq_number() {
    let conn = &mut conn();
    let mut input_msg = EncoderHandle::start(b"FIX.4.4", b"BE", 1);
    input_msg.set(49, b"SENDER");
    input_msg.set(56, b"TARGET");
    input_msg.set_u64(34, 0);
    let input_bytes = input_msg.done();

    let response = conn.on_inbound_message(&decode(&input_bytes), &now());
    let response_msg = decode(&outbound_bytes(response));
    assert_eq!(response_msg.get_raw(35).unwrap(), b"5".to_vec());
    assert_eq!(response_msg.get_raw(49).unwrap(), b"SENDER".to_vec());
    assert_eq!(response_msg.get_raw(56).unwrap(), b"TARGET".to_vec());
    assert_eq!(response_msg.get_u64_field(34).unwrap(), 1);
    assert_eq!(
        response_msg.get_raw(58).unwrap(),
        b"Invalid MsgSeqNum <34>, expected value 1".to_vec()
    );
}

#[test]
fn test_resend_request_high_seq_number() {
    let conn = &mut conn();
    let mut input_msg = EncoderHandle::start(b"FIX.4.4", b"BE", 1);
    input_msg.set(49, b"SENDER");
    input_msg.set(56, b"TARGET");
    input_msg.set_u64(34, 5);
    let input_bytes = input_msg.done();

    let response = conn.on_inbound_message(&decode(&input_bytes), &now());
    let response_msg = decode(&outbound_bytes(response));
    assert_eq!(response_msg.get_raw(35).unwrap(), b"2".to_vec());
    assert_eq!(response_msg.get_raw(49).unwrap(), b"SENDER".to_vec());
    assert_eq!(response_msg.get_raw(56).unwrap(), b"TARGET".to_vec());
    assert_eq!(response_msg.get_u64_field(7).unwrap(), 1);
    assert_eq!(response_msg.get_u64_field(16).unwrap(), 5);
}

#[test]
fn test_inaccurate_sending_time() {
    let conn = &mut conn();
    let mut input_msg = EncoderHandle::start(b"FIX.4.4", b"BE", 1);
    input_msg.set(49, b"SENDER");
    input_msg.set(56, b"TARGET");
    input_msg.set_u64(34, 1);
    let input_bytes = input_msg.done();

    let response = conn.on_inbound_message(&decode(&input_bytes), &now());
    let response_msg = decode(&outbound_bytes(response));
    assert_eq!(response_msg.get_raw(35).unwrap(), b"3".to_vec());
    assert_eq!(response_msg.get_raw(49).unwrap(), b"SENDER".to_vec());
    assert_eq!(response_msg.get_raw(56).unwrap(), b"TARGET".to_vec());
    assert_eq!(response_msg.get_u64_field(34).unwrap(), 1);
    assert_eq!(response_msg.get_u64_field(371).unwrap(), 52);
    assert_eq!(response_msg.get_raw(372).unwrap(), b"BE".to_vec());
    assert_eq!(response_msg.get_u64_field(373).unwrap(), 10);
    assert_eq!(response_msg.get_raw(58).unwrap(), b"Bad SendingTime".to_vec());
    assert_eq!(response_msg.get_raw(112), None);
}

/// A `SendingTime(52)` ten minutes behind the clock draws the same Reject.
#[test]
fn stale_sending_time_draws_reject() {
    let conn = &mut conn();
    let stale = Timestamp { year: 2020, month: 1, day: 2, hour: 2, minute: 54, second: 5, millis: 0 };
    let mut input_msg = EncoderHandle::start(b"FIX.4.4", b"BE", 1);
    input_msg.set(49, b"SENDER");
    input_msg.set(56, b"TARGET");
    input_msg.set_u64(34, 1);
    input_msg.set(52, &format_timestamp(&stale));
    let input_bytes = input_msg.done();

    let response = conn.on_inbound_message(&decode(&input_bytes), &now());
    let response_msg = decode(&outbound_bytes(response));
    assert_eq!(response_msg.get_raw(35).unwrap(), b"3".to_vec());
    assert_eq!(response_msg.get_u64_field(45).unwrap(), 1);
    assert_eq!(response_msg.get_u64_field(371).unwrap(), 52);
    assert_eq!(response_msg.get_raw(372).unwrap(), b"BE".to_vec());
    assert_eq!(response_msg.get_u64_field(373).unwrap(), 10);
    assert_eq!(response_msg.get_raw(58).unwrap(), b"Bad SendingTime".to_vec());
}

/// The Logon handshake: the core's Logon leads with its identifiers,
/// `EncryptMethod(98)` zero and the heartbeat, numbered 1; after the peer's
/// Logon both counters stand at 2 and the backend heard the handshake.
#[test]
fn logon_handshake() {
    let conn = &mut conn();
    let logon_bytes = conn.make_logon(&now());
    let logon = decode(&logon_bytes);
    assert_eq!(logon.get_raw(35).unwrap(), b"A".to_vec());
    assert_eq!(logon.get_raw(49).unwrap(), b"SENDER".to_vec());
    assert_eq!(logon.get_raw(56).unwrap(), b"TARGET".to_vec());
    assert_eq!(logon.get_u64_field(34).unwrap(), 1);
    assert_eq!(logon.get_u64_field(98).unwrap(), 0);
    assert_eq!(logon.get_u64_field(108).unwrap(), 30);

    let mut peer = EncoderHandle::start(b"FIX.4.4", b"A", 1);
    peer.set(49, b"TARGET");
    peer.set(56, b"SENDER");
    peer.set_u64(34, 1);
    peer.set_u64(98, 0);
    peer.set_u64(108, 30);
    peer.set(52, &format_timestamp(&now()));
    let peer_bytes = peer.done();
    conn.complete_handshake(&decode(&peer_bytes));

    assert_eq!(conn.seq_numbers.next_inbound, 2);
    assert_eq!(conn.seq_numbers.next_outbound, 2);
    assert_eq!(conn.backend.handshakes, 1);
}

/// Consecutive outbound messages carry `MsgSeqNum(34)` values one apart.
#[test]
fn outbound_seqnums_consecutive() {
    let conn = &mut conn();
    let first = decode(&conn.on_heartbeat_is_due(&now()));
    let second = decode(&conn.on_heartbeat_is_due(&now()));
    let n1 = first.get_u64_field(34).unwrap();
    let n2 = second.get_u64_field(34).unwrap();
    assert_eq!(n1, 1);
    assert_eq!(n2, n1 + 1);
}

/// Inbound messages are accepted only in sequence: after one accepted at
/// `n`, the next is accepted exactly at `n + 1`.
#[test]
fn inbound_seqnums_consecutive() {
    let conn = &mut conn();
    for n in 1u64..=2 {
        let mut input_msg = EncoderHandle::start(b"FIX.4.4", b"BE", 1);
        input_msg.set(49, b"SENDER");
        input_msg.set(56, b"TARGET");
        input_msg.set_u64(34, n);
        input_msg.set(52, &format_timestamp(&now()));
        let input_bytes = input_msg.done();
        let response = conn.on_inbound_message(&decode(&input_bytes), &now());
        assert!(matches!(response, Response::Application(_)));
        assert_eq!(conn.seq_numbers.next_inbound, n + 1);
    }
}

/// A peer `TestRequest <1>` draws a Heartbeat (`35=0`) echoing
/// `TestReqID(112)`.
#[test]
fn test_request_draws_heartbeat_echo() {
    let conn = &mut conn();
    let mut input_msg = EncoderHandle::start(b"FIX.4.4", b"1", 1);
    input_msg.set(49, b"SENDER");
    input_msg.set(56, b"TARGET");
    input_msg.set_u64(34, 1);
    input_msg.set(52, &format_timestamp(&now()));
    input_msg.set_u64(112, 100);
    let input_bytes = input_msg.done();

    let response = conn.on_inbound_message(&decode(&input_bytes), &now());
    let response_msg = decode(&outbound_bytes(response));
    assert_eq!(response_msg.get_raw(35).unwrap(), b"0".to_vec());
    assert_eq!(response_msg.get_u64_field(34).unwrap(), 1);
    assert_eq!(response_msg.get_u64_field(112).unwrap(), 100);
}

/// A peer Logout draws a Logout; a peer Heartbeat resets the liveness
/// clock; a peer ResendRequest is delegated to the backend.
#[test]
fn admin_dispatch_cases() {
    let conn = &mut conn();
    let mut hb = EncoderHandle::start(b"FIX.4.4", b"0", 1);
    hb.set(49, b"SENDER");
    hb.set(56, b"TARGET");
    hb.set_u64(34, 1);
    hb.set(52, &format_timestamp(&now()));
    let hb_bytes = hb.done();
    let response = conn.on_inbound_message(&decode(&hb_bytes), &now());
    assert!(matches!(response, Response::ResetHeartbeat));

    let mut rr = EncoderHandle::start(b"FIX.4.4", b"2", 1);
    rr.set(49, b"SENDER");
    rr.set(56, b"TARGET");
    rr.set_u64(34, 2);
    rr.set(52, &format_timestamp(&now()));
    rr.set_u64(7, 3);
    rr.set_u64(16, 9);
    let rr_bytes = rr.done();
    let response = conn.on_inbound_message(&decode(&rr_bytes), &now());
    assert!(matches!(response, Response::NoReply));
    assert_eq!(conn.backend.resends, vec![(3, 9)]);

    let mut lo = EncoderHandle::start(b"FIX.4.4", b"5", 1);
    lo.set(49, b"SENDER");
    lo.set(56, b"TARGET");
    lo.set_u64(34, 3);
    lo.set(52, &format_timestamp(&now()));
    let lo_bytes = lo.done();
    let response = conn.on_inbound_message(&decode(&lo_bytes), &now());
    let response_msg = decode(&outbound_bytes(response));
    assert_eq!(response_msg.get_raw(35).unwrap(), b"5".to_vec());
    assert_eq!(response_msg.get_raw(58).unwrap(), b"Logout".to_vec());
}

/// Pre-serialized body bytes are wrapped with the session header fields
/// and a fresh outbound number.
#[test]
fn send_request_with_body() {
    let conn = &mut conn();
    let mut body: Vec<u8> = Vec::new();
    body.extend_from_slice(b"35=1\x01112=100\x01");
    let bytes = conn.make_fix_message_with_body(&body, &now());
    let msg = decode(&bytes);
    assert_eq!(msg.get_raw(35).unwrap(), b"1".to_vec());
    assert_eq!(msg.get_raw(49).unwrap(), b"SENDER".to_vec());
    assert_eq!(msg.get_raw(56).unwrap(), b"TARGET".to_vec());
    assert_eq!(msg.get_u64_field(34).unwrap(), 1);
    assert_eq!(msg.get_u64_field(112).unwrap(), 100);
    assert_eq!(conn.seq_numbers.next_outbound, 2);
}

/// `BeginString(8)` must equal the configured protocol version.
#[test]
fn begin_string_verification() {
    let verifier = Verifier::new(Config::default());
    let mut ok_msg = EncoderHandle::start(b"FIX.4.4", b"0", 1);
    ok_msg.set_u64(34, 1);
    let ok_msg = decode(&ok_msg.done());
    assert_eq!(verifier.verify_begin_string(&ok_msg), Ok(()));
    let mut bad_msg = EncoderHandle::start(b"FIX.4.2", b"0", 1);
    bad_msg.set_u64(34, 1);
    let bad_msg = decode(&bad_msg.done());
    assert_eq!(verifier.verify_begin_string(&bad_msg), Err(()));
}

/// The executable configuration check mirrors what the session requires
/// of its identifiers.
#[test]
fn config_ok_checks_identifiers() {
    let mut config = Config::default();
    config.sender_comp_id = b"SENDER".to_vec();
    config.target_comp_id = b"TARGET".to_vec();
    assert!(config_ok(&config));
    config.sender_comp_id = b"BAD|ID".to_vec();
    assert!(!config_ok(&config));
}
