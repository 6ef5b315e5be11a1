//! The session state machine: dispatches every inbound message, builds the
//! administrative replies (Logon, Logout, Heartbeat, ResendRequest,
//! Reject), and drives the sequence numbers.  Each reply's bytes are
//! stated exactly, down to the frame the encoder produces.

use vstd::prelude::*;
use vstd::string::StringSliceAdditionalSpecFns;
use crate::codec::{Codec, EncoderHandle, spec_encoded_bytes, valid_sep};
use crate::digits::{dec_nat, digits_val};
use crate::message::{FieldVal, Message, spec_field_bytes, spec_get_raw, spec_get_u64};
use crate::seqnum::{SeqNumberError, SeqNumbers};
use crate::timestamp::{spec_format_timestamp, Timestamp};
use crate::validation::{
    Config,
    spec_verify_sending_time,
    spec_verify_tmi,
    Verifier,
    Verify,
    wf_config,
};

verus! {

/// A session-fatal or boundary error of the connection.
#[derive(Clone, Copy, Debug, PartialEq, Eq, Structural)]
pub enum FixConnectionError {
    /// The transport failed.
    IoError,
    /// The backend refused a delivery.
    BackendProcessingError,
    /// The peer broke the session rules fatally.
    ProtocolError,
}

/// What the session asks its caller to do after one inbound message.
#[derive(Debug)]
pub enum Response {
    NoReply,
    ResetHeartbeat,
    TerminateTransport,
    Application(Message),
    Session(Vec<u8>),
    Inbound(Message),
    Outbound(Message),
    OutboundBytes(Vec<u8>),
    Resend { range: () },
    /// The FIX session processor should log each encountered garbled
    /// message to assist in problem detection and diagnosis.
    LogGarbled,
}

/// The application above the session: delivery and observability hooks.
/// Implementations are outside the library; nothing is assumed of them.
pub trait Backend: Sized {
    /// Application-level delivery of an accepted non-administrative message.
    fn on_inbound_app_message(&mut self, message: &Message) -> Result<(), ()>;

    /// Observability hook for every accepted inbound frame.
    fn on_inbound_message(&mut self, message: &Message, is_app: bool) -> Result<(), ()>;

    /// Observability hook for every emitted frame.
    fn on_outbound_message(&mut self, message: &[u8]) -> Result<(), ()>;

    /// The application must replay the inclusive range of outbound
    /// sequence numbers.
    fn on_resend_request(&mut self, begin_seq_no: u64, end_seq_no: u64) -> Result<(), ()>;

    /// One-shot signal after the Logon exchange completed.
    fn on_successful_handshake(&mut self) -> Result<(), ()>;
}

/// The text a Logout carries when test traffic reaches a production session.
pub open spec fn text_production_env() -> Seq<u8> {
    "TestMessageIndicator(464) was set to 'Y' but the environment is a production environment".spec_bytes()
}

/// The text a Logout carries when `MsgSeqNum(34)` is missing.
pub open spec fn text_missing_msg_seq_num() -> Seq<u8> {
    "Missing mandatory field MsgSeqNum(34)".spec_bytes()
}

/// The text a Logout carries when the inbound number is below the expected
/// `n`.
pub open spec fn text_msg_seq_num(n: u64) -> Seq<u8> {
    "Invalid MsgSeqNum <34>, expected value ".spec_bytes() + dec_nat(n as nat)
}

/// The text of an orderly Logout reply.
pub open spec fn text_logout() -> Seq<u8> {
    "Logout".spec_bytes()
}

/// The text of a `SendingTime` accuracy Reject.
pub open spec fn text_bad_sending_time() -> Seq<u8> {
    "Bad SendingTime".spec_bytes()
}

fn production_env_text() -> (r: Vec<u8>)
    ensures
        r@ == text_production_env(),
        r@.len() <= 400,
{
    let t = "TestMessageIndicator(464) was set to 'Y' but the environment is a production environment";
    proof {
        reveal_strlit(
            "TestMessageIndicator(464) was set to 'Y' but the environment is a production environment",
        );
        lemma_encode_utf8_len(t@);
    }
    t.as_bytes_vec()
}

fn missing_msg_seq_num_text() -> (r: Vec<u8>)
    ensures
        r@ == text_missing_msg_seq_num(),
        r@.len() <= 400,
{
    let t = "Missing mandatory field MsgSeqNum(34)";
    proof {
        reveal_strlit("Missing mandatory field MsgSeqNum(34)");
        lemma_encode_utf8_len(t@);
    }
    t.as_bytes_vec()
}

fn msg_seq_num_text(n: u64) -> (r: Vec<u8>)
    ensures
        r@ == text_msg_seq_num(n),
        r@.len() <= 400,
{
    let t = "Invalid MsgSeqNum <34>, expected value ";
    proof {
        reveal_strlit("Invalid MsgSeqNum <34>, expected value ");
        lemma_encode_utf8_len(t@);
        lemma_dec_u64_len(n);
    }
    let mut out = t.as_bytes_vec();
    crate::digits::push_dec_u64(n, &mut out);
    out
}

fn logout_text() -> (r: Vec<u8>)
    ensures
        r@ == text_logout(),
        r@.len() <= 400,
{
    let t = "Logout";
    proof {
        reveal_strlit("Logout");
        lemma_encode_utf8_len(t@);
    }
    t.as_bytes_vec()
}

fn bad_sending_time_text() -> (r: Vec<u8>)
    ensures
        r@ == text_bad_sending_time(),
        r@.len() <= 400,
{
    let t = "Bad SendingTime";
    proof {
        reveal_strlit("Bad SendingTime");
        lemma_encode_utf8_len(t@);
    }
    t.as_bytes_vec()
}

/// One `tag=value<SEP>` pair with a byte-string value.
pub open spec fn fld(tag: u32, value: Seq<u8>, sep: u8) -> Seq<u8> {
    spec_field_bytes(tag, FieldVal::Str(value), sep)
}

/// The cap on bytes echoed from an inbound message into a reply (the
/// `RefMsgType(372)` and `TestReqID(112)` echoes): a longer value is
/// dropped, which keeps every reply within the six reserved
/// `BodyLength(9)` digits.
pub open spec fn capped_raw(f: Seq<(u32, FieldVal)>, tag: u32) -> Option<Seq<u8>> {
    match spec_get_raw(f, tag) {
        Some(b) => if b.len() <= 65536 {
            Some(b)
        } else {
            None
        },
        None => None,
    }
}

/// The wire length of a byte-string field: at most twelve bytes of
/// framing around the value, since a `u32` tag renders in at most ten
/// digits.
proof fn lemma_fld_len(tag: u32, value: Seq<u8>, sep: u8)
    ensures
        fld(tag, value, sep).len() <= 12 + value.len(),
{
    reveal_with_fuel(crate::codec::pow10, 11);
    assert(crate::codec::pow10(10) == 10000000000);
    crate::codec::lemma_dec_nat_len(tag as nat, 10);
}

/// A `u64` renders in at most twenty digits.
proof fn lemma_dec_u64_len(n: u64)
    ensures
        dec_nat(n as nat).len() <= 20,
{
    reveal_with_fuel(crate::codec::pow10, 21);
    assert(crate::codec::pow10(20) == 100000000000000000000);
    crate::codec::lemma_dec_nat_len(n as nat, 20);
}

/// A UTF-8 rendering takes at most four bytes a character.
proof fn lemma_encode_utf8_len(chars: Seq<char>)
    ensures
        vstd::utf8::encode_utf8(chars).len() <= 4 * chars.len(),
    decreases chars.len(),
{
    if chars.len() > 0 {
        lemma_encode_utf8_len(chars.drop_first());
    }
}

/// The fields every administrative reply leads with: `MsgType(35)`,
/// `SenderCompID(49)`, `TargetCompID(56)`, `MsgSeqNum(34)`.
pub open spec fn admin_prefix(cfg: Config, mt: Seq<u8>, n: u64, sep: u8) -> Seq<u8> {
    fld(35, mt, sep) + fld(49, cfg.sender_comp_id@, sep) + fld(56, cfg.target_comp_id@, sep)
        + fld(34, dec_nat(n as nat), sep)
}

/// The body of a Logout (`35=5`) in canonical order, `Text(58)` last.
pub open spec fn logout_body(cfg: Config, n: u64, now: Timestamp, text: Seq<u8>, sep: u8)
    -> Seq<u8> {
    admin_prefix(cfg, seq![53u8], n, sep) + fld(52, spec_format_timestamp(now), sep) + fld(
        58,
        text,
        sep,
    )
}

/// The body of a Heartbeat (`35=0`), optionally echoing `TestReqID(112)`.
pub open spec fn heartbeat_body(
    cfg: Config,
    n: u64,
    now: Timestamp,
    test_req_id: Option<Seq<u8>>,
    sep: u8,
) -> Seq<u8> {
    admin_prefix(cfg, seq![48u8], n, sep) + fld(52, spec_format_timestamp(now), sep) + match
        test_req_id {
        Some(id) => fld(112, id, sep),
        None => Seq::<u8>::empty(),
    }
}

/// The body of a ResendRequest (`35=2`) for the inclusive range
/// `[start, end]`.
pub open spec fn resend_request_body(cfg: Config, n: u64, now: Timestamp, start: u64, end: u64, sep: u8)
    -> Seq<u8> {
    admin_prefix(cfg, seq![50u8], n, sep) + fld(52, spec_format_timestamp(now), sep) + fld(
        7,
        dec_nat(start as nat),
        sep,
    ) + fld(16, dec_nat(end as nat), sep)
}

/// The body of a session-level Reject (`35=3`) referencing the offending
/// message.
pub open spec fn reject_body(
    cfg: Config,
    n: u64,
    now: Timestamp,
    ref_seq_num: u64,
    ref_tag: Option<u32>,
    ref_msg_type: Option<Seq<u8>>,
    reason: u32,
    text: Seq<u8>,
    sep: u8,
) -> Seq<u8> {
    admin_prefix(cfg, seq![51u8], n, sep) + fld(52, spec_format_timestamp(now), sep) + fld(
        45,
        dec_nat(ref_seq_num as nat),
        sep,
    ) + (match ref_tag {
        Some(t) => fld(371, dec_nat(t as nat), sep),
        None => Seq::<u8>::empty(),
    }) + (match ref_msg_type {
        Some(mt) => fld(372, mt, sep),
        None => Seq::<u8>::empty(),
    }) + fld(373, dec_nat(reason as nat), sep) + fld(58, text, sep)
}

/// The body of the initial Logon (`35=A`): `EncryptMethod(98)` zero and the
/// configured heartbeat in whole seconds.
pub open spec fn logon_body(cfg: Config, n: u64, now: Timestamp, sep: u8) -> Seq<u8> {
    fld(35, seq![65u8], sep) + fld(49, cfg.sender_comp_id@, sep) + fld(
        56,
        cfg.target_comp_id@,
        sep,
    ) + fld(52, spec_format_timestamp(now), sep) + fld(34, dec_nat(n as nat), sep) + fld(
        98,
        dec_nat(0),
        sep,
    ) + fld(108, dec_nat(cfg.heartbeat_secs as nat), sep)
}

/// A whole frame around a reply body.
pub open spec fn frame(cfg: Config, body: Seq<u8>, sep: u8) -> Seq<u8> {
    spec_encoded_bytes(cfg.begin_string@, body, sep)
}

/// Two consecutive outbound messages of one session carry `MsgSeqNum(34)`
/// values that differ by exactly one: every reply body states
/// `fld(34, dec_nat(next_outbound))`, every emit bumps that counter once,
/// and the rendered numbers read back one apart.
pub proof fn lemma_consecutive_outbound_msg_seq_num(n: u64)
    requires
        n < u64::MAX,
    ensures
        digits_val(dec_nat((n + 1) as nat)) == digits_val(dec_nat(n as nat)) + 1,
{
    crate::digits::lemma_digits_val_dec_nat(n as nat);
    crate::digits::lemma_digits_val_dec_nat((n + 1) as nat);
}

/// What the session does with one inbound message, as a pure function of
/// the configuration, the message's fields, the two counters and the
/// clock: the reply, then the next inbound and outbound counters.
pub enum ReplySpec {
    RNone,
    RReset,
    RBytes(Seq<u8>),
    RApp(Seq<(u32, FieldVal)>),
}

pub open spec fn spec_screen(
    cfg: Config,
    f: Seq<(u32, FieldVal)>,
    n_in: u64,
    n_out: u64,
    now: Timestamp,
    sep: u8,
) -> Option<(ReplySpec, u64, u64)> {
    if !spec_verify_tmi(cfg.verify_test_indicator, cfg.environment, f) {
        Some(
            (
                ReplySpec::RBytes(
                    frame(cfg, logout_body(cfg, n_out, now, text_production_env(), sep), sep),
                ),
                n_in,
                (n_out + 1) as u64,
            ),
        )
    } else {
        match spec_get_u64(f, 34) {
            None => Some(
                (
                    ReplySpec::RBytes(
                        frame(
                            cfg,
                            logout_body(cfg, n_out, now, text_missing_msg_seq_num(), sep),
                            sep,
                        ),
                    ),
                    n_in,
                    (n_out + 1) as u64,
                ),
            ),
            Some(n) => if n < n_in {
                Some(
                    (
                        ReplySpec::RBytes(
                            frame(
                                cfg,
                                logout_body(cfg, n_out, now, text_msg_seq_num(n_in), sep),
                                sep,
                            ),
                        ),
                        n_in,
                        (n_out + 1) as u64,
                    ),
                )
            } else if n > n_in {
                Some(
                    (
                        ReplySpec::RBytes(
                            frame(cfg, resend_request_body(cfg, n_out, now, n_in, n, sep), sep),
                        ),
                        n_in,
                        (n_out + 1) as u64,
                    ),
                )
            } else if !spec_verify_sending_time(f, now) {
                Some(
                    (
                        ReplySpec::RBytes(
                            frame(
                                cfg,
                                reject_body(
                                    cfg,
                                    n_out,
                                    now,
                                    n,
                                    Some(52),
                                    capped_raw(f, 35),
                                    10,
                                    text_bad_sending_time(),
                                    sep,
                                ),
                                sep,
                            ),
                        ),
                        (n_in + 1) as u64,
                        (n_out + 1) as u64,
                    ),
                )
            } else {
                None
            },
        }
    }
}

/// The per-type handling of an accepted, verified message: Logon and
/// ResendRequest draw no direct reply, TestRequest draws a Heartbeat
/// echoing `TestReqID(112)`, Logout draws a Logout, Heartbeat resets the
/// liveness clock, and everything else goes upstream.
pub open spec fn spec_dispatch(
    cfg: Config,
    f: Seq<(u32, FieldVal)>,
    n_out: u64,
    now: Timestamp,
    sep: u8,
) -> (ReplySpec, u64) {
    match spec_get_raw(f, 35) {
        None => (ReplySpec::RApp(f), n_out),
        Some(mt) => if mt == seq![65u8] || mt == seq![50u8] {
            (ReplySpec::RNone, n_out)
        } else if mt == seq![48u8] {
            (ReplySpec::RReset, n_out)
        } else if mt == seq![49u8] {
            (
                ReplySpec::RBytes(
                    frame(cfg, heartbeat_body(cfg, n_out, now, capped_raw(f, 112), sep), sep),
                ),
                (n_out + 1) as u64,
            )
        } else if mt == seq![53u8] {
            (
                ReplySpec::RBytes(frame(cfg, logout_body(cfg, n_out, now, text_logout(), sep), sep)),
                (n_out + 1) as u64,
            )
        } else {
            (ReplySpec::RApp(f), n_out)
        },
    }
}

/// The whole inbound dispatch: the screening checks first, the per-type
/// handling of accepted messages after them.
pub open spec fn spec_response(
    cfg: Config,
    f: Seq<(u32, FieldVal)>,
    n_in: u64,
    n_out: u64,
    now: Timestamp,
    sep: u8,
) -> (ReplySpec, u64, u64) {
    match spec_screen(cfg, f, n_in, n_out, now, sep) {
        Some(t) => t,
        None => {
            let (rep, no) = spec_dispatch(cfg, f, n_out, now, sep);
            (rep, (n_in + 1) as u64, no)
        },
    }
}

/// A message passes the screening checks only at exactly the expected
/// inbound number: what the screen lets through to the dispatcher was
/// accepted at `n_in`, so consecutive accepted messages carry consecutive
/// numbers.
pub proof fn lemma_accepted_in_sequence(
    cfg: Config,
    f: Seq<(u32, FieldVal)>,
    n_in: u64,
    n_out: u64,
    now: Timestamp,
    sep: u8,
)
    ensures
        spec_screen(cfg, f, n_in, n_out, now, sep) is None ==> spec_get_u64(f, 34) == Some(n_in),
{
}

/// A FIX connection message processor: configuration, verifier, sequence
/// numbers, separator, and a tag identifying this session instance.
pub struct FixConnection<B> {
    pub uuid: u128,
    pub config: Config,
    pub backend: B,
    pub verifier: Verifier,
    pub seq_numbers: SeqNumbers,
    pub sep: u8,
}

/// Relies on uuid's `Uuid::new_v4`, read out with `as_u128`: a random
/// 128-bit session tag; nothing is promised of its value.
#[verifier::external_body]
fn new_session_id() -> u128 {
    uuid::Uuid::new_v4().as_u128()
}

impl<B: Backend> FixConnection<B> {
    /// A session whose identifiers can be framed and whose verifier
    /// checks against the same configuration.
    pub open spec fn wf(&self) -> bool {
        &&& wf_config(self.config)
        &&& valid_sep(self.sep)
        &&& self.verifier.config.verify_test_indicator == self.config.verify_test_indicator
        &&& self.verifier.config.environment == self.config.environment
    }

    /// Create a new FIX connection.  The encoder's separator becomes the
    /// session's; the counters start at 1 unless handed over.  The
    /// connection is well formed whenever the configuration passes
    /// `config_ok`, the separator is one of the accepted bytes, and the
    /// verifier was built over the same configuration.
    pub fn new(
        backend: B,
        config: Config,
        verifier: Verifier,
        encoder: Codec,
        seq_numbers: Option<SeqNumbers>,
    ) -> (r: FixConnection<B>)
        ensures
            r.config == config,
            r.sep == encoder.sep,
            r.verifier == verifier,
            r.seq_numbers == match seq_numbers {
                Some(s) => s,
                None => SeqNumbers { next_inbound: 1, next_outbound: 1 },
            },
            (wf_config(config) && valid_sep(encoder.sep)
                && verifier.config.verify_test_indicator == config.verify_test_indicator
                && verifier.config.environment == config.environment) ==> r.wf(),
    {
        let seq = match seq_numbers {
            Some(s) => s,
            None => SeqNumbers::new(1, 1),
        };
        FixConnection {
            uuid: new_session_id(),
            config,
            backend,
            verifier,
            seq_numbers: seq,
            sep: encoder.sep,
        }
    }

    /// The verifier in use.
    pub fn message_verifier(&self) -> (r: &Verifier)
        ensures
            r == &self.verifier,
    {
        &self.verifier
    }

    /// The configured environment.
    pub fn environment(&self) -> (r: crate::validation::Environment)
        ensures
            r == self.config.environment,
    {
        self.config.environment
    }

    /// The configured sender identifier.
    pub fn sender_comp_id(&self) -> (r: &Vec<u8>)
        ensures
            r == &self.config.sender_comp_id,
    {
        &self.config.sender_comp_id
    }

    /// The configured target identifier.
    pub fn target_comp_id(&self) -> (r: &Vec<u8>)
        ensures
            r == &self.config.target_comp_id,
    {
        &self.config.target_comp_id
    }

    /// The configured heartbeat interval in whole seconds.
    pub fn heartbeat(&self) -> (r: u64)
        ensures
            r == self.config.heartbeat_secs,
    {
        self.config.heartbeat_secs
    }

    /// Appends `SenderCompID(49)` and `TargetCompID(56)`.
    fn set_sender_and_target(&self, h: &mut EncoderHandle)
        requires
            old(h).wf(),
        ensures
            final(h).wf(),
            final(h).sep == old(h).sep,
            final(h).begin == old(h).begin,
            final(h).body_start == old(h).body_start,
            final(h).body@ == old(h).body@ + fld(49, self.config.sender_comp_id@, old(h).sep)
                + fld(56, self.config.target_comp_id@, old(h).sep),
    {
        h.set(49, self.config.sender_comp_id.as_slice());
        h.set(56, self.config.target_comp_id.as_slice());
    }

    /// Appends `SendingTime(52)` for the clock reading `now`.
    fn set_sending_time(h: &mut EncoderHandle, now: &Timestamp)
        requires
            old(h).wf(),
        ensures
            final(h).wf(),
            final(h).sep == old(h).sep,
            final(h).begin == old(h).begin,
            final(h).body_start == old(h).body_start,
            final(h).body@ == old(h).body@ + fld(52, spec_format_timestamp(*now), old(h).sep),
    {
        let ts = crate::timestamp::format_timestamp(now);
        h.set(52, ts.as_slice());
    }

    /// Builds a Logout (`35=5`) carrying `text`, with a fresh outbound
    /// number.
    pub fn make_logout(&mut self, text: &[u8], now: &Timestamp) -> (r: Vec<u8>)
        requires
            old(self).wf(),
            old(self).seq_numbers.next_outbound < u64::MAX,
            text@.len() <= 65536,
        ensures
            final(self).wf(),
            *final(self) == (FixConnection {
                seq_numbers: SeqNumbers {
                    next_outbound: (old(self).seq_numbers.next_outbound + 1) as u64,
                    ..old(self).seq_numbers
                },
                ..*old(self)
            }),
            r@ == frame(
                old(self).config,
                logout_body(
                    old(self).config,
                    old(self).seq_numbers.next_outbound,
                    *now,
                    text@,
                    old(self).sep,
                ),
                old(self).sep,
            ),
    {
        let msg_seq_num = self.seq_numbers.get_incr_outbound();
        let mt: [u8; 1] = [53];
        let mut h = EncoderHandle::start(self.config.begin_string.as_slice(), &mt, self.sep);
        proof {
            assert(mt@ =~= seq![53u8]);
        }
        self.set_sender_and_target(&mut h);
        h.set_u64(34, msg_seq_num);
        Self::set_sending_time(&mut h, now);
        h.set(58, text);
        proof {
            assert(h.body@ =~= logout_body(
                self.config,
                msg_seq_num,
                *now,
                text@,
                self.sep,
            ));
            lemma_fld_len(35, seq![53u8], self.sep);
            lemma_fld_len(49, self.config.sender_comp_id@, self.sep);
            lemma_fld_len(56, self.config.target_comp_id@, self.sep);
            lemma_dec_u64_len(msg_seq_num);
            lemma_fld_len(34, dec_nat(msg_seq_num as nat), self.sep);
            crate::timestamp::lemma_format_timestamp_len(*now);
            lemma_fld_len(52, spec_format_timestamp(*now), self.sep);
            lemma_fld_len(58, text@, self.sep);
            assert(h.body@.len() < 1000000);
        }
        h.done()
    }

    /// Builds a Heartbeat (`35=0`), optionally echoing `TestReqID(112)`,
    /// with a fresh outbound number.
    pub fn make_heartbeat(&mut self, test_req_id: Option<&Vec<u8>>, now: &Timestamp) -> (r: Vec<
        u8,
    >)
        requires
            old(self).wf(),
            old(self).seq_numbers.next_outbound < u64::MAX,
            match test_req_id {
                Some(id) => id@.len() <= 65536,
                None => true,
            },
        ensures
            final(self).wf(),
            *final(self) == (FixConnection {
                seq_numbers: SeqNumbers {
                    next_outbound: (old(self).seq_numbers.next_outbound + 1) as u64,
                    ..old(self).seq_numbers
                },
                ..*old(self)
            }),
            r@ == frame(
                old(self).config,
                heartbeat_body(
                    old(self).config,
                    old(self).seq_numbers.next_outbound,
                    *now,
                    match test_req_id {
                        Some(id) => Some(id@),
                        None => None,
                    },
                    old(self).sep,
                ),
                old(self).sep,
            ),
    {
        let msg_seq_num = self.seq_numbers.get_incr_outbound();
        let mt: [u8; 1] = [48];
        let mut h = EncoderHandle::start(self.config.begin_string.as_slice(), &mt, self.sep);
        proof {
            assert(mt@ =~= seq![48u8]);
        }
        self.set_sender_and_target(&mut h);
        h.set_u64(34, msg_seq_num);
        Self::set_sending_time(&mut h, now);
        match test_req_id {
            Some(id) => {
                h.set(112, id.as_slice());
            },
            None => {},
        }
        proof {
            assert(h.body@ =~= heartbeat_body(
                self.config,
                msg_seq_num,
                *now,
                match test_req_id {
                    Some(id) => Some(id@),
                    None => None,
                },
                self.sep,
            ));
            lemma_fld_len(35, seq![48u8], self.sep);
            lemma_fld_len(49, self.config.sender_comp_id@, self.sep);
            lemma_fld_len(56, self.config.target_comp_id@, self.sep);
            lemma_dec_u64_len(msg_seq_num);
            lemma_fld_len(34, dec_nat(msg_seq_num as nat), self.sep);
            crate::timestamp::lemma_format_timestamp_len(*now);
            lemma_fld_len(52, spec_format_timestamp(*now), self.sep);
            match test_req_id {
                Some(id) => {
                    lemma_fld_len(112, id@, self.sep);
                },
                None => {},
            }
            assert(h.body@.len() < 1000000);
        }
        h.done()
    }

    /// Builds the Heartbeat the heartbeat timer asks for.
    pub fn on_heartbeat_is_due(&mut self, now: &Timestamp) -> (r: Vec<u8>)
        requires
            old(self).wf(),
            old(self).seq_numbers.next_outbound < u64::MAX,
        ensures
            final(self).wf(),
            *final(self) == (FixConnection {
                seq_numbers: SeqNumbers {
                    next_outbound: (old(self).seq_numbers.next_outbound + 1) as u64,
                    ..old(self).seq_numbers
                },
                ..*old(self)
            }),
            r@ == frame(
                old(self).config,
                heartbeat_body(
                    old(self).config,
                    old(self).seq_numbers.next_outbound,
                    *now,
                    None,
                    old(self).sep,
                ),
                old(self).sep,
            ),
    {
        self.make_heartbeat(None, now)
    }

    /// Builds a ResendRequest (`35=2`) for the inclusive range
    /// `[start, end]`, with a fresh outbound number.
    pub fn make_resend_request(&mut self, start: u64, end: u64, now: &Timestamp) -> (r: Vec<u8>)
        requires
            old(self).wf(),
            old(self).seq_numbers.next_outbound < u64::MAX,
        ensures
            final(self).wf(),
            *final(self) == (FixConnection {
                seq_numbers: SeqNumbers {
                    next_outbound: (old(self).seq_numbers.next_outbound + 1) as u64,
                    ..old(self).seq_numbers
                },
                ..*old(self)
            }),
            r@ == frame(
                old(self).config,
                resend_request_body(
                    old(self).config,
                    old(self).seq_numbers.next_outbound,
                    *now,
                    start,
                    end,
                    old(self).sep,
                ),
                old(self).sep,
            ),
    {
        let msg_seq_num = self.seq_numbers.get_incr_outbound();
        let mt: [u8; 1] = [50];
        let mut h = EncoderHandle::start(self.config.begin_string.as_slice(), &mt, self.sep);
        proof {
            assert(mt@ =~= seq![50u8]);
        }
        self.set_sender_and_target(&mut h);
        h.set_u64(34, msg_seq_num);
        Self::set_sending_time(&mut h, now);
        h.set_u64(7, start);
        h.set_u64(16, end);
        proof {
            assert(h.body@ =~= resend_request_body(
                self.config,
                msg_seq_num,
                *now,
                start,
                end,
                self.sep,
            ));
            lemma_fld_len(35, seq![50u8], self.sep);
            lemma_fld_len(49, self.config.sender_comp_id@, self.sep);
            lemma_fld_len(56, self.config.target_comp_id@, self.sep);
            lemma_dec_u64_len(msg_seq_num);
            lemma_fld_len(34, dec_nat(msg_seq_num as nat), self.sep);
            crate::timestamp::lemma_format_timestamp_len(*now);
            lemma_fld_len(52, spec_format_timestamp(*now), self.sep);
            lemma_dec_u64_len(start);
            lemma_fld_len(7, dec_nat(start as nat), self.sep);
            lemma_dec_u64_len(end);
            lemma_fld_len(16, dec_nat(end as nat), self.sep);
            assert(h.body@.len() < 1000000);
        }
        h.done()
    }

    /// Builds a session-level Reject (`35=3`) referencing the offending
    /// message, with a fresh outbound number.
    pub fn on_reject(
        &mut self,
        ref_seq_num: u64,
        ref_tag: Option<u32>,
        ref_msg_type: Option<&Vec<u8>>,
        reason: u32,
        err_text: &[u8],
        now: &Timestamp,
    ) -> (r: Vec<u8>)
        requires
            old(self).wf(),
            old(self).seq_numbers.next_outbound < u64::MAX,
            err_text@.len() <= 65536,
            match ref_msg_type {
                Some(mt) => mt@.len() <= 65536,
                None => true,
            },
        ensures
            final(self).wf(),
            *final(self) == (FixConnection {
                seq_numbers: SeqNumbers {
                    next_outbound: (old(self).seq_numbers.next_outbound + 1) as u64,
                    ..old(self).seq_numbers
                },
                ..*old(self)
            }),
            r@ == frame(
                old(self).config,
                reject_body(
                    old(self).config,
                    old(self).seq_numbers.next_outbound,
                    *now,
                    ref_seq_num,
                    ref_tag,
                    match ref_msg_type {
                        Some(mt) => Some(mt@),
                        None => None,
                    },
                    reason,
                    err_text@,
                    old(self).sep,
                ),
                old(self).sep,
            ),
    {
        let msg_seq_num = self.seq_numbers.get_incr_outbound();
        let mt: [u8; 1] = [51];
        let mut h = EncoderHandle::start(self.config.begin_string.as_slice(), &mt, self.sep);
        proof {
            assert(mt@ =~= seq![51u8]);
        }
        self.set_sender_and_target(&mut h);
        h.set_u64(34, msg_seq_num);
        Self::set_sending_time(&mut h, now);
        h.set_u64(45, ref_seq_num);
        match ref_tag {
            Some(t) => {
                h.set_u64(371, t as u64);
            },
            None => {},
        }
        match ref_msg_type {
            Some(m) => {
                h.set(372, m.as_slice());
            },
            None => {},
        }
        h.set_u64(373, reason as u64);
        h.set(58, err_text);
        proof {
            assert(h.body@ =~= reject_body(
                self.config,
                msg_seq_num,
                *now,
                ref_seq_num,
                ref_tag,
                match ref_msg_type {
                    Some(m) => Some(m@),
                    None => None,
                },
                reason,
                err_text@,
                self.sep,
            ));
            lemma_fld_len(35, seq![51u8], self.sep);
            lemma_fld_len(49, self.config.sender_comp_id@, self.sep);
            lemma_fld_len(56, self.config.target_comp_id@, self.sep);
            lemma_dec_u64_len(msg_seq_num);
            lemma_fld_len(34, dec_nat(msg_seq_num as nat), self.sep);
            crate::timestamp::lemma_format_timestamp_len(*now);
            lemma_fld_len(52, spec_format_timestamp(*now), self.sep);
            lemma_dec_u64_len(ref_seq_num);
            lemma_fld_len(45, dec_nat(ref_seq_num as nat), self.sep);
            match ref_tag {
                Some(t) => {
                    lemma_dec_u64_len(t as u64);
                    lemma_fld_len(371, dec_nat(t as nat), self.sep);
                },
                None => {},
            }
            match ref_msg_type {
                Some(m) => {
                    lemma_fld_len(372, m@, self.sep);
                },
                None => {},
            }
            lemma_dec_u64_len(reason as u64);
            lemma_fld_len(373, dec_nat(reason as nat), self.sep);
            lemma_fld_len(58, err_text@, self.sep);
            assert(h.body@.len() < 1000000);
        }
        h.done()
    }

    /// Builds the initial Logon (`35=A`): `EncryptMethod(98)` zero, the
    /// configured heartbeat in seconds, and a fresh outbound number.
    pub fn make_logon(&mut self, now: &Timestamp) -> (r: Vec<u8>)
        requires
            old(self).wf(),
            old(self).seq_numbers.next_outbound < u64::MAX,
        ensures
            final(self).wf(),
            *final(self) == (FixConnection {
                seq_numbers: SeqNumbers {
                    next_outbound: (old(self).seq_numbers.next_outbound + 1) as u64,
                    ..old(self).seq_numbers
                },
                ..*old(self)
            }),
            r@ == frame(
                old(self).config,
                logon_body(old(self).config, old(self).seq_numbers.next_outbound, *now, old(self).sep),
                old(self).sep,
            ),
    {
        let msg_seq_num = self.seq_numbers.get_incr_outbound();
        let mt: [u8; 1] = [65];
        let mut h = EncoderHandle::start(self.config.begin_string.as_slice(), &mt, self.sep);
        proof {
            assert(mt@ =~= seq![65u8]);
        }
        self.set_sender_and_target(&mut h);
        Self::set_sending_time(&mut h, now);
        h.set_u64(34, msg_seq_num);
        h.set_u64(98, 0);
        h.set_u64(108, self.config.heartbeat_secs);
        proof {
            assert(h.body@ =~= logon_body(self.config, msg_seq_num, *now, self.sep));
            lemma_fld_len(35, seq![65u8], self.sep);
            lemma_fld_len(49, self.config.sender_comp_id@, self.sep);
            lemma_fld_len(56, self.config.target_comp_id@, self.sep);
            crate::timestamp::lemma_format_timestamp_len(*now);
            lemma_fld_len(52, spec_format_timestamp(*now), self.sep);
            lemma_dec_u64_len(msg_seq_num);
            lemma_fld_len(34, dec_nat(msg_seq_num as nat), self.sep);
            lemma_dec_u64_len(0);
            lemma_fld_len(98, dec_nat(0), self.sep);
            lemma_dec_u64_len(self.config.heartbeat_secs);
            lemma_fld_len(108, dec_nat(self.config.heartbeat_secs as nat), self.sep);
            assert(h.body@.len() < 1000000);
        }
        h.done()
    }

    /// Wraps pre-serialized body bytes with the session header fields
    /// (`SenderCompID`, `TargetCompID`, `MsgSeqNum`, `SendingTime`) and the
    /// computed frame, with a fresh outbound number.
    pub fn make_fix_message_with_body(&mut self, message_body: &[u8], now: &Timestamp) -> (r: Vec<
        u8,
    >)
        requires
            old(self).wf(),
            old(self).seq_numbers.next_outbound < u64::MAX,
            message_body@.len() <= 900000,
        ensures
            final(self).wf(),
            *final(self) == (FixConnection {
                seq_numbers: SeqNumbers {
                    next_outbound: (old(self).seq_numbers.next_outbound + 1) as u64,
                    ..old(self).seq_numbers
                },
                ..*old(self)
            }),
            r@ == frame(
                old(self).config,
                message_body@ + fld(49, old(self).config.sender_comp_id@, old(self).sep) + fld(
                    56,
                    old(self).config.target_comp_id@,
                    old(self).sep,
                ) + fld(34, dec_nat(old(self).seq_numbers.next_outbound as nat), old(self).sep)
                    + fld(52, spec_format_timestamp(*now), old(self).sep),
                old(self).sep,
            ),
    {
        let msg_seq_num = self.seq_numbers.get_incr_outbound();
        let mut h = EncoderHandle::start_with_body(
            self.config.begin_string.as_slice(),
            message_body,
            self.sep,
        );
        self.set_sender_and_target(&mut h);
        h.set_u64(34, msg_seq_num);
        Self::set_sending_time(&mut h, now);
        proof {
            lemma_fld_len(49, self.config.sender_comp_id@, self.sep);
            lemma_fld_len(56, self.config.target_comp_id@, self.sep);
            lemma_dec_u64_len(msg_seq_num);
            lemma_fld_len(34, dec_nat(msg_seq_num as nat), self.sep);
            crate::timestamp::lemma_format_timestamp_len(*now);
            lemma_fld_len(52, spec_format_timestamp(*now), self.sep);
            assert(h.body@.len() < 1000000);
        }
        h.done()
    }

    /// Records the peer's Logon and reports it to the backend; no reply.
    pub fn on_logon(&mut self, logon: &Message)
        ensures
            final(self).config == old(self).config,
            final(self).seq_numbers == old(self).seq_numbers,
            final(self).sep == old(self).sep,
            final(self).verifier == old(self).verifier,
            final(self).uuid == old(self).uuid,
    {
        let _ = self.backend.on_inbound_message(logon, false);
    }

    /// Completes the handshake after the peer's Logon frame parsed: the
    /// frame is delivered to the backend, the inbound counter moves past
    /// it, and the one-shot handshake signal fires.
    pub fn complete_handshake(&mut self, logon: &Message)
        requires
            old(self).wf(),
            old(self).seq_numbers.next_inbound < u64::MAX,
        ensures
            final(self).wf(),
            final(self).config == old(self).config,
            final(self).sep == old(self).sep,
            final(self).verifier == old(self).verifier,
            final(self).uuid == old(self).uuid,
            final(self).seq_numbers == (SeqNumbers {
                next_inbound: (old(self).seq_numbers.next_inbound + 1) as u64,
                ..old(self).seq_numbers
            }),
    {
        let _ = self.backend.on_inbound_message(logon, false);
        self.seq_numbers.incr_inbound();
        let _ = self.backend.on_successful_handshake();
    }

    /// Delivers an accepted application message to the backend.
    pub fn on_inbound_app_message(&mut self, message: &Message) -> (r: Result<
        (),
        FixConnectionError,
    >)
        ensures
            final(self).config == old(self).config,
            final(self).seq_numbers == old(self).seq_numbers,
            final(self).sep == old(self).sep,
            final(self).verifier == old(self).verifier,
            final(self).uuid == old(self).uuid,
    {
        match self.backend.on_inbound_app_message(message) {
            Ok(()) => Ok(()),
            Err(()) => Err(FixConnectionError::BackendProcessingError),
        }
    }

    /// Reports an emitted frame to the backend.
    pub fn on_outbound_message(&mut self, message: &[u8]) -> (r: Result<(), FixConnectionError>)
        ensures
            final(self).config == old(self).config,
            final(self).seq_numbers == old(self).seq_numbers,
            final(self).sep == old(self).sep,
            final(self).verifier == old(self).verifier,
            final(self).uuid == old(self).uuid,
    {
        match self.backend.on_outbound_message(message) {
            Ok(()) => Ok(()),
            Err(()) => Err(FixConnectionError::BackendProcessingError),
        }
    }

    /// Runs the screening checks on one inbound message: the environment
    /// check, the `MsgSeqNum(34)` classification, and the `SendingTime(52)`
    /// check; a failed check draws the administrative reply and the message
    /// goes no further.  An accepted message moves the inbound counter.
    fn screen_inbound(&mut self, msg: &Message, now: &Timestamp) -> (r: Option<Response>)
        requires
            old(self).wf(),
            old(self).seq_numbers.next_inbound < u64::MAX,
            old(self).seq_numbers.next_outbound < u64::MAX,
        ensures
            final(self).wf(),
            final(self).config == old(self).config,
            final(self).sep == old(self).sep,
            final(self).verifier == old(self).verifier,
            final(self).uuid == old(self).uuid,
            match spec_screen(
                old(self).config,
                msg@,
                old(self).seq_numbers.next_inbound,
                old(self).seq_numbers.next_outbound,
                *now,
                old(self).sep,
            ) {
                Some((rep, ni, no)) => {
                    &&& final(self).seq_numbers == SeqNumbers {
                        next_inbound: ni,
                        next_outbound: no,
                    }
                    &&& (r matches Some(resp) && (rep matches ReplySpec::RBytes(b) && (
                    resp matches Response::OutboundBytes(ob) && ob@ == b)))
                },
                None => r is None && final(self).seq_numbers == (SeqNumbers {
                    next_inbound: (old(self).seq_numbers.next_inbound + 1) as u64,
                    next_outbound: old(self).seq_numbers.next_outbound,
                }),
            },
    {
        if self.verifier.verify_test_message_indicator(msg).is_err() {
            let _ = self.backend.on_inbound_message(msg, false);
            let text = production_env_text();
            let bytes = self.make_logout(text.as_slice(), now);
            return Some(Response::OutboundBytes(bytes));
        }
        let seq_num = match msg.get_u64_field(34) {
            Some(n) => n,
            None => {
                let _ = self.backend.on_inbound_message(msg, false);
                let text = missing_msg_seq_num_text();
                let bytes = self.make_logout(text.as_slice(), now);
                return Some(Response::OutboundBytes(bytes));
            },
        };
        match self.seq_numbers.validate_inbound(seq_num) {
            Ok(()) => {},
            Err(SeqNumberError::TooLow) => {
                let text = msg_seq_num_text(self.seq_numbers.next_inbound());
                let bytes = self.make_logout(text.as_slice(), now);
                return Some(Response::OutboundBytes(bytes));
            },
            Err(_) => {
                let expected = self.seq_numbers.next_inbound();
                let bytes = self.make_resend_request(expected, seq_num, now);
                return Some(Response::OutboundBytes(bytes));
            },
        }
        self.seq_numbers.get_incr_inbound();
        if self.verifier.verify_sending_time(msg, now).is_err() {
            let _ = self.backend.on_inbound_message(msg, false);
            let ref_msg_type = match msg.get_raw(35) {
                Some(m) => if m.len() <= 65536 {
                    Some(m)
                } else {
                    None
                },
                None => None,
            };
            let text = bad_sending_time_text();
            let bytes = self.on_reject(
                seq_num,
                Some(52),
                ref_msg_type.as_ref(),
                10,
                text.as_slice(),
                now,
            );
            return Some(Response::OutboundBytes(bytes));
        }
        None
    }

    /// Dispatches one inbound message as [`spec_response`] describes: the
    /// screening checks, then the per-type handling.
    pub fn on_inbound_message(&mut self, msg: &Message, now: &Timestamp) -> (r: Response)
        requires
            old(self).wf(),
            old(self).seq_numbers.next_inbound < u64::MAX,
            old(self).seq_numbers.next_outbound < u64::MAX,
        ensures
            final(self).wf(),
            final(self).config == old(self).config,
            final(self).sep == old(self).sep,
            final(self).verifier == old(self).verifier,
            final(self).uuid == old(self).uuid,
            ({
                let (rep, ni, no) = spec_response(
                    old(self).config,
                    msg@,
                    old(self).seq_numbers.next_inbound,
                    old(self).seq_numbers.next_outbound,
                    *now,
                    old(self).sep,
                );
                &&& final(self).seq_numbers == SeqNumbers {
                    next_inbound: ni,
                    next_outbound: no,
                }
                &&& match rep {
                    ReplySpec::RNone => r is NoReply,
                    ReplySpec::RReset => r is ResetHeartbeat,
                    ReplySpec::RBytes(b) => r matches Response::OutboundBytes(ob) && ob@ == b,
                    ReplySpec::RApp(f) => r matches Response::Application(m) && m@ == f,
                }
            }),
    {
        match self.screen_inbound(msg, now) {
            Some(resp) => resp,
            None => self.dispatch_inbound(msg, now),
        }
    }

    /// The per-type handling of an accepted, verified message, as
    /// [`spec_dispatch`] describes.
    fn dispatch_inbound(&mut self, msg: &Message, now: &Timestamp) -> (r: Response)
        requires
            old(self).wf(),
            old(self).seq_numbers.next_outbound < u64::MAX,
        ensures
            final(self).wf(),
            final(self).config == old(self).config,
            final(self).sep == old(self).sep,
            final(self).verifier == old(self).verifier,
            final(self).uuid == old(self).uuid,
            final(self).seq_numbers.next_inbound == old(self).seq_numbers.next_inbound,
            ({
                let (rep, no) = spec_dispatch(
                    old(self).config,
                    msg@,
                    old(self).seq_numbers.next_outbound,
                    *now,
                    old(self).sep,
                );
                &&& final(self).seq_numbers.next_outbound == no
                &&& match rep {
                    ReplySpec::RNone => r is NoReply,
                    ReplySpec::RReset => r is ResetHeartbeat,
                    ReplySpec::RBytes(b) => r matches Response::OutboundBytes(ob) && ob@ == b,
                    ReplySpec::RApp(f) => r matches Response::Application(m) && m@ == f,
                }
            }),
    {
        let msg_type = match msg.get_raw(35) {
            Some(mt) => mt,
            None => {
                return self.on_application_message(msg);
            },
        };
        self.dispatch_by_msg_type(msg_type.as_slice(), msg, now)
    }

    /// Per-type handling of a verified, in-sequence message.
    fn dispatch_by_msg_type(&mut self, msg_type: &[u8], msg: &Message, now: &Timestamp) -> (r:
        Response)
        requires
            old(self).wf(),
            old(self).seq_numbers.next_outbound < u64::MAX,
        ensures
            final(self).wf(),
            final(self).config == old(self).config,
            final(self).sep == old(self).sep,
            final(self).verifier == old(self).verifier,
            final(self).uuid == old(self).uuid,
            final(self).seq_numbers.next_inbound == old(self).seq_numbers.next_inbound,
            if msg_type@ == seq![65u8] || msg_type@ == seq![50u8] {
                r is NoReply && final(self).seq_numbers == old(self).seq_numbers
            } else if msg_type@ == seq![48u8] {
                r is ResetHeartbeat && final(self).seq_numbers == old(self).seq_numbers
            } else if msg_type@ == seq![49u8] {
                (r matches Response::OutboundBytes(ob) && ob@ == frame(
                    old(self).config,
                    heartbeat_body(
                        old(self).config,
                        old(self).seq_numbers.next_outbound,
                        *now,
                        capped_raw(msg@, 112),
                        old(self).sep,
                    ),
                    old(self).sep,
                )) && final(self).seq_numbers.next_outbound == old(
                    self,
                ).seq_numbers.next_outbound + 1
            } else if msg_type@ == seq![53u8] {
                (r matches Response::OutboundBytes(ob) && ob@ == frame(
                    old(self).config,
                    logout_body(
                        old(self).config,
                        old(self).seq_numbers.next_outbound,
                        *now,
                        text_logout(),
                        old(self).sep,
                    ),
                    old(self).sep,
                )) && final(self).seq_numbers.next_outbound == old(
                    self,
                ).seq_numbers.next_outbound + 1
            } else {
                (r matches Response::Application(m) && m@ == msg@) && final(self).seq_numbers
                    == old(self).seq_numbers
            },
    {
        if msg_type.len() == 1 && msg_type[0] == 65 {
            proof {
                assert(msg_type@ =~= seq![65u8]);
            }
            self.on_logon(msg);
            Response::NoReply
        } else if msg_type.len() == 1 && msg_type[0] == 49 {
            proof {
                assert(msg_type@ =~= seq![49u8]);
            }
            let _ = self.backend.on_inbound_message(msg, false);
            let test_req_id = match msg.get_raw(112) {
                Some(id) => if id.len() <= 65536 {
                    Some(id)
                } else {
                    None
                },
                None => None,
            };
            let bytes = self.make_heartbeat(test_req_id.as_ref(), now);
            Response::OutboundBytes(bytes)
        } else if msg_type.len() == 1 && msg_type[0] == 50 {
            proof {
                assert(msg_type@ =~= seq![50u8]);
            }
            let begin = msg.get_u64_field(7);
            let end = msg.get_u64_field(16);
            match (begin, end) {
                (Some(b), Some(e)) => {
                    let _ = self.backend.on_resend_request(b, e);
                },
                _ => {},
            }
            Response::NoReply
        } else if msg_type.len() == 1 && msg_type[0] == 53 {
            proof {
                assert(msg_type@ =~= seq![53u8]);
            }
            let _ = self.backend.on_inbound_message(msg, false);
            let text = logout_text();
            let bytes = self.make_logout(text.as_slice(), now);
            Response::OutboundBytes(bytes)
        } else if msg_type.len() == 1 && msg_type[0] == 48 {
            proof {
                assert(msg_type@ =~= seq![48u8]);
            }
            let _ = self.backend.on_inbound_message(msg, false);
            Response::ResetHeartbeat
        } else {
            proof {
                assert(msg_type@ != seq![65u8] && msg_type@ != seq![49u8] && msg_type@ != seq![
                    50u8,
                ] && msg_type@ != seq![53u8] && msg_type@ != seq![48u8]);
            }
            self.on_application_message(msg)
        }
    }

    /// Delivers a non-administrative message upstream.
    fn on_application_message(&mut self, msg: &Message) -> (r: Response)
        ensures
            final(self).config == old(self).config,
            final(self).seq_numbers == old(self).seq_numbers,
            final(self).sep == old(self).sep,
            final(self).verifier == old(self).verifier,
            final(self).uuid == old(self).uuid,
            r matches Response::Application(m) && m@ == msg@,
    {
        let _ = self.backend.on_inbound_app_message(msg);
        Response::Application(msg.duplicate())
    }

    /// Builds a Logout for a message whose inbound number was below the
    /// expected value.
    pub fn on_low_seqnum(&mut self, now: &Timestamp) -> (r: Vec<u8>)
        requires
            old(self).wf(),
            old(self).seq_numbers.next_outbound < u64::MAX,
        ensures
            final(self).wf(),
            r@ == frame(
                old(self).config,
                logout_body(
                    old(self).config,
                    old(self).seq_numbers.next_outbound,
                    *now,
                    text_msg_seq_num(old(self).seq_numbers.next_inbound),
                    old(self).sep,
                ),
                old(self).sep,
            ),
    {
        let text = msg_seq_num_text(self.seq_numbers.next_inbound());
        self.make_logout(text.as_slice(), now)
    }

    /// Builds a Logout for a message that lacked `MsgSeqNum(34)`.
    pub fn on_missing_seqnum(&mut self, now: &Timestamp) -> (r: Vec<u8>)
        requires
            old(self).wf(),
            old(self).seq_numbers.next_outbound < u64::MAX,
        ensures
            final(self).wf(),
            r@ == frame(
                old(self).config,
                logout_body(
                    old(self).config,
                    old(self).seq_numbers.next_outbound,
                    *now,
                    text_missing_msg_seq_num(),
                    old(self).sep,
                ),
                old(self).sep,
            ),
    {
        let text = missing_msg_seq_num_text();
        self.make_logout(text.as_slice(), now)
    }
}

} // verus!
