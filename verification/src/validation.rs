//! Session configuration and the message verifier: `BeginString` equality,
//! `TestMessageIndicator(464)` against the configured environment, and
//! `SendingTime(52)` freshness against the clock.

use vstd::prelude::*;
use vstd::string::StringSliceAdditionalSpecFns;
use crate::codec::valid_sep;
use crate::message::{FieldVal, Message, spec_get, spec_get_raw, spec_value_bytes};
use crate::timestamp::{
    parse_timestamp,
    spec_epoch_millis,
    spec_parse_timestamp,
    Timestamp,
};

verus! {

/// Where the session runs: test traffic is refused in production unless
/// explicitly allowed.
#[derive(Clone, Copy, Debug, PartialEq, Eq, Structural)]
pub enum Environment {
    Testing,
    Production { allow_test: bool },
}

/// Immutable session parameters, fixed before the handshake.
#[derive(Clone, Debug)]
pub struct Config {
    pub begin_string: Vec<u8>,
    pub sender_comp_id: Vec<u8>,
    pub target_comp_id: Vec<u8>,
    pub environment: Environment,
    pub heartbeat_secs: u64,
    pub verify_test_indicator: bool,
}

/// The identifier bytes a configuration writes into message values must
/// not hold a separator byte, or the frames around them could not be
/// parsed; and they must be short enough that every administrative reply
/// fits the six reserved `BodyLength(9)` digits.
pub open spec fn wf_ident(b: Seq<u8>) -> bool {
    &&& b.len() <= 4096
    &&& forall|i: int| 0 <= i < b.len() ==> !valid_sep(#[trigger] b[i])
}

/// A configuration whose identifiers can be framed.
pub open spec fn wf_config(c: Config) -> bool {
    &&& wf_ident(c.begin_string@)
    &&& c.begin_string@.len() >= 1
    &&& wf_ident(c.sender_comp_id@)
    &&& wf_ident(c.target_comp_id@)
}

impl Default for Config {
    /// FIX 4.4, empty identifiers, a testing environment, a 30 second
    /// heartbeat, and indicator verification on.
    fn default() -> (r: Config)
        ensures
            r.begin_string@ == "FIX.4.4".spec_bytes(),
            r.sender_comp_id@ == Seq::<u8>::empty(),
            r.target_comp_id@ == Seq::<u8>::empty(),
            r.environment == Environment::Testing,
            r.heartbeat_secs == 30,
            r.verify_test_indicator,
    {
        let bs = "FIX.4.4".as_bytes_vec();
        Config {
            begin_string: bs,
            sender_comp_id: Vec::new(),
            target_comp_id: Vec::new(),
            environment: Environment::Testing,
            heartbeat_secs: 30,
            verify_test_indicator: true,
        }
    }
}

/// Whether the message's `TestMessageIndicator(464)` suits the environment:
/// with verification off, or the field missing, always; `Y` only outside
/// strict production, `N` only in production; anything else never.
pub open spec fn spec_verify_tmi(
    verify: bool,
    env: Environment,
    fields: Seq<(u32, FieldVal)>,
) -> bool {
    if !verify {
        true
    } else {
        match spec_get_raw(fields, 464) {
            None => true,
            Some(value) => {
                if value == seq![89u8] {
                    env == Environment::Testing || env == (Environment::Production {
                        allow_test: true,
                    })
                } else if value == seq![78u8] {
                    env is Production
                } else {
                    false
                }
            },
        }
    }
}

/// Whether the message's `BeginString(8)` equals the configured one.
pub open spec fn spec_verify_begin_string(begin: Seq<u8>, fields: Seq<(u32, FieldVal)>) -> bool {
    spec_get_raw(fields, 8) == Some(begin)
}

/// Whether the message's `SendingTime(52)` parses and lies within one
/// second of `now`.
pub open spec fn spec_verify_sending_time(fields: Seq<(u32, FieldVal)>, now: Timestamp) -> bool {
    match spec_get_raw(fields, 52) {
        None => false,
        Some(value) => match spec_parse_timestamp(value) {
            None => false,
            Some(ts) => now.wf() && {
                let d = spec_epoch_millis(now) - spec_epoch_millis(ts);
                -1000 < d < 1000
            },
        },
    }
}

/// Whether `b` can stand as an identifier value: short enough for the
/// reserved `BodyLength(9)` width and free of separator bytes.
pub fn ident_ok(b: &[u8]) -> (r: bool)
    ensures
        r == wf_ident(b@),
{
    if b.len() > 4096 {
        return false;
    }
    let n = b.len();
    let mut i: usize = 0;
    while i < n
        invariant
            i <= n == b@.len(),
            forall|k: int| 0 <= k < i ==> !valid_sep(#[trigger] b@[k]),
        decreases n - i,
    {
        if b[i] == 1 || b[i] == 124 || b[i] == 94 {
            return false;
        }
        i = i + 1;
    }
    true
}

/// Whether a configuration's identifiers can be framed: the executable
/// form of [`wf_config`], for callers outside the library to check before
/// building a session.
pub fn config_ok(c: &Config) -> (r: bool)
    ensures
        r == wf_config(*c),
{
    ident_ok(c.begin_string.as_slice()) && c.begin_string.len() >= 1 && ident_ok(
        c.sender_comp_id.as_slice(),
    ) && ident_ok(c.target_comp_id.as_slice())
}

/// The three pure verdicts a session asks of every inbound message.
pub trait Verify: Sized {
    /// What `verify_begin_string` answers.
    spec fn begin_string_spec(&self, fields: Seq<(u32, FieldVal)>) -> bool;

    /// What `verify_test_message_indicator` answers.
    spec fn tmi_spec(&self, fields: Seq<(u32, FieldVal)>) -> bool;

    /// What `verify_sending_time` answers for the clock reading `now`.
    spec fn sending_time_spec(&self, fields: Seq<(u32, FieldVal)>, now: Timestamp) -> bool;

    /// Checks `BeginString(8)` against the configured protocol version.
    fn verify_begin_string(&self, msg: &Message) -> (r: Result<(), ()>)
        ensures
            r is Ok <==> self.begin_string_spec(msg@),
    ;

    /// Checks `TestMessageIndicator(464)` against the environment.
    fn verify_test_message_indicator(&self, msg: &Message) -> (r: Result<(), ()>)
        ensures
            r is Ok <==> self.tmi_spec(msg@),
    ;

    /// Checks `SendingTime(52)` against the clock reading `now`.
    fn verify_sending_time(&self, msg: &Message, now: &Timestamp) -> (r: Result<(), ()>)
        ensures
            r is Ok <==> self.sending_time_spec(msg@, *now),
    ;
}

/// The basic verifier: the three checks against a configuration.
#[derive(Clone, Debug)]
pub struct Verifier {
    pub config: Config,
}

impl Verifier {
    pub fn new(config: Config) -> (r: Verifier)
        ensures
            r.config == config,
    {
        Verifier { config }
    }
}

impl Verify for Verifier {
    open spec fn begin_string_spec(&self, fields: Seq<(u32, FieldVal)>) -> bool {
        spec_verify_begin_string(self.config.begin_string@, fields)
    }

    open spec fn tmi_spec(&self, fields: Seq<(u32, FieldVal)>) -> bool {
        spec_verify_tmi(self.config.verify_test_indicator, self.config.environment, fields)
    }

    open spec fn sending_time_spec(&self, fields: Seq<(u32, FieldVal)>, now: Timestamp) -> bool {
        spec_verify_sending_time(fields, now)
    }

    fn verify_begin_string(&self, msg: &Message) -> (r: Result<(), ()>) {
        match msg.get_raw(8) {
            None => Err(()),
            Some(value) => {
                if eq_bytes(value.as_slice(), self.config.begin_string.as_slice()) {
                    Ok(())
                } else {
                    Err(())
                }
            },
        }
    }

    fn verify_test_message_indicator(&self, msg: &Message) -> (r: Result<(), ()>) {
        if !self.config.verify_test_indicator {
            return Ok(());
        }
        let env = self.config.environment;
        match msg.get_raw(464) {
            None => Ok(()),
            Some(value) => {
                if value.len() == 1 && value[0] == 89 {
                    let pass = match env {
                        Environment::Testing => true,
                        Environment::Production { allow_test } => allow_test,
                    };
                    proof {
                        assert(value@ =~= seq![89u8]);
                    }
                    if pass {
                        Ok(())
                    } else {
                        Err(())
                    }
                } else if value.len() == 1 && value[0] == 78 {
                    proof {
                        assert(value@ =~= seq![78u8]);
                    }
                    match env {
                        Environment::Production { .. } => Ok(()),
                        _ => Err(()),
                    }
                } else {
                    proof {
                        assert(value@ != seq![89u8] && value@ != seq![78u8]);
                    }
                    Err(())
                }
            },
        }
    }

    fn verify_sending_time(&self, msg: &Message, now: &Timestamp) -> (r: Result<(), ()>) {
        match msg.get_raw(52) {
            None => Err(()),
            Some(value) => match parse_timestamp(value.as_slice()) {
                None => Err(()),
                Some(ts) => {
                    if !(now.year >= 1970 && now.year <= 9999 && now.month >= 1 && now.month
                        <= 12 && now.day >= 1 && now.day <= 31 && now.hour <= 23 && now.minute
                        <= 59 && now.second <= 59 && now.millis <= 1999) {
                        return Err(());
                    }
                    let a = now.to_epoch_millis();
                    let b = ts.to_epoch_millis();
                    let d: i64 = a - b;
                    if -1000 < d && d < 1000 {
                        Ok(())
                    } else {
                        Err(())
                    }
                },
            },
        }
    }
}

/// Whether two byte strings are equal.
pub fn eq_bytes(a: &[u8], b: &[u8]) -> (r: bool)
    ensures
        r == (a@ == b@),
{
    if a.len() != b.len() {
        return false;
    }
    let n = a.len();
    let mut i: usize = 0;
    while i < n
        invariant
            i <= n == a@.len() == b@.len(),
            forall|k: int| 0 <= k < i ==> a@[k] == b@[k],
        decreases n - i,
    {
        if a[i] != b[i] {
            return false;
        }
        i = i + 1;
    }
    proof {
        assert(a@ =~= b@);
    }
    true
}

} // verus!
