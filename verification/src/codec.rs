//! The tag-value codec: a whole-frame decoder, a streaming (length-prefixed
//! body) decoder, and an encoder that reserves a zero-padded `BodyLength(9)`
//! placeholder and back-patches it when the message is finalized.

use vstd::prelude::*;
use crate::checksum::{checksum_of, ChecksumAlgo, ChecksumAlgoStd};
use crate::dictionary::{
    Dictionary,
    spec_predetermined_lookup,
    TagLookup,
    TagLookupPredetermined,
    TypeInfo,
};
use crate::digits::{all_digits, dec_nat, digits_val, is_digit, parse_u64};
use crate::message::{
    encode_field,
    field_value,
    FieldVal,
    FieldValue,
    Message,
    push_all,
    spec_field_bytes,
    spec_get,
    spec_typed_value,
    spec_value_bytes,
};

verus! {

/// A decoding or encoding failure.
#[derive(Clone, Copy, Debug, PartialEq, Eq, Structural)]
pub enum Error {
    FieldWithoutValue(u32),
    RepeatedTag(u32),
    Eof,
    InvalidStandardHeader,
    InvalidStandardTrailer,
    InvalidChecksum(InvalidChecksum),
    Syntax,
}

/// A checksum mismatch: the sum the window requires against the sum the
/// trailer states.
#[derive(Clone, Copy, Debug, PartialEq, Eq, Structural)]
pub struct InvalidChecksum {
    pub expected: u8,
    pub actual: u8,
}

/// Compile-time-style codec configuration: the field separator byte.  The
/// canonical separator is `SOH` (0x01); `|` and `^` are accepted alternates.
pub trait Transmuter: Sized {
    /// The separator this configuration selects.
    spec fn separator_spec(&self) -> u8;

    /// The delimiter byte, which terminates every tag-value pair including
    /// the last one.
    fn separator(&self) -> (r: u8)
        ensures
            r == self.separator_spec(),
    ;
}

/// The default configuration: `SOH` (ASCII 0x01) separators.
#[derive(Clone, Copy, Debug)]
pub struct TransStd;

impl Transmuter for TransStd {
    open spec fn separator_spec(&self) -> u8 {
        1
    }

    fn separator(&self) -> (r: u8) {
        1
    }
}

/// A configuration with `|` (ASCII 0x7C) as the field separator.
#[derive(Clone, Copy, Debug)]
pub struct TransVerticalSlash;

impl Transmuter for TransVerticalSlash {
    open spec fn separator_spec(&self) -> u8 {
        124
    }

    fn separator(&self) -> (r: u8) {
        124
    }
}

/// A configuration with `^` (ASCII 0x5E) as the field separator.
#[derive(Clone, Copy, Debug)]
pub struct TransCaret;

impl Transmuter for TransCaret {
    open spec fn separator_spec(&self) -> u8 {
        94
    }

    fn separator(&self) -> (r: u8) {
        94
    }
}

/// An accepted separator byte: `SOH`, `|` or `^`.  None of them is an ASCII
/// digit, which keeps tag and length renderings free of separators.
pub open spec fn valid_sep(sep: u8) -> bool {
    sep == 1 || sep == 124 || sep == 94
}

/// The index of the first occurrence of `b` in `s` at or after `from`.
pub open spec fn spec_find(s: Seq<u8>, from: int, b: u8) -> Option<int>
    decreases s.len() - from when 0 <= from
{
    if from >= s.len() {
        None
    } else if s[from] == b {
        Some(from)
    } else {
        spec_find(s, from + 1, b)
    }
}

pub proof fn lemma_spec_find(s: Seq<u8>, from: int, b: u8)
    requires
        0 <= from <= s.len(),
    ensures
        match spec_find(s, from, b) {
            Some(p) => from <= p < s.len() && s[p] == b && forall|k: int|
                from <= k < p ==> s[k] != b,
            None => forall|k: int| from <= k < s.len() ==> s[k] != b,
        },
    decreases s.len() - from,
{
    if from < s.len() && s[from] != b {
        lemma_spec_find(s, from + 1, b);
    }
}

/// One step of the field scanner at position `from`.
pub enum FieldStep {
    /// Clean end: no bytes left, or an empty tag before `=`.
    Done,
    /// A field: tag, base type, raw value bytes, position after its separator.
    Next(u32, TypeInfo, Seq<u8>, int),
    /// The input is malformed (`Syntax`) or ends inside the field (`Eof`).
    Failed(Error),
}

/// Scans one `tag=value<SEP>` pair starting at `from`.  `data_len` is the
/// most recent integer field value, which gives the length of a `Data` typed
/// value (separators included).
pub open spec fn spec_field_step(s: Seq<u8>, from: int, sep: u8, data_len: nat) -> FieldStep {
    if from >= s.len() {
        FieldStep::Done
    } else {
        match spec_find(s, from, 61) {
            None => if all_digits(s.subrange(from, s.len() as int)) {
                FieldStep::Failed(Error::Eof)
            } else {
                FieldStep::Failed(Error::Syntax)
            },
            Some(e) => {
                let tagtext = s.subrange(from, e);
                if tagtext.len() == 0 {
                    FieldStep::Done
                } else if !all_digits(tagtext) || digits_val(tagtext) > u32::MAX {
                    FieldStep::Failed(Error::Syntax)
                } else {
                    let tag = digits_val(tagtext) as u32;
                    match spec_predetermined_lookup(tag) {
                        Err(_) => FieldStep::Failed(Error::Syntax),
                        Ok(kind) => match kind {
                            TypeInfo::Data(_) => if e + 1 + data_len + 1 <= s.len() {
                                if s[e + 1 + data_len] == sep {
                                    FieldStep::Next(
                                        tag,
                                        TypeInfo::Data(data_len as usize),
                                        s.subrange(e + 1, e + 1 + data_len),
                                        e + 2 + data_len,
                                    )
                                } else {
                                    FieldStep::Failed(Error::Syntax)
                                }
                            } else {
                                FieldStep::Failed(Error::Eof)
                            },
                            _ => match spec_find(s, e + 1, sep) {
                                None => FieldStep::Failed(Error::Eof),
                                Some(p) => FieldStep::Next(tag, kind, s.subrange(e + 1, p), p + 1),
                            },
                        },
                    }
                }
            },
        }
    }
}

/// The integer value a field contributes as the length of a following
/// `Data` field: non-negative integers that fit a `usize`, else unchanged.
pub open spec fn spec_next_data_len(v: FieldVal, data_len: nat) -> nat {
    match v {
        FieldVal::Int(i) => if 0 <= i <= usize::MAX {
            i as nat
        } else {
            data_len
        },
        _ => data_len,
    }
}

pub proof fn lemma_field_step_next_bounds(s: Seq<u8>, from: int, sep: u8, data_len: nat)
    requires
        0 <= from,
    ensures
        match spec_field_step(s, from, sep, data_len) {
            FieldStep::Next(_, _, _, next) => from < next <= s.len(),
            _ => true,
        },
{
    if from < s.len() {
        lemma_spec_find(s, from, 61);
        match spec_find(s, from, 61) {
            Some(e) => {
                lemma_spec_find(s, e + 1, sep);
            },
            None => {},
        }
    }
}

/// Scans fields from `from` to the end, appending to `acc`; `last_tag` is
/// the tag of the last field scanned.  A message ends either at the field
/// tagged `10` or at a clean end of input, which must come right after the
/// `10` field.
pub open spec fn spec_parse_rest(
    s: Seq<u8>,
    from: int,
    sep: u8,
    data_len: nat,
    last_tag: u32,
    acc: Seq<(u32, FieldVal)>,
) -> Result<Seq<(u32, FieldVal)>, Error>
    decreases s.len() - from when 0 <= from
    via spec_parse_rest_dec
{
    match spec_field_step(s, from, sep, data_len) {
        FieldStep::Done => if last_tag == 10 {
            Ok(acc)
        } else {
            Err(Error::InvalidStandardTrailer)
        },
        FieldStep::Failed(e) => Err(e),
        FieldStep::Next(tag, kind, raw, next) => match spec_typed_value(kind, raw) {
            None => Err(Error::Syntax),
            Some(v) => if tag == 10 {
                Ok(acc.push((tag, v)))
            } else {
                spec_parse_rest(
                    s,
                    next,
                    sep,
                    spec_next_data_len(v, data_len),
                    tag,
                    acc.push((tag, v)),
                )
            },
        },
    }
}

#[via_fn]
proof fn spec_parse_rest_dec(
    s: Seq<u8>,
    from: int,
    sep: u8,
    data_len: nat,
    last_tag: u32,
    acc: Seq<(u32, FieldVal)>,
) {
    lemma_field_step_next_bounds(s, from, sep, data_len);
}

/// Reads one of the three standard header fields.  The step must yield a
/// field of exactly the tag `want`; its possible outcomes are folded into
/// the caller's continuation.
pub open spec fn spec_header_field(s: Seq<u8>, from: int, sep: u8, want: u32, none_err: Error)
    -> Result<(FieldVal, int), Error> {
    match spec_field_step(s, from, sep, 0) {
        FieldStep::Done => Err(none_err),
        FieldStep::Failed(e) => Err(e),
        FieldStep::Next(tag, kind, raw, next) => match spec_typed_value(kind, raw) {
            None => Err(Error::Syntax),
            Some(v) => if tag == want {
                Ok((v, next))
            } else {
                Err(Error::InvalidStandardHeader)
            },
        },
    }
}

/// What decoding a whole frame yields: the field map in wire order, or the
/// first error.  The first three fields must be `8`, `9`, `35`; the scan
/// then runs to the `10` field, which must be the last.
pub open spec fn spec_decode(s: Seq<u8>, sep: u8) -> Result<Seq<(u32, FieldVal)>, Error> {
    match spec_header_field(s, 0, sep, 8, Error::Eof) {
        Err(e) => Err(e),
        Ok((v8, p1)) => match spec_header_field(s, p1, sep, 9, Error::InvalidStandardHeader) {
            Err(e) => Err(e),
            Ok((v9, p2)) => match spec_header_field(
                s,
                p2,
                sep,
                35,
                Error::InvalidStandardHeader,
            ) {
                Err(e) => Err(e),
                Ok((v35, p3)) => spec_parse_rest(
                    s,
                    p3,
                    sep,
                    spec_next_data_len(v9, 0),
                    35,
                    seq![(8u32, v8), (9u32, v9), (35u32, v35)],
                ),
            },
        },
    }
}

/// The index of the first occurrence of `b` in `s` at or after `from`.
pub fn find_byte(s: &[u8], from: usize, b: u8) -> (r: Option<usize>)
    requires
        from <= s@.len(),
    ensures
        match r {
            Some(p) => spec_find(s@, from as int, b) == Some(p as int) && from <= p < s@.len(),
            None => spec_find(s@, from as int, b) is None,
        },
{
    let n = s.len();
    let mut i: usize = from;
    while i < n
        invariant
            from <= i <= n == s@.len(),
            spec_find(s@, from as int, b) == spec_find(s@, i as int, b),
        decreases n - i,
    {
        if s[i] == b {
            return Some(i);
        }
        i = i + 1;
    }
    None
}

/// One scanned field, by position: the raw value is `s[a..b]` and the scan
/// resumes at `next`.
pub enum Step {
    End,
    Item { tag: u32, kind: TypeInfo, a: usize, b: usize, next: usize },
    Fail(Error),
}

/// Scans one `tag=value<SEP>` pair of `s` starting at `from`, as
/// [`spec_field_step`] describes.
pub fn read_field(s: &[u8], from: usize, sep: u8, data_len: usize, dict: &Dictionary) -> (r: Step)
    requires
        from <= s@.len(),
    ensures
        match r {
            Step::End => spec_field_step(s@, from as int, sep, data_len as nat)
                == FieldStep::Done,
            Step::Item { tag, kind, a, b, next } => a <= b <= s@.len() && next <= s@.len()
                && from < next && spec_field_step(s@, from as int, sep, data_len as nat)
                == FieldStep::Next(tag, kind, s@.subrange(a as int, b as int), next as int),
            Step::Fail(e) => spec_field_step(s@, from as int, sep, data_len as nat)
                == FieldStep::Failed(e),
        },
{
    proof {
        lemma_spec_find(s@, from as int, 61);
    }
    if from == s.len() {
        return Step::End;
    }
    let e = match find_byte(s, from, 61) {
        Some(e) => e,
        None => {
            // All that is left is the tail of a tag: digits mean the input
            // stopped short, anything else is malformed.
            if check_all_digits(s, from, s.len()) {
                return Step::Fail(Error::Eof);
            } else {
                return Step::Fail(Error::Syntax);
            }
        },
    };
    if e == from {
        return Step::End;
    }
    let tag64 = match parse_u64(s, from, e) {
        Some(t) => t,
        None => {
            return Step::Fail(Error::Syntax);
        },
    };
    if tag64 > u32::MAX as u64 {
        return Step::Fail(Error::Syntax);
    }
    let tag = tag64 as u32;
    let mut lookup = TagLookupPredetermined::from_dict(dict);
    let kind = match lookup.lookup(tag) {
        Ok(k) => k,
        Err(_) => {
            return Step::Fail(Error::Syntax);
        },
    };
    let vstart = e + 1;
    match kind {
        TypeInfo::Data(_) => {
            if s.len() - vstart < 1 || data_len > s.len() - vstart - 1 {
                return Step::Fail(Error::Eof);
            }
            if s[vstart + data_len] == sep {
                Step::Item {
                    tag,
                    kind: TypeInfo::Data(data_len),
                    a: vstart,
                    b: vstart + data_len,
                    next: vstart + data_len + 1,
                }
            } else {
                Step::Fail(Error::Syntax)
            }
        },
        _ => {
            proof {
                lemma_spec_find(s@, vstart as int, sep);
            }
            match find_byte(s, vstart, sep) {
                None => Step::Fail(Error::Eof),
                Some(p) => Step::Item { tag, kind, a: vstart, b: p, next: p + 1 },
            }
        },
    }
}

/// The framing state of the streaming decoder.
#[derive(Clone, Copy, Debug, PartialEq, Eq, Structural)]
pub enum DecoderState {
    /// Reading up to the first separator after `BodyLength(9)`.
    NeedHeader,
    /// The header gave the total frame length; reading until it is buffered.
    NeedBody { required: usize },
    /// A complete frame of the given length is buffered and parsed.
    Ready { frame_len: usize },
}

/// The body bytes of the last parsed frame, as an owned copy.
#[derive(Clone, Debug, PartialEq)]
pub struct Body {
    pub len: usize,
    pub data: Vec<u8>,
}

impl Body {
    /// A body over a copy of `data`.
    pub fn new(data: &[u8]) -> (r: Body)
        ensures
            r.data@ == data@,
            r.len == data@.len(),
    {
        let mut v: Vec<u8> = Vec::new();
        push_all(&mut v, data);
        proof {
            assert(v@ =~= data@);
        }
        Body { len: data.len(), data: v }
    }
}

/// A (de)serializer for the classic FIX tag-value encoding, holding the
/// dictionary, the separator, and the streaming decoder's state.
#[derive(Clone, Debug)]
pub struct Codec {
    pub dict: Dictionary,
    pub buffer: Vec<u8>,
    pub state: DecoderState,
    pub message: Message,
    pub body: Body,
    pub sep: u8,
    pub check_checksum: bool,
}

impl Codec {
    /// A codec with the built-in FIX 4.4 dictionary and `SOH` separators.
    pub fn new() -> (r: Codec)
        ensures
            r.sep == 1,
            !r.check_checksum,
            r.is_fresh(),
    {
        Codec::with_dict(Dictionary::fix44())
    }

    /// A codec for the tag-value format; `dict` is used to parse messages.
    pub fn with_dict(dict: Dictionary) -> (r: Codec)
        ensures
            r.sep == 1,
            !r.check_checksum,
            r.is_fresh(),
    {
        let c = Codec {
            dict,
            buffer: Vec::new(),
            state: DecoderState::NeedHeader,
            message: Message { fields: Vec::new() },
            body: Body { len: 0, data: Vec::new() },
            sep: 1,
            check_checksum: false,
        };
        proof {
            assert(c.buffer@ =~= Seq::<u8>::empty());
            assert(c.message@ =~= Seq::<(u32, FieldVal)>::empty());
        }
        c
    }

    /// A codec whose separator the configuration `z` selects.
    pub fn with_transmuter<Z: Transmuter>(z: &Z) -> (r: Codec)
        ensures
            r.sep == z.separator_spec(),
            !r.check_checksum,
            r.is_fresh(),
    {
        let mut c = Codec::with_dict(Dictionary::fix44());
        c.sep = z.separator();
        c
    }

    /// Turns trailer checksum verification on or off for the streaming
    /// decoder: with it on, `try_parse` refuses a complete frame whose
    /// `CheckSum(10)` does not state the sum of the bytes before it.
    pub fn set_checksum_verification(&mut self, on: bool)
        ensures
            *final(self) == (Codec { check_checksum: on, ..*old(self) }),
    {
        self.check_checksum = on;
    }

    /// A decoder state holding no bytes of the next frame yet.
    pub open spec fn is_fresh(&self) -> bool {
        &&& self.buffer@ == Seq::<u8>::empty()
        &&& self.state == DecoderState::NeedHeader
        &&& self.message@ == Seq::<(u32, FieldVal)>::empty()
    }

    /// Decodes one complete frame: the first three fields must be
    /// `BeginString(8)`, `BodyLength(9)` and `MsgType(35)` in that order,
    /// and the scan must end at a `CheckSum(10)` field.  The trailer's
    /// stated checksum is read, not enforced: enforcement is a separate,
    /// configurable concern — the streaming decoder honors
    /// `set_checksum_verification`, and `verify_checksum` checks any
    /// complete frame.
    pub fn decode(&self, data: &[u8]) -> (r: Result<Message, Error>)
        ensures
            match r {
                Ok(m) => spec_decode(data@, self.sep) == Ok::<Seq<(u32, FieldVal)>, Error>(m@),
                Err(e) => spec_decode(data@, self.sep) == Err::<Seq<(u32, FieldVal)>, Error>(e),
            },
    {
        let sep = self.sep;
        let mut msg = Message::new();
        // `BeginString(8)`.
        let (p1, v8) = match self.decode_header_field(data, 0, 8) {
            Ok(pv) => pv,
            Err(e) => {
                return Err(if e == Error::FieldWithoutValue(0) {
                    Error::Eof
                } else {
                    e
                });
            },
        };
        msg.set_field(8, v8);
        // `BodyLength(9)`.
        let (p2, v9) = match self.decode_header_field(data, p1, 9) {
            Ok(pv) => pv,
            Err(e) => {
                return Err(if e == Error::FieldWithoutValue(0) {
                    Error::InvalidStandardHeader
                } else {
                    e
                });
            },
        };
        let mut data_len: usize = match &v9 {
            FieldValue::Int(i) => {
                let i = *i;
                if i >= 0 && (i as u64) <= (usize::MAX as u64) {
                    i as usize
                } else {
                    0
                }
            },
            _ => 0,
        };
        msg.set_field(9, v9);
        // `MsgType(35)`.
        let (p3, v35) = match self.decode_header_field(data, p2, 35) {
            Ok(pv) => pv,
            Err(e) => {
                return Err(if e == Error::FieldWithoutValue(0) {
                    Error::InvalidStandardHeader
                } else {
                    e
                });
            },
        };
        msg.set_field(35, v35);
        proof {
            assert(msg@ =~= seq![(8u32, v8@), (9u32, v9@), (35u32, v35@)]);
        }
        let mut pos = p3;
        let mut last_tag: u32 = 35;
        loop
            invariant
                pos <= data@.len(),
                sep == self.sep,
                spec_decode(data@, sep) == spec_parse_rest(
                    data@,
                    pos as int,
                    sep,
                    data_len as nat,
                    last_tag,
                    msg@,
                ),
            decreases data@.len() - pos,
        {
            let ghost pre_rest = spec_parse_rest(
                data@,
                pos as int,
                sep,
                data_len as nat,
                last_tag,
                msg@,
            );
            match read_field(data, pos, sep, data_len, &self.dict) {
                Step::End => {
                    proof {
                        assert(pre_rest == if last_tag == 10 {
                            Ok::<Seq<(u32, FieldVal)>, Error>(msg@)
                        } else {
                            Err::<Seq<(u32, FieldVal)>, Error>(Error::InvalidStandardTrailer)
                        });
                    }
                    if last_tag == 10 {
                        return Ok(msg);
                    } else {
                        return Err(Error::InvalidStandardTrailer);
                    }
                },
                Step::Fail(e) => {
                    proof {
                        assert(pre_rest == Err::<Seq<(u32, FieldVal)>, Error>(e));
                    }
                    return Err(e);
                },
                Step::Item { tag, kind, a, b, next } => {
                    let raw = vstd::slice::slice_subrange(data, a, b);
                    let v = match field_value(kind, raw) {
                        Some(v) => v,
                        None => {
                            proof {
                                assert(pre_rest == Err::<Seq<(u32, FieldVal)>, Error>(
                                    Error::Syntax,
                                ));
                            }
                            return Err(Error::Syntax);
                        },
                    };
                    data_len = match &v {
                        FieldValue::Int(i) => {
                            let i = *i;
                            if i >= 0 && (i as u64) <= (usize::MAX as u64) {
                                i as usize
                            } else {
                                data_len
                            }
                        },
                        _ => data_len,
                    };
                    msg.set_field(tag, v);
                    if tag == 10 {
                        return Ok(msg);
                    }
                    last_tag = tag;
                    pos = next;
                },
            }
        }
    }

    /// Reads one standard header field with the tag `want`; a clean end of
    /// input is reported as `FieldWithoutValue(0)` for the caller to rename.
    fn decode_header_field(&self, data: &[u8], from: usize, want: u32) -> (r: Result<
        (usize, FieldValue),
        Error,
    >)
        requires
            from <= data@.len(),
        ensures
            match r {
                Ok(pv) => spec_header_field(data@, from as int, self.sep, want, Error::Syntax)
                    == Ok::<(FieldVal, int), Error>((pv.1@, pv.0 as int)) && pv.0 <= data@.len(),
                Err(e) => if e == Error::FieldWithoutValue(0) {
                    spec_field_step(data@, from as int, self.sep, 0) == FieldStep::Done
                } else {
                    spec_header_field(data@, from as int, self.sep, want, Error::Syntax)
                        == Err::<(FieldVal, int), Error>(e) && spec_field_step(
                        data@,
                        from as int,
                        self.sep,
                        0,
                    ) != FieldStep::Done
                },
            },
    {
        match read_field(data, from, self.sep, 0, &self.dict) {
            Step::End => Err(Error::FieldWithoutValue(0)),
            Step::Fail(e) => Err(e),
            Step::Item { tag, kind, a, b, next } => {
                let raw = vstd::slice::slice_subrange(data, a, b);
                match field_value(kind, raw) {
                    None => Err(Error::Syntax),
                    Some(v) => {
                        if tag == want {
                            Ok((next, v))
                        } else {
                            Err(Error::InvalidStandardHeader)
                        }
                    },
                }
            },
        }
    }
}

/// `n` rendered as exactly `width` decimal digits, zero padded, keeping the
/// `width` least significant digits.
pub open spec fn zpad(n: nat, width: nat) -> Seq<u8>
    decreases width,
{
    if width == 0 {
        Seq::<u8>::empty()
    } else {
        zpad(n / 10, (width - 1) as nat).push((48 + n % 10) as u8)
    }
}

/// Ten to the `w`.
pub open spec fn pow10(w: nat) -> nat
    decreases w,
{
    if w == 0 {
        1
    } else {
        10 * pow10((w - 1) as nat)
    }
}

#[verifier::rlimit(100)]
pub proof fn lemma_zpad(n: nat, width: nat)
    ensures
        zpad(n, width).len() == width,
        all_digits(zpad(n, width)),
        digits_val(zpad(n, width)) == n % pow10(width),
    decreases width,
{
    if width > 0 {
        lemma_zpad(n / 10, (width - 1) as nat);
        let s = zpad(n, width);
        let t = zpad(n / 10, (width - 1) as nat);
        assert(s.drop_last() =~= t);
        assert(s.last() == (48 + n % 10) as u8);
        assert forall|i: int| 0 <= i < s.len() implies is_digit(#[trigger] s[i]) by {
            if i < t.len() {
                assert(s[i] == t[i]);
            }
        }
        assert(digits_val(s) == ((n / 10) % pow10((width - 1) as nat)) * 10 + n % 10);
        let m = pow10((width - 1) as nat);
        lemma_pow10_pos((width - 1) as nat);
        assert(((n / 10) % m) * 10 + n % 10 == n % (10 * m)) by (nonlinear_arith)
            requires
                m > 0,
        ;
    }
}

/// A number below ten to the `k` renders in at most `k` digits.
pub proof fn lemma_dec_nat_len(n: nat, k: nat)
    requires
        k >= 1,
        n < pow10(k),
    ensures
        dec_nat(n).len() <= k,
    decreases k,
{
    if n < 10 {
    } else {
        assert(pow10(k) == 10 * pow10((k - 1) as nat));
        lemma_pow10_pos((k - 1) as nat);
        if k == 1 {
            reveal_with_fuel(pow10, 2);
            assert(false);
        }
        assert(n / 10 < pow10((k - 1) as nat));
        lemma_dec_nat_len(n / 10, (k - 1) as nat);
    }
}

pub proof fn lemma_pow10_pos(w: nat)
    ensures
        pow10(w) >= 1,
    decreases w,
{
    if w > 0 {
        lemma_pow10_pos((w - 1) as nat);
    }
}

/// Appends the `width`-digit zero-padded rendering of `n` to `out`.
pub fn push_zpad(n: u64, width: usize, out: &mut Vec<u8>)
    ensures
        final(out)@ == old(out)@ + zpad(n as nat, width as nat),
    decreases width,
{
    if width == 0 {
        proof {
            assert(out@ =~= old(out)@ + zpad(n as nat, 0));
        }
    } else {
        push_zpad(n / 10, width - 1, out);
        out.push(48 + (n % 10) as u8);
        proof {
            assert(out@ =~= old(out)@ + zpad(n as nat, width as nat));
        }
    }
}

/// Writes the `width`-digit zero-padded rendering of `n` over
/// `buf[end - width .. end]`, leaving the rest of `buf` unchanged.
pub fn write_zpad(buf: &mut Vec<u8>, n: u64, width: usize, end: usize)
    requires
        width <= end <= old(buf)@.len(),
    ensures
        final(buf)@ == old(buf)@.subrange(0, end - width) + zpad(n as nat, width as nat) + old(
            buf,
        )@.subrange(end as int, old(buf)@.len() as int),
    decreases width,
{
    if width == 0 {
        proof {
            assert(buf@ =~= old(buf)@.subrange(0, end as int) + zpad(n as nat, 0) + old(
                buf,
            )@.subrange(end as int, old(buf)@.len() as int));
        }
    } else {
        let ghost before = buf@;
        buf[end - 1] = 48 + (n % 10) as u8;
        let ghost mid = buf@;
        write_zpad(buf, n / 10, width - 1, end - 1);
        proof {
            assert(mid =~= before.update(end - 1, (48 + (n as nat) % 10) as u8));
            assert(buf@ =~= before.subrange(0, end - width) + zpad(n as nat, width as nat)
                + before.subrange(end as int, before.len() as int));
        }
    }
}

/// The fields of `fields` rendered one after the other.
pub open spec fn spec_fields_bytes(fields: Seq<(u32, FieldVal)>, sep: u8) -> Seq<u8>
    decreases fields.len(),
{
    if fields.len() == 0 {
        Seq::<u8>::empty()
    } else {
        spec_fields_bytes(fields.drop_last(), sep) + spec_field_bytes(
            fields.last().0,
            fields.last().1,
            sep,
        )
    }
}

/// The head of a frame under construction: the `BeginString(8)` field and a
/// `BodyLength(9)` field carrying the six-digit value `bl`.
pub open spec fn spec_head(begin: Seq<u8>, bl: nat, sep: u8) -> Seq<u8> {
    spec_field_bytes(8, FieldVal::Str(begin), sep) + seq![57u8, 61u8] + zpad(bl, 6) + seq![sep]
}

/// A complete encoded frame over raw body bytes: head, body, and the
/// `CheckSum(10)` trailer whose three digits state the sum of everything
/// before it modulo 256.
pub open spec fn spec_encoded_bytes(begin: Seq<u8>, body: Seq<u8>, sep: u8) -> Seq<u8> {
    let head = spec_head(begin, body.len(), sep);
    head + body + seq![49u8, 48u8, 61u8] + zpad(checksum_of(head + body), 3) + seq![sep]
}

/// A complete encoded frame whose body renders the given fields.
pub open spec fn spec_encoded(begin: Seq<u8>, fields: Seq<(u32, FieldVal)>, sep: u8) -> Seq<u8> {
    spec_encoded_bytes(begin, spec_fields_bytes(fields, sep), sep)
}

/// Rendering one more field appends its bytes.
pub proof fn lemma_fields_bytes_push(fields: Seq<(u32, FieldVal)>, f: (u32, FieldVal), sep: u8)
    ensures
        spec_fields_bytes(fields.push(f), sep) == spec_fields_bytes(fields, sep)
            + spec_field_bytes(f.0, f.1, sep),
{
    assert(fields.push(f).drop_last() =~= fields);
}

/// A message under construction: the buffer holds the head with a zeroed
/// `BodyLength(9)` placeholder, then the body bytes written so far.
pub struct EncoderHandle {
    pub buf: Vec<u8>,
    pub sep: u8,
    pub body_start: usize,
    pub begin: Ghost<Seq<u8>>,
    pub body: Ghost<Seq<u8>>,
}

impl EncoderHandle {
    /// The handle's buffer is exactly the head placeholder plus the body
    /// bytes written so far.
    pub open spec fn wf(&self) -> bool {
        &&& self.body_start == spec_head(self.begin@, 0, self.sep).len()
        &&& self.buf@ == spec_head(self.begin@, 0, self.sep) + self.body@
    }

    /// Starts a message: writes `BeginString(8)`, the `BodyLength(9)`
    /// placeholder, and `MsgType(35)`.
    pub fn start(begin_string: &[u8], msg_type: &[u8], sep: u8) -> (r: EncoderHandle)
        ensures
            r.wf(),
            r.sep == sep,
            r.begin@ == begin_string@,
            r.body@ == spec_field_bytes(35, FieldVal::Str(msg_type@), sep),
    {
        let mut r = EncoderHandle::start_with_body(begin_string, &[], sep);
        proof {
            assert(r.body@ =~= Seq::<u8>::empty());
        }
        r.set_value(35, &FieldValue::Str(slice_to_vec_u8(msg_type)));
        proof {
            assert(r.body@ =~= spec_field_bytes(35, FieldVal::Str(msg_type@), sep));
        }
        r
    }

    /// Starts a message around pre-serialized body content: the standard
    /// header leads, `body_bytes` follow as they are, and further fields
    /// may still be appended.
    pub fn start_with_body(begin_string: &[u8], body_bytes: &[u8], sep: u8) -> (r: EncoderHandle)
        ensures
            r.wf(),
            r.sep == sep,
            r.begin@ == begin_string@,
            r.body@ == body_bytes@,
    {
        let mut buf: Vec<u8> = Vec::new();
        buf.push(56);
        buf.push(61);
        push_all(&mut buf, begin_string);
        buf.push(sep);
        buf.push(57);
        buf.push(61);
        push_zpad(0, 6, &mut buf);
        buf.push(sep);
        let body_start = buf.len();
        proof {
            assert(buf@ =~= spec_head(begin_string@, 0, sep));
        }
        push_all(&mut buf, body_bytes);
        let r = EncoderHandle {
            buf,
            sep,
            body_start,
            begin: Ghost(begin_string@),
            body: Ghost(body_bytes@),
        };
        proof {
            assert(r.buf@ =~= spec_head(begin_string@, 0, sep) + body_bytes@);
        }
        r
    }

    /// Appends one field with the given value.
    pub fn set_value(&mut self, tag: u32, value: &FieldValue)
        requires
            old(self).wf(),
        ensures
            final(self).wf(),
            final(self).sep == old(self).sep,
            final(self).begin == old(self).begin,
            final(self).body_start == old(self).body_start,
            final(self).body@ == old(self).body@ + spec_field_bytes(tag, value@, old(self).sep),
    {
        encode_field(tag, value, &mut self.buf, self.sep);
        proof {
            self.body@ = old(self).body@ + spec_field_bytes(tag, value@, self.sep);
            assert(self.buf@ =~= spec_head(self.begin@, 0, self.sep) + self.body@);
        }
    }

    /// Appends one field with a byte-string value.
    pub fn set(&mut self, tag: u32, value: &[u8])
        requires
            old(self).wf(),
        ensures
            final(self).wf(),
            final(self).sep == old(self).sep,
            final(self).begin == old(self).begin,
            final(self).body_start == old(self).body_start,
            final(self).body@ == old(self).body@ + spec_field_bytes(
                tag,
                FieldVal::Str(value@),
                old(self).sep,
            ),
    {
        self.set_value(tag, &FieldValue::Str(slice_to_vec_u8(value)));
    }

    /// Appends one field with an unsigned integer value, rendered in
    /// decimal.
    pub fn set_u64(&mut self, tag: u32, value: u64)
        requires
            old(self).wf(),
        ensures
            final(self).wf(),
            final(self).sep == old(self).sep,
            final(self).begin == old(self).begin,
            final(self).body_start == old(self).body_start,
            final(self).body@ == old(self).body@ + spec_field_bytes(
                tag,
                FieldVal::Str(dec_nat(value as nat)),
                old(self).sep,
            ),
    {
        let d = crate::digits::dec_u64_vec(value);
        self.set_value(tag, &FieldValue::Str(d));
    }

    /// How many body bytes were written so far.
    pub fn body_len(&self) -> (r: usize)
        requires
            self.wf(),
        ensures
            r == self.body@.len(),
    {
        self.buf.len() - self.body_start
    }

    /// Finalizes the message: back-patches all six reserved `BodyLength(9)`
    /// digits and appends the `CheckSum(10)` trailer.  The body must fit
    /// the six-digit width, so every finalized frame states its true
    /// length.
    pub fn done(self) -> (r: Vec<u8>)
        requires
            self.wf(),
            self.body@.len() < 1000000,
        ensures
            r@ == spec_encoded_bytes(self.begin@, self.body@, self.sep),
    {
        let EncoderHandle { mut buf, sep, body_start, begin, body: bodyg } = self;
        let body_len = buf.len() - body_start;
        let ghost head0 = spec_head(begin@, 0, sep);
        let ghost body = bodyg@;
        let ghost head = spec_head(begin@, body.len(), sep);
        proof {
            lemma_zpad(0, 6);
            lemma_zpad(body_len as nat, 6);
        }
        // The six placeholder digits sit just before the separator that
        // closes the `BodyLength(9)` field.
        write_zpad(&mut buf, body_len as u64, 6, body_start - 1);
        proof {
            assert(head0.subrange(0, body_start - 7) + zpad(body_len as nat, 6) + head0.subrange(
                body_start - 1,
                body_start as int,
            ) =~= head);
            assert((head0 + body).subrange(0, body_start - 7) =~= head0.subrange(
                0,
                body_start - 7,
            ));
            assert((head0 + body).subrange(body_start - 1, (head0 + body).len() as int) =~= head0
                .subrange(body_start - 1, body_start as int) + body);
            assert(buf@ =~= head + body);
        }
        let mut algo: ChecksumAlgoStd = ChecksumAlgo::fresh();
        algo.roll(buf.as_slice());
        let ck = algo.result();
        proof {
            assert(Seq::<u8>::empty() + buf@ =~= buf@);
        }
        let ghost patched = buf@;
        buf.push(49);
        buf.push(48);
        buf.push(61);
        push_zpad(ck as u64, 3, &mut buf);
        buf.push(sep);
        proof {
            reveal_with_fuel(pow10, 4);
            assert(pow10(3) == 1000);
            assert((ck as nat) % pow10(3) == ck as nat);
            assert(zpad(ck as nat, 3) =~= zpad(checksum_of(head + body), 3));
            assert(buf@ =~= spec_encoded_bytes(begin@, body, sep));
        }
        buf
    }
}

/// The fields a message contributes to an encoded body, in order: everything
/// but the header fields `8`, `9`, `35` and the trailer field `10`, which
/// the encoder writes itself.
pub open spec fn spec_keep_body(fields: Seq<(u32, FieldVal)>) -> Seq<(u32, FieldVal)>
    decreases fields.len(),
{
    if fields.len() == 0 {
        Seq::<(u32, FieldVal)>::empty()
    } else {
        let rest = spec_keep_body(fields.drop_last());
        let t = fields.last().0;
        if t == 8 || t == 9 || t == 35 || t == 10 {
            rest
        } else {
            rest.push(fields.last())
        }
    }
}

/// What encoding a field map yields: `BeginString(8)` and `MsgType(35)` are
/// taken from the map and must be present; `BodyLength(9)` and
/// `CheckSum(10)` are computed.
pub open spec fn spec_encode_message(fields: Seq<(u32, FieldVal)>, sep: u8) -> Result<
    Seq<u8>,
    Error,
> {
    match spec_get(fields, 8) {
        None => Err(Error::FieldWithoutValue(8)),
        Some(v8) => match spec_get(fields, 35) {
            None => Err(Error::FieldWithoutValue(35)),
            Some(v35) => {
                let all = seq![(35u32, FieldVal::Str(spec_value_bytes(v35)))] + spec_keep_body(
                    fields,
                );
                if spec_fields_bytes(all, sep).len() >= 1000000 {
                    Err(Error::Syntax)
                } else {
                    Ok(spec_encoded(spec_value_bytes(v8), all, sep))
                }
            },
        },
    }
}

/// The wire bytes of a field value, as a fresh vector.
pub fn value_bytes_vec(v: &FieldValue) -> (r: Vec<u8>)
    ensures
        r@ == spec_value_bytes(v@),
{
    match v {
        FieldValue::Int(i) => {
            let mut out: Vec<u8> = Vec::new();
            crate::digits::push_dec_i64(*i, &mut out);
            proof {
                assert(out@ =~= spec_value_bytes(v@));
            }
            out
        },
        FieldValue::Float(b) => slice_to_vec_u8(b.as_slice()),
        FieldValue::Ch(c) => {
            let mut out: Vec<u8> = Vec::new();
            out.push(*c);
            proof {
                assert(out@ =~= spec_value_bytes(v@));
            }
            out
        },
        FieldValue::Str(b) => slice_to_vec_u8(b.as_slice()),
        FieldValue::Data(b) => slice_to_vec_u8(b.as_slice()),
    }
}

impl Codec {
    /// Serializes a message: its `BeginString(8)` and `MsgType(35)` lead,
    /// its other fields follow in order, and `BodyLength(9)` and
    /// `CheckSum(10)` are computed fresh.
    pub fn encode(&self, message: &Message) -> (r: Result<Vec<u8>, Error>)
        ensures
            match r {
                Ok(out) => spec_encode_message(message@, self.sep) == Ok::<Seq<u8>, Error>(out@),
                Err(e) => spec_encode_message(message@, self.sep) == Err::<Seq<u8>, Error>(e),
            },
    {
        let v8 = match message.get_field(8) {
            Some(v) => v,
            None => {
                return Err(Error::FieldWithoutValue(8));
            },
        };
        let v35 = match message.get_field(35) {
            Some(v) => v,
            None => {
                return Err(Error::FieldWithoutValue(35));
            },
        };
        let ghost v8s = v8@;
        let ghost v35s = v35@;
        let bs = value_bytes_vec(v8);
        let mt = value_bytes_vec(v35);
        let mut h = EncoderHandle::start(bs.as_slice(), mt.as_slice(), self.sep);
        let n = message.fields.len();
        let mut i: usize = 0;
        proof {
            assert(message@.take(0) =~= Seq::<(u32, FieldVal)>::empty());
            assert(seq![(35u32, FieldVal::Str(spec_value_bytes(v35s)))] + spec_keep_body(
                message@.take(0),
            ) =~= seq![(35u32, FieldVal::Str(spec_value_bytes(v35s)))]);
            assert(h.body@ =~= spec_fields_bytes(
                seq![(35u32, FieldVal::Str(spec_value_bytes(v35s)))],
                self.sep,
            )) by {
                reveal_with_fuel(spec_fields_bytes, 3);
                assert(seq![(35u32, FieldVal::Str(spec_value_bytes(v35s)))].drop_last()
                    =~= Seq::<(u32, FieldVal)>::empty());
                assert(Seq::<u8>::empty() + spec_field_bytes(
                    35,
                    FieldVal::Str(spec_value_bytes(v35s)),
                    self.sep,
                ) =~= spec_field_bytes(35, FieldVal::Str(spec_value_bytes(v35s)), self.sep));
            }
        }
        while i < n
            invariant
                i <= n == message@.len(),
                h.wf(),
                h.sep == self.sep,
                h.begin@ == spec_value_bytes(v8s),
                h.body@ == spec_fields_bytes(
                    seq![(35u32, FieldVal::Str(spec_value_bytes(v35s)))] + spec_keep_body(
                        message@.take(i as int),
                    ),
                    self.sep,
                ),
            decreases n - i,
        {
            let tag = message.fields[i].0;
            let ghost prefix = seq![(35u32, FieldVal::Str(spec_value_bytes(v35s)))]
                + spec_keep_body(message@.take(i as int));
            proof {
                assert(message@.take(i + 1).drop_last() =~= message@.take(i as int));
                assert(message@.take(i + 1).last() == message@[i as int]);
            }
            if tag != 8 && tag != 9 && tag != 35 && tag != 10 {
                h.set_value(tag, &message.fields[i].1);
                proof {
                    lemma_fields_bytes_push(prefix, message@[i as int], self.sep);
                    assert(prefix.push(message@[i as int]) =~= seq![
                        (35u32, FieldVal::Str(spec_value_bytes(v35s))),
                    ] + spec_keep_body(message@.take(i + 1)));
                }
            }
            i = i + 1;
        }
        proof {
            assert(message@.take(n as int) =~= message@);
        }
        if h.body_len() >= 1000000 {
            return Err(Error::Syntax);
        }
        Ok(h.done())
    }
}

/// What the framing scan of a partially buffered frame has found.
pub enum HeaderScan {
    /// More bytes are needed before the frame length is known.
    Incomplete,
    /// The buffered prefix can never start a well-formed frame.
    Bad(Error),
    /// The header is complete: the whole frame takes `required` bytes.
    Framed { required: nat },
}

/// Scans `8=<BeginString><SEP>9=<BodyLength><SEP>`; once both are buffered
/// the whole frame takes `body start + BodyLength + 7` bytes, the 7 being
/// the `10=NNN<SEP>` trailer.
pub open spec fn spec_header_scan(s: Seq<u8>, sep: u8) -> HeaderScan {
    if s.len() >= 1 && s[0] != 56 {
        HeaderScan::Bad(Error::InvalidStandardHeader)
    } else if s.len() >= 2 && s[1] != 61 {
        HeaderScan::Bad(Error::InvalidStandardHeader)
    } else {
        match spec_find(s, 2, sep) {
            None => HeaderScan::Incomplete,
            Some(p1) => if p1 + 1 < s.len() && s[p1 + 1] != 57 {
                HeaderScan::Bad(Error::InvalidStandardHeader)
            } else if p1 + 2 < s.len() && s[p1 + 2] != 61 {
                HeaderScan::Bad(Error::InvalidStandardHeader)
            } else if p1 + 3 > s.len() {
                HeaderScan::Incomplete
            } else {
                match spec_find(s, p1 + 3, sep) {
                    None => HeaderScan::Incomplete,
                    Some(p2) => {
                        let bl = s.subrange(p1 + 3, p2);
                        if bl.len() == 0 || bl.len() > 9 || !all_digits(bl) || p2 + 8
                            + digits_val(bl) > usize::MAX {
                            HeaderScan::Bad(Error::Syntax)
                        } else {
                            HeaderScan::Framed { required: (p2 + 1 + digits_val(bl) + 7) as nat }
                        }
                    },
                }
            },
        }
    }
}

/// What feeding the buffered bytes `s` to `try_parse` yields.
pub enum StreamOutcome {
    /// No complete frame is buffered yet.
    NeedsMore,
    /// A complete frame of `frame_len` bytes decoded to these fields.
    Ready(Seq<(u32, FieldVal)>, nat),
    /// The buffered bytes are malformed.
    Bad(Error),
}

/// The streaming decoder's answer as a function of the buffered bytes:
/// with `check` set, a complete frame must also carry a correct trailer
/// checksum.
pub open spec fn spec_stream(s: Seq<u8>, sep: u8, check: bool) -> StreamOutcome {
    match spec_header_scan(s, sep) {
        HeaderScan::Incomplete => StreamOutcome::NeedsMore,
        HeaderScan::Bad(e) => StreamOutcome::Bad(e),
        HeaderScan::Framed { required } => if s.len() < required {
            StreamOutcome::NeedsMore
        } else {
            match spec_decode(s.subrange(0, required as int), sep) {
                Ok(f) => if check {
                    match spec_verify_checksum(s.subrange(0, required as int), sep) {
                        Ok(()) => StreamOutcome::Ready(f, required),
                        Err(e) => StreamOutcome::Bad(e),
                    }
                } else {
                    StreamOutcome::Ready(f, required)
                },
                Err(e) => StreamOutcome::Bad(e),
            }
        },
    }
}

impl Codec {
    /// Scans the buffered header, as [`spec_header_scan`] describes.
    fn header_scan(&self) -> (r: Result<Option<usize>, Error>)
        ensures
            match r {
                Ok(Some(req)) => spec_header_scan(self.buffer@, self.sep) == (HeaderScan::Framed {
                    required: req as nat,
                }),
                Ok(None) => spec_header_scan(self.buffer@, self.sep) == HeaderScan::Incomplete,
                Err(e) => spec_header_scan(self.buffer@, self.sep) == HeaderScan::Bad(e),
            },
    {
        let s = self.buffer.as_slice();
        if s.len() >= 1 && s[0] != 56 {
            return Err(Error::InvalidStandardHeader);
        }
        if s.len() >= 2 && s[1] != 61 {
            return Err(Error::InvalidStandardHeader);
        }
        if s.len() < 2 {
            return Ok(None);
        }
        let p1 = match find_byte(s, 2, self.sep) {
            Some(p) => p,
            None => {
                return Ok(None);
            },
        };
        if p1 + 1 < s.len() && s[p1 + 1] != 57 {
            return Err(Error::InvalidStandardHeader);
        }
        if s.len() - p1 > 2 && s[p1 + 2] != 61 {
            return Err(Error::InvalidStandardHeader);
        }
        if s.len() - p1 < 3 {
            return Ok(None);
        }
        let p2 = match find_byte(s, p1 + 3, self.sep) {
            Some(p) => p,
            None => {
                return Ok(None);
            },
        };
        if p2 - (p1 + 3) == 0 || p2 - (p1 + 3) > 9 {
            return Err(Error::Syntax);
        }
        match parse_u64(s, p1 + 3, p2) {
            None => {
                proof {
                    let bl = s@.subrange(p1 + 3, p2 as int);
                    if all_digits(bl) {
                        lemma_digits_val_bound(bl);
                        reveal_with_fuel(pow10, 10);
                        assert(pow10(9) == 1000000000);
                        crate::digits::lemma_digits_val_prefix_le(bl, bl.len() as int);
                    }
                }
                Err(Error::Syntax)
            },
            Some(bl) => {
                proof {
                    lemma_digits_val_bound(s@.subrange(p1 + 3, p2 as int));
                    reveal_with_fuel(pow10, 10);
                    assert(pow10(9) == 1000000000);
                }
                if p2 > usize::MAX - 8 {
                    return Err(Error::Syntax);
                }
                if bl > (usize::MAX - 8 - p2) as u64 {
                    return Err(Error::Syntax);
                }
                Ok(Some(p2 + 1 + bl as usize + 7))
            },
        }
    }

    /// Commits freshly read bytes onto the streaming buffer.
    pub fn add_bytes_read(&mut self, bytes: &[u8])
        ensures
            final(self).buffer@ == old(self).buffer@ + bytes@,
            final(self).sep == old(self).sep,
            final(self).check_checksum == old(self).check_checksum,
            final(self).state == old(self).state,
            final(self).message@ == old(self).message@,
    {
        push_all(&mut self.buffer, bytes);
    }

    /// How many bytes have been buffered for the frame being read.
    pub fn num_bytes_read(&self) -> (r: usize)
        ensures
            r == self.buffer@.len(),
    {
        self.buffer.len()
    }

    /// How many bytes the frame takes in total, once the header gave it;
    /// before that, one more than what is buffered.
    pub fn num_bytes_required(&self) -> (r: usize)
        ensures
            match self.state {
                DecoderState::NeedHeader => r == self.buffer@.len() + 1 || r == usize::MAX,
                DecoderState::NeedBody { required } => r == required,
                DecoderState::Ready { frame_len } => r == frame_len,
            },
    {
        match self.state {
            DecoderState::NeedHeader => if self.buffer.len() < usize::MAX {
                self.buffer.len() + 1
            } else {
                usize::MAX
            },
            DecoderState::NeedBody { required } => required,
            DecoderState::Ready { frame_len } => frame_len,
        }
    }

    /// A hint for how many bytes to read next: a small amount while the
    /// header is incomplete, the known remainder of the frame after it.
    pub fn fillable_hint(&self) -> (r: usize)
        ensures
            match self.state {
                DecoderState::NeedHeader => r == 50,
                DecoderState::NeedBody { required } => (self.buffer@.len() < required ==> r
                    == required - self.buffer@.len()) && (self.buffer@.len() >= required ==> r
                    == 1),
                DecoderState::Ready { frame_len } => r == 7,
            },
    {
        match self.state {
            DecoderState::NeedHeader => 50,
            DecoderState::NeedBody { required } => if self.buffer.len() < required {
                required - self.buffer.len()
            } else {
                1
            },
            DecoderState::Ready { frame_len } => 7,
        }
    }

    /// Attempts to parse the buffered bytes: `Ok(Some(()))` once a complete
    /// frame is buffered and well formed, `Ok(None)` while bytes are
    /// missing, and the decoding error when the frame is malformed.
    pub fn try_parse(&mut self) -> (r: Result<Option<()>, Error>)
        ensures
            final(self).buffer@ == old(self).buffer@,
            final(self).sep == old(self).sep,
            final(self).check_checksum == old(self).check_checksum,
            match spec_stream(old(self).buffer@, old(self).sep, old(self).check_checksum) {
                StreamOutcome::NeedsMore => r == Ok::<Option<()>, Error>(None)
                    && final(self).message@ == old(self).message@ && !(final(self).state
                    is Ready),
                StreamOutcome::Ready(f, frame_len) => r == Ok::<Option<()>, Error>(Some(()))
                    && final(self).message@ == f && final(self).state == (DecoderState::Ready {
                    frame_len: frame_len as usize,
                }) && final(self).body.data@ == old(self).buffer@.subrange(0, frame_len as int),
                StreamOutcome::Bad(e) => r == Err::<Option<()>, Error>(e) && final(self).state
                    == old(self).state && final(self).message@ == old(self).message@,
            },
    {
        let req = match self.header_scan() {
            Err(e) => {
                return Err(e);
            },
            Ok(None) => {
                self.state = DecoderState::NeedHeader;
                return Ok(None);
            },
            Ok(Some(req)) => req,
        };
        if self.buffer.len() < req {
            self.state = DecoderState::NeedBody { required: req };
            return Ok(None);
        }
        let frame = vstd::slice::slice_subrange(self.buffer.as_slice(), 0, req);
        let parsed = self.decode(frame);
        match parsed {
            Ok(m) => {
                if self.check_checksum {
                    let frame3 = vstd::slice::slice_subrange(self.buffer.as_slice(), 0, req);
                    match self.verify_checksum(frame3) {
                        Ok(()) => {},
                        Err(e) => {
                            return Err(e);
                        },
                    }
                }
                self.message = m;
                let frame2 = vstd::slice::slice_subrange(self.buffer.as_slice(), 0, req);
                self.body = Body::new(frame2);
                self.state = DecoderState::Ready { frame_len: req };
                Ok(Some(()))
            },
            Err(e) => Err(e),
        }
    }

    /// Whether a parsed frame is currently exposed.
    pub fn is_ready(&self) -> (r: bool)
        ensures
            r == (self.state is Ready),
    {
        match self.state {
            DecoderState::Ready { .. } => true,
            _ => false,
        }
    }

    /// The message parsed from the buffered frame; valid until `clear`.
    pub fn message(&self) -> (r: &Message)
        ensures
            r@ == self.message@,
    {
        &self.message
    }

    /// The raw bytes of the parsed frame; valid until `clear`.
    pub fn body(&self) -> (r: &Body)
        ensures
            r == self.body,
    {
        &self.body
    }

    /// Resets the framing state for the next frame, keeping configuration.
    /// Bytes buffered beyond a parsed frame — the start of the next frame,
    /// read in the same chunk — are kept; everything else is discarded,
    /// which leaves the decoder indistinguishable from a fresh one fed
    /// those bytes.
    pub fn clear(&mut self)
        ensures
            final(self).sep == old(self).sep,
            final(self).check_checksum == old(self).check_checksum,
            final(self).state == DecoderState::NeedHeader,
            final(self).message@ == Seq::<(u32, FieldVal)>::empty(),
            final(self).buffer@ == spec_retained(old(self).state, old(self).buffer@),
    {
        match self.state {
            DecoderState::Ready { frame_len } => {
                if frame_len <= self.buffer.len() {
                    let tail = slice_to_vec_u8(
                        vstd::slice::slice_subrange(
                            self.buffer.as_slice(),
                            frame_len,
                            self.buffer.len(),
                        ),
                    );
                    self.buffer = tail;
                } else {
                    self.buffer.clear();
                    proof {
                        assert(self.buffer@ =~= Seq::<u8>::empty());
                    }
                }
            },
            _ => {
                self.buffer.clear();
                proof {
                    assert(self.buffer@ =~= Seq::<u8>::empty());
                }
            },
        }
        self.state = DecoderState::NeedHeader;
        self.message = Message::new();
    }
}

/// What `clear` keeps in the buffer: the bytes past a parsed frame,
/// nothing otherwise.
pub open spec fn spec_retained(state: DecoderState, buf: Seq<u8>) -> Seq<u8> {
    match state {
        DecoderState::Ready { frame_len } => if frame_len <= buf.len() {
            buf.skip(frame_len as int)
        } else {
            Seq::<u8>::empty()
        },
        _ => Seq::<u8>::empty(),
    }
}

/// What verifying a frame's trailer checksum yields: the trailer must be
/// `10=NNN<SEP>` and the three digits must state the sum of everything
/// before the trailer modulo 256.
pub open spec fn spec_verify_checksum(frame: Seq<u8>, sep: u8) -> Result<(), Error> {
    if frame.len() < 7 {
        Err(Error::InvalidStandardTrailer)
    } else {
        let n = frame.len() as int;
        if !(frame[n - 7] == 49 && frame[n - 6] == 48 && frame[n - 5] == 61 && frame[n - 1] == sep
            && all_digits(frame.subrange(n - 4, n - 1))) {
            Err(Error::InvalidStandardTrailer)
        } else {
            let stated = digits_val(frame.subrange(n - 4, n - 1));
            let actual = checksum_of(frame.subrange(0, n - 7));
            if stated == actual {
                Ok(())
            } else {
                Err(
                    Error::InvalidChecksum(
                        InvalidChecksum { expected: actual as u8, actual: (stated % 256) as u8 },
                    ),
                )
            }
        }
    }
}

impl Codec {
    /// Verifies the `CheckSum(10)` trailer of a complete frame: the three
    /// digits must state the modulo-256 sum of every byte before `10=`.
    pub fn verify_checksum(&self, frame: &[u8]) -> (r: Result<(), Error>)
        ensures
            r == spec_verify_checksum(frame@, self.sep),
    {
        let n = frame.len();
        if n < 7 {
            return Err(Error::InvalidStandardTrailer);
        }
        if !(frame[n - 7] == 49 && frame[n - 6] == 48 && frame[n - 5] == 61 && frame[n - 1]
            == self.sep) {
            return Err(Error::InvalidStandardTrailer);
        }
        let stated = match parse_u64(frame, n - 4, n - 1) {
            Some(v) => v,
            None => {
                proof {
                    let digits = frame@.subrange(n - 4, n as int - 1);
                    if all_digits(digits) {
                        lemma_digits_val_bound(digits);
                        reveal_with_fuel(pow10, 4);
                        assert(pow10(3) == 1000);
                    }
                }
                return Err(Error::InvalidStandardTrailer);
            },
        };
        let mut algo: ChecksumAlgoStd = ChecksumAlgo::fresh();
        let window = vstd::slice::slice_subrange(frame, 0, n - 7);
        algo.roll(window);
        let actual = algo.result();
        proof {
            assert(Seq::<u8>::empty() + frame@.subrange(0, n - 7) =~= frame@.subrange(0, n - 7));
        }
        if stated == actual as u64 {
            proof {
                assert(stated == checksum_of(frame@.subrange(0, n as int - 7)));
            }
            Ok(())
        } else {
            Err(
                Error::InvalidChecksum(
                    InvalidChecksum { expected: actual, actual: (stated % 256) as u8 },
                ),
            )
        }
    }
}

/// An all-digit string of width `w` is worth less than ten to the `w`.
pub proof fn lemma_digits_val_bound(s: Seq<u8>)
    requires
        all_digits(s),
    ensures
        digits_val(s) < pow10(s.len()),
    decreases s.len(),
{
    if s.len() > 0 {
        assert forall|i: int| 0 <= i < s.drop_last().len() implies is_digit(
            #[trigger] s.drop_last()[i],
        ) by {
            assert(s.drop_last()[i] == s[i]);
        }
        lemma_digits_val_bound(s.drop_last());
        assert(is_digit(s.last()));
        assert(digits_val(s) == digits_val(s.drop_last()) * 10 + (s.last() - 48));
    }
}

/// A fresh copy of a byte slice.
pub fn slice_to_vec_u8(s: &[u8]) -> (r: Vec<u8>)
    ensures
        r@ == s@,
{
    let mut v: Vec<u8> = Vec::new();
    push_all(&mut v, s);
    proof {
        assert(v@ =~= s@);
    }
    v
}

/// Whether every byte of `s[from..to]` is an ASCII digit.
pub fn check_all_digits(s: &[u8], from: usize, to: usize) -> (r: bool)
    requires
        from <= to <= s@.len(),
    ensures
        r == all_digits(s@.subrange(from as int, to as int)),
{
    let mut i: usize = from;
    while i < to
        invariant
            from <= i <= to <= s@.len(),
            forall|k: int| from <= k < i ==> is_digit(#[trigger] s@[k]),
        decreases to - i,
    {
        if s[i] < 48 || s[i] > 57 {
            proof {
                assert(s@.subrange(from as int, to as int)[i - from] == s@[i as int]);
            }
            return false;
        }
        i = i + 1;
    }
    proof {
        assert forall|k: int| 0 <= k < to - from implies is_digit(
            #[trigger] s@.subrange(from as int, to as int)[k],
        ) by {
            assert(s@.subrange(from as int, to as int)[k] == s@[k + from]);
        }
    }
    true
}

} // verus!
