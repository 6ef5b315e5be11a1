//! Field values and the field map of a decoded or to-be-encoded message,
//! together with the wire form of a single `tag=value<SEP>` pair.

use vstd::prelude::*;
use vstd::utf8::valid_utf8;
use crate::dictionary::TypeInfo;
use crate::digits::{
    all_digits,
    check_decimal,
    dec_int,
    dec_nat,
    digits_val,
    int_text_val,
    is_decimal_text,
    is_int_text,
    parse_u64,
    push_dec_i64,
    push_dec_u64,
};

verus! {

/// The mathematical model of a field value.
pub enum FieldVal {
    Int(int),
    Float(Seq<u8>),
    Ch(u8),
    Str(Seq<u8>),
    Data(Seq<u8>),
}

/// A base-typed field value: signed integer, decimal text (kept in its exact
/// lexical form), single character, UTF-8 text, or opaque bytes.
#[derive(Debug, Clone, PartialEq)]
pub enum FieldValue {
    Int(i64),
    Float(Vec<u8>),
    Ch(u8),
    Str(Vec<u8>),
    Data(Vec<u8>),
}

impl View for FieldValue {
    type V = FieldVal;

    open spec fn view(&self) -> FieldVal {
        match self {
            FieldValue::Int(i) => FieldVal::Int(*i as int),
            FieldValue::Float(v) => FieldVal::Float(v@),
            FieldValue::Ch(c) => FieldVal::Ch(*c),
            FieldValue::Str(v) => FieldVal::Str(v@),
            FieldValue::Data(v) => FieldVal::Data(v@),
        }
    }
}

/// The bytes a value occupies on the wire, between `=` and the separator.
pub open spec fn spec_value_bytes(v: FieldVal) -> Seq<u8> {
    match v {
        FieldVal::Int(i) => dec_int(i),
        FieldVal::Float(s) => s,
        FieldVal::Ch(c) => seq![c],
        FieldVal::Str(s) => s,
        FieldVal::Data(s) => s,
    }
}

/// The wire form of one field: `tag=value<SEP>`.
pub open spec fn spec_field_bytes(tag: u32, v: FieldVal, sep: u8) -> Seq<u8> {
    dec_nat(tag as nat) + seq![61u8] + spec_value_bytes(v) + seq![sep]
}

/// A message as a field map: the fields in wire order, possibly with
/// repeated tags (repeating groups keep every entry).
#[derive(Debug, Clone, PartialEq)]
pub struct Message {
    pub fields: Vec<(u32, FieldValue)>,
}

impl View for Message {
    type V = Seq<(u32, FieldVal)>;

    open spec fn view(&self) -> Seq<(u32, FieldVal)> {
        Seq::new(self.fields@.len(), |i: int| (self.fields@[i].0, self.fields@[i].1@))
    }
}

/// The value of the first field with the given tag, if any.
pub open spec fn spec_get(fields: Seq<(u32, FieldVal)>, tag: u32) -> Option<FieldVal>
    decreases fields.len(),
{
    if fields.len() == 0 {
        None
    } else if fields[0].0 == tag {
        Some(fields[0].1)
    } else {
        spec_get(fields.skip(1), tag)
    }
}

impl Message {
    /// An empty field map.
    pub fn new() -> (r: Message)
        ensures
            r@ == Seq::<(u32, FieldVal)>::empty(),
    {
        let r = Message { fields: Vec::new() };
        proof {
            assert(r@ =~= Seq::<(u32, FieldVal)>::empty());
        }
        r
    }

    /// Appends a field; an already present tag keeps its earlier entries.
    pub fn set_field(&mut self, tag: u32, value: FieldValue)
        ensures
            final(self)@ == old(self)@.push((tag, value@)),
    {
        self.fields.push((tag, value));
        proof {
            assert(self@ =~= old(self)@.push((tag, value@)));
        }
    }

    /// The value of the first field with tag `tag`, if any.
    pub fn get_field(&self, tag: u32) -> (r: Option<&FieldValue>)
        ensures
            match r {
                Some(v) => spec_get(self@, tag) == Some(v@),
                None => spec_get(self@, tag) is None,
            },
    {
        let n = self.fields.len();
        let mut i: usize = 0;
        proof {
            assert(self@.skip(0) =~= self@);
        }
        while i < n
            invariant
                i <= n == self.fields@.len(),
                spec_get(self@, tag) == spec_get(self@.skip(i as int), tag),
                forall|j: int| 0 <= j < i ==> self@[j].0 != tag,
            decreases n - i,
        {
            proof {
                assert(self@.skip(i as int)[0] == self@[i as int]);
                assert(self@.skip(i as int).skip(1) =~= self@.skip(i + 1));
            }
            if self.fields[i].0 == tag {
                return Some(&self.fields[i].1);
            }
            i = i + 1;
        }
        None
    }

    /// How many fields the message holds.
    pub fn len(&self) -> (r: usize)
        ensures
            r == self@.len(),
    {
        self.fields.len()
    }
}

/// The wire bytes of the first field with the given tag, if any.
pub open spec fn spec_get_raw(fields: Seq<(u32, FieldVal)>, tag: u32) -> Option<Seq<u8>> {
    match spec_get(fields, tag) {
        Some(v) => Some(spec_value_bytes(v)),
        None => None,
    }
}

/// The first field with the given tag read as an unsigned integer, if it is
/// one: an `Int` value in range, or a digit string.
pub open spec fn spec_get_u64(fields: Seq<(u32, FieldVal)>, tag: u32) -> Option<u64> {
    match spec_get(fields, tag) {
        Some(FieldVal::Int(i)) => if 0 <= i <= u64::MAX {
            Some(i as u64)
        } else {
            None
        },
        Some(FieldVal::Str(s)) => if s.len() >= 1 && all_digits(s) && digits_val(s) <= u64::MAX {
            Some(digits_val(s) as u64)
        } else {
            None
        },
        _ => None,
    }
}

impl Message {
    /// A fresh copy with the same fields.
    pub fn duplicate(&self) -> (r: Message)
        ensures
            r@ == self@,
    {
        let n = self.fields.len();
        let mut out = Message::new();
        let mut i: usize = 0;
        while i < n
            invariant
                i <= n == self@.len(),
                out@ == self@.take(i as int),
            decreases n - i,
        {
            let v = duplicate_value(&self.fields[i].1);
            out.set_field(self.fields[i].0, v);
            proof {
                assert(self@.take(i + 1) =~= self@.take(i as int).push(self@[i as int]));
            }
            i = i + 1;
        }
        proof {
            assert(self@.take(n as int) =~= self@);
        }
        out
    }

    /// The wire bytes of the first field with the given tag, if any.
    pub fn get_raw(&self, tag: u32) -> (r: Option<Vec<u8>>)
        ensures
            match r {
                Some(b) => spec_get_raw(self@, tag) == Some(b@),
                None => spec_get_raw(self@, tag) is None,
            },
    {
        match self.get_field(tag) {
            Some(v) => Some(value_to_bytes(v)),
            None => None,
        }
    }

    /// The first field with the given tag read as an unsigned integer.
    pub fn get_u64_field(&self, tag: u32) -> (r: Option<u64>)
        ensures
            r == spec_get_u64(self@, tag),
    {
        match self.get_field(tag) {
            Some(FieldValue::Int(i)) => {
                let i = *i;
                if i >= 0 {
                    Some(i as u64)
                } else {
                    None
                }
            },
            Some(FieldValue::Str(s)) => {
                proof {
                    assert(s@.subrange(0, s@.len() as int) =~= s@);
                }
                parse_u64(s.as_slice(), 0, s.len())
            },
            _ => None,
        }
    }
}

/// A fresh copy of a field value.
pub fn duplicate_value(v: &FieldValue) -> (r: FieldValue)
    ensures
        r@ == v@,
{
    match v {
        FieldValue::Int(i) => FieldValue::Int(*i),
        FieldValue::Float(b) => FieldValue::Float(copy_bytes(b.as_slice())),
        FieldValue::Ch(c) => FieldValue::Ch(*c),
        FieldValue::Str(b) => FieldValue::Str(copy_bytes(b.as_slice())),
        FieldValue::Data(b) => FieldValue::Data(copy_bytes(b.as_slice())),
    }
}

/// The wire bytes of a field value, between `=` and the separator.
pub fn value_to_bytes(v: &FieldValue) -> (r: Vec<u8>)
    ensures
        r@ == spec_value_bytes(v@),
{
    match v {
        FieldValue::Int(i) => {
            let mut out: Vec<u8> = Vec::new();
            push_dec_i64(*i, &mut out);
            proof {
                assert(out@ =~= spec_value_bytes(v@));
            }
            out
        },
        FieldValue::Float(b) => copy_bytes(b.as_slice()),
        FieldValue::Ch(c) => {
            let mut out: Vec<u8> = Vec::new();
            out.push(*c);
            proof {
                assert(out@ =~= spec_value_bytes(v@));
            }
            out
        },
        FieldValue::Str(b) => copy_bytes(b.as_slice()),
        FieldValue::Data(b) => copy_bytes(b.as_slice()),
    }
}

/// A fresh copy of a byte slice.
pub fn copy_bytes(s: &[u8]) -> (r: Vec<u8>)
    ensures
        r@ == s@,
{
    let mut v: Vec<u8> = Vec::new();
    push_all(&mut v, s);
    proof {
        assert(v@ =~= s@);
    }
    v
}

/// Appends all of `bytes` to `out`.
pub fn push_all(out: &mut Vec<u8>, bytes: &[u8])
    ensures
        final(out)@ == old(out)@ + bytes@,
{
    out.extend_from_slice(bytes);
    proof {
        assert(out@ =~= old(out)@ + bytes@);
    }
}

/// Serializes one `tag=value<SEP>` pair onto `out` and returns how many
/// bytes it wrote.
pub fn encode_field(tag: u32, value: &FieldValue, out: &mut Vec<u8>, sep: u8) -> (n: usize)
    ensures
        final(out)@ == old(out)@ + spec_field_bytes(tag, value@, sep),
        n == spec_field_bytes(tag, value@, sep).len(),
{
    let start = out.len();
    push_dec_u64(tag as u64, out);
    out.push(61);
    match value {
        FieldValue::Int(i) => push_dec_i64(*i, out),
        FieldValue::Float(v) => push_all(out, v.as_slice()),
        FieldValue::Ch(c) => out.push(*c),
        FieldValue::Str(v) => push_all(out, v.as_slice()),
        FieldValue::Data(v) => push_all(out, v.as_slice()),
    }
    out.push(sep);
    proof {
        assert(out@ =~= old(out)@ + spec_field_bytes(tag, value@, sep));
    }
    out.len() - start
}

/// What a raw value means when read at a base type, when it is well formed:
/// integers must be integer literals in range, characters exactly one byte.
pub open spec fn spec_typed_value(t: TypeInfo, raw: Seq<u8>) -> Option<FieldVal> {
    match t {
        TypeInfo::Int => if is_int_text(raw) && i64::MIN <= int_text_val(raw) <= i64::MAX {
            Some(FieldVal::Int(int_text_val(raw)))
        } else {
            None
        },
        TypeInfo::Float => if is_decimal_text(raw) {
            Some(FieldVal::Float(raw))
        } else {
            None
        },
        TypeInfo::Ch => if raw.len() == 1 {
            Some(FieldVal::Ch(raw[0]))
        } else {
            None
        },
        TypeInfo::Str => if valid_utf8(raw) {
            Some(FieldVal::Str(raw))
        } else {
            None
        },
        TypeInfo::Data(_) => Some(FieldVal::Data(raw)),
    }
}

/// Whether `s` is a well-formed UTF-8 encoding, scalar by scalar: a
/// leading byte, its continuation bytes, no overlong encoding, and no
/// surrogate codepoint.
pub fn check_utf8(s: &[u8]) -> (r: bool)
    ensures
        r == valid_utf8(s@),
{
    let n = s.len();
    let mut i: usize = 0;
    proof {
        assert(s@.skip(0) =~= s@);
    }
    while i < n
        invariant
            i <= n == s@.len(),
            valid_utf8(s@) == valid_utf8(s@.skip(i as int)),
        decreases n - i,
    {
        let ghost t = s@.skip(i as int);
        proof {
            assert(t.len() == n - i);
            assert forall|k: int| 0 <= k < t.len() implies t[k] == s@[i + k] by {
                assert(s@.skip(i as int)[k] == s@[i + k]);
            }
        }
        let b0 = s[i];
        let width: usize;
        let cp: u32;
        if b0 <= 0x7f {
            width = 1;
            cp = (b0 & 0x7F) as u32;
        } else if 0xc0 <= b0 && b0 <= 0xdf {
            if n - i < 2 || !(0x80 <= s[i + 1] && s[i + 1] <= 0xbf) {
                return false;
            }
            width = 2;
            cp = (((b0 & 0x1F) as u32) << 6u32) | ((s[i + 1] & 0x3f) as u32);
        } else if 0xe0 <= b0 && b0 <= 0xef {
            if n - i < 3 || !(0x80 <= s[i + 1] && s[i + 1] <= 0xbf) || !(0x80 <= s[i + 2] && s[i
                + 2] <= 0xbf) {
                return false;
            }
            width = 3;
            cp = (((b0 & 0x0F) as u32) << 12u32) | (((s[i + 1] & 0x3f) as u32) << 6u32) | ((s[i
                + 2] & 0x3f) as u32);
        } else if 0xf0 <= b0 && b0 <= 0xf7 {
            if n - i < 4 || !(0x80 <= s[i + 1] && s[i + 1] <= 0xbf) || !(0x80 <= s[i + 2] && s[i
                + 2] <= 0xbf) || !(0x80 <= s[i + 3] && s[i + 3] <= 0xbf) {
                return false;
            }
            width = 4;
            cp = (((b0 & 0x07) as u32) << 18u32) | (((s[i + 1] & 0x3f) as u32) << 12u32) | (((s[i
                + 2] & 0x3f) as u32) << 6u32) | ((s[i + 3] & 0x3f) as u32);
        } else {
            return false;
        }
        let ok = (width != 2 || cp >= 0x80) && (width != 3 || cp >= 0x800) && (width != 4 || (
        0x10000 <= cp && cp <= 0x10ffff)) && !(0xd800 <= cp && cp <= 0xdfff);
        if !ok {
            return false;
        }
        proof {
            assert(vstd::utf8::valid_first_scalar(t));
            assert(vstd::utf8::length_of_first_scalar(t) == width);
            assert(vstd::utf8::pop_first_scalar(t) =~= s@.skip(i + width));
        }
        i = i + width;
    }
    proof {
        assert(s@.skip(n as int) =~= Seq::<u8>::empty());
    }
    true
}

/// Reads the raw bytes of a value at the base type `t`; `None` is a syntax
/// error (a malformed integer, or a character value that is not one byte).
pub fn field_value(t: TypeInfo, buf: &[u8]) -> (r: Option<FieldValue>)
    ensures
        match r {
            Some(v) => spec_typed_value(t, buf@) == Some(v@),
            None => spec_typed_value(t, buf@) is None,
        },
{
    match t {
        TypeInfo::Int => {
            if buf.len() > 0 && buf[0] == 45 {
                match parse_u64(buf, 1, buf.len()) {
                    Some(m) => {
                        proof {
                            assert(buf@.skip(1) =~= buf@.subrange(1, buf@.len() as int));
                        }
                        if m <= 9223372036854775808u64 {
                            let v: i64 = if m == 0 {
                                0i64
                            } else {
                                (-((m - 1) as i64)) - 1
                            };
                            Some(FieldValue::Int(v))
                        } else {
                            None
                        }
                    },
                    None => None,
                }
            } else {
                proof {
                    assert(buf@.subrange(0, buf@.len() as int) =~= buf@);
                }
                match parse_u64(buf, 0, buf.len()) {
                    Some(m) => {
                        if m <= i64::MAX as u64 {
                            Some(FieldValue::Int(m as i64))
                        } else {
                            None
                        }
                    },
                    None => None,
                }
            }
        },
        TypeInfo::Float => {
            let from: usize = if buf.len() > 0 && buf[0] == 45 {
                1
            } else {
                0
            };
            let ok = check_decimal(buf, from);
            proof {
                assert(buf@.skip(0) =~= buf@);
            }
            if !ok {
                return None;
            }
            let mut v: Vec<u8> = Vec::new();
            push_all(&mut v, buf);
            proof {
                assert(v@ =~= buf@);
            }
            Some(FieldValue::Float(v))
        },
        TypeInfo::Ch => {
            if buf.len() == 1 {
                Some(FieldValue::Ch(buf[0]))
            } else {
                None
            }
        },
        TypeInfo::Str => {
            if !check_utf8(buf) {
                return None;
            }
            let mut v: Vec<u8> = Vec::new();
            push_all(&mut v, buf);
            proof {
                assert(v@ =~= buf@);
            }
            Some(FieldValue::Str(v))
        },
        TypeInfo::Data(_) => {
            let mut v: Vec<u8> = Vec::new();
            push_all(&mut v, buf);
            proof {
                assert(v@ =~= buf@);
            }
            Some(FieldValue::Data(v))
        },
    }
}

} // verus!
