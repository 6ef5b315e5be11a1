//! The laws the codec obeys: an encoded frame decodes back to its field
//! map, the stated `BodyLength(9)` counts exactly the body bytes, and a
//! cleared streaming decoder is indistinguishable from a fresh one.

use vstd::prelude::*;
use crate::checksum::checksum_of;
use crate::codec::{
    Codec,
    FieldStep,
    lemma_fields_bytes_push,
    lemma_zpad,
    pow10,
    spec_decode,
    spec_encoded,
    spec_encoded_bytes,
    spec_field_step,
    spec_encode_message,
    spec_fields_bytes,
    spec_find,
    spec_head,
    spec_keep_body,
    spec_next_data_len,
    spec_parse_rest,
    spec_stream,
    valid_sep,
    zpad,
};
use crate::dictionary::{spec_base_type, spec_predetermined_lookup, TypeInfo};
use crate::digits::{
    dec_nat,
    digits_val,
    is_digit,
    lemma_dec_nat_digits,
    lemma_digits_val_dec_nat,
};
use crate::message::{FieldVal, spec_field_bytes, spec_get, spec_typed_value, spec_value_bytes};

verus! {

/// Every byte of a window laid over `s` reads back from `s`.
proof fn lemma_window_index(s: Seq<u8>, from: int, w: Seq<u8>)
    requires
        0 <= from,
        from + w.len() <= s.len(),
        s.subrange(from, from + w.len()) == w,
    ensures
        forall|k: int| 0 <= k < w.len() ==> s[from + k] == w[k],
{
    assert forall|k: int| 0 <= k < w.len() implies s[from + k] == w[k] by {
        assert(s.subrange(from, from + w.len())[k] == s[from + k]);
    }
}

/// A tail that equals a concatenation splits into the two windows.
proof fn lemma_tail_decompose(s: Seq<u8>, from: int, a: Seq<u8>, b: Seq<u8>)
    requires
        0 <= from <= s.len(),
        s.subrange(from, s.len() as int) == a + b,
    ensures
        s.len() - from == a.len() + b.len(),
        s.subrange(from, from + a.len()) == a,
        s.subrange(from + a.len(), s.len() as int) == b,
{
    assert(s.subrange(from, s.len() as int).len() == a.len() + b.len());
    assert forall|i: int| 0 <= i < a.len() implies s.subrange(from, from + a.len())[i]
        == a[i] by {
        assert(s.subrange(from, from + a.len())[i] == s[from + i]);
        assert(s.subrange(from, s.len() as int)[i] == s[from + i]);
        assert((a + b)[i] == a[i]);
    }
    assert(s.subrange(from, from + a.len()) =~= a);
    assert forall|i: int| 0 <= i < b.len() implies s.subrange(
        from + a.len(),
        s.len() as int,
    )[i] == b[i] by {
        assert(s.subrange(from + a.len(), s.len() as int)[i] == s[from + a.len() + i]);
        assert(s.subrange(from, s.len() as int)[a.len() + i] == s[from + a.len() + i]);
        assert((a + b)[a.len() + i] == b[i]);
    }
    assert(s.subrange(from + a.len(), s.len() as int) =~= b);
}

/// `b` occurs at `p` and nowhere earlier: the scan finds it there.
proof fn lemma_find_at(s: Seq<u8>, from: int, b: u8, p: int)
    requires
        0 <= from <= p < s.len(),
        s[p] == b,
        forall|k: int| from <= k < p ==> s[k] != b,
    ensures
        spec_find(s, from, b) == Some(p),
    decreases p - from,
{
    if from < p {
        lemma_find_at(s, from + 1, b, p);
    }
}

/// Rendering a field list splits at its first field.
proof fn lemma_fields_bytes_first(fields: Seq<(u32, FieldVal)>, sep: u8)
    requires
        fields.len() >= 1,
    ensures
        spec_fields_bytes(fields, sep) == spec_field_bytes(fields[0].0, fields[0].1, sep)
            + spec_fields_bytes(fields.skip(1), sep),
    decreases fields.len(),
{
    if fields.len() == 1 {
        assert(fields.drop_last() =~= Seq::<(u32, FieldVal)>::empty());
        assert(fields.skip(1) =~= Seq::<(u32, FieldVal)>::empty());
        assert(fields.last() == fields[0]);
        assert(spec_field_bytes(fields[0].0, fields[0].1, sep) + spec_fields_bytes(
            fields.skip(1),
            sep,
        ) =~= Seq::<u8>::empty() + spec_field_bytes(fields[0].0, fields[0].1, sep));
    } else {
        lemma_fields_bytes_first(fields.drop_last(), sep);
        assert(fields.drop_last()[0] == fields[0]);
        assert(fields.drop_last().skip(1) =~= fields.skip(1).drop_last());
        assert(fields.skip(1).last() == fields.last());
        lemma_fields_bytes_push(fields.skip(1).drop_last(), fields.last(), sep);
        assert(fields.skip(1).drop_last().push(fields.last()) =~= fields.skip(1));
        assert(spec_field_bytes(fields[0].0, fields[0].1, sep) + (spec_fields_bytes(
            fields.skip(1).drop_last(),
            sep,
        ) + spec_field_bytes(fields.last().0, fields.last().1, sep)) =~= (spec_field_bytes(
            fields[0].0,
            fields[0].1,
            sep,
        ) + spec_fields_bytes(fields.drop_last().skip(1), sep)) + spec_field_bytes(
            fields.last().0,
            fields.last().1,
            sep,
        ));
    }
}

/// No separator byte anywhere in `b`.
pub open spec fn no_sep(b: Seq<u8>, sep: u8) -> bool {
    forall|i: int| 0 <= i < b.len() ==> b[i] != sep
}

/// What a decoded field holds once its raw bytes are read back at the
/// tag's base type.
pub open spec fn interp(tag: u32, v: FieldVal) -> FieldVal {
    spec_typed_value(spec_base_type(tag), spec_value_bytes(v)).unwrap()
}

/// The decoded view of a field list: each value read back at its tag's
/// base type.
pub open spec fn interp_fields(fields: Seq<(u32, FieldVal)>) -> Seq<(u32, FieldVal)> {
    Seq::new(fields.len(), |i: int| (fields[i].0, interp(fields[i].0, fields[i].1)))
}

/// A field that scans back as itself: a nonzero tag the predetermined
/// lookup accepts at a non-`Data` base type, a value free of separators
/// that reads back at that type.  The trailer tag `10` is the decoder's
/// stop mark and cannot stand in a body.
pub open spec fn wf_body_field(tag: u32, v: FieldVal, sep: u8) -> bool {
    &&& 1 <= tag
    &&& tag != 10
    &&& spec_predetermined_lookup(tag) == Ok::<TypeInfo, crate::dictionary::TagLookupPredeterminedError>(
        spec_base_type(tag),
    )
    &&& !(spec_base_type(tag) is Data)
    &&& no_sep(spec_value_bytes(v), sep)
    &&& spec_typed_value(spec_base_type(tag), spec_value_bytes(v)) is Some
}

pub open spec fn wf_body_fields(fields: Seq<(u32, FieldVal)>, sep: u8) -> bool {
    forall|i: int|
        0 <= i < fields.len() ==> wf_body_field(#[trigger] fields[i].0, fields[i].1, sep)
}

/// Like [`wf_body_field`], but for a `Data` typed field, whose value may
/// hold separators: the scanner reads it back only when the running
/// `data_len` — the most recent integer field value — equals its length.
pub open spec fn wf_data_field(tag: u32, v: FieldVal, data_len: nat) -> bool {
    &&& 1 <= tag
    &&& tag != 10
    &&& spec_predetermined_lookup(tag) == Ok::<TypeInfo, crate::dictionary::TagLookupPredeterminedError>(
        spec_base_type(tag),
    )
    &&& spec_value_bytes(v).len() == data_len
}

/// Fields that scan back as themselves under the running `data_len`: a
/// `Data` field needs the length announced just before it, every other
/// field needs a separator-free, well-typed value.
pub open spec fn wf_body_fields_chain(fields: Seq<(u32, FieldVal)>, sep: u8, data_len: nat) -> bool
    decreases fields.len(),
{
    if fields.len() == 0 {
        true
    } else {
        let tag = fields[0].0;
        let v = fields[0].1;
        &&& if spec_base_type(tag) is Data {
            wf_data_field(tag, v, data_len)
        } else {
            wf_body_field(tag, v, sep)
        }
        &&& wf_body_fields_chain(
            fields.skip(1),
            sep,
            spec_next_data_len(interp(tag, v), data_len),
        )
    }
}

/// A field list without `Data` fields is chain-well-formed at any running
/// `data_len`.
pub proof fn lemma_wf_fields_chain(fields: Seq<(u32, FieldVal)>, sep: u8, data_len: nat)
    requires
        wf_body_fields(fields, sep),
    ensures
        wf_body_fields_chain(fields, sep, data_len),
    decreases fields.len(),
{
    if fields.len() > 0 {
        assert(wf_body_field(fields[0].0, fields[0].1, sep));
        assert forall|i: int| 0 <= i < fields.skip(1).len() implies wf_body_field(
            #[trigger] fields.skip(1)[i].0,
            fields.skip(1)[i].1,
            sep,
        ) by {
            assert(fields.skip(1)[i] == fields[i + 1]);
            assert(wf_body_field(fields[i + 1].0, fields[i + 1].1, sep));
        }
        lemma_wf_fields_chain(
            fields.skip(1),
            sep,
            spec_next_data_len(interp(fields[0].0, fields[0].1), data_len),
        );
    }
}

/// A value whose variant agrees with its tag's base type and is well
/// formed there: integers in the machine range, decimal text for floats,
/// one character, text, or raw bytes.
pub open spec fn value_matches_type(tag: u32, v: FieldVal) -> bool {
    match spec_base_type(tag) {
        TypeInfo::Int => v matches FieldVal::Int(i) && i64::MIN <= i <= i64::MAX,
        TypeInfo::Float => v matches FieldVal::Float(s)
            && crate::digits::is_decimal_text(s),
        TypeInfo::Ch => v is Ch,
        TypeInfo::Str => v matches FieldVal::Str(s) && vstd::utf8::valid_utf8(s),
        TypeInfo::Data(_) => v is Data,
    }
}

/// Reading a well-typed value back at its tag's base type gives the value
/// itself: in particular an integer rendered in decimal reads back as the
/// same integer.
pub proof fn lemma_interp_identity(tag: u32, v: FieldVal)
    requires
        value_matches_type(tag, v),
    ensures
        interp(tag, v) == v,
{
    match v {
        FieldVal::Int(i) => {
            crate::digits::lemma_int_text_dec_int(i);
        },
        _ => {},
    }
}

/// On a list of well-typed fields the decoded view is the list itself:
/// `decode(encode(m))` returns exactly `m`'s fields between the computed
/// header and trailer.
pub proof fn lemma_interp_fields_identity(fields: Seq<(u32, FieldVal)>)
    requires
        forall|i: int|
            0 <= i < fields.len() ==> value_matches_type(
                #[trigger] fields[i].0,
                fields[i].1,
            ),
    ensures
        interp_fields(fields) == fields,
{
    assert forall|i: int| 0 <= i < fields.len() implies interp_fields(fields)[i]
        == fields[i] by {
        lemma_interp_identity(fields[i].0, fields[i].1);
    }
    assert(interp_fields(fields) =~= fields);
}

/// ASCII bytes are valid UTF-8: each is a one-byte scalar below the
/// surrogate range.
proof fn lemma_ascii_valid_utf8(s: Seq<u8>)
    requires
        forall|i: int| 0 <= i < s.len() ==> s[i] < 0x80,
    ensures
        vstd::utf8::valid_utf8(s),
    decreases s.len(),
{
    if s.len() > 0 {
        let b0 = s[0];
        assert((b0 & 0x7f) < 0xd800) by (bit_vector);
        assert(vstd::utf8::valid_first_scalar(s));
        assert(vstd::utf8::length_of_first_scalar(s) == 1);
        assert(vstd::utf8::pop_first_scalar(s) =~= s.skip(1));
        assert forall|i: int| 0 <= i < s.skip(1).len() implies s.skip(1)[i] < 0x80 by {
            assert(s.skip(1)[i] == s[i + 1]);
        }
        lemma_ascii_valid_utf8(s.skip(1));
    }
}

/// The `CheckSum(10)` trailer stating `ck`.
pub open spec fn trailer(ck: nat, sep: u8) -> Seq<u8> {
    seq![49u8, 48u8, 61u8] + zpad(ck, 3) + seq![sep]
}

/// Scanning at an encoded field yields exactly that field.
proof fn lemma_scan_encoded_field(
    s: Seq<u8>,
    from: int,
    sep: u8,
    data_len: nat,
    tag: u32,
    v: FieldVal,
)
    requires
        valid_sep(sep),
        0 <= from,
        from + spec_field_bytes(tag, v, sep).len() <= s.len(),
        s.subrange(from, from + spec_field_bytes(tag, v, sep).len()) == spec_field_bytes(
            tag,
            v,
            sep,
        ),
        1 <= tag,
        spec_predetermined_lookup(tag) == Ok::<
            TypeInfo,
            crate::dictionary::TagLookupPredeterminedError,
        >(spec_base_type(tag)),
        !(spec_base_type(tag) is Data),
        no_sep(spec_value_bytes(v), sep),
    ensures
        spec_field_step(s, from, sep, data_len) == FieldStep::Next(
            tag,
            spec_base_type(tag),
            spec_value_bytes(v),
            from + spec_field_bytes(tag, v, sep).len(),
        ),
{
    let fb = spec_field_bytes(tag, v, sep);
    let d = dec_nat(tag as nat);
    let vb = spec_value_bytes(v);
    lemma_dec_nat_digits(tag as nat);
    lemma_digits_val_dec_nat(tag as nat);
    lemma_window_index(s, from, fb);
    let e = from + d.len();
    assert forall|k: int| from <= k < e implies s[k] != 61 by {
        assert(s[k] == fb[k - from]);
        assert(fb[k - from] == d[k - from]);
        assert(is_digit(d[k - from]));
    }
    assert(s[e] == fb[d.len() as int]);
    assert(fb[d.len() as int] == 61);
    lemma_find_at(s, from, 61, e);
    let tagtext = s.subrange(from, e);
    assert(tagtext =~= d);
    let vstart = e + 1;
    let p = vstart + vb.len();
    assert forall|k: int| vstart <= k < p implies s[k] != sep by {
        assert(s[k] == fb[k - from]);
        assert(fb[k - from] == vb[k - vstart]);
    }
    assert(s[p] == fb[p - from]);
    assert(fb[p - from] == sep);
    lemma_find_at(s, vstart, sep, p);
    assert forall|i: int| 0 <= i < vb.len() implies s.subrange(vstart, p)[i] == vb[i] by {
        assert(s.subrange(vstart, p)[i] == s[vstart + i]);
        assert(s[vstart + i] == fb[d.len() + 1 + i]);
        assert(fb[d.len() + 1 + i] == vb[i]);
    }
    assert(s.subrange(vstart, p) =~= vb);
    assert(tagtext.len() >= 1);
    assert(digits_val(tagtext) == tag);
    assert(spec_find(s, from, 61) == Some(e));
    assert(from < s.len());
}

/// Scanning at an encoded `Data` field whose announced length matches
/// yields exactly that field; the value may hold separators, since the
/// scanner takes the announced count of bytes verbatim.
proof fn lemma_scan_encoded_data_field(
    s: Seq<u8>,
    from: int,
    sep: u8,
    data_len: nat,
    tag: u32,
    v: FieldVal,
)
    requires
        valid_sep(sep),
        0 <= from,
        from + spec_field_bytes(tag, v, sep).len() <= s.len(),
        s.subrange(from, from + spec_field_bytes(tag, v, sep).len()) == spec_field_bytes(
            tag,
            v,
            sep,
        ),
        1 <= tag,
        spec_predetermined_lookup(tag) == Ok::<
            TypeInfo,
            crate::dictionary::TagLookupPredeterminedError,
        >(spec_base_type(tag)),
        spec_base_type(tag) is Data,
        spec_value_bytes(v).len() == data_len,
    ensures
        spec_field_step(s, from, sep, data_len) == FieldStep::Next(
            tag,
            TypeInfo::Data(data_len as usize),
            spec_value_bytes(v),
            from + spec_field_bytes(tag, v, sep).len(),
        ),
{
    let fb = spec_field_bytes(tag, v, sep);
    let d = dec_nat(tag as nat);
    let vb = spec_value_bytes(v);
    lemma_dec_nat_digits(tag as nat);
    lemma_digits_val_dec_nat(tag as nat);
    lemma_window_index(s, from, fb);
    let e = from + d.len();
    assert forall|k: int| from <= k < e implies s[k] != 61 by {
        assert(s[k] == fb[k - from]);
        assert(fb[k - from] == d[k - from]);
        assert(is_digit(d[k - from]));
    }
    assert(s[e] == fb[d.len() as int]);
    assert(fb[d.len() as int] == 61);
    lemma_find_at(s, from, 61, e);
    let tagtext = s.subrange(from, e);
    assert(tagtext =~= d);
    assert(tagtext.len() >= 1);
    assert(digits_val(tagtext) == tag);
    let vstart = e + 1;
    assert(s[vstart + data_len as int] == fb[d.len() + 1 + data_len as int]);
    assert(fb[d.len() + 1 + data_len as int] == sep);
    assert forall|i: int| 0 <= i < vb.len() implies s.subrange(
        vstart,
        vstart + data_len as int,
    )[i] == vb[i] by {
        assert(s.subrange(vstart, vstart + data_len as int)[i] == s[vstart + i]);
        assert(s[vstart + i] == fb[d.len() + 1 + i]);
        assert(fb[d.len() + 1 + i] == vb[i]);
    }
    assert(s.subrange(vstart, vstart + data_len as int) =~= vb);
    assert(from < s.len());
    assert(spec_find(s, from, 61) == Some(e));
}

/// Scanning field encodings followed by a trailer collects exactly their
/// decoded views, closed by the `CheckSum(10)` field.
proof fn lemma_parse_rest_encoded(
    s: Seq<u8>,
    from: int,
    sep: u8,
    fields: Seq<(u32, FieldVal)>,
    data_len: nat,
    last_tag: u32,
    acc: Seq<(u32, FieldVal)>,
    ck: nat,
)
    requires
        valid_sep(sep),
        0 <= from <= s.len(),
        wf_body_fields_chain(fields, sep, data_len),
        s.subrange(from, s.len() as int) == spec_fields_bytes(fields, sep) + trailer(ck, sep),
        last_tag != 10,
        ck < 1000,
    ensures
        spec_parse_rest(s, from, sep, data_len, last_tag, acc) == Ok::<
            Seq<(u32, FieldVal)>,
            crate::codec::Error,
        >(acc + interp_fields(fields) + seq![(10u32, FieldVal::Str(zpad(ck, 3)))]),
    decreases fields.len(),
{
    lemma_zpad(ck, 3);
    if fields.len() == 0 {
        let tb = trailer(ck, sep);
        assert(spec_fields_bytes(fields, sep) =~= Seq::<u8>::empty());
        assert(s.subrange(from, s.len() as int) =~= tb);
        let tv = FieldVal::Str(zpad(ck, 3));
        assert(tb =~= spec_field_bytes(10, tv, sep)) by {
            reveal_with_fuel(dec_nat, 3);
            assert(dec_nat(10) =~= seq![49u8, 48u8]);
        }
        assert(s.subrange(from, from + spec_field_bytes(10, tv, sep).len()) =~= spec_field_bytes(
            10,
            tv,
            sep,
        ));
        assert forall|i: int| 0 <= i < zpad(ck, 3).len() implies zpad(ck, 3)[i] != sep by {
            assert(is_digit(zpad(ck, 3)[i]));
        }
        lemma_scan_encoded_field(s, from, sep, data_len, 10, tv);
        assert forall|i: int| 0 <= i < zpad(ck, 3).len() implies zpad(ck, 3)[i] < 0x80 by {
            assert(is_digit(zpad(ck, 3)[i]));
        }
        lemma_ascii_valid_utf8(zpad(ck, 3));
        assert(spec_typed_value(spec_base_type(10), zpad(ck, 3)) == Some(tv));
        assert(acc + interp_fields(fields) + seq![(10u32, tv)] =~= acc.push((10u32, tv)));
    } else {
        let f0 = fields[0];
        let fb0 = spec_field_bytes(f0.0, f0.1, sep);
        lemma_fields_bytes_first(fields, sep);
        assert(s.subrange(from, s.len() as int) =~= fb0 + (spec_fields_bytes(
            fields.skip(1),
            sep,
        ) + trailer(ck, sep)));
        lemma_tail_decompose(s, from, fb0, spec_fields_bytes(fields.skip(1), sep) + trailer(ck, sep));
        if spec_base_type(f0.0) is Data {
            lemma_scan_encoded_data_field(s, from, sep, data_len, f0.0, f0.1);
        } else {
            lemma_scan_encoded_field(s, from, sep, data_len, f0.0, f0.1);
        }
        let w = spec_typed_value(spec_base_type(f0.0), spec_value_bytes(f0.1)).unwrap();
        let from2 = from + fb0.len();
        lemma_parse_rest_encoded(
            s,
            from2,
            sep,
            fields.skip(1),
            spec_next_data_len(w, data_len),
            f0.0,
            acc.push((f0.0, w)),
            ck,
        );
        assert(acc + interp_fields(fields) + seq![(10u32, FieldVal::Str(zpad(ck, 3)))]
            =~= acc.push((f0.0, w)) + interp_fields(fields.skip(1)) + seq![
            (10u32, FieldVal::Str(zpad(ck, 3))),
        ]) by {
            assert forall|i: int| 0 <= i < interp_fields(fields.skip(1)).len() implies
                interp_fields(fields.skip(1))[i] == interp_fields(fields)[i + 1] by {
                assert(fields.skip(1)[i] == fields[i + 1]);
            }
            assert(interp_fields(fields)[0] == (f0.0, w));
        }
    }
}

/// Round trip: a frame encoded from `BeginString` `begin` and the fields
/// `fields` (led by `MsgType(35)`) decodes to exactly those fields, each
/// value read back at its tag's base type, between the decoded header
/// fields `8` and `9` and the trailer field `10`.
#[verifier::rlimit(100)]
pub proof fn lemma_round_trip(begin: Seq<u8>, fields: Seq<(u32, FieldVal)>, sep: u8)
    requires
        valid_sep(sep),
        no_sep(begin, sep),
        fields.len() >= 1,
        fields[0].0 == 35,
        no_sep(spec_value_bytes(fields[0].1), sep),
        vstd::utf8::valid_utf8(begin),
        spec_typed_value(spec_base_type(35), spec_value_bytes(fields[0].1)) is Some,
        wf_body_fields_chain(fields.skip(1), sep, spec_fields_bytes(fields, sep).len() as nat),
        spec_fields_bytes(fields, sep).len() < 1000000,
    ensures
        ({
            let body = spec_fields_bytes(fields, sep);
            let head = spec_head(begin, body.len(), sep);
            let ck = checksum_of(head + body);
            spec_decode(spec_encoded(begin, fields, sep), sep) == Ok::<
                Seq<(u32, FieldVal)>,
                crate::codec::Error,
            >(
                seq![
                    (8u32, FieldVal::Str(begin)),
                    (9u32, FieldVal::Int(body.len() as int)),
                ] + interp_fields(fields) + seq![(10u32, FieldVal::Str(zpad(ck, 3)))],
            )
        }),
{
    let body = spec_fields_bytes(fields, sep);
    let head = spec_head(begin, body.len(), sep);
    let ck = checksum_of(head + body);
    let s = spec_encoded(begin, fields, sep);
    let f8 = spec_field_bytes(8, FieldVal::Str(begin), sep);
    let v9 = FieldVal::Str(zpad(body.len(), 6));
    let f9 = spec_field_bytes(9, v9, sep);
    lemma_zpad(body.len(), 6);
    reveal_with_fuel(pow10, 8);
    assert(pow10(6) == 1000000);
    assert(digits_val(zpad(body.len(), 6)) == body.len());
    // The head is exactly the `8` field then the `9` field.
    assert(head =~= f8 + f9) by {
        reveal_with_fuel(dec_nat, 2);
        assert(dec_nat(9) =~= seq![57u8]);
    }
    assert(s =~= head + body + trailer(ck, sep));
    let f0 = fields[0];
    let fb0 = spec_field_bytes(f0.0, f0.1, sep);
    lemma_fields_bytes_first(fields, sep);
    let rest2 = spec_fields_bytes(fields.skip(1), sep) + trailer(ck, sep);
    // Peel the frame apart: the `8` field, the `9` field, the `35` field,
    // then the remaining fields and the trailer.
    assert(s.subrange(0, s.len() as int) =~= s);
    assert(s.subrange(0, s.len() as int) =~= f8 + (f9 + (fb0 + rest2)));
    lemma_tail_decompose(s, 0, f8, f9 + (fb0 + rest2));
    let p1 = f8.len() as int;
    lemma_tail_decompose(s, p1, f9, fb0 + rest2);
    let p2 = p1 + f9.len();
    lemma_tail_decompose(s, p2, fb0, rest2);
    let p3 = p2 + fb0.len();
    // Field one: `BeginString(8)`.
    lemma_scan_encoded_field(s, 0, sep, 0, 8, FieldVal::Str(begin));
    // Field two: `BodyLength(9)`.
    assert forall|i: int| 0 <= i < zpad(body.len(), 6).len() implies zpad(body.len(), 6)[i]
        != sep by {
        assert(is_digit(zpad(body.len(), 6)[i]));
    }
    lemma_scan_encoded_field(s, p1, sep, 0, 9, v9);
    assert(spec_typed_value(spec_base_type(9), zpad(body.len(), 6)) == Some(
        FieldVal::Int(body.len() as int),
    ));
    // Field three: `MsgType(35)`, the first body field.
    lemma_scan_encoded_field(s, p2, sep, 0, 35, f0.1);
    let w0 = spec_typed_value(spec_base_type(35), spec_value_bytes(f0.1)).unwrap();
    assert(spec_next_data_len(FieldVal::Int(body.len() as int), 0) == body.len());
    let acc = seq![
        (8u32, FieldVal::Str(begin)),
        (9u32, FieldVal::Int(body.len() as int)),
        (35u32, w0),
    ];
    lemma_parse_rest_encoded(
        s,
        p3,
        sep,
        fields.skip(1),
        spec_next_data_len(FieldVal::Int(body.len() as int), 0),
        35,
        acc,
        ck,
    );
    assert(acc + interp_fields(fields.skip(1)) + seq![(10u32, FieldVal::Str(zpad(ck, 3)))]
        =~= seq![(8u32, FieldVal::Str(begin)), (9u32, FieldVal::Int(body.len() as int))]
        + interp_fields(fields) + seq![(10u32, FieldVal::Str(zpad(ck, 3)))]) by {
        assert forall|i: int| 0 <= i < interp_fields(fields.skip(1)).len() implies interp_fields(
            fields.skip(1),
        )[i] == interp_fields(fields)[i + 1] by {
            assert(fields.skip(1)[i] == fields[i + 1]);
        }
        assert(interp_fields(fields)[0] == (35u32, w0));
    }
}

/// Round trip through the message encoder: what `Codec::encode` produces
/// from a field map with its `BeginString(8)` and `MsgType(35)` decodes
/// back to the map's own fields, between the computed header and trailer.
pub proof fn lemma_encode_message_round_trip(fields: Seq<(u32, FieldVal)>, sep: u8)
    requires
        valid_sep(sep),
        spec_get(fields, 8) is Some,
        spec_get(fields, 35) is Some,
        no_sep(spec_value_bytes(spec_get(fields, 8).unwrap()), sep),
        vstd::utf8::valid_utf8(spec_value_bytes(spec_get(fields, 8).unwrap())),
        wf_body_fields(
            seq![(35u32, FieldVal::Str(spec_value_bytes(spec_get(fields, 35).unwrap())))]
                + spec_keep_body(fields),
            sep,
        ),
        spec_fields_bytes(
            seq![(35u32, FieldVal::Str(spec_value_bytes(spec_get(fields, 35).unwrap())))]
                + spec_keep_body(fields),
            sep,
        ).len() < 1000000,
    ensures
        ({
            let begin = spec_value_bytes(spec_get(fields, 8).unwrap());
            let all = seq![
                (35u32, FieldVal::Str(spec_value_bytes(spec_get(fields, 35).unwrap()))),
            ] + spec_keep_body(fields);
            let body = spec_fields_bytes(all, sep);
            let head = spec_head(begin, body.len(), sep);
            let ck = checksum_of(head + body);
            spec_encode_message(fields, sep) == Ok::<Seq<u8>, crate::codec::Error>(
                spec_encoded(begin, all, sep),
            ) && spec_decode(spec_encoded(begin, all, sep), sep) == Ok::<
                Seq<(u32, FieldVal)>,
                crate::codec::Error,
            >(
                seq![
                    (8u32, FieldVal::Str(begin)),
                    (9u32, FieldVal::Int(body.len() as int)),
                ] + interp_fields(all) + seq![(10u32, FieldVal::Str(zpad(ck, 3)))],
            )
        }),
{
    let begin = spec_value_bytes(spec_get(fields, 8).unwrap());
    let all = seq![(35u32, FieldVal::Str(spec_value_bytes(spec_get(fields, 35).unwrap())))]
        + spec_keep_body(fields);
    assert(all[0].0 == 35);
    assert(wf_body_field(all[0].0, all[0].1, sep));
    assert forall|i: int| 0 <= i < all.skip(1).len() implies wf_body_field(
        #[trigger] all.skip(1)[i].0,
        all.skip(1)[i].1,
        sep,
    ) by {
        assert(all.skip(1)[i] == all[i + 1]);
        assert(wf_body_field(all[i + 1].0, all[i + 1].1, sep));
    }
    lemma_wf_fields_chain(all.skip(1), sep, spec_fields_bytes(all, sep).len() as nat);
    lemma_round_trip(begin, all, sep);
}

/// The stated `BodyLength(9)` counts exactly the bytes from the byte after
/// its own terminating separator up to and including the separator before
/// `10=`: in every frame the encoder finalizes, the six reserved digits
/// read back as the length of the body the frame carries there.
pub proof fn lemma_body_length_exact(begin: Seq<u8>, body: Seq<u8>, sep: u8)
    requires
        body.len() < 1000000,
    ensures
        ({
            let out = spec_encoded_bytes(begin, body, sep);
            let hl = spec_head(begin, body.len(), sep).len();
            &&& out.len() == hl + body.len() + 7
            &&& digits_val(out.subrange(hl - 7, hl - 1)) == body.len()
            &&& out.subrange(hl as int, hl + body.len() as int) == body
            &&& out[hl + body.len() as int] == 49
            &&& out[hl + body.len() as int + 1] == 48
            &&& out[hl + body.len() as int + 2] == 61
        }),
{
    let out = spec_encoded_bytes(begin, body, sep);
    let head = spec_head(begin, body.len(), sep);
    let hl = head.len();
    lemma_zpad(body.len(), 6);
    lemma_zpad(checksum_of(head + body), 3);
    reveal_with_fuel(pow10, 8);
    assert(pow10(6) == 1000000);
    assert(out.subrange(hl - 7, hl - 1) =~= zpad(body.len(), 6));
    assert(out.subrange(hl as int, hl + body.len() as int) =~= body);
}

/// Decoders holding the same buffered bytes under the same configuration
/// answer alike: in particular a cleared decoder, which keeps only the
/// bytes past the parsed frame, is indistinguishable from a fresh one fed
/// exactly those bytes.
pub proof fn lemma_clear_is_fresh(a: Codec, b: Codec)
    requires
        a.buffer@ == b.buffer@,
        a.sep == b.sep,
        a.check_checksum == b.check_checksum,
    ensures
        forall|bytes: Seq<u8>| #![auto]
            spec_stream(a.buffer@ + bytes, a.sep, a.check_checksum) == spec_stream(
                b.buffer@ + bytes,
                b.sep,
                b.check_checksum,
            ),
{
    assert forall|bytes: Seq<u8>| #![auto] spec_stream(a.buffer@ + bytes, a.sep, a.check_checksum)
        == spec_stream(b.buffer@ + bytes, b.sep, b.check_checksum) by {
        assert(a.buffer@ + bytes =~= b.buffer@ + bytes);
    }
}

} // verus!
