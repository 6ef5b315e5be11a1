//! Decimal text: rendering unsigned and signed integers as ASCII digit
//! strings and reading them back, with the two directions proved inverse.

use vstd::prelude::*;

verus! {

/// Is `b` an ASCII decimal digit?
pub open spec fn is_digit(b: u8) -> bool {
    48 <= b && b <= 57
}

/// Every byte of `s` is an ASCII decimal digit.
pub open spec fn all_digits(s: Seq<u8>) -> bool {
    forall|i: int| 0 <= i < s.len() ==> is_digit(#[trigger] s[i])
}

/// The decimal rendering of `n`, without sign and without leading zeros
/// (`0` renders as `"0"`).
pub open spec fn dec_nat(n: nat) -> Seq<u8>
    decreases n,
{
    if n < 10 {
        seq![(48 + n) as u8]
    } else {
        dec_nat(n / 10).push((48 + n % 10) as u8)
    }
}

/// The decimal rendering of `i`, with a leading `-` when negative.
pub open spec fn dec_int(i: int) -> Seq<u8> {
    if i < 0 {
        seq![45u8] + dec_nat((-i) as nat)
    } else {
        dec_nat(i as nat)
    }
}

/// The value of a digit string, most significant digit first.
pub open spec fn digits_val(s: Seq<u8>) -> nat
    decreases s.len(),
{
    if s.len() == 0 {
        0
    } else {
        (digits_val(s.drop_last()) * 10 + (s.last() - 48)) as nat
    }
}

/// The value of an optionally `-`-signed digit string.
pub open spec fn int_text_val(s: Seq<u8>) -> int {
    if s.len() > 0 && s[0] == 45 {
        -(digits_val(s.skip(1)) as int)
    } else {
        digits_val(s) as int
    }
}

/// A well-formed integer literal: an optional `-`, then at least one digit.
pub open spec fn is_int_text(s: Seq<u8>) -> bool {
    if s.len() > 0 && s[0] == 45 {
        s.len() >= 2 && all_digits(s.skip(1))
    } else {
        s.len() >= 1 && all_digits(s)
    }
}

pub proof fn lemma_dec_nat_digits(n: nat)
    ensures
        all_digits(dec_nat(n)),
        dec_nat(n).len() >= 1,
        dec_nat(n)[0] != 45,
    decreases n,
{
    if n >= 10 {
        lemma_dec_nat_digits(n / 10);
        assert(dec_nat(n) == dec_nat(n / 10).push((48 + n % 10) as u8));
        assert forall|i: int| 0 <= i < dec_nat(n).len() implies is_digit(#[trigger] dec_nat(n)[i]) by {
            if i < dec_nat(n / 10).len() {
                assert(dec_nat(n)[i] == dec_nat(n / 10)[i]);
            }
        }
    }
}

/// Reading back the rendering of `n` gives `n`.
pub proof fn lemma_digits_val_dec_nat(n: nat)
    ensures
        digits_val(dec_nat(n)) == n,
    decreases n,
{
    if n < 10 {
        assert(dec_nat(n) == seq![(48 + n) as u8]);
        assert(dec_nat(n).drop_last() =~= Seq::<u8>::empty());
        assert(digits_val(dec_nat(n)) == (digits_val(Seq::<u8>::empty()) * 10 + (((48
            + n) as u8) - 48)) as nat);
        assert(digits_val(dec_nat(n)) == n);
    } else {
        lemma_digits_val_dec_nat(n / 10);
        assert(dec_nat(n).drop_last() =~= dec_nat(n / 10));
        assert(dec_nat(n).last() == (48 + n % 10) as u8);
        assert(digits_val(dec_nat(n)) == ((n / 10) * 10 + (((48 + n % 10) as u8) - 48)) as nat);
        assert(((48 + n % 10) as u8) - 48 == n % 10);
        assert((n / 10) * 10 + n % 10 == n) by (nonlinear_arith);
    }
}

/// The rendering of `i` is a well-formed integer literal reading back to `i`.
pub proof fn lemma_int_text_dec_int(i: int)
    ensures
        is_int_text(dec_int(i)),
        int_text_val(dec_int(i)) == i,
{
    if i < 0 {
        lemma_dec_nat_digits((-i) as nat);
        lemma_digits_val_dec_nat((-i) as nat);
        assert(dec_int(i).skip(1) =~= dec_nat((-i) as nat));
    } else {
        lemma_dec_nat_digits(i as nat);
        lemma_digits_val_dec_nat(i as nat);
    }
}

/// Appends the decimal rendering of `n` to `out`.
pub fn push_dec_u64(n: u64, out: &mut Vec<u8>)
    ensures
        final(out)@ == old(out)@ + dec_nat(n as nat),
    decreases n,
{
    if n < 10 {
        out.push(48 + n as u8);
        proof {
            assert(out@ =~= old(out)@ + dec_nat(n as nat));
        }
    } else {
        push_dec_u64(n / 10, out);
        out.push(48 + (n % 10) as u8);
        proof {
            assert(out@ =~= old(out)@ + dec_nat(n as nat));
        }
    }
}

/// Appends the decimal rendering of `i` to `out`, `-`-signed when negative.
pub fn push_dec_i64(i: i64, out: &mut Vec<u8>)
    ensures
        final(out)@ == old(out)@ + dec_int(i as int),
{
    if i < 0 {
        out.push(45);
        let m: u64 = ((-(i + 1)) as u64) + 1;
        assert(m == -(i as int));
        push_dec_u64(m, out);
        proof {
            assert(out@ =~= old(out)@ + dec_int(i as int));
        }
    } else {
        push_dec_u64(i as u64, out);
    }
}

/// The decimal rendering of `n` as a fresh byte vector.
pub fn dec_u64_vec(n: u64) -> (r: Vec<u8>)
    ensures
        r@ == dec_nat(n as nat),
{
    let mut out: Vec<u8> = Vec::new();
    push_dec_u64(n, &mut out);
    proof {
        assert(out@ =~= dec_nat(n as nat));
    }
    out
}

/// Reads a digit string as a `u64`; `None` when `s[from..to]` is empty, holds
/// a non-digit, or overflows.
pub fn parse_u64(s: &[u8], from: usize, to: usize) -> (r: Option<u64>)
    requires
        from <= to <= s@.len(),
    ensures
        match r {
            Some(v) => all_digits(s@.subrange(from as int, to as int)) && from < to && v
                == digits_val(s@.subrange(from as int, to as int)),
            None => !(all_digits(s@.subrange(from as int, to as int)) && from < to && digits_val(
                s@.subrange(from as int, to as int),
            ) <= u64::MAX),
        },
{
    if from == to {
        return None;
    }
    let mut acc: u64 = 0;
    let mut i: usize = from;
    while i < to
        invariant
            from <= i <= to <= s@.len(),
            all_digits(s@.subrange(from as int, i as int)),
            acc == digits_val(s@.subrange(from as int, i as int)),
        decreases to - i,
    {
        let b = s[i];
        if b < 48 || b > 57 {
            proof {
                assert(s@.subrange(from as int, to as int)[i - from] == s@[i as int]);
            }
            return None;
        }
        let d = (b - 48) as u64;
        if acc > (u64::MAX - d) / 10 {
            proof {
                let whole = s@.subrange(from as int, to as int);
                if all_digits(whole) {
                    let part = s@.subrange(from as int, i + 1);
                    assert(part =~= whole.subrange(0, i + 1 - from));
                    lemma_digits_val_prefix_le(whole, i + 1 - from);
                    assert(part.drop_last() =~= s@.subrange(from as int, i as int));
                    assert(digits_val(part) == acc * 10 + d);
                    assert(acc * 10 + d > u64::MAX) by (nonlinear_arith)
                        requires
                            acc > (u64::MAX - d) / 10,
                            d <= 9,
                    ;
                }
            }
            return None;
        }
        assert(acc * 10 + d <= u64::MAX) by (nonlinear_arith)
            requires
                acc <= (u64::MAX - d) / 10,
                d <= 9,
        ;
        acc = acc * 10 + d;
        proof {
            assert(s@.subrange(from as int, i + 1).drop_last() =~= s@.subrange(
                from as int,
                i as int,
            ));
            assert(s@.subrange(from as int, i + 1).last() == s@[i as int]);
        }
        i = i + 1;
    }
    proof {
        assert(s@.subrange(from as int, to as int) =~= s@.subrange(from as int, i as int));
    }
    Some(acc)
}

/// How many times `b` occurs in `s`.
pub open spec fn count_byte(s: Seq<u8>, b: u8) -> nat
    decreases s.len(),
{
    if s.len() == 0 {
        0
    } else {
        count_byte(s.drop_last(), b) + (if s.last() == b {
            1nat
        } else {
            0nat
        })
    }
}

/// Digits with at most one `.` among them, and at least one digit.
pub open spec fn is_decimal_tail(t: Seq<u8>) -> bool {
    &&& t.len() >= 1
    &&& (forall|i: int| 0 <= i < t.len() ==> is_digit(#[trigger] t[i]) || t[i] == 46)
    &&& count_byte(t, 46) <= 1
    &&& t.len() > count_byte(t, 46)
}

/// A plain decimal literal: an optional `-`, then digits with at most one
/// `.` among them, and at least one digit.
pub open spec fn is_decimal_text(s: Seq<u8>) -> bool {
    if s.len() > 0 && s[0] == 45 {
        is_decimal_tail(s.skip(1))
    } else {
        is_decimal_tail(s)
    }
}

/// Whether `s[from..]` is digits with at most one `.`, at least one digit.
pub fn check_decimal(s: &[u8], from: usize) -> (r: bool)
    requires
        from <= s@.len(),
    ensures
        r == is_decimal_tail(s@.skip(from as int)),
{
    let n = s.len();
    if from == n {
        return false;
    }
    let mut dots: usize = 0;
    let mut i: usize = from;
    while i < n
        invariant
            from <= i <= n == s@.len(),
            forall|k: int| from <= k < i ==> is_digit(#[trigger] s@[k]) || s@[k] == 46,
            dots == count_byte(s@.subrange(from as int, i as int), 46),
            dots <= i - from,
        decreases n - i,
    {
        let b = s[i];
        if !((48 <= b && b <= 57) || b == 46) {
            proof {
                assert(s@.skip(from as int)[i - from] == s@[i as int]);
            }
            return false;
        }
        proof {
            assert(s@.subrange(from as int, i + 1).drop_last() =~= s@.subrange(
                from as int,
                i as int,
            ));
            assert(s@.subrange(from as int, i + 1).last() == s@[i as int]);
        }
        if b == 46 {
            dots = dots + 1;
        }
        i = i + 1;
    }
    proof {
        assert(s@.subrange(from as int, n as int) =~= s@.skip(from as int));
        assert forall|k: int| 0 <= k < s@.skip(from as int).len() implies is_digit(
            #[trigger] s@.skip(from as int)[k],
        ) || s@.skip(from as int)[k] == 46 by {
            assert(s@.skip(from as int)[k] == s@[k + from]);
        }
    }
    dots <= 1 && (n - from) > dots
}

/// A digit string is worth at least as much as any of its prefixes.
pub proof fn lemma_digits_val_prefix_le(s: Seq<u8>, k: int)
    requires
        0 <= k <= s.len(),
        all_digits(s),
    ensures
        digits_val(s.subrange(0, k)) <= digits_val(s),
    decreases s.len() - k,
{
    if k == s.len() {
        assert(s.subrange(0, k) =~= s);
    } else {
        lemma_digits_val_prefix_le(s, k + 1);
        assert(s.subrange(0, k + 1).drop_last() =~= s.subrange(0, k));
        assert(digits_val(s.subrange(0, k + 1)) == digits_val(s.subrange(0, k)) * 10 + (s.subrange(
            0,
            k + 1,
        ).last() - 48));
        assert(digits_val(s.subrange(0, k)) <= digits_val(s.subrange(0, k + 1)));
    }
}

} // verus!
