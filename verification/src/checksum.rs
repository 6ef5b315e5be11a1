//! Rolling modulo-256 checksum over the framed byte window, as used by the
//! `CheckSum(10)` trailer field of the FIX tag-value encoding.

use vstd::prelude::*;

verus! {

/// Sum of the bytes of `s`, as an unbounded natural number.
pub open spec fn sum_of_bytes(s: Seq<u8>) -> nat
    decreases s.len(),
{
    if s.len() == 0 {
        0
    } else {
        (sum_of_bytes(s.drop_last()) + s.last()) as nat
    }
}

/// The FIX checksum of a byte window: the sum of its bytes modulo 256.
pub open spec fn checksum_of(s: Seq<u8>) -> nat {
    sum_of_bytes(s) % 256
}

/// A window length as a `usize` field can track it: saturating at the top.
pub open spec fn sat_len(n: nat) -> nat {
    if n > usize::MAX {
        usize::MAX as nat
    } else {
        n
    }
}

pub proof fn lemma_sum_of_bytes_concat(s: Seq<u8>, t: Seq<u8>)
    ensures
        sum_of_bytes(s + t) == sum_of_bytes(s) + sum_of_bytes(t),
    decreases t.len(),
{
    if t.len() == 0 {
        assert(s + t =~= s);
    } else {
        lemma_sum_of_bytes_concat(s, t.drop_last());
        assert((s + t).drop_last() =~= s + t.drop_last());
        assert((s + t).last() == t.last());
    }
}

/// Rolling checksum calculators.  A calculator is fed byte windows with
/// `roll` and finally reports a one-byte result; `rolled_ok(w)` says that the
/// calculator is in the state reached by rolling exactly the bytes `w`.
pub trait ChecksumAlgo: Sized {
    /// The state reached from a fresh calculator by rolling the bytes `w`.
    spec fn rolled_ok(&self, w: Seq<u8>) -> bool;

    /// What `result` reports after rolling the bytes `w`.
    spec fn result_of(&self, w: Seq<u8>) -> u8;

    /// A fresh calculator, over an empty window.
    fn fresh() -> (r: Self)
        ensures
            r.rolled_ok(Seq::<u8>::empty()),
    ;

    /// Compounds the checksum of `window` into `self`.
    fn roll(&mut self, window: &[u8])
        ensures
            forall|w: Seq<u8>|
                old(self).rolled_ok(w) ==> final(self).rolled_ok(w + window@),
    ;

    /// How many bytes were rolled so far (saturating at `usize::MAX`).
    fn window_length(&self) -> (r: usize)
        ensures
            forall|w: Seq<u8>| self.rolled_ok(w) ==> r == sat_len(w.len()),
    ;

    /// The final checksum value.
    fn result(self) -> (r: u8)
        ensures
            forall|w: Seq<u8>| self.rolled_ok(w) ==> r == self.result_of(w),
    ;

    /// Whether the rolled window is accepted against the stated `checksum`.
    fn verify(&self, checksum: u8) -> bool;
}

/// The standard rolling checksum: sums every byte, wrapping at 256.
#[derive(Clone, Copy, Debug)]
pub struct ChecksumAlgoStd {
    pub checksum: u8,
    pub len: usize,
}

impl ChecksumAlgo for ChecksumAlgoStd {
    open spec fn rolled_ok(&self, w: Seq<u8>) -> bool {
        self.checksum == checksum_of(w) && self.len == sat_len(w.len())
    }

    open spec fn result_of(&self, w: Seq<u8>) -> u8 {
        checksum_of(w) as u8
    }

    fn fresh() -> (r: Self) {
        ChecksumAlgoStd { checksum: 0, len: 0 }
    }

    fn roll(&mut self, window: &[u8]) {
        let ghost pre = *self;
        let mut i: usize = 0;
        while i < window.len()
            invariant
                i <= window@.len(),
                forall|w: Seq<u8>|
                    pre.rolled_ok(w) ==> self.rolled_ok(w + window@.take(i as int)),
            decreases window@.len() - i,
        {
            assert forall|w: Seq<u8>| pre.rolled_ok(w) implies self.checksum.wrapping_add(
                window[i as int],
            ) == checksum_of(w + window@.take(i + 1)) by {
                lemma_sum_of_bytes_concat(w, window@.take(i as int));
                lemma_sum_of_bytes_concat(w, window@.take(i + 1));
                assert((w + window@.take(i + 1)).drop_last() =~= w + window@.take(i as int));
                assert(sum_of_bytes(w + window@.take(i + 1)) == sum_of_bytes(
                    w + window@.take(i as int),
                ) + window@[i as int]);
            }
            self.checksum = self.checksum.wrapping_add(window[i]);
            if self.len < usize::MAX {
                self.len = self.len + 1;
            }
            assert forall|w: Seq<u8>| pre.rolled_ok(w) implies self.rolled_ok(
                w + window@.take(i + 1),
            ) by {
                assert((w + window@.take(i + 1)).len() == w.len() + i + 1);
            }
            i = i + 1;
        }
        proof {
            assert(window@.take(window@.len() as int) =~= window@);
        }
    }

    fn window_length(&self) -> (r: usize) {
        self.len
    }

    fn result(self) -> (r: u8) {
        self.checksum
    }

    fn verify(&self, checksum: u8) -> (r: bool)
        ensures
            forall|w: Seq<u8>| self.rolled_ok(w) ==> r == (checksum_of(w) == checksum),
    {
        self.checksum == checksum
    }
}

/// A non-verifying checksum calculator: tracks only the window length and
/// accepts any stated checksum.
#[derive(Clone, Copy, Debug)]
pub struct ChecksumAlgoLazy {
    pub len: usize,
}

impl ChecksumAlgo for ChecksumAlgoLazy {
    open spec fn rolled_ok(&self, w: Seq<u8>) -> bool {
        self.len == sat_len(w.len())
    }

    open spec fn result_of(&self, w: Seq<u8>) -> u8 {
        0
    }

    fn fresh() -> (r: Self) {
        ChecksumAlgoLazy { len: 0 }
    }

    fn roll(&mut self, window: &[u8]) {
        let ghost pre = *self;
        if window.len() <= usize::MAX - self.len {
            self.len = self.len + window.len();
        } else {
            self.len = usize::MAX;
        }
        assert forall|w: Seq<u8>| pre.rolled_ok(w) implies self.rolled_ok(w + window@) by {
            assert((w + window@).len() == w.len() + window@.len());
        }
    }

    fn window_length(&self) -> (r: usize) {
        self.len
    }

    fn result(self) -> (r: u8) {
        0
    }

    fn verify(&self, _checksum: u8) -> (r: bool)
        ensures
            r,
    {
        true
    }
}

} // verus!
