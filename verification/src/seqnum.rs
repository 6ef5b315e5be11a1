//! Monotonic inbound/outbound sequence number counters with gap
//! classification of inbound `MsgSeqNum(34)` values.

use vstd::prelude::*;

verus! {

/// How an inbound sequence number relates to the expected one.
#[derive(Clone, Copy, Debug, PartialEq, Eq, Structural)]
pub enum SeqNumberError {
    /// The peer is ahead of us: ask it to resend the gap.
    Recover,
    /// The number is below what was already accepted: session-fatal.
    TooLow,
    /// The field was absent from the message.
    NoSeqNum,
}

/// The two counters of a session, both starting at 1.
#[derive(Clone, Copy, Debug, PartialEq, Eq, Structural)]
pub struct SeqNumbers {
    pub next_inbound: u64,
    pub next_outbound: u64,
}

impl Default for SeqNumbers {
    /// Both counters start at 1.
    fn default() -> (r: SeqNumbers)
        ensures
            r.next_inbound == 1 && r.next_outbound == 1,
    {
        SeqNumbers { next_inbound: 1, next_outbound: 1 }
    }
}

impl SeqNumbers {
    /// Counters starting from the given values.
    pub fn new(next_inbound: u64, next_outbound: u64) -> (r: SeqNumbers)
        ensures
            r.next_inbound == next_inbound,
            r.next_outbound == next_outbound,
    {
        SeqNumbers { next_inbound, next_outbound }
    }

    /// Classifies an inbound number: `Ok` exactly at the expected value,
    /// `TooLow` below it, `Recover` above it.
    pub fn validate_inbound(&self, n: u64) -> (r: Result<(), SeqNumberError>)
        ensures
            r == if n < self.next_inbound {
                Err::<(), SeqNumberError>(SeqNumberError::TooLow)
            } else if n > self.next_inbound {
                Err::<(), SeqNumberError>(SeqNumberError::Recover)
            } else {
                Ok::<(), SeqNumberError>(())
            },
    {
        if n < self.next_inbound {
            Err(SeqNumberError::TooLow)
        } else if n > self.next_inbound {
            Err(SeqNumberError::Recover)
        } else {
            Ok(())
        }
    }

    /// The next inbound number expected.
    pub fn next_inbound(&self) -> (r: u64)
        ensures
            r == self.next_inbound,
    {
        self.next_inbound
    }

    /// The current outbound number, incrementing it: one fresh number per
    /// emitted message.
    pub fn get_incr_outbound(&mut self) -> (r: u64)
        requires
            old(self).next_outbound < u64::MAX,
        ensures
            r == old(self).next_outbound,
            final(self).next_outbound == old(self).next_outbound + 1,
            final(self).next_inbound == old(self).next_inbound,
    {
        let r = self.next_outbound;
        self.next_outbound = self.next_outbound + 1;
        r
    }

    /// Moves the inbound counter past one accepted message.
    pub fn incr_inbound(&mut self)
        requires
            old(self).next_inbound < u64::MAX,
        ensures
            final(self).next_inbound == old(self).next_inbound + 1,
            final(self).next_outbound == old(self).next_outbound,
    {
        self.next_inbound = self.next_inbound + 1;
    }

    /// The current inbound number, incrementing it; called only after a
    /// message was accepted at exactly that number.
    pub fn get_incr_inbound(&mut self) -> (r: u64)
        requires
            old(self).next_inbound < u64::MAX,
        ensures
            r == old(self).next_inbound,
            final(self).next_inbound == old(self).next_inbound + 1,
            final(self).next_outbound == old(self).next_outbound,
    {
        let r = self.next_inbound;
        self.next_inbound = self.next_inbound + 1;
        r
    }
}

/// Two consecutive outbound numbers differ by exactly one: each emitted
/// message takes `next_outbound` and bumps it, so the number the next
/// message takes is one higher.
pub proof fn lemma_outbound_seqnums_consecutive(
    s0: SeqNumbers,
    s1: SeqNumbers,
    s2: SeqNumbers,
    n1: u64,
    n2: u64,
)
    requires
        n1 == s0.next_outbound,
        s1.next_outbound == s0.next_outbound + 1,
        n2 == s1.next_outbound,
        s2.next_outbound == s1.next_outbound + 1,
    ensures
        n2 == n1 + 1,
{
}

/// An inbound message is accepted at `n` only when `n` is exactly the
/// expected value, and acceptance bumps the expectation: so the message
/// accepted after one at `n` is accepted at `n + 1`.
pub proof fn lemma_inbound_seqnums_consecutive(s0: SeqNumbers, s1: SeqNumbers, n1: u64, n2: u64)
    requires
        s0.validate_ok(n1),
        s1.next_inbound == s0.next_inbound + 1,
        s1.validate_ok(n2),
    ensures
        n2 == n1 + 1,
{
}

impl SeqNumbers {
    /// `validate_inbound(n)` answers `Ok`.
    pub open spec fn validate_ok(&self, n: u64) -> bool {
        n == self.next_inbound
    }
}

} // verus!
