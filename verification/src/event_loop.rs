//! The low-level event loop's state: the streaming decoder and the three
//! timers (heartbeat-send, test-request threshold, disconnect threshold),
//! as a clock-driven state machine.  The waiting itself — transport reads,
//! timer sleeps — happens outside the library, which is handed the clock
//! reading and the bytes that arrived.

use vstd::prelude::*;
use crate::codec::{Codec, Error, spec_retained, spec_stream, StreamOutcome};
use crate::message::{FieldVal, Message};

verus! {

/// A low level event produced by the loop.
#[derive(Debug)]
pub enum LlEvent {
    /// A complete inbound FIX message was parsed.
    Message(Message),
    /// Bytes arrived but the frame is illegal; the loop is dead.
    BadMessage(Error),
    /// The transport failed; the loop is dead.
    IoError,
    /// Time to send a `Heartbeat <0>`.
    Heartbeat,
    /// The counterparty missed its deadline by the soft tolerance: time to
    /// probe it with a `TestRequest <1>`.
    TestRequest,
    /// The counterparty missed its deadline by the hard tolerance: time to
    /// disconnect with a `Logout <5>`; the loop is dead.
    Logout,
}

/// Timer and framing state of one session's event source.  Times are
/// milliseconds on a monotonic clock supplied by the caller.
#[derive(Debug)]
pub struct LlEventLoop {
    pub decoder: Codec,
    pub heartbeat: u64,
    pub heartbeat_soft_tolerance: u64,
    pub heartbeat_hard_tolerance: u64,
    pub last_reset: u64,
    pub last_heartbeat: u64,
    pub is_alive: bool,
}

impl LlEventLoop {
    /// A live loop over `decoder`, with the soft tolerance twice and the
    /// hard tolerance three times the heartbeat interval, both timers
    /// armed at `now`.
    pub fn new(decoder: Codec, heartbeat: u64, now: u64) -> (r: LlEventLoop)
        requires
            heartbeat <= u64::MAX / 3,
        ensures
            r.decoder == decoder,
            r.heartbeat == heartbeat,
            r.heartbeat_soft_tolerance == 2 * heartbeat,
            r.heartbeat_hard_tolerance == 3 * heartbeat,
            r.last_reset == now,
            r.last_heartbeat == now,
            r.is_alive,
    {
        LlEventLoop {
            decoder,
            heartbeat,
            heartbeat_soft_tolerance: 2 * heartbeat,
            heartbeat_hard_tolerance: 3 * heartbeat,
            last_reset: now,
            last_heartbeat: now,
            is_alive: true,
        }
    }

    /// How long after a missed `Heartbeat <0>` a `TestRequest <1>` goes out.
    pub fn set_soft_tolerance(&mut self, soft_tolerance: u64)
        ensures
            *final(self) == (LlEventLoop {
                heartbeat_soft_tolerance: soft_tolerance,
                ..*old(self)
            }),
    {
        self.heartbeat_soft_tolerance = soft_tolerance;
    }

    /// How long after a missed `Heartbeat <0>` a `Logout <5>` goes out.
    pub fn set_hard_tolerance(&mut self, hard_tolerance: u64)
        ensures
            *final(self) == (LlEventLoop {
                heartbeat_hard_tolerance: hard_tolerance,
                ..*old(self)
            }),
    {
        self.heartbeat_hard_tolerance = hard_tolerance;
    }

    /// Resets the counterparty's liveness timers: called whenever a valid
    /// inbound frame arrives.
    pub fn ping_heartbeat(&mut self, now: u64)
        ensures
            *final(self) == (LlEventLoop { last_reset: now, ..*old(self) }),
    {
        self.last_reset = now;
    }

    /// Which timer event is due at `now`, most severe first: past the hard
    /// tolerance the loop dies with `Logout`; past the soft tolerance it
    /// asks for a `TestRequest`; past the heartbeat interval it emits one
    /// `Heartbeat` and re-arms that timer at `now`.  A dead loop yields
    /// nothing.
    pub fn timer_event(&mut self, now: u64) -> (r: Option<LlEvent>)
        requires
            now >= old(self).last_reset,
            now >= old(self).last_heartbeat,
        ensures
            final(self).decoder == old(self).decoder,
            final(self).heartbeat == old(self).heartbeat,
            final(self).heartbeat_soft_tolerance == old(self).heartbeat_soft_tolerance,
            final(self).heartbeat_hard_tolerance == old(self).heartbeat_hard_tolerance,
            final(self).last_reset == old(self).last_reset,
            if !old(self).is_alive {
                r is None && *final(self) == *old(self)
            } else if now - old(self).last_reset >= old(self).heartbeat_hard_tolerance {
                r matches Some(LlEvent::Logout) && !final(self).is_alive
                    && final(self).last_heartbeat == old(self).last_heartbeat
            } else if now - old(self).last_reset >= old(self).heartbeat_soft_tolerance {
                r matches Some(LlEvent::TestRequest) && *final(self) == *old(self)
            } else if now - old(self).last_heartbeat >= old(self).heartbeat {
                r matches Some(LlEvent::Heartbeat) && final(self).is_alive
                    && final(self).last_heartbeat == now
            } else {
                r is None && *final(self) == *old(self)
            },
    {
        if !self.is_alive {
            return None;
        }
        if now - self.last_reset >= self.heartbeat_hard_tolerance {
            self.is_alive = false;
            return Some(LlEvent::Logout);
        }
        if now - self.last_reset >= self.heartbeat_soft_tolerance {
            return Some(LlEvent::TestRequest);
        }
        if now - self.last_heartbeat >= self.heartbeat {
            self.last_heartbeat = now;
            return Some(LlEvent::Heartbeat);
        }
        None
    }

    /// Feeds freshly read transport bytes to the decoder.  A parsed frame
    /// still exposed from the last call is cleared first, keeping any bytes
    /// of the next frame read in the same chunk.  A complete frame yields
    /// `Message` and re-arms the liveness timers at `now`.  A malformed
    /// frame yields `BadMessage`: the garbled bytes are dropped, logged by
    /// the caller, and the loop stays alive — unless the frame ended
    /// mid-field (`Eof`), an unrecoverable truncation that kills the loop.
    /// Within one call at most one event is produced.
    pub fn on_bytes(&mut self, bytes: &[u8], now: u64) -> (r: Option<LlEvent>)
        ensures
            final(self).heartbeat == old(self).heartbeat,
            final(self).heartbeat_soft_tolerance == old(self).heartbeat_soft_tolerance,
            final(self).heartbeat_hard_tolerance == old(self).heartbeat_hard_tolerance,
            final(self).last_heartbeat == old(self).last_heartbeat,
            final(self).decoder.sep == old(self).decoder.sep,
            final(self).decoder.check_checksum == old(self).decoder.check_checksum,
            !old(self).is_alive ==> r is None && final(self).is_alive == old(self).is_alive
                && final(self).decoder == old(self).decoder && final(self).last_reset == old(
                self,
            ).last_reset,
            old(self).is_alive ==> ({
                let buffered = (if old(self).decoder.state is Ready {
                    spec_retained(old(self).decoder.state, old(self).decoder.buffer@)
                } else {
                    old(self).decoder.buffer@
                }) + bytes@;
                match spec_stream(
                    buffered,
                    old(self).decoder.sep,
                    old(self).decoder.check_checksum,
                ) {
                    StreamOutcome::NeedsMore => r is None && final(self).is_alive
                        && final(self).last_reset == old(self).last_reset,
                    StreamOutcome::Ready(f, _) => (r matches Some(LlEvent::Message(m)) && m@
                        == f) && final(self).is_alive && final(self).last_reset == now,
                    StreamOutcome::Bad(e) => (r matches Some(LlEvent::BadMessage(b)) && b == e)
                        && final(self).last_reset == old(self).last_reset && if e is Eof {
                        !final(self).is_alive
                    } else {
                        final(self).is_alive && final(self).decoder.is_fresh()
                    },
                }
            }),
    {
        if !self.is_alive {
            return None;
        }
        if self.decoder.is_ready() {
            self.decoder.clear();
        }
        self.decoder.add_bytes_read(bytes);
        match self.decoder.try_parse() {
            Ok(None) => None,
            Ok(Some(())) => {
                self.last_reset = now;
                let m = self.decoder.message().duplicate();
                Some(LlEvent::Message(m))
            },
            Err(e) => {
                if matches!(e, Error::Eof) {
                    self.is_alive = false;
                } else {
                    self.decoder.clear();
                }
                Some(LlEvent::BadMessage(e))
            },
        }
    }
}

/// Under an idle input the loop emits at most one `Heartbeat` per interval:
/// a `Heartbeat` at `t1` re-arms the timer at `t1`, so the next one cannot
/// come before `t1 + heartbeat`.
pub proof fn lemma_one_heartbeat_per_interval(
    a: LlEventLoop,
    b: LlEventLoop,
    c: LlEventLoop,
    t1: u64,
    t2: u64,
)
    requires
        t1 >= a.last_reset && t1 >= a.last_heartbeat,
        t2 >= b.last_reset && t2 >= b.last_heartbeat,
        // a step at `t1` that yielded `Heartbeat`:
        a.is_alive,
        t1 - a.last_reset < a.heartbeat_hard_tolerance,
        t1 - a.last_reset < a.heartbeat_soft_tolerance,
        t1 - a.last_heartbeat >= a.heartbeat,
        b.last_heartbeat == t1 && b.heartbeat == a.heartbeat && b.is_alive,
        // a later step at `t2` that also yielded `Heartbeat`:
        t2 - b.last_reset < b.heartbeat_hard_tolerance,
        t2 - b.last_reset < b.heartbeat_soft_tolerance,
        t2 - b.last_heartbeat >= b.heartbeat,
        c.last_heartbeat == t2,
    ensures
        t2 - t1 >= a.heartbeat,
{
}

} // verus!
