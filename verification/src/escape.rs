//! The escape counter of the transcluding reader: it tracks consecutive
//! backslash bytes and says, for each byte, whether the byte is parsed as a
//! directive sentinel, emitted literally, or dropped as an escape.

use vstd::prelude::*;

verus! {

/// The backslash byte, which escapes a following sentinel.
pub const ESCAPE_BYTE: u8 = 0x5c;

/// How the reader must handle one byte.
#[derive(Clone, Copy, Debug, PartialEq, Eq, Structural)]
pub enum EscapeResult {
    /// The byte is unescaped: sentinels take effect.
    Parse,
    /// The byte follows an odd run of escapes: it is emitted literally.
    NoParse,
    /// The byte is an escape and is dropped.
    Skip,
}

/// The handling of byte `b` when the run of preceding escapes has parity `p`.
pub open spec fn escape_result_spec(p: nat, b: u8) -> EscapeResult {
    if p % 2 == 0 {
        if b == ESCAPE_BYTE {
            EscapeResult::Skip
        } else {
            EscapeResult::Parse
        }
    } else {
        EscapeResult::NoParse
    }
}

/// The parity of the escape run after byte `b` is handled.
pub open spec fn escape_next_spec(p: nat, b: u8) -> nat {
    if b == ESCAPE_BYTE {
        (p + 1) % 2
    } else {
        0
    }
}

/// Counts consecutive escape bytes; only the parity of the count matters,
/// so only the parity is stored.
pub struct EscapeCounter {
    consecutive_escapes: usize,
}

impl EscapeCounter {
    /// The parity of the counted escape run.
    pub closed spec fn parity(&self) -> nat {
        (self.consecutive_escapes % 2) as nat
    }

    /// A counter with no escapes seen.
    pub fn new() -> (r: Self)
        ensures
            r.parity() == 0,
    {
        Self { consecutive_escapes: 0 }
    }

    /// A counter that behaves as if an odd run of escapes preceded it, so
    /// that the next byte is emitted literally.
    pub fn after_escape() -> (r: Self)
        ensures
            r.parity() == 1,
    {
        Self { consecutive_escapes: 1 }
    }

    /// Classifies the next byte and advances the counter.
    pub fn next(&mut self, byte: u8) -> (r: EscapeResult)
        ensures
            r == escape_result_spec(old(self).parity(), byte),
            final(self).parity() == escape_next_spec(old(self).parity(), byte),
    {
        let r = if self.consecutive_escapes % 2 == 0 {
            if byte == ESCAPE_BYTE {
                EscapeResult::Skip
            } else {
                EscapeResult::Parse
            }
        } else {
            EscapeResult::NoParse
        };
        if byte == ESCAPE_BYTE {
            self.consecutive_escapes = if self.consecutive_escapes % 2 == 0 {
                1
            } else {
                2
            };
        } else {
            self.consecutive_escapes = 0;
        }
        r
    }
}

} // verus!
