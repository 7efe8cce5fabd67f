//! URL percent coding over bytes.
//!
//! Encoding leaves ASCII alphanumerics and `-`, `.`, `_`, `~` unchanged and
//! renders every other byte as `%` followed by two uppercase hex digits.
//! Decoding is lenient: a `%` that is not followed by two hex digits is
//! passed through literally, so decoding never fails at the byte level.

use vstd::prelude::*;

verus! {

/// Bytes that percent-encoding leaves unchanged.
pub open spec fn is_unreserved(b: u8) -> bool {
    (0x30u8 <= b <= 0x39u8) || (0x41u8 <= b <= 0x5au8) || (0x61u8 <= b <= 0x7au8) || b == 0x2du8 || b == 0x2eu8
        || b == 0x5fu8 || b == 0x7eu8
}

/// The uppercase hex digit for a value below 16.
pub open spec fn hex_digit(d: int) -> u8 {
    if d < 10 {
        (0x30 + d) as u8
    } else {
        (0x41 + (d - 10)) as u8
    }
}

/// The value of a hex digit byte, or -1 for any other byte.
pub open spec fn from_hex(b: u8) -> int {
    if 0x30u8 <= b <= 0x39u8 {
        b - 0x30u8
    } else if 0x41u8 <= b <= 0x46u8 {
        b - 0x41u8 + 10
    } else if 0x61u8 <= b <= 0x66u8 {
        b - 0x61u8 + 10
    } else {
        -1
    }
}

/// Whether `b` is a hex digit byte.
pub open spec fn is_hex(b: u8) -> bool {
    from_hex(b) >= 0
}

/// The percent-encoding of a single byte.
pub open spec fn encode_byte(b: u8) -> Seq<u8> {
    if is_unreserved(b) {
        seq![b]
    } else {
        seq![0x25u8, hex_digit(b as int / 16), hex_digit(b as int % 16)]
    }
}

/// The percent-encoding of a byte sequence.
pub open spec fn percent_encode_spec(s: Seq<u8>) -> Seq<u8>
    decreases s.len(),
{
    if s.len() == 0 {
        Seq::<u8>::empty()
    } else {
        encode_byte(s[0]) + percent_encode_spec(s.subrange(1, s.len() as int))
    }
}

/// The lenient percent-decoding of a byte sequence.
pub open spec fn percent_decode_spec(s: Seq<u8>) -> Seq<u8>
    decreases s.len(),
{
    if s.len() == 0 {
        Seq::<u8>::empty()
    } else if s[0] != 0x25u8 {
        seq![s[0]] + percent_decode_spec(s.subrange(1, s.len() as int))
    } else if s.len() < 3 {
        // a trailing "%" or "%x" is passed through unchanged
        s
    } else if is_hex(s[1]) && is_hex(s[2]) {
        seq![(from_hex(s[1]) * 16 + from_hex(s[2])) as u8] + percent_decode_spec(
            s.subrange(3, s.len() as int),
        )
    } else if is_hex(s[1]) {
        seq![0x25u8, s[1]] + percent_decode_spec(s.subrange(2, s.len() as int))
    } else {
        seq![0x25u8] + percent_decode_spec(s.subrange(1, s.len() as int))
    }
}

/// Executable test for [`is_unreserved`].
fn is_unreserved_byte(b: u8) -> (r: bool)
    ensures
        r == is_unreserved(b),
{
    (0x30u8 <= b && b <= 0x39u8) || (0x41u8 <= b && b <= 0x5au8) || (0x61u8 <= b && b <= 0x7au8) || b == 0x2du8
        || b == 0x2eu8 || b == 0x5fu8 || b == 0x7eu8
}

/// Executable hex-digit value; `None` for a non-hex byte.
fn hex_val(b: u8) -> (r: Option<u8>)
    ensures
        match r {
            Some(v) => from_hex(b) == v as int && v < 16,
            None => !is_hex(b),
        },
{
    if 0x30u8 <= b && b <= 0x39u8 {
        Some(b - 0x30u8)
    } else if 0x41u8 <= b && b <= 0x46u8 {
        Some(b - 0x41u8 + 10)
    } else if 0x61u8 <= b && b <= 0x66u8 {
        Some(b - 0x61u8 + 10)
    } else {
        None
    }
}

/// Executable uppercase hex digit.
fn hex_digit_byte(d: u8) -> (r: u8)
    requires
        d < 16,
    ensures
        r == hex_digit(d as int),
{
    if d < 10 {
        0x30 + d
    } else {
        0x41 + (d - 10)
    }
}

/// Percent-encodes a byte sequence.
pub fn percent_encode(s: &Vec<u8>) -> (r: Vec<u8>)
    ensures
        r@ == percent_encode_spec(s@),
{
    let mut out: Vec<u8> = Vec::new();
    let mut i: usize = 0;
    proof {
        assert(s@.subrange(0, s@.len() as int) =~= s@);
        assert(out@ + percent_encode_spec(s@) =~= percent_encode_spec(s@));
    }
    while i < s.len()
        invariant
            0 <= i <= s@.len(),
            percent_encode_spec(s@) == out@ + percent_encode_spec(
                s@.subrange(i as int, s@.len() as int),
            ),
        decreases s@.len() - i,
    {
        let ghost pre = out@;
        let ghost suf = s@.subrange(i as int, s@.len() as int);
        let b = s[i];
        if is_unreserved_byte(b) {
            out.push(b);
        } else {
            out.push(0x25u8);
            out.push(hex_digit_byte(b / 16));
            out.push(hex_digit_byte(b % 16));
        }
        i = i + 1;
        proof {
            assert(suf[0] == s@[i - 1]);
            assert(suf.subrange(1, suf.len() as int) =~= s@.subrange(i as int, s@.len() as int));
            assert(out@ =~= pre + encode_byte(s@[i - 1]));
            assert(percent_encode_spec(suf) == encode_byte(suf[0]) + percent_encode_spec(
                suf.subrange(1, suf.len() as int),
            ));
            assert(out@ + percent_encode_spec(s@.subrange(i as int, s@.len() as int)) =~= pre
                + percent_encode_spec(suf));
        }
    }
    proof {
        assert(s@.subrange(s@.len() as int, s@.len() as int) =~= Seq::<u8>::empty());
        assert(out@ + Seq::<u8>::empty() =~= out@);
    }
    out
}

/// Leniently percent-decodes a byte sequence.
pub fn percent_decode(s: &Vec<u8>) -> (r: Vec<u8>)
    ensures
        r@ == percent_decode_spec(s@),
{
    let mut out: Vec<u8> = Vec::new();
    let mut i: usize = 0;
    proof {
        assert(s@.subrange(0, s@.len() as int) =~= s@);
        assert(out@ + percent_decode_spec(s@) =~= percent_decode_spec(s@));
    }
    while i < s.len()
        invariant
            0 <= i <= s@.len(),
            percent_decode_spec(s@) == out@ + percent_decode_spec(
                s@.subrange(i as int, s@.len() as int),
            ),
        decreases s@.len() - i,
    {
        let ghost pre = out@;
        let ghost suf = s@.subrange(i as int, s@.len() as int);
        let b = s[i];
        proof {
            assert(suf[0] == s@[i as int]);
        }
        if b != 0x25u8 {
            out.push(b);
            i = i + 1;
            proof {
                assert(suf.subrange(1, suf.len() as int) =~= s@.subrange(
                    i as int,
                    s@.len() as int,
                ));
                assert(out@ =~= pre + seq![suf[0]]);
            }
        } else if s.len() - i < 3 {
            // trailing "%" or "%x": pass the rest through
            out.push(b);
            if i + 1 < s.len() {
                out.push(s[i + 1]);
            }
            i = s.len();
            proof {
                assert(out@ =~= pre + suf);
                assert(s@.subrange(i as int, s@.len() as int) =~= Seq::<u8>::empty());
            }
        } else {
            let b1 = s[i + 1];
            let b2 = s[i + 2];
            proof {
                assert(suf[1] == s@[i + 1]);
                assert(suf[2] == s@[i + 2]);
            }
            match hex_val(b1) {
                Some(v1) => {
                    match hex_val(b2) {
                        Some(v2) => {
                            out.push(v1 * 16 + v2);
                            i = i + 3;
                            proof {
                                assert(suf.subrange(3, suf.len() as int) =~= s@.subrange(
                                    i as int,
                                    s@.len() as int,
                                ));
                                assert(out@ =~= pre + seq![
                                    (from_hex(suf[1]) * 16 + from_hex(suf[2])) as u8,
                                ]);
                            }
                        },
                        None => {
                            out.push(0x25u8);
                            out.push(b1);
                            i = i + 2;
                            proof {
                                assert(suf.subrange(2, suf.len() as int) =~= s@.subrange(
                                    i as int,
                                    s@.len() as int,
                                ));
                                assert(out@ =~= pre + seq![0x25u8, suf[1]]);
                            }
                        },
                    }
                },
                None => {
                    out.push(0x25u8);
                    i = i + 1;
                    proof {
                        assert(suf.subrange(1, suf.len() as int) =~= s@.subrange(
                            i as int,
                            s@.len() as int,
                        ));
                        assert(out@ =~= pre + seq![0x25u8]);
                    }
                },
            }
        }
    }
    proof {
        assert(s@.subrange(s@.len() as int, s@.len() as int) =~= Seq::<u8>::empty());
        assert(out@ + Seq::<u8>::empty() =~= out@);
    }
    out
}

/// Every byte of a percent-encoded sequence is printable ASCII.
pub proof fn lemma_percent_encode_ascii(s: Seq<u8>)
    ensures
        forall|i: int|
            0 <= i < percent_encode_spec(s).len() ==> 0x20 <= #[trigger] percent_encode_spec(
                s,
            )[i] < 0x80,
    decreases s.len(),
{
    if s.len() > 0 {
        lemma_percent_encode_ascii(s.subrange(1, s.len() as int));
        assert forall|i: int| 0 <= i < percent_encode_spec(s).len() implies 0x20
            <= #[trigger] percent_encode_spec(s)[i] < 0x80 by {
            let e = encode_byte(s[0]);
            if i >= e.len() {
                assert(percent_encode_spec(s)[i] == percent_encode_spec(
                    s.subrange(1, s.len() as int),
                )[i - e.len()]);
            }
        }
    }
}

/// Percent-decoding inverts percent-encoding: every byte sequence survives
/// an encode/decode round trip unchanged.
pub proof fn lemma_percent_round_trip(s: Seq<u8>)
    ensures
        percent_decode_spec(percent_encode_spec(s)) == s,
    decreases s.len(),
{
    if s.len() == 0 {
        assert(percent_decode_spec(percent_encode_spec(s)) =~= s);
    } else {
        let rest = s.subrange(1, s.len() as int);
        lemma_percent_round_trip(rest);
        let e = percent_encode_spec(s);
        let tail = percent_encode_spec(rest);
        if is_unreserved(s[0]) {
            assert(e == seq![s[0]] + tail);
            assert(e[0] == s[0]);
            assert(e[0] != 0x25u8);
            assert(e.subrange(1, e.len() as int) =~= tail);
            assert(percent_decode_spec(e) == seq![s[0]] + percent_decode_spec(tail));
            assert(percent_decode_spec(e) =~= s);
        } else {
            let h1 = hex_digit(s[0] as int / 16);
            let h2 = hex_digit(s[0] as int % 16);
            assert(e == seq![0x25u8, h1, h2] + tail);
            assert(e[0] == 0x25u8 && e[1] == h1 && e[2] == h2);
            assert(from_hex(h1) == s[0] as int / 16 && from_hex(h2) == s[0] as int % 16);
            assert(e.len() >= 3);
            assert(e.subrange(3, e.len() as int) =~= tail);
            assert((from_hex(e[1]) * 16 + from_hex(e[2])) as u8 == s[0]);
            assert(percent_decode_spec(e) == seq![s[0]] + percent_decode_spec(tail));
            assert(percent_decode_spec(e) =~= s);
        }
    }
}

} // verus!
