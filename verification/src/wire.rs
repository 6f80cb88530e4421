//! Primitive wire encodings shared by every MQTT control packet:
//! big-endian 16-bit integers, the variable-length remaining-length
//! field of the fixed header, and UTF-8 validation of string fields.

use vstd::arithmetic::div_mod::{lemma_div_denominator, lemma_fundamental_div_mod};
use vstd::prelude::*;

verus! {

/// Largest value the four-byte remaining-length field can carry.
pub const MAX_REMAINING_LEN: u32 = 268435455;

// ---------------------------------------------------------------------
// Big-endian 16-bit fields
// ---------------------------------------------------------------------

/// The two bytes of `x` on the wire, most significant first.
pub open spec fn be16_bytes(x: u16) -> Seq<u8> {
    seq![(x / 256) as u8, (x % 256) as u8]
}

/// The value carried by two wire bytes, most significant first.
pub open spec fn be16_value(hi: u8, lo: u8) -> int {
    hi * 256 + lo
}

/// Reading back the two bytes written for `x` gives `x`.
pub proof fn lemma_be16_round_trip(x: u16)
    ensures
        be16_value(be16_bytes(x)[0], be16_bytes(x)[1]) == x,
{
    lemma_fundamental_div_mod(x as int, 256);
}

/// Appends the two big-endian bytes of `x` to `out`.
pub fn push_be16(out: &mut Vec<u8>, x: u16)
    ensures
        final(out)@ == old(out)@ + be16_bytes(x),
{
    out.push((x / 256) as u8);
    out.push((x % 256) as u8);
    proof {
        assert(out@ =~= old(out)@ + be16_bytes(x));
    }
}

/// Reads the big-endian 16-bit value at offset `i`.
pub fn read_be16(s: &[u8], i: usize) -> (r: u16)
    requires
        i + 1 < s@.len(),
    ensures
        r == be16_value(s@[i as int], s@[i as int + 1]),
{
    (s[i] as u16) * 256 + (s[i + 1] as u16)
}

// ---------------------------------------------------------------------
// The remaining-length field
// ---------------------------------------------------------------------

/// Number of bytes the remaining-length field takes for a body of `n`
/// bytes.
pub open spec fn remlen_width(n: int) -> int {
    if n < 128 {
        1
    } else if n < 16384 {
        2
    } else if n < 2097152 {
        3
    } else {
        4
    }
}

/// The remaining-length field for a body of `n` bytes: 7 bits per byte,
/// least significant group first, high bit set on every byte but the
/// last.
pub open spec fn remlen_bytes(n: int) -> Seq<u8>
    recommends
        0 <= n <= MAX_REMAINING_LEN,
{
    if n < 128 {
        seq![n as u8]
    } else if n < 16384 {
        seq![(n % 128 + 128) as u8, (n / 128) as u8]
    } else if n < 2097152 {
        seq![(n % 128 + 128) as u8, ((n / 128) % 128 + 128) as u8, (n / 16384) as u8]
    } else {
        seq![
            (n % 128 + 128) as u8,
            ((n / 128) % 128 + 128) as u8,
            ((n / 16384) % 128 + 128) as u8,
            (n / 2097152) as u8,
        ]
    }
}

/// Result of reading a remaining-length field.
pub enum RemLenS {
    /// A complete field carrying value `n`, `w` bytes wide.
    Value { n: int, w: int },
    /// The buffer ends before the field does.
    Incomplete,
    /// Four continuation bytes in a row: the field would exceed the
    /// four-byte maximum.
    Overflow,
}

/// Reads a remaining-length field from the front of `s`.
pub open spec fn spec_decode_remlen(s: Seq<u8>) -> RemLenS {
    if s.len() == 0 {
        RemLenS::Incomplete
    } else if s[0] < 128 {
        RemLenS::Value { n: s[0] as int, w: 1 }
    } else if s.len() == 1 {
        RemLenS::Incomplete
    } else if s[1] < 128 {
        RemLenS::Value { n: (s[0] - 128) + 128 * s[1], w: 2 }
    } else if s.len() == 2 {
        RemLenS::Incomplete
    } else if s[2] < 128 {
        RemLenS::Value { n: (s[0] - 128) + 128 * (s[1] - 128) + 16384 * s[2], w: 3 }
    } else if s.len() == 3 {
        RemLenS::Incomplete
    } else if s[3] < 128 {
        RemLenS::Value {
            n: (s[0] - 128) + 128 * (s[1] - 128) + 16384 * (s[2] - 128) + 2097152 * s[3],
            w: 4,
        }
    } else {
        RemLenS::Overflow
    }
}

/// Reading a remaining-length field written for `n` gives `n` back,
/// whatever follows it in the buffer.
pub proof fn lemma_remlen_round_trip(n: int, rest: Seq<u8>)
    requires
        0 <= n <= MAX_REMAINING_LEN,
    ensures
        spec_decode_remlen(remlen_bytes(n) + rest) == (RemLenS::Value {
            n,
            w: remlen_width(n),
        }),
{
    let s = remlen_bytes(n) + rest;
    lemma_fundamental_div_mod(n, 128);
    if n < 128 {
        assert(s[0] == n as u8);
    } else if n < 16384 {
        assert(s[0] == (n % 128 + 128) as u8);
        assert(s[1] == (n / 128) as u8);
        assert(n / 128 < 128);
    } else {
        let q1 = n / 128;
        lemma_fundamental_div_mod(q1, 128);
        lemma_div_denominator(n, 128, 128);
        assert(q1 / 128 == n / 16384);
        if n < 2097152 {
            assert(s[0] == (n % 128 + 128) as u8);
            assert(s[1] == (q1 % 128 + 128) as u8);
            assert(s[2] == (n / 16384) as u8);
            assert(n / 16384 < 128);
            assert((s[0] - 128) + 128 * (s[1] - 128) + 16384 * s[2] == n % 128 + 128 * (q1 % 128)
                + 16384 * (n / 16384));
            assert(n % 128 + 128 * (q1 % 128) + 16384 * (n / 16384) == n);
        } else {
            let q2 = n / 16384;
            lemma_fundamental_div_mod(q2, 128);
            lemma_div_denominator(n, 16384, 128);
            assert(q2 / 128 == n / 2097152);
            assert(s[0] == (n % 128 + 128) as u8);
            assert(s[1] == (q1 % 128 + 128) as u8);
            assert(s[2] == (q2 % 128 + 128) as u8);
            assert(s[3] == (n / 2097152) as u8);
            assert(n / 2097152 < 128);
            assert((s[0] - 128) + 128 * (s[1] - 128) + 16384 * (s[2] - 128) + 2097152 * s[3] == n
                % 128 + 128 * (q1 % 128) + 16384 * (q2 % 128) + 2097152 * (n / 2097152));
            assert(n % 128 + 128 * (q1 % 128) + 16384 * (q2 % 128) + 2097152 * (n / 2097152) == n);
        }
    }
}

/// A remaining-length field cut short decodes as incomplete: every byte
/// before the last carries the continuation bit.
pub proof fn lemma_remlen_prefix_incomplete(n: int, k: int)
    requires
        0 <= n <= MAX_REMAINING_LEN,
        0 <= k < remlen_width(n),
    ensures
        spec_decode_remlen(remlen_bytes(n).take(k)) == RemLenS::Incomplete,
{
    let t = remlen_bytes(n).take(k);
    assert(t.len() == k);
    if k >= 1 {
        assert(t[0] == remlen_bytes(n)[0]);
    }
    if k >= 2 {
        assert(t[1] == remlen_bytes(n)[1]);
    }
    if k >= 3 {
        assert(t[2] == remlen_bytes(n)[2]);
    }
}

/// Result of reading a remaining-length field from a buffer.
pub enum RemLen {
    Value { value: u32, width: usize },
    Incomplete,
    Overflow,
}

impl RemLen {
    /// The mathematical reading of this result.
    pub open spec fn view(self) -> RemLenS {
        match self {
            RemLen::Value { value, width } => RemLenS::Value { n: value as int, w: width as int },
            RemLen::Incomplete => RemLenS::Incomplete,
            RemLen::Overflow => RemLenS::Overflow,
        }
    }
}

/// Reads the remaining-length field starting at offset `i` of `buf`.
pub fn decode_remlen(buf: &[u8], i: usize) -> (r: RemLen)
    requires
        i <= buf@.len(),
    ensures
        r.view() == spec_decode_remlen(buf@.skip(i as int)),
{
    let ghost s = buf@.skip(i as int);
    let n: usize = buf.len();
    if i >= n {
        return RemLen::Incomplete;
    }
    let b0: u8 = buf[i];
    assert(s[0] == buf@[i as int]);
    if b0 < 128 {
        return RemLen::Value { value: b0 as u32, width: 1 };
    }
    if i + 1 >= n {
        return RemLen::Incomplete;
    }
    let b1: u8 = buf[i + 1];
    assert(s[1] == buf@[i as int + 1]);
    if b1 < 128 {
        return RemLen::Value { value: (b0 - 128) as u32 + 128 * (b1 as u32), width: 2 };
    }
    if i + 2 >= n {
        return RemLen::Incomplete;
    }
    let b2: u8 = buf[i + 2];
    assert(s[2] == buf@[i as int + 2]);
    if b2 < 128 {
        return RemLen::Value {
            value: (b0 - 128) as u32 + 128 * ((b1 - 128) as u32) + 16384 * (b2 as u32),
            width: 3,
        };
    }
    if i + 3 >= n {
        return RemLen::Incomplete;
    }
    let b3: u8 = buf[i + 3];
    assert(s[3] == buf@[i as int + 3]);
    if b3 < 128 {
        return RemLen::Value {
            value: (b0 - 128) as u32 + 128 * ((b1 - 128) as u32) + 16384 * ((b2 - 128) as u32)
                + 2097152 * (b3 as u32),
            width: 4,
        };
    }
    RemLen::Overflow
}

/// Appends the remaining-length field for a body of `n` bytes to `out`.
pub fn encode_remlen(out: &mut Vec<u8>, n: u32)
    requires
        n <= MAX_REMAINING_LEN,
    ensures
        final(out)@ == old(out)@ + remlen_bytes(n as int),
{
    if n < 128 {
        out.push(n as u8);
    } else if n < 16384 {
        out.push((n % 128 + 128) as u8);
        out.push((n / 128) as u8);
    } else if n < 2097152 {
        out.push((n % 128 + 128) as u8);
        out.push((n / 128 % 128 + 128) as u8);
        out.push((n / 16384) as u8);
        proof {
            lemma_div_denominator(n as int, 128, 128);
        }
    } else {
        out.push((n % 128 + 128) as u8);
        out.push((n / 128 % 128 + 128) as u8);
        out.push((n / 16384 % 128 + 128) as u8);
        out.push((n / 2097152) as u8);
        proof {
            lemma_div_denominator(n as int, 128, 128);
            lemma_div_denominator(n as int, 16384, 128);
        }
    }
    proof {
        assert(out@ =~= old(out)@ + remlen_bytes(n as int));
    }
}

// ---------------------------------------------------------------------
// UTF-8 validation
// ---------------------------------------------------------------------

/// Whether `b` is a UTF-8 continuation byte.
pub open spec fn utf8_cont(b: u8) -> bool {
    0x80 <= b && b <= 0xBF
}

/// Width in bytes of the UTF-8 sequence led by `b0`, or 0 if `b0`
/// cannot lead one.
pub open spec fn utf8_char_width(b0: u8) -> int {
    if b0 < 0x80 {
        1
    } else if 0xC2 <= b0 && b0 <= 0xDF {
        2
    } else if 0xE0 <= b0 && b0 <= 0xEF {
        3
    } else if 0xF0 <= b0 && b0 <= 0xF4 {
        4
    } else {
        0
    }
}

/// Smallest second byte allowed after lead byte `b0`: tightened for the
/// leads whose low continuations would be overlong encodings.
pub open spec fn utf8_second_lo(b0: u8) -> u8 {
    if b0 == 0xE0 {
        0xA0
    } else if b0 == 0xF0 {
        0x90
    } else {
        0x80
    }
}

/// Largest second byte allowed after lead byte `b0`: tightened for the
/// leads whose high continuations would be surrogates or exceed
/// U+10FFFF.
pub open spec fn utf8_second_hi(b0: u8) -> u8 {
    if b0 == 0xED {
        0x9F
    } else if b0 == 0xF4 {
        0x8F
    } else {
        0xBF
    }
}

/// Whether `s` starts with one complete, well-formed UTF-8 character.
pub open spec fn valid_utf8_head(s: Seq<u8>) -> bool {
    s.len() > 0 && {
        let b0 = s[0];
        let w = utf8_char_width(b0);
        &&& w >= 1
        &&& s.len() >= w
        &&& (w >= 2 ==> utf8_second_lo(b0) <= s[1] && s[1] <= utf8_second_hi(b0))
        &&& (w >= 3 ==> utf8_cont(s[2]))
        &&& (w >= 4 ==> utf8_cont(s[3]))
    }
}

/// Whether `s` is a well-formed UTF-8 byte sequence.
pub open spec fn is_valid_utf8(s: Seq<u8>) -> bool
    decreases s.len(),
{
    if s.len() == 0 {
        true
    } else if valid_utf8_head(s) {
        is_valid_utf8(s.skip(utf8_char_width(s[0])))
    } else {
        false
    }
}

/// Checks that `s` is a well-formed UTF-8 byte sequence.
pub fn is_utf8(s: &[u8]) -> (r: bool)
    ensures
        r == is_valid_utf8(s@),
{
    let n: usize = s.len();
    let mut i: usize = 0;
    proof {
        assert(s@.skip(0) =~= s@);
    }
    while i < n
        invariant
            i <= n,
            n == s@.len(),
            is_valid_utf8(s@) == is_valid_utf8(s@.skip(i as int)),
        decreases n - i,
    {
        let ghost tail = s@.skip(i as int);
        let b0: u8 = s[i];
        assert(tail[0] == b0);
        let w: usize = if b0 < 0x80 {
            1
        } else if 0xC2 <= b0 && b0 <= 0xDF {
            2
        } else if 0xE0 <= b0 && b0 <= 0xEF {
            3
        } else if 0xF0 <= b0 && b0 <= 0xF4 {
            4
        } else {
            0
        };
        if w == 0 || n - i < w {
            proof {
                assert(!valid_utf8_head(tail));
                assert(!is_valid_utf8(tail));
            }
            return false;
        }
        let lo: u8 = if b0 == 0xE0 {
            0xA0
        } else if b0 == 0xF0 {
            0x90
        } else {
            0x80
        };
        let hi: u8 = if b0 == 0xED {
            0x9F
        } else if b0 == 0xF4 {
            0x8F
        } else {
            0xBF
        };
        if w >= 2 {
            let b1: u8 = s[i + 1];
            assert(tail[1] == b1);
            if !(lo <= b1 && b1 <= hi) {
                proof {
                    assert(!valid_utf8_head(tail));
                    assert(!is_valid_utf8(tail));
                }
                return false;
            }
        }
        if w >= 3 {
            let b2: u8 = s[i + 2];
            assert(tail[2] == b2);
            if !(0x80 <= b2 && b2 <= 0xBF) {
                proof {
                    assert(!valid_utf8_head(tail));
                    assert(!is_valid_utf8(tail));
                }
                return false;
            }
        }
        if w >= 4 {
            let b3: u8 = s[i + 3];
            assert(tail[3] == b3);
            if !(0x80 <= b3 && b3 <= 0xBF) {
                proof {
                    assert(!valid_utf8_head(tail));
                    assert(!is_valid_utf8(tail));
                }
                return false;
            }
        }
        proof {
            assert(valid_utf8_head(tail));
            assert(w as int == utf8_char_width(tail[0]));
            assert(is_valid_utf8(tail) == is_valid_utf8(tail.skip(w as int)));
            assert(tail.skip(w as int) =~= s@.skip(i as int + w as int));
        }
        i = i + w;
    }
    proof {
        assert(s@.skip(n as int).len() == 0);
        assert(is_valid_utf8(s@.skip(n as int)));
    }
    true
}

} // verus!
