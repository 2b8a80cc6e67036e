//! Base32 as magnet links use it for the info-hash: the alphabet `A` to
//! `Z` and `2` to `7`, five bits to a character, no padding.

use crate::error::TorrentError;
use crate::text::{to_upper_case, upper_case};
use vstd::prelude::*;
use vstd::utf8::encode_utf8;

verus! {

/// The five-bit number that a character of the alphabet denotes.
pub open spec fn base32_value(c: u8) -> Option<int> {
    if 65 <= c <= 90 {
        Some(c - 65)
    } else if 50 <= c <= 55 {
        Some(c - 24)
    } else {
        None
    }
}

/// Every byte is a character of the alphabet.
pub open spec fn all_base32(s: Seq<u8>) -> bool {
    forall|i: int| 0 <= i < s.len() ==> base32_value(#[trigger] s[i]) is Some
}

/// The weight of bit `r` of a character's five bits, the first being the
/// most significant.
pub open spec fn bit_weight(r: int) -> int {
    if r == 0 {
        16
    } else if r == 1 {
        8
    } else if r == 2 {
        4
    } else if r == 3 {
        2
    } else {
        1
    }
}

/// Bit `t` of the text's bits, five to a character.
pub open spec fn bit_at(s: Seq<u8>, t: int) -> int {
    (base32_value(s[t / 5])->0 / bit_weight(t % 5)) % 2
}

/// 2 to the power of `e`.
pub open spec fn pow2(e: int) -> int
    decreases e,
{
    if e <= 0 {
        1
    } else {
        2 * pow2(e - 1)
    }
}

/// The number that the bits from `a` up to `b` denote, the first being
/// the most significant.
pub open spec fn bits_value(s: Seq<u8>, a: int, b: int) -> int
    decreases b - a,
{
    if b <= a {
        0
    } else {
        bits_value(s, a, b - 1) * 2 + bit_at(s, b - 1)
    }
}

/// The bytes that a text of the alphabet denotes: its bits, eight to a
/// byte; bits at the end that fill no byte are dropped.
pub open spec fn base32_bytes(s: Seq<u8>) -> Seq<u8> {
    Seq::new((5 * s.len() / 8) as nat, |j: int| bits_value(s, 8 * j, 8 * j + 8) as u8)
}

/// The powers of 2 up to the eighth.
pub proof fn lemma_pow2_values()
    ensures
        pow2(0) == 1,
        pow2(1) == 2,
        pow2(2) == 4,
        pow2(3) == 8,
        pow2(4) == 16,
        pow2(5) == 32,
        pow2(6) == 64,
        pow2(7) == 128,
        pow2(8) == 256,
{
    reveal_with_fuel(pow2, 10);
}

/// The bits from `a` up to `b` denote a number below 2 to the power of
/// their count.
pub proof fn lemma_bits_bound(s: Seq<u8>, a: int, b: int)
    requires
        a <= b,
    ensures
        0 <= bits_value(s, a, b) < pow2(b - a),
    decreases b - a,
{
    if a < b {
        lemma_bits_bound(s, a, b - 1);
    }
}

/// The bits from `a` up to `b` are those up to `m` followed by those from
/// `m` on.
pub proof fn lemma_bits_split(s: Seq<u8>, a: int, m: int, b: int)
    requires
        a <= m <= b,
    ensures
        bits_value(s, a, b) == bits_value(s, a, m) * pow2(b - m) + bits_value(s, m, b),
    decreases b - m,
{
    if m < b {
        lemma_bits_split(s, a, m, b - 1);
        let x = bits_value(s, a, m);
        let p = pow2(b - 1 - m);
        assert(x * (2 * p) == (x * p) * 2) by (nonlinear_arith);
    } else {
        assert(bits_value(s, a, m) * 1 == bits_value(s, a, m));
    }
}

/// The five bits of one character add its number behind the bits before
/// it.
pub proof fn lemma_bits_push(s: Seq<u8>, a: int, k: int)
    requires
        0 <= a <= 5 * k,
        0 <= k < s.len(),
        base32_value(s[k]) is Some,
    ensures
        bits_value(s, a, 5 * k + 5) == bits_value(s, a, 5 * k) * 32 + base32_value(s[k])->0,
{
    let v = base32_value(s[k])->0;
    let base = 5 * k;
    assert(bit_at(s, base) == (v / 16) % 2);
    assert(bit_at(s, base + 1) == (v / 8) % 2);
    assert(bit_at(s, base + 2) == (v / 4) % 2);
    assert(bit_at(s, base + 3) == (v / 2) % 2);
    assert(bit_at(s, base + 4) == v % 2);
    assert(bits_value(s, a, base + 1) == bits_value(s, a, base) * 2 + bit_at(s, base));
    assert(bits_value(s, a, base + 2) == bits_value(s, a, base + 1) * 2 + bit_at(s, base + 1));
    assert(bits_value(s, a, base + 3) == bits_value(s, a, base + 2) * 2 + bit_at(s, base + 2));
    assert(bits_value(s, a, base + 4) == bits_value(s, a, base + 3) * 2 + bit_at(s, base + 3));
    assert(bits_value(s, a, base + 5) == bits_value(s, a, base + 4) * 2 + bit_at(s, base + 4));
}

/// The number that a character of the alphabet denotes.
fn value_of(c: u8) -> (r: Option<u32>)
    ensures
        match base32_value(c) {
            Some(v) => r == Some(v as u32) && 0 <= v < 32,
            None => r is None,
        },
{
    if 65 <= c && c <= 90 {
        Some((c - 65) as u32)
    } else if 50 <= c && c <= 55 {
        Some((c - 24) as u32)
    } else {
        None
    }
}

/// Decodes a text of upper-case base32. A byte outside the alphabet is
/// refused.
pub fn base32_decode_bytes(text: &[u8]) -> (r: Result<Vec<u8>, TorrentError>)
    ensures
        match r {
            Ok(bytes) => all_base32(text@) && bytes@ == base32_bytes(text@),
            Err(e) => !all_base32(text@) && e == TorrentError::InvalidMagnet,
        },
{
    let ghost s = text@;
    let mut acc: u32 = 0;
    let mut pending: u32 = 0;
    let mut out: Vec<u8> = Vec::new();
    let mut k: usize = 0;
    proof {
        lemma_pow2_values();
    }
    while k < text.len()
        invariant
            k <= text.len(),
            s == text@,
            pending < 8,
            8 * out.len() + pending == 5 * k,
            acc == bits_value(s, 8 * out.len(), 5 * k),
            forall|j: int| 0 <= j < out.len() ==> (#[trigger] out[j]) == bits_value(
                s,
                8 * j,
                8 * j + 8,
            ) as u8,
            forall|j: int| 0 <= j < k ==> base32_value(#[trigger] s[j]) is Some,
        decreases text.len() - k,
    {
        let v = match value_of(text[k]) {
            Some(v) => v,
            None => {
                return Err(TorrentError::InvalidMagnet);
            },
        };
        let ghost first = 8 * out.len() as int;
        proof {
            lemma_pow2_values();
            lemma_bits_bound(s, first, 5 * k);
            lemma_bits_push(s, first, k as int);
            reveal_with_fuel(pow2, 10);
        }
        acc = acc * 32 + v;
        pending = pending + 5;
        if pending >= 8 {
            pending = pending - 8;
            let unit: u32 = if pending == 0 {
                1
            } else if pending == 1 {
                2
            } else if pending == 2 {
                4
            } else if pending == 3 {
                8
            } else {
                16
            };
            proof {
                lemma_bits_split(s, first, first + 8, 5 * k + 5);
                lemma_bits_bound(s, first, first + 8);
                lemma_bits_bound(s, first + 8, 5 * k + 5);
                let hi = bits_value(s, first, first + 8);
                let lo = bits_value(s, first + 8, 5 * k + 5);
                assert(unit == pow2(pending as int));
                assert(acc == hi * unit + lo);
                assert(acc / unit == hi && acc % unit == lo) by (nonlinear_arith)
                    requires
                        acc == hi * unit + lo,
                        0 <= lo < unit,
                        0 <= hi,
                ;
            }
            out.push((acc / unit) as u8);
            acc = acc % unit;
        }
        k = k + 1;
    }
    proof {
        assert(out@ =~= base32_bytes(s));
    }
    Ok(out)
}

/// Decodes a base32 text of either case: the text is put in upper case
/// first, and what is then outside the alphabet is refused.
pub fn base32_decode(s: &str) -> (r: Result<Vec<u8>, TorrentError>)
    ensures
        match r {
            Ok(bytes) => all_base32(encode_utf8(upper_case(s@))) && bytes@ == base32_bytes(
                encode_utf8(upper_case(s@)),
            ),
            Err(e) => !all_base32(encode_utf8(upper_case(s@))) && e == TorrentError::InvalidMagnet,
        },
{
    let upper = to_upper_case(s);
    base32_decode_bytes(upper.as_str().as_bytes())
}

} // verus!
