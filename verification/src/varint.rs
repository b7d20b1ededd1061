//! Variable-length integers as SQLite stores them.
//!
//! An integer takes one to nine bytes, most significant first. Each of the
//! first eight bytes carries seven bits of the value and uses its high bit to
//! say that another byte follows; a ninth byte, where there is one, carries
//! eight bits.

use vstd::prelude::*;
use vstd::arithmetic::power2::{
    pow2, lemma2_to64, lemma2_to64_rest, lemma_pow2_adds, lemma_pow2_strictly_increases,
};
use crate::error::DecodeError;

verus! {

/// The number whose base-128 digits, most significant first, are the low
/// seven bits of each of the first `n` bytes of `s`.
pub open spec fn septets(s: Seq<u8>, n: nat) -> nat
    decreases n,
{
    if n == 0 {
        0
    } else {
        septets(s, (n - 1) as nat) * 128 + (s[n - 1] % 128) as nat
    }
}

/// The length of the integer at the front of `s`, given that the bytes
/// before index `i` all have their high bit set.
pub open spec fn span_from(s: Seq<u8>, i: nat) -> nat
    decreases 8 - i,
{
    if i < 8 && i < s.len() && s[i as int] >= 0x80 {
        span_from(s, i + 1)
    } else {
        i + 1
    }
}

/// How many bytes the integer at the front of `s` takes: it ends with the
/// first byte whose high bit is clear, or with the ninth byte. Where `s` ends
/// before the integer does, this is `s.len() + 1`.
pub open spec fn varint_len(s: Seq<u8>) -> nat {
    span_from(s, 0)
}

/// An integer takes at least one byte and at most nine, and where `s` ends
/// before the integer does, its length is counted one past the end of `s`.
pub proof fn lemma_span_bounds(s: Seq<u8>, i: nat)
    requires
        i <= 8,
        i <= s.len(),
    ensures
        i + 1 <= span_from(s, i) <= 9,
        span_from(s, i) <= s.len() + 1,
    decreases 8 - i,
{
    if i < 8 && i < s.len() && s[i as int] >= 0x80 {
        lemma_span_bounds(s, i + 1);
    }
}

/// The value of the integer at the front of `s`.
pub open spec fn varint_value(s: Seq<u8>) -> nat {
    if varint_len(s) == 9 {
        septets(s, 8) * 256 + s[8] as nat
    } else {
        septets(s, varint_len(s))
    }
}

/// The integer at the front of `s` and the number of bytes it takes, or
/// `None` where `s` ends before the integer does. The value always fits in
/// 64 bits, see [`lemma_varint_value_fits`].
pub open spec fn read_varint(s: Seq<u8>) -> Option<(u64, nat)> {
    if varint_len(s) <= s.len() {
        Some((varint_value(s) as u64, varint_len(s)))
    } else {
        None
    }
}

/// `n` seven-bit digits stay below `2^(7n)`.
pub proof fn lemma_septets_bound(s: Seq<u8>, n: nat)
    ensures
        septets(s, n) < pow2(7 * n),
    decreases n,
{
    lemma2_to64();
    if n > 0 {
        lemma_septets_bound(s, (n - 1) as nat);
        lemma_pow2_adds(7 * (n - 1) as nat, 7);
        assert(septets(s, n) < pow2(7 * (n - 1) as nat) * 128) by (nonlinear_arith)
            requires
                septets(s, n) == septets(s, (n - 1) as nat) * 128 + (s[n - 1] % 128) as nat,
                septets(s, (n - 1) as nat) < pow2(7 * (n - 1) as nat),
                (s[n - 1] % 128) < 128,
        ;
    }
}

/// The value of an integer fits in 64 bits.
pub proof fn lemma_varint_value_fits(s: Seq<u8>)
    ensures
        varint_value(s) <= u64::MAX,
{
    lemma2_to64();
    lemma2_to64_rest();
    lemma_span_bounds(s, 0);
    let n = varint_len(s);
    if n == 9 {
        lemma_septets_bound(s, 8);
    } else {
        lemma_septets_bound(s, n);
        if n < 8 {
            lemma_pow2_strictly_increases(7 * n, 56);
        }
    }
}

/// Reads the integer at the front of `buf`.
///
/// Returns its value and the number of bytes read, or
/// [`DecodeError::Truncated`] where `buf` ends before the integer does; an
/// empty `buf` is the simplest such case.
pub fn decode_varint(buf: &[u8]) -> (r: Result<(u64, usize), DecodeError>)
    ensures
        match r {
            Ok((value, consumed)) => read_varint(buf@) == Some((value, consumed as nat)),
            Err(e) => e == DecodeError::Truncated && read_varint(buf@) is None,
        },
{
    let mut value: u64 = 0;
    let mut consumed: usize = 0;
    while consumed < 8 && consumed < buf.len()
        invariant
            consumed <= 8,
            consumed <= buf@.len(),
            value == septets(buf@, consumed as nat),
            varint_len(buf@) == span_from(buf@, consumed as nat),
        decreases 8 - consumed,
    {
        let b: u8 = buf[consumed];
        proof {
            lemma_septets_bound(buf@, consumed as nat);
            lemma2_to64_rest();
            assert(pow2(7 * consumed as nat) <= pow2(49)) by {
                if consumed < 7 {
                    lemma_pow2_strictly_increases(7 * consumed as nat, 49);
                }
            }
            assert(value < 0x2_0000_0000_0000u64 ==> ((value << 7) | ((b & 0x7f) as u64)) == value
                * 128 + (b % 128) as u64) by (bit_vector);
        }
        value = (value << 7) | ((b & 0x7f) as u64);
        consumed += 1;
        if b < 0x80 {
            return Ok((value, consumed));
        }
    }
    if consumed < buf.len() {
        let b: u8 = buf[consumed];
        proof {
            lemma_septets_bound(buf@, 8);
            lemma2_to64_rest();
            assert(value < 0x100_0000_0000_0000u64 ==> ((value << 8) | (b as u64)) == value * 256
                + b as u64) by (bit_vector);
        }
        value = (value << 8) | (b as u64);
        return Ok((value, consumed + 1));
    }
    Err(DecodeError::Truncated)
}

/// The fewest bytes that hold `value`: one for every seven bits while eight
/// bytes are enough, nine beyond that.
pub open spec fn varint_size(value: u64) -> nat {
    if value < 0x80 {
        1
    } else if value < 0x4000 {
        2
    } else if value < 0x20_0000 {
        3
    } else if value < 0x1000_0000 {
        4
    } else if value < 0x8_0000_0000 {
        5
    } else if value < 0x400_0000_0000 {
        6
    } else if value < 0x2_0000_0000_0000 {
        7
    } else if value < 0x100_0000_0000_0000 {
        8
    } else {
        9
    }
}

/// `n` bytes that carry the low `7n` bits of `v`, most significant first,
/// each with its high bit set.
pub open spec fn continuation_bytes(v: nat, n: nat) -> Seq<u8>
    decreases n,
{
    if n == 0 {
        Seq::empty()
    } else {
        continuation_bytes(v / 128, (n - 1) as nat).push((0x80 + v % 128) as u8)
    }
}

/// The bytes that stand for `value`.
pub open spec fn varint_encoding(value: u64) -> Seq<u8> {
    if varint_size(value) == 9 {
        continuation_bytes(value as nat / 256, 8).push((value % 256) as u8)
    } else {
        continuation_bytes(value as nat / 128, (varint_size(value) - 1) as nat).push(
            (value % 128) as u8,
        )
    }
}

proof fn lemma_continuation_bytes(v: nat, n: nat)
    ensures
        continuation_bytes(v, n).len() == n,
        forall|j: int| 0 <= j < n ==> #[trigger] continuation_bytes(v, n)[j] >= 0x80,
    decreases n,
{
    if n > 0 {
        lemma_continuation_bytes(v / 128, (n - 1) as nat);
    }
}

/// Behind `n` continuation bytes, with `n` at most eight, the search for the
/// end of the integer goes on at index `n`.
proof fn lemma_span_over_continuation(s: Seq<u8>, n: nat, i: nat)
    requires
        i <= n <= 8,
        n <= s.len(),
        forall|j: int| 0 <= j < n ==> s[j] >= 0x80,
    ensures
        span_from(s, i) == span_from(s, n),
    decreases n - i,
{
    if i < n {
        lemma_span_over_continuation(s, n, i + 1);
    }
}

/// The seven-bit digits of `continuation_bytes(v, n)` spell `v` again.
proof fn lemma_septets_of_continuation(v: nat, n: nat, rest: Seq<u8>)
    requires
        v < pow2(7 * n),
    ensures
        septets(continuation_bytes(v, n) + rest, n) == v,
    decreases n,
{
    lemma2_to64();
    if n > 0 {
        let head = continuation_bytes(v / 128, (n - 1) as nat);
        let last = (0x80 + v % 128) as u8;
        let s = continuation_bytes(v, n) + rest;
        lemma_continuation_bytes(v / 128, (n - 1) as nat);
        lemma_pow2_adds(7 * (n - 1) as nat, 7);
        assert(v / 128 < pow2(7 * (n - 1) as nat)) by (nonlinear_arith)
            requires
                v < pow2(7 * (n - 1) as nat) * 128,
        ;
        assert(s =~= head + (seq![last] + rest));
        lemma_septets_of_continuation(v / 128, (n - 1) as nat, seq![last] + rest);
        assert(s[n - 1] == last);
    }
}

/// Reading an encoded integer gives back the integer and the length of its
/// encoding, whatever bytes follow it.
pub proof fn lemma_read_encoding(value: u64, rest: Seq<u8>)
    ensures
        varint_encoding(value).len() == varint_size(value),
        read_varint(varint_encoding(value) + rest) == Some((value, varint_size(value))),
{
    let size = varint_size(value);
    let s = varint_encoding(value) + rest;
    lemma2_to64();
    lemma2_to64_rest();
    if size == 9 {
        let last = (value % 256) as u8;
        lemma_continuation_bytes(value as nat / 256, 8);
        assert(s =~= continuation_bytes(value as nat / 256, 8) + (seq![last] + rest));
        lemma_span_over_continuation(s, 8, 0);
        lemma_septets_of_continuation(value as nat / 256, 8, seq![last] + rest);
        assert(s[8] == last);
    } else {
        let n = (size - 1) as nat;
        let last = (value % 128) as u8;
        lemma_continuation_bytes(value as nat / 128, n);
        assert(s =~= continuation_bytes(value as nat / 128, n) + (seq![last] + rest));
        lemma_span_over_continuation(s, n, 0);
        lemma_septets_of_continuation(value as nat / 128, n, seq![last] + rest);
        assert(s[n as int] == last);
        assert(septets(s, size) == septets(s, n) * 128 + (s[size - 1] % 128) as nat);
    }
}

/// Decoding is the inverse of encoding: every `u64` has an encoding of at
/// most nine bytes, and reading that encoding gives back the value together
/// with the number of bytes the encoding has.
pub proof fn lemma_varint_round_trip(value: u64)
    ensures
        1 <= varint_encoding(value).len() <= 9,
        read_varint(varint_encoding(value)) == Some((value, varint_encoding(value).len())),
{
    lemma_read_encoding(value, Seq::empty());
    assert(varint_encoding(value) + Seq::<u8>::empty() =~= varint_encoding(value));
}

/// Appends to `out` the `n` continuation bytes of `v`.
fn push_continuation_bytes(out: &mut Vec<u8>, v: u64, n: usize)
    ensures
        final(out)@ == old(out)@ + continuation_bytes(v as nat, n as nat),
    decreases n,
{
    if n > 0 {
        push_continuation_bytes(out, v >> 7, n - 1);
        assert(v >> 7 == v / 128) by (bit_vector);
        assert((0x80 | (v & 0x7f)) == 0x80 + v % 128) by (bit_vector);
        assert((0x80 | (v & 0x7f)) < 0x100) by (bit_vector);
        out.push((0x80 | (v & 0x7f)) as u8);
        assert(out@ =~= old(out)@ + continuation_bytes(v as nat, n as nat));
    } else {
        assert(out@ =~= old(out)@ + continuation_bytes(v as nat, n as nat));
    }
}

/// The number of bytes that `encode_varint` gives for `value`.
pub fn encoded_len(value: u64) -> (n: usize)
    ensures
        n == varint_size(value),
{
    if value < 0x80 {
        1
    } else if value < 0x4000 {
        2
    } else if value < 0x20_0000 {
        3
    } else if value < 0x1000_0000 {
        4
    } else if value < 0x8_0000_0000 {
        5
    } else if value < 0x400_0000_0000 {
        6
    } else if value < 0x2_0000_0000_0000 {
        7
    } else if value < 0x100_0000_0000_0000 {
        8
    } else {
        9
    }
}

/// The bytes that stand for `value`, in the fewest bytes that hold it.
pub fn encode_varint(value: u64) -> (bytes: Vec<u8>)
    ensures
        bytes@ == varint_encoding(value),
{
    let mut bytes: Vec<u8> = Vec::new();
    let size: usize = encoded_len(value);
    if size == 9 {
        assert(value >> 8 == value / 256) by (bit_vector);
        assert(value & 0xff == value % 256) by (bit_vector);
        push_continuation_bytes(&mut bytes, value >> 8, 8);
        bytes.push((value & 0xff) as u8);
    } else {
        assert(value >> 7 == value / 128) by (bit_vector);
        assert(value & 0x7f == value % 128) by (bit_vector);
        push_continuation_bytes(&mut bytes, value >> 7, size - 1);
        bytes.push((value & 0x7f) as u8);
    }
    assert(bytes@ =~= varint_encoding(value));
    bytes
}

} // verus!
