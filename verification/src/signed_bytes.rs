//! Big-endian two's-complement byte strings and the integers they denote.

use vstd::arithmetic::power::{lemma_pow0, lemma_pow1, lemma_pow_positive, pow};
use vstd::prelude::*;

verus! {

/// The integer that a big-endian two's-complement byte string denotes.
/// The empty string denotes zero.
pub open spec fn signed_value(bytes: Seq<u8>) -> int
    decreases bytes.len(),
{
    if bytes.len() == 0 {
        0
    } else if bytes.len() == 1 {
        if bytes[0] >= 0x80 {
            bytes[0] - 256
        } else {
            bytes[0] as int
        }
    } else {
        signed_value(bytes.drop_last()) * 256 + bytes.last()
    }
}

/// The least number of bytes, at least one, in which `v` has a
/// two's-complement representation.
pub open spec fn minimal_len(v: int) -> nat
    decreases (if v >= 0 { v } else { -v }),
{
    if -128 <= v < 128 {
        1
    } else {
        1 + minimal_len(v / 256)
    }
}

/// The big-endian two's-complement representation of `v` in exactly `len`
/// bytes. It denotes `v` when `len` is at least `minimal_len(v)`; in fewer
/// bytes the high-order part of `v` is cut off.
pub open spec fn twos_complement(v: int, len: nat) -> Seq<u8>
    decreases len,
{
    if len == 0 {
        Seq::empty()
    } else {
        twos_complement(v / 256, (len - 1) as nat).push((v % 256) as u8)
    }
}

/// The byte that pads a two's-complement representation of `v` on the left.
pub open spec fn sign_byte(v: int) -> u8 {
    if v < 0 {
        0xFF
    } else {
        0x00
    }
}

/// `count` copies of the sign byte of `v`.
pub open spec fn sign_padding(v: int, count: nat) -> Seq<u8> {
    Seq::new(count, |i: int| sign_byte(v))
}

/// The shortest two's-complement representation of `v`.
pub open spec fn minimal_bytes(v: int) -> Seq<u8> {
    twos_complement(v, minimal_len(v))
}

pub proof fn lemma_twos_complement_len(v: int, len: nat)
    ensures
        twos_complement(v, len).len() == len,
    decreases len,
{
    if len > 0 {
        lemma_twos_complement_len(v / 256, (len - 1) as nat);
    }
}

/// Zero and minus one are written with their sign byte alone.
proof fn lemma_twos_complement_of_sign(v: int, len: nat)
    requires
        v == 0 || v == -1,
    ensures
        twos_complement(v, len) =~= sign_padding(v, len),
    decreases len,
{
    if len > 0 {
        lemma_twos_complement_of_sign(v, (len - 1) as nat);
    }
}

/// A representation wider than the shortest one is the shortest one with
/// sign bytes in front.
pub proof fn lemma_sign_extension(v: int, len: nat)
    requires
        minimal_len(v) <= len,
    ensures
        twos_complement(v, len) =~= sign_padding(v, (len - minimal_len(v)) as nat) + minimal_bytes(
            v,
        ),
    decreases len,
{
    let rest = (len - 1) as nat;
    if -128 <= v < 128 {
        lemma_twos_complement_of_sign(v / 256, rest);
        lemma_twos_complement_len(v / 256, rest);
        assert(twos_complement(v / 256, 0) =~= Seq::<u8>::empty());
        assert(twos_complement(v, 1) =~= seq![(v % 256) as u8]);
    } else {
        lemma_sign_extension(v / 256, rest);
        lemma_twos_complement_len(v / 256, rest);
        lemma_twos_complement_len(v / 256, (minimal_len(v) - 1) as nat);
    }
}

/// The first byte of a representation that is wide enough tells the sign.
pub proof fn lemma_first_byte_tells_sign(v: int, len: nat)
    requires
        minimal_len(v) <= len,
    ensures
        twos_complement(v, len).len() == len,
        (twos_complement(v, len)[0] >= 0x80) == (v < 0),
    decreases len,
{
    lemma_twos_complement_len(v, len);
    let rest = (len - 1) as nat;
    lemma_twos_complement_len(v / 256, rest);
    if len == 1 {
        assert(twos_complement(v / 256, 0) =~= Seq::<u8>::empty());
    } else if -128 <= v < 128 {
        lemma_twos_complement_of_sign(v / 256, rest);
    } else {
        lemma_first_byte_tells_sign(v / 256, rest);
    }
}

/// A representation that is wide enough denotes the integer it was made of.
pub proof fn lemma_value_of_twos_complement(v: int, len: nat)
    requires
        minimal_len(v) <= len,
    ensures
        signed_value(twos_complement(v, len)) == v,
    decreases len,
{
    let rest = (len - 1) as nat;
    let bytes = twos_complement(v, len);
    lemma_twos_complement_len(v, len);
    lemma_twos_complement_len(v / 256, rest);
    if len == 1 {
        assert(twos_complement(v / 256, 0) =~= Seq::<u8>::empty());
    } else {
        lemma_value_of_twos_complement(v / 256, rest);
        assert(bytes.drop_last() =~= twos_complement(v / 256, rest));
    }
}

/// A byte string of `n >= 1` bytes denotes an integer that fits `n` bytes,
/// and is that integer's `n`-byte representation.
pub proof fn lemma_twos_complement_of_value(bytes: Seq<u8>)
    requires
        bytes.len() >= 1,
    ensures
        minimal_len(signed_value(bytes)) <= bytes.len(),
        twos_complement(signed_value(bytes), bytes.len()) =~= bytes,
    decreases bytes.len(),
{
    let v = signed_value(bytes);
    if bytes.len() == 1 {
        assert(twos_complement(v / 256, 0) =~= Seq::<u8>::empty());
    } else {
        lemma_twos_complement_of_value(bytes.drop_last());
        assert(v / 256 == signed_value(bytes.drop_last()));
        assert(v % 256 == bytes.last());
    }
}

/// A byte string of `n` bytes denotes an integer strictly between `-256^n`
/// and `256^n`.
pub proof fn lemma_value_within_width(bytes: Seq<u8>)
    ensures
        -pow(256, bytes.len()) < signed_value(bytes) < pow(256, bytes.len()),
    decreases bytes.len(),
{
    let n = bytes.len();
    if n == 0 {
        lemma_pow0(256);
    } else if n == 1 {
        lemma_pow1(256);
    } else {
        lemma_value_within_width(bytes.drop_last());
        lemma_pow_positive(256, (n - 1) as nat);
        assert(pow(256, n) == 256 * pow(256, (n - 1) as nat)) by {
            reveal(pow);
        }
    }
}

/// Only zero has the one-byte representation `00`.
pub proof fn lemma_minimal_bytes_of_zero(v: int)
    ensures
        (v == 0) == (minimal_bytes(v) =~= seq![0u8]),
{
    assert(twos_complement(v / 256, 0) =~= Seq::<u8>::empty());
    if minimal_bytes(v) =~= seq![0u8] {
        lemma_twos_complement_len(v, minimal_len(v));
        lemma_value_of_twos_complement(v, minimal_len(v));
    }
}

} // verus!
