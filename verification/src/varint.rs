//! The variable-length integers of the Avro binary encoding.
//!
//! A signed integer is first folded onto the naturals in zig-zag order
//! (0, -1, 1, -2, 2, ...), and the natural is then written in groups of
//! seven bits, lowest group first, with the high bit of a byte set when
//! another byte follows.

use vstd::prelude::*;

verus! {

/// The place of `value` in the order 0, -1, 1, -2, 2, ...
pub open spec fn zigzag(value: int) -> nat {
    if value >= 0 {
        (2 * value) as nat
    } else {
        (-2 * value - 1) as nat
    }
}

/// The integer at place `n` of the order 0, -1, 1, -2, 2, ...
pub open spec fn unzigzag(n: nat) -> int {
    if n % 2 == 0 {
        n as int / 2
    } else {
        -((n as int + 1) / 2)
    }
}

/// The groups of seven bits of `n`, lowest first, each but the last with
/// its high bit set.
pub open spec fn varint(n: nat) -> Seq<u8>
    decreases n,
{
    if n < 128 {
        seq![n as u8]
    } else {
        seq![(n % 128 + 128) as u8] + varint(n / 128)
    }
}

/// The encoding of a signed integer.
pub open spec fn long_bytes(value: int) -> Seq<u8> {
    varint(zigzag(value))
}

/// Reads one natural from the front of `bytes`: the natural and the number
/// of bytes it took, or `None` where `bytes` ends before the natural does.
pub open spec fn parse_varint(bytes: Seq<u8>) -> Option<(nat, nat)>
    decreases bytes.len(),
{
    if bytes.len() == 0 {
        None
    } else if bytes[0] < 128 {
        Some((bytes[0] as nat, 1))
    } else {
        match parse_varint(bytes.skip(1)) {
            Some((high, used)) => Some(((bytes[0] - 128 + 128 * high) as nat, used + 1)),
            None => None,
        }
    }
}

/// Reads one signed integer from the front of `bytes`: the integer and the
/// number of bytes it took.
pub open spec fn parse_long(bytes: Seq<u8>) -> Option<(int, nat)> {
    match parse_varint(bytes) {
        Some((n, used)) => Some((unzigzag(n), used)),
        None => None,
    }
}

/// Zig-zag folding loses nothing.
pub proof fn lemma_unzigzag_zigzag(value: int)
    ensures
        unzigzag(zigzag(value)) == value,
{
}

/// An encoded natural takes at least one byte.
pub proof fn lemma_varint_len(n: nat)
    ensures
        varint(n).len() >= 1,
    decreases n,
{
    if n >= 128 {
        lemma_varint_len(n / 128);
    }
}

/// An encoded natural is read back whole, whatever follows it.
pub proof fn lemma_parse_varint(n: nat, rest: Seq<u8>)
    ensures
        parse_varint(varint(n) + rest) == Some((n, varint(n).len())),
    decreases n,
{
    let bytes = varint(n) + rest;
    if n >= 128 {
        lemma_parse_varint(n / 128, rest);
        assert(bytes.skip(1) =~= varint(n / 128) + rest);
    }
}

/// An encoded integer is read back whole, whatever follows it.
pub proof fn lemma_parse_long(value: int, rest: Seq<u8>)
    ensures
        parse_long(long_bytes(value) + rest) == Some((value, long_bytes(value).len())),
{
    lemma_parse_varint(zigzag(value), rest);
}

/// Appends the encoding of the natural `n` to `out`.
fn push_varint(out: &mut Vec<u8>, n: u64)
    ensures
        final(out)@ == old(out)@ + varint(n as nat),
{
    let mut rest: u64 = n;
    while rest >= 128
        invariant
            old(out)@ + varint(n as nat) == out@ + varint(rest as nat),
        decreases rest,
    {
        let ghost before = out@;
        let group: u8 = (rest % 128 + 128) as u8;
        out.push(group);
        assert(before + varint(rest as nat) =~= before.push(group) + varint((rest / 128) as nat));
        rest = rest / 128;
    }
    let ghost before = out@;
    out.push(rest as u8);
    assert(before + varint(rest as nat) =~= before.push(rest as u8));
}

/// The encoding of a length or a count, an integer that is not negative.
pub fn encode_length(length: usize) -> (bytes: Vec<u8>)
    ensures
        bytes@ == long_bytes(length as int),
{
    // The zig-zag place of a length is its double, which may not fit the
    // machine word: the lowest group is taken from the length itself.
    let mut bytes: Vec<u8> = Vec::new();
    if length < 64 {
        bytes.push((2 * length) as u8);
        assert(bytes@ =~= long_bytes(length as int));
    } else {
        let group: u8 = (2 * (length % 64) + 128) as u8;
        bytes.push(group);
        push_varint(&mut bytes, (length / 64) as u64);
        assert(bytes@ =~= long_bytes(length as int));
    }
    bytes
}

} // verus!
