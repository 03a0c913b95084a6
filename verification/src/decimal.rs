//! The decimal logical type: an unscaled integer of any size and a scale.

use crate::bigint::{power, product, to_signed_bytes};
use crate::error::Error;
use crate::signed_bytes::{
    lemma_first_byte_tells_sign, lemma_minimal_bytes_of_zero, lemma_sign_extension,
    lemma_twos_complement_len, lemma_value_of_twos_complement, lemma_value_within_width,
    minimal_bytes, minimal_len, sign_padding, signed_value, twos_complement,
};
use vstd::arithmetic::mul::lemma_mul_equality_converse;
use vstd::arithmetic::power::{lemma_pow0, lemma_pow_adds, lemma_pow_positive, pow};
use vstd::prelude::*;
use vstd::std_specs::cmp::PartialEqSpecImpl;

verus! {

/// A decimal number: `unscaled / 10^scale`.
///
/// `value` holds the unscaled integer as big-endian two's-complement bytes
/// of any width; the empty string is zero. `precision`, the number of
/// significant digits, is carried along and takes no part in any operation.
#[derive(Debug, Clone)]
pub struct Decimal {
    pub value: Vec<u8>,
    pub precision: usize,
    pub scale: usize,
}

impl Decimal {
    /// The unscaled integer.
    pub open spec fn unscaled(&self) -> int {
        signed_value(self.value@)
    }

    /// The unscaled integer that denotes the same number at `scale`, which
    /// is not below this decimal's own scale.
    pub open spec fn unscaled_at(&self, scale: nat) -> int {
        self.unscaled() * pow(10, (scale - self.scale) as nat)
    }

    /// Whether two decimals denote the same number: whether their unscaled
    /// integers agree once both are brought to the larger of the two scales.
    pub open spec fn same_number(&self, other: &Decimal) -> bool {
        let scale = if self.scale >= other.scale {
            self.scale as nat
        } else {
            other.scale as nat
        };
        self.unscaled_at(scale) == other.unscaled_at(scale)
    }

    /// The unscaled integer in exactly `len` bytes, big-endian two's
    /// complement, or `SignExtend` when it does not fit: when its shortest
    /// representation is longer than `len`. The bytes are the shortest
    /// representation with sign bytes in front, and denote the same integer.
    pub fn to_sign_extended_bytes_with_len(&self, len: usize) -> (result: Result<Vec<u8>, Error>)
        ensures
            match result {
                Ok(bytes) => {
                    &&& minimal_len(self.unscaled()) <= len
                    &&& bytes@ == twos_complement(self.unscaled(), len as nat)
                    &&& bytes@ == sign_padding(
                        self.unscaled(),
                        (len - minimal_len(self.unscaled())) as nat,
                    ) + minimal_bytes(self.unscaled())
                    &&& bytes@.len() == len
                    &&& signed_value(bytes@) == self.unscaled()
                },
                Err(error) => minimal_len(self.unscaled()) > len && (error matches Error::SignExtend {
                    requested,
                    needed,
                } && requested == len && needed == minimal_len(self.unscaled())),
            },
    {
        let raw = to_signed_bytes(&self.value);
        let needed = raw.len();
        proof {
            lemma_twos_complement_len(self.unscaled(), minimal_len(self.unscaled()));
        }
        if len < needed {
            return Err(Error::SignExtend { requested: len, needed });
        }
        proof {
            lemma_first_byte_tells_sign(self.unscaled(), minimal_len(self.unscaled()));
            lemma_sign_extension(self.unscaled(), len as nat);
            lemma_value_of_twos_complement(self.unscaled(), len as nat);
        }
        let padding: u8 = if raw[0] >= 0x80 {
            0xFF
        } else {
            0x00
        };
        let width: usize = len - needed;
        let mut bytes: Vec<u8> = vec![padding; width];
        bytes.extend_from_slice(raw.as_slice());
        assert(bytes@ =~= sign_padding(self.unscaled(), (len - needed) as nat) + raw@);
        Ok(bytes)
    }
}

impl PartialEq for Decimal {
    /// Whether the two decimals denote the same number, whatever their
    /// scales and precisions.
    fn eq(&self, other: &Self) -> (same: bool) {
        proof {
            lemma_pow0(10);
        }
        if self.scale == other.scale {
            same_integer(&self.value, &other.value)
        } else if self.scale > other.scale {
            is_scaled_up(&self.value, &other.value, self.scale - other.scale)
        } else {
            is_scaled_up(&other.value, &self.value, other.scale - self.scale)
        }
    }
}

impl PartialEqSpecImpl for Decimal {
    open spec fn obeys_eq_spec() -> bool {
        true
    }

    open spec fn eq_spec(&self, other: &Self) -> bool {
        self.same_number(other)
    }
}

/// Two decimals denote the same number exactly when each unscaled integer,
/// multiplied by ten to the power of the other's scale, gives the same
/// product: when `a / 10^a.scale` and `b / 10^b.scale` are equal fractions.
pub proof fn lemma_same_number_cross_multiplied(a: Decimal, b: Decimal)
    ensures
        a.same_number(&b) == (a.unscaled() * pow(10, b.scale as nat) == b.unscaled() * pow(
            10,
            a.scale as nat,
        )),
{
    if a.scale >= b.scale {
        lemma_scaled_up_cross_multiplied(
            a.unscaled(),
            b.unscaled(),
            b.scale as nat,
            (a.scale - b.scale) as nat,
        );
    } else {
        lemma_scaled_up_cross_multiplied(
            b.unscaled(),
            a.unscaled(),
            a.scale as nat,
            (b.scale - a.scale) as nat,
        );
    }
}

/// Denoting the same number is an equivalence: it holds of a decimal and
/// itself, in both directions or in none, and through a third decimal.
pub proof fn lemma_same_number_is_equivalence(a: Decimal, b: Decimal, c: Decimal)
    ensures
        a.same_number(&a),
        a.same_number(&b) == b.same_number(&a),
        a.same_number(&b) && b.same_number(&c) ==> a.same_number(&c),
{
    if a.same_number(&b) && b.same_number(&c) {
        let x = a.unscaled();
        let y = b.unscaled();
        let z = c.unscaled();
        let p = pow(10, a.scale as nat);
        let q = pow(10, b.scale as nat);
        let r = pow(10, c.scale as nat);
        lemma_same_number_cross_multiplied(a, b);
        lemma_same_number_cross_multiplied(b, c);
        lemma_same_number_cross_multiplied(a, c);
        lemma_pow_positive(10, b.scale as nat);
        assert(q * (x * r) == q * (z * p)) by (nonlinear_arith)
            requires
                x * q == y * p,
                y * r == z * q,
        ;
        lemma_mul_equality_converse(q, x * r, z * p);
    }
}

/// `fine == coarse * 10^gap` says the same as cross-multiplying by the
/// powers of ten of the scales `low + gap` and `low`.
proof fn lemma_scaled_up_cross_multiplied(fine: int, coarse: int, low: nat, gap: nat)
    ensures
        (fine * pow(10, 0) == coarse * pow(10, gap)) == (fine * pow(10, low) == coarse * pow(
            10,
            low + gap,
        )),
{
    let p = pow(10, low);
    let q = pow(10, gap);
    lemma_pow0(10);
    lemma_pow_adds(10, low, gap);
    lemma_pow_positive(10, low);
    assert(coarse * (p * q) == p * (coarse * q)) by (nonlinear_arith);
    assert(fine * p == p * fine) by (nonlinear_arith);
    if p * fine == p * (coarse * q) {
        lemma_mul_equality_converse(p, fine, coarse * q);
    }
}

/// Whether two byte strings of any width denote the same integer.
fn same_integer(left: &Vec<u8>, right: &Vec<u8>) -> (same: bool)
    ensures
        same == (signed_value(left@) == signed_value(right@)),
{
    let shortest_left = to_signed_bytes(left);
    let shortest_right = to_signed_bytes(right);
    proof {
        lemma_shortest_form_is_unique(signed_value(left@), signed_value(right@));
    }
    same_bytes(&shortest_left, &shortest_right)
}

/// Whether `fine` denotes `coarse` times ten to the power `exponent`.
///
/// The power is computed only where the product could equal `fine`: a power
/// of ten that exceeds every integer of `fine`'s width is never built.
fn is_scaled_up(fine: &Vec<u8>, coarse: &Vec<u8>, exponent: usize) -> (same: bool)
    ensures
        same == (signed_value(fine@) == signed_value(coarse@) * pow(10, exponent as nat)),
{
    let ghost f = signed_value(fine@);
    let ghost c = signed_value(coarse@);
    let ghost p = pow(10, exponent as nat);
    if exponent / 3 >= fine.len() {
        proof {
            lemma_value_within_width(fine@);
            lemma_power_of_ten_exceeds_width(exponent as nat, fine@.len());
            lemma_minimal_bytes_of_zero(f);
            lemma_minimal_bytes_of_zero(c);
            assert(c != 0 ==> (c * p >= p || c * p <= -p)) by (nonlinear_arith)
                requires
                    p > 0,
            ;
            assert(c == 0 ==> c * p == 0) by (nonlinear_arith);
        }
        is_zero(&to_signed_bytes(coarse)) && is_zero(&to_signed_bytes(fine))
    } else {
        let power_of_ten = power(10, exponent);
        let scaled = product(coarse, &power_of_ten);
        let shortest = to_signed_bytes(fine);
        proof {
            lemma_pow_positive(10, exponent as nat);
            lemma_value_of_twos_complement(p, minimal_len(p));
            lemma_shortest_form_is_unique(f, c * p);
        }
        same_bytes(&shortest, &scaled)
    }
}

/// Whether `shortest`, a shortest representation, is that of zero.
fn is_zero(shortest: &Vec<u8>) -> (zero: bool)
    ensures
        zero == (shortest@ =~= seq![0u8]),
{
    shortest.len() == 1 && shortest[0] == 0
}

/// Whether two byte strings are equal, byte for byte.
fn same_bytes(left: &Vec<u8>, right: &Vec<u8>) -> (same: bool)
    ensures
        same == (left@ == right@),
{
    if left.len() != right.len() {
        return false;
    }
    let mut i: usize = 0;
    while i < left.len()
        invariant
            left.len() == right.len(),
            i <= left.len(),
            forall|k: int| 0 <= k < i ==> left[k] == right[k],
        decreases left.len() - i,
    {
        if left[i] != right[i] {
            return false;
        }
        i += 1;
    }
    assert(left@ =~= right@);
    true
}

/// Two integers with the same shortest representation are equal.
proof fn lemma_shortest_form_is_unique(a: int, b: int)
    ensures
        (minimal_bytes(a) == minimal_bytes(b)) == (a == b),
{
    lemma_value_of_twos_complement(a, minimal_len(a));
    lemma_value_of_twos_complement(b, minimal_len(b));
}

/// Ten to the power `exponent` is at least `256^width` once `exponent` is
/// three times `width`.
proof fn lemma_power_of_ten_exceeds_width(exponent: nat, width: nat)
    requires
        exponent >= 3 * width,
    ensures
        pow(10, exponent) >= pow(256, width),
    decreases width,
{
    lemma_pow_positive(10, exponent);
    if width == 0 {
        lemma_pow0(256);
    } else {
        let rest = (exponent - 3) as nat;
        lemma_power_of_ten_exceeds_width(rest, (width - 1) as nat);
        lemma_pow_positive(256, (width - 1) as nat);
        assert(pow(256, width) == 256 * pow(256, (width - 1) as nat)) by {
            reveal(pow);
        }
        assert(pow(10, exponent) == 1000 * pow(10, rest)) by {
            reveal_with_fuel(pow, 4);
        }
    }
}

} // verus!
