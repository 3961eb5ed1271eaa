//! The finite field in which all proof arithmetic takes place.
//!
//! Every committed value is embedded into the field of integers modulo
//! `FIELD_MODULUS` (a Mersenne prime), and every algebraic check of the
//! query protocol is stated over that field.

use vstd::prelude::*;
use vstd::arithmetic::div_mod::{
    lemma_add_mod_noop, lemma_mod_bound, lemma_mod_twice, lemma_mul_mod_noop_general,
    lemma_small_mod, lemma_mod_multiples_vanish,
};
use vstd::arithmetic::mul::lemma_mul_upper_bound;

verus! {

/// The prime modulus of the proof field: `2^61 - 1`.
pub const FIELD_MODULUS: u64 = 2305843009213693951;

/// The field modulus as a mathematical integer.
pub open spec fn modulus() -> int {
    FIELD_MODULUS as int
}

/// Addition in the field, on canonical representatives.
pub open spec fn fadd(x: int, y: int) -> int {
    (x + y) % modulus()
}

/// Subtraction in the field, on canonical representatives.
pub open spec fn fsub(x: int, y: int) -> int {
    (x - y) % modulus()
}

/// Multiplication in the field, on canonical representatives.
pub open spec fn fmul(x: int, y: int) -> int {
    (x * y) % modulus()
}

/// The canonical representative of an integer in the field.
pub open spec fn freduce(x: int) -> int {
    x % modulus()
}

/// One element of the proof field, kept in canonical form.
#[derive(Clone, Copy, Debug, PartialEq, Eq, Structural, Hash)]
pub struct FieldElement {
    value: u64,
}

impl FieldElement {
    /// The mathematical value of this element.
    pub closed spec fn val(self) -> int {
        self.value as int
    }

    /// A field element is well formed when it is a canonical representative.
    pub closed spec fn inv(self) -> bool {
        self.value < FIELD_MODULUS
    }

    /// The additive identity.
    pub fn zero() -> (r: FieldElement)
        ensures
            r.inv(),
            r.val() == 0,
    {
        FieldElement { value: 0 }
    }

    /// The multiplicative identity.
    pub fn one() -> (r: FieldElement)
        ensures
            r.inv(),
            r.val() == 1,
    {
        FieldElement { value: 1 }
    }

    /// Embeds an unsigned machine integer into the field.
    pub fn from_u64(x: u64) -> (r: FieldElement)
        ensures
            r.inv(),
            r.val() == freduce(x as int),
    {
        FieldElement { value: x % FIELD_MODULUS }
    }

    /// Embeds a signed 128-bit integer into the field; negative values map
    /// to the canonical representative of their residue class.
    pub fn from_i128(x: i128) -> (r: FieldElement)
        ensures
            r.inv(),
            r.val() == freduce(x as int),
    {
        if x >= 0 {
            let m: u64 = ((x as u128) % (FIELD_MODULUS as u128)) as u64;
            proof {
                lemma_mod_bound(x as int, modulus());
            }
            FieldElement { value: m }
        } else {
            // `-(x + 1)` avoids overflow at the minimum value.
            let neg: u128 = ((-(x + 1)) as u128) + 1;
            let m: u64 = (neg % (FIELD_MODULUS as u128)) as u64;
            proof {
                lemma_mod_bound(neg as int, modulus());
                // x == -neg, so x + (neg / modulus() + 1) * modulus() == modulus() - neg % modulus()
                let k = neg as int / modulus() + 1;
                lemma_mod_multiples_vanish(k, x as int, modulus());
                vstd::arithmetic::div_mod::lemma_fundamental_div_mod(neg as int, modulus());
                if m == 0 {
                    lemma_small_mod(0nat, modulus() as nat);
                } else {
                    lemma_small_mod((modulus() - m) as nat, modulus() as nat);
                }
            }
            if m == 0 {
                FieldElement { value: 0 }
            } else {
                FieldElement { value: FIELD_MODULUS - m }
            }
        }
    }

    /// Embeds a boolean as zero or one.
    pub fn from_bool(b: bool) -> (r: FieldElement)
        ensures
            r.inv(),
            r.val() == if b { 1int } else { 0int },
    {
        if b {
            FieldElement::one()
        } else {
            FieldElement::zero()
        }
    }

    /// The canonical representative as a machine integer.
    pub fn as_u64(self) -> (r: u64)
        ensures
            r as int == self.val(),
    {
        self.value
    }

    /// Field addition.
    pub fn add(self, other: FieldElement) -> (r: FieldElement)
        requires
            self.inv(),
            other.inv(),
        ensures
            r.inv(),
            r.val() == fadd(self.val(), other.val()),
    {
        let s: u128 = self.value as u128 + other.value as u128;
        let m: u64 = (s % (FIELD_MODULUS as u128)) as u64;
        proof {
            lemma_mod_bound(s as int, modulus());
        }
        FieldElement { value: m }
    }

    /// Field subtraction.
    pub fn sub(self, other: FieldElement) -> (r: FieldElement)
        requires
            self.inv(),
            other.inv(),
        ensures
            r.inv(),
            r.val() == fsub(self.val(), other.val()),
    {
        let v: u64 = if self.value >= other.value {
            self.value - other.value
        } else {
            self.value + (FIELD_MODULUS - other.value)
        };
        proof {
            if self.value >= other.value {
                lemma_small_mod((self.value - other.value) as nat, modulus() as nat);
            } else {
                lemma_mod_multiples_vanish(
                    1,
                    self.val() - other.val(),
                    modulus(),
                );
                lemma_small_mod(v as nat, modulus() as nat);
            }
        }
        FieldElement { value: v }
    }

    /// Field multiplication.
    pub fn mul(self, other: FieldElement) -> (r: FieldElement)
        requires
            self.inv(),
            other.inv(),
        ensures
            r.inv(),
            r.val() == fmul(self.val(), other.val()),
    {
        proof {
            assert((self.value as int) * (other.value as int)
                < 340282366920938463463374607431768211456int) by (nonlinear_arith)
                requires
                    self.value < 2305843009213693951u64,
                    other.value < 2305843009213693951u64,
            ;
        }
        let p: u128 = (self.value as u128) * (other.value as u128);
        let m: u64 = (p % (FIELD_MODULUS as u128)) as u64;
        proof {
            lemma_mod_bound(p as int, modulus());
        }
        FieldElement { value: m }
    }
}

/// Two field elements are equal exactly when their values are.
pub proof fn lemma_val_injective(a: FieldElement, b: FieldElement)
    ensures
        a == b <==> a.val() == b.val(),
{
}

} // verus!
