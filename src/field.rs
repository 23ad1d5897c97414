//! Elements of the prime field of secp256k1.
use vstd::prelude::*;
use vstd::arithmetic::div_mod::*;
use vstd::arithmetic::power::*;
use crate::uint::{U256, u256_bound, be_val};
use crate::modular::{valid_modulus, reduce, add_mod, neg_mod, sub_mod, mul_mod, pow_mod};

verus! {

/// The field modulus p = 2^256 - 2^32 - 977.
pub open spec fn p() -> int {
    u256_bound() - 0x1_0000_03D1
}

pub open spec fn fadd(a: int, b: int) -> int {
    (a + b) % p()
}

pub open spec fn fsub(a: int, b: int) -> int {
    (a - b) % p()
}

pub open spec fn fneg(a: int) -> int {
    (0 - a) % p()
}

pub open spec fn fmul(a: int, b: int) -> int {
    (a * b) % p()
}

/// The inverse by Fermat's little theorem, a^(p-2); zero has none and maps to zero.
pub open spec fn finv(a: int) -> int {
    pow(a, (p() - 2) as nat) % p()
}

/// A normalized element holds its own residue.
pub proof fn lemma_normalized_val(f: Field)
    requires
        f.is_normalized(),
    ensures
        f.val() == f.raw(),
{
    lemma_small_mod(f.raw() as nat, p() as nat);
}

/// The modulus as a number.
pub fn field_modulus() -> (r: U256)
    ensures
        r.val() == p(),
        valid_modulus(r.val()),
{
    U256 {
        l0: 0xFFFF_FFFE_FFFF_FC2F,
        l1: 0xFFFF_FFFF_FFFF_FFFF,
        l2: 0xFFFF_FFFF_FFFF_FFFF,
        l3: 0xFFFF_FFFF_FFFF_FFFF,
    }
}

/// A field element. It holds any 256-bit number and stands for that number modulo p; it is
/// normalized when the number is below p. Arithmetic takes either kind and returns normalized
/// elements; comparison, parity and encoding ask for normalized ones.
#[derive(Clone, Copy, Debug)]
pub struct Field {
    pub n: U256,
}

impl Field {
    /// The number held, which may be p or more.
    pub open spec fn raw(self) -> int {
        self.n.val()
    }

    /// The residue this element stands for.
    pub open spec fn val(self) -> int {
        self.n.val() % p()
    }

    pub open spec fn is_normalized(self) -> bool {
        self.n.val() < p()
    }

    pub fn from_u64(x: u64) -> (r: Field)
        ensures
            r.raw() == x,
            r.is_normalized(),
            r.val() == r.raw(),
    {
        let r = Field { n: U256::from_u64(x) };
        proof {
            lemma_normalized_val(r);
        }
        r
    }

    /// Decodes 32 big-endian bytes. The flag is set when the number is p or more; the element
    /// then holds it unreduced.
    pub fn set_b32(b: &[u8; 32]) -> (r: (Field, bool))
        ensures
            r.0.raw() == be_val(b@),
            r.1 == (be_val(b@) >= p()),
    {
        let n = U256::from_b32(b);
        let m = field_modulus();
        let overflow = !n.lt(&m);
        (Field { n }, overflow)
    }

    /// The canonical encoding, 32 big-endian bytes.
    pub fn b32(&self) -> (r: [u8; 32])
        requires
            self.is_normalized(),
        ensures
            be_val(r@) == self.raw(),
    {
        self.n.to_b32()
    }

    /// The normalized element, in a fixed sequence of operations.
    pub fn normalize(&self) -> (r: Field)
        ensures
            r.is_normalized(),
            r.raw() == self.val(),
            r.val() == r.raw(),
    {
        let m = field_modulus();
        let (d, borrow) = self.n.sub(&m);
        let keep = borrow as u64;
        let mask: u64 = 0u64.wrapping_sub(keep);
        let r = U256 {
            l0: (self.n.l0 & mask) | (d.l0 & !mask),
            l1: (self.n.l1 & mask) | (d.l1 & !mask),
            l2: (self.n.l2 & mask) | (d.l2 & !mask),
            l3: (self.n.l3 & mask) | (d.l3 & !mask),
        };
        proof {
            lemma_select(self.n.l0, d.l0, keep);
            lemma_select(self.n.l1, d.l1, keep);
            lemma_select(self.n.l2, d.l2, keep);
            lemma_select(self.n.l3, d.l3, keep);
            if borrow {
                lemma_small_mod(self.n.val() as nat, p() as nat);
            } else {
                lemma_mod_sub_multiples_vanish(self.n.val(), p());
                lemma_small_mod((self.n.val() - p()) as nat, p() as nat);
            }
        }
        let r = Field { n: r };
        proof {
            lemma_normalized_val(r);
        }
        r
    }

    /// The normalized element; may branch on the value, for public data only.
    pub fn normalize_var(&self) -> (r: Field)
        ensures
            r.is_normalized(),
            r.raw() == self.val(),
            r.val() == r.raw(),
    {
        let m = field_modulus();
        let r = Field { n: reduce(&self.n, &m) };
        proof {
            lemma_normalized_val(r);
        }
        r
    }

    pub fn is_zero(&self) -> (r: bool)
        requires
            self.is_normalized(),
        ensures
            r == (self.raw() == 0),
    {
        self.n.is_zero()
    }

    pub fn is_odd(&self) -> (r: bool)
        requires
            self.is_normalized(),
        ensures
            r == (self.raw() % 2 == 1),
    {
        self.n.is_odd()
    }

    /// Equality of two normalized elements.
    pub fn eq(&self, b: &Field) -> (r: bool)
        requires
            self.is_normalized(),
            b.is_normalized(),
        ensures
            r == (self.raw() == b.raw()),
    {
        self.n == b.n
    }

    pub fn add(&self, b: &Field) -> (r: Field)
        ensures
            r.is_normalized(),
            r.raw() == fadd(self.val(), b.val()),
            r.val() == r.raw(),
    {
        let m = field_modulus();
        let r = Field { n: add_mod(&reduce(&self.n, &m), &reduce(&b.n, &m), &m) };
        proof {
            lemma_normalized_val(r);
        }
        r
    }

    pub fn sub(&self, b: &Field) -> (r: Field)
        ensures
            r.is_normalized(),
            r.raw() == fsub(self.val(), b.val()),
            r.val() == r.raw(),
    {
        let m = field_modulus();
        let r = Field { n: sub_mod(&reduce(&self.n, &m), &reduce(&b.n, &m), &m) };
        proof {
            lemma_normalized_val(r);
        }
        r
    }

    pub fn neg(&self) -> (r: Field)
        ensures
            r.is_normalized(),
            r.raw() == fneg(self.val()),
            r.val() == r.raw(),
    {
        let m = field_modulus();
        let r = Field { n: neg_mod(&reduce(&self.n, &m), &m) };
        proof {
            lemma_normalized_val(r);
        }
        r
    }

    pub fn mul(&self, b: &Field) -> (r: Field)
        ensures
            r.is_normalized(),
            r.raw() == fmul(self.val(), b.val()),
            r.val() == r.raw(),
    {
        let m = field_modulus();
        let r = Field { n: mul_mod(&reduce(&self.n, &m), &reduce(&b.n, &m), &m) };
        proof {
            lemma_normalized_val(r);
        }
        r
    }

    pub fn sqr(&self) -> (r: Field)
        ensures
            r.is_normalized(),
            r.raw() == fmul(self.val(), self.val()),
            r.val() == r.raw(),
    {
        self.mul(self)
    }

    /// The element multiplied by a small integer.
    pub fn mul_int(&self, k: u64) -> (r: Field)
        ensures
            r.is_normalized(),
            r.raw() == fmul(self.val(), k as int),
            r.val() == r.raw(),
    {
        let m = field_modulus();
        let r = Field { n: mul_mod(&reduce(&self.n, &m), &U256::from_u64(k), &m) };
        proof {
            lemma_normalized_val(r);
        }
        r
    }

    /// The inverse a^(p-2), by Fermat's little theorem; zero for zero.
    pub fn inv(&self) -> (r: Field)
        ensures
            r.is_normalized(),
            r.raw() == finv(self.val()),
            r.val() == r.raw(),
    {
        let m = field_modulus();
        let e = U256 {
            l0: 0xFFFF_FFFE_FFFF_FC2D,
            l1: 0xFFFF_FFFF_FFFF_FFFF,
            l2: 0xFFFF_FFFF_FFFF_FFFF,
            l3: 0xFFFF_FFFF_FFFF_FFFF,
        };
        let r = Field { n: pow_mod(&reduce(&self.n, &m), &e, &m) };
        proof {
            lemma_normalized_val(r);
        }
        r
    }

    /// A square root: the candidate a^((p+1)/4), kept only when its square is the element.
    pub fn sqrt(&self) -> (r: Option<Field>)
        ensures
            ({
                let c = sqrt_candidate(self.val());
                &&& r.is_some() == ((c * c) % p() == self.val())
                &&& r.is_some() ==> r.unwrap().is_normalized() && r.unwrap().raw() == c
            }),
    {
        let m = field_modulus();
        let a = reduce(&self.n, &m);
        let e = U256 {
            l0: 0xFFFF_FFFF_BFFF_FF0C,
            l1: 0xFFFF_FFFF_FFFF_FFFF,
            l2: 0xFFFF_FFFF_FFFF_FFFF,
            l3: 0x3FFF_FFFF_FFFF_FFFF,
        };
        let c = pow_mod(&a, &e, &m);
        let c2 = mul_mod(&c, &c, &m);
        if c2 == a {
            Some(Field { n: c })
        } else {
            None
        }
    }
}

/// The candidate square root a^((p+1)/4).
pub open spec fn sqrt_candidate(a: int) -> int {
    pow(a, sqrt_exp() as nat) % p()
}

/// Normalizing twice gives what normalizing once gives.
pub proof fn lemma_normalize_idempotent(a: Field)
    ensures
        (a.raw() % p()) % p() == a.raw() % p(),
        (a.raw() % p()) < p(),
{
    lemma_mod_twice(a.raw(), p());
}

/// An element plus its negation is zero.
pub proof fn lemma_add_neg_is_zero(a: Field)
    ensures
        fadd(a.val(), fneg(a.val())) == 0,
{
    lemma_add_mod_noop_right(a.val(), 0 - a.val(), p());
    lemma_mod_self_0(p());
    assert(a.val() + (0 - a.val()) == 0);
    lemma_small_mod(0, p() as nat);
}

/// The bytes that `b32` gives for a normalized element decode, with no overflow, to the same
/// element.
pub proof fn lemma_bytes_round_trip(a: Field, bytes: Seq<u8>)
    requires
        a.is_normalized(),
        bytes.len() == 32,
        be_val(bytes) == a.raw(),
    ensures
        !(be_val(bytes) >= p()),
        be_val(bytes) % p() == a.val(),
{
}

/// (p + 1) / 4, the exponent of a square root.
pub open spec fn sqrt_exp() -> int {
    (p() + 1) / 4
}

proof fn lemma_select(a: u64, b: u64, keep: u64)
    by (bit_vector)
    requires
        keep <= 1,
    ensures
        (a & (0u64.wrapping_sub(keep))) | (b & !(0u64.wrapping_sub(keep))) == if keep == 1 {
            a
        } else {
            b
        },
{
}

} // verus!
