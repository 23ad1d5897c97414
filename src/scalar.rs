//! Scalars: residues modulo the order n of the secp256k1 group.
use vstd::prelude::*;
use vstd::arithmetic::power::*;
use vstd::arithmetic::div_mod::*;
use crate::uint::{U256, be_val};
use crate::modular::{valid_modulus, reduce, add_mod, neg_mod, mul_mod, pow_mod};
use crate::field::Field;
use vstd::arithmetic::power2::*;

verus! {

/// The group order n.
pub open spec fn n() -> int {
    U256 {
        l0: 0xBFD2_5E8C_D036_4141,
        l1: 0xBAAE_DCE6_AF48_A03B,
        l2: 0xFFFF_FFFF_FFFF_FFFE,
        l3: 0xFFFF_FFFF_FFFF_FFFF,
    }.val()
}

pub open spec fn sadd(a: int, b: int) -> int {
    (a + b) % n()
}

pub open spec fn sneg(a: int) -> int {
    (0 - a) % n()
}

pub open spec fn smul(a: int, b: int) -> int {
    (a * b) % n()
}

/// The inverse by Fermat's little theorem, a^(n-2); zero maps to zero.
pub open spec fn sinv(a: int) -> int {
    pow(a, (n() - 2) as nat) % n()
}

/// A normalized scalar holds its own residue.
pub proof fn lemma_normalized_val(a: Scalar)
    requires
        a.is_normalized(),
    ensures
        a.val() == a.raw(),
{
    lemma_small_mod(a.raw() as nat, n() as nat);
}

/// A scalar plus its negation is zero.
pub proof fn lemma_add_neg_is_zero(a: Scalar)
    ensures
        sadd(a.val(), sneg(a.val())) == 0,
{
    lemma_add_mod_noop_right(a.val(), 0 - a.val(), n());
    assert(a.val() + (0 - a.val()) == 0);
    lemma_small_mod(0, n() as nat);
}

/// Normalizing twice gives what normalizing once gives.
pub proof fn lemma_normalize_idempotent(a: Scalar)
    ensures
        (a.raw() % n()) % n() == a.raw() % n(),
{
    lemma_mod_twice(a.raw(), n());
}

/// The bytes that `b32` gives for a normalized scalar decode, with no overflow, to the same
/// scalar.
pub proof fn lemma_bytes_round_trip(a: Scalar, bytes: Seq<u8>)
    requires
        a.is_normalized(),
        bytes.len() == 32,
        be_val(bytes) == a.raw(),
    ensures
        !(be_val(bytes) >= n()),
        be_val(bytes) % n() == a.raw(),
{
    lemma_small_mod(a.raw() as nat, n() as nat);
}

/// Exactly one of a nonzero scalar and its negation lies in the upper half: the low-S form of
/// a signature is unique.
pub proof fn lemma_low_s_unique(s: int)
    requires
        0 < s < n(),
    ensures
        (s > n() / 2) != (sneg(s) > n() / 2),
        sneg(s) == n() - s,
{
    lemma_mod_add_multiples_vanish(0 - s, n());
    lemma_small_mod((n() - s) as nat, n() as nat);
    assert(n() % 2 == 1);
}

/// The number that little-endian signed binary digits stand for: the sum of d[i] · 2^i.
pub open spec fn wnaf_val(d: Seq<i32>) -> int
    decreases d.len(),
{
    if d.len() == 0 {
        0
    } else {
        wnaf_val(d.drop_last()) + d.last() * pow2((d.len() - 1) as nat)
    }
}

/// A digit of the width-5 non-adjacent form: zero, or odd between -15 and 15.
pub open spec fn wnaf_digit(x: i32) -> bool {
    x == 0 || (x % 2 != 0 && -15 <= x <= 15)
}

/// Whether every nonzero digit is followed by at least four zero digits.
pub open spec fn non_adjacent(d: Seq<i32>) -> bool {
    forall|i: int, j: int|
        #![trigger d[i], d[j]]
        0 <= i < j < d.len() && j < i + 5 && d[i] != 0 ==> d[j] == 0
}

/// 2^o for the zero digits still owed after a nonzero one.
spec fn owed_modulus(o: int) -> int {
    if o <= 0 {
        1
    } else if o == 1 {
        2
    } else if o == 2 {
        4
    } else if o == 3 {
        8
    } else {
        16
    }
}

proof fn lemma_owed_even(k: int, o: int)
    requires
        k >= 0,
        0 < o <= 4,
        k % owed_modulus(o) == 0,
    ensures
        k % 2 == 0,
        (k / 2) % owed_modulus(o - 1) == 0,
{
    if o == 1 {
    } else if o == 2 {
        assert(k == 4 * (k / 4));
    } else if o == 3 {
        assert(k == 8 * (k / 8));
    } else {
        assert(k == 16 * (k / 16));
    }
}

/// The digit step keeps the owed zero digits: a nonzero digit comes only when none is owed,
/// and leaves four owed.
proof fn lemma_owed_step(k0: int, low: int, d: int, kn: int, owed: int)
    requires
        k0 >= 0,
        0 <= owed <= 4,
        k0 % owed_modulus(owed) == 0,
        low == k0 % 32,
        d == (if low % 2 == 0 {
            0
        } else if low >= 16 {
            low - 32
        } else {
            low
        }),
        k0 - d == 2 * kn,
    ensures
        d != 0 ==> owed == 0 && kn % 16 == 0,
        d == 0 && owed > 0 ==> kn % owed_modulus(owed - 1) == 0,
{
    if owed > 0 {
        lemma_owed_even(k0, owed);
    }
    if d != 0 {
        assert((k0 - d) % 32 == 0);
        assert(kn == 16 * ((k0 - d) / 32));
    }
}

/// Pushing a digit keeps every nonzero digit followed by four zero digits, when a nonzero
/// digit comes only with no zero digit owed.
proof fn lemma_non_adjacent_push(old: Seq<i32>, d: i32, owed: int)
    requires
        non_adjacent(old),
        0 <= owed <= 4,
        d != 0 ==> owed == 0,
        forall|i: int|
            0 <= i < old.len() && old.len() < i + 5 && #[trigger] old[i] != 0 ==> i + 5
                - old.len() <= owed,
    ensures
        non_adjacent(old.push(d)),
        forall|i: int|
            0 <= i < old.len() + 1 && old.len() + 1 < i + 5 && #[trigger] old.push(d)[i] != 0
                ==> i + 5 - (old.len() + 1) <= (if d != 0 {
                4
            } else if owed > 0 {
                owed - 1
            } else {
                0
            }),
{
    let nd = old.push(d);
    assert forall|i: int, j: int|
        #![trigger nd[i], nd[j]]
        0 <= i < j < nd.len() && j < i + 5 && nd[i] != 0 implies nd[j] == 0 by {
        if j == old.len() {
            assert(old[i] != 0);
        } else {
            assert(old[i] == nd[i] && old[j] == nd[j]);
        }
    }
    assert forall|i: int|
        0 <= i < old.len() + 1 && old.len() + 1 < i + 5 && #[trigger] nd[i] != 0 implies i + 5
            - (old.len() + 1) <= (if d != 0 {
            4
        } else if owed > 0 {
            owed - 1
        } else {
            0
        }) by {
        if i < old.len() {
            assert(old[i] == nd[i]);
        }
    }
}

proof fn lemma_wnaf_push(d: Seq<i32>, x: i32, k: int, kn: int)
    requires
        k - x == 2 * kn,
    ensures
        wnaf_val(d) + pow2(d.len()) * k == wnaf_val(d.push(x)) + pow2(d.len() + 1) * kn,
{
    assert(d.push(x).drop_last() =~= d);
    lemma_pow2_unfold(d.len() + 1);
    let q = pow2(d.len()) as int;
    assert(q * k == x * q + (2 * q) * kn) by (nonlinear_arith)
        requires
            k - x == 2 * kn,
    ;
}

/// The order as a number.
pub fn order() -> (r: U256)
    ensures
        r.val() == n(),
        valid_modulus(r.val()),
{
    U256 {
        l0: 0xBFD2_5E8C_D036_4141,
        l1: 0xBAAE_DCE6_AF48_A03B,
        l2: 0xFFFF_FFFF_FFFF_FFFE,
        l3: 0xFFFF_FFFF_FFFF_FFFF,
    }
}

/// A scalar. It holds a 256-bit number and stands for that number modulo n; every
/// operation returns one below n.
#[derive(Clone, Copy, Debug)]
pub struct Scalar {
    pub n: U256,
}

impl Scalar {
    /// The number held.
    pub open spec fn raw(self) -> int {
        self.n.val()
    }

    /// The residue this scalar stands for.
    pub open spec fn val(self) -> int {
        self.n.val() % n()
    }

    pub open spec fn is_normalized(self) -> bool {
        self.n.val() < n()
    }

    pub fn from_u64(x: u64) -> (r: Scalar)
        ensures
            r.raw() == x,
            r.is_normalized(),
            r.val() == r.raw(),
    {
        let r = Scalar { n: U256::from_u64(x) };
        proof {
            lemma_normalized_val(r);
        }
        r
    }

    /// Decodes 32 big-endian bytes and reduces them modulo n. The flag is set when the number
    /// was n or more.
    pub fn set_b32(b: &[u8; 32]) -> (r: (Scalar, bool))
        ensures
            r.0.is_normalized(),
            r.0.raw() == be_val(b@) % n(),
            r.0.val() == r.0.raw(),
            r.1 == (be_val(b@) >= n()),
    {
        let v = U256::from_b32(b);
        let m = order();
        let overflow = !v.lt(&m);
        let r = Scalar { n: reduce(&v, &m) };
        proof {
            lemma_normalized_val(r);
        }
        (r, overflow)
    }

    /// Reduces the number that a normalized field element holds modulo n.
    pub fn from_field(x: &Field) -> (r: Scalar)
        ensures
            r.is_normalized(),
            r.raw() == x.raw() % n(),
            r.val() == r.raw(),
    {
        let m = order();
        let r = Scalar { n: reduce(&x.n, &m) };
        proof {
            lemma_normalized_val(r);
        }
        r
    }

    /// The canonical encoding, 32 big-endian bytes.
    pub fn b32(&self) -> (r: [u8; 32])
        requires
            self.is_normalized(),
        ensures
            be_val(r@) == self.raw(),
    {
        self.n.to_b32()
    }

    pub fn is_zero(&self) -> (r: bool)
        requires
            self.is_normalized(),
        ensures
            r == (self.raw() == 0),
    {
        self.n.is_zero()
    }

    /// Whether the scalar lies in the upper half, above n / 2.
    pub fn is_high(&self) -> (r: bool)
        requires
            self.is_normalized(),
        ensures
            r == (self.raw() > n() / 2),
    {
        let half = U256 {
            l0: 0xDFE9_2F46_681B_20A0,
            l1: 0x5D57_6E73_57A4_501D,
            l2: 0xFFFF_FFFF_FFFF_FFFF,
            l3: 0x7FFF_FFFF_FFFF_FFFF,
        };
        half.lt(&self.n)
    }

    /// Equality of two normalized scalars.
    pub fn eq(&self, b: &Scalar) -> (r: bool)
        requires
            self.is_normalized(),
            b.is_normalized(),
        ensures
            r == (self.raw() == b.raw()),
    {
        self.n == b.n
    }

    pub fn add(&self, b: &Scalar) -> (r: Scalar)
        ensures
            r.is_normalized(),
            r.raw() == sadd(self.val(), b.val()),
            r.val() == r.raw(),
    {
        let m = order();
        let r = Scalar { n: add_mod(&reduce(&self.n, &m), &reduce(&b.n, &m), &m) };
        proof {
            lemma_normalized_val(r);
        }
        r
    }

    pub fn neg(&self) -> (r: Scalar)
        ensures
            r.is_normalized(),
            r.raw() == sneg(self.val()),
            r.val() == r.raw(),
    {
        let m = order();
        let r = Scalar { n: neg_mod(&reduce(&self.n, &m), &m) };
        proof {
            lemma_normalized_val(r);
        }
        r
    }

    pub fn mul(&self, b: &Scalar) -> (r: Scalar)
        ensures
            r.is_normalized(),
            r.raw() == smul(self.val(), b.val()),
            r.val() == r.raw(),
    {
        let m = order();
        let r = Scalar { n: mul_mod(&reduce(&self.n, &m), &reduce(&b.n, &m), &m) };
        proof {
            lemma_normalized_val(r);
        }
        r
    }

    /// The width-5 windowed non-adjacent form of the scalar: little-endian signed digits,
    /// each zero or odd in -15..=15, that stand for the scalar's value.
    pub fn wnaf(&self) -> (r: Vec<i32>)
        ensures
            wnaf_val(r@) == self.val(),
            forall|i: int| 0 <= i < r@.len() ==> #[trigger] wnaf_digit(r@[i]),
            non_adjacent(r@),
    {
        let m = order();
        let mut k = reduce(&self.n, &m);
        let mut digits: Vec<i32> = Vec::new();
        let ghost mut owed: int = 0;
        proof {
            assert(wnaf_val(digits@) == 0);
            lemma2_to64();
        }
        while !k.is_zero()
            invariant
                k.val() < n(),
                wnaf_val(digits@) + pow2(digits@.len()) * k.val() == self.val(),
                forall|i: int| 0 <= i < digits@.len() ==> #[trigger] wnaf_digit(digits@[i]),
                non_adjacent(digits@),
                0 <= owed <= 4,
                k.val() % owed_modulus(owed) == 0,
                forall|i: int|
                    0 <= i < digits@.len() && digits@.len() < i + 5 && #[trigger] digits@[i] != 0
                        ==> i + 5 - digits@.len() <= owed,
            decreases k.val(),
        {
            let ghost k0 = k.val();
            let low: u64 = k.l0 % 32;
            assert(k.val() % 32 == low) by {
                assert(k.val() == k.l0 + 32 * (0x800_0000_0000_0000 * (k.l1 + crate::uint::limb_base()
                    * (k.l2 + crate::uint::limb_base() * k.l3))));
            }
            let d: i32 = if low % 2 == 0 {
                0
            } else if low >= 16 {
                low as i32 - 32
            } else {
                low as i32
            };
            let adjusted = if d < 0 {
                let (s, _) = k.add(&U256::from_u64((0 - d) as u64));
                s
            } else {
                let (s, _) = k.sub(&U256::from_u64(d as u64));
                s
            };
            assert(adjusted.val() == k0 - d);
            k = adjusted.shr1();
            proof {
                assert((k0 - d) % 2 == 0);
                lemma_wnaf_push(digits@, d, k0, k.val());
                lemma_owed_step(k0, low as int, d as int, k.val(), owed);
                lemma_non_adjacent_push(digits@, d, owed);
                owed = if d != 0 { 4 } else if owed > 0 { owed - 1 } else { 0 };
            }
            digits.push(d);
        }
        assert(k.val() == 0);
        assert(pow2(digits@.len()) * k.val() == 0) by (nonlinear_arith)
            requires
                k.val() == 0,
        ;
        digits
    }

    /// The inverse s^(n-2), by Fermat's little theorem; zero for zero.
    pub fn inv(&self) -> (r: Scalar)
        ensures
            r.is_normalized(),
            r.raw() == sinv(self.val()),
            r.val() == r.raw(),
    {
        let m = order();
        let e = U256 {
            l0: 0xBFD2_5E8C_D036_413F,
            l1: 0xBAAE_DCE6_AF48_A03B,
            l2: 0xFFFF_FFFF_FFFF_FFFE,
            l3: 0xFFFF_FFFF_FFFF_FFFF,
        };
        let r = Scalar { n: pow_mod(&reduce(&self.n, &m), &e, &m) };
        proof {
            lemma_normalized_val(r);
        }
        r
    }
}

} // verus!
