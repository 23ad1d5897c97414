//! Arithmetic on 256-bit residues modulo a large modulus (above 2^255), shared by the
//! field and the scalars.
use vstd::prelude::*;
use vstd::arithmetic::div_mod::*;
use vstd::arithmetic::power::*;
use crate::uint::{U256, u256_bound};

verus! {

/// A modulus that this module can work with: above 2^255, so that any 256-bit number
/// is below twice the modulus.
pub open spec fn valid_modulus(m: int) -> bool {
    2 * m > u256_bound() && m < u256_bound()
}

/// The number reduced modulo `m`.
pub fn reduce(a: &U256, m: &U256) -> (r: U256)
    requires
        valid_modulus(m.val()),
    ensures
        r.val() == a.val() % m.val(),
        r.val() < m.val(),
{
    if a.lt(m) {
        proof {
            lemma_small_mod((a.val()) as nat, m.val() as nat);
        }
        *a
    } else {
        let r = a.sub(m).0;
        proof {
            lemma_mod_sub_multiples_vanish(a.val(), m.val());
            lemma_small_mod(((a.val() - m.val()) as nat) as nat, m.val() as nat);
        }
        r
    }
}

/// The sum of two residues.
pub fn add_mod(a: &U256, b: &U256, m: &U256) -> (r: U256)
    requires
        valid_modulus(m.val()),
        a.val() < m.val(),
        b.val() < m.val(),
    ensures
        r.val() == (a.val() + b.val()) % m.val(),
        r.val() < m.val(),
{
    let (s, carry) = a.add(b);
    if carry || !s.lt(m) {
        let r = s.sub(m).0;
        proof {
            lemma_mod_sub_multiples_vanish(a.val() + b.val(), m.val());
            lemma_small_mod(((a.val() + b.val() - m.val()) as nat) as nat, m.val() as nat);
        }
        r
    } else {
        proof {
            lemma_small_mod((s.val()) as nat, m.val() as nat);
        }
        s
    }
}

/// The negation of a residue.
pub fn neg_mod(a: &U256, m: &U256) -> (r: U256)
    requires
        valid_modulus(m.val()),
        a.val() < m.val(),
    ensures
        r.val() == (0 - a.val()) % m.val(),
        r.val() < m.val(),
{
    if a.is_zero() {
        U256::zero()
    } else {
        let r = m.sub(a).0;
        proof {
            lemma_mod_add_multiples_vanish(0 - a.val(), m.val());
            lemma_small_mod(((m.val() - a.val()) as nat) as nat, m.val() as nat);
        }
        r
    }
}

/// The difference of two residues.
pub fn sub_mod(a: &U256, b: &U256, m: &U256) -> (r: U256)
    requires
        valid_modulus(m.val()),
        a.val() < m.val(),
        b.val() < m.val(),
    ensures
        r.val() == (a.val() - b.val()) % m.val(),
        r.val() < m.val(),
{
    let nb = neg_mod(b, m);
    let r = add_mod(a, &nb, m);
    proof {
        lemma_add_mod_noop_right(a.val(), 0 - b.val(), m.val());
        lemma_small_mod((a.val()) as nat, m.val() as nat);
    }
    r
}

proof fn lemma_mul_step(acc: int, d: int, bit: int, half: int, m: int)
    requires
        m > 0,
    ensures
        ((acc + bit * d) % m + ((d + d) % m) * half) % m == (acc + d * (2 * half + bit)) % m,
{
    let x = acc + bit * d;
    let y = (d + d) * half;
    let z = ((d + d) % m) * half;
    lemma_mul_mod_noop_left(d + d, half, m);
    assert(z % m == y % m);
    lemma_add_mod_noop(x % m, z, m);
    lemma_mod_twice(x, m);
    lemma_add_mod_noop(x, y, m);
    assert((x % m + z) % m == (x + y) % m);
    assert(x + y == acc + d * (2 * half + bit)) by (nonlinear_arith)
        requires
            x == acc + bit * d,
            y == (d + d) * half,
    ;
}

/// The product of two residues, by doubling and adding over the bits of `b`.
pub fn mul_mod(a: &U256, b: &U256, m: &U256) -> (r: U256)
    requires
        valid_modulus(m.val()),
        a.val() < m.val(),
    ensures
        r.val() == (a.val() * b.val()) % m.val(),
        r.val() < m.val(),
{
    let mut acc = U256::zero();
    let mut d = *a;
    let mut rest = *b;
    proof {
        lemma_small_mod((a.val() * b.val() % m.val()) as nat, m.val() as nat);
    }
    while !rest.is_zero()
        invariant
            valid_modulus(m.val()),
            acc.val() < m.val(),
            d.val() < m.val(),
            (acc.val() + d.val() * rest.val()) % m.val() == (a.val() * b.val()) % m.val(),
        decreases rest.val(),
    {
        let half = rest.shr1();
        let odd = rest.is_odd();
        let ghost bit: int = if odd { 1 } else { 0 };
        let ghost old_acc = acc.val();
        let ghost old_d = d.val();
        if odd {
            acc = add_mod(&acc, &d, m);
            assert(old_acc + bit * old_d == old_acc + old_d);
        } else {
            proof {
                lemma_small_mod((acc.val()) as nat, m.val() as nat);
            }
            assert(old_acc + bit * old_d == old_acc);
        }
        d = add_mod(&d, &d, m);
        proof {
            assert(rest.val() == 2 * half.val() + bit);
            lemma_mul_step(old_acc, old_d, bit, half.val(), m.val());
            assert(acc.val() == (old_acc + bit * old_d) % m.val());
        }
        rest = half;
    }
    proof {
        lemma_small_mod((acc.val()) as nat, m.val() as nat);
    }
    acc
}

proof fn lemma_pow_step(acc: int, base: int, bit: nat, half: nat, m: int)
    requires
        m > 0,
        bit <= 1,
    ensures
        ((if bit == 1 { (acc * base) % m } else { acc % m }) * pow((base * base) % m, half)) % m
            == (acc * pow(base, 2 * half + bit)) % m,
{
    let c = if bit == 1 { acc * base } else { acc };
    let q = pow((base * base) % m, half);
    let r = pow(base * base, half);
    lemma_pow_mod_noop(base * base, half, m);
    lemma_mul_mod_noop_left(c, q, m);
    lemma_mul_mod_noop_right(c, q, m);
    lemma_mul_mod_noop_right(c, r, m);
    assert((c * q) % m == (c * r) % m);
    lemma_square_is_pow2(base);
    lemma_pow_multiplies(base, 2, half);
    assert(r == pow(base, 2 * half));
    lemma_pow_adds(base, 2 * half, bit);
    lemma_pow1(base);
    lemma_pow0(base);
    if bit == 1 {
        assert(pow(base, bit) == base);
        assert(c * r == acc * pow(base, 2 * half + bit)) by (nonlinear_arith)
            requires
                c == acc * base,
                pow(base, 2 * half + bit) == pow(base, 2 * half) * pow(base, bit),
                pow(base, bit) == base,
                r == pow(base, 2 * half),
        ;
    } else {
        assert(pow(base, bit) == 1);
        assert(pow(base, 2 * half + bit) == pow(base, 2 * half));
    }
}

/// A residue raised to the power `e`, by squaring and multiplying over the bits of `e`.
pub fn pow_mod(a: &U256, e: &U256, m: &U256) -> (r: U256)
    requires
        valid_modulus(m.val()),
        a.val() < m.val(),
    ensures
        r.val() == pow(a.val(), e.val() as nat) % m.val(),
        r.val() < m.val(),
{
    let mut acc = U256::from_u64(1);
    let mut base = *a;
    let mut rest = *e;
    proof {
        lemma_small_mod((1) as nat, m.val() as nat);
        lemma_pow0(0);
        assert(pow(a.val(), e.val() as nat) % m.val() == (1 * pow(base.val(), rest.val() as nat)) % m.val());
    }
    while !rest.is_zero()
        invariant
            valid_modulus(m.val()),
            acc.val() < m.val(),
            base.val() < m.val(),
            (acc.val() * pow(base.val(), rest.val() as nat)) % m.val() == pow(a.val(), e.val() as nat) % m.val(),
        decreases rest.val(),
    {
        let half = rest.shr1();
        let ghost bit: nat = (rest.val() % 2) as nat;
        let ghost old_acc = acc.val() as int;
        let ghost old_base = base.val();
        if rest.is_odd() {
            acc = mul_mod(&acc, &base, m);
        } else {
            proof {
                lemma_small_mod((acc.val()) as nat, m.val() as nat);
            }
        }
        base = mul_mod(&base, &base, m);
        proof {
            lemma_pow_step(old_acc, old_base, bit, half.val() as nat, m.val());
        }
        rest = half;
    }
    proof {
        lemma_pow0(base.val());
        lemma_small_mod((acc.val()) as nat, m.val() as nat);
    }
    acc
}

} // verus!
