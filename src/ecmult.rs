//! Scalar multiplication of curve points.
use vstd::prelude::*;
use vstd::arithmetic::power2::*;
use crate::uint::{U256, u256_bound, limb_base};
use crate::scalar::{Scalar, wnaf_val, wnaf_digit, non_adjacent};
use crate::field::fneg;
use crate::group::{
    Affine, Jacobian, AffineV, JacobianV, jac_add, jac_double, affine_to_jac, infinity_v,
};

verus! {

/// Double-and-add over the bits of `k`, from the least significant one: `acc` collects the
/// multiples of the addend `d` that the set bits ask for, and `d` doubles at each bit.
pub open spec fn mult_rl(k: int, acc: JacobianV, d: JacobianV) -> JacobianV
    decreases k,
{
    if k <= 0 {
        acc
    } else {
        mult_rl(k / 2, if k % 2 == 1 { jac_add(acc, d) } else { acc }, jac_double(d))
    }
}

/// k·P, as double-and-add computes it.
pub open spec fn mult_spec(k: int, pt: AffineV) -> JacobianV {
    mult_rl(k, infinity_v(), affine_to_jac(pt))
}

proof fn lemma_u256_bound_pow2()
    ensures
        pow2(256) == u256_bound(),
{
    lemma2_to64();
    lemma_pow2_adds(64, 64);
    lemma_pow2_adds(128, 128);
    assert(pow2(128) == 0x1_0000_0000_0000_0000 * 0x1_0000_0000_0000_0000);
    let b = limb_base();
    assert(b * b * b * b == (b * b) * (b * b)) by (nonlinear_arith);
}

/// The Jacobian negation (X, -Y, Z).
pub open spec fn jac_neg(a: JacobianV) -> JacobianV {
    if a.3 {
        a
    } else {
        (a.0, fneg(a.1), a.2, false)
    }
}

/// The odd multiple (2j + 1)·P, as P + 2P + ... + 2P computes it.
pub open spec fn odd_multiple(base: JacobianV, j: nat) -> JacobianV
    decreases j,
{
    if j == 0 {
        base
    } else {
        jac_add(odd_multiple(base, (j - 1) as nat), jac_double(base))
    }
}

/// One digit of a windowed product: add the table entry for |d|, negated when d < 0.
pub open spec fn add_digit(acc: JacobianV, d: i32, table: Seq<JacobianV>) -> JacobianV {
    if d > 0 {
        jac_add(acc, table[(d - 1) / 2])
    } else if d < 0 {
        jac_add(acc, jac_neg(table[(-d - 1) / 2]))
    } else {
        acc
    }
}

/// The product by little-endian signed digits: from the most significant digit down, one
/// doubling per digit and one addition per nonzero digit.
pub open spec fn wnaf_eval(d: Seq<i32>, table: Seq<JacobianV>) -> JacobianV
    decreases d.len(),
{
    if d.len() == 0 {
        infinity_v()
    } else {
        add_digit(jac_double(wnaf_eval(d.drop_first(), table)), d[0], table)
    }
}

/// The view of a table of points.
pub open spec fn table_view(t: Seq<Jacobian>) -> Seq<JacobianV> {
    t.map_values(|p: Jacobian| p@)
}

/// Whether `t` holds P, 3P, ..., 15P for the point `base`.
pub open spec fn is_odd_table(t: Seq<Jacobian>, base: JacobianV) -> bool {
    &&& t.len() == 8
    &&& forall|j: int| 0 <= j < 8 ==> (#[trigger] t[j]).is_normalized()
    &&& forall|j: int| 0 <= j < 8 ==> (#[trigger] t[j])@ == odd_multiple(base, j as nat)
}

/// The table P, 3P, ..., 15P of odd multiples of a point.
pub fn odd_table(base: &Jacobian) -> (r: Vec<Jacobian>)
    requires
        base.is_normalized(),
    ensures
        is_odd_table(r@, base@),
{
    let two = base.double();
    let mut t: Vec<Jacobian> = Vec::new();
    t.push(*base);
    let mut j: usize = 1;
    while j < 8
        invariant
            1 <= j <= 8,
            t@.len() == j,
            two@ == jac_double(base@),
            two.is_normalized(),
            forall|i: int| 0 <= i < j ==> (#[trigger] t@[i]).is_normalized(),
            forall|i: int| 0 <= i < j ==> (#[trigger] t@[i])@ == odd_multiple(base@, i as nat),
        decreases 8 - j,
    {
        let next = t[j - 1].add(&two);
        t.push(next);
        j = j + 1;
    }
    t
}

/// The product by the signed digits `d`, with the odd multiples of the point in `table`;
/// the sequence of additions depends on the digits, so this is for public scalars only.
pub fn mult_wnaf(d: &Vec<i32>, table: &Vec<Jacobian>) -> (r: Jacobian)
    requires
        table@.len() == 8,
        forall|j: int| 0 <= j < 8 ==> (#[trigger] table@[j]).is_normalized(),
        forall|i: int| 0 <= i < d@.len() ==> #[trigger] wnaf_digit(d@[i]),
    ensures
        r@ == wnaf_eval(d@, table_view(table@)),
        r.is_normalized(),
{
    let ghost tv = table_view(table@);
    let mut acc = Jacobian::infinity();
    let mut i: usize = d.len();
    assert(d@.subrange(i as int, d@.len() as int).len() == 0);
    while i > 0
        invariant
            i <= d@.len(),
            tv == table_view(table@),
            table@.len() == 8,
            forall|j: int| 0 <= j < 8 ==> (#[trigger] table@[j]).is_normalized(),
            forall|k: int| 0 <= k < d@.len() ==> #[trigger] wnaf_digit(d@[k]),
            acc.is_normalized(),
            acc@ == wnaf_eval(d@.subrange(i as int, d@.len() as int), tv),
        decreases i,
    {
        i = i - 1;
        let ghost rest = d@.subrange(i + 1, d@.len() as int);
        let ghost cur = d@.subrange(i as int, d@.len() as int);
        assert(cur.drop_first() =~= rest);
        assert(wnaf_digit(d@[i as int]));
        acc = acc.double();
        let x = d[i];
        if x > 0 {
            let e = table[((x - 1) / 2) as usize];
            acc = acc.add(&e);
        } else if x < 0 {
            let e = table[((-x - 1) / 2) as usize];
            acc = acc.add(&e.neg());
        }
    }
    assert(d@.subrange(0, d@.len() as int) =~= d@);
    acc
}

/// The small multiples: 0·P is the point at infinity, 1·P is P and 2·P is P doubled.
pub proof fn lemma_mult_small(pt: AffineV)
    ensures
        mult_spec(0, pt) == infinity_v(),
        mult_spec(1, pt) == affine_to_jac(pt),
        mult_spec(2, pt) == jac_double(affine_to_jac(pt)),
{
    reveal_with_fuel(mult_rl, 3);
    let a = affine_to_jac(pt);
    assert(jac_add(infinity_v(), a) == a);
    assert(jac_add(infinity_v(), jac_double(a)) == jac_double(a));
}

/// The context of scalar multiplication: it holds the generator, which every product by
/// the generator uses, and is never changed after it is built.
#[derive(Debug)]
pub struct ECMultContext {
    pub g: Affine,
    pub g_table: Vec<Jacobian>,
}

impl ECMultContext {
    pub open spec fn wf(self) -> bool {
        self.g.is_normalized() && self.g.x.raw() == crate::group::gx() && self.g.y.raw()
            == crate::group::gy() && !self.g.infinity && is_odd_table(
            self.g_table@,
            affine_to_jac(self.g@),
        )
    }

    pub fn new() -> (r: ECMultContext)
        ensures
            r.wf(),
    {
        let g = Affine::generator();
        let g_table = odd_table(&g.to_jacobian());
        ECMultContext { g, g_table }
    }

    /// k·P, by double-and-add over all 256 bits of k: one doubling and one addition per bit,
    /// however many of them are set; the sum is kept only for the set bits.
    pub fn mult(&self, k: &Scalar, pt: &Affine) -> (r: Jacobian)
        ensures
            r@ == mult_spec(k.raw(), pt@),
            r.is_normalized(),
    {
        let mut acc = Jacobian::infinity();
        let mut d = pt.to_jacobian();
        let mut rest: U256 = k.n;
        let mut i: u64 = 0;
        proof {
            lemma_u256_bound_pow2();
        }
        while i < 256
            invariant
                i <= 256,
                acc.is_normalized(),
                d.is_normalized(),
                0 <= rest.val() < pow2((256 - i) as nat),
                mult_rl(rest.val(), acc@, d@) == mult_spec(k.raw(), pt@),
            decreases 256 - i,
        {
            let half = rest.shr1();
            let sum = acc.add(&d);
            let odd = rest.is_odd();
            acc = if odd { sum } else { acc };
            d = d.double();
            proof {
                lemma_pow2_unfold((256 - i) as nat);
                if rest.val() == 0 {
                    assert(half.val() == 0);
                }
            }
            rest = half;
            i = i + 1;
        }
        proof {
            lemma2_to64();
        }
        acc
    }

    /// k·G for the generator G.
    pub fn mult_gen(&self, k: &Scalar) -> (r: Jacobian)
        ensures
            r@ == mult_spec(k.raw(), self.g@),
            r.is_normalized(),
    {
        self.mult(k, &self.g)
    }

    /// k·G through the precomputed table of the generator and the windowed non-adjacent form
    /// of k; for public scalars only.
    pub fn mult_gen_var(&self, k: &Scalar) -> (r: Jacobian)
        requires
            self.wf(),
        ensures
            r.is_normalized(),
            exists|d: Seq<i32>|
                wnaf_val(d) == k.val() && (forall|i: int| 0 <= i < d.len() ==> #[trigger] wnaf_digit(d[i]))
                    && non_adjacent(d) && r@ == wnaf_eval(d, table_view(self.g_table@)),
    {
        let d = k.wnaf();
        mult_wnaf(&d, &self.g_table)
    }

    /// a·G + b·Q, the combination that verification needs.
    pub fn mult_combined(&self, a: &Scalar, b: &Scalar, q: &Affine) -> (r: Jacobian)
        ensures
            r@ == jac_add(mult_spec(a.raw(), self.g@), mult_spec(b.raw(), q@)),
            r.is_normalized(),
    {
        let ag = self.mult_gen(a);
        let bq = self.mult(b, q);
        ag.add(&bq)
    }
}

} // verus!
