//! Points of the curve y^2 = x^3 + 7 and the group law, in affine and Jacobian coordinates.
use vstd::prelude::*;
use crate::uint::U256;
use vstd::arithmetic::div_mod::*;
use crate::field::{Field, p, fadd, fsub, fneg, fmul, finv, lemma_normalized_val};

verus! {

/// An affine point as residues: (x, y, is the point at infinity).
pub type AffineV = (int, int, bool);

/// A Jacobian point as residues: (X, Y, Z, is the point at infinity); it stands for the
/// affine point (X / Z^2, Y / Z^3).
pub type JacobianV = (int, int, int, bool);

pub open spec fn infinity_v() -> JacobianV {
    (0, 0, 0, true)
}

/// Whether (x, y) satisfies y^2 = x^3 + 7 modulo p.
pub open spec fn on_curve(x: int, y: int) -> bool {
    fmul(y, y) == fadd(fmul(fmul(x, x), x), 7)
}

/// The affine negation: (x, -y).
pub open spec fn neg_v(a: AffineV) -> AffineV {
    (a.0, fneg(a.1), a.2)
}

/// The doubling formula in Jacobian coordinates, with its own case for y = 0.
pub open spec fn jac_double(a: JacobianV) -> JacobianV {
    if a.3 || a.1 == 0 {
        infinity_v()
    } else {
        let yy = fmul(a.1, a.1);
        let s = fmul(fmul(a.0, yy), 4);
        let m = fmul(fmul(a.0, a.0), 3);
        let x3 = fsub(fmul(m, m), fadd(s, s));
        let y3 = fsub(fmul(m, fsub(s, x3)), fmul(fmul(yy, yy), 8));
        let z3 = fmul(fmul(a.1, a.2), 2);
        (x3, y3, z3, false)
    }
}

/// The addition formula in Jacobian coordinates: infinity is neutral, P + (-P) is infinity
/// and P + P goes to the doubling formula.
pub open spec fn jac_add(a: JacobianV, b: JacobianV) -> JacobianV {
    if a.3 {
        b
    } else if b.3 {
        a
    } else {
        let z1z1 = fmul(a.2, a.2);
        let z2z2 = fmul(b.2, b.2);
        let u1 = fmul(a.0, z2z2);
        let u2 = fmul(b.0, z1z1);
        let s1 = fmul(a.1, fmul(b.2, z2z2));
        let s2 = fmul(b.1, fmul(a.2, z1z1));
        if u1 == u2 {
            if s1 == s2 {
                jac_double(a)
            } else {
                infinity_v()
            }
        } else {
            let h = fsub(u2, u1);
            let r = fsub(s2, s1);
            let hh = fmul(h, h);
            let hhh = fmul(h, hh);
            let v = fmul(u1, hh);
            let x3 = fsub(fsub(fmul(r, r), hhh), fadd(v, v));
            let y3 = fsub(fmul(r, fsub(v, x3)), fmul(s1, hhh));
            let z3 = fmul(h, fmul(a.2, b.2));
            (x3, y3, z3, false)
        }
    }
}

/// The affine point that a Jacobian point stands for.
pub open spec fn jac_to_affine(a: JacobianV) -> AffineV {
    if a.3 {
        (0, 0, true)
    } else {
        let zi = finv(a.2);
        let zi2 = fmul(zi, zi);
        (fmul(a.0, zi2), fmul(a.1, fmul(zi2, zi)), false)
    }
}

/// The Jacobian form (x, y, 1) of an affine point.
pub open spec fn affine_to_jac(a: AffineV) -> JacobianV {
    if a.2 {
        infinity_v()
    } else {
        (a.0, a.1, 1, false)
    }
}

/// The point at infinity is neutral on both sides.
pub proof fn lemma_add_infinity(a: JacobianV)
    requires
        a.3 ==> a == infinity_v(),
    ensures
        jac_add(a, infinity_v()) == a,
        jac_add(infinity_v(), a) == a,
{
}

/// A finite point plus its negation is the point at infinity.
pub proof fn lemma_add_neg_is_infinity(a: AffineV)
    requires
        !a.2,
        0 <= a.0 < p(),
        0 <= a.1 < p(),
    ensures
        jac_add(affine_to_jac(a), affine_to_jac(neg_v(a))).3,
{
    let b = neg_v(a);
    lemma_small_mod(1, p() as nat);
    lemma_small_mod(a.0 as nat, p() as nat);
    lemma_small_mod(a.1 as nat, p() as nat);
    assert(fmul(1, 1) == 1);
    assert(fmul(a.0, 1) == a.0);
    assert(fmul(a.1, fmul(1, 1)) == a.1);
    if a.1 == 0 {
        lemma_small_mod(0, p() as nat);
        assert(b.1 == 0);
    } else {
        lemma_mod_add_multiples_vanish(0 - a.1, p());
        lemma_small_mod((p() - a.1) as nat, p() as nat);
        assert(b.1 == p() - a.1);
        lemma_small_mod(b.1 as nat, p() as nat);
        assert(fmul(b.1, fmul(1, 1)) == b.1);
        assert(p() % 2 == 1);
    }
}

/// The generator lies on the curve.
pub proof fn lemma_generator_on_curve()
    ensures
        on_curve(gx(), gy()),
{
    let b: int = (0x1_0000_0000_0000_0000 * 0x1_0000_0000_0000_0000) as int;
    let x = gx();
    let y = gy();
    let pp = p();
    let v: int = (0xf16f_80a5_48e5_e20a_44e4_e9b8_118c_26f2 + b * (0x4866_d6a5_ab41_ab2c_6bcc_57cc_d373_5da5)) as int;
    let q1: int = (0x70f6_ec67_8fe7_5b56_871b_f154_987e_3e12 + b * (0x1461_286a_be28_c5f1_df2d_7d4b_ca39_1b50)) as int;
    let q2: int = (0x00f3_38ef_ec38_b3eb_3b78_0b1e_8c92_23fb + b * (0xa75f_9cdb_dd2b_234a_ea3e_62ca_e573_9834 + b * (0x9761_c973_0b7a_eedf_75fc_60f6_a33c_fc77 + b * (0x1b88_8e01_a06e_9740_17a2_8a5b_4da4_3616)))) as int;
    assert(x == 0x029b_fcdb_2dce_28d9_59f2_815b_16f8_1798 + b * (0x79be_667e_f9dc_bbac_55a0_6295_ce87_0b07));
    assert(y == 0xfd17_b448_a685_5419_9c47_d08f_fb10_d4b8 + b * (0x483a_da77_26a3_c465_5da4_fbfc_0e11_08a8));
    assert(pp == 0xffff_ffff_ffff_ffff_ffff_fffe_ffff_fc2f + b * (0xffff_ffff_ffff_ffff_ffff_ffff_ffff_ffff));
    assert(y * y == q1 * pp + v) by (nonlinear_arith)
        requires
            b == 0x1_0000_0000_0000_0000 * 0x1_0000_0000_0000_0000,
            x == 0x029b_fcdb_2dce_28d9_59f2_815b_16f8_1798 + b * (0x79be_667e_f9dc_bbac_55a0_6295_ce87_0b07),
            y == 0xfd17_b448_a685_5419_9c47_d08f_fb10_d4b8 + b * (0x483a_da77_26a3_c465_5da4_fbfc_0e11_08a8),
            pp == 0xffff_ffff_ffff_ffff_ffff_fffe_ffff_fc2f + b * (0xffff_ffff_ffff_ffff_ffff_ffff_ffff_ffff),
            v == 0xf16f_80a5_48e5_e20a_44e4_e9b8_118c_26f2 + b * (0x4866_d6a5_ab41_ab2c_6bcc_57cc_d373_5da5),
            q1 == 0x70f6_ec67_8fe7_5b56_871b_f154_987e_3e12 + b * (0x1461_286a_be28_c5f1_df2d_7d4b_ca39_1b50),
            q2 == 0x00f3_38ef_ec38_b3eb_3b78_0b1e_8c92_23fb + b * (0xa75f_9cdb_dd2b_234a_ea3e_62ca_e573_9834 + b * (0x9761_c973_0b7a_eedf_75fc_60f6_a33c_fc77 + b * (0x1b88_8e01_a06e_9740_17a2_8a5b_4da4_3616))),
    ;
    assert(x * x * x + 7 == q2 * pp + v) by (nonlinear_arith)
        requires
            b == 0x1_0000_0000_0000_0000 * 0x1_0000_0000_0000_0000,
            x == 0x029b_fcdb_2dce_28d9_59f2_815b_16f8_1798 + b * (0x79be_667e_f9dc_bbac_55a0_6295_ce87_0b07),
            y == 0xfd17_b448_a685_5419_9c47_d08f_fb10_d4b8 + b * (0x483a_da77_26a3_c465_5da4_fbfc_0e11_08a8),
            pp == 0xffff_ffff_ffff_ffff_ffff_fffe_ffff_fc2f + b * (0xffff_ffff_ffff_ffff_ffff_ffff_ffff_ffff),
            v == 0xf16f_80a5_48e5_e20a_44e4_e9b8_118c_26f2 + b * (0x4866_d6a5_ab41_ab2c_6bcc_57cc_d373_5da5),
            q1 == 0x70f6_ec67_8fe7_5b56_871b_f154_987e_3e12 + b * (0x1461_286a_be28_c5f1_df2d_7d4b_ca39_1b50),
            q2 == 0x00f3_38ef_ec38_b3eb_3b78_0b1e_8c92_23fb + b * (0xa75f_9cdb_dd2b_234a_ea3e_62ca_e573_9834 + b * (0x9761_c973_0b7a_eedf_75fc_60f6_a33c_fc77 + b * (0x1b88_8e01_a06e_9740_17a2_8a5b_4da4_3616))),
    ;
    lemma_fundamental_div_mod_converse_mod(y * y, pp, q1, v);
    lemma_fundamental_div_mod_converse_mod(x * x * x + 7, pp, q2, v);
    lemma_mul_mod_noop_left(x * x, x, pp);
    lemma_add_mod_noop(x * x * x, 7, pp);
    lemma_small_mod(7, pp as nat);
    lemma_mod_twice(x * x * x, pp);
}

/// The generator with 1 added to its y coordinate is off the curve.
pub proof fn lemma_perturbed_generator_off_curve()
    ensures
        !on_curve(gx(), fadd(gy(), 1)),
{
    let b: int = (0x1_0000_0000_0000_0000 * 0x1_0000_0000_0000_0000) as int;
    let x = gx();
    let y = gy();
    let pp = p();
    let v: int = (0xf16f_80a5_48e5_e20a_44e4_e9b8_118c_26f2 + b * (0x4866_d6a5_ab41_ab2c_6bcc_57cc_d373_5da5)) as int;
    let w: int = (0xeb9e_e936_95f0_8a3d_7d74_8ad8_07ad_d063 + b * (0xd8dc_8b93_f889_33f7_2716_4fc4_ef95_6ef7)) as int;
    let q2: int = (0x00f3_38ef_ec38_b3eb_3b78_0b1e_8c92_23fb + b * (0xa75f_9cdb_dd2b_234a_ea3e_62ca_e573_9834 + b * (0x9761_c973_0b7a_eedf_75fc_60f6_a33c_fc77 + b * (0x1b88_8e01_a06e_9740_17a2_8a5b_4da4_3616)))) as int;
    let q3: int = (0x70f6_ec67_8fe7_5b56_871b_f154_987e_3e12 + b * (0x1461_286a_be28_c5f1_df2d_7d4b_ca39_1b50)) as int;
    assert(x == 0x029b_fcdb_2dce_28d9_59f2_815b_16f8_1798 + b * (0x79be_667e_f9dc_bbac_55a0_6295_ce87_0b07));
    assert(y == 0xfd17_b448_a685_5419_9c47_d08f_fb10_d4b8 + b * (0x483a_da77_26a3_c465_5da4_fbfc_0e11_08a8));
    assert(pp == 0xffff_ffff_ffff_ffff_ffff_fffe_ffff_fc2f + b * (0xffff_ffff_ffff_ffff_ffff_ffff_ffff_ffff));
    lemma_small_mod((y + 1) as nat, pp as nat);
    assert((y + 1) * (y + 1) == q3 * pp + w) by (nonlinear_arith)
        requires
            b == 0x1_0000_0000_0000_0000 * 0x1_0000_0000_0000_0000,
            x == 0x029b_fcdb_2dce_28d9_59f2_815b_16f8_1798 + b * (0x79be_667e_f9dc_bbac_55a0_6295_ce87_0b07),
            y == 0xfd17_b448_a685_5419_9c47_d08f_fb10_d4b8 + b * (0x483a_da77_26a3_c465_5da4_fbfc_0e11_08a8),
            pp == 0xffff_ffff_ffff_ffff_ffff_fffe_ffff_fc2f + b * (0xffff_ffff_ffff_ffff_ffff_ffff_ffff_ffff),
            v == 0xf16f_80a5_48e5_e20a_44e4_e9b8_118c_26f2 + b * (0x4866_d6a5_ab41_ab2c_6bcc_57cc_d373_5da5),
            w == 0xeb9e_e936_95f0_8a3d_7d74_8ad8_07ad_d063 + b * (0xd8dc_8b93_f889_33f7_2716_4fc4_ef95_6ef7),
            q2 == 0x00f3_38ef_ec38_b3eb_3b78_0b1e_8c92_23fb + b * (0xa75f_9cdb_dd2b_234a_ea3e_62ca_e573_9834 + b * (0x9761_c973_0b7a_eedf_75fc_60f6_a33c_fc77 + b * (0x1b88_8e01_a06e_9740_17a2_8a5b_4da4_3616))),
            q3 == 0x70f6_ec67_8fe7_5b56_871b_f154_987e_3e12 + b * (0x1461_286a_be28_c5f1_df2d_7d4b_ca39_1b50),
    ;
    assert(x * x * x + 7 == q2 * pp + v) by (nonlinear_arith)
        requires
            b == 0x1_0000_0000_0000_0000 * 0x1_0000_0000_0000_0000,
            x == 0x029b_fcdb_2dce_28d9_59f2_815b_16f8_1798 + b * (0x79be_667e_f9dc_bbac_55a0_6295_ce87_0b07),
            y == 0xfd17_b448_a685_5419_9c47_d08f_fb10_d4b8 + b * (0x483a_da77_26a3_c465_5da4_fbfc_0e11_08a8),
            pp == 0xffff_ffff_ffff_ffff_ffff_fffe_ffff_fc2f + b * (0xffff_ffff_ffff_ffff_ffff_ffff_ffff_ffff),
            v == 0xf16f_80a5_48e5_e20a_44e4_e9b8_118c_26f2 + b * (0x4866_d6a5_ab41_ab2c_6bcc_57cc_d373_5da5),
            w == 0xeb9e_e936_95f0_8a3d_7d74_8ad8_07ad_d063 + b * (0xd8dc_8b93_f889_33f7_2716_4fc4_ef95_6ef7),
            q2 == 0x00f3_38ef_ec38_b3eb_3b78_0b1e_8c92_23fb + b * (0xa75f_9cdb_dd2b_234a_ea3e_62ca_e573_9834 + b * (0x9761_c973_0b7a_eedf_75fc_60f6_a33c_fc77 + b * (0x1b88_8e01_a06e_9740_17a2_8a5b_4da4_3616))),
            q3 == 0x70f6_ec67_8fe7_5b56_871b_f154_987e_3e12 + b * (0x1461_286a_be28_c5f1_df2d_7d4b_ca39_1b50),
    ;
    lemma_fundamental_div_mod_converse_mod((y + 1) * (y + 1), pp, q3, w);
    lemma_fundamental_div_mod_converse_mod(x * x * x + 7, pp, q2, v);
    lemma_mul_mod_noop_left(x * x, x, pp);
    lemma_add_mod_noop(x * x * x, 7, pp);
    lemma_small_mod(7, pp as nat);
    lemma_mod_twice(x * x * x, pp);
}

/// Converting a point with reduced coordinates to Jacobian form and back gives the point.
pub proof fn lemma_affine_jacobian_round_trip(a: AffineV)
    requires
        0 <= a.0 < p(),
        0 <= a.1 < p(),
        a.2 ==> a == (0int, 0int, true),
    ensures
        jac_to_affine(affine_to_jac(a)) == a,
{
    if !a.2 {
        vstd::arithmetic::power::lemma1_pow((p() - 2) as nat);
        lemma_small_mod(1, p() as nat);
        lemma_small_mod(a.0 as nat, p() as nat);
        lemma_small_mod(a.1 as nat, p() as nat);
        assert(finv(1) == 1);
        assert(fmul(1, 1) == 1);
        assert(fmul(a.0, 1) == a.0);
        assert(fmul(a.1, 1) == a.1);
    }
}

/// Adding a finite point to itself is doubling it.
pub proof fn lemma_add_self_is_double(a: JacobianV)
    requires
        !a.3,
    ensures
        jac_add(a, a) == jac_double(a),
{
}

/// A point in affine coordinates, with a flag for the point at infinity.
#[derive(Clone, Copy, Debug)]
pub struct Affine {
    pub x: Field,
    pub y: Field,
    pub infinity: bool,
}

/// A point in Jacobian coordinates, with a flag for the point at infinity.
#[derive(Clone, Copy, Debug)]
pub struct Jacobian {
    pub x: Field,
    pub y: Field,
    pub z: Field,
    pub infinity: bool,
}

impl Affine {
    pub open spec fn view(self) -> AffineV {
        (self.x.val(), self.y.val(), self.infinity)
    }

    pub open spec fn is_normalized(self) -> bool {
        self.x.is_normalized() && self.y.is_normalized()
    }

    /// The point with the given coordinates; the curve equation is not checked.
    pub fn set_xy(x: &Field, y: &Field) -> (r: Affine)
        ensures
            r.x == *x,
            r.y == *y,
            !r.infinity,
    {
        Affine { x: *x, y: *y, infinity: false }
    }

    /// The point at infinity.
    pub fn infinity() -> (r: Affine)
        ensures
            r.infinity,
            r@ == (0int, 0int, true),
            r.is_normalized(),
    {
        Affine { x: Field::from_u64(0), y: Field::from_u64(0), infinity: true }
    }

    /// The generator G of the group.
    pub fn generator() -> (r: Affine)
        ensures
            r.is_normalized(),
            !r.infinity,
            r.x.raw() == gx(),
            r.y.raw() == gy(),
    {
        let x = Field {
            n: U256 {
                l0: 0x59F2_815B_16F8_1798,
                l1: 0x029B_FCDB_2DCE_28D9,
                l2: 0x55A0_6295_CE87_0B07,
                l3: 0x79BE_667E_F9DC_BBAC,
            },
        };
        let y = Field {
            n: U256 {
                l0: 0x9C47_D08F_FB10_D4B8,
                l1: 0xFD17_B448_A685_5419,
                l2: 0x5DA4_FBFC_0E11_08A8,
                l3: 0x483A_DA77_26A3_C465,
            },
        };
        Affine { x, y, infinity: false }
    }

    pub fn is_infinity(&self) -> (r: bool)
        ensures
            r == self.infinity,
    {
        self.infinity
    }

    /// Whether the point is a finite point of the curve; may branch on the value, for
    /// public data only.
    pub fn is_valid_var(&self) -> (r: bool)
        ensures
            r == (!self.infinity && on_curve(self.x.val(), self.y.val())),
    {
        if self.infinity {
            return false;
        }
        let y2 = self.y.sqr();
        let x3 = self.x.sqr().mul(&self.x);
        let rhs = x3.add(&Field::from_u64(7));
        y2.eq(&rhs)
    }

    /// The point -P = (x, -y).
    pub fn neg(&self) -> (r: Affine)
        ensures
            r@ == neg_v(self@),
            r.is_normalized(),
    {
        Affine { x: self.x.normalize_var(), y: self.y.neg(), infinity: self.infinity }
    }

    /// The Jacobian form (x, y, 1).
    pub fn to_jacobian(&self) -> (r: Jacobian)
        ensures
            r@ == affine_to_jac(self@),
            r.is_normalized(),
    {
        if self.infinity {
            Jacobian::infinity()
        } else {
            Jacobian {
                x: self.x.normalize_var(),
                y: self.y.normalize_var(),
                z: Field::from_u64(1),
                infinity: false,
            }
        }
    }
}

/// The x coordinate of the generator.
pub open spec fn gx() -> int {
    U256 {
        l0: 0x59F2_815B_16F8_1798,
        l1: 0x029B_FCDB_2DCE_28D9,
        l2: 0x55A0_6295_CE87_0B07,
        l3: 0x79BE_667E_F9DC_BBAC,
    }.val()
}

/// The y coordinate of the generator.
pub open spec fn gy() -> int {
    U256 {
        l0: 0x9C47_D08F_FB10_D4B8,
        l1: 0xFD17_B448_A685_5419,
        l2: 0x5DA4_FBFC_0E11_08A8,
        l3: 0x483A_DA77_26A3_C465,
    }.val()
}

impl Jacobian {
    pub open spec fn view(self) -> JacobianV {
        if self.infinity {
            infinity_v()
        } else {
            (self.x.val(), self.y.val(), self.z.val(), false)
        }
    }

    pub open spec fn is_normalized(self) -> bool {
        self.x.is_normalized() && self.y.is_normalized() && self.z.is_normalized()
    }

    pub fn infinity() -> (r: Jacobian)
        ensures
            r@ == infinity_v(),
            r.infinity,
            r.is_normalized(),
    {
        Jacobian {
            x: Field::from_u64(0),
            y: Field::from_u64(0),
            z: Field::from_u64(0),
            infinity: true,
        }
    }

    pub fn is_infinity(&self) -> (r: bool)
        ensures
            r == self@.3,
    {
        self.infinity
    }

    /// 2P, by the doubling formula.
    pub fn double(&self) -> (r: Jacobian)
        requires
            self.is_normalized(),
        ensures
            r@ == jac_double(self@),
            r.is_normalized(),
    {
        proof {
            lemma_normalized_val(self.y);
        }
        if self.infinity || self.y.is_zero() {
            return Jacobian::infinity();
        }
        let yy = self.y.sqr();
        let s = self.x.mul(&yy).mul_int(4);
        let m = self.x.sqr().mul_int(3);
        let x3 = m.sqr().sub(&s.add(&s));
        let y3 = m.mul(&s.sub(&x3)).sub(&yy.sqr().mul_int(8));
        let z3 = self.y.mul(&self.z).mul_int(2);
        Jacobian { x: x3, y: y3, z: z3, infinity: false }
    }

    /// P + Q, by the addition formula.
    pub fn add(&self, b: &Jacobian) -> (r: Jacobian)
        requires
            self.is_normalized(),
            b.is_normalized(),
        ensures
            r@ == jac_add(self@, b@),
            r.is_normalized(),
    {
        if self.infinity {
            return *b;
        }
        if b.infinity {
            return *self;
        }
        let z1z1 = self.z.sqr();
        let z2z2 = b.z.sqr();
        let u1 = self.x.mul(&z2z2);
        let u2 = b.x.mul(&z1z1);
        let s1 = self.y.mul(&b.z.mul(&z2z2));
        let s2 = b.y.mul(&self.z.mul(&z1z1));
        if u1.eq(&u2) {
            if s1.eq(&s2) {
                return self.double();
            } else {
                return Jacobian::infinity();
            }
        }
        let h = u2.sub(&u1);
        let r = s2.sub(&s1);
        let hh = h.sqr();
        let hhh = h.mul(&hh);
        let v = u1.mul(&hh);
        let x3 = r.sqr().sub(&hhh).sub(&v.add(&v));
        let y3 = r.mul(&v.sub(&x3)).sub(&s1.mul(&hhh));
        let z3 = h.mul(&self.z.mul(&b.z));
        Jacobian { x: x3, y: y3, z: z3, infinity: false }
    }

    /// -P = (X, -Y, Z).
    pub fn neg(&self) -> (r: Jacobian)
        requires
            self.is_normalized(),
        ensures
            r@ == crate::ecmult::jac_neg(self@),
            r.is_normalized(),
    {
        Jacobian { x: self.x, y: self.y.neg(), z: self.z, infinity: self.infinity }
    }

    /// P + Q for an affine Q.
    pub fn add_ge(&self, b: &Affine) -> (r: Jacobian)
        requires
            self.is_normalized(),
        ensures
            r@ == jac_add(self@, affine_to_jac(b@)),
            r.is_normalized(),
    {
        self.add(&b.to_jacobian())
    }

    /// The affine point, by one inversion of Z.
    pub fn to_affine(&self) -> (r: Affine)
        ensures
            r@ == jac_to_affine(self@),
            r.is_normalized(),
    {
        if self.infinity {
            return Affine::infinity();
        }
        let zi = self.z.inv();
        let zi2 = zi.sqr();
        let x = self.x.mul(&zi2);
        let y = self.y.mul(&zi2.mul(&zi));
        Affine { x, y, infinity: false }
    }
}

} // verus!
