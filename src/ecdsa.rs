//! ECDSA signing, verification and public-key recovery.
use vstd::prelude::*;
use crate::uint::U256;
use crate::field::{Field, p, fadd, fmul, fneg};
use crate::scalar::{Scalar, n, order, sadd, smul, sneg, sinv, lemma_normalized_val};
use crate::group::{Affine, AffineV, jac_add, jac_to_affine};
use crate::ecmult::{ECMultContext, mult_spec};

verus! {

/// Why signing gave no signature: the nonce led to a zero r or s (or to the point at
/// infinity), and the caller has to supply another one.
#[derive(Clone, Copy, Debug, PartialEq, Eq, Structural)]
pub enum SignError {
    Retry,
}

/// R = nonce·G, in affine coordinates.
pub open spec fn sign_point(g: AffineV, nonce: int) -> AffineV {
    jac_to_affine(mult_spec(nonce, g))
}

/// s before low-S normalization: nonce^-1 · (message + r · seckey) mod n.
pub open spec fn sign_s(r: int, seckey: int, message: int, nonce: int) -> int {
    smul(sinv(nonce), sadd(smul(r, seckey), message))
}

/// Whether signing fails for these inputs and must be retried with another nonce.
pub open spec fn sign_retries(
    g: AffineV,
    seckey: int,
    message: int,
    nonce_raw: int,
    nonce: int,
) -> bool {
    let rp = sign_point(g, nonce_raw);
    let r = rp.0 % n();
    rp.2 || r == 0 || sign_s(r, seckey, message, nonce) == 0
}

/// The point R' = u1·G + u2·Q of verification, with w = s^-1, u1 = message·w, u2 = r·w.
pub open spec fn verify_point(g: AffineV, r: int, s: int, q: AffineV, message: int) -> AffineV {
    let w = sinv(s);
    jac_to_affine(jac_add(mult_spec(smul(message, w), g), mult_spec(smul(r, w), q)))
}

/// Whether (r, s) is a valid signature of `message` under the public key `q`.
pub open spec fn verify_spec(g: AffineV, r: int, s: int, q: AffineV, message: int) -> bool {
    &&& 0 < r < n()
    &&& 0 < s < n()
    &&& !verify_point(g, r, s, q, message).2
    &&& verify_point(g, r, s, q, message).0 % n() == r
}

/// The x coordinate of R that a recovery id names: r, or r + n when the id's second bit
/// is set.
pub open spec fn recover_x(r: int, recid: int) -> int {
    if recid >= 2 {
        r + n()
    } else {
        r
    }
}

/// The point R that recovery rebuilds from r and the id, or none.
pub open spec fn recover_point(r: int, recid: int) -> Option<AffineV> {
    let x = recover_x(r, recid);
    let c = fadd(fmul(fmul(x, x), x), 7);
    let y = crate::field::sqrt_candidate(c);
    if x >= p() || fmul(y, y) != c {
        None
    } else if (y % 2 == 1) == (recid % 2 == 1) {
        Some((x, y, false))
    } else {
        Some((x, fneg(y), false))
    }
}

/// The key that recovery finds: r^-1 · (s·R - message·G), computed as u1·G + u2·R with
/// u1 = -(message · r^-1) and u2 = s · r^-1.
pub open spec fn recover_spec(g: AffineV, r: int, s: int, recid: int, message: int) -> Option<
    AffineV,
> {
    if r == 0 || r >= n() || s == 0 || s >= n() || recid > 3 {
        None
    } else {
        match recover_point(r, recid) {
            None => None,
            Some(rp) => {
                let rn = sinv(r);
                let q = jac_to_affine(
                    jac_add(mult_spec(sneg(smul(rn, message)), g), mult_spec(smul(rn, s), rp)),
                );
                if q.2 {
                    None
                } else {
                    Some(q)
                }
            },
        }
    }
}

/// Signs a message (as a scalar) with a secret key and a nonce. On success it returns r, the
/// low-S form of s, and the recovery id: bit 1 when R.x was n or more, bit 0 the parity of
/// R.y, flipped when s was replaced by n - s.
pub fn sign(ctx: &ECMultContext, seckey: &Scalar, message: &Scalar, nonce: &Scalar) -> (res:
    Result<(Scalar, Scalar, u8), SignError>)
    requires
        ctx.wf(),
    ensures
        res.is_err() == sign_retries(ctx.g@, seckey.val(), message.val(), nonce.raw(), nonce.val()),
        res.is_ok() ==> res.unwrap().0.is_normalized() && res.unwrap().1.is_normalized(),
        res.is_ok() ==> !(res.unwrap().1.raw() > n() / 2),
        res.is_ok() ==> res.unwrap().0.raw() == sign_point(ctx.g@, nonce.raw()).0 % n(),
        res.is_ok() ==> ({
            let s0 = sign_s(res.unwrap().0.raw(), seckey.val(), message.val(), nonce.val());
            res.unwrap().1.raw() == if s0 > n() / 2 {
                sneg(s0)
            } else {
                s0
            }
        }),
        res.is_ok() ==> ({
            let rp = sign_point(ctx.g@, nonce.raw());
            let s0 = sign_s(res.unwrap().0.raw(), seckey.val(), message.val(), nonce.val());
            res.unwrap().2 == (if rp.0 >= n() { 2int } else { 0int }) + (if (rp.1 % 2 == 1) != (s0
                > n() / 2) { 1int } else { 0int })
        }),
{
    let rj = ctx.mult_gen(nonce);
    let rp = rj.to_affine();
    if rp.infinity {
        return Err(SignError::Retry);
    }
    proof {
        crate::field::lemma_normalized_val(rp.x);
        crate::field::lemma_normalized_val(rp.y);
    }
    let r = Scalar::from_field(&rp.x);
    let overflow = !r.n.eq_u256(&rp.x.n);
    proof {
        if rp.x.raw() < n() {
            vstd::arithmetic::div_mod::lemma_small_mod(rp.x.raw() as nat, n() as nat);
        }
        assert(overflow == (rp.x.raw() >= n()));
    }
    if r.is_zero() {
        return Err(SignError::Retry);
    }
    let ninv = nonce.inv();
    let s0 = ninv.mul(&r.mul(seckey).add(message));
    if s0.is_zero() {
        return Err(SignError::Retry);
    }
    let high = s0.is_high();
    proof {
        crate::scalar::lemma_low_s_unique(s0.raw());
    }
    let s = if high { s0.neg() } else { s0 };
    let odd = rp.y.is_odd();
    let recid: u8 = (if overflow { 2u8 } else { 0u8 }) + (if odd != high { 1u8 } else { 0u8 });
    Ok((r, s, recid))
}

/// Verifies the signature (r, s) of `message` under the public key `q`. It fails when r or s
/// is zero or n or more, when u1·G + u2·Q is the point at infinity, or when that point's x
/// coordinate reduced modulo n is not r.
pub fn verify(ctx: &ECMultContext, r: &Scalar, s: &Scalar, q: &Affine, message: &Scalar) -> (res:
    bool)
    requires
        ctx.wf(),
    ensures
        res == verify_spec(ctx.g@, r.raw(), s.raw(), q@, message.val()),
{
    let m = order();
    if r.n.is_zero() || !r.n.lt(&m) || s.n.is_zero() || !s.n.lt(&m) {
        return false;
    }
    proof {
        lemma_normalized_val(*r);
        lemma_normalized_val(*s);
    }
    let w = s.inv();
    let u1 = message.mul(&w);
    let u2 = r.mul(&w);
    let pr = ctx.mult_combined(&u1, &u2, q);
    if pr.is_infinity() {
        return false;
    }
    let ra = pr.to_affine();
    proof {
        crate::field::lemma_normalized_val(ra.x);
    }
    let xr = Scalar::from_field(&ra.x);
    xr.n.eq_u256(&r.n)
}

/// Recovers the public key from the signature (r, s), its recovery id and the message. It
/// gives none when r or s is zero or n or more, when the id is above 3, when the x coordinate
/// that the id names is p or more or is not that of a curve point, or when the key found is
/// the point at infinity.
pub fn recover(ctx: &ECMultContext, r: &Scalar, s: &Scalar, recid: u8, message: &Scalar) -> (res:
    Option<Affine>)
    requires
        ctx.wf(),
    ensures
        res.is_some() == recover_spec(ctx.g@, r.raw(), s.raw(), recid as int, message.val()).is_some(),
        res.is_some() ==> res.unwrap()@ == recover_spec(
            ctx.g@,
            r.raw(),
            s.raw(),
            recid as int,
            message.val(),
        ).unwrap() && res.unwrap().is_normalized(),
{
    let m = order();
    if r.n.is_zero() || !r.n.lt(&m) || s.n.is_zero() || !s.n.lt(&m) || recid > 3 {
        return None;
    }
    proof {
        lemma_normalized_val(*r);
        lemma_normalized_val(*s);
    }
    let mut x = Field { n: r.n };
    proof {
        crate::field::lemma_normalized_val(x);
    }
    if recid >= 2 {
        let p_minus_n = U256 { l0: 0x402D_A172_2FC9_BAEE, l1: 0x4551_2319_50B7_5FC4, l2: 1, l3: 0 };
        if !r.n.lt(&p_minus_n) {
            return None;
        }
        let nf = Field { n: m };
        proof {
            crate::field::lemma_normalized_val(nf);
        }
        x = x.add(&nf);
        proof {
            vstd::arithmetic::div_mod::lemma_small_mod((r.raw() + n()) as nat, p() as nat);
        }
    }
    assert(x.raw() == recover_x(r.raw(), recid as int));
    let c = x.sqr().mul(&x).add(&Field::from_u64(7));
    let y = match c.sqrt() {
        None => {
            return None;
        },
        Some(y) => y,
    };
    proof {
        crate::field::lemma_normalized_val(y);
    }
    let ry = if y.is_odd() == (recid % 2 == 1) {
        y
    } else {
        y.neg()
    };
    let rp = Affine { x, y: ry, infinity: false };
    let rn = r.inv();
    let u1 = rn.mul(message).neg();
    let u2 = rn.mul(s);
    let pr = ctx.mult_combined(&u1, &u2, &rp);
    if pr.is_infinity() {
        return None;
    }
    Some(pr.to_affine())
}

} // verus!
