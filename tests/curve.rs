use libsecp256k1::ecdsa::{recover, sign, verify, SignError};
use libsecp256k1::group::Jacobian;
use libsecp256k1::uint::U256;
use libsecp256k1::{
    public_key_parse, public_key_serialize, Affine, ECMultContext, Field, PublicKey,
    RecoverableSignature, Scalar, Signature,
};

fn hex32(s: &str) -> [u8; 32] {
    let mut out = [0u8; 32];
    for i in 0..32 {
        out[i] = u8::from_str_radix(&s[2 * i..2 * i + 2], 16).unwrap();
    }
    out
}

const P_HEX: &str = "FFFFFFFFFFFFFFFFFFFFFFFFFFFFFFFFFFFFFFFFFFFFFFFFFFFFFFFEFFFFFC2F";
const N_HEX: &str = "FFFFFFFFFFFFFFFFFFFFFFFFFFFFFFFEBAAEDCE6AF48A03BBFD25E8CD0364141";
const GX_HEX: &str = "79BE667EF9DCBBAC55A06295CE870B07029BFCDB2DCE28D959F2815B16F81798";
const GY_HEX: &str = "483ADA7726A3C4655DA4FBFC0E1108A8FD17B448A68554199C47D08FFB10D4B8";

fn fe(s: &str) -> Field {
    Field::set_b32(&hex32(s)).0
}

fn sc(s: &str) -> Scalar {
    Scalar::set_b32(&hex32(s)).0
}

fn same_affine(a: &Affine, b: &Affine) -> bool {
    if a.infinity || b.infinity {
        return a.infinity == b.infinity;
    }
    a.x.normalize_var().b32() == b.x.normalize_var().b32()
        && a.y.normalize_var().b32() == b.y.normalize_var().b32()
}

fn jac_affine(j: &Jacobian) -> Affine {
    j.to_affine()
}

fn gen_mult(k: &Scalar) -> Affine {
    let ctx = ECMultContext::new();
    ctx.mult_gen(k).to_affine()
}

/// Double-and-add from the most significant bit, on Jacobian points.
fn reference_mult(k: &Scalar, p: &Affine) -> Affine {
    let bytes = k.b32();
    let mut acc = Jacobian::infinity();
    let pj = p.to_jacobian();
    for byte in bytes.iter() {
        for bit in (0..8).rev() {
            acc = acc.double();
            if (byte >> bit) & 1 == 1 {
                acc = acc.add(&pj);
            }
        }
    }
    acc.to_affine()
}

#[test]
fn field_set_flags_modulus_and_not_below() {
    assert!(Field::set_b32(&hex32(P_HEX)).1);
    let below = "FFFFFFFFFFFFFFFFFFFFFFFFFFFFFFFFFFFFFFFFFFFFFFFFFFFFFFFEFFFFFC2E";
    assert!(!Field::set_b32(&hex32(below)).1);
    // p itself normalizes to zero
    assert!(fe(P_HEX).normalize().is_zero());
    assert!(fe(P_HEX).normalize_var().is_zero());
}

#[test]
fn field_normalize_is_idempotent() {
    let a = fe("FFFFFFFFFFFFFFFFFFFFFFFFFFFFFFFFFFFFFFFFFFFFFFFFFFFFFFFFFFFFFFFF");
    let once = a.normalize();
    let twice = once.normalize();
    assert_eq!(once.b32(), twice.b32());
    assert_eq!(once.b32(), hex32("00000000000000000000000000000000000000000000000000000001000003D0"));
}

#[test]
fn field_add_negation_is_zero() {
    let a = fe(GX_HEX);
    assert!(a.add(&a.neg()).is_zero());
    assert!(Field::from_u64(0).neg().is_zero());
}

#[test]
fn field_inverse() {
    for a in [fe(GX_HEX), fe(GY_HEX), Field::from_u64(3), Field::from_u64(1)] {
        let prod = a.mul(&a.inv());
        assert!(prod.eq(&Field::from_u64(1)));
    }
    assert!(Field::from_u64(0).inv().is_zero());
}

#[test]
fn field_bytes_round_trip() {
    let a = fe(GY_HEX);
    assert_eq!(a.b32(), hex32(GY_HEX));
    assert_eq!(Field::set_b32(&a.b32()).0.b32(), a.b32());
}

#[test]
fn field_sqrt() {
    let four = Field::from_u64(4);
    let r = four.sqrt().unwrap();
    assert!(r.sqr().eq(&four));
    // -1 is not a square modulo p, since p = 3 mod 4
    assert!(Field::from_u64(1).neg().sqrt().is_none());
}

#[test]
fn field_mul_known_value() {
    let two = Field::from_u64(2);
    let big = fe("8000000000000000000000000000000000000000000000000000000000000000");
    // 2 * 2^255 = 2^256 = 2^32 + 977 mod p
    assert_eq!(two.mul(&big).b32(), hex32("00000000000000000000000000000000000000000000000000000001000003D1"));
}

#[test]
fn scalar_set_flags_order() {
    let (s, over) = Scalar::set_b32(&hex32(N_HEX));
    assert!(over);
    assert!(s.is_zero());
    let below = "FFFFFFFFFFFFFFFFFFFFFFFFFFFFFFFEBAAEDCE6AF48A03BBFD25E8CD0364140";
    let (s, over) = Scalar::set_b32(&hex32(below));
    assert!(!over);
    assert_eq!(s.b32(), hex32(below));
}

#[test]
fn scalar_ring_laws() {
    let a = sc(GX_HEX);
    assert!(a.add(&a.neg()).is_zero());
    assert!(a.mul(&a.inv()).eq(&Scalar::from_u64(1)));
    assert_eq!(Scalar::set_b32(&a.b32()).0.b32(), a.b32());
    assert!(Scalar::from_u64(5).add(&Scalar::from_u64(7)).eq(&Scalar::from_u64(12)));
}

#[test]
fn scalar_is_high() {
    let half = "7FFFFFFFFFFFFFFFFFFFFFFFFFFFFFFF5D576E7357A4501DDFE92F46681B20A0";
    let above = "7FFFFFFFFFFFFFFFFFFFFFFFFFFFFFFF5D576E7357A4501DDFE92F46681B20A1";
    assert!(!sc(half).is_high());
    assert!(sc(above).is_high());
}

#[test]
fn generator_is_valid_and_perturbed_is_not() {
    let g = Affine::generator();
    assert!(g.is_valid_var());
    let bad = Affine::set_xy(&g.x, &g.y.add(&Field::from_u64(1)));
    assert!(!bad.is_valid_var());
    assert!(!Affine::infinity().is_valid_var());
}

#[test]
fn group_identity_and_inverse() {
    let g = Affine::generator();
    let gj = g.to_jacobian();
    let sum = gj.add(&Jacobian::infinity());
    assert!(same_affine(&jac_affine(&sum), &g));
    let zero = gj.add_ge(&g.neg());
    assert!(zero.is_infinity());
}

#[test]
fn group_doubling_agrees_with_addition() {
    let gj = Affine::generator().to_jacobian();
    let d = gj.double();
    let a = gj.add(&gj);
    assert!(same_affine(&d.to_affine(), &a.to_affine()));
}

#[test]
fn group_addition_is_associative() {
    let ctx = ECMultContext::new();
    let p = ctx.mult_gen(&sc(GX_HEX));
    let q = ctx.mult_gen(&sc(GY_HEX));
    let r = ctx.mult_gen(&Scalar::from_u64(12345));
    let left = p.add(&q).add(&r);
    let right = p.add(&q.add(&r));
    assert!(same_affine(&left.to_affine(), &right.to_affine()));
}

#[test]
fn mult_small_and_edge_scalars() {
    let g = Affine::generator();
    let ctx = ECMultContext::new();
    assert!(ctx.mult(&Scalar::from_u64(0), &g).is_infinity());
    assert!(same_affine(&ctx.mult(&Scalar::from_u64(1), &g).to_affine(), &g));
    let two = ctx.mult(&Scalar::from_u64(2), &g).to_affine();
    assert!(same_affine(&two, &g.to_jacobian().double().to_affine()));
    let n_minus_1 = sc("FFFFFFFFFFFFFFFFFFFFFFFFFFFFFFFEBAAEDCE6AF48A03BBFD25E8CD0364140");
    assert!(same_affine(&ctx.mult(&n_minus_1, &g).to_affine(), &g.neg()));
}

#[test]
fn mult_matches_reference() {
    let ctx = ECMultContext::new();
    let g = Affine::generator();
    let p = ctx.mult_gen(&Scalar::from_u64(7)).to_affine();
    for k in [sc(GY_HEX), Scalar::from_u64(0xDEADBEEF), Scalar::from_u64(2)] {
        assert!(same_affine(&ctx.mult(&k, &p).to_affine(), &reference_mult(&k, &p)));
        assert!(same_affine(&ctx.mult_gen(&k).to_affine(), &ctx.mult(&k, &g).to_affine()));
    }
}

#[test]
fn sign_verify_recover_with_unit_key() {
    let ctx = ECMultContext::new();
    let one = Scalar::from_u64(1);
    let hash = Scalar::set_b32(&[0u8; 32]).0;
    let (r, s, recid) = sign(&ctx, &one, &hash, &one).unwrap();
    // R = G, r = Gx mod n, s = r
    assert_eq!(r.b32(), sc(GX_HEX).b32());
    let expected_s = if sc(GX_HEX).is_high() { sc(GX_HEX).neg() } else { sc(GX_HEX) };
    assert_eq!(s.b32(), expected_s.b32());
    let g = Affine::generator();
    assert!(verify(&ctx, &r, &s, &g, &hash));
    let key = recover(&ctx, &r, &s, recid, &hash).unwrap();
    assert_eq!(key.x.b32(), hex32(GX_HEX));
    assert_eq!(key.y.b32(), hex32(GY_HEX));
}

#[test]
fn sign_verify_recover_round_trip() {
    let ctx = ECMultContext::new();
    let d = sc("C9AFA9D845BA75166B5C215767B1D6934E50C3DB36E89B127B8A622B120F6721");
    let h = sc("AF2BDBE1AA9B6EC1E2ADE1D694F41FC71A831D0268E9891562113D8A62ADD1BF");
    let k = sc("A6E3C57DD01ABE90086538398355DD4C3B17AA873382B0F24D6129493D8AAD60");
    let (r, s, recid) = sign(&ctx, &d, &h, &k).unwrap();
    let pubkey = ctx.mult_gen(&d).to_affine();
    assert!(verify(&ctx, &r, &s, &pubkey, &h));
    assert!(!s.is_high());
    let key = recover(&ctx, &r, &s, recid, &h).unwrap();
    assert!(same_affine(&key, &pubkey));
    // a changed message, r or s no longer verifies
    let h2 = h.add(&Scalar::from_u64(1));
    assert!(!verify(&ctx, &r, &s, &pubkey, &h2));
    let r2 = r.add(&Scalar::from_u64(2));
    assert!(!verify(&ctx, &r2, &s, &pubkey, &h));
    let s2 = s.add(&Scalar::from_u64(4));
    assert!(!verify(&ctx, &r, &s2, &pubkey, &h));
}

#[test]
fn malleated_signature_is_high() {
    let ctx = ECMultContext::new();
    let d = Scalar::from_u64(42);
    let h = Scalar::from_u64(99);
    let k = Scalar::from_u64(1234567);
    let (_r, s, _) = sign(&ctx, &d, &h, &k).unwrap();
    assert!(!s.is_high());
    assert!(s.neg().is_high());
}

#[test]
fn sign_retries_on_zero_nonce() {
    let ctx = ECMultContext::new();
    let res = sign(&ctx, &Scalar::from_u64(1), &Scalar::from_u64(1), &Scalar::from_u64(0));
    assert_eq!(res.err(), Some(SignError::Retry));
}

#[test]
fn verify_rejects_out_of_range() {
    let ctx = ECMultContext::new();
    let g = Affine::generator();
    let h = Scalar::from_u64(1);
    assert!(!verify(&ctx, &Scalar::from_u64(0), &Scalar::from_u64(1), &g, &h));
    let n_raw = Scalar { n: U256::from_b32(&hex32(N_HEX)) };
    assert!(!verify(&ctx, &n_raw, &Scalar::from_u64(1), &g, &h));
    assert!(recover(&ctx, &Scalar::from_u64(1), &Scalar::from_u64(1), 4, &h).is_none());
}

#[test]
fn public_key_round_trip() {
    let g = Affine::generator();
    let bytes = public_key_serialize(&g).unwrap();
    assert_eq!(bytes[0], 0x04);
    assert_eq!(&bytes[1..33], &hex32(GX_HEX)[..]);
    assert_eq!(&bytes[33..65], &hex32(GY_HEX)[..]);
    let back = public_key_parse(&bytes).unwrap();
    assert!(same_affine(&back, &g));
    assert!(public_key_serialize(&Affine::infinity()).is_none());
}

#[test]
fn public_key_parse_rejects() {
    let g = Affine::generator();
    let mut bytes = public_key_serialize(&g).unwrap();
    bytes[0] = 0x02;
    assert!(public_key_parse(&bytes).is_none());
    // Gy is even: hybrid-even accepted, hybrid-odd refused
    bytes[0] = 0x06;
    assert!(public_key_parse(&bytes).is_some());
    bytes[0] = 0x07;
    assert!(public_key_parse(&bytes).is_none());
    bytes[0] = 0x04;
    bytes[64] ^= 1;
    assert!(public_key_parse(&bytes).is_none());
    let mut over = [0xFFu8; 65];
    over[0] = 0x04;
    assert!(public_key_parse(&over).is_none());
}

#[test]
fn public_key_and_signature_load() {
    let mut raw = [0u8; 64];
    raw[..32].copy_from_slice(&hex32(GX_HEX));
    raw[32..].copy_from_slice(&hex32(GY_HEX));
    let p = PublicKey(raw).load();
    assert!(p.is_valid_var());
    let sig = Signature(raw);
    let (r, s) = sig.load();
    assert_eq!(r.b32(), hex32(GX_HEX));
    assert_eq!(s.b32(), hex32(GY_HEX));
    let rs = RecoverableSignature(Signature(raw), 1);
    assert_eq!(rs.1, 1);
    let (r2, _) = rs.0.load();
    assert!(r2.eq(&r));
}

#[test]
fn wnaf_digits_stand_for_the_scalar() {
    for k in [sc(GX_HEX), Scalar::from_u64(0), Scalar::from_u64(31), Scalar::from_u64(1), sc(N_HEX)] {
        let d = k.wnaf();
        let mut acc = Scalar::from_u64(0);
        for &x in d.iter().rev() {
            acc = acc.add(&acc);
            assert!(x == 0 || (x % 2 != 0 && (-15..=15).contains(&x)));
            if x >= 0 {
                acc = acc.add(&Scalar::from_u64(x as u64));
            } else {
                acc = acc.add(&Scalar::from_u64((-x) as u64).neg());
            }
        }
        assert!(acc.eq(&k.add(&Scalar::from_u64(0))));
    }
    // 31 = 32 - 1: digits -1, then 1 five places up
    let d = Scalar::from_u64(31).wnaf();
    assert_eq!(d, vec![-1, 0, 0, 0, 0, 1]);
}

#[test]
fn windowed_generator_product_matches_double_and_add() {
    let ctx = ECMultContext::new();
    for k in [sc(GY_HEX), Scalar::from_u64(0), Scalar::from_u64(15), Scalar::from_u64(17)] {
        let a = ctx.mult_gen_var(&k).to_affine();
        let b = ctx.mult_gen(&k).to_affine();
        assert!(same_affine(&a, &b));
    }
}

#[test]
fn affine_jacobian_round_trip() {
    let g = Affine::generator();
    let back = g.to_jacobian().to_affine();
    assert_eq!(back.x.b32(), hex32(GX_HEX));
    assert_eq!(back.y.b32(), hex32(GY_HEX));
    let neg = g.to_jacobian().neg().to_affine();
    assert!(same_affine(&neg, &g.neg()));
    assert!(Affine::infinity().to_jacobian().to_affine().infinity);
}
