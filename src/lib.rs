//! secp256k1: field and scalar arithmetic, the curve group, scalar multiplication, ECDSA,
//! and the fixed-size byte encodings of public keys and signatures.
use vstd::prelude::*;

pub mod uint;
pub mod modular;
pub mod field;
pub mod scalar;
pub mod group;
pub mod ecmult;
pub mod ecdsa;

pub use field::Field;
pub use group::{Affine, Jacobian};
pub use scalar::Scalar;
pub use ecmult::ECMultContext;

use uint::be_val;
use field::p;
use group::on_curve;

verus! {

pub const TAG_PUBKEY_EVEN: u8 = 0x02;

pub const TAG_PUBKEY_ODD: u8 = 0x03;

pub const TAG_PUBKEY_UNCOMPRESSED: u8 = 0x04;

pub const TAG_PUBKEY_HYBRID_EVEN: u8 = 0x06;

pub const TAG_PUBKEY_HYBRID_ODD: u8 = 0x07;

/// A public key as 64 bytes: big-endian X, then big-endian Y.
pub struct PublicKey(pub [u8; 64]);

/// A signature as 64 bytes: big-endian r, then big-endian s.
pub struct Signature(pub [u8; 64]);

/// A signature with its recovery id.
pub struct RecoverableSignature(pub Signature, pub u8);

/// The 32 bytes of `b` from `off` on.
fn bytes32(b: &[u8], off: usize) -> (r: [u8; 32])
    requires
        off + 32 <= b@.len(),
    ensures
        r@ == b@.subrange(off as int, off + 32),
{
    let mut data = [0u8; 32];
    let len = b.len();
    let mut i: usize = 0;
    while i < 32
        invariant
            off + 32 <= b@.len(),
            b@.len() == len,
            0 <= i <= 32,
            forall|k: int| 0 <= k < i ==> data@[k] == b@[off + k],
        decreases 32 - i,
    {
        data[i] = b[off + i];
        i = i + 1;
    }
    assert(data@ =~= b@.subrange(off as int, off + 32));
    data
}

/// The number that the 32 bytes of `b` from `off` on stand for, big-endian.
pub open spec fn be_at(b: Seq<u8>, off: int) -> int {
    be_val(b.subrange(off, off + 32))
}

impl PublicKey {
    /// The affine point with the stored coordinates. X must not be zero.
    pub fn load(&self) -> (r: Affine)
        requires
            be_at(self.0@, 0) != 0,
        ensures
            !r.infinity,
            r.x.raw() == be_at(self.0@, 0),
            r.y.raw() == be_at(self.0@, 32),
    {
        let (x, _) = Field::set_b32(&bytes32(&self.0, 0));
        let (y, _) = Field::set_b32(&bytes32(&self.0, 32));
        Affine::set_xy(&x, &y)
    }
}

impl Signature {
    /// The scalars r and s, each reduced modulo n; their range is not checked here.
    pub fn load(&self) -> (r: (Scalar, Scalar))
        ensures
            r.0.is_normalized() && r.1.is_normalized(),
            r.0.raw() == be_at(self.0@, 0) % scalar::n(),
            r.1.raw() == be_at(self.0@, 32) % scalar::n(),
    {
        let (r, _) = Scalar::set_b32(&bytes32(&self.0, 0));
        let (s, _) = Scalar::set_b32(&bytes32(&self.0, 32));
        (r, s)
    }
}

/// Whether a 65-byte encoding is accepted: tag 0x04, 0x06 or 0x07; X and Y below p; for a
/// hybrid tag, Y's parity as the tag says; and (X, Y) on the curve.
pub open spec fn parse_accepts(b: Seq<u8>) -> bool {
    let tag = b[0];
    let x = be_at(b, 1);
    let y = be_at(b, 33);
    &&& tag == 0x04 || tag == 0x06 || tag == 0x07
    &&& x < p()
    &&& y < p()
    &&& (tag == 0x06 || tag == 0x07) ==> ((y % 2 == 1) == (tag == 0x07))
    &&& on_curve(x, y)
}

/// Parses an uncompressed or hybrid public key.
pub fn public_key_parse(p: &[u8; 65]) -> (r: Option<Affine>)
    ensures
        r.is_some() == parse_accepts(p@),
        r.is_some() ==> ({
            let a = r.unwrap();
            &&& !a.infinity
            &&& a.is_normalized()
            &&& a.x.raw() == be_at(p@, 1)
            &&& a.y.raw() == be_at(p@, 33)
        }),
{
    if !(p[0] == TAG_PUBKEY_UNCOMPRESSED || p[0] == TAG_PUBKEY_HYBRID_EVEN || p[0]
        == TAG_PUBKEY_HYBRID_ODD) {
        return None;
    }
    let (x, x_over) = Field::set_b32(&bytes32(p, 1));
    if x_over {
        return None;
    }
    let (y, y_over) = Field::set_b32(&bytes32(p, 33));
    if y_over {
        return None;
    }
    proof {
        field::lemma_normalized_val(x);
        field::lemma_normalized_val(y);
    }
    let elem = Affine::set_xy(&x, &y);
    if (p[0] == TAG_PUBKEY_HYBRID_EVEN || p[0] == TAG_PUBKEY_HYBRID_ODD) && (y.is_odd() != (p[0]
        == TAG_PUBKEY_HYBRID_ODD)) {
        return None;
    }
    if elem.is_valid_var() {
        Some(elem)
    } else {
        None
    }
}

/// Encodes a point as 65 bytes: the tag 0x04, then X and Y normalized, big-endian. The point
/// at infinity has no encoding.
pub fn public_key_serialize(elem: &Affine) -> (r: Option<[u8; 65]>)
    ensures
        r.is_some() == !elem.infinity,
        r.is_some() ==> ({
            let b = r.unwrap()@;
            &&& b[0] == TAG_PUBKEY_UNCOMPRESSED
            &&& be_at(b, 1) == elem.x.val()
            &&& be_at(b, 33) == elem.y.val()
        }),
{
    if elem.is_infinity() {
        return None;
    }
    let x = elem.x.normalize_var();
    let y = elem.y.normalize_var();
    let dx = x.b32();
    let dy = y.b32();
    let mut ret = [0u8; 65];
    ret[0] = TAG_PUBKEY_UNCOMPRESSED;
    let mut i: usize = 0;
    while i < 32
        invariant
            0 <= i <= 32,
            ret@.len() == 65,
            ret@[0] == TAG_PUBKEY_UNCOMPRESSED,
            forall|k: int| 0 <= k < i ==> ret@[1 + k] == dx@[k] && ret@[33 + k] == dy@[k],
        decreases 32 - i,
    {
        ret[1 + i] = dx[i];
        ret[33 + i] = dy[i];
        i = i + 1;
    }
    assert(ret@.subrange(1, 33) =~= dx@);
    assert(ret@.subrange(33, 65) =~= dy@);
    Some(ret)
}

} // verus!
