//! Curve points: the affine coordinate type, the byte and packed-word
//! codecs, and the low-level point primitives (addition, doubling,
//! decompression) supplied by the p256 crate.
use vstd::prelude::*;
use p256::elliptic_curve::point::{DecompressPoint, Double};
use p256::elliptic_curve::sec1::{FromEncodedPoint, ToEncodedPoint};
use p256::elliptic_curve::subtle::Choice;
use p256::AffinePoint as P256Affine;
use p256::EncodedPoint as P256Encoded;
use p256::ProjectivePoint as P256Projective;

verus! {

/// An affine curve point held as big-endian coordinate bytes. The point at
/// infinity is never a value of this type; it is represented by an absent
/// (`None`) point wherever it can arise.
#[derive(Clone, Copy)]
pub struct AffinePoint {
    pub x: [u8; 32],
    pub y: [u8; 32],
}

/// Name for the result of p256's point addition on big-endian affine
/// coordinates: the affine sum, or `None` when an operand is not on the
/// curve or the sum is the point at infinity.
pub uninterp spec fn pt_add_of(px: Seq<u8>, py: Seq<u8>, qx: Seq<u8>, qy: Seq<u8>) -> Option<(Seq<u8>, Seq<u8>)>;

/// Name for the result of p256's point doubling on big-endian affine
/// coordinates: the affine double, or `None` when the operand is not on the
/// curve or the double is the point at infinity.
pub uninterp spec fn pt_double_of(px: Seq<u8>, py: Seq<u8>) -> Option<(Seq<u8>, Seq<u8>)>;

/// Name for the y-coordinate that p256's point decompression recovers from
/// an x-coordinate and a parity bit, `None` when x is not on the curve.
pub uninterp spec fn decompress_y_of(x: Seq<u8>, y_odd: bool) -> Option<Seq<u8>>;

/// Relies on p256's complete projective point addition and the SEC1 point
/// codec: decodes both operands, adds them, and returns the affine sum,
/// `None` when an operand is off the curve or the sum is at infinity. The
/// result depends on the coordinate bytes alone.
#[verifier::external_body]
pub(crate) fn pt_add(px: &[u8; 32], py: &[u8; 32], qx: &[u8; 32], qy: &[u8; 32]) -> (r: Option<([u8; 32], [u8; 32])>)
    ensures
        match r {
            Some(s) => pt_add_of(px@, py@, qx@, qy@) == Some((s.0@, s.1@)),
            None => pt_add_of(px@, py@, qx@, qy@) is None,
        },
{
    let pe = P256Encoded::from_affine_coordinates(px.into(), py.into(), false);
    let qe = P256Encoded::from_affine_coordinates(qx.into(), qy.into(), false);
    let pd: Option<P256Affine> = P256Affine::from_encoded_point(&pe).into();
    let qd: Option<P256Affine> = P256Affine::from_encoded_point(&qe).into();
    let s = match (pd, qd) {
        (Some(a), Some(b)) => (P256Projective::from(a) + P256Projective::from(b)).to_affine().to_encoded_point(false),
        _ => return None,
    };
    match (s.x(), s.y()) {
        (Some(x), Some(y)) => Some(((*x).into(), (*y).into())),
        _ => None,
    }
}

/// Relies on p256's complete projective point doubling and the SEC1 point
/// codec: `None` when the operand is off the curve or the double is at
/// infinity. The result depends on the coordinate bytes alone.
#[verifier::external_body]
pub(crate) fn pt_double(px: &[u8; 32], py: &[u8; 32]) -> (r: Option<([u8; 32], [u8; 32])>)
    ensures
        match r {
            Some(s) => pt_double_of(px@, py@) == Some((s.0@, s.1@)),
            None => pt_double_of(px@, py@) is None,
        },
{
    let pe = P256Encoded::from_affine_coordinates(px.into(), py.into(), false);
    let pd: Option<P256Affine> = P256Affine::from_encoded_point(&pe).into();
    let s = match pd {
        Some(a) => P256Projective::from(a).double().to_affine().to_encoded_point(false),
        None => return None,
    };
    match (s.x(), s.y()) {
        (Some(x), Some(y)) => Some(((*x).into(), (*y).into())),
        _ => None,
    }
}

/// Relies on p256's `AffinePoint::decompress`: recovers the y-coordinate
/// with the requested parity from an x-coordinate, `None` when x is not on
/// the curve. The recovered y has the requested parity in its last bit.
#[verifier::external_body]
pub(crate) fn pt_decompress(x: &[u8; 32], y_odd: bool) -> (r: Option<[u8; 32]>)
    ensures
        match r {
            Some(y) => decompress_y_of(x@, y_odd) == Some(y@)
                && (y@[31] & 1) == (if y_odd { 1u8 } else { 0u8 }),
            None => decompress_y_of(x@, y_odd) is None,
        },
{
    let p: Option<P256Affine> = P256Affine::decompress(x.into(), Choice::from(y_odd as u8)).into();
    match p {
        Some(a) => match a.to_encoded_point(false).y() {
            Some(y) => Some((*y).into()),
            None => None,
        },
        None => None,
    }
}

/// Byte `k` of the little-endian byte stream packed in little-endian words.
pub open spec fn limb_byte(l: Seq<u32>, k: int) -> u8 {
    ((l[k / 4] >> (((k % 4) * 8) as u32)) & 0xff) as u8
}

/// Big-endian x-coordinate bytes of a packed 16-word point.
pub open spec fn coord_x(l: Seq<u32>) -> Seq<u8> {
    Seq::new(32, |j: int| limb_byte(l, 31 - j))
}

/// Big-endian y-coordinate bytes of a packed 16-word point.
pub open spec fn coord_y(l: Seq<u32>) -> Seq<u8> {
    Seq::new(32, |j: int| limb_byte(l, 63 - j))
}

/// Unpacks a 16-word point (x then y, little-endian words and bytes) into
/// big-endian coordinates.
pub fn limbs_to_point(l: &[u32; 16]) -> (p: AffinePoint)
    ensures
        p.x@ == coord_x(l@),
        p.y@ == coord_y(l@),
{
    let mut x = [0u8; 32];
    let mut y = [0u8; 32];
    let mut j: usize = 0;
    while j < 32
        invariant
            j <= 32,
            forall|t: int| 0 <= t < j ==> x@[t] == limb_byte(l@, 31 - t),
            forall|t: int| 0 <= t < j ==> y@[t] == limb_byte(l@, 63 - t),
        decreases 32 - j,
    {
        let kx: usize = 31 - j;
        x[j] = ((l[kx / 4] >> (((kx % 4) * 8) as u32)) & 0xff) as u8;
        let ky: usize = 63 - j;
        y[j] = ((l[ky / 4] >> (((ky % 4) * 8) as u32)) & 0xff) as u8;
        j += 1;
    }
    let p = AffinePoint { x, y };
    proof {
        assert(p.x@ =~= coord_x(l@));
        assert(p.y@ =~= coord_y(l@));
    }
    p
}

proof fn lemma_u32_pack(b0: u8, b1: u8, b2: u8, b3: u8)
    ensures
        (((b0 as u32) | ((b1 as u32) << 8u32) | ((b2 as u32) << 16u32) | ((b3 as u32) << 24u32)) >> 0u32) & 0xff == b0 as u32,
        (((b0 as u32) | ((b1 as u32) << 8u32) | ((b2 as u32) << 16u32) | ((b3 as u32) << 24u32)) >> 8u32) & 0xff == b1 as u32,
        (((b0 as u32) | ((b1 as u32) << 8u32) | ((b2 as u32) << 16u32) | ((b3 as u32) << 24u32)) >> 16u32) & 0xff == b2 as u32,
        (((b0 as u32) | ((b1 as u32) << 8u32) | ((b2 as u32) << 16u32) | ((b3 as u32) << 24u32)) >> 24u32) & 0xff == b3 as u32,
{
    assert((((b0 as u32) | ((b1 as u32) << 8u32) | ((b2 as u32) << 16u32) | ((b3 as u32) << 24u32)) >> 0u32) & 0xff == b0 as u32) by (bit_vector);
    assert((((b0 as u32) | ((b1 as u32) << 8u32) | ((b2 as u32) << 16u32) | ((b3 as u32) << 24u32)) >> 8u32) & 0xff == b1 as u32) by (bit_vector);
    assert((((b0 as u32) | ((b1 as u32) << 8u32) | ((b2 as u32) << 16u32) | ((b3 as u32) << 24u32)) >> 16u32) & 0xff == b2 as u32) by (bit_vector);
    assert((((b0 as u32) | ((b1 as u32) << 8u32) | ((b2 as u32) << 16u32) | ((b3 as u32) << 24u32)) >> 24u32) & 0xff == b3 as u32) by (bit_vector);
}

proof fn lemma_div4_range(i: int, k: int)
    requires
        4 * i <= k < 4 * i + 4,
    ensures
        k / 4 == i,
        k % 4 == k - 4 * i,
{
    assert(k / 4 == i && k % 4 == k - 4 * i) by (nonlinear_arith)
        requires 4 * i <= k < 4 * i + 4,
    {
    }
}

proof fn lemma_div4_below(i: int, k: int)
    requires
        0 <= k < 4 * i,
    ensures
        0 <= k / 4 < i,
{
    assert(0 <= k / 4 < i) by (nonlinear_arith)
        requires 0 <= k < 4 * i,
    {
    }
}

/// Packs big-endian coordinates into the 16-word layout; packing then
/// unpacking is the identity, which is what the postcondition states.
pub fn point_to_limbs(p: &AffinePoint) -> (l: [u32; 16])
    ensures
        coord_x(l@) == p.x@,
        coord_y(l@) == p.y@,
{
    let mut l = [0u32; 16];
    let mut i: usize = 0;
    while i < 16
        invariant
            i <= 16,
            forall|k: int| 0 <= k < 4 * i ==> limb_byte(l@, k) == (if k < 32 { p.x@[31 - k] } else { p.y@[63 - k] }),
        decreases 16 - i,
    {
        let bs: (u8, u8, u8, u8) = if i < 8 {
            (p.x[31 - 4 * i], p.x[30 - 4 * i], p.x[29 - 4 * i], p.x[28 - 4 * i])
        } else {
            (p.y[63 - 4 * i], p.y[62 - 4 * i], p.y[61 - 4 * i], p.y[60 - 4 * i])
        };
        let b0 = bs.0;
        let b1 = bs.1;
        let b2 = bs.2;
        let b3 = bs.3;
        let ghost l_old = l@;
        let w: u32 = (b0 as u32) | ((b1 as u32) << 8u32) | ((b2 as u32) << 16u32) | ((b3 as u32) << 24u32);
        l[i] = w;
        proof {
            lemma_u32_pack(b0, b1, b2, b3);
            let ii = i as int;
            assert forall|k: int| 0 <= k < 4 * (ii + 1) implies limb_byte(l@, k) == (if k < 32 { p.x@[31 - k] } else { p.y@[63 - k] }) by {
                if k < 4 * ii {
                    lemma_div4_below(ii, k);
                    assert(l@[k / 4] == l_old[k / 4]);
                    assert(limb_byte(l_old, k) == (if k < 32 { p.x@[31 - k] } else { p.y@[63 - k] }));
                    assert(limb_byte(l@, k) == limb_byte(l_old, k));
                } else {
                    lemma_div4_range(ii, k);
                    assert(l@[k / 4] == w);
                    if k % 4 == 0 {
                        assert((((k % 4) * 8) as u32) == 0u32);
                        assert((w >> 0u32) & 0xff == b0 as u32);
                        assert(limb_byte(l@, k) == b0);
                        assert(k == 4 * ii);
                        if k < 32 {
                            assert(b0 == p.x@[31 - k]);
                        } else {
                            assert(b0 == p.y@[63 - k]);
                        }
                    } else if k % 4 == 1 {
                        assert((((k % 4) * 8) as u32) == 8u32);
                        assert((w >> 8u32) & 0xff == b1 as u32);
                        assert(limb_byte(l@, k) == b1);
                        assert(k == 4 * ii + 1);
                        if k < 32 {
                            assert(b1 == p.x@[31 - k]);
                        } else {
                            assert(b1 == p.y@[63 - k]);
                        }
                    } else if k % 4 == 2 {
                        assert((((k % 4) * 8) as u32) == 16u32);
                        assert((w >> 16u32) & 0xff == b2 as u32);
                        assert(limb_byte(l@, k) == b2);
                        assert(k == 4 * ii + 2);
                        if k < 32 {
                            assert(b2 == p.x@[31 - k]);
                        } else {
                            assert(b2 == p.y@[63 - k]);
                        }
                    } else {
                        assert(k % 4 == 3);
                        assert((((k % 4) * 8) as u32) == 24u32);
                        assert((w >> 24u32) & 0xff == b3 as u32);
                        assert(limb_byte(l@, k) == b3);
                        assert(k == 4 * ii + 3);
                        if k < 32 {
                            assert(b3 == p.x@[31 - k]);
                        } else {
                            assert(b3 == p.y@[63 - k]);
                        }
                    }
                }
            }
        }
        i += 1;
    }
    proof {
        assert(coord_x(l@) =~= p.x@);
        assert(coord_y(l@) =~= p.y@);
    }
    l
}

/// Reversal of a 32-byte string.
pub open spec fn rev32(s: Seq<u8>) -> Seq<u8> {
    Seq::new(32, |j: int| s[31 - j])
}

/// Reads a point from 64 little-endian bytes: x in the first 32 bytes, y in
/// the last 32, each least-significant byte first.
pub fn point_from_le_bytes(b: &[u8; 64]) -> (p: AffinePoint)
    ensures
        p.x@ == rev32(b@.take(32)),
        p.y@ == rev32(b@.skip(32)),
{
    let mut x = [0u8; 32];
    let mut y = [0u8; 32];
    let mut j: usize = 0;
    while j < 32
        invariant
            j <= 32,
            forall|t: int| 0 <= t < j ==> x@[t] == b@[31 - t],
            forall|t: int| 0 <= t < j ==> y@[t] == b@[63 - t],
        decreases 32 - j,
    {
        x[j] = b[31 - j];
        y[j] = b[63 - j];
        j += 1;
    }
    let p = AffinePoint { x, y };
    proof {
        assert(p.x@ =~= rev32(b@.take(32)));
        assert(p.y@ =~= rev32(b@.skip(32)));
    }
    p
}

/// Writes a point as 64 little-endian bytes, the inverse of
/// `point_from_le_bytes`.
pub fn point_to_le_bytes(p: &AffinePoint) -> (b: [u8; 64])
    ensures
        b@.take(32) == rev32(p.x@),
        b@.skip(32) == rev32(p.y@),
{
    let mut b = [0u8; 64];
    let mut j: usize = 0;
    while j < 32
        invariant
            j <= 32,
            forall|t: int| 0 <= t < j ==> b@[t] == p.x@[31 - t],
            forall|t: int| 32 <= t < 32 + j ==> b@[t] == p.y@[63 - t],
        decreases 32 - j,
    {
        b[j] = p.x[31 - j];
        b[32 + j] = p.y[31 - j];
        j += 1;
    }
    proof {
        assert(b@.take(32) =~= rev32(p.x@));
        assert(b@.skip(32) =~= rev32(p.y@));
    }
    b
}

/// The packed generator point of the curve, x then y, little-endian words.
pub open spec fn generator_limbs() -> Seq<u32> {
    seq![
        3633889942u32, 4104206661, 770388896, 1996717441, 1671708914, 4173129445, 3777774151,
        1796723186, 935285237, 3417718888, 1798397646, 734933847, 2081398294, 2397563722,
        4263149467, 1340293858,
    ]
}

/// The curve capability: the generator constant and the point mutators the
/// verifier is built on.
#[derive(Clone, Copy)]
pub struct Secp256r1Operations;

impl Secp256r1Operations {
    /// The generator point, packed as little-endian words.
    pub fn generator() -> (l: [u32; 16])
        ensures
            l@ == generator_limbs(),
    {
        let l: [u32; 16] = [
            3633889942u32, 4104206661, 770388896, 1996717441, 1671708914, 4173129445, 3777774151,
            1796723186, 935285237, 3417718888, 1798397646, 734933847, 2081398294, 2397563722,
            4263149467, 1340293858,
        ];
        proof {
            assert(l@ =~= generator_limbs());
        }
        l
    }

    /// In-place point addition through the curve capability. Returns `false`
    /// and leaves `limbs` unchanged when the capability refuses the operands:
    /// an operand off the curve, or a sum at the point at infinity.
    pub fn add_assign(limbs: &mut [u32; 16], other: &[u32; 16]) -> (ok: bool)
        ensures
            match pt_add_of(coord_x(old(limbs)@), coord_y(old(limbs)@), coord_x(other@), coord_y(other@)) {
                Some(r) => ok && coord_x(final(limbs)@) == r.0 && coord_y(final(limbs)@) == r.1,
                None => !ok && final(limbs)@ == old(limbs)@,
            },
    {
        let p = limbs_to_point(limbs);
        let q = limbs_to_point(other);
        match pt_add(&p.x, &p.y, &q.x, &q.y) {
            Some(r) => {
                *limbs = point_to_limbs(&AffinePoint { x: r.0, y: r.1 });
                true
            }
            None => false,
        }
    }

    /// In-place point doubling through the curve capability. Returns `false`
    /// and leaves `limbs` unchanged when the capability refuses the operand.
    pub fn double(limbs: &mut [u32; 16]) -> (ok: bool)
        ensures
            match pt_double_of(coord_x(old(limbs)@), coord_y(old(limbs)@)) {
                Some(r) => ok && coord_x(final(limbs)@) == r.0 && coord_y(final(limbs)@) == r.1,
                None => !ok && final(limbs)@ == old(limbs)@,
            },
    {
        let p = limbs_to_point(limbs);
        match pt_double(&p.x, &p.y) {
            Some(r) => {
                *limbs = point_to_limbs(&AffinePoint { x: r.0, y: r.1 });
                true
            }
            None => false,
        }
    }
}

} // verus!
