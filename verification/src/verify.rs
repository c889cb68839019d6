//! Public-key decompression and ECDSA signature verification.
use vstd::prelude::*;
use crate::bytes::{be_nat, n2b, be_eq32, be_lt32, be_sub32, be_is_zero32, pow256, lemma_be_nat_bound, lemma_be_nat_injective, lemma_n2b_roundtrip};
use crate::scalar::{n_ord, p_mod, order_bytes, scalar_in_range, coord_in_range, scalar_inv_of, scalar_mul, scalar_invert, lemma_order_large};
use crate::point::{AffinePoint, Secp256r1Operations, generator_limbs, coord_x, coord_y, limbs_to_point, decompress_y_of, pt_decompress};
use crate::shamir::{shamir_of, double_and_add_base};
use crate::Secp256r1Error;

verus! {

/// Copies 32 bytes out of a fixed-size buffer.
pub fn read32<const N: usize>(src: &[u8; N], off: usize) -> (r: [u8; 32])
    requires
        off + 32 <= N,
    ensures
        r@ == src@.subrange(off as int, off + 32),
{
    let mut r = [0u8; 32];
    let mut j: usize = 0;
    while j < 32
        invariant
            j <= 32,
            off + 32 <= N,
            forall|t: int| 0 <= t < j ==> r@[t] == src@[off + t],
        decreases 32 - j,
    {
        r[j] = src[off + j];
        j += 1;
    }
    proof {
        assert(r@ =~= src@.subrange(off as int, off + 32));
    }
    r
}

/// An ECDSA signature: the scalar pair (r, s) as canonical big-endian bytes.
#[derive(Clone, Copy, Debug)]
pub struct Signature {
    pub r: [u8; 32],
    pub s: [u8; 32],
}

impl Signature {
    /// Both components lie in the scalar range [1, n-1].
    pub open spec fn valid(&self) -> bool {
        0 < be_nat(self.r@) < n_ord() && 0 < be_nat(self.s@) < n_ord()
    }

    /// Parses the 64-byte r ‖ s form, rejecting any component outside
    /// [1, n-1].
    pub fn from_slice(bytes: &[u8; 64]) -> (res: Result<Signature, Secp256r1Error>)
        ensures
            match res {
                Ok(sig) => sig.r@ == bytes@.subrange(0, 32) && sig.s@ == bytes@.subrange(32, 64)
                    && sig.valid(),
                Err(e) => e == Secp256r1Error::InvalidEncoding
                    && !(0 < be_nat(bytes@.subrange(0, 32)) < n_ord()
                        && 0 < be_nat(bytes@.subrange(32, 64)) < n_ord()),
            },
    {
        let r = read32(bytes, 0);
        let s = read32(bytes, 32);
        if be_is_zero32(&r) || !scalar_in_range(&r) || be_is_zero32(&s) || !scalar_in_range(&s) {
            return Err(Secp256r1Error::InvalidEncoding);
        }
        Ok(Signature { r, s })
    }
}

/// What decompression returns for a 33-byte compressed key: the prefixed
/// uncompressed form when the parity byte is 2 or 3 and x is on the curve,
/// an encoding error otherwise.
pub open spec fn decompress_spec(c: Seq<u8>) -> Result<Seq<u8>, Secp256r1Error> {
    if c[0] != 2 && c[0] != 3 {
        Err(Secp256r1Error::InvalidEncoding)
    } else {
        match decompress_y_of(c.subrange(1, 33), c[0] == 3) {
            Some(y) => Ok(seq![4u8] + c.subrange(1, 33) + y),
            None => Err(Secp256r1Error::InvalidEncoding),
        }
    }
}

/// Turns a 33-byte compressed public key into the 65-byte uncompressed
/// form: the parity byte must be 2 (even y) or 3 (odd y); the curve
/// capability recovers the matching y; the output is 0x04 ‖ x ‖ y. No
/// on-curve check beyond what decompression itself performs.
pub fn decompress_pubkey(compressed_key: &[u8; 33]) -> (res: Result<[u8; 65], Secp256r1Error>)
    ensures
        match res {
            Ok(u) => decompress_spec(compressed_key@) == Ok::<Seq<u8>, Secp256r1Error>(u@),
            Err(e) => decompress_spec(compressed_key@) == Err::<Seq<u8>, Secp256r1Error>(e),
        },
        res matches Ok(u) ==> (u@[64] & 1) == (if compressed_key@[0] == 3 {
            1u8
        } else {
            0u8
        }),
{
    let parity = compressed_key[0];
    if parity != 2 && parity != 3 {
        return Err(Secp256r1Error::InvalidEncoding);
    }
    let x = read32(compressed_key, 1);
    let y = match pt_decompress(&x, parity == 3) {
        Some(y) => y,
        None => {
            return Err(Secp256r1Error::InvalidEncoding);
        }
    };
    let mut out = [0u8; 65];
    out[0] = 4;
    let mut j: usize = 0;
    while j < 32
        invariant
            j <= 32,
            out@[0] == 4,
            forall|t: int| 1 <= t < 1 + j ==> out@[t] == x@[t - 1],
            forall|t: int| 33 <= t < 33 + j ==> out@[t] == y@[t - 33],
        decreases 32 - j,
    {
        out[1 + j] = x[j];
        out[33 + j] = y[j];
        j += 1;
    }
    proof {
        assert(out@ =~= seq![4u8] + compressed_key@.subrange(1, 33) + y@);
    }
    Ok(out)
}

/// Decompression preserves the compressed key's x-coordinate exactly:
/// whenever it accepts, the output is 0x04 followed by the input's 32
/// x-coordinate bytes and the recovered y.
pub proof fn lemma_decompress_preserves_x(c: Seq<u8>, u: Seq<u8>)
    requires
        c.len() == 33,
        decompress_spec(c) == Ok::<Seq<u8>, Secp256r1Error>(u),
    ensures
        u[0] == 4,
        u.subrange(1, 33) == c.subrange(1, 33),
        decompress_y_of(c.subrange(1, 33), c[0] == 3) == Some(u.skip(33)),
{
    let x = c.subrange(1, 33);
    let y = decompress_y_of(x, c[0] == 3)->Some_0;
    assert(u == seq![4u8] + x + y);
    assert(u.subrange(1, 33) =~= x);
    assert(u.skip(33) =~= y);
}

/// What signature verification returns, given the inverse of s that is
/// used: false on any out-of-range coordinate or hash encoding; otherwise
/// the combined multiplication u1·G + u2·Q must land on a point whose
/// x-coordinate, reduced modulo the group order, equals r.
pub open spec fn verify_spec(pk: Seq<u8>, h: Seq<u8>, r: Seq<u8>, s: Seq<u8>, sinv: nat) -> bool {
    let x = pk.subrange(1, 33);
    let y = pk.subrange(33, 65);
    if be_nat(x) < p_mod() && be_nat(y) < p_mod() && be_nat(h) < n_ord() {
        let u1 = n2b((be_nat(h) * sinv) % n_ord(), 32);
        let u2 = n2b((be_nat(r) * sinv) % n_ord(), 32);
        match shamir_of(u1, u2, (coord_x(generator_limbs()), coord_y(generator_limbs())), (x, y)) {
            Some(res) => be_nat(res.0) % n_ord() == be_nat(r),
            None => false,
        }
    } else {
        false
    }
}

/// ECDSA verification of a message hash against an uncompressed public key.
/// The key is not checked to be on the curve. A caller-supplied inverse of
/// s must actually be the inverse — that is this function's contract with
/// its callers, checked by callers at runtime where the inverse comes from
/// untrusted data; with no inverse supplied it is computed here. Malformed
/// (non-canonical) coordinate or hash encodings yield `false`, never an
/// error.
pub fn verify_signature(pubkey: &[u8; 65], msg_hash: &[u8; 32], signature: &Signature, s_inverse: Option<&[u8; 32]>) -> (ok: bool)
    requires
        signature.valid(),
        s_inverse matches Some(v) ==> be_nat(v@) < n_ord()
            && (be_nat(v@) * be_nat(signature.s@)) % n_ord() == 1,
    ensures
        ok == verify_spec(pubkey@, msg_hash@, signature.r@, signature.s@,
            match s_inverse {
                Some(v) => be_nat(v@),
                None => be_nat(scalar_inv_of(signature.s@)),
            }),
{
    let x = read32(pubkey, 1);
    let y = read32(pubkey, 33);
    if !coord_in_range(&x) || !coord_in_range(&y) {
        return false;
    }
    if !scalar_in_range(msg_hash) {
        return false;
    }
    let s_inv: [u8; 32] = match s_inverse {
        Some(v) => *v,
        None => match scalar_invert(&signature.s) {
            Some(v) => v,
            None => {
                proof {
                    assert(false);
                }
                return false;
            }
        },
    };
    let u1 = scalar_mul(msg_hash, &s_inv);
    let u2 = scalar_mul(&signature.r, &s_inv);
    proof {
        lemma_n2b_roundtrip(u1@);
        lemma_n2b_roundtrip(u2@);
    }
    let gl = Secp256r1Operations::generator();
    let gp = limbs_to_point(&gl);
    let q = AffinePoint { x, y };
    let res = match double_and_add_base(&u1, &gp, &u2, &q) {
        Some(res) => res,
        None => {
            return false;
        }
    };
    let n = order_bytes();
    let reduced: [u8; 32] = if be_lt32(&res.x, &n) {
        proof {
            assert(be_nat(res.x@) % n_ord() == be_nat(res.x@)) by (nonlinear_arith)
                requires 0 <= be_nat(res.x@) < n_ord(),
            {
            }
        }
        res.x
    } else {
        let d = be_sub32(&res.x, &n);
        proof {
            lemma_be_nat_bound(res.x@);
            lemma_order_large();
            assert(be_nat(res.x@) % n_ord() == be_nat(res.x@) - n_ord()) by (nonlinear_arith)
                requires
                    n_ord() <= be_nat(res.x@),
                    be_nat(res.x@) < 2 * n_ord(),
            {
            }
        }
        d
    };
    proof {
        if be_nat(reduced@) == be_nat(signature.r@) {
            lemma_be_nat_injective(reduced@, signature.r@);
        }
    }
    be_eq32(&reduced, &signature.r)
}

} // verus!
