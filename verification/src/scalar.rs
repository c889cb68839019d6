//! Scalars modulo the curve group order: the order and field-prime
//! constants, canonical-range checks, and the multiplication and inversion
//! primitives supplied by the p256 crate.
use vstd::prelude::*;
use p256::elliptic_curve::PrimeField;
use crate::bytes::{be_nat, be_lt32, pow256, lemma_be_nat_front, lemma_pow256_pos, lemma_be_nat_bound};

verus! {

/// Big-endian bytes of the group order n of the P-256 curve.
pub open spec fn order_seq() -> Seq<u8> {
    seq![
        0xffu8, 0xff, 0xff, 0xff, 0x00, 0x00, 0x00, 0x00,
        0xff, 0xff, 0xff, 0xff, 0xff, 0xff, 0xff, 0xff,
        0xbc, 0xe6, 0xfa, 0xad, 0xa7, 0x17, 0x9e, 0x84,
        0xf3, 0xb9, 0xca, 0xc2, 0xfc, 0x63, 0x25, 0x51,
    ]
}

/// The group order n as a number.
pub open spec fn n_ord() -> nat {
    be_nat(order_seq())
}

/// Big-endian bytes of the field prime p of the P-256 curve.
pub open spec fn prime_seq() -> Seq<u8> {
    seq![
        0xffu8, 0xff, 0xff, 0xff, 0x00, 0x00, 0x00, 0x01,
        0x00, 0x00, 0x00, 0x00, 0x00, 0x00, 0x00, 0x00,
        0x00, 0x00, 0x00, 0x00, 0xff, 0xff, 0xff, 0xff,
        0xff, 0xff, 0xff, 0xff, 0xff, 0xff, 0xff, 0xff,
    ]
}

/// The field prime p as a number.
pub open spec fn p_mod() -> nat {
    be_nat(prime_seq())
}

/// The group order, as a byte array for runtime range checks.
pub fn order_bytes() -> (r: [u8; 32])
    ensures
        r@ == order_seq(),
{
    let r: [u8; 32] = [
        0xffu8, 0xff, 0xff, 0xff, 0x00, 0x00, 0x00, 0x00,
        0xff, 0xff, 0xff, 0xff, 0xff, 0xff, 0xff, 0xff,
        0xbc, 0xe6, 0xfa, 0xad, 0xa7, 0x17, 0x9e, 0x84,
        0xf3, 0xb9, 0xca, 0xc2, 0xfc, 0x63, 0x25, 0x51,
    ];
    proof {
        assert(r@ =~= order_seq());
    }
    r
}

/// The field prime, as a byte array for runtime range checks.
pub fn prime_bytes() -> (r: [u8; 32])
    ensures
        r@ == prime_seq(),
{
    let r: [u8; 32] = [
        0xffu8, 0xff, 0xff, 0xff, 0x00, 0x00, 0x00, 0x01,
        0x00, 0x00, 0x00, 0x00, 0x00, 0x00, 0x00, 0x00,
        0x00, 0x00, 0x00, 0x00, 0xff, 0xff, 0xff, 0xff,
        0xff, 0xff, 0xff, 0xff, 0xff, 0xff, 0xff, 0xff,
    ];
    proof {
        assert(r@ =~= prime_seq());
    }
    r
}

/// Any 32-byte value is below twice the group order, so one conditional
/// subtraction reduces it modulo n.
pub proof fn lemma_order_large()
    ensures
        pow256(32) <= 2 * n_ord(),
        n_ord() < pow256(32),
{
    lemma_be_nat_front(order_seq());
    lemma_pow256_pos(31);
    let p = pow256(31);
    assert(order_seq()[0] == 0xff);
    assert(n_ord() >= 0xff * p);
    assert(pow256(32) == 256 * p);
    assert(256 * p <= 2 * (0xff * p)) by (nonlinear_arith)
        requires p >= 1,
    {
    }
    lemma_be_nat_bound(order_seq());
}

/// True when the value of `a` is in the canonical scalar range `[0, n)`.
pub fn scalar_in_range(a: &[u8; 32]) -> (r: bool)
    ensures
        r == (be_nat(a@) < n_ord()),
{
    let n = order_bytes();
    be_lt32(a, &n)
}

/// True when the value of `a` is in the canonical coordinate range `[0, p)`.
pub fn coord_in_range(a: &[u8; 32]) -> (r: bool)
    ensures
        r == (be_nat(a@) < p_mod()),
{
    let p = prime_bytes();
    be_lt32(a, &p)
}

/// Name for the result of p256's scalar inversion on a canonical nonzero
/// scalar encoding.
pub uninterp spec fn scalar_inv_of(s: Seq<u8>) -> Seq<u8>;

/// Relies on p256's `Scalar` multiplication: the product of two canonical
/// scalars modulo the group order n, returned in canonical big-endian form.
#[verifier::external_body]
pub(crate) fn scalar_mul(a: &[u8; 32], b: &[u8; 32]) -> (r: [u8; 32])
    requires
        be_nat(a@) < n_ord(),
        be_nat(b@) < n_ord(),
    ensures
        be_nat(r@) == (be_nat(a@) * be_nat(b@)) % n_ord(),
{
    let x = p256::Scalar::from_repr((*a).into()).unwrap();
    let y = p256::Scalar::from_repr((*b).into()).unwrap();
    (x * y).to_bytes().into()
}

/// Relies on p256's `Scalar::invert`: the multiplicative inverse modulo the
/// group order n of a nonzero canonical scalar, `None` exactly for zero. The
/// result depends on the scalar bytes alone.
#[verifier::external_body]
pub(crate) fn scalar_invert(s: &[u8; 32]) -> (r: Option<[u8; 32]>)
    requires
        be_nat(s@) < n_ord(),
    ensures
        match r {
            Some(v) => v@ == scalar_inv_of(s@) && be_nat(v@) < n_ord()
                && (be_nat(v@) * be_nat(s@)) % n_ord() == 1 && be_nat(s@) != 0,
            None => be_nat(s@) == 0,
        },
{
    let x = p256::Scalar::from_repr((*s).into()).unwrap();
    match Option::<p256::Scalar>::from(x.invert()) {
        Some(v) => Some(v.to_bytes().into()),
        None => None,
    }
}

} // verus!
