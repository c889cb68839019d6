//! Two-phase public-key recovery. Phase 1 (propose) runs an untrusted
//! standard ECDSA key-recovery computation and writes its candidate key and
//! the inverse of the normalized s onto an ordered hint channel. Phase 2
//! (verify) drains the channel in the same order, decompresses the
//! candidate, checks the hinted inverse against the signature's low-s form,
//! and accepts the key only when signature verification succeeds. Soundness
//! rests entirely on phase 2; nothing from phase 1 is trusted directly.
use vstd::prelude::*;
use crate::bytes::{be_nat, n2b, be_eq32, be_lt32, be_sub32, be_is_zero32, be_one32, lemma_n2b_roundtrip};
use crate::scalar::{n_ord, order_bytes, scalar_in_range, scalar_inv_of, scalar_invert, scalar_mul};
use crate::verify::{Signature, read32, decompress_spec, decompress_pubkey, verify_spec, verify_signature};
use crate::Secp256r1Error;

verus! {

/// The ordered, single-producer, single-consumer hint channel: values are
/// read back exactly in the order they were written, each exactly once.
pub struct HintChannel {
    entries: Vec<Vec<u8>>,
}

impl HintChannel {
    /// The values still waiting to be read, oldest first.
    pub closed spec fn entries_view(&self) -> Seq<Seq<u8>> {
        self.entries@.map_values(|v: Vec<u8>| v@)
    }

    /// An empty channel.
    pub fn new() -> (c: HintChannel)
        ensures
            c.entries_view() == Seq::<Seq<u8>>::empty(),
    {
        let c = HintChannel { entries: Vec::new() };
        proof {
            assert(c.entries_view() =~= Seq::<Seq<u8>>::empty());
        }
        c
    }

    /// Appends a value to the outgoing queue.
    pub fn write(&mut self, v: Vec<u8>)
        ensures
            final(self).entries_view() == old(self).entries_view().push(v@),
    {
        let ghost gv = v@;
        self.entries.push(v);
        proof {
            assert(self.entries_view() =~= old(self).entries_view().push(gv));
        }
    }

    /// Pops the next value; it must exist and have the expected size, else
    /// the read is a protocol violation.
    pub fn read(&mut self, expected_len: usize) -> (res: Result<Vec<u8>, Secp256r1Error>)
        ensures
            ({
                let pre = old(self).entries_view();
                match res {
                    Ok(v) => pre.len() > 0 && pre[0].len() == expected_len && v@ == pre[0]
                        && final(self).entries_view() == pre.skip(1),
                    Err(e) => e == Secp256r1Error::RecoveryProtocolViolation
                        && (pre.len() == 0 || pre[0].len() != expected_len)
                        && final(self).entries_view() == (if pre.len() == 0 {
                            pre
                        } else {
                            pre.skip(1)
                        }),
                }
            }),
    {
        if self.entries.len() == 0 {
            return Err(Secp256r1Error::RecoveryProtocolViolation);
        }
        let v = self.entries.remove(0);
        proof {
            assert(self.entries@ =~= old(self).entries@.skip(1));
            assert(self.entries_view() =~= old(self).entries_view().skip(1));
        }
        if v.len() != expected_len {
            return Err(Secp256r1Error::RecoveryProtocolViolation);
        }
        Ok(v)
    }
}

/// Copies a byte array into a vector.
fn vec_from_bytes<const N: usize>(a: &[u8; N]) -> (v: Vec<u8>)
    ensures
        v@ == a@,
{
    let mut v: Vec<u8> = Vec::new();
    let mut i: usize = 0;
    while i < N
        invariant
            i <= N,
            v@.len() == i,
            forall|t: int| 0 <= t < i ==> v@[t] == a@[t],
        decreases N - i,
    {
        v.push(a[i]);
        i += 1;
    }
    proof {
        assert(v@ =~= a@);
    }
    v
}

/// Copies a vector of the right length into a byte array.
fn vec_to_bytes<const N: usize>(v: &Vec<u8>) -> (a: [u8; N])
    requires
        v@.len() == N,
    ensures
        a@ == v@,
{
    let mut a = [0u8; N];
    let mut i: usize = 0;
    while i < N
        invariant
            i <= N,
            v@.len() == N,
            forall|t: int| 0 <= t < i ==> a@[t] == v@[t],
        decreases N - i,
    {
        a[i] = v[i];
        i += 1;
    }
    proof {
        assert(a@ =~= v@);
    }
    a
}

/// Name for the result of p256's ECDSA public-key recovery: the compressed
/// candidate key recovered from a message hash, signature scalars and a
/// recovery id, `None` when they admit no key.
pub uninterp spec fn recover_key_of(msg_hash: Seq<u8>, r: Seq<u8>, s: Seq<u8>, recid: u8) -> Option<Seq<u8>>;

/// Relies on p256's `VerifyingKey::recover_from_prehash` and the SEC1
/// compressed encoding: the 33-byte compressed candidate key, `None` when
/// the scalars or the recovery id are rejected or no key can be recovered.
/// The result depends on the arguments alone.
#[verifier::external_body]
fn recover_compressed_key(msg_hash: &[u8; 32], r: &[u8; 32], s: &[u8; 32], recid: u8) -> (out: Option<[u8; 33]>)
    ensures
        match out {
            Some(k) => recover_key_of(msg_hash@, r@, s@, recid) == Some(k@),
            None => recover_key_of(msg_hash@, r@, s@, recid) is None,
        },
{
    let sig = match p256::ecdsa::Signature::from_scalars(*r, *s) {
        Ok(sig) => sig,
        Err(_) => return None,
    };
    let id = match k256::ecdsa::RecoveryId::from_byte(recid) {
        Some(id) => id,
        None => return None,
    };
    let key = match p256::ecdsa::VerifyingKey::recover_from_prehash(msg_hash, &sig, id) {
        Ok(key) => key,
        Err(_) => return None,
    };
    let mut out = [0u8; 33];
    out.copy_from_slice(key.to_encoded_point(true).as_bytes());
    Some(out)
}

/// s lies in the high half of the scalar range: n − s < s.
pub open spec fn s_is_high(s: Seq<u8>) -> bool {
    n_ord() - be_nat(s) < be_nat(s)
}

/// The low-s form of a scalar: n − s when s is high, s itself otherwise.
pub open spec fn low_s_seq(s: Seq<u8>) -> Seq<u8> {
    if s_is_high(s) {
        n2b((n_ord() - be_nat(s)) as nat, 32)
    } else {
        s
    }
}

/// Replaces s by n − s when it is in the high half of the range, reporting
/// whether it did; the result is always a valid nonzero scalar encoding.
fn normalize_s(s: &[u8; 32]) -> (res: ([u8; 32], bool))
    requires
        0 < be_nat(s@) < n_ord(),
    ensures
        res.0@ == low_s_seq(s@),
        res.1 == s_is_high(s@),
        0 < be_nat(res.0@) < n_ord(),
{
    let n = order_bytes();
    let d = be_sub32(&n, s);
    if be_lt32(&d, s) {
        proof {
            lemma_n2b_roundtrip(d@);
        }
        (d, true)
    } else {
        (*s, false)
    }
}

/// What the untrusted propose phase publishes for a 65-byte recoverable
/// signature (r ‖ s ‖ recovery id) and message hash: the compressed
/// candidate key recovered from the low-s form of the signature, with the
/// recovery id's low bit flipped when s was normalized, paired with the
/// inverse of the normalized s; `None` when the scalars are out of range
/// or no key can be recovered.
pub open spec fn propose_of(sig: Seq<u8>, h: Seq<u8>) -> Option<(Seq<u8>, Seq<u8>)> {
    let r = sig.subrange(0, 32);
    let s = sig.subrange(32, 64);
    if 0 < be_nat(r) < n_ord() && 0 < be_nat(s) < n_ord() {
        let s2 = low_s_seq(s);
        let recid2 = if s_is_high(s) {
            sig[64] ^ 1
        } else {
            sig[64]
        };
        match recover_key_of(h, r, s2, recid2) {
            Some(k) => Some((k, scalar_inv_of(s2))),
            None => None,
        }
    } else {
        None
    }
}

/// Phase 1 of recovery: the unconstrained propose step. Normalizes the
/// signature to low-s form, runs the untrusted key-recovery computation,
/// and writes exactly two values onto the channel in order — the 33-byte
/// compressed candidate key, then the 32-byte inverse of the normalized s —
/// or nothing at all when no candidate exists.
pub fn propose_recovery(sig: &[u8; 65], msg_hash: &[u8; 32], channel: &mut HintChannel)
    ensures
        final(channel).entries_view() == match propose_of(sig@, msg_hash@) {
            Some(kv) => old(channel).entries_view().push(kv.0).push(kv.1),
            None => old(channel).entries_view(),
        },
        propose_of(sig@, msg_hash@) matches Some(kv) ==> kv.0.len() == 33 && kv.1.len() == 32,
{
    let r = read32(sig, 0);
    let s = read32(sig, 32);
    if be_is_zero32(&r) || !scalar_in_range(&r) || be_is_zero32(&s) || !scalar_in_range(&s) {
        return;
    }
    let (s2, high) = normalize_s(&s);
    let recid = if high {
        sig[64] ^ 1
    } else {
        sig[64]
    };
    let key = match recover_compressed_key(msg_hash, &r, &s2, recid) {
        Some(key) => key,
        None => {
            return;
        }
    };
    let inv = match scalar_invert(&s2) {
        Some(inv) => inv,
        None => {
            proof {
                assert(false);
            }
            return;
        }
    };
    channel.write(vec_from_bytes(&key));
    channel.write(vec_from_bytes(&inv));
}

/// What phase 2 returns for given hints: the candidate must decompress,
/// the signature scalars must be in range, the hinted inverse must pass
/// the multiplicative-identity check against the signature's low-s form,
/// and the decompressed key must verify the signature. Verification runs
/// against the low-s form, which ECDSA accepts exactly when it accepts the
/// original, so recovery succeeds for either s-normalization of a valid
/// signature.
pub open spec fn recover_check_spec(sig: Seq<u8>, h: Seq<u8>, k: Seq<u8>, inv: Seq<u8>) -> Result<Seq<u8>, Secp256r1Error> {
    match decompress_spec(k) {
        Err(_) => Err(Secp256r1Error::InvalidEncoding),
        Ok(pk) => {
            let r = sig.subrange(0, 32);
            let s = sig.subrange(32, 64);
            if !(0 < be_nat(r) < n_ord() && 0 < be_nat(s) < n_ord()) {
                Err(Secp256r1Error::InvalidEncoding)
            } else {
                let s2 = low_s_seq(s);
                if !(be_nat(inv) < n_ord() && (be_nat(inv) * be_nat(s2)) % n_ord() == 1) {
                    Err(Secp256r1Error::ConsistencyViolation)
                } else if verify_spec(pk, h, r, s2, be_nat(inv)) {
                    Ok(pk)
                } else {
                    Err(Secp256r1Error::RecoveryVerificationFailed)
                }
            }
        }
    }
}

/// What phase 2 returns given the channel contents: two reads of fixed
/// sizes (33 bytes, then 32), any missing or mis-sized value a protocol
/// violation, then the hint check.
pub open spec fn phase2_spec(sig: Seq<u8>, h: Seq<u8>, pre: Seq<Seq<u8>>) -> Result<Seq<u8>, Secp256r1Error> {
    if pre.len() < 1 || pre[0].len() != 33 {
        Err(Secp256r1Error::RecoveryProtocolViolation)
    } else if pre.len() < 2 || pre[1].len() != 32 {
        Err(Secp256r1Error::RecoveryProtocolViolation)
    } else {
        recover_check_spec(sig, h, pre[0], pre[1])
    }
}

/// Phase 2 of recovery: the constrained verify step. Reads the candidate
/// key and the hinted inverse from the channel in order and with fixed
/// sizes, decompresses the candidate, checks the inverse against the
/// signature's low-s form, and returns the uncompressed key only when
/// verification succeeds. Exactly the values it read leave the channel.
pub fn recover_from_hints(sig: &[u8; 65], msg_hash: &[u8; 32], channel: &mut HintChannel) -> (res: Result<[u8; 65], Secp256r1Error>)
    ensures
        match res {
            Ok(u) => phase2_spec(sig@, msg_hash@, old(channel).entries_view()) == Ok::<Seq<u8>, Secp256r1Error>(u@),
            Err(e) => phase2_spec(sig@, msg_hash@, old(channel).entries_view()) == Err::<Seq<u8>, Secp256r1Error>(e),
        },
        final(channel).entries_view() == ({
            let pre = old(channel).entries_view();
            if pre.len() == 0 {
                pre
            } else if pre[0].len() != 33 || pre.len() == 1 {
                pre.skip(1)
            } else {
                pre.skip(2)
            }
        }),
{
    let kvec = match channel.read(33) {
        Ok(v) => v,
        Err(e) => {
            return Err(e);
        }
    };
    let ivec = match channel.read(32) {
        Ok(v) => v,
        Err(e) => {
            proof {
                let pre = old(channel).entries_view();
                if pre.len() >= 2 {
                    assert(pre.skip(1).skip(1) =~= pre.skip(2));
                }
            }
            return Err(e);
        }
    };
    proof {
        let pre = old(channel).entries_view();
        assert(pre.skip(1).skip(1) =~= pre.skip(2));
    }
    let key: [u8; 33] = vec_to_bytes(&kvec);
    let inv: [u8; 32] = vec_to_bytes(&ivec);
    let pubkey = match decompress_pubkey(&key) {
        Ok(p) => p,
        Err(_) => {
            return Err(Secp256r1Error::InvalidEncoding);
        }
    };
    let r = read32(sig, 0);
    let s = read32(sig, 32);
    if be_is_zero32(&r) || !scalar_in_range(&r) || be_is_zero32(&s) || !scalar_in_range(&s) {
        return Err(Secp256r1Error::InvalidEncoding);
    }
    let (s_low, _) = normalize_s(&s);
    let signature = Signature { r, s: s_low };
    if !scalar_in_range(&inv) {
        return Err(Secp256r1Error::ConsistencyViolation);
    }
    let prod = scalar_mul(&inv, &s_low);
    let one = be_one32();
    proof {
        if be_nat(prod@) == 1 {
            crate::bytes::lemma_be_nat_injective(prod@, one@);
        }
    }
    if !be_eq32(&prod, &one) {
        return Err(Secp256r1Error::ConsistencyViolation);
    }
    if verify_signature(&pubkey, msg_hash, &signature, Some(&inv)) {
        Ok(pubkey)
    } else {
        Err(Secp256r1Error::RecoveryVerificationFailed)
    }
}

/// Runs the untrusted propose phase into a fresh channel and reads the two
/// hints back in order, exactly as the constrained phase would: the 33-byte
/// compressed candidate key and the 32-byte inverse of the normalized s.
/// Nothing about the pair is trusted; it must be checked through
/// `decompress_pubkey` and `verify_signature`, or use `ecrecover`.
pub fn unconstrained_ecrecover(sig: &[u8; 65], msg_hash: &[u8; 32]) -> (res: Result<([u8; 33], [u8; 32]), Secp256r1Error>)
    ensures
        match propose_of(sig@, msg_hash@) {
            Some(kv) => match res {
                Ok(p) => p.0@ == kv.0 && p.1@ == kv.1,
                Err(_) => false,
            },
            None => res == Err::<([u8; 33], [u8; 32]), Secp256r1Error>(Secp256r1Error::RecoveryProtocolViolation),
        },
{
    let mut channel = HintChannel::new();
    propose_recovery(sig, msg_hash, &mut channel);
    let kvec = match channel.read(33) {
        Ok(v) => v,
        Err(e) => {
            return Err(e);
        }
    };
    let ivec = match channel.read(32) {
        Ok(v) => v,
        Err(e) => {
            return Err(e);
        }
    };
    Ok((vec_to_bytes(&kvec), vec_to_bytes(&ivec)))
}

/// What recovery returns for a 65-byte recoverable signature and message
/// hash: the propose phase must publish a candidate, and the constrained
/// phase must accept it.
pub open spec fn ecrecover_spec(sig: Seq<u8>, h: Seq<u8>) -> Result<Seq<u8>, Secp256r1Error> {
    match propose_of(sig, h) {
        None => Err(Secp256r1Error::RecoveryProtocolViolation),
        Some(kv) => recover_check_spec(sig, h, kv.0, kv.1),
    }
}

/// Soundness of the propose/verify split: a key that recovery returns has
/// passed signature verification against (r, low-s) with an inverse that
/// passed the multiplicative-identity check — no hint is ever trusted
/// without verification.
pub proof fn lemma_recovered_key_verifies(sig: Seq<u8>, h: Seq<u8>, u: Seq<u8>)
    requires
        ecrecover_spec(sig, h) == Ok::<Seq<u8>, Secp256r1Error>(u),
    ensures
        exists|inv: Seq<u8>|
            be_nat(inv) < n_ord()
                && (be_nat(inv) * be_nat(low_s_seq(sig.subrange(32, 64)))) % n_ord() == 1
                && verify_spec(u, h, sig.subrange(0, 32), low_s_seq(sig.subrange(32, 64)), be_nat(inv)),
{
    let kv = propose_of(sig, h)->Some_0;
    assert(recover_check_spec(sig, h, kv.0, kv.1) == Ok::<Seq<u8>, Secp256r1Error>(u));
    assert(be_nat(kv.1) < n_ord()
        && (be_nat(kv.1) * be_nat(low_s_seq(sig.subrange(32, 64)))) % n_ord() == 1
        && verify_spec(u, h, sig.subrange(0, 32), low_s_seq(sig.subrange(32, 64)), be_nat(kv.1)));
}

/// Two-phase public-key recovery: given a recoverable signature
/// r ‖ s ‖ recovery id and the signed message hash, returns the uncompressed
/// public key that signed the message, independently verified; every hint
/// from the untrusted phase is checked before it is trusted.
pub fn ecrecover(sig: &[u8; 65], msg_hash: &[u8; 32]) -> (res: Result<[u8; 65], Secp256r1Error>)
    ensures
        match res {
            Ok(u) => ecrecover_spec(sig@, msg_hash@) == Ok::<Seq<u8>, Secp256r1Error>(u@),
            Err(e) => ecrecover_spec(sig@, msg_hash@) == Err::<Seq<u8>, Secp256r1Error>(e),
        },
{
    let mut channel = HintChannel::new();
    propose_recovery(sig, msg_hash, &mut channel);
    proof {
        match propose_of(sig@, msg_hash@) {
            Some(kv) => {
                let pre = channel.entries_view();
                assert(pre =~= seq![kv.0, kv.1]);
                assert(kv.0.len() == 33 && kv.1.len() == 32) by {
                    assert(pre[0] == kv.0 && pre[1] == kv.1);
                }
            }
            None => {
                assert(channel.entries_view().len() == 0);
            }
        }
    }
    recover_from_hints(sig, msg_hash, &mut channel)
}

} // verus!
