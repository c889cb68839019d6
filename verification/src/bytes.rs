//! Big-endian byte-string arithmetic: the numeric value of a byte string,
//! canonical encodings, comparison and subtraction. All scalar and
//! coordinate bookkeeping in the crate is stated over `be_nat`.
use vstd::prelude::*;

verus! {

/// Value of a big-endian byte string: the last byte is least significant.
pub open spec fn be_nat(s: Seq<u8>) -> nat
    decreases s.len(),
{
    if s.len() == 0 {
        0
    } else {
        be_nat(s.drop_last()) * 256 + s.last() as nat
    }
}

/// 256 raised to `n`.
pub open spec fn pow256(n: nat) -> nat
    decreases n,
{
    if n == 0 {
        1
    } else {
        256 * pow256((n - 1) as nat)
    }
}

/// Canonical big-endian encoding of `v % pow256(len)` in `len` bytes.
pub open spec fn n2b(v: nat, len: nat) -> Seq<u8>
    decreases len,
{
    if len == 0 {
        Seq::empty()
    } else {
        n2b(v / 256, (len - 1) as nat) + seq![(v % 256) as u8]
    }
}

pub proof fn lemma_pow256_pos(n: nat)
    ensures
        pow256(n) >= 1,
    decreases n,
{
    if n > 0 {
        lemma_pow256_pos((n - 1) as nat);
    }
}

pub proof fn lemma_be_nat_bound(s: Seq<u8>)
    ensures
        be_nat(s) < pow256(s.len()),
    decreases s.len(),
{
    if s.len() > 0 {
        lemma_be_nat_bound(s.drop_last());
        assert(be_nat(s.drop_last()) <= pow256((s.len() - 1) as nat) - 1);
        assert((pow256((s.len() - 1) as nat) - 1) * 256 + 255 < 256 * pow256((s.len() - 1) as nat)) by (nonlinear_arith)
            requires pow256((s.len() - 1) as nat) >= 1,
        {
        }
        assert(be_nat(s.drop_last()) * 256 <= (pow256((s.len() - 1) as nat) - 1) * 256) by (nonlinear_arith)
            requires be_nat(s.drop_last()) <= pow256((s.len() - 1) as nat) - 1,
        {
        }
    }
}

/// Two equal-length byte strings with the same value are the same string.
pub proof fn lemma_be_nat_injective(a: Seq<u8>, b: Seq<u8>)
    requires
        a.len() == b.len(),
        be_nat(a) == be_nat(b),
    ensures
        a == b,
    decreases a.len(),
{
    if a.len() > 0 {
        assert(be_nat(a) % 256 == a.last() && be_nat(a) / 256 == be_nat(a.drop_last())) by (nonlinear_arith)
            requires be_nat(a) == be_nat(a.drop_last()) * 256 + a.last(), a.last() < 256,
        {
        }
        assert(be_nat(b) % 256 == b.last() && be_nat(b) / 256 == be_nat(b.drop_last())) by (nonlinear_arith)
            requires be_nat(b) == be_nat(b.drop_last()) * 256 + b.last(), b.last() < 256,
        {
        }
        lemma_be_nat_injective(a.drop_last(), b.drop_last());
        assert(a =~= a.drop_last().push(a.last()));
        assert(b =~= b.drop_last().push(b.last()));
    } else {
        assert(a =~= b);
    }
}

/// Decoding the value of a byte string gives the string back.
pub proof fn lemma_n2b_roundtrip(s: Seq<u8>)
    ensures
        n2b(be_nat(s), s.len()) == s,
    decreases s.len(),
{
    if s.len() > 0 {
        assert(be_nat(s) % 256 == s.last() && be_nat(s) / 256 == be_nat(s.drop_last())) by (nonlinear_arith)
            requires be_nat(s) == be_nat(s.drop_last()) * 256 + s.last(), s.last() < 256,
        {
        }
        lemma_n2b_roundtrip(s.drop_last());
        assert(n2b(be_nat(s), s.len()) =~= s);
    } else {
        assert(n2b(0, 0) =~= s);
    }
}

/// Splitting a byte string splits its value by place value.
pub proof fn lemma_be_nat_split(s: Seq<u8>, k: int)
    requires
        0 <= k <= s.len(),
    ensures
        be_nat(s) == be_nat(s.take(k)) * pow256((s.len() - k) as nat) + be_nat(s.skip(k)),
    decreases s.len() - k,
{
    if k == s.len() {
        assert(s.take(k) =~= s);
        assert(s.skip(k) =~= Seq::<u8>::empty());
        assert(pow256(0) == 1);
        assert(be_nat(Seq::<u8>::empty()) == 0);
        assert(be_nat(s) * 1 == be_nat(s)) by (nonlinear_arith);
    } else {
        let d = s.drop_last();
        lemma_be_nat_split(d, k);
        assert(d.take(k) =~= s.take(k));
        assert(d.skip(k) =~= s.skip(k).drop_last());
        assert(s.skip(k).len() > 0);
        assert(s.skip(k).last() == s.last());
        let p = pow256((d.len() - k) as nat);
        let x = be_nat(s.take(k));
        let lo = be_nat(s.skip(k).drop_last());
        assert(be_nat(s.skip(k)) == lo * 256 + s.last() as nat);
        assert(be_nat(d) == x * p + lo);
        assert(be_nat(s) == (x * p + lo) * 256 + s.last() as nat);
        assert((x * p + lo) * 256 + s.last() as nat == x * (256 * p) + (lo * 256 + s.last() as nat)) by (nonlinear_arith);
        assert(pow256((s.len() - k) as nat) == 256 * p);
        assert(be_nat(s) == x * (256 * p) + be_nat(s.skip(k)));
        assert(x * pow256((s.len() - k) as nat) == x * (256 * p));
    }
}

/// A byte string has value zero exactly when every byte is zero.
pub proof fn lemma_be_nat_zero(s: Seq<u8>)
    ensures
        (be_nat(s) == 0) <==> (forall|j: int| 0 <= j < s.len() ==> s[j] == 0),
    decreases s.len(),
{
    if s.len() > 0 {
        lemma_be_nat_zero(s.drop_last());
        if be_nat(s) == 0 {
            assert(forall|j: int| 0 <= j < s.len() - 1 ==> s[j] == s.drop_last()[j]);
        } else {
            if forall|j: int| 0 <= j < s.len() ==> s[j] == 0 {
                assert(forall|j: int| 0 <= j < s.len() - 1 ==> s.drop_last()[j] == 0);
            }
        }
    }
}

/// A 32-byte string has value one exactly when the last byte is one and the
/// rest are zero.
pub proof fn lemma_be_nat_one(s: Seq<u8>)
    requires
        s.len() == 32,
    ensures
        (be_nat(s) == 1) <==> (s.last() == 1 && forall|j: int| 0 <= j < 31 ==> s[j] == 0),
{
    lemma_be_nat_zero(s.drop_last());
    assert(be_nat(s) == be_nat(s.drop_last()) * 256 + s.last());
    if be_nat(s) == 1 {
        assert(be_nat(s.drop_last()) == 0 && s.last() == 1) by (nonlinear_arith)
            requires be_nat(s.drop_last()) * 256 + s.last() == 1, s.last() < 256,
        {
        }
        assert(forall|j: int| 0 <= j < 31 ==> s[j] == s.drop_last()[j]);
    }
    if s.last() == 1 && forall|j: int| 0 <= j < 31 ==> s[j] == 0 {
        assert(forall|j: int| 0 <= j < 31 ==> s.drop_last()[j] == s[j]);
    }
}

/// Equality of two 32-byte strings.
pub fn be_eq32(a: &[u8; 32], b: &[u8; 32]) -> (r: bool)
    ensures
        r == (a@ == b@),
{
    let mut i: usize = 0;
    while i < 32
        invariant
            i <= 32,
            forall|j: int| 0 <= j < i ==> a@[j] == b@[j],
        decreases 32 - i,
    {
        if a[i] != b[i] {
            assert(a@ != b@);
            return false;
        }
        i += 1;
    }
    assert(a@ =~= b@);
    true
}

/// True when the value of a 32-byte string is zero.
pub fn be_is_zero32(a: &[u8; 32]) -> (r: bool)
    ensures
        r == (be_nat(a@) == 0),
{
    let mut i: usize = 0;
    while i < 32
        invariant
            i <= 32,
            forall|j: int| 0 <= j < i ==> a@[j] == 0,
        decreases 32 - i,
    {
        if a[i] != 0 {
            proof {
                lemma_be_nat_zero(a@);
            }
            return false;
        }
        i += 1;
    }
    proof {
        lemma_be_nat_zero(a@);
    }
    true
}

/// The canonical 32-byte encoding of one.
pub fn be_one32() -> (r: [u8; 32])
    ensures
        be_nat(r@) == 1,
{
    let r = [
        0u8, 0, 0, 0, 0, 0, 0, 0, 0, 0, 0, 0, 0, 0, 0, 0,
        0, 0, 0, 0, 0, 0, 0, 0, 0, 0, 0, 0, 0, 0, 0, 1,
    ];
    proof {
        lemma_be_nat_one(r@);
    }
    r
}

/// Strict numeric comparison of two 32-byte big-endian strings.
pub fn be_lt32(a: &[u8; 32], b: &[u8; 32]) -> (r: bool)
    ensures
        r == (be_nat(a@) < be_nat(b@)),
{
    let mut i: usize = 0;
    while i < 32
        invariant
            i <= 32,
            a@.take(i as int) == b@.take(i as int),
        decreases 32 - i,
    {
        if a[i] != b[i] {
            proof {
                lemma_be_nat_msb_decides(a@, b@, i as int);
            }
            return a[i] < b[i];
        }
        proof {
            assert(a@.take(i + 1) =~= a@.take(i as int).push(a@[i as int]));
            assert(b@.take(i + 1) =~= b@.take(i as int).push(b@[i as int]));
        }
        i += 1;
    }
    proof {
        assert(a@ =~= a@.take(32));
        assert(b@ =~= b@.take(32));
    }
    false
}

/// The most significant differing byte decides the numeric order.
proof fn lemma_be_nat_msb_decides(a: Seq<u8>, b: Seq<u8>, i: int)
    requires
        a.len() == b.len(),
        0 <= i < a.len(),
        a.take(i) == b.take(i),
        a[i] != b[i],
    ensures
        (be_nat(a) < be_nat(b)) == (a[i] < b[i]),
{
    if a[i] < b[i] {
        lemma_be_nat_msb_strict(a, b, i);
    } else {
        lemma_be_nat_msb_strict(b, a, i);
    }
}

proof fn lemma_be_nat_msb_strict(a: Seq<u8>, b: Seq<u8>, i: int)
    requires
        a.len() == b.len(),
        0 <= i < a.len(),
        a.take(i) == b.take(i),
        a[i] < b[i],
    ensures
        be_nat(a) < be_nat(b),
{
    let n = a.len() as int;
    lemma_be_nat_split(a, i + 1);
    lemma_be_nat_split(b, i + 1);
    lemma_be_nat_bound(a.skip(i + 1));
    let p = pow256((n - i - 1) as nat);
    lemma_pow256_pos((n - i - 1) as nat);
    assert(a.take(i + 1) =~= a.take(i).push(a[i]));
    assert(b.take(i + 1) =~= b.take(i).push(b[i]));
    assert(a.take(i + 1).drop_last() =~= a.take(i));
    assert(b.take(i + 1).drop_last() =~= b.take(i));
    let x = be_nat(a.take(i));
    assert(be_nat(a.take(i + 1)) == x * 256 + a[i]);
    assert(be_nat(b.take(i + 1)) == x * 256 + b[i]);
    assert((x * 256 + a[i]) * p + be_nat(a.skip(i + 1)) < (x * 256 + b[i]) * p + be_nat(b.skip(i + 1))) by (nonlinear_arith)
        requires
            a[i] < b[i],
            p >= 1,
            be_nat(a.skip(i + 1)) < p,
    {
    }
}

/// 32-byte big-endian subtraction.
pub fn be_sub32(a: &[u8; 32], b: &[u8; 32]) -> (d: [u8; 32])
    requires
        be_nat(b@) <= be_nat(a@),
    ensures
        be_nat(d@) == be_nat(a@) - be_nat(b@),
{
    let mut d: [u8; 32] = [0u8; 32];
    let mut borrow: u16 = 0;
    let mut i: usize = 32;
    while i > 0
        invariant
            i <= 32,
            borrow <= 1,
            be_nat(d@.skip(i as int)) - (borrow as nat) * pow256((32 - i) as nat)
                == be_nat(a@.skip(i as int)) - be_nat(b@.skip(i as int)),
        decreases i,
    {
        i -= 1;
        let ai: u16 = a[i] as u16;
        let bi: u16 = b[i] as u16;
        let ghost d_pre = d@;
        let ghost borrow_pre = borrow;
        let di: u16;
        if ai >= bi + borrow {
            di = ai - bi - borrow;
            borrow = 0;
        } else {
            di = ai + 256 - bi - borrow;
            borrow = 1;
        }
        assert(di <= 255);
        assert(di as int == a@[i as int] - b@[i as int] - borrow_pre + 256 * (borrow as int));
        d[i] = di as u8;
        proof {
            assert(d@.skip(i as int) =~= seq![di as u8] + d_pre.skip(i + 1));
            assert(a@.skip(i as int) =~= seq![a@[i as int]] + a@.skip(i + 1));
            assert(b@.skip(i as int) =~= seq![b@[i as int]] + b@.skip(i + 1));
            lemma_be_nat_front(seq![di as u8] + d_pre.skip(i + 1));
            lemma_be_nat_front(seq![a@[i as int]] + a@.skip(i + 1));
            lemma_be_nat_front(seq![b@[i as int]] + b@.skip(i + 1));
            assert((seq![di as u8] + d_pre.skip(i + 1)).skip(1) =~= d_pre.skip(i + 1));
            assert((seq![a@[i as int]] + a@.skip(i + 1)).skip(1) =~= a@.skip(i + 1));
            assert((seq![b@[i as int]] + b@.skip(i + 1)).skip(1) =~= b@.skip(i + 1));
            let p = pow256((31 - i) as nat);
            lemma_pow256_pos((31 - i) as nat);
            let av = a@[i as int] as int;
            let bv = b@[i as int] as int;
            assert(be_nat(d@.skip(i as int)) == (di as nat) * p + be_nat(d_pre.skip(i + 1)));
            assert(be_nat(a@.skip(i as int)) == (a@[i as int] as nat) * p + be_nat(a@.skip(i + 1)));
            assert(be_nat(b@.skip(i as int)) == (b@[i as int] as nat) * p + be_nat(b@.skip(i + 1)));
            assert((di as int) * p == av * p - bv * p - (borrow_pre as int) * p + (borrow as int) * (256 * p)) by (nonlinear_arith)
                requires di as int == av - bv - borrow_pre + 256 * (borrow as int), p >= 0,
            {
            }
            assert(pow256((32 - i) as nat) == 256 * p);
        }
    }
    proof {
        assert(d@.skip(0) =~= d@);
        assert(a@.skip(0) =~= a@);
        assert(b@.skip(0) =~= b@);
        if borrow == 1 {
            lemma_be_nat_bound(d@);
        }
    }
    d
}

/// Peeling the most significant byte off a nonempty string.
pub proof fn lemma_be_nat_front(s: Seq<u8>)
    requires
        s.len() > 0,
    ensures
        be_nat(s) == (s[0] as nat) * pow256((s.len() - 1) as nat) + be_nat(s.skip(1)),
{
    lemma_be_nat_split(s, 1);
    assert(s.take(1) =~= seq![s[0]]);
    assert(be_nat(seq![s[0]]) == s[0] as nat) by {
        let u = seq![s[0]];
        assert(u.len() == 1 && u.last() == s[0]);
        assert(u.drop_last() =~= Seq::<u8>::empty());
        assert(be_nat(u) == be_nat(u.drop_last()) * 256 + u.last() as nat);
    }
}

} // verus!
