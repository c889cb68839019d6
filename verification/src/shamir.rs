//! The two-term simultaneous double-and-add combinator: one pass over the
//! bits of both scalars computes `a·A + b·B`, doubling the running copies of
//! both points every round. The spec model mirrors the pass round by round
//! over the named point primitives, so the executable loop is pinned to it
//! exactly.
use vstd::prelude::*;
use crate::bytes::{be_nat, lemma_be_nat_zero};
use crate::point::{AffinePoint, pt_add, pt_double, pt_add_of, pt_double_of};

verus! {

/// One conditional accumulator add: an empty accumulator takes the operand
/// directly (infinity plus P is P, no primitive involved); otherwise the
/// named addition decides. The outer `None` poisons the round: the
/// capability refused a primitive.
pub open spec fn acc_plus(acc: Option<(Seq<u8>, Seq<u8>)>, t: (Seq<u8>, Seq<u8>)) -> Option<Option<(Seq<u8>, Seq<u8>)>> {
    match acc {
        None => Some(Some(t)),
        Some(p) => match pt_add_of(p.0, p.1, t.0, t.1) {
            Some(q) => Some(Some(q)),
            None => None,
        },
    }
}

/// Bit `i`, least significant first, of a 32-byte big-endian scalar.
pub open spec fn bit_of(s: Seq<u8>, i: int) -> bool {
    ((s[31 - i / 8] as u32) >> ((i % 8) as u32)) & 1 == 1
}

/// One combinator round: conditional adds for the two bits, then both
/// running copies are doubled, whether or not they were used.
pub open spec fn shamir_step(
    st: (Option<(Seq<u8>, Seq<u8>)>, (Seq<u8>, Seq<u8>), (Seq<u8>, Seq<u8>)),
    abit: bool,
    bbit: bool,
) -> Option<(Option<(Seq<u8>, Seq<u8>)>, (Seq<u8>, Seq<u8>), (Seq<u8>, Seq<u8>))> {
    let acc1 = if abit {
        acc_plus(st.0, st.1)
    } else {
        Some(st.0)
    };
    match acc1 {
        None => None,
        Some(acc1v) => {
            let acc2 = if bbit {
                acc_plus(acc1v, st.2)
            } else {
                Some(acc1v)
            };
            match acc2 {
                None => None,
                Some(acc2v) => match (pt_double_of(st.1.0, st.1.1), pt_double_of(st.2.0, st.2.1)) {
                    (Some(ta), Some(tb)) => Some((acc2v, ta, tb)),
                    _ => None,
                },
            }
        }
    }
}

/// The combinator state after `i` rounds: the accumulator and the two
/// running copies, or `None` once a primitive was refused.
pub open spec fn shamir_state(
    a: Seq<u8>,
    b: Seq<u8>,
    pa: (Seq<u8>, Seq<u8>),
    pb: (Seq<u8>, Seq<u8>),
    i: nat,
) -> Option<(Option<(Seq<u8>, Seq<u8>)>, (Seq<u8>, Seq<u8>), (Seq<u8>, Seq<u8>))>
    decreases i,
{
    if i == 0 {
        Some((None, pa, pb))
    } else {
        match shamir_state(a, b, pa, pb, (i - 1) as nat) {
            None => None,
            Some(st) => shamir_step(st, bit_of(a, i - 1), bit_of(b, i - 1)),
        }
    }
}

/// The combinator result after the full 256 rounds: the accumulator, or
/// `None` when it was never filled or a primitive was refused.
pub open spec fn shamir_of(a: Seq<u8>, b: Seq<u8>, pa: (Seq<u8>, Seq<u8>), pb: (Seq<u8>, Seq<u8>)) -> Option<(Seq<u8>, Seq<u8>)> {
    match shamir_state(a, b, pa, pb, 256) {
        None => None,
        Some(st) => st.0,
    }
}

/// Once a round is poisoned, every later state is poisoned.
proof fn lemma_poison_persists(a: Seq<u8>, b: Seq<u8>, pa: (Seq<u8>, Seq<u8>), pb: (Seq<u8>, Seq<u8>), i: nat, j: nat)
    requires
        i <= j,
        shamir_state(a, b, pa, pb, i) is None,
    ensures
        shamir_state(a, b, pa, pb, j) is None,
    decreases j,
{
    if j > i {
        lemma_poison_persists(a, b, pa, pb, i, (j - 1) as nat);
    }
}

/// Computes `a·A + b·B` in one combined double-and-add pass over the full
/// 256-bit width of both scalars, least-significant bit first, never
/// short-circuiting on leading zero bits. Returns `None` when the
/// accumulator was never filled (both scalars zero) or a point primitive
/// was refused.
pub fn double_and_add_base(a: &[u8; 32], pa: &AffinePoint, b: &[u8; 32], pb: &AffinePoint) -> (res: Option<AffinePoint>)
    ensures
        match res {
            Some(r) => shamir_of(a@, b@, (pa.x@, pa.y@), (pb.x@, pb.y@)) == Some((r.x@, r.y@)),
            None => shamir_of(a@, b@, (pa.x@, pa.y@), (pb.x@, pb.y@)) is None,
        },
        be_nat(a@) == 0 && be_nat(b@) == 0 ==> res is None,
{
    let ghost ga = a@;
    let ghost gb = b@;
    let ghost gpa = (pa.x@, pa.y@);
    let ghost gpb = (pb.x@, pb.y@);
    let mut res: Option<AffinePoint> = None;
    let mut ta = *pa;
    let mut tb = *pb;
    let mut i: usize = 0;
    proof {
        if be_nat(ga) == 0 && be_nat(gb) == 0 {
            lemma_combine_zero_scalars(ga, gb, gpa, gpb);
        }
    }
    while i < 256
        invariant
            i <= 256,
            ({
                let st = shamir_state(ga, gb, gpa, gpb, i as nat);
                match st {
                    None => false,
                    Some(stv) => stv.1 == (ta.x@, ta.y@) && stv.2 == (tb.x@, tb.y@) && (match res {
                        Some(r) => stv.0 == Some((r.x@, r.y@)),
                        None => stv.0 is None,
                    }),
                }
            }),
            ga == a@ && gb == b@ && gpa == (pa.x@, pa.y@) && gpb == (pb.x@, pb.y@),
        decreases 256 - i,
    {
        let ghost st_prev = shamir_state(ga, gb, gpa, gpb, i as nat)->Some_0;
        proof {
            assert(i / 8 < 32) by (nonlinear_arith)
                requires i < 256,
            {
            }
        }
        let abit = ((a[31 - i / 8] as u32) >> ((i % 8) as u32)) & 1 == 1;
        let bbit = ((b[31 - i / 8] as u32) >> ((i % 8) as u32)) & 1 == 1;
        proof {
            assert(abit == bit_of(ga, i as int));
            assert(bbit == bit_of(gb, i as int));
        }
        let ghost st_next = shamir_step(st_prev, bit_of(ga, i as int), bit_of(gb, i as int));
        proof {
            assert(shamir_state(ga, gb, gpa, gpb, (i + 1) as nat) == st_next);
        }
        if abit {
            match res {
                Some(r) => {
                    match pt_add(&r.x, &r.y, &ta.x, &ta.y) {
                        Some(s) => {
                            res = Some(AffinePoint { x: s.0, y: s.1 });
                        }
                        None => {
                            proof {
                                lemma_poison_persists(ga, gb, gpa, gpb, (i + 1) as nat, 256);
                            }
                            return None;
                        }
                    }
                }
                None => {
                    res = Some(ta);
                }
            }
        }
        if bbit {
            match res {
                Some(r) => {
                    match pt_add(&r.x, &r.y, &tb.x, &tb.y) {
                        Some(s) => {
                            res = Some(AffinePoint { x: s.0, y: s.1 });
                        }
                        None => {
                            proof {
                                lemma_poison_persists(ga, gb, gpa, gpb, (i + 1) as nat, 256);
                            }
                            return None;
                        }
                    }
                }
                None => {
                    res = Some(tb);
                }
            }
        }
        match pt_double(&ta.x, &ta.y) {
            Some(d) => {
                ta = AffinePoint { x: d.0, y: d.1 };
            }
            None => {
                proof {
                    lemma_poison_persists(ga, gb, gpa, gpb, (i + 1) as nat, 256);
                }
                return None;
            }
        }
        match pt_double(&tb.x, &tb.y) {
            Some(d) => {
                tb = AffinePoint { x: d.0, y: d.1 };
            }
            None => {
                proof {
                    lemma_poison_persists(ga, gb, gpa, gpb, (i + 1) as nat, 256);
                }
                return None;
            }
        }
        i += 1;
    }
    res
}

proof fn lemma_zero_shift(sh: u32)
    ensures
        (0u32 >> sh) & 1u32 == 0u32,
{
    assert((0u32 >> sh) & 1u32 == 0u32) by (bit_vector);
}

proof fn lemma_zero_state(a: Seq<u8>, b: Seq<u8>, pa: (Seq<u8>, Seq<u8>), pb: (Seq<u8>, Seq<u8>), i: nat)
    requires
        forall|t: int| 0 <= t < 256 ==> !bit_of(a, t) && !bit_of(b, t),
    ensures
        i <= 256 ==> match shamir_state(a, b, pa, pb, i) {
            None => true,
            Some(st) => st.0 is None,
        },
    decreases i,
{
    if i > 0 && i <= 256 {
        lemma_zero_state(a, b, pa, pb, (i - 1) as nat);
    }
}

/// With both scalars zero no bit is ever set, so the accumulator is never
/// filled and the combinator reports the empty result.
pub proof fn lemma_combine_zero_scalars(a: Seq<u8>, b: Seq<u8>, pa: (Seq<u8>, Seq<u8>), pb: (Seq<u8>, Seq<u8>))
    requires
        a.len() == 32,
        b.len() == 32,
        be_nat(a) == 0,
        be_nat(b) == 0,
    ensures
        shamir_of(a, b, pa, pb) is None,
{
    lemma_be_nat_zero(a);
    lemma_be_nat_zero(b);
    assert forall|t: int| 0 <= t < 256 implies !bit_of(a, t) && !bit_of(b, t) by {
        assert(0 <= t / 8 < 32) by (nonlinear_arith)
            requires 0 <= t < 256,
        {
        }
        assert(a[31 - t / 8] == 0);
        assert(b[31 - t / 8] == 0);
        lemma_zero_shift(((t % 8) as u32));
    }
    lemma_zero_state(a, b, pa, pb, 256);
}

} // verus!
