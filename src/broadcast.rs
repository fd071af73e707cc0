use vstd::prelude::*;
use crate::shape::{dims_product, lemma_product_prefix_le, lemma_product_step, lemma_product_zero};

verus! {

/// `s` brought to rank `n` by leading extents of one, so that extents line
/// up from the right.
pub open spec fn padded(s: Seq<usize>, n: nat) -> Seq<usize> {
    Seq::new(
        n,
        |d: int|
            if d < n - s.len() {
                1usize
            } else {
                s[d - (n - s.len())]
            },
    )
}

/// The larger of two ranks.
pub open spec fn broadcast_rank(sa: Seq<usize>, sb: Seq<usize>) -> nat {
    if sa.len() >= sb.len() {
        sa.len()
    } else {
        sb.len()
    }
}

/// Extents aligned from the right agree, or one of them is one.
pub open spec fn broadcast_compatible(sa: Seq<usize>, sb: Seq<usize>) -> bool {
    let n = broadcast_rank(sa, sb);
    forall|d: int|
        0 <= d < n ==> #[trigger] padded(sa, n)[d] == padded(sb, n)[d] || padded(sa, n)[d] == 1
            || padded(sb, n)[d] == 1
}

/// The extents of the elementwise combination of tensors of extents `sa` and
/// `sb`: aligned from the right, an extent of one stretches to the other.
/// `None` where some pair of extents differs and neither is one.
pub open spec fn broadcast_shape(sa: Seq<usize>, sb: Seq<usize>) -> Option<Seq<usize>> {
    let n = broadcast_rank(sa, sb);
    if broadcast_compatible(sa, sb) {
        Some(
            Seq::new(
                n,
                |d: int|
                    if padded(sa, n)[d] == 1 {
                        padded(sb, n)[d]
                    } else {
                        padded(sa, n)[d]
                    },
            ),
        )
    } else {
        None
    }
}

/// Where, in row-major data of extents `s` (of the same rank as `out`), the
/// element lies that position `i` of row-major data of extents `out` reads,
/// an extent of one in `s` standing still along its axis.
pub open spec fn source_index(s: Seq<usize>, out: Seq<usize>, i: int) -> int
    decreases out.len(),
{
    if out.len() == 0 || s.len() == 0 {
        0
    } else {
        let d = out.last() as int;
        let e = s.last() as int;
        source_index(s.drop_last(), out.drop_last(), i / d) * e + if e == 1 {
            0
        } else {
            i % d
        }
    }
}

/// The position in data of extents `s` that position `i` of the broadcast
/// result of extents `out` reads.
pub open spec fn broadcast_index(s: Seq<usize>, out: Seq<usize>, i: int) -> int {
    source_index(padded(s, out.len()), out, i)
}

/// Leading extents of one do not change the number of elements.
pub proof fn lemma_padded_product(s: Seq<usize>, n: nat)
    requires
        s.len() <= n,
    ensures
        dims_product(padded(s, n)) == dims_product(s),
    decreases n,
{
    if n > 0 {
        let p = padded(s, n);
        if s.len() == 0 {
            assert(p.drop_last() =~= padded(s, (n - 1) as nat));
            lemma_padded_product(s, (n - 1) as nat);
        } else {
            assert(p.drop_last() =~= padded(s.drop_last(), (n - 1) as nat));
            lemma_padded_product(s.drop_last(), (n - 1) as nat);
        }
    } else {
        assert(padded(s, n) =~= s);
    }
}

/// A shape padded to its own rank is itself.
pub proof fn lemma_padded_same_rank(s: Seq<usize>)
    ensures
        padded(s, s.len()) == s,
{
    assert(padded(s, s.len()) =~= s);
}

/// Where the broadcast result has elements, every padded operand extent is
/// positive and either matches the result's extent or is one.
pub proof fn lemma_broadcast_operands(sa: Seq<usize>, sb: Seq<usize>, out: Seq<usize>)
    requires
        broadcast_shape(sa, sb) == Some(out),
        dims_product(out) > 0,
    ensures
        out.len() == broadcast_rank(sa, sb),
        padded(sa, out.len()).len() == out.len(),
        padded(sb, out.len()).len() == out.len(),
        forall|d: int|
            0 <= d < out.len() ==> #[trigger] padded(sa, out.len())[d] >= 1 && out[d] >= 1,
        forall|d: int|
            0 <= d < out.len() ==> #[trigger] padded(sa, out.len())[d] == out[d] || padded(
                sa,
                out.len(),
            )[d] == 1,
        forall|d: int|
            0 <= d < out.len() ==> #[trigger] padded(sb, out.len())[d] >= 1 && out[d] >= 1,
        forall|d: int|
            0 <= d < out.len() ==> #[trigger] padded(sb, out.len())[d] == out[d] || padded(
                sb,
                out.len(),
            )[d] == 1,
{
    let n = out.len();
    let pa = padded(sa, n);
    let pb = padded(sb, n);
    assert forall|d: int| 0 <= d < n implies out[d] >= 1 by {
        if out[d] == 0 {
            lemma_product_zero(out, d);
        }
    }
    assert forall|d: int| 0 <= d < n implies {
        &&& pa[d] >= 1
        &&& pb[d] >= 1
        &&& pa[d] == out[d] || pa[d] == 1
        &&& pb[d] == out[d] || pb[d] == 1
    } by {
        assert(pa[d] == pb[d] || pa[d] == 1 || pb[d] == 1);
        assert(out[d] == if pa[d] == 1 {
            pb[d]
        } else {
            pa[d]
        });
        if out[d] == 0 {
            lemma_product_zero(out, d);
        }
    }
    assert forall|d: int| 0 <= d < out.len() implies #[trigger] padded(sa, out.len())[d] >= 1
        && out[d] >= 1 by {
        assert(pa[d] >= 1);
    }
    assert forall|d: int| 0 <= d < out.len() implies #[trigger] padded(sb, out.len())[d] >= 1
        && out[d] >= 1 by {
        assert(pb[d] >= 1);
    }
}

/// `s` with leading ones up to rank `n`.
pub fn pad_extents(s: &Vec<usize>, n: usize) -> (r: Vec<usize>)
    requires
        s@.len() <= n,
    ensures
        r@ == padded(s@, n as nat),
{
    let lead = n - s.len();
    let mut r: Vec<usize> = Vec::with_capacity(n);
    let mut d: usize = 0;
    while d < n
        invariant
            lead == n - s@.len(),
            d <= n,
            r@ =~= padded(s@, n as nat).take(d as int),
        decreases n - d,
    {
        if d < lead {
            r.push(1);
        } else {
            r.push(s[d - lead]);
        }
        d = d + 1;
    }
    assert(padded(s@, n as nat).take(n as int) =~= padded(s@, n as nat));
    r
}

/// The broadcast extents of `sa` and `sb`, or `None` where they do not
/// broadcast.
pub fn broadcast_extents(sa: &Vec<usize>, sb: &Vec<usize>) -> (r: Option<Vec<usize>>)
    ensures
        r is Some <==> broadcast_shape(sa@, sb@) is Some,
        r matches Some(v) ==> broadcast_shape(sa@, sb@) == Some(v@),
{
    let n = if sa.len() >= sb.len() {
        sa.len()
    } else {
        sb.len()
    };
    let pa = pad_extents(sa, n);
    let pb = pad_extents(sb, n);
    let ghost gpa = padded(sa@, n as nat);
    let ghost gpb = padded(sb@, n as nat);
    let mut out: Vec<usize> = Vec::with_capacity(n);
    let mut d: usize = 0;
    while d < n
        invariant
            n == broadcast_rank(sa@, sb@),
            pa@ == gpa,
            pb@ == gpb,
            gpa == padded(sa@, n as nat),
            gpb == padded(sb@, n as nat),
            d <= n,
            out@.len() == d,
            forall|e: int|
                0 <= e < d ==> (#[trigger] gpa[e] == gpb[e] || gpa[e] == 1 || gpb[e] == 1),
            forall|e: int|
                0 <= e < d ==> #[trigger] out@[e] == if gpa[e] == 1 {
                    gpb[e]
                } else {
                    gpa[e]
                },
        decreases n - d,
    {
        let x = pa[d];
        let y = pb[d];
        if x != y && x != 1 && y != 1 {
            assert(!broadcast_compatible(sa@, sb@)) by {
                assert(!(padded(sa@, n as nat)[d as int] == padded(sb@, n as nat)[d as int]
                    || padded(sa@, n as nat)[d as int] == 1 || padded(sb@, n as nat)[d as int]
                    == 1));
            }
            return None;
        }
        if x == 1 {
            out.push(y);
        } else {
            out.push(x);
        }
        d = d + 1;
    }
    assert(broadcast_compatible(sa@, sb@)) by {
        assert forall|e: int| 0 <= e < n implies #[trigger] padded(sa@, n as nat)[e]
            == padded(sb@, n as nat)[e] || padded(sa@, n as nat)[e] == 1 || padded(
            sb@,
            n as nat,
        )[e] == 1 by {
            assert(gpa[e] == gpb[e] || gpa[e] == 1 || gpb[e] == 1);
        }
    }
    assert(out@ =~= broadcast_shape(sa@, sb@)->Some_0);
    Some(out)
}

/// The position in data of extents `s` that position `i` of data of extents
/// `out` reads, where `s` broadcasts to `out`.
pub fn source_position(s: &Vec<usize>, out: &Vec<usize>, i: usize) -> (r: usize)
    requires
        s@.len() == out@.len(),
        forall|d: int| 0 <= d < s@.len() ==> #[trigger] s@[d] >= 1 && out@[d] >= 1,
        forall|d: int| 0 <= d < s@.len() ==> #[trigger] s@[d] == out@[d] || s@[d] == 1,
        dims_product(s@) <= usize::MAX,
    ensures
        r == source_index(s@, out@, i as int),
        r < dims_product(s@),
{
    let n = s.len();
    let mut k: usize = n;
    let mut rem: usize = i;
    let mut pos: usize = 0;
    let mut stride: usize = 1;
    assert(s@.take(n as int) =~= s@);
    assert(out@.take(n as int) =~= out@);
    while k > 0
        invariant
            n == s@.len(),
            n == out@.len(),
            k <= n,
            forall|d: int| 0 <= d < n ==> #[trigger] s@[d] >= 1 && out@[d] >= 1,
            forall|d: int| 0 <= d < n ==> #[trigger] s@[d] == out@[d] || s@[d] == 1,
            dims_product(s@) <= usize::MAX,
            source_index(s@, out@, i as int) == source_index(
                s@.take(k as int),
                out@.take(k as int),
                rem as int,
            ) * stride + pos,
            pos < stride,
            stride * dims_product(s@.take(k as int)) == dims_product(s@),
        decreases k,
    {
        let ghost sk = s@.take(k as int);
        let ghost old_stride = stride;
        let ghost pre = dims_product(s@.take(k - 1));
        let ghost ok = out@.take(k as int);
        let d = out[k - 1];
        let e = s[k - 1];
        let c = rem % d;
        let sc: usize = if e == 1 {
            0
        } else {
            c
        };
        proof {
            assert(sk.drop_last() =~= s@.take(k - 1));
            assert(ok.drop_last() =~= out@.take(k - 1));
            assert(sk.last() == e);
            assert(ok.last() == d);
            lemma_product_step(s@, k - 1);
            assert(s@.take(k - 1).take(0) =~= Seq::<usize>::empty());
            lemma_product_prefix_le(s@.take(k - 1), 0);
            assert(pre >= 1);
            assert(sc < e) by {
                if e != 1 {
                    assert(e == d);
                }
            }
            let src = source_index(s@.take(k - 1), out@.take(k - 1), (rem / d) as int);
            assert(stride * pre * e == dims_product(s@)) by (nonlinear_arith)
                requires
                    stride * (pre * e) == dims_product(s@),
            ;
            assert(stride * e <= dims_product(s@)) by (nonlinear_arith)
                requires
                    stride * pre * e == dims_product(s@),
                    pre >= 1,
                    stride >= 1,
                    e >= 1,
            ;
            assert(sc * stride + pos < stride * e) by (nonlinear_arith)
                requires
                    pos < stride,
                    sc < e,
                    sc >= 0,
            ;
            assert((src * e + sc) * stride + pos == src * (stride * e) + (sc * stride + pos))
                by (nonlinear_arith);
        }
        pos = sc * stride + pos;
        stride = stride * e;
        rem = rem / d;
        k = k - 1;
        proof {
            assert(stride * pre == dims_product(s@)) by (nonlinear_arith)
                requires
                    stride == old_stride * e,
                    old_stride * pre * e == dims_product(s@),
            ;
        }
    }
    assert(s@.take(0) =~= Seq::<usize>::empty());
    assert(dims_product(Seq::<usize>::empty()) == 1);
    assert(dims_product(s@.take(0)) == 1);
    assert(stride == dims_product(s@)) by (nonlinear_arith)
        requires
            stride * dims_product(s@.take(0)) == dims_product(s@),
            dims_product(s@.take(0)) == 1,
    ;
    pos
}

} // verus!
