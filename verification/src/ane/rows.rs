//! Moving cached rows between layouts. A cache holds its layers one after the
//! other; a layer holds its rows one after the other.
use vstd::prelude::*;

use crate::num::min;

verus! {

proof fn lemma_layer_index(l: int, o: int, stride: int, layers: int)
    requires
        0 <= l < layers,
        0 <= o < stride,
    ensures
        0 <= l * stride + o < layers * stride,
        (l * stride + o) / stride == l,
        (l * stride + o) % stride == o,
{
    vstd::arithmetic::div_mod::lemma_fundamental_div_mod_converse(l * stride + o, stride, l, o);
    assert(0 <= l * stride + o < layers * stride) by (nonlinear_arith)
        requires
            0 <= l < layers,
            0 <= o < stride,
    ;
}

/// The first `take` elements of every layer of `src`, whose layers are `stride`
/// elements apart.
pub fn take_layers<T: Copy>(src: &[T], layers: usize, stride: usize, take: usize) -> (r: Vec<T>)
    requires
        take <= stride,
        layers * stride <= src@.len(),
    ensures
        r@.len() == layers * take,
        forall|k: int| 0 <= k < r@.len() ==> #[trigger] r@[k] == src@[(k / take as int) * stride + k % take as int],
{
    let len: usize = src.len();
    let mut out: Vec<T> = Vec::new();
    let mut l: usize = 0;
    while l < layers
        invariant
            len == src@.len(),
            take <= stride,
            layers * stride <= src@.len(),
            l <= layers,
            out@.len() == l * take,
            forall|k: int| 0 <= k < out@.len() ==> #[trigger] out@[k] == src@[(k / take as int) * stride + k
                % take as int],
        decreases layers - l,
    {
        let mut i: usize = 0;
        while i < take
            invariant
                len == src@.len(),
                take <= stride,
                layers * stride <= src@.len(),
                l < layers,
                i <= take,
                out@.len() == l * take + i,
                forall|k: int| 0 <= k < out@.len() ==> #[trigger] out@[k] == src@[(k / take as int) * stride + k
                    % take as int],
            decreases take - i,
        {
            proof {
                lemma_layer_index(l as int, i as int, stride as int, layers as int);
                lemma_layer_index(l as int, i as int, take as int, layers as int);
            }
            out.push(src[l * stride + i]);
            i = i + 1;
        }
        proof {
            assert((l + 1) * take == l * take + take) by (nonlinear_arith);
        }
        l = l + 1;
    }
    out
}

/// Where element `k` of a cache with layers of `stride` elements comes from once
/// `keep` elements of every layer, from offset `at` on, are replaced by those of
/// `rows`, whose layers have `take` elements.
pub open spec fn replaced<T>(
    before: Seq<T>,
    rows: Seq<T>,
    stride: int,
    at: int,
    take: int,
    keep: int,
    k: int,
) -> T {
    let (l, o) = (k / stride, k % stride);
    if at <= o < at + keep {
        rows[l * take + (o - at)]
    } else {
        before[k]
    }
}

/// Replaces `keep` elements of every layer of `dst`, from offset `at` on, by the
/// first of the layers of `rows`.
pub fn put_layers<T: Copy>(
    dst: &mut Vec<T>,
    rows: &[T],
    layers: usize,
    stride: usize,
    at: usize,
    take: usize,
    keep: usize,
)
    requires
        stride > 0,
        old(dst)@.len() == layers * stride,
        at + keep <= stride,
        keep <= take,
        rows@.len() == layers * take,
    ensures
        final(dst)@.len() == old(dst)@.len(),
        forall|k: int| 0 <= k < final(dst)@.len() ==> #[trigger] final(dst)@[k] == replaced(
            old(dst)@,
            rows@,
            stride as int,
            at as int,
            take as int,
            keep as int,
            k,
        ),
{
    let ghost before = dst@;
    let len: usize = dst.len();
    let rlen: usize = rows.len();
    let mut l: usize = 0;
    assert forall|k: int| 0 <= k < before.len() implies #[trigger] (k / stride as int) >= 0 by {
        vstd::arithmetic::div_mod::lemma_div_pos_is_pos(k, stride as int);
    }
    while l < layers
        invariant
            before == old(dst)@,
            len == before.len(),
            rlen == rows@.len(),
            stride > 0,
            dst@.len() == before.len(),
            before.len() == layers * stride,
            at + keep <= stride,
            keep <= take,
            rows@.len() == layers * take,
            l <= layers,
            forall|k: int| 0 <= k < dst@.len() ==> #[trigger] dst@[k] == (if k / stride as int >= l {
                before[k]
            } else {
                replaced(before, rows@, stride as int, at as int, take as int, keep as int, k)
            }),
        decreases layers - l,
    {
        let mut i: usize = 0;
        while i < keep
            invariant
                before == old(dst)@,
                len == before.len(),
                rlen == rows@.len(),
                stride > 0,
                dst@.len() == before.len(),
                before.len() == layers * stride,
                at + keep <= stride,
                keep <= take,
                rows@.len() == layers * take,
                l < layers,
                i <= keep,
                forall|k: int| 0 <= k < dst@.len() ==> #[trigger] dst@[k] == (if k / stride as int > l || (k
                    / stride as int == l && k % stride as int >= at + i) {
                    before[k]
                } else {
                    replaced(before, rows@, stride as int, at as int, take as int, keep as int, k)
                }),
            decreases keep - i,
        {
            proof {
                lemma_layer_index(l as int, at + i, stride as int, layers as int);
                lemma_layer_index(l as int, i as int, take as int, layers as int);
                assert(l * stride + (at + i) == l * stride + at + i);
            }
            let k: usize = l * stride + at + i;
            let ghost now = dst@;
            dst.set(k, rows[l * take + i]);
            proof {
                assert forall|j: int| 0 <= j < dst@.len() implies #[trigger] dst@[j] == (if j / stride as int > l || (j
                    / stride as int == l && j % stride as int >= at + i + 1) {
                    before[j]
                } else {
                    replaced(before, rows@, stride as int, at as int, take as int, keep as int, j)
                }) by {
                    if j != k {
                        assert(dst@[j] == now[j]);
                        vstd::arithmetic::div_mod::lemma_fundamental_div_mod(j, stride as int);
                        assert(stride * l == l * stride) by (nonlinear_arith);
                    }
                }
            }
            i = i + 1;
        }
        proof {
            assert forall|k: int| 0 <= k < dst@.len() implies #[trigger] dst@[k] == (if k / stride as int >= l + 1 {
                before[k]
            } else {
                replaced(before, rows@, stride as int, at as int, take as int, keep as int, k)
            }) by {
                vstd::arithmetic::div_mod::lemma_mod_bound(k, stride as int);
            }
        }
        l = l + 1;
    }
    proof {
        assert forall|k: int| 0 <= k < dst@.len() implies #[trigger] dst@[k] == replaced(
            before,
            rows@,
            stride as int,
            at as int,
            take as int,
            keep as int,
            k,
        ) by {
            vstd::arithmetic::div_mod::lemma_fundamental_div_mod(k, stride as int);
            let (q, m) = (k / stride as int, k % stride as int);
            assert(q < layers) by (nonlinear_arith)
                requires
                    k == stride * q + m,
                    0 <= m,
                    k < layers * stride,
                    stride > 0,
            ;
        }
    }
}

/// How many of `n` rows from `pos` on a past of `p` rows keeps: rows at or past
/// `p` are never attended to again.
pub open spec fn kept(p: int, pos: int, n: int) -> int {
    if pos >= p {
        0
    } else {
        min(n, p - pos)
    }
}

pub fn kept_rows(p: usize, pos: usize, n: usize) -> (r: usize)
    ensures
        r == kept(p as int, pos as int, n as int),
{
    if pos >= p {
        0
    } else if n <= p - pos {
        n
    } else {
        p - pos
    }
}

/// Adds the rows of a chunk at `pos` to a past of `p` rows per layer, where they
/// fit.
pub fn keep_past<T: Copy>(
    past: &mut Vec<T>,
    rows: &[T],
    layers: usize,
    p: usize,
    pos: usize,
    n: usize,
    width: usize,
)
    requires
        p * width <= usize::MAX,
        n * width <= usize::MAX,
        old(past)@.len() == layers * (p * width),
        rows@.len() == layers * (n * width),
    ensures
        final(past)@.len() == old(past)@.len(),
        forall|k: int| 0 <= k < final(past)@.len() ==> #[trigger] final(past)@[k] == (if kept(
            p as int,
            pos as int,
            n as int,
        ) == 0 {
            old(past)@[k]
        } else {
            replaced(
                old(past)@,
                rows@,
                p * width,
                pos * width,
                n * width,
                kept(p as int, pos as int, n as int) * width,
                k,
            )
        }),
{
    let keep: usize = kept_rows(p, pos, n);
    if keep == 0 || width == 0 {
        proof {
            assert(width == 0 ==> keep * width == 0) by (nonlinear_arith);
        }
        return;
    }
    proof {
        let (kp, w) = (keep as int, width as int);
        assert(kp * w <= n * w) by (nonlinear_arith)
            requires
                kp <= n,
                w > 0,
        ;
        assert((pos + kp) * w <= p * w) by (nonlinear_arith)
            requires
                pos + kp <= p,
                w > 0,
        ;
        assert((pos + kp) * w == pos * w + kp * w) by (nonlinear_arith);
        assert(pos * w >= 0) by (nonlinear_arith)
            requires
                w > 0,
        ;
        assert(kp * w >= 0) by (nonlinear_arith)
            requires
                kp >= 0,
                w > 0,
        ;
        assert(p * w > 0) by (nonlinear_arith)
            requires
                p > 0,
                w > 0,
        ;
    }
    put_layers(past, rows, layers, p * width, pos * width, n * width, keep * width);
}

} // verus!
