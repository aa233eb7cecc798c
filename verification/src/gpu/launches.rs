//! What each launch does to rows: the vectors that it reads, and the vectors that
//! it leaves behind.
use vstd::prelude::*;

use crate::gpu::encode::{
    Lin, add_inplace, attention, attention_decode, decode_partial, decode_splits, embed, is_flash, linear, linear_kv,
    matmul, matmul_half, matmul_half_bias, matvec, qkv, qmatmul, rmsnorm, rmsnorm_both, rmsnorm_cache, rmsnorm_heads,
    rope, rope_cache, rope_qk, rope_qk_chunk, silu_mul, silu_mul_both, swiglu, to_half,
};
use crate::gpu::geometry::ATTN_SPLIT;
use crate::gpu::meaning::{
    Attention, Ctx, Mem, Term, attention_at, lemma_inside, lemma_place, lemma_put, lemma_run_push, merged, norm_rows,
    plus, put, row, run, step, table, times, turn, width_of,
};
use crate::gpu::ops::{Buf, CmdView, Geo, Kernel, with_barrier};
use crate::gpu::timing::Phase;
use crate::num::div_up;

verus! {

// ---------- vectors ----------

/// A normalised vector.
pub open spec fn normed(w: Buf, x: Seq<Term>) -> Seq<Term> {
    Seq::new(x.len(), |i: int| Term::Normed(w, x, i))
}

/// A vector through a linear layer.
pub open spec fn through(c: Ctx, w: Buf, bias: Buf, x: Seq<Term>, out: int) -> Seq<Term> {
    Seq::new(out as nat, |i: int| plus(c, bias, Term::Product(w, x, i), i))
}

pub open spec fn summed(a: Seq<Term>, b: Seq<Term>) -> Seq<Term> {
    Seq::new(a.len(), |i: int| Term::Sum(Box::new(a[i]), Box::new(b[i])))
}

/// The second vector, gated by the first.
pub open spec fn gated(a: Seq<Term>, b: Seq<Term>) -> Seq<Term> {
    Seq::new(a.len(), |i: int| Term::Gated(Box::new(a[i]), Box::new(b[i])))
}

/// Head `h` of a vector.
pub open spec fn head_of(x: Seq<Term>, dim: int, h: int) -> Seq<Term> {
    Seq::new(dim as nat, |i: int| x[h * dim + i])
}

/// A vector normalised head by head.
pub open spec fn heads_normed(w: Buf, x: Seq<Term>, dim: int) -> Seq<Term> {
    Seq::new(x.len(), |i: int| Term::Normed(w, head_of(x, dim, i / dim), i % dim))
}

/// A vector rotated head by head.
pub open spec fn turned(x: Seq<Term>, dim: int, rot: int, pos: int) -> Seq<Term> {
    Seq::new(x.len(), |i: int| Term::Rotated(pos, rot, head_of(x, dim, i / dim), i % dim))
}

/// The outcome of an attention.
pub open spec fn attended(a: Attention) -> Seq<Term> {
    Seq::new((a.heads * a.head_dim) as nat, |i: int| Term::Attended(a, i))
}

/// Row `r` of the rows of `w` numbers from `at` on.
#[verifier::opaque]
pub open spec fn nth(m: Mem, b: Buf, at: int, w: int, r: int) -> Seq<Term> {
    row(m, b, at + r * w, w)
}

/// Only these buffers change.
pub open spec fn only(m: Mem, k: Mem, x: Buf, y: Buf, z: Buf) -> bool {
    &&& forall|b: Buf, a: int, w: int| b != x && b != y && b != z ==> #[trigger] row(k, b, a, w) == row(m, b, a, w)
    &&& forall|b: Buf, a: int, w: int, r: int|
        b != x && b != y && b != z ==> #[trigger] nth(k, b, a, w, r) == nth(m, b, a, w, r)
}

/// A buffer changes only in the `len` numbers from `at` on.
pub open spec fn within(m: Mem, k: Mem, y: Buf, at: int, len: int) -> bool {
    forall|a: int, w: int| 0 <= w && (a + w <= at || at + len <= a) ==> #[trigger] row(k, y, a, w) == row(m, y, a, w)
}

// ---------- numbers ----------

pub proof fn lemma_div_up(n: int, k: int)
    requires
        k > 0,
    ensures
        n <= div_up(n, k) * k,
{
    assert(n <= ((n + k - 1) / k) * k) by (nonlinear_arith)
        requires
            k > 0,
    ;
}

/// A number of a head of a row.
pub proof fn lemma_head_place(r: int, heads: int, dim: int, i: int)
    requires
        0 <= i < heads * dim,
        0 < heads,
        0 < dim,
    ensures
        (r * (heads * dim) + i) / dim == r * heads + i / dim,
        (r * (heads * dim) + i) % dim == i % dim,
        (r * (heads * dim) + i) / dim / heads == r,
        0 <= i / dim < heads,
        0 <= i % dim < dim,
        i == i / dim * dim + i % dim,
        (r * (heads * dim) + i) / dim * dim == r * (heads * dim) + i / dim * dim,
{
    let (h, j) = (i / dim, i % dim);
    assert(i == h * dim + j && 0 <= j < dim && 0 <= h) by (nonlinear_arith)
        requires
            h == i / dim,
            j == i % dim,
            0 <= i,
            0 < dim,
    ;
    assert(h < heads) by (nonlinear_arith)
        requires
            h * dim + j < heads * dim,
            0 <= j,
            0 < dim,
    ;
    assert(r * (heads * dim) + i == (r * heads + h) * dim + j) by (nonlinear_arith)
        requires
            i == h * dim + j,
    ;
    lemma_place(r * heads + h, dim, j);
    lemma_place(r, heads, h);
    assert((r * heads + h) * dim == r * (heads * dim) + h * dim) by (nonlinear_arith);
}

// ---------- writing rows ----------

/// What `put` writes, row by row.
pub proof fn lemma_put_row(m: Mem, y: Buf, at: int, n: int, w: int, f: spec_fn(int) -> Term, r: int)
    requires
        0 <= r < n,
        0 <= w,
    ensures
        nth(put(m, y, at, n * w, f), y, at, w, r) == Seq::new(w as nat, |i: int| f(r * w + i)),
{
    reveal(nth);
    lemma_inside(r, n, w);
    lemma_put(m, y, at, n * w, f);
}

pub proof fn lemma_times_row(
    c: Ctx,
    m: Mem,
    w: Buf,
    bias: Option<Buf>,
    x: Buf,
    xa: int,
    ins: int,
    outs: int,
    y: Buf,
    ya: int,
    n: int,
    b: Buf,
    r: int,
)
    requires
        0 <= r < n,
        0 <= outs,
        match bias {
            Some(x) => x == b,
            None => !(c.biased)(b),
        },
    ensures
        nth(put(m, y, ya, n * outs, times(c, m, w, bias, x, xa, ins, outs)), y, ya, outs, r) == through(
            c,
            w,
            b,
            nth(m, x, xa, ins, r),
            outs,
        ),
{
    reveal(nth);
    let f = times(c, m, w, bias, x, xa, ins, outs);
    lemma_put_row(m, y, ya, n, outs, f, r);
    let z = through(c, w, b, nth(m, x, xa, ins, r), outs);
    assert forall|i: int| 0 <= i < outs implies f(r * outs + i) == #[trigger] z[i] by {
        lemma_place(r, outs, i);
    }
    assert(Seq::new(outs as nat, |i: int| f(r * outs + i)) =~= z);
}

/// Rows normalised, from one place to another.
pub proof fn lemma_norm_row(m: Mem, x: Buf, xa: int, w: Buf, y: Buf, ya: int, dim: int, n: int, r: int)
    requires
        0 <= r < n,
        0 <= dim,
    ensures
        nth(norm_rows(m, x, xa, w, y, ya, dim, n), y, ya, dim, r) == normed(w, nth(m, x, xa, dim, r)),
{
    reveal(nth);
    let f = |i: int| Term::Normed(w, row(m, x, xa + i / dim * dim, dim), i % dim);
    lemma_put_row(m, y, ya, n, dim, f, r);
    let z = normed(w, nth(m, x, xa, dim, r));
    assert forall|i: int| 0 <= i < dim implies f(r * dim + i) == #[trigger] z[i] by {
        lemma_place(r, dim, i);
    }
    assert(Seq::new(dim as nat, |i: int| f(r * dim + i)) =~= z);
}

/// Rows of heads normalised in place.
pub proof fn lemma_heads_norm_row(m: Mem, x: Buf, xa: int, w: Buf, dim: int, heads: int, n: int, r: int)
    requires
        0 <= r < n,
        0 < dim,
        0 < heads,
    ensures
        nth(norm_rows(m, x, xa, w, x, xa, dim, n * heads), x, xa, heads * dim, r) == heads_normed(
            w,
            nth(m, x, xa, heads * dim, r),
            dim,
        ),
{
    reveal(nth);
    let f = |i: int| Term::Normed(w, row(m, x, xa + i / dim * dim, dim), i % dim);
    let wide = heads * dim;
    assert(0 < wide) by (nonlinear_arith)
        requires
            wide == heads * dim,
            0 < heads,
            0 < dim,
    ;
    assert((n * heads) * dim == n * wide) by (nonlinear_arith)
        requires
            wide == heads * dim,
    ;
    lemma_put_row(m, x, xa, n, wide, f, r);
    let q = nth(m, x, xa, wide, r);
    let z = heads_normed(w, q, dim);
    assert forall|i: int| 0 <= i < wide implies f(r * wide + i) == #[trigger] z[i] by {
        lemma_head_place(r, heads, dim, i);
        lemma_head_row(m, x, xa, dim, heads, r, i / dim);
    }
    assert(Seq::new(wide as nat, |i: int| f(r * wide + i)) =~= z);
}

/// A head of a row, as numbers of the buffer.
pub proof fn lemma_head_row(m: Mem, x: Buf, xa: int, dim: int, heads: int, r: int, h: int)
    requires
        0 <= h < heads,
        0 < dim,
    ensures
        row(m, x, xa + r * (heads * dim) + h * dim, dim) == head_of(nth(m, x, xa, heads * dim, r), dim, h),
{
    reveal(nth);
    let wide = heads * dim;
    assert(0 <= h * dim && h * dim + dim <= wide) by (nonlinear_arith)
        requires
            wide == heads * dim,
            0 <= h < heads,
            0 < dim,
    ;
    let q = nth(m, x, xa, wide, r);
    assert(row(m, x, xa + r * wide + h * dim, dim) =~= head_of(q, dim, h));
}

/// Rows of heads rotated in place.
pub proof fn lemma_turn_row(m: Mem, x: Buf, xa: int, n: int, heads: int, dim: int, rot: int, pos0: int, r: int)
    requires
        0 <= r < n,
        0 < dim,
        0 < heads,
    ensures
        nth(turn(m, x, xa, n, heads, dim, rot, pos0), x, xa, heads * dim, r) == turned(
            nth(m, x, xa, heads * dim, r),
            dim,
            rot,
            pos0 + r,
        ),
{
    reveal(nth);
    let f = |i: int| Term::Rotated(pos0 + i / dim / heads, rot, row(m, x, xa + i / dim * dim, dim), i % dim);
    let wide = heads * dim;
    assert(0 < wide) by (nonlinear_arith)
        requires
            wide == heads * dim,
            0 < heads,
            0 < dim,
    ;
    lemma_put_row(m, x, xa, n, wide, f, r);
    let q = nth(m, x, xa, wide, r);
    let z = turned(q, dim, rot, pos0 + r);
    assert forall|i: int| 0 <= i < wide implies f(r * wide + i) == #[trigger] z[i] by {
        lemma_head_place(r, heads, dim, i);
        lemma_head_row(m, x, xa, dim, heads, r, i / dim);
    }
    assert(Seq::new(wide as nat, |i: int| f(r * wide + i)) =~= z);
}

// ---------- the launches ----------

pub proof fn lemma_barrier(c: Ctx, m: Mem, s: Seq<CmdView>, conc: bool, bufs: Seq<Buf>)
    ensures
        run(c, m, with_barrier(s, conc, bufs)) == run(c, m, s),
{
    reveal(nth);
    if conc {
        lemma_run_push(c, m, s, CmdView::Barrier(bufs));
    }
}

pub proof fn lemma_embed(c: Ctx, m0: Mem, s: Seq<CmdView>, g: Geo, n: u32, r: int)
    ensures
        ({
            let (m, k, w) = (run(c, m0, s), run(c, m0, embed(s, g, n)), g.hidden as int);
            &&& only(m, k, Buf::X, Buf::X, Buf::X)
            &&& 0 <= r < n ==> nth(k, Buf::X, 0, w, r) == Seq::new(
                    w as nat,
                    |i: int| Term::Picked(Buf::EmbedTable, Buf::Ids, r, i),
                )
        }),
{
    reveal(nth);
    reveal(step);
    let (m, k, w) = (run(c, m0, s), run(c, m0, embed(s, g, n)), g.hidden as int);
    lemma_run_push(c, m0, s, embed(s, g, n).last());
    lemma_div_up(n * w, 256);
    let f = |i: int| Term::Picked(Buf::EmbedTable, Buf::Ids, 0 + i / w, i % w);
    lemma_put(m, Buf::X, 0, n * w, f);
    assert(k == put(m, Buf::X, 0, n * w, f));
    if 0 <= r < n {
        lemma_put_row(m, Buf::X, 0, n as int, w, f, r);
        let z = Seq::new(w as nat, |i: int| Term::Picked(Buf::EmbedTable, Buf::Ids, r, i));
        assert forall|i: int| 0 <= i < w implies f(r * w + i) == #[trigger] z[i] by {
            lemma_place(r, w, i);
        }
        assert(Seq::new(w as nat, |i: int| f(r * w + i)) =~= z);
        assert(nth(k, Buf::X, 0, w, r) == Seq::new(
        w as nat,
        |i: int| Term::Picked(Buf::EmbedTable, Buf::Ids, r, i),
    ));
    }
}

pub proof fn lemma_rmsnorm(c: Ctx, m0: Mem, s: Seq<CmdView>, g: Geo, x: Buf, w: Buf, y: Buf, n: u32, r: int)
    ensures
        ({
            let (m, k, dim) = (run(c, m0, s), run(c, m0, rmsnorm(s, g, x, w, y, n)), g.hidden as int);
            &&& only(m, k, y, y, y)
            &&& 0 <= r < n ==> nth(k, y, 0, dim, r) == normed(w, nth(m, x, 0, dim, r))
        }),
{
    reveal(nth);
    reveal(step);
    let (m, k, dim) = (run(c, m0, s), run(c, m0, rmsnorm(s, g, x, w, y, n)), g.hidden as int);
    lemma_run_push(c, m0, s, rmsnorm(s, g, x, w, y, n).last());
    assert(k == norm_rows(m, x, 0, w, y, 0, dim, n as int));
    lemma_put(m, y, 0, n * dim, |i: int| Term::Normed(w, row(m, x, 0 + i / dim * dim, dim), i % dim));
    if 0 <= r < n {
        lemma_norm_row(m, x, 0, w, y, 0, dim, n as int, r);
        assert(nth(k, y, 0, dim, r) == normed(w, nth(m, x, 0, dim, r)));
    }
}

pub proof fn lemma_rmsnorm_both(c: Ctx, m0: Mem, s: Seq<CmdView>, g: Geo, x: Buf, w: Buf, y: Buf, z: Buf, n: u32, r: int)
    requires
        y != z,
    ensures
        ({
            let (m, k, dim) = (run(c, m0, s), run(c, m0, rmsnorm_both(s, g, x, w, y, z, n)), g.hidden as int);
            &&& only(m, k, y, z, z)
            &&& 0 <= r < n ==> nth(k, y, 0, dim, r) == normed(w, nth(m, x, 0, dim, r))
            &&& 0 <= r < n ==> nth(k, z, 0, dim, r) == normed(w, nth(m, x, 0, dim, r))
        }),
{
    reveal(nth);
    reveal(step);
    let (m, k, dim) = (run(c, m0, s), run(c, m0, rmsnorm_both(s, g, x, w, y, z, n)), g.hidden as int);
    lemma_run_push(c, m0, s, rmsnorm_both(s, g, x, w, y, z, n).last());
    let f = |i: int| Term::Normed(w, row(m, x, 0 + i / dim * dim, dim), i % dim);
    let mid = put(m, y, 0, n * dim, f);
    assert(k == put(mid, z, 0, n * dim, f));
    lemma_put(m, y, 0, n * dim, f);
    lemma_put(mid, z, 0, n * dim, f);
    if 0 <= r < n {
        lemma_norm_row(m, x, 0, w, y, 0, dim, n as int, r);
        assert(nth(k, y, 0, dim, r) == normed(w, nth(m, x, 0, dim, r)));
    }
    if 0 <= r < n {
        lemma_norm_row(m, x, 0, w, y, 0, dim, n as int, r);
        lemma_put_row(m, y, 0, n as int, dim, f, r);
        lemma_put_row(mid, z, 0, n as int, dim, f, r);
        assert(nth(k, z, 0, dim, r) == normed(w, nth(m, x, 0, dim, r)));
    }
}

pub proof fn lemma_rmsnorm_heads(c: Ctx, m0: Mem, s: Seq<CmdView>, x: Buf, w: Buf, n: u32, heads: u32, dim: u32, r: int)
    requires
        0 < heads,
        0 < dim,
        n * heads <= u64::MAX,
    ensures
        ({
            let (m, k) = (run(c, m0, s), run(c, m0, rmsnorm_heads(s, x, w, (n * heads) as u64, dim)));
            &&& only(m, k, x, x, x)
            &&& within(m, k, x, 0, n * (heads * dim))
            &&& 0 <= r < n ==> nth(k, x, 0, heads * dim, r) == heads_normed(
                    w,
                    nth(m, x, 0, heads * dim, r),
                    dim as int,
                )
        }),
{
    reveal(nth);
    reveal(step);
    let (m, k, d) = (run(c, m0, s), run(c, m0, rmsnorm_heads(s, x, w, (n * heads) as u64, dim)), dim as int);
    assert(0 <= n * heads) by (nonlinear_arith);
    lemma_run_push(c, m0, s, rmsnorm_heads(s, x, w, (n * heads) as u64, dim).last());
    assert(k == norm_rows(m, x, 0, w, x, 0, d, n * heads));
    lemma_put(m, x, 0, n * heads * d, |i: int| Term::Normed(w, row(m, x, 0 + i / d * d, d), i % d));
    assert(n * heads * d == n * (heads * d)) by (nonlinear_arith);
    if 0 <= r < n {
        lemma_heads_norm_row(m, x, 0, w, d, heads as int, n as int, r);
        assert(nth(k, x, 0, heads * dim, r) == heads_normed(
        w,
        nth(m, x, 0, heads * dim, r),
        d,
    ));
    }
}

pub proof fn lemma_rmsnorm_cache(
    c: Ctx,
    m0: Mem,
    s: Seq<CmdView>,
    x: Buf,
    off: u64,
    w: Buf,
    n: u32,
    heads: u32,
    dim: u32,
    r: int,
)
    requires
        0 < heads,
        0 < dim,
        n * heads <= u64::MAX,
    ensures
        ({
            let (m, k) = (run(c, m0, s), run(c, m0, rmsnorm_cache(s, x, off, w, (n * heads) as u64, dim)));
            let a = off as int / width_of(x);
            &&& only(m, k, x, x, x)
            &&& within(m, k, x, a, n * (heads * dim))
            &&& 0 <= r < n ==> nth(k, x, a, heads * dim, r) == heads_normed(
                    w,
                    nth(m, x, a, heads * dim, r),
                    dim as int,
                )
        }),
{
    reveal(nth);
    reveal(step);
    let (m, k, d) = (run(c, m0, s), run(c, m0, rmsnorm_cache(s, x, off, w, (n * heads) as u64, dim)), dim as int);
    let a = off as int / width_of(x);
    assert(0 <= n * heads) by (nonlinear_arith);
    lemma_run_push(c, m0, s, rmsnorm_cache(s, x, off, w, (n * heads) as u64, dim).last());
    assert(k == norm_rows(m, x, a, w, x, a, d, n * heads));
    lemma_put(m, x, a, n * heads * d, |i: int| Term::Normed(w, row(m, x, a + i / d * d, d), i % d));
    assert(n * heads * d == n * (heads * d)) by (nonlinear_arith);
    if 0 <= r < n {
        lemma_heads_norm_row(m, x, a, w, d, heads as int, n as int, r);
        assert(nth(k, x, a, heads * dim, r) == heads_normed(
        w,
        nth(m, x, a, heads * dim, r),
        d,
    ));
    }
}

/// The weight of a linear layer.
pub open spec fn weight(l: Lin) -> Buf {
    Buf::Weight(l.layer, l.proj)
}

/// Its bias.
pub open spec fn bias(l: Lin) -> Buf {
    Buf::Bias(l.layer, l.proj)
}

/// A vector through a linear layer.
pub open spec fn passed(c: Ctx, l: Lin, x: Seq<Term>) -> Seq<Term> {
    through(c, weight(l), bias(l), x, l.out_dim as int)
}

/// The checkpoint has the bias that the layer claims.
pub open spec fn bias_known(c: Ctx, l: Lin) -> bool {
    (c.biased)(bias(l)) <==> l.has_bias
}

pub open spec fn is_matvec(k: Kernel) -> bool {
    k is Matvec || k is MatvecH || k is QMatvec || k is QMatvecH
}

/// A kernel of a quantized weight reads it by its own selector.
pub open spec fn fits_type(c: Ctx, k: Kernel, l: Lin) -> bool {
    match k {
        Kernel::QMatvec(sel) | Kernel::QMatvecH(sel) | Kernel::QMatvecAcc(sel) => (c.selector)(weight(l)) == sel,
        _ => true,
    }
}

pub open spec fn is_matmul(k: Kernel) -> bool {
    k is Matmul || k is MatmulH
}

pub proof fn lemma_matvec(c: Ctx, m0: Mem, s: Seq<CmdView>, kernel: Kernel, l: Lin, x: Buf, x_off: u64, y: Buf, y_off: u64)
    requires
        is_matvec(kernel),
        fits_type(c, kernel, l),
    ensures
        ({
            let (m, k) = (run(c, m0, s), run(c, m0, matvec(s, kernel, l, x, x_off, y, y_off)));
            let (xa, ya) = (x_off as int / width_of(x), y_off as int / width_of(y));
            &&& only(m, k, y, y, y)
            &&& within(m, k, y, ya, l.out_dim as int)
            &&& row(k, y, ya, l.out_dim as int) == passed(c, l, row(m, x, xa, l.in_dim as int))
        }),
{
    reveal(nth);
    reveal(step);
    let (m, k) = (run(c, m0, s), run(c, m0, matvec(s, kernel, l, x, x_off, y, y_off)));
    let (xa, ya) = (x_off as int / width_of(x), y_off as int / width_of(y));
    let (i, o) = (l.in_dim as int, l.out_dim as int);
    lemma_run_push(c, m0, s, matvec(s, kernel, l, x, x_off, y, y_off).last());
    lemma_div_up(o, 4);
    let f = times(c, m, weight(l), Some(bias(l)), x, xa, i, o);
    assert(k == put(m, y, ya, o, f));
    lemma_put(m, y, ya, o, f);
    lemma_times_row(c, m, weight(l), Some(bias(l)), x, xa, i, o, y, ya, 1, bias(l), 0);
}

pub proof fn lemma_matvec_acc(c: Ctx, m0: Mem, s: Seq<CmdView>, kernel: Kernel, l: Lin, x: Buf, y: Buf)
    requires
        kernel is MatvecAcc || kernel is QMatvecAcc,
        fits_type(c, kernel, l),
    ensures
        ({
            let (m, k) = (run(c, m0, s), run(c, m0, matvec(s, kernel, l, x, 0, y, 0)));
            let o = l.out_dim as int;
            &&& only(m, k, y, y, y)
            &&& row(k, y, 0, o) == summed(row(m, y, 0, o), passed(c, l, row(m, x, 0, l.in_dim as int)))
        }),
{
    reveal(nth);
    reveal(step);
    let (m, k) = (run(c, m0, s), run(c, m0, matvec(s, kernel, l, x, 0, y, 0)));
    let (i, o) = (l.in_dim as int, l.out_dim as int);
    lemma_run_push(c, m0, s, matvec(s, kernel, l, x, 0, y, 0).last());
    lemma_div_up(o, 4);
    let f = times(c, m, weight(l), Some(bias(l)), x, 0, i, o);
    let h = |j: int| Term::Sum(Box::new(m(y, 0 + j)), Box::new(f(j)));
    assert(k == put(m, y, 0, 1 * o, h));
    lemma_put(m, y, 0, o, h);
    let z = summed(row(m, y, 0, o), passed(c, l, row(m, x, 0, i)));
    lemma_put_row(m, y, 0, 1, o, h, 0);
    assert forall|j: int| 0 <= j < o implies h(0 * o + j) == #[trigger] z[j] by {
        lemma_place(0, o, j);
    }
    assert(Seq::new(o as nat, |j: int| h(0 * o + j)) =~= z);
}

pub proof fn lemma_swiglu(c: Ctx, m0: Mem, s: Seq<CmdView>, gate: Lin, up: Lin, x: Buf, y: Buf)
    requires
        gate.in_dim == up.in_dim,
        gate.out_dim == up.out_dim,
        !(c.biased)(bias(gate)),
        !(c.biased)(bias(up)),
    ensures
        ({
            let (m, k) = (run(c, m0, s), run(c, m0, swiglu(s, gate, up, x, y)));
            let v = row(m, x, 0, gate.in_dim as int);
            &&& only(m, k, y, y, y)
            &&& row(k, y, 0, gate.out_dim as int) == gated(passed(c, gate, v), passed(c, up, v))
        }),
{
    reveal(nth);
    reveal(step);
    let (m, k) = (run(c, m0, s), run(c, m0, swiglu(s, gate, up, x, y)));
    let (i, o) = (gate.in_dim as int, gate.out_dim as int);
    let v = row(m, x, 0, i);
    lemma_run_push(c, m0, s, swiglu(s, gate, up, x, y).last());
    lemma_div_up(o, 4);
    let f = times(c, m, weight(gate), None, x, 0, i, o);
    let g = times(c, m, weight(up), None, x, 0, i, o);
    let h = |j: int| Term::Gated(Box::new(f(j)), Box::new(g(j)));
    assert(k == put(m, y, 0, 1 * o, h));
    lemma_put(m, y, 0, o, h);
    let z = gated(passed(c, gate, v), passed(c, up, v));
    lemma_put_row(m, y, 0, 1, o, h, 0);
    assert forall|j: int| 0 <= j < o implies h(0 * o + j) == #[trigger] z[j] by {
        lemma_place(0, o, j);
    }
    assert(Seq::new(o as nat, |j: int| h(0 * o + j)) =~= z);
}

/// What `n` rows through a linear layer leave behind.
pub open spec fn rows_passed(c: Ctx, m: Mem, k: Mem, l: Lin, x: Buf, xa: int, y: Buf, ya: int, n: int, r: int) -> bool {
    let (i, o) = (l.in_dim as int, l.out_dim as int);
    &&& only(m, k, y, y, y)
    &&& within(m, k, y, ya, n * o)
    &&& 0 <= r < n ==> nth(k, y, ya, o, r) == passed(c, l, nth(m, x, xa, i, r))
}

proof fn lemma_rows_passed(c: Ctx, m: Mem, l: Lin, b: Option<Buf>, x: Buf, xa: int, y: Buf, ya: int, n: int, r: int)
    requires
        b == Some(bias(l)) || (b is None && !(c.biased)(bias(l))),
    ensures
        rows_passed(
            c,
            m,
            put(m, y, ya, n * l.out_dim, times(c, m, weight(l), b, x, xa, l.in_dim as int, l.out_dim as int)),
            l,
            x,
            xa,
            y,
            ya,
            n, r,
        ),
{
    reveal(nth);
    let (i, o) = (l.in_dim as int, l.out_dim as int);
    let f = times(c, m, weight(l), b, x, xa, i, o);
    let k = put(m, y, ya, n * o, f);
    lemma_put(m, y, ya, n * o, f);
    if 0 <= r < n {
        lemma_times_row(c, m, weight(l), b, x, xa, i, o, y, ya, n, bias(l), r);
        assert(nth(k, y, ya, o, r) == passed(c, l, nth(m, x, xa, i, r)));
    }
}

pub proof fn lemma_matmul(c: Ctx, m0: Mem, s: Seq<CmdView>, kernel: Kernel, l: Lin, x: Buf, x_off: u64, y: Buf, y_off: u64, n: u32, r: int)
    requires
        is_matmul(kernel),
    ensures
        rows_passed(
            c,
            run(c, m0, s),
            run(c, m0, matmul(s, kernel, l, x, x_off, y, y_off, n)),
            l,
            x,
            x_off as int / width_of(x),
            y,
            y_off as int / width_of(y),
            n as int, r,
        ),
{
    reveal(nth);
    reveal(step);
    lemma_run_push(c, m0, s, matmul(s, kernel, l, x, x_off, y, y_off, n).last());
    lemma_div_up(l.out_dim as int, 64);
    lemma_div_up(n as int, 32);
    lemma_rows_passed(
        c,
        run(c, m0, s),
        l,
        Some(bias(l)),
        x,
        x_off as int / width_of(x),
        y,
        y_off as int / width_of(y),
        n as int, r,
    );
}

pub proof fn lemma_qmatmul(c: Ctx, m0: Mem, s: Seq<CmdView>, sel: u32, l: Lin, x: Buf, x_off: u64, y: Buf, y_off: u64, n: u32, r: int)
    requires
        (c.selector)(weight(l)) == sel,
    ensures
        rows_passed(
            c,
            run(c, m0, s),
            run(c, m0, qmatmul(s, sel, l, x, x_off, y, y_off, n)),
            l,
            x,
            x_off as int / width_of(x),
            y,
            y_off as int / width_of(y),
            n as int, r,
        ),
{
    reveal(nth);
    reveal(step);
    lemma_run_push(c, m0, s, qmatmul(s, sel, l, x, x_off, y, y_off, n).last());
    lemma_div_up(l.out_dim as int, 64);
    lemma_div_up(n as int, 32);
    lemma_rows_passed(
        c,
        run(c, m0, s),
        l,
        Some(bias(l)),
        x,
        x_off as int / width_of(x),
        y,
        y_off as int / width_of(y),
        n as int, r,
    );
}

pub proof fn lemma_matmul_half(c: Ctx, m0: Mem, s: Seq<CmdView>, l: Lin, x: Buf, y: Buf, y_off: u64, n: u32, r: int)
    requires
        !(c.biased)(bias(l)),
    ensures
        rows_passed(
            c,
            run(c, m0, s),
            run(c, m0, matmul_half(s, l, x, y, y_off, n)),
            l,
            x,
            0,
            y,
            y_off as int / width_of(y),
            n as int, r,
        ),
{
    reveal(nth);
    reveal(step);
    lemma_run_push(c, m0, s, matmul_half(s, l, x, y, y_off, n).last());
    lemma_div_up(l.out_dim as int, 64);
    lemma_div_up(n as int, 64);
    lemma_rows_passed(c, run(c, m0, s), l, None, x, 0, y, y_off as int / width_of(y), n as int, r);
}

pub proof fn lemma_matmul_half_bias(c: Ctx, m0: Mem, s: Seq<CmdView>, kernel: Kernel, l: Lin, x: Buf, y: Buf, y_off: u64, n: u32, r: int)
    requires
        kernel is MatmulTb || kernel is MatmulTh,
    ensures
        rows_passed(
            c,
            run(c, m0, s),
            run(c, m0, matmul_half_bias(s, kernel, l, x, y, y_off, n)),
            l,
            x,
            0,
            y,
            y_off as int / width_of(y),
            n as int, r,
        ),
{
    reveal(nth);
    reveal(step);
    lemma_run_push(c, m0, s, matmul_half_bias(s, kernel, l, x, y, y_off, n).last());
    lemma_div_up(l.out_dim as int, 64);
    lemma_div_up(n as int, 64);
    lemma_rows_passed(c, run(c, m0, s), l, Some(bias(l)), x, 0, y, y_off as int / width_of(y), n as int, r);
}

pub proof fn lemma_to_half(c: Ctx, m0: Mem, s: Seq<CmdView>, x: Buf, x_off: u64, y: Buf, y_off: u64, dim: u64)
    requires
        dim <= u32::MAX,
    ensures
        ({
            let (m, k) = (run(c, m0, s), run(c, m0, to_half(s, x, x_off, y, y_off, dim)));
            let (xa, ya) = (x_off as int / width_of(x), y_off as int / width_of(y));
            &&& only(m, k, y, y, y)
            &&& within(m, k, y, ya, dim as int)
            &&& forall|o: int, w: int|
                0 <= o && 0 <= w && o + w <= dim ==> #[trigger] row(k, y, ya + o, w) == row(m, x, xa + o, w)
        }),
{
    reveal(nth);
    reveal(step);
    let (m, k) = (run(c, m0, s), run(c, m0, to_half(s, x, x_off, y, y_off, dim)));
    let (xa, ya) = (x_off as int / width_of(x), y_off as int / width_of(y));
    lemma_run_push(c, m0, s, to_half(s, x, x_off, y, y_off, dim).last());
    lemma_div_up(dim as int, 256);
    let f = |i: int| m(x, xa + i);
    assert(k == put(m, y, ya, dim as int, f));
    lemma_put(m, y, ya, dim as int, f);
    assert forall|o: int, w: int| 0 <= o && 0 <= w && o + w <= dim implies #[trigger] row(k, y, ya + o, w) == row(
        m,
        x,
        xa + o,
        w,
    ) by {
        assert(row(k, y, ya + o, w) =~= row(m, x, xa + o, w));
    }
}

/// `n` rows through a linear layer, whichever kernels take them. The half-precision
/// copy, where the layer reads it, holds the rows already or is made of them.
pub proof fn lemma_linear(
    c: Ctx,
    m0: Mem,
    s: Seq<CmdView>,
    mv: Kernel,
    mm: Kernel,
    l: Lin,
    x: Buf,
    x_off: u64,
    y: Buf,
    y_off: u64,
    n: u32,
    half: bool,
    convert: bool,
    conc: bool,
    r: int,
)
    requires
        is_matvec(mv),
        fits_type(c, mv, l),
        is_matmul(mm),
        bias_known(c, l),
        y != Buf::Xh,
        n * l.in_dim <= u32::MAX,
        n > 1 && half && !convert ==> 0 <= r < n ==> nth(run(c, m0, s), Buf::Xh, 0, l.in_dim as int, r) == nth(
                run(c, m0, s),
                x,
                x_off as int / width_of(x),
                l.in_dim as int,
                r,
            ),
    ensures
        ({
            let m = run(c, m0, s);
            let k = run(c, m0, linear(s, mv, mm, l, x, x_off, y, y_off, n, half, convert, conc));
            let (xa, ya) = (x_off as int / width_of(x), y_off as int / width_of(y));
            let (i, o) = (l.in_dim as int, l.out_dim as int);
            &&& only(m, k, y, Buf::Xh, Buf::Xh)
            &&& !convert ==> only(m, k, y, y, y)
            &&& within(m, k, y, ya, n * o)
            &&& 0 <= r < n ==> nth(k, y, ya, o, r) == passed(c, l, nth(m, x, xa, i, r))
        }),
{
    reveal(nth);
    let m = run(c, m0, s);
    let k = run(c, m0, linear(s, mv, mm, l, x, x_off, y, y_off, n, half, convert, conc));
    let (xa, ya) = (x_off as int / width_of(x), y_off as int / width_of(y));
    let (i, o) = (l.in_dim as int, l.out_dim as int);
    assert(0 <= n * i) by (nonlinear_arith)
        requires
            0 <= n,
            0 <= i,
    ;
    if n == 1 {
        lemma_matvec(c, m0, s, mv, l, x, x_off, y, y_off);
        if 0 <= r < n {
            assert(r == 0);
            assert(r * o == 0 && r * i == 0) by (nonlinear_arith)
                requires
                    r == 0,
            ;
            assert(nth(k, y, ya, o, r) == passed(c, l, nth(m, x, xa, i, r)));
        }
    } else if half {
        let t = if convert {
            to_half(s, x, x_off, Buf::Xh, 0, (n * l.in_dim) as u64)
        } else {
            s
        };
        let u = if convert {
            with_barrier(t, conc, seq![Buf::Xh])
        } else {
            s
        };
        if convert {
            lemma_to_half(c, m0, s, x, x_off, Buf::Xh, 0, (n * l.in_dim) as u64);
            lemma_barrier(c, m0, t, conc, seq![Buf::Xh]);
        }
        let v = run(c, m0, u);
        if 0 <= r < n {
            lemma_inside(r, n as int, i);
            if convert {
                assert(row(v, Buf::Xh, 0 + r * i, i) == row(m, x, xa + r * i, i));
            }
            assert(nth(v, Buf::Xh, 0, i, r) == nth(m, x, xa, i, r));
        }
        if l.has_bias {
            lemma_matmul_half_bias(c, m0, u, Kernel::MatmulTb, l, Buf::Xh, y, y_off, n, r);
        } else {
            lemma_matmul_half(c, m0, u, l, Buf::Xh, y, y_off, n, r);
        }
    } else {
        lemma_matmul(c, m0, s, mm, l, x, x_off, y, y_off, n, r);
    }
}

/// Rows of keys or values into a cache.
pub proof fn lemma_linear_kv(c: Ctx, m0: Mem, s: Seq<CmdView>, l: Lin, x: Buf, y: Buf, y_off: u64, n: u32, r: int)
    requires
        bias_known(c, l),
        y != Buf::Xh,
        n * l.in_dim <= u32::MAX,
        n > 1 ==> 0 <= r < n ==> nth(run(c, m0, s), Buf::Xh, 0, l.in_dim as int, r) == nth(
                run(c, m0, s),
                x,
                0,
                l.in_dim as int,
                r,
            ),
    ensures
        rows_passed(
            c,
            run(c, m0, s),
            run(c, m0, linear_kv(s, l, x, y, y_off, n)),
            l,
            x,
            0,
            y,
            y_off as int / width_of(y),
            n as int, r,
        ),
{
    reveal(nth);
    if n > 1 {
        lemma_matmul_half_bias(c, m0, s, Kernel::MatmulTh, l, Buf::Xh, y, y_off, n, r);
    } else {
        lemma_linear(c, m0, s, Kernel::MatvecH, Kernel::MatmulH, l, x, 0, y, y_off, n, false, false, false, r);
    }
}

pub proof fn lemma_qkv(c: Ctx, m0: Mem, s: Seq<CmdView>, q: Lin, k: Lin, v: Lin, x: Buf, y: Buf, kv_off: u32)
    requires
        q.in_dim == k.in_dim == v.in_dim,
        k.out_dim == v.out_dim,
        y != Buf::KCache(q.layer),
        y != Buf::VCache(q.layer),
    ensures
        ({
            let (m, e) = (run(c, m0, s), run(c, m0, qkv(s, q, k, v, x, y, kv_off)));
            let (kc, vc) = (Buf::KCache(q.layer), Buf::VCache(q.layer));
            let (a, w) = (kv_off as int, k.out_dim as int);
            let z = row(m, x, 0, q.in_dim as int);
            &&& only(m, e, y, kc, vc)
            &&& within(m, e, kc, a, w)
            &&& within(m, e, vc, a, w)
            &&& row(e, y, 0, q.out_dim as int) == passed(c, q, z)
            &&& row(e, kc, a, w) == passed(c, k, z)
            &&& row(e, vc, a, w) == passed(c, v, z)
        }),
{
    reveal(nth);
    let (m, e) = (run(c, m0, s), run(c, m0, qkv(s, q, k, v, x, y, kv_off)));
    let (kc, vc) = (Buf::KCache(q.layer), Buf::VCache(q.layer));
    let (a, w, i, o) = (kv_off as int, k.out_dim as int, q.in_dim as int, q.out_dim as int);
    let fq = times(c, m, weight(q), Some(bias(q)), x, 0, i, o);
    let fk = times(c, m, weight(k), Some(bias(k)), x, 0, i, w);
    let fv = times(c, m, weight(v), Some(bias(v)), x, 0, i, w);
    let m1 = put(m, y, 0, o, fq);
    let m2 = put(m1, kc, a, w, fk);
    assert(e == put(m2, vc, a, w, fv)) by {
        reveal(step);
        lemma_run_push(c, m0, s, qkv(s, q, k, v, x, y, kv_off).last());
        lemma_div_up(o + 2 * w, 4);
    }
    lemma_put(m, y, 0, o, fq);
    lemma_put(m1, kc, a, w, fk);
    lemma_put(m2, vc, a, w, fv);
    lemma_written(m, y, 0, o, fq);
    lemma_written(m1, kc, a, w, fk);
    lemma_written(m2, vc, a, w, fv);
    lemma_times_one(c, m, q, x, 0);
    lemma_times_one(c, m, k, x, 0);
    lemma_times_one(c, m, v, x, 0);
}

/// One row of numbers, as it was written.
proof fn lemma_written(m: Mem, y: Buf, at: int, w: int, f: spec_fn(int) -> Term)
    requires
        0 <= w,
    ensures
        row(put(m, y, at, w, f), y, at, w) == Seq::new(w as nat, f),
{
    reveal(nth);
    assert(row(put(m, y, at, w, f), y, at, w) =~= Seq::new(w as nat, f));
}

/// The numbers of one row through a linear layer.
proof fn lemma_times_one(c: Ctx, m: Mem, l: Lin, x: Buf, xa: int)
    ensures
        Seq::new(
            l.out_dim as nat,
            times(c, m, weight(l), Some(bias(l)), x, xa, l.in_dim as int, l.out_dim as int),
        ) == passed(c, l, row(m, x, xa, l.in_dim as int)),
{
    reveal(nth);
    let f = times(c, m, weight(l), Some(bias(l)), x, xa, l.in_dim as int, l.out_dim as int);
    let z = passed(c, l, row(m, x, xa, l.in_dim as int));
    assert forall|i: int| 0 <= i < l.out_dim implies f(i) == #[trigger] z[i] by {
        lemma_place(0, l.out_dim as int, i);
        assert(0 * (l.out_dim as int) + i == i);
        let q = i / l.out_dim as int;
        assert(q * l.in_dim == 0) by (nonlinear_arith)
            requires
                q == 0,
        ;
    }
    assert(Seq::new(l.out_dim as nat, f) =~= z);
}

/// Queries and keys rotated together.
pub open spec fn both_turned(
    m: Mem,
    k: Mem,
    g: Geo,
    q: Buf,
    kc: Buf,
    a: int,
    pos0: int,
    n: int,
    rot: int,
    r: int,
) -> bool {
    let (d, h, kh) = (g.head_dim as int, g.heads as int, g.kv_heads as int);
    &&& only(m, k, q, kc, kc)
    &&& within(m, k, kc, a, n * (kh * d))
    &&& 0 <= r < n ==> nth(k, q, 0, h * d, r) == turned(nth(m, q, 0, h * d, r), d, rot, pos0 + r)
    &&& 0 <= r < n ==> nth(k, kc, a, kh * d, r) == turned(nth(m, kc, a, kh * d, r), d, rot, pos0 + r)
}

proof fn lemma_both_turned(m: Mem, g: Geo, q: Buf, kc: Buf, a: int, pos0: int, n: int, rot: int, r: int)
    requires
        q != kc,
        0 < g.head_dim,
        0 < g.heads,
        0 < g.kv_heads,
    ensures
        both_turned(
            m,
            turn(
                turn(m, q, 0, n, g.heads as int, g.head_dim as int, rot, pos0),
                kc,
                a,
                n,
                g.kv_heads as int,
                g.head_dim as int,
                rot,
                pos0,
            ),
            g,
            q,
            kc,
            a,
            pos0,
            n,
            rot, r,
        ),
{
    reveal(nth);
    let (d, h, kh) = (g.head_dim as int, g.heads as int, g.kv_heads as int);
    let m1 = turn(m, q, 0, n, h, d, rot, pos0);
    let k = turn(m1, kc, a, n, kh, d, rot, pos0);
    lemma_put(
        m,
        q,
        0,
        n * (h * d),
        |i: int| Term::Rotated(pos0 + i / d / h, rot, row(m, q, 0 + i / d * d, d), i % d),
    );
    lemma_put(
        m1,
        kc,
        a,
        n * (kh * d),
        |i: int| Term::Rotated(pos0 + i / d / kh, rot, row(m1, kc, a + i / d * d, d), i % d),
    );
    if 0 <= r < n {
        lemma_turn_row(m, q, 0, n, h, d, rot, pos0, r);
        assert(nth(k, q, 0, h * d, r) == turned(
        nth(m, q, 0, h * d, r),
        d,
        rot,
        pos0 + r,
    ));
    }
    if 0 <= r < n {
        lemma_turn_row(m1, kc, a, n, kh, d, rot, pos0, r);
        assert(nth(k, kc, a, kh * d, r) == turned(
        nth(m, kc, a, kh * d, r),
        d,
        rot,
        pos0 + r,
    ));
    }
}

pub proof fn lemma_rope_qk(c: Ctx, m0: Mem, s: Seq<CmdView>, g: Geo, q: Buf, kc: Buf, off: u64, pos: u32, r: int)
    requires
        q != kc,
        g.ok(),
    ensures
        both_turned(
            run(c, m0, s),
            run(c, m0, rope_qk(s, g, q, kc, off, pos)),
            g,
            q,
            kc,
            off as int / width_of(kc),
            pos as int,
            1,
            g.rot_dim as int, r,
        ),
{
    reveal(nth);
    reveal(step);
    lemma_run_push(c, m0, s, rope_qk(s, g, q, kc, off, pos).last());
    lemma_div_up((g.heads + g.kv_heads) * g.rot_dim / 2, 256);
    lemma_both_turned(run(c, m0, s), g, q, kc, off as int / width_of(kc), pos as int, 1, g.rot_dim as int, r);
}

pub proof fn lemma_rope_qk_chunk(c: Ctx, m0: Mem, s: Seq<CmdView>, g: Geo, q: Buf, kc: Buf, off: u64, pos0: u32, n: u32, r: int)
    requires
        q != kc,
        g.ok(),
    ensures
        both_turned(
            run(c, m0, s),
            run(c, m0, rope_qk_chunk(s, g, q, kc, off, pos0, n)),
            g,
            q,
            kc,
            off as int / width_of(kc),
            pos0 as int,
            n as int,
            g.head_dim as int, r,
        ),
{
    reveal(nth);
    reveal(step);
    lemma_run_push(c, m0, s, rope_qk_chunk(s, g, q, kc, off, pos0, n).last());
    lemma_div_up(n * (g.q_dim + g.kv_dim) / 2, 256);
    lemma_both_turned(
        run(c, m0, s),
        g,
        q,
        kc,
        off as int / width_of(kc),
        pos0 as int,
        n as int,
        g.head_dim as int, r,
    );
}

/// The rows of the cache that a query at `pos` attends to: those up to its own, or a
/// whole ring.
pub open spec fn seen_rows(g: Geo, pos: int) -> int {
    match g.win {
        Some(w) => w.cap as int,
        None => pos + 1,
    }
}

/// The attention of the query in row `r` of `q`, at position `pos`.
pub open spec fn seen(m: Mem, g: Geo, q: Buf, l: usize, r: int, pos: int) -> Attention {
    let (d, h, kh) = (g.head_dim as int, g.heads as int, g.kv_heads as int);
    let a = g.kv_base as int / 2;
    Attention {
        query: nth(m, q, 0, h * d, r),
        keys: table(m, Buf::KCache(l), a, kh * d, seen_rows(g, pos)),
        values: table(m, Buf::VCache(l), a, kh * d, seen_rows(g, pos)),
        heads: h,
        kv_heads: kh,
        head_dim: d,
        at: pos,
    }
}

pub proof fn lemma_attention_decode(c: Ctx, m0: Mem, s: Seq<CmdView>, g: Geo, q: Buf, l: usize, pos: u32)
    requires
        g.ok(),
        g.win is None ==> pos < g.max_seq,
        q != Buf::Partials,
    ensures
        ({
            let (m, k) = (run(c, m0, s), run(c, m0, attention_decode(s, g, q, l, pos)));
            &&& only(m, k, Buf::Partials, Buf::Att, Buf::Att)
            &&& row(k, Buf::Att, 0, g.heads * g.head_dim) == attended(seen(m, g, q, l, 0, pos as int))
        }),
{
    reveal(nth);
    reveal(step);
    let t = s.push(CmdView::Run(decode_partial(g, q, l, pos)));
    let u = attention_decode(s, g, q, l, pos);
    let (m, m1, k) = (run(c, m0, s), run(c, m0, t), run(c, m0, u));
    lemma_run_push(c, m0, s, t.last());
    lemma_run_push(c, m0, t, u.last());
    lemma_div_up(pos + 1, ATTN_SPLIT as int);
    let w = g.heads * g.head_dim;
    assert(0 <= w) by (nonlinear_arith)
        requires
            w == g.heads * g.head_dim,
    ;
    assert(decode_splits(g, pos) <= u32::MAX) by {
        assert((pos + 1 + 127) / 128 <= u32::MAX);
    }
    if let Some(win) = g.win {
        assert(win.cap % 128 == 0);
        assert(decode_splits(g, pos) * 128 == win.cap);
    }
    let a = seen(m, g, q, l, 0, pos as int);
    let f = |i: int| Term::Splits(a);
    assert(m1 == put(m, Buf::Partials, 0, 1, f));
    lemma_put(m, Buf::Partials, 0, 1, f);
    let h = |i: int| merged(m1(Buf::Partials, 0), i);
    assert(k == put(m1, Buf::Att, 0, w, h));
    lemma_put(m1, Buf::Att, 0, w, h);
    assert(m1(Buf::Partials, 0) == Term::Splits(a));
    assert(row(k, Buf::Att, 0, w) =~= attended(a));
}

pub proof fn lemma_attention(c: Ctx, m0: Mem, s: Seq<CmdView>, g: Geo, q: Buf, l: usize, pos0: u32, n: u32, r: int)
    requires
        g.ok(),
    ensures
        ({
            let (m, k) = (run(c, m0, s), run(c, m0, attention(s, g, q, l, pos0, n)));
            let w = g.heads * g.head_dim;
            &&& only(m, k, Buf::Att, Buf::Xh, Buf::Xh)
            &&& 0 <= r < n ==> nth(k, Buf::Att, 0, w, r) == attended(seen(m, g, q, l, r, pos0 + r))
            &&& is_flash(g) ==> 0 <= r < n ==> nth(k, Buf::Xh, 0, w, r) == attended(seen(m, g, q, l, r, pos0 + r))
        }),
{
    reveal(nth);
    reveal(step);
    let t = attention(s, g, q, l, pos0, n);
    let (m, k) = (run(c, m0, s), run(c, m0, t));
    lemma_run_push(c, m0, s, t.last());
    let (d, h, kh) = (g.head_dim as int, g.heads as int, g.kv_heads as int);
    let w = h * d;
    assert(0 < w) by (nonlinear_arith)
        requires
            w == h * d,
            0 < h,
            0 < d,
    ;
    let a = g.kv_base as int / 2;
    let f = |i: int|
        Term::Attended(
            attention_at(
                m,
                q,
                0 + i / w * w,
                Buf::KCache(l),
                a,
                Buf::VCache(l),
                a,
                h,
                kh,
                d,
                pos0 + i / w,
                seen_rows(g, pos0 + i / w),
            ),
            i % w,
        );
    let m1 = put(m, Buf::Att, 0, n * w, f);
    lemma_put(m, Buf::Att, 0, n * w, f);
    lemma_put(m1, Buf::Xh, 0, n * w, f);
    if is_flash(g) {
        assert(k == put(m1, Buf::Xh, 0, n * w, f));
    } else {
        assert(k == m1);
    }
    if 0 <= r < n {
        lemma_put_row(m, Buf::Att, 0, n as int, w, f, r);
        lemma_attended_row(m, g, q, l, pos0 as int, f, r);
        assert(nth(k, Buf::Att, 0, w, r) == attended(
        seen(m, g, q, l, r, pos0 + r),
    ));
    }
    if is_flash(g) {
        if 0 <= r < n {
            lemma_put_row(m1, Buf::Xh, 0, n as int, w, f, r);
            lemma_attended_row(m, g, q, l, pos0 as int, f, r);
            assert(nth(k, Buf::Xh, 0, w, r) == attended(
            seen(m, g, q, l, r, pos0 + r),
        ));
        }
    }
}

proof fn lemma_attended_row(m: Mem, g: Geo, q: Buf, l: usize, pos0: int, f: spec_fn(int) -> Term, r: int)
    requires
        g.ok(),
        forall|i: int| #[trigger]
            f(i) == Term::Attended(
                attention_at(
                    m,
                    q,
                    0 + i / (g.heads * g.head_dim) * (g.heads * g.head_dim),
                    Buf::KCache(l),
                    g.kv_base as int / 2,
                    Buf::VCache(l),
                    g.kv_base as int / 2,
                    g.heads as int,
                    g.kv_heads as int,
                    g.head_dim as int,
                    pos0 + i / (g.heads * g.head_dim),
                    seen_rows(g, pos0 + i / (g.heads * g.head_dim)),
                ),
                i % (g.heads * g.head_dim),
            ),
    ensures
        Seq::new((g.heads * g.head_dim) as nat, |i: int| f(r * (g.heads * g.head_dim) + i)) == attended(
            seen(m, g, q, l, r, pos0 + r),
        ),
{
    reveal(nth);
    let w = g.heads * g.head_dim;
    let a = seen(m, g, q, l, r, pos0 + r);
    let z = attended(a);
    assert forall|i: int| 0 <= i < w implies f(r * w + i) == #[trigger] z[i] by {
        lemma_place(r, w, i);
    }
    assert(Seq::new(w as nat, |i: int| f(r * w + i)) =~= z);
}

pub proof fn lemma_add(c: Ctx, m0: Mem, s: Seq<CmdView>, a: Buf, b: Buf, n: u32, w: u32, r: int)
    requires
        n * w <= u32::MAX,
    ensures
        ({
            let (m, k) = (run(c, m0, s), run(c, m0, add_inplace(s, a, b, (n * w) as u64)));
            &&& only(m, k, a, a, a)
            &&& 0 <= r < n ==> nth(k, a, 0, w as int, r) == summed(
                    nth(m, a, 0, w as int, r),
                    nth(m, b, 0, w as int, r),
                )
        }),
{
    reveal(nth);
    reveal(step);
    let (m, k) = (run(c, m0, s), run(c, m0, add_inplace(s, a, b, (n * w) as u64)));
    let d = w as int;
    assert(0 <= n * d) by (nonlinear_arith)
        requires
            0 <= n,
            0 <= d,
    ;
    lemma_run_push(c, m0, s, add_inplace(s, a, b, (n * w) as u64).last());
    lemma_div_up(n * d, 256);
    let f = |i: int| Term::Sum(Box::new(m(a, 0 + i)), Box::new(m(b, 0 + i)));
    assert(k == put(m, a, 0, n * d, f));
    lemma_put(m, a, 0, n * d, f);
    if 0 <= r < n {
        lemma_put_row(m, a, 0, n as int, d, f, r);
        assert(nth(k, a, 0, d, r) =~= summed(nth(m, a, 0, d, r), nth(m, b, 0, d, r)));
        assert(nth(k, a, 0, d, r) == summed(
        nth(m, a, 0, d, r),
        nth(m, b, 0, d, r),
    ));
    }
}

pub proof fn lemma_silu_mul_both(c: Ctx, m0: Mem, s: Seq<CmdView>, a: Buf, b: Buf, h: Buf, n: u32, w: u32, r: int)
    requires
        n * w <= u32::MAX,
        a != h,
        b != h,
    ensures
        ({
            let (m, k, d) = (run(c, m0, s), run(c, m0, silu_mul_both(s, a, b, h, (n * w) as u64)), w as int);
            &&& only(m, k, a, h, h)
            &&& 0 <= r < n ==> nth(k, a, 0, d, r) == gated(nth(m, a, 0, d, r), nth(m, b, 0, d, r))
            &&& 0 <= r < n ==> nth(k, h, 0, d, r) == gated(nth(m, a, 0, d, r), nth(m, b, 0, d, r))
        }),
{
    reveal(nth);
    reveal(step);
    let (m, k) = (run(c, m0, s), run(c, m0, silu_mul_both(s, a, b, h, (n * w) as u64)));
    let d = w as int;
    assert(0 <= n * d) by (nonlinear_arith)
        requires
            0 <= n,
            0 <= d,
    ;
    lemma_run_push(c, m0, s, silu_mul_both(s, a, b, h, (n * w) as u64).last());
    lemma_div_up(n * d, 256);
    let f = |i: int| Term::Gated(Box::new(m(a, 0 + i)), Box::new(m(b, 0 + i)));
    let m1 = put(m, a, 0, n * d, f);
    assert(k == put(m1, h, 0, n * d, f));
    lemma_put(m, a, 0, n * d, f);
    lemma_put(m1, h, 0, n * d, f);
    if 0 <= r < n {
        lemma_put_row(m, a, 0, n as int, d, f, r);
        assert(nth(m1, a, 0, d, r) =~= gated(nth(m, a, 0, d, r), nth(m, b, 0, d, r)));
        assert(nth(k, a, 0, d, r) == gated(
        nth(m, a, 0, d, r),
        nth(m, b, 0, d, r),
    ));
    }
    if 0 <= r < n {
        lemma_put_row(m1, h, 0, n as int, d, f, r);
        assert(nth(k, h, 0, d, r) =~= gated(nth(m, a, 0, d, r), nth(m, b, 0, d, r)));
        assert(nth(k, h, 0, d, r) == gated(
        nth(m, a, 0, d, r),
        nth(m, b, 0, d, r),
    ));
    }
}

// ---------- the launches on one row ----------

pub proof fn lemma_rmsnorm_one(c: Ctx, m0: Mem, s: Seq<CmdView>, g: Geo, x: Buf, w: Buf, y: Buf)
    ensures
        ({
            let (m, k, dim) = (run(c, m0, s), run(c, m0, rmsnorm(s, g, x, w, y, 1)), g.hidden as int);
            &&& only(m, k, y, y, y)
            &&& row(k, y, 0, dim) == normed(w, row(m, x, 0, dim))
        }),
{
    reveal(nth);
    lemma_rmsnorm(c, m0, s, g, x, w, y, 1, 0);
    let (m, k, dim) = (run(c, m0, s), run(c, m0, rmsnorm(s, g, x, w, y, 1)), g.hidden as int);
    assert(nth(k, y, 0, dim, 0) == normed(w, nth(m, x, 0, dim, 0)));
}

pub proof fn lemma_heads_one(c: Ctx, m0: Mem, s: Seq<CmdView>, x: Buf, w: Buf, heads: u32, dim: u32)
    requires
        0 < heads,
        0 < dim,
    ensures
        ({
            let (m, k) = (run(c, m0, s), run(c, m0, rmsnorm_heads(s, x, w, heads as u64, dim)));
            &&& only(m, k, x, x, x)
            &&& row(k, x, 0, heads * dim) == heads_normed(w, row(m, x, 0, heads * dim), dim as int)
        }),
{
    reveal(nth);
    lemma_rmsnorm_heads(c, m0, s, x, w, 1, heads, dim, 0);
    let (m, k) = (run(c, m0, s), run(c, m0, rmsnorm_heads(s, x, w, heads as u64, dim)));
    assert(nth(k, x, 0, heads * dim, 0) == heads_normed(w, nth(m, x, 0, heads * dim, 0), dim as int));
}

pub proof fn lemma_cache_heads_one(c: Ctx, m0: Mem, s: Seq<CmdView>, x: Buf, off: u64, w: Buf, heads: u32, dim: u32)
    requires
        0 < heads,
        0 < dim,
    ensures
        ({
            let (m, k) = (run(c, m0, s), run(c, m0, rmsnorm_cache(s, x, off, w, heads as u64, dim)));
            let a = off as int / width_of(x);
            &&& only(m, k, x, x, x)
            &&& within(m, k, x, a, heads * dim)
            &&& row(k, x, a, heads * dim) == heads_normed(w, row(m, x, a, heads * dim), dim as int)
        }),
{
    reveal(nth);
    lemma_rmsnorm_cache(c, m0, s, x, off, w, 1, heads, dim, 0);
    let (m, k) = (run(c, m0, s), run(c, m0, rmsnorm_cache(s, x, off, w, heads as u64, dim)));
    let a = off as int / width_of(x);
    assert(nth(k, x, a, heads * dim, 0) == heads_normed(w, nth(m, x, a, heads * dim, 0), dim as int));
}

pub proof fn lemma_rope_qk_one(c: Ctx, m0: Mem, s: Seq<CmdView>, g: Geo, q: Buf, kc: Buf, off: u64, pos: u32)
    requires
        q != kc,
        g.ok(),
    ensures
        ({
            let (m, k) = (run(c, m0, s), run(c, m0, rope_qk(s, g, q, kc, off, pos)));
            let (a, d, p, t) = (off as int / width_of(kc), g.head_dim as int, pos as int, g.rot_dim as int);
            &&& only(m, k, q, kc, kc)
            &&& within(m, k, kc, a, g.kv_heads * g.head_dim)
            &&& row(k, q, 0, g.heads * g.head_dim) == turned(row(m, q, 0, g.heads * g.head_dim), d, t, p)
            &&& row(k, kc, a, g.kv_heads * g.head_dim) == turned(row(m, kc, a, g.kv_heads * g.head_dim), d, t, p)
        }),
{
    reveal(nth);
    let (m, k) = (run(c, m0, s), run(c, m0, rope_qk(s, g, q, kc, off, pos)));
    let (a, d, p, t) = (off as int / width_of(kc), g.head_dim as int, pos as int, g.rot_dim as int);
    let (h, kh) = (g.heads as int, g.kv_heads as int);
    let m1 = turn(m, q, 0, 1, h, d, t, p);
    assert(k == turn(m1, kc, a, 1, kh, d, t, p)) by {
        reveal(step);
        lemma_run_push(c, m0, s, rope_qk(s, g, q, kc, off, pos).last());
        lemma_div_up((g.heads + g.kv_heads) * g.rot_dim / 2, 256);
    }
    lemma_rope_qk(c, m0, s, g, q, kc, off, pos, 0);
    lemma_turn_row(m, q, 0, 1, h, d, t, p, 0);
    lemma_turn_row(m1, kc, a, 1, kh, d, t, p, 0);
    let (wq, wk) = (h * d, kh * d);
    assert(0 * wq == 0 && 0 * wk == 0 && 1 * wk == wk);
    lemma_put(
        m,
        q,
        0,
        1 * (h * d),
        |i: int| Term::Rotated(p + i / d / h, t, row(m, q, 0 + i / d * d, d), i % d),
    );
    lemma_put(
        m1,
        kc,
        a,
        1 * (kh * d),
        |i: int| Term::Rotated(p + i / d / kh, t, row(m1, kc, a + i / d * d, d), i % d),
    );
}

// ---------- the launches of quantized steps ----------

pub proof fn lemma_mark(c: Ctx, m: Mem, s: Seq<CmdView>, p: Phase, n: u32)
    ensures
        run(c, m, s.push(CmdView::Mark(p, n))) == run(c, m, s),
{
    lemma_run_push(c, m, s, CmdView::Mark(p, n));
}

pub proof fn lemma_rope(c: Ctx, m0: Mem, s: Seq<CmdView>, g: Geo, x: Buf, heads: u32, pos0: u32, n: u32, rot: u32, r: int)
    requires
        0 < heads,
        0 < g.head_dim,
        0 <= r < n,
    ensures
        ({
            let (m, k) = (run(c, m0, s), run(c, m0, rope(s, g, x, heads, pos0, n, rot)));
            let (w, d) = (heads * g.head_dim, g.head_dim as int);
            &&& only(m, k, x, x, x)
            &&& nth(k, x, 0, w, r) == turned(nth(m, x, 0, w, r), d, rot as int, pos0 + r)
        }),
{
    reveal(nth);
    let (m, k) = (run(c, m0, s), run(c, m0, rope(s, g, x, heads, pos0, n, rot)));
    let (d, h) = (g.head_dim as int, heads as int);
    assert(k == turn(m, x, 0, n as int, h, d, rot as int, pos0 as int)) by {
        reveal(step);
        lemma_run_push(c, m0, s, rope(s, g, x, heads, pos0, n, rot).last());
        lemma_div_up(n * heads * rot / 2, 256);
    }
    lemma_turn_leaves(m, x, 0, n as int, h, d, rot as int, pos0 as int);
    lemma_turn_row(m, x, 0, n as int, h, d, rot as int, pos0 as int, r);
}

proof fn lemma_turn_leaves(m: Mem, x: Buf, xa: int, n: int, heads: int, dim: int, rot: int, pos0: int)
    ensures
        only(m, turn(m, x, xa, n, heads, dim, rot, pos0), x, x, x),
        within(m, turn(m, x, xa, n, heads, dim, rot, pos0), x, xa, n * (heads * dim)),
{
    reveal(nth);
    lemma_put(
        m,
        x,
        xa,
        n * (heads * dim),
        |i: int| Term::Rotated(pos0 + i / dim / heads, rot, row(m, x, xa + i / dim * dim, dim), i % dim),
    );
}

pub proof fn lemma_rope_cache(
    c: Ctx,
    m0: Mem,
    s: Seq<CmdView>,
    g: Geo,
    x: Buf,
    off: u64,
    heads: u32,
    pos0: u32,
    n: u32,
    rot: u32,
    span: u32,
    r: int,
)
    requires
        0 < heads,
        0 < g.head_dim,
        rot <= span,
        0 <= r < n,
    ensures
        ({
            let (m, k) = (run(c, m0, s), run(c, m0, rope_cache(s, g, x, off, heads, pos0, n, rot, span)));
            let (w, d, a) = (heads * g.head_dim, g.head_dim as int, off as int / width_of(x));
            &&& only(m, k, x, x, x)
            &&& within(m, k, x, a, n * w)
            &&& nth(k, x, a, w, r) == turned(nth(m, x, a, w, r), d, rot as int, pos0 + r)
        }),
{
    reveal(nth);
    let (m, k) = (run(c, m0, s), run(c, m0, rope_cache(s, g, x, off, heads, pos0, n, rot, span)));
    let (d, h, a) = (g.head_dim as int, heads as int, off as int / width_of(x));
    assert(k == turn(m, x, a, n as int, h, d, rot as int, pos0 as int)) by {
        reveal(step);
        lemma_run_push(c, m0, s, rope_cache(s, g, x, off, heads, pos0, n, rot, span).last());
        lemma_div_up(n * heads * span / 2, 256);
        assert(n * heads * rot <= n * heads * span) by (nonlinear_arith)
            requires
                rot <= span,
                0 <= n,
                0 <= heads,
        ;
    }
    lemma_turn_leaves(m, x, a, n as int, h, d, rot as int, pos0 as int);
    lemma_turn_row(m, x, a, n as int, h, d, rot as int, pos0 as int, r);
}

pub proof fn lemma_silu_mul(c: Ctx, m0: Mem, s: Seq<CmdView>, a: Buf, b: Buf, n: u32, w: u32, r: int)
    requires
        n * w <= u32::MAX,
        0 <= r < n,
    ensures
        ({
            let (m, k, d) = (run(c, m0, s), run(c, m0, silu_mul(s, a, b, (n * w) as u64)), w as int);
            &&& only(m, k, a, a, a)
            &&& nth(k, a, 0, d, r) == gated(nth(m, a, 0, d, r), nth(m, b, 0, d, r))
        }),
{
    reveal(nth);
    let (m, k) = (run(c, m0, s), run(c, m0, silu_mul(s, a, b, (n * w) as u64)));
    let d = w as int;
    let f = |i: int| Term::Gated(Box::new(m(a, 0 + i)), Box::new(m(b, 0 + i)));
    assert(k == put(m, a, 0, n * d, f)) by {
        reveal(step);
        assert(0 <= n * d) by (nonlinear_arith)
            requires
                0 <= n,
                0 <= d,
        ;
        lemma_run_push(c, m0, s, silu_mul(s, a, b, (n * w) as u64).last());
        lemma_div_up(n * d, 256);
    }
    lemma_put(m, a, 0, n * d, f);
    lemma_put_row(m, a, 0, n as int, d, f, r);
    assert(nth(k, a, 0, d, r) =~= gated(nth(m, a, 0, d, r), nth(m, b, 0, d, r)));
}

} // verus!
