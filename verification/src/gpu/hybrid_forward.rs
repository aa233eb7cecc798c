//! What a layer with a linear block computes, in a step of one row as in one of a
//! chunk.
use vstd::prelude::*;

use crate::gpu::delta_forward::{
    DeltaRows, conv_state, delta_done, delta_fits, delta_row, is_delta_scratch, lemma_delta_block_runs_row_by_row, rows_held,
    states_after,
};
use crate::gpu::dense::{Step, rows_fit};
use crate::gpu::forward::{Shape, caches_kept, feed_out, project, rows_of};
use crate::gpu::launches::{lemma_barrier, lemma_mark, lemma_rmsnorm_one, normed, nth, summed};
use crate::gpu::linear_block::{DeltaGeo, delta_block};
use crate::gpu::meaning::{Ctx, Mem, Term, row, run};
use crate::gpu::ops::{Buf, CmdView, Geo, Kernel, NormId, Proj, with_barrier};
use crate::gpu::quant::{
    QuantBlock, QuantModel, decode_linear, marked_norm, prefill_linear, qmm, qmv, quant_decode_layer, quant_lin,
    quant_prefill_layer,
};
use crate::gpu::quant_forward::{
    fed_chunk, fed_one, lemma_add_residual, lemma_fed_chunk, lemma_fed_one, lemma_marked_norm, lemma_qmm, lemma_qmv,
    lemma_qmv_acc, quant_shape, types_known,
};
use crate::gpu::timing::Phase;

verus! {

/// What the linear block of layer `l` starts from, given the rows that enter the
/// layer.
pub open spec fn linear_rows(c: Ctx, m: Mem, d: DeltaGeo, l: usize, xs: Seq<Seq<Term>>) -> DeltaRows {
    let w = Buf::Norm(l, NormId::Input);
    DeltaRows {
        conv: m(Buf::ConvState(l), 0),
        states: row(m, Buf::DeltaState(l), 0, d.n_v_heads as int),
        us: Seq::new(xs.len(), |t: int| project(c, l, Proj::DnQkv, normed(w, xs[t]), d.channels as int)),
        zs: Seq::new(xs.len(), |t: int| project(c, l, Proj::DnZ, normed(w, xs[t]), d.inner as int)),
        als: Seq::new(xs.len(), |t: int| project(c, l, Proj::DnAlpha, normed(w, xs[t]), d.n_v_heads as int)),
        bes: Seq::new(xs.len(), |t: int| project(c, l, Proj::DnBeta, normed(w, xs[t]), d.n_v_heads as int)),
    }
}

/// A row through the layer: what the linear block gives back is added to it, and
/// then the feed-forward part.
pub open spec fn linear_out(c: Ctx, h: Shape, d: DeltaGeo, l: usize, x: DeltaRows, xs: Seq<Seq<Term>>, t: int) -> Seq<Term> {
    feed_out(c, h, l, summed(xs[t], project(c, l, Proj::DnOut, delta_row(l, d, x, t), h.hidden)))
}

/// The rows went through the layer, and both its states past all of them.
pub open spec fn linear_done(c: Ctx, m: Mem, e: Mem, g: Geo, d: DeltaGeo, l: usize, n: int) -> bool {
    let (hid, h) = (g.hidden as int, quant_shape(g, false));
    let xs = rows_of(m, Buf::X, hid, n);
    let x = linear_rows(c, m, d, l, xs);
    &&& forall|t: int| 0 <= t < n ==> #[trigger] nth(e, Buf::X, 0, hid, t) == linear_out(c, h, d, l, x, xs, t)
    &&& row(e, Buf::DeltaState(l), 0, d.n_v_heads as int) == states_after(l, d, x, n as nat)
    &&& e(Buf::ConvState(l), 0) == conv_state(x.conv, x.us, n as nat)
    &&& caches_kept(m, e)
}

/// The states of the linear blocks.
spec fn states_kept(m: Mem, e: Mem, l: usize) -> bool {
    &&& forall|a: int, w: int| #[trigger] row(e, Buf::DeltaState(l), a, w) == row(m, Buf::DeltaState(l), a, w)
    &&& forall|a: int, w: int| #[trigger] row(e, Buf::ConvState(l), a, w) == row(m, Buf::ConvState(l), a, w)
}

/// What the block wrote besides its output.
proof fn lemma_after_block(m: Mem, e: Mem, l: usize, d: DeltaGeo, n: int, hid: int)
    requires
        delta_done(m, e, l, d, n),
    ensures
        caches_kept(m, e),
        forall|t: int| #[trigger] nth(e, Buf::X, 0, hid, t) == nth(m, Buf::X, 0, hid, t),
{
    assert forall|b: Buf, a: int, w: int| !is_delta_scratch(b, l) implies #[trigger] row(e, b, a, w) == row(m, b, a, w) by {
        assert(row(e, b, a, w) =~= row(m, b, a, w));
    }
    reveal(nth);
}

/// A first number is the first of a row.
proof fn lemma_first(m: Mem, e: Mem, b: Buf)
    requires
        row(e, b, 0, 1) == row(m, b, 0, 1),
    ensures
        e(b, 0) == m(b, 0),
{
    assert(row(e, b, 0, 1)[0] == e(b, 0));
    assert(row(m, b, 0, 1)[0] == m(b, 0));
}

/// The projections of one row.
spec fn one_projected(s: Seq<CmdView>, g: Geo, d: DeltaGeo, l: usize, qkv: u32, z: u32, alpha: u32, beta: u32) -> Seq<CmdView> {
    let s = qmv(s, Kernel::QMatvec(qkv), qkv, quant_lin(g, d, l, Proj::DnQkv), Buf::Xn, Buf::DnQkv, 0);
    let s = qmv(s, Kernel::QMatvec(z), z, quant_lin(g, d, l, Proj::DnZ), Buf::Xn, Buf::DnZ, 0);
    let s = qmv(s, Kernel::QMatvec(alpha), alpha, quant_lin(g, d, l, Proj::DnAlpha), Buf::Xn, Buf::DnAlpha, 0);
    qmv(s, Kernel::QMatvec(beta), beta, quant_lin(g, d, l, Proj::DnBeta), Buf::Xn, Buf::DnBetaP, 0)
}

/// The projections of a chunk.
spec fn all_projected(s: Seq<CmdView>, g: Geo, d: DeltaGeo, l: usize, n: u32, qkv: u32, z: u32, alpha: u32, beta: u32) -> Seq<
    CmdView,
> {
    let s = qmm(s, qkv, quant_lin(g, d, l, Proj::DnQkv), Buf::Xn, 0, Buf::DnQkv, 0, n);
    let s = qmm(s, z, quant_lin(g, d, l, Proj::DnZ), Buf::Xn, 0, Buf::DnZ, 0, n);
    let s = qmm(s, alpha, quant_lin(g, d, l, Proj::DnAlpha), Buf::Xn, 0, Buf::DnAlpha, 0, n);
    let s = qmm(s, beta, quant_lin(g, d, l, Proj::DnBeta), Buf::Xn, 0, Buf::DnBetaP, 0, n);
    with_barrier(s, true, seq![Buf::DnQkv, Buf::DnZ, Buf::DnAlpha, Buf::DnBetaP])
}

/// Row `t` of the four projections.
spec fn is_projected(c: Ctx, e: Mem, d: DeltaGeo, l: usize, xn: Seq<Term>, t: int) -> bool {
    let (w, z, h) = (d.channels as int, d.inner as int, d.n_v_heads as int);
    &&& nth(e, Buf::DnQkv, 0, w, t) == project(c, l, Proj::DnQkv, xn, w)
    &&& nth(e, Buf::DnZ, 0, z, t) == project(c, l, Proj::DnZ, xn, z)
    &&& nth(e, Buf::DnAlpha, 0, h, t) == project(c, l, Proj::DnAlpha, xn, h)
    &&& nth(e, Buf::DnBetaP, 0, h, t) == project(c, l, Proj::DnBeta, xn, h)
}

/// The selectors of a linear block.
spec fn linear_types(c: Ctx, l: usize, qkv: u32, z: u32, alpha: u32, beta: u32) -> bool {
    &&& (c.selector)(Buf::Weight(l, Proj::DnQkv)) == qkv
    &&& (c.selector)(Buf::Weight(l, Proj::DnZ)) == z
    &&& (c.selector)(Buf::Weight(l, Proj::DnAlpha)) == alpha
    &&& (c.selector)(Buf::Weight(l, Proj::DnBeta)) == beta
}

proof fn lemma_one_projected(
    c: Ctx,
    m0: Mem,
    s: Seq<CmdView>,
    g: Geo,
    d: DeltaGeo,
    l: usize,
    qkv: u32,
    z: u32,
    alpha: u32,
    beta: u32,
    xn: Seq<Term>,
)
    requires
        linear_types(c, l, qkv, z, alpha, beta),
        row(run(c, m0, s), Buf::Xn, 0, g.hidden as int) == xn,
    ensures
        ({
            let (m, e) = (run(c, m0, s), run(c, m0, one_projected(s, g, d, l, qkv, z, alpha, beta)));
            &&& is_projected(c, e, d, l, xn, 0)
            &&& row(e, Buf::X, 0, g.hidden as int) == row(m, Buf::X, 0, g.hidden as int)
            &&& states_kept(m, e, l)
            &&& caches_kept(m, e)
        }),
{
    let (lq, lz, la, lb) = (
        quant_lin(g, d, l, Proj::DnQkv),
        quant_lin(g, d, l, Proj::DnZ),
        quant_lin(g, d, l, Proj::DnAlpha),
        quant_lin(g, d, l, Proj::DnBeta),
    );
    let s1 = qmv(s, Kernel::QMatvec(qkv), qkv, lq, Buf::Xn, Buf::DnQkv, 0);
    lemma_qmv(c, m0, s, Kernel::QMatvec(qkv), qkv, lq, Buf::Xn, Buf::DnQkv, 0);
    let s2 = qmv(s1, Kernel::QMatvec(z), z, lz, Buf::Xn, Buf::DnZ, 0);
    lemma_qmv(c, m0, s1, Kernel::QMatvec(z), z, lz, Buf::Xn, Buf::DnZ, 0);
    let s3 = qmv(s2, Kernel::QMatvec(alpha), alpha, la, Buf::Xn, Buf::DnAlpha, 0);
    lemma_qmv(c, m0, s2, Kernel::QMatvec(alpha), alpha, la, Buf::Xn, Buf::DnAlpha, 0);
    lemma_qmv(c, m0, s3, Kernel::QMatvec(beta), beta, lb, Buf::Xn, Buf::DnBetaP, 0);
    let e = run(c, m0, one_projected(s, g, d, l, qkv, z, alpha, beta));
    let (w, zz, h) = (d.channels as int, d.inner as int, d.n_v_heads as int);
    assert(row(e, Buf::DnQkv, 0, w) == project(c, l, Proj::DnQkv, xn, w));
    assert(row(e, Buf::DnZ, 0, zz) == project(c, l, Proj::DnZ, xn, zz));
    assert(row(e, Buf::DnAlpha, 0, h) == project(c, l, Proj::DnAlpha, xn, h));
    assert(row(e, Buf::DnBetaP, 0, h) == project(c, l, Proj::DnBeta, xn, h));
    reveal(nth);
}

proof fn lemma_all_projected(
    c: Ctx,
    m0: Mem,
    s: Seq<CmdView>,
    g: Geo,
    d: DeltaGeo,
    l: usize,
    n: u32,
    qkv: u32,
    z: u32,
    alpha: u32,
    beta: u32,
    xn: Seq<Term>,
    t: int,
)
    requires
        linear_types(c, l, qkv, z, alpha, beta),
        0 <= t < n,
        nth(run(c, m0, s), Buf::Xn, 0, g.hidden as int, t) == xn,
    ensures
        ({
            let (m, e) = (run(c, m0, s), run(c, m0, all_projected(s, g, d, l, n, qkv, z, alpha, beta)));
            &&& is_projected(c, e, d, l, xn, t)
            &&& nth(e, Buf::X, 0, g.hidden as int, t) == nth(m, Buf::X, 0, g.hidden as int, t)
            &&& states_kept(m, e, l)
            &&& caches_kept(m, e)
        }),
{
    let (lq, lz, la, lb) = (
        quant_lin(g, d, l, Proj::DnQkv),
        quant_lin(g, d, l, Proj::DnZ),
        quant_lin(g, d, l, Proj::DnAlpha),
        quant_lin(g, d, l, Proj::DnBeta),
    );
    let s1 = qmm(s, qkv, lq, Buf::Xn, 0, Buf::DnQkv, 0, n);
    lemma_qmm(c, m0, s, qkv, lq, Buf::Xn, 0, Buf::DnQkv, 0, n, t);
    let s2 = qmm(s1, z, lz, Buf::Xn, 0, Buf::DnZ, 0, n);
    lemma_qmm(c, m0, s1, z, lz, Buf::Xn, 0, Buf::DnZ, 0, n, t);
    let s3 = qmm(s2, alpha, la, Buf::Xn, 0, Buf::DnAlpha, 0, n);
    lemma_qmm(c, m0, s2, alpha, la, Buf::Xn, 0, Buf::DnAlpha, 0, n, t);
    let s4 = qmm(s3, beta, lb, Buf::Xn, 0, Buf::DnBetaP, 0, n);
    lemma_qmm(c, m0, s3, beta, lb, Buf::Xn, 0, Buf::DnBetaP, 0, n, t);
    lemma_barrier(c, m0, s4, true, seq![Buf::DnQkv, Buf::DnZ, Buf::DnAlpha, Buf::DnBetaP]);
    let (m1, m2, m3) = (run(c, m0, s1), run(c, m0, s2), run(c, m0, s3));
    let hid = g.hidden as int;
    assert(nth(m1, Buf::Xn, 0, hid, t) == xn);
    assert(nth(m2, Buf::Xn, 0, hid, t) == xn);
    assert(nth(m3, Buf::Xn, 0, hid, t) == xn);
}

/// The rows as the block finds them are those of the layer.
proof fn lemma_rows_found(c: Ctx, m: Mem, p: Mem, d: DeltaGeo, l: usize, xs: Seq<Seq<Term>>)
    requires
        states_kept(m, p, l),
        forall|t: int|
            0 <= t < xs.len() ==> #[trigger] is_projected(c, p, d, l, normed(Buf::Norm(l, NormId::Input), xs[t]), t),
    ensures
        rows_held(p, l, d, xs.len() as int) == linear_rows(c, m, d, l, xs),
{
    let n = xs.len() as int;
    let (a, b) = (rows_held(p, l, d, n), linear_rows(c, m, d, l, xs));
    lemma_first(m, p, Buf::ConvState(l));
    assert forall|t: int| 0 <= t < n implies a.us[t] == b.us[t] && a.zs[t] == b.zs[t] && a.als[t] == b.als[t] && a.bes[t]
        == b.bes[t] by {
        assert(is_projected(c, p, d, l, normed(Buf::Norm(l, NormId::Input), xs[t]), t));
    }
    assert(a.us =~= b.us);
    assert(a.zs =~= b.zs);
    assert(a.als =~= b.als);
    assert(a.bes =~= b.bes);
}

/// A linear layer of a fused decode step.
pub proof fn lemma_linear_decode_layer(c: Ctx, m0: Mem, s: Seq<CmdView>, md: QuantModel, b: QuantBlock, l: usize, pos: u32)
    requires
        b.attn is Linear,
        md.delta is Some,
        types_known(c, l, b),
        delta_fits(md.delta->Some_0, 1),
    ensures
        linear_done(
            c,
            run(c, m0, s),
            run(c, m0, quant_decode_layer(s, md.geo, md.delta, b, l, pos)),
            md.geo,
            md.delta->Some_0,
            l,
            1,
        ),
{
    let (g, d) = (md.geo, md.delta->Some_0);
    let (qkv, z, alpha, beta, out) = (b.attn->qkv, b.attn->z, b.attn->alpha, b.attn->beta, b.attn->out);
    let (hid, h) = (g.hidden as int, quant_shape(g, false));
    let m = run(c, m0, s);
    let xs = rows_of(m, Buf::X, hid, 1);
    let x = linear_rows(c, m, d, l, xs);
    assert(xs[0] == row(m, Buf::X, 0, hid)) by {
        reveal(nth);
    }
    let t0 = s.push(CmdView::Mark(Phase::Norm, 1));
    lemma_mark(c, m0, s, Phase::Norm, 1);
    let s1 = marked_norm(s, g, Buf::Norm(l, NormId::Input), 1);
    lemma_rmsnorm_one(c, m0, t0, g, Buf::X, Buf::Norm(l, NormId::Input), Buf::Xn);
    let xn = normed(Buf::Norm(l, NormId::Input), xs[0]);
    let s2 = one_projected(s1, g, d, l, qkv, z, alpha, beta);
    lemma_one_projected(c, m0, s1, g, d, l, qkv, z, alpha, beta, xn);
    let m2 = run(c, m0, s2);
    assert(states_kept(m, m2, l));
    lemma_rows_found(c, m, m2, d, l, xs);
    let t2 = s2.push(CmdView::Mark(Phase::Delta, 6));
    lemma_mark(c, m0, s2, Phase::Delta, 6);
    let s3 = delta_block(t2, d, l, 1, false);
    lemma_delta_block_runs_row_by_row(c, m0, t2, d, l, 1, false);
    let m3 = run(c, m0, s3);
    lemma_after_block(m2, m3, l, d, 1, hid);
    assert(nth(m3, Buf::DnOut, 0, d.inner as int, 0) == delta_row(l, d, x, 0));
    assert(row(m3, Buf::DnOut, 0, d.inner as int) == delta_row(l, d, x, 0)) by {
        reveal(nth);
    }
    assert(row(m3, Buf::X, 0, hid) == xs[0]) by {
        assert(nth(m3, Buf::X, 0, hid, 0) == nth(m2, Buf::X, 0, hid, 0));
        reveal(nth);
    }
    let lo = quant_lin(g, d, l, Proj::DnOut);
    let s4 = qmv(s3, Kernel::QMatvecAcc(out), out, lo, Buf::DnOut, Buf::X, 0);
    lemma_qmv_acc(c, m0, s3, Kernel::QMatvecAcc(out), out, lo, Buf::DnOut, Buf::X);
    assert(s4 == decode_linear(s1, g, d, l, qkv, z, alpha, beta, out));
    let m4 = run(c, m0, s4);
    assert(row(m4, Buf::X, 0, hid) == summed(xs[0], project(c, l, Proj::DnOut, delta_row(l, d, x, 0), hid)));
    let s5 = fed_one(s4, g, b, l);
    lemma_fed_one(c, m0, s4, g, b, l, h);
    assert(s5 == quant_decode_layer(s, g, md.delta, b, l, pos));
    let e = run(c, m0, s5);
    assert(states_kept(m3, e, l));
    lemma_first(m3, e, Buf::ConvState(l));
    assert forall|t: int| 0 <= t < 1 implies #[trigger] nth(e, Buf::X, 0, hid, t) == linear_out(c, h, d, l, x, xs, t) by {
        assert(nth(e, Buf::X, 0, hid, 0) == row(e, Buf::X, 0, hid)) by {
            reveal(nth);
        }
    }
}

/// A linear layer of a prefill step.
pub proof fn lemma_linear_prefill_layer(c: Ctx, m0: Mem, s: Seq<CmdView>, md: QuantModel, b: QuantBlock, l: usize, st: Step)
    requires
        b.attn is Linear,
        md.delta is Some,
        types_known(c, l, b),
        rows_fit(md.geo, st),
        delta_fits(md.delta->Some_0, st.n as int),
    ensures
        linear_done(
            c,
            run(c, m0, s),
            run(c, m0, quant_prefill_layer(s, md.geo, md.delta, b, l, st.pos0, st.n)),
            md.geo,
            md.delta->Some_0,
            l,
            st.n as int,
        ),
{
    let (g, d, n) = (md.geo, md.delta->Some_0, st.n);
    let (qkv, z, alpha, beta, out) = (b.attn->qkv, b.attn->z, b.attn->alpha, b.attn->beta, b.attn->out);
    let (hid, h, inner) = (g.hidden as int, quant_shape(g, false), d.inner as int);
    let w = Buf::Norm(l, NormId::Input);
    let m = run(c, m0, s);
    let xs = rows_of(m, Buf::X, hid, n as int);
    let x = linear_rows(c, m, d, l, xs);
    let s1 = with_barrier(marked_norm(s, g, w, n), true, seq![Buf::Xn]);
    let s2 = all_projected(s1, g, d, l, n, qkv, z, alpha, beta);
    let (m1, m2) = (run(c, m0, s1), run(c, m0, s2));
    lemma_marked_norm(c, m0, s, g, w, n, true, 0);
    lemma_all_projected(c, m0, s1, g, d, l, n, qkv, z, alpha, beta, normed(w, xs[0]), 0);
    assert forall|t: int| 0 <= t < n implies #[trigger] is_projected(c, m2, d, l, normed(w, xs[t]), t) by {
        lemma_marked_norm(c, m0, s, g, w, n, true, t);
        lemma_all_projected(c, m0, s1, g, d, l, n, qkv, z, alpha, beta, normed(w, xs[t]), t);
    }
    assert(states_kept(m, m2, l));
    lemma_rows_found(c, m, m2, d, l, xs);
    let t2 = s2.push(CmdView::Mark(Phase::Delta, (6 * n) as u32));
    lemma_mark(c, m0, s2, Phase::Delta, (6 * n) as u32);
    let u3 = delta_block(t2, d, l, n, true);
    lemma_delta_block_runs_row_by_row(c, m0, t2, d, l, n, true);
    let s3 = with_barrier(u3, true, seq![Buf::DnOut]);
    lemma_barrier(c, m0, u3, true, seq![Buf::DnOut]);
    let m3 = run(c, m0, s3);
    lemma_after_block(m2, m3, l, d, n as int, hid);
    let lo = quant_lin(g, d, l, Proj::DnOut);
    let s4 = qmm(s3, out, lo, Buf::DnOut, 0, Buf::Xb, 0, n);
    let s5 = crate::gpu::quant::add_residual(s4, g, n);
    assert(s5 == prefill_linear(s1, g, d, l, n, qkv, z, alpha, beta, out));
    let s6 = fed_chunk(s5, g, b, l, n);
    assert(s6 == quant_prefill_layer(s, g, md.delta, b, l, st.pos0, n));
    let (m4, m5, e) = (run(c, m0, s4), run(c, m0, s5), run(c, m0, s6));
    assert forall|t: int| 0 <= t < n implies #[trigger] nth(e, Buf::X, 0, hid, t) == linear_out(c, h, d, l, x, xs, t) by {
        lemma_marked_norm(c, m0, s, g, w, n, true, t);
        lemma_all_projected(c, m0, s1, g, d, l, n, qkv, z, alpha, beta, normed(w, xs[t]), t);
        assert(nth(m3, Buf::X, 0, hid, t) == xs[t]);
        assert(nth(m3, Buf::DnOut, 0, inner, t) == delta_row(l, d, x, t));
        lemma_qmm(c, m0, s3, out, lo, Buf::DnOut, 0, Buf::Xb, 0, n, t);
        assert(nth(m4, Buf::Xb, 0, hid, t) == project(c, l, Proj::DnOut, delta_row(l, d, x, t), hid));
        lemma_add_residual(c, m0, s4, g, n, t);
        lemma_fed_chunk(c, m0, s5, g, b, l, n, h, t);
    }
    lemma_qmm(c, m0, s3, out, lo, Buf::DnOut, 0, Buf::Xb, 0, n, 0);
    lemma_add_residual(c, m0, s4, g, n, 0);
    lemma_fed_chunk(c, m0, s5, g, b, l, n, h, 0);
    assert(states_kept(m3, e, l));
    lemma_first(m3, e, Buf::ConvState(l));
}

} // verus!
