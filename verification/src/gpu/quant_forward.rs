//! What a step over quantized weights computes: full-attention blocks go through
//! the same transformer as dense ones, with an output that the query may open.
use vstd::prelude::*;

use crate::gpu::dense::{Step, chunk_rows, lin_of, rows_fit, v_base};
use crate::gpu::encode::{
    Lin, add_inplace, attention, attention_decode, rmsnorm_cache, rmsnorm_heads, rope, rope_cache, rope_qk, silu_mul,
    to_half,
};
use crate::gpu::forward::{
    Shape, attention_out, cached, caches_kept, feed_out, hidden_rows, key_of, keys_upto, layer_done, lemma_cached_now,
    lemma_cached_stays, lemma_kept_both, lemma_kept_rows, lemma_rows_out_same, lemma_shift, lemma_table, opened,
    others_kept, part, project, query_both, query_of, rows_of, rows_out, value_of, values_upto,
};
use crate::gpu::launches::{
    attended, gated, heads_normed, lemma_add, lemma_attention, lemma_attention_decode, lemma_barrier, lemma_cache_heads_one,
    lemma_div_up, lemma_heads_one, lemma_mark, lemma_matvec, lemma_matvec_acc, lemma_put_row, lemma_qmatmul, lemma_rmsnorm,
    lemma_rmsnorm_heads, lemma_rmsnorm_one, lemma_rope, lemma_rope_cache, lemma_rope_qk_one, lemma_silu_mul, lemma_to_half,
    normed, nth, only, passed, rows_passed, seen, summed, turned, weight, within,
};
use crate::gpu::meaning::{
    Attention, Ctx, Mem, Term, lemma_inside, lemma_place, lemma_put, lemma_run_push, put, row, run, step, width_of,
};
use crate::gpu::ops::{Buf, CmdView, Geo, Kernel, NormId, Params, Proj, Slot, per_element, with_barrier};
use crate::gpu::quant::{
    QuantAttn, QuantBlock, QuantModel, add_residual, apply_gate, chunk_spans, decode_full, gate_count, joint, marked_norm,
    prefill_full, qmm, qmv, quant_decode_layer, quant_head, quant_layer, quant_layers, quant_prefill_layer,
    quant_stage_span, quant_stage_spans, quant_step, query_buf, role_of, split_gate,
};
use crate::gpu::timing::Phase;
use crate::gpu::window::Span;

verus! {

/// The shape of a full-attention block.
pub open spec fn quant_shape(g: Geo, qk_norm: bool) -> Shape {
    Shape {
        heads: g.heads as int,
        kv_heads: g.kv_heads as int,
        head_dim: g.head_dim as int,
        rot: g.rot_dim as int,
        hidden: g.hidden as int,
        inter: g.inter as int,
        qk_norm,
        joint: joint(g),
    }
}

/// The weights of a layer are read by the selectors that its block states.
pub open spec fn types_known(c: Ctx, l: usize, b: QuantBlock) -> bool {
    &&& (c.selector)(Buf::Weight(l, Proj::Gate)) == b.gate
    &&& (c.selector)(Buf::Weight(l, Proj::Up)) == b.up
    &&& (c.selector)(Buf::Weight(l, Proj::Down)) == b.down
    &&& match b.attn {
        QuantAttn::Full { q, k, v, o, .. } => attn_types(c, l, q, k, v, o),
        QuantAttn::Linear { qkv, z, alpha, beta, out } => {
            &&& (c.selector)(Buf::Weight(l, Proj::DnQkv)) == qkv
            &&& (c.selector)(Buf::Weight(l, Proj::DnZ)) == z
            &&& (c.selector)(Buf::Weight(l, Proj::DnAlpha)) == alpha
            &&& (c.selector)(Buf::Weight(l, Proj::DnBeta)) == beta
            &&& (c.selector)(Buf::Weight(l, Proj::DnOut)) == out
        },
    }
}

pub open spec fn attn_types(c: Ctx, l: usize, q: u32, k: u32, v: u32, o: u32) -> bool {
    &&& (c.selector)(Buf::Weight(l, Proj::Q)) == q
    &&& (c.selector)(Buf::Weight(l, Proj::K)) == k
    &&& (c.selector)(Buf::Weight(l, Proj::V)) == v
    &&& (c.selector)(Buf::Weight(l, Proj::O)) == o
}

pub open spec fn quant_geo(g: Geo) -> bool {
    g.ok() && g.win is None
}

// ---------- launches with their marks ----------

pub proof fn lemma_qmv(c: Ctx, m0: Mem, s: Seq<CmdView>, kernel: Kernel, sel: u32, l: Lin, x: Buf, y: Buf, y_off: u64)
    requires
        kernel == Kernel::QMatvec(sel) || kernel == Kernel::QMatvecH(sel),
        (c.selector)(weight(l)) == sel,
    ensures
        ({
            let (m, k) = (run(c, m0, s), run(c, m0, qmv(s, kernel, sel, l, x, y, y_off)));
            let ya = y_off as int / width_of(y);
            &&& only(m, k, y, y, y)
            &&& within(m, k, y, ya, l.out_dim as int)
            &&& row(k, y, ya, l.out_dim as int) == passed(c, l, row(m, x, 0, l.in_dim as int))
        }),
{
    let t = s.push(CmdView::Mark(Phase::Mm(role_of(l.proj), sel), 1));
    lemma_mark(c, m0, s, Phase::Mm(role_of(l.proj), sel), 1);
    lemma_matvec(c, m0, t, kernel, l, x, 0, y, y_off);
}

pub proof fn lemma_qmv_acc(c: Ctx, m0: Mem, s: Seq<CmdView>, kernel: Kernel, sel: u32, l: Lin, x: Buf, y: Buf)
    requires
        kernel == Kernel::QMatvecAcc(sel),
        (c.selector)(weight(l)) == sel,
    ensures
        ({
            let (m, k) = (run(c, m0, s), run(c, m0, qmv(s, kernel, sel, l, x, y, 0)));
            let o = l.out_dim as int;
            &&& only(m, k, y, y, y)
            &&& row(k, y, 0, o) == summed(row(m, y, 0, o), passed(c, l, row(m, x, 0, l.in_dim as int)))
        }),
{
    let t = s.push(CmdView::Mark(Phase::Mm(role_of(l.proj), sel), 1));
    lemma_mark(c, m0, s, Phase::Mm(role_of(l.proj), sel), 1);
    lemma_matvec_acc(c, m0, t, kernel, l, x, y);
}

pub proof fn lemma_qmm(c: Ctx, m0: Mem, s: Seq<CmdView>, sel: u32, l: Lin, x: Buf, x_off: u64, y: Buf, y_off: u64, n: u32, r: int)
    requires
        (c.selector)(weight(l)) == sel,
    ensures
        rows_passed(
            c,
            run(c, m0, s),
            run(c, m0, qmm(s, sel, l, x, x_off, y, y_off, n)),
            l,
            x,
            x_off as int / width_of(x),
            y,
            y_off as int / width_of(y),
            n as int,
            r,
        ),
{
    let t = s.push(CmdView::Mark(Phase::Mm(role_of(l.proj), sel), 1));
    lemma_mark(c, m0, s, Phase::Mm(role_of(l.proj), sel), 1);
    lemma_qmatmul(c, m0, t, sel, l, x, x_off, y, y_off, n, r);
}

/// Both parts of a joint projection; nothing where there is one.
pub proof fn lemma_split_gate(c: Ctx, m0: Mem, s: Seq<CmdView>, g: Geo, n: u32, conc: bool, r: int)
    requires
        g.ok(),
        0 <= r < n,
    ensures
        ({
            let (m, k) = (run(c, m0, s), run(c, m0, split_gate(s, g, n, conc)));
            let w = g.q_dim as int;
            &&& !joint(g) ==> k == m
            &&& only(m, k, Buf::QSplit, Buf::QGate, Buf::QGate)
            &&& joint(g) ==> nth(k, Buf::QSplit, 0, w, r) == part(true, nth(m, Buf::Q, 0, 2 * w, r), w)
            &&& joint(g) ==> nth(k, Buf::QGate, 0, w, r) == part(false, nth(m, Buf::Q, 0, 2 * w, r), w)
        }),
{
    let m = run(c, m0, s);
    let k = run(c, m0, split_gate(s, g, n, conc));
    let w = g.q_dim as int;
    lemma_mark(c, m0, s, Phase::Attn, gate_count(g));
    let s1 = s.push(CmdView::Mark(Phase::Attn, gate_count(g)));
    if joint(g) {
        lemma_barrier(c, m0, s1, conc, seq![Buf::QSplit, Buf::QGate]);
        let s2 = with_barrier(s1, conc, seq![Buf::QSplit, Buf::QGate]);
        let d = per_element(
            Kernel::SplitQGate,
            seq![
                Slot::Buf(Buf::Q, 0),
                Slot::Buf(Buf::QSplit, 0),
                Slot::Buf(Buf::QGate, 0),
                Slot::Params(
                    Params::QGSplit { head_dim: g.head_dim, n_heads: g.heads, n_rows: n },
                ),
            ],
            n * g.q_dim,
        );
        let s3 = s2.push(CmdView::Run(d));
        lemma_barrier(c, m0, s3, conc, seq![Buf::QSplit, Buf::QGate]);
        let f = |i: int| Term::Part(true, row(m, Buf::Q, 0 + i / w * (2 * w), 2 * w), i % w);
        let h = |i: int| Term::Part(false, row(m, Buf::Q, 0 + i / w * (2 * w), 2 * w), i % w);
        let m1 = put(m, Buf::QSplit, 0, n * w, f);
        assert(g.q_dim == g.heads * g.head_dim);
        assert(k == put(m1, Buf::QGate, 0, n * w, h)) by {
            reveal(step);
            lemma_run_push(c, m0, s2, CmdView::Run(d));
            lemma_div_up(n * w, 256);
        }
        reveal(nth);
        lemma_put(m, Buf::QSplit, 0, n * w, f);
        lemma_put(m1, Buf::QGate, 0, n * w, h);
        lemma_put_row(m, Buf::QSplit, 0, n as int, w, f, r);
        lemma_put_row(m1, Buf::QGate, 0, n as int, w, h, r);
        let (a, b) = (part(true, nth(m, Buf::Q, 0, 2 * w, r), w), part(false, nth(m, Buf::Q, 0, 2 * w, r), w));
        assert forall|i: int| 0 <= i < w implies f(r * w + i) == #[trigger] a[i] by {
            lemma_place(r, w, i);
        }
        assert forall|i: int| 0 <= i < w implies h(r * w + i) == #[trigger] b[i] by {
            lemma_place(r, w, i);
        }
        assert(Seq::new(w as nat, |i: int| f(r * w + i)) =~= a);
        assert(Seq::new(w as nat, |i: int| h(r * w + i)) =~= b);
    }
}

/// The output opened, where the query says how far.
pub proof fn lemma_apply_gate(c: Ctx, m0: Mem, s: Seq<CmdView>, g: Geo, n: u32, conc: bool, r: int)
    requires
        g.ok(),
        0 <= r < n,
        n * g.q_dim <= u32::MAX,
    ensures
        ({
            let (m, k) = (run(c, m0, s), run(c, m0, apply_gate(s, g, n, conc)));
            let w = g.q_dim as int;
            &&& !joint(g) ==> k == m
            &&& only(m, k, Buf::Att, Buf::Att, Buf::Att)
            &&& joint(g) ==> nth(k, Buf::Att, 0, w, r) == opened(nth(m, Buf::Att, 0, w, r), nth(m, Buf::QGate, 0, w, r))
        }),
{
    let m = run(c, m0, s);
    let k = run(c, m0, apply_gate(s, g, n, conc));
    let w = g.q_dim as int;
    lemma_mark(c, m0, s, Phase::Attn, gate_count(g));
    let s1 = s.push(CmdView::Mark(Phase::Attn, gate_count(g)));
    if joint(g) {
        let d = per_element(
            Kernel::AttnOutGate,
            seq![
                Slot::Buf(Buf::Att, 0),
                Slot::Buf(Buf::QGate, 0),
                Slot::U32((n * g.q_dim) as u32),
            ],
            n * g.q_dim,
        );
        let s2 = s1.push(CmdView::Run(d));
        lemma_barrier(c, m0, s2, conc, seq![Buf::Att]);
        let f = |i: int| Term::Opened(Box::new(m(Buf::Att, 0 + i)), Box::new(m(Buf::QGate, 0 + i)));
        assert(k == put(m, Buf::Att, 0, n * w, f)) by {
            reveal(step);
            lemma_run_push(c, m0, s1, CmdView::Run(d));
            lemma_div_up(n * w, 256);
            assert(0 <= n * w) by (nonlinear_arith)
                requires
                    0 <= n,
                    0 <= w,
            ;
        }
        reveal(nth);
        lemma_put(m, Buf::Att, 0, n * w, f);
        lemma_put_row(m, Buf::Att, 0, n as int, w, f, r);
        assert(nth(k, Buf::Att, 0, w, r) =~= opened(nth(m, Buf::Att, 0, w, r), nth(m, Buf::QGate, 0, w, r)));
    }
}

// ---------- a fused decode layer ----------

/// Up to the rotation: the query, and the new key and value in the cache.
pub open spec fn full_qkv(s: Seq<CmdView>, g: Geo, l: usize, off: u64, pos: u32, q: u32, k: u32, v: u32, qk_norm: bool) -> Seq<CmdView> {
    let qb = query_buf(g);
    let s = qmv(s, Kernel::QMatvec(q), q, lin_of(g, l, Proj::Q, false), Buf::Xn, Buf::Q, 0);
    let s = split_gate(s, g, 1, false);
    let s = qmv(s, Kernel::QMatvecH(k), k, lin_of(g, l, Proj::K, false), Buf::Xn, Buf::KCache(l), off);
    let s = qmv(s, Kernel::QMatvecH(v), v, lin_of(g, l, Proj::V, false), Buf::Xn, Buf::VCache(l), off);
    let s = if qk_norm {
        let s = s.push(CmdView::Mark(Phase::Norm, 1));
        let s = rmsnorm_heads(s, qb, Buf::Norm(l, NormId::QHead), g.heads as u64, g.head_dim);
        let s = s.push(CmdView::Mark(Phase::Norm, 1));
        rmsnorm_cache(s, Buf::KCache(l), off, Buf::Norm(l, NormId::KHead), g.kv_heads as u64, g.head_dim)
    } else {
        s
    };
    rope_qk(s.push(CmdView::Mark(Phase::Rope, 1)), g, qb, Buf::KCache(l), off, pos)
}

pub(crate) proof fn lemma_full_qkv(
    c: Ctx,
    m0: Mem,
    s: Seq<CmdView>,
    g: Geo,
    l: usize,
    off: u64,
    pos: u32,
    q: u32,
    k: u32,
    v: u32,
    qk_norm: bool,
    x: Seq<Term>,
)
    requires
        g.ok(),
        (c.selector)(Buf::Weight(l, Proj::Q)) == q,
        (c.selector)(Buf::Weight(l, Proj::K)) == k,
        (c.selector)(Buf::Weight(l, Proj::V)) == v,
        row(run(c, m0, s), Buf::Xn, 0, g.hidden as int) == normed(Buf::Norm(l, NormId::Input), x),
    ensures
        ({
            let (m, e) = (run(c, m0, s), run(c, m0, full_qkv(s, g, l, off, pos, q, k, v, qk_norm)));
            let h = quant_shape(g, qk_norm);
            let (a, w, qd) = (off as int / 2, g.kv_dim as int, g.q_dim as int);
            &&& row(e, query_buf(g), 0, qd) == query_of(c, h, l, x, pos as int)
            &&& joint(g) ==> row(e, Buf::QGate, 0, qd) == part(false, query_both(c, h, l, x), qd)
            &&& row(e, Buf::KCache(l), a, w) == key_of(c, h, l, x, pos as int)
            &&& row(e, Buf::VCache(l), a, w) == value_of(c, h, l, x)
            &&& within(m, e, Buf::KCache(l), a, w)
            &&& within(m, e, Buf::VCache(l), a, w)
            &&& row(e, Buf::X, 0, g.hidden as int) == row(m, Buf::X, 0, g.hidden as int)
            &&& others_kept(m, e, l)
        }),
{
    let h = quant_shape(g, qk_norm);
    let (kc, vc, qb) = (Buf::KCache(l), Buf::VCache(l), query_buf(g));
    let (a, w, qd) = (off as int / 2, g.kv_dim as int, g.q_dim as int);
    let xn = normed(Buf::Norm(l, NormId::Input), x);
    assert(qd == g.heads * g.head_dim && w == g.kv_heads * g.head_dim);
    let (lq, lk, lv) = (lin_of(g, l, Proj::Q, false), lin_of(g, l, Proj::K, false), lin_of(g, l, Proj::V, false));
    let m = run(c, m0, s);
    let s1 = qmv(s, Kernel::QMatvec(q), q, lq, Buf::Xn, Buf::Q, 0);
    lemma_qmv(c, m0, s, Kernel::QMatvec(q), q, lq, Buf::Xn, Buf::Q, 0);
    let m1 = run(c, m0, s1);
    let both = query_both(c, h, l, x);
    assert(row(m1, Buf::Q, 0, g.q_proj_dim as int) == both);
    let s2 = split_gate(s1, g, 1, false);
    lemma_split_gate(c, m0, s1, g, 1, false, 0);
    let m2 = run(c, m0, s2);
    let q0 = if h.joint { part(true, both, qd) } else { both };
    assert(row(m2, qb, 0, qd) == q0) by {
        reveal(nth);
    }
    assert(joint(g) ==> row(m2, Buf::QGate, 0, qd) == part(false, both, qd)) by {
        reveal(nth);
    }
    let s3 = qmv(s2, Kernel::QMatvecH(k), k, lk, Buf::Xn, kc, off);
    lemma_qmv(c, m0, s2, Kernel::QMatvecH(k), k, lk, Buf::Xn, kc, off);
    let m3 = run(c, m0, s3);
    let k0 = project(c, l, Proj::K, xn, w);
    assert(row(m3, kc, a, w) == k0);
    let s4 = qmv(s3, Kernel::QMatvecH(v), v, lv, Buf::Xn, vc, off);
    lemma_qmv(c, m0, s3, Kernel::QMatvecH(v), v, lv, Buf::Xn, vc, off);
    let m4 = run(c, m0, s4);
    assert(row(m4, vc, a, w) == value_of(c, h, l, x));
    assert(row(m4, kc, a, w) == k0);
    assert(row(m4, qb, 0, qd) == q0);
    assert(within(m, m4, kc, a, w));
    assert(within(m, m4, vc, a, w));
    let t1 = s4.push(CmdView::Mark(Phase::Norm, 1));
    let t2 = rmsnorm_heads(t1, qb, Buf::Norm(l, NormId::QHead), g.heads as u64, g.head_dim);
    let t3 = t2.push(CmdView::Mark(Phase::Norm, 1));
    let s5 = if qk_norm {
        rmsnorm_cache(t3, kc, off, Buf::Norm(l, NormId::KHead), g.kv_heads as u64, g.head_dim)
    } else {
        s4
    };
    let m5 = run(c, m0, s5);
    if qk_norm {
        lemma_mark(c, m0, s4, Phase::Norm, 1);
        lemma_heads_one(c, m0, t1, qb, Buf::Norm(l, NormId::QHead), g.heads, g.head_dim);
        lemma_mark(c, m0, t2, Phase::Norm, 1);
        lemma_cache_heads_one(c, m0, t3, kc, off, Buf::Norm(l, NormId::KHead), g.kv_heads, g.head_dim);
    }
    let q1 = if qk_norm { heads_normed(Buf::Norm(l, NormId::QHead), q0, h.head_dim) } else { q0 };
    let k1 = if qk_norm { heads_normed(Buf::Norm(l, NormId::KHead), k0, h.head_dim) } else { k0 };
    assert(row(m5, qb, 0, qd) == q1);
    assert(row(m5, kc, a, w) == k1);
    assert(within(m, m5, kc, a, w));
    let t5 = s5.push(CmdView::Mark(Phase::Rope, 1));
    lemma_mark(c, m0, s5, Phase::Rope, 1);
    lemma_rope_qk_one(c, m0, t5, g, qb, kc, off, pos);
}

/// The rest of the attention part.
pub open spec fn full_rest(s: Seq<CmdView>, g: Geo, l: usize, pos: u32, o: u32) -> Seq<CmdView> {
    let s = attention_decode(s.push(CmdView::Mark(Phase::Attn, 2)), g, query_buf(g), l, pos);
    let s = apply_gate(s, g, 1, false);
    qmv(s, Kernel::QMatvecAcc(o), o, lin_of(g, l, Proj::O, false), Buf::Att, Buf::X, 0)
}

pub(crate) proof fn lemma_full_rest(c: Ctx, m0: Mem, s: Seq<CmdView>, g: Geo, l: usize, pos: u32, o: u32, qk_norm: bool, x: Seq<Term>)
    requires
        g.ok(),
        (c.selector)(Buf::Weight(l, Proj::O)) == o,
        g.win is None ==> pos < g.max_seq,
        row(run(c, m0, s), Buf::X, 0, g.hidden as int) == x,
        joint(g) ==> row(run(c, m0, s), Buf::QGate, 0, g.q_dim as int) == part(
            false,
            query_both(c, quant_shape(g, qk_norm), l, x),
            g.q_dim as int,
        ),
    ensures
        ({
            let (m, e) = (run(c, m0, s), run(c, m0, full_rest(s, g, l, pos, o)));
            let h = quant_shape(g, qk_norm);
            &&& row(e, Buf::X, 0, g.hidden as int) == attention_out(
                c,
                h,
                l,
                x,
                seen(m, g, query_buf(g), l, 0, pos as int),
            )
            &&& caches_kept(m, e)
        }),
{
    let h = quant_shape(g, qk_norm);
    let qd = g.q_dim as int;
    assert(qd == g.heads * g.head_dim);
    let m = run(c, m0, s);
    let a = seen(m, g, query_buf(g), l, 0, pos as int);
    let t = s.push(CmdView::Mark(Phase::Attn, 2));
    lemma_mark(c, m0, s, Phase::Attn, 2);
    let s1 = attention_decode(t, g, query_buf(g), l, pos);
    lemma_attention_decode(c, m0, t, g, query_buf(g), l, pos);
    let m1 = run(c, m0, s1);
    assert(row(m1, Buf::Att, 0, qd) == attended(a));
    let s2 = apply_gate(s1, g, 1, false);
    lemma_apply_gate(c, m0, s1, g, 1, false, 0);
    let m2 = run(c, m0, s2);
    let found = if h.joint {
        opened(attended(a), part(false, query_both(c, h, l, x), qd))
    } else {
        attended(a)
    };
    assert(row(m2, Buf::Att, 0, qd) == found) by {
        reveal(nth);
    }
    let lo = lin_of(g, l, Proj::O, false);
    lemma_qmv_acc(c, m0, s2, Kernel::QMatvecAcc(o), o, lo, Buf::Att, Buf::X);
}

/// The feed-forward part of a fused decode layer, from the norm on.
pub open spec fn fed_one(s: Seq<CmdView>, g: Geo, b: QuantBlock, l: usize) -> Seq<CmdView> {
    let s = marked_norm(s, g, Buf::Norm(l, NormId::Post), 1);
    let s = qmv(s, Kernel::QMatvec(b.gate), b.gate, lin_of(g, l, Proj::Gate, false), Buf::Xn, Buf::Gate, 0);
    let s = qmv(s, Kernel::QMatvec(b.up), b.up, lin_of(g, l, Proj::Up, false), Buf::Xn, Buf::Up, 0);
    let s = silu_mul(s.push(CmdView::Mark(Phase::Elem, 1)), Buf::Gate, Buf::Up, g.inter as u64);
    qmv(s, Kernel::QMatvecAcc(b.down), b.down, lin_of(g, l, Proj::Down, false), Buf::Gate, Buf::X, 0)
}

pub(crate) proof fn lemma_fed_one(c: Ctx, m0: Mem, s: Seq<CmdView>, g: Geo, b: QuantBlock, l: usize, h: Shape)
    requires
        h.hidden == g.hidden,
        h.inter == g.inter,
        types_known(c, l, b),
    ensures
        ({
            let (m, e) = (run(c, m0, s), run(c, m0, fed_one(s, g, b, l)));
            &&& row(e, Buf::X, 0, g.hidden as int) == feed_out(c, h, l, row(m, Buf::X, 0, g.hidden as int))
            &&& caches_kept(m, e)
            &&& forall|j: usize, a: int, w: int| #[trigger]
                row(e, Buf::DeltaState(j), a, w) == row(m, Buf::DeltaState(j), a, w)
            &&& forall|j: usize, a: int, w: int| #[trigger]
                row(e, Buf::ConvState(j), a, w) == row(m, Buf::ConvState(j), a, w)
        }),
{
    let (hid, ff) = (g.hidden as int, g.inter as int);
    let m = run(c, m0, s);
    let y = row(m, Buf::X, 0, hid);
    let z = normed(Buf::Norm(l, NormId::Post), y);
    let t = s.push(CmdView::Mark(Phase::Norm, 1));
    lemma_mark(c, m0, s, Phase::Norm, 1);
    let s1 = marked_norm(s, g, Buf::Norm(l, NormId::Post), 1);
    lemma_rmsnorm_one(c, m0, t, g, Buf::X, Buf::Norm(l, NormId::Post), Buf::Xn);
    let (lg, lu, ld) = (lin_of(g, l, Proj::Gate, false), lin_of(g, l, Proj::Up, false), lin_of(g, l, Proj::Down, false));
    let s2 = qmv(s1, Kernel::QMatvec(b.gate), b.gate, lg, Buf::Xn, Buf::Gate, 0);
    lemma_qmv(c, m0, s1, Kernel::QMatvec(b.gate), b.gate, lg, Buf::Xn, Buf::Gate, 0);
    let s3 = qmv(s2, Kernel::QMatvec(b.up), b.up, lu, Buf::Xn, Buf::Up, 0);
    lemma_qmv(c, m0, s2, Kernel::QMatvec(b.up), b.up, lu, Buf::Xn, Buf::Up, 0);
    let m3 = run(c, m0, s3);
    assert(row(m3, Buf::Gate, 0, ff) == project(c, l, Proj::Gate, z, ff));
    assert(row(m3, Buf::Up, 0, ff) == project(c, l, Proj::Up, z, ff));
    let t3 = s3.push(CmdView::Mark(Phase::Elem, 1));
    lemma_mark(c, m0, s3, Phase::Elem, 1);
    let s4 = silu_mul(t3, Buf::Gate, Buf::Up, g.inter as u64);
    lemma_silu_mul(c, m0, t3, Buf::Gate, Buf::Up, 1, g.inter, 0);
    let m4 = run(c, m0, s4);
    assert(row(m4, Buf::Gate, 0, ff) == gated(row(m3, Buf::Gate, 0, ff), row(m3, Buf::Up, 0, ff))) by {
        reveal(nth);
    }
    lemma_qmv_acc(c, m0, s4, Kernel::QMatvecAcc(b.down), b.down, ld, Buf::Gate, Buf::X);
}

/// The byte and the number at which the row of position `p` starts.
proof fn lemma_row_place(g: Geo, p: int)
    requires
        quant_geo(g),
        0 <= p <= g.max_seq,
    ensures
        0 <= g.row_off(p) <= u64::MAX,
        g.row_off(p) / 2 == g.kv_base as int / 2 + p * g.kv_dim,
{
    g.lemma_rows(p);
    assert(p * g.kv_dim * 2 == 2 * (p * g.kv_dim)) by (nonlinear_arith);
}

/// A full-attention layer of a fused decode step.
pub proof fn lemma_quant_decode_layer(
    c: Ctx,
    m0: Mem,
    s: Seq<CmdView>,
    md: QuantModel,
    b: QuantBlock,
    l: usize,
    pos: u32,
)
    requires
        quant_geo(md.geo),
        pos < md.geo.max_seq,
        b.attn is Full,
        types_known(c, l, b),
    ensures
        layer_done(
            c,
            run(c, m0, s),
            run(c, m0, quant_decode_layer(s, md.geo, md.delta, b, l, pos)),
            md.geo,
            quant_shape(md.geo, b.attn->qk_norm),
            l,
            pos as int,
            1,
        ),
{
    let g = md.geo;
    let (q, k, v, o, qk_norm) = (b.attn->q, b.attn->k, b.attn->v, b.attn->o, b.attn->qk_norm);
    let h = quant_shape(g, qk_norm);
    let (kc, vc, qb) = (Buf::KCache(l), Buf::VCache(l), query_buf(g));
    let (hid, w, p) = (g.hidden as int, g.kv_dim as int, pos as int);
    let base = g.kv_base as int / 2;
    assert(w == g.kv_heads * g.head_dim && g.q_dim == g.heads * g.head_dim);
    lemma_row_place(g, p);
    let off = g.row_off(p) as u64;
    let at = base + p * w;
    assert(off as int / 2 == at);
    let m = run(c, m0, s);
    let x = row(m, Buf::X, 0, hid);
    let t0 = s.push(CmdView::Mark(Phase::Norm, 1));
    lemma_mark(c, m0, s, Phase::Norm, 1);
    let s1 = marked_norm(s, g, Buf::Norm(l, NormId::Input), 1);
    lemma_rmsnorm_one(c, m0, t0, g, Buf::X, Buf::Norm(l, NormId::Input), Buf::Xn);
    let s2 = full_qkv(s1, g, l, off, pos, q, k, v, qk_norm);
    lemma_full_qkv(c, m0, s1, g, l, off, pos, q, k, v, qk_norm, x);
    let m2 = run(c, m0, s2);
    let s3 = full_rest(s2, g, l, pos, o);
    lemma_full_rest(c, m0, s2, g, l, pos, o, qk_norm, x);
    assert(s3 == decode_full(s1, g, l, pos, q, k, v, o, qk_norm));
    let s4 = fed_one(s3, g, b, l);
    lemma_fed_one(c, m0, s3, g, b, l, h);
    assert(s4 == quant_decode_layer(s, g, md.delta, b, l, pos));
    let (m3, e) = (run(c, m0, s3), run(c, m0, s4));
    lemma_kept_both(m2, m3, e);
    lemma_kept_rows(m2, e, base, w);
    let xs = rows_of(m, Buf::X, hid, 1);
    assert(xs[0] == x) by {
        reveal(nth);
    }
    let (keys, values) = (keys_upto(c, m, h, l, base, p, xs, 0), values_upto(c, m, h, l, base, p, xs, 0));
    assert(within(m, m2, kc, at, 1 * w));
    assert(within(m, m2, vc, at, 1 * w));
    assert(nth(m2, kc, base, w, p) == key_of(c, h, l, x, p)) by {
        reveal(nth);
    }
    assert(nth(m2, vc, base, w, p) == value_of(c, h, l, x)) by {
        reveal(nth);
    }
    lemma_table(m, m2, kc, base, w, p, 1, 0, keys);
    lemma_table(m, m2, vc, base, w, p, 1, 0, values);
    let a = Attention {
        query: query_of(c, h, l, x, p),
        keys,
        values,
        heads: h.heads,
        kv_heads: h.kv_heads,
        head_dim: h.head_dim,
        at: p,
    };
    assert(seen(m2, g, qb, l, 0, p) == a) by {
        reveal(nth);
    }
    let out = rows_out(c, m, h, l, base, p, xs);
    assert(nth(e, Buf::X, 0, hid, 0) == out[0]) by {
        reveal(nth);
    }
    assert(rows_of(e, Buf::X, hid, 1) =~= out);
    assert forall|z: int, u: int| 0 <= u && (z + u <= at || at + 1 * w <= z) implies #[trigger] row(e, kc, z, u) == row(
        m,
        kc,
        z,
        u,
    ) by {
        assert(row(e, kc, z, u) == row(m2, kc, z, u));
    }
    assert forall|z: int, u: int| 0 <= u && (z + u <= at || at + 1 * w <= z) implies #[trigger] row(e, vc, z, u) == row(
        m,
        vc,
        z,
        u,
    ) by {
        assert(row(e, vc, z, u) == row(m2, vc, z, u));
    }
    assert forall|r: int| 0 <= r < 1 implies #[trigger] nth(e, kc, base, w, p + r) == key_of(c, h, l, xs[r], p + r) by {
        assert(nth(e, kc, base, w, p) == nth(m2, kc, base, w, p));
    }
    assert forall|r: int| 0 <= r < 1 implies #[trigger] nth(e, vc, base, w, p + r) == value_of(c, h, l, xs[r]) by {
        assert(nth(e, vc, base, w, p) == nth(m2, vc, base, w, p));
    }
}

// ---------- a prefill layer ----------

/// The staged rows: keys, and values behind all keys that the buffer can hold.
pub(crate) proof fn lemma_stage_places(g: Geo, n: u32)
    requires
        g.ok(),
        n <= chunk_rows(g),
    ensures
        0 <= v_base(g) <= u64::MAX,
        v_base(g) / 4 == chunk_rows(g) * g.kv_dim,
        n * g.kv_dim <= chunk_rows(g) * g.kv_dim,
{
    let (a, b) = (chunk_rows(g), g.kv_dim as int);
    assert(0 <= a * b <= 0xF_FFFF * 0xFFFF_FFFF && n * b <= a * b) by (nonlinear_arith)
        requires
            0 <= n <= a <= 0xF_FFFF,
            0 <= b <= 0xFFFF_FFFF,
    ;
    assert(a * b * 4 == 4 * (a * b));
}

/// The projections of a chunk.
pub open spec fn chunk_staged(s: Seq<CmdView>, g: Geo, l: usize, n: u32, q: u32, k: u32, v: u32) -> Seq<CmdView> {
    let s = qmm(s, q, lin_of(g, l, Proj::Q, false), Buf::Xn, 0, Buf::Q, 0, n);
    let s = qmm(s, k, lin_of(g, l, Proj::K, false), Buf::Xn, 0, Buf::Kvs, 0, n);
    let s = qmm(s, v, lin_of(g, l, Proj::V, false), Buf::Xn, 0, Buf::Kvs, v_base(g) as u64, n);
    let s = with_barrier(s, true, seq![Buf::Q, Buf::Kvs]);
    split_gate(s, g, n, true)
}

pub(crate) proof fn lemma_chunk_staged(
    c: Ctx,
    m0: Mem,
    s: Seq<CmdView>,
    g: Geo,
    l: usize,
    n: u32,
    q: u32,
    k: u32,
    v: u32,
    qk_norm: bool,
    x: Seq<Term>,
    r: int,
)
    requires
        g.ok(),
        (c.selector)(Buf::Weight(l, Proj::Q)) == q,
        (c.selector)(Buf::Weight(l, Proj::K)) == k,
        (c.selector)(Buf::Weight(l, Proj::V)) == v,
        0 <= r < n <= chunk_rows(g),
        nth(run(c, m0, s), Buf::Xn, 0, g.hidden as int, r) == normed(Buf::Norm(l, NormId::Input), x),
    ensures
        ({
            let (m, e) = (run(c, m0, s), run(c, m0, chunk_staged(s, g, l, n, q, k, v)));
            let (h, qd, w) = (quant_shape(g, qk_norm), g.q_dim as int, g.kv_dim as int);
            let both = query_both(c, h, l, x);
            &&& nth(e, query_buf(g), 0, qd, r) == (if joint(g) { part(true, both, qd) } else { both })
            &&& joint(g) ==> nth(e, Buf::QGate, 0, qd, r) == part(false, both, qd)
            &&& nth(e, Buf::Kvs, 0, w, r) == project(c, l, Proj::K, normed(Buf::Norm(l, NormId::Input), x), w)
            &&& nth(e, Buf::Kvs, chunk_rows(g) * w, w, r) == value_of(c, h, l, x)
            &&& nth(e, Buf::X, 0, g.hidden as int, r) == nth(m, Buf::X, 0, g.hidden as int, r)
            &&& caches_kept(m, e)
        }),
{
    let (h, qd, w, hid) = (quant_shape(g, qk_norm), g.q_dim as int, g.kv_dim as int, g.hidden as int);
    let xn = normed(Buf::Norm(l, NormId::Input), x);
    let both = query_both(c, h, l, x);
    let va = chunk_rows(g) * w;
    assert(qd == g.heads * g.head_dim && w == g.kv_heads * g.head_dim);
    lemma_stage_places(g, n);
    let m = run(c, m0, s);
    let (lq, lk, lv) = (lin_of(g, l, Proj::Q, false), lin_of(g, l, Proj::K, false), lin_of(g, l, Proj::V, false));
    let s1 = qmm(s, q, lq, Buf::Xn, 0, Buf::Q, 0, n);
    lemma_qmm(c, m0, s, q, lq, Buf::Xn, 0, Buf::Q, 0, n, r);
    let m1 = run(c, m0, s1);
    assert(nth(m1, Buf::Q, 0, g.q_proj_dim as int, r) == both);
    let s2 = qmm(s1, k, lk, Buf::Xn, 0, Buf::Kvs, 0, n);
    lemma_qmm(c, m0, s1, k, lk, Buf::Xn, 0, Buf::Kvs, 0, n, r);
    let m2 = run(c, m0, s2);
    let k0 = project(c, l, Proj::K, xn, w);
    assert(nth(m2, Buf::Kvs, 0, w, r) == k0);
    let s3 = qmm(s2, v, lv, Buf::Xn, 0, Buf::Kvs, v_base(g) as u64, n);
    lemma_qmm(c, m0, s2, v, lv, Buf::Xn, 0, Buf::Kvs, v_base(g) as u64, n, r);
    let m3 = run(c, m0, s3);
    assert(nth(m3, Buf::Kvs, va, w, r) == value_of(c, h, l, x));
    assert(nth(m3, Buf::Kvs, 0, w, r) == nth(m2, Buf::Kvs, 0, w, r)) by {
        reveal(nth);
        lemma_inside(r, n as int, w);
    }
    let s4 = with_barrier(s3, true, seq![Buf::Q, Buf::Kvs]);
    lemma_barrier(c, m0, s3, true, seq![Buf::Q, Buf::Kvs]);
    lemma_split_gate(c, m0, s4, g, n, true, r);
}

/// The head norms of a chunk, and the rotation of its queries.
pub open spec fn chunk_normed(s: Seq<CmdView>, g: Geo, l: usize, pos0: u32, n: u32, qk_norm: bool) -> Seq<CmdView> {
    let s = if qk_norm {
        let s = s.push(CmdView::Mark(Phase::Norm, 1));
        let s = rmsnorm_heads(s, query_buf(g), Buf::Norm(l, NormId::QHead), (n * g.heads) as u64, g.head_dim);
        let s = s.push(CmdView::Mark(Phase::Norm, 1));
        let s = rmsnorm_heads(s, Buf::Kvs, Buf::Norm(l, NormId::KHead), (n * g.kv_heads) as u64, g.head_dim);
        with_barrier(s, true, seq![query_buf(g), Buf::Kvs])
    } else {
        s
    };
    rope(s.push(CmdView::Mark(Phase::Rope, 1)), g, query_buf(g), g.heads, pos0, n, g.rot_dim)
}

pub(crate) proof fn lemma_chunk_normed(c: Ctx, m0: Mem, s: Seq<CmdView>, g: Geo, l: usize, pos0: u32, n: u32, qk_norm: bool, r: int)
    requires
        g.ok(),
        0 <= r < n <= chunk_rows(g),
    ensures
        ({
            let (m, e) = (run(c, m0, s), run(c, m0, chunk_normed(s, g, l, pos0, n, qk_norm)));
            let (qd, w, d, va) = (g.q_dim as int, g.kv_dim as int, g.head_dim as int, chunk_rows(g) * g.kv_dim);
            let (q, k) = (nth(m, query_buf(g), 0, qd, r), nth(m, Buf::Kvs, 0, w, r));
            &&& only(m, e, query_buf(g), Buf::Kvs, Buf::Kvs)
            &&& nth(e, query_buf(g), 0, qd, r) == turned(
                if qk_norm { heads_normed(Buf::Norm(l, NormId::QHead), q, d) } else { q },
                d,
                g.rot_dim as int,
                pos0 + r,
            )
            &&& nth(e, Buf::Kvs, 0, w, r) == (if qk_norm { heads_normed(Buf::Norm(l, NormId::KHead), k, d) } else { k })
            &&& nth(e, Buf::Kvs, va, w, r) == nth(m, Buf::Kvs, va, w, r)
        }),
{
    let (qd, w, d, va) = (g.q_dim as int, g.kv_dim as int, g.head_dim as int, chunk_rows(g) * g.kv_dim);
    let qb = query_buf(g);
    assert(qd == g.heads * g.head_dim && w == g.kv_heads * g.head_dim);
    lemma_stage_places(g, n);
    assert(0 <= n * g.heads <= u64::MAX && 0 <= n * g.kv_heads <= u64::MAX) by (nonlinear_arith)
        requires
            0 <= n <= u32::MAX,
            0 <= g.heads <= u32::MAX,
            0 <= g.kv_heads <= u32::MAX,
    ;
    let m = run(c, m0, s);
    let t1 = s.push(CmdView::Mark(Phase::Norm, 1));
    let t2 = rmsnorm_heads(t1, qb, Buf::Norm(l, NormId::QHead), (n * g.heads) as u64, g.head_dim);
    let t3 = t2.push(CmdView::Mark(Phase::Norm, 1));
    let t4 = rmsnorm_heads(t3, Buf::Kvs, Buf::Norm(l, NormId::KHead), (n * g.kv_heads) as u64, g.head_dim);
    let s1 = if qk_norm {
        with_barrier(t4, true, seq![qb, Buf::Kvs])
    } else {
        s
    };
    let m1 = run(c, m0, s1);
    let (q, k) = (nth(m, qb, 0, qd, r), nth(m, Buf::Kvs, 0, w, r));
    if qk_norm {
        lemma_mark(c, m0, s, Phase::Norm, 1);
        lemma_rmsnorm_heads(c, m0, t1, qb, Buf::Norm(l, NormId::QHead), n, g.heads, g.head_dim, r);
        lemma_mark(c, m0, t2, Phase::Norm, 1);
        lemma_rmsnorm_heads(c, m0, t3, Buf::Kvs, Buf::Norm(l, NormId::KHead), n, g.kv_heads, g.head_dim, r);
        lemma_barrier(c, m0, t4, true, seq![qb, Buf::Kvs]);
        let m2 = run(c, m0, t2);
        assert(nth(m2, qb, 0, qd, r) == heads_normed(Buf::Norm(l, NormId::QHead), q, d));
        assert(nth(m1, Buf::Kvs, 0, w, r) == heads_normed(Buf::Norm(l, NormId::KHead), k, d));
        assert(nth(m1, Buf::Kvs, va, w, r) == nth(m, Buf::Kvs, va, w, r)) by {
            reveal(nth);
            lemma_inside(r, n as int, w);
            assert(row(m1, Buf::Kvs, va + r * w, w) == row(m2, Buf::Kvs, va + r * w, w));
        }
    }
    let t5 = s1.push(CmdView::Mark(Phase::Rope, 1));
    lemma_mark(c, m0, s1, Phase::Rope, 1);
    lemma_rope(c, m0, t5, g, qb, g.heads, pos0, n, g.rot_dim, r);
}

/// The staged rows moved into the cache.
proof fn lemma_chunk_moved(c: Ctx, m0: Mem, s: Seq<CmdView>, g: Geo, l: usize, pos0: u32, n: u32, r: int)
    requires
        quant_geo(g),
        0 <= r < n <= chunk_rows(g),
        pos0 + n <= g.max_seq,
        n * g.kv_dim <= u32::MAX,
    ensures
        ({
            let sp = Span { row: 0, slot: pos0 as usize, len: n as usize };
            let (m, e) = (run(c, m0, s), run(c, m0, quant_stage_span(s, g, l, pos0, sp)));
            let (w, va, base) = (g.kv_dim as int, chunk_rows(g) * g.kv_dim, g.kv_base as int / 2);
            &&& only(m, e, Buf::KCache(l), Buf::VCache(l), Buf::VCache(l))
            &&& within(m, e, Buf::KCache(l), base + pos0 * w, n * w)
            &&& within(m, e, Buf::VCache(l), base + pos0 * w, n * w)
            &&& nth(e, Buf::KCache(l), base, w, pos0 + r) == turned(
                nth(m, Buf::Kvs, 0, w, r),
                g.head_dim as int,
                g.rot_dim as int,
                pos0 + r,
            )
            &&& nth(e, Buf::VCache(l), base, w, pos0 + r) == nth(m, Buf::Kvs, va, w, r)
        }),
{
    let sp = Span { row: 0, slot: pos0 as usize, len: n as usize };
    let (w, va, base) = (g.kv_dim as int, chunk_rows(g) * g.kv_dim, g.kv_base as int / 2);
    let (kc, vc) = (Buf::KCache(l), Buf::VCache(l));
    assert(w == g.kv_heads * g.head_dim);
    lemma_stage_places(g, n);
    lemma_row_place(g, pos0 as int);
    let off = g.row_off(pos0 as int) as u64;
    let at = base + pos0 * w;
    assert(off as int / 2 == at);
    assert(0 <= n * g.kv_dim) by (nonlinear_arith);
    let dim = (n * g.kv_dim) as u64;
    assert(sp.row * g.kv_dim * 4 == 0);
    lemma_inside(r, n as int, w);
    let m = run(c, m0, s);
    let t1 = s.push(CmdView::Mark(Phase::KvStage, 1));
    lemma_mark(c, m0, s, Phase::KvStage, 1);
    let s1 = to_half(t1, Buf::Kvs, 0, kc, off, dim);
    lemma_to_half(c, m0, t1, Buf::Kvs, 0, kc, off, dim);
    let m1 = run(c, m0, s1);
    assert(nth(m1, kc, at, w, r) == nth(m, Buf::Kvs, 0, w, r)) by {
        reveal(nth);
        assert(row(m1, kc, at + r * w, w) == row(m, Buf::Kvs, 0 + r * w, w));
    }
    let t2 = s1.push(CmdView::Mark(Phase::KvStage, 1));
    lemma_mark(c, m0, s1, Phase::KvStage, 1);
    let s2 = to_half(t2, Buf::Kvs, v_base(g) as u64, vc, off, dim);
    lemma_to_half(c, m0, t2, Buf::Kvs, v_base(g) as u64, vc, off, dim);
    let m2 = run(c, m0, s2);
    assert(nth(m2, vc, at, w, r) == nth(m1, Buf::Kvs, va, w, r)) by {
        reveal(nth);
        assert(row(m2, vc, at + r * w, w) == row(m1, Buf::Kvs, va + r * w, w));
    }
    let s3 = with_barrier(s2, true, seq![kc]);
    lemma_barrier(c, m0, s2, true, seq![kc]);
    let t3 = s3.push(CmdView::Mark(Phase::Rope, 1));
    lemma_mark(c, m0, s3, Phase::Rope, 1);
    lemma_rope_cache(c, m0, t3, g, kc, off, g.kv_heads, pos0, n, g.rot_dim, g.head_dim, r);
    let s4 = rope_cache(t3, g, kc, off, g.kv_heads, pos0, n, g.rot_dim, g.head_dim);
    assert(s4 == quant_stage_span(s, g, l, pos0, sp));
    let e = run(c, m0, s4);
    lemma_shift(e, kc, base, w, pos0 as int, r);
    lemma_shift(e, vc, base, w, pos0 as int, r);
    assert(nth(m2, kc, at, w, r) == nth(m1, kc, at, w, r));
}

/// What the queries of a chunk find, up to the residual.
pub open spec fn chunk_found(s: Seq<CmdView>, g: Geo, l: usize, pos0: u32, n: u32, o: u32) -> Seq<CmdView> {
    let s = attention(s.push(CmdView::Mark(Phase::Attn, 1)), g, query_buf(g), l, pos0, n);
    let s = with_barrier(s, true, seq![Buf::Att, Buf::Scores]);
    let s = apply_gate(s, g, n, true);
    let s = qmm(s, o, lin_of(g, l, Proj::O, false), Buf::Att, 0, Buf::Xb, 0, n);
    add_residual(s, g, n)
}

pub(crate) proof fn lemma_add_residual(c: Ctx, m0: Mem, s: Seq<CmdView>, g: Geo, n: u32, r: int)
    requires
        n * g.hidden <= u32::MAX,
        0 <= r < n,
    ensures
        ({
            let (m, e, hid) = (run(c, m0, s), run(c, m0, add_residual(s, g, n)), g.hidden as int);
            &&& only(m, e, Buf::X, Buf::X, Buf::X)
            &&& nth(e, Buf::X, 0, hid, r) == summed(nth(m, Buf::X, 0, hid, r), nth(m, Buf::Xb, 0, hid, r))
        }),
{
    let s1 = with_barrier(s, true, seq![Buf::Xb]);
    lemma_barrier(c, m0, s, true, seq![Buf::Xb]);
    let s2 = s1.push(CmdView::Mark(Phase::Elem, 1));
    lemma_mark(c, m0, s1, Phase::Elem, 1);
    lemma_add(c, m0, s2, Buf::X, Buf::Xb, n, g.hidden, r);
    let s3 = add_inplace(s2, Buf::X, Buf::Xb, (n * g.hidden) as u64);
    lemma_barrier(c, m0, s3, true, seq![Buf::X]);
}

pub(crate) proof fn lemma_chunk_found(
    c: Ctx,
    m0: Mem,
    s: Seq<CmdView>,
    g: Geo,
    l: usize,
    pos0: u32,
    n: u32,
    o: u32,
    qk_norm: bool,
    x: Seq<Term>,
    r: int,
)
    requires
        g.ok(),
        (c.selector)(Buf::Weight(l, Proj::O)) == o,
        0 <= r < n,
        n * g.q_dim <= u32::MAX,
        n * g.hidden <= u32::MAX,
        nth(run(c, m0, s), Buf::X, 0, g.hidden as int, r) == x,
        joint(g) ==> nth(run(c, m0, s), Buf::QGate, 0, g.q_dim as int, r) == part(
            false,
            query_both(c, quant_shape(g, qk_norm), l, x),
            g.q_dim as int,
        ),
    ensures
        ({
            let (m, e) = (run(c, m0, s), run(c, m0, chunk_found(s, g, l, pos0, n, o)));
            let h = quant_shape(g, qk_norm);
            &&& nth(e, Buf::X, 0, g.hidden as int, r) == attention_out(
                c,
                h,
                l,
                x,
                seen(m, g, query_buf(g), l, r, pos0 + r),
            )
            &&& caches_kept(m, e)
        }),
{
    let h = quant_shape(g, qk_norm);
    let (qd, hid) = (g.q_dim as int, g.hidden as int);
    assert(qd == g.heads * g.head_dim);
    let m = run(c, m0, s);
    let a = seen(m, g, query_buf(g), l, r, pos0 + r);
    let t = s.push(CmdView::Mark(Phase::Attn, 1));
    lemma_mark(c, m0, s, Phase::Attn, 1);
    let t1 = attention(t, g, query_buf(g), l, pos0, n);
    lemma_attention(c, m0, t, g, query_buf(g), l, pos0, n, r);
    let s1 = with_barrier(t1, true, seq![Buf::Att, Buf::Scores]);
    lemma_barrier(c, m0, t1, true, seq![Buf::Att, Buf::Scores]);
    let m1 = run(c, m0, s1);
    assert(nth(m1, Buf::Att, 0, qd, r) == attended(a));
    let s2 = apply_gate(s1, g, n, true);
    lemma_apply_gate(c, m0, s1, g, n, true, r);
    let m2 = run(c, m0, s2);
    let found = if h.joint {
        opened(attended(a), part(false, query_both(c, h, l, x), qd))
    } else {
        attended(a)
    };
    assert(nth(m2, Buf::Att, 0, qd, r) == found);
    let lo = lin_of(g, l, Proj::O, false);
    let s3 = qmm(s2, o, lo, Buf::Att, 0, Buf::Xb, 0, n);
    lemma_qmm(c, m0, s2, o, lo, Buf::Att, 0, Buf::Xb, 0, n, r);
    let m3 = run(c, m0, s3);
    assert(nth(m3, Buf::Xb, 0, hid, r) == project(c, l, Proj::O, found, hid));
    lemma_add_residual(c, m0, s3, g, n, r);
}

/// The feed-forward part of a chunk, from the norm on.
pub open spec fn fed_chunk(s: Seq<CmdView>, g: Geo, b: QuantBlock, l: usize, n: u32) -> Seq<CmdView> {
    let s = with_barrier(marked_norm(s, g, Buf::Norm(l, NormId::Post), n), true, seq![Buf::Xn]);
    let s = qmm(s, b.gate, lin_of(g, l, Proj::Gate, false), Buf::Xn, 0, Buf::Gate, 0, n);
    let s = qmm(s, b.up, lin_of(g, l, Proj::Up, false), Buf::Xn, 0, Buf::Up, 0, n);
    let s = with_barrier(s, true, seq![Buf::Gate, Buf::Up]);
    let s = silu_mul(s.push(CmdView::Mark(Phase::Elem, 1)), Buf::Gate, Buf::Up, (n * g.inter) as u64);
    let s = with_barrier(s, true, seq![Buf::Gate]);
    let s = qmm(s, b.down, lin_of(g, l, Proj::Down, false), Buf::Gate, 0, Buf::Xb, 0, n);
    add_residual(s, g, n)
}

pub(crate) proof fn lemma_marked_norm(c: Ctx, m0: Mem, s: Seq<CmdView>, g: Geo, w: Buf, n: u32, conc: bool, r: int)
    requires
        0 <= r < n,
    ensures
        ({
            let m = run(c, m0, s);
            let e = run(c, m0, with_barrier(marked_norm(s, g, w, n), conc, seq![Buf::Xn]));
            &&& only(m, e, Buf::Xn, Buf::Xn, Buf::Xn)
            &&& nth(e, Buf::Xn, 0, g.hidden as int, r) == normed(w, nth(m, Buf::X, 0, g.hidden as int, r))
        }),
{
    let t = s.push(CmdView::Mark(Phase::Norm, 1));
    lemma_mark(c, m0, s, Phase::Norm, 1);
    lemma_rmsnorm(c, m0, t, g, Buf::X, w, Buf::Xn, n, r);
    lemma_barrier(c, m0, marked_norm(s, g, w, n), conc, seq![Buf::Xn]);
}

pub(crate) proof fn lemma_fed_chunk(c: Ctx, m0: Mem, s: Seq<CmdView>, g: Geo, b: QuantBlock, l: usize, n: u32, h: Shape, r: int)
    requires
        h.hidden == g.hidden,
        h.inter == g.inter,
        types_known(c, l, b),
        n * g.hidden <= u32::MAX,
        n * g.inter <= u32::MAX,
        0 <= r < n,
    ensures
        ({
            let (m, e, hid) = (run(c, m0, s), run(c, m0, fed_chunk(s, g, b, l, n)), g.hidden as int);
            &&& nth(e, Buf::X, 0, hid, r) == feed_out(c, h, l, nth(m, Buf::X, 0, hid, r))
            &&& caches_kept(m, e)
            &&& forall|j: usize, a: int, w: int| #[trigger]
                row(e, Buf::DeltaState(j), a, w) == row(m, Buf::DeltaState(j), a, w)
            &&& forall|j: usize, a: int, w: int| #[trigger]
                row(e, Buf::ConvState(j), a, w) == row(m, Buf::ConvState(j), a, w)
        }),
{
    let (hid, ff) = (g.hidden as int, g.inter as int);
    let w = Buf::Norm(l, NormId::Post);
    let m = run(c, m0, s);
    let y = nth(m, Buf::X, 0, hid, r);
    let z = normed(w, y);
    let s1 = with_barrier(marked_norm(s, g, w, n), true, seq![Buf::Xn]);
    lemma_marked_norm(c, m0, s, g, w, n, true, r);
    let (lg, lu, ld) = (lin_of(g, l, Proj::Gate, false), lin_of(g, l, Proj::Up, false), lin_of(g, l, Proj::Down, false));
    let s2 = qmm(s1, b.gate, lg, Buf::Xn, 0, Buf::Gate, 0, n);
    lemma_qmm(c, m0, s1, b.gate, lg, Buf::Xn, 0, Buf::Gate, 0, n, r);
    let m2 = run(c, m0, s2);
    assert(nth(m2, Buf::Gate, 0, ff, r) == project(c, l, Proj::Gate, z, ff));
    let t3 = qmm(s2, b.up, lu, Buf::Xn, 0, Buf::Up, 0, n);
    lemma_qmm(c, m0, s2, b.up, lu, Buf::Xn, 0, Buf::Up, 0, n, r);
    let u3 = with_barrier(t3, true, seq![Buf::Gate, Buf::Up]);
    lemma_barrier(c, m0, t3, true, seq![Buf::Gate, Buf::Up]);
    let s3 = u3.push(CmdView::Mark(Phase::Elem, 1));
    lemma_mark(c, m0, u3, Phase::Elem, 1);
    let m3 = run(c, m0, s3);
    assert(nth(m3, Buf::Up, 0, ff, r) == project(c, l, Proj::Up, z, ff));
    assert(nth(m3, Buf::Gate, 0, ff, r) == project(c, l, Proj::Gate, z, ff));
    let t4 = silu_mul(s3, Buf::Gate, Buf::Up, (n * g.inter) as u64);
    lemma_silu_mul(c, m0, s3, Buf::Gate, Buf::Up, n, g.inter, r);
    let s4 = with_barrier(t4, true, seq![Buf::Gate]);
    lemma_barrier(c, m0, t4, true, seq![Buf::Gate]);
    let m4 = run(c, m0, s4);
    let f = gated(project(c, l, Proj::Gate, z, ff), project(c, l, Proj::Up, z, ff));
    assert(nth(m4, Buf::Gate, 0, ff, r) == f);
    let s5 = qmm(s4, b.down, ld, Buf::Gate, 0, Buf::Xb, 0, n);
    lemma_qmm(c, m0, s4, b.down, ld, Buf::Gate, 0, Buf::Xb, 0, n, r);
    let m5 = run(c, m0, s5);
    assert(nth(m5, Buf::Xb, 0, hid, r) == project(c, l, Proj::Down, f, hid));
    lemma_add_residual(c, m0, s5, g, n, r);
}

/// A chunk up to the cache: its queries, and its keys and values in place.
spec fn chunk_cached(s: Seq<CmdView>, g: Geo, l: usize, pos0: u32, n: u32, q: u32, k: u32, v: u32, qk_norm: bool) -> Seq<CmdView> {
    let s = chunk_normed(chunk_staged(s, g, l, n, q, k, v), g, l, pos0, n, qk_norm);
    let s = quant_stage_span(s, g, l, pos0, Span { row: 0, slot: pos0 as usize, len: n as usize });
    with_barrier(s, true, seq![query_buf(g), Buf::KCache(l), Buf::VCache(l), Buf::Kvs])
}

proof fn lemma_chunk_cached(
    c: Ctx,
    m0: Mem,
    s: Seq<CmdView>,
    g: Geo,
    l: usize,
    pos0: u32,
    n: u32,
    q: u32,
    k: u32,
    v: u32,
    qk_norm: bool,
    x: Seq<Term>,
    r: int,
)
    requires
        quant_geo(g),
        (c.selector)(Buf::Weight(l, Proj::Q)) == q,
        (c.selector)(Buf::Weight(l, Proj::K)) == k,
        (c.selector)(Buf::Weight(l, Proj::V)) == v,
        0 <= r < n <= chunk_rows(g),
        pos0 + n <= g.max_seq,
        n * g.kv_dim <= u32::MAX,
        nth(run(c, m0, s), Buf::Xn, 0, g.hidden as int, r) == normed(Buf::Norm(l, NormId::Input), x),
    ensures
        ({
            let (m, e) = (run(c, m0, s), run(c, m0, chunk_cached(s, g, l, pos0, n, q, k, v, qk_norm)));
            let (h, qd, w) = (quant_shape(g, qk_norm), g.q_dim as int, g.kv_dim as int);
            let (base, p) = (g.kv_base as int / 2, pos0 + r);
            &&& nth(e, query_buf(g), 0, qd, r) == query_of(c, h, l, x, p)
            &&& joint(g) ==> nth(e, Buf::QGate, 0, qd, r) == part(false, query_both(c, h, l, x), qd)
            &&& nth(e, Buf::KCache(l), base, w, p) == key_of(c, h, l, x, p)
            &&& nth(e, Buf::VCache(l), base, w, p) == value_of(c, h, l, x)
            &&& within(m, e, Buf::KCache(l), base + pos0 * w, n * w)
            &&& within(m, e, Buf::VCache(l), base + pos0 * w, n * w)
            &&& nth(e, Buf::X, 0, g.hidden as int, r) == nth(m, Buf::X, 0, g.hidden as int, r)
            &&& others_kept(m, e, l)
        }),
{
    let (w, base) = (g.kv_dim as int, g.kv_base as int / 2);
    let (kc, vc) = (Buf::KCache(l), Buf::VCache(l));
    assert(g.q_dim == g.heads * g.head_dim && w == g.kv_heads * g.head_dim);
    let sp = Span { row: 0, slot: pos0 as usize, len: n as usize };
    let s1 = chunk_staged(s, g, l, n, q, k, v);
    lemma_chunk_staged(c, m0, s, g, l, n, q, k, v, qk_norm, x, r);
    let s2 = chunk_normed(s1, g, l, pos0, n, qk_norm);
    lemma_chunk_normed(c, m0, s1, g, l, pos0, n, qk_norm, r);
    let s3 = quant_stage_span(s2, g, l, pos0, sp);
    lemma_chunk_moved(c, m0, s2, g, l, pos0, n, r);
    lemma_barrier(c, m0, s3, true, seq![query_buf(g), kc, vc, Buf::Kvs]);
    let (m, m1, m2, e) = (run(c, m0, s), run(c, m0, s1), run(c, m0, s2), run(c, m0, s3));
    assert forall|z: int, u: int| 0 <= u && (z + u <= base + pos0 * w || base + pos0 * w + n * w <= z) implies #[trigger] row(
        e,
        kc,
        z,
        u,
    ) == row(m, kc, z, u) by {
        assert(row(e, kc, z, u) == row(m2, kc, z, u));
        assert(row(m2, kc, z, u) == row(m1, kc, z, u));
    }
    assert forall|z: int, u: int| 0 <= u && (z + u <= base + pos0 * w || base + pos0 * w + n * w <= z) implies #[trigger] row(
        e,
        vc,
        z,
        u,
    ) == row(m, vc, z, u) by {
        assert(row(e, vc, z, u) == row(m2, vc, z, u));
        assert(row(m2, vc, z, u) == row(m1, vc, z, u));
    }
}

/// A full-attention layer of a prefill step.
pub proof fn lemma_quant_prefill_layer(
    c: Ctx,
    m0: Mem,
    s: Seq<CmdView>,
    md: QuantModel,
    b: QuantBlock,
    l: usize,
    st: Step,
)
    requires
        quant_geo(md.geo),
        rows_fit(md.geo, st),
        b.attn is Full,
        types_known(c, l, b),
    ensures
        layer_done(
            c,
            run(c, m0, s),
            run(c, m0, quant_prefill_layer(s, md.geo, md.delta, b, l, st.pos0, st.n)),
            md.geo,
            quant_shape(md.geo, b.attn->qk_norm),
            l,
            st.pos0 as int,
            st.n as int,
        ),
{
    let (g, pos0, n) = (md.geo, st.pos0, st.n);
    let (q, k, v, o, qk_norm) = (b.attn->q, b.attn->k, b.attn->v, b.attn->o, b.attn->qk_norm);
    let h = quant_shape(g, qk_norm);
    let (kc, vc, qb) = (Buf::KCache(l), Buf::VCache(l), query_buf(g));
    let (hid, w, p0) = (g.hidden as int, g.kv_dim as int, pos0 as int);
    let base = g.kv_base as int / 2;
    assert(w == g.kv_heads * g.head_dim && g.q_dim == g.heads * g.head_dim);
    let m = run(c, m0, s);
    let nw = Buf::Norm(l, NormId::Input);
    let s1 = with_barrier(marked_norm(s, g, nw, n), true, seq![Buf::Xn]);
    let t = chunk_cached(s1, g, l, pos0, n, q, k, v, qk_norm);
    let u = chunk_found(t, g, l, pos0, n, o);
    let f = fed_chunk(u, g, b, l, n);
    lemma_spans_once(chunk_normed(chunk_staged(s1, g, l, n, q, k, v), g, l, pos0, n, qk_norm), g, l, pos0, n);
    assert(u == prefill_full(s1, g, l, pos0, n, q, k, v, o, qk_norm));
    assert(f == quant_prefill_layer(s, g, md.delta, b, l, pos0, n));
    let (mt, mu, e) = (run(c, m0, t), run(c, m0, u), run(c, m0, f));
    let m1 = run(c, m0, s1);
    let xs = rows_of(m, Buf::X, hid, n as int);
    let out = rows_out(c, m, h, l, base, p0, xs);
    let got = rows_of(e, Buf::X, hid, n as int);
    assert forall|r: int| 0 <= r < n implies #[trigger] chunk_row(c, m0, s1, t, u, f, g, h, l, p0, xs[r], r) by {
        lemma_marked_norm(c, m0, s, g, nw, n, true, r);
        lemma_chunk_cached(c, m0, s1, g, l, pos0, n, q, k, v, qk_norm, xs[r], r);
        lemma_chunk_found(c, m0, t, g, l, pos0, n, o, qk_norm, xs[r], r);
        lemma_fed_chunk(c, m0, u, g, b, l, n, h, r);
    }
    lemma_marked_norm(c, m0, s, g, nw, n, true, 0);
    lemma_chunk_cached(c, m0, s1, g, l, pos0, n, q, k, v, qk_norm, xs[0], 0);
    lemma_chunk_found(c, m0, t, g, l, pos0, n, o, qk_norm, xs[0], 0);
    lemma_fed_chunk(c, m0, u, g, b, l, n, h, 0);
    lemma_kept_both(mt, mu, e);
    assert(within(m, mt, kc, base + p0 * w, n * w)) by {
        assert(within(m1, mt, kc, base + p0 * w, n * w));
    }
    assert(within(m, mt, vc, base + p0 * w, n * w)) by {
        assert(within(m1, mt, vc, base + p0 * w, n * w));
    }
    assert forall|r: int| 0 <= r < n implies #[trigger] got[r] == out[r] by {
        assert(chunk_row(c, m0, s1, t, u, f, g, h, l, p0, xs[r], r));
        let (keys, values) = (keys_upto(c, m, h, l, base, p0, xs, r), values_upto(c, m, h, l, base, p0, xs, r));
        assert forall|p: int| p0 <= p <= p0 + r implies #[trigger] keys[p] == nth(mt, kc, base, w, p) by {
            assert(chunk_row(c, m0, s1, t, u, f, g, h, l, p0, xs[p - p0], p - p0));
        }
        assert forall|p: int| p0 <= p <= p0 + r implies #[trigger] values[p] == nth(mt, vc, base, w, p) by {
            assert(chunk_row(c, m0, s1, t, u, f, g, h, l, p0, xs[p - p0], p - p0));
        }
        lemma_table(m, mt, kc, base, w, p0, n as int, r, keys);
        lemma_table(m, mt, vc, base, w, p0, n as int, r, values);
        let a = Attention {
            query: query_of(c, h, l, xs[r], p0 + r),
            keys,
            values,
            heads: h.heads,
            kv_heads: h.kv_heads,
            head_dim: h.head_dim,
            at: p0 + r,
        };
        assert(seen(mt, g, qb, l, r, p0 + r) == a);
    }
    assert(got =~= out);
    lemma_kept_rows(mt, e, base, w);
    assert forall|r: int| 0 <= r < n implies #[trigger] nth(e, kc, base, w, p0 + r) == key_of(c, h, l, xs[r], p0 + r) by {
        assert(chunk_row(c, m0, s1, t, u, f, g, h, l, p0, xs[r], r));
        assert(nth(e, kc, base, w, p0 + r) == nth(mt, kc, base, w, p0 + r));
    }
    assert forall|r: int| 0 <= r < n implies #[trigger] nth(e, vc, base, w, p0 + r) == value_of(c, h, l, xs[r]) by {
        assert(chunk_row(c, m0, s1, t, u, f, g, h, l, p0, xs[r], r));
        assert(nth(e, vc, base, w, p0 + r) == nth(mt, vc, base, w, p0 + r));
    }
}

/// What the parts of a layer do to one row of a chunk.
spec fn chunk_row(
    c: Ctx,
    m0: Mem,
    s: Seq<CmdView>,
    t: Seq<CmdView>,
    u: Seq<CmdView>,
    f: Seq<CmdView>,
    g: Geo,
    h: Shape,
    l: usize,
    p0: int,
    x: Seq<Term>,
    r: int,
) -> bool {
    let (mt, e) = (run(c, m0, t), run(c, m0, f));
    let (w, hid, base) = (g.kv_dim as int, g.hidden as int, g.kv_base as int / 2);
    &&& nth(mt, query_buf(g), 0, g.q_dim as int, r) == query_of(c, h, l, x, p0 + r)
    &&& nth(mt, Buf::KCache(l), base, w, p0 + r) == key_of(c, h, l, x, p0 + r)
    &&& nth(mt, Buf::VCache(l), base, w, p0 + r) == value_of(c, h, l, x)
    &&& nth(e, Buf::X, 0, hid, r) == feed_out(
        c,
        h,
        l,
        attention_out(c, h, l, x, seen(mt, g, query_buf(g), l, r, p0 + r)),
    )
}

/// Without a window a chunk moves in one piece.
proof fn lemma_spans_once(s: Seq<CmdView>, g: Geo, l: usize, pos0: u32, n: u32)
    requires
        g.win is None,
    ensures
        ({
            let spans = chunk_spans(g, pos0 as int, n as int);
            let sp = Span { row: 0, slot: pos0 as usize, len: n as usize };
            quant_stage_spans(s, g, l, pos0, spans, spans.len()) == quant_stage_span(s, g, l, pos0, sp)
        }),
{
    let spans = chunk_spans(g, pos0 as int, n as int);
    assert(quant_stage_spans(s, g, l, pos0, spans, 0) == s);
    assert(spans.len() == 1);
}

// ---------- a whole step ----------

/// Row `j` of the logits is the head over row `n - r + j` of the last norm, of the
/// `n` rows of a step that wants the logits of its last `r`.
pub proof fn lemma_quant_head_reads_the_last_rows(c: Ctx, m0: Mem, s: Seq<CmdView>, md: QuantModel, st: Step, j: int)
    requires
        st.logits_rows <= st.n,
        st.n * md.geo.hidden <= u32::MAX,
        (c.selector)(Buf::Weight(md.blocks@.len() as usize, Proj::Head)) == md.head,
        0 <= j < st.logits_rows,
    ensures
        ({
            let (m, e) = (run(c, m0, s), run(c, m0, quant_head(s, md, st)));
            let (hid, vocab, last) = (md.geo.hidden as int, md.geo.vocab as int, md.blocks@.len() as usize);
            &&& nth(e, Buf::Logits, 0, vocab, j) == project(
                c,
                last,
                Proj::Head,
                normed(Buf::Norm(last, NormId::Final), nth(m, Buf::X, 0, hid, st.n - st.logits_rows + j)),
                vocab,
            )
            &&& caches_kept(m, e)
        }),
{
    let g = md.geo;
    let conc = !crate::gpu::quant::quant_fused(g, st.n);
    let (n, q, hid) = (st.n as int, st.logits_rows as int, g.hidden as int);
    let last = md.blocks@.len() as usize;
    let w = Buf::Norm(last, NormId::Final);
    let r = n - q + j;
    assert(0 <= (n - q) * hid <= n * hid) by (nonlinear_arith)
        requires
            0 <= q <= n,
            0 <= hid,
    ;
    let m = run(c, m0, s);
    let s1 = with_barrier(marked_norm(s, g, w, st.n), conc, seq![Buf::Xn]);
    lemma_marked_norm(c, m0, s, g, w, st.n, conc, r);
    let m1 = run(c, m0, s1);
    let l = lin_of(g, last, Proj::Head, false);
    let first = ((st.n - st.logits_rows) * g.hidden * 4) as u64;
    assert(first as int / 4 == (n - q) * hid);
    lemma_shift(m1, Buf::Xn, 0, hid, n - q, j);
    assert(nth(m1, Buf::Xn, (n - q) * hid, hid, j) == normed(w, nth(m, Buf::X, 0, hid, r)));
    if st.logits_rows == 1 && !conc {
        lemma_qmv(c, m0, s1, Kernel::QMatvec(md.head), md.head, l, Buf::Xn, Buf::Logits, 0);
        let e = run(c, m0, quant_head(s, md, st));
        assert(j == 0 && n == 1 && q == 1);
        assert((n - q) * hid == 0) by (nonlinear_arith)
            requires
                n == q,
        ;
        assert(nth(e, Buf::Logits, 0, g.vocab as int, 0) == row(e, Buf::Logits, 0, g.vocab as int)) by {
            reveal(nth);
        }
        assert(nth(m1, Buf::Xn, 0, hid, 0) == row(m1, Buf::Xn, 0, hid)) by {
            reveal(nth);
        }
    } else {
        lemma_qmm(c, m0, s1, md.head, l, Buf::Xn, first, Buf::Logits, 0, st.logits_rows, j);
    }
}

/// What the law of a step asks for: no window, full attention throughout, and
/// weights that are read as they are held.
pub open spec fn full_model(c: Ctx, md: QuantModel, st: Step) -> bool {
    &&& quant_geo(md.geo)
    &&& rows_fit(md.geo, st)
    &&& st.layer0 <= md.blocks@.len() <= usize::MAX
    &&& (c.selector)(Buf::Weight(md.blocks@.len() as usize, Proj::Head)) == md.head
    &&& forall|l: int|
        0 <= l < md.blocks@.len() ==> (#[trigger] md.blocks@[l]).attn is Full && types_known(c, l as usize, md.blocks@[l])
}

/// The shapes of the layers.
pub open spec fn full_shapes(md: QuantModel) -> Seq<Shape> {
    Seq::new(md.blocks@.len(), |i: int| quant_shape(md.geo, md.blocks@[i].attn->qk_norm))
}

/// The rows of a step after `k` layers.
pub open spec fn full_rows(c: Ctx, m: Mem, md: QuantModel, st: Step, k: int) -> Seq<Seq<Term>> {
    hidden_rows(
        c,
        m,
        full_shapes(md),
        md.geo.kv_base as int / 2,
        st.pos0 as int,
        st.layer0 as int,
        rows_of(m, Buf::X, md.geo.hidden as int, st.n as int),
        k,
    )
}

proof fn lemma_quant_layers(c: Ctx, m: Mem, md: QuantModel, st: Step, k: int)
    requires
        full_model(c, md, st),
        st.layer0 <= k <= md.blocks@.len(),
    ensures
        ({
            let e = run(c, m, quant_layers(Seq::empty(), md, st, k));
            let (g, n) = (md.geo, st.n as int);
            &&& rows_of(e, Buf::X, g.hidden as int, n) == full_rows(c, m, md, st, k)
            &&& forall|l: usize, a: int, w: int|
                l >= k ==> #[trigger] row(e, Buf::KCache(l), a, w) == row(m, Buf::KCache(l), a, w)
            &&& forall|l: usize, a: int, w: int|
                l >= k ==> #[trigger] row(e, Buf::VCache(l), a, w) == row(m, Buf::VCache(l), a, w)
            &&& forall|l: usize|
                st.layer0 <= l < k ==> #[trigger] cached(
                    c,
                    m,
                    e,
                    g.kv_base as int / 2,
                    full_shapes(md)[l as int],
                    l,
                    st.pos0 as int,
                    full_rows(c, m, md, st, l as int),
                )
        }),
    decreases k - st.layer0,
{
    if k > st.layer0 {
        lemma_quant_layers(c, m, md, st, k - 1);
        let before = quant_layers(Seq::empty(), md, st, k - 1);
        let (b, j) = (md.blocks@[k - 1], (k - 1) as usize);
        let (d, e) = (run(c, m, before), run(c, m, quant_layers(Seq::empty(), md, st, k)));
        let g = md.geo;
        let h = full_shapes(md)[k - 1];
        let (hid, n, p0, base) = (g.hidden as int, st.n as int, st.pos0 as int, g.kv_base as int / 2);
        reveal(quant_layer);
        assert(md.blocks@[k - 1].attn is Full);
        if crate::gpu::quant::quant_fused(g, st.n) {
            lemma_quant_decode_layer(c, m, before, md, b, j, st.pos0);
        } else {
            lemma_quant_prefill_layer(c, m, before, md, b, j, st);
        }
        assert(layer_done(c, d, e, g, h, j, p0, n));
        lemma_rows_out_same(c, m, d, h, j, base, p0, full_rows(c, m, md, st, k - 1));
        assert(0 <= g.kv_heads * g.head_dim) by (nonlinear_arith);
        lemma_cached_now(c, m, d, e, g, h, j, p0, n);
        assert forall|l: usize| st.layer0 <= l < k implies #[trigger] cached(
            c,
            m,
            e,
            base,
            full_shapes(md)[l as int],
            l,
            p0,
            full_rows(c, m, md, st, l as int),
        ) by {
            if l != j {
                lemma_cached_stays(c, m, d, e, base, full_shapes(md)[l as int], l, j, p0, full_rows(c, m, md, st, l as int));
            }
        }
    }
}

/// A step over quantized weights takes its rows, be it one or a chunk, through the
/// same transformer as a dense one. The logits are those of its last rows, and
/// every layer's cache holds the keys and values of the rows behind those that were
/// there.
pub proof fn lemma_quant_step_is_the_transformer(c: Ctx, m: Mem, md: QuantModel, st: Step)
    requires
        full_model(c, md, st),
    ensures
        ({
            let e = run(c, m, quant_step(md, st));
            let (g, last) = (md.geo, md.blocks@.len() as usize);
            &&& forall|j: int|
                0 <= j < st.logits_rows ==> #[trigger] nth(e, Buf::Logits, 0, g.vocab as int, j) == project(
                    c,
                    last,
                    Proj::Head,
                    normed(
                        Buf::Norm(last, NormId::Final),
                        full_rows(c, m, md, st, last as int)[st.n - st.logits_rows + j],
                    ),
                    g.vocab as int,
                )
            &&& forall|l: usize|
                st.layer0 <= l < last ==> #[trigger] cached(
                    c,
                    m,
                    e,
                    g.kv_base as int / 2,
                    full_shapes(md)[l as int],
                    l,
                    st.pos0 as int,
                    full_rows(c, m, md, st, l as int),
                )
        }),
{
    let (g, last) = (md.geo, md.blocks@.len() as usize);
    let (hid, n, base) = (g.hidden as int, st.n as int, g.kv_base as int / 2);
    lemma_quant_layers(c, m, md, st, last as int);
    let t = quant_layers(Seq::empty(), md, st, last as int);
    let (m2, e) = (run(c, m, t), run(c, m, quant_step(md, st)));
    assert(e == run(c, m, quant_head(t, md, st)));
    assert forall|j: int| 0 <= j < st.logits_rows implies #[trigger] nth(e, Buf::Logits, 0, g.vocab as int, j) == project(
        c,
        last,
        Proj::Head,
        normed(Buf::Norm(last, NormId::Final), full_rows(c, m, md, st, last as int)[st.n - st.logits_rows + j]),
        g.vocab as int,
    ) by {
        lemma_quant_head_reads_the_last_rows(c, m, t, md, st, j);
        assert(rows_of(m2, Buf::X, hid, n)[st.n - st.logits_rows + j] == nth(
            m2,
            Buf::X,
            0,
            hid,
            st.n - st.logits_rows + j,
        ));
    }
    if st.logits_rows > 0 {
        lemma_quant_head_reads_the_last_rows(c, m, t, md, st, 0);
    }
    assert(caches_kept(m2, e));
    assert forall|l: usize| st.layer0 <= l < last implies #[trigger] cached(
        c,
        m,
        e,
        base,
        full_shapes(md)[l as int],
        l,
        st.pos0 as int,
        full_rows(c, m, md, st, l as int),
    ) by {
        lemma_cached_stays(
            c,
            m,
            m2,
            e,
            base,
            full_shapes(md)[l as int],
            l,
            (l + 1) as usize,
            st.pos0 as int,
            full_rows(c, m, md, st, l as int),
        );
    }
}

} // verus!
