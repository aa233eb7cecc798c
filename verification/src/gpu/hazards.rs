//! What a step touches and in which order. Dispatches of a prefill step run
//! concurrently, so two of them that share a buffer must have a barrier on it
//! between them; and a layer must leave alone the caches of the other kind.
use vstd::prelude::*;

use crate::gpu::dense::{Step, lin_of, v_base};
use crate::gpu::encode::{
    Lin, add_inplace, attention, attention_decode, decode_partial, matvec, qmatmul, rmsnorm,
    rmsnorm_cache, rmsnorm_heads, rope, rope_cache, rope_qk, silu_mul, to_half,
};
use crate::gpu::linear_block::{
    DeltaGeo, conv_chunk, conv_one, conv_roll, delta_block, delta_gates, delta_rule, delta_tokens,
    l2norm, output_norm, row_at,
};
use crate::gpu::ops::{
    Buf, CmdView, DispatchView, Geo, Kernel, NormId, Params, Proj, Slot, per_element, with_barrier,
};
use crate::gpu::quant::{
    QuantAttn, QuantBlock, QuantModel, add_residual, apply_gate, chunk_spans, decode_full,
    decode_linear, gate_count, joint, marked_norm, prefill_full, prefill_linear, qmm, qmv,
    quant_decode_attn, quant_decode_layer, quant_fused, quant_head, quant_layer, quant_layers,
    quant_lin, quant_prefill_attn, quant_prefill_layer, quant_stage_span, quant_stage_spans,
    quant_step, query_buf, role_of, split_gate,
};
use crate::gpu::timing::Phase;
use crate::gpu::window::Span;

verus! {

pub open spec fn slot_is(s: Slot, b: Buf) -> bool {
    s matches Slot::Buf(x, _) && x == b
}

/// The command is a dispatch that `b` is bound to.
pub open spec fn binds(c: CmdView, b: Buf) -> bool {
    match c {
        CmdView::Run(d) => exists|i: int| 0 <= i < d.slots.len() && #[trigger] slot_is(d.slots[i], b),
        _ => false,
    }
}

/// The command is a barrier on `b`.
pub open spec fn orders(c: CmdView, b: Buf) -> bool {
    c matches CmdView::Barrier(bufs) && bufs.contains(b)
}

/// No command binds `b`.
pub open spec fn unbound(s: Seq<CmdView>, b: Buf) -> bool {
    forall|i: int| 0 <= i < s.len() ==> !binds(#[trigger] s[i], b)
}

/// Between any two commands that bind `b` stands a barrier on it.
pub open spec fn apart(s: Seq<CmdView>, b: Buf) -> bool {
    forall|i: int, j: int|
        0 <= i < j < s.len() && binds(#[trigger] s[i], b) && binds(#[trigger] s[j], b) ==> ordered_between(s, i, j, b)
}

pub open spec fn ordered_between(s: Seq<CmdView>, i: int, j: int, b: Buf) -> bool {
    exists|k: int| i < k < j && orders(#[trigger] s[k], b)
}

/// Every command that binds `b` has a barrier on it behind it.
pub open spec fn settled(s: Seq<CmdView>, b: Buf) -> bool {
    forall|i: int| 0 <= i < s.len() && binds(#[trigger] s[i], b) ==> ordered_between(s, i, s.len() as int, b)
}

/// What is followed through a step: that a buffer is never bound; that its uses
/// are apart; that they are apart and the last one is settled.
pub enum Track {
    Unbound,
    Apart,
    Settled,
}

#[verifier::opaque]
pub open spec fn keeps(m: Track, s: Seq<CmdView>, b: Buf) -> bool {
    match m {
        Track::Unbound => unbound(s, b),
        Track::Apart => apart(s, b),
        Track::Settled => apart(s, b) && settled(s, b),
    }
}

/// The buffers that are followed: caches, states and the output gate.
pub open spec fn followed(b: Buf) -> bool {
    match b {
        Buf::KCache(_) | Buf::VCache(_) | Buf::ConvState(_) | Buf::DeltaState(_) | Buf::QGate => true,
        _ => false,
    }
}

pub(crate) proof fn lemma_pushed(m: Track, s: Seq<CmdView>, t: Seq<CmdView>, b: Buf)
    requires
        keeps(m, s, b),
        t == s.push(t.last()),
        !binds(t.last(), b),
    ensures
        keeps(m, t, b),
{
    reveal(keeps);
    let n = s.len() as int;
    assert(forall|i: int| 0 <= i < n ==> t[i] == s[i]);
    match m {
        Track::Unbound => {},
        _ => {
            lemma_apart_kept(s, t, b);
            if settled(s, b) {
                assert forall|i: int| 0 <= i < t.len() && binds(#[trigger] t[i], b) implies ordered_between(
                    t,
                    i,
                    t.len() as int,
                    b,
                ) by {
                    assert(binds(s[i], b));
                    let k = choose|k: int| i < k < n && orders(#[trigger] s[k], b);
                    assert(orders(t[k], b));
                }
            }
        },
    }
}

proof fn lemma_apart_kept(s: Seq<CmdView>, t: Seq<CmdView>, b: Buf)
    requires
        apart(s, b),
        t == s.push(t.last()),
        !binds(t.last(), b),
    ensures
        apart(t, b),
{
    assert(forall|i: int| 0 <= i < s.len() ==> t[i] == s[i]);
    assert forall|i: int, j: int|
        0 <= i < j < t.len() && binds(#[trigger] t[i], b) && binds(#[trigger] t[j], b) implies ordered_between(
        t,
        i,
        j,
        b,
    ) by {
        assert(binds(s[i], b) && binds(s[j], b));
        let k = choose|k: int| i < k < j && orders(#[trigger] s[k], b);
        assert(orders(t[k], b));
    }
}

/// A mark binds nothing.
proof fn lemma_mark(m: Track, s: Seq<CmdView>, p: Phase, n: u32, b: Buf)
    requires
        keeps(m, s, b),
    ensures
        keeps(m, s.push(CmdView::Mark(p, n)), b),
{
    let t = s.push(CmdView::Mark(p, n));
    assert(t.last() == CmdView::Mark(p, n));
    lemma_pushed(m, s, t, b);
}

/// A barrier binds nothing.
pub(crate) proof fn lemma_bar(m: Track, s: Seq<CmdView>, conc: bool, bufs: Seq<Buf>, b: Buf)
    requires
        keeps(m, s, b),
    ensures
        keeps(m, with_barrier(s, conc, bufs), b),
{
    if conc {
        let t = s.push(CmdView::Barrier(bufs));
        assert(t.last() == CmdView::Barrier(bufs));
        lemma_pushed(m, s, t, b);
    }
}

/// A barrier on `b` settles it.
proof fn lemma_bar_settles(s: Seq<CmdView>, bufs: Seq<Buf>, b: Buf)
    requires
        keeps(Track::Apart, s, b),
        bufs.contains(b),
    ensures
        keeps(Track::Settled, with_barrier(s, true, bufs), b),
{
    reveal(keeps);
    let t = s.push(CmdView::Barrier(bufs));
    assert(t.last() == CmdView::Barrier(bufs));
    lemma_apart_kept(s, t, b);
    assert forall|i: int| 0 <= i < t.len() && binds(#[trigger] t[i], b) implies ordered_between(
        t,
        i,
        t.len() as int,
        b,
    ) by {
        assert(orders(t[s.len() as int], b));
    }
}

/// A use of a settled buffer keeps its uses apart.
proof fn lemma_use(s: Seq<CmdView>, t: Seq<CmdView>, b: Buf)
    requires
        keeps(Track::Settled, s, b),
        t == s.push(t.last()),
    ensures
        keeps(Track::Apart, t, b),
{
    reveal(keeps);
    let n = s.len() as int;
    assert(forall|i: int| 0 <= i < n ==> t[i] == s[i]);
    assert forall|i: int, j: int|
        0 <= i < j < t.len() && binds(#[trigger] t[i], b) && binds(#[trigger] t[j], b) implies ordered_between(
        t,
        i,
        j,
        b,
    ) by {
        assert(binds(s[i], b));
        if j < n {
            assert(binds(s[j], b));
            let k = choose|k: int| i < k < j && orders(#[trigger] s[k], b);
            assert(orders(t[k], b));
        } else {
            let k = choose|k: int| i < k < n && orders(#[trigger] s[k], b);
            assert(orders(t[k], b));
        }
    }
}

// ---------- the kernels ----------

proof fn lemma_norm(m: Track, s: Seq<CmdView>, g: Geo, weight: Buf, n: u32, b: Buf)
    requires
        keeps(m, s, b),
        followed(b),
        !followed(weight),
    ensures
        keeps(m, marked_norm(s, g, weight, n), b),
{
    let s1 = s.push(CmdView::Mark(Phase::Norm, 1));
    lemma_mark(m, s, Phase::Norm, 1, b);
    lemma_pushed(m, s1, rmsnorm(s1, g, Buf::X, weight, Buf::Xn, n), b);
}

proof fn lemma_qmv(m: Track, s: Seq<CmdView>, kernel: Kernel, sel: u32, l: Lin, x: Buf, y: Buf, y_off: u64, b: Buf)
    requires
        keeps(m, s, b),
        followed(b),
        x != b,
        y != b,
    ensures
        keeps(m, qmv(s, kernel, sel, l, x, y, y_off), b),
{
    let s1 = s.push(CmdView::Mark(Phase::Mm(role_of(l.proj), sel), 1));
    lemma_mark(m, s, Phase::Mm(role_of(l.proj), sel), 1, b);
    lemma_pushed(m, s1, matvec(s1, kernel, l, x, 0, y, y_off), b);
}

proof fn lemma_qmm(m: Track, s: Seq<CmdView>, sel: u32, l: Lin, x: Buf, x_off: u64, y: Buf, y_off: u64, n: u32, b: Buf)
    requires
        keeps(m, s, b),
        followed(b),
        x != b,
        y != b,
    ensures
        keeps(m, qmm(s, sel, l, x, x_off, y, y_off, n), b),
{
    let s1 = s.push(CmdView::Mark(Phase::Mm(role_of(l.proj), sel), 1));
    lemma_mark(m, s, Phase::Mm(role_of(l.proj), sel), 1, b);
    lemma_pushed(m, s1, qmatmul(s1, sel, l, x, x_off, y, y_off, n), b);
}

proof fn lemma_residual(m: Track, s: Seq<CmdView>, g: Geo, n: u32, b: Buf)
    requires
        keeps(m, s, b),
        followed(b),
    ensures
        keeps(m, add_residual(s, g, n), b),
{
    let s1 = with_barrier(s, true, seq![Buf::Xb]);
    lemma_bar(m, s, true, seq![Buf::Xb], b);
    let s2 = s1.push(CmdView::Mark(Phase::Elem, 1));
    lemma_mark(m, s1, Phase::Elem, 1, b);
    let s3 = add_inplace(s2, Buf::X, Buf::Xb, (n * g.hidden) as u64);
    lemma_pushed(m, s2, s3, b);
    lemma_bar(m, s3, true, seq![Buf::X], b);
}

/// The kernels of the output gate touch only that buffer of what is followed.
proof fn lemma_split(m: Track, s: Seq<CmdView>, g: Geo, n: u32, conc: bool, b: Buf)
    requires
        keeps(m, s, b),
        followed(b),
        b != Buf::QGate,
    ensures
        keeps(m, split_gate(s, g, n, conc), b),
{
    let pair = seq![Buf::QSplit, Buf::QGate];
    let s1 = s.push(CmdView::Mark(Phase::Attn, gate_count(g)));
    lemma_mark(m, s, Phase::Attn, gate_count(g), b);
    if joint(g) {
        let s2 = with_barrier(s1, conc, pair);
        lemma_bar(m, s1, conc, pair, b);
        let s3 = s2.push(split_cmd(g, n));
        lemma_pushed(m, s2, s3, b);
        lemma_bar(m, s3, conc, pair, b);
    }
}

/// The dispatch that splits queries and gate.
pub open spec fn split_cmd(g: Geo, n: u32) -> CmdView {
    CmdView::Run(per_element(
        Kernel::SplitQGate,
        seq![
            Slot::Buf(Buf::Q, 0),
            Slot::Buf(Buf::QSplit, 0),
            Slot::Buf(Buf::QGate, 0),
            Slot::Params(Params::QGSplit { head_dim: g.head_dim, n_heads: g.heads, n_rows: n }),
        ],
        n * g.q_dim,
    ))
}

/// The dispatch that applies the output gate.
pub open spec fn gate_cmd(g: Geo, n: u32) -> CmdView {
    CmdView::Run(per_element(
        Kernel::AttnOutGate,
        seq![Slot::Buf(Buf::Att, 0), Slot::Buf(Buf::QGate, 0), Slot::U32((n * g.q_dim) as u32)],
        n * g.q_dim,
    ))
}

proof fn lemma_apply(m: Track, s: Seq<CmdView>, g: Geo, n: u32, conc: bool, b: Buf)
    requires
        keeps(m, s, b),
        followed(b),
        b != Buf::QGate,
    ensures
        keeps(m, apply_gate(s, g, n, conc), b),
{
    let s1 = s.push(CmdView::Mark(Phase::Attn, gate_count(g)));
    lemma_mark(m, s, Phase::Attn, gate_count(g), b);
    if joint(g) {
        let s2 = s1.push(gate_cmd(g, n));
        lemma_pushed(m, s1, s2, b);
        lemma_bar(m, s2, conc, seq![Buf::Att], b);
    }
}

/// The split orders itself behind whatever read the output gate before.
proof fn lemma_split_orders(s: Seq<CmdView>, g: Geo, n: u32)
    requires
        keeps(Track::Apart, s, Buf::QGate),
        joint(g),
    ensures
        keeps(Track::Settled, split_gate(s, g, n, true), Buf::QGate),
{
    let b = Buf::QGate;
    let pair = seq![Buf::QSplit, Buf::QGate];
    assert(pair[1] == b);
    let s1 = s.push(CmdView::Mark(Phase::Attn, gate_count(g)));
    lemma_mark(Track::Apart, s, Phase::Attn, gate_count(g), b);
    let s2 = with_barrier(s1, true, pair);
    lemma_bar_settles(s1, pair, b);
    let s3 = s2.push(split_cmd(g, n));
    lemma_use(s2, s3, b);
    lemma_bar_settles(s3, pair, b);
}

proof fn lemma_apply_orders(s: Seq<CmdView>, g: Geo, n: u32)
    requires
        keeps(Track::Settled, s, Buf::QGate),
        joint(g),
    ensures
        keeps(Track::Apart, apply_gate(s, g, n, true), Buf::QGate),
{
    let b = Buf::QGate;
    let s1 = s.push(CmdView::Mark(Phase::Attn, gate_count(g)));
    lemma_mark(Track::Settled, s, Phase::Attn, gate_count(g), b);
    let s2 = s1.push(gate_cmd(g, n));
    lemma_use(s1, s2, b);
    lemma_bar(Track::Apart, s2, true, seq![Buf::Att], b);
}

/// Whether a full-attention block at layer `l` leaves `b` alone.
pub open spec fn beside_full(b: Buf, l: usize) -> bool {
    match b {
        Buf::KCache(x) | Buf::VCache(x) => x != l,
        Buf::ConvState(_) | Buf::DeltaState(_) => true,
        _ => false,
    }
}

/// Whether a linear block at layer `l` leaves `b` alone.
pub open spec fn beside_linear(b: Buf, l: usize) -> bool {
    match b {
        Buf::KCache(_) | Buf::VCache(_) | Buf::QGate => true,
        Buf::ConvState(x) | Buf::DeltaState(x) => x != l,
        _ => false,
    }
}

proof fn lemma_decode_full(
    m: Track,
    s: Seq<CmdView>,
    g: Geo,
    l: usize,
    pos: u32,
    q: u32,
    k: u32,
    v: u32,
    o: u32,
    qk_norm: bool,
    b: Buf,
)
    requires
        keeps(m, s, b),
        beside_full(b, l),
    ensures
        keeps(m, decode_full(s, g, l, pos, q, k, v, o, qk_norm), b),
{
    let off = g.row_off(g.row_of(pos as int)) as u64;
    let qb = query_buf(g);
    lemma_qmv(m, s, Kernel::QMatvec(q), q, lin_of(g, l, Proj::Q, false), Buf::Xn, Buf::Q, 0, b);
    let s = qmv(s, Kernel::QMatvec(q), q, lin_of(g, l, Proj::Q, false), Buf::Xn, Buf::Q, 0);
    lemma_split(m, s, g, 1, false, b);
    let s = split_gate(s, g, 1, false);
    lemma_qmv(m, s, Kernel::QMatvecH(k), k, lin_of(g, l, Proj::K, false), Buf::Xn, Buf::KCache(l), off, b);
    let s = qmv(s, Kernel::QMatvecH(k), k, lin_of(g, l, Proj::K, false), Buf::Xn, Buf::KCache(l), off);
    lemma_qmv(m, s, Kernel::QMatvecH(v), v, lin_of(g, l, Proj::V, false), Buf::Xn, Buf::VCache(l), off, b);
    let s = qmv(s, Kernel::QMatvecH(v), v, lin_of(g, l, Proj::V, false), Buf::Xn, Buf::VCache(l), off);
    let s = if qk_norm {
        lemma_mark(m, s, Phase::Norm, 1, b);
        let s = s.push(CmdView::Mark(Phase::Norm, 1));
        let t = rmsnorm_heads(s, qb, Buf::Norm(l, NormId::QHead), g.heads as u64, g.head_dim);
        lemma_pushed(m, s, t, b);
        lemma_mark(m, t, Phase::Norm, 1, b);
        let s = t.push(CmdView::Mark(Phase::Norm, 1));
        let t = rmsnorm_cache(s, Buf::KCache(l), off, Buf::Norm(l, NormId::KHead), g.kv_heads as u64, g.head_dim);
        lemma_pushed(m, s, t, b);
        t
    } else {
        s
    };
    lemma_mark(m, s, Phase::Rope, 1, b);
    let s = s.push(CmdView::Mark(Phase::Rope, 1));
    let t = rope_qk(s, g, qb, Buf::KCache(l), off, pos);
    lemma_pushed(m, s, t, b);
    lemma_mark(m, t, Phase::Attn, 2, b);
    let s = t.push(CmdView::Mark(Phase::Attn, 2));
    let t = s.push(CmdView::Run(decode_partial(g, qb, l, pos)));
    lemma_pushed(m, s, t, b);
    let u = attention_decode(s, g, qb, l, pos);
    lemma_pushed(m, t, u, b);
    lemma_apply(m, u, g, 1, false, b);
    let s = apply_gate(u, g, 1, false);
    lemma_qmv(m, s, Kernel::QMatvecAcc(o), o, lin_of(g, l, Proj::O, false), Buf::Att, Buf::X, 0, b);
}

proof fn lemma_span(m: Track, s: Seq<CmdView>, g: Geo, l: usize, pos0: u32, sp: Span, b: Buf)
    requires
        keeps(m, s, b),
        followed(b),
        b != Buf::KCache(l),
        b != Buf::VCache(l),
    ensures
        keeps(m, quant_stage_span(s, g, l, pos0, sp), b),
{
    let src = (sp.row * g.kv_dim * 4) as u64;
    let dst = g.row_off(sp.slot as int) as u64;
    let dim = (sp.len * g.kv_dim) as u64;
    lemma_mark(m, s, Phase::KvStage, 1, b);
    let s = s.push(CmdView::Mark(Phase::KvStage, 1));
    let t = to_half(s, Buf::Kvs, src, Buf::KCache(l), dst, dim);
    lemma_pushed(m, s, t, b);
    lemma_mark(m, t, Phase::KvStage, 1, b);
    let s = t.push(CmdView::Mark(Phase::KvStage, 1));
    let t = to_half(s, Buf::Kvs, (v_base(g) + src) as u64, Buf::VCache(l), dst, dim);
    lemma_pushed(m, s, t, b);
    lemma_bar(m, t, true, seq![Buf::KCache(l)], b);
    let s = with_barrier(t, true, seq![Buf::KCache(l)]);
    lemma_mark(m, s, Phase::Rope, 1, b);
    let s = s.push(CmdView::Mark(Phase::Rope, 1));
    let pos = (pos0 + sp.row) as u32;
    let t = rope_cache(s, g, Buf::KCache(l), dst, g.kv_heads, pos, sp.len as u32, g.rot_dim, g.head_dim);
    lemma_pushed(m, s, t, b);
}

proof fn lemma_spans(m: Track, s: Seq<CmdView>, g: Geo, l: usize, pos0: u32, spans: Seq<Span>, k: nat, b: Buf)
    requires
        keeps(m, s, b),
        followed(b),
        b != Buf::KCache(l),
        b != Buf::VCache(l),
    ensures
        keeps(m, quant_stage_spans(s, g, l, pos0, spans, k), b),
    decreases k,
{
    if k > 0 {
        lemma_spans(m, s, g, l, pos0, spans, (k - 1) as nat, b);
        lemma_span(m, quant_stage_spans(s, g, l, pos0, spans, (k - 1) as nat), g, l, pos0, spans[k - 1], b);
    }
}

/// The projections of a prefill layer up to the split.
spec fn before_split(s: Seq<CmdView>, g: Geo, l: usize, n: u32, q: u32, k: u32, v: u32) -> Seq<CmdView> {
    let s = qmm(s, q, lin_of(g, l, Proj::Q, false), Buf::Xn, 0, Buf::Q, 0, n);
    let s = qmm(s, k, lin_of(g, l, Proj::K, false), Buf::Xn, 0, Buf::Kvs, 0, n);
    let s = qmm(s, v, lin_of(g, l, Proj::V, false), Buf::Xn, 0, Buf::Kvs, v_base(g) as u64, n);
    with_barrier(s, true, seq![Buf::Q, Buf::Kvs])
}

proof fn lemma_before_split(m: Track, s: Seq<CmdView>, g: Geo, l: usize, n: u32, q: u32, k: u32, v: u32, b: Buf)
    requires
        keeps(m, s, b),
        followed(b),
    ensures
        keeps(m, before_split(s, g, l, n, q, k, v), b),
{
    lemma_qmm(m, s, q, lin_of(g, l, Proj::Q, false), Buf::Xn, 0, Buf::Q, 0, n, b);
    let s = qmm(s, q, lin_of(g, l, Proj::Q, false), Buf::Xn, 0, Buf::Q, 0, n);
    lemma_qmm(m, s, k, lin_of(g, l, Proj::K, false), Buf::Xn, 0, Buf::Kvs, 0, n, b);
    let s = qmm(s, k, lin_of(g, l, Proj::K, false), Buf::Xn, 0, Buf::Kvs, 0, n);
    lemma_qmm(m, s, v, lin_of(g, l, Proj::V, false), Buf::Xn, 0, Buf::Kvs, v_base(g) as u64, n, b);
    let s = qmm(s, v, lin_of(g, l, Proj::V, false), Buf::Xn, 0, Buf::Kvs, v_base(g) as u64, n);
    lemma_bar(m, s, true, seq![Buf::Q, Buf::Kvs], b);
}

/// The rest of a prefill layer's attention, from the head norms up to the output gate.
spec fn split_to_gate(s: Seq<CmdView>, g: Geo, l: usize, pos0: u32, n: u32, qk_norm: bool) -> Seq<CmdView> {
    let qb = query_buf(g);
    let s = if qk_norm {
        let s = s.push(CmdView::Mark(Phase::Norm, 1));
        let s = rmsnorm_heads(s, qb, Buf::Norm(l, NormId::QHead), (n * g.heads) as u64, g.head_dim);
        let s = s.push(CmdView::Mark(Phase::Norm, 1));
        let s = rmsnorm_heads(s, Buf::Kvs, Buf::Norm(l, NormId::KHead), (n * g.kv_heads) as u64, g.head_dim);
        with_barrier(s, true, seq![qb, Buf::Kvs])
    } else {
        s
    };
    let s = rope(s.push(CmdView::Mark(Phase::Rope, 1)), g, qb, g.heads, pos0, n, g.rot_dim);
    let spans = chunk_spans(g, pos0 as int, n as int);
    let s = quant_stage_spans(s, g, l, pos0, spans, spans.len());
    let s = with_barrier(s, true, seq![qb, Buf::KCache(l), Buf::VCache(l), Buf::Kvs]);
    let s = attention(s.push(CmdView::Mark(Phase::Attn, 1)), g, qb, l, pos0, n);
    with_barrier(s, true, seq![Buf::Att, Buf::Scores])
}

proof fn lemma_split_to_gate(m: Track, s: Seq<CmdView>, g: Geo, l: usize, pos0: u32, n: u32, qk_norm: bool, b: Buf)
    requires
        keeps(m, s, b),
        followed(b),
        b != Buf::KCache(l),
        b != Buf::VCache(l),
    ensures
        keeps(m, split_to_gate(s, g, l, pos0, n, qk_norm), b),
{
    let qb = query_buf(g);
    let s = if qk_norm {
        lemma_mark(m, s, Phase::Norm, 1, b);
        let s = s.push(CmdView::Mark(Phase::Norm, 1));
        let t = rmsnorm_heads(s, qb, Buf::Norm(l, NormId::QHead), (n * g.heads) as u64, g.head_dim);
        lemma_pushed(m, s, t, b);
        lemma_mark(m, t, Phase::Norm, 1, b);
        let s = t.push(CmdView::Mark(Phase::Norm, 1));
        let t = rmsnorm_heads(s, Buf::Kvs, Buf::Norm(l, NormId::KHead), (n * g.kv_heads) as u64, g.head_dim);
        lemma_pushed(m, s, t, b);
        lemma_bar(m, t, true, seq![qb, Buf::Kvs], b);
        with_barrier(t, true, seq![qb, Buf::Kvs])
    } else {
        s
    };
    lemma_mark(m, s, Phase::Rope, 1, b);
    let s = s.push(CmdView::Mark(Phase::Rope, 1));
    let t = rope(s, g, qb, g.heads, pos0, n, g.rot_dim);
    lemma_pushed(m, s, t, b);
    let spans = chunk_spans(g, pos0 as int, n as int);
    lemma_spans(m, t, g, l, pos0, spans, spans.len(), b);
    let s = quant_stage_spans(t, g, l, pos0, spans, spans.len());
    let four = seq![qb, Buf::KCache(l), Buf::VCache(l), Buf::Kvs];
    lemma_bar(m, s, true, four, b);
    let s = with_barrier(s, true, four);
    lemma_mark(m, s, Phase::Attn, 1, b);
    let s = s.push(CmdView::Mark(Phase::Attn, 1));
    let t = attention(s, g, qb, l, pos0, n);
    lemma_pushed(m, s, t, b);
    lemma_bar(m, t, true, seq![Buf::Att, Buf::Scores], b);
}

proof fn lemma_prefill_full(
    m: Track,
    s: Seq<CmdView>,
    g: Geo,
    l: usize,
    pos0: u32,
    n: u32,
    q: u32,
    k: u32,
    v: u32,
    o: u32,
    qk_norm: bool,
    b: Buf,
)
    requires
        keeps(m, s, b),
        beside_full(b, l),
    ensures
        keeps(m, prefill_full(s, g, l, pos0, n, q, k, v, o, qk_norm), b),
{
    lemma_before_split(m, s, g, l, n, q, k, v, b);
    let s = before_split(s, g, l, n, q, k, v);
    lemma_split(m, s, g, n, true, b);
    let s = split_gate(s, g, n, true);
    lemma_split_to_gate(m, s, g, l, pos0, n, qk_norm, b);
    let s = split_to_gate(s, g, l, pos0, n, qk_norm);
    lemma_apply(m, s, g, n, true, b);
    let s = apply_gate(s, g, n, true);
    lemma_qmm(m, s, o, lin_of(g, l, Proj::O, false), Buf::Att, 0, Buf::Xb, 0, n, b);
    let s = qmm(s, o, lin_of(g, l, Proj::O, false), Buf::Att, 0, Buf::Xb, 0, n);
    lemma_residual(m, s, g, n, b);
}

/// A full-attention prefill layer keeps the uses of the output gate apart.
proof fn lemma_prefill_full_gate(
    s: Seq<CmdView>,
    g: Geo,
    l: usize,
    pos0: u32,
    n: u32,
    q: u32,
    k: u32,
    v: u32,
    o: u32,
    qk_norm: bool,
)
    requires
        keeps(Track::Apart, s, Buf::QGate),
    ensures
        keeps(Track::Apart, prefill_full(s, g, l, pos0, n, q, k, v, o, qk_norm), Buf::QGate),
{
    let b = Buf::QGate;
    let m = Track::Apart;
    lemma_before_split(m, s, g, l, n, q, k, v, b);
    let s = before_split(s, g, l, n, q, k, v);
    let t = split_gate(s, g, n, true);
    let u = split_to_gate(t, g, l, pos0, n, qk_norm);
    let w = apply_gate(u, g, n, true);
    if joint(g) {
        lemma_split_orders(s, g, n);
        lemma_split_to_gate(Track::Settled, t, g, l, pos0, n, qk_norm, b);
        lemma_apply_orders(u, g, n);
    } else {
        lemma_mark(m, s, Phase::Attn, 0, b);
        lemma_split_to_gate(m, t, g, l, pos0, n, qk_norm, b);
        lemma_mark(m, u, Phase::Attn, 0, b);
    }
    lemma_qmm(m, w, o, lin_of(g, l, Proj::O, false), Buf::Att, 0, Buf::Xb, 0, n, b);
    let s = qmm(w, o, lin_of(g, l, Proj::O, false), Buf::Att, 0, Buf::Xb, 0, n);
    lemma_residual(m, s, g, n, b);
}

// ---------- linear blocks ----------

/// The delta rule touches only its own state of what is followed.
proof fn lemma_rule(m: Track, s: Seq<CmdView>, d: DeltaGeo, l: usize, t: int, b: Buf)
    requires
        keeps(m, s, b),
        followed(b),
        b != Buf::DeltaState(l),
    ensures
        keeps(m, delta_rule(s, d, l, t), b),
{
    let c = row_at(t, d.channels);
    let dispatch = lemma_eight(
        Kernel::DeltaDecodeStep,
        Slot::Buf(Buf::DeltaState(l), 0),
        Slot::Buf(Buf::DnConvOut, c),
        Slot::Buf(Buf::DnConvOut, (c + d.keys * 4) as u64),
        Slot::Buf(Buf::DnConvOut, (c + 2 * d.keys * 4) as u64),
        Slot::Buf(Buf::DnG, row_at(t, d.n_v_heads)),
        Slot::Buf(Buf::DnBeta, row_at(t, d.n_v_heads)),
        Slot::Buf(Buf::DnOut, row_at(t, d.inner)),
        Slot::Params(
            Params::DeltaStep { d_state: d.d_state, n_v_heads: d.n_v_heads, group: d.n_v_heads / d.n_k_heads },
        ),
        d.inner as int,
        b,
    );
    assert(delta_rule(s, d, l, t) == s.push(CmdView::Run(dispatch)));
    lemma_pushed(m, s, delta_rule(s, d, l, t), b);
}

/// A dispatch over eight slots that are not `b` does not bind it.
proof fn lemma_eight(
    kernel: Kernel,
    s0: Slot,
    s1: Slot,
    s2: Slot,
    s3: Slot,
    s4: Slot,
    s5: Slot,
    s6: Slot,
    s7: Slot,
    n: int,
    b: Buf,
) -> (r: DispatchView)
    requires
        !slot_is(s0, b),
        !slot_is(s1, b),
        !slot_is(s2, b),
        !slot_is(s3, b),
        !slot_is(s4, b),
        !slot_is(s5, b),
        !slot_is(s6, b),
        !slot_is(s7, b),
    ensures
        r == per_element(kernel, seq![s0, s1, s2, s3, s4, s5, s6, s7], n),
        !binds(CmdView::Run(r), b),
{
    per_element(kernel, seq![s0, s1, s2, s3, s4, s5, s6, s7], n)
}

proof fn lemma_delta_tokens(m: Track, s: Seq<CmdView>, d: DeltaGeo, l: usize, conc: bool, k: nat, b: Buf)
    requires
        keeps(m, s, b),
        followed(b),
        b != Buf::DeltaState(l),
    ensures
        keeps(m, delta_tokens(s, d, l, conc, k), b),
    decreases k,
{
    if k > 0 {
        let s0 = delta_tokens(s, d, l, conc, (k - 1) as nat);
        lemma_delta_tokens(m, s, d, l, conc, (k - 1) as nat, b);
        let t = delta_rule(s0, d, l, k - 1);
        lemma_rule(m, s0, d, l, k - 1, b);
        lemma_bar(m, t, conc, seq![Buf::DnOut, Buf::DeltaState(l)], b);
    }
}

/// The delta rule of the tokens settles the state it runs through.
proof fn lemma_delta_tokens_order(s: Seq<CmdView>, d: DeltaGeo, l: usize, k: nat)
    requires
        keeps(Track::Settled, s, Buf::DeltaState(l)),
    ensures
        keeps(Track::Settled, delta_tokens(s, d, l, true, k), Buf::DeltaState(l)),
    decreases k,
{
    let b = Buf::DeltaState(l);
    if k > 0 {
        let s0 = delta_tokens(s, d, l, true, (k - 1) as nat);
        lemma_delta_tokens_order(s, d, l, (k - 1) as nat);
        let t = delta_rule(s0, d, l, k - 1);
        lemma_use(s0, t, b);
        let pair = seq![Buf::DnOut, Buf::DeltaState(l)];
        assert(pair[1] == b);
        lemma_bar_settles(t, pair, b);
    }
}

/// Up to the convolution: the gates.
spec fn gates_part(s: Seq<CmdView>, d: DeltaGeo, l: usize, n: u32, conc: bool) -> Seq<CmdView> {
    with_barrier(delta_gates(s, d, l, n), conc, seq![Buf::DnG, Buf::DnBeta])
}

proof fn lemma_gates_part(m: Track, s: Seq<CmdView>, d: DeltaGeo, l: usize, n: u32, conc: bool, b: Buf)
    requires
        keeps(m, s, b),
        followed(b),
    ensures
        keeps(m, gates_part(s, d, l, n, conc), b),
{
    let t = delta_gates(s, d, l, n);
    lemma_pushed(m, s, t, b);
    lemma_bar(m, t, conc, seq![Buf::DnG, Buf::DnBeta], b);
}

/// The norms of queries and keys.
spec fn l2_part(s: Seq<CmdView>, d: DeltaGeo, stride: u32, n: u32, conc: bool) -> Seq<CmdView> {
    let s = l2norm(l2norm(s, d, 0, stride, n), d, (d.keys * 4) as u64, stride, n);
    with_barrier(s, conc, seq![Buf::DnConvOut])
}

proof fn lemma_l2_part(m: Track, s: Seq<CmdView>, d: DeltaGeo, stride: u32, n: u32, conc: bool, b: Buf)
    requires
        keeps(m, s, b),
        followed(b),
    ensures
        keeps(m, l2_part(s, d, stride, n, conc), b),
{
    let t = l2norm(s, d, 0, stride, n);
    lemma_pushed(m, s, t, b);
    let u = l2norm(t, d, (d.keys * 4) as u64, stride, n);
    lemma_pushed(m, t, u, b);
    lemma_bar(m, u, conc, seq![Buf::DnConvOut], b);
}

proof fn lemma_delta_block(m: Track, s: Seq<CmdView>, d: DeltaGeo, l: usize, n: u32, conc: bool, b: Buf)
    requires
        keeps(m, s, b),
        beside_linear(b, l),
    ensures
        keeps(m, delta_block(s, d, l, n, conc), b),
{
    let out_state = seq![Buf::DnConvOut, Buf::ConvState(l)];
    if n > 1 {
        lemma_gates_part(m, s, d, l, n, conc, b);
        let s = gates_part(s, d, l, n, conc);
        let t = conv_chunk(s, d, l, n);
        lemma_pushed(m, s, t, b);
        lemma_bar(m, t, conc, out_state, b);
        let s = with_barrier(t, conc, out_state);
        let t = conv_roll(s, d, l, n);
        lemma_pushed(m, s, t, b);
        lemma_bar(m, t, conc, seq![Buf::ConvState(l)], b);
        let s = with_barrier(t, conc, seq![Buf::ConvState(l)]);
        lemma_l2_part(m, s, d, d.channels, n, conc, b);
        let s = l2_part(s, d, d.channels, n, conc);
        lemma_delta_tokens(m, s, d, l, conc, n as nat, b);
        let s = delta_tokens(s, d, l, conc, n as nat);
        let t = output_norm(s, d, l, n);
        lemma_pushed(m, s, t, b);
        lemma_bar(m, t, conc, seq![Buf::DnOut], b);
    } else {
        lemma_gates_part(m, s, d, l, 1, conc, b);
        let s = gates_part(s, d, l, 1, conc);
        let t = conv_one(s, d, l);
        lemma_pushed(m, s, t, b);
        lemma_bar(m, t, conc, out_state, b);
        let s = with_barrier(t, conc, out_state);
        lemma_l2_part(m, s, d, 0, 1, conc, b);
        let s = l2_part(s, d, 0, 1, conc);
        let t = delta_rule(s, d, l, 0);
        lemma_rule(m, s, d, l, 0, b);
        lemma_bar(m, t, conc, seq![Buf::DnOut, Buf::DeltaState(l)], b);
        let s = with_barrier(t, conc, seq![Buf::DnOut, Buf::DeltaState(l)]);
        let t = output_norm(s, d, l, 1);
        lemma_pushed(m, s, t, b);
        lemma_bar(m, t, conc, seq![Buf::DnOut, Buf::ConvState(l), Buf::DeltaState(l)], b);
    }
}

/// The chain of a linear block settles the convolution's history.
proof fn lemma_delta_block_conv(s: Seq<CmdView>, d: DeltaGeo, l: usize, n: u32)
    requires
        keeps(Track::Settled, s, Buf::ConvState(l)),
    ensures
        keeps(Track::Settled, delta_block(s, d, l, n, true), Buf::ConvState(l)),
{
    let b = Buf::ConvState(l);
    let m = Track::Settled;
    let out_state = seq![Buf::DnConvOut, Buf::ConvState(l)];
    assert(out_state[1] == b);
    let only = seq![Buf::ConvState(l)];
    assert(only[0] == b);
    if n > 1 {
        lemma_gates_part(m, s, d, l, n, true, b);
        let s = gates_part(s, d, l, n, true);
        let t = conv_chunk(s, d, l, n);
        lemma_use(s, t, b);
        lemma_bar_settles(t, out_state, b);
        let s = with_barrier(t, true, out_state);
        let t = conv_roll(s, d, l, n);
        lemma_use(s, t, b);
        lemma_bar_settles(t, only, b);
        let s = with_barrier(t, true, only);
        lemma_l2_part(m, s, d, d.channels, n, true, b);
        let s = l2_part(s, d, d.channels, n, true);
        lemma_delta_tokens(m, s, d, l, true, n as nat, b);
        let s = delta_tokens(s, d, l, true, n as nat);
        let t = output_norm(s, d, l, n);
        lemma_pushed(m, s, t, b);
        lemma_bar(m, t, true, seq![Buf::DnOut], b);
    } else {
        lemma_gates_part(m, s, d, l, 1, true, b);
        let s = gates_part(s, d, l, 1, true);
        let t = conv_one(s, d, l);
        lemma_use(s, t, b);
        lemma_bar_settles(t, out_state, b);
        let s = with_barrier(t, true, out_state);
        lemma_l2_part(m, s, d, 0, 1, true, b);
        let s = l2_part(s, d, 0, 1, true);
        let t = delta_rule(s, d, l, 0);
        lemma_rule(m, s, d, l, 0, b);
        lemma_bar(m, t, true, seq![Buf::DnOut, Buf::DeltaState(l)], b);
        let s = with_barrier(t, true, seq![Buf::DnOut, Buf::DeltaState(l)]);
        let t = output_norm(s, d, l, 1);
        lemma_pushed(m, s, t, b);
        lemma_bar(m, t, true, seq![Buf::DnOut, Buf::ConvState(l), Buf::DeltaState(l)], b);
    }
}

/// The chain of a linear block settles its recurrent state.
proof fn lemma_delta_block_state(s: Seq<CmdView>, d: DeltaGeo, l: usize, n: u32)
    requires
        keeps(Track::Settled, s, Buf::DeltaState(l)),
    ensures
        keeps(Track::Settled, delta_block(s, d, l, n, true), Buf::DeltaState(l)),
{
    let b = Buf::DeltaState(l);
    let m = Track::Settled;
    let out_state = seq![Buf::DnConvOut, Buf::ConvState(l)];
    let pair = seq![Buf::DnOut, Buf::DeltaState(l)];
    assert(pair[1] == b);
    if n > 1 {
        lemma_gates_part(m, s, d, l, n, true, b);
        let s = gates_part(s, d, l, n, true);
        let t = conv_chunk(s, d, l, n);
        lemma_pushed(m, s, t, b);
        lemma_bar(m, t, true, out_state, b);
        let s = with_barrier(t, true, out_state);
        let t = conv_roll(s, d, l, n);
        lemma_pushed(m, s, t, b);
        lemma_bar(m, t, true, seq![Buf::ConvState(l)], b);
        let s = with_barrier(t, true, seq![Buf::ConvState(l)]);
        lemma_l2_part(m, s, d, d.channels, n, true, b);
        let s = l2_part(s, d, d.channels, n, true);
        lemma_delta_tokens_order(s, d, l, n as nat);
        let s = delta_tokens(s, d, l, true, n as nat);
        let t = output_norm(s, d, l, n);
        lemma_pushed(m, s, t, b);
        lemma_bar(m, t, true, seq![Buf::DnOut], b);
    } else {
        lemma_gates_part(m, s, d, l, 1, true, b);
        let s = gates_part(s, d, l, 1, true);
        let t = conv_one(s, d, l);
        lemma_pushed(m, s, t, b);
        lemma_bar(m, t, true, out_state, b);
        let s = with_barrier(t, true, out_state);
        lemma_l2_part(m, s, d, 0, 1, true, b);
        let s = l2_part(s, d, 0, 1, true);
        let t = delta_rule(s, d, l, 0);
        lemma_use(s, t, b);
        lemma_bar_settles(t, pair, b);
        let s = with_barrier(t, true, pair);
        let t = output_norm(s, d, l, 1);
        lemma_pushed(m, s, t, b);
        lemma_bar(m, t, true, seq![Buf::DnOut, Buf::ConvState(l), Buf::DeltaState(l)], b);
    }
}

proof fn lemma_decode_linear(
    m: Track,
    s: Seq<CmdView>,
    g: Geo,
    d: DeltaGeo,
    l: usize,
    qkv: u32,
    z: u32,
    alpha: u32,
    beta: u32,
    out: u32,
    b: Buf,
)
    requires
        keeps(m, s, b),
        beside_linear(b, l),
    ensures
        keeps(m, decode_linear(s, g, d, l, qkv, z, alpha, beta, out), b),
{
    let (lq, lz) = (quant_lin(g, d, l, Proj::DnQkv), quant_lin(g, d, l, Proj::DnZ));
    let (la, lb) = (quant_lin(g, d, l, Proj::DnAlpha), quant_lin(g, d, l, Proj::DnBeta));
    lemma_qmv(m, s, Kernel::QMatvec(qkv), qkv, lq, Buf::Xn, Buf::DnQkv, 0, b);
    let s = qmv(s, Kernel::QMatvec(qkv), qkv, lq, Buf::Xn, Buf::DnQkv, 0);
    lemma_qmv(m, s, Kernel::QMatvec(z), z, lz, Buf::Xn, Buf::DnZ, 0, b);
    let s = qmv(s, Kernel::QMatvec(z), z, lz, Buf::Xn, Buf::DnZ, 0);
    lemma_qmv(m, s, Kernel::QMatvec(alpha), alpha, la, Buf::Xn, Buf::DnAlpha, 0, b);
    let s = qmv(s, Kernel::QMatvec(alpha), alpha, la, Buf::Xn, Buf::DnAlpha, 0);
    lemma_qmv(m, s, Kernel::QMatvec(beta), beta, lb, Buf::Xn, Buf::DnBetaP, 0, b);
    let s = qmv(s, Kernel::QMatvec(beta), beta, lb, Buf::Xn, Buf::DnBetaP, 0);
    lemma_mark(m, s, Phase::Delta, 6, b);
    let s = s.push(CmdView::Mark(Phase::Delta, 6));
    lemma_delta_block(m, s, d, l, 1, false, b);
    let s = delta_block(s, d, l, 1, false);
    lemma_qmv(m, s, Kernel::QMatvecAcc(out), out, quant_lin(g, d, l, Proj::DnOut), Buf::DnOut, Buf::X, 0, b);
}

/// The projections of a linear prefill layer, up to its chain.
spec fn before_chain(
    s: Seq<CmdView>,
    g: Geo,
    d: DeltaGeo,
    l: usize,
    n: u32,
    qkv: u32,
    z: u32,
    alpha: u32,
    beta: u32,
) -> Seq<CmdView> {
    let s = qmm(s, qkv, quant_lin(g, d, l, Proj::DnQkv), Buf::Xn, 0, Buf::DnQkv, 0, n);
    let s = qmm(s, z, quant_lin(g, d, l, Proj::DnZ), Buf::Xn, 0, Buf::DnZ, 0, n);
    let s = qmm(s, alpha, quant_lin(g, d, l, Proj::DnAlpha), Buf::Xn, 0, Buf::DnAlpha, 0, n);
    let s = qmm(s, beta, quant_lin(g, d, l, Proj::DnBeta), Buf::Xn, 0, Buf::DnBetaP, 0, n);
    let s = with_barrier(s, true, seq![Buf::DnQkv, Buf::DnZ, Buf::DnAlpha, Buf::DnBetaP]);
    s.push(CmdView::Mark(Phase::Delta, (6 * n) as u32))
}

proof fn lemma_before_chain(
    m: Track,
    s: Seq<CmdView>,
    g: Geo,
    d: DeltaGeo,
    l: usize,
    n: u32,
    qkv: u32,
    z: u32,
    alpha: u32,
    beta: u32,
    b: Buf,
)
    requires
        keeps(m, s, b),
        followed(b),
    ensures
        keeps(m, before_chain(s, g, d, l, n, qkv, z, alpha, beta), b),
{
    let (lq, lz) = (quant_lin(g, d, l, Proj::DnQkv), quant_lin(g, d, l, Proj::DnZ));
    let (la, lb) = (quant_lin(g, d, l, Proj::DnAlpha), quant_lin(g, d, l, Proj::DnBeta));
    lemma_qmm(m, s, qkv, lq, Buf::Xn, 0, Buf::DnQkv, 0, n, b);
    let s = qmm(s, qkv, lq, Buf::Xn, 0, Buf::DnQkv, 0, n);
    lemma_qmm(m, s, z, lz, Buf::Xn, 0, Buf::DnZ, 0, n, b);
    let s = qmm(s, z, lz, Buf::Xn, 0, Buf::DnZ, 0, n);
    lemma_qmm(m, s, alpha, la, Buf::Xn, 0, Buf::DnAlpha, 0, n, b);
    let s = qmm(s, alpha, la, Buf::Xn, 0, Buf::DnAlpha, 0, n);
    lemma_qmm(m, s, beta, lb, Buf::Xn, 0, Buf::DnBetaP, 0, n, b);
    let s = qmm(s, beta, lb, Buf::Xn, 0, Buf::DnBetaP, 0, n);
    let four = seq![Buf::DnQkv, Buf::DnZ, Buf::DnAlpha, Buf::DnBetaP];
    lemma_bar(m, s, true, four, b);
    lemma_mark(m, with_barrier(s, true, four), Phase::Delta, (6 * n) as u32, b);
}

/// What follows the chain of a linear prefill layer.
spec fn after_chain(s: Seq<CmdView>, g: Geo, d: DeltaGeo, l: usize, n: u32, out: u32) -> Seq<CmdView> {
    let s = with_barrier(s, true, seq![Buf::DnOut]);
    let s = qmm(s, out, quant_lin(g, d, l, Proj::DnOut), Buf::DnOut, 0, Buf::Xb, 0, n);
    add_residual(s, g, n)
}

proof fn lemma_after_chain(m: Track, s: Seq<CmdView>, g: Geo, d: DeltaGeo, l: usize, n: u32, out: u32, b: Buf)
    requires
        keeps(m, s, b),
        followed(b),
    ensures
        keeps(m, after_chain(s, g, d, l, n, out), b),
{
    lemma_bar(m, s, true, seq![Buf::DnOut], b);
    let s = with_barrier(s, true, seq![Buf::DnOut]);
    lemma_qmm(m, s, out, quant_lin(g, d, l, Proj::DnOut), Buf::DnOut, 0, Buf::Xb, 0, n, b);
    let s = qmm(s, out, quant_lin(g, d, l, Proj::DnOut), Buf::DnOut, 0, Buf::Xb, 0, n);
    lemma_residual(m, s, g, n, b);
}

/// A linear prefill layer: what it leaves alone stays as it was, and its own
/// states are settled where they were before.
proof fn lemma_prefill_linear(
    m: Track,
    s: Seq<CmdView>,
    g: Geo,
    d: DeltaGeo,
    l: usize,
    n: u32,
    qkv: u32,
    z: u32,
    alpha: u32,
    beta: u32,
    out: u32,
    b: Buf,
)
    requires
        keeps(m, s, b),
        beside_linear(b, l) || (m is Settled && (b == Buf::ConvState(l) || b == Buf::DeltaState(l))),
    ensures
        keeps(m, prefill_linear(s, g, d, l, n, qkv, z, alpha, beta, out), b),
{
    lemma_before_chain(m, s, g, d, l, n, qkv, z, alpha, beta, b);
    let s = before_chain(s, g, d, l, n, qkv, z, alpha, beta);
    if beside_linear(b, l) {
        lemma_delta_block(m, s, d, l, n, true, b);
    } else if b == Buf::ConvState(l) {
        lemma_delta_block_conv(s, d, l, n);
    } else {
        lemma_delta_block_state(s, d, l, n);
    }
    lemma_after_chain(m, delta_block(s, d, l, n, true), g, d, l, n, out, b);
}

// ---------- a layer ----------

/// What a layer of a prefill step keeps: what its block leaves alone; the output gate's
/// uses apart; and the states of a linear block settled.
proof fn lemma_prefill_attn(
    m: Track,
    s: Seq<CmdView>,
    g: Geo,
    d: Option<DeltaGeo>,
    a: QuantAttn,
    l: usize,
    pos0: u32,
    n: u32,
    b: Buf,
)
    requires
        keeps(m, s, b),
        ({
            ||| a is Full && beside_full(b, l)
            ||| a is Linear && beside_linear(b, l)
            ||| m is Settled && (b is ConvState || b is DeltaState)
            ||| m is Apart && b == Buf::QGate
        }),
    ensures
        keeps(m, quant_prefill_attn(s, g, d, a, l, pos0, n), b),
{
    match a {
        QuantAttn::Linear { qkv, z, alpha, beta, out } => {
            lemma_prefill_linear(m, s, g, d->0, l, n, qkv, z, alpha, beta, out, b);
        },
        QuantAttn::Full { q, k, v, o, qk_norm } => {
            if b == Buf::QGate {
                lemma_prefill_full_gate(s, g, l, pos0, n, q, k, v, o, qk_norm);
            } else {
                lemma_prefill_full(m, s, g, l, pos0, n, q, k, v, o, qk_norm, b);
            }
        },
    }
}

proof fn lemma_prefill_layer(
    m: Track,
    s: Seq<CmdView>,
    g: Geo,
    d: Option<DeltaGeo>,
    blk: QuantBlock,
    l: usize,
    pos0: u32,
    n: u32,
    b: Buf,
)
    requires
        keeps(m, s, b),
        followed(b),
        ({
            ||| blk.attn is Full && beside_full(b, l)
            ||| blk.attn is Linear && beside_linear(b, l)
            ||| m is Settled && (b is ConvState || b is DeltaState)
            ||| m is Apart && b == Buf::QGate
        }),
    ensures
        keeps(m, quant_prefill_layer(s, g, d, blk, l, pos0, n), b),
{
    lemma_norm(m, s, g, Buf::Norm(l, NormId::Input), n, b);
    let s = marked_norm(s, g, Buf::Norm(l, NormId::Input), n);
    lemma_bar(m, s, true, seq![Buf::Xn], b);
    let s = with_barrier(s, true, seq![Buf::Xn]);
    lemma_prefill_attn(m, s, g, d, blk.attn, l, pos0, n, b);
    let s = quant_prefill_attn(s, g, d, blk.attn, l, pos0, n);
    lemma_norm(m, s, g, Buf::Norm(l, NormId::Post), n, b);
    let s = marked_norm(s, g, Buf::Norm(l, NormId::Post), n);
    lemma_bar(m, s, true, seq![Buf::Xn], b);
    let s = with_barrier(s, true, seq![Buf::Xn]);
    lemma_qmm(m, s, blk.gate, lin_of(g, l, Proj::Gate, false), Buf::Xn, 0, Buf::Gate, 0, n, b);
    let s = qmm(s, blk.gate, lin_of(g, l, Proj::Gate, false), Buf::Xn, 0, Buf::Gate, 0, n);
    lemma_qmm(m, s, blk.up, lin_of(g, l, Proj::Up, false), Buf::Xn, 0, Buf::Up, 0, n, b);
    let s = qmm(s, blk.up, lin_of(g, l, Proj::Up, false), Buf::Xn, 0, Buf::Up, 0, n);
    lemma_bar(m, s, true, seq![Buf::Gate, Buf::Up], b);
    let s = with_barrier(s, true, seq![Buf::Gate, Buf::Up]);
    lemma_mark(m, s, Phase::Elem, 1, b);
    let s = s.push(CmdView::Mark(Phase::Elem, 1));
    let t = silu_mul(s, Buf::Gate, Buf::Up, (n * g.inter) as u64);
    lemma_pushed(m, s, t, b);
    lemma_bar(m, t, true, seq![Buf::Gate], b);
    let s = with_barrier(t, true, seq![Buf::Gate]);
    lemma_qmm(m, s, blk.down, lin_of(g, l, Proj::Down, false), Buf::Gate, 0, Buf::Xb, 0, n, b);
    let s = qmm(s, blk.down, lin_of(g, l, Proj::Down, false), Buf::Gate, 0, Buf::Xb, 0, n);
    lemma_residual(m, s, g, n, b);
}

proof fn lemma_decode_layer(
    m: Track,
    s: Seq<CmdView>,
    g: Geo,
    d: Option<DeltaGeo>,
    blk: QuantBlock,
    l: usize,
    pos: u32,
    b: Buf,
)
    requires
        keeps(m, s, b),
        followed(b),
        blk.attn is Full ==> beside_full(b, l),
        blk.attn is Linear ==> beside_linear(b, l),
    ensures
        keeps(m, quant_decode_layer(s, g, d, blk, l, pos), b),
{
    lemma_norm(m, s, g, Buf::Norm(l, NormId::Input), 1, b);
    let s = marked_norm(s, g, Buf::Norm(l, NormId::Input), 1);
    match blk.attn {
        QuantAttn::Linear { qkv, z, alpha, beta, out } => {
            lemma_decode_linear(m, s, g, d->0, l, qkv, z, alpha, beta, out, b);
        },
        QuantAttn::Full { q, k, v, o, qk_norm } => {
            lemma_decode_full(m, s, g, l, pos, q, k, v, o, qk_norm, b);
        },
    }
    let s = quant_decode_attn(s, g, d, blk.attn, l, pos);
    lemma_norm(m, s, g, Buf::Norm(l, NormId::Post), 1, b);
    let s = marked_norm(s, g, Buf::Norm(l, NormId::Post), 1);
    let (lg, lu) = (lin_of(g, l, Proj::Gate, false), lin_of(g, l, Proj::Up, false));
    lemma_qmv(m, s, Kernel::QMatvec(blk.gate), blk.gate, lg, Buf::Xn, Buf::Gate, 0, b);
    let s = qmv(s, Kernel::QMatvec(blk.gate), blk.gate, lg, Buf::Xn, Buf::Gate, 0);
    lemma_qmv(m, s, Kernel::QMatvec(blk.up), blk.up, lu, Buf::Xn, Buf::Up, 0, b);
    let s = qmv(s, Kernel::QMatvec(blk.up), blk.up, lu, Buf::Xn, Buf::Up, 0);
    lemma_mark(m, s, Phase::Elem, 1, b);
    let s = s.push(CmdView::Mark(Phase::Elem, 1));
    let t = silu_mul(s, Buf::Gate, Buf::Up, g.inter as u64);
    lemma_pushed(m, s, t, b);
    let ld = lin_of(g, l, Proj::Down, false);
    lemma_qmv(m, t, Kernel::QMatvecAcc(blk.down), blk.down, ld, Buf::Gate, Buf::X, 0, b);
}

// ---------- a whole step ----------

/// `b` belongs to a layer of the other kind.
pub open spec fn foreign(blocks: Seq<QuantBlock>, b: Buf) -> bool {
    match b {
        Buf::KCache(x) | Buf::VCache(x) => x < blocks.len() ==> blocks[x as int].attn is Linear,
        Buf::ConvState(x) | Buf::DeltaState(x) => x < blocks.len() ==> blocks[x as int].attn is Full,
        _ => false,
    }
}

/// A cache or a state of a layer before `l`.
pub open spec fn earlier(b: Buf, l: usize) -> bool {
    match b {
        Buf::KCache(x) | Buf::VCache(x) | Buf::ConvState(x) | Buf::DeltaState(x) => x < l,
        _ => false,
    }
}

proof fn lemma_layers(mode: Track, m: QuantModel, st: Step, k: int, b: Buf)
    requires
        followed(b),
        k <= m.blocks@.len(),
        ({
            ||| foreign(m.blocks@, b)
            ||| earlier(b, st.layer0)
            ||| !quant_fused(m.geo, st.n) && mode is Settled && (b is ConvState || b is DeltaState)
            ||| !quant_fused(m.geo, st.n) && mode is Apart && b == Buf::QGate
        }),
    ensures
        keeps(mode, quant_layers(Seq::empty(), m, st, k), b),
    decreases k - st.layer0,
{
    if k <= st.layer0 {
        reveal(keeps);
    } else {
        lemma_layers(mode, m, st, k - 1, b);
        let s = quant_layers(Seq::empty(), m, st, k - 1);
        let (blk, l) = (m.blocks@[k - 1], (k - 1) as usize);
        assert(m.blocks.len() == m.blocks@.len());
        reveal(quant_layer);
        if quant_fused(m.geo, st.n) {
            lemma_decode_layer(mode, s, m.geo, m.delta, blk, l, st.pos0, b);
        } else {
            lemma_prefill_layer(mode, s, m.geo, m.delta, blk, l, st.pos0, st.n, b);
        }
    }
}

proof fn lemma_head(mode: Track, s: Seq<CmdView>, m: QuantModel, st: Step, b: Buf)
    requires
        keeps(mode, s, b),
        followed(b),
    ensures
        keeps(mode, quant_head(s, m, st), b),
{
    let g = m.geo;
    let layers = m.blocks@.len() as usize;
    let conc = !quant_fused(g, st.n);
    if st.logits_rows > 0 {
        lemma_norm(mode, s, g, Buf::Norm(layers, NormId::Final), st.n, b);
        let s = marked_norm(s, g, Buf::Norm(layers, NormId::Final), st.n);
        lemma_bar(mode, s, conc, seq![Buf::Xn], b);
        let s = with_barrier(s, conc, seq![Buf::Xn]);
        let l = lin_of(g, layers, Proj::Head, false);
        let first = ((st.n - st.logits_rows) * g.hidden * 4) as u64;
        if st.logits_rows == 1 && !conc {
            lemma_qmv(mode, s, Kernel::QMatvec(m.head), m.head, l, Buf::Xn, Buf::Logits, 0, b);
        } else {
            lemma_qmm(mode, s, m.head, l, Buf::Xn, first, Buf::Logits, 0, st.logits_rows, b);
        }
    }
}

/// No step binds the key and value caches of a linear block, which are stubs,
/// nor the states of a full-attention block, which do not exist.
pub proof fn lemma_kinds_keep_to_their_own(m: QuantModel, st: Step, b: Buf)
    requires
        foreign(m.blocks@, b),
    ensures
        unbound(quant_step(m, st), b),
{
    lemma_layers(Track::Unbound, m, st, m.blocks@.len() as int, b);
    lemma_head(Track::Unbound, quant_layers(Seq::empty(), m, st, m.blocks@.len() as int), m, st, b);
    reveal(keeps);
}

/// A step from layer `layer0` on binds no cache and no state of an earlier layer.
pub proof fn lemma_step_spares_earlier_layers(m: QuantModel, st: Step, b: Buf)
    requires
        earlier(b, st.layer0),
    ensures
        unbound(quant_step(m, st), b),
{
    lemma_layers(Track::Unbound, m, st, m.blocks@.len() as int, b);
    lemma_head(Track::Unbound, quant_layers(Seq::empty(), m, st, m.blocks@.len() as int), m, st, b);
    reveal(keeps);
}

/// Where dispatches run concurrently, a barrier on the output gate stands
/// between any two uses of it, across layers too.
pub proof fn lemma_gate_uses_are_ordered(m: QuantModel, st: Step)
    requires
        !quant_fused(m.geo, st.n),
    ensures
        apart(quant_step(m, st), Buf::QGate),
{
    lemma_layers(Track::Apart, m, st, m.blocks@.len() as int, Buf::QGate);
    lemma_head(Track::Apart, quant_layers(Seq::empty(), m, st, m.blocks@.len() as int), m, st, Buf::QGate);
    reveal(keeps);
}

/// Where dispatches run concurrently, a barrier on a recurrent state stands
/// between any two uses of it: every token sees the state that the token before
/// it left. The last use is settled too.
pub proof fn lemma_state_uses_are_ordered(m: QuantModel, st: Step, b: Buf)
    requires
        !quant_fused(m.geo, st.n),
        b is ConvState || b is DeltaState,
    ensures
        apart(quant_step(m, st), b),
        settled(quant_step(m, st), b),
{
    lemma_layers(Track::Settled, m, st, m.blocks@.len() as int, b);
    lemma_head(Track::Settled, quant_layers(Seq::empty(), m, st, m.blocks@.len() as int), m, st, b);
    reveal(keeps);
}

} // verus!
