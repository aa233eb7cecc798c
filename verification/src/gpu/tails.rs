//! Split prefill on the GPU's side: a step that starts at a later layer leaves
//! the caches of the layers before it alone. They hold what another device wrote.
use vstd::prelude::*;

use crate::gpu::dense::{
    DenseBlock, Step, decode_layer, dense_step, direct_kv, fused, layers_upto, lin_half, lin_of,
    prefill_layer, prefill_mlp, stage_span, stage_spans, v_base, window_kv,
};
use crate::gpu::encode::{
    Lin, add_inplace, attention, attention_decode, decode_partial, embed, is_flash, linear, linear_kv,
    matmul, matmul_half, matmul_half_bias, matvec, qkv, rmsnorm, rmsnorm_both, rmsnorm_cache,
    rmsnorm_heads, rope, rope_cache, rope_qk, rope_qk_chunk, silu_mul_both, swiglu, to_half,
};
use crate::gpu::hazards::{Track, keeps, lemma_bar, lemma_pushed, slot_is, unbound};
use crate::gpu::ops::{Buf, CmdView, Geo, Kernel, NormId, Proj, with_barrier};
use crate::gpu::window::{Span, WindowCfg, write_spans};

verus! {

/// A cache of a layer before `l`.
pub open spec fn cache_before(b: Buf, l: usize) -> bool {
    match b {
        Buf::KCache(x) | Buf::VCache(x) => x < l,
        _ => false,
    }
}

/// Not a cache.
pub open spec fn plain(b: Buf) -> bool {
    !(b is KCache) && !(b is VCache)
}

proof fn lemma_linear(
    s: Seq<CmdView>,
    mv: Kernel,
    mm: Kernel,
    l: Lin,
    x: Buf,
    x_off: u64,
    y: Buf,
    y_off: u64,
    n: u32,
    half: bool,
    convert: bool,
    conc: bool,
    b: Buf,
)
    requires
        keeps(Track::Unbound, s, b),
        !plain(b),
        x != b,
        y != b,
    ensures
        keeps(Track::Unbound, linear(s, mv, mm, l, x, x_off, y, y_off, n, half, convert, conc), b),
{
    let m = Track::Unbound;
    if n == 1 {
        lemma_pushed(m, s, matvec(s, mv, l, x, x_off, y, y_off), b);
    } else if half {
        let s = if convert {
            let t = to_half(s, x, x_off, Buf::Xh, 0, (n * l.in_dim) as u64);
            lemma_pushed(m, s, t, b);
            lemma_bar(m, t, conc, seq![Buf::Xh], b);
            with_barrier(t, conc, seq![Buf::Xh])
        } else {
            s
        };
        if l.has_bias {
            lemma_pushed(m, s, matmul_half_bias(s, Kernel::MatmulTb, l, Buf::Xh, y, y_off, n), b);
        } else {
            lemma_pushed(m, s, matmul_half(s, l, Buf::Xh, y, y_off, n), b);
        }
    } else {
        lemma_pushed(m, s, matmul(s, mm, l, x, x_off, y, y_off, n), b);
    }
}

proof fn lemma_lin_half(s: Seq<CmdView>, l: Lin, x: Buf, y: Buf, y_off: u64, n: u32, convert: bool, b: Buf)
    requires
        keeps(Track::Unbound, s, b),
        !plain(b),
        x != b,
        y != b,
    ensures
        keeps(Track::Unbound, lin_half(s, l, x, y, y_off, n, convert), b),
{
    lemma_linear(s, Kernel::Matvec, Kernel::Matmul, l, x, 0, y, y_off, n, true, convert, true, b);
}

proof fn lemma_linear_kv(s: Seq<CmdView>, l: Lin, x: Buf, y: Buf, y_off: u64, n: u32, b: Buf)
    requires
        keeps(Track::Unbound, s, b),
        !plain(b),
        x != b,
        y != b,
    ensures
        keeps(Track::Unbound, linear_kv(s, l, x, y, y_off, n), b),
{
    if n > 1 {
        lemma_pushed(Track::Unbound, s, matmul_half_bias(s, Kernel::MatmulTh, l, Buf::Xh, y, y_off, n), b);
    } else {
        lemma_linear(s, Kernel::MatvecH, Kernel::MatmulH, l, x, 0, y, y_off, n, false, false, false, b);
    }
}

/// The query, key and value kernel binds no other layer's cache.
proof fn lemma_qkv(s: Seq<CmdView>, q: Lin, k: Lin, v: Lin, kv_off: u32, b: Buf)
    requires
        keeps(Track::Unbound, s, b),
        cache_before(b, q.layer),
    ensures
        keeps(Track::Unbound, qkv(s, q, k, v, Buf::Xn, Buf::Q, kv_off), b),
{
    let t = qkv(s, q, k, v, Buf::Xn, Buf::Q, kv_off);
    let slots = t.last()->Run_0.slots;
    assert forall|i: int| 0 <= i < slots.len() implies !#[trigger] slot_is(slots[i], b) by {
        assert(slots.len() == 11);
        assert(i == 0 || i == 1 || i == 2 || i == 3 || i == 4 || i == 5 || i == 6 || i == 7 || i == 8 || i == 9 || i
            == 10);
    }
    lemma_pushed(Track::Unbound, s, t, b);
}

proof fn lemma_decode(s: Seq<CmdView>, g: Geo, blk: DenseBlock, l: usize, pos: u32, b: Buf)
    requires
        keeps(Track::Unbound, s, b),
        cache_before(b, l),
    ensures
        keeps(Track::Unbound, decode_layer(s, g, blk, l, pos), b),
{
    let m = Track::Unbound;
    let row = g.row_of(pos as int);
    let off = g.row_off(row) as u64;
    let t = rmsnorm(s, g, Buf::X, Buf::Norm(l, NormId::Input), Buf::Xn, 1);
    lemma_pushed(m, s, t, b);
    let (lq, lk, lv) =
        (lin_of(g, l, Proj::Q, blk.q_bias), lin_of(g, l, Proj::K, blk.k_bias), lin_of(g, l, Proj::V, blk.v_bias));
    let kv_off = (g.kv_base / 2 + row * g.kv_dim) as u32;
    lemma_qkv(t, lq, lk, lv, kv_off, b);
    let s = qkv(t, lq, lk, lv, Buf::Xn, Buf::Q, kv_off);
    let s = if blk.qk_norm {
        let t = rmsnorm_heads(s, Buf::Q, Buf::Norm(l, NormId::QHead), g.heads as u64, g.head_dim);
        lemma_pushed(m, s, t, b);
        let u = rmsnorm_cache(t, Buf::KCache(l), off, Buf::Norm(l, NormId::KHead), g.kv_heads as u64, g.head_dim);
        lemma_pushed(m, t, u, b);
        u
    } else {
        s
    };
    let t = rope_qk(s, g, Buf::Q, Buf::KCache(l), off, pos);
    lemma_pushed(m, s, t, b);
    let u = t.push(CmdView::Run(decode_partial(g, Buf::Q, l, pos)));
    lemma_pushed(m, t, u, b);
    let s = attention_decode(t, g, Buf::Q, l, pos);
    lemma_pushed(m, u, s, b);
    let t = matvec(s, Kernel::MatvecAcc, lin_of(g, l, Proj::O, blk.o_bias), Buf::Att, 0, Buf::X, 0);
    lemma_pushed(m, s, t, b);
    let u = rmsnorm(t, g, Buf::X, Buf::Norm(l, NormId::Post), Buf::Xn, 1);
    lemma_pushed(m, t, u, b);
    let s = swiglu(
        u,
        lin_of(g, l, Proj::Gate, blk.gate_bias),
        lin_of(g, l, Proj::Up, blk.up_bias),
        Buf::Xn,
        Buf::Gate,
    );
    lemma_pushed(m, u, s, b);
    lemma_pushed(
        m,
        s,
        matvec(s, Kernel::MatvecAcc, lin_of(g, l, Proj::Down, blk.down_bias), Buf::Gate, 0, Buf::X, 0),
        b,
    );
}

proof fn lemma_stage_span(s: Seq<CmdView>, g: Geo, l: usize, pos0: u32, sp: Span, b: Buf)
    requires
        keeps(Track::Unbound, s, b),
        cache_before(b, l),
    ensures
        keeps(Track::Unbound, stage_span(s, g, l, pos0, sp), b),
{
    let m = Track::Unbound;
    let src = (sp.row * g.kv_dim * 4) as u64;
    let dst = (sp.slot * g.kv_dim * 2) as u64;
    let dim = (sp.len * g.kv_dim) as u64;
    let t = to_half(s, Buf::Kvs, src, Buf::KCache(l), dst, dim);
    lemma_pushed(m, s, t, b);
    let u = to_half(t, Buf::Kvs, (v_base(g) + src) as u64, Buf::VCache(l), dst, dim);
    lemma_pushed(m, t, u, b);
    lemma_bar(m, u, true, seq![Buf::KCache(l)], b);
    let s = with_barrier(u, true, seq![Buf::KCache(l)]);
    let pos = (pos0 + sp.row) as u32;
    let t = rope_cache(s, g, Buf::KCache(l), dst, g.kv_heads, pos, sp.len as u32, g.head_dim, g.head_dim);
    lemma_pushed(m, s, t, b);
}

proof fn lemma_stage_spans(s: Seq<CmdView>, g: Geo, l: usize, pos0: u32, spans: Seq<Span>, k: nat, b: Buf)
    requires
        keeps(Track::Unbound, s, b),
        cache_before(b, l),
    ensures
        keeps(Track::Unbound, stage_spans(s, g, l, pos0, spans, k), b),
    decreases k,
{
    if k > 0 {
        lemma_stage_spans(s, g, l, pos0, spans, (k - 1) as nat, b);
        lemma_stage_span(stage_spans(s, g, l, pos0, spans, (k - 1) as nat), g, l, pos0, spans[k - 1], b);
    }
}

proof fn lemma_window_kv(s: Seq<CmdView>, g: Geo, w: WindowCfg, blk: DenseBlock, l: usize, pos0: u32, n: u32, b: Buf)
    requires
        keeps(Track::Unbound, s, b),
        cache_before(b, l),
    ensures
        keeps(Track::Unbound, window_kv(s, g, w, blk, l, pos0, n), b),
{
    let m = Track::Unbound;
    let (lk, lv) = (lin_of(g, l, Proj::K, blk.k_bias), lin_of(g, l, Proj::V, blk.v_bias));
    lemma_lin_half(s, lk, Buf::Xn, Buf::Kvs, 0, n, false, b);
    let s = lin_half(s, lk, Buf::Xn, Buf::Kvs, 0, n, false);
    lemma_lin_half(s, lv, Buf::Xn, Buf::Kvs, v_base(g) as u64, n, false, b);
    let s = lin_half(s, lv, Buf::Xn, Buf::Kvs, v_base(g) as u64, n, false);
    let pair = seq![Buf::Q, Buf::Kvs];
    lemma_bar(m, s, true, pair, b);
    let s = with_barrier(s, true, pair);
    let s = if blk.qk_norm {
        let t = rmsnorm_heads(s, Buf::Q, Buf::Norm(l, NormId::QHead), (n * g.heads) as u64, g.head_dim);
        lemma_pushed(m, s, t, b);
        let u = rmsnorm_heads(t, Buf::Kvs, Buf::Norm(l, NormId::KHead), (n * g.kv_heads) as u64, g.head_dim);
        lemma_pushed(m, t, u, b);
        lemma_bar(m, u, true, pair, b);
        with_barrier(u, true, pair)
    } else {
        s
    };
    let t = rope(s, g, Buf::Q, g.heads, pos0, n, g.head_dim);
    lemma_pushed(m, s, t, b);
    let spans = write_spans(w, pos0 as int, n as int);
    lemma_stage_spans(t, g, l, pos0, spans, spans.len(), b);
    let s = stage_spans(t, g, l, pos0, spans, spans.len());
    lemma_bar(m, s, true, seq![Buf::Q, Buf::KCache(l), Buf::VCache(l), Buf::Kvs], b);
}

proof fn lemma_direct_kv(s: Seq<CmdView>, g: Geo, blk: DenseBlock, l: usize, pos0: u32, n: u32, b: Buf)
    requires
        keeps(Track::Unbound, s, b),
        cache_before(b, l),
    ensures
        keeps(Track::Unbound, direct_kv(s, g, blk, l, pos0, n), b),
{
    let m = Track::Unbound;
    let off = g.row_off(pos0 as int) as u64;
    let (lk, lv) = (lin_of(g, l, Proj::K, blk.k_bias), lin_of(g, l, Proj::V, blk.v_bias));
    lemma_linear_kv(s, lk, Buf::Xn, Buf::KCache(l), off, n, b);
    let s = linear_kv(s, lk, Buf::Xn, Buf::KCache(l), off, n);
    lemma_linear_kv(s, lv, Buf::Xn, Buf::VCache(l), off, n, b);
    let s = linear_kv(s, lv, Buf::Xn, Buf::VCache(l), off, n);
    lemma_bar(m, s, true, seq![Buf::Q, Buf::KCache(l), Buf::VCache(l)], b);
    let s = with_barrier(s, true, seq![Buf::Q, Buf::KCache(l), Buf::VCache(l)]);
    let pair = seq![Buf::Q, Buf::KCache(l)];
    let s = if blk.qk_norm {
        let t = rmsnorm_heads(s, Buf::Q, Buf::Norm(l, NormId::QHead), (n * g.heads) as u64, g.head_dim);
        lemma_pushed(m, s, t, b);
        let rows = (n * g.kv_heads) as u64;
        let u = rmsnorm_cache(t, Buf::KCache(l), off, Buf::Norm(l, NormId::KHead), rows, g.head_dim);
        lemma_pushed(m, t, u, b);
        lemma_bar(m, u, true, pair, b);
        with_barrier(u, true, pair)
    } else {
        s
    };
    let t = rope_qk_chunk(s, g, Buf::Q, Buf::KCache(l), off, pos0, n);
    lemma_pushed(m, s, t, b);
    lemma_bar(m, t, true, pair, b);
}

proof fn lemma_mlp(s: Seq<CmdView>, g: Geo, blk: DenseBlock, l: usize, n: u32, b: Buf)
    requires
        keeps(Track::Unbound, s, b),
        !plain(b),
    ensures
        keeps(Track::Unbound, prefill_mlp(s, g, blk, l, n), b),
{
    let m = Track::Unbound;
    let t = rmsnorm_both(s, g, Buf::X, Buf::Norm(l, NormId::Post), Buf::Xn, Buf::Xh, n);
    lemma_pushed(m, s, t, b);
    lemma_bar(m, t, true, seq![Buf::Xn, Buf::Xh], b);
    let s = with_barrier(t, true, seq![Buf::Xn, Buf::Xh]);
    let lg = lin_of(g, l, Proj::Gate, blk.gate_bias);
    lemma_lin_half(s, lg, Buf::Xn, Buf::Gate, 0, n, false, b);
    let s = lin_half(s, lg, Buf::Xn, Buf::Gate, 0, n, false);
    let lu = lin_of(g, l, Proj::Up, blk.up_bias);
    lemma_lin_half(s, lu, Buf::Xn, Buf::Up, 0, n, false, b);
    let s = lin_half(s, lu, Buf::Xn, Buf::Up, 0, n, false);
    lemma_bar(m, s, true, seq![Buf::Gate, Buf::Up], b);
    let s = with_barrier(s, true, seq![Buf::Gate, Buf::Up]);
    let t = silu_mul_both(s, Buf::Gate, Buf::Up, Buf::Xh, (n * g.inter) as u64);
    lemma_pushed(m, s, t, b);
    lemma_bar(m, t, true, seq![Buf::Gate, Buf::Xh], b);
    let s = with_barrier(t, true, seq![Buf::Gate, Buf::Xh]);
    let ld = lin_of(g, l, Proj::Down, blk.down_bias);
    lemma_lin_half(s, ld, Buf::Gate, Buf::Xb, 0, n, false, b);
    let s = lin_half(s, ld, Buf::Gate, Buf::Xb, 0, n, false);
    lemma_bar(m, s, true, seq![Buf::Xb], b);
    let s = with_barrier(s, true, seq![Buf::Xb]);
    let t = add_inplace(s, Buf::X, Buf::Xb, (n * g.hidden) as u64);
    lemma_pushed(m, s, t, b);
    lemma_bar(m, t, true, seq![Buf::X], b);
}

proof fn lemma_prefill(s: Seq<CmdView>, g: Geo, blk: DenseBlock, l: usize, pos0: u32, n: u32, b: Buf)
    requires
        keeps(Track::Unbound, s, b),
        cache_before(b, l),
    ensures
        keeps(Track::Unbound, prefill_layer(s, g, blk, l, pos0, n), b),
{
    let m = Track::Unbound;
    let t = rmsnorm_both(s, g, Buf::X, Buf::Norm(l, NormId::Input), Buf::Xn, Buf::Xh, n);
    lemma_pushed(m, s, t, b);
    lemma_bar(m, t, true, seq![Buf::Xn, Buf::Xh], b);
    let s = with_barrier(t, true, seq![Buf::Xn, Buf::Xh]);
    let lq = lin_of(g, l, Proj::Q, blk.q_bias);
    lemma_lin_half(s, lq, Buf::Xn, Buf::Q, 0, n, false, b);
    let s = lin_half(s, lq, Buf::Xn, Buf::Q, 0, n, false);
    let s = match g.win {
        Some(w) => {
            lemma_window_kv(s, g, w, blk, l, pos0, n, b);
            window_kv(s, g, w, blk, l, pos0, n)
        },
        None => {
            lemma_direct_kv(s, g, blk, l, pos0, n, b);
            direct_kv(s, g, blk, l, pos0, n)
        },
    };
    let t = attention(s, g, Buf::Q, l, pos0, n);
    lemma_pushed(m, s, t, b);
    lemma_bar(m, t, true, seq![Buf::Att, Buf::Xh, Buf::Scores], b);
    let s = with_barrier(t, true, seq![Buf::Att, Buf::Xh, Buf::Scores]);
    let lo = lin_of(g, l, Proj::O, blk.o_bias);
    lemma_lin_half(s, lo, Buf::Att, Buf::Xb, 0, n, !is_flash(g), b);
    let s = lin_half(s, lo, Buf::Att, Buf::Xb, 0, n, !is_flash(g));
    lemma_bar(m, s, true, seq![Buf::Xb], b);
    let s = with_barrier(s, true, seq![Buf::Xb]);
    let t = add_inplace(s, Buf::X, Buf::Xb, (n * g.hidden) as u64);
    lemma_pushed(m, s, t, b);
    lemma_bar(m, t, true, seq![Buf::X], b);
    lemma_mlp(with_barrier(t, true, seq![Buf::X]), g, blk, l, n, b);
}

proof fn lemma_layers(s: Seq<CmdView>, g: Geo, blocks: Seq<DenseBlock>, st: Step, k: int, b: Buf)
    requires
        keeps(Track::Unbound, s, b),
        cache_before(b, st.layer0),
        k <= usize::MAX,
    ensures
        keeps(Track::Unbound, layers_upto(s, g, blocks, st, k), b),
    decreases k - st.layer0,
{
    if k > st.layer0 {
        lemma_layers(s, g, blocks, st, k - 1, b);
        let before = layers_upto(s, g, blocks, st, k - 1);
        let (blk, l) = (blocks[k - 1], (k - 1) as usize);
        if fused(g, st.n) {
            lemma_decode(before, g, blk, l, st.pos0, b);
        } else {
            lemma_prefill(before, g, blk, l, st.pos0, st.n, b);
        }
    }
}

/// A step from layer `layer0` on binds no cache of an earlier layer.
pub proof fn lemma_tail_leaves_the_front_alone(g: Geo, blocks: Seq<DenseBlock>, head_bias: bool, st: Step, b: Buf)
    requires
        blocks.len() <= usize::MAX,
        cache_before(b, st.layer0),
    ensures
        unbound(dense_step(g, blocks, head_bias, st), b),
{
    let m = Track::Unbound;
    reveal(keeps);
    let none = Seq::<CmdView>::empty();
    let conc = !fused(g, st.n);
    let s = if st.from_ids {
        let t = embed(none, g, st.n);
        lemma_pushed(m, none, t, b);
        lemma_bar(m, t, conc, seq![Buf::X], b);
        with_barrier(t, conc, seq![Buf::X])
    } else {
        none
    };
    lemma_layers(s, g, blocks, st, blocks.len() as int, b);
    let s = layers_upto(s, g, blocks, st, blocks.len() as int);
    let layers = blocks.len() as usize;
    if st.logits_rows > 0 {
        let t = rmsnorm_both(s, g, Buf::X, Buf::Norm(layers, NormId::Final), Buf::Xn, Buf::Xh, st.n);
        lemma_pushed(m, s, t, b);
        lemma_bar(m, t, conc, seq![Buf::Xn, Buf::Xh], b);
        let u = with_barrier(t, conc, seq![Buf::Xn, Buf::Xh]);
        lemma_linear(
            u,
            Kernel::Matvec,
            Kernel::Matmul,
            lin_of(g, layers, Proj::Head, head_bias),
            Buf::Xn,
            ((st.n - st.logits_rows) * g.hidden * 4) as u64,
            Buf::Logits,
            0,
            st.logits_rows,
            true,
            true,
            conc,
            b,
        );
    }
}

} // verus!
