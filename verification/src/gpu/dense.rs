//! A step of a model with half-precision weights: the commands that take a chunk
//! of tokens through the layers, for one session and for a batch of requests.
use vstd::prelude::*;

use crate::gpu::encode::{
    Lin, add_inplace, attention, attention_decode, embed, enc_add_inplace, enc_attention,
    enc_attention_decode, enc_embed, enc_linear, enc_linear_kv, enc_matvec, enc_qkv, enc_rmsnorm,
    enc_rmsnorm_both, enc_rmsnorm_cache, enc_rmsnorm_heads, enc_rope, enc_rope_cache, enc_rope_qk,
    enc_rope_qk_chunk, enc_silu_mul_both, enc_swiglu, enc_to_half, is_flash, linear, linear_kv, matvec,
    qkv, rmsnorm, rmsnorm_both, rmsnorm_cache, rmsnorm_heads, rope, rope_cache, rope_qk, rope_qk_chunk,
    silu_mul_both, swiglu, to_half,
};
use crate::gpu::geometry::{DEC_TG, FLASH_HEAD_DIM, SPEC_MAX};
use crate::gpu::ops::{
    Buf, Cmd, CmdView, Geo, Kernel, NormId, Proj, cmds, fence1, fence2, fence3, fence4, with_barrier,
};
use crate::gpu::window::{
    PREFILL_CHUNK, Span, WindowCfg, lemma_slot_in_cache, lemma_spans_cover, spans_fit, win_write_spans,
    write_spans,
};
use crate::num::min;

verus! {

/// What a block has: which projections carry a bias, and whether queries and
/// keys are normalised per head.
#[derive(Debug, Clone, Copy, PartialEq, Eq, Structural)]
pub struct DenseBlock {
    pub q_bias: bool,
    pub k_bias: bool,
    pub v_bias: bool,
    pub o_bias: bool,
    pub gate_bias: bool,
    pub up_bias: bool,
    pub down_bias: bool,
    pub qk_norm: bool,
}

/// The linear layer `proj` of layer `layer`.
pub open spec fn lin_of(g: Geo, layer: usize, proj: Proj, has_bias: bool) -> Lin {
    let (i, o) = match proj {
        Proj::Q => (g.hidden, g.q_proj_dim),
        Proj::K | Proj::V => (g.hidden, g.kv_dim),
        Proj::O => (g.q_dim, g.hidden),
        Proj::Gate | Proj::Up => (g.hidden, g.inter),
        Proj::Down => (g.inter, g.hidden),
        _ => (g.hidden, g.vocab),
    };
    Lin { layer, proj, has_bias, in_dim: i, out_dim: o }
}

pub(crate) fn lin(g: &Geo, layer: usize, proj: Proj, has_bias: bool) -> (r: Lin)
    ensures
        r == lin_of(*g, layer, proj, has_bias),
{
    let (i, o) = match proj {
        Proj::Q => (g.hidden, g.q_proj_dim),
        Proj::K | Proj::V => (g.hidden, g.kv_dim),
        Proj::O => (g.q_dim, g.hidden),
        Proj::Gate | Proj::Up => (g.hidden, g.inter),
        Proj::Down => (g.inter, g.hidden),
        _ => (g.hidden, g.vocab),
    };
    Lin { layer, proj, has_bias, in_dim: i, out_dim: o }
}

/// What a step does: `n` tokens from position `pos0` on, through the layers from
/// `layer0` on, with logits for the last `logits_rows` of them. The input is
/// token ids, or the hidden state of layer `layer0`.
#[derive(Debug, Clone, Copy, PartialEq, Eq, Structural)]
pub struct Step {
    pub from_ids: bool,
    pub n: u32,
    pub pos0: u32,
    pub layer0: usize,
    pub logits_rows: u32,
}

/// A step within the buffers of a session: no more rows than the scratch holds,
/// positions inside the cache, and sizes that the kernels can count.
pub open spec fn step_ok(g: Geo, st: Step) -> bool {
    &&& g.ok()
    &&& rows_fit(g, st)
    &&& st.n * g.q_proj_dim <= u32::MAX
    &&& g.kv_base / 2 + (g.extent() + 64) * g.kv_dim <= u32::MAX
}

/// `n` rows of `width` can be counted.
fn countable(n: u32, width: u32) -> (r: bool)
    ensures
        r == (n * width <= u32::MAX),
{
    proof {
        assert(0 <= n * width <= 0xFFFF_FFFF * 0xFFFF_FFFF) by (nonlinear_arith)
            requires
                0 <= n <= 0xFFFF_FFFF,
                0 <= width <= 0xFFFF_FFFF,
        ;
    }
    n as u64 * width as u64 <= u32::MAX as u64
}

/// What steps over any kind of weights share: their rows, their positions and
/// the sizes that the kernels count.
pub open spec fn rows_fit(g: Geo, st: Step) -> bool {
    &&& 1 <= st.n <= chunk_rows(g)
    &&& st.pos0 + st.n <= u32::MAX
    &&& g.win is None ==> st.pos0 + st.n <= g.max_seq
    &&& st.logits_rows <= st.n
    &&& st.logits_rows <= SPEC_MAX
    &&& st.n * g.hidden <= u32::MAX
    &&& st.n * g.inter <= u32::MAX
    &&& st.n * g.q_dim <= u32::MAX
    &&& st.n * g.kv_dim <= u32::MAX
}

pub(crate) fn rows_are_fit(g: &Geo, st: &Step) -> (r: bool)
    ensures
        r == rows_fit(*g, *st),
{
    let end: u64 = st.pos0 as u64 + st.n as u64;
    1 <= st.n && st.n as usize <= PREFILL_CHUNK && st.n <= g.max_seq && end <= u32::MAX as u64 && (g.win.is_some()
        || end <= g.max_seq as u64) && st.logits_rows <= st.n && st.logits_rows as usize <= SPEC_MAX && countable(
        st.n,
        g.hidden,
    ) && countable(st.n, g.inter) && countable(st.n, g.q_dim) && countable(st.n, g.kv_dim)
}

/// Whether a step fits a session.
pub fn step_fits(g: &Geo, st: &Step) -> (r: bool)
    requires
        g.ok(),
    ensures
        r == step_ok(*g, *st),
{
    let extent: u64 = match g.win {
        Some(w) => w.cap as u64,
        None => g.max_seq as u64,
    };
    proof {
        let (e, k) = (extent + 64, g.kv_dim as int);
        assert(0 <= e * k <= 0x1_0000_003F * 0xFFFF_FFFF) by (nonlinear_arith)
            requires
                0 <= e <= 0x1_0000_003F,
                0 <= k <= 0xFFFF_FFFF,
        ;
        let (m, a, c) = (st.n as int, g.q_dim as int, g.q_proj_dim as int);
        assert(m * a <= m * c) by (nonlinear_arith)
            requires
                0 <= a <= c,
                m >= 0,
        ;
    }
    let top: u128 = (g.kv_base / 2) as u128 + (extent as u128 + 64) * g.kv_dim as u128;
    rows_are_fit(g, st) && countable(st.n, g.q_proj_dim) && top <= u32::MAX as u128
}

/// The rows that the scratch of a session holds.
pub open spec fn chunk_rows(g: Geo) -> int {
    min(PREFILL_CHUNK as int, g.max_seq as int)
}

/// The byte offset of the values in the staging buffer: its second half.
pub open spec fn v_base(g: Geo) -> int {
    chunk_rows(g) * g.kv_dim * 4
}

pub(crate) fn stage_v_base(g: &Geo) -> (r: u64)
    ensures
        r == v_base(*g),
{
    let rows: u64 = if PREFILL_CHUNK as u64 <= g.max_seq as u64 { PREFILL_CHUNK as u64 } else { g.max_seq as u64 };
    proof {
        assert(rows * g.kv_dim * 4 <= 512 * 0xFFFF_FFFF * 4) by (nonlinear_arith)
            requires
                0 <= rows <= 512,
                0 <= g.kv_dim <= 0xFFFF_FFFF,
        ;
        assert(rows * g.kv_dim <= 512 * 0xFFFF_FFFF) by (nonlinear_arith)
            requires
                0 <= rows <= 512,
                0 <= g.kv_dim <= 0xFFFF_FFFF,
        ;
    }
    rows * g.kv_dim as u64 * 4
}

/// One token takes the fused kernels where its heads fit them.
pub open spec fn fused(g: Geo, n: u32) -> bool {
    n == 1 && g.head_dim <= DEC_TG && g.head_dim % 4 == 0
}

/// A layer of a fused decode step.
pub open spec fn decode_layer(s: Seq<CmdView>, g: Geo, b: DenseBlock, l: usize, pos: u32) -> Seq<CmdView> {
    let row = g.row_of(pos as int);
    let off = g.row_off(row) as u64;
    let s = rmsnorm(s, g, Buf::X, Buf::Norm(l, NormId::Input), Buf::Xn, 1);
    let s = qkv(
        s,
        lin_of(g, l, Proj::Q, b.q_bias),
        lin_of(g, l, Proj::K, b.k_bias),
        lin_of(g, l, Proj::V, b.v_bias),
        Buf::Xn,
        Buf::Q,
        (g.kv_base / 2 + row * g.kv_dim) as u32,
    );
    let s = if b.qk_norm {
        rmsnorm_cache(
            rmsnorm_heads(s, Buf::Q, Buf::Norm(l, NormId::QHead), g.heads as u64, g.head_dim),
            Buf::KCache(l),
            off,
            Buf::Norm(l, NormId::KHead),
            g.kv_heads as u64,
            g.head_dim,
        )
    } else {
        s
    };
    let s = rope_qk(s, g, Buf::Q, Buf::KCache(l), off, pos);
    let s = attention_decode(s, g, Buf::Q, l, pos);
    let s = matvec(s, Kernel::MatvecAcc, lin_of(g, l, Proj::O, b.o_bias), Buf::Att, 0, Buf::X, 0);
    let s = rmsnorm(s, g, Buf::X, Buf::Norm(l, NormId::Post), Buf::Xn, 1);
    let s = swiglu(s, lin_of(g, l, Proj::Gate, b.gate_bias), lin_of(g, l, Proj::Up, b.up_bias), Buf::Xn, Buf::Gate);
    matvec(s, Kernel::MatvecAcc, lin_of(g, l, Proj::Down, b.down_bias), Buf::Gate, 0, Buf::X, 0)
}

pub(crate) proof fn lemma_products(g: Geo, n: u32)
    requires
        g.ok(),
        n <= PREFILL_CHUNK,
    ensures
        g.heads * g.rot_dim <= g.q_dim,
        0 <= (g.heads + g.kv_heads) * g.rot_dim <= g.q_dim + g.kv_dim,
        n * g.heads * g.rot_dim <= 512 * 0xFFFF_FFFF,
        n * g.heads * g.head_dim <= 512 * 0xFFFF_FFFF,
        n * g.kv_heads * g.head_dim <= 512 * 0xFFFF_FFFF,
        n * (g.q_dim + g.kv_dim) <= 1024 * 0xFFFF_FFFF,
        0 <= n * g.heads <= 512 * 0xFFFF_FFFF,
        0 <= n * g.kv_heads <= 512 * 0xFFFF_FFFF,
{
    let (h, k, d, r, m) = (g.heads as int, g.kv_heads as int, g.head_dim as int, g.rot_dim as int, n as int);
    assert(h * r <= h * d) by (nonlinear_arith)
        requires
            0 <= r <= d,
            h >= 0,
    ;
    assert(k * r <= k * d) by (nonlinear_arith)
        requires
            0 <= r <= d,
            k >= 0,
    ;
    assert((h + k) * r == h * r + k * r) by (nonlinear_arith);
    assert(h * r >= 0 && k * r >= 0) by (nonlinear_arith)
        requires
            h >= 0,
            k >= 0,
            r >= 0,
    ;
    assert(m * h * r == m * (h * r)) by (nonlinear_arith);
    assert(m * h * d == m * (h * d)) by (nonlinear_arith);
    assert(m * k * d == m * (k * d)) by (nonlinear_arith);
    let qd = g.q_dim as int;
    let kd = g.kv_dim as int;
    assert(m * (h * r) <= 512 * qd) by (nonlinear_arith)
        requires
            0 <= m <= 512,
            0 <= h * r <= qd,
    ;
    assert(m * qd <= 512 * qd) by (nonlinear_arith)
        requires
            0 <= m <= 512,
            0 <= qd,
    ;
    assert(m * kd <= 512 * kd) by (nonlinear_arith)
        requires
            0 <= m <= 512,
            0 <= kd,
    ;
    assert(m * (qd + kd) == m * qd + m * kd) by (nonlinear_arith);
    assert(0 <= m * h <= 512 * 0xFFFF_FFFF) by (nonlinear_arith)
        requires
            0 <= m <= 512,
            0 <= h <= 0xFFFF_FFFF,
    ;
    assert(0 <= m * k <= 512 * 0xFFFF_FFFF) by (nonlinear_arith)
        requires
            0 <= m <= 512,
            0 <= k <= 0xFFFF_FFFF,
    ;
}

fn push_decode_layer(out: &mut Vec<Cmd>, g: &Geo, b: &DenseBlock, l: usize, pos: u32)
    requires
        g.ok(),
        g.win is None ==> pos < g.max_seq,
        g.kv_base / 2 + (g.extent() + 64) * g.kv_dim <= u32::MAX,
    ensures
        cmds(final(out)@) == decode_layer(cmds(old(out)@), *g, *b, l, pos),
{
    let row: u64 = g.cache_row(pos);
    let off: u64 = g.cache_off(row);
    proof {
        g.lemma_rows(row as int);
        lemma_products(*g, 1);
        let (e, k) = (g.extent() + 64, g.kv_dim as int);
        assert(row * k <= e * k) by (nonlinear_arith)
            requires
                0 <= row <= e,
                k >= 0,
        ;
    }
    let kv_off: u32 = (g.kv_base / 2 + row * g.kv_dim as u64) as u32;
    enc_rmsnorm(out, g, Buf::X, Buf::Norm(l, NormId::Input), Buf::Xn, 1);
    enc_qkv(
        out,
        lin(g, l, Proj::Q, b.q_bias),
        lin(g, l, Proj::K, b.k_bias),
        lin(g, l, Proj::V, b.v_bias),
        Buf::Xn,
        Buf::Q,
        kv_off,
    );
    if b.qk_norm {
        enc_rmsnorm_heads(out, Buf::Q, Buf::Norm(l, NormId::QHead), g.heads as u64, g.head_dim);
        enc_rmsnorm_cache(
            out,
            Buf::KCache(l),
            off,
            Buf::Norm(l, NormId::KHead),
            g.kv_heads as u64,
            g.head_dim,
        );
    }
    enc_rope_qk(out, g, Buf::Q, Buf::KCache(l), off, pos);
    enc_attention_decode(out, g, Buf::Q, l, pos);
    enc_matvec(out, Kernel::MatvecAcc, lin(g, l, Proj::O, b.o_bias), Buf::Att, 0, Buf::X, 0);
    enc_rmsnorm(out, g, Buf::X, Buf::Norm(l, NormId::Post), Buf::Xn, 1);
    enc_swiglu(out, lin(g, l, Proj::Gate, b.gate_bias), lin(g, l, Proj::Up, b.up_bias), Buf::Xn, Buf::Gate);
    enc_matvec(out, Kernel::MatvecAcc, lin(g, l, Proj::Down, b.down_bias), Buf::Gate, 0, Buf::X, 0);
}

// ---------- a prefill layer ----------

/// Through a linear layer from the half-precision copy of the input.
pub open spec fn lin_half(s: Seq<CmdView>, l: Lin, x: Buf, y: Buf, y_off: u64, n: u32, convert: bool) -> Seq<CmdView> {
    linear(s, Kernel::Matvec, Kernel::Matmul, l, x, 0, y, y_off, n, true, convert, true)
}

/// Moves the staged keys and values of one span into the ring, and rotates the
/// keys there by their true positions.
pub open spec fn stage_span(s: Seq<CmdView>, g: Geo, l: usize, pos0: u32, sp: Span) -> Seq<CmdView> {
    let src = (sp.row * g.kv_dim * 4) as u64;
    let dst = (sp.slot * g.kv_dim * 2) as u64;
    let dim = (sp.len * g.kv_dim) as u64;
    let s = to_half(s, Buf::Kvs, src, Buf::KCache(l), dst, dim);
    let s = to_half(s, Buf::Kvs, (v_base(g) + src) as u64, Buf::VCache(l), dst, dim);
    let s = with_barrier(s, true, seq![Buf::KCache(l)]);
    rope_cache(
        s,
        g,
        Buf::KCache(l),
        dst,
        g.kv_heads,
        (pos0 + sp.row) as u32,
        sp.len as u32,
        g.head_dim,
        g.head_dim,
    )
}

/// The first `k` spans.
pub open spec fn stage_spans(s: Seq<CmdView>, g: Geo, l: usize, pos0: u32, spans: Seq<Span>, k: nat) -> Seq<CmdView>
    decreases k,
{
    if k == 0 {
        s
    } else {
        stage_span(stage_spans(s, g, l, pos0, spans, (k - 1) as nat), g, l, pos0, spans[k - 1])
    }
}

/// Keys and values of a chunk under a window: staged, normalised, then moved
/// into the ring span by span.
pub open spec fn window_kv(s: Seq<CmdView>, g: Geo, w: WindowCfg, b: DenseBlock, l: usize, pos0: u32, n: u32) -> Seq<
    CmdView,
> {
    let s = lin_half(s, lin_of(g, l, Proj::K, b.k_bias), Buf::Xn, Buf::Kvs, 0, n, false);
    let s = lin_half(s, lin_of(g, l, Proj::V, b.v_bias), Buf::Xn, Buf::Kvs, v_base(g) as u64, n, false);
    let s = with_barrier(s, true, seq![Buf::Q, Buf::Kvs]);
    let s = if b.qk_norm {
        let s = rmsnorm_heads(s, Buf::Q, Buf::Norm(l, NormId::QHead), (n * g.heads) as u64, g.head_dim);
        let s = rmsnorm_heads(s, Buf::Kvs, Buf::Norm(l, NormId::KHead), (n * g.kv_heads) as u64, g.head_dim);
        with_barrier(s, true, seq![Buf::Q, Buf::Kvs])
    } else {
        s
    };
    let s = rope(s, g, Buf::Q, g.heads, pos0, n, g.head_dim);
    let spans = write_spans(w, pos0 as int, n as int);
    let s = stage_spans(s, g, l, pos0, spans, spans.len());
    with_barrier(s, true, seq![Buf::Q, Buf::KCache(l), Buf::VCache(l), Buf::Kvs])
}

/// Keys and values of a chunk without a window: straight into the cache.
pub open spec fn direct_kv(s: Seq<CmdView>, g: Geo, b: DenseBlock, l: usize, pos0: u32, n: u32) -> Seq<CmdView> {
    let off = g.row_off(pos0 as int) as u64;
    let s = linear_kv(s, lin_of(g, l, Proj::K, b.k_bias), Buf::Xn, Buf::KCache(l), off, n);
    let s = linear_kv(s, lin_of(g, l, Proj::V, b.v_bias), Buf::Xn, Buf::VCache(l), off, n);
    let s = with_barrier(s, true, seq![Buf::Q, Buf::KCache(l), Buf::VCache(l)]);
    let s = if b.qk_norm {
        let s = rmsnorm_heads(s, Buf::Q, Buf::Norm(l, NormId::QHead), (n * g.heads) as u64, g.head_dim);
        let s = rmsnorm_cache(
            s,
            Buf::KCache(l),
            off,
            Buf::Norm(l, NormId::KHead),
            (n * g.kv_heads) as u64,
            g.head_dim,
        );
        with_barrier(s, true, seq![Buf::Q, Buf::KCache(l)])
    } else {
        s
    };
    let s = rope_qk_chunk(s, g, Buf::Q, Buf::KCache(l), off, pos0, n);
    with_barrier(s, true, seq![Buf::Q, Buf::KCache(l)])
}

/// A layer of a prefill step: attention, then the gated feed-forward part.
pub open spec fn prefill_layer(s: Seq<CmdView>, g: Geo, b: DenseBlock, l: usize, pos0: u32, n: u32) -> Seq<CmdView> {
    let s = rmsnorm_both(s, g, Buf::X, Buf::Norm(l, NormId::Input), Buf::Xn, Buf::Xh, n);
    let s = with_barrier(s, true, seq![Buf::Xn, Buf::Xh]);
    let s = lin_half(s, lin_of(g, l, Proj::Q, b.q_bias), Buf::Xn, Buf::Q, 0, n, false);
    let s = match g.win {
        Some(w) => window_kv(s, g, w, b, l, pos0, n),
        None => direct_kv(s, g, b, l, pos0, n),
    };
    let s = attention(s, g, Buf::Q, l, pos0, n);
    let s = with_barrier(s, true, seq![Buf::Att, Buf::Xh, Buf::Scores]);
    let s = lin_half(s, lin_of(g, l, Proj::O, b.o_bias), Buf::Att, Buf::Xb, 0, n, !is_flash(g));
    let s = with_barrier(s, true, seq![Buf::Xb]);
    let s = add_inplace(s, Buf::X, Buf::Xb, (n * g.hidden) as u64);
    let s = with_barrier(s, true, seq![Buf::X]);
    prefill_mlp(s, g, b, l, n)
}

/// The feed-forward part of a prefill layer.
pub open spec fn prefill_mlp(s: Seq<CmdView>, g: Geo, b: DenseBlock, l: usize, n: u32) -> Seq<CmdView> {
    let s = rmsnorm_both(s, g, Buf::X, Buf::Norm(l, NormId::Post), Buf::Xn, Buf::Xh, n);
    let s = with_barrier(s, true, seq![Buf::Xn, Buf::Xh]);
    let s = lin_half(s, lin_of(g, l, Proj::Gate, b.gate_bias), Buf::Xn, Buf::Gate, 0, n, false);
    let s = lin_half(s, lin_of(g, l, Proj::Up, b.up_bias), Buf::Xn, Buf::Up, 0, n, false);
    let s = with_barrier(s, true, seq![Buf::Gate, Buf::Up]);
    let s = silu_mul_both(s, Buf::Gate, Buf::Up, Buf::Xh, (n * g.inter) as u64);
    let s = with_barrier(s, true, seq![Buf::Gate, Buf::Xh]);
    let s = lin_half(s, lin_of(g, l, Proj::Down, b.down_bias), Buf::Gate, Buf::Xb, 0, n, false);
    let s = with_barrier(s, true, seq![Buf::Xb]);
    let s = add_inplace(s, Buf::X, Buf::Xb, (n * g.hidden) as u64);
    with_barrier(s, true, seq![Buf::X])
}

fn push_lin_half(out: &mut Vec<Cmd>, l: Lin, x: Buf, y: Buf, y_off: u64, n: u32, convert: bool)
    requires
        convert ==> n * l.in_dim <= u32::MAX,
    ensures
        cmds(final(out)@) == lin_half(cmds(old(out)@), l, x, y, y_off, n, convert),
{
    enc_linear(out, Kernel::Matvec, Kernel::Matmul, l, x, 0, y, y_off, n, true, convert, true);
}

fn push_stage_span(out: &mut Vec<Cmd>, g: &Geo, l: usize, pos0: u32, sp: Span)
    requires
        g.ok(),
        sp.row + sp.len <= PREFILL_CHUNK,
        sp.slot + sp.len <= g.extent(),
        sp.len * g.kv_dim <= u32::MAX,
        pos0 + sp.row <= u32::MAX,
    ensures
        cmds(final(out)@) == stage_span(cmds(old(out)@), *g, l, pos0, sp),
{
    proof {
        lemma_products(*g, sp.len as u32);
        g.lemma_rows(sp.slot as int);
        let k = g.kv_dim as int;
        assert(0 <= sp.row * k <= 512 * 0xFFFF_FFFF) by (nonlinear_arith)
            requires
                0 <= sp.row <= 512,
                0 <= k <= 0xFFFF_FFFF,
        ;
        assert(0 <= v_base(*g) <= 512 * 0xFFFF_FFFF * 4) by (nonlinear_arith)
            requires
                v_base(*g) == chunk_rows(*g) * g.kv_dim * 4,
                0 <= chunk_rows(*g) <= 512,
                0 <= g.kv_dim <= 0xFFFF_FFFF,
        ;
        assert(sp.len * k >= 0) by (nonlinear_arith)
            requires
                k >= 0,
        ;
    }
    let src: u64 = sp.row as u64 * g.kv_dim as u64 * 4;
    let dst: u64 = sp.slot as u64 * g.kv_dim as u64 * 2;
    let dim: u64 = sp.len as u64 * g.kv_dim as u64;
    enc_to_half(out, Buf::Kvs, src, Buf::KCache(l), dst, dim);
    enc_to_half(out, Buf::Kvs, stage_v_base(g) + src, Buf::VCache(l), dst, dim);
    fence1(out, true, Buf::KCache(l));
    enc_rope_cache(
        out,
        g,
        Buf::KCache(l),
        dst,
        g.kv_heads,
        pos0 + sp.row as u32,
        sp.len as u32,
        g.head_dim,
        g.head_dim,
    );
}

/// Every span of a run lies inside the run and inside the cache.
pub(crate) proof fn lemma_spans_inside(c: WindowCfg, pos0: int, n: int, i: int)
    requires
        c.ok(),
        0 <= pos0,
        0 < n,
        pos0 + n <= usize::MAX,
        0 <= i < write_spans(c, pos0, n).len(),
    ensures
        ({
            let sp = write_spans(c, pos0, n)[i];
            &&& sp.row + sp.len <= n
            &&& sp.slot + sp.len <= c.cap
        }),
{
    lemma_spans_cover(c, pos0, n);
    lemma_fit_inside(c, write_spans(c, pos0, n), pos0, 0, n, i);
}

proof fn lemma_fit_inside(c: WindowCfg, spans: Seq<Span>, pos0: int, row: int, n: int, i: int)
    requires
        c.ok(),
        0 <= pos0,
        0 <= row,
        spans_fit(c, spans, pos0, row, n),
        0 <= i < spans.len(),
    ensures
        spans[i].row + spans[i].len <= n,
        spans[i].slot + spans[i].len <= c.cap,
        row <= n,
    decreases spans.len(),
{
    let sp = spans[0];
    if spans.len() > 1 {
        if i > 0 {
            lemma_fit_inside(c, spans.drop_first(), pos0, row + sp.len, n, i - 1);
        } else {
            lemma_fit_inside(c, spans.drop_first(), pos0, row + sp.len, n, 0);
        }
    } else {
        assert(spans_fit(c, spans.drop_first(), pos0, row + sp.len, n));
    }
    if i == 0 {
        let t = sp.len - 1;
        assert(sp.slot + t == c.slot(pos0 + row + t));
        lemma_slot_in_cache(c, pos0 + row + t);
    }
}

fn push_window_kv(out: &mut Vec<Cmd>, g: &Geo, w: WindowCfg, b: &DenseBlock, l: usize, pos0: u32, n: u32)
    requires
        g.ok(),
        g.win == Some(w),
        1 <= n <= PREFILL_CHUNK,
        pos0 + n <= u32::MAX,
        n * g.kv_dim <= u32::MAX,
    ensures
        cmds(final(out)@) == window_kv(cmds(old(out)@), *g, w, *b, l, pos0, n),
{
    proof {
        lemma_products(*g, n);
    }
    push_lin_half(out, lin(g, l, Proj::K, b.k_bias), Buf::Xn, Buf::Kvs, 0, n, false);
    push_lin_half(out, lin(g, l, Proj::V, b.v_bias), Buf::Xn, Buf::Kvs, stage_v_base(g), n, false);
    fence2(out, true, Buf::Q, Buf::Kvs);
    if b.qk_norm {
        enc_rmsnorm_heads(out, Buf::Q, Buf::Norm(l, NormId::QHead), n as u64 * g.heads as u64, g.head_dim);
        enc_rmsnorm_heads(out, Buf::Kvs, Buf::Norm(l, NormId::KHead), n as u64 * g.kv_heads as u64, g.head_dim);
        fence2(out, true, Buf::Q, Buf::Kvs);
    }
    enc_rope(out, g, Buf::Q, g.heads, pos0, n, g.head_dim);
    let spans = win_write_spans(&w, pos0 as usize, n as usize);
    let ghost before = cmds(out@);
    let mut k: usize = 0;
    while k < spans.len()
        invariant
            g.ok(),
            g.win == Some(w),
            1 <= n <= PREFILL_CHUNK,
            pos0 + n <= u32::MAX,
            n * g.kv_dim <= u32::MAX,
            spans@ == write_spans(w, pos0 as int, n as int),
            k <= spans@.len(),
            cmds(out@) == stage_spans(before, *g, l, pos0, spans@, k as nat),
        decreases spans.len() - k,
    {
        proof {
            lemma_spans_inside(w, pos0 as int, n as int, k as int);
            let (a, m, d) = (spans@[k as int].len as int, n as int, g.kv_dim as int);
            assert(a * d <= m * d) by (nonlinear_arith)
                requires
                    0 <= a <= m,
                    d >= 0,
            ;
        }
        push_stage_span(out, g, l, pos0, spans[k]);
        k = k + 1;
    }
    fence4(out, true, Buf::Q, Buf::KCache(l), Buf::VCache(l), Buf::Kvs);
}

fn push_direct_kv(out: &mut Vec<Cmd>, g: &Geo, b: &DenseBlock, l: usize, pos0: u32, n: u32)
    requires
        g.ok(),
        g.win is None,
        n <= PREFILL_CHUNK,
        pos0 <= g.max_seq,
    ensures
        cmds(final(out)@) == direct_kv(cmds(old(out)@), *g, *b, l, pos0, n),
{
    proof {
        lemma_products(*g, n);
    }
    let off: u64 = g.cache_off(pos0 as u64);
    enc_linear_kv(out, lin(g, l, Proj::K, b.k_bias), Buf::Xn, Buf::KCache(l), off, n);
    enc_linear_kv(out, lin(g, l, Proj::V, b.v_bias), Buf::Xn, Buf::VCache(l), off, n);
    fence3(out, true, Buf::Q, Buf::KCache(l), Buf::VCache(l));
    if b.qk_norm {
        enc_rmsnorm_heads(out, Buf::Q, Buf::Norm(l, NormId::QHead), n as u64 * g.heads as u64, g.head_dim);
        enc_rmsnorm_cache(
            out,
            Buf::KCache(l),
            off,
            Buf::Norm(l, NormId::KHead),
            n as u64 * g.kv_heads as u64,
            g.head_dim,
        );
        fence2(out, true, Buf::Q, Buf::KCache(l));
    }
    enc_rope_qk_chunk(out, g, Buf::Q, Buf::KCache(l), off, pos0, n);
    fence2(out, true, Buf::Q, Buf::KCache(l));
}

fn push_prefill_mlp(out: &mut Vec<Cmd>, g: &Geo, b: &DenseBlock, l: usize, n: u32)
    requires
        n * g.hidden <= u32::MAX,
        n * g.inter <= u32::MAX,
    ensures
        cmds(final(out)@) == prefill_mlp(cmds(old(out)@), *g, *b, l, n),
{
    enc_rmsnorm_both(out, g, Buf::X, Buf::Norm(l, NormId::Post), Buf::Xn, Buf::Xh, n);
    fence2(out, true, Buf::Xn, Buf::Xh);
    push_lin_half(out, lin(g, l, Proj::Gate, b.gate_bias), Buf::Xn, Buf::Gate, 0, n, false);
    push_lin_half(out, lin(g, l, Proj::Up, b.up_bias), Buf::Xn, Buf::Up, 0, n, false);
    fence2(out, true, Buf::Gate, Buf::Up);
    enc_silu_mul_both(out, Buf::Gate, Buf::Up, Buf::Xh, n as u64 * g.inter as u64);
    fence2(out, true, Buf::Gate, Buf::Xh);
    push_lin_half(out, lin(g, l, Proj::Down, b.down_bias), Buf::Gate, Buf::Xb, 0, n, false);
    fence1(out, true, Buf::Xb);
    enc_add_inplace(out, Buf::X, Buf::Xb, n as u64 * g.hidden as u64);
    fence1(out, true, Buf::X);
}

fn push_prefill_layer(out: &mut Vec<Cmd>, g: &Geo, b: &DenseBlock, l: usize, pos0: u32, n: u32)
    requires
        g.ok(),
        1 <= n <= PREFILL_CHUNK,
        pos0 + n <= u32::MAX,
        g.win is None ==> pos0 + n <= g.max_seq,
        n * g.hidden <= u32::MAX,
        n * g.inter <= u32::MAX,
        n * g.q_proj_dim <= u32::MAX,
        n * g.kv_dim <= u32::MAX,
    ensures
        cmds(final(out)@) == prefill_layer(cmds(old(out)@), *g, *b, l, pos0, n),
{
    enc_rmsnorm_both(out, g, Buf::X, Buf::Norm(l, NormId::Input), Buf::Xn, Buf::Xh, n);
    fence2(out, true, Buf::Xn, Buf::Xh);
    push_lin_half(out, lin(g, l, Proj::Q, b.q_bias), Buf::Xn, Buf::Q, 0, n, false);
    match g.win {
        Some(w) => push_window_kv(out, g, w, b, l, pos0, n),
        None => push_direct_kv(out, g, b, l, pos0, n),
    }
    enc_attention(out, g, Buf::Q, l, pos0, n);
    fence3(out, true, Buf::Att, Buf::Xh, Buf::Scores);
    proof {
        let (m, a, c) = (n as int, g.q_dim as int, g.q_proj_dim as int);
        assert(m * a <= m * c) by (nonlinear_arith)
            requires
                0 <= a <= c,
                m >= 0,
        ;
    }
    push_lin_half(
        out,
        lin(g, l, Proj::O, b.o_bias),
        Buf::Att,
        Buf::Xb,
        0,
        n,
        g.head_dim as usize != FLASH_HEAD_DIM,
    );
    fence1(out, true, Buf::Xb);
    enc_add_inplace(out, Buf::X, Buf::Xb, n as u64 * g.hidden as u64);
    fence1(out, true, Buf::X);
    push_prefill_mlp(out, g, b, l, n);
}

// ---------- a whole step ----------

/// The layers from `layer0` up to `k`.
pub open spec fn layers_upto(s: Seq<CmdView>, g: Geo, blocks: Seq<DenseBlock>, st: Step, k: int) -> Seq<CmdView>
    decreases k - st.layer0,
{
    if k <= st.layer0 {
        s
    } else {
        let before = layers_upto(s, g, blocks, st, k - 1);
        let (b, l) = (blocks[k - 1], (k - 1) as usize);
        if fused(g, st.n) {
            decode_layer(before, g, b, l, st.pos0)
        } else {
            prefill_layer(before, g, b, l, st.pos0, st.n)
        }
    }
}

/// The last norm, and the head over the rows whose logits are wanted.
pub open spec fn head(s: Seq<CmdView>, g: Geo, layers: usize, st: Step, head_bias: bool) -> Seq<CmdView> {
    let conc = !fused(g, st.n);
    if st.logits_rows == 0 {
        s
    } else {
        let s = rmsnorm_both(s, g, Buf::X, Buf::Norm(layers, NormId::Final), Buf::Xn, Buf::Xh, st.n);
        let s = with_barrier(s, conc, seq![Buf::Xn, Buf::Xh]);
        linear(
            s,
            Kernel::Matvec,
            Kernel::Matmul,
            lin_of(g, layers, Proj::Head, head_bias),
            Buf::Xn,
            ((st.n - st.logits_rows) * g.hidden * 4) as u64,
            Buf::Logits,
            0,
            st.logits_rows,
            true,
            true,
            conc,
        )
    }
}

/// The commands of a step.
pub open spec fn dense_step(g: Geo, blocks: Seq<DenseBlock>, head_bias: bool, st: Step) -> Seq<CmdView> {
    let s = if st.from_ids {
        with_barrier(embed(Seq::empty(), g, st.n), !fused(g, st.n), seq![Buf::X])
    } else {
        Seq::empty()
    };
    let s = layers_upto(s, g, blocks, st, blocks.len() as int);
    head(s, g, blocks.len() as usize, st, head_bias)
}

fn push_head(out: &mut Vec<Cmd>, g: &Geo, layers: usize, st: Step, head_bias: bool, conc: bool)
    requires
        step_ok(*g, st),
        conc == !fused(*g, st.n),
    ensures
        cmds(final(out)@) == head(cmds(old(out)@), *g, layers, st, head_bias),
{
    if st.logits_rows == 0 {
        return;
    }
    enc_rmsnorm_both(out, g, Buf::X, Buf::Norm(layers, NormId::Final), Buf::Xn, Buf::Xh, st.n);
    fence2(out, conc, Buf::Xn, Buf::Xh);
    let first: u64 = (st.n - st.logits_rows) as u64;
    proof {
        let (f, m, r, h) = (first as int, st.n as int, st.logits_rows as int, g.hidden as int);
        assert(f * h <= m * h) by (nonlinear_arith)
            requires
                0 <= f <= m,
                h >= 0,
        ;
        assert(r * h <= m * h) by (nonlinear_arith)
            requires
                0 <= r <= m,
                h >= 0,
        ;
        assert(f * h >= 0) by (nonlinear_arith)
            requires
                f >= 0,
                h >= 0,
        ;
    }
    enc_linear(
        out,
        Kernel::Matvec,
        Kernel::Matmul,
        lin(g, layers, Proj::Head, head_bias),
        Buf::Xn,
        first * g.hidden as u64 * 4,
        Buf::Logits,
        0,
        st.logits_rows,
        true,
        true,
        conc,
    );
}

/// Plans a step of a session.
pub fn plan_dense(g: &Geo, blocks: &Vec<DenseBlock>, head_bias: bool, st: Step) -> (r: Vec<Cmd>)
    requires
        step_ok(*g, st),
    ensures
        cmds(r@) == dense_step(*g, blocks@, head_bias, st),
{
    let decode = st.n == 1 && g.head_dim as usize <= DEC_TG && g.head_dim % 4 == 0;
    let mut out: Vec<Cmd> = Vec::new();
    assert(cmds(out@) =~= Seq::<CmdView>::empty());
    if st.from_ids {
        enc_embed(&mut out, g, st.n);
        fence1(&mut out, !decode, Buf::X);
    }
    let ghost start = cmds(out@);
    let mut l: usize = st.layer0;
    while l < blocks.len()
        invariant
            step_ok(*g, st),
            decode == fused(*g, st.n),
            st.layer0 <= l,
            l <= blocks@.len() || l == st.layer0,
            cmds(out@) == layers_upto(start, *g, blocks@, st, l as int),
        decreases blocks.len() - l,
    {
        if decode {
            push_decode_layer(&mut out, g, &blocks[l], l, st.pos0);
        } else {
            push_prefill_layer(&mut out, g, &blocks[l], l, st.pos0, st.n);
        }
        l = l + 1;
    }
    push_head(&mut out, g, blocks.len(), st, head_bias, !decode);
    out
}

} // verus!
