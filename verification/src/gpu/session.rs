//! A session on the GPU: its numbers, the sizes of its buffers, the steps that a
//! prompt or a batch becomes, and where rows go in its cache.
use vstd::prelude::*;
use vstd::string::*;

use crate::config::ModelConfig;
use crate::engine::BatchRow;
use crate::gguf::arch::Qwen35Meta;
use crate::gguf::ggml_type::GgmlType;
use crate::gguf::reader::le;
use crate::gpu::batched::{rows_ok, splits_max, splits_now};
use crate::gpu::dense::{Step, chunk_rows, rows_fit, v_base};
use crate::gpu::encode::decode_splits;
use crate::gpu::geometry::{
    ATTN_SPLIT, DEC_TG, Dims, FLASH_C, FLASH_HEAD_DIM, SPEC_MAX, dims_of, head_width,
};
use crate::gpu::linear_block::DeltaGeo;
use crate::gpu::ops::Geo;
use crate::gpu::state::LayerStateKind;
use crate::gpu::timing::SrcType;
use crate::gpu::window::{PREFILL_CHUNK, WindowCfg};
use crate::num::{ceil_div, div_up, max, min};

verus! {

// ---------- the numbers of a session ----------

/// The numbers of a session as the kernels count them.
pub open spec fn geo_from(cfg: ModelConfig, dims: Dims, max_seq: usize, win: Option<WindowCfg>, kv_base: u64) -> Geo {
    Geo {
        hidden: cfg.hidden_size as u32,
        inter: cfg.intermediate_size as u32,
        vocab: cfg.vocab_size as u32,
        heads: cfg.num_attention_heads as u32,
        kv_heads: cfg.num_key_value_heads as u32,
        head_dim: dims.head_dim as u32,
        q_dim: dims.q_dim as u32,
        kv_dim: dims.kv_dim as u32,
        q_proj_dim: dims.q_proj_dim as u32,
        rot_dim: dims.rot_dim as u32,
        max_seq: max_seq as u32,
        kv_base,
        win,
    }
}

/// Every number fits the kernels' counters.
pub open spec fn counts_fit(cfg: ModelConfig, dims: Dims, max_seq: usize) -> bool {
    &&& cfg.hidden_size <= u32::MAX
    &&& cfg.intermediate_size <= u32::MAX
    &&& cfg.vocab_size <= u32::MAX
    &&& cfg.num_attention_heads <= u32::MAX
    &&& cfg.num_key_value_heads <= u32::MAX
    &&& dims.head_dim <= u32::MAX
    &&& dims.q_dim <= u32::MAX
    &&& dims.kv_dim <= u32::MAX
    &&& dims.q_proj_dim <= u32::MAX
    &&& dims.rot_dim <= u32::MAX
    &&& max_seq <= u32::MAX
}

fn small(x: usize) -> (r: bool)
    ensures
        r == (x <= u32::MAX),
{
    x as u64 <= u32::MAX as u64
}

/// The numbers of a session, where they fit the kernels' counters and agree with
/// each other.
pub fn geo_of(cfg: &ModelConfig, dims: &Dims, max_seq: usize, win: Option<WindowCfg>, kv_base: u64) -> (r: Option<Geo>)
    requires
        win matches Some(w) ==> w.ok(),
    ensures
        match r {
            Some(g) => {
                &&& counts_fit(*cfg, *dims, max_seq)
                &&& g == geo_from(*cfg, *dims, max_seq, win, kv_base)
                &&& g.ok()
            },
            None => !counts_fit(*cfg, *dims, max_seq) || !geo_from(*cfg, *dims, max_seq, win, kv_base).ok(),
        },
{
    if !(small(cfg.hidden_size) && small(cfg.intermediate_size) && small(cfg.vocab_size) && small(
        cfg.num_attention_heads,
    ) && small(cfg.num_key_value_heads) && small(dims.head_dim) && small(dims.q_dim) && small(dims.kv_dim) && small(
        dims.q_proj_dim,
    ) && small(dims.rot_dim) && small(max_seq)) {
        return None;
    }
    let g = Geo {
        hidden: cfg.hidden_size as u32,
        inter: cfg.intermediate_size as u32,
        vocab: cfg.vocab_size as u32,
        heads: cfg.num_attention_heads as u32,
        kv_heads: cfg.num_key_value_heads as u32,
        head_dim: dims.head_dim as u32,
        q_dim: dims.q_dim as u32,
        kv_dim: dims.kv_dim as u32,
        q_proj_dim: dims.q_proj_dim as u32,
        rot_dim: dims.rot_dim as u32,
        max_seq: max_seq as u32,
        kv_base,
        win,
    };
    if sound(&g) {
        Some(g)
    } else {
        None
    }
}

fn sound(g: &Geo) -> (r: bool)
    requires
        g.win matches Some(w) ==> w.ok(),
    ensures
        r == g.ok(),
{
    let extent: u64 = match g.win {
        Some(w) => w.cap as u64,
        None => g.max_seq as u64,
    };
    if g.kv_heads == 0 || g.kv_heads > g.heads || g.head_dim == 0 || g.rot_dim > g.head_dim || extent > u32::MAX as u64 {
        return false;
    }
    proof {
        let (h, k, d) = (g.heads as int, g.kv_heads as int, g.head_dim as int);
        assert(0 <= h * d <= 0xFFFF_FFFF * 0xFFFF_FFFF) by (nonlinear_arith)
            requires
                0 <= h <= 0xFFFF_FFFF,
                0 <= d <= 0xFFFF_FFFF,
        ;
        assert(0 <= k * d <= 0xFFFF_FFFF * 0xFFFF_FFFF) by (nonlinear_arith)
            requires
                0 <= k <= 0xFFFF_FFFF,
                0 <= d <= 0xFFFF_FFFF,
        ;
        let (e, v) = (extent + 64, g.kv_dim as int);
        assert(0 <= e * v <= 0x1_0000_003F * 0xFFFF_FFFF) by (nonlinear_arith)
            requires
                0 <= e <= 0x1_0000_003F,
                0 <= v <= 0xFFFF_FFFF,
        ;
    }
    let q: u64 = g.heads as u64 * g.head_dim as u64;
    let kv: u64 = g.kv_heads as u64 * g.head_dim as u64;
    let end: u128 = g.kv_base as u128 + (extent as u128 + 64) * g.kv_dim as u128 * 2;
    g.q_dim as u64 == q && g.kv_dim as u64 == kv && (g.q_proj_dim == g.q_dim || g.q_proj_dim as u64 == 2 * g.q_dim as u64)
        && end <= u64::MAX as u128
}

/// The rotated dimensions of a hybrid's heads: two per frequency of its sections.
pub open spec fn rotated(sections: Seq<u64>) -> int {
    2 * (sections[0] + sections[1] + sections[2] + sections[3])
}

/// The model's widths fit this machine.
pub open spec fn widths_fit(cfg: ModelConfig, head_dim: Option<usize>) -> bool {
    &&& cfg.num_attention_heads > 0
    &&& 2 * cfg.num_attention_heads * head_width(cfg, head_dim) <= usize::MAX
    &&& cfg.num_key_value_heads * head_width(cfg, head_dim) <= usize::MAX
}

/// The widths of a model. A hybrid's query projection carries the output gate
/// too, and only the dimensions of its sections rotate. None where they exceed
/// this machine.
pub fn model_dims(cfg: &ModelConfig, head_dim: Option<usize>, meta: Option<&Qwen35Meta>) -> (r: Option<Dims>)
    ensures
        match r {
            Some(d) => {
                &&& widths_fit(*cfg, head_dim)
                &&& d.hidden == cfg.hidden_size
                &&& d.head_dim == head_width(*cfg, head_dim)
                &&& d.q_dim == cfg.num_attention_heads * d.head_dim
                &&& d.kv_dim == cfg.num_key_value_heads * d.head_dim
                &&& d.q_proj_dim == (if meta is Some { 2 * d.q_dim } else { d.q_dim as int })
                &&& d.rot_dim == (match meta { Some(m) => rotated(m.rope_sections@), None => d.head_dim as int })
            },
            None => {
                ||| !widths_fit(*cfg, head_dim)
                ||| meta matches Some(m) && rotated(m.rope_sections@) > usize::MAX
            },
        },
{
    if cfg.num_attention_heads == 0 {
        return None;
    }
    let hd: usize = match head_dim {
        Some(h) => h,
        None => cfg.hidden_size / cfg.num_attention_heads,
    };
    proof {
        let (a, k, d) = (cfg.num_attention_heads as int, cfg.num_key_value_heads as int, hd as int);
        assert(0 <= a * d <= usize::MAX * usize::MAX) by (nonlinear_arith)
            requires
                0 <= a <= usize::MAX,
                0 <= d <= usize::MAX,
        ;
        assert(0 <= k * d <= usize::MAX * usize::MAX) by (nonlinear_arith)
            requires
                0 <= k <= usize::MAX,
                0 <= d <= usize::MAX,
        ;
        assert(2 * a * d == 2 * (a * d)) by (nonlinear_arith);
        assert(usize::MAX * usize::MAX <= 0xFFFF_FFFF_FFFF_FFFF * 0xFFFF_FFFF_FFFF_FFFF) by (nonlinear_arith)
            requires
                0 <= usize::MAX <= 0xFFFF_FFFF_FFFF_FFFF,
        ;
    }
    let top: u128 = usize::MAX as u128;
    let q: u128 = cfg.num_attention_heads as u128 * hd as u128;
    let kv: u128 = cfg.num_key_value_heads as u128 * hd as u128;
    if q > top / 2 || kv > top {
        return None;
    }
    let rot: Option<usize> = match meta {
        Some(m) => {
            let s = m.rope_sections;
            let sum: u128 = 2 * (s[0] as u128 + s[1] as u128 + s[2] as u128 + s[3] as u128);
            if sum > top {
                return None;
            }
            Some(sum as usize)
        },
        None => None,
    };
    Some(dims_of(cfg, head_dim, meta.is_some(), rot))
}

// ---------- buffer sizes ----------

/// The lengths of a session's working buffers, in elements.
#[derive(Debug, Clone, Copy, PartialEq, Eq, Structural)]
pub struct ScratchSizes {
    pub ids: u64,
    pub x: u64,
    pub xn: u64,
    pub q: u64,
    pub att: u64,
    pub xb: u64,
    pub gate: u64,
    pub up: u64,
    pub logits: u64,
    pub scores: u64,
    pub partials: u64,
    pub xh: u64,
    pub kvs: u64,
}

/// The scores of a prefill chunk: every head and row over the whole cache. The
/// flash kernel keeps none.
pub open spec fn score_elems(g: Geo) -> int {
    if g.head_dim == FLASH_HEAD_DIM {
        1
    } else {
        chunk_rows(g) * g.heads * g.extent()
    }
}

/// The partial results of decode attention: a head's output and two sums per
/// split.
pub open spec fn partial_elems(g: Geo) -> int {
    g.heads * div_up(g.extent(), ATTN_SPLIT as int) * (g.head_dim + 2)
}

/// Rows of queries are as wide as the projection, or as the hidden state where
/// that is wider.
pub open spec fn scratch(g: Geo, staged: bool, s: ScratchSizes) -> bool {
    let rows = chunk_rows(g);
    &&& s.ids == rows
    &&& s.x == rows * g.hidden
    &&& s.xn == rows * g.hidden
    &&& s.q == rows * max(g.hidden as int, g.q_proj_dim as int)
    &&& s.att == rows * max(g.hidden as int, g.q_dim as int)
    &&& s.xb == rows * g.hidden
    &&& s.gate == rows * g.inter
    &&& s.up == rows * g.inter
    &&& s.logits == SPEC_MAX * g.vocab
    &&& s.scores == score_elems(g)
    &&& s.partials == partial_elems(g)
    &&& s.xh == rows * max(max(g.hidden as int, g.inter as int), g.q_proj_dim as int)
    &&& s.kvs == (if staged { 2 * rows * g.kv_dim } else { 1 })
}

fn wider(a: u32, b: u32) -> (r: u64)
    ensures
        r == max(a as int, b as int),
        r <= u32::MAX,
{
    if a >= b {
        a as u64
    } else {
        b as u64
    }
}

/// `rows` rows of `width` elements.
fn rows_times(rows: u64, width: u64) -> (r: u64)
    requires
        rows <= PREFILL_CHUNK,
        width <= u32::MAX,
    ensures
        r == rows * width,
        r <= 512 * 0xFFFF_FFFF,
{
    proof {
        assert(0 <= rows * width <= 512 * 0xFFFF_FFFF) by (nonlinear_arith)
            requires
                0 <= rows <= 512,
                0 <= width <= 0xFFFF_FFFF,
        ;
    }
    rows * width
}

/// Sizes the working buffers of a session. A windowed or quantized one stages
/// keys and values. None where a buffer could not be counted.
pub fn scratch_sizes(g: &Geo, staged: bool) -> (r: Option<ScratchSizes>)
    requires
        g.ok(),
    ensures
        match r {
            Some(s) => scratch(*g, staged, s),
            None => score_elems(*g) > u64::MAX || partial_elems(*g) > u64::MAX,
        },
{
    let rows: u64 = if PREFILL_CHUNK as u64 <= g.max_seq as u64 { PREFILL_CHUNK as u64 } else { g.max_seq as u64 };
    let extent: u64 = match g.win {
        Some(w) => w.cap as u64,
        None => g.max_seq as u64,
    };
    let splits: u64 = ceil_div(extent, ATTN_SPLIT as u64);
    proof {
        let (n, h, e, p, d) = (rows as int, g.heads as int, extent as int, splits as int, g.head_dim as int);
        assert(0 <= n * h <= 512 * 0xFFFF_FFFF) by (nonlinear_arith)
            requires
                0 <= n <= 512,
                0 <= h <= 0xFFFF_FFFF,
        ;
        assert(0 <= (n * h) * e <= 512 * 0xFFFF_FFFF * 0xFFFF_FFFF) by (nonlinear_arith)
            requires
                0 <= n * h <= 512 * 0xFFFF_FFFF,
                0 <= e <= 0xFFFF_FFFF,
        ;
        assert(0 <= h * p <= 0xFFFF_FFFF * 0xFFFF_FFFF) by (nonlinear_arith)
            requires
                0 <= p <= 0xFFFF_FFFF,
                0 <= h <= 0xFFFF_FFFF,
        ;
        assert(0 <= (h * p) * (d + 2) <= 0xFFFF_FFFF * 0xFFFF_FFFF * 0x1_0000_0001) by (nonlinear_arith)
            requires
                0 <= h * p <= 0xFFFF_FFFF * 0xFFFF_FFFF,
                0 <= d <= 0xFFFF_FFFF,
        ;
    }
    let scores: u128 = if g.head_dim as usize == FLASH_HEAD_DIM {
        1
    } else {
        rows as u128 * g.heads as u128 * extent as u128
    };
    let partials: u128 = g.heads as u128 * splits as u128 * (g.head_dim as u128 + 2);
    if scores > u64::MAX as u128 || partials > u64::MAX as u128 {
        return None;
    }
    let hidden: u64 = rows_times(rows, g.hidden as u64);
    let inner: u64 = rows_times(rows, g.inter as u64);
    let widest: u64 = {
        let a: u64 = wider(g.hidden, g.inter);
        if a >= g.q_proj_dim as u64 {
            a
        } else {
            g.q_proj_dim as u64
        }
    };
    let kv: u64 = rows_times(rows, g.kv_dim as u64);
    assert(2 * rows * g.kv_dim == 2 * (rows * g.kv_dim)) by (nonlinear_arith);
    Some(
        ScratchSizes {
            ids: rows,
            x: hidden,
            xn: hidden,
            q: rows_times(rows, wider(g.hidden, g.q_proj_dim)),
            att: rows_times(rows, wider(g.hidden, g.q_dim)),
            xb: hidden,
            gate: inner,
            up: inner,
            logits: rows_times(SPEC_MAX as u64, g.vocab as u64),
            scores: scores as u64,
            partials: partials as u64,
            xh: rows_times(rows, widest),
            kvs: if staged { 2 * kv } else { 1 },
        },
    )
}

/// The lengths of a linear block's working buffers, in elements.
#[derive(Debug, Clone, Copy, PartialEq, Eq, Structural)]
pub struct DeltaSizes {
    pub qkv: u64,
    pub z: u64,
    pub alpha: u64,
    pub beta_p: u64,
    pub g: u64,
    pub beta: u64,
    pub conv_out: u64,
    pub dout: u64,
}

/// Every buffer holds a whole chunk.
pub open spec fn delta_scratch(d: DeltaGeo, rows: int, s: DeltaSizes) -> bool {
    &&& s.qkv == rows * d.channels
    &&& s.z == rows * d.inner
    &&& s.alpha == rows * d.n_v_heads
    &&& s.beta_p == rows * d.n_v_heads
    &&& s.g == rows * d.n_v_heads
    &&& s.beta == rows * d.n_v_heads
    &&& s.conv_out == rows * d.channels
    &&& s.dout == rows * d.inner
}

/// Sizes the working buffers of the linear blocks.
pub fn delta_sizes(d: &DeltaGeo, g: &Geo) -> (r: DeltaSizes)
    ensures
        delta_scratch(*d, chunk_rows(*g), r),
{
    let rows: u64 = if PREFILL_CHUNK as u64 <= g.max_seq as u64 { PREFILL_CHUNK as u64 } else { g.max_seq as u64 };
    let wide: u64 = rows_times(rows, d.channels as u64);
    let inner: u64 = rows_times(rows, d.inner as u64);
    let heads: u64 = rows_times(rows, d.n_v_heads as u64);
    DeltaSizes {
        qkv: wide,
        z: inner,
        alpha: heads,
        beta_p: heads,
        g: heads,
        beta: heads,
        conv_out: wide,
        dout: inner,
    }
}

/// The rows that a layer's cache is made with: the ring of a window; else every
/// position, and what the flash kernel may read past the last one.
pub fn cache_rows(g: &Geo) -> (r: u64)
    requires
        g.ok(),
    ensures
        r == (if g.win is Some { g.extent() } else { g.max_seq + FLASH_C }),
{
    match g.win {
        Some(w) => w.cap as u64,
        None => g.max_seq as u64 + FLASH_C as u64,
    }
}

/// A step that fits a session fits its working buffers, and its cache rows lie
/// inside the cache: nothing is written past a buffer's end.
pub proof fn lemma_step_fits_scratch(g: Geo, staged: bool, s: ScratchSizes, st: Step, row: int)
    requires
        g.ok(),
        scratch(g, staged, s),
        rows_fit(g, st),
        0 <= row < g.extent(),
    ensures
        st.n <= s.ids,
        st.n * g.hidden <= s.x,
        st.n * g.hidden <= s.xn,
        st.n * g.hidden <= s.xb,
        st.n * g.q_proj_dim <= s.q,
        st.n * g.q_dim <= s.att,
        st.n * g.inter <= s.gate,
        st.n * g.inter <= s.up,
        st.n * g.hidden <= s.xh,
        st.n * g.inter <= s.xh,
        st.n * g.q_proj_dim <= s.xh,
        st.logits_rows * g.vocab <= s.logits,
        g.head_dim != FLASH_HEAD_DIM ==> st.n * g.heads * g.extent() <= s.scores,
        g.heads * decode_splits(g, st.pos0) * (g.head_dim + 2) <= s.partials,
        staged ==> v_base(g) + st.n * g.kv_dim * 4 <= s.kvs * 4,
        g.row_off(row) + g.kv_dim * 2 <= g.kv_base + g.extent() * g.kv_dim * 2,
{
    let (n, rows, h, qp, q, i, k) = (
        st.n as int,
        chunk_rows(g),
        g.hidden as int,
        g.q_proj_dim as int,
        g.q_dim as int,
        g.inter as int,
        g.kv_dim as int,
    );
    lemma_product_le(n, rows, h, h);
    lemma_product_le(n, rows, qp, max(h, qp));
    lemma_product_le(n, rows, q, max(h, q));
    lemma_product_le(n, rows, i, i);
    let widest = max(max(h, i), qp);
    lemma_product_le(n, rows, h, widest);
    lemma_product_le(n, rows, i, widest);
    lemma_product_le(n, rows, qp, widest);
    lemma_product_le(n, rows, k, k);
    assert(2 * rows * k == 2 * (rows * k)) by (nonlinear_arith);
    lemma_product_le(row + 1, g.extent(), k, k);
    assert((row + 1) * k == row * k + k) by (nonlinear_arith);
    lemma_product_le(st.logits_rows as int, SPEC_MAX as int, g.vocab as int, g.vocab as int);
    let (heads, e) = (g.heads as int, g.extent());
    lemma_product_le(n, rows, heads, heads);
    assert(n * heads >= 0) by (nonlinear_arith)
        requires
            n >= 0,
            heads >= 0,
    ;
    lemma_product_le(n * heads, rows * heads, e, e);
    let (few, all) = (decode_splits(g, st.pos0), div_up(e, ATTN_SPLIT as int));
    assert(0 <= few <= all);
    lemma_product_le(heads, heads, few, all);
    assert(heads * few >= 0) by (nonlinear_arith)
        requires
            heads >= 0,
            few >= 0,
    ;
    lemma_product_le(heads * few, heads * all, g.head_dim + 2, g.head_dim + 2);
}

/// The rows of a batched step fit the batcher's buffers.
pub proof fn lemma_batch_fits_scratch(g: Geo, n_slots: usize, s: BatchSizes, rows: Seq<BatchRow>)
    requires
        g.ok(),
        batch_scratch(g, n_slots, s),
        rows_ok(g, rows, n_slots as nat),
    ensures
        rows.len() <= s.ids,
        rows.len() <= s.meta,
        rows.len() * g.hidden <= s.x,
        rows.len() * g.hidden <= s.xn,
        rows.len() * g.q_dim <= s.q,
        rows.len() * g.q_dim <= s.att,
        rows.len() * g.inter <= s.gate,
        rows.len() * g.vocab <= s.logits,
        splits_now(rows, rows.len()) <= splits_max(g),
        rows.len() * g.heads * splits_max(g) * (g.head_dim + 2) <= s.partials,
{
    let (n, m, h, q, p) = (rows.len() as int, n_slots as int, g.hidden as int, g.q_dim as int, splits_max(g));
    lemma_product_le(n, m, h, h);
    lemma_product_le(n, m, q, max(h, q));
    lemma_product_le(n, m, q, max(h, g.q_proj_dim as int));
    lemma_product_le(n, m, g.inter as int, g.inter as int);
    lemma_product_le(n, m, g.vocab as int, g.vocab as int);
    lemma_splits_within(g, rows, n_slots, rows.len());
    let heads = g.heads as int;
    lemma_product_le(n, m, heads, heads);
    assert(0 <= n * heads && 0 <= n * heads * p) by (nonlinear_arith)
        requires
            n >= 0,
            heads >= 0,
            p >= 0,
    ;
    lemma_product_le(n * heads, m * heads, p, p);
    lemma_product_le(n * heads * p, m * heads * p, g.head_dim + 2, g.head_dim + 2);
}

proof fn lemma_splits_within(g: Geo, rows: Seq<BatchRow>, n_slots: usize, k: nat)
    requires
        rows_ok(g, rows, n_slots as nat),
        k <= rows.len(),
    ensures
        1 <= splits_now(rows, k) <= splits_max(g),
    decreases k,
{
    assert(rows[0].pos < g.max_seq);
    if k > 0 {
        lemma_splits_within(g, rows, n_slots, (k - 1) as nat);
        assert(rows[k - 1].pos < g.max_seq);
    }
}

proof fn lemma_product_le(a: int, b: int, x: int, y: int)
    requires
        0 <= a <= b,
        0 <= x <= y,
    ensures
        a * x <= b * y,
{
    assert(a * x <= b * y) by (nonlinear_arith)
        requires
            0 <= a <= b,
            0 <= x <= y,
    ;
}

// ---------- continuous batching ----------

/// A batcher serves dense models with full-causal attention whose heads fit the
/// fused kernels, for no more slots than a step has logits for. A batched step
/// has no per-head norms, so a model with such norms is served request by
/// request.
pub open spec fn batches(g: Geo, quant: bool, hybrid: bool, normed: bool, n_slots: usize) -> bool {
    &&& g.win is None
    &&& !quant
    &&& !hybrid
    &&& !normed
    &&& g.head_dim <= DEC_TG
    &&& g.head_dim % 4 == 0
    &&& n_slots <= SPEC_MAX
}

/// Whether requests can be served in batches.
pub fn can_batch(g: &Geo, quant: bool, hybrid: bool, normed: bool, n_slots: usize) -> (r: bool)
    ensures
        r == batches(*g, quant, hybrid, normed, n_slots),
{
    g.win.is_none() && !quant && !hybrid && !normed && g.head_dim as usize <= DEC_TG && g.head_dim % 4 == 0 && n_slots <= SPEC_MAX
}

/// The lengths of a batcher's buffers, in elements.
#[derive(Debug, Clone, Copy, PartialEq, Eq, Structural)]
pub struct BatchSizes {
    /// One layer's keys, or its values.
    pub cache: u64,
    pub ids: u64,
    pub meta: u64,
    pub x: u64,
    pub xn: u64,
    pub q: u64,
    pub att: u64,
    pub gate: u64,
    pub logits: u64,
    pub partials: u64,
}

/// A pool of `n_slots` caches end to end, and what the flash kernel may read
/// past the last one.
pub open spec fn pool_elems(g: Geo, n_slots: usize) -> int {
    (n_slots * g.max_seq + FLASH_C) * g.kv_dim
}

pub open spec fn pool_partials(g: Geo, n_slots: usize) -> int {
    n_slots * g.heads * splits_max(g) * (g.head_dim + 2)
}

pub open spec fn batch_scratch(g: Geo, n_slots: usize, s: BatchSizes) -> bool {
    &&& s.cache == pool_elems(g, n_slots)
    &&& s.ids == n_slots
    &&& s.meta == n_slots
    &&& s.x == n_slots * g.hidden
    &&& s.xn == n_slots * g.hidden
    &&& s.q == n_slots * max(g.hidden as int, g.q_proj_dim as int)
    &&& s.att == n_slots * max(g.hidden as int, g.q_dim as int)
    &&& s.gate == n_slots * g.inter
    &&& s.logits == n_slots * g.vocab
    &&& s.partials == pool_partials(g, n_slots)
}

/// Sizes the buffers of a batcher. None where one could not be counted.
pub fn batch_sizes(g: &Geo, n_slots: usize) -> (r: Option<BatchSizes>)
    requires
        n_slots <= SPEC_MAX,
    ensures
        match r {
            Some(s) => batch_scratch(*g, n_slots, s),
            None => pool_elems(*g, n_slots) > u64::MAX || pool_partials(*g, n_slots) > u64::MAX,
        },
{
    let n: u64 = n_slots as u64;
    let splits: u64 = ceil_div(g.max_seq as u64, ATTN_SPLIT as u64);
    proof {
        let (n, h, m, k, p, d) = (
            n_slots as int,
            g.heads as int,
            g.max_seq as int,
            g.kv_dim as int,
            splits as int,
            g.head_dim as int,
        );
        assert(0 <= n * m <= 8 * 0xFFFF_FFFF) by (nonlinear_arith)
            requires
                0 <= n <= 8,
                0 <= m <= 0xFFFF_FFFF,
        ;
        assert(0 <= (n * m + 64) * k <= (8 * 0xFFFF_FFFF + 64) * 0xFFFF_FFFF) by (nonlinear_arith)
            requires
                0 <= n * m <= 8 * 0xFFFF_FFFF,
                0 <= k <= 0xFFFF_FFFF,
        ;
        assert(0 <= n * h <= 8 * 0xFFFF_FFFF) by (nonlinear_arith)
            requires
                0 <= n <= 8,
                0 <= h <= 0xFFFF_FFFF,
        ;
        assert(0 <= (n * h) * p <= 8 * 0xFFFF_FFFF * 0xFFFF_FFFF) by (nonlinear_arith)
            requires
                0 <= n * h <= 8 * 0xFFFF_FFFF,
                0 <= p <= 0xFFFF_FFFF,
        ;
        assert(0 <= (n * h * p) * (d + 2) <= 8 * 0xFFFF_FFFF * 0xFFFF_FFFF * 0x1_0000_0001) by (nonlinear_arith)
            requires
                0 <= n * h * p <= 8 * 0xFFFF_FFFF * 0xFFFF_FFFF,
                0 <= d <= 0xFFFF_FFFF,
        ;
    }
    let cache: u128 = (n as u128 * g.max_seq as u128 + FLASH_C as u128) * g.kv_dim as u128;
    let partials: u128 = n as u128 * g.heads as u128 * splits as u128 * (g.head_dim as u128 + 2);
    if cache > u64::MAX as u128 || partials > u64::MAX as u128 {
        return None;
    }
    Some(
        BatchSizes {
            cache: cache as u64,
            ids: n,
            meta: n,
            x: rows_times(n, g.hidden as u64),
            xn: rows_times(n, g.hidden as u64),
            q: rows_times(n, wider(g.hidden, g.q_proj_dim)),
            att: rows_times(n, wider(g.hidden, g.q_dim)),
            gate: rows_times(n, g.inter as u64),
            logits: rows_times(n, g.vocab as u64),
            partials: partials as u64,
        },
    )
}

/// The byte offset of a slot in the pool, where the pool can be counted.
pub fn slot_base(g: &Geo, n_slots: usize, slot: usize) -> (r: Option<u64>)
    requires
        slot < n_slots <= SPEC_MAX,
    ensures
        match r {
            Some(b) => b == slot * g.max_seq * g.kv_dim * 2,
            None => slot * g.max_seq * g.kv_dim * 2 > u64::MAX,
        },
{
    proof {
        let (s, m, k) = (slot as int, g.max_seq as int, g.kv_dim as int);
        assert(0 <= s * m <= 8 * 0xFFFF_FFFF) by (nonlinear_arith)
            requires
                0 <= s <= 8,
                0 <= m <= 0xFFFF_FFFF,
        ;
        assert(0 <= (s * m) * k <= 8 * 0xFFFF_FFFF * 0xFFFF_FFFF) by (nonlinear_arith)
            requires
                0 <= s * m <= 8 * 0xFFFF_FFFF,
                0 <= k <= 0xFFFF_FFFF,
        ;
    }
    let b: u128 = slot as u128 * g.max_seq as u128 * g.kv_dim as u128 * 2;
    if b > u64::MAX as u128 {
        None
    } else {
        Some(b as u64)
    }
}

/// The caches of two slots of a pool do not overlap, and the last one ends
/// inside it.
pub proof fn lemma_slots_disjoint(g: Geo, n_slots: usize, a: int, b: int)
    requires
        0 <= a < b < n_slots,
    ensures
        a * g.max_seq * g.kv_dim + g.max_seq * g.kv_dim <= b * g.max_seq * g.kv_dim,
        b * g.max_seq * g.kv_dim + g.max_seq * g.kv_dim <= pool_elems(g, n_slots),
{
    let (m, k, n) = (g.max_seq as int, g.kv_dim as int, n_slots as int);
    let mk = m * k;
    assert(mk >= 0) by (nonlinear_arith)
        requires
            m >= 0,
            k >= 0,
            mk == m * k,
    ;
    assert(a * m * k == a * mk) by (nonlinear_arith)
        requires
            mk == m * k,
    ;
    assert(b * m * k == b * mk) by (nonlinear_arith)
        requires
            mk == m * k,
    ;
    assert((n * m + FLASH_C) * k == n * mk + 64 * k) by (nonlinear_arith)
        requires
            mk == m * k,
            FLASH_C == 64,
    ;
    lemma_product_le(a + 1, b, mk, mk);
    lemma_product_le(b + 1, n, mk, mk);
    assert((a + 1) * mk == a * mk + mk) by (nonlinear_arith);
    assert((b + 1) * mk == b * mk + mk) by (nonlinear_arith);
}

// ---------- steps ----------

/// The rows that one step can take.
pub fn max_chunk_rows(g: &Geo) -> (r: u32)
    ensures
        r == chunk_rows(*g),
{
    if PREFILL_CHUNK as u64 <= g.max_seq as u64 {
        PREFILL_CHUNK as u32
    } else {
        g.max_seq
    }
}

/// The `i`-th chunk of a prompt of `n` tokens at position `pos0`. Only the last
/// one yields logits.
pub open spec fn chunk_step(n: int, pos0: int, i: int) -> Step {
    let done = i * PREFILL_CHUNK;
    let len = min(PREFILL_CHUNK as int, n - done);
    Step {
        from_ids: true,
        n: len as u32,
        pos0: (pos0 + done) as u32,
        layer0: 0,
        logits_rows: if done + len == n { 1 } else { 0 },
    }
}

/// The chunks of a prompt.
pub open spec fn chunk_steps(n: int, pos0: int) -> Seq<Step> {
    Seq::new(div_up(n, PREFILL_CHUNK as int) as nat, |i: int| chunk_step(n, pos0, i))
}

/// Cuts a prompt into steps.
pub fn prefill_from(n: u32, pos0: u32) -> (r: Vec<Step>)
    requires
        pos0 + n <= u32::MAX,
    ensures
        r@ == chunk_steps(n as int, pos0 as int),
{
    let mut out: Vec<Step> = Vec::new();
    let mut done: u32 = 0;
    let ghost mut i: int = 0;
    while done < n
        invariant
            pos0 + n <= u32::MAX,
            i >= 0,
            done == min(i * 512, n as int),
            out@ == Seq::new(i as nat, |j: int| chunk_step(n as int, pos0 as int, j)),
            done < n ==> i <= n / 512,
            done == n ==> i == div_up(n as int, 512),
        decreases n - done,
    {
        let left: u32 = n - done;
        let len: u32 = if left > 512 { 512 } else { left };
        let st = Step {
            from_ids: true,
            n: len,
            pos0: pos0 + done,
            layer0: 0,
            logits_rows: if len == left { 1 } else { 0 },
        };
        assert(st == chunk_step(n as int, pos0 as int, i));
        let ghost before = out@;
        out.push(st);
        done = done + len;
        proof {
            i = i + 1;
            assert(out@ =~= Seq::new(i as nat, |j: int| chunk_step(n as int, pos0 as int, j)));
        }
    }
    out
}

/// The chunks of a prompt follow each other without a gap, and only the last
/// one asks for logits.
pub proof fn lemma_chunks_follow(n: int, pos0: int, i: int)
    requires
        0 <= n,
        0 <= pos0,
        pos0 + n <= u32::MAX,
        0 <= i < chunk_steps(n, pos0).len(),
    ensures
        ({
            let steps = chunk_steps(n, pos0);
            let st = steps[i];
            let last = i == steps.len() - 1;
            &&& 1 <= st.n <= PREFILL_CHUNK
            &&& i == 0 ==> st.pos0 == pos0
            &&& !last ==> st.pos0 + st.n == steps[i + 1].pos0
            &&& last ==> st.pos0 + st.n == pos0 + n
            &&& (st.logits_rows == 1) <==> last
            &&& st.logits_rows <= 1
        }),
{
}

/// The steps that verify a batch of `n` tokens: one, with logits for every
/// position, as far as the logits buffer reaches; past it, one per token.
pub open spec fn verify_of(n: int, pos0: int) -> Seq<Step> {
    if n > SPEC_MAX {
        Seq::new(
            n as nat,
            |i: int| Step { from_ids: true, n: 1, pos0: (pos0 + i) as u32, layer0: 0, logits_rows: 1 },
        )
    } else if n == 0 {
        Seq::empty()
    } else {
        seq![Step { from_ids: true, n: n as u32, pos0: pos0 as u32, layer0: 0, logits_rows: n as u32 }]
    }
}

/// No step of a verification asks for more rows of logits than there is room
/// for, and together they cover the batch.
pub proof fn lemma_verification_fits(n: int, pos0: int, i: int)
    requires
        0 <= n,
        0 <= pos0,
        pos0 + n <= u32::MAX,
        0 <= i < verify_of(n, pos0).len(),
    ensures
        ({
            let st = verify_of(n, pos0)[i];
            &&& 1 <= st.n == st.logits_rows <= SPEC_MAX
            &&& pos0 <= st.pos0 && st.pos0 + st.n <= pos0 + n
            &&& i + 1 < verify_of(n, pos0).len() ==> st.pos0 + st.n == verify_of(n, pos0)[i + 1].pos0
            &&& i + 1 == verify_of(n, pos0).len() ==> st.pos0 + st.n == pos0 + n
        }),
{
}

/// Plans the verification of a batch.
pub fn forward_batch(n: u32, pos0: u32) -> (r: Vec<Step>)
    requires
        pos0 + n <= u32::MAX,
    ensures
        r@ == verify_of(n as int, pos0 as int),
{
    let mut out: Vec<Step> = Vec::new();
    if n as usize > SPEC_MAX {
        let mut i: u32 = 0;
        while i < n
            invariant
                pos0 + n <= u32::MAX,
                i <= n,
                out@ =~= Seq::new(
                    i as nat,
                    |i: int| Step { from_ids: true, n: 1, pos0: (pos0 + i) as u32, layer0: 0, logits_rows: 1 },
                ),
            decreases n - i,
        {
            out.push(Step { from_ids: true, n: 1, pos0: pos0 + i, layer0: 0, logits_rows: 1 });
            i = i + 1;
        }
    } else if n > 0 {
        out.push(Step { from_ids: true, n, pos0, layer0: 0, logits_rows: n });
    }
    assert(out@ =~= verify_of(n as int, pos0 as int));
    out
}

/// A chunk whose first `layer0` layers ran elsewhere.
pub fn tail_step(n: u32, pos0: u32, layer0: usize, want_logits: bool) -> (r: Step)
    ensures
        r == (Step { from_ids: false, n, pos0, layer0, logits_rows: if want_logits { 1 } else { 0 } }),
{
    Step { from_ids: false, n, pos0, layer0, logits_rows: if want_logits { 1 } else { 0 } }
}

/// Rows of `width` out of one long row; the last may be shorter.
pub open spec fn split_rows<T>(flat: Seq<T>, width: int) -> Seq<Seq<T>> {
    Seq::new(
        div_up(flat.len() as int, width) as nat,
        |i: int| flat.subrange(i * width, min((i + 1) * width, flat.len() as int)),
    )
}

/// Cuts the logits of a step into rows.
pub fn logits_rows<T: Copy>(flat: &[T], width: usize) -> (r: Vec<Vec<T>>)
    requires
        width > 0,
    ensures
        r@.len() == split_rows(flat@, width as int).len(),
        forall|i: int| 0 <= i < r@.len() ==> (#[trigger] r@[i])@ == split_rows(flat@, width as int)[i],
{
    let n: usize = flat.len();
    let ghost want = split_rows(flat@, width as int);
    proof {
        vstd::arithmetic::div_mod::lemma_small_mod((width - 1) as nat, width as nat);
        vstd::arithmetic::div_mod::lemma_fundamental_div_mod(width - 1, width as int);
        assert((width - 1) / width as int == 0) by (nonlinear_arith)
            requires
                width - 1 == width * ((width - 1) / width as int) + (width - 1),
                width > 0,
        ;
    }
    let mut out: Vec<Vec<T>> = Vec::new();
    let mut at: usize = 0;
    let ghost mut i: int = 0;
    while at < n
        invariant
            n == flat@.len(),
            width > 0,
            want == split_rows(flat@, width as int),
            0 <= i,
            at == min(i * width, n as int),
            at < n ==> at == i * width,
            out@.len() == i,
            i <= want.len(),
            at == n ==> i == want.len(),
            forall|j: int| 0 <= j < i ==> (#[trigger] out@[j])@ == want[j],
        decreases n - at,
    {
        let left: usize = n - at;
        let len: usize = if left < width { left } else { width };
        let ghost before = i;
        proof {
            let (k, w, m) = (i, width as int, n as int);
            assert((k + 1) * w == k * w + w) by (nonlinear_arith);
            lemma_rows_left(k, w, m);
        }
        let part = vstd::slice::slice_subrange(flat, at, at + len);
        let mut row: Vec<T> = Vec::new();
        let mut j: usize = 0;
        while j < len
            invariant
                part@.len() == len,
                j <= len,
                row@ == part@.take(j as int),
            decreases len - j,
        {
            row.push(part[j]);
            assert(row@ =~= part@.take(j as int + 1));
            j = j + 1;
        }
        assert(row@ =~= want[before]);
        out.push(row);
        at = at + len;
        proof {
            i = i + 1;
        }
    }
    out
}

/// After `k` whole rows of `w`, with some left of `m`, there is one more row;
/// it is the last where no more than `w` are left.
proof fn lemma_rows_left(k: int, w: int, m: int)
    requires
        0 <= k,
        0 < w,
        k * w < m,
    ensures
        k < div_up(m, w),
        m <= k * w + w ==> div_up(m, w) == k + 1,
        m > k * w + w ==> div_up(m, w) > k + 1,
{
    let t = m + w - 1;
    vstd::arithmetic::div_mod::lemma_fundamental_div_mod(t, w);
    let (q, r) = (t / w, t % w);
    assert(q > k) by (nonlinear_arith)
        requires
            t == w * q + r,
            0 <= r < w,
            t >= k * w + w,
            w > 0,
    ;
    if m <= k * w + w {
        assert(q < k + 2) by (nonlinear_arith)
            requires
                t == w * q + r,
                0 <= r < w,
                t < k * w + 2 * w,
                w > 0,
        ;
    } else {
        assert(q > k + 1) by (nonlinear_arith)
            requires
                t == w * q + r,
                0 <= r < w,
                t >= k * w + 2 * w,
                w > 0,
        ;
    }
}

// ---------- rows written from outside ----------

/// The element offset of position `p` in a layer's cache.
pub open spec fn cache_elem(g: Geo, p: int) -> int {
    g.kv_base as int / 2 + g.row_of(p) * g.kv_dim
}

/// Where the rows of positions from `pos0` on go in a layer's cache. Row by row:
/// under a window the ring can wrap inside the run.
pub fn kv_rows(g: &Geo, pos0: u32, rows: u32) -> (r: Vec<u64>)
    requires
        g.ok(),
        pos0 + rows <= u32::MAX,
        g.win is None ==> pos0 + rows <= g.max_seq,
    ensures
        r@.len() == rows,
        forall|i: int| 0 <= i < rows ==> #[trigger] r@[i] == cache_elem(*g, pos0 + i),
{
    let mut out: Vec<u64> = Vec::new();
    let mut i: u32 = 0;
    while i < rows
        invariant
            g.ok(),
            pos0 + rows <= u32::MAX,
            g.win is None ==> pos0 + rows <= g.max_seq,
            i <= rows,
            out@.len() == i,
            forall|j: int| 0 <= j < i ==> #[trigger] out@[j] == cache_elem(*g, pos0 + j),
        decreases rows - i,
    {
        let row: u64 = g.cache_row(pos0 + i);
        proof {
            g.lemma_rows(row as int);
        }
        out.push(g.kv_base / 2 + row * g.kv_dim as u64);
        i = i + 1;
    }
    out
}

/// Whether a layer keeps keys and values; the cache of another is a stub that
/// must not be written to.
pub fn is_kv_layer(sched: &[LayerStateKind], layer: usize) -> (r: bool)
    requires
        layer < sched@.len(),
    ensures
        r == (sched@[layer as int] == LayerStateKind::Kv),
{
    match sched[layer] {
        LayerStateKind::Kv => true,
        LayerStateKind::Recurrent => false,
    }
}

// ---------- embedding rows ----------

/// A row of the embedding as the file holds it: in a quantized type, or as the
/// bits of its numbers.
#[derive(Debug, Clone)]
pub enum EmbedRow {
    Quant(GgmlType),
    Half(Vec<u16>),
    Single(Vec<u32>),
}

/// Number `i` of width `w` bytes, least byte first.
pub open spec fn word_at(row: Seq<u8>, i: int, w: int) -> nat {
    le(row.subrange(i * w, i * w + w))
}

proof fn lemma_le2(s: Seq<u8>)
    requires
        s.len() == 2,
    ensures
        le(s) == s[0] + 256 * s[1],
{
    reveal_with_fuel(le, 3);
}

proof fn lemma_le4(s: Seq<u8>)
    requires
        s.len() == 4,
    ensures
        le(s) == s[0] + 256 * s[1] + 65536 * s[2] + 16777216 * s[3],
{
    reveal_with_fuel(le, 5);
}

fn half_words(row: &[u8]) -> (r: Vec<u16>)
    ensures
        r@.len() == row@.len() / 2,
        forall|i: int| 0 <= i < r@.len() ==> #[trigger] r@[i] == word_at(row@, i, 2),
{
    let mut out: Vec<u16> = Vec::new();
    let n: usize = row.len() / 2;
    let mut i: usize = 0;
    while i < n
        invariant
            n == row@.len() / 2,
            2 * n <= usize::MAX,
            i <= n,
            out@.len() == i,
            forall|j: int| 0 <= j < i ==> #[trigger] out@[j] == word_at(row@, j, 2),
        decreases n - i,
    {
        let x: u16 = row[2 * i] as u16 + 256 * row[2 * i + 1] as u16;
        proof {
            lemma_le2(row@.subrange(i * 2, i * 2 + 2));
        }
        out.push(x);
        i = i + 1;
    }
    out
}

fn single_words(row: &[u8]) -> (r: Vec<u32>)
    ensures
        r@.len() == row@.len() / 4,
        forall|i: int| 0 <= i < r@.len() ==> #[trigger] r@[i] == word_at(row@, i, 4),
{
    let mut out: Vec<u32> = Vec::new();
    let n: usize = row.len() / 4;
    let mut i: usize = 0;
    while i < n
        invariant
            n == row@.len() / 4,
            4 * n <= usize::MAX,
            i <= n,
            out@.len() == i,
            forall|j: int| 0 <= j < i ==> #[trigger] out@[j] == word_at(row@, j, 4),
        decreases n - i,
    {
        let x: u32 = row[4 * i] as u32 + 256 * row[4 * i + 1] as u32 + 65536 * row[4 * i + 2] as u32 + 16777216 * row[4
            * i + 3] as u32;
        proof {
            lemma_le4(row@.subrange(i * 4, i * 4 + 4));
        }
        out.push(x);
        i = i + 1;
    }
    out
}

/// Takes an embedding row apart by its type.
pub fn embed_row(ty: SrcType, row: &[u8]) -> (r: Result<EmbedRow, String>)
    ensures
        match r {
            Ok(EmbedRow::Quant(t)) => ty == SrcType::Quant(t),
            Ok(EmbedRow::Half(v)) => {
                &&& ty == SrcType::F16
                &&& v@.len() == row@.len() / 2
                &&& forall|i: int| 0 <= i < v@.len() ==> #[trigger] v@[i] == word_at(row@, i, 2)
            },
            Ok(EmbedRow::Single(v)) => {
                &&& ty == SrcType::F32
                &&& v@.len() == row@.len() / 4
                &&& forall|i: int| 0 <= i < v@.len() ==> #[trigger] v@[i] == word_at(row@, i, 4)
            },
            Err(e) => ty == SrcType::Bf16 && e@ == "bf16 rows inside a GGUF are unsupported"@,
        },
{
    match ty {
        SrcType::Quant(t) => Ok(EmbedRow::Quant(t)),
        SrcType::F16 => Ok(EmbedRow::Half(half_words(row))),
        SrcType::F32 => Ok(EmbedRow::Single(single_words(row))),
        SrcType::Bf16 => Err("bf16 rows inside a GGUF are unsupported".to_owned()),
    }
}

} // verus!
