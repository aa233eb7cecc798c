//! The sizes behind the kernels: widths, thread-group geometry, scratch buffers,
//! and the layout of a linear layer's states.
use vstd::prelude::*;
use vstd::string::*;

use crate::config::ModelConfig;
use crate::num::{ceil_div, div_up, max, min};
use crate::text::{dec, push_dec};

verus! {

/// Cached positions per split of decode attention.
pub const ATTN_SPLIT: usize = 128;

/// Threads per decode-attention group.
pub const DEC_TG: usize = 128;

/// Output dimensions that one decode-attention thread accumulates.
pub const MAX_DEC_DPT: usize = 2;

/// The widest head that fused decode serves.
pub const DEC_MAX_HD: usize = DEC_TG * MAX_DEC_DPT;

/// Query heads that one decode group covers.
pub const MAX_GQA_CHUNK: usize = 8;

/// The head width that the flash prefill kernel is made for.
pub const FLASH_HEAD_DIM: usize = 64;

/// Query rows per flash group.
pub const FLASH_Q: usize = 8;

/// Cache rows that the flash kernel may read past the last position.
pub const FLASH_C: usize = 64;

/// Threads per flash group.
pub const FLASH_THREADS: usize = 128;

/// Rows per tile of a tensor matmul.
pub const MM_TILE_ROWS: usize = 64;

/// Rows of logits that one step can yield.
pub const SPEC_MAX: usize = 8;

/// The groups of a dispatch with one thread per element: 256 threads a group.
pub fn grid_groups(n: u64) -> (r: u64)
    ensures
        r == div_up(n as int, 256),
{
    ceil_div(n, 256)
}

/// The groups of a dispatch with one SIMD group per row: four rows a group.
pub fn simdgroup_rows(rows: u32) -> (r: u64)
    ensures
        r == div_up(rows as int, 4),
{
    ceil_div(rows as u64, 4)
}

// ---------- widths ----------

/// Width of a row that carries queries or attention output: those rows can be
/// wider than the hidden state.
pub fn attn_row_width(hidden: usize, q_dim: usize) -> (r: usize)
    ensures
        r == max(hidden as int, q_dim as int),
{
    if hidden >= q_dim {
        hidden
    } else {
        q_dim
    }
}

/// The true widths of a model.
#[derive(Debug, Clone, Copy, PartialEq, Eq, Structural)]
pub struct Dims {
    pub hidden: usize,
    pub head_dim: usize,
    pub q_dim: usize,
    pub kv_dim: usize,
    /// Width of the query projection: twice `q_dim` where it carries the output
    /// gate too.
    pub q_proj_dim: usize,
    /// Leading dimensions of a head that rotate.
    pub rot_dim: usize,
}

/// The head width: the stated one, else hidden width over heads.
pub open spec fn head_width(cfg: ModelConfig, stated: Option<usize>) -> int {
    match stated {
        Some(h) => h as int,
        None => cfg.hidden_size as int / cfg.num_attention_heads as int,
    }
}

/// Derives the widths of a model.
pub fn dims_of(cfg: &ModelConfig, head_dim: Option<usize>, joint_q_gate: bool, rot_dim: Option<usize>) -> (r: Dims)
    requires
        head_dim is None ==> cfg.num_attention_heads > 0,
        2 * cfg.num_attention_heads * head_width(*cfg, head_dim) <= usize::MAX,
        cfg.num_key_value_heads * head_width(*cfg, head_dim) <= usize::MAX,
    ensures
        r.hidden == cfg.hidden_size,
        r.head_dim == head_width(*cfg, head_dim),
        r.q_dim == cfg.num_attention_heads * r.head_dim,
        r.kv_dim == cfg.num_key_value_heads * r.head_dim,
        r.q_proj_dim == (if joint_q_gate { 2 * r.q_dim } else { r.q_dim as int }),
        r.rot_dim == (match rot_dim { Some(x) => x, None => r.head_dim }),
{
    let hd: usize = match head_dim {
        Some(h) => h,
        None => cfg.hidden_size / cfg.num_attention_heads,
    };
    proof {
        let a = cfg.num_attention_heads as int;
        assert(2 * a * hd == 2 * (a * hd)) by (nonlinear_arith);
        assert(a * hd >= 0) by (nonlinear_arith)
            requires
                a >= 0,
        ;
    }
    let q_dim: usize = cfg.num_attention_heads * hd;
    Dims {
        hidden: cfg.hidden_size,
        head_dim: hd,
        q_dim,
        kv_dim: cfg.num_key_value_heads * hd,
        q_proj_dim: if joint_q_gate { 2 * q_dim } else { q_dim },
        rot_dim: match rot_dim {
            Some(x) => x,
            None => hd,
        },
    }
}

// ---------- decode attention ----------

/// The next odd number from `x` on.
pub open spec fn odd_from(x: int) -> int {
    if x % 2 == 0 {
        x + 1
    } else {
        x
    }
}

/// Elements of the accumulator scratch of a decode group: one entry per position
/// lane and output dimension, at an odd stride.
pub open spec fn acc_red(chunk: int, head_dim: int) -> int {
    max(DEC_TG as int, head_dim) * odd_from(chunk)
}

pub fn acc_red_elems(chunk: usize, head_dim: usize) -> (r: usize)
    requires
        acc_red(chunk as int, head_dim as int) <= usize::MAX,
        chunk < usize::MAX,
    ensures
        r == acc_red(chunk as int, head_dim as int),
{
    let w: usize = if head_dim > DEC_TG { head_dim } else { DEC_TG };
    let odd: usize = if chunk % 2 == 0 { chunk + 1 } else { chunk };
    w * odd
}

/// The accumulator scratch holds an entry for every output dimension of every
/// query head of a group, in both regimes of head width.
pub proof fn lemma_acc_red_suffices(chunk: int, head_dim: int)
    requires
        0 <= chunk,
        0 <= head_dim,
    ensures
        acc_red(chunk, head_dim) >= chunk * head_dim,
        acc_red(chunk, head_dim) >= head_dim,
        head_dim <= DEC_TG ==> acc_red(chunk, head_dim) == DEC_TG * odd_from(chunk),
        head_dim > DEC_TG ==> acc_red(chunk, head_dim) == head_dim * odd_from(chunk),
{
    let (w, o) = (max(DEC_TG as int, head_dim), odd_from(chunk));
    assert(w * o >= chunk * head_dim) by (nonlinear_arith)
        requires
            w >= head_dim >= 0,
            o >= chunk >= 0,
    ;
    assert(w * o >= head_dim) by (nonlinear_arith)
        requires
            w >= head_dim >= 0,
            o >= 1,
    ;
}

/// Bytes of `n` single-precision numbers, padded to 16.
pub open spec fn group_bytes(n: int) -> int {
    (n * 4 + 15) / 16 * 16
}

/// The query heads that one group covers.
pub open spec fn gqa_chunk(heads: int, kv_heads: int) -> int {
    min(heads / kv_heads, MAX_GQA_CHUNK as int)
}

/// The width of the decode grid.
pub open spec fn gqa_grid(heads: int, kv_heads: int) -> int {
    kv_heads * div_up(heads / kv_heads, gqa_chunk(heads, kv_heads))
}

/// The group memory of the decode kernel: queries, scores, accumulators, and
/// reduction scratch.
pub open spec fn gqa_memory(heads: int, kv_heads: int, head_dim: int) -> Seq<int> {
    let chunk = gqa_chunk(heads, kv_heads);
    seq![
        group_bytes(chunk * head_dim),
        group_bytes(chunk * ATTN_SPLIT),
        group_bytes(acc_red(chunk, head_dim)),
        group_bytes(chunk * (DEC_TG / 32) + chunk),
    ]
}

/// Grid width and group memory of the grouped decode kernels.
pub fn gqa_decode_dims(heads: usize, kv_heads: usize, head_dim: usize) -> (r: (u64, [u64; 4]))
    requires
        0 < kv_heads <= heads <= u32::MAX,
        head_dim <= u32::MAX,
    ensures
        r.0 == gqa_grid(heads as int, kv_heads as int),
        r.1@.len() == 4,
        forall|i: int| 0 <= i < 4 ==> #[trigger] r.1@[i] == gqa_memory(heads as int, kv_heads as int, head_dim as int)[i],
{
    let group: u64 = heads as u64 / kv_heads as u64;
    let chunk: u64 = if group <= MAX_GQA_CHUNK as u64 { group } else { MAX_GQA_CHUNK as u64 };
    proof {
        let (h, k) = (heads as int, kv_heads as int);
        vstd::arithmetic::div_mod::lemma_fundamental_div_mod(h, k);
        assert(h / k >= 1) by (nonlinear_arith)
            requires
                h == k * (h / k) + h % k,
                h % k < k,
                h >= k,
                k > 0,
        ;
        assert(k * (h / k) <= h);
    }
    let per: u64 = ceil_div(group, chunk);
    proof {
        let (k, g, p) = (kv_heads as int, group as int, per as int);
        assert(p <= g);
        assert(k * p <= k * g) by (nonlinear_arith)
            requires
                0 <= p <= g,
                k > 0,
        ;
        let (c, hd) = (chunk as int, head_dim as int);
        assert(0 <= c * hd <= 8 * 0xFFFF_FFFF) by (nonlinear_arith)
            requires
                0 <= c <= 8,
                0 <= hd <= 0xFFFF_FFFF,
        ;
        let w = max(DEC_TG as int, hd);
        let o = odd_from(c);
        assert(0 <= w * o <= 0xFFFF_FFFF * 9) by (nonlinear_arith)
            requires
                0 <= w <= 0xFFFF_FFFF,
                0 <= o <= 9,
        ;
    }
    let w: u64 = if head_dim as u64 > DEC_TG as u64 { head_dim as u64 } else { DEC_TG as u64 };
    let odd: u64 = if chunk % 2 == 0 { chunk + 1 } else { chunk };
    let mem = [
        (chunk * head_dim as u64 * 4 + 15) / 16 * 16,
        (chunk * ATTN_SPLIT as u64 * 4 + 15) / 16 * 16,
        (w * odd * 4 + 15) / 16 * 16,
        ((chunk * (DEC_TG as u64 / 32) + chunk) * 4 + 15) / 16 * 16,
    ];
    (kv_heads as u64 * per, mem)
}

// ---------- weight rows ----------

/// Bytes of a weight row of `in_dim` elements under a selector.
pub open spec fn row_bytes(sel: u32, in_dim: int) -> int {
    match sel {
        2u32 => in_dim / 32 * 34,
        3u32 => in_dim / 32 * 18,
        4u32 => in_dim / 256 * 144,
        5u32 => in_dim / 256 * 210,
        6u32 => in_dim / 256 * 176,
        7u32 => in_dim / 32 * 22,
        8u32 => in_dim / 256 * 84,
        9u32 => in_dim / 256 * 110,
        10u32 => in_dim / 32 * 18,
        11u32 => in_dim / 256 * 136,
        12u32 => in_dim / 256 * 98,
        13u32 => in_dim / 256 * 110,
        14u32 => in_dim / 256 * 66,
        15u32 => in_dim / 256 * 74,
        16u32 => in_dim / 256 * 82,
        17u32 => in_dim / 256 * 50,
        18u32 => in_dim / 256 * 56,
        _ => in_dim * 2,
    }
}

pub fn lm_row_bytes_host(sel: u32, in_dim: u32) -> (r: u64)
    ensures
        r == row_bytes(sel, in_dim as int),
{
    let n32: u64 = (in_dim / 32) as u64;
    let n256: u64 = (in_dim / 256) as u64;
    match sel {
        2 => n32 * 34,
        3 => n32 * 18,
        4 => n256 * 144,
        5 => n256 * 210,
        6 => n256 * 176,
        7 => n32 * 22,
        8 => n256 * 84,
        9 => n256 * 110,
        10 => n32 * 18,
        11 => n256 * 136,
        12 => n256 * 98,
        13 => n256 * 110,
        14 => n256 * 66,
        15 => n256 * 74,
        16 => n256 * 82,
        17 => n256 * 50,
        18 => n256 * 56,
        _ => in_dim as u64 * 2,
    }
}

/// The bytes of a row under a type's selector are those of the type.
pub proof fn lemma_row_bytes_agree(t: crate::gguf::ggml_type::GgmlType, in_dim: nat)
    requires
        crate::gpu::timing::SrcType::Quant(t).selector() != crate::gpu::timing::NO_SELECTOR,
    ensures
        row_bytes(crate::gpu::timing::SrcType::Quant(t).selector(), in_dim as int) == t.bytes_of(in_dim),
{
}

/// The kernel source with the constants that it is compiled with.
pub fn shader_source(kvd: usize, kernels: &str) -> (r: String)
    ensures
        r@ == "#define MM_TROWS "@ + dec(MM_TILE_ROWS as nat) + "\n#define FA_KVD "@ + dec(kvd as nat) + "\n"@
            + kernels@,
{
    let mut s = "#define MM_TROWS ".to_owned();
    push_dec(&mut s, MM_TILE_ROWS as u64);
    s.append("\n#define FA_KVD ");
    push_dec(&mut s, kvd as u64);
    s.append("\n");
    s.append(kernels);
    s
}

} // verus!
