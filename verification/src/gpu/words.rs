//! Where a kernel finds its numbers: the order of the words behind each kind of
//! parameters.
use vstd::prelude::*;

use crate::gpu::ops::Params;
use crate::gpu::params::{ModelBits, words};

verus! {

/// Matrices: what they map from and to, and behind that the rows; a strided output
/// says how far its rows are apart.
pub proof fn lemma_matrix_words(m: ModelBits, i: u32, o: u32, n: u32, s: u32)
    ensures
        words(Params::Matvec { in_dim: i, out_dim: o }, m) =~= seq![i, o],
        words(Params::Matmul { in_dim: i, out_dim: o, n_rows: n }, m) =~= words(Params::Matvec { in_dim: i, out_dim: o }, m)
            + seq![n],
        words(Params::MatmulPaged { in_dim: i, out_dim: o, n_rows: n, y_stride: s }, m) =~= words(
            Params::Matmul { in_dim: i, out_dim: o, n_rows: n },
            m,
        ) + seq![s],
        words(Params::Embed { dim: i, n_rows: n }, m) =~= seq![i, n],
        words(Params::Elem { dim: i }, m) =~= seq![i],
        words(Params::Norm { dim: i }, m) =~= words(Params::Elem { dim: i }, m) + seq![m.eps],
{
}

/// Queries, keys and values together: the input, both widths, and where the new row
/// goes; over slots, how many rows one has.
pub proof fn lemma_qkv_words(m: ModelBits, i: u32, q: u32, k: u32, x: u32)
    ensures
        words(Params::Qkv { in_dim: i, q_dim: q, kv_dim: k, kv_off: x }, m) =~= seq![i, q, k, x],
        words(Params::QkvBatch { in_dim: i, q_dim: q, kv_dim: k, max_seq: x }, m) =~= words(
            Params::Qkv { in_dim: i, q_dim: q, kv_dim: k, kv_off: x },
            m,
        ),
{
}

/// Rotations: the heads, where the rows stand, the base of the angles, and behind
/// that the rows and the dimensions that rotate. Over slots, where the rows stand is
/// read elsewhere, and the slots' sizes come behind the base.
pub proof fn lemma_rotation_words(m: ModelBits, d: u32, h: u32, kv: u32, p: u32, n: u32, r: u32, s: u32, w: u32)
    ensures
        words(Params::Rope { head_dim: d, n_heads: h, pos0: p, n_rows: n, rot_dim: r }, m) =~= seq![d, h]
            + seq![p, m.theta] + seq![n, r],
        words(Params::RopeQk { head_dim: d, n_q_heads: h, n_kv_heads: kv, pos: p, rot_dim: r }, m) =~= seq![d, h, kv]
            + seq![p, m.theta] + seq![r],
        words(Params::RopeQkPrefill { head_dim: d, n_q_heads: h, n_kv_heads: kv, pos0: p, n_rows: n }, m) =~= seq![d, h, kv]
            + seq![p, m.theta] + seq![n],
        words(
            Params::RopeQkBatch { head_dim: d, n_q_heads: h, n_kv_heads: kv, max_seq: s, kv_dim: w, n_rows: n },
            m,
        ) =~= seq![d, h, kv] + seq![m.theta] + seq![s, w] + seq![n],
{
}

/// Attention: the heads, and behind them where the rows stand and what bounds them;
/// over slots, the slots' sizes and their splits.
pub proof fn lemma_attention_words(m: ModelBits, d: u32, h: u32, kv: u32, p: u32, n: u32, s: u32, w: u32)
    ensures
        words(Params::Attn { head_dim: d, n_heads: h, n_kv_heads: kv, pos0: p, max_seq: s, n_rows: n }, m) =~= seq![d, h, kv]
            + seq![p, s, n],
        words(Params::AttnDec { head_dim: d, n_heads: h, n_kv_heads: kv, pos: p, n_splits: n }, m) =~= seq![d, h, kv]
            + seq![p, n],
        words(
            Params::AttnDecBatch { head_dim: d, n_heads: h, n_kv_heads: kv, max_seq: s, kv_dim: w, splits_max: n },
            m,
        ) =~= seq![d, h, kv] + seq![s, w, n],
        words(Params::QGSplit { head_dim: d, n_heads: h, n_rows: n }, m) =~= seq![d, h] + seq![n],
{
}

/// Linear blocks: the channels and the taps of the convolution, and behind them the
/// rows; the width of a state, the heads, and how many of them share a key.
pub proof fn lemma_delta_words(m: ModelBits, c: u32, k: u32, n: u32)
    ensures
        words(Params::SsmConv { channels: c, d_conv: k }, m) =~= seq![c, k],
        words(Params::SsmConvBatch { channels: c, d_conv: k, n_tokens: n }, m) =~= words(
            Params::SsmConv { channels: c, d_conv: k },
            m,
        ) + seq![n],
        words(Params::DeltaStep { d_state: c, n_v_heads: k, group: n }, m) =~= seq![c, k, n],
{
}

} // verus!
