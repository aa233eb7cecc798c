//! The parameter blocks of the kernels, word by word. A kernel reads its block by
//! layout alone, so the order and the number of the words are what counts.
use vstd::prelude::*;

use crate::gpu::ops::{Params, Slot};

verus! {

/// The bits of a model's two numbers that are no integers: the base of its
/// rotation and the epsilon of its norms, in single precision.
#[derive(Debug, Clone, Copy, PartialEq, Eq, Structural)]
pub struct ModelBits {
    pub theta: u32,
    pub eps: u32,
}

/// The words of a block, in the kernel's order.
pub open spec fn words(p: Params, m: ModelBits) -> Seq<u32> {
    match p {
        Params::Embed { dim, n_rows } => seq![dim, n_rows],
        Params::Matvec { in_dim, out_dim } => seq![in_dim, out_dim],
        Params::Qkv { in_dim, q_dim, kv_dim, kv_off } => seq![in_dim, q_dim, kv_dim, kv_off],
        Params::QkvBatch { in_dim, q_dim, kv_dim, max_seq } => seq![in_dim, q_dim, kv_dim, max_seq],
        Params::RopeQkBatch { head_dim, n_q_heads, n_kv_heads, max_seq, kv_dim, n_rows } => seq![
            head_dim,
            n_q_heads,
            n_kv_heads,
            m.theta,
            max_seq,
            kv_dim,
            n_rows,
        ],
        Params::AttnDecBatch { head_dim, n_heads, n_kv_heads, max_seq, kv_dim, splits_max } => seq![
            head_dim,
            n_heads,
            n_kv_heads,
            max_seq,
            kv_dim,
            splits_max,
        ],
        Params::Matmul { in_dim, out_dim, n_rows } => seq![in_dim, out_dim, n_rows],
        Params::MatmulPaged { in_dim, out_dim, n_rows, y_stride } => seq![in_dim, out_dim, n_rows, y_stride],
        Params::Norm { dim } => seq![dim, m.eps],
        Params::Rope { head_dim, n_heads, pos0, n_rows, rot_dim } => seq![
            head_dim,
            n_heads,
            pos0,
            m.theta,
            n_rows,
            rot_dim,
        ],
        Params::RopeQk { head_dim, n_q_heads, n_kv_heads, pos, rot_dim } => seq![
            head_dim,
            n_q_heads,
            n_kv_heads,
            pos,
            m.theta,
            rot_dim,
        ],
        Params::RopeQkPrefill { head_dim, n_q_heads, n_kv_heads, pos0, n_rows } => seq![
            head_dim,
            n_q_heads,
            n_kv_heads,
            pos0,
            m.theta,
            n_rows,
        ],
        Params::Attn { head_dim, n_heads, n_kv_heads, pos0, max_seq, n_rows } => seq![
            head_dim,
            n_heads,
            n_kv_heads,
            pos0,
            max_seq,
            n_rows,
        ],
        Params::AttnDec { head_dim, n_heads, n_kv_heads, pos, n_splits } => seq![
            head_dim,
            n_heads,
            n_kv_heads,
            pos,
            n_splits,
        ],
        Params::Elem { dim } => seq![dim],
        Params::QGSplit { head_dim, n_heads, n_rows } => seq![head_dim, n_heads, n_rows],
        Params::SsmConv { channels, d_conv } => seq![channels, d_conv],
        Params::SsmConvBatch { channels, d_conv, n_tokens } => seq![channels, d_conv, n_tokens],
        Params::DeltaStep { d_state, n_v_heads, group } => seq![d_state, n_v_heads, group],
    }
}

/// Writes a block.
pub fn param_words(p: Params, m: ModelBits) -> (r: Vec<u32>)
    ensures
        r@ == words(p, m),
{
    match p {
        Params::Embed { dim, n_rows } => {
            let v: Vec<u32> = vec![dim, n_rows];
            assert(v@ =~= seq![dim, n_rows]);
            v
        },
        Params::Matvec { in_dim, out_dim } => {
            let v: Vec<u32> = vec![in_dim, out_dim];
            assert(v@ =~= seq![in_dim, out_dim]);
            v
        },
        Params::Qkv { in_dim, q_dim, kv_dim, kv_off } => {
            let v: Vec<u32> = vec![in_dim, q_dim, kv_dim, kv_off];
            assert(v@ =~= seq![in_dim, q_dim, kv_dim, kv_off]);
            v
        },
        Params::QkvBatch { in_dim, q_dim, kv_dim, max_seq } => {
            let v: Vec<u32> = vec![in_dim, q_dim, kv_dim, max_seq];
            assert(v@ =~= seq![in_dim, q_dim, kv_dim, max_seq]);
            v
        },
        Params::RopeQkBatch { head_dim, n_q_heads, n_kv_heads, max_seq, kv_dim, n_rows } => {
            let v: Vec<u32> = vec![head_dim, n_q_heads, n_kv_heads, m.theta, max_seq, kv_dim, n_rows];
            assert(v@ =~= seq![head_dim, n_q_heads, n_kv_heads, m.theta, max_seq, kv_dim, n_rows]);
            v
        },
        Params::AttnDecBatch { head_dim, n_heads, n_kv_heads, max_seq, kv_dim, splits_max } => {
            let v: Vec<u32> = vec![head_dim, n_heads, n_kv_heads, max_seq, kv_dim, splits_max];
            assert(v@ =~= seq![head_dim, n_heads, n_kv_heads, max_seq, kv_dim, splits_max]);
            v
        },
        Params::Matmul { in_dim, out_dim, n_rows } => {
            let v: Vec<u32> = vec![in_dim, out_dim, n_rows];
            assert(v@ =~= seq![in_dim, out_dim, n_rows]);
            v
        },
        Params::MatmulPaged { in_dim, out_dim, n_rows, y_stride } => {
            let v: Vec<u32> = vec![in_dim, out_dim, n_rows, y_stride];
            assert(v@ =~= seq![in_dim, out_dim, n_rows, y_stride]);
            v
        },
        Params::Norm { dim } => {
            let v: Vec<u32> = vec![dim, m.eps];
            assert(v@ =~= seq![dim, m.eps]);
            v
        },
        Params::Rope { head_dim, n_heads, pos0, n_rows, rot_dim } => {
            let v: Vec<u32> = vec![head_dim, n_heads, pos0, m.theta, n_rows, rot_dim];
            assert(v@ =~= seq![head_dim, n_heads, pos0, m.theta, n_rows, rot_dim]);
            v
        },
        Params::RopeQk { head_dim, n_q_heads, n_kv_heads, pos, rot_dim } => {
            let v: Vec<u32> = vec![head_dim, n_q_heads, n_kv_heads, pos, m.theta, rot_dim];
            assert(v@ =~= seq![head_dim, n_q_heads, n_kv_heads, pos, m.theta, rot_dim]);
            v
        },
        Params::RopeQkPrefill { head_dim, n_q_heads, n_kv_heads, pos0, n_rows } => {
            let v: Vec<u32> = vec![head_dim, n_q_heads, n_kv_heads, pos0, m.theta, n_rows];
            assert(v@ =~= seq![head_dim, n_q_heads, n_kv_heads, pos0, m.theta, n_rows]);
            v
        },
        Params::Attn { head_dim, n_heads, n_kv_heads, pos0, max_seq, n_rows } => {
            let v: Vec<u32> = vec![head_dim, n_heads, n_kv_heads, pos0, max_seq, n_rows];
            assert(v@ =~= seq![head_dim, n_heads, n_kv_heads, pos0, max_seq, n_rows]);
            v
        },
        Params::AttnDec { head_dim, n_heads, n_kv_heads, pos, n_splits } => {
            let v: Vec<u32> = vec![head_dim, n_heads, n_kv_heads, pos, n_splits];
            assert(v@ =~= seq![head_dim, n_heads, n_kv_heads, pos, n_splits]);
            v
        },
        Params::Elem { dim } => {
            let v: Vec<u32> = vec![dim];
            assert(v@ =~= seq![dim]);
            v
        },
        Params::QGSplit { head_dim, n_heads, n_rows } => {
            let v: Vec<u32> = vec![head_dim, n_heads, n_rows];
            assert(v@ =~= seq![head_dim, n_heads, n_rows]);
            v
        },
        Params::SsmConv { channels, d_conv } => {
            let v: Vec<u32> = vec![channels, d_conv];
            assert(v@ =~= seq![channels, d_conv]);
            v
        },
        Params::SsmConvBatch { channels, d_conv, n_tokens } => {
            let v: Vec<u32> = vec![channels, d_conv, n_tokens];
            assert(v@ =~= seq![channels, d_conv, n_tokens]);
            v
        },
        Params::DeltaStep { d_state, n_v_heads, group } => {
            let v: Vec<u32> = vec![d_state, n_v_heads, group];
            assert(v@ =~= seq![d_state, n_v_heads, group]);
            v
        },
    }
}

/// The words that are bound at an index, where it is no buffer.
pub open spec fn bound_words(s: Slot, m: ModelBits) -> Option<Seq<u32>> {
    match s {
        Slot::Buf(_, _) => None,
        Slot::Params(p) => Some(words(p, m)),
        Slot::U32(x) => Some(seq![x]),
        Slot::Eps => Some(seq![m.eps]),
    }
}

/// Writes what is bound at an index, where it is no buffer.
pub fn slot_words(s: Slot, m: ModelBits) -> (r: Option<Vec<u32>>)
    ensures
        (match r { Some(v) => Some(v@), None => None }) == bound_words(s, m),
{
    match s {
        Slot::Buf(_, _) => None,
        Slot::Params(p) => Some(param_words(p, m)),
        Slot::U32(x) => {
            let v: Vec<u32> = vec![x];
            assert(v@ =~= seq![x]);
            Some(v)
        },
        Slot::Eps => {
            let v: Vec<u32> = vec![m.eps];
            assert(v@ =~= seq![m.eps]);
            Some(v)
        },
    }
}

} // verus!
