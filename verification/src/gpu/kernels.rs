//! Which function of the shader library a kernel is, and the constants it is
//! compiled with.
use vstd::prelude::*;

use crate::gpu::geometry::{MAX_GQA_CHUNK, gqa_chunk};
use crate::gpu::ops::{Geo, Kernel};
use crate::gpu::window::WindowCfg;

verus! {

/// How a kernel is compiled.
pub enum Build {
    /// As it stands.
    Plain,
    /// With these constants, each at its index. With none of them the function's
    /// defaults are taken.
    With(Vec<(u32, u32)>),
}

pub enum BuildView {
    Plain,
    With(Seq<(u32, u32)>),
}

impl View for Build {
    type V = BuildView;

    open spec fn view(&self) -> BuildView {
        match self {
            Build::Plain => BuildView::Plain,
            Build::With(c) => BuildView::With(c@),
        }
    }
}

/// The index of the group width, of the four window numbers, and of the
/// selector among a function's constants.
pub const GROUP_CONST: u32 = 0;

pub const WINDOW_CONST: u32 = 20;

pub const SELECTOR_CONST: u32 = 25;

/// The name of a kernel's function.
pub open spec fn function_of(k: Kernel) -> Seq<char> {
    match k {
        Kernel::Embed => "embed"@,
        Kernel::Matvec => "matvec"@,
        Kernel::MatvecAcc => "matvec_acc"@,
        Kernel::MatvecSwiglu => "matvec_swiglu"@,
        Kernel::MatvecQkv => "matvec_qkv"@,
        Kernel::MatvecH => "matvec_h"@,
        Kernel::Matmul => "matmul"@,
        Kernel::MatmulT => "matmul_t"@,
        Kernel::MatmulTh => "matmul_th"@,
        Kernel::MatmulTb => "matmul_tb"@,
        Kernel::MatmulH => "matmul_h"@,
        Kernel::F32ToF16 => "f32_to_f16"@,
        Kernel::RmsNorm => "rmsnorm"@,
        Kernel::RmsNormHInplace => "rmsnorm_h_inplace"@,
        Kernel::RmsNormHf => "rmsnorm_hf"@,
        Kernel::SiluMul => "silu_mul"@,
        Kernel::SiluMulHf => "silu_mul_hf"@,
        Kernel::Rope => "rope"@,
        Kernel::RopeH => "rope_h"@,
        Kernel::RopeQkPrefill => "rope_qk_prefill"@,
        Kernel::RopeQkDecode => "rope_qk_decode"@,
        Kernel::Attention => "attention"@,
        Kernel::AttentionFlash => "attention_prefill_flash"@,
        Kernel::AttentionDecodePartial => "attention_decode_partial"@,
        Kernel::AttentionDecodeReduce => "attention_decode_reduce"@,
        Kernel::AddInplace => "add_inplace"@,
        Kernel::MatvecQkvBatch => "matvec_qkv_batch"@,
        Kernel::MatvecAccBatch => "matvec_acc_batch"@,
        Kernel::MatvecSwigluBatch => "matvec_swiglu_batch"@,
        Kernel::RopeQkBatch => "rope_qk_batch"@,
        Kernel::AttentionPartialBatch => "attention_decode_partial_batch"@,
        Kernel::AttentionReduceBatch => "attention_decode_reduce_batch"@,
        Kernel::SsmConvDecode => "ssm_conv_decode"@,
        Kernel::SsmConvPrefill => "ssm_conv_prefill"@,
        Kernel::SsmConvRoll => "ssm_conv_roll"@,
        Kernel::DeltaDecodeStep => "delta_decode_step"@,
        Kernel::DeltaGates => "delta_gates"@,
        Kernel::L2NormRows => "l2norm_rows"@,
        Kernel::GatedOutputNorm => "gated_output_norm"@,
        Kernel::SplitQGate => "split_q_gate"@,
        Kernel::AttnOutGate => "attn_out_gate"@,
        Kernel::WindowFlash => "attention_prefill_flash"@,
        Kernel::WindowAttention => "attention"@,
        Kernel::WindowDecodePartial => "attention_decode_partial"@,
        Kernel::QMatvec(_) => "matvec"@,
        Kernel::QMatvecH(_) => "matvec_h"@,
        Kernel::QMatvecAcc(_) => "matvec_acc"@,
        Kernel::QMatmul(_) => "matmul_pg"@,
    }
}

pub fn function_name(k: Kernel) -> (r: &'static str)
    ensures
        r@ == function_of(k),
{
    match k {
        Kernel::Embed => "embed",
        Kernel::Matvec => "matvec",
        Kernel::MatvecAcc => "matvec_acc",
        Kernel::MatvecSwiglu => "matvec_swiglu",
        Kernel::MatvecQkv => "matvec_qkv",
        Kernel::MatvecH => "matvec_h",
        Kernel::Matmul => "matmul",
        Kernel::MatmulT => "matmul_t",
        Kernel::MatmulTh => "matmul_th",
        Kernel::MatmulTb => "matmul_tb",
        Kernel::MatmulH => "matmul_h",
        Kernel::F32ToF16 => "f32_to_f16",
        Kernel::RmsNorm => "rmsnorm",
        Kernel::RmsNormHInplace => "rmsnorm_h_inplace",
        Kernel::RmsNormHf => "rmsnorm_hf",
        Kernel::SiluMul => "silu_mul",
        Kernel::SiluMulHf => "silu_mul_hf",
        Kernel::Rope => "rope",
        Kernel::RopeH => "rope_h",
        Kernel::RopeQkPrefill => "rope_qk_prefill",
        Kernel::RopeQkDecode => "rope_qk_decode",
        Kernel::Attention => "attention",
        Kernel::AttentionFlash => "attention_prefill_flash",
        Kernel::AttentionDecodePartial => "attention_decode_partial",
        Kernel::AttentionDecodeReduce => "attention_decode_reduce",
        Kernel::AddInplace => "add_inplace",
        Kernel::MatvecQkvBatch => "matvec_qkv_batch",
        Kernel::MatvecAccBatch => "matvec_acc_batch",
        Kernel::MatvecSwigluBatch => "matvec_swiglu_batch",
        Kernel::RopeQkBatch => "rope_qk_batch",
        Kernel::AttentionPartialBatch => "attention_decode_partial_batch",
        Kernel::AttentionReduceBatch => "attention_decode_reduce_batch",
        Kernel::SsmConvDecode => "ssm_conv_decode",
        Kernel::SsmConvPrefill => "ssm_conv_prefill",
        Kernel::SsmConvRoll => "ssm_conv_roll",
        Kernel::DeltaDecodeStep => "delta_decode_step",
        Kernel::DeltaGates => "delta_gates",
        Kernel::L2NormRows => "l2norm_rows",
        Kernel::GatedOutputNorm => "gated_output_norm",
        Kernel::SplitQGate => "split_q_gate",
        Kernel::AttnOutGate => "attn_out_gate",
        Kernel::WindowFlash => "attention_prefill_flash",
        Kernel::WindowAttention => "attention",
        Kernel::WindowDecodePartial => "attention_decode_partial",
        Kernel::QMatvec(_) => "matvec",
        Kernel::QMatvecH(_) => "matvec_h",
        Kernel::QMatvecAcc(_) => "matvec_acc",
        Kernel::QMatmul(_) => "matmul_pg",
    }
}

/// The numbers of a window, in the order of their indices.
pub open spec fn window_consts(w: WindowCfg) -> Seq<(u32, u32)> {
    seq![
        (WINDOW_CONST, w.sink as u32),
        ((WINDOW_CONST + 1) as u32, w.sink_pad as u32),
        ((WINDOW_CONST + 2) as u32, w.ring as u32),
        ((WINDOW_CONST + 3) as u32, w.w as u32),
    ]
}

/// The kernels over quantized weights carry their selector; the grouped ones the
/// query heads per group; the windowed ones the window. The rest of the matvec
/// and attention family refers to constants and takes their defaults.
pub open spec fn build_of(k: Kernel, group: u32, w: Option<WindowCfg>) -> BuildView {
    match k {
        Kernel::QMatvec(s) | Kernel::QMatvecH(s) | Kernel::QMatvecAcc(s) | Kernel::QMatmul(s) => BuildView::With(
            seq![(SELECTOR_CONST, s)],
        ),
        Kernel::AttentionDecodePartial | Kernel::AttentionPartialBatch => BuildView::With(seq![(GROUP_CONST, group)]),
        Kernel::WindowFlash | Kernel::WindowAttention => match w {
            Some(x) => BuildView::With(window_consts(x)),
            None => BuildView::Plain,
        },
        Kernel::WindowDecodePartial => match w {
            Some(x) => BuildView::With(seq![(GROUP_CONST, group)] + window_consts(x)),
            None => BuildView::Plain,
        },
        Kernel::Matvec
        | Kernel::MatvecAcc
        | Kernel::MatvecSwiglu
        | Kernel::MatvecQkv
        | Kernel::MatvecH
        | Kernel::Attention
        | Kernel::AttentionFlash
        | Kernel::MatvecQkvBatch
        | Kernel::MatvecAccBatch
        | Kernel::MatvecSwigluBatch => BuildView::With(Seq::empty()),
        _ => BuildView::Plain,
    }
}

/// Whether a kernel is compiled without fast arithmetic: those over quantized
/// weights are.
pub fn precise(k: Kernel) -> (r: bool)
    ensures
        r == (k is QMatvec || k is QMatvecH || k is QMatvecAcc || k is QMatmul),
{
    match k {
        Kernel::QMatvec(_) | Kernel::QMatvecH(_) | Kernel::QMatvecAcc(_) | Kernel::QMatmul(_) => true,
        _ => false,
    }
}

fn window_list(w: &WindowCfg) -> (r: Vec<(u32, u32)>)
    requires
        w.cap <= u32::MAX,
        w.ok(),
    ensures
        r@ == window_consts(*w),
{
    let v: Vec<(u32, u32)> = vec![
        (WINDOW_CONST, w.sink as u32),
        (WINDOW_CONST + 1, w.sink_pad as u32),
        (WINDOW_CONST + 2, w.ring as u32),
        (WINDOW_CONST + 3, w.w as u32),
    ];
    assert(v@ =~= window_consts(*w));
    v
}

/// How a kernel is compiled for a session.
pub fn build(k: Kernel, g: &Geo) -> (r: Build)
    requires
        g.ok(),
    ensures
        r@ == build_of(k, gqa_chunk(g.heads as int, g.kv_heads as int) as u32, g.win),
{
    let per: u32 = g.heads / g.kv_heads;
    let group: u32 = if per as usize <= MAX_GQA_CHUNK { per } else { MAX_GQA_CHUNK as u32 };
    match k {
        Kernel::QMatvec(s) | Kernel::QMatvecH(s) | Kernel::QMatvecAcc(s) | Kernel::QMatmul(s) => {
            let v: Vec<(u32, u32)> = vec![(SELECTOR_CONST, s)];
            assert(v@ =~= seq![(SELECTOR_CONST, s)]);
            Build::With(v)
        },
        Kernel::AttentionDecodePartial | Kernel::AttentionPartialBatch => {
            let v: Vec<(u32, u32)> = vec![(GROUP_CONST, group)];
            assert(v@ =~= seq![(GROUP_CONST, group)]);
            Build::With(v)
        },
        Kernel::WindowFlash | Kernel::WindowAttention => match &g.win {
            Some(w) => Build::With(window_list(w)),
            None => Build::Plain,
        },
        Kernel::WindowDecodePartial => match &g.win {
            Some(w) => {
                let mut v: Vec<(u32, u32)> = vec![(GROUP_CONST, group)];
                assert(v@ =~= seq![(GROUP_CONST, group)]);
                let mut rest = window_list(w);
                v.append(&mut rest);
                Build::With(v)
            },
            None => Build::Plain,
        },
        Kernel::Matvec
        | Kernel::MatvecAcc
        | Kernel::MatvecSwiglu
        | Kernel::MatvecQkv
        | Kernel::MatvecH
        | Kernel::Attention
        | Kernel::AttentionFlash
        | Kernel::MatvecQkvBatch
        | Kernel::MatvecAccBatch
        | Kernel::MatvecSwigluBatch => {
            let v: Vec<(u32, u32)> = Vec::new();
            assert(v@ =~= Seq::empty());
            Build::With(v)
        },
        _ => Build::Plain,
    }
}

} // verus!
