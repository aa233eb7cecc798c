//! One command per kernel: what each is bound to, its parameters and its launch
//! geometry.
use vstd::prelude::*;

use crate::gpu::geometry::{
    gqa_decode_dims, gqa_grid, gqa_memory, ATTN_SPLIT, DEC_TG, FLASH_HEAD_DIM, FLASH_Q,
    FLASH_THREADS, MM_TILE_ROWS,
};
use crate::num::{ceil_div, div_up};
use crate::gpu::ops::{
    cmds, emit, fence1, in_groups, per_element, per_row, run_elements, run_groups, run_rows,
    with_barrier, Buf, Cmd, CmdView, Dispatch, DispatchView, Geo, Kernel, Params, Proj, Slot,
};

verus! {

/// Gathers the embedding rows of `n` tokens.
pub open spec fn embed(s: Seq<CmdView>, g: Geo, n: u32) -> Seq<CmdView> {
    s.push(CmdView::Run(per_element(
        Kernel::Embed,
        seq![
            Slot::Buf(Buf::EmbedTable, 0),
            Slot::Buf(Buf::Ids, 0),
            Slot::Buf(Buf::X, 0),
            Slot::Params(Params::Embed { dim: g.hidden, n_rows: n }),
        ],
        n * g.hidden,
    )))
}

pub(crate) fn enc_embed(out: &mut Vec<Cmd>, g: &Geo, n: u32)
    ensures
        cmds(final(out)@) == embed(cmds(old(out)@), *g, n),
{
    proof {
        assert(n * g.hidden <= u32::MAX * u32::MAX) by (nonlinear_arith)
            requires
                0 <= n <= u32::MAX,
                0 <= g.hidden <= u32::MAX,
        ;
    }
    let slots: Vec<Slot> = vec![
        Slot::Buf(Buf::EmbedTable, 0),
        Slot::Buf(Buf::Ids, 0),
        Slot::Buf(Buf::X, 0),
        Slot::Params(Params::Embed { dim: g.hidden, n_rows: n }),
    ];
    assert(slots@ =~= seq![
        Slot::Buf(Buf::EmbedTable, 0),
        Slot::Buf(Buf::Ids, 0),
        Slot::Buf(Buf::X, 0),
        Slot::Params(Params::Embed { dim: g.hidden, n_rows: n }),
    ]);
    run_elements(out, Kernel::Embed, slots, n as u64 * g.hidden as u64);
}

/// Normalises `n` rows of `x` into `y`.
pub open spec fn rmsnorm(s: Seq<CmdView>, g: Geo, x: Buf, weight: Buf, y: Buf, n: u32) -> Seq<CmdView> {
    s.push(CmdView::Run(in_groups(
        Kernel::RmsNorm,
        seq![
            Slot::Buf(x, 0),
            Slot::Buf(weight, 0),
            Slot::Buf(y, 0),
            Slot::Params(Params::Norm { dim: g.hidden }),
        ],
        n as int,
        1,
        256,
    )))
}

pub(crate) fn enc_rmsnorm(out: &mut Vec<Cmd>, g: &Geo, x: Buf, weight: Buf, y: Buf, n: u32)
    ensures
        cmds(final(out)@) == rmsnorm(cmds(old(out)@), *g, x, weight, y, n),
{
    let slots: Vec<Slot> = vec![
        Slot::Buf(x, 0),
        Slot::Buf(weight, 0),
        Slot::Buf(y, 0),
        Slot::Params(Params::Norm { dim: g.hidden }),
    ];
    assert(slots@ =~= seq![
        Slot::Buf(x, 0),
        Slot::Buf(weight, 0),
        Slot::Buf(y, 0),
        Slot::Params(Params::Norm { dim: g.hidden }),
    ]);
    run_groups(out, Kernel::RmsNorm, slots, n as u64, 1, 256);
}

/// Normalises `rows` heads of `x` in place.
pub open spec fn rmsnorm_heads(s: Seq<CmdView>, x: Buf, weight: Buf, rows: u64, dim: u32) -> Seq<CmdView> {
    s.push(CmdView::Run(in_groups(
        Kernel::RmsNorm,
        seq![
            Slot::Buf(x, 0),
            Slot::Buf(weight, 0),
            Slot::Buf(x, 0),
            Slot::Params(Params::Norm { dim }),
        ],
        rows as int,
        1,
        256,
    )))
}

pub(crate) fn enc_rmsnorm_heads(out: &mut Vec<Cmd>, x: Buf, weight: Buf, rows: u64, dim: u32)
    ensures
        cmds(final(out)@) == rmsnorm_heads(cmds(old(out)@), x, weight, rows, dim),
{
    let slots: Vec<Slot> = vec![
        Slot::Buf(x, 0),
        Slot::Buf(weight, 0),
        Slot::Buf(x, 0),
        Slot::Params(Params::Norm { dim }),
    ];
    assert(slots@ =~= seq![
        Slot::Buf(x, 0),
        Slot::Buf(weight, 0),
        Slot::Buf(x, 0),
        Slot::Params(Params::Norm { dim }),
    ]);
    run_groups(out, Kernel::RmsNorm, slots, rows, 1, 256);
}

/// Normalises `rows` half-precision heads of the cache in place.
pub open spec fn rmsnorm_cache(s: Seq<CmdView>, x: Buf, off: u64, weight: Buf, rows: u64, dim: u32) -> Seq<CmdView> {
    s.push(CmdView::Run(in_groups(
        Kernel::RmsNormHInplace,
        seq![
            Slot::Buf(x, off),
            Slot::Buf(weight, 0),
            Slot::Params(Params::Norm { dim }),
        ],
        rows as int,
        1,
        256,
    )))
}

pub(crate) fn enc_rmsnorm_cache(out: &mut Vec<Cmd>, x: Buf, off: u64, weight: Buf, rows: u64, dim: u32)
    ensures
        cmds(final(out)@) == rmsnorm_cache(cmds(old(out)@), x, off, weight, rows, dim),
{
    let slots: Vec<Slot> = vec![
        Slot::Buf(x, off),
        Slot::Buf(weight, 0),
        Slot::Params(Params::Norm { dim }),
    ];
    assert(slots@ =~= seq![
        Slot::Buf(x, off),
        Slot::Buf(weight, 0),
        Slot::Params(Params::Norm { dim }),
    ]);
    run_groups(out, Kernel::RmsNormHInplace, slots, rows, 1, 256);
}

/// Normalises `n` rows into a single- and a half-precision copy.
pub open spec fn rmsnorm_both(s: Seq<CmdView>, g: Geo, x: Buf, weight: Buf, y: Buf, y_h: Buf, n: u32) -> Seq<CmdView> {
    s.push(CmdView::Run(in_groups(
        Kernel::RmsNormHf,
        seq![
            Slot::Buf(x, 0),
            Slot::Buf(weight, 0),
            Slot::Buf(y, 0),
            Slot::Buf(y_h, 0),
            Slot::Params(Params::Norm { dim: g.hidden }),
        ],
        n as int,
        1,
        256,
    )))
}

pub(crate) fn enc_rmsnorm_both(out: &mut Vec<Cmd>, g: &Geo, x: Buf, weight: Buf, y: Buf, y_h: Buf, n: u32)
    ensures
        cmds(final(out)@) == rmsnorm_both(cmds(old(out)@), *g, x, weight, y, y_h, n),
{
    let slots: Vec<Slot> = vec![
        Slot::Buf(x, 0),
        Slot::Buf(weight, 0),
        Slot::Buf(y, 0),
        Slot::Buf(y_h, 0),
        Slot::Params(Params::Norm { dim: g.hidden }),
    ];
    assert(slots@ =~= seq![
        Slot::Buf(x, 0),
        Slot::Buf(weight, 0),
        Slot::Buf(y, 0),
        Slot::Buf(y_h, 0),
        Slot::Params(Params::Norm { dim: g.hidden }),
    ]);
    run_groups(out, Kernel::RmsNormHf, slots, n as u64, 1, 256);
}

/// Rotates `n` rows of single-precision heads.
pub open spec fn rope(s: Seq<CmdView>, g: Geo, x: Buf, n_heads: u32, pos0: u32, n: u32, rot: u32) -> Seq<CmdView> {
    s.push(CmdView::Run(per_element(
        Kernel::Rope,
        seq![
            Slot::Buf(x, 0),
            Slot::Params(Params::Rope { head_dim: g.head_dim, n_heads, pos0, n_rows: n, rot_dim: rot }),
        ],
        n * n_heads * rot / 2,
    )))
}

pub(crate) fn enc_rope(out: &mut Vec<Cmd>, g: &Geo, x: Buf, n_heads: u32, pos0: u32, n: u32, rot: u32)
    requires
        n * n_heads * rot <= u64::MAX,
    ensures
        cmds(final(out)@) == rope(cmds(old(out)@), *g, x, n_heads, pos0, n, rot),
{
    proof {
        assert(0 <= n * n_heads <= u32::MAX * u32::MAX) by (nonlinear_arith)
            requires
                0 <= n <= u32::MAX,
                0 <= n_heads <= u32::MAX,
        ;
    }
    let slots: Vec<Slot> = vec![
        Slot::Buf(x, 0),
        Slot::Params(Params::Rope { head_dim: g.head_dim, n_heads, pos0, n_rows: n, rot_dim: rot }),
    ];
    assert(slots@ =~= seq![
        Slot::Buf(x, 0),
        Slot::Params(Params::Rope { head_dim: g.head_dim, n_heads, pos0, n_rows: n, rot_dim: rot }),
    ]);
    run_elements(out, Kernel::Rope, slots, n as u64 * n_heads as u64 * rot as u64 / 2);
}

/// Rotates `n` rows of half-precision heads of the cache. `span` dimensions of each
/// head have a thread, `rot` of them rotate.
pub open spec fn rope_cache(
    s: Seq<CmdView>,
    g: Geo,
    x: Buf,
    off: u64,
    n_heads: u32,
    pos0: u32,
    n: u32,
    rot: u32,
    span: u32,
) -> Seq<CmdView> {
    s.push(CmdView::Run(per_element(
        Kernel::RopeH,
        seq![
            Slot::Buf(x, off),
            Slot::Params(Params::Rope { head_dim: g.head_dim, n_heads, pos0, n_rows: n, rot_dim: rot }),
        ],
        n * n_heads * span / 2,
    )))
}

pub(crate) fn enc_rope_cache(
    out: &mut Vec<Cmd>,
    g: &Geo,
    x: Buf,
    off: u64,
    n_heads: u32,
    pos0: u32,
    n: u32,
    rot: u32,
    span: u32,
)
    requires
        n * n_heads * span <= u64::MAX,
    ensures
        cmds(final(out)@) == rope_cache(cmds(old(out)@), *g, x, off, n_heads, pos0, n, rot, span),
{
    proof {
        assert(0 <= n * n_heads <= u32::MAX * u32::MAX) by (nonlinear_arith)
            requires
                0 <= n <= u32::MAX,
                0 <= n_heads <= u32::MAX,
        ;
    }
    let slots: Vec<Slot> = vec![
        Slot::Buf(x, off),
        Slot::Params(Params::Rope { head_dim: g.head_dim, n_heads, pos0, n_rows: n, rot_dim: rot }),
    ];
    assert(slots@ =~= seq![
        Slot::Buf(x, off),
        Slot::Params(Params::Rope { head_dim: g.head_dim, n_heads, pos0, n_rows: n, rot_dim: rot }),
    ]);
    run_elements(out, Kernel::RopeH, slots, n as u64 * n_heads as u64 * span as u64 / 2);
}

/// Converts `dim` numbers to half precision.
pub open spec fn to_half(s: Seq<CmdView>, src: Buf, src_off: u64, dst: Buf, dst_off: u64, dim: u64) -> Seq<CmdView> {
    s.push(CmdView::Run(per_element(
        Kernel::F32ToF16,
        seq![
            Slot::Buf(src, src_off),
            Slot::Buf(dst, dst_off),
            Slot::U32(dim as u32),
        ],
        dim as int,
    )))
}

pub(crate) fn enc_to_half(out: &mut Vec<Cmd>, src: Buf, src_off: u64, dst: Buf, dst_off: u64, dim: u64)
    requires
        dim <= u32::MAX,
    ensures
        cmds(final(out)@) == to_half(cmds(old(out)@), src, src_off, dst, dst_off, dim),
{
    let slots: Vec<Slot> = vec![
        Slot::Buf(src, src_off),
        Slot::Buf(dst, dst_off),
        Slot::U32(dim as u32),
    ];
    assert(slots@ =~= seq![
        Slot::Buf(src, src_off),
        Slot::Buf(dst, dst_off),
        Slot::U32(dim as u32),
    ]);
    run_elements(out, Kernel::F32ToF16, slots, dim);
}

/// Adds `b` to `a`.
pub open spec fn add_inplace(s: Seq<CmdView>, a: Buf, b: Buf, dim: u64) -> Seq<CmdView> {
    s.push(CmdView::Run(per_element(
        Kernel::AddInplace,
        seq![
            Slot::Buf(a, 0),
            Slot::Buf(b, 0),
            Slot::Params(Params::Elem { dim: dim as u32 }),
        ],
        dim as int,
    )))
}

pub(crate) fn enc_add_inplace(out: &mut Vec<Cmd>, a: Buf, b: Buf, dim: u64)
    requires
        dim <= u32::MAX,
    ensures
        cmds(final(out)@) == add_inplace(cmds(old(out)@), a, b, dim),
{
    let slots: Vec<Slot> = vec![
        Slot::Buf(a, 0),
        Slot::Buf(b, 0),
        Slot::Params(Params::Elem { dim: dim as u32 }),
    ];
    assert(slots@ =~= seq![
        Slot::Buf(a, 0),
        Slot::Buf(b, 0),
        Slot::Params(Params::Elem { dim: dim as u32 }),
    ]);
    run_elements(out, Kernel::AddInplace, slots, dim);
}

/// Gates `a` by `b`, in place.
pub open spec fn silu_mul(s: Seq<CmdView>, a: Buf, b: Buf, dim: u64) -> Seq<CmdView> {
    s.push(CmdView::Run(per_element(
        Kernel::SiluMul,
        seq![
            Slot::Buf(a, 0),
            Slot::Buf(b, 0),
            Slot::Params(Params::Elem { dim: dim as u32 }),
        ],
        dim as int,
    )))
}

pub(crate) fn enc_silu_mul(out: &mut Vec<Cmd>, a: Buf, b: Buf, dim: u64)
    requires
        dim <= u32::MAX,
    ensures
        cmds(final(out)@) == silu_mul(cmds(old(out)@), a, b, dim),
{
    let slots: Vec<Slot> = vec![
        Slot::Buf(a, 0),
        Slot::Buf(b, 0),
        Slot::Params(Params::Elem { dim: dim as u32 }),
    ];
    assert(slots@ =~= seq![
        Slot::Buf(a, 0),
        Slot::Buf(b, 0),
        Slot::Params(Params::Elem { dim: dim as u32 }),
    ]);
    run_elements(out, Kernel::SiluMul, slots, dim);
}

/// Gates `a` by `b`, in place and as a half-precision copy.
pub open spec fn silu_mul_both(s: Seq<CmdView>, a: Buf, b: Buf, h: Buf, dim: u64) -> Seq<CmdView> {
    s.push(CmdView::Run(per_element(
        Kernel::SiluMulHf,
        seq![
            Slot::Buf(a, 0),
            Slot::Buf(b, 0),
            Slot::Buf(h, 0),
            Slot::Params(Params::Elem { dim: dim as u32 }),
        ],
        dim as int,
    )))
}

pub(crate) fn enc_silu_mul_both(out: &mut Vec<Cmd>, a: Buf, b: Buf, h: Buf, dim: u64)
    requires
        dim <= u32::MAX,
    ensures
        cmds(final(out)@) == silu_mul_both(cmds(old(out)@), a, b, h, dim),
{
    let slots: Vec<Slot> = vec![
        Slot::Buf(a, 0),
        Slot::Buf(b, 0),
        Slot::Buf(h, 0),
        Slot::Params(Params::Elem { dim: dim as u32 }),
    ];
    assert(slots@ =~= seq![
        Slot::Buf(a, 0),
        Slot::Buf(b, 0),
        Slot::Buf(h, 0),
        Slot::Params(Params::Elem { dim: dim as u32 }),
    ]);
    run_elements(out, Kernel::SiluMulHf, slots, dim);
}

/// A linear layer: its place, whether it has a bias, and its widths.
#[derive(Debug, Clone, Copy, PartialEq, Eq, Structural)]
pub struct Lin {
    pub layer: usize,
    pub proj: Proj,
    pub has_bias: bool,
    pub in_dim: u32,
    pub out_dim: u32,
}

/// One row through a linear layer.
pub open spec fn matvec(
    s: Seq<CmdView>,
    kernel: Kernel,
    l: Lin,
    x: Buf,
    x_off: u64,
    y: Buf,
    y_off: u64,
) -> Seq<CmdView> {
    s.push(CmdView::Run(per_row(
        kernel,
        seq![
            Slot::Buf(Buf::Weight(l.layer, l.proj), 0),
            Slot::Buf(Buf::Bias(l.layer, l.proj), 0),
            Slot::Buf(x, x_off),
            Slot::Buf(y, y_off),
            Slot::Params(Params::Matvec { in_dim: l.in_dim, out_dim: l.out_dim }),
        ],
        l.out_dim as int,
    )))
}

pub(crate) fn enc_matvec(out: &mut Vec<Cmd>, kernel: Kernel, l: Lin, x: Buf, x_off: u64, y: Buf, y_off: u64)
    ensures
        cmds(final(out)@) == matvec(cmds(old(out)@), kernel, l, x, x_off, y, y_off),
{
    let slots: Vec<Slot> = vec![
        Slot::Buf(Buf::Weight(l.layer, l.proj), 0),
        Slot::Buf(Buf::Bias(l.layer, l.proj), 0),
        Slot::Buf(x, x_off),
        Slot::Buf(y, y_off),
        Slot::Params(Params::Matvec { in_dim: l.in_dim, out_dim: l.out_dim }),
    ];
    assert(slots@ =~= seq![
        Slot::Buf(Buf::Weight(l.layer, l.proj), 0),
        Slot::Buf(Buf::Bias(l.layer, l.proj), 0),
        Slot::Buf(x, x_off),
        Slot::Buf(y, y_off),
        Slot::Params(Params::Matvec { in_dim: l.in_dim, out_dim: l.out_dim }),
    ]);
    run_rows(out, kernel, slots, l.out_dim as u64);
}

/// Gate and up in one launch, the first applied to the second.
pub open spec fn swiglu(s: Seq<CmdView>, gate: Lin, up: Lin, x: Buf, y: Buf) -> Seq<CmdView> {
    s.push(CmdView::Run(per_row(
        Kernel::MatvecSwiglu,
        seq![
            Slot::Buf(Buf::Weight(gate.layer, gate.proj), 0),
            Slot::Buf(Buf::Weight(up.layer, up.proj), 0),
            Slot::Buf(x, 0),
            Slot::Buf(y, 0),
            Slot::Params(Params::Matvec { in_dim: gate.in_dim, out_dim: gate.out_dim }),
        ],
        gate.out_dim as int,
    )))
}

pub(crate) fn enc_swiglu(out: &mut Vec<Cmd>, gate: Lin, up: Lin, x: Buf, y: Buf)
    ensures
        cmds(final(out)@) == swiglu(cmds(old(out)@), gate, up, x, y),
{
    let slots: Vec<Slot> = vec![
        Slot::Buf(Buf::Weight(gate.layer, gate.proj), 0),
        Slot::Buf(Buf::Weight(up.layer, up.proj), 0),
        Slot::Buf(x, 0),
        Slot::Buf(y, 0),
        Slot::Params(Params::Matvec { in_dim: gate.in_dim, out_dim: gate.out_dim }),
    ];
    assert(slots@ =~= seq![
        Slot::Buf(Buf::Weight(gate.layer, gate.proj), 0),
        Slot::Buf(Buf::Weight(up.layer, up.proj), 0),
        Slot::Buf(x, 0),
        Slot::Buf(y, 0),
        Slot::Params(Params::Matvec { in_dim: gate.in_dim, out_dim: gate.out_dim }),
    ]);
    run_rows(out, Kernel::MatvecSwiglu, slots, gate.out_dim as u64);
}

/// `n` rows through a linear layer, in tiles of 32 rows.
pub open spec fn matmul(
    s: Seq<CmdView>,
    kernel: Kernel,
    l: Lin,
    x: Buf,
    x_off: u64,
    y: Buf,
    y_off: u64,
    n: u32,
) -> Seq<CmdView> {
    s.push(CmdView::Run(in_groups(
        kernel,
        seq![
            Slot::Buf(Buf::Weight(l.layer, l.proj), 0),
            Slot::Buf(Buf::Bias(l.layer, l.proj), 0),
            Slot::Buf(x, x_off),
            Slot::Buf(y, y_off),
            Slot::Params(Params::Matmul { in_dim: l.in_dim, out_dim: l.out_dim, n_rows: n }),
        ],
        div_up(l.out_dim as int, 64),
        div_up(n as int, 32),
        128,
    )))
}

pub(crate) fn enc_matmul(out: &mut Vec<Cmd>, kernel: Kernel, l: Lin, x: Buf, x_off: u64, y: Buf, y_off: u64, n: u32)
    ensures
        cmds(final(out)@) == matmul(cmds(old(out)@), kernel, l, x, x_off, y, y_off, n),
{
    let slots: Vec<Slot> = vec![
        Slot::Buf(Buf::Weight(l.layer, l.proj), 0),
        Slot::Buf(Buf::Bias(l.layer, l.proj), 0),
        Slot::Buf(x, x_off),
        Slot::Buf(y, y_off),
        Slot::Params(Params::Matmul { in_dim: l.in_dim, out_dim: l.out_dim, n_rows: n }),
    ];
    assert(slots@ =~= seq![
        Slot::Buf(Buf::Weight(l.layer, l.proj), 0),
        Slot::Buf(Buf::Bias(l.layer, l.proj), 0),
        Slot::Buf(x, x_off),
        Slot::Buf(y, y_off),
        Slot::Params(Params::Matmul { in_dim: l.in_dim, out_dim: l.out_dim, n_rows: n }),
    ]);
    run_groups(out, kernel, slots, ceil_div(l.out_dim as u64, 64), ceil_div(n as u64, 32), 128);
}

/// `n` rows of a half-precision input through a linear layer.
pub open spec fn matmul_half(s: Seq<CmdView>, l: Lin, xh: Buf, y: Buf, y_off: u64, n: u32) -> Seq<CmdView> {
    s.push(CmdView::Run(in_groups(
        Kernel::MatmulT,
        seq![
            Slot::Buf(Buf::Weight(l.layer, l.proj), 0),
            Slot::Buf(xh, 0),
            Slot::Buf(y, y_off),
            Slot::Params(Params::Matmul { in_dim: l.in_dim, out_dim: l.out_dim, n_rows: n }),
        ],
        div_up(l.out_dim as int, 64),
        div_up(n as int, MM_TILE_ROWS as int),
        128,
    )))
}

pub(crate) fn enc_matmul_half(out: &mut Vec<Cmd>, l: Lin, xh: Buf, y: Buf, y_off: u64, n: u32)
    ensures
        cmds(final(out)@) == matmul_half(cmds(old(out)@), l, xh, y, y_off, n),
{
    let slots: Vec<Slot> = vec![
        Slot::Buf(Buf::Weight(l.layer, l.proj), 0),
        Slot::Buf(xh, 0),
        Slot::Buf(y, y_off),
        Slot::Params(Params::Matmul { in_dim: l.in_dim, out_dim: l.out_dim, n_rows: n }),
    ];
    assert(slots@ =~= seq![
        Slot::Buf(Buf::Weight(l.layer, l.proj), 0),
        Slot::Buf(xh, 0),
        Slot::Buf(y, y_off),
        Slot::Params(Params::Matmul { in_dim: l.in_dim, out_dim: l.out_dim, n_rows: n }),
    ]);
    run_groups(out, Kernel::MatmulT, slots, ceil_div(l.out_dim as u64, 64), ceil_div(n as u64, MM_TILE_ROWS as u64), 128);
}

/// `n` rows of a half-precision input through a linear layer with its bias.
pub open spec fn matmul_half_bias(
    s: Seq<CmdView>,
    kernel: Kernel,
    l: Lin,
    xh: Buf,
    y: Buf,
    y_off: u64,
    n: u32,
) -> Seq<CmdView> {
    s.push(CmdView::Run(in_groups(
        kernel,
        seq![
            Slot::Buf(Buf::Weight(l.layer, l.proj), 0),
            Slot::Buf(xh, 0),
            Slot::Buf(y, y_off),
            Slot::Buf(Buf::Bias(l.layer, l.proj), 0),
            Slot::Params(Params::Matmul { in_dim: l.in_dim, out_dim: l.out_dim, n_rows: n }),
        ],
        div_up(l.out_dim as int, 64),
        div_up(n as int, MM_TILE_ROWS as int),
        128,
    )))
}

pub(crate) fn enc_matmul_half_bias(out: &mut Vec<Cmd>, kernel: Kernel, l: Lin, xh: Buf, y: Buf, y_off: u64, n: u32)
    ensures
        cmds(final(out)@) == matmul_half_bias(cmds(old(out)@), kernel, l, xh, y, y_off, n),
{
    let slots: Vec<Slot> = vec![
        Slot::Buf(Buf::Weight(l.layer, l.proj), 0),
        Slot::Buf(xh, 0),
        Slot::Buf(y, y_off),
        Slot::Buf(Buf::Bias(l.layer, l.proj), 0),
        Slot::Params(Params::Matmul { in_dim: l.in_dim, out_dim: l.out_dim, n_rows: n }),
    ];
    assert(slots@ =~= seq![
        Slot::Buf(Buf::Weight(l.layer, l.proj), 0),
        Slot::Buf(xh, 0),
        Slot::Buf(y, y_off),
        Slot::Buf(Buf::Bias(l.layer, l.proj), 0),
        Slot::Params(Params::Matmul { in_dim: l.in_dim, out_dim: l.out_dim, n_rows: n }),
    ]);
    run_groups(out, kernel, slots, ceil_div(l.out_dim as u64, 64), ceil_div(n as u64, MM_TILE_ROWS as u64), 128);
}

/// `n` rows through a quantized layer.
pub open spec fn qmatmul(
    s: Seq<CmdView>,
    sel: u32,
    l: Lin,
    x: Buf,
    x_off: u64,
    y: Buf,
    y_off: u64,
    n: u32,
) -> Seq<CmdView> {
    s.push(CmdView::Run(in_groups(
        Kernel::QMatmul(sel),
        seq![
            Slot::Buf(Buf::Weight(l.layer, l.proj), 0),
            Slot::Buf(Buf::Bias(l.layer, l.proj), 0),
            Slot::Buf(x, x_off),
            Slot::Buf(y, y_off),
            Slot::Params(Params::MatmulPaged { in_dim: l.in_dim, out_dim: l.out_dim, n_rows: n, y_stride: l.out_dim }),
        ],
        div_up(l.out_dim as int, 64),
        div_up(n as int, 32),
        128,
    )))
}

pub(crate) fn enc_qmatmul(out: &mut Vec<Cmd>, sel: u32, l: Lin, x: Buf, x_off: u64, y: Buf, y_off: u64, n: u32)
    ensures
        cmds(final(out)@) == qmatmul(cmds(old(out)@), sel, l, x, x_off, y, y_off, n),
{
    let slots: Vec<Slot> = vec![
        Slot::Buf(Buf::Weight(l.layer, l.proj), 0),
        Slot::Buf(Buf::Bias(l.layer, l.proj), 0),
        Slot::Buf(x, x_off),
        Slot::Buf(y, y_off),
        Slot::Params(Params::MatmulPaged { in_dim: l.in_dim, out_dim: l.out_dim, n_rows: n, y_stride: l.out_dim }),
    ];
    assert(slots@ =~= seq![
        Slot::Buf(Buf::Weight(l.layer, l.proj), 0),
        Slot::Buf(Buf::Bias(l.layer, l.proj), 0),
        Slot::Buf(x, x_off),
        Slot::Buf(y, y_off),
        Slot::Params(Params::MatmulPaged { in_dim: l.in_dim, out_dim: l.out_dim, n_rows: n, y_stride: l.out_dim }),
    ]);
    run_groups(out, Kernel::QMatmul(sel), slots, ceil_div(l.out_dim as u64, 64), ceil_div(n as u64, 32), 128);
}

/// Queries, keys and values of one row, keys and values straight into the cache.
pub open spec fn qkv(s: Seq<CmdView>, q: Lin, k: Lin, v: Lin, x: Buf, y: Buf, kv_off: u32) -> Seq<CmdView> {
    s.push(CmdView::Run(per_row(
        Kernel::MatvecQkv,
        seq![
            Slot::Buf(Buf::Weight(q.layer, q.proj), 0),
            Slot::Buf(Buf::Bias(q.layer, q.proj), 0),
            Slot::Buf(Buf::Weight(k.layer, k.proj), 0),
            Slot::Buf(Buf::Bias(k.layer, k.proj), 0),
            Slot::Buf(Buf::Weight(v.layer, v.proj), 0),
            Slot::Buf(Buf::Bias(v.layer, v.proj), 0),
            Slot::Buf(x, 0),
            Slot::Buf(y, 0),
            Slot::Buf(Buf::KCache(q.layer), 0),
            Slot::Buf(Buf::VCache(q.layer), 0),
            Slot::Params(Params::Qkv { in_dim: q.in_dim, q_dim: q.out_dim, kv_dim: k.out_dim, kv_off }),
        ],
        q.out_dim + 2 * k.out_dim,
    )))
}

pub(crate) fn enc_qkv(out: &mut Vec<Cmd>, q: Lin, k: Lin, v: Lin, x: Buf, y: Buf, kv_off: u32)
    ensures
        cmds(final(out)@) == qkv(cmds(old(out)@), q, k, v, x, y, kv_off),
{
    let slots: Vec<Slot> = vec![
        Slot::Buf(Buf::Weight(q.layer, q.proj), 0),
        Slot::Buf(Buf::Bias(q.layer, q.proj), 0),
        Slot::Buf(Buf::Weight(k.layer, k.proj), 0),
        Slot::Buf(Buf::Bias(k.layer, k.proj), 0),
        Slot::Buf(Buf::Weight(v.layer, v.proj), 0),
        Slot::Buf(Buf::Bias(v.layer, v.proj), 0),
        Slot::Buf(x, 0),
        Slot::Buf(y, 0),
        Slot::Buf(Buf::KCache(q.layer), 0),
        Slot::Buf(Buf::VCache(q.layer), 0),
        Slot::Params(Params::Qkv { in_dim: q.in_dim, q_dim: q.out_dim, kv_dim: k.out_dim, kv_off }),
    ];
    assert(slots@ =~= seq![
        Slot::Buf(Buf::Weight(q.layer, q.proj), 0),
        Slot::Buf(Buf::Bias(q.layer, q.proj), 0),
        Slot::Buf(Buf::Weight(k.layer, k.proj), 0),
        Slot::Buf(Buf::Bias(k.layer, k.proj), 0),
        Slot::Buf(Buf::Weight(v.layer, v.proj), 0),
        Slot::Buf(Buf::Bias(v.layer, v.proj), 0),
        Slot::Buf(x, 0),
        Slot::Buf(y, 0),
        Slot::Buf(Buf::KCache(q.layer), 0),
        Slot::Buf(Buf::VCache(q.layer), 0),
        Slot::Params(Params::Qkv { in_dim: q.in_dim, q_dim: q.out_dim, kv_dim: k.out_dim, kv_off }),
    ]);
    run_rows(out, Kernel::MatvecQkv, slots, q.out_dim as u64 + 2 * k.out_dim as u64);
}

/// Rotates the query and the new cache row of one position.
pub open spec fn rope_qk(s: Seq<CmdView>, g: Geo, q: Buf, k: Buf, k_off: u64, pos: u32) -> Seq<CmdView> {
    s.push(CmdView::Run(per_element(
        Kernel::RopeQkDecode,
        seq![
            Slot::Buf(q, 0),
            Slot::Buf(k, k_off),
            Slot::Params(
                Params::RopeQk {
                    head_dim: g.head_dim,
                    n_q_heads: g.heads,
                    n_kv_heads: g.kv_heads,
                    pos,
                    rot_dim: g.rot_dim,
                },
            ),
        ],
        (g.heads + g.kv_heads) * g.rot_dim / 2,
    )))
}

pub(crate) fn enc_rope_qk(out: &mut Vec<Cmd>, g: &Geo, q: Buf, k: Buf, k_off: u64, pos: u32)
    requires
        (g.heads + g.kv_heads) * g.rot_dim <= u64::MAX,
    ensures
        cmds(final(out)@) == rope_qk(cmds(old(out)@), *g, q, k, k_off, pos),
{
    let slots: Vec<Slot> = vec![
        Slot::Buf(q, 0),
        Slot::Buf(k, k_off),
        Slot::Params(
            Params::RopeQk {
                head_dim: g.head_dim,
                n_q_heads: g.heads,
                n_kv_heads: g.kv_heads,
                pos,
                rot_dim: g.rot_dim,
            },
        ),
    ];
    assert(slots@ =~= seq![
        Slot::Buf(q, 0),
        Slot::Buf(k, k_off),
        Slot::Params(
            Params::RopeQk {
                head_dim: g.head_dim,
                n_q_heads: g.heads,
                n_kv_heads: g.kv_heads,
                pos,
                rot_dim: g.rot_dim,
            },
        ),
    ]);
    run_elements(out, Kernel::RopeQkDecode, slots, (g.heads as u64 + g.kv_heads as u64) * g.rot_dim as u64 / 2);
}

/// Rotates the queries and the new cache rows of a chunk.
pub open spec fn rope_qk_chunk(s: Seq<CmdView>, g: Geo, q: Buf, k: Buf, k_off: u64, pos0: u32, n: u32) -> Seq<CmdView> {
    s.push(CmdView::Run(per_element(
        Kernel::RopeQkPrefill,
        seq![
            Slot::Buf(q, 0),
            Slot::Buf(k, k_off),
            Slot::Params(
                Params::RopeQkPrefill {
                    head_dim: g.head_dim,
                    n_q_heads: g.heads,
                    n_kv_heads: g.kv_heads,
                    pos0,
                    n_rows: n,
                },
            ),
        ],
        n * (g.q_dim + g.kv_dim) / 2,
    )))
}

pub(crate) fn enc_rope_qk_chunk(out: &mut Vec<Cmd>, g: &Geo, q: Buf, k: Buf, k_off: u64, pos0: u32, n: u32)
    requires
        n * (g.q_dim + g.kv_dim) <= u64::MAX,
    ensures
        cmds(final(out)@) == rope_qk_chunk(cmds(old(out)@), *g, q, k, k_off, pos0, n),
{
    let slots: Vec<Slot> = vec![
        Slot::Buf(q, 0),
        Slot::Buf(k, k_off),
        Slot::Params(
            Params::RopeQkPrefill {
                head_dim: g.head_dim,
                n_q_heads: g.heads,
                n_kv_heads: g.kv_heads,
                pos0,
                n_rows: n,
            },
        ),
    ];
    assert(slots@ =~= seq![
        Slot::Buf(q, 0),
        Slot::Buf(k, k_off),
        Slot::Params(
            Params::RopeQkPrefill {
                head_dim: g.head_dim,
                n_q_heads: g.heads,
                n_kv_heads: g.kv_heads,
                pos0,
                n_rows: n,
            },
        ),
    ]);
    run_elements(out, Kernel::RopeQkPrefill, slots, n as u64 * (g.q_dim as u64 + g.kv_dim as u64) / 2);
}

/// Whether prefill attention takes the flash kernel.
pub open spec fn is_flash(g: Geo) -> bool {
    g.head_dim == FLASH_HEAD_DIM
}

/// The parameters of prefill attention.
pub open spec fn attn_params(g: Geo, pos0: u32, n: u32) -> Params {
    Params::Attn {
        head_dim: g.head_dim,
        n_heads: g.heads,
        n_kv_heads: g.kv_heads,
        pos0,
        max_seq: g.extent() as u32,
        n_rows: n,
    }
}

/// Prefill attention with the flash kernel: one group per head and tile of rows.
pub open spec fn attention_flash(s: Seq<CmdView>, g: Geo, q: Buf, layer: usize, pos0: u32, n: u32) -> Seq<CmdView> {
    s.push(CmdView::Run(in_groups(
        if g.win is Some { Kernel::WindowFlash } else { Kernel::AttentionFlash },
        seq![
            Slot::Buf(q, 0),
            Slot::Buf(Buf::KCache(layer), g.kv_base),
            Slot::Buf(Buf::VCache(layer), g.kv_base),
            Slot::Buf(Buf::Att, 0),
            Slot::Params(attn_params(g, pos0, n)),
            Slot::Buf(Buf::Xh, 0),
        ],
        g.heads as int,
        div_up(n as int, FLASH_Q as int),
        FLASH_THREADS as int,
    )))
}

fn enc_attention_flash(out: &mut Vec<Cmd>, g: &Geo, q: Buf, layer: usize, pos0: u32, n: u32)
    requires
        g.ok(),
    ensures
        cmds(final(out)@) == attention_flash(cmds(old(out)@), *g, q, layer, pos0, n),
{
    let extent: u32 = match g.win {
        Some(w) => w.cap as u32,
        None => g.max_seq,
    };
    let params = Params::Attn {
        head_dim: g.head_dim,
        n_heads: g.heads,
        n_kv_heads: g.kv_heads,
        pos0,
        max_seq: extent,
        n_rows: n,
    };
    let slots: Vec<Slot> = vec![
        Slot::Buf(q, 0),
        Slot::Buf(Buf::KCache(layer), g.kv_base),
        Slot::Buf(Buf::VCache(layer), g.kv_base),
        Slot::Buf(Buf::Att, 0),
        Slot::Params(params),
        Slot::Buf(Buf::Xh, 0),
    ];
    let kernel = if g.win.is_some() { Kernel::WindowFlash } else { Kernel::AttentionFlash };
    assert(slots@ =~= seq![
        Slot::Buf(q, 0),
        Slot::Buf(Buf::KCache(layer), g.kv_base),
        Slot::Buf(Buf::VCache(layer), g.kv_base),
        Slot::Buf(Buf::Att, 0),
        Slot::Params(params),
        Slot::Buf(Buf::Xh, 0),
    ]);
    run_groups(out, kernel, slots, g.heads as u64, ceil_div(n as u64, FLASH_Q as u64), FLASH_THREADS as u64);
}

/// Prefill attention over a scores scratch: one group per head and row.
pub open spec fn attention_scores(s: Seq<CmdView>, g: Geo, q: Buf, layer: usize, pos0: u32, n: u32) -> Seq<CmdView> {
    s.push(CmdView::Run(in_groups(
        if g.win is Some { Kernel::WindowAttention } else { Kernel::Attention },
        seq![
            Slot::Buf(q, 0),
            Slot::Buf(Buf::KCache(layer), g.kv_base),
            Slot::Buf(Buf::VCache(layer), g.kv_base),
            Slot::Buf(Buf::Scores, 0),
            Slot::Buf(Buf::Att, 0),
            Slot::Params(attn_params(g, pos0, n)),
        ],
        g.heads as int,
        n as int,
        256,
    )))
}

fn enc_attention_scores(out: &mut Vec<Cmd>, g: &Geo, q: Buf, layer: usize, pos0: u32, n: u32)
    requires
        g.ok(),
    ensures
        cmds(final(out)@) == attention_scores(cmds(old(out)@), *g, q, layer, pos0, n),
{
    let extent: u32 = match g.win {
        Some(w) => w.cap as u32,
        None => g.max_seq,
    };
    let params = Params::Attn {
        head_dim: g.head_dim,
        n_heads: g.heads,
        n_kv_heads: g.kv_heads,
        pos0,
        max_seq: extent,
        n_rows: n,
    };
    let slots: Vec<Slot> = vec![
        Slot::Buf(q, 0),
        Slot::Buf(Buf::KCache(layer), g.kv_base),
        Slot::Buf(Buf::VCache(layer), g.kv_base),
        Slot::Buf(Buf::Scores, 0),
        Slot::Buf(Buf::Att, 0),
        Slot::Params(params),
    ];
    let kernel = if g.win.is_some() { Kernel::WindowAttention } else { Kernel::Attention };
    assert(slots@ =~= seq![
        Slot::Buf(q, 0),
        Slot::Buf(Buf::KCache(layer), g.kv_base),
        Slot::Buf(Buf::VCache(layer), g.kv_base),
        Slot::Buf(Buf::Scores, 0),
        Slot::Buf(Buf::Att, 0),
        Slot::Params(params),
    ]);
    run_groups(out, kernel, slots, g.heads as u64, n as u64, 256);
}

/// Prefill attention of a layer.
pub open spec fn attention(s: Seq<CmdView>, g: Geo, q: Buf, layer: usize, pos0: u32, n: u32) -> Seq<CmdView> {
    if is_flash(g) {
        attention_flash(s, g, q, layer, pos0, n)
    } else {
        attention_scores(s, g, q, layer, pos0, n)
    }
}

pub(crate) fn enc_attention(out: &mut Vec<Cmd>, g: &Geo, q: Buf, layer: usize, pos0: u32, n: u32)
    requires
        g.ok(),
    ensures
        cmds(final(out)@) == attention(cmds(old(out)@), *g, q, layer, pos0, n),
{
    if g.head_dim as usize == FLASH_HEAD_DIM {
        enc_attention_flash(out, g, q, layer, pos0, n);
    } else {
        enc_attention_scores(out, g, q, layer, pos0, n);
    }
}

/// How many splits of the cache a decode step attends to: all of a window's, so
/// that its cost is flat; else those up to the position.
pub open spec fn decode_splits(g: Geo, pos: u32) -> int {
    match g.win {
        Some(w) => w.cap as int / ATTN_SPLIT as int,
        None => div_up(pos + 1, ATTN_SPLIT as int),
    }
}

pub open spec fn decode_params(g: Geo, pos: u32) -> Params {
    Params::AttnDec {
        head_dim: g.head_dim,
        n_heads: g.heads,
        n_kv_heads: g.kv_heads,
        pos,
        n_splits: decode_splits(g, pos) as u32,
    }
}

/// The partial attention of a decode step, split by split.
pub open spec fn decode_partial(g: Geo, q: Buf, layer: usize, pos: u32) -> DispatchView {
    DispatchView {
        kernel: if g.win is Some { Kernel::WindowDecodePartial } else { Kernel::AttentionDecodePartial },
        slots: seq![
            Slot::Buf(q, 0),
            Slot::Buf(Buf::KCache(layer), g.kv_base),
            Slot::Buf(Buf::VCache(layer), g.kv_base),
            Slot::Buf(Buf::Partials, 0),
            Slot::Params(decode_params(g, pos)),
        ],
        groups: (gqa_grid(g.heads as int, g.kv_heads as int), decode_splits(g, pos), 1),
        threads: DEC_TG as int,
        memory: Some(decode_memory(g)),
    }
}

/// The group memory of decode attention.
pub open spec fn decode_memory(g: Geo) -> Seq<u64> {
    let m = gqa_memory(g.heads as int, g.kv_heads as int, g.head_dim as int);
    Seq::new(4, |i: int| m[i] as u64)
}

/// Decode attention of a layer: the partials of all splits, then their merge.
pub open spec fn attention_decode(s: Seq<CmdView>, g: Geo, q: Buf, layer: usize, pos: u32) -> Seq<CmdView> {
    s.push(CmdView::Run(decode_partial(g, q, layer, pos))).push(CmdView::Run(in_groups(
        Kernel::AttentionDecodeReduce,
        seq![
            Slot::Buf(Buf::Partials, 0),
            Slot::Buf(Buf::Att, 0),
            Slot::Params(decode_params(g, pos)),
        ],
        g.heads as int,
        1,
        g.head_dim as int,
    )))
}

pub(crate) fn enc_attention_decode(out: &mut Vec<Cmd>, g: &Geo, q: Buf, layer: usize, pos: u32)
    requires
        g.ok(),
    ensures
        cmds(final(out)@) == attention_decode(cmds(old(out)@), *g, q, layer, pos),
{
    let n_splits: u64 = match g.win {
        Some(w) => w.cap as u64 / ATTN_SPLIT as u64,
        None => ceil_div(pos as u64 + 1, ATTN_SPLIT as u64),
    };
    assert(n_splits <= u32::MAX) by {
        assert(div_up(pos + 1, 128) <= u32::MAX);
    }
    let params = Params::AttnDec {
        head_dim: g.head_dim,
        n_heads: g.heads,
        n_kv_heads: g.kv_heads,
        pos,
        n_splits: n_splits as u32,
    };
    let (grid_x, mem) = gqa_decode_dims(g.heads as usize, g.kv_heads as usize, g.head_dim as usize);
    assert(mem@ =~= decode_memory(*g));
    let slots: Vec<Slot> = vec![
        Slot::Buf(q, 0),
        Slot::Buf(Buf::KCache(layer), g.kv_base),
        Slot::Buf(Buf::VCache(layer), g.kv_base),
        Slot::Buf(Buf::Partials, 0),
        Slot::Params(params),
    ];
    assert(slots@ =~= decode_partial(*g, q, layer, pos).slots);
    emit(
        out,
        Cmd::Run(
            Dispatch {
                kernel: if g.win.is_some() { Kernel::WindowDecodePartial } else { Kernel::AttentionDecodePartial },
                slots,
                groups: (grid_x, n_splits, 1),
                threads: DEC_TG as u64,
                memory: Some(mem),
            },
        ),
    );
    let slots: Vec<Slot> = vec![Slot::Buf(Buf::Partials, 0), Slot::Buf(Buf::Att, 0), Slot::Params(params)];
    assert(slots@ =~= seq![Slot::Buf(Buf::Partials, 0), Slot::Buf(Buf::Att, 0), Slot::Params(params)]);
    run_groups(out, Kernel::AttentionDecodeReduce, slots, g.heads as u64, 1, g.head_dim as u64);
}

// ---------- linear layers ----------

/// `n` rows of `x` through a linear layer into `y`. One row takes the kernel
/// `mv`; more take the tensor kernel over the half-precision copy where there is
/// one, converted first where `convert`; else the kernel `mm`.
pub open spec fn linear(
    s: Seq<CmdView>,
    mv: Kernel,
    mm: Kernel,
    l: Lin,
    x: Buf,
    x_off: u64,
    y: Buf,
    y_off: u64,
    n: u32,
    half: bool,
    convert: bool,
    conc: bool,
) -> Seq<CmdView> {
    if n == 1 {
        matvec(s, mv, l, x, x_off, y, y_off)
    } else if half {
        let s = if convert {
            with_barrier(to_half(s, x, x_off, Buf::Xh, 0, (n * l.in_dim) as u64), conc, seq![Buf::Xh])
        } else {
            s
        };
        if l.has_bias {
            matmul_half_bias(s, Kernel::MatmulTb, l, Buf::Xh, y, y_off, n)
        } else {
            matmul_half(s, l, Buf::Xh, y, y_off, n)
        }
    } else {
        matmul(s, mm, l, x, x_off, y, y_off, n)
    }
}

pub(crate) fn enc_linear(
    out: &mut Vec<Cmd>,
    mv: Kernel,
    mm: Kernel,
    l: Lin,
    x: Buf,
    x_off: u64,
    y: Buf,
    y_off: u64,
    n: u32,
    half: bool,
    convert: bool,
    conc: bool,
)
    requires
        convert ==> n * l.in_dim <= u32::MAX,
    ensures
        cmds(final(out)@) == linear(cmds(old(out)@), mv, mm, l, x, x_off, y, y_off, n, half, convert, conc),
{
    if n == 1 {
        enc_matvec(out, mv, l, x, x_off, y, y_off);
    } else if half {
        if convert {
            enc_to_half(out, x, x_off, Buf::Xh, 0, n as u64 * l.in_dim as u64);
            fence1(out, conc, Buf::Xh);
        }
        if l.has_bias {
            enc_matmul_half_bias(out, Kernel::MatmulTb, l, Buf::Xh, y, y_off, n);
        } else {
            enc_matmul_half(out, l, Buf::Xh, y, y_off, n);
        }
    } else {
        enc_matmul(out, mm, l, x, x_off, y, y_off, n);
    }
}

/// `n` rows of keys or values into the half-precision cache.
pub open spec fn linear_kv(s: Seq<CmdView>, l: Lin, x: Buf, y: Buf, y_off: u64, n: u32) -> Seq<CmdView> {
    if n > 1 {
        matmul_half_bias(s, Kernel::MatmulTh, l, Buf::Xh, y, y_off, n)
    } else {
        linear(s, Kernel::MatvecH, Kernel::MatmulH, l, x, 0, y, y_off, n, false, false, false)
    }
}

pub(crate) fn enc_linear_kv(out: &mut Vec<Cmd>, l: Lin, x: Buf, y: Buf, y_off: u64, n: u32)
    ensures
        cmds(final(out)@) == linear_kv(cmds(old(out)@), l, x, y, y_off, n),
{
    if n > 1 {
        enc_matmul_half_bias(out, Kernel::MatmulTh, l, Buf::Xh, y, y_off, n);
    } else {
        enc_linear(out, Kernel::MatvecH, Kernel::MatmulH, l, x, 0, y, y_off, n, false, false, false);
    }
}

} // verus!
