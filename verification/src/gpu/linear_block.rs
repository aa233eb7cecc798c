//! The chain of kernels of a linear block: gates, convolution, normalised
//! queries and keys, the delta rule, and the gated output norm.
use vstd::prelude::*;

use crate::gpu::delta::DeltaDims;
use crate::gpu::ops::{
    Buf, Cmd, CmdView, Kernel, Params, Slot, SmallId, cmds, fence1, fence2, fence3, in_groups,
    per_element, run_elements, run_groups, with_barrier,
};
use crate::gpu::window::PREFILL_CHUNK;

verus! {

/// The widths of a linear block.
#[derive(Debug, Clone, Copy, PartialEq, Eq, Structural)]
pub struct DeltaGeo {
    pub d_state: u32,
    pub n_v_heads: u32,
    pub n_k_heads: u32,
    pub d_conv: u32,
    /// Width of all value heads.
    pub inner: u32,
    /// Width of all key heads.
    pub keys: u32,
    /// Queries, keys and values together.
    pub channels: u32,
}

impl DeltaGeo {
    pub open spec fn ok(self) -> bool {
        &&& 0 < self.n_k_heads <= self.n_v_heads
        &&& self.inner == self.n_v_heads * self.d_state
        &&& self.keys == self.n_k_heads * self.d_state
        &&& self.channels == 2 * self.keys + self.inner
    }

    /// The widths of a geometry, where they fit the kernels' counters.
    pub fn of(d: DeltaDims) -> (r: Option<DeltaGeo>)
        ensures
            match r {
                Some(g) => {
                    &&& g.ok()
                    &&& g.d_state == d.d_state
                    &&& g.n_v_heads == d.n_v_heads
                    &&& g.n_k_heads == d.n_k_heads
                    &&& g.d_conv == d.d_conv
                    &&& g.channels == d.channels()
                },
                None => {
                    ||| d.n_k_heads == 0
                    ||| d.n_k_heads > d.n_v_heads
                    ||| d.d_state > u32::MAX
                    ||| d.n_v_heads > u32::MAX
                    ||| d.d_conv > u32::MAX
                    ||| d.channels() > u32::MAX
                },
            },
    {
        let top: u64 = u32::MAX as u64;
        if d.n_k_heads == 0 || d.n_k_heads > d.n_v_heads || d.d_state as u64 > top || d.n_v_heads as u64 > top
            || d.d_conv as u64 > top {
            return None;
        }
        proof {
            let (v, k, s) = (d.n_v_heads as int, d.n_k_heads as int, d.d_state as int);
            assert(0 <= v * s <= 0xFFFF_FFFF * 0xFFFF_FFFF) by (nonlinear_arith)
                requires
                    0 <= v <= 0xFFFF_FFFF,
                    0 <= s <= 0xFFFF_FFFF,
            ;
            assert(0 <= k * s <= v * s) by (nonlinear_arith)
                requires
                    0 <= k <= v,
                    s >= 0,
            ;
        }
        let inner: u128 = d.n_v_heads as u128 * d.d_state as u128;
        let keys: u128 = d.n_k_heads as u128 * d.d_state as u128;
        let channels: u128 = 2 * keys + inner;
        if channels > top as u128 {
            return None;
        }
        Some(
            DeltaGeo {
                d_state: d.d_state as u32,
                n_v_heads: d.n_v_heads as u32,
                n_k_heads: d.n_k_heads as u32,
                d_conv: d.d_conv as u32,
                inner: inner as u32,
                keys: keys as u32,
                channels: channels as u32,
            },
        )
    }
}

/// A byte offset of row `t` in a buffer with rows of `width` numbers.
pub open spec fn row_at(t: int, width: u32) -> u64 {
    (t * width * 4) as u64
}

/// The gates of `n` tokens from token `t` on.
pub open spec fn delta_gates(s: Seq<CmdView>, d: DeltaGeo, l: usize, n: u32) -> Seq<CmdView> {
    s.push(CmdView::Run(per_element(
        Kernel::DeltaGates,
        seq![
            Slot::Buf(Buf::DnAlpha, 0),
            Slot::Buf(Buf::DnBetaP, 0),
            Slot::Buf(Buf::Small(l, SmallId::A), 0),
            Slot::Buf(Buf::Small(l, SmallId::DtBias), 0),
            Slot::Buf(Buf::DnG, 0),
            Slot::Buf(Buf::DnBeta, 0),
            Slot::U32(d.n_v_heads),
            Slot::U32(n),
        ],
        n * d.n_v_heads,
    )))
}

/// The convolution of one token, which rolls its history.
pub open spec fn conv_one(s: Seq<CmdView>, d: DeltaGeo, l: usize) -> Seq<CmdView> {
    s.push(CmdView::Run(per_element(
        Kernel::SsmConvDecode,
        seq![
            Slot::Buf(Buf::ConvState(l), 0),
            Slot::Buf(Buf::DnQkv, 0),
            Slot::Buf(Buf::Small(l, SmallId::Conv1d), 0),
            Slot::Buf(Buf::DnConvOut, 0),
            Slot::Params(Params::SsmConv { channels: d.channels, d_conv: d.d_conv }),
        ],
        d.channels as int,
    )))
}

/// The convolution of a whole chunk.
pub open spec fn conv_chunk(s: Seq<CmdView>, d: DeltaGeo, l: usize, n: u32) -> Seq<CmdView> {
    s.push(CmdView::Run(per_element(
        Kernel::SsmConvPrefill,
        seq![
            Slot::Buf(Buf::ConvState(l), 0),
            Slot::Buf(Buf::DnQkv, 0),
            Slot::Buf(Buf::Small(l, SmallId::Conv1d), 0),
            Slot::Buf(Buf::DnConvOut, 0),
            Slot::Params(Params::SsmConvBatch { channels: d.channels, d_conv: d.d_conv, n_tokens: n }),
        ],
        n * d.channels,
    )))
}

/// Rolls the convolution's history past a whole chunk.
pub open spec fn conv_roll(s: Seq<CmdView>, d: DeltaGeo, l: usize, n: u32) -> Seq<CmdView> {
    s.push(CmdView::Run(per_element(
        Kernel::SsmConvRoll,
        seq![
            Slot::Buf(Buf::ConvState(l), 0),
            Slot::Buf(Buf::DnQkv, 0),
            Slot::Params(Params::SsmConvBatch { channels: d.channels, d_conv: d.d_conv, n_tokens: n }),
        ],
        d.channels as int,
    )))
}

/// Normalises the key heads from `off` on, for `n` tokens `stride` apart.
pub open spec fn l2norm(s: Seq<CmdView>, d: DeltaGeo, off: u64, stride: u32, n: u32) -> Seq<CmdView> {
    s.push(CmdView::Run(in_groups(
        Kernel::L2NormRows,
        seq![Slot::Buf(Buf::DnConvOut, off), Slot::U32(d.d_state), Slot::Eps, Slot::U32(stride)],
        d.n_k_heads as int,
        n as int,
        256,
    )))
}

/// The delta rule of token `t`: queries, keys and values are three parts of its
/// convolution output.
pub open spec fn delta_rule(s: Seq<CmdView>, d: DeltaGeo, l: usize, t: int) -> Seq<CmdView> {
    let c = row_at(t, d.channels);
    s.push(CmdView::Run(per_element(
        Kernel::DeltaDecodeStep,
        seq![
            Slot::Buf(Buf::DeltaState(l), 0),
            Slot::Buf(Buf::DnConvOut, c),
            Slot::Buf(Buf::DnConvOut, (c + d.keys * 4) as u64),
            Slot::Buf(Buf::DnConvOut, (c + 2 * d.keys * 4) as u64),
            Slot::Buf(Buf::DnG, row_at(t, d.n_v_heads)),
            Slot::Buf(Buf::DnBeta, row_at(t, d.n_v_heads)),
            Slot::Buf(Buf::DnOut, row_at(t, d.inner)),
            Slot::Params(
                Params::DeltaStep { d_state: d.d_state, n_v_heads: d.n_v_heads, group: d.n_v_heads / d.n_k_heads },
            ),
        ],
        d.inner as int,
    )))
}

/// The gated output norm of `n` tokens: one group per token and head.
pub open spec fn output_norm(s: Seq<CmdView>, d: DeltaGeo, l: usize, n: u32) -> Seq<CmdView> {
    s.push(CmdView::Run(in_groups(
        Kernel::GatedOutputNorm,
        seq![
            Slot::Buf(Buf::DnOut, 0),
            Slot::Buf(Buf::Small(l, SmallId::SsmNorm), 0),
            Slot::Buf(Buf::DnZ, 0),
            Slot::U32(d.d_state),
            Slot::Eps,
        ],
        n * d.n_v_heads,
        1,
        256,
    )))
}

/// The chain for one token. Each stage reads what the stage before it wrote, and
/// the next token reads both states, so every stage ends in a barrier.
pub open spec fn delta_one(s: Seq<CmdView>, d: DeltaGeo, l: usize, conc: bool) -> Seq<CmdView> {
    let s = with_barrier(delta_gates(s, d, l, 1), conc, seq![Buf::DnG, Buf::DnBeta]);
    let s = with_barrier(conv_one(s, d, l), conc, seq![Buf::DnConvOut, Buf::ConvState(l)]);
    let s = l2norm(l2norm(s, d, 0, 0, 1), d, (d.keys * 4) as u64, 0, 1);
    let s = with_barrier(s, conc, seq![Buf::DnConvOut]);
    let s = with_barrier(delta_rule(s, d, l, 0), conc, seq![Buf::DnOut, Buf::DeltaState(l)]);
    with_barrier(output_norm(s, d, l, 1), conc, seq![Buf::DnOut, Buf::ConvState(l), Buf::DeltaState(l)])
}

/// The delta rule of the first `k` tokens, one after the other.
pub open spec fn delta_tokens(s: Seq<CmdView>, d: DeltaGeo, l: usize, conc: bool, k: nat) -> Seq<CmdView>
    decreases k,
{
    if k == 0 {
        s
    } else {
        with_barrier(
            delta_rule(delta_tokens(s, d, l, conc, (k - 1) as nat), d, l, k - 1),
            conc,
            seq![Buf::DnOut, Buf::DeltaState(l)],
        )
    }
}

/// The chain for a chunk: every stage takes all tokens at once but the delta
/// rule, whose state runs through them. The roll writes the history that the
/// convolution read, so a barrier on it stands between the two.
pub open spec fn delta_chunk(s: Seq<CmdView>, d: DeltaGeo, l: usize, n: u32, conc: bool) -> Seq<CmdView> {
    let s = with_barrier(delta_gates(s, d, l, n), conc, seq![Buf::DnG, Buf::DnBeta]);
    let s = with_barrier(conv_chunk(s, d, l, n), conc, seq![Buf::DnConvOut, Buf::ConvState(l)]);
    let s = with_barrier(conv_roll(s, d, l, n), conc, seq![Buf::ConvState(l)]);
    let s = l2norm(l2norm(s, d, 0, d.channels, n), d, (d.keys * 4) as u64, d.channels, n);
    let s = with_barrier(s, conc, seq![Buf::DnConvOut]);
    let s = delta_tokens(s, d, l, conc, n as nat);
    with_barrier(output_norm(s, d, l, n), conc, seq![Buf::DnOut])
}

/// The chain of a linear block for `n` tokens.
pub open spec fn delta_block(s: Seq<CmdView>, d: DeltaGeo, l: usize, n: u32, conc: bool) -> Seq<CmdView> {
    if n > 1 {
        delta_chunk(s, d, l, n, conc)
    } else {
        delta_one(s, d, l, conc)
    }
}

fn push_gates(out: &mut Vec<Cmd>, d: &DeltaGeo, l: usize, n: u32)
    requires
        n <= PREFILL_CHUNK,
    ensures
        cmds(final(out)@) == delta_gates(cmds(old(out)@), *d, l, n),
{
    let slots: Vec<Slot> = vec![
        Slot::Buf(Buf::DnAlpha, 0),
        Slot::Buf(Buf::DnBetaP, 0),
        Slot::Buf(Buf::Small(l, SmallId::A), 0),
        Slot::Buf(Buf::Small(l, SmallId::DtBias), 0),
        Slot::Buf(Buf::DnG, 0),
        Slot::Buf(Buf::DnBeta, 0),
        Slot::U32(d.n_v_heads),
        Slot::U32(n),
    ];
    assert(slots@ =~= seq![
        Slot::Buf(Buf::DnAlpha, 0),
        Slot::Buf(Buf::DnBetaP, 0),
        Slot::Buf(Buf::Small(l, SmallId::A), 0),
        Slot::Buf(Buf::Small(l, SmallId::DtBias), 0),
        Slot::Buf(Buf::DnG, 0),
        Slot::Buf(Buf::DnBeta, 0),
        Slot::U32(d.n_v_heads),
        Slot::U32(n),
    ]);
    proof {
        lemma_row(n as int, d.n_v_heads);
    }
    run_elements(out, Kernel::DeltaGates, slots, n as u64 * d.n_v_heads as u64);
}

proof fn lemma_row(t: int, w: u32)
    requires
        0 <= t <= PREFILL_CHUNK,
    ensures
        0 <= t * w <= 512 * 0xFFFF_FFFF,
        0 <= t * w * 4 <= 2048 * 0xFFFF_FFFF,
{
    assert(0 <= t * w <= 512 * 0xFFFF_FFFF) by (nonlinear_arith)
        requires
            0 <= t <= 512,
            0 <= w <= 0xFFFF_FFFF,
    ;
}

fn push_conv_one(out: &mut Vec<Cmd>, d: &DeltaGeo, l: usize)
    ensures
        cmds(final(out)@) == conv_one(cmds(old(out)@), *d, l),
{
    let slots: Vec<Slot> = vec![
        Slot::Buf(Buf::ConvState(l), 0),
        Slot::Buf(Buf::DnQkv, 0),
        Slot::Buf(Buf::Small(l, SmallId::Conv1d), 0),
        Slot::Buf(Buf::DnConvOut, 0),
        Slot::Params(Params::SsmConv { channels: d.channels, d_conv: d.d_conv }),
    ];
    assert(slots@ =~= seq![
        Slot::Buf(Buf::ConvState(l), 0),
        Slot::Buf(Buf::DnQkv, 0),
        Slot::Buf(Buf::Small(l, SmallId::Conv1d), 0),
        Slot::Buf(Buf::DnConvOut, 0),
        Slot::Params(Params::SsmConv { channels: d.channels, d_conv: d.d_conv }),
    ]);
    run_elements(out, Kernel::SsmConvDecode, slots, d.channels as u64);
}

fn push_conv_chunk(out: &mut Vec<Cmd>, d: &DeltaGeo, l: usize, n: u32)
    requires
        n <= PREFILL_CHUNK,
    ensures
        cmds(final(out)@) == conv_chunk(cmds(old(out)@), *d, l, n),
{
    let slots: Vec<Slot> = vec![
        Slot::Buf(Buf::ConvState(l), 0),
        Slot::Buf(Buf::DnQkv, 0),
        Slot::Buf(Buf::Small(l, SmallId::Conv1d), 0),
        Slot::Buf(Buf::DnConvOut, 0),
        Slot::Params(Params::SsmConvBatch { channels: d.channels, d_conv: d.d_conv, n_tokens: n }),
    ];
    assert(slots@ =~= seq![
        Slot::Buf(Buf::ConvState(l), 0),
        Slot::Buf(Buf::DnQkv, 0),
        Slot::Buf(Buf::Small(l, SmallId::Conv1d), 0),
        Slot::Buf(Buf::DnConvOut, 0),
        Slot::Params(Params::SsmConvBatch { channels: d.channels, d_conv: d.d_conv, n_tokens: n }),
    ]);
    proof {
        lemma_row(n as int, d.channels);
    }
    run_elements(out, Kernel::SsmConvPrefill, slots, n as u64 * d.channels as u64);
}

fn push_conv_roll(out: &mut Vec<Cmd>, d: &DeltaGeo, l: usize, n: u32)
    ensures
        cmds(final(out)@) == conv_roll(cmds(old(out)@), *d, l, n),
{
    let slots: Vec<Slot> = vec![
        Slot::Buf(Buf::ConvState(l), 0),
        Slot::Buf(Buf::DnQkv, 0),
        Slot::Params(Params::SsmConvBatch { channels: d.channels, d_conv: d.d_conv, n_tokens: n }),
    ];
    assert(slots@ =~= seq![
        Slot::Buf(Buf::ConvState(l), 0),
        Slot::Buf(Buf::DnQkv, 0),
        Slot::Params(Params::SsmConvBatch { channels: d.channels, d_conv: d.d_conv, n_tokens: n }),
    ]);
    run_elements(out, Kernel::SsmConvRoll, slots, d.channels as u64);
}

fn push_l2norm(out: &mut Vec<Cmd>, d: &DeltaGeo, off: u64, stride: u32, n: u32)
    ensures
        cmds(final(out)@) == l2norm(cmds(old(out)@), *d, off, stride, n),
{
    let slots: Vec<Slot> = vec![
        Slot::Buf(Buf::DnConvOut, off),
        Slot::U32(d.d_state),
        Slot::Eps,
        Slot::U32(stride),
    ];
    assert(slots@ =~= seq![Slot::Buf(Buf::DnConvOut, off), Slot::U32(d.d_state), Slot::Eps, Slot::U32(stride)]);
    run_groups(out, Kernel::L2NormRows, slots, d.n_k_heads as u64, n as u64, 256);
}

fn push_delta_rule(out: &mut Vec<Cmd>, d: &DeltaGeo, l: usize, t: u32)
    requires
        d.ok(),
        t <= PREFILL_CHUNK,
    ensures
        cmds(final(out)@) == delta_rule(cmds(old(out)@), *d, l, t as int),
{
    proof {
        lemma_row(t as int, d.channels);
        lemma_row(t as int, d.n_v_heads);
        lemma_row(t as int, d.inner);
    }
    let c: u64 = t as u64 * d.channels as u64 * 4;
    let h: u64 = t as u64 * d.n_v_heads as u64 * 4;
    let z: u64 = t as u64 * d.inner as u64 * 4;
    let p = Params::DeltaStep { d_state: d.d_state, n_v_heads: d.n_v_heads, group: d.n_v_heads / d.n_k_heads };
    let slots: Vec<Slot> = vec![
        Slot::Buf(Buf::DeltaState(l), 0),
        Slot::Buf(Buf::DnConvOut, c),
        Slot::Buf(Buf::DnConvOut, c + d.keys as u64 * 4),
        Slot::Buf(Buf::DnConvOut, c + 2 * d.keys as u64 * 4),
        Slot::Buf(Buf::DnG, h),
        Slot::Buf(Buf::DnBeta, h),
        Slot::Buf(Buf::DnOut, z),
        Slot::Params(p),
    ];
    assert(slots@ =~= seq![
        Slot::Buf(Buf::DeltaState(l), 0),
        Slot::Buf(Buf::DnConvOut, c),
        Slot::Buf(Buf::DnConvOut, (c + d.keys * 4) as u64),
        Slot::Buf(Buf::DnConvOut, (c + 2 * d.keys * 4) as u64),
        Slot::Buf(Buf::DnG, h),
        Slot::Buf(Buf::DnBeta, h),
        Slot::Buf(Buf::DnOut, z),
        Slot::Params(p),
    ]);
    run_elements(out, Kernel::DeltaDecodeStep, slots, d.inner as u64);
}

fn push_output_norm(out: &mut Vec<Cmd>, d: &DeltaGeo, l: usize, n: u32)
    requires
        n <= PREFILL_CHUNK,
    ensures
        cmds(final(out)@) == output_norm(cmds(old(out)@), *d, l, n),
{
    let slots: Vec<Slot> = vec![
        Slot::Buf(Buf::DnOut, 0),
        Slot::Buf(Buf::Small(l, SmallId::SsmNorm), 0),
        Slot::Buf(Buf::DnZ, 0),
        Slot::U32(d.d_state),
        Slot::Eps,
    ];
    assert(slots@ =~= seq![
        Slot::Buf(Buf::DnOut, 0),
        Slot::Buf(Buf::Small(l, SmallId::SsmNorm), 0),
        Slot::Buf(Buf::DnZ, 0),
        Slot::U32(d.d_state),
        Slot::Eps,
    ]);
    proof {
        lemma_row(n as int, d.n_v_heads);
    }
    run_groups(out, Kernel::GatedOutputNorm, slots, n as u64 * d.n_v_heads as u64, 1, 256);
}

fn push_delta_one(out: &mut Vec<Cmd>, d: &DeltaGeo, l: usize, conc: bool)
    requires
        d.ok(),
    ensures
        cmds(final(out)@) == delta_one(cmds(old(out)@), *d, l, conc),
{
    push_gates(out, d, l, 1);
    fence2(out, conc, Buf::DnG, Buf::DnBeta);
    push_conv_one(out, d, l);
    fence2(out, conc, Buf::DnConvOut, Buf::ConvState(l));
    push_l2norm(out, d, 0, 0, 1);
    push_l2norm(out, d, d.keys as u64 * 4, 0, 1);
    fence1(out, conc, Buf::DnConvOut);
    push_delta_rule(out, d, l, 0);
    fence2(out, conc, Buf::DnOut, Buf::DeltaState(l));
    push_output_norm(out, d, l, 1);
    fence3(out, conc, Buf::DnOut, Buf::ConvState(l), Buf::DeltaState(l));
}

fn push_delta_chunk(out: &mut Vec<Cmd>, d: &DeltaGeo, l: usize, n: u32, conc: bool)
    requires
        d.ok(),
        n <= PREFILL_CHUNK,
    ensures
        cmds(final(out)@) == delta_chunk(cmds(old(out)@), *d, l, n, conc),
{
    push_gates(out, d, l, n);
    fence2(out, conc, Buf::DnG, Buf::DnBeta);
    push_conv_chunk(out, d, l, n);
    fence2(out, conc, Buf::DnConvOut, Buf::ConvState(l));
    push_conv_roll(out, d, l, n);
    fence1(out, conc, Buf::ConvState(l));
    push_l2norm(out, d, 0, d.channels, n);
    push_l2norm(out, d, d.keys as u64 * 4, d.channels, n);
    fence1(out, conc, Buf::DnConvOut);
    let ghost before = cmds(out@);
    let mut t: u32 = 0;
    while t < n
        invariant
            d.ok(),
            n <= PREFILL_CHUNK,
            t <= n,
            cmds(out@) == delta_tokens(before, *d, l, conc, t as nat),
        decreases n - t,
    {
        push_delta_rule(out, d, l, t);
        fence2(out, conc, Buf::DnOut, Buf::DeltaState(l));
        t = t + 1;
    }
    push_output_norm(out, d, l, n);
    fence1(out, conc, Buf::DnOut);
}

pub(crate) fn push_delta_block(out: &mut Vec<Cmd>, d: &DeltaGeo, l: usize, n: u32, conc: bool)
    requires
        d.ok(),
        n <= PREFILL_CHUNK,
    ensures
        cmds(final(out)@) == delta_block(cmds(old(out)@), *d, l, n, conc),
{
    if n > 1 {
        push_delta_chunk(out, d, l, n, conc);
    } else {
        push_delta_one(out, d, l, conc);
    }
}

} // verus!
