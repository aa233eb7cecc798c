//! The vocabulary of a GPU step: buffers, kernels, their parameters, and the
//! commands that a step is a sequence of.
use vstd::prelude::*;

use crate::gpu::geometry::grid_groups;
use crate::gpu::timing::Phase;
use crate::gpu::window::WindowCfg;
use crate::num::{ceil_div, div_up};

verus! {

/// A projection of a block.
#[derive(Debug, Clone, Copy, PartialEq, Eq, Hash, Structural)]
pub enum Proj {
    Q,
    K,
    V,
    O,
    Gate,
    Up,
    Down,
    DnQkv,
    DnZ,
    DnOut,
    DnAlpha,
    DnBeta,
    Head,
}

/// A norm's weight.
#[derive(Debug, Clone, Copy, PartialEq, Eq, Hash, Structural)]
pub enum NormId {
    Input,
    Post,
    QHead,
    KHead,
    Final,
}

/// A small tensor of a linear block.
#[derive(Debug, Clone, Copy, PartialEq, Eq, Hash, Structural)]
pub enum SmallId {
    Conv1d,
    A,
    DtBias,
    SsmNorm,
}

/// A device buffer, by what it holds. Per-layer buffers carry their layer.
#[derive(Debug, Clone, Copy, PartialEq, Eq, Hash, Structural)]
pub enum Buf {
    Ids,
    Meta,
    X,
    Xn,
    Q,
    Att,
    Xb,
    Gate,
    Up,
    Logits,
    Scores,
    Partials,
    Xh,
    Kvs,
    QSplit,
    QGate,
    DnQkv,
    DnZ,
    DnAlpha,
    DnBetaP,
    DnG,
    DnBeta,
    DnConvOut,
    DnOut,
    EmbedTable,
    KCache(usize),
    VCache(usize),
    ConvState(usize),
    DeltaState(usize),
    Weight(usize, Proj),
    Bias(usize, Proj),
    Norm(usize, NormId),
    Small(usize, SmallId),
}

/// A kernel. The quantized ones carry the selector of their weight's type.
#[derive(Debug, Clone, Copy, PartialEq, Eq, Hash, Structural)]
pub enum Kernel {
    Embed,
    Matvec,
    MatvecAcc,
    MatvecSwiglu,
    MatvecQkv,
    MatvecH,
    Matmul,
    MatmulT,
    MatmulTh,
    MatmulTb,
    MatmulH,
    F32ToF16,
    RmsNorm,
    RmsNormHInplace,
    RmsNormHf,
    SiluMul,
    SiluMulHf,
    Rope,
    RopeH,
    RopeQkPrefill,
    RopeQkDecode,
    Attention,
    AttentionFlash,
    AttentionDecodePartial,
    AttentionDecodeReduce,
    AddInplace,
    MatvecQkvBatch,
    MatvecAccBatch,
    MatvecSwigluBatch,
    RopeQkBatch,
    AttentionPartialBatch,
    AttentionReduceBatch,
    SsmConvDecode,
    SsmConvPrefill,
    SsmConvRoll,
    DeltaDecodeStep,
    DeltaGates,
    L2NormRows,
    GatedOutputNorm,
    SplitQGate,
    AttnOutGate,
    WindowFlash,
    WindowAttention,
    WindowDecodePartial,
    QMatvec(u32),
    QMatvecH(u32),
    QMatvecAcc(u32),
    QMatmul(u32),
}

/// A kernel's parameter block, field by field in the kernel's order. The
/// rotation base and the norm's epsilon are the model's and are filled in when
/// the block is written.
#[derive(Debug, Clone, Copy, PartialEq, Eq, Hash, Structural)]
pub enum Params {
    Embed { dim: u32, n_rows: u32 },
    Matvec { in_dim: u32, out_dim: u32 },
    Qkv { in_dim: u32, q_dim: u32, kv_dim: u32, kv_off: u32 },
    QkvBatch { in_dim: u32, q_dim: u32, kv_dim: u32, max_seq: u32 },
    RopeQkBatch { head_dim: u32, n_q_heads: u32, n_kv_heads: u32, max_seq: u32, kv_dim: u32, n_rows: u32 },
    AttnDecBatch { head_dim: u32, n_heads: u32, n_kv_heads: u32, max_seq: u32, kv_dim: u32, splits_max: u32 },
    Matmul { in_dim: u32, out_dim: u32, n_rows: u32 },
    MatmulPaged { in_dim: u32, out_dim: u32, n_rows: u32, y_stride: u32 },
    Norm { dim: u32 },
    Rope { head_dim: u32, n_heads: u32, pos0: u32, n_rows: u32, rot_dim: u32 },
    RopeQk { head_dim: u32, n_q_heads: u32, n_kv_heads: u32, pos: u32, rot_dim: u32 },
    RopeQkPrefill { head_dim: u32, n_q_heads: u32, n_kv_heads: u32, pos0: u32, n_rows: u32 },
    Attn { head_dim: u32, n_heads: u32, n_kv_heads: u32, pos0: u32, max_seq: u32, n_rows: u32 },
    AttnDec { head_dim: u32, n_heads: u32, n_kv_heads: u32, pos: u32, n_splits: u32 },
    Elem { dim: u32 },
    QGSplit { head_dim: u32, n_heads: u32, n_rows: u32 },
    SsmConv { channels: u32, d_conv: u32 },
    SsmConvBatch { channels: u32, d_conv: u32, n_tokens: u32 },
    DeltaStep { d_state: u32, n_v_heads: u32, group: u32 },
}

/// What is bound at one index of a dispatch.
#[derive(Debug, Clone, Copy, PartialEq, Eq, Hash, Structural)]
pub enum Slot {
    /// A buffer from a byte offset on.
    Buf(Buf, u64),
    Params(Params),
    U32(u32),
    /// The norm's epsilon.
    Eps,
}

/// One launch of a kernel: what is bound, in order, and its geometry.
pub struct Dispatch {
    pub kernel: Kernel,
    pub slots: Vec<Slot>,
    pub groups: (u64, u64, u64),
    pub threads: u64,
    /// Group memory, in bytes per index.
    pub memory: Option<[u64; 4]>,
}

/// What a dispatch says.
pub struct DispatchView {
    pub kernel: Kernel,
    pub slots: Seq<Slot>,
    pub groups: (int, int, int),
    pub threads: int,
    pub memory: Option<Seq<u64>>,
}

impl View for Dispatch {
    type V = DispatchView;

    open spec fn view(&self) -> DispatchView {
        DispatchView {
            kernel: self.kernel,
            slots: self.slots@,
            groups: (self.groups.0 as int, self.groups.1 as int, self.groups.2 as int),
            threads: self.threads as int,
            memory: match self.memory { Some(m) => Some(m@), None => None },
        }
    }
}

/// One command of a step.
pub enum Cmd {
    /// The next dispatches belong to a phase.
    Mark(Phase, u32),
    Run(Dispatch),
    /// What follows sees everything written to these buffers before.
    Barrier(Vec<Buf>),
}

/// What a command says.
pub enum CmdView {
    Mark(Phase, u32),
    Run(DispatchView),
    Barrier(Seq<Buf>),
}

impl View for Cmd {
    type V = CmdView;

    open spec fn view(&self) -> CmdView {
        match self {
            Cmd::Mark(p, n) => CmdView::Mark(*p, *n),
            Cmd::Run(d) => CmdView::Run(d@),
            Cmd::Barrier(b) => CmdView::Barrier(b@),
        }
    }
}

/// The views of a list of commands.
pub open spec fn cmds(v: Seq<Cmd>) -> Seq<CmdView> {
    Seq::new(v.len(), |i: int| v[i]@)
}

/// Appends a command.
pub(crate) fn emit(out: &mut Vec<Cmd>, c: Cmd)
    ensures
        cmds(final(out)@) == cmds(old(out)@).push(c@),
{
    let ghost before = cmds(out@);
    let ghost cv = c@;
    out.push(c);
    assert(cmds(out@) =~= before.push(cv));
}

/// `s` with a barrier on `bufs`, where dispatches run concurrently.
pub open spec fn with_barrier(s: Seq<CmdView>, conc: bool, bufs: Seq<Buf>) -> Seq<CmdView> {
    if conc {
        s.push(CmdView::Barrier(bufs))
    } else {
        s
    }
}

/// Appends a barrier where dispatches run concurrently.
fn barrier(out: &mut Vec<Cmd>, conc: bool, bufs: Vec<Buf>)
    ensures
        cmds(final(out)@) == with_barrier(cmds(old(out)@), conc, bufs@),
{
    if conc {
        emit(out, Cmd::Barrier(bufs));
    }
}

/// A barrier on one buffer.
pub(crate) fn fence1(out: &mut Vec<Cmd>, conc: bool, a: Buf)
    ensures
        cmds(final(out)@) == with_barrier(cmds(old(out)@), conc, seq![a]),
{
    let v: Vec<Buf> = vec![a];
    assert(v@ =~= seq![a]);
    barrier(out, conc, v);
}

/// A barrier on two buffers.
pub(crate) fn fence2(out: &mut Vec<Cmd>, conc: bool, a: Buf, b: Buf)
    ensures
        cmds(final(out)@) == with_barrier(cmds(old(out)@), conc, seq![a, b]),
{
    let v: Vec<Buf> = vec![a, b];
    assert(v@ =~= seq![a, b]);
    barrier(out, conc, v);
}

/// A barrier on three buffers.
pub(crate) fn fence3(out: &mut Vec<Cmd>, conc: bool, a: Buf, b: Buf, c: Buf)
    ensures
        cmds(final(out)@) == with_barrier(cmds(old(out)@), conc, seq![a, b, c]),
{
    let v: Vec<Buf> = vec![a, b, c];
    assert(v@ =~= seq![a, b, c]);
    barrier(out, conc, v);
}

/// A barrier on four buffers.
pub(crate) fn fence4(out: &mut Vec<Cmd>, conc: bool, a: Buf, b: Buf, c: Buf, d: Buf)
    ensures
        cmds(final(out)@) == with_barrier(cmds(old(out)@), conc, seq![a, b, c, d]),
{
    let v: Vec<Buf> = vec![a, b, c, d];
    assert(v@ =~= seq![a, b, c, d]);
    barrier(out, conc, v);
}

// ---------- the model as the step sees it ----------

/// The numbers of a model and a session that a step is planned from.
#[derive(Debug, Clone, Copy, PartialEq, Eq, Structural)]
pub struct Geo {
    pub hidden: u32,
    pub inter: u32,
    pub vocab: u32,
    pub heads: u32,
    pub kv_heads: u32,
    pub head_dim: u32,
    pub q_dim: u32,
    pub kv_dim: u32,
    pub q_proj_dim: u32,
    pub rot_dim: u32,
    pub max_seq: u32,
    /// Byte offset of the session's part of a shared cache.
    pub kv_base: u64,
    pub win: Option<WindowCfg>,
}

impl Geo {
    /// How many rows a layer's cache has.
    pub open spec fn extent(self) -> int {
        match self.win {
            Some(w) => w.cap as int,
            None => self.max_seq as int,
        }
    }

    /// The widths agree with the head counts, and every byte of the cache can be
    /// addressed.
    pub open spec fn ok(self) -> bool {
        &&& 0 < self.kv_heads <= self.heads
        &&& 0 < self.head_dim
        &&& self.q_dim == self.heads * self.head_dim
        &&& self.kv_dim == self.kv_heads * self.head_dim
        &&& self.q_proj_dim == self.q_dim || self.q_proj_dim == 2 * self.q_dim
        &&& self.rot_dim <= self.head_dim
        &&& self.extent() <= u32::MAX
        &&& self.win matches Some(w) ==> w.ok()
        &&& self.kv_base + (self.extent() + 64) * self.kv_dim * 2 <= u64::MAX
    }

    /// The cache row of position `p`.
    pub open spec fn row_of(self, p: int) -> int {
        match self.win {
            Some(w) => w.slot(p),
            None => p,
        }
    }

    /// The byte offset of a cache row.
    pub open spec fn row_off(self, row: int) -> int {
        self.kv_base + row * self.kv_dim * 2
    }

    pub(crate) proof fn lemma_rows(self, row: int)
        requires
            self.ok(),
            0 <= row <= self.extent() + 64,
        ensures
            0 <= row * self.kv_dim,
            0 <= row * self.kv_dim * 2,
            self.row_off(row) <= u64::MAX,
    {
        let (e, k) = (self.extent() + 64, self.kv_dim as int);
        assert(0 <= row * k <= e * k) by (nonlinear_arith)
            requires
                0 <= row <= e,
                k >= 0,
        ;
    }

    /// The cache row of position `p`.
    pub fn cache_row(&self, p: u32) -> (r: u64)
        requires
            self.ok(),
            self.win is None ==> p <= self.max_seq,
        ensures
            r == self.row_of(p as int),
            r <= self.extent(),
    {
        match self.win {
            Some(w) => w.slot_of(p as usize) as u64,
            None => p as u64,
        }
    }

    /// The byte offset of a cache row.
    pub fn cache_off(&self, row: u64) -> (r: u64)
        requires
            self.ok(),
            row <= self.extent() + 64,
        ensures
            r == self.row_off(row as int),
    {
        proof {
            self.lemma_rows(row as int);
        }
        self.kv_base + row * self.kv_dim as u64 * 2
    }
}

// ---------- launches ----------

/// A launch with one thread per element of `n`.
pub open spec fn per_element(kernel: Kernel, slots: Seq<Slot>, n: int) -> DispatchView {
    DispatchView { kernel, slots, groups: (div_up(n, 256), 1, 1), threads: 256, memory: None }
}

/// A launch with one SIMD group per row of `rows`, four to a group.
pub open spec fn per_row(kernel: Kernel, slots: Seq<Slot>, rows: int) -> DispatchView {
    DispatchView { kernel, slots, groups: (div_up(rows, 4), 1, 1), threads: 128, memory: None }
}

/// A launch of `x` by `y` groups.
pub open spec fn in_groups(kernel: Kernel, slots: Seq<Slot>, x: int, y: int, threads: int) -> DispatchView {
    DispatchView { kernel, slots, groups: (x, y, 1), threads, memory: None }
}

pub(crate) fn run_elements(out: &mut Vec<Cmd>, kernel: Kernel, slots: Vec<Slot>, n: u64)
    ensures
        cmds(final(out)@) == cmds(old(out)@).push(CmdView::Run(per_element(kernel, slots@, n as int))),
{
    emit(out, Cmd::Run(Dispatch { kernel, slots, groups: (grid_groups(n), 1, 1), threads: 256, memory: None }));
}

pub(crate) fn run_rows(out: &mut Vec<Cmd>, kernel: Kernel, slots: Vec<Slot>, rows: u64)
    ensures
        cmds(final(out)@) == cmds(old(out)@).push(CmdView::Run(per_row(kernel, slots@, rows as int))),
{
    emit(out, Cmd::Run(Dispatch { kernel, slots, groups: (ceil_div(rows, 4), 1, 1), threads: 128, memory: None }));
}

pub(crate) fn run_groups(out: &mut Vec<Cmd>, kernel: Kernel, slots: Vec<Slot>, x: u64, y: u64, threads: u64)
    ensures
        cmds(final(out)@) == cmds(old(out)@).push(
            CmdView::Run(in_groups(kernel, slots@, x as int, y as int, threads as int)),
        ),
{
    emit(out, Cmd::Run(Dispatch { kernel, slots, groups: (x, y, 1), threads, memory: None }));
}

/// Marks the next `n` dispatches as a phase.
pub(crate) fn mark(out: &mut Vec<Cmd>, p: Phase, n: u32)
    ensures
        cmds(final(out)@) == cmds(old(out)@).push(CmdView::Mark(p, n)),
{
    emit(out, Cmd::Mark(p, n));
}

} // verus!
