//! A step of a model with quantized weights: every weight is read by the kernel
//! of its own type, and a block is a full-attention one or a linear one.
use vstd::prelude::*;

use crate::gpu::dense::{
    Step, chunk_rows, lemma_products, lemma_spans_inside, lin, lin_of, rows_are_fit, rows_fit,
    stage_v_base, v_base,
};
use crate::gpu::encode::{
    Lin, add_inplace, attention, attention_decode, enc_add_inplace, enc_attention,
    enc_attention_decode, enc_matvec, enc_qmatmul, enc_rmsnorm, enc_rmsnorm_cache,
    enc_rmsnorm_heads, enc_rope, enc_rope_cache, enc_rope_qk, enc_silu_mul, enc_to_half, matvec,
    qmatmul, rmsnorm, rmsnorm_cache, rmsnorm_heads, rope, rope_cache, rope_qk, silu_mul, to_half,
};
use crate::gpu::geometry::DEC_MAX_HD;
use crate::gpu::linear_block::{DeltaGeo, delta_block, push_delta_block};
use crate::gpu::ops::{
    Buf, Cmd, CmdView, Geo, Kernel, NormId, Params, Proj, Slot, cmds, fence1, fence2, fence4, mark,
    per_element, run_elements, with_barrier,
};
use crate::gpu::timing::{MmRole, Phase};
use crate::gpu::window::{PREFILL_CHUNK, Span, win_write_spans, write_spans};

verus! {

/// The selectors of a block's attention part, and whether its queries and keys
/// are normalised per head.
#[derive(Debug, Clone, Copy, PartialEq, Eq, Structural)]
pub enum QuantAttn {
    Full { q: u32, k: u32, v: u32, o: u32, qk_norm: bool },
    Linear { qkv: u32, z: u32, alpha: u32, beta: u32, out: u32 },
}

/// The selectors of a block's weights.
#[derive(Debug, Clone, Copy, PartialEq, Eq, Structural)]
pub struct QuantBlock {
    pub attn: QuantAttn,
    pub gate: u32,
    pub up: u32,
    pub down: u32,
}

/// What a step is planned over: the model's numbers, the widths of its linear
/// blocks where it has any, the blocks, and the head's selector.
pub struct QuantModel {
    pub geo: Geo,
    pub delta: Option<DeltaGeo>,
    pub blocks: Vec<QuantBlock>,
    pub head: u32,
}

impl QuantModel {
    pub open spec fn ok(self) -> bool {
        &&& self.geo.ok()
        &&& self.delta matches Some(d) ==> d.ok()
        &&& forall|i: int|
            0 <= i < self.blocks@.len() && #[trigger] self.blocks@[i].attn is Linear ==> self.delta is Some
    }
}

/// A step within the buffers of a session.
pub open spec fn quant_step_ok(m: QuantModel, st: Step) -> bool {
    m.ok() && rows_fit(m.geo, st)
}

/// Whether a step fits a session.
pub fn quant_step_fits(m: &QuantModel, st: &Step) -> (r: bool)
    requires
        m.ok(),
    ensures
        r == quant_step_ok(*m, *st),
{
    rows_are_fit(&m.geo, st)
}

/// One token takes the fused kernels where its heads fit the decode attention.
pub open spec fn quant_fused(g: Geo, n: u32) -> bool {
    n == 1 && g.head_dim <= DEC_MAX_HD && g.head_dim % 4 == 0
}

/// The query projection also yields an output gate.
pub open spec fn joint(g: Geo) -> bool {
    g.q_proj_dim != g.q_dim
}

/// Where the queries are once the output gate is split off.
pub open spec fn query_buf(g: Geo) -> Buf {
    if joint(g) {
        Buf::QSplit
    } else {
        Buf::Q
    }
}

/// The dispatches of a gate kernel: none where there is no gate.
pub open spec fn gate_count(g: Geo) -> u32 {
    if joint(g) {
        1
    } else {
        0
    }
}

/// A quantized weight: a linear block's projections, or one of `lin_of`.
pub open spec fn quant_lin(g: Geo, d: DeltaGeo, layer: usize, proj: Proj) -> Lin {
    match proj {
        Proj::DnQkv => Lin { layer, proj, has_bias: false, in_dim: g.hidden, out_dim: d.channels },
        Proj::DnZ => Lin { layer, proj, has_bias: false, in_dim: g.hidden, out_dim: d.inner },
        Proj::DnOut => Lin { layer, proj, has_bias: false, in_dim: d.inner, out_dim: g.hidden },
        Proj::DnAlpha | Proj::DnBeta => Lin { layer, proj, has_bias: false, in_dim: g.hidden, out_dim: d.n_v_heads },
        _ => lin_of(g, layer, proj, false),
    }
}

/// The part of a block that a projection belongs to.
pub open spec fn role_of(proj: Proj) -> MmRole {
    match proj {
        Proj::Q | Proj::K | Proj::V | Proj::O => MmRole::Attn,
        Proj::Gate | Proj::Up | Proj::Down => MmRole::Mlp,
        Proj::Head => MmRole::Head,
        _ => MmRole::Dn,
    }
}

/// One row through a weight, timed as its role.
pub open spec fn qmv(s: Seq<CmdView>, kernel: Kernel, sel: u32, l: Lin, x: Buf, y: Buf, y_off: u64) -> Seq<CmdView> {
    matvec(s.push(CmdView::Mark(Phase::Mm(role_of(l.proj), sel), 1)), kernel, l, x, 0, y, y_off)
}

/// `n` rows through a weight, timed as its role.
pub open spec fn qmm(s: Seq<CmdView>, sel: u32, l: Lin, x: Buf, x_off: u64, y: Buf, y_off: u64, n: u32) -> Seq<CmdView> {
    qmatmul(s.push(CmdView::Mark(Phase::Mm(role_of(l.proj), sel), 1)), sel, l, x, x_off, y, y_off, n)
}

/// A norm over the hidden rows, timed as one.
pub open spec fn marked_norm(s: Seq<CmdView>, g: Geo, weight: Buf, n: u32) -> Seq<CmdView> {
    rmsnorm(s.push(CmdView::Mark(Phase::Norm, 1)), g, Buf::X, weight, Buf::Xn, n)
}

/// Splits the joint projection into queries and gate. The output gate's last reader
/// is in an earlier layer, so the barrier stands before the write too.
pub open spec fn split_gate(s: Seq<CmdView>, g: Geo, n: u32, conc: bool) -> Seq<CmdView> {
    let s = s.push(CmdView::Mark(Phase::Attn, gate_count(g)));
    if !joint(g) {
        s
    } else {
        let s = with_barrier(s, conc, seq![Buf::QSplit, Buf::QGate]);
        let s = s.push(CmdView::Run(per_element(
            Kernel::SplitQGate,
            seq![
                Slot::Buf(Buf::Q, 0),
                Slot::Buf(Buf::QSplit, 0),
                Slot::Buf(Buf::QGate, 0),
                Slot::Params(Params::QGSplit { head_dim: g.head_dim, n_heads: g.heads, n_rows: n }),
            ],
            n * g.q_dim,
        )));
        with_barrier(s, conc, seq![Buf::QSplit, Buf::QGate])
    }
}

/// Applies the output gate to the attention's output.
pub open spec fn apply_gate(s: Seq<CmdView>, g: Geo, n: u32, conc: bool) -> Seq<CmdView> {
    let s = s.push(CmdView::Mark(Phase::Attn, gate_count(g)));
    if !joint(g) {
        s
    } else {
        let s = s.push(CmdView::Run(per_element(
            Kernel::AttnOutGate,
            seq![Slot::Buf(Buf::Att, 0), Slot::Buf(Buf::QGate, 0), Slot::U32((n * g.q_dim) as u32)],
            n * g.q_dim,
        )));
        with_barrier(s, conc, seq![Buf::Att])
    }
}

// ---------- a fused decode layer ----------

/// The full-attention part of a fused decode layer.
pub open spec fn decode_full(
    s: Seq<CmdView>,
    g: Geo,
    l: usize,
    pos: u32,
    q: u32,
    k: u32,
    v: u32,
    o: u32,
    qk_norm: bool,
) -> Seq<CmdView> {
    let off = g.row_off(g.row_of(pos as int)) as u64;
    let qb = query_buf(g);
    let s = qmv(s, Kernel::QMatvec(q), q, lin_of(g, l, Proj::Q, false), Buf::Xn, Buf::Q, 0);
    let s = split_gate(s, g, 1, false);
    let s = qmv(s, Kernel::QMatvecH(k), k, lin_of(g, l, Proj::K, false), Buf::Xn, Buf::KCache(l), off);
    let s = qmv(s, Kernel::QMatvecH(v), v, lin_of(g, l, Proj::V, false), Buf::Xn, Buf::VCache(l), off);
    let s = if qk_norm {
        let s = s.push(CmdView::Mark(Phase::Norm, 1));
        let s = rmsnorm_heads(s, qb, Buf::Norm(l, NormId::QHead), g.heads as u64, g.head_dim);
        let s = s.push(CmdView::Mark(Phase::Norm, 1));
        rmsnorm_cache(s, Buf::KCache(l), off, Buf::Norm(l, NormId::KHead), g.kv_heads as u64, g.head_dim)
    } else {
        s
    };
    let s = rope_qk(s.push(CmdView::Mark(Phase::Rope, 1)), g, qb, Buf::KCache(l), off, pos);
    let s = attention_decode(s.push(CmdView::Mark(Phase::Attn, 2)), g, qb, l, pos);
    let s = apply_gate(s, g, 1, false);
    qmv(s, Kernel::QMatvecAcc(o), o, lin_of(g, l, Proj::O, false), Buf::Att, Buf::X, 0)
}

/// The linear part of a fused decode layer.
pub open spec fn decode_linear(
    s: Seq<CmdView>,
    g: Geo,
    d: DeltaGeo,
    l: usize,
    qkv: u32,
    z: u32,
    alpha: u32,
    beta: u32,
    out: u32,
) -> Seq<CmdView> {
    let s = qmv(s, Kernel::QMatvec(qkv), qkv, quant_lin(g, d, l, Proj::DnQkv), Buf::Xn, Buf::DnQkv, 0);
    let s = qmv(s, Kernel::QMatvec(z), z, quant_lin(g, d, l, Proj::DnZ), Buf::Xn, Buf::DnZ, 0);
    let s = qmv(s, Kernel::QMatvec(alpha), alpha, quant_lin(g, d, l, Proj::DnAlpha), Buf::Xn, Buf::DnAlpha, 0);
    let s = qmv(s, Kernel::QMatvec(beta), beta, quant_lin(g, d, l, Proj::DnBeta), Buf::Xn, Buf::DnBetaP, 0);
    let s = delta_block(s.push(CmdView::Mark(Phase::Delta, 6)), d, l, 1, false);
    qmv(s, Kernel::QMatvecAcc(out), out, quant_lin(g, d, l, Proj::DnOut), Buf::DnOut, Buf::X, 0)
}

/// The attention part of a fused decode layer.
pub open spec fn quant_decode_attn(s: Seq<CmdView>, g: Geo, d: Option<DeltaGeo>, a: QuantAttn, l: usize, pos: u32) -> Seq<
    CmdView,
> {
    match a {
        QuantAttn::Linear { qkv, z, alpha, beta, out } => decode_linear(s, g, d->0, l, qkv, z, alpha, beta, out),
        QuantAttn::Full { q, k, v, o, qk_norm } => decode_full(s, g, l, pos, q, k, v, o, qk_norm),
    }
}

/// A fused decode layer. Gate and up may differ in type, so they run apart.
pub open spec fn quant_decode_layer(s: Seq<CmdView>, g: Geo, d: Option<DeltaGeo>, b: QuantBlock, l: usize, pos: u32) -> Seq<
    CmdView,
> {
    let s = marked_norm(s, g, Buf::Norm(l, NormId::Input), 1);
    let s = quant_decode_attn(s, g, d, b.attn, l, pos);
    let s = marked_norm(s, g, Buf::Norm(l, NormId::Post), 1);
    let s = qmv(s, Kernel::QMatvec(b.gate), b.gate, lin_of(g, l, Proj::Gate, false), Buf::Xn, Buf::Gate, 0);
    let s = qmv(s, Kernel::QMatvec(b.up), b.up, lin_of(g, l, Proj::Up, false), Buf::Xn, Buf::Up, 0);
    let s = silu_mul(s.push(CmdView::Mark(Phase::Elem, 1)), Buf::Gate, Buf::Up, g.inter as u64);
    qmv(s, Kernel::QMatvecAcc(b.down), b.down, lin_of(g, l, Proj::Down, false), Buf::Gate, Buf::X, 0)
}

// ---------- a prefill layer ----------

/// Moves the staged keys and values of one span into the cache, and rotates the
/// keys there by their true positions.
pub open spec fn quant_stage_span(s: Seq<CmdView>, g: Geo, l: usize, pos0: u32, sp: Span) -> Seq<CmdView> {
    let src = (sp.row * g.kv_dim * 4) as u64;
    let dst = g.row_off(sp.slot as int) as u64;
    let dim = (sp.len * g.kv_dim) as u64;
    let s = to_half(s.push(CmdView::Mark(Phase::KvStage, 1)), Buf::Kvs, src, Buf::KCache(l), dst, dim);
    let s = to_half(
        s.push(CmdView::Mark(Phase::KvStage, 1)),
        Buf::Kvs,
        (v_base(g) + src) as u64,
        Buf::VCache(l),
        dst,
        dim,
    );
    let s = with_barrier(s, true, seq![Buf::KCache(l)]);
    rope_cache(
        s.push(CmdView::Mark(Phase::Rope, 1)),
        g,
        Buf::KCache(l),
        dst,
        g.kv_heads,
        (pos0 + sp.row) as u32,
        sp.len as u32,
        g.rot_dim,
        g.head_dim,
    )
}

/// The first `k` spans.
pub open spec fn quant_stage_spans(s: Seq<CmdView>, g: Geo, l: usize, pos0: u32, spans: Seq<Span>, k: nat) -> Seq<CmdView>
    decreases k,
{
    if k == 0 {
        s
    } else {
        quant_stage_span(quant_stage_spans(s, g, l, pos0, spans, (k - 1) as nat), g, l, pos0, spans[k - 1])
    }
}

/// Where the rows of a chunk go: through the ring, or in one piece.
pub open spec fn chunk_spans(g: Geo, pos0: int, n: int) -> Seq<Span> {
    match g.win {
        Some(w) => write_spans(w, pos0, n),
        None => seq![Span { row: 0, slot: pos0 as usize, len: n as usize }],
    }
}

/// The projections of a full-attention prefill layer, and its head norms. What
/// is normalised is the query buffer after the split.
pub open spec fn prefill_projections(
    s: Seq<CmdView>,
    g: Geo,
    l: usize,
    n: u32,
    q: u32,
    k: u32,
    v: u32,
    qk_norm: bool,
) -> Seq<CmdView> {
    let s = qmm(s, q, lin_of(g, l, Proj::Q, false), Buf::Xn, 0, Buf::Q, 0, n);
    let s = qmm(s, k, lin_of(g, l, Proj::K, false), Buf::Xn, 0, Buf::Kvs, 0, n);
    let s = qmm(s, v, lin_of(g, l, Proj::V, false), Buf::Xn, 0, Buf::Kvs, v_base(g) as u64, n);
    let s = with_barrier(s, true, seq![Buf::Q, Buf::Kvs]);
    let s = split_gate(s, g, n, true);
    if qk_norm {
        let s = s.push(CmdView::Mark(Phase::Norm, 1));
        let s = rmsnorm_heads(s, query_buf(g), Buf::Norm(l, NormId::QHead), (n * g.heads) as u64, g.head_dim);
        let s = s.push(CmdView::Mark(Phase::Norm, 1));
        let s = rmsnorm_heads(s, Buf::Kvs, Buf::Norm(l, NormId::KHead), (n * g.kv_heads) as u64, g.head_dim);
        with_barrier(s, true, seq![query_buf(g), Buf::Kvs])
    } else {
        s
    }
}

/// Adds the block's output to the residual.
pub open spec fn add_residual(s: Seq<CmdView>, g: Geo, n: u32) -> Seq<CmdView> {
    let s = with_barrier(s, true, seq![Buf::Xb]);
    let s = add_inplace(s.push(CmdView::Mark(Phase::Elem, 1)), Buf::X, Buf::Xb, (n * g.hidden) as u64);
    with_barrier(s, true, seq![Buf::X])
}

/// The full-attention part of a prefill layer.
pub open spec fn prefill_full(
    s: Seq<CmdView>,
    g: Geo,
    l: usize,
    pos0: u32,
    n: u32,
    q: u32,
    k: u32,
    v: u32,
    o: u32,
    qk_norm: bool,
) -> Seq<CmdView> {
    let qb = query_buf(g);
    let s = prefill_projections(s, g, l, n, q, k, v, qk_norm);
    let s = rope(s.push(CmdView::Mark(Phase::Rope, 1)), g, qb, g.heads, pos0, n, g.rot_dim);
    let spans = chunk_spans(g, pos0 as int, n as int);
    let s = quant_stage_spans(s, g, l, pos0, spans, spans.len());
    let s = with_barrier(s, true, seq![qb, Buf::KCache(l), Buf::VCache(l), Buf::Kvs]);
    let s = attention(s.push(CmdView::Mark(Phase::Attn, 1)), g, qb, l, pos0, n);
    let s = with_barrier(s, true, seq![Buf::Att, Buf::Scores]);
    let s = apply_gate(s, g, n, true);
    let s = qmm(s, o, lin_of(g, l, Proj::O, false), Buf::Att, 0, Buf::Xb, 0, n);
    add_residual(s, g, n)
}

/// The linear part of a prefill layer.
pub open spec fn prefill_linear(
    s: Seq<CmdView>,
    g: Geo,
    d: DeltaGeo,
    l: usize,
    n: u32,
    qkv: u32,
    z: u32,
    alpha: u32,
    beta: u32,
    out: u32,
) -> Seq<CmdView> {
    let s = qmm(s, qkv, quant_lin(g, d, l, Proj::DnQkv), Buf::Xn, 0, Buf::DnQkv, 0, n);
    let s = qmm(s, z, quant_lin(g, d, l, Proj::DnZ), Buf::Xn, 0, Buf::DnZ, 0, n);
    let s = qmm(s, alpha, quant_lin(g, d, l, Proj::DnAlpha), Buf::Xn, 0, Buf::DnAlpha, 0, n);
    let s = qmm(s, beta, quant_lin(g, d, l, Proj::DnBeta), Buf::Xn, 0, Buf::DnBetaP, 0, n);
    let s = with_barrier(s, true, seq![Buf::DnQkv, Buf::DnZ, Buf::DnAlpha, Buf::DnBetaP]);
    let s = delta_block(s.push(CmdView::Mark(Phase::Delta, (6 * n) as u32)), d, l, n, true);
    let s = with_barrier(s, true, seq![Buf::DnOut]);
    let s = qmm(s, out, quant_lin(g, d, l, Proj::DnOut), Buf::DnOut, 0, Buf::Xb, 0, n);
    add_residual(s, g, n)
}

/// The attention part of a prefill layer.
pub open spec fn quant_prefill_attn(
    s: Seq<CmdView>,
    g: Geo,
    d: Option<DeltaGeo>,
    a: QuantAttn,
    l: usize,
    pos0: u32,
    n: u32,
) -> Seq<CmdView> {
    match a {
        QuantAttn::Linear { qkv, z, alpha, beta, out } => prefill_linear(
            s,
            g,
            d->0,
            l,
            n,
            qkv,
            z,
            alpha,
            beta,
            out,
        ),
        QuantAttn::Full { q, k, v, o, qk_norm } => prefill_full(s, g, l, pos0, n, q, k, v, o, qk_norm),
    }
}

/// A prefill layer.
pub open spec fn quant_prefill_layer(
    s: Seq<CmdView>,
    g: Geo,
    d: Option<DeltaGeo>,
    b: QuantBlock,
    l: usize,
    pos0: u32,
    n: u32,
) -> Seq<CmdView> {
    let s = with_barrier(marked_norm(s, g, Buf::Norm(l, NormId::Input), n), true, seq![Buf::Xn]);
    let s = quant_prefill_attn(s, g, d, b.attn, l, pos0, n);
    let s = with_barrier(marked_norm(s, g, Buf::Norm(l, NormId::Post), n), true, seq![Buf::Xn]);
    let s = qmm(s, b.gate, lin_of(g, l, Proj::Gate, false), Buf::Xn, 0, Buf::Gate, 0, n);
    let s = qmm(s, b.up, lin_of(g, l, Proj::Up, false), Buf::Xn, 0, Buf::Up, 0, n);
    let s = with_barrier(s, true, seq![Buf::Gate, Buf::Up]);
    let s = silu_mul(s.push(CmdView::Mark(Phase::Elem, 1)), Buf::Gate, Buf::Up, (n * g.inter) as u64);
    let s = with_barrier(s, true, seq![Buf::Gate]);
    let s = qmm(s, b.down, lin_of(g, l, Proj::Down, false), Buf::Gate, 0, Buf::Xb, 0, n);
    add_residual(s, g, n)
}

// ---------- a whole step ----------

/// One layer of a step.
#[verifier::opaque]
pub open spec fn quant_layer(s: Seq<CmdView>, m: QuantModel, st: Step, l: usize) -> Seq<CmdView> {
    let b = m.blocks@[l as int];
    if quant_fused(m.geo, st.n) {
        quant_decode_layer(s, m.geo, m.delta, b, l, st.pos0)
    } else {
        quant_prefill_layer(s, m.geo, m.delta, b, l, st.pos0, st.n)
    }
}

/// The layers from `layer0` up to `k`.
pub open spec fn quant_layers(s: Seq<CmdView>, m: QuantModel, st: Step, k: int) -> Seq<CmdView>
    decreases k - st.layer0,
{
    if k <= st.layer0 {
        s
    } else {
        quant_layer(quant_layers(s, m, st, k - 1), m, st, (k - 1) as usize)
    }
}

/// The last norm, and the head over the rows whose logits are wanted.
pub open spec fn quant_head(s: Seq<CmdView>, m: QuantModel, st: Step) -> Seq<CmdView> {
    let g = m.geo;
    let layers = m.blocks@.len() as usize;
    let conc = !quant_fused(g, st.n);
    if st.logits_rows == 0 {
        s
    } else {
        let s = with_barrier(marked_norm(s, g, Buf::Norm(layers, NormId::Final), st.n), conc, seq![Buf::Xn]);
        let l = lin_of(g, layers, Proj::Head, false);
        if st.logits_rows == 1 && !conc {
            qmv(s, Kernel::QMatvec(m.head), m.head, l, Buf::Xn, Buf::Logits, 0)
        } else {
            let first = ((st.n - st.logits_rows) * g.hidden * 4) as u64;
            qmm(s, m.head, l, Buf::Xn, first, Buf::Logits, 0, st.logits_rows)
        }
    }
}

/// The commands of a step. The hidden rows are in place before it: rows of the
/// embedding are read on the host.
pub open spec fn quant_step(m: QuantModel, st: Step) -> Seq<CmdView> {
    quant_head(quant_layers(Seq::empty(), m, st, m.blocks@.len() as int), m, st)
}

// ---------- planning ----------

fn has_gate(g: &Geo) -> (r: bool)
    ensures
        r == joint(*g),
{
    g.q_proj_dim != g.q_dim
}

fn queries(g: &Geo) -> (r: Buf)
    ensures
        r == query_buf(*g),
{
    if has_gate(g) {
        Buf::QSplit
    } else {
        Buf::Q
    }
}

fn role(proj: Proj) -> (r: MmRole)
    ensures
        r == role_of(proj),
{
    match proj {
        Proj::Q | Proj::K | Proj::V | Proj::O => MmRole::Attn,
        Proj::Gate | Proj::Up | Proj::Down => MmRole::Mlp,
        Proj::Head => MmRole::Head,
        _ => MmRole::Dn,
    }
}

fn qlin(g: &Geo, d: &DeltaGeo, layer: usize, proj: Proj) -> (r: Lin)
    ensures
        r == quant_lin(*g, *d, layer, proj),
{
    match proj {
        Proj::DnQkv => Lin { layer, proj, has_bias: false, in_dim: g.hidden, out_dim: d.channels },
        Proj::DnZ => Lin { layer, proj, has_bias: false, in_dim: g.hidden, out_dim: d.inner },
        Proj::DnOut => Lin { layer, proj, has_bias: false, in_dim: d.inner, out_dim: g.hidden },
        Proj::DnAlpha | Proj::DnBeta => Lin { layer, proj, has_bias: false, in_dim: g.hidden, out_dim: d.n_v_heads },
        _ => lin(g, layer, proj, false),
    }
}

fn push_qmv(out: &mut Vec<Cmd>, kernel: Kernel, sel: u32, l: Lin, x: Buf, y: Buf, y_off: u64)
    ensures
        cmds(final(out)@) == qmv(cmds(old(out)@), kernel, sel, l, x, y, y_off),
{
    mark(out, Phase::Mm(role(l.proj), sel), 1);
    enc_matvec(out, kernel, l, x, 0, y, y_off);
}

fn push_qmm(out: &mut Vec<Cmd>, sel: u32, l: Lin, x: Buf, x_off: u64, y: Buf, y_off: u64, n: u32)
    ensures
        cmds(final(out)@) == qmm(cmds(old(out)@), sel, l, x, x_off, y, y_off, n),
{
    mark(out, Phase::Mm(role(l.proj), sel), 1);
    enc_qmatmul(out, sel, l, x, x_off, y, y_off, n);
}

fn push_norm(out: &mut Vec<Cmd>, g: &Geo, weight: Buf, n: u32)
    ensures
        cmds(final(out)@) == marked_norm(cmds(old(out)@), *g, weight, n),
{
    mark(out, Phase::Norm, 1);
    enc_rmsnorm(out, g, Buf::X, weight, Buf::Xn, n);
}

fn push_split_gate(out: &mut Vec<Cmd>, g: &Geo, n: u32, conc: bool)
    requires
        n * g.q_dim <= u32::MAX,
    ensures
        cmds(final(out)@) == split_gate(cmds(old(out)@), *g, n, conc),
{
    let gated = has_gate(g);
    mark(out, Phase::Attn, if gated { 1 } else { 0 });
    if gated {
        fence2(out, conc, Buf::QSplit, Buf::QGate);
        let p = Params::QGSplit { head_dim: g.head_dim, n_heads: g.heads, n_rows: n };
        let slots: Vec<Slot> = vec![
            Slot::Buf(Buf::Q, 0),
            Slot::Buf(Buf::QSplit, 0),
            Slot::Buf(Buf::QGate, 0),
            Slot::Params(p),
        ];
        assert(slots@ =~= seq![
            Slot::Buf(Buf::Q, 0),
            Slot::Buf(Buf::QSplit, 0),
            Slot::Buf(Buf::QGate, 0),
            Slot::Params(p),
        ]);
        run_elements(out, Kernel::SplitQGate, slots, n as u64 * g.q_dim as u64);
        fence2(out, conc, Buf::QSplit, Buf::QGate);
    }
}

fn push_apply_gate(out: &mut Vec<Cmd>, g: &Geo, n: u32, conc: bool)
    requires
        n * g.q_dim <= u32::MAX,
    ensures
        cmds(final(out)@) == apply_gate(cmds(old(out)@), *g, n, conc),
{
    let gated = has_gate(g);
    mark(out, Phase::Attn, if gated { 1 } else { 0 });
    if gated {
        let count: u32 = n * g.q_dim;
        let slots: Vec<Slot> = vec![Slot::Buf(Buf::Att, 0), Slot::Buf(Buf::QGate, 0), Slot::U32(count)];
        assert(slots@ =~= seq![Slot::Buf(Buf::Att, 0), Slot::Buf(Buf::QGate, 0), Slot::U32(count)]);
        run_elements(out, Kernel::AttnOutGate, slots, count as u64);
        fence1(out, conc, Buf::Att);
    }
}

fn push_decode_full(
    out: &mut Vec<Cmd>,
    g: &Geo,
    l: usize,
    pos: u32,
    q: u32,
    k: u32,
    v: u32,
    o: u32,
    qk_norm: bool,
)
    requires
        g.ok(),
        g.win is None ==> pos < g.max_seq,
    ensures
        cmds(final(out)@) == decode_full(cmds(old(out)@), *g, l, pos, q, k, v, o, qk_norm),
{
    let off: u64 = g.cache_off(g.cache_row(pos));
    let qb = queries(g);
    proof {
        lemma_products(*g, 1);
    }
    push_qmv(out, Kernel::QMatvec(q), q, lin(g, l, Proj::Q, false), Buf::Xn, Buf::Q, 0);
    push_split_gate(out, g, 1, false);
    push_qmv(out, Kernel::QMatvecH(k), k, lin(g, l, Proj::K, false), Buf::Xn, Buf::KCache(l), off);
    push_qmv(out, Kernel::QMatvecH(v), v, lin(g, l, Proj::V, false), Buf::Xn, Buf::VCache(l), off);
    if qk_norm {
        mark(out, Phase::Norm, 1);
        enc_rmsnorm_heads(out, qb, Buf::Norm(l, NormId::QHead), g.heads as u64, g.head_dim);
        mark(out, Phase::Norm, 1);
        enc_rmsnorm_cache(out, Buf::KCache(l), off, Buf::Norm(l, NormId::KHead), g.kv_heads as u64, g.head_dim);
    }
    mark(out, Phase::Rope, 1);
    enc_rope_qk(out, g, qb, Buf::KCache(l), off, pos);
    mark(out, Phase::Attn, 2);
    enc_attention_decode(out, g, qb, l, pos);
    push_apply_gate(out, g, 1, false);
    push_qmv(out, Kernel::QMatvecAcc(o), o, lin(g, l, Proj::O, false), Buf::Att, Buf::X, 0);
}

fn push_decode_linear(
    out: &mut Vec<Cmd>,
    g: &Geo,
    d: &DeltaGeo,
    l: usize,
    qkv: u32,
    z: u32,
    alpha: u32,
    beta: u32,
    sel_out: u32,
)
    requires
        d.ok(),
    ensures
        cmds(final(out)@) == decode_linear(cmds(old(out)@), *g, *d, l, qkv, z, alpha, beta, sel_out),
{
    push_qmv(out, Kernel::QMatvec(qkv), qkv, qlin(g, d, l, Proj::DnQkv), Buf::Xn, Buf::DnQkv, 0);
    push_qmv(out, Kernel::QMatvec(z), z, qlin(g, d, l, Proj::DnZ), Buf::Xn, Buf::DnZ, 0);
    push_qmv(out, Kernel::QMatvec(alpha), alpha, qlin(g, d, l, Proj::DnAlpha), Buf::Xn, Buf::DnAlpha, 0);
    push_qmv(out, Kernel::QMatvec(beta), beta, qlin(g, d, l, Proj::DnBeta), Buf::Xn, Buf::DnBetaP, 0);
    mark(out, Phase::Delta, 6);
    push_delta_block(out, d, l, 1, false);
    push_qmv(out, Kernel::QMatvecAcc(sel_out), sel_out, qlin(g, d, l, Proj::DnOut), Buf::DnOut, Buf::X, 0);
}

fn push_quant_decode_layer(out: &mut Vec<Cmd>, g: &Geo, d: &Option<DeltaGeo>, b: &QuantBlock, l: usize, pos: u32)
    requires
        g.ok(),
        g.win is None ==> pos < g.max_seq,
        d matches Some(x) ==> x.ok(),
        b.attn is Linear ==> d is Some,
    ensures
        cmds(final(out)@) == quant_decode_layer(cmds(old(out)@), *g, *d, *b, l, pos),
{
    push_norm(out, g, Buf::Norm(l, NormId::Input), 1);
    match (b.attn, d) {
        (QuantAttn::Linear { qkv, z, alpha, beta, out: o }, Some(x)) => push_decode_linear(
            out,
            g,
            x,
            l,
            qkv,
            z,
            alpha,
            beta,
            o,
        ),
        (QuantAttn::Full { q, k, v, o, qk_norm }, _) => push_decode_full(out, g, l, pos, q, k, v, o, qk_norm),
        _ => {},
    }
    push_norm(out, g, Buf::Norm(l, NormId::Post), 1);
    push_qmv(out, Kernel::QMatvec(b.gate), b.gate, lin(g, l, Proj::Gate, false), Buf::Xn, Buf::Gate, 0);
    push_qmv(out, Kernel::QMatvec(b.up), b.up, lin(g, l, Proj::Up, false), Buf::Xn, Buf::Up, 0);
    mark(out, Phase::Elem, 1);
    enc_silu_mul(out, Buf::Gate, Buf::Up, g.inter as u64);
    push_qmv(out, Kernel::QMatvecAcc(b.down), b.down, lin(g, l, Proj::Down, false), Buf::Gate, Buf::X, 0);
}

fn push_quant_stage_span(out: &mut Vec<Cmd>, g: &Geo, l: usize, pos0: u32, sp: Span)
    requires
        g.ok(),
        sp.row + sp.len <= PREFILL_CHUNK,
        sp.slot + sp.len <= g.extent(),
        sp.len * g.kv_dim <= u32::MAX,
        pos0 + sp.row <= u32::MAX,
    ensures
        cmds(final(out)@) == quant_stage_span(cmds(old(out)@), *g, l, pos0, sp),
{
    proof {
        lemma_products(*g, sp.len as u32);
        let k = g.kv_dim as int;
        assert(0 <= sp.row * k <= 512 * 0xFFFF_FFFF) by (nonlinear_arith)
            requires
                0 <= sp.row <= 512,
                0 <= k <= 0xFFFF_FFFF,
        ;
        assert(0 <= v_base(*g) <= 512 * 0xFFFF_FFFF * 4) by (nonlinear_arith)
            requires
                v_base(*g) == chunk_rows(*g) * g.kv_dim * 4,
                0 <= chunk_rows(*g) <= 512,
                0 <= g.kv_dim <= 0xFFFF_FFFF,
        ;
        assert(sp.len * k >= 0) by (nonlinear_arith)
            requires
                k >= 0,
        ;
    }
    let src: u64 = sp.row as u64 * g.kv_dim as u64 * 4;
    let dst: u64 = g.cache_off(sp.slot as u64);
    let dim: u64 = sp.len as u64 * g.kv_dim as u64;
    mark(out, Phase::KvStage, 1);
    enc_to_half(out, Buf::Kvs, src, Buf::KCache(l), dst, dim);
    mark(out, Phase::KvStage, 1);
    enc_to_half(out, Buf::Kvs, stage_v_base(g) + src, Buf::VCache(l), dst, dim);
    fence1(out, true, Buf::KCache(l));
    mark(out, Phase::Rope, 1);
    enc_rope_cache(
        out,
        g,
        Buf::KCache(l),
        dst,
        g.kv_heads,
        pos0 + sp.row as u32,
        sp.len as u32,
        g.rot_dim,
        g.head_dim,
    );
}

/// Where the rows of a chunk go in the cache.
pub fn spans_of_chunk(g: &Geo, pos0: u32, n: u32) -> (r: Vec<Span>)
    requires
        g.ok(),
        1 <= n <= PREFILL_CHUNK,
        pos0 + n <= u32::MAX,
        g.win is None ==> pos0 + n <= g.max_seq,
    ensures
        r@ == chunk_spans(*g, pos0 as int, n as int),
        forall|i: int| 0 <= i < r@.len() ==> (#[trigger] r@[i]).row + r@[i].len <= n,
        forall|i: int| 0 <= i < r@.len() ==> (#[trigger] r@[i]).slot + r@[i].len <= g.extent(),
{
    match g.win {
        Some(w) => {
            let spans = win_write_spans(&w, pos0 as usize, n as usize);
            assert forall|i: int| 0 <= i < spans@.len() implies (#[trigger] spans@[i]).row + spans@[i].len <= n
                && spans@[i].slot + spans@[i].len <= g.extent() by {
                lemma_spans_inside(w, pos0 as int, n as int, i);
            }
            spans
        },
        None => {
            let only = Span { row: 0, slot: pos0 as usize, len: n as usize };
            let spans: Vec<Span> = vec![only];
            assert(spans@ =~= seq![only]);
            spans
        },
    }
}

fn push_projections(out: &mut Vec<Cmd>, g: &Geo, l: usize, n: u32, q: u32, k: u32, v: u32, qk_norm: bool)
    requires
        g.ok(),
        n <= PREFILL_CHUNK,
        n * g.q_dim <= u32::MAX,
    ensures
        cmds(final(out)@) == prefill_projections(cmds(old(out)@), *g, l, n, q, k, v, qk_norm),
{
    proof {
        lemma_products(*g, n);
    }
    push_qmm(out, q, lin(g, l, Proj::Q, false), Buf::Xn, 0, Buf::Q, 0, n);
    push_qmm(out, k, lin(g, l, Proj::K, false), Buf::Xn, 0, Buf::Kvs, 0, n);
    push_qmm(out, v, lin(g, l, Proj::V, false), Buf::Xn, 0, Buf::Kvs, stage_v_base(g), n);
    fence2(out, true, Buf::Q, Buf::Kvs);
    push_split_gate(out, g, n, true);
    if qk_norm {
        let qb = queries(g);
        mark(out, Phase::Norm, 1);
        enc_rmsnorm_heads(out, qb, Buf::Norm(l, NormId::QHead), n as u64 * g.heads as u64, g.head_dim);
        mark(out, Phase::Norm, 1);
        enc_rmsnorm_heads(out, Buf::Kvs, Buf::Norm(l, NormId::KHead), n as u64 * g.kv_heads as u64, g.head_dim);
        fence2(out, true, qb, Buf::Kvs);
    }
}

fn push_residual(out: &mut Vec<Cmd>, g: &Geo, n: u32)
    requires
        n * g.hidden <= u32::MAX,
    ensures
        cmds(final(out)@) == add_residual(cmds(old(out)@), *g, n),
{
    fence1(out, true, Buf::Xb);
    mark(out, Phase::Elem, 1);
    enc_add_inplace(out, Buf::X, Buf::Xb, n as u64 * g.hidden as u64);
    fence1(out, true, Buf::X);
}

fn push_staged(out: &mut Vec<Cmd>, g: &Geo, l: usize, pos0: u32, n: u32)
    requires
        g.ok(),
        1 <= n <= PREFILL_CHUNK,
        pos0 + n <= u32::MAX,
        g.win is None ==> pos0 + n <= g.max_seq,
        n * g.kv_dim <= u32::MAX,
    ensures
        cmds(final(out)@) == ({
            let spans = chunk_spans(*g, pos0 as int, n as int);
            quant_stage_spans(cmds(old(out)@), *g, l, pos0, spans, spans.len())
        }),
{
    let spans = spans_of_chunk(g, pos0, n);
    let ghost before = cmds(out@);
    let mut k: usize = 0;
    while k < spans.len()
        invariant
            g.ok(),
            1 <= n <= PREFILL_CHUNK,
            pos0 + n <= u32::MAX,
            n * g.kv_dim <= u32::MAX,
            forall|i: int| 0 <= i < spans@.len() ==> (#[trigger] spans@[i]).row + spans@[i].len <= n,
            forall|i: int| 0 <= i < spans@.len() ==> (#[trigger] spans@[i]).slot + spans@[i].len <= g.extent(),
            k <= spans@.len(),
            cmds(out@) == quant_stage_spans(before, *g, l, pos0, spans@, k as nat),
        decreases spans.len() - k,
    {
        proof {
            let (a, m, d) = (spans@[k as int].len as int, n as int, g.kv_dim as int);
            assert(a * d <= m * d) by (nonlinear_arith)
                requires
                    0 <= a <= m,
                    d >= 0,
            ;
        }
        push_quant_stage_span(out, g, l, pos0, spans[k]);
        k = k + 1;
    }
}

fn push_prefill_full(
    out: &mut Vec<Cmd>,
    g: &Geo,
    l: usize,
    pos0: u32,
    n: u32,
    q: u32,
    k: u32,
    v: u32,
    o: u32,
    qk_norm: bool,
)
    requires
        g.ok(),
        1 <= n <= PREFILL_CHUNK,
        pos0 + n <= u32::MAX,
        g.win is None ==> pos0 + n <= g.max_seq,
        n * g.hidden <= u32::MAX,
        n * g.q_dim <= u32::MAX,
        n * g.kv_dim <= u32::MAX,
    ensures
        cmds(final(out)@) == prefill_full(cmds(old(out)@), *g, l, pos0, n, q, k, v, o, qk_norm),
{
    proof {
        lemma_products(*g, n);
    }
    let qb = queries(g);
    push_projections(out, g, l, n, q, k, v, qk_norm);
    mark(out, Phase::Rope, 1);
    enc_rope(out, g, qb, g.heads, pos0, n, g.rot_dim);
    push_staged(out, g, l, pos0, n);
    fence4(out, true, qb, Buf::KCache(l), Buf::VCache(l), Buf::Kvs);
    mark(out, Phase::Attn, 1);
    enc_attention(out, g, qb, l, pos0, n);
    fence2(out, true, Buf::Att, Buf::Scores);
    push_apply_gate(out, g, n, true);
    push_qmm(out, o, lin(g, l, Proj::O, false), Buf::Att, 0, Buf::Xb, 0, n);
    push_residual(out, g, n);
}

fn push_prefill_linear(
    out: &mut Vec<Cmd>,
    g: &Geo,
    d: &DeltaGeo,
    l: usize,
    n: u32,
    qkv: u32,
    z: u32,
    alpha: u32,
    beta: u32,
    sel_out: u32,
)
    requires
        d.ok(),
        1 <= n <= PREFILL_CHUNK,
        n * g.hidden <= u32::MAX,
    ensures
        cmds(final(out)@) == prefill_linear(cmds(old(out)@), *g, *d, l, n, qkv, z, alpha, beta, sel_out),
{
    push_qmm(out, qkv, qlin(g, d, l, Proj::DnQkv), Buf::Xn, 0, Buf::DnQkv, 0, n);
    push_qmm(out, z, qlin(g, d, l, Proj::DnZ), Buf::Xn, 0, Buf::DnZ, 0, n);
    push_qmm(out, alpha, qlin(g, d, l, Proj::DnAlpha), Buf::Xn, 0, Buf::DnAlpha, 0, n);
    push_qmm(out, beta, qlin(g, d, l, Proj::DnBeta), Buf::Xn, 0, Buf::DnBetaP, 0, n);
    fence4(out, true, Buf::DnQkv, Buf::DnZ, Buf::DnAlpha, Buf::DnBetaP);
    mark(out, Phase::Delta, 6 * n);
    push_delta_block(out, d, l, n, true);
    fence1(out, true, Buf::DnOut);
    push_qmm(out, sel_out, qlin(g, d, l, Proj::DnOut), Buf::DnOut, 0, Buf::Xb, 0, n);
    push_residual(out, g, n);
}

fn push_quant_prefill_layer(
    out: &mut Vec<Cmd>,
    g: &Geo,
    d: &Option<DeltaGeo>,
    b: &QuantBlock,
    l: usize,
    pos0: u32,
    n: u32,
)
    requires
        g.ok(),
        1 <= n <= PREFILL_CHUNK,
        pos0 + n <= u32::MAX,
        g.win is None ==> pos0 + n <= g.max_seq,
        n * g.hidden <= u32::MAX,
        n * g.inter <= u32::MAX,
        n * g.q_dim <= u32::MAX,
        n * g.kv_dim <= u32::MAX,
        d matches Some(x) ==> x.ok(),
        b.attn is Linear ==> d is Some,
    ensures
        cmds(final(out)@) == quant_prefill_layer(cmds(old(out)@), *g, *d, *b, l, pos0, n),
{
    push_norm(out, g, Buf::Norm(l, NormId::Input), n);
    fence1(out, true, Buf::Xn);
    match (b.attn, d) {
        (QuantAttn::Linear { qkv, z, alpha, beta, out: o }, Some(x)) => push_prefill_linear(
            out,
            g,
            x,
            l,
            n,
            qkv,
            z,
            alpha,
            beta,
            o,
        ),
        (QuantAttn::Full { q, k, v, o, qk_norm }, _) => push_prefill_full(out, g, l, pos0, n, q, k, v, o, qk_norm),
        _ => {},
    }
    push_norm(out, g, Buf::Norm(l, NormId::Post), n);
    fence1(out, true, Buf::Xn);
    push_qmm(out, b.gate, lin(g, l, Proj::Gate, false), Buf::Xn, 0, Buf::Gate, 0, n);
    push_qmm(out, b.up, lin(g, l, Proj::Up, false), Buf::Xn, 0, Buf::Up, 0, n);
    fence2(out, true, Buf::Gate, Buf::Up);
    mark(out, Phase::Elem, 1);
    enc_silu_mul(out, Buf::Gate, Buf::Up, n as u64 * g.inter as u64);
    fence1(out, true, Buf::Gate);
    push_qmm(out, b.down, lin(g, l, Proj::Down, false), Buf::Gate, 0, Buf::Xb, 0, n);
    push_residual(out, g, n);
}

fn push_quant_layer(out: &mut Vec<Cmd>, m: &QuantModel, st: Step, decode: bool, l: usize)
    requires
        quant_step_ok(*m, st),
        decode == quant_fused(m.geo, st.n),
        l < m.blocks@.len(),
    ensures
        cmds(final(out)@) == quant_layer(cmds(old(out)@), *m, st, l),
{
    reveal(quant_layer);
    assert(m.blocks@[l as int].attn is Linear ==> m.delta is Some);
    if decode {
        push_quant_decode_layer(out, &m.geo, &m.delta, &m.blocks[l], l, st.pos0);
    } else {
        push_quant_prefill_layer(out, &m.geo, &m.delta, &m.blocks[l], l, st.pos0, st.n);
    }
}

fn push_quant_head(out: &mut Vec<Cmd>, m: &QuantModel, st: Step, conc: bool)
    requires
        quant_step_ok(*m, st),
        conc == !quant_fused(m.geo, st.n),
    ensures
        cmds(final(out)@) == quant_head(cmds(old(out)@), *m, st),
{
    let g = m.geo;
    if st.logits_rows == 0 {
        return;
    }
    let layers: usize = m.blocks.len();
    push_norm(out, &g, Buf::Norm(layers, NormId::Final), st.n);
    fence1(out, conc, Buf::Xn);
    let l = lin(&g, layers, Proj::Head, false);
    if st.logits_rows == 1 && !conc {
        push_qmv(out, Kernel::QMatvec(m.head), m.head, l, Buf::Xn, Buf::Logits, 0);
    } else {
        let first: u64 = (st.n - st.logits_rows) as u64;
        proof {
            let (f, t, h) = (first as int, st.n as int, g.hidden as int);
            assert(0 <= f * h <= t * h) by (nonlinear_arith)
                requires
                    0 <= f <= t,
                    h >= 0,
            ;
        }
        push_qmm(out, m.head, l, Buf::Xn, first * g.hidden as u64 * 4, Buf::Logits, 0, st.logits_rows);
    }
}

/// Plans a step of a session.
pub fn plan_quant(m: &QuantModel, st: Step) -> (r: Vec<Cmd>)
    requires
        quant_step_ok(*m, st),
    ensures
        cmds(r@) == quant_step(*m, st),
{
    let decode = st.n == 1 && m.geo.head_dim as usize <= DEC_MAX_HD && m.geo.head_dim % 4 == 0;
    let mut out: Vec<Cmd> = Vec::new();
    assert(cmds(out@) =~= Seq::<CmdView>::empty());
    let mut l: usize = st.layer0;
    while l < m.blocks.len()
        invariant
            quant_step_ok(*m, st),
            decode == quant_fused(m.geo, st.n),
            st.layer0 <= l,
            l <= m.blocks@.len() || l == st.layer0,
            cmds(out@) == quant_layers(Seq::empty(), *m, st, l as int),
        decreases m.blocks.len() - l,
    {
        push_quant_layer(&mut out, m, st, decode, l);
        l = l + 1;
    }
    push_quant_head(&mut out, m, st, !decode);
    out
}

} // verus!
