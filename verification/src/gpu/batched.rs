//! One decode step for every request in flight: the fused decode sequence with a
//! row per request, over a cache shared by all slots.
use vstd::prelude::*;

use crate::engine::BatchRow;
use crate::gpu::dense::{DenseBlock, lemma_products, lin, lin_of};
use crate::gpu::encode::{Lin, decode_memory, embed, enc_embed, enc_linear, enc_rmsnorm, linear, rmsnorm};
use crate::gpu::geometry::{ATTN_SPLIT, DEC_TG, SPEC_MAX, gqa_decode_dims, gqa_grid};
use crate::gpu::ops::{
    Buf, Cmd, CmdView, Dispatch, DispatchView, Geo, Kernel, NormId, Params, Proj, Slot, cmds, emit,
    in_groups, per_element, run_elements, run_groups,
};
use crate::gpu::window::PREFILL_CHUNK;
use crate::num::{ceil_div, div_up, max};

verus! {

/// Where a row's request stands: its position and its slot.
#[derive(Debug, Clone, Copy, PartialEq, Eq, Structural)]
pub struct RowMeta {
    pub pos: u32,
    pub slot: u32,
}

/// What a batched step is fed and what it runs.
pub struct BatchPlan {
    pub ids: Vec<u32>,
    pub meta: Vec<RowMeta>,
    pub cmds: Vec<Cmd>,
}

/// The tokens that a step is fed, row by row.
pub open spec fn row_ids(rows: Seq<BatchRow>) -> Seq<u32> {
    Seq::new(rows.len(), |i: int| rows[i].token)
}

/// Where the rows stand, row by row.
pub open spec fn row_meta(rows: Seq<BatchRow>) -> Seq<RowMeta> {
    Seq::new(rows.len(), |i: int| RowMeta { pos: rows[i].pos as u32, slot: rows[i].slot as u32 })
}

/// The splits that the furthest of the first `k` rows needs; one where there is
/// none.
pub open spec fn splits_now(rows: Seq<BatchRow>, k: nat) -> int
    decreases k,
{
    if k == 0 {
        1
    } else {
        max(splits_now(rows, (k - 1) as nat), rows[k - 1].pos as int / ATTN_SPLIT as int + 1)
    }
}

/// The rows of a step fit the pool: slots of `max_seq` positions.
pub open spec fn rows_ok(g: Geo, rows: Seq<BatchRow>, n_slots: nat) -> bool {
    &&& 1 <= rows.len() <= n_slots <= SPEC_MAX
    &&& forall|i: int| 0 <= i < rows.len() ==> (#[trigger] rows[i]).pos < g.max_seq && rows[i].slot < n_slots
}

/// One kernel with a row per request, four output rows to a group.
pub open spec fn batch_rows(kernel: Kernel, slots: Seq<Slot>, out_dim: int, n: int) -> DispatchView {
    in_groups(kernel, slots, div_up(out_dim, 4), n, 128)
}

/// A linear layer added into `y`.
pub open spec fn matvec_batch(s: Seq<CmdView>, l: Lin, x: Buf, y: Buf, n: u32) -> Seq<CmdView> {
    s.push(CmdView::Run(batch_rows(
        Kernel::MatvecAccBatch,
        seq![
            Slot::Buf(Buf::Weight(l.layer, l.proj), 0),
            Slot::Buf(Buf::Bias(l.layer, l.proj), 0),
            Slot::Buf(x, 0),
            Slot::Buf(y, 0),
            Slot::Params(Params::Matvec { in_dim: l.in_dim, out_dim: l.out_dim }),
        ],
        l.out_dim as int,
        n as int,
    )))
}

/// Gate and up in one launch.
pub open spec fn swiglu_batch(s: Seq<CmdView>, gate: Lin, up: Lin, n: u32) -> Seq<CmdView> {
    s.push(CmdView::Run(batch_rows(
        Kernel::MatvecSwigluBatch,
        seq![
            Slot::Buf(Buf::Weight(gate.layer, gate.proj), 0),
            Slot::Buf(Buf::Weight(up.layer, up.proj), 0),
            Slot::Buf(Buf::Xn, 0),
            Slot::Buf(Buf::Gate, 0),
            Slot::Params(Params::Matvec { in_dim: gate.in_dim, out_dim: gate.out_dim }),
        ],
        gate.out_dim as int,
        n as int,
    )))
}

/// Queries, keys and values of all rows, each into its slot.
pub open spec fn qkv_batch(s: Seq<CmdView>, g: Geo, q: Lin, k: Lin, v: Lin, n: u32) -> Seq<CmdView> {
    s.push(CmdView::Run(batch_rows(
        Kernel::MatvecQkvBatch,
        seq![
            Slot::Buf(Buf::Weight(q.layer, q.proj), 0),
            Slot::Buf(Buf::Bias(q.layer, q.proj), 0),
            Slot::Buf(Buf::Weight(k.layer, k.proj), 0),
            Slot::Buf(Buf::Bias(k.layer, k.proj), 0),
            Slot::Buf(Buf::Weight(v.layer, v.proj), 0),
            Slot::Buf(Buf::Bias(v.layer, v.proj), 0),
            Slot::Buf(Buf::Xn, 0),
            Slot::Buf(Buf::Q, 0),
            Slot::Buf(Buf::KCache(q.layer), 0),
            Slot::Buf(Buf::VCache(q.layer), 0),
            Slot::Params(
                Params::QkvBatch { in_dim: g.hidden, q_dim: q.out_dim, kv_dim: k.out_dim, max_seq: g.max_seq },
            ),
            Slot::Buf(Buf::Meta, 0),
        ],
        q.out_dim + 2 * k.out_dim,
        n as int,
    )))
}

/// Rotates the queries and the new cache rows.
pub open spec fn rope_batch(s: Seq<CmdView>, g: Geo, layer: usize, n: u32) -> Seq<CmdView> {
    s.push(CmdView::Run(per_element(
        Kernel::RopeQkBatch,
        seq![
            Slot::Buf(Buf::Q, 0),
            Slot::Buf(Buf::KCache(layer), 0),
            Slot::Buf(Buf::Meta, 0),
            Slot::Params(
                Params::RopeQkBatch {
                    head_dim: g.head_dim,
                    n_q_heads: g.heads,
                    n_kv_heads: g.kv_heads,
                    max_seq: g.max_seq,
                    kv_dim: g.kv_dim,
                    n_rows: n,
                },
            ),
        ],
        n * (g.q_dim + g.kv_dim) / 2,
    )))
}

/// The splits of a slot.
pub open spec fn splits_max(g: Geo) -> int {
    div_up(g.max_seq as int, ATTN_SPLIT as int)
}

pub open spec fn attn_batch_params(g: Geo) -> Params {
    Params::AttnDecBatch {
        head_dim: g.head_dim,
        n_heads: g.heads,
        n_kv_heads: g.kv_heads,
        max_seq: g.max_seq,
        kv_dim: g.kv_dim,
        splits_max: splits_max(g) as u32,
    }
}

/// The partial attention of all rows.
pub open spec fn partial_batch(g: Geo, layer: usize, splits: int, n: u32) -> DispatchView {
    DispatchView {
        kernel: Kernel::AttentionPartialBatch,
        slots: seq![
            Slot::Buf(Buf::Q, 0),
            Slot::Buf(Buf::KCache(layer), 0),
            Slot::Buf(Buf::VCache(layer), 0),
            Slot::Buf(Buf::Partials, 0),
            Slot::Buf(Buf::Meta, 0),
            Slot::Params(attn_batch_params(g)),
        ],
        groups: (gqa_grid(g.heads as int, g.kv_heads as int), splits, n as int),
        threads: DEC_TG as int,
        memory: Some(decode_memory(g)),
    }
}

/// Attention of all rows: the partials, then their merge.
pub open spec fn attention_batch(s: Seq<CmdView>, g: Geo, layer: usize, splits: int, n: u32) -> Seq<CmdView> {
    s.push(CmdView::Run(partial_batch(g, layer, splits, n))).push(CmdView::Run(in_groups(
        Kernel::AttentionReduceBatch,
        seq![
            Slot::Buf(Buf::Partials, 0),
            Slot::Buf(Buf::Att, 0),
            Slot::Buf(Buf::Meta, 0),
            Slot::Params(attn_batch_params(g)),
        ],
        g.heads as int,
        n as int,
        g.head_dim as int,
    )))
}

/// A layer of a batched step.
pub open spec fn batch_layer(s: Seq<CmdView>, g: Geo, b: DenseBlock, l: usize, splits: int, n: u32) -> Seq<CmdView> {
    let s = rmsnorm(s, g, Buf::X, Buf::Norm(l, NormId::Input), Buf::Xn, n);
    let s = qkv_batch(
        s,
        g,
        lin_of(g, l, Proj::Q, b.q_bias),
        lin_of(g, l, Proj::K, b.k_bias),
        lin_of(g, l, Proj::V, b.v_bias),
        n,
    );
    let s = rope_batch(s, g, l, n);
    let s = attention_batch(s, g, l, splits, n);
    let s = matvec_batch(s, lin_of(g, l, Proj::O, b.o_bias), Buf::Att, Buf::X, n);
    let s = rmsnorm(s, g, Buf::X, Buf::Norm(l, NormId::Post), Buf::Xn, n);
    let s = swiglu_batch(s, lin_of(g, l, Proj::Gate, b.gate_bias), lin_of(g, l, Proj::Up, b.up_bias), n);
    matvec_batch(s, lin_of(g, l, Proj::Down, b.down_bias), Buf::Gate, Buf::X, n)
}

/// The first `k` layers.
pub open spec fn batch_layers(
    s: Seq<CmdView>,
    g: Geo,
    blocks: Seq<DenseBlock>,
    splits: int,
    n: u32,
    k: nat,
) -> Seq<CmdView>
    decreases k,
{
    if k == 0 {
        s
    } else {
        batch_layer(
            batch_layers(s, g, blocks, splits, n, (k - 1) as nat),
            g,
            blocks[k - 1],
            (k - 1) as usize,
            splits,
            n,
        )
    }
}

/// The commands of a batched step. They run in order, so none is a barrier.
pub open spec fn batch_step(g: Geo, blocks: Seq<DenseBlock>, head_bias: bool, rows: Seq<BatchRow>) -> Seq<CmdView> {
    let n = rows.len() as u32;
    let s = embed(Seq::empty(), g, n);
    let s = batch_layers(s, g, blocks, splits_now(rows, rows.len()), n, blocks.len());
    let s = rmsnorm(s, g, Buf::X, Buf::Norm(blocks.len() as usize, NormId::Final), Buf::Xn, n);
    linear(
        s,
        Kernel::Matvec,
        Kernel::Matmul,
        lin_of(g, blocks.len() as usize, Proj::Head, head_bias),
        Buf::Xn,
        0,
        Buf::Logits,
        0,
        n,
        false,
        false,
        false,
    )
}

fn push_matvec_batch(out: &mut Vec<Cmd>, l: Lin, x: Buf, y: Buf, n: u32)
    ensures
        cmds(final(out)@) == matvec_batch(cmds(old(out)@), l, x, y, n),
{
    let slots: Vec<Slot> = vec![
        Slot::Buf(Buf::Weight(l.layer, l.proj), 0),
        Slot::Buf(Buf::Bias(l.layer, l.proj), 0),
        Slot::Buf(x, 0),
        Slot::Buf(y, 0),
        Slot::Params(Params::Matvec { in_dim: l.in_dim, out_dim: l.out_dim }),
    ];
    assert(slots@ =~= seq![
        Slot::Buf(Buf::Weight(l.layer, l.proj), 0),
        Slot::Buf(Buf::Bias(l.layer, l.proj), 0),
        Slot::Buf(x, 0),
        Slot::Buf(y, 0),
        Slot::Params(Params::Matvec { in_dim: l.in_dim, out_dim: l.out_dim }),
    ]);
    run_groups(out, Kernel::MatvecAccBatch, slots, ceil_div(l.out_dim as u64, 4), n as u64, 128);
}

fn push_swiglu_batch(out: &mut Vec<Cmd>, gate: Lin, up: Lin, n: u32)
    ensures
        cmds(final(out)@) == swiglu_batch(cmds(old(out)@), gate, up, n),
{
    let slots: Vec<Slot> = vec![
        Slot::Buf(Buf::Weight(gate.layer, gate.proj), 0),
        Slot::Buf(Buf::Weight(up.layer, up.proj), 0),
        Slot::Buf(Buf::Xn, 0),
        Slot::Buf(Buf::Gate, 0),
        Slot::Params(Params::Matvec { in_dim: gate.in_dim, out_dim: gate.out_dim }),
    ];
    assert(slots@ =~= seq![
        Slot::Buf(Buf::Weight(gate.layer, gate.proj), 0),
        Slot::Buf(Buf::Weight(up.layer, up.proj), 0),
        Slot::Buf(Buf::Xn, 0),
        Slot::Buf(Buf::Gate, 0),
        Slot::Params(Params::Matvec { in_dim: gate.in_dim, out_dim: gate.out_dim }),
    ]);
    run_groups(out, Kernel::MatvecSwigluBatch, slots, ceil_div(gate.out_dim as u64, 4), n as u64, 128);
}

fn push_qkv_batch(out: &mut Vec<Cmd>, g: &Geo, q: Lin, k: Lin, v: Lin, n: u32)
    ensures
        cmds(final(out)@) == qkv_batch(cmds(old(out)@), *g, q, k, v, n),
{
    let p = Params::QkvBatch { in_dim: g.hidden, q_dim: q.out_dim, kv_dim: k.out_dim, max_seq: g.max_seq };
    let slots: Vec<Slot> = vec![
        Slot::Buf(Buf::Weight(q.layer, q.proj), 0),
        Slot::Buf(Buf::Bias(q.layer, q.proj), 0),
        Slot::Buf(Buf::Weight(k.layer, k.proj), 0),
        Slot::Buf(Buf::Bias(k.layer, k.proj), 0),
        Slot::Buf(Buf::Weight(v.layer, v.proj), 0),
        Slot::Buf(Buf::Bias(v.layer, v.proj), 0),
        Slot::Buf(Buf::Xn, 0),
        Slot::Buf(Buf::Q, 0),
        Slot::Buf(Buf::KCache(q.layer), 0),
        Slot::Buf(Buf::VCache(q.layer), 0),
        Slot::Params(p),
        Slot::Buf(Buf::Meta, 0),
    ];
    assert(slots@ =~= seq![
        Slot::Buf(Buf::Weight(q.layer, q.proj), 0),
        Slot::Buf(Buf::Bias(q.layer, q.proj), 0),
        Slot::Buf(Buf::Weight(k.layer, k.proj), 0),
        Slot::Buf(Buf::Bias(k.layer, k.proj), 0),
        Slot::Buf(Buf::Weight(v.layer, v.proj), 0),
        Slot::Buf(Buf::Bias(v.layer, v.proj), 0),
        Slot::Buf(Buf::Xn, 0),
        Slot::Buf(Buf::Q, 0),
        Slot::Buf(Buf::KCache(q.layer), 0),
        Slot::Buf(Buf::VCache(q.layer), 0),
        Slot::Params(p),
        Slot::Buf(Buf::Meta, 0),
    ]);
    run_groups(
        out,
        Kernel::MatvecQkvBatch,
        slots,
        ceil_div(q.out_dim as u64 + 2 * k.out_dim as u64, 4),
        n as u64,
        128,
    );
}

fn push_rope_batch(out: &mut Vec<Cmd>, g: &Geo, layer: usize, n: u32)
    requires
        g.ok(),
        n <= PREFILL_CHUNK,
    ensures
        cmds(final(out)@) == rope_batch(cmds(old(out)@), *g, layer, n),
{
    proof {
        lemma_products(*g, n);
    }
    let p = Params::RopeQkBatch {
        head_dim: g.head_dim,
        n_q_heads: g.heads,
        n_kv_heads: g.kv_heads,
        max_seq: g.max_seq,
        kv_dim: g.kv_dim,
        n_rows: n,
    };
    let slots: Vec<Slot> = vec![
        Slot::Buf(Buf::Q, 0),
        Slot::Buf(Buf::KCache(layer), 0),
        Slot::Buf(Buf::Meta, 0),
        Slot::Params(p),
    ];
    assert(slots@ =~= seq![
        Slot::Buf(Buf::Q, 0),
        Slot::Buf(Buf::KCache(layer), 0),
        Slot::Buf(Buf::Meta, 0),
        Slot::Params(p),
    ]);
    run_elements(out, Kernel::RopeQkBatch, slots, n as u64 * (g.q_dim as u64 + g.kv_dim as u64) / 2);
}

fn push_attention_batch(out: &mut Vec<Cmd>, g: &Geo, layer: usize, splits: u64, n: u32)
    requires
        g.ok(),
    ensures
        cmds(final(out)@) == attention_batch(cmds(old(out)@), *g, layer, splits as int, n),
{
    let p = Params::AttnDecBatch {
        head_dim: g.head_dim,
        n_heads: g.heads,
        n_kv_heads: g.kv_heads,
        max_seq: g.max_seq,
        kv_dim: g.kv_dim,
        splits_max: ceil_div(g.max_seq as u64, ATTN_SPLIT as u64) as u32,
    };
    let (grid_x, mem) = gqa_decode_dims(g.heads as usize, g.kv_heads as usize, g.head_dim as usize);
    assert(mem@ =~= decode_memory(*g));
    let slots: Vec<Slot> = vec![
        Slot::Buf(Buf::Q, 0),
        Slot::Buf(Buf::KCache(layer), 0),
        Slot::Buf(Buf::VCache(layer), 0),
        Slot::Buf(Buf::Partials, 0),
        Slot::Buf(Buf::Meta, 0),
        Slot::Params(p),
    ];
    assert(slots@ =~= partial_batch(*g, layer, splits as int, n).slots);
    emit(
        out,
        Cmd::Run(
            Dispatch {
                kernel: Kernel::AttentionPartialBatch,
                slots,
                groups: (grid_x, splits, n as u64),
                threads: DEC_TG as u64,
                memory: Some(mem),
            },
        ),
    );
    let slots: Vec<Slot> = vec![
        Slot::Buf(Buf::Partials, 0),
        Slot::Buf(Buf::Att, 0),
        Slot::Buf(Buf::Meta, 0),
        Slot::Params(p),
    ];
    assert(slots@ =~= seq![
        Slot::Buf(Buf::Partials, 0),
        Slot::Buf(Buf::Att, 0),
        Slot::Buf(Buf::Meta, 0),
        Slot::Params(p),
    ]);
    run_groups(out, Kernel::AttentionReduceBatch, slots, g.heads as u64, n as u64, g.head_dim as u64);
}

fn push_batch_layer(out: &mut Vec<Cmd>, g: &Geo, b: &DenseBlock, l: usize, splits: u64, n: u32)
    requires
        g.ok(),
        n <= PREFILL_CHUNK,
    ensures
        cmds(final(out)@) == batch_layer(cmds(old(out)@), *g, *b, l, splits as int, n),
{
    enc_rmsnorm(out, g, Buf::X, Buf::Norm(l, NormId::Input), Buf::Xn, n);
    push_qkv_batch(
        out,
        g,
        lin(g, l, Proj::Q, b.q_bias),
        lin(g, l, Proj::K, b.k_bias),
        lin(g, l, Proj::V, b.v_bias),
        n,
    );
    push_rope_batch(out, g, l, n);
    push_attention_batch(out, g, l, splits, n);
    push_matvec_batch(out, lin(g, l, Proj::O, b.o_bias), Buf::Att, Buf::X, n);
    enc_rmsnorm(out, g, Buf::X, Buf::Norm(l, NormId::Post), Buf::Xn, n);
    push_swiglu_batch(out, lin(g, l, Proj::Gate, b.gate_bias), lin(g, l, Proj::Up, b.up_bias), n);
    push_matvec_batch(out, lin(g, l, Proj::Down, b.down_bias), Buf::Gate, Buf::X, n);
}

fn furthest(rows: &[BatchRow]) -> (r: u64)
    ensures
        r == splits_now(rows@, rows@.len()),
{
    let mut best: u64 = 1;
    let mut i: usize = 0;
    while i < rows.len()
        invariant
            i <= rows@.len(),
            best == splits_now(rows@, i as nat),
        decreases rows.len() - i,
    {
        let s: u64 = rows[i].pos as u64 / ATTN_SPLIT as u64 + 1;
        if s > best {
            best = s;
        }
        i = i + 1;
    }
    best
}

/// Plans one decode step for the rows of a batch.
pub fn decode_step(g: &Geo, blocks: &Vec<DenseBlock>, head_bias: bool, rows: &[BatchRow], n_slots: usize) -> (r:
    BatchPlan)
    requires
        g.ok(),
        rows_ok(*g, rows@, n_slots as nat),
    ensures
        r.ids@ == row_ids(rows@),
        r.meta@ == row_meta(rows@),
        cmds(r.cmds@) == batch_step(*g, blocks@, head_bias, rows@),
{
    let n: u32 = rows.len() as u32;
    let mut ids: Vec<u32> = Vec::new();
    let mut meta: Vec<RowMeta> = Vec::new();
    let mut i: usize = 0;
    while i < rows.len()
        invariant
            rows_ok(*g, rows@, n_slots as nat),
            i <= rows@.len(),
            ids@.len() == i,
            meta@.len() == i,
            forall|j: int| 0 <= j < i ==> #[trigger] ids@[j] == rows@[j].token,
            forall|j: int|
                0 <= j < i ==> #[trigger] meta@[j] == (RowMeta { pos: rows@[j].pos as u32, slot: rows@[j].slot as u32 }),
        decreases rows.len() - i,
    {
        assert(rows@[i as int].pos < g.max_seq && rows@[i as int].slot < n_slots);
        ids.push(rows[i].token);
        meta.push(RowMeta { pos: rows[i].pos as u32, slot: rows[i].slot as u32 });
        i = i + 1;
    }
    assert(ids@ =~= row_ids(rows@));
    assert(meta@ =~= row_meta(rows@));
    let splits: u64 = furthest(rows);
    let mut out: Vec<Cmd> = Vec::new();
    assert(cmds(out@) =~= Seq::<CmdView>::empty());
    enc_embed(&mut out, g, n);
    let ghost start = cmds(out@);
    let mut l: usize = 0;
    while l < blocks.len()
        invariant
            g.ok(),
            n <= PREFILL_CHUNK,
            l <= blocks@.len(),
            cmds(out@) == batch_layers(start, *g, blocks@, splits as int, n, l as nat),
        decreases blocks.len() - l,
    {
        push_batch_layer(&mut out, g, &blocks[l], l, splits, n);
        l = l + 1;
    }
    enc_rmsnorm(&mut out, g, Buf::X, Buf::Norm(blocks.len(), NormId::Final), Buf::Xn, n);
    enc_linear(
        &mut out,
        Kernel::Matvec,
        Kernel::Matmul,
        lin(g, blocks.len(), Proj::Head, head_bias),
        Buf::Xn,
        0,
        Buf::Logits,
        0,
        n,
        false,
        false,
        false,
    );
    BatchPlan { ids, meta, cmds: out }
}

} // verus!
