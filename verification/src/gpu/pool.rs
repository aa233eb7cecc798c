//! What a batched step does to the cache that the requests share, and to the
//! order of its rows.
use vstd::prelude::*;

use crate::engine::BatchRow;
use crate::gpu::batched::{
    attention_batch, batch_layer, batch_layers, batch_step, matvec_batch, partial_batch, qkv_batch,
    rope_batch, row_ids, row_meta, rows_ok, splits_now, swiglu_batch,
};
use crate::gpu::dense::{DenseBlock, lin_of};
use crate::gpu::encode::{embed, matmul, matvec, rmsnorm};
use crate::gpu::geometry::ATTN_SPLIT;
use crate::gpu::hazards::{binds, slot_is};
use crate::gpu::ops::{Buf, CmdView, Geo, Kernel, NormId, Proj};
use crate::gpu::session::split_rows;
use crate::num::div_up;

verus! {

// ---------- the order of the rows ----------

/// `p` is a permutation of the first `n` numbers and `q` undoes it.
pub open spec fn permutes(p: Seq<int>, q: Seq<int>, n: nat) -> bool {
    &&& p.len() == n
    &&& q.len() == n
    &&& forall|i: int| 0 <= i < n ==> 0 <= #[trigger] p[i] < n && q[p[i]] == i
    &&& forall|i: int| 0 <= i < n ==> 0 <= #[trigger] q[i] < n && p[q[i]] == i
}

proof fn lemma_splits_bound(rows: Seq<BatchRow>, k: nat, i: int)
    requires
        k <= rows.len(),
        0 <= i < k,
    ensures
        rows[i].pos as int / ATTN_SPLIT as int + 1 <= splits_now(rows, k),
    decreases k,
{
    if i < k - 1 {
        lemma_splits_bound(rows, (k - 1) as nat, i);
    }
}

proof fn lemma_splits_reached(rows: Seq<BatchRow>, k: nat) -> (i: int)
    requires
        k <= rows.len(),
    ensures
        splits_now(rows, k) == 1 && i == -1 || (0 <= i < k && rows[i].pos as int / ATTN_SPLIT as int + 1
            == splits_now(rows, k)),
    decreases k,
{
    if k == 0 {
        -1
    } else {
        let i = lemma_splits_reached(rows, (k - 1) as nat);
        if splits_now(rows, k) == splits_now(rows, (k - 1) as nat) {
            i
        } else {
            k - 1
        }
    }
}

proof fn lemma_splits_at_most(a: Seq<BatchRow>, b: Seq<BatchRow>, p: Seq<int>, q: Seq<int>)
    requires
        permutes(p, q, a.len()),
        b.len() == a.len(),
        forall|i: int| 0 <= i < a.len() ==> #[trigger] b[i] == a[p[i]],
    ensures
        splits_now(b, b.len()) <= splits_now(a, a.len()),
{
    let i = lemma_splits_reached(b, b.len());
    if i >= 0 {
        assert(b[i] == a[p[i]]);
        lemma_splits_bound(a, a.len(), p[i]);
    } else {
        let j = lemma_splits_reached(a, a.len());
    }
}

/// Another order of the rows gives the same commands, and the tokens and places
/// that they are fed in that order: each row is worked on by its own token,
/// position and slot, and answered in its own place.
pub proof fn lemma_rows_permute(
    g: Geo,
    blocks: Seq<DenseBlock>,
    head_bias: bool,
    a: Seq<BatchRow>,
    b: Seq<BatchRow>,
    p: Seq<int>,
    q: Seq<int>,
)
    requires
        permutes(p, q, a.len()),
        b.len() == a.len(),
        forall|i: int| 0 <= i < a.len() ==> #[trigger] b[i] == a[p[i]],
    ensures
        batch_step(g, blocks, head_bias, b) == batch_step(g, blocks, head_bias, a),
        forall|i: int| 0 <= i < a.len() ==> #[trigger] row_ids(b)[i] == row_ids(a)[p[i]],
        forall|i: int| 0 <= i < a.len() ==> #[trigger] row_meta(b)[i] == row_meta(a)[p[i]],
{
    lemma_splits_at_most(a, b, p, q);
    assert forall|i: int| 0 <= i < b.len() implies #[trigger] a[i] == b[q[i]] by {
        assert(b[q[i]] == a[p[q[i]]]);
    }
    lemma_splits_at_most(b, a, q, p);
    assert forall|i: int| 0 <= i < a.len() implies #[trigger] row_ids(b)[i] == row_ids(a)[p[i]] by {
        assert(b[i] == a[p[i]]);
    }
    assert forall|i: int| 0 <= i < a.len() implies #[trigger] row_meta(b)[i] == row_meta(a)[p[i]] by {
        assert(b[i] == a[p[i]]);
    }
}

/// The logits of a step fall into one row per request, in the order of the
/// rows, each of the vocabulary's width.
pub proof fn lemma_each_row_has_its_logits<T>(flat: Seq<T>, n: nat, vocab: int, i: int)
    requires
        vocab > 0,
        flat.len() == n * vocab,
        0 <= i < n,
    ensures
        split_rows(flat, vocab).len() == n,
        split_rows(flat, vocab)[i] == flat.subrange(i * vocab, (i + 1) * vocab),
        split_rows(flat, vocab)[i].len() == vocab,
{
    assert(div_up(flat.len() as int, vocab) == n) by {
        vstd::arithmetic::div_mod::lemma_fundamental_div_mod_converse(n * vocab + (vocab - 1), vocab, n as int, vocab - 1);
    }
    assert(0 <= i * vocab && (i + 1) * vocab <= n * vocab && (i + 1) * vocab == i * vocab + vocab) by (nonlinear_arith)
        requires
            0 <= i < n,
            vocab > 0,
    ;
}

// ---------- the places written ----------

/// The row of the shared cache that a request's step writes: its position in its
/// slot.
pub open spec fn place(g: Geo, row: BatchRow) -> int {
    row.slot * g.max_seq + row.pos
}

/// The rows of a step write to different places of the shared cache. Each lies
/// inside the request's own slot, and the slot inside the cache.
pub proof fn lemma_rows_apart(g: Geo, rows: Seq<BatchRow>, n_slots: nat, i: int, j: int)
    requires
        g.ok(),
        rows_ok(g, rows, n_slots),
        0 <= i < rows.len(),
        0 <= j < rows.len(),
        rows[i].slot != rows[j].slot,
    ensures
        rows[i].slot * g.max_seq <= place(g, rows[i]) < (rows[i].slot + 1) * g.max_seq <= n_slots * g.max_seq,
        place(g, rows[i]) != place(g, rows[j]),
{
    let (a, b, m) = (rows[i], rows[j], g.max_seq as int);
    assert(a.pos < g.max_seq && b.pos < g.max_seq);
    assert(a.slot * m <= a.slot * m + a.pos < (a.slot + 1) * m <= n_slots * m) by (nonlinear_arith)
        requires
            0 <= a.slot < n_slots,
            0 <= a.pos < m,
    ;
    vstd::arithmetic::div_mod::lemma_fundamental_div_mod_converse(a.slot * m + a.pos, m, a.slot as int, a.pos as int);
    vstd::arithmetic::div_mod::lemma_fundamental_div_mod_converse(b.slot * m + b.pos, m, b.slot as int, b.pos as int);
}

/// The command reads or writes a cache by the rows' places: keys and values are
/// written by the query, key and value kernel, keys are rotated, and both are
/// read by the attention kernel.
pub open spec fn by_place(c: CmdView, l: usize) -> bool {
    c matches CmdView::Run(d) && binds(c, Buf::Meta) && match d.kernel {
        Kernel::MatvecQkvBatch | Kernel::AttentionPartialBatch => true,
        Kernel::RopeQkBatch => !binds(c, Buf::VCache(l)),
        _ => false,
    }
}

/// Every command that binds a cache of layer `l` works by the rows' places.
#[verifier::opaque]
pub open spec fn placed(s: Seq<CmdView>, l: usize) -> bool {
    forall|i: int|
        0 <= i < s.len() && (binds(#[trigger] s[i], Buf::KCache(l)) || binds(s[i], Buf::VCache(l))) ==> by_place(
            s[i],
            l,
        )
}

proof fn lemma_placed_pushed(s: Seq<CmdView>, t: Seq<CmdView>, l: usize)
    requires
        placed(s, l),
        t == s.push(t.last()),
        binds(t.last(), Buf::KCache(l)) || binds(t.last(), Buf::VCache(l)) ==> by_place(t.last(), l),
    ensures
        placed(t, l),
{
    reveal(placed);
    assert(forall|i: int| 0 <= i < s.len() ==> t[i] == s[i]);
}

proof fn lemma_layer_placed(s: Seq<CmdView>, g: Geo, b: DenseBlock, k: usize, splits: int, n: u32, l: usize)
    requires
        placed(s, l),
    ensures
        placed(batch_layer(s, g, b, k, splits, n), l),
{
    let t = rmsnorm(s, g, Buf::X, Buf::Norm(k, NormId::Input), Buf::Xn, n);
    lemma_placed_pushed(s, t, l);
    let (q, kk, v) =
        (lin_of(g, k, Proj::Q, b.q_bias), lin_of(g, k, Proj::K, b.k_bias), lin_of(g, k, Proj::V, b.v_bias));
    let s = qkv_batch(t, g, q, kk, v, n);
    assert(slot_is(s.last()->Run_0.slots[11], Buf::Meta));
    lemma_placed_pushed(t, s, l);
    let t = rope_batch(s, g, k, n);
    assert(slot_is(t.last()->Run_0.slots[2], Buf::Meta));
    lemma_placed_pushed(s, t, l);
    let u = t.push(CmdView::Run(partial_batch(g, k, splits, n)));
    assert(slot_is(u.last()->Run_0.slots[4], Buf::Meta));
    lemma_placed_pushed(t, u, l);
    let s = attention_batch(t, g, k, splits, n);
    lemma_placed_pushed(u, s, l);
    let t = matvec_batch(s, lin_of(g, k, Proj::O, b.o_bias), Buf::Att, Buf::X, n);
    lemma_placed_pushed(s, t, l);
    let s = rmsnorm(t, g, Buf::X, Buf::Norm(k, NormId::Post), Buf::Xn, n);
    lemma_placed_pushed(t, s, l);
    let t = swiglu_batch(s, lin_of(g, k, Proj::Gate, b.gate_bias), lin_of(g, k, Proj::Up, b.up_bias), n);
    lemma_placed_pushed(s, t, l);
    let s = matvec_batch(t, lin_of(g, k, Proj::Down, b.down_bias), Buf::Gate, Buf::X, n);
    lemma_placed_pushed(t, s, l);
}

proof fn lemma_layers_placed(
    s: Seq<CmdView>,
    g: Geo,
    blocks: Seq<DenseBlock>,
    splits: int,
    n: u32,
    k: nat,
    l: usize,
)
    requires
        placed(s, l),
    ensures
        placed(batch_layers(s, g, blocks, splits, n, k), l),
    decreases k,
{
    if k > 0 {
        lemma_layers_placed(s, g, blocks, splits, n, (k - 1) as nat, l);
        let t = batch_layers(s, g, blocks, splits, n, (k - 1) as nat);
        lemma_layer_placed(t, g, blocks[k - 1], (k - 1) as usize, splits, n, l);
    }
}

/// A batched step touches the caches only by the rows' places: every command
/// that binds one is given where the rows stand, and only the query, key and
/// value kernel and the rotation change it.
pub proof fn lemma_caches_are_touched_by_place(
    g: Geo,
    blocks: Seq<DenseBlock>,
    head_bias: bool,
    rows: Seq<BatchRow>,
    l: usize,
)
    ensures
        placed(batch_step(g, blocks, head_bias, rows), l),
{
    let n = rows.len() as u32;
    let none = Seq::<CmdView>::empty();
    assert(placed(none, l)) by {
        reveal(placed);
    }
    let t = embed(none, g, n);
    lemma_placed_pushed(none, t, l);
    let splits = splits_now(rows, rows.len());
    lemma_layers_placed(t, g, blocks, splits, n, blocks.len(), l);
    let s = batch_layers(t, g, blocks, splits, n, blocks.len());
    let layers = blocks.len() as usize;
    let t = rmsnorm(s, g, Buf::X, Buf::Norm(layers, NormId::Final), Buf::Xn, n);
    lemma_placed_pushed(s, t, l);
    let h = lin_of(g, layers, Proj::Head, head_bias);
    if n == 1 {
        lemma_placed_pushed(t, matvec(t, Kernel::Matvec, h, Buf::Xn, 0, Buf::Logits, 0), l);
    } else {
        lemma_placed_pushed(t, matmul(t, Kernel::Matmul, h, Buf::Xn, 0, Buf::Logits, 0, n), l);
    }
}

} // verus!
