//! What a batched step computes: every row goes through the transformer as it
//! would alone, over the cache of its own slot.
use vstd::prelude::*;

use crate::engine::BatchRow;
use crate::gpu::batched::{
    attention_batch, batch_layer, batch_layers, batch_step, matvec_batch, partial_batch, qkv_batch, rope_batch, row_ids,
    row_meta, rows_ok, splits_max, splits_now, swiglu_batch,
};
use crate::gpu::dense::{DenseBlock, decode_layer, lin_of};
use crate::gpu::encode::{Lin, embed, rmsnorm};
use crate::gpu::forward::{
    Shape, attention_out, biases_known, block_out, cached, caches_kept, dense_geo, dense_shape, dense_shapes, feed_out, hidden_rows, key_of, keys_upto,
    lemma_cached_from, lemma_cached_stays, lemma_decode_layer, lemma_hidden_same, lemma_kept_rows, lemma_rows_out_same, others_kept, project,
    query_of, rows_of, rows_out, value_of, values_upto,
};
use crate::gpu::geometry::ATTN_SPLIT;
use crate::gpu::launches::{
    attended, bias, gated, lemma_div_up, lemma_embed, lemma_head_place, lemma_head_row, lemma_linear, lemma_put_row,
    lemma_rmsnorm, lemma_times_row, normed, nth, only, passed, summed, turned, weight,
};
use crate::gpu::meaning::{
    Attention, Ctx, Mem, Term, lands, lemma_place, lemma_put, lemma_run_push, merged, put, row, run, scatter,
    slot_row, step, table, times,
};
use crate::gpu::ops::{Buf, CmdView, Geo, Kernel, NormId, Proj};

verus! {

/// The rows stand in slots of their own, at positions inside them.
pub open spec fn in_slots(c: Ctx, n: int, max_seq: int) -> bool {
    &&& c.rows.len() == n
    &&& forall|r: int| 0 <= r < n ==> 0 <= (#[trigger] c.rows[r]).0 && 0 <= c.rows[r].1 < max_seq
    &&& forall|r: int, q: int|
        0 <= r < n && 0 <= q < n && r != q ==> (#[trigger] c.rows[r]).0 != (#[trigger] c.rows[q]).0
}

/// Where the cache of row `r` starts.
pub open spec fn slot_base(c: Ctx, max_seq: int, w: int, r: int) -> int {
    c.rows[r].0 * max_seq * w
}

/// Places in different slots do not meet, nor do different places of one.
proof fn lemma_places_apart(s: int, p: int, t: int, q: int, max_seq: int, w: int)
    requires
        0 <= p < max_seq,
        0 <= q < max_seq,
        s != t || p != q,
        0 <= w,
    ensures
        (s * max_seq + p) * w + w <= (t * max_seq + q) * w || (t * max_seq + q) * w + w <= (s * max_seq + p) * w,
{
    let (a, b) = (s * max_seq + p, t * max_seq + q);
    assert(a != b) by (nonlinear_arith)
        requires
            a == s * max_seq + p,
            b == t * max_seq + q,
            0 <= p < max_seq,
            0 <= q < max_seq,
            s != t || p != q,
    ;
    if a < b {
        assert(a * w + w <= b * w) by (nonlinear_arith)
            requires
                a + 1 <= b,
                0 <= w,
        ;
    } else {
        assert(b * w + w <= a * w) by (nonlinear_arith)
            requires
                b + 1 <= a,
                0 <= w,
        ;
    }
}

/// The place of a position in a slot, in both its spellings.
proof fn lemma_slot_place(s: int, p: int, max_seq: int, w: int)
    ensures
        (s * max_seq + p) * w == s * max_seq * w + p * w,
{
    assert((s * max_seq + p) * w == s * max_seq * w + p * w) by (nonlinear_arith);
}

// ---------- rows written to their slots ----------

/// What `scatter` writes to the place of row `r`.
proof fn lemma_scattered(m: Mem, y: Buf, c: Ctx, n: int, w: int, max_seq: int, f: spec_fn(int, int) -> Term, r: int)
    requires
        in_slots(c, n, max_seq),
        0 <= r < n,
        0 <= w,
    ensures
        nth(
            scatter(m, y, n, w, slot_row(c, 0, max_seq, w), f),
            y,
            slot_base(c, max_seq, w, r),
            w,
            c.rows[r].1,
        ) == Seq::new(w as nat, |i: int| f(r, i)),
{
    reveal(nth);
    let place = slot_row(c, 0, max_seq, w);
    let k = scatter(m, y, n, w, place, f);
    let (s, p) = c.rows[r];
    lemma_slot_place(s, p, max_seq, w);
    let at = slot_base(c, max_seq, w, r) + p * w;
    assert(place(r) == at);
    let z = Seq::new(w as nat, |i: int| f(r, i));
    assert forall|i: int| 0 <= i < w implies k(y, at + i) == #[trigger] z[i] by {
        assert(lands(n, w, place, at + i, r));
        let q = choose|q: int| #[trigger] lands(n, w, place, at + i, q);
        if q != r {
            lemma_places_apart(s, p, c.rows[q].0, c.rows[q].1, max_seq, w);
            assert(c.rows[q].0 != c.rows[r].0);
        }
        assert(q == r);
    }
    assert(row(k, y, at, w) =~= z);
}

/// What `scatter` leaves alone: other buffers, and in a slot the positions before
/// that of its row.
proof fn lemma_scatter_leaves(m: Mem, y: Buf, c: Ctx, n: int, w: int, max_seq: int, f: spec_fn(int, int) -> Term)
    requires
        in_slots(c, n, max_seq),
        0 <= w,
    ensures
        only(m, scatter(m, y, n, w, slot_row(c, 0, max_seq, w), f), y, y, y),
        forall|r: int, p: int|
            0 <= r < n && 0 <= p < c.rows[r].1 ==> #[trigger] nth(
                scatter(m, y, n, w, slot_row(c, 0, max_seq, w), f),
                y,
                slot_base(c, max_seq, w, r),
                w,
                p,
            ) == nth(m, y, slot_base(c, max_seq, w, r), w, p),
{
    reveal(nth);
    let place = slot_row(c, 0, max_seq, w);
    let k = scatter(m, y, n, w, place, f);
    assert forall|b: Buf, a: int, z: int| b != y implies #[trigger] row(k, b, a, z) == row(m, b, a, z) by {
        assert(row(k, b, a, z) =~= row(m, b, a, z));
    }
    assert forall|r: int, p: int| 0 <= r < n && 0 <= p < c.rows[r].1 implies #[trigger] nth(
        k,
        y,
        slot_base(c, max_seq, w, r),
        w,
        p,
    ) == nth(m, y, slot_base(c, max_seq, w, r), w, p) by {
        let s = c.rows[r].0;
        lemma_slot_place(s, p, max_seq, w);
        let at = slot_base(c, max_seq, w, r) + p * w;
        let z = row(m, y, at, w);
        assert forall|i: int| 0 <= i < w implies k(y, at + i) == #[trigger] z[i] by {
            if exists|q: int| #[trigger] lands(n, w, place, at + i, q) {
                let q = choose|q: int| #[trigger] lands(n, w, place, at + i, q);
                if q != r {
                    assert(c.rows[q].0 != c.rows[r].0);
                }
                lemma_places_apart(s, p, c.rows[q].0, c.rows[q].1, max_seq, w);
                assert(false);
            }
        }
        assert(row(k, y, at, w) =~= z);
    }
}

/// A cache in which only the place of row `r` in its slot changed, up to there.
pub open spec fn slot_kept(c: Ctx, m: Mem, k: Mem, y: Buf, max_seq: int, w: int, r: int) -> bool {
    forall|p: int|
        0 <= p < c.rows[r].1 ==> #[trigger] nth(k, y, slot_base(c, max_seq, w, r), w, p) == nth(
            m,
            y,
            slot_base(c, max_seq, w, r),
            w,
            p,
        )
}

// ---------- the launches ----------

proof fn lemma_qkv_batch(c: Ctx, m0: Mem, s: Seq<CmdView>, g: Geo, q: Lin, k: Lin, v: Lin, n: u32, r: int)
    requires
        in_slots(c, n as int, g.max_seq as int),
        q.in_dim == g.hidden,
        k.in_dim == g.hidden,
        v.in_dim == g.hidden,
        k.out_dim == v.out_dim,
        0 <= r < n,
    ensures
        ({
            let (m, e) = (run(c, m0, s), run(c, m0, qkv_batch(s, g, q, k, v, n)));
            let (kc, vc) = (Buf::KCache(q.layer), Buf::VCache(q.layer));
            let (w, ms, p) = (k.out_dim as int, g.max_seq as int, c.rows[r].1);
            let base = slot_base(c, ms, w, r);
            let z = nth(m, Buf::Xn, 0, g.hidden as int, r);
            &&& only(m, e, Buf::Q, kc, vc)
            &&& slot_kept(c, m, e, kc, ms, w, r)
            &&& slot_kept(c, m, e, vc, ms, w, r)
            &&& nth(e, Buf::Q, 0, q.out_dim as int, r) == passed(c, q, z)
            &&& nth(e, kc, base, w, p) == passed(c, k, z)
            &&& nth(e, vc, base, w, p) == passed(c, v, z)
        }),
{
    let (m, e) = (run(c, m0, s), run(c, m0, qkv_batch(s, g, q, k, v, n)));
    let (kc, vc) = (Buf::KCache(q.layer), Buf::VCache(q.layer));
    let (w, ms, hid, o) = (k.out_dim as int, g.max_seq as int, g.hidden as int, q.out_dim as int);
    let fq = times(c, m, weight(q), Some(bias(q)), Buf::Xn, 0, hid, o);
    let fk = times(c, m, weight(k), Some(bias(k)), Buf::Xn, 0, hid, w);
    let fv = times(c, m, weight(v), Some(bias(v)), Buf::Xn, 0, hid, w);
    let place = slot_row(c, 0, ms, w);
    let gk = |r: int, i: int| fk(r * w + i);
    let gv = |r: int, i: int| fv(r * w + i);
    let m1 = put(m, Buf::Q, 0, n * o, fq);
    let m2 = scatter(m1, kc, n as int, w, place, gk);
    assert(e == scatter(m2, vc, n as int, w, place, gv)) by {
        reveal(step);
        lemma_run_push(c, m0, s, qkv_batch(s, g, q, k, v, n).last());
        lemma_div_up(o + 2 * w, 4);
    }
    lemma_put_leaves(m, Buf::Q, 0, n * o, fq);
    lemma_scatter_leaves(m1, kc, c, n as int, w, ms, gk);
    lemma_scatter_leaves(m2, vc, c, n as int, w, ms, gv);
    lemma_scattered(m1, kc, c, n as int, w, ms, gk, r);
    lemma_scattered(m2, vc, c, n as int, w, ms, gv, r);
    lemma_times_row(c, m, weight(q), Some(bias(q)), Buf::Xn, 0, hid, o, Buf::Q, 0, n as int, bias(q), r);
    lemma_times_row(c, m, weight(k), Some(bias(k)), Buf::Xn, 0, hid, w, kc, 0, n as int, bias(k), r);
    lemma_times_row(c, m, weight(v), Some(bias(v)), Buf::Xn, 0, hid, w, vc, 0, n as int, bias(v), r);
    lemma_put_row(m, kc, 0, n as int, w, fk, r);
    lemma_put_row(m, vc, 0, n as int, w, fv, r);
    assert(Seq::new(w as nat, |i: int| gk(r, i)) =~= Seq::new(w as nat, |i: int| fk(r * w + i)));
    assert(Seq::new(w as nat, |i: int| gv(r, i)) =~= Seq::new(w as nat, |i: int| fv(r * w + i)));
}

proof fn lemma_put_leaves(m: Mem, y: Buf, at: int, len: int, f: spec_fn(int) -> Term)
    ensures
        only(m, put(m, y, at, len, f), y, y, y),
{
    reveal(nth);
    lemma_put(m, y, at, len, f);
}

proof fn lemma_rope_batch(c: Ctx, m0: Mem, s: Seq<CmdView>, g: Geo, l: usize, n: u32, r: int)
    requires
        in_slots(c, n as int, g.max_seq as int),
        g.ok(),
        0 <= r < n,
    ensures
        ({
            let (m, e) = (run(c, m0, s), run(c, m0, rope_batch(s, g, l, n)));
            let kc = Buf::KCache(l);
            let (w, ms, p, d) = (g.kv_dim as int, g.max_seq as int, c.rows[r].1, g.head_dim as int);
            let base = slot_base(c, ms, w, r);
            &&& only(m, e, Buf::Q, kc, kc)
            &&& slot_kept(c, m, e, kc, ms, w, r)
            &&& nth(e, Buf::Q, 0, g.q_dim as int, r) == turned(nth(m, Buf::Q, 0, g.q_dim as int, r), d, d, p)
            &&& nth(e, kc, base, w, p) == turned(nth(m, kc, base, w, p), d, d, p)
        }),
{
    let (m, e) = (run(c, m0, s), run(c, m0, rope_batch(s, g, l, n)));
    let kc = Buf::KCache(l);
    let (w, ms, p, d) = (g.kv_dim as int, g.max_seq as int, c.rows[r].1, g.head_dim as int);
    let (h, kh, wide) = (g.heads as int, g.kv_heads as int, g.q_dim as int);
    let base = slot_base(c, ms, w, r);
    let place = slot_row(c, 0, ms, w);
    let fq = |i: int| Term::Rotated(c.rows[i / d / h].1, d, row(m, Buf::Q, 0 + i / d * d, d), i % d);
    let fk = |r: int, i: int| Term::Rotated(c.rows[r].1, d, row(m, kc, place(r) + i / d * d, d), i % d);
    let m1 = put(m, Buf::Q, 0, n * (h * d), fq);
    assert(e == scatter(m1, kc, n as int, w, place, fk)) by {
        reveal(step);
        lemma_run_push(c, m0, s, rope_batch(s, g, l, n).last());
        lemma_div_up(n * (g.q_dim + g.kv_dim) / 2, 256);
    }
    lemma_put_leaves(m, Buf::Q, 0, n * (h * d), fq);
    lemma_scatter_leaves(m1, kc, c, n as int, w, ms, fk);
    lemma_scattered(m1, kc, c, n as int, w, ms, fk, r);
    // The query.
    lemma_put_row(m, Buf::Q, 0, n as int, h * d, fq, r);
    let x = nth(m, Buf::Q, 0, wide, r);
    let z = turned(x, d, d, p);
    assert(wide == h * d && w == kh * d);
    assert(x.len() == wide) by {
        reveal(nth);
    }
    assert forall|i: int| 0 <= i < wide implies fq(r * wide + i) == #[trigger] z[i] by {
        lemma_head_place(r, h, d, i);
        lemma_head_row(m, Buf::Q, 0, d, h, r, i / d);
    }
    assert(Seq::new(wide as nat, |i: int| fq(r * wide + i)) =~= z);
    // The key.
    let y = nth(m, kc, base, w, p);
    let u = turned(y, d, d, p);
    assert(y.len() == w) by {
        reveal(nth);
    }
    lemma_slot_place(c.rows[r].0, p, ms, w);
    assert forall|i: int| 0 <= i < w implies fk(r, i) == #[trigger] u[i] by {
        lemma_head_place(0, kh, d, i);
        lemma_head_row(m, kc, base, d, kh, p, i / d);
        assert(place(r) == base + p * w);
    }
    assert(Seq::new(w as nat, |i: int| fk(r, i)) =~= u);
}

/// The attention of row `r` over its own slot.
pub open spec fn seen_in_slot(c: Ctx, m: Mem, g: Geo, l: usize, r: int) -> Attention {
    let (w, ms) = (g.kv_dim as int, g.max_seq as int);
    Attention {
        query: nth(m, Buf::Q, 0, g.q_dim as int, r),
        keys: table(m, Buf::KCache(l), slot_base(c, ms, w, r), w, c.rows[r].1 + 1),
        values: table(m, Buf::VCache(l), slot_base(c, ms, w, r), w, c.rows[r].1 + 1),
        heads: g.heads as int,
        kv_heads: g.kv_heads as int,
        head_dim: g.head_dim as int,
        at: c.rows[r].1,
    }
}

proof fn lemma_attention_batch(c: Ctx, m0: Mem, s: Seq<CmdView>, g: Geo, l: usize, splits: int, n: u32, r: int)
    requires
        in_slots(c, n as int, g.max_seq as int),
        g.ok(),
        0 <= r < n,
        splits <= splits_max(g),
        forall|q: int| 0 <= q < n ==> (#[trigger] c.rows[q]).1 < splits * ATTN_SPLIT,
    ensures
        ({
            let (m, e) = (run(c, m0, s), run(c, m0, attention_batch(s, g, l, splits, n)));
            &&& only(m, e, Buf::Partials, Buf::Att, Buf::Att)
            &&& nth(e, Buf::Att, 0, g.q_dim as int, r) == attended(seen_in_slot(c, m, g, l, r))
        }),
{
    let t = s.push(CmdView::Run(partial_batch(g, l, splits, n)));
    let u = attention_batch(s, g, l, splits, n);
    let (m, m1, e) = (run(c, m0, s), run(c, m0, t), run(c, m0, u));
    let w = g.heads * g.head_dim;
    assert(w == g.q_dim);
    let f = |q: int|
        Term::Splits(
            crate::gpu::meaning::attention_at(
                m,
                Buf::Q,
                0 + q * (g.heads * g.head_dim),
                Buf::KCache(l),
                0 + c.rows[q].0 * g.max_seq * g.kv_dim,
                Buf::VCache(l),
                0 + c.rows[q].0 * g.max_seq * g.kv_dim,
                g.heads as int,
                g.kv_heads as int,
                g.head_dim as int,
                c.rows[q].1,
                c.rows[q].1 + 1,
            ),
        );
    assert(splits_max(g) <= u32::MAX) by {
        assert((g.max_seq + 127) / 128 <= u32::MAX);
    }
    assert(m1 == put(m, Buf::Partials, 0, n as int, f)) by {
        reveal(step);
        lemma_run_push(c, m0, s, t.last());
    }
    let h = |i: int| merged(m1(Buf::Partials, 0 + i / w), i % w);
    assert(e == put(m1, Buf::Att, 0, n * w, h)) by {
        reveal(step);
        lemma_run_push(c, m0, t, u.last());
    }
    lemma_put_leaves(m, Buf::Partials, 0, n as int, f);
    lemma_put_leaves(m1, Buf::Att, 0, n * w, h);
    lemma_put_row(m1, Buf::Att, 0, n as int, w, h, r);
    let a = seen_in_slot(c, m, g, l, r);
    assert(f(r) == Term::Splits(a)) by {
        reveal(nth);
        assert(g.kv_heads * g.head_dim == g.kv_dim);
    }
    let z = attended(a);
    assert forall|i: int| 0 <= i < w implies h(r * w + i) == #[trigger] z[i] by {
        lemma_place(r, w, i);
        assert(m1(Buf::Partials, r) == f(r));
    }
    assert(Seq::new(w as nat, |i: int| h(r * w + i)) =~= z);
}

proof fn lemma_matvec_batch(c: Ctx, m0: Mem, s: Seq<CmdView>, l: Lin, x: Buf, y: Buf, n: u32, r: int)
    requires
        0 <= r < n,
    ensures
        ({
            let (m, e) = (run(c, m0, s), run(c, m0, matvec_batch(s, l, x, y, n)));
            let o = l.out_dim as int;
            &&& only(m, e, y, y, y)
            &&& nth(e, y, 0, o, r) == summed(nth(m, y, 0, o, r), passed(c, l, nth(m, x, 0, l.in_dim as int, r)))
        }),
{
    let (m, e) = (run(c, m0, s), run(c, m0, matvec_batch(s, l, x, y, n)));
    let (i, o) = (l.in_dim as int, l.out_dim as int);
    let f = times(c, m, weight(l), Some(bias(l)), x, 0, i, o);
    let h = |j: int| Term::Sum(Box::new(m(y, 0 + j)), Box::new(f(j)));
    assert(e == put(m, y, 0, n * o, h)) by {
        reveal(step);
        lemma_run_push(c, m0, s, matvec_batch(s, l, x, y, n).last());
        lemma_div_up(o, 4);
    }
    lemma_put_leaves(m, y, 0, n * o, h);
    lemma_put_row(m, y, 0, n as int, o, h, r);
    let a = nth(m, y, 0, o, r);
    let z = summed(a, passed(c, l, nth(m, x, 0, i, r)));
    assert forall|j: int| 0 <= j < o implies h(r * o + j) == #[trigger] z[j] by {
        reveal(nth);
        lemma_place(r, o, j);
    }
    assert(a.len() == o) by {
        reveal(nth);
    }
    assert(Seq::new(o as nat, |j: int| h(r * o + j)) =~= z);
}

proof fn lemma_swiglu_batch(c: Ctx, m0: Mem, s: Seq<CmdView>, gate: Lin, up: Lin, n: u32, r: int)
    requires
        0 <= r < n,
        gate.in_dim == up.in_dim,
        gate.out_dim == up.out_dim,
        !(c.biased)(bias(gate)),
        !(c.biased)(bias(up)),
    ensures
        ({
            let (m, e) = (run(c, m0, s), run(c, m0, swiglu_batch(s, gate, up, n)));
            let v = nth(m, Buf::Xn, 0, gate.in_dim as int, r);
            &&& only(m, e, Buf::Gate, Buf::Gate, Buf::Gate)
            &&& nth(e, Buf::Gate, 0, gate.out_dim as int, r) == gated(passed(c, gate, v), passed(c, up, v))
        }),
{
    let (m, e) = (run(c, m0, s), run(c, m0, swiglu_batch(s, gate, up, n)));
    let (i, o) = (gate.in_dim as int, gate.out_dim as int);
    let fg = times(c, m, weight(gate), None, Buf::Xn, 0, i, o);
    let fu = times(c, m, weight(up), None, Buf::Xn, 0, i, o);
    let h = |j: int| Term::Gated(Box::new(fg(j)), Box::new(fu(j)));
    assert(e == put(m, Buf::Gate, 0, n * o, h)) by {
        reveal(step);
        lemma_run_push(c, m0, s, swiglu_batch(s, gate, up, n).last());
        lemma_div_up(o, 4);
    }
    lemma_put_leaves(m, Buf::Gate, 0, n * o, h);
    lemma_put_row(m, Buf::Gate, 0, n as int, o, h, r);
    let v = nth(m, Buf::Xn, 0, i, r);
    let z = gated(passed(c, gate, v), passed(c, up, v));
    assert forall|j: int| 0 <= j < o implies h(r * o + j) == #[trigger] z[j] by {
        reveal(nth);
        lemma_place(r, o, j);
    }
    assert(Seq::new(o as nat, |j: int| h(r * o + j)) =~= z);
}

// ---------- a layer ----------

/// What the laws of a batch ask of the model: queries as wide as their heads, heads
/// that rotate whole, and blocks of the plain kind.
pub open spec fn plain_block(c: Ctx, l: usize, b: DenseBlock) -> bool {
    &&& biases_known(c, l, b)
    &&& !b.gate_bias
    &&& !b.up_bias
    &&& !b.qk_norm
}

pub open spec fn batch_geo(g: Geo) -> bool {
    &&& g.ok()
    &&& g.q_proj_dim == g.q_dim
    &&& g.rot_dim == g.head_dim
}

/// The splits reach every row.
pub open spec fn splits_reach(c: Ctx, g: Geo, splits: int, n: int) -> bool {
    &&& splits <= splits_max(g)
    &&& forall|q: int| 0 <= q < n ==> (#[trigger] c.rows[q]).1 < splits * ATTN_SPLIT
}

/// Row `r` went through the block, and its key and value stand in its slot.
pub open spec fn row_done(c: Ctx, m: Mem, k: Mem, g: Geo, h: Shape, l: usize, r: int) -> bool {
    let (w, ms, p) = (g.kv_dim as int, g.max_seq as int, c.rows[r].1);
    let base = slot_base(c, ms, w, r);
    let x = nth(m, Buf::X, 0, h.hidden, r);
    &&& nth(k, Buf::X, 0, h.hidden, r) == rows_out(c, m, h, l, base, p, seq![x])[0]
    &&& nth(k, Buf::KCache(l), base, w, p) == key_of(c, h, l, x, p)
    &&& nth(k, Buf::VCache(l), base, w, p) == value_of(c, h, l, x)
    &&& slot_kept(c, m, k, Buf::KCache(l), ms, w, r)
    &&& slot_kept(c, m, k, Buf::VCache(l), ms, w, r)
    &&& others_kept(m, k, l)
}

/// The first part of a layer: queries, and the new keys and values.
spec fn batch_qkv(s: Seq<CmdView>, g: Geo, b: DenseBlock, l: usize, n: u32) -> Seq<CmdView> {
    let s = rmsnorm(s, g, Buf::X, Buf::Norm(l, NormId::Input), Buf::Xn, n);
    let s = qkv_batch(
        s,
        g,
        lin_of(g, l, Proj::Q, b.q_bias),
        lin_of(g, l, Proj::K, b.k_bias),
        lin_of(g, l, Proj::V, b.v_bias),
        n,
    );
    rope_batch(s, g, l, n)
}

proof fn lemma_batch_qkv(c: Ctx, m0: Mem, s: Seq<CmdView>, g: Geo, b: DenseBlock, l: usize, n: u32, r: int)
    requires
        batch_geo(g),
        plain_block(c, l, b),
        in_slots(c, n as int, g.max_seq as int),
        0 <= r < n,
    ensures
        ({
            let (m, k) = (run(c, m0, s), run(c, m0, batch_qkv(s, g, b, l, n)));
            let (h, w, ms, p) = (dense_shape(g, b), g.kv_dim as int, g.max_seq as int, c.rows[r].1);
            let base = slot_base(c, ms, w, r);
            let x = nth(m, Buf::X, 0, h.hidden, r);
            &&& nth(k, Buf::Q, 0, g.q_dim as int, r) == query_of(c, h, l, x, p)
            &&& nth(k, Buf::KCache(l), base, w, p) == key_of(c, h, l, x, p)
            &&& nth(k, Buf::VCache(l), base, w, p) == value_of(c, h, l, x)
            &&& nth(k, Buf::X, 0, h.hidden, r) == x
            &&& slot_kept(c, m, k, Buf::KCache(l), ms, w, r)
            &&& slot_kept(c, m, k, Buf::VCache(l), ms, w, r)
            &&& others_kept(m, k, l)
        }),
{
    let (h, w, ms, p) = (dense_shape(g, b), g.kv_dim as int, g.max_seq as int, c.rows[r].1);
    let base = slot_base(c, ms, w, r);
    let m = run(c, m0, s);
    let x = nth(m, Buf::X, 0, h.hidden, r);
    assert(w == g.kv_heads * g.head_dim && g.q_dim == g.heads * g.head_dim);
    let s1 = rmsnorm(s, g, Buf::X, Buf::Norm(l, NormId::Input), Buf::Xn, n);
    lemma_rmsnorm(c, m0, s, g, Buf::X, Buf::Norm(l, NormId::Input), Buf::Xn, n, r);
    let (lq, lk, lv) = (
        lin_of(g, l, Proj::Q, b.q_bias),
        lin_of(g, l, Proj::K, b.k_bias),
        lin_of(g, l, Proj::V, b.v_bias),
    );
    let m1 = run(c, m0, s1);
    let s2 = qkv_batch(s1, g, lq, lk, lv, n);
    lemma_qkv_batch(c, m0, s1, g, lq, lk, lv, n, r);
    let m2 = run(c, m0, s2);
    lemma_rope_batch(c, m0, s2, g, l, n, r);
    let k = run(c, m0, rope_batch(s2, g, l, n));
    let (kc, vc) = (Buf::KCache(l), Buf::VCache(l));
    assert forall|q: int| 0 <= q < p implies #[trigger] nth(k, kc, base, w, q) == nth(m, kc, base, w, q) by {
        assert(nth(k, kc, base, w, q) == nth(m2, kc, base, w, q));
        assert(nth(m2, kc, base, w, q) == nth(m1, kc, base, w, q));
    }
    assert forall|q: int| 0 <= q < p implies #[trigger] nth(k, vc, base, w, q) == nth(m, vc, base, w, q) by {
        assert(nth(k, vc, base, w, q) == nth(m2, vc, base, w, q));
        assert(nth(m2, vc, base, w, q) == nth(m1, vc, base, w, q));
    }
}

/// The second part: what the queries find, and the feed-forward part.
spec fn batch_rest(s: Seq<CmdView>, g: Geo, b: DenseBlock, l: usize, splits: int, n: u32) -> Seq<CmdView> {
    let s = attention_batch(s, g, l, splits, n);
    let s = matvec_batch(s, lin_of(g, l, Proj::O, b.o_bias), Buf::Att, Buf::X, n);
    let s = rmsnorm(s, g, Buf::X, Buf::Norm(l, NormId::Post), Buf::Xn, n);
    let s = swiglu_batch(s, lin_of(g, l, Proj::Gate, b.gate_bias), lin_of(g, l, Proj::Up, b.up_bias), n);
    matvec_batch(s, lin_of(g, l, Proj::Down, b.down_bias), Buf::Gate, Buf::X, n)
}

proof fn lemma_batch_rest(c: Ctx, m0: Mem, s: Seq<CmdView>, g: Geo, b: DenseBlock, l: usize, splits: int, n: u32, r: int)
    requires
        batch_geo(g),
        plain_block(c, l, b),
        in_slots(c, n as int, g.max_seq as int),
        splits_reach(c, g, splits, n as int),
        0 <= r < n,
    ensures
        ({
            let (m, k) = (run(c, m0, s), run(c, m0, batch_rest(s, g, b, l, splits, n)));
            let h = dense_shape(g, b);
            let x = nth(m, Buf::X, 0, h.hidden, r);
            &&& nth(k, Buf::X, 0, h.hidden, r) == feed_out(
                c,
                h,
                l,
                attention_out(c, h, l, x, seen_in_slot(c, m, g, l, r)),
            )
            &&& caches_kept(m, k)
        }),
{
    let h = dense_shape(g, b);
    let hid = g.hidden as int;
    let m = run(c, m0, s);
    let x = nth(m, Buf::X, 0, hid, r);
    let a = seen_in_slot(c, m, g, l, r);
    let s1 = attention_batch(s, g, l, splits, n);
    lemma_attention_batch(c, m0, s, g, l, splits, n, r);
    let (lo, lg, lu, ld) = (
        lin_of(g, l, Proj::O, b.o_bias),
        lin_of(g, l, Proj::Gate, b.gate_bias),
        lin_of(g, l, Proj::Up, b.up_bias),
        lin_of(g, l, Proj::Down, b.down_bias),
    );
    let s2 = matvec_batch(s1, lo, Buf::Att, Buf::X, n);
    lemma_matvec_batch(c, m0, s1, lo, Buf::Att, Buf::X, n, r);
    let m2 = run(c, m0, s2);
    let y = attention_out(c, h, l, x, a);
    assert(nth(m2, Buf::X, 0, hid, r) == y);
    let s3 = rmsnorm(s2, g, Buf::X, Buf::Norm(l, NormId::Post), Buf::Xn, n);
    lemma_rmsnorm(c, m0, s2, g, Buf::X, Buf::Norm(l, NormId::Post), Buf::Xn, n, r);
    let m3 = run(c, m0, s3);
    let z = normed(Buf::Norm(l, NormId::Post), y);
    assert(nth(m3, Buf::Xn, 0, hid, r) == z);
    let s4 = swiglu_batch(s3, lg, lu, n);
    lemma_swiglu_batch(c, m0, s3, lg, lu, n, r);
    let m4 = run(c, m0, s4);
    assert(nth(m4, Buf::Gate, 0, g.inter as int, r) == gated(
        project(c, l, Proj::Gate, z, h.inter),
        project(c, l, Proj::Up, z, h.inter),
    ));
    lemma_matvec_batch(c, m0, s4, ld, Buf::Gate, Buf::X, n, r);
}

/// A layer of a batched step takes each row through the block that a step of its
/// own would take it through.
pub proof fn lemma_batch_layer(c: Ctx, m0: Mem, s: Seq<CmdView>, g: Geo, b: DenseBlock, l: usize, splits: int, n: u32, r: int)
    requires
        batch_geo(g),
        plain_block(c, l, b),
        in_slots(c, n as int, g.max_seq as int),
        splits_reach(c, g, splits, n as int),
        0 <= r < n,
    ensures
        row_done(
            c,
            run(c, m0, s),
            run(c, m0, batch_layer(s, g, b, l, splits, n)),
            g,
            dense_shape(g, b),
            l,
            r,
        ),
{
    let (h, w, ms, p) = (dense_shape(g, b), g.kv_dim as int, g.max_seq as int, c.rows[r].1);
    let base = slot_base(c, ms, w, r);
    let (kc, vc) = (Buf::KCache(l), Buf::VCache(l));
    let t = batch_qkv(s, g, b, l, n);
    let u = batch_rest(t, g, b, l, splits, n);
    assert(u == batch_layer(s, g, b, l, splits, n));
    lemma_batch_qkv(c, m0, s, g, b, l, n, r);
    lemma_batch_rest(c, m0, t, g, b, l, splits, n, r);
    let (m, mt, k) = (run(c, m0, s), run(c, m0, t), run(c, m0, u));
    let x = nth(m, Buf::X, 0, h.hidden, r);
    let xs = seq![x];
    let (keys, values) = (keys_upto(c, m, h, l, base, p, xs, 0), values_upto(c, m, h, l, base, p, xs, 0));
    assert(w == g.kv_heads * g.head_dim && g.q_dim == g.heads * g.head_dim);
    lemma_slot_table(c, m, mt, kc, g, r, keys);
    lemma_slot_table(c, m, mt, vc, g, r, values);
    let a = Attention {
        query: query_of(c, h, l, x, p),
        keys,
        values,
        heads: h.heads,
        kv_heads: h.kv_heads,
        head_dim: h.head_dim,
        at: p,
    };
    assert(seen_in_slot(c, mt, g, l, r) == a);
    assert(xs[0] == x);
    assert(rows_out(c, m, h, l, base, p, xs)[0] == block_out(c, h, l, x, keys, values, p));
    lemma_kept_rows(mt, k, base, w);
    assert forall|q: int| 0 <= q < p implies #[trigger] nth(k, kc, base, w, q) == nth(m, kc, base, w, q) by {
        assert(nth(k, kc, base, w, q) == nth(mt, kc, base, w, q));
    }
    assert forall|q: int| 0 <= q < p implies #[trigger] nth(k, vc, base, w, q) == nth(m, vc, base, w, q) by {
        assert(nth(k, vc, base, w, q) == nth(mt, vc, base, w, q));
    }
}

/// The keys of a slot once the new one stands in it.
proof fn lemma_slot_table(c: Ctx, m: Mem, k: Mem, y: Buf, g: Geo, r: int, want: Seq<Seq<Term>>)
    requires
        0 <= c.rows[r].1,
        slot_kept(c, m, k, y, g.max_seq as int, g.kv_dim as int, r),
        want.len() == c.rows[r].1 + 1,
        forall|p: int|
            0 <= p < c.rows[r].1 ==> #[trigger] want[p] == nth(
                m,
                y,
                slot_base(c, g.max_seq as int, g.kv_dim as int, r),
                g.kv_dim as int,
                p,
            ),
        want[c.rows[r].1] == nth(
            k,
            y,
            slot_base(c, g.max_seq as int, g.kv_dim as int, r),
            g.kv_dim as int,
            c.rows[r].1,
        ),
    ensures
        table(k, y, slot_base(c, g.max_seq as int, g.kv_dim as int, r), g.kv_dim as int, c.rows[r].1 + 1) == want,
{
    let (base, w) = (slot_base(c, g.max_seq as int, g.kv_dim as int, r), g.kv_dim as int);
    let t = table(k, y, base, w, c.rows[r].1 + 1);
    assert forall|p: int| 0 <= p < t.len() implies t[p] == want[p] by {
        assert(t[p] == nth(k, y, base, w, p)) by {
            reveal(nth);
        }
    }
    assert(t =~= want);
}

// ---------- a whole step ----------

/// The rows of a batch, as the kernels read them.
pub open spec fn reads_rows(c: Ctx, rows: Seq<BatchRow>) -> bool {
    c.rows == Seq::new(rows.len(), |i: int| (row_meta(rows)[i].slot as int, row_meta(rows)[i].pos as int))
}

/// No two rows share a slot.
pub open spec fn slots_apart(rows: Seq<BatchRow>) -> bool {
    forall|i: int, j: int|
        0 <= i < rows.len() && 0 <= j < rows.len() && i != j ==> (#[trigger] rows[i]).slot != (#[trigger] rows[j]).slot
}

/// What the law of a batched step asks for.
pub open spec fn batch_ok(c: Ctx, g: Geo, blocks: Seq<DenseBlock>, head_bias: bool, rows: Seq<BatchRow>, n_slots: nat) -> bool {
    &&& batch_geo(g)
    &&& rows_ok(g, rows, n_slots)
    &&& slots_apart(rows)
    &&& reads_rows(c, rows)
    &&& blocks.len() <= usize::MAX
    &&& rows.len() * g.hidden <= u32::MAX
    &&& (c.biased)(Buf::Bias(blocks.len() as usize, Proj::Head)) <==> head_bias
    &&& forall|l: int| 0 <= l < blocks.len() ==> plain_block(c, l as usize, #[trigger] blocks[l])
}

proof fn lemma_splits_reach(rows: Seq<BatchRow>, g: Geo, n_slots: nat, k: nat)
    requires
        rows_ok(g, rows, n_slots),
        k <= rows.len(),
    ensures
        1 <= splits_now(rows, k) <= splits_max(g),
        forall|i: int| 0 <= i < k ==> (#[trigger] rows[i]).pos < splits_now(rows, k) * ATTN_SPLIT,
    decreases k,
{
    assert(rows[0].pos < g.max_seq);
    if k > 0 {
        lemma_splits_reach(rows, g, n_slots, (k - 1) as nat);
        assert(rows[k - 1].pos < g.max_seq);
    }
}

proof fn lemma_in_slots(c: Ctx, g: Geo, rows: Seq<BatchRow>, n_slots: nat)
    requires
        rows_ok(g, rows, n_slots),
        slots_apart(rows),
        reads_rows(c, rows),
    ensures
        in_slots(c, rows.len() as int, g.max_seq as int),
        splits_reach(c, g, splits_now(rows, rows.len()), rows.len() as int),
        forall|i: int| 0 <= i < rows.len() ==> #[trigger] c.rows[i] == (rows[i].slot as int, rows[i].pos as int),
{
    lemma_splits_reach(rows, g, n_slots, rows.len());
    assert forall|i: int| 0 <= i < rows.len() implies #[trigger] c.rows[i] == (rows[i].slot as int, rows[i].pos as int) by {
        assert(rows[i].pos < g.max_seq && rows[i].slot < n_slots);
    }
    assert forall|i: int, j: int| 0 <= i < rows.len() && 0 <= j < rows.len() && i != j implies (#[trigger] c.rows[i]).0 != (
    #[trigger] c.rows[j]).0 by {
        assert(rows[i].slot != rows[j].slot);
    }
    assert forall|i: int| 0 <= i < rows.len() implies 0 <= (#[trigger] c.rows[i]).0 && 0 <= c.rows[i].1 < g.max_seq by {
        assert(rows[i].pos < g.max_seq);
    }
    assert forall|i: int| 0 <= i < rows.len() implies (#[trigger] c.rows[i]).1 < splits_now(rows, rows.len()) * ATTN_SPLIT by {
        assert(rows[i].pos < splits_now(rows, rows.len()) * ATTN_SPLIT);
    }
}

/// The layers of a batched step.
proof fn lemma_batch_layers(
    c: Ctx,
    m0: Mem,
    s: Seq<CmdView>,
    g: Geo,
    blocks: Seq<DenseBlock>,
    splits: int,
    n: u32,
    k: nat,
    r: int,
)
    requires
        batch_geo(g),
        in_slots(c, n as int, g.max_seq as int),
        splits_reach(c, g, splits, n as int),
        forall|l: int| 0 <= l < blocks.len() ==> plain_block(c, l as usize, #[trigger] blocks[l]),
        k <= blocks.len() <= usize::MAX,
        0 <= r < n,
    ensures
        ({
            let (m, e) = (run(c, m0, s), run(c, m0, batch_layers(s, g, blocks, splits, n, k)));
            let (w, ms, p, hid) = (g.kv_dim as int, g.max_seq as int, c.rows[r].1, g.hidden as int);
            let base = slot_base(c, ms, w, r);
            let xs = seq![nth(m, Buf::X, 0, hid, r)];
            &&& seq![nth(e, Buf::X, 0, hid, r)] == hidden_rows(c, m, dense_shapes(g, blocks), base, p, 0, xs, k as int)
            &&& forall|l: usize, a: int, z: int|
                l >= k ==> #[trigger] row(e, Buf::KCache(l), a, z) == row(m, Buf::KCache(l), a, z)
            &&& forall|l: usize, a: int, z: int|
                l >= k ==> #[trigger] row(e, Buf::VCache(l), a, z) == row(m, Buf::VCache(l), a, z)
            &&& forall|l: usize|
                l < k ==> #[trigger] cached(
                    c,
                    m,
                    e,
                    base,
                    dense_shape(g, blocks[l as int]),
                    l,
                    p,
                    hidden_rows(c, m, dense_shapes(g, blocks), base, p, 0, xs, l as int),
                )
        }),
    decreases k,
{
    if k > 0 {
        lemma_batch_layers(c, m0, s, g, blocks, splits, n, (k - 1) as nat, r);
        let before = batch_layers(s, g, blocks, splits, n, (k - 1) as nat);
        let (b, j) = (blocks[k - 1], (k - 1) as usize);
        let (m, d, e) = (run(c, m0, s), run(c, m0, before), run(c, m0, batch_layers(s, g, blocks, splits, n, k)));
        let (w, ms, p, hid) = (g.kv_dim as int, g.max_seq as int, c.rows[r].1, g.hidden as int);
        let (h, base) = (dense_shape(g, b), slot_base(c, ms, w, r));
        let xs = seq![nth(m, Buf::X, 0, hid, r)];
        assert(plain_block(c, j, blocks[k - 1]));
        lemma_batch_layer(c, m0, before, g, b, j, splits, n, r);
        let ys = hidden_rows(c, m, dense_shapes(g, blocks), base, p, 0, xs, k - 1);
        assert(ys == seq![nth(d, Buf::X, 0, hid, r)]);
        lemma_rows_out_same(c, m, d, h, j, base, p, ys);
        let now = hidden_rows(c, m, dense_shapes(g, blocks), base, p, 0, xs, k as int);
        assert(now == rows_out(c, m, h, j, base, p, ys));
        assert(seq![nth(e, Buf::X, 0, hid, r)] =~= now);
        assert(w == g.kv_heads * g.head_dim);
        lemma_slot_cached(c, m, d, e, g, h, j, r);
        assert forall|l: usize| l < k implies #[trigger] cached(
            c,
            m,
            e,
            base,
            dense_shape(g, blocks[l as int]),
            l,
            p,
            hidden_rows(c, m, dense_shapes(g, blocks), base, p, 0, xs, l as int),
        ) by {
            if l != j {
                lemma_cached_stays(
                    c,
                    m,
                    d,
                    e,
                    base,
                    dense_shape(g, blocks[l as int]),
                    l,
                    j,
                    p,
                    hidden_rows(c, m, dense_shapes(g, blocks), base, p, 0, xs, l as int),
                );
            }
        }
    }
}

/// The slot of a row, once a layer is done.
proof fn lemma_slot_cached(c: Ctx, m: Mem, d: Mem, e: Mem, g: Geo, h: Shape, l: usize, r: int)
    requires
        row_done(c, d, e, g, h, l, r),
        h.kv_heads * h.head_dim == g.kv_dim,
        forall|a: int, w: int| #[trigger] row(d, Buf::KCache(l), a, w) == row(m, Buf::KCache(l), a, w),
        forall|a: int, w: int| #[trigger] row(d, Buf::VCache(l), a, w) == row(m, Buf::VCache(l), a, w),
    ensures
        cached(
            c,
            m,
            e,
            slot_base(c, g.max_seq as int, g.kv_dim as int, r),
            h,
            l,
            c.rows[r].1,
            seq![nth(d, Buf::X, 0, h.hidden, r)],
        ),
{
    let (base, w, p) = (slot_base(c, g.max_seq as int, g.kv_dim as int, r), g.kv_dim as int, c.rows[r].1);
    assert forall|q: int| 0 <= q < p implies #[trigger] nth(e, Buf::KCache(l), base, w, q) == nth(
        m,
        Buf::KCache(l),
        base,
        w,
        q,
    ) by {
        assert(nth(e, Buf::KCache(l), base, w, q) == nth(d, Buf::KCache(l), base, w, q));
        reveal(nth);
    }
    assert forall|q: int| 0 <= q < p implies #[trigger] nth(e, Buf::VCache(l), base, w, q) == nth(
        m,
        Buf::VCache(l),
        base,
        w,
        q,
    ) by {
        assert(nth(e, Buf::VCache(l), base, w, q) == nth(d, Buf::VCache(l), base, w, q));
        reveal(nth);
    }
}

/// Each row of a batched step goes through the transformer as a step of one row
/// does, over the cache of its own slot: its logits are those of its own token, and
/// its slot holds its keys and values behind those that were there.
pub proof fn lemma_batch_is_the_transformer(
    c: Ctx,
    m: Mem,
    g: Geo,
    blocks: Seq<DenseBlock>,
    head_bias: bool,
    rows: Seq<BatchRow>,
    n_slots: nat,
    i: int,
)
    requires
        batch_ok(c, g, blocks, head_bias, rows, n_slots),
        0 <= i < rows.len(),
    ensures
        ({
            let k = run(c, m, batch_step(g, blocks, head_bias, rows));
            let (last, pos) = (blocks.len() as usize, rows[i].pos as int);
            let base = rows[i].slot * g.max_seq * g.kv_dim;
            let xs = seq![Seq::new(g.hidden as nat, |j: int| Term::Picked(Buf::EmbedTable, Buf::Ids, i, j))];
            &&& row_ids(rows)[i] == rows[i].token
            &&& nth(k, Buf::Logits, 0, g.vocab as int, i) == project(
                c,
                last,
                Proj::Head,
                normed(
                    Buf::Norm(last, NormId::Final),
                    hidden_rows(c, m, dense_shapes(g, blocks), base, pos, 0, xs, last as int)[0],
                ),
                g.vocab as int,
            )
            &&& forall|l: usize|
                l < last ==> #[trigger] cached(
                    c,
                    m,
                    k,
                    base,
                    dense_shape(g, blocks[l as int]),
                    l,
                    pos,
                    hidden_rows(c, m, dense_shapes(g, blocks), base, pos, 0, xs, l as int),
                )
        }),
{
    let e = Seq::<CmdView>::empty();
    let n = rows.len() as u32;
    let (hid, last, pos) = (g.hidden as int, blocks.len() as usize, rows[i].pos as int);
    let splits = splits_now(rows, rows.len());
    lemma_in_slots(c, g, rows, n_slots);
    assert(c.rows[i] == (rows[i].slot as int, rows[i].pos as int));
    let base = slot_base(c, g.max_seq as int, g.kv_dim as int, i);
    assert(base == rows[i].slot * g.max_seq * g.kv_dim);
    let xs = seq![Seq::new(g.hidden as nat, |j: int| Term::Picked(Buf::EmbedTable, Buf::Ids, i, j))];
    let s = embed(e, g, n);
    lemma_embed(c, m, e, g, n, i);
    let m1 = run(c, m, s);
    assert(seq![nth(m1, Buf::X, 0, hid, i)] =~= xs);
    let t = batch_layers(s, g, blocks, splits, n, blocks.len());
    lemma_batch_layers(c, m, s, g, blocks, splits, n, blocks.len(), i);
    let m2 = run(c, m, t);
    let w = Buf::Norm(last, NormId::Final);
    let u = rmsnorm(t, g, Buf::X, w, Buf::Xn, n);
    lemma_rmsnorm(c, m, t, g, Buf::X, w, Buf::Xn, n, i);
    lemma_linear(
        c,
        m,
        u,
        Kernel::Matvec,
        Kernel::Matmul,
        lin_of(g, last, Proj::Head, head_bias),
        Buf::Xn,
        0,
        Buf::Logits,
        0,
        n,
        false,
        false,
        false,
        i,
    );
    let k = run(c, m, batch_step(g, blocks, head_bias, rows));
    assert(caches_kept(m, m1));
    assert(caches_kept(m2, k));
    lemma_hidden_same(c, m, m1, dense_shapes(g, blocks), base, pos, 0, xs, last as int);
    let out = hidden_rows(c, m, dense_shapes(g, blocks), base, pos, 0, xs, last as int);
    assert(out == seq![nth(m2, Buf::X, 0, hid, i)]);
    assert(out[0] == nth(m2, Buf::X, 0, hid, i));
    assert forall|l: usize| l < last implies #[trigger] cached(
        c,
        m,
        k,
        base,
        dense_shape(g, blocks[l as int]),
        l,
        pos,
        hidden_rows(c, m, dense_shapes(g, blocks), base, pos, 0, xs, l as int),
    ) by {
        let h = dense_shape(g, blocks[l as int]);
        lemma_hidden_same(c, m, m1, dense_shapes(g, blocks), base, pos, 0, xs, l as int);
        let ys = hidden_rows(c, m, dense_shapes(g, blocks), base, pos, 0, xs, l as int);
        lemma_cached_stays(c, m1, m2, k, base, h, l, (l + 1) as usize, pos, ys);
        lemma_cached_from(c, m, m1, k, base, h, l, pos, ys);
    }
}

// ---------- together and alone ----------

/// A row of a batched layer comes out as it does from the layer of a decode step of
/// its own, over a cache that holds what its slot holds: the same weights in the
/// same roles.
pub proof fn lemma_batch_layer_is_the_decode_layer(
    c: Ctx,
    m0: Mem,
    s: Seq<CmdView>,
    g: Geo,
    b: DenseBlock,
    l: usize,
    splits: int,
    n: u32,
    r: int,
    m1: Mem,
    t: Seq<CmdView>,
    ga: Geo,
    pos: u32,
)
    requires
        batch_geo(g),
        plain_block(c, l, b),
        in_slots(c, n as int, g.max_seq as int),
        splits_reach(c, g, splits, n as int),
        0 <= r < n,
        // The step of its own.
        ga == (Geo { kv_base: ga.kv_base, win: None, ..g }),
        dense_geo(ga),
        ga.kv_base / 2 + (ga.extent() + 64) * ga.kv_dim <= u32::MAX,
        pos == c.rows[r].1,
        row(run(c, m1, t), Buf::X, 0, g.hidden as int) == nth(run(c, m0, s), Buf::X, 0, g.hidden as int, r),
        forall|p: int|
            0 <= p < pos ==> #[trigger] nth(run(c, m1, t), Buf::KCache(l), ga.kv_base as int / 2, g.kv_dim as int, p) == nth(
                run(c, m0, s),
                Buf::KCache(l),
                slot_base(c, g.max_seq as int, g.kv_dim as int, r),
                g.kv_dim as int,
                p,
            ),
        forall|p: int|
            0 <= p < pos ==> #[trigger] nth(run(c, m1, t), Buf::VCache(l), ga.kv_base as int / 2, g.kv_dim as int, p) == nth(
                run(c, m0, s),
                Buf::VCache(l),
                slot_base(c, g.max_seq as int, g.kv_dim as int, r),
                g.kv_dim as int,
                p,
            ),
    ensures
        ({
            let e = run(c, m0, batch_layer(s, g, b, l, splits, n));
            let a = run(c, m1, decode_layer(t, ga, b, l, pos));
            let (w, at) = (g.kv_dim as int, slot_base(c, g.max_seq as int, g.kv_dim as int, r));
            &&& nth(e, Buf::X, 0, g.hidden as int, r) == row(a, Buf::X, 0, g.hidden as int)
            &&& nth(e, Buf::KCache(l), at, w, pos as int) == nth(a, Buf::KCache(l), ga.kv_base as int / 2, w, pos as int)
            &&& nth(e, Buf::VCache(l), at, w, pos as int) == nth(a, Buf::VCache(l), ga.kv_base as int / 2, w, pos as int)
        }),
{
    lemma_batch_layer(c, m0, s, g, b, l, splits, n, r);
    assert(c.rows[r].1 < g.max_seq);
    lemma_decode_layer(c, m1, t, ga, b, l, pos);
    let (e, a) = (run(c, m0, batch_layer(s, g, b, l, splits, n)), run(c, m1, decode_layer(t, ga, b, l, pos)));
    let (m, q) = (run(c, m0, s), run(c, m1, t));
    let (h, w, p, hid) = (dense_shape(g, b), g.kv_dim as int, pos as int, g.hidden as int);
    assert(dense_shape(ga, b) == h);
    assert(w == g.kv_heads * g.head_dim);
    let (base, at) = (ga.kv_base as int / 2, slot_base(c, g.max_seq as int, w, r));
    let x = nth(m, Buf::X, 0, hid, r);
    let (xs, ys) = (seq![x], rows_of(q, Buf::X, hid, 1));
    assert(ys[0] == row(q, Buf::X, 0, hid)) by {
        reveal(nth);
    }
    assert(ys =~= xs);
    assert(keys_upto(c, m, h, l, at, p, xs, 0) =~= keys_upto(c, q, h, l, base, p, ys, 0));
    assert(values_upto(c, m, h, l, at, p, xs, 0) =~= values_upto(c, q, h, l, base, p, ys, 0));
    let out = rows_of(a, Buf::X, hid, 1);
    assert(out[0] == rows_out(c, q, h, l, base, p, ys)[0]);
    assert(out[0] == row(a, Buf::X, 0, hid)) by {
        reveal(nth);
    }
    assert(nth(a, Buf::KCache(l), base, w, p + 0) == key_of(c, h, l, ys[0], p + 0));
    assert(nth(a, Buf::VCache(l), base, w, p + 0) == value_of(c, h, l, ys[0]));
}

} // verus!
