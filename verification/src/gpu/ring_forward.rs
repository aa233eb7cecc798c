//! What a layer computes over a windowed cache: every key and value goes to the slot
//! of its position, every other slot stays, and a query finds the whole ring.
use vstd::prelude::*;

use crate::gpu::dense::{
    DenseBlock, Step, chunk_rows, decode_layer, lin_half, lin_of, prefill_layer, prefill_mlp, rows_fit, stage_span,
    stage_spans, v_base,
};
use crate::gpu::encode::{rmsnorm_both, rmsnorm_heads, rope, rope_cache, to_half};
use crate::gpu::forward::{
    Shape, attention_out, biases_known, caches_kept, chunk_attended, decode_qkv, decode_rest, dense_shape, feed_out, key_of,
    lemma_chunk_attended, lemma_chunk_fed, lemma_decode_qkv, lemma_decode_rest, lemma_kept_both, lemma_kept_rows,
    lemma_shift, others_kept, project, query_of, rows_of, value_of, wide_geo,
};
use crate::gpu::launches::{
    heads_normed, lemma_barrier, lemma_linear, lemma_mark, lemma_rmsnorm_both, lemma_rmsnorm_one, lemma_rmsnorm_heads, lemma_rope, lemma_rope_cache,
    lemma_to_half, normed, nth, only, seen, turned, within,
};
use crate::gpu::meaning::{Attention, Ctx, Mem, Term, lemma_inside, row, run, table};
use crate::gpu::ops::{Buf, CmdView, Geo, Kernel, NormId, Proj, with_barrier};
use crate::gpu::quant::{
    QuantBlock, QuantModel, decode_full, marked_norm, prefill_full, quant_decode_layer, quant_prefill_layer,
    quant_stage_span, quant_stage_spans, query_buf,
};
use crate::gpu::quant_forward::{
    chunk_found, chunk_normed, chunk_staged, fed_chunk, fed_one, full_qkv, full_rest, lemma_chunk_found, lemma_chunk_normed,
    lemma_chunk_staged, lemma_fed_chunk, lemma_fed_one, lemma_full_qkv, lemma_full_rest, lemma_marked_norm,
    lemma_stage_places, quant_shape, types_known,
};
use crate::gpu::timing::Phase;
use crate::gpu::window::{
    PREFILL_CHUNK, Span, WindowCfg, lemma_slot_in_cache, lemma_slots_distinct, lemma_spans_cover, spans_fit, write_spans,
};

verus! {

/// Slot `q` is that of row `r` of a run.
pub open spec fn slot_is(w: WindowCfg, pos0: int, n: int, q: int, r: int) -> bool {
    0 <= r < n && w.slot(pos0 + r) == q
}

/// The slots of a cache once the rows of a run went to theirs.
pub open spec fn ring_after(
    m: Mem,
    b: Buf,
    base: int,
    kw: int,
    w: WindowCfg,
    pos0: int,
    n: int,
    f: spec_fn(int) -> Seq<Term>,
) -> Seq<Seq<Term>> {
    Seq::new(
        w.cap as nat,
        |q: int|
            if exists|r: int| #[trigger] slot_is(w, pos0, n, q, r) {
                f(choose|r: int| #[trigger] slot_is(w, pos0, n, q, r))
            } else {
                nth(m, b, base, kw, q)
            },
    )
}

pub open spec fn ring_keys(c: Ctx, m: Mem, h: Shape, l: usize, w: WindowCfg, base: int, pos0: int, xs: Seq<Seq<Term>>) -> Seq<
    Seq<Term>,
> {
    ring_after(
        m,
        Buf::KCache(l),
        base,
        h.kv_heads * h.head_dim,
        w,
        pos0,
        xs.len() as int,
        |r: int| key_of(c, h, l, xs[r], pos0 + r),
    )
}

pub open spec fn ring_values(c: Ctx, m: Mem, h: Shape, l: usize, w: WindowCfg, base: int, pos0: int, xs: Seq<Seq<Term>>) -> Seq<
    Seq<Term>,
> {
    ring_after(
        m,
        Buf::VCache(l),
        base,
        h.kv_heads * h.head_dim,
        w,
        pos0,
        xs.len() as int,
        |r: int| value_of(c, h, l, xs[r]),
    )
}

/// Row `r` of a run through a block over a ring.
pub open spec fn ring_out(
    c: Ctx,
    m: Mem,
    h: Shape,
    l: usize,
    w: WindowCfg,
    base: int,
    pos0: int,
    xs: Seq<Seq<Term>>,
    r: int,
) -> Seq<Term> {
    let a = Attention {
        query: query_of(c, h, l, xs[r], pos0 + r),
        keys: ring_keys(c, m, h, l, w, base, pos0, xs),
        values: ring_values(c, m, h, l, w, base, pos0, xs),
        heads: h.heads,
        kv_heads: h.kv_heads,
        head_dim: h.head_dim,
        at: pos0 + r,
    };
    feed_out(c, h, l, attention_out(c, h, l, xs[r], a))
}

/// The rows of a run went through the block, and its keys and values to their slots.
pub open spec fn ring_done(c: Ctx, m: Mem, e: Mem, g: Geo, h: Shape, l: usize, w: WindowCfg, pos0: int, n: int) -> bool {
    let (xs, base, kw) = (rows_of(m, Buf::X, h.hidden, n), g.kv_base as int / 2, h.kv_heads * h.head_dim);
    &&& forall|r: int| 0 <= r < n ==> #[trigger] nth(e, Buf::X, 0, h.hidden, r) == ring_out(c, m, h, l, w, base, pos0, xs, r)
    &&& table(e, Buf::KCache(l), base, kw, w.cap as int) == ring_keys(c, m, h, l, w, base, pos0, xs)
    &&& table(e, Buf::VCache(l), base, kw, w.cap as int) == ring_values(c, m, h, l, w, base, pos0, xs)
    &&& others_kept(m, e, l)
}

/// Each row at its slot, and nothing else changed.
pub open spec fn slots_hold(
    m: Mem,
    k: Mem,
    b: Buf,
    base: int,
    kw: int,
    w: WindowCfg,
    pos0: int,
    n: int,
    f: spec_fn(int) -> Seq<Term>,
) -> bool {
    &&& forall|r: int| 0 <= r < n ==> nth(k, b, base, kw, #[trigger] w.slot(pos0 + r)) == f(r)
    &&& forall|q: int|
        0 <= q < w.cap && !(exists|r: int| #[trigger] slot_is(w, pos0, n, q, r)) ==> #[trigger] nth(k, b, base, kw, q) == nth(
            m,
            b,
            base,
            kw,
            q,
        )
}

proof fn lemma_ring_table(m: Mem, k: Mem, b: Buf, base: int, kw: int, w: WindowCfg, pos0: int, n: int, f: spec_fn(int) -> Seq<Term>)
    requires
        slots_hold(m, k, b, base, kw, w, pos0, n, f),
    ensures
        table(k, b, base, kw, w.cap as int) == ring_after(m, b, base, kw, w, pos0, n, f),
{
    let (t, z) = (table(k, b, base, kw, w.cap as int), ring_after(m, b, base, kw, w, pos0, n, f));
    assert forall|q: int| 0 <= q < w.cap implies t[q] == z[q] by {
        assert(t[q] == nth(k, b, base, kw, q)) by {
            reveal(nth);
        }
        if exists|r: int| #[trigger] slot_is(w, pos0, n, q, r) {
            let r = choose|r: int| #[trigger] slot_is(w, pos0, n, q, r);
            assert(nth(k, b, base, kw, w.slot(pos0 + r)) == f(r));
        }
    }
    assert(t =~= z);
}

/// One slot written.
proof fn lemma_one_slot(m: Mem, k: Mem, b: Buf, base: int, kw: int, w: WindowCfg, pos: int, f: spec_fn(int) -> Seq<Term>)
    requires
        w.ok(),
        0 <= pos,
        0 <= kw,
        row(k, b, base + w.slot(pos) * kw, kw) == f(0),
        within(m, k, b, base + w.slot(pos) * kw, kw),
    ensures
        slots_hold(m, k, b, base, kw, w, pos, 1, f),
{
    reveal(nth);
    lemma_slot_in_cache(w, pos);
    let s = w.slot(pos);
    assert forall|r: int| 0 <= r < 1 implies nth(k, b, base, kw, #[trigger] w.slot(pos + r)) == f(r) by {}
    assert forall|q: int| 0 <= q < w.cap && !(exists|r: int| #[trigger] slot_is(w, pos, 1, q, r)) implies #[trigger] nth(
        k,
        b,
        base,
        kw,
        q,
    ) == nth(m, b, base, kw, q) by {
        assert(q != s) by {
            if q == s {
                assert(slot_is(w, pos, 1, q, 0));
            }
        }
        if q < s {
            lemma_inside(q, s, kw);
        } else {
            lemma_inside(s, q, kw);
        }
        assert(row(k, b, base + q * kw, kw) == row(m, b, base + q * kw, kw));
    }
}

/// A layer of a fused decode step over a window.
pub proof fn lemma_ring_decode_layer(c: Ctx, m0: Mem, s: Seq<CmdView>, g: Geo, w: WindowCfg, b: DenseBlock, l: usize, pos: u32)
    requires
        wide_geo(g),
        g.win == Some(w),
        g.kv_base / 2 + (g.extent() + 64) * g.kv_dim <= u32::MAX,
        biases_known(c, l, b),
        !b.gate_bias,
        !b.up_bias,
    ensures
        ring_done(
            c,
            run(c, m0, s),
            run(c, m0, decode_layer(s, g, b, l, pos)),
            g,
            dense_shape(g, b),
            l,
            w,
            pos as int,
            1,
        ),
{
    let h = dense_shape(g, b);
    let (kc, vc) = (Buf::KCache(l), Buf::VCache(l));
    let (hid, kw, p) = (g.hidden as int, g.kv_heads * g.head_dim, pos as int);
    let base = g.kv_base as int / 2;
    let slot = w.slot(p);
    lemma_slot_in_cache(w, p);
    g.lemma_rows(slot);
    assert(g.kv_dim == kw);
    assert(0 <= slot * kw && slot * kw + kw <= (g.extent() + 64) * kw) by (nonlinear_arith)
        requires
            0 <= slot,
            slot + 1 <= g.extent() + 64,
            0 <= kw,
    ;
    assert(slot * g.kv_dim * 2 == 2 * (slot * kw)) by (nonlinear_arith)
        requires
            g.kv_dim == kw,
    ;
    let off = g.row_off(slot) as u64;
    let kv_off = (g.kv_base / 2 + slot * g.kv_dim) as u32;
    assert(kv_off as int == base + slot * kw);
    assert(off as int / 2 == base + slot * kw);
    let m = run(c, m0, s);
    let t = decode_qkv(s, g, b, l, kv_off, off, pos);
    lemma_decode_qkv(c, m0, s, g, b, l, kv_off, off, pos);
    let mt = run(c, m0, t);
    assert(decode_rest(t, g, b, l, pos) == decode_layer(s, g, b, l, pos));
    lemma_decode_rest(c, m0, t, g, b, l, pos);
    let e = run(c, m0, decode_layer(s, g, b, l, pos));
    let xs = rows_of(m, Buf::X, hid, 1);
    assert(xs[0] == row(m, Buf::X, 0, hid)) by {
        reveal(nth);
    }
    let fk = |r: int| key_of(c, h, l, xs[r], p + r);
    let fv = |r: int| value_of(c, h, l, xs[r]);
    lemma_one_slot(m, mt, kc, base, kw, w, p, fk);
    lemma_one_slot(m, mt, vc, base, kw, w, p, fv);
    lemma_ring_table(m, mt, kc, base, kw, w, p, 1, fk);
    lemma_ring_table(m, mt, vc, base, kw, w, p, 1, fv);
    lemma_tables_kept(mt, e, l, base, kw, w.cap as int);
    assert forall|r: int| 0 <= r < 1 implies #[trigger] nth(e, Buf::X, 0, hid, r) == ring_out(
        c,
        m,
        h,
        l,
        w,
        base,
        p,
        xs,
        r,
    ) by {
        reveal(nth);
        assert(nth(mt, Buf::Q, 0, g.heads * g.head_dim, 0) == query_of(c, h, l, xs[0], p + 0));
        assert(nth(e, Buf::X, 0, hid, 0) == row(e, Buf::X, 0, hid));
    }
}

/// The tables of a layer that is left alone.
proof fn lemma_tables_kept(m: Mem, e: Mem, l: usize, base: int, kw: int, n: int)
    requires
        caches_kept(m, e),
    ensures
        table(e, Buf::KCache(l), base, kw, n) == table(m, Buf::KCache(l), base, kw, n),
        table(e, Buf::VCache(l), base, kw, n) == table(m, Buf::VCache(l), base, kw, n),
{
    assert(table(e, Buf::KCache(l), base, kw, n) =~= table(m, Buf::KCache(l), base, kw, n));
    assert(table(e, Buf::VCache(l), base, kw, n) =~= table(m, Buf::VCache(l), base, kw, n));
}

// ---------- spans ----------

/// A span of staged rows moved to its slots, the keys rotated to their positions.
pub open spec fn span_moved(m: Mem, e: Mem, g: Geo, l: usize, sp: Span, pos0: int, rot: int, base: int) -> bool {
    let (kw, va, d) = (g.kv_dim as int, chunk_rows(g) * g.kv_dim, g.head_dim as int);
    let (kc, vc) = (Buf::KCache(l), Buf::VCache(l));
    &&& only(m, e, kc, vc, vc)
    &&& forall|t: int|
        0 <= t < sp.len ==> #[trigger] nth(e, kc, base, kw, sp.slot + t) == turned(
            nth(m, Buf::Kvs, 0, kw, sp.row + t),
            d,
            rot,
            pos0 + sp.row + t,
        )
    &&& forall|t: int|
        0 <= t < sp.len ==> #[trigger] nth(e, vc, base, kw, sp.slot + t) == nth(m, Buf::Kvs, va, kw, sp.row + t)
    &&& forall|q: int|
        q < sp.slot || sp.slot + sp.len <= q ==> #[trigger] nth(e, kc, base, kw, q) == nth(m, kc, base, kw, q)
    &&& forall|q: int|
        q < sp.slot || sp.slot + sp.len <= q ==> #[trigger] nth(e, vc, base, kw, q) == nth(m, vc, base, kw, q)
}

/// The first row behind the first `k` spans.
pub open spec fn rows_before(spans: Seq<Span>, k: nat) -> int
    decreases k,
{
    if k == 0 {
        0
    } else {
        rows_before(spans, (k - 1) as nat) + spans[k - 1].len
    }
}

/// The spans one by one: each starts where the one before it ended, and each of its
/// rows has the slot of its position.
proof fn lemma_spans_in_turn(w: WindowCfg, spans: Seq<Span>, pos0: int, first: int, n: int, k: int)
    requires
        spans_fit(w, spans, pos0, first, n),
        0 <= k < spans.len(),
    ensures
        spans[k].row == first + rows_before(spans, k as nat),
        forall|t: int| 0 <= t < spans[k].len ==> spans[k].slot + t == #[trigger] w.slot(pos0 + spans[k].row + t),
        first + rows_before(spans, spans.len()) == n,
    decreases spans.len(),
{
    let rest = spans.drop_first();
    lemma_rows_before_rest(spans, spans.len());
    if spans.len() > 1 {
        lemma_spans_in_turn(w, rest, pos0, first + spans[0].len, n, if k > 0 { k - 1 } else { 0 });
    }
    if spans.len() == 1 {
        assert(rows_before(rest, 0) == 0);
        assert(spans_fit(w, rest, pos0, first + spans[0].len, n));
    }
    if k > 0 {
        lemma_rows_before_rest(spans, k as nat);
        assert(spans[k] == rest[k - 1]);
    }
}

proof fn lemma_rows_before_rest(spans: Seq<Span>, k: nat)
    requires
        0 < k <= spans.len(),
    ensures
        rows_before(spans, k) == spans[0].len + rows_before(spans.drop_first(), (k - 1) as nat),
    decreases k,
{
    if k > 1 {
        lemma_rows_before_rest(spans, (k - 1) as nat);
    } else {
        assert(rows_before(spans, 0) == 0);
    }
}

/// The rows before span `k` are fewer than all.
proof fn lemma_rows_before_grows(spans: Seq<Span>, a: nat, b: nat)
    requires
        a <= b <= spans.len(),
    ensures
        0 <= rows_before(spans, a) <= rows_before(spans, b),
    decreases b,
{
    if a < b {
        lemma_rows_before_grows(spans, a, (b - 1) as nat);
    } else if a > 0 {
        lemma_rows_before_grows(spans, (a - 1) as nat, (a - 1) as nat);
    }
}

/// Spans moved one after the other: every row of theirs is at its slot, and every
/// other slot stays.
pub(crate) proof fn lemma_spans_moved(
    mems: spec_fn(nat) -> Mem,
    g: Geo,
    l: usize,
    w: WindowCfg,
    spans: Seq<Span>,
    pos0: int,
    rot: int,
    base: int,
    n: int,
    k: nat,
)
    requires
        w.ok(),
        0 <= pos0,
        n <= PREFILL_CHUNK,
        spans_fit(w, spans, pos0, 0, n),
        k <= spans.len(),
        forall|i: nat| i < spans.len() ==> span_moved(#[trigger] mems(i), mems(i + 1), g, l, spans[i as int], pos0, rot, base),
    ensures
        ({
            let (m, e) = (mems(0), mems(k));
            let (kw, va, d) = (g.kv_dim as int, chunk_rows(g) * g.kv_dim, g.head_dim as int);
            &&& only(m, e, Buf::KCache(l), Buf::VCache(l), Buf::VCache(l))
            &&& slots_hold(
                m,
                e,
                Buf::KCache(l),
                base,
                kw,
                w,
                pos0,
                rows_before(spans, k),
                |r: int| turned(nth(m, Buf::Kvs, 0, kw, r), d, rot, pos0 + r),
            )
            &&& slots_hold(
                m,
                e,
                Buf::VCache(l),
                base,
                kw,
                w,
                pos0,
                rows_before(spans, k),
                |r: int| nth(m, Buf::Kvs, va, kw, r),
            )
        }),
    decreases k,
{
    if k > 0 {
        let j = (k - 1) as nat;
        lemma_spans_moved(mems, g, l, w, spans, pos0, rot, base, n, j);
        lemma_spans_in_turn(w, spans, pos0, 0, n, j as int);
        lemma_rows_before_grows(spans, k, spans.len());
        lemma_rows_before_grows(spans, j, spans.len());
        let (m, p, e) = (mems(0), mems(j), mems(k));
        assert(span_moved(mems(j), mems(j + 1), g, l, spans[j as int], pos0, rot, base));
        let (kw, va, d) = (g.kv_dim as int, chunk_rows(g) * g.kv_dim, g.head_dim as int);
        let sp = spans[k - 1];
        let (kc, vc) = (Buf::KCache(l), Buf::VCache(l));
        let (before, now) = (rows_before(spans, j), rows_before(spans, k));
        let fk = |r: int| turned(nth(m, Buf::Kvs, 0, kw, r), d, rot, pos0 + r);
        let fv = |r: int| nth(m, Buf::Kvs, va, kw, r);
        assert forall|r: int| 0 <= r < now implies nth(e, kc, base, kw, #[trigger] w.slot(pos0 + r)) == fk(r) && nth(
            e,
            vc,
            base,
            kw,
            w.slot(pos0 + r),
        ) == fv(r) by {
            let q = w.slot(pos0 + r);
            if r < before {
                assert(q < sp.slot || sp.slot + sp.len <= q) by {
                    if sp.slot <= q < sp.slot + sp.len {
                        let t = q - sp.slot;
                        assert(sp.slot + t == w.slot(pos0 + sp.row + t));
                        lemma_slots_distinct(w, pos0 + r, pos0 + sp.row + t);
                    }
                }
                assert(nth(p, kc, base, kw, w.slot(pos0 + r)) == fk(r));
                assert(nth(p, vc, base, kw, w.slot(pos0 + r)) == fv(r));
                assert(nth(e, kc, base, kw, q) == nth(p, kc, base, kw, q));
                assert(nth(e, vc, base, kw, q) == nth(p, vc, base, kw, q));
            } else {
                let t = r - before;
                assert(sp.slot + t == w.slot(pos0 + sp.row + t));
                assert(pos0 + sp.row + t == pos0 + r);
                assert(nth(e, kc, base, kw, sp.slot + t) == turned(
                    nth(p, Buf::Kvs, 0, kw, sp.row + t),
                    d,
                    rot,
                    pos0 + sp.row + t,
                ));
                assert(nth(e, vc, base, kw, sp.slot + t) == nth(p, Buf::Kvs, va, kw, sp.row + t));
            }
        }
        assert forall|q: int| 0 <= q < w.cap && !(exists|r: int| #[trigger] slot_is(w, pos0, now, q, r)) implies nth(
            e,
            kc,
            base,
            kw,
            q,
        ) == nth(m, kc, base, kw, q) && nth(e, vc, base, kw, q) == nth(m, vc, base, kw, q) by {
            assert(!(exists|r: int| #[trigger] slot_is(w, pos0, before, q, r))) by {
                if exists|r: int| #[trigger] slot_is(w, pos0, before, q, r) {
                    let r = choose|r: int| #[trigger] slot_is(w, pos0, before, q, r);
                    assert(slot_is(w, pos0, now, q, r));
                }
            }
            assert(q < sp.slot || sp.slot + sp.len <= q) by {
                if sp.slot <= q < sp.slot + sp.len {
                    let t = q - sp.slot;
                    assert(sp.slot + t == w.slot(pos0 + sp.row + t));
                    assert(slot_is(w, pos0, now, q, before + t));
                }
            }
            assert(nth(e, kc, base, kw, q) == nth(p, kc, base, kw, q));
            assert(nth(e, vc, base, kw, q) == nth(p, vc, base, kw, q));
        }
    }
}

// ---------- moving a span ----------

/// A span of a run of `n` rows, inside the staging buffer and inside the cache.
pub open spec fn span_ok(g: Geo, sp: Span, pos0: u32, n: u32) -> bool {
    &&& g.ok()
    &&& 0 < sp.len
    &&& sp.row + sp.len <= n <= chunk_rows(g)
    &&& sp.slot + sp.len <= g.extent()
    &&& pos0 + n <= u32::MAX
    &&& n * g.kv_dim <= u32::MAX
}

/// The places of a span, in bytes.
proof fn lemma_span_places(g: Geo, sp: Span, pos0: u32, n: u32)
    requires
        span_ok(g, sp, pos0, n),
    ensures
        0 <= sp.row * g.kv_dim * 4 <= u64::MAX,
        0 <= g.row_off(sp.slot as int) <= u64::MAX,
        g.row_off(sp.slot as int) / 2 == g.kv_base as int / 2 + sp.slot * g.kv_dim,
        0 <= sp.len * g.kv_dim <= u32::MAX,
        0 <= v_base(g),
        v_base(g) + sp.row * g.kv_dim * 4 <= u64::MAX,
        v_base(g) == 4 * (chunk_rows(g) * g.kv_dim),
        sp.row * g.kv_dim * 4 == 4 * (sp.row * g.kv_dim),
        0 <= sp.slot * g.kv_dim * 2 <= u64::MAX,
        sp.slot * g.kv_dim * 2 == 2 * (sp.slot * g.kv_dim),
{
    let (a, b) = (chunk_rows(g), g.kv_dim as int);
    g.lemma_rows(sp.slot as int);
    assert(0 <= a * b <= 0xF_FFFF * 0xFFFF_FFFF) by (nonlinear_arith)
        requires
            0 <= a <= 0xF_FFFF,
            0 <= b <= 0xFFFF_FFFF,
    ;
    assert(0 <= sp.row * b <= n * b && 0 <= sp.len * b <= n * b) by (nonlinear_arith)
        requires
            0 <= sp.row <= n,
            0 <= sp.len <= n,
            0 <= b,
    ;
    assert(0 <= sp.slot * b) by (nonlinear_arith)
        requires
            0 <= sp.slot,
            0 <= b,
    ;
    assert(sp.slot * b * 2 == 2 * (sp.slot * b));
    assert(sp.row * b * 4 == 4 * (sp.row * b));
    assert(a * b * 4 == 4 * (a * b));
}

/// The slots beside a span.
proof fn lemma_outside_span(m: Mem, e: Mem, b: Buf, base: int, kw: int, sp: Span)
    requires
        0 <= kw,
        within(m, e, b, base + sp.slot * kw, sp.len * kw),
    ensures
        forall|q: int|
            q < sp.slot || sp.slot + sp.len <= q ==> #[trigger] nth(e, b, base, kw, q) == nth(m, b, base, kw, q),
{
    reveal(nth);
    assert forall|q: int| q < sp.slot || sp.slot + sp.len <= q implies #[trigger] nth(e, b, base, kw, q) == nth(
        m,
        b,
        base,
        kw,
        q,
    ) by {
        if q < sp.slot {
            assert(q * kw + kw <= sp.slot * kw) by (nonlinear_arith)
                requires
                    q + 1 <= sp.slot,
                    0 <= kw,
            ;
        } else {
            assert(sp.slot * kw + sp.len * kw <= q * kw) by (nonlinear_arith)
                requires
                    sp.slot + sp.len <= q,
                    0 <= kw,
            ;
        }
        assert(row(e, b, base + q * kw, kw) == row(m, b, base + q * kw, kw));
    }
}

/// One span of a chunk, row by row.
proof fn lemma_dense_span_row(c: Ctx, m0: Mem, s: Seq<CmdView>, g: Geo, l: usize, pos0: u32, sp: Span, n: u32, t: int)
    requires
        span_ok(g, sp, pos0, n),
        0 <= t < sp.len,
    ensures
        ({
            let (m, e) = (run(c, m0, s), run(c, m0, stage_span(s, g, l, pos0, sp)));
            let (kw, va, d, base) = (g.kv_dim as int, chunk_rows(g) * g.kv_dim, g.head_dim as int, 0int);
            let (kc, vc) = (Buf::KCache(l), Buf::VCache(l));
            &&& only(m, e, kc, vc, vc)
            &&& within(m, e, kc, base + sp.slot * kw, sp.len * kw)
            &&& within(m, e, vc, base + sp.slot * kw, sp.len * kw)
            &&& nth(e, kc, base, kw, sp.slot + t) == turned(
                nth(m, Buf::Kvs, 0, kw, sp.row + t),
                d,
                g.head_dim as int,
                pos0 + sp.row + t,
            )
            &&& nth(e, vc, base, kw, sp.slot + t) == nth(m, Buf::Kvs, va, kw, sp.row + t)
        }),
{
    let (kw, va, d, base) = (g.kv_dim as int, chunk_rows(g) * g.kv_dim, g.head_dim as int, 0int);
    let (kc, vc) = (Buf::KCache(l), Buf::VCache(l));
    assert(kw == g.kv_heads * g.head_dim);
    lemma_span_places(g, sp, pos0, n);
    let at = base + sp.slot * kw;
    let (ra, rn) = (sp.row * kw, sp.len * kw);
    let src = (sp.row * g.kv_dim * 4) as u64;
    let dst = (sp.slot * g.kv_dim * 2) as u64;
    let dim = (sp.len * g.kv_dim) as u64;
    assert(src as int / 4 == ra && dst as int / 2 == at && dim as int == rn);
    assert((v_base(g) + src) as u64 as int / 4 == va + ra);
    lemma_inside(t, sp.len as int, kw);
    let m = run(c, m0, s);
    let t1 = s;
    let s1 = to_half(t1, Buf::Kvs, src, kc, dst, dim);
    lemma_to_half(c, m0, t1, Buf::Kvs, src, kc, dst, dim);
    let m1 = run(c, m0, s1);
    assert(nth(m1, kc, at, kw, t) == nth(m, Buf::Kvs, ra, kw, t)) by {
        reveal(nth);
        assert(row(m1, kc, at + t * kw, kw) == row(m, Buf::Kvs, ra + t * kw, kw));
    }
    let t2 = s1;
    let s2 = to_half(t2, Buf::Kvs, (v_base(g) + src) as u64, vc, dst, dim);
    lemma_to_half(c, m0, t2, Buf::Kvs, (v_base(g) + src) as u64, vc, dst, dim);
    let m2 = run(c, m0, s2);
    assert(nth(m2, vc, at, kw, t) == nth(m1, Buf::Kvs, va + ra, kw, t)) by {
        reveal(nth);
        assert(row(m2, vc, at + t * kw, kw) == row(m1, Buf::Kvs, va + ra + t * kw, kw));
    }
    let s3 = with_barrier(s2, true, seq![kc]);
    lemma_barrier(c, m0, s2, true, seq![kc]);
    let t3 = s3;
    let (p, k) = ((pos0 + sp.row) as u32, sp.len as u32);
    lemma_rope_cache(c, m0, t3, g, kc, dst, g.kv_heads, p, k, g.head_dim, g.head_dim, t);
    let s4 = rope_cache(t3, g, kc, dst, g.kv_heads, p, k, g.head_dim, g.head_dim);
    assert(s4 == stage_span(s, g, l, pos0, sp));
    let e = run(c, m0, s4);
    lemma_shift(e, kc, base, kw, sp.slot as int, t);
    lemma_shift(e, vc, base, kw, sp.slot as int, t);
    lemma_shift(m, Buf::Kvs, 0, kw, sp.row as int, t);
    assert(nth(m1, Buf::Kvs, va + ra, kw, t) == nth(m, Buf::Kvs, va + ra, kw, t));
    lemma_shift(m, Buf::Kvs, va, kw, sp.row as int, t);
    assert(nth(m2, kc, at, kw, t) == nth(m1, kc, at, kw, t));
}

proof fn lemma_dense_span_moved(c: Ctx, m0: Mem, s: Seq<CmdView>, g: Geo, l: usize, pos0: u32, sp: Span, n: u32)
    requires
        span_ok(g, sp, pos0, n),
    ensures
        span_moved(
            run(c, m0, s),
            run(c, m0, stage_span(s, g, l, pos0, sp)),
            g,
            l,
            sp,
            pos0 as int,
            g.head_dim as int,
            0int,
        ),
{
    let (m, e) = (run(c, m0, s), run(c, m0, stage_span(s, g, l, pos0, sp)));
    let (kw, va, d, base) = (g.kv_dim as int, chunk_rows(g) * g.kv_dim, g.head_dim as int, 0int);
    let (kc, vc) = (Buf::KCache(l), Buf::VCache(l));
    lemma_dense_span_row(c, m0, s, g, l, pos0, sp, n, 0);
    assert forall|t: int| 0 <= t < sp.len implies #[trigger] nth(e, kc, base, kw, sp.slot + t) == turned(
        nth(m, Buf::Kvs, 0, kw, sp.row + t),
        d,
        g.head_dim as int,
        pos0 + sp.row + t,
    ) by {
        lemma_dense_span_row(c, m0, s, g, l, pos0, sp, n, t);
    }
    assert forall|t: int| 0 <= t < sp.len implies #[trigger] nth(e, vc, base, kw, sp.slot + t) == nth(
        m,
        Buf::Kvs,
        va,
        kw,
        sp.row + t,
    ) by {
        lemma_dense_span_row(c, m0, s, g, l, pos0, sp, n, t);
    }
    lemma_outside_span(m, e, kc, base, kw, sp);
    lemma_outside_span(m, e, vc, base, kw, sp);
}

/// One span of a chunk, row by row.
proof fn lemma_quant_span_row(c: Ctx, m0: Mem, s: Seq<CmdView>, g: Geo, l: usize, pos0: u32, sp: Span, n: u32, t: int)
    requires
        span_ok(g, sp, pos0, n),
        0 <= t < sp.len,
    ensures
        ({
            let (m, e) = (run(c, m0, s), run(c, m0, quant_stage_span(s, g, l, pos0, sp)));
            let (kw, va, d, base) = (g.kv_dim as int, chunk_rows(g) * g.kv_dim, g.head_dim as int, g.kv_base as int / 2);
            let (kc, vc) = (Buf::KCache(l), Buf::VCache(l));
            &&& only(m, e, kc, vc, vc)
            &&& within(m, e, kc, base + sp.slot * kw, sp.len * kw)
            &&& within(m, e, vc, base + sp.slot * kw, sp.len * kw)
            &&& nth(e, kc, base, kw, sp.slot + t) == turned(
                nth(m, Buf::Kvs, 0, kw, sp.row + t),
                d,
                g.rot_dim as int,
                pos0 + sp.row + t,
            )
            &&& nth(e, vc, base, kw, sp.slot + t) == nth(m, Buf::Kvs, va, kw, sp.row + t)
        }),
{
    let (kw, va, d, base) = (g.kv_dim as int, chunk_rows(g) * g.kv_dim, g.head_dim as int, g.kv_base as int / 2);
    let (kc, vc) = (Buf::KCache(l), Buf::VCache(l));
    assert(kw == g.kv_heads * g.head_dim);
    lemma_span_places(g, sp, pos0, n);
    let at = base + sp.slot * kw;
    let (ra, rn) = (sp.row * kw, sp.len * kw);
    let src = (sp.row * g.kv_dim * 4) as u64;
    let dst = (g.row_off(sp.slot as int)) as u64;
    let dim = (sp.len * g.kv_dim) as u64;
    assert(src as int / 4 == ra && dst as int / 2 == at && dim as int == rn);
    assert((v_base(g) + src) as u64 as int / 4 == va + ra);
    lemma_inside(t, sp.len as int, kw);
    let m = run(c, m0, s);
    let t1 = s.push(CmdView::Mark(Phase::KvStage, 1));
    lemma_mark(c, m0, s, Phase::KvStage, 1);
    let s1 = to_half(t1, Buf::Kvs, src, kc, dst, dim);
    lemma_to_half(c, m0, t1, Buf::Kvs, src, kc, dst, dim);
    let m1 = run(c, m0, s1);
    assert(nth(m1, kc, at, kw, t) == nth(m, Buf::Kvs, ra, kw, t)) by {
        reveal(nth);
        assert(row(m1, kc, at + t * kw, kw) == row(m, Buf::Kvs, ra + t * kw, kw));
    }
    let t2 = s1.push(CmdView::Mark(Phase::KvStage, 1));
    lemma_mark(c, m0, s1, Phase::KvStage, 1);
    let s2 = to_half(t2, Buf::Kvs, (v_base(g) + src) as u64, vc, dst, dim);
    lemma_to_half(c, m0, t2, Buf::Kvs, (v_base(g) + src) as u64, vc, dst, dim);
    let m2 = run(c, m0, s2);
    assert(nth(m2, vc, at, kw, t) == nth(m1, Buf::Kvs, va + ra, kw, t)) by {
        reveal(nth);
        assert(row(m2, vc, at + t * kw, kw) == row(m1, Buf::Kvs, va + ra + t * kw, kw));
    }
    let s3 = with_barrier(s2, true, seq![kc]);
    lemma_barrier(c, m0, s2, true, seq![kc]);
    let t3 = s3.push(CmdView::Mark(Phase::Rope, 1));
    lemma_mark(c, m0, s3, Phase::Rope, 1);
    let (p, k) = ((pos0 + sp.row) as u32, sp.len as u32);
    lemma_rope_cache(c, m0, t3, g, kc, dst, g.kv_heads, p, k, g.rot_dim, g.head_dim, t);
    let s4 = rope_cache(t3, g, kc, dst, g.kv_heads, p, k, g.rot_dim, g.head_dim);
    assert(s4 == quant_stage_span(s, g, l, pos0, sp));
    let e = run(c, m0, s4);
    lemma_shift(e, kc, base, kw, sp.slot as int, t);
    lemma_shift(e, vc, base, kw, sp.slot as int, t);
    lemma_shift(m, Buf::Kvs, 0, kw, sp.row as int, t);
    assert(nth(m1, Buf::Kvs, va + ra, kw, t) == nth(m, Buf::Kvs, va + ra, kw, t));
    lemma_shift(m, Buf::Kvs, va, kw, sp.row as int, t);
    assert(nth(m2, kc, at, kw, t) == nth(m1, kc, at, kw, t));
}

proof fn lemma_quant_span_moved(c: Ctx, m0: Mem, s: Seq<CmdView>, g: Geo, l: usize, pos0: u32, sp: Span, n: u32)
    requires
        span_ok(g, sp, pos0, n),
    ensures
        span_moved(
            run(c, m0, s),
            run(c, m0, quant_stage_span(s, g, l, pos0, sp)),
            g,
            l,
            sp,
            pos0 as int,
            g.rot_dim as int,
            g.kv_base as int / 2,
        ),
{
    let (m, e) = (run(c, m0, s), run(c, m0, quant_stage_span(s, g, l, pos0, sp)));
    let (kw, va, d, base) = (g.kv_dim as int, chunk_rows(g) * g.kv_dim, g.head_dim as int, g.kv_base as int / 2);
    let (kc, vc) = (Buf::KCache(l), Buf::VCache(l));
    lemma_quant_span_row(c, m0, s, g, l, pos0, sp, n, 0);
    assert forall|t: int| 0 <= t < sp.len implies #[trigger] nth(e, kc, base, kw, sp.slot + t) == turned(
        nth(m, Buf::Kvs, 0, kw, sp.row + t),
        d,
        g.rot_dim as int,
        pos0 + sp.row + t,
    ) by {
        lemma_quant_span_row(c, m0, s, g, l, pos0, sp, n, t);
    }
    assert forall|t: int| 0 <= t < sp.len implies #[trigger] nth(e, vc, base, kw, sp.slot + t) == nth(
        m,
        Buf::Kvs,
        va,
        kw,
        sp.row + t,
    ) by {
        lemma_quant_span_row(c, m0, s, g, l, pos0, sp, n, t);
    }
    lemma_outside_span(m, e, kc, base, kw, sp);
    lemma_outside_span(m, e, vc, base, kw, sp);
}

// ---------- a chunk over a window ----------

/// Every span of a run is inside the buffers.
proof fn lemma_spans_ok(g: Geo, w: WindowCfg, spans: Seq<Span>, pos0: u32, n: u32, k: int)
    requires
        g.ok(),
        g.win == Some(w),
        spans_fit(w, spans, pos0 as int, 0, n as int),
        0 <= k < spans.len(),
        n <= chunk_rows(g),
        pos0 + n <= u32::MAX,
        n * g.kv_dim <= u32::MAX,
        spans_full(spans),
    ensures
        span_ok(g, spans[k], pos0, n),
{
    lemma_spans_in_turn(w, spans, pos0 as int, 0, n as int, k);
    lemma_rows_before_grows(spans, (k + 1) as nat, spans.len());
    lemma_rows_before_grows(spans, k as nat, spans.len());
    let sp = spans[k];
    let t = sp.len - 1;
    assert(sp.slot + t == w.slot(pos0 + sp.row + t));
    lemma_slot_in_cache(w, pos0 + sp.row + t);
}

/// No span is empty.
spec fn spans_full(spans: Seq<Span>) -> bool {
    forall|k: int| 0 <= k < spans.len() ==> (#[trigger] spans[k]).len > 0
}

proof fn lemma_spans_full(w: WindowCfg, spans: Seq<Span>, pos0: int, first: int, n: int)
    requires
        spans_fit(w, spans, pos0, first, n),
    ensures
        spans_full(spans),
    decreases spans.len(),
{
    if spans.len() > 0 {
        let rest = spans.drop_first();
        lemma_spans_full(w, rest, pos0, first + spans[0].len, n);
        assert forall|k: int| 0 <= k < spans.len() implies (#[trigger] spans[k]).len > 0 by {
            if k > 0 {
                assert(spans[k] == rest[k - 1]);
            }
        }
    }
}

/// What moving a whole run leaves behind.
spec fn run_moved(m: Mem, e: Mem, g: Geo, l: usize, w: WindowCfg, pos0: int, n: int, rot: int, base: int) -> bool {
    let (kw, va, d) = (g.kv_dim as int, chunk_rows(g) * g.kv_dim, g.head_dim as int);
    &&& only(m, e, Buf::KCache(l), Buf::VCache(l), Buf::VCache(l))
    &&& slots_hold(
        m,
        e,
        Buf::KCache(l),
        base,
        kw,
        w,
        pos0,
        n,
        |r: int| turned(nth(m, Buf::Kvs, 0, kw, r), d, rot, pos0 + r),
    )
    &&& slots_hold(m, e, Buf::VCache(l), base, kw, w, pos0, n, |r: int| nth(m, Buf::Kvs, va, kw, r))
}

proof fn lemma_dense_run_moved(c: Ctx, m0: Mem, s: Seq<CmdView>, g: Geo, l: usize, w: WindowCfg, pos0: u32, n: u32)
    requires
        g.ok(),
        g.win == Some(w),
        1 <= n <= chunk_rows(g),
        pos0 + n <= u32::MAX,
        n * g.kv_dim <= u32::MAX,
    ensures
        ({
            let spans = write_spans(w, pos0 as int, n as int);
            run_moved(
                run(c, m0, s),
                run(c, m0, stage_spans(s, g, l, pos0, spans, spans.len())),
                g,
                l,
                w,
                pos0 as int,
                n as int,
                g.head_dim as int,
                0,
            )
        }),
{
    let spans = write_spans(w, pos0 as int, n as int);
    lemma_spans_cover(w, pos0 as int, n as int);
    lemma_spans_full(w, spans, pos0 as int, 0, n as int);
    let mems = |k: nat| run(c, m0, stage_spans(s, g, l, pos0, spans, k));
    assert forall|i: nat| i < spans.len() implies span_moved(
        #[trigger] mems(i),
        mems(i + 1),
        g,
        l,
        spans[i as int],
        pos0 as int,
        g.head_dim as int,
        0,
    ) by {
        lemma_spans_ok(g, w, spans, pos0, n, i as int);
        lemma_dense_span_moved(c, m0, stage_spans(s, g, l, pos0, spans, i), g, l, pos0, spans[i as int], n);
    }
    lemma_spans_moved(mems, g, l, w, spans, pos0 as int, g.head_dim as int, 0, n as int, spans.len());
    if spans.len() > 0 {
        lemma_spans_in_turn(w, spans, pos0 as int, 0, n as int, 0);
    }
    assert(mems(0) == run(c, m0, s));
}

proof fn lemma_quant_run_moved(c: Ctx, m0: Mem, s: Seq<CmdView>, g: Geo, l: usize, w: WindowCfg, pos0: u32, n: u32)
    requires
        g.ok(),
        g.win == Some(w),
        1 <= n <= chunk_rows(g),
        pos0 + n <= u32::MAX,
        n * g.kv_dim <= u32::MAX,
    ensures
        ({
            let spans = write_spans(w, pos0 as int, n as int);
            run_moved(
                run(c, m0, s),
                run(c, m0, quant_stage_spans(s, g, l, pos0, spans, spans.len())),
                g,
                l,
                w,
                pos0 as int,
                n as int,
                g.rot_dim as int,
                g.kv_base as int / 2,
            )
        }),
{
    let spans = write_spans(w, pos0 as int, n as int);
    let base = g.kv_base as int / 2;
    lemma_spans_cover(w, pos0 as int, n as int);
    lemma_spans_full(w, spans, pos0 as int, 0, n as int);
    let mems = |k: nat| run(c, m0, quant_stage_spans(s, g, l, pos0, spans, k));
    assert forall|i: nat| i < spans.len() implies span_moved(
        #[trigger] mems(i),
        mems(i + 1),
        g,
        l,
        spans[i as int],
        pos0 as int,
        g.rot_dim as int,
        base,
    ) by {
        lemma_spans_ok(g, w, spans, pos0, n, i as int);
        lemma_quant_span_moved(c, m0, quant_stage_spans(s, g, l, pos0, spans, i), g, l, pos0, spans[i as int], n);
    }
    lemma_spans_moved(mems, g, l, w, spans, pos0 as int, g.rot_dim as int, base, n as int, spans.len());
    if spans.len() > 0 {
        lemma_spans_in_turn(w, spans, pos0 as int, 0, n as int, 0);
    }
    assert(mems(0) == run(c, m0, s));
}

/// The projections of a dense chunk, keys and values staged.
spec fn dense_staged(s: Seq<CmdView>, g: Geo, b: DenseBlock, l: usize, n: u32) -> Seq<CmdView> {
    let s = rmsnorm_both(s, g, Buf::X, Buf::Norm(l, NormId::Input), Buf::Xn, Buf::Xh, n);
    let s = with_barrier(s, true, seq![Buf::Xn, Buf::Xh]);
    let s = lin_half(s, lin_of(g, l, Proj::Q, b.q_bias), Buf::Xn, Buf::Q, 0, n, false);
    let s = lin_half(s, lin_of(g, l, Proj::K, b.k_bias), Buf::Xn, Buf::Kvs, 0, n, false);
    let s = lin_half(s, lin_of(g, l, Proj::V, b.v_bias), Buf::Xn, Buf::Kvs, v_base(g) as u64, n, false);
    with_barrier(s, true, seq![Buf::Q, Buf::Kvs])
}

proof fn lemma_dense_staged(c: Ctx, m0: Mem, s: Seq<CmdView>, g: Geo, b: DenseBlock, l: usize, n: u32, r: int)
    requires
        wide_geo(g),
        biases_known(c, l, b),
        n * g.hidden <= u32::MAX,
        0 <= r < n <= chunk_rows(g),
    ensures
        ({
            let (m, e) = (run(c, m0, s), run(c, m0, dense_staged(s, g, b, l, n)));
            let (qd, kw, va, hid) = (g.q_dim as int, g.kv_dim as int, chunk_rows(g) * g.kv_dim, g.hidden as int);
            let xn = normed(Buf::Norm(l, NormId::Input), nth(m, Buf::X, 0, hid, r));
            &&& nth(e, Buf::Q, 0, qd, r) == project(c, l, Proj::Q, xn, qd)
            &&& nth(e, Buf::Kvs, 0, kw, r) == project(c, l, Proj::K, xn, kw)
            &&& nth(e, Buf::Kvs, va, kw, r) == project(c, l, Proj::V, xn, kw)
            &&& nth(e, Buf::X, 0, hid, r) == nth(m, Buf::X, 0, hid, r)
            &&& caches_kept(m, e)
        }),
{
    let (qd, kw, va, hid) = (g.q_dim as int, g.kv_dim as int, chunk_rows(g) * g.kv_dim, g.hidden as int);
    let w = Buf::Norm(l, NormId::Input);
    lemma_stage_places(g, n);
    let m = run(c, m0, s);
    let xn = normed(w, nth(m, Buf::X, 0, hid, r));
    let t1 = rmsnorm_both(s, g, Buf::X, w, Buf::Xn, Buf::Xh, n);
    let s1 = with_barrier(t1, true, seq![Buf::Xn, Buf::Xh]);
    lemma_rmsnorm_both(c, m0, s, g, Buf::X, w, Buf::Xn, Buf::Xh, n, r);
    lemma_barrier(c, m0, t1, true, seq![Buf::Xn, Buf::Xh]);
    let (lq, lk, lv) = (
        lin_of(g, l, Proj::Q, b.q_bias),
        lin_of(g, l, Proj::K, b.k_bias),
        lin_of(g, l, Proj::V, b.v_bias),
    );
    let vo = v_base(g) as u64;
    let s2 = lin_half(s1, lq, Buf::Xn, Buf::Q, 0, n, false);
    lemma_linear(c, m0, s1, Kernel::Matvec, Kernel::Matmul, lq, Buf::Xn, 0, Buf::Q, 0, n, true, false, true, r);
    let m2 = run(c, m0, s2);
    assert(nth(m2, Buf::Q, 0, qd, r) == project(c, l, Proj::Q, xn, qd));
    assert(nth(m2, Buf::Xn, 0, hid, r) == xn);
    assert(nth(m2, Buf::Xh, 0, hid, r) == xn);
    let s3 = lin_half(s2, lk, Buf::Xn, Buf::Kvs, 0, n, false);
    lemma_linear(c, m0, s2, Kernel::Matvec, Kernel::Matmul, lk, Buf::Xn, 0, Buf::Kvs, 0, n, true, false, true, r);
    let m3 = run(c, m0, s3);
    assert(nth(m3, Buf::Kvs, 0, kw, r) == project(c, l, Proj::K, xn, kw));
    assert(nth(m3, Buf::Xn, 0, hid, r) == xn);
    assert(nth(m3, Buf::Xh, 0, hid, r) == xn);
    let s4 = lin_half(s3, lv, Buf::Xn, Buf::Kvs, vo, n, false);
    lemma_linear(c, m0, s3, Kernel::Matvec, Kernel::Matmul, lv, Buf::Xn, 0, Buf::Kvs, vo, n, true, false, true, r);
    let m4 = run(c, m0, s4);
    assert(nth(m4, Buf::Kvs, va, kw, r) == project(c, l, Proj::V, xn, kw));
    assert(nth(m4, Buf::Kvs, 0, kw, r) == nth(m3, Buf::Kvs, 0, kw, r)) by {
        reveal(nth);
        lemma_inside(r, n as int, kw);
    }
    lemma_barrier(c, m0, s4, true, seq![Buf::Q, Buf::Kvs]);
}

/// The head norms of a dense chunk, and the rotation of its queries.
spec fn dense_normed(s: Seq<CmdView>, g: Geo, b: DenseBlock, l: usize, pos0: u32, n: u32) -> Seq<CmdView> {
    let s = if b.qk_norm {
        let s = rmsnorm_heads(s, Buf::Q, Buf::Norm(l, NormId::QHead), (n * g.heads) as u64, g.head_dim);
        let s = rmsnorm_heads(s, Buf::Kvs, Buf::Norm(l, NormId::KHead), (n * g.kv_heads) as u64, g.head_dim);
        with_barrier(s, true, seq![Buf::Q, Buf::Kvs])
    } else {
        s
    };
    rope(s, g, Buf::Q, g.heads, pos0, n, g.head_dim)
}

proof fn lemma_dense_normed(c: Ctx, m0: Mem, s: Seq<CmdView>, g: Geo, b: DenseBlock, l: usize, pos0: u32, n: u32, r: int)
    requires
        wide_geo(g),
        0 <= r < n <= chunk_rows(g),
    ensures
        ({
            let (m, e) = (run(c, m0, s), run(c, m0, dense_normed(s, g, b, l, pos0, n)));
            let (qd, kw, d, va) = (g.q_dim as int, g.kv_dim as int, g.head_dim as int, chunk_rows(g) * g.kv_dim);
            let (q, k) = (nth(m, Buf::Q, 0, qd, r), nth(m, Buf::Kvs, 0, kw, r));
            &&& only(m, e, Buf::Q, Buf::Kvs, Buf::Kvs)
            &&& nth(e, Buf::Q, 0, qd, r) == turned(
                if b.qk_norm { heads_normed(Buf::Norm(l, NormId::QHead), q, d) } else { q },
                d,
                d,
                pos0 + r,
            )
            &&& nth(e, Buf::Kvs, 0, kw, r) == (if b.qk_norm { heads_normed(Buf::Norm(l, NormId::KHead), k, d) } else { k })
            &&& nth(e, Buf::Kvs, va, kw, r) == nth(m, Buf::Kvs, va, kw, r)
        }),
{
    let (qd, kw, d, va) = (g.q_dim as int, g.kv_dim as int, g.head_dim as int, chunk_rows(g) * g.kv_dim);
    assert(qd == g.heads * g.head_dim && kw == g.kv_heads * g.head_dim);
    lemma_stage_places(g, n);
    assert(0 <= n * g.heads <= u64::MAX && 0 <= n * g.kv_heads <= u64::MAX) by (nonlinear_arith)
        requires
            0 <= n <= u32::MAX,
            0 <= g.heads <= u32::MAX,
            0 <= g.kv_heads <= u32::MAX,
    ;
    let m = run(c, m0, s);
    let t2 = rmsnorm_heads(s, Buf::Q, Buf::Norm(l, NormId::QHead), (n * g.heads) as u64, g.head_dim);
    let t4 = rmsnorm_heads(t2, Buf::Kvs, Buf::Norm(l, NormId::KHead), (n * g.kv_heads) as u64, g.head_dim);
    let s1 = if b.qk_norm {
        with_barrier(t4, true, seq![Buf::Q, Buf::Kvs])
    } else {
        s
    };
    let m1 = run(c, m0, s1);
    let (q, k) = (nth(m, Buf::Q, 0, qd, r), nth(m, Buf::Kvs, 0, kw, r));
    if b.qk_norm {
        lemma_rmsnorm_heads(c, m0, s, Buf::Q, Buf::Norm(l, NormId::QHead), n, g.heads, g.head_dim, r);
        lemma_rmsnorm_heads(c, m0, t2, Buf::Kvs, Buf::Norm(l, NormId::KHead), n, g.kv_heads, g.head_dim, r);
        lemma_barrier(c, m0, t4, true, seq![Buf::Q, Buf::Kvs]);
        let m2 = run(c, m0, t2);
        assert(nth(m2, Buf::Q, 0, qd, r) == heads_normed(Buf::Norm(l, NormId::QHead), q, d));
        assert(nth(m1, Buf::Kvs, 0, kw, r) == heads_normed(Buf::Norm(l, NormId::KHead), k, d));
        assert(nth(m1, Buf::Kvs, va, kw, r) == nth(m, Buf::Kvs, va, kw, r)) by {
            reveal(nth);
            lemma_inside(r, n as int, kw);
            assert(row(m1, Buf::Kvs, va + r * kw, kw) == row(m2, Buf::Kvs, va + r * kw, kw));
        }
    }
    lemma_rope(c, m0, s1, g, Buf::Q, g.heads, pos0, n, g.head_dim, r);
}

/// From the point where queries, keys and values are in place on: what each row
/// finds, and where it goes.
spec fn ring_row(c: Ctx, mt: Mem, e: Mem, g: Geo, q: Buf, h: Shape, l: usize, p0: int, x: Seq<Term>, r: int) -> bool {
    &&& nth(mt, q, 0, g.q_dim as int, r) == query_of(c, h, l, x, p0 + r)
    &&& nth(e, Buf::X, 0, g.hidden as int, r) == feed_out(
        c,
        h,
        l,
        attention_out(c, h, l, x, seen(mt, g, q, l, r, p0 + r)),
    )
}

proof fn lemma_ring_rows(
    c: Ctx,
    m: Mem,
    ms: Mem,
    mt: Mem,
    e: Mem,
    g: Geo,
    q: Buf,
    h: Shape,
    l: usize,
    w: WindowCfg,
    p0: int,
    n: int,
)
    requires
        g.ok(),
        g.win == Some(w),
        h.heads == g.heads,
        h.kv_heads == g.kv_heads,
        h.head_dim == g.head_dim,
        h.hidden == g.hidden,
        0 <= n,
        caches_kept(m, ms),
        run_moved(ms, mt, g, l, w, p0, n, h.rot, g.kv_base as int / 2),
        caches_kept(mt, e),
        forall|r: int|
            0 <= r < n ==> #[trigger] staged_row(c, ms, g, h, l, p0, nth(m, Buf::X, 0, h.hidden, r), r),
        forall|r: int|
            0 <= r < n ==> #[trigger] ring_row(c, mt, e, g, q, h, l, p0, nth(m, Buf::X, 0, h.hidden, r), r),
    ensures
        ring_done(c, m, e, g, h, l, w, p0, n),
{
    let (base, kw, va) = (g.kv_base as int / 2, g.kv_dim as int, chunk_rows(g) * g.kv_dim);
    let (kc, vc) = (Buf::KCache(l), Buf::VCache(l));
    assert(kw == h.kv_heads * h.head_dim && g.q_dim == h.heads * h.head_dim);
    let xs = rows_of(m, Buf::X, h.hidden, n);
    let fk = |r: int| key_of(c, h, l, xs[r], p0 + r);
    let fv = |r: int| value_of(c, h, l, xs[r]);
    let gk = |r: int| turned(nth(ms, Buf::Kvs, 0, kw, r), g.head_dim as int, h.rot, p0 + r);
    let gv = |r: int| nth(ms, Buf::Kvs, va, kw, r);
    assert(slots_hold(ms, mt, kc, base, kw, w, p0, n, gk));
    assert(slots_hold(ms, mt, vc, base, kw, w, p0, n, gv));
    lemma_kept_rows(m, ms, base, kw);
    assert forall|r: int| 0 <= r < n implies nth(mt, kc, base, kw, #[trigger] w.slot(p0 + r)) == fk(r) && nth(
        mt,
        vc,
        base,
        kw,
        w.slot(p0 + r),
    ) == fv(r) by {
        assert(staged_row(c, ms, g, h, l, p0, nth(m, Buf::X, 0, h.hidden, r), r));
        assert(nth(mt, kc, base, kw, w.slot(p0 + r)) == gk(r));
        assert(nth(mt, vc, base, kw, w.slot(p0 + r)) == gv(r));
    }
    assert forall|z: int| 0 <= z < w.cap && !(exists|r: int| #[trigger] slot_is(w, p0, n, z, r)) implies #[trigger] nth(
        mt,
        kc,
        base,
        kw,
        z,
    ) == nth(m, kc, base, kw, z) by {
        assert(nth(mt, kc, base, kw, z) == nth(ms, kc, base, kw, z));
    }
    assert forall|z: int| 0 <= z < w.cap && !(exists|r: int| #[trigger] slot_is(w, p0, n, z, r)) implies #[trigger] nth(
        mt,
        vc,
        base,
        kw,
        z,
    ) == nth(m, vc, base, kw, z) by {
        assert(nth(mt, vc, base, kw, z) == nth(ms, vc, base, kw, z));
    }
    lemma_ring_table(m, mt, kc, base, kw, w, p0, n, fk);
    lemma_ring_table(m, mt, vc, base, kw, w, p0, n, fv);
    lemma_tables_kept(mt, e, l, base, kw, w.cap as int);
    assert forall|r: int| 0 <= r < n implies #[trigger] nth(e, Buf::X, 0, h.hidden, r) == ring_out(
        c,
        m,
        h,
        l,
        w,
        base,
        p0,
        xs,
        r,
    ) by {
        assert(ring_row(c, mt, e, g, q, h, l, p0, nth(m, Buf::X, 0, h.hidden, r), r));
    }
    assert(table(e, kc, base, kw, w.cap as int) == ring_keys(c, m, h, l, w, base, p0, xs));
    assert(table(e, vc, base, kw, w.cap as int) == ring_values(c, m, h, l, w, base, p0, xs));
    assert forall|j: usize, a: int, z: int| j != l implies #[trigger] row(e, Buf::KCache(j), a, z) == row(
        m,
        Buf::KCache(j),
        a,
        z,
    ) by {
        assert(row(e, Buf::KCache(j), a, z) == row(mt, Buf::KCache(j), a, z));
        assert(row(mt, Buf::KCache(j), a, z) == row(ms, Buf::KCache(j), a, z));
    }
    assert forall|j: usize, a: int, z: int| j != l implies #[trigger] row(e, Buf::VCache(j), a, z) == row(
        m,
        Buf::VCache(j),
        a,
        z,
    ) by {
        assert(row(e, Buf::VCache(j), a, z) == row(mt, Buf::VCache(j), a, z));
        assert(row(mt, Buf::VCache(j), a, z) == row(ms, Buf::VCache(j), a, z));
    }
}

/// Row `r` as it is staged: its key before the rotation, and its value.
spec fn staged_row(c: Ctx, ms: Mem, g: Geo, h: Shape, l: usize, p0: int, x: Seq<Term>, r: int) -> bool {
    let (kw, va) = (g.kv_dim as int, chunk_rows(g) * g.kv_dim);
    &&& turned(nth(ms, Buf::Kvs, 0, kw, r), h.head_dim, h.rot, p0 + r) == key_of(c, h, l, x, p0 + r)
    &&& nth(ms, Buf::Kvs, va, kw, r) == value_of(c, h, l, x)
}

/// A layer of a prefill step over a window, in a cache of its own.
pub proof fn lemma_ring_prefill_layer(
    c: Ctx,
    m0: Mem,
    s: Seq<CmdView>,
    g: Geo,
    w: WindowCfg,
    b: DenseBlock,
    l: usize,
    pos0: u32,
    n: u32,
)
    requires
        wide_geo(g),
        g.win == Some(w),
        g.kv_base == 0,
        g.rot_dim == g.head_dim,
        biases_known(c, l, b),
        1 <= n <= chunk_rows(g),
        pos0 + n <= u32::MAX,
        n * g.hidden <= u32::MAX,
        n * g.inter <= u32::MAX,
        n * g.q_dim <= u32::MAX,
        n * g.kv_dim <= u32::MAX,
    ensures
        ring_done(
            c,
            run(c, m0, s),
            run(c, m0, prefill_layer(s, g, b, l, pos0, n)),
            g,
            dense_shape(g, b),
            l,
            w,
            pos0 as int,
            n as int,
        ),
{
    let h = dense_shape(g, b);
    let (hid, p0) = (g.hidden as int, pos0 as int);
    assert(g.kv_dim == g.kv_heads * g.head_dim && g.q_dim == g.heads * g.head_dim);
    let s1 = dense_staged(s, g, b, l, n);
    let s2 = dense_normed(s1, g, b, l, pos0, n);
    let spans = write_spans(w, pos0 as int, n as int);
    let t3 = stage_spans(s2, g, l, pos0, spans, spans.len());
    let bufs = seq![Buf::Q, Buf::KCache(l), Buf::VCache(l), Buf::Kvs];
    let s3 = with_barrier(t3, true, bufs);
    let s4 = chunk_attended(s3, g, b, l, pos0, n);
    let s5 = prefill_mlp(s4, g, b, l, n);
    assert(s5 == prefill_layer(s, g, b, l, pos0, n));
    lemma_dense_run_moved(c, m0, s2, g, l, w, pos0, n);
    lemma_barrier(c, m0, t3, true, bufs);
    let (m, m1, ms, mt, m4, e) = (
        run(c, m0, s),
        run(c, m0, s1),
        run(c, m0, s2),
        run(c, m0, s3),
        run(c, m0, s4),
        run(c, m0, s5),
    );
    lemma_dense_staged(c, m0, s, g, b, l, n, 0);
    lemma_dense_normed(c, m0, s1, g, b, l, pos0, n, 0);
    lemma_chunk_attended(c, m0, s3, g, b, l, pos0, n, 0);
    lemma_chunk_fed(c, m0, s4, g, b, l, n, 0);
    lemma_kept_both(mt, m4, e);
    assert(caches_kept(m1, ms));
    lemma_kept_both(m, m1, ms);
    assert forall|r: int| 0 <= r < n implies #[trigger] staged_row(c, ms, g, h, l, p0, nth(m, Buf::X, 0, hid, r), r) by {
        lemma_dense_staged(c, m0, s, g, b, l, n, r);
        lemma_dense_normed(c, m0, s1, g, b, l, pos0, n, r);
    }
    assert forall|r: int| 0 <= r < n implies #[trigger] ring_row(
        c,
        mt,
        e,
        g,
        Buf::Q,
        h,
        l,
        p0,
        nth(m, Buf::X, 0, hid, r),
        r,
    ) by {
        lemma_dense_staged(c, m0, s, g, b, l, n, r);
        lemma_dense_normed(c, m0, s1, g, b, l, pos0, n, r);
        assert(nth(mt, Buf::Q, 0, g.q_dim as int, r) == nth(ms, Buf::Q, 0, g.q_dim as int, r));
        assert(nth(mt, Buf::X, 0, hid, r) == nth(m, Buf::X, 0, hid, r));
        lemma_chunk_attended(c, m0, s3, g, b, l, pos0, n, r);
        lemma_chunk_fed(c, m0, s4, g, b, l, n, r);
    }
    lemma_ring_rows(c, m, ms, mt, e, g, Buf::Q, h, l, w, p0, n as int);
}

// ---------- quantized layers over a window ----------

/// A full-attention layer of a fused decode step over a window.
pub proof fn lemma_quant_ring_decode_layer(
    c: Ctx,
    m0: Mem,
    s: Seq<CmdView>,
    md: QuantModel,
    w: WindowCfg,
    b: QuantBlock,
    l: usize,
    pos: u32,
)
    requires
        md.geo.ok(),
        md.geo.win == Some(w),
        b.attn is Full,
        types_known(c, l, b),
    ensures
        ring_done(
            c,
            run(c, m0, s),
            run(c, m0, quant_decode_layer(s, md.geo, md.delta, b, l, pos)),
            md.geo,
            quant_shape(md.geo, b.attn->qk_norm),
            l,
            w,
            pos as int,
            1,
        ),
{
    let g = md.geo;
    let (q, k, v, o, qk_norm) = (b.attn->q, b.attn->k, b.attn->v, b.attn->o, b.attn->qk_norm);
    let h = quant_shape(g, qk_norm);
    let (kc, vc, qb) = (Buf::KCache(l), Buf::VCache(l), query_buf(g));
    let (hid, kw, p) = (g.hidden as int, g.kv_dim as int, pos as int);
    let base = g.kv_base as int / 2;
    let slot = w.slot(p);
    assert(kw == g.kv_heads * g.head_dim && g.q_dim == g.heads * g.head_dim);
    lemma_slot_in_cache(w, p);
    g.lemma_rows(slot);
    assert(slot * g.kv_dim * 2 == 2 * (slot * kw)) by (nonlinear_arith)
        requires
            g.kv_dim == kw,
    ;
    let off = g.row_off(slot) as u64;
    assert(off as int / 2 == base + slot * kw);
    let m = run(c, m0, s);
    let x = row(m, Buf::X, 0, hid);
    let t0 = s.push(CmdView::Mark(Phase::Norm, 1));
    lemma_mark(c, m0, s, Phase::Norm, 1);
    let s1 = marked_norm(s, g, Buf::Norm(l, NormId::Input), 1);
    lemma_rmsnorm_one(c, m0, t0, g, Buf::X, Buf::Norm(l, NormId::Input), Buf::Xn);
    let s2 = full_qkv(s1, g, l, off, pos, q, k, v, qk_norm);
    lemma_full_qkv(c, m0, s1, g, l, off, pos, q, k, v, qk_norm, x);
    let mt = run(c, m0, s2);
    let s3 = full_rest(s2, g, l, pos, o);
    lemma_full_rest(c, m0, s2, g, l, pos, o, qk_norm, x);
    assert(s3 == decode_full(s1, g, l, pos, q, k, v, o, qk_norm));
    let s4 = fed_one(s3, g, b, l);
    lemma_fed_one(c, m0, s3, g, b, l, h);
    assert(s4 == quant_decode_layer(s, g, md.delta, b, l, pos));
    let (m3, e) = (run(c, m0, s3), run(c, m0, s4));
    lemma_kept_both(mt, m3, e);
    let xs = rows_of(m, Buf::X, hid, 1);
    assert(xs[0] == x) by {
        reveal(nth);
    }
    let fk = |r: int| key_of(c, h, l, xs[r], p + r);
    let fv = |r: int| value_of(c, h, l, xs[r]);
    lemma_one_slot(m, mt, kc, base, kw, w, p, fk);
    lemma_one_slot(m, mt, vc, base, kw, w, p, fv);
    lemma_ring_table(m, mt, kc, base, kw, w, p, 1, fk);
    lemma_ring_table(m, mt, vc, base, kw, w, p, 1, fv);
    lemma_tables_kept(mt, e, l, base, kw, w.cap as int);
    assert forall|r: int| 0 <= r < 1 implies #[trigger] nth(e, Buf::X, 0, hid, r) == ring_out(
        c,
        m,
        h,
        l,
        w,
        base,
        p,
        xs,
        r,
    ) by {
        reveal(nth);
        assert(nth(mt, qb, 0, g.heads * g.head_dim, 0) == query_of(c, h, l, xs[0], p + 0));
        assert(nth(e, Buf::X, 0, hid, 0) == row(e, Buf::X, 0, hid));
    }
}

/// A full-attention layer of a prefill step over a window.
pub proof fn lemma_quant_ring_prefill_layer(
    c: Ctx,
    m0: Mem,
    s: Seq<CmdView>,
    md: QuantModel,
    w: WindowCfg,
    b: QuantBlock,
    l: usize,
    st: Step,
)
    requires
        md.geo.ok(),
        md.geo.win == Some(w),
        rows_fit(md.geo, st),
        b.attn is Full,
        types_known(c, l, b),
    ensures
        ring_done(
            c,
            run(c, m0, s),
            run(c, m0, quant_prefill_layer(s, md.geo, md.delta, b, l, st.pos0, st.n)),
            md.geo,
            quant_shape(md.geo, b.attn->qk_norm),
            l,
            w,
            st.pos0 as int,
            st.n as int,
        ),
{
    let (g, pos0, n) = (md.geo, st.pos0, st.n);
    let (q, k, v, o, qk_norm) = (b.attn->q, b.attn->k, b.attn->v, b.attn->o, b.attn->qk_norm);
    let h = quant_shape(g, qk_norm);
    let (hid, p0, qb) = (g.hidden as int, pos0 as int, query_buf(g));
    assert(g.kv_dim == g.kv_heads * g.head_dim && g.q_dim == g.heads * g.head_dim);
    let nw = Buf::Norm(l, NormId::Input);
    let s0 = with_barrier(marked_norm(s, g, nw, n), true, seq![Buf::Xn]);
    let s1 = chunk_staged(s0, g, l, n, q, k, v);
    let s2 = chunk_normed(s1, g, l, pos0, n, qk_norm);
    let spans = write_spans(w, pos0 as int, n as int);
    let t3 = quant_stage_spans(s2, g, l, pos0, spans, spans.len());
    let bufs = seq![qb, Buf::KCache(l), Buf::VCache(l), Buf::Kvs];
    let s3 = with_barrier(t3, true, bufs);
    let s4 = chunk_found(s3, g, l, pos0, n, o);
    let s5 = fed_chunk(s4, g, b, l, n);
    assert(s4 == prefill_full(s0, g, l, pos0, n, q, k, v, o, qk_norm));
    assert(s5 == quant_prefill_layer(s, g, md.delta, b, l, pos0, n));
    lemma_quant_run_moved(c, m0, s2, g, l, w, pos0, n);
    lemma_barrier(c, m0, t3, true, bufs);
    let (m, ma, m1, ms, mt, m4, e) = (
        run(c, m0, s),
        run(c, m0, s0),
        run(c, m0, s1),
        run(c, m0, s2),
        run(c, m0, s3),
        run(c, m0, s4),
        run(c, m0, s5),
    );
    assert forall|r: int| 0 <= r < n implies #[trigger] staged_row(c, ms, g, h, l, p0, nth(m, Buf::X, 0, hid, r), r)
        && ring_row(c, mt, e, g, qb, h, l, p0, nth(m, Buf::X, 0, hid, r), r) by {
        let x = nth(m, Buf::X, 0, hid, r);
        lemma_marked_norm(c, m0, s, g, nw, n, true, r);
        lemma_chunk_staged(c, m0, s0, g, l, n, q, k, v, qk_norm, x, r);
        lemma_chunk_normed(c, m0, s1, g, l, pos0, n, qk_norm, r);
        assert(nth(mt, qb, 0, g.q_dim as int, r) == nth(ms, qb, 0, g.q_dim as int, r));
        assert(nth(mt, Buf::X, 0, hid, r) == x);
        lemma_chunk_found(c, m0, s3, g, l, pos0, n, o, qk_norm, x, r);
        lemma_fed_chunk(c, m0, s4, g, b, l, n, h, r);
    }
    let x = nth(m, Buf::X, 0, hid, 0);
    lemma_marked_norm(c, m0, s, g, nw, n, true, 0);
    lemma_chunk_staged(c, m0, s0, g, l, n, q, k, v, qk_norm, x, 0);
    lemma_chunk_normed(c, m0, s1, g, l, pos0, n, qk_norm, 0);
    assert(nth(mt, Buf::X, 0, hid, 0) == x);
    lemma_chunk_found(c, m0, s3, g, l, pos0, n, o, qk_norm, x, 0);
    lemma_fed_chunk(c, m0, s4, g, b, l, n, h, 0);
    lemma_kept_both(mt, m4, e);
    assert(caches_kept(m, ma));
    assert(caches_kept(m1, ms));
    lemma_kept_both(m, ma, m1);
    lemma_kept_both(m, m1, ms);
    assert forall|r: int| 0 <= r < n implies #[trigger] ring_row(c, mt, e, g, qb, h, l, p0, nth(m, Buf::X, 0, hid, r), r) by {
        assert(staged_row(c, ms, g, h, l, p0, nth(m, Buf::X, 0, hid, r), r));
    }
    lemma_ring_rows(c, m, ms, mt, e, g, qb, h, l, w, p0, n as int);
}

} // verus!
