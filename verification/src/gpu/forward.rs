//! What a step computes: every row of the hidden state goes through the blocks of
//! a transformer, and the logits are those of the last rows.
use vstd::prelude::*;

use crate::gpu::dense::{
    DenseBlock, Step, decode_layer, dense_step, fused, head, layers_upto, lin_half, lin_of, prefill_layer,
    prefill_mlp, step_ok,
};
use crate::gpu::encode::{
    attention, attention_decode, is_flash, linear_kv, matvec, qkv, rmsnorm, rmsnorm_both, rmsnorm_cache,
    rmsnorm_heads, rope_qk, swiglu, add_inplace, silu_mul_both, embed, rope_qk_chunk,
};
use crate::gpu::launches::{
    attended, gated, heads_normed, lemma_add, lemma_attention, lemma_attention_decode, lemma_barrier,
    lemma_cache_heads_one, lemma_embed, lemma_heads_one, lemma_linear, lemma_rmsnorm_one, lemma_rope_qk_one,
    lemma_linear_kv, lemma_matvec_acc, lemma_qkv, lemma_rmsnorm_both, lemma_rmsnorm_cache, lemma_rmsnorm_heads,
    lemma_rope_qk_chunk, lemma_silu_mul_both, lemma_swiglu, normed, nth, only, seen, summed, through, turned, within,
};
use crate::gpu::meaning::{Attention, Ctx, Mem, Term, lemma_inside, row, run, table};
use crate::gpu::ops::{Buf, CmdView, Geo, Kernel, NormId, Proj, with_barrier};

verus! {

// ---------- a block of the transformer ----------

/// What a block has beyond its weights.
pub struct Shape {
    pub heads: int,
    pub kv_heads: int,
    pub head_dim: int,
    pub rot: int,
    pub hidden: int,
    pub inter: int,
    pub qk_norm: bool,
    /// The query's projection also says how far the output opens.
    pub joint: bool,
}

/// A vector through one of the layer's matrices.
pub open spec fn project(c: Ctx, l: usize, p: Proj, x: Seq<Term>, out: int) -> Seq<Term> {
    through(c, Buf::Weight(l, p), Buf::Bias(l, p), x, out)
}

/// One part of a joint projection.
pub open spec fn part(first: bool, x: Seq<Term>, w: int) -> Seq<Term> {
    Seq::new(w as nat, |i: int| Term::Part(first, x, i))
}

/// A vector opened as far as another says.
pub open spec fn opened(a: Seq<Term>, b: Seq<Term>) -> Seq<Term> {
    Seq::new(a.len(), |i: int| Term::Opened(Box::new(a[i]), Box::new(b[i])))
}

/// The projection of a row's query, of both its parts where it has two.
pub open spec fn query_both(c: Ctx, h: Shape, l: usize, x: Seq<Term>) -> Seq<Term> {
    let w = h.heads * h.head_dim;
    project(c, l, Proj::Q, normed(Buf::Norm(l, NormId::Input), x), if h.joint { 2 * w } else { w })
}

/// The query of a row: projected, normalised by heads where the model does that,
/// and rotated to its position.
pub open spec fn query_of(c: Ctx, h: Shape, l: usize, x: Seq<Term>, pos: int) -> Seq<Term> {
    let q = if h.joint {
        part(true, query_both(c, h, l, x), h.heads * h.head_dim)
    } else {
        query_both(c, h, l, x)
    };
    turned(
        if h.qk_norm {
            heads_normed(Buf::Norm(l, NormId::QHead), q, h.head_dim)
        } else {
            q
        },
        h.head_dim,
        h.rot,
        pos,
    )
}

/// Its key.
pub open spec fn key_of(c: Ctx, h: Shape, l: usize, x: Seq<Term>, pos: int) -> Seq<Term> {
    let k = project(c, l, Proj::K, normed(Buf::Norm(l, NormId::Input), x), h.kv_heads * h.head_dim);
    turned(
        if h.qk_norm {
            heads_normed(Buf::Norm(l, NormId::KHead), k, h.head_dim)
        } else {
            k
        },
        h.head_dim,
        h.rot,
        pos,
    )
}

/// Its value.
pub open spec fn value_of(c: Ctx, h: Shape, l: usize, x: Seq<Term>) -> Seq<Term> {
    project(c, l, Proj::V, normed(Buf::Norm(l, NormId::Input), x), h.kv_heads * h.head_dim)
}

/// The first half of a block: the row, and what its query finds.
pub open spec fn attention_out(c: Ctx, h: Shape, l: usize, x: Seq<Term>, a: Attention) -> Seq<Term> {
    let found = if h.joint {
        opened(attended(a), part(false, query_both(c, h, l, x), h.heads * h.head_dim))
    } else {
        attended(a)
    };
    summed(x, project(c, l, Proj::O, found, h.hidden))
}

/// The second half: the gated feed-forward part, added.
pub open spec fn feed_out(c: Ctx, h: Shape, l: usize, y: Seq<Term>) -> Seq<Term> {
    let z = normed(Buf::Norm(l, NormId::Post), y);
    let f = gated(project(c, l, Proj::Gate, z, h.inter), project(c, l, Proj::Up, z, h.inter));
    summed(y, project(c, l, Proj::Down, f, h.hidden))
}

/// A row through a block, given the keys and values up to its own.
pub open spec fn block_out(
    c: Ctx,
    h: Shape,
    l: usize,
    x: Seq<Term>,
    keys: Seq<Seq<Term>>,
    values: Seq<Seq<Term>>,
    pos: int,
) -> Seq<Term> {
    let a = Attention {
        query: query_of(c, h, l, x, pos),
        keys,
        values,
        heads: h.heads,
        kv_heads: h.kv_heads,
        head_dim: h.head_dim,
        at: pos,
    };
    feed_out(c, h, l, attention_out(c, h, l, x, a))
}

/// The keys that row `r` of a chunk sees: those of the cache, then those of the
/// chunk up to its own.
pub open spec fn keys_upto(c: Ctx, m: Mem, h: Shape, l: usize, base: int, pos0: int, xs: Seq<Seq<Term>>, r: int) -> Seq<
    Seq<Term>,
> {
    Seq::new(
        (pos0 + r + 1) as nat,
        |p: int|
            if p < pos0 {
                nth(m, Buf::KCache(l), base, h.kv_heads * h.head_dim, p)
            } else {
                key_of(c, h, l, xs[p - pos0], p)
            },
    )
}

/// The values, likewise.
pub open spec fn values_upto(c: Ctx, m: Mem, h: Shape, l: usize, base: int, pos0: int, xs: Seq<Seq<Term>>, r: int) -> Seq<
    Seq<Term>,
> {
    Seq::new(
        (pos0 + r + 1) as nat,
        |p: int|
            if p < pos0 {
                nth(m, Buf::VCache(l), base, h.kv_heads * h.head_dim, p)
            } else {
                value_of(c, h, l, xs[p - pos0])
            },
    )
}

/// The rows of a chunk through a block.
pub open spec fn rows_out(c: Ctx, m: Mem, h: Shape, l: usize, base: int, pos0: int, xs: Seq<Seq<Term>>) -> Seq<Seq<Term>> {
    Seq::new(
        xs.len(),
        |r: int|
            block_out(
                c,
                h,
                l,
                xs[r],
                keys_upto(c, m, h, l, base, pos0, xs, r),
                values_upto(c, m, h, l, base, pos0, xs, r),
                pos0 + r,
            ),
    )
}

/// The first `n` rows of a buffer.
pub open spec fn rows_of(m: Mem, b: Buf, w: int, n: int) -> Seq<Seq<Term>> {
    Seq::new(n as nat, |r: int| nth(m, b, 0, w, r))
}

// ---------- what a layer of a step leaves behind ----------

/// The shape of a dense layer.
pub open spec fn dense_shape(g: Geo, b: DenseBlock) -> Shape {
    Shape {
        heads: g.heads as int,
        kv_heads: g.kv_heads as int,
        head_dim: g.head_dim as int,
        rot: g.rot_dim as int,
        hidden: g.hidden as int,
        inter: g.inter as int,
        qk_norm: b.qk_norm,
        joint: false,
    }
}

/// The checkpoint has the biases that the blocks claim.
pub open spec fn biases_known(c: Ctx, l: usize, b: DenseBlock) -> bool {
    &&& (c.biased)(Buf::Bias(l, Proj::Q)) <==> b.q_bias
    &&& (c.biased)(Buf::Bias(l, Proj::K)) <==> b.k_bias
    &&& (c.biased)(Buf::Bias(l, Proj::V)) <==> b.v_bias
    &&& (c.biased)(Buf::Bias(l, Proj::O)) <==> b.o_bias
    &&& (c.biased)(Buf::Bias(l, Proj::Gate)) <==> b.gate_bias
    &&& (c.biased)(Buf::Bias(l, Proj::Up)) <==> b.up_bias
    &&& (c.biased)(Buf::Bias(l, Proj::Down)) <==> b.down_bias
}

/// The caches of the other layers hold what they held.
pub open spec fn others_kept(m: Mem, k: Mem, l: usize) -> bool {
    &&& forall|j: usize, a: int, w: int|
        j != l ==> #[trigger] row(k, Buf::KCache(j), a, w) == row(m, Buf::KCache(j), a, w)
    &&& forall|j: usize, a: int, w: int|
        j != l ==> #[trigger] row(k, Buf::VCache(j), a, w) == row(m, Buf::VCache(j), a, w)
}

/// The rows of a chunk went through the block, and its keys and values stand behind
/// those that were there.
pub open spec fn layer_done(c: Ctx, m: Mem, k: Mem, g: Geo, h: Shape, l: usize, pos0: int, n: int) -> bool {
    let (xs, base) = (rows_of(m, Buf::X, h.hidden, n), g.kv_base as int / 2);
    let w = h.kv_heads * h.head_dim;
    &&& rows_of(k, Buf::X, h.hidden, n) == rows_out(c, m, h, l, base, pos0, xs)
    &&& forall|r: int| 0 <= r < n ==> #[trigger] nth(k, Buf::KCache(l), base, w, pos0 + r) == key_of(c, h, l, xs[r], pos0 + r)
    &&& forall|r: int| 0 <= r < n ==> #[trigger] nth(k, Buf::VCache(l), base, w, pos0 + r) == value_of(c, h, l, xs[r])
    &&& within(m, k, Buf::KCache(l), base + pos0 * w, n * w)
    &&& within(m, k, Buf::VCache(l), base + pos0 * w, n * w)
    &&& others_kept(m, k, l)
}

/// The widths of a dense model.
pub open spec fn wide_geo(g: Geo) -> bool {
    g.ok() && g.q_proj_dim == g.q_dim
}

/// Those of one without a window.
pub open spec fn dense_geo(g: Geo) -> bool {
    wide_geo(g) && g.win is None
}

/// The keys of the cache once the new ones stand in it.
pub(crate) proof fn lemma_table(m: Mem, k: Mem, b: Buf, base: int, w: int, pos0: int, n: int, r: int, want: Seq<Seq<Term>>)
    requires
        0 <= w,
        0 <= pos0,
        0 <= r < n,
        within(m, k, b, base + pos0 * w, n * w),
        want.len() == pos0 + r + 1,
        forall|p: int| 0 <= p < pos0 ==> #[trigger] want[p] == nth(m, b, base, w, p),
        forall|p: int| pos0 <= p <= pos0 + r ==> #[trigger] want[p] == nth(k, b, base, w, p),
    ensures
        table(k, b, base, w, pos0 + r + 1) == want,
{
    reveal(nth);
    let t = table(k, b, base, w, pos0 + r + 1);
    assert forall|p: int| 0 <= p < t.len() implies t[p] == want[p] by {
        assert(t[p] == nth(k, b, base, w, p));
        if p < pos0 {
            lemma_inside(p, pos0, w);
            assert(row(k, b, base + p * w, w) == row(m, b, base + p * w, w));
        }
    }
    assert(t =~= want);
}

/// The first part of a fused decode layer: the query, and the new key and value in
/// the cache.
pub open spec fn decode_qkv(s: Seq<CmdView>, g: Geo, b: DenseBlock, l: usize, kv_off: u32, off: u64, pos: u32) -> Seq<CmdView> {
    let s = rmsnorm(s, g, Buf::X, Buf::Norm(l, NormId::Input), Buf::Xn, 1);
    let s = qkv(
        s,
        lin_of(g, l, Proj::Q, b.q_bias),
        lin_of(g, l, Proj::K, b.k_bias),
        lin_of(g, l, Proj::V, b.v_bias),
        Buf::Xn,
        Buf::Q,
        kv_off,
    );
    let s = if b.qk_norm {
        rmsnorm_cache(
            rmsnorm_heads(s, Buf::Q, Buf::Norm(l, NormId::QHead), g.heads as u64, g.head_dim),
            Buf::KCache(l),
            off,
            Buf::Norm(l, NormId::KHead),
            g.kv_heads as u64,
            g.head_dim,
        )
    } else {
        s
    };
    rope_qk(s, g, Buf::Q, Buf::KCache(l), off, pos)
}

pub(crate) proof fn lemma_decode_qkv(
    c: Ctx,
    m0: Mem,
    s: Seq<CmdView>,
    g: Geo,
    b: DenseBlock,
    l: usize,
    kv_off: u32,
    off: u64,
    pos: u32,
)
    requires
        wide_geo(g),
        kv_off == off as int / 2,
    ensures
        ({
            let (m, k) = (run(c, m0, s), run(c, m0, decode_qkv(s, g, b, l, kv_off, off, pos)));
            let h = dense_shape(g, b);
            let (a, w) = (kv_off as int, g.kv_heads * g.head_dim);
            let x = row(m, Buf::X, 0, g.hidden as int);
            &&& row(k, Buf::Q, 0, g.heads * g.head_dim) == query_of(c, h, l, x, pos as int)
            &&& row(k, Buf::KCache(l), a, w) == key_of(c, h, l, x, pos as int)
            &&& row(k, Buf::VCache(l), a, w) == value_of(c, h, l, x)
            &&& within(m, k, Buf::KCache(l), a, w)
            &&& within(m, k, Buf::VCache(l), a, w)
            &&& row(k, Buf::X, 0, g.hidden as int) == x
            &&& others_kept(m, k, l)
        }),
{
    let h = dense_shape(g, b);
    let (kc, vc) = (Buf::KCache(l), Buf::VCache(l));
    let (a, w) = (kv_off as int, g.kv_heads * g.head_dim);
    let m = run(c, m0, s);
    let x = row(m, Buf::X, 0, g.hidden as int);
    let s1 = rmsnorm(s, g, Buf::X, Buf::Norm(l, NormId::Input), Buf::Xn, 1);
    lemma_rmsnorm_one(c, m0, s, g, Buf::X, Buf::Norm(l, NormId::Input), Buf::Xn);
    let m1 = run(c, m0, s1);
    let xn = normed(Buf::Norm(l, NormId::Input), x);
    assert(row(m1, Buf::Xn, 0, g.hidden as int) == xn);
    let (lq, lk, lv) = (
        lin_of(g, l, Proj::Q, b.q_bias),
        lin_of(g, l, Proj::K, b.k_bias),
        lin_of(g, l, Proj::V, b.v_bias),
    );
    let s2 = qkv(s1, lq, lk, lv, Buf::Xn, Buf::Q, kv_off);
    lemma_qkv(c, m0, s1, lq, lk, lv, Buf::Xn, Buf::Q, kv_off);
    let m2 = run(c, m0, s2);
    let q0 = project(c, l, Proj::Q, xn, g.heads * g.head_dim);
    let k0 = project(c, l, Proj::K, xn, w);
    assert(row(m2, Buf::Q, 0, g.heads * g.head_dim) == q0);
    assert(row(m2, kc, a, w) == k0);
    assert(row(m2, vc, a, w) == value_of(c, h, l, x));
    let q1 = if b.qk_norm { heads_normed(Buf::Norm(l, NormId::QHead), q0, h.head_dim) } else { q0 };
    let k1 = if b.qk_norm { heads_normed(Buf::Norm(l, NormId::KHead), k0, h.head_dim) } else { k0 };
    let s3 = if b.qk_norm {
        rmsnorm_cache(
            rmsnorm_heads(s2, Buf::Q, Buf::Norm(l, NormId::QHead), g.heads as u64, g.head_dim),
            kc,
            off,
            Buf::Norm(l, NormId::KHead),
            g.kv_heads as u64,
            g.head_dim,
        )
    } else {
        s2
    };
    let m3 = run(c, m0, s3);
    if b.qk_norm {
        lemma_heads_one(c, m0, s2, Buf::Q, Buf::Norm(l, NormId::QHead), g.heads, g.head_dim);
        let t = rmsnorm_heads(s2, Buf::Q, Buf::Norm(l, NormId::QHead), g.heads as u64, g.head_dim);
        lemma_cache_heads_one(c, m0, t, kc, off, Buf::Norm(l, NormId::KHead), g.kv_heads, g.head_dim);
    }
    assert(row(m3, Buf::Q, 0, g.heads * g.head_dim) == q1);
    assert(row(m3, kc, a, w) == k1);
    assert(within(m, m3, kc, a, w));
    lemma_rope_qk_one(c, m0, s3, g, Buf::Q, kc, off, pos);
}

/// The second part: what the query finds, and the feed-forward part.
pub open spec fn decode_rest(s: Seq<CmdView>, g: Geo, b: DenseBlock, l: usize, pos: u32) -> Seq<CmdView> {
    let s = attention_decode(s, g, Buf::Q, l, pos);
    let s = matvec(s, Kernel::MatvecAcc, lin_of(g, l, Proj::O, b.o_bias), Buf::Att, 0, Buf::X, 0);
    let s = rmsnorm(s, g, Buf::X, Buf::Norm(l, NormId::Post), Buf::Xn, 1);
    let s = swiglu(s, lin_of(g, l, Proj::Gate, b.gate_bias), lin_of(g, l, Proj::Up, b.up_bias), Buf::Xn, Buf::Gate);
    matvec(s, Kernel::MatvecAcc, lin_of(g, l, Proj::Down, b.down_bias), Buf::Gate, 0, Buf::X, 0)
}

/// The caches hold what they held.
pub open spec fn caches_kept(m: Mem, k: Mem) -> bool {
    &&& forall|j: usize, a: int, w: int| #[trigger]
        row(k, Buf::KCache(j), a, w) == row(m, Buf::KCache(j), a, w)
    &&& forall|j: usize, a: int, w: int| #[trigger]
        row(k, Buf::VCache(j), a, w) == row(m, Buf::VCache(j), a, w)
}

pub(crate) proof fn lemma_decode_rest(c: Ctx, m0: Mem, s: Seq<CmdView>, g: Geo, b: DenseBlock, l: usize, pos: u32)
    requires
        wide_geo(g),
        g.win is None ==> pos < g.max_seq,
        biases_known(c, l, b),
        !b.gate_bias,
        !b.up_bias,
    ensures
        ({
            let (m, k) = (run(c, m0, s), run(c, m0, decode_rest(s, g, b, l, pos)));
            let h = dense_shape(g, b);
            let x = row(m, Buf::X, 0, g.hidden as int);
            let a = seen(m, g, Buf::Q, l, 0, pos as int);
            &&& row(k, Buf::X, 0, g.hidden as int) == feed_out(c, h, l, attention_out(c, h, l, x, a))
            &&& caches_kept(m, k)
        }),
{
    let h = dense_shape(g, b);
    let hid = g.hidden as int;
    let m = run(c, m0, s);
    let x = row(m, Buf::X, 0, hid);
    let a = seen(m, g, Buf::Q, l, 0, pos as int);
    let s5 = attention_decode(s, g, Buf::Q, l, pos);
    lemma_attention_decode(c, m0, s, g, Buf::Q, l, pos);
    let m5 = run(c, m0, s5);
    assert(row(m5, Buf::Att, 0, g.heads * g.head_dim) == attended(a));
    let lo = lin_of(g, l, Proj::O, b.o_bias);
    let s6 = matvec(s5, Kernel::MatvecAcc, lo, Buf::Att, 0, Buf::X, 0);
    lemma_matvec_acc(c, m0, s5, Kernel::MatvecAcc, lo, Buf::Att, Buf::X);
    let m6 = run(c, m0, s6);
    let y = attention_out(c, h, l, x, a);
    assert(row(m6, Buf::X, 0, hid) == y);
    let s7 = rmsnorm(s6, g, Buf::X, Buf::Norm(l, NormId::Post), Buf::Xn, 1);
    lemma_rmsnorm_one(c, m0, s6, g, Buf::X, Buf::Norm(l, NormId::Post), Buf::Xn);
    let (lg, lu) = (lin_of(g, l, Proj::Gate, b.gate_bias), lin_of(g, l, Proj::Up, b.up_bias));
    let s8 = swiglu(s7, lg, lu, Buf::Xn, Buf::Gate);
    lemma_swiglu(c, m0, s7, lg, lu, Buf::Xn, Buf::Gate);
    let m8 = run(c, m0, s8);
    let z = normed(Buf::Norm(l, NormId::Post), y);
    assert(row(m8, Buf::Gate, 0, g.inter as int) == gated(
        project(c, l, Proj::Gate, z, h.inter),
        project(c, l, Proj::Up, z, h.inter),
    ));
    let ld = lin_of(g, l, Proj::Down, b.down_bias);
    lemma_matvec_acc(c, m0, s8, Kernel::MatvecAcc, ld, Buf::Gate, Buf::X);
}

/// The places of the new row.
proof fn lemma_new_row(g: Geo, pos: u32)
    requires
        dense_geo(g),
        pos < g.max_seq,
        g.kv_base / 2 + (g.extent() + 64) * g.kv_dim <= u32::MAX,
    ensures
        ({
            let off = g.row_off(pos as int);
            let kv_off = g.kv_base / 2 + pos * g.kv_dim;
            let (base, w) = (g.kv_base as int / 2, g.kv_heads * g.head_dim);
            &&& 0 <= off <= u64::MAX
            &&& 0 <= kv_off <= u32::MAX
            &&& kv_off == off / 2
            &&& kv_off == base + pos * w
        }),
{
    let (p, w) = (pos as int, g.kv_heads * g.head_dim);
    g.lemma_rows(p);
    assert(g.kv_dim == w);
    assert(0 <= p * w && p * w + w <= (g.extent() + 64) * w) by (nonlinear_arith)
        requires
            0 <= p,
            p + 1 <= g.extent() + 64,
            0 <= w,
    ;
    assert(pos * g.kv_dim * 2 == 2 * (p * w)) by (nonlinear_arith)
        requires
            pos == p,
            g.kv_dim == w,
    ;
}

/// A layer of a fused decode step.
pub proof fn lemma_decode_layer(c: Ctx, m0: Mem, s: Seq<CmdView>, g: Geo, b: DenseBlock, l: usize, pos: u32)
    requires
        dense_geo(g),
        pos < g.max_seq,
        g.kv_base / 2 + (g.extent() + 64) * g.kv_dim <= u32::MAX,
        biases_known(c, l, b),
        !b.gate_bias,
        !b.up_bias,
    ensures
        layer_done(
            c,
            run(c, m0, s),
            run(c, m0, decode_layer(s, g, b, l, pos)),
            g,
            dense_shape(g, b),
            l,
            pos as int,
            1,
        ),
{
    reveal(nth);
    let h = dense_shape(g, b);
    let (kc, vc) = (Buf::KCache(l), Buf::VCache(l));
    let (hid, w, p) = (g.hidden as int, g.kv_heads * g.head_dim, pos as int);
    let base = g.kv_base as int / 2;
    lemma_new_row(g, pos);
    let off = g.row_off(p) as u64;
    let kv_off = (g.kv_base / 2 + p * g.kv_dim) as u32;
    let m = run(c, m0, s);
    let t = decode_qkv(s, g, b, l, kv_off, off, pos);
    lemma_decode_qkv(c, m0, s, g, b, l, kv_off, off, pos);
    let m4 = run(c, m0, t);
    assert(decode_rest(t, g, b, l, pos) == decode_layer(s, g, b, l, pos));
    lemma_decode_rest(c, m0, t, g, b, l, pos);
    let k = run(c, m0, decode_layer(s, g, b, l, pos));
    let xs = rows_of(m, Buf::X, hid, 1);
    let x = xs[0];
    assert(x == row(m, Buf::X, 0, hid));
    let (keys, values) = (keys_upto(c, m, h, l, base, p, xs, 0), values_upto(c, m, h, l, base, p, xs, 0));
    assert(nth(m4, kc, base, w, p) == key_of(c, h, l, x, p));
    assert(nth(m4, vc, base, w, p) == value_of(c, h, l, x));
    lemma_table(m, m4, kc, base, w, p, 1, 0, keys);
    lemma_table(m, m4, vc, base, w, p, 1, 0, values);
    let a = Attention {
        query: query_of(c, h, l, x, p),
        keys,
        values,
        heads: h.heads,
        kv_heads: h.kv_heads,
        head_dim: h.head_dim,
        at: p,
    };
    assert(seen(m4, g, Buf::Q, l, 0, p) == a);
    let out = rows_out(c, m, h, l, base, p, xs);
    assert(nth(k, Buf::X, 0, hid, 0) == out[0]);
    assert(rows_of(k, Buf::X, hid, 1) =~= out);
    let at = base + p * w;
    assert(kv_off as int == at && 1 * w == w);
    assert forall|a: int, z: int| 0 <= z && (a + z <= at || at + 1 * w <= a) implies #[trigger] row(k, kc, a, z) == row(
        m,
        kc,
        a,
        z,
    ) by {
        assert(row(k, kc, a, z) == row(m4, kc, a, z));
    }
    assert forall|a: int, z: int| 0 <= z && (a + z <= at || at + 1 * w <= a) implies #[trigger] row(k, vc, a, z) == row(
        m,
        vc,
        a,
        z,
    ) by {
        assert(row(k, vc, a, z) == row(m4, vc, a, z));
    }
    assert forall|r: int| 0 <= r < 1 implies #[trigger] nth(k, kc, base, w, p + r) == key_of(c, h, l, xs[r], p + r) by {
        assert(nth(k, kc, base, w, p) == nth(m4, kc, base, w, p));
    }
    assert forall|r: int| 0 <= r < 1 implies #[trigger] nth(k, vc, base, w, p + r) == value_of(c, h, l, xs[r]) by {
        assert(nth(k, vc, base, w, p) == nth(m4, vc, base, w, p));
    }
}

// ---------- a chunk of rows ----------

/// The first part of a prefill layer up to the projections.
spec fn chunk_projected(s: Seq<CmdView>, g: Geo, b: DenseBlock, l: usize, off: u64, n: u32) -> Seq<CmdView> {
    let s = rmsnorm_both(s, g, Buf::X, Buf::Norm(l, NormId::Input), Buf::Xn, Buf::Xh, n);
    let s = with_barrier(s, true, seq![Buf::Xn, Buf::Xh]);
    let s = lin_half(s, lin_of(g, l, Proj::Q, b.q_bias), Buf::Xn, Buf::Q, 0, n, false);
    let s = linear_kv(s, lin_of(g, l, Proj::K, b.k_bias), Buf::Xn, Buf::KCache(l), off, n);
    let s = linear_kv(s, lin_of(g, l, Proj::V, b.v_bias), Buf::Xn, Buf::VCache(l), off, n);
    with_barrier(s, true, seq![Buf::Q, Buf::KCache(l), Buf::VCache(l)])
}

proof fn lemma_chunk_projected(c: Ctx, m0: Mem, s: Seq<CmdView>, g: Geo, b: DenseBlock, l: usize, off: u64, n: u32, r: int)
    requires
        dense_geo(g),
        biases_known(c, l, b),
        n * g.hidden <= u32::MAX,
        0 <= r < n,
    ensures
        ({
            let (m, k) = (run(c, m0, s), run(c, m0, chunk_projected(s, g, b, l, off, n)));
            let (a, qd, kd) = (off as int / 2, g.q_dim as int, g.kv_dim as int);
            let xn = normed(Buf::Norm(l, NormId::Input), nth(m, Buf::X, 0, g.hidden as int, r));
            &&& nth(k, Buf::Q, 0, qd, r) == project(c, l, Proj::Q, xn, qd)
            &&& nth(k, Buf::KCache(l), a, kd, r) == project(c, l, Proj::K, xn, kd)
            &&& nth(k, Buf::VCache(l), a, kd, r) == project(c, l, Proj::V, xn, kd)
            &&& within(m, k, Buf::KCache(l), a, n * kd)
            &&& within(m, k, Buf::VCache(l), a, n * kd)
            &&& nth(k, Buf::X, 0, g.hidden as int, r) == nth(m, Buf::X, 0, g.hidden as int, r)
            &&& others_kept(m, k, l)
        }),
{
    let (a, qd, kd, hid) = (off as int / 2, g.q_dim as int, g.kv_dim as int, g.hidden as int);
    let w = Buf::Norm(l, NormId::Input);
    let m = run(c, m0, s);
    let xn = normed(w, nth(m, Buf::X, 0, hid, r));
    let t1 = rmsnorm_both(s, g, Buf::X, w, Buf::Xn, Buf::Xh, n);
    let s1 = with_barrier(t1, true, seq![Buf::Xn, Buf::Xh]);
    lemma_rmsnorm_both(c, m0, s, g, Buf::X, w, Buf::Xn, Buf::Xh, n, r);
    lemma_barrier(c, m0, t1, true, seq![Buf::Xn, Buf::Xh]);
    let m1 = run(c, m0, s1);
    assert(nth(m1, Buf::Xn, 0, hid, r) == xn);
    assert(nth(m1, Buf::Xh, 0, hid, r) == xn);
    let (lq, lk, lv) = (
        lin_of(g, l, Proj::Q, b.q_bias),
        lin_of(g, l, Proj::K, b.k_bias),
        lin_of(g, l, Proj::V, b.v_bias),
    );
    let s2 = lin_half(s1, lq, Buf::Xn, Buf::Q, 0, n, false);
    lemma_linear(
        c,
        m0,
        s1,
        Kernel::Matvec,
        Kernel::Matmul,
        lq,
        Buf::Xn,
        0,
        Buf::Q,
        0,
        n,
        true,
        false,
        true,
        r,
    );
    let m2 = run(c, m0, s2);
    assert(nth(m2, Buf::Q, 0, qd, r) == project(c, l, Proj::Q, xn, qd));
    assert(nth(m2, Buf::Xn, 0, hid, r) == xn);
    assert(nth(m2, Buf::Xh, 0, hid, r) == xn);
    let s3 = linear_kv(s2, lk, Buf::Xn, Buf::KCache(l), off, n);
    lemma_linear_kv(c, m0, s2, lk, Buf::Xn, Buf::KCache(l), off, n, r);
    let m3 = run(c, m0, s3);
    assert(nth(m3, Buf::KCache(l), a, kd, r) == project(c, l, Proj::K, xn, kd));
    assert(nth(m3, Buf::Xn, 0, hid, r) == xn);
    assert(nth(m3, Buf::Xh, 0, hid, r) == xn);
    let s4 = linear_kv(s3, lv, Buf::Xn, Buf::VCache(l), off, n);
    lemma_linear_kv(c, m0, s3, lv, Buf::Xn, Buf::VCache(l), off, n, r);
    lemma_barrier(c, m0, s4, true, seq![Buf::Q, Buf::KCache(l), Buf::VCache(l)]);
}

/// The rest of the first part: norms by heads, and the rotation.
spec fn chunk_turned(s: Seq<CmdView>, g: Geo, b: DenseBlock, l: usize, off: u64, pos0: u32, n: u32) -> Seq<CmdView> {
    let s = if b.qk_norm {
        let s = rmsnorm_heads(s, Buf::Q, Buf::Norm(l, NormId::QHead), (n * g.heads) as u64, g.head_dim);
        let s = rmsnorm_cache(
            s,
            Buf::KCache(l),
            off,
            Buf::Norm(l, NormId::KHead),
            (n * g.kv_heads) as u64,
            g.head_dim,
        );
        with_barrier(s, true, seq![Buf::Q, Buf::KCache(l)])
    } else {
        s
    };
    let s = rope_qk_chunk(s, g, Buf::Q, Buf::KCache(l), off, pos0, n);
    with_barrier(s, true, seq![Buf::Q, Buf::KCache(l)])
}

proof fn lemma_chunk_turned(
    c: Ctx,
    m0: Mem,
    s: Seq<CmdView>,
    g: Geo,
    b: DenseBlock,
    l: usize,
    off: u64,
    pos0: u32,
    n: u32,
    r: int,
)
    requires
        dense_geo(g),
        0 <= r < n,
    ensures
        ({
            let (m, k) = (run(c, m0, s), run(c, m0, chunk_turned(s, g, b, l, off, pos0, n)));
            let (a, qd, kd, d) = (off as int / 2, g.q_dim as int, g.kv_dim as int, g.head_dim as int);
            let (wq, wk) = (Buf::Norm(l, NormId::QHead), Buf::Norm(l, NormId::KHead));
            let (q, x) = (nth(m, Buf::Q, 0, qd, r), nth(m, Buf::KCache(l), a, kd, r));
            &&& nth(k, Buf::Q, 0, qd, r) == turned(if b.qk_norm { heads_normed(wq, q, d) } else { q }, d, d, pos0 + r)
            &&& nth(k, Buf::KCache(l), a, kd, r) == turned(
                if b.qk_norm { heads_normed(wk, x, d) } else { x },
                d,
                d,
                pos0 + r,
            )
            &&& within(m, k, Buf::KCache(l), a, n * kd)
            &&& only(m, k, Buf::Q, Buf::KCache(l), Buf::KCache(l))
        }),
{
    let (a, qd, kd, d) = (off as int / 2, g.q_dim as int, g.kv_dim as int, g.head_dim as int);
    let (wq, wk) = (Buf::Norm(l, NormId::QHead), Buf::Norm(l, NormId::KHead));
    let kc = Buf::KCache(l);
    assert(qd == g.heads * g.head_dim && kd == g.kv_heads * g.head_dim);
    assert(0 <= n * g.heads <= u64::MAX && 0 <= n * g.kv_heads <= u64::MAX) by (nonlinear_arith)
        requires
            0 <= n <= u32::MAX,
            0 <= g.heads <= u32::MAX,
            0 <= g.kv_heads <= u32::MAX,
    ;
    let m = run(c, m0, s);
    let t1 = rmsnorm_heads(s, Buf::Q, wq, (n * g.heads) as u64, g.head_dim);
    let t2 = rmsnorm_cache(t1, kc, off, wk, (n * g.kv_heads) as u64, g.head_dim);
    let s3 = if b.qk_norm {
        with_barrier(t2, true, seq![Buf::Q, kc])
    } else {
        s
    };
    let m3 = run(c, m0, s3);
    if b.qk_norm {
        lemma_rmsnorm_heads(c, m0, s, Buf::Q, wq, n, g.heads, g.head_dim, r);
        lemma_rmsnorm_cache(c, m0, t1, kc, off, wk, n, g.kv_heads, g.head_dim, r);
        lemma_barrier(c, m0, t2, true, seq![Buf::Q, kc]);
        assert(nth(m3, Buf::Q, 0, qd, r) == heads_normed(wq, nth(m, Buf::Q, 0, qd, r), d));
        assert(nth(m3, kc, a, kd, r) == heads_normed(wk, nth(m, kc, a, kd, r), d));
    }
    let s4 = rope_qk_chunk(s3, g, Buf::Q, kc, off, pos0, n);
    lemma_rope_qk_chunk(c, m0, s3, g, Buf::Q, kc, off, pos0, n, r);
    lemma_barrier(c, m0, s4, true, seq![Buf::Q, kc]);
}

/// The second part of a prefill layer: what the queries find.
pub open spec fn chunk_attended(s: Seq<CmdView>, g: Geo, b: DenseBlock, l: usize, pos0: u32, n: u32) -> Seq<CmdView> {
    let s = attention(s, g, Buf::Q, l, pos0, n);
    let s = with_barrier(s, true, seq![Buf::Att, Buf::Xh, Buf::Scores]);
    let s = lin_half(s, lin_of(g, l, Proj::O, b.o_bias), Buf::Att, Buf::Xb, 0, n, !is_flash(g));
    let s = with_barrier(s, true, seq![Buf::Xb]);
    let s = add_inplace(s, Buf::X, Buf::Xb, (n * g.hidden) as u64);
    with_barrier(s, true, seq![Buf::X])
}

pub(crate) proof fn lemma_chunk_attended(c: Ctx, m0: Mem, s: Seq<CmdView>, g: Geo, b: DenseBlock, l: usize, pos0: u32, n: u32, r: int)
    requires
        wide_geo(g),
        biases_known(c, l, b),
        n * g.hidden <= u32::MAX,
        n * g.q_dim <= u32::MAX,
        0 <= r < n,
    ensures
        ({
            let (m, k) = (run(c, m0, s), run(c, m0, chunk_attended(s, g, b, l, pos0, n)));
            let (h, hid) = (dense_shape(g, b), g.hidden as int);
            &&& nth(k, Buf::X, 0, hid, r) == attention_out(
                c,
                h,
                l,
                nth(m, Buf::X, 0, hid, r),
                seen(m, g, Buf::Q, l, r, pos0 + r),
            )
            &&& caches_kept(m, k)
        }),
{
    let (h, hid) = (dense_shape(g, b), g.hidden as int);
    let qd = g.q_dim as int;
    assert(qd == g.heads * g.head_dim);
    let m = run(c, m0, s);
    let a = seen(m, g, Buf::Q, l, r, pos0 + r);
    let t1 = attention(s, g, Buf::Q, l, pos0, n);
    lemma_attention(c, m0, s, g, Buf::Q, l, pos0, n, r);
    let s1 = with_barrier(t1, true, seq![Buf::Att, Buf::Xh, Buf::Scores]);
    lemma_barrier(c, m0, t1, true, seq![Buf::Att, Buf::Xh, Buf::Scores]);
    let m1 = run(c, m0, s1);
    assert(nth(m1, Buf::Att, 0, qd, r) == attended(a));
    let lo = lin_of(g, l, Proj::O, b.o_bias);
    let t2 = lin_half(s1, lo, Buf::Att, Buf::Xb, 0, n, !is_flash(g));
    lemma_linear(
        c,
        m0,
        s1,
        Kernel::Matvec,
        Kernel::Matmul,
        lo,
        Buf::Att,
        0,
        Buf::Xb,
        0,
        n,
        true,
        !is_flash(g),
        true,
        r,
    );
    let s2 = with_barrier(t2, true, seq![Buf::Xb]);
    lemma_barrier(c, m0, t2, true, seq![Buf::Xb]);
    let m2 = run(c, m0, s2);
    assert(nth(m2, Buf::Xb, 0, hid, r) == project(c, l, Proj::O, attended(a), hid));
    let t3 = add_inplace(s2, Buf::X, Buf::Xb, (n * g.hidden) as u64);
    lemma_add(c, m0, s2, Buf::X, Buf::Xb, n, g.hidden, r);
    lemma_barrier(c, m0, t3, true, seq![Buf::X]);
}

pub(crate) proof fn lemma_chunk_fed(c: Ctx, m0: Mem, s: Seq<CmdView>, g: Geo, b: DenseBlock, l: usize, n: u32, r: int)
    requires
        wide_geo(g),
        biases_known(c, l, b),
        n * g.hidden <= u32::MAX,
        n * g.inter <= u32::MAX,
        0 <= r < n,
    ensures
        ({
            let (m, k) = (run(c, m0, s), run(c, m0, prefill_mlp(s, g, b, l, n)));
            let (h, hid) = (dense_shape(g, b), g.hidden as int);
            &&& nth(k, Buf::X, 0, hid, r) == feed_out(c, h, l, nth(m, Buf::X, 0, hid, r))
            &&& caches_kept(m, k)
        }),
{
    let (h, hid, ff) = (dense_shape(g, b), g.hidden as int, g.inter as int);
    let w = Buf::Norm(l, NormId::Post);
    let m = run(c, m0, s);
    let z = normed(w, nth(m, Buf::X, 0, hid, r));
    let t1 = rmsnorm_both(s, g, Buf::X, w, Buf::Xn, Buf::Xh, n);
    let s1 = with_barrier(t1, true, seq![Buf::Xn, Buf::Xh]);
    lemma_rmsnorm_both(c, m0, s, g, Buf::X, w, Buf::Xn, Buf::Xh, n, r);
    lemma_barrier(c, m0, t1, true, seq![Buf::Xn, Buf::Xh]);
    let m1 = run(c, m0, s1);
    assert(nth(m1, Buf::Xn, 0, hid, r) == z);
    assert(nth(m1, Buf::Xh, 0, hid, r) == z);
    let (lg, lu, ld) = (
        lin_of(g, l, Proj::Gate, b.gate_bias),
        lin_of(g, l, Proj::Up, b.up_bias),
        lin_of(g, l, Proj::Down, b.down_bias),
    );
    let s2 = lin_half(s1, lg, Buf::Xn, Buf::Gate, 0, n, false);
    lemma_linear(c, m0, s1, Kernel::Matvec, Kernel::Matmul, lg, Buf::Xn, 0, Buf::Gate, 0, n, true, false, true, r);
    let m2 = run(c, m0, s2);
    assert(nth(m2, Buf::Gate, 0, ff, r) == project(c, l, Proj::Gate, z, ff));
    let t3 = lin_half(s2, lu, Buf::Xn, Buf::Up, 0, n, false);
    lemma_linear(c, m0, s2, Kernel::Matvec, Kernel::Matmul, lu, Buf::Xn, 0, Buf::Up, 0, n, true, false, true, r);
    let s3 = with_barrier(t3, true, seq![Buf::Gate, Buf::Up]);
    lemma_barrier(c, m0, t3, true, seq![Buf::Gate, Buf::Up]);
    let m3 = run(c, m0, s3);
    assert(nth(m3, Buf::Up, 0, ff, r) == project(c, l, Proj::Up, z, ff));
    assert(nth(m3, Buf::Gate, 0, ff, r) == project(c, l, Proj::Gate, z, ff));
    let t4 = silu_mul_both(s3, Buf::Gate, Buf::Up, Buf::Xh, (n * g.inter) as u64);
    lemma_silu_mul_both(c, m0, s3, Buf::Gate, Buf::Up, Buf::Xh, n, g.inter, r);
    let s4 = with_barrier(t4, true, seq![Buf::Gate, Buf::Xh]);
    lemma_barrier(c, m0, t4, true, seq![Buf::Gate, Buf::Xh]);
    let m4 = run(c, m0, s4);
    let f = gated(project(c, l, Proj::Gate, z, ff), project(c, l, Proj::Up, z, ff));
    assert(nth(m4, Buf::Gate, 0, ff, r) == f);
    assert(nth(m4, Buf::Xh, 0, ff, r) == f);
    let t5 = lin_half(s4, ld, Buf::Gate, Buf::Xb, 0, n, false);
    lemma_linear(c, m0, s4, Kernel::Matvec, Kernel::Matmul, ld, Buf::Gate, 0, Buf::Xb, 0, n, true, false, true, r);
    let s5 = with_barrier(t5, true, seq![Buf::Xb]);
    lemma_barrier(c, m0, t5, true, seq![Buf::Xb]);
    let m5 = run(c, m0, s5);
    assert(nth(m5, Buf::Xb, 0, hid, r) == project(c, l, Proj::Down, f, hid));
    let t6 = add_inplace(s5, Buf::X, Buf::Xb, (n * g.hidden) as u64);
    lemma_add(c, m0, s5, Buf::X, Buf::Xb, n, g.hidden, r);
    lemma_barrier(c, m0, t6, true, seq![Buf::X]);
}

/// Row `r` behind `pos0` rows.
pub(crate) proof fn lemma_shift(m: Mem, b: Buf, base: int, w: int, pos0: int, r: int)
    ensures
        nth(m, b, base, w, pos0 + r) == nth(m, b, base + pos0 * w, w, r),
{
    reveal(nth);
    assert((pos0 + r) * w == pos0 * w + r * w) by (nonlinear_arith);
}

/// The queries of a chunk, and its keys and values in the cache.
proof fn lemma_chunk_qkv(c: Ctx, m0: Mem, s: Seq<CmdView>, g: Geo, b: DenseBlock, l: usize, off: u64, pos0: u32, n: u32, r: int)
    requires
        dense_geo(g),
        g.rot_dim == g.head_dim,
        biases_known(c, l, b),
        n * g.hidden <= u32::MAX,
        0 <= r < n,
        off as int / 2 == g.kv_base as int / 2 + pos0 * g.kv_dim,
    ensures
        ({
            let m = run(c, m0, s);
            let k = run(c, m0, chunk_turned(chunk_projected(s, g, b, l, off, n), g, b, l, off, pos0, n));
            let (h, hid, base) = (dense_shape(g, b), g.hidden as int, g.kv_base as int / 2);
            let (qd, kd) = (g.q_dim as int, g.kv_dim as int);
            let (x, p) = (nth(m, Buf::X, 0, hid, r), pos0 + r);
            &&& nth(k, Buf::Q, 0, qd, r) == query_of(c, h, l, x, p)
            &&& nth(k, Buf::KCache(l), base, kd, p) == key_of(c, h, l, x, p)
            &&& nth(k, Buf::VCache(l), base, kd, p) == value_of(c, h, l, x)
            &&& within(m, k, Buf::KCache(l), base + pos0 * kd, n * kd)
            &&& within(m, k, Buf::VCache(l), base + pos0 * kd, n * kd)
            &&& nth(k, Buf::X, 0, hid, r) == x
            &&& others_kept(m, k, l)
        }),
{
    let (base, kd) = (g.kv_base as int / 2, g.kv_dim as int);
    let t = chunk_projected(s, g, b, l, off, n);
    lemma_chunk_projected(c, m0, s, g, b, l, off, n, r);
    lemma_chunk_turned(c, m0, t, g, b, l, off, pos0, n, r);
    let k = run(c, m0, chunk_turned(t, g, b, l, off, pos0, n));
    lemma_shift(k, Buf::KCache(l), base, kd, pos0 as int, r);
    lemma_shift(k, Buf::VCache(l), base, kd, pos0 as int, r);
}

pub(crate) proof fn lemma_kept_both(m: Mem, k: Mem, e: Mem)
    requires
        caches_kept(m, k),
        caches_kept(k, e),
    ensures
        caches_kept(m, e),
{
}

pub(crate) proof fn lemma_kept_rows(m: Mem, k: Mem, base: int, w: int)
    requires
        caches_kept(m, k),
    ensures
        forall|j: usize, r: int| #[trigger] nth(k, Buf::KCache(j), base, w, r) == nth(m, Buf::KCache(j), base, w, r),
        forall|j: usize, r: int| #[trigger] nth(k, Buf::VCache(j), base, w, r) == nth(m, Buf::VCache(j), base, w, r),
{
    reveal(nth);
}

/// A layer of a prefill step.
pub proof fn lemma_prefill_layer(c: Ctx, m0: Mem, s: Seq<CmdView>, g: Geo, b: DenseBlock, l: usize, pos0: u32, n: u32)
    requires
        dense_geo(g),
        g.rot_dim == g.head_dim,
        biases_known(c, l, b),
        1 <= n,
        pos0 + n <= g.max_seq,
        n * g.hidden <= u32::MAX,
        n * g.inter <= u32::MAX,
        n * g.q_dim <= u32::MAX,
    ensures
        layer_done(
            c,
            run(c, m0, s),
            run(c, m0, prefill_layer(s, g, b, l, pos0, n)),
            g,
            dense_shape(g, b),
            l,
            pos0 as int,
            n as int,
        ),
{
    let h = dense_shape(g, b);
    let (kc, vc) = (Buf::KCache(l), Buf::VCache(l));
    let (hid, w, p0) = (g.hidden as int, g.kv_dim as int, pos0 as int);
    let base = g.kv_base as int / 2;
    g.lemma_rows(p0);
    let off = g.row_off(p0) as u64;
    assert(p0 * g.kv_dim * 2 == 2 * (p0 * w)) by (nonlinear_arith)
        requires
            g.kv_dim == w,
    ;
    assert(off as int / 2 == base + pos0 * g.kv_dim);
    assert(w == g.kv_heads * g.head_dim && g.q_dim == g.heads * g.head_dim);
    let m = run(c, m0, s);
    let t = chunk_turned(chunk_projected(s, g, b, l, off, n), g, b, l, off, pos0, n);
    let u = chunk_attended(t, g, b, l, pos0, n);
    let v = prefill_mlp(u, g, b, l, n);
    assert(v == prefill_layer(s, g, b, l, pos0, n));
    let (mt, mu, k) = (run(c, m0, t), run(c, m0, u), run(c, m0, v));
    let xs = rows_of(m, Buf::X, hid, n as int);
    let out = rows_out(c, m, h, l, base, p0, xs);
    let got = rows_of(k, Buf::X, hid, n as int);
    lemma_chunk_qkv(c, m0, s, g, b, l, off, pos0, n, 0);
    lemma_chunk_attended(c, m0, t, g, b, l, pos0, n, 0);
    lemma_chunk_fed(c, m0, u, g, b, l, n, 0);
    lemma_kept_both(mt, mu, k);
    assert forall|r: int| 0 <= r < n implies #[trigger] nth(mt, kc, base, w, p0 + r) == key_of(c, h, l, xs[r], p0 + r)
        && nth(mt, vc, base, w, p0 + r) == value_of(c, h, l, xs[r]) by {
        lemma_chunk_qkv(c, m0, s, g, b, l, off, pos0, n, r);
    }
    assert forall|r: int| 0 <= r < n implies #[trigger] got[r] == out[r] by {
        lemma_chunk_qkv(c, m0, s, g, b, l, off, pos0, n, r);
        lemma_chunk_attended(c, m0, t, g, b, l, pos0, n, r);
        lemma_chunk_fed(c, m0, u, g, b, l, n, r);
        let (keys, values) = (keys_upto(c, m, h, l, base, p0, xs, r), values_upto(c, m, h, l, base, p0, xs, r));
        assert forall|p: int| p0 <= p <= p0 + r implies #[trigger] keys[p] == nth(mt, kc, base, w, p) by {
            assert(nth(mt, kc, base, w, p0 + (p - p0)) == key_of(c, h, l, xs[p - p0], p));
        }
        assert forall|p: int| p0 <= p <= p0 + r implies #[trigger] values[p] == nth(mt, vc, base, w, p) by {
            assert(nth(mt, kc, base, w, p0 + (p - p0)) == key_of(c, h, l, xs[p - p0], p));
        }
        lemma_table(m, mt, kc, base, w, p0, n as int, r, keys);
        lemma_table(m, mt, vc, base, w, p0, n as int, r, values);
        let a = Attention {
            query: query_of(c, h, l, xs[r], p0 + r),
            keys,
            values,
            heads: h.heads,
            kv_heads: h.kv_heads,
            head_dim: h.head_dim,
            at: p0 + r,
        };
        assert(seen(mt, g, Buf::Q, l, r, p0 + r) == a);
    }
    assert(got =~= out);
    lemma_kept_rows(mt, k, base, w);
    assert forall|r: int| 0 <= r < n implies #[trigger] nth(k, kc, base, w, p0 + r) == key_of(c, h, l, xs[r], p0 + r) by {
        assert(nth(k, kc, base, w, p0 + r) == nth(mt, kc, base, w, p0 + r));
    }
    assert forall|r: int| 0 <= r < n implies #[trigger] nth(k, vc, base, w, p0 + r) == value_of(c, h, l, xs[r]) by {
        assert(nth(k, vc, base, w, p0 + r) == nth(mt, vc, base, w, p0 + r));
        assert(nth(mt, kc, base, w, p0 + r) == key_of(c, h, l, xs[r], p0 + r));
    }
}

// ---------- a whole step ----------

/// Rows after `k` layers, over the cache that starts at `base`.
pub open spec fn hidden_rows(
    c: Ctx,
    m: Mem,
    hs: Seq<Shape>,
    base: int,
    pos0: int,
    layer0: int,
    xs: Seq<Seq<Term>>,
    k: int,
) -> Seq<Seq<Term>>
    decreases k - layer0,
{
    if k <= layer0 {
        xs
    } else {
        rows_out(
            c,
            m,
            hs[k - 1],
            (k - 1) as usize,
            base,
            pos0,
            hidden_rows(c, m, hs, base, pos0, layer0, xs, k - 1),
        )
    }
}

/// The shapes of the layers.
pub open spec fn dense_shapes(g: Geo, blocks: Seq<DenseBlock>) -> Seq<Shape> {
    Seq::new(blocks.len(), |i: int| dense_shape(g, blocks[i]))
}

/// The rows of a step after `k` layers.
pub open spec fn step_rows(c: Ctx, m: Mem, g: Geo, blocks: Seq<DenseBlock>, st: Step, xs: Seq<Seq<Term>>, k: int) -> Seq<
    Seq<Term>,
> {
    hidden_rows(c, m, dense_shapes(g, blocks), g.kv_base as int / 2, st.pos0 as int, st.layer0 as int, xs, k)
}

/// The rows that a step starts from: the embeddings of its tokens, or what the
/// layers before it left.
pub open spec fn first_rows(m: Mem, g: Geo, st: Step) -> Seq<Seq<Term>> {
    if st.from_ids {
        Seq::new(
            st.n as nat,
            |r: int| Seq::new(g.hidden as nat, |i: int| Term::Picked(Buf::EmbedTable, Buf::Ids, r, i)),
        )
    } else {
        rows_of(m, Buf::X, g.hidden as int, st.n as int)
    }
}

/// The cache of layer `l` holds the keys and values of the step behind those that
/// were there.
pub open spec fn cached(c: Ctx, m: Mem, k: Mem, base: int, h: Shape, l: usize, pos0: int, xs: Seq<Seq<Term>>) -> bool {
    let w = h.kv_heads * h.head_dim;
    &&& forall|r: int|
        0 <= r < xs.len() ==> #[trigger] nth(k, Buf::KCache(l), base, w, pos0 + r) == key_of(c, h, l, xs[r], pos0 + r)
    &&& forall|r: int|
        0 <= r < xs.len() ==> #[trigger] nth(k, Buf::VCache(l), base, w, pos0 + r) == value_of(c, h, l, xs[r])
    &&& forall|p: int|
        0 <= p < pos0 ==> #[trigger] nth(k, Buf::KCache(l), base, w, p) == nth(m, Buf::KCache(l), base, w, p)
    &&& forall|p: int|
        0 <= p < pos0 ==> #[trigger] nth(k, Buf::VCache(l), base, w, p) == nth(m, Buf::VCache(l), base, w, p)
}

/// What the laws of a step ask of the model: no window, a step within its
/// buffers, heads that rotate whole where rows are taken together, the biases that
/// the blocks claim, and none in a feed-forward part that is fused.
pub open spec fn model_ok(c: Ctx, g: Geo, blocks: Seq<DenseBlock>, head_bias: bool, st: Step) -> bool {
    &&& dense_geo(g)
    &&& step_ok(g, st)
    &&& st.layer0 <= blocks.len() <= usize::MAX
    &&& !fused(g, st.n) ==> g.rot_dim == g.head_dim
    &&& (c.biased)(Buf::Bias(blocks.len() as usize, Proj::Head)) <==> head_bias
    &&& forall|l: int|
        0 <= l < blocks.len() ==> biases_known(c, l as usize, #[trigger] blocks[l]) && (fused(g, st.n)
            ==> !blocks[l].gate_bias && !blocks[l].up_bias)
}

pub(crate) proof fn lemma_rows_out_same(c: Ctx, m: Mem, k: Mem, h: Shape, l: usize, base: int, pos0: int, xs: Seq<Seq<Term>>)
    requires
        forall|a: int, w: int| #[trigger] row(k, Buf::KCache(l), a, w) == row(m, Buf::KCache(l), a, w),
        forall|a: int, w: int| #[trigger] row(k, Buf::VCache(l), a, w) == row(m, Buf::VCache(l), a, w),
    ensures
        rows_out(c, k, h, l, base, pos0, xs) == rows_out(c, m, h, l, base, pos0, xs),
{
    reveal(nth);
    assert forall|r: int| keys_upto(c, k, h, l, base, pos0, xs, r) == #[trigger] keys_upto(c, m, h, l, base, pos0, xs, r) by {
        assert(keys_upto(c, k, h, l, base, pos0, xs, r) =~= keys_upto(c, m, h, l, base, pos0, xs, r));
    }
    assert forall|r: int| values_upto(c, k, h, l, base, pos0, xs, r) == #[trigger] values_upto(
        c,
        m,
        h,
        l,
        base,
        pos0,
        xs,
        r,
    ) by {
        assert(values_upto(c, k, h, l, base, pos0, xs, r) =~= values_upto(c, m, h, l, base, pos0, xs, r));
    }
    assert(rows_out(c, k, h, l, base, pos0, xs) =~= rows_out(c, m, h, l, base, pos0, xs));
}

/// The cache of a layer that a later layer leaves alone.
pub(crate) proof fn lemma_cached_stays(c: Ctx, m: Mem, k: Mem, e: Mem, base: int, h: Shape, l: usize, j: usize, pos0: int, xs: Seq<Seq<Term>>)
    requires
        cached(c, m, k, base, h, l, pos0, xs),
        others_kept(k, e, j),
        j != l,
    ensures
        cached(c, m, e, base, h, l, pos0, xs),
{
    reveal(nth);
    let w = h.kv_heads * h.head_dim;
    assert forall|r: int| 0 <= r < xs.len() implies #[trigger] nth(e, Buf::KCache(l), base, w, pos0 + r) == key_of(
        c,
        h,
        l,
        xs[r],
        pos0 + r,
    ) by {
        assert(nth(e, Buf::KCache(l), base, w, pos0 + r) == nth(k, Buf::KCache(l), base, w, pos0 + r));
    }
    assert forall|r: int| 0 <= r < xs.len() implies #[trigger] nth(e, Buf::VCache(l), base, w, pos0 + r) == value_of(
        c,
        h,
        l,
        xs[r],
    ) by {
        assert(nth(e, Buf::VCache(l), base, w, pos0 + r) == nth(k, Buf::VCache(l), base, w, pos0 + r));
    }
    assert forall|p: int| 0 <= p < pos0 implies #[trigger] nth(e, Buf::KCache(l), base, w, p) == nth(
        m,
        Buf::KCache(l),
        base,
        w,
        p,
    ) by {
        assert(nth(e, Buf::KCache(l), base, w, p) == nth(k, Buf::KCache(l), base, w, p));
    }
    assert forall|p: int| 0 <= p < pos0 implies #[trigger] nth(e, Buf::VCache(l), base, w, p) == nth(
        m,
        Buf::VCache(l),
        base,
        w,
        p,
    ) by {
        assert(nth(e, Buf::VCache(l), base, w, p) == nth(k, Buf::VCache(l), base, w, p));
    }
}

/// A layer's own cache, once it is done.
pub(crate) proof fn lemma_cached_now(c: Ctx, m: Mem, k: Mem, e: Mem, g: Geo, h: Shape, l: usize, pos0: int, n: int)
    requires
        layer_done(c, k, e, g, h, l, pos0, n),
        forall|a: int, w: int| #[trigger] row(k, Buf::KCache(l), a, w) == row(m, Buf::KCache(l), a, w),
        forall|a: int, w: int| #[trigger] row(k, Buf::VCache(l), a, w) == row(m, Buf::VCache(l), a, w),
        0 <= h.kv_heads * h.head_dim,
        0 <= n,
        0 <= pos0,
    ensures
        cached(c, m, e, g.kv_base as int / 2, h, l, pos0, rows_of(k, Buf::X, h.hidden, n)),
{
    let (base, w) = (g.kv_base as int / 2, h.kv_heads * h.head_dim);
    assert forall|p: int| 0 <= p < pos0 implies #[trigger] nth(e, Buf::KCache(l), base, w, p) == nth(
        m,
        Buf::KCache(l),
        base,
        w,
        p,
    ) by {
        reveal(nth);
        lemma_inside(p, pos0, w);
        assert(row(e, Buf::KCache(l), base + p * w, w) == row(k, Buf::KCache(l), base + p * w, w));
    }
    assert forall|p: int| 0 <= p < pos0 implies #[trigger] nth(e, Buf::VCache(l), base, w, p) == nth(
        m,
        Buf::VCache(l),
        base,
        w,
        p,
    ) by {
        reveal(nth);
        lemma_inside(p, pos0, w);
        assert(row(e, Buf::VCache(l), base + p * w, w) == row(k, Buf::VCache(l), base + p * w, w));
    }
}

/// The layers of a step.
proof fn lemma_layers(
    c: Ctx,
    m0: Mem,
    s: Seq<CmdView>,
    g: Geo,
    blocks: Seq<DenseBlock>,
    head_bias: bool,
    st: Step,
    k: int,
)
    requires
        model_ok(c, g, blocks, head_bias, st),
        st.layer0 <= k <= blocks.len(),
    ensures
        ({
            let (m, e) = (run(c, m0, s), run(c, m0, layers_upto(s, g, blocks, st, k)));
            let xs = rows_of(m, Buf::X, g.hidden as int, st.n as int);
            &&& rows_of(e, Buf::X, g.hidden as int, st.n as int) == step_rows(c, m, g, blocks, st, xs, k)
            &&& forall|l: usize, a: int, w: int|
                l >= k ==> #[trigger] row(e, Buf::KCache(l), a, w) == row(m, Buf::KCache(l), a, w)
            &&& forall|l: usize, a: int, w: int|
                l >= k ==> #[trigger] row(e, Buf::VCache(l), a, w) == row(m, Buf::VCache(l), a, w)
            &&& forall|l: usize|
                st.layer0 <= l < k ==> #[trigger] cached(
                    c,
                    m,
                    e,
                    g.kv_base as int / 2,
                    dense_shape(g, blocks[l as int]),
                    l,
                    st.pos0 as int,
                    step_rows(c, m, g, blocks, st, xs, l as int),
                )
        }),
    decreases k - st.layer0,
{
    if k > st.layer0 {
        lemma_layers(c, m0, s, g, blocks, head_bias, st, k - 1);
        let before = layers_upto(s, g, blocks, st, k - 1);
        let (b, j) = (blocks[k - 1], (k - 1) as usize);
        let (m, d, e) = (run(c, m0, s), run(c, m0, before), run(c, m0, layers_upto(s, g, blocks, st, k)));
        let h = dense_shape(g, b);
        let (hid, n, p0, base) = (g.hidden as int, st.n as int, st.pos0 as int, g.kv_base as int / 2);
        let xs = rows_of(m, Buf::X, hid, n);
        assert(biases_known(c, j, blocks[k - 1]));
        if fused(g, st.n) {
            lemma_decode_layer(c, m0, before, g, b, j, st.pos0);
        } else {
            lemma_prefill_layer(c, m0, before, g, b, j, st.pos0, st.n);
        }
        assert(layer_done(c, d, e, g, h, j, p0, n));
        lemma_rows_out_same(c, m, d, h, j, base, p0, step_rows(c, m, g, blocks, st, xs, k - 1));
        assert(0 <= g.kv_heads * g.head_dim) by (nonlinear_arith);
        lemma_cached_now(c, m, d, e, g, h, j, p0, n);
        assert forall|l: usize| st.layer0 <= l < k implies #[trigger] cached(
            c,
            m,
            e,
            g.kv_base as int / 2,
            dense_shape(g, blocks[l as int]),
            l,
            p0,
            step_rows(c, m, g, blocks, st, xs, l as int),
        ) by {
            if l != j {
                lemma_cached_stays(
                    c,
                    m,
                    d,
                    e,
                    g.kv_base as int / 2,
                    dense_shape(g, blocks[l as int]),
                    l,
                    j,
                    p0,
                    step_rows(c, m, g, blocks, st, xs, l as int),
                );
            }
        }
    }
}

/// Row `j` of the logits is the head over row `n - r + j` of the last norm, of the
/// `n` rows of a step that wants the logits of its last `r`.
pub proof fn lemma_head_reads_the_last_rows(c: Ctx, m0: Mem, s: Seq<CmdView>, g: Geo, layers: usize, st: Step, head_bias: bool, j: int)
    requires
        rows_fit_head(g, st),
        (c.biased)(Buf::Bias(layers, Proj::Head)) <==> head_bias,
        0 <= j < st.logits_rows,
    ensures
        ({
            let (m, k) = (run(c, m0, s), run(c, m0, head(s, g, layers, st, head_bias)));
            let x = nth(m, Buf::X, 0, g.hidden as int, st.n - st.logits_rows + j);
            nth(k, Buf::Logits, 0, g.vocab as int, j) == project(
                c,
                layers,
                Proj::Head,
                normed(Buf::Norm(layers, NormId::Final), x),
                g.vocab as int,
            )
        }),
{
    let conc = !fused(g, st.n);
    let (n, q, hid) = (st.n as int, st.logits_rows as int, g.hidden as int);
    let w = Buf::Norm(layers, NormId::Final);
    let r = n - q + j;
    let m = run(c, m0, s);
    assert(0 <= (n - q) * hid <= n * hid && 0 <= q * hid <= n * hid) by (nonlinear_arith)
        requires
            0 <= q <= n,
            0 <= hid,
    ;
    let x_off = ((st.n - st.logits_rows) * g.hidden * 4) as u64;
    assert(x_off as int / 4 == (n - q) * hid);
    let t1 = rmsnorm_both(s, g, Buf::X, w, Buf::Xn, Buf::Xh, st.n);
    let s1 = with_barrier(t1, conc, seq![Buf::Xn, Buf::Xh]);
    lemma_rmsnorm_both(c, m0, s, g, Buf::X, w, Buf::Xn, Buf::Xh, st.n, r);
    lemma_barrier(c, m0, t1, conc, seq![Buf::Xn, Buf::Xh]);
    let m1 = run(c, m0, s1);
    lemma_shift(m1, Buf::Xn, 0, hid, n - q, j);
    assert(nth(m1, Buf::Xn, (n - q) * hid, hid, j) == normed(w, nth(m, Buf::X, 0, hid, r)));
    lemma_linear(
        c,
        m0,
        s1,
        Kernel::Matvec,
        Kernel::Matmul,
        lin_of(g, layers, Proj::Head, head_bias),
        Buf::Xn,
        x_off,
        Buf::Logits,
        0,
        st.logits_rows,
        true,
        true,
        conc,
        j,
    );
}

/// The rows of a step, as far as its head counts them.
pub open spec fn rows_fit_head(g: Geo, st: Step) -> bool {
    st.logits_rows <= st.n && st.n * g.hidden <= u32::MAX
}

/// The head leaves the caches alone.
proof fn lemma_head_keeps_caches(c: Ctx, m0: Mem, s: Seq<CmdView>, g: Geo, layers: usize, st: Step, head_bias: bool)
    requires
        rows_fit_head(g, st),
        (c.biased)(Buf::Bias(layers, Proj::Head)) <==> head_bias,
    ensures
        caches_kept(run(c, m0, s), run(c, m0, head(s, g, layers, st, head_bias))),
{
    if st.logits_rows > 0 {
        let conc = !fused(g, st.n);
        let w = Buf::Norm(layers, NormId::Final);
        assert(st.logits_rows * g.hidden <= st.n * g.hidden) by (nonlinear_arith)
            requires
                st.logits_rows <= st.n,
                0 <= g.hidden,
        ;
        let t1 = rmsnorm_both(s, g, Buf::X, w, Buf::Xn, Buf::Xh, st.n);
        lemma_rmsnorm_both(c, m0, s, g, Buf::X, w, Buf::Xn, Buf::Xh, st.n, 0);
        let s1 = with_barrier(t1, conc, seq![Buf::Xn, Buf::Xh]);
        lemma_barrier(c, m0, t1, conc, seq![Buf::Xn, Buf::Xh]);
        lemma_linear(
            c,
            m0,
            s1,
            Kernel::Matvec,
            Kernel::Matmul,
            lin_of(g, layers, Proj::Head, head_bias),
            Buf::Xn,
            ((st.n - st.logits_rows) * g.hidden * 4) as u64,
            Buf::Logits,
            0,
            st.logits_rows,
            true,
            true,
            conc,
            0,
        );
    }
}

/// A step takes its rows, be it one or a chunk, through the blocks of the
/// transformer. The logits are those of its last rows, and every layer's cache
/// holds the keys and values of the rows behind those that were there.
pub proof fn lemma_step_is_the_transformer(c: Ctx, m: Mem, g: Geo, blocks: Seq<DenseBlock>, head_bias: bool, st: Step)
    requires
        model_ok(c, g, blocks, head_bias, st),
    ensures
        ({
            let k = run(c, m, dense_step(g, blocks, head_bias, st));
            let (xs, last) = (first_rows(m, g, st), blocks.len() as usize);
            &&& forall|j: int|
                0 <= j < st.logits_rows ==> #[trigger] nth(k, Buf::Logits, 0, g.vocab as int, j) == project(
                    c,
                    last,
                    Proj::Head,
                    normed(
                        Buf::Norm(last, NormId::Final),
                        step_rows(c, m, g, blocks, st, xs, last as int)[st.n - st.logits_rows + j],
                    ),
                    g.vocab as int,
                )
            &&& forall|l: usize|
                st.layer0 <= l < last ==> #[trigger] cached(
                    c,
                    m,
                    k,
                    g.kv_base as int / 2,
                    dense_shape(g, blocks[l as int]),
                    l,
                    st.pos0 as int,
                    step_rows(c, m, g, blocks, st, xs, l as int),
                )
        }),
{
    let e = Seq::<CmdView>::empty();
    let (hid, n, last) = (g.hidden as int, st.n as int, blocks.len() as usize);
    let s = if st.from_ids {
        with_barrier(embed(e, g, st.n), !fused(g, st.n), seq![Buf::X])
    } else {
        e
    };
    let m1 = run(c, m, s);
    let xs = first_rows(m, g, st);
    if st.from_ids {
        lemma_barrier(c, m, embed(e, g, st.n), !fused(g, st.n), seq![Buf::X]);
        lemma_embed(c, m, e, g, st.n, 0);
        assert forall|r: int| 0 <= r < n implies #[trigger] rows_of(m1, Buf::X, hid, n)[r] == xs[r] by {
            lemma_embed(c, m, e, g, st.n, r);
        }
    }
    assert(rows_of(m1, Buf::X, hid, n) =~= xs);
    lemma_layers(c, m, s, g, blocks, head_bias, st, last as int);
    let t = layers_upto(s, g, blocks, st, last as int);
    let m2 = run(c, m, t);
    let k = run(c, m, dense_step(g, blocks, head_bias, st));
    assert(k == run(c, m, head(t, g, last, st, head_bias)));
    lemma_hidden_same(c, m, m1, dense_shapes(g, blocks), g.kv_base as int / 2, st.pos0 as int, st.layer0 as int, xs, last as int);
    assert forall|j: int| 0 <= j < st.logits_rows implies #[trigger] nth(k, Buf::Logits, 0, g.vocab as int, j) == project(
        c,
        last,
        Proj::Head,
        normed(
            Buf::Norm(last, NormId::Final),
            step_rows(c, m, g, blocks, st, xs, last as int)[st.n - st.logits_rows + j],
        ),
        g.vocab as int,
    ) by {
        lemma_head_reads_the_last_rows(c, m, t, g, last, st, head_bias, j);
        assert(rows_of(m2, Buf::X, hid, n)[st.n - st.logits_rows + j] == nth(
            m2,
            Buf::X,
            0,
            hid,
            st.n - st.logits_rows + j,
        ));
    }
    lemma_head_keeps_caches(c, m, t, g, last, st, head_bias);
    assert forall|l: usize| st.layer0 <= l < last implies #[trigger] cached(
        c,
        m,
        k,
        g.kv_base as int / 2,
        dense_shape(g, blocks[l as int]),
        l,
        st.pos0 as int,
        step_rows(c, m, g, blocks, st, xs, l as int),
    ) by {
        let h = dense_shape(g, blocks[l as int]);
        lemma_hidden_same(c, m, m1, dense_shapes(g, blocks), g.kv_base as int / 2, st.pos0 as int, st.layer0 as int, xs, l as int);
        let ys = step_rows(c, m, g, blocks, st, xs, l as int);
        assert(ys == step_rows(c, m1, g, blocks, st, xs, l as int));
        assert(cached(
            c,
            m1,
            m2,
            g.kv_base as int / 2,
            dense_shape(g, blocks[l as int]),
            l,
            st.pos0 as int,
            step_rows(c, m1, g, blocks, st, xs, l as int),
        ));
        lemma_cached_stays(c, m1, m2, k, g.kv_base as int / 2, h, l, (l + 1) as usize, st.pos0 as int, ys);
        lemma_cached_from(c, m, m1, k, g.kv_base as int / 2, h, l, st.pos0 as int, ys);
    }
}

/// The rows depend on the caches alone.
pub(crate) proof fn lemma_hidden_same(
    c: Ctx,
    m: Mem,
    k: Mem,
    hs: Seq<Shape>,
    base: int,
    pos0: int,
    layer0: int,
    xs: Seq<Seq<Term>>,
    n: int,
)
    requires
        caches_kept(m, k),
    ensures
        hidden_rows(c, k, hs, base, pos0, layer0, xs, n) == hidden_rows(c, m, hs, base, pos0, layer0, xs, n),
    decreases n - layer0,
{
    if n > layer0 {
        lemma_hidden_same(c, m, k, hs, base, pos0, layer0, xs, n - 1);
        lemma_rows_out_same(
            c,
            m,
            k,
            hs[n - 1],
            (n - 1) as usize,
            base,
            pos0,
            hidden_rows(c, m, hs, base, pos0, layer0, xs, n - 1),
        );
    }
}

pub(crate) proof fn lemma_cached_from(c: Ctx, m: Mem, m1: Mem, k: Mem, base: int, h: Shape, l: usize, pos0: int, xs: Seq<Seq<Term>>)
    requires
        caches_kept(m, m1),
        cached(c, m1, k, base, h, l, pos0, xs),
    ensures
        cached(c, m, k, base, h, l, pos0, xs),
{
    reveal(nth);
}

} // verus!
