//! What a linear block computes: each row is convolved with those before it, and
//! the delta rule carries a state from row to row. A chunk computes what its rows
//! would compute one after the other.
use vstd::prelude::*;

use crate::gpu::launches::{head_of, lemma_barrier, lemma_div_up, lemma_head_place, lemma_head_row, lemma_put_row, nth};
use crate::gpu::linear_block::{
    DeltaGeo, conv_chunk, conv_one, conv_roll, delta_block, delta_gates, delta_rule, delta_tokens, l2norm,
    output_norm, row_at,
};
use crate::gpu::meaning::{
    Ctx, Delta, Mem, Term, delta_of, lands, lemma_inside, lemma_place, lemma_run_push, put, rolled, row, run, scatter,
    step,
};
use crate::gpu::ops::{Buf, CmdView, SmallId, with_barrier};

verus! {

// ---------- a linear block ----------

/// The state of the convolution after the first `t` rows.
pub open spec fn conv_state(s: Term, us: Seq<Seq<Term>>, t: nat) -> Term
    decreases t,
{
    if t == 0 {
        s
    } else {
        Term::Rolled(Box::new(conv_state(s, us, (t - 1) as nat)), us[t - 1])
    }
}

/// A row convolved with those before it.
pub open spec fn convolved(l: usize, d: DeltaGeo, s: Term, u: Seq<Term>) -> Seq<Term> {
    Seq::new(
        d.channels as nat,
        |i: int| Term::Convolved(Buf::Small(l, SmallId::Conv1d), d.d_conv as int, Box::new(s), u, i),
    )
}

/// The head that starts at `a`, brought to length one.
pub open spec fn unit_head(y: Seq<Term>, a: int, dim: int) -> Seq<Term> {
    let x = Seq::new(dim as nat, |j: int| y[a + j]);
    Seq::new(dim as nat, |i: int| Term::Unit(x, i))
}

/// What head `h` of the delta rule reads: of the convolved row its query, its key
/// and its value, in this order; its decay, its strength, and its state.
pub open spec fn delta_in(l: usize, d: DeltaGeo, y: Seq<Term>, al: Seq<Term>, be: Seq<Term>, st: Seq<Term>, h: int) -> Delta {
    let (dim, keys) = (d.d_state as int, d.keys as int);
    let k = h / (d.n_v_heads / d.n_k_heads) as int;
    Delta {
        state: Box::new(st[h]),
        query: unit_head(y, k * dim, dim),
        key: unit_head(y, keys + k * dim, dim),
        value: Seq::new(dim as nat, |j: int| y[2 * keys + h * dim + j]),
        decay: Box::new(
            Term::Decay(Buf::Small(l, SmallId::A), Buf::Small(l, SmallId::DtBias), Box::new(al[h]), h),
        ),
        strength: Box::new(Term::Strength(Box::new(be[h]))),
    }
}

/// What the heads give back.
pub open spec fn recalled(l: usize, d: DeltaGeo, y: Seq<Term>, al: Seq<Term>, be: Seq<Term>, st: Seq<Term>) -> Seq<Term> {
    let dim = d.d_state as int;
    Seq::new(d.inner as nat, |i: int| Term::Recalled(delta_in(l, d, y, al, be, st, i / dim), i % dim))
}

/// The states they leave.
pub open spec fn updated(l: usize, d: DeltaGeo, y: Seq<Term>, al: Seq<Term>, be: Seq<Term>, st: Seq<Term>) -> Seq<Term> {
    Seq::new(d.n_v_heads as nat, |h: int| Term::Updated(delta_in(l, d, y, al, be, st, h)))
}

/// The heads normalised, and gated by another row.
pub open spec fn out_normed(l: usize, d: DeltaGeo, o: Seq<Term>, z: Seq<Term>) -> Seq<Term> {
    let dim = d.d_state as int;
    Seq::new(
        d.inner as nat,
        |i: int|
            Term::OutNormed(
                Buf::Small(l, SmallId::SsmNorm),
                head_of(o, dim, i / dim),
                head_of(z, dim, i / dim),
                i % dim,
            ),
    )
}

/// What a chunk starts from: the two states, and of each row its convolution input,
/// what gates its output, its decays and its strengths.
pub struct DeltaRows {
    pub conv: Term,
    pub states: Seq<Term>,
    pub us: Seq<Seq<Term>>,
    pub zs: Seq<Seq<Term>>,
    pub als: Seq<Seq<Term>>,
    pub bes: Seq<Seq<Term>>,
}

/// Row `t`, convolved.
pub open spec fn conv_row(l: usize, d: DeltaGeo, x: DeltaRows, t: int) -> Seq<Term> {
    convolved(l, d, conv_state(x.conv, x.us, t as nat), x.us[t])
}

/// The states of the delta rule after the first `t` rows.
pub open spec fn states_after(l: usize, d: DeltaGeo, x: DeltaRows, t: nat) -> Seq<Term>
    decreases t,
{
    if t == 0 {
        x.states
    } else {
        updated(
            l,
            d,
            conv_row(l, d, x, t - 1),
            x.als[t - 1],
            x.bes[t - 1],
            states_after(l, d, x, (t - 1) as nat),
        )
    }
}

/// What the delta rule gives back for row `t`.
pub open spec fn recalled_row(l: usize, d: DeltaGeo, x: DeltaRows, t: int) -> Seq<Term> {
    recalled(l, d, conv_row(l, d, x, t), x.als[t], x.bes[t], states_after(l, d, x, t as nat))
}

/// The output of row `t`.
pub open spec fn delta_row(l: usize, d: DeltaGeo, x: DeltaRows, t: int) -> Seq<Term> {
    out_normed(l, d, recalled_row(l, d, x, t), x.zs[t])
}

/// The rows of `n` tokens as the buffers hold them.
pub open spec fn rows_held(m: Mem, l: usize, d: DeltaGeo, n: int) -> DeltaRows {
    let (w, h, z) = (d.channels as int, d.n_v_heads as int, d.inner as int);
    DeltaRows {
        conv: m(Buf::ConvState(l), 0),
        states: row(m, Buf::DeltaState(l), 0, h),
        us: Seq::new(n as nat, |t: int| nth(m, Buf::DnQkv, 0, w, t)),
        zs: Seq::new(n as nat, |t: int| nth(m, Buf::DnZ, 0, z, t)),
        als: Seq::new(n as nat, |t: int| nth(m, Buf::DnAlpha, 0, h, t)),
        bes: Seq::new(n as nat, |t: int| nth(m, Buf::DnBetaP, 0, h, t)),
    }
}

/// The buffers that a linear block writes.
pub open spec fn is_delta_scratch(b: Buf, l: usize) -> bool {
    b == Buf::DnG || b == Buf::DnBeta || b == Buf::DnConvOut || b == Buf::DnOut || b == Buf::ConvState(l) || b
        == Buf::DeltaState(l)
}

/// Numbers outside these buffers stay.
pub open spec fn stays(m: Mem, e: Mem, a: Buf, b: Buf) -> bool {
    forall|x: Buf, i: int| x != a && x != b ==> #[trigger] e(x, i) == m(x, i)
}

// ---------- the launches, number by number ----------

proof fn lemma_gates(c: Ctx, m0: Mem, s: Seq<CmdView>, d: DeltaGeo, l: usize, n: u32)
    ensures
        ({
            let (m, e, h) = (run(c, m0, s), run(c, m0, delta_gates(s, d, l, n)), d.n_v_heads as int);
            &&& stays(m, e, Buf::DnG, Buf::DnBeta)
            &&& forall|i: int|
                0 <= i < n * h ==> #[trigger] e(Buf::DnG, i) == Term::Decay(
                    Buf::Small(l, SmallId::A),
                    Buf::Small(l, SmallId::DtBias),
                    Box::new(m(Buf::DnAlpha, i)),
                    i % h,
                )
            &&& forall|i: int|
                0 <= i < n * h ==> #[trigger] e(Buf::DnBeta, i) == Term::Strength(Box::new(m(Buf::DnBetaP, i)))
        }),
{
    let (m, e, h) = (run(c, m0, s), run(c, m0, delta_gates(s, d, l, n)), d.n_v_heads as int);
    let f = |i: int|
        Term::Decay(
            Buf::Small(l, SmallId::A),
            Buf::Small(l, SmallId::DtBias),
            Box::new(m(Buf::DnAlpha, 0 + i)),
            i % h,
        );
    let k = |i: int| Term::Strength(Box::new(m(Buf::DnBetaP, 0 + i)));
    assert(e == put(put(m, Buf::DnG, 0, n * h, f), Buf::DnBeta, 0, n * h, k)) by {
        reveal(step);
        lemma_run_push(c, m0, s, delta_gates(s, d, l, n).last());
        lemma_div_up(n * h, 256);
    }
}

proof fn lemma_conv_one(c: Ctx, m0: Mem, s: Seq<CmdView>, d: DeltaGeo, l: usize)
    ensures
        ({
            let (m, e, w) = (run(c, m0, s), run(c, m0, conv_one(s, d, l)), d.channels as int);
            let (st, u) = (m(Buf::ConvState(l), 0), row(m, Buf::DnQkv, 0, w));
            &&& stays(m, e, Buf::DnConvOut, Buf::ConvState(l))
            &&& e(Buf::ConvState(l), 0) == Term::Rolled(Box::new(st), u)
            &&& forall|i: int| 0 <= i < w ==> #[trigger] e(Buf::DnConvOut, i) == convolved(l, d, st, u)[i]
        }),
{
    let (m, e, w) = (run(c, m0, s), run(c, m0, conv_one(s, d, l)), d.channels as int);
    let (st, u) = (m(Buf::ConvState(l), 0), row(m, Buf::DnQkv, 0, w));
    let f = |i: int| Term::Convolved(Buf::Small(l, SmallId::Conv1d), d.d_conv as int, Box::new(st), u, i);
    let k = |i: int| Term::Rolled(Box::new(st), u);
    assert(e == put(put(m, Buf::DnConvOut, 0, w, f), Buf::ConvState(l), 0, 1, k)) by {
        reveal(step);
        lemma_run_push(c, m0, s, conv_one(s, d, l).last());
        lemma_div_up(w, 256);
    }
}

/// The roll of a state past rows is the state after them.
proof fn lemma_rolled(m: Mem, st: Term, w: int, n: int, us: Seq<Seq<Term>>, t: nat)
    requires
        t <= n,
        us == Seq::new(n as nat, |i: int| nth(m, Buf::DnQkv, 0, w, i)),
    ensures
        rolled(m, st, Buf::DnQkv, 0, w, t) == conv_state(st, us, t),
    decreases t,
{
    if t > 0 {
        lemma_rolled(m, st, w, n, us, (t - 1) as nat);
        reveal(nth);
    }
}

proof fn lemma_conv_chunk(c: Ctx, m0: Mem, s: Seq<CmdView>, d: DeltaGeo, l: usize, n: u32)
    ensures
        ({
            let (m, e, w) = (run(c, m0, s), run(c, m0, conv_chunk(s, d, l, n)), d.channels as int);
            let x = rows_held(m, l, d, n as int);
            &&& stays(m, e, Buf::DnConvOut, Buf::DnConvOut)
            &&& forall|t: int, i: int|
                0 <= t < n && 0 <= i < w ==> #[trigger] cell(e, Buf::DnConvOut, w, t, i) == conv_row(l, d, x, t)[i]
        }),
{
    let (m, e, w) = (run(c, m0, s), run(c, m0, conv_chunk(s, d, l, n)), d.channels as int);
    let x = rows_held(m, l, d, n as int);
    let st = m(Buf::ConvState(l), 0);
    let f = |i: int|
        Term::Convolved(
            Buf::Small(l, SmallId::Conv1d),
            d.d_conv as int,
            Box::new(rolled(m, st, Buf::DnQkv, 0, w, (i / w) as nat)),
            row(m, Buf::DnQkv, 0 + i / w * w, w),
            i % w,
        );
    assert(e == put(m, Buf::DnConvOut, 0, n * w, f)) by {
        reveal(step);
        lemma_run_push(c, m0, s, conv_chunk(s, d, l, n).last());
        lemma_div_up(n * w, 256);
    }
    assert forall|t: int, i: int| 0 <= t < n && 0 <= i < w implies #[trigger] cell(e, Buf::DnConvOut, w, t, i) == conv_row(
        l,
        d,
        x,
        t,
    )[i] by {
        lemma_inside(t, n as int, w);
        lemma_place(t, w, i);
        lemma_rolled(m, st, w, n as int, x.us, t as nat);
        reveal(nth);
        assert(e(Buf::DnConvOut, t * w + i) == f(t * w + i));
    }
}

proof fn lemma_conv_roll(c: Ctx, m0: Mem, s: Seq<CmdView>, d: DeltaGeo, l: usize, n: u32)
    ensures
        ({
            let (m, e) = (run(c, m0, s), run(c, m0, conv_roll(s, d, l, n)));
            let x = rows_held(m, l, d, n as int);
            &&& stays(m, e, Buf::ConvState(l), Buf::ConvState(l))
            &&& e(Buf::ConvState(l), 0) == conv_state(x.conv, x.us, n as nat)
        }),
{
    let (m, e, w) = (run(c, m0, s), run(c, m0, conv_roll(s, d, l, n)), d.channels as int);
    let x = rows_held(m, l, d, n as int);
    let st = m(Buf::ConvState(l), 0);
    let f = |i: int| rolled(m, st, Buf::DnQkv, 0, w, n as nat);
    assert(e == put(m, Buf::ConvState(l), 0, 1, f)) by {
        reveal(step);
        lemma_run_push(c, m0, s, conv_roll(s, d, l, n).last());
        lemma_div_up(w, 256);
    }
    lemma_rolled(m, st, w, n as int, x.us, n as nat);
}

/// The heads of `n` rows from number `a` on, brought to length one.
proof fn lemma_l2norm(c: Ctx, m0: Mem, s: Seq<CmdView>, d: DeltaGeo, off: u64, a: int, stride: u32, n: u32)
    requires
        d.ok(),
        0 < d.d_state,
        off as int == 4 * a,
        n == 1 || stride == d.channels,
    ensures
        ({
            let (m, e) = (run(c, m0, s), run(c, m0, l2norm(s, d, off, stride, n)));
            let (w, dim, keys) = (d.channels as int, d.d_state as int, d.keys as int);
            &&& stays(m, e, Buf::DnConvOut, Buf::DnConvOut)
            &&& forall|t: int, i: int|
                0 <= t < n && a <= i < a + keys ==> #[trigger] cell(e, Buf::DnConvOut, w, t, i) == Term::Unit(
                    row(m, Buf::DnConvOut, t * w + (a + (i - a) / dim * dim), dim),
                    (i - a) % dim,
                )
            &&& forall|t: int, j: int|
                0 <= t < n && 0 <= a && a + keys <= w && 0 <= j < w && !(a <= j < a + keys) ==> #[trigger] cell(
                    e,
                    Buf::DnConvOut,
                    w,
                    t,
                    j,
                ) == cell(m, Buf::DnConvOut, w, t, j)
        }),
{
    let (m, e) = (run(c, m0, s), run(c, m0, l2norm(s, d, off, stride, n)));
    let (w, dim, keys, z) = (d.channels as int, d.d_state as int, d.keys as int, stride as int);
    let place = |r: int| a + r * z;
    let f = |r: int, i: int| Term::Unit(row(m, Buf::DnConvOut, a + r * z + i / dim * dim, dim), i % dim);
    assert(e == scatter(m, Buf::DnConvOut, n as int, keys, place, f)) by {
        reveal(step);
        lemma_run_push(c, m0, s, l2norm(s, d, off, stride, n).last());
        assert(off as int / 4 == a);
        assert(d.n_k_heads * d.d_state == keys);
    }
    assert forall|t: int, i: int| 0 <= t < n && a <= i < a + keys implies #[trigger] cell(e, Buf::DnConvOut, w, t, i)
        == Term::Unit(row(m, Buf::DnConvOut, t * w + (a + (i - a) / dim * dim), dim), (i - a) % dim) by {
        let at = t * w + i;
        lemma_strides(n as int, z, w, t);
        assert(lands(n as int, keys, place, at, t));
        let q = choose|q: int| #[trigger] lands(n as int, keys, place, at, q);
        lemma_one_row(n as int, z, w, keys, a, t, q, i);
        assert(q == t);
        assert(at - place(t) == i - a);
        assert(a + t * z + (i - a) / dim * dim == t * w + (a + (i - a) / dim * dim));
    }
    assert forall|t: int, j: int|
        0 <= t < n && 0 <= a && a + keys <= w && 0 <= j < w && !(a <= j < a + keys) implies #[trigger] cell(
        e,
        Buf::DnConvOut,
        w,
        t,
        j,
    ) == cell(m, Buf::DnConvOut, w, t, j) by {
        let at = t * w + j;
        if exists|q: int| #[trigger] lands(n as int, keys, place, at, q) {
            let q = choose|q: int| #[trigger] lands(n as int, keys, place, at, q);
            lemma_strides(n as int, z, w, t);
            lemma_strides(n as int, z, w, q);
            lemma_apart(w, t, q, j, at - q * w);
            assert(false);
        }
    }
}

/// A single row stands at the start, whatever the stride.
proof fn lemma_strides(n: int, z: int, w: int, t: int)
    requires
        0 <= t < n,
        n == 1 || z == w,
    ensures
        t * z == t * w,
{
    if n == 1 {
        assert(t * z == 0 && t * w == 0) by (nonlinear_arith)
            requires
                t == 0,
        ;
    }
}

/// A place is in one row only.
proof fn lemma_apart(w: int, t: int, q: int, j: int, i: int)
    requires
        0 <= j < w,
        0 <= i < w,
        t * w + j == q * w + i,
    ensures
        t == q,
        i == j,
{
    lemma_place(t, w, j);
    lemma_place(q, w, i);
}

proof fn lemma_one_row(n: int, z: int, w: int, keys: int, a: int, t: int, q: int, j: int)
    requires
        0 <= t < n,
        0 <= q < n,
        n == 1 || z == w,
        keys <= w,
        a <= j < a + keys,
        a + q * z <= t * w + j < a + q * z + keys,
    ensures
        q == t,
{
    lemma_strides(n, z, w, q);
    let (x, y) = (j - a, t * w + j - a - q * w);
    lemma_apart(w, t, q, x, y);
}

// ---------- the delta rule ----------

/// Number `i` of row `t`.
pub open spec fn cell(m: Mem, b: Buf, w: int, t: int, i: int) -> Term {
    m(b, t * w + i)
}

/// Everything that the delta rule reads of the first `n` rows is in place.
pub open spec fn is_ready(m: Mem, l: usize, d: DeltaGeo, x: DeltaRows, n: int) -> bool {
    let (w, dim, keys, h) = (d.channels as int, d.d_state as int, d.keys as int, d.n_v_heads as int);
    &&& forall|t: int, i: int|
        0 <= t < n && 0 <= i < keys ==> #[trigger] cell(m, Buf::DnConvOut, w, t, i) == unit_head(
            conv_row(l, d, x, t),
            i / dim * dim,
            dim,
        )[i % dim]
    &&& forall|t: int, i: int|
        0 <= t < n && keys <= i < 2 * keys ==> #[trigger] cell(m, Buf::DnConvOut, w, t, i) == unit_head(
            conv_row(l, d, x, t),
            keys + (i - keys) / dim * dim,
            dim,
        )[(i - keys) % dim]
    &&& forall|t: int, i: int|
        0 <= t < n && 2 * keys <= i < w ==> #[trigger] cell(m, Buf::DnConvOut, w, t, i) == conv_row(l, d, x, t)[i]
    &&& forall|t: int, i: int|
        0 <= t < n && 0 <= i < h ==> #[trigger] cell(m, Buf::DnG, h, t, i) == Term::Decay(
            Buf::Small(l, SmallId::A),
            Buf::Small(l, SmallId::DtBias),
            Box::new(x.als[t][i]),
            i,
        )
    &&& forall|t: int, i: int|
        0 <= t < n && 0 <= i < h ==> #[trigger] cell(m, Buf::DnBeta, h, t, i) == Term::Strength(Box::new(x.bes[t][i]))
}

/// The sizes of a chunk, as far as they are counted in bytes; and key heads that
/// serve the same number of heads each.
pub open spec fn delta_fits(d: DeltaGeo, n: int) -> bool {
    &&& d.ok()
    &&& 0 < d.d_state
    &&& d.n_v_heads % d.n_k_heads == 0
    &&& 1 <= n
    &&& n * d.channels <= u32::MAX
}

/// The key head of a head.
proof fn lemma_group(d: DeltaGeo, h: int)
    requires
        d.ok(),
        d.n_v_heads % d.n_k_heads == 0,
        0 <= h < d.n_v_heads,
    ensures
        0 < d.n_v_heads / d.n_k_heads,
        0 <= h / (d.n_v_heads / d.n_k_heads) as int,
        h / ((d.n_v_heads / d.n_k_heads) as int) < d.n_k_heads,
{
    let (a, b) = (d.n_v_heads as int, d.n_k_heads as int);
    let g = a / b;
    assert(a == b * g && 0 < g) by (nonlinear_arith)
        requires
            g == a / b,
            a % b == 0,
            0 < b <= a,
    ;
    assert(0 <= h / g && h / g < b) by (nonlinear_arith)
        requires
            0 <= h < b * g,
            0 < g,
    ;
}

/// Where the parts of row `t` start.
proof fn lemma_row_offsets(d: DeltaGeo, n: int, t: int)
    requires
        delta_fits(d, n),
        0 <= t < n,
    ensures
        row_at(t, d.channels) as int == 4 * (t * d.channels),
        row_at(t, d.n_v_heads) as int == 4 * (t * d.n_v_heads),
        row_at(t, d.inner) as int == 4 * (t * d.inner),
        0 <= t * d.channels,
        t * d.channels + d.channels <= u32::MAX,
        0 <= t * d.n_v_heads,
        0 <= t * d.inner,
{
    let (w, h, z) = (d.channels as int, d.n_v_heads as int, d.inner as int);
    lemma_inside(t, n, w);
    assert(h <= z) by (nonlinear_arith)
        requires
            z == h * d.d_state,
            0 < d.d_state,
            0 <= h,
    ;
    assert(0 <= t * h <= t * w && 0 <= t * z <= t * w) by (nonlinear_arith)
        requires
            0 <= t,
            0 <= h <= w,
            0 <= z <= w,
    ;
    assert(t * w * 4 == 4 * (t * w) && t * h * 4 == 4 * (t * h) && t * z * 4 == 4 * (t * z));
}

/// What head `h` of row `t` reads.
proof fn lemma_delta_reads(m: Mem, l: usize, d: DeltaGeo, x: DeltaRows, n: int, t: int, h: int)
    requires
        delta_fits(d, n),
        is_ready(m, l, d, x, n),
        0 <= t < n,
        0 <= h < d.n_v_heads,
    ensures
        ({
            let (w, dim, keys) = (d.channels as int, d.d_state as int, d.keys as int);
            let k = h / (d.n_v_heads / d.n_k_heads) as int;
            let y = conv_row(l, d, x, t);
            &&& row(m, Buf::DnConvOut, t * w + k * dim, dim) == unit_head(y, k * dim, dim)
            &&& row(m, Buf::DnConvOut, t * w + keys + k * dim, dim) == unit_head(y, keys + k * dim, dim)
            &&& row(m, Buf::DnConvOut, t * w + 2 * keys + h * dim, dim) == Seq::new(
                dim as nat,
                |j: int| y[2 * keys + h * dim + j],
            )
        }),
{
    let (w, dim, keys) = (d.channels as int, d.d_state as int, d.keys as int);
    let k = h / (d.n_v_heads / d.n_k_heads) as int;
    let y = conv_row(l, d, x, t);
    lemma_group(d, h);
    lemma_inside(k, d.n_k_heads as int, dim);
    lemma_inside(h, d.n_v_heads as int, dim);
    let (a, b) = (unit_head(y, k * dim, dim), unit_head(y, keys + k * dim, dim));
    assert forall|j: int| 0 <= j < dim implies m(Buf::DnConvOut, t * w + k * dim + j) == #[trigger] a[j] by {
        lemma_place(k, dim, j);
        assert(cell(m, Buf::DnConvOut, w, t, k * dim + j) == unit_head(y, (k * dim + j) / dim * dim, dim)[(k * dim + j)
            % dim]);
    }
    assert forall|j: int| 0 <= j < dim implies m(Buf::DnConvOut, t * w + keys + k * dim + j) == #[trigger] b[j] by {
        lemma_place(k, dim, j);
        let i = keys + (k * dim + j);
        assert(i - keys == k * dim + j);
        assert(cell(m, Buf::DnConvOut, w, t, i) == unit_head(y, keys + (i - keys) / dim * dim, dim)[(i - keys) % dim]);
    }
    let v = Seq::new(dim as nat, |j: int| y[2 * keys + h * dim + j]);
    assert forall|j: int| 0 <= j < dim implies m(Buf::DnConvOut, t * w + 2 * keys + h * dim + j) == #[trigger] v[j] by {
        assert(cell(m, Buf::DnConvOut, w, t, 2 * keys + h * dim + j) == y[2 * keys + h * dim + j]);
    }
    assert(row(m, Buf::DnConvOut, t * w + k * dim, dim) =~= a);
    assert(row(m, Buf::DnConvOut, t * w + keys + k * dim, dim) =~= b);
    assert(row(m, Buf::DnConvOut, t * w + 2 * keys + h * dim, dim) =~= v);
}

proof fn lemma_delta_rule(c: Ctx, m0: Mem, s: Seq<CmdView>, d: DeltaGeo, l: usize, x: DeltaRows, n: int, t: int)
    requires
        delta_fits(d, n),
        is_ready(run(c, m0, s), l, d, x, n),
        0 <= t < n,
    ensures
        ({
            let (m, e) = (run(c, m0, s), run(c, m0, delta_rule(s, d, l, t)));
            let (y, st) = (conv_row(l, d, x, t), row(m, Buf::DeltaState(l), 0, d.n_v_heads as int));
            &&& stays(m, e, Buf::DnOut, Buf::DeltaState(l))
            &&& nth(e, Buf::DnOut, 0, d.inner as int, t) == recalled(l, d, y, x.als[t], x.bes[t], st)
            &&& row(e, Buf::DeltaState(l), 0, d.n_v_heads as int) == updated(l, d, y, x.als[t], x.bes[t], st)
            &&& forall|q: int|
                0 <= q < n && q != t ==> #[trigger] nth(e, Buf::DnOut, 0, d.inner as int, q) == nth(
                    m,
                    Buf::DnOut,
                    0,
                    d.inner as int,
                    q,
                )
        }),
{
    let (m, e) = (run(c, m0, s), run(c, m0, delta_rule(s, d, l, t)));
    let (w, dim, keys, hs, z) = (
        d.channels as int,
        d.d_state as int,
        d.keys as int,
        d.n_v_heads as int,
        d.inner as int,
    );
    let g = (d.n_v_heads / d.n_k_heads) as int;
    let (y, st) = (conv_row(l, d, x, t), row(m, Buf::DeltaState(l), 0, hs));
    lemma_row_offsets(d, n, t);
    let at = t * z;
    let head = |h: int|
        Delta {
            state: Box::new(m(Buf::DeltaState(l), 0 + h)),
            query: row(m, Buf::DnConvOut, t * w + h / g * dim, dim),
            key: row(m, Buf::DnConvOut, t * w + keys + h / g * dim, dim),
            value: row(m, Buf::DnConvOut, t * w + 2 * keys + h * dim, dim),
            decay: Box::new(m(Buf::DnG, t * hs + h)),
            strength: Box::new(m(Buf::DnBeta, t * hs + h)),
        };
    let f = |i: int| Term::Recalled(head(i / dim), i % dim);
    let u = |h: int| Term::Updated(head(h));
    let m1 = put(m, Buf::DnOut, at, hs * dim, f);
    assert(e == put(m1, Buf::DeltaState(l), 0, hs, u)) by {
        reveal(step);
        lemma_run_push(c, m0, s, delta_rule(s, d, l, t).last());
        lemma_div_up(z, 256);
        assert(z == hs * dim);
        let cc = row_at(t, d.channels);
        assert(cc as int / 4 == t * w);
        assert((cc + d.keys * 4) as u64 as int / 4 == t * w + keys);
        assert((cc + 2 * d.keys * 4) as u64 as int / 4 == t * w + 2 * keys);
        let v = delta_rule(s, d, l, t).last()->Run_0;
        assert forall|h: int| #[trigger] delta_of(m, v, dim, g, h) == head(h) by {}
        assert(e == put(
            put(m, Buf::DnOut, at, hs * dim, |i: int| Term::Recalled(delta_of(m, v, dim, g, i / dim), i % dim)),
            Buf::DeltaState(l),
            0,
            hs,
            |h: int| Term::Updated(delta_of(m, v, dim, g, h)),
        ));
        assert((|i: int| Term::Recalled(delta_of(m, v, dim, g, i / dim), i % dim)) =~= f);
        assert((|h: int| Term::Updated(delta_of(m, v, dim, g, h))) =~= u);
    }
    assert forall|h: int| 0 <= h < hs implies #[trigger] head(h) == delta_in(l, d, y, x.als[t], x.bes[t], st, h) by {
        lemma_delta_reads(m, l, d, x, n, t, h);
        assert(cell(m, Buf::DnG, hs, t, h) == Term::Decay(
            Buf::Small(l, SmallId::A),
            Buf::Small(l, SmallId::DtBias),
            Box::new(x.als[t][h]),
            h,
        ));
        assert(cell(m, Buf::DnBeta, hs, t, h) == Term::Strength(Box::new(x.bes[t][h])));
    }
    reveal(nth);
    let a = recalled(l, d, y, x.als[t], x.bes[t], st);
    assert forall|i: int| 0 <= i < z implies e(Buf::DnOut, at + i) == #[trigger] a[i] by {
        lemma_head_place(0, hs, dim, i);
        assert(head(i / dim) == delta_in(l, d, y, x.als[t], x.bes[t], st, i / dim));
    }
    assert(row(e, Buf::DnOut, 0 + t * z, z) =~= a);
    let b = updated(l, d, y, x.als[t], x.bes[t], st);
    assert forall|h: int| 0 <= h < hs implies e(Buf::DeltaState(l), h) == #[trigger] b[h] by {
        assert(head(h) == delta_in(l, d, y, x.als[t], x.bes[t], st, h));
    }
    assert(row(e, Buf::DeltaState(l), 0, hs) =~= b);
    assert forall|q: int| 0 <= q < n && q != t implies #[trigger] nth(e, Buf::DnOut, 0, z, q) == nth(
        m,
        Buf::DnOut,
        0,
        z,
        q,
    ) by {
        if q < t {
            lemma_inside(q, t, z);
        } else {
            lemma_inside(t, q, z);
        }
        assert(row(e, Buf::DnOut, 0 + q * z, z) =~= row(m, Buf::DnOut, 0 + q * z, z));
    }
}

/// What the delta rule reads does not depend on what it writes.
proof fn lemma_stays_ready(m: Mem, e: Mem, l: usize, d: DeltaGeo, x: DeltaRows, n: int)
    requires
        is_ready(m, l, d, x, n),
        stays(m, e, Buf::DnOut, Buf::DeltaState(l)),
    ensures
        is_ready(e, l, d, x, n),
{
    assert forall|w: int, t: int, i: int| #[trigger]
        cell(e, Buf::DnConvOut, w, t, i) == cell(m, Buf::DnConvOut, w, t, i) by {}
    assert forall|w: int, t: int, i: int| #[trigger] cell(e, Buf::DnG, w, t, i) == cell(m, Buf::DnG, w, t, i) by {}
    assert forall|w: int, t: int, i: int| #[trigger] cell(e, Buf::DnBeta, w, t, i) == cell(m, Buf::DnBeta, w, t, i) by {}
}

/// The delta rule of the first `k` rows, one after the other.
proof fn lemma_delta_tokens(c: Ctx, m0: Mem, s: Seq<CmdView>, d: DeltaGeo, l: usize, conc: bool, x: DeltaRows, n: int, k: nat)
    requires
        delta_fits(d, n),
        is_ready(run(c, m0, s), l, d, x, n),
        row(run(c, m0, s), Buf::DeltaState(l), 0, d.n_v_heads as int) == x.states,
        k <= n,
    ensures
        ({
            let (m, e) = (run(c, m0, s), run(c, m0, delta_tokens(s, d, l, conc, k)));
            &&& stays(m, e, Buf::DnOut, Buf::DeltaState(l))
            &&& row(e, Buf::DeltaState(l), 0, d.n_v_heads as int) == states_after(l, d, x, k)
            &&& forall|t: int|
                0 <= t < k ==> #[trigger] nth(e, Buf::DnOut, 0, d.inner as int, t) == recalled_row(l, d, x, t)
        }),
    decreases k,
{
    if k > 0 {
        let t = (k - 1) as nat;
        lemma_delta_tokens(c, m0, s, d, l, conc, x, n, t);
        let before = delta_tokens(s, d, l, conc, t);
        let (m, p) = (run(c, m0, s), run(c, m0, before));
        lemma_stays_ready(m, p, l, d, x, n);
        lemma_delta_rule(c, m0, before, d, l, x, n, t as int);
        let now = delta_rule(before, d, l, k - 1);
        lemma_barrier(c, m0, now, conc, seq![Buf::DnOut, Buf::DeltaState(l)]);
        let e = run(c, m0, now);
        assert forall|q: int| 0 <= q < k implies #[trigger] nth(e, Buf::DnOut, 0, d.inner as int, q) == recalled_row(
            l,
            d,
            x,
            q,
        ) by {
            if q < k - 1 {
                assert(nth(p, Buf::DnOut, 0, d.inner as int, q) == recalled_row(l, d, x, q));
            }
        }
    }
}

proof fn lemma_output_norm(c: Ctx, m0: Mem, s: Seq<CmdView>, d: DeltaGeo, l: usize, n: u32, t: int)
    requires
        d.ok(),
        0 < d.d_state,
        0 <= t < n,
    ensures
        ({
            let (m, e, z) = (run(c, m0, s), run(c, m0, output_norm(s, d, l, n)), d.inner as int);
            &&& stays(m, e, Buf::DnOut, Buf::DnOut)
            &&& nth(e, Buf::DnOut, 0, z, t) == out_normed(l, d, nth(m, Buf::DnOut, 0, z, t), nth(m, Buf::DnZ, 0, z, t))
        }),
{
    let (m, e, z) = (run(c, m0, s), run(c, m0, output_norm(s, d, l, n)), d.inner as int);
    let (h, dim) = (d.n_v_heads as int, d.d_state as int);
    let f = |i: int|
        Term::OutNormed(
            Buf::Small(l, SmallId::SsmNorm),
            row(m, Buf::DnOut, 0 + i / dim * dim, dim),
            row(m, Buf::DnZ, 0 + i / dim * dim, dim),
            i % dim,
        );
    assert(z == h * dim);
    assert(n * h * dim == n * z) by (nonlinear_arith)
        requires
            z == h * dim,
    ;
    assert(e == put(m, Buf::DnOut, 0, n * z, f)) by {
        reveal(step);
        lemma_run_push(c, m0, s, output_norm(s, d, l, n).last());
    }
    lemma_put_row(m, Buf::DnOut, 0, n as int, z, f, t);
    let (o, g) = (nth(m, Buf::DnOut, 0, z, t), nth(m, Buf::DnZ, 0, z, t));
    let a = out_normed(l, d, o, g);
    assert forall|i: int| 0 <= i < z implies f(t * z + i) == #[trigger] a[i] by {
        lemma_head_place(t, h, dim, i);
        lemma_head_row(m, Buf::DnOut, 0, dim, h, t, i / dim);
        lemma_head_row(m, Buf::DnZ, 0, dim, h, t, i / dim);
    }
    assert(Seq::new(z as nat, |i: int| f(t * z + i)) =~= a);
}

// ---------- getting there ----------

/// The convolved rows are in place.
spec fn conv_done(m: Mem, l: usize, d: DeltaGeo, x: DeltaRows, n: int) -> bool {
    forall|t: int, i: int|
        0 <= t < n && 0 <= i < d.channels ==> #[trigger] cell(m, Buf::DnConvOut, d.channels as int, t, i) == conv_row(
            l,
            d,
            x,
            t,
        )[i]
}

/// Decays and strengths are in place.
spec fn gates_done(m: Mem, l: usize, d: DeltaGeo, x: DeltaRows, n: int) -> bool {
    let h = d.n_v_heads as int;
    &&& forall|t: int, i: int|
        0 <= t < n && 0 <= i < h ==> #[trigger] cell(m, Buf::DnG, h, t, i) == Term::Decay(
            Buf::Small(l, SmallId::A),
            Buf::Small(l, SmallId::DtBias),
            Box::new(x.als[t][i]),
            i,
        )
    &&& forall|t: int, i: int|
        0 <= t < n && 0 <= i < h ==> #[trigger] cell(m, Buf::DnBeta, h, t, i) == Term::Strength(Box::new(x.bes[t][i]))
}

proof fn lemma_gates_done(c: Ctx, m0: Mem, s: Seq<CmdView>, d: DeltaGeo, l: usize, n: u32)
    ensures
        ({
            let (m, e) = (run(c, m0, s), run(c, m0, delta_gates(s, d, l, n)));
            gates_done(e, l, d, rows_held(m, l, d, n as int), n as int)
        }),
{
    let (m, e, h) = (run(c, m0, s), run(c, m0, delta_gates(s, d, l, n)), d.n_v_heads as int);
    let x = rows_held(m, l, d, n as int);
    lemma_gates(c, m0, s, d, l, n);
    assert forall|t: int, i: int| 0 <= t < n && 0 <= i < h implies #[trigger] cell(e, Buf::DnG, h, t, i) == Term::Decay(
        Buf::Small(l, SmallId::A),
        Buf::Small(l, SmallId::DtBias),
        Box::new(x.als[t][i]),
        i,
    ) by {
        reveal(nth);
        lemma_inside(t, n as int, h);
        lemma_place(t, h, i);
        let j = t * h + i;
        assert(e(Buf::DnG, j) == Term::Decay(
            Buf::Small(l, SmallId::A),
            Buf::Small(l, SmallId::DtBias),
            Box::new(m(Buf::DnAlpha, j)),
            j % h,
        ));
    }
    assert forall|t: int, i: int| 0 <= t < n && 0 <= i < h implies #[trigger] cell(e, Buf::DnBeta, h, t, i)
        == Term::Strength(Box::new(x.bes[t][i])) by {
        reveal(nth);
        lemma_inside(t, n as int, h);
        let j = t * h + i;
        assert(e(Buf::DnBeta, j) == Term::Strength(Box::new(m(Buf::DnBetaP, j))));
    }
}

/// The first number of a head stands inside its heads.
proof fn lemma_head_start(i: int, dim: int, keys: int, heads: int)
    requires
        0 < dim,
        keys == heads * dim,
        0 <= i < keys,
    ensures
        0 <= i / dim * dim,
        i / dim * dim + dim <= keys,
        0 <= i % dim < dim,
{
    lemma_head_place_bound(i, dim, heads);
    lemma_inside(i / dim, heads, dim);
}

proof fn lemma_head_place_bound(i: int, dim: int, heads: int)
    requires
        0 < dim,
        0 <= i < heads * dim,
    ensures
        0 <= i / dim < heads,
        0 <= i % dim < dim,
{
    assert(0 <= i / dim < heads && 0 <= i % dim < dim) by (nonlinear_arith)
        requires
            0 < dim,
            0 <= i < heads * dim,
    ;
}

/// Both halves of the key heads, brought to length one.
proof fn lemma_units_done(c: Ctx, m0: Mem, s: Seq<CmdView>, d: DeltaGeo, l: usize, x: DeltaRows, stride: u32, n: u32)
    requires
        delta_fits(d, n as int),
        n == 1 || stride == d.channels,
        conv_done(run(c, m0, s), l, d, x, n as int),
        gates_done(run(c, m0, s), l, d, x, n as int),
    ensures
        ({
            let m = run(c, m0, s);
            let e = run(c, m0, l2norm(l2norm(s, d, 0, stride, n), d, (d.keys * 4) as u64, stride, n));
            &&& stays(m, e, Buf::DnConvOut, Buf::DnConvOut)
            &&& is_ready(e, l, d, x, n as int)
        }),
{
    let (w, dim, keys) = (d.channels as int, d.d_state as int, d.keys as int);
    let s1 = l2norm(s, d, 0, stride, n);
    let off = (d.keys * 4) as u64;
    lemma_l2norm(c, m0, s, d, 0, 0, stride, n);
    lemma_l2norm(c, m0, s1, d, off, keys, stride, n);
    let (m, m1, e) = (run(c, m0, s), run(c, m0, s1), run(c, m0, l2norm(s1, d, off, stride, n)));
    assert forall|t: int, i: int| 0 <= t < n && 0 <= i < keys implies #[trigger] cell(e, Buf::DnConvOut, w, t, i)
        == unit_head(conv_row(l, d, x, t), i / dim * dim, dim)[i % dim] by {
        lemma_head_start(i, dim, keys, d.n_k_heads as int);
        assert(cell(e, Buf::DnConvOut, w, t, i) == cell(m1, Buf::DnConvOut, w, t, i));
        assert(cell(m1, Buf::DnConvOut, w, t, i) == Term::Unit(
            row(m, Buf::DnConvOut, t * w + (0 + (i - 0) / dim * dim), dim),
            (i - 0) % dim,
        ));
        lemma_row_of_cells(m, l, d, x, n as int, t, i / dim * dim);
    }
    assert forall|t: int, i: int| 0 <= t < n && keys <= i < 2 * keys implies #[trigger] cell(e, Buf::DnConvOut, w, t, i)
        == unit_head(conv_row(l, d, x, t), keys + (i - keys) / dim * dim, dim)[(i - keys) % dim] by {
        let j = (i - keys) / dim * dim;
        lemma_head_start(i - keys, dim, keys, d.n_k_heads as int);
        assert(cell(e, Buf::DnConvOut, w, t, i) == Term::Unit(
            row(m1, Buf::DnConvOut, t * w + (keys + (i - keys) / dim * dim), dim),
            (i - keys) % dim,
        ));
        lemma_row_of_cells(m, l, d, x, n as int, t, keys + j);
        let (a, b) = (row(m1, Buf::DnConvOut, t * w + (keys + j), dim), row(m, Buf::DnConvOut, t * w + (keys + j), dim));
        assert forall|q: int| 0 <= q < dim implies a[q] == b[q] by {
            assert(cell(m1, Buf::DnConvOut, w, t, keys + j + q) == cell(m, Buf::DnConvOut, w, t, keys + j + q));
        }
        assert(a =~= b);
    }
    assert forall|t: int, i: int| 0 <= t < n && 2 * keys <= i < w implies #[trigger] cell(e, Buf::DnConvOut, w, t, i)
        == conv_row(l, d, x, t)[i] by {
        assert(cell(e, Buf::DnConvOut, w, t, i) == cell(m1, Buf::DnConvOut, w, t, i));
        assert(cell(m1, Buf::DnConvOut, w, t, i) == cell(m, Buf::DnConvOut, w, t, i));
    }
    let h = d.n_v_heads as int;
    assert forall|t: int, i: int| #[trigger] cell(e, Buf::DnG, h, t, i) == cell(m, Buf::DnG, h, t, i) by {}
    assert forall|t: int, i: int| #[trigger] cell(e, Buf::DnBeta, h, t, i) == cell(m, Buf::DnBeta, h, t, i) by {}
}

/// A head of a convolved row, as the buffer holds it.
proof fn lemma_row_of_cells(m: Mem, l: usize, d: DeltaGeo, x: DeltaRows, n: int, t: int, a: int)
    requires
        conv_done(m, l, d, x, n),
        0 <= t < n,
        0 <= a,
        a + d.d_state <= d.channels,
    ensures
        row(m, Buf::DnConvOut, t * d.channels + a, d.d_state as int) == Seq::new(
            d.d_state as nat,
            |j: int| conv_row(l, d, x, t)[a + j],
        ),
{
    let z = Seq::new(d.d_state as nat, |j: int| conv_row(l, d, x, t)[a + j]);
    assert forall|j: int| 0 <= j < d.d_state implies m(Buf::DnConvOut, t * d.channels + a + j) == #[trigger] z[j] by {
        assert(cell(m, Buf::DnConvOut, d.channels as int, t, a + j) == conv_row(l, d, x, t)[a + j]);
    }
    assert(row(m, Buf::DnConvOut, t * d.channels + a, d.d_state as int) =~= z);
}

/// The rows of a linear block do not change while their gates are made.
proof fn lemma_rows_held_same(m: Mem, e: Mem, l: usize, d: DeltaGeo, n: int)
    requires
        stays(m, e, Buf::DnG, Buf::DnBeta),
    ensures
        rows_held(e, l, d, n) == rows_held(m, l, d, n),
{
    reveal(nth);
    let (x, y) = (rows_held(e, l, d, n), rows_held(m, l, d, n));
    let (w, h, z) = (d.channels as int, d.n_v_heads as int, d.inner as int);
    assert(x.states =~= y.states);
    assert forall|b: Buf, u: int, t: int| b != Buf::DnG && b != Buf::DnBeta implies #[trigger] nth(e, b, 0, u, t) == nth(
        m,
        b,
        0,
        u,
        t,
    ) by {
        assert(row(e, b, 0 + t * u, u) =~= row(m, b, 0 + t * u, u));
    }
    assert(x.us =~= y.us);
    assert(x.zs =~= y.zs);
    assert(x.als =~= y.als);
    assert(x.bes =~= y.bes);
}

/// What a linear block leaves behind: the output of every row, and both states past
/// all of them.
pub open spec fn delta_done(m: Mem, e: Mem, l: usize, d: DeltaGeo, n: int) -> bool {
    let x = rows_held(m, l, d, n);
    &&& forall|t: int| 0 <= t < n ==> #[trigger] nth(e, Buf::DnOut, 0, d.inner as int, t) == delta_row(l, d, x, t)
    &&& row(e, Buf::DeltaState(l), 0, d.n_v_heads as int) == states_after(l, d, x, n as nat)
    &&& e(Buf::ConvState(l), 0) == conv_state(x.conv, x.us, n as nat)
    &&& forall|b: Buf, i: int| !is_delta_scratch(b, l) ==> #[trigger] e(b, i) == m(b, i)
}

/// From the point where everything is ready on.
proof fn lemma_finish(c: Ctx, m0: Mem, s: Seq<CmdView>, d: DeltaGeo, l: usize, n: u32, conc: bool, m: Mem)
    requires
        delta_fits(d, n as int),
        is_ready(run(c, m0, s), l, d, rows_held(m, l, d, n as int), n as int),
        run(c, m0, s)(Buf::ConvState(l), 0) == conv_state(
            rows_held(m, l, d, n as int).conv,
            rows_held(m, l, d, n as int).us,
            n as nat,
        ),
        forall|b: Buf, i: int|
            b != Buf::DnG && b != Buf::DnBeta && b != Buf::DnConvOut && b != Buf::ConvState(l) ==> #[trigger] run(c, m0, s)(
                b,
                i,
            ) == m(b, i),
    ensures
        delta_done(m, run(c, m0, output_norm(delta_tokens(s, d, l, conc, n as nat), d, l, n)), l, d, n as int),
{
    let x = rows_held(m, l, d, n as int);
    let p = run(c, m0, s);
    let (h, z) = (d.n_v_heads as int, d.inner as int);
    assert(row(p, Buf::DeltaState(l), 0, h) =~= x.states);
    lemma_delta_tokens(c, m0, s, d, l, conc, x, n as int, n as nat);
    let t1 = delta_tokens(s, d, l, conc, n as nat);
    let q = run(c, m0, t1);
    let e = run(c, m0, output_norm(t1, d, l, n));
    lemma_output_norm(c, m0, t1, d, l, n, 0);
    assert forall|t: int| 0 <= t < n implies #[trigger] nth(e, Buf::DnOut, 0, z, t) == delta_row(l, d, x, t) by {
        lemma_output_norm(c, m0, t1, d, l, n, t);
        assert(nth(q, Buf::DnOut, 0, z, t) == recalled_row(l, d, x, t));
        assert(nth(q, Buf::DnZ, 0, z, t) == x.zs[t]) by {
            reveal(nth);
            assert(row(q, Buf::DnZ, 0 + t * z, z) =~= row(m, Buf::DnZ, 0 + t * z, z));
        }
    }
    assert(row(e, Buf::DeltaState(l), 0, h) =~= row(q, Buf::DeltaState(l), 0, h));
}

/// A linear block takes its rows, be it one or a chunk, one after the other through
/// the convolution and the delta rule.
pub proof fn lemma_delta_block_runs_row_by_row(c: Ctx, m0: Mem, s: Seq<CmdView>, d: DeltaGeo, l: usize, n: u32, conc: bool)
    requires
        delta_fits(d, n as int),
    ensures
        delta_done(run(c, m0, s), run(c, m0, delta_block(s, d, l, n, conc)), l, d, n as int),
{
    let m = run(c, m0, s);
    let x = rows_held(m, l, d, n as int);
    let w = d.channels as int;
    let u1 = delta_gates(s, d, l, n);
    let s1 = with_barrier(u1, conc, seq![Buf::DnG, Buf::DnBeta]);
    lemma_gates(c, m0, s, d, l, n);
    lemma_gates_done(c, m0, s, d, l, n);
    lemma_barrier(c, m0, u1, conc, seq![Buf::DnG, Buf::DnBeta]);
    let m1 = run(c, m0, s1);
    lemma_rows_held_same(m, m1, l, d, n as int);
    let h = d.n_v_heads as int;
    if n > 1 {
        let u2 = conv_chunk(s1, d, l, n);
        let s2 = with_barrier(u2, conc, seq![Buf::DnConvOut, Buf::ConvState(l)]);
        lemma_conv_chunk(c, m0, s1, d, l, n);
        lemma_barrier(c, m0, u2, conc, seq![Buf::DnConvOut, Buf::ConvState(l)]);
        let m2 = run(c, m0, s2);
        let u3 = conv_roll(s2, d, l, n);
        let s3 = with_barrier(u3, conc, seq![Buf::ConvState(l)]);
        lemma_conv_roll(c, m0, s2, d, l, n);
        lemma_barrier(c, m0, u3, conc, seq![Buf::ConvState(l)]);
        let m3 = run(c, m0, s3);
        assert(rows_held(m2, l, d, n as int).us =~= x.us) by {
            reveal(nth);
            assert forall|t: int| #[trigger] nth(m2, Buf::DnQkv, 0, w, t) == nth(m1, Buf::DnQkv, 0, w, t) by {
                assert(row(m2, Buf::DnQkv, 0 + t * w, w) =~= row(m1, Buf::DnQkv, 0 + t * w, w));
            }
        }
        lemma_carry(m1, m3, l, d, x, n as int);
        assert(conv_done(m3, l, d, x, n as int)) by {
            assert forall|t: int, i: int| 0 <= t < n && 0 <= i < w implies #[trigger] cell(m3, Buf::DnConvOut, w, t, i)
                == conv_row(l, d, x, t)[i] by {
                assert(cell(m3, Buf::DnConvOut, w, t, i) == cell(m2, Buf::DnConvOut, w, t, i));
            }
        }
        let u4 = l2norm(l2norm(s3, d, 0, d.channels, n), d, (d.keys * 4) as u64, d.channels, n);
        lemma_units_done(c, m0, s3, d, l, x, d.channels, n);
        let s4 = with_barrier(u4, conc, seq![Buf::DnConvOut]);
        lemma_barrier(c, m0, u4, conc, seq![Buf::DnConvOut]);
        lemma_finish(c, m0, s4, d, l, n, conc, m);
        let u5 = output_norm(delta_tokens(s4, d, l, conc, n as nat), d, l, n);
        lemma_barrier(c, m0, u5, conc, seq![Buf::DnOut]);
    } else {
        let u2 = conv_one(s1, d, l);
        let s2 = with_barrier(u2, conc, seq![Buf::DnConvOut, Buf::ConvState(l)]);
        lemma_conv_one(c, m0, s1, d, l);
        lemma_barrier(c, m0, u2, conc, seq![Buf::DnConvOut, Buf::ConvState(l)]);
        let m2 = run(c, m0, s2);
        assert(row(m1, Buf::DnQkv, 0, w) == x.us[0]) by {
            reveal(nth);
            assert(row(m1, Buf::DnQkv, 0, w) =~= row(m, Buf::DnQkv, 0, w));
        }
        lemma_carry(m1, m2, l, d, x, 1);
        assert(conv_state(x.conv, x.us, 0) == x.conv);
        assert(conv_state(x.conv, x.us, 1) == Term::Rolled(Box::new(x.conv), x.us[0]));
        assert(conv_done(m2, l, d, x, 1)) by {
            assert forall|t: int, i: int| 0 <= t < 1 && 0 <= i < w implies #[trigger] cell(m2, Buf::DnConvOut, w, t, i)
                == conv_row(l, d, x, t)[i] by {
                assert(t * w == 0) by (nonlinear_arith)
                    requires
                        t == 0,
                ;
                assert(m2(Buf::DnConvOut, i) == convolved(l, d, x.conv, x.us[0])[i]);
            }
        }
        let u4 = l2norm(l2norm(s2, d, 0, 0, 1), d, (d.keys * 4) as u64, 0, 1);
        lemma_units_done(c, m0, s2, d, l, x, 0, 1);
        let s4 = with_barrier(u4, conc, seq![Buf::DnConvOut]);
        lemma_barrier(c, m0, u4, conc, seq![Buf::DnConvOut]);
        lemma_finish(c, m0, s4, d, l, 1, conc, m);
        assert(delta_tokens(s4, d, l, conc, 0) == s4);
        let u5 = output_norm(delta_tokens(s4, d, l, conc, 1), d, l, 1);
        lemma_barrier(c, m0, u5, conc, seq![Buf::DnOut, Buf::ConvState(l), Buf::DeltaState(l)]);
    }
}

/// Decays and strengths stay while the rows are convolved.
proof fn lemma_carry(m: Mem, e: Mem, l: usize, d: DeltaGeo, x: DeltaRows, n: int)
    requires
        gates_done(m, l, d, x, n),
        stays(m, e, Buf::DnConvOut, Buf::ConvState(l)),
    ensures
        gates_done(e, l, d, x, n),
{
    let h = d.n_v_heads as int;
    assert forall|t: int, i: int| #[trigger] cell(e, Buf::DnG, h, t, i) == cell(m, Buf::DnG, h, t, i) by {}
    assert forall|t: int, i: int| #[trigger] cell(e, Buf::DnBeta, h, t, i) == cell(m, Buf::DnBeta, h, t, i) by {}
}

} // verus!
