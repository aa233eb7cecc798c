//! What a list of commands computes. Every number that a buffer holds is a term
//! over the weights and over what the buffers held before; a kernel writes the
//! terms that its bindings give.
use vstd::arithmetic::div_mod::lemma_fundamental_div_mod_converse;
use vstd::prelude::*;

use crate::gpu::geometry::ATTN_SPLIT;
use crate::gpu::ops::{Buf, CmdView, DispatchView, Kernel, Params, Slot};

verus! {

/// A number: what a buffer held at first, or the result of one operation.
pub enum Term {
    Held(Buf, int),
    /// One number of a table's row, the row picked by an entry of a list.
    Picked(Buf, Buf, int, int),
    Normed(Buf, Seq<Term>, int),
    Product(Buf, Seq<Term>, int),
    Biased(Box<Term>, Buf, int),
    Sum(Box<Term>, Box<Term>),
    /// The second, gated by the first.
    Gated(Box<Term>, Box<Term>),
    /// One number of a head rotated by its position, of so many dimensions.
    Rotated(int, int, Seq<Term>, int),
    Attended(Attention, int),
    /// What the splits of an attention leave behind before they are merged.
    Splits(Attention),
    Merged(Box<Term>, int),
    /// One number of a joint projection: of the query, or of what opens the output.
    Part(bool, Seq<Term>, int),
    /// The first, opened as far as the second says.
    Opened(Box<Term>, Box<Term>),
    /// One channel of a row, convolved with the rows before it.
    Convolved(Buf, int, Box<Term>, Seq<Term>, int),
    /// The rows before a row, once the row itself is among them.
    Rolled(Box<Term>, Seq<Term>),
    /// How far a head's state decays.
    Decay(Buf, Buf, Box<Term>, int),
    /// How strongly a head writes.
    Strength(Box<Term>),
    /// One number of a head of length one.
    Unit(Seq<Term>, int),
    /// What a head's state gives back, and the state it leaves.
    Recalled(Delta, int),
    Updated(Delta),
    /// One number of a head, normalised and gated by another.
    OutNormed(Buf, Seq<Term>, Seq<Term>, int),
}

/// What the delta rule of one head reads.
pub struct Delta {
    pub state: Box<Term>,
    pub query: Seq<Term>,
    pub key: Seq<Term>,
    pub value: Seq<Term>,
    pub decay: Box<Term>,
    pub strength: Box<Term>,
}

/// A query, the keys and values it attends to, the heads, and where the query stands.
pub struct Attention {
    pub query: Seq<Term>,
    pub keys: Seq<Seq<Term>>,
    pub values: Seq<Seq<Term>>,
    pub heads: int,
    pub kv_heads: int,
    pub head_dim: int,
    pub at: int,
}

/// What the buffers hold, number by number.
pub type Mem = spec_fn(Buf, int) -> Term;

/// What the commands do not say: which biases the checkpoint has (a buffer stands
/// for a missing one, and adds nothing), by which selector each weight is read, and
/// the slot and position of each row of a batch.
pub struct Ctx {
    pub biased: spec_fn(Buf) -> bool,
    pub selector: spec_fn(Buf) -> u32,
    pub rows: Seq<(int, int)>,
}

/// The bytes of one number.
pub open spec fn width_of(b: Buf) -> int {
    match b {
        Buf::KCache(_) | Buf::VCache(_) | Buf::Xh => 2,
        _ => 4,
    }
}

/// `w` numbers of a buffer.
pub open spec fn row(m: Mem, b: Buf, at: int, w: int) -> Seq<Term> {
    Seq::new(w as nat, |c: int| m(b, at + c))
}

/// `n` rows of a buffer, one behind the other.
pub open spec fn table(m: Mem, b: Buf, at: int, w: int, n: int) -> Seq<Seq<Term>> {
    Seq::new(n as nat, |p: int| row(m, b, at + p * w, w))
}

/// `len` numbers written from `at` on.
pub open spec fn put(m: Mem, y: Buf, at: int, len: int, f: spec_fn(int) -> Term) -> Mem {
    |b: Buf, a: int|
        if b == y && at <= a < at + len {
            f(a - at)
        } else {
            m(b, a)
        }
}

/// The row that starts at `place(r)` belongs to `r`.
pub open spec fn lands(n: int, w: int, place: spec_fn(int) -> int, a: int, r: int) -> bool {
    0 <= r < n && place(r) <= a < place(r) + w
}

/// `n` rows of `w` numbers written, each to its place.
pub open spec fn scatter(m: Mem, y: Buf, n: int, w: int, place: spec_fn(int) -> int, f: spec_fn(int, int) -> Term) -> Mem {
    |b: Buf, a: int|
        if b == y && exists|r: int| #[trigger] lands(n, w, place, a, r) {
            let r = choose|r: int| #[trigger] lands(n, w, place, a, r);
            f(r, a - place(r))
        } else {
            m(b, a)
        }
}

// ---------- what a binding says ----------

/// The buffer bound at `k`.
pub open spec fn buf(d: DispatchView, k: int) -> Buf {
    match d.slots[k] {
        Slot::Buf(b, _) => b,
        _ => Buf::Ids,
    }
}

/// The number at which the buffer bound at `k` starts.
pub open spec fn at(d: DispatchView, k: int) -> int {
    match d.slots[k] {
        Slot::Buf(b, off) => off as int / width_of(b),
        _ => 0,
    }
}

/// The parameters bound at `k`.
pub open spec fn params(d: DispatchView, k: int) -> Params {
    match d.slots[k] {
        Slot::Params(p) => p,
        _ => Params::Norm { dim: 0 },
    }
}

/// One thread for every element.
pub open spec fn reaches(d: DispatchView, n: int) -> bool {
    n <= d.groups.0 * d.threads
}

/// One group of lanes for every output, `rows` times.
pub open spec fn reaches_rows(d: DispatchView, outs: int, rows: int) -> bool {
    outs <= d.groups.0 * (d.threads / 32) && rows <= d.groups.1
}

/// A tile for every output of every row.
pub open spec fn reaches_tiles(d: DispatchView, outs: int, rows: int, tile: int) -> bool {
    outs <= d.groups.0 * 64 && rows <= d.groups.1 * tile
}

// ---------- what the kernels compute ----------

pub open spec fn plus(c: Ctx, bias: Buf, t: Term, i: int) -> Term {
    if (c.biased)(bias) {
        Term::Biased(Box::new(t), bias, i)
    } else {
        t
    }
}

/// Embedding: table, ids, output, sizes.
pub open spec fn do_embed(m: Mem, d: DispatchView) -> Mem {
    match params(d, 3) {
        Params::Embed { dim, n_rows } if reaches(d, n_rows * dim) => put(
            m,
            buf(d, 2),
            at(d, 2),
            n_rows * dim,
            |i: int| Term::Picked(buf(d, 0), buf(d, 1), at(d, 1) + i / dim as int, i % dim as int),
        ),
        _ => m,
    }
}

/// Norm of rows: input, weight, output; one group for each row.
pub open spec fn norm_rows(m: Mem, x: Buf, x_at: int, w: Buf, y: Buf, y_at: int, dim: int, rows: int) -> Mem {
    put(m, y, y_at, rows * dim, |i: int| Term::Normed(w, row(m, x, x_at + i / dim * dim, dim), i % dim))
}

pub open spec fn do_norm(m: Mem, d: DispatchView) -> Mem {
    match params(d, 3) {
        Params::Norm { dim } => norm_rows(m, buf(d, 0), at(d, 0), buf(d, 1), buf(d, 2), at(d, 2), dim as int, d.groups.0),
        _ => m,
    }
}

/// The same into two buffers.
pub open spec fn do_norm_both(m: Mem, d: DispatchView) -> Mem {
    match params(d, 4) {
        Params::Norm { dim } => {
            let f = |i: int| Term::Normed(buf(d, 1), row(m, buf(d, 0), at(d, 0) + i / dim as int * dim, dim as int), i % dim as int);
            put(put(m, buf(d, 2), at(d, 2), d.groups.0 * dim, f), buf(d, 3), at(d, 3), d.groups.0 * dim, f)
        },
        _ => m,
    }
}

/// The same in place.
pub open spec fn do_norm_inplace(m: Mem, d: DispatchView) -> Mem {
    match params(d, 2) {
        Params::Norm { dim } => norm_rows(m, buf(d, 0), at(d, 0), buf(d, 1), buf(d, 0), at(d, 0), dim as int, d.groups.0),
        _ => m,
    }
}

/// Rows through a matrix, with its bias.
pub open spec fn times(
    c: Ctx,
    m: Mem,
    w: Buf,
    bias: Option<Buf>,
    x: Buf,
    x_at: int,
    in_dim: int,
    out_dim: int,
) -> spec_fn(int) -> Term {
    |i: int|
        {
            let t = Term::Product(w, row(m, x, x_at + i / out_dim * in_dim, in_dim), i % out_dim);
            match bias {
                Some(b) => plus(c, b, t, i % out_dim),
                None => t,
            }
        }
}

/// One row through a matrix: weight, bias, input, output.
pub open spec fn do_matvec(c: Ctx, m: Mem, d: DispatchView) -> Mem {
    match params(d, 4) {
        Params::Matvec { in_dim, out_dim } if reaches_rows(d, out_dim as int, 1) => put(
            m,
            buf(d, 3),
            at(d, 3),
            out_dim as int,
            times(c, m, buf(d, 0), Some(buf(d, 1)), buf(d, 2), at(d, 2), in_dim as int, out_dim as int),
        ),
        _ => m,
    }
}

/// The same added to the output, row by row: one line of groups for each.
pub open spec fn do_matvec_acc(c: Ctx, m: Mem, d: DispatchView) -> Mem {
    match params(d, 4) {
        Params::Matvec { in_dim, out_dim } if reaches_rows(d, out_dim as int, 1) => {
            let f = times(c, m, buf(d, 0), Some(buf(d, 1)), buf(d, 2), at(d, 2), in_dim as int, out_dim as int);
            put(
                m,
                buf(d, 3),
                at(d, 3),
                d.groups.1 * out_dim,
                |i: int| Term::Sum(Box::new(m(buf(d, 3), at(d, 3) + i)), Box::new(f(i))),
            )
        },
        _ => m,
    }
}

/// Gate and up: both weights, input, output, row by row.
pub open spec fn do_swiglu(c: Ctx, m: Mem, d: DispatchView) -> Mem {
    match params(d, 4) {
        Params::Matvec { in_dim, out_dim } if reaches_rows(d, out_dim as int, 1) => {
            let gate = times(c, m, buf(d, 0), None, buf(d, 2), at(d, 2), in_dim as int, out_dim as int);
            let up = times(c, m, buf(d, 1), None, buf(d, 2), at(d, 2), in_dim as int, out_dim as int);
            put(
                m,
                buf(d, 3),
                at(d, 3),
                d.groups.1 * out_dim,
                |i: int| Term::Gated(Box::new(gate(i)), Box::new(up(i))),
            )
        },
        _ => m,
    }
}

/// Rows through a matrix: weight, bias, input, output.
pub open spec fn do_matmul(c: Ctx, m: Mem, d: DispatchView) -> Mem {
    match params(d, 4) {
        Params::Matmul { in_dim, out_dim, n_rows } if reaches_tiles(d, out_dim as int, n_rows as int, 32) => put(
            m,
            buf(d, 3),
            at(d, 3),
            n_rows * out_dim,
            times(c, m, buf(d, 0), Some(buf(d, 1)), buf(d, 2), at(d, 2), in_dim as int, out_dim as int),
        ),
        Params::MatmulPaged { in_dim, out_dim, n_rows, y_stride } if y_stride == out_dim && reaches_tiles(
            d,
            out_dim as int,
            n_rows as int,
            32,
        ) => put(
            m,
            buf(d, 3),
            at(d, 3),
            n_rows * out_dim,
            times(c, m, buf(d, 0), Some(buf(d, 1)), buf(d, 2), at(d, 2), in_dim as int, out_dim as int),
        ),
        _ => m,
    }
}

/// Rows of a half-precision input through a matrix: weight, input, output, and
/// behind them the bias of a kernel that adds one.
pub open spec fn do_matmul_half(c: Ctx, m: Mem, d: DispatchView, bias: bool) -> Mem {
    match params(d, if bias { 4 } else { 3 }) {
        Params::Matmul { in_dim, out_dim, n_rows } if reaches_tiles(
            d,
            out_dim as int,
            n_rows as int,
            crate::gpu::geometry::MM_TILE_ROWS as int,
        ) => put(
            m,
            buf(d, 2),
            at(d, 2),
            n_rows * out_dim,
            times(
                c,
                m,
                buf(d, 0),
                if bias {
                    Some(buf(d, 3))
                } else {
                    None
                },
                buf(d, 1),
                at(d, 1),
                in_dim as int,
                out_dim as int,
            ),
        ),
        _ => m,
    }
}

/// Query, key and value of one row: the three weights with their biases, the
/// input, the query's output, and the two caches.
pub open spec fn do_qkv(c: Ctx, m: Mem, d: DispatchView) -> Mem {
    match params(d, 10) {
        Params::Qkv { in_dim, q_dim, kv_dim, kv_off } if reaches_rows(d, q_dim + 2 * kv_dim, 1) => {
            let (x, xa, w) = (buf(d, 6), at(d, 6), in_dim as int);
            let q = times(c, m, buf(d, 0), Some(buf(d, 1)), x, xa, w, q_dim as int);
            let k = times(c, m, buf(d, 2), Some(buf(d, 3)), x, xa, w, kv_dim as int);
            let v = times(c, m, buf(d, 4), Some(buf(d, 5)), x, xa, w, kv_dim as int);
            let m1 = put(m, buf(d, 7), at(d, 7), q_dim as int, q);
            let m2 = put(m1, buf(d, 8), at(d, 8) + kv_off, kv_dim as int, k);
            put(m2, buf(d, 9), at(d, 9) + kv_off, kv_dim as int, v)
        },
        _ => m,
    }
}

/// Heads rotated in place: the numbers of `n` rows, row `r` by `pos(r)`.
pub open spec fn turn(
    m: Mem,
    x: Buf,
    x_at: int,
    n: int,
    heads: int,
    dim: int,
    rot: int,
    pos0: int,
) -> Mem {
    put(
        m,
        x,
        x_at,
        n * (heads * dim),
        |i: int| Term::Rotated(pos0 + i / dim / heads, rot, row(m, x, x_at + i / dim * dim, dim), i % dim),
    )
}

/// Rotation of one buffer.
pub open spec fn do_rope(m: Mem, d: DispatchView) -> Mem {
    match params(d, 1) {
        Params::Rope { head_dim, n_heads, pos0, n_rows, rot_dim } if reaches(d, n_rows * n_heads * rot_dim / 2) => turn(
            m,
            buf(d, 0),
            at(d, 0),
            n_rows as int,
            n_heads as int,
            head_dim as int,
            rot_dim as int,
            pos0 as int,
        ),
        _ => m,
    }
}

/// Rotation of queries and of the keys behind them.
pub open spec fn do_rope_qk(m: Mem, d: DispatchView) -> Mem {
    match params(d, 2) {
        Params::RopeQk { head_dim, n_q_heads, n_kv_heads, pos, rot_dim } if reaches(
            d,
            (n_q_heads + n_kv_heads) * rot_dim / 2,
        ) => {
            let q = turn(m, buf(d, 0), at(d, 0), 1, n_q_heads as int, head_dim as int, rot_dim as int, pos as int);
            turn(q, buf(d, 1), at(d, 1), 1, n_kv_heads as int, head_dim as int, rot_dim as int, pos as int)
        },
        Params::RopeQkPrefill { head_dim, n_q_heads, n_kv_heads, pos0, n_rows } if reaches(
            d,
            n_rows * (n_q_heads * head_dim + n_kv_heads * head_dim) / 2,
        ) => {
            let (n, w) = (n_rows as int, head_dim as int);
            let q = turn(m, buf(d, 0), at(d, 0), n, n_q_heads as int, w, w, pos0 as int);
            turn(q, buf(d, 1), at(d, 1), n, n_kv_heads as int, w, w, pos0 as int)
        },
        _ => m,
    }
}

/// Attention of a row at `pos` to the first `rows` rows of a cache: queries, keys,
/// values.
pub open spec fn attention_at(
    m: Mem,
    q: Buf,
    q_at: int,
    k: Buf,
    k_at: int,
    v: Buf,
    v_at: int,
    heads: int,
    kv_heads: int,
    dim: int,
    pos: int,
    rows: int,
) -> Attention {
    Attention {
        query: row(m, q, q_at, heads * dim),
        keys: table(m, k, k_at, kv_heads * dim, rows),
        values: table(m, v, v_at, kv_heads * dim, rows),
        heads,
        kv_heads,
        head_dim: dim,
        at: pos,
    }
}

/// Attention over rows of a chunk, at the outputs `y` and, where there is one, `z`:
/// each to the keys up to its own position, or to a whole ring.
pub open spec fn do_attention(m: Mem, d: DispatchView, p: int, y: int, z: Option<int>, ring: bool) -> Mem {
    match params(d, p) {
        Params::Attn { head_dim, n_heads, n_kv_heads, pos0, n_rows, max_seq } => {
            let (w, h, kv) = (head_dim as int, n_heads as int, n_kv_heads as int);
            let f = |i: int|
                Term::Attended(
                    attention_at(
                        m,
                        buf(d, 0),
                        at(d, 0) + i / (h * w) * (h * w),
                        buf(d, 1),
                        at(d, 1),
                        buf(d, 2),
                        at(d, 2),
                        h,
                        kv,
                        w,
                        pos0 + i / (h * w),
                        if ring {
                            max_seq as int
                        } else {
                            pos0 + i / (h * w) + 1
                        },
                    ),
                    i % (h * w),
                );
            let out = put(m, buf(d, y), at(d, y), n_rows * (h * w), f);
            match z {
                Some(k) => put(out, buf(d, k), at(d, k), n_rows * (h * w), f),
                None => out,
            }
        },
        _ => m,
    }
}

/// The splits of one row's attention: query, keys, values, output. Over a ring they
/// take all of it.
pub open spec fn do_partial(m: Mem, d: DispatchView, ring: bool) -> Mem {
    match params(d, 4) {
        Params::AttnDec { head_dim, n_heads, n_kv_heads, pos, n_splits } if (ring || pos < n_splits * ATTN_SPLIT)
            && n_splits <= d.groups.1 => {
            let a = attention_at(
                m,
                buf(d, 0),
                at(d, 0),
                buf(d, 1),
                at(d, 1),
                buf(d, 2),
                at(d, 2),
                n_heads as int,
                n_kv_heads as int,
                head_dim as int,
                pos as int,
                if ring {
                    n_splits * ATTN_SPLIT
                } else {
                    pos + 1
                },
            );
            put(m, buf(d, 3), at(d, 3), 1, |i: int| Term::Splits(a))
        },
        _ => m,
    }
}

pub open spec fn merged(t: Term, i: int) -> Term {
    match t {
        Term::Splits(a) => Term::Attended(a, i),
        other => Term::Merged(Box::new(other), i),
    }
}

/// Their merge: the splits, output.
pub open spec fn do_reduce(m: Mem, d: DispatchView) -> Mem {
    match params(d, 2) {
        Params::AttnDec { head_dim, n_heads, .. } if n_heads <= d.groups.0 && head_dim <= d.threads => put(
            m,
            buf(d, 1),
            at(d, 1),
            n_heads * head_dim,
            |i: int| merged(m(buf(d, 0), at(d, 0)), i),
        ),
        _ => m,
    }
}

/// A copy at half precision: input, output.
pub open spec fn do_half(m: Mem, d: DispatchView) -> Mem {
    match d.slots[2] {
        Slot::U32(dim) if reaches(d, dim as int) => put(
            m,
            buf(d, 1),
            at(d, 1),
            dim as int,
            |i: int| m(buf(d, 0), at(d, 0) + i),
        ),
        _ => m,
    }
}

/// A sum in place.
pub open spec fn do_add(m: Mem, d: DispatchView) -> Mem {
    match params(d, 2) {
        Params::Elem { dim } if reaches(d, dim as int) => put(
            m,
            buf(d, 0),
            at(d, 0),
            dim as int,
            |i: int| Term::Sum(Box::new(m(buf(d, 0), at(d, 0) + i)), Box::new(m(buf(d, 1), at(d, 1) + i))),
        ),
        _ => m,
    }
}

/// One vector gated by another: the first, in place, and what it gates; where `h`
/// says so, also into a third buffer.
pub open spec fn do_gate(m: Mem, d: DispatchView, h: bool) -> Mem {
    match params(d, if h { 3 } else { 2 }) {
        Params::Elem { dim } if reaches(d, dim as int) => {
            let f = |i: int| Term::Gated(Box::new(m(buf(d, 0), at(d, 0) + i)), Box::new(m(buf(d, 1), at(d, 1) + i)));
            let out = put(m, buf(d, 0), at(d, 0), dim as int, f);
            if h {
                put(out, buf(d, 2), at(d, 2), dim as int, f)
            } else {
                out
            }
        },
        _ => m,
    }
}

// ---------- the same over the rows of a batch ----------

/// Where row `r` of a batch stands in a cache of slots.
pub open spec fn slot_row(c: Ctx, base: int, max_seq: int, w: int) -> spec_fn(int) -> int {
    |r: int| base + (c.rows[r].0 * max_seq + c.rows[r].1) * w
}

/// Query, key and value of every row.
pub open spec fn do_qkv_batch(c: Ctx, m: Mem, d: DispatchView) -> Mem {
    match params(d, 10) {
        Params::QkvBatch { in_dim, q_dim, kv_dim, max_seq } if reaches_rows(d, q_dim + 2 * kv_dim, 1) && buf(d, 11)
            == Buf::Meta && at(d, 11) == 0 => {
            let (x, xa, w) = (buf(d, 6), at(d, 6), in_dim as int);
            let kw = kv_dim as int;
            let q = times(c, m, buf(d, 0), Some(buf(d, 1)), x, xa, w, q_dim as int);
            let k = times(c, m, buf(d, 2), Some(buf(d, 3)), x, xa, w, kw);
            let v = times(c, m, buf(d, 4), Some(buf(d, 5)), x, xa, w, kw);
            let m1 = put(m, buf(d, 7), at(d, 7), d.groups.1 * q_dim, q);
            let m2 = scatter(
                m1,
                buf(d, 8),
                d.groups.1,
                kw,
                slot_row(c, at(d, 8), max_seq as int, kw),
                |r: int, i: int| k(r * kw + i),
            );
            scatter(
                m2,
                buf(d, 9),
                d.groups.1,
                kw,
                slot_row(c, at(d, 9), max_seq as int, kw),
                |r: int, i: int| v(r * kw + i),
            )
        },
        _ => m,
    }
}

/// Rotation of every row's query and key.
pub open spec fn do_rope_batch(c: Ctx, m: Mem, d: DispatchView) -> Mem {
    match params(d, 3) {
        Params::RopeQkBatch { head_dim, n_q_heads, n_kv_heads, max_seq, kv_dim, n_rows } if reaches(
            d,
            n_rows * (n_q_heads * head_dim + n_kv_heads * head_dim) / 2,
        ) && buf(d, 2) == Buf::Meta && at(d, 2) == 0 && kv_dim == n_kv_heads * head_dim => {
            let (dim, h, kw) = (head_dim as int, n_q_heads as int, kv_dim as int);
            let place = slot_row(c, at(d, 1), max_seq as int, kw);
            let q = put(
                m,
                buf(d, 0),
                at(d, 0),
                n_rows * (h * dim),
                |i: int|
                    Term::Rotated(
                        c.rows[i / dim / h].1,
                        dim,
                        row(m, buf(d, 0), at(d, 0) + i / dim * dim, dim),
                        i % dim,
                    ),
            );
            scatter(
                q,
                buf(d, 1),
                n_rows as int,
                kw,
                place,
                |r: int, i: int|
                    Term::Rotated(c.rows[r].1, dim, row(m, buf(d, 1), place(r) + i / dim * dim, dim), i % dim),
            )
        },
        _ => m,
    }
}

/// The splits of every row's attention, in its own slot.
pub open spec fn do_partial_batch(c: Ctx, m: Mem, d: DispatchView) -> Mem {
    match params(d, 5) {
        Params::AttnDecBatch { head_dim, n_heads, n_kv_heads, max_seq, kv_dim, splits_max } if buf(d, 4) == Buf::Meta
            && at(d, 4) == 0 && kv_dim == n_kv_heads * head_dim && d.groups.1 <= splits_max && forall|r: int|
            0 <= r < d.groups.2 ==> (#[trigger] c.rows[r]).1 < d.groups.1 * ATTN_SPLIT => put(
            m,
            buf(d, 3),
            at(d, 3),
            d.groups.2,
            |r: int|
                Term::Splits(
                    attention_at(
                        m,
                        buf(d, 0),
                        at(d, 0) + r * (n_heads * head_dim),
                        buf(d, 1),
                        at(d, 1) + c.rows[r].0 * max_seq * kv_dim,
                        buf(d, 2),
                        at(d, 2) + c.rows[r].0 * max_seq * kv_dim,
                        n_heads as int,
                        n_kv_heads as int,
                        head_dim as int,
                        c.rows[r].1,
                        c.rows[r].1 + 1,
                    ),
                ),
        ),
        _ => m,
    }
}

/// Their merge.
pub open spec fn do_reduce_batch(m: Mem, d: DispatchView) -> Mem {
    match params(d, 3) {
        Params::AttnDecBatch { head_dim, n_heads, .. } if buf(d, 2) == Buf::Meta && at(d, 2) == 0 && n_heads
            <= d.groups.0 && head_dim <= d.threads => {
            let w = n_heads * head_dim;
            put(m, buf(d, 1), at(d, 1), d.groups.1 * w, |i: int| merged(m(buf(d, 0), at(d, 0) + i / w), i % w))
        },
        _ => m,
    }
}

// ---------- queries that open their output, and linear blocks ----------

/// A joint projection taken apart: input, queries, what opens the output.
pub open spec fn do_split(m: Mem, d: DispatchView) -> Mem {
    match params(d, 3) {
        Params::QGSplit { head_dim, n_heads, n_rows } if reaches(d, n_rows * (n_heads * head_dim)) => {
            let w = n_heads * head_dim;
            let m1 = put(
                m,
                buf(d, 1),
                at(d, 1),
                n_rows * w,
                |i: int| Term::Part(true, row(m, buf(d, 0), at(d, 0) + i / w * (2 * w), 2 * w), i % w),
            );
            put(
                m1,
                buf(d, 2),
                at(d, 2),
                n_rows * w,
                |i: int| Term::Part(false, row(m, buf(d, 0), at(d, 0) + i / w * (2 * w), 2 * w), i % w),
            )
        },
        _ => m,
    }
}

/// An output opened in place: the output, and what opens it.
pub open spec fn do_open(m: Mem, d: DispatchView) -> Mem {
    match d.slots[2] {
        Slot::U32(dim) if reaches(d, dim as int) => put(
            m,
            buf(d, 0),
            at(d, 0),
            dim as int,
            |i: int| Term::Opened(Box::new(m(buf(d, 0), at(d, 0) + i)), Box::new(m(buf(d, 1), at(d, 1) + i))),
        ),
        _ => m,
    }
}

/// The number bound at `k`.
pub open spec fn number(d: DispatchView, k: int) -> int {
    match d.slots[k] {
        Slot::U32(x) => x as int,
        _ => 0,
    }
}

/// Decay and strength of rows of heads: both inputs, the two small weights, both
/// outputs, the heads and the rows.
pub open spec fn do_delta_gates(m: Mem, d: DispatchView) -> Mem {
    let (heads, n) = (number(d, 6), number(d, 7));
    if reaches(d, n * heads) {
        let m1 = put(
            m,
            buf(d, 4),
            at(d, 4),
            n * heads,
            |i: int| Term::Decay(buf(d, 2), buf(d, 3), Box::new(m(buf(d, 0), at(d, 0) + i)), i % heads),
        );
        put(
            m1,
            buf(d, 5),
            at(d, 5),
            n * heads,
            |i: int| Term::Strength(Box::new(m(buf(d, 1), at(d, 1) + i))),
        )
    } else {
        m
    }
}

/// The rows before row `k` of a buffer, behind those of a state.
pub open spec fn rolled(m: Mem, state: Term, x: Buf, x_at: int, w: int, k: nat) -> Term
    decreases k,
{
    if k == 0 {
        state
    } else {
        Term::Rolled(
            Box::new(rolled(m, state, x, x_at, w, (k - 1) as nat)),
            row(m, x, x_at + (k - 1) * w, w),
        )
    }
}

/// A convolution: state, input, weight, output. That of one row also rolls its
/// state.
pub open spec fn do_conv(m: Mem, d: DispatchView) -> Mem {
    match params(d, 4) {
        Params::SsmConv { channels, d_conv } if reaches(d, channels as int) => {
            let w = channels as int;
            let (state, x) = (m(buf(d, 0), at(d, 0)), row(m, buf(d, 1), at(d, 1), w));
            let m1 = put(
                m,
                buf(d, 3),
                at(d, 3),
                w,
                |i: int| Term::Convolved(buf(d, 2), d_conv as int, Box::new(state), x, i),
            );
            put(m1, buf(d, 0), at(d, 0), 1, |i: int| Term::Rolled(Box::new(state), x))
        },
        Params::SsmConvBatch { channels, d_conv, n_tokens } if reaches(d, n_tokens * channels) => {
            let w = channels as int;
            put(
                m,
                buf(d, 3),
                at(d, 3),
                n_tokens * w,
                |i: int|
                    Term::Convolved(
                        buf(d, 2),
                        d_conv as int,
                        Box::new(rolled(m, m(buf(d, 0), at(d, 0)), buf(d, 1), at(d, 1), w, (i / w) as nat)),
                        row(m, buf(d, 1), at(d, 1) + i / w * w, w),
                        i % w,
                    ),
            )
        },
        _ => m,
    }
}

/// The roll of a state past rows: state, rows.
pub open spec fn do_roll(m: Mem, d: DispatchView) -> Mem {
    match params(d, 2) {
        Params::SsmConvBatch { channels, n_tokens, .. } if reaches(d, channels as int) => put(
            m,
            buf(d, 0),
            at(d, 0),
            1,
            |i: int|
                rolled(m, m(buf(d, 0), at(d, 0)), buf(d, 1), at(d, 1), channels as int, n_tokens as nat),
        ),
        _ => m,
    }
}

/// Heads brought to length one in place: one group for each head of each row, the
/// rows `stride` apart.
pub open spec fn do_unit(m: Mem, d: DispatchView) -> Mem {
    let (x, x_at, dim, stride) = (buf(d, 0), at(d, 0), number(d, 1), number(d, 3));
    scatter(
        m,
        x,
        d.groups.1,
        d.groups.0 * dim,
        |r: int| x_at + r * stride,
        |r: int, i: int| Term::Unit(row(m, x, x_at + r * stride + i / dim * dim, dim), i % dim),
    )
}

/// What head `h` reads: state, query, key, value, decay and strength. A key's head
/// serves `group` of them.
pub open spec fn delta_of(m: Mem, d: DispatchView, dim: int, group: int, h: int) -> Delta {
    Delta {
        state: Box::new(m(buf(d, 0), at(d, 0) + h)),
        query: row(m, buf(d, 1), at(d, 1) + h / group * dim, dim),
        key: row(m, buf(d, 2), at(d, 2) + h / group * dim, dim),
        value: row(m, buf(d, 3), at(d, 3) + h * dim, dim),
        decay: Box::new(m(buf(d, 4), at(d, 4) + h)),
        strength: Box::new(m(buf(d, 5), at(d, 5) + h)),
    }
}

/// The delta rule of one row, head by head: what it reads, then its output.
pub open spec fn do_delta(m: Mem, d: DispatchView) -> Mem {
    match params(d, 7) {
        Params::DeltaStep { d_state, n_v_heads, group } if reaches(d, n_v_heads * d_state) => {
            let (dim, g) = (d_state as int, group as int);
            let m1 = put(
                m,
                buf(d, 6),
                at(d, 6),
                n_v_heads * dim,
                |i: int| Term::Recalled(delta_of(m, d, dim, g, i / dim), i % dim),
            );
            put(m1, buf(d, 0), at(d, 0), n_v_heads as int, |h: int| Term::Updated(delta_of(m, d, dim, g, h)))
        },
        _ => m,
    }
}

/// Heads normalised and gated in place: the heads, the weight, what gates them.
pub open spec fn do_out_norm(m: Mem, d: DispatchView) -> Mem {
    let dim = number(d, 3);
    put(
        m,
        buf(d, 0),
        at(d, 0),
        d.groups.0 * dim,
        |i: int|
            Term::OutNormed(
                buf(d, 1),
                row(m, buf(d, 0), at(d, 0) + i / dim * dim, dim),
                row(m, buf(d, 2), at(d, 2) + i / dim * dim, dim),
                i % dim,
            ),
    )
}

/// What one launch leaves behind.
#[verifier::opaque]
pub open spec fn step(c: Ctx, m: Mem, d: DispatchView) -> Mem {
    match d.kernel {
        Kernel::Embed => do_embed(m, d),
        Kernel::RmsNorm => do_norm(m, d),
        Kernel::RmsNormHf => do_norm_both(m, d),
        Kernel::RmsNormHInplace => do_norm_inplace(m, d),
        Kernel::Matvec | Kernel::MatvecH => do_matvec(c, m, d),
        Kernel::QMatvec(sel) if sel == (c.selector)(buf(d, 0)) => do_matvec(c, m, d),
        Kernel::QMatvecH(sel) if sel == (c.selector)(buf(d, 0)) => do_matvec(c, m, d),
        Kernel::MatvecAcc | Kernel::MatvecAccBatch => do_matvec_acc(c, m, d),
        Kernel::QMatvecAcc(sel) if sel == (c.selector)(buf(d, 0)) => do_matvec_acc(c, m, d),
        Kernel::MatvecSwiglu | Kernel::MatvecSwigluBatch => do_swiglu(c, m, d),
        Kernel::Matmul | Kernel::MatmulH => do_matmul(c, m, d),
        Kernel::QMatmul(sel) if sel == (c.selector)(buf(d, 0)) => do_matmul(c, m, d),
        Kernel::MatmulT => do_matmul_half(c, m, d, false),
        Kernel::MatmulTb | Kernel::MatmulTh => do_matmul_half(c, m, d, true),
        Kernel::MatvecQkv => do_qkv(c, m, d),
        Kernel::Rope | Kernel::RopeH => do_rope(m, d),
        Kernel::RopeQkDecode | Kernel::RopeQkPrefill => do_rope_qk(m, d),
        Kernel::AttentionFlash => do_attention(m, d, 4, 3, Some(5), false),
        Kernel::Attention => do_attention(m, d, 5, 4, None, false),
        Kernel::AttentionDecodePartial => do_partial(m, d, false),
        Kernel::WindowFlash => do_attention(m, d, 4, 3, Some(5), true),
        Kernel::WindowAttention => do_attention(m, d, 5, 4, None, true),
        Kernel::WindowDecodePartial => do_partial(m, d, true),
        Kernel::AttentionDecodeReduce => do_reduce(m, d),
        Kernel::F32ToF16 => do_half(m, d),
        Kernel::AddInplace => do_add(m, d),
        Kernel::SiluMul => do_gate(m, d, false),
        Kernel::SiluMulHf => do_gate(m, d, true),
        Kernel::MatvecQkvBatch => do_qkv_batch(c, m, d),
        Kernel::RopeQkBatch => do_rope_batch(c, m, d),
        Kernel::AttentionPartialBatch => do_partial_batch(c, m, d),
        Kernel::AttentionReduceBatch => do_reduce_batch(m, d),
        Kernel::SplitQGate => do_split(m, d),
        Kernel::AttnOutGate => do_open(m, d),
        Kernel::DeltaGates => do_delta_gates(m, d),
        Kernel::SsmConvDecode | Kernel::SsmConvPrefill => do_conv(m, d),
        Kernel::SsmConvRoll => do_roll(m, d),
        Kernel::L2NormRows => do_unit(m, d),
        Kernel::DeltaDecodeStep => do_delta(m, d),
        Kernel::GatedOutputNorm => do_out_norm(m, d),
        _ => m,
    }
}

/// What a list of commands leaves behind.
pub open spec fn run(c: Ctx, m: Mem, s: Seq<CmdView>) -> Mem
    decreases s.len(),
{
    if s.len() == 0 {
        m
    } else {
        match s.last() {
            CmdView::Run(d) => step(c, run(c, m, s.drop_last()), d),
            _ => run(c, m, s.drop_last()),
        }
    }
}

pub proof fn lemma_run_push(c: Ctx, m: Mem, s: Seq<CmdView>, x: CmdView)
    ensures
        run(c, m, s.push(x)) == (match x {
            CmdView::Run(d) => step(c, run(c, m, s), d),
            _ => run(c, m, s),
        }),
{
    assert(s.push(x).drop_last() =~= s);
}

// ---------- rows ----------

/// A buffer holds what it held outside `len` numbers.
pub open spec fn leaves_outside(m: Mem, k: Mem, y: Buf, at: int, len: int) -> bool {
    forall|a: int, w: int| 0 <= w && (a + w <= at || at + len <= a) ==> #[trigger] row(k, y, a, w) == row(m, y, a, w)
}

pub proof fn lemma_put(m: Mem, y: Buf, at: int, len: int, f: spec_fn(int) -> Term)
    ensures
        forall|b: Buf, a: int, w: int| b != y ==> #[trigger] row(put(m, y, at, len, f), b, a, w) == row(m, b, a, w),
        leaves_outside(m, put(m, y, at, len, f), y, at, len),
        forall|o: int, w: int|
            0 <= w && 0 <= o && o + w <= len ==> #[trigger] row(put(m, y, at, len, f), y, at + o, w) == Seq::new(
                w as nat,
                |i: int| f(o + i),
            ),
{
    let k = put(m, y, at, len, f);
    assert forall|b: Buf, a: int, w: int| b != y implies #[trigger] row(k, b, a, w) == row(m, b, a, w) by {
        assert(row(k, b, a, w) =~= row(m, b, a, w));
    }
    assert forall|a: int, w: int| 0 <= w && (a + w <= at || at + len <= a) implies #[trigger] row(k, y, a, w) == row(m, y, a, w) by {
        assert(row(k, y, a, w) =~= row(m, y, a, w));
    }
    assert forall|o: int, w: int| 0 <= w && 0 <= o && o + w <= len implies #[trigger] row(k, y, at + o, w) == Seq::new(
        w as nat,
        |i: int| f(o + i),
    ) by {
        assert(row(k, y, at + o, w) =~= Seq::new(w as nat, |i: int| f(o + i)));
    }
}

/// The row and the place of a number.
pub proof fn lemma_place(r: int, w: int, i: int)
    requires
        0 <= i < w,
    ensures
        (r * w + i) / w == r,
        (r * w + i) % w == i,
{
    lemma_fundamental_div_mod_converse(r * w + i, w, r, i);
}

/// A row inside `n` rows.
pub proof fn lemma_inside(r: int, n: int, w: int)
    requires
        0 <= r < n,
        0 <= w,
    ensures
        0 <= r * w,
        r * w + w <= n * w,
{
    assert(0 <= r * w && r * w + w <= n * w) by (nonlinear_arith)
        requires
            0 <= r < n,
            0 <= w,
    ;
}

} // verus!
