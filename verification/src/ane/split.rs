//! Split prefill: the plan by which the Neural Engine runs the first layers of
//! each chunk of a prompt while the GPU runs the other layers of the chunk
//! before it, and the moves of cached rows between their layouts.
use vstd::prelude::*;

use crate::ane::prefill::{chunk, chunk_count, cut_chunks, MIN_CHUNKS};
use crate::num::min;

verus! {

/// A front graph: chunks of `s` rows over a past of `p` rows, through the first
/// `layers` layers. `graph` is its place among the graphs loaded.
#[derive(Debug, Clone, Copy, PartialEq, Eq, Structural)]
pub struct Rung {
    pub graph: usize,
    pub s: usize,
    pub p: usize,
    pub layers: usize,
}

// ---------- the ladder of a stride ----------

/// `v`, which stands by past, with `x` behind those of no longer past.
pub open spec fn insert_by_past(v: Seq<Rung>, x: Rung) -> Seq<Rung>
    decreases v.len(),
{
    if v.len() == 0 || v.last().p <= x.p {
        v.push(x)
    } else {
        insert_by_past(v.drop_last(), x).push(v.last())
    }
}

/// The rungs of stride `s` among the first `k`, by past; equal ones in their
/// first order.
pub open spec fn stride_rungs(front: Seq<Rung>, s: usize, k: nat) -> Seq<Rung>
    decreases k,
{
    if k == 0 {
        Seq::empty()
    } else {
        let before = stride_rungs(front, s, (k - 1) as nat);
        if front[k - 1].s == s {
            insert_by_past(before, front[k - 1])
        } else {
            before
        }
    }
}

/// The rungs among the first `k` with `layers` layers.
pub open spec fn with_layers(v: Seq<Rung>, layers: usize, k: nat) -> Seq<Rung>
    decreases k,
{
    if k == 0 {
        Seq::empty()
    } else {
        let before = with_layers(v, layers, (k - 1) as nat);
        if v[k - 1].layers == layers {
            before.push(v[k - 1])
        } else {
            before
        }
    }
}

/// The ladder of a stride: its rungs by past, of the layer count of the first,
/// so that all chunks agree where the layers are divided.
pub open spec fn ladder(front: Seq<Rung>, s: usize) -> Seq<Rung> {
    let v = stride_rungs(front, s, front.len());
    with_layers(v, v[0].layers, v.len())
}

/// The rows that the ladder of a stride serves of `rows` rows.
pub open spec fn span(front: Seq<Rung>, s: usize, rows: nat) -> int {
    min(rows as int, s + ladder(front, s).last().p)
}

/// A stride of the front graphs that fits the scratch of `room` rows.
pub open spec fn is_stride(front: Seq<Rung>, room: usize, s: usize) -> bool {
    0 < s <= room && exists|i: int| 0 <= i < front.len() && (#[trigger] front[i]).s == s
}

/// The stride cuts the rows into enough chunks for the pipeline to pay.
pub open spec fn pays(front: Seq<Rung>, s: usize, rows: nat) -> bool {
    chunk_count(0, span(front, s, rows), s as int) >= MIN_CHUNKS
}

/// `s` is the widest stride that pays, or the narrowest where none does.
pub open spec fn is_chosen(front: Seq<Rung>, room: usize, rows: nat, s: usize) -> bool {
    &&& is_stride(front, room, s)
    &&& pays(front, s, rows) ==> forall|t: usize| #[trigger]
        is_stride(front, room, t) && pays(front, t, rows) ==> t <= s
    &&& !pays(front, s, rows) ==> forall|t: usize| #[trigger]
        is_stride(front, room, t) ==> !pays(front, t, rows) && s <= t
}

proof fn lemma_insert_past(v: Seq<Rung>, x: Rung)
    ensures
        insert_by_past(v, x).len() == v.len() + 1,
        forall|i: int| 0 <= i <= v.len() ==> (#[trigger] insert_by_past(v, x)[i]) == x || v.contains(
            insert_by_past(v, x)[i],
        ),
        insert_by_past(v, x).last() == x || v.len() > 0,
        sorted_by_past(v) ==> sorted_by_past(insert_by_past(v, x)),
    decreases v.len(),
{
    let r = insert_by_past(v, x);
    if v.len() > 0 && v.last().p > x.p {
        let init = v.drop_last();
        lemma_insert_past(init, x);
        let ri = insert_by_past(init, x);
        assert forall|i: int| 0 <= i <= v.len() implies (#[trigger] r[i]) == x || v.contains(r[i]) by {
            if i < v.len() {
                assert(r[i] == ri[i]);
                if ri[i] != x {
                    let j = choose|j: int| 0 <= j < init.len() && init[j] == ri[i];
                    assert(v[j] == r[i]);
                }
            } else {
                assert(v[v.len() - 1] == r[i]);
            }
        }
        if sorted_by_past(v) {
            assert(sorted_by_past(init));
            assert forall|i: int, j: int| 0 <= i < j < r.len() implies (#[trigger] r[i]).p <= (#[trigger] r[j]).p by {
                assert(r[i] == ri[i]);
                if j < v.len() {
                    assert(r[j] == ri[j]);
                } else if ri[i] != x {
                    let t = choose|t: int| 0 <= t < init.len() && init[t] == ri[i];
                    assert(v[t].p <= v[v.len() - 1].p);
                }
            }
        }
    } else {
        assert forall|i: int| 0 <= i <= v.len() implies (#[trigger] r[i]) == x || v.contains(r[i]) by {
            if i < v.len() {
                assert(v[i] == r[i]);
            }
        }
        if sorted_by_past(v) {
            assert forall|i: int, j: int| 0 <= i < j < r.len() implies (#[trigger] r[i]).p <= (#[trigger] r[j]).p by {
                if j == v.len() && i < v.len() - 1 {
                    assert(v[i].p <= v[v.len() - 1].p);
                }
            }
        }
    }
}

/// The rungs stand by past.
pub open spec fn sorted_by_past(v: Seq<Rung>) -> bool {
    forall|i: int, j: int| 0 <= i < j < v.len() ==> (#[trigger] v[i]).p <= (#[trigger] v[j]).p
}

proof fn lemma_stride_rungs(front: Seq<Rung>, s: usize, k: nat)
    requires
        k <= front.len(),
    ensures
        sorted_by_past(stride_rungs(front, s, k)),
        forall|i: int| 0 <= i < stride_rungs(front, s, k).len() ==> (#[trigger] stride_rungs(front, s, k)[i]).s == s,
        (exists|i: int| 0 <= i < k && (#[trigger] front[i]).s == s) ==> stride_rungs(front, s, k).len() > 0,
    decreases k,
{
    if k > 0 {
        lemma_stride_rungs(front, s, (k - 1) as nat);
        let before = stride_rungs(front, s, (k - 1) as nat);
        if front[k - 1].s == s {
            lemma_insert_past(before, front[k - 1]);
            let r = insert_by_past(before, front[k - 1]);
            assert forall|i: int| 0 <= i < r.len() implies (#[trigger] r[i]).s == s by {
                if r[i] != front[k - 1] {
                    let j = choose|j: int| 0 <= j < before.len() && before[j] == r[i];
                    assert(before[j].s == s);
                }
            }
        } else if exists|i: int| 0 <= i < k && (#[trigger] front[i]).s == s {
            let i = choose|i: int| 0 <= i < k && (#[trigger] front[i]).s == s;
            assert(0 <= i < k - 1 && front[i].s == s);
        }
    }
}

proof fn lemma_with_layers(v: Seq<Rung>, a: usize, k: nat)
    requires
        k <= v.len(),
        sorted_by_past(v),
    ensures
        ({
            let w = with_layers(v, a, k);
            &&& sorted_by_past(w)
            &&& forall|i: int| 0 <= i < w.len() ==> (#[trigger] w[i]).layers == a && v.take(k as int).contains(w[i])
            &&& k > 0 && v[0].layers == a ==> w.len() > 0
        }),
    decreases k,
{
    if k > 0 {
        lemma_with_layers(v, a, (k - 1) as nat);
        let before = with_layers(v, a, (k - 1) as nat);
        let w = with_layers(v, a, k);
        assert forall|i: int| 0 <= i < w.len() implies (#[trigger] w[i]).layers == a && v.take(k as int).contains(
            w[i],
        ) by {
            if i < before.len() {
                assert(before[i] == w[i]);
                let head = v.take(k - 1);
                let j = choose|j: int| 0 <= j < head.len() && head[j] == w[i];
                assert(v.take(k as int)[j] == w[i]);
            } else {
                assert(v.take(k as int)[k - 1] == w[i]);
            }
        }
        assert forall|i: int, j: int| 0 <= i < j < w.len() implies (#[trigger] w[i]).p <= (#[trigger] w[j]).p by {
            assert(w[i] == before[i]);
            if j < before.len() {
                assert(w[j] == before[j]);
            } else {
                let head = v.take(k - 1);
                let t = choose|t: int| 0 <= t < head.len() && head[t] == before[i];
                assert(v[t].p <= v[k - 1].p);
            }
        }
    }
}

/// The ladder of a stride has rungs, all of that stride and one layer count, by
/// past.
pub proof fn lemma_ladder(front: Seq<Rung>, room: usize, s: usize)
    requires
        is_stride(front, room, s),
    ensures
        ladder(front, s).len() > 0,
        sorted_by_past(ladder(front, s)),
        forall|i: int| 0 <= i < ladder(front, s).len() ==> (#[trigger] ladder(front, s)[i]).s == s
            && ladder(front, s)[i].layers == ladder(front, s)[0].layers,
{
    lemma_stride_rungs(front, s, front.len());
    let v = stride_rungs(front, s, front.len());
    lemma_with_layers(v, v[0].layers, v.len());
    assert(v.take(v.len() as int) =~= v);
    assert forall|i: int| 0 <= i < ladder(front, s).len() implies (#[trigger] ladder(front, s)[i]).s == s
        && ladder(front, s)[i].layers == ladder(front, s)[0].layers by {
        let w = ladder(front, s);
        assert(v.contains(w[i]));
        assert(w[0].layers == v[0].layers);
    }
}

fn insert_rung(v: &mut Vec<Rung>, x: Rung)
    ensures
        final(v)@ == insert_by_past(old(v)@, x),
{
    let mut i: usize = v.len();
    while i > 0 && v[i - 1].p > x.p
        invariant
            *v == *old(v),
            i <= v@.len(),
            forall|j: int| i <= j < v@.len() ==> (#[trigger] v@[j]).p > x.p,
        decreases i,
    {
        i = i - 1;
    }
    proof {
        lemma_insert_past_at(v@, x, i as int);
    }
    v.insert(i, x);
}

proof fn lemma_insert_past_at(v: Seq<Rung>, x: Rung, i: int)
    requires
        0 <= i <= v.len(),
        forall|j: int| i <= j < v.len() ==> (#[trigger] v[j]).p > x.p,
        i > 0 ==> v[i - 1].p <= x.p,
    ensures
        insert_by_past(v, x) == v.insert(i, x),
    decreases v.len(),
{
    if i == v.len() {
        assert(v.insert(i, x) =~= v.push(x));
    } else {
        assert(v[v.len() - 1].p > x.p);
        lemma_insert_past_at(v.drop_last(), x, i);
        assert(v.insert(i, x) =~= v.drop_last().insert(i, x).push(v.last()));
    }
}

fn build_ladder(front: &Vec<Rung>, s: usize) -> (r: Vec<Rung>)
    requires
        exists|room: usize| is_stride(front@, room, s),
    ensures
        r@ == ladder(front@, s),
{
    let mut v: Vec<Rung> = Vec::new();
    let mut i: usize = 0;
    while i < front.len()
        invariant
            i <= front@.len(),
            v@ == stride_rungs(front@, s, i as nat),
        decreases front.len() - i,
    {
        if front[i].s == s {
            insert_rung(&mut v, front[i]);
        }
        i = i + 1;
    }
    proof {
        lemma_stride_rungs(front@, s, front@.len());
    }
    let a: usize = v[0].layers;
    let mut w: Vec<Rung> = Vec::new();
    let mut k: usize = 0;
    while k < v.len()
        invariant
            k <= v@.len(),
            w@ == with_layers(v@, a, k as nat),
        decreases v.len() - k,
    {
        if v[k].layers == a {
            w.push(v[k]);
        }
        k = k + 1;
    }
    w
}

// ---------- the plan ----------

/// A chunk: its first row, its length, and the rung that runs it.
#[derive(Debug, Clone, Copy, PartialEq, Eq, Structural)]
pub struct Chunk {
    pub pos: usize,
    pub n: usize,
    pub rung: usize,
}

/// The plan of a split prefill.
pub struct SplitPlan {
    /// Rows per chunk.
    pub s: usize,
    /// The layers that the Neural Engine runs.
    pub layers: usize,
    /// The longest past of a rung.
    pub p_max: usize,
    /// The rows that are split; the rest goes to the GPU.
    pub span: usize,
    pub rungs: Vec<Rung>,
    pub chunks: Vec<Chunk>,
}

/// The rung for a chunk at `pos`: the first from `i` on whose past holds
/// everything before it, else the last.
pub open spec fn rung_for(rungs: Seq<Rung>, pos: int, i: int) -> int
    decreases rungs.len() - i,
{
    if i < 0 || i >= rungs.len() - 1 || rungs[i].p >= pos {
        i
    } else {
        rung_for(rungs, pos, i + 1)
    }
}

impl SplitPlan {
    /// The plan for `rows` rows over the front graphs, with a scratch of `room`
    /// rows per chunk.
    pub open spec fn is_for(&self, front: Seq<Rung>, room: usize, rows: nat) -> bool {
        &&& is_chosen(front, room, rows, self.s)
        &&& self.rungs@ == ladder(front, self.s)
        &&& self.layers == self.rungs@[0].layers
        &&& self.p_max == self.rungs@.last().p
        &&& self.span == span(front, self.s, rows)
        &&& self.chunks@.len() == chunk_count(0, self.span as int, self.s as int)
        &&& forall|i: int| 0 <= i < self.chunks@.len() ==> ({
            let c = #[trigger] self.chunks@[i];
            &&& (c.pos as int, c.n as int) == chunk(0, self.span as int, self.s as int, i)
            &&& c.rung == rung_for(self.rungs@, c.pos as int, 0)
        })
    }
}

fn find_rung(rungs: &Vec<Rung>, pos: usize) -> (r: usize)
    requires
        rungs@.len() > 0,
    ensures
        r == rung_for(rungs@, pos as int, 0),
        r < rungs@.len(),
{
    let mut i: usize = 0;
    while i < rungs.len() - 1 && rungs[i].p < pos
        invariant
            rungs@.len() > 0,
            i <= rungs@.len() - 1,
            rung_for(rungs@, pos as int, 0) == rung_for(rungs@, pos as int, i as int),
        decreases rungs.len() - i,
    {
        i = i + 1;
    }
    i
}

/// Whether the stride pays.
fn stride_pays(front: &Vec<Rung>, s: usize, rows: usize, Ghost(room): Ghost<usize>) -> (r: bool)
    requires
        is_stride(front@, room, s),
    ensures
        r == pays(front@, s, rows as nat),
{
    let rungs = build_ladder(front, s);
    proof {
        lemma_ladder(front@, room, s);
    }
    let reach: usize = s.saturating_add(rungs[rungs.len() - 1].p);
    let sp: usize = if rows <= reach { rows } else { reach };
    proof {
        assert(sp == span(front@, s, rows as nat));
        let (d, q) = (sp as int, s as int);
        vstd::arithmetic::div_mod::lemma_fundamental_div_mod(d, q);
        let (a, b) = (d / q, d % q);
        assert(a * q == q * a) by (nonlinear_arith);
        if b == 0 {
            vstd::arithmetic::div_mod::lemma_fundamental_div_mod_converse(d + q - 1, q, a, q - 1);
        } else {
            assert((a + 1) * q == a * q + q) by (nonlinear_arith);
            vstd::arithmetic::div_mod::lemma_fundamental_div_mod_converse(d + q - 1, q, a + 1, b - 1);
        }
    }
    let whole: usize = sp / s;
    if sp % s == 0 {
        whole >= MIN_CHUNKS
    } else {
        whole >= MIN_CHUNKS - 1
    }
}

/// Chooses the stride.
fn choose_stride(front: &Vec<Rung>, room: usize, rows: usize) -> (r: Option<usize>)
    ensures
        match r {
            Some(s) => is_chosen(front@, room, rows as nat, s),
            None => forall|t: usize| !is_stride(front@, room, t),
        },
{
    let mut best: Option<usize> = None;
    let mut least: Option<usize> = None;
    let mut i: usize = 0;
    while i < front.len()
        invariant
            i <= front@.len(),
            match best {
                Some(b) => is_stride(front@, room, b) && pays(front@, b, rows as nat) && forall|j: int|
                    0 <= j < i && 0 < (#[trigger] front@[j]).s <= room && pays(front@, front@[j].s, rows as nat)
                        ==> front@[j].s <= b,
                None => forall|j: int|
                    0 <= j < i && 0 < (#[trigger] front@[j]).s <= room ==> !pays(front@, front@[j].s, rows as nat),
            },
            match least {
                Some(b) => is_stride(front@, room, b) && forall|j: int|
                    0 <= j < i && 0 < (#[trigger] front@[j]).s <= room ==> b <= front@[j].s,
                None => forall|j: int| 0 <= j < i ==> !(0 < (#[trigger] front@[j]).s <= room),
            },
        decreases front.len() - i,
    {
        let s: usize = front[i].s;
        if s > 0 && s <= room {
            assert(is_stride(front@, room, s));
            if stride_pays(front, s, rows, Ghost(room)) {
                match best {
                    Some(b) => if s > b {
                        best = Some(s);
                    },
                    None => {
                        best = Some(s);
                    },
                }
            }
            match least {
                Some(b) => if s < b {
                    least = Some(s);
                },
                None => {
                    least = Some(s);
                },
            }
        }
        i = i + 1;
    }
    match best {
        Some(b) => Some(b),
        None => least,
    }
}

/// Plans a split prefill of `rows` rows. `None` where no front graph fits the
/// scratch; nothing has been touched then.
pub fn plan_split(front: &Vec<Rung>, room: usize, rows: usize) -> (r: Option<SplitPlan>)
    ensures
        match r {
            Some(plan) => plan.is_for(front@, room, rows as nat),
            None => forall|t: usize| !is_stride(front@, room, t),
        },
{
    let s: usize = match choose_stride(front, room, rows) {
        None => return None,
        Some(s) => s,
    };
    let rungs = build_ladder(front, s);
    proof {
        lemma_ladder(front@, room, s);
    }
    let p_max: usize = rungs[rungs.len() - 1].p;
    let layers: usize = rungs[0].layers;
    let reach: usize = s.saturating_add(p_max);
    let sp: usize = if rows <= reach { rows } else { reach };
    let cuts = cut_chunks(0, sp, s);
    let mut chunks: Vec<Chunk> = Vec::new();
    let mut i: usize = 0;
    while i < cuts.len()
        invariant
            i <= cuts@.len(),
            rungs@.len() > 0,
            chunks@.len() == i,
            forall|j: int| 0 <= j < cuts@.len() ==> ({
                let (pos, n) = #[trigger] cuts@[j];
                (pos as int, n as int) == chunk(0, sp as int, s as int, j)
            }),
            forall|j: int| 0 <= j < i ==> ({
                let c = #[trigger] chunks@[j];
                &&& (c.pos as int, c.n as int) == chunk(0, sp as int, s as int, j)
                &&& c.rung == rung_for(rungs@, c.pos as int, 0)
            }),
        decreases cuts.len() - i,
    {
        let (pos, n) = cuts[i];
        assert(cuts@[i as int] == (pos, n));
        let rung: usize = find_rung(&rungs, pos);
        chunks.push(Chunk { pos, n, rung });
        i = i + 1;
    }
    Some(SplitPlan { s, layers, p_max, span: sp, rungs, chunks })
}

/// Where the longest past is a whole number of strides, the rung of every chunk
/// holds everything before the chunk.
pub proof fn lemma_rung_holds_the_past(front: Seq<Rung>, room: usize, rows: nat, plan: SplitPlan, i: int)
    requires
        plan.is_for(front, room, rows),
        plan.p_max as int % plan.s as int == 0,
        0 <= i < plan.chunks@.len(),
    ensures
        plan.rungs@[plan.chunks@[i].rung as int].p >= plan.chunks@[i].pos,
{
    lemma_ladder(front, room, plan.s);
    let (s, p) = (plan.s as int, plan.p_max as int);
    let c = plan.chunks@[i];
    crate::ane::prefill::lemma_chunks_cover(0, plan.span as int, s, i);
    assert(c.pos == i * s);
    vstd::arithmetic::div_mod::lemma_fundamental_div_mod(p, s);
    let k = p / s;
    assert(i <= k) by (nonlinear_arith)
        requires
            p == s * k,
            i * s < s + p,
            s > 0,
    ;
    assert(i * s <= p) by (nonlinear_arith)
        requires
            p == s * k,
            i <= k,
            s > 0,
    ;
    lemma_rung_for(plan.rungs@, c.pos as int, 0);
}

proof fn lemma_rung_for(rungs: Seq<Rung>, pos: int, i: int)
    requires
        0 <= i < rungs.len(),
        rungs.last().p >= pos,
    ensures
        i <= rung_for(rungs, pos, i) < rungs.len(),
        rungs[rung_for(rungs, pos, i)].p >= pos,
    decreases rungs.len() - i,
{
    if i < rungs.len() - 1 && rungs[i].p < pos {
        lemma_rung_for(rungs, pos, i + 1);
    }
}

} // verus!
