//! How a prompt is divided between the Neural Engine and the GPU: which path it
//! takes, which graph serves it, how it is cut into chunks, and how the cached
//! rows of a chunk are moved.
use vstd::prelude::*;

use crate::num::min;

verus! {

/// Below this many tokens the GPU is faster than the smallest graph.
pub const ANE_MIN: usize = 64;

/// The pipeline pays from this many chunks on.
pub const MIN_CHUNKS: usize = 3;

/// The positions that the Neural Engine may serve: all but the last, and with an
/// attention window of `w` none from `w` on, where its full attention would
/// differ.
pub open spec fn wanted(prompt: nat, window: Option<usize>) -> int {
    let head = if prompt == 0 { 0int } else { prompt - 1 };
    match window {
        Some(w) => min(head, w as int),
        None => head,
    }
}

fn wanted_rows(prompt: usize, window: Option<usize>) -> (r: usize)
    ensures
        r == wanted(prompt as nat, window),
{
    let head: usize = if prompt == 0 { 0 } else { prompt - 1 };
    match window {
        Some(w) => if head <= w { head } else { w },
        None => head,
    }
}

/// The first decision on a prompt.
#[derive(Debug, Clone, Copy, PartialEq, Eq, Structural)]
pub enum FirstRoute {
    /// Too short for the Neural Engine.
    Metal,
    /// Both devices work on it.
    Split,
    /// One graph, or none.
    Plain,
}

/// Decides how a prompt starts: short ones go to the GPU, and a ladder of front
/// graphs is tried before anything else.
pub fn first_route(prompt: usize, ladder: bool) -> (r: FirstRoute)
    ensures
        r == (if prompt < ANE_MIN {
            FirstRoute::Metal
        } else if ladder {
            FirstRoute::Split
        } else {
            FirstRoute::Plain
        }),
{
    if prompt < ANE_MIN {
        FirstRoute::Metal
    } else if ladder {
        FirstRoute::Split
    } else {
        FirstRoute::Plain
    }
}

// ---------- one graph ----------

/// The first graph from `i` on that holds `want` rows.
pub open spec fn fits(seqs: Seq<usize>, want: int, i: int) -> Option<int>
    decreases seqs.len() - i,
{
    if i < 0 || i >= seqs.len() {
        None
    } else if seqs[i] >= want {
        Some(i)
    } else {
        fits(seqs, want, i + 1)
    }
}

/// The last graph before `k` that `want` rows fill.
pub open spec fn filled(seqs: Seq<usize>, want: int, k: int) -> Option<int>
    decreases k,
{
    if k <= 0 {
        None
    } else if seqs[k - 1] <= want {
        Some(k - 1)
    } else {
        filled(seqs, want, k - 1)
    }
}

/// The graph for `want` rows: the first that holds them, unless they fill less
/// than half of it and a smaller one can be filled.
pub open spec fn pick(seqs: Seq<usize>, want: int) -> Option<int> {
    match (fits(seqs, want, 0), filled(seqs, want, seqs.len() as int)) {
        (Some(f), Some(u)) => if seqs[f] != seqs[u] && want * 2 < seqs[f] { Some(u) } else { Some(f) },
        (Some(f), None) => Some(f),
        (None, u) => u,
    }
}

proof fn lemma_fits_skip(seqs: Seq<usize>, want: int, k: int)
    requires
        0 <= k <= seqs.len(),
        forall|j: int| 0 <= j < k ==> (#[trigger] seqs[j]) < want,
    ensures
        fits(seqs, want, 0) == fits(seqs, want, k),
    decreases k,
{
    if k > 0 {
        lemma_fits_skip(seqs, want, k - 1);
        assert(seqs[k - 1] < want);
    }
}

/// Picks the graph for a prompt of `want` rows, by index. `None` only where
/// there is no graph.
pub fn pick_graph(seqs: &Vec<usize>, want: usize) -> (r: Option<usize>)
    ensures
        match r {
            Some(i) => pick(seqs@, want as int) == Some(i as int) && i < seqs@.len(),
            None => pick(seqs@, want as int) is None,
        },
{
    let mut f: Option<usize> = None;
    let mut i: usize = 0;
    while i < seqs.len() && f.is_none()
        invariant
            i <= seqs@.len(),
            match f {
                Some(x) => x < seqs@.len() && fits(seqs@, want as int, 0) == Some(x as int),
                None => forall|j: int| 0 <= j < i ==> (#[trigger] seqs@[j]) < want,
            },
        decreases seqs.len() - i + (if f is None { 1int } else { 0int }),
    {
        if seqs[i] >= want {
            proof {
                lemma_fits_skip(seqs@, want as int, i as int);
            }
            f = Some(i);
        }
        i = i + 1;
    }
    proof {
        if f is None {
            lemma_fits_skip(seqs@, want as int, seqs@.len() as int);
        }
    }
    let mut u: Option<usize> = None;
    let mut k: usize = seqs.len();
    while k > 0 && u.is_none()
        invariant
            k <= seqs@.len(),
            match u {
                Some(x) => x < seqs@.len() && filled(seqs@, want as int, seqs@.len() as int) == Some(x as int),
                None => filled(seqs@, want as int, seqs@.len() as int) == filled(seqs@, want as int, k as int),
            },
        decreases k + (if u is None { 1int } else { 0int }),
    {
        if seqs[k - 1] <= want {
            u = Some(k - 1);
        }
        k = k - 1;
    }
    match (f, u) {
        (Some(a), Some(b)) => {
            if seqs[a] != seqs[b] && (want as u128) * 2 < seqs[a] as u128 {
                Some(b)
            } else {
                Some(a)
            }
        },
        (Some(a), None) => Some(a),
        (None, u) => u,
    }
}

/// Where there is a graph one is picked: the first that holds the rows, or the
/// last that the rows fill.
pub proof fn lemma_picked_graph(seqs: Seq<usize>, want: int)
    requires
        seqs.len() > 0,
    ensures
        pick(seqs, want) matches Some(i) && 0 <= i < seqs.len() && {
            ||| seqs[i] >= want && forall|j: int| 0 <= j < i ==> (#[trigger] seqs[j]) < want
            ||| seqs[i] <= want && forall|j: int| i < j < seqs.len() ==> (#[trigger] seqs[j]) > want
        },
{
    lemma_fits_range(seqs, want, 0);
    lemma_filled_range(seqs, want, seqs.len() as int);
    if fits(seqs, want, 0) is None {
        assert(seqs[seqs.len() - 1] < want);
    }
}

proof fn lemma_fits_range(seqs: Seq<usize>, want: int, i: int)
    requires
        0 <= i,
    ensures
        match fits(seqs, want, i) {
            Some(x) => i <= x < seqs.len() && seqs[x] >= want && forall|j: int|
                i <= j < x ==> (#[trigger] seqs[j]) < want,
            None => forall|j: int| i <= j < seqs.len() ==> (#[trigger] seqs[j]) < want,
        },
    decreases seqs.len() - i,
{
    if i < seqs.len() && seqs[i] < want {
        lemma_fits_range(seqs, want, i + 1);
    }
}

proof fn lemma_filled_range(seqs: Seq<usize>, want: int, k: int)
    requires
        0 <= k <= seqs.len(),
    ensures
        match filled(seqs, want, k) {
            Some(x) => 0 <= x < k && seqs[x] <= want && forall|j: int|
                x < j < k ==> (#[trigger] seqs[j]) > want,
            None => forall|j: int| 0 <= j < k ==> (#[trigger] seqs[j]) > want,
        },
    decreases k,
{
    if k > 0 && seqs[k - 1] > want {
        lemma_filled_range(seqs, want, k - 1);
    }
}

/// The rows of a prompt that both devices may work on: all of them, and with an
/// attention window of `w` none from `w` on.
pub fn splittable(prompt: usize, window: Option<usize>) -> (r: usize)
    ensures
        r == (match window { Some(w) => min(prompt as int, w as int), None => prompt as int }),
{
    match window {
        Some(w) => if prompt <= w { prompt } else { w },
        None => prompt,
    }
}

/// Where a prompt goes that is not split.
#[derive(Debug, Clone, Copy, PartialEq, Eq, Structural)]
pub enum PlainRoute {
    /// The whole prompt on the GPU.
    Metal,
    /// The longest graph, then chunks through the windowed graph, on `rows`
    /// rows.
    Chunked { rows: usize },
    /// The first `rows` rows through one graph, the rest on the GPU.
    Graph { index: usize, rows: usize },
}

/// Where a prompt goes that is not split: past the longest graph through the
/// windowed one where it is loaded; past twice the shortest graph, or without
/// graphs, to the GPU; else through the graph that is picked for it.
pub open spec fn plain_route_of(
    want: int,
    seqs: Seq<usize>,
    windowed: Option<(usize, usize)>,
) -> PlainRoute {
    if seqs.len() == 0 {
        PlainRoute::Metal
    } else if want > seqs.last() && windowed is Some && windowed->Some_0.0 > 0 {
        PlainRoute::Chunked { rows: min(want, windowed->Some_0.0 + windowed->Some_0.1) as usize }
    } else if want > 2 * seqs[0] {
        PlainRoute::Metal
    } else {
        let i = pick(seqs, want)->Some_0;
        PlainRoute::Graph { index: i as usize, rows: min(want, seqs[i] as int) as usize }
    }
}

/// Routes a prompt that is not split, given the lengths of the plain graphs in
/// ascending order and the shape of the windowed graph.
pub fn plain_route(
    prompt: usize,
    window: Option<usize>,
    seqs: &Vec<usize>,
    windowed: Option<(usize, usize)>,
) -> (r: PlainRoute)
    ensures
        r == plain_route_of(wanted(prompt as nat, window), seqs@, windowed),
{
    let want: usize = wanted_rows(prompt, window);
    let n: usize = seqs.len();
    if n == 0 {
        return PlainRoute::Metal;
    }
    if want > seqs[n - 1] {
        if let Some((s, p)) = windowed {
            if s > 0 {
                let reach: usize = s.saturating_add(p);
                return PlainRoute::Chunked { rows: if want <= reach { want } else { reach } };
            }
        }
    }
    if want as u128 > 2 * (seqs[0] as u128) {
        return PlainRoute::Metal;
    }
    proof {
        lemma_picked_graph(seqs@, want as int);
    }
    match pick_graph(seqs, want) {
        None => PlainRoute::Metal,
        Some(i) => PlainRoute::Graph { index: i, rows: if want <= seqs[i] { want } else { seqs[i] } },
    }
}

// ---------- chunks ----------

/// How many chunks of `s` rows the rows from `from` to `to` make.
pub open spec fn chunk_count(from: int, to: int, s: int) -> int {
    (to - from + s - 1) / s
}

/// Chunk `i`: its first row and its length.
pub open spec fn chunk(from: int, to: int, s: int, i: int) -> (int, int) {
    (from + i * s, min(to - (from + i * s), s))
}

/// Cuts the rows from `from` to `to` into chunks of `s` rows, the last of which
/// may be shorter.
pub fn cut_chunks(from: usize, to: usize, s: usize) -> (r: Vec<(usize, usize)>)
    requires
        from <= to,
        s > 0,
    ensures
        r@.len() == chunk_count(from as int, to as int, s as int),
        forall|i: int| 0 <= i < r@.len() ==> ({
            let (pos, n) = #[trigger] r@[i];
            (pos as int, n as int) == chunk(from as int, to as int, s as int, i)
        }),
{
    let mut out: Vec<(usize, usize)> = Vec::new();
    let mut pos: usize = from;
    assert(0 * s as int == 0) by (nonlinear_arith);
    while pos < to
        invariant
            from <= pos <= to,
            s > 0,
            out@.len() * s + from == pos || (pos == to && out@.len() > 0 && (out@.len() - 1) * s + from < to
                && out@.len() * s + from > to),
            forall|i: int| 0 <= i < out@.len() ==> ({
                let (p, n) = #[trigger] out@[i];
                (p as int, n as int) == chunk(from as int, to as int, s as int, i)
            }),
            out@.len() > 0 ==> (out@.len() - 1) * s + from < to,
        decreases to - pos,
    {
        let n: usize = if to - pos <= s { to - pos } else { s };
        let ghost k = out@.len() as int;
        assert((k + 1) * s == k * s + s) by (nonlinear_arith);
        out.push((pos, n));
        pos = pos + n;
    }
    proof {
        let (k, d, q) = (out@.len() as int, to - from, s as int);
        if k == 0 {
            assert(d == 0);
            assert((d + q - 1) / q == 0) by (nonlinear_arith)
                requires
                    d == 0,
                    q > 0,
            ;
        } else {
            assert((k - 1) * q == k * q - q) by (nonlinear_arith);
            assert(k * q >= d && k * q < d + q);
            vstd::arithmetic::div_mod::lemma_fundamental_div_mod_converse(d + q - 1, q, k, d + q - 1 - k * q);
        }
    }
    out
}

/// The chunks follow on each other without a gap, and cover all rows.
pub proof fn lemma_chunks_cover(from: int, to: int, s: int, i: int)
    requires
        from <= to,
        s > 0,
        0 <= i < chunk_count(from, to, s),
    ensures
        ({
            let (pos, n) = chunk(from, to, s, i);
            &&& from <= pos
            &&& 0 < n <= s
            &&& pos + n <= to
            &&& i == 0 ==> pos == from
            &&& i + 1 < chunk_count(from, to, s) ==> chunk(from, to, s, i + 1).0 == pos + n
            &&& i + 1 == chunk_count(from, to, s) ==> pos + n == to
        }),
{
    let d = to - from;
    let k = chunk_count(from, to, s);
    vstd::arithmetic::div_mod::lemma_fundamental_div_mod(d + s - 1, s);
    let m = (d + s - 1) % s;
    assert(k * s == s * k) by (nonlinear_arith);
    assert(i * s >= 0) by (nonlinear_arith)
        requires
            i >= 0,
            s > 0,
    ;
    assert((i + 1) * s == i * s + s) by (nonlinear_arith);
    if i + 1 < k {
        assert((i + 1) * s <= (k - 1) * s) by (nonlinear_arith)
            requires
                i + 1 <= k - 1,
                s > 0,
        ;
        assert((k - 1) * s == k * s - s) by (nonlinear_arith);
    } else {
        assert((i + 1) * s == k * s);
    }
    assert(0 * s == 0) by (nonlinear_arith);
}

/// Divides `rows` rows between the longest plain graph, of `seq` rows, and
/// chunks of `s` rows through the windowed graph: the rows of the head, and the
/// chunks behind it.
pub fn plan_chunked(rows: usize, seq: usize, s: usize) -> (r: (usize, Vec<(usize, usize)>))
    requires
        s > 0,
    ensures
        r.0 == min(rows as int, seq as int),
        r.1@.len() == chunk_count(r.0 as int, rows as int, s as int),
        forall|i: int| 0 <= i < r.1@.len() ==> ({
            let (pos, n) = #[trigger] r.1@[i];
            (pos as int, n as int) == chunk(r.0 as int, rows as int, s as int, i)
        }),
{
    let head: usize = if rows <= seq { rows } else { seq };
    (head, cut_chunks(head, rows, s))
}

// ---------- what a graph is fed ----------

/// The inputs of one chunk that are no tables: the ids, padded with zeros to the
/// graph's length, and which rows of the past hold something. A graph without a
/// past takes no validity.
pub struct ChunkInputs {
    pub ids: Vec<u32>,
    pub valid: Vec<bool>,
}

/// Prepares the inputs of a chunk at `pos0` for a graph of `s` rows over a past
/// of `p` rows.
pub fn chunk_inputs(ids: &[u32], pos0: usize, s: usize, p: usize) -> (r: ChunkInputs)
    ensures
        r.ids@ == Seq::new(s as nat, |i: int| if i < ids@.len() { ids@[i] } else { 0u32 }),
        r.valid@ == Seq::new(p as nat, |i: int| i < pos0),
{
    let mut padded: Vec<u32> = Vec::new();
    let mut i: usize = 0;
    while i < s
        invariant
            i <= s,
            padded@.len() == i,
            forall|j: int| 0 <= j < i ==> #[trigger] padded@[j] == (if j < ids@.len() { ids@[j] } else { 0u32 }),
        decreases s - i,
    {
        padded.push(if i < ids.len() { ids[i] } else { 0 });
        i = i + 1;
    }
    let mut valid: Vec<bool> = Vec::new();
    let mut k: usize = 0;
    while k < p
        invariant
            k <= p,
            valid@.len() == k,
            forall|j: int| 0 <= j < k ==> #[trigger] valid@[j] == (j < pos0),
        decreases p - k,
    {
        valid.push(k < pos0);
        k = k + 1;
    }
    assert(padded@ =~= Seq::new(s as nat, |i: int| if i < ids@.len() { ids@[i] } else { 0u32 }));
    assert(valid@ =~= Seq::new(p as nat, |i: int| i < pos0));
    ChunkInputs { ids: padded, valid }
}

} // verus!
