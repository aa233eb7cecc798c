//! The sliding-window cache: a few pinned positions and a ring. Which slot a
//! position has, and which slots a run of positions is written to.
use vstd::prelude::*;
use vstd::string::*;

use crate::text::{dec, push_dec};
use crate::num::min;

verus! {

/// Most tokens processed together during prefill.
pub const PREFILL_CHUNK: usize = 512;

/// The layout of a windowed cache: the first `sink` positions keep their slots;
/// the others go round a ring of `ring` slots that starts at `sink_pad`.
#[derive(Debug, Clone, Copy, PartialEq, Eq, Structural)]
pub struct WindowCfg {
    pub w: usize,
    pub sink: usize,
    pub sink_pad: usize,
    pub ring: usize,
    pub cap: usize,
}

/// The smallest multiple of 128 from `x` on.
pub open spec fn pad128(x: int) -> int {
    (x + 127) / 128 * 128
}

/// A window of `w` positions with `sink` pinned ones: both parts are padded to
/// 128 slots, and the ring has room for a whole prefill chunk beside the window.
pub open spec fn is_window(c: WindowCfg, w: usize, sink: usize) -> bool {
    &&& c.w == w
    &&& c.sink == sink
    &&& c.sink_pad == pad128(sink as int)
    &&& c.ring == pad128(w + PREFILL_CHUNK)
    &&& c.cap == c.sink_pad + c.ring
}

impl WindowCfg {
    /// The invariant of a window: the pinned positions fit before the ring, and
    /// the ring holds the window and a chunk.
    pub open spec fn ok(self) -> bool {
        &&& self.sink <= self.sink_pad
        &&& self.sink <= self.w
        &&& 0 < self.w
        &&& self.w + PREFILL_CHUNK <= self.ring
        &&& self.cap == self.sink_pad + self.ring
        &&& self.sink_pad % 128 == 0
        &&& self.ring % 128 == 0
    }

    /// The slot of position `p`.
    pub open spec fn slot(self, p: int) -> int {
        if p < self.sink {
            p
        } else {
            self.sink_pad + (p - self.sink) % self.ring as int
        }
    }

    /// The slot of position `p`.
    pub fn slot_of(&self, p: usize) -> (r: usize)
        requires
            self.ok(),
        ensures
            r == self.slot(p as int),
            r < self.cap,
    {
        if p < self.sink {
            p
        } else {
            self.sink_pad + (p - self.sink) % self.ring
        }
    }
}

/// A window is refused where it is empty, where it does not hold its pinned
/// positions, and where its slots cannot be counted.
pub open spec fn window_refused(w: usize, sink: usize) -> bool {
    w == 0 || sink > w || pad128(sink as int) + pad128(w + PREFILL_CHUNK) > usize::MAX
}

/// Lays out a windowed cache.
pub fn window_cfg(w: usize, sink: usize) -> (r: Result<WindowCfg, String>)
    ensures
        match r {
            Ok(c) => !window_refused(w, sink) && is_window(c, w, sink) && c.ok(),
            Err(e) => window_refused(w, sink) && e@ == "invalid window config: window "@ + dec(w as nat)
                + ", sink "@ + dec(sink as nat),
        },
{
    if w > 0 && sink <= w {
        let sink_pad: u128 = (sink as u128 + 127) / 128 * 128;
        let ring: u128 = (w as u128 + PREFILL_CHUNK as u128 + 127) / 128 * 128;
        if sink_pad + ring <= usize::MAX as u128 {
            return Ok(
                WindowCfg {
                    w,
                    sink,
                    sink_pad: sink_pad as usize,
                    ring: ring as usize,
                    cap: (sink_pad + ring) as usize,
                },
            );
        }
    }
    let mut e = "invalid window config: window ".to_owned();
    push_dec(&mut e, w as u64);
    e.append(", sink ");
    push_dec(&mut e, sink as u64);
    Err(e)
}

// ---------- writing a run of positions ----------

/// A span of rows that goes to consecutive slots.
#[derive(Debug, Clone, Copy, PartialEq, Eq, Structural)]
pub struct Span {
    /// The first row, counted from the start of the run.
    pub row: usize,
    /// The first slot.
    pub slot: usize,
    pub len: usize,
}

/// The spans of the positions from `p` to `end` that go round the ring, cut
/// where the ring wraps; rows are counted from `pos0`.
pub open spec fn ring_spans(c: WindowCfg, pos0: int, p: int, end: int) -> Seq<Span>
    decreases end - p,
{
    if p >= end || c.ring == 0 || p < c.sink {
        Seq::empty()
    } else {
        let rel = (p - c.sink) % c.ring as int;
        let len = min(c.ring - rel, end - p);
        seq![
            Span { row: (p - pos0) as usize, slot: (c.sink_pad + rel) as usize, len: len as usize },
        ] + ring_spans(c, pos0, p + len, end)
    }
}

/// The spans of `n` positions from `pos0` on: first the pinned ones.
pub open spec fn write_spans(c: WindowCfg, pos0: int, n: int) -> Seq<Span> {
    let end = pos0 + n;
    let pinned = if pos0 < c.sink {
        seq![Span { row: 0, slot: pos0 as usize, len: (min(c.sink as int, end) - pos0) as usize }]
    } else {
        Seq::empty()
    };
    pinned + ring_spans(c, pos0, if pos0 < c.sink { c.sink as int } else { pos0 }, end)
}

/// The spans to which `n` positions from `pos0` on are written.
pub fn win_write_spans(win: &WindowCfg, pos0: usize, n: usize) -> (r: Vec<Span>)
    requires
        win.ok(),
        pos0 + n <= usize::MAX,
    ensures
        r@ == write_spans(*win, pos0 as int, n as int),
{
    let end: usize = pos0 + n;
    let mut spans: Vec<Span> = Vec::new();
    if pos0 < win.sink {
        spans.push(Span { row: 0, slot: pos0, len: if win.sink <= end { win.sink - pos0 } else { end - pos0 } });
    }
    let ghost pinned = spans@;
    let mut p: usize = if pos0 < win.sink { win.sink } else { pos0 };
    let ghost p0 = p as int;
    assert(spans@ + ring_spans(*win, pos0 as int, p0, end as int) =~= write_spans(*win, pos0 as int, n as int));
    while p < end
        invariant
            win.ok(),
            end == pos0 + n,
            pos0 <= p,
            win.sink <= p,
            spans@ + ring_spans(*win, pos0 as int, p as int, end as int) == write_spans(*win, pos0 as int, n as int),
        decreases end - p,
    {
        let rel: usize = (p - win.sink) % win.ring;
        let len: usize = if win.ring - rel <= end - p { win.ring - rel } else { end - p };
        let ghost before = spans@;
        let ghost rest = ring_spans(*win, pos0 as int, p + len, end as int);
        let span = Span { row: p - pos0, slot: win.sink_pad + rel, len };
        spans.push(span);
        assert(before + (seq![span] + rest) =~= before.push(span) + rest);
        p = p + len;
    }
    assert(spans@ + Seq::<Span>::empty() =~= spans@);
    spans
}

// ---------- what the layout promises ----------

/// Every slot of a position is inside the cache.
pub proof fn lemma_slot_in_cache(c: WindowCfg, p: int)
    requires
        c.ok(),
        0 <= p,
    ensures
        0 <= c.slot(p) < c.cap,
{
}

/// Two positions that are less than a ring apart have different slots.
pub proof fn lemma_slots_distinct(c: WindowCfg, p: int, q: int)
    requires
        c.ok(),
        0 <= p < q,
        q - p < c.ring,
    ensures
        c.slot(p) != c.slot(q),
{
    if p >= c.sink {
        let (a, b, r) = (p - c.sink, q - c.sink, c.ring as int);
        if a % r == b % r {
            vstd::arithmetic::div_mod::lemma_fundamental_div_mod(a, r);
            vstd::arithmetic::div_mod::lemma_fundamental_div_mod(b, r);
            let (x, y) = (a / r, b / r);
            assert(r * (y - x) == b - a) by (nonlinear_arith)
                requires
                    a == r * x + a % r,
                    b == r * y + b % r,
                    a % r == b % r,
            ;
            assert(false) by (nonlinear_arith)
                requires
                    r * (y - x) == b - a,
                    0 < b - a < r,
            ;
        }
    }
}

/// Writing a chunk of at most `PREFILL_CHUNK` positions from `pos0` on touches
/// none of the pinned positions before it and none of the last `w` positions.
pub proof fn lemma_chunk_spares_the_window(c: WindowCfg, pos0: int, p: int, q: int)
    requires
        c.ok(),
        0 <= p < pos0 <= q < pos0 + PREFILL_CHUNK,
        p < c.sink || pos0 - p <= c.w,
    ensures
        c.slot(p) != c.slot(q),
{
    if p < c.sink {
    } else {
        lemma_slots_distinct(c, p, q);
    }
}

/// The rows from `row` on are cut without a gap up to `n` rows, and each row of
/// a span goes to the slot of its position.
pub open spec fn spans_fit(c: WindowCfg, spans: Seq<Span>, pos0: int, row: int, n: int) -> bool
    decreases spans.len(),
{
    if spans.len() == 0 {
        row == n
    } else {
        let s = spans[0];
        &&& s.row == row
        &&& s.len > 0
        &&& forall|t: int| 0 <= t < s.len ==> s.slot + t == #[trigger] c.slot(pos0 + row + t)
        &&& spans_fit(c, spans.drop_first(), pos0, row + s.len, n)
    }
}

proof fn lemma_ring_spans_fit(c: WindowCfg, pos0: int, p: int, end: int)
    requires
        c.ok(),
        0 <= pos0 <= p <= end <= usize::MAX,
        c.sink <= p,
    ensures
        spans_fit(c, ring_spans(c, pos0, p, end), pos0, p - pos0, end - pos0),
        end - p <= c.ring ==> ring_spans(c, pos0, p, end).len() <= 2,
    decreases end - p,
{
    if p < end {
        let r = c.ring as int;
        let rel = (p - c.sink) % r;
        let len = min(r - rel, end - p);
        lemma_ring_spans_fit(c, pos0, p + len, end);
        let spans = ring_spans(c, pos0, p, end);
        let rest = ring_spans(c, pos0, p + len, end);
        assert(spans.drop_first() =~= rest);
        assert forall|t: int| 0 <= t < len implies spans[0].slot + t == #[trigger] c.slot(pos0 + (p - pos0) + t) by {
            let a = p - c.sink;
            vstd::arithmetic::div_mod::lemma_fundamental_div_mod(a, r);
            let x = a / r;
            assert(x * r == r * x) by (nonlinear_arith);
            vstd::arithmetic::div_mod::lemma_fundamental_div_mod_converse(a + t, r, x, rel + t);
        }
        if end - p <= r && len < end - p {
            // The ring wraps here, so what is left starts at its first slot.
            assert(len == r - rel);
            let a = p - c.sink;
            vstd::arithmetic::div_mod::lemma_fundamental_div_mod(a, r);
            let x = a / r;
            assert((x + 1) * r == r * x + r) by (nonlinear_arith);
            vstd::arithmetic::div_mod::lemma_fundamental_div_mod_converse(a + len, r, x + 1, 0);
            assert(end - (p + len) <= r);
            assert(min(r, end - (p + len)) == end - (p + len));
            assert(ring_spans(c, pos0, end, end).len() == 0);
            assert(rest.len() <= 1);
        } else if len == end - p {
            assert(rest.len() == 0);
        }
    }
}

/// The spans of a run cover every row once, in order, and send each row to the
/// slot of its position; a run that is no longer than the ring has at most
/// three.
pub proof fn lemma_spans_cover(c: WindowCfg, pos0: int, n: int)
    requires
        c.ok(),
        0 <= pos0,
        0 < n,
        pos0 + n <= usize::MAX,
    ensures
        spans_fit(c, write_spans(c, pos0, n), pos0, 0, n),
        n <= c.ring ==> write_spans(c, pos0, n).len() <= 3,
{
    let end = pos0 + n;
    if pos0 >= c.sink {
        lemma_ring_spans_fit(c, pos0, pos0, end);
        assert(write_spans(c, pos0, n) =~= ring_spans(c, pos0, pos0, end));
    } else {
        let spans = write_spans(c, pos0, n);
        let s = spans[0];
        assert forall|t: int| 0 <= t < s.len implies s.slot + t == #[trigger] c.slot(pos0 + 0 + t) by {
            assert(pos0 + t < c.sink);
        }
        if end <= c.sink {
            assert(ring_spans(c, pos0, c.sink as int, end).len() == 0);
            assert(spans.drop_first() =~= Seq::<Span>::empty());
            assert(spans_fit(c, spans.drop_first(), pos0, 0 + s.len, n));
        } else {
            lemma_ring_spans_fit(c, pos0, c.sink as int, end);
            assert(spans.drop_first() =~= ring_spans(c, pos0, c.sink as int, end));
            assert(spans_fit(c, spans.drop_first(), pos0, 0 + s.len, n));
        }
    }
}

} // verus!
