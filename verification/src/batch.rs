//! Continuous batching: which request holds which slot, when a request is
//! let in, and what each sampled token does to it. The caller owns the
//! channel, the model and the clock; what it keeps per request travels along as
//! the request's payload.
use tokenizers::Tokenizer;
use vstd::prelude::*;
use vstd::string::*;

use crate::config::EosIds;
use crate::engine::BatchRow;
use crate::generate::{GenOptions, ids_view, positions, run};
use crate::gguf::tokenizer::{decode, decoding, encode_text, ids_of, parts, ready};
use crate::num::min;
use crate::text::{dec, push_dec};

verus! {

/// The most positions that one slot of the pool has.
pub const POOL_SEQ_CAP: usize = 8192;

/// The positions of a slot for a model with the given context window.
pub fn pool_positions(window: usize) -> (r: usize)
    ensures
        r == min(window as int, POOL_SEQ_CAP as int),
{
    if window <= POOL_SEQ_CAP {
        window
    } else {
        POOL_SEQ_CAP
    }
}

/// One request in flight.
pub struct Active<T> {
    pub slot: usize,
    /// Positions committed to the cache.
    pub seq_len: usize,
    /// This request's own positions.
    pub max_seq: usize,
    pub prompt_tokens: usize,
    pub generated: Vec<u32>,
    pub payload: T,
}

impl<T> Active<T> {
    /// `self` is `before` but for its tokens, which are `tokens`.
    pub open spec fn with_tokens(&self, before: Active<T>, tokens: Seq<u32>) -> bool {
        &&& self.slot == before.slot
        &&& self.seq_len == before.seq_len
        &&& self.max_seq == before.max_seq
        &&& self.prompt_tokens == before.prompt_tokens
        &&& self.payload == before.payload
        &&& self.generated@ == tokens
    }

    /// How many tokens the request may generate.
    pub open spec fn room(&self) -> nat {
        (self.max_seq - self.prompt_tokens) as nat
    }

    /// `pending` tells whether a token is sampled and not yet committed.
    pub open spec fn ok(&self, pending: bool) -> bool {
        &&& 0 < self.prompt_tokens <= self.seq_len < self.max_seq
        &&& self.generated@.len() == self.seq_len - self.prompt_tokens + (if pending { 1int } else { 0int })
        &&& pending ==> self.seq_len + 1 < self.max_seq
    }
}

/// What to do about waiting requests.
#[derive(Debug, Clone, Copy, PartialEq, Eq, Structural)]
pub enum Intake {
    /// No slot is free.
    Full,
    /// Nothing is running: wait for a request.
    Wait,
    /// Take a request only if one is queued.
    Poll,
}

/// The slots and the requests in flight. The first rows of a step stand for the
/// first requests in flight, in the same order.
pub struct Scheduler<T> {
    n_slots: usize,
    pool_seq: usize,
    window: usize,
    free: Vec<usize>,
    active: Vec<Active<T>>,
    rows: Vec<BatchRow>,
}

impl<T> Scheduler<T> {
    pub closed spec fn n_slots(&self) -> nat {
        self.n_slots as nat
    }

    pub closed spec fn pool_seq(&self) -> nat {
        self.pool_seq as nat
    }

    pub closed spec fn window(&self) -> nat {
        self.window as nat
    }

    /// The free slots; the last is taken next.
    pub closed spec fn free_slots(&self) -> Seq<usize> {
        self.free@
    }

    /// The requests in flight.
    pub closed spec fn in_flight(&self) -> Seq<Active<T>> {
        self.active@
    }

    /// The rows of the step being gathered.
    pub closed spec fn row_seq(&self) -> Seq<BatchRow> {
        self.rows@
    }

    /// Everything but the listed parts is as in `before`.
    pub open spec fn same_limits(&self, before: Scheduler<T>) -> bool {
        &&& self.n_slots() == before.n_slots()
        &&& self.pool_seq() == before.pool_seq()
        &&& self.window() == before.window()
    }

    /// The invariant: every slot is free or belongs to one request, no slot is
    /// held twice, and the rows are those of the first requests.
    pub open spec fn wf(&self) -> bool {
        let (f, a, r) = (self.free_slots(), self.in_flight(), self.row_seq());
        &&& f.len() + a.len() == self.n_slots()
        &&& forall|i: int| 0 <= i < f.len() ==> #[trigger] f[i] < self.n_slots()
        &&& forall|i: int| 0 <= i < a.len() ==> (#[trigger] a[i]).slot < self.n_slots()
        &&& forall|i: int, j: int| 0 <= i < j < f.len() ==> #[trigger] f[i] != #[trigger] f[j]
        &&& forall|i: int, j: int| 0 <= i < j < a.len() ==> (#[trigger] a[i]).slot != (#[trigger] a[j]).slot
        &&& forall|i: int, j: int|
            0 <= i < f.len() && 0 <= j < a.len() ==> #[trigger] f[i] != (#[trigger] a[j]).slot
        &&& r.len() <= a.len()
        &&& forall|i: int| 0 <= i < a.len() ==> (#[trigger] a[i]).ok(i < r.len())
        &&& forall|i: int| 0 <= i < a.len() ==> (#[trigger] a[i]).max_seq <= self.pool_seq()
        &&& forall|i: int| 0 <= i < r.len() ==> #[trigger] r[i] == (BatchRow {
            token: a[i].generated@.last(),
            pos: a[i].seq_len,
            slot: a[i].slot,
        })
    }

    /// `before` with a request let in whose prompt fills the next slot.
    pub open spec fn entered(&self, before: Scheduler<T>, prompt: usize, max_seq: usize, payload: T) -> bool {
        &&& self.same_limits(before)
        &&& self.row_seq() == before.row_seq()
        &&& self.free_slots() == before.free_slots().drop_last()
        &&& self.in_flight().len() == before.in_flight().len() + 1
        &&& self.in_flight().drop_last() == before.in_flight()
        &&& self.in_flight().last().slot == before.free_slots().last()
        &&& self.in_flight().last().seq_len == prompt
        &&& self.in_flight().last().max_seq == max_seq
        &&& self.in_flight().last().prompt_tokens == prompt
        &&& self.in_flight().last().generated@ == Seq::<u32>::empty()
        &&& self.in_flight().last().payload == payload
    }

    /// `before` with another payload for request `i`.
    pub open spec fn repaid(&self, before: Scheduler<T>, i: int, payload: T) -> bool {
        &&& self.same_limits(before)
        &&& self.free_slots() == before.free_slots()
        &&& self.row_seq() == before.row_seq()
        &&& self.in_flight() == before.in_flight().update(i, (Active { payload, ..before.in_flight()[i] }))
    }

    /// `before` once the token sampled for the next request of the pass is
    /// taken, where `r` is the request if that finishes it.
    pub open spec fn took(&self, before: Scheduler<T>, next: u32, eos: Set<u32>, r: Option<Active<T>>) -> bool {
        let i = before.row_seq().len() as int;
        let a = before.in_flight()[i];
        let tokens = if eos.contains(next) { a.generated@ } else { a.generated@.push(next) };
        &&& self.same_limits(before)
        &&& if eos.contains(next) || a.seq_len + 1 >= a.max_seq {
            &&& r matches Some(done) && done.with_tokens(a, tokens)
            &&& self.free_slots() == before.free_slots().push(a.slot)
            &&& self.in_flight() == before.in_flight().update(i, before.in_flight().last()).drop_last()
            &&& self.row_seq() == before.row_seq()
        } else {
            &&& r is None
            &&& self.free_slots() == before.free_slots()
            &&& self.in_flight().len() == before.in_flight().len()
            &&& self.in_flight()[i].with_tokens(a, tokens)
            &&& forall|j: int|
                0 <= j < before.in_flight().len() && j != i ==> #[trigger] self.in_flight()[j] == before.in_flight()[j]
            &&& self.row_seq() == before.row_seq().push(BatchRow { token: next, pos: a.seq_len, slot: a.slot })
        }
    }

    /// `before` once its step has succeeded.
    pub open spec fn advanced(&self, before: Scheduler<T>) -> bool {
        &&& self.same_limits(before)
        &&& self.row_seq().len() == 0
        &&& self.free_slots() == before.free_slots()
        &&& self.in_flight().len() == before.in_flight().len()
        &&& forall|i: int| 0 <= i < before.in_flight().len() ==> (#[trigger] self.in_flight()[i]) == (Active {
            seq_len: (before.in_flight()[i].seq_len + 1) as usize,
            ..before.in_flight()[i]
        })
    }

    /// `before` once its step has failed, where `r` are the requests given up.
    pub open spec fn drained(&self, before: Scheduler<T>, r: Seq<Active<T>>) -> bool {
        &&& self.same_limits(before)
        &&& self.row_seq().len() == 0
        &&& self.in_flight().len() == 0
        &&& r == before.in_flight()
        &&& self.free_slots() == before.free_slots() + Seq::new(
            before.in_flight().len(),
            |i: int| before.in_flight()[i].slot,
        )
    }

    /// A pool of `n_slots` slots of `pool_seq` positions, for a model with the
    /// given context window.
    pub fn new(n_slots: usize, pool_seq: usize, window: usize) -> (r: Scheduler<T>)
        ensures
            r.wf(),
            r.n_slots() == n_slots,
            r.pool_seq() == pool_seq,
            r.window() == window,
            r.in_flight().len() == 0,
            r.row_seq().len() == 0,
            r.free_slots() == Seq::new(n_slots as nat, |i: int| (n_slots - 1 - i) as usize),
    {
        let mut free: Vec<usize> = Vec::new();
        let mut i: usize = n_slots;
        while i > 0
            invariant
                i <= n_slots,
                free@.len() == n_slots - i,
                forall|j: int| 0 <= j < free@.len() ==> #[trigger] free@[j] == n_slots - 1 - j,
            decreases i,
        {
            i = i - 1;
            free.push(i);
        }
        assert(free@ =~= Seq::new(n_slots as nat, |i: int| (n_slots - 1 - i) as usize));
        Scheduler { n_slots, pool_seq, window, free, active: Vec::new(), rows: Vec::new() }
    }

    /// What to do about waiting requests: with no slot free nothing, with
    /// nothing running wait, else look whether one is queued.
    pub fn intake(&self) -> (r: Intake)
        ensures
            r == (if self.free_slots().len() == 0 {
                Intake::Full
            } else if self.in_flight().len() == 0 {
                Intake::Wait
            } else {
                Intake::Poll
            }),
    {
        if self.free.len() == 0 {
            Intake::Full
        } else if self.active.len() == 0 {
            Intake::Wait
        } else {
            Intake::Poll
        }
    }

    /// The slot that the next request gets.
    pub fn next_slot(&self) -> (r: usize)
        requires
            self.free_slots().len() > 0,
        ensures
            r == self.free_slots().last(),
    {
        self.free[self.free.len() - 1]
    }

    /// The positions of a request: prompt and budget, within the slot and the
    /// context window.
    pub open spec fn request_positions(&self, prompt: nat, max_tokens: nat) -> int {
        min(min((prompt + max_tokens) as int, self.pool_seq() as int), self.window() as int)
    }

    /// Sizes a request, or refuses a prompt that is empty or fills its
    /// positions.
    pub fn size_request(&self, prompt: usize, max_tokens: usize) -> (r: Result<usize, String>)
        ensures
            ({
                let n = self.request_positions(prompt as nat, max_tokens as nat);
                match r {
                    Ok(m) => m == n && 0 < prompt < m,
                    Err(e) => {
                        &&& prompt == 0 || prompt >= n
                        &&& e@ == "prompt ("@ + dec(prompt as nat) + " tokens) is empty or exceeds the "@
                            + dec(n as nat) + "-token budget"@
                    },
                }
            }),
    {
        let want: usize = prompt.saturating_add(max_tokens);
        let pooled: usize = if want <= self.pool_seq { want } else { self.pool_seq };
        let max_seq: usize = if pooled <= self.window { pooled } else { self.window };
        if prompt == 0 || prompt >= max_seq {
            let mut e = "prompt (".to_owned();
            push_dec(&mut e, prompt as u64);
            e.append(" tokens) is empty or exceeds the ");
            push_dec(&mut e, max_seq as u64);
            e.append("-token budget");
            return Err(e);
        }
        Ok(max_seq)
    }

    /// Lets in a request whose prompt fills the next slot.
    pub fn enter(&mut self, prompt: usize, max_seq: usize, payload: T)
        requires
            old(self).wf(),
            old(self).row_seq().len() == 0,
            old(self).free_slots().len() > 0,
            0 < prompt < max_seq <= old(self).pool_seq(),
        ensures
            final(self).wf(),
            final(self).entered(*old(self), prompt, max_seq, payload),
    {
        let at: usize = self.free.len() - 1;
        let slot: usize = self.free[at];
        self.free.truncate(at);
        assert(self.free@ =~= old(self).free@.drop_last());
        let generated: Vec<u32> = Vec::new();
        assert(generated@ =~= Seq::<u32>::empty());
        self.active.push(Active { slot, seq_len: prompt, max_seq, prompt_tokens: prompt, generated, payload });
        assert(self.active@.drop_last() =~= old(self).active@);
    }

    /// The number of requests in flight.
    pub fn n_active(&self) -> (r: usize)
        ensures
            r == self.in_flight().len(),
    {
        self.active.len()
    }

    /// The request whose token is sampled next, if any is left in this pass.
    pub fn next_index(&self) -> (r: Option<usize>)
        requires
            self.wf(),
        ensures
            match r {
                Some(i) => i == self.row_seq().len() && i < self.in_flight().len(),
                None => self.row_seq().len() == self.in_flight().len(),
            },
    {
        if self.rows.len() < self.active.len() {
            Some(self.rows.len())
        } else {
            None
        }
    }

    /// The payload of a request.
    pub fn payload_mut(&mut self, i: usize) -> (r: &mut T)
        requires
            i < old(self).in_flight().len(),
        ensures
            *r == old(self).in_flight()[i as int].payload,
            final(self).repaid(*old(self), i as int, *final(r)),
            old(self).wf() ==> final(self).wf(),
    {
        &mut self.active[i].payload
    }

    /// Takes the token sampled for the next request of this pass. A token that
    /// ends the text is not kept; the last token that fits is kept and not fed
    /// back. Either finishes the request, which is returned and frees its slot.
    /// Any other token becomes a row of the step.
    pub fn take(&mut self, next: u32, eos: &EosIds) -> (r: Option<Active<T>>)
        requires
            old(self).wf(),
            old(self).row_seq().len() < old(self).in_flight().len(),
        ensures
            final(self).wf(),
            final(self).took(*old(self), next, eos@, r),
    {
        let i: usize = self.rows.len();
        let ends = eos.contains(next);
        let last = self.active[i].seq_len + 1 >= self.active[i].max_seq;
        if ends || last {
            let mut done = self.active.swap_remove(i);
            if !ends {
                done.generated.push(next);
            }
            self.free.push(done.slot);
            return Some(done);
        }
        self.active[i].generated.push(next);
        let (pos, slot) = (self.active[i].seq_len, self.active[i].slot);
        self.rows.push(BatchRow { token: next, pos, slot });
        None
    }

    /// The rows of the step, one per request in flight.
    pub fn rows(&self) -> (r: &[BatchRow])
        ensures
            r@ == self.row_seq(),
    {
        self.rows.as_slice()
    }

    /// The step succeeded: every request has one more position committed.
    pub fn advance(&mut self)
        requires
            old(self).wf(),
            old(self).row_seq().len() == old(self).in_flight().len(),
        ensures
            final(self).wf(),
            final(self).advanced(*old(self)),
    {
        let mut i: usize = 0;
        while i < self.active.len()
            invariant
                old(self).wf(),
                old(self).row_seq().len() == old(self).in_flight().len(),
                self.same_limits(*old(self)),
                self.rows@ == old(self).rows@,
                self.free@ == old(self).free@,
                self.active@.len() == old(self).active@.len(),
                i <= self.active@.len(),
                forall|j: int| 0 <= j < i ==> (#[trigger] self.active@[j]) == (Active {
                    seq_len: (old(self).active@[j].seq_len + 1) as usize,
                    ..old(self).active@[j]
                }),
                forall|j: int| i <= j < self.active@.len() ==> (#[trigger] self.active@[j]) == old(self).active@[j],
            decreases self.active.len() - i,
        {
            assert(old(self).in_flight()[i as int].ok(true));
            self.active[i].seq_len = self.active[i].seq_len + 1;
            i = i + 1;
        }
        self.rows.truncate(0);
        assert forall|j: int| 0 <= j < self.active@.len() implies (#[trigger] self.active@[j]).ok(false) by {
            assert(old(self).in_flight()[j].ok(true));
        }
    }

    /// The step failed: every request in flight is given up, in order, and its
    /// slot freed.
    pub fn drain(&mut self) -> (r: Vec<Active<T>>)
        requires
            old(self).wf(),
        ensures
            final(self).wf(),
            final(self).drained(*old(self), r@),
    {
        let ghost slots = Seq::new(self.active@.len(), |i: int| self.active@[i].slot);
        let mut i: usize = 0;
        while i < self.active.len()
            invariant
                self.same_limits(*old(self)),
                self.active@ == old(self).active@,
                self.rows@ == old(self).rows@,
                slots == Seq::new(old(self).active@.len(), |i: int| old(self).active@[i].slot),
                i <= self.active@.len(),
                self.free@ == old(self).free@ + slots.take(i as int),
            decreases self.active.len() - i,
        {
            self.free.push(self.active[i].slot);
            assert(slots.take(i as int + 1) =~= slots.take(i as int).push(slots[i as int]));
            assert(self.free@ =~= old(self).free@ + slots.take(i as int + 1));
            i = i + 1;
        }
        assert(slots.take(i as int) =~= slots);
        self.rows.truncate(0);
        let mut out: Vec<Active<T>> = Vec::new();
        out.append(&mut self.active);
        assert(out@ =~= old(self).active@);
        out
    }
}

// ---------- what the scheduler promises ----------

/// Every slot of the pool is free or held by a request in flight.
pub proof fn lemma_every_slot_accounted<T>(s: Scheduler<T>, slot: usize)
    requires
        s.wf(),
        slot < s.n_slots(),
    ensures
        s.free_slots().contains(slot) || exists|i: int|
            0 <= i < s.in_flight().len() && (#[trigger] s.in_flight()[i]).slot == slot,
{
    let (f, a) = (s.free_slots(), s.in_flight());
    let held = Seq::new(a.len(), |i: int| a[i].slot);
    let all = f + held;
    let range = Seq::new(s.n_slots(), |i: int| i as usize);
    assert(all.no_duplicates()) by {
        assert forall|i: int, j: int| 0 <= i < all.len() && 0 <= j < all.len() && i != j implies all[i] != all[j] by {
            let (lo, hi) = if i < j { (i, j) } else { (j, i) };
            if hi < f.len() {
                assert(f[lo] != f[hi]);
            } else if lo < f.len() {
                assert(f[lo] != a[hi - f.len()].slot);
            } else {
                assert(a[lo - f.len()].slot != a[hi - f.len()].slot);
            }
        }
    }
    assert(range.no_duplicates());
    all.unique_seq_to_set();
    range.unique_seq_to_set();
    assert(all.to_set().subset_of(range.to_set())) by {
        assert forall|x: usize| all.to_set().contains(x) implies range.to_set().contains(x) by {
            let i = choose|i: int| 0 <= i < all.len() && all[i] == x;
            if i < f.len() {
                assert(f[i] < s.n_slots());
            } else {
                assert(a[i - f.len()].slot < s.n_slots());
            }
            assert(range[x as int] == x);
        }
    }
    vstd::set_lib::lemma_subset_equality(all.to_set(), range.to_set());
    assert(range[slot as int] == slot);
    assert(range.to_set().contains(slot));
    let i = choose|i: int| 0 <= i < all.len() && all[i] == slot;
    if i < f.len() {
        assert(f[i] == slot);
    } else {
        assert(a[i - f.len()].slot == slot);
    }
}

/// What happens to a schedule.
pub enum Event<T> {
    /// A request is let in: its prompt, its positions and its payload.
    Enter(usize, usize, T),
    /// A payload changes.
    Repay(int, T),
    /// A token is taken, which may finish its request.
    Take(u32, Option<Active<T>>),
    /// The step succeeds.
    Advance,
    /// The step fails, and these requests are given up.
    Drain(Seq<Active<T>>),
}

/// The event leads from `s` to `t`.
pub open spec fn leads<T>(s: Scheduler<T>, e: Event<T>, t: Scheduler<T>, eos: Set<u32>) -> bool {
    match e {
        Event::Enter(prompt, max_seq, payload) => s.free_slots().len() > 0 && t.entered(s, prompt, max_seq, payload),
        Event::Repay(i, payload) => 0 <= i < s.in_flight().len() && t.repaid(s, i, payload),
        Event::Take(next, r) => s.row_seq().len() < s.in_flight().len() && t.took(s, next, eos, r),
        Event::Advance => s.row_seq().len() == s.in_flight().len() && t.advanced(s),
        Event::Drain(r) => t.drained(s, r),
    }
}

/// Request `i` of `s` holds the slot.
pub open spec fn holds<T>(s: Scheduler<T>, i: int, slot: usize) -> bool {
    0 <= i < s.in_flight().len() && s.in_flight()[i].slot == slot
}

/// The event hands back the request that holds the slot.
pub open spec fn answers<T>(e: Event<T>, slot: usize) -> bool {
    match e {
        Event::Take(_, Some(done)) => done.slot == slot,
        Event::Drain(r) => exists|j: int| 0 <= j < r.len() && (#[trigger] r[j]).slot == slot,
        _ => false,
    }
}

/// A request that holds a slot keeps it until it is handed back, and is handed
/// back once: an event either answers it or leaves it in flight, never both.
pub proof fn lemma_each_request_is_answered_once<T>(
    s: Scheduler<T>,
    e: Event<T>,
    t: Scheduler<T>,
    eos: Set<u32>,
    i: int,
    slot: usize,
)
    requires
        s.wf(),
        t.wf(),
        leads(s, e, t, eos),
        holds(s, i, slot),
    ensures
        answers(e, slot) <==> !exists|j: int| #[trigger] holds(t, j, slot),
{
    let (a, b) = (s.in_flight(), t.in_flight());
    match e {
        Event::Enter(_, _, _) => {
            assert(b.drop_last()[i] == b[i]);
            assert(holds(t, i, slot));
        },
        Event::Repay(_, _) => {
            assert(holds(t, i, slot));
        },
        Event::Advance => {
            assert(holds(t, i, slot));
        },
        Event::Drain(r) => {
            assert(r[i].slot == slot);
            assert forall|j: int| !#[trigger] holds(t, j, slot) by {}
        },
        Event::Take(next, r) => {
            let q = s.row_seq().len() as int;
            if r is None {
                if i != q {
                    assert(b[i] == a[i]);
                }
                assert(holds(t, i, slot));
            } else if i == q {
                assert forall|j: int| !#[trigger] holds(t, j, slot) by {
                    if holds(t, j, slot) {
                        if j == q {
                            assert(a[q].slot != a[a.len() - 1].slot);
                        } else {
                            let (lo, hi) = if j < q { (j, q) } else { (q, j) };
                            assert(a[lo].slot != a[hi].slot);
                        }
                    }
                }
            } else {
                let (lo, hi) = if i < q { (i, q) } else { (q, i) };
                assert(a[lo].slot != a[hi].slot);
                assert(holds(t, if i == a.len() - 1 { q } else { i }, slot));
            }
        },
    }
}

/// One request across an event that leaves it in flight.
proof fn lemma_followed<T>(
    s: Scheduler<T>,
    e: Event<T>,
    t: Scheduler<T>,
    eos: Set<u32>,
    i: int,
    j: int,
    slot: usize,
)
    requires
        s.wf(),
        t.wf(),
        leads(s, e, t, eos),
        holds(s, i, slot),
        holds(t, j, slot),
    ensures
        ({
            let (a, b) = (s.in_flight()[i], t.in_flight()[j]);
            &&& b.prompt_tokens == a.prompt_tokens
            &&& b.max_seq == a.max_seq
            &&& match e {
                Event::Take(next, _) => if s.row_seq().len() == i {
                    !eos.contains(next) && a.seq_len + 1 < a.max_seq && b.generated@ == a.generated@.push(next)
                } else {
                    b.generated@ == a.generated@
                },
                _ => b.generated@ == a.generated@,
            }
        }),
{
    let (a, b) = (s.in_flight(), t.in_flight());
    match e {
        Event::Enter(_, _, _) => {
            assert(b.drop_last()[i] == b[i]);
            if i != j {
                let (lo, hi) = if i < j { (i, j) } else { (j, i) };
                assert(b[lo].slot != b[hi].slot);
            }
        },
        Event::Drain(_) => {},
        Event::Repay(_, _) => {
            if i != j {
                let (lo, hi) = if i < j { (i, j) } else { (j, i) };
                assert(a[lo].slot != a[hi].slot);
            }
        },
        Event::Advance => {
            if i != j {
                let (lo, hi) = if i < j { (i, j) } else { (j, i) };
                assert(a[lo].slot != a[hi].slot);
                assert(b[j].slot == a[j].slot);
            }
        },
        Event::Take(next, r) => {
            let q = s.row_seq().len() as int;
            let from = if r is Some && j == q { a.len() - 1 } else { j };
            assert(b[j].slot == a[from].slot) by {
                if r is None && j != q {
                    assert(b[j] == a[j]);
                }
            }
            if from != i {
                let (lo, hi) = if i < from { (i, from) } else { (from, i) };
                assert(a[lo].slot != a[hi].slot);
            }
            if r is None && j != q {
                assert(b[j] == a[j]);
            }
        },
    }
}

/// The schedule from the entry of a request to the token that finishes it: the
/// request is the one at `at[j]` of `states[j]`, in one slot throughout, and
/// `events[j]` leads from one state to the next.
pub open spec fn is_service<T>(
    states: Seq<Scheduler<T>>,
    events: Seq<Event<T>>,
    at: Seq<int>,
    slot: usize,
    eos: Set<u32>,
) -> bool {
    &&& states.len() > 0
    &&& at.len() == states.len()
    &&& events.len() == states.len() - 1
    &&& forall|j: int| 0 <= j < states.len() ==> (#[trigger] states[j]).wf()
    &&& forall|j: int| 0 <= j < states.len() ==> holds(#[trigger] states[j], at[j], slot)
    &&& forall|j: int| 0 <= j < events.len() ==> leads(states[j], #[trigger] events[j], states[j + 1], eos)
    &&& states[0].in_flight()[at[0]].generated@.len() == 0
}

/// Every token taken for the request is the one that `next` chooses after what
/// the request has generated.
pub open spec fn chosen_by<T>(
    next: spec_fn(Seq<u32>) -> u32,
    states: Seq<Scheduler<T>>,
    events: Seq<Event<T>>,
    at: Seq<int>,
) -> bool {
    forall|j: int| 0 <= j < events.len() ==> match #[trigger] events[j] {
        Event::Take(t, _) => states[j].row_seq().len() == at[j] ==> t == next(
            states[j].in_flight()[at[j]].generated@,
        ),
        _ => true,
    }
}

proof fn lemma_service_keeps_run<T>(
    next: spec_fn(Seq<u32>) -> u32,
    eos: Set<u32>,
    states: Seq<Scheduler<T>>,
    events: Seq<Event<T>>,
    at: Seq<int>,
    slot: usize,
    j: int,
)
    requires
        is_service(states, events, at, slot, eos),
        chosen_by(next, states, events, at),
        0 <= j < states.len(),
    ensures
        ({
            let (a, b) = (states[0].in_flight()[at[0]], states[j].in_flight()[at[j]]);
            &&& b.prompt_tokens == a.prompt_tokens
            &&& b.max_seq == a.max_seq
            &&& run(next, eos, a.room(), b.generated@) == run(next, eos, a.room(), Seq::empty())
        }),
    decreases j,
{
    assert(states[0].wf());
    if j == 0 {
        assert(states[0].in_flight()[at[0]].generated@ =~= Seq::empty());
    } else {
        lemma_service_keeps_run(next, eos, states, events, at, slot, j - 1);
        let (s, t, e) = (states[j - 1], states[j], events[j - 1]);
        assert(s.wf() && t.wf());
        assert(holds(s, at[j - 1], slot) && holds(t, at[j], slot));
        assert(leads(states[j - 1], e, states[j - 1 + 1], eos));
        lemma_followed(s, e, t, eos, at[j - 1], at[j], slot);
        let a = s.in_flight()[at[j - 1]];
        assert(a.ok(at[j - 1] < s.row_seq().len()));
    }
}

/// A request in the batch generates what it would alone. From its entry to the
/// token that finishes it, whatever else is let in, finished or stepped
/// meanwhile, what is handed back are exactly the tokens of a plain run with the
/// request's own choices and positions.
pub proof fn lemma_batched_run_is_the_single_run<T>(
    next: spec_fn(Seq<u32>) -> u32,
    eos: Set<u32>,
    states: Seq<Scheduler<T>>,
    events: Seq<Event<T>>,
    at: Seq<int>,
    slot: usize,
    end: Scheduler<T>,
    done: Active<T>,
)
    requires
        is_service(states, events, at, slot, eos),
        chosen_by(next, states, events, at),
        states.last().row_seq().len() == at.last(),
        leads(
            states.last(),
            Event::Take(next(states.last().in_flight()[at.last()].generated@), Some(done)),
            end,
            eos,
        ),
    ensures
        done.slot == slot,
        done.prompt_tokens == states[0].in_flight()[at[0]].prompt_tokens,
        done.generated@ == run(next, eos, states[0].in_flight()[at[0]].room(), Seq::empty()),
{
    let n = states.len() - 1;
    lemma_service_keeps_run(next, eos, states, events, at, slot, n);
    assert(states[n].wf());
    assert(holds(states[n], at[n], slot));
    let a = states[n].in_flight()[at[n]];
    assert(a.ok(at[n] < states[n].row_seq().len()));
    reveal_with_fuel(run, 2);
}

/// Where prompt and budget fit a slot, a request has the positions that it has
/// alone.
pub proof fn lemma_request_has_its_own_positions<T>(s: Scheduler<T>, prompt: nat, max_tokens: nat)
    requires
        prompt + max_tokens <= s.pool_seq(),
    ensures
        s.request_positions(prompt, max_tokens) == positions(prompt, max_tokens, s.window()),
{
}

// ---------- a request's text ----------

/// The positions of a request whose prompt is encoded, or why it is refused.
pub open spec fn request_verdict(
    ids: Result<Seq<u32>, Seq<char>>,
    max_tokens: nat,
    pool_seq: nat,
    window: nat,
) -> Result<(Seq<u32>, nat), Seq<char>> {
    match ids {
        Err(e) => Err(e),
        Ok(v) => {
            let n = min(min((v.len() + max_tokens) as int, pool_seq as int), window as int);
            if v.len() == 0 || v.len() >= n {
                Err(
                    "prompt ("@ + dec(v.len()) + " tokens) is empty or exceeds the "@ + dec(n as nat)
                        + "-token budget"@,
                )
            } else {
                Ok((v, n as nat))
            }
        },
    }
}

/// What became of a request's sizing.
pub open spec fn sized_view(r: Result<(Vec<u32>, usize), String>) -> Result<(Seq<u32>, nat), Seq<char>> {
    match r {
        Ok((ids, n)) => Ok((ids@, n as nat)),
        Err(e) => Err(e@),
    }
}

/// Sizes a request whose prompt is encoded: its ids and its positions.
pub fn size_ids<T>(
    s: &Scheduler<T>,
    ids: Result<Vec<u32>, String>,
    max_tokens: usize,
) -> (r: Result<(Vec<u32>, usize), String>)
    ensures
        sized_view(r) == request_verdict(ids_view(ids), max_tokens as nat, s.pool_seq(), s.window()),
        r matches Ok((v, n)) ==> 0 < v@.len() < n <= s.pool_seq(),
{
    match ids {
        Err(e) => Err(e),
        Ok(v) => match s.size_request(v.len(), max_tokens) {
            Ok(n) => Ok((v, n)),
            Err(e) => Err(e),
        },
    }
}

/// Encodes, with a tokenizer from `build_tokenizer`, and sizes a request.
pub fn size_prompt<T>(s: &Scheduler<T>, tokenizer: &Tokenizer, opt: &GenOptions) -> (r: Result<(Vec<u32>, usize), String>)
    requires
        ready(*tokenizer),
    ensures
        sized_view(r) == request_verdict(
            ids_of(parts(*tokenizer), opt.text()),
            opt.max_tokens as nat,
            s.pool_seq(),
            s.window(),
        ),
        r matches Ok((ids, n)) ==> 0 < ids@.len() < n <= s.pool_seq(),
{
    let text = opt.full_prompt();
    size_ids(s, encode_text(tokenizer, text.as_str()), opt.max_tokens)
}

/// The text of a request that is over, by a tokenizer from `build_tokenizer`.
pub fn text_of_request<T>(tokenizer: &Tokenizer, a: &Active<T>) -> (r: Result<String, String>)
    requires
        ready(*tokenizer),
    ensures
        decoding(parts(*tokenizer), a.generated@) == (match r {
            Ok(s) => Ok(s@),
            Err(e) => Err(e@),
        }),
{
    decode(tokenizer, a.generated.as_slice())
}

} // verus!
