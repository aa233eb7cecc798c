//! Speculative decoding, greedy and exact: a draft model proposes a block of
//! tokens, the target model checks the whole block in one batch, and the agreed
//! prefix with the target's own next token is kept. The caller runs both models
//! and hands in the tokens that they choose.
use vstd::prelude::*;

use crate::config::EosIds;
use crate::generate::{budget, positions, run};
use crate::gpu::geometry::SPEC_MAX;
use crate::num::min;
use crate::text::dec;

verus! {

/// The largest block that is drafted.
pub const SPEC_MAX_DRAFT: usize = 7;

/// The size of the first block.
pub const SPEC_START_DRAFT: usize = 4;

/// The positions of a run and those that the draft works on: the run is sized by
/// the target's context window, and the draft's window bounds only the drafting.
pub fn speculative_budget(
    prompt: usize,
    max_tokens: usize,
    window: usize,
    draft_window: usize,
) -> (r: Result<(usize, usize), String>)
    ensures
        match r {
            Ok((n, d)) => {
                &&& n == positions(prompt as nat, max_tokens as nat, window as nat)
                &&& prompt < n
                &&& d == min(n as int, draft_window as int)
            },
            Err(e) => prompt >= positions(prompt as nat, max_tokens as nat, window as nat) && e@
                == "prompt ("@ + dec(prompt as nat) + " tokens) exceeds the model's context window"@,
        },
{
    match budget(prompt, max_tokens, window) {
        Err(e) => Err(e),
        Ok(n) => Ok((n, if n <= draft_window { n } else { draft_window })),
    }
}

/// What follows the target's next token.
#[derive(Debug, Clone, Copy, PartialEq, Eq, Structural)]
pub enum Round {
    /// The run is over.
    Over,
    /// The draft's window is used up: the target goes on alone.
    Alone,
    /// The draft catches up from this position, and proposes.
    Draft(usize),
}

/// A run: everything so far, how far the draft's cache is valid, and the block
/// being drafted.
pub struct Speculation {
    seq: Vec<u32>,
    prompt: usize,
    max_seq: usize,
    draft_max: usize,
    draft_pos: usize,
    gamma: usize,
    block: usize,
    proposal: Vec<u32>,
    proposed: usize,
    accepted: usize,
}

/// What a run holds.
pub struct SpecState {
    /// The prompt and everything generated.
    pub seq: Seq<u32>,
    pub prompt: nat,
    pub max_seq: nat,
    /// The positions that the draft has.
    pub draft_max: nat,
    /// The draft's cache is valid up to here.
    pub draft_pos: nat,
    /// The size of the next block.
    pub gamma: nat,
    /// How many tokens this block may have.
    pub block: nat,
    /// The block so far.
    pub proposal: Seq<u32>,
    pub proposed: nat,
    pub accepted: nat,
}

impl View for Speculation {
    type V = SpecState;

    closed spec fn view(&self) -> SpecState {
        SpecState {
            seq: self.seq@,
            prompt: self.prompt as nat,
            max_seq: self.max_seq as nat,
            draft_max: self.draft_max as nat,
            draft_pos: self.draft_pos as nat,
            gamma: self.gamma as nat,
            block: self.block as nat,
            proposal: self.proposal@,
            proposed: self.proposed as nat,
            accepted: self.accepted as nat,
        }
    }
}

impl SpecState {
    /// The invariant of every run.
    pub open spec fn ok(self) -> bool {
        &&& self.prompt <= self.seq.len() <= self.max_seq <= usize::MAX
        &&& 0 < self.seq.len()
        &&& self.draft_pos <= self.seq.len() + self.proposal.len()
        &&& 1 <= self.gamma <= SPEC_MAX_DRAFT
        &&& self.proposal.len() <= self.block <= self.gamma
        &&& self.seq.len() + self.block <= self.max_seq
        &&& self.block > 0 ==> self.seq.len() + self.block <= self.draft_max + 1
        &&& self.draft_max <= usize::MAX
        &&& self.accepted <= self.proposed <= usize::MAX
    }

    /// The start of a run.
    pub open spec fn at_start(ids: Seq<u32>, max_seq: nat, draft_max: nat) -> SpecState {
        SpecState {
            seq: ids,
            prompt: ids.len(),
            max_seq,
            draft_max,
            draft_pos: if ids.len() <= draft_max { ids.len() } else { 0 },
            gamma: SPEC_START_DRAFT as nat,
            block: 0,
            proposal: Seq::empty(),
            proposed: 0,
            accepted: 0,
        }
    }

    /// How many tokens the draft may propose behind `n` tokens: at most
    /// `gamma`, within the run's positions, and without being fed a token
    /// outside its own.
    pub open spec fn block_at(self, n: nat) -> nat {
        if n > self.draft_max {
            0
        } else {
            min(min(self.gamma as int, self.max_seq - n), self.draft_max - n + 1) as nat
        }
    }

    /// The state after the target's next token: a block is opened.
    pub open spec fn opened(self, next: u32) -> SpecState {
        let seq = self.seq.push(next);
        SpecState {
            seq,
            draft_pos: if seq.len() > self.draft_max { self.draft_pos } else { seq.len() },
            block: self.block_at(seq.len()),
            proposal: Seq::empty(),
            ..self
        }
    }

    /// The state once the target has answered for every position of the block.
    pub open spec fn settled(self, all: Seq<u32>) -> SpecState {
        let k = agreed(self.proposal, all, 0);
        let seq = self.seq + self.proposal.take(k);
        SpecState {
            seq,
            draft_pos: min(self.draft_pos as int, seq.len() as int) as nat,
            gamma: next_gamma(self.gamma, self.proposal.len(), k as nat),
            block: 0,
            proposal: Seq::empty(),
            proposed: min((self.proposed + self.proposal.len()) as int, usize::MAX as int) as nat,
            accepted: min(self.accepted + k, usize::MAX as int) as nat,
            ..self
        }
    }
}

/// How many tokens of the block the target agrees with, from `i` on.
pub open spec fn agreed(proposal: Seq<u32>, all: Seq<u32>, i: int) -> int
    decreases proposal.len() - i,
{
    if 0 <= i < proposal.len() && all[i] == proposal[i] {
        agreed(proposal, all, i + 1)
    } else {
        i
    }
}

/// The next block's size: one more after a block that was wholly accepted, one
/// less after one of which nothing was.
pub open spec fn next_gamma(gamma: nat, proposed: nat, kept: nat) -> nat {
    if proposed == 0 {
        gamma
    } else if kept == proposed {
        min((gamma + 1) as int, SPEC_MAX_DRAFT as int) as nat
    } else if kept == 0 {
        if gamma <= 1 { 1 } else { (gamma - 1) as nat }
    } else {
        gamma
    }
}

proof fn lemma_agreed_bound(proposal: Seq<u32>, all: Seq<u32>, i: int)
    requires
        0 <= i <= proposal.len(),
    ensures
        i <= agreed(proposal, all, i) <= proposal.len(),
        forall|j: int| i <= j < agreed(proposal, all, i) ==> all[j] == proposal[j],
    decreases proposal.len() - i,
{
    if i < proposal.len() && all[i] == proposal[i] {
        lemma_agreed_bound(proposal, all, i + 1);
    }
}

impl Speculation {
    /// Starts a run of at most `max_seq` positions, of which the draft has
    /// `draft_max`. A prompt that the draft has no positions for is not fed to
    /// it.
    pub fn new(ids: &[u32], max_seq: usize, draft_max: usize) -> (r: Speculation)
        requires
            0 < ids@.len() < max_seq,
        ensures
            r@ == SpecState::at_start(ids@, max_seq as nat, draft_max as nat),
            r@.ok(),
    {
        let mut seq: Vec<u32> = Vec::new();
        seq.extend_from_slice(ids);
        assert(seq@ =~= ids@);
        Speculation {
            seq,
            prompt: ids.len(),
            max_seq,
            draft_max,
            draft_pos: if ids.len() <= draft_max { ids.len() } else { 0 },
            gamma: SPEC_START_DRAFT,
            block: 0,
            proposal: Vec::new(),
            proposed: 0,
            accepted: 0,
        }
    }

    /// Takes the target's next token. The run is over where the positions are
    /// used up or the token ends the text, which is then not kept. Else a block
    /// is opened, which the draft fills as far as its own positions reach.
    pub fn open_round(&mut self, next: u32, eos: &EosIds) -> (r: Round)
        requires
            old(self)@.ok(),
            old(self)@.proposal.len() == 0,
            old(self)@.block == 0,
        ensures
            final(self)@.ok(),
            ({
                let s = old(self)@;
                if s.seq.len() >= s.max_seq || eos@.contains(next) {
                    r is Over && final(self)@ == s
                } else if s.seq.len() + 1 >= s.max_seq {
                    r is Over && final(self)@ == (SpecState { seq: s.seq.push(next), ..s })
                } else if s.seq.len() + 1 > s.draft_max {
                    r is Alone && final(self)@ == s.opened(next)
                } else {
                    &&& r == Round::Draft(s.draft_pos as usize)
                    &&& final(self)@ == s.opened(next)
                    &&& s.draft_pos < final(self)@.seq.len() <= s.draft_max
                    &&& final(self)@.block > 0
                }
            }),
    {
        if self.seq.len() >= self.max_seq || eos.contains(next) {
            return Round::Over;
        }
        self.seq.push(next);
        let n: usize = self.seq.len();
        assert(self.proposal@ =~= Seq::<u32>::empty());
        if n >= self.max_seq {
            assert(self.proposal@ =~= old(self).proposal@);
            return Round::Over;
        }
        if n > self.draft_max {
            return Round::Alone;
        }
        let from: usize = self.draft_pos;
        self.draft_pos = n;
        let room: usize = self.max_seq - n;
        let fits: usize = if self.gamma <= room { self.gamma } else { room };
        let ahead: usize = self.draft_max - n;
        self.block = if fits <= ahead { fits } else { ahead + 1 };
        Round::Draft(from)
    }

    /// Takes the draft's next token. `None` closes the block: it is full, or the
    /// token would end the text, which the target decides. Else the token has to
    /// be fed to the draft at the position returned.
    pub fn draft(&mut self, token: u32, eos: &EosIds) -> (r: Option<usize>)
        requires
            old(self)@.ok(),
            old(self)@.proposal.len() < old(self)@.block,
        ensures
            final(self)@.ok(),
            ({
                let s = old(self)@;
                if eos@.contains(token) {
                    r is None && final(self)@ == s
                } else if s.proposal.len() + 1 == s.block {
                    r is None && final(self)@ == (SpecState { proposal: s.proposal.push(token), ..s })
                } else {
                    &&& r == Some(s.draft_pos as usize)
                    &&& s.draft_pos < s.draft_max
                    &&& final(self)@ == (SpecState {
                        proposal: s.proposal.push(token),
                        draft_pos: s.draft_pos + 1,
                        ..s
                    })
                }
            }),
    {
        if eos.contains(token) {
            return None;
        }
        self.proposal.push(token);
        if self.proposal.len() == self.block {
            return None;
        }
        let pos: usize = self.draft_pos;
        self.draft_pos = pos + 1;
        Some(pos)
    }

    /// The batch that the target checks: its own last token and the block. The
    /// first of them stands at the position returned.
    pub fn batch(&self) -> (r: (Vec<u32>, usize))
        requires
            self@.ok(),
        ensures
            r.0@ == seq![self@.seq.last()] + self@.proposal,
            r.1 == self@.seq.len() - 1,
            r.1 + r.0@.len() <= self@.max_seq,
            r.0@.len() <= SPEC_MAX,
    {
        let n: usize = self.seq.len();
        let mut b: Vec<u32> = Vec::new();
        b.push(self.seq[n - 1]);
        b.extend_from_slice(self.proposal.as_slice());
        assert(b@ =~= seq![self@.seq.last()] + self@.proposal);
        (b, n - 1)
    }

    /// Takes the target's choices after every position of the batch. The agreed
    /// prefix of the block is kept; the target's choice behind it is returned,
    /// to open the next round.
    pub fn settle(&mut self, all: &[u32]) -> (r: u32)
        requires
            old(self)@.ok(),
            all@.len() == old(self)@.proposal.len() + 1,
        ensures
            final(self)@ == old(self)@.settled(all@),
            final(self)@.ok(),
            r == all@[agreed(old(self)@.proposal, all@, 0)],
    {
        let ghost s = self@;
        proof {
            lemma_agreed_bound(s.proposal, all@, 0);
        }
        let n: usize = self.proposal.len();
        let mut k: usize = 0;
        while k < n && all[k] == self.proposal[k]
            invariant
                *self == (Speculation { seq: self.seq, ..*old(self) }),
                s == old(self)@,
                s.ok(),
                n == s.proposal.len(),
                all@.len() == n + 1,
                k <= n,
                agreed(s.proposal, all@, 0) == agreed(s.proposal, all@, k as int),
                self.seq@ == s.seq + s.proposal.take(k as int),
            decreases n - k,
        {
            self.seq.push(self.proposal[k]);
            assert(s.seq + s.proposal.take(k as int + 1) =~= (s.seq + s.proposal.take(k as int)).push(
                s.proposal[k as int],
            ));
            k = k + 1;
        }
        assert(k == agreed(s.proposal, all@, 0));
        self.proposed = self.proposed.saturating_add(n);
        self.accepted = self.accepted.saturating_add(k);
        if n > 0 {
            if k == n {
                self.gamma = if self.gamma + 1 <= SPEC_MAX_DRAFT { self.gamma + 1 } else { SPEC_MAX_DRAFT };
            } else if k == 0 {
                self.gamma = if self.gamma <= 1 { 1 } else { self.gamma - 1 };
            }
        }
        if self.draft_pos > self.seq.len() {
            self.draft_pos = self.seq.len();
        }
        self.proposal = Vec::new();
        self.block = 0;
        assert(self.proposal@ =~= Seq::<u32>::empty());
        all[k]
    }

    /// Everything generated behind the prompt.
    pub fn generated(&self) -> (r: &[u32])
        requires
            self@.ok(),
        ensures
            r@ == self@.seq.skip(self@.prompt as int),
    {
        let r = vstd::slice::slice_subrange(self.seq.as_slice(), self.prompt, self.seq.len());
        assert(r@ =~= self@.seq.skip(self@.prompt as int));
        r
    }

    /// The tokens from `from` on, which the draft has not seen.
    pub fn unseen(&self, from: usize) -> (r: &[u32])
        requires
            from <= self@.seq.len(),
        ensures
            r@ == self@.seq.skip(from as int),
    {
        let r = vstd::slice::slice_subrange(self.seq.as_slice(), from, self.seq.len());
        assert(r@ =~= self@.seq.skip(from as int));
        r
    }

    /// How many tokens were proposed, and how many of them accepted.
    pub fn counts(&self) -> (r: (usize, usize))
        ensures
            r.0 == self@.proposed,
            r.1 == self@.accepted,
    {
        (self.proposed, self.accepted)
    }
}

/// The batch that the target checks never asks for more rows of logits than one
/// step of the GPU yields.
pub proof fn lemma_batch_fits_one_step(s: SpecState)
    requires
        s.ok(),
    ensures
        1 + s.proposal.len() <= SPEC_MAX,
{
}

// ---------- the output is the target's own ----------

/// What the target alone makes of `seq`, greedily: `next` is the token that it
/// chooses after a sequence.
pub open spec fn greedy(next: spec_fn(Seq<u32>) -> u32, eos: Set<u32>, max_seq: nat, seq: Seq<u32>) -> Seq<u32>
    decreases max_seq - seq.len(),
{
    if seq.len() >= max_seq {
        seq
    } else if eos.contains(next(seq)) {
        seq
    } else {
        greedy(next, eos, max_seq, seq.push(next(seq)))
    }
}

/// The block holds no token that ends the text.
pub open spec fn block_clean(s: SpecState, eos: Set<u32>) -> bool {
    forall|i: int| 0 <= i < s.proposal.len() ==> !eos.contains(#[trigger] s.proposal[i])
}

/// Where the run ends or a block opens, what the target alone would make of the
/// run is unchanged, and the end of the run is that text.
pub proof fn lemma_open_is_greedy(next: spec_fn(Seq<u32>) -> u32, eos: Set<u32>, s: SpecState)
    requires
        s.ok(),
    ensures
        s.seq.len() >= s.max_seq || eos.contains(next(s.seq)) ==> greedy(next, eos, s.max_seq, s.seq) == s.seq,
        s.seq.len() < s.max_seq && !eos.contains(next(s.seq)) ==> greedy(next, eos, s.max_seq, s.seq) == greedy(
            next,
            eos,
            s.max_seq,
            s.seq.push(next(s.seq)),
        ),
        s.seq.len() + 1 == s.max_seq && !eos.contains(next(s.seq)) ==> greedy(next, eos, s.max_seq, s.seq)
            == s.seq.push(next(s.seq)),
{
    if s.seq.len() + 1 == s.max_seq && !eos.contains(next(s.seq)) {
        reveal_with_fuel(greedy, 2);
    }
}

/// A settled block changes nothing in what the target alone would make of the
/// run, whatever the draft proposed: the kept tokens are the target's own, and
/// the token that opens the next round is the target's choice after them.
pub proof fn lemma_settle_is_greedy(
    next: spec_fn(Seq<u32>) -> u32,
    eos: Set<u32>,
    s: SpecState,
    all: Seq<u32>,
)
    requires
        s.ok(),
        block_clean(s, eos),
        all.len() == s.proposal.len() + 1,
        forall|i: int| 0 <= i < all.len() ==> #[trigger] all[i] == next(s.seq + s.proposal.take(i)),
    ensures
        greedy(next, eos, s.max_seq, s.settled(all).seq) == greedy(next, eos, s.max_seq, s.seq),
        all[agreed(s.proposal, all, 0)] == next(s.settled(all).seq),
{
    lemma_agreed_bound(s.proposal, all, 0);
    let k = agreed(s.proposal, all, 0);
    lemma_agreed_is_greedy(next, eos, s, all, k);
}

proof fn lemma_agreed_is_greedy(
    next: spec_fn(Seq<u32>) -> u32,
    eos: Set<u32>,
    s: SpecState,
    all: Seq<u32>,
    k: int,
)
    requires
        s.ok(),
        block_clean(s, eos),
        all.len() == s.proposal.len() + 1,
        forall|i: int| 0 <= i < all.len() ==> #[trigger] all[i] == next(s.seq + s.proposal.take(i)),
        0 <= k <= s.proposal.len(),
        forall|j: int| 0 <= j < k ==> all[j] == s.proposal[j],
    ensures
        greedy(next, eos, s.max_seq, s.seq + s.proposal.take(k)) == greedy(next, eos, s.max_seq, s.seq),
    decreases k,
{
    if k == 0 {
        assert(s.seq + s.proposal.take(0) =~= s.seq);
    } else {
        lemma_agreed_is_greedy(next, eos, s, all, k - 1);
        let before = s.seq + s.proposal.take(k - 1);
        assert(s.seq + s.proposal.take(k) =~= before.push(s.proposal[k - 1]));
        assert(all[k - 1] == next(before));
    }
}

/// The draft's cache is never trusted past what was kept: where it held the run
/// and the block up to `draft_pos` before a block was settled, it holds the run
/// up to `draft_pos` after.
pub proof fn lemma_draft_cache_stays_valid(s: SpecState, all: Seq<u32>, cache: Seq<u32>)
    requires
        s.ok(),
        all.len() == s.proposal.len() + 1,
        s.draft_pos <= cache.len(),
        cache.take(s.draft_pos as int) == (s.seq + s.proposal).take(s.draft_pos as int),
    ensures
        s.settled(all).draft_pos <= s.settled(all).seq.len(),
        cache.take(s.settled(all).draft_pos as int) == s.settled(all).seq.take(s.settled(all).draft_pos as int),
{
    lemma_agreed_bound(s.proposal, all, 0);
    let t = s.settled(all);
    assert forall|i: int| 0 <= i < t.draft_pos implies cache[i] == t.seq[i] by {
        assert(i < s.draft_pos);
        assert(cache.take(s.draft_pos as int)[i] == cache[i]);
        assert((s.seq + s.proposal).take(s.draft_pos as int)[i] == (s.seq + s.proposal)[i]);
        assert(i < t.seq.len());
        if i >= s.seq.len() {
            assert(t.seq[i] == s.proposal.take(agreed(s.proposal, all, 0))[i - s.seq.len()]);
        }
    }
    assert(cache.take(t.draft_pos as int) =~= t.seq.take(t.draft_pos as int));
}

/// The run ends at the target's next token, without another block.
pub open spec fn ends_at(next: spec_fn(Seq<u32>) -> u32, eos: Set<u32>, s: SpecState) -> bool {
    s.seq.len() + 1 >= s.max_seq || eos.contains(next(s.seq))
}

/// The tokens of a run that ends at the target's next token.
pub open spec fn final_seq(next: spec_fn(Seq<u32>) -> u32, eos: Set<u32>, s: SpecState) -> Seq<u32> {
    if s.seq.len() >= s.max_seq || eos.contains(next(s.seq)) {
        s.seq
    } else {
        s.seq.push(next(s.seq))
    }
}

/// What the target chooses after every position of a batch.
pub open spec fn answers(next: spec_fn(Seq<u32>) -> u32, s: SpecState) -> Seq<u32> {
    Seq::new((s.proposal.len() + 1) as nat, |i: int| next(s.seq + s.proposal.take(i)))
}

/// A round in which the draft proposes `block` and its cache ends at `pos`.
pub open spec fn drafted(s: SpecState, block: Seq<u32>, pos: nat) -> SpecState {
    SpecState { proposal: block, draft_pos: pos, ..s }
}

/// A block that the draft may propose in the opened round `s`.
pub open spec fn proposable(s: SpecState, eos: Set<u32>, block: Seq<u32>, pos: nat) -> bool {
    &&& block.len() <= s.block
    &&& pos <= s.seq.len() + block.len()
    &&& forall|i: int| 0 <= i < block.len() ==> !eos.contains(#[trigger] block[i])
}

/// A round in which the draft proposes `block` leads from `s` to `t`.
pub open spec fn round_with(
    next: spec_fn(Seq<u32>) -> u32,
    eos: Set<u32>,
    s: SpecState,
    t: SpecState,
    block: Seq<u32>,
    pos: nat,
) -> bool {
    let o = drafted(s.opened(next(s.seq)), block, pos);
    &&& !ends_at(next, eos, s)
    &&& proposable(s.opened(next(s.seq)), eos, block, pos)
    &&& t == o.settled(answers(next, o))
}

/// One round leads from `s` to `t`, whatever the draft proposed.
pub open spec fn round(next: spec_fn(Seq<u32>) -> u32, eos: Set<u32>, s: SpecState, t: SpecState) -> bool {
    exists|block: Seq<u32>, pos: nat| #[trigger] round_with(next, eos, s, t, block, pos)
}

/// The states of a run between its rounds.
pub open spec fn is_run(next: spec_fn(Seq<u32>) -> u32, eos: Set<u32>, states: Seq<SpecState>) -> bool {
    &&& states.len() > 0
    &&& states[0].ok()
    &&& states[0].proposal.len() == 0
    &&& states[0].block == 0
    &&& forall|i: int| 0 <= i < states.len() - 1 ==> round(next, eos, #[trigger] states[i], states[i + 1])
}

proof fn lemma_round_is_greedy(next: spec_fn(Seq<u32>) -> u32, eos: Set<u32>, s: SpecState, t: SpecState)
    requires
        s.ok(),
        s.proposal.len() == 0,
        s.block == 0,
        round(next, eos, s, t),
    ensures
        t.ok(),
        t.proposal.len() == 0,
        t.block == 0,
        t.max_seq == s.max_seq,
        greedy(next, eos, s.max_seq, t.seq) == greedy(next, eos, s.max_seq, s.seq),
{
    let (block, pos) = choose|block: Seq<u32>, pos: nat| #[trigger] round_with(next, eos, s, t, block, pos);
    lemma_open_is_greedy(next, eos, s);
    let o = drafted(s.opened(next(s.seq)), block, pos);
    let all = answers(next, o);
    assert(o.ok());
    assert(block_clean(o, eos));
    lemma_agreed_bound(o.proposal, all, 0);
    lemma_settle_is_greedy(next, eos, o, all);
}

/// The output of a run is token for token what the target makes of the prompt
/// alone, for every draft: what the draft proposes changes only how soon it is
/// reached.
pub proof fn lemma_output_is_the_targets(
    next: spec_fn(Seq<u32>) -> u32,
    eos: Set<u32>,
    states: Seq<SpecState>,
)
    requires
        is_run(next, eos, states),
        ends_at(next, eos, states.last()),
    ensures
        final_seq(next, eos, states.last()) == greedy(next, eos, states[0].max_seq, states[0].seq),
{
    lemma_run_is_greedy(next, eos, states, states.len() - 1);
    lemma_open_is_greedy(next, eos, states.last());
}

proof fn lemma_run_is_greedy(
    next: spec_fn(Seq<u32>) -> u32,
    eos: Set<u32>,
    states: Seq<SpecState>,
    i: int,
)
    requires
        is_run(next, eos, states),
        0 <= i < states.len(),
    ensures
        states[i].ok(),
        states[i].proposal.len() == 0,
        states[i].block == 0,
        states[i].max_seq == states[0].max_seq,
        greedy(next, eos, states[0].max_seq, states[i].seq) == greedy(next, eos, states[0].max_seq, states[0].seq),
    decreases i,
{
    if i > 0 {
        lemma_run_is_greedy(next, eos, states, i - 1);
        assert(round(next, eos, states[i - 1], states[i]));
        lemma_round_is_greedy(next, eos, states[i - 1], states[i]);
    }
}

// ---------- and that is the plain run ----------

/// The choice after a prompt, as a choice after what is generated behind it.
pub open spec fn behind(next: spec_fn(Seq<u32>) -> u32, prompt: Seq<u32>) -> spec_fn(Seq<u32>) -> u32 {
    |done: Seq<u32>| next(prompt + done)
}

/// What the target alone makes of a prompt is the prompt and the tokens of a
/// plain run behind it.
pub proof fn lemma_greedy_is_the_plain_run(
    next: spec_fn(Seq<u32>) -> u32,
    eos: Set<u32>,
    max_seq: nat,
    prompt: Seq<u32>,
    done: Seq<u32>,
)
    requires
        prompt.len() <= max_seq,
    ensures
        greedy(next, eos, max_seq, prompt + done) == prompt + run(
            behind(next, prompt),
            eos,
            (max_seq - prompt.len()) as nat,
            done,
        ),
    decreases max_seq - prompt.len() - done.len(),
{
    let t = next(prompt + done);
    if prompt.len() + done.len() < max_seq && !eos.contains(t) {
        assert((prompt + done).push(t) =~= prompt + done.push(t));
        lemma_greedy_is_the_plain_run(next, eos, max_seq, prompt, done.push(t));
    }
}

/// A speculative run generates, token for token, what a plain run of the target
/// over the same positions does, whatever the draft proposes and however short
/// the draft's window is.
pub proof fn lemma_speculation_is_the_plain_run(
    next: spec_fn(Seq<u32>) -> u32,
    eos: Set<u32>,
    prompt: Seq<u32>,
    max_seq: nat,
    draft_max: nat,
    states: Seq<SpecState>,
)
    requires
        0 < prompt.len() < max_seq <= usize::MAX,
        draft_max <= usize::MAX,
        is_run(next, eos, states),
        states[0] == SpecState::at_start(prompt, max_seq, draft_max),
        ends_at(next, eos, states.last()),
    ensures
        final_seq(next, eos, states.last()).skip(prompt.len() as int) == run(
            behind(next, prompt),
            eos,
            (max_seq - prompt.len()) as nat,
            Seq::empty(),
        ),
{
    lemma_output_is_the_targets(next, eos, states);
    lemma_greedy_is_the_plain_run(next, eos, max_seq, prompt, Seq::empty());
    assert(prompt + Seq::empty() =~= prompt);
    let g = run(behind(next, prompt), eos, (max_seq - prompt.len()) as nat, Seq::empty());
    assert((prompt + g).skip(prompt.len() as int) =~= g);
}

} // verus!
