//! The generation loops as decisions: the budget, what each sampled token does
//! to a run, which text may be shown, and speculative decoding. The caller runs
//! the model and hands in what it answers.
use tokenizers::Tokenizer;
use vstd::prelude::*;
use vstd::string::*;

use crate::config::EosIds;
use crate::gguf::reader::FloatBits;
use crate::gguf::tokenizer::{decode, decoding, encode_text, ids_of, parts, ready};
use crate::text::{chars_of, dec, push_dec, starts, text_of};
use crate::num::min;

verus! {

// ---------- options ----------

/// Generation options.
#[derive(Debug, Clone)]
pub struct GenOptions {
    pub prompt: String,
    pub max_tokens: usize,
    /// Zero is greedy.
    pub temperature: FloatBits,
    pub top_p: FloatBits,
    /// `None` seeds from the clock.
    pub seed: Option<u64>,
    /// Wrap the prompt in a chat template.
    pub chat: bool,
}

/// 0.7 in single precision.
pub const DEFAULT_TEMPERATURE_BITS: u32 = 0x3F33_3333;

/// 0.9 in single precision.
pub const DEFAULT_TOP_P_BITS: u32 = 0x3F66_6666;

impl Default for GenOptions {
    fn default() -> (r: Self)
        ensures
            r.prompt@ == Seq::<char>::empty(),
            r.max_tokens == 200,
            r.temperature == FloatBits::Single(DEFAULT_TEMPERATURE_BITS),
            r.top_p == FloatBits::Single(DEFAULT_TOP_P_BITS),
            r.seed is None,
            !r.chat,
    {
        GenOptions {
            prompt: String::new(),
            max_tokens: 200,
            temperature: FloatBits::Single(DEFAULT_TEMPERATURE_BITS),
            top_p: FloatBits::Single(DEFAULT_TOP_P_BITS),
            seed: None,
            chat: false,
        }
    }
}

/// The bits write zero, of either sign.
pub open spec fn is_zero(x: FloatBits) -> bool {
    match x {
        FloatBits::Single(b) => b == 0 || b == 0x8000_0000,
        FloatBits::Double(b) => b == 0 || b == 0x8000_0000_0000_0000,
    }
}

/// The prompt in the chat template.
pub open spec fn chat_text(user: Seq<char>) -> Seq<char> {
    "<|im_start|>user\n"@ + user + "<|im_end|>\n<|im_start|>assistant\n"@
}

/// Wraps a message in the ChatML template.
pub fn chatml(user_msg: &str) -> (r: String)
    ensures
        r@ == chat_text(user_msg@),
{
    let mut s = "<|im_start|>user\n".to_owned();
    s.append(user_msg);
    s.append("<|im_end|>\n<|im_start|>assistant\n");
    s
}

impl GenOptions {
    /// What is encoded: the prompt, in the chat template where asked for.
    pub open spec fn text(&self) -> Seq<char> {
        if self.chat {
            chat_text(self.prompt@)
        } else {
            self.prompt@
        }
    }

    pub fn full_prompt(&self) -> (r: String)
        ensures
            r@ == self.text(),
    {
        if self.chat {
            chatml(self.prompt.as_str())
        } else {
            self.prompt.clone()
        }
    }

    /// Whether a draft model is used: decoding is speculative only where it is
    /// greedy.
    pub fn speculates(&self, has_draft: bool) -> (r: bool)
        ensures
            r == (has_draft && is_zero(self.temperature)),
    {
        has_draft && match self.temperature {
            FloatBits::Single(b) => b == 0 || b == 0x8000_0000,
            FloatBits::Double(b) => b == 0 || b == 0x8000_0000_0000_0000,
        }
    }
}

/// The verdict on an encoded prompt: an empty one is refused.
pub open spec fn prompt_verdict(ids: Result<Seq<u32>, Seq<char>>) -> Result<Seq<u32>, Seq<char>> {
    match ids {
        Err(e) => Err(e),
        Ok(v) => if v.len() == 0 { Err("empty prompt"@) } else { Ok(v) },
    }
}

/// The view of encoded ids.
pub open spec fn ids_view(r: Result<Vec<u32>, String>) -> Result<Seq<u32>, Seq<char>> {
    match r {
        Ok(v) => Ok(v@),
        Err(e) => Err(e@),
    }
}

/// Refuses an empty prompt.
pub fn check_prompt(ids: Result<Vec<u32>, String>) -> (r: Result<Vec<u32>, String>)
    ensures
        ids_view(r) == prompt_verdict(ids_view(ids)),
{
    match ids {
        Err(e) => Err(e),
        Ok(v) => if v.len() == 0 { Err("empty prompt".to_owned()) } else { Ok(v) },
    }
}

/// Encodes the prompt with a tokenizer from `build_tokenizer`.
pub fn prompt_ids(tokenizer: &Tokenizer, opt: &GenOptions) -> (r: Result<Vec<u32>, String>)
    requires
        ready(*tokenizer),
    ensures
        ids_view(r) == prompt_verdict(ids_of(parts(*tokenizer), opt.text())),
        r matches Ok(v) ==> v@.len() > 0,
{
    let text = opt.full_prompt();
    check_prompt(encode_text(tokenizer, text.as_str()))
}

// ---------- the budget ----------

/// The positions of a run: prompt and budget, within the context window.
pub open spec fn positions(prompt: nat, max_tokens: nat, window: nat) -> int {
    min((prompt + max_tokens) as int, window as int)
}

/// Sizes a run, or refuses a prompt that fills the context window.
pub fn budget(prompt: usize, max_tokens: usize, window: usize) -> (r: Result<usize, String>)
    ensures
        match r {
            Ok(n) => n == positions(prompt as nat, max_tokens as nat, window as nat) && prompt < n,
            Err(e) => prompt >= positions(prompt as nat, max_tokens as nat, window as nat) && e@
                == "prompt ("@ + dec(prompt as nat) + " tokens) exceeds the model's context window"@,
        },
{
    let want: usize = prompt.saturating_add(max_tokens);
    let max_seq: usize = if want <= window { want } else { window };
    if prompt >= max_seq {
        let mut e = "prompt (".to_owned();
        push_dec(&mut e, prompt as u64);
        e.append(" tokens) exceeds the model's context window");
        return Err(e);
    }
    Ok(max_seq)
}

// ---------- greedy choice ----------

/// The bits of a single-precision number that is not a number.
pub open spec fn is_nan(b: u32) -> bool {
    b % 0x8000_0000 > 0x7F80_0000
}

/// The place of a single-precision number on the number line: zero of either
/// sign is 0, and larger numbers have larger places.
pub open spec fn place(b: u32) -> int {
    if b >= 0x8000_0000 {
        -((b - 0x8000_0000) as int)
    } else {
        b as int
    }
}

/// `a > b` for single-precision numbers. Nothing compares with a NaN.
pub open spec fn greater(a: u32, b: u32) -> bool {
    !is_nan(a) && !is_nan(b) && place(a) > place(b)
}

/// The index kept after `k` logits: a later one takes over where it is greater.
pub open spec fn best_of(logits: Seq<u32>, k: nat) -> int
    decreases k,
{
    if k == 0 {
        0
    } else {
        let b = best_of(logits, (k - 1) as nat);
        if greater(logits[k - 1], logits[b]) {
            k - 1
        } else {
            b
        }
    }
}

fn is_greater(a: u32, b: u32) -> (r: bool)
    ensures
        r == greater(a, b),
{
    let (ma, mb) = (a % 0x8000_0000, b % 0x8000_0000);
    if ma > 0x7F80_0000 || mb > 0x7F80_0000 {
        return false;
    }
    let (na, nb) = (a >= 0x8000_0000, b >= 0x8000_0000);
    if na {
        if nb { ma < mb } else { false }
    } else if nb {
        ma > 0 || mb > 0
    } else {
        ma > mb
    }
}

/// The index of the greatest logit, given the logits' bits.
pub fn argmax(logits: &[u32]) -> (r: u32)
    ensures
        r == best_of(logits@, logits@.len()) % 0x1_0000_0000,
{
    let mut best: usize = 0;
    let mut i: usize = 0;
    while i < logits.len()
        invariant
            i <= logits@.len(),
            best == best_of(logits@, i as nat),
            best < i || best == 0,
        decreases logits.len() - i,
    {
        if is_greater(logits[i], logits[best]) {
            best = i;
        }
        i = i + 1;
    }
    (best as u64 % 0x1_0000_0000) as u32
}

/// Among logits without a NaN the greedy choice is the first of the greatest.
pub proof fn lemma_argmax_first_greatest(logits: Seq<u32>, k: nat, i: int)
    requires
        k <= logits.len(),
        forall|j: int| 0 <= j < k ==> !is_nan(#[trigger] logits[j]),
        0 <= i < k,
    ensures
        0 <= best_of(logits, k) < k,
        place(logits[i]) <= place(logits[best_of(logits, k)]),
        i < best_of(logits, k) ==> place(logits[i]) < place(logits[best_of(logits, k)]),
    decreases k,
{
    if k > 1 {
        let b = best_of(logits, (k - 1) as nat);
        if i < k - 1 {
            lemma_argmax_first_greatest(logits, (k - 1) as nat, i);
        } else {
            lemma_argmax_first_greatest(logits, (k - 1) as nat, 0);
        }
        assert(!is_nan(logits[k - 1]));
        assert(!is_nan(logits[b]));
    } else {
        assert(best_of(logits, 0) == 0);
    }
}

// ---------- the text shown ----------

/// A text that ends inside a character.
pub open spec fn is_cut(text: Seq<char>) -> bool {
    text.len() > 0 && text.last() == '\u{FFFD}'
}

/// The text shown so far. Only text that extends it, and that does not end
/// inside a character, is shown.
pub struct Emitter {
    shown: String,
}

impl View for Emitter {
    type V = Seq<char>;

    closed spec fn view(&self) -> Seq<char> {
        self.shown@
    }
}

impl Emitter {
    pub fn new() -> (r: Emitter)
        ensures
            r@ == Seq::<char>::empty(),
    {
        Emitter { shown: String::new() }
    }

    /// The piece of `text` behind what is shown, where it extends that.
    fn rest(&self, text: &str) -> (r: Option<String>)
        ensures
            match r {
                Some(p) => self@.is_prefix_of(text@) && p@ == text@.skip(self@.len() as int),
                None => !self@.is_prefix_of(text@),
            },
    {
        let v = chars_of(text);
        let shown = chars_of(self.shown.as_str());
        if !starts(v.as_slice(), shown.as_slice()) {
            return None;
        }
        let tail = vstd::slice::slice_subrange(v.as_slice(), shown.len(), v.len());
        assert(tail@ =~= text@.skip(self@.len() as int));
        Some(text_of(tail))
    }

    /// Offers the text decoded so far. What it adds is returned to be shown,
    /// unless the text does not extend what is shown or ends inside a character.
    pub fn offer(&mut self, text: &str) -> (r: Option<String>)
        ensures
            match r {
                Some(p) => {
                    &&& old(self)@.is_prefix_of(text@)
                    &&& !is_cut(text@)
                    &&& p@ == text@.skip(old(self)@.len() as int)
                    &&& final(self)@ == text@
                },
                None => {
                    &&& !old(self)@.is_prefix_of(text@) || is_cut(text@)
                    &&& final(self)@ == old(self)@
                },
            },
    {
        let v = chars_of(text);
        if v.len() > 0 && v[v.len() - 1] == '\u{FFFD}' {
            return None;
        }
        match self.rest(text) {
            None => None,
            Some(p) => {
                self.shown = text.to_owned();
                Some(p)
            },
        }
    }

    /// Offers the final text, cut or not.
    pub fn flush(&self, text: &str) -> (r: Option<String>)
        ensures
            match r {
                Some(p) => self@.is_prefix_of(text@) && p@ == text@.skip(self@.len() as int),
                None => !self@.is_prefix_of(text@),
            },
    {
        self.rest(text)
    }

    /// Decodes the ids generated so far, with a tokenizer from
    /// `build_tokenizer`, and offers their text.
    pub fn step(&mut self, tokenizer: &Tokenizer, ids: &[u32]) -> (r: Result<Option<String>, String>)
        requires
            ready(*tokenizer),
        ensures
            match decoding(parts(*tokenizer), ids@) {
                Err(e) => r matches Err(f) && f@ == e && final(self)@ == old(self)@,
                Ok(text) => if old(self)@.is_prefix_of(text) && !is_cut(text) {
                    r matches Ok(Some(p)) && old(self)@ + p@ == text && final(self)@ == text
                } else {
                    r matches Ok(None) && final(self)@ == old(self)@
                },
            },
    {
        match decode(tokenizer, ids) {
            Err(e) => Err(e),
            Ok(text) => {
                let r = self.offer(text.as_str());
                proof {
                    if old(self)@.is_prefix_of(text@) {
                        assert(old(self)@ + text@.skip(old(self)@.len() as int) =~= text@);
                    }
                }
                Ok(r)
            },
        }
    }

    /// Decodes the ids of a run that is over, with a tokenizer from
    /// `build_tokenizer`: its text, and the piece of it that is still to be
    /// shown.
    pub fn finish(&self, tokenizer: &Tokenizer, ids: &[u32]) -> (r: Result<(String, Option<String>), String>)
        requires
            ready(*tokenizer),
        ensures
            match decoding(parts(*tokenizer), ids@) {
                Err(e) => r matches Err(f) && f@ == e,
                Ok(text) => r matches Ok(o) && o.0@ == text && (match o.1 {
                    Some(p) => self@.is_prefix_of(text) && self@ + p@ == text,
                    None => !self@.is_prefix_of(text),
                }),
            },
    {
        match decode(tokenizer, ids) {
            Err(e) => Err(e),
            Ok(text) => {
                let piece = self.flush(text.as_str());
                proof {
                    if self@.is_prefix_of(text@) {
                        assert(self@ + text@.skip(self@.len() as int) =~= text@);
                    }
                }
                Ok((text, piece))
            },
        }
    }
}

/// The pieces of a run, in order, are what is shown: after each offer the shown
/// text is what was shown before followed by the piece.
pub proof fn lemma_pieces_make_the_text(before: Seq<char>, text: Seq<char>)
    requires
        before.is_prefix_of(text),
    ensures
        before + text.skip(before.len() as int) == text,
{
    assert(before + text.skip(before.len() as int) =~= text);
}

// ---------- one request ----------

/// What a run generates from `done` on: tokens chosen by `next` from what is
/// generated so far, until one ends the text or the positions run out.
pub open spec fn run(next: spec_fn(Seq<u32>) -> u32, eos: Set<u32>, room: nat, done: Seq<u32>) -> Seq<u32>
    decreases room - done.len(),
{
    if done.len() >= room {
        done
    } else {
        let t = next(done);
        if eos.contains(t) {
            done
        } else {
            run(next, eos, room, done.push(t))
        }
    }
}

/// One request's run: its prompt length, its positions, its tokens.
pub struct Decoder {
    prompt: usize,
    max_seq: usize,
    generated: Vec<u32>,
}

impl Decoder {
    /// The prompt and everything generated fit the positions.
    pub closed spec fn wf(&self) -> bool {
        self.prompt + self.generated@.len() <= self.max_seq
    }

    pub closed spec fn prompt_len(&self) -> nat {
        self.prompt as nat
    }

    /// How many tokens may be generated.
    pub closed spec fn room(&self) -> nat {
        (self.max_seq - self.prompt) as nat
    }

    pub closed spec fn tokens(&self) -> Seq<u32> {
        self.generated@
    }

    pub fn new(prompt: usize, max_seq: usize) -> (r: Decoder)
        requires
            prompt <= max_seq,
        ensures
            r.wf(),
            r.prompt_len() == prompt,
            r.room() == max_seq - prompt,
            r.tokens() == Seq::<u32>::empty(),
    {
        Decoder { prompt, max_seq, generated: Vec::new() }
    }

    /// Whether there is room for another token.
    pub fn wants_more(&self) -> (r: bool)
        requires
            self.wf(),
        ensures
            r == (self.tokens().len() < self.room()),
    {
        self.prompt + self.generated.len() < self.max_seq
    }

    pub fn generated(&self) -> (r: &[u32])
        ensures
            r@ == self.tokens(),
    {
        self.generated.as_slice()
    }

    /// Takes the sampled token. A token that ends the text is not kept and
    /// yields `None`; any other is kept, and the position to feed it at is
    /// returned.
    pub fn accept(&mut self, next: u32, eos: &EosIds) -> (r: Option<usize>)
        requires
            old(self).wf(),
            old(self).tokens().len() < old(self).room(),
        ensures
            final(self).wf(),
            final(self).prompt_len() == old(self).prompt_len(),
            final(self).room() == old(self).room(),
            match r {
                None => eos@.contains(next) && final(self).tokens() == old(self).tokens(),
                Some(pos) => {
                    &&& !eos@.contains(next)
                    &&& final(self).tokens() == old(self).tokens().push(next)
                    &&& pos == old(self).prompt_len() + old(self).tokens().len()
                },
            },
    {
        if eos.contains(next) {
            return None;
        }
        let pos: usize = self.prompt + self.generated.len();
        self.generated.push(next);
        Some(pos)
    }
}

/// A step of a run keeps what the run will generate, and where a token ends the
/// text or the room is used up the run is over.
pub proof fn lemma_step_keeps_run(next: spec_fn(Seq<u32>) -> u32, eos: Set<u32>, room: nat, done: Seq<u32>)
    ensures
        done.len() >= room ==> run(next, eos, room, done) == done,
        done.len() < room && eos.contains(next(done)) ==> run(next, eos, room, done) == done,
        done.len() < room && !eos.contains(next(done)) ==> run(next, eos, room, done) == run(
            next,
            eos,
            room,
            done.push(next(done)),
        ),
{
}

/// The tokens of one request step by step: nothing at first, and each step adds
/// the token that `next` chooses, which does not end the text.
pub open spec fn plain_steps(next: spec_fn(Seq<u32>) -> u32, eos: Set<u32>, room: nat, steps: Seq<Seq<u32>>) -> bool {
    &&& steps.len() > 0
    &&& steps[0].len() == 0
    &&& forall|i: int| 0 <= i < steps.len() - 1 ==> {
        &&& (#[trigger] steps[i]).len() < room
        &&& !eos.contains(next(steps[i]))
        &&& steps[i + 1] == steps[i].push(next(steps[i]))
    }
}

/// A request that runs until its positions are used up or a token ends the text
/// has generated exactly what `run` says.
pub proof fn lemma_plain_steps_are_the_run(
    next: spec_fn(Seq<u32>) -> u32,
    eos: Set<u32>,
    room: nat,
    steps: Seq<Seq<u32>>,
)
    requires
        plain_steps(next, eos, room, steps),
        steps.last().len() >= room || eos.contains(next(steps.last())),
    ensures
        steps.last() == run(next, eos, room, Seq::empty()),
{
    lemma_steps_keep_run(next, eos, room, steps, steps.len() - 1);
}

proof fn lemma_steps_keep_run(
    next: spec_fn(Seq<u32>) -> u32,
    eos: Set<u32>,
    room: nat,
    steps: Seq<Seq<u32>>,
    i: int,
)
    requires
        plain_steps(next, eos, room, steps),
        0 <= i < steps.len(),
    ensures
        run(next, eos, room, steps[i]) == run(next, eos, room, Seq::empty()),
    decreases i,
{
    if i == 0 {
        assert(steps[0] =~= Seq::empty());
    } else {
        lemma_steps_keep_run(next, eos, room, steps, i - 1);
        assert(steps[i - 1].len() < room);
    }
}

} // verus!
