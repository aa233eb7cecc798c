use lokal::config::EosIds;
use lokal::engine::{create, create_lowmem, create_metal_quant, Backend, LowMemOpts};
use lokal::generate::{argmax, budget, chatml, check_prompt, Decoder, Emitter, GenOptions};
use lokal::gguf::reader::FloatBits;
use lokal::speculative::{speculative_budget, Round, Speculation};

#[test]
fn default_options_are_the_documented_ones() {
    let o = GenOptions::default();
    assert_eq!(o.max_tokens, 200);
    assert_eq!(o.temperature, FloatBits::Single(0.7f32.to_bits()));
    assert_eq!(o.top_p, FloatBits::Single(0.9f32.to_bits()));
    assert!(o.seed.is_none() && !o.chat);
}

#[test]
fn a_chat_prompt_is_wrapped() {
    assert_eq!(chatml("hi"), "<|im_start|>user\nhi<|im_end|>\n<|im_start|>assistant\n");
    let mut o = GenOptions { prompt: "hi".to_string(), ..GenOptions::default() };
    assert_eq!(o.full_prompt(), "hi");
    o.chat = true;
    assert_eq!(o.full_prompt(), chatml("hi"));
}

#[test]
fn only_greedy_runs_speculate() {
    let mut o = GenOptions::default();
    assert!(!o.speculates(true));
    o.temperature = FloatBits::Single((-0.0f32).to_bits());
    assert!(o.speculates(true) && !o.speculates(false));
    o.temperature = FloatBits::Single(0);
    assert!(o.speculates(true));
}

#[test]
fn prompts_must_hold_something_and_leave_room() {
    assert_eq!(check_prompt(Ok(vec![])), Err("empty prompt".to_string()));
    assert_eq!(check_prompt(Ok(vec![1])), Ok(vec![1]));
    assert_eq!(check_prompt(Err("bad".to_string())), Err("bad".to_string()));
    assert_eq!(budget(10, 5, 100), Ok(15));
    assert_eq!(budget(10, 500, 100), Ok(100));
    assert_eq!(budget(10, usize::MAX, 100), Ok(100));
    assert_eq!(
        budget(100, 5, 100),
        Err("prompt (100 tokens) exceeds the model's context window".to_string())
    );
    assert!(budget(10, 0, 100).is_err());
}

fn bits(v: &[f32]) -> Vec<u32> {
    v.iter().map(|x| x.to_bits()).collect()
}

#[test]
fn the_first_greatest_logit_wins() {
    assert_eq!(argmax(&bits(&[0.5, 2.0, 2.0, -1.0])), 1);
    assert_eq!(argmax(&bits(&[-3.0, -1.0, -2.0])), 1);
    assert_eq!(argmax(&bits(&[-0.0, 0.0])), 0);
    assert_eq!(argmax(&bits(&[1.0, f32::NAN, 2.0])), 2);
    assert_eq!(argmax(&bits(&[f32::NEG_INFINITY, f32::INFINITY])), 1);
    assert_eq!(argmax(&[]), 0);
}

#[test]
fn a_run_ends_at_an_end_token_or_its_budget() {
    let eos = EosIds::One(9);
    let mut d = Decoder::new(2, 5);
    assert!(d.wants_more());
    assert!(d.accept(4, &eos).is_some());
    assert!(d.accept(9, &eos).is_none());
    assert_eq!(d.generated(), [4]);
    let mut d = Decoder::new(2, 4);
    d.accept(4, &eos);
    d.accept(5, &eos);
    assert!(!d.wants_more());
    assert_eq!(d.generated(), [4, 5]);
}

#[test]
fn shown_text_only_grows() {
    let mut e = Emitter::new();
    assert_eq!(e.offer("ab").as_deref(), Some("ab"));
    assert_eq!(e.offer("abc\u{FFFD}"), None);
    assert_eq!(e.offer("abcd").as_deref(), Some("cd"));
    assert_eq!(e.offer("xyz"), None);
    assert_eq!(e.flush("abcd!").as_deref(), Some("!"));
    assert_eq!(e.flush("other"), None);
}

/// A model that answers by a rule: the next token is a function of the last two.
fn target(seq: &[u32]) -> u32 {
    let n = seq.len();
    (seq[n - 1] * 7 + if n > 1 { seq[n - 2] } else { 0 } + 1) % 11
}

/// A draft that is right most of the time.
fn sketch(seq: &[u32]) -> u32 {
    if seq.len() % 3 == 0 {
        0
    } else {
        target(seq)
    }
}

/// What the target alone makes of a prompt.
fn alone(prompt: &[u32], max_seq: usize) -> Vec<u32> {
    let mut seq = prompt.to_vec();
    while seq.len() < max_seq {
        seq.push(target(&seq));
    }
    seq
}

/// A speculative run with a draft of `draft_max` positions: what it generates, how many
/// rounds it takes, and how many rounds the draft takes part in.
fn speculate(prompt: &[u32], max_seq: usize, draft_max: usize) -> (Speculation, usize, usize) {
    let eos = EosIds::Many(vec![]);
    let mut s = Speculation::new(prompt, max_seq, draft_max);
    let mut next = target(prompt);
    let (mut rounds, mut drafted) = (0, 0);
    loop {
        let context = |s: &Speculation| [prompt, s.generated()].concat();
        match s.open_round(next, &eos) {
            Round::Over => return (s, rounds, drafted),
            Round::Alone => {}
            Round::Draft(from) => {
                drafted += 1;
                let mut ctx = context(&s);
                assert!(from < ctx.len() && ctx.len() <= draft_max);
                loop {
                    let t = sketch(&ctx);
                    ctx.push(t);
                    let Some(pos) = s.draft(t, &eos) else { break };
                    assert!(pos < draft_max);
                }
            }
        }
        rounds += 1;
        let (batch, at) = s.batch();
        assert!(batch.len() <= 8 && at + batch.len() <= max_seq);
        let mut seq = context(&s)[..at].to_vec();
        let mut all = Vec::new();
        for t in batch {
            seq.push(t);
            all.push(target(&seq));
        }
        next = s.settle(&all);
    }
}

#[test]
fn speculation_yields_what_the_target_alone_yields() {
    let prompt = [3u32, 5];
    let want = alone(&prompt, 20);
    let (s, rounds, drafted) = speculate(&prompt, 20, 20);
    assert_eq!(s.generated(), &want[2..]);
    assert_eq!(rounds, drafted);
    let (proposed, accepted) = s.counts();
    assert!(rounds < 18, "nothing was gained");
    assert!(accepted > 0 && accepted < proposed);
}

#[test]
fn a_short_draft_window_changes_only_the_speed() {
    let prompt = [3u32, 5];
    let want = alone(&prompt, 20);
    let (s, rounds, drafted) = speculate(&prompt, 20, 9);
    assert_eq!(s.generated(), &want[2..]);
    assert!(drafted > 0 && drafted < rounds);
    // A draft that cannot hold the prompt takes no part.
    let (s, _, drafted) = speculate(&prompt, 20, 1);
    assert_eq!(s.generated(), &want[2..]);
    assert_eq!(drafted, 0);
    assert_eq!(s.counts(), (0, 0));
}

#[test]
fn a_speculative_run_is_sized_by_the_target() {
    assert_eq!(speculative_budget(10, 20, 100, 16), Ok((30, 16)));
    assert_eq!(speculative_budget(10, 20, 100, 64), Ok((30, 30)));
    assert_eq!(speculative_budget(10, 20, 25, 8), Ok((25, 8)));
    assert_eq!(
        speculative_budget(30, 20, 25, 100),
        Err("prompt (30 tokens) exceeds the model's context window".to_string())
    );
}

#[test]
fn backends_are_made_by_name() {
    assert_eq!(create("cpu", false, false), Ok(Backend::Cpu));
    assert!(create("cpu", true, false).is_err());
    assert!(create("metal", false, false).is_err());
    assert!(create("metal", true, true).is_ok());
    assert!(create("nonsense", false, true).is_err());
    assert_eq!(create_lowmem(true), Ok(()));
    assert_eq!(create_lowmem(false), Err("the lowmem backend needs Metal — macOS only".to_string()));
    assert_eq!(
        create_metal_quant(false),
        Err("quantized GGUF execution needs Metal — macOS only".to_string())
    );
    let _ = LowMemOpts::default();
}
