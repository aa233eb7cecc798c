use lokal::batch::{size_prompt, text_of_request, Scheduler};
use lokal::config::EosIds;
use lokal::generate::{prompt_ids, Emitter, GenOptions};
use lokal::gguf::container::GgufFile;
use lokal::gguf::tokenizer::{build_tokenizer, encode_text, splits, tokenizer_plan, MAX_SPACES};
use tokenizers::utils::SysRegex;

fn put_str(b: &mut Vec<u8>, s: &str) {
    b.extend_from_slice(&(s.len() as u64).to_le_bytes());
    b.extend_from_slice(s.as_bytes());
}

fn put_text(b: &mut Vec<u8>, k: &str, v: &str) {
    put_str(b, k);
    b.extend_from_slice(&8u32.to_le_bytes());
    put_str(b, v);
}

fn put_texts(b: &mut Vec<u8>, k: &str, v: &[&str]) {
    put_str(b, k);
    b.extend_from_slice(&9u32.to_le_bytes());
    b.extend_from_slice(&8u32.to_le_bytes());
    b.extend_from_slice(&(v.len() as u64).to_le_bytes());
    for s in v {
        put_str(b, s);
    }
}

fn put_ints(b: &mut Vec<u8>, k: &str, v: &[i32]) {
    put_str(b, k);
    b.extend_from_slice(&9u32.to_le_bytes());
    b.extend_from_slice(&5u32.to_le_bytes());
    b.extend_from_slice(&(v.len() as u64).to_le_bytes());
    for x in v {
        b.extend_from_slice(&x.to_le_bytes());
    }
}

fn file(model: &str, pre: &str, tokens: &[&str], merges: &[&str], types: &[i32]) -> Vec<u8> {
    let mut b = Vec::new();
    b.extend_from_slice(b"GGUF");
    b.extend_from_slice(&3u32.to_le_bytes());
    b.extend_from_slice(&0u64.to_le_bytes());
    b.extend_from_slice(&5u64.to_le_bytes());
    put_text(&mut b, "tokenizer.ggml.model", model);
    put_text(&mut b, "tokenizer.ggml.pre", pre);
    put_texts(&mut b, "tokenizer.ggml.tokens", tokens);
    put_texts(&mut b, "tokenizer.ggml.merges", merges);
    put_ints(&mut b, "tokenizer.ggml.token_type", types);
    b
}

const TOKENS: [&str; 8] = ["a", "b", "c", "ab", "abc", "<|end|>", "\u{120}", "1"];

fn small(pre: &str) -> Vec<u8> {
    file("gpt2", pre, &TOKENS, &["a b", "ab c"], &[1, 1, 1, 1, 1, 3, 1, 1])
}

fn prompt(text: &str) -> GenOptions {
    GenOptions { prompt: text.to_string(), ..GenOptions::default() }
}

#[test]
fn a_plan_holds_the_files_parts() {
    let bytes = small("qwen2");
    let g = GgufFile::open("m", &bytes).unwrap();
    let p = tokenizer_plan(&g).unwrap();
    assert_eq!(p.vocab.len(), 8);
    assert_eq!(p.vocab[3], ("ab".to_string(), 3));
    assert_eq!(p.merges, vec![("a".to_string(), "b".to_string()), ("ab".to_string(), "c".to_string())]);
    assert_eq!(p.specials, vec!["<|end|>".to_string()]);
    assert!(p.regex.contains(r"\p{N}|"), "{}", p.regex);
}

#[test]
fn a_family_has_its_own_expression() {
    let of = |pre: &str| {
        let bytes = small(pre);
        let g = GgufFile::open("m", &bytes).unwrap();
        tokenizer_plan(&g).unwrap().regex
    };
    assert!(of("llama-bpe").contains(r"\p{N}{1,3}"));
    assert_eq!(of("llama-bpe"), of("llama3"));
    assert!(of("qwen35").contains(r"[\p{L}\p{M}]+"));
    assert_eq!(of("unheard-of"), of("gpt2"));
}

#[test]
fn merges_and_specials_take_effect() {
    let bytes = small("gpt2");
    let g = GgufFile::open("m", &bytes).unwrap();
    let t = build_tokenizer(&g).unwrap();
    assert_eq!(prompt_ids(&t, &prompt("abcab")).unwrap(), vec![4, 3]);
    assert_eq!(prompt_ids(&t, &prompt("ab<|end|>c")).unwrap(), vec![3, 5, 2]);
    assert_eq!(prompt_ids(&t, &prompt("ab c")).unwrap(), vec![3, 6, 2]);
    assert_eq!(prompt_ids(&t, &prompt("")).unwrap_err(), "empty prompt");
}

#[test]
fn a_text_that_cannot_be_split_is_refused() {
    let bytes = small("qwen2");
    let g = GgufFile::open("m", &bytes).unwrap();
    let t = build_tokenizer(&g).unwrap();
    let long = " ".repeat(MAX_SPACES + 1);
    assert!(!splits(&long));
    assert!(splits(&long[1..]));
    assert!(splits(&format!("{}a{}", &long[1..], &long[1..])));
    assert_eq!(
        prompt_ids(&t, &prompt(&long)).unwrap_err(),
        "the prompt is too long, or holds too much white space in a row, to be split"
    );
    assert_eq!(encode_text(&t, &format!("ab{}", "\u{3000}".repeat(50_000))).unwrap()[0], 3);
}

#[test]
fn the_longest_run_of_spaces_is_within_the_engines_limit() {
    let text = format!("{}a", " ".repeat(MAX_SPACES));
    for pre in ["gpt2", "qwen2", "qwen35", "llama3"] {
        let bytes = small(pre);
        let g = GgufFile::open("m", &bytes).unwrap();
        let regex = SysRegex::new(&tokenizer_plan(&g).unwrap().regex).unwrap();
        assert!(regex.find_iter(&text).count() > 0);
    }
}

#[test]
fn repeated_and_empty_control_tokens_are_passed_over() {
    let tokens = ["a", "<|end|>", "", "<|end|>"];
    let bytes = file("gpt2", "gpt2", &tokens, &[], &[1, 3, 3, 3]);
    let g = GgufFile::open("m", &bytes).unwrap();
    assert_eq!(tokenizer_plan(&g).unwrap().specials, vec!["<|end|>", "", "<|end|>"]);
    let t = build_tokenizer(&g).unwrap();
    // Of two equal tokens the later has the id.
    assert_eq!(prompt_ids(&t, &prompt("a<|end|>a")).unwrap(), vec![0, 3, 0]);
    assert_eq!(Emitter::new().step(&t, &[0, 3, 0]).unwrap().as_deref(), Some("aa"));
}

#[test]
fn text_is_normalised_before_it_is_split() {
    // A letter with a combining accent becomes one character of two bytes.
    let tokens = ["a", "\u{c3}", "\u{a9}", "\u{c3}\u{a9}"];
    let bytes = file("gpt2", "gpt2", &tokens, &["\u{c3} \u{a9}"], &[1, 1, 1, 1]);
    let g = GgufFile::open("m", &bytes).unwrap();
    let t = build_tokenizer(&g).unwrap();
    assert_eq!(prompt_ids(&t, &prompt("e\u{301}")).unwrap(), vec![3]);
}

#[test]
fn an_emitter_shows_what_the_ids_decode_to() {
    let bytes = small("gpt2");
    let g = GgufFile::open("m", &bytes).unwrap();
    let t = build_tokenizer(&g).unwrap();
    let mut e = Emitter::new();
    assert_eq!(e.step(&t, &[4]).unwrap().as_deref(), Some("abc"));
    assert_eq!(e.step(&t, &[4, 6]).unwrap().as_deref(), Some(" "));
    // A special token is not text.
    assert_eq!(e.step(&t, &[4, 6, 5]).unwrap().as_deref(), Some(""));
    assert_eq!(e.step(&t, &[4, 6, 5, 0]).unwrap().as_deref(), Some("a"));
}

#[test]
fn an_unfinished_character_is_held_back() {
    let tokens = ["a", "\u{c3}", "\u{a9}"];
    let bytes = file("gpt2", "gpt2", &tokens, &[], &[1, 1, 1]);
    let g = GgufFile::open("m", &bytes).unwrap();
    let t = build_tokenizer(&g).unwrap();
    let mut e = Emitter::new();
    assert_eq!(e.step(&t, &[0]).unwrap().as_deref(), Some("a"));
    assert_eq!(e.step(&t, &[0, 1]).unwrap(), None);
    assert_eq!(e.step(&t, &[0, 1, 2]).unwrap().as_deref(), Some("\u{e9}"));
}

#[test]
fn other_models_and_bad_merges_are_refused() {
    let bytes = file("llama", "x", &["a"], &[], &[]);
    let g = GgufFile::open("m", &bytes).unwrap();
    assert_eq!(
        build_tokenizer(&g).unwrap_err(),
        "GGUF tokenizer model \"llama\" is not supported yet — byte-level BPE (\"gpt2\") only; use the \
         safetensors checkpoint for this model"
    );
    let bytes = file("gpt2", "x", &["a"], &["a\"b"], &[]);
    let g = GgufFile::open("m", &bytes).unwrap();
    assert_eq!(build_tokenizer(&g).unwrap_err(), "malformed merge entry \"a\\\"b\"");
    let bytes = file("gpt2", "x", &["a"], &["a b"], &[]);
    let g = GgufFile::open("m", &bytes).unwrap();
    assert!(build_tokenizer(&g).unwrap_err().contains("b"));
}

#[test]
fn a_finished_run_has_its_text_and_its_last_piece() {
    let bytes = small("gpt2");
    let g = GgufFile::open("m", &bytes).unwrap();
    let t = build_tokenizer(&g).unwrap();
    let mut e = Emitter::new();
    e.step(&t, &[3]).unwrap();
    assert_eq!(e.finish(&t, &[3, 2]).unwrap(), ("abc".to_string(), Some("c".to_string())));
    assert_eq!(e.finish(&t, &[2]).unwrap(), ("c".to_string(), None));
}

#[test]
fn requests_are_encoded_and_sized() {
    let bytes = small("gpt2");
    let g = GgufFile::open("m", &bytes).unwrap();
    let t = build_tokenizer(&g).unwrap();
    let mut s: Scheduler<()> = Scheduler::new(1, 10, 100);
    let mut opt = prompt("abcab");
    opt.max_tokens = 4;
    assert_eq!(size_prompt(&s, &t, &opt).unwrap(), (vec![4, 3], 6));
    assert_eq!(
        size_prompt(&s, &t, &prompt("")).unwrap_err(),
        "prompt (0 tokens) is empty or exceeds the 10-token budget"
    );
    s.enter(2, 3, ());
    let done = s.take(2, &EosIds::One(9)).unwrap();
    assert_eq!(text_of_request(&t, &done).unwrap(), "c");
}
