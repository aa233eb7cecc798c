//! The tokenizer built from the vocabulary that a GGUF file embeds: byte-level
//! BPE over the file's tokens and merges, NFC, a split by the family's regular
//! expression, and control tokens registered as special.
use tokenizers::models::bpe::BPE;
use tokenizers::pre_tokenizers::split::Split;
use tokenizers::Tokenizer;
use vstd::prelude::*;
use vstd::string::*;
use vstd::utf8::*;

use crate::gguf::arch::or_else;
use crate::gguf::container::GgufFile;
use crate::gguf::layout::{ints_of, str_of, strs_of};
use crate::gguf::reader::MetaValue;
use crate::text::{chars_of, dec, find, push_dec, same, split_once, text_of, texts};

verus! {

// ---------- the outside types ----------

/// A BPE model of the `tokenizers` crate.
#[verifier::external_type_specification]
#[verifier::external_body]
pub struct ExBpe(BPE);

/// A regular-expression split of the `tokenizers` crate.
#[verifier::external_type_specification]
#[verifier::external_body]
pub struct ExSplit(Split);

/// A tokenizer of the `tokenizers` crate.
#[verifier::external_type_specification]
#[verifier::external_body]
pub struct ExTokenizer(Tokenizer);

/// The ids that a BPE model gives its tokens.
pub uninterp spec fn bpe_vocab(b: BPE) -> Map<Seq<char>, u32>;

/// The merges of a BPE model, each with its rank.
pub uninterp spec fn bpe_ranks(b: BPE) -> Map<(Seq<char>, Seq<char>), u32>;

/// The model has a vocabulary and merges, and everything else at its default: no
/// merge is dropped, and nothing stands for what is not in the vocabulary.
pub uninterp spec fn bpe_plain(b: BPE) -> bool;

/// The regular expression of a split.
pub uninterp spec fn split_pattern(s: Split) -> Seq<char>;

/// The split is by a regular expression, each match isolated, not inverted.
pub uninterp spec fn split_isolates(s: Split) -> bool;

/// How a tokenizer was assembled here: its vocabulary, its merges by rank,
/// whether it normalises to NFC, the regular expression it splits by before
/// mapping bytes to characters, whether it decodes such characters back to
/// bytes, and its special tokens.
pub struct Parts {
    pub vocab: Map<Seq<char>, u32>,
    pub ranks: Map<(Seq<char>, Seq<char>), u32>,
    pub nfc: bool,
    pub split: Option<Seq<char>>,
    pub byte_decoder: bool,
    pub specials: Set<Seq<char>>,
}

/// How a tokenizer was assembled, where that happened here.
pub uninterp spec fn parts_of(t: Tokenizer) -> Option<Parts>;

// ---------- building the model ----------

/// The ids of a list of tokens with ids: of two entries for one token the later
/// stands.
pub open spec fn vocab_of(pairs: Seq<(String, u32)>) -> Map<Seq<char>, u32>
    decreases pairs.len(),
{
    if pairs.len() == 0 {
        Map::empty()
    } else {
        vocab_of(pairs.drop_last()).insert(pairs.last().0@, pairs.last().1)
    }
}

/// The texts of a list of merges.
pub open spec fn merge_texts(v: Seq<(String, String)>) -> Seq<(Seq<char>, Seq<char>)> {
    Seq::new(v.len(), |i: int| (v[i].0@, v[i].1@))
}

/// The ranks of the first `k` merges, taken to 32 bits: of two equal merges the
/// later stands.
pub open spec fn ranks_of(merges: Seq<(Seq<char>, Seq<char>)>, k: nat) -> Map<(Seq<char>, Seq<char>), u32>
    decreases k,
{
    if k == 0 {
        Map::empty()
    } else {
        ranks_of(merges, (k - 1) as nat).insert(merges[k - 1], ((k - 1) % 0x1_0000_0000) as u32)
    }
}

/// The token that keeps a merge from being built: a half or the whole that is
/// not in the vocabulary.
pub open spec fn merge_missing(vocab: Map<Seq<char>, u32>, m: (Seq<char>, Seq<char>)) -> Option<Seq<char>> {
    if !vocab.dom().contains(m.0) {
        Some(m.0)
    } else if !vocab.dom().contains(m.1) {
        Some(m.1)
    } else if !vocab.dom().contains(m.0 + m.1) {
        Some(m.0 + m.1)
    } else {
        None
    }
}

/// The token that keeps the first `k` merges from being built.
pub open spec fn first_missing(
    vocab: Map<Seq<char>, u32>,
    merges: Seq<(Seq<char>, Seq<char>)>,
    k: nat,
) -> Option<Seq<char>>
    decreases k,
{
    if k == 0 {
        None
    } else {
        match first_missing(vocab, merges, (k - 1) as nat) {
            Some(t) => Some(t),
            None => merge_missing(vocab, merges[k - 1]),
        }
    }
}

/// The merge joins two tokens to more bytes than any token has.
pub open spec fn overlong(vocab: Map<Seq<char>, u32>, m: (Seq<char>, Seq<char>)) -> bool {
    &&& vocab.dom().contains(m.0)
    &&& vocab.dom().contains(m.1)
    &&& forall|t: Seq<char>| #[trigger]
        vocab.dom().contains(t) ==> encode_utf8(t).len() < encode_utf8(m.0).len() + encode_utf8(m.1).len()
}

/// No two tokens share an id.
pub open spec fn ids_apart(vocab: Map<Seq<char>, u32>) -> bool {
    forall|a: Seq<char>, b: Seq<char>|
        #![trigger vocab[a], vocab[b]]
        vocab.dom().contains(a) && vocab.dom().contains(b) && a != b ==> vocab[a] != vocab[b]
}

/// `BpeBuilder::build` over a vocabulary and merges, with everything else at its
/// default. It fails on the first merge with a half or a whole outside the
/// vocabulary, naming that token; else the model has that vocabulary and those
/// merges, ranked by their places, and nothing else set. The model keeps a merge
/// by the ids of its halves, so no two tokens may share one. On a merge that is
/// longer than every token it would panic.
#[verifier::external_body]
fn build_bpe(vocab: Vec<(String, u32)>, merges: Vec<(String, String)>) -> (r: Result<BPE, String>)
    requires
        ids_apart(vocab_of(vocab@)),
        forall|i: int| 0 <= i < merges@.len() ==> !overlong(vocab_of(vocab@), #[trigger] merge_texts(merges@)[i]),
    ensures
        match r {
            Ok(b) => {
                &&& first_missing(vocab_of(vocab@), merge_texts(merges@), merges@.len()) is None
                &&& bpe_plain(b)
                &&& bpe_vocab(b) == vocab_of(vocab@)
                &&& bpe_ranks(b) == ranks_of(merge_texts(merges@), merges@.len())
            },
            Err(e) => {
                &&& first_missing(vocab_of(vocab@), merge_texts(merges@), merges@.len()) matches Some(t)
                &&& e@ == "Token `"@ + t + "` out of vocabulary"@
            },
        },
{
    let vocab: tokenizers::models::bpe::Vocab = vocab.into_iter().collect();
    BPE::builder().vocab_and_merges(vocab, merges).build().map_err(|e| e.to_string())
}

/// What is wrong with a regular expression, if anything.
pub uninterp spec fn regex_error(pattern: Seq<char>) -> Option<Seq<char>>;

/// `Split::new` with a regular expression, each match isolated, not inverted. It
/// fails where the expression does not compile.
#[verifier::external_body]
fn regex_split(pattern: &str) -> (r: Result<Split, String>)
    ensures
        match r {
            Ok(s) => regex_error(pattern@) is None && split_pattern(s) == pattern@ && split_isolates(s),
            Err(e) => regex_error(pattern@) == Some(e@),
        },
{
    let regex = tokenizers::pre_tokenizers::split::SplitPattern::Regex(pattern.to_owned());
    Split::new(regex, tokenizers::SplitDelimiterBehavior::Isolated, false).map_err(|e| e.to_string())
}

/// `Tokenizer::new`: a tokenizer over the model, with nothing else set.
#[verifier::external_body]
fn new_tokenizer(bpe: BPE) -> (r: Tokenizer)
    requires
        bpe_plain(bpe),
    ensures
        parts_of(r) == Some(
            Parts {
                vocab: bpe_vocab(bpe),
                ranks: bpe_ranks(bpe),
                nfc: false,
                split: None,
                byte_decoder: false,
                specials: Set::empty(),
            },
        ),
{
    Tokenizer::new(bpe)
}

/// `Tokenizer::with_normalizer` with NFC.
#[verifier::external_body]
fn set_nfc(tok: &mut Tokenizer)
    ensures
        parts_of(*old(tok)) matches Some(p) ==> parts_of(*final(tok)) == Some((Parts { nfc: true, ..p })),
{
    let _ = tok.with_normalizer(Some(tokenizers::normalizers::unicode::NFC));
}

/// `Tokenizer::with_pre_tokenizer` with the split, followed by the byte-level
/// mapping without a prefix space, offset trimming or a regex of its own.
#[verifier::external_body]
fn set_split(tok: &mut Tokenizer, split: Split)
    requires
        split_isolates(split),
    ensures
        parts_of(*old(tok)) matches Some(p) ==> parts_of(*final(tok)) == Some(
            (Parts { split: Some(split_pattern(split)), ..p }),
        ),
{
    let bytes = tokenizers::pre_tokenizers::byte_level::ByteLevel::new(false, false, false);
    let steps = vec![split.into(), bytes.into()];
    let _ = tok.with_pre_tokenizer(Some(tokenizers::pre_tokenizers::sequence::Sequence::new(steps)));
}

/// `Tokenizer::with_decoder` with the byte-level mapping.
#[verifier::external_body]
fn set_byte_decoder(tok: &mut Tokenizer)
    ensures
        parts_of(*old(tok)) matches Some(p) ==> parts_of(*final(tok)) == Some((Parts { byte_decoder: true, ..p })),
{
    let bytes = tokenizers::pre_tokenizers::byte_level::ByteLevel::new(false, false, false);
    let _ = tok.with_decoder(Some(bytes));
}

/// The special tokens that a list of texts registers: each text once, but for
/// the empty one.
pub open spec fn special_set(v: Seq<Seq<char>>) -> Set<Seq<char>> {
    v.to_set().remove(Seq::empty())
}

/// `Tokenizer::add_special_tokens`, called once and with tokens of the
/// vocabulary: registers them as special. Each keeps its id; a repeat and an
/// empty text are passed over.
#[verifier::external_body]
fn add_specials(tok: &mut Tokenizer, tokens: Vec<String>)
    requires
        parts_of(*old(tok)) matches Some(p) && p.specials == Set::<Seq<char>>::empty() && ids_apart(p.vocab)
            && forall|i: int| 0 <= i < tokens@.len() ==> p.vocab.dom().contains((#[trigger] tokens@[i])@),
    ensures
        parts_of(*final(tok)) == Some(
            (Parts { specials: special_set(texts(tokens@)), ..parts_of(*old(tok))->Some_0 }),
        ),
{
    let _ = tok.add_special_tokens(tokens.into_iter().map(|s| tokenizers::AddedToken::from(s, true)));
}

// ---------- what the metadata asks for ----------

/// A text as a quoted, escaped literal.
pub uninterp spec fn quoted(s: Seq<char>) -> Seq<char>;

/// The `Debug` text of a string: quoted, with the escapes of a Rust literal.
#[verifier::external_body]
fn debug_text(s: &str) -> (r: String)
    ensures
        r@ == quoted(s@),
{
    format!("{s:?}")
}

/// Everything a tokenizer is built from, as plain values.
pub struct TokenizerPlan {
    pub vocab: Vec<(String, u32)>,
    pub merges: Vec<(String, String)>,
    pub regex: String,
    pub specials: Vec<String>,
}

/// What a plan says.
pub struct PlanView {
    pub tokens: Seq<Seq<char>>,
    pub merges: Seq<(Seq<char>, Seq<char>)>,
    pub regex: Seq<char>,
    pub specials: Seq<Seq<char>>,
}

/// The token list with each token's index as its id, taken to 32 bits.
pub open spec fn numbered(pairs: Seq<(String, u32)>, tokens: Seq<Seq<char>>) -> bool {
    pairs.len() == tokens.len() && forall|i: int|
        0 <= i < tokens.len() ==> (#[trigger] pairs[i]).0@ == tokens[i] && pairs[i].1 == (i % 0x1_0000_0000) as u32
}

impl TokenizerPlan {
    /// The plan says what `v` says.
    pub open spec fn is(&self, v: PlanView) -> bool {
        &&& numbered(self.vocab@, v.tokens)
        &&& merge_texts(self.merges@) == v.merges
        &&& self.regex@ == v.regex
        &&& texts(self.specials@) == v.specials
    }
}

/// The splitting expression of a pre-tokenizer family. Any unknown family
/// splits as GPT-2 does.
pub open spec fn family_regex(pre: Seq<char>) -> Seq<char> {
    if pre == "qwen2"@ {
        r"(?i:'s|'t|'re|'ve|'m|'ll|'d)|[^\r\n\p{L}\p{N}]?\p{L}+|\p{N}| ?[^\s\p{L}\p{N}]+[\r\n]*|\s*[\r\n]+|\s+(?!\S)|\s+"@
    } else if pre == "qwen35"@ {
        r"(?i:'s|'t|'re|'ve|'m|'ll|'d)|[^\r\n\p{L}\p{N}]?[\p{L}\p{M}]+|\p{N}| ?[^\s\p{L}\p{M}\p{N}]+[\r\n]*|\s*[\r\n]+|\s+(?!\S)|\s+"@
    } else if pre == "llama3"@ || pre == "llama-bpe"@ {
        r"(?i:'s|'t|'re|'ve|'m|'ll|'d)|[^\r\n\p{L}\p{N}]?\p{L}+|\p{N}{1,3}| ?[^\s\p{L}\p{N}]+[\r\n]*|\s*[\r\n]+|\s+(?!\S)|\s+"@
    } else {
        r"'s|'t|'re|'ve|'m|'ll|'d| ?\p{L}+| ?\p{N}+| ?[^\s\p{L}\p{N}]+|\s+(?!\S)|\s+"@
    }
}

fn regex_of(pre: &str) -> (r: &'static str)
    ensures
        r@ == family_regex(pre@),
{
    if same(pre, "qwen2") {
        r"(?i:'s|'t|'re|'ve|'m|'ll|'d)|[^\r\n\p{L}\p{N}]?\p{L}+|\p{N}| ?[^\s\p{L}\p{N}]+[\r\n]*|\s*[\r\n]+|\s+(?!\S)|\s+"
    } else if same(pre, "qwen35") {
        r"(?i:'s|'t|'re|'ve|'m|'ll|'d)|[^\r\n\p{L}\p{N}]?[\p{L}\p{M}]+|\p{N}| ?[^\s\p{L}\p{M}\p{N}]+[\r\n]*|\s*[\r\n]+|\s+(?!\S)|\s+"
    } else if same(pre, "llama3") || same(pre, "llama-bpe") {
        r"(?i:'s|'t|'re|'ve|'m|'ll|'d)|[^\r\n\p{L}\p{N}]?\p{L}+|\p{N}{1,3}| ?[^\s\p{L}\p{N}]+[\r\n]*|\s*[\r\n]+|\s+(?!\S)|\s+"
    } else {
        r"'s|'t|'re|'ve|'m|'ll|'d| ?\p{L}+| ?\p{N}+| ?[^\s\p{L}\p{N}]+|\s+(?!\S)|\s+"
    }
}

/// The first `k` merge entries, each split at its first space.
pub open spec fn split_merges(raw: Seq<Seq<char>>, k: nat) -> Result<Seq<(Seq<char>, Seq<char>)>, Seq<char>>
    decreases k,
{
    if k == 0 {
        Ok(Seq::empty())
    } else {
        match split_merges(raw, (k - 1) as nat) {
            Err(e) => Err(e),
            Ok(v) => match split_once(raw[k - 1], ' ') {
                Some(m) => Ok(v.push(m)),
                None => Err("malformed merge entry "@ + quoted(raw[k - 1])),
            },
        }
    }
}

proof fn lemma_split_merges_error(raw: Seq<Seq<char>>, k: nat, n: nat)
    requires
        k <= n,
        split_merges(raw, k) is Err,
    ensures
        split_merges(raw, n) == split_merges(raw, k),
    decreases n,
{
    if k < n {
        lemma_split_merges_error(raw, k, (n - 1) as nat);
    }
}

/// The tokens, among the first `k`, whose type is control.
pub open spec fn control_tokens(tokens: Seq<Seq<char>>, types: Seq<i64>, k: nat) -> Seq<Seq<char>>
    decreases k,
{
    if k == 0 {
        Seq::empty()
    } else {
        let before = control_tokens(tokens, types, (k - 1) as nat);
        if types[k - 1] == 3 && k <= tokens.len() {
            before.push(tokens[k - 1])
        } else {
            before
        }
    }
}

/// The tokenizer that the metadata asks for.
pub open spec fn plan_of(m: Map<Seq<char>, MetaValue>) -> Result<PlanView, Seq<char>> {
    match str_of(m, "tokenizer.ggml.model"@) {
        Err(e) => Err(e),
        Ok(model) => if model != "gpt2"@ {
            Err(
                "GGUF tokenizer model \""@ + model
                    + "\" is not supported yet — byte-level BPE (\"gpt2\") only; use the safetensors checkpoint for this model"@,
            )
        } else {
            match strs_of(m, "tokenizer.ggml.tokens"@) {
                Err(e) => Err(e),
                Ok(tokens) => match strs_of(m, "tokenizer.ggml.merges"@) {
                    Err(e) => Err(e),
                    Ok(raw) => match split_merges(raw, raw.len()) {
                        Err(e) => Err(e),
                        Ok(merges) => {
                            let types = or_else(ints_of(m, "tokenizer.ggml.token_type"@), Seq::empty());
                            Ok(
                                PlanView {
                                    tokens,
                                    merges,
                                    regex: family_regex(or_else(str_of(m, "tokenizer.ggml.pre"@), "gpt2"@)),
                                    specials: control_tokens(tokens, types, types.len()),
                                },
                            )
                        },
                    },
                },
            }
        },
    }
}

fn number_tokens(tokens: &[String]) -> (r: Vec<(String, u32)>)
    ensures
        numbered(r@, texts(tokens@)),
{
    let mut out: Vec<(String, u32)> = Vec::new();
    let mut i: usize = 0;
    while i < tokens.len()
        invariant
            i <= tokens@.len(),
            out@.len() == i,
            forall|j: int| 0 <= j < i ==> (#[trigger] out@[j]).0@ == tokens@[j]@ && out@[j].1 == (j % 0x1_0000_0000) as u32,
        decreases tokens.len() - i,
    {
        out.push((tokens[i].clone(), (i as u64 % 0x1_0000_0000) as u32));
        i = i + 1;
    }
    out
}

fn read_merges(raw: &[String]) -> (r: Result<Vec<(String, String)>, String>)
    ensures
        match r {
            Ok(v) => split_merges(texts(raw@), raw@.len()) == Ok::<Seq<(Seq<char>, Seq<char>)>, Seq<char>>(
                merge_texts(v@),
            ),
            Err(e) => split_merges(texts(raw@), raw@.len()) == Err::<Seq<(Seq<char>, Seq<char>)>, Seq<char>>(e@),
        },
{
    let ghost t = texts(raw@);
    let mut out: Vec<(String, String)> = Vec::new();
    let mut i: usize = 0;
    assert(merge_texts(out@) =~= Seq::<(Seq<char>, Seq<char>)>::empty());
    while i < raw.len()
        invariant
            t == texts(raw@),
            i <= raw@.len(),
            split_merges(t, i as nat) == Ok::<Seq<(Seq<char>, Seq<char>)>, Seq<char>>(merge_texts(out@)),
        decreases raw.len() - i,
    {
        let ghost before = merge_texts(out@);
        let m = chars_of(raw[i].as_str());
        match find(m.as_slice(), ' ') {
            None => {
                proof {
                    lemma_split_merges_error(t, (i + 1) as nat, t.len());
                }
                let mut e = "malformed merge entry ".to_owned();
                e.append(debug_text(raw[i].as_str()).as_str());
                return Err(e);
            },
            Some(at) => {
                let n: usize = m.len();
                let a = vstd::slice::slice_subrange(m.as_slice(), 0, at);
                let b = vstd::slice::slice_subrange(m.as_slice(), at + 1, n);
                assert(a@ =~= m@.take(at as int));
                assert(b@ =~= m@.skip(at + 1));
                out.push((text_of(a), text_of(b)));
                assert(merge_texts(out@) =~= before.push((a@, b@)));
            },
        }
        i = i + 1;
    }
    Ok(out)
}

fn read_specials(tokens: &[String], types: &[i64]) -> (r: Vec<String>)
    ensures
        texts(r@) == control_tokens(texts(tokens@), types@, types@.len()),
{
    let mut out: Vec<String> = Vec::new();
    let mut i: usize = 0;
    assert(texts(out@) =~= Seq::<Seq<char>>::empty());
    while i < types.len()
        invariant
            i <= types@.len(),
            texts(out@) == control_tokens(texts(tokens@), types@, i as nat),
        decreases types.len() - i,
    {
        if types[i] == 3 && i < tokens.len() {
            let ghost before = texts(out@);
            out.push(tokens[i].clone());
            assert(texts(out@) =~= before.push(tokens@[i as int]@));
        }
        i = i + 1;
    }
    out
}

/// Everything a file's tokenizer is built from.
pub fn tokenizer_plan(g: &GgufFile) -> (r: Result<TokenizerPlan, String>)
    ensures
        match r {
            Ok(p) => plan_of(g@.meta) matches Ok(v) && p.is(v),
            Err(e) => plan_of(g@.meta) == Err::<PlanView, Seq<char>>(e@),
        },
{
    let model = match g.get_str("tokenizer.ggml.model") {
        Err(e) => return Err(e),
        Ok(s) => s,
    };
    if !same(model, "gpt2") {
        let mut e = "GGUF tokenizer model \"".to_owned();
        e.append(model);
        e.append(
            "\" is not supported yet — byte-level BPE (\"gpt2\") only; use the safetensors checkpoint for this model",
        );
        return Err(e);
    }
    let tokens = match g.get_arr_str("tokenizer.ggml.tokens") {
        Err(e) => return Err(e),
        Ok(v) => v,
    };
    let raw = match g.get_arr_str("tokenizer.ggml.merges") {
        Err(e) => return Err(e),
        Ok(v) => v,
    };
    let merges = match read_merges(raw) {
        Err(e) => return Err(e),
        Ok(v) => v,
    };
    let regex = match g.get_str("tokenizer.ggml.pre") {
        Err(_) => regex_of("gpt2"),
        Ok(pre) => regex_of(pre),
    };
    let specials = match g.get_arr_i64("tokenizer.ggml.token_type") {
        Err(_) => Vec::new(),
        Ok(types) => read_specials(tokens, types),
    };
    assert(ints_of(g@.meta, "tokenizer.ggml.token_type"@) is Err ==> texts(specials@) =~= Seq::<Seq<char>>::empty());
    Ok(TokenizerPlan { vocab: number_tokens(tokens), merges, regex: regex.to_owned(), specials })
}

// ---------- building it ----------

/// The ids of the first `k` tokens: of two equal tokens the later stands.
pub open spec fn token_ids(tokens: Seq<Seq<char>>, k: nat) -> Map<Seq<char>, u32>
    decreases k,
{
    if k == 0 {
        Map::empty()
    } else {
        token_ids(tokens, (k - 1) as nat).insert(tokens[k - 1], ((k - 1) % 0x1_0000_0000) as u32)
    }
}

/// How many of the first `k` merges stand before the first overlong one.
pub open spec fn sound_merges(vocab: Map<Seq<char>, u32>, merges: Seq<(Seq<char>, Seq<char>)>, k: nat) -> nat
    decreases k,
{
    if k == 0 {
        0
    } else {
        let before = sound_merges(vocab, merges, (k - 1) as nat);
        if before < k - 1 || overlong(vocab, merges[k - 1]) {
            before
        } else {
            k
        }
    }
}

/// Why no model can be built from a vocabulary and merges, if so.
pub open spec fn model_error(vocab: Map<Seq<char>, u32>, merges: Seq<(Seq<char>, Seq<char>)>) -> Option<Seq<char>> {
    let k = sound_merges(vocab, merges, merges.len());
    match first_missing(vocab, merges, k) {
        Some(t) => Some("BPE build: Token `"@ + t + "` out of vocabulary"@),
        None => if k < merges.len() {
            Some("BPE build: merge `"@ + merges[k as int].0 + merges[k as int].1 + "` is longer than every token"@)
        } else {
            None
        },
    }
}

/// The tokenizer that the metadata leads to.
pub open spec fn built(m: Map<Seq<char>, MetaValue>) -> Result<Parts, Seq<char>> {
    match plan_of(m) {
        Err(e) => Err(e),
        Ok(v) => if v.tokens.len() > 0x1_0000_0000 {
            Err("a vocabulary of "@ + dec(v.tokens.len()) + " tokens has more than there are ids"@)
        } else {
            let vocab = token_ids(v.tokens, v.tokens.len());
            match model_error(vocab, v.merges) {
                Some(e) => Err(e),
                None => match regex_error(v.regex) {
                    Some(e) => Err("pre-tokenizer regex: "@ + e),
                    None => Ok(
                        Parts {
                            vocab,
                            ranks: ranks_of(v.merges, v.merges.len()),
                            nfc: true,
                            split: Some(v.regex),
                            byte_decoder: true,
                            specials: special_set(v.specials),
                        },
                    ),
                },
            }
        },
    }
}

proof fn lemma_numbered(pairs: Seq<(String, u32)>, tokens: Seq<Seq<char>>, k: int)
    requires
        numbered(pairs, tokens),
        0 <= k <= pairs.len(),
    ensures
        vocab_of(pairs.take(k)) == token_ids(tokens, k as nat),
    decreases k,
{
    if k > 0 {
        lemma_numbered(pairs, tokens, k - 1);
        assert(pairs.take(k).drop_last() =~= pairs.take(k - 1));
        assert(pairs[k - 1].0@ == tokens[k - 1]);
    }
}

proof fn lemma_vocab_dom(pairs: Seq<(String, u32)>, t: Seq<char>)
    ensures
        vocab_of(pairs).dom().contains(t) == exists|i: int| 0 <= i < pairs.len() && (#[trigger] pairs[i]).0@ == t,
    decreases pairs.len(),
{
    if pairs.len() > 0 {
        let init = pairs.drop_last();
        lemma_vocab_dom(init, t);
        if vocab_of(pairs).dom().contains(t) {
            if pairs.last().0@ == t {
                assert(pairs[pairs.len() - 1].0@ == t);
            } else {
                let i = choose|i: int| 0 <= i < init.len() && (#[trigger] init[i]).0@ == t;
                assert(pairs[i].0@ == t);
            }
        }
        if exists|i: int| 0 <= i < pairs.len() && (#[trigger] pairs[i]).0@ == t {
            let i = choose|i: int| 0 <= i < pairs.len() && (#[trigger] pairs[i]).0@ == t;
            if i < init.len() {
                assert(init[i].0@ == t);
            }
        }
    }
}

/// Whether `t` is in the vocabulary.
fn in_vocab(pairs: &Vec<(String, u32)>, t: &str) -> (r: bool)
    ensures
        r == vocab_of(pairs@).dom().contains(t@),
{
    proof {
        lemma_vocab_dom(pairs@, t@);
    }
    let mut i: usize = 0;
    while i < pairs.len()
        invariant
            i <= pairs@.len(),
            forall|j: int| 0 <= j < i ==> (#[trigger] pairs@[j]).0@ != t@,
            vocab_of(pairs@).dom().contains(t@) == exists|i: int|
                0 <= i < pairs@.len() && (#[trigger] pairs@[i]).0@ == t@,
        decreases pairs.len() - i,
    {
        if same(pairs[i].0.as_str(), t) {
            assert(pairs@[i as int].0@ == t@);
            return true;
        }
        i = i + 1;
    }
    false
}

/// The byte length of the longest token.
fn longest(pairs: &Vec<(String, u32)>) -> (r: usize)
    ensures
        forall|t: Seq<char>| #[trigger] vocab_of(pairs@).dom().contains(t) ==> encode_utf8(t).len() <= r,
        pairs@.len() > 0 ==> exists|t: Seq<char>| #[trigger]
            vocab_of(pairs@).dom().contains(t) && encode_utf8(t).len() == r,
{
    let mut max: usize = 0;
    let mut i: usize = 0;
    while i < pairs.len()
        invariant
            i <= pairs@.len(),
            forall|j: int| 0 <= j < i ==> encode_utf8((#[trigger] pairs@[j]).0@).len() <= max,
            i > 0 ==> exists|j: int| 0 <= j < i && encode_utf8((#[trigger] pairs@[j]).0@).len() == max,
        decreases pairs.len() - i,
    {
        let n: usize = pairs[i].0.as_str().as_bytes().len();
        assert(n == encode_utf8(pairs@[i as int].0@).len());
        if i == 0 || n > max {
            max = n;
        }
        i = i + 1;
    }
    proof {
        assert forall|t: Seq<char>| #[trigger] vocab_of(pairs@).dom().contains(t) implies encode_utf8(t).len() <= max by {
            lemma_vocab_dom(pairs@, t);
        }
        if pairs@.len() > 0 {
            let j = choose|j: int| 0 <= j < pairs@.len() && encode_utf8((#[trigger] pairs@[j]).0@).len() == max;
            lemma_vocab_dom(pairs@, pairs@[j].0@);
            assert(vocab_of(pairs@).dom().contains(pairs@[j].0@));
        }
    }
    max
}

/// How many merges stand before the first overlong one.
fn count_sound(pairs: &Vec<(String, u32)>, merges: &Vec<(String, String)>) -> (r: usize)
    ensures
        r == sound_merges(vocab_of(pairs@), merge_texts(merges@), merges@.len()),
        r <= merges@.len(),
        forall|i: int| 0 <= i < r ==> !overlong(vocab_of(pairs@), #[trigger] merge_texts(merges@)[i]),
{
    let ghost vocab = vocab_of(pairs@);
    let ghost mt = merge_texts(merges@);
    let max: usize = longest(pairs);
    let mut i: usize = 0;
    while i < merges.len()
        invariant
            vocab == vocab_of(pairs@),
            mt == merge_texts(merges@),
            i <= merges@.len(),
            i == sound_merges(vocab, mt, i as nat),
            forall|j: int| 0 <= j < i ==> !overlong(vocab, #[trigger] mt[j]),
            forall|t: Seq<char>| #[trigger] vocab.dom().contains(t) ==> encode_utf8(t).len() <= max,
            pairs@.len() > 0 ==> exists|t: Seq<char>| #[trigger]
                vocab.dom().contains(t) && encode_utf8(t).len() == max,
        decreases merges.len() - i,
    {
        let a: usize = merges[i].0.as_str().as_bytes().len();
        let b: usize = merges[i].1.as_str().as_bytes().len();
        assert(mt[i as int] == (merges@[i as int].0@, merges@[i as int].1@));
        if a > max || b > max - a {
            if in_vocab(pairs, merges[i].0.as_str()) && in_vocab(pairs, merges[i].1.as_str()) {
                assert(overlong(vocab, mt[i as int]));
                proof {
                    lemma_sound_stops(vocab, mt, i as nat, mt.len());
                }
                return i;
            }
        } else {
            proof {
                if vocab.dom().contains(mt[i as int].0) {
                    lemma_vocab_dom(pairs@, mt[i as int].0);
                    let t = choose|t: Seq<char>| #[trigger] vocab.dom().contains(t) && encode_utf8(t).len() == max;
                    assert(vocab.dom().contains(t));
                }
            }
        }
        assert(!overlong(vocab, mt[i as int]));
        i = i + 1;
    }
    i
}

proof fn lemma_sound_stops(vocab: Map<Seq<char>, u32>, merges: Seq<(Seq<char>, Seq<char>)>, i: nat, k: nat)
    requires
        i < k,
        i == sound_merges(vocab, merges, i),
        overlong(vocab, merges[i as int]),
    ensures
        sound_merges(vocab, merges, k) == i,
    decreases k,
{
    if k > i + 1 {
        lemma_sound_stops(vocab, merges, i, (k - 1) as nat);
    }
}

proof fn lemma_first_missing_prefix(
    vocab: Map<Seq<char>, u32>,
    a: Seq<(Seq<char>, Seq<char>)>,
    b: Seq<(Seq<char>, Seq<char>)>,
    k: nat,
)
    requires
        k <= a.len(),
        k <= b.len(),
        forall|i: int| 0 <= i < k ==> a[i] == b[i],
    ensures
        first_missing(vocab, a, k) == first_missing(vocab, b, k),
    decreases k,
{
    if k > 0 {
        lemma_first_missing_prefix(vocab, a, b, (k - 1) as nat);
    }
}

/// Builds the model, or says why it cannot be built.
fn build_model(vocab: Vec<(String, u32)>, merges: Vec<(String, String)>) -> (r: Result<BPE, String>)
    requires
        ids_apart(vocab_of(vocab@)),
    ensures
        match r {
            Ok(b) => {
                &&& model_error(vocab_of(vocab@), merge_texts(merges@)) is None
                &&& bpe_plain(b)
                &&& bpe_vocab(b) == vocab_of(vocab@)
                &&& bpe_ranks(b) == ranks_of(merge_texts(merges@), merges@.len())
            },
            Err(e) => model_error(vocab_of(vocab@), merge_texts(merges@)) == Some(e@),
        },
{
    let ghost all = merge_texts(merges@);
    let k: usize = count_sound(&vocab, &merges);
    let n: usize = merges.len();
    let mut whole = String::new();
    if k < n {
        whole = "BPE build: merge `".to_owned();
        whole.append(merges[k].0.as_str());
        whole.append(merges[k].1.as_str());
        whole.append("` is longer than every token");
    }
    let mut sound = merges;
    sound.truncate(k);
    proof {
        let kept = merge_texts(sound@);
        assert(kept =~= all.take(k as int));
        lemma_first_missing_prefix(vocab_of(vocab@), all, kept, k as nat);
        assert forall|i: int| 0 <= i < sound@.len() implies !overlong(vocab_of(vocab@), #[trigger] kept[i]) by {
            assert(kept[i] == all[i]);
        }
    }
    match build_bpe(vocab, sound) {
        Err(e) => {
            let mut text = "BPE build: ".to_owned();
            text.append(e.as_str());
            proof {
                let t = first_missing(vocab_of(vocab@), all, k as nat)->Some_0;
                reveal_strlit("BPE build: ");
                reveal_strlit("Token `");
                reveal_strlit("BPE build: Token `");
                assert("BPE build: "@ + "Token `"@ =~= "BPE build: Token `"@);
                assert(text@ =~= "BPE build: Token `"@ + t + "` out of vocabulary"@);
            }
            Err(text)
        },
        Ok(b) => {
            if k < n {
                return Err(whole);
            }
            assert(all.take(k as int) =~= all);
            Ok(b)
        },
    }
}

proof fn lemma_token_has_id(tokens: Seq<Seq<char>>, k: nat, j: int)
    requires
        0 <= j < k <= tokens.len(),
    ensures
        token_ids(tokens, k).dom().contains(tokens[j]),
    decreases k,
{
    if j < k - 1 {
        lemma_token_has_id(tokens, (k - 1) as nat, j);
    }
}

proof fn lemma_specials_are_tokens(tokens: Seq<Seq<char>>, types: Seq<i64>, k: nat, i: int)
    requires
        0 <= i < control_tokens(tokens, types, k).len(),
    ensures
        token_ids(tokens, tokens.len()).dom().contains(control_tokens(tokens, types, k)[i]),
    decreases k,
{
    let before = control_tokens(tokens, types, (k - 1) as nat);
    if i < before.len() {
        lemma_specials_are_tokens(tokens, types, (k - 1) as nat, i);
    } else {
        lemma_token_has_id(tokens, tokens.len(), k - 1);
    }
}

/// Builds the tokenizer that a file embeds.
pub fn build_tokenizer(g: &GgufFile) -> (r: Result<Tokenizer, String>)
    ensures
        match r {
            Ok(t) => built(g@.meta) matches Ok(p) && parts_of(t) == Some(p) && ready(t),
            Err(e) => built(g@.meta) == Err::<Parts, Seq<char>>(e@),
        },
{
    let plan = match tokenizer_plan(g) {
        Err(e) => return Err(e),
        Ok(p) => p,
    };
    let ghost v = plan_of(g@.meta)->Ok_0;
    if plan.vocab.len() as u64 > 0x1_0000_0000 {
        let mut e = "a vocabulary of ".to_owned();
        push_dec(&mut e, plan.vocab.len() as u64);
        e.append(" tokens has more than there are ids");
        return Err(e);
    }
    proof {
        lemma_token_ids_apart(v.tokens);
        lemma_numbered(plan.vocab@, v.tokens, plan.vocab@.len() as int);
        assert(plan.vocab@.take(plan.vocab@.len() as int) =~= plan.vocab@);
    }
    let bpe = match build_model(plan.vocab, plan.merges) {
        Err(e) => return Err(e),
        Ok(b) => b,
    };
    let split = match regex_split(plan.regex.as_str()) {
        Err(e) => {
            let mut text = "pre-tokenizer regex: ".to_owned();
            text.append(e.as_str());
            return Err(text);
        },
        Ok(s) => s,
    };
    let mut tok = new_tokenizer(bpe);
    set_nfc(&mut tok);
    set_split(&mut tok, split);
    set_byte_decoder(&mut tok);
    proof {
        assert forall|i: int| 0 <= i < plan.specials@.len() implies parts(tok).vocab.dom().contains(
            (#[trigger] plan.specials@[i])@,
        ) by {
            let types = or_else(ints_of(g@.meta, "tokenizer.ggml.token_type"@), Seq::empty());
            assert(texts(plan.specials@)[i] == plan.specials@[i]@);
            lemma_specials_are_tokens(v.tokens, types, types.len(), i);
        }
    }
    if plan.specials.len() > 0 {
        add_specials(&mut tok, plan.specials);
    } else {
        assert(v.specials =~= Seq::<Seq<char>>::empty());
        assert(special_set(v.specials) =~= Set::<Seq<char>>::empty());
    }
    proof {
        assert(exists|pre: Seq<char>| v.regex == #[trigger] family_regex(pre)) by {
            assert(v.regex == family_regex(or_else(str_of(g@.meta, "tokenizer.ggml.pre"@), "gpt2"@)));
        }
    }
    Ok(tok)
}

// ---------- using one ----------

proof fn lemma_token_id(tokens: Seq<Seq<char>>, k: nat, t: Seq<char>)
    requires
        k <= tokens.len(),
        token_ids(tokens, k).dom().contains(t),
    ensures
        exists|i: int|
            0 <= i < k && #[trigger] tokens[i] == t && token_ids(tokens, k)[t] == (i % 0x1_0000_0000) as u32,
    decreases k,
{
    if k > 0 {
        if tokens[k - 1] != t {
            lemma_token_id(tokens, (k - 1) as nat, t);
            let i = choose|i: int|
                0 <= i < k - 1 && #[trigger] tokens[i] == t && token_ids(tokens, (k - 1) as nat)[t] == (i
                    % 0x1_0000_0000) as u32;
            assert(tokens[i] == t);
        } else {
            assert(tokens[k - 1] == t);
        }
    }
}

/// In the vocabulary of a file no two tokens share an id, as long as there are
/// no more tokens than ids.
pub proof fn lemma_token_ids_apart(tokens: Seq<Seq<char>>)
    requires
        tokens.len() <= 0x1_0000_0000,
    ensures
        ids_apart(token_ids(tokens, tokens.len())),
{
    let vocab = token_ids(tokens, tokens.len());
    assert forall|a: Seq<char>, b: Seq<char>|
        #![trigger vocab[a], vocab[b]]
        vocab.dom().contains(a) && vocab.dom().contains(b) && a != b implies vocab[a] != vocab[b] by {
        lemma_token_id(tokens, tokens.len(), a);
        lemma_token_id(tokens, tokens.len(), b);
        let i = choose|i: int|
            0 <= i < tokens.len() && #[trigger] tokens[i] == a && vocab[a] == (i % 0x1_0000_0000) as u32;
        let j = choose|j: int|
            0 <= j < tokens.len() && #[trigger] tokens[j] == b && vocab[b] == (j % 0x1_0000_0000) as u32;
        assert(i != j);
    }
}

/// A tokenizer as `build_tokenizer` assembles it: it splits by the expression of
/// a family, works on NFC and on bytes, and no two of its tokens share an id.
pub open spec fn ready(t: Tokenizer) -> bool {
    match parts_of(t) {
        None => false,
        Some(p) => {
            &&& p.nfc
            &&& p.byte_decoder
            &&& p.split matches Some(r) && exists|pre: Seq<char>| r == #[trigger] family_regex(pre)
            &&& ids_apart(p.vocab)
        },
    }
}

/// How a tokenizer from `build_tokenizer` was assembled.
pub open spec fn parts(t: Tokenizer) -> Parts {
    parts_of(t)->Some_0
}

/// White space, as the families' expressions understand it.
pub open spec fn is_space(c: char) -> bool {
    ||| '\u{9}' <= c <= '\u{D}'
    ||| c == ' '
    ||| c == '\u{85}'
    ||| c == '\u{A0}'
    ||| c == '\u{1680}'
    ||| '\u{2000}' <= c <= '\u{200A}'
    ||| c == '\u{2028}'
    ||| c == '\u{2029}'
    ||| c == '\u{202F}'
    ||| c == '\u{205F}'
    ||| c == '\u{3000}'
}

/// The longest run of white space that a text to be split may hold.
pub const MAX_SPACES: usize = 9_999_000;

/// The most characters that a text to be split may have.
pub const MAX_CHARS: usize = 100_000_000;

/// The characters from `i` up to `j` are white space.
pub open spec fn all_space(text: Seq<char>, i: int, j: int) -> bool {
    forall|k: int| i <= k < j ==> is_space(#[trigger] text[k])
}

/// A text that the families' expressions can split.
pub open spec fn can_split(text: Seq<char>) -> bool {
    &&& text.len() <= MAX_CHARS
    &&& forall|i: int, j: int| 0 <= i <= j <= text.len() && #[trigger] all_space(text, i, j) ==> j - i <= MAX_SPACES
}

fn space(c: char) -> (r: bool)
    ensures
        r == is_space(c),
{
    ('\u{9}' <= c && c <= '\u{D}') || c == ' ' || c == '\u{85}' || c == '\u{A0}' || c == '\u{1680}' || ('\u{2000}'
        <= c && c <= '\u{200A}') || c == '\u{2028}' || c == '\u{2029}' || c == '\u{202F}' || c == '\u{205F}' || c
        == '\u{3000}'
}

/// Whether the families' expressions can split `text`.
pub fn splits(text: &str) -> (r: bool)
    ensures
        r == can_split(text@),
{
    let v = chars_of(text);
    if v.len() > MAX_CHARS {
        return false;
    }
    let mut run: usize = 0;
    let mut i: usize = 0;
    while i < v.len()
        invariant
            v@ == text@,
            v@.len() <= MAX_CHARS,
            run <= i <= v@.len(),
            run <= MAX_SPACES,
            all_space(v@, i - run, i as int),
            run < i ==> !is_space(v@[i - run - 1]),
            forall|a: int, b: int| 0 <= a <= b <= i && #[trigger] all_space(v@, a, b) ==> b - a <= MAX_SPACES,
        decreases v.len() - i,
    {
        if space(v[i]) {
            if run == MAX_SPACES {
                assert(all_space(v@, i - run, i + 1));
                return false;
            }
            run = run + 1;
        } else {
            run = 0;
        }
        assert forall|a: int, b: int| 0 <= a <= b <= i + 1 && #[trigger] all_space(v@, a, b) implies b - a
            <= MAX_SPACES by {
            if b == i + 1 && a < b {
                assert(is_space(v@[i as int]));
                if a < i + 1 - run {
                    assert(is_space(v@[i + 1 - run - 1]));
                }
            }
        }
        i = i + 1;
    }
    true
}

/// The ids that a tokenizer assembled as `p` encodes a text to, special tokens
/// added.
pub uninterp spec fn encoding(p: Parts, text: Seq<char>) -> Result<Seq<u32>, Seq<char>>;

/// The text that a tokenizer assembled as `p` decodes ids to, special tokens
/// skipped.
pub uninterp spec fn decoding(p: Parts, ids: Seq<u32>) -> Result<Seq<char>, Seq<char>>;

/// `Tokenizer::encode` with special tokens added. The result depends on how the
/// tokenizer was assembled and on the text alone. The engine that runs the
/// splitting expression gives up, by panicking, after ten million retries of one
/// match, and counts offsets in 32 bits: behind white space an expression is
/// retried once for each character of the run, and nowhere else more than a few
/// times.
#[verifier::external_body]
fn encode(tok: &Tokenizer, text: &str) -> (r: Result<Vec<u32>, String>)
    requires
        ready(*tok),
        can_split(text@),
    ensures
        encoding(parts(*tok), text@) == (match r {
            Ok(v) => Ok(v@),
            Err(e) => Err(e@),
        }),
{
    tok.encode(text, true).map(|e| e.get_ids().to_vec()).map_err(|e| e.to_string())
}

/// `Tokenizer::decode` with special tokens skipped. The result depends on how
/// the tokenizer was assembled and on the ids alone.
#[verifier::external_body]
pub(crate) fn decode(tok: &Tokenizer, ids: &[u32]) -> (r: Result<String, String>)
    requires
        ready(*tok),
    ensures
        decoding(parts(*tok), ids@) == (match r {
            Ok(s) => Ok(s@),
            Err(e) => Err(e@),
        }),
{
    tok.decode(ids, true).map_err(|e| e.to_string())
}

/// The ids of a text, or why it has none.
pub open spec fn ids_of(p: Parts, text: Seq<char>) -> Result<Seq<u32>, Seq<char>> {
    if can_split(text) {
        encoding(p, text)
    } else {
        Err("the prompt is too long, or holds too much white space in a row, to be split"@)
    }
}

/// Encodes a text, unless it cannot be split.
pub fn encode_text(tok: &Tokenizer, text: &str) -> (r: Result<Vec<u32>, String>)
    requires
        ready(*tok),
    ensures
        ids_of(parts(*tok), text@) == (match r {
            Ok(v) => Ok(v@),
            Err(e) => Err(e@),
        }),
{
    if !splits(text) {
        return Err("the prompt is too long, or holds too much white space in a row, to be split".to_owned());
    }
    encode(tok, text)
}

} // verus!
