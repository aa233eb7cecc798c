//! Where each number of a configuration comes from: every field is what the file
//! states under the field's own key, and changes with no other.
use vstd::prelude::*;
use vstd::string::*;

use crate::config::ModelConfig;
use crate::gguf::arch::{GgufArch, arch_key, config_for, config_is, config_of, depth, hybrid};
use crate::gguf::layout::{FileView, TensorView};
use crate::gguf::pieces::{family, lemma_expression_is_the_grammar, pattern_text};
use crate::gguf::reader::{FloatBits, MetaValue};
use crate::gguf::tokenizer::{control_tokens, plan_of, ranks_of, split_merges, token_ids};

verus! {

/// The file states the number `x` under `key`.
pub open spec fn states_number(m: Map<Seq<char>, MetaValue>, key: Seq<char>, x: nat) -> bool {
    m.dom().contains(key) && x <= usize::MAX && (m[key] == MetaValue::U64(x as u64) || (x <= i64::MAX && m[key]
        == MetaValue::I64(x as i64)))
}

/// The file states a number under `key`.
pub open spec fn has_number(m: Map<Seq<char>, MetaValue>, key: Seq<char>) -> bool {
    exists|x: nat| states_number(m, key, x)
}

/// The file states the floating-point number `x` under `key`.
pub open spec fn states_float(m: Map<Seq<char>, MetaValue>, key: Seq<char>, x: FloatBits) -> bool {
    m.dom().contains(key) && m[key] == MetaValue::F64(x)
}

/// The file states a floating-point number under `key`.
pub open spec fn has_float(m: Map<Seq<char>, MetaValue>, key: Seq<char>) -> bool {
    exists|x: FloatBits| states_float(m, key, x)
}

/// The file lists texts under `key`.
pub open spec fn lists_texts(m: Map<Seq<char>, MetaValue>, key: Seq<char>, v: Seq<Seq<char>>) -> bool {
    m.dom().contains(key) && m[key] == MetaValue::ArrStr(v)
}

/// The file names its architecture.
pub open spec fn names_arch(m: Map<Seq<char>, MetaValue>, arch: Seq<char>) -> bool {
    m.dom().contains("general.architecture"@) && m["general.architecture"@] == MetaValue::Str(arch)
}

proof fn lemma_key(arch: Seq<char>, suffix: Seq<char>, dotted: Seq<char>)
    requires
        dotted == seq!['.'] + suffix,
    ensures
        arch_key(arch, suffix) == arch + dotted,
{
    reveal_strlit(".");
    assert(arch_key(arch, suffix) =~= arch + dotted);
}

/// The keys of an architecture, as they stand in a file.
proof fn lemma_keys(arch: Seq<char>)
    ensures
        arch_key(arch, "attention.head_count"@) == arch + ".attention.head_count"@,
        arch_key(arch, "attention.head_count_kv"@) == arch + ".attention.head_count_kv"@,
        arch_key(arch, "attention.key_length"@) == arch + ".attention.key_length"@,
        arch_key(arch, "attention.layer_norm_rms_epsilon"@) == arch + ".attention.layer_norm_rms_epsilon"@,
        arch_key(arch, "embedding_length"@) == arch + ".embedding_length"@,
        arch_key(arch, "feed_forward_length"@) == arch + ".feed_forward_length"@,
        arch_key(arch, "block_count"@) == arch + ".block_count"@,
        arch_key(arch, "nextn_predict_layers"@) == arch + ".nextn_predict_layers"@,
        arch_key(arch, "vocab_size"@) == arch + ".vocab_size"@,
        arch_key(arch, "rope.freq_base"@) == arch + ".rope.freq_base"@,
        arch_key(arch, "context_length"@) == arch + ".context_length"@,
{
    reveal_strlit("attention.head_count");
    reveal_strlit(".attention.head_count");
    assert(".attention.head_count"@ =~= seq!['.'] + "attention.head_count"@);
    lemma_key(arch, "attention.head_count"@, ".attention.head_count"@);
    reveal_strlit("attention.head_count_kv");
    reveal_strlit(".attention.head_count_kv");
    assert(".attention.head_count_kv"@ =~= seq!['.'] + "attention.head_count_kv"@);
    lemma_key(arch, "attention.head_count_kv"@, ".attention.head_count_kv"@);
    reveal_strlit("attention.key_length");
    reveal_strlit(".attention.key_length");
    assert(".attention.key_length"@ =~= seq!['.'] + "attention.key_length"@);
    lemma_key(arch, "attention.key_length"@, ".attention.key_length"@);
    reveal_strlit("attention.layer_norm_rms_epsilon");
    reveal_strlit(".attention.layer_norm_rms_epsilon");
    assert(".attention.layer_norm_rms_epsilon"@ =~= seq!['.'] + "attention.layer_norm_rms_epsilon"@);
    lemma_key(arch, "attention.layer_norm_rms_epsilon"@, ".attention.layer_norm_rms_epsilon"@);
    reveal_strlit("embedding_length");
    reveal_strlit(".embedding_length");
    assert(".embedding_length"@ =~= seq!['.'] + "embedding_length"@);
    lemma_key(arch, "embedding_length"@, ".embedding_length"@);
    reveal_strlit("feed_forward_length");
    reveal_strlit(".feed_forward_length");
    assert(".feed_forward_length"@ =~= seq!['.'] + "feed_forward_length"@);
    lemma_key(arch, "feed_forward_length"@, ".feed_forward_length"@);
    lemma_more_keys(arch);
}

proof fn lemma_more_keys(arch: Seq<char>)
    ensures
        arch_key(arch, "block_count"@) == arch + ".block_count"@,
        arch_key(arch, "nextn_predict_layers"@) == arch + ".nextn_predict_layers"@,
        arch_key(arch, "vocab_size"@) == arch + ".vocab_size"@,
        arch_key(arch, "rope.freq_base"@) == arch + ".rope.freq_base"@,
        arch_key(arch, "context_length"@) == arch + ".context_length"@,
{
    reveal_strlit("block_count");
    reveal_strlit(".block_count");
    assert(".block_count"@ =~= seq!['.'] + "block_count"@);
    lemma_key(arch, "block_count"@, ".block_count"@);
    reveal_strlit("nextn_predict_layers");
    reveal_strlit(".nextn_predict_layers");
    assert(".nextn_predict_layers"@ =~= seq!['.'] + "nextn_predict_layers"@);
    lemma_key(arch, "nextn_predict_layers"@, ".nextn_predict_layers"@);
    reveal_strlit("vocab_size");
    reveal_strlit(".vocab_size");
    assert(".vocab_size"@ =~= seq!['.'] + "vocab_size"@);
    lemma_key(arch, "vocab_size"@, ".vocab_size"@);
    reveal_strlit("rope.freq_base");
    reveal_strlit(".rope.freq_base");
    assert(".rope.freq_base"@ =~= seq!['.'] + "rope.freq_base"@);
    lemma_key(arch, "rope.freq_base"@, ".rope.freq_base"@);
    reveal_strlit("context_length");
    reveal_strlit(".context_length");
    assert(".context_length"@ =~= seq!['.'] + "context_length"@);
    lemma_key(arch, "context_length"@, ".context_length"@);
}

/// A configuration says what the file states under the keys of its
/// architecture. What a file need not state has a default.
pub open spec fn says_what_is_stated(f: FileView, cfg: ModelConfig, a: GgufArch) -> bool {
    let (m, arch) = (f.meta, a.arch@);
    &&& names_arch(m, arch)
    &&& states_number(m, arch + ".embedding_length"@, cfg.hidden_size as nat)
    &&& states_number(m, arch + ".feed_forward_length"@, cfg.intermediate_size as nat)
    &&& states_number(m, arch + ".attention.head_count"@, cfg.num_attention_heads as nat)
    &&& states_number(m, arch + ".attention.head_count_kv"@, cfg.num_key_value_heads as nat)
    &&& states_float(m, arch + ".attention.layer_norm_rms_epsilon"@, cfg.rms_norm_eps)
    &&& if has_float(m, arch + ".rope.freq_base"@) {
        states_float(m, arch + ".rope.freq_base"@, cfg.rope_theta)
    } else {
        // 10000 in single precision.
        cfg.rope_theta == FloatBits::Single(0x461C_4000)
    }
    &&& if has_number(m, arch + ".context_length"@) {
        states_number(m, arch + ".context_length"@, cfg.max_position_embeddings as nat)
    } else {
        cfg.max_position_embeddings == 4096
    }
    &&& if has_number(m, arch + ".attention.key_length"@) {
        states_number(m, arch + ".attention.key_length"@, a.head_dim as nat)
    } else {
        cfg.num_attention_heads > 0 && a.head_dim == cfg.hidden_size / cfg.num_attention_heads
    }
    &&& says_the_depth(m, arch, cfg.num_hidden_layers as nat)
    &&& says_the_tokens(m, arch, cfg)
    &&& says_head_norms(f, a)
}

/// The depth is the number of blocks, without the prediction blocks that a
/// hybrid appends.
pub open spec fn says_the_depth(m: Map<Seq<char>, MetaValue>, arch: Seq<char>, layers: nat) -> bool {
    exists|blocks: nat| #[trigger]
        states_number(m, arch + ".block_count"@, blocks) && if arch == "qwen35"@ && has_number(
            m,
            arch + ".nextn_predict_layers"@,
        ) {
            layers <= blocks && states_number(m, arch + ".nextn_predict_layers"@, (blocks - layers) as nat)
        } else {
            layers == blocks
        }
}

/// The vocabulary is as long as the token list, else as stated; a text ends at
/// the token stated for it.
pub open spec fn says_the_tokens(m: Map<Seq<char>, MetaValue>, arch: Seq<char>, cfg: ModelConfig) -> bool {
    &&& if exists|v: Seq<Seq<char>>| lists_texts(m, "tokenizer.ggml.tokens"@, v) {
        exists|v: Seq<Seq<char>>| #[trigger] lists_texts(m, "tokenizer.ggml.tokens"@, v) && v.len() == cfg.vocab_size
    } else {
        states_number(m, arch + ".vocab_size"@, cfg.vocab_size as nat)
    }
    &&& forall|id: u32|
        #![trigger cfg.eos_token_id@.contains(id)]
        cfg.eos_token_id@.contains(id) <==> exists|x: nat| #[trigger]
            states_number(m, "tokenizer.ggml.eos_token_id"@, x) && id == x % 0x1_0000_0000
}

/// Queries and keys are normalised per head where a block has a weight for it, and
/// in every full file of one architecture.
pub open spec fn says_head_norms(f: FileView, a: GgufArch) -> bool {
    a.qk_norm <==> (a.arch@ == "qwen3"@ && f.meta.dom().contains("tokenizer.ggml.tokens"@)) || exists|t: TensorView|
        #[trigger] f.tensors.contains(t) && "attn_q_norm.weight"@.is_suffix_of(t.name)
}

proof fn lemma_states(m: Map<Seq<char>, MetaValue>, key: Seq<char>)
    ensures
        match crate::gguf::layout::usize_of(m, key) {
            Ok(x) => states_number(m, key, x) && forall|y: nat| #[trigger] states_number(m, key, y) ==> y == x,
            Err(_) => !has_number(m, key),
        },
        match crate::gguf::layout::float_of(m, key) {
            Ok(x) => states_float(m, key, x),
            Err(_) => !has_float(m, key),
        },
{
}

/// Every field of a configuration is what the file states under the field's own
/// key.
pub proof fn lemma_config_says_what_is_stated(f: FileView, cfg: ModelConfig, a: GgufArch)
    requires
        config_of(f) is Ok,
        config_is(cfg, a, config_of(f)->Ok_0),
    ensures
        says_what_is_stated(f, cfg, a),
        cfg.architectures@.len() == 1,
        cfg.architectures@[0]@ == "gguf:"@ + a.arch@,
{
    let (m, arch) = (f.meta, a.arch@);
    lemma_keys(arch);
    lemma_states(m, arch + ".embedding_length"@);
    lemma_states(m, arch + ".feed_forward_length"@);
    lemma_states(m, arch + ".attention.head_count"@);
    lemma_states(m, arch + ".attention.head_count_kv"@);
    lemma_states(m, arch + ".attention.layer_norm_rms_epsilon"@);
    lemma_states(m, arch + ".rope.freq_base"@);
    lemma_states(m, arch + ".context_length"@);
    lemma_states(m, arch + ".attention.key_length"@);
    lemma_states(m, arch + ".block_count"@);
    lemma_states(m, arch + ".nextn_predict_layers"@);
    lemma_states(m, arch + ".vocab_size"@);
    lemma_states(m, "tokenizer.ggml.eos_token_id"@);
    assert(says_head_norms(f, a)) by {
        if exists|t: TensorView| #[trigger]
            f.tensors.contains(t) && "attn_q_norm.weight"@.is_suffix_of(t.name) {
            let t = choose|t: TensorView| #[trigger]
                f.tensors.contains(t) && "attn_q_norm.weight"@.is_suffix_of(t.name);
            let i = choose|i: int| 0 <= i < f.tensors.len() && f.tensors[i] == t;
            assert("attn_q_norm.weight"@.is_suffix_of(f.tensors[i].name));
        }
        if crate::gguf::arch::has_q_norm(f) {
            let i = choose|i: int|
                0 <= i < f.tensors.len() && "attn_q_norm.weight"@.is_suffix_of((#[trigger] f.tensors[i]).name);
            assert(f.tensors.contains(f.tensors[i]));
        }
    }
    assert(says_the_tokens(m, arch, cfg)) by {
        if m.dom().contains("tokenizer.ggml.tokens"@) {
            match m["tokenizer.ggml.tokens"@] {
                MetaValue::ArrStr(v) => {
                    assert(lists_texts(m, "tokenizer.ggml.tokens"@, v));
                },
                _ => {},
            }
        }
        assert forall|id: u32|
            #![trigger cfg.eos_token_id@.contains(id)]
            cfg.eos_token_id@.contains(id) <==> exists|x: nat| #[trigger]
                states_number(m, "tokenizer.ggml.eos_token_id"@, x) && id == x % 0x1_0000_0000 by {
            match crate::gguf::layout::usize_of(m, "tokenizer.ggml.eos_token_id"@) {
                Ok(x) => {
                    assert(states_number(m, "tokenizer.ggml.eos_token_id"@, x));
                },
                Err(_) => {},
            }
        }
    }
}

/// A file of a supported architecture that states the numbers of a model is
/// given a configuration.
pub proof fn lemma_config_is_owed(f: FileView, arch: Seq<char>)
    requires
        names_arch(f.meta, arch),
        arch == "llama"@ || arch == "qwen2"@ || arch == "qwen3"@ || arch == "qwen35"@,
        arch == "qwen35"@ ==> f.meta.dom().contains("tokenizer.ggml.tokens"@),
        has_number(f.meta, arch + ".embedding_length"@),
        has_number(f.meta, arch + ".feed_forward_length"@),
        has_number(f.meta, arch + ".attention.head_count"@),
        has_number(f.meta, arch + ".attention.head_count_kv"@),
        has_float(f.meta, arch + ".attention.layer_norm_rms_epsilon"@),
        has_number(f.meta, arch + ".attention.key_length"@) || !states_number(f.meta, arch + ".attention.head_count"@, 0),
        exists|blocks: nat| #[trigger]
            states_number(f.meta, arch + ".block_count"@, blocks) && forall|x: nat| #[trigger]
                states_number(f.meta, arch + ".nextn_predict_layers"@, x) ==> x <= blocks,
        has_number(f.meta, arch + ".vocab_size"@) || exists|v: Seq<Seq<char>>|
            lists_texts(f.meta, "tokenizer.ggml.tokens"@, v),
    ensures
        config_of(f) is Ok,
{
    let m = f.meta;
    lemma_keys(arch);
    lemma_states(m, arch + ".embedding_length"@);
    lemma_states(m, arch + ".feed_forward_length"@);
    lemma_states(m, arch + ".attention.head_count"@);
    lemma_states(m, arch + ".attention.head_count_kv"@);
    lemma_states(m, arch + ".attention.layer_norm_rms_epsilon"@);
    lemma_states(m, arch + ".attention.key_length"@);
    lemma_states(m, arch + ".block_count"@);
    lemma_states(m, arch + ".nextn_predict_layers"@);
    lemma_states(m, arch + ".vocab_size"@);
    assert(depth(m, arch) is Ok);
    assert(config_for(f, arch) is Ok);
}

/// Two files that differ in one entry give configurations that differ in the
/// fields of that entry alone.
pub proof fn lemma_one_key_changes_its_own_fields(
    f1: FileView,
    f2: FileView,
    key: Seq<char>,
    val: MetaValue,
    c1: ModelConfig,
    a1: GgufArch,
    c2: ModelConfig,
    a2: GgufArch,
)
    requires
        f2 == (FileView { meta: f1.meta.insert(key, val), ..f1 }),
        key != "general.architecture"@,
        config_of(f1) is Ok,
        config_of(f2) is Ok,
        config_is(c1, a1, config_of(f1)->Ok_0),
        config_is(c2, a2, config_of(f2)->Ok_0),
    ensures
        a1.arch@ == a2.arch@,
        c1.num_key_value_heads != c2.num_key_value_heads ==> key == a1.arch@ + ".attention.head_count_kv"@,
        c1.num_attention_heads != c2.num_attention_heads ==> key == a1.arch@ + ".attention.head_count"@,
        c1.hidden_size != c2.hidden_size ==> key == a1.arch@ + ".embedding_length"@,
        c1.intermediate_size != c2.intermediate_size ==> key == a1.arch@ + ".feed_forward_length"@,
        c1.rms_norm_eps != c2.rms_norm_eps ==> key == a1.arch@ + ".attention.layer_norm_rms_epsilon"@,
        c1.rope_theta != c2.rope_theta ==> key == a1.arch@ + ".rope.freq_base"@,
        c1.max_position_embeddings != c2.max_position_embeddings ==> key == a1.arch@ + ".context_length"@,
        c1.num_hidden_layers != c2.num_hidden_layers ==> key == a1.arch@ + ".block_count"@ || key == a1.arch@
            + ".nextn_predict_layers"@,
        key == a1.arch@ + ".attention.head_count_kv"@ ==> (val matches MetaValue::U64(x) ==> c2.num_key_value_heads
            == x),
{
    lemma_keys(a1.arch@);
    lemma_config_says_what_is_stated(f1, c1, a1);
    lemma_config_says_what_is_stated(f2, c2, a2);
}

/// The file lists numbers under `key`.
pub open spec fn lists_numbers(m: Map<Seq<char>, MetaValue>, key: Seq<char>, v: Seq<i64>) -> bool {
    m.dom().contains(key) && m[key] == MetaValue::ArrI64(v)
}

/// Every number of a hybrid layout is what the file states under the number's own
/// key; a layer is a linear block where the file flags it, else where its place in
/// the interval is not the last.
pub proof fn lemma_hybrid_says_what_is_stated(m: Map<Seq<char>, MetaValue>)
    ensures
        hybrid(m) matches Ok(h) ==> {
            &&& states_number(m, "qwen35.block_count"@, h.trunk + h.nextn)
            &&& h.trunk > 0
            &&& if has_number(m, "qwen35.nextn_predict_layers"@) {
                states_number(m, "qwen35.nextn_predict_layers"@, h.nextn)
            } else {
                h.nextn == 0
            }
            &&& if has_number(m, "qwen35.full_attention_interval"@) {
                states_number(m, "qwen35.full_attention_interval"@, h.interval)
            } else {
                h.interval == 4
            }
            &&& states_number(m, "qwen35.ssm.conv_kernel"@, h.d_conv)
            &&& states_number(m, "qwen35.ssm.state_size"@, h.d_state)
            &&& states_number(m, "qwen35.ssm.group_count"@, h.n_group)
            &&& states_number(m, "qwen35.ssm.time_step_rank"@, h.dt_rank)
            &&& states_number(m, "qwen35.ssm.inner_size"@, h.d_inner)
            &&& h.d_inner == h.dt_rank * h.d_state
            &&& h.recurrent.len() == h.trunk
            &&& if exists|v: Seq<i64>| lists_numbers(m, "qwen35.attention.recurrent_layers"@, v) {
                exists|v: Seq<i64>| #[trigger]
                    lists_numbers(m, "qwen35.attention.recurrent_layers"@, v) && h.trunk <= v.len() && forall|i: int|
                        0 <= i < h.trunk ==> (#[trigger] h.recurrent[i] <==> v[i] != 0)
            } else {
                h.interval > 0 && forall|i: int|
                    0 <= i < h.trunk ==> (#[trigger] h.recurrent[i] <==> (i + 1) % h.interval as int != 0)
            }
            &&& exists|v: Seq<i64>| #[trigger]
                lists_numbers(m, "qwen35.rope.dimension_sections"@, v) && v.len() >= 4 && h.sections.len() == 4
                    && forall|i: int| 0 <= i < 4 && v[i] >= 0 ==> #[trigger] h.sections[i] == v[i]
            &&& h.conv_elems == (h.d_conv - 1) * (h.d_inner + 2 * h.n_group * h.d_state)
            &&& h.delta_elems == h.d_state * h.d_inner
        },
{
    lemma_states(m, "qwen35.block_count"@);
    lemma_states(m, "qwen35.nextn_predict_layers"@);
    lemma_states(m, "qwen35.full_attention_interval"@);
    lemma_states(m, "qwen35.ssm.conv_kernel"@);
    lemma_states(m, "qwen35.ssm.state_size"@);
    lemma_states(m, "qwen35.ssm.group_count"@);
    lemma_states(m, "qwen35.ssm.time_step_rank"@);
    lemma_states(m, "qwen35.ssm.inner_size"@);
    if let Ok(h) = hybrid(m) {
        let v = m["qwen35.rope.dimension_sections"@]->ArrI64_0;
        assert(lists_numbers(m, "qwen35.rope.dimension_sections"@, v));
        match crate::gguf::layout::ints_of(m, "qwen35.attention.recurrent_layers"@) {
            Ok(w) => {
                assert(lists_numbers(m, "qwen35.attention.recurrent_layers"@, w));
            },
            Err(_) => {},
        }
    }
}

// ---------- the tokenizer ----------

/// The file states the text `x` under `key`.
pub open spec fn states_text(m: Map<Seq<char>, MetaValue>, key: Seq<char>, x: Seq<char>) -> bool {
    m.dom().contains(key) && m[key] == MetaValue::Str(x)
}

/// A merge is an entry of the file, parted at its first blank.
pub open spec fn parts_entry(entry: Seq<char>, a: Seq<char>, b: Seq<char>) -> bool {
    entry == a.push(' ') + b && !a.contains(' ')
}

proof fn lemma_merges_part_entries(raw: Seq<Seq<char>>, k: nat)
    requires
        k <= raw.len(),
    ensures
        split_merges(raw, k) matches Ok(v) ==> v.len() == k && forall|i: int|
            0 <= i < k ==> parts_entry(raw[i], (#[trigger] v[i]).0, v[i].1),
    decreases k,
{
    if k > 0 {
        lemma_merges_part_entries(raw, (k - 1) as nat);
        if let Ok(v) = split_merges(raw, k) {
            let e = raw[k - 1];
            e.index_of_first_ensures(' ');
            let (a, b) = v[k - 1];
            assert(e =~= a.push(' ') + b);
        }
    }
}

proof fn lemma_controls(tokens: Seq<Seq<char>>, types: Seq<i64>, k: nat, t: Seq<char>)
    requires
        k <= types.len(),
    ensures
        control_tokens(tokens, types, k).contains(t) <==> exists|i: int|
            0 <= i < k && i < tokens.len() && #[trigger] types[i] == 3 && tokens[i] == t,
    decreases k,
{
    if k > 0 {
        let before = control_tokens(tokens, types, (k - 1) as nat);
        let now = control_tokens(tokens, types, k);
        lemma_controls(tokens, types, (k - 1) as nat, t);
        if now.contains(t) {
            let j = choose|j: int| 0 <= j < now.len() && now[j] == t;
            if j < before.len() {
                assert(before[j] == t);
                assert(before.contains(t));
            } else {
                assert(types[k - 1] == 3);
            }
        }
        if exists|i: int| 0 <= i < k && i < tokens.len() && #[trigger] types[i] == 3 && tokens[i] == t {
            let i = choose|i: int| 0 <= i < k && i < tokens.len() && #[trigger] types[i] == 3 && tokens[i] == t;
            if i < k - 1 {
                let j = choose|j: int| 0 <= j < before.len() && before[j] == t;
                assert(now[j] == t);
            } else {
                assert(now.last() == t);
            }
        }
    }
}

/// A tokenizer is planned from what the file states: its token list in order, its
/// merges in order, each parted at its first blank, as special the tokens of the
/// control type and no others, and the expression of its family.
pub proof fn lemma_plan_says_what_is_stated(m: Map<Seq<char>, MetaValue>)
    ensures
        plan_of(m) matches Ok(p) ==> {
            &&& states_text(m, "tokenizer.ggml.model"@, "gpt2"@)
            &&& lists_texts(m, "tokenizer.ggml.tokens"@, p.tokens)
            &&& exists|raw: Seq<Seq<char>>| #[trigger]
                lists_texts(m, "tokenizer.ggml.merges"@, raw) && raw.len() == p.merges.len() && forall|i: int|
                    0 <= i < raw.len() ==> parts_entry(raw[i], (#[trigger] p.merges[i]).0, p.merges[i].1)
            &&& forall|t: Seq<char>|
                #![trigger p.specials.contains(t)]
                p.specials.contains(t) <==> exists|types: Seq<i64>, i: int|
                    #![trigger lists_numbers(m, "tokenizer.ggml.token_type"@, types), types[i]]
                    lists_numbers(m, "tokenizer.ggml.token_type"@, types) && 0 <= i < types.len() && i
                        < p.tokens.len() && types[i] == 3 && p.tokens[i] == t
            &&& if exists|pre: Seq<char>| states_text(m, "tokenizer.ggml.pre"@, pre) {
                exists|pre: Seq<char>| #[trigger]
                    states_text(m, "tokenizer.ggml.pre"@, pre) && p.regex == pattern_text(family(pre), 0)
            } else {
                p.regex == pattern_text(family("gpt2"@), 0)
            }
        },
{
    if let Ok(p) = plan_of(m) {
        let raw = m["tokenizer.ggml.merges"@]->ArrStr_0;
        assert(lists_texts(m, "tokenizer.ggml.merges"@, raw));
        lemma_merges_part_entries(raw, raw.len());
        let key = "tokenizer.ggml.token_type"@;
        let types = crate::gguf::arch::or_else(crate::gguf::layout::ints_of(m, key), Seq::empty());
        assert forall|t: Seq<char>|
            #![trigger p.specials.contains(t)]
            p.specials.contains(t) <==> exists|types: Seq<i64>, i: int|
                #![trigger lists_numbers(m, "tokenizer.ggml.token_type"@, types), types[i]]
                lists_numbers(m, "tokenizer.ggml.token_type"@, types) && 0 <= i < types.len() && i < p.tokens.len()
                    && types[i] == 3 && p.tokens[i] == t by {
            lemma_controls(p.tokens, types, types.len(), t);
            if p.specials.contains(t) {
                let i = choose|i: int|
                    0 <= i < types.len() && i < p.tokens.len() && #[trigger] types[i] == 3 && p.tokens[i] == t;
                assert(lists_numbers(m, key, types));
                assert(types[i] == 3);
            }
        }
        match crate::gguf::layout::str_of(m, "tokenizer.ggml.pre"@) {
            Ok(pre) => {
                assert(states_text(m, "tokenizer.ggml.pre"@, pre));
                lemma_expression_is_the_grammar(pre);
            },
            Err(_) => {
                lemma_expression_is_the_grammar("gpt2"@);
            },
        }
    }
}

/// A token's id is its place in the list.
pub proof fn lemma_ids_are_places(tokens: Seq<Seq<char>>, k: nat, i: int)
    requires
        tokens.no_duplicates(),
        k <= tokens.len() <= u32::MAX,
        0 <= i < k,
    ensures
        token_ids(tokens, k).dom().contains(tokens[i]),
        token_ids(tokens, k)[tokens[i]] == i,
    decreases k,
{
    if i < k - 1 {
        lemma_ids_are_places(tokens, (k - 1) as nat, i);
        assert(tokens[i] != tokens[k - 1]);
    }
}

/// A merge's rank is its place in the list.
pub proof fn lemma_ranks_are_places(merges: Seq<(Seq<char>, Seq<char>)>, k: nat, i: int)
    requires
        merges.no_duplicates(),
        k <= merges.len() <= u32::MAX,
        0 <= i < k,
    ensures
        ranks_of(merges, k).dom().contains(merges[i]),
        ranks_of(merges, k)[merges[i]] == i,
    decreases k,
{
    if i < k - 1 {
        lemma_ranks_are_places(merges, (k - 1) as nat, i);
        assert(merges[i] != merges[k - 1]);
    }
}

} // verus!
