//! Model hyperparameters and the verdict on a safetensors architecture.
use vstd::prelude::*;
use vstd::string::*;

use crate::gguf::reader::FloatBits;
use crate::text::{chars_of, same, starts};

verus! {

/// The ids that end a text: one, or a list of them.
#[derive(Debug, Clone)]
pub enum EosIds {
    One(u32),
    Many(Vec<u32>),
}

impl View for EosIds {
    type V = Set<u32>;

    open spec fn view(&self) -> Set<u32> {
        match self {
            EosIds::One(x) => Set::empty().insert(*x),
            EosIds::Many(xs) => xs@.to_set(),
        }
    }
}

impl Default for EosIds {
    fn default() -> (r: Self)
        ensures
            r@ == Set::<u32>::empty(),
    {
        let r = EosIds::Many(Vec::new());
        assert(r@ =~= Set::<u32>::empty());
        r
    }
}

impl EosIds {
    /// Whether `id` ends a text.
    pub fn contains(&self, id: u32) -> (r: bool)
        ensures
            r == self@.contains(id),
    {
        match self {
            EosIds::One(x) => *x == id,
            EosIds::Many(xs) => {
                let mut i: usize = 0;
                while i < xs.len()
                    invariant
                        self@ == xs@.to_set(),
                        i <= xs@.len(),
                        forall|j: int| 0 <= j < i ==> xs@[j] != id,
                    decreases xs.len() - i,
                {
                    if xs[i] == id {
                        assert(xs@.contains(id));
                        return true;
                    }
                    i = i + 1;
                }
                false
            },
        }
    }
}

/// A model's hyperparameters. Field names match the keys of `config.json`.
#[derive(Debug, Clone)]
pub struct ModelConfig {
    pub architectures: Vec<String>,
    /// Width of each token's hidden state.
    pub hidden_size: usize,
    /// Inner width of the MLP.
    pub intermediate_size: usize,
    /// Number of transformer blocks.
    pub num_hidden_layers: usize,
    /// Query heads.
    pub num_attention_heads: usize,
    /// K/V heads.
    pub num_key_value_heads: usize,
    pub vocab_size: usize,
    pub rms_norm_eps: FloatBits,
    /// RoPE frequency base.
    pub rope_theta: FloatBits,
    /// Longest context the model was trained for.
    pub max_position_embeddings: usize,
    pub eos_token_id: EosIds,
}

/// 10000 in single precision.
pub const DEFAULT_ROPE_THETA_BITS: u32 = 0x461C_4000;

/// The context length of a model that states none.
pub fn default_max_pos() -> (r: usize)
    ensures
        r == 4096,
{
    4096
}

/// The frequency base of a model that states none.
pub fn default_rope_theta() -> (r: FloatBits)
    ensures
        r == FloatBits::Single(DEFAULT_ROPE_THETA_BITS),
{
    FloatBits::Single(DEFAULT_ROPE_THETA_BITS)
}

/// The verdict on an architecture's name.
pub enum ArchVerdict {
    Tested,
    Untested,
    Refused,
}

/// Names that start with `Qwen3` are refused; the tested ones are listed; any
/// other is tried with a warning.
pub open spec fn arch_verdict(arch: Seq<char>) -> ArchVerdict {
    if "Qwen3"@.is_prefix_of(arch) {
        ArchVerdict::Refused
    } else if arch == "LlamaForCausalLM"@ || arch == "Qwen2ForCausalLM"@ || arch == "MistralForCausalLM"@ {
        ArchVerdict::Tested
    } else {
        ArchVerdict::Untested
    }
}

pub open spec fn arch_refusal(arch: Seq<char>) -> Seq<char> {
    "architecture "@ + arch
        + " is not supported from safetensors: its explicit head_dim and qk-norm do not fit the Llama forward pass this path implements — run the GGUF instead (-m owner/repo:Q4_K_M or a local .gguf); safetensors support for this architecture is not wired yet"@
}

pub open spec fn arch_warning(arch: Seq<char>) -> Seq<char> {
    "warning: architecture "@ + arch + " is untested — attempting to run it as Llama"@
}

impl ModelConfig {
    /// Decides on a parsed `config.json` by its first architecture: the
    /// configuration with a warning where the architecture is untested, or the
    /// refusal.
    pub fn load(cfg: ModelConfig) -> (r: Result<(ModelConfig, Option<String>), String>)
        ensures
            match r {
                Ok((c, warning)) => {
                    &&& c == cfg
                    &&& match warning {
                        None => cfg.architectures@.len() == 0 || arch_verdict(cfg.architectures@[0]@)
                            is Tested,
                        Some(w) => {
                            &&& cfg.architectures@.len() > 0
                            &&& arch_verdict(cfg.architectures@[0]@) is Untested
                            &&& w@ == arch_warning(cfg.architectures@[0]@)
                        },
                    }
                },
                Err(e) => {
                    &&& cfg.architectures@.len() > 0
                    &&& arch_verdict(cfg.architectures@[0]@) is Refused
                    &&& e@ == arch_refusal(cfg.architectures@[0]@)
                },
            },
    {
        if cfg.architectures.len() == 0 {
            return Ok((cfg, None));
        }
        let a = cfg.architectures[0].clone();
        let name = chars_of(a.as_str());
        let family = chars_of("Qwen3");
        if starts(name.as_slice(), family.as_slice()) {
            let mut e = "architecture ".to_owned();
            e.append(a.as_str());
            e.append(
                " is not supported from safetensors: its explicit head_dim and qk-norm do not fit the Llama forward pass this path implements — run the GGUF instead (-m owner/repo:Q4_K_M or a local .gguf); safetensors support for this architecture is not wired yet",
            );
            return Err(e);
        }
        if same(a.as_str(), "LlamaForCausalLM") || same(a.as_str(), "Qwen2ForCausalLM")
            || same(a.as_str(), "MistralForCausalLM") {
            return Ok((cfg, None));
        }
        let mut w = "warning: architecture ".to_owned();
        w.append(a.as_str());
        w.append(" is untested — attempting to run it as Llama");
        Ok((cfg, Some(w)))
    }

    /// Vector width of a single attention head.
    pub fn head_dim(&self) -> (r: usize)
        requires
            self.num_attention_heads > 0,
        ensures
            r as int == self.hidden_size as int / self.num_attention_heads as int,
    {
        self.hidden_size / self.num_attention_heads
    }

    /// Width of K (or V) per token, in the integers.
    pub open spec fn kv_width(&self) -> int {
        self.num_key_value_heads as int * (self.hidden_size as int / self.num_attention_heads as int)
    }

    /// Total width of K (or V) per token.
    pub fn kv_dim(&self) -> (r: usize)
        requires
            self.num_attention_heads > 0,
            self.kv_width() <= usize::MAX,
        ensures
            r == self.kv_width(),
    {
        self.num_key_value_heads * self.head_dim()
    }

    pub fn is_eos(&self, id: u32) -> (r: bool)
        ensures
            r == self.eos_token_id@.contains(id),
    {
        self.eos_token_id.contains(id)
    }
}

} // verus!
