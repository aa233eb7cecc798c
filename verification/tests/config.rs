use lokal::config::{default_max_pos, default_rope_theta, EosIds, ModelConfig};
use lokal::gguf::reader::FloatBits;

fn config(arch: &str) -> ModelConfig {
    ModelConfig {
        architectures: vec![arch.to_string()],
        hidden_size: 64,
        intermediate_size: 128,
        num_hidden_layers: 2,
        num_attention_heads: 4,
        num_key_value_heads: 2,
        vocab_size: 100,
        rms_norm_eps: FloatBits::Single(1e-6f32.to_bits()),
        rope_theta: default_rope_theta(),
        max_position_embeddings: default_max_pos(),
        eos_token_id: EosIds::default(),
    }
}

fn load_arch(arch: &str) -> Result<(ModelConfig, Option<String>), String> {
    ModelConfig::load(config(arch))
}

#[test]
fn qwen3_family_is_refused_by_name() {
    for arch in ["Qwen3ForCausalLM", "Qwen3MoeForCausalLM", "Qwen3_5ForCausalLM"] {
        let err = match load_arch(arch) {
            Err(e) => e.to_string(),
            Ok(_) => panic!("{arch} must be refused"),
        };
        assert!(err.contains(arch), "{err}");
        assert!(err.contains("not supported from safetensors"), "{err}");
        assert!(err.contains(".gguf"), "names the working alternative: {err}");
    }
}

#[test]
fn llama_shaped_archs_still_load() {
    for arch in ["LlamaForCausalLM", "Qwen2ForCausalLM", "SomeNewLlamaCloneForCausalLM"] {
        assert!(load_arch(arch).is_ok(), "{arch} must load");
    }
    assert!(load_arch("Qwen2ForCausalLM").is_ok());
}

#[test]
fn only_an_unknown_architecture_is_warned_about() {
    assert!(load_arch("LlamaForCausalLM").unwrap().1.is_none());
    let warning = load_arch("SomeNewLlamaCloneForCausalLM").unwrap().1.unwrap();
    assert!(warning.contains("SomeNewLlamaCloneForCausalLM"), "{warning}");
    let mut none = config("");
    none.architectures.clear();
    assert!(ModelConfig::load(none).unwrap().1.is_none());
}

#[test]
fn widths_follow_the_head_counts() {
    let c = config("LlamaForCausalLM");
    assert_eq!(c.head_dim(), 16);
    assert_eq!(c.kv_dim(), 32);
    assert_eq!(default_max_pos(), 4096);
    assert_eq!(default_rope_theta(), FloatBits::Single(10000f32.to_bits()));
}

#[test]
fn end_tokens_are_one_or_many() {
    assert!(EosIds::One(7).contains(7) && !EosIds::One(7).contains(8));
    let many = EosIds::Many(vec![1, 5]);
    assert!(many.contains(1) && many.contains(5) && !many.contains(2));
    let mut c = config("LlamaForCausalLM");
    c.eos_token_id = many;
    assert!(c.is_eos(5) && !c.is_eos(4));
}
