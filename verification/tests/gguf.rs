use lokal::gguf::arch::{hf_name, model_config, qwen35_meta, unpermute_llama_qk, Qwen35Meta};
use lokal::gguf::container::{
    checked_expanded_f32_bytes, checked_quant_bytes, expanded_f32_bytes, phys_ram_bytes, quant_bytes, summary, GgufFile,
};
use lokal::gguf::ggml_type::GgmlType;
use lokal::gguf::reader::FloatBits;

// ---------- fixtures ----------

fn put_str(b: &mut Vec<u8>, s: &str) {
    b.extend_from_slice(&(s.len() as u64).to_le_bytes());
    b.extend_from_slice(s.as_bytes());
}

fn put_u32(b: &mut Vec<u8>, k: &str, v: u32) {
    put_str(b, k);
    b.extend_from_slice(&4u32.to_le_bytes());
    b.extend_from_slice(&v.to_le_bytes());
}

fn put_text(b: &mut Vec<u8>, k: &str, v: &str) {
    put_str(b, k);
    b.extend_from_slice(&8u32.to_le_bytes());
    put_str(b, v);
}

fn header(version: u32, n_tensors: u64, n_kv: u64) -> Vec<u8> {
    let mut b = Vec::new();
    b.extend_from_slice(b"GGUF");
    b.extend_from_slice(&version.to_le_bytes());
    b.extend_from_slice(&n_tensors.to_le_bytes());
    b.extend_from_slice(&n_kv.to_le_bytes());
    b
}

fn put_tensor(b: &mut Vec<u8>, name: &str, ne: &[u64], ty: u32, offset: u64) {
    put_str(b, name);
    b.extend_from_slice(&(ne.len() as u32).to_le_bytes());
    for d in ne {
        b.extend_from_slice(&d.to_le_bytes());
    }
    b.extend_from_slice(&ty.to_le_bytes());
    b.extend_from_slice(&offset.to_le_bytes());
}

fn pad(b: &mut Vec<u8>, align: usize) {
    while b.len() % align != 0 {
        b.push(0);
    }
}

/// One string entry and one Q8_0 tensor of ne=[32, 2] at offset 0.
fn tiny_gguf(version: u32, align: Option<u64>) -> Vec<u8> {
    let mut b = header(version, 1, 1 + align.is_some() as u64);
    put_text(&mut b, "general.architecture", "llama");
    if let Some(a) = align {
        put_u32(&mut b, "general.alignment", a as u32);
    }
    put_tensor(&mut b, "t", &[32, 2], 8, 0);
    pad(&mut b, align.unwrap_or(32) as usize);
    b.extend_from_slice(&vec![0u8; 68]);
    b
}

/// Three unsupported types across four of five tensors, and one that is
/// supported.
fn mixed_lowbit_gguf() -> Vec<u8> {
    let mut b = header(3, 5, 1);
    put_text(&mut b, "general.architecture", "llama");
    for (name, ty) in [
        ("token_embd.weight", 9u32),
        ("blk.0.ffn_down.weight", 9),
        ("blk.0.attn_q.weight", 7),
        ("blk.1.attn_q.weight", 3),
        ("output_norm.weight", 8),
    ] {
        put_tensor(&mut b, name, &[256, 2], ty, 0);
    }
    pad(&mut b, 32);
    b.extend_from_slice(&vec![0u8; 4096]);
    b
}

fn qwen35_kv(nextn: u64, with_array: bool) -> Vec<u8> {
    let mut b = header(3, 1, 9 + (nextn > 0) as u64 + with_array as u64);
    put_text(&mut b, "general.architecture", "qwen35");
    put_u32(&mut b, "qwen35.block_count", 9);
    if nextn > 0 {
        put_u32(&mut b, "qwen35.nextn_predict_layers", nextn as u32);
    }
    put_u32(&mut b, "qwen35.full_attention_interval", 4);
    put_u32(&mut b, "qwen35.ssm.conv_kernel", 4);
    put_u32(&mut b, "qwen35.ssm.state_size", 128);
    put_u32(&mut b, "qwen35.ssm.group_count", 16);
    put_u32(&mut b, "qwen35.ssm.time_step_rank", 48);
    put_u32(&mut b, "qwen35.ssm.inner_size", 48 * 128);
    put_str(&mut b, "qwen35.rope.dimension_sections");
    b.extend_from_slice(&9u32.to_le_bytes());
    b.extend_from_slice(&5u32.to_le_bytes());
    b.extend_from_slice(&4u64.to_le_bytes());
    for v in [11i32, 11, 10, 0] {
        b.extend_from_slice(&v.to_le_bytes());
    }
    if with_array {
        put_str(&mut b, "qwen35.attention.recurrent_layers");
        b.extend_from_slice(&9u32.to_le_bytes());
        b.extend_from_slice(&7u32.to_le_bytes());
        b.extend_from_slice(&8u64.to_le_bytes());
        for v in [1u8, 0, 1, 1, 1, 0, 1, 1] {
            b.push(v);
        }
    }
    put_tensor(&mut b, "t", &[32], 8, 0);
    pad(&mut b, 32);
    b.extend_from_slice(&vec![0u8; 34]);
    b
}

fn open_err(bytes: &[u8]) -> String {
    match GgufFile::open("model.gguf", bytes) {
        Ok(_) => panic!("expected an error"),
        Err(e) => e,
    }
}

// ---------- the container ----------

#[test]
fn refusal_names_every_unsupported_type_at_once() {
    let err = open_err(&mixed_lowbit_gguf());
    for want in ["Q8_1", "Q5_1", "Q4_1"] {
        assert!(err.contains(want), "error should name {want}: {err}");
    }
    assert!(err.contains("Q8_1 (2 tensors, e.g. token_embd.weight)"), "{err}");
    assert!(err.contains("Q5_1 (1 tensor, e.g."), "singular reads right: {err}");
    assert!(err.contains("3 quantization type(s)"), "{err}");
    assert!(err.contains("across 4 of 5 tensors"), "{err}");
    let listed = err.split(". Re-download").next().unwrap();
    assert!(!listed.contains("Q8_0"), "Q8_0 is supported and must not be listed: {err}");
    assert!(err.contains("Re-download the model as Q4_K_M or Q8_0"), "{err}");
}

#[test]
fn parses_the_synthetic_file() {
    let bytes = tiny_gguf(3, None);
    let g = GgufFile::open("model.gguf", &bytes).unwrap();
    assert_eq!(g.version, 3);
    assert_eq!(g.n_tensors(), 1);
    assert_eq!(g.get_str("general.architecture").unwrap(), "llama");
    let t = g.tensor("t").unwrap();
    assert_eq!(t.dims, vec![2, 32]);
    assert_eq!(t.ty, GgmlType::Q8_0);
    assert_eq!(t.data.len(), 68);
}

#[test]
fn respects_general_alignment() {
    let bytes = tiny_gguf(2, Some(64));
    let g = GgufFile::open("model.gguf", &bytes).unwrap();
    assert_eq!(g.tensor("t").unwrap().data.len(), 68);
}

#[test]
fn rejects_big_endian_and_truncation() {
    let mut be = tiny_gguf(3, None);
    be[4..8].copy_from_slice(&3u32.to_be_bytes());
    let err = open_err(&be);
    assert!(err.contains("big-endian"), "{err}");
    let mut short = tiny_gguf(3, None);
    short.truncate(short.len() - 40);
    let err = open_err(&short);
    assert!(err.contains("truncated") || err.contains("run past"), "{err}");
}

#[test]
fn a_missing_tensor_is_named() {
    let bytes = tiny_gguf(3, None);
    let g = GgufFile::open("model.gguf", &bytes).unwrap();
    match g.tensor("u") {
        Ok(_) => panic!("there is no such tensor"),
        Err(e) => assert_eq!(e, "tensor u not in the GGUF file"),
    }
}

#[test]
fn other_magic_and_version_are_refused() {
    let mut bad = tiny_gguf(3, None);
    bad[0] = b'X';
    assert!(GgufFile::open("model.gguf", &bad).is_err());
    assert!(GgufFile::open("model.gguf", &tiny_gguf(1, None)).is_err());
    assert!(GgufFile::open("model.gguf", b"GG").is_err());
    assert!(GgufFile::open("model.gguf", b"").is_err());
}

#[test]
fn metadata_is_read_by_kind() {
    let mut b = header(3, 0, 5);
    put_text(&mut b, "s", "h\u{e9}");
    put_u32(&mut b, "n", 7);
    put_str(&mut b, "f");
    b.extend_from_slice(&6u32.to_le_bytes());
    b.extend_from_slice(&1.5f32.to_le_bytes());
    put_str(&mut b, "words");
    b.extend_from_slice(&9u32.to_le_bytes());
    b.extend_from_slice(&8u32.to_le_bytes());
    b.extend_from_slice(&2u64.to_le_bytes());
    put_str(&mut b, "a");
    put_str(&mut b, "bc");
    put_str(&mut b, "ints");
    b.extend_from_slice(&9u32.to_le_bytes());
    b.extend_from_slice(&5u32.to_le_bytes());
    b.extend_from_slice(&2u64.to_le_bytes());
    b.extend_from_slice(&(-3i32).to_le_bytes());
    b.extend_from_slice(&4i32.to_le_bytes());
    let g = GgufFile::open("m", &b).unwrap();
    assert_eq!(g.n_tensors(), 0);
    assert_eq!(g.get_str("s").unwrap(), "h\u{e9}");
    assert_eq!(g.get_usize("n").unwrap(), 7);
    assert_eq!(g.get_f32("f").unwrap(), FloatBits::Single(1.5f32.to_bits()));
    assert_eq!(g.get_arr_str("words").unwrap(), ["a".to_string(), "bc".to_string()]);
    assert_eq!(g.get_arr_i64("ints").unwrap(), [-3i64, 4]);
    assert!(g.has_key("n") && !g.has_key("m"));
    assert!(g.get_usize("m").is_err());
    assert!(g.get_usize("s").is_err());
    assert!(g.get_str("n").is_err());
    assert!(g.get_arr_str("ints").is_err());
    assert!(g.get_arr_i64("words").is_err());
    assert!(g.get_f32("s").is_err());
}

#[test]
fn text_that_is_not_utf8_is_replaced() {
    let mut b = header(3, 0, 1);
    put_str(&mut b, "s");
    b.extend_from_slice(&8u32.to_le_bytes());
    b.extend_from_slice(&2u64.to_le_bytes());
    b.extend_from_slice(&[b'a', 0xFF]);
    let g = GgufFile::open("m", &b).unwrap();
    assert_eq!(g.get_str("s").unwrap(), "a\u{FFFD}");
}

#[test]
fn a_file_lists_its_tensors() {
    let mut b = header(3, 2, 1);
    put_text(&mut b, "general.architecture", "llama");
    put_tensor(&mut b, "b.weight", &[32, 2], 8, 0);
    put_tensor(&mut b, "a.weight", &[4], 0, 96);
    pad(&mut b, 32);
    let mut data = vec![0u8; 112];
    data[96..100].copy_from_slice(&1f32.to_le_bytes());
    b.extend_from_slice(&data);
    let g = GgufFile::open("m", &b).unwrap();
    let names: Vec<String> = g.tensors().into_iter().map(|t| t.name).collect();
    assert_eq!(names.len(), 2);
    assert!(names.contains(&"a.weight".to_string()) && names.contains(&"b.weight".to_string()));
    assert_eq!(g.tensor("a.weight").unwrap().data[0..4], 1f32.to_le_bytes());
    assert_eq!(expanded_f32_bytes(&g), 64 * 4 + 4 * 4);
    assert_eq!(checked_expanded_f32_bytes(&g), Some(272));
    assert_eq!(quant_bytes(&g), 68 + 16);
    assert_eq!(checked_quant_bytes(&g), Some(84));
    let tsv = g.dump_tsv();
    assert_eq!(tsv.lines().count(), 2);
    assert!(tsv.contains("b.weight") && tsv.contains("Q8_0"), "{tsv}");
    let s = summary(&g);
    assert!(s.contains("F32") && s.contains("Q8_0"), "{s}");
}

#[test]
fn memory_is_assumed_measured_or_sixteen_gib() {
    assert_eq!(phys_ram_bytes(Some("512"), Some(1)), 512 << 20);
    assert_eq!(phys_ram_bytes(Some("many"), Some(1 << 33)), 1 << 33);
    assert_eq!(phys_ram_bytes(None, Some(5)), 5);
    assert_eq!(phys_ram_bytes(None, Some(0)), 16 << 30);
    assert_eq!(phys_ram_bytes(None, None), 16 << 30);
}

// ---------- architectures ----------

#[test]
fn unpermute_inverts_the_converter_permute() {
    let hd = 4usize;
    let rows = 8usize;
    let hf: Vec<f32> = (0..rows as u32).map(|x| x as f32).collect();
    let mut gguf = vec![0f32; rows];
    for h in 0..rows / hd {
        for a in 0..2 {
            for d in 0..hd / 2 {
                gguf[h * hd + d * 2 + a] = hf[h * hd + a * (hd / 2) + d];
            }
        }
    }
    let mut got = gguf.clone();
    unpermute_llama_qk(&mut got, rows, 1, hd);
    assert_eq!(got, hf);
}

#[test]
fn maps_gguf_names_to_hf() {
    assert_eq!(hf_name("token_embd.weight").as_deref(), Some("model.embed_tokens.weight"));
    assert_eq!(
        hf_name("blk.7.attn_output.weight").as_deref(),
        Some("model.layers.7.self_attn.o_proj.weight")
    );
    assert_eq!(hf_name("blk.0.attn_q.bias").as_deref(), Some("model.layers.0.self_attn.q_proj.bias"));
    assert_eq!(
        hf_name("blk.3.attn_k_norm.weight").as_deref(),
        Some("model.layers.3.self_attn.k_norm.weight")
    );
    assert_eq!(hf_name("rope_freqs.weight"), None);
}

#[test]
fn names_of_the_other_parts_map_too() {
    assert_eq!(hf_name("output_norm.weight").as_deref(), Some("model.norm.weight"));
    assert_eq!(hf_name("output.weight").as_deref(), Some("lm_head.weight"));
    assert_eq!(hf_name("blk.x.attn_q.weight"), None);
}

#[test]
fn qwen35_meta_interval_and_mtp() {
    let bytes = qwen35_kv(1, false);
    let g = GgufFile::open("q35a", &bytes).unwrap();
    let m = qwen35_meta(&g).unwrap();
    assert_eq!((m.trunk_layers, m.nextn_layers), (8, 1));
    let attn: Vec<usize> =
        m.is_recurrent.iter().enumerate().filter(|(_, r)| !**r).map(|(i, _)| i).collect();
    assert_eq!(attn, vec![3, 7]);
    assert_eq!(m.d_inner, 48 * 128);
    assert_eq!(m.conv_state_elems, 3 * (6144 + 2 * 16 * 128));
    assert_eq!(m.delta_state_elems, 128 * 6144);
    assert_eq!(m.rope_sections, [11, 11, 10, 0]);
    assert!(m.is_mtp_tensor("blk.8.attn_q.weight"));
    assert!(m.is_mtp_tensor("blk.8.nextn.eh_proj.weight"));
    assert!(!m.is_mtp_tensor("blk.7.attn_q.weight"));
    assert_eq!(m.trunk_layers, 8);
}

#[test]
fn qwen35_meta_array_overrides_interval() {
    let bytes = qwen35_kv(1, true);
    let g = GgufFile::open("q35b", &bytes).unwrap();
    let m = qwen35_meta(&g).unwrap();
    assert_eq!(m.is_recurrent, vec![true, false, true, true, true, false, true, true]);
}

#[test]
fn qwen3_arch_meta_from_synthetic_header() {
    let keys: &[(&str, u32, u64)] = &[
        ("qwen3.block_count", 4, 2),
        ("qwen3.embedding_length", 4, 1024),
        ("qwen3.feed_forward_length", 4, 3072),
        ("qwen3.attention.head_count", 4, 16),
        ("qwen3.attention.head_count_kv", 4, 8),
        ("qwen3.attention.key_length", 4, 128),
        ("qwen3.vocab_size", 4, 1000),
    ];
    let mut b = header(3, 1, (keys.len() + 2) as u64);
    put_text(&mut b, "general.architecture", "qwen3");
    for (k, ty, v) in keys {
        put_str(&mut b, k);
        b.extend_from_slice(&ty.to_le_bytes());
        b.extend_from_slice(&(*v as u32).to_le_bytes());
    }
    put_str(&mut b, "qwen3.attention.layer_norm_rms_epsilon");
    b.extend_from_slice(&6u32.to_le_bytes());
    b.extend_from_slice(&1e-6f32.to_le_bytes());
    put_tensor(&mut b, "blk.0.attn_q_norm.weight", &[128], 0, 0);
    while b.len() % 32 != 0 {
        b.push(0);
    }
    b.extend_from_slice(&vec![0u8; 512]);
    let g = GgufFile::open("qwen3", &b).unwrap();
    let (cfg, arch) = model_config(&g).unwrap();
    assert_eq!(arch.arch, "qwen3");
    assert_eq!(arch.head_dim, 128, "head_dim must come from metadata, never hidden/n_heads");
    assert!(arch.qk_norm);
    assert_eq!(cfg.hidden_size / cfg.num_attention_heads, 64);
    assert_eq!(expanded_f32_bytes(&g), 128 * 4);
    assert_eq!(quant_bytes(&g), 128 * 4);
}

#[test]
fn a_hybrid_without_its_keys_is_refused() {
    let bytes = tiny_gguf(3, None);
    let g = GgufFile::open("m", &bytes).unwrap();
    assert!(qwen35_meta(&g).is_err());
    assert!(model_config(&g).is_err());
}

#[test]
fn mtp_tensors_are_told_apart_without_a_file() {
    let m = Qwen35Meta {
        trunk_layers: 2,
        nextn_layers: 1,
        full_attention_interval: 2,
        is_recurrent: vec![true, false],
        d_conv: 4,
        d_state: 8,
        n_group: 2,
        dt_rank: 4,
        d_inner: 32,
        rope_sections: [1, 1, 1, 0],
        conv_state_elems: 3 * 64,
        delta_state_elems: 256,
    };
    assert!(m.is_mtp_tensor("blk.2.ffn_up.weight"));
    assert!(!m.is_mtp_tensor("blk.1.ffn_up.weight"));
    assert!(!m.is_mtp_tensor("output.weight"));
}

#[test]
fn no_two_names_are_mapped_to_one() {
    let parts = [
        "attn_norm", "ffn_norm", "attn_q", "attn_k", "attn_v", "attn_output", "attn_q_norm", "attn_k_norm",
        "ffn_gate", "ffn_up", "ffn_down", "ssm_out", "attn_qkv", "gguf.attn_q",
    ];
    let mut names: Vec<String> =
        vec!["token_embd.weight".to_string(), "output_norm.weight".to_string(), "output.weight".to_string()];
    for i in [0, 1, 10, 11] {
        for p in parts {
            names.push(format!("blk.{i}.{p}.weight"));
            names.push(format!("blk.{i}.{p}.bias"));
        }
    }
    let mut mapped: Vec<String> = names.iter().map(|n| hf_name(n).unwrap()).collect();
    mapped.sort();
    mapped.dedup();
    assert_eq!(mapped.len(), names.len());
    // A number written with leading zeros is the same block.
    assert_eq!(hf_name("blk.07.attn_q.weight"), hf_name("blk.7.attn_q.weight"));
}
