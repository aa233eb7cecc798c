use lokal::engine::BatchRow;
use lokal::gguf::ggml_type::GgmlType;
use lokal::gpu::batched::decode_step;
use lokal::gpu::dense::{plan_dense, step_fits, DenseBlock, Step};
use lokal::gpu::delta::DeltaDims;
use lokal::gpu::kernels::{build, function_name, precise, Build};
use lokal::gpu::linear_block::DeltaGeo;
use lokal::gguf::container::GgufFile;
use lokal::gpu::load::{
    file_sources, file_types, name_of_source, plan_load, quant_pipelines, stored_permuted, HybridMap, SourceTensor, Want,
};
use lokal::gpu::ops::{Buf, Cmd, Geo, Kernel, NormId, Params, Proj, Slot};
use lokal::gpu::params::{param_words, slot_words, ModelBits};
use lokal::gpu::quant::{plan_quant, quant_step_fits, spans_of_chunk, QuantAttn, QuantBlock, QuantModel};
use lokal::gpu::timing::SrcType;
use lokal::gpu::window::window_cfg;

/// Four heads over two, of four dimensions each.
fn geo() -> Geo {
    Geo {
        hidden: 16,
        inter: 32,
        vocab: 100,
        heads: 4,
        kv_heads: 2,
        head_dim: 4,
        q_dim: 16,
        kv_dim: 8,
        q_proj_dim: 16,
        rot_dim: 4,
        max_seq: 64,
        kv_base: 0,
        win: None,
    }
}

fn bare() -> DenseBlock {
    DenseBlock {
        q_bias: false,
        k_bias: false,
        v_bias: false,
        o_bias: false,
        gate_bias: false,
        up_bias: false,
        down_bias: false,
        qk_norm: false,
    }
}

fn kernels(cmds: &[Cmd]) -> Vec<Kernel> {
    cmds.iter()
        .filter_map(|c| match c {
            Cmd::Run(d) => Some(d.kernel),
            _ => None,
        })
        .collect()
}

fn barriers(cmds: &[Cmd]) -> usize {
    cmds.iter().filter(|c| matches!(c, Cmd::Barrier(_))).count()
}

fn binds(c: &Cmd, b: Buf) -> bool {
    match c {
        Cmd::Run(d) => d.slots.iter().any(|s| matches!(s, Slot::Buf(x, _) if *x == b)),
        _ => false,
    }
}

fn orders(c: &Cmd, b: Buf) -> bool {
    match c {
        Cmd::Barrier(v) => v.contains(&b),
        _ => false,
    }
}

/// How often `b` is bound, and whether a barrier on it stands between any two
/// uses.
fn uses(cmds: &[Cmd], b: Buf) -> (usize, bool) {
    let (mut n, mut open, mut apart) = (0, false, true);
    for c in cmds {
        if binds(c, b) {
            apart = apart && !open;
            open = true;
            n += 1;
        }
        if orders(c, b) {
            open = false;
        }
    }
    (n, apart)
}

#[test]
fn one_token_takes_the_fused_kernels() {
    let st = Step { from_ids: true, n: 1, pos0: 5, layer0: 0, logits_rows: 1 };
    let cmds = plan_dense(&geo(), &vec![bare()], false, st);
    assert_eq!(
        kernels(&cmds),
        vec![
            Kernel::Embed,
            Kernel::RmsNorm,
            Kernel::MatvecQkv,
            Kernel::RopeQkDecode,
            Kernel::AttentionDecodePartial,
            Kernel::AttentionDecodeReduce,
            Kernel::MatvecAcc,
            Kernel::RmsNorm,
            Kernel::MatvecSwiglu,
            Kernel::MatvecAcc,
            Kernel::RmsNormHf,
            Kernel::Matvec,
        ]
    );
    assert_eq!(barriers(&cmds), 0);
    // Keys and values go to row 5 of the cache.
    match &cmds[2] {
        Cmd::Run(d) => assert_eq!(
            d.slots.last(),
            Some(&Slot::Params(Params::Qkv { in_dim: 16, q_dim: 16, kv_dim: 8, kv_off: 40 }))
        ),
        _ => panic!("a launch was expected"),
    }
}

#[test]
fn a_chunk_takes_the_tensor_kernels() {
    let st = Step { from_ids: true, n: 3, pos0: 0, layer0: 0, logits_rows: 0 };
    let cmds = plan_dense(&geo(), &vec![bare()], false, st);
    let ks = kernels(&cmds);
    assert!(ks.contains(&Kernel::MatmulT) && ks.contains(&Kernel::RopeQkPrefill) && ks.contains(&Kernel::Attention));
    assert!(!ks.contains(&Kernel::Matvec) && !ks.contains(&Kernel::AttentionFlash));
    assert!(barriers(&cmds) > 8);
    // Without logits the head does not run.
    assert!(!cmds.iter().any(|c| binds(c, Buf::Logits)));
}

#[test]
fn a_tail_starts_from_a_hidden_state() {
    let st = Step { from_ids: false, n: 3, pos0: 0, layer0: 1, logits_rows: 1 };
    let cmds = plan_dense(&geo(), &vec![bare(), bare()], false, st);
    assert!(!kernels(&cmds).contains(&Kernel::Embed));
    assert!(!cmds.iter().any(|c| binds(c, Buf::KCache(0))));
    assert!(cmds.iter().any(|c| binds(c, Buf::KCache(1))));
    assert!(cmds.iter().any(|c| binds(c, Buf::Logits)));
}

#[test]
fn a_tail_spares_the_caches_before_it() {
    let blocks = vec![bare(), bare()];
    for n in [1, 4] {
        let cmds = plan_dense(&geo(), &blocks, false, Step { from_ids: false, n, pos0: 0, layer0: 1, logits_rows: 1 });
        assert_eq!(uses(&cmds, Buf::KCache(0)).0, 0);
        assert_eq!(uses(&cmds, Buf::VCache(0)).0, 0);
        assert!(uses(&cmds, Buf::KCache(1)).0 > 0);
    }
}

#[test]
fn biases_and_head_norms_change_the_kernels() {
    let st = Step { from_ids: true, n: 2, pos0: 0, layer0: 0, logits_rows: 0 };
    let b = DenseBlock { q_bias: true, qk_norm: true, ..bare() };
    let cmds = plan_dense(&geo(), &vec![b], false, st);
    assert!(kernels(&cmds).contains(&Kernel::MatmulTb));
    assert!(cmds.iter().any(|c| binds(c, Buf::Norm(0, NormId::QHead))));
    assert!(kernels(&cmds).contains(&Kernel::RmsNormHInplace));
}

#[test]
fn a_window_stages_keys_and_values() {
    let mut g = geo();
    g.win = Some(window_cfg(64, 4).unwrap());
    let st = Step { from_ids: true, n: 8, pos0: 0, layer0: 0, logits_rows: 0 };
    let cmds = plan_dense(&g, &vec![bare()], false, st);
    // Two spans, each with a copy of the keys and one of the values.
    let copies = kernels(&cmds).into_iter().filter(|k| *k == Kernel::F32ToF16).count();
    assert!(copies >= 4, "{copies}");
    assert!(kernels(&cmds).contains(&Kernel::WindowAttention));
    let spans: Vec<(usize, usize, usize)> =
        spans_of_chunk(&g, 0, 8).iter().map(|s| (s.row, s.slot, s.len)).collect();
    assert_eq!(spans, vec![(0, 0, 4), (4, 128, 4)]);
    g.win = None;
    let spans: Vec<(usize, usize, usize)> =
        spans_of_chunk(&g, 7, 8).iter().map(|s| (s.row, s.slot, s.len)).collect();
    assert_eq!(spans, vec![(0, 7, 8)]);
}

#[test]
fn a_batched_step_has_a_row_per_request() {
    let rows = [BatchRow { token: 7, pos: 3, slot: 1 }, BatchRow { token: 8, pos: 20, slot: 0 }];
    let plan = decode_step(&geo(), &vec![bare(), bare()], false, &rows, 2);
    assert_eq!(plan.ids, vec![7, 8]);
    assert_eq!((plan.meta[0].pos, plan.meta[0].slot), (3, 1));
    assert_eq!((plan.meta[1].pos, plan.meta[1].slot), (20, 0));
    assert_eq!(barriers(&plan.cmds), 0);
    let ks = kernels(&plan.cmds);
    assert_eq!(ks.iter().filter(|k| **k == Kernel::MatvecQkvBatch).count(), 2);
    assert_eq!(ks.iter().filter(|k| **k == Kernel::AttentionPartialBatch).count(), 2);
    // A row of logits per request.
    assert_eq!(*ks.last().unwrap(), Kernel::Matmul);
}

#[test]
fn another_order_of_rows_is_the_same_step() {
    let a = [
        BatchRow { token: 7, pos: 3, slot: 1 },
        BatchRow { token: 8, pos: 200, slot: 0 },
        BatchRow { token: 9, pos: 40, slot: 2 },
    ];
    let b = [a[2], a[0], a[1]];
    let g = Geo { max_seq: 256, ..geo() };
    let (x, y) = (decode_step(&g, &vec![bare()], false, &a, 3), decode_step(&g, &vec![bare()], false, &b, 3));
    let launches = |v: &[Cmd]| -> Vec<(Kernel, (u64, u64, u64))> {
        v.iter()
            .filter_map(|c| match c {
                Cmd::Run(d) => Some((d.kernel, d.groups)),
                _ => None,
            })
            .collect()
    };
    assert_eq!(launches(&x.cmds), launches(&y.cmds));
    assert_eq!(y.ids, vec![9, 7, 8]);
    assert_eq!(y.meta, vec![x.meta[2], x.meta[0], x.meta[1]]);
    // Whatever touches a cache is told where the rows stand.
    for c in &x.cmds {
        if binds(c, Buf::KCache(0)) || binds(c, Buf::VCache(0)) {
            assert!(binds(c, Buf::Meta));
        }
    }
}

// ---------- quantized models ----------

fn full() -> QuantBlock {
    QuantBlock { attn: QuantAttn::Full { q: 4, k: 4, v: 5, o: 4, qk_norm: true }, gate: 4, up: 4, down: 5 }
}

fn linear() -> QuantBlock {
    QuantBlock { attn: QuantAttn::Linear { qkv: 4, z: 4, alpha: 0, beta: 0, out: 4 }, gate: 4, up: 4, down: 5 }
}

fn hybrid() -> QuantModel {
    let mut g = geo();
    g.q_proj_dim = 32;
    g.rot_dim = 2;
    QuantModel {
        geo: g,
        delta: DeltaGeo::of(DeltaDims { d_state: 4, n_v_heads: 4, n_k_heads: 2, d_conv: 4 }),
        blocks: vec![linear(), full(), linear(), full()],
        head: 5,
    }
}

#[test]
fn linear_widths_follow_the_heads() {
    let d = DeltaGeo::of(DeltaDims { d_state: 4, n_v_heads: 4, n_k_heads: 2, d_conv: 4 }).unwrap();
    assert_eq!((d.inner, d.keys, d.channels), (16, 8, 32));
    assert!(DeltaGeo::of(DeltaDims { d_state: 4, n_v_heads: 4, n_k_heads: 0, d_conv: 4 }).is_none());
    assert!(DeltaGeo::of(DeltaDims { d_state: 4, n_v_heads: 2, n_k_heads: 4, d_conv: 4 }).is_none());
}

#[test]
fn blocks_keep_to_their_own_states() {
    let m = hybrid();
    for n in [1u32, 6] {
        let cmds = plan_quant(&m, Step { from_ids: true, n, pos0: 3, layer0: 0, logits_rows: 1 });
        for l in 0..4usize {
            let is_linear = l % 2 == 0;
            for (b, mine) in [
                (Buf::KCache(l), !is_linear),
                (Buf::VCache(l), !is_linear),
                (Buf::ConvState(l), is_linear),
                (Buf::DeltaState(l), is_linear),
            ] {
                assert_eq!(uses(&cmds, b).0 > 0, mine, "{b:?} with {n} tokens");
            }
        }
    }
}

#[test]
fn concurrent_uses_are_ordered() {
    let m = hybrid();
    let cmds = plan_quant(&m, Step { from_ids: true, n: 6, pos0: 0, layer0: 0, logits_rows: 1 });
    for b in [Buf::QGate, Buf::ConvState(0), Buf::DeltaState(0), Buf::ConvState(2), Buf::DeltaState(2)] {
        let (n, apart) = uses(&cmds, b);
        assert!(n > 1 && apart, "{b:?}");
    }
    // The delta rule runs once per token.
    assert_eq!(uses(&cmds, Buf::DeltaState(0)).0, 6);
    assert_eq!(uses(&cmds, Buf::ConvState(0)).0, 2);
    // The split and its use, in two full blocks.
    assert_eq!(uses(&cmds, Buf::QGate).0, 4);
}

#[test]
fn a_quantized_decode_reads_each_weight_by_its_type() {
    let m = hybrid();
    let cmds = plan_quant(&m, Step { from_ids: true, n: 1, pos0: 0, layer0: 0, logits_rows: 1 });
    assert_eq!(barriers(&cmds), 0);
    let ks = kernels(&cmds);
    assert!(ks.contains(&Kernel::QMatvecH(5)) && ks.contains(&Kernel::QMatvecAcc(4)));
    assert!(ks.contains(&Kernel::SplitQGate) && ks.contains(&Kernel::AttnOutGate));
    assert_eq!(*ks.last().unwrap(), Kernel::QMatvec(5));
    assert!(!ks.iter().any(|k| matches!(k, Kernel::QMatmul(_))));
}

#[test]
fn kernels_are_built_by_name_and_constants() {
    let mut g = geo();
    assert_eq!(function_name(Kernel::QMatmul(3)), "matmul_pg");
    assert_eq!(function_name(Kernel::WindowFlash), "attention_prefill_flash");
    assert!(precise(Kernel::QMatvec(3)) && !precise(Kernel::Matvec));
    match build(Kernel::QMatvec(7), &g) {
        Build::With(c) => assert_eq!(c, vec![(25, 7)]),
        Build::Plain => panic!("a selector was expected"),
    }
    match build(Kernel::AttentionDecodePartial, &g) {
        Build::With(c) => assert_eq!(c, vec![(0, 2)]),
        Build::Plain => panic!("a group width was expected"),
    }
    assert!(matches!(build(Kernel::Rope, &g), Build::Plain));
    assert!(matches!(build(Kernel::Matvec, &g), Build::With(c) if c.is_empty()));
    g.win = Some(window_cfg(64, 4).unwrap());
    match build(Kernel::WindowDecodePartial, &g) {
        Build::With(c) => assert_eq!(c, vec![(0, 2), (20, 4), (21, 128), (22, 640), (23, 64)]),
        Build::Plain => panic!("a window was expected"),
    }
}

// ---------- loading ----------

fn tensor(name: &str, ty: SrcType, shape: &[u64]) -> SourceTensor {
    SourceTensor { name: name.to_string(), ty, shape: shape.to_vec() }
}

fn q4() -> SrcType {
    SrcType::Quant(GgmlType::Q4_K)
}

fn dense_file() -> Vec<SourceTensor> {
    let p = "model.layers.0";
    vec![
        tensor(&format!("{p}.self_attn.q_proj.weight"), q4(), &[16, 16]),
        tensor(&format!("{p}.self_attn.k_proj.weight"), q4(), &[8, 16]),
        tensor(&format!("{p}.self_attn.v_proj.weight"), SrcType::Quant(GgmlType::Q6_K), &[8, 16]),
        tensor(&format!("{p}.self_attn.o_proj.weight"), SrcType::F16, &[16, 16]),
        tensor(&format!("{p}.input_layernorm.weight"), SrcType::F32, &[16]),
        tensor(&format!("{p}.post_attention_layernorm.weight"), SrcType::F32, &[16]),
        tensor(&format!("{p}.mlp.gate_proj.weight"), q4(), &[32, 16]),
        tensor(&format!("{p}.mlp.up_proj.weight"), q4(), &[32, 16]),
        tensor(&format!("{p}.mlp.down_proj.weight"), q4(), &[16, 32]),
        tensor("model.norm.weight", SrcType::F32, &[16]),
        tensor("model.embed_tokens.weight", q4(), &[100, 16]),
    ]
}

#[test]
fn selectors_are_built_once_and_half_always() {
    assert_eq!(quant_pipelines(&vec![GgmlType::Q4_K, GgmlType::Q6_K, GgmlType::Q4_K]).unwrap(), vec![4, 5, 0]);
    assert_eq!(quant_pipelines(&vec![GgmlType::F16]).unwrap(), vec![0]);
    assert_eq!(
        quant_pipelines(&vec![GgmlType::Q4_K, GgmlType::F32]).unwrap_err(),
        "GGUF type F32 has no metal quant pipeline yet — re-download as Q4_K_M or Q8_0"
    );
}

#[test]
fn a_dense_file_loads() {
    let plan = plan_load(&dense_file(), &vec![GgmlType::Q4_K, GgmlType::Q6_K], geo(), None, 1).unwrap();
    assert_eq!(plan.pipelines, vec![4, 5, 0]);
    assert_eq!(plan.model.blocks.len(), 1);
    assert_eq!(plan.model.blocks[0].attn, QuantAttn::Full { q: 4, k: 4, v: 5, o: 0, qk_norm: false });
    assert_eq!(plan.model.head, 4);
    let head = &plan.items[plan.items.len() - 2];
    assert_eq!((head.name.as_str(), head.dest), ("model.embed_tokens", Buf::Weight(1, Proj::Head)));
    // Behind every matrix stands its bias, which need not be there.
    for pair in plan.items.windows(2) {
        if let (Want::Matrix { .. }, Buf::Weight(l, p)) = (pair[0].want, pair[0].dest) {
            assert_eq!(pair[1].name, format!("{}.bias", pair[0].name));
            assert_eq!((pair[1].dest, pair[1].want), (Buf::Bias(l, p), Want::MaybeVector));
        }
    }
    assert!(plan.items.iter().any(|i| i.name == "model.layers.0.self_attn.q_proj.bias"));
    // Its own head wins over the embedding.
    let mut file = dense_file();
    file.push(tensor("lm_head.weight", SrcType::Quant(GgmlType::Q8_0), &[100, 16]));
    let plan = plan_load(&file, &vec![GgmlType::Q4_K], geo(), None, 1).unwrap();
    assert_eq!(plan.model.head, 2);
    assert_eq!(plan.items.last().unwrap().name, "lm_head.bias");
}

#[test]
fn the_first_bad_tensor_is_named() {
    let err = |file: &Vec<SourceTensor>| match plan_load(file, &vec![], geo(), None, 1) {
        Ok(_) => panic!("expected an error"),
        Err(e) => e,
    };
    let mut file = dense_file();
    file[1].shape = vec![16, 16];
    assert_eq!(err(&file), "model.layers.0.self_attn.k_proj: shape [16, 16], expected [8, 16]");
    file[0].ty = SrcType::Bf16;
    assert_eq!(err(&file), "model.layers.0.self_attn.q_proj: bf16 inside a GGUF is unsupported");
    let mut file = dense_file();
    file.remove(4);
    assert_eq!(err(&file), "tensor model.layers.0.input_layernorm.weight not in the GGUF file");
    let mut file = dense_file();
    file[8].ty = SrcType::Quant(GgmlType::F32);
    assert_eq!(err(&file), "model.layers.0.mlp.down_proj: F32 has no metal quant pipeline yet");
}

#[test]
fn a_hybrid_file_asks_for_linear_tensors() {
    let m = HybridMap {
        is_recurrent: vec![true],
        delta: DeltaGeo::of(DeltaDims { d_state: 4, n_v_heads: 4, n_k_heads: 2, d_conv: 4 }).unwrap(),
    };
    let p = "model.layers.0";
    let mut file = dense_file();
    for (part, shape) in [
        ("gguf.attn_qkv.weight", vec![32u64, 16]),
        ("gguf.attn_gate.weight", vec![16, 16]),
        ("gguf.ssm_out.weight", vec![16, 16]),
        ("gguf.ssm_alpha.weight", vec![4, 16]),
        ("gguf.ssm_beta.weight", vec![4, 16]),
        ("gguf.ssm_conv1d.weight", vec![32, 4]),
        ("gguf.ssm_a", vec![4]),
        ("gguf.ssm_dt.bias", vec![4]),
        ("gguf.ssm_norm.weight", vec![4]),
        ("gguf.post_attention_norm.weight", vec![16]),
    ] {
        file.push(tensor(&format!("{p}.{part}"), q4(), &shape));
    }
    let plan = plan_load(&file, &vec![GgmlType::Q4_K], geo(), Some(m), 1).unwrap();
    assert_eq!(plan.model.blocks[0].attn, QuantAttn::Linear { qkv: 4, z: 4, alpha: 4, beta: 4, out: 4 });
    assert!(plan.items.iter().any(|i| i.name == "model.layers.0.gguf.post_attention_norm.weight"));
    assert!(!plan.items.iter().any(|i| i.name.contains("self_attn")));
}

#[test]
fn steps_that_do_not_fit_are_told() {
    let g = geo();
    let st = Step { from_ids: true, n: 4, pos0: 60, layer0: 0, logits_rows: 1 };
    assert!(step_fits(&g, &st) && quant_step_fits(&hybrid(), &st));
    for bad in [
        Step { n: 5, ..st },
        Step { n: 0, logits_rows: 0, ..st },
        Step { n: 513, pos0: 0, ..st },
        Step { logits_rows: 5, ..st },
    ] {
        assert!(!step_fits(&g, &bad) && !quant_step_fits(&hybrid(), &bad));
    }
    // The logits buffer holds eight rows.
    let many = Step { n: 16, pos0: 0, logits_rows: 8, ..st };
    assert!(step_fits(&g, &many));
    assert!(!step_fits(&g, &Step { logits_rows: 9, ..many }));
    // A window lifts the bound on positions, not that on a chunk's rows.
    let windowed = Geo { win: window_cfg(256, 4).ok(), max_seq: 64, ..geo() };
    assert!(step_fits(&windowed, &Step { pos0: 10_000, ..st }));
    assert!(!step_fits(&windowed, &Step { n: 65, pos0: 0, ..st }));
    let mut wide = geo();
    wide.inter = u32::MAX / 2;
    assert!(!step_fits(&wide, &st));
}

#[test]
fn parameter_blocks_are_words_in_order() {
    let m = ModelBits { theta: 7, eps: 9 };
    let rope = Params::Rope { head_dim: 1, n_heads: 2, pos0: 3, n_rows: 4, rot_dim: 5 };
    assert_eq!(param_words(rope, m), vec![1, 2, 3, 7, 4, 5]);
    assert_eq!(param_words(Params::Norm { dim: 16 }, m), vec![16, 9]);
    let batch = Params::RopeQkBatch { head_dim: 1, n_q_heads: 2, n_kv_heads: 3, max_seq: 4, kv_dim: 5, n_rows: 6 };
    assert_eq!(param_words(batch, m), vec![1, 2, 3, 7, 4, 5, 6]);
    assert_eq!(slot_words(Slot::Eps, m), Some(vec![9]));
    assert_eq!(slot_words(Slot::U32(3), m), Some(vec![3]));
    assert_eq!(slot_words(Slot::Buf(Buf::X, 0), m), None);
}

#[test]
fn a_files_tensors_get_their_names_and_types() {
    assert_eq!(name_of_source("blk.3.ssm_a").as_deref(), Some("model.layers.3.gguf.ssm_a"));
    assert_eq!(name_of_source("blk.3.attn_q.weight").as_deref(), Some("model.layers.3.self_attn.q_proj.weight"));
    assert_eq!(name_of_source("rope_freqs.weight"), None);
    assert!(stored_permuted("llama", "model.layers.0.self_attn.q_proj"));
    assert!(!stored_permuted("llama", "model.layers.0.self_attn.v_proj"));
    assert!(!stored_permuted("qwen2", "model.layers.0.self_attn.k_proj"));

    let mut b: Vec<u8> = Vec::new();
    b.extend_from_slice(b"GGUF");
    b.extend_from_slice(&3u32.to_le_bytes());
    b.extend_from_slice(&3u64.to_le_bytes());
    b.extend_from_slice(&0u64.to_le_bytes());
    for (name, ty) in [("token_embd.weight", 8u32), ("rope_freqs.weight", 0), ("output.weight", 8)] {
        b.extend_from_slice(&(name.len() as u64).to_le_bytes());
        b.extend_from_slice(name.as_bytes());
        b.extend_from_slice(&1u32.to_le_bytes());
        b.extend_from_slice(&32u64.to_le_bytes());
        b.extend_from_slice(&ty.to_le_bytes());
        b.extend_from_slice(&0u64.to_le_bytes());
    }
    while b.len() % 32 != 0 {
        b.push(0);
    }
    b.extend_from_slice(&[0u8; 128]);
    let g = GgufFile::open("m", &b).unwrap();
    let names: Vec<String> = file_sources(&g).into_iter().map(|t| t.name).collect();
    assert_eq!(names, vec!["model.embed_tokens.weight", "lm_head.weight"]);
    assert_eq!(file_types(&g), vec![GgmlType::Q8_0]);
}
