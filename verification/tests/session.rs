use lokal::config::{default_max_pos, default_rope_theta, EosIds, ModelConfig};
use lokal::gguf::arch::Qwen35Meta;
use lokal::gguf::ggml_type::GgmlType;
use lokal::gguf::reader::FloatBits;
use lokal::gpu::calibrate::{calibrate, mode_name};
use lokal::gpu::delta::DeltaDims;
use lokal::gpu::geometry::{dims_of, lm_row_bytes_host, shader_source};
use lokal::gpu::linear_block::DeltaGeo;
use lokal::gpu::ops::Geo;
use lokal::gpu::probe::{median, parse_probe, synth_weight, Probe};
use lokal::gpu::report::{phase_line, step_line, StepId, StepTimes};
use lokal::gpu::session::{
    batch_sizes, cache_rows, can_batch, delta_sizes, embed_row, forward_batch, geo_of, is_kv_layer, kv_rows,
    logits_rows, max_chunk_rows, model_dims, prefill_from, scratch_sizes, slot_base, tail_step, EmbedRow,
};
use lokal::gpu::state::LayerStateKind;
use lokal::gpu::timing::{timing_filter, EncAction, GpuTiming, MmRole, Phase, PhaseEnc, SrcType, COUNTER_ERROR};
use lokal::gpu::window::window_cfg;

fn config() -> ModelConfig {
    ModelConfig {
        architectures: vec!["LlamaForCausalLM".to_string()],
        hidden_size: 64,
        intermediate_size: 128,
        num_hidden_layers: 2,
        num_attention_heads: 4,
        num_key_value_heads: 2,
        vocab_size: 100,
        rms_norm_eps: FloatBits::Single(1e-6f32.to_bits()),
        rope_theta: default_rope_theta(),
        max_position_embeddings: default_max_pos(),
        eos_token_id: EosIds::default(),
    }
}

fn geo(max_seq: usize) -> Geo {
    let cfg = config();
    let dims = dims_of(&cfg, None, false, None);
    geo_of(&cfg, &dims, max_seq, None, 0).unwrap()
}

#[test]
fn widths_come_from_the_heads_or_the_file() {
    let cfg = config();
    let d = dims_of(&cfg, None, false, None);
    assert_eq!((d.head_dim, d.q_dim, d.kv_dim, d.q_proj_dim, d.rot_dim), (16, 64, 32, 64, 16));
    let d = dims_of(&cfg, Some(32), true, Some(8));
    assert_eq!((d.head_dim, d.q_dim, d.kv_dim, d.q_proj_dim, d.rot_dim), (32, 128, 64, 256, 8));
}

#[test]
fn a_hybrid_rotates_its_sections() {
    let meta = Qwen35Meta {
        trunk_layers: 2,
        nextn_layers: 0,
        full_attention_interval: 2,
        is_recurrent: vec![true, false],
        d_conv: 4,
        d_state: 8,
        n_group: 2,
        dt_rank: 4,
        d_inner: 32,
        rope_sections: [2, 1, 1, 0],
        conv_state_elems: 192,
        delta_state_elems: 256,
    };
    let d = model_dims(&config(), None, Some(&meta)).unwrap();
    assert_eq!((d.head_dim, d.q_proj_dim, d.rot_dim), (16, 128, 8));
    let d = model_dims(&config(), Some(32), None).unwrap();
    assert_eq!((d.head_dim, d.q_proj_dim, d.rot_dim), (32, 128, 32));
    assert!(model_dims(&config(), Some(usize::MAX), None).is_none());
}

#[test]
fn numbers_that_do_not_agree_make_no_session() {
    let cfg = config();
    let mut dims = dims_of(&cfg, None, false, None);
    assert!(geo_of(&cfg, &dims, 100, None, 0).is_some());
    dims.kv_dim += 1;
    assert!(geo_of(&cfg, &dims, 100, None, 0).is_none());
    let dims = dims_of(&cfg, None, false, Some(17));
    assert!(geo_of(&cfg, &dims, 100, None, 0).is_none());
    let dims = dims_of(&cfg, None, false, None);
    assert!(geo_of(&cfg, &dims, 100, None, u64::MAX).is_none());
}

#[test]
fn scratch_is_sized_per_chunk() {
    let s = scratch_sizes(&geo(100), false).unwrap();
    assert_eq!((s.ids, s.x, s.q, s.att, s.gate), (100, 6400, 6400, 6400, 12800));
    assert_eq!((s.logits, s.scores, s.partials), (800, 100 * 4 * 100, 4 * 18));
    assert_eq!((s.xh, s.kvs), (12800, 1));
    assert_eq!(scratch_sizes(&geo(10_000), true).unwrap().kvs, 2 * 512 * 32);
    assert_eq!(max_chunk_rows(&geo(100)), 100);
    assert_eq!(max_chunk_rows(&geo(10_000)), 512);
    assert_eq!(cache_rows(&geo(100)), 164);
    let mut g = geo(100);
    g.win = Some(window_cfg(64, 4).unwrap());
    assert_eq!(cache_rows(&g), 768);
    let d = DeltaGeo::of(DeltaDims { d_state: 4, n_v_heads: 4, n_k_heads: 2, d_conv: 4 }).unwrap();
    let z = delta_sizes(&d, &geo(10));
    assert_eq!((z.qkv, z.z, z.alpha, z.g, z.conv_out, z.dout), (320, 160, 40, 40, 320, 160));
}

#[test]
fn batches_need_dense_full_causal_models() {
    let g = geo(100);
    assert!(can_batch(&g, false, false, false, 8));
    assert!(!can_batch(&g, true, false, false, 8));
    assert!(!can_batch(&g, false, true, false, 8));
    assert!(!can_batch(&g, false, false, true, 8));
    assert!(!can_batch(&g, false, false, false, 9));
    let mut w = g;
    w.win = Some(window_cfg(64, 4).unwrap());
    assert!(!can_batch(&w, false, false, false, 8));
    let s = batch_sizes(&g, 3).unwrap();
    assert_eq!((s.cache, s.ids, s.x, s.q, s.gate, s.logits), ((300 + 64) * 32, 3, 192, 192, 384, 300));
    assert_eq!(s.partials, 3 * 4 * 18);
    assert_eq!(slot_base(&g, 3, 2), Some(2 * 100 * 32 * 2));
}

#[test]
fn prompts_become_chunks() {
    let steps: Vec<(u32, u32, u32)> = prefill_from(1100, 7).iter().map(|s| (s.n, s.pos0, s.logits_rows)).collect();
    assert_eq!(steps, vec![(512, 7, 0), (512, 519, 0), (76, 1031, 1)]);
    let steps: Vec<(u32, u32, u32)> = prefill_from(512, 0).iter().map(|s| (s.n, s.pos0, s.logits_rows)).collect();
    assert_eq!(steps, vec![(512, 0, 1)]);
    assert!(prefill_from(0, 0).is_empty());
    let v: Vec<(u32, u32, u32)> = forward_batch(8, 5).iter().map(|s| (s.n, s.pos0, s.logits_rows)).collect();
    assert_eq!(v, vec![(8, 5, 8)]);
    let v: Vec<(u32, u32, u32)> = forward_batch(9, 5).iter().map(|s| (s.n, s.pos0, s.logits_rows)).collect();
    assert_eq!(v.len(), 9);
    assert_eq!(v[8], (1, 13, 1));
    assert!(forward_batch(0, 5).is_empty());
    let t = tail_step(4, 8, 2, true);
    assert_eq!((t.from_ids, t.n, t.pos0, t.layer0, t.logits_rows), (false, 4, 8, 2, 1));
}

#[test]
fn rows_find_their_place_in_the_cache() {
    let mut g = geo(100);
    g.kv_base = 640;
    assert_eq!(kv_rows(&g, 3, 2), vec![320 + 3 * 32, 320 + 4 * 32]);
    g.win = Some(window_cfg(64, 4).unwrap());
    assert_eq!(kv_rows(&g, 3, 2), vec![320 + 3 * 32, 320 + 128 * 32]);
    let sched = [LayerStateKind::Kv, LayerStateKind::Recurrent];
    assert!(is_kv_layer(&sched, 0) && !is_kv_layer(&sched, 1));
    assert_eq!(logits_rows(&[1, 2, 3, 4, 5, 6], 3), vec![vec![1, 2, 3], vec![4, 5, 6]]);
    assert_eq!(logits_rows(&[1, 2, 3, 4], 3), vec![vec![1, 2, 3], vec![4]]);
    assert!(logits_rows::<u8>(&[], 3).is_empty());
}

#[test]
fn embedding_rows_are_taken_apart_by_type() {
    match embed_row(SrcType::F16, &[1, 2, 3, 4]).unwrap() {
        EmbedRow::Half(v) => assert_eq!(v, vec![0x0201, 0x0403]),
        other => panic!("{other:?}"),
    }
    match embed_row(SrcType::F32, &1.5f32.to_le_bytes()).unwrap() {
        EmbedRow::Single(v) => assert_eq!(v, vec![1.5f32.to_bits()]),
        other => panic!("{other:?}"),
    }
    assert!(matches!(
        embed_row(SrcType::Quant(GgmlType::Q8_0), &[]).unwrap(),
        EmbedRow::Quant(GgmlType::Q8_0)
    ));
    assert_eq!(embed_row(SrcType::Bf16, &[]).unwrap_err(), "bf16 rows inside a GGUF are unsupported");
}

#[test]
fn probes_are_asked_for_by_three_numbers() {
    assert_eq!(parse_probe("17:512:2"), Ok(Probe { sel: 17, in_dim: 512, out_dim: 2 }));
    assert_eq!(
        parse_probe("17:512"),
        Err("probe fail stage=spec want=synth:<sel>:<in_dim>:<out_dim> got=17:512".to_string())
    );
    assert_eq!(
        parse_probe("4:512:2"),
        Err("probe fail stage=selector sel=4 has no synthetic block rule".to_string())
    );
    assert!(parse_probe("17:512:2:9").is_ok());
    assert!(parse_probe("4294967296:512:2").is_err());
}

#[test]
fn synthetic_blocks_are_valid() {
    let w = synth_weight(Probe { sel: 17, in_dim: 512, out_dim: 3 });
    assert_eq!(w.len(), 3 * 2 * 50);
    // The scale of each block is a half-precision number from one up to two.
    for q in 0..6 {
        assert_eq!(w[q * 50 + 1] & 0xFC, 0x3C);
    }
    let w = synth_weight(Probe { sel: 18, in_dim: 256, out_dim: 2 });
    assert_eq!((w[55] & 0xF0, w[111] & 0xF0), (0x30, 0x30));
    let w = synth_weight(Probe { sel: 5, in_dim: 256, out_dim: 1 });
    assert_eq!((w.len(), w[209] & 0xFC), (210, 0x3C));
    // The first byte is the first draw.
    let mut x = 0x2545_F491_4F6C_DD1Du64;
    x ^= x << 13;
    x ^= x >> 7;
    x ^= x << 17;
    assert_eq!(w[0], (x >> 24) as u8);
}

#[test]
fn the_middle_timing_counts() {
    assert_eq!(median(vec![5, 1, 9]), 5);
    assert_eq!(median(vec![4, 1, 3, 2]), 3);
    assert_eq!(median(vec![7]), 7);
}

#[test]
fn boundaries_are_calibrated() {
    // One encoder for 100; two single ones for 60 each, 5 apart.
    let r = calibrate(&[0, 100, 200, 260, 265, 325], 2).unwrap();
    assert_eq!((r.inside, r.gap), (20, 5));
    assert!(calibrate(&[0, 100, 200, 260, 265], 2).is_none());
    assert!(calibrate(&[0, 100, 200, 260, 265, COUNTER_ERROR], 2).is_none());
    assert_eq!(mode_name(&None), "full");
    assert_eq!(mode_name(&Some(vec![])), "total");
    assert_eq!(mode_name(&Some(vec!["mm".to_string(), "attn".to_string()])), "isolate:mm+attn");
}

#[test]
fn timing_is_off_unless_asked_for() {
    assert!(timing_filter(None).is_none());
    assert!(timing_filter(Some(" off ")).is_none());
    assert!(timing_filter(Some("0")).is_none());
    assert_eq!(timing_filter(Some("1")), Some(None));
    assert_eq!(timing_filter(Some("total")), Some(Some(vec![])));
    assert_eq!(
        timing_filter(Some("mm, attn,,")),
        Some(Some(vec!["mm".to_string(), "attn".to_string()]))
    );
}

#[test]
fn encoders_are_cut_where_the_phase_changes() {
    let mut t = GpuTiming::new(2, None);
    let mut e = PhaseEnc::new(&mut t);
    assert_eq!(e.at(&mut t, Phase::Norm, 1), EncAction::Open { end: false, sample: Some(0) });
    assert_eq!(e.at(&mut t, Phase::Norm, 2), EncAction::Keep);
    assert_eq!(e.at(&mut t, Phase::Attn, 0), EncAction::Keep);
    assert_eq!(e.at(&mut t, Phase::Attn, 4), EncAction::Open { end: true, sample: Some(2) });
    assert_eq!(e.cur(&mut t), EncAction::Keep);
    // The samples are used up: one more encoder, then no cuts.
    assert_eq!(e.at(&mut t, Phase::Rope, 1), EncAction::Open { end: true, sample: None });
    assert_eq!(e.at(&mut t, Phase::Norm, 1), EncAction::Keep);
    assert!(t.overflow);
    assert_eq!(t.tags, vec![Phase::Norm, Phase::Attn]);
    assert_eq!(t.disp, vec![3, 6]);
    let r = t.report(&[10, 20, 30, 70]);
    assert_eq!((r.bad, r.empty, r.total_ns, r.span_ns), (0, 0, 50, 60));
    assert_eq!((r.rows[0].phase, r.rows[0].ns), (Phase::Attn, 40));
    assert_eq!(t.report(&[10, 20]).bad, 2);
    assert_eq!(t.report(&[10, 20, 70, 30]).bad, 1);
    let id = StepId { seq: t.next_seq(true), n: 1, pos0: 9 };
    let times = StepTimes { wall: 100, cpu_pre: 1, cpu_encode: 2, gpu_wait: 3, cpu_post: 4 };
    assert_eq!(
        step_line(id, 2, t.overflow, &r, times),
        "gputime step kind=decode seq=0 n=1 pos0=9 enc=2 bad=0 empty=0 overflow=1 wall_ns=100 cpu_pre_ns=1 \
         cpu_encode_ns=2 gpu_wait_ns=3 cpu_post_ns=4 gpu_sum_ns=50 gpu_span_ns=60"
    );
    assert_eq!(
        phase_line(1, id.seq, &r.rows[0]),
        format!("gputime phase kind=decode seq=0 name={} ns=40 enc=1 disp=6", Phase::Attn.name())
    );
    assert_eq!(t.next_seq(true), 1);
    assert_eq!(t.next_seq(false), 0);
    let mut off = PhaseEnc::untimed();
    assert_eq!(off.at(&mut t, Phase::Norm, 1), EncAction::Keep);
}

#[test]
fn phases_have_names() {
    assert_eq!(MmRole::Head.name(), "head");
    assert!(Phase::Mm(MmRole::Dn, 4).name().contains("q4_k"), "{}", Phase::Mm(MmRole::Dn, 4).name());
}

#[test]
fn shaders_start_with_their_constants() {
    assert_eq!(shader_source(128, "kernel"), "#define MM_TROWS 64\n#define FA_KVD 128\nkernel");
    assert_eq!(lm_row_bytes_host(4, 512), 288);
    assert_eq!(lm_row_bytes_host(0, 512), 1024);
}
