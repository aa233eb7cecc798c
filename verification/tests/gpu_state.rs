use lokal::gguf::arch::Qwen35Meta;
use lokal::gguf::ggml_type::GgmlType as G;
use lokal::gpu::delta::{mrope_component, permute_delta_state, DeltaDims};
use lokal::gpu::geometry::{acc_red_elems, attn_row_width, gqa_decode_dims, DEC_MAX_HD, DEC_TG};
use lokal::gpu::history::{conv_window, roll_history};
use lokal::gpu::state::LayerStateKind::{Kv, Recurrent};
use lokal::gpu::state::{kv_cache_elems, schedule_matches, state_schedule, DeltaNetLayout, DeltaNetStates};
use lokal::gpu::timing::{sel_name, SrcType};
use lokal::gpu::window::{win_write_spans, window_cfg};

fn every_fourth() -> DeltaNetLayout {
    DeltaNetLayout { is_recurrent: (0..8).map(|i| (i + 1) % 4 != 0).collect(), conv_elems: 6, delta_elems: 10 }
}

fn big_meta() -> Qwen35Meta {
    Qwen35Meta {
        trunk_layers: 64,
        nextn_layers: 1,
        full_attention_interval: 4,
        is_recurrent: (0..64).map(|i| (i + 1) % 4 != 0).collect(),
        d_conv: 4,
        d_state: 128,
        n_group: 16,
        dt_rank: 48,
        d_inner: 6144,
        rope_sections: [11, 11, 10, 0],
        conv_state_elems: 30_720,
        delta_state_elems: 786_432,
    }
}

#[test]
fn sel_names_cover_every_quant_type() {
    let all = [
        G::F32, G::F16, G::Q4_0, G::Q5_0, G::Q8_0, G::Q2_K, G::Q3_K, G::Q4_K,
        G::Q5_K, G::Q6_K, G::IQ1_S, G::IQ1_M, G::IQ2_XXS, G::IQ2_XS, G::IQ2_S,
        G::IQ3_XXS, G::IQ3_S, G::IQ4_NL, G::IQ4_XS,
    ];
    let mut by_sel: std::collections::HashMap<u32, String> = std::collections::HashMap::new();
    for t in all {
        let sel = SrcType::Quant(t).qtype();
        if sel == u32::MAX {
            continue;
        }
        let name = sel_name(sel);
        assert!(
            !name.starts_with("sel"),
            "GGUF type {t:?} maps to selector {sel}, which has no attribution label"
        );
        let prev = by_sel.insert(sel, name.clone());
        assert!(prev.is_none() || prev.as_deref() == Some(name.as_str()));
    }
    let mut names: Vec<&String> = by_sel.values().collect();
    names.sort();
    let n = names.len();
    names.dedup();
    assert_eq!(names.len(), n, "two selectors share one attribution label");
    assert_eq!(sel_name(SrcType::F16.qtype()), "f16");
    assert_eq!(sel_name(SrcType::Bf16.qtype()), "bf16");
}

#[test]
fn an_unknown_selector_shows_its_number() {
    assert_eq!(sel_name(42), "sel42");
}

#[test]
fn attn_rows_are_q_wide_not_hidden_wide() {
    assert_eq!(attn_row_width(1024, 2048), 2048, "0.6B q rows are 2x hidden");
    assert_eq!(attn_row_width(5120, 6144), 6144, "qwen35 q rows exceed hidden");
    assert_eq!(attn_row_width(4096, 4096), 4096);
    assert_eq!(attn_row_width(8192, 4096), 8192);
}

#[test]
fn window_cfg_mirror_matches_lowmem_formula() {
    let w = window_cfg(2048, 4).unwrap();
    assert_eq!((w.w, w.sink, w.sink_pad, w.ring, w.cap), (2048, 4, 128, 2560, 2688));
    assert_eq!(w.slot_of(3), 3);
    assert_eq!(w.slot_of(4), 128);
    assert_eq!(w.slot_of(4 + 2560), 128);
    assert!(window_cfg(0, 0).is_err());
    assert!(window_cfg(64, 128).is_err());
}

#[test]
fn a_window_that_cannot_be_is_named() {
    assert_eq!(window_cfg(0, 0).unwrap_err(), "invalid window config: window 0, sink 0");
    assert_eq!(window_cfg(64, 128).unwrap_err(), "invalid window config: window 64, sink 128");
}

#[test]
fn a_run_is_written_in_spans() {
    let w = window_cfg(2048, 4).unwrap();
    let spans: Vec<(usize, usize, usize)> =
        win_write_spans(&w, 0, 512).iter().map(|s| (s.row, s.slot, s.len)).collect();
    assert_eq!(spans, vec![(0, 0, 4), (4, 128, 508)]);
    let wrap: Vec<(usize, usize, usize)> =
        win_write_spans(&w, 4 + 2560 - 2, 5).iter().map(|s| (s.row, s.slot, s.len)).collect();
    assert_eq!(wrap, vec![(0, 128 + 2558, 2), (2, 128, 3)]);
    // Each position's slot is the one its span says.
    for (row, slot, len) in wrap {
        for i in 0..len {
            assert_eq!(w.slot_of(4 + 2560 - 2 + row + i), slot + i);
        }
    }
}

#[test]
fn deltanet_states_lifecycle() {
    let layout = every_fourth();
    let mut st = DeltaNetStates::new(&layout);
    assert_eq!(st.layers.len(), 8, "map length is the trunk, nothing more");
    for (i, l) in st.layers.iter().enumerate() {
        assert_eq!(l.is_some(), (i + 1) % 4 != 0, "layer {i}");
    }
    assert_eq!(st.total_bytes(), 6 * (6 + 10) * 4);

    let read = |b: &Vec<u32>| -> Vec<f32> { b.iter().map(|x| f32::from_bits(*x)).collect() };
    {
        let l0 = st.layers[0].as_ref().unwrap();
        assert_eq!(read(&l0.conv), vec![0.0; 6], "fresh conv state is silence");
        assert_eq!(read(&l0.delta), vec![0.0; 10], "fresh delta state attends nothing");
    }
    {
        let l0 = st.layers[0].as_mut().unwrap();
        for i in 0..6 {
            l0.conv[i] = (f32::from_bits(l0.conv[i]) + (i as f32 + 1.0)).to_bits();
        }
        l0.delta[9] = (-2.5f32).to_bits();
    }
    let l0 = st.layers[0].as_ref().unwrap();
    assert_eq!(read(&l0.conv), vec![1.0, 2.0, 3.0, 4.0, 5.0, 6.0]);
    assert_eq!(read(&l0.delta)[9], -2.5);
    let l1 = st.layers[1].as_ref().unwrap();
    assert_eq!(read(&l1.conv), vec![0.0; 6]);

    st.reset();
    let l0 = st.layers[0].as_ref().unwrap();
    assert_eq!(read(&l0.conv), vec![0.0; 6]);
    assert_eq!(read(&l0.delta), vec![0.0; 10]);
}

#[test]
fn state_schedule_is_two_kind_and_agrees_with_states() {
    assert!(state_schedule(4, None).iter().all(|k| *k == Kv), "dense = all Kv");

    let layout = every_fourth();
    let sched = state_schedule(8, Some(&layout));
    assert_eq!(sched.len(), 8);
    assert_eq!(sched.iter().filter(|k| **k == Kv).count(), 2);
    for (l, k) in sched.iter().enumerate() {
        assert_eq!(*k == Recurrent, layout.is_recurrent[l], "layer {l}");
    }
    let st = DeltaNetStates::new(&layout);
    for (l, k) in sched.iter().enumerate() {
        assert_eq!(st.layers[l].is_some(), *k == Recurrent, "slot kind, layer {l}");
    }
    assert!(schedule_matches(&sched, &sched));
    assert!(!schedule_matches(&sched[..7], &sched));
    assert!(!schedule_matches(&state_schedule(8, None), &sched));
}

#[test]
fn kv_cache_is_stubbed_exactly_on_recurrent_layers() {
    let (slots, kvd) = (4096usize, 4096usize);

    let dense = state_schedule(8, None);
    assert_eq!(kv_cache_elems(&dense, slots, kvd), vec![slots * kvd; 8]);

    let layout = every_fourth();
    let sched = state_schedule(8, Some(&layout));
    let elems = kv_cache_elems(&sched, slots, kvd);
    assert_eq!(elems.len(), 8, "one slot per trunk layer, not compacted");
    for (l, n) in elems.iter().enumerate() {
        match sched[l] {
            Recurrent => assert_eq!(*n, 1, "layer {l} stubbed"),
            Kv => assert_eq!(*n, slots * kvd, "layer {l} keeps its ring"),
        }
    }
    let before: usize = 8 * slots * kvd;
    let after: usize = elems.iter().sum();
    assert_eq!(after, 2 * slots * kvd + 6);
    assert!(after < before / 3, "stub must be a real reduction");
}

#[test]
fn acc_red_covers_both_head_dim_regimes() {
    for hd in [64usize, 96, 128] {
        assert_eq!(acc_red_elems(4, hd), DEC_TG * 5, "hd {hd} sizing moved");
    }
    assert_eq!(acc_red_elems(4, 256), 256 * 5);
    assert!(acc_red_elems(1, DEC_MAX_HD) >= DEC_MAX_HD);
    assert_eq!(acc_red_elems(1, 128) / DEC_TG, 1);
    assert_eq!(acc_red_elems(8, 128) / DEC_TG, 9);
}

#[test]
fn decode_groups_cover_all_heads() {
    // 16 heads over 2: groups of 8, one per cache head.
    assert_eq!(gqa_decode_dims(16, 2, 128), (2, [8 * 128 * 4, 8 * 128 * 4, 128 * 9 * 4, (8 * 4 + 8) * 4]));
    // 40 heads over 2: 20 to a cache head, in three chunks of up to 8.
    assert_eq!(gqa_decode_dims(40, 2, 64).0, 6);
    // Sizes are padded to 16 bytes.
    assert_eq!(gqa_decode_dims(3, 1, 1).1, [16, 3 * 128 * 4, 128 * 3 * 4, 64]);
}

#[test]
fn deltanet_layout_from_meta_is_trunk_shaped() {
    let layout = DeltaNetLayout::from_meta(&big_meta());
    assert_eq!(layout.is_recurrent.len(), 64);
    assert_eq!(layout.is_recurrent.iter().filter(|&&r| r).count(), 48);
    assert_eq!(layout.conv_elems, 30_720);
    assert_eq!(layout.delta_elems, 786_432);
    let bytes: usize = layout.is_recurrent.iter().filter(|&&r| r).count()
        * (layout.conv_elems + layout.delta_elems)
        * 4;
    assert_eq!(bytes >> 20, 149);
}

#[test]
fn vision_section_layout_is_refused_by_name() {
    let mut meta = big_meta();
    assert!(meta.check_rope_sections().is_ok(), "the real 27B layout must pass");

    meta.rope_sections = [11, 11, 10, 4];
    let err = meta.check_rope_sections().unwrap_err();
    assert!(err.contains("vision"), "the refusal must name why: {err}");

    meta.rope_sections = [0, 0, 0, 0];
    assert!(meta.check_rope_sections().is_err(), "all-zero sections must refuse");
}

#[test]
fn mrope_degenerates_to_rope_for_text_batches() {
    let (ne0, freq_base) = (256usize, 1.0e6f32);
    let theta_scale = freq_base.powf(-2.0 / ne0 as f32);
    let sections = [11u64, 11, 10, 0];

    let rope_thetas = |base: f32| -> Vec<f32> {
        let mut theta = base;
        (0..ne0 / 2)
            .map(|_| {
                let t = theta;
                theta *= theta_scale;
                t
            })
            .collect()
    };

    let mrope_thetas = |bases: [f32; 4], indep_sects: bool, is_imrope: bool| -> Vec<f32> {
        let sect_dims: u64 = sections.iter().sum();
        let sec_w = sections[1] + sections[0];
        let sec_e = sections[2] + sec_w;
        let mut th = bases;
        (0..ne0 as u64 / 2)
            .map(|pair| {
                let sector = pair % sect_dims;
                if indep_sects {
                    if sector == 0 {
                        th[0] = bases[0];
                    } else if sector == sections[0] {
                        th[1] = bases[1];
                    } else if sector == sec_w {
                        th[2] = bases[2];
                    } else if sector == sec_e {
                        th[3] = bases[3];
                    }
                }
                let t = th[mrope_component(&sections, pair, is_imrope)];
                for x in th.iter_mut() {
                    *x *= theta_scale;
                }
                t
            })
            .collect()
    };

    let mut differing_pairs = 0;
    for pos in 0..6u32 {
        let base = pos as f32;
        let plain = rope_thetas(base);
        let m = mrope_thetas([base; 4], false, false);
        let m_i = mrope_thetas([base; 4], false, true);
        for (i, ((a, b), c)) in plain.iter().zip(&m).zip(&m_i).enumerate() {
            assert_eq!(a.to_bits(), b.to_bits(), "pos {pos} pair {i}: plain rope {a} vs mrope {b}");
            assert_eq!(a.to_bits(), c.to_bits(), "pos {pos} pair {i}: plain rope {a} vs interleaved mrope {c}");
        }
        let vision = mrope_thetas([base; 4], true, true);
        differing_pairs += plain.iter().zip(&vision).filter(|(a, b)| a.to_bits() != b.to_bits()).count();
    }
    assert!(differing_pairs > 0, "indep_sects made no difference");
}

#[test]
fn sections_pick_their_component() {
    let sections = [11u64, 11, 10, 0];
    assert_eq!(mrope_component(&sections, 0, false), 0);
    assert_eq!(mrope_component(&sections, 11, false), 1);
    assert_eq!(mrope_component(&sections, 22, false), 2);
    assert_eq!(mrope_component(&sections, 32, false), 0);
    assert_eq!(mrope_component(&[1, 1, 1, 1], 3, false), 3);
    assert_eq!(mrope_component(&sections, 1, true), 1);
    assert_eq!(mrope_component(&sections, 2, true), 2);
    assert_eq!(mrope_component(&sections, 31, true), 1);
}

// ---------- the linear block on the host ----------

fn dims() -> DeltaDims {
    DeltaDims { d_state: 8, n_v_heads: 4, n_k_heads: 2, d_conv: 4 }
}

fn lcg(seed: &mut u32) -> f32 {
    *seed = seed.wrapping_mul(1664525).wrapping_add(1013904223);
    ((*seed >> 8) as f32 / (1u32 << 24) as f32) * 2.0 - 1.0
}

fn silu(x: f32) -> f32 {
    x / (1.0 + (-x).exp())
}

/// The convolution of one token, its history kept by hand: shift, append.
fn conv_by_hand(d: &DeltaDims, state: &mut [f32], x: &[f32], w: &[f32]) -> Vec<f32> {
    let k = d.d_conv;
    (0..d.conv_channels())
        .map(|c| {
            let h = &mut state[c * (k - 1)..(c + 1) * (k - 1)];
            let mut dot = 0f32;
            for t in 0..k - 1 {
                dot += h[t] * w[c * k + t];
            }
            dot += x[c] * w[c * k + k - 1];
            for t in 0..k - 2 {
                h[t] = h[t + 1];
            }
            h[k - 2] = x[c];
            silu(dot)
        })
        .collect()
}

/// The same over what the library says that each token of the chunk sees, and
/// the history that it leaves.
fn conv_chunk(d: &DeltaDims, state0: &[f32], xs: &[Vec<f32>], w: &[f32]) -> (Vec<Vec<f32>>, Vec<f32>) {
    let (c_all, k) = (d.conv_channels(), d.d_conv);
    let flat: Vec<f32> = xs.iter().flatten().copied().collect();
    let outs = (0..xs.len())
        .map(|t| {
            (0..c_all)
                .map(|c| {
                    let seen = conv_window(state0, &flat, c_all, k - 1, t, c);
                    let mut dot = 0f32;
                    for (j, x) in seen.iter().enumerate() {
                        dot += x * w[c * k + j];
                    }
                    silu(dot)
                })
                .collect()
        })
        .collect();
    (outs, roll_history(state0, &flat, c_all, k - 1, xs.len()))
}

#[test]
fn conv_decode_matches_reference_bit_for_bit() {
    let d = dims();
    let (c_all, k) = (d.conv_channels(), d.d_conv);
    let mut seed = 0x2545_F491u32;
    let state0: Vec<f32> = (0..c_all * (k - 1)).map(|_| lcg(&mut seed)).collect();
    let w: Vec<f32> = (0..c_all * k).map(|_| lcg(&mut seed)).collect();
    let xs: Vec<Vec<f32>> = (0..5).map(|_| (0..c_all).map(|_| lcg(&mut seed)).collect()).collect();

    let (outs, state) = conv_chunk(&d, &state0, &xs, &w);

    let mut ref_state = state0.clone();
    let mut worst_ulp = 0i64;
    for (step, x) in xs.iter().enumerate() {
        let want = conv_by_hand(&d, &mut ref_state, x, &w);
        for (i, (a, b)) in want.iter().zip(&outs[step]).enumerate() {
            let ulp = (a.to_bits() as i64 - b.to_bits() as i64).abs();
            assert!(ulp <= 2, "step {step} channel {i}: {a} vs {b} ({ulp} ulp)");
            worst_ulp = worst_ulp.max(ulp);
        }
    }
    assert!(worst_ulp <= 2, "worst {worst_ulp} ulp across the run");
    for (i, (a, b)) in ref_state.iter().zip(&state).enumerate() {
        assert_eq!(a.to_bits(), b.to_bits(), "final state slot {i}");
    }
    // Token by token the same history is left.
    let rolled = xs.iter().fold(state0.clone(), |h, x| roll_history(&h, x, c_all, k - 1, 1));
    assert_eq!(rolled, state);
}

#[test]
fn conv_oracle_has_a_negative_control() {
    let d = dims();
    let (c_all, k) = (d.conv_channels(), d.d_conv);
    let mut seed = 99u32;
    let state0: Vec<f32> = (0..c_all * (k - 1)).map(|_| lcg(&mut seed)).collect();
    let w: Vec<f32> = (0..c_all * k).map(|_| lcg(&mut seed)).collect();
    let xs: Vec<Vec<f32>> = vec![(0..c_all).map(|_| lcg(&mut seed)).collect()];

    let (outs, _) = conv_chunk(&d, &state0, &xs, &w);
    let mut perturbed = state0.clone();
    perturbed[0] = perturbed[0] + 1.0;
    let mut rs = perturbed;
    let want = conv_by_hand(&d, &mut rs, &xs[0], &w);
    assert!(
        want.iter().zip(&outs[0]).any(|(a, b)| a.to_bits() != b.to_bits()),
        "a perturbed state must change the output, or the oracle proves nothing"
    );
}

/// One step of the delta rule. `at` says where an element of a head's square
/// stands.
fn delta_step(
    d: &DeltaDims,
    state: &mut [f32],
    q: &[f32],
    k: &[f32],
    v: &[f32],
    g: &[f32],
    beta: &[f32],
    at: fn(usize, usize, usize) -> usize,
) -> Vec<f32> {
    let s = d.d_state;
    let group = d.n_v_heads / d.n_k_heads;
    let scale = 1.0 / (s as f32).sqrt();
    let mut out = vec![0f32; s * d.n_v_heads];
    for h in 0..d.n_v_heads {
        let (qh, kh) = (&q[h / group * s..], &k[h / group * s..]);
        let base = h * s * s;
        let decay = g[h].exp();
        for j in 0..s {
            let mut seen = 0f32;
            for i in 0..s {
                let e = &mut state[base + at(i, j, s)];
                *e *= decay;
                seen += *e * kh[i];
            }
            let delta = (v[h * s + j] - seen) * beta[h];
            let mut o = 0f32;
            for i in 0..s {
                let e = &mut state[base + at(i, j, s)];
                *e += kh[i] * delta;
                o += *e * qh[i];
            }
            out[h * s + j] = o * scale;
        }
    }
    out
}

fn reference_at(i: usize, j: usize, s: usize) -> usize {
    i + j * s
}

fn device_at(i: usize, j: usize, s: usize) -> usize {
    j + i * s
}

/// The steps as the device runs them. Without the permutation the state goes in
/// as it is.
fn device_steps(d: DeltaDims, state0: &[f32], t: &Inputs, permute: bool) -> (Vec<Vec<f32>>, Vec<f32>) {
    let mut st = if permute { permute_delta_state(d, state0) } else { state0.to_vec() };
    let outs = (0..t.q.len())
        .map(|i| delta_step(&d, &mut st, &t.q[i], &t.k[i], &t.v[i], &t.g[i], &t.beta[i], device_at))
        .collect();
    let back = if permute { permute_delta_state(d, &st) } else { st };
    (outs, back)
}

struct Inputs {
    q: Vec<Vec<f32>>,
    k: Vec<Vec<f32>>,
    v: Vec<Vec<f32>>,
    g: Vec<Vec<f32>>,
    beta: Vec<Vec<f32>>,
}

fn delta_inputs(d: DeltaDims, steps: usize, seed: &mut u32) -> (Vec<f32>, Inputs) {
    fn mk(n: usize, seed: &mut u32) -> Vec<f32> {
        (0..n).map(|_| lcg(seed)).collect()
    }
    let (s, hv, hk) = (d.d_state, d.n_v_heads, d.n_k_heads);
    let state0: Vec<f32> = (0..d.delta_state_elems()).map(|_| lcg(seed)).collect();
    let q = (0..steps).map(|_| mk(s * hk, seed)).collect();
    let k = (0..steps).map(|_| mk(s * hk, seed)).collect();
    let v = (0..steps).map(|_| mk(s * hv, seed)).collect();
    let g = (0..steps).map(|_| vec![0.0; hv]).collect();
    let beta = (0..steps).map(|_| mk(hv, seed)).collect();
    (state0, Inputs { q, k, v, g, beta })
}

#[test]
fn delta_decode_matches_reference_bit_for_bit() {
    let d = dims();
    let mut seed = 0x9E37_79B9u32;
    let (state0, t) = delta_inputs(d, 5, &mut seed);
    let (outs, state) = device_steps(d, &state0, &t, true);

    let mut ref_state = state0.clone();
    for step in 0..t.q.len() {
        let want = delta_step(
            &d, &mut ref_state, &t.q[step], &t.k[step], &t.v[step], &t.g[step], &t.beta[step], reference_at,
        );
        for (i, (a, b)) in want.iter().zip(&outs[step]).enumerate() {
            assert_eq!(a.to_bits(), b.to_bits(), "step {step} slot {i}: {a} vs {b}");
        }
    }
    for (i, (a, b)) in ref_state.iter().zip(&state).enumerate() {
        assert_eq!(a.to_bits(), b.to_bits(), "final state slot {i}");
    }
}

#[test]
fn delta_oracle_sees_the_old_state_orientation() {
    let d = dims();
    let mut seed = 0x5EED_1234u32;
    let (state0, t) = delta_inputs(d, 1, &mut seed);
    let (right, right_state) = device_steps(d, &state0, &t, true);
    let (wrong, wrong_state) = device_steps(d, &state0, &t, false);
    assert!(
        right[0].iter().zip(&wrong[0]).any(|(a, b)| a.to_bits() != b.to_bits()),
        "uploading the state in the old orientation must change the output"
    );
    assert!(
        right_state.iter().zip(&wrong_state).any(|(a, b)| a.to_bits() != b.to_bits()),
        "the resulting state must differ too"
    );
}

#[test]
fn permuting_twice_gives_the_state_back() {
    let d = DeltaDims { d_state: 2, n_v_heads: 2, n_k_heads: 1, d_conv: 4 };
    let x = [0u8, 1, 2, 3, 4, 5, 6, 7];
    let y = permute_delta_state(d, &x);
    assert_eq!(y, vec![0, 2, 1, 3, 4, 6, 5, 7]);
    assert_eq!(permute_delta_state(d, &y), x.to_vec());
}

#[test]
fn geometry_gives_the_sizes_of_the_meta() {
    let m = big_meta();
    let d = DeltaDims::from_meta(&m);
    assert_eq!(d.d_inner(), m.d_inner);
    assert_eq!(d.conv_state_elems(), m.conv_state_elems);
    assert_eq!(d.delta_state_elems(), m.delta_state_elems);
    assert_eq!(d.key_dim(), 2048);
    assert_eq!(d.conv_channels(), 10_240);
}

#[test]
fn histories_roll_per_channel() {
    // Two channels of three inputs.
    let h = [1, 2, 3, 11, 12, 13];
    assert_eq!(roll_history(&h, &[4, 14], 2, 3, 1), vec![2, 3, 4, 12, 13, 14]);
    assert_eq!(roll_history(&h, &[4, 14, 5, 15], 2, 3, 2), vec![3, 4, 5, 13, 14, 15]);
    assert_eq!(roll_history(&h, &[], 2, 3, 0), h.to_vec());
}

#[test]
fn a_convolution_sees_the_inputs_before_it() {
    let h = [1, 2, 3, 11, 12, 13];
    let xs = [4, 14, 5, 15];
    assert_eq!(conv_window(&h, &xs, 2, 3, 0, 1), vec![11, 12, 13, 14]);
    assert_eq!(conv_window(&h, &xs, 2, 3, 1, 0), vec![2, 3, 4, 5]);
    let rolled = roll_history(&h, &xs[..2], 2, 3, 1);
    assert_eq!(conv_window(&rolled, &xs[2..], 2, 3, 0, 0), conv_window(&h, &xs, 2, 3, 1, 0));
}
