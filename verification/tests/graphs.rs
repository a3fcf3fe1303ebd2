use bigtea_arch::container::{Container, Entry, TensorInfo};
use bigtea_arch::deepseek4::{AttentionKind, Deepseek4Config, Deepseek4Model};
use bigtea_arch::deepseek4_cache::{
    compressor_step, frame_rows, offsets_in_block, plan_compressor, Deepseek4Cache,
};
use bigtea_arch::deepseek4_forward::{
    feed_compressor, forward, head_tensor_names, next_forward, prefill, step, threads, BindFrom, Deepseek4Forward,
    ForwardStep,
};
use bigtea_arch::deepseek4_graph::{embed, head, SliceShapes};
use bigtea_arch::expert_cache::ExpertCache;
use bigtea_arch::expert_read::{
    can_plan_slices, offer_misses, plan_expert_slices, ReadPlan, Source,
};
use bigtea_arch::graph::{AttnScale, Graph, Node, Op, Slot};
use bigtea_arch::names::{block_tensor, sort_texts};
use bigtea_arch::qwen3::{Qwen3Config, Qwen3Model, ROPE_TYPE_NEOX, ROPE_TYPE_NORM};
use bigtea_arch::stream::StreamingRunner;
use bigtea_arch::stream_pass::StreamStep;
use bigtea_arch::text::{
    ends_with, find_from, has, parse_i64, parse_unsigned, push_decimal, push_signed, same_text,
    starts_with, to_lower, trim,
};

fn qwen() -> Qwen3Config {
    Qwen3Config {
        n_layer: 1,
        n_embd: 8,
        n_head: 2,
        n_head_kv: 1,
        head_dim: 4,
        n_ff: 16,
        vocab_size: 32,
        rms_eps: 1e-6f32.to_bits(),
        rope_freq_base: 10_000.0f32.to_bits(),
        rope_freq_scale: 1.0f32.to_bits(),
        rope_ext_factor: 0,
        rope_attn_factor: 1.0f32.to_bits(),
        rope_beta_fast: 32.0f32.to_bits(),
        rope_beta_slow: 1.0f32.to_bits(),
        rope_orig_ctx: 0,
        n_expert: 0,
        n_expert_used: 0,
        n_ff_expert: 0,
        qk_norm: false,
        rope_type: ROPE_TYPE_NEOX,
        rope_type_is_known: true,
        attn_bias: false,
        fused_qkv: false,
        fused_gate_up: false,
        post_norms: false,
        scale_embeddings: false,
        attn_logit_softcap: 0,
        final_logit_softcap: 0,
        sliding_window: 0,
    }
}

fn flash() -> Deepseek4Config {
    Deepseek4Config {
        n_layer: 3,
        n_embd: 8,
        n_head: 2,
        n_head_kv: 1,
        kv_lora_rank: 4,
        q_lora_rank: 4,
        output_lora_rank: 4,
        vocab_size: 32,
        n_expert: 4,
        n_expert_used: 2,
        n_expert_shared: 1,
        n_ff_expert: 8,
        rms_eps: 1e-6f32.to_bits(),
        rope_freq_base: 10_000.0f32.to_bits(),
        expert_weights_scale: 1.5f32.to_bits(),
        expert_weights_norm: true,
        hc_count: 2,
        hc_sinkhorn_iterations: 20,
        sliding_window: 128,
        indexer_top_k: 512,
        indexer_head_count: 2,
        indexer_key_length: 4,
        n_rot: 2,
        output_group_count: 2,
        hc_mult: 2,
        hash_layer_count: 1,
        swiglu_clamp_exp: vec![],
        swiglu_clamp_shexp: vec![],
        compress_ratios: vec![0, 4, 128],
        compress_rope_freq_base: 160_000.0f32.to_bits(),
        rope_freq_scale: 1.0f32.to_bits(),
        rope_ext_factor: 0,
        rope_beta_fast: 32.0f32.to_bits(),
        rope_beta_slow: 1.0f32.to_bits(),
        rope_n_ctx_orig: 0,
    }
}

fn empty(arch: &str) -> Container {
    Container {
        architecture: arch.to_string(),
        ints: vec![],
        floats: vec![],
        texts: vec![],
        float_lists: vec![],
        int_lists: vec![],
        tensors: vec![],
    }
}

fn info(dims: &[u64], size: u64) -> TensorInfo {
    TensorInfo {
        dims: dims.to_vec(),
        size,
        ty: 0,
        file_offset: 0,
    }
}

/// A node as a nested call.
fn shown(g: &Graph, at: usize) -> String {
    match &g.nodes()[at] {
        Node::Weight { name } => name.clone(),
        Node::Ints { values, .. } => format!("{values:?}"),
        Node::Halves { .. } => "halves".to_string(),
        Node::Floats { bits, .. } => format!("floats*{}", bits.len()),
        Node::Shape { n0, n1, n2 } => format!("shape[{n0},{n1},{n2}]"),
        Node::Input { slot, .. } => format!("{slot:?}"),
        Node::Apply { op, args } => {
            let full = format!("{op:?}");
            let name = full.split_whitespace().next().unwrap().to_string();
            let args: Vec<String> = args.iter().map(|&a| shown(g, a)).collect();
            format!("{name}({})", args.join(", "))
        }
    }
}

#[test]
fn a_dense_feed_forward_gates_its_up_projection() {
    let mut g = Graph::new();
    let x = g.input(Slot::Activations, 8, 2, 1);
    let at = Qwen3Model::new(qwen()).dense_ffn(&mut g, x, 3);
    assert_eq!(
        shown(&g, at),
        "MulMat(blk.3.ffn_down.weight, Mul(Silu(MulMat(blk.3.ffn_gate.weight, Activations)), \
         MulMat(blk.3.ffn_up.weight, Activations)))"
    );
    let mut g = Graph::new();
    let fused = Qwen3Config {
        fused_gate_up: true,
        ..qwen()
    };
    let (gate, up) = Qwen3Model::new(fused).gate_up_weights(&mut g, 0);
    assert_eq!(shown(&g, gate), "HalfRows(blk.0.ffn_up.weight)");
    assert_eq!(shown(&g, up), "HalfRows(blk.0.ffn_up.weight)");
}

#[test]
fn biases_are_added_to_the_projections() {
    let mut g = Graph::new();
    let x = g.input(Slot::Activations, 8, 2, 1);
    let biased = Qwen3Config {
        attn_bias: true,
        ..qwen()
    };
    let (q, _, _) = Qwen3Model::new(biased).qkv_heads(&mut g, 0, x, 2);
    assert!(
        shown(&g, q).contains("blk.0.attn_q.bias"),
        "{}",
        shown(&g, q)
    );
    let mut g = Graph::new();
    let x = g.input(Slot::Activations, 8, 2, 1);
    let (q, _, _) = Qwen3Model::new(qwen()).qkv_heads(&mut g, 0, x, 2);
    assert!(!shown(&g, q).contains("bias"));
}

#[test]
fn the_stateless_graph_ends_in_the_last_position() {
    let model = Qwen3Model::new(qwen());
    let bound = model.required_tensors();
    let mut g = Graph::new();
    let tokens = g.ints(2, 1, vec![5, 6]);
    let positions = g.ints(2, 1, vec![0, 1]);
    let at = model
        .build_graph(&mut g, &bound, tokens, positions, 2)
        .expect("complete");
    let text = shown(&g, at);
    assert!(text.starts_with("Softcap(MulMat(token_embd.weight, "), "{text}");
    assert!(!text.contains("ScaleBySqrt") && !text.contains("CapScores"), "{text}");
    assert!(text.contains("GetRows(token_embd.weight, [5, 6])"));

    let mut g = Graph::new();
    let tokens = g.ints(2, 1, vec![5, 6]);
    let positions = g.ints(2, 1, vec![0, 1]);
    let short: Vec<String> = bound
        .iter()
        .filter(|n| !n.contains("attn_k.weight"))
        .cloned()
        .collect();
    let e = model.build_graph(&mut g, &short, tokens, positions, 2);
    assert_eq!(
        e.unwrap_err().message(),
        "container has no tensor \"blk.0.attn_k.weight\""
    );
}

#[test]
fn a_cached_step_reads_the_stored_history() {
    let runner = StreamingRunner::new(qwen(), 0);
    let bound = runner.resident_tensor_names();
    let task = runner
        .forward_cached(&bound, StreamStep::Attend { il: 0 }, &vec![4], 7, 7)
        .expect("bound");
    let all: Vec<String> = task.outputs.iter().map(|&o| shown(&task.graph, o)).collect();
    assert!(all[0].contains("CachedKeys") && all[0].contains("CachedValues"), "{all:?}");
    let embed = runner
        .forward_cached(&bound, StreamStep::Embed, &vec![4, 5], 0, 0)
        .expect("bound");
    assert_eq!(
        shown(&embed.graph, embed.outputs[0]),
        "GetRows(token_embd.weight, [4, 5])"
    );
}

#[test]
fn one_token_sums_its_weighted_experts() {
    let runner = StreamingRunner::new(qwen(), 0);
    let half = 0.5f32.to_bits();
    let task = runner
        .expert_ffn_single(&vec![3, 9], &vec![half, half])
        .expect("experts");
    let one = |e: u32| {
        format!("Scale(MulMat(d{e}, Mul(Silu(MulMat(g{e}, Activations)), MulMat(u{e}, Activations))))")
    };
    assert_eq!(
        shown(&task.graph, task.outputs[0]),
        format!("Add({}, {})", one(3), one(9))
    );
    assert!(runner.expert_ffn_single(&vec![], &vec![]).is_none());
}

#[test]
fn the_residual_streams_begin_as_copies_of_the_embedding() {
    let mut g = Graph::new();
    let at = embed(&mut g, &flash(), vec![1, 2]);
    assert_eq!(
        shown(&g, at),
        "Repeat(Reshape3d(GetRows(token_embd.weight, [1, 2])), shape[8,2,2])"
    );
    let mut g = Graph::new();
    let at = head(&mut g, &flash());
    assert_eq!(
        shown(&g, at),
        "MulMat(output.weight, Mul(RmsNorm(HcPre(LastStreams, Add(Sigmoid(Add(Mul(MulMat(\
         output_hc_fn.weight, RmsNorm(Reshape2d(LastStreams))), View1d(output_hc_scale.weight)), \
         View1d(output_hc_base.weight))), floats*2))), output_norm.weight))"
    );
}

#[test]
fn a_block_runs_from_streams_to_streams() {
    let fw = Deepseek4Forward::new(flash());
    let model = empty("deepseek4");
    let tokens = vec![1, 2, 3];
    let plan = fw.block(&model, 0, 0, 3, 1.0f32.to_bits());
    assert!(!plan.compressor.slides);
    let mut g = Graph::new();
    let start = fw.begin_block(&mut g, 0, true, &tokens, 0, &plan);
    assert!(start.fed.is_none());
    assert!(shown(&g, start.q).contains("blk.0.attn_q_a.weight"));
    let routed = fw.attend_block(&mut g, 0, &start, &tokens, 0, &plan, false);
    let shapes = SliceShapes {
        gate: (8, 8),
        up: (8, 8),
        down: (8, 8),
    };
    let at = fw.finish_block(&mut g, 0, &routed, shapes, vec![0, 1, 0, 1, 0, 1], 2, 3);
    let text = shown(&g, at);
    assert!(text.starts_with("HcPost("), "{text}");
}

#[test]
fn a_pass_runs_every_block_and_then_the_head() {
    let c = flash();
    let mut at = ForwardStep::Block { il: 0 };
    let mut blocks = Vec::new();
    while let ForwardStep::Block { il } = at {
        blocks.push(il);
        at = next_forward(&c, at);
    }
    assert_eq!(blocks, vec![0, 1, 2]);
    assert!(matches!(at, ForwardStep::Head));
    assert!(matches!(next_forward(&c, at), ForwardStep::Done));
}

#[test]
fn a_history_that_is_full_refuses_the_next_pass() {
    let mut cache = Deepseek4Cache::new(3, 4);
    assert_eq!(forward(&cache, 200).expect("fits"), 0);
    cache.advance(255);
    assert_eq!(cache.n_past(), 255);
    assert_eq!(step(&cache).expect("fits"), 255);
    cache.advance(1);
    let e = step(&cache).expect_err("full");
    assert!(e.message().starts_with("prompt is 257 tokens; this path holds 256."));
    cache.clear();
    assert_eq!(cache.n_past(), 0);
    assert!(prefill(&flash(), 257).is_err());
    assert_eq!(prefill(&flash(), 5).expect("fits").n_past(), 0);
}

#[test]
fn keys_hold_the_raw_half_and_then_the_summaries() {
    let mut cache = Deepseek4Cache::new(1, 4);
    cache.store_raw(0, 4, &vec![1, 2, 3, 4]);
    assert!(!cache.has_summaries(0));
    let raw = cache.keys(0);
    assert_eq!(raw.len(), 256 * 4 * 2);
    assert_eq!(&raw[8..16], &[1, 0, 2, 0, 3, 0, 4, 0]);
    cache.store_summaries(0, 1, 4, &vec![9, 9, 9, 9]);
    assert!(cache.has_summaries(0));
    let both = cache.keys(0);
    assert_eq!(both.len(), 512 * 4 * 2);
    assert_eq!(both[256 * 4 * 2 + 8], 9);
}

#[test]
fn a_ring_keeps_the_last_values() {
    let mut cache = Deepseek4Cache::new(1, 4);
    let (kv, score) = cache.slide(0, &vec![1, 2, 3], &vec![4, 5, 6], 2);
    assert!(kv.is_empty() && score.is_empty());
    let (kv, score) = cache.slide(0, &vec![7], &vec![8], 2);
    assert_eq!((kv, score), (vec![2, 3], vec![5, 6]));
    let (kv, _) = cache.slide(0, &vec![], &vec![], 2);
    assert_eq!(kv, vec![3, 7]);
    assert_eq!(frame_rows(&vec![1], &vec![2, 3], 2, 1, 9), vec![0, 1, 2, 3, 9]);
    assert_eq!(offsets_in_block(6, 4, 4), vec![2, 3, 0, 1]);
}

#[test]
fn a_compressor_summarises_blocks_as_they_complete() {
    let c = flash();
    assert_eq!(compressor_step(&c, 0, 0, 8).map(|s| s.slides), Some(false));
    let early = compressor_step(&c, 1, 0, 3).expect("known ratio");
    assert!(early.slides && early.summary.is_none());
    let done = compressor_step(&c, 1, 3, 1).expect("known ratio");
    assert!(done.slides && done.summary.is_some());
    let plan = plan_compressor(4, 4, false, 0, 9);
    assert_eq!((plan.b0, plan.b1), (0, 2));
    let mut cache = Deepseek4Cache::new(3, 4);
    let framed = feed_compressor(&mut cache, 1, 4, 4, false, 0, 4, &vec![1; 16], &vec![2; 16]);
    assert_eq!(framed.plan.b1, 1);
    assert!(framed.rows.len() == framed.scores.len());
}

#[test]
fn weights_come_from_the_nearest_place() {
    let fw = Deepseek4Forward::new(flash()).with_resident(vec!["a".to_string()]);
    let prefetched = vec!["b".to_string()];
    assert!(matches!(fw.bind_dense("a", &prefetched), BindFrom::Resident));
    assert!(matches!(fw.bind_dense("b", &prefetched), BindFrom::Prefetched));
    assert!(matches!(fw.bind_dense("c", &prefetched), BindFrom::Disk));
    let names: Vec<String> = (0..20).map(|i| format!("t{i}")).chain(["a".to_string()]).collect();
    let shares = fw.prefetch_dense(&names);
    let mut all: Vec<String> = shares.into_iter().flatten().collect();
    all.sort();
    let mut want: Vec<String> = names[..20].to_vec();
    want.sort();
    assert_eq!(all, want);
    assert!(fw.cache_stats().is_none());
    let cached = Deepseek4Forward::new(flash()).with_expert_cache(64);
    assert_eq!(cached.cache_stats().unwrap().1, 0);
    assert_eq!(threads(Some("3"), Some(8)), 3);
    assert_eq!(threads(None, None), 4);
    assert_eq!(threads(None, Some(20)), 20);
}

#[test]
fn expert_slices_land_packed_whether_read_or_kept() {
    let gate = info(&[8, 4, 4], 400);
    let up = info(&[8, 4, 4], 800);
    let tensors = vec![&gate, &up];
    let mut cache = Some(ExpertCache::new(10_000));
    let unique = vec![1, 3];
    let plan = plan_expert_slices(&tensors, &unique, &vec![2, 1], 5, &mut cache);
    assert_eq!(plan.stacks[0].bytes, 200);
    assert_eq!(plan.stacks[1].bytes, 400);
    assert_eq!(plan.stacks[0].dims, vec![8, 4, 2]);
    assert_eq!(plan.total, 600);
    assert_eq!((plan.misses.len(), plan.hit_bytes), (4, 0));
    let second = &plan.jobs[1];
    assert_eq!((second.name, second.at, second.len), (0, 100, 100));
    assert!(matches!(second.source, Source::Disk { offset: 300 }));

    let a = vec![7u8; 200];
    let b = vec![8u8; 400];
    let buffers: Vec<&[u8]> = vec![&a, &b];
    offer_misses(cache.as_mut().unwrap(), &plan.misses, &buffers, 2);
    let again = plan_expert_slices(&tensors, &unique, &vec![1, 1], 5, &mut cache);
    assert!(again.misses.is_empty());
    assert_eq!(again.hit_bytes, 600);
    match &again.jobs[3].source {
        Source::Memory(bytes) => assert_eq!(&bytes[..3], &[8, 8, 8]),
        Source::Disk { .. } => panic!("a kept slice was read again"),
    }
}

#[test]
fn a_block_names_only_what_it_ships() {
    let fw = Deepseek4Forward::new(flash());
    let mut model = empty("deepseek4");
    model.tensors.push(Entry {
        key: "blk.1.attn_norm.weight".to_string(),
        value: info(&[8], 32),
    });
    let names = fw.block_tensor_names(&model, 1);
    assert!(names.iter().all(|n| n.starts_with("blk.1.")));
    let first = fw.block_tensor_names(&model, 0);
    assert_eq!(first.last().map(|n| n.as_str()), Some("token_embd.weight"));
    assert_eq!(first.len(), 21);
    assert!(fw.indexer_is_exact(16));
    let top_k = fw.config().indexer_top_k as usize;
    assert!(fw.indexer_is_exact(4 * top_k + 3));
    assert!(!fw.indexer_is_exact(4 * top_k + 4));
    assert_eq!(fw.config().n_layer, 3);
    assert_eq!(f32::from_bits(fw.rope(1, 0).params.freq_base), 160_000.0);
}

#[test]
fn text_is_searched_trimmed_and_counted() {
    assert_eq!(block_tensor(12, "x.weight"), "blk.12.x.weight");
    let sorted = sort_texts(vec!["b".to_string(), "a".to_string(), "ab".to_string()]);
    assert_eq!(sorted, vec!["a", "ab", "b"]);
    assert!(has("hello", "ell") && !has("hello", "elo") && has("x", ""));
    assert!(starts_with("hello", "he") && ends_with("hello", "llo"));
    assert!(same_text("h\u{e9}", "h\u{e9}") && !same_text("a", "b"));
    let hay: Vec<char> = "abcabc".chars().collect();
    let needle: Vec<char> = "bc".chars().collect();
    assert_eq!(find_from(&hay, &needle, 2), Some(4));
    assert_eq!(find_from(&hay, &needle, 5), None);
    assert_eq!(trim(" \u{3000}x y\t\n"), "x y");
    assert_eq!(to_lower("AbZ\u{c9}"), "abz\u{c9}");
    let mut out = String::new();
    push_decimal(&mut out, 0);
    push_decimal(&mut out, 1050);
    push_signed(&mut out, i64::MIN);
    assert_eq!(out, "01050-9223372036854775808");
    assert_eq!(parse_i64("-9223372036854775808"), Some(i64::MIN));
    assert_eq!(parse_i64("9223372036854775808"), None);
    assert_eq!(parse_i64("+7"), Some(7));
    assert_eq!(parse_i64("-"), None);
    assert_eq!(parse_unsigned("255", 255), Some(255));
    assert_eq!(parse_unsigned("256", 255), None);
    assert_eq!(parse_unsigned("-1", 255), None);
}

#[test]
fn a_router_weighs_every_expert() {
    let mut g = Graph::new();
    let x = g.input(Slot::Activations, 8, 2, 1);
    let arch = Qwen3Model::new(qwen());
    let at = arch.route_probabilities(&mut g, x, 4);
    assert_eq!(
        shown(&g, at),
        "SoftMaxExt(MulMat(blk.4.ffn_gate_inp.weight, Activations))"
    );
    let weight = g.weight("n.weight".to_string());
    let at = arch.norm_scaled(&mut g, x, weight);
    assert_eq!(shown(&g, at), "Mul(RmsNorm(Activations), n.weight)");
}

#[test]
fn both_ways_to_attend_read_the_same_inputs() {
    let arch = Qwen3Model::new(qwen());
    let mut g = Graph::new();
    let q = g.input(Slot::Queries, 4, 2, 1);
    let k = g.input(Slot::CachedKeys, 4, 1, 3);
    let v = g.input(Slot::CachedValues, 4, 1, 3);
    let flash = arch.attention_flash(&mut g, q, k, v, 1, 3, vec![0; 6]);
    let plain = arch.attention_cached(&mut g, q, k, v, 1, 3, vec![0; 3]);
    for at in [flash, plain] {
        let text = shown(&g, at);
        for part in ["Queries", "CachedKeys", "CachedValues"] {
            assert!(text.contains(part), "{text}");
        }
    }
    assert!(shown(&g, flash).contains("FlashAttn"));
    assert!(shown(&g, plain).contains("SoftMaxExt"));
}

#[test]
fn attention_needs_its_weights() {
    let arch = Qwen3Model::new(qwen());
    let mut g = Graph::new();
    let x = g.input(Slot::Activations, 8, 2, 1);
    let positions = g.ints(2, 1, vec![0, 1]);
    let rope = arch.config.rope();
    let missing = arch.attention_block(
        &mut g,
        &vec![],
        x,
        positions,
        2,
        0,
        rope,
        ROPE_TYPE_NEOX,
    );
    assert!(missing.is_err());
    let bound: Vec<String> = ["attn_norm", "attn_q", "attn_k", "attn_v", "attn_output"]
        .iter()
        .map(|s| format!("blk.0.{s}.weight"))
        .collect();
    let at = arch
        .attention_block(&mut g, &bound, x, positions, 2, 0, rope, ROPE_TYPE_NEOX)
        .unwrap();
    let text = shown(&g, at);
    assert!(text.contains("blk.0.attn_output.weight") && text.contains("RopeExt"), "{text}");
}

#[test]
fn the_head_binds_its_tensors() {
    assert_eq!(
        head_tensor_names(),
        vec![
            "output_hc_fn.weight",
            "output_hc_scale.weight",
            "output_hc_base.weight",
            "output_norm.weight",
            "output.weight",
        ]
    );
}

#[test]
fn a_token_pulls_three_slices_of_each_expert_per_layer() {
    let mut c = empty("deepseek4");
    for s in ["ffn_gate_exps", "ffn_up_exps", "ffn_down_exps"] {
        c.tensors.push(Entry {
            key: format!("blk.0.{s}.weight"),
            value: info(&[8, 8, 4], 400),
        });
    }
    // 100 bytes a slice, 3 slices, 2 experts, 3 layers.
    assert_eq!(flash().expert_bytes_per_token(&c), 1800);
    assert_eq!(flash().expert_bytes_per_token(&empty("deepseek4")), 0);
}

#[test]
fn optional_tensors_are_counted_per_block() {
    let mut c = empty("deepseek4");
    for il in [1, 2] {
        c.tensors.push(Entry {
            key: format!("blk.{il}.attn_compressor_kv.weight"),
            value: info(&[8, 8], 64),
        });
    }
    let model = Deepseek4Model::new(flash());
    let counts = model.optional_layer_counts(&c);
    let of = |name: &str| counts.iter().find(|e| e.0 == name).unwrap().1;
    assert_eq!(of("attn_compressor_kv.weight"), 2);
    assert_eq!(of("exp_probs_b.bias"), 0);
    assert_eq!(model.resident_bytes(&c), 128);
    assert_eq!(flash().compress_block(1), Some(4));
    assert_eq!(flash().compress_block(0), None);
    assert_eq!(
        flash().attention_kind_from_ratio(2),
        Some(AttentionKind::HeavilyCompressed)
    );
}

/// The rotations of a graph: their mode and the context they interpolate from.
fn rotations(g: &Graph) -> Vec<(i32, i32)> {
    g.nodes()
        .iter()
        .filter_map(|node| match node {
            Node::Apply {
                op: Op::RopeExt { mode, n_ctx_orig, .. },
                ..
            } => Some((*mode, *n_ctx_orig)),
            _ => None,
        })
        .collect()
}

#[test]
fn every_pass_rotates_as_the_model_says() {
    let config = Qwen3Config {
        rope_type: ROPE_TYPE_NORM,
        rope_orig_ctx: 4096,
        ..qwen()
    };
    let runner = StreamingRunner::new(config.clone(), 0);
    let mut bound = runner.resident_tensor_names();
    bound.push("blk.0.ffn_gate_inp.weight".to_string());
    let uncached = runner.forward(&bound, 0, vec![0, 1]).expect("bound");
    assert_eq!(rotations(&uncached.graph), vec![(ROPE_TYPE_NORM, 4096); 2]);
    let cached = runner
        .forward_cached(&bound, StreamStep::Qkv { il: 0 }, &vec![1, 2], 0, 0)
        .expect("bound");
    assert_eq!(rotations(&cached.graph), vec![(ROPE_TYPE_NORM, 4096); 2]);
    let mut g = Graph::new();
    let tokens = g.ints(2, 1, vec![5, 6]);
    let positions = g.ints(2, 1, vec![0, 1]);
    Qwen3Model::new(config)
        .build_graph(&mut g, &bound, tokens, positions, 2)
        .expect("bound");
    assert_eq!(rotations(&g), vec![(ROPE_TYPE_NORM, 4096); 2]);
}

/// What a plan's readers leave, from tensors with the contents `data`.
fn read(plan: &ReadPlan, data: &[Vec<u8>]) -> Vec<Vec<u8>> {
    let mut stacks: Vec<Vec<u8>> = plan.stacks.iter().map(|s| vec![0; s.bytes]).collect();
    for job in &plan.jobs {
        let bytes = match &job.source {
            Source::Disk { offset } => {
                data[job.name][*offset as usize..*offset as usize + job.len].to_vec()
            }
            Source::Memory(bytes) => bytes.to_vec(),
        };
        stacks[job.name][job.at..job.at + job.len].copy_from_slice(&bytes);
    }
    stacks
}

#[test]
fn stacks_are_the_same_without_with_a_cold_and_with_a_warm_cache() {
    let gate = info(&[2, 4], 12);
    let up = info(&[2, 4], 20);
    let tensors = vec![&gate, &up];
    let data: Vec<Vec<u8>> = vec![(0..12).collect(), (100..120).collect()];
    let unique = vec![0, 2, 3];
    let ask = |cache: &mut Option<ExpertCache>| {
        plan_expert_slices(&tensors, &unique, &vec![1, 1, 1], 5, cache)
    };
    let bare = read(&ask(&mut None), &data);
    assert_eq!(bare[0], vec![0, 1, 2, 6, 7, 8, 9, 10, 11]);
    assert_eq!(&bare[1][5..10], &[110, 111, 112, 113, 114]);
    let mut cache = Some(ExpertCache::new(1000));
    let cold = ask(&mut cache);
    let first = read(&cold, &data);
    assert_eq!(first, bare);
    let buffers: Vec<&[u8]> = first.iter().map(|b| b.as_slice()).collect();
    offer_misses(cache.as_mut().unwrap(), &cold.misses, &buffers, 3);
    let warm = ask(&mut cache);
    assert!(warm.misses.is_empty());
    assert_eq!(read(&warm, &[vec![], vec![]]), bare);
}

/// A model with every step around the plain layer.
fn dressed() -> Qwen3Config {
    Qwen3Config {
        n_layer: 2,
        post_norms: true,
        scale_embeddings: true,
        attn_logit_softcap: 50.0f32.to_bits(),
        final_logit_softcap: 30.0f32.to_bits(),
        sliding_window: 2,
        ..qwen()
    }
}

/// The operations of a graph.
fn ops(g: &Graph) -> Vec<Op> {
    g.nodes()
        .iter()
        .filter_map(|node| match node {
            Node::Apply { op, .. } => Some(*op),
            _ => None,
        })
        .collect()
}

/// The masks of a graph: whether each of `n` keys is seen, row by row.
fn masks(g: &Graph, n: usize) -> Vec<Vec<bool>> {
    g.nodes()
        .iter()
        .filter_map(|node| match node {
            Node::Floats { bits, .. } if bits.len() == n * n => {
                Some(bits.iter().map(|&b| b == 0).collect())
            }
            _ => None,
        })
        .collect()
}

const SLID: [bool; 9] = [true, false, false, true, true, false, false, true, true];
const WHOLE: [bool; 9] = [true, false, false, true, true, false, true, true, true];

#[test]
fn the_stateless_graph_scales_norms_caps_and_slides_as_the_model_says() {
    let config = dressed();
    let model = Qwen3Model::new(config.clone());
    let bound = model.required_tensors();
    let mut g = Graph::new();
    let tokens = g.ints(3, 1, vec![5, 6, 7]);
    let positions = g.ints(3, 1, vec![0, 1, 2]);
    let at = model
        .build_graph(&mut g, &bound, tokens, positions, 3)
        .expect("complete");
    match &g.nodes()[at] {
        Node::Apply { op, .. } => assert_eq!(*op, Op::Softcap { cap: 30.0f32.to_bits() }),
        _ => panic!("the logits are not capped"),
    }
    let all = ops(&g);
    assert_eq!(all.iter().filter(|o| **o == Op::ScaleBySqrt { of: 8 }).count(), 1);
    let capped = Op::CapScores {
        scale: AttnScale::InverseSqrt(4),
        cap: 50.0f32.to_bits(),
    };
    assert_eq!(all.iter().filter(|o| **o == capped).count(), 2);
    assert_eq!(masks(&g, 3), vec![SLID.to_vec(), WHOLE.to_vec()]);
    let text = shown(&g, at);
    assert!(text.contains("ScaleBySqrt(GetRows(token_embd.weight, [5, 6, 7]))"));
    assert!(text.contains("SoftMaxExt(CapScores(MulMat("));
    for name in ["post_attention_norm", "post_ffw_norm"] {
        assert!(text.contains(&format!(", blk.0.{name}.weight)")), "{text}");
        let short: Vec<String> = bound
            .iter()
            .filter(|n| !n.contains(name))
            .cloned()
            .collect();
        let mut g = Graph::new();
        let tokens = g.ints(3, 1, vec![5, 6, 7]);
        let positions = g.ints(3, 1, vec![0, 1, 2]);
        let e = model.build_graph(&mut g, &short, tokens, positions, 3);
        assert_eq!(
            e.unwrap_err().message(),
            format!("container has no tensor \"blk.0.{name}.weight\"")
        );
    }
}

#[test]
fn the_uncached_layers_norm_cap_and_slide_as_the_model_says() {
    let config = Qwen3Config {
        n_expert: 4,
        n_expert_used: 2,
        n_ff_expert: 8,
        ..dressed()
    };
    let runner = StreamingRunner::new(config, 0);
    let bound = runner.resident_tensor_names();
    for (il, mask) in [(0, SLID), (1, WHOLE)] {
        let task = runner.forward(&bound, il, vec![0, 1, 2]).expect("bound");
        assert_eq!(masks(&task.graph, 3), vec![mask.to_vec()]);
        let entered = shown(&task.graph, task.outputs[0]);
        assert!(entered.starts_with("Add(Mul(RmsNorm(MulMat("), "{entered}");
        assert!(entered.contains(&format!(", blk.{il}.post_attention_norm.weight)")));
        assert!(entered.contains("SoftMaxExt(CapScores(MulMat("));
    }
    let embed = runner
        .forward_cached(&bound, StreamStep::Embed, &vec![4, 5], 0, 0)
        .expect("bound");
    assert_eq!(
        shown(&embed.graph, embed.outputs[0]),
        "ScaleBySqrt(GetRows(token_embd.weight, [4, 5]))"
    );
    let out = runner.forward_output(&bound, 3).expect("bound");
    match &out.graph.nodes()[out.outputs[0]] {
        Node::Apply { op, .. } => assert_eq!(*op, Op::Softcap { cap: 30.0f32.to_bits() }),
        _ => panic!("the logits are not capped"),
    }
}

#[test]
fn a_batch_of_slices_is_planned_where_sizes_and_counters_hold_it() {
    let gate = info(&[8, 4, 4], 400);
    let up = info(&[8, 4, 4], 800);
    let tensors = vec![&gate, &up];
    assert!(can_plan_slices(&tensors, &vec![1, 3], &vec![2, 1], 5, &None));
    assert!(!can_plan_slices(&tensors, &vec![3, 1], &vec![2, 1], 5, &None), "not ascending");
    assert!(!can_plan_slices(&tensors, &vec![1, 1], &vec![2, 1], 5, &None), "not distinct");
    assert!(!can_plan_slices(&tensors, &vec![-1, 1], &vec![2, 1], 5, &None), "no expert");
    assert!(!can_plan_slices(&tensors, &vec![1], &vec![2, 1], 5, &None), "no weight");
    assert!(!can_plan_slices(&tensors, &vec![1], &vec![2], 1 << 24, &None), "no such layer");
    let flat = info(&[8, 4, 0], 400);
    assert!(!can_plan_slices(&vec![&flat], &vec![0], &vec![1], 5, &None), "no experts");
    let vast = info(&[8, 4, 2], u64::MAX - 1);
    assert!(can_plan_slices(&vec![&vast], &vec![0, 1], &vec![1, 1], 5, &None));
    assert!(!can_plan_slices(&vec![&vast, &vast], &vec![0, 1], &vec![1, 1], 5, &None));
    let mut cache = Some(ExpertCache::new(usize::MAX));
    let unique = vec![1, 3];
    let plan = plan_expert_slices(&tensors, &unique, &vec![2, 1], 5, &mut cache);
    let (a, b) = (vec![7u8; 200], vec![8u8; 400]);
    let buffers: Vec<&[u8]> = vec![&a, &b];
    offer_misses(cache.as_mut().unwrap(), &plan.misses, &buffers, 2);
    for _ in 0..3 {
        assert!(can_plan_slices(&tensors, &unique, &vec![1, 1], 5, &cache));
        let again = plan_expert_slices(&tensors, &unique, &vec![1, 1], 5, &mut cache);
        assert_eq!(again.hit_bytes, 600);
    }
    let most = vec![u32::MAX, 1];
    assert!(!can_plan_slices(&tensors, &unique, &most, 5, &cache), "a full count");
}
