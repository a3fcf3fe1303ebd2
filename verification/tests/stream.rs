use bigtea_arch::container::{Container, Entry, TensorInfo};
use bigtea_arch::float_bits::order_key;
use bigtea_arch::kv::{KvCache, KvRow};
use bigtea_arch::mask::{causal_mask, window_mask};
use bigtea_arch::qwen3::{Qwen3Config, Qwen3Model, ROPE_TYPE_NEOX};
use bigtea_arch::stream::{group_by_expert, wanted_slices, StreamingRunner, READ_GROUP};
use bigtea_arch::stream_pass::{gather_rows, next_step, step_arena, store_positions, StreamStep};
use std::sync::Arc;

fn cfg() -> Qwen3Config {
    Qwen3Config {
        n_layer: 2,
        n_embd: 8,
        n_head: 2,
        n_head_kv: 1,
        head_dim: 4,
        n_ff: 16,
        vocab_size: 32,
        rms_eps: 1e-6f32.to_bits(),
        rope_freq_base: 1_000_000.0f32.to_bits(),
        rope_freq_scale: 1.0f32.to_bits(),
        rope_ext_factor: 0.0f32.to_bits(),
        rope_attn_factor: 1.0f32.to_bits(),
        rope_beta_fast: 32.0f32.to_bits(),
        rope_beta_slow: 1.0f32.to_bits(),
        rope_orig_ctx: 0,
        n_expert: 4,
        n_expert_used: 2,
        n_ff_expert: 16,
        qk_norm: true,
        rope_type: ROPE_TYPE_NEOX,
        rope_type_is_known: true,
        attn_bias: false,
        fused_qkv: false,
        fused_gate_up: false,
        post_norms: false,
        scale_embeddings: false,
        attn_logit_softcap: 0,
        final_logit_softcap: 0,
        sliding_window: 0,
    }
}

fn keys(probs: &[f32]) -> Vec<i64> {
    probs.iter().map(|p| order_key(p.to_bits())).collect()
}

/// The experts picked for one token, with their probabilities made to sum to one.
fn routed(probs: &[f32], k: usize) -> Vec<(u32, f32)> {
    let runner = StreamingRunner::new(cfg(), 0);
    let picks = runner.route(&keys(probs), k);
    let total: f32 = picks.iter().map(|&e| probs[e as usize]).sum();
    picks
        .iter()
        .map(|&e| {
            let p = probs[e as usize];
            (e, if total > 0.0 { p / total } else { p })
        })
        .collect()
}

fn stacked(il: u32) -> Vec<Entry<TensorInfo>> {
    ["ffn_gate_exps", "ffn_up_exps", "ffn_down_exps"]
        .iter()
        .map(|s| Entry {
            key: format!("blk.{il}.{s}.weight"),
            value: TensorInfo {
                dims: vec![8, 16, 4],
                size: 400,
                ty: 0,
                file_offset: 0,
            },
        })
        .collect()
}

fn container() -> Container {
    let mut tensors = stacked(0);
    tensors.extend(stacked(1));
    Container {
        architecture: "qwen3moe".to_string(),
        ints: vec![],
        floats: vec![],
        texts: vec![],
        float_lists: vec![],
        int_lists: vec![],
        tensors,
    }
}

#[test]
fn routing_picks_the_highest_scoring_experts() {
    let picks = routed(&[0.1, 0.5, 0.2, 0.9], 2);
    let ids: Vec<u32> = picks.iter().map(|(i, _)| *i).collect();
    assert_eq!(ids, vec![3, 1], "should pick experts 3 and 1");
}

#[test]
fn routing_weights_are_renormalised_over_the_selection() {
    let picks = routed(&[0.1, 0.5, 0.2, 0.9], 2);
    let total: f32 = picks.iter().map(|(_, w)| *w).sum();
    assert!((total - 1.0).abs() < 1e-6, "weights summed to {total}");
}

#[test]
fn zero_probabilities_do_not_divide_by_zero() {
    let picks = routed(&[0.0, 0.0, 0.0, 0.0], 2);
    assert_eq!(picks.len(), 2);
    assert!(picks.iter().all(|(_, w)| w.is_finite()));
}

#[test]
fn resident_set_excludes_experts() {
    let arch = Qwen3Model::new(cfg());
    assert!(arch.required_tensors().iter().any(|n| n.contains("_exps")));
    let resident = StreamingRunner::new(cfg(), 0).resident_tensor_names();
    assert!(!resident.is_empty());
    assert!(
        resident.iter().all(|n| !n.contains("_exps")),
        "an expert tensor leaked into the resident set"
    );
    assert!(resident.iter().any(|n| n.contains("attn_q")));
}

#[test]
fn every_token_meets_each_of_its_experts_once() {
    let groups = group_by_expert(&vec![vec![2, 0], vec![2, 3]]);
    let experts: Vec<u32> = groups.iter().map(|g| g.expert).collect();
    assert_eq!(experts, vec![0, 2, 3]);
    let both = &groups[1];
    assert_eq!(both.members.len(), 2);
    assert_eq!((both.members[0].token, both.members[0].rank), (0, 0));
    assert_eq!((both.members[1].token, both.members[1].rank), (1, 0));
    let rows = vec![10, 11, 20, 21];
    assert_eq!(gather_rows(&rows, 2, &both.members), vec![10, 11, 20, 21]);
    assert_eq!(gather_rows(&rows, 2, &groups[2].members), vec![20, 21]);
}

#[test]
fn a_slice_is_read_once_and_then_served() {
    let mut runner = StreamingRunner::new(cfg(), 10_000);
    let model = container();
    let wanted = wanted_slices(0, &[1]);
    assert_eq!(wanted.len(), 3);
    assert_eq!(wanted[0].tensor_name(), "blk.0.ffn_gate_exps.weight");

    let round = runner.request_slices(&model, &wanted).expect("known");
    assert!(round.hits.is_empty());
    assert_eq!(round.misses.len(), 3);
    assert_eq!((round.misses[0].offset, round.misses[0].len), (100, 100));
    let fetched: Vec<Option<Arc<[u8]>>> =
        (0..3).map(|i| Some(Arc::from(vec![i as u8; 100]))).collect();
    let got = runner.receive_slices(round, None, fetched).expect("read");
    assert_eq!(got.len(), 3);
    assert_eq!(runner.stats().expert_reads, 3);
    assert_eq!(runner.stats().expert_bytes, 300);

    let again = runner.request_slices(&model, &wanted).expect("known");
    assert_eq!(again.hits.len(), 3);
    assert!(again.misses.is_empty());
    assert_eq!(&again.hits[2].bytes[..2], &[2, 2]);
    assert_eq!(runner.stats().cache_hits, 3);
}

#[test]
fn a_failed_read_fails_the_round() {
    let mut runner = StreamingRunner::new(cfg(), 0);
    let model = container();
    let wanted = wanted_slices(1, &[0]);
    let round = runner.request_slices(&model, &wanted).expect("known");
    let none: Vec<Option<Arc<[u8]>>> = vec![None, None, None];
    let e = match runner.receive_slices(round, Some("disk went away".to_string()), none) {
        Err(e) => e,
        Ok(_) => panic!("a failed read was taken"),
    };
    assert_eq!(
        e.message(),
        "container has no tensor \"expert read failed: disk went away\""
    );

    let missing = wanted_slices(7, &[0]);
    let e = match runner.request_slices(&model, &missing) {
        Err(e) => e,
        Ok(_) => panic!("a missing tensor was found"),
    };
    assert_eq!(
        e.message(),
        "container has no tensor \"blk.7.ffn_gate_exps.weight\""
    );
}

#[test]
fn experts_are_read_in_groups() {
    let mut config = cfg();
    config.n_expert = 64;
    config.n_expert_used = 20;
    let runner = StreamingRunner::new(config, 0);
    let token: Vec<i64> = (0..64).collect();
    let plan = runner
        .expert_ffn_block(&container(), &vec![token.clone(), token], 0)
        .expect("shipped");
    assert_eq!(plan.groups.len(), 20);
    let sizes: Vec<usize> = plan.reads.iter().map(|r| r.len()).collect();
    assert_eq!(sizes, vec![3 * READ_GROUP, 3 * (20 - READ_GROUP)]);
    assert_eq!(plan.picks[0][0], 63);
}

#[test]
fn a_pass_takes_every_layer_in_order() {
    let c = cfg();
    let mut step = StreamStep::Embed;
    let mut seen = Vec::new();
    while step != StreamStep::Done {
        seen.push(step);
        step = next_step(&c, step);
    }
    assert_eq!(seen[0], StreamStep::Embed);
    assert_eq!(seen[1], StreamStep::Qkv { il: 0 });
    assert!(seen.contains(&StreamStep::Experts { il: 1 }));
    assert_eq!(*seen.last().unwrap(), StreamStep::Output);
    let arena = step_arena(&c, StreamStep::Attend { il: 0 }, 3, 5);
    assert!(arena.nodes > 0);
}

#[test]
fn a_step_is_refused_where_its_weights_are_not_bound() {
    let runner = StreamingRunner::new(cfg(), 0);
    let none: Vec<String> = vec![];
    let e = match runner.forward_cached(&none, StreamStep::Qkv { il: 1 }, &vec![1, 2], 0, 0) {
        Err(e) => e,
        Ok(_) => panic!("ran without weights"),
    };
    assert!(e.message().contains("blk.1."), "{}", e.message());
    let bound = runner.resident_tensor_names();
    assert!(runner
        .forward_cached(&bound, StreamStep::Qkv { il: 1 }, &vec![1, 2], 0, 0)
        .is_ok());
}

#[test]
fn positions_are_stored_for_one_layer_at_a_time() {
    let mut cache = KvCache::new(2, 1, 2);
    let rows = vec![KvRow::Halves(vec![1, 2]), KvRow::Halves(vec![3, 4])];
    let more = vec![KvRow::Halves(vec![5, 6]), KvRow::Halves(vec![7, 8])];
    store_positions(&mut cache, 0, &rows, &more).expect("fits");
    assert_eq!(cache.keys(0), &[1, 0, 2, 0, 3, 0, 4, 0]);
    assert_eq!(cache.values(0), &[5, 0, 6, 0, 7, 0, 8, 0]);
    assert_eq!(cache.keys(1).len(), 0);
    let short = vec![KvRow::Halves(vec![1])];
    let row = vec![KvRow::Halves(vec![1, 2])];
    assert!(store_positions(&mut cache, 1, &short, &row).is_err());
}

#[test]
fn a_mask_hides_the_future_and_what_slid_out() {
    let full = causal_mask(1, 2, 3, 0);
    assert_eq!(full.len(), 12);
    assert_eq!(&full[..6], &[0, 0, 0, 0, 0, 0xFC]);
    assert_eq!(&full[6..], &[0, 0, 0, 0, 0, 0]);
    let windowed = causal_mask(2, 1, 3, 2);
    assert_eq!(windowed, vec![0, 0xFC, 0, 0, 0, 0]);
}

#[test]
fn compressed_blocks_are_seen_once_complete() {
    let bytes = window_mask(3, 1, 128, 4, true);
    assert_eq!(bytes.len(), 512 * 2);
    assert_eq!(bytes[3 * 2 + 1], 0);
    assert_eq!(bytes[4 * 2 + 1], 0xFC);
    assert_eq!(bytes[256 * 2 + 1], 0);
    assert_eq!(bytes[257 * 2 + 1], 0xFC);
}

#[test]
fn counters_say_what_they_can_take() {
    let mut runner = StreamingRunner::new(cfg(), 1000);
    let wanted = wanted_slices(0, &[1, 2]);
    assert!(runner.can_request_slices(&wanted));
    assert!(runner.can_request_slices(&vec![]));
    let round = runner.request_slices(&container(), &wanted).unwrap();
    assert_eq!((round.hits.len(), round.misses.len()), (0, 6));
    runner.note_resident(77);
    assert_eq!(runner.stats().resident_bytes, 77);
    let fetched: Vec<Option<Arc<[u8]>>> = vec![Some(Arc::from(vec![1u8; 100])); 6];
    assert!(runner.can_receive_slices(&fetched));
    assert!(runner.can_receive_slices(&vec![]));
}

#[test]
fn a_boundless_cache_serves_again_and_again() {
    let mut runner = StreamingRunner::new(cfg(), usize::MAX);
    let (model, wanted) = (container(), wanted_slices(0, &[1, 2]));
    assert!(runner.can_request_slices(&wanted));
    let round = runner.request_slices(&model, &wanted).unwrap();
    let fetched: Vec<Option<Arc<[u8]>>> = vec![Some(Arc::from(vec![1u8; 100])); 6];
    assert!(runner.can_receive_slices(&fetched));
    runner.receive_slices(round, None, fetched).expect("read");
    for n in 1..4 {
        assert!(runner.can_request_slices(&wanted));
        let round = runner.request_slices(&model, &wanted).unwrap();
        assert_eq!((round.hits.len(), round.misses.len()), (6, 0));
        assert_eq!(runner.stats().cache_hits, 6 * n);
    }
}

#[test]
fn one_token_plans_its_picks_and_slices() {
    let runner = StreamingRunner::new(cfg(), 0);
    let (picks, wanted) = runner.run_expert_ffn(&keys(&[0.1, 0.4, 0.2, 0.3]), 1);
    assert_eq!(picks, vec![1, 3]);
    let names: Vec<(String, u32)> = wanted.iter().map(|w| (w.tensor_name(), w.expert)).collect();
    assert_eq!(names.len(), 6);
    assert_eq!(names[0], ("blk.1.ffn_gate_exps.weight".to_string(), 1));
    assert_eq!(names[5], ("blk.1.ffn_down_exps.weight".to_string(), 3));
}

#[test]
fn arenas_grow_with_what_they_hold() {
    let runner = StreamingRunner::new(cfg(), 0);
    let one = runner.expert_arena(1, 100);
    let many = runner.expert_arena(7, 100);
    assert_eq!(one.weights, 100);
    assert_eq!(one.shapes.len(), many.shapes.len());
    assert!(one.shapes.iter().zip(&many.shapes).all(|(a, b)| b.1 == 7 * a.1));
    let single = runner.single_arena(2, 50);
    assert_eq!(single.weights, 50);
    assert!(single.nodes >= 16 * 2);
    let task = runner.expert_graph(3);
    assert_eq!(task.outputs.len(), 1);
}

#[test]
fn loading_names_the_first_tensor_that_is_missing() {
    let runner = StreamingRunner::new(cfg(), 0);
    let failed = runner.load_resident(&container());
    assert_eq!(
        failed.unwrap_err().message(),
        "container has no tensor \"token_embd.weight\""
    );
    let mut full = container();
    for name in Qwen3Model::new(cfg()).required_tensors() {
        if !full.has(&name) {
            full.tensors.push(Entry {
                key: name,
                value: TensorInfo {
                    dims: vec![8, 32],
                    size: 4,
                    ty: 0,
                    file_offset: 0,
                },
            });
        }
    }
    let names = runner.load_resident(&full).unwrap();
    assert!(names.iter().all(|n| !n.contains("_exps")));
    assert!(names.contains(&"blk.1.attn_norm.weight".to_string()));
}

#[test]
fn an_uncached_pass_ends_in_logits_of_every_token() {
    let runner = StreamingRunner::new(cfg(), 0);
    let bound = vec!["output_norm.weight".to_string(), "token_embd.weight".to_string()];
    let task = runner.forward_output(&bound, 3).unwrap();
    assert_eq!(task.outputs.len(), 1);
    let missing = runner.forward_output(&vec![], 3);
    assert!(missing.is_err());
    let refused = runner.forward(&bound, 0, vec![0, 1, 2]);
    assert_eq!(
        refused.err().unwrap().message(),
        "container has no tensor \"blk.0.attn_norm.weight\""
    );
}

#[test]
fn two_blocks_leave_the_history_of_one_pass() {
    let k = vec![
        KvRow::Halves(vec![1, 2]),
        KvRow::Halves(vec![3, 4]),
        KvRow::Halves(vec![5, 6]),
    ];
    let v = vec![
        KvRow::Halves(vec![7, 8]),
        KvRow::Halves(vec![9, 10]),
        KvRow::Halves(vec![11, 12]),
    ];
    let mut whole = KvCache::new(1, 1, 2);
    store_positions(&mut whole, 0, &k, &v).expect("fits");
    let mut blocks = KvCache::new(1, 1, 2);
    store_positions(
        &mut blocks,
        0,
        &vec![KvRow::Halves(vec![1, 2])],
        &vec![KvRow::Halves(vec![7, 8])],
    )
    .expect("fits");
    store_positions(
        &mut blocks,
        0,
        &vec![KvRow::Halves(vec![3, 4]), KvRow::Halves(vec![5, 6])],
        &vec![KvRow::Halves(vec![9, 10]), KvRow::Halves(vec![11, 12])],
    )
    .expect("fits");
    assert_eq!(blocks.keys(0), whole.keys(0));
    assert_eq!(blocks.values(0), whole.values(0));
    assert_eq!(blocks.keys(0), &[1, 0, 2, 0, 3, 0, 4, 0, 5, 0, 6, 0]);
}

#[test]
fn the_rows_of_a_block_are_rows_of_the_whole_mask() {
    let whole = causal_mask(0, 4, 4, 2);
    let block = causal_mask(2, 2, 4, 2);
    assert_eq!(&whole[16..], &block[..]);
}

#[test]
fn a_layer_that_keys_cannot_tell_apart_is_not_asked_for() {
    let runner = StreamingRunner::new(cfg(), 1000);
    let mut wanted = wanted_slices(0x00FF_FFFF, &[7]);
    assert!(runner.can_request_slices(&wanted));
    wanted[2].layer = 0x0100_0000;
    assert!(!runner.can_request_slices(&wanted));
}

#[test]
fn rows_stored_in_every_layer_are_positions_of_all() {
    let mut cache = KvCache::new(2, 1, 2);
    for layer in 0..2u16 {
        let k = vec![
            KvRow::Halves(vec![layer, 1]),
            KvRow::Halves(vec![layer, 2]),
            KvRow::Halves(vec![layer, 3]),
        ];
        let v = vec![
            KvRow::Halves(vec![4, layer]),
            KvRow::Halves(vec![5, layer]),
            KvRow::Halves(vec![6, layer]),
        ];
        store_positions(&mut cache, layer as usize, &k, &v).expect("fits");
    }
    assert!(!cache.is_consistent());
    cache.advance_by(3);
    assert!(cache.is_consistent());
    assert_eq!(cache.len(), 3);
    assert_eq!(&cache.keys(1)[4..8], &[1, 0, 2, 0]);
    assert_eq!(&cache.values(0)[8..], &[6, 0, 0, 0]);
}
