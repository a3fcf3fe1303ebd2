use bigtea_arch::container::{Container, Entry, FloatValue, IntValue, TensorInfo};
use bigtea_arch::deepseek4::{
    resident_block_suffixes, AttentionKind, Deepseek4Config, Deepseek4Model,
};
use bigtea_arch::error::ArchError;
use bigtea_arch::graph::{AttnScale, Graph, Node, Op, Slot};
use bigtea_arch::kv::KvError;
use bigtea_arch::qwen3::{
    architecture_is_verified, rope_type_for, verified_architecture_names, Qwen3Config, Qwen3Model,
    ROPE_TYPE_NEOX, ROPE_TYPE_NORM,
};

fn config_for_test() -> Deepseek4Config {
    Deepseek4Config {
        n_layer: 43,
        n_embd: 4096,
        n_head: 64,
        n_head_kv: 1,
        kv_lora_rank: 512,
        q_lora_rank: 1024,
        output_lora_rank: 1024,
        vocab_size: 129_280,
        n_expert: 256,
        n_expert_used: 6,
        n_expert_shared: 1,
        n_ff_expert: 2048,
        rms_eps: 1e-6f32.to_bits(),
        rope_freq_base: 10_000.0f32.to_bits(),
        expert_weights_scale: 1.5f32.to_bits(),
        expert_weights_norm: true,
        hc_count: 4,
        hc_sinkhorn_iterations: 20,
        sliding_window: 128,
        indexer_top_k: 512,
        indexer_head_count: 64,
        indexer_key_length: 128,
        n_rot: 64,
        output_group_count: 8,
        hc_mult: 4,
        hash_layer_count: 3,
        swiglu_clamp_exp: vec![10.0f32.to_bits(); 43],
        swiglu_clamp_shexp: vec![10.0f32.to_bits(); 43],
        compress_ratios: {
            let mut r = vec![4i64; 44];
            r[0] = 0;
            r[1] = 0;
            r
        },
        compress_rope_freq_base: 160_000.0f32.to_bits(),
        rope_freq_scale: (1.0f32 / 16.0).to_bits(),
        rope_ext_factor: 1.0f32.to_bits(),
        rope_beta_fast: 32.0f32.to_bits(),
        rope_beta_slow: 1.0f32.to_bits(),
        rope_n_ctx_orig: 65536,
    }
}

fn dense_config() -> Qwen3Config {
    Qwen3Config {
        n_layer: 2,
        n_embd: 64,
        n_head: 4,
        n_head_kv: 2,
        head_dim: 16,
        n_ff: 128,
        vocab_size: 100,
        rms_eps: 1e-6f32.to_bits(),
        rope_freq_base: 1_000_000.0f32.to_bits(),
        rope_freq_scale: 1.0f32.to_bits(),
        rope_ext_factor: 0.0f32.to_bits(),
        rope_attn_factor: 1.0f32.to_bits(),
        rope_beta_fast: 32.0f32.to_bits(),
        rope_beta_slow: 1.0f32.to_bits(),
        rope_orig_ctx: 0,
        n_expert: 0,
        n_expert_used: 0,
        n_ff_expert: 0,
        qk_norm: true,
        rope_type: ROPE_TYPE_NEOX,
        rope_type_is_known: true,
        attn_bias: false,
        fused_qkv: false,
        fused_gate_up: false,
        post_norms: false,
        scale_embeddings: false,
        attn_logit_softcap: 0.0f32.to_bits(),
        final_logit_softcap: 0.0f32.to_bits(),
        sliding_window: 0,
    }
}

fn dense_config_no_qk_norm() -> Qwen3Config {
    Qwen3Config {
        qk_norm: false,
        ..dense_config()
    }
}

fn int_entry(key: &str, value: u64) -> Entry<IntValue> {
    Entry {
        key: key.to_string(),
        value: IntValue {
            value,
            as_f32: (value as f32).to_bits(),
        },
    }
}

fn tensor(name: &str, dims: &[u64]) -> Entry<TensorInfo> {
    Entry {
        key: name.to_string(),
        value: TensorInfo {
            dims: dims.to_vec(),
            size: dims.iter().product(),
            ty: 0,
            file_offset: 0,
        },
    }
}

fn container(arch: &str) -> Container {
    Container {
        architecture: arch.to_string(),
        ints: vec![],
        floats: vec![],
        texts: vec![],
        float_lists: vec![],
        int_lists: vec![],
        tensors: vec![],
    }
}

#[test]
fn shared_expert_is_routed_separately_from_the_256() {
    let model = Deepseek4Model::new(config_for_test());
    let routed = model.routed_tensor_names();
    assert!(routed.iter().any(|n| n == "blk.0.ffn_gate_exps.weight"));
    assert!(
        !routed.iter().any(|n| n.contains("shexp")),
        "the shared expert must never be streamed"
    );
    assert!(resident_block_suffixes()
        .iter()
        .any(|s| *s == "ffn_gate_shexp.weight"));
    assert!(!resident_block_suffixes().iter().any(|s| s.contains("_exps.")));
}

#[test]
fn every_block_contributes_its_routed_tensors() {
    let model = Deepseek4Model::new(config_for_test());
    assert_eq!(
        model.routed_tensor_names().len(),
        model.config.n_layer as usize * 3
    );
}

#[test]
fn layer_0_gets_plain_rope_and_a_compressed_layer_gets_yarn() {
    let c = config_for_test();
    let want = 1.0 / (1.0 + 0.1 * 16f32.ln());
    assert!(!c.uses_compress_rope(0));
    let plain = c.rope_for_layer(0, want.to_bits());
    assert_eq!(plain.n_ctx_orig, 0);
    assert_eq!(f32::from_bits(plain.params.freq_base), 10_000.0);
    assert_eq!(f32::from_bits(plain.params.freq_scale), 1.0);
    assert_eq!(f32::from_bits(plain.params.ext_factor), 0.0);
    assert_eq!(f32::from_bits(plain.params.attn_factor), 1.0);
    assert_eq!(f32::from_bits(plain.params.beta_fast), 0.0);
    assert_eq!(f32::from_bits(plain.params.beta_slow), 0.0);

    assert!(c.uses_compress_rope(2));
    let yarn = c.rope_for_layer(2, want.to_bits());
    assert_eq!(f32::from_bits(yarn.params.freq_base), 160_000.0);
    assert_eq!(yarn.n_ctx_orig, 65536);
    assert_eq!(f32::from_bits(yarn.params.beta_fast), 32.0);
    assert!((f32::from_bits(yarn.params.attn_factor) - want).abs() < 1e-6);
    assert!(
        f32::from_bits(yarn.params.attn_factor) < 1.0,
        "extension must attenuate"
    );
}

#[test]
fn swiglu_limits_are_per_layer_and_optional() {
    let mut c = config_for_test();
    assert_eq!(c.swiglu_limit(0, false), Some(10.0f32.to_bits()));
    assert_eq!(c.swiglu_limit(0, true), Some(10.0f32.to_bits()));
    c.swiglu_clamp_exp[7] = 0.0f32.to_bits();
    assert_eq!(
        c.swiglu_limit(7, false),
        None,
        "0 means no clamp, not clamp to 0"
    );
    assert_eq!(c.swiglu_limit(99, false), None);
}

#[test]
fn the_extra_compress_ratio_is_never_consulted() {
    let c = config_for_test();
    assert_eq!(c.compress_ratios.len(), 44);
    assert_eq!(c.n_layer, 43);
    let consulted: Vec<bool> = (0..c.n_layer).map(|il| c.uses_compress_rope(il)).collect();
    assert_eq!(consulted.len(), 43);
    assert_eq!(consulted[0], false);
    assert_eq!(consulted[42], true);
}

#[test]
fn dense_and_moe_are_distinguished_by_expert_counts() {
    let dense = dense_config();
    assert!(!dense.is_moe());

    let moe = Qwen3Config {
        n_expert: 128,
        n_expert_used: 8,
        n_ff_expert: 768,
        ..dense_config()
    };
    assert!(moe.is_moe());
}

#[test]
fn attention_scale_is_one_over_sqrt_head_dim() {
    let c = dense_config();
    let mut g = Graph::new();
    let q = g.input(Slot::Queries, 16, 4, 3);
    let k = g.input(Slot::CachedKeys, 16, 2, 3);
    let v = g.input(Slot::CachedValues, 16, 2, 3);
    Qwen3Model::new(c).attention(&mut g, q, k, v, 3);
    let mut seen = 0;
    for node in g.nodes() {
        let op = match node {
            Node::Apply { op, .. } => op,
            _ => continue,
        };
        if let Op::SoftMaxExt {
            scale: AttnScale::InverseSqrt(width),
            ..
        } = op
        {
            let scale = 1.0 / (*width as f32).sqrt();
            assert!((scale - 0.25).abs() < 1e-6, "got {scale}");
            seen += 1;
        }
    }
    assert_eq!(seen, 1);
}

#[test]
fn llama_gets_norm_rope_and_qwen_gets_neox() {
    assert_eq!(rope_type_for("llama"), (ROPE_TYPE_NORM, true));
    assert_eq!(rope_type_for("mistral"), (ROPE_TYPE_NORM, true));
    assert_eq!(rope_type_for("qwen3"), (ROPE_TYPE_NEOX, true));
    assert_eq!(rope_type_for("qwen3moe"), (ROPE_TYPE_NEOX, true));
    assert_eq!(rope_type_for("gemma2"), (ROPE_TYPE_NEOX, true));

    let (ty, known) = rope_type_for("some-model-invented-next-year");
    assert_eq!(ty, ROPE_TYPE_NEOX);
    assert!(!known, "an unknown architecture must not claim to be known");
}

#[test]
fn a_llama_family_container_is_not_asked_for_qk_norm() {
    let m = Qwen3Model::new(dense_config_no_qk_norm());
    let names = m.required_tensors();
    assert!(
        !names.iter().any(|n| n.contains("attn_q_norm")),
        "a model without QK norm must not be asked for it: {names:?}"
    );
    assert!(!names.iter().any(|n| n.contains("attn_k_norm")));
    for il in 0..2 {
        for suffix in [
            "attn_norm.weight",
            "attn_q.weight",
            "attn_k.weight",
            "attn_v.weight",
            "attn_output.weight",
            "ffn_norm.weight",
        ] {
            assert!(
                names.contains(&format!("blk.{il}.{suffix}")),
                "blk.{il}.{suffix} is still required"
            );
        }
    }

    let qwen = Qwen3Model::new(dense_config());
    assert!(qwen
        .required_tensors()
        .contains(&"blk.0.attn_q_norm.weight".to_string()));
}

#[test]
fn required_tensors_cover_every_layer_and_match_the_variant() {
    let dense = Qwen3Model::new(dense_config());
    let names = dense.required_tensors();
    assert!(names.contains(&"token_embd.weight".to_string()));
    assert!(names.contains(&"blk.1.ffn_gate.weight".to_string()));
    assert!(
        !names.iter().any(|n| n.contains("_exps")),
        "dense model must not require expert tensors"
    );

    let moe = Qwen3Model::new(Qwen3Config {
        n_expert: 128,
        n_expert_used: 8,
        ..dense_config()
    });
    let names = moe.required_tensors();
    assert!(names.contains(&"blk.0.ffn_gate_exps.weight".to_string()));
    assert!(
        !names.iter().any(|n| n.ends_with("ffn_gate.weight")),
        "MoE model must not require dense FFN tensors"
    );
}

#[test]
fn every_layer_is_accounted_for() {
    let m = Qwen3Model::new(dense_config());
    let names = m.required_tensors();
    for il in 0..2 {
        assert!(names.contains(&format!("blk.{il}.attn_q_norm.weight")));
        assert!(names.contains(&format!("blk.{il}.attn_k_norm.weight")));
    }
}

#[test]
fn only_checked_architectures_are_called_verified() {
    for arch in ["deepseek4", "gemma2", "llama", "phi3", "qwen3", "qwen3moe"] {
        assert!(architecture_is_verified(arch), "{arch} should be verified");
    }
    for arch in ["gemma", "gemma3", "falcon", "mamba", "something-new"] {
        assert!(
            !architecture_is_verified(arch),
            "{arch} has not been checked and must not claim to be"
        );
    }
    assert_eq!(verified_architecture_names().len(), 7);
}

#[test]
fn a_configuration_is_what_the_container_declares() {
    let mut m = container("llama");
    m.ints = vec![
        int_entry("block_count", 3),
        int_entry("embedding_length", 64),
        int_entry("attention.head_count", 4),
        int_entry("feed_forward_length", 256),
    ];
    m.floats = vec![Entry {
        key: "rope.freq_base".to_string(),
        value: FloatValue {
            bits: 500_000.0f32.to_bits(),
            reciprocal: None,
        },
    }];
    m.tensors = vec![
        tensor("token_embd.weight", &[64, 32_000]),
        tensor("blk.0.attn_q.bias", &[64]),
    ];
    let c = Qwen3Config::from_model(&m).expect("complete");
    assert_eq!((c.n_layer, c.n_embd, c.n_head, c.n_head_kv), (3, 64, 4, 4));
    assert_eq!((c.head_dim, c.n_ff, c.vocab_size), (16, 256, 32_000));
    assert_eq!(f32::from_bits(c.rope_freq_base), 500_000.0);
    assert_eq!(f32::from_bits(c.rms_eps), 1e-6);
    assert_eq!((c.rope_type, c.rope_type_is_known), (ROPE_TYPE_NORM, true));
    assert!(c.attn_bias && !c.qk_norm && !c.is_moe() && !c.scale_embeddings);
    assert_eq!(c.correct_context_limit(), usize::MAX);
}

#[test]
fn an_undeclared_key_is_named() {
    let mut m = container("qwen3");
    m.ints = vec![int_entry("embedding_length", 64)];
    let e = Qwen3Config::from_model(&m).expect_err("incomplete");
    assert_eq!(
        e.message(),
        "container has no metadata key \"qwen3.attention.head_count\""
    );
    let d = Deepseek4Config::from_model(&container("deepseek4")).expect_err("empty");
    assert!(matches!(d, ArchError::MissingMetadata(_)));
}

#[test]
fn an_incomplete_container_is_refused_by_name() {
    let model = Qwen3Model::new(dense_config());
    let mut m = container("qwen3");
    for name in model.required_tensors() {
        if name != "blk.1.attn_k.weight" {
            m.tensors.push(tensor(&name, &[1]));
        }
    }
    let e = model.verify(&m).expect_err("one is missing");
    assert_eq!(e.message(), "container has no tensor \"blk.1.attn_k.weight\"");
    m.tensors.push(tensor("blk.1.attn_k.weight", &[1]));
    assert!(model.verify(&m).is_ok());
    assert_eq!(model.output_weight_name(&m), "token_embd.weight");
    m.tensors.push(tensor("output.weight", &[1]));
    assert_eq!(model.output_weight_name(&m), "output.weight");
}

#[test]
fn errors_say_what_went_wrong() {
    assert_eq!(
        ArchError::Unsupported("mamba".to_string()).message(),
        "no implementation for architecture \"mamba\" (add one in bigtea-arch)"
    );
    assert_eq!(ArchError::Model("read".to_string()).message(), "read");
    assert_eq!(ArchError::Ggml("oom".to_string()).message(), "oom");
    assert_eq!(
        ArchError::Unimplemented("a path").message(),
        "not implemented: a path"
    );
    assert_eq!(
        ArchError::Kv(KvError::WrongSize {
            expected: 1,
            got_k: 2,
            got_v: 3
        })
        .message(),
        "kv cache expected 1 floats per position, got k=2 v=3"
    );
    let long = ArchError::ContextTooLong {
        tokens: 300,
        limit: 256,
    }
    .message();
    assert!(long.starts_with("prompt is 300 tokens; this path holds 256."));
    assert_eq!(
        ArchError::MissingTensor("a\"b\n".to_string()).message(),
        "container has no tensor \"a\\\"b\\n\""
    );
}

#[test]
fn attention_kinds_follow_the_shipped_tensors() {
    let model = Deepseek4Model::new(Deepseek4Config {
        n_layer: 3,
        ..config_for_test()
    });
    let mut m = container("deepseek4");
    m.tensors = vec![
        tensor("blk.1.attn_compressor_kv.weight", &[1]),
        tensor("blk.2.attn_compressor_kv.weight", &[1]),
        tensor("blk.2.indexer.proj.weight", &[1]),
        tensor("stray.weight", &[1]),
    ];
    let plan = model.attention_plan(&m);
    assert_eq!(plan.len(), 3);
    assert!(matches!(plan[0], AttentionKind::Raw));
    assert!(matches!(plan[1], AttentionKind::HeavilyCompressed));
    assert!(matches!(plan[2], AttentionKind::CompressedSparse));
    assert!(model.unclaimed_tensors(&m).contains(&"stray.weight".to_string()));
    assert!(model.verify(&m).is_err());
}

#[test]
fn resident_and_routed_names_never_meet() {
    let model = Deepseek4Model::new(config_for_test());
    let m = container("deepseek4");
    let routed = model.routed_tensor_names();
    for name in model.resident_tensor_names(&m) {
        assert!(!routed.contains(&name), "{name} is in both sets");
    }
    assert_eq!(model.config.n_rot_none(), 448);
    assert_eq!(model.config.hc_dim(), 16_384);
}

#[test]
fn no_tensor_is_required_twice() {
    for bits in 0u32..128 {
        let config = Qwen3Config {
            n_layer: 12,
            post_norms: bits & 1 != 0,
            fused_qkv: bits & 2 != 0,
            attn_bias: bits & 4 != 0,
            qk_norm: bits & 8 != 0,
            fused_gate_up: bits & 16 != 0,
            n_expert: if bits & 32 != 0 { 8 } else { 0 },
            n_expert_used: if bits & 64 != 0 { 2 } else { 0 },
            ..dense_config()
        };
        let mut names = Qwen3Model::new(config).required_tensors();
        let all = names.len();
        names.sort();
        names.dedup();
        assert_eq!(names.len(), all);
    }
}
