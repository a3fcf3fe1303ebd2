use bigtea_arch::kv::{KvCache, KvRow, KvType};
use bigtea_arch::prompt_cache::{common_prefix, reuse, PromptCache, SavedPrompt};
use bigtea_arch::qwen3::{Qwen3Config, ROPE_TYPE_NEOX};
use bigtea_arch::token_writer::{whole_prefix, Shown, TokenWriter, COLOR_GEN, COLOR_OFF};

fn config() -> Qwen3Config {
    Qwen3Config {
        n_layer: 2,
        n_embd: 4,
        n_head: 1,
        n_head_kv: 1,
        head_dim: 2,
        n_ff: 8,
        vocab_size: 16,
        rms_eps: 0,
        rope_freq_base: 0,
        rope_freq_scale: 0,
        rope_ext_factor: 0,
        rope_attn_factor: 0,
        rope_beta_fast: 0,
        rope_beta_slow: 0,
        rope_orig_ctx: 0,
        n_expert: 0,
        n_expert_used: 0,
        n_ff_expert: 0,
        qk_norm: false,
        rope_type: ROPE_TYPE_NEOX,
        rope_type_is_known: true,
        attn_bias: false,
        fused_qkv: false,
        fused_gate_up: false,
        post_norms: false,
        scale_embeddings: false,
        attn_logit_softcap: 0,
        final_logit_softcap: 0,
        sliding_window: 0,
    }
}

fn filled(n: u16) -> KvCache {
    let mut cache = KvCache::new(2, 1, 2);
    for i in 0..n {
        for layer in 0..2 {
            let k = KvRow::Halves(vec![i, 100 + i]);
            let v = KvRow::Halves(vec![200 + i, 300 + layer as u16]);
            cache.push(layer, &k, &v).unwrap();
        }
        cache.advance();
    }
    cache
}

#[test]
fn a_saved_prompt_loads_back() {
    let cache = filled(3);
    let tokens = vec![5, 6, 7];
    let print = PromptCache::fingerprint(&config(), KvType::F16);
    let data = PromptCache::save(print, &cache, &tokens);
    assert_eq!(&data[..4], b"BTPC");
    assert_eq!(data.len(), 32 + 12 + 2 * 2 * (8 + 12));
    let saved = PromptCache::load(&data, print).expect("intact");
    assert_eq!(saved.tokens, tokens);
    assert_eq!(saved.layers.len(), 2);
    assert_eq!(saved.positions, 3);
    assert_eq!(saved.layers[0].0, cache.keys(0));
    assert_eq!(saved.layers[1].1, cache.values(1));
}

#[test]
fn another_shape_or_a_cut_file_loads_nothing() {
    let cache = filled(2);
    let print = PromptCache::fingerprint(&config(), KvType::F16);
    let data = PromptCache::save(print, &cache, &vec![1, 2]);
    let other = Qwen3Config {
        n_head: 2,
        ..config()
    };
    assert_ne!(PromptCache::fingerprint(&other, KvType::F16), print);
    assert_ne!(PromptCache::fingerprint(&config(), KvType::Q8_0), print);
    assert!(PromptCache::load(&data, print ^ 1).is_none());
    for n in 0..data.len() {
        assert!(PromptCache::load(&data[..n], print).is_none(), "cut at {n}");
    }
    let mut wrong = data.clone();
    wrong[4] = 2;
    assert!(PromptCache::load(&wrong, print).is_none());
    wrong[4] = 1;
    wrong[0] = b'X';
    assert!(PromptCache::load(&wrong, print).is_none());
}

#[test]
fn a_history_is_reused_up_to_the_first_difference() {
    assert_eq!(common_prefix(&[1, 2, 3], &[1, 2, 4]), 2);
    assert_eq!(common_prefix(&[], &[1]), 0);
    let print = PromptCache::fingerprint(&config(), KvType::F16);
    let from = filled(3);
    let data = PromptCache::save(print, &from, &vec![1, 2, 3]);
    let saved = PromptCache::load(&data, print).unwrap();

    let mut cache = KvCache::new(2, 1, 2);
    assert_eq!(reuse(&mut cache, &saved, &vec![1, 2, 9, 9]), Some(2));
    assert_eq!(cache.len(), 2);
    assert!(cache.is_consistent());
    assert_eq!(cache.keys(0), &from.keys(0)[..8]);

    let mut same = KvCache::new(2, 1, 2);
    assert_eq!(reuse(&mut same, &saved, &vec![1, 2, 3]), Some(2));

    let mut none = KvCache::new(2, 1, 2);
    assert_eq!(reuse(&mut none, &saved, &vec![8, 2, 3]), Some(0));
    assert!(none.is_empty());

    let broken = SavedPrompt {
        tokens: vec![1, 2, 3],
        positions: 3,
        layers: vec![(vec![0; 12], vec![0; 12]), (vec![0; 11], vec![0; 11])],
    };
    let mut cleared = KvCache::new(2, 1, 2);
    assert_eq!(reuse(&mut cleared, &broken, &vec![1, 2, 3]), None);
    assert!(cleared.is_empty() && cleared.bytes() == 0);
}

#[test]
fn tokens_that_were_never_evaluated_are_not_reused() {
    let print = PromptCache::fingerprint(&config(), KvType::F16);
    let from = filled(1);
    let data = PromptCache::save(print, &from, &vec![1, 2]);
    let saved = PromptCache::load(&data, print).unwrap();
    assert_eq!(saved.positions, 1);
    let mut cache = KvCache::new(2, 1, 2);
    assert_eq!(reuse(&mut cache, &saved, &vec![1, 2, 3, 4]), Some(1));
    assert_eq!(cache.len(), 1);
    assert!(cache.is_consistent());
    assert_eq!(cache.keys(1), from.keys(1));
}

#[test]
fn positions_that_the_layers_do_not_hold_empty_the_history() {
    let print = PromptCache::fingerprint(&config(), KvType::F16);
    let mut data = PromptCache::save(print, &filled(3), &vec![1, 2, 3]);
    data[24] = 2;
    let saved = PromptCache::load(&data, print).unwrap();
    let mut cache = filled(1);
    assert_eq!(reuse(&mut cache, &saved, &vec![1, 2, 3, 4]), None);
    assert!(cache.is_empty() && cache.bytes() == 0);
}

#[test]
fn a_character_is_held_back_until_it_is_whole() {
    let mut w = TokenWriter::new();
    let face = "\u{1f600}".as_bytes();
    assert_eq!(w.push(b"a"), b"a");
    assert!(w.push(&face[..2]).is_empty());
    assert!(w.push(&face[2..3]).is_empty());
    assert_eq!(w.push(&face[3..]), face);
    assert!(w.finish().is_empty());
    assert!(w.push(&[0xC3]).is_empty());
    assert_eq!(w.finish(), vec![0xC3]);
    assert!(w.finish().is_empty());
}

#[test]
fn whole_prefixes_agree_with_utf8() {
    let samples: Vec<Vec<u8>> = vec![
        "plain".as_bytes().to_vec(),
        "h\u{e9}\u{4e16}\u{1f600}".as_bytes().to_vec(),
        vec![0xC0, 0x80],
        vec![0xED, 0xA0, 0x80],
        vec![0xF4, 0x90, 0x80, 0x80],
        vec![b'a', 0xE4, 0xB8],
        vec![0xFF],
    ];
    for bytes in samples {
        let want = match std::str::from_utf8(&bytes) {
            Ok(_) => bytes.len(),
            Err(e) => e.valid_up_to(),
        };
        assert_eq!(whole_prefix(&bytes), want, "{bytes:?}");
    }
}

#[test]
fn colour_and_control_tokens_are_shown_as_asked() {
    let color = Shown {
        color: true,
        special: true,
    };
    let mut w = TokenWriter::new();
    let first = w.push_visible(b"x", None, color);
    assert_eq!(first, [COLOR_GEN.as_bytes(), b"x"].concat());
    assert_eq!(w.push_visible(b"y", None, color), b"y");
    let shown = w.push_visible(b"", Some("<|im_end|>"), color);
    assert_eq!(
        shown,
        [COLOR_OFF, "<|im_end|>", COLOR_GEN].concat().into_bytes()
    );
    let mut plain = TokenWriter::new();
    let hidden = Shown {
        color: false,
        special: false,
    };
    assert!(plain.push_visible(b"", Some("<|im_end|>"), hidden).is_empty());
}
