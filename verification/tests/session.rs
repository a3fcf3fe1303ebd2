use bigtea_arch::budget::{
    choose_expert_cache, dense_arena_bytes, dense_max_tokens, expert_cache_budget, expert_headroom,
    lock_resident, refuse_dense, report_residency_shortfall, weight_reserve, ExpertCacheChoice,
    Holder, LockAttempt, Shortfall, GIB, MIB,
};
use bigtea_arch::chat::{framed, framed_turn, Framing, Message};
use bigtea_arch::command::{
    infill_tokens, parse_override, unescape, OverrideValue, RopeChange, RopeOverrides, UserTurn,
};
use bigtea_arch::perplexity::{last_row, PerplexityPlan};
use bigtea_arch::qwen3::{Qwen3Config, ROPE_TYPE_NEOX};
use bigtea_arch::run::{Action, LoopAction, Phase, Run, RunOptions, TokenLoop};
use bigtea_arch::session::{
    after_turn, breaker_token, cache_write, check_context, check_prompt, engine_for, grammar_source,
    prefill_block_end, read_mask, refuse_unverified, row_or_all, wanted_breakers, with_bos,
    AfterToken, AfterTurn, CacheWrite, Draw, Engine, GrammarSource, MaskOutcome, Session,
};

fn config() -> Qwen3Config {
    Qwen3Config {
        n_layer: 36,
        n_embd: 2560,
        n_head: 32,
        n_head_kv: 8,
        head_dim: 128,
        n_ff: 9728,
        vocab_size: 151_936,
        rms_eps: 1e-6f32.to_bits(),
        rope_freq_base: 1_000_000.0f32.to_bits(),
        rope_freq_scale: 1.0f32.to_bits(),
        rope_ext_factor: 0.0f32.to_bits(),
        rope_attn_factor: 1.0f32.to_bits(),
        rope_beta_fast: 32.0f32.to_bits(),
        rope_beta_slow: 1.0f32.to_bits(),
        rope_orig_ctx: 0,
        n_expert: 0,
        n_expert_used: 0,
        n_ff_expert: 0,
        qk_norm: true,
        rope_type: ROPE_TYPE_NEOX,
        rope_type_is_known: true,
        attn_bias: false,
        fused_qkv: false,
        fused_gate_up: false,
        post_norms: false,
        scale_embeddings: false,
        attn_logit_softcap: 0,
        final_logit_softcap: 0,
        sliding_window: 0,
    }
}

fn strings(list: &[&str]) -> Vec<String> {
    list.iter().map(|s| s.to_string()).collect()
}

#[test]
fn escapes_are_read_and_unknown_ones_survive() {
    assert_eq!(unescape("one\\ntwo"), "one\ntwo");
    assert_eq!(unescape("\\t\\r\\0\\'\\\"\\\\"), "\t\r\0'\"\\");
    assert_eq!(unescape("C:\\Users\\yes"), "C:\\Users\\yes");
    assert_eq!(unescape("\\x41\\xe9"), "A\u{e9}");
    assert_eq!(unescape("\\x4"), "\\x4");
    assert_eq!(unescape("\\x+5!"), "\\x+5!");
    assert_eq!(unescape("\\xzz"), "\\xzz");
    assert_eq!(unescape("end\\"), "end\\");
    assert_eq!(unescape(""), "");
}

#[test]
fn overrides_are_read_or_refused() {
    let (key, value) = parse_override(" llama.block_count =INT: 12 ").unwrap();
    assert_eq!(key, "llama.block_count");
    assert!(matches!(value, OverrideValue::Int(12)));
    assert!(matches!(
        parse_override("a=u64:-3"),
        Some((_, OverrideValue::Int(-3)))
    ));
    assert!(matches!(
        parse_override("a=bool:1"),
        Some((_, OverrideValue::Flag(true)))
    ));
    assert!(matches!(
        parse_override("a=bool:false"),
        Some((_, OverrideValue::Flag(false)))
    ));
    match parse_override("a=str: x:y=z ") {
        Some((_, OverrideValue::Text(t))) => assert_eq!(t, " x:y=z "),
        _ => panic!("not a text"),
    }
    match parse_override("a=f32: 1e6 ") {
        Some((_, OverrideValue::Real(t))) => assert_eq!(t, "1e6"),
        _ => panic!("not a number"),
    }
    for bad in ["", "a", "a=int", "a=int:x", "a=bool:yes", "a=thing:1", "=:", "k=float:abc"] {
        assert!(parse_override(bad).is_none(), "{bad:?}");
    }
}

#[test]
fn a_real_override_is_what_reads_as_a_float() {
    let texts = [
        "1", "-1.5", "+.5", "5.", ".", "", "-", "+-1", "1e6", "1E-6", "1e+06", "1e", "1e+", "e5",
        ".e1", "1.2.3", "inf", "-Infinity", "NaN", "infinit", "nan0", "1_000", "0x10", "1e5.0",
        "1e99999999999999999999", "12abc", "\u{661}",
    ];
    for text in texts {
        let read = parse_override(&format!("k=f32: {text} "));
        assert_eq!(read.is_some(), text.parse::<f32>().is_ok(), "{text:?}");
        if let Some((key, value)) = read {
            assert_eq!(key, "k");
            assert!(matches!(value, OverrideValue::Real(t) if t == text));
        }
    }
}

#[test]
fn a_turn_is_read_line_by_line() {
    let mut turn = UserTurn::new(true);
    assert!(!turn.read_user_turn("  \n"));
    assert_eq!(turn.text, "");
    assert!(!turn.read_user_turn("first\\\r\n"));
    assert!(turn.read_user_turn("second\n"));
    assert_eq!(turn.text, "first\nsecond");

    let mut plain = UserTurn::new(false);
    assert!(plain.read_user_turn("path\\\n"));
    assert_eq!(plain.text, "path\\");
}

#[test]
fn fill_in_the_middle_tokens_are_control_tokens() {
    let vocabulary = vec![
        Some("PRE".to_string()),
        Some("<|fim_prefix|>".to_string()),
        None,
        Some("<PRE>".to_string()),
        Some("<|im_end|>".to_string()),
        Some(" <EOT>".to_string()),
        Some("<fim_mid".to_string()),
    ];
    assert_eq!(infill_tokens(&vocabulary), vec![1, 3]);
    assert!(infill_tokens(&vec![]).is_empty());
}

#[test]
fn rope_settings_apply_only_where_given() {
    let none = RopeOverrides {
        freq_base: None,
        freq_scale: None,
        scaling: None,
        ext_factor: None,
        attn_factor: None,
        beta_fast: None,
        beta_slow: None,
        orig_ctx: None,
    };
    let mut c = config();
    assert!(none.apply(&mut c).is_empty());
    assert_eq!(c, config());

    let mut yarn = config();
    let change = RopeOverrides {
        scaling: Some("yarn".to_string()),
        orig_ctx: Some(4096),
        ..none
    };
    assert_eq!(
        change.apply(&mut yarn),
        vec![RopeChange::ScalingYarn, RopeChange::OrigCtx(4096)]
    );
    assert_eq!(f32::from_bits(yarn.rope_ext_factor), 1.0);
    assert_eq!(yarn.rope_orig_ctx, 4096);

    let mut off = yarn;
    off.rope_freq_scale = 0.25f32.to_bits();
    let change = RopeOverrides {
        freq_base: Some(7),
        freq_scale: Some(0.5f32.to_bits()),
        scaling: Some("none".to_string()),
        ext_factor: None,
        attn_factor: Some(1),
        beta_fast: Some(2),
        beta_slow: Some(3),
        orig_ctx: None,
    };
    let said = change.apply(&mut off);
    assert_eq!(said.len(), 6);
    assert_eq!(
        said[1],
        RopeChange::FreqScale {
            from: 0.25f32.to_bits(),
            to: 0.5f32.to_bits()
        }
    );
    assert_eq!(f32::from_bits(off.rope_freq_scale), 1.0);
    assert_eq!(f32::from_bits(off.rope_ext_factor), 0.0);
    assert_eq!(
        (off.rope_attn_factor, off.rope_beta_fast, off.rope_beta_slow),
        (1, 2, 3)
    );

    let mut kept = config();
    let change = RopeOverrides {
        freq_base: None,
        freq_scale: None,
        scaling: Some("yarn".to_string()),
        ext_factor: Some(0),
        attn_factor: None,
        beta_fast: None,
        beta_slow: None,
        orig_ctx: None,
    };
    change.apply(&mut kept);
    assert_eq!(kept.rope_ext_factor, 0);
}

#[test]
fn prompts_and_turns_are_framed() {
    assert_eq!(framed("hi", false, None), Framing::Raw("hi".to_string()));
    assert_eq!(
        framed("hi", true, None),
        Framing::Template(vec![Message::new("user", "hi")])
    );
    assert_eq!(
        framed("hi", false, Some("be brief")),
        Framing::Template(vec![
            Message::new("system", "be brief"),
            Message::new("user", "hi")
        ])
    );
    assert_eq!(
        framed_turn("hi", false, "<", ">"),
        Framing::Raw("<hi>".to_string())
    );
    assert_eq!(
        framed_turn("hi", true, "<", ">"),
        Framing::Template(vec![Message::new("user", "hi")])
    );
}

#[test]
fn a_longer_prompt_needs_a_larger_arena() {
    let c = config();
    let one = dense_arena_bytes(&c, 1) as u64;
    let tensors = 32 * 8 + 2560 * 48 + 9728 * 12;
    let data = tensors * 5 / 4 * 36 + 151_936 * 8;
    assert_eq!(one, data + data / 8 + 512 * MIB);
    assert_eq!(dense_arena_bytes(&c, 0), dense_arena_bytes(&c, 1));
    assert!(dense_arena_bytes(&c, 651) > dense_arena_bytes(&c, 650));

    let budget = 4 * GIB;
    let longest = dense_max_tokens(&c, budget);
    assert!(dense_arena_bytes(&c, longest) as u64 <= budget);
    assert!(dense_arena_bytes(&c, longest + 1) as u64 > budget);
    assert_eq!(dense_max_tokens(&c, 0), 1);
    assert_eq!(dense_max_tokens(&c, u64::MAX), 32_768);
}

#[test]
fn a_prompt_that_cannot_fit_is_refused_with_the_numbers() {
    let c = config();
    assert_eq!(refuse_dense(&c, 16, Some(8 * GIB)), None);
    let refusal = refuse_dense(&c, 4000, Some(3 * GIB)).unwrap();
    assert_eq!(refusal.budget, 2 * GIB);
    assert_eq!(refusal.need, dense_arena_bytes(&c, 4000) as u64);
    assert!(refusal.max_tokens < 4000);
    assert_eq!(refuse_dense(&c, 4000, None).unwrap().budget, 3 * GIB);
    assert_eq!(refuse_dense(&c, 16, Some(5)).unwrap().budget, 0);
}

#[test]
fn the_expert_cache_gets_what_is_free() {
    let c = config();
    let h = expert_headroom(&c, 100, 256);
    assert_eq!(h.kv, 36 * 8 * 128 * 4 * 100);
    assert_eq!(h.arenas, 2560 * 256 * 96);
    assert_eq!(h.total, 2 * GIB + h.kv + h.arenas);
    assert_eq!(expert_cache_budget(Some(5), None, h.total), 5);
    assert_eq!(expert_cache_budget(None, None, h.total), GIB);
    assert_eq!(expert_cache_budget(None, Some(1), h.total), GIB);
    assert_eq!(
        expert_cache_budget(None, Some(h.total + 3 * GIB), h.total),
        3 * GIB
    );
    assert_eq!(weight_reserve(1024), 1024 * MIB + 512 * MIB + 768 * MIB);
    assert_eq!(choose_expert_cache(Some(9), 0), ExpertCacheChoice::On(9));
    assert_eq!(
        choose_expert_cache(Some(9), 4),
        ExpertCacheChoice::Refused {
            asked: 9,
            shortfall: 4
        }
    );
    assert_eq!(choose_expert_cache(Some(0), 4), ExpertCacheChoice::Off);
    assert_eq!(choose_expert_cache(None, 4), ExpertCacheChoice::Off);
    assert_eq!(choose_expert_cache(None, 0), ExpertCacheChoice::WorthMeasuring);
}

#[test]
fn a_shortfall_names_what_could_be_closed() {
    let holder = |bytes: u64| Holder {
        name: "editor".to_string(),
        bytes,
        processes: 1,
    };
    assert_eq!(report_residency_shortfall(true, 9, &vec![]), Shortfall::Silent);
    assert_eq!(report_residency_shortfall(false, 0, &vec![]), Shortfall::Silent);
    assert_eq!(
        report_residency_shortfall(false, 9, &vec![]),
        Shortfall::NothingToClose { missing: 9 }
    );
    let five: Vec<Holder> = (0..5).map(|_| holder(3)).collect();
    assert_eq!(
        report_residency_shortfall(false, 20, &five),
        Shortfall::Closeable {
            missing: 20,
            free: 15,
            shown: 4,
            short: 5
        }
    );
    assert_eq!(
        report_residency_shortfall(false, 3, &vec![holder(3)]),
        Shortfall::Closeable {
            missing: 3,
            free: 3,
            shown: 1,
            short: 0
        }
    );
}

#[test]
fn a_failed_lock_is_counted_and_the_first_reason_kept() {
    let attempt = |bytes: u64, failure: Option<&str>| LockAttempt {
        bytes,
        failure: failure.map(|f| f.to_string()),
    };
    let attempts = vec![
        attempt(10, None),
        attempt(5, Some("quota")),
        attempt(7, Some("later")),
    ];
    let report = lock_resident(None, &attempts);
    assert_eq!((report.locked_bytes, report.failed_bytes), (10, 12));
    assert_eq!(report.reason, "quota");
    let refused = lock_resident(Some("no ceiling"), &attempts);
    assert_eq!((refused.locked_bytes, refused.failed_bytes), (0, 22));
    assert_eq!(refused.reason, "no ceiling");
    let all = lock_resident(None, &vec![attempt(10, None)]);
    assert_eq!((all.failed_bytes, all.reason.as_str()), (0, ""));
}

#[test]
fn a_chunk_scores_its_second_half() {
    let plan = PerplexityPlan::new(300, 128).unwrap();
    assert_eq!(plan.chunks, 2);
    assert_eq!((0..128).filter(|&i| plan.is_scored(i)).count(), 63);
    assert!(plan.is_evaluated(0) && plan.is_evaluated(126) && !plan.is_evaluated(127));
    assert_eq!(plan.scored(), 126);
    assert_eq!(plan.chunk(1), (128, 256));
    assert_eq!(plan.check(), Ok(()));
    assert_eq!(
        PerplexityPlan::new(1, 128),
        Err("perplexity needs at least 2 tokens; use -f with a real corpus".to_string())
    );
    assert_eq!(
        PerplexityPlan::new(100, 128).unwrap().check(),
        Err(
            "no chunk reached 2 tokens: the corpus is 100 tokens and --ppl-chunk is 128"
                .to_string()
        )
    );
    assert!(PerplexityPlan::new(10, 2).unwrap().check().is_err());
    assert_eq!(last_row(30, 10), Ok(20));
    assert_eq!(last_row(3, 10), Err("logits too small: 3 < 10".to_string()));
    assert_eq!(row_or_all(30, 10), 20);
    assert_eq!(row_or_all(3, 10), 0);
}

#[test]
fn what_cannot_run_is_refused_before_any_work() {
    assert_eq!(grammar_source(false, false), Ok(GrammarSource::Nothing));
    assert_eq!(grammar_source(true, false), Ok(GrammarSource::Grammar));
    assert_eq!(grammar_source(false, true), Ok(GrammarSource::JsonSchema));
    assert_eq!(
        grammar_source(true, true),
        Err("--grammar and --json-schema are alternatives; pass one".to_string())
    );
    assert_eq!(refuse_unverified("qwen3", false), None);
    assert_eq!(refuse_unverified("mamba", true), None);
    let text = refuse_unverified("mamba", false).unwrap();
    assert!(text.starts_with(
        "\"mamba\" is not an architecture this build has been verified against.\n           \
         verified: deepseek4, gemma2, llama, phi3, qwen2, qwen3, qwen3moe\n\n           It may"
    ));
    assert!(text.ends_with("\n\n           Pass --force to run it anyway."));
    assert_eq!(engine_for("deepseek4", true), Engine::Deepseek4);
    assert_eq!(engine_for("qwen3", true), Engine::Uncached);
    assert_eq!(engine_for("qwen3", false), Engine::Streaming);
    assert_eq!(check_prompt(1, Engine::Streaming), Ok(()));
    assert_eq!(
        check_prompt(0, Engine::Streaming),
        Err("prompt encoded to zero tokens".to_string())
    );
    assert_eq!(
        check_prompt(0, Engine::Deepseek4),
        Err("empty prompt".to_string())
    );
    assert_eq!(check_context(10, 6, usize::MAX, Some(16)), Ok(()));
    assert_eq!(
        check_context(10, 7, usize::MAX, Some(16)),
        Err("prompt is 10 tokens and -n is 7, which exceeds the -c limit of 16".to_string())
    );
    let wrong = check_context(10, 7, 12, None).unwrap_err();
    assert!(wrong.starts_with("prompt is 10 tokens and -n is 7, past the 12 this build can run"));
}

#[test]
fn blocks_follow_one_another_to_the_end() {
    let mut at = 2;
    let mut ends = Vec::new();
    while at < 11 {
        at = prefill_block_end(at, 11, 4);
        ends.push(at);
    }
    assert_eq!(ends, vec![6, 10, 11]);
    assert_eq!(prefill_block_end(0, 3, usize::MAX), 3);
    assert_eq!(cache_write(false, true, false), CacheWrite::Never);
    assert_eq!(cache_write(true, true, true), CacheWrite::Never);
    assert_eq!(cache_write(true, true, false), CacheWrite::AtEnd);
    assert_eq!(cache_write(true, false, false), CacheWrite::AfterPrefill);
}

#[test]
fn a_stop_text_may_straddle_tokens() {
    let mut s = Session::new(vec![1, 2]);
    let none = strings(&[]);
    let stops = strings(&["", "END"]);
    s.begin_turn(8, false, &none);
    assert!(matches!(
        s.before_token(30, 10, false, &none),
        Ok(Draw::Token {
            row: 20,
            masked: false,
            just_armed: false
        })
    ));
    assert_eq!(s.take_token(7, Some(0), "a E", &stops), AfterToken::Evaluate(2));
    assert_eq!(s.take_token(8, Some(0), "ND", &stops), AfterToken::Stopped);
    assert!(matches!(
        s.before_token(30, 10, false, &none),
        Ok(Draw::TurnOver)
    ));
    assert_eq!(s.tokens, vec![1, 2, 7, 8]);
    assert_eq!(s.produced(), 2);
}

#[test]
fn an_end_of_sequence_token_ends_the_turn() {
    let mut s = Session::new(vec![1]);
    let none = strings(&[]);
    s.begin_turn(8, false, &none);
    let after = s.take_token(5, Some(5), "</s>", &none);
    assert_eq!(after, AfterToken::EndOfSequence);
    assert!(!s.advances_grammar(after));
    assert_eq!((s.text.as_str(), s.tokens.len()), ("", 2));
    s.begin_turn(1, false, &none);
    assert_eq!(s.take_token(6, None, "x", &none), AfterToken::Last);
    s.begin_turn(3, true, &none);
    assert!(matches!(
        s.before_token(0, 10, false, &none),
        Ok(Draw::TurnOver)
    ));
}

#[test]
fn a_lazy_grammar_waits_for_its_trigger() {
    let triggers = strings(&["", "CALL"]);
    let none = strings(&[]);
    let mut s = Session::new(vec![1]);
    s.begin_turn(9, false, &triggers);
    assert!(matches!(
        s.before_token(10, 10, true, &triggers),
        Ok(Draw::Token { masked: false, .. })
    ));
    let after = s.take_token(2, None, "prose CA", &none);
    assert!(!s.advances_grammar(after));
    s.take_token(3, None, "LL", &none);
    assert!(matches!(
        s.before_token(10, 10, true, &triggers),
        Ok(Draw::Token {
            masked: true,
            just_armed: true,
            ..
        })
    ));
    let after = s.take_token(4, None, "{", &none);
    assert!(s.advances_grammar(after));
    assert!(matches!(
        s.before_token(10, 10, true, &triggers),
        Ok(Draw::Token {
            masked: true,
            just_armed: false,
            ..
        })
    ));
    assert_eq!(read_mask(false, false), MaskOutcome::Apply);
    assert_eq!(read_mask(true, true), MaskOutcome::Satisfied);
    assert_eq!(read_mask(true, false), MaskOutcome::Stuck);
}

#[test]
fn too_few_logits_fail_the_turn() {
    let mut s = Session::new(vec![1]);
    let none = strings(&[]);
    s.begin_turn(2, false, &none);
    assert_eq!(
        s.before_token(9, 10, false, &none).unwrap_err(),
        "logits too small: 9 < 10"
    );
}

#[test]
fn what_the_user_says_goes_behind_what_was_evaluated() {
    let mut s = Session::new(vec![1, 2, 3]);
    let none = strings(&[]);
    s.begin_turn(2, false, &none);
    s.take_token(4, None, "a", &none);
    s.take_token(5, None, "b", &none);
    assert_eq!(s.hear(&vec![8, 9]), 4);
    assert_eq!(s.tokens, vec![1, 2, 3, 4, 5, 8, 9]);
    assert_eq!(s.evaluated, 6);
    assert_eq!(after_turn(true, false), AfterTurn::AskUser);
    assert_eq!(after_turn(true, true), AfterTurn::Finish);
    assert_eq!(after_turn(false, false), AfterTurn::Finish);
    assert_eq!(with_bos(vec![5], true, Some(1)), vec![1, 5]);
    assert_eq!(with_bos(vec![5], true, None), vec![5]);
    assert_eq!(with_bos(vec![5], false, Some(1)), vec![5]);
}

#[test]
fn breakers_are_single_tokens() {
    assert_eq!(breaker_token(&vec![1, 40], Some(1)), Some(40));
    assert_eq!(breaker_token(&vec![40], None), Some(40));
    assert_eq!(breaker_token(&vec![40, 41], None), None);
    assert_eq!(breaker_token(&vec![1], Some(1)), None);
    assert_eq!(wanted_breakers(vec![]), strings(&["\n", ":", "\"", "*"]));
    assert_eq!(wanted_breakers(strings(&["x"])), strings(&["x"]));
}

fn options() -> RunOptions {
    RunOptions {
        perplexity: false,
        warmup: false,
        block: 2,
        vocab: 10,
        n_predict: 2,
        eos: Some(0),
        constrained: false,
        write: CacheWrite::AfterPrefill,
        interactive: false,
        single_turn: false,
        interactive_first: false,
    }
}

#[test]
fn a_plain_run_prefills_saves_generates_and_ends() {
    let mut run = Run::new(options(), vec![], vec![], vec![1, 2, 3]);
    assert_eq!(run.begin(), Action::Restore);
    assert_eq!(run.restored(0), Ok(Action::Prefill { from: 0, to: 2 }));
    assert_eq!(run.evaluated(20), Ok(Action::Prefill { from: 2, to: 3 }));
    assert_eq!(run.evaluated(10), Ok(Action::Save));
    assert_eq!(
        run.done(),
        Ok(Action::Draw {
            row: 0,
            masked: false
        })
    );
    assert_eq!(
        run.drawn(7, "a"),
        (
            AfterToken::Evaluate(3),
            true,
            Action::EvaluateToken { at: 3 }
        )
    );
    assert_eq!(
        run.evaluated(10),
        Ok(Action::Draw {
            row: 0,
            masked: false
        })
    );
    assert_eq!(run.drawn(8, "b"), (AfterToken::Last, true, Action::Finish));
    assert_eq!(run.phase, Phase::Finished);
    assert_eq!(run.session.tokens, vec![1, 2, 3, 7, 8]);
}

#[test]
fn an_interactive_run_takes_turns_and_saves_at_the_end() {
    let mut run = Run::new(
        RunOptions {
            warmup: true,
            write: CacheWrite::AtEnd,
            interactive: true,
            interactive_first: true,
            n_predict: 1,
            ..options()
        },
        vec![],
        vec![],
        vec![1, 2, 3],
    );
    assert_eq!(run.begin(), Action::WarmUp);
    assert_eq!(run.done(), Ok(Action::Restore));
    assert_eq!(run.restored(2), Ok(Action::Prefill { from: 2, to: 3 }));
    assert_eq!(run.evaluated(10), Ok(Action::AskUser));
    assert_eq!(run.heard(Some(vec![4, 5])), Ok(Action::EvaluateTurn { at: 3 }));
    assert_eq!(
        run.evaluated(10),
        Ok(Action::Draw {
            row: 0,
            masked: false
        })
    );
    assert_eq!(
        run.drawn(0, ""),
        (AfterToken::EndOfSequence, false, Action::AskUser)
    );
    assert_eq!(
        run.heard(Some(vec![])),
        Ok(Action::Draw {
            row: 0,
            masked: false
        })
    );
    run.drawn(6, "x");
    assert_eq!(run.heard(None), Ok(Action::Save));
    assert_eq!(run.done(), Ok(Action::Finish));
}

#[test]
fn a_constrained_run_asks_for_masks() {
    let mut run = Run::new(
        RunOptions {
            constrained: true,
            write: CacheWrite::Never,
            ..options()
        },
        vec![],
        vec![],
        vec![1],
    );
    run.begin();
    assert_eq!(run.restored(0), Ok(Action::Prefill { from: 0, to: 1 }));
    assert_eq!(run.evaluated(12), Ok(Action::Mask { row: 2 }));
    assert_eq!(
        run.masked(false, false),
        (
            MaskOutcome::Apply,
            Action::Draw {
                row: 2,
                masked: true
            }
        )
    );
    run.drawn(5, "{");
    assert_eq!(run.evaluated(12), Ok(Action::Mask { row: 2 }));
    assert_eq!(
        run.masked(true, false),
        (MaskOutcome::Stuck, Action::Finish)
    );

    let mut short = Run::new(options(), vec![], vec![], vec![1]);
    short.begin();
    assert_eq!(short.restored(0), Ok(Action::Prefill { from: 0, to: 1 }));
    short.evaluated(4).unwrap();
    assert_eq!(short.done(), Err("logits too small: 4 < 10".to_string()));

    let mut score = Run::new(
        RunOptions {
            perplexity: true,
            ..options()
        },
        vec![],
        vec![],
        vec![1],
    );
    assert_eq!(score.begin(), Action::Score);
    assert_eq!(score.done(), Ok(Action::Finish));
}

#[test]
fn a_plain_loop_draws_what_is_wanted() {
    let mut l = TokenLoop::new(vec![1, 2], 3);
    assert_eq!(l.take(5), LoopAction::Step(5));
    assert_eq!(l.take(6), LoopAction::Step(6));
    assert_eq!(l.take(7), LoopAction::Finish);
    assert_eq!(l.history, vec![1, 2, 5, 6]);
    assert_eq!(l.drawn, vec![5, 6, 7]);
    let mut none = TokenLoop::new(vec![1], 0);
    assert_eq!(none.take(9), LoopAction::Finish);
}

#[test]
fn an_end_of_sequence_ends_a_plain_loop_and_is_not_kept() {
    let mut l = TokenLoop::new(vec![1, 2], 3);
    assert_eq!(l.take_until(5, Some(9)), LoopAction::Step(5));
    assert_eq!(l.take_until(9, Some(9)), LoopAction::Finish);
    assert_eq!(l.history, vec![1, 2, 5]);
    assert_eq!(l.drawn, vec![5]);
    let mut whole = TokenLoop::new(vec![1], 2);
    assert_eq!(whole.take_until(9, None), LoopAction::Step(9));
    assert_eq!(whole.take_until(8, Some(9)), LoopAction::Finish);
    assert_eq!(whole.drawn, vec![9, 8]);
}

#[test]
fn a_run_begins_with_nothing_said() {
    let run = Run::new(
        RunOptions {
            interactive_first: true,
            ..options()
        },
        vec![],
        vec![],
        vec![1, 2, 3],
    );
    assert_eq!(run.phase, Phase::Ready);
    assert_eq!((run.logits, run.skip), (0, true));
    assert_eq!(run.session.tokens, vec![1, 2, 3]);
    assert_eq!((run.session.prompt_len, run.session.evaluated), (3, 3));
    assert_eq!((run.session.step, run.session.this_turn), (0, 0));
    assert!(run.session.text.is_empty() && !run.session.armed);
}
