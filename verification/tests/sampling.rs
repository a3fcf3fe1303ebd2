use bigtea_arch::bench::{
    batches, check_repeats, choose_device, expert_ids, kernel_arena, rows_per_thread, series_pass,
    synthetic_prompt, thread_sweep, top2, verdict, DeviceKind, SeriesPass, Upload, Verdict,
};
use bigtea_arch::random::SplitMix64;
use bigtea_arch::sample::{
    apply_xtc, argmax, best_candidate, candidates, keep_top_k, penalty_counts, rank, suppress_eos,
    uses, SamplePath, Sampler, SamplerConfig,
};
use bigtea_arch::sample_steps::{
    apply_min_p, apply_penalties, apply_top_n_sigma, apply_top_p, apply_typical_p, by_typicality,
    drawn, sample_mirostat, sigma_values, Scale, Step,
};

fn bits(values: &[f32]) -> Vec<u32> {
    values.iter().map(|v| v.to_bits()).collect()
}

fn pairs(values: &[(u32, f32)]) -> Vec<(u32, u32)> {
    values.iter().map(|(id, v)| (*id, v.to_bits())).collect()
}

fn logits() -> Vec<f32> {
    vec![0.0, 2.0, -1.0, 5.0, 1.0]
}

fn value_of(c: &(u32, u32)) -> f32 {
    f32::from_bits(c.1)
}

/// The arithmetic of a penalised list of candidates.
fn penalise(list: &mut Vec<(u32, u32)>, c: &SamplerConfig, history: &[u32]) {
    let penalties = apply_penalties(c, history, list);
    for (x, penalty) in list.iter_mut().zip(penalties) {
        let Some(penalty) = penalty else { continue };
        let scaled = match penalty.scale {
            Scale::Keep => value_of(x),
            Scale::Divide => value_of(x) / f32::from_bits(c.repeat_penalty),
            Scale::Multiply => value_of(x) * f32::from_bits(c.repeat_penalty),
        };
        let lowered = penalty.uses as f32 * f32::from_bits(c.frequency_penalty)
            + f32::from_bits(c.presence_penalty);
        x.1 = (scaled - lowered).to_bits();
    }
}

fn penalised(
    c: &mut [(u32, f32)],
    history: &[u32],
    repeat: f32,
    frequency: f32,
    presence: f32,
    last_n: usize,
) {
    let config = SamplerConfig {
        repeat_penalty: repeat.to_bits(),
        frequency_penalty: frequency.to_bits(),
        presence_penalty: presence.to_bits(),
        repeat_last_n: last_n,
        ..SamplerConfig::default()
    };
    let mut list = pairs(c);
    penalise(&mut list, &config, history);
    for (x, y) in c.iter_mut().zip(list) {
        *x = (y.0, f32::from_bits(y.1));
    }
}

fn sums(list: &[(u32, u32)]) -> Vec<u32> {
    let mut total = 0.0f32;
    list.iter()
        .map(|c| {
            total += value_of(c);
            total.to_bits()
        })
        .collect()
}

fn renormalise(list: &mut [(u32, u32)]) {
    let total: f32 = list.iter().map(value_of).sum();
    if total > 0.0 {
        for c in list.iter_mut() {
            c.1 = (value_of(c) / total).to_bits();
        }
    }
}

fn entropy(list: &[(u32, u32)]) -> f32 {
    -list.iter().map(value_of).filter(|&p| p > 0.0).map(|p| p * p.ln()).sum::<f32>()
}

fn top_p(list: &mut Vec<(u32, u32)>, p: f32) {
    let along = sums(list);
    if apply_top_p(list, &along, p.to_bits()) {
        renormalise(list);
    }
}

fn min_p(list: &mut Vec<(u32, u32)>, p: f32) {
    let floor = p * list.first().map(value_of).unwrap_or(0.0);
    if apply_min_p(list, p.to_bits(), floor.to_bits()) {
        renormalise(list);
    }
}

fn top_n_sigma(list: &mut Vec<(u32, u32)>, n: f32) {
    let Some(values) = sigma_values(list, n.to_bits()) else { return };
    let values: Vec<f32> = values.into_iter().map(f32::from_bits).collect();
    let max = values.iter().copied().fold(f32::NEG_INFINITY, f32::max);
    let mean = values.iter().sum::<f32>() / values.len() as f32;
    let var = values.iter().map(|l| (l - mean) * (l - mean)).sum::<f32>() / values.len() as f32;
    let sigma = var.sqrt();
    apply_top_n_sigma(list, sigma.to_bits(), (max - n * sigma).to_bits());
}

fn typical_p(list: &mut Vec<(u32, u32)>, p: f32) {
    let expected = entropy(list);
    let distances: Vec<u32> = list
        .iter()
        .map(|c| (-value_of(c).max(1e-30).ln() - expected).abs().to_bits())
        .collect();
    let order = by_typicality(&distances);
    let along: Vec<(u32, u32)> = order.iter().map(|&at| list[at as usize]).collect();
    apply_typical_p(list, &order, &sums(&along), p.to_bits());
}

fn warm(list: &mut [(u32, u32)], temperature: f32) {
    if (temperature - 1.0).abs() <= f32::EPSILON {
        return;
    }
    let inverse = 1.0 / temperature.max(1e-6);
    for c in list.iter_mut() {
        c.1 = value_of(c).powf(inverse).to_bits();
    }
    renormalise(list);
}

/// A token, chosen step by step; `mu` is mirostat's budget.
fn sampled(sampler: &mut Sampler, mu: &mut f32, logits: &[f32], history: &[u32]) -> u32 {
    let c = sampler.config().clone();
    let mut list = candidates(&bits(logits));
    for step in sampler.sample(logits.len()) {
        match step {
            Step::Nothing => return 0,
            Step::Greedy => return argmax(&bits(logits)),
            Step::Bias => {
                for &(id, bias) in &c.logit_bias {
                    if let Some(x) = list.get_mut(id as usize) {
                        x.1 = (value_of(x) + f32::from_bits(bias)).to_bits();
                    }
                }
            }
            Step::SuppressEos => suppress_eos(&mut list, &c),
            Step::Penalise => penalise(&mut list, &c, history),
            Step::PickBest => return best_candidate(&list),
            Step::Rank => rank(&mut list),
            Step::TopNSigma => top_n_sigma(&mut list, f32::from_bits(c.top_n_sigma)),
            Step::TopK => keep_top_k(&mut list, c.top_k),
            Step::Softmax => {
                let max = list.first().map(value_of).unwrap_or(0.0);
                for x in list.iter_mut() {
                    x.1 = (value_of(x) - max).exp().to_bits();
                }
                renormalise(&mut list);
            }
            Step::Mirostat { temperature } => {
                sample_mirostat(&mut list, 2f32.powf(-*mu).to_bits());
                warm(&mut list, f32::from_bits(temperature));
                let r = sampler.next_uniform() as f32 / (1u32 << 24) as f32;
                let at = drawn(&sums(&list), r.to_bits()).unwrap_or(0);
                let observed = -value_of(&list[at]).max(1e-30).log2();
                *mu -= f32::from_bits(c.mirostat_eta) * (observed - f32::from_bits(c.mirostat_tau));
                *mu = mu.clamp(0.0, 100.0);
                return list[at].0;
            }
            Step::TypicalP => typical_p(&mut list, f32::from_bits(c.typical_p)),
            Step::TopP => top_p(&mut list, f32::from_bits(c.top_p)),
            Step::MinP => min_p(&mut list, f32::from_bits(c.min_p)),
            Step::Xtc => {
                let r = sampler.next_uniform() as f32 / (1u32 << 24) as f32;
                apply_xtc(&mut list, c.xtc_probability, c.xtc_threshold, r.to_bits());
            }
            Step::Temperature { .. } => warm(&mut list, f32::from_bits(c.temperature)),
            Step::Draw => {
                let r = sampler.next_uniform() as f32 / (1u32 << 24) as f32;
                return drawn(&sums(&list), r.to_bits()).map(|at| list[at].0).unwrap_or(0);
            }
        }
    }
    unreachable!()
}

/// One token of a fresh sampler.
fn chosen(config: SamplerConfig, logits: &[f32], history: &[u32]) -> u32 {
    let mut mu = 2.0 * f32::from_bits(config.mirostat_tau);
    sampled(&mut Sampler::new(config), &mut mu, logits, history)
}

#[test]
fn the_same_seed_reproduces_the_same_sequence() {
    let cfg = SamplerConfig {
        temperature: 1.0f32.to_bits(),
        seed: 42,
        ..SamplerConfig::default()
    };
    let run = |c: SamplerConfig| {
        let mut s = Sampler::new(c);
        let mut mu = 0.0;
        (0..32)
            .map(|_| sampled(&mut s, &mut mu, &logits(), &[]))
            .collect::<Vec<_>>()
    };
    assert_eq!(run(cfg.clone()), run(cfg.clone()));
    let other = SamplerConfig {
        seed: 43,
        ..cfg.clone()
    };
    assert_ne!(run(cfg), run(other), "a different seed must differ");
}

#[test]
fn top_k_one_is_greedy_however_hot_the_temperature() {
    let mut s = Sampler::new(SamplerConfig {
        temperature: 5.0f32.to_bits(),
        top_k: 1,
        ..SamplerConfig::default()
    });
    let mut mu = 0.0;
    for _ in 0..32 {
        assert_eq!(sampled(&mut s, &mut mu, &logits(), &[]), 3);
    }
}

#[test]
fn temperature_widens_the_distribution() {
    let count = |t: f32| {
        let mut s = Sampler::new(SamplerConfig {
            temperature: t.to_bits(),
            seed: 7,
            ..SamplerConfig::default()
        });
        let mut mu = 0.0;
        (0..400)
            .filter(|_| sampled(&mut s, &mut mu, &logits(), &[]) == 3)
            .count()
    };
    let cold = count(0.1);
    let hot = count(3.0);
    assert!(cold > 380, "cold sampling should be near-greedy: {cold}");
    assert!(hot < cold, "hot {hot} must be more varied than cold {cold}");
}

#[test]
fn top_p_keeps_a_prefix_and_min_p_scales_with_confidence() {
    let mut c = pairs(&[(0, 0.6), (1, 0.3), (2, 0.07), (3, 0.03)]);
    top_p(&mut c, 0.9);
    assert_eq!(c.len(), 2, "0.6 + 0.3 crosses 0.9, so two are kept");
    assert!((c.iter().map(value_of).sum::<f32>() - 1.0).abs() < 1e-5);

    let mut confident = pairs(&[(0, 0.9), (1, 0.06), (2, 0.04)]);
    min_p(&mut confident, 0.1);
    assert_eq!(confident.len(), 1, "0.09 floor drops both tails");

    let mut unsure = pairs(&[(0, 0.3), (1, 0.28), (2, 0.24), (3, 0.18)]);
    min_p(&mut unsure, 0.1);
    assert_eq!(unsure.len(), 4, "a flat distribution keeps everything");
}

#[test]
fn a_filter_never_empties_the_candidate_list() {
    let mut c = pairs(&[(9, 1.0)]);
    top_p(&mut c, 0.0);
    assert_eq!(c.len(), 1);
    assert_eq!(c[0].0, 9);

    let mut c = pairs(&[(9, 0.5), (1, 0.5)]);
    min_p(&mut c, 1.5);
    assert_eq!(c.len(), 1);

    let mut c = pairs(&[(9, 0.5), (1, 0.5)]);
    sample_mirostat(&mut c, 0.9f32.to_bits());
    assert_eq!(c, pairs(&[(9, 0.5)]));
}

#[test]
fn top_n_sigma_cuts_by_logit_spread() {
    let mut c = pairs(&[(0, 10.0), (1, 9.8), (2, 9.6), (3, 9.4), (4, -5.0)]);
    top_n_sigma(&mut c, 1.0);
    assert!(c.iter().all(|x| x.0 != 4), "the outlier must go: {c:?}");
    assert_eq!(c.len(), 4);
    let mut c = pairs(&[(0, 10.0), (4, -5.0)]);
    top_n_sigma(&mut c, 0.0);
    assert_eq!(c.len(), 2);
    let endless = pairs(&[(0, f32::INFINITY), (1, 1.0), (2, 0.0)]);
    assert_eq!(sigma_values(&endless, 1.0f32.to_bits()), None);
    let odd = pairs(&[(0, f32::NAN), (1, 1.0), (2, f32::NEG_INFINITY), (3, 0.5)]);
    assert_eq!(
        sigma_values(&odd, 1.0f32.to_bits()),
        Some(bits(&[1.0, 0.5]))
    );
    let mut flat = pairs(&[(0, 1.0), (1, 1.0)]);
    apply_top_n_sigma(&mut flat, 0.0f32.to_bits(), 2.0f32.to_bits());
    assert_eq!(flat.len(), 2, "no spread, no cut");
}

#[test]
fn typical_p_keeps_a_normalised_prefix_and_stays_sorted() {
    let mut c = pairs(&[(0, 0.6), (1, 0.2), (2, 0.15), (3, 0.05)]);
    typical_p(&mut c, 0.5);
    assert!(!c.is_empty() && c.len() < 4, "it must actually cut: {c:?}");
    for w in c.windows(2) {
        assert!(value_of(&w[0]) >= value_of(&w[1]), "not sorted: {c:?}");
    }
    let mut c = pairs(&[(0, 0.6), (1, 0.4)]);
    typical_p(&mut c, 1.0);
    assert_eq!(c.len(), 2);
    assert_eq!(by_typicality(&bits(&[0.3, 0.1, 0.2])), vec![1, 2, 0]);
}

#[test]
fn mirostat_alone_is_not_greedy() {
    let cfg = SamplerConfig {
        mirostat: 2,
        seed: 11,
        ..SamplerConfig::default()
    };
    assert!(!cfg.is_greedy(), "mirostat must not be treated as greedy");
    let logits = [2.0f32, 1.9, 1.8, 1.7];
    let mut mu = 2.0 * f32::from_bits(cfg.mirostat_tau);
    let mut s = Sampler::new(cfg);
    let drawn: std::collections::HashSet<u32> = (0..64)
        .map(|_| sampled(&mut s, &mut mu, &logits, &[]))
        .collect();
    assert!(drawn.len() > 1, "mirostat returned one token every time");
}

#[test]
fn mirostat_moves_its_budget_toward_the_target_surprise() {
    let config = |tau: f32| SamplerConfig {
        mirostat: 2,
        temperature: 1.0f32.to_bits(),
        mirostat_tau: tau.to_bits(),
        mirostat_eta: 0.5f32.to_bits(),
        ..SamplerConfig::default()
    };
    let mut s = Sampler::new(config(3.0));
    let start = 2.0 * f32::from_bits(s.config().mirostat_tau);
    assert_eq!(start, 6.0, "mu starts at 2 * tau");
    let mut mu = start;
    for _ in 0..12 {
        sampled(&mut s, &mut mu, &[20.0, 0.0, -5.0, -8.0], &[]);
    }
    assert!(mu > start, "unsurprising text should loosen the budget: {mu}");
    assert!(mu.is_finite() && mu <= 100.0, "mu must stay bounded");

    let mut s2 = Sampler::new(config(1.0));
    let flat: Vec<f32> = vec![0.0; 64];
    let before = 2.0f32;
    let mut mu = before;
    for _ in 0..12 {
        sampled(&mut s2, &mut mu, &flat, &[]);
    }
    assert!(mu < before, "surprising text should tighten the budget: {mu}");
}

#[test]
fn the_three_penalties_compose_in_llamacpp_s_order() {
    let mut c = vec![(0u32, 8.0f32)];
    penalised(&mut c, &[0], 2.0, 1.0, 3.0, 64);
    assert_eq!(c[0].1, 0.0);
}

#[test]
fn every_choice_goes_through_its_steps_in_order() {
    let steps = |c: SamplerConfig| Sampler::new(c).sample(4);
    assert_eq!(steps(SamplerConfig::default()), vec![Step::Greedy]);
    assert_eq!(
        Sampler::new(SamplerConfig::llamacpp_defaults()).sample(0),
        vec![Step::Nothing]
    );
    assert_eq!(
        steps(SamplerConfig {
            temperature: 0.7f32.to_bits(),
            xtc_probability: 0.5f32.to_bits(),
            ..SamplerConfig::default()
        }),
        vec![
            Step::Bias,
            Step::SuppressEos,
            Step::Penalise,
            Step::Rank,
            Step::TopNSigma,
            Step::TopK,
            Step::Softmax,
            Step::TypicalP,
            Step::TopP,
            Step::MinP,
            Step::Xtc,
            Step::Temperature { dynamic: false },
            Step::Draw,
        ]
    );
    assert_eq!(
        steps(SamplerConfig {
            ignore_eos: true,
            ..SamplerConfig::default()
        }),
        vec![Step::Bias, Step::SuppressEos, Step::Penalise, Step::PickBest]
    );
}

#[test]
fn a_draw_lands_where_its_total_is_passed() {
    let along = bits(&[0.25, 0.75, 0.99]);
    assert_eq!(drawn(&along, 0.0f32.to_bits()), Some(0));
    assert_eq!(drawn(&along, 0.25f32.to_bits()), Some(1));
    assert_eq!(drawn(&along, 0.995f32.to_bits()), Some(2), "rounding is no failure");
    assert_eq!(drawn(&vec![], 0.5f32.to_bits()), None);
}

#[test]
fn the_default_is_exactly_the_old_greedy_behaviour() {
    let s = Sampler::new(SamplerConfig::default());
    assert!(s.config().is_greedy());
    for _ in 0..10 {
        assert_eq!(chosen(SamplerConfig::default(), &logits(), &[]), 3);
    }
}

#[test]
fn a_logit_bias_can_force_and_forbid_a_token() {
    let force = SamplerConfig {
        logit_bias: vec![(2, 100.0f32.to_bits())],
        ..SamplerConfig::default()
    };
    assert_eq!(chosen(force, &[5.0, 4.0, 1.0], &[]), 2);
    let forbid = SamplerConfig {
        logit_bias: vec![(0, (-100.0f32).to_bits())],
        ..SamplerConfig::default()
    };
    assert_ne!(chosen(forbid, &[5.0, 4.0, 1.0], &[]), 0);
}

#[test]
fn ignore_eos_never_returns_the_eos_token() {
    let config = SamplerConfig {
        eos: Some(0),
        ignore_eos: true,
        ..SamplerConfig::default()
    };
    assert_ne!(chosen(config, &[50.0, 1.0, 0.5], &[]), 0);
}

#[test]
fn temperature_zero_with_a_penalty_is_the_penalised_argmax() {
    let config = SamplerConfig {
        temperature: 0.0f32.to_bits(),
        frequency_penalty: 5.0f32.to_bits(),
        ..SamplerConfig::default()
    };
    let token = chosen(config, &[3.0, 1.0, 0.5], &[0, 0]);
    assert_eq!(token, 1, "the penalty must decide it");
    assert_eq!(chosen(SamplerConfig::default(), &[3.0, 1.0, 0.5], &[0, 0]), 0);
}

#[test]
fn empty_logits_do_not_panic() {
    assert_eq!(chosen(SamplerConfig::llamacpp_defaults(), &[], &[]), 0);
    assert_eq!(argmax(&[]), 0);
    assert_eq!(best_candidate(&vec![]), 0);
}

#[test]
fn the_repeat_penalty_pushes_a_token_down_whatever_its_sign() {
    let mut c = vec![(0u32, 4.0f32), (1, -4.0)];
    penalised(&mut c, &[0, 1], 2.0, 0.0, 0.0, 64);
    assert_eq!(c[0].1, 2.0, "positive logit is divided");
    assert_eq!(
        c[1].1, -8.0,
        "negative logit must be multiplied, not raised"
    );
}

#[test]
fn frequency_scales_with_the_count_and_presence_does_not() {
    let mut c = vec![(0u32, 10.0f32), (1, 10.0)];
    penalised(&mut c, &[0, 0, 0, 1], 1.0, 1.0, 0.0, 64);
    assert_eq!(c[0].1, 7.0, "used 3 times, so -3");
    assert_eq!(c[1].1, 9.0, "used once, so -1");

    let mut c = vec![(0u32, 10.0f32), (1, 10.0)];
    penalised(&mut c, &[0, 0, 0, 1], 1.0, 0.0, 2.0, 64);
    assert_eq!(c[0].1, 8.0, "presence is flat");
    assert_eq!(c[1].1, 8.0, "...for both");
}

#[test]
fn an_unused_token_is_untouched_by_any_penalty() {
    let mut c = vec![(7u32, 3.0f32)];
    penalised(&mut c, &[0, 1, 2], 2.0, 5.0, 5.0, 64);
    assert_eq!(c[0].1, 3.0);
}

#[test]
fn the_penalty_only_looks_at_its_window() {
    let mut c = vec![(5u32, 4.0f32)];
    penalised(&mut c, &[5, 1, 2], 2.0, 0.0, 0.0, 2);
    assert_eq!(c[0].1, 4.0, "outside the window, nothing is penalised");

    let mut c = vec![(5u32, 4.0f32)];
    penalised(&mut c, &[5, 1, 2], 2.0, 0.0, 0.0, 3);
    assert_eq!(c[0].1, 2.0, "inside the window, it is");
}

#[test]
fn xtc_removes_the_likely_tokens_not_the_unlikely_ones() {
    let mut c = pairs(&[(0, 0.5), (1, 0.3), (2, 0.15), (3, 0.05)]);
    apply_xtc(&mut c, 1.0f32.to_bits(), 0.1f32.to_bits(), 0.0f32.to_bits());
    assert_eq!(c[0].0, 2, "the least likely above threshold survives");
    assert_eq!(c.len(), 2, "and everything below threshold stays");
}

#[test]
fn xtc_does_nothing_when_the_roll_fails_or_only_one_token_qualifies() {
    let before = pairs(&[(0, 0.9), (1, 0.05), (2, 0.05)]);
    let mut c = before.clone();
    apply_xtc(&mut c, 0.5f32.to_bits(), 0.1f32.to_bits(), 0.9f32.to_bits());
    assert_eq!(c, before);
    let mut c = before.clone();
    apply_xtc(&mut c, 1.0f32.to_bits(), 0.1f32.to_bits(), 0.0f32.to_bits());
    assert_eq!(c, before);
}

#[test]
fn settings_choose_their_path() {
    let path = |c: SamplerConfig| Sampler::new(c).path(4);
    assert_eq!(
        path(SamplerConfig {
            mirostat: 2,
            ..SamplerConfig::default()
        }),
        SamplePath::Mirostat {
            temperature: 1.0f32.to_bits()
        }
    );
    assert_eq!(
        path(SamplerConfig::llamacpp_defaults()),
        SamplePath::Draw {
            xtc: false,
            dynamic: false
        }
    );
    assert_eq!(
        path(SamplerConfig {
            temperature: 0.7f32.to_bits(),
            xtc_probability: 0.5f32.to_bits(),
            dynatemp_range: 0.5f32.to_bits(),
            ..SamplerConfig::default()
        }),
        SamplePath::Draw {
            xtc: true,
            dynamic: true
        }
    );
    let c = SamplerConfig {
        presence_penalty: 0.5f32.to_bits(),
        ..SamplerConfig::default()
    };
    assert!(c.has_penalties() && !c.is_greedy());
    assert!(!SamplerConfig::default().has_penalties());
    let negative_zero = SamplerConfig {
        frequency_penalty: (-0.0f32).to_bits(),
        temperature: (-1.0f32).to_bits(),
        ..SamplerConfig::default()
    };
    assert!(negative_zero.is_greedy());
    let l = SamplerConfig::llamacpp_defaults();
    assert_eq!(f32::from_bits(l.temperature), 0.8);
    assert_eq!(f32::from_bits(l.top_p), 0.95);
    assert_eq!(f32::from_bits(l.min_p), 0.05);
    assert_eq!(f32::from_bits(l.repeat_penalty), 1.1);
    assert_eq!(f32::from_bits(l.xtc_threshold), 0.1);
    assert_eq!(f32::from_bits(l.mirostat_tau), 5.0);
    assert_eq!((l.top_k, l.repeat_last_n), (40, 64));
}

#[test]
fn ranking_puts_the_best_first_and_top_k_keeps_them() {
    let mut c = candidates(&bits(&logits()));
    rank(&mut c);
    let ids: Vec<u32> = c.iter().map(|x| x.0).collect();
    assert_eq!(ids, vec![3, 1, 4, 0, 2]);
    let mut all = c.clone();
    keep_top_k(&mut all, 0);
    assert_eq!(all.len(), 5);
    keep_top_k(&mut c, 1);
    assert_eq!(c, vec![(3, 5.0f32.to_bits())]);
    assert_eq!(argmax(&bits(&[1.0, 7.0, 7.0])), 2);
}

#[test]
fn a_window_is_counted_once() {
    let counts = penalty_counts(&[5, 1, 5, 2, 5], 4);
    assert_eq!(uses(&counts, 5), 2);
    assert_eq!(uses(&counts, 1), 1);
    assert_eq!(uses(&counts, 9), 0);
    assert_eq!(counts.len(), 3);
}

#[test]
fn a_seed_reproduces_its_stream() {
    let draws = |seed: u64| {
        let mut s = Sampler::new(SamplerConfig {
            seed,
            ..SamplerConfig::default()
        });
        (0..32).map(|_| s.next_uniform()).collect::<Vec<u32>>()
    };
    assert_eq!(draws(42), draws(42));
    assert_ne!(draws(42), draws(43));
    assert!(draws(0).iter().all(|&v| v < 1 << 24));
    let mut stream = SplitMix64 { state: 0 };
    assert_eq!(stream.draw(), 0xE220_A839_7B1D_CDAF);
    let mut fine = SplitMix64::seeded(7);
    assert!(fine.draw_53() < 1 << 53);
}

#[test]
fn the_default_device_is_a_discrete_gpu() {
    let kinds = vec![DeviceKind::Cpu, DeviceKind::IGpu, DeviceKind::Gpu];
    assert_eq!(choose_device(&kinds, None), Ok(2));
    assert_eq!(choose_device(&kinds, Some(1)), Ok(1));
    assert_eq!(choose_device(&kinds, Some(9)), Err("no device 9".to_string()));
    assert_eq!(
        choose_device(&vec![DeviceKind::IGpu], None),
        Err("no discrete GPU on this machine; pass --device N to force one".to_string())
    );
}

#[test]
fn an_upload_stays_within_its_limit() {
    let mut u = Upload::new(Some(10));
    assert!(u.may_read(6));
    u.note(6, true);
    assert!(!u.may_read(5));
    assert!(u.may_read(4));
    u.note(4, false);
    assert_eq!((u.bound, u.skipped), (6, 2));
    assert!(Upload::new(None).may_read(u64::MAX));
}

#[test]
fn one_timed_run_is_not_a_measurement() {
    assert!(check_repeats(1, false)
        .unwrap_err()
        .starts_with("--repeat 1 cannot distinguish a cold shader cache from steady state."));
    assert_eq!(check_repeats(1, true), Ok(()));
    assert_eq!(check_repeats(2, false), Ok(()));
    assert_eq!(series_pass(0, true), SeriesPass::WarmUp);
    assert_eq!(
        series_pass(1, true),
        SeriesPass::Timed {
            reset_counters: true
        }
    );
    assert_eq!(
        series_pass(2, true),
        SeriesPass::Timed {
            reset_counters: false
        }
    );
    let prompt = synthetic_prompt(3001);
    assert_eq!((prompt[0], prompt[2999], prompt[3000]), (10, 3009, 10));
}

#[test]
fn agreement_is_judged_by_the_margin() {
    let (at, best, second) = top2(&bits(&[1.0, 4.0, 3.0, 4.0]));
    assert_eq!(at, 1);
    assert_eq!(f32::from_bits(best), 4.0);
    assert_eq!(f32::from_bits(second), 4.0);
    let (at, best, second) = top2(&bits(&[-2.0, f32::NAN, -1.0]));
    assert_eq!(at, 2);
    assert_eq!((f32::from_bits(best), f32::from_bits(second)), (-1.0, -2.0));
    assert_eq!(top2(&[]).0, 0);
    let (small, large) = (0.1f32.to_bits(), 0.5f32.to_bits());
    assert_eq!(verdict(1, 2, small, large), Verdict::Different);
    assert_eq!(verdict(1, 1, large, small), Verdict::ByLuck);
    assert_eq!(verdict(1, 1, small, large), Verdict::Agree);
}

#[test]
fn sweeps_end_at_what_the_machine_has() {
    assert_eq!(thread_sweep(1), vec![1]);
    assert_eq!(thread_sweep(8), vec![1, 2, 4, 8]);
    assert_eq!(thread_sweep(20), vec![1, 2, 4, 8, 16, 20]);
    assert_eq!(batches(), vec![1, 2, 4, 8, 16, 32]);
    assert_eq!(expert_ids(2), vec![0, 1, 2, 3, 4, 5, 0, 1, 2, 3, 4, 5]);
    assert_eq!(kernel_arena(2048, 8), 2048 * 8 * 192 + (256 << 20));
    assert_eq!(rows_per_thread(10, 4), 3);
    assert_eq!(rows_per_thread(8, 4), 2);
    assert_eq!(rows_per_thread(0, 4), 0);
}

#[test]
fn only_an_exclusion_takes_a_second_value() {
    let drawn = |c: SamplerConfig| {
        Sampler::new(c)
            .sample(4)
            .iter()
            .filter(|s| matches!(s, Step::Mirostat { .. } | Step::Xtc | Step::Draw))
            .count()
    };
    assert_eq!(drawn(SamplerConfig::default()), 0);
    let warm = SamplerConfig {
        temperature: 0.8f32.to_bits(),
        ..SamplerConfig::default()
    };
    assert_eq!(drawn(warm), 1);
    let excluding = SamplerConfig {
        temperature: 0.8f32.to_bits(),
        xtc_probability: 0.5f32.to_bits(),
        ..SamplerConfig::default()
    };
    assert_eq!(drawn(excluding), 2);
}

#[test]
fn without_ties_there_is_one_ranking() {
    let mut a = pairs(&[(0, 0.5), (1, 2.0), (2, -1.0), (3, 1.5)]);
    let mut b = pairs(&[(3, 1.5), (2, -1.0), (1, 2.0), (0, 0.5)]);
    rank(&mut a);
    rank(&mut b);
    assert_eq!(a, b);
    assert_eq!(a, pairs(&[(1, 2.0), (3, 1.5), (0, 0.5), (2, -1.0)]));
}
