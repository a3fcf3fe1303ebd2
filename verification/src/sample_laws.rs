//! What choosing a token promises, step by step.
#[allow(unused_imports)]
use crate::float_bits::{
    is_above, is_at_least, is_nan, total_order, value_order, F32_NEG_INFINITY, F32_ONE, F32_ZERO,
};
#[allow(unused_imports)]
use crate::sample::{
    all_candidates, is_above_zero, is_falling, likely, likely_ones_are_in_front, not_positive,
    uses_of, window_of, without_eos, xtc_left, SamplePath, SamplerConfig,
};
#[allow(unused_imports)]
use crate::sample_steps::{
    at_or_above, draws_in, is_first_reached, min_p_left, mirostat_left, only_exclusion_draws_twice,
    penalty_of, reached, steps_of, the_crossing_candidate_is_kept, top_p_left, Penalty, Scale, Step,
};
use vstd::prelude::*;

verus! {

/// Every candidate's value is a number.
pub open spec fn all_numbers(candidates: Seq<(u32, u32)>) -> bool {
    forall|i: int| 0 <= i < candidates.len() ==> !is_nan((#[trigger] candidates[i]).1)
}

/// Of ranked numbers, what stands behind one below a floor is below it too.
proof fn falling_stays_below(candidates: Seq<(u32, u32)>, floor: u32, i: int, j: int)
    requires
        is_falling(candidates),
        all_numbers(candidates),
        0 <= i <= j < candidates.len(),
        !is_at_least(candidates[i].1, floor),
    ensures
        !is_at_least(candidates[j].1, floor),
{
    assert(total_order(candidates[i].1) >= total_order(candidates[j].1));
}

/// The likely ones among ranked numbers are exactly the ones in front.
proof fn likely_ones_are_all_in_front(candidates: Seq<(u32, u32)>, floor: u32)
    requires
        is_falling(candidates),
        all_numbers(candidates),
    ensures
        0 <= likely(candidates, floor) <= candidates.len(),
        forall|i: int|
            0 <= i < candidates.len() ==> (i < likely(candidates, floor) <==> is_at_least(
                (#[trigger] candidates[i]).1,
                floor,
            )),
    decreases candidates.len(),
{
    if candidates.len() > 0 {
        let rest = candidates.skip(1);
        assert(is_falling(rest)) by {
            assert forall|i: int, j: int| 0 <= i <= j < rest.len() implies total_order(
                (#[trigger] rest[i]).1,
            ) >= total_order((#[trigger] rest[j]).1) by {
                assert(rest[i] == candidates[i + 1] && rest[j] == candidates[j + 1]);
            }
        }
        assert(all_numbers(rest)) by {
            assert forall|i: int| 0 <= i < rest.len() implies !is_nan((#[trigger] rest[i]).1) by {
                assert(rest[i] == candidates[i + 1]);
            }
        }
        likely_ones_are_all_in_front(rest, floor);
        assert forall|i: int| 0 <= i < candidates.len() implies (i < likely(candidates, floor)
            <==> is_at_least((#[trigger] candidates[i]).1, floor)) by {
            if is_at_least(candidates[0].1, floor) {
                if i > 0 {
                    assert(rest[i - 1] == candidates[i]);
                }
            } else {
                falling_stays_below(candidates, floor, 0, i);
            }
        }
    }
}

/// The smallest front whose probabilities reach `top_p` is kept: one fewer does not reach
/// it, and where the whole list does not either, all of it stays. A `top_p` of one keeps
/// everything.
pub proof fn enough_probability_is_kept(
    candidates: Seq<(u32, u32)>,
    sums: Seq<u32>,
    top_p: u32,
    i: int,
)
    requires
        sums.len() == candidates.len(),
        candidates.len() > 0,
    ensures
        ({
            let left = top_p_left(candidates, sums, top_p);
            let n = left.len() as int;
            &&& is_at_least(top_p, F32_ONE) ==> left == candidates
            &&& 0 <= i < n ==> left[i] == candidates[i]
            &&& !is_at_least(top_p, F32_ONE) ==> {
                &&& 1 <= n <= candidates.len()
                &&& 0 <= i < n - 1 ==> !is_at_least(sums[i], top_p)
                &&& n < candidates.len() ==> is_at_least(sums[n - 1], top_p)
            }
        }),
{
    the_crossing_candidate_is_kept(sums, top_p);
    reached_stays_inside(sums, top_p);
}

proof fn reached_stays_inside(sums: Seq<u32>, target: u32)
    ensures
        0 <= reached(sums, target) <= sums.len(),
        sums.len() > 0 ==> reached(sums, target) >= 1,
    decreases sums.len(),
{
    if sums.len() > 0 && !is_at_least(sums[0], target) {
        reached_stays_inside(sums.skip(1), target);
    }
}

/// What is likely enough beside the best is kept and the rest goes: behind the best one,
/// which always stays, exactly the candidates at or above the floor.
pub proof fn only_the_unlikely_go(
    candidates: Seq<(u32, u32)>,
    min_p: u32,
    floor: u32,
    i: int,
)
    requires
        is_falling(candidates),
        all_numbers(candidates),
        0 < i < candidates.len(),
    ensures
        ({
            let left = min_p_left(candidates, min_p, floor);
            &&& not_positive(min_p) ==> left == candidates
            &&& i < left.len() ==> left[i] == candidates[i]
            &&& left[0] == candidates[0]
            &&& !not_positive(min_p) ==> (i < left.len() <==> is_at_least(
                candidates[i].1,
                floor,
            ))
        }),
{
    likely_ones_are_all_in_front(candidates, floor);
    assert(is_at_least(candidates[i].1, floor) ==> is_at_least(candidates[0].1, floor)) by {
        if !is_at_least(candidates[0].1, floor) {
            falling_stays_below(candidates, floor, 0, i);
        }
    }
}

proof fn counting_is_being_in_front(candidates: Seq<(u32, u32)>, cut: u32)
    requires
        is_falling(candidates),
        all_numbers(candidates),
    ensures
        at_or_above(candidates, cut).len() == likely(candidates, cut),
    decreases candidates.len(),
{
    let keep = |c: (u32, u32)| is_at_least(c.1, cut);
    reveal(Seq::filter);
    likely_ones_are_all_in_front(candidates, cut);
    if candidates.len() > 0 {
        let front = candidates.drop_last();
        assert(is_falling(front)) by {
            assert forall|i: int, j: int| 0 <= i <= j < front.len() implies total_order(
                (#[trigger] front[i]).1,
            ) >= total_order((#[trigger] front[j]).1) by {
                assert(front[i] == candidates[i] && front[j] == candidates[j]);
            }
        }
        assert(all_numbers(front)) by {
            assert forall|i: int| 0 <= i < front.len() implies !is_nan((#[trigger] front[i]).1) by {
                assert(front[i] == candidates[i]);
            }
        }
        counting_is_being_in_front(front, cut);
        likely_ones_are_all_in_front(front, cut);
        let n = likely(candidates, cut);
        let m = likely(front, cut);
        assert(candidates.filter(keep).len() == front.filter(keep).len() + (if keep(
            candidates.last(),
        ) {
            1int
        } else {
            0int
        }));
        assert(n == m + (if keep(candidates.last()) {
            1int
        } else {
            0int
        })) by {
            let last = candidates.len() - 1;
            if m < last {
                assert(front[m] == candidates[m]);
                assert(!is_at_least(candidates[m].1, cut));
                falling_stays_below(candidates, cut, m, last);
                if n > m {
                    assert(is_at_least(candidates[m].1, cut));
                }
                if n < m {
                    assert(front[n] == candidates[n]);
                }
            } else {
                assert(m == last);
                if n < last {
                    assert(front[n] == candidates[n]);
                }
            }
        }
    }
}

/// Mirostat keeps what is no more surprising than its budget: behind the best one, which
/// always stays, exactly the candidates at least as likely as the cut.
pub proof fn only_the_surprising_go(candidates: Seq<(u32, u32)>, cut: u32, i: int)
    requires
        is_falling(candidates),
        all_numbers(candidates),
        0 < i < candidates.len(),
    ensures
        ({
            let left = mirostat_left(candidates, cut);
            &&& left[0] == candidates[0]
            &&& i < left.len() ==> left[i] == candidates[i]
            &&& i < left.len() <==> is_at_least(candidates[i].1, cut)
        }),
{
    counting_is_being_in_front(candidates, cut);
    likely_ones_are_all_in_front(candidates, cut);
    assert(is_at_least(candidates[i].1, cut) ==> is_at_least(candidates[0].1, cut)) by {
        if !is_at_least(candidates[0].1, cut) {
            falling_stays_below(candidates, cut, 0, i);
        }
    }
}

/// A cut by deviations keeps exactly the candidates at or above its floor.
pub proof fn the_floor_decides(candidates: Seq<(u32, u32)>, floor: u32, c: (u32, u32))
    ensures
        at_or_above(candidates, floor).contains(c) <==> candidates.contains(c) && is_at_least(
            c.1,
            floor,
        ),
    decreases candidates.len(),
{
    let keep = |c: (u32, u32)| is_at_least(c.1, floor);
    reveal(Seq::filter);
    if candidates.len() > 0 {
        let front = candidates.drop_last();
        the_floor_decides(front, floor, c);
        let was = front.filter(keep);
        let now = candidates.filter(keep);
        assert(candidates =~= front.push(candidates.last()));
        if now.contains(c) {
            let i = choose|i: int| 0 <= i < now.len() && now[i] == c;
            if i < was.len() {
                assert(was[i] == c);
                assert(front.contains(c));
                let k = choose|k: int| 0 <= k < front.len() && front[k] == c;
                assert(candidates[k] == c);
            } else {
                assert(candidates[candidates.len() - 1] == c);
            }
        }
        if candidates.contains(c) && is_at_least(c.1, floor) {
            let k = choose|k: int| 0 <= k < candidates.len() && candidates[k] == c;
            if k < front.len() {
                assert(front[k] == c);
                assert(was.contains(c));
                let i = choose|i: int| 0 <= i < was.len() && was[i] == c;
                assert(now[i] == c);
            } else {
                assert(now[now.len() - 1] == c);
            }
        }
    }
}

/// Excluding top choices takes away every candidate above the threshold but the least
/// likely of them, and takes away nothing else. It happens only where the roll comes up
/// and two of them are there.
pub proof fn only_top_choices_are_excluded(
    candidates: Seq<(u32, u32)>,
    probability: u32,
    threshold: u32,
    roll: u32,
    i: int,
)
    requires
        is_falling(candidates),
        all_numbers(candidates),
        0 <= i,
    ensures
        ({
            let left = xtc_left(candidates, probability, threshold, roll);
            let gone = candidates.len() - left.len();
            &&& 0 <= gone
            &&& i < left.len() ==> left[i] == candidates[gone + i]
            &&& i < gone ==> is_at_least(candidates[i].1, threshold)
            &&& not_positive(probability) || is_at_least(roll, probability) ==> left == candidates
            &&& gone > 0 ==> {
                &&& is_at_least(left[0].1, threshold)
                &&& 0 < i < left.len() ==> !is_at_least(left[i].1, threshold)
            }
            &&& !not_positive(probability) && !is_at_least(roll, probability) && candidates.len()
                >= 2 && is_at_least(candidates[1].1, threshold) ==> gone > 0
        }),
{
    likely_ones_are_all_in_front(candidates, threshold);
    let n = likely(candidates, threshold);
    let left = xtc_left(candidates, probability, threshold, roll);
    let gone = candidates.len() - left.len();
    if gone > 0 && 0 < i < left.len() {
        assert(left[i] == candidates[gone + i]);
        assert(gone + i >= n);
    }
    if candidates.len() >= 2 && is_at_least(candidates[1].1, threshold) {
        assert(1 < n);
    }
}

/// A token's uses add up over the parts of a window, each token counting once where it
/// stands.
pub proof fn uses_add_up(first: Seq<u32>, rest: Seq<u32>, token: u32, other: u32)
    ensures
        uses_of(first + rest, token) == uses_of(first, token) + uses_of(rest, token),
        uses_of(seq![token], token) == 1,
        other != token ==> uses_of(seq![other], token) == 0,
    decreases rest.len(),
{
    reveal_with_fuel(uses_of, 2);
    assert(seq![token].drop_last() =~= Seq::empty());
    assert(seq![other].drop_last() =~= Seq::empty());
    if rest.len() == 0 {
        assert(first + rest =~= first);
    } else {
        assert((first + rest).drop_last() =~= first + rest.drop_last());
        uses_add_up(first, rest.drop_last(), token, other);
    }
}

/// The penalties look at the last `last_n` tokens: as many as that, or all there are, and
/// those at the end.
pub proof fn the_window_is_the_end(history: Seq<u32>, last_n: int, i: int)
    requires
        0 <= last_n,
    ensures
        ({
            let window = window_of(history, last_n);
            &&& window.len() == (if last_n < history.len() {
                last_n
            } else {
                history.len() as int
            })
            &&& 0 <= i < window.len() ==> window[i] == history[history.len() - window.len() + i]
        }),
{
}

/// A token is penalised where a penalty is set and it was used in the window, once for
/// each use, and no other token is.
pub proof fn exactly_what_was_used_is_penalised(
    config: SamplerConfig,
    history: Seq<u32>,
    token: u32,
    logit: u32,
)
    requires
        history.len() <= u32::MAX,
    ensures
        ({
            let uses = uses_of(window_of(history, config.repeat_last_n as int), token);
            let penalty = penalty_of(config, history, token, logit);
            &&& penalty is Some <==> config.penalises() && uses > 0
            &&& penalty matches Some(p) ==> p.uses == uses
        }),
{
    uses_fit(window_of(history, config.repeat_last_n as int), token);
}

proof fn uses_fit(window: Seq<u32>, token: u32)
    ensures
        uses_of(window, token) <= window.len(),
    decreases window.len(),
{
    if window.len() > 0 {
        uses_fit(window.drop_last(), token);
    }
}

/// A repeated token's logit never rises, whatever its sign: where dividing by the penalty
/// does not raise what is above zero, and multiplying by it does not raise the rest, what
/// the penalty asks for does not raise it either. Without a repeat penalty it is left.
pub proof fn penalties_never_favour(
    config: SamplerConfig,
    history: Seq<u32>,
    token: u32,
    logit: u32,
    divided: spec_fn(u32) -> u32,
    multiplied: spec_fn(u32) -> u32,
)
    requires
        forall|x: u32| is_above(x, 0) ==> total_order(#[trigger] divided(x)) <= total_order(x),
        forall|x: u32| !is_above(x, 0) ==> total_order(#[trigger] multiplied(x)) <= total_order(x),
    ensures
        penalty_of(config, history, token, logit) matches Some(p) ==> {
            let scaled = match p.scale {
                Scale::Keep => logit,
                Scale::Divide => divided(logit),
                Scale::Multiply => multiplied(logit),
            };
            &&& total_order(scaled) <= total_order(logit)
            &&& p.scale is Keep <==> config.repeat_penalty == F32_ONE
        },
{
}

/// Ignoring the end of the sequence rules that token out and touches no other.
pub proof fn only_the_end_is_ruled_out(logits: Seq<u32>, config: SamplerConfig, i: int)
    requires
        0 <= i < logits.len() <= u32::MAX,
    ensures
        ({
            let left = without_eos(all_candidates(logits), config);
            &&& left.len() == logits.len()
            &&& left[i].0 == i
            &&& left[i].1 == (if config.ignore_eos && config.eos == Some(i as u32) {
                F32_NEG_INFINITY
            } else {
                logits[i]
            })
        }),
{
}

/// What decides how a token is chosen: mirostat where it is on, otherwise a draw where
/// the temperature is above zero, and otherwise the best logit, by which nothing is
/// drawn.
pub proof fn temperature_and_mirostat_decide(config: SamplerConfig, n: nat)
    requires
        n > 0,
    ensures
        config.path_of(n) is Mirostat <==> config.mirostat > 0,
        config.path_of(n) is Draw <==> config.mirostat == 0 && !not_positive(config.temperature),
        draws_in(steps_of(config.path_of(n))) == 0 <==> config.mirostat == 0 && not_positive(
            config.temperature,
        ),
        config.path_of(n) matches SamplePath::Mirostat { temperature } ==> !not_positive(
            temperature,
        ) && (!not_positive(config.temperature) ==> temperature == config.temperature),
        config.path_of(n) matches SamplePath::Draw { xtc, dynamic } ==> xtc == is_above_zero(
            config.xtc_probability,
        ) && dynamic == is_above_zero(config.dynatemp_range),
{
    only_exclusion_draws_twice(config.path_of(n));
}

/// Every way to choose but the plainest applies biases, the ruled-out end and penalties,
/// in that order and first of all; every way that draws ranks and truncates, and each of
/// its steps comes once.
pub proof fn nothing_asked_for_is_left_out(path: SamplePath, step: Step, i: int, j: int)
    requires
        path is BestOfAdjusted || path is Mirostat || path is Draw,
        0 <= i < steps_of(path).len(),
        0 <= j < steps_of(path).len(),
    ensures
        steps_of(path)[0] is Bias,
        steps_of(path)[1] is SuppressEos,
        steps_of(path)[2] is Penalise,
        path is Draw || path is Mirostat ==> {
            &&& steps_of(path).contains(Step::Rank)
            &&& steps_of(path).contains(Step::TopNSigma)
            &&& steps_of(path).contains(Step::TopK)
            &&& steps_of(path).contains(Step::Softmax)
        },
        path matches SamplePath::Draw { xtc, dynamic } ==> {
            &&& steps_of(path).contains(Step::TypicalP)
            &&& steps_of(path).contains(Step::TopP)
            &&& steps_of(path).contains(Step::MinP)
            &&& steps_of(path).contains(Step::Temperature { dynamic })
            &&& steps_of(path).contains(Step::Xtc) <==> xtc
        },
        i != j ==> steps_of(path)[i] != steps_of(path)[j],
        // Truncations keep a front, so candidates are ranked before any of them.
        (steps_of(path)[i] is TopNSigma || steps_of(path)[i] is TopK) && steps_of(path)[j] is Rank
            ==> j < i,
{
    let steps = steps_of(path);
    if path is Draw || path is Mirostat {
        assert(steps[3] is Rank);
        assert(steps[4] is TopNSigma);
        assert(steps[5] is TopK);
        assert(steps[6] is Softmax);
    }
    if let SamplePath::Draw { xtc, dynamic } = path {
        assert(steps[7] is TypicalP);
        assert(steps[8] is TopP);
        assert(steps[9] is MinP);
        if xtc {
            assert(steps[10] is Xtc);
            assert(steps[11] == Step::Temperature { dynamic });
        } else {
            assert(steps[10] == Step::Temperature { dynamic });
        }
    }
}

} // verus!
