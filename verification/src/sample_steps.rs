//! What a token's choice goes through, step by step: the order of the steps, and what
//! each truncation keeps. The caller does the arithmetic, and hands in running sums,
//! floors and distances as f32 bit patterns.
use crate::float_bits::{above, at_least, negate, F32_INFINITY, F32_NEG_INFINITY, F32_ONE};
#[allow(unused_imports)]
use crate::float_bits::{is_above, is_at_least, is_nan, magnitude, negated, total_order};
use crate::sample::{at_most_zero, count_likely, rank, SamplePath, Sampler};
#[allow(unused_imports)]
use crate::random::{mixed, GOLDEN};
#[allow(unused_imports)]
use crate::sample::{
    is_falling, likely, likely_ones_are_in_front, not_positive, ranking_is_determined,
    without_ties, SamplerConfig,
};
use vstd::prelude::*;

verus! {

/// One step of choosing a token.
#[derive(Debug, Clone, Copy, PartialEq, Eq, Structural)]
pub enum Step {
    /// Token 0: there is nothing to choose from.
    Nothing,
    /// The best of the raw logits.
    Greedy,
    /// Add the biases to the logits.
    Bias,
    /// Rule the end of the sequence out, where it is to be ignored.
    SuppressEos,
    /// Push down what was used lately.
    Penalise,
    /// The best of the adjusted logits.
    PickBest,
    /// Sort, best first.
    Rank,
    /// Keep the logits near the best one.
    TopNSigma,
    /// Keep the best few.
    TopK,
    /// Turn logits into probabilities.
    Softmax,
    /// Cut to the surprise wanted, draw, and learn from the draw.
    Mirostat { temperature: u32 },
    /// Keep what is about as surprising as expected.
    TypicalP,
    /// Keep the smallest set that holds enough probability.
    TopP,
    /// Keep what is likely enough beside the best.
    MinP,
    /// Exclude the top choices.
    Xtc,
    /// Rescale by the temperature, which may follow the entropy.
    Temperature { dynamic: bool },
    /// Draw by probability.
    Draw,
}

/// What comes before the ways to choose part: the logits are adjusted.
pub open spec fn adjusted() -> Seq<Step> {
    seq![Step::Bias, Step::SuppressEos, Step::Penalise]
}

/// From adjusted logits to ranked probabilities.
pub open spec fn ranked() -> Seq<Step> {
    seq![Step::Rank, Step::TopNSigma, Step::TopK, Step::Softmax]
}

/// The truncations of a draw. The top choices are excluded only where that is on.
pub open spec fn truncations(xtc: bool) -> Seq<Step> {
    seq![Step::TypicalP, Step::TopP, Step::MinP] + (if xtc {
        seq![Step::Xtc]
    } else {
        Seq::empty()
    })
}

/// The steps of a way to choose.
pub open spec fn steps_of(path: SamplePath) -> Seq<Step> {
    match path {
        SamplePath::Empty => seq![Step::Nothing],
        SamplePath::Greedy => seq![Step::Greedy],
        SamplePath::BestOfAdjusted => adjusted() + seq![Step::PickBest],
        SamplePath::Mirostat { temperature } => adjusted() + ranked() + seq![
            Step::Mirostat { temperature },
        ],
        SamplePath::Draw { xtc, dynamic } => adjusted() + ranked() + truncations(xtc) + seq![
            Step::Temperature { dynamic },
            Step::Draw,
        ],
    }
}

impl Sampler {
    /// The steps a token's choice among `n` logits goes through, in order.
    pub fn sample(&self, n: usize) -> (steps: Vec<Step>)
        ensures
            steps@ == steps_of(self.path_of(n as nat)),
    {
        let path = self.path(n);
        let mut steps: Vec<Step> = Vec::new();
        match path {
            SamplePath::Empty => {
                steps.push(Step::Nothing);
            },
            SamplePath::Greedy => {
                steps.push(Step::Greedy);
            },
            SamplePath::BestOfAdjusted => {
                push_adjusted(&mut steps);
                steps.push(Step::PickBest);
            },
            SamplePath::Mirostat { temperature } => {
                push_adjusted(&mut steps);
                push_ranked(&mut steps);
                steps.push(Step::Mirostat { temperature });
            },
            SamplePath::Draw { xtc, dynamic } => {
                push_adjusted(&mut steps);
                push_ranked(&mut steps);
                steps.push(Step::TypicalP);
                steps.push(Step::TopP);
                steps.push(Step::MinP);
                if xtc {
                    steps.push(Step::Xtc);
                }
                steps.push(Step::Temperature { dynamic });
                steps.push(Step::Draw);
            },
        }
        assert(steps@ =~= steps_of(path));
        steps
    }
}

fn push_adjusted(steps: &mut Vec<Step>)
    ensures
        final(steps)@ == old(steps)@ + adjusted(),
{
    steps.push(Step::Bias);
    steps.push(Step::SuppressEos);
    steps.push(Step::Penalise);
    assert(steps@ =~= old(steps)@ + adjusted());
}

fn push_ranked(steps: &mut Vec<Step>)
    ensures
        final(steps)@ == old(steps)@ + ranked(),
{
    steps.push(Step::Rank);
    steps.push(Step::TopNSigma);
    steps.push(Step::TopK);
    steps.push(Step::Softmax);
    assert(steps@ =~= old(steps)@ + ranked());
}

/// The step works on logits.
pub open spec fn on_logits(step: Step) -> bool {
    step is Bias || step is SuppressEos || step is Penalise || step is PickBest || step is Rank
        || step is TopNSigma
}

/// The step cuts by probability.
pub open spec fn on_probabilities(step: Step) -> bool {
    step is TypicalP || step is TopP || step is MinP || step is Xtc
}

/// Penalties and every other step on logits come before the softmax, the truncations
/// behind it, and the temperature behind them all, so that a truncation cuts the
/// distribution the model produced.
pub proof fn temperature_comes_last(path: SamplePath, i: int, j: int)
    requires
        0 <= i < j < steps_of(path).len(),
    ensures
        !(steps_of(path)[i] is Softmax && on_logits(steps_of(path)[j])),
        !(on_probabilities(steps_of(path)[i]) && steps_of(path)[j] is Softmax),
        !(steps_of(path)[i] is Temperature && on_probabilities(steps_of(path)[j])),
{
}

/// Every choice ends in exactly one step that yields a token.
pub open spec fn yields(step: Step) -> bool {
    step is Nothing || step is Greedy || step is PickBest || step is Mirostat || step is Draw
}

/// A choice ends with the one step that yields a token.
pub proof fn every_choice_ends_in_a_token(path: SamplePath, i: int)
    requires
        0 <= i < steps_of(path).len(),
    ensures
        yields(steps_of(path)[i]) <==> i == steps_of(path).len() - 1,
{
}

/// The step takes a value from the seed's stream.
pub open spec fn draws(step: Step) -> bool {
    step is Mirostat || step is Xtc || step is Draw
}

/// How many values the steps take from the seed's stream.
pub open spec fn draws_in(steps: Seq<Step>) -> nat
    decreases steps.len(),
{
    if steps.len() == 0 {
        0
    } else {
        draws_in(steps.drop_last()) + (if draws(steps.last()) {
            1nat
        } else {
            0nat
        })
    }
}

proof fn draws_add_up(first: Seq<Step>, rest: Seq<Step>)
    ensures
        draws_in(first + rest) == draws_in(first) + draws_in(rest),
    decreases rest.len(),
{
    if rest.len() == 0 {
        assert(first + rest =~= first);
    } else {
        assert((first + rest).drop_last() =~= first + rest.drop_last());
        draws_add_up(first, rest.drop_last());
    }
}

/// A token takes one value from the seed's stream where anything is drawn, and a second
/// only where top choices are excluded: a run that never asked for that is not moved.
pub proof fn only_exclusion_draws_twice(path: SamplePath)
    ensures
        draws_in(steps_of(path)) == (match path {
            SamplePath::Empty | SamplePath::Greedy | SamplePath::BestOfAdjusted => 0nat,
            SamplePath::Mirostat { .. } => 1nat,
            SamplePath::Draw { xtc, .. } => if xtc {
                2nat
            } else {
                1nat
            },
        }),
{
    reveal_with_fuel(draws_in, 5);
    match path {
        SamplePath::Empty | SamplePath::Greedy => {},
        SamplePath::BestOfAdjusted => {
            draws_add_up(adjusted(), seq![Step::PickBest]);
        },
        SamplePath::Mirostat { temperature } => {
            draws_add_up(adjusted(), ranked());
            draws_add_up(adjusted() + ranked(), seq![Step::Mirostat { temperature }]);
        },
        SamplePath::Draw { xtc, dynamic } => {
            draws_add_up(adjusted(), ranked());
            draws_add_up(adjusted() + ranked(), truncations(xtc));
            draws_add_up(
                adjusted() + ranked() + truncations(xtc),
                seq![Step::Temperature { dynamic }, Step::Draw],
            );
        },
    }
}

// ------------------------------------------------------------------ penalties

/// What a repeated token's logit is put through so that it falls whatever its sign.
#[derive(Debug, Clone, Copy, PartialEq, Eq, Structural)]
pub enum Scale {
    Keep,
    Divide,
    Multiply,
}

/// How a logit is penalised: scaled first, then lowered by the frequency penalty for
/// each use and by the presence penalty once.
#[derive(Debug, Clone, Copy, PartialEq, Eq, Structural)]
pub struct Penalty {
    pub scale: Scale,
    pub uses: u32,
}

/// How a token's logit is penalised, if it is.
pub open spec fn penalty_of(
    config: crate::sample::SamplerConfig,
    history: Seq<u32>,
    token: u32,
    logit: u32,
) -> Option<Penalty> {
    let n = crate::sample::uses_of(
        crate::sample::window_of(history, config.repeat_last_n as int),
        token,
    );
    if !config.penalises() || n == 0 {
        None
    } else {
        Some(
            Penalty {
                scale: if config.repeat_penalty == F32_ONE {
                    Scale::Keep
                } else if is_above(logit, 0) {
                    Scale::Divide
                } else {
                    Scale::Multiply
                },
                uses: n as u32,
            },
        )
    }
}

/// How each candidate's logit is penalised, if it is.
pub fn apply_penalties(
    config: &crate::sample::SamplerConfig,
    history: &[u32],
    candidates: &Vec<(u32, u32)>,
) -> (penalties: Vec<Option<Penalty>>)
    requires
        history@.len() <= u32::MAX,
    ensures
        penalties@.len() == candidates@.len(),
        forall|i: int|
            0 <= i < candidates@.len() ==> (#[trigger] penalties@[i]) == penalty_of(
                *config,
                history@,
                candidates@[i].0,
                candidates@[i].1,
            ),
{
    let ghost window = crate::sample::window_of(history@, config.repeat_last_n as int);
    let on = config.has_penalties();
    let counts = crate::sample::penalty_counts(history, config.repeat_last_n);
    let mut penalties: Vec<Option<Penalty>> = Vec::new();
    let mut i: usize = 0;
    while i < candidates.len()
        invariant
            i <= candidates@.len(),
            penalties@.len() == i,
            on == config.penalises(),
            window == crate::sample::window_of(history@, config.repeat_last_n as int),
            crate::sample::are_counts(counts@, window),
            forall|k: int|
                0 <= k < i ==> (#[trigger] penalties@[k]) == penalty_of(
                    *config,
                    history@,
                    candidates@[k].0,
                    candidates@[k].1,
                ),
        decreases candidates@.len() - i,
    {
        let token: u32 = candidates[i].0;
        let logit: u32 = candidates[i].1;
        let uses: u32 = crate::sample::uses(&counts, token);
        assert(uses == crate::sample::uses_of(window, token));
        let penalty = if !on || uses == 0 {
            None
        } else {
            let scale = if config.repeat_penalty == F32_ONE {
                Scale::Keep
            } else if above(logit, 0) {
                Scale::Divide
            } else {
                Scale::Multiply
            };
            Some(Penalty { scale, uses })
        };
        penalties.push(penalty);
        i = i + 1;
    }
    penalties
}

// ----------------------------------------------------------------- deviation

/// A number, and not infinite.
pub open spec fn is_finite(bits: u32) -> bool {
    magnitude(bits) < F32_INFINITY
}

fn finite(bits: u32) -> (yes: bool)
    ensures
        yes == is_finite(bits),
{
    if bits < 0x8000_0000 {
        bits < F32_INFINITY
    } else {
        bits < F32_NEG_INFINITY
    }
}

/// The finite values among candidates, in order.
pub open spec fn finite_values(candidates: Seq<(u32, u32)>) -> Seq<u32>
    decreases candidates.len(),
{
    if candidates.len() == 0 {
        Seq::empty()
    } else {
        let rest = finite_values(candidates.drop_last());
        if is_finite(candidates.last().1) {
            rest.push(candidates.last().1)
        } else {
            rest
        }
    }
}

/// The logits a deviation is taken over, where the cut by deviations is on and means
/// something: two finite ones at least, and none that is infinitely good.
pub open spec fn spread_over(candidates: Seq<(u32, u32)>, n: u32) -> Option<Seq<u32>> {
    if not_positive(n) || finite_values(candidates).len() < 2 || exists|i: int|
        0 <= i < candidates.len() && (#[trigger] candidates[i]).1 == F32_INFINITY {
        None
    } else {
        Some(finite_values(candidates))
    }
}

/// The logits whose deviation the cut by deviations needs, where it cuts at all.
pub fn sigma_values(candidates: &Vec<(u32, u32)>, n: u32) -> (values: Option<Vec<u32>>)
    ensures
        match values {
            Some(v) => spread_over(candidates@, n) == Some(v@),
            None => spread_over(candidates@, n) is None,
        },
{
    if at_most_zero(n) {
        return None;
    }
    let mut values: Vec<u32> = Vec::new();
    let mut i: usize = 0;
    assert(candidates@.take(0) =~= Seq::empty());
    while i < candidates.len()
        invariant
            i <= candidates@.len(),
            values@ == finite_values(candidates@.take(i as int)),
            forall|j: int| 0 <= j < i ==> (#[trigger] candidates@[j]).1 != F32_INFINITY,
        decreases candidates@.len() - i,
    {
        assert(candidates@.take(i + 1).drop_last() =~= candidates@.take(i as int));
        let bits: u32 = candidates[i].1;
        if bits == F32_INFINITY {
            assert(candidates@[i as int].1 == F32_INFINITY);
            return None;
        }
        if finite(bits) {
            values.push(bits);
        }
        i = i + 1;
    }
    assert(candidates@.take(i as int) =~= candidates@);
    if values.len() < 2 {
        None
    } else {
        Some(values)
    }
}

/// The candidates at or above a floor, in order.
pub open spec fn at_or_above(candidates: Seq<(u32, u32)>, floor: u32) -> Seq<(u32, u32)> {
    candidates.filter(|c: (u32, u32)| is_at_least(c.1, floor))
}

/// Keeps the candidates at or above `floor`, which lies some deviations below the best.
/// Where the values do not deviate, `sigma` being zero, all stay.
pub fn apply_top_n_sigma(candidates: &mut Vec<(u32, u32)>, sigma: u32, floor: u32)
    ensures
        final(candidates)@ == (if not_positive(sigma) {
            old(candidates)@
        } else {
            at_or_above(old(candidates)@, floor)
        }),
{
    if at_most_zero(sigma) {
        return;
    }
    let ghost all = candidates@;
    let ghost keep = |c: (u32, u32)| is_at_least(c.1, floor);
    let mut kept: Vec<(u32, u32)> = Vec::new();
    let mut i: usize = 0;
    assert(all.take(0).filter(keep) =~= Seq::empty()) by {
        assert(all.take(0) =~= Seq::empty());
        reveal(Seq::filter);
    }
    while i < candidates.len()
        invariant
            i <= candidates@.len(),
            candidates@ == all,
            keep == (|c: (u32, u32)| is_at_least(c.1, floor)),
            kept@ == all.take(i as int).filter(keep),
        decreases candidates@.len() - i,
    {
        let c = candidates[i];
        assert(all.take(i + 1).drop_last() =~= all.take(i as int));
        assert(all.take(i + 1).filter(keep) == (if keep(c) {
            kept@.push(c)
        } else {
            kept@
        })) by {
            reveal(Seq::filter);
            assert(all.take(i + 1).last() == c);
        }
        if at_least(c.1, floor) {
            kept.push(c);
        }
        i = i + 1;
    }
    assert(all.take(i as int) =~= all);
    *candidates = kept;
}

// ------------------------------------------------------------ running totals

/// The first running total that reaches `target`.
pub open spec fn is_first_reached(sums: Seq<u32>, target: u32, i: int) -> bool {
    &&& 0 <= i < sums.len()
    &&& is_at_least(sums[i], target)
    &&& forall|j: int| 0 <= j < i ==> !is_at_least(#[trigger] sums[j], target)
}

/// How many candidates it takes to reach `target`; all, where they do not.
pub open spec fn reached(sums: Seq<u32>, target: u32) -> int
    decreases sums.len(),
{
    if sums.len() == 0 {
        0
    } else if is_at_least(sums[0], target) {
        1
    } else {
        1 + reached(sums.skip(1), target)
    }
}

/// `reached` counts up to the first running total at or above the target and takes that
/// one in, or counts them all.
pub proof fn the_crossing_candidate_is_kept(sums: Seq<u32>, target: u32)
    ensures
        ({
            let n = reached(sums, target);
            ||| is_first_reached(sums, target, n - 1)
            ||| n == sums.len() && forall|j: int|
                0 <= j < sums.len() ==> !is_at_least(#[trigger] sums[j], target)
        }),
    decreases sums.len(),
{
    if sums.len() > 0 && !is_at_least(sums[0], target) {
        let rest = sums.skip(1);
        the_crossing_candidate_is_kept(rest, target);
        let n = reached(sums, target);
        assert forall|j: int| 0 < j < sums.len() implies sums[j] == rest[j - 1] by {}
    }
}

fn count_to(sums: &Vec<u32>, target: u32) -> (n: usize)
    ensures
        n == reached(sums@, target),
        n <= sums@.len(),
        sums@.len() > 0 ==> n >= 1,
{
    let mut i: usize = 0;
    assert(sums@.skip(0) =~= sums@);
    while i < sums.len()
        invariant
            i <= sums@.len(),
            reached(sums@, target) == i + reached(sums@.skip(i as int), target),
        decreases sums@.len() - i,
    {
        assert(sums@.skip(i as int)[0] == sums@[i as int]);
        assert(sums@.skip(i as int).skip(1) =~= sums@.skip(i + 1));
        if at_least(sums[i], target) {
            return i + 1;
        }
        i = i + 1;
    }
    i
}

/// What is left of ranked candidates once enough probability is held.
pub open spec fn top_p_left(candidates: Seq<(u32, u32)>, sums: Seq<u32>, top_p: u32) -> Seq<
    (u32, u32),
> {
    if is_at_least(top_p, F32_ONE) {
        candidates
    } else {
        candidates.take(reached(sums, top_p))
    }
}

/// Keeps the smallest prefix whose probabilities reach `top_p`; `sums` are their running
/// totals. The result is whether the rest are to be renormalised.
pub fn apply_top_p(candidates: &mut Vec<(u32, u32)>, sums: &Vec<u32>, top_p: u32) -> (cut: bool)
    requires
        sums@.len() == old(candidates)@.len(),
    ensures
        final(candidates)@ == top_p_left(old(candidates)@, sums@, top_p),
        cut == !is_at_least(top_p, F32_ONE),
{
    if at_least(top_p, F32_ONE) {
        return false;
    }
    let keep: usize = count_to(sums, top_p);
    candidates.truncate(keep);
    assert(candidates@ =~= old(candidates)@.take(keep as int));
    true
}

/// What is left of ranked candidates where those below a floor go, never the best one.
pub open spec fn min_p_left(candidates: Seq<(u32, u32)>, min_p: u32, floor: u32) -> Seq<(u32, u32)> {
    if not_positive(min_p) || candidates.len() == 0 {
        candidates
    } else if likely(candidates, floor) < 1 {
        candidates.take(1)
    } else {
        candidates.take(likely(candidates, floor))
    }
}

/// Keeps the prefix at or above `floor`, which is `min_p` of the best probability. The
/// result is whether the rest are to be renormalised.
pub fn apply_min_p(candidates: &mut Vec<(u32, u32)>, min_p: u32, floor: u32) -> (cut: bool)
    ensures
        final(candidates)@ == min_p_left(old(candidates)@, min_p, floor),
        cut == (!not_positive(min_p) && old(candidates)@.len() > 0),
{
    if at_most_zero(min_p) || candidates.len() == 0 {
        return false;
    }
    let n: usize = count_likely(candidates, floor);
    let keep: usize = if n < 1 {
        1
    } else {
        n
    };
    candidates.truncate(keep);
    assert(candidates@ =~= old(candidates)@.take(keep as int));
    true
}

/// What mirostat keeps of ranked candidates: as many as are at least as likely as the
/// cut, and one at least.
pub open spec fn mirostat_left(candidates: Seq<(u32, u32)>, cut: u32) -> Seq<(u32, u32)> {
    let n = at_or_above(candidates, cut).len();
    if candidates.len() == 0 {
        candidates
    } else if n < 1 {
        candidates.take(1)
    } else {
        candidates.take(n as int)
    }
}

/// Drops the candidates more surprising than mirostat's budget allows.
pub fn sample_mirostat(candidates: &mut Vec<(u32, u32)>, cut: u32)
    ensures
        final(candidates)@ == mirostat_left(old(candidates)@, cut),
{
    let ghost all = candidates@;
    let ghost keep = |c: (u32, u32)| is_at_least(c.1, cut);
    if candidates.len() == 0 {
        return;
    }
    let mut n: usize = 0;
    let mut i: usize = 0;
    assert(all.take(0).filter(keep).len() == 0) by {
        reveal(Seq::filter);
    }
    while i < candidates.len()
        invariant
            i <= candidates@.len(),
            candidates@ == all,
            keep == (|c: (u32, u32)| is_at_least(c.1, cut)),
            n == all.take(i as int).filter(keep).len(),
            n <= i,
        decreases candidates@.len() - i,
    {
        let c = candidates[i];
        assert(all.take(i + 1).drop_last() =~= all.take(i as int));
        assert(all.take(i + 1).filter(keep).len() == (if keep(c) {
            n + 1
        } else {
            n as int
        })) by {
            reveal(Seq::filter);
            assert(all.take(i + 1).last() == c);
        }
        if at_least(c.1, cut) {
            n = n + 1;
        }
        i = i + 1;
    }
    assert(all.take(i as int) =~= all);
    let kept: usize = if n < 1 {
        1
    } else {
        n
    };
    candidates.truncate(kept);
    assert(candidates@ =~= all.take(kept as int));
}

// ------------------------------------------------------------------- typical

/// `order` names each of `n` places once.
pub open spec fn names_each_once(order: Seq<u32>, n: int) -> bool {
    &&& order.len() == n
    &&& order.no_duplicates()
    &&& forall|i: int| 0 <= i < order.len() ==> (#[trigger] order[i]) < n
}

/// `order` goes through the places by rising distance.
pub open spec fn rises(distances: Seq<u32>, order: Seq<u32>) -> bool {
    forall|i: int, j: int|
        0 <= i <= j < order.len() ==> total_order(distances[(#[trigger] order[i]) as int])
            <= total_order(distances[(#[trigger] order[j]) as int])
}

/// The candidates' places by rising distance of their surprise from what is expected.
pub fn by_typicality(distances: &Vec<u32>) -> (order: Vec<u32>)
    requires
        distances@.len() <= u32::MAX,
    ensures
        names_each_once(order@, distances@.len() as int),
        rises(distances@, order@),
{
    let mut pairs: Vec<(u32, u32)> = Vec::new();
    let mut i: usize = 0;
    while i < distances.len()
        invariant
            i <= distances@.len() <= u32::MAX,
            pairs@.len() == i,
            forall|k: int|
                0 <= k < i ==> (#[trigger] pairs@[k]) == (k as u32, negated(distances@[k])),
        decreases distances@.len() - i,
    {
        pairs.push((i as u32, negate(distances[i])));
        i = i + 1;
    }
    let ghost placed = pairs@;
    rank(&mut pairs);
    let ghost sorted = pairs@;
    proof {
        same_elements_once(placed, sorted);
    }
    let mut order: Vec<u32> = Vec::new();
    let mut k: usize = 0;
    while k < pairs.len()
        invariant
            k <= pairs@.len(),
            pairs@ == sorted,
            order@.len() == k,
            forall|m: int| 0 <= m < k ==> (#[trigger] order@[m]) == sorted[m].0,
        decreases pairs@.len() - k,
    {
        order.push(pairs[k].0);
        k = k + 1;
    }
    proof {
        assert forall|m: int| 0 <= m < sorted.len() implies (#[trigger] sorted[m]).0
            < distances@.len() && sorted[m].1 == negated(distances@[sorted[m].0 as int]) by {
            assert(placed.contains(sorted[m]));
            let q = choose|q: int| 0 <= q < placed.len() && placed[q] == sorted[m];
            assert(placed[q] == (q as u32, negated(distances@[q])));
        }
        assert forall|a: int, b: int| 0 <= a < b < order@.len() implies order@[a] != order@[b] by {
            if order@[a] == order@[b] {
                assert(sorted[a] == sorted[b]);
            }
        }
        assert forall|a: int, b: int| 0 <= a <= b < order@.len() implies total_order(
            distances@[(#[trigger] order@[a]) as int],
        ) <= total_order(distances@[(#[trigger] order@[b]) as int]) by {
            assert(total_order(sorted[a].1) >= total_order(sorted[b].1));
        }
    }
    order
}

proof fn same_elements_once(placed: Seq<(u32, u32)>, sorted: Seq<(u32, u32)>)
    requires
        placed.to_multiset() == sorted.to_multiset(),
        forall|k: int| 0 <= k < placed.len() ==> (#[trigger] placed[k]).0 == k,
    ensures
        sorted.len() == placed.len(),
        sorted.no_duplicates(),
        forall|m: int| 0 <= m < sorted.len() ==> placed.contains(#[trigger] sorted[m]),
{
    placed.to_multiset_ensures();
    sorted.to_multiset_ensures();
    assert(placed.no_duplicates());
    placed.lemma_multiset_has_no_duplicates();
    sorted.lemma_multiset_has_no_duplicates_conv();
    assert forall|m: int| 0 <= m < sorted.len() implies placed.contains(#[trigger] sorted[m]) by {
        assert(sorted.contains(sorted[m]));
        assert(sorted.to_multiset().count(sorted[m]) > 0);
    }
}

/// The candidates at the given places.
pub open spec fn picked(candidates: Seq<(u32, u32)>, order: Seq<u32>) -> Seq<(u32, u32)> {
    order.map_values(|at: u32| candidates[at as int])
}

/// Keeps the most typical candidates that together reach `typical_p`, ranked again.
/// `order` goes from the most typical on, and `sums` are the running totals along it.
pub fn apply_typical_p(
    candidates: &mut Vec<(u32, u32)>,
    order: &Vec<u32>,
    sums: &Vec<u32>,
    typical_p: u32,
)
    requires
        names_each_once(order@, old(candidates)@.len() as int),
        sums@.len() == order@.len(),
    ensures
        is_at_least(typical_p, F32_ONE) || old(candidates)@.len() < 2 ==> final(candidates)@
            == old(candidates)@,
        !is_at_least(typical_p, F32_ONE) && old(candidates)@.len() >= 2 ==> {
            &&& is_falling(final(candidates)@)
            &&& final(candidates)@.len() == reached(sums@, typical_p)
            &&& final(candidates)@.to_multiset() == picked(
                old(candidates)@,
                order@.take(reached(sums@, typical_p)),
            ).to_multiset()
        },
{
    if at_least(typical_p, F32_ONE) || candidates.len() < 2 {
        return;
    }
    let ghost all = candidates@;
    let keep: usize = count_to(sums, typical_p);
    let mut kept: Vec<(u32, u32)> = Vec::new();
    let mut i: usize = 0;
    while i < keep
        invariant
            i <= keep <= order@.len(),
            candidates@ == all,
            names_each_once(order@, all.len() as int),
            kept@ == picked(all, order@.take(i as int)),
        decreases keep - i,
    {
        kept.push(candidates[order[i] as usize]);
        assert(kept@ =~= picked(all, order@.take(i + 1)));
        i = i + 1;
    }
    rank(&mut kept);
    *candidates = kept;
}

// ---------------------------------------------------------------------- draw

/// The candidate a uniform value falls on: the first whose running total is above it,
/// or the last.
pub open spec fn is_drawn(sums: Seq<u32>, r: u32, i: int) -> bool {
    &&& 0 <= i < sums.len()
    &&& is_above(sums[i], r) || i == sums.len() - 1
    &&& forall|j: int| 0 <= j < i ==> !is_above(#[trigger] sums[j], r)
}

/// Which candidate a uniform value `r` falls on; `sums` are the running totals of their
/// probabilities. Rounding can leave the last total a hair under `r`, which is the last
/// candidate and no failure. `None` where there is none.
pub fn drawn(sums: &Vec<u32>, r: u32) -> (place: Option<usize>)
    ensures
        match place {
            Some(i) => is_drawn(sums@, r, i as int),
            None => sums@.len() == 0,
        },
{
    if sums.len() == 0 {
        return None;
    }
    let mut i: usize = 0;
    while i < sums.len() - 1
        invariant
            i < sums@.len(),
            forall|j: int| 0 <= j < i ==> !is_above(#[trigger] sums@[j], r),
        decreases sums@.len() - i,
    {
        if above(sums[i], r) {
            return Some(i);
        }
        i = i + 1;
    }
    Some(i)
}

/// No truncation by probability empties a list, and the best candidate stays first.
pub proof fn truncations_keep_the_best(
    candidates: Seq<(u32, u32)>,
    sums: Seq<u32>,
    top_p: u32,
    min_p: u32,
    floor: u32,
    cut: u32,
)
    requires
        candidates.len() > 0,
        sums.len() == candidates.len(),
    ensures
        top_p_left(candidates, sums, top_p).len() > 0,
        top_p_left(candidates, sums, top_p)[0] == candidates[0],
        min_p_left(candidates, min_p, floor).len() > 0,
        min_p_left(candidates, min_p, floor)[0] == candidates[0],
        mirostat_left(candidates, cut).len() > 0,
        mirostat_left(candidates, cut)[0] == candidates[0],
{
    the_crossing_candidate_is_kept(sums, top_p);
    likely_ones_are_in_front(candidates, floor, 0);
    reached_is_some(sums, top_p);
    candidates.lemma_filter_len(|c: (u32, u32)| is_at_least(c.1, cut));
}

proof fn reached_is_some(sums: Seq<u32>, target: u32)
    ensures
        0 <= reached(sums, target) <= sums.len(),
        sums.len() > 0 ==> reached(sums, target) >= 1,
    decreases sums.len(),
{
    if sums.len() > 0 && !is_at_least(sums[0], target) {
        reached_is_some(sums.skip(1), target);
    }
}

// ------------------------------------------------------------- reproducibility

/// No two places are as far off.
pub open spec fn distances_differ(distances: Seq<u32>) -> bool {
    forall|i: int, j: int|
        0 <= i < distances.len() && 0 <= j < distances.len() && i != j ==> total_order(
            #[trigger] distances[i],
        ) != total_order(#[trigger] distances[j])
}

/// An order that names each place once names every place.
proof fn every_place_is_named(order: Seq<u32>, n: int, at: u32)
    requires
        names_each_once(order, n),
        at < n,
    ensures
        order.contains(at),
{
    let places = order.map_values(|x: u32| x as int);
    assert(places.no_duplicates());
    places.unique_seq_to_set();
    vstd::seq_lib::seq_to_set_is_finite(places);
    vstd::set_lib::lemma_int_range(0, n);
    let all = vstd::set_lib::set_int_range(0, n);
    assert forall|x: int| #[trigger] places.to_set().contains(x) implies all.contains(x) by {
        let k = choose|k: int| 0 <= k < places.len() && places[k] == x;
        assert(order[k] < n);
    }
    vstd::set_lib::lemma_subset_equality(places.to_set(), all);
    assert(all.contains(at as int));
    assert(places.to_set().contains(at as int));
    let k = choose|k: int| 0 <= k < places.len() && places[k] == at as int;
    assert(order[k] == at);
}

proof fn orders_agree_upto(distances: Seq<u32>, a: Seq<u32>, b: Seq<u32>, n: int)
    requires
        names_each_once(a, distances.len() as int),
        names_each_once(b, distances.len() as int),
        rises(distances, a),
        rises(distances, b),
        distances_differ(distances),
        0 <= n <= a.len(),
    ensures
        forall|i: int| 0 <= i < n ==> a[i] == b[i],
    decreases n,
{
    if n > 0 {
        orders_agree_upto(distances, a, b, n - 1);
        let i = n - 1;
        let x = a[i];
        let y = b[i];
        assert(x < distances.len() && y < distances.len());
        every_place_is_named(b, distances.len() as int, x);
        every_place_is_named(a, distances.len() as int, y);
        let jx = choose|j: int| 0 <= j < b.len() && b[j] == x;
        let jy = choose|j: int| 0 <= j < a.len() && a[j] == y;
        if jx < i {
            assert(a[jx] == a[i]);
        }
        if jy < i {
            assert(b[jy] == b[i]);
        }
        assert(total_order(distances[b[i] as int]) <= total_order(distances[b[jx] as int]));
        assert(total_order(distances[a[i] as int]) <= total_order(distances[a[jy] as int]));
        if x != y {
            assert(total_order(distances[x as int]) != total_order(distances[y as int]));
        }
    }
}

/// Where no two places are as far off, there is one order by rising distance.
pub proof fn typicality_is_determined(distances: Seq<u32>, a: Seq<u32>, b: Seq<u32>)
    requires
        names_each_once(a, distances.len() as int),
        names_each_once(b, distances.len() as int),
        rises(distances, a),
        rises(distances, b),
        distances_differ(distances),
    ensures
        a == b,
{
    orders_agree_upto(distances, a, b, a.len() as int);
    assert(a =~= b);
}

/// A token's choice under way.
pub struct Choosing {
    pub candidates: Seq<(u32, u32)>,
    /// Where the seed's stream stands.
    pub state: u64,
    /// Mirostat's running budget.
    pub budget: u32,
    pub token: Option<u32>,
}

/// The arithmetic a caller does, whatever it is, as long as it is a function of what it
/// is given.
pub struct Arithmetic {
    /// The candidates that the logits of a call begin with.
    pub begin: spec_fn(int) -> Seq<(u32, u32)>,
    /// What a step that does not sort makes of a choice in a call, given the value drawn.
    pub step: spec_fn(int, Step, Choosing, u64) -> Choosing,
    /// How far off each candidate's surprise is.
    pub distances: spec_fn(Seq<(u32, u32)>) -> Seq<u32>,
    /// The running totals of the candidates along an order.
    pub sums: spec_fn(Seq<(u32, u32)>, Seq<u32>) -> Seq<u32>,
}

/// What cutting to the typical candidates may leave, going by `order`.
pub open spec fn typical_left(
    a: Arithmetic,
    typical_p: u32,
    candidates: Seq<(u32, u32)>,
    order: Seq<u32>,
    left: Seq<(u32, u32)>,
) -> bool {
    if is_at_least(typical_p, F32_ONE) || candidates.len() < 2 {
        left == candidates
    } else {
        let n = reached((a.sums)(candidates, order), typical_p);
        &&& (a.distances)(candidates).len() == candidates.len()
        &&& (a.sums)(candidates, order).len() == candidates.len()
        &&& names_each_once(order, candidates.len() as int)
        &&& rises((a.distances)(candidates), order)
        &&& is_falling(left)
        &&& left.to_multiset() == picked(candidates, order.take(n)).to_multiset()
    }
}

/// `after` is what `step` may lead to from `before`.
pub open spec fn leads(
    a: Arithmetic,
    typical_p: u32,
    call: int,
    step: Step,
    before: Choosing,
    after: Choosing,
) -> bool {
    match step {
        Step::Rank => {
            &&& after == (Choosing { candidates: after.candidates, ..before })
            &&& after.candidates.to_multiset() == before.candidates.to_multiset()
            &&& is_falling(after.candidates)
        },
        Step::TypicalP => {
            &&& after == (Choosing { candidates: after.candidates, ..before })
            &&& exists|order: Seq<u32>| #[trigger]
                typical_left(a, typical_p, before.candidates, order, after.candidates)
        },
        _ => {
            let state = if draws(step) {
                before.state.wrapping_add(GOLDEN)
            } else {
                before.state
            };
            after == (Choosing { state, ..(a.step)(call, step, before, mixed(state)) })
        },
    }
}

/// Sorting at `step` leaves nothing open.
pub open spec fn sorts_without_ties(a: Arithmetic, step: Step, before: Choosing) -> bool {
    match step {
        Step::Rank => without_ties(before.candidates),
        Step::TypicalP => {
            &&& without_ties(before.candidates)
            &&& distances_differ((a.distances)(before.candidates))
        },
        _ => true,
    }
}

/// `run` goes through `steps`, one choice behind each.
pub open spec fn goes_through(
    a: Arithmetic,
    typical_p: u32,
    call: int,
    steps: Seq<Step>,
    run: Seq<Choosing>,
) -> bool {
    &&& run.len() == steps.len() + 1
    &&& forall|i: int|
        0 <= i < steps.len() ==> leads(
            a,
            typical_p,
            call,
            #[trigger] steps[i],
            run[i],
            run[i + 1],
        )
}

proof fn a_step_leads_to_one_choice(
    a: Arithmetic,
    typical_p: u32,
    call: int,
    step: Step,
    before: Choosing,
    x: Choosing,
    y: Choosing,
)
    requires
        leads(a, typical_p, call, step, before, x),
        leads(a, typical_p, call, step, before, y),
        sorts_without_ties(a, step, before),
    ensures
        x == y,
{
    if step is Rank {
        ranking_is_determined(before.candidates, x.candidates, y.candidates);
    } else if step is TypicalP {
        let all = before.candidates;
        let p = choose|order: Seq<u32>| #[trigger]
            typical_left(a, typical_p, all, order, x.candidates);
        let q = choose|order: Seq<u32>| #[trigger]
            typical_left(a, typical_p, all, order, y.candidates);
        if !(is_at_least(typical_p, F32_ONE) || all.len() < 2) {
            typicality_is_determined((a.distances)(all), p, q);
            let n = reached((a.sums)(all, p), typical_p);
            reached_is_some((a.sums)(all, p), typical_p);
            let kept = picked(all, p.take(n));
            assert forall|c: (u32, u32)| #[trigger] kept.contains(c) implies all.contains(c) by {
                let k = choose|k: int| 0 <= k < kept.len() && kept[k] == c;
                assert(p[k] < all.len());
                assert(all[p[k] as int] == c);
            }
            assert(without_ties(kept));
            ranking_is_determined(kept, x.candidates, y.candidates);
        }
    }
}

proof fn runs_agree_upto(
    a: Arithmetic,
    typical_p: u32,
    call: int,
    steps: Seq<Step>,
    x: Seq<Choosing>,
    y: Seq<Choosing>,
    n: int,
)
    requires
        goes_through(a, typical_p, call, steps, x),
        goes_through(a, typical_p, call, steps, y),
        x[0] == y[0],
        forall|i: int| 0 <= i < steps.len() ==> sorts_without_ties(a, #[trigger] steps[i], x[i]),
        0 <= n <= steps.len(),
    ensures
        x[n] == y[n],
    decreases n,
{
    if n > 0 {
        runs_agree_upto(a, typical_p, call, steps, x, y, n - 1);
        let step = steps[n - 1];
        assert(sorts_without_ties(a, step, x[n - 1]));
        assert(leads(a, typical_p, call, step, x[n - 1], x[n - 1 + 1]));
        assert(leads(a, typical_p, call, step, y[n - 1], y[n - 1 + 1]));
        a_step_leads_to_one_choice(a, typical_p, call, step, x[n - 1], x[n], y[n]);
    }
}

/// `runs` are the choices of a sampler with this configuration, a call after the other:
/// the stream starts at the seed and mirostat's budget where it is set, and both go on
/// from call to call. Call `c` has `sizes[c]` logits.
pub open spec fn samples(
    a: Arithmetic,
    config: SamplerConfig,
    budget: u32,
    sizes: Seq<nat>,
    runs: Seq<Seq<Choosing>>,
) -> bool {
    &&& runs.len() == sizes.len()
    &&& forall|c: int|
        0 <= c < runs.len() ==> goes_through(
            a,
            config.typical_p,
            c,
            steps_of(config.path_of(sizes[c])),
            #[trigger] runs[c],
        )
    &&& forall|c: int|
        0 <= c < runs.len() ==> (#[trigger] runs[c])[0] == (Choosing {
            candidates: (a.begin)(c),
            state: if c == 0 {
                config.seed.wrapping_add(GOLDEN)
            } else {
                runs[c - 1].last().state
            },
            budget: if c == 0 {
                budget
            } else {
                runs[c - 1].last().budget
            },
            token: None,
        })
}

/// One seed gives one sequence: two samplers with the same configuration that are given
/// the same logits and histories choose the same tokens, as long as no two different
/// candidates that are sorted rank alike.
pub proof fn one_seed_gives_one_sequence(
    a: Arithmetic,
    config: SamplerConfig,
    budget: u32,
    sizes: Seq<nat>,
    x: Seq<Seq<Choosing>>,
    y: Seq<Seq<Choosing>>,
    c: int,
)
    requires
        samples(a, config, budget, sizes, x),
        samples(a, config, budget, sizes, y),
        forall|c: int, i: int|
            0 <= c < x.len() && 0 <= i < steps_of(config.path_of(sizes[c])).len()
                ==> sorts_without_ties(
                a,
                steps_of(config.path_of(sizes[c]))[i],
                #[trigger] x[c][i],
            ),
        0 <= c < x.len(),
    ensures
        x[c].last() == y[c].last(),
    decreases c,
{
    if c > 0 {
        one_seed_gives_one_sequence(a, config, budget, sizes, x, y, c - 1);
    }
    let steps = steps_of(config.path_of(sizes[c]));
    assert(goes_through(a, config.typical_p, c, steps, x[c]));
    assert(goes_through(a, config.typical_p, c, steps, y[c]));
    assert(x[c][0] == y[c][0]);
    assert forall|i: int| 0 <= i < steps.len() implies sorts_without_ties(
        a,
        #[trigger] steps[i],
        x[c][i],
    ) by {}
    runs_agree_upto(a, config.typical_p, c, steps, x[c], y[c], steps.len() as int);
}

/// Every candidate is one of `n` logits.
pub open spec fn among(candidates: Seq<(u32, u32)>, n: int) -> bool {
    forall|i: int| 0 <= i < candidates.len() ==> (#[trigger] candidates[i]).0 < n
}

/// What the truncations leave of candidates are candidates, so that whichever is drawn is
/// one of the logits.
pub proof fn truncations_keep_to_the_logits(
    candidates: Seq<(u32, u32)>,
    n: int,
    k: int,
    sums: Seq<u32>,
    target: u32,
    floor: u32,
    roll: u32,
)
    requires
        among(candidates, n),
        sums.len() == candidates.len(),
        0 <= k,
    ensures
        among(crate::sample::best_k(candidates, k), n),
        among(at_or_above(candidates, floor), n),
        among(top_p_left(candidates, sums, target), n),
        among(min_p_left(candidates, target, floor), n),
        among(mirostat_left(candidates, floor), n),
        among(crate::sample::xtc_left(candidates, target, floor, roll), n),
{
    let keep = |c: (u32, u32)| is_at_least(c.1, floor);
    reached_is_some(sums, target);
    likely_ones_are_in_front(candidates, floor, 0);
    candidates.lemma_filter_len(keep);
    filtering_keeps_to_the_logits(candidates, keep, n);
}

proof fn filtering_keeps_to_the_logits(
    candidates: Seq<(u32, u32)>,
    keep: spec_fn((u32, u32)) -> bool,
    n: int,
)
    requires
        among(candidates, n),
    ensures
        among(candidates.filter(keep), n),
    decreases candidates.len(),
{
    reveal(Seq::filter);
    if candidates.len() > 0 {
        let fewer = candidates.drop_last();
        assert forall|i: int| 0 <= i < fewer.len() implies (#[trigger] fewer[i]).0 < n by {
            assert(fewer[i] == candidates[i]);
        }
        filtering_keeps_to_the_logits(fewer, keep, n);
        assert(candidates.last() == candidates[candidates.len() - 1]);
    }
}

/// Ranking keeps to the logits too.
pub proof fn ranking_keeps_to_the_logits(candidates: Seq<(u32, u32)>, ranked: Seq<(u32, u32)>, n: int)
    requires
        among(candidates, n),
        ranked.to_multiset() == candidates.to_multiset(),
    ensures
        among(ranked, n),
{
    candidates.to_multiset_ensures();
    ranked.to_multiset_ensures();
    assert forall|i: int| 0 <= i < ranked.len() implies (#[trigger] ranked[i]).0 < n by {
        assert(ranked.contains(ranked[i]));
        assert(ranked.to_multiset().count(ranked[i]) > 0);
        assert(candidates.contains(ranked[i]));
    }
}

} // verus!
