//! Choosing a token: which path a set of settings takes, and the steps of it that rank,
//! drop and count. Logits and probabilities are f32 bit patterns; arithmetic on them is
//! the caller's.
//!
//! The order is fixed: bias and penalties act on logits, candidates are ranked once, the
//! truncations act on probabilities, and temperature comes last.
use crate::float_bits::{
    at_least, order_key, zero, F32_NEG_INFINITY, F32_ONE, F32_ZERO,
};
#[allow(unused_imports)]
use crate::float_bits::{is_at_least, is_zero, total_order};
use crate::random::SplitMix64;
#[allow(unused_imports)]
use crate::random::{mixed, GOLDEN};
use vstd::prelude::*;

verus! {

/// `0.1`.
pub const F32_TENTH: u32 = 0x3DCC_CCCD;

/// `5.0`.
pub const F32_FIVE: u32 = 0x40A0_0000;

/// `0.8`.
pub const F32_FOUR_FIFTHS: u32 = 0x3F4C_CCCD;

/// `0.95`.
pub const F32_NINETY_FIVE_PERCENT: u32 = 0x3F73_3333;

/// `0.05`.
pub const F32_FIVE_PERCENT: u32 = 0x3D4C_CCCD;

/// `1.1`.
pub const F32_ELEVEN_TENTHS: u32 = 0x3F8C_CCCD;

/// Which filters run, and how hard. Real numbers are f32 bit patterns.
#[derive(Debug, Clone)]
pub struct SamplerConfig {
    /// 0 takes the best token and skips every filter.
    pub temperature: u32,
    /// Keep only this many of the likeliest tokens; 0 is off.
    pub top_k: usize,
    /// Keep the smallest set that holds this much probability; 1 is off.
    pub top_p: u32,
    /// Drop tokens below this share of the best one's probability; 0 is off.
    pub min_p: u32,
    /// Divide the logit of a recently used token by this; 1 is off.
    pub repeat_penalty: u32,
    /// Subtract this for every use of a token in the window; 0 is off.
    pub frequency_penalty: u32,
    /// Subtract this from any token used in the window; 0 is off.
    pub presence_penalty: u32,
    /// How far back the three penalties look.
    pub repeat_last_n: usize,
    /// Locally typical sampling; 1 is off.
    pub typical_p: u32,
    /// Keep logits within this many standard deviations of the best; 0 is off.
    pub top_n_sigma: u32,
    /// The spread of a temperature that follows the entropy; 0 is off.
    pub dynatemp_range: u32,
    pub dynatemp_exponent: u32,
    /// The chance of excluding the top choices; 0 is off.
    pub xtc_probability: u32,
    pub xtc_threshold: u32,
    /// Mirostat's version; 0 is off.
    pub mirostat: u32,
    /// Mirostat's target surprise, in bits.
    pub mirostat_tau: u32,
    /// Mirostat's learning rate.
    pub mirostat_eta: u32,
    /// Added to tokens' logits before anything else.
    pub logit_bias: Vec<(u32, u32)>,
    /// Never choose the end-of-sequence token.
    pub ignore_eos: bool,
    /// The end-of-sequence token, where the model has one.
    pub eos: Option<u32>,
    pub seed: u64,
}

/// Not above zero; false of what is not a number.
pub open spec fn not_positive(bits: u32) -> bool {
    bits == 0 || 0x8000_0000 <= bits <= F32_NEG_INFINITY
}

pub(crate) fn at_most_zero(bits: u32) -> (yes: bool)
    ensures
        yes == not_positive(bits),
{
    bits == 0 || (0x8000_0000 <= bits && bits <= F32_NEG_INFINITY)
}

impl Default for SamplerConfig {
    fn default() -> (c: Self)
        ensures
            c.has_filters(F32_ZERO, 0, F32_ONE, F32_ZERO, F32_ONE),
            c.rest_is_off(),
    {
        SamplerConfig {
            temperature: F32_ZERO,
            top_k: 0,
            top_p: F32_ONE,
            min_p: F32_ZERO,
            repeat_penalty: F32_ONE,
            frequency_penalty: F32_ZERO,
            presence_penalty: F32_ZERO,
            repeat_last_n: 64,
            typical_p: F32_ONE,
            top_n_sigma: F32_ZERO,
            dynatemp_range: F32_ZERO,
            dynatemp_exponent: F32_ONE,
            xtc_probability: F32_ZERO,
            xtc_threshold: F32_TENTH,
            mirostat: 0,
            mirostat_tau: F32_FIVE,
            mirostat_eta: F32_TENTH,
            logit_bias: Vec::new(),
            ignore_eos: false,
            eos: None,
            seed: 0,
        }
    }
}

impl SamplerConfig {
    /// How a token is chosen among `n` logits.
    pub open spec fn path_of(self, n: nat) -> SamplePath {
        if n == 0 {
            SamplePath::Empty
        } else if self.greedy() {
            SamplePath::Greedy
        } else if self.mirostat == 0 && not_positive(self.temperature) {
            SamplePath::BestOfAdjusted
        } else if self.mirostat > 0 {
            SamplePath::Mirostat {
                temperature: if not_positive(self.temperature) {
                    F32_ONE
                } else {
                    self.temperature
                },
            }
        } else {
            SamplePath::Draw {
                xtc: is_above_zero(self.xtc_probability),
                dynamic: is_above_zero(self.dynatemp_range),
            }
        }
    }

    /// The settings that the two sets of defaults differ in.
    pub open spec fn has_filters(
        self,
        temperature: u32,
        top_k: usize,
        top_p: u32,
        min_p: u32,
        repeat_penalty: u32,
    ) -> bool {
        &&& self.temperature == temperature
        &&& self.top_k == top_k
        &&& self.top_p == top_p
        &&& self.min_p == min_p
        &&& self.repeat_penalty == repeat_penalty
    }

    /// Every other setting is at the value that disables it.
    pub open spec fn rest_is_off(self) -> bool {
        &&& self.frequency_penalty == F32_ZERO
        &&& self.presence_penalty == F32_ZERO
        &&& self.repeat_last_n == 64
        &&& self.typical_p == F32_ONE
        &&& self.top_n_sigma == F32_ZERO
        &&& self.dynatemp_range == F32_ZERO
        &&& self.dynatemp_exponent == F32_ONE
        &&& self.xtc_probability == F32_ZERO
        &&& self.xtc_threshold == F32_TENTH
        &&& self.mirostat == 0
        &&& self.mirostat_tau == F32_FIVE
        &&& self.mirostat_eta == F32_TENTH
        &&& self.logit_bias@.len() == 0
        &&& !self.ignore_eos
        &&& self.eos is None
        &&& self.seed == 0
    }

    /// llama.cpp's defaults, for a comparison of engines rather than of settings.
    pub fn llamacpp_defaults() -> (c: Self)
        ensures
            c.has_filters(
                F32_FOUR_FIFTHS,
                40,
                F32_NINETY_FIVE_PERCENT,
                F32_FIVE_PERCENT,
                F32_ELEVEN_TENTHS,
            ),
            c.rest_is_off(),
    {
        let mut c = SamplerConfig::default();
        c.temperature = F32_FOUR_FIFTHS;
        c.top_k = 40;
        c.top_p = F32_NINETY_FIVE_PERCENT;
        c.min_p = F32_FIVE_PERCENT;
        c.repeat_penalty = F32_ELEVEN_TENTHS;
        c
    }

    /// Nothing but the best logit decides. Penalties, biases and a suppressed
    /// end-of-sequence token change which that is, and mirostat is never greedy.
    pub open spec fn greedy(self) -> bool {
        &&& not_positive(self.temperature)
        &&& !self.penalises()
        &&& self.logit_bias@.len() == 0
        &&& !self.ignore_eos
        &&& self.mirostat == 0
    }

    /// Some penalty is active.
    pub open spec fn penalises(self) -> bool {
        ||| self.repeat_penalty != F32_ONE
        ||| !is_zero(self.frequency_penalty)
        ||| !is_zero(self.presence_penalty)
    }

    /// Whether nothing but the best logit decides.
    pub fn is_greedy(&self) -> (yes: bool)
        ensures
            yes == self.greedy(),
    {
        at_most_zero(self.temperature) && self.repeat_penalty == F32_ONE && zero(
            self.frequency_penalty,
        ) && zero(self.presence_penalty) && self.logit_bias.len() == 0 && !self.ignore_eos
            && self.mirostat == 0
    }

    /// Whether some penalty is active.
    pub fn has_penalties(&self) -> (yes: bool)
        ensures
            yes == self.penalises(),
    {
        self.repeat_penalty != F32_ONE || !zero(self.frequency_penalty) || !zero(
            self.presence_penalty,
        )
    }
}

/// How a token is chosen.
#[derive(Debug, Clone, Copy, PartialEq, Eq, Structural)]
pub enum SamplePath {
    /// There are no logits; token 0.
    Empty,
    /// The best logit.
    Greedy,
    /// The best logit once biases and penalties are applied.
    BestOfAdjusted,
    /// To a target surprise. Mirostat brings its own temperature where none is set.
    Mirostat { temperature: u32 },
    /// The truncations, then a draw.
    Draw { xtc: bool, dynamic: bool },
}

/// Chooses tokens, reproducibly for a seed.
pub struct Sampler {
    pub config: SamplerConfig,
    pub stream: SplitMix64,
}

impl Sampler {
    pub fn new(config: SamplerConfig) -> (sampler: Self)
        ensures
            sampler.config == config,
            sampler.stream.state == config.seed.wrapping_add(GOLDEN),
    {
        let stream = SplitMix64::seeded(config.seed);
        Sampler { config, stream }
    }

    pub fn config(&self) -> (config: &SamplerConfig)
        ensures
            *config == self.config,
    {
        &self.config
    }

    /// The next of the seed's uniform values, in units of 2^-24.
    pub fn next_uniform(&mut self) -> (value: u32)
        ensures
            final(self).config == old(self).config,
            final(self).stream.state == old(self).stream.state.wrapping_add(GOLDEN),
            value == mixed(final(self).stream.state) >> 40,
            value < 0x100_0000,
    {
        self.stream.draw_24()
    }

    /// How a token is chosen among `n` logits.
    pub open spec fn path_of(self, n: nat) -> SamplePath {
        self.config.path_of(n)
    }

    /// How a token is chosen among `n` logits. A value is drawn for excluding top choices
    /// only where that is on, so that it does not move the stream of every other run.
    pub fn path(&self, n: usize) -> (path: SamplePath)
        ensures
            path == self.path_of(n as nat),
    {
        if n == 0 {
            return SamplePath::Empty;
        }
        if self.config.is_greedy() {
            return SamplePath::Greedy;
        }
        let cold = at_most_zero(self.config.temperature);
        if self.config.mirostat > 0 {
            return SamplePath::Mirostat {
                temperature: if cold {
                    F32_ONE
                } else {
                    self.config.temperature
                },
            };
        }
        if cold {
            return SamplePath::BestOfAdjusted;
        }
        SamplePath::Draw {
            xtc: crate::float_bits::above(self.config.xtc_probability, F32_ZERO),
            dynamic: crate::float_bits::above(self.config.dynatemp_range, F32_ZERO),
        }
    }
}

/// Above zero.
pub open spec fn is_above_zero(bits: u32) -> bool {
    crate::float_bits::is_above(bits, F32_ZERO)
}

// ---------------------------------------------------------------- candidates

/// The last of the greatest values, by the total order.
pub open spec fn is_last_best(values: Seq<u32>, i: int) -> bool {
    &&& 0 <= i < values.len()
    &&& forall|j: int|
        0 <= j < values.len() ==> total_order(#[trigger] values[j]) <= total_order(values[i])
    &&& forall|j: int|
        i < j < values.len() ==> total_order(#[trigger] values[j]) < total_order(values[i])
}

/// The best logit's token; 0 where there are none.
pub fn argmax(logits: &[u32]) -> (best: u32)
    requires
        logits@.len() <= u32::MAX,
    ensures
        if logits@.len() == 0 {
            best == 0
        } else {
            is_last_best(logits@, best as int)
        },
{
    if logits.len() == 0 {
        return 0;
    }
    let mut best: usize = 0;
    let mut i: usize = 1;
    while i < logits.len()
        invariant
            0 < i <= logits@.len(),
            best < i,
            forall|j: int|
                0 <= j < i ==> total_order(#[trigger] logits@[j]) <= total_order(
                    logits@[best as int],
                ),
            forall|j: int|
                best < j < i ==> total_order(#[trigger] logits@[j]) < total_order(
                    logits@[best as int],
                ),
        decreases logits@.len() - i,
    {
        if order_key(logits[i]) >= order_key(logits[best]) {
            best = i;
        }
        i = i + 1;
    }
    best as u32
}

/// The values of candidates.
pub open spec fn values_of(candidates: Seq<(u32, u32)>) -> Seq<u32> {
    candidates.map_values(|c: (u32, u32)| c.1)
}

/// Every token as a candidate, with its logit.
pub open spec fn all_candidates(logits: Seq<u32>) -> Seq<(u32, u32)> {
    Seq::new(logits.len(), |i: int| (i as u32, logits[i]))
}

/// Every token as a candidate, with its logit.
pub fn candidates(logits: &[u32]) -> (out: Vec<(u32, u32)>)
    requires
        logits@.len() <= u32::MAX,
    ensures
        out@ == all_candidates(logits@),
{
    let mut out: Vec<(u32, u32)> = Vec::new();
    let mut i: usize = 0;
    while i < logits.len()
        invariant
            i <= logits@.len() <= u32::MAX,
            out@ == all_candidates(logits@).take(i as int),
        decreases logits@.len() - i,
    {
        out.push((i as u32, logits[i]));
        i = i + 1;
        assert(out@ =~= all_candidates(logits@).take(i as int));
    }
    assert(all_candidates(logits@).take(i as int) =~= all_candidates(logits@));
    out
}

/// `candidates` with the end-of-sequence token ruled out, where that is asked for. It
/// keeps its place, because places are token ids until candidates are ranked.
pub open spec fn without_eos(candidates: Seq<(u32, u32)>, config: SamplerConfig) -> Seq<
    (u32, u32),
> {
    if config.ignore_eos && config.eos is Some && config.eos->0 < candidates.len() {
        candidates.update(
            config.eos->0 as int,
            (candidates[config.eos->0 as int].0, F32_NEG_INFINITY),
        )
    } else {
        candidates
    }
}

/// Rules the end-of-sequence token out, where that is asked for.
pub fn suppress_eos(candidates: &mut Vec<(u32, u32)>, config: &SamplerConfig)
    ensures
        final(candidates)@ == without_eos(old(candidates)@, *config),
{
    if config.ignore_eos {
        if let Some(eos) = config.eos {
            let at: usize = eos as usize;
            if at < candidates.len() {
                let id: u32 = candidates[at].0;
                candidates.set(at, (id, F32_NEG_INFINITY));
            }
        }
    }
}

/// The token of the best candidate; 0 where there are none.
pub fn best_candidate(candidates: &Vec<(u32, u32)>) -> (token: u32)
    ensures
        if candidates@.len() == 0 {
            token == 0
        } else {
            exists|i: int|
                is_last_best(values_of(candidates@), i) && token == #[trigger] candidates@[i].0
        },
{
    if candidates.len() == 0 {
        return 0;
    }
    let ghost values = values_of(candidates@);
    let mut best: usize = 0;
    let mut i: usize = 1;
    while i < candidates.len()
        invariant
            0 < i <= candidates@.len(),
            best < i,
            values == values_of(candidates@),
            forall|j: int|
                0 <= j < i ==> total_order(#[trigger] values[j]) <= total_order(
                    values[best as int],
                ),
            forall|j: int|
                best < j < i ==> total_order(#[trigger] values[j]) < total_order(
                    values[best as int],
                ),
        decreases candidates@.len() - i,
    {
        assert(values[i as int] == candidates@[i as int].1);
        assert(values[best as int] == candidates@[best as int].1);
        if order_key(candidates[i].1) >= order_key(candidates[best].1) {
            best = i;
        }
        i = i + 1;
    }
    assert(is_last_best(values, best as int));
    candidates[best].0
}

/// Candidates stand in falling order of their values.
pub open spec fn is_falling(candidates: Seq<(u32, u32)>) -> bool {
    forall|i: int, j: int|
        0 <= i <= j < candidates.len() ==> total_order((#[trigger] candidates[i]).1)
            >= total_order((#[trigger] candidates[j]).1)
}

/// What candidates are sorted by: the negative of a value's place in the total order.
pub fn falling_key(candidate: &(u32, u32)) -> (key: i64)
    ensures
        key == -total_order(candidate.1),
{
    -order_key(candidate.1)
}

/// `slice::sort_unstable_by_key`: the same elements, in rising order of the key. Which of
/// two with equal keys comes first is left open.
#[verifier::external_body]
fn sort_by_falling_key(candidates: &mut Vec<(u32, u32)>)
    ensures
        final(candidates)@.to_multiset() == old(candidates)@.to_multiset(),
        is_falling(final(candidates)@),
{
    candidates.sort_unstable_by_key(|c| falling_key(c));
}

/// Ranks candidates, best first. Every truncation behind this keeps a prefix.
pub fn rank(candidates: &mut Vec<(u32, u32)>)
    ensures
        final(candidates)@.to_multiset() == old(candidates)@.to_multiset(),
        final(candidates)@.len() == old(candidates)@.len(),
        is_falling(final(candidates)@),
{
    let ghost before = candidates@;
    sort_by_falling_key(candidates);
    proof {
        before.to_multiset_ensures();
        candidates@.to_multiset_ensures();
    }
}

/// No two different candidates have values that rank alike.
pub open spec fn without_ties(candidates: Seq<(u32, u32)>) -> bool {
    forall|c: (u32, u32), d: (u32, u32)| #[trigger]
        candidates.contains(c) && #[trigger] candidates.contains(d) && total_order(c.1)
            == total_order(d.1) ==> c == d
}

/// Without ties there is one ranking.
pub proof fn ranking_is_determined(
    candidates: Seq<(u32, u32)>,
    a: Seq<(u32, u32)>,
    b: Seq<(u32, u32)>,
)
    requires
        without_ties(candidates),
        a.to_multiset() == candidates.to_multiset(),
        b.to_multiset() == candidates.to_multiset(),
        is_falling(a),
        is_falling(b),
    ensures
        a == b,
    decreases a.len(),
{
    candidates.to_multiset_ensures();
    a.to_multiset_ensures();
    b.to_multiset_ensures();
    if a.len() > 0 {
        let first = a[0];
        let other = b[0];
        assert(a.contains(first) && b.contains(other));
        assert(a.to_multiset().count(first) > 0 && b.to_multiset().count(other) > 0);
        assert(candidates.contains(first) && candidates.contains(other));
        assert(b.contains(first) && a.contains(other));
        let i = choose|i: int| 0 <= i < a.len() && a[i] == other;
        let j = choose|j: int| 0 <= j < b.len() && b[j] == first;
        assert(total_order(a[0].1) >= total_order(a[i].1));
        assert(total_order(b[0].1) >= total_order(b[j].1));
        assert(first == other);
        let rest = a.remove(0);
        rest.to_multiset_ensures();
        assert forall|c: (u32, u32)| #[trigger] rest.contains(c) implies candidates.contains(c) by {
            let k = choose|k: int| 0 <= k < rest.len() && rest[k] == c;
            assert(a[k + 1] == c);
            assert(a.contains(c));
            assert(a.to_multiset().count(c) > 0);
        }
        assert(is_falling(rest)) by {
            assert forall|k: int, l: int| 0 <= k <= l < rest.len() implies total_order(
                (#[trigger] rest[k]).1,
            ) >= total_order((#[trigger] rest[l]).1) by {
                assert(rest[k] == a[k + 1] && rest[l] == a[l + 1]);
            }
        }
        assert(is_falling(b.remove(0))) by {
            assert forall|k: int, l: int| 0 <= k <= l < b.remove(0).len() implies total_order(
                (#[trigger] b.remove(0)[k]).1,
            ) >= total_order((#[trigger] b.remove(0)[l]).1) by {
                assert(b.remove(0)[k] == b[k + 1] && b.remove(0)[l] == b[l + 1]);
            }
        }
        ranking_is_determined(rest, rest, b.remove(0));
        assert(a =~= seq![first] + rest);
        assert(b =~= seq![first] + b.remove(0));
    } else {
        assert(b.len() == 0);
        assert(a =~= b);
    }
}

/// What is left of ranked candidates where only the best `k` are kept; 0 keeps all.
pub open spec fn best_k(candidates: Seq<(u32, u32)>, k: int) -> Seq<(u32, u32)> {
    if k > 0 && k < candidates.len() {
        candidates.take(k)
    } else {
        candidates
    }
}

/// Keeps only the best `k` of ranked candidates; 0 keeps all.
pub fn keep_top_k(candidates: &mut Vec<(u32, u32)>, k: usize)
    ensures
        final(candidates)@ == best_k(old(candidates)@, k as int),
{
    if k > 0 && k < candidates.len() {
        candidates.truncate(k);
        assert(candidates@ =~= old(candidates)@.take(k as int));
    }
}

/// With only one candidate kept, that is the best one, however hot the temperature.
pub proof fn top_one_is_greedy(ranked: Seq<(u32, u32)>, c: (u32, u32))
    requires
        is_falling(ranked),
        ranked.contains(c),
    ensures
        best_k(ranked, 1).len() == 1,
        total_order(best_k(ranked, 1)[0].1) >= total_order(c.1),
{
    let i = choose|i: int| 0 <= i < ranked.len() && ranked[i] == c;
    assert(total_order(ranked[0].1) >= total_order(ranked[i].1));
}

/// As many candidates are kept as are asked for, from the best down: exactly `k` of more
/// than `k`, all of `k` or fewer, and none that is dropped ranks above one that is kept.
pub proof fn the_best_k_are_kept(ranked: Seq<(u32, u32)>, k: int, i: int, j: int)
    requires
        is_falling(ranked),
        0 <= k,
    ensures
        0 < k < ranked.len() ==> best_k(ranked, k).len() == k,
        k == 0 || k >= ranked.len() ==> best_k(ranked, k) == ranked,
        0 <= i < best_k(ranked, k).len() ==> best_k(ranked, k)[i] == ranked[i],
        0 <= i < best_k(ranked, k).len() <= j < ranked.len() ==> total_order(
            best_k(ranked, k)[i].1,
        ) >= total_order(ranked[j].1),
        is_falling(best_k(ranked, k)),
{
    if 0 <= i < best_k(ranked, k).len() <= j < ranked.len() {
        assert(total_order(ranked[i].1) >= total_order(ranked[j].1));
    }
    assert forall|a: int, b: int| 0 <= a <= b < best_k(ranked, k).len() implies total_order(
        (#[trigger] best_k(ranked, k)[a]).1,
    ) >= total_order((#[trigger] best_k(ranked, k)[b]).1) by {
        assert(best_k(ranked, k)[a] == ranked[a] && best_k(ranked, k)[b] == ranked[b]);
    }
}

/// Keeping fewer after keeping more is keeping the fewer.
pub proof fn keeping_fewer_is_what_counts(ranked: Seq<(u32, u32)>, k: int, l: int)
    requires
        0 < k,
        0 < l,
    ensures
        best_k(best_k(ranked, k), l) == best_k(
            ranked,
            if k < l {
                k
            } else {
                l
            },
        ),
{
    assert(best_k(best_k(ranked, k), l) =~= best_k(
        ranked,
        if k < l {
            k
        } else {
            l
        },
    ));
}

// ----------------------------------------------------------- exclude choices

/// How many candidates from the front are at or above the threshold.
pub open spec fn likely(candidates: Seq<(u32, u32)>, threshold: u32) -> int
    decreases candidates.len(),
{
    if candidates.len() > 0 && is_at_least(candidates[0].1, threshold) {
        1 + likely(candidates.skip(1), threshold)
    } else {
        0
    }
}

/// Counts the candidates from the front that are at or above a threshold.
pub(crate) fn count_likely(candidates: &Vec<(u32, u32)>, threshold: u32) -> (n: usize)
    ensures
        n == likely(candidates@, threshold),
        n <= candidates@.len(),
{
    let ghost all = candidates@;
    let mut n: usize = 0;
    assert(all.skip(0) =~= all);
    while n < candidates.len() && at_least(candidates[n].1, threshold)
        invariant
            n <= candidates@.len(),
            candidates@ == all,
            likely(all, threshold) == n + likely(all.skip(n as int), threshold),
        decreases candidates@.len() - n,
    {
        assert(all.skip(n as int)[0] == all[n as int]);
        assert(all.skip(n as int).skip(1) =~= all.skip(n + 1));
        n = n + 1;
    }
    assert(n < all.len() ==> all.skip(n as int)[0] == all[n as int]);
    n
}

/// What is left of ranked candidates once the top choices are excluded: all but the last
/// of those above the threshold go, where the roll comes up and there are two of them.
pub open spec fn xtc_left(
    candidates: Seq<(u32, u32)>,
    probability: u32,
    threshold: u32,
    roll: u32,
) -> Seq<(u32, u32)> {
    let n = likely(candidates, threshold);
    if not_positive(probability) || is_at_least(roll, probability) || candidates.len() < 2 || n
        < 2 {
        candidates
    } else {
        candidates.skip(n - 1)
    }
}

/// Excludes the top choices. The least likely above the threshold stays, so that a
/// plausible token is left to fall back on.
pub fn apply_xtc(candidates: &mut Vec<(u32, u32)>, probability: u32, threshold: u32, roll: u32)
    ensures
        final(candidates)@ == xtc_left(old(candidates)@, probability, threshold, roll),
{
    let off = at_most_zero(probability) || at_least(roll, probability);
    if off || candidates.len() < 2 {
        return;
    }
    let ghost all = candidates@;
    let n: usize = count_likely(candidates, threshold);
    if n < 2 {
        return;
    }
    let left = candidates.split_off(n - 1);
    assert(left@ =~= all.skip(n - 1));
    *candidates = left;
}

/// Excluding top choices never empties the list, and a choice above the threshold is
/// still first where there was one.
pub proof fn xtc_leaves_a_plausible_choice(
    candidates: Seq<(u32, u32)>,
    probability: u32,
    threshold: u32,
    roll: u32,
)
    requires
        candidates.len() > 0,
    ensures
        ({
            let left = xtc_left(candidates, probability, threshold, roll);
            &&& left.len() > 0
            &&& is_at_least(candidates[0].1, threshold) ==> is_at_least(left[0].1, threshold)
        }),
{
    likely_ones_are_in_front(candidates, threshold, likely(candidates, threshold) - 1);
}

/// Every candidate counted as likely is at or above the threshold.
pub proof fn likely_ones_are_in_front(candidates: Seq<(u32, u32)>, threshold: u32, i: int)
    ensures
        0 <= likely(candidates, threshold) <= candidates.len(),
        0 <= i < likely(candidates, threshold) ==> is_at_least(candidates[i].1, threshold),
    decreases candidates.len(),
{
    if candidates.len() > 0 && is_at_least(candidates[0].1, threshold) {
        likely_ones_are_in_front(candidates.skip(1), threshold, i - 1);
        if 0 < i < candidates.len() {
            assert(candidates.skip(1)[i - 1] == candidates[i]);
        }
    }
}

// ----------------------------------------------------------------- penalties

/// The tokens the penalties look at: the last `last_n`.
pub open spec fn window_of(history: Seq<u32>, last_n: int) -> Seq<u32> {
    if last_n < history.len() {
        history.skip(history.len() - last_n)
    } else {
        history
    }
}

/// How often `token` occurs.
pub open spec fn uses_of(window: Seq<u32>, token: u32) -> nat
    decreases window.len(),
{
    if window.len() == 0 {
        0
    } else {
        uses_of(window.drop_last(), token) + (if window.last() == token {
            1nat
        } else {
            0nat
        })
    }
}

/// The distinct tokens of a window with how often each occurs.
pub open spec fn are_counts(counts: Seq<(u32, u32)>, window: Seq<u32>) -> bool {
    &&& forall|i: int|
        0 <= i < counts.len() ==> (#[trigger] counts[i]).1 == uses_of(window, counts[i].0)
            && counts[i].1 > 0
    &&& forall|i: int, j: int|
        0 <= i < j < counts.len() ==> (#[trigger] counts[i]).0 != (#[trigger] counts[j]).0
    &&& forall|t: u32|
        uses_of(window, t) > 0 ==> exists|i: int|
            0 <= i < counts.len() && (#[trigger] counts[i]).0 == t
}

proof fn uses_are_few(window: Seq<u32>, token: u32)
    ensures
        uses_of(window, token) <= window.len(),
    decreases window.len(),
{
    if window.len() > 0 {
        uses_are_few(window.drop_last(), token);
    }
}

/// Where the counts hold `token`.
fn place_of(counts: &Vec<(u32, u32)>, token: u32) -> (place: Option<usize>)
    ensures
        match place {
            Some(i) => i < counts@.len() && counts@[i as int].0 == token,
            None => forall|j: int| 0 <= j < counts@.len() ==> (#[trigger] counts@[j]).0 != token,
        },
{
    let mut i: usize = 0;
    while i < counts.len()
        invariant
            i <= counts@.len(),
            forall|j: int| 0 <= j < i ==> (#[trigger] counts@[j]).0 != token,
        decreases counts@.len() - i,
    {
        if counts[i].0 == token {
            return Some(i);
        }
        i = i + 1;
    }
    None
}

/// Counts one more token.
fn count_token(counts: &mut Vec<(u32, u32)>, token: u32, Ghost(window): Ghost<Seq<u32>>)
    requires
        are_counts(old(counts)@, window),
        window.len() < u32::MAX,
    ensures
        are_counts(final(counts)@, window.push(token)),
{
    let ghost more = window.push(token);
    let ghost before = counts@;
    proof {
        assert(more.drop_last() =~= window);
        assert forall|t: u32| #[trigger] uses_of(more, t) == uses_of(window, t) + (if t == token {
            1nat
        } else {
            0nat
        }) by {}
        uses_are_few(window, token);
    }
    match place_of(counts, token) {
        Some(i) => {
            let n: u32 = counts[i].1;
            assert(before[i as int].1 == uses_of(window, token));
            counts.set(i, (token, n + 1));
            proof {
                assert forall|t: u32| uses_of(more, t) > 0 implies exists|k: int|
                    0 <= k < counts@.len() && (#[trigger] counts@[k]).0 == t by {
                    if t == token {
                        assert(counts@[i as int].0 == t);
                    } else {
                        let k = choose|k: int|
                            0 <= k < before.len() && (#[trigger] before[k]).0 == t;
                        assert(counts@[k].0 == t);
                    }
                }
            }
        },
        None => {
            counts.push((token, 1));
            proof {
                if uses_of(window, token) > 0 {
                    let k = choose|k: int|
                        0 <= k < before.len() && (#[trigger] before[k]).0 == token;
                    assert(false);
                }
                assert forall|t: u32| uses_of(more, t) > 0 implies exists|k: int|
                    0 <= k < counts@.len() && (#[trigger] counts@[k]).0 == t by {
                    if t == token {
                        assert(counts@[before.len() as int].0 == t);
                    } else {
                        let k = choose|k: int|
                            0 <= k < before.len() && (#[trigger] before[k]).0 == t;
                        assert(counts@[k].0 == t);
                    }
                }
            }
        },
    }
}

/// How often each token of the last `last_n` was used. Only these are penalised.
pub fn penalty_counts(history: &[u32], last_n: usize) -> (counts: Vec<(u32, u32)>)
    requires
        history@.len() <= u32::MAX,
    ensures
        are_counts(counts@, window_of(history@, last_n as int)),
{
    let from: usize = if last_n < history.len() {
        history.len() - last_n
    } else {
        0
    };
    let ghost window = window_of(history@, last_n as int);
    assert(window =~= history@.skip(from as int));
    let mut counts: Vec<(u32, u32)> = Vec::new();
    let mut i: usize = from;
    while i < history.len()
        invariant
            from <= i <= history@.len() <= u32::MAX,
            window == history@.skip(from as int),
            are_counts(counts@, window.take(i - from)),
        decreases history@.len() - i,
    {
        let token: u32 = history[i];
        count_token(&mut counts, token, Ghost(window.take(i - from)));
        assert(window.take(i + 1 - from) =~= window.take(i - from).push(token));
        i = i + 1;
    }
    assert(window.take(i - from) =~= window);
    counts
}

/// How often `token` was used, by the counts of a window.
pub fn uses(counts: &Vec<(u32, u32)>, token: u32) -> (n: u32)
    ensures
        forall|window: Seq<u32>|
            #[trigger] are_counts(counts@, window) ==> n == uses_of(window, token),
{
    match place_of(counts, token) {
        Some(i) => counts[i].1,
        None => 0,
    }
}

/// A token used only before the window is not penalised.
pub proof fn penalties_look_only_at_their_window(history: Seq<u32>, last_n: int, token: u32)
    requires
        0 <= last_n <= history.len(),
        forall|i: int| history.len() - last_n <= i < history.len() ==> history[i] != token,
    ensures
        uses_of(window_of(history, last_n), token) == 0,
{
    let window = window_of(history, last_n);
    assert forall|i: int| 0 <= i < window.len() implies window[i] != token by {
        assert(window[i] == history[history.len() - last_n + i]);
    }
    unused_tokens_count_zero(window, token);
}

proof fn unused_tokens_count_zero(window: Seq<u32>, token: u32)
    requires
        forall|i: int| 0 <= i < window.len() ==> window[i] != token,
    ensures
        uses_of(window, token) == 0,
    decreases window.len(),
{
    if window.len() > 0 {
        unused_tokens_count_zero(window.drop_last(), token);
    }
}

/// The defaults take the best logit, and so change nothing for a caller that asks for
/// nothing.
pub proof fn defaults_are_greedy(c: SamplerConfig)
    requires
        c.has_filters(F32_ZERO, 0, F32_ONE, F32_ZERO, F32_ONE),
        c.rest_is_off(),
    ensures
        c.greedy(),
{
}

/// A penalty, a bias, a suppressed end or mirostat is never skipped as greedy.
pub proof fn nothing_asked_for_is_skipped(c: SamplerConfig)
    requires
        c.penalises() || c.logit_bias@.len() > 0 || c.ignore_eos || c.mirostat > 0,
    ensures
        !c.greedy(),
{
}

} // verus!
