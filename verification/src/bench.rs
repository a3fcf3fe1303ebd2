//! Measuring: which device, which prompt, which sweep, and when two sets of logits agree.
//!
//! Two kernels that sum in different orders never give equal logits. What can be asked is
//! whether their difference is larger than the model's own margin.
use crate::budget::MIB;
use crate::chat::copied;
use crate::float_bits::{above, F32_NEG_INFINITY};
#[allow(unused_imports)]
use crate::float_bits::{is_above, is_nan, value_order};
use crate::text::push_decimal;
#[allow(unused_imports)]
use crate::text::decimal;
use vstd::prelude::*;

verus! {

// -------------------------------------------------------------------- devices

/// What a compute device is.
#[derive(Debug, Clone, Copy, PartialEq, Eq, Structural)]
pub enum DeviceKind {
    Cpu,
    Gpu,
    IGpu,
    Other,
}

/// The first discrete GPU of the devices from `i` on.
pub open spec fn first_gpu(kinds: Seq<DeviceKind>, i: int) -> Option<int>
    decreases kinds.len() - i,
{
    if i >= kinds.len() {
        None
    } else if kinds[i] is Gpu {
        Some(i)
    } else {
        first_gpu(kinds, i + 1)
    }
}

/// Which device is used: the one asked for, else the first discrete GPU, and never an
/// integrated one unless asked for.
pub open spec fn device_of(kinds: Seq<DeviceKind>, want: Option<usize>) -> Result<int, Seq<char>> {
    match want {
        Some(i) => if i < kinds.len() {
            Ok(i as int)
        } else {
            Err("no device "@ + decimal(i as nat))
        },
        None => match first_gpu(kinds, 0) {
            Some(i) => Ok(i),
            None => Err("no discrete GPU on this machine; pass --device N to force one"@),
        },
    }
}

/// Chooses the device.
pub fn choose_device(kinds: &Vec<DeviceKind>, want: Option<usize>) -> (chosen: Result<
    usize,
    String,
>)
    ensures
        match chosen {
            Ok(i) => device_of(kinds@, want) == Ok::<int, Seq<char>>(i as int) && i < kinds@.len(),
            Err(text) => device_of(kinds@, want) == Err::<int, Seq<char>>(text@),
        },
{
    if let Some(i) = want {
        if i < kinds.len() {
            return Ok(i);
        }
        let mut text = copied("no device ");
        push_decimal(&mut text, i as u64);
        return Err(text);
    }
    let mut i: usize = 0;
    while i < kinds.len()
        invariant
            i <= kinds@.len(),
            first_gpu(kinds@, 0) == first_gpu(kinds@, i as int),
            want is None,
        decreases kinds@.len() - i,
    {
        if let DeviceKind::Gpu = kinds[i] {
            return Ok(i);
        }
        i = i + 1;
    }
    Err(copied("no discrete GPU on this machine; pass --device N to force one"))
}

/// Without being asked for, only a discrete GPU is used.
pub proof fn only_a_discrete_gpu_is_a_default(kinds: Seq<DeviceKind>, i: int)
    requires
        0 <= i <= kinds.len(),
    ensures
        first_gpu(kinds, i) matches Some(k) ==> i <= k < kinds.len() && kinds[k] is Gpu,
    decreases kinds.len() - i,
{
    if i < kinds.len() && !(kinds[i] is Gpu) {
        only_a_discrete_gpu_is_a_default(kinds, i + 1);
    }
}

// --------------------------------------------------------------------- upload

/// What has been bound so far, and what was left out.
#[derive(Debug, Clone, Copy, PartialEq, Eq, Structural)]
pub struct Upload {
    pub limit: Option<u64>,
    pub bound: u64,
    pub skipped: u64,
}

impl Upload {
    /// A tensor of `elements` values may be read: no limit is set, or it stays within.
    pub open spec fn fits(self, elements: u64) -> bool {
        self.limit is Some ==> self.bound + elements <= self.limit->0
    }

    pub fn new(limit: Option<u64>) -> (upload: Self)
        ensures
            upload == (Upload { limit, bound: 0, skipped: 0 }),
    {
        Upload { limit, bound: 0, skipped: 0 }
    }

    /// Whether a tensor of `elements` values may be read; one that may not is counted as
    /// left out.
    pub fn may_read(&mut self, elements: u64) -> (yes: bool)
        requires
            old(self).skipped < u64::MAX,
        ensures
            yes == old(self).fits(elements),
            *final(self) == (Upload {
                skipped: if yes {
                    old(self).skipped
                } else {
                    (old(self).skipped + 1) as u64
                },
                ..*old(self)
            }),
    {
        let yes = match self.limit {
            Some(limit) => self.bound <= limit && elements <= limit - self.bound,
            None => true,
        };
        if !yes {
            self.skipped = self.skipped + 1;
        }
        yes
    }

    /// Counts a tensor of `bytes`: bound, or left out where the device refused it.
    pub fn note(&mut self, bytes: u64, bound: bool)
        requires
            old(self).bound + bytes <= u64::MAX,
            old(self).skipped < u64::MAX,
        ensures
            *final(self) == (if bound {
                Upload { bound: (old(self).bound + bytes) as u64, ..*old(self) }
            } else {
                Upload { skipped: (old(self).skipped + 1) as u64, ..*old(self) }
            }),
    {
        if bound {
            self.bound = self.bound + bytes;
        } else {
            self.skipped = self.skipped + 1;
        }
    }
}

/// A prompt of arbitrary tokens, for speed is indifferent to which.
pub fn synthetic_prompt(n: usize) -> (tokens: Vec<u32>)
    ensures
        tokens@ == Seq::new(n as nat, |i: int| (i % 3000 + 10) as u32),
{
    let ghost want = Seq::new(n as nat, |i: int| (i % 3000 + 10) as u32);
    let mut tokens: Vec<u32> = Vec::new();
    let mut i: usize = 0;
    while i < n
        invariant
            i <= n,
            want == Seq::new(n as nat, |i: int| (i % 3000 + 10) as u32),
            tokens@ == want.take(i as int),
        decreases n - i,
    {
        tokens.push((i % 3000 + 10) as u32);
        i = i + 1;
        assert(tokens@ =~= want.take(i as int));
    }
    assert(want.take(i as int) =~= want);
    tokens
}

/// What is said of too few repeats.
pub open spec fn few_repeats_text(repeats: nat) -> Seq<char> {
    "--repeat "@ + decimal(repeats)
        + " cannot distinguish a cold shader cache from steady state.              The first run of a GPU path compiles pipelines inside the timed region; this              harness exists because that once produced a published 0.42x that was really              1.7x. Use --repeat 3 (the default), or --force if you genuinely want one run."@
}

/// Refuses fewer than two timed runs, unless forced: one cannot be told from a cold start.
pub fn check_repeats(repeats: usize, force: bool) -> (checked: Result<(), String>)
    ensures
        match checked {
            Ok(_) => repeats >= 2 || force,
            Err(text) => repeats < 2 && !force && text@ == few_repeats_text(repeats as nat),
        },
{
    if repeats >= 2 || force {
        return Ok(());
    }
    let mut text = copied("--repeat ");
    push_decimal(&mut text, repeats as u64);
    text.append(
        " cannot distinguish a cold shader cache from steady state.              The first run of a GPU path compiles pipelines inside the timed region; this              harness exists because that once produced a published 0.42x that was really              1.7x. Use --repeat 3 (the default), or --force if you genuinely want one run.",
    );
    Err(text)
}

/// What one pass of a series is for.
#[derive(Debug, Clone, Copy, PartialEq, Eq, Structural)]
pub enum SeriesPass {
    /// The first, which is discarded: it does work no later one does.
    WarmUp,
    /// Timed; the counters begin with the first of them.
    Timed { reset_counters: bool },
}

/// What pass `r` of a series is for.
pub fn series_pass(r: usize, on_device: bool) -> (pass: SeriesPass)
    ensures
        pass == (if r == 0 {
            SeriesPass::WarmUp
        } else {
            SeriesPass::Timed { reset_counters: on_device && r == 1 }
        }),
{
    if r == 0 {
        SeriesPass::WarmUp
    } else {
        SeriesPass::Timed { reset_counters: on_device && r == 1 }
    }
}

// ------------------------------------------------------------------ agreement

/// The best of the first `n` logits, its place and the second best, both negative
/// infinity before there are any.
pub open spec fn best_two(logits: Seq<u32>, n: int) -> (int, u32, u32)
    decreases n,
{
    if n <= 0 {
        (0, F32_NEG_INFINITY, F32_NEG_INFINITY)
    } else {
        let (at, best, second) = best_two(logits, n - 1);
        let v = logits[n - 1];
        if is_above(v, best) {
            (n - 1, v, best)
        } else if is_above(v, second) {
            (at, best, v)
        } else {
            (at, best, second)
        }
    }
}

/// The best logit, its place, and the second best.
pub fn top2(logits: &[u32]) -> (top: (usize, u32, u32))
    ensures
        (top.0 as int, top.1, top.2) == best_two(logits@, logits@.len() as int),
{
    let mut at: usize = 0;
    let mut best: u32 = F32_NEG_INFINITY;
    let mut second: u32 = F32_NEG_INFINITY;
    let mut i: usize = 0;
    while i < logits.len()
        invariant
            i <= logits@.len(),
            (at as int, best, second) == best_two(logits@, i as int),
        decreases logits@.len() - i,
    {
        let v: u32 = logits[i];
        if above(v, best) {
            second = best;
            best = v;
            at = i;
        } else if above(v, second) {
            second = v;
        }
        i = i + 1;
    }
    (at, best, second)
}

/// No logit is above the best, and none but the best is above the second.
pub proof fn the_best_two_are_the_greatest(logits: Seq<u32>, n: int, i: int)
    requires
        0 <= i < n <= logits.len(),
    ensures
        ({
            let (at, best, second) = best_two(logits, n);
            &&& !is_above(logits[i], best)
            &&& i != at ==> !is_above(logits[i], second)
            &&& !is_nan(best) && !is_nan(second) && value_order(best) >= value_order(second)
            &&& 0 <= at < n
            &&& logits[at] == best || best == F32_NEG_INFINITY
        }),
    decreases n,
{
    best_two_hold(logits, n - 1);
    best_two_hold(logits, n);
    if i < n - 1 {
        the_best_two_are_the_greatest(logits, n - 1, i);
    }
}

proof fn best_two_hold(logits: Seq<u32>, n: int)
    requires
        0 <= n <= logits.len(),
    ensures
        ({
            let (at, best, second) = best_two(logits, n);
            &&& !is_nan(best) && !is_nan(second)
            &&& value_order(best) >= value_order(second)
            &&& 0 <= at && (n > 0 ==> at < n)
            &&& (n > 0 && logits[at] == best) || best == F32_NEG_INFINITY
        }),
    decreases n,
{
    if n > 0 {
        best_two_hold(logits, n - 1);
    }
}

/// What two sets of logits say together.
#[derive(Debug, Clone, Copy, PartialEq, Eq, Structural)]
pub enum Verdict {
    /// They choose different tokens.
    Different,
    /// They choose the same token, but their difference exceeds the margin.
    ByLuck,
    /// Their difference is inside the margin: the token cannot flip.
    Agree,
}

/// Judges two sets of logits by the tokens they choose, their greatest difference and the
/// smaller of their margins.
pub fn verdict(argmax_cpu: usize, argmax_gpu: usize, max_abs: u32, margin: u32) -> (v: Verdict)
    ensures
        v == (if argmax_cpu != argmax_gpu {
            Verdict::Different
        } else if is_above(max_abs, margin) {
            Verdict::ByLuck
        } else {
            Verdict::Agree
        }),
{
    if argmax_cpu != argmax_gpu {
        Verdict::Different
    } else if above(max_abs, margin) {
        Verdict::ByLuck
    } else {
        Verdict::Agree
    }
}

// -------------------------------------------------------------------- kernels

/// Experts a kernel is timed with.
pub const N_USED: usize = 6;

/// Batch sizes of the sweep: a generation step, up to the range of a verifying pass.
pub fn batches() -> (sizes: Vec<usize>)
    ensures
        sizes@ == seq![1usize, 2, 4, 8, 16, 32],
{
    vec![1, 2, 4, 8, 16, 32]
}

/// Which expert each place of a batch uses: all of them, in turn.
pub fn expert_ids(tokens: usize) -> (ids: Vec<i32>)
    requires
        tokens * N_USED <= usize::MAX,
    ensures
        ids@ == Seq::new((tokens * N_USED) as nat, |i: int| (i % 6) as i32),
{
    let n: usize = tokens * N_USED;
    let ghost want = Seq::new(n as nat, |i: int| (i % 6) as i32);
    let mut ids: Vec<i32> = Vec::new();
    let mut i: usize = 0;
    while i < n
        invariant
            i <= n,
            want == Seq::new(n as nat, |i: int| (i % 6) as i32),
            ids@ == want.take(i as int),
        decreases n - i,
    {
        ids.push((i % 6) as i32);
        i = i + 1;
        assert(ids@ =~= want.take(i as int));
    }
    assert(want.take(i as int) =~= want);
    ids
}

/// The powers of two from `t` up to `max`.
pub open spec fn doublings(t: int, max: int) -> Seq<usize>
    decreases
            if t > max {
                0
            } else {
                max + 1 - t
            },
{
    if t <= 0 || t > max {
        Seq::empty()
    } else {
        seq![t as usize] + doublings(t * 2, max)
    }
}

/// Thread counts of the sweep: doubling up to what the machine has, and that too where it
/// is no power of two.
pub fn thread_sweep(max: usize) -> (counts: Vec<usize>)
    requires
        1 <= max <= usize::MAX / 2,
    ensures
        counts@ == (if doublings(1, max as int).contains(max) {
            doublings(1, max as int)
        } else {
            doublings(1, max as int).push(max)
        }),
{
    let mut counts: Vec<usize> = Vec::new();
    let mut t: usize = 1;
    let mut seen = false;
    assert(counts@ + doublings(1, max as int) =~= doublings(1, max as int));
    while t <= max
        invariant
            1 <= t,
            1 <= max <= usize::MAX / 2,
            counts@ + doublings(t as int, max as int) == doublings(1, max as int),
            seen == counts@.contains(max),
            forall|i: int| 0 <= i < counts@.len() ==> counts@[i] < t,
        decreases
                if t > max {
                    0
                } else {
                    max + 1 - t
                },
    {
        let ghost before = counts@;
        counts.push(t);
        proof {
            assert(counts@ + doublings(t * 2, max as int) =~= before + doublings(
                t as int,
                max as int,
            ));
            assert(counts@.last() == t);
            if before.contains(max) {
                let k = choose|k: int| 0 <= k < before.len() && before[k] == max;
                assert(counts@[k] == max);
            }
        }
        if t == max {
            seen = true;
        }
        t = t * 2;
    }
    assert(counts@ =~= doublings(1, max as int));
    if !seen {
        counts.push(max);
    }
    counts
}

/// Bytes of arena a timed pass over `tokens` gets.
pub fn kernel_arena(width: u64, tokens: u64) -> (bytes: u64)
    requires
        width * tokens <= u64::MAX,
        width * tokens * 192 + 256 * MIB <= u64::MAX,
    ensures
        bytes == width * tokens * 192 + 256 * MIB,
{
    proof {
        assert(0 <= width * tokens) by (nonlinear_arith)
            requires
                0 <= width,
                0 <= tokens,
        ;
    }
    width * tokens * 6 * 4 * 8 + 256 * MIB
}

/// The rows each of `threads` threads multiplies, the last taking what is left.
pub fn rows_per_thread(n: usize, threads: usize) -> (rows: usize)
    requires
        threads > 0,
    ensures
        rows == (if n as int % threads as int == 0 {
            n as int / threads as int
        } else {
            n as int / threads as int + 1
        }),
        n > 0 ==> rows > 0,
        rows * threads >= n,
{
    proof {
        let (a, t) = (n as int, threads as int);
        let q = a / t;
        let r = a % t;
        vstd::arithmetic::div_mod::lemma_fundamental_div_mod(a, t);
        vstd::arithmetic::div_mod::lemma_mod_bound(a, t);
        assert((q + 1) * t == t * q + t) by (nonlinear_arith);
        assert(q * t == t * q) by (nonlinear_arith);
        assert(0 <= q <= a) by (nonlinear_arith)
            requires
                a == t * q + r,
                0 <= r,
                r < t,
                a >= 0,
        ;
        if r != 0 {
            assert(q < a) by (nonlinear_arith)
                requires
                    a == t * q + r,
                    0 < r,
                    0 < t,
                    0 <= q,
            ;
        }
        if q == 0 {
            assert(t * q == 0) by (nonlinear_arith)
                requires
                    q == 0,
            ;
        }
    }
    if n % threads == 0 {
        n / threads
    } else {
        n / threads + 1
    }
}

} // verus!
