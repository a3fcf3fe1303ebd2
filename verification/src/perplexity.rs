//! Perplexity over a corpus: which positions are evaluated, and which are scored.
//!
//! The corpus is cut into whole chunks, each evaluated from an empty history. Only the
//! second half of a chunk is scored, so that every scored token has a long history: the
//! windowing is the measurement.
use crate::chat::copied;
use crate::text::push_decimal;
#[allow(unused_imports)]
use crate::text::decimal;
use vstd::prelude::*;

verus! {

/// Where the last position's row begins among `len` logits, or what is said where they
/// do not hold one.
pub open spec fn too_few_logits(len: nat, vocab: nat) -> Seq<char> {
    "logits too small: "@ + decimal(len) + " < "@ + decimal(vocab)
}

/// Where the last position's row begins among `len` logits. A pass over several
/// positions gives a row for each, and only the last predicts the next token.
pub fn last_row(len: usize, vocab: usize) -> (row: Result<usize, String>)
    ensures
        match row {
            Ok(at) => len >= vocab && at == len - vocab,
            Err(text) => len < vocab && text@ == too_few_logits(len as nat, vocab as nat),
        },
{
    if len >= vocab {
        return Ok(len - vocab);
    }
    let mut text = copied("logits too small: ");
    push_decimal(&mut text, len as u64);
    text.append(" < ");
    push_decimal(&mut text, vocab as u64);
    Err(text)
}

/// How a corpus is scored.
#[derive(Debug, Clone, Copy, PartialEq, Eq, Structural)]
pub struct PerplexityPlan {
    pub tokens: usize,
    pub chunk_size: usize,
    /// Whole chunks; a trailing fragment is left out.
    pub chunks: usize,
    /// The first position of a chunk that is scored.
    pub first_scored: usize,
}

impl PerplexityPlan {
    pub open spec fn wf(self) -> bool {
        &&& self.chunk_size > 0
        &&& self.chunks == self.tokens / self.chunk_size
        &&& self.first_scored == self.chunk_size / 2 + 1
    }

    /// Position `i` of a chunk is scored: it is in the second half.
    pub open spec fn scores(self, i: int) -> bool {
        self.first_scored <= i < self.chunk_size
    }

    /// Position `i` of a chunk is evaluated: the last predicts nothing further.
    pub open spec fn evaluates(self, i: int) -> bool {
        i == 0 || 0 < i && i + 1 < self.chunk_size
    }

    /// Positions of one chunk that are scored.
    pub open spec fn scored_per_chunk(self) -> int {
        if self.chunk_size > self.first_scored {
            self.chunk_size - self.first_scored
        } else {
            0
        }
    }

    /// Plans a run over `tokens` tokens in chunks of `chunk_size`.
    pub fn new(tokens: usize, chunk_size: usize) -> (plan: Result<PerplexityPlan, String>)
        requires
            chunk_size > 0,
        ensures
            match plan {
                Ok(p) => tokens >= 2 && p.wf() && p.tokens == tokens && p.chunk_size == chunk_size,
                Err(text) => tokens < 2 && text@
                    == "perplexity needs at least 2 tokens; use -f with a real corpus"@,
            },
    {
        if tokens < 2 {
            return Err(copied("perplexity needs at least 2 tokens; use -f with a real corpus"));
        }
        Ok(
            PerplexityPlan {
                tokens,
                chunk_size,
                chunks: tokens / chunk_size,
                first_scored: chunk_size / 2 + 1,
            },
        )
    }

    /// Whether position `i` of a chunk is scored.
    pub fn is_scored(&self, i: usize) -> (yes: bool)
        ensures
            yes == self.scores(i as int),
    {
        self.first_scored <= i && i < self.chunk_size
    }

    /// Whether position `i` of a chunk is evaluated.
    pub fn is_evaluated(&self, i: usize) -> (yes: bool)
        ensures
            yes == self.evaluates(i as int),
    {
        i == 0 || i < self.chunk_size && 1 < self.chunk_size - i
    }

    /// The tokens of chunk `k`: where they begin, and where they end.
    pub fn chunk(&self, k: usize) -> (bounds: (usize, usize))
        requires
            self.wf(),
            k < self.chunks,
        ensures
            bounds.0 == k * self.chunk_size,
            bounds.1 == bounds.0 + self.chunk_size,
            bounds.1 <= self.tokens,
    {
        proof {
            chunks_stay_inside(self.tokens as int, self.chunk_size as int, k as int);
        }
        let from: usize = k * self.chunk_size;
        (from, from + self.chunk_size)
    }

    /// How many tokens the whole run scores.
    pub fn scored(&self) -> (n: usize)
        requires
            self.wf(),
        ensures
            n == self.chunks * self.scored_per_chunk(),
    {
        let each: usize = if self.chunk_size > self.first_scored {
            self.chunk_size - self.first_scored
        } else {
            0
        };
        proof {
            let (t, c, k) = (self.tokens as int, self.chunk_size as int, self.chunks as int);
            vstd::arithmetic::div_mod::lemma_fundamental_div_mod(t, c);
            vstd::arithmetic::div_mod::lemma_mod_bound(t, c);
            assert(c * k == k * c) by (nonlinear_arith);
            assert(k * each <= k * c) by (nonlinear_arith)
                requires
                    0 <= k,
                    0 <= each <= c,
            ;
        }
        self.chunks * each
    }

    /// What is said of a run that scored nothing.
    pub open spec fn nothing_scored(self) -> Seq<char> {
        "no chunk reached 2 tokens: the corpus is "@ + decimal(self.tokens as nat)
            + " tokens and --ppl-chunk is "@ + decimal(self.chunk_size as nat)
    }

    /// Whether the run has a result: it scored at least one token.
    pub fn check(&self) -> (done: Result<(), String>)
        requires
            self.wf(),
        ensures
            match done {
                Ok(_) => self.chunks * self.scored_per_chunk() > 0,
                Err(text) => self.chunks * self.scored_per_chunk() == 0 && text@
                    == self.nothing_scored(),
            },
    {
        if self.scored() > 0 {
            return Ok(());
        }
        let mut text = copied("no chunk reached 2 tokens: the corpus is ");
        push_decimal(&mut text, self.tokens as u64);
        text.append(" tokens and --ppl-chunk is ");
        push_decimal(&mut text, self.chunk_size as u64);
        Err(text)
    }
}

/// A whole chunk lies inside the corpus.
pub proof fn chunks_stay_inside(tokens: int, chunk_size: int, k: int)
    requires
        0 <= k < tokens / chunk_size,
        chunk_size > 0,
    ensures
        0 <= k * chunk_size,
        k * chunk_size + chunk_size <= tokens,
{
    let n = tokens / chunk_size;
    vstd::arithmetic::div_mod::lemma_fundamental_div_mod(tokens, chunk_size);
    vstd::arithmetic::div_mod::lemma_mod_bound(tokens, chunk_size);
    assert(0 <= k * chunk_size && k * chunk_size + chunk_size <= chunk_size * n)
        by (nonlinear_arith)
        requires
            0 <= k,
            k + 1 <= n,
            chunk_size > 0,
    ;
}

/// Every scored token has more than half a chunk of history, all of which was evaluated
/// before it.
pub proof fn scored_tokens_have_history(plan: PerplexityPlan, i: int)
    requires
        plan.wf(),
        plan.scores(i),
    ensures
        i > plan.chunk_size as int / 2,
        forall|j: int| 0 <= j < i ==> #[trigger] plan.evaluates(j),
{
}

/// A chunk of `n` tokens scores `n - 1 - n / 2` of them.
pub proof fn a_chunk_scores_its_second_half(plan: PerplexityPlan)
    requires
        plan.wf(),
        plan.chunk_size >= 2,
    ensures
        plan.scored_per_chunk() == plan.chunk_size - 1 - plan.chunk_size as int / 2,
{
}

} // verus!
