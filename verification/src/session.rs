//! A generation session: what is refused before any work, how a prompt is prefilled, and
//! what happens with each token.
use crate::chat::copied;
use crate::error::quoted;
#[allow(unused_imports)]
use crate::error::debug_text;
#[allow(unused_imports)]
use crate::names::literals;
#[allow(unused_imports)]
use crate::names::texts;
#[allow(unused_imports)]
use crate::perplexity::too_few_logits;
use crate::perplexity::last_row;
use crate::qwen3::{architecture_is_verified, verified_architecture_names};
#[allow(unused_imports)]
use crate::qwen3::verified_architectures;
use crate::text::{chars_of, has, push_decimal, same_text};
#[allow(unused_imports)]
use crate::text::{decimal, has_text};
use vstd::prelude::*;

verus! {

// ------------------------------------------------------------------ refusals

/// Where the grammar comes from.
#[derive(Debug, Clone, Copy, PartialEq, Eq, Structural)]
pub enum GrammarSource {
    Nothing,
    Grammar,
    JsonSchema,
}

/// Where the grammar comes from; asking for both is refused.
pub fn grammar_source(grammar: bool, schema: bool) -> (source: Result<GrammarSource, String>)
    ensures
        match source {
            Ok(GrammarSource::Nothing) => !grammar && !schema,
            Ok(GrammarSource::Grammar) => grammar && !schema,
            Ok(GrammarSource::JsonSchema) => !grammar && schema,
            Err(text) => grammar && schema && text@
                == "--grammar and --json-schema are alternatives; pass one"@,
        },
{
    if grammar && schema {
        return Err(copied("--grammar and --json-schema are alternatives; pass one"));
    }
    Ok(
        if grammar {
            GrammarSource::Grammar
        } else if schema {
            GrammarSource::JsonSchema
        } else {
            GrammarSource::Nothing
        },
    )
}

/// Texts one behind the other, with `between` them.
pub open spec fn joined(parts: Seq<Seq<char>>, between: Seq<char>, n: int) -> Seq<char>
    decreases n,
{
    if n <= 0 {
        Seq::empty()
    } else if n == 1 {
        parts[0]
    } else {
        joined(parts, between, n - 1) + between + parts[n - 1]
    }
}

fn join(parts: &Vec<&'static str>, between: &str) -> (text: String)
    ensures
        text@ == joined(literals(parts@), between@, parts@.len() as int),
{
    let mut text = String::new();
    let mut i: usize = 0;
    assert(text@ =~= Seq::empty());
    while i < parts.len()
        invariant
            i <= parts@.len(),
            text@ == joined(literals(parts@), between@, i as int),
        decreases parts@.len() - i,
    {
        let ghost before = text@;
        assert(literals(parts@)[i as int] == parts@[i as int]@);
        if i > 0 {
            text.append(between);
        }
        text.append(parts[i]);
        i = i + 1;
        proof {
            if i == 1 {
                assert(text@ =~= literals(parts@)[0]);
            } else {
                assert(text@ =~= before + between@ + literals(parts@)[i - 1]);
            }
        }
    }
    text
}

/// What is said of an architecture nobody has checked.
pub open spec fn unverified_text(arch: Seq<char>) -> Seq<char> {
    debug_text(arch) + " is not an architecture this build has been verified against.\n"@
        + "           verified: "@ + joined(
        verified_architectures(),
        ", "@,
        verified_architectures().len() as int,
    ) + "\n\n           It may load and generate, and be WRONG with no error.\n"@
        + "           Gemma-2 does exactly that: it answers \"The capital of\n"@
        + "           France is\" with \"himselff\", because it needs post-norms,\n"@
        + "           logit soft-capping and embedding scaling this path does not\n"@
        + "           implement -- none of which appear as a missing tensor.\n"@
        + "\n           Pass --force to run it anyway."@
}

/// Refuses an architecture nobody has checked, rather than answering wrongly and
/// confidently, unless forced.
pub fn refuse_unverified(arch: &str, force: bool) -> (refusal: Option<String>)
    ensures
        match refusal {
            Some(text) => !force && !verified_architectures().contains(arch@) && text@
                == unverified_text(arch@),
            None => force || verified_architectures().contains(arch@),
        },
{
    let verified = architecture_is_verified(arch);
    if force || verified {
        return None;
    }
    let names = verified_architecture_names();
    assert(names@.len() == literals(names@).len());
    let mut text = quoted(arch);
    text.append(" is not an architecture this build has been verified against.\n");
    text.append("           verified: ");
    text.append(join(&names, ", ").as_str());
    text.append("\n\n           It may load and generate, and be WRONG with no error.\n");
    text.append("           Gemma-2 does exactly that: it answers \"The capital of\n");
    text.append("           France is\" with \"himselff\", because it needs post-norms,\n");
    text.append("           logit soft-capping and embedding scaling this path does not\n");
    text.append("           implement -- none of which appear as a missing tensor.\n");
    text.append("\n           Pass --force to run it anyway.");
    Some(text)
}

/// The path that runs a model.
#[derive(Debug, Clone, Copy, PartialEq, Eq, Structural)]
pub enum Engine {
    /// DeepSeek-V4-Flash has a graph of its own.
    Deepseek4,
    /// Every other architecture, dense or with experts, with a key/value history.
    Streaming,
    /// The stateless graph over the whole sequence, kept to measure against.
    Uncached,
}

/// Which path runs `arch`.
pub fn engine_for(arch: &str, uncached: bool) -> (engine: Engine)
    ensures
        engine == (if arch@ == "deepseek4"@ {
            Engine::Deepseek4
        } else if uncached {
            Engine::Uncached
        } else {
            Engine::Streaming
        }),
{
    if same_text(arch, "deepseek4") {
        Engine::Deepseek4
    } else if uncached {
        Engine::Uncached
    } else {
        Engine::Streaming
    }
}

/// What is said of a prompt that holds nothing.
pub open spec fn empty_prompt_text(engine: Engine) -> Seq<char> {
    if engine is Deepseek4 {
        "empty prompt"@
    } else {
        "prompt encoded to zero tokens"@
    }
}

/// Refuses a prompt of no tokens.
pub fn check_prompt(tokens: usize, engine: Engine) -> (checked: Result<(), String>)
    ensures
        match checked {
            Ok(_) => tokens > 0,
            Err(text) => tokens == 0 && text@ == empty_prompt_text(engine),
        },
{
    if tokens > 0 {
        return Ok(());
    }
    Err(
        match engine {
            Engine::Deepseek4 => copied("empty prompt"),
            _ => copied("prompt encoded to zero tokens"),
        },
    )
}

/// What is said of a sequence past what the implementation can run correctly.
pub open spec fn past_correct_text(tokens: nat, n_predict: nat, correct: nat) -> Seq<char> {
    "prompt is "@ + decimal(tokens) + " tokens and -n is "@ + decimal(n_predict)
        + ", past the "@ + decimal(correct)
        + " this build can run              correctly for this model (its sliding-window attention is not implemented, so              beyond the window the local layers would attend too far -- silently)"@
}

/// What is said of a sequence past the context asked for.
pub open spec fn past_limit_text(tokens: nat, n_predict: nat, limit: nat) -> Seq<char> {
    "prompt is "@ + decimal(tokens) + " tokens and -n is "@ + decimal(n_predict)
        + ", which exceeds the -c limit of "@ + decimal(limit)
}

/// What is said of a sequence that does not fit: past what the implementation can run
/// correctly, or past the context asked for.
pub open spec fn context_refusal(
    tokens: nat,
    n_predict: nat,
    correct: nat,
    limit: Option<usize>,
) -> Option<Seq<char>> {
    if tokens + n_predict > correct {
        Some(past_correct_text(tokens, n_predict, correct))
    } else if limit is Some && tokens + n_predict > limit->0 {
        Some(past_limit_text(tokens, n_predict, limit->0 as nat))
    } else {
        None
    }
}

fn begin_length(tokens: usize, n_predict: usize) -> (text: String)
    ensures
        text@ == "prompt is "@ + decimal(tokens as nat) + " tokens and -n is "@ + decimal(
            n_predict as nat,
        ),
{
    let mut text = copied("prompt is ");
    push_decimal(&mut text, tokens as u64);
    text.append(" tokens and -n is ");
    push_decimal(&mut text, n_predict as u64);
    text
}

/// Refuses a sequence that does not fit before any work is done on it.
pub fn check_context(tokens: usize, n_predict: usize, correct: usize, limit: Option<usize>) -> (checked:
    Result<(), String>)
    requires
        tokens + n_predict <= usize::MAX,
    ensures
        match checked {
            Ok(_) => context_refusal(
                tokens as nat,
                n_predict as nat,
                correct as nat,
                limit,
            ) is None,
            Err(text) => context_refusal(tokens as nat, n_predict as nat, correct as nat, limit)
                == Some(text@),
        },
{
    if tokens + n_predict > correct {
        let mut text = begin_length(tokens, n_predict);
        text.append(", past the ");
        push_decimal(&mut text, correct as u64);
        text.append(
            " this build can run              correctly for this model (its sliding-window attention is not implemented, so              beyond the window the local layers would attend too far -- silently)",
        );
        return Err(text);
    }
    if let Some(most) = limit {
        if tokens + n_predict > most {
            let mut text = begin_length(tokens, n_predict);
            text.append(", which exceeds the -c limit of ");
            push_decimal(&mut text, most as u64);
            return Err(text);
        }
    }
    Ok(())
}

// ------------------------------------------------------------------- prefill

/// Where the block that begins at `from` ends: a full block on, or at the prompt's end.
pub open spec fn block_end(from: int, len: int, block: int) -> int {
    if len - from <= block {
        len
    } else {
        from + block
    }
}

/// Where the block that begins at `from` ends. Blocks bound the arena, and the history
/// makes them equivalent to one pass.
pub fn prefill_block_end(from: usize, len: usize, block: usize) -> (end: usize)
    requires
        from <= len,
    ensures
        end == block_end(from as int, len as int, block as int),
        end <= len,
{
    if len - from <= block {
        len
    } else {
        from + block
    }
}

/// The blocks of a prefill of positions `from..len`, each begun where the one before it
/// ends.
pub open spec fn prefill_blocks(from: int, len: int, block: int) -> Seq<(int, int)>
    decreases len - from,
{
    if from >= len || block <= 0 {
        Seq::empty()
    } else {
        seq![(from, block_end(from, len, block))] + prefill_blocks(
            block_end(from, len, block),
            len,
            block,
        )
    }
}

/// Every position behind `from` is in exactly one block, and no block is longer than
/// asked for.
pub proof fn blocks_cover_every_position_once(from: int, len: int, block: int, position: int)
    requires
        from <= position < len,
        block > 0,
    ensures
        exists|i: int| in_only_block(prefill_blocks(from, len, block), position, i),
        forall|i: int|
            0 <= i < prefill_blocks(from, len, block).len() ==> {
                let b = #[trigger] prefill_blocks(from, len, block)[i];
                from <= b.0 < b.1 <= len && b.1 - b.0 <= block
            },
    decreases len - from,
{
    let end = block_end(from, len, block);
    let all = prefill_blocks(from, len, block);
    let rest = prefill_blocks(end, len, block);
    assert(all[0] == (from, end));
    assert forall|i: int| 0 < i < all.len() implies #[trigger] all[i] == rest[i - 1] by {}
    if position < end {
        if end < len {
            blocks_cover_every_position_once(end, len, block, end);
        } else {
            assert(rest.len() == 0);
        }
        assert(in_only_block(all, position, 0));
    } else {
        blocks_cover_every_position_once(end, len, block, position);
        let i = choose|i: int| in_only_block(rest, position, i);
        assert(all[i + 1] == rest[i]);
        assert forall|j: int|
            0 <= j < all.len() && (#[trigger] all[j]).0 <= position < all[j].1 implies j == i
            + 1 by {
            if j > 0 {
                assert(all[j] == rest[j - 1]);
            }
        }
        assert(in_only_block(all, position, i + 1));
    }
}

/// Block `i` holds the position, and no other does.
pub open spec fn in_only_block(blocks: Seq<(int, int)>, position: int, i: int) -> bool {
    &&& 0 <= i < blocks.len()
    &&& blocks[i].0 <= position < blocks[i].1
    &&& forall|j: int|
        0 <= j < blocks.len() && (#[trigger] blocks[j]).0 <= position < blocks[j].1 ==> j == i
}

/// When a prompt cache is written.
#[derive(Debug, Clone, Copy, PartialEq, Eq, Structural)]
pub enum CacheWrite {
    Never,
    /// Over the prompt, once it is prefilled.
    AfterPrefill,
    /// Over the prompt and what was generated, at the end.
    AtEnd,
}

/// When a prompt cache is written.
pub fn cache_write(has_path: bool, all: bool, read_only: bool) -> (write: CacheWrite)
    ensures
        write == (if !has_path || read_only {
            CacheWrite::Never
        } else if all {
            CacheWrite::AtEnd
        } else {
            CacheWrite::AfterPrefill
        }),
{
    if !has_path || read_only {
        CacheWrite::Never
    } else if all {
        CacheWrite::AtEnd
    } else {
        CacheWrite::AfterPrefill
    }
}

// ---------------------------------------------------------------- generation

/// One of `needles`, not empty, stands in `text`.
pub open spec fn any_in(text: Seq<char>, needles: Seq<Seq<char>>) -> bool {
    exists|i: int|
        0 <= i < needles.len() && (#[trigger] needles[i]).len() > 0 && has_text(text, needles[i])
}

fn holds_any(text: &str, needles: &Vec<String>) -> (yes: bool)
    ensures
        yes == any_in(text@, texts(needles@)),
{
    let mut i: usize = 0;
    while i < needles.len()
        invariant
            i <= needles@.len(),
            forall|j: int|
                0 <= j < i ==> !((#[trigger] texts(needles@)[j]).len() > 0 && has_text(
                    text@,
                    texts(needles@)[j],
                )),
        decreases needles@.len() - i,
    {
        assert(texts(needles@)[i as int] == needles@[i as int]@);
        if chars_of(needles[i].as_str()).len() > 0 {
            let found = has(text, needles[i].as_str());
            if found {
                return true;
            }
        }
        i = i + 1;
    }
    false
}

/// What is to be done before a token is drawn.
#[derive(Debug, Clone, PartialEq, Eq)]
pub enum Draw {
    /// The turn is over.
    TurnOver,
    /// Draw from the logits at `row` on, under the grammar's mask where `masked`.
    Token { row: usize, masked: bool, just_armed: bool },
}

/// What an empty or a filled mask means.
#[derive(Debug, Clone, Copy, PartialEq, Eq, Structural)]
pub enum MaskOutcome {
    /// Draw from what it admits.
    Apply,
    /// The grammar is finished: the successful ending.
    Satisfied,
    /// No token can continue and the grammar is not satisfied: the answer is incomplete.
    Stuck,
}

/// What a mask means. An empty one must never be drawn from: every token would be ruled
/// out and the choice arbitrary.
pub fn read_mask(empty: bool, complete: bool) -> (outcome: MaskOutcome)
    ensures
        outcome == (if !empty {
            MaskOutcome::Apply
        } else if complete {
            MaskOutcome::Satisfied
        } else {
            MaskOutcome::Stuck
        }),
{
    if !empty {
        MaskOutcome::Apply
    } else if complete {
        MaskOutcome::Satisfied
    } else {
        MaskOutcome::Stuck
    }
}

/// What follows a drawn token.
#[derive(Debug, Clone, Copy, PartialEq, Eq, Structural)]
pub enum AfterToken {
    /// The model ended its answer; the token is not shown.
    EndOfSequence,
    /// A stop text appeared.
    Stopped,
    /// The turn's last token: nothing would read the logits behind it.
    Last,
    /// Evaluate the token at this position.
    Evaluate(usize),
}

/// A session's state without its representation.
#[verifier::ext_equal]
pub struct SessionModel {
    pub tokens: Seq<u32>,
    pub evaluated: nat,
    pub text: Seq<char>,
    pub armed: bool,
    pub step: nat,
    pub this_turn: nat,
}

impl SessionModel {
    /// A turn has begun: of `n` tokens, with nothing written yet, and with the grammar
    /// armed from the first token where nothing has to trigger it.
    pub open spec fn begun(self, n: nat, triggers: Seq<Seq<char>>) -> SessionModel {
        SessionModel {
            text: Seq::empty(),
            armed: triggers.len() == 0,
            step: 0,
            this_turn: n,
            ..self
        }
    }

    /// The grammar is armed once one of its triggers was written, and then stays so.
    pub open spec fn arms(self, triggers: Seq<Seq<char>>) -> bool {
        self.armed || any_in(self.text, triggers)
    }

    /// What follows token `next`, which decodes to `decoded`. A grammar that is not armed
    /// yet leaves only the draw unconstrained: the token enters the history, which holds
    /// everything said so far, and may end the turn, as any other does.
    pub open spec fn outcome(
        self,
        next: u32,
        eos: Option<u32>,
        decoded: Seq<char>,
        stops: Seq<Seq<char>>,
    ) -> AfterToken {
        if eos == Some(next) {
            AfterToken::EndOfSequence
        } else if any_in(self.text + decoded, stops) {
            AfterToken::Stopped
        } else if self.step + 1 < self.this_turn {
            AfterToken::Evaluate(self.evaluated as usize)
        } else {
            AfterToken::Last
        }
    }

    /// The state behind token `next`. The end-of-sequence token is kept and adds no text;
    /// a turn that ended takes no further step.
    pub open spec fn taken(
        self,
        next: u32,
        eos: Option<u32>,
        decoded: Seq<char>,
        stops: Seq<Seq<char>>,
    ) -> SessionModel {
        let after = self.outcome(next, eos, decoded, stops);
        SessionModel {
            tokens: self.tokens.push(next),
            text: if after is EndOfSequence {
                self.text
            } else {
                self.text + decoded
            },
            step: if after is Evaluate {
                self.step + 1
            } else {
                self.this_turn
            },
            evaluated: if after is Evaluate {
                self.evaluated + 1
            } else {
                self.evaluated
            },
            ..self
        }
    }

    /// The state once the turn is ended.
    pub open spec fn ended(self) -> SessionModel {
        SessionModel { step: self.this_turn, ..self }
    }

    /// The state once the user said `more`.
    pub open spec fn told(self, more: Seq<u32>) -> SessionModel {
        SessionModel {
            tokens: self.tokens + more,
            evaluated: self.evaluated + more.len(),
            ..self
        }
    }
}

/// A generation session.
pub struct Session {
    /// The prompt and everything behind it.
    pub tokens: Vec<u32>,
    pub prompt_len: usize,
    /// Positions the key/value history holds.
    pub evaluated: usize,
    /// What this turn has written.
    pub text: String,
    /// The grammar constrains what follows.
    pub armed: bool,
    pub step: usize,
    pub this_turn: usize,
}

impl View for Session {
    type V = SessionModel;

    open spec fn view(&self) -> SessionModel {
        SessionModel {
            tokens: self.tokens@,
            evaluated: self.evaluated as nat,
            text: self.text@,
            armed: self.armed,
            step: self.step as nat,
            this_turn: self.this_turn as nat,
        }
    }
}

impl Session {
    /// The history never holds more than was said, and the prompt stays in front.
    pub open spec fn wf(self) -> bool {
        &&& self.prompt_len <= self.tokens@.len()
        &&& self.evaluated <= self.tokens@.len()
        &&& self.step <= self.this_turn
    }

    /// A session over a prompt whose positions are all in the history.
    pub fn new(prompt: Vec<u32>) -> (session: Self)
        ensures
            session.wf(),
            session@ == (SessionModel {
                tokens: prompt@,
                evaluated: prompt@.len(),
                text: Seq::empty(),
                armed: false,
                step: 0,
                this_turn: 0,
            }),
            session.prompt_len == prompt@.len(),
    {
        let prompt_len: usize = prompt.len();
        let session = Session {
            tokens: prompt,
            prompt_len,
            evaluated: prompt_len,
            text: String::new(),
            armed: false,
            step: 0,
            this_turn: 0,
        };
        assert(session@ =~= (SessionModel {
            tokens: prompt@,
            evaluated: prompt@.len(),
            text: Seq::empty(),
            armed: false,
            step: 0,
            this_turn: 0,
        }));
        session
    }

    /// Begins a turn of up to `n_predict` tokens, or of none where the user speaks first.
    pub fn begin_turn(&mut self, n_predict: usize, skip: bool, triggers: &Vec<String>)
        requires
            old(self).wf(),
        ensures
            final(self).wf(),
            final(self).prompt_len == old(self).prompt_len,
            final(self)@ == old(self)@.begun(
                if skip {
                    0
                } else {
                    n_predict as nat
                },
                texts(triggers@),
            ),
    {
        self.text = String::new();
        self.armed = triggers.len() == 0;
        self.step = 0;
        self.this_turn = if skip {
            0
        } else {
            n_predict
        };
        assert(self.text@ =~= Seq::empty());
    }

    /// What is to be done before the next token is drawn from `logits` values.
    pub fn before_token(
        &mut self,
        logits: usize,
        vocab: usize,
        constrained: bool,
        triggers: &Vec<String>,
    ) -> (draw: Result<Draw, String>)
        requires
            old(self).wf(),
        ensures
            final(self).wf(),
            final(self).prompt_len == old(self).prompt_len,
            match draw {
                Ok(Draw::TurnOver) => {
                    &&& old(self)@.step >= old(self)@.this_turn
                    &&& final(self)@ == old(self)@
                },
                Err(text) => {
                    &&& old(self)@.step < old(self)@.this_turn
                    &&& logits < vocab
                    &&& text@ == too_few_logits(logits as nat, vocab as nat)
                    &&& final(self)@ == old(self)@
                },
                Ok(Draw::Token { row, masked, just_armed }) => {
                    &&& old(self)@.step < old(self)@.this_turn
                    &&& row + vocab == logits
                    &&& final(self)@ == (SessionModel {
                        armed: old(self)@.arms(texts(triggers@)),
                        ..old(self)@
                    })
                    &&& masked == (constrained && final(self)@.armed)
                    &&& just_armed == (final(self)@.armed && !old(self)@.armed)
                },
            },
    {
        if self.step >= self.this_turn {
            return Ok(Draw::TurnOver);
        }
        let row: usize = match last_row(logits, vocab) {
            Ok(row) => row,
            Err(text) => {
                return Err(text);
            },
        };
        let mut just_armed = false;
        if !self.armed {
            just_armed = holds_any(self.text.as_str(), triggers);
            self.armed = just_armed;
        }
        Ok(Draw::Token { row, masked: constrained && self.armed, just_armed })
    }

    /// Takes in a drawn token. Stop texts are looked for in all the turn has written, as
    /// one can straddle tokens.
    pub fn take_token(
        &mut self,
        next: u32,
        eos: Option<u32>,
        decoded: &str,
        stops: &Vec<String>,
    ) -> (after: AfterToken)
        requires
            old(self).wf(),
            old(self).step < old(self).this_turn,
            old(self).tokens@.len() < usize::MAX,
        ensures
            final(self).wf(),
            final(self).prompt_len == old(self).prompt_len,
            after == old(self)@.outcome(next, eos, decoded@, texts(stops@)),
            final(self)@ == old(self)@.taken(next, eos, decoded@, texts(stops@)),
    {
        let ghost before = self@;
        self.tokens.push(next);
        let ended: bool = match eos {
            Some(e) => e == next,
            None => false,
        };
        if ended {
            self.step = self.this_turn;
            return AfterToken::EndOfSequence;
        }
        self.text.append(decoded);
        assert(self.text@ =~= before.text + decoded@);
        if holds_any(self.text.as_str(), stops) {
            self.step = self.this_turn;
            return AfterToken::Stopped;
        }
        if self.step + 1 < self.this_turn {
            let at: usize = self.evaluated;
            self.evaluated = at + 1;
            self.step = self.step + 1;
            return AfterToken::Evaluate(at);
        }
        self.step = self.this_turn;
        AfterToken::Last
    }

    /// Ends the turn.
    pub fn end_turn(&mut self)
        requires
            old(self).wf(),
        ensures
            final(self).wf(),
            final(self).prompt_len == old(self).prompt_len,
            final(self)@ == old(self)@.ended(),
    {
        self.step = self.this_turn;
    }

    /// Whether the grammar's matcher advances over the token just taken: it never parses
    /// what was written before it was armed.
    pub fn advances_grammar(&self, after: AfterToken) -> (yes: bool)
        ensures
            yes == (self@.armed && !(after is EndOfSequence)),
    {
        self.armed && match after {
            AfterToken::EndOfSequence => false,
            _ => true,
        }
    }

    /// Adds what the user said; gives back the position it is evaluated at.
    pub fn hear(&mut self, more: &Vec<u32>) -> (at: usize)
        requires
            old(self).wf(),
            old(self).tokens@.len() + more@.len() <= usize::MAX,
        ensures
            final(self).wf(),
            final(self).prompt_len == old(self).prompt_len,
            at == old(self)@.evaluated,
            final(self)@ == old(self)@.told(more@),
    {
        let at: usize = self.evaluated;
        self.tokens.extend_from_slice(more.as_slice());
        self.evaluated = at + more.len();
        assert(self.tokens@ =~= old(self).tokens@ + more@);
        at
    }

    /// How many tokens came behind the prompt.
    pub fn produced(&self) -> (n: usize)
        requires
            self.wf(),
        ensures
            n == self.tokens@.len() - self.prompt_len,
    {
        self.tokens.len() - self.prompt_len
    }
}

/// A user turn's tokens, with the beginning-of-sequence token in front where it is asked
/// for and there is one.
pub fn with_bos(tokens: Vec<u32>, asked: bool, bos: Option<u32>) -> (out: Vec<u32>)
    ensures
        out@ == (match bos {
            Some(b) => if asked {
                seq![b] + tokens@
            } else {
                tokens@
            },
            None => tokens@,
        }),
{
    let mut out: Vec<u32> = Vec::new();
    if asked {
        if let Some(b) = bos {
            out.push(b);
        }
    }
    let ghost front = out@;
    let mut rest = tokens;
    out.append(&mut rest);
    assert(out@ =~= front + tokens@);
    out
}

/// What comes after a turn.
#[derive(Debug, Clone, Copy, PartialEq, Eq, Structural)]
pub enum AfterTurn {
    Finish,
    AskUser,
}

/// What comes after a turn: the user is asked unless this is no session, or one of a
/// single turn.
pub fn after_turn(interactive: bool, single_turn: bool) -> (after: AfterTurn)
    ensures
        after == (if interactive && !single_turn {
            AfterTurn::AskUser
        } else {
            AfterTurn::Finish
        }),
{
    if interactive && !single_turn {
        AfterTurn::AskUser
    } else {
        AfterTurn::Finish
    }
}

/// Text that stands in a text still stands in one that goes on behind it.
proof fn text_stays(front: Seq<char>, more: Seq<char>, needle: Seq<char>)
    requires
        has_text(front, needle),
    ensures
        has_text(front + more, needle),
{
    let i = choose|i: int| crate::text::stands_at(front, needle, i);
    assert((front + more).subrange(i, i + needle.len()) =~= front.subrange(i, i + needle.len()));
    assert(crate::text::stands_at(front + more, needle, i));
}

/// A stop text ends the turn wherever the tokens were cut: if it stands in what the turn
/// wrote, the turn is over, whichever tokens it is spread over.
pub proof fn a_stop_text_ends_the_turn(
    s: SessionModel,
    next: u32,
    eos: Option<u32>,
    decoded: Seq<char>,
    stops: Seq<Seq<char>>,
    i: int,
)
    requires
        0 <= i < stops.len(),
        stops[i].len() > 0,
        has_text(s.text + decoded, stops[i]),
    ensures
        s.taken(next, eos, decoded, stops).step >= s.this_turn,
{
    assert(any_in(s.text + decoded, stops));
}

/// Once armed, a grammar never disarms within a turn.
pub proof fn an_armed_grammar_stays_armed(
    s: SessionModel,
    next: u32,
    eos: Option<u32>,
    decoded: Seq<char>,
    stops: Seq<Seq<char>>,
    triggers: Seq<Seq<char>>,
)
    requires
        s.arms(triggers),
    ensures
        s.taken(next, eos, decoded, stops).arms(triggers),
{
    if !s.armed {
        let i = choose|i: int|
            0 <= i < triggers.len() && (#[trigger] triggers[i]).len() > 0 && has_text(
                s.text,
                triggers[i],
            );
        let after = s.taken(next, eos, decoded, stops);
        if !(s.outcome(next, eos, decoded, stops) is EndOfSequence) {
            text_stays(s.text, decoded, triggers[i]);
        }
        assert(any_in(after.text, triggers));
    }
}

/// Within a turn every token but the last is evaluated, each at the next position.
pub proof fn tokens_are_evaluated_in_order(
    s: SessionModel,
    next: u32,
    eos: Option<u32>,
    decoded: Seq<char>,
    stops: Seq<Seq<char>>,
)
    requires
        s.step < s.this_turn,
        s.evaluated <= usize::MAX,
    ensures
        ({
            let after = s.taken(next, eos, decoded, stops);
            &&& after.tokens == s.tokens.push(next)
            &&& after.step < after.this_turn <==> s.outcome(next, eos, decoded, stops)
                == AfterToken::Evaluate(s.evaluated as usize)
            &&& after.step < after.this_turn ==> after.evaluated == s.evaluated + 1
            &&& after.step >= after.this_turn ==> after.evaluated == s.evaluated
        }),
{
}

// ----------------------------------------------------------- the other loops

/// A sequence breaker resolved to a token: the only one it encodes to, leaving out the
/// beginning-of-sequence token.
pub open spec fn without_bos(ids: Seq<u32>, bos: Option<u32>) -> Seq<u32> {
    ids.filter(|id: u32| bos != Some(id))
}

/// The token a sequence breaker resolves to. One that is several tokens, or none, cannot
/// be a barrier and is left out.
pub fn breaker_token(ids: &Vec<u32>, bos: Option<u32>) -> (token: Option<u32>)
    ensures
        token == (if without_bos(ids@, bos).len() == 1 {
            Some(without_bos(ids@, bos)[0])
        } else {
            None
        }),
{
    broadcast use vstd::seq_lib::group_filter_ensures;

    let mut kept: Vec<u32> = Vec::new();
    let mut i: usize = 0;
    let ghost keep = |id: u32| bos != Some(id);
    assert(ids@.take(0).filter(keep) =~= Seq::empty());
    while i < ids.len()
        invariant
            i <= ids@.len(),
            keep == (|id: u32| bos != Some(id)),
            kept@ == ids@.take(i as int).filter(keep),
        decreases ids@.len() - i,
    {
        let id: u32 = ids[i];
        let leave: bool = match bos {
            Some(b) => b == id,
            None => false,
        };
        assert(ids@.take(i + 1).drop_last() =~= ids@.take(i as int));
        assert(ids@.take(i + 1).last() == id);
        reveal(Seq::filter);
        if !leave {
            kept.push(id);
        }
        i = i + 1;
    }
    assert(ids@.take(i as int) =~= ids@);
    if kept.len() == 1 {
        Some(kept[0])
    } else {
        None
    }
}

/// The sequence breakers used where none are given.
pub open spec fn default_breakers() -> Seq<Seq<char>> {
    seq!["\n"@, ":"@, "\""@, "*"@]
}

/// The sequence breakers to resolve: those given, else the defaults.
pub fn wanted_breakers(given: Vec<String>) -> (wanted: Vec<String>)
    ensures
        texts(wanted@) == (if given@.len() == 0 {
            default_breakers()
        } else {
            texts(given@)
        }),
{
    if given.len() > 0 {
        return given;
    }
    let mut wanted: Vec<String> = Vec::new();
    wanted.push(copied("\n"));
    wanted.push(copied(":"));
    wanted.push(copied("\""));
    wanted.push(copied("*"));
    assert(texts(wanted@) =~= default_breakers());
    wanted
}

/// Where the logits to draw from begin: the last row, or all of them where they do not
/// hold a whole one.
pub fn row_or_all(len: usize, vocab: usize) -> (row: usize)
    ensures
        row == (if len >= vocab {
            len - vocab
        } else {
            0
        }),
{
    if len >= vocab {
        len - vocab
    } else {
        0
    }
}

} // verus!
