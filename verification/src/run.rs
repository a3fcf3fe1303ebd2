//! A run from the first pass to the last: what is done next, given how the step before
//! it came out.
//!
//! The passes, the tokenizer, the terminal and the files are the caller's. It performs
//! the action it is given and reports back through the method named after what happened.
use crate::names::texts;
use crate::session::{
    after_turn, prefill_block_end, read_mask, AfterToken, AfterTurn, CacheWrite, Draw, MaskOutcome,
    Session, SessionModel,
};
#[allow(unused_imports)]
use crate::perplexity::too_few_logits;
#[allow(unused_imports)]
use crate::session::block_end;
use vstd::prelude::*;

verus! {

/// What a run was asked for.
#[derive(Debug, Clone, Copy, PartialEq, Eq, Structural)]
pub struct RunOptions {
    /// Score the prompt as a corpus instead of generating.
    pub perplexity: bool,
    /// One throwaway pass before the first real one.
    pub warmup: bool,
    /// Positions per prefill pass.
    pub block: usize,
    pub vocab: usize,
    /// Tokens per turn.
    pub n_predict: usize,
    pub eos: Option<u32>,
    /// A grammar constrains what is drawn.
    pub constrained: bool,
    pub write: CacheWrite,
    pub interactive: bool,
    pub single_turn: bool,
    /// The user speaks before anything is generated.
    pub interactive_first: bool,
}

/// What the caller does next.
#[derive(Debug, Clone, Copy, PartialEq, Eq, Structural)]
pub enum Action {
    /// Score the prompt; then [`Run::done`].
    Score,
    /// Run the prompt's first token on a history that is then discarded; then
    /// [`Run::done`], whether or not it worked.
    WarmUp,
    /// Restore what a saved history shares with the prompt; then [`Run::restored`].
    Restore,
    /// Evaluate these positions of the prompt; then [`Run::evaluated`].
    Prefill { from: usize, to: usize },
    /// Write the history and its tokens; then [`Run::done`], whether or not it worked.
    Save,
    /// Ask the grammar what may follow; then [`Run::masked`].
    Mask { row: usize },
    /// Draw from the logits at `row` on, under the mask where there is one; then
    /// [`Run::drawn`].
    Draw { row: usize, masked: bool },
    /// Evaluate the token just drawn at this position; then [`Run::evaluated`].
    EvaluateToken { at: usize },
    /// Read a turn of the user; then [`Run::heard`].
    AskUser,
    /// Evaluate what the user said from this position on; then [`Run::evaluated`].
    EvaluateTurn { at: usize },
    /// Report, and stop.
    Finish,
}

/// What the run waits for.
#[derive(Debug, Clone, Copy, PartialEq, Eq, Structural)]
pub enum Phase {
    Ready,
    Scoring,
    Warming,
    Restoring,
    /// The prompt is being evaluated up to `end`.
    Prefilling { end: usize },
    SavingPrompt,
    Masking { row: usize },
    Drawing,
    Evaluating,
    Asking,
    Hearing,
    SavingAll,
    Finished,
}

/// A run without its representation.
#[verifier::ext_equal]
pub struct RunModel {
    pub phase: Phase,
    pub session: SessionModel,
    /// Values the last pass gave.
    pub logits: nat,
    /// The next turn generates nothing.
    pub skip: bool,
}

/// What follows: a state and an action, or the text the run fails with.
pub enum Next {
    Go(RunModel, Action),
    Fail(Seq<char>),
}

impl RunModel {
    pub open spec fn at(self, phase: Phase, action: Action) -> Next {
        Next::Go(RunModel { phase, ..self }, action)
    }

    /// The prompt's block from `from` on.
    pub open spec fn prefill(self, o: RunOptions, from: int) -> Next {
        let end = block_end(from, self.session.tokens.len() as int, o.block as int) as usize;
        self.at(Phase::Prefilling { end }, Action::Prefill { from: from as usize, to: end })
    }

    /// The session is over.
    pub open spec fn closing(self, o: RunOptions) -> Next {
        if o.write is AtEnd {
            self.at(Phase::SavingAll, Action::Save)
        } else {
            self.at(Phase::Finished, Action::Finish)
        }
    }

    /// The turn is over.
    pub open spec fn turn_over(self, o: RunOptions) -> Next {
        if o.interactive && !o.single_turn {
            self.at(Phase::Asking, Action::AskUser)
        } else {
            self.closing(o)
        }
    }

    /// The next token of the turn, if it has one.
    pub open spec fn token(self, o: RunOptions, triggers: Seq<Seq<char>>) -> Next {
        let s = self.session;
        if s.step >= s.this_turn {
            self.turn_over(o)
        } else if self.logits < o.vocab {
            Next::Fail(too_few_logits(self.logits, o.vocab as nat))
        } else {
            let row = (self.logits - o.vocab) as usize;
            let ready = RunModel {
                session: SessionModel { armed: s.arms(triggers), ..s },
                ..self
            };
            if o.constrained && s.arms(triggers) {
                ready.at(Phase::Masking { row }, Action::Mask { row })
            } else {
                ready.at(Phase::Drawing, Action::Draw { row, masked: false })
            }
        }
    }

    /// A turn begins.
    pub open spec fn turn(self, o: RunOptions, triggers: Seq<Seq<char>>) -> Next {
        RunModel {
            session: self.session.begun(
                if self.skip {
                    0
                } else {
                    o.n_predict as nat
                },
                triggers,
            ),
            skip: false,
            ..self
        }.token(o, triggers)
    }
}

/// A run.
pub struct Run {
    pub options: RunOptions,
    pub triggers: Vec<String>,
    pub stops: Vec<String>,
    pub session: Session,
    pub phase: Phase,
    pub logits: usize,
    pub skip: bool,
}

impl View for Run {
    type V = RunModel;

    open spec fn view(&self) -> RunModel {
        RunModel {
            phase: self.phase,
            session: self.session@,
            logits: self.logits as nat,
            skip: self.skip,
        }
    }
}

impl Run {
    pub open spec fn wf(self) -> bool {
        &&& self.session.wf()
        &&& self.options.block > 0
        &&& match self.phase {
            Phase::Ready
            | Phase::Scoring
            | Phase::Warming
            | Phase::Restoring => self.session@.tokens.len() > 0,
            Phase::Prefilling { end } => end <= self.session@.tokens.len(),
            Phase::Masking { .. } | Phase::Drawing => self.session@.step < self.session@.this_turn,
            _ => true,
        }
    }

    /// What was asked for does not change.
    pub open spec fn asked_as(self, other: Run) -> bool {
        &&& self.options == other.options
        &&& self.triggers == other.triggers
        &&& self.stops == other.stops
        &&& self.session.prompt_len == other.session.prompt_len
    }

    /// The run did what follows.
    pub open spec fn did(self, before: Run, outcome: Result<Action, String>, next: Next) -> bool {
        &&& self.asked_as(before)
        &&& self.wf()
        &&& match outcome {
            Ok(action) => next == Next::Go(self@, action),
            Err(text) => next == Next::Fail(text@),
        }
    }

    /// A run over `prompt`.
    pub fn new(options: RunOptions, triggers: Vec<String>, stops: Vec<String>, prompt: Vec<u32>) -> (run:
        Self)
        requires
            options.block > 0,
            prompt@.len() > 0,
        ensures
            run.wf(),
            run.options == options,
            run.triggers == triggers,
            run.stops == stops,
            run.session.prompt_len == prompt@.len(),
            run@ == (RunModel {
                phase: Phase::Ready,
                session: SessionModel {
                    tokens: prompt@,
                    evaluated: prompt@.len(),
                    text: Seq::empty(),
                    armed: false,
                    step: 0,
                    this_turn: 0,
                },
                logits: 0,
                skip: options.interactive_first,
            }),
    {
        Run {
            options,
            triggers,
            stops,
            session: Session::new(prompt),
            phase: Phase::Ready,
            logits: 0,
            skip: options.interactive_first,
        }
    }

    /// The first action.
    pub fn begin(&mut self) -> (action: Action)
        requires
            old(self).wf(),
            old(self)@.phase is Ready,
        ensures
            final(self).did(
                *old(self),
                Ok(action),
                if old(self).options.perplexity {
                    old(self)@.at(Phase::Scoring, Action::Score)
                } else if old(self).options.warmup {
                    old(self)@.at(Phase::Warming, Action::WarmUp)
                } else {
                    old(self)@.at(Phase::Restoring, Action::Restore)
                },
            ),
    {
        if self.options.perplexity {
            self.phase = Phase::Scoring;
            Action::Score
        } else if self.options.warmup {
            self.phase = Phase::Warming;
            Action::WarmUp
        } else {
            self.phase = Phase::Restoring;
            Action::Restore
        }
    }

    /// An action without a result is over.
    pub fn done(&mut self) -> (outcome: Result<Action, String>)
        requires
            old(self).wf(),
            match old(self)@.phase {
                Phase::Scoring | Phase::Warming | Phase::SavingPrompt | Phase::SavingAll => true,
                _ => false,
            },
        ensures
            final(self).did(
                *old(self),
                outcome,
                match old(self)@.phase {
                    Phase::Warming => old(self)@.at(Phase::Restoring, Action::Restore),
                    Phase::SavingPrompt => old(self)@.turn(
                        old(self).options,
                        texts(old(self).triggers@),
                    ),
                    _ => old(self)@.at(Phase::Finished, Action::Finish),
                },
            ),
    {
        match self.phase {
            Phase::Warming => {
                self.phase = Phase::Restoring;
                Ok(Action::Restore)
            },
            Phase::SavingPrompt => self.next_turn(),
            _ => {
                self.phase = Phase::Finished;
                Ok(Action::Finish)
            },
        }
    }

    /// The first `shared` positions of the prompt were restored.
    pub fn restored(&mut self, shared: usize) -> (outcome: Result<Action, String>)
        requires
            old(self).wf(),
            old(self)@.phase is Restoring,
            shared < old(self)@.session.tokens.len(),
        ensures
            final(self).did(
                *old(self),
                outcome,
                old(self)@.prefill(old(self).options, shared as int),
            ),
    {
        Ok(self.next_block(shared))
    }

    /// A pass over positions is over and gave `logits` values.
    pub fn evaluated(&mut self, logits: usize) -> (outcome: Result<Action, String>)
        requires
            old(self).wf(),
            match old(self)@.phase {
                Phase::Prefilling { .. } | Phase::Evaluating | Phase::Hearing => true,
                _ => false,
            },
        ensures
            final(self).did(
                *old(self),
                outcome,
                ({
                    let o = old(self).options;
                    let triggers = texts(old(self).triggers@);
                    let now = RunModel { logits: logits as nat, ..old(self)@ };
                    match now.phase {
                        Phase::Prefilling { end } => if end < now.session.tokens.len() {
                            now.prefill(o, end as int)
                        } else if o.write is AfterPrefill {
                            now.at(Phase::SavingPrompt, Action::Save)
                        } else {
                            now.turn(o, triggers)
                        },
                        Phase::Evaluating => now.token(o, triggers),
                        _ => now.turn(o, triggers),
                    }
                }),
            ),
    {
        self.logits = logits;
        match self.phase {
            Phase::Prefilling { end } => {
                if end < self.session.tokens.len() {
                    return Ok(self.next_block(end));
                }
                if let CacheWrite::AfterPrefill = self.options.write {
                    self.phase = Phase::SavingPrompt;
                    return Ok(Action::Save);
                }
                self.next_turn()
            },
            Phase::Evaluating => self.next_token(),
            _ => self.next_turn(),
        }
    }

    /// The grammar's mask is known.
    pub fn masked(&mut self, empty: bool, complete: bool) -> (step: (MaskOutcome, Action))
        requires
            old(self).wf(),
            old(self)@.phase is Masking,
        ensures
            step.0 == (if !empty {
                MaskOutcome::Apply
            } else if complete {
                MaskOutcome::Satisfied
            } else {
                MaskOutcome::Stuck
            }),
            final(self).did(
                *old(self),
                Ok(step.1),
                ({
                    let now = old(self)@;
                    if empty {
                        RunModel { session: now.session.ended(), ..now }.turn_over(
                            old(self).options,
                        )
                    } else {
                        now.at(
                            Phase::Drawing,
                            Action::Draw { row: now.phase->Masking_row, masked: true },
                        )
                    }
                }),
            ),
    {
        let outcome = read_mask(empty, complete);
        if empty {
            self.session.end_turn();
            return (outcome, self.end_of_turn());
        }
        let row: usize = match self.phase {
            Phase::Masking { row } => row,
            _ => 0,
        };
        self.phase = Phase::Drawing;
        (outcome, Action::Draw { row, masked: true })
    }

    /// A token was drawn, which decodes to `decoded`. What follows it says whether it is
    /// shown and whether the grammar advances over it.
    pub fn drawn(&mut self, next: u32, decoded: &str) -> (step: (AfterToken, bool, Action))
        requires
            old(self).wf(),
            old(self)@.phase is Drawing,
            old(self)@.session.tokens.len() < usize::MAX,
        ensures
            ({
                let o = old(self).options;
                let s = old(self)@.session;
                let stops = texts(old(self).stops@);
                let after = s.outcome(next, o.eos, decoded@, stops);
                let now = RunModel {
                    session: s.taken(next, o.eos, decoded@, stops),
                    ..old(self)@
                };
                &&& step.0 == after
                &&& step.1 == (s.armed && !(after is EndOfSequence))
                &&& final(self).did(
                    *old(self),
                    Ok(step.2),
                    match after {
                        AfterToken::Evaluate(at) => now.at(
                            Phase::Evaluating,
                            Action::EvaluateToken { at },
                        ),
                        _ => now.turn_over(o),
                    },
                )
            }),
    {
        let after = self.session.take_token(next, self.options.eos, decoded, &self.stops);
        let advance = self.session.advances_grammar(after);
        let action = match after {
            AfterToken::Evaluate(at) => {
                self.phase = Phase::Evaluating;
                Action::EvaluateToken { at }
            },
            _ => self.end_of_turn(),
        };
        (after, advance, action)
    }

    /// The user said `more`, or nothing where the input has ended.
    pub fn heard(&mut self, more: Option<Vec<u32>>) -> (outcome: Result<Action, String>)
        requires
            old(self).wf(),
            old(self)@.phase is Asking,
            more is Some ==> old(self)@.session.tokens.len() + more->0@.len() <= usize::MAX,
        ensures
            final(self).did(
                *old(self),
                outcome,
                ({
                    let o = old(self).options;
                    let now = old(self)@;
                    match more {
                        None => now.closing(o),
                        Some(said) => if said@.len() == 0 {
                            now.turn(o, texts(old(self).triggers@))
                        } else {
                            RunModel { session: now.session.told(said@), ..now }.at(
                                Phase::Hearing,
                                Action::EvaluateTurn { at: now.session.evaluated as usize },
                            )
                        },
                    }
                }),
            ),
    {
        match more {
            None => Ok(self.close()),
            Some(said) => {
                if said.len() == 0 {
                    return self.next_turn();
                }
                let at: usize = self.session.hear(&said);
                self.phase = Phase::Hearing;
                Ok(Action::EvaluateTurn { at })
            },
        }
    }

    fn next_block(&mut self, from: usize) -> (action: Action)
        requires
            old(self).session.wf(),
            old(self).options.block > 0,
            from < old(self)@.session.tokens.len(),
        ensures
            final(self).did(
                *old(self),
                Ok(action),
                old(self)@.prefill(old(self).options, from as int),
            ),
    {
        let end: usize = prefill_block_end(from, self.session.tokens.len(), self.options.block);
        self.phase = Phase::Prefilling { end };
        Action::Prefill { from, to: end }
    }

    fn close(&mut self) -> (action: Action)
        requires
            old(self).session.wf(),
            old(self).options.block > 0,
        ensures
            final(self).did(*old(self), Ok(action), old(self)@.closing(old(self).options)),
    {
        if let CacheWrite::AtEnd = self.options.write {
            self.phase = Phase::SavingAll;
            Action::Save
        } else {
            self.phase = Phase::Finished;
            Action::Finish
        }
    }

    fn end_of_turn(&mut self) -> (action: Action)
        requires
            old(self).session.wf(),
            old(self).options.block > 0,
        ensures
            final(self).did(*old(self), Ok(action), old(self)@.turn_over(old(self).options)),
    {
        match after_turn(self.options.interactive, self.options.single_turn) {
            AfterTurn::AskUser => {
                self.phase = Phase::Asking;
                Action::AskUser
            },
            AfterTurn::Finish => self.close(),
        }
    }

    fn next_token(&mut self) -> (outcome: Result<Action, String>)
        requires
            old(self).session.wf(),
            old(self).options.block > 0,
            old(self)@.phase is Evaluating,
        ensures
            final(self).did(
                *old(self),
                outcome,
                old(self)@.token(old(self).options, texts(old(self).triggers@)),
            ),
    {
        match self.session.before_token(
            self.logits,
            self.options.vocab,
            self.options.constrained,
            &self.triggers,
        ) {
            Err(text) => Err(text),
            Ok(Draw::TurnOver) => Ok(self.end_of_turn()),
            Ok(Draw::Token { row, masked, just_armed: _ }) => {
                if masked {
                    self.phase = Phase::Masking { row };
                    Ok(Action::Mask { row })
                } else {
                    self.phase = Phase::Drawing;
                    Ok(Action::Draw { row, masked: false })
                }
            },
        }
    }

    fn next_turn(&mut self) -> (outcome: Result<Action, String>)
        requires
            old(self).session.wf(),
            old(self).options.block > 0,
        ensures
            final(self).did(
                *old(self),
                outcome,
                old(self)@.turn(old(self).options, texts(old(self).triggers@)),
            ),
    {
        let skip: bool = self.skip;
        self.session.begin_turn(self.options.n_predict, skip, &self.triggers);
        self.skip = false;
        self.phase = Phase::Evaluating;
        self.next_token()
    }
}

/// A prompt cache is written at one point of a run at the most: behind the prefill or at
/// the end, as asked, and never where that was refused.
pub proof fn a_cache_is_written_where_asked(m: RunModel, o: RunOptions, triggers: Seq<Seq<char>>)
    ensures
        m.closing(o) matches Next::Go(_, action) && (action is Save <==> o.write is AtEnd),
        m.turn(o, triggers) matches Next::Go(_, action) ==> action is Save ==> o.write is AtEnd,
{
}

/// The user is asked only in a session that is interactive and has more than one turn.
pub proof fn only_sessions_ask(m: RunModel, o: RunOptions, triggers: Seq<Seq<char>>)
    requires
        !o.interactive || o.single_turn,
    ensures
        m.turn_over(o) == m.closing(o),
        m.turn(o, triggers) matches Next::Go(_, action) ==> !(action is AskUser),
{
}

/// Where the user speaks first, the first turn draws nothing: it goes straight to them.
pub proof fn the_user_speaks_first_where_asked(
    m: RunModel,
    o: RunOptions,
    triggers: Seq<Seq<char>>,
)
    requires
        m.skip,
        o.interactive,
        !o.single_turn,
    ensures
        m.turn(o, triggers) matches Next::Go(after, action) && action is AskUser && !after.skip
            && after.session.tokens == m.session.tokens,
{
}

// ------------------------------------------------------------- a plain loop

/// What follows a token of a plain loop.
#[derive(Debug, Clone, Copy, PartialEq, Eq, Structural)]
pub enum LoopAction {
    /// Evaluate this token, and draw again.
    Step(i32),
    Finish,
}

/// Tokens a loop draws: as many as were asked for, and the one its prefill gives at the
/// least.
pub open spec fn loop_tokens(wanted: int) -> int {
    if wanted < 1 {
        1
    } else {
        wanted
    }
}

/// A loop that draws a token behind every pass, without turns.
pub struct TokenLoop {
    /// What has been evaluated: the prompt, and each token before the last.
    pub history: Vec<i32>,
    /// What was drawn.
    pub drawn: Vec<i32>,
    pub wanted: usize,
}

impl TokenLoop {
    /// No more was drawn than was asked for.
    pub open spec fn wf(self) -> bool {
        self.drawn@.len() <= loop_tokens(self.wanted as int)
    }

    /// A loop behind a prompt.
    pub fn new(prompt: Vec<i32>, wanted: usize) -> (l: Self)
        ensures
            l.wf(),
            l.history@ == prompt@,
            l.drawn@.len() == 0,
            l.wanted == wanted,
    {
        TokenLoop { history: prompt, drawn: Vec::new(), wanted }
    }

    /// Takes in a token drawn behind the history.
    pub fn take(&mut self, next: i32) -> (action: LoopAction)
        requires
            old(self).wf(),
            old(self).drawn@.len() < loop_tokens(old(self).wanted as int),
        ensures
            final(self).wf(),
            final(self).wanted == old(self).wanted,
            final(self).drawn@ == old(self).drawn@.push(next),
            ({
                let more = old(self).drawn@.len() + 1 < loop_tokens(old(self).wanted as int);
                &&& action == (if more {
                    LoopAction::Step(next)
                } else {
                    LoopAction::Finish
                })
                &&& final(self).history@ == (if more {
                    old(self).history@.push(next)
                } else {
                    old(self).history@
                })
            }),
    {
        self.drawn.push(next);
        if self.drawn.len() < self.wanted {
            self.history.push(next);
            LoopAction::Step(next)
        } else {
            LoopAction::Finish
        }
    }

    /// Takes in a token drawn behind the history, of which `eos` ends the loop and is not
    /// kept.
    pub fn take_until(&mut self, next: i32, eos: Option<i32>) -> (action: LoopAction)
        requires
            old(self).wf(),
            old(self).drawn@.len() < loop_tokens(old(self).wanted as int),
        ensures
            final(self).wf(),
            final(self).wanted == old(self).wanted,
            eos == Some(next) ==> {
                &&& action == LoopAction::Finish
                &&& final(self).drawn@ == old(self).drawn@
                &&& final(self).history@ == old(self).history@
            },
            eos != Some(next) ==> {
                let more = old(self).drawn@.len() + 1 < loop_tokens(old(self).wanted as int);
                &&& final(self).drawn@ == old(self).drawn@.push(next)
                &&& action == (if more {
                    LoopAction::Step(next)
                } else {
                    LoopAction::Finish
                })
                &&& final(self).history@ == (if more {
                    old(self).history@.push(next)
                } else {
                    old(self).history@
                })
            },
    {
        let ended = match eos {
            Some(e) => e == next,
            None => false,
        };
        if ended {
            LoopAction::Finish
        } else {
            self.take(next)
        }
    }
}

} // verus!
