//! A streaming pass, step by step: which step follows which, and what each computes.
//!
//! The router decides partway through a layer what has to be read next, so a pass is a
//! sequence of small graphs with reads in between. Activations cross from one step to
//! the next as plain buffers, which lets each step's arena be reclaimed at once.
use crate::container::Container;
use crate::deepseek4::{check_shipped, listed};
#[allow(unused_imports)]
use crate::deepseek4::first_missing;
use crate::error::{ArchError, Result};
use crate::graph::{Graph, Op, Slot};
#[allow(unused_imports)]
use crate::graph::{e1, e2, extends, Expr};
use crate::kv::{KvCache, KvError, KvRow};
#[allow(unused_imports)]
use crate::kv::KvModel;
use crate::mask::causal_mask;
#[allow(unused_imports)]
use crate::mask::{causal, mask_bytes};
use crate::names::{block_tensor, push_block_names};
#[allow(unused_imports)]
use crate::names::{block_name, block_names, literals, texts};
use crate::qwen3::Qwen3Config;
use crate::qwen3_graph::{attention_needs_list, check_bound, entry_needs_list, window_of_layer};
#[allow(unused_imports)]
use crate::qwen3_graph::{
    attention_needs,
    dense_out,
    embedded_rows,
    entry_needs,
    ffn_needs,
    first_unbound,
    flash_attended,
    layer_entry,
    layer_window,
    normed,
    outer,
    output_weight,
    qkv_of,
    rotated,
    router,
    w,
    widths_fit,
};
#[allow(unused_imports)]
use crate::selection::is_top;
use crate::stream::{
    group_by_expert,
    wanted_slices,
    ExpertGroup,
    Member,
    StreamingRunner,
    Wanted,
    READ_GROUP,
};
#[allow(unused_imports)]
use crate::stream::{groups_hold, members_of, ranks_of, resident_of, rows_of, wanted_of};
use crate::text::push_decimal;
#[allow(unused_imports)]
use crate::text::{decimal, decimal_is_injective};
use vstd::prelude::*;

verus! {

// ------------------------------------------------------------------ the sequence

/// One step of an incremental pass.
#[derive(Debug, Clone, Copy, PartialEq, Eq, Structural)]
pub enum StreamStep {
    /// Look the new tokens up.
    Embed,
    /// Queries, keys and values of the new positions; keys and values are then stored.
    Qkv { il: u32 },
    /// Attention over the whole history, and its output projection.
    Attend { il: u32 },
    /// The norm some architectures put between attention and the residual.
    NormAttention { il: u32 },
    /// The dense feed-forward, or the router of a mixture.
    FeedForward { il: u32 },
    /// The experts the router picked.
    Experts { il: u32 },
    /// The norm some architectures put between the experts and the residual.
    NormExperts { il: u32 },
    /// The last position's logits.
    Output,
    /// Nothing is left.
    Done,
}

/// The first step of layer `il`, or the output where there is no such layer.
pub open spec fn layer_start(c: Qwen3Config, il: int) -> StreamStep {
    if il < c.n_layer {
        StreamStep::Qkv { il: il as u32 }
    } else {
        StreamStep::Output
    }
}

/// The step after `step`.
pub open spec fn step_after(c: Qwen3Config, step: StreamStep) -> StreamStep {
    match step {
        StreamStep::Embed => layer_start(c, 0),
        StreamStep::Qkv { il } => StreamStep::Attend { il },
        StreamStep::Attend { il } => if c.post_norms {
            StreamStep::NormAttention { il }
        } else {
            StreamStep::FeedForward { il }
        },
        StreamStep::NormAttention { il } => StreamStep::FeedForward { il },
        StreamStep::FeedForward { il } => if c.moe() {
            StreamStep::Experts { il }
        } else {
            layer_start(c, il + 1)
        },
        StreamStep::Experts { il } => if c.post_norms {
            StreamStep::NormExperts { il }
        } else {
            layer_start(c, il + 1)
        },
        StreamStep::NormExperts { il } => layer_start(c, il + 1),
        StreamStep::Output => StreamStep::Done,
        StreamStep::Done => StreamStep::Done,
    }
}

/// The steps of one layer, in order.
pub open spec fn layer_steps(c: Qwen3Config, il: u32) -> Seq<StreamStep> {
    let none = Seq::<StreamStep>::empty();
    seq![StreamStep::Qkv { il }, StreamStep::Attend { il }] + (if c.post_norms {
        seq![StreamStep::NormAttention { il }]
    } else {
        none
    }) + seq![StreamStep::FeedForward { il }] + (if c.moe() {
        seq![StreamStep::Experts { il }]
    } else {
        none
    }) + (if c.moe() && c.post_norms {
        seq![StreamStep::NormExperts { il }]
    } else {
        none
    })
}

/// The steps of the layers below `n`, in order.
pub open spec fn steps_below(c: Qwen3Config, n: nat) -> Seq<StreamStep>
    decreases n,
{
    if n == 0 {
        Seq::empty()
    } else {
        steps_below(c, (n - 1) as nat) + layer_steps(c, (n - 1) as u32)
    }
}

/// A whole pass: the embedding, every layer, the output.
pub open spec fn pass_steps(c: Qwen3Config) -> Seq<StreamStep> {
    seq![StreamStep::Embed] + steps_below(c, c.n_layer as nat) + seq![
        StreamStep::Output,
        StreamStep::Done,
    ]
}

/// Following one step with the next walks through every layer's steps once, in order:
/// each step of a pass is followed by the one listed after it.
pub proof fn a_pass_takes_every_layer_in_order(c: Qwen3Config, i: int)
    requires
        0 <= i < pass_steps(c).len() - 1,
    ensures
        step_after(c, pass_steps(c)[i]) == pass_steps(c)[i + 1],
{
    let n = c.n_layer as nat;
    let inner = steps_below(c, n);
    if n > 0 {
        layers_begin(c, n, 0);
    }
    if i == 0 {
    } else if i <= inner.len() {
        layers_follow(c, n, i - 1);
    }
}

proof fn layers_begin(c: Qwen3Config, n: nat, k: nat)
    requires
        k < n,
        n <= c.n_layer,
    ensures
        steps_below(c, k).len() < steps_below(c, n).len(),
        steps_below(c, n)[steps_below(c, k).len() as int] == (StreamStep::Qkv { il: k as u32 }),
    decreases n,
{
    if k < n - 1 {
        layers_begin(c, (n - 1) as nat, k);
    }
}

proof fn layers_follow(c: Qwen3Config, n: nat, i: int)
    requires
        n <= c.n_layer,
        0 <= i < steps_below(c, n).len(),
    ensures
        step_after(c, steps_below(c, n)[i]) == (if i + 1 < steps_below(c, n).len() {
            steps_below(c, n)[i + 1]
        } else {
            layer_start(c, n as int)
        }),
    decreases n,
{
    if n > 0 {
        let before = steps_below(c, (n - 1) as nat);
        let last = layer_steps(c, (n - 1) as u32);
        if i < before.len() {
            layers_follow(c, (n - 1) as nat, i);
            assert(steps_below(c, n)[before.len() as int] == last[0]);
        } else {
            let j = i - before.len();
            assert(steps_below(c, n)[i] == last[j]);
            if j + 1 < last.len() {
                assert(steps_below(c, n)[i + 1] == last[j + 1]);
            }
        }
    }
}

/// The step after `step`.
pub fn next_step(c: &Qwen3Config, step: StreamStep) -> (next: StreamStep)
    requires
        match step {
            StreamStep::FeedForward { il } => il < c.n_layer,
            StreamStep::Experts { il } => il < c.n_layer,
            StreamStep::NormExperts { il } => il < c.n_layer,
            _ => true,
        },
    ensures
        next == step_after(*c, step),
{
    match step {
        StreamStep::Embed => first_of_layer(c, 0),
        StreamStep::Qkv { il } => StreamStep::Attend { il },
        StreamStep::Attend { il } => if c.post_norms {
            StreamStep::NormAttention { il }
        } else {
            StreamStep::FeedForward { il }
        },
        StreamStep::NormAttention { il } => StreamStep::FeedForward { il },
        StreamStep::FeedForward { il } => if c.is_moe() {
            StreamStep::Experts { il }
        } else {
            first_of_layer(c, il + 1)
        },
        StreamStep::Experts { il } => if c.post_norms {
            StreamStep::NormExperts { il }
        } else {
            first_of_layer(c, il + 1)
        },
        StreamStep::NormExperts { il } => first_of_layer(c, il + 1),
        StreamStep::Output => StreamStep::Done,
        StreamStep::Done => StreamStep::Done,
    }
}

fn first_of_layer(c: &Qwen3Config, il: u32) -> (step: StreamStep)
    ensures
        step == layer_start(*c, il as int),
{
    if il < c.n_layer {
        StreamStep::Qkv { il }
    } else {
        StreamStep::Output
    }
}

// --------------------------------------------------------------- what a step takes

/// Positions `from..from + n`, one for each new token.
pub open spec fn positions_from(from: int, n: int) -> Seq<i32> {
    Seq::new(n as nat, |i: int| (from + i) as i32)
}

/// Token ids as the tensor library takes them.
pub open spec fn token_ids(tokens: Seq<u32>) -> Seq<i32> {
    tokens.map_values(|t: u32| t as i32)
}

/// The weights a step asks for, in the order it asks.
pub open spec fn step_needs(c: Qwen3Config, bound: Seq<Seq<char>>, step: StreamStep) -> Seq<
    Seq<char>,
> {
    match step {
        StreamStep::Embed => seq!["token_embd.weight"@],
        StreamStep::Qkv { il } => block_names(il as nat, attention_needs(c).drop_last()),
        StreamStep::Attend { il } => block_names(il as nat, seq!["attn_output.weight"@]),
        StreamStep::NormAttention { il } => block_names(
            il as nat,
            seq!["post_attention_norm.weight"@],
        ),
        StreamStep::FeedForward { il } => block_names(il as nat, feed_forward_needs(c)),
        StreamStep::NormExperts { il } => block_names(il as nat, seq!["post_ffw_norm.weight"@]),
        StreamStep::Output => seq![
            "output_norm.weight"@,
            if bound.contains("output.weight"@) {
                "output.weight"@
            } else {
                "token_embd.weight"@
            },
        ],
        StreamStep::Experts { il } => Seq::empty(),
        StreamStep::Done => Seq::empty(),
    }
}

/// The suffixes a layer's feed-forward step asks for.
pub open spec fn feed_forward_needs(c: Qwen3Config) -> Seq<Seq<char>> {
    if c.moe() {
        seq!["ffn_norm.weight"@, "ffn_gate_inp.weight"@]
    } else {
        seq!["ffn_norm.weight"@] + ffn_needs(c) + (if c.post_norms {
            seq!["post_ffw_norm.weight"@]
        } else {
            Seq::empty()
        })
    }
}

// --------------------------------------------------------------- what a step computes

/// `[n0, n1, n2]` values the caller holds.
pub open spec fn held(slot: Slot, n0: int, n1: int, n2: int) -> Expr {
    Expr::Input { slot, n0, n1, n2 }
}

/// The embeddings of `tokens`, on the scale the architecture wants them.
pub open spec fn embedded(c: Qwen3Config, tokens: Seq<u32>) -> Expr {
    embedded_rows(
        c,
        Expr::Ints { n0: tokens.len() as int, n1: 1, values: token_ids(tokens) },
    )
}

/// Queries and keys, rotated, and values of the new positions.
pub open spec fn new_qkv(c: Qwen3Config, il: nat, n_new: int, pos_start: int) -> Seq<Expr> {
    let x = held(Slot::Activations, c.n_embd as int, n_new, 1);
    let at = Expr::Ints { n0: n_new, n1: 1, values: positions_from(pos_start, n_new) };
    let (q, k, v) = qkv_of(c, il, x, n_new as i64);
    seq![
        rotated(c, q, at, c.rope_type, c.rope_params()),
        rotated(c, k, at, c.rope_type, c.rope_params()),
        v,
    ]
}

/// Attention of the new positions over everything stored, through the output
/// projection.
pub open spec fn history_attended(
    c: Qwen3Config,
    il: nat,
    n_new: int,
    n_total: int,
    pos_start: int,
) -> Expr {
    let d = c.head_dim as int;
    let q = held(Slot::Queries, d, c.n_head as int, n_new);
    let k = held(Slot::CachedKeys, d, c.n_head_kv as int, n_total);
    let v = held(Slot::CachedValues, d, c.n_head_kv as int, n_total);
    let mask = mask_bytes(
        n_new,
        n_total,
        causal(pos_start, layer_window(c, il as int) as int),
    );
    e2(
        Op::MulMat,
        w(il, "attn_output.weight"@),
        flash_attended(c, q, k, v, n_new as i64, n_total as i64, mask),
    )
}

/// A norm applied to a whole activation buffer.
pub open spec fn post_normed(c: Qwen3Config, il: nat, n_new: int, suffix: Seq<char>) -> Expr {
    normed(c.rms_eps, held(Slot::Activations, c.n_embd as int, n_new, 1), w(il, suffix))
}

/// The feed-forward step: a dense layer's whole output with its residual; of a mixture,
/// the normalised activations and the router's probabilities.
pub open spec fn fed_forward(c: Qwen3Config, il: nat, n_new: int) -> Seq<Expr> {
    let x = held(Slot::FfnInput, c.n_embd as int, n_new, 1);
    let h = normed(c.rms_eps, x, w(il, "ffn_norm.weight"@));
    if c.moe() {
        seq![h, router(il, h)]
    } else {
        let ffn = dense_out(c, il, h);
        let ffn = if c.post_norms {
            normed(c.rms_eps, ffn, w(il, "post_ffw_norm.weight"@))
        } else {
            ffn
        };
        seq![e2(Op::Add, ffn, x)]
    }
}

/// The logits of `n` positions, before any cap.
pub open spec fn logits_of(c: Qwen3Config, bound: Seq<Seq<char>>, n: int) -> Expr {
    e2(
        Op::MulMat,
        output_weight(bound),
        normed(
            c.rms_eps,
            held(Slot::Activations, c.n_embd as int, n, 1),
            outer("output_norm.weight"@),
        ),
    )
}

/// What a step computes.
pub open spec fn step_out(
    c: Qwen3Config,
    bound: Seq<Seq<char>>,
    step: StreamStep,
    tokens: Seq<u32>,
    pos_start: int,
    n_past: int,
) -> Seq<Expr> {
    let n_new = tokens.len() as int;
    match step {
        StreamStep::Embed => seq![embedded(c, tokens)],
        StreamStep::Qkv { il } => new_qkv(c, il as nat, n_new, pos_start),
        StreamStep::Attend { il } => seq![
            history_attended(c, il as nat, n_new, n_past + n_new, pos_start),
        ],
        StreamStep::NormAttention { il } => seq![
            post_normed(c, il as nat, n_new, "post_attention_norm.weight"@),
        ],
        StreamStep::FeedForward { il } => fed_forward(c, il as nat, n_new),
        StreamStep::NormExperts { il } => seq![
            post_normed(c, il as nat, n_new, "post_ffw_norm.weight"@),
        ],
        // Only the last position is ever sampled, and the vocabulary projection is the
        // widest product in the model: its row alone is projected.
        StreamStep::Output => seq![
            e1(Op::Softcap { cap: c.final_logit_softcap }, logits_of(c, bound, 1)),
        ],
        StreamStep::Experts { il } => Seq::empty(),
        StreamStep::Done => Seq::empty(),
    }
}

/// How large an arena has to be: the f32 matrices it holds, how many nodes, and the
/// bytes of the weights bound inside it.
pub struct Arena {
    pub shapes: Vec<(i64, i64)>,
    pub nodes: usize,
    pub weights: usize,
}

/// The matrices a step materialises.
pub open spec fn step_shapes(c: Qwen3Config, step: StreamStep, n_new: int, n_past: int) -> Seq<
    (i64, i64),
> {
    let n = n_new as i64;
    let e = c.n_embd as i64;
    let q = (c.n_head * c.head_dim) as i64;
    let kv = (c.n_head_kv * c.head_dim) as i64;
    let total = (n_past + n_new) as i64;
    let out = (c.head_dim * n_new) as i64;
    match step {
        StreamStep::Embed => seq![(e, n)],
        StreamStep::Qkv { il } => seq![
            (e, n),
            (e, n),
            (e, n),
            (q, n),
            (kv, n),
            (kv, n),
            (q, n),
            (kv, n),
            (q, n),
            (kv, n),
        ],
        StreamStep::Attend { il } => seq![
            (q, n),
            (kv, total),
            (kv, total),
            (total, n),
            (out, c.n_head as i64),
            (out, c.n_head as i64),
            (e, n),
        ],
        StreamStep::NormAttention { il } => seq![(e, n)],
        StreamStep::NormExperts { il } => seq![(e, n)],
        StreamStep::FeedForward { il } => seq![
            (e, n),
            (e, n),
            (e, n),
            (c.n_expert as i64, n),
            (c.n_expert as i64, n),
        ],
        StreamStep::Output => seq![(e, 1i64), (e, 1i64), (c.vocab_size as i64, 1i64)],
        StreamStep::Experts { il } => Seq::empty(),
        StreamStep::Done => Seq::empty(),
    }
}

/// The nodes a step's arena has room for.
pub open spec fn step_nodes(step: StreamStep) -> int {
    match step {
        StreamStep::Embed => 8,
        StreamStep::Qkv { il } => 32,
        StreamStep::Attend { il } => 24,
        StreamStep::NormAttention { il } => 12,
        StreamStep::NormExperts { il } => 12,
        StreamStep::FeedForward { il } => 24,
        StreamStep::Output => 16,
        StreamStep::Experts { il } => 0,
        StreamStep::Done => 0,
    }
}

/// A step's graph, ready to execute.
pub struct Task {
    pub graph: Graph,
    /// The nodes whose values are handed on.
    pub outputs: Vec<usize>,
}

impl Task {
    /// The graph is well formed and its outputs compute `want`.
    pub open spec fn computes(self, want: Seq<Expr>) -> bool {
        &&& self.graph.wf()
        &&& self.outputs@.len() == want.len()
        &&& forall|i: int|
            0 <= i < want.len() ==> (#[trigger] self.outputs@[i]) < self.graph@.len()
                && self.graph@[self.outputs@[i] as int] == want[i]
    }
}

/// A batch small enough for the library's integers: positions are 32-bit, and a mask
/// has two bytes for each pair of positions.
pub open spec fn batch_fits(n_new: int, pos_start: int, n_past: int) -> bool {
    &&& pos_start + n_new <= i32::MAX
    &&& n_past + n_new <= i32::MAX
    &&& n_new * (n_past + n_new) * 2 <= usize::MAX
}

fn ids_of(tokens: &Vec<u32>) -> (ids: Vec<i32>)
    ensures
        ids@ == token_ids(tokens@),
{
    let mut ids: Vec<i32> = Vec::new();
    let mut i: usize = 0;
    while i < tokens.len()
        invariant
            i <= tokens.len(),
            ids@ == token_ids(tokens@.take(i as int)),
        decreases tokens.len() - i,
    {
        ids.push(tokens[i] as i32);
        i = i + 1;
        assert(ids@ =~= token_ids(tokens@.take(i as int)));
    }
    assert(tokens@.take(i as int) =~= tokens@);
    ids
}

fn positions_of(from: usize, n: usize) -> (positions: Vec<i32>)
    requires
        from + n <= i32::MAX,
    ensures
        positions@ == positions_from(from as int, n as int),
{
    let mut positions: Vec<i32> = Vec::new();
    let mut i: usize = 0;
    while i < n
        invariant
            i <= n,
            from + n <= i32::MAX,
            positions@ == positions_from(from as int, i as int),
        decreases n - i,
    {
        positions.push((from + i) as i32);
        i = i + 1;
        assert(positions@ =~= positions_from(from as int, i as int));
    }
    positions
}

fn step_needs_list(c: &Qwen3Config, bound: &Vec<String>, step: StreamStep) -> (names: Vec<String>)
    ensures
        texts(names@) == step_needs(*c, texts(bound@), step),
{
    let mut names: Vec<String> = Vec::new();
    let ghost want = step_needs(*c, texts(bound@), step);
    match step {
        StreamStep::Embed => {
            names.push("token_embd.weight".to_owned());
        },
        StreamStep::Qkv { il } => {
            let mut list = attention_needs_list(c);
            let ghost whole = literals(list@);
            list.pop();
            assert(literals(list@) =~= whole.drop_last());
            push_block_names(&mut names, il, &list);
        },
        StreamStep::Attend { il } => {
            names.push(block_tensor(il, "attn_output.weight"));
        },
        StreamStep::NormAttention { il } => {
            names.push(block_tensor(il, "post_attention_norm.weight"));
        },
        StreamStep::FeedForward { il } => {
            let list = feed_forward_list(c);
            push_block_names(&mut names, il, &list);
        },
        StreamStep::NormExperts { il } => {
            names.push(block_tensor(il, "post_ffw_norm.weight"));
        },
        StreamStep::Output => {
            names.push("output_norm.weight".to_owned());
            if listed(bound, "output.weight") {
                names.push("output.weight".to_owned());
            } else {
                names.push("token_embd.weight".to_owned());
            }
        },
        StreamStep::Experts { il } => {},
        StreamStep::Done => {},
    }
    assert(texts(names@) =~= want);
    names
}

fn feed_forward_list(c: &Qwen3Config) -> (list: Vec<&'static str>)
    ensures
        literals(list@) == feed_forward_needs(*c),
{
    let mut list: Vec<&'static str> = vec!["ffn_norm.weight"];
    if c.is_moe() {
        list.push("ffn_gate_inp.weight");
    } else {
        if !c.fused_gate_up {
            list.push("ffn_gate.weight");
        }
        list.push("ffn_up.weight");
        list.push("ffn_down.weight");
        if c.post_norms {
            list.push("post_ffw_norm.weight");
        }
    }
    assert(literals(list@) =~= feed_forward_needs(*c));
    list
}

/// How large an arena a step wants.
pub fn step_arena(c: &Qwen3Config, step: StreamStep, n_new: usize, n_past: usize) -> (arena: Arena)
    requires
        widths_fit(*c),
        n_past + n_new <= i32::MAX,
    ensures
        arena.shapes@ == step_shapes(*c, step, n_new as int, n_past as int),
        arena.nodes == step_nodes(step),
        arena.weights == 0,
{
    proof {
        assert(c.n_head * c.head_dim == c.head_dim * c.n_head) by (nonlinear_arith);
        assert(c.n_head_kv * c.head_dim == c.head_dim * c.n_head_kv) by (nonlinear_arith);
        assert(0 <= c.head_dim * n_new <= u32::MAX * i32::MAX) by (nonlinear_arith)
            requires
                0 <= c.head_dim <= u32::MAX,
                0 <= n_new <= i32::MAX,
        ;
    }
    let n: i64 = n_new as i64;
    let e: i64 = c.n_embd as i64;
    let q: i64 = (c.n_head * c.head_dim) as i64;
    let kv: i64 = (c.n_head_kv * c.head_dim) as i64;
    let total: i64 = (n_past + n_new) as i64;
    let out: i64 = c.head_dim as i64 * n;
    let heads: i64 = c.n_head as i64;
    let experts: i64 = c.n_expert as i64;
    match step {
        StreamStep::Embed => Arena { shapes: vec![(e, n)], nodes: 8, weights: 0 },
        StreamStep::Qkv { il } => Arena {
            shapes: vec![
                (e, n),
                (e, n),
                (e, n),
                (q, n),
                (kv, n),
                (kv, n),
                (q, n),
                (kv, n),
                (q, n),
                (kv, n),
            ],
            nodes: 32,
            weights: 0,
        },
        StreamStep::Attend { il } => Arena {
            shapes: vec![
                (q, n),
                (kv, total),
                (kv, total),
                (total, n),
                (out, heads),
                (out, heads),
                (e, n),
            ],
            nodes: 24,
            weights: 0,
        },
        StreamStep::NormAttention { il } => Arena { shapes: vec![(e, n)], nodes: 12, weights: 0 },
        StreamStep::NormExperts { il } => Arena { shapes: vec![(e, n)], nodes: 12, weights: 0 },
        StreamStep::FeedForward { il } => Arena {
            shapes: vec![(e, n), (e, n), (e, n), (experts, n), (experts, n)],
            nodes: 24,
            weights: 0,
        },
        StreamStep::Output => Arena {
            shapes: vec![(e, 1), (e, 1), (c.vocab_size as i64, 1)],
            nodes: 16,
            weights: 0,
        },
        StreamStep::Experts { il } => Arena { shapes: Vec::new(), nodes: 0, weights: 0 },
        StreamStep::Done => Arena { shapes: Vec::new(), nodes: 0, weights: 0 },
    }
}

impl StreamingRunner {
    /// The graph of one step of an incremental pass over `tokens`, the first of which
    /// stands at `pos_start`, with `n_past` positions stored. Fails on the first weight
    /// the step needs that is not bound. The experts' own graphs are not among these:
    /// what they are is known only once the router has run.
    pub fn forward_cached(
        &self,
        bound: &Vec<String>,
        step: StreamStep,
        tokens: &Vec<u32>,
        pos_start: usize,
        n_past: usize,
    ) -> (task: Result<Task>)
        requires
            widths_fit(self@.config),
            batch_fits(tokens@.len() as int, pos_start as int, n_past as int),
        ensures
            match task {
                Ok(t) => {
                    &&& first_unbound(
                        texts(bound@),
                        step_needs(self@.config, texts(bound@), step),
                        0,
                    ) is None
                    &&& t.computes(
                        step_out(
                            self@.config,
                            texts(bound@),
                            step,
                            tokens@,
                            pos_start as int,
                            n_past as int,
                        ),
                    )
                },
                Err(ArchError::MissingTensor(name)) => first_unbound(
                    texts(bound@),
                    step_needs(self@.config, texts(bound@), step),
                    0,
                ) == Some(name@),
                Err(_) => false,
            },
    {
        let arch = self.arch();
        let c = arch.config;
        check_bound(bound, &step_needs_list(&c, bound, step))?;
        let n_new: usize = tokens.len();
        let n: i64 = n_new as i64;
        let e: i64 = c.n_embd as i64;
        let mut graph = Graph::new();
        let outputs: Vec<usize> = match step {
            StreamStep::Embed => {
                let ids = graph.ints(n, 1, ids_of(tokens));
                let table = graph.weight("token_embd.weight".to_owned());
                let rows = graph.op2(Op::GetRows, table, ids);
                if c.scale_embeddings {
                    vec![graph.op1(Op::ScaleBySqrt { of: c.n_embd }, rows)]
                } else {
                    vec![rows]
                }
            },
            StreamStep::Qkv { il } => {
                let x = graph.input(Slot::Activations, e, n, 1);
                let at = graph.ints(n, 1, positions_of(pos_start, n_new));
                let (q, k, v) = arch.qkv_heads(&mut graph, il, x, n);
                let q = arch.rotate(&mut graph, q, at, c.rope_type, c.rope());
                let k = arch.rotate(&mut graph, k, at, c.rope_type, c.rope());
                vec![q, k, v]
            },
            StreamStep::Attend { il } => {
                let n_total: usize = n_past + n_new;
                let d: i64 = c.head_dim as i64;
                let window: u32 = window_of_layer(&c, il);
                let q = graph.input(Slot::Queries, d, c.n_head as i64, n);
                let k = graph.input(Slot::CachedKeys, d, c.n_head_kv as i64, n_total as i64);
                let v = graph.input(Slot::CachedValues, d, c.n_head_kv as i64, n_total as i64);
                let mask = causal_mask(pos_start, n_new, n_total, window);
                let out = arch.attention_flash(&mut graph, q, k, v, n, n_total as i64, mask);
                let wo = graph.weight(block_tensor(il, "attn_output.weight"));
                vec![graph.op2(Op::MulMat, wo, out)]
            },
            StreamStep::NormAttention { il } => {
                let x = graph.input(Slot::Activations, e, n, 1);
                vec![arch.norm_by(&mut graph, il, "post_attention_norm.weight", x)]
            },
            StreamStep::FeedForward { il } => {
                let x = graph.input(Slot::FfnInput, e, n, 1);
                let h = arch.norm_by(&mut graph, il, "ffn_norm.weight", x);
                if c.is_moe() {
                    let probs = arch.route_probabilities(&mut graph, h, il);
                    vec![h, probs]
                } else {
                    let ffn = arch.dense_ffn(&mut graph, h, il);
                    let ffn = if c.post_norms {
                        arch.norm_by(&mut graph, il, "post_ffw_norm.weight", ffn)
                    } else {
                        ffn
                    };
                    vec![graph.op2(Op::Add, ffn, x)]
                }
            },
            StreamStep::NormExperts { il } => {
                let x = graph.input(Slot::Activations, e, n, 1);
                vec![arch.norm_by(&mut graph, il, "post_ffw_norm.weight", x)]
            },
            StreamStep::Output => {
                let x = graph.input(Slot::Activations, e, 1, 1);
                let norm = graph.weight("output_norm.weight".to_owned());
                let h = arch.norm_scaled(&mut graph, x, norm);
                let out = arch.output_of(&mut graph, bound);
                let logits = graph.op2(Op::MulMat, out, h);
                vec![graph.op1(Op::Softcap { cap: c.final_logit_softcap }, logits)]
            },
            StreamStep::Experts { il } => Vec::new(),
            StreamStep::Done => Vec::new(),
        };
        Ok(Task { graph, outputs })
    }
}

// ----------------------------------------------------------------- stored positions

/// The history with the first `n` of the rows `k` and `v` appended to `layer`.
pub open spec fn stored(m: KvModel, layer: int, k: Seq<KvRow>, v: Seq<KvRow>, n: int) -> KvModel
    decreases n,
{
    if n <= 0 {
        m
    } else {
        stored(m, layer, k, v, n - 1).pushed(layer, k[n - 1].bytes(), v[n - 1].bytes())
    }
}

/// The first position at or after `from` whose rows are not `width` values long.
pub open spec fn first_misfit(k: Seq<KvRow>, v: Seq<KvRow>, width: int, from: int) -> Option<int>
    decreases k.len() - from,
{
    if from < 0 || from >= k.len() {
        None
    } else if k[from].values() != width || v[from].values() != width {
        Some(from)
    } else {
        first_misfit(k, v, width, from + 1)
    }
}

/// Stores the keys and values of the new positions of one layer, a row each: they never
/// change again. Stops at the first row of the wrong length.
pub fn store_positions(cache: &mut KvCache, il: usize, k: &Vec<KvRow>, v: &Vec<KvRow>) -> (done:
    Result<()>)
    requires
        old(cache)@.wf(),
        il < old(cache)@.k.len(),
        k@.len() == v@.len(),
        forall|i: int| 0 <= i < k@.len() ==> (#[trigger] k@[i]).encodes(old(cache)@.kind),
        forall|i: int| 0 <= i < v@.len() ==> (#[trigger] v@[i]).encodes(old(cache)@.kind),
    ensures
        final(cache)@.wf(),
        match first_misfit(k@, v@, old(cache)@.per_position, 0) {
            None => done is Ok && final(cache)@ == stored(
                old(cache)@,
                il as int,
                k@,
                v@,
                k@.len() as int,
            ),
            Some(i) => {
                &&& final(cache)@ == stored(old(cache)@, il as int, k@, v@, i)
                &&& done matches Err(ArchError::Kv(e))
                &&& e == (KvError::WrongSize {
                    expected: old(cache)@.per_position as usize,
                    got_k: k@[i].values() as usize,
                    got_v: v@[i].values() as usize,
                })
            },
        },
{
    let ghost before = cache@;
    let mut i: usize = 0;
    while i < k.len()
        invariant
            i <= k.len(),
            before == old(cache)@,
            cache@.wf(),
            cache@.k.len() == before.k.len(),
            cache@.kind == before.kind,
            cache@.per_position == before.per_position,
            il < before.k.len(),
            k@.len() == v@.len(),
            forall|j: int| 0 <= j < k@.len() ==> (#[trigger] k@[j]).encodes(before.kind),
            forall|j: int| 0 <= j < v@.len() ==> (#[trigger] v@[j]).encodes(before.kind),
            cache@ == stored(before, il as int, k@, v@, i as int),
            first_misfit(k@, v@, before.per_position, 0) == first_misfit(
                k@,
                v@,
                before.per_position,
                i as int,
            ),
        decreases k.len() - i,
    {
        assert(k@[i as int].encodes(before.kind));
        assert(v@[i as int].encodes(before.kind));
        match cache.push(il, &k[i], &v[i]) {
            Ok(()) => {},
            Err(e) => {
                return Err(ArchError::Kv(e));
            },
        }
        i = i + 1;
    }
    Ok(())
}

/// The history with the first `n` rows of each layer below `layers` appended to it.
pub open spec fn stored_below(
    m: KvModel,
    k: Seq<Seq<KvRow>>,
    v: Seq<Seq<KvRow>>,
    n: int,
    layers: int,
) -> KvModel
    decreases layers,
{
    if layers <= 0 {
        m
    } else {
        stored(stored_below(m, k, v, n, layers - 1), layers - 1, k[layers - 1], v[layers - 1], n)
    }
}

/// `grown` is `bytes` with the first `n` of `rows` behind them, `step` bytes each.
pub open spec fn grown_by(grown: Seq<u8>, bytes: Seq<u8>, rows: Seq<KvRow>, step: int, n: int) -> bool {
    &&& grown.len() == bytes.len() + n * step
    &&& grown.take(bytes.len() as int) == bytes
    &&& forall|i: int|
        0 <= i < n ==> grown.subrange(bytes.len() + i * step, bytes.len() + (i + 1) * step)
            == (#[trigger] rows[i]).bytes()
}

/// The first `n` of `rows` fill a position each.
pub open spec fn rows_fit(m: KvModel, rows: Seq<KvRow>, n: int) -> bool {
    &&& n <= rows.len()
    &&& forall|i: int|
        0 <= i < n ==> (#[trigger] rows[i]).encodes(m.kind) && rows[i].values() == m.per_position
}

proof fn grown_by_one_more(
    after: Seq<u8>,
    grown: Seq<u8>,
    bytes: Seq<u8>,
    rows: Seq<KvRow>,
    step: int,
    n: int,
)
    requires
        0 <= n < rows.len(),
        0 <= step,
        rows[n].bytes().len() == step,
        grown_by(grown, bytes, rows, step, n),
        after == grown + rows[n].bytes(),
    ensures
        grown_by(after, bytes, rows, step, n + 1),
{
    let old_len = bytes.len() as int;
    assert((n + 1) * step == n * step + step) by (nonlinear_arith);
    assert(n * step >= 0) by (nonlinear_arith)
        requires
            n >= 0,
            step >= 0,
    ;
    assert(after.take(old_len) =~= grown.take(old_len));
    assert forall|i: int| 0 <= i < n + 1 implies after.subrange(
        old_len + i * step,
        old_len + (i + 1) * step,
    ) == (#[trigger] rows[i]).bytes() by {
        if i < n {
            assert(0 <= i * step <= (i + 1) * step <= n * step) by (nonlinear_arith)
                requires
                    0 <= i < n,
                    step >= 0,
            ;
            assert(after.subrange(old_len + i * step, old_len + (i + 1) * step) =~= grown.subrange(
                old_len + i * step,
                old_len + (i + 1) * step,
            ));
        } else {
            assert(after.subrange(old_len + i * step, old_len + (i + 1) * step)
                =~= rows[n].bytes());
        }
    }
}

proof fn storing_grows_one_layer(m: KvModel, layer: int, k: Seq<KvRow>, v: Seq<KvRow>, n: int)
    requires
        m.wf(),
        0 <= layer < m.k.len(),
        0 <= n,
        rows_fit(m, k, n),
        rows_fit(m, v, n),
    ensures
        ({
            let after = stored(m, layer, k, v, n);
            &&& after == (KvModel { k: after.k, v: after.v, ..m })
            &&& after.k.len() == m.k.len()
            &&& after.v.len() == m.v.len()
            &&& forall|i: int| 0 <= i < m.k.len() && i != layer ==> #[trigger] after.k[i] == m.k[i]
            &&& forall|i: int| 0 <= i < m.v.len() && i != layer ==> #[trigger] after.v[i] == m.v[i]
            &&& grown_by(after.k[layer], m.k[layer], k, m.step(), n)
            &&& grown_by(after.v[layer], m.v[layer], v, m.step(), n)
        }),
    decreases n,
{
    if n > 0 {
        storing_grows_one_layer(m, layer, k, v, n - 1);
        let before = stored(m, layer, k, v, n - 1);
        let after = stored(m, layer, k, v, n);
        assert(k[n - 1].encodes(m.kind) && v[n - 1].encodes(m.kind));
        crate::kv::a_row_fills_one_position(k[n - 1], m);
        crate::kv::a_row_fills_one_position(v[n - 1], m);
        grown_by_one_more(after.k[layer], before.k[layer], m.k[layer], k, m.step(), n - 1);
        grown_by_one_more(after.v[layer], before.v[layer], m.v[layer], v, m.step(), n - 1);
    } else {
        assert(m.k[layer].take(m.k[layer].len() as int) =~= m.k[layer]);
        assert(m.v[layer].take(m.v[layer].len() as int) =~= m.v[layer]);
    }
}

proof fn storing_grows_every_layer(
    m: KvModel,
    k: Seq<Seq<KvRow>>,
    v: Seq<Seq<KvRow>>,
    n: int,
    layers: int,
)
    requires
        m.wf(),
        0 <= n,
        0 <= layers <= m.k.len(),
        k.len() == m.k.len(),
        v.len() == m.k.len(),
        forall|l: int| 0 <= l < k.len() ==> rows_fit(m, #[trigger] k[l], n),
        forall|l: int| 0 <= l < v.len() ==> rows_fit(m, #[trigger] v[l], n),
    ensures
        ({
            let after = stored_below(m, k, v, n, layers);
            &&& after == (KvModel { k: after.k, v: after.v, ..m })
            &&& after.k.len() == m.k.len()
            &&& after.v.len() == m.v.len()
            &&& forall|l: int|
                layers <= l < m.k.len() ==> #[trigger] after.k[l] == m.k[l] && after.v[l] == m.v[l]
            &&& forall|l: int|
                0 <= l < layers ==> grown_by(#[trigger] after.k[l], m.k[l], k[l], m.step(), n)
            &&& forall|l: int|
                0 <= l < layers ==> grown_by(#[trigger] after.v[l], m.v[l], v[l], m.step(), n)
        }),
    decreases layers,
{
    if layers > 0 {
        storing_grows_every_layer(m, k, v, n, layers - 1);
        let before = stored_below(m, k, v, n, layers - 1);
        let after = stored_below(m, k, v, n, layers);
        assert(rows_fit(m, k[layers - 1], n) && rows_fit(m, v[layers - 1], n));
        assert(before.k[layers - 1] == m.k[layers - 1]);
        assert(rows_fit(before, k[layers - 1], n) && rows_fit(before, v[layers - 1], n));
        storing_grows_one_layer(before, layers - 1, k[layers - 1], v[layers - 1], n);
        assert forall|l: int| 0 <= l < layers implies grown_by(
            #[trigger] after.v[l],
            m.v[l],
            v[l],
            m.step(),
            n,
        ) by {
            if l < layers - 1 {
                assert(after.v[l] == before.v[l]);
            }
        }
        assert forall|l: int| 0 <= l < layers implies grown_by(
            #[trigger] after.k[l],
            m.k[l],
            k[l],
            m.step(),
            n,
        ) by {
            if l < layers - 1 {
                assert(after.k[l] == before.k[l]);
            }
        }
    }
}

proof fn positions_of_grown(
    m: KvModel,
    after: KvModel,
    grown: Seq<u8>,
    bytes: Seq<u8>,
    rows: Seq<KvRow>,
    n: int,
)
    requires
        m.wf(),
        0 <= n,
        after.step() == m.step(),
        bytes.len() == m.positions * m.step(),
        grown_by(grown, bytes, rows, m.step(), n),
    ensures
        grown.len() == (m.positions + n) * m.step(),
        forall|p: int|
            0 <= p < m.positions ==> #[trigger] after.position_of(grown, p) == m.position_of(bytes, p),
        forall|i: int|
            0 <= i < n ==> after.position_of(grown, m.positions + i) == (#[trigger] rows[i]).bytes(),
{
    let step = m.step();
    let at = m.positions;
    assert((at + n) * step == at * step + n * step) by (nonlinear_arith);
    assert(n * step >= 0) by (nonlinear_arith)
        requires
            n >= 0,
            step >= 0,
    ;
    assert forall|p: int| 0 <= p < at implies #[trigger] after.position_of(grown, p)
        == m.position_of(bytes, p) by {
        assert(0 <= p * step <= (p + 1) * step <= at * step) by (nonlinear_arith)
            requires
                0 <= p < at,
                step >= 0,
        ;
        assert(after.position_of(grown, p) =~= grown.take(bytes.len() as int).subrange(
            p * step,
            (p + 1) * step,
        ));
    }
    assert forall|i: int| 0 <= i < n implies after.position_of(grown, at + i) == (
    #[trigger] rows[i]).bytes() by {
        assert((at + i) * step == at * step + i * step && (at + i + 1) * step == at * step + (i + 1)
            * step) by (nonlinear_arith);
    }
}

/// Storing `n` rows in every layer and advancing by `n` keeps a history consistent: the
/// new rows are its last positions, in order, and the earlier ones are as they were.
pub proof fn storing_in_every_layer_is_consistent(
    m: KvModel,
    k: Seq<Seq<KvRow>>,
    v: Seq<Seq<KvRow>>,
    n: int,
)
    requires
        m.wf(),
        m.consistent(),
        0 <= n,
        k.len() == m.k.len(),
        v.len() == m.k.len(),
        forall|l: int| 0 <= l < k.len() ==> rows_fit(m, #[trigger] k[l], n),
        forall|l: int| 0 <= l < v.len() ==> rows_fit(m, #[trigger] v[l], n),
    ensures
        ({
            let all = stored_below(m, k, v, n, m.k.len() as int);
            let after = KvModel { positions: m.positions + n, ..all };
            &&& after.consistent()
            &&& forall|l: int, p: int|
                0 <= l < m.k.len() && 0 <= p < m.positions ==> #[trigger] after.position_of(
                    after.k[l],
                    p,
                ) == m.position_of(m.k[l], p) && after.position_of(after.v[l], p) == m.position_of(
                    m.v[l],
                    p,
                )
            &&& forall|l: int, i: int|
                0 <= l < m.k.len() && 0 <= i < n ==> after.position_of(
                    after.k[l],
                    m.positions + i,
                ) == (#[trigger] k[l][i]).bytes()
            &&& forall|l: int, i: int|
                0 <= l < m.k.len() && 0 <= i < n ==> after.position_of(
                    after.v[l],
                    m.positions + i,
                ) == (#[trigger] v[l][i]).bytes()
        }),
{
    let all = stored_below(m, k, v, n, m.k.len() as int);
    let after = KvModel { positions: m.positions + n, ..all };
    storing_grows_every_layer(m, k, v, n, m.k.len() as int);
    crate::kv::positions_scale(m, m.positions);
    crate::kv::positions_scale(m, m.positions + n);
    assert forall|l: int| 0 <= l < m.k.len() implies grown_by(
        #[trigger] after.k[l],
        m.k[l],
        k[l],
        m.step(),
        n,
    ) && m.k[l].len() == m.positions * m.step() by {
        assert(all.k[l] == after.k[l]);
    }
    assert forall|l: int| 0 <= l < m.k.len() implies grown_by(
        #[trigger] after.v[l],
        m.v[l],
        v[l],
        m.step(),
        n,
    ) && m.v[l].len() == m.positions * m.step() by {
        assert(all.v[l] == after.v[l]);
    }
    assert forall|l: int| 0 <= l < after.k.len() implies (#[trigger] after.k[l]).len()
        == after.kind.size_of(after.positions * after.per_position) by {
        positions_of_grown(m, after, after.k[l], m.k[l], k[l], n);
    }
    assert forall|l: int| 0 <= l < after.v.len() implies (#[trigger] after.v[l]).len()
        == after.kind.size_of(after.positions * after.per_position) by {
        positions_of_grown(m, after, after.v[l], m.v[l], v[l], n);
    }
    assert forall|l: int, p: int|
        0 <= l < m.k.len() && 0 <= p < m.positions implies #[trigger] after.position_of(
        after.k[l],
        p,
    ) == m.position_of(m.k[l], p) && after.position_of(after.v[l], p) == m.position_of(
        m.v[l],
        p,
    ) by {
        positions_of_grown(m, after, after.k[l], m.k[l], k[l], n);
        positions_of_grown(m, after, after.v[l], m.v[l], v[l], n);
    }
    assert forall|l: int, i: int| 0 <= l < m.k.len() && 0 <= i < n implies after.position_of(
        after.k[l],
        m.positions + i,
    ) == (#[trigger] k[l][i]).bytes() by {
        positions_of_grown(m, after, after.k[l], m.k[l], k[l], n);
    }
    assert forall|l: int, i: int| 0 <= l < m.k.len() && 0 <= i < n implies after.position_of(
        after.v[l],
        m.positions + i,
    ) == (#[trigger] v[l][i]).bytes() by {
        positions_of_grown(m, after, after.v[l], m.v[l], v[l], n);
    }
}

/// Storing positions block by block leaves the history that storing them at once does.
pub proof fn blocks_store_as_one_pass_does(
    m: KvModel,
    layer: int,
    k: Seq<KvRow>,
    v: Seq<KvRow>,
    cut: int,
    n: int,
)
    requires
        0 <= cut <= n <= k.len(),
        k.len() == v.len(),
    ensures
        stored(m, layer, k, v, n) == stored(
            stored(m, layer, k, v, cut),
            layer,
            k.skip(cut),
            v.skip(cut),
            n - cut,
        ),
    decreases n - cut,
{
    if n > cut {
        blocks_store_as_one_pass_does(m, layer, k, v, cut, n - 1);
        assert(k.skip(cut)[n - cut - 1] == k[n - 1]);
        assert(v.skip(cut)[n - cut - 1] == v[n - 1]);
    }
}

/// A query of a block stands at the position, and sees the keys, that it does in one pass
/// over the whole sequence: of the keys a block does not have yet, that pass hides every
/// one.
pub proof fn blocks_attend_as_one_pass_does(
    start: int,
    n: int,
    total: int,
    window: int,
    query: int,
    key: int,
)
    requires
        0 <= start,
        0 <= query < n,
        start + n <= total,
        0 <= key < total,
    ensures
        positions_from(0, total)[start + query] == positions_from(start, n)[query],
        causal(0, window)(start + query, key) <==> key >= start + n || causal(start, window)(
            query,
            key,
        ),
{
}

// ------------------------------------------------------------------ experts of a block

/// The stacked tensors of a layer, in the order their types are looked up.
pub open spec fn stack_names(il: nat) -> Seq<Seq<char>> {
    block_names(
        il,
        seq!["ffn_gate_exps.weight"@, "ffn_up_exps.weight"@, "ffn_down_exps.weight"@],
    )
}

/// The experts of `groups`, in order.
pub open spec fn experts_of(groups: Seq<ExpertGroup>) -> Seq<u32> {
    groups.map_values(|g: ExpertGroup| g.expert)
}

/// The slices read together: everything at once for a single position, else
/// [`READ_GROUP`] experts at a time from the `from`th on.
pub open spec fn read_rounds(il: u32, experts: Seq<u32>, from: int) -> Seq<Seq<Wanted>>
    decreases experts.len() - from,
{
    if from < 0 || from >= experts.len() {
        Seq::empty()
    } else {
        let end = if from + READ_GROUP < experts.len() {
            from + READ_GROUP
        } else {
            experts.len() as int
        };
        seq![wanted_of(il, experts.subrange(from, end))] + read_rounds(il, experts, end)
    }
}

/// What a layer's experts come to for a block of tokens.
pub struct ExpertPlan {
    /// Each token's experts, from the most probable down.
    pub picks: Vec<Vec<u32>>,
    /// Each distinct expert with the tokens that picked it, experts ascending.
    pub groups: Vec<ExpertGroup>,
    /// The stored types of the three stacks: gating, up and down.
    pub types: (u32, u32, u32),
    /// What to read, round by round.
    pub reads: Vec<Vec<Wanted>>,
}

/// The slices of each round.
pub open spec fn rounds_of(reads: Seq<Vec<Wanted>>) -> Seq<Seq<Wanted>> {
    reads.map_values(|r: Vec<Wanted>| r@)
}

/// The routing scores of each token.
pub open spec fn scores_of(keys: Seq<Vec<i64>>) -> Seq<Seq<i64>> {
    keys.map_values(|k: Vec<i64>| k@)
}

impl ExpertPlan {
    /// This is the plan for tokens scored `keys`, `used` experts each.
    pub open spec fn plans(self, model: &Container, keys: Seq<Seq<i64>>, il: u32, used: int) -> bool {
        &&& self.picks@.len() == keys.len()
        &&& forall|t: int|
            0 <= t < keys.len() ==> is_top(keys[t], (#[trigger] self.picks@[t])@, used)
        &&& groups_hold(
            self.groups@,
            |e: u32| members_of(rows_of(self.picks@), e, self.picks@.len() as int),
        )
        &&& model.tensor(stack_names(il as nat)[0]) matches Some(gate)
        &&& model.tensor(stack_names(il as nat)[1]) matches Some(up)
        &&& model.tensor(stack_names(il as nat)[2]) matches Some(down)
        &&& self.types == (gate.ty, up.ty, down.ty)
        &&& rounds_of(self.reads@) == (if keys.len() == 1 {
            seq![wanted_of(il, experts_of(self.groups@))]
        } else {
            read_rounds(il, experts_of(self.groups@), 0)
        })
    }
}

fn expert_list(groups: &Vec<ExpertGroup>) -> (experts: Vec<u32>)
    ensures
        experts@ == experts_of(groups@),
{
    let mut experts: Vec<u32> = Vec::new();
    let mut i: usize = 0;
    while i < groups.len()
        invariant
            i <= groups.len(),
            experts@ == experts_of(groups@.take(i as int)),
        decreases groups.len() - i,
    {
        experts.push(groups[i].expert);
        i = i + 1;
        assert(experts@ =~= experts_of(groups@.take(i as int)));
    }
    assert(groups@.take(i as int) =~= groups@);
    experts
}

fn rounds(il: u32, experts: &Vec<u32>) -> (reads: Vec<Vec<Wanted>>)
    ensures
        rounds_of(reads@) == read_rounds(il, experts@, 0),
{
    let mut reads: Vec<Vec<Wanted>> = Vec::new();
    let mut from: usize = 0;
    assert(rounds_of(reads@) + read_rounds(il, experts@, 0) =~= read_rounds(il, experts@, 0));
    while from < experts.len()
        invariant
            from <= experts.len(),
            rounds_of(reads@) + read_rounds(il, experts@, from as int) == read_rounds(
                il,
                experts@,
                0,
            ),
        decreases experts.len() - from,
    {
        let end: usize = if experts.len() - from > READ_GROUP {
            from + READ_GROUP
        } else {
            experts.len()
        };
        let ghost was = rounds_of(reads@);
        let mut group: Vec<u32> = Vec::new();
        let mut i: usize = from;
        while i < end
            invariant
                from <= i <= end,
                end <= experts.len(),
                group@ == experts@.subrange(from as int, i as int),
            decreases end - i,
        {
            group.push(experts[i]);
            i = i + 1;
            assert(group@ =~= experts@.subrange(from as int, i as int));
        }
        reads.push(wanted_slices(il, group.as_slice()));
        proof {
            let one = wanted_of(il, experts@.subrange(from as int, end as int));
            assert(rounds_of(reads@) =~= was.push(one));
            assert(rounds_of(reads@) + read_rounds(il, experts@, end as int) =~= was + (seq![one]
                + read_rounds(il, experts@, end as int)));
        }
        from = end;
    }
    assert(rounds_of(reads@) =~= read_rounds(il, experts@, 0));
    reads
}

/// Every pick of every token is among its expert's members, and nothing else is.
pub proof fn every_pick_is_run_by_its_expert(picks: Seq<Seq<u32>>, expert: u32, n: int, t: int, r: int)
    requires
        0 <= t < n <= picks.len(),
        0 <= r < picks[t].len(),
        picks.len() <= usize::MAX,
        picks[t].len() <= usize::MAX,
    ensures
        members_of(picks, expert, n).contains(
            Member { token: t as usize, rank: r as usize },
        ) <==> picks[t][r] == expert,
    decreases n,
{
    let m = Member { token: t as usize, rank: r as usize };
    let row = picks[n - 1];
    let fewer = members_of(picks, expert, n - 1);
    let last = ranks_of(row, n - 1, expert, row.len() as int);
    let all = members_of(picks, expert, n);
    if t == n - 1 {
        rank_is_listed(row, t, expert, row.len() as int, r);
        if fewer.contains(m) {
            earlier_tokens_only(picks, expert, n - 1, m);
        }
        if last.contains(m) {
            let i = choose|i: int| 0 <= i < last.len() && last[i] == m;
            assert(all[fewer.len() + i] == m);
        }
    } else {
        every_pick_is_run_by_its_expert(picks, expert, n - 1, t, r);
        if last.contains(m) {
            ranks_name_their_token(row, n - 1, expert, row.len() as int, m);
        }
        if fewer.contains(m) {
            let i = choose|i: int| 0 <= i < fewer.len() && fewer[i] == m;
            assert(all[i] == m);
        }
    }
    if all.contains(m) {
        let i = choose|i: int| 0 <= i < all.len() && all[i] == m;
        if i < fewer.len() {
            assert(fewer[i] == m);
        } else {
            assert(last[i - fewer.len()] == m);
        }
    }
}

proof fn rank_is_listed(row: Seq<u32>, t: int, expert: u32, n: int, r: int)
    requires
        0 <= r < row.len() <= usize::MAX,
        0 <= n <= row.len(),
        0 <= t <= usize::MAX,
    ensures
        ranks_of(row, t, expert, n).contains(
            Member { token: t as usize, rank: r as usize },
        ) <==> (r < n && row[r] == expert),
    decreases n,
{
    let m = Member { token: t as usize, rank: r as usize };
    if n > 0 {
        rank_is_listed(row, t, expert, n - 1, r);
        let fewer = ranks_of(row, t, expert, n - 1);
        let all = ranks_of(row, t, expert, n);
        if fewer.contains(m) {
            let i = choose|i: int| 0 <= i < fewer.len() && fewer[i] == m;
            assert(all[i] == m);
        }
        if r == n - 1 && row[r] == expert {
            assert(all[fewer.len() as int] == m);
        }
        if all.contains(m) {
            let i = choose|i: int| 0 <= i < all.len() && all[i] == m;
            if i < fewer.len() {
                assert(fewer[i] == m);
            }
        }
    }
}

proof fn ranks_name_their_token(row: Seq<u32>, t: int, expert: u32, n: int, m: Member)
    requires
        ranks_of(row, t, expert, n).contains(m),
        0 <= t <= usize::MAX,
    ensures
        m.token == t,
    decreases n,
{
    let all = ranks_of(row, t, expert, n);
    let i = choose|i: int| 0 <= i < all.len() && all[i] == m;
    if n > 0 {
        let fewer = ranks_of(row, t, expert, n - 1);
        if i < fewer.len() {
            assert(fewer[i] == m);
            ranks_name_their_token(row, t, expert, n - 1, m);
        }
    }
}

proof fn earlier_tokens_only(picks: Seq<Seq<u32>>, expert: u32, n: int, m: Member)
    requires
        0 <= n <= picks.len() <= usize::MAX,
        members_of(picks, expert, n).contains(m),
    ensures
        m.token < n,
    decreases n,
{
    let all = members_of(picks, expert, n);
    let i = choose|i: int| 0 <= i < all.len() && all[i] == m;
    if n > 0 {
        let fewer = members_of(picks, expert, n - 1);
        let row = picks[n - 1];
        if i < fewer.len() {
            assert(fewer[i] == m);
            earlier_tokens_only(picks, expert, n - 1, m);
        } else {
            assert(ranks_of(row, n - 1, expert, row.len() as int)[i - fewer.len()]
                == m);
            ranks_name_their_token(row, n - 1, expert, row.len() as int, m);
        }
    }
}

fn stored_type(model: &Container, il: u32, suffix: &str) -> (ty: Result<u32>)
    ensures
        match ty {
            Ok(ty) => model.tensor(block_name(il as nat, suffix@)) matches Some(t) && t.ty == ty,
            Err(ArchError::MissingTensor(name)) => name@ == block_name(il as nat, suffix@)
                && !model.has_tensor(name@),
            Err(_) => false,
        },
{
    let name = block_tensor(il, suffix);
    match model.location(name.as_str()) {
        Some(t) => Ok(t.ty),
        None => Err(ArchError::MissingTensor(name)),
    }
}

impl StreamingRunner {
    /// One layer's experts for a whole block of tokens: who runs where, and what to
    /// read. `keys` orders each token's router probabilities. Fails on the first stack
    /// the container does not hold.
    ///
    /// Grouping by expert reads each distinct expert once for the block, where going
    /// token by token would read it for every token that picked it.
    pub fn expert_ffn_block(&self, model: &Container, keys: &Vec<Vec<i64>>, il: u32) -> (plan:
        Result<ExpertPlan>)
        requires
            forall|t: int| 0 <= t < keys@.len() ==> (#[trigger] keys@[t])@.len() <= u32::MAX,
        ensures
            match plan {
                Ok(p) => p.plans(
                    model,
                    scores_of(keys@),
                    il,
                    self@.config.n_expert_used as int,
                ),
                Err(ArchError::MissingTensor(name)) => first_missing(
                    model,
                    stack_names(il as nat),
                    0,
                ) == Some(name@),
                Err(_) => false,
            },
    {
        let ghost names = stack_names(il as nat);
        let ghost scores = scores_of(keys@);
        let used: usize = self.config().n_expert_used as usize;
        let mut picks: Vec<Vec<u32>> = Vec::new();
        let mut t: usize = 0;
        while t < keys.len()
            invariant
                t <= keys.len(),
                scores == scores_of(keys@),
                picks@.len() == t,
                forall|i: int| 0 <= i < keys@.len() ==> (#[trigger] keys@[i])@.len() <= u32::MAX,
                forall|i: int|
                    0 <= i < t ==> is_top(scores[i], (#[trigger] picks@[i])@, used as int),
            decreases keys.len() - t,
        {
            assert(keys@[t as int]@.len() <= u32::MAX);
            assert(scores[t as int] == keys@[t as int]@);
            picks.push(self.route(&keys[t], used));
            t = t + 1;
        }
        let groups = group_by_expert(&picks);
        proof {
            reveal_with_fuel(first_missing, 4);
            assert(names[0] == block_name(il as nat, "ffn_gate_exps.weight"@));
            assert(names[1] == block_name(il as nat, "ffn_up_exps.weight"@));
            assert(names[2] == block_name(il as nat, "ffn_down_exps.weight"@));
        }
        let gate: u32 = stored_type(model, il, "ffn_gate_exps.weight")?;
        let up: u32 = stored_type(model, il, "ffn_up_exps.weight")?;
        let down: u32 = stored_type(model, il, "ffn_down_exps.weight")?;
        let experts = expert_list(&groups);
        let reads: Vec<Vec<Wanted>> = if keys.len() == 1 {
            let one = wanted_slices(il, experts.as_slice());
            let reads = vec![one];
            assert(rounds_of(reads@) =~= seq![wanted_of(il, experts@)]);
            reads
        } else {
            rounds(il, &experts)
        };
        Ok(ExpertPlan { picks, groups, types: (gate, up, down), reads })
    }

    /// One layer's experts for a single token: its picks, and the slices each needs.
    pub fn run_expert_ffn(&self, keys: &Vec<i64>, il: u32) -> (plan: (Vec<u32>, Vec<Wanted>))
        requires
            keys@.len() <= u32::MAX,
        ensures
            is_top(keys@, plan.0@, self@.config.n_expert_used as int),
            plan.1@ == wanted_of(il, plan.0@),
    {
        let picks = self.route(keys, self.config().n_expert_used as usize);
        let wanted = wanted_slices(il, picks.as_slice());
        (picks, wanted)
    }
}

// -------------------------------------------------------------------- expert graphs

/// `down(silu(gate(x)) * up(x))` of one expert.
pub open spec fn one_expert(gate: Seq<char>, up: Seq<char>, down: Seq<char>, x: Expr) -> Expr {
    let g = e2(Op::MulMat, outer(gate), x);
    let u = e2(Op::MulMat, outer(up), x);
    e2(Op::MulMat, outer(down), e2(Op::Mul, e1(Op::Silu, g), u))
}

/// The name one expert's weight goes by where several are bound together.
pub open spec fn expert_weight(kind: Seq<char>, expert: u32) -> Seq<char> {
    kind + decimal(expert as nat)
}

/// One expert's output for a single position, scaled by its routing weight.
pub open spec fn scaled_expert(expert: u32, weight: u32, x: Expr) -> Expr {
    e1(
        Op::Scale { by: weight },
        one_expert(
            expert_weight("g"@, expert),
            expert_weight("u"@, expert),
            expert_weight("d"@, expert),
            x,
        ),
    )
}

/// The first `n` experts' scaled outputs, summed in order.
pub open spec fn summed_experts(experts: Seq<u32>, weights: Seq<u32>, x: Expr, n: int) -> Expr
    decreases n,
{
    if n <= 1 {
        scaled_expert(experts[0], weights[0], x)
    } else {
        e2(
            Op::Add,
            summed_experts(experts, weights, x, n - 1),
            scaled_expert(experts[n - 1], weights[n - 1], x),
        )
    }
}

/// Weights of different experts never share a name.
pub proof fn expert_weights_differ(kind: Seq<char>, a: u32, b: u32)
    requires
        expert_weight(kind, a) == expert_weight(kind, b),
    ensures
        a == b,
{
    let x = expert_weight(kind, a);
    let y = expert_weight(kind, b);
    assert(x.skip(kind.len() as int) =~= decimal(a as nat));
    assert(y.skip(kind.len() as int) =~= decimal(b as nat));
    decimal_is_injective(a as nat, b as nat);
}

fn op_expert(g: &mut Graph, gate: String, up: String, down: String, x: usize) -> (at: usize)
    requires
        old(g).wf(),
        x < old(g)@.len(),
    ensures
        final(g).wf(),
        extends(final(g)@, old(g)@),
        at < final(g)@.len(),
        final(g)@[at as int] == one_expert(gate@, up@, down@, old(g)@[x as int]),
{
    let gw = g.weight(gate);
    let uw = g.weight(up);
    let dw = g.weight(down);
    let gx = g.op2(Op::MulMat, gw, x);
    let ux = g.op2(Op::MulMat, uw, x);
    let act = g.op1(Op::Silu, gx);
    let act = g.op2(Op::Mul, act, ux);
    g.op2(Op::MulMat, dw, act)
}

fn named_weight(kind: &str, expert: u32) -> (name: String)
    ensures
        name@ == expert_weight(kind@, expert),
{
    let mut name = String::new();
    name.append(kind);
    push_decimal(&mut name, expert as u64);
    assert(name@ =~= expert_weight(kind@, expert));
    name
}

/// Rows of `width` values, one for each member, out of one row per token.
pub open spec fn gathered_rows(rows: Seq<u32>, width: int, members: Seq<Member>) -> Seq<u32> {
    Seq::new(
        (members.len() * width) as nat,
        |i: int| rows[members[i / width].token * width + i % width],
    )
}

/// Gathers a group's tokens into one contiguous matrix, so that its products run once
/// for the group. `rows` holds f32 bit patterns, `width` for each token.
pub fn gather_rows(rows: &[u32], width: usize, members: &Vec<Member>) -> (gathered: Vec<u32>)
    requires
        forall|i: int|
            0 <= i < members@.len() ==> ((#[trigger] members@[i]).token + 1) * width <= rows@.len(),
    ensures
        gathered@ == gathered_rows(rows@, width as int, members@),
{
    let len: usize = rows.len();
    let mut gathered: Vec<u32> = Vec::new();
    let mut m: usize = 0;
    proof {
        assert(0 * width == 0) by (nonlinear_arith);
    }
    while m < members.len()
        invariant
            m <= members.len(),
            len == rows@.len(),
            gathered@.len() == m * width,
            forall|i: int|
                0 <= i < members@.len() ==> ((#[trigger] members@[i]).token + 1) * width <= len,
            forall|i: int|
                0 <= i < gathered@.len() ==> gathered@[i] == gathered_rows(
                    rows@,
                    width as int,
                    members@,
                )[i],
        decreases members.len() - m,
    {
        let token: usize = members[m].token;
        assert((members@[m as int].token + 1) * width <= len);
        assert((token + 1) * width == token * width + width) by (nonlinear_arith);
        assert((m + 1) * width == m * width + width) by (nonlinear_arith);
        assert((m + 1) * width <= members@.len() * width) by (nonlinear_arith)
            requires
                m + 1 <= members@.len(),
        ;
        let from: usize = token * width;
        let mut j: usize = 0;
        while j < width
            invariant
                j <= width,
                m < members@.len(),
                token == members@[m as int].token,
                from == token * width,
                len == rows@.len(),
                from + width <= len,
                (m + 1) * width == m * width + width,
                (m + 1) * width <= members@.len() * width,
                gathered@.len() == m * width + j,
                forall|i: int|
                    0 <= i < gathered@.len() ==> gathered@[i] == gathered_rows(
                        rows@,
                        width as int,
                        members@,
                    )[i],
            decreases width - j,
        {
            proof {
                vstd::arithmetic::div_mod::lemma_fundamental_div_mod_converse(
                    m * width + j,
                    width as int,
                    m as int,
                    j as int,
                );
            }
            gathered.push(rows[from + j]);
            j = j + 1;
        }
        m = m + 1;
    }
    assert(gathered@ =~= gathered_rows(rows@, width as int, members@));
    gathered
}

/// The matrices one expert's graph materialises for `m` tokens.
pub open spec fn block_shapes(c: Qwen3Config, m: int) -> Seq<(i64, i64)> {
    let e = c.n_embd as i64;
    let f = c.n_ff_expert as i64;
    seq![(e, m as i64), (f, m as i64), (f, m as i64), (f, m as i64), (e, m as i64)]
}

/// The matrices the single-position graph materialises for `n` experts.
pub open spec fn single_shapes(c: Qwen3Config, n: int) -> Seq<(i64, i64)> {
    seq![
        (c.n_embd as i64, 1i64),
        (c.n_ff_expert as i64, (n * 3) as i64),
        (c.n_embd as i64, (n * 3) as i64),
    ]
}

impl StreamingRunner {
    /// One expert run against the `m` tokens gathered for it; its weights are bound as
    /// `gate`, `up` and `down`.
    pub fn expert_graph(&self, m: usize) -> (task: Task)
        requires
            m <= i64::MAX,
        ensures
            task.computes(
                seq![
                    one_expert(
                        "gate"@,
                        "up"@,
                        "down"@,
                        held(Slot::Activations, self@.config.n_embd as int, m as int, 1),
                    ),
                ],
            ),
    {
        let mut graph = Graph::new();
        let x = graph.input(Slot::Activations, self.config().n_embd as i64, m as i64, 1);
        let out = op_expert(&mut graph, "gate".to_owned(), "up".to_owned(), "down".to_owned(), x);
        Task { graph, outputs: vec![out] }
    }

    /// How large an arena one expert's graph wants for `m` tokens. Binding a weight
    /// takes its full size there before its data is pointed elsewhere.
    pub fn expert_arena(&self, m: usize, weights: usize) -> (arena: Arena)
        requires
            m <= i64::MAX,
        ensures
            arena.shapes@ == block_shapes(self@.config, m as int),
            arena.nodes == 24,
            arena.weights == weights,
    {
        let c = self.config();
        let e: i64 = c.n_embd as i64;
        let f: i64 = c.n_ff_expert as i64;
        let n: i64 = m as i64;
        Arena { shapes: vec![(e, n), (f, n), (f, n), (f, n), (e, n)], nodes: 24, weights }
    }

    /// One layer's experts for a single position, in one graph: each output is scaled by
    /// its routing weight, an f32 bit pattern, and added up, which leaves one arena and
    /// one barrier for the layer. With no experts there is nothing to compute.
    pub fn expert_ffn_single(&self, experts: &Vec<u32>, weights: &Vec<u32>) -> (task: Option<Task>)
        requires
            experts@.len() == weights@.len(),
        ensures
            task is None <==> experts@.len() == 0,
            task matches Some(t) ==> t.computes(
                seq![
                    summed_experts(
                        experts@,
                        weights@,
                        held(Slot::Activations, self@.config.n_embd as int, 1, 1),
                        experts@.len() as int,
                    ),
                ],
            ),
    {
        let n_embd: i64 = self.config().n_embd as i64;
        let ghost x0 = held(Slot::Activations, n_embd as int, 1, 1);
        let mut graph = Graph::new();
        let x = graph.input(Slot::Activations, n_embd, 1, 1);
        let mut total: Option<usize> = None;
        let mut i: usize = 0;
        while i < experts.len()
            invariant
                i <= experts.len(),
                experts@.len() == weights@.len(),
                graph.wf(),
                x < graph@.len(),
                graph@[x as int] == x0,
                total is None <==> i == 0,
                total matches Some(at) ==> at < graph@.len() && graph@[at as int]
                    == summed_experts(experts@, weights@, x0, i as int),
            decreases experts.len() - i,
        {
            let expert: u32 = experts[i];
            let out = op_expert(
                &mut graph,
                named_weight("g", expert),
                named_weight("u", expert),
                named_weight("d", expert),
                x,
            );
            let scaled = graph.op1(Op::Scale { by: weights[i] }, out);
            match total {
                None => {
                    total = Some(scaled);
                },
                Some(at) => {
                    total = Some(graph.op2(Op::Add, at, scaled));
                },
            }
            i = i + 1;
        }
        match total {
            None => None,
            Some(at) => Some(Task { graph, outputs: vec![at] }),
        }
    }

    /// How large an arena the single-position graph wants for `n` experts.
    pub fn single_arena(&self, n: usize, weights: usize) -> (arena: Arena)
        requires
            16 * n + 32 <= usize::MAX,
            3 * n <= i64::MAX,
        ensures
            arena.shapes@ == single_shapes(self@.config, n as int),
            arena.nodes == 16 * n + 32,
            arena.weights == weights,
    {
        let c = self.config();
        let e: i64 = c.n_embd as i64;
        let f: i64 = c.n_ff_expert as i64;
        let n3: i64 = (n * 3) as i64;
        Arena { shapes: vec![(e, 1), (f, n3), (e, n3)], nodes: 16 * n + 32, weights }
    }
}

// -------------------------------------------------------------------- loading, forward

/// What loading the resident tensors reads: everything that stays in memory and, where
/// it is not tied to the embeddings, the output projection.
pub open spec fn resident_reads(model: &Container, resident: Seq<Seq<char>>) -> Seq<Seq<char>> {
    if model.has_tensor("output.weight"@) {
        resident.push("output.weight"@)
    } else {
        resident
    }
}

/// One layer of an uncached pass: what enters its feed-forward, that normalised, and the
/// router's probabilities. What the experts give is normalised by
/// [`StreamStep::NormExperts`], where the architecture does so.
pub open spec fn uncached_layer(c: Qwen3Config, il: nat, n: int, positions: Seq<i32>) -> Seq<Expr> {
    let x = held(Slot::Activations, c.n_embd as int, n, 1);
    let at = Expr::Ints { n0: n, n1: 1, values: positions };
    let after = layer_entry(c, il, x, at, n as i64);
    let h = normed(c.rms_eps, after, w(il, "ffn_norm.weight"@));
    seq![after, h, router(il, h)]
}

/// The weights one layer of an uncached pass asks for before its experts.
pub open spec fn uncached_needs(c: Qwen3Config) -> Seq<Seq<char>> {
    entry_needs(c) + seq!["ffn_gate_inp.weight"@]
}

impl StreamingRunner {
    /// The tensors to read into memory, in order; fails on the first that the container
    /// does not hold.
    pub fn load_resident(&self, model: &Container) -> (names: Result<Vec<String>>)
        ensures
            ({
                let resident = resident_of(crate::qwen3::Qwen3Model { config: self@.config });
                match names {
                    Ok(n) => first_missing(model, resident, 0) is None && texts(n@)
                        == resident_reads(model, resident),
                    Err(ArchError::MissingTensor(t)) => first_missing(model, resident, 0) == Some(
                        t@,
                    ),
                    Err(_) => false,
                }
            }),
    {
        let mut names = self.resident_tensor_names();
        check_shipped(model, &names)?;
        let ghost was = texts(names@);
        if model.has("output.weight") {
            names.push("output.weight".to_owned());
            assert(texts(names@) =~= was.push("output.weight"@));
        }
        Ok(names)
    }

    /// One layer of an uncached pass over `positions.len()` tokens, up to the router.
    /// Fails on the first weight it needs that is not bound.
    pub fn forward(&self, bound: &Vec<String>, il: u32, positions: Vec<i32>) -> (task: Result<Task>)
        requires
            widths_fit(self@.config),
            positions@.len() <= i64::MAX,
            positions@.len() * positions@.len() <= usize::MAX,
        ensures
            match task {
                Ok(t) => {
                    &&& first_unbound(
                        texts(bound@),
                        block_names(il as nat, uncached_needs(self@.config)),
                        0,
                    ) is None
                    &&& t.computes(
                        uncached_layer(
                            self@.config,
                            il as nat,
                            positions@.len() as int,
                            positions@,
                        ),
                    )
                },
                Err(ArchError::MissingTensor(name)) => first_unbound(
                    texts(bound@),
                    block_names(il as nat, uncached_needs(self@.config)),
                    0,
                ) == Some(name@),
                Err(_) => false,
            },
    {
        let arch = self.arch();
        let c = arch.config;
        let mut list = entry_needs_list(&c);
        let ghost first = literals(list@);
        list.push("ffn_gate_inp.weight");
        assert(literals(list@) =~= first + seq!["ffn_gate_inp.weight"@]);
        let mut names: Vec<String> = Vec::new();
        push_block_names(&mut names, il, &list);
        assert(texts(names@) =~= block_names(il as nat, uncached_needs(c)));
        check_bound(bound, &names)?;
        let n: usize = positions.len();
        let mut graph = Graph::new();
        let x = graph.input(Slot::Activations, c.n_embd as i64, n as i64, 1);
        let at = graph.ints(n as i64, 1, positions);
        let after = arch.enter_layer(&mut graph, x, at, n, il);
        let h = arch.norm_by(&mut graph, il, "ffn_norm.weight", after);
        let probs = arch.route_probabilities(&mut graph, h, il);
        Ok(Task { graph, outputs: vec![after, h, probs] })
    }

    /// The logits of all `n` tokens of an uncached pass, soft-capped.
    pub fn forward_output(&self, bound: &Vec<String>, n: usize) -> (task: Result<Task>)
        requires
            n <= i64::MAX,
        ensures
            match task {
                Ok(t) => {
                    &&& first_unbound(
                        texts(bound@),
                        step_needs(self@.config, texts(bound@), StreamStep::Output),
                        0,
                    ) is None
                    &&& t.computes(
                        seq![
                            e1(
                                Op::Softcap { cap: self@.config.final_logit_softcap },
                                logits_of(self@.config, texts(bound@), n as int),
                            ),
                        ],
                    )
                },
                Err(ArchError::MissingTensor(name)) => first_unbound(
                    texts(bound@),
                    step_needs(self@.config, texts(bound@), StreamStep::Output),
                    0,
                ) == Some(name@),
                Err(_) => false,
            },
    {
        let arch = self.arch();
        let c = arch.config;
        check_bound(bound, &step_needs_list(&c, bound, StreamStep::Output))?;
        let mut graph = Graph::new();
        let x = graph.input(Slot::Activations, c.n_embd as i64, n as i64, 1);
        let norm = graph.weight("output_norm.weight".to_owned());
        let h = arch.norm_scaled(&mut graph, x, norm);
        let out = arch.output_of(&mut graph, bound);
        let logits = graph.op2(Op::MulMat, out, h);
        let capped = graph.op1(Op::Softcap { cap: c.final_logit_softcap }, logits);
        Ok(Task { graph, outputs: vec![capped] })
    }
}

} // verus!
