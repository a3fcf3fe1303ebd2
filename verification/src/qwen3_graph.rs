//! The generic transformer's computations, described: attention with and without a
//! cache, the dense and the mixture feed-forward, and whole passes.
//!
//! Shapes are the whole difficulty. `MulMat` contracts over the first dimension of
//! both operands, and a wrong permutation, rotation or mask produces fluent nonsense
//! rather than an error.
use crate::deepseek4::listed;
use crate::deepseek4::RopeParams;
use crate::error::{ArchError, Result};
use crate::float_bits::{above, F32_NEG_INFINITY, F32_ONE, F32_ZERO};
#[allow(unused_imports)]
use crate::float_bits::is_above;
use crate::graph::{AttnScale, Graph, Node, Op};
#[allow(unused_imports)]
use crate::graph::{e1, e2, e3, e4, extends, Expr};
#[allow(unused_imports)]
use crate::mask::{causal, out_of_sight};
use crate::names::{block_tensor, push_block_names};
#[allow(unused_imports)]
use crate::names::{block_name, block_names, literals, texts};
use crate::qwen3::{Qwen3Config, Qwen3Model};
#[allow(unused_imports)]
use crate::qwen3::{block_suffixes, required_below};
use vstd::prelude::*;

verus! {

/// The weight `suffix` of block `il`.
pub open spec fn w(il: nat, suffix: Seq<char>) -> Expr {
    Expr::Weight(block_name(il, suffix))
}

/// A weight outside any block.
pub open spec fn outer(name: Seq<char>) -> Expr {
    Expr::Weight(name)
}

/// `x` RMS-normalised, then scaled by a learned weight.
pub open spec fn normed(eps: u32, x: Expr, weight: Expr) -> Expr {
    e2(Op::Mul, e1(Op::RmsNorm { eps }, x), weight)
}

/// Heads and positions change places.
pub open spec fn swap_heads(x: Expr) -> Expr {
    e1(Op::Cont, e1(Op::Permute { a0: 0, a1: 2, a2: 1, a3: 3 }, x))
}

/// Products of widths that the computations take stay in range.
pub open spec fn widths_fit(c: Qwen3Config) -> bool {
    &&& c.head_dim * c.n_head <= u32::MAX
    &&& c.head_dim * c.n_head_kv <= u32::MAX
}

fn op_swap_heads(g: &mut Graph, x: usize) -> (at: usize)
    requires
        old(g).wf(),
        x < old(g)@.len(),
    ensures
        final(g).wf(),
        extends(final(g)@, old(g)@),
        at < final(g)@.len(),
        final(g)@[at as int] == swap_heads(old(g)@[x as int]),
{
    let p = g.op1(Op::Permute { a0: 0, a1: 2, a2: 1, a3: 3 }, x);
    g.op1(Op::Cont, p)
}

// ------------------------------------------------------------------- weights

/// The first of `names` at or after `from` that is not bound.
pub open spec fn first_unbound(bound: Seq<Seq<char>>, names: Seq<Seq<char>>, from: int) -> Option<
    Seq<char>,
>
    decreases names.len() - from,
{
    if from < 0 || from >= names.len() {
        None
    } else if !bound.contains(names[from]) {
        Some(names[from])
    } else {
        first_unbound(bound, names, from + 1)
    }
}

/// Nothing is unbound if everything is bound.
pub proof fn all_bound(bound: Seq<Seq<char>>, names: Seq<Seq<char>>, from: int)
    requires
        0 <= from,
        forall|i: int| from <= i < names.len() ==> bound.contains(#[trigger] names[i]),
    ensures
        first_unbound(bound, names, from) is None,
    decreases names.len() - from,
{
    if from < names.len() {
        all_bound(bound, names, from + 1);
    }
}

/// Fails on the first of `names` that is not bound.
pub fn check_bound(bound: &Vec<String>, names: &Vec<String>) -> (done: Result<()>)
    ensures
        match done {
            Ok(()) => first_unbound(texts(bound@), texts(names@), 0) is None,
            Err(ArchError::MissingTensor(t)) => first_unbound(texts(bound@), texts(names@), 0)
                == Some(t@),
            Err(_) => false,
        },
{
    let ghost all = texts(names@);
    let mut i: usize = 0;
    while i < names.len()
        invariant
            i <= names.len(),
            all == texts(names@),
            first_unbound(texts(bound@), all, 0) == first_unbound(texts(bound@), all, i as int),
        decreases names.len() - i,
    {
        assert(all[i as int] == names@[i as int]@);
        if !listed(bound, names[i].as_str()) {
            return Err(ArchError::MissingTensor(names[i].clone()));
        }
        i = i + 1;
    }
    Ok(())
}

/// The suffixes attention asks for, in the order it asks.
pub open spec fn attention_needs(c: Qwen3Config) -> Seq<Seq<char>> {
    let none = Seq::<Seq<char>>::empty();
    seq!["attn_norm.weight"@] + (if c.fused_qkv {
        seq!["attn_qkv.weight"@]
    } else {
        seq!["attn_q.weight"@, "attn_k.weight"@, "attn_v.weight"@] + (if c.attn_bias {
            seq!["attn_q.bias"@, "attn_k.bias"@, "attn_v.bias"@]
        } else {
            none
        })
    }) + (if c.qk_norm {
        seq!["attn_q_norm.weight"@, "attn_k_norm.weight"@]
    } else {
        none
    }) + seq!["attn_output.weight"@]
}

/// The suffixes the feed-forward asks for, in the order it asks.
pub open spec fn ffn_needs(c: Qwen3Config) -> Seq<Seq<char>> {
    if c.moe() {
        seq![
            "ffn_gate_inp.weight"@,
            "ffn_gate_exps.weight"@,
            "ffn_up_exps.weight"@,
            "ffn_down_exps.weight"@,
        ]
    } else if c.fused_gate_up {
        seq!["ffn_up.weight"@, "ffn_down.weight"@]
    } else {
        seq!["ffn_gate.weight"@, "ffn_up.weight"@, "ffn_down.weight"@]
    }
}

/// The suffixes one whole layer asks for.
pub open spec fn layer_needs(c: Qwen3Config) -> Seq<Seq<char>> {
    entry_needs(c) + ffn_needs(c) + (if c.post_norms {
        seq!["post_ffw_norm.weight"@]
    } else {
        Seq::empty()
    })
}

/// The suffixes a layer asks for up to its feed-forward.
pub open spec fn entry_needs(c: Qwen3Config) -> Seq<Seq<char>> {
    attention_needs(c) + (if c.post_norms {
        seq!["post_attention_norm.weight"@]
    } else {
        Seq::empty()
    }) + seq!["ffn_norm.weight"@]
}

pub(crate) fn attention_needs_list(c: &Qwen3Config) -> (list: Vec<&'static str>)
    ensures
        literals(list@) == attention_needs(*c),
{
    let mut list: Vec<&'static str> = vec!["attn_norm.weight"];
    if c.fused_qkv {
        list.push("attn_qkv.weight");
    } else {
        list.push("attn_q.weight");
        list.push("attn_k.weight");
        list.push("attn_v.weight");
        if c.attn_bias {
            list.push("attn_q.bias");
            list.push("attn_k.bias");
            list.push("attn_v.bias");
        }
    }
    if c.qk_norm {
        list.push("attn_q_norm.weight");
        list.push("attn_k_norm.weight");
    }
    list.push("attn_output.weight");
    assert(literals(list@) =~= attention_needs(*c));
    list
}

fn layer_needs_list(c: &Qwen3Config) -> (list: Vec<&'static str>)
    ensures
        literals(list@) == layer_needs(*c),
{
    let mut list = entry_needs_list(c);
    let ghost second = literals(list@);
    if c.is_moe() {
        list.push("ffn_gate_inp.weight");
        list.push("ffn_gate_exps.weight");
        list.push("ffn_up_exps.weight");
        list.push("ffn_down_exps.weight");
    } else if c.fused_gate_up {
        list.push("ffn_up.weight");
        list.push("ffn_down.weight");
    } else {
        list.push("ffn_gate.weight");
        list.push("ffn_up.weight");
        list.push("ffn_down.weight");
    }
    assert(literals(list@) =~= second + ffn_needs(*c));
    if c.post_norms {
        list.push("post_ffw_norm.weight");
    }
    assert(literals(list@) =~= layer_needs(*c));
    list
}

pub(crate) fn entry_needs_list(c: &Qwen3Config) -> (list: Vec<&'static str>)
    ensures
        literals(list@) == entry_needs(*c),
{
    let mut list = attention_needs_list(c);
    if c.post_norms {
        list.push("post_attention_norm.weight");
    }
    list.push("ffn_norm.weight");
    assert(literals(list@) =~= entry_needs(*c));
    list
}

/// Everything a pass over the layers below `n` asks for before its output.
pub open spec fn needs_below(c: Qwen3Config, n: nat) -> Seq<Seq<char>>
    decreases n,
{
    if n == 0 {
        seq!["token_embd.weight"@]
    } else {
        needs_below(c, (n - 1) as nat) + block_names((n - 1) as nat, layer_needs(c))
    }
}

/// Everything a whole pass asks for, in the order it asks.
pub open spec fn pass_needs(c: Qwen3Config) -> Seq<Seq<char>> {
    needs_below(c, c.n_layer as nat) + seq!["output_norm.weight"@]
}

fn pass_needs_list(c: &Qwen3Config) -> (names: Vec<String>)
    ensures
        texts(names@) == pass_needs(*c),
{
    let suffixes = layer_needs_list(c);
    let mut names: Vec<String> = Vec::new();
    names.push("token_embd.weight".to_owned());
    assert(texts(names@) =~= needs_below(*c, 0));
    let mut il: u32 = 0;
    while il < c.n_layer
        invariant
            il <= c.n_layer,
            literals(suffixes@) == layer_needs(*c),
            texts(names@) == needs_below(*c, il as nat),
        decreases c.n_layer - il,
    {
        push_block_names(&mut names, il, &suffixes);
        il = il + 1;
    }
    let ghost was = texts(names@);
    names.push("output_norm.weight".to_owned());
    assert(texts(names@) =~= was + seq!["output_norm.weight"@]);
    names
}

// ----------------------------------------------------------------- attention

/// Q, K and V for one block, whether the container fuses them or not. A fused tensor
/// is Q's rows, then K's, then V's.
pub open spec fn qkv(c: Qwen3Config, il: nat) -> (Expr, Expr, Expr) {
    let n_q = (c.n_head * c.head_dim) as i64;
    let n_kv = (c.n_head_kv * c.head_dim) as i64;
    if c.fused_qkv {
        let fused = w(il, "attn_qkv.weight"@);
        (
            e1(Op::Rows { first: 0, count: n_q }, fused),
            e1(Op::Rows { first: n_q, count: n_kv }, fused),
            e1(Op::Rows { first: (n_q + n_kv) as i64, count: n_kv }, fused),
        )
    } else {
        (w(il, "attn_q.weight"@), w(il, "attn_k.weight"@), w(il, "attn_v.weight"@))
    }
}

/// The three parts of a fused tensor take every row once: Q's rows, then K's from where
/// they end, then V's from where those end.
pub proof fn fused_parts_take_every_row_once(c: Qwen3Config, il: nat)
    requires
        c.fused_qkv,
        widths_fit(c),
    ensures
        ({
            let fused = w(il, "attn_qkv.weight"@);
            let n_q = c.n_head * c.head_dim;
            let n_kv = c.n_head_kv * c.head_dim;
            &&& qkv(c, il).0 == e1(Op::Rows { first: 0, count: n_q as i64 }, fused)
            &&& qkv(c, il).1 == e1(Op::Rows { first: n_q as i64, count: n_kv as i64 }, fused)
            &&& qkv(c, il).2 == e1(
                Op::Rows { first: (n_q + n_kv) as i64, count: n_kv as i64 },
                fused,
            )
        }),
{
    assert(c.n_head * c.head_dim == c.head_dim * c.n_head) by (nonlinear_arith);
    assert(c.n_head_kv * c.head_dim == c.head_dim * c.n_head_kv) by (nonlinear_arith);
}

/// A projection of `x`, shifted by its bias where the container carries one.
pub open spec fn projected(c: Qwen3Config, il: nat, weight: Expr, bias: Seq<char>, x: Expr) -> Expr {
    let out = e2(Op::MulMat, weight, x);
    if c.attn_bias && !c.fused_qkv {
        e2(Op::Add, out, w(il, bias))
    } else {
        out
    }
}

/// Queries, keys and values for the activations `x`, before rotation: queries and keys
/// split into heads and, where the container says so, normalised head by head.
pub open spec fn qkv_of(c: Qwen3Config, il: nat, x: Expr, n_tokens: i64) -> (Expr, Expr, Expr) {
    let h = normed(c.rms_eps, x, w(il, "attn_norm.weight"@));
    let (qw, kw, vw) = qkv(c, il);
    let q = e1(
        Op::Reshape3d { n0: c.head_dim as i64, n1: c.n_head as i64, n2: n_tokens },
        projected(c, il, qw, "attn_q.bias"@, h),
    );
    let k = e1(
        Op::Reshape3d { n0: c.head_dim as i64, n1: c.n_head_kv as i64, n2: n_tokens },
        projected(c, il, kw, "attn_k.bias"@, h),
    );
    let v = projected(c, il, vw, "attn_v.bias"@, h);
    if c.qk_norm {
        (
            normed(c.rms_eps, q, w(il, "attn_q_norm.weight"@)),
            normed(c.rms_eps, k, w(il, "attn_k_norm.weight"@)),
            v,
        )
    } else {
        (q, k, v)
    }
}

/// `x` rotated by position.
pub open spec fn rotated(
    c: Qwen3Config,
    x: Expr,
    positions: Expr,
    rope_type: i32,
    rope: RopeParams,
) -> Expr {
    e2(
        Op::RopeExt {
            n_dims: c.head_dim as i32,
            mode: rope_type,
            n_ctx_orig: c.rope_orig_ctx as i32,
            rope,
        },
        x,
        positions,
    )
}

/// The attention window of a layer: where the architecture slides one, the even layers
/// have it and the odd ones see everything.
pub open spec fn layer_window(c: Qwen3Config, il: int) -> u32 {
    if il % 2 == 0 {
        c.sliding_window
    } else {
        0
    }
}

pub(crate) fn window_of_layer(c: &Qwen3Config, il: u32) -> (window: u32)
    ensures
        window == layer_window(*c, il as int),
{
    if il % 2 == 0 {
        c.sliding_window
    } else {
        0
    }
}

/// The mask over `n` tokens, as f32 bit patterns: row `q` hides key `k` exactly when `k`
/// lies in its future or has slid out of its window.
pub open spec fn causal_bits(n: int, window: int) -> Seq<u32> {
    Seq::new(
        (n * n) as nat,
        |i: int|
            if out_of_sight(i / n, i % n, window) {
                F32_NEG_INFINITY
            } else {
                F32_ZERO
            },
    )
}

/// No token sees its own future or what slid out of its window, and every token sees the
/// rest, itself among it.
pub proof fn causal_mask_hides_exactly_the_future(n: int, window: int, query: int, key: int)
    requires
        0 <= query < n,
        0 <= key < n,
    ensures
        0 <= query * n + key < n * n,
        causal_bits(n, window)[query * n + key] == (if key > query || (window > 0 && query - key
            >= window) {
            F32_NEG_INFINITY
        } else {
            F32_ZERO
        }),
        causal_bits(n, window)[query * n + key] == (if causal(0, window)(query, key) {
            F32_NEG_INFINITY
        } else {
            F32_ZERO
        }),
{
    assert(0 <= query * n + key < n * n) by (nonlinear_arith)
        requires
            0 <= query < n,
            0 <= key < n,
    ;
    vstd::arithmetic::div_mod::lemma_fundamental_div_mod_converse(
        query * n + key,
        n,
        query,
        key,
    );
}

/// Attention scores as probabilities: scaled, bounded smoothly where the architecture
/// caps them, and masked.
pub open spec fn score_probs(c: Qwen3Config, scores: Expr, mask: Expr) -> Expr {
    let scale = AttnScale::InverseSqrt(c.head_dim);
    if is_above(c.attn_logit_softcap, F32_ZERO) {
        e2(
            Op::SoftMaxExt { scale: AttnScale::Bits(F32_ONE), max_bias: F32_ZERO },
            e1(Op::CapScores { scale, cap: c.attn_logit_softcap }, scores),
            mask,
        )
    } else {
        e2(Op::SoftMaxExt { scale, max_bias: F32_ZERO }, scores, mask)
    }
}

/// Scaled dot-product attention over the keys each token sees.
pub open spec fn attended(c: Qwen3Config, q: Expr, k: Expr, v: Expr, n: i64, window: u32) -> Expr {
    let scores = e2(Op::MulMat, swap_heads(k), swap_heads(q));
    let mask = Expr::Floats {
        n0: n as int,
        n1: n as int,
        bits: causal_bits(n as int, window as int),
    };
    let probs = score_probs(c, scores, mask);
    let values = e1(Op::Reshape3d { n0: c.head_dim as i64, n1: c.n_head_kv as i64, n2: n }, v);
    let values = e1(
        Op::Cont,
        e1(Op::Transpose, e1(Op::Permute { a0: 0, a1: 2, a2: 1, a3: 3 }, values)),
    );
    let out = e2(Op::MulMat, values, probs);
    e1(Op::Reshape2d { n0: (c.head_dim * c.n_head) as i64, n1: n }, swap_heads(out))
}

/// One layer's attention, from the pre-norm through the output projection.
pub open spec fn attention_out(
    c: Qwen3Config,
    il: nat,
    x: Expr,
    positions: Expr,
    n_tokens: i64,
    rope: RopeParams,
    rope_type: i32,
) -> Expr {
    let (q, k, v) = qkv_of(c, il, x, n_tokens);
    let q = rotated(c, q, positions, rope_type, rope);
    let k = rotated(c, k, positions, rope_type, rope);
    e2(
        Op::MulMat,
        w(il, "attn_output.weight"@),
        attended(c, q, k, v, n_tokens, layer_window(c, il as int)),
    )
}

fn causal_mask(n: usize, window: u32) -> (bits: Vec<u32>)
    requires
        n * n <= usize::MAX,
    ensures
        bits@ == causal_bits(n as int, window as int),
{
    let mut bits: Vec<u32> = Vec::new();
    let mut query: usize = 0;
    while query < n
        invariant
            query <= n,
            n * n <= usize::MAX,
            bits@.len() == query * n,
            query * n <= n * n,
            forall|i: int| 0 <= i < query * n ==> bits@[i] == causal_bits(n as int, window as int)[i],
        decreases n - query,
    {
        let mut key: usize = 0;
        proof {
            assert((query + 1) * n == query * n + n && (query + 1) * n <= n * n)
                by (nonlinear_arith)
                requires
                    0 <= query < n,
            ;
        }
        while key < n
            invariant
                query < n,
                key <= n,
                bits@.len() == query * n + key,
                forall|i: int| 0 <= i < query * n + key ==> bits@[i] == causal_bits(n as int, window as int)[i],
            decreases n - key,
        {
            proof {
                causal_mask_hides_exactly_the_future(
                    n as int,
                    window as int,
                    query as int,
                    key as int,
                );
            }
            if key > query || (window > 0 && query - key >= window as usize) {
                bits.push(F32_NEG_INFINITY);
            } else {
                bits.push(F32_ZERO);
            }
            key = key + 1;
        }
        query = query + 1;
    }
    assert(bits@ =~= causal_bits(n as int, window as int));
    bits
}

impl Qwen3Model {
    /// Every norm in this architecture: RMS-normalise, then scale by a learned weight.
    pub fn norm_scaled(&self, g: &mut Graph, x: usize, weight: usize) -> (at: usize)
        requires
            old(g).wf(),
            x < old(g)@.len(),
            weight < old(g)@.len(),
        ensures
            final(g).wf(),
            extends(final(g)@, old(g)@),
            at < final(g)@.len(),
            final(g)@[at as int] == normed(
                self.config.rms_eps,
                old(g)@[x as int],
                old(g)@[weight as int],
            ),
    {
        let n = g.op1(Op::RmsNorm { eps: self.config.rms_eps }, x);
        g.op2(Op::Mul, n, weight)
    }

    pub(crate) fn norm_by(&self, g: &mut Graph, il: u32, suffix: &str, x: usize) -> (at: usize)
        requires
            old(g).wf(),
            x < old(g)@.len(),
        ensures
            final(g).wf(),
            extends(final(g)@, old(g)@),
            at < final(g)@.len(),
            final(g)@[at as int] == normed(
                self.config.rms_eps,
                old(g)@[x as int],
                w(il as nat, suffix@),
            ),
    {
        let weight = g.weight(block_tensor(il, suffix));
        self.norm_scaled(g, x, weight)
    }

    /// Q, K and V for one block, whether the container fuses them or not.
    pub fn qkv_weights(&self, g: &mut Graph, il: u32) -> (at: (usize, usize, usize))
        requires
            old(g).wf(),
            widths_fit(self.config),
        ensures
            final(g).wf(),
            extends(final(g)@, old(g)@),
            at.0 < final(g)@.len(),
            at.1 < final(g)@.len(),
            at.2 < final(g)@.len(),
            final(g)@[at.0 as int] == qkv(self.config, il as nat).0,
            final(g)@[at.1 as int] == qkv(self.config, il as nat).1,
            final(g)@[at.2 as int] == qkv(self.config, il as nat).2,
    {
        let c = &self.config;
        if !c.fused_qkv {
            let q = g.weight(block_tensor(il, "attn_q.weight"));
            let k = g.weight(block_tensor(il, "attn_k.weight"));
            let v = g.weight(block_tensor(il, "attn_v.weight"));
            return (q, k, v);
        }
        proof {
            assert(c.n_head * c.head_dim == c.head_dim * c.n_head) by (nonlinear_arith);
            assert(c.n_head_kv * c.head_dim == c.head_dim * c.n_head_kv) by (nonlinear_arith);
        }
        let fused = g.weight(block_tensor(il, "attn_qkv.weight"));
        let n_q: i64 = (c.n_head * c.head_dim) as i64;
        let n_kv: i64 = (c.n_head_kv * c.head_dim) as i64;
        let q = g.op1(Op::Rows { first: 0, count: n_q }, fused);
        let k = g.op1(Op::Rows { first: n_q, count: n_kv }, fused);
        let v = g.op1(Op::Rows { first: n_q + n_kv, count: n_kv }, fused);
        (q, k, v)
    }

    fn project(&self, g: &mut Graph, il: u32, weight: usize, bias: &str, x: usize) -> (at: usize)
        requires
            old(g).wf(),
            weight < old(g)@.len(),
            x < old(g)@.len(),
        ensures
            final(g).wf(),
            extends(final(g)@, old(g)@),
            at < final(g)@.len(),
            final(g)@[at as int] == projected(
                self.config,
                il as nat,
                old(g)@[weight as int],
                bias@,
                old(g)@[x as int],
            ),
    {
        let out = g.op2(Op::MulMat, weight, x);
        if self.config.attn_bias && !self.config.fused_qkv {
            let b = g.weight(block_tensor(il, bias));
            g.op2(Op::Add, out, b)
        } else {
            out
        }
    }

    /// Queries, keys and values for the activations `x`, before rotation.
    pub fn qkv_heads(&self, g: &mut Graph, il: u32, x: usize, n_tokens: i64) -> (at: (
        usize,
        usize,
        usize,
    ))
        requires
            old(g).wf(),
            x < old(g)@.len(),
            widths_fit(self.config),
        ensures
            final(g).wf(),
            extends(final(g)@, old(g)@),
            at.0 < final(g)@.len(),
            at.1 < final(g)@.len(),
            at.2 < final(g)@.len(),
            ({
                let want = qkv_of(self.config, il as nat, old(g)@[x as int], n_tokens);
                &&& final(g)@[at.0 as int] == want.0
                &&& final(g)@[at.1 as int] == want.1
                &&& final(g)@[at.2 as int] == want.2
            }),
    {
        let c = &self.config;
        let h = self.norm_by(g, il, "attn_norm.weight", x);
        let (qw, kw, vw) = self.qkv_weights(g, il);
        let q = self.project(g, il, qw, "attn_q.bias", h);
        let k = self.project(g, il, kw, "attn_k.bias", h);
        let v = self.project(g, il, vw, "attn_v.bias", h);
        // Split into heads before normalising: the norm is per head, with a weight of
        // the head's width.
        let q = g.op1(
            Op::Reshape3d { n0: c.head_dim as i64, n1: c.n_head as i64, n2: n_tokens },
            q,
        );
        let k = g.op1(
            Op::Reshape3d { n0: c.head_dim as i64, n1: c.n_head_kv as i64, n2: n_tokens },
            k,
        );
        if c.qk_norm {
            let q = self.norm_by(g, il, "attn_q_norm.weight", q);
            let k = self.norm_by(g, il, "attn_k_norm.weight", k);
            (q, k, v)
        } else {
            (q, k, v)
        }
    }

    pub(crate) fn rotate(
        &self,
        g: &mut Graph,
        x: usize,
        positions: usize,
        rope_type: i32,
        rope: RopeParams,
    ) -> (at: usize)
        requires
            old(g).wf(),
            x < old(g)@.len(),
            positions < old(g)@.len(),
        ensures
            final(g).wf(),
            extends(final(g)@, old(g)@),
            at < final(g)@.len(),
            final(g)@[at as int] == rotated(
                self.config,
                old(g)@[x as int],
                old(g)@[positions as int],
                rope_type,
                rope,
            ),
    {
        g.op2(
            Op::RopeExt {
                n_dims: self.config.head_dim as i32,
                mode: rope_type,
                n_ctx_orig: self.config.rope_orig_ctx as i32,
                rope,
            },
            x,
            positions,
        )
    }

    /// Scaled dot-product attention with a causal mask.
    pub fn attention(&self, g: &mut Graph, q: usize, k: usize, v: usize, n_tokens: usize) -> (at:
        usize)
        requires
            old(g).wf(),
            q < old(g)@.len(),
            k < old(g)@.len(),
            v < old(g)@.len(),
            widths_fit(self.config),
            n_tokens <= i64::MAX,
            n_tokens * n_tokens <= usize::MAX,
        ensures
            final(g).wf(),
            extends(final(g)@, old(g)@),
            at < final(g)@.len(),
            final(g)@[at as int] == attended(
                self.config,
                old(g)@[q as int],
                old(g)@[k as int],
                old(g)@[v as int],
                n_tokens as i64,
                0,
            ),
    {
        self.attention_within(g, q, k, v, n_tokens, 0)
    }

    fn softmax_scores(&self, g: &mut Graph, scores: usize, mask: usize) -> (at: usize)
        requires
            old(g).wf(),
            scores < old(g)@.len(),
            mask < old(g)@.len(),
        ensures
            final(g).wf(),
            extends(final(g)@, old(g)@),
            at < final(g)@.len(),
            final(g)@[at as int] == score_probs(
                self.config,
                old(g)@[scores as int],
                old(g)@[mask as int],
            ),
    {
        let c = &self.config;
        let scale = AttnScale::InverseSqrt(c.head_dim);
        if above(c.attn_logit_softcap, F32_ZERO) {
            let capped = g.op1(Op::CapScores { scale, cap: c.attn_logit_softcap }, scores);
            g.op2(
                Op::SoftMaxExt { scale: AttnScale::Bits(F32_ONE), max_bias: F32_ZERO },
                capped,
                mask,
            )
        } else {
            g.op2(Op::SoftMaxExt { scale, max_bias: F32_ZERO }, scores, mask)
        }
    }

    /// Attention where each token sees at most the `window` keys up to its own; 0 for
    /// all of them.
    fn attention_within(
        &self,
        g: &mut Graph,
        q: usize,
        k: usize,
        v: usize,
        n_tokens: usize,
        window: u32,
    ) -> (at: usize)
        requires
            old(g).wf(),
            q < old(g)@.len(),
            k < old(g)@.len(),
            v < old(g)@.len(),
            widths_fit(self.config),
            n_tokens <= i64::MAX,
            n_tokens * n_tokens <= usize::MAX,
        ensures
            final(g).wf(),
            extends(final(g)@, old(g)@),
            at < final(g)@.len(),
            final(g)@[at as int] == attended(
                self.config,
                old(g)@[q as int],
                old(g)@[k as int],
                old(g)@[v as int],
                n_tokens as i64,
                window,
            ),
    {
        let c = &self.config;
        let n: i64 = n_tokens as i64;
        let qs = op_swap_heads(g, q);
        let ks = op_swap_heads(g, k);
        // Contracts over the head's width; grouped queries broadcast.
        let scores = g.op2(Op::MulMat, ks, qs);
        // Masked positions are -inf before the softmax: a zero there would let a token
        // attend to its own future.
        let mask = g.place(Node::Floats { n0: n, n1: n, bits: causal_mask(n_tokens, window) });
        let probs = self.softmax_scores(g, scores, mask);
        // V contracts over the tokens, so they come first: permute, then transpose.
        let vs = g.op1(
            Op::Reshape3d { n0: c.head_dim as i64, n1: c.n_head_kv as i64, n2: n },
            v,
        );
        let vs = g.op1(Op::Permute { a0: 0, a1: 2, a2: 1, a3: 3 }, vs);
        let vs = g.op1(Op::Transpose, vs);
        let vs = g.op1(Op::Cont, vs);
        let out = g.op2(Op::MulMat, vs, probs);
        let out = op_swap_heads(g, out);
        g.op1(Op::Reshape2d { n0: (c.head_dim * c.n_head) as i64, n1: n }, out)
    }
}

// ------------------------------------------------------- attention over history

/// Attention through the fused kernel: same result as over explicit scores, without
/// building them. Values are permuted and not transposed.
pub open spec fn flash_attended(
    c: Qwen3Config,
    q: Expr,
    k: Expr,
    v: Expr,
    n_new: i64,
    n_total: i64,
    mask: Seq<u8>,
) -> Expr {
    let out = e4(
        Op::FlashAttn {
            scale: AttnScale::InverseSqrt(c.head_dim),
            softcap: c.attn_logit_softcap,
        },
        swap_heads(q),
        swap_heads(k),
        swap_heads(v),
        Expr::Halves { n0: n_total as int, n1: n_new as int, bytes: mask },
    );
    e1(Op::Reshape2d { n0: (c.head_dim * c.n_head) as i64, n1: n_new }, e1(Op::Cont, out))
}

/// Attention over a whole stored history with explicit scores.
pub open spec fn cached_attended(
    c: Qwen3Config,
    q: Expr,
    k: Expr,
    v: Expr,
    n_new: i64,
    n_total: i64,
    mask: Seq<u32>,
) -> Expr {
    let scores = e2(Op::MulMat, swap_heads(k), swap_heads(q));
    let probs = score_probs(
        c,
        scores,
        Expr::Floats { n0: n_total as int, n1: n_new as int, bits: mask },
    );
    let values = e1(
        Op::Cont,
        e1(Op::Transpose, e1(Op::Permute { a0: 0, a1: 2, a2: 1, a3: 3 }, v)),
    );
    e1(
        Op::Reshape2d { n0: (c.head_dim * c.n_head) as i64, n1: n_new },
        swap_heads(e2(Op::MulMat, values, probs)),
    )
}

// -------------------------------------------------------------- feed-forward

/// The two input projections of a feed-forward, fused or separate.
pub open spec fn gate_up(c: Qwen3Config, il: nat) -> (Expr, Expr) {
    if c.fused_gate_up {
        let fused = w(il, "ffn_up.weight"@);
        (e1(Op::HalfRows { second: false }, fused), e1(Op::HalfRows { second: true }, fused))
    } else {
        (w(il, "ffn_gate.weight"@), w(il, "ffn_up.weight"@))
    }
}

/// `down(silu(gate(x)) * up(x))`.
pub open spec fn dense_out(c: Qwen3Config, il: nat, x: Expr) -> Expr {
    let (gate_w, up_w) = gate_up(c, il);
    let gate = e2(Op::MulMat, gate_w, x);
    let up = e2(Op::MulMat, up_w, x);
    e2(Op::MulMat, w(il, "ffn_down.weight"@), e2(Op::Mul, e1(Op::Silu, gate), up))
}

/// Router probabilities over the experts.
pub open spec fn router(il: nat, x: Expr) -> Expr {
    e1(
        Op::SoftMaxExt { scale: AttnScale::Bits(F32_ONE), max_bias: F32_ZERO },
        e2(Op::MulMat, w(il, "ffn_gate_inp.weight"@), x),
    )
}

/// The experts each token picks, each weighted by its router probability, summed.
pub open spec fn mixture_out(c: Qwen3Config, il: nat, x: Expr, n_tokens: i64) -> Expr {
    let probs = router(il, x);
    let picked = e1(Op::TopK { k: c.n_expert_used as i32 }, probs);
    let x3 = e1(Op::Reshape3d { n0: c.n_embd as i64, n1: 1, n2: n_tokens }, x);
    let gate = e3(Op::MulMatId, w(il, "ffn_gate_exps.weight"@), x3, picked);
    let up = e3(Op::MulMatId, w(il, "ffn_up_exps.weight"@), x3, picked);
    let down = e3(
        Op::MulMatId,
        w(il, "ffn_down_exps.weight"@),
        e2(Op::Mul, e1(Op::Silu, gate), up),
        picked,
    );
    // The picks are not in score order, so each weight is looked up by index.
    e1(Op::SumRows, e2(Op::Mul, down, e2(Op::GetRows, probs, picked)))
}

/// `x` normalised again where the architecture normalises what a layer's parts give.
pub open spec fn post_norm(c: Qwen3Config, il: nat, suffix: Seq<char>, x: Expr) -> Expr {
    if c.post_norms {
        normed(c.rms_eps, x, w(il, suffix))
    } else {
        x
    }
}

/// A layer's attention, added to what entered it.
pub open spec fn layer_entry(c: Qwen3Config, il: nat, x: Expr, positions: Expr, n: i64) -> Expr {
    let attn = attention_out(c, il, x, positions, n, c.rope_params(), c.rope_type);
    e2(Op::Add, post_norm(c, il, "post_attention_norm.weight"@, attn), x)
}

/// The embeddings of the tokens, on the scale the architecture wants them.
pub open spec fn embedded_rows(c: Qwen3Config, tokens: Expr) -> Expr {
    let rows = e2(Op::GetRows, outer("token_embd.weight"@), tokens);
    if c.scale_embeddings {
        e1(Op::ScaleBySqrt { of: c.n_embd }, rows)
    } else {
        rows
    }
}

/// One layer: attention and feed-forward, each added to what entered it.
pub open spec fn layer_out(c: Qwen3Config, il: nat, x: Expr, positions: Expr, n: i64) -> Expr {
    let after = layer_entry(c, il, x, positions, n);
    let h = normed(c.rms_eps, after, w(il, "ffn_norm.weight"@));
    let ffn = if c.moe() {
        mixture_out(c, il, h, n)
    } else {
        dense_out(c, il, h)
    };
    e2(Op::Add, post_norm(c, il, "post_ffw_norm.weight"@, ffn), after)
}

/// The activations after the layers below `il`.
pub open spec fn after_layers(
    c: Qwen3Config,
    il: nat,
    tokens: Expr,
    positions: Expr,
    n: i64,
) -> Expr
    decreases il,
{
    if il == 0 {
        embedded_rows(c, tokens)
    } else {
        layer_out(
            c,
            (il - 1) as nat,
            after_layers(c, (il - 1) as nat, tokens, positions, n),
            positions,
            n,
        )
    }
}

/// The output projection: tied to the embeddings where no separate one is bound.
pub open spec fn output_weight(bound: Seq<Seq<char>>) -> Expr {
    if bound.contains("output.weight"@) {
        outer("output.weight"@)
    } else {
        outer("token_embd.weight"@)
    }
}

/// The logits of the final position of a whole pass, soft-capped.
pub open spec fn pass_out(
    c: Qwen3Config,
    bound: Seq<Seq<char>>,
    tokens: Expr,
    positions: Expr,
    n: i64,
) -> Expr {
    let last = e1(
        Op::View2d {
            n0: c.n_embd as i64,
            n1: 1,
            stride: (c.n_embd * 4) as usize,
            offset: ((n - 1) * c.n_embd * 4) as usize,
        },
        after_layers(c, c.n_layer as nat, tokens, positions, n),
    );
    let logits = e2(
        Op::MulMat,
        output_weight(bound),
        normed(c.rms_eps, last, outer("output_norm.weight"@)),
    );
    e1(Op::Softcap { cap: c.final_logit_softcap }, logits)
}

impl Qwen3Model {
    pub(crate) fn attend(
        &self,
        g: &mut Graph,
        x: usize,
        positions: usize,
        n_tokens: usize,
        il: u32,
        rope: RopeParams,
        rope_type: i32,
    ) -> (at: usize)
        requires
            old(g).wf(),
            x < old(g)@.len(),
            positions < old(g)@.len(),
            widths_fit(self.config),
            n_tokens <= i64::MAX,
            n_tokens * n_tokens <= usize::MAX,
        ensures
            final(g).wf(),
            extends(final(g)@, old(g)@),
            at < final(g)@.len(),
            final(g)@[at as int] == attention_out(
                self.config,
                il as nat,
                old(g)@[x as int],
                old(g)@[positions as int],
                n_tokens as i64,
                rope,
                rope_type,
            ),
    {
        let (q, k, v) = self.qkv_heads(g, il, x, n_tokens as i64);
        let q = self.rotate(g, q, positions, rope_type, rope);
        let k = self.rotate(g, k, positions, rope_type, rope);
        let window = window_of_layer(&self.config, il);
        let out = self.attention_within(g, q, k, v, n_tokens, window);
        let wo = g.weight(block_tensor(il, "attn_output.weight"));
        g.op2(Op::MulMat, wo, out)
    }

    /// One layer's attention, from the pre-norm through the output projection; fails
    /// on the first weight it needs that is not bound, leaving the graph alone.
    pub fn attention_block(
        &self,
        g: &mut Graph,
        bound: &Vec<String>,
        x: usize,
        positions: usize,
        n_tokens: usize,
        il: u32,
        rope: RopeParams,
        rope_type: i32,
    ) -> (done: Result<usize>)
        requires
            old(g).wf(),
            x < old(g)@.len(),
            positions < old(g)@.len(),
            widths_fit(self.config),
            n_tokens <= i64::MAX,
            n_tokens * n_tokens <= usize::MAX,
        ensures
            final(g).wf(),
            match done {
                Ok(at) => {
                    &&& first_unbound(
                        texts(bound@),
                        block_names(il as nat, attention_needs(self.config)),
                        0,
                    ) is None
                    &&& extends(final(g)@, old(g)@)
                    &&& at < final(g)@.len()
                    &&& final(g)@[at as int] == attention_out(
                        self.config,
                        il as nat,
                        old(g)@[x as int],
                        old(g)@[positions as int],
                        n_tokens as i64,
                        rope,
                        rope_type,
                    )
                },
                Err(ArchError::MissingTensor(t)) => {
                    &&& final(g)@ == old(g)@
                    &&& first_unbound(
                        texts(bound@),
                        block_names(il as nat, attention_needs(self.config)),
                        0,
                    ) == Some(t@)
                },
                Err(_) => false,
            },
    {
        let mut names: Vec<String> = Vec::new();
        push_block_names(&mut names, il, &attention_needs_list(&self.config));
        assert(texts(names@) =~= block_names(il as nat, attention_needs(self.config)));
        check_bound(bound, &names)?;
        Ok(self.attend(g, x, positions, n_tokens, il, rope, rope_type))
    }

    /// Attention through the fused kernel. `mask` holds the causal mask as f16 bytes:
    /// the only values are 0 and -inf, so their bit patterns go in directly.
    pub fn attention_flash(
        &self,
        g: &mut Graph,
        q: usize,
        k_all: usize,
        v_all: usize,
        n_new: i64,
        n_total: i64,
        mask: Vec<u8>,
    ) -> (at: usize)
        requires
            old(g).wf(),
            q < old(g)@.len(),
            k_all < old(g)@.len(),
            v_all < old(g)@.len(),
            widths_fit(self.config),
        ensures
            final(g).wf(),
            extends(final(g)@, old(g)@),
            at < final(g)@.len(),
            final(g)@[at as int] == flash_attended(
                self.config,
                old(g)@[q as int],
                old(g)@[k_all as int],
                old(g)@[v_all as int],
                n_new,
                n_total,
                mask@,
            ),
    {
        let c = &self.config;
        let q = op_swap_heads(g, q);
        let k = op_swap_heads(g, k_all);
        let v = op_swap_heads(g, v_all);
        let m = g.place(Node::Halves { n0: n_total, n1: n_new, bytes: mask });
        let out = g.op4(
            Op::FlashAttn {
                scale: AttnScale::InverseSqrt(c.head_dim),
                softcap: c.attn_logit_softcap,
            },
            q,
            k,
            v,
            m,
        );
        let out = g.op1(Op::Cont, out);
        g.op1(Op::Reshape2d { n0: (c.head_dim * c.n_head) as i64, n1: n_new }, out)
    }

    /// Attention where K and V come from a cache covering the whole history. The mask
    /// is offset by the queries' absolute positions and is the caller's.
    pub fn attention_cached(
        &self,
        g: &mut Graph,
        q: usize,
        k_all: usize,
        v_all: usize,
        n_new: i64,
        n_total: i64,
        mask: Vec<u32>,
    ) -> (at: usize)
        requires
            old(g).wf(),
            q < old(g)@.len(),
            k_all < old(g)@.len(),
            v_all < old(g)@.len(),
            widths_fit(self.config),
        ensures
            final(g).wf(),
            extends(final(g)@, old(g)@),
            at < final(g)@.len(),
            final(g)@[at as int] == cached_attended(
                self.config,
                old(g)@[q as int],
                old(g)@[k_all as int],
                old(g)@[v_all as int],
                n_new,
                n_total,
                mask@,
            ),
    {
        let c = &self.config;
        let q = op_swap_heads(g, q);
        let k = op_swap_heads(g, k_all);
        let scores = g.op2(Op::MulMat, k, q);
        let m = g.place(Node::Floats { n0: n_total, n1: n_new, bits: mask });
        let probs = self.softmax_scores(g, scores, m);
        let v = g.op1(Op::Permute { a0: 0, a1: 2, a2: 1, a3: 3 }, v_all);
        let v = g.op1(Op::Transpose, v);
        let v = g.op1(Op::Cont, v);
        let out = g.op2(Op::MulMat, v, probs);
        let out = op_swap_heads(g, out);
        g.op1(Op::Reshape2d { n0: (c.head_dim * c.n_head) as i64, n1: n_new }, out)
    }

    /// The FFN gate and up projections, fused or separate.
    pub fn gate_up_weights(&self, g: &mut Graph, il: u32) -> (at: (usize, usize))
        requires
            old(g).wf(),
        ensures
            final(g).wf(),
            extends(final(g)@, old(g)@),
            at.0 < final(g)@.len(),
            at.1 < final(g)@.len(),
            final(g)@[at.0 as int] == gate_up(self.config, il as nat).0,
            final(g)@[at.1 as int] == gate_up(self.config, il as nat).1,
    {
        if !self.config.fused_gate_up {
            let gate = g.weight(block_tensor(il, "ffn_gate.weight"));
            let up = g.weight(block_tensor(il, "ffn_up.weight"));
            return (gate, up);
        }
        let fused = g.weight(block_tensor(il, "ffn_up.weight"));
        let gate = g.op1(Op::HalfRows { second: false }, fused);
        let up = g.op1(Op::HalfRows { second: true }, fused);
        (gate, up)
    }

    /// SwiGLU feed-forward: `down(silu(gate(x)) * up(x))`.
    pub fn dense_ffn(&self, g: &mut Graph, x: usize, il: u32) -> (at: usize)
        requires
            old(g).wf(),
            x < old(g)@.len(),
        ensures
            final(g).wf(),
            extends(final(g)@, old(g)@),
            at < final(g)@.len(),
            final(g)@[at as int] == dense_out(self.config, il as nat, old(g)@[x as int]),
    {
        let (gate_w, up_w) = self.gate_up_weights(g, il);
        let gate = g.op2(Op::MulMat, gate_w, x);
        let up = g.op2(Op::MulMat, up_w, x);
        let act = g.op1(Op::Silu, gate);
        let act = g.op2(Op::Mul, act, up);
        let down = g.weight(block_tensor(il, "ffn_down.weight"));
        g.op2(Op::MulMat, down, act)
    }

    /// Router probabilities over the experts.
    pub fn route_probabilities(&self, g: &mut Graph, x: usize, il: u32) -> (at: usize)
        requires
            old(g).wf(),
            x < old(g)@.len(),
        ensures
            final(g).wf(),
            extends(final(g)@, old(g)@),
            at < final(g)@.len(),
            final(g)@[at as int] == router(il as nat, old(g)@[x as int]),
    {
        let inp = g.weight(block_tensor(il, "ffn_gate_inp.weight"));
        let logits = g.op2(Op::MulMat, inp, x);
        g.op1(Op::SoftMaxExt { scale: AttnScale::Bits(F32_ONE), max_bias: F32_ZERO }, logits)
    }

    /// Mixture-of-experts feed-forward: the router scores every expert, and only the
    /// `n_expert_used` it picks are applied.
    pub fn moe_ffn(&self, g: &mut Graph, x: usize, il: u32, n_tokens: i64) -> (at: usize)
        requires
            old(g).wf(),
            x < old(g)@.len(),
        ensures
            final(g).wf(),
            extends(final(g)@, old(g)@),
            at < final(g)@.len(),
            final(g)@[at as int] == mixture_out(
                self.config,
                il as nat,
                old(g)@[x as int],
                n_tokens,
            ),
    {
        let c = &self.config;
        let probs = self.route_probabilities(g, x, il);
        let picked = g.op1(Op::TopK { k: c.n_expert_used as i32 }, probs);
        let x3 = g.op1(Op::Reshape3d { n0: c.n_embd as i64, n1: 1, n2: n_tokens }, x);
        let gate_w = g.weight(block_tensor(il, "ffn_gate_exps.weight"));
        let gate = g.op3(Op::MulMatId, gate_w, x3, picked);
        let up_w = g.weight(block_tensor(il, "ffn_up_exps.weight"));
        let up = g.op3(Op::MulMatId, up_w, x3, picked);
        let act = g.op1(Op::Silu, gate);
        let act = g.op2(Op::Mul, act, up);
        let down_w = g.weight(block_tensor(il, "ffn_down_exps.weight"));
        let down = g.op3(Op::MulMatId, down_w, act, picked);
        let weights = g.op2(Op::GetRows, probs, picked);
        let weighted = g.op2(Op::Mul, down, weights);
        g.op1(Op::SumRows, weighted)
    }

    fn layer(&self, g: &mut Graph, x: usize, positions: usize, n_tokens: usize, il: u32) -> (at:
        usize)
        requires
            old(g).wf(),
            x < old(g)@.len(),
            positions < old(g)@.len(),
            widths_fit(self.config),
            n_tokens <= i64::MAX,
            n_tokens * n_tokens <= usize::MAX,
        ensures
            final(g).wf(),
            extends(final(g)@, old(g)@),
            at < final(g)@.len(),
            final(g)@[at as int] == layer_out(
                self.config,
                il as nat,
                old(g)@[x as int],
                old(g)@[positions as int],
                n_tokens as i64,
            ),
    {
        let after = self.enter_layer(g, x, positions, n_tokens, il);
        let h = self.norm_by(g, il, "ffn_norm.weight", after);
        let ffn = if self.config.is_moe() {
            self.moe_ffn(g, h, il, n_tokens as i64)
        } else {
            self.dense_ffn(g, h, il)
        };
        let ffn = self.norm_after(g, il, "post_ffw_norm.weight", ffn);
        g.op2(Op::Add, ffn, after)
    }

    fn norm_after(&self, g: &mut Graph, il: u32, suffix: &str, x: usize) -> (at: usize)
        requires
            old(g).wf(),
            x < old(g)@.len(),
        ensures
            final(g).wf(),
            extends(final(g)@, old(g)@),
            at < final(g)@.len(),
            final(g)@[at as int] == post_norm(
                self.config,
                il as nat,
                suffix@,
                old(g)@[x as int],
            ),
    {
        if self.config.post_norms {
            self.norm_by(g, il, suffix, x)
        } else {
            x
        }
    }

    pub(crate) fn enter_layer(
        &self,
        g: &mut Graph,
        x: usize,
        positions: usize,
        n_tokens: usize,
        il: u32,
    ) -> (at: usize)
        requires
            old(g).wf(),
            x < old(g)@.len(),
            positions < old(g)@.len(),
            widths_fit(self.config),
            n_tokens <= i64::MAX,
            n_tokens * n_tokens <= usize::MAX,
        ensures
            final(g).wf(),
            extends(final(g)@, old(g)@),
            at < final(g)@.len(),
            final(g)@[at as int] == layer_entry(
                self.config,
                il as nat,
                old(g)@[x as int],
                old(g)@[positions as int],
                n_tokens as i64,
            ),
    {
        let rope = self.config.rope();
        let attn = self.attend(g, x, positions, n_tokens, il, rope, self.config.rope_type);
        let attn = self.norm_after(g, il, "post_attention_norm.weight", attn);
        g.op2(Op::Add, attn, x)
    }

    pub(crate) fn output_of(&self, g: &mut Graph, bound: &Vec<String>) -> (at: usize)
        requires
            old(g).wf(),
        ensures
            final(g).wf(),
            extends(final(g)@, old(g)@),
            at < final(g)@.len(),
            final(g)@[at as int] == output_weight(texts(bound@)),
    {
        if listed(bound, "output.weight") {
            g.weight("output.weight".to_owned())
        } else {
            g.weight("token_embd.weight".to_owned())
        }
    }

    /// The forward graph for one batch of tokens, and the node of its logits. Only the
    /// final position predicts the next token, so only its row is projected.
    ///
    /// `positions` holds each token's absolute position. Fails on the first weight
    /// that is not bound, leaving the graph alone.
    pub fn build_graph(
        &self,
        g: &mut Graph,
        bound: &Vec<String>,
        tokens: usize,
        positions: usize,
        n_tokens: usize,
    ) -> (done: Result<usize>)
        requires
            old(g).wf(),
            tokens < old(g)@.len(),
            positions < old(g)@.len(),
            widths_fit(self.config),
            1 <= n_tokens <= i64::MAX,
            n_tokens * n_tokens <= usize::MAX,
            n_tokens * self.config.n_embd * 4 <= usize::MAX,
        ensures
            final(g).wf(),
            match done {
                Ok(at) => {
                    &&& first_unbound(texts(bound@), pass_needs(self.config), 0) is None
                    &&& extends(final(g)@, old(g)@)
                    &&& at < final(g)@.len()
                    &&& final(g)@[at as int] == pass_out(
                        self.config,
                        texts(bound@),
                        old(g)@[tokens as int],
                        old(g)@[positions as int],
                        n_tokens as i64,
                    )
                },
                Err(ArchError::MissingTensor(t)) => {
                    &&& final(g)@ == old(g)@
                    &&& first_unbound(texts(bound@), pass_needs(self.config), 0) == Some(t@)
                },
                Err(_) => false,
            },
    {
        let c = &self.config;
        check_bound(bound, &pass_needs_list(c))?;
        let ghost start = g@;
        let embd = g.weight("token_embd.weight".to_owned());
        let mut cur: usize = g.op2(Op::GetRows, embd, tokens);
        if c.scale_embeddings {
            cur = g.op1(Op::ScaleBySqrt { of: c.n_embd }, cur);
        }
        let mut il: u32 = 0;
        while il < c.n_layer
            invariant
                c == &self.config,
                il <= c.n_layer,
                g.wf(),
                tokens < start.len(),
                positions < start.len(),
                extends(g@, start),
                cur < g@.len(),
                widths_fit(self.config),
                n_tokens <= i64::MAX,
                n_tokens * n_tokens <= usize::MAX,
                g@[cur as int] == after_layers(
                    self.config,
                    il as nat,
                    start[tokens as int],
                    start[positions as int],
                    n_tokens as i64,
                ),
            decreases c.n_layer - il,
        {
            cur = self.layer(g, cur, positions, n_tokens, il);
            il = il + 1;
        }
        proof {
            let n = n_tokens as int;
            let e = c.n_embd as int;
            assert(0 <= (n - 1) * e && (n - 1) * e * 4 <= n * e * 4 && e * 4 <= n * e * 4)
                by (nonlinear_arith)
                requires
                    n >= 1,
                    e >= 0,
            ;
        }
        let last = g.op1(
            Op::View2d {
                n0: c.n_embd as i64,
                n1: 1,
                stride: c.n_embd as usize * 4,
                offset: (n_tokens - 1) * c.n_embd as usize * 4,
            },
            cur,
        );
        let norm = g.weight("output_norm.weight".to_owned());
        let h = self.norm_scaled(g, last, norm);
        let out = self.output_of(g, bound);
        let logits = g.op2(Op::MulMat, out, h);
        Ok(g.op1(Op::Softcap { cap: c.final_logit_softcap }, logits))
    }
}

/// Every suffix a layer asks for is one its container was checked for.
proof fn layer_needs_are_required(c: Qwen3Config, i: int)
    requires
        0 <= i < layer_needs(c).len(),
    ensures
        block_suffixes(c).contains(layer_needs(c)[i]),
{
    let s = block_suffixes(c);
    let a = if c.post_norms {
        5int
    } else {
        3
    };
    let b = if c.fused_qkv {
        1int
    } else if c.attn_bias {
        6
    } else {
        3
    };
    let d = if c.qk_norm {
        2int
    } else {
        0
    };
    let p = if c.post_norms {
        1int
    } else {
        0
    };
    // attn_norm, then Q/K/V, then the per-head norms, then the output projection, the norm
    // behind it and the one before the feed-forward, then the feed-forward and the norm
    // behind that.
    let at = if i == 0 {
        0
    } else if i <= b + d {
        a + i - 1
    } else if i == b + d + 1 {
        1
    } else if i == b + d + 2 && c.post_norms {
        3
    } else if i == b + d + 2 + p {
        2
    } else if i == layer_needs(c).len() - 1 && c.post_norms {
        4
    } else {
        a + i - 3 - p
    };
    assert(s[at] == layer_needs(c)[i]);
}

/// A pass asks for nothing beyond what the container was checked for: where every
/// required tensor is bound, no weight is missing.
pub proof fn a_checked_container_never_lacks_a_weight(m: Qwen3Model, bound: Seq<Seq<char>>)
    requires
        forall|i: int| 0 <= i < m.required().len() ==> bound.contains(#[trigger] m.required()[i]),
    ensures
        first_unbound(bound, pass_needs(m.config), 0) is None,
{
    let c = m.config;
    let n = c.n_layer as nat;
    let needs = pass_needs(c);
    assert forall|i: int| 0 <= i < needs.len() implies bound.contains(#[trigger] needs[i]) by {
        if i < needs_below(c, n).len() {
            needs_are_required(c, n, i);
            let j = choose|j: int|
                0 <= j < required_below(c, n).len() && required_below(c, n)[j] == needs[i];
            assert(bound.contains(m.required()[j]));
        } else {
            outer_names_are_required(c, n);
            assert(m.required()[1] == "output_norm.weight"@);
            assert(needs[i] == "output_norm.weight"@);
        }
    }
    all_bound(bound, needs, 0);
}

proof fn outer_names_are_required(c: Qwen3Config, n: nat)
    ensures
        required_below(c, n).len() >= 2,
        required_below(c, n)[0] == "token_embd.weight"@,
        required_below(c, n)[1] == "output_norm.weight"@,
    decreases n,
{
    if n > 0 {
        outer_names_are_required(c, (n - 1) as nat);
    }
}

proof fn needs_are_required(c: Qwen3Config, n: nat, i: int)
    requires
        0 <= i < needs_below(c, n).len(),
    ensures
        required_below(c, n).contains(needs_below(c, n)[i]),
    decreases n,
{
    let name = needs_below(c, n)[i];
    if n == 0 {
        assert(required_below(c, 0)[0] == name);
    } else {
        let il = (n - 1) as nat;
        let before = needs_below(c, il);
        let held = required_below(c, il);
        if i < before.len() {
            needs_are_required(c, il, i);
            let j = choose|j: int| 0 <= j < held.len() && held[j] == name;
            assert(required_below(c, n)[j] == name);
        } else {
            let k = i - before.len();
            layer_needs_are_required(c, k);
            let s = block_suffixes(c);
            let j = choose|j: int| 0 <= j < s.len() && s[j] == layer_needs(c)[k];
            assert(block_names(il, s)[j] == name);
            assert(required_below(c, n)[held.len() + j] == name);
        }
    }
}

} // verus!
