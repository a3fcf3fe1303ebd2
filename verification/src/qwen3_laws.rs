//! What a dense or mixture layer promises of the numbers it computes.
//!
//! Each law holds under every reading of the operations with the algebra it names, so it
//! speaks of what reaches the logits rather than of how a graph is written.
#[allow(unused_imports)]
use crate::evaluation::{
    adds_nothing, agree_but, group_reads, group_values, on1, on2, on3, on4, reads, value, Reading,
};
#[allow(unused_imports)]
use crate::float_bits::{is_above, F32_ONE, F32_ZERO};
#[allow(unused_imports)]
use crate::graph::{e1, e2, e3, AttnScale, Expr, Op, Slot};
#[allow(unused_imports)]
use crate::mask::{causal, mask_bytes};
#[allow(unused_imports)]
use crate::names::{block_name, block_names_differ};
#[allow(unused_imports)]
use crate::qwen3::Qwen3Config;
#[allow(unused_imports)]
use crate::qwen3_graph::{
    after_layers, attended, attention_needs, attention_out, cached_attended, causal_bits, dense_out, embedded_rows,
    entry_needs, flash_attended, gate_up, layer_entry, layer_needs, layer_out, layer_window, mixture_out, normed,
    output_weight, pass_out, projected, qkv, qkv_of, rotated, router, swap_heads, w, widths_fit,
};
#[allow(unused_imports)]
use crate::text::decimal;
#[allow(unused_imports)]
use crate::stream_pass::{
    fed_forward, held, history_attended, logits_of, new_qkv, one_expert, positions_from,
    scaled_expert, summed_experts, uncached_layer,
};
use vstd::prelude::*;

verus! {

// ------------------------------------------------------------------- projections

proof fn projections_are_spelled_apart()
    ensures
        "attn_q.weight"@ != "attn_k.weight"@,
        "attn_q.weight"@ != "attn_v.weight"@,
        "attn_k.weight"@ != "attn_v.weight"@,
{
    reveal_strlit("attn_q.weight");
    reveal_strlit("attn_k.weight");
    reveal_strlit("attn_v.weight");
    assert("attn_q.weight"@[5] == 'q');
    assert("attn_k.weight"@[5] == 'k');
    assert("attn_v.weight"@[5] == 'v');
}

/// Queries, keys and values are projected by three different matrices, whether the
/// container stores them apart or as the rows of one tensor.
pub proof fn projections_are_three_different_ones(c: Qwen3Config, il: nat)
    requires
        widths_fit(c),
        c.head_dim > 0,
        c.n_head > 0,
        c.n_head_kv > 0,
    ensures
        qkv(c, il).0 != qkv(c, il).1,
        qkv(c, il).0 != qkv(c, il).2,
        qkv(c, il).1 != qkv(c, il).2,
{
    projections_are_spelled_apart();
    block_names_differ(il, "attn_q.weight"@, il, "attn_k.weight"@);
    block_names_differ(il, "attn_q.weight"@, il, "attn_v.weight"@);
    block_names_differ(il, "attn_k.weight"@, il, "attn_v.weight"@);
    if c.fused_qkv {
        assert(0 < c.n_head * c.head_dim <= u32::MAX) by (nonlinear_arith)
            requires
                c.head_dim * c.n_head <= u32::MAX,
                c.head_dim > 0,
                c.n_head > 0,
        ;
        assert(0 < c.n_head_kv * c.head_dim <= u32::MAX) by (nonlinear_arith)
            requires
                c.head_dim * c.n_head_kv <= u32::MAX,
                c.head_dim > 0,
                c.n_head_kv > 0,
        ;
        let fused = w(il, "attn_qkv.weight"@);
        let n_q = (c.n_head * c.head_dim) as i64;
        let n_kv = (c.n_head_kv * c.head_dim) as i64;
        assert(qkv(c, il).0 == e1(Op::Rows { first: 0, count: n_q }, fused));
        assert(qkv(c, il).1 == e1(Op::Rows { first: n_q, count: n_kv }, fused));
        assert(qkv(c, il).2 == e1(Op::Rows { first: (n_q + n_kv) as i64, count: n_kv }, fused));
    }
}

/// Each projection reads its own weights and no other's: queries `attn_q`, keys `attn_k`
/// and values `attn_v`, with their biases and norms where the model has them.
pub proof fn projections_read_their_own_weights(c: Qwen3Config, il: nat, x: Expr, n: i64)
    requires
        !c.fused_qkv,
    ensures
        forall|name: Seq<char>|
            #[trigger] reads(qkv_of(c, il, x, n).0, name) <==> name == block_name(
                il,
                "attn_q.weight"@,
            ) || name == block_name(il, "attn_norm.weight"@) || (c.attn_bias && name == block_name(
                il,
                "attn_q.bias"@,
            )) || (c.qk_norm && name == block_name(il, "attn_q_norm.weight"@)) || reads(x, name),
        forall|name: Seq<char>|
            #[trigger] reads(qkv_of(c, il, x, n).1, name) <==> name == block_name(
                il,
                "attn_k.weight"@,
            ) || name == block_name(il, "attn_norm.weight"@) || (c.attn_bias && name == block_name(
                il,
                "attn_k.bias"@,
            )) || (c.qk_norm && name == block_name(il, "attn_k_norm.weight"@)) || reads(x, name),
        forall|name: Seq<char>|
            #[trigger] reads(qkv_of(c, il, x, n).2, name) <==> name == block_name(
                il,
                "attn_v.weight"@,
            ) || name == block_name(il, "attn_norm.weight"@) || (c.attn_bias && name == block_name(
                il,
                "attn_v.bias"@,
            )) || reads(x, name),
{
    broadcast use group_reads;

}

/// A fused tensor computes what the same rows stored apart compute.
pub proof fn fused_projections_compute_as_separate_ones<V>(
    r: Reading<V>,
    s: Reading<V>,
    c: Qwen3Config,
    d: Qwen3Config,
    il: nat,
    x: Expr,
    n: i64,
)
    requires
        c.fused_qkv,
        d == (Qwen3Config { fused_qkv: false, attn_bias: false, ..c }),
        widths_fit(c),
        r.apply == s.apply,
        value(r, x) == value(s, x),
        (r.weight)(block_name(il, "attn_norm.weight"@)) == (s.weight)(
            block_name(il, "attn_norm.weight"@),
        ),
        (r.weight)(block_name(il, "attn_q_norm.weight"@)) == (s.weight)(
            block_name(il, "attn_q_norm.weight"@),
        ),
        (r.weight)(block_name(il, "attn_k_norm.weight"@)) == (s.weight)(
            block_name(il, "attn_k_norm.weight"@),
        ),
        // Queries' rows come first, then the keys', then the values'.
        ({
            let fused = (r.weight)(block_name(il, "attn_qkv.weight"@));
            let n_q = c.n_head * c.head_dim;
            let n_kv = c.n_head_kv * c.head_dim;
            &&& (s.weight)(block_name(il, "attn_q.weight"@)) == on1(
                r,
                Op::Rows { first: 0, count: n_q as i64 },
                fused,
            )
            &&& (s.weight)(block_name(il, "attn_k.weight"@)) == on1(
                r,
                Op::Rows { first: n_q as i64, count: n_kv as i64 },
                fused,
            )
            &&& (s.weight)(block_name(il, "attn_v.weight"@)) == on1(
                r,
                Op::Rows { first: (n_q + n_kv) as i64, count: n_kv as i64 },
                fused,
            )
        }),
    ensures
        value(r, qkv_of(c, il, x, n).0) == value(s, qkv_of(d, il, x, n).0),
        value(r, qkv_of(c, il, x, n).1) == value(s, qkv_of(d, il, x, n).1),
        value(r, qkv_of(c, il, x, n).2) == value(s, qkv_of(d, il, x, n).2),
{
    broadcast use group_values;

    assert(0 <= c.n_head * c.head_dim <= u32::MAX) by (nonlinear_arith)
        requires
            c.head_dim * c.n_head <= u32::MAX,
    ;
    assert(0 <= c.n_head_kv * c.head_dim <= u32::MAX) by (nonlinear_arith)
        requires
            c.head_dim * c.n_head_kv <= u32::MAX,
    ;
}

/// Keys are made as queries are: with the same weights and as many heads, they come to
/// the same.
pub proof fn keys_are_made_as_queries_are<V>(
    r: Reading<V>,
    c: Qwen3Config,
    il: nat,
    x: Expr,
    n: i64,
)
    requires
        !c.fused_qkv,
        c.n_head == c.n_head_kv,
        (r.weight)(block_name(il, "attn_q.weight"@)) == (r.weight)(
            block_name(il, "attn_k.weight"@),
        ),
        (r.weight)(block_name(il, "attn_q.bias"@)) == (r.weight)(block_name(il, "attn_k.bias"@)),
        (r.weight)(block_name(il, "attn_q_norm.weight"@)) == (r.weight)(
            block_name(il, "attn_k_norm.weight"@),
        ),
    ensures
        value(r, qkv_of(c, il, x, n).0) == value(r, qkv_of(c, il, x, n).1),
{
    broadcast use group_values;

}

/// A bias of zero is no bias.
pub proof fn a_zero_bias_changes_nothing<V>(
    r: Reading<V>,
    c: Qwen3Config,
    d: Qwen3Config,
    il: nat,
    x: Expr,
    n: i64,
    zero: V,
)
    requires
        d == (Qwen3Config { attn_bias: false, ..c }),
        adds_nothing(r, zero),
        (r.weight)(block_name(il, "attn_q.bias"@)) == zero,
        (r.weight)(block_name(il, "attn_k.bias"@)) == zero,
        (r.weight)(block_name(il, "attn_v.bias"@)) == zero,
    ensures
        value(r, qkv_of(c, il, x, n).0) == value(r, qkv_of(d, il, x, n).0),
        value(r, qkv_of(c, il, x, n).1) == value(r, qkv_of(d, il, x, n).1),
        value(r, qkv_of(c, il, x, n).2) == value(r, qkv_of(d, il, x, n).2),
{
    broadcast use group_values;

}

/// A norm of heads that changes nothing is no norm; values have none.
pub proof fn a_neutral_head_norm_changes_nothing<V>(
    r: Reading<V>,
    c: Qwen3Config,
    d: Qwen3Config,
    il: nat,
    x: Expr,
    n: i64,
)
    requires
        d == (Qwen3Config { qk_norm: false, ..c }),
        forall|y: V|
            on2(
                r,
                Op::Mul,
                #[trigger] on1(r, Op::RmsNorm { eps: c.rms_eps }, y),
                (r.weight)(block_name(il, "attn_q_norm.weight"@)),
            ) == y,
        forall|y: V|
            on2(
                r,
                Op::Mul,
                #[trigger] on1(r, Op::RmsNorm { eps: c.rms_eps }, y),
                (r.weight)(block_name(il, "attn_k_norm.weight"@)),
            ) == y,
    ensures
        value(r, qkv_of(c, il, x, n).0) == value(r, qkv_of(d, il, x, n).0),
        value(r, qkv_of(c, il, x, n).1) == value(r, qkv_of(d, il, x, n).1),
        qkv_of(c, il, x, n).2 == qkv_of(d, il, x, n).2,
{
    broadcast use group_values;

}

// ---------------------------------------------------------------------- attention

/// Values are averaged by the probabilities and by nothing else: where every score gives
/// the same probabilities, queries and keys have no influence.
pub proof fn scores_only_weigh<V>(
    r: Reading<V>,
    c: Qwen3Config,
    q: Expr,
    k: Expr,
    other_q: Expr,
    other_k: Expr,
    v: Expr,
    n: i64,
    window: u32,
)
    requires
        forall|scale: AttnScale, max_bias: u32, a: V, b: V, mask: V|
            #[trigger] on2(r, Op::SoftMaxExt { scale, max_bias }, a, mask) == #[trigger] on2(
                r,
                Op::SoftMaxExt { scale, max_bias },
                b,
                mask,
            ),
    ensures
        value(r, attended(c, q, k, v, n, window)) == value(
            r,
            attended(c, other_q, other_k, v, n, window),
        ),
{
    broadcast use group_values;

}

/// Attention reads queries, keys and values, and no weight of its own.
pub proof fn attention_reads_what_it_attends(
    c: Qwen3Config,
    q: Expr,
    k: Expr,
    v: Expr,
    n: i64,
    window: u32,
)
    ensures
        forall|name: Seq<char>|
            #[trigger] reads(attended(c, q, k, v, n, window), name) <==> reads(q, name) || reads(
                k,
                name,
            ) || reads(v, name),
{
    broadcast use group_reads;

}

/// Attention over a whole pass is attention over a history that holds just that pass.
pub proof fn a_pass_attends_as_over_its_own_history<V>(
    r: Reading<V>,
    c: Qwen3Config,
    q: Expr,
    k: Expr,
    v: Expr,
    stored: Expr,
    n: i64,
    window: u32,
)
    requires
        value(r, stored) == on1(
            r,
            Op::Reshape3d { n0: c.head_dim as i64, n1: c.n_head_kv as i64, n2: n },
            value(r, v),
        ),
    ensures
        value(r, attended(c, q, k, v, n, window)) == value(
            r,
            cached_attended(c, q, k, stored, n, n, causal_bits(n as int, window as int)),
        ),
{
    broadcast use group_values;

}

/// The fused kernel computes scaled dot products of queries and keys, capped where a cap
/// is set, masked, made probabilities, and averages the values by them.
pub open spec fn fuses_attention<V>(r: Reading<V>, c: Qwen3Config) -> bool {
    let scale = AttnScale::InverseSqrt(c.head_dim);
    &&& forall|x: V| #[trigger] on1(r, Op::Cont, x) == x
    &&& forall|q: V, k: V, v: V, mask: V|
        #[trigger] on4(
            r,
            Op::FlashAttn { scale, softcap: c.attn_logit_softcap },
            q,
            k,
            v,
            mask,
        ) == on1(
            r,
            Op::Permute { a0: 0, a1: 2, a2: 1, a3: 3 },
            on2(
                r,
                Op::MulMat,
                on1(r, Op::Transpose, v),
                if is_above(c.attn_logit_softcap, F32_ZERO) {
                    on2(
                        r,
                        Op::SoftMaxExt { scale: AttnScale::Bits(F32_ONE), max_bias: F32_ZERO },
                        on1(
                            r,
                            Op::CapScores { scale, cap: c.attn_logit_softcap },
                            on2(r, Op::MulMat, k, q),
                        ),
                        mask,
                    )
                } else {
                    on2(
                        r,
                        Op::SoftMaxExt { scale, max_bias: F32_ZERO },
                        on2(r, Op::MulMat, k, q),
                        mask,
                    )
                },
            ),
        )
}

/// Both ways to attend over a history give the same result.
pub proof fn fused_attention_is_explicit_attention<V>(
    r: Reading<V>,
    c: Qwen3Config,
    q: Expr,
    k: Expr,
    v: Expr,
    n_new: i64,
    n_total: i64,
    halves: Seq<u8>,
    bits: Seq<u32>,
)
    requires
        fuses_attention(r, c),
        (r.halves)(n_total as int, n_new as int, halves) == (r.floats)(
            n_total as int,
            n_new as int,
            bits,
        ),
    ensures
        value(r, flash_attended(c, q, k, v, n_new, n_total, halves)) == value(
            r,
            cached_attended(c, q, k, v, n_new, n_total, bits),
        ),
{
    broadcast use group_values;

}

/// A cap that no score comes near changes nothing.
pub proof fn an_idle_cap_changes_nothing<V>(
    r: Reading<V>,
    c: Qwen3Config,
    d: Qwen3Config,
    q: Expr,
    k: Expr,
    v: Expr,
    n: i64,
    window: u32,
)
    requires
        d == (Qwen3Config { attn_logit_softcap: F32_ZERO, ..c }),
        forall|x: V, mask: V|
            on2(
                r,
                Op::SoftMaxExt { scale: AttnScale::Bits(F32_ONE), max_bias: F32_ZERO },
                #[trigger] on1(
                    r,
                    Op::CapScores {
                        scale: AttnScale::InverseSqrt(c.head_dim),
                        cap: c.attn_logit_softcap,
                    },
                    x,
                ),
                mask,
            ) == #[trigger] on2(
                r,
                Op::SoftMaxExt {
                    scale: AttnScale::InverseSqrt(c.head_dim),
                    max_bias: F32_ZERO,
                },
                x,
                mask,
            ),
    ensures
        value(r, attended(c, q, k, v, n, window)) == value(r, attended(d, q, k, v, n, window)),
{
    broadcast use group_values;

    let scores = on2(
        r,
        Op::MulMat,
        value(r, swap_heads(k)),
        value(r, swap_heads(q)),
    );
    let mask = (r.floats)(n as int, n as int, causal_bits(n as int, window as int));
    let plain = on2(
        r,
        Op::SoftMaxExt { scale: AttnScale::InverseSqrt(c.head_dim), max_bias: F32_ZERO },
        scores,
        mask,
    );
    if is_above(c.attn_logit_softcap, F32_ZERO) {
        assert(on2(
            r,
            Op::SoftMaxExt { scale: AttnScale::Bits(F32_ONE), max_bias: F32_ZERO },
            on1(
                r,
                Op::CapScores {
                    scale: AttnScale::InverseSqrt(c.head_dim),
                    cap: c.attn_logit_softcap,
                },
                scores,
            ),
            mask,
        ) == plain);
    }
}

/// The rotation of a layer's queries and keys.
pub open spec fn layer_turn(c: Qwen3Config) -> Op {
    Op::RopeExt {
        n_dims: c.head_dim as i32,
        mode: c.rope_type,
        n_ctx_orig: c.rope_orig_ctx as i32,
        rope: c.rope_params(),
    }
}

/// Scores of queries and keys turned at `at` are those of the same turned at `other`, as
/// where `other` is `at` moved by one distance.
pub open spec fn scores_go_by_distance<V>(r: Reading<V>, c: Qwen3Config, at: V, other: V) -> bool {
    let swap = Op::Permute { a0: 0, a1: 2, a2: 1, a3: 3 };
    forall|q: V, k: V|
        on2(
            r,
            Op::MulMat,
            on1(r, Op::Cont, on1(r, swap, #[trigger] on2(r, layer_turn(c), k, at))),
            on1(r, Op::Cont, on1(r, swap, #[trigger] on2(r, layer_turn(c), q, at))),
        ) == on2(
            r,
            Op::MulMat,
            on1(r, Op::Cont, on1(r, swap, on2(r, layer_turn(c), k, other))),
            on1(r, Op::Cont, on1(r, swap, on2(r, layer_turn(c), q, other))),
        )
}

/// A layer goes by how far apart positions are and not by where they are: moving the
/// whole pass leaves what the layer hands on. Queries and keys are turned alike, and
/// values not at all.
pub proof fn a_layer_goes_by_distance<V>(
    r: Reading<V>,
    c: Qwen3Config,
    il: nat,
    x: Expr,
    positions: Expr,
    moved: Expr,
    n: i64,
)
    requires
        scores_go_by_distance(r, c, value(r, positions), value(r, moved)),
    ensures
        value(r, layer_out(c, il, x, positions, n)) == value(r, layer_out(c, il, x, moved, n)),
{
    broadcast use group_values;

    let (q, k, v) = qkv_of(c, il, x, n);
    let at = value(r, positions);
    let other = value(r, moved);
    let turn = layer_turn(c);
    let (kq, kk) = (value(r, q), value(r, k));
    assert(on2(r, turn, kk, at) == value(
        r,
        rotated(c, k, positions, c.rope_type, c.rope_params()),
    ));
    assert(on2(r, turn, kq, at) == value(
        r,
        rotated(c, q, positions, c.rope_type, c.rope_params()),
    ));
    let here = e2(
        Op::MulMat,
        swap_heads(rotated(c, k, positions, c.rope_type, c.rope_params())),
        swap_heads(rotated(c, q, positions, c.rope_type, c.rope_params())),
    );
    let there = e2(
        Op::MulMat,
        swap_heads(rotated(c, k, moved, c.rope_type, c.rope_params())),
        swap_heads(rotated(c, q, moved, c.rope_type, c.rope_params())),
    );
    assert(value(r, here) == value(r, there));
    assert(value(r, attention_out(c, il, x, positions, n, c.rope_params(), c.rope_type)) == value(
        r,
        attention_out(c, il, x, moved, n, c.rope_params(), c.rope_type),
    ));
    assert(value(r, layer_entry(c, il, x, positions, n)) == value(
        r,
        layer_entry(c, il, x, moved, n),
    ));
}

/// Where a window slides, it slides in every other layer, beginning with the first.
pub proof fn every_other_layer_slides(c: Qwen3Config, pair: int)
    requires
        0 <= pair,
    ensures
        layer_window(c, 2 * pair) == c.sliding_window,
        layer_window(c, 2 * pair + 1) == 0,
{
}


// -------------------------------------------------------------------- feed-forward

/// A dense feed-forward reads its three projections, or the two that a container stores
/// where gate and up are one tensor.
pub proof fn a_dense_feed_forward_reads_its_projections(c: Qwen3Config, il: nat, x: Expr)
    ensures
        forall|name: Seq<char>|
            #[trigger] reads(dense_out(c, il, x), name) <==> (!c.fused_gate_up && name
                == block_name(il, "ffn_gate.weight"@)) || name == block_name(il, "ffn_up.weight"@)
                || name == block_name(il, "ffn_down.weight"@) || reads(x, name),
{
    broadcast use group_reads;

}

/// A mixture reads its router and its three stacks.
pub proof fn a_mixture_reads_router_and_stacks(c: Qwen3Config, il: nat, x: Expr, n: i64)
    ensures
        forall|name: Seq<char>|
            #[trigger] reads(mixture_out(c, il, x, n), name) <==> name == block_name(
                il,
                "ffn_gate_inp.weight"@,
            ) || name == block_name(il, "ffn_gate_exps.weight"@) || name == block_name(
                il,
                "ffn_up_exps.weight"@,
            ) || name == block_name(il, "ffn_down_exps.weight"@) || reads(x, name),
{
    broadcast use group_reads;

}

proof fn feed_forward_is_spelled_apart()
    ensures
        "ffn_gate.weight"@ != "ffn_up.weight"@,
        "ffn_gate.weight"@ != "ffn_down.weight"@,
        "ffn_up.weight"@ != "ffn_down.weight"@,
{
    reveal_strlit("ffn_gate.weight");
    reveal_strlit("ffn_up.weight");
    reveal_strlit("ffn_down.weight");
    assert("ffn_gate.weight"@[4] == 'g');
    assert("ffn_up.weight"@[4] == 'u');
    assert("ffn_down.weight"@[4] == 'd');
}

/// The gating projection only lets the other through: where the activation does not
/// depend on what it is given, it has no influence.
pub proof fn the_gating_projection_is_the_gate<V>(
    r: Reading<V>,
    s: Reading<V>,
    c: Qwen3Config,
    il: nat,
    x: Expr,
)
    requires
        !c.fused_gate_up,
        agree_but(r, s, set![block_name(il, "ffn_gate.weight"@)]),
        value(r, x) == value(s, x),
        forall|a: V, b: V| #[trigger] on1(r, Op::Silu, a) == #[trigger] on1(r, Op::Silu, b),
    ensures
        value(r, dense_out(c, il, x)) == value(s, dense_out(c, il, x)),
{
    broadcast use group_values;

    feed_forward_is_spelled_apart();
    block_names_differ(il, "ffn_gate.weight"@, il, "ffn_up.weight"@);
    block_names_differ(il, "ffn_gate.weight"@, il, "ffn_down.weight"@);
    let gate = block_name(il, "ffn_gate.weight"@);
    let a = on2(r, Op::MulMat, (r.weight)(gate), value(r, x));
    let b = on2(s, Op::MulMat, (s.weight)(gate), value(s, x));
    assert(on1(r, Op::Silu, a) == on1(r, Op::Silu, b));
    assert(on1(r, Op::Silu, b) == on1(s, Op::Silu, b));
    assert((r.weight)(block_name(il, "ffn_up.weight"@)) == (s.weight)(
        block_name(il, "ffn_up.weight"@),
    ));
    assert((r.weight)(block_name(il, "ffn_down.weight"@)) == (s.weight)(
        block_name(il, "ffn_down.weight"@),
    ));
}

/// A fused gate and up tensor computes what its halves stored apart compute: the first
/// half gates, the second is gated.
pub proof fn a_fused_gate_computes_as_a_separate_one<V>(
    r: Reading<V>,
    s: Reading<V>,
    c: Qwen3Config,
    d: Qwen3Config,
    il: nat,
    x: Expr,
)
    requires
        c.fused_gate_up,
        d == (Qwen3Config { fused_gate_up: false, ..c }),
        r.apply == s.apply,
        value(r, x) == value(s, x),
        (r.weight)(block_name(il, "ffn_down.weight"@)) == (s.weight)(
            block_name(il, "ffn_down.weight"@),
        ),
        (s.weight)(block_name(il, "ffn_gate.weight"@)) == on1(
            r,
            Op::HalfRows { second: false },
            (r.weight)(block_name(il, "ffn_up.weight"@)),
        ),
        (s.weight)(block_name(il, "ffn_up.weight"@)) == on1(
            r,
            Op::HalfRows { second: true },
            (r.weight)(block_name(il, "ffn_up.weight"@)),
        ),
    ensures
        value(r, dense_out(c, il, x)) == value(s, dense_out(d, il, x)),
{
    broadcast use group_values;

}

/// Each expert of a mixture is a feed-forward: of a single one, picked with certainty,
/// the mixture is what a dense layer with its matrices computes.
pub proof fn a_mixture_of_one_is_dense<V>(
    r: Reading<V>,
    c: Qwen3Config,
    il: nat,
    x: Expr,
    n: i64,
    one: V,
)
    requires
        !c.fused_gate_up,
        (r.weight)(block_name(il, "ffn_gate_exps.weight"@)) == (r.weight)(
            block_name(il, "ffn_gate.weight"@),
        ),
        (r.weight)(block_name(il, "ffn_up_exps.weight"@)) == (r.weight)(
            block_name(il, "ffn_up.weight"@),
        ),
        (r.weight)(block_name(il, "ffn_down_exps.weight"@)) == (r.weight)(
            block_name(il, "ffn_down.weight"@),
        ),
        forall|n0: i64, n1: i64, n2: i64, y: V|
            #[trigger] on1(r, Op::Reshape3d { n0, n1, n2 }, y) == y,
        forall|matrix: V, y: V, picked: V|
            #[trigger] on3(r, Op::MulMatId, matrix, y, picked) == on2(r, Op::MulMat, matrix, y),
        // A router of one expert gives it everything.
        forall|probs: V, picked: V| #[trigger] on2(r, Op::GetRows, probs, picked) == one,
        forall|y: V| #[trigger] on2(r, Op::Mul, y, one) == y,
        forall|y: V| #[trigger] on1(r, Op::SumRows, y) == y,
    ensures
        value(r, mixture_out(c, il, x, n)) == value(r, dense_out(c, il, x)),
{
    broadcast use group_values;

}

/// An expert run on its own computes what a dense layer with its matrices does.
pub proof fn an_expert_alone_is_dense<V>(
    r: Reading<V>,
    c: Qwen3Config,
    il: nat,
    gate: Seq<char>,
    up: Seq<char>,
    down: Seq<char>,
    x: Expr,
)
    requires
        !c.fused_gate_up,
        (r.weight)(gate) == (r.weight)(block_name(il, "ffn_gate.weight"@)),
        (r.weight)(up) == (r.weight)(block_name(il, "ffn_up.weight"@)),
        (r.weight)(down) == (r.weight)(block_name(il, "ffn_down.weight"@)),
    ensures
        value(r, one_expert(gate, up, down, x)) == value(r, dense_out(c, il, x)),
{
    broadcast use group_values;

}

/// Every picked expert counts, and counts once: where all others are scaled to nothing,
/// a position's experts come to the `j`th one's output, scaled by its own weight.
pub proof fn every_picked_expert_counts_once<V>(
    r: Reading<V>,
    experts: Seq<u32>,
    weights: Seq<u32>,
    x: Expr,
    n: int,
    j: int,
    zero: V,
)
    requires
        0 <= j < n <= experts.len(),
        weights.len() == experts.len(),
        adds_nothing(r, zero),
        forall|k: int, y: V|
            0 <= k < n && k != j ==> #[trigger] on1(r, Op::Scale { by: weights[k] }, y) == zero,
    ensures
        value(r, summed_experts(experts, weights, x, n)) == on1(
            r,
            Op::Scale { by: weights[j] },
            value(
                r,
                one_expert(
                    "g"@ + decimal(experts[j] as nat),
                    "u"@ + decimal(experts[j] as nat),
                    "d"@ + decimal(experts[j] as nat),
                    x,
                ),
            ),
        ),
    decreases n,
{
    broadcast use group_values;

    if n > 1 {
        if j < n - 1 {
            every_picked_expert_counts_once(r, experts, weights, x, n - 1, j, zero);
        } else {
            unpicked_experts_add_nothing(r, experts, weights, x, n - 1, zero);
        }
    }
}

proof fn unpicked_experts_add_nothing<V>(
    r: Reading<V>,
    experts: Seq<u32>,
    weights: Seq<u32>,
    x: Expr,
    n: int,
    zero: V,
)
    requires
        1 <= n <= experts.len(),
        weights.len() == experts.len(),
        adds_nothing(r, zero),
        forall|k: int, y: V|
            0 <= k < n ==> #[trigger] on1(r, Op::Scale { by: weights[k] }, y) == zero,
    ensures
        value(r, summed_experts(experts, weights, x, n)) == zero,
    decreases n,
{
    broadcast use group_values;

    if n > 1 {
        unpicked_experts_add_nothing(r, experts, weights, x, n - 1, zero);
    }
}

// ------------------------------------------------------------------------ residuals

/// Norms leave nothing of nothing.
pub open spec fn norms_of_zero<V>(r: Reading<V>, zero: V) -> bool {
    &&& forall|eps: u32| #[trigger] on1(r, Op::RmsNorm { eps }, zero) == zero
    &&& forall|x: V| #[trigger] on2(r, Op::Mul, zero, x) == zero
}

/// Attention is added to what entered the layer: where its output projection gives
/// nothing, the feed-forward is entered by what entered the layer.
pub proof fn silent_attention_leaves_the_residual<V>(
    r: Reading<V>,
    c: Qwen3Config,
    il: nat,
    x: Expr,
    positions: Expr,
    n: i64,
    zero: V,
)
    requires
        adds_nothing(r, zero),
        norms_of_zero(r, zero),
        forall|y: V|
            #[trigger] on2(
                r,
                Op::MulMat,
                (r.weight)(block_name(il, "attn_output.weight"@)),
                y,
            ) == zero,
    ensures
        value(r, layer_entry(c, il, x, positions, n)) == value(r, x),
{
    broadcast use group_values;

}

/// The feed-forward is added to what attention left: where its last projection gives
/// nothing, a layer hands on what attention left.
pub proof fn a_silent_feed_forward_leaves_the_residual<V>(
    r: Reading<V>,
    c: Qwen3Config,
    il: nat,
    x: Expr,
    positions: Expr,
    n: i64,
    zero: V,
)
    requires
        adds_nothing(r, zero),
        norms_of_zero(r, zero),
        on1(r, Op::SumRows, zero) == zero,
        forall|y: V|
            #[trigger] on2(
                r,
                Op::MulMat,
                (r.weight)(block_name(il, "ffn_down.weight"@)),
                y,
            ) == zero,
        forall|y: V, picked: V|
            #[trigger] on3(
                r,
                Op::MulMatId,
                (r.weight)(block_name(il, "ffn_down_exps.weight"@)),
                y,
                picked,
            ) == zero,
    ensures
        value(r, layer_out(c, il, x, positions, n)) == value(
            r,
            layer_entry(c, il, x, positions, n),
        ),
{
    broadcast use group_values;

}

/// Norms behind a layer's parts that change nothing are no norms.
pub proof fn neutral_post_norms_change_nothing<V>(
    r: Reading<V>,
    c: Qwen3Config,
    d: Qwen3Config,
    il: nat,
    x: Expr,
    positions: Expr,
    n: i64,
)
    requires
        d == (Qwen3Config { post_norms: false, ..c }),
        forall|y: V|
            on2(
                r,
                Op::Mul,
                #[trigger] on1(r, Op::RmsNorm { eps: c.rms_eps }, y),
                (r.weight)(block_name(il, "post_attention_norm.weight"@)),
            ) == y,
        forall|y: V|
            on2(
                r,
                Op::Mul,
                #[trigger] on1(r, Op::RmsNorm { eps: c.rms_eps }, y),
                (r.weight)(block_name(il, "post_ffw_norm.weight"@)),
            ) == y,
    ensures
        value(r, layer_out(c, il, x, positions, n)) == value(r, layer_out(d, il, x, positions, n)),
{
    broadcast use group_values;

    let a = attention_out(c, il, x, positions, n, c.rope_params(), c.rope_type);
    let b = attention_out(d, il, x, positions, n, d.rope_params(), d.rope_type);
    assert(a == b);
    assert(value(r, layer_entry(c, il, x, positions, n)) == value(
        r,
        layer_entry(d, il, x, positions, n),
    ));
    let h = normed(c.rms_eps, layer_entry(c, il, x, positions, n), w(il, "ffn_norm.weight"@));
    let k = normed(c.rms_eps, layer_entry(d, il, x, positions, n), w(il, "ffn_norm.weight"@));
    assert(value(r, h) == value(r, k));
    assert(value(r, dense_out(c, il, h)) == value(r, dense_out(d, il, k)));
    assert(value(r, mixture_out(c, il, h, n)) == value(r, mixture_out(d, il, k, n)));
}

// ------------------------------------------------------------------- layers and logits

/// A layer's attention and feed-forward read exactly the weights the layer asks for.
pub proof fn a_layer_reads_what_it_asks_for(
    c: Qwen3Config,
    il: nat,
    x: Expr,
    positions: Expr,
    n: i64,
    name: Seq<char>,
)
    ensures
        reads(layer_out(c, il, x, positions, n), name) <==> (exists|i: int|
            0 <= i < layer_needs(c).len() && name == #[trigger] block_name(il, layer_needs(c)[i]))
            || reads(x, name) || reads(positions, name),
{
    broadcast use group_reads;

    let needs = layer_needs(c);
    let attn = attention_needs(c);
    let entry = entry_needs(c);
    let asked = exists|i: int|
        0 <= i < needs.len() && name == #[trigger] block_name(il, needs[i]);
    let after = layer_entry(c, il, x, positions, n);
    let h = normed(c.rms_eps, after, w(il, "ffn_norm.weight"@));
    let read = reads(layer_out(c, il, x, positions, n), name);
    a_dense_feed_forward_reads_its_projections(c, il, h);
    a_mixture_reads_router_and_stacks(c, il, h, n);
    assert(reads(h, name) <==> reads(after, name) || name == block_name(il, "ffn_norm.weight"@));
    let named = |s: Seq<char>| name == block_name(il, s);
    let in_attn = {
        ||| named("attn_norm.weight"@)
        ||| named("attn_output.weight"@)
        ||| c.fused_qkv && named("attn_qkv.weight"@)
        ||| !c.fused_qkv && (named("attn_q.weight"@) || named("attn_k.weight"@) || named(
            "attn_v.weight"@,
        ))
        ||| !c.fused_qkv && c.attn_bias && (named("attn_q.bias"@) || named("attn_k.bias"@) || named(
            "attn_v.bias"@,
        ))
        ||| c.qk_norm && (named("attn_q_norm.weight"@) || named("attn_k_norm.weight"@))
    };
    let in_ffn = {
        ||| c.moe() && (named("ffn_gate_inp.weight"@) || named("ffn_gate_exps.weight"@) || named(
            "ffn_up_exps.weight"@,
        ) || named("ffn_down_exps.weight"@))
        ||| !c.moe() && (named("ffn_up.weight"@) || named("ffn_down.weight"@))
        ||| !c.moe() && !c.fused_gate_up && named("ffn_gate.weight"@)
    };
    let in_post = c.post_norms && (named("post_attention_norm.weight"@) || named(
        "post_ffw_norm.weight"@,
    ));
    assert(reads(after, name) <==> in_attn || (c.post_norms && named(
        "post_attention_norm.weight"@,
    )) || reads(x, name) || reads(positions, name));
    let all = in_attn || in_ffn || in_post || named("ffn_norm.weight"@);
    assert(read <==> all || reads(x, name) || reads(positions, name));
    what_a_layer_asks_for(c, il, name);
}

proof fn what_a_layer_asks_for(c: Qwen3Config, il: nat, name: Seq<char>)
    ensures
        ({
            let named = |s: Seq<char>| name == block_name(il, s);
            (exists|i: int|
                0 <= i < layer_needs(c).len() && name == #[trigger] block_name(
                    il,
                    layer_needs(c)[i],
                )) <==> {
                ||| named("attn_norm.weight"@)
                ||| named("attn_output.weight"@)
                ||| c.fused_qkv && named("attn_qkv.weight"@)
                ||| !c.fused_qkv && (named("attn_q.weight"@) || named("attn_k.weight"@) || named(
                    "attn_v.weight"@,
                ))
                ||| !c.fused_qkv && c.attn_bias && (named("attn_q.bias"@) || named("attn_k.bias"@)
                    || named("attn_v.bias"@))
                ||| c.qk_norm && (named("attn_q_norm.weight"@) || named("attn_k_norm.weight"@))
                ||| c.moe() && (named("ffn_gate_inp.weight"@) || named("ffn_gate_exps.weight"@)
                    || named("ffn_up_exps.weight"@) || named("ffn_down_exps.weight"@))
                ||| !c.moe() && (named("ffn_up.weight"@) || named("ffn_down.weight"@))
                ||| !c.moe() && !c.fused_gate_up && named("ffn_gate.weight"@)
                ||| c.post_norms && (named("post_attention_norm.weight"@) || named(
                    "post_ffw_norm.weight"@,
                ))
                ||| named("ffn_norm.weight"@)
            }
        }),
{
    let needs = layer_needs(c);
    let qkv_len: int = if c.fused_qkv {
        1
    } else if c.attn_bias {
        6
    } else {
        3
    };
    let qk_len: int = if c.qk_norm {
        2
    } else {
        0
    };
    let out_at = 1 + qkv_len + qk_len;
    let norm_at = out_at + 1 + (if c.post_norms {
        1int
    } else {
        0
    });
    assert(needs[0] == "attn_norm.weight"@);
    if c.fused_qkv {
        assert(needs[1] == "attn_qkv.weight"@);
    } else {
        assert(needs[1] == "attn_q.weight"@);
        assert(needs[2] == "attn_k.weight"@);
        assert(needs[3] == "attn_v.weight"@);
        if c.attn_bias {
            assert(needs[4] == "attn_q.bias"@);
            assert(needs[5] == "attn_k.bias"@);
            assert(needs[6] == "attn_v.bias"@);
        }
    }
    if c.qk_norm {
        assert(needs[1 + qkv_len] == "attn_q_norm.weight"@);
        assert(needs[2 + qkv_len] == "attn_k_norm.weight"@);
    }
    assert(needs[out_at] == "attn_output.weight"@);
    if c.post_norms {
        assert(needs[out_at + 1] == "post_attention_norm.weight"@);
    }
    assert(needs[norm_at] == "ffn_norm.weight"@);
    if c.moe() {
        assert(needs[norm_at + 1] == "ffn_gate_inp.weight"@);
        assert(needs[norm_at + 2] == "ffn_gate_exps.weight"@);
        assert(needs[norm_at + 3] == "ffn_up_exps.weight"@);
        assert(needs[norm_at + 4] == "ffn_down_exps.weight"@);
    } else if c.fused_gate_up {
        assert(needs[norm_at + 1] == "ffn_up.weight"@);
        assert(needs[norm_at + 2] == "ffn_down.weight"@);
    } else {
        assert(needs[norm_at + 1] == "ffn_gate.weight"@);
        assert(needs[norm_at + 2] == "ffn_up.weight"@);
        assert(needs[norm_at + 3] == "ffn_down.weight"@);
    }
    if c.post_norms {
        assert(needs[needs.len() - 1] == "post_ffw_norm.weight"@);
    }
}

/// Every layer has a part in the activations: after `n` layers, each weight that a layer
/// below `n` asks for has been read, beside the embeddings.
pub proof fn every_layer_has_a_part(
    c: Qwen3Config,
    n_layer: nat,
    tokens: Expr,
    positions: Expr,
    n: i64,
    il: nat,
    i: int,
)
    requires
        il < n_layer,
        0 <= i < layer_needs(c).len(),
    ensures
        reads(
            after_layers(c, n_layer, tokens, positions, n),
            block_name(il, layer_needs(c)[i]),
        ),
    decreases n_layer,
{
    let last = (n_layer - 1) as nat;
    let before = after_layers(c, last, tokens, positions, n);
    let name = block_name(il, layer_needs(c)[i]);
    a_layer_reads_what_it_asks_for(c, last, before, positions, n, name);
    if il < last {
        every_layer_has_a_part(c, last, tokens, positions, n, il, i);
    }
}

/// The logits are those of the last position: the stateless pass comes to what the output
/// step computes of that position's activations alone.
pub proof fn logits_are_of_the_last_position<V>(
    r: Reading<V>,
    c: Qwen3Config,
    bound: Seq<Seq<char>>,
    tokens: Expr,
    positions: Expr,
    n: i64,
    row: spec_fn(V, int) -> V,
)
    requires
        forall|x: V, p: int|
            #[trigger] row(x, p) == on1(
                r,
                Op::View2d {
                    n0: c.n_embd as i64,
                    n1: 1,
                    stride: (c.n_embd * 4) as usize,
                    offset: (p * c.n_embd * 4) as usize,
                },
                x,
            ),
        (r.input)(Slot::Activations, c.n_embd as int, 1, 1) == row(
            value(r, after_layers(c, c.n_layer as nat, tokens, positions, n)),
            n - 1,
        ),
    ensures
        value(r, pass_out(c, bound, tokens, positions, n)) == value(
            r,
            e1(Op::Softcap { cap: c.final_logit_softcap }, logits_of(c, bound, 1)),
        ),
{
    broadcast use group_values;

}

/// Logits read the output's norm and its projection, which is the embeddings where no
/// other is bound.
pub proof fn logits_read_norm_and_projection(c: Qwen3Config, bound: Seq<Seq<char>>, n: int)
    ensures
        forall|name: Seq<char>|
            #[trigger] reads(logits_of(c, bound, n), name) <==> name == "output_norm.weight"@
                || name == (if bound.contains("output.weight"@) {
                "output.weight"@
            } else {
                "token_embd.weight"@
            }),
{
    broadcast use group_reads;

}

/// Embeddings are scaled by the square root of their width where the model says so, and
/// are otherwise the rows of the table.
pub proof fn scaled_embeddings_are_embeddings_scaled<V>(
    r: Reading<V>,
    c: Qwen3Config,
    d: Qwen3Config,
    tokens: Expr,
)
    requires
        c.scale_embeddings,
        d == (Qwen3Config { scale_embeddings: false, ..c }),
    ensures
        value(r, embedded_rows(c, tokens)) == on1(
            r,
            Op::ScaleBySqrt { of: c.n_embd },
            value(r, embedded_rows(d, tokens)),
        ),
        value(r, embedded_rows(d, tokens)) == on2(
            r,
            Op::GetRows,
            (r.weight)("token_embd.weight"@),
            value(r, tokens),
        ),
{
    broadcast use group_values;

}

// ------------------------------------------------------------------ step by step

/// A pass taken step by step computes what a whole pass does: attention over a history
/// that holds the pass's own keys and values is the layer's attention.
pub proof fn steps_attend_as_a_whole_pass_does<V>(
    r: Reading<V>,
    c: Qwen3Config,
    il: nat,
    n: int,
)
    requires
        0 <= n <= i32::MAX,
        fuses_attention(r, c),
        ({
            let made = new_qkv(c, il, n, 0);
            let d = c.head_dim as int;
            // The queries of the step before, and the keys and values it stored.
            &&& (r.input)(Slot::Queries, d, c.n_head as int, n) == value(r, made[0])
            &&& (r.input)(Slot::CachedKeys, d, c.n_head_kv as int, n) == value(r, made[1])
            &&& (r.input)(Slot::CachedValues, d, c.n_head_kv as int, n) == on1(
                r,
                Op::Reshape3d { n0: c.head_dim as i64, n1: c.n_head_kv as i64, n2: n as i64 },
                value(r, made[2]),
            )
        }),
        // Both masks hide the same keys.
        (r.halves)(n, n, mask_bytes(n, n, causal(0, layer_window(c, il as int) as int)))
            == (r.floats)(n, n, causal_bits(n, layer_window(c, il as int) as int)),
    ensures
        value(r, history_attended(c, il, n, n, 0)) == value(
            r,
            attention_out(
                c,
                il,
                held(Slot::Activations, c.n_embd as int, n, 1),
                Expr::Ints { n0: n, n1: 1, values: positions_from(0, n) },
                n as i64,
                c.rope_params(),
                c.rope_type,
            ),
        ),
{
    broadcast use group_values;

    let x = held(Slot::Activations, c.n_embd as int, n, 1);
    let at = Expr::Ints { n0: n, n1: 1, values: positions_from(0, n) };
    let (q, k, v) = qkv_of(c, il, x, n as i64);
    let tq = rotated(c, q, at, c.rope_type, c.rope_params());
    let tk = rotated(c, k, at, c.rope_type, c.rope_params());
    assert(new_qkv(c, il, n, 0)[0] == tq);
    assert(new_qkv(c, il, n, 0)[1] == tk);
    assert(new_qkv(c, il, n, 0)[2] == v);
    let d = c.head_dim as int;
    let hq = held(Slot::Queries, d, c.n_head as int, n);
    let hk = held(Slot::CachedKeys, d, c.n_head_kv as int, n);
    let hv = held(Slot::CachedValues, d, c.n_head_kv as int, n);
    let window = layer_window(c, il as int);
    let halves = mask_bytes(n, n, causal(0, window as int));
    let bits = causal_bits(n, window as int);
    fused_attention_is_explicit_attention(r, c, hq, hk, hv, n as i64, n as i64, halves, bits);
    a_pass_attends_as_over_its_own_history(r, c, tq, tk, v, hv, n as i64, window);
    assert(value(r, cached_attended(c, hq, hk, hv, n as i64, n as i64, bits)) == value(
        r,
        cached_attended(c, tq, tk, hv, n as i64, n as i64, bits),
    ));
}

/// The feed-forward step of a dense layer computes what the whole layer does behind its
/// attention.
pub proof fn steps_feed_forward_as_a_whole_pass_does<V>(
    r: Reading<V>,
    c: Qwen3Config,
    il: nat,
    x: Expr,
    positions: Expr,
    n: int,
)
    requires
        !c.moe(),
        0 <= n <= i32::MAX,
        (r.input)(Slot::FfnInput, c.n_embd as int, n, 1) == value(
            r,
            layer_entry(c, il, x, positions, n as i64),
        ),
    ensures
        value(r, fed_forward(c, il, n)[0]) == value(r, layer_out(c, il, x, positions, n as i64)),
{
    broadcast use group_values;

    let after = layer_entry(c, il, x, positions, n as i64);
    let f = held(Slot::FfnInput, c.n_embd as int, n, 1);
    let h = normed(c.rms_eps, after, w(il, "ffn_norm.weight"@));
    let k = normed(c.rms_eps, f, w(il, "ffn_norm.weight"@));
    assert(value(r, h) == value(r, k));
    assert(value(r, dense_out(c, il, h)) == value(r, dense_out(c, il, k)));
}

/// Both ways to run a mixture's layer hand the experts the same activations and route by
/// the same probabilities.
pub proof fn both_passes_route_alike<V>(
    r: Reading<V>,
    c: Qwen3Config,
    il: nat,
    n: int,
    positions: Seq<i32>,
)
    requires
        c.moe(),
        (r.input)(Slot::FfnInput, c.n_embd as int, n, 1) == value(
            r,
            uncached_layer(c, il, n, positions)[0],
        ),
    ensures
        value(r, fed_forward(c, il, n)[0]) == value(r, uncached_layer(c, il, n, positions)[1]),
        value(r, fed_forward(c, il, n)[1]) == value(r, uncached_layer(c, il, n, positions)[2]),
{
    broadcast use group_values;

}


/// A router's probabilities are the plain softmax of its logits, and as many experts are
/// picked by them as the model uses.
pub proof fn a_router_is_a_softmax<V>(
    r: Reading<V>,
    c: Qwen3Config,
    il: nat,
    x: Expr,
)
    requires
        forall|y: V|
            #[trigger] on1(
                r,
                Op::SoftMaxExt { scale: AttnScale::Bits(F32_ONE), max_bias: F32_ZERO },
                y,
            ) == on1(r, Op::SoftMax, y),
    ensures
        value(r, router(il, x)) == on1(
            r,
            Op::SoftMax,
            on2(
                r,
                Op::MulMat,
                (r.weight)(block_name(il, "ffn_gate_inp.weight"@)),
                value(r, x),
            ),
        ),
{
    broadcast use group_values;

}

/// Picking goes by the number of experts used: two models that differ only in how many
/// experts they hold compute the same.
pub proof fn only_used_experts_are_picked(
    c: Qwen3Config,
    d: Qwen3Config,
    il: nat,
    x: Expr,
    n: i64,
)
    requires
        d == (Qwen3Config { n_expert: d.n_expert, ..c }),
    ensures
        mixture_out(c, il, x, n) == mixture_out(d, il, x, n),
{
}

/// What an expert mixture sums are the picked experts' outputs, as many as the model
/// uses: where picking `k` makes everything behind it `k` wide, `n_expert_used` are
/// summed.
pub proof fn as_many_experts_are_summed_as_used<V>(
    r: Reading<V>,
    c: Qwen3Config,
    il: nat,
    x: Expr,
    n: i64,
    width: spec_fn(V) -> int,
)
    requires
        forall|k: i32, y: V| width(#[trigger] on1(r, Op::TopK { k }, y)) == k,
        forall|a: V, b: V, picked: V|
            width(#[trigger] on3(r, Op::MulMatId, a, b, picked)) == width(picked),
        forall|a: V, b: V| width(#[trigger] on2(r, Op::Mul, a, b)) == width(a),
        forall|y: V| width(#[trigger] on1(r, Op::SumRows, y)) == width(y),
    ensures
        width(value(r, mixture_out(c, il, x, n))) == c.n_expert_used as i32,
{
    broadcast use group_values;

}

/// What enters a layer's feed-forward reads exactly what its attention asks for and the
/// norm behind it.
pub proof fn an_entry_reads_its_own_norm(
    c: Qwen3Config,
    il: nat,
    x: Expr,
    positions: Expr,
    n: i64,
)
    requires
        !c.fused_qkv,
        !c.attn_bias,
        !c.qk_norm,
    ensures
        forall|name: Seq<char>|
            #[trigger] reads(layer_entry(c, il, x, positions, n), name) <==> name == block_name(
                il,
                "attn_norm.weight"@,
            ) || name == block_name(il, "attn_q.weight"@) || name == block_name(
                il,
                "attn_k.weight"@,
            ) || name == block_name(il, "attn_v.weight"@) || name == block_name(
                il,
                "attn_output.weight"@,
            ) || (c.post_norms && name == block_name(il, "post_attention_norm.weight"@)) || reads(
                x,
                name,
            ) || reads(positions, name),
{
    broadcast use group_reads;

}

} // verus!
