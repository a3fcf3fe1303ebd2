//! What a latent-attention block promises of the numbers it computes.
//!
//! Each law holds under every reading of the operations with the algebra it names, so it
//! speaks of what reaches the residual streams rather than of how a graph is written.
#[allow(unused_imports)]
use crate::deepseek4::{Deepseek4Config, LayerRope};
#[allow(unused_imports)]
use crate::deepseek4_forward::{block_attended, bound_suffixes, BlockPlan};
#[allow(unused_imports)]
use crate::deepseek4_graph::{
    attn_gates, attn_input, batch_positions, block_offsets, block_out, chosen_experts, clamped_swiglu, compressor_rows,
    compressor_scores, expert_shares, expert_sum, expert_view, fed, ffn_gates, ffn_input,
    gates_of, head_out,
    latent_attended, latents, limit_of, millionths, mixes_of, part_rotated,
    queries, router_scores, routing_weights, shared_out, stacked,
    streams_after, streams_of, summaries, windows, weighted_experts, SliceShapes, ROPE_MODE_NORM,
};
#[allow(unused_imports)]
use crate::deepseek4_cache::CompressorPlan;
#[allow(unused_imports)]
use crate::evaluation::{
    adds_nothing, agree_but, group_reads, group_values, on1, on2, on3, on4, on5, reads, value, Reading,
};
#[allow(unused_imports)]
use crate::float_bits::{
    negated, F32_INFINITY, F32_LEAST_NORMAL_HALF, F32_NEG_INFINITY, F32_TWO,
};
#[allow(unused_imports)]
use crate::graph::{e1, e2, e3, e5, AttnScale, Expr, Op, Slot};
#[allow(unused_imports)]
use crate::mask::{key_count, mask_bytes, two_halves};
#[allow(unused_imports)]
use crate::names::{block_name, block_names_differ};
#[allow(unused_imports)]
use crate::qwen3_graph::{normed, outer, w};
#[allow(unused_imports)]
use crate::stream_pass::{held, positions_from};
use vstd::prelude::*;

verus! {

// ------------------------------------------------------------------------ rotation

/// The turn of a layer's trailing dimensions by position, or back.
pub open spec fn turn(c: Deepseek4Config, rope: LayerRope, back: bool) -> Op {
    if back {
        Op::RopeExtBack {
            n_dims: c.n_rot as i32,
            mode: ROPE_MODE_NORM,
            n_ctx_orig: rope.n_ctx_orig,
            rope: rope.params,
        }
    } else {
        Op::RopeExt {
            n_dims: c.n_rot as i32,
            mode: ROPE_MODE_NORM,
            n_ctx_orig: rope.n_ctx_orig,
            rope: rope.params,
        }
    }
}

/// A run of `width` dimensions of each of `rows` heads of `n` positions, from dimension
/// `first` on.
pub open spec fn head_part(c: Deepseek4Config, first: int, width: int, rows: int, n: int) -> Op {
    Op::View3d {
        n0: width as i64,
        n1: rows as i64,
        n2: n as i64,
        stride1: (c.kv_lora_rank * 4) as usize,
        stride2: (c.kv_lora_rank * 4 * rows) as usize,
        offset: (first * 4) as usize,
    }
}

/// `rows` heads of `n` positions with their last `n_rot` dimensions turned at `at` and
/// the others left as they are.
pub open spec fn turned<V>(
    r: Reading<V>,
    c: Deepseek4Config,
    rows: int,
    n: int,
    rope: LayerRope,
    back: bool,
    x: V,
    at: V,
) -> V {
    let plain = c.plain_dims();
    on2(
        r,
        Op::Concat { dim: 0 },
        on1(r, head_part(c, 0, plain, rows, n), x),
        on2(
            r,
            turn(c, rope, back),
            on1(r, head_part(c, plain, c.n_rot as int, rows, n), x),
            at,
        ),
    )
}

/// Turning back at a position undoes turning at it.
pub open spec fn turning_back_undoes<V>(r: Reading<V>, c: Deepseek4Config, rope: LayerRope) -> bool {
    forall|x: V, at: V|
        on2(r, turn(c, rope, true), #[trigger] on2(r, turn(c, rope, false), x, at), at) == x
}

/// The parts of `rows` heads of `n` positions can be told apart and joined again, for
/// every value that `heads` holds of.
pub open spec fn parts_rejoin<V>(
    r: Reading<V>,
    c: Deepseek4Config,
    rows: int,
    n: int,
    rope: LayerRope,
    heads: spec_fn(V, int) -> bool,
) -> bool {
    let still = head_part(c, 0, c.plain_dims(), rows, n);
    let moving = head_part(c, c.plain_dims(), c.n_rot as int, rows, n);
    forall|x: V, at: V|
        heads(x, rows) ==> {
            let y = on2(r, turn(c, rope, false), on1(r, moving, x), at);
            let whole = #[trigger] turned(r, c, rows, n, rope, false, x, at);
            &&& on1(r, still, whole) == on1(r, still, x)
            &&& on1(r, moving, whole) == y
            &&& on2(r, Op::Concat { dim: 0 }, on1(r, still, x), on1(r, moving, x)) == x
        }
}

/// What `n` positions' queries gather over keys that are also the values, head by head.
pub open spec fn gathered<V>(r: Reading<V>, c: Deepseek4Config, n: int, q: V, kv: V, mask: V, sinks: V) -> V {
    on1(
        r,
        Op::Reshape3d { n0: c.kv_lora_rank as i64, n1: c.n_head as i64, n2: n as i64 },
        on5(
            r,
            Op::FlashAttnSinks { scale: AttnScale::InverseSqrt(c.kv_lora_rank) },
            on1(r, Op::Permute { a0: 0, a1: 2, a2: 1, a3: 3 }, q),
            kv,
            kv,
            mask,
            sinks,
        ),
    )
}

/// Under a mask that `own` holds of, every query sees its own position alone. There a
/// query and a key turned alike score as they did unturned, so that what is gathered of
/// turned latents is what is gathered of the latents themselves, turned; and which such
/// mask it is makes no difference.
pub open spec fn sees_itself<V>(
    r: Reading<V>,
    c: Deepseek4Config,
    n: int,
    rope: LayerRope,
    heads: spec_fn(V, int) -> bool,
    own: spec_fn(V) -> bool,
) -> bool {
    &&& forall|q: V, kv: V, at: V, mask: V, sinks: V|
        own(mask) && heads(q, c.n_head as int) && heads(kv, 1) ==> #[trigger] gathered(
            r,
            c,
            n,
            turned(r, c, c.n_head as int, n, rope, false, q, at),
            turned(r, c, 1, n, rope, false, kv, at),
            mask,
            sinks,
        ) == turned(
            r,
            c,
            c.n_head as int,
            n,
            rope,
            false,
            gathered(r, c, n, q, kv, mask, sinks),
            at,
        )
    &&& forall|q: V, kv: V, mask: V, other: V, sinks: V|
        own(mask) && own(other) ==> #[trigger] gathered(r, c, n, q, kv, mask, sinks)
            == #[trigger] gathered(r, c, n, q, kv, other, sinks)
}

/// Heads are what a reshape to heads gives, and normalising leaves heads.
pub open spec fn makes_heads<V>(
    r: Reading<V>,
    c: Deepseek4Config,
    n: int,
    heads: spec_fn(V, int) -> bool,
) -> bool {
    &&& forall|x: V, rows: u32|
        heads(
            #[trigger] on1(
                r,
                Op::Reshape3d { n0: c.kv_lora_rank as i64, n1: rows as i64, n2: n as i64 },
                x,
            ),
            rows as int,
        )
    &&& forall|x: V, rows: int|
        heads(x, rows) ==> #[trigger] heads(on1(r, Op::RmsNorm { eps: c.rms_eps }, x), rows)
}

proof fn value_of_turned<V>(
    r: Reading<V>,
    c: Deepseek4Config,
    x: Expr,
    rows: int,
    n: int,
    at: Expr,
    rope: LayerRope,
    back: bool,
)
    ensures
        value(r, part_rotated(c, x, rows, n, at, rope, back)) == turned(
            r,
            c,
            rows,
            n,
            rope,
            back,
            value(r, x),
            value(r, at),
        ),
{
    broadcast use group_values;

}

proof fn same_operations<V>(
    r: Reading<V>,
    s: Reading<V>,
    c: Deepseek4Config,
    n: int,
    rope: LayerRope,
    heads: spec_fn(V, int) -> bool,
    own: spec_fn(V) -> bool,
)
    requires
        r.apply == s.apply,
        turning_back_undoes(r, c, rope),
        parts_rejoin(r, c, c.n_head as int, n, rope, heads),
        makes_heads(r, c, n, heads),
        sees_itself(r, c, n, rope, heads, own),
    ensures
        turning_back_undoes(s, c, rope),
        parts_rejoin(s, c, c.n_head as int, n, rope, heads),
        makes_heads(s, c, n, heads),
        sees_itself(s, c, n, rope, heads, own),
{
    let t = Reading { apply: r.apply, ..s };
    assert(t == s);
    assert(forall|op: Op, x: V| on1(s, op, x) == #[trigger] on1(r, op, x));
    assert(forall|op: Op, x: V| #[trigger] on1(s, op, x) == on1(r, op, x));
    assert(forall|op: Op, x: V, y: V| #[trigger] on2(s, op, x, y) == on2(r, op, x, y));
    assert(forall|op: Op, x: V, y: V| on2(s, op, x, y) == #[trigger] on2(r, op, x, y));
    assert forall|rows: int, back: bool, x: V, at: V| #[trigger]
        turned(s, c, rows, n, rope, back, x, at) == turned(r, c, rows, n, rope, back, x, at) by {}
    assert forall|q: V, kv: V, mask: V, sinks: V| #[trigger]
        gathered(s, c, n, q, kv, mask, sinks) == gathered(r, c, n, q, kv, mask, sinks) by {}
    assert forall|x: V, rows: u32| heads(
        #[trigger] on1(
            s,
            Op::Reshape3d { n0: c.kv_lora_rank as i64, n1: rows as i64, n2: n as i64 },
            x,
        ),
        rows as int,
    ) by {
        assert(heads(
            on1(
                r,
                Op::Reshape3d { n0: c.kv_lora_rank as i64, n1: rows as i64, n2: n as i64 },
                x,
            ),
            rows as int,
        ));
    }
}

/// The queries before they are turned.
spec fn query_heads(c: Deepseek4Config, il: nat, h: Expr, nt: int) -> Expr {
    e1(
        Op::RmsNorm { eps: c.rms_eps },
        e1(
            Op::Reshape3d { n0: c.kv_lora_rank as i64, n1: c.n_head as i64, n2: nt as i64 },
            e2(
                Op::MulMat,
                w(il, "attn_q_b.weight"@),
                normed(
                    c.rms_eps,
                    e2(Op::MulMat, w(il, "attn_q_a.weight"@), h),
                    w(il, "attn_q_a_norm.weight"@),
                ),
            ),
        ),
    )
}

/// The latents before they are turned.
spec fn latent_heads(c: Deepseek4Config, il: nat, h: Expr, nt: int) -> Expr {
    e1(
        Op::Reshape3d { n0: c.kv_lora_rank as i64, n1: 1, n2: nt as i64 },
        normed(
            c.rms_eps,
            e2(Op::MulMat, w(il, "attn_kv.weight"@), h),
            w(il, "attn_kv_a_norm.weight"@),
        ),
    )
}

/// What the block's attention projects, where every query sees itself alone.
spec fn gathered_unturned<V>(
    r: Reading<V>,
    c: Deepseek4Config,
    il: nat,
    h: Expr,
    nt: int,
    mask: V,
) -> V {
    gathered(
        r,
        c,
        nt,
        value(r, query_heads(c, il, h, nt)),
        value(r, latent_heads(c, il, h, nt)),
        mask,
        (r.weight)(block_name(il, "attn_sinks.weight"@)),
    )
}

/// The output projection, group by group.
spec fn projected_groups<V>(r: Reading<V>, c: Deepseek4Config, il: nat, nt: int, x: V) -> V {
    let wide = (c.n_head * c.kv_lora_rank / c.output_group_count as int) as i64;
    let groups = c.output_group_count as i64;
    let swap = Op::Permute { a0: 0, a1: 2, a2: 1, a3: 3 };
    on2(
        r,
        Op::MulMat,
        (r.weight)(block_name(il, "attn_output_b.weight"@)),
        on1(
            r,
            Op::Reshape2d {
                n0: (c.output_lora_rank * c.output_group_count) as i64,
                n1: nt as i64,
            },
            on1(
                r,
                Op::Cont,
                on1(
                    r,
                    swap,
                    on2(
                        r,
                        Op::MulMat,
                        on1(
                            r,
                            Op::Reshape3d { n0: wide, n1: c.output_lora_rank as i64, n2: groups },
                            (r.weight)(block_name(il, "attn_output_a.weight"@)),
                        ),
                        on1(
                            r,
                            Op::Cont,
                            on1(
                                r,
                                swap,
                                on1(r, Op::Reshape3d { n0: wide, n1: groups, n2: nt as i64 }, x),
                            ),
                        ),
                    ),
                ),
            ),
        ),
    )
}

proof fn what_is_projected_is_unturned<V>(
    r: Reading<V>,
    c: Deepseek4Config,
    il: nat,
    h: Expr,
    nt: int,
    pos0: int,
    plan: BlockPlan,
    has_comp: bool,
    heads: spec_fn(V, int) -> bool,
    own: spec_fn(V) -> bool,
    mask: V,
)
    requires
        turning_back_undoes(r, c, plan.rope),
        parts_rejoin(r, c, c.n_head as int, nt, plan.rope, heads),
        makes_heads(r, c, nt, heads),
        sees_itself(r, c, nt, plan.rope, heads, own),
        (r.input)(Slot::CachedKeys, c.kv_lora_rank as int, key_count(has_comp), 1) == value(
            r,
            latents(c, il, h, nt, pos0, plan.rope),
        ),
        mask == (r.halves)(
            key_count(has_comp),
            nt,
            mask_bytes(
                nt,
                key_count(has_comp),
                two_halves(pos0, c.sliding_window as int, plan.ratio as int),
            ),
        ),
        own(mask),
    ensures
        value(r, block_attended(c, il, h, nt, pos0, plan, has_comp)) == projected_groups(
            r,
            c,
            il,
            nt,
            gathered_unturned(r, c, il, h, nt, mask),
        ),
{
    broadcast use group_values;

    let rope = plan.rope;
    let at = batch_positions(pos0, nt);
    let p = value(r, at);
    let qx = query_heads(c, il, h, nt);
    let kx = latent_heads(c, il, h, nt);
    let q = value(r, qx);
    let kv = value(r, kx);
    let sinks = (r.weight)(block_name(il, "attn_sinks.weight"@));
    value_of_turned(r, c, qx, c.n_head as int, nt, at, rope, false);
    value_of_turned(r, c, kx, 1, nt, at, rope, false);
    assert(queries(c, il, h, nt, pos0, rope) == part_rotated(
        c,
        qx,
        c.n_head as int,
        nt,
        at,
        rope,
        false,
    ));
    assert(latents(c, il, h, nt, pos0, rope) == part_rotated(c, kx, 1, nt, at, rope, false));
    assert(heads(q, c.n_head as int));
    assert(heads(kv, 1u32 as int));
    let y = gathered(r, c, nt, q, kv, mask, sinks);
    assert(heads(y, c.n_head as int));
    let gath = gathered(
        r,
        c,
        nt,
        turned(r, c, c.n_head as int, nt, rope, false, q, p),
        turned(r, c, 1, nt, rope, false, kv, p),
        mask,
        sinks,
    );
    let n_head = c.n_head as int;
    let whole = turned(r, c, n_head, nt, rope, false, y, p);
    assert(gath == whole);
    let moving = head_part(c, c.plain_dims(), c.n_rot as int, n_head, nt);
    assert(turned(r, c, n_head, nt, rope, true, whole, p) == y) by {
        assert(on1(r, moving, whole) == on2(r, turn(c, rope, false), on1(r, moving, y), p));
    }
    let out = e1(
        Op::Reshape3d { n0: c.kv_lora_rank as i64, n1: c.n_head as i64, n2: nt as i64 },
        e5(
            Op::FlashAttnSinks { scale: AttnScale::InverseSqrt(c.kv_lora_rank) },
            e1(
                Op::Permute { a0: 0, a1: 2, a2: 1, a3: 3 },
                queries(c, il, h, nt, pos0, rope),
            ),
            held(Slot::CachedKeys, c.kv_lora_rank as int, key_count(has_comp), 1),
            held(Slot::CachedKeys, c.kv_lora_rank as int, key_count(has_comp), 1),
            Expr::Halves {
                n0: key_count(has_comp),
                n1: nt,
                bytes: mask_bytes(
                    nt,
                    key_count(has_comp),
                    two_halves(pos0, c.sliding_window as int, plan.ratio as int),
                ),
            },
            w(il, "attn_sinks.weight"@),
        ),
    );
    assert(value(r, out) == gath);
    value_of_turned(r, c, out, n_head, nt, at, rope, true);
    assert(value(r, part_rotated(c, out, n_head, nt, at, rope, true)) == y);
}

/// No rotation is left in what attention hands to its output projection: of queries that
/// see their own position alone, the block's attention comes to the same wherever the
/// batch stands. The latents are turned once when they are stored, the queries once
/// beside them, and what is gathered is turned back at the same positions.
pub proof fn attention_leaves_no_rotation<V>(
    r: Reading<V>,
    s: Reading<V>,
    c: Deepseek4Config,
    il: nat,
    h: Expr,
    nt: int,
    pos0: int,
    elsewhere: int,
    plan: BlockPlan,
    has_comp: bool,
    heads: spec_fn(V, int) -> bool,
    own: spec_fn(V) -> bool,
)
    requires
        r.apply == s.apply,
        r.weight == s.weight,
        r.ints == s.ints,
        r.halves == s.halves,
        value(r, h) == value(s, h),
        turning_back_undoes(r, c, plan.rope),
        parts_rejoin(r, c, c.n_head as int, nt, plan.rope, heads),
        makes_heads(r, c, nt, heads),
        sees_itself(r, c, nt, plan.rope, heads, own),
        // Each history holds the batch's own latents.
        (r.input)(Slot::CachedKeys, c.kv_lora_rank as int, key_count(has_comp), 1) == value(
            r,
            latents(c, il, h, nt, pos0, plan.rope),
        ),
        (s.input)(Slot::CachedKeys, c.kv_lora_rank as int, key_count(has_comp), 1) == value(
            s,
            latents(c, il, h, nt, elsewhere, plan.rope),
        ),
        // Each batch sees nothing but itself, position by position.
        own(
            (r.halves)(
                key_count(has_comp),
                nt,
                mask_bytes(
                    nt,
                    key_count(has_comp),
                    two_halves(pos0, c.sliding_window as int, plan.ratio as int),
                ),
            ),
        ),
        own(
            (s.halves)(
                key_count(has_comp),
                nt,
                mask_bytes(
                    nt,
                    key_count(has_comp),
                    two_halves(elsewhere, c.sliding_window as int, plan.ratio as int),
                ),
            ),
        ),
    ensures
        value(r, block_attended(c, il, h, nt, pos0, plan, has_comp)) == value(
            s,
            block_attended(c, il, h, nt, elsewhere, plan, has_comp),
        ),
{
    broadcast use group_values;

    let here = mask_bytes(
        nt,
        key_count(has_comp),
        two_halves(pos0, c.sliding_window as int, plan.ratio as int),
    );
    let there = mask_bytes(
        nt,
        key_count(has_comp),
        two_halves(elsewhere, c.sliding_window as int, plan.ratio as int),
    );
    let m = (r.halves)(key_count(has_comp), nt, here);
    let k = (s.halves)(key_count(has_comp), nt, there);
    same_operations(r, s, c, nt, plan.rope, heads, own);
    what_is_projected_is_unturned(r, c, il, h, nt, pos0, plan, has_comp, heads, own, m);
    what_is_projected_is_unturned(s, c, il, h, nt, elsewhere, plan, has_comp, heads, own, k);
    assert(gathered_unturned(r, c, il, h, nt, m) == gathered_unturned(r, c, il, h, nt, k));
    assert(gathered_unturned(r, c, il, h, nt, k) == gathered_unturned(s, c, il, h, nt, k));
}


/// The tokens of a batch stand one behind the other from where it begins, and a batch
/// goes on where the one before it ended: cutting a batch in two leaves every token where
/// it stood.
pub proof fn batches_go_on_counting(pos0: int, first: int, second: int, i: int)
    requires
        0 <= pos0,
        0 <= first,
        0 <= second,
        pos0 + first + second <= i32::MAX,
        0 <= i < first + second,
    ensures
        batch_positions(pos0, first + second)->Ints_values[i] == pos0 + i,
        batch_positions(pos0, first + second)->Ints_values == batch_positions(
            pos0,
            first,
        )->Ints_values + batch_positions(pos0 + first, second)->Ints_values,
{
    assert(positions_from(pos0, first + second) =~= positions_from(pos0, first) + positions_from(
        pos0 + first,
        second,
    ));
}

// -------------------------------------------------------------------- feed-forward

/// Every run of `zero` is `zero`.
pub open spec fn runs_of_zero<V>(r: Reading<V>, zero: V) -> bool {
    forall|n0: i64, n1: i64, stride: usize, offset: usize|
        #[trigger] on1(r, Op::View2d { n0, n1, stride, offset }, zero) == zero
}

/// The run of a token's chosen experts that the `j`th one fills.
pub open spec fn expert_run(c: Deepseek4Config, nt: int, j: int) -> Op {
    Op::View2d {
        n0: c.n_embd as i64,
        n1: nt as i64,
        stride: (c.n_embd * 4 * c.n_expert_used) as usize,
        offset: (j * (c.n_embd * 4)) as usize,
    }
}

/// Every chosen expert counts, and counts once: where all but the `j`th give nothing, the
/// sum is what the `j`th gives.
pub proof fn every_chosen_expert_counts_once<V>(
    r: Reading<V>,
    c: Deepseek4Config,
    all: Expr,
    nt: int,
    n: int,
    j: int,
    zero: V,
)
    requires
        0 <= j < n,
        adds_nothing(r, zero),
        forall|k: int|
            0 <= k < n && k != j ==> #[trigger] on1(r, expert_run(c, nt, k), value(r, all)) == zero,
    ensures
        value(r, expert_sum(c, all, nt, n)) == on1(r, expert_run(c, nt, j), value(r, all)),
    decreases n,
{
    broadcast use group_values;

    let all_v = value(r, all);
    assert(value(r, expert_view(c, all, nt, n - 1)) == on1(r, expert_run(c, nt, n - 1), all_v));
    if n > 1 {
        if j < n - 1 {
            every_chosen_expert_counts_once(r, c, all, nt, n - 1, j, zero);
        } else {
            no_expert_adds_nothing(r, c, all, nt, n - 1, zero);
        }
    }
}

proof fn no_expert_adds_nothing<V>(
    r: Reading<V>,
    c: Deepseek4Config,
    all: Expr,
    nt: int,
    n: int,
    zero: V,
)
    requires
        1 <= n,
        adds_nothing(r, zero),
        forall|k: int|
            0 <= k < n ==> #[trigger] on1(r, expert_run(c, nt, k), value(r, all)) == zero,
    ensures
        value(r, expert_sum(c, all, nt, n)) == zero,
    decreases n,
{
    broadcast use group_values;

    let all_v = value(r, all);
    assert(value(r, expert_view(c, all, nt, n - 1)) == on1(r, expert_run(c, nt, n - 1), all_v));
    if n > 1 {
        no_expert_adds_nothing(r, c, all, nt, n - 1, zero);
    }
}

/// The shared expert runs for every token, in addition to the routed ones: with every
/// routing weight at zero the feed-forward is the shared expert's output, whatever was
/// chosen.
pub proof fn without_routing_the_shared_expert_is_left<V>(
    r: Reading<V>,
    c: Deepseek4Config,
    il: nat,
    h: Expr,
    weights: Expr,
    shapes: SliceShapes,
    ids: Seq<i32>,
    n: int,
    nt: int,
    zero: V,
)
    requires
        c.n_expert_used >= 1,
        adds_nothing(r, zero),
        runs_of_zero(r, zero),
        forall|x: V| #[trigger] on2(r, Op::Mul, x, zero) == zero,
        value(r, weights) == zero,
    ensures
        value(r, fed(c, il, h, weights, shapes, ids, n, nt)) == value(r, shared_out(c, il, h)),
{
    broadcast use group_values;

    let all = weighted_experts(c, il, h, weights, shapes, ids, n, nt);
    assert(value(r, all) == zero);
    assert forall|k: int| 0 <= k < c.n_expert_used implies #[trigger] on1(
        r,
        expert_run(c, nt, k),
        value(r, all),
    ) == zero by {}
    no_expert_adds_nothing(r, c, all, nt, c.n_expert_used as int, zero);
}

/// The routed experts are all the rest: with the shared expert's projection at zero the
/// feed-forward is the sum of the chosen experts.
pub proof fn without_the_shared_expert_the_routed_are_left<V>(
    r: Reading<V>,
    c: Deepseek4Config,
    il: nat,
    h: Expr,
    weights: Expr,
    shapes: SliceShapes,
    ids: Seq<i32>,
    n: int,
    nt: int,
    zero: V,
)
    requires
        adds_nothing(r, zero),
        forall|x: V|
            #[trigger] on2(
                r,
                Op::MulMat,
                (r.weight)(block_name(il, "ffn_down_shexp.weight"@)),
                x,
            ) == zero,
    ensures
        value(r, fed(c, il, h, weights, shapes, ids, n, nt)) == value(
            r,
            expert_sum(
                c,
                weighted_experts(c, il, h, weights, shapes, ids, n, nt),
                nt,
                c.n_expert_used as int,
            ),
        ),
{
    broadcast use group_values;

}

/// A routed expert computes what the shared one does: one slice chosen with weight one,
/// of stacks that hold the shared expert's own matrices and under its clamp, gives the
/// shared expert's output.
pub proof fn a_routed_expert_computes_as_the_shared_one<V>(
    r: Reading<V>,
    c: Deepseek4Config,
    il: nat,
    h: Expr,
    weights: Expr,
    shapes: SliceShapes,
    ids: Seq<i32>,
    nt: int,
    one: V,
)
    requires
        c.n_expert_used == 1,
        c.clamp_of(il as int, true) == c.clamp_of(il as int, false),
        (r.weight)(block_name(il, "ffn_gate_exps.weight"@)) == (r.weight)(
            block_name(il, "ffn_gate_shexp.weight"@),
        ),
        (r.weight)(block_name(il, "ffn_up_exps.weight"@)) == (r.weight)(
            block_name(il, "ffn_up_shexp.weight"@),
        ),
        (r.weight)(block_name(il, "ffn_down_exps.weight"@)) == (r.weight)(
            block_name(il, "ffn_down_shexp.weight"@),
        ),
        // Reshaping to a stack of one slice, or to one row per token, changes no value.
        forall|n0: i64, n1: i64, n2: i64, x: V|
            #[trigger] on1(r, Op::Reshape3d { n0, n1, n2 }, x) == x,
        // Of a single slice every token picks that one.
        forall|matrix: V, x: V, picked: V|
            #[trigger] on3(r, Op::MulMatId, matrix, x, picked) == on2(r, Op::MulMat, matrix, x),
        forall|x: V| #[trigger] on2(r, Op::Mul, x, one) == x,
        forall|x: V| #[trigger] on1(r, expert_run(c, nt, 0), x) == x,
        value(r, weights) == one,
    ensures
        value(
            r,
            expert_sum(c, weighted_experts(c, il, h, weights, shapes, ids, 1, nt), nt, 1),
        ) == value(r, shared_out(c, il, h)),
{
    broadcast use group_values;

    let all = weighted_experts(c, il, h, weights, shapes, ids, 1, nt);
    let gate = on2(r, Op::MulMat, (r.weight)(block_name(il, "ffn_gate_shexp.weight"@)), value(r, h));
    let up = on2(r, Op::MulMat, (r.weight)(block_name(il, "ffn_up_shexp.weight"@)), value(r, h));
    let limit = limit_of(c, il as int, true);
    assert(limit == limit_of(c, il as int, false));
    let picked = Expr::Ints { n0: c.n_expert_used as int, n1: nt, values: ids };
    let x = e1(Op::Reshape3d { n0: c.n_embd as i64, n1: 1, n2: nt as i64 }, h);
    let g = e3(Op::MulMatId, stacked(il, "ffn_gate_exps.weight"@, shapes.gate, 1), x, picked);
    let u = e3(Op::MulMatId, stacked(il, "ffn_up_exps.weight"@, shapes.up, 1), x, picked);
    assert(value(r, g) == gate);
    assert(value(r, u) == up);
    assert(value(r, clamped_swiglu(g, u, limit)) == on2(
        r,
        Op::SwigluSplit,
        on1(r, Op::Clamp { low: F32_NEG_INFINITY, high: limit }, gate),
        on1(r, Op::Clamp { low: negated(limit), high: limit }, up),
    ));
    assert(value(r, all) == value(r, shared_out(c, il, h)));
    assert(value(r, expert_view(c, all, nt, 0)) == on1(r, expert_run(c, nt, 0), value(r, all)));
}

proof fn block_suffixes_tell_blocks_apart(il: nat, a: Seq<char>, b: Seq<char>)
    ensures
        block_name(il, a) == block_name(il, b) <==> a == b,
{
    block_names_differ(il, a, il, b);
}

proof fn gated_alike<V>(r: Reading<V>, s: Reading<V>, gate: Expr, up: Expr, limit: u32)
    requires
        r.apply == s.apply,
        (value(r, gate) == value(s, gate) && forall|a: V, b: V, d: V|
            #[trigger] on2(r, Op::SwigluSplit, a, b) == #[trigger] on2(r, Op::SwigluSplit, a, d))
            || (value(r, up) == value(s, up) && forall|a: V, b: V, d: V|
            #[trigger] on2(r, Op::SwigluSplit, a, d) == #[trigger] on2(r, Op::SwigluSplit, b, d)),
    ensures
        value(r, clamped_swiglu(gate, up, limit)) == value(s, clamped_swiglu(gate, up, limit)),
{
    broadcast use group_values;

    let above = Op::Clamp { low: F32_NEG_INFINITY, high: limit };
    let both = Op::Clamp { low: negated(limit), high: limit };
    let (a, b) = (on1(r, above, value(r, gate)), on1(r, both, value(r, up)));
    let (x, y) = (on1(s, above, value(s, gate)), on1(s, both, value(s, up)));
    assert(on2(r, Op::SwigluSplit, a, b) == on2(r, Op::SwigluSplit, x, y));
    assert(on2(r, Op::SwigluSplit, x, y) == on2(s, Op::SwigluSplit, x, y));
}

/// The up projections are what is gated and reach nothing else: where the gated product
/// does not depend on its second operand, no up projection has any influence.
pub proof fn up_projections_are_what_is_gated<V>(
    r: Reading<V>,
    s: Reading<V>,
    c: Deepseek4Config,
    il: nat,
    h: Expr,
    weights: Expr,
    shapes: SliceShapes,
    ids: Seq<i32>,
    n: int,
    nt: int,
)
    requires
        agree_but(
            r,
            s,
            set![
                block_name(il, "ffn_up_shexp.weight"@),
                block_name(il, "ffn_up_exps.weight"@),
            ],
        ),
        value(r, h) == value(s, h),
        value(r, weights) == value(s, weights),
        forall|a: V, b: V, d: V|
            #[trigger] on2(r, Op::SwigluSplit, a, b) == #[trigger] on2(r, Op::SwigluSplit, a, d),
    ensures
        value(r, fed(c, il, h, weights, shapes, ids, n, nt)) == value(
            s,
            fed(c, il, h, weights, shapes, ids, n, nt),
        ),
{
    broadcast use group_values;

    ffn_suffixes_differ();
    ffn_names_differ(il);
    let picked = Expr::Ints { n0: c.n_expert_used as int, n1: nt, values: ids };
    let x = e1(Op::Reshape3d { n0: c.n_embd as i64, n1: 1, n2: nt as i64 }, h);
    let g = e3(Op::MulMatId, stacked(il, "ffn_gate_exps.weight"@, shapes.gate, n), x, picked);
    let u = e3(Op::MulMatId, stacked(il, "ffn_up_exps.weight"@, shapes.up, n), x, picked);
    gated_alike(r, s, g, u, limit_of(c, il as int, false));
    gated_alike(
        r,
        s,
        e2(Op::MulMat, w(il, "ffn_gate_shexp.weight"@), h),
        e2(Op::MulMat, w(il, "ffn_up_shexp.weight"@), h),
        limit_of(c, il as int, true),
    );
    let all = weighted_experts(c, il, h, weights, shapes, ids, n, nt);
    assert(value(r, all) == value(s, all));
    sums_follow_their_parts(r, s, c, all, nt, c.n_expert_used as int);
}

/// The gating projections only let others through: where the gated product does
/// not depend on its first operand, no gating projection has any influence.
pub proof fn gate_projections_are_the_gate<V>(
    r: Reading<V>,
    s: Reading<V>,
    c: Deepseek4Config,
    il: nat,
    h: Expr,
    weights: Expr,
    shapes: SliceShapes,
    ids: Seq<i32>,
    n: int,
    nt: int,
)
    requires
        agree_but(
            r,
            s,
            set![
                block_name(il, "ffn_gate_shexp.weight"@),
                block_name(il, "ffn_gate_exps.weight"@),
            ],
        ),
        value(r, h) == value(s, h),
        value(r, weights) == value(s, weights),
        forall|a: V, b: V, d: V|
            #[trigger] on2(r, Op::SwigluSplit, a, d) == #[trigger] on2(r, Op::SwigluSplit, b, d),
    ensures
        value(r, fed(c, il, h, weights, shapes, ids, n, nt)) == value(
            s,
            fed(c, il, h, weights, shapes, ids, n, nt),
        ),
{
    broadcast use group_values;

    ffn_suffixes_differ();
    ffn_names_differ(il);
    let picked = Expr::Ints { n0: c.n_expert_used as int, n1: nt, values: ids };
    let x = e1(Op::Reshape3d { n0: c.n_embd as i64, n1: 1, n2: nt as i64 }, h);
    let g = e3(Op::MulMatId, stacked(il, "ffn_gate_exps.weight"@, shapes.gate, n), x, picked);
    let u = e3(Op::MulMatId, stacked(il, "ffn_up_exps.weight"@, shapes.up, n), x, picked);
    gated_alike(r, s, g, u, limit_of(c, il as int, false));
    gated_alike(
        r,
        s,
        e2(Op::MulMat, w(il, "ffn_gate_shexp.weight"@), h),
        e2(Op::MulMat, w(il, "ffn_up_shexp.weight"@), h),
        limit_of(c, il as int, true),
    );
    let all = weighted_experts(c, il, h, weights, shapes, ids, n, nt);
    assert(value(r, all) == value(s, all));
    sums_follow_their_parts(r, s, c, all, nt, c.n_expert_used as int);
}

proof fn sums_follow_their_parts<V>(
    r: Reading<V>,
    s: Reading<V>,
    c: Deepseek4Config,
    all: Expr,
    nt: int,
    n: int,
)
    requires
        r.apply == s.apply,
        value(r, all) == value(s, all),
    ensures
        value(r, expert_sum(c, all, nt, n)) == value(s, expert_sum(c, all, nt, n)),
    decreases n,
{
    broadcast use group_values;

    if n > 1 {
        sums_follow_their_parts(r, s, c, all, nt, n - 1);
    }
}

proof fn ffn_suffixes_differ()
    ensures
        "ffn_up_shexp.weight"@ != "ffn_gate_shexp.weight"@,
        "ffn_up_shexp.weight"@ != "ffn_down_shexp.weight"@,
        "ffn_up_shexp.weight"@ != "ffn_gate_exps.weight"@,
        "ffn_up_shexp.weight"@ != "ffn_down_exps.weight"@,
        "ffn_up_exps.weight"@ != "ffn_gate_shexp.weight"@,
        "ffn_up_exps.weight"@ != "ffn_down_shexp.weight"@,
        "ffn_up_exps.weight"@ != "ffn_gate_exps.weight"@,
        "ffn_up_exps.weight"@ != "ffn_down_exps.weight"@,
        "ffn_gate_shexp.weight"@ != "ffn_down_shexp.weight"@,
        "ffn_gate_shexp.weight"@ != "ffn_down_exps.weight"@,
        "ffn_gate_exps.weight"@ != "ffn_down_shexp.weight"@,
        "ffn_gate_exps.weight"@ != "ffn_down_exps.weight"@,
{
    reveal_strlit("ffn_up_shexp.weight");
    reveal_strlit("ffn_up_exps.weight");
    reveal_strlit("ffn_gate_shexp.weight");
    reveal_strlit("ffn_gate_exps.weight");
    reveal_strlit("ffn_down_shexp.weight");
    reveal_strlit("ffn_down_exps.weight");
    assert("ffn_up_shexp.weight"@[4] == 'u' && "ffn_up_exps.weight"@[4] == 'u');
    assert("ffn_gate_shexp.weight"@[4] == 'g' && "ffn_gate_exps.weight"@[4] == 'g');
    assert("ffn_down_shexp.weight"@[4] == 'd' && "ffn_down_exps.weight"@[4] == 'd');
}

proof fn ffn_names_differ(il: nat)
    ensures
        forall|a: Seq<char>, b: Seq<char>|
            #[trigger] block_name(il, a) == #[trigger] block_name(il, b) <==> a == b,
{
    assert forall|a: Seq<char>, b: Seq<char>|
        #[trigger] block_name(il, a) == #[trigger] block_name(il, b) <==> a == b by {
        block_suffixes_tell_blocks_apart(il, a, b);
    }
}

// ------------------------------------------------------------------ what is read

/// Queries come from the low-rank query projections of what entered attention, and from
/// no other weight.
pub proof fn queries_read_their_projections(c: Deepseek4Config, il: nat, h: Expr, nt: int, pos0: int, rope: LayerRope)
    ensures
        forall|name: Seq<char>|
            #[trigger] reads(queries(c, il, h, nt, pos0, rope), name) <==> name == block_name(il, "attn_q_a.weight"@)
                || name == block_name(il, "attn_q_a_norm.weight"@)
                || name == block_name(il, "attn_q_b.weight"@)
                || reads(h, name),
{
    broadcast use group_reads;

}

/// Latents come from their own projection of what entered attention, and from no other
/// weight.
pub proof fn latents_read_their_projection(c: Deepseek4Config, il: nat, h: Expr, nt: int, pos0: int, rope: LayerRope)
    ensures
        forall|name: Seq<char>|
            #[trigger] reads(latents(c, il, h, nt, pos0, rope), name) <==> name == block_name(il, "attn_kv.weight"@)
                || name == block_name(il, "attn_kv_a_norm.weight"@)
                || reads(h, name),
{
    broadcast use group_reads;

}

/// Attention adds the sinks and both output projections to what its queries read.
pub proof fn attention_reads_sinks_and_output(c: Deepseek4Config, il: nat, q: Expr, nt: int, pos0: int, n_kv: int, mask: Seq<u8>, rope: LayerRope)
    ensures
        forall|name: Seq<char>|
            #[trigger] reads(latent_attended(c, il, q, nt, pos0, n_kv, mask, rope), name) <==> name == block_name(il, "attn_sinks.weight"@)
                || name == block_name(il, "attn_output_a.weight"@)
                || name == block_name(il, "attn_output_b.weight"@)
                || reads(q, name),
{
    broadcast use group_reads;

}

/// What the attention reads is gated and normed by its own weights.
pub proof fn attn_input_reads_its_gates(c: Deepseek4Config, il: nat, x: Expr, nt: int)
    ensures
        forall|name: Seq<char>|
            #[trigger] reads(attn_input(c, il, x, nt), name) <==> name == block_name(il, "hc_attn_fn.weight"@)
                || name == block_name(il, "hc_attn_scale.weight"@)
                || name == block_name(il, "hc_attn_base.weight"@)
                || name == block_name(il, "attn_norm.weight"@)
                || reads(x, name),
{
    broadcast use group_reads;

}

/// What the feed-forward reads is gated and normed by its own weights.
pub proof fn ffn_input_reads_its_gates(c: Deepseek4Config, il: nat, x: Expr, nt: int)
    ensures
        forall|name: Seq<char>|
            #[trigger] reads(ffn_input(c, il, x, nt), name) <==> name == block_name(il, "hc_ffn_fn.weight"@)
                || name == block_name(il, "hc_ffn_scale.weight"@)
                || name == block_name(il, "hc_ffn_base.weight"@)
                || name == block_name(il, "ffn_norm.weight"@)
                || reads(x, name),
{
    broadcast use group_reads;

}

/// Attention is written back through the gates in front of it.
pub proof fn streams_after_attention_read_its_gates(c: Deepseek4Config, il: nat, x: Expr, out: Expr, nt: int)
    ensures
        forall|name: Seq<char>|
            #[trigger] reads(streams_after(c, il, x, out, nt), name) <==> name == block_name(il, "hc_attn_fn.weight"@)
                || name == block_name(il, "hc_attn_scale.weight"@)
                || name == block_name(il, "hc_attn_base.weight"@)
                || reads(x, name)
                || reads(out, name),
{
    broadcast use group_reads;

}

/// The feed-forward is written back through the gates in front of it.
pub proof fn streams_handed_on_read_their_gates(c: Deepseek4Config, il: nat, x: Expr, out: Expr, nt: int)
    ensures
        forall|name: Seq<char>|
            #[trigger] reads(block_out(c, il, x, out, nt), name) <==> name == block_name(il, "hc_ffn_fn.weight"@)
                || name == block_name(il, "hc_ffn_scale.weight"@)
                || name == block_name(il, "hc_ffn_base.weight"@)
                || reads(x, name)
                || reads(out, name),
{
    broadcast use group_reads;

}

/// The shared expert reads its three projections.
pub proof fn the_shared_expert_reads_three_weights(c: Deepseek4Config, il: nat, h: Expr)
    ensures
        forall|name: Seq<char>|
            #[trigger] reads(shared_out(c, il, h), name) <==> name == block_name(il, "ffn_gate_shexp.weight"@)
                || name == block_name(il, "ffn_up_shexp.weight"@)
                || name == block_name(il, "ffn_down_shexp.weight"@)
                || reads(h, name),
{
    broadcast use group_reads;

}

proof fn sums_read_their_parts(c: Deepseek4Config, all: Expr, nt: int, n: int)
    ensures
        forall|name: Seq<char>|
            #[trigger] reads(expert_sum(c, all, nt, n), name) <==> reads(all, name),
    decreases n,
{
    broadcast use group_reads;

    if n > 1 {
        sums_read_their_parts(c, all, nt, n - 1);
    }
    assert forall|name: Seq<char>| #[trigger]
        reads(expert_sum(c, all, nt, n), name) <==> reads(all, name) by {}
}

/// The feed-forward reads the three stacks, the shared expert's three projections and the
/// routing weights.
pub proof fn the_feed_forward_reads_every_expert_weight(c: Deepseek4Config, il: nat, h: Expr, weights: Expr, shapes: SliceShapes, ids: Seq<i32>, n: int, nt: int)
    ensures
        forall|name: Seq<char>|
            #[trigger] reads(fed(c, il, h, weights, shapes, ids, n, nt), name) <==> name == block_name(il, "ffn_gate_exps.weight"@)
                || name == block_name(il, "ffn_up_exps.weight"@)
                || name == block_name(il, "ffn_down_exps.weight"@)
                || name == block_name(il, "ffn_gate_shexp.weight"@)
                || name == block_name(il, "ffn_up_shexp.weight"@)
                || name == block_name(il, "ffn_down_shexp.weight"@)
                || reads(h, name)
                || reads(weights, name),
{
    broadcast use group_reads;

    sums_read_their_parts(
        c,
        weighted_experts(c, il, h, weights, shapes, ids, n, nt),
        nt,
        c.n_expert_used as int,
    );
}

/// The first blocks choose by token id alone: nothing that was computed steers them.
pub proof fn hashed_blocks_choose_by_token_alone(c: Deepseek4Config, il: nat, h: Expr, tokens: Seq<i32>)
    requires
        il < c.hash_layer_count,
    ensures
        forall|name: Seq<char>|
            #[trigger] reads(chosen_experts(c, il, h, tokens), name) <==> name == block_name(il, "ffn_gate_tid2eid.weight"@),
{
    broadcast use group_reads;

}

/// The other blocks choose by the router's scores and the bias.
pub proof fn routed_blocks_choose_by_biased_score(c: Deepseek4Config, il: nat, h: Expr, tokens: Seq<i32>)
    requires
        il >= c.hash_layer_count,
    ensures
        forall|name: Seq<char>|
            #[trigger] reads(chosen_experts(c, il, h, tokens), name) <==> name == block_name(il, "ffn_gate_inp.weight"@)
                || name == block_name(il, "exp_probs_b.bias"@)
                || reads(h, name),
{
    broadcast use group_reads;

}

/// Routing weights come from the router's scores in every block, those that choose by
/// token id among them.
pub proof fn routing_weights_read_the_router(c: Deepseek4Config, il: nat, h: Expr, tokens: Seq<i32>)
    ensures
        forall|name: Seq<char>|
            #[trigger] reads(routing_weights(c, il, h, tokens), name) <==> name == block_name(
                il,
                "ffn_gate_inp.weight"@,
            ) || reads(h, name) || reads(chosen_experts(c, il, h, tokens), name),
{
    broadcast use group_reads;

}

/// The logits read the output's gates, norm and projection, and nothing of any block.
pub proof fn the_head_reads_its_own_weights(c: Deepseek4Config)
    ensures
        forall|name: Seq<char>|
            #[trigger] reads(head_out(c), name) <==> name == "output_hc_fn.weight"@
                || name == "output_hc_scale.weight"@
                || name == "output_hc_base.weight"@
                || name == "output_norm.weight"@
                || name == "output.weight"@,
{
    broadcast use group_reads;

}

/// Compressor scores come from their own projection and the table of places in a block.
pub proof fn compressor_scores_read_gate_and_place(il: nat, h: Expr, pos0: int, nt: int, ratio: int)
    ensures
        forall|name: Seq<char>|
            #[trigger] reads(compressor_scores(il, h, pos0, nt, ratio), name) <==> name == block_name(il, "attn_compressor_gate.weight"@)
                || name == block_name(il, "attn_compressor_ape.weight"@)
                || reads(h, name),
{
    broadcast use group_reads;

}

/// Compressor rows come from their own projection.
pub proof fn compressor_rows_read_their_projection(il: nat, h: Expr)
    ensures
        forall|name: Seq<char>|
            #[trigger] reads(compressor_rows(il, h), name) <==> name == block_name(il, "attn_compressor_kv.weight"@)
                || reads(h, name),
{
    broadcast use group_reads;

}

/// Summaries add their norm to rows and scores that were kept.
pub proof fn summaries_read_their_norm(c: Deepseek4Config, il: nat, plan: CompressorPlan, ratio: int, nt: int, overlap: bool, rope: LayerRope)
    ensures
        forall|name: Seq<char>|
            #[trigger] reads(summaries(c, il, plan, ratio, nt, overlap, rope), name) <==> name == block_name(il, "attn_compressor_norm.weight"@),
{
    broadcast use group_reads;

}

/// What a block hands on, from the streams that entered it.
pub open spec fn handed_on(
    c: Deepseek4Config,
    il: nat,
    x: Expr,
    tokens: Seq<i32>,
    pos0: int,
    plan: BlockPlan,
    has_comp: bool,
    shapes: SliceShapes,
    ids: Seq<i32>,
    n: int,
) -> Expr {
    let nt = tokens.len() as int;
    let h = attn_input(c, il, x, nt);
    let after = streams_after(c, il, x, block_attended(c, il, h, nt, pos0, plan, has_comp), nt);
    let f = ffn_input(c, il, after, nt);
    block_out(
        c,
        il,
        after,
        fed(c, il, f, routing_weights(c, il, f, tokens), shapes, ids, n, nt),
        nt,
    )
}

/// Every weight that a block binds has a part in what it computes: in the streams it
/// hands on, or in the latents it stores.
pub proof fn every_bound_weight_has_a_part(
    c: Deepseek4Config,
    il: nat,
    x: Expr,
    tokens: Seq<i32>,
    pos0: int,
    plan: BlockPlan,
    has_comp: bool,
    shapes: SliceShapes,
    ids: Seq<i32>,
    n: int,
    i: int,
)
    requires
        0 <= i < bound_suffixes().len(),
    ensures
        ({
            let name = block_name(il, bound_suffixes()[i]);
            let nt = tokens.len() as int;
            ||| reads(handed_on(c, il, x, tokens, pos0, plan, has_comp, shapes, ids, n), name)
            ||| reads(latents(c, il, attn_input(c, il, x, nt), nt, pos0, plan.rope), name)
        }),
{
    broadcast use group_reads;

    let nt = tokens.len() as int;
    let h = attn_input(c, il, x, nt);
    let q = queries(c, il, h, nt, pos0, plan.rope);
    let out = block_attended(c, il, h, nt, pos0, plan, has_comp);
    let after = streams_after(c, il, x, out, nt);
    let f = ffn_input(c, il, after, nt);
    let weights = routing_weights(c, il, f, tokens);
    let ffn_out = fed(c, il, f, weights, shapes, ids, n, nt);
    attn_input_reads_its_gates(c, il, x, nt);
    queries_read_their_projections(c, il, h, nt, pos0, plan.rope);
    latents_read_their_projection(c, il, h, nt, pos0, plan.rope);
    attention_reads_sinks_and_output(
        c,
        il,
        q,
        nt,
        pos0,
        key_count(has_comp),
        mask_bytes(
            nt,
            key_count(has_comp),
            two_halves(pos0, c.sliding_window as int, plan.ratio as int),
        ),
        plan.rope,
    );
    streams_after_attention_read_its_gates(c, il, x, out, nt);
    ffn_input_reads_its_gates(c, il, after, nt);
    routing_weights_read_the_router(c, il, f, tokens);
    the_feed_forward_reads_every_expert_weight(c, il, f, weights, shapes, ids, n, nt);
    streams_handed_on_read_their_gates(c, il, after, ffn_out, nt);
    let name = block_name(il, bound_suffixes()[i]);
    assert(reads(h, name) ==> reads(q, name));
    assert(reads(q, name) ==> reads(out, name));
    assert(reads(out, name) ==> reads(after, name));
    assert(reads(after, name) ==> reads(f, name));
    assert(reads(f, name) ==> reads(ffn_out, name));
    assert(reads(weights, name) ==> reads(ffn_out, name));
}

// ------------------------------------------------------------------------- routing

/// The bias steers which experts are chosen and nothing else: two biases under which the
/// same experts are chosen give the same routing weights.
pub proof fn the_bias_only_steers_the_choice<V>(
    r: Reading<V>,
    s: Reading<V>,
    c: Deepseek4Config,
    il: nat,
    h: Expr,
    tokens: Seq<i32>,
)
    requires
        agree_but(r, s, set![block_name(il, "exp_probs_b.bias"@)]),
        value(r, h) == value(s, h),
        value(r, chosen_experts(c, il, h, tokens)) == value(s, chosen_experts(c, il, h, tokens)),
    ensures
        value(r, routing_weights(c, il, h, tokens)) == value(s, routing_weights(c, il, h, tokens)),
{
    broadcast use group_values;

    reveal_strlit("exp_probs_b.bias");
    reveal_strlit("ffn_gate_inp.weight");
    assert("exp_probs_b.bias"@.len() != "ffn_gate_inp.weight"@.len());
    block_names_differ(il, "exp_probs_b.bias"@, il, "ffn_gate_inp.weight"@);
    assert((r.weight)(block_name(il, "ffn_gate_inp.weight"@)) == (s.weight)(
        block_name(il, "ffn_gate_inp.weight"@),
    ));
}

/// The shares of a token's chosen experts add up to one, wherever their scores do not
/// vanish.
pub proof fn shares_add_up_to_one<V>(
    r: Reading<V>,
    c: Deepseek4Config,
    il: nat,
    h: Expr,
    tokens: Seq<i32>,
    one: V,
)
    requires
        // A sum of quotients by one divisor is the quotient of the sum.
        forall|x: V, d: V|
            on1(r, Op::SumRows, #[trigger] on2(r, Op::Div, x, d)) == on2(
                r,
                Op::Div,
                on1(r, Op::SumRows, x),
                d,
            ),
        // The scores' sums are above what they are kept from falling below.
        forall|low: u32, high: u32, x: V|
            #[trigger] on1(r, Op::Clamp { low, high }, x) == x,
        forall|x: V| #[trigger] on2(r, Op::Div, x, x) == one,
    ensures
        on1(r, Op::SumRows, value(r, expert_shares(c, il, h, tokens))) == one,
{
    broadcast use group_values;

}

/// Each routing weight is an expert's share times the model's scale.
pub proof fn weights_are_scaled_shares<V>(
    r: Reading<V>,
    c: Deepseek4Config,
    il: nat,
    h: Expr,
    tokens: Seq<i32>,
)
    requires
        forall|n0: i64, n1: i64, n2: i64, x: V|
            #[trigger] on1(r, Op::Reshape3d { n0, n1, n2 }, x) == x,
    ensures
        value(r, routing_weights(c, il, h, tokens)) == on1(
            r,
            Op::Scale { by: c.expert_weights_scale },
            value(r, expert_shares(c, il, h, tokens)),
        ),
{
    broadcast use group_values;

}

// ------------------------------------------------------------------ residual streams

/// A block that computes nothing hands on the streams that entered it: both its halves
/// write back across the streams they read, and lose nothing of them.
pub proof fn a_silent_block_hands_on_its_streams<V>(
    r: Reading<V>,
    c: Deepseek4Config,
    il: nat,
    x: Expr,
    attn_out: Expr,
    ffn_out: Expr,
    nt: int,
    zero: V,
)
    requires
        // Writing back nothing leaves the streams.
        forall|streams: V, post: V, comb: V|
            #[trigger] on4(r, Op::HcPost, zero, streams, post, comb) == streams,
        value(r, attn_out) == zero,
        value(r, ffn_out) == zero,
    ensures
        value(r, block_out(c, il, streams_after(c, il, x, attn_out, nt), ffn_out, nt)) == value(
            r,
            x,
        ),
{
    broadcast use group_values;

}

/// Both halves of a block are gated alike: with the same weights in front of them, what
/// the feed-forward reads of some streams is what attention would read of them.
pub proof fn both_halves_are_gated_alike<V>(
    r: Reading<V>,
    c: Deepseek4Config,
    il: nat,
    x: Expr,
    out: Expr,
    nt: int,
)
    requires
        (r.weight)(block_name(il, "hc_attn_fn.weight"@)) == (r.weight)(
            block_name(il, "hc_ffn_fn.weight"@),
        ),
        (r.weight)(block_name(il, "hc_attn_scale.weight"@)) == (r.weight)(
            block_name(il, "hc_ffn_scale.weight"@),
        ),
        (r.weight)(block_name(il, "hc_attn_base.weight"@)) == (r.weight)(
            block_name(il, "hc_ffn_base.weight"@),
        ),
        (r.weight)(block_name(il, "attn_norm.weight"@)) == (r.weight)(
            block_name(il, "ffn_norm.weight"@),
        ),
    ensures
        value(r, attn_input(c, il, x, nt)) == value(r, ffn_input(c, il, x, nt)),
        value(r, streams_after(c, il, x, out, nt)) == value(r, block_out(c, il, x, out, nt)),
{
    broadcast use group_values;

}


/// `grown` changes how large values are and nothing else: norms take it away again, and
/// reshaping lets it pass.
pub open spec fn only_size<V>(r: Reading<V>, c: Deepseek4Config, grown: spec_fn(V) -> V) -> bool {
    &&& forall|x: V|
        #[trigger] on1(r, Op::RmsNorm { eps: c.rms_eps }, grown(x)) == on1(
            r,
            Op::RmsNorm { eps: c.rms_eps },
            x,
        )
    &&& forall|n0: i64, n1: i64, x: V|
        #[trigger] on1(r, Op::Reshape2d { n0, n1 }, grown(x)) == grown(
            on1(r, Op::Reshape2d { n0, n1 }, x),
        )
    &&& forall|x: V, pre: V|
        #[trigger] on2(r, Op::HcPre, grown(x), pre) == grown(on2(r, Op::HcPre, x, pre))
}

/// Gates, and what is read through them, go by the direction of the streams and not by
/// their size.
pub proof fn the_size_of_the_streams_does_not_matter<V>(
    r: Reading<V>,
    c: Deepseek4Config,
    il: nat,
    x: Expr,
    y: Expr,
    weight: Expr,
    nt: int,
    grown: spec_fn(V) -> V,
)
    requires
        only_size(r, c, grown),
        value(r, y) == grown(value(r, x)),
    ensures
        value(r, mixes_of(c, y, weight, nt)) == value(r, mixes_of(c, x, weight, nt)),
        value(r, attn_input(c, il, y, nt)) == value(r, attn_input(c, il, x, nt)),
        value(r, ffn_input(c, il, y, nt)) == value(r, ffn_input(c, il, x, nt)),
{
    broadcast use group_values;

    let flat = Op::Reshape2d { n0: (c.n_embd * c.hc_mult) as i64, n1: nt as i64 };
    assert(on1(r, flat, value(r, y)) == grown(on1(r, flat, value(r, x))));
    let a = w(il, "hc_attn_fn.weight"@);
    let f = w(il, "hc_ffn_fn.weight"@);
    assert(value(r, mixes_of(c, y, weight, nt)) == value(r, mixes_of(c, x, weight, nt)));
    assert(value(r, mixes_of(c, y, a, nt)) == value(r, mixes_of(c, x, a, nt)));
    assert(value(r, mixes_of(c, y, f, nt)) == value(r, mixes_of(c, x, f, nt)));
    let ap = value(r, attn_gates(c, il, x, nt).pre);
    let fp = value(r, ffn_gates(c, il, x, nt).pre);
    assert(value(r, attn_gates(c, il, y, nt).pre) == ap);
    assert(value(r, ffn_gates(c, il, y, nt).pre) == fp);
    assert(on2(r, Op::HcPre, value(r, y), ap) == grown(on2(r, Op::HcPre, value(r, x), ap)));
    assert(on2(r, Op::HcPre, value(r, y), fp) == grown(on2(r, Op::HcPre, value(r, x), fp)));
}

/// Neither do the logits go by the size of the last streams.
pub proof fn logits_ignore_the_size_of_the_streams<V>(
    r: Reading<V>,
    s: Reading<V>,
    c: Deepseek4Config,
    grown: spec_fn(V) -> V,
)
    requires
        only_size(r, c, grown),
        r.apply == s.apply,
        r.weight == s.weight,
        r.floats == s.floats,
        (s.input)(Slot::LastStreams, c.n_embd as int, c.hc_mult as int, 1) == grown(
            (r.input)(Slot::LastStreams, c.n_embd as int, c.hc_mult as int, 1),
        ),
    ensures
        value(r, head_out(c)) == value(s, head_out(c)),
{
    broadcast use group_values;

    let x = (r.input)(Slot::LastStreams, c.n_embd as int, c.hc_mult as int, 1);
    let flat = Op::Reshape2d { n0: (c.n_embd * c.hc_mult) as i64, n1: 1 };
    assert(on1(r, flat, grown(x)) == grown(on1(r, flat, x)));
    let e = held(Slot::LastStreams, c.n_embd as int, c.hc_mult as int, 1);
    assert(value(r, e) == x);
    assert(value(s, e) == grown(x));
    let wt = outer("output_hc_fn.weight"@);
    assert(on1(r, Op::RmsNorm { eps: c.rms_eps }, grown(on1(r, flat, x))) == on1(
        r,
        Op::RmsNorm { eps: c.rms_eps },
        on1(r, flat, x),
    ));
    assert(value(r, mixes_of(c, e, wt, 1)) == value(s, mixes_of(c, e, wt, 1)));
    assert(forall|pre: V|
        #[trigger] on2(s, Op::HcPre, grown(x), pre) == grown(on2(r, Op::HcPre, x, pre))) by {
        assert forall|pre: V| #[trigger]
            on2(s, Op::HcPre, grown(x), pre) == grown(on2(r, Op::HcPre, x, pre)) by {
            assert(on2(r, Op::HcPre, grown(x), pre) == grown(on2(r, Op::HcPre, x, pre)));
        }
    }
    assert(forall|v: V|
        #[trigger] on1(s, Op::RmsNorm { eps: c.rms_eps }, grown(v)) == on1(
            r,
            Op::RmsNorm { eps: c.rms_eps },
            v,
        )) by {
        assert forall|v: V| #[trigger]
            on1(s, Op::RmsNorm { eps: c.rms_eps }, grown(v)) == on1(
                r,
                Op::RmsNorm { eps: c.rms_eps },
                v,
            ) by {
            assert(on1(r, Op::RmsNorm { eps: c.rms_eps }, grown(v)) == on1(
                r,
                Op::RmsNorm { eps: c.rms_eps },
                v,
            ));
        }
    }
}

/// `hc` mixes of every token, from the `first` on.
pub open spec fn mix_run(c: Deepseek4Config, nt: int, first: int) -> Op {
    Op::View2d {
        n0: c.hc_mult as i64,
        n1: nt as i64,
        stride: ((2 + c.hc_mult) * c.hc_mult * 4) as usize,
        offset: (first * 4) as usize,
    }
}

/// Gates open by their mixes, scaled first and then shifted: scaled to nothing they open
/// by their base alone, and unscaled and unshifted by the mixes alone. The first `hc`
/// mixes, the first scale and the first `hc` bases gate what goes into a part; the
/// next ones gate what comes out of it, and open twice as far.
pub proof fn gates_open_by_their_own_mixes<V>(
    r: Reading<V>,
    c: Deepseek4Config,
    mixes: Expr,
    scales: Expr,
    bases: Expr,
    nt: int,
    zero: V,
    one: V,
)
    requires
        adds_nothing(r, zero),
        forall|x: V| #[trigger] on2(r, Op::Mul, x, zero) == zero,
        forall|x: V| #[trigger] on2(r, Op::Mul, x, one) == x,
    ensures
        ({
            let hc = c.hc_mult as int;
            let g = gates_of(c, mixes, scales, bases, nt);
            let floor = (r.floats)(hc, 1, millionths(hc));
            let scale = |i: int|
                on1(r, Op::View1d { n0: 1, offset: (i * 4) as usize }, value(r, scales));
            let base = |i: int|
                on1(r, Op::View1d { n0: hc as i64, offset: (i * 4) as usize }, value(r, bases));
            let mix = |i: int| on1(r, mix_run(c, nt, i), value(r, mixes));
            &&& scale(0) == zero ==> value(r, g.pre) == on2(
                r,
                Op::Add,
                on1(r, Op::Sigmoid, base(0)),
                floor,
            )
            &&& scale(0) == one && base(0) == zero ==> value(r, g.pre) == on2(
                r,
                Op::Add,
                on1(r, Op::Sigmoid, mix(0)),
                floor,
            )
            &&& scale(1) == zero ==> value(r, g.post) == on1(
                r,
                Op::Scale { by: F32_TWO },
                on1(r, Op::Sigmoid, base(hc)),
            )
            &&& scale(1) == one && base(hc) == zero ==> value(r, g.post) == on1(
                r,
                Op::Scale { by: F32_TWO },
                on1(r, Op::Sigmoid, mix(hc)),
            )
        }),
{
    broadcast use group_values;

}

/// What goes into the head is gated as what goes into a block's part is.
pub proof fn the_head_is_gated_as_a_block_is<V>(
    r: Reading<V>,
    c: Deepseek4Config,
    zero: V,
)
    requires
        adds_nothing(r, zero),
        forall|x: V| #[trigger] on2(r, Op::Mul, x, zero) == zero,
        on1(r, Op::View1d { n0: 1, offset: 0 }, (r.weight)("output_hc_scale.weight"@)) == zero,
    ensures
        ({
            let hc = c.hc_mult as int;
            let x = (r.input)(Slot::LastStreams, c.n_embd as int, hc, 1);
            let pre = on2(
                r,
                Op::Add,
                on1(
                    r,
                    Op::Sigmoid,
                    on1(
                        r,
                        Op::View1d { n0: hc as i64, offset: 0 },
                        (r.weight)("output_hc_base.weight"@),
                    ),
                ),
                (r.floats)(hc, 1, millionths(hc)),
            );
            value(r, head_out(c)) == on2(
                r,
                Op::MulMat,
                (r.weight)("output.weight"@),
                on2(
                    r,
                    Op::Mul,
                    on1(r, Op::RmsNorm { eps: c.rms_eps }, on2(r, Op::HcPre, x, pre)),
                    (r.weight)("output_norm.weight"@),
                ),
            )
        }),
{
    broadcast use group_values;

}

/// Every residual stream begins as the token's embedding.
pub proof fn streams_begin_as_embeddings<V>(r: Reading<V>, c: Deepseek4Config, tokens: Seq<i32>)
    requires
        tokens.len() <= i64::MAX,
        forall|n0: i64, n1: i64, n2: i64, x: V|
            #[trigger] on1(r, Op::Reshape3d { n0, n1, n2 }, x) == x,
        // Of a single stream the repetition is the embedding itself.
        forall|x: V, shape: V| #[trigger] on2(r, Op::Repeat, x, shape) == x,
    ensures
        value(r, streams_of(c, tokens)) == on2(
            r,
            Op::GetRows,
            (r.weight)("token_embd.weight"@),
            (r.ints)(tokens.len() as int, 1, tokens),
        ),
{
    broadcast use group_values;

}

/// A score is neither a probability nor bounded by one: its square is the softplus of
/// the router's logit.
pub proof fn scores_are_roots_of_softplus<V>(r: Reading<V>, il: nat, h: Expr)
    requires
        forall|x: V|
            on2(r, Op::Mul, #[trigger] on1(r, Op::Sqrt, x), on1(r, Op::Sqrt, x)) == x,
    ensures
        ({
            let score = value(r, router_scores(il, h));
            on2(r, Op::Mul, score, score) == on1(
                r,
                Op::Softplus,
                on2(
                    r,
                    Op::MulMat,
                    (r.weight)(block_name(il, "ffn_gate_inp.weight"@)),
                    value(r, h),
                ),
            )
        }),
{
    broadcast use group_values;

}

/// As many experts are chosen by score as the model uses.
pub proof fn as_many_experts_are_chosen_as_used<V>(
    r: Reading<V>,
    c: Deepseek4Config,
    il: nat,
    h: Expr,
    tokens: Seq<i32>,
    count: spec_fn(V) -> int,
)
    requires
        il >= c.hash_layer_count,
        forall|k: i32, x: V| count(#[trigger] on1(r, Op::ArgsortTopK { k }, x)) == k,
    ensures
        count(value(r, chosen_experts(c, il, h, tokens))) == c.n_expert_used as i32,
{
    broadcast use group_values;

}

/// Shares are defined even of scores that vanish: nothing is divided by less than what
/// the sum is kept from falling below.
pub proof fn shares_are_always_defined<V>(
    r: Reading<V>,
    c: Deepseek4Config,
    il: nat,
    h: Expr,
    tokens: Seq<i32>,
    divides: spec_fn(V) -> bool,
    defined: spec_fn(V) -> bool,
)
    requires
        forall|high: u32, x: V|
            divides(#[trigger] on1(r, Op::Clamp { low: F32_LEAST_NORMAL_HALF, high }, x)),
        forall|x: V, d: V| divides(d) ==> defined(#[trigger] on2(r, Op::Div, x, d)),
    ensures
        defined(value(r, expert_shares(c, il, h, tokens))),
{
    broadcast use group_values;

}

// ----------------------------------------------------------------------- compressor

/// A token's place in its block goes by its absolute position: cutting a batch in two
/// moves no token, a whole block further on stands the same, and a block begins at zero
/// and goes on one by one.
pub proof fn places_in_a_block_are_absolute(pos0: int, first: int, second: int, ratio: int, p: int)
    requires
        0 <= pos0,
        0 <= first,
        0 <= second,
        0 < ratio <= i32::MAX,
        0 <= p < first + second,
    ensures
        block_offsets(pos0, first + second, ratio) == block_offsets(pos0, first, ratio)
            + block_offsets(pos0 + first, second, ratio),
        block_offsets(pos0 + ratio, first + second, ratio) == block_offsets(
            pos0,
            first + second,
            ratio,
        ),
        (pos0 + p) % ratio == 0 ==> block_offsets(pos0, first + second, ratio)[p] == 0,
        p + 1 < first + second && (pos0 + p + 1) % ratio != 0 ==> block_offsets(
            pos0,
            first + second,
            ratio,
        )[p + 1] == block_offsets(pos0, first + second, ratio)[p] + 1,
{
    assert(block_offsets(pos0, first + second, ratio) =~= block_offsets(pos0, first, ratio)
        + block_offsets(pos0 + first, second, ratio));
    assert(block_offsets(pos0 + ratio, first + second, ratio) =~= block_offsets(
        pos0,
        first + second,
        ratio,
    )) by {
        assert forall|q: int| 0 <= q < first + second implies #[trigger] block_offsets(
            pos0 + ratio,
            first + second,
            ratio,
        )[q] == block_offsets(pos0, first + second, ratio)[q] by {
            vstd::arithmetic::div_mod::lemma_mod_add_multiples_vanish(pos0 + q, ratio);
            assert(pos0 + ratio + q == ratio + (pos0 + q));
        }
    }
    let a = pos0 + p;
    assert((a + 1) % ratio != 0 ==> (a + 1) % ratio == a % ratio + 1) by (nonlinear_arith)
        requires
            0 < ratio,
            0 <= a,
    ;
    vstd::arithmetic::div_mod::lemma_mod_bound(a, ratio);
    vstd::arithmetic::div_mod::lemma_mod_bound(a + 1, ratio);
}

/// Overlapping windows take the first half of each earlier row and the second half of
/// each later one, and nothing else of what was gathered.
pub proof fn windows_take_halves<V>(
    r: Reading<V>,
    c: Deepseek4Config,
    x: Expr,
    y: Expr,
    rows: Seq<i32>,
    ratio: int,
    n_blocks: int,
)
    requires
        ({
            let head = c.kv_lora_rank as int;
            let n = ratio * n_blocks;
            let half = |from: int, second: int|
                Op::View2d {
                    n0: head as i64,
                    n1: n as i64,
                    stride: (head * 2 * 4) as usize,
                    offset: (from * (head * 2 * 4) + second * (head * 4)) as usize,
                };
            let at = (r.ints)(rows.len() as int, 1, rows);
            let a = on2(r, Op::GetRows, value(r, x), at);
            let b = on2(r, Op::GetRows, value(r, y), at);
            &&& on1(r, half(0, 0), a) == on1(r, half(0, 0), b)
            &&& on1(r, half(n, 1), a) == on1(r, half(n, 1), b)
        }),
    ensures
        value(r, windows(c, x, rows, ratio, n_blocks, true)) == value(
            r,
            windows(c, y, rows, ratio, n_blocks, true),
        ),
{
    broadcast use group_values;

    let head = c.kv_lora_rank as int;
    let n = ratio * n_blocks;
    assert(0 * (head * 2 * 4) + 0 * (head * 4) == 0) by (nonlinear_arith);
    assert(n * (head * 2 * 4) + 1 * (head * 4) == n * (head * 2 * 4) + head * 4)
        by (nonlinear_arith);
}

/// A summary is an average: of rows that are all alike it is that row, however their
/// scores differ.
pub proof fn summaries_are_averages<V>(
    r: Reading<V>,
    s: Reading<V>,
    c: Deepseek4Config,
    il: nat,
    plan: CompressorPlan,
    ratio: int,
    nt: int,
    overlap: bool,
    rope: LayerRope,
)
    requires
        r.apply == s.apply,
        r.weight == s.weight,
        r.ints == s.ints,
        ({
            let pad = if overlap {
                1int
            } else {
                0
            };
            let total = plan.state_rows + nt + pad;
            let rows = value(
                r,
                windows(
                    c,
                    held(Slot::CompressorRows, plan.wide as int, total, 1),
                    plan.rows@,
                    ratio,
                    plan.b1 - plan.b0,
                    overlap,
                ),
            );
            &&& (r.input)(Slot::CompressorRows, plan.wide as int, total, 1) == (s.input)(
                Slot::CompressorRows,
                plan.wide as int,
                total,
                1,
            )
            // Weights that sum to one average equal rows to that row.
            &&& forall|a: V, b: V|
                on1(r, Op::SumRows, on2(r, Op::Mul, rows, #[trigger] on1(r, Op::SoftMax, a)))
                    == on1(
                    r,
                    Op::SumRows,
                    on2(r, Op::Mul, rows, #[trigger] on1(r, Op::SoftMax, b)),
                )
        }),
    ensures
        value(r, summaries(c, il, plan, ratio, nt, overlap, rope)) == value(
            s,
            summaries(c, il, plan, ratio, nt, overlap, rope),
        ),
{
    broadcast use group_values;

    let pad = if overlap {
        1int
    } else {
        0
    };
    let total = plan.state_rows + nt + pad;
    let n = plan.b1 - plan.b0;
    let rows = windows(
        c,
        held(Slot::CompressorRows, plan.wide as int, total, 1),
        plan.rows@,
        ratio,
        n,
        overlap,
    );
    let scores = windows(
        c,
        held(Slot::CompressorScores, plan.wide as int, total, 1),
        plan.rows@,
        ratio,
        n,
        overlap,
    );
    assert(value(r, rows) == value(s, rows));
    let mean = e1(Op::SumRows, e2(Op::Mul, rows, e1(Op::SoftMax, scores)));
    let a = on1(r, Op::SoftMax, value(r, scores));
    let b = on1(r, Op::SoftMax, value(s, scores));
    assert(b == on1(s, Op::SoftMax, value(s, scores)));
    assert(on1(r, Op::SumRows, on2(r, Op::Mul, value(r, rows), a)) == on1(
        r,
        Op::SumRows,
        on2(r, Op::Mul, value(r, rows), b),
    ));
    assert(value(r, mean) == value(s, mean));
    let swapped = e1(Op::Cont, e1(Op::Permute { a0: 1, a1: 0, a2: 2, a3: 3 }, mean));
    let x = normed(c.rms_eps, swapped, w(il, "attn_compressor_norm.weight"@));
    assert(value(r, x) == value(s, x));
    let at = Expr::Ints { n0: n, n1: 1, values: plan.positions@ };
    value_of_turned(r, c, x, 1, n, at, rope, false);
    value_of_turned(s, c, x, 1, n, at, rope, false);
}

/// Summaries are turned forward, once, at the positions their blocks start at, as the
/// latents beside them are at theirs: turned back there, nothing is left of where the
/// blocks stand.
pub proof fn summaries_are_turned_as_latents_are<V>(
    r: Reading<V>,
    c: Deepseek4Config,
    il: nat,
    plan: CompressorPlan,
    moved: CompressorPlan,
    ratio: int,
    nt: int,
    overlap: bool,
    rope: LayerRope,
    heads: spec_fn(V, int) -> bool,
)
    requires
        plan.b0 == moved.b0,
        plan.b1 == moved.b1,
        plan.wide == moved.wide,
        plan.state_rows == moved.state_rows,
        plan.rows@ == moved.rows@,
        turning_back_undoes(r, c, rope),
        parts_rejoin(r, c, 1, plan.b1 - plan.b0, rope, heads),
        forall|x: V, y: V| heads(#[trigger] on2(r, Op::Mul, x, y), 1),
    ensures
        ({
            let n = plan.b1 - plan.b0;
            let here = (r.ints)(n, 1, plan.positions@);
            let there = (r.ints)(n, 1, moved.positions@);
            turned(
                r,
                c,
                1,
                n,
                rope,
                true,
                value(r, summaries(c, il, plan, ratio, nt, overlap, rope)),
                here,
            ) == turned(
                r,
                c,
                1,
                n,
                rope,
                true,
                value(r, summaries(c, il, moved, ratio, nt, overlap, rope)),
                there,
            )
        }),
{
    broadcast use group_values;

    let pad = if overlap {
        1int
    } else {
        0
    };
    let total = plan.state_rows + nt + pad;
    let n = plan.b1 - plan.b0;
    let rows = windows(
        c,
        held(Slot::CompressorRows, plan.wide as int, total, 1),
        plan.rows@,
        ratio,
        n,
        overlap,
    );
    let scores = windows(
        c,
        held(Slot::CompressorScores, plan.wide as int, total, 1),
        plan.rows@,
        ratio,
        n,
        overlap,
    );
    let mean = e1(Op::SumRows, e2(Op::Mul, rows, e1(Op::SoftMax, scores)));
    let swapped = e1(Op::Cont, e1(Op::Permute { a0: 1, a1: 0, a2: 2, a3: 3 }, mean));
    let x = normed(c.rms_eps, swapped, w(il, "attn_compressor_norm.weight"@));
    let at = Expr::Ints { n0: n, n1: 1, values: plan.positions@ };
    let other = Expr::Ints { n0: n, n1: 1, values: moved.positions@ };
    value_of_turned(r, c, x, 1, n, at, rope, false);
    value_of_turned(r, c, x, 1, n, other, rope, false);
    let v = value(r, x);
    assert(heads(v, 1));
    turned_and_back(r, c, n, rope, heads, v, value(r, at));
    turned_and_back(r, c, n, rope, heads, v, value(r, other));
}

proof fn turned_and_back<V>(
    r: Reading<V>,
    c: Deepseek4Config,
    n: int,
    rope: LayerRope,
    heads: spec_fn(V, int) -> bool,
    x: V,
    at: V,
)
    requires
        turning_back_undoes(r, c, rope),
        parts_rejoin(r, c, 1, n, rope, heads),
        heads(x, 1),
    ensures
        turned(r, c, 1, n, rope, true, turned(r, c, 1, n, rope, false, x, at), at) == x,
{
    let moving = head_part(c, c.plain_dims(), c.n_rot as int, 1, n);
    let whole = turned(r, c, 1, n, rope, false, x, at);
    assert(on1(r, moving, whole) == on2(r, turn(c, rope, false), on1(r, moving, x), at));
}

/// A block without a limit clamps nothing: where a clamp between the infinities changes no
/// value, its experts multiply what they are given.
pub proof fn without_a_limit_nothing_is_clamped<V>(
    r: Reading<V>,
    c: Deepseek4Config,
    il: nat,
    shared: bool,
    gate: Expr,
    up: Expr,
)
    requires
        c.clamp_of(il as int, shared) is None,
        forall|x: V|
            #[trigger] on1(r, Op::Clamp { low: F32_NEG_INFINITY, high: F32_INFINITY }, x) == x,
    ensures
        value(r, clamped_swiglu(gate, up, limit_of(c, il as int, shared))) == on2(
            r,
            Op::SwigluSplit,
            value(r, gate),
            value(r, up),
        ),
{
    broadcast use group_values;

    assert(negated(F32_INFINITY) == F32_NEG_INFINITY);
}

/// A block with a limit bounds both halves by it: where whatever is kept below that limit
/// comes to one value, nothing else reaches the product.
pub proof fn a_limit_bounds_both_halves<V>(
    r: Reading<V>,
    c: Deepseek4Config,
    il: nat,
    shared: bool,
    gate: Expr,
    up: Expr,
    bound: V,
)
    requires
        c.clamp_of(il as int, shared) is Some,
        forall|low: u32, x: V|
            #[trigger] on1(
                r,
                Op::Clamp { low, high: c.clamp_of(il as int, shared)->0 },
                x,
            ) == bound,
    ensures
        value(r, clamped_swiglu(gate, up, limit_of(c, il as int, shared))) == on2(
            r,
            Op::SwigluSplit,
            bound,
            bound,
        ),
{
    broadcast use group_values;

}

} // verus!
