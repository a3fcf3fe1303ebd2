//! One DeepSeek-V4-Flash block's computations, described.
//!
//! Nearly every mistake possible here has no shape consequence: a view at the wrong
//! offset, a rotation left in place, a gate reused. What each step computes is stated
//! in full for that reason.
use crate::deepseek4::{Deepseek4Config, LayerRope};
use crate::deepseek4_cache::{offsets_in_block, CompressorPlan};
use crate::float_bits::{
    negate,
    F32_INFINITY,
    F32_LEAST_NORMAL_HALF,
    F32_MILLIONTH,
    F32_NEG_INFINITY,
    F32_TWO,
};
#[allow(unused_imports)]
use crate::float_bits::negated;
use crate::graph::{AttnScale, Graph, Node, Op, Slot};
#[allow(unused_imports)]
use crate::graph::{e1, e2, e3, e4, e5, extends, Expr};
use crate::names::block_tensor;
#[allow(unused_imports)]
use crate::qwen3_graph::{normed, outer, w};
#[allow(unused_imports)]
use crate::stream_pass::{held, positions_from};
use vstd::prelude::*;

verus! {

/// Rotation pairs neighbours.
pub const ROPE_MODE_NORM: i32 = 0;

/// Products of widths that the computations take stay in range, and the output's groups
/// are at least one.
pub open spec fn dims_fit(c: Deepseek4Config) -> bool {
    &&& c.n_embd * c.hc_mult <= u32::MAX
    &&& (2 + c.hc_mult) * c.hc_mult * 4 <= usize::MAX
    &&& c.kv_lora_rank * c.n_head * 4 <= usize::MAX
    &&& c.kv_lora_rank * 8 <= usize::MAX
    &&& c.output_lora_rank * c.output_group_count <= u32::MAX
    &&& c.output_group_count > 0
    &&& c.n_embd * 4 * c.n_expert_used <= usize::MAX
    &&& c.n_embd * 4 <= usize::MAX
}

// ----------------------------------------------------------------- hyper-connections

/// The embedding of `tokens`, repeated across the residual streams.
pub open spec fn streams_of(c: Deepseek4Config, tokens: Seq<i32>) -> Expr {
    let n = tokens.len() as i64;
    let rows = e2(
        Op::GetRows,
        outer("token_embd.weight"@),
        Expr::Ints { n0: n as int, n1: 1, values: tokens },
    );
    e2(
        Op::Repeat,
        e1(Op::Reshape3d { n0: c.n_embd as i64, n1: 1, n2: n }, rows),
        Expr::Shape { n0: c.n_embd as int, n1: c.hc_mult as int, n2: n as int },
    )
}

/// `n` times a millionth.
pub open spec fn millionths(n: int) -> Seq<u32> {
    Seq::new(n as nat, |i: int| F32_MILLIONTH)
}

/// The gates of one hyper-connection.
pub struct GateExprs {
    pub pre: Expr,
    pub post: Expr,
    pub comb: Expr,
}

/// One gate: a run of `hc` mixes from `mix`, scaled by entry `scale` and shifted by the
/// base from `base`, through a sigmoid. The stride is the source's whole row of mixes.
pub open spec fn one_gate(
    hc: int,
    nt: int,
    mixes: Expr,
    scales: Expr,
    bases: Expr,
    mix: int,
    scale: int,
    base: int,
) -> Expr {
    let view = e1(
        Op::View2d {
            n0: hc as i64,
            n1: nt as i64,
            stride: ((2 + hc) * hc * 4) as usize,
            offset: (mix * 4) as usize,
        },
        mixes,
    );
    let s = e1(Op::View1d { n0: 1, offset: (scale * 4) as usize }, scales);
    let b = e1(Op::View1d { n0: hc as i64, offset: (base * 4) as usize }, bases);
    e1(Op::Sigmoid, e2(Op::Add, e2(Op::Mul, view, s), b))
}

/// The three gates from one set of mixes: `hc` for `pre`, `hc` for `post`, the rest for
/// the combination. `pre` is kept off zero; `post` is doubled.
pub open spec fn gates_of(
    c: Deepseek4Config,
    mixes: Expr,
    scales: Expr,
    bases: Expr,
    nt: int,
) -> GateExprs {
    let hc = c.hc_mult as int;
    GateExprs {
        pre: e2(
            Op::Add,
            one_gate(hc, nt, mixes, scales, bases, 0, 0, 0),
            Expr::Floats { n0: hc, n1: 1, bits: millionths(hc) },
        ),
        post: e1(
            Op::Scale { by: F32_TWO },
            one_gate(hc, nt, mixes, scales, bases, hc, 1, hc),
        ),
        comb: e3(
            Op::HcComb { eps: F32_MILLIONTH, iterations: c.hc_sinkhorn_iterations as i32 },
            mixes,
            scales,
            bases,
        ),
    }
}

/// The mixes of all streams, from their flattened norm.
pub open spec fn mixes_of(c: Deepseek4Config, streams: Expr, weight: Expr, nt: int) -> Expr {
    let flat = e1(
        Op::Reshape2d { n0: (c.n_embd * c.hc_mult) as i64, n1: nt as i64 },
        streams,
    );
    e2(Op::MulMat, weight, e1(Op::RmsNorm { eps: c.rms_eps }, flat))
}

/// The gates in front of a block's attention.
pub open spec fn attn_gates(c: Deepseek4Config, il: nat, streams: Expr, nt: int) -> GateExprs {
    gates_of(
        c,
        mixes_of(c, streams, w(il, "hc_attn_fn.weight"@), nt),
        w(il, "hc_attn_scale.weight"@),
        w(il, "hc_attn_base.weight"@),
        nt,
    )
}

/// The gates in front of a block's feed-forward: from a product of their own, over the
/// streams after attention.
pub open spec fn ffn_gates(c: Deepseek4Config, il: nat, streams: Expr, nt: int) -> GateExprs {
    gates_of(
        c,
        mixes_of(c, streams, w(il, "hc_ffn_fn.weight"@), nt),
        w(il, "hc_ffn_scale.weight"@),
        w(il, "hc_ffn_base.weight"@),
        nt,
    )
}

/// What a block's attention reads: the streams collapsed and normalised.
pub open spec fn attn_input(c: Deepseek4Config, il: nat, streams: Expr, nt: int) -> Expr {
    normed(
        c.rms_eps,
        e2(Op::HcPre, streams, attn_gates(c, il, streams, nt).pre),
        w(il, "attn_norm.weight"@),
    )
}

/// The streams after a block's attention wrote back across them.
pub open spec fn streams_after(
    c: Deepseek4Config,
    il: nat,
    streams: Expr,
    attn_out: Expr,
    nt: int,
) -> Expr {
    let g = attn_gates(c, il, streams, nt);
    e4(Op::HcPost, attn_out, streams, g.post, g.comb)
}

/// What a block's feed-forward reads.
pub open spec fn ffn_input(c: Deepseek4Config, il: nat, streams: Expr, nt: int) -> Expr {
    normed(
        c.rms_eps,
        e2(Op::HcPre, streams, ffn_gates(c, il, streams, nt).pre),
        w(il, "ffn_norm.weight"@),
    )
}

/// The streams a block hands on: the feed-forward written back across those that
/// attention left.
pub open spec fn block_out(c: Deepseek4Config, il: nat, streams: Expr, ffn_out: Expr, nt: int) -> Expr {
    let g = ffn_gates(c, il, streams, nt);
    e4(Op::HcPost, ffn_out, streams, g.post, g.comb)
}

/// Nodes of the gates of one hyper-connection.
#[derive(Debug, Clone, Copy, PartialEq, Eq, Structural)]
pub struct HcGates {
    pub pre: usize,
    pub post: usize,
    pub comb: usize,
}

impl HcGates {
    /// These nodes of `g` compute `want`.
    pub open spec fn stand_for(self, g: Seq<Expr>, want: GateExprs) -> bool {
        &&& self.pre < g.len()
        &&& self.post < g.len()
        &&& self.comb < g.len()
        &&& g[self.pre as int] == want.pre
        &&& g[self.post as int] == want.post
        &&& g[self.comb as int] == want.comb
    }
}

fn repeated(bits: u32, n: u32) -> (v: Vec<u32>)
    ensures
        v@ == Seq::new(n as nat, |i: int| bits),
{
    let mut v: Vec<u32> = Vec::new();
    let mut i: u32 = 0;
    while i < n
        invariant
            i <= n,
            v@ == Seq::new(i as nat, |i: int| bits),
        decreases n - i,
    {
        v.push(bits);
        i = i + 1;
        assert(v@ =~= Seq::new(i as nat, |i: int| bits));
    }
    v
}

fn op_gate(
    g: &mut Graph,
    hc: u32,
    nt: i64,
    mixes: usize,
    scales: usize,
    bases: usize,
    mix: u32,
    scale: u32,
    base: u32,
) -> (at: usize)
    requires
        old(g).wf(),
        mixes < old(g)@.len(),
        scales < old(g)@.len(),
        bases < old(g)@.len(),
        (2 + hc) * hc * 4 <= usize::MAX,
        mix <= hc,
        base <= hc,
        scale <= 2,
    ensures
        final(g).wf(),
        extends(final(g)@, old(g)@),
        at < final(g)@.len(),
        final(g)@[at as int] == one_gate(
            hc as int,
            nt as int,
            old(g)@[mixes as int],
            old(g)@[scales as int],
            old(g)@[bases as int],
            mix as int,
            scale as int,
            base as int,
        ),
{
    proof {
        assert(hc * 4 <= (2 + hc) * hc * 4) by (nonlinear_arith)
            requires
                hc >= 0,
        ;
        assert((2 + hc) * hc <= (2 + hc) * hc * 4) by (nonlinear_arith)
            requires
                hc >= 0,
        ;
        assert(hc > 0 ==> 2 + hc <= (2 + hc) * hc * 4) by (nonlinear_arith)
            requires
                hc >= 0,
        ;
    }
    let width: usize = hc as usize;
    let stride: usize = (2 + width) * width * 4;
    let view = g.op1(
        Op::View2d { n0: hc as i64, n1: nt, stride, offset: mix as usize * 4 },
        mixes,
    );
    let s = g.op1(Op::View1d { n0: 1, offset: (scale * 4) as usize }, scales);
    let b = g.op1(Op::View1d { n0: hc as i64, offset: base as usize * 4 }, bases);
    let scaled = g.op2(Op::Mul, view, s);
    let shifted = g.op2(Op::Add, scaled, b);
    g.op1(Op::Sigmoid, shifted)
}

/// Builds the three gates of a hyper-connection.
pub fn hc_gates(
    g: &mut Graph,
    c: &Deepseek4Config,
    mixes: usize,
    scales: usize,
    bases: usize,
    nt: i64,
) -> (gates: HcGates)
    requires
        old(g).wf(),
        dims_fit(*c),
        mixes < old(g)@.len(),
        scales < old(g)@.len(),
        bases < old(g)@.len(),
    ensures
        final(g).wf(),
        extends(final(g)@, old(g)@),
        gates.stand_for(
            final(g)@,
            gates_of(
                *c,
                old(g)@[mixes as int],
                old(g)@[scales as int],
                old(g)@[bases as int],
                nt as int,
            ),
        ),
{
    let hc: u32 = c.hc_mult;
    let gated = op_gate(g, hc, nt, mixes, scales, bases, 0, 0, 0);
    let eps = g.place(Node::Floats { n0: hc as i64, n1: 1, bits: repeated(F32_MILLIONTH, hc) });
    assert(g@[eps as int] == (Expr::Floats { n0: hc as int, n1: 1, bits: millionths(hc as int) }));
    let pre = g.op2(Op::Add, gated, eps);
    let gated = op_gate(g, hc, nt, mixes, scales, bases, hc, 1, hc);
    let post = g.op1(Op::Scale { by: F32_TWO }, gated);
    let comb = g.op3(
        Op::HcComb { eps: F32_MILLIONTH, iterations: c.hc_sinkhorn_iterations as i32 },
        mixes,
        scales,
        bases,
    );
    HcGates { pre, post, comb }
}

fn op_mixes(g: &mut Graph, c: &Deepseek4Config, streams: usize, weight: usize, nt: i64) -> (at:
    usize)
    requires
        old(g).wf(),
        dims_fit(*c),
        streams < old(g)@.len(),
        weight < old(g)@.len(),
    ensures
        final(g).wf(),
        extends(final(g)@, old(g)@),
        at < final(g)@.len(),
        final(g)@[at as int] == mixes_of(
            *c,
            old(g)@[streams as int],
            old(g)@[weight as int],
            nt as int,
        ),
{
    let flat = g.op1(Op::Reshape2d { n0: c.hc_dim() as i64, n1: nt }, streams);
    let h = g.op1(Op::RmsNorm { eps: c.rms_eps }, flat);
    g.op2(Op::MulMat, weight, h)
}

/// `x` normalised, then scaled by block `il`'s weight `suffix`.
fn op_norm(g: &mut Graph, c: &Deepseek4Config, il: u32, suffix: &str, x: usize) -> (at: usize)
    requires
        old(g).wf(),
        x < old(g)@.len(),
    ensures
        final(g).wf(),
        extends(final(g)@, old(g)@),
        at < final(g)@.len(),
        final(g)@[at as int] == normed(c.rms_eps, old(g)@[x as int], w(il as nat, suffix@)),
{
    let h = g.op1(Op::RmsNorm { eps: c.rms_eps }, x);
    let weight = g.weight(block_tensor(il, suffix));
    g.op2(Op::Mul, h, weight)
}

/// `x` through block `il`'s weight `suffix`.
fn op_through(g: &mut Graph, il: u32, suffix: &str, x: usize) -> (at: usize)
    requires
        old(g).wf(),
        x < old(g)@.len(),
    ensures
        final(g).wf(),
        extends(final(g)@, old(g)@),
        at < final(g)@.len(),
        final(g)@[at as int] == e2(Op::MulMat, w(il as nat, suffix@), old(g)@[x as int]),
{
    let weight = g.weight(block_tensor(il, suffix));
    g.op2(Op::MulMat, weight, x)
}

/// Builds the embedding repeated across the residual streams.
pub fn embed(g: &mut Graph, c: &Deepseek4Config, tokens: Vec<i32>) -> (at: usize)
    requires
        old(g).wf(),
        tokens@.len() <= i64::MAX,
    ensures
        final(g).wf(),
        extends(final(g)@, old(g)@),
        at < final(g)@.len(),
        final(g)@[at as int] == streams_of(*c, tokens@),
{
    let nt: i64 = tokens.len() as i64;
    let ids = g.ints(nt, 1, tokens);
    let table = g.weight("token_embd.weight".to_owned());
    let rows = g.op2(Op::GetRows, table, ids);
    let rows = g.op1(Op::Reshape3d { n0: c.n_embd as i64, n1: 1, n2: nt }, rows);
    let shape = g.place(Node::Shape { n0: c.n_embd as i64, n1: c.hc_mult as i64, n2: nt });
    g.op2(Op::Repeat, rows, shape)
}

/// A block's entry, from whatever residual streams it was handed: the first block's
/// come from the embedding, every other's from the block before, and that is their only
/// structural difference.
#[derive(Debug, Clone, Copy, PartialEq, Eq, Structural)]
pub struct BlockEntry {
    pub streams: usize,
    pub attn_norm: usize,
    pub gates: HcGates,
}

/// Builds a block's entry.
pub fn entry(g: &mut Graph, c: &Deepseek4Config, il: u32, streams: usize, nt: i64) -> (e: BlockEntry)
    requires
        old(g).wf(),
        dims_fit(*c),
        streams < old(g)@.len(),
    ensures
        final(g).wf(),
        extends(final(g)@, old(g)@),
        e.streams == streams,
        e.attn_norm < final(g)@.len(),
        final(g)@[e.attn_norm as int] == attn_input(
            *c,
            il as nat,
            old(g)@[streams as int],
            nt as int,
        ),
        e.gates.stand_for(
            final(g)@,
            attn_gates(*c, il as nat, old(g)@[streams as int], nt as int),
        ),
{
    let weight = g.weight(block_tensor(il, "hc_attn_fn.weight"));
    let mixes = op_mixes(g, c, streams, weight, nt);
    let scales = g.weight(block_tensor(il, "hc_attn_scale.weight"));
    let bases = g.weight(block_tensor(il, "hc_attn_base.weight"));
    let gates = hc_gates(g, c, mixes, scales, bases, nt);
    let collapsed = g.op2(Op::HcPre, streams, gates.pre);
    let attn_norm = op_norm(g, c, il, "attn_norm.weight", collapsed);
    BlockEntry { streams, attn_norm, gates }
}

// ------------------------------------------------------------------------ attention

/// `n` positions' `rows` heads each, only their trailing dimensions rotated, or rotated
/// back.
pub open spec fn part_rotated(
    c: Deepseek4Config,
    x: Expr,
    rows: int,
    n: int,
    at: Expr,
    rope: LayerRope,
    back: bool,
) -> Expr {
    let hs = (c.kv_lora_rank * 4) as usize;
    let plain = c.plain_dims();
    let still = e1(
        Op::View3d {
            n0: plain as i64,
            n1: rows as i64,
            n2: n as i64,
            stride1: hs,
            stride2: (c.kv_lora_rank * 4 * rows) as usize,
            offset: 0,
        },
        x,
    );
    let turning = e1(
        Op::View3d {
            n0: c.n_rot as i64,
            n1: rows as i64,
            n2: n as i64,
            stride1: hs,
            stride2: (c.kv_lora_rank * 4 * rows) as usize,
            offset: (plain * 4) as usize,
        },
        x,
    );
    let turned = e2(
        if back {
            Op::RopeExtBack {
                n_dims: c.n_rot as i32,
                mode: ROPE_MODE_NORM,
                n_ctx_orig: rope.n_ctx_orig,
                rope: rope.params,
            }
        } else {
            Op::RopeExt {
                n_dims: c.n_rot as i32,
                mode: ROPE_MODE_NORM,
                n_ctx_orig: rope.n_ctx_orig,
                rope: rope.params,
            }
        },
        turning,
        at,
    );
    e2(Op::Concat { dim: 0 }, still, turned)
}

/// The absolute positions of a batch.
pub open spec fn batch_positions(pos0: int, nt: int) -> Expr {
    Expr::Ints { n0: nt, n1: 1, values: positions_from(pos0, nt) }
}

/// The queries: low-rank, normalised per head without a weight, trailing dimensions
/// rotated.
pub open spec fn queries(
    c: Deepseek4Config,
    il: nat,
    h: Expr,
    nt: int,
    pos0: int,
    rope: LayerRope,
) -> Expr {
    let low = normed(
        c.rms_eps,
        e2(Op::MulMat, w(il, "attn_q_a.weight"@), h),
        w(il, "attn_q_a_norm.weight"@),
    );
    let q = e1(
        Op::RmsNorm { eps: c.rms_eps },
        e1(
            Op::Reshape3d { n0: c.kv_lora_rank as i64, n1: c.n_head as i64, n2: nt as i64 },
            e2(Op::MulMat, w(il, "attn_q_b.weight"@), low),
        ),
    );
    part_rotated(c, q, c.n_head as int, nt, batch_positions(pos0, nt), rope, false)
}

/// The latents that serve as keys and as values: one head, trailing dimensions rotated
/// before they are stored, and never again.
pub open spec fn latents(
    c: Deepseek4Config,
    il: nat,
    h: Expr,
    nt: int,
    pos0: int,
    rope: LayerRope,
) -> Expr {
    let kv = normed(
        c.rms_eps,
        e2(Op::MulMat, w(il, "attn_kv.weight"@), h),
        w(il, "attn_kv_a_norm.weight"@),
    );
    let kv = e1(Op::Reshape3d { n0: c.kv_lora_rank as i64, n1: 1, n2: nt as i64 }, kv);
    part_rotated(c, kv, 1, nt, batch_positions(pos0, nt), rope, false)
}

fn op_part_rotated(
    g: &mut Graph,
    c: &Deepseek4Config,
    x: usize,
    rows: u32,
    n: i64,
    at: usize,
    rope: LayerRope,
    back: bool,
) -> (out: usize)
    requires
        old(g).wf(),
        x < old(g)@.len(),
        at < old(g)@.len(),
        c.kv_lora_rank * 4 * rows <= usize::MAX,
        c.kv_lora_rank * 4 <= usize::MAX,
    ensures
        final(g).wf(),
        extends(final(g)@, old(g)@),
        out < final(g)@.len(),
        final(g)@[out as int] == part_rotated(
            *c,
            old(g)@[x as int],
            rows as int,
            n as int,
            old(g)@[at as int],
            rope,
            back,
        ),
{
    let hs: usize = c.kv_lora_rank as usize * 4;
    let stride2: usize = hs * rows as usize;
    let plain: u32 = c.n_rot_none();
    let still = g.op1(
        Op::View3d {
            n0: plain as i64,
            n1: rows as i64,
            n2: n,
            stride1: hs,
            stride2,
            offset: 0,
        },
        x,
    );
    let turning = g.op1(
        Op::View3d {
            n0: c.n_rot as i64,
            n1: rows as i64,
            n2: n,
            stride1: hs,
            stride2,
            offset: plain as usize * 4,
        },
        x,
    );
    let n_dims: i32 = c.n_rot as i32;
    let op = if back {
        Op::RopeExtBack {
            n_dims,
            mode: ROPE_MODE_NORM,
            n_ctx_orig: rope.n_ctx_orig,
            rope: rope.params,
        }
    } else {
        Op::RopeExt {
            n_dims,
            mode: ROPE_MODE_NORM,
            n_ctx_orig: rope.n_ctx_orig,
            rope: rope.params,
        }
    };
    let turned = g.op2(op, turning, at);
    g.op2(Op::Concat { dim: 0 }, still, turned)
}

fn op_positions(g: &mut Graph, pos0: i64, nt: i64) -> (at: usize)
    requires
        old(g).wf(),
        0 <= pos0,
        0 <= nt,
        pos0 + nt <= i32::MAX,
    ensures
        final(g).wf(),
        extends(final(g)@, old(g)@),
        at < final(g)@.len(),
        final(g)@[at as int] == batch_positions(pos0 as int, nt as int),
{
    let mut values: Vec<i32> = Vec::new();
    let mut i: i64 = 0;
    while i < nt
        invariant
            0 <= i <= nt,
            0 <= pos0,
            pos0 + nt <= i32::MAX,
            values@ == positions_from(pos0 as int, i as int),
        decreases nt - i,
    {
        values.push((pos0 + i) as i32);
        i = i + 1;
        assert(values@ =~= positions_from(pos0 as int, i as int));
    }
    g.ints(nt, 1, values)
}

/// Builds queries and latents.
pub fn q_and_kv(
    g: &mut Graph,
    c: &Deepseek4Config,
    il: u32,
    attn_norm: usize,
    nt: i64,
    pos0: i64,
    rope: LayerRope,
) -> (at: (usize, usize))
    requires
        old(g).wf(),
        dims_fit(*c),
        attn_norm < old(g)@.len(),
        0 <= pos0,
        0 <= nt,
        pos0 + nt <= i32::MAX,
    ensures
        final(g).wf(),
        extends(final(g)@, old(g)@),
        at.0 < final(g)@.len(),
        at.1 < final(g)@.len(),
        final(g)@[at.0 as int] == queries(
            *c,
            il as nat,
            old(g)@[attn_norm as int],
            nt as int,
            pos0 as int,
            rope,
        ),
        final(g)@[at.1 as int] == latents(
            *c,
            il as nat,
            old(g)@[attn_norm as int],
            nt as int,
            pos0 as int,
            rope,
        ),
{
    proof {
        assert(c.kv_lora_rank * c.n_head * 4 == c.kv_lora_rank * 4 * c.n_head) by (nonlinear_arith);
    }
    let head: i64 = c.kv_lora_rank as i64;
    let pos = op_positions(g, pos0, nt);
    let qr = op_through(g, il, "attn_q_a.weight", attn_norm);
    let qr = op_norm(g, c, il, "attn_q_a_norm.weight", qr);
    let q = op_through(g, il, "attn_q_b.weight", qr);
    let q = g.op1(Op::Reshape3d { n0: head, n1: c.n_head as i64, n2: nt }, q);
    let q = g.op1(Op::RmsNorm { eps: c.rms_eps }, q);
    let q_full = op_part_rotated(g, c, q, c.n_head, nt, pos, rope, false);
    let kv = op_through(g, il, "attn_kv.weight", attn_norm);
    let kv = op_norm(g, c, il, "attn_kv_a_norm.weight", kv);
    let kv = g.op1(Op::Reshape3d { n0: head, n1: 1, n2: nt }, kv);
    let kv_full = op_part_rotated(g, c, kv, 1, nt, pos, rope, false);
    (q_full, kv_full)
}

/// Attention of `q` over the stored latents through the learned sinks, rotated back,
/// then projected group by group.
pub open spec fn latent_attended(
    c: Deepseek4Config,
    il: nat,
    q: Expr,
    nt: int,
    pos0: int,
    n_kv: int,
    mask: Seq<u8>,
    rope: LayerRope,
) -> Expr {
    let head = c.kv_lora_rank as i64;
    let groups = c.output_group_count as i64;
    let k = held(Slot::CachedKeys, head as int, n_kv, 1);
    let out = e5(
        Op::FlashAttnSinks { scale: AttnScale::InverseSqrt(c.kv_lora_rank) },
        e1(Op::Permute { a0: 0, a1: 2, a2: 1, a3: 3 }, q),
        k,
        k,
        Expr::Halves { n0: n_kv, n1: nt, bytes: mask },
        w(il, "attn_sinks.weight"@),
    );
    let out = e1(Op::Reshape3d { n0: head, n1: c.n_head as i64, n2: nt as i64 }, out);
    // Left in place, the rotation would be baked into the residual streams.
    let out = part_rotated(c, out, c.n_head as int, nt, batch_positions(pos0, nt), rope, true);
    let wide = (c.n_head * c.kv_lora_rank / c.output_group_count as int) as i64;
    let out = e1(
        Op::Cont,
        e1(
            Op::Permute { a0: 0, a1: 2, a2: 1, a3: 3 },
            e1(Op::Reshape3d { n0: wide, n1: groups, n2: nt as i64 }, out),
        ),
    );
    let down = e1(
        Op::Reshape3d { n0: wide, n1: c.output_lora_rank as i64, n2: groups },
        w(il, "attn_output_a.weight"@),
    );
    let low = e1(
        Op::Cont,
        e1(Op::Permute { a0: 0, a1: 2, a2: 1, a3: 3 }, e2(Op::MulMat, down, out)),
    );
    let low = e1(
        Op::Reshape2d {
            n0: (c.output_lora_rank * c.output_group_count) as i64,
            n1: nt as i64,
        },
        low,
    );
    e2(Op::MulMat, w(il, "attn_output_b.weight"@), low)
}

/// Builds attention over the stored latents; `mask` is theirs, over `n_kv` keys.
pub fn attention(
    g: &mut Graph,
    c: &Deepseek4Config,
    il: u32,
    q: usize,
    nt: i64,
    pos0: i64,
    n_kv: i64,
    mask: Vec<u8>,
    rope: LayerRope,
) -> (at: usize)
    requires
        old(g).wf(),
        dims_fit(*c),
        q < old(g)@.len(),
        0 <= pos0,
        0 <= nt,
        pos0 + nt <= i32::MAX,
    ensures
        final(g).wf(),
        extends(final(g)@, old(g)@),
        at < final(g)@.len(),
        final(g)@[at as int] == latent_attended(
            *c,
            il as nat,
            old(g)@[q as int],
            nt as int,
            pos0 as int,
            n_kv as int,
            mask@,
            rope,
        ),
{
    proof {
        assert(c.kv_lora_rank * c.n_head * 4 == c.kv_lora_rank * 4 * c.n_head) by (nonlinear_arith);
        assert(0 <= c.n_head * c.kv_lora_rank <= usize::MAX / 4) by (nonlinear_arith)
            requires
                c.kv_lora_rank * c.n_head * 4 <= usize::MAX,
                c.n_head >= 0,
                c.kv_lora_rank >= 0,
        ;
    }
    let head: i64 = c.kv_lora_rank as i64;
    let groups: i64 = c.output_group_count as i64;
    let k = g.input(Slot::CachedKeys, head, n_kv, 1);
    let m = g.place(Node::Halves { n0: n_kv, n1: nt, bytes: mask });
    let qp = g.op1(Op::Permute { a0: 0, a1: 2, a2: 1, a3: 3 }, q);
    let sinks = g.weight(block_tensor(il, "attn_sinks.weight"));
    let out = g.op5(
        Op::FlashAttnSinks { scale: AttnScale::InverseSqrt(c.kv_lora_rank) },
        qp,
        k,
        k,
        m,
        sinks,
    );
    let out = g.op1(Op::Reshape3d { n0: head, n1: c.n_head as i64, n2: nt }, out);
    let pos = op_positions(g, pos0, nt);
    let out = op_part_rotated(g, c, out, c.n_head, nt, pos, rope, true);
    let wide: i64 = (c.n_head as u64 * c.kv_lora_rank as u64 / c.output_group_count as u64) as i64;
    let out = g.op1(Op::Reshape3d { n0: wide, n1: groups, n2: nt }, out);
    let out = g.op1(Op::Permute { a0: 0, a1: 2, a2: 1, a3: 3 }, out);
    let out = g.op1(Op::Cont, out);
    let down = g.weight(block_tensor(il, "attn_output_a.weight"));
    let down = g.op1(
        Op::Reshape3d { n0: wide, n1: c.output_lora_rank as i64, n2: groups },
        down,
    );
    let low = g.op2(Op::MulMat, down, out);
    let low = g.op1(Op::Permute { a0: 0, a1: 2, a2: 1, a3: 3 }, low);
    let low = g.op1(Op::Cont, low);
    let low = g.op1(
        Op::Reshape2d { n0: (c.output_lora_rank * c.output_group_count) as i64, n1: nt },
        low,
    );
    op_through(g, il, "attn_output_b.weight", low)
}

// ----------------------------------------------------------------------- compressor

/// The offset of each of a batch's tokens within its block.
pub open spec fn block_offsets(pos0: int, nt: int, ratio: int) -> Seq<i32> {
    Seq::new(nt as nat, |p: int| ((pos0 + p) % ratio) as i32)
}

/// The compressor's rows for a batch.
pub open spec fn compressor_rows(il: nat, h: Expr) -> Expr {
    e2(Op::MulMat, w(il, "attn_compressor_kv.weight"@), h)
}

/// The compressor's scores for a batch, shifted by each token's place in its block.
pub open spec fn compressor_scores(il: nat, h: Expr, pos0: int, nt: int, ratio: int) -> Expr {
    e2(
        Op::Add,
        e2(Op::MulMat, w(il, "attn_compressor_gate.weight"@), h),
        e2(
            Op::GetRows,
            w(il, "attn_compressor_ape.weight"@),
            Expr::Ints { n0: nt, n1: 1, values: block_offsets(pos0, nt, ratio) },
        ),
    )
}

/// Builds the rows and scores that a batch feeds its layer's compressor. They run on
/// every pass through a compressed layer: a batch that completes no block still
/// contributes to the window the next completed block summarises.
pub fn compressor_project(
    g: &mut Graph,
    il: u32,
    attn_norm: usize,
    nt: i64,
    pos0: i64,
    ratio: i64,
) -> (at: (usize, usize))
    requires
        old(g).wf(),
        attn_norm < old(g)@.len(),
        0 < ratio <= i32::MAX,
        0 <= pos0 <= i32::MAX,
        0 <= nt <= i32::MAX,
    ensures
        final(g).wf(),
        extends(final(g)@, old(g)@),
        at.0 < final(g)@.len(),
        at.1 < final(g)@.len(),
        final(g)@[at.0 as int] == compressor_rows(il as nat, old(g)@[attn_norm as int]),
        final(g)@[at.1 as int] == compressor_scores(
            il as nat,
            old(g)@[attn_norm as int],
            pos0 as int,
            nt as int,
            ratio as int,
        ),
{
    let kv = op_through(g, il, "attn_compressor_kv.weight", attn_norm);
    let score = op_through(g, il, "attn_compressor_gate.weight", attn_norm);
    let offsets = g.ints(nt, 1, offsets_in_block(pos0, nt, ratio));
    let table = g.weight(block_tensor(il, "attn_compressor_ape.weight"));
    let ape = g.op2(Op::GetRows, table, offsets);
    let score = g.op2(Op::Add, score, ape);
    (kv, score)
}

/// Rows gathered for the completed blocks, arranged window by window with the window
/// first: of overlapping windows the first half of each previous row beside the second
/// half of each current one.
pub open spec fn windows(
    c: Deepseek4Config,
    source: Expr,
    rows: Seq<i32>,
    ratio: int,
    n_blocks: int,
    overlap: bool,
) -> Expr {
    let head = c.kv_lora_rank as int;
    let n_read = ratio * n_blocks;
    let row = head * 2 * 4;
    let picked = e2(
        Op::GetRows,
        source,
        Expr::Ints { n0: rows.len() as int, n1: 1, values: rows },
    );
    let shape = Op::Reshape3d { n0: head as i64, n1: ratio as i64, n2: n_blocks as i64 };
    let joined = if overlap {
        let previous = e1(
            Op::Cont,
            e1(
                Op::View2d {
                    n0: head as i64,
                    n1: n_read as i64,
                    stride: row as usize,
                    offset: 0,
                },
                picked,
            ),
        );
        let current = e1(
            Op::Cont,
            e1(
                Op::View2d {
                    n0: head as i64,
                    n1: n_read as i64,
                    stride: row as usize,
                    offset: (n_read * row + head * 4) as usize,
                },
                picked,
            ),
        );
        e2(Op::Concat { dim: 1 }, e1(shape, previous), e1(shape, current))
    } else {
        e1(shape, picked)
    };
    e1(Op::Cont, e1(Op::Permute { a0: 1, a1: 0, a2: 2, a3: 3 }, joined))
}

/// The summaries of the completed blocks: rows averaged by the softmax of their scores,
/// normalised, and rotated at the position each block starts at.
pub open spec fn summaries(
    c: Deepseek4Config,
    il: nat,
    plan: CompressorPlan,
    ratio: int,
    nt: int,
    overlap: bool,
    rope: LayerRope,
) -> Expr {
    let pad = if overlap {
        1int
    } else {
        0
    };
    let total = plan.state_rows + nt + pad;
    let n_blocks = plan.b1 - plan.b0;
    let values = windows(
        c,
        held(Slot::CompressorRows, plan.wide as int, total, 1),
        plan.rows@,
        ratio,
        n_blocks,
        overlap,
    );
    let scores = windows(
        c,
        held(Slot::CompressorScores, plan.wide as int, total, 1),
        plan.rows@,
        ratio,
        n_blocks,
        overlap,
    );
    let mean = e1(Op::SumRows, e2(Op::Mul, values, e1(Op::SoftMax, scores)));
    let mean = e1(Op::Cont, e1(Op::Permute { a0: 1, a1: 0, a2: 2, a3: 3 }, mean));
    part_rotated(
        c,
        normed(c.rms_eps, mean, w(il, "attn_compressor_norm.weight"@)),
        1,
        n_blocks,
        Expr::Ints { n0: n_blocks, n1: 1, values: plan.positions@ },
        rope,
        false,
    )
}

fn copy_ints(v: &Vec<i32>) -> (out: Vec<i32>)
    ensures
        out@ == v@,
{
    let mut out: Vec<i32> = Vec::new();
    out.extend_from_slice(v.as_slice());
    assert(out@ =~= v@);
    out
}

fn op_windows(
    g: &mut Graph,
    c: &Deepseek4Config,
    source: usize,
    rows: &Vec<i32>,
    ratio: i64,
    n_blocks: i64,
    overlap: bool,
) -> (at: usize)
    requires
        old(g).wf(),
        source < old(g)@.len(),
        rows@.len() <= i64::MAX,
        c.kv_lora_rank * 8 <= usize::MAX,
        0 <= ratio,
        0 <= n_blocks,
        0 <= ratio * n_blocks <= i32::MAX,
        ratio * n_blocks * c.kv_lora_rank * 8 + c.kv_lora_rank * 4 <= usize::MAX,
    ensures
        final(g).wf(),
        extends(final(g)@, old(g)@),
        at < final(g)@.len(),
        final(g)@[at as int] == windows(
            *c,
            old(g)@[source as int],
            rows@,
            ratio as int,
            n_blocks as int,
            overlap,
        ),
{
    let head: i64 = c.kv_lora_rank as i64;
    let n_read: i64 = ratio * n_blocks;
    let row: usize = c.kv_lora_rank as usize * 8;
    let idx = g.ints(rows.len() as i64, 1, copy_ints(rows));
    let picked = g.op2(Op::GetRows, source, idx);
    let joined = if overlap {
        proof {
            let r = (c.kv_lora_rank * 8) as int;
            assert(n_read * r == ratio * n_blocks * c.kv_lora_rank * 8) by (nonlinear_arith)
                requires
                    n_read == ratio * n_blocks,
                    r == c.kv_lora_rank * 8,
            ;
            assert(0 <= n_read * r) by (nonlinear_arith)
                requires
                    n_read >= 0,
                    r >= 0,
            ;
        }
        let previous = g.op1(
            Op::View2d { n0: head, n1: n_read, stride: row, offset: 0 },
            picked,
        );
        let previous = g.op1(Op::Cont, previous);
        let offset: usize = n_read as usize * row + c.kv_lora_rank as usize * 4;
        let current = g.op1(Op::View2d { n0: head, n1: n_read, stride: row, offset }, picked);
        let current = g.op1(Op::Cont, current);
        let previous = g.op1(Op::Reshape3d { n0: head, n1: ratio, n2: n_blocks }, previous);
        let current = g.op1(Op::Reshape3d { n0: head, n1: ratio, n2: n_blocks }, current);
        g.op2(Op::Concat { dim: 1 }, previous, current)
    } else {
        g.op1(Op::Reshape3d { n0: head, n1: ratio, n2: n_blocks }, picked)
    };
    let turned = g.op1(Op::Permute { a0: 1, a1: 0, a2: 2, a3: 3 }, joined);
    g.op1(Op::Cont, turned)
}

/// Builds the summaries of the blocks that a batch completes, from its framed rows and
/// scores.
pub fn compressor(
    g: &mut Graph,
    c: &Deepseek4Config,
    il: u32,
    plan: &CompressorPlan,
    ratio: i64,
    nt: i64,
    overlap: bool,
    rope: LayerRope,
) -> (at: usize)
    requires
        old(g).wf(),
        dims_fit(*c),
        0 < ratio,
        0 <= nt <= i32::MAX,
        0 <= plan.b0 <= plan.b1 <= i32::MAX,
        0 <= plan.state_rows <= i32::MAX,
        plan.rows@.len() <= i64::MAX,
        0 <= ratio * (plan.b1 - plan.b0) <= i32::MAX,
        ratio * (plan.b1 - plan.b0) * c.kv_lora_rank * 8 + c.kv_lora_rank * 4 <= usize::MAX,
    ensures
        final(g).wf(),
        extends(final(g)@, old(g)@),
        at < final(g)@.len(),
        final(g)@[at as int] == summaries(
            *c,
            il as nat,
            *plan,
            ratio as int,
            nt as int,
            overlap,
            rope,
        ),
{
    let pad: i64 = if overlap {
        1
    } else {
        0
    };
    let total: i64 = plan.state_rows + nt + pad;
    let n_blocks: i64 = plan.b1 - plan.b0;
    let kv = g.input(Slot::CompressorRows, plan.wide, total, 1);
    let score = g.input(Slot::CompressorScores, plan.wide, total, 1);
    let values = op_windows(g, c, kv, &plan.rows, ratio, n_blocks, overlap);
    let scores = op_windows(g, c, score, &plan.rows, ratio, n_blocks, overlap);
    let share = g.op1(Op::SoftMax, scores);
    let weighted = g.op2(Op::Mul, values, share);
    let mean = g.op1(Op::SumRows, weighted);
    let mean = g.op1(Op::Permute { a0: 1, a1: 0, a2: 2, a3: 3 }, mean);
    let mean = g.op1(Op::Cont, mean);
    let mean = op_norm(g, c, il, "attn_compressor_norm.weight", mean);
    let pos = g.ints(n_blocks, 1, copy_ints(&plan.positions));
    op_part_rotated(g, c, mean, 1, n_blocks, pos, rope, false)
}

// --------------------------------------------------------------- tail and feed-forward

/// Nodes of a block's tail: the streams after attention, what the feed-forward reads,
/// and its gates.
#[derive(Debug, Clone, Copy, PartialEq, Eq, Structural)]
pub struct BlockTail {
    pub streams: usize,
    pub ffn_norm: usize,
    pub gates: HcGates,
}

/// Builds a block's tail: attention written back across the streams, then the
/// feed-forward's own gates and norm.
pub fn layer_tail(
    g: &mut Graph,
    c: &Deepseek4Config,
    il: u32,
    e: &BlockEntry,
    attn_out: usize,
    nt: i64,
) -> (tail: BlockTail)
    requires
        old(g).wf(),
        dims_fit(*c),
        e.streams < old(g)@.len(),
        e.gates.stand_for(
            old(g)@,
            attn_gates(*c, il as nat, old(g)@[e.streams as int], nt as int),
        ),
        attn_out < old(g)@.len(),
    ensures
        final(g).wf(),
        extends(final(g)@, old(g)@),
        ({
            let after = streams_after(
                *c,
                il as nat,
                old(g)@[e.streams as int],
                old(g)@[attn_out as int],
                nt as int,
            );
            &&& tail.streams < final(g)@.len()
            &&& final(g)@[tail.streams as int] == after
            &&& tail.ffn_norm < final(g)@.len()
            &&& final(g)@[tail.ffn_norm as int] == ffn_input(*c, il as nat, after, nt as int)
            &&& tail.gates.stand_for(final(g)@, ffn_gates(*c, il as nat, after, nt as int))
        }),
{
    let streams = g.op4(Op::HcPost, attn_out, e.streams, e.gates.post, e.gates.comb);
    let weight = g.weight(block_tensor(il, "hc_ffn_fn.weight"));
    let mixes = op_mixes(g, c, streams, weight, nt);
    let scales = g.weight(block_tensor(il, "hc_ffn_scale.weight"));
    let bases = g.weight(block_tensor(il, "hc_ffn_base.weight"));
    let gates = hc_gates(g, c, mixes, scales, bases, nt);
    let collapsed = g.op2(Op::HcPre, streams, gates.pre);
    let ffn_norm = op_norm(g, c, il, "ffn_norm.weight", collapsed);
    BlockTail { streams, ffn_norm, gates }
}

/// The router's scores: neither softmax nor sigmoid.
pub open spec fn router_scores(il: nat, h: Expr) -> Expr {
    e1(Op::Sqrt, e1(Op::Softplus, e2(Op::MulMat, w(il, "ffn_gate_inp.weight"@), h)))
}

/// The experts of each token. The first blocks look theirs up by token id; the others
/// take the highest scores, steered by a bias.
pub open spec fn chosen_experts(c: Deepseek4Config, il: nat, h: Expr, tokens: Seq<i32>) -> Expr {
    if il < c.hash_layer_count {
        e2(
            Op::GetRows,
            w(il, "ffn_gate_tid2eid.weight"@),
            Expr::Ints { n0: tokens.len() as int, n1: 1, values: tokens },
        )
    } else {
        e1(
            Op::ArgsortTopK { k: c.n_expert_used as i32 },
            e2(Op::Add, router_scores(il, h), w(il, "exp_probs_b.bias"@)),
        )
    }
}

/// Each chosen expert's share: its unbiased score over the sum of the chosen, which is
/// kept from vanishing.
pub open spec fn expert_shares(c: Deepseek4Config, il: nat, h: Expr, tokens: Seq<i32>) -> Expr {
    let nt = tokens.len() as i64;
    let scores = e1(
        Op::Reshape3d { n0: 1, n1: c.n_expert as i64, n2: nt },
        router_scores(il, h),
    );
    let own = e1(
        Op::Reshape2d { n0: c.n_expert_used as i64, n1: nt },
        e2(Op::GetRows, scores, chosen_experts(c, il, h, tokens)),
    );
    let sum = e1(
        Op::Clamp { low: F32_LEAST_NORMAL_HALF, high: F32_INFINITY },
        e1(Op::SumRows, own),
    );
    e2(Op::Div, own, sum)
}

/// The routing weights: the shares, scaled.
pub open spec fn routing_weights(c: Deepseek4Config, il: nat, h: Expr, tokens: Seq<i32>) -> Expr {
    e1(
        Op::Scale { by: c.expert_weights_scale },
        e1(
            Op::Reshape3d { n0: 1, n1: c.n_expert_used as i64, n2: tokens.len() as i64 },
            expert_shares(c, il, h, tokens),
        ),
    )
}

/// Nodes of the router: the experts, their shares, and the weights.
#[derive(Debug, Clone, Copy, PartialEq, Eq, Structural)]
pub struct Routing {
    pub experts: usize,
    pub shares: usize,
    pub weights: usize,
}

/// Builds the router.
pub fn moe_routing(g: &mut Graph, c: &Deepseek4Config, il: u32, ffn_norm: usize, tokens: &Vec<i32>) -> (
r: Routing)
    requires
        old(g).wf(),
        ffn_norm < old(g)@.len(),
        tokens@.len() <= i64::MAX,
    ensures
        final(g).wf(),
        extends(final(g)@, old(g)@),
        ({
            let h = old(g)@[ffn_norm as int];
            &&& r.experts < final(g)@.len()
            &&& final(g)@[r.experts as int] == chosen_experts(*c, il as nat, h, tokens@)
            &&& r.shares < final(g)@.len()
            &&& final(g)@[r.shares as int] == expert_shares(*c, il as nat, h, tokens@)
            &&& r.weights < final(g)@.len()
            &&& final(g)@[r.weights as int] == routing_weights(*c, il as nat, h, tokens@)
        }),
{
    let nt: i64 = tokens.len() as i64;
    let n_used: i64 = c.n_expert_used as i64;
    let logits = op_through(g, il, "ffn_gate_inp.weight", ffn_norm);
    let soft = g.op1(Op::Softplus, logits);
    let probs = g.op1(Op::Sqrt, soft);
    let probs3 = g.op1(Op::Reshape3d { n0: 1, n1: c.n_expert as i64, n2: nt }, probs);
    let experts = if il < c.hash_layer_count {
        let ids = g.ints(nt, 1, copy_ints(tokens));
        let table = g.weight(block_tensor(il, "ffn_gate_tid2eid.weight"));
        g.op2(Op::GetRows, table, ids)
    } else {
        let bias = g.weight(block_tensor(il, "exp_probs_b.bias"));
        let biased = g.op2(Op::Add, probs, bias);
        g.op1(Op::ArgsortTopK { k: c.n_expert_used as i32 }, biased)
    };
    let own = g.op2(Op::GetRows, probs3, experts);
    let own = g.op1(Op::Reshape2d { n0: n_used, n1: nt }, own);
    let sum = g.op1(Op::SumRows, own);
    let sum = g.op1(Op::Clamp { low: F32_LEAST_NORMAL_HALF, high: F32_INFINITY }, sum);
    let shares = g.op2(Op::Div, own, sum);
    let weights = g.op1(Op::Reshape3d { n0: 1, n1: n_used, n2: nt }, shares);
    let weights = g.op1(Op::Scale { by: c.expert_weights_scale }, weights);
    Routing { experts, shares, weights }
}

/// The clamp of a layer, or none at all.
pub open spec fn limit_of(c: Deepseek4Config, il: int, shared: bool) -> u32 {
    match c.clamp_of(il, shared) {
        Some(limit) => limit,
        None => F32_INFINITY,
    }
}

/// SwiGLU with its clamps: its gating half from above only, the up projection from both sides.
pub open spec fn clamped_swiglu(gate: Expr, up: Expr, limit: u32) -> Expr {
    e2(
        Op::SwigluSplit,
        e1(Op::Clamp { low: F32_NEG_INFINITY, high: limit }, gate),
        e1(Op::Clamp { low: negated(limit), high: limit }, up),
    )
}

/// The expert that runs for every token.
pub open spec fn shared_out(c: Deepseek4Config, il: nat, h: Expr) -> Expr {
    e2(
        Op::MulMat,
        w(il, "ffn_down_shexp.weight"@),
        clamped_swiglu(
            e2(Op::MulMat, w(il, "ffn_gate_shexp.weight"@), h),
            e2(Op::MulMat, w(il, "ffn_up_shexp.weight"@), h),
            limit_of(c, il as int, true),
        ),
    )
}

/// The packed slices of one stacked tensor, `n` of them.
pub open spec fn stacked(il: nat, suffix: Seq<char>, shape: (i64, i64), n: int) -> Expr {
    e1(Op::Reshape3d { n0: shape.0, n1: shape.1, n2: n as i64 }, w(il, suffix))
}

/// Shapes of one slice of each stack: gating, up and down.
#[derive(Debug, Clone, Copy)]
pub struct SliceShapes {
    pub gate: (i64, i64),
    pub up: (i64, i64),
    pub down: (i64, i64),
}

/// Every chosen expert's output for every token, weighted. `ids` name experts by their
/// place among the `n` slices read.
pub open spec fn weighted_experts(
    c: Deepseek4Config,
    il: nat,
    h: Expr,
    weights: Expr,
    shapes: SliceShapes,
    ids: Seq<i32>,
    n: int,
    nt: int,
) -> Expr {
    let picked = Expr::Ints { n0: c.n_expert_used as int, n1: nt, values: ids };
    let x = e1(Op::Reshape3d { n0: c.n_embd as i64, n1: 1, n2: nt as i64 }, h);
    let gate = e3(
        Op::MulMatId,
        stacked(il, "ffn_gate_exps.weight"@, shapes.gate, n),
        x,
        picked,
    );
    let up = e3(Op::MulMatId, stacked(il, "ffn_up_exps.weight"@, shapes.up, n), x, picked);
    let down = e3(
        Op::MulMatId,
        stacked(il, "ffn_down_exps.weight"@, shapes.down, n),
        clamped_swiglu(gate, up, limit_of(c, il as int, false)),
        picked,
    );
    e2(Op::Mul, down, weights)
}

/// The `j`th chosen expert's output for every token.
pub open spec fn expert_view(c: Deepseek4Config, all: Expr, nt: int, j: int) -> Expr {
    e1(
        Op::View2d {
            n0: c.n_embd as i64,
            n1: nt as i64,
            stride: (c.n_embd * 4 * c.n_expert_used) as usize,
            offset: (j * (c.n_embd * 4)) as usize,
        },
        all,
    )
}

/// The first `n` chosen experts' outputs, summed.
pub open spec fn expert_sum(c: Deepseek4Config, all: Expr, nt: int, n: int) -> Expr
    decreases n,
{
    if n <= 1 {
        expert_view(c, all, nt, 0)
    } else {
        e2(Op::Add, expert_sum(c, all, nt, n - 1), expert_view(c, all, nt, n - 1))
    }
}

/// A block's feed-forward: the routed experts and the shared one.
pub open spec fn fed(
    c: Deepseek4Config,
    il: nat,
    h: Expr,
    weights: Expr,
    shapes: SliceShapes,
    ids: Seq<i32>,
    n: int,
    nt: int,
) -> Expr {
    e2(
        Op::Add,
        expert_sum(
            c,
            weighted_experts(c, il, h, weights, shapes, ids, n, nt),
            nt,
            c.n_expert_used as int,
        ),
        shared_out(c, il, h),
    )
}

fn op_swiglu(g: &mut Graph, gate: usize, up: usize, limit: u32) -> (at: usize)
    requires
        old(g).wf(),
        gate < old(g)@.len(),
        up < old(g)@.len(),
    ensures
        final(g).wf(),
        extends(final(g)@, old(g)@),
        at < final(g)@.len(),
        final(g)@[at as int] == clamped_swiglu(old(g)@[gate as int], old(g)@[up as int], limit),
{
    let a = g.op1(Op::Clamp { low: F32_NEG_INFINITY, high: limit }, gate);
    let b = g.op1(Op::Clamp { low: negate(limit), high: limit }, up);
    g.op2(Op::SwigluSplit, a, b)
}

fn op_stack(g: &mut Graph, il: u32, suffix: &str, shape: (i64, i64), n: usize) -> (at: usize)
    requires
        old(g).wf(),
        n <= i64::MAX,
    ensures
        final(g).wf(),
        extends(final(g)@, old(g)@),
        at < final(g)@.len(),
        final(g)@[at as int] == stacked(il as nat, suffix@, shape, n as int),
{
    let weight = g.weight(block_tensor(il, suffix));
    g.op1(Op::Reshape3d { n0: shape.0, n1: shape.1, n2: n as i64 }, weight)
}

fn limit(c: &Deepseek4Config, il: u32, shared: bool) -> (limit: u32)
    ensures
        limit == limit_of(*c, il as int, shared),
{
    match c.swiglu_limit(il, shared) {
        Some(limit) => limit,
        None => F32_INFINITY,
    }
}

/// Builds a block's feed-forward over the `n` slices read, `ids` naming each token's
/// experts by their place among them.
pub fn ffn(
    g: &mut Graph,
    c: &Deepseek4Config,
    il: u32,
    ffn_norm: usize,
    weights: usize,
    shapes: SliceShapes,
    ids: Vec<i32>,
    n: usize,
    nt: i64,
) -> (at: usize)
    requires
        old(g).wf(),
        dims_fit(*c),
        c.n_expert_used >= 1,
        ffn_norm < old(g)@.len(),
        weights < old(g)@.len(),
        n <= i64::MAX,
    ensures
        final(g).wf(),
        extends(final(g)@, old(g)@),
        at < final(g)@.len(),
        final(g)@[at as int] == fed(
            *c,
            il as nat,
            old(g)@[ffn_norm as int],
            old(g)@[weights as int],
            shapes,
            ids@,
            n as int,
            nt as int,
        ),
{
    let ghost h = g@[ffn_norm as int];
    let ghost ws = g@[weights as int];
    let ghost start = g@;
    let sh_gate = op_through(g, il, "ffn_gate_shexp.weight", ffn_norm);
    let sh_up = op_through(g, il, "ffn_up_shexp.weight", ffn_norm);
    let sh = op_swiglu(g, sh_gate, sh_up, limit(c, il, true));
    let sh = op_through(g, il, "ffn_down_shexp.weight", sh);
    let picked = g.ints(c.n_expert_used as i64, nt, ids);
    let x = g.op1(Op::Reshape3d { n0: c.n_embd as i64, n1: 1, n2: nt }, ffn_norm);
    let gate_w = op_stack(g, il, "ffn_gate_exps.weight", shapes.gate, n);
    let gate = g.op3(Op::MulMatId, gate_w, x, picked);
    let up_w = op_stack(g, il, "ffn_up_exps.weight", shapes.up, n);
    let up = g.op3(Op::MulMatId, up_w, x, picked);
    let act = op_swiglu(g, gate, up, limit(c, il, false));
    let down_w = op_stack(g, il, "ffn_down_exps.weight", shapes.down, n);
    let down = g.op3(Op::MulMatId, down_w, act, picked);
    let all = g.op2(Op::Mul, down, weights);
    let ghost every = weighted_experts(
        *c,
        il as nat,
        h,
        ws,
        shapes,
        ids@,
        n as int,
        nt as int,
    );
    let ghost shared = shared_out(*c, il as nat, h);
    assert(g@[all as int] == every);
    let row: usize = c.n_embd as usize * 4;
    let stride: usize = row * c.n_expert_used as usize;
    let mut sum: usize = g.op1(
        Op::View2d { n0: c.n_embd as i64, n1: nt, stride, offset: 0 },
        all,
    );
    assert(0 * (c.n_embd * 4) == 0) by (nonlinear_arith);
    let mut j: u32 = 1;
    while j < c.n_expert_used
        invariant
            1 <= j <= c.n_expert_used,
            dims_fit(*c),
            g.wf(),
            extends(g@, start),
            all < g@.len(),
            g@[all as int] == every,
            sh < g@.len(),
            g@[sh as int] == shared,
            sum < g@.len(),
            row == c.n_embd * 4,
            stride == c.n_embd * 4 * c.n_expert_used,
            g@[sum as int] == expert_sum(*c, every, nt as int, j as int),
        decreases c.n_expert_used - j,
    {
        assert(0 <= j * (c.n_embd * 4) <= c.n_embd * 4 * c.n_expert_used) by (nonlinear_arith)
            requires
                0 <= j < c.n_expert_used,
                c.n_embd >= 0,
        ;
        let view = g.op1(
            Op::View2d { n0: c.n_embd as i64, n1: nt, stride, offset: j as usize * row },
            all,
        );
        assert(g@[view as int] == expert_view(*c, every, nt as int, j as int));
        sum = g.op2(Op::Add, sum, view);
        j = j + 1;
    }
    g.op2(Op::Add, sum, sh)
}

/// Builds what a block hands on.
pub fn write_back(
    g: &mut Graph,
    c: &Deepseek4Config,
    il: u32,
    tail: &BlockTail,
    ffn_out: usize,
    nt: i64,
) -> (at: usize)
    requires
        old(g).wf(),
        tail.streams < old(g)@.len(),
        tail.gates.stand_for(
            old(g)@,
            ffn_gates(*c, il as nat, old(g)@[tail.streams as int], nt as int),
        ),
        ffn_out < old(g)@.len(),
    ensures
        final(g).wf(),
        extends(final(g)@, old(g)@),
        at < final(g)@.len(),
        final(g)@[at as int] == block_out(
            *c,
            il as nat,
            old(g)@[tail.streams as int],
            old(g)@[ffn_out as int],
            nt as int,
        ),
{
    g.op4(Op::HcPost, ffn_out, tail.streams, tail.gates.post, tail.gates.comb)
}

// ----------------------------------------------------------------------------- head

/// The logits of the last token's streams. Only the `pre` half of the gates is there:
/// nothing writes back into the streams after this.
pub open spec fn head_out(c: Deepseek4Config) -> Expr {
    let hc = c.hc_mult as int;
    let x = held(Slot::LastStreams, c.n_embd as int, hc, 1);
    let mixes = mixes_of(c, x, outer("output_hc_fn.weight"@), 1);
    let s = e1(Op::View1d { n0: 1, offset: 0 }, outer("output_hc_scale.weight"@));
    let b = e1(Op::View1d { n0: hc as i64, offset: 0 }, outer("output_hc_base.weight"@));
    let gated = e1(Op::Sigmoid, e2(Op::Add, e2(Op::Mul, mixes, s), b));
    let pre = e2(Op::Add, gated, Expr::Floats { n0: hc, n1: 1, bits: millionths(hc) });
    e2(
        Op::MulMat,
        outer("output.weight"@),
        normed(c.rms_eps, e2(Op::HcPre, x, pre), outer("output_norm.weight"@)),
    )
}

/// Builds the output head.
pub fn head(g: &mut Graph, c: &Deepseek4Config) -> (at: usize)
    requires
        old(g).wf(),
        dims_fit(*c),
    ensures
        final(g).wf(),
        extends(final(g)@, old(g)@),
        at < final(g)@.len(),
        final(g)@[at as int] == head_out(*c),
{
    let hc: u32 = c.hc_mult;
    let x = g.input(Slot::LastStreams, c.n_embd as i64, hc as i64, 1);
    let weight = g.weight("output_hc_fn.weight".to_owned());
    let mixes = op_mixes(g, c, x, weight, 1);
    let scales = g.weight("output_hc_scale.weight".to_owned());
    let s = g.op1(Op::View1d { n0: 1, offset: 0 }, scales);
    let bases = g.weight("output_hc_base.weight".to_owned());
    let b = g.op1(Op::View1d { n0: hc as i64, offset: 0 }, bases);
    let scaled = g.op2(Op::Mul, mixes, s);
    let shifted = g.op2(Op::Add, scaled, b);
    let gated = g.op1(Op::Sigmoid, shifted);
    let eps = g.place(Node::Floats { n0: hc as i64, n1: 1, bits: repeated(F32_MILLIONTH, hc) });
    assert(g@[eps as int] == (Expr::Floats { n0: hc as int, n1: 1, bits: millionths(hc as int) }));
    let pre = g.op2(Op::Add, gated, eps);
    let collapsed = g.op2(Op::HcPre, x, pre);
    let h = g.op1(Op::RmsNorm { eps: c.rms_eps }, collapsed);
    let norm = g.weight("output_norm.weight".to_owned());
    let h = g.op2(Op::Mul, h, norm);
    let out = g.weight("output.weight".to_owned());
    g.op2(Op::MulMat, out, h)
}

} // verus!
