//! A tensor computation as data.
//!
//! The tensor library's graphs are declarative: a computation is described, then
//! executed. Here the description is built and reasoned about; executing one is the
//! caller's, node by node, each operand standing before the node that uses it.
//!
//! Real-valued attributes are f32 bit patterns. Shapes give the fastest-moving
//! dimension first.
use crate::deepseek4::RopeParams;
use vstd::prelude::*;

verus! {

/// Data the caller holds and a graph only names.
#[derive(Debug, Clone, Copy, PartialEq, Eq, Structural)]
pub enum Slot {
    /// Activations entering a block.
    Activations,
    /// Queries computed for the new positions.
    Queries,
    /// The stored keys of a layer.
    CachedKeys,
    /// The stored values of a layer.
    CachedValues,
    /// What attention added to the residual.
    FfnInput,
    /// The compressor's rows: what came before this batch, then this batch.
    CompressorRows,
    /// The compressor's scores, beside its rows.
    CompressorScores,
    /// The last token's residual streams.
    LastStreams,
}

/// One operation, with what is fixed about it.
#[derive(Debug, Clone, Copy, PartialEq, Eq, Structural)]
pub enum Op {
    /// Rows of the first operand picked by the second.
    GetRows,
    Reshape2d { n0: i64, n1: i64 },
    Reshape3d { n0: i64, n1: i64, n2: i64 },
    /// `n0` elements from a byte offset.
    View1d { n0: i64, offset: usize },
    /// `n1` runs of `n0` elements, `stride` bytes apart, from a byte offset.
    View2d { n0: i64, n1: i64, stride: usize, offset: usize },
    /// `n2` times `n1` runs of `n0` elements, with a stride for each.
    View3d { n0: i64, n1: i64, n2: i64, stride1: usize, stride2: usize, offset: usize },
    /// Whole rows `first..first + count` of a weight.
    Rows { first: i64, count: i64 },
    /// The first or the second half of a weight's rows.
    HalfRows { second: bool },
    /// Dimension `i` of the operand becomes dimension `axes[i]`.
    Permute { a0: i32, a1: i32, a2: i32, a3: i32 },
    Transpose,
    /// A contiguous copy.
    Cont,
    /// The first operand repeated to the shape of the second.
    Repeat,
    Concat { dim: i32 },
    RmsNorm { eps: u32 },
    Mul,
    Add,
    Div,
    /// The contraction of both operands' first dimensions.
    MulMat,
    /// `MulMat` with the matrix picked per column by the third operand.
    MulMatId,
    Scale { by: u32 },
    /// Multiplied by the square root of `of`.
    ScaleBySqrt { of: u32 },
    Clamp { low: u32, high: u32 },
    /// `cap * tanh(x / cap)`; nothing where `cap` is zero.
    Softcap { cap: u32 },
    /// `cap * tanh(x * scale / cap)`, for attention scores.
    CapScores { scale: AttnScale, cap: u32 },
    Silu,
    Sigmoid,
    Softplus,
    Sqrt,
    /// `silu(a) * b`.
    SwigluSplit,
    SoftMax,
    /// Softmax of `x * scale`, plus the second operand where there is one.
    SoftMaxExt { scale: AttnScale, max_bias: u32 },
    TopK { k: i32 },
    ArgsortTopK { k: i32 },
    SumRows,
    /// Rotates the first `n_dims` by position.
    RopeExt { n_dims: i32, mode: i32, n_ctx_orig: i32, rope: RopeParams },
    /// Undoes [`Op::RopeExt`].
    RopeExtBack { n_dims: i32, mode: i32, n_ctx_orig: i32, rope: RopeParams },
    /// Fused attention over queries, keys, values and mask.
    FlashAttn { scale: AttnScale, softcap: u32 },
    /// Fused attention with a learned sink per head as fifth operand.
    FlashAttnSinks { scale: AttnScale },
    /// Collapses residual streams through a gate.
    HcPre,
    /// Writes a block's output back across the residual streams.
    HcPost,
    /// The Sinkhorn-normalised combination of residual streams.
    HcComb { eps: u32, iterations: i32 },
}

/// What attention scores are multiplied by.
#[derive(Debug, Clone, Copy, PartialEq, Eq, Structural)]
pub enum AttnScale {
    /// An f32 bit pattern.
    Bits(u32),
    /// One over the square root of a head's width.
    InverseSqrt(u32),
}

/// One node of a graph; operands are the indices of earlier nodes.
#[derive(Debug)]
pub enum Node {
    /// A bound weight.
    Weight { name: String },
    /// 32-bit integers of shape `[n0, n1]`.
    Ints { n0: i64, n1: i64, values: Vec<i32> },
    /// f16 values as bytes, of shape `[n0, n1]`.
    Halves { n0: i64, n1: i64, bytes: Vec<u8> },
    /// f32 bit patterns of shape `[n0, n1]`.
    Floats { n0: i64, n1: i64, bits: Vec<u32> },
    /// An f32 tensor of shape `[n0, n1, n2]` that only lends its shape.
    Shape { n0: i64, n1: i64, n2: i64 },
    /// Data the caller holds, of shape `[n0, n1, n2]`.
    Input { slot: Slot, n0: i64, n1: i64, n2: i64 },
    /// An operation on earlier nodes.
    Apply { op: Op, args: Vec<usize> },
}

/// What a node computes, in terms of weights, data and operations.
pub enum Expr {
    Weight(Seq<char>),
    Ints { n0: int, n1: int, values: Seq<i32> },
    Halves { n0: int, n1: int, bytes: Seq<u8> },
    Floats { n0: int, n1: int, bits: Seq<u32> },
    Shape { n0: int, n1: int, n2: int },
    Input { slot: Slot, n0: int, n1: int, n2: int },
    Apply { op: Op, args: Seq<Expr> },
}

/// An operation on one operand.
pub open spec fn e1(op: Op, a: Expr) -> Expr {
    Expr::Apply { op, args: seq![a] }
}

/// An operation on two operands.
pub open spec fn e2(op: Op, a: Expr, b: Expr) -> Expr {
    Expr::Apply { op, args: seq![a, b] }
}

/// An operation on three operands.
pub open spec fn e3(op: Op, a: Expr, b: Expr, c: Expr) -> Expr {
    Expr::Apply { op, args: seq![a, b, c] }
}

/// An operation on four operands.
pub open spec fn e4(op: Op, a: Expr, b: Expr, c: Expr, d: Expr) -> Expr {
    Expr::Apply { op, args: seq![a, b, c, d] }
}

/// An operation on five operands.
pub open spec fn e5(op: Op, a: Expr, b: Expr, c: Expr, d: Expr, e: Expr) -> Expr {
    Expr::Apply { op, args: seq![a, b, c, d, e] }
}

/// The operands of a node stand before it.
pub open spec fn operands_before(node: Node, n: int) -> bool {
    match node {
        Node::Apply { op, args } => forall|i: int|
            0 <= i < args@.len() ==> (#[trigger] args@[i]) < n,
        _ => true,
    }
}

/// What `node` computes where the nodes before it compute `exprs`.
pub open spec fn meaning(node: Node, exprs: Seq<Expr>) -> Expr {
    match node {
        Node::Weight { name } => Expr::Weight(name@),
        Node::Ints { n0, n1, values } => Expr::Ints {
            n0: n0 as int,
            n1: n1 as int,
            values: values@,
        },
        Node::Halves { n0, n1, bytes } => Expr::Halves {
            n0: n0 as int,
            n1: n1 as int,
            bytes: bytes@,
        },
        Node::Floats { n0, n1, bits } => Expr::Floats {
            n0: n0 as int,
            n1: n1 as int,
            bits: bits@,
        },
        Node::Shape { n0, n1, n2 } => Expr::Shape { n0: n0 as int, n1: n1 as int, n2: n2 as int },
        Node::Input { slot, n0, n1, n2 } => Expr::Input {
            slot,
            n0: n0 as int,
            n1: n1 as int,
            n2: n2 as int,
        },
        Node::Apply { op, args } => Expr::Apply {
            op,
            args: args@.map_values(|a: usize| exprs[a as int]),
        },
    }
}

/// A computation under construction.
pub struct Graph {
    nodes: Vec<Node>,
    exprs: Ghost<Seq<Expr>>,
}

impl View for Graph {
    type V = Seq<Expr>;

    /// What each node computes.
    closed spec fn view(&self) -> Seq<Expr> {
        self.exprs@
    }
}

/// `after` holds everything `before` held, where it stood.
pub open spec fn extends(after: Seq<Expr>, before: Seq<Expr>) -> bool {
    &&& before.len() <= after.len()
    &&& forall|i: int| 0 <= i < before.len() ==> #[trigger] after[i] == before[i]
}

impl Graph {
    /// Every node's meaning is its own operation on the meanings of earlier nodes.
    pub closed spec fn wf(&self) -> bool {
        &&& self.nodes@.len() == self.exprs@.len()
        &&& forall|i: int|
            0 <= i < self.nodes@.len() ==> operands_before(#[trigger] self.nodes@[i], i)
                && self.exprs@[i] == meaning(self.nodes@[i], self.exprs@)
    }

    /// The nodes, in an order in which they can be executed.
    pub closed spec fn listed(&self) -> Seq<Node> {
        self.nodes@
    }

    pub fn new() -> (g: Self)
        ensures
            g.wf(),
            g@ == Seq::<Expr>::empty(),
    {
        Graph { nodes: Vec::new(), exprs: Ghost(Seq::empty()) }
    }

    /// The nodes, in an order in which they can be executed.
    pub fn nodes(&self) -> (nodes: &Vec<Node>)
        requires
            self.wf(),
        ensures
            nodes@ == self.listed(),
            nodes@.len() == self@.len(),
            forall|i: int|
                0 <= i < nodes@.len() ==> operands_before(#[trigger] nodes@[i], i) && self@[i]
                    == meaning(nodes@[i], self@),
    {
        &self.nodes
    }

    /// Appends a node.
    pub fn place(&mut self, node: Node) -> (at: usize)
        requires
            old(self).wf(),
            operands_before(node, old(self)@.len() as int),
        ensures
            final(self).wf(),
            at == old(self)@.len(),
            final(self)@ == old(self)@.push(meaning(node, old(self)@)),
    {
        let at: usize = self.nodes.len();
        let ghost before = self.exprs@;
        let ghost mean = meaning(node, before);
        self.nodes.push(node);
        self.exprs = Ghost(before.push(mean));
        proof {
            let after = self.exprs@;
            assert forall|i: int| 0 <= i < self.nodes@.len() implies operands_before(
                #[trigger] self.nodes@[i],
                i,
            ) && after[i] == meaning(self.nodes@[i], after) by {
                let n = self.nodes@[i];
                if i < before.len() {
                    assert(n == old(self).nodes@[i]);
                    assert(before[i] == meaning(n, before));
                }
                if let Node::Apply { op, args } = n {
                    assert(args@.map_values(|a: usize| after[a as int]) =~= args@.map_values(
                        |a: usize| before[a as int],
                    ));
                }
            }
        }
        at
    }

    /// A bound weight.
    pub fn weight(&mut self, name: String) -> (at: usize)
        requires
            old(self).wf(),
        ensures
            final(self).wf(),
            at == old(self)@.len(),
            final(self)@ == old(self)@.push(Expr::Weight(name@)),
    {
        self.place(Node::Weight { name })
    }

    /// Data the caller holds.
    pub fn input(&mut self, slot: Slot, n0: i64, n1: i64, n2: i64) -> (at: usize)
        requires
            old(self).wf(),
        ensures
            final(self).wf(),
            at == old(self)@.len(),
            final(self)@ == old(self)@.push(
                Expr::Input { slot, n0: n0 as int, n1: n1 as int, n2: n2 as int },
            ),
    {
        self.place(Node::Input { slot, n0, n1, n2 })
    }

    /// A row of 32-bit integers.
    pub fn ints(&mut self, n0: i64, n1: i64, values: Vec<i32>) -> (at: usize)
        requires
            old(self).wf(),
        ensures
            final(self).wf(),
            at == old(self)@.len(),
            final(self)@ == old(self)@.push(
                Expr::Ints { n0: n0 as int, n1: n1 as int, values: values@ },
            ),
    {
        self.place(Node::Ints { n0, n1, values })
    }

    /// An operation on one node.
    pub fn op1(&mut self, op: Op, a: usize) -> (at: usize)
        requires
            old(self).wf(),
            a < old(self)@.len(),
        ensures
            final(self).wf(),
            at == old(self)@.len(),
            final(self)@ == old(self)@.push(e1(op, old(self)@[a as int])),
    {
        let ghost before = self@;
        let args: Vec<usize> = vec![a];
        assert(args@.map_values(|a: usize| before[a as int]) =~= seq![before[a as int]]);
        self.place(Node::Apply { op, args })
    }

    /// An operation on two nodes.
    pub fn op2(&mut self, op: Op, a: usize, b: usize) -> (at: usize)
        requires
            old(self).wf(),
            a < old(self)@.len(),
            b < old(self)@.len(),
        ensures
            final(self).wf(),
            at == old(self)@.len(),
            final(self)@ == old(self)@.push(e2(op, old(self)@[a as int], old(self)@[b as int])),
    {
        let ghost before = self@;
        let args: Vec<usize> = vec![a, b];
        assert(args@.map_values(|a: usize| before[a as int]) =~= seq![
            before[a as int],
            before[b as int],
        ]);
        self.place(Node::Apply { op, args })
    }

    /// An operation on three nodes.
    pub fn op3(&mut self, op: Op, a: usize, b: usize, c: usize) -> (at: usize)
        requires
            old(self).wf(),
            a < old(self)@.len(),
            b < old(self)@.len(),
            c < old(self)@.len(),
        ensures
            final(self).wf(),
            at == old(self)@.len(),
            final(self)@ == old(self)@.push(
                e3(op, old(self)@[a as int], old(self)@[b as int], old(self)@[c as int]),
            ),
    {
        let ghost before = self@;
        let args: Vec<usize> = vec![a, b, c];
        assert(args@.map_values(|a: usize| before[a as int]) =~= seq![
            before[a as int],
            before[b as int],
            before[c as int],
        ]);
        self.place(Node::Apply { op, args })
    }

    /// An operation on four nodes.
    pub fn op4(&mut self, op: Op, a: usize, b: usize, c: usize, d: usize) -> (at: usize)
        requires
            old(self).wf(),
            a < old(self)@.len(),
            b < old(self)@.len(),
            c < old(self)@.len(),
            d < old(self)@.len(),
        ensures
            final(self).wf(),
            at == old(self)@.len(),
            final(self)@ == old(self)@.push(
                e4(
                    op,
                    old(self)@[a as int],
                    old(self)@[b as int],
                    old(self)@[c as int],
                    old(self)@[d as int],
                ),
            ),
    {
        let ghost before = self@;
        let args: Vec<usize> = vec![a, b, c, d];
        assert(args@.map_values(|a: usize| before[a as int]) =~= seq![
            before[a as int],
            before[b as int],
            before[c as int],
            before[d as int],
        ]);
        self.place(Node::Apply { op, args })
    }

    /// An operation on five nodes.
    pub fn op5(&mut self, op: Op, a: usize, b: usize, c: usize, d: usize, e: usize) -> (at: usize)
        requires
            old(self).wf(),
            a < old(self)@.len(),
            b < old(self)@.len(),
            c < old(self)@.len(),
            d < old(self)@.len(),
            e < old(self)@.len(),
        ensures
            final(self).wf(),
            at == old(self)@.len(),
            final(self)@ == old(self)@.push(
                e5(
                    op,
                    old(self)@[a as int],
                    old(self)@[b as int],
                    old(self)@[c as int],
                    old(self)@[d as int],
                    old(self)@[e as int],
                ),
            ),
    {
        let ghost before = self@;
        let args: Vec<usize> = vec![a, b, c, d, e];
        assert(args@.map_values(|a: usize| before[a as int]) =~= seq![
            before[a as int],
            before[b as int],
            before[c as int],
            before[d as int],
            before[e as int],
        ]);
        self.place(Node::Apply { op, args })
    }
}

} // verus!
