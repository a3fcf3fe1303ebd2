//! What a computation comes to.
//!
//! A [`Reading`] says what every leaf and every operation stands for, in any domain of
//! values. What holds of a computation under every reading with the algebra of the
//! operations it names holds of the numbers that the tensor library computes.
#[allow(unused_imports)]
use crate::graph::{e1, e2, e3, e4, e5, Expr, Op, Slot};
use vstd::prelude::*;

verus! {

/// What leaves and operations stand for.
#[verifier::reject_recursive_types(V)]
pub struct Reading<V> {
    pub weight: spec_fn(Seq<char>) -> V,
    pub ints: spec_fn(int, int, Seq<i32>) -> V,
    pub halves: spec_fn(int, int, Seq<u8>) -> V,
    pub floats: spec_fn(int, int, Seq<u32>) -> V,
    pub shape: spec_fn(int, int, int) -> V,
    pub input: spec_fn(Slot, int, int, int) -> V,
    pub apply: spec_fn(Op, Seq<V>) -> V,
}

/// What `e` comes to under `r`.
pub open spec fn value<V>(r: Reading<V>, e: Expr) -> V
    decreases e,
{
    match e {
        Expr::Weight(name) => (r.weight)(name),
        Expr::Ints { n0, n1, values } => (r.ints)(n0, n1, values),
        Expr::Halves { n0, n1, bytes } => (r.halves)(n0, n1, bytes),
        Expr::Floats { n0, n1, bits } => (r.floats)(n0, n1, bits),
        Expr::Shape { n0, n1, n2 } => (r.shape)(n0, n1, n2),
        Expr::Input { slot, n0, n1, n2 } => (r.input)(slot, n0, n1, n2),
        Expr::Apply { op, args } => (r.apply)(op, values(r, args)),
    }
}

/// What each of several computations comes to.
pub open spec fn values<V>(r: Reading<V>, all: Seq<Expr>) -> Seq<V>
    decreases all,
{
    Seq::new(
        all.len(),
        |i: int|
            if 0 <= i < all.len() {
                value(r, all[i])
            } else {
                arbitrary()
            },
    )
}

/// A name that is in one of several sets.
pub open spec fn in_one(sets: Seq<Set<Seq<char>>>, name: Seq<char>) -> bool {
    exists|i: int| 0 <= i < sets.len() && (#[trigger] sets[i]).contains(name)
}

/// The reading under which a computation comes to the names of its weights.
pub open spec fn naming() -> Reading<Set<Seq<char>>> {
    Reading {
        weight: |name: Seq<char>| set![name],
        ints: |n0: int, n1: int, values: Seq<i32>| Set::empty(),
        halves: |n0: int, n1: int, bytes: Seq<u8>| Set::empty(),
        floats: |n0: int, n1: int, bits: Seq<u32>| Set::empty(),
        shape: |n0: int, n1: int, n2: int| Set::empty(),
        input: |slot: Slot, n0: int, n1: int, n2: int| Set::empty(),
        apply: |op: Op, sets: Seq<Set<Seq<char>>>| Set::new(|name: Seq<char>| in_one(sets, name)),
    }
}

/// The weight `name` stands somewhere in `e`.
#[verifier::opaque]
pub open spec fn reads(e: Expr, name: Seq<char>) -> bool {
    value(naming(), e).contains(name)
}

/// What `op` makes of one value.
pub open spec fn on1<V>(r: Reading<V>, op: Op, a: V) -> V {
    (r.apply)(op, seq![a])
}

/// What `op` makes of two values.
pub open spec fn on2<V>(r: Reading<V>, op: Op, a: V, b: V) -> V {
    (r.apply)(op, seq![a, b])
}

/// What `op` makes of three values.
pub open spec fn on3<V>(r: Reading<V>, op: Op, a: V, b: V, c: V) -> V {
    (r.apply)(op, seq![a, b, c])
}

/// What `op` makes of four values.
pub open spec fn on4<V>(r: Reading<V>, op: Op, a: V, b: V, c: V, d: V) -> V {
    (r.apply)(op, seq![a, b, c, d])
}

/// What `op` makes of five values.
pub open spec fn on5<V>(r: Reading<V>, op: Op, a: V, b: V, c: V, d: V, e: V) -> V {
    (r.apply)(op, seq![a, b, c, d, e])
}

/// An operation comes to what it makes of its operand.
pub broadcast proof fn value_of_one<V>(r: Reading<V>, op: Op, a: Expr)
    ensures
        #[trigger] value(r, e1(op, a)) == on1(r, op, value(r, a)),
{
    let args = seq![a];
    assert(values(r, args) =~= seq![value(r, a)]);
}

/// An operation reads what its operand reads.
pub broadcast proof fn reads_of_one(op: Op, a: Expr, name: Seq<char>)
    ensures
        #[trigger] reads(e1(op, a), name) == (reads(a, name)),
{
    reveal(reads);
    value_of_one(naming(), op, a);
    let sets = seq![value(naming(), a)];
    assert(reads(e1(op, a), name) == in_one(sets, name));
    assert(sets[0] == value(naming(), a));
}

/// An operation on two operands comes to what it makes of them.
pub broadcast proof fn value_of_two<V>(r: Reading<V>, op: Op, a: Expr, b: Expr)
    ensures
        #[trigger] value(r, e2(op, a, b)) == on2(r, op, value(r, a), value(r, b)),
{
    let args = seq![a, b];
    assert(values(r, args) =~= seq![value(r, a), value(r, b)]);
}

/// An operation on two operands reads what they read.
pub broadcast proof fn reads_of_two(op: Op, a: Expr, b: Expr, name: Seq<char>)
    ensures
        #[trigger] reads(e2(op, a, b), name) == (reads(a, name) || reads(b, name)),
{
    reveal(reads);
    value_of_two(naming(), op, a, b);
    let sets = seq![value(naming(), a), value(naming(), b)];
    assert(reads(e2(op, a, b), name) == in_one(sets, name));
    assert(sets[0] == value(naming(), a));
    assert(sets[1] == value(naming(), b));
}

/// An operation on three operands comes to what it makes of them.
pub broadcast proof fn value_of_three<V>(r: Reading<V>, op: Op, a: Expr, b: Expr, c: Expr)
    ensures
        #[trigger] value(r, e3(op, a, b, c)) == on3(r, op, value(r, a), value(r, b), value(r, c)),
{
    let args = seq![a, b, c];
    assert(values(r, args) =~= seq![value(r, a), value(r, b), value(r, c)]);
}

/// An operation on three operands reads what they read.
pub broadcast proof fn reads_of_three(op: Op, a: Expr, b: Expr, c: Expr, name: Seq<char>)
    ensures
        #[trigger] reads(e3(op, a, b, c), name) == (reads(a, name) || reads(b, name) || reads(c, name)),
{
    reveal(reads);
    value_of_three(naming(), op, a, b, c);
    let sets = seq![value(naming(), a), value(naming(), b), value(naming(), c)];
    assert(reads(e3(op, a, b, c), name) == in_one(sets, name));
    assert(sets[0] == value(naming(), a));
    assert(sets[1] == value(naming(), b));
    assert(sets[2] == value(naming(), c));
}

/// An operation on four operands comes to what it makes of them.
pub broadcast proof fn value_of_four<V>(r: Reading<V>, op: Op, a: Expr, b: Expr, c: Expr, d: Expr)
    ensures
        #[trigger] value(r, e4(op, a, b, c, d)) == on4(r, op, value(r, a), value(r, b), value(r, c), value(r, d)),
{
    let args = seq![a, b, c, d];
    assert(values(r, args) =~= seq![value(r, a), value(r, b), value(r, c), value(r, d)]);
}

/// An operation on four operands reads what they read.
pub broadcast proof fn reads_of_four(op: Op, a: Expr, b: Expr, c: Expr, d: Expr, name: Seq<char>)
    ensures
        #[trigger] reads(e4(op, a, b, c, d), name) == (reads(a, name) || reads(b, name) || reads(c, name) || reads(d, name)),
{
    reveal(reads);
    value_of_four(naming(), op, a, b, c, d);
    let sets = seq![value(naming(), a), value(naming(), b), value(naming(), c), value(naming(), d)];
    assert(reads(e4(op, a, b, c, d), name) == in_one(sets, name));
    assert(sets[0] == value(naming(), a));
    assert(sets[1] == value(naming(), b));
    assert(sets[2] == value(naming(), c));
    assert(sets[3] == value(naming(), d));
}

/// An operation on five operands comes to what it makes of them.
pub broadcast proof fn value_of_five<V>(r: Reading<V>, op: Op, a: Expr, b: Expr, c: Expr, d: Expr, e: Expr)
    ensures
        #[trigger] value(r, e5(op, a, b, c, d, e)) == on5(r, op, value(r, a), value(r, b), value(r, c), value(r, d), value(r, e)),
{
    let args = seq![a, b, c, d, e];
    assert(values(r, args) =~= seq![value(r, a), value(r, b), value(r, c), value(r, d), value(r, e)]);
}

/// An operation on five operands reads what they read.
pub broadcast proof fn reads_of_five(op: Op, a: Expr, b: Expr, c: Expr, d: Expr, e: Expr, name: Seq<char>)
    ensures
        #[trigger] reads(e5(op, a, b, c, d, e), name) == (reads(a, name) || reads(b, name) || reads(c, name) || reads(d, name) || reads(e, name)),
{
    reveal(reads);
    value_of_five(naming(), op, a, b, c, d, e);
    let sets = seq![value(naming(), a), value(naming(), b), value(naming(), c), value(naming(), d), value(naming(), e)];
    assert(reads(e5(op, a, b, c, d, e), name) == in_one(sets, name));
    assert(sets[0] == value(naming(), a));
    assert(sets[1] == value(naming(), b));
    assert(sets[2] == value(naming(), c));
    assert(sets[3] == value(naming(), d));
    assert(sets[4] == value(naming(), e));
}

/// A weight reads itself.
pub broadcast proof fn reads_of_weight(own: Seq<char>, name: Seq<char>)
    ensures
        #[trigger] reads(Expr::Weight(own), name) == (own == name),
{
    reveal(reads);
}

/// Nothing but a weight reads a weight.
pub broadcast proof fn reads_of_data(e: Expr, name: Seq<char>)
    ensures
        !(e is Weight) && !(e is Apply) ==> !#[trigger] reads(e, name),
{
    reveal(reads);
}

pub broadcast group group_values {
    value_of_one,
    value_of_two,
    value_of_three,
    value_of_four,
    value_of_five,
}

pub broadcast group group_reads {
    reads_of_weight,
    reads_of_data,
    reads_of_one,
    reads_of_two,
    reads_of_three,
    reads_of_four,
    reads_of_five,
}

/// Two readings differ at most in their weights.
pub open spec fn but_for_weights<V>(r: Reading<V>, s: Reading<V>) -> bool {
    &&& r.ints == s.ints
    &&& r.halves == s.halves
    &&& r.floats == s.floats
    &&& r.shape == s.shape
    &&& r.input == s.input
    &&& r.apply == s.apply
}

/// Two readings agree on all weights but those named.
pub open spec fn agree_but<V>(r: Reading<V>, s: Reading<V>, names: Set<Seq<char>>) -> bool {
    &&& but_for_weights(r, s)
    &&& forall|name: Seq<char>|
        !names.contains(name) ==> #[trigger] (r.weight)(name) == (s.weight)(name)
}

/// `zero` adds nothing, from either side.
pub open spec fn adds_nothing<V>(r: Reading<V>, zero: V) -> bool {
    &&& forall|x: V| #[trigger] on2(r, Op::Add, zero, x) == x
    &&& forall|x: V| #[trigger] on2(r, Op::Add, x, zero) == x
}

/// A computation comes to the same under two readings that agree on the weights it reads:
/// nothing else that a container holds has any influence on it.
pub proof fn what_is_not_read_does_not_matter<V>(r: Reading<V>, s: Reading<V>, e: Expr)
    requires
        but_for_weights(r, s),
        forall|name: Seq<char>| #[trigger] reads(e, name) ==> (r.weight)(name) == (s.weight)(name),
    ensures
        value(r, e) == value(s, e),
    decreases e,
{
    match e {
        Expr::Weight(name) => {
            reads_of_weight(name, name);
        },
        Expr::Apply { op, args } => {
            assert forall|i: int| 0 <= i < args.len() implies value(r, args[i]) == value(
                s,
                args[i],
            ) by {
                assert forall|name: Seq<char>| #[trigger] reads(args[i], name) implies (r.weight)(
                    name,
                ) == (s.weight)(name) by {
                    reveal(reads);
                    assert(values(naming(), args)[i].contains(name));
                    assert(reads(e, name));
                }
                what_is_not_read_does_not_matter(r, s, args[i]);
            }
            assert(values(r, args) =~= values(s, args));
        },
        _ => {},
    }
}

} // verus!
