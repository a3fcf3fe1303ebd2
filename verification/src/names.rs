//! Tensor names: how a block's are spelled, and lists of them.
#[allow(unused_imports)]
use crate::text::{decimal, decimal_is_injective, decimal_reads_back, is_digit};
use crate::text::{chars_of, push_decimal};
use vstd::prelude::*;

verus! {

/// The texts of several strings.
pub open spec fn texts(strings: Seq<String>) -> Seq<Seq<char>> {
    strings.map_values(|s: String| s@)
}

/// The texts of several literals.
pub open spec fn literals(strings: Seq<&'static str>) -> Seq<Seq<char>> {
    strings.map_values(|s: &'static str| s@)
}

/// The name of block `il`'s tensor `suffix`.
pub open spec fn block_name(il: nat, suffix: Seq<char>) -> Seq<char> {
    "blk."@ + decimal(il) + "."@ + suffix
}

/// The names of block `il`'s tensors `suffixes`, in order.
pub open spec fn block_names(il: nat, suffixes: Seq<Seq<char>>) -> Seq<Seq<char>> {
    Seq::new(suffixes.len(), |i: int| block_name(il, suffixes[i]))
}

/// Two block tensors share a name only if block and suffix are the same.
pub proof fn block_names_differ(a: nat, s: Seq<char>, b: nat, t: Seq<char>)
    ensures
        block_name(a, s) == block_name(b, t) <==> a == b && s == t,
{
    if block_name(a, s) == block_name(b, t) {
        reveal_strlit("blk.");
        reveal_strlit(".");
        decimal_reads_back(a);
        decimal_reads_back(b);
        let x = block_name(a, s);
        let y = block_name(b, t);
        let m = decimal(a).len();
        let n = decimal(b).len();
        assert(x[4 + m as int] == '.');
        assert(y[4 + n as int] == '.');
        if m < n {
            assert(y[4 + m as int] == decimal(b)[m as int]);
            assert(is_digit(decimal(b)[m as int]));
            assert(false);
        }
        if n < m {
            assert(x[4 + n as int] == decimal(a)[n as int]);
            assert(is_digit(decimal(a)[n as int]));
            assert(false);
        }
        assert(decimal(a) =~= decimal(b)) by {
            assert forall|i: int| 0 <= i < m implies decimal(a)[i] == decimal(b)[i] by {
                assert(x[4 + i] == decimal(a)[i]);
                assert(y[4 + i] == decimal(b)[i]);
            }
        }
        decimal_is_injective(a, b);
        assert(x.len() == 5 + m + s.len());
        assert(y.len() == 5 + n + t.len());
        assert(s =~= t) by {
            assert forall|i: int| 0 <= i < s.len() implies s[i] == t[i] by {
                assert(x[5 + m + i] == s[i]);
                assert(y[5 + n + i] == t[i]);
            }
        }
    }
}

/// No block tensor has a name outside any block, unless that begins with `blk.`.
pub proof fn block_names_begin_with_blk(il: nat, suffix: Seq<char>)
    ensures
        block_name(il, suffix).len() > 4,
        block_name(il, suffix).take(4) == "blk."@,
{
    reveal_strlit("blk.");
    reveal_strlit(".");
    assert(block_name(il, suffix).take(4) =~= "blk."@);
}

/// The name of block `il`'s tensor `suffix`.
pub fn block_tensor(il: u32, suffix: &str) -> (name: String)
    ensures
        name@ == block_name(il as nat, suffix@),
{
    let mut name = String::new();
    name.append("blk.");
    push_decimal(&mut name, il as u64);
    name.append(".");
    name.append(suffix);
    assert(name@ =~= block_name(il as nat, suffix@));
    name
}

/// Appends the names of block `il`'s tensors `suffixes`.
pub fn push_block_names(names: &mut Vec<String>, il: u32, suffixes: &Vec<&'static str>)
    ensures
        texts(final(names)@) == texts(old(names)@) + block_names(il as nat, literals(suffixes@)),
{
    let ghost before = texts(names@);
    let ghost added = block_names(il as nat, literals(suffixes@));
    let mut i: usize = 0;
    while i < suffixes.len()
        invariant
            i <= suffixes.len(),
            added == block_names(il as nat, literals(suffixes@)),
            texts(names@) == before + added.take(i as int),
        decreases suffixes.len() - i,
    {
        let ghost was = names@;
        names.push(block_tensor(il, suffixes[i]));
        assert(texts(names@) =~= texts(was).push(added[i as int]));
        assert(added.take(i + 1) =~= added.take(i as int).push(added[i as int]));
        i = i + 1;
        assert(texts(names@) =~= before + added.take(i as int));
    }
    assert(added.take(i as int) =~= added);
}

/// Appends literals as they stand.
pub fn push_literals(names: &mut Vec<String>, plain: &Vec<&'static str>)
    ensures
        texts(final(names)@) == texts(old(names)@) + literals(plain@),
{
    let ghost before = texts(names@);
    let ghost added = literals(plain@);
    let mut i: usize = 0;
    while i < plain.len()
        invariant
            i <= plain.len(),
            added == literals(plain@),
            texts(names@) == before + added.take(i as int),
        decreases plain.len() - i,
    {
        let ghost was = names@;
        names.push(plain[i].to_owned());
        assert(texts(names@) =~= texts(was).push(added[i as int]));
        assert(added.take(i + 1) =~= added.take(i as int).push(added[i as int]));
        i = i + 1;
        assert(texts(names@) =~= before + added.take(i as int));
    }
    assert(added.take(i as int) =~= added);
}

// --------------------------------------------------------------------- order

/// `a` stands before `b`, or is `b`, in the order of their characters.
pub open spec fn text_le(a: Seq<char>, b: Seq<char>) -> bool
    decreases a.len(),
{
    if a.len() == 0 {
        true
    } else if b.len() == 0 {
        false
    } else if a[0] != b[0] {
        a[0] < b[0]
    } else {
        text_le(a.drop_first(), b.drop_first())
    }
}

/// Of two texts one stands before the other, both only if they are the same, and the
/// order carries over.
pub proof fn text_order(a: Seq<char>, b: Seq<char>, c: Seq<char>)
    ensures
        text_le(a, b) || text_le(b, a),
        text_le(a, b) && text_le(b, a) ==> a == b,
        text_le(a, b) && text_le(b, c) ==> text_le(a, c),
    decreases a.len() + b.len() + c.len(),
{
    if a.len() > 0 && b.len() > 0 {
        if c.len() > 0 {
            text_order(a.drop_first(), b.drop_first(), c.drop_first());
        } else {
            text_order(a.drop_first(), b.drop_first(), c);
        }
        if a[0] == b[0] && a.drop_first() == b.drop_first() {
            assert(a =~= seq![a[0]] + a.drop_first());
            assert(b =~= seq![b[0]] + b.drop_first());
        }
    } else if a.len() == 0 && b.len() == 0 {
        assert(a =~= b);
    }
}

fn comes_first(a: &str, b: &str) -> (yes: bool)
    ensures
        yes == text_le(a@, b@),
{
    let x = chars_of(a);
    let y = chars_of(b);
    let mut i: usize = 0;
    assert(x@.skip(0) =~= x@);
    assert(y@.skip(0) =~= y@);
    while i < x.len() && i < y.len()
        invariant
            i <= x.len(),
            i <= y.len(),
            text_le(a@, b@) == text_le(x@.skip(i as int), y@.skip(i as int)),
        decreases x.len() - i,
    {
        if x[i] != y[i] {
            return x[i] < y[i];
        }
        assert(x@.skip(i as int).drop_first() =~= x@.skip(i + 1));
        assert(y@.skip(i as int).drop_first() =~= y@.skip(i + 1));
        i = i + 1;
    }
    i == x.len()
}

/// Each text stands no later than the ones after it.
pub open spec fn in_order(names: Seq<Seq<char>>) -> bool {
    forall|i: int, j: int|
        0 <= i <= j < names.len() ==> text_le(#[trigger] names[i], #[trigger] names[j])
}

fn insert_in_order(sorted: &mut Vec<String>, name: String)
    requires
        in_order(texts(old(sorted)@)),
    ensures
        in_order(texts(final(sorted)@)),
        texts(final(sorted)@).to_multiset() == texts(old(sorted)@).to_multiset().insert(name@),
{
    let ghost before = texts(sorted@);
    let mut at: usize = 0;
    while at < sorted.len() && !comes_first(name.as_str(), sorted[at].as_str())
        invariant
            at <= sorted.len(),
            before == texts(sorted@),
            forall|j: int| 0 <= j < at ==> !text_le(name@, #[trigger] before[j]),
        decreases sorted.len() - at,
    {
        assert(before[at as int] == sorted@[at as int]@);
        at = at + 1;
    }
    let ghost text = name@;
    proof {
        if at < before.len() {
            assert(before[at as int] == sorted@[at as int]@);
        }
    }
    sorted.insert(at, name);
    proof {
        let after = texts(sorted@);
        assert(after =~= before.insert(at as int, text));
        assert forall|i: int, j: int| 0 <= i <= j < after.len() implies text_le(
            #[trigger] after[i],
            #[trigger] after[j],
        ) by {
            let x = after[i];
            let y = after[j];
            text_order(x, y, y);
            text_order(text, x, y);
            text_order(x, text, y);
            text_order(text, text, text);
            if i < at && j > at {
                assert(x == before[i] && y == before[j - 1]);
            } else if i < at && j == at {
                assert(x == before[i]);
            } else if i == at && j > at {
                assert(y == before[j - 1]);
                text_order(text, before[at as int], y);
            } else if i > at {
                assert(x == before[i - 1] && y == before[j - 1]);
            } else if j < at {
                assert(x == before[i] && y == before[j]);
            }
        }
        broadcast use vstd::seq_lib::group_to_multiset_ensures;

    }
}

/// The same texts in order.
pub fn sort_texts(names: Vec<String>) -> (sorted: Vec<String>)
    ensures
        in_order(texts(sorted@)),
        texts(sorted@).to_multiset() == texts(names@).to_multiset(),
{
    let mut rest = names;
    let ghost all = texts(rest@);
    let mut sorted: Vec<String> = Vec::new();
    proof {
        broadcast use vstd::seq_lib::group_to_multiset_ensures;

        assert(texts(sorted@).to_multiset().add(texts(rest@).to_multiset())
            =~= all.to_multiset());
    }
    while rest.len() > 0
        invariant
            in_order(texts(sorted@)),
            texts(sorted@).to_multiset().add(texts(rest@).to_multiset()) == all.to_multiset(),
        decreases rest.len(),
    {
        let ghost was = texts(rest@);
        let ghost held = texts(sorted@);
        if let Some(name) = rest.pop() {
            let ghost text = name@;
            insert_in_order(&mut sorted, name);
            proof {
                broadcast use vstd::seq_lib::group_to_multiset_ensures;

                assert(was =~= texts(rest@).push(text));
                assert(texts(sorted@).to_multiset().add(texts(rest@).to_multiset())
                    =~= held.to_multiset().add(was.to_multiset()));
            }
        }
    }
    proof {
        broadcast use vstd::seq_lib::group_to_multiset_ensures;

        assert(texts(rest@) =~= Seq::<Seq<char>>::empty());
        assert(texts(sorted@).to_multiset().add(texts(rest@).to_multiset())
            =~= texts(sorted@).to_multiset());
    }
    sorted
}

} // verus!
