//! Streaming a mixture of experts: dense weights stay in memory, experts are fetched
//! when the router picks them.
//!
//! Which experts a token needs is decided partway through a pass, so a pass cannot be
//! one graph. It runs layer by layer: attention and the router, then the reads, then
//! the experts' feed-forward, then the next layer.
use crate::container::Container;
use crate::deepseek4::RopeParams;
use crate::error::{ArchError, Result};
use crate::expert_cache::{slice_key, ExpertCache, KEYED_LAYERS};
#[allow(unused_imports)]
use crate::expert_cache::{slice_key_spec, slice_keys_do_not_collide, CacheModel};
use crate::names::block_tensor;
#[allow(unused_imports)]
use crate::names::{block_name, texts};
use crate::qwen3::{Qwen3Config, Qwen3Model, ROPE_TYPE_NEOX};
use crate::selection::top_ranked;
#[allow(unused_imports)]
use crate::selection::is_top;
use crate::text::{has, push_decimal};
#[allow(unused_imports)]
use crate::text::{decimal, has_text};
use std::sync::Arc;
use vstd::prelude::*;

verus! {

// ------------------------------------------------------------------- residency

/// Those of `names` that do not hold `part`, in order.
pub open spec fn without_part(names: Seq<Seq<char>>, part: Seq<char>) -> Seq<Seq<char>>
    decreases names.len(),
{
    if names.len() == 0 {
        Seq::empty()
    } else if has_text(names.last(), part) {
        without_part(names.drop_last(), part)
    } else {
        without_part(names.drop_last(), part).push(names.last())
    }
}

/// The tensors that stay in memory: everything required but the routed experts.
pub open spec fn resident_of(m: Qwen3Model) -> Seq<Seq<char>> {
    without_part(m.required(), "_exps"@)
}

/// No expert tensor leaks into the resident set, and nothing is in it that was not
/// required.
pub proof fn resident_set_excludes_experts(m: Qwen3Model, i: int)
    requires
        0 <= i < resident_of(m).len(),
    ensures
        !has_text(resident_of(m)[i], "_exps"@),
        m.required().contains(resident_of(m)[i]),
{
    kept_names(m.required(), "_exps"@, i);
}

proof fn kept_names(names: Seq<Seq<char>>, part: Seq<char>, i: int)
    requires
        0 <= i < without_part(names, part).len(),
    ensures
        !has_text(without_part(names, part)[i], part),
        names.contains(without_part(names, part)[i]),
    decreases names.len(),
{
    if names.len() > 0 {
        let fewer = without_part(names.drop_last(), part);
        let name = without_part(names, part)[i];
        if i < fewer.len() {
            kept_names(names.drop_last(), part, i);
            let j = choose|j: int|
                0 <= j < names.drop_last().len() && names.drop_last()[j] == name;
            assert(names[j] == name);
        } else {
            assert(names[names.len() - 1] == name);
        }
    }
}

/// Everything required that is no expert stays resident.
pub proof fn resident_set_keeps_the_rest(m: Qwen3Model, i: int)
    requires
        0 <= i < m.required().len(),
        !has_text(m.required()[i], "_exps"@),
    ensures
        resident_of(m).contains(m.required()[i]),
{
    kept_if_plain(m.required(), "_exps"@, i);
}

proof fn kept_if_plain(names: Seq<Seq<char>>, part: Seq<char>, i: int)
    requires
        0 <= i < names.len(),
        !has_text(names[i], part),
    ensures
        without_part(names, part).contains(names[i]),
    decreases names.len(),
{
    let kept = without_part(names, part);
    if i == names.len() - 1 {
        assert(kept[kept.len() - 1] == names[i]);
    } else {
        kept_if_plain(names.drop_last(), part, i);
        let fewer = without_part(names.drop_last(), part);
        let j = choose|j: int| 0 <= j < fewer.len() && fewer[j] == names[i];
        assert(kept[j] == names[i]);
    }
}

// -------------------------------------------------------------------- grouping

/// One token that picked an expert, and at which rank: its routing weight is the one
/// at that rank of that token.
#[derive(Debug, Clone, Copy, PartialEq, Eq, Structural)]
pub struct Member {
    pub token: usize,
    pub rank: usize,
}

/// An expert and the tokens that picked it.
pub struct ExpertGroup {
    pub expert: u32,
    pub members: Vec<Member>,
}

/// The ranks below `n` at which token `t` picked `expert`.
pub open spec fn ranks_of(row: Seq<u32>, t: int, expert: u32, n: int) -> Seq<Member>
    decreases n,
{
    if n <= 0 {
        Seq::empty()
    } else if row[n - 1] == expert {
        ranks_of(row, t, expert, n - 1).push(Member { token: t as usize, rank: (n - 1) as usize })
    } else {
        ranks_of(row, t, expert, n - 1)
    }
}

/// The picks of each token.
pub open spec fn rows_of(picks: Seq<Vec<u32>>) -> Seq<Seq<u32>> {
    picks.map_values(|p: Vec<u32>| p@)
}

/// The tokens below `n` that picked `expert`, in order.
pub open spec fn members_of(picks: Seq<Seq<u32>>, expert: u32, n: int) -> Seq<Member>
    decreases n,
{
    if n <= 0 {
        Seq::empty()
    } else {
        members_of(picks, expert, n - 1) + ranks_of(
            picks[n - 1],
            n - 1,
            expert,
            picks[n - 1].len() as int,
        )
    }
}

/// `groups` hold, for each expert that anyone picked, ascending, everyone who did:
/// `who` says who picked an expert.
pub open spec fn groups_hold(groups: Seq<ExpertGroup>, who: spec_fn(u32) -> Seq<Member>) -> bool {
    &&& forall|i: int, j: int|
        0 <= i < j < groups.len() ==> (#[trigger] groups[i]).expert < (#[trigger] groups[j]).expert
    &&& forall|i: int|
        0 <= i < groups.len() ==> (#[trigger] groups[i]).members@ == who(groups[i].expert)
            && groups[i].members@.len() > 0
    &&& forall|e: u32|
        (#[trigger] who(e)).len() > 0 ==> exists|i: int|
            0 <= i < groups.len() && (#[trigger] groups[i]).expert == e
}

fn join_group(groups: &mut Vec<ExpertGroup>, expert: u32, member: Member, Ghost(who): Ghost<
    spec_fn(u32) -> Seq<Member>,
>)
    requires
        groups_hold(old(groups)@, who),
    ensures
        groups_hold(
            final(groups)@,
            |e: u32|
                if e == expert {
                    who(e).push(member)
                } else {
                    who(e)
                },
        ),
{
    let ghost before = groups@;
    let ghost now = |e: u32|
        if e == expert {
            who(e).push(member)
        } else {
            who(e)
        };
    let mut at: usize = 0;
    while at < groups.len() && groups[at].expert < expert
        invariant
            at <= groups.len(),
            groups@ == before,
            forall|j: int| 0 <= j < at ==> (#[trigger] before[j]).expert < expert,
        decreases groups.len() - at,
    {
        at = at + 1;
    }
    if at < groups.len() && groups[at].expert == expert {
        groups[at].members.push(member);
        proof {
            let after = groups@;
            assert forall|i: int| 0 <= i < after.len() implies (#[trigger] after[i]).expert
                == before[i].expert && after[i].members@ == now(after[i].expert)
                && after[i].members@.len() > 0 by {
                if i != at {
                    assert(after[i] == before[i]);
                    if i < at {
                        assert(before[i].expert < before[at as int].expert);
                    } else {
                        assert(before[at as int].expert < before[i].expert);
                    }
                }
            }
            assert forall|i: int, j: int| 0 <= i < j < after.len() implies (#[trigger] after[i]).expert
                < (#[trigger] after[j]).expert by {
                assert(before[i].expert < before[j].expert);
            }
            assert forall|e: u32| (#[trigger] now(e)).len() > 0 implies exists|i: int|
                0 <= i < after.len() && (#[trigger] after[i]).expert == e by {
                if e == expert {
                    assert(after[at as int].expert == e);
                } else {
                    assert(who(e).len() > 0);
                    let i = choose|i: int|
                        0 <= i < before.len() && (#[trigger] before[i]).expert == e;
                    assert(after[i].expert == e);
                }
            }
        }
    } else {
        let members: Vec<Member> = vec![member];
        proof {
            if who(expert).len() > 0 {
                let i = choose|i: int|
                    0 <= i < before.len() && (#[trigger] before[i]).expert == expert;
                if i > at {
                    assert(before[at as int].expert < before[i].expert);
                }
            }
            assert(who(expert) =~= Seq::<Member>::empty());
            assert(members@ =~= now(expert));
        }
        groups.insert(at, ExpertGroup { expert, members });
        proof {
            let after = groups@;
            let fresh = ExpertGroup { expert, members };
            assert(after =~= before.insert(at as int, fresh));
            assert forall|i: int, j: int| 0 <= i < j < after.len() implies (#[trigger] after[i]).expert
                < (#[trigger] after[j]).expert by {
                if i < at && j > at {
                    assert(before[i].expert < before[j - 1].expert);
                } else if i > at {
                    assert(before[i - 1].expert < before[j - 1].expert);
                } else if j < at {
                    assert(before[i].expert < before[j].expert);
                } else if i == at && j - 1 > at {
                    assert(before[at as int].expert < before[j - 1].expert);
                }
            }
            assert forall|i: int| 0 <= i < after.len() implies (#[trigger] after[i]).members@ == now(
                after[i].expert,
            ) && after[i].members@.len() > 0 by {
                if i < at {
                    assert(after[i] == before[i]);
                } else if i > at {
                    assert(after[i] == before[i - 1]);
                    if i - 1 > at {
                        assert(before[at as int].expert < before[i - 1].expert);
                    }
                }
            }
            assert forall|e: u32| (#[trigger] now(e)).len() > 0 implies exists|i: int|
                0 <= i < after.len() && (#[trigger] after[i]).expert == e by {
                if e == expert {
                    assert(after[at as int].expert == e);
                } else {
                    assert(who(e).len() > 0);
                    let i = choose|i: int|
                        0 <= i < before.len() && (#[trigger] before[i]).expert == e;
                    if i < at {
                        assert(after[i].expert == e);
                    } else {
                        assert(after[i + 1].expert == e);
                    }
                }
            }
        }
    }
}

/// Groups a block's tokens by the experts they picked, experts ascending: each distinct
/// expert is then read once and run against all of its tokens.
pub fn group_by_expert(picks: &Vec<Vec<u32>>) -> (groups: Vec<ExpertGroup>)
    ensures
        groups_hold(groups@, |e: u32| members_of(rows_of(picks@), e, picks@.len() as int)),
{
    let ghost all = rows_of(picks@);
    let mut groups: Vec<ExpertGroup> = Vec::new();
    let mut t: usize = 0;
    assert(groups_hold(groups@, |e: u32| members_of(all, e, 0)));
    while t < picks.len()
        invariant
            t <= picks.len(),
            all == rows_of(picks@),
            groups_hold(groups@, |e: u32| members_of(all, e, t as int)),
        decreases picks.len() - t,
    {
        let row: &Vec<u32> = &picks[t];
        assert(all[t as int] == row@);
        let mut r: usize = 0;
        assert(groups_hold(
            groups@,
            |e: u32| members_of(all, e, t as int) + ranks_of(row@, t as int, e, 0),
        )) by {
            let a = |e: u32| members_of(all, e, t as int);
            let b = |e: u32| members_of(all, e, t as int) + ranks_of(row@, t as int, e, 0);
            assert forall|e: u32| a(e) == #[trigger] b(e) by {
                assert(b(e) =~= a(e));
            }
            same_groups(groups@, a, b);
        }
        while r < row.len()
            invariant
                r <= row.len(),
                t < picks.len(),
                all == rows_of(picks@),
                all[t as int] == row@,
                groups_hold(
                    groups@,
                    |e: u32| members_of(all, e, t as int) + ranks_of(row@, t as int, e, r as int),
                ),
            decreases row.len() - r,
        {
            let expert: u32 = row[r];
            let member = Member { token: t, rank: r };
            let ghost who = |e: u32|
                members_of(all, e, t as int) + ranks_of(row@, t as int, e, r as int);
            join_group(&mut groups, expert, member, Ghost(who));
            proof {
                let a = |e: u32|
                    if e == expert {
                        who(e).push(member)
                    } else {
                        who(e)
                    };
                let b = |e: u32|
                    members_of(all, e, t as int) + ranks_of(row@, t as int, e, r + 1);
                assert forall|e: u32| a(e) == #[trigger] b(e) by {
                    assert(b(e) =~= a(e));
                }
                same_groups(groups@, a, b);
            }
            r = r + 1;
        }
        proof {
            let a = |e: u32|
                members_of(all, e, t as int) + ranks_of(row@, t as int, e, r as int);
            let b = |e: u32| members_of(all, e, t + 1);
            assert forall|e: u32| a(e) == #[trigger] b(e) by {}
            same_groups(groups@, a, b);
        }
        t = t + 1;
    }
    groups
}

proof fn same_groups(
    groups: Seq<ExpertGroup>,
    a: spec_fn(u32) -> Seq<Member>,
    b: spec_fn(u32) -> Seq<Member>,
)
    requires
        groups_hold(groups, a),
        forall|e: u32| a(e) == #[trigger] b(e),
    ensures
        groups_hold(groups, b),
{
    assert forall|i: int| 0 <= i < groups.len() implies (#[trigger] groups[i]).members@ == b(
        groups[i].expert,
    ) by {
        assert(a(groups[i].expert) == b(groups[i].expert));
    }
    assert forall|e: u32| (#[trigger] b(e)).len() > 0 implies exists|i: int|
        0 <= i < groups.len() && (#[trigger] groups[i]).expert == e by {
        assert(a(e).len() > 0);
    }
}

// ---------------------------------------------------------------------- reading

/// Experts read ahead together: enough to keep the drive busy, few enough to bound
/// what is in flight.
pub const READ_GROUP: usize = 16;

/// One slice of a stacked expert tensor.
#[derive(Debug, Clone, Copy, PartialEq, Eq, Structural)]
pub struct Wanted {
    pub layer: u32,
    /// 0 for the gating, 1 for the up, 2 for the down projection.
    pub tensor: u8,
    pub expert: u32,
}

impl Wanted {
    pub open spec fn key(self) -> u64 {
        slice_key_spec(self.layer, self.tensor, self.expert)
    }

    /// The stacked tensor the slice is of.
    pub open spec fn name(self) -> Seq<char> {
        block_name(
            self.layer as nat,
            if self.tensor == 0 {
                "ffn_gate_exps.weight"@
            } else if self.tensor == 1 {
                "ffn_up_exps.weight"@
            } else {
                "ffn_down_exps.weight"@
            },
        )
    }

    /// The name of the stacked tensor the slice is of.
    pub fn tensor_name(&self) -> (name: String)
        ensures
            name@ == self.name(),
    {
        if self.tensor == 0 {
            block_tensor(self.layer, "ffn_gate_exps.weight")
        } else if self.tensor == 1 {
            block_tensor(self.layer, "ffn_up_exps.weight")
        } else {
            block_tensor(self.layer, "ffn_down_exps.weight")
        }
    }
}

/// The three slices of each of `experts` in layer `il`, expert by expert.
pub open spec fn wanted_of(il: u32, experts: Seq<u32>) -> Seq<Wanted> {
    Seq::new(
        experts.len() * 3,
        |i: int| Wanted { layer: il, tensor: (i % 3) as u8, expert: experts[i / 3] },
    )
}

/// The three slices of each of `experts` in layer `il`, expert by expert.
pub fn wanted_slices(il: u32, experts: &[u32]) -> (wanted: Vec<Wanted>)
    ensures
        wanted@ == wanted_of(il, experts@),
{
    let mut wanted: Vec<Wanted> = Vec::new();
    let mut i: usize = 0;
    assert(wanted@ =~= wanted_of(il, experts@.take(0)));
    while i < experts.len()
        invariant
            i <= experts.len(),
            wanted@ == wanted_of(il, experts@.take(i as int)),
        decreases experts.len() - i,
    {
        let expert: u32 = experts[i];
        wanted.push(Wanted { layer: il, tensor: 0, expert });
        wanted.push(Wanted { layer: il, tensor: 1, expert });
        wanted.push(Wanted { layer: il, tensor: 2, expert });
        i = i + 1;
        assert(wanted@ =~= wanted_of(il, experts@.take(i as int)));
    }
    assert(experts@.take(i as int) =~= experts@);
    wanted
}

/// A slice to be read: where it starts in its tensor, and how long it is.
#[derive(Debug, Clone, Copy, PartialEq, Eq, Structural)]
pub struct Pending {
    pub wanted: Wanted,
    pub offset: u64,
    pub len: u64,
}

/// A slice at hand.
pub struct Fetched {
    pub wanted: Wanted,
    pub bytes: Arc<[u8]>,
}

/// What asking for slices came to so far.
pub struct Round {
    pub hits: Vec<Fetched>,
    pub misses: Vec<Pending>,
}

/// How many experts a stacked tensor holds.
pub open spec fn experts_in(dims: Seq<u64>) -> u64 {
    if dims.len() == 0 {
        1
    } else {
        dims.last()
    }
}

/// Why a slice cannot be read, or where it lies.
pub enum Place {
    At { offset: int, len: int },
    Nowhere(Seq<char>),
}

/// Where the container holds `w`.
pub open spec fn place_of(model: &Container, w: Wanted) -> Place {
    match model.tensor(w.name()) {
        None => Place::Nowhere(w.name()),
        Some(t) => {
            let n = experts_in(t.dims@);
            if n == 0 || w.expert >= n {
                Place::Nowhere(
                    w.name() + ": expert "@ + decimal(w.expert as nat) + " of "@ + decimal(
                        n as nat,
                    ),
                )
            } else {
                let len = t.size as int / n as int;
                Place::At { offset: w.expert * len, len }
            }
        },
    }
}

/// What asking for slices comes to.
pub struct RoundModel {
    pub cache: CacheModel,
    pub hits: Seq<Wanted>,
    pub misses: Seq<Pending>,
    pub failed: Option<Seq<char>>,
}

/// What asking for the first `n` of `wanted` comes to. A slice already at hand is not
/// asked for again; one that lies nowhere ends the round.
pub open spec fn asked(m: CacheModel, model: &Container, wanted: Seq<Wanted>, n: int) -> RoundModel
    decreases n,
{
    if n <= 0 {
        RoundModel { cache: m, hits: Seq::empty(), misses: Seq::empty(), failed: None }
    } else {
        let r = asked(m, model, wanted, n - 1);
        let w = wanted[n - 1];
        if r.failed is Some || r.hits.contains(w) {
            r
        } else {
            let cache = r.cache.requested(w.key(), 1);
            if r.cache.entries.contains_key(w.key()) {
                RoundModel { cache, hits: r.hits.push(w), ..r }
            } else {
                match place_of(model, w) {
                    Place::At { offset, len } => RoundModel {
                        cache,
                        misses: r.misses.push(
                            Pending { wanted: w, offset: offset as u64, len: len as u64 },
                        ),
                        ..r
                    },
                    Place::Nowhere(why) => RoundModel { cache, failed: Some(why), ..r },
                }
            }
        }
    }
}

/// Bytes that memory serves of the first `n` of `wanted`, each asked for once.
pub open spec fn held_bytes(m: CacheModel, wanted: Seq<Wanted>, n: int) -> nat
    decreases n,
{
    if n <= 0 {
        0
    } else {
        held_bytes(m, wanted, n - 1) + m.serves(wanted[n - 1].key())
    }
}

proof fn held_bytes_grow(m: CacheModel, wanted: Seq<Wanted>, n: int, total: int)
    requires
        0 <= n <= total,
    ensures
        held_bytes(m, wanted, n) <= held_bytes(m, wanted, total),
    decreases total - n,
{
    if n < total {
        held_bytes_grow(m, wanted, n, total - 1);
    }
}

/// The counters can take a request for each of `wanted`, were they all for one slice.
pub open spec fn can_ask_for(m: CacheModel, wanted: Seq<Wanted>) -> bool {
    let n = wanted.len();
    &&& forall|i: int|
        0 <= i < wanted.len() ==> m.counted((#[trigger] wanted[i]).key()) + n <= u32::MAX
    &&& m.stats.hits + n <= u64::MAX
    &&& m.stats.misses + n <= u64::MAX
    &&& m.stats.bytes_saved + held_bytes(m, wanted, n as int) <= u64::MAX
}

/// Every slice is of a layer that the cache's keys tell apart.
pub open spec fn keyed(wanted: Seq<Wanted>) -> bool {
    forall|i: int| 0 <= i < wanted.len() ==> (#[trigger] wanted[i]).layer < KEYED_LAYERS
}

/// The slices that reads are for.
pub open spec fn reads_for(misses: Seq<Pending>) -> Seq<Wanted> {
    misses.map_values(|p: Pending| p.wanted)
}

/// A slice is held and served under a key of its own: two that share one are the same
/// slice.
pub proof fn slices_have_their_own_keys(a: Wanted, b: Wanted)
    requires
        a.layer < KEYED_LAYERS,
        b.layer < KEYED_LAYERS,
    ensures
        a.key() == b.key() <==> a == b,
{
    slice_keys_do_not_collide(a.layer, a.tensor, a.expert, b.layer, b.tensor, b.expert);
}

/// What a round sends to disk are slices that were asked for.
pub proof fn misses_were_wanted(m: CacheModel, model: &Container, wanted: Seq<Wanted>, n: int)
    requires
        0 <= n <= wanted.len(),
        keyed(wanted),
    ensures
        keyed(reads_for(asked(m, model, wanted, n).misses)),
        forall|i: int|
            0 <= i < asked(m, model, wanted, n).misses.len() ==> wanted.contains(
                (#[trigger] asked(m, model, wanted, n).misses[i]).wanted,
            ),
    decreases n,
{
    if n > 0 {
        misses_were_wanted(m, model, wanted, n - 1);
        let before = asked(m, model, wanted, n - 1).misses;
        let after = asked(m, model, wanted, n).misses;
        assert forall|i: int| 0 <= i < after.len() implies wanted.contains(
            (#[trigger] after[i]).wanted,
        ) && reads_for(after)[i].layer < KEYED_LAYERS by {
            if i < before.len() {
                assert(after[i] == before[i]);
                assert(reads_for(before)[i] == before[i].wanted);
            } else {
                assert(after[i].wanted == wanted[n - 1]);
            }
        }
    }
}

proof fn asking_leaves_room(m: CacheModel, model: &Container, wanted: Seq<Wanted>, n: int)
    requires
        m.wf(),
        can_ask_for(m, wanted),
        0 <= n <= wanted.len(),
    ensures
        ({
            let r = asked(m, model, wanted, n);
            &&& r.cache.wf()
            &&& r.cache.entries == m.entries
            &&& r.cache.budget == m.budget
            &&& r.cache.stats.admissions == m.stats.admissions
            &&& r.misses.len() <= n
            &&& forall|k: u64| #[trigger] r.cache.counted(k) <= m.counted(k) + n
            &&& r.cache.stats.hits <= m.stats.hits + n
            &&& r.cache.stats.misses <= m.stats.misses + n
            &&& r.cache.stats.bytes_saved <= m.stats.bytes_saved + held_bytes(m, wanted, n)
            &&& forall|w: Wanted| r.hits.contains(w) ==> m.entries.contains_key(#[trigger] w.key())
            &&& n < wanted.len() ==> r.cache.can_request(wanted[n].key(), 1)
        }),
    decreases n,
{
    let total = wanted.len();
    if n < total {
        held_bytes_grow(m, wanted, n + 1, total as int);
    }
    let r = asked(m, model, wanted, n);
    if n > 0 {
        asking_leaves_room(m, model, wanted, n - 1);
        let p = asked(m, model, wanted, n - 1);
        let w = wanted[n - 1];
        assert(p.cache.can_request(w.key(), 1));
        assert(p.cache.serves(w.key()) == m.serves(w.key()));
        assert(held_bytes(m, wanted, n) == held_bytes(m, wanted, n - 1) + m.serves(w.key()));
        if p.failed is None && !p.hits.contains(w) {
            let c = p.cache.requested(w.key(), 1);
            assert(r.cache == c);
            assert(c.entries == m.entries);
            assert(c.stats.bytes_saved <= p.cache.stats.bytes_saved + m.serves(w.key()));
            assert(c.stats.hits <= p.cache.stats.hits + 1);
            assert(c.stats.misses <= p.cache.stats.misses + 1);
        } else {
            assert(r.cache == p.cache);
        }
        assert(r.cache.stats.bytes_saved <= m.stats.bytes_saved + held_bytes(m, wanted, n));
        assert forall|k: u64| #[trigger] r.cache.counted(k) <= m.counted(k) + n by {
            assert(p.cache.counted(k) <= m.counted(k) + n - 1);
        }
        assert forall|x: Wanted| r.hits.contains(x) implies m.entries.contains_key(
            #[trigger] x.key(),
        ) by {
            if !p.hits.contains(x) {
                let i = choose|i: int| 0 <= i < r.hits.len() && r.hits[i] == x;
                if i < p.hits.len() {
                    assert(p.hits[i] == x);
                }
                assert(x == w);
            }
        }
    }
    if n < total {
        let k = wanted[n].key();
        assert(r.cache.counted(k) <= m.counted(k) + n);
        assert(m.counted(k) + total <= u32::MAX);
        assert(held_bytes(m, wanted, n + 1) == held_bytes(m, wanted, n) + m.serves(k));
        assert(r.cache.serves(k) == m.serves(k));
        assert(r.cache.stats.bytes_saved + r.cache.serves(k) <= u64::MAX);
        assert(r.cache.can_request(k, 1));
    }
}

/// The slices that fetched ones are of.
pub open spec fn wants(fetched: Seq<Fetched>) -> Seq<Wanted> {
    fetched.map_values(|f: Fetched| f.wanted)
}

fn at_hand(hits: &Vec<Fetched>, w: &Wanted) -> (yes: bool)
    ensures
        yes == wants(hits@).contains(*w),
{
    let mut i: usize = 0;
    while i < hits.len()
        invariant
            i <= hits.len(),
            forall|j: int| 0 <= j < i ==> (#[trigger] wants(hits@)[j]) != *w,
        decreases hits.len() - i,
    {
        assert(wants(hits@)[i as int] == hits@[i as int].wanted);
        let h = &hits[i].wanted;
        if h.layer == w.layer && h.tensor == w.tensor && h.expert == w.expert {
            assert(*h == *w);
            return true;
        }
        i = i + 1;
    }
    false
}

fn locate(model: &Container, w: &Wanted) -> (found: std::result::Result<(u64, u64), String>)
    ensures
        match found {
            Ok(at) => place_of(model, *w) == (Place::At { offset: at.0 as int, len: at.1 as int }),
            Err(why) => place_of(model, *w) == Place::Nowhere(why@),
        },
{
    let name = w.tensor_name();
    match model.location(name.as_str()) {
        None => Err(name),
        Some(t) => {
            let n: u64 = if t.dims.len() == 0 {
                1
            } else {
                t.dims[t.dims.len() - 1]
            };
            if n == 0 || w.expert as u64 >= n {
                let mut why = name;
                why.append(": expert ");
                push_decimal(&mut why, w.expert as u64);
                why.append(" of ");
                push_decimal(&mut why, n);
                assert(why@ =~= w.name() + ": expert "@ + decimal(w.expert as nat) + " of "@
                    + decimal(n as nat));
                return Err(why);
            }
            let len: u64 = t.size / n;
            proof {
                let e = w.expert as int;
                vstd::arithmetic::div_mod::lemma_fundamental_div_mod(t.size as int, n as int);
                vstd::arithmetic::div_mod::lemma_mod_bound(t.size as int, n as int);
                assert(e * len <= t.size) by (nonlinear_arith)
                    requires
                        0 <= e < n,
                        t.size == n * len + t.size % n,
                        0 <= t.size % n,
                        len >= 0,
                ;
                assert(e * len >= 0) by (nonlinear_arith)
                    requires
                        e >= 0,
                        len >= 0,
                ;
            }
            Ok((w.expert as u64 * len, len))
        },
    }
}

/// How much work streaming did, in counts.
#[derive(Debug, Clone, Copy, PartialEq, Eq, Structural)]
pub struct StreamStats {
    pub expert_reads: u64,
    pub expert_bytes: u64,
    pub resident_bytes: u64,
    /// Slice requests served from memory.
    pub cache_hits: u64,
    pub cache_evictions: u64,
}

/// A pass that streams experts instead of holding them: the configuration, the slices
/// held so far, and what it cost.
pub struct StreamingRunner {
    arch: Qwen3Model,
    cache: ExpertCache,
    reads: u64,
    bytes: u64,
    resident: u64,
}

/// What a [`StreamingRunner`] holds and has counted.
pub struct RunnerModel {
    pub config: Qwen3Config,
    pub cache: CacheModel,
    pub reads: int,
    pub bytes: int,
    pub resident: int,
}

impl View for StreamingRunner {
    type V = RunnerModel;

    closed spec fn view(&self) -> RunnerModel {
        RunnerModel {
            config: self.arch.config,
            cache: self.cache@,
            reads: self.reads as int,
            bytes: self.bytes as int,
            resident: self.resident as int,
        }
    }
}

/// The first `n` reads taken in: counted, offered to the cache, in order.
pub open spec fn taken_in(
    m: RunnerModel,
    misses: Seq<Pending>,
    fetched: Seq<Seq<u8>>,
    n: int,
) -> RunnerModel
    decreases n,
{
    if n <= 0 {
        m
    } else {
        let r = taken_in(m, misses, fetched, n - 1);
        RunnerModel {
            cache: r.cache.offered(misses[n - 1].wanted.key(), fetched[n - 1]),
            reads: r.reads + 1,
            bytes: r.bytes + fetched[n - 1].len(),
            ..r
        }
    }
}

/// Bytes of the first `n` reads.
pub open spec fn read_bytes(fetched: Seq<Seq<u8>>, n: int) -> nat
    decreases n,
{
    if n <= 0 {
        0
    } else {
        read_bytes(fetched, n - 1) + fetched[n - 1].len()
    }
}

/// What came back for each read; nothing for one that did not finish.
pub open spec fn results(fetched: Seq<Option<Arc<[u8]>>>) -> Seq<Seq<u8>> {
    fetched.map_values(
        |f: Option<Arc<[u8]>>|
            match f {
                Some(b) => b@,
                None => Seq::<u8>::empty(),
            },
    )
}

/// The counters can take in every read of a round.
pub open spec fn can_take_in(m: RunnerModel, fetched: Seq<Option<Arc<[u8]>>>) -> bool {
    &&& m.cache.stats.admissions + fetched.len() <= u64::MAX
    &&& m.reads + fetched.len() <= u64::MAX
    &&& m.bytes + read_bytes(results(fetched), fetched.len() as int) <= u64::MAX
}

/// The first read at or after `from` that did not finish.
pub open spec fn first_unfinished(fetched: Seq<Option<Arc<[u8]>>>, from: int) -> Option<int>
    decreases fetched.len() - from,
{
    if from < 0 || from >= fetched.len() {
        None
    } else if fetched[from] is None {
        Some(from)
    } else {
        first_unfinished(fetched, from + 1)
    }
}

impl StreamingRunner {
    /// A runner that may hold `cache_budget` bytes of slices.
    pub fn new(config: Qwen3Config, cache_budget: usize) -> (runner: Self)
        requires
            config.n_layer <= KEYED_LAYERS,
        ensures
            runner@.config == config,
            runner@.cache == CacheModel::empty(cache_budget as int, 0x9E37_79B9_7F4A_7C15),
            runner@.cache.wf(),
            runner@.reads == 0,
            runner@.bytes == 0,
            runner@.resident == 0,
    {
        StreamingRunner {
            arch: Qwen3Model::new(config),
            cache: ExpertCache::with_seed(cache_budget, 0x9E37_79B9_7F4A_7C15),
            reads: 0,
            bytes: 0,
            resident: 0,
        }
    }

    pub fn config(&self) -> (config: Qwen3Config)
        ensures
            config == self@.config,
    {
        self.arch.config
    }

    /// The architecture the runner runs.
    pub fn arch(&self) -> (arch: &Qwen3Model)
        ensures
            arch.config == self@.config,
    {
        &self.arch
    }

    /// What the run cost so far.
    pub fn stats(&self) -> (stats: StreamStats)
        ensures
            stats.expert_reads == self@.reads,
            stats.expert_bytes == self@.bytes,
            stats.resident_bytes == self@.resident,
            stats.cache_hits == self@.cache.stats.hits,
            stats.cache_evictions == self@.cache.stats.evictions,
    {
        let held = self.cache.stats();
        StreamStats {
            expert_reads: self.reads,
            expert_bytes: self.bytes,
            resident_bytes: self.resident,
            cache_hits: held.hits,
            cache_evictions: held.evictions,
        }
    }

    /// Notes what loading the resident tensors cost.
    pub fn note_resident(&mut self, bytes: u64)
        ensures
            final(self)@ == (RunnerModel { resident: bytes as int, ..old(self)@ }),
    {
        self.resident = bytes;
    }

    /// Tensors that stay in memory: everything except routed experts.
    pub fn resident_tensor_names(&self) -> (names: Vec<String>)
        ensures
            texts(names@) == resident_of(Qwen3Model { config: self@.config }),
    {
        let all = self.arch.required_tensors();
        let ghost want = texts(all@);
        let mut names: Vec<String> = Vec::new();
        let mut i: usize = 0;
        assert(texts(names@) =~= without_part(want.take(0), "_exps"@));
        while i < all.len()
            invariant
                i <= all.len(),
                want == texts(all@),
                texts(names@) == without_part(want.take(i as int), "_exps"@),
            decreases all.len() - i,
        {
            let ghost was = names@;
            assert(want.take(i + 1).drop_last() =~= want.take(i as int));
            assert(want[i as int] == all@[i as int]@);
            let streamed = has(all[i].as_str(), "_exps");
            if !streamed {
                names.push(all[i].clone());
                assert(texts(names@) =~= texts(was).push(want[i as int]));
            }
            i = i + 1;
        }
        assert(want.take(i as int) =~= want);
        names
    }

    /// The experts a token routes to, from the most probable down: `keys` orders the
    /// router's probabilities, one for each expert.
    pub fn route(&self, keys: &Vec<i64>, n_expert_used: usize) -> (picks: Vec<u32>)
        requires
            keys@.len() <= u32::MAX,
        ensures
            is_top(keys@, picks@, n_expert_used as int),
    {
        top_ranked(keys, n_expert_used)
    }

    /// What the rotation is parameterised by.
    pub fn rope(&self) -> (rope: RopeParams)
        ensures
            rope == self@.config.rope_params(),
    {
        self.arch.config.rope()
    }

    pub fn rope_type() -> (t: i32)
        ensures
            t == ROPE_TYPE_NEOX,
    {
        ROPE_TYPE_NEOX
    }

    /// Whether each of `wanted` has a key of its own and the counters can take a request
    /// for it.
    pub fn can_request_slices(&self, wanted: &Vec<Wanted>) -> (can: bool)
        ensures
            can == (keyed(wanted@) && can_ask_for(self@.cache, wanted@)),
    {
        let n: usize = wanted.len();
        let held = self.cache.stats();
        if n as u64 > u64::MAX - held.hits || n as u64 > u64::MAX - held.misses {
            return false;
        }
        let mut room: u64 = u64::MAX - held.bytes_saved;
        let mut i: usize = 0;
        while i < n
            invariant
                i <= n,
                n == wanted@.len(),
                self@.cache.stats.hits + n <= u64::MAX,
                self@.cache.stats.misses + n <= u64::MAX,
                room == u64::MAX - self@.cache.stats.bytes_saved - held_bytes(
                    self@.cache,
                    wanted@,
                    i as int,
                ),
                forall|j: int|
                    0 <= j < i ==> (#[trigger] wanted@[j]).layer < KEYED_LAYERS
                        && self@.cache.counted(wanted@[j].key()) + n <= u32::MAX,
            decreases n - i,
        {
            let w = wanted[i];
            assert(wanted@[i as int].key() == w.key());
            let key: u64 = slice_key(w.layer, w.tensor, w.expert);
            let counted: u64 = self.cache.counted(key) as u64;
            if w.layer >= KEYED_LAYERS || n as u64 > u32::MAX as u64 - counted {
                return false;
            }
            let served: u64 = self.cache.serves(key) as u64;
            proof {
                held_bytes_grow(self@.cache, wanted@, i + 1, n as int);
            }
            if served > room {
                return false;
            }
            room = room - served;
            i = i + 1;
        }
        true
    }

    /// Whether the counters can take in what a round's reads brought.
    pub fn can_receive_slices(&self, fetched: &Vec<Option<Arc<[u8]>>>) -> (can: bool)
        ensures
            can == can_take_in(self@, fetched@),
    {
        let n: u64 = fetched.len() as u64;
        if n > u64::MAX - self.cache.stats().admissions || n > u64::MAX - self.reads {
            return false;
        }
        let mut room: u64 = u64::MAX - self.bytes;
        let ghost all = results(fetched@);
        let mut i: usize = 0;
        while i < fetched.len()
            invariant
                i <= fetched@.len(),
                n == fetched@.len(),
                all == results(fetched@),
                self@.cache.stats.admissions + n <= u64::MAX,
                self@.reads + n <= u64::MAX,
                room == u64::MAX - self@.bytes - read_bytes(all, i as int),
            decreases fetched@.len() - i,
        {
            let len: u64 = match &fetched[i] {
                Some(bytes) => bytes.len() as u64,
                None => 0,
            };
            assert(all[i as int].len() == len);
            proof {
                read_bytes_grow(all, i + 1, fetched@.len() as int);
            }
            if len > room {
                return false;
            }
            room = room - len;
            i = i + 1;
        }
        true
    }

    /// Asks for slices: those in memory come back at once, the others as what to read.
    /// Fails on the first that the container does not hold.
    pub fn request_slices(&mut self, model: &Container, wanted: &Vec<Wanted>) -> (round: Result<Round>)
        requires
            old(self)@.cache.wf(),
            keyed(wanted@),
            can_ask_for(old(self)@.cache, wanted@),
        ensures
            final(self)@.cache.wf(),
            ({
                let r = asked(old(self)@.cache, model, wanted@, wanted@.len() as int);
                &&& final(self)@ == (RunnerModel { cache: r.cache, ..old(self)@ })
                &&& match round {
                    Ok(got) => {
                        &&& r.failed is None
                        &&& wants(got.hits@) == r.hits
                        &&& got.misses@ == r.misses
                        &&& forall|i: int|
                            0 <= i < got.hits@.len() ==> (#[trigger] got.hits@[i]).bytes@
                                == old(self)@.cache.entries[got.hits@[i].wanted.key()]
                    },
                    Err(ArchError::MissingTensor(why)) => r.failed == Some(why@),
                    Err(_) => false,
                }
            }),
    {
        let ghost before = self@;
        let mut hits: Vec<Fetched> = Vec::new();
        let mut misses: Vec<Pending> = Vec::new();
        let mut i: usize = 0;
        assert(wants(hits@) =~= Seq::<Wanted>::empty());
        while i < wanted.len()
            invariant
                i <= wanted.len(),
                before == old(self)@,
                before.cache.wf(),
                can_ask_for(before.cache, wanted@),
                self@.cache.wf(),
                self@.config == before.config,
                self@.reads == before.reads,
                self@.bytes == before.bytes,
                self@.resident == before.resident,
                self@.cache == asked(before.cache, model, wanted@, i as int).cache,
                asked(before.cache, model, wanted@, i as int).failed is None,
                wants(hits@) == asked(before.cache, model, wanted@, i as int).hits,
                misses@ == asked(before.cache, model, wanted@, i as int).misses,
                forall|j: int|
                    0 <= j < hits@.len() ==> (#[trigger] hits@[j]).bytes@
                        == before.cache.entries[hits@[j].wanted.key()],
            decreases wanted.len() - i,
        {
            let w = wanted[i];
            proof {
                asking_leaves_room(before.cache, model, wanted@, i as int);
                assert(self@.cache.can_request(w.key(), 1));
            }
            i = i + 1;
            if at_hand(&hits, &w) {
                continue ;
            }
            let key: u64 = slice_key(w.layer, w.tensor, w.expert);
            match self.cache.request(key, 1) {
                Some(bytes) => {
                    let ghost was = hits@;
                    hits.push(Fetched { wanted: w, bytes });
                    assert(wants(hits@) =~= wants(was).push(w));
                },
                None => match locate(model, &w) {
                    Ok(at) => {
                        misses.push(Pending { wanted: w, offset: at.0, len: at.1 });
                    },
                    Err(why) => {
                        proof {
                            failed_stays(before.cache, model, wanted@, i as int, wanted@.len() as int);
                        }
                        return Err(ArchError::MissingTensor(why));
                    },
                },
            }
        }
        Ok(Round { hits, misses })
    }

    /// Takes in what the reads of a round brought: each is counted, offered to the cache
    /// and handed on beside the slices that were at hand. `failure` is a reader's own
    /// account of why a read failed.
    pub fn receive_slices(
        &mut self,
        round: Round,
        failure: Option<String>,
        fetched: Vec<Option<Arc<[u8]>>>,
    ) -> (done: Result<Vec<Fetched>>)
        requires
            old(self)@.cache.wf(),
            keyed(reads_for(round.misses@)),
            fetched@.len() == round.misses@.len(),
            can_take_in(old(self)@, fetched@),
        ensures
            final(self)@.cache.wf(),
            match failure {
                Some(why) => {
                    &&& final(self)@ == old(self)@
                    &&& done matches Err(ArchError::MissingTensor(t))
                    &&& t@ == "expert read failed: "@ + why@
                },
                None => match first_unfinished(fetched@, 0) {
                    Some(i) => {
                        &&& final(self)@ == taken_in(
                            old(self)@,
                            round.misses@,
                            results(fetched@),
                            i,
                        )
                        &&& done matches Err(ArchError::MissingTensor(t))
                        &&& t@ == round.misses@[i].wanted.name() + "["@ + decimal(
                            round.misses@[i].wanted.expert as nat,
                        ) + "]"@
                    },
                    None => {
                        &&& final(self)@ == taken_in(
                            old(self)@,
                            round.misses@,
                            results(fetched@),
                            fetched@.len() as int,
                        )
                        &&& done matches Ok(out)
                        &&& out@.len() == round.hits@.len() + round.misses@.len()
                        &&& forall|i: int|
                            0 <= i < round.hits@.len() ==> #[trigger] out@[i] == round.hits@[i]
                        &&& forall|i: int|
                            0 <= i < round.misses@.len() ==> (#[trigger] out@[round.hits@.len()
                                + i]).wanted == round.misses@[i].wanted && out@[round.hits@.len()
                                + i].bytes@ == results(fetched@)[i]
                    },
                },
            },
    {
        if let Some(why) = failure {
            let mut text = String::new();
            text.append("expert read failed: ");
            text.append(why.as_str());
            assert(text@ =~= "expert read failed: "@ + why@);
            return Err(ArchError::MissingTensor(text));
        }
        let ghost before = self@;
        let ghost all = results(fetched@);
        let misses = round.misses;
        let mut out = round.hits;
        let ghost hits = out@;
        let mut i: usize = 0;
        while i < fetched.len()
            invariant
                i <= fetched.len(),
                before == old(self)@,
                failure is None,
                misses == round.misses,
                all == results(fetched@),
                fetched@.len() == misses@.len(),
                before.cache.stats.admissions + fetched@.len() <= u64::MAX,
                before.reads + fetched@.len() <= u64::MAX,
                before.bytes + read_bytes(all, fetched@.len() as int) <= u64::MAX,
                self@.cache.wf(),
                self@.cache.stats.admissions <= before.cache.stats.admissions + i,
                self@.reads == before.reads + i,
                self@.bytes == before.bytes + read_bytes(all, i as int),
                self@ == taken_in(before, misses@, all, i as int),
                first_unfinished(fetched@, 0) == first_unfinished(fetched@, i as int),
                out@.len() == hits.len() + i,
                forall|j: int| 0 <= j < hits.len() ==> #[trigger] out@[j] == hits[j],
                forall|j: int|
                    0 <= j < i ==> (#[trigger] out@[hits.len() + j]).wanted == misses@[j].wanted
                        && out@[hits.len() + j].bytes@ == all[j],
            decreases fetched.len() - i,
        {
            let w = misses[i].wanted;
            match &fetched[i] {
                None => {
                    let mut text = w.tensor_name();
                    text.append("[");
                    push_decimal(&mut text, w.expert as u64);
                    text.append("]");
                    assert(text@ =~= w.name() + "["@ + decimal(w.expert as nat) + "]"@);
                    return Err(ArchError::MissingTensor(text));
                },
                Some(got) => {
                    let bytes = Arc::clone(got);
                    assert(all[i as int] == bytes@);
                    proof {
                        read_bytes_grow(all, i + 1, fetched@.len() as int);
                        crate::expert_cache::room_evicts_only_the_less_wanted(
                            self@.cache,
                            bytes@.len(),
                            self@.cache.uses(w.key()),
                        );
                    }
                    self.reads = self.reads + 1;
                    self.bytes = self.bytes + bytes.len() as u64;
                    let key: u64 = slice_key(w.layer, w.tensor, w.expert);
                    self.cache.offer(key, &bytes);
                    out.push(Fetched { wanted: w, bytes });
                },
            }
            i = i + 1;
        }
        Ok(out)
    }
}

proof fn read_bytes_grow(fetched: Seq<Seq<u8>>, n: int, m: int)
    requires
        0 <= n <= m <= fetched.len(),
    ensures
        read_bytes(fetched, n) <= read_bytes(fetched, m),
    decreases m - n,
{
    if n < m {
        read_bytes_grow(fetched, n, m - 1);
    }
}

proof fn failed_stays(m: CacheModel, model: &Container, wanted: Seq<Wanted>, n: int, total: int)
    requires
        0 <= n <= total,
        asked(m, model, wanted, n).failed is Some,
    ensures
        asked(m, model, wanted, total) == asked(m, model, wanted, n),
    decreases total - n,
{
    if n < total {
        failed_stays(m, model, wanted, n, total - 1);
    }
}

/// Slices read from a container leave a cache that holds nothing else, if it held nothing
/// else before: what a later round is served is what the container holds.
pub proof fn received_slices_are_the_containers(
    m: RunnerModel,
    misses: Seq<Pending>,
    fetched: Seq<Seq<u8>>,
    file: spec_fn(u64) -> Seq<u8>,
    n: int,
)
    requires
        m.cache.wf(),
        0 <= n <= misses.len(),
        fetched.len() == misses.len(),
        m.cache.stats.admissions + n <= u64::MAX,
        crate::expert_read::holds_only(m.cache.entries, file),
        forall|i: int|
            0 <= i < n ==> #[trigger] fetched[i] == file(misses[i].wanted.key()),
    ensures
        taken_in(m, misses, fetched, n).cache.wf(),
        taken_in(m, misses, fetched, n).cache.stats.admissions <= m.cache.stats.admissions + n,
        crate::expert_read::holds_only(taken_in(m, misses, fetched, n).cache.entries, file),
    decreases n,
{
    if n > 0 {
        received_slices_are_the_containers(m, misses, fetched, file, n - 1);
        let before = taken_in(m, misses, fetched, n - 1).cache;
        let key = misses[n - 1].wanted.key();
        let src = fetched[n - 1];
        crate::expert_cache::offers_stay_within_the_budget(before, key, src);
        crate::expert_cache::an_offer_accounts_for_what_went(before, key, src);
        crate::expert_cache::room_evicts_only_the_less_wanted(before, src.len(), before.uses(key));
    }
}

} // verus!
