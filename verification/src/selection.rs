//! Ranking scores and packing a batch's expert choices.
use crate::routing::chosen;
use vstd::prelude::*;

verus! {

// ------------------------------------------------------------------- ranking

/// Of two candidates `i` stands before `j`: the higher score, or the earlier of equals.
pub open spec fn ranks_before(keys: Seq<i64>, i: int, j: int) -> bool {
    keys[i] > keys[j] || (keys[i] == keys[j] && i < j)
}

/// `picks` are the `k` highest of `keys`, from the highest down, equals in order; all
/// of them where there are fewer.
pub open spec fn is_top(keys: Seq<i64>, picks: Seq<u32>, k: int) -> bool {
    &&& picks.len() == (if k < keys.len() {
        k
    } else {
        keys.len() as int
    })
    &&& forall|a: int| 0 <= a < picks.len() ==> (#[trigger] picks[a]) < keys.len()
    &&& forall|a: int, b: int|
        0 <= a < b < picks.len() ==> ranks_before(
            keys,
            #[trigger] picks[a] as int,
            #[trigger] picks[b] as int,
        )
    &&& forall|a: int, i: int|
        #![trigger picks[a], keys[i]]
        0 <= a < picks.len() && 0 <= i < keys.len() && !picks.contains(i as u32) ==> ranks_before(
            keys,
            picks[a] as int,
            i,
        )
}

/// There is only one such choice.
pub proof fn top_is_unique(keys: Seq<i64>, p: Seq<u32>, q: Seq<u32>, k: int)
    requires
        0 <= k,
        keys.len() <= u32::MAX,
        is_top(keys, p, k),
        is_top(keys, q, k),
    ensures
        p == q,
{
    assert forall|n: int| 0 <= n < p.len() implies p[n] == q[n] by {
        top_agrees(keys, p, q, k, n);
    }
    assert(p =~= q);
}

proof fn top_agrees(keys: Seq<i64>, p: Seq<u32>, q: Seq<u32>, k: int, n: int)
    requires
        0 <= k,
        keys.len() <= u32::MAX,
        is_top(keys, p, k),
        is_top(keys, q, k),
        0 <= n < p.len(),
    ensures
        p[n] == q[n],
    decreases n,
{
    assert forall|m: int| 0 <= m < n implies p[m] == q[m] by {
        top_agrees(keys, p, q, k, m);
    }
    let a = p[n] as int;
    let b = q[n] as int;
    if a != b {
        // Whichever ranks first would have to stand in the other's list, and can only
        // stand there behind the place that the other fills.
        if ranks_before(keys, a, b) {
            if q.contains(p[n]) {
                let m = choose|m: int| 0 <= m < q.len() && q[m] == p[n];
                if m < n {
                    assert(p[m] == q[m]);
                    assert(ranks_before(keys, p[m] as int, p[n] as int));
                } else if m > n {
                    assert(ranks_before(keys, q[n] as int, q[m] as int));
                }
            } else {
                assert(ranks_before(keys, q[n] as int, a));
            }
        } else {
            assert(ranks_before(keys, b, a));
            if p.contains(q[n]) {
                let m = choose|m: int| 0 <= m < p.len() && p[m] == q[n];
                if m < n {
                    assert(p[m] == q[m]);
                    assert(ranks_before(keys, q[m] as int, q[n] as int));
                } else if m > n {
                    assert(ranks_before(keys, p[n] as int, p[m] as int));
                }
            } else {
                assert(ranks_before(keys, p[n] as int, b));
            }
        }
    }
}

/// The `k` highest of `keys`, from the highest down, equals in order.
pub fn top_ranked(keys: &Vec<i64>, k: usize) -> (picks: Vec<u32>)
    requires
        keys@.len() <= u32::MAX,
    ensures
        is_top(keys@, picks@, k as int),
{
    let mut picks: Vec<u32> = Vec::new();
    let mut i: usize = 0;
    while i < keys.len()
        invariant
            i <= keys.len(),
            keys@.len() <= u32::MAX,
            is_top(keys@.take(i as int), picks@, k as int),
        decreases keys.len() - i,
    {
        let ghost before = picks@;
        let ghost seen = keys@.take(i as int);
        let ghost next = keys@.take(i + 1);
        let mut at: usize = 0;
        while at < picks.len() && keys[picks[at] as usize] >= keys[i]
            invariant
                i < keys.len(),
                at <= picks.len(),
                picks@ == before,
                seen == keys@.take(i as int),
                is_top(seen, before, k as int),
                forall|a: int| 0 <= a < at ==> keys@[#[trigger] before[a] as int] >= keys@[i as int],
            decreases picks.len() - at,
        {
            at = at + 1;
        }
        if at < k {
            picks.insert(at, i as u32);
            let ghost all = picks@;
            proof {
                inserted_ranks(keys@, before, i as int, at as int, k as int);
                assert(all =~= before.insert(at as int, i as u32));
            }
            if picks.len() > k {
                picks.pop();
                assert(picks@ =~= all.drop_last());
            }
        } else {
            proof {
                left_out(keys@, before, i as int, k as int);
            }
        }
        i = i + 1;
    }
    assert(keys@.take(i as int) =~= keys@);
    picks
}

/// A newcomer below all of a full list leaves it as it was.
proof fn left_out(keys: Seq<i64>, picks: Seq<u32>, i: int, k: int)
    requires
        0 <= i < keys.len() <= u32::MAX,
        0 <= k,
        is_top(keys.take(i), picks, k),
        picks.len() >= k,
        forall|a: int| 0 <= a < picks.len() ==> keys[#[trigger] picks[a] as int] >= keys[i],
    ensures
        is_top(keys.take(i + 1), picks, k),
{
    let seen = keys.take(i);
    let next = keys.take(i + 1);
    assert forall|a: int, b: int| 0 <= a < b < picks.len() implies ranks_before(
        next,
        #[trigger] picks[a] as int,
        #[trigger] picks[b] as int,
    ) by {
        assert(ranks_before(seen, picks[a] as int, picks[b] as int));
    }
    assert forall|a: int, j: int|
        #![trigger picks[a], next[j]]
        0 <= a < picks.len() && 0 <= j < next.len() && !picks.contains(j as u32) implies ranks_before(
        next,
        picks[a] as int,
        j,
    ) by {
        if j < i {
            assert(seen[j] == next[j]);
            assert(ranks_before(seen, picks[a] as int, j));
        }
    }
}

/// A newcomer put in front of everything below it, the list cut back to `k`.
proof fn inserted_ranks(keys: Seq<i64>, before: Seq<u32>, i: int, at: int, k: int)
    requires
        0 <= i < keys.len() <= u32::MAX,
        is_top(keys.take(i), before, k),
        0 <= at <= before.len(),
        at < k,
        forall|a: int| 0 <= a < at ==> keys[#[trigger] before[a] as int] >= keys[i],
        at < before.len() ==> keys[before[at] as int] < keys[i],
    ensures
        ({
            let all = before.insert(at, i as u32);
            is_top(
                keys.take(i + 1),
                if all.len() > k {
                    all.drop_last()
                } else {
                    all
                },
                k,
            )
        }),
{
    let seen = keys.take(i);
    let next = keys.take(i + 1);
    let all = before.insert(at, i as u32);
    let kept = if all.len() > k {
        all.drop_last()
    } else {
        all
    };
    assert forall|a: int| 0 <= a < before.len() implies (#[trigger] before[a]) < i && seen[before[a] as int]
        == next[before[a] as int] by {}
    assert forall|a: int| at <= a < before.len() implies keys[#[trigger] before[a] as int] < keys[i] by {
        if a > at {
            assert(ranks_before(seen, before[at] as int, before[a] as int));
        }
    }
    assert forall|a: int, b: int| 0 <= a < b < all.len() implies ranks_before(
        next,
        #[trigger] all[a] as int,
        #[trigger] all[b] as int,
    ) by {
        let x = if a < at {
            before[a]
        } else if a == at {
            i as u32
        } else {
            before[a - 1]
        };
        let y = if b < at {
            before[b]
        } else if b == at {
            i as u32
        } else {
            before[b - 1]
        };
        assert(all[a] == x && all[b] == y);
        if a != at && b != at {
            let c = if a < at {
                a
            } else {
                a - 1
            };
            let d = if b < at {
                b
            } else {
                b - 1
            };
            assert(ranks_before(seen, before[c] as int, before[d] as int));
        }
    }
    assert forall|a: int, j: int|
        #![trigger kept[a], next[j]]
        0 <= a < kept.len() && 0 <= j < next.len() && !kept.contains(j as u32) implies ranks_before(
        next,
        kept[a] as int,
        j,
    ) by {
        assert(kept[a] == all[a]);
        if all.contains(j as u32) {
            // Only the last of `all` can be in it and not kept.
            let m = choose|m: int| 0 <= m < all.len() && all[m] == j as u32;
            if m < kept.len() {
                assert(kept[m] == j as u32);
            }
            assert(ranks_before(next, all[a] as int, all[m] as int));
        } else {
            assert(all[at] == i as u32);
            assert(j < i);
            assert(seen[j] == next[j]);
            assert(!before.contains(j as u32)) by {
                if before.contains(j as u32) {
                    let m = choose|m: int| 0 <= m < before.len() && before[m] == j as u32;
                    if m < at {
                        assert(all[m] == j as u32);
                    } else {
                        assert(all[m + 1] == j as u32);
                    }
                }
            }
            if before.len() < k {
                everyone_is_picked(seen, before, k, j);
            } else if a < at {
                assert(ranks_before(seen, before[a] as int, j));
            } else if a > at {
                assert(ranks_before(seen, before[a - 1] as int, j));
            } else {
                assert(ranks_before(seen, before[at] as int, j));
            }
        }
    }
}

/// Where there is room for all, none is left out.
proof fn everyone_is_picked(keys: Seq<i64>, picks: Seq<u32>, k: int, j: int)
    requires
        is_top(keys, picks, k),
        keys.len() <= u32::MAX,
        picks.len() < k,
        0 <= j < keys.len(),
    ensures
        picks.contains(j as u32),
{
    // Distinct indices below `n`, `n` of them, are all of them.
    let n = keys.len() as int;
    assert(picks.len() == n);
    assert(picks.no_duplicates()) by {
        assert forall|a: int, b: int| 0 <= a < b < picks.len() implies picks[a] != picks[b] by {
            assert(ranks_before(keys, picks[a] as int, picks[b] as int));
        }
    }
    if !picks.contains(j as u32) {
        let held = picks.to_set();
        picks.unique_seq_to_set();
        let below = vstd::set_lib::set_int_range(0, n);
        vstd::set_lib::lemma_int_range(0, n);
        let ints = held.map(|x: u32| x as int);
        vstd::set_lib::lemma_map_size(held, ints, |x: u32| x as int);
        assert(ints.subset_of(below.remove(j))) by {
            assert forall|x: int| ints.contains(x) implies below.remove(j).contains(x) by {
                let y = choose|y: u32| held.contains(y) && y as int == x;
                assert(picks.contains(y));
            }
        }
        vstd::set_lib::lemma_len_subset(ints, below.remove(j));
    }
}

// ------------------------------------------------------------------- packing

/// Each value is greater than the ones before it.
pub open spec fn increasing(values: Seq<i32>) -> bool {
    forall|i: int, j: int|
        0 <= i < j < values.len() ==> #[trigger] values[i] < #[trigger] values[j]
}

/// A batch's expert choices, packed: what to read, and where each choice stands in it.
pub struct BatchChoice {
    /// The distinct experts, ascending, so that reads walk the file forwards.
    pub unique: Vec<i32>,
    /// For each choice, its place among `unique`.
    pub compact: Vec<i32>,
    /// For each of `unique`, how many choices fell on it.
    pub selections: Vec<u32>,
}

impl BatchChoice {
    /// The packing says what `ids` say.
    pub open spec fn packs(self, ids: Seq<i32>) -> bool {
        &&& increasing(self.unique@)
        &&& forall|x: i32| #[trigger] self.unique@.contains(x) <==> ids.contains(x)
        &&& self.compact@.len() == ids.len()
        &&& forall|i: int|
            0 <= i < ids.len() ==> 0 <= (#[trigger] self.compact@[i]) < self.unique@.len()
                && self.unique@[self.compact@[i] as int] == ids[i]
        &&& self.selections@.len() == self.unique@.len()
        &&& forall|p: int|
            0 <= p < self.unique@.len() ==> (#[trigger] self.selections@[p]) == chosen(
                ids,
                self.unique@[p] as int,
            )
    }
}

fn insert_unique(unique: &mut Vec<i32>, x: i32)
    requires
        increasing(old(unique)@),
    ensures
        increasing(final(unique)@),
        forall|y: i32| #[trigger] final(unique)@.contains(y) <==> old(unique)@.contains(y) || y == x,
        final(unique)@.len() <= old(unique)@.len() + 1,
{
    let ghost before = unique@;
    let mut at: usize = 0;
    while at < unique.len() && unique[at] < x
        invariant
            at <= unique.len(),
            unique@ == before,
            forall|j: int| 0 <= j < at ==> before[j] < x,
        decreases unique.len() - at,
    {
        at = at + 1;
    }
    if at < unique.len() && unique[at] == x {
        assert(before[at as int] == x);
        return ;
    }
    unique.insert(at, x);
    proof {
        let after = unique@;
        assert(after =~= before.insert(at as int, x));
        assert forall|i: int, j: int| 0 <= i < j < after.len() implies #[trigger] after[i]
            < #[trigger] after[j] by {
            if i < at && j > at {
                assert(before[i] < before[j - 1]);
            } else if i > at {
                assert(before[i - 1] < before[j - 1]);
            } else if i == at && j - 1 > at {
                assert(before[at as int] < before[j - 1]);
            }
        }
        assert forall|y: i32| #[trigger] after.contains(y) <==> before.contains(y) || y == x by {
            if before.contains(y) {
                let m = choose|m: int| 0 <= m < before.len() && before[m] == y;
                if m < at {
                    assert(after[m] == y);
                } else {
                    assert(after[m + 1] == y);
                }
            }
            if y == x {
                assert(after[at as int] == x);
            }
            if after.contains(y) && y != x {
                let m = choose|m: int| 0 <= m < after.len() && after[m] == y;
                if m < at {
                    assert(before[m] == y);
                } else {
                    assert(before[m - 1] == y);
                }
            }
        }
    }
}

fn place_of(unique: &Vec<i32>, x: i32) -> (at: usize)
    requires
        unique@.contains(x),
    ensures
        at < unique@.len(),
        unique@[at as int] == x,
{
    let len: usize = unique.len();
    let mut at: usize = 0;
    while unique[at] != x
        invariant
            len == unique@.len(),
            at < unique@.len(),
            unique@.contains(x),
            forall|j: int| 0 <= j < at ==> unique@[j] != x,
        decreases unique@.len() - at,
    {
        proof {
            let m = choose|m: int| 0 <= m < unique@.len() && unique@[m] == x;
            assert(m > at);
        }
        at = at + 1;
    }
    at
}

fn distinct(ids: &[i32]) -> (unique: Vec<i32>)
    ensures
        increasing(unique@),
        forall|x: i32| #[trigger] unique@.contains(x) <==> ids@.contains(x),
        unique@.len() <= ids@.len(),
{
    let mut unique: Vec<i32> = Vec::new();
    let mut i: usize = 0;
    while i < ids.len()
        invariant
            i <= ids.len(),
            increasing(unique@),
            unique@.len() <= i,
            forall|x: i32| #[trigger] unique@.contains(x) <==> ids@.take(i as int).contains(x),
        decreases ids.len() - i,
    {
        insert_unique(&mut unique, ids[i]);
        proof {
            let seen = ids@.take(i as int);
            let next = ids@.take(i + 1);
            assert(next =~= seen.push(ids@[i as int]));
            assert forall|x: i32| #[trigger] unique@.contains(x) <==> next.contains(x) by {
                if seen.contains(x) {
                    let m = choose|m: int| 0 <= m < seen.len() && seen[m] == x;
                    assert(next[m] == x);
                }
                if x == ids@[i as int] {
                    assert(next[i as int] == x);
                }
                if next.contains(x) && x != ids@[i as int] {
                    let m = choose|m: int| 0 <= m < next.len() && next[m] == x;
                    assert(seen[m] == x);
                }
            }
        }
        i = i + 1;
    }
    assert(ids@.take(i as int) =~= ids@);
    unique
}

proof fn chosen_at_most(ids: Seq<i32>, expert: int)
    ensures
        chosen(ids, expert) <= ids.len(),
    decreases ids.len(),
{
    if ids.len() > 0 {
        chosen_at_most(ids.drop_last(), expert);
    }
}

/// Packs a batch's choices: each distinct expert is read once, and how many tokens
/// chose it is kept, or a cache could not tell a hot expert from a cold one.
pub fn pack_choices(ids: &[i32]) -> (choice: BatchChoice)
    requires
        ids@.len() <= i32::MAX,
    ensures
        choice.packs(ids@),
{
    let unique = distinct(ids);
    let mut compact: Vec<i32> = Vec::new();
    let mut selections: Vec<u32> = Vec::new();
    let mut p: usize = 0;
    while p < unique.len()
        invariant
            p <= unique.len(),
            selections@.len() == p,
            forall|j: int| 0 <= j < p ==> (#[trigger] selections@[j]) == 0,
        decreases unique.len() - p,
    {
        selections.push(0);
        p = p + 1;
    }
    let mut i: usize = 0;
    while i < ids.len()
        invariant
            i <= ids.len(),
            ids@.len() <= i32::MAX,
            increasing(unique@),
            unique@.len() <= ids@.len(),
            forall|x: i32| #[trigger] unique@.contains(x) <==> ids@.contains(x),
            compact@.len() == i,
            forall|j: int|
                0 <= j < i ==> 0 <= (#[trigger] compact@[j]) < unique@.len()
                    && unique@[compact@[j] as int] == ids@[j],
            selections@.len() == unique@.len(),
            forall|q: int|
                0 <= q < unique@.len() ==> (#[trigger] selections@[q]) == chosen(
                    ids@.take(i as int),
                    unique@[q] as int,
                ),
        decreases ids.len() - i,
    {
        let x: i32 = ids[i];
        assert(ids@.contains(x));
        let at: usize = place_of(&unique, x);
        compact.push(at as i32);
        let n: u32 = selections[at];
        proof {
            chosen_at_most(ids@.take(i as int), unique@[at as int] as int);
        }
        let ghost was = selections@;
        selections.set(at, n + 1);
        proof {
            assert(ids@.take(i + 1).drop_last() =~= ids@.take(i as int));
            assert forall|q: int| 0 <= q < unique@.len() implies (#[trigger] selections@[q])
                == chosen(ids@.take(i + 1), unique@[q] as int) by {
                assert(was[q] == chosen(ids@.take(i as int), unique@[q] as int));
                if q < at {
                    assert(unique@[q] < unique@[at as int]);
                } else if q > at {
                    assert(unique@[at as int] < unique@[q]);
                }
            }
        }
        i = i + 1;
    }
    assert(ids@.take(i as int) =~= ids@);
    BatchChoice { unique, compact, selections }
}

/// How many of `ids` fall on one of the first `n` of `unique`.
pub open spec fn chosen_among(ids: Seq<i32>, unique: Seq<i32>, n: int) -> nat
    decreases n,
{
    if n <= 0 {
        0
    } else {
        chosen_among(ids, unique, n - 1) + chosen(ids, unique[n - 1] as int)
    }
}

proof fn one_more_choice(ids: Seq<i32>, x: i32, unique: Seq<i32>, n: int)
    requires
        increasing(unique),
        0 <= n <= unique.len(),
    ensures
        chosen_among(ids.push(x), unique, n) == chosen_among(ids, unique, n) + (if unique.take(
            n,
        ).contains(x) {
            1nat
        } else {
            0
        }),
    decreases n,
{
    assert(ids.push(x).drop_last() =~= ids);
    if n > 0 {
        one_more_choice(ids, x, unique, n - 1);
        let short = unique.take(n - 1);
        let long = unique.take(n);
        if unique[n - 1] == x {
            assert(long[n - 1] == x);
            if short.contains(x) {
                let m = choose|m: int| 0 <= m < short.len() && short[m] == x;
                assert(unique[m] < unique[n - 1]);
            }
        } else if long.contains(x) {
            let m = choose|m: int| 0 <= m < long.len() && long[m] == x;
            assert(short[m] == x);
        } else if short.contains(x) {
            let m = choose|m: int| 0 <= m < short.len() && short[m] == x;
            assert(long[m] == x);
        }
    }
}

/// Every choice is counted exactly once: the selections of a packed batch add up to
/// its choices.
pub proof fn every_choice_is_counted_once(choice: BatchChoice, ids: Seq<i32>)
    requires
        choice.packs(ids),
    ensures
        chosen_among(ids, choice.unique@, choice.unique@.len() as int) == ids.len(),
{
    covered_choices_add_up(ids, choice.unique@);
}

proof fn covered_choices_add_up(ids: Seq<i32>, unique: Seq<i32>)
    requires
        increasing(unique),
        forall|x: i32| ids.contains(x) ==> #[trigger] unique.contains(x),
    ensures
        chosen_among(ids, unique, unique.len() as int) == ids.len(),
    decreases ids.len(),
{
    let n = unique.len() as int;
    if ids.len() == 0 {
        nothing_among_none(ids, unique, n);
    } else {
        let fewer = ids.drop_last();
        assert forall|x: i32| fewer.contains(x) implies #[trigger] unique.contains(x) by {
            let m = choose|m: int| 0 <= m < fewer.len() && fewer[m] == x;
            assert(ids[m] == x);
        }
        covered_choices_add_up(fewer, unique);
        one_more_choice(fewer, ids.last(), unique, n);
        assert(fewer.push(ids.last()) =~= ids);
        assert(unique.take(n) =~= unique);
        assert(ids.contains(ids.last())) by {
            assert(ids[ids.len() - 1] == ids.last());
        }
    }
}

proof fn nothing_among_none(ids: Seq<i32>, unique: Seq<i32>, n: int)
    requires
        ids.len() == 0,
    ensures
        chosen_among(ids, unique, n) == 0,
    decreases n,
{
    if n > 0 {
        nothing_among_none(ids, unique, n - 1);
    }
}

} // verus!
