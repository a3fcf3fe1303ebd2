//! Which experts are chosen: counting them, ranking them, and packing a batch's choice.
//!
//! The whole streaming budget rests on how a token's choice is spread: if a small hot
//! set absorbs most selections, that set is cacheable.
use crate::text::push_decimal;
#[allow(unused_imports)]
use crate::text::decimal;
use vstd::prelude::*;
#[allow(unused_imports)]
use vstd::relations::{sorted_by, total_ordering};

verus! {

// ------------------------------------------------------------------ counting

/// How many of `ids` are `expert`.
pub open spec fn chosen(ids: Seq<i32>, expert: int) -> nat
    decreases ids.len(),
{
    if ids.len() == 0 {
        0
    } else {
        chosen(ids.drop_last(), expert) + if ids.last() == expert {
            1nat
        } else {
            0
        }
    }
}

/// Choices of two batches add up.
pub proof fn choices_add_up(a: Seq<i32>, b: Seq<i32>, expert: int)
    ensures
        chosen(a + b, expert) == chosen(a, expert) + chosen(b, expert),
    decreases b.len(),
{
    if b.len() == 0 {
        assert(a + b =~= a);
    } else {
        choices_add_up(a, b.drop_last(), expert);
        assert((a + b).drop_last() =~= a + b.drop_last());
    }
}

proof fn choices_grow(ids: Seq<i32>, n: int, expert: int)
    requires
        0 <= n <= ids.len(),
    ensures
        chosen(ids.take(n), expert) <= chosen(ids, expert),
{
    assert(ids =~= ids.take(n) + ids.skip(n));
    choices_add_up(ids.take(n), ids.skip(n), expert);
}

/// The histograms of one pass, per layer.
pub open spec fn layers_of(pass: Seq<Vec<u32>>) -> Seq<Seq<u32>> {
    pass.map_values(|l: Vec<u32>| l@)
}

/// The histograms of every pass.
pub open spec fn passes_of(log: Seq<Vec<Vec<u32>>>) -> Seq<Seq<Seq<u32>>> {
    log.map_values(|p: Vec<Vec<u32>>| layers_of(p@))
}

/// A pass with a row of `n_expert` zeros for every layer up to `il` that has none.
pub open spec fn with_layer(pass: Seq<Seq<u32>>, il: int, n_expert: nat) -> Seq<Seq<u32>> {
    Seq::new(
        if pass.len() <= il {
            (il + 1) as nat
        } else {
            pass.len()
        },
        |i: int|
            if i < pass.len() {
                pass[i]
            } else {
                Seq::new(n_expert, |e: int| 0u32)
            },
    )
}

/// A row with the choices of `ids` counted in. An id outside the row is no expert of
/// this layer and counts nowhere.
pub open spec fn counted_in(row: Seq<u32>, ids: Seq<i32>) -> Seq<u32> {
    Seq::new(row.len(), |e: int| (row[e] + chosen(ids, e)) as u32)
}

/// A pass with the choices of `ids` counted for layer `il`.
pub open spec fn recorded(pass: Seq<Seq<u32>>, il: int, n_expert: nat, ids: Seq<i32>) -> Seq<
    Seq<u32>,
> {
    let padded = with_layer(pass, il, n_expert);
    padded.update(il, counted_in(padded[il], ids))
}

/// The counts of layer `il` can take the choices of `ids`.
pub open spec fn can_record(pass: Seq<Seq<u32>>, il: int, n_expert: nat, ids: Seq<i32>) -> bool {
    let row = with_layer(pass, il, n_expert)[il];
    forall|e: int| 0 <= e < row.len() ==> #[trigger] row[e] + chosen(ids, e) <= u32::MAX
}

fn zero_row(n: usize) -> (row: Vec<u32>)
    ensures
        row@ == Seq::new(n as nat, |e: int| 0u32),
{
    let mut row: Vec<u32> = Vec::new();
    let mut i: usize = 0;
    while i < n
        invariant
            i <= n,
            row@ == Seq::new(i as nat, |e: int| 0u32),
        decreases n - i,
    {
        row.push(0);
        i = i + 1;
        assert(row@ =~= Seq::new(i as nat, |e: int| 0u32));
    }
    row
}

fn count_row(row: &mut Vec<u32>, ids: &[i32])
    requires
        forall|e: int|
            0 <= e < old(row)@.len() ==> #[trigger] old(row)@[e] + chosen(ids@, e) <= u32::MAX,
    ensures
        final(row)@ == counted_in(old(row)@, ids@),
{
    let ghost before = row@;
    let mut i: usize = 0;
    assert(row@ =~= counted_in(before, ids@.take(0)));
    while i < ids.len()
        invariant
            i <= ids.len(),
            row@ == counted_in(before, ids@.take(i as int)),
            forall|e: int|
                0 <= e < before.len() ==> #[trigger] before[e] + chosen(ids@, e) <= u32::MAX,
        decreases ids.len() - i,
    {
        let id: i32 = ids[i];
        let ghost was = row@;
        assert(ids@.take(i + 1).drop_last() =~= ids@.take(i as int));
        assert forall|e: int| 0 <= e < before.len() implies #[trigger] before[e] + chosen(
            ids@.take(i + 1),
            e,
        ) <= u32::MAX by {
            choices_grow(ids@, i + 1, e);
            assert(before[e] + chosen(ids@, e) <= u32::MAX);
        }
        if id >= 0 && (id as usize) < row.len() {
            let e: usize = id as usize;
            assert(before[e as int] + chosen(ids@.take(i + 1), e as int) <= u32::MAX);
            let n: u32 = row[e];
            row.set(e, n + 1);
        }
        i = i + 1;
        assert(row@ =~= counted_in(before, ids@.take(i as int)));
    }
    assert(ids@.take(i as int) =~= ids@);
}

fn pad_layers(pass: &mut Vec<Vec<u32>>, il: usize, n_expert: usize)
    ensures
        layers_of(final(pass)@) == with_layer(layers_of(old(pass)@), il as int, n_expert as nat),
{
    let ghost before = layers_of(pass@);
    while pass.len() <= il
        invariant
            before.len() <= pass@.len(),
            pass@.len() <= il + 1 || pass@.len() == before.len(),
            forall|i: int|
                0 <= i < pass@.len() ==> (#[trigger] pass@[i])@ == (if i < before.len() {
                    before[i]
                } else {
                    Seq::new(n_expert as nat, |e: int| 0u32)
                }),
        decreases il + 1 - pass.len(),
    {
        pass.push(zero_row(n_expert));
    }
    assert(layers_of(pass@) =~= with_layer(before, il as int, n_expert as nat));
}

fn record_pass(pass: &mut Vec<Vec<u32>>, il: u32, n_expert: usize, ids: &[i32])
    requires
        can_record(layers_of(old(pass)@), il as int, n_expert as nat, ids@),
    ensures
        layers_of(final(pass)@) == recorded(
            layers_of(old(pass)@),
            il as int,
            n_expert as nat,
            ids@,
        ),
{
    let ghost before = layers_of(pass@);
    let at: usize = il as usize;
    pad_layers(pass, at, n_expert);
    let ghost padded = layers_of(pass@);
    assert(padded == with_layer(before, at as int, n_expert as nat));
    assert(padded.len() > at);
    assert(pass@.len() == padded.len());
    assert(padded[at as int] == pass@[at as int]@);
    count_row(&mut pass[at], ids);
    assert(layers_of(pass@) =~= padded.update(at as int, counted_in(padded[at as int], ids@)));
}

/// Counts a batch's choices in the newest pass.
pub fn record_into(log: &mut Vec<Vec<Vec<u32>>>, il: u32, n_expert: usize, ids: &[i32])
    requires
        old(log)@.len() > 0,
        can_record(passes_of(old(log)@).last(), il as int, n_expert as nat, ids@),
    ensures
        passes_of(final(log)@) == passes_of(old(log)@).update(
            old(log)@.len() - 1,
            recorded(passes_of(old(log)@).last(), il as int, n_expert as nat, ids@),
        ),
{
    let ghost before = passes_of(log@);
    let last: usize = log.len() - 1;
    assert(before[last as int] == layers_of(log@[last as int]@));
    record_pass(&mut log[last], il, n_expert, ids);
    assert(passes_of(log@) =~= before.update(
        last as int,
        recorded(before[last as int], il as int, n_expert as nat, ids@),
    ));
}

/// Recording two batches is recording them as one: a pass that repeats an earlier one
/// and goes on differs from it by exactly what it went on with.
pub proof fn recording_is_additive(
    pass: Seq<Seq<u32>>,
    il: int,
    n_expert: nat,
    a: Seq<i32>,
    b: Seq<i32>,
)
    requires
        0 <= il,
        can_record(pass, il, n_expert, a + b),
    ensures
        recorded(recorded(pass, il, n_expert, a), il, n_expert, b) == recorded(
            pass,
            il,
            n_expert,
            a + b,
        ),
        forall|e: int|
            #![trigger recorded(pass, il, n_expert, a + b)[il][e]]
            0 <= e < recorded(pass, il, n_expert, a)[il].len() ==> recorded(
                pass,
                il,
                n_expert,
                a + b,
            )[il][e] - recorded(pass, il, n_expert, a)[il][e] == chosen(b, e),
{
    let row = with_layer(pass, il, n_expert)[il];
    assert forall|e: int| 0 <= e < row.len() implies #[trigger] row[e] + chosen(a, e) + chosen(b, e)
        <= u32::MAX && row[e] + chosen(a + b, e) == row[e] + chosen(a, e) + chosen(b, e) by {
        choices_add_up(a, b, e);
        assert(row[e] + chosen(a + b, e) <= u32::MAX);
    }
    let once = recorded(pass, il, n_expert, a);
    let twice = recorded(once, il, n_expert, b);
    let both = recorded(pass, il, n_expert, a + b);
    assert(with_layer(once, il, n_expert) =~= once);
    assert(twice[il] =~= both[il]);
    assert(twice =~= both);
    assert forall|e: int|
        #![trigger recorded(pass, il, n_expert, a + b)[il][e]]
        0 <= e < once[il].len() implies both[il][e] - once[il][e] == chosen(b, e) by {
        assert(row[e] + chosen(a, e) + chosen(b, e) <= u32::MAX);
    }
}

// ------------------------------------------------------------------- pooling

/// One more pass summed into the pooled histograms.
pub open spec fn merged(acc: Seq<Seq<u32>>, pass: Seq<Seq<u32>>) -> Seq<Seq<u32>> {
    Seq::new(
        if acc.len() <= pass.len() {
            pass.len()
        } else {
            acc.len()
        },
        |il: int|
            if il >= pass.len() {
                acc[il]
            } else if il >= acc.len() {
                pass[il]
            } else {
                Seq::new(
                    acc[il].len(),
                    |e: int|
                        if e < pass[il].len() {
                            (acc[il][e] + pass[il][e]) as u32
                        } else {
                            acc[il][e]
                        },
                )
            },
    )
}

/// Every pass summed into one histogram per layer.
pub open spec fn pooled(log: Seq<Seq<Seq<u32>>>) -> Seq<Seq<u32>>
    decreases log.len(),
{
    if log.len() == 0 {
        Seq::empty()
    } else {
        merged(pooled(log.drop_last()), log.last())
    }
}

/// A pass fits what is pooled so far: no row is longer, and no count overflows.
pub open spec fn mergeable(acc: Seq<Seq<u32>>, pass: Seq<Seq<u32>>) -> bool {
    forall|il: int|
        0 <= il < pass.len() && il < acc.len() ==> (#[trigger] pass[il]).len() <= acc[il].len()
            && forall|e: int|
            0 <= e < pass[il].len() ==> #[trigger] acc[il][e] + pass[il][e] <= u32::MAX
}

/// Every pass fits what is pooled before it.
pub open spec fn poolable(log: Seq<Seq<Seq<u32>>>) -> bool
    decreases log.len(),
{
    if log.len() == 0 {
        true
    } else {
        poolable(log.drop_last()) && mergeable(pooled(log.drop_last()), log.last())
    }
}

proof fn poolable_prefix(log: Seq<Seq<Seq<u32>>>, n: int)
    requires
        poolable(log),
        0 < n <= log.len(),
    ensures
        poolable(log.take(n - 1)),
        mergeable(pooled(log.take(n - 1)), log[n - 1]),
    decreases log.len(),
{
    if n < log.len() {
        poolable_prefix(log.drop_last(), n);
        assert(log.drop_last().take(n - 1) =~= log.take(n - 1));
    } else {
        assert(log.take(n - 1) =~= log.drop_last());
    }
}

fn merge_row(acc: &mut Vec<u32>, row: &Vec<u32>)
    requires
        row@.len() <= old(acc)@.len(),
        forall|e: int| 0 <= e < row@.len() ==> #[trigger] old(acc)@[e] + row@[e] <= u32::MAX,
    ensures
        final(acc)@ == Seq::new(
            old(acc)@.len(),
            |e: int|
                if e < row@.len() {
                    (old(acc)@[e] + row@[e]) as u32
                } else {
                    old(acc)@[e]
                },
        ),
{
    let ghost before = acc@;
    let mut e: usize = 0;
    while e < row.len()
        invariant
            e <= row.len(),
            row@.len() <= before.len(),
            acc@.len() == before.len(),
            forall|j: int| 0 <= j < row@.len() ==> #[trigger] before[j] + row@[j] <= u32::MAX,
            forall|j: int| 0 <= j < e ==> #[trigger] acc@[j] == (before[j] + row@[j]) as u32,
            forall|j: int| e <= j < before.len() ==> #[trigger] acc@[j] == before[j],
        decreases row.len() - e,
    {
        let n: u32 = acc[e];
        assert(before[e as int] + row@[e as int] <= u32::MAX);
        acc.set(e, n + row[e]);
        e = e + 1;
    }
    assert(acc@ =~= Seq::new(
        before.len(),
        |e: int|
            if e < row@.len() {
                (before[e] + row@[e]) as u32
            } else {
                before[e]
            },
    ));
}

fn copy_row(row: &Vec<u32>) -> (out: Vec<u32>)
    ensures
        out@ == row@,
{
    let mut out: Vec<u32> = Vec::new();
    out.extend_from_slice(row.as_slice());
    assert(out@ =~= row@);
    out
}

fn merge_pass(acc: &mut Vec<Vec<u32>>, pass: &Vec<Vec<u32>>)
    requires
        mergeable(layers_of(old(acc)@), layers_of(pass@)),
    ensures
        layers_of(final(acc)@) == merged(layers_of(old(acc)@), layers_of(pass@)),
{
    let ghost before = layers_of(acc@);
    let ghost p = layers_of(pass@);
    let ghost want = merged(before, p);
    let held: usize = acc.len();
    let mut il: usize = 0;
    while il < pass.len()
        invariant
            il <= pass.len(),
            p == layers_of(pass@),
            mergeable(before, p),
            want == merged(before, p),
            held == before.len(),
            acc@.len() == (if il <= held {
                held as int
            } else {
                il as int
            }),
            forall|j: int| 0 <= j < il ==> (#[trigger] acc@[j])@ == want[j],
            forall|j: int| il <= j < held ==> (#[trigger] acc@[j])@ == before[j],
        decreases pass.len() - il,
    {
        assert(p[il as int] == pass@[il as int]@);
        if il < held {
            assert(acc@[il as int]@ == before[il as int]);
            assert forall|e: int| 0 <= e < pass@[il as int]@.len() implies #[trigger] acc@[il as int]@[e]
                + pass@[il as int]@[e] <= u32::MAX by {
                assert(before[il as int][e] + p[il as int][e] <= u32::MAX);
            }
            merge_row(&mut acc[il], &pass[il]);
            assert(acc@[il as int]@ =~= want[il as int]);
        } else {
            acc.push(copy_row(&pass[il]));
        }
        il = il + 1;
    }
    assert(layers_of(acc@) =~= want);
}

/// Every pass summed into one histogram per layer.
pub fn pool_passes(log: &Vec<Vec<Vec<u32>>>) -> (out: Vec<Vec<u32>>)
    requires
        poolable(passes_of(log@)),
    ensures
        layers_of(out@) == pooled(passes_of(log@)),
{
    let ghost all = passes_of(log@);
    let mut out: Vec<Vec<u32>> = Vec::new();
    let mut p: usize = 0;
    assert(layers_of(out@) =~= pooled(all.take(0)));
    while p < log.len()
        invariant
            p <= log.len(),
            all == passes_of(log@),
            poolable(all),
            layers_of(out@) == pooled(all.take(p as int)),
        decreases log.len() - p,
    {
        proof {
            poolable_prefix(all, p + 1);
            assert(all.take(p + 1).drop_last() =~= all.take(p as int));
            assert(all[p as int] == layers_of(log@[p as int]@));
        }
        merge_pass(&mut out, &log[p]);
        p = p + 1;
    }
    assert(all.take(p as int) =~= all);
    out
}

/// How often `expert` of layer `il` was chosen over every pass.
pub open spec fn chosen_in_all(log: Seq<Seq<Seq<u32>>>, il: int, expert: int) -> nat
    decreases log.len(),
{
    if log.len() == 0 {
        0
    } else {
        chosen_in_all(log.drop_last(), il, expert) + if il < log.last().len() && expert
            < log.last()[il].len() {
            log.last()[il][expert] as nat
        } else {
            0
        }
    }
}

/// A pooled count is the sum of the passes' counts.
pub proof fn pooling_sums_every_pass(log: Seq<Seq<Seq<u32>>>, il: int, expert: int)
    requires
        poolable(log),
        0 <= il < pooled(log).len(),
        0 <= expert < pooled(log)[il].len(),
    ensures
        pooled(log)[il][expert] == chosen_in_all(log, il, expert),
    decreases log.len(),
{
    if log.len() > 0 {
        let acc = pooled(log.drop_last());
        let pass = log.last();
        if il < acc.len() {
            pooling_sums_every_pass(log.drop_last(), il, expert);
            if il < pass.len() && expert < pass[il].len() {
                assert(acc[il][expert] + pass[il][expert] <= u32::MAX);
            }
        } else {
            nothing_chosen_beyond(log.drop_last(), il, expert);
        }
    }
}

proof fn nothing_chosen_beyond(log: Seq<Seq<Seq<u32>>>, il: int, expert: int)
    requires
        il >= pooled(log).len(),
    ensures
        chosen_in_all(log, il, expert) == 0,
    decreases log.len(),
{
    if log.len() > 0 {
        nothing_chosen_beyond(log.drop_last(), il, expert);
    }
}

// --------------------------------------------------------------------- state

/// Counts of every pass since the log began; one pass always exists.
pub struct RoutingLog {
    passes: Vec<Vec<Vec<u32>>>,
}

impl View for RoutingLog {
    type V = Seq<Seq<Seq<u32>>>;

    closed spec fn view(&self) -> Seq<Seq<Seq<u32>>> {
        passes_of(self.passes@)
    }
}

impl RoutingLog {
    pub fn new() -> (log: Self)
        ensures
            log@ == seq![Seq::<Seq<u32>>::empty()],
    {
        let mut passes: Vec<Vec<Vec<u32>>> = Vec::new();
        let first: Vec<Vec<u32>> = Vec::new();
        passes.push(first);
        let log = RoutingLog { passes };
        assert(layers_of(log.passes@[0]@) =~= Seq::<Seq<u32>>::empty());
        assert(log@ =~= seq![Seq::<Seq<u32>>::empty()]);
        log
    }

    /// Counts a batch's choices in the newest pass.
    pub fn record_routing(&mut self, il: u32, n_expert: usize, ids: &[i32])
        requires
            old(self)@.len() > 0,
            can_record(old(self)@.last(), il as int, n_expert as nat, ids@),
        ensures
            final(self)@ == old(self)@.update(
                old(self)@.len() - 1,
                recorded(old(self)@.last(), il as int, n_expert as nat, ids@),
            ),
    {
        record_into(&mut self.passes, il, n_expert, ids);
    }

    /// Starts counting a new pass. Generation that re-runs the prompt counts it again
    /// for every token; keeping passes apart is what makes their difference the token.
    pub fn routing_next_pass(&mut self)
        ensures
            final(self)@ == old(self)@.push(Seq::<Seq<u32>>::empty()),
    {
        let next: Vec<Vec<u32>> = Vec::new();
        let ghost was = self.passes@;
        self.passes.push(next);
        assert(layers_of(next@) =~= Seq::<Seq<u32>>::empty());
        assert(self@ =~= passes_of(was).push(Seq::<Seq<u32>>::empty()));
    }

    /// The histograms, pass by pass.
    pub fn passes(&self) -> (passes: &Vec<Vec<Vec<u32>>>)
        ensures
            passes_of(passes@) == self@,
    {
        &self.passes
    }
}

/// The choices of each layer.
pub open spec fn choices_of(layers: Seq<Vec<i32>>) -> Seq<Seq<i32>> {
    layers.map_values(|l: Vec<i32>| l@)
}

/// The last token's choices recorded for layer `il`: the final `n_used` of `ids`, which
/// hold `n_used` per token, token by token. A batch shorter than one token records
/// nothing.
pub open spec fn last_recorded(layers: Seq<Seq<i32>>, il: int, n_used: int, ids: Seq<i32>) -> Seq<
    Seq<i32>,
> {
    if ids.len() < n_used {
        layers
    } else {
        Seq::new(
            if layers.len() <= il {
                (il + 1) as nat
            } else {
                layers.len()
            },
            |i: int|
                if i == il {
                    ids.skip(ids.len() - n_used)
                } else if i < layers.len() {
                    layers[i]
                } else {
                    Seq::<i32>::empty()
                },
        )
    }
}

/// The experts the last token of a batch selected, per layer.
pub struct LastRouting {
    layers: Vec<Vec<i32>>,
}

impl View for LastRouting {
    type V = Seq<Seq<i32>>;

    closed spec fn view(&self) -> Seq<Seq<i32>> {
        choices_of(self.layers@)
    }
}

impl LastRouting {
    pub fn new() -> (log: Self)
        ensures
            log@ == Seq::<Seq<i32>>::empty(),
    {
        let log = LastRouting { layers: Vec::new() };
        assert(log@ =~= Seq::<Seq<i32>>::empty());
        log
    }

    /// Records the final token's choices for layer `il`.
    pub fn record_last_token(&mut self, il: u32, n_used: usize, ids: &[i32])
        ensures
            final(self)@ == last_recorded(old(self)@, il as int, n_used as int, ids@),
    {
        if ids.len() < n_used {
            return ;
        }
        let ghost before = self@;
        let at: usize = il as usize;
        while self.layers.len() <= at
            invariant
                before.len() <= self.layers@.len(),
                self.layers@.len() <= at + 1 || self.layers@.len() == before.len(),
                forall|i: int|
                    0 <= i < self.layers@.len() ==> (#[trigger] self.layers@[i])@ == (if i
                        < before.len() {
                        before[i]
                    } else {
                        Seq::<i32>::empty()
                    }),
            decreases at + 1 - self.layers.len(),
        {
            self.layers.push(Vec::new());
            assert(self.layers@.last()@ =~= Seq::<i32>::empty());
        }
        let tail: usize = ids.len() - n_used;
        let mut last: Vec<i32> = Vec::new();
        let mut i: usize = tail;
        while i < ids.len()
            invariant
                tail <= i <= ids.len(),
                last@ == ids@.subrange(tail as int, i as int),
            decreases ids.len() - i,
        {
            last.push(ids[i]);
            i = i + 1;
            assert(last@ =~= ids@.subrange(tail as int, i as int));
        }
        assert(last@ =~= ids@.skip(tail as int));
        self.layers.set(at, last);
        assert(self@ =~= last_recorded(before, il as int, n_used as int, ids@));
    }
}

/// Per-layer expert ids chosen by the last token of the most recent pass.
pub fn routing_last_token(log: &LastRouting) -> (layers: Vec<Vec<i32>>)
    ensures
        choices_of(layers@) == log@,
{
    let mut out: Vec<Vec<i32>> = Vec::new();
    let mut i: usize = 0;
    while i < log.layers.len()
        invariant
            i <= log.layers@.len(),
            out@.len() == i,
            forall|j: int| 0 <= j < i ==> (#[trigger] out@[j])@ == log@[j],
        decreases log.layers@.len() - i,
    {
        let mut row: Vec<i32> = Vec::new();
        row.extend_from_slice(log.layers[i].as_slice());
        assert(row@ =~= log.layers@[i as int]@);
        out.push(row);
        i = i + 1;
    }
    assert(choices_of(out@) =~= log@);
    out
}

/// Forget the recorded selections, so two passes can be compared cleanly.
pub fn routing_last_token_reset(log: &mut LastRouting)
    ensures
        final(log)@ == Seq::<Seq<i32>>::empty(),
{
    log.layers = Vec::new();
    assert(log@ =~= Seq::<Seq<i32>>::empty());
}

// ---------------------------------------------------------------------- dump

/// One `pass,layer,expert,count` row.
pub open spec fn dump_row(p: int, il: int, e: int, count: u32) -> Seq<char> {
    decimal(p as nat) + ","@ + decimal(il as nat) + ","@ + decimal(e as nat) + ","@ + decimal(
        count as nat,
    ) + "\n"@
}

/// The rows of one layer's experts below `n`.
pub open spec fn dump_layer(p: int, il: int, row: Seq<u32>, n: int) -> Seq<char>
    decreases n,
{
    if n <= 0 {
        Seq::empty()
    } else {
        dump_layer(p, il, row, n - 1) + dump_row(p, il, n - 1, row[n - 1])
    }
}

/// The rows of one pass's layers below `n`.
pub open spec fn dump_pass(p: int, pass: Seq<Seq<u32>>, n: int) -> Seq<char>
    decreases n,
{
    if n <= 0 {
        Seq::empty()
    } else {
        dump_pass(p, pass, n - 1) + dump_layer(p, n - 1, pass[n - 1], pass[n - 1].len() as int)
    }
}

/// The rows of the passes below `n`, behind a header. Zero counts are written too.
pub open spec fn dumped(log: Seq<Seq<Seq<u32>>>, n: int) -> Seq<char>
    decreases n,
{
    if n <= 0 {
        "pass,layer,expert,count\n"@
    } else {
        dumped(log, n - 1) + dump_pass(n - 1, log[n - 1], log[n - 1].len() as int)
    }
}

/// Raw `pass,layer,expert,count` rows, so two runs can be compared offline.
pub fn dump_routing(log: &Vec<Vec<Vec<u32>>>) -> (text: String)
    ensures
        text@ == dumped(passes_of(log@), log@.len() as int),
{
    let ghost all = passes_of(log@);
    let mut text = String::new();
    text.append("pass,layer,expert,count\n");
    assert(text@ =~= dumped(all, 0));
    let mut p: usize = 0;
    while p < log.len()
        invariant
            p <= log.len(),
            all == passes_of(log@),
            text@ == dumped(all, p as int),
        decreases log.len() - p,
    {
        let pass: &Vec<Vec<u32>> = &log[p];
        let ghost front = text@;
        assert(all[p as int] == layers_of(pass@));
        let mut il: usize = 0;
        assert(text@ =~= front + dump_pass(p as int, all[p as int], 0));
        while il < pass.len()
            invariant
                il <= pass.len(),
                p < log.len(),
                all[p as int] == layers_of(pass@),
                text@ == front + dump_pass(p as int, all[p as int], il as int),
            decreases pass.len() - il,
        {
            let row: &Vec<u32> = &pass[il];
            let ghost head = text@;
            assert(all[p as int][il as int] == row@);
            let mut e: usize = 0;
            assert(text@ =~= head + dump_layer(p as int, il as int, row@, 0));
            while e < row.len()
                invariant
                    e <= row.len(),
                    text@ == head + dump_layer(p as int, il as int, row@, e as int),
                decreases row.len() - e,
            {
                let ghost sofar = text@;
                push_decimal(&mut text, p as u64);
                text.append(",");
                push_decimal(&mut text, il as u64);
                text.append(",");
                push_decimal(&mut text, e as u64);
                text.append(",");
                push_decimal(&mut text, row[e] as u64);
                text.append("\n");
                assert(text@ =~= sofar + dump_row(p as int, il as int, e as int, row@[e as int]));
                e = e + 1;
                assert(text@ =~= head + dump_layer(p as int, il as int, row@, e as int));
            }
            il = il + 1;
            assert(text@ =~= front + dump_pass(p as int, all[p as int], il as int));
        }
        p = p + 1;
        assert(text@ =~= dumped(all, p as int));
    }
    text
}

// -------------------------------------------------------------------- shares

/// Counts from the largest down.
pub open spec fn descending(counts: Seq<u32>) -> Seq<u32> {
    counts.sort_by(|a: u32, b: u32| b <= a)
}

/// The sum of counts.
pub open spec fn sum_of(counts: Seq<u32>) -> nat
    decreases counts.len(),
{
    if counts.len() == 0 {
        0
    } else {
        sum_of(counts.drop_last()) + counts.last() as nat
    }
}

/// What the `n` largest counts sum to.
pub open spec fn largest_sum(counts: Seq<u32>, n: int) -> nat {
    sum_of(descending(counts).take(if n < counts.len() {
        n
    } else {
        counts.len() as int
    }))
}

/// What the `n` hottest experts of each of the first `layers` layers absorb.
pub open spec fn covered_by(hist: Seq<Seq<u32>>, n: int, layers: int) -> nat
    decreases layers,
{
    if layers <= 0 {
        0
    } else {
        covered_by(hist, n, layers - 1) + largest_sum(hist[layers - 1], n)
    }
}

/// All selections of the first `layers` layers.
pub open spec fn selections_in(hist: Seq<Seq<u32>>, layers: int) -> nat
    decreases layers,
{
    if layers <= 0 {
        0
    } else {
        selections_in(hist, layers - 1) + sum_of(hist[layers - 1])
    }
}

proof fn sum_grows(counts: Seq<u32>, n: int)
    requires
        0 <= n <= counts.len(),
    ensures
        sum_of(counts.take(n)) <= sum_of(counts),
    decreases counts.len() - n,
{
    if n < counts.len() {
        sum_grows(counts, n + 1);
        assert(counts.take(n + 1).drop_last() =~= counts.take(n));
    } else {
        assert(counts.take(n) =~= counts);
    }
}

proof fn sum_remove(counts: Seq<u32>, i: int)
    requires
        0 <= i < counts.len(),
    ensures
        sum_of(counts) == sum_of(counts.remove(i)) + counts[i],
    decreases counts.len(),
{
    if i < counts.len() - 1 {
        sum_remove(counts.drop_last(), i);
        assert(counts.remove(i).drop_last() =~= counts.drop_last().remove(i));
    } else {
        assert(counts.remove(i) =~= counts.drop_last());
    }
}

/// Reordering counts leaves their sum.
proof fn sum_of_permutation(a: Seq<u32>, b: Seq<u32>)
    requires
        a.to_multiset() == b.to_multiset(),
    ensures
        sum_of(a) == sum_of(b),
    decreases a.len(),
{
    broadcast use vstd::seq_lib::group_to_multiset_ensures;

    if a.len() == 0 {
        assert(b.to_multiset().len() == 0);
        assert(b.len() == 0);
    } else {
        let x = a.last();
        assert(a.contains(x)) by {
            assert(a[a.len() - 1] == x);
        }
        assert(a.to_multiset().count(x) > 0);
        assert(b.contains(x));
        let i = choose|i: int| 0 <= i < b.len() && b[i] == x;
        sum_remove(b, i);
        assert(a.drop_last() =~= a.remove(a.len() - 1));
        assert(a.drop_last().to_multiset() =~= a.to_multiset().remove(x));
        assert(b.remove(i).to_multiset() =~= b.to_multiset().remove(x));
        sum_of_permutation(a.drop_last(), b.remove(i));
    }
}

proof fn descending_is_total()
    ensures
        total_ordering(|a: u32, b: u32| b <= a),
{
}

/// The hottest experts absorb no more than everything, more of them no less, and all
/// of them everything.
pub proof fn shares_are_shares(counts: Seq<u32>, n: int, m: int)
    requires
        0 <= n <= m,
    ensures
        largest_sum(counts, n) <= largest_sum(counts, m) <= sum_of(counts),
        m >= counts.len() ==> largest_sum(counts, m) == sum_of(counts),
{
    descending_is_total();
    counts.lemma_sort_by_ensures(|a: u32, b: u32| b <= a);
    let d = descending(counts);
    sum_of_permutation(counts, d);
    broadcast use vstd::seq_lib::group_to_multiset_ensures;

    assert(d.len() == counts.len()) by {
        assert(d.to_multiset().len() == counts.to_multiset().len());
    }
    let k = if n < counts.len() {
        n
    } else {
        counts.len() as int
    };
    let l = if m < counts.len() {
        m
    } else {
        counts.len() as int
    };
    sum_grows(d, l);
    sum_grows(d.take(l), k);
    assert(d.take(l).take(k) =~= d.take(k));
    if m >= counts.len() {
        assert(d.take(l) =~= d);
    }
}

fn insert_descending(sorted: &mut Vec<u32>, x: u32)
    requires
        sorted_by(old(sorted)@, |a: u32, b: u32| b <= a),
    ensures
        sorted_by(final(sorted)@, |a: u32, b: u32| b <= a),
        final(sorted)@.to_multiset() == old(sorted)@.to_multiset().insert(x),
{
    let ghost before = sorted@;
    let mut at: usize = 0;
    while at < sorted.len() && sorted[at] >= x
        invariant
            at <= sorted.len(),
            sorted@ == before,
            forall|j: int| 0 <= j < at ==> before[j] >= x,
        decreases sorted.len() - at,
    {
        at = at + 1;
    }
    sorted.insert(at, x);
    proof {
        broadcast use vstd::seq_lib::group_to_multiset_ensures;

        let leq = |a: u32, b: u32| b <= a;
        assert forall|i: int, j: int| 0 <= i < j < sorted@.len() implies #[trigger] leq(
            sorted@[i],
            sorted@[j],
        ) by {
            if j < at {
                assert(leq(before[i], before[j]));
            } else if i > at {
                assert(leq(before[i - 1], before[j - 1]));
            } else if i < at && j > at {
                assert(leq(before[i], before[j - 1]));
            } else if i == at && at < j - 1 {
                assert(leq(before[at as int], before[j - 1]));
            }
        }
    }
}

/// Counts from the largest down.
pub fn sort_descending(counts: &Vec<u32>) -> (sorted: Vec<u32>)
    ensures
        sorted@ == descending(counts@),
{
    let mut sorted: Vec<u32> = Vec::new();
    let mut i: usize = 0;
    assert(sorted@ =~= counts@.take(0));
    while i < counts.len()
        invariant
            i <= counts.len(),
            sorted_by(sorted@, |a: u32, b: u32| b <= a),
            sorted@.to_multiset() == counts@.take(i as int).to_multiset(),
        decreases counts.len() - i,
    {
        insert_descending(&mut sorted, counts[i]);
        proof {
            broadcast use vstd::seq_lib::group_to_multiset_ensures;

            assert(counts@.take(i + 1) =~= counts@.take(i as int).push(counts@[i as int]));
        }
        i = i + 1;
    }
    proof {
        assert(counts@.take(i as int) =~= counts@);
        descending_is_total();
        counts@.lemma_sort_by_ensures(|a: u32, b: u32| b <= a);
        vstd::seq_lib::lemma_sorted_unique(
            sorted@,
            descending(counts@),
            |a: u32, b: u32| b <= a,
        );
    }
    sorted
}

fn sum_first(counts: &Vec<u32>, n: usize) -> (sum: u64)
    requires
        n <= counts@.len(),
        sum_of(counts@) <= u64::MAX,
    ensures
        sum == sum_of(counts@.take(n as int)),
{
    let mut sum: u64 = 0;
    let mut i: usize = 0;
    while i < n
        invariant
            i <= n <= counts@.len(),
            sum == sum_of(counts@.take(i as int)),
            sum_of(counts@) <= u64::MAX,
        decreases n - i,
    {
        proof {
            sum_grows(counts@, i + 1);
            assert(counts@.take(i + 1).drop_last() =~= counts@.take(i as int));
        }
        sum = sum + counts[i] as u64;
        i = i + 1;
    }
    sum
}

/// How many selections the `top` hottest experts of each layer absorb, of how many.
#[derive(Debug, Clone, Copy, PartialEq, Eq, Structural)]
pub struct Share {
    pub top: usize,
    pub covered: u64,
    pub total: u64,
}

proof fn totals_grow(hist: Seq<Seq<u32>>, n: int, m: int, top: int)
    requires
        0 <= n <= m <= hist.len(),
        0 <= top,
    ensures
        selections_in(hist, n) <= selections_in(hist, m),
        covered_by(hist, top, n) <= selections_in(hist, n),
    decreases m - n, n,
{
    if n < m {
        totals_grow(hist, n, m - 1, top);
    } else if n > 0 {
        totals_grow(hist, n - 1, n - 1, top);
        shares_are_shares(hist[n - 1], top, top);
    }
}

/// The share of selections that the `top` hottest experts of each layer absorb.
pub fn share_of(hist: &Vec<Vec<u32>>, top: usize) -> (share: Share)
    requires
        selections_in(layers_of(hist@), hist@.len() as int) <= u64::MAX,
    ensures
        share.top == top,
        share.covered == covered_by(layers_of(hist@), top as int, hist@.len() as int),
        share.total == selections_in(layers_of(hist@), hist@.len() as int),
        share.covered <= share.total,
{
    let ghost all = layers_of(hist@);
    let mut covered: u64 = 0;
    let mut total: u64 = 0;
    let mut il: usize = 0;
    while il < hist.len()
        invariant
            il <= hist.len(),
            all == layers_of(hist@),
            selections_in(all, hist@.len() as int) <= u64::MAX,
            covered == covered_by(all, top as int, il as int),
            total == selections_in(all, il as int),
            covered <= total,
        decreases hist.len() - il,
    {
        let row: &Vec<u32> = &hist[il];
        assert(all[il as int] == row@);
        proof {
            totals_grow(all, il + 1, hist@.len() as int, top as int);
            descending_is_total();
            row@.lemma_sort_by_ensures(|a: u32, b: u32| b <= a);
            shares_are_shares(row@, top as int, top as int);
            sum_of_permutation(row@, descending(row@));
            broadcast use vstd::seq_lib::group_to_multiset_ensures;

            assert(descending(row@).to_multiset().len() == row@.to_multiset().len());
        }
        let sorted = sort_descending(row);
        let n: usize = if top < sorted.len() {
            top
        } else {
            sorted.len()
        };
        let part: u64 = sum_first(&sorted, n);
        let whole: u64 = sum_first(row, row.len());
        assert(row@.take(row@.len() as int) =~= row@);
        covered = covered + part;
        total = total + whole;
        il = il + 1;
    }
    proof {
        totals_grow(all, il as int, il as int, top as int);
    }
    Share { top, covered, total }
}

/// The sizes a routing table asks about.
pub open spec fn table_tops() -> Seq<usize> {
    seq![1usize, 4, 8, 16, 32, 64, 128]
}

/// How many of the table's sizes a layer of `n_expert` experts can hold.
pub open spec fn tops_within(n_expert: int, n: int) -> int
    decreases n,
{
    if n <= 0 {
        0
    } else if table_tops()[n - 1] <= n_expert {
        n
    } else {
        tops_within(n_expert, n - 1)
    }
}

/// The rows of a routing table over the layers `hist`: one for each size that a layer
/// can hold, and none where nothing was selected at all.
pub fn routing_table(hist: &Vec<Vec<u32>>) -> (rows: Vec<Share>)
    requires
        selections_in(layers_of(hist@), hist@.len() as int) <= u64::MAX,
    ensures
        ({
            let all = layers_of(hist@);
            let total = selections_in(all, all.len() as int);
            let n = if all.len() == 0 || total == 0 {
                0
            } else {
                tops_within(all[0].len() as int, 7)
            };
            &&& rows@.len() == n
            &&& forall|i: int|
                0 <= i < n ==> (#[trigger] rows@[i]) == (Share {
                    top: table_tops()[i],
                    covered: covered_by(all, table_tops()[i] as int, all.len() as int) as u64,
                    total: total as u64,
                })
        }),
{
    let mut rows: Vec<Share> = Vec::new();
    if hist.len() == 0 {
        return rows;
    }
    let ghost all = layers_of(hist@);
    let ghost total = selections_in(all, all.len() as int);
    let n_expert: usize = hist[0].len();
    assert(all[0] == hist@[0]@);
    let tops: Vec<usize> = vec![1, 4, 8, 16, 32, 64, 128];
    assert(tops@ =~= table_tops());
    let mut i: usize = 0;
    proof {
        reveal_with_fuel(tops_within, 8);
    }
    while i < tops.len()
        invariant
            i <= tops.len(),
            tops@ == table_tops(),
            n_expert == all[0].len(),
            all == layers_of(hist@),
            all.len() > 0,
            total == selections_in(all, all.len() as int),
            total <= u64::MAX,
            rows@.len() == i,
            i > 0 ==> total != 0,
            i > 0 ==> table_tops()[i - 1] <= n_expert,
            forall|j: int|
                0 <= j < i ==> (#[trigger] rows@[j]) == (Share {
                    top: table_tops()[j],
                    covered: covered_by(all, table_tops()[j] as int, all.len() as int) as u64,
                    total: total as u64,
                }),
        decreases tops.len() - i,
    {
        proof {
            reveal_with_fuel(tops_within, 8);
        }
        let top: usize = tops[i];
        if top > n_expert {
            assert(tops_within(all[0].len() as int, 7) == i);
            return rows;
        }
        let share = share_of(hist, top);
        if share.total == 0 {
            return rows;
        }
        rows.push(share);
        i = i + 1;
    }
    rows
}

/// The selections of each expert index over the first `layers` layers.
pub open spec fn index_total(hist: Seq<Seq<u32>>, e: int, layers: int) -> nat
    decreases layers,
{
    if layers <= 0 {
        0
    } else {
        index_total(hist, e, layers - 1) + if e < hist[layers - 1].len() {
            hist[layers - 1][e] as nat
        } else {
            0
        }
    }
}

proof fn index_total_grows(hist: Seq<Seq<u32>>, e: int, n: int, m: int)
    requires
        0 <= n <= m <= hist.len(),
    ensures
        index_total(hist, e, n) <= index_total(hist, e, m),
    decreases m - n,
{
    if n < m {
        index_total_grows(hist, e, n, m - 1);
    }
}

/// Every layer's counts summed by expert index, for the pooled statistic.
pub fn index_totals(hist: &Vec<Vec<u32>>) -> (totals: Vec<u64>)
    requires
        hist@.len() > 0,
        forall|il: int|
            0 <= il < hist@.len() ==> (#[trigger] layers_of(hist@)[il]).len() <= layers_of(
                hist@,
            )[0].len(),
        forall|e: int|
            0 <= e < layers_of(hist@)[0].len() ==> #[trigger] index_total(
                layers_of(hist@),
                e,
                hist@.len() as int,
            ) <= u64::MAX,
    ensures
        totals@ == Seq::new(
            layers_of(hist@)[0].len(),
            |e: int| index_total(layers_of(hist@), e, hist@.len() as int) as u64,
        ),
{
    let ghost all = layers_of(hist@);
    let n_expert: usize = hist[0].len();
    assert(all[0] == hist@[0]@);
    let mut totals: Vec<u64> = Vec::new();
    let mut e: usize = 0;
    while e < n_expert
        invariant
            e <= n_expert,
            all == layers_of(hist@),
            hist@.len() > 0,
            n_expert == all[0].len(),
            forall|e: int|
                0 <= e < n_expert ==> #[trigger] index_total(all, e, hist@.len() as int)
                    <= u64::MAX,
            totals@ == Seq::new(
                e as nat,
                |e: int| index_total(all, e, hist@.len() as int) as u64,
            ),
        decreases n_expert - e,
    {
        let mut sum: u64 = 0;
        let mut il: usize = 0;
        assert(index_total(all, e as int, hist@.len() as int) <= u64::MAX);
        while il < hist.len()
            invariant
                il <= hist.len(),
                all == layers_of(hist@),
                sum == index_total(all, e as int, il as int),
                index_total(all, e as int, hist@.len() as int) <= u64::MAX,
            decreases hist.len() - il,
        {
            proof {
                index_total_grows(all, e as int, il + 1, hist@.len() as int);
                assert(all[il as int] == hist@[il as int]@);
            }
            if e < hist[il].len() {
                sum = sum + hist[il][e] as u64;
            }
            il = il + 1;
        }
        totals.push(sum);
        e = e + 1;
        assert(totals@ =~= Seq::new(
            e as nat,
            |e: int| index_total(all, e, hist@.len() as int) as u64,
        ));
    }
    totals
}

/// Where a routing report's tables start: over every layer, and again over the layers
/// behind the `hash_layers` that select by token id, where there are both kinds. Only
/// the second says anything about a learned gate.
pub fn report_starts(layers: usize, hash_layers: u32) -> (starts: Vec<usize>)
    ensures
        starts@ == (if 0 < hash_layers < layers {
            seq![0usize, hash_layers as usize]
        } else {
            seq![0usize]
        }),
{
    let mut starts: Vec<usize> = vec![0];
    let hash: usize = hash_layers as usize;
    if hash > 0 && hash < layers {
        starts.push(hash);
    }
    assert(starts@ =~= (if 0 < hash_layers < layers {
        seq![0usize, hash_layers as usize]
    } else {
        seq![0usize]
    }));
    starts
}

} // verus!
