//! Reading a layer's expert slices: what is asked of the cache, what of the disk, and
//! where each byte lands.
//!
//! A stacked expert tensor is `[ne0, ne1, n_expert]` with equal slices, so slice `e`
//! starts at `e * size / n_expert`. The slices of a batch land packed, in the order of
//! its distinct experts, whether they come from memory or from disk.
use crate::container::TensorInfo;
use crate::expert_cache::{slice_key, ExpertCache, KEYED_LAYERS};
#[allow(unused_imports)]
use crate::expert_cache::{slice_key_spec, slice_keys_do_not_collide, CacheModel};
#[allow(unused_imports)]
use crate::selection::increasing;
use std::sync::Arc;
use vstd::prelude::*;

verus! {

/// Concurrent readers for a layer's slices, each with a file handle of its own.
pub const READERS: usize = 8;

/// Where a slice's bytes come from.
pub enum Source {
    /// Read from the tensor's data at this offset.
    Disk { offset: u64 },
    /// Copied from memory.
    Memory(Arc<[u8]>),
}

/// One slice on its way into a packed stack.
pub struct ReadJob {
    /// Which tensor.
    pub name: usize,
    /// Where in the tensor's stack the slice lands.
    pub at: usize,
    pub len: usize,
    /// Which reader does it.
    pub reader: usize,
    pub source: Source,
}

/// A slice that was not in memory.
#[derive(Debug, Clone, Copy, PartialEq, Eq, Structural)]
pub struct Miss {
    /// Which tensor.
    pub name: usize,
    /// Which of the distinct experts.
    pub place: usize,
    pub key: u64,
}

/// The packed slices of one tensor.
pub struct Stack {
    /// Bytes in all.
    pub bytes: usize,
    /// The tensor's shape with as many slices as are read.
    pub dims: Vec<u64>,
}

/// How a layer's slices are brought together.
pub struct ReadPlan {
    pub stacks: Vec<Stack>,
    pub jobs: Vec<ReadJob>,
    pub misses: Vec<Miss>,
    /// Bytes of all stacks.
    pub total: u64,
    /// Bytes that come from memory.
    pub hit_bytes: u64,
}

/// Bytes of one slice of a stacked tensor.
pub open spec fn slice_size(t: TensorInfo) -> int {
    t.size as int / t.dims@.last() as int
}

/// A stacked tensor: it has a last dimension, and that is not zero.
pub open spec fn is_stacked(t: TensorInfo) -> bool {
    t.dims@.len() > 0 && t.dims@.last() > 0
}

/// The key of expert `e` of tensor `n` in layer `il`.
pub open spec fn key_of(il: u32, n: int, e: i32) -> u64 {
    slice_key_spec(il, n as u8, e as u32)
}

/// The key of job `k` of a batch of experts.
pub open spec fn job_key(il: u32, unique: Seq<i32>, k: int) -> u64 {
    key_of(il, k / unique.len() as int, unique[k % unique.len() as int])
}

/// What a request of `weight` counts as.
pub open spec fn worth(weight: u32) -> int {
    if weight == 0 {
        1
    } else {
        weight as int
    }
}

/// The cache after the first `k` slices were asked for, tensor by tensor, each worth
/// as much as the tokens that chose its expert.
pub open spec fn requested_upto(
    m: CacheModel,
    il: u32,
    unique: Seq<i32>,
    weights: Seq<u32>,
    k: int,
) -> CacheModel
    decreases k,
{
    if k <= 0 {
        m
    } else {
        requested_upto(m, il, unique, weights, k - 1).requested(
            job_key(il, unique, k - 1),
            weights[(k - 1) % unique.len() as int],
        )
    }
}

/// The slices among the first `k` that memory does not hold, in order.
pub open spec fn missed_upto(held: Map<u64, Seq<u8>>, il: u32, unique: Seq<i32>, k: int) -> Seq<Miss>
    decreases k,
{
    if k <= 0 {
        Seq::empty()
    } else {
        let before = missed_upto(held, il, unique, k - 1);
        let key = job_key(il, unique, k - 1);
        if held.contains_key(key) {
            before
        } else {
            before.push(
                Miss {
                    name: ((k - 1) / unique.len() as int) as usize,
                    place: ((k - 1) % unique.len() as int) as usize,
                    key,
                },
            )
        }
    }
}

/// Bytes that memory supplies of the first `k` slices.
pub open spec fn hits_upto(held: Map<u64, Seq<u8>>, il: u32, unique: Seq<i32>, k: int) -> nat
    decreases k,
{
    if k <= 0 {
        0
    } else {
        let key = job_key(il, unique, k - 1);
        hits_upto(held, il, unique, k - 1) + if held.contains_key(key) {
            held[key].len()
        } else {
            0
        }
    }
}

/// Bytes of the first `n` stacks of `slices` slices each.
pub open spec fn stacked_bytes(tensors: Seq<TensorInfo>, slices: int, n: int) -> int
    decreases n,
{
    if n <= 0 {
        0
    } else {
        stacked_bytes(tensors, slices, n - 1) + slices * slice_size(tensors[n - 1])
    }
}

impl ReadJob {
    /// The job is the `k`-th of its plan, with memory holding `held`.
    pub open spec fn is_job(
        self,
        tensors: Seq<TensorInfo>,
        held: Map<u64, Seq<u8>>,
        il: u32,
        unique: Seq<i32>,
        k: int,
    ) -> bool {
        let n = k / unique.len() as int;
        let p = k % unique.len() as int;
        let slice = slice_size(tensors[n]);
        let key = key_of(il, n, unique[p]);
        &&& self.name == n
        &&& self.at == p * slice
        &&& self.len == slice
        &&& self.reader == k % READERS as int
        &&& match self.source {
            Source::Disk { offset } => !held.contains_key(key) && offset == unique[p] * slice,
            Source::Memory(bytes) => held.contains_key(key) && bytes@ == held[key],
        }
    }
}

/// The offsets and sizes of the slices of stacked tensors are in range.
pub open spec fn sizes_fit(tensors: Seq<TensorInfo>, unique: Seq<i32>) -> bool {
    &&& forall|n: int| 0 <= n < tensors.len() ==> is_stacked(#[trigger] tensors[n])
    &&& forall|n: int, p: int|
        0 <= n < tensors.len() && 0 <= p < unique.len() ==> #[trigger] unique[p] * slice_size(
            #[trigger] tensors[n],
        ) <= u64::MAX
    &&& forall|n: int|
        0 <= n < tensors.len() ==> unique.len() * slice_size(#[trigger] tensors[n]) <= usize::MAX
    &&& stacked_bytes(tensors, unique.len() as int, tensors.len() as int) <= u64::MAX
}

/// What a batch may ask: distinct experts of stacked tensors, within the counters.
pub open spec fn can_ask(
    tensors: Seq<TensorInfo>,
    il: u32,
    unique: Seq<i32>,
    weights: Seq<u32>,
) -> bool {
    &&& il < KEYED_LAYERS
    &&& tensors.len() <= 256
    &&& increasing(unique)
    &&& forall|p: int| 0 <= p < unique.len() ==> 0 <= #[trigger] unique[p]
    &&& weights.len() == unique.len()
    &&& sizes_fit(tensors, unique)
    &&& tensors.len() * unique.len() <= usize::MAX
}

/// The cache's counters have room for every slice of a batch.
pub open spec fn has_room(
    m: CacheModel,
    il: u32,
    unique: Seq<i32>,
    weights: Seq<u32>,
    tensors: int,
) -> bool {
    let n = tensors * unique.len();
    &&& forall|k: int|
        0 <= k < n ==> m.counted(#[trigger] job_key(il, unique, k)) + worth(
            weights[k % unique.len() as int],
        ) <= u32::MAX
    &&& m.stats.hits + n <= u64::MAX
    &&& m.stats.misses + n <= u64::MAX
    &&& m.stats.bytes_saved + hits_upto(m.entries, il, unique, n as int) <= u64::MAX
}

/// Job `k`'s tensor and expert are in range.
proof fn job_in_range(tensors: int, u: int, k: int)
    requires
        0 <= tensors,
        0 <= k < tensors * u,
        0 <= u,
    ensures
        u > 0,
        0 <= k / u < tensors,
        0 <= k % u < u,
        k == (k / u) * u + k % u,
{
    assert(u > 0) by (nonlinear_arith)
        requires
            0 <= k < tensors * u,
            0 <= u,
            0 <= tensors,
    ;
    vstd::arithmetic::div_mod::lemma_fundamental_div_mod(k, u);
    vstd::arithmetic::div_mod::lemma_mod_bound(k, u);
    vstd::arithmetic::div_mod::lemma_div_pos_is_pos(k, u);
    let q = k / u;
    assert(u * q == q * u) by (nonlinear_arith);
    assert(q < tensors) by (nonlinear_arith)
        requires
            k == q * u + k % u,
            0 <= k % u,
            k < tensors * u,
            u > 0,
    ;
}

/// No two slices of a batch share a key.
proof fn keys_differ(tensors: int, il: u32, unique: Seq<i32>, j: int, k: int)
    requires
        il < KEYED_LAYERS,
        0 <= tensors <= 256,
        increasing(unique),
        forall|p: int| 0 <= p < unique.len() ==> 0 <= #[trigger] unique[p],
        0 <= j < tensors * unique.len(),
        0 <= k < tensors * unique.len(),
        j != k,
    ensures
        job_key(il, unique, j) != job_key(il, unique, k),
{
    let u = unique.len() as int;
    job_in_range(tensors, u, j);
    job_in_range(tensors, u, k);
    let a = unique[j % u];
    let b = unique[k % u];
    assert(0 <= a && 0 <= b);
    slice_keys_do_not_collide(
        il,
        (j / u) as u8,
        a as u32,
        il,
        (k / u) as u8,
        b as u32,
    );
    if j / u == k / u && a as u32 == b as u32 {
        assert(a == b);
        if j % u < k % u {
            assert(unique[j % u] < unique[k % u]);
        } else if k % u < j % u {
            assert(unique[k % u] < unique[j % u]);
        }
    }
}

proof fn hits_grow(held: Map<u64, Seq<u8>>, il: u32, unique: Seq<i32>, k: int, n: int)
    requires
        0 <= k <= n,
    ensures
        hits_upto(held, il, unique, k) <= hits_upto(held, il, unique, n),
    decreases n - k,
{
    if k < n {
        hits_grow(held, il, unique, k, n - 1);
    }
}

/// Asking changes what is counted and nothing that is held.
proof fn asking_keeps(m: CacheModel, il: u32, unique: Seq<i32>, weights: Seq<u32>, tensors: int, k: int)
    requires
        m.wf(),
        il < KEYED_LAYERS,
        0 <= tensors <= 256,
        increasing(unique),
        forall|p: int| 0 <= p < unique.len() ==> 0 <= #[trigger] unique[p],
        has_room(m, il, unique, weights, tensors),
        0 <= k <= tensors * unique.len(),
    ensures
        ({
            let after = requested_upto(m, il, unique, weights, k);
            &&& after.wf()
            &&& after.entries == m.entries
            &&& after.budget == m.budget
            &&& after.stats.admissions == m.stats.admissions
            &&& after.stats.hits <= m.stats.hits + k
            &&& after.stats.misses <= m.stats.misses + k
            &&& after.stats.bytes_saved == m.stats.bytes_saved + hits_upto(m.entries, il, unique, k)
            &&& forall|j: int|
                k <= j < tensors * unique.len() ==> after.counted(
                    #[trigger] job_key(il, unique, j),
                ) == m.counted(job_key(il, unique, j))
            &&& k < tensors * unique.len() ==> after.can_request(
                job_key(il, unique, k),
                weights[k % unique.len() as int],
            )
        }),
    decreases k,
{
    let n = tensors * unique.len();
    hits_grow(m.entries, il, unique, k, n as int);
    if k < n {
        hits_grow(m.entries, il, unique, k + 1, n as int);
        assert(m.counted(job_key(il, unique, k)) + worth(weights[k % unique.len() as int])
            <= u32::MAX);
    }
    if k > 0 {
        asking_keeps(m, il, unique, weights, tensors, k - 1);
        let before = requested_upto(m, il, unique, weights, k - 1);
        let key = job_key(il, unique, k - 1);
        assert forall|j: int| k <= j < n implies requested_upto(
            m,
            il,
            unique,
            weights,
            k,
        ).counted(#[trigger] job_key(il, unique, j)) == m.counted(job_key(il, unique, j)) by {
            keys_differ(tensors, il, unique, j, k - 1);
            assert(before.counted(job_key(il, unique, j)) == m.counted(job_key(il, unique, j)));
        }
        if k < n {
            assert(requested_upto(m, il, unique, weights, k).counted(job_key(il, unique, k))
                == m.counted(job_key(il, unique, k)));
        }
    }
}

fn read_dims(t: &TensorInfo, slices: usize) -> (dims: Vec<u64>)
    requires
        is_stacked(*t),
    ensures
        dims@ == t.dims@.update(t.dims@.len() - 1, slices as u64),
{
    let mut dims: Vec<u64> = Vec::new();
    dims.extend_from_slice(t.dims.as_slice());
    assert(dims@ =~= t.dims@);
    let last: usize = dims.len() - 1;
    dims.set(last, slices as u64);
    dims
}

fn slice_bytes(t: &TensorInfo) -> (slice: u64)
    requires
        is_stacked(*t),
    ensures
        slice == slice_size(*t),
{
    let last: usize = t.dims.len() - 1;
    t.size / t.dims[last]
}

proof fn stacked_bytes_grow(tensors: Seq<TensorInfo>, slices: int, n: int, m: int)
    requires
        0 <= n <= m <= tensors.len(),
        0 <= slices,
        forall|i: int| 0 <= i < tensors.len() ==> is_stacked(#[trigger] tensors[i]),
    ensures
        stacked_bytes(tensors, slices, n) <= stacked_bytes(tensors, slices, m),
    decreases m - n,
{
    if n < m {
        stacked_bytes_grow(tensors, slices, n, m - 1);
        assert(is_stacked(tensors[m - 1]));
        let s = slice_size(tensors[m - 1]);
        vstd::arithmetic::div_mod::lemma_div_pos_is_pos(
            tensors[m - 1].size as int,
            tensors[m - 1].dims@.last() as int,
        );
        assert(slices * s >= 0) by (nonlinear_arith)
            requires
                slices >= 0,
                s >= 0,
        ;
    }
}

/// The tensors behind references.
pub open spec fn infos(tensors: Seq<&TensorInfo>) -> Seq<TensorInfo> {
    tensors.map_values(|t: &TensorInfo| *t)
}

/// What memory holds, if there is any memory.
pub open spec fn held_by(cache: Option<ExpertCache>) -> Map<u64, Seq<u8>> {
    match cache {
        Some(c) => c@.entries,
        None => Map::empty(),
    }
}

fn plan_stacks(tensors: &Vec<&TensorInfo>, slices: usize) -> (out: (Vec<Stack>, u64))
    requires
        forall|n: int| 0 <= n < tensors@.len() ==> is_stacked(#[trigger] infos(tensors@)[n]),
        forall|n: int|
            0 <= n < tensors@.len() ==> slices * slice_size(#[trigger] infos(tensors@)[n])
                <= usize::MAX,
        stacked_bytes(infos(tensors@), slices as int, tensors@.len() as int) <= u64::MAX,
    ensures
        out.0@.len() == tensors@.len(),
        forall|n: int|
            0 <= n < tensors@.len() ==> (#[trigger] out.0@[n]).bytes == slices * slice_size(
                infos(tensors@)[n],
            ) && out.0@[n].dims@ == infos(tensors@)[n].dims@.update(
                infos(tensors@)[n].dims@.len() - 1,
                slices as u64,
            ),
        out.1 == stacked_bytes(infos(tensors@), slices as int, tensors@.len() as int),
{
    let ghost all = infos(tensors@);
    let mut stacks: Vec<Stack> = Vec::new();
    let mut total: u64 = 0;
    let mut n: usize = 0;
    while n < tensors.len()
        invariant
            n <= tensors.len(),
            all == infos(tensors@),
            forall|n: int| 0 <= n < tensors@.len() ==> is_stacked(#[trigger] all[n]),
            forall|n: int|
                0 <= n < tensors@.len() ==> slices * slice_size(#[trigger] all[n]) <= usize::MAX,
            stacked_bytes(all, slices as int, tensors@.len() as int) <= u64::MAX,
            stacks@.len() == n,
            forall|i: int|
                0 <= i < n ==> (#[trigger] stacks@[i]).bytes == slices * slice_size(all[i])
                    && stacks@[i].dims@ == all[i].dims@.update(
                    all[i].dims@.len() - 1,
                    slices as u64,
                ),
            total == stacked_bytes(all, slices as int, n as int),
        decreases tensors.len() - n,
    {
        let t: &TensorInfo = tensors[n];
        assert(all[n as int] == *t);
        assert(is_stacked(all[n as int]));
        assert(slices * slice_size(all[n as int]) <= usize::MAX);
        proof {
            stacked_bytes_grow(all, slices as int, n + 1, tensors@.len() as int);
        }
        let slice: u64 = slice_bytes(t);
        let size: u64 = slice;
        if slices == 0 {
            stacks.push(Stack { bytes: 0, dims: read_dims(t, slices) });
            assert(slices * slice_size(all[n as int]) == 0) by (nonlinear_arith)
                requires
                    slices == 0,
            ;
        } else {
            proof {
                let s = slice_size(all[n as int]);
                assert(s <= slices * s) by (nonlinear_arith)
                    requires
                        slices >= 1,
                        s >= 0,
                ;
            }
            let bytes: usize = slices * size as usize;
            stacks.push(Stack { bytes, dims: read_dims(t, slices) });
            total = total + bytes as u64;
        }
        n = n + 1;
    }
    (stacks, total)
}

fn wide_product(a: u64, b: u64) -> (product: u128)
    ensures
        product == a * b,
{
    assert(a as u128 * b as u128 <= 0xFFFF_FFFF_FFFF_FFFFu128 * 0xFFFF_FFFF_FFFF_FFFFu128)
        by (nonlinear_arith)
        requires
            a <= 0xFFFF_FFFF_FFFF_FFFFu128,
            b <= 0xFFFF_FFFF_FFFF_FFFFu128,
    ;
    a as u128 * b as u128
}

fn ascends_from_zero(unique: &Vec<i32>) -> (yes: bool)
    ensures
        yes == (increasing(unique@) && forall|p: int|
            0 <= p < unique@.len() ==> 0 <= #[trigger] unique@[p]),
{
    let mut i: usize = 0;
    while i < unique.len()
        invariant
            i <= unique@.len(),
            forall|p: int| 0 <= p < i ==> 0 <= #[trigger] unique@[p],
            forall|p: int, q: int|
                0 <= p < q < i ==> #[trigger] unique@[p] < #[trigger] unique@[q],
        decreases unique@.len() - i,
    {
        if unique[i] < 0 {
            assert(!(0 <= unique@[i as int]));
            return false;
        }
        if i > 0 && unique[i - 1] >= unique[i] {
            assert(!(unique@[i - 1] < unique@[i as int]));
            return false;
        }
        i = i + 1;
    }
    true
}

fn offsets_fit(unique: &Vec<i32>, slice: u64) -> (yes: bool)
    requires
        forall|p: int| 0 <= p < unique@.len() ==> 0 <= #[trigger] unique@[p],
    ensures
        yes == forall|p: int| 0 <= p < unique@.len() ==> #[trigger] unique@[p] * slice <= u64::MAX,
{
    let mut p: usize = 0;
    while p < unique.len()
        invariant
            p <= unique@.len(),
            forall|q: int| 0 <= q < unique@.len() ==> 0 <= #[trigger] unique@[q],
            forall|q: int| 0 <= q < p ==> #[trigger] unique@[q] * slice <= u64::MAX,
        decreases unique@.len() - p,
    {
        assert(0 <= unique@[p as int]);
        if wide_product(unique[p] as u64, slice) > u64::MAX as u128 {
            return false;
        }
        p = p + 1;
    }
    true
}

fn slices_fit(tensors: &Vec<&TensorInfo>, unique: &Vec<i32>) -> (yes: bool)
    requires
        forall|p: int| 0 <= p < unique@.len() ==> 0 <= #[trigger] unique@[p],
    ensures
        yes == sizes_fit(infos(tensors@), unique@),
{
    let ghost all = infos(tensors@);
    let ghost u = unique@.len() as int;
    let mut total: u64 = 0;
    let mut n: usize = 0;
    while n < tensors.len()
        invariant
            n <= tensors@.len(),
            all == infos(tensors@),
            u == unique@.len(),
            forall|p: int| 0 <= p < unique@.len() ==> 0 <= #[trigger] unique@[p],
            forall|i: int| 0 <= i < n ==> is_stacked(#[trigger] all[i]),
            forall|i: int, p: int|
                0 <= i < n && 0 <= p < u ==> #[trigger] unique@[p] * slice_size(
                    #[trigger] all[i],
                ) <= u64::MAX,
            forall|i: int| 0 <= i < n ==> u * slice_size(#[trigger] all[i]) <= usize::MAX,
            total == stacked_bytes(all, u, n as int),
        decreases tensors@.len() - n,
    {
        let t: &TensorInfo = tensors[n];
        assert(all[n as int] == *t);
        if t.dims.len() == 0 || t.dims[t.dims.len() - 1] == 0 {
            assert(!is_stacked(all[n as int]));
            return false;
        }
        let slice: u64 = slice_bytes(t);
        if !offsets_fit(unique, slice) {
            proof {
                let p = choose|p: int|
                    0 <= p < u && !(#[trigger] unique@[p] * slice <= u64::MAX);
                assert(!(unique@[p] * slice_size(all[n as int]) <= u64::MAX));
            }
            return false;
        }
        let bytes: u128 = wide_product(unique.len() as u64, slice);
        if bytes > usize::MAX as u128 {
            assert(!(u * slice_size(all[n as int]) <= usize::MAX));
            return false;
        }
        if bytes > (u64::MAX - total) as u128 {
            proof {
                if sizes_fit(all, unique@) {
                    stacked_bytes_grow(all, u, n + 1, all.len() as int);
                }
            }
            return false;
        }
        total = total + bytes as u64;
        n = n + 1;
    }
    true
}

fn counters_fit(
    cache: &ExpertCache,
    il: u32,
    unique: &Vec<i32>,
    weights: &Vec<u32>,
    tensors: usize,
) -> (yes: bool)
    requires
        tensors <= 256,
        weights@.len() == unique@.len(),
        tensors * unique@.len() <= usize::MAX,
        forall|p: int| 0 <= p < unique@.len() ==> 0 <= #[trigger] unique@[p],
    ensures
        yes == has_room(cache@, il, unique@, weights@, tensors as int),
{
    let n_unique: usize = unique.len();
    let n: usize = tensors * n_unique;
    let stats = cache.stats();
    if n as u64 > u64::MAX - stats.hits || n as u64 > u64::MAX - stats.misses {
        return false;
    }
    let mut room: u64 = u64::MAX - stats.bytes_saved;
    let ghost m = cache@;
    let mut k: usize = 0;
    while k < n
        invariant
            k <= n,
            n == tensors * unique@.len(),
            n_unique == unique@.len(),
            tensors <= 256,
            weights@.len() == unique@.len(),
            m == cache@,
            m.stats.hits + n <= u64::MAX,
            m.stats.misses + n <= u64::MAX,
            forall|p: int| 0 <= p < unique@.len() ==> 0 <= #[trigger] unique@[p],
            room == u64::MAX - m.stats.bytes_saved - hits_upto(m.entries, il, unique@, k as int),
            forall|j: int|
                0 <= j < k ==> m.counted(#[trigger] job_key(il, unique@, j)) + worth(
                    weights@[j % unique@.len() as int],
                ) <= u32::MAX,
        decreases n - k,
    {
        proof {
            job_in_range(tensors as int, n_unique as int, k as int);
            hits_grow(m.entries, il, unique@, k + 1, n as int);
        }
        let p: usize = k % n_unique;
        let e: i32 = unique[p];
        assert(0 <= unique@[p as int]);
        let key: u64 = slice_key(il, (k / n_unique) as u8, e as u32);
        assert(key == job_key(il, unique@, k as int));
        let weight: u32 = weights[p];
        let counts: u32 = if weight == 0 {
            1
        } else {
            weight
        };
        if counts > u32::MAX - cache.counted(key) {
            assert(m.counted(job_key(il, unique@, k as int)) + worth(
                weights@[k as int % unique@.len() as int],
            ) > u32::MAX);
            return false;
        }
        let served: u64 = cache.serves(key) as u64;
        if served > room {
            return false;
        }
        room = room - served;
        k = k + 1;
    }
    true
}

/// Whether a layer's slices can be planned: distinct experts, ascending, of stacked
/// tensors, within what the sizes and the counters hold.
pub fn can_plan_slices(
    tensors: &Vec<&TensorInfo>,
    unique: &Vec<i32>,
    weights: &Vec<u32>,
    il: u32,
    cache: &Option<ExpertCache>,
) -> (can: bool)
    ensures
        can == (can_ask(infos(tensors@), il, unique@, weights@) && (*cache matches Some(c)
            ==> has_room(c@, il, unique@, weights@, tensors@.len() as int))),
{
    if il >= KEYED_LAYERS || tensors.len() > 256 || weights.len() != unique.len() {
        return false;
    }
    if !ascends_from_zero(unique) || !slices_fit(tensors, unique) {
        return false;
    }
    if wide_product(tensors.len() as u64, unique.len() as u64) > usize::MAX as u128 {
        return false;
    }
    match cache {
        Some(c) => counters_fit(c, il, unique, weights, tensors.len()),
        None => true,
    }
}

/// Plans a layer's slices: each is copied from memory if the cache holds it and read
/// from disk if not, in equal shares to the readers, and each request counts as many
/// selections as tokens chose the expert.
pub fn plan_expert_slices(
    tensors: &Vec<&TensorInfo>,
    unique: &Vec<i32>,
    weights: &Vec<u32>,
    il: u32,
    cache: &mut Option<ExpertCache>,
) -> (plan: ReadPlan)
    requires
        can_ask(infos(tensors@), il, unique@, weights@),
        *old(cache) matches Some(c) ==> c@.wf() && has_room(
            c@,
            il,
            unique@,
            weights@,
            tensors@.len() as int,
        ),
    ensures
        ({
            let all = infos(tensors@);
            let held = held_by(*old(cache));
            let n = (tensors@.len() * unique@.len()) as int;
            &&& plan.stacks@.len() == tensors@.len()
            &&& forall|i: int|
                0 <= i < tensors@.len() ==> (#[trigger] plan.stacks@[i]).bytes == unique@.len()
                    * slice_size(all[i]) && plan.stacks@[i].dims@ == all[i].dims@.update(
                    all[i].dims@.len() - 1,
                    unique@.len() as u64,
                )
            &&& plan.jobs@.len() == n
            &&& forall|k: int|
                0 <= k < n ==> (#[trigger] plan.jobs@[k]).is_job(all, held, il, unique@, k)
            &&& plan.misses@ == missed_upto(held, il, unique@, n)
            &&& plan.total == stacked_bytes(all, unique@.len() as int, tensors@.len() as int)
            &&& plan.hit_bytes == hits_upto(held, il, unique@, n)
            &&& match (*old(cache), *final(cache)) {
                (Some(before), Some(after)) => after@.wf() && after@ == requested_upto(
                    before@,
                    il,
                    unique@,
                    weights@,
                    n,
                ),
                (None, None) => true,
                _ => false,
            }
        }),
{
    let ghost all = infos(tensors@);
    let ghost held = held_by(*cache);
    let ghost first = *cache;
    let n_unique: usize = unique.len();
    let (stacks, total) = plan_stacks(tensors, n_unique);
    let n: usize = tensors.len() * n_unique;
    let mut taken = cache.take();
    let mut jobs: Vec<ReadJob> = Vec::new();
    let mut misses: Vec<Miss> = Vec::new();
    let mut hit_bytes: u64 = 0;
    let mut k: usize = 0;
    while k < n
        invariant
            k <= n,
            n == tensors@.len() * unique@.len(),
            n_unique == unique@.len(),
            all == infos(tensors@),
            can_ask(all, il, unique@, weights@),
            held == held_by(first),
            first matches Some(c) ==> c@.wf() && has_room(
                c@,
                il,
                unique@,
                weights@,
                tensors@.len() as int,
            ),
            match (first, taken) {
                (Some(before), Some(after)) => after@.wf() && after@ == requested_upto(
                    before@,
                    il,
                    unique@,
                    weights@,
                    k as int,
                ),
                (None, None) => true,
                _ => false,
            },
            jobs@.len() == k,
            forall|j: int| 0 <= j < k ==> (#[trigger] jobs@[j]).is_job(all, held, il, unique@, j),
            misses@ == missed_upto(held, il, unique@, k as int),
            hit_bytes == hits_upto(held, il, unique@, k as int),
        decreases n - k,
    {
        proof {
            job_in_range(tensors@.len() as int, n_unique as int, k as int);
        }
        let name: usize = k / n_unique;
        let p: usize = k % n_unique;
        let t: &TensorInfo = tensors[name];
        let e: i32 = unique[p];
        assert(all[name as int] == *t);
        assert(is_stacked(all[name as int]));
        let slice: u64 = slice_bytes(t);
        let key: u64 = slice_key(il, name as u8, e as u32);
        assert(key == job_key(il, unique@, k as int));
        proof {
            let s = slice_size(all[name as int]);
            assert(n_unique * s <= usize::MAX);
            assert(p * s <= n_unique * s && s <= n_unique * s) by (nonlinear_arith)
                requires
                    0 <= p < n_unique,
                    s >= 0,
            ;
            assert(0 <= unique@[p as int]);
            assert(unique@[p as int] * slice_size(all[name as int]) <= u64::MAX);
            assert(unique@[p as int] * s >= 0) by (nonlinear_arith)
                requires
                    unique@[p as int] >= 0,
                    s >= 0,
            ;
            if let Some(before) = first {
                asking_keeps(
                    before@,
                    il,
                    unique@,
                    weights@,
                    tensors@.len() as int,
                    k as int,
                );
                asking_keeps(
                    before@,
                    il,
                    unique@,
                    weights@,
                    tensors@.len() as int,
                    k + 1,
                );
                hits_grow(held, il, unique@, k + 1, n as int);
            }
        }
        let at: usize = p * slice as usize;
        let reader: usize = k % READERS;
        let mut found: Option<Arc<[u8]>> = None;
        if let Some(mut c) = taken {
            found = c.request(key, weights[p]);
            taken = Some(c);
        }
        match found {
            Some(bytes) => {
                hit_bytes = hit_bytes + bytes.len() as u64;
                jobs.push(
                    ReadJob {
                        name,
                        at,
                        len: slice as usize,
                        reader,
                        source: Source::Memory(bytes),
                    },
                );
            },
            None => {
                misses.push(Miss { name, place: p, key });
                jobs.push(
                    ReadJob {
                        name,
                        at,
                        len: slice as usize,
                        reader,
                        source: Source::Disk { offset: e as u64 * slice },
                    },
                );
            },
        }
        k = k + 1;
    }
    *cache = taken;
    ReadPlan { stacks, jobs, misses, total, hit_bytes }
}

/// The cache after the first `k` misses were offered what was read for them.
pub open spec fn offered_upto(
    m: CacheModel,
    misses: Seq<Miss>,
    buffers: Seq<Seq<u8>>,
    slices: int,
    k: int,
) -> CacheModel
    decreases k,
{
    if k <= 0 {
        m
    } else {
        let miss = misses[k - 1];
        let slice = buffers[miss.name as int].len() as int / slices;
        offered_upto(m, misses, buffers, slices, k - 1).offered(
            miss.key,
            buffers[miss.name as int].subrange(
                miss.place * slice,
                (miss.place + 1) * slice,
            ),
        )
    }
}

/// The bytes behind several slices.
pub open spec fn views(buffers: Seq<&[u8]>) -> Seq<Seq<u8>> {
    buffers.map_values(|b: &[u8]| b@)
}

/// Offers the cache what was actually read. The slices stand in the packed buffers in
/// the order of the distinct experts, so a miss is found by its place, and the cache
/// copies only what it decides to keep.
pub fn offer_misses(
    cache: &mut ExpertCache,
    misses: &Vec<Miss>,
    buffers: &Vec<&[u8]>,
    slices: usize,
)
    requires
        old(cache)@.wf(),
        old(cache)@.stats.admissions + misses@.len() <= u64::MAX,
        slices > 0,
        forall|i: int|
            0 <= i < misses@.len() ==> (#[trigger] misses@[i]).name < buffers@.len()
                && misses@[i].place < slices,
    ensures
        final(cache)@.wf(),
        final(cache)@ == offered_upto(
            old(cache)@,
            misses@,
            views(buffers@),
            slices as int,
            misses@.len() as int,
        ),
{
    let ghost all = views(buffers@);
    let ghost before = cache@;
    let mut i: usize = 0;
    while i < misses.len()
        invariant
            i <= misses.len(),
            all == views(buffers@),
            slices > 0,
            forall|i: int|
                0 <= i < misses@.len() ==> (#[trigger] misses@[i]).name < buffers@.len()
                    && misses@[i].place < slices,
            before.stats.admissions + misses@.len() <= u64::MAX,
            cache@.wf(),
            cache@.stats.admissions <= before.stats.admissions + i,
            cache@ == offered_upto(before, misses@, all, slices as int, i as int),
        decreases misses.len() - i,
    {
        let miss = misses[i];
        assert(misses@[i as int].name < buffers@.len());
        let buffer: &[u8] = buffers[miss.name];
        assert(all[miss.name as int] == buffer@);
        let slice: usize = buffer.len() / slices;
        proof {
            let len = buffer@.len() as int;
            let p = miss.place as int;
            vstd::arithmetic::div_mod::lemma_fundamental_div_mod(len, slices as int);
            vstd::arithmetic::div_mod::lemma_mod_bound(len, slices as int);
            assert(0 <= p * slice <= (p + 1) * slice <= len) by (nonlinear_arith)
                requires
                    0 <= p < slices,
                    len == slices * slice + len % (slices as int),
                    0 <= len % (slices as int),
                    slice >= 0,
            ;
        }
        let from: usize = miss.place * slice;
        let to: usize = (miss.place + 1) * slice;
        let span: &[u8] = vstd::slice::slice_subrange(buffer, from, to);
        proof {
            crate::expert_cache::room_evicts_only_the_less_wanted(
                cache@,
                span@.len(),
                cache@.uses(miss.key),
            );
        }
        cache.offer(miss.key, span);
        i = i + 1;
    }
}

/// The job fills byte `b` of stack `n`.
pub open spec fn fills(job: ReadJob, n: int, b: int) -> bool {
    job.name == n && job.at <= b < job.at + job.len
}

/// The readers fill every byte of every stack, and no two of them the same one: the
/// slices go straight to where they stay.
pub proof fn every_byte_is_filled_once(
    jobs: Seq<ReadJob>,
    tensors: Seq<TensorInfo>,
    held: Map<u64, Seq<u8>>,
    il: u32,
    unique: Seq<i32>,
    n: int,
    b: int,
) -> (k: int)
    requires
        jobs.len() == tensors.len() * unique.len(),
        forall|k: int|
            0 <= k < jobs.len() ==> (#[trigger] jobs[k]).is_job(tensors, held, il, unique, k),
        0 <= n < tensors.len(),
        0 <= b < unique.len() * slice_size(tensors[n]),
        is_stacked(tensors[n]),
    ensures
        0 <= k < jobs.len(),
        fills(jobs[k], n, b),
        forall|j: int| 0 <= j < jobs.len() && fills(#[trigger] jobs[j], n, b) ==> j == k,
{
    let u = unique.len() as int;
    let slice = slice_size(tensors[n]);
    vstd::arithmetic::div_mod::lemma_div_pos_is_pos(
        tensors[n].size as int,
        tensors[n].dims@.last() as int,
    );
    assert(slice > 0 && u > 0) by (nonlinear_arith)
        requires
            0 <= b < u * slice,
            slice >= 0,
            u >= 0,
    ;
    let p = b / slice;
    vstd::arithmetic::div_mod::lemma_fundamental_div_mod(b, slice);
    vstd::arithmetic::div_mod::lemma_mod_bound(b, slice);
    vstd::arithmetic::div_mod::lemma_div_pos_is_pos(b, slice);
    assert(slice * p == p * slice) by (nonlinear_arith);
    assert(p < u) by (nonlinear_arith)
        requires
            b == p * slice + b % slice,
            0 <= b % slice,
            b < u * slice,
            slice > 0,
    ;
    let k = n * u + p;
    vstd::arithmetic::div_mod::lemma_fundamental_div_mod_converse(k, u, n, p);
    assert(0 <= k && k < tensors.len() * u) by (nonlinear_arith)
        requires
            0 <= n < tensors.len(),
            0 <= p < u,
            k == n * u + p,
    ;
    assert(jobs[k].is_job(tensors, held, il, unique, k));
    assert forall|j: int| 0 <= j < jobs.len() && fills(#[trigger] jobs[j], n, b) implies j == k by {
        assert(jobs[j].is_job(tensors, held, il, unique, j));
        job_in_range(tensors.len() as int, u, j);
        let q = j % u;
        assert(q == p) by (nonlinear_arith)
            requires
                q * slice <= b < q * slice + slice,
                p * slice <= b < p * slice + slice,
                slice > 0,
        ;
    }
    k
}

/// A miss that the cache kept is served from memory the next time it is asked for.
pub proof fn a_kept_miss_is_served(
    m: CacheModel,
    misses: Seq<Miss>,
    buffers: Seq<Seq<u8>>,
    slices: int,
    k: int,
    weight: u32,
)
    requires
        0 < k <= misses.len(),
        ({
            let before = offered_upto(m, misses, buffers, slices, k - 1);
            let miss = misses[k - 1];
            let slice = buffers[miss.name as int].len() as int / slices;
            let span = buffers[miss.name as int].subrange(
                miss.place * slice,
                (miss.place + 1) * slice,
            );
            &&& before.wf()
            &&& before.admits(miss.key, span)
            &&& before.stats.admissions < u64::MAX
            &&& before.stats.hits < u64::MAX
        }),
    ensures
        ({
            let miss = misses[k - 1];
            let slice = buffers[miss.name as int].len() as int / slices;
            let after = offered_upto(m, misses, buffers, slices, k);
            &&& after.entries.contains_key(miss.key)
            &&& after.entries[miss.key] == buffers[miss.name as int].subrange(
                miss.place * slice,
                (miss.place + 1) * slice,
            )
            &&& after.requested(miss.key, weight).stats.hits == after.stats.hits + 1
        }),
{
    let before = offered_upto(m, misses, buffers, slices, k - 1);
    let miss = misses[k - 1];
    let slice = buffers[miss.name as int].len() as int / slices;
    let span = buffers[miss.name as int].subrange(miss.place * slice, (miss.place + 1) * slice);
    crate::expert_cache::a_kept_offer_is_served(before, miss.key, span, weight);
    crate::expert_cache::room_evicts_only_the_less_wanted(
        before,
        span.len(),
        before.uses(miss.key),
    );
}

// ------------------------------------------------------------------ what is read

/// What the slices of a container hold, by key.
pub type SliceFile = spec_fn(u64) -> Seq<u8>;

/// Memory holds nothing but what the container does.
pub open spec fn holds_only(held: Map<u64, Seq<u8>>, file: SliceFile) -> bool {
    forall|k: u64| #[trigger] held.contains_key(k) ==> held[k] == file(k)
}

/// Slice `e` of a stacked tensor with contents `data`.
pub open spec fn slice_of(t: TensorInfo, data: Seq<u8>, e: int) -> Seq<u8> {
    data.subrange(e * slice_size(t), (e + 1) * slice_size(t))
}

/// The tensors of layer `il` have the contents `data`, `file` says so slice by slice, and
/// each of `unique` is one of their experts.
pub open spec fn is_layer(
    file: SliceFile,
    tensors: Seq<TensorInfo>,
    data: Seq<Seq<u8>>,
    il: u32,
    unique: Seq<i32>,
) -> bool {
    &&& data.len() == tensors.len()
    &&& forall|n: int|
        0 <= n < tensors.len() ==> is_stacked(#[trigger] tensors[n]) && data[n].len()
            == tensors[n].size
    &&& forall|n: int, p: int|
        #![trigger tensors[n], unique[p]]
        0 <= n < tensors.len() && 0 <= p < unique.len() ==> 0 <= unique[p]
            < tensors[n].dims@.last() && file(key_of(il, n, unique[p])) == slice_of(
            tensors[n],
            data[n],
            unique[p] as int,
        )
}

impl ReadJob {
    /// The bytes the job brings, from tensors with the contents `data`.
    pub open spec fn brings(self, data: Seq<Seq<u8>>) -> Seq<u8> {
        match self.source {
            Source::Disk { offset } => data[self.name as int].subrange(
                offset as int,
                offset + self.len,
            ),
            Source::Memory(bytes) => bytes@,
        }
    }
}

/// Every job of a plan put the bytes it brings where it says.
pub open spec fn filled_by(
    stacks: Seq<Seq<u8>>,
    jobs: Seq<ReadJob>,
    tensors: Seq<TensorInfo>,
    data: Seq<Seq<u8>>,
    slices: int,
) -> bool {
    &&& stacks.len() == tensors.len()
    &&& forall|n: int|
        0 <= n < stacks.len() ==> (#[trigger] stacks[n]).len() == slices * slice_size(tensors[n])
    &&& forall|k: int|
        0 <= k < jobs.len() ==> stacks[(#[trigger] jobs[k]).name as int].subrange(
            jobs[k].at as int,
            jobs[k].at + jobs[k].len,
        ) == jobs[k].brings(data)
}

/// The planned jobs, with memory holding `held`.
pub open spec fn is_plan(
    jobs: Seq<ReadJob>,
    tensors: Seq<TensorInfo>,
    held: Map<u64, Seq<u8>>,
    il: u32,
    unique: Seq<i32>,
) -> bool {
    &&& jobs.len() == tensors.len() * unique.len()
    &&& forall|k: int|
        0 <= k < jobs.len() ==> (#[trigger] jobs[k]).is_job(tensors, held, il, unique, k)
}

/// A slice's place lies within its tensor.
proof fn slice_in_tensor(t: TensorInfo, e: int)
    requires
        is_stacked(t),
        0 <= e < t.dims@.last(),
    ensures
        0 <= slice_size(t),
        0 <= e * slice_size(t) <= (e + 1) * slice_size(t) <= t.size,
        (e + 1) * slice_size(t) - e * slice_size(t) == slice_size(t),
{
    let n = t.dims@.last() as int;
    let s = slice_size(t);
    vstd::arithmetic::div_mod::lemma_fundamental_div_mod(t.size as int, n);
    vstd::arithmetic::div_mod::lemma_mod_bound(t.size as int, n);
    vstd::arithmetic::div_mod::lemma_div_pos_is_pos(t.size as int, n);
    assert(0 <= e * s <= (e + 1) * s <= n * s && (e + 1) * s - e * s == s) by (nonlinear_arith)
        requires
            0 <= e < n,
            s >= 0,
    ;
}

/// Whatever memory held, as long as it was the container's: place `p` of stack `n` is
/// slice `unique[p]` of tensor `n`.
pub proof fn stacks_hold_the_slices_asked_for(
    stacks: Seq<Seq<u8>>,
    jobs: Seq<ReadJob>,
    tensors: Seq<TensorInfo>,
    data: Seq<Seq<u8>>,
    held: Map<u64, Seq<u8>>,
    file: SliceFile,
    il: u32,
    unique: Seq<i32>,
    n: int,
    p: int,
)
    requires
        is_layer(file, tensors, data, il, unique),
        holds_only(held, file),
        is_plan(jobs, tensors, held, il, unique),
        filled_by(stacks, jobs, tensors, data, unique.len() as int),
        0 <= n < tensors.len(),
        0 <= p < unique.len(),
    ensures
        stacks[n].len() == unique.len() * slice_size(tensors[n]),
        stacks[n].subrange(p * slice_size(tensors[n]), (p + 1) * slice_size(tensors[n]))
            == slice_of(tensors[n], data[n], unique[p] as int),
{
    let u = unique.len() as int;
    let k = n * u + p;
    vstd::arithmetic::div_mod::lemma_fundamental_div_mod_converse(k, u, n, p);
    assert(0 <= k && k < tensors.len() * u) by (nonlinear_arith)
        requires
            0 <= n < tensors.len(),
            0 <= p < u,
            k == n * u + p,
    ;
    let job = jobs[k];
    assert(job.is_job(tensors, held, il, unique, k));
    let t = tensors[n];
    let e = unique[p] as int;
    assert(is_stacked(tensors[n]) && data[n].len() == tensors[n].size);
    assert(0 <= unique[p] < tensors[n].dims@.last());
    slice_in_tensor(t, e);
    let s = slice_size(t);
    assert((p + 1) * s == p * s + s && (e + 1) * s == e * s + s) by (nonlinear_arith);
    assert(stacks[job.name as int].subrange(job.at as int, job.at + job.len) == job.brings(data));
    match job.source {
        Source::Disk { offset } => {},
        Source::Memory(bytes) => {
            assert(held.contains_key(key_of(il, n, unique[p])));
        },
    }
}

/// A cache changes what is read and nothing that is computed: the stacks are the same
/// whether memory held nothing or anything of the container's.
pub proof fn a_cache_changes_no_stack(
    a: Seq<Seq<u8>>,
    a_jobs: Seq<ReadJob>,
    a_held: Map<u64, Seq<u8>>,
    b: Seq<Seq<u8>>,
    b_jobs: Seq<ReadJob>,
    b_held: Map<u64, Seq<u8>>,
    tensors: Seq<TensorInfo>,
    data: Seq<Seq<u8>>,
    file: SliceFile,
    il: u32,
    unique: Seq<i32>,
)
    requires
        is_layer(file, tensors, data, il, unique),
        holds_only(a_held, file),
        holds_only(b_held, file),
        is_plan(a_jobs, tensors, a_held, il, unique),
        is_plan(b_jobs, tensors, b_held, il, unique),
        filled_by(a, a_jobs, tensors, data, unique.len() as int),
        filled_by(b, b_jobs, tensors, data, unique.len() as int),
    ensures
        a == b,
{
    let u = unique.len() as int;
    assert forall|n: int| 0 <= n < tensors.len() implies a[n] == b[n] by {
        let s = slice_size(tensors[n]);
        assert(a[n].len() == u * s);
        assert(b[n].len() == u * s);
        assert(is_stacked(tensors[n]));
        vstd::arithmetic::div_mod::lemma_div_pos_is_pos(
            tensors[n].size as int,
            tensors[n].dims@.last() as int,
        );
        assert forall|i: int| 0 <= i < a[n].len() implies a[n][i] == b[n][i] by {
            assert(s > 0) by (nonlinear_arith)
                requires
                    0 <= i < u * s,
                    s >= 0,
            ;
            let p = i / s;
            vstd::arithmetic::div_mod::lemma_fundamental_div_mod(i, s);
            vstd::arithmetic::div_mod::lemma_mod_bound(i, s);
            vstd::arithmetic::div_mod::lemma_div_pos_is_pos(i, s);
            assert(s * p == p * s && (p + 1) * s == p * s + s) by (nonlinear_arith);
            assert(p < u && (p + 1) * s <= u * s) by (nonlinear_arith)
                requires
                    p * s <= i < u * s,
                    s > 0,
            ;
            stacks_hold_the_slices_asked_for(
                a,
                a_jobs,
                tensors,
                data,
                a_held,
                file,
                il,
                unique,
                n,
                p,
            );
            stacks_hold_the_slices_asked_for(
                b,
                b_jobs,
                tensors,
                data,
                b_held,
                file,
                il,
                unique,
                n,
                p,
            );
            assert(a[n].subrange(p * s, (p + 1) * s)[i - p * s] == a[n][i]);
            assert(b[n].subrange(p * s, (p + 1) * s)[i - p * s] == b[n][i]);
        }
        assert(a[n] =~= b[n]);
    }
    assert(a =~= b);
}

/// A miss names its slice.
proof fn misses_name_their_slices(
    held: Map<u64, Seq<u8>>,
    il: u32,
    unique: Seq<i32>,
    tensors: int,
    k: int,
)
    requires
        0 <= k <= tensors * unique.len(),
        0 <= tensors <= 256,
        unique.len() <= usize::MAX,
    ensures
        forall|i: int|
            0 <= i < missed_upto(held, il, unique, k).len() ==> {
                let miss = #[trigger] missed_upto(held, il, unique, k)[i];
                &&& miss.name < tensors
                &&& miss.place < unique.len()
                &&& miss.key == key_of(il, miss.name as int, unique[miss.place as int])
            },
    decreases k,
{
    if k > 0 {
        misses_name_their_slices(held, il, unique, tensors, k - 1);
        job_in_range(tensors, unique.len() as int, k - 1);
        let before = missed_upto(held, il, unique, k - 1);
        let after = missed_upto(held, il, unique, k);
        assert forall|i: int| 0 <= i < after.len() implies ({
            let miss = #[trigger] after[i];
            &&& miss.name < tensors
            &&& miss.place < unique.len()
            &&& miss.key == key_of(il, miss.name as int, unique[miss.place as int])
        }) by {
            if i < before.len() {
                assert(after[i] == before[i]);
            }
        }
    }
}

/// Offering a layer's misses what was read for them leaves a cache that holds nothing
/// but the container's slices.
pub proof fn offers_hold_only_the_container(
    m: CacheModel,
    held: Map<u64, Seq<u8>>,
    stacks: Seq<Seq<u8>>,
    tensors: Seq<TensorInfo>,
    data: Seq<Seq<u8>>,
    file: SliceFile,
    il: u32,
    unique: Seq<i32>,
    k: int,
)
    requires
        m.wf(),
        holds_only(m.entries, file),
        is_layer(file, tensors, data, il, unique),
        tensors.len() <= 256,
        0 < unique.len() <= usize::MAX,
        stacks.len() == tensors.len(),
        forall|n: int|
            0 <= n < tensors.len() ==> (#[trigger] stacks[n]).len() == unique.len() * slice_size(
                tensors[n],
            ),
        forall|n: int, p: int|
            #![trigger tensors[n], unique[p]]
            0 <= n < tensors.len() && 0 <= p < unique.len() ==> stacks[n].subrange(
                p * slice_size(tensors[n]),
                (p + 1) * slice_size(tensors[n]),
            ) == slice_of(tensors[n], data[n], unique[p] as int),
        0 <= k <= missed_upto(held, il, unique, (tensors.len() * unique.len()) as int).len(),
        m.stats.admissions + k <= u64::MAX,
    ensures
        ({
            let misses = missed_upto(held, il, unique, (tensors.len() * unique.len()) as int);
            let after = offered_upto(m, misses, stacks, unique.len() as int, k);
            &&& after.wf()
            &&& after.stats.admissions <= m.stats.admissions + k
            &&& holds_only(after.entries, file)
        }),
    decreases k,
{
    let u = unique.len() as int;
    let total = (tensors.len() * unique.len()) as int;
    let misses = missed_upto(held, il, unique, total);
    if k > 0 {
        offers_hold_only_the_container(
            m,
            held,
            stacks,
            tensors,
            data,
            file,
            il,
            unique,
            k - 1,
        );
        misses_name_their_slices(held, il, unique, tensors.len() as int, total);
        let before = offered_upto(m, misses, stacks, u, k - 1);
        let miss = misses[k - 1];
        let n = miss.name as int;
        let p = miss.place as int;
        let s = slice_size(tensors[n]);
        assert(unique[p] == unique[p] && is_stacked(tensors[n]));
        assert(stacks[n].len() == u * s);
        assert(u * s == s * u) by (nonlinear_arith);
        vstd::arithmetic::div_mod::lemma_div_by_multiple(s, u);
        let slice = stacks[n].len() as int / u;
        assert(slice == s);
        let span = stacks[n].subrange(p * slice, (p + 1) * slice);
        assert(span == file(miss.key));
        crate::expert_cache::offers_stay_within_the_budget(before, miss.key, span);
        crate::expert_cache::an_offer_accounts_for_what_went(before, miss.key, span);
        let after = before.offered(miss.key, span);
        assert forall|key: u64| #[trigger] after.entries.contains_key(key) implies after.entries[key]
            == file(key) by {
            if key != miss.key {
                assert(before.entries.contains_key(key));
            } else if before.admits(miss.key, span) {
                assert(after.entries[key] == span);
            } else {
                crate::expert_cache::room_evicts_only_the_less_wanted(
                    before,
                    span.len(),
                    before.uses(miss.key),
                );
                assert(before.entries.contains_key(key));
            }
        }
    }
}

/// Reading a layer through a cache that holds nothing but the container's slices leaves
/// one that does: asked, filled and offered the misses it had.
pub proof fn reading_keeps_the_cache_true(
    m: CacheModel,
    jobs: Seq<ReadJob>,
    stacks: Seq<Seq<u8>>,
    tensors: Seq<TensorInfo>,
    data: Seq<Seq<u8>>,
    file: SliceFile,
    il: u32,
    unique: Seq<i32>,
    weights: Seq<u32>,
)
    requires
        m.wf(),
        can_ask(tensors, il, unique, weights),
        has_room(m, il, unique, weights, tensors.len() as int),
        0 < unique.len() <= usize::MAX,
        m.stats.admissions + missed_upto(
            m.entries,
            il,
            unique,
            (tensors.len() * unique.len()) as int,
        ).len() <= u64::MAX,
        is_layer(file, tensors, data, il, unique),
        holds_only(m.entries, file),
        is_plan(jobs, tensors, m.entries, il, unique),
        filled_by(stacks, jobs, tensors, data, unique.len() as int),
    ensures
        ({
            let n = (tensors.len() * unique.len()) as int;
            let misses = missed_upto(m.entries, il, unique, n);
            let asked = requested_upto(m, il, unique, weights, n);
            let after = offered_upto(
                asked,
                misses,
                stacks,
                unique.len() as int,
                misses.len() as int,
            );
            &&& holds_only(asked.entries, file)
            &&& holds_only(after.entries, file)
        }),
{
    let n = (tensors.len() * unique.len()) as int;
    let misses = missed_upto(m.entries, il, unique, n);
    asking_keeps(m, il, unique, weights, tensors.len() as int, n);
    assert forall|t: int, p: int|
        #![trigger tensors[t], unique[p]]
        0 <= t < tensors.len() && 0 <= p < unique.len() implies stacks[t].subrange(
        p * slice_size(tensors[t]),
        (p + 1) * slice_size(tensors[t]),
    ) == slice_of(tensors[t], data[t], unique[p] as int) by {
        stacks_hold_the_slices_asked_for(
            stacks,
            jobs,
            tensors,
            data,
            m.entries,
            file,
            il,
            unique,
            t,
            p,
        );
    }
    offers_hold_only_the_container(
        requested_upto(m, il, unique, weights, n),
        m.entries,
        stacks,
        tensors,
        data,
        file,
        il,
        unique,
        misses.len() as int,
    );
}

} // verus!
