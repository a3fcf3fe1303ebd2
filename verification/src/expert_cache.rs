//! A frequency-gated cache for routed expert slices.
//!
//! Expert access is a cyclic scan: every block walks the layers in order and
//! reads most of the experts each one routes to. When that cycle is larger than
//! the cache, recency is precisely the wrong signal, so admission is by frequency
//! and nothing else: a newcomer must be wanted **strictly more often** than the
//! entry it would displace.
//!
//! The cache is warmed by what is asked of it and never pinned from a list.
use std::collections::HashMap;
use std::sync::Arc;
use vstd::prelude::*;

verus! {

broadcast use vstd::std_specs::hash::group_hash_axioms;

/// `(layer, tensor, expert)` packed into one integer.
pub type SliceKey = u64;

/// How many layers the packing tells apart: it leaves 24 bits for a layer's number.
pub const KEYED_LAYERS: u32 = 0x100_0000;

/// Pack a key. `tensor` distinguishes gate, up and down within a layer.
pub open spec fn slice_key_spec(layer: u32, tensor: u8, expert: u32) -> u64 {
    ((layer as u64) << 40) | ((tensor as u64) << 32) | (expert as u64)
}

/// Pack a key. `tensor` distinguishes gate, up and down within a layer.
pub fn slice_key(layer: u32, tensor: u8, expert: u32) -> (key: SliceKey)
    ensures
        key == slice_key_spec(layer, tensor, expert),
{
    ((layer as u64) << 40) | ((tensor as u64) << 32) | (expert as u64)
}

/// Two slices share a key only if they are the same slice, as long as the layer
/// numbers fit the 24 bits the packing leaves for them.
pub proof fn slice_keys_do_not_collide(l1: u32, t1: u8, e1: u32, l2: u32, t2: u8, e2: u32)
    requires
        l1 < KEYED_LAYERS,
        l2 < KEYED_LAYERS,
    ensures
        slice_key_spec(l1, t1, e1) == slice_key_spec(l2, t2, e2) <==> l1 == l2 && t1 == t2 && e1
            == e2,
{
    assert(((l1 as u64) << 40) | ((t1 as u64) << 32) | (e1 as u64) == ((l2 as u64) << 40) | ((
    t2 as u64) << 32) | (e2 as u64) ==> l1 == l2 && t1 == t2 && e1 == e2) by (bit_vector)
        requires
            l1 < 0x100_0000u32,
            l2 < 0x100_0000u32,
    ;
}

/// Shares a copy of `src`: `Arc::<[u8]>::from` on a byte slice, which allocates
/// once and holds the same bytes.
#[verifier::external_body]
fn shared_copy(src: &[u8]) -> (bytes: Arc<[u8]>)
    ensures
        bytes@ == src@,
{
    Arc::from(src)
}

/// Hits, misses and footprint: reported together, never one alone.
#[derive(Debug, Clone, Copy, PartialEq, Eq, Structural)]
pub struct CacheStats {
    pub hits: u64,
    pub misses: u64,
    pub evictions: u64,
    pub admissions: u64,
    /// Bytes served from memory instead of read from disk.
    pub bytes_saved: u64,
}

/// No request yet, nothing admitted.
pub open spec fn fresh_stats() -> CacheStats {
    CacheStats { hits: 0, misses: 0, evictions: 0, admissions: 0, bytes_saved: 0 }
}

impl Default for CacheStats {
    fn default() -> (stats: Self)
        ensures
            stats == fresh_stats(),
    {
        CacheStats { hits: 0, misses: 0, evictions: 0, admissions: 0, bytes_saved: 0 }
    }
}

/// The successor of `x` in the xorshift64 sequence with shifts 13, 7 and 17.
pub open spec fn xorshift64(x: u64) -> u64 {
    let a = x ^ (x << 13);
    let b = a ^ (a >> 7);
    b ^ (b << 17)
}

/// How many draws look for a victim before an offer gives up.
pub const VICTIM_SAMPLE: usize = 8;

/// Bytes held by a set of slices.
pub open spec fn footprint(entries: Map<u64, Seq<u8>>) -> nat
    decreases entries.dom().len(),
    when entries.dom().finite()
{
    if entries.dom().len() == 0 {
        0
    } else {
        let key = entries.dom().choose();
        entries[key].len() + footprint(entries.remove(key))
    }
}

/// Taking one slice out takes exactly its bytes off the footprint.
pub proof fn footprint_without(entries: Map<u64, Seq<u8>>, key: u64)
    requires
        entries.dom().finite(),
        entries.contains_key(key),
    ensures
        footprint(entries) == entries[key].len() + footprint(entries.remove(key)),
    decreases entries.dom().len(),
{
    let first = entries.dom().choose();
    if first != key {
        let fewer = entries.remove(first);
        footprint_without(fewer, key);
        footprint_without(entries.remove(key), first);
        assert(fewer.remove(key) =~= entries.remove(key).remove(first));
    }
}

/// What an [`ExpertCache`] holds and has counted.
#[verifier::ext_equal]
pub struct CacheModel {
    /// The slices in memory.
    pub entries: Map<u64, Seq<u8>>,
    /// Selections each slice has served, in memory or not.
    pub freq: Map<u64, u32>,
    /// Keys a victim is drawn from; may hold keys already evicted.
    pub keys: Seq<u64>,
    /// Bytes charged against the budget.
    pub bytes: int,
    pub budget: int,
    pub rng: u64,
    pub stats: CacheStats,
}

impl CacheModel {
    /// An empty cache that may hold `budget` bytes and draws victims from `seed`.
    pub open spec fn empty(budget: int, seed: u64) -> CacheModel {
        CacheModel {
            entries: Map::empty(),
            freq: Map::empty(),
            keys: Seq::empty(),
            bytes: 0,
            budget,
            rng: seed,
            stats: fresh_stats(),
        }
    }

    /// How often `key` has been wanted; a slice nobody asked for counts as once.
    pub open spec fn uses(self, key: u64) -> u32 {
        if self.freq.contains_key(key) {
            self.freq[key]
        } else {
            1
        }
    }

    /// Selections counted for `key` so far, zero if it was never asked for.
    pub open spec fn counted(self, key: u64) -> int {
        if self.freq.contains_key(key) {
            self.freq[key] as int
        } else {
            0
        }
    }

    /// What holds of every cache: the bytes charged cover the slices held and stay
    /// within the budget, every slice can be drawn as a victim, and no more slices
    /// were evicted than admitted.
    pub open spec fn wf(self) -> bool {
        &&& self.entries.dom().finite()
        &&& footprint(self.entries) <= self.bytes <= self.budget
        &&& forall|k: u64| #[trigger]
            self.entries.contains_key(k) ==> self.keys.contains(k)
        &&& self.entries.dom().len() + self.stats.evictions <= self.stats.admissions
    }

    /// The counts are the whole account: every slice admitted is held or was evicted, and
    /// the bytes charged are those held. Offering a slice that is already held ends this,
    /// as it is charged and counted again.
    pub open spec fn exact(self) -> bool {
        &&& footprint(self.entries) == self.bytes
        &&& self.entries.dom().len() + self.stats.evictions == self.stats.admissions
    }

    /// Bytes that a request for `key` is served from memory.
    pub open spec fn serves(self, key: u64) -> nat {
        if self.entries.contains_key(key) {
            self.entries[key].len()
        } else {
            0
        }
    }

    /// The counters can take one more request for `key`, worth `weight`.
    pub open spec fn can_request(self, key: u64, weight: u32) -> bool {
        &&& self.counted(key) + (if weight == 0 {
            1
        } else {
            weight as int
        }) <= u32::MAX
        &&& self.entries.contains_key(key) ==> self.stats.hits < u64::MAX
        &&& !self.entries.contains_key(key) ==> self.stats.misses < u64::MAX
        &&& self.stats.bytes_saved + self.serves(key) <= u64::MAX
    }

    /// The cache after `key` was asked for, worth `weight` selections and never
    /// fewer than one.
    pub open spec fn requested(self, key: u64, weight: u32) -> CacheModel {
        let worth = if weight == 0 {
            1
        } else {
            weight as int
        };
        CacheModel {
            freq: self.freq.insert(key, (self.counted(key) + worth) as u32),
            stats: if self.entries.contains_key(key) {
                CacheStats {
                    hits: (self.stats.hits + 1) as u64,
                    bytes_saved: (self.stats.bytes_saved + self.entries[key].len()) as u64,
                    ..self.stats
                }
            } else {
                CacheStats { misses: (self.stats.misses + 1) as u64, ..self.stats }
            },
            ..self
        }
    }

    /// `tries` draws of an eviction candidate: the cache afterwards, with stale keys
    /// that were drawn dropped, and the least wanted live slice seen, `best` standing
    /// for the draws already made. The first of equally wanted slices stays.
    pub open spec fn sampled(self, tries: nat, best: Option<(u64, u32)>) -> (
        CacheModel,
        Option<(u64, u32)>,
    )
        decreases tries,
    {
        if tries == 0 || self.keys.len() == 0 {
            (self, best)
        } else {
            let drawn = xorshift64(self.rng);
            let i = (drawn as usize) as int % self.keys.len() as int;
            let key = self.keys[i];
            if !self.entries.contains_key(key) {
                CacheModel {
                    rng: drawn,
                    keys: self.keys.update(i, self.keys.last()).drop_last(),
                    ..self
                }.sampled((tries - 1) as nat, best)
            } else {
                let better = best is None || self.uses(key) < (best->0).1;
                CacheModel { rng: drawn, ..self }.sampled(
                    (tries - 1) as nat,
                    if better {
                        Some((key, self.uses(key)))
                    } else {
                        best
                    },
                )
            }
        }
    }

    /// The cache without `victim`.
    pub open spec fn evicted(self, victim: u64) -> CacheModel {
        CacheModel {
            entries: self.entries.remove(victim),
            bytes: self.bytes - self.entries[victim].len(),
            stats: CacheStats { evictions: (self.stats.evictions + 1) as u64, ..self.stats },
            ..self
        }
    }

    /// Evicting until `need` bytes fit: the cache afterwards, and whether they do.
    /// A victim goes only if it is wanted strictly less often than `mine`.
    pub open spec fn room(self, need: nat, mine: u32) -> (CacheModel, bool)
        decreases self.entries.dom().len(),
    {
        if self.bytes + need <= self.budget {
            (self, true)
        } else {
            let (drawn, best) = self.sampled((VICTIM_SAMPLE * 2) as nat, None);
            match best {
                None => (drawn, false),
                Some((victim, theirs)) => {
                    proof {
                        self.sampled_keeps((VICTIM_SAMPLE * 2) as nat, None);
                    }
                    if mine <= theirs || !self.entries.contains_key(victim)
                        || !self.entries.dom().finite() {
                        (drawn, false)
                    } else {
                        drawn.evicted(victim).room(need, mine)
                    }
                },
            }
        }
    }

    /// The cache after `src` was offered for `key`.
    pub open spec fn offered(self, key: u64, src: Seq<u8>) -> CacheModel {
        if src.len() > self.budget {
            self
        } else {
            let (roomy, fits) = self.room(src.len(), self.uses(key));
            if fits {
                CacheModel {
                    entries: roomy.entries.insert(key, src),
                    keys: roomy.keys.push(key),
                    bytes: roomy.bytes + src.len(),
                    stats: CacheStats {
                        admissions: (roomy.stats.admissions + 1) as u64,
                        ..roomy.stats
                    },
                    ..roomy
                }
            } else {
                roomy
            }
        }
    }

    /// Whether an offer of `src` for `key` is kept.
    pub open spec fn admits(self, key: u64, src: Seq<u8>) -> bool {
        src.len() <= self.budget && self.room(src.len(), self.uses(key)).1
    }

    /// Putting a slice that fits into the cache keeps it well formed.
    pub proof fn admitting_keeps_wf(self, key: u64, src: Seq<u8>)
        requires
            self.wf(),
            self.bytes + src.len() <= self.budget,
            self.stats.admissions < u64::MAX,
        ensures
            (CacheModel {
                entries: self.entries.insert(key, src),
                keys: self.keys.push(key),
                bytes: self.bytes + src.len(),
                stats: CacheStats {
                    admissions: (self.stats.admissions + 1) as u64,
                    ..self.stats
                },
                ..self
            }).wf(),
    {
        let entries = self.entries.insert(key, src);
        let keys = self.keys.push(key);
        footprint_without(entries, key);
        if self.entries.contains_key(key) {
            footprint_without(self.entries, key);
            assert(entries.remove(key) =~= self.entries.remove(key));
        } else {
            assert(entries.remove(key) =~= self.entries);
        }
        assert forall|k: u64| #[trigger] entries.contains_key(k) implies keys.contains(k) by {
            if k == key {
                assert(keys[self.keys.len() as int] == k);
            } else {
                let j = choose|j: int| 0 <= j < self.keys.len() && self.keys[j] == k;
                assert(keys[j] == k);
            }
        }
    }

    /// Drawing a victim changes neither what is held nor what was counted, and what
    /// it finds is held and as wanted as it says.
    pub proof fn sampled_keeps(self, tries: nat, best: Option<(u64, u32)>)
        requires
            best matches Some(b) ==> self.entries.contains_key(b.0) && b.1 == self.uses(b.0),
        ensures
            ({
                let (after, found) = self.sampled(tries, best);
                &&& after.entries == self.entries
                &&& after.freq == self.freq
                &&& after.bytes == self.bytes
                &&& after.budget == self.budget
                &&& after.stats == self.stats
                &&& found matches Some(b) ==> self.entries.contains_key(b.0) && b.1 == self.uses(
                    b.0,
                )
            }),
            (forall|k: u64| #[trigger]
                self.entries.contains_key(k) ==> self.keys.contains(k)) ==> (forall|k: u64|
             #[trigger]
                self.entries.contains_key(k) ==> self.sampled(tries, best).0.keys.contains(k)),
        decreases tries,
    {
        if tries != 0 && self.keys.len() != 0 {
            let drawn = xorshift64(self.rng);
            let i = (drawn as usize) as int % self.keys.len() as int;
            let key = self.keys[i];
            if !self.entries.contains_key(key) {
                let fewer = self.keys.update(i, self.keys.last()).drop_last();
                let next = CacheModel { rng: drawn, keys: fewer, ..self };
                if forall|k: u64| #[trigger]
                    self.entries.contains_key(k) ==> self.keys.contains(k) {
                    assert forall|k: u64| #[trigger]
                        next.entries.contains_key(k) implies next.keys.contains(k) by {
                        let j = choose|j: int| 0 <= j < self.keys.len() && self.keys[j] == k;
                        if j == self.keys.len() - 1 {
                            assert(next.keys[i] == k);
                        } else {
                            assert(next.keys[j] == k);
                        }
                    }
                }
                next.sampled_keeps((tries - 1) as nat, best);
            } else {
                let next = CacheModel { rng: drawn, ..self };
                let better = best is None || self.uses(key) < (best->0).1;
                next.sampled_keeps(
                    (tries - 1) as nat,
                    if better {
                        Some((key, self.uses(key)))
                    } else {
                        best
                    },
                );
            }
        }
    }
}

/// What making room does: the counts and the budget stay, every slice that went was
/// wanted strictly less often than `mine` and is counted as evicted, and every slice that
/// stayed is as it was.
pub proof fn room_evicts_only_the_less_wanted(m: CacheModel, need: nat, mine: u32)
    requires
        m.wf(),
    ensures
        ({
            let (after, fits) = m.room(need, mine);
            &&& after.wf()
            &&& after.freq == m.freq
            &&& after.budget == m.budget
            &&& after.stats == (CacheStats { evictions: after.stats.evictions, ..m.stats })
            &&& after.stats.evictions == m.stats.evictions + (m.entries.dom().len()
                - after.entries.dom().len())
            &&& m.exact() ==> after.exact()
            &&& fits <==> after.bytes + need <= after.budget
            &&& forall|k: u64| #[trigger]
                after.entries.contains_key(k) ==> m.entries.contains_key(k) && after.entries[k]
                    == m.entries[k]
            &&& forall|k: u64|
                m.entries.contains_key(k) && !#[trigger] after.entries.contains_key(k) ==> m.uses(k)
                    < mine
        }),
    decreases m.entries.dom().len(),
{
    if m.bytes + need > m.budget {
        m.sampled_keeps((VICTIM_SAMPLE * 2) as nat, None);
        let (drawn, best) = m.sampled((VICTIM_SAMPLE * 2) as nat, None);
        if let Some((victim, theirs)) = best {
            if mine > theirs {
                footprint_without(m.entries, victim);
                room_evicts_only_the_less_wanted(drawn.evicted(victim), need, mine);
            }
        }
    }
}

/// The footprint never exceeds the budget: an offer keeps the cache well formed,
/// whatever is offered.
pub proof fn offers_stay_within_the_budget(m: CacheModel, key: u64, src: Seq<u8>)
    requires
        m.wf(),
        m.stats.admissions < u64::MAX,
    ensures
        m.offered(key, src).wf(),
        footprint(m.offered(key, src).entries) <= m.offered(key, src).bytes <= m.budget,
        m.offered(key, src).budget == m.budget,
{
    if src.len() <= m.budget {
        room_evicts_only_the_less_wanted(m, src.len(), m.uses(key));
        let (roomy, fits) = m.room(src.len(), m.uses(key));
        if fits {
            roomy.admitting_keeps_wf(key, src);
        }
    }
}

/// Admission is by frequency: a slice that an offer pushed out was wanted strictly
/// less often than the slice offered, and a slice that stayed holds the same bytes.
pub proof fn offers_displace_only_the_less_wanted(
    m: CacheModel,
    key: u64,
    src: Seq<u8>,
    other: u64,
)
    requires
        m.wf(),
        m.entries.contains_key(other),
        other != key,
    ensures
        m.offered(key, src).entries.contains_key(other) ==> m.offered(key, src).entries[other]
            == m.entries[other],
        !m.offered(key, src).entries.contains_key(other) ==> m.uses(other) < m.uses(key),
{
    room_evicts_only_the_less_wanted(m, src.len(), m.uses(key));
}

/// What an offer leaves: no count changed, nothing but the slice offered came in, what
/// stayed holds the same bytes, and exactly the slices that went, each wanted strictly
/// less often than the one offered, are counted as evicted.
pub proof fn an_offer_accounts_for_what_went(m: CacheModel, key: u64, src: Seq<u8>)
    requires
        m.wf(),
        m.stats.admissions < u64::MAX,
    ensures
        ({
            let after = m.offered(key, src);
            let gone = m.entries.dom().difference(after.entries.dom());
            &&& after.freq == m.freq
            &&& forall|k: u64| #[trigger]
                after.entries.contains_key(k) && k != key ==> m.entries.contains_key(k)
                    && after.entries[k] == m.entries[k]
            &&& forall|k: u64| #[trigger] gone.contains(k) ==> m.uses(k) < m.uses(key)
            &&& after.stats.evictions == m.stats.evictions + gone.len()
            &&& after.stats.admissions == m.stats.admissions + (if m.admits(key, src) {
                1int
            } else {
                0int
            })
            &&& after.stats.hits == m.stats.hits
            &&& after.stats.misses == m.stats.misses
            &&& after.stats.bytes_saved == m.stats.bytes_saved
        }),
{
    let after = m.offered(key, src);
    let gone = m.entries.dom().difference(after.entries.dom());
    if src.len() > m.budget {
        assert(gone =~= Set::<u64>::empty());
    } else {
        room_evicts_only_the_less_wanted(m, src.len(), m.uses(key));
        let (roomy, fits) = m.room(src.len(), m.uses(key));
        assert(roomy.entries.dom().subset_of(m.entries.dom()));
        if m.entries.contains_key(key) {
            assert(roomy.entries.contains_key(key));
        }
        assert(gone =~= m.entries.dom().difference(roomy.entries.dom()));
        assert(m.entries.dom().intersect(roomy.entries.dom()) =~= roomy.entries.dom());
        vstd::set_lib::lemma_set_difference_len(m.entries.dom(), roomy.entries.dom());
        assert forall|k: u64| #[trigger] gone.contains(k) implies m.uses(k) < m.uses(key) by {
            assert(m.entries.contains_key(k) && !roomy.entries.contains_key(k));
        }
    }
}

/// While no slice is offered that is held, the counts stay the whole account.
pub proof fn offers_keep_the_account(m: CacheModel, key: u64, src: Seq<u8>)
    requires
        m.wf(),
        m.exact(),
        m.stats.admissions < u64::MAX,
        !m.entries.contains_key(key),
    ensures
        m.offered(key, src).exact(),
{
    if src.len() <= m.budget {
        room_evicts_only_the_less_wanted(m, src.len(), m.uses(key));
        let (roomy, fits) = m.room(src.len(), m.uses(key));
        if fits {
            assert(!roomy.entries.contains_key(key));
            let entries = roomy.entries.insert(key, src);
            footprint_without(entries, key);
            assert(entries.remove(key) =~= roomy.entries);
        }
    }
}

/// A weight of zero counts as exactly one selection.
pub proof fn a_zero_weight_counts_once(m: CacheModel, key: u64)
    ensures
        m.requested(key, 0) == m.requested(key, 1),
        m.can_request(key, 0) == m.can_request(key, 1),
{
}

/// One use of a cache.
pub enum CacheCall {
    Request { key: u64, weight: u32 },
    Offer { key: u64, src: Seq<u8> },
}

impl CacheModel {
    /// The cache after one use.
    pub open spec fn used(self, call: CacheCall) -> CacheModel {
        match call {
            CacheCall::Request { key, weight } => self.requested(key, weight),
            CacheCall::Offer { key, src } => self.offered(key, src),
        }
    }

    /// The counters have room for one use.
    pub open spec fn can_use(self, call: CacheCall) -> bool {
        match call {
            CacheCall::Request { key, weight } => self.can_request(key, weight),
            CacheCall::Offer { key, src } => self.stats.admissions < u64::MAX,
        }
    }

    /// The cache after the first `n` of `calls`.
    pub open spec fn used_by(self, calls: Seq<CacheCall>, n: int) -> CacheModel
        decreases n,
    {
        if n <= 0 {
            self
        } else {
            self.used_by(calls, n - 1).used(calls[n - 1])
        }
    }

    /// How many of the first `n` calls are requests.
    pub open spec fn requests_in(calls: Seq<CacheCall>, n: int) -> nat
        decreases n,
    {
        if n <= 0 {
            0
        } else {
            Self::requests_in(calls, n - 1) + (if calls[n - 1] is Request {
                1nat
            } else {
                0nat
            })
        }
    }

    /// Bytes that the requests among the first `n` calls were served.
    pub open spec fn served_by(self, calls: Seq<CacheCall>, n: int) -> nat
        decreases n,
    {
        if n <= 0 {
            0
        } else {
            let before = self.used_by(calls, n - 1);
            self.served_by(calls, n - 1) + (match calls[n - 1] {
                CacheCall::Request { key, weight } => if before.entries.contains_key(key) {
                    before.entries[key].len()
                } else {
                    0
                },
                CacheCall::Offer { key, src } => 0,
            })
        }
    }
}

/// Whatever a cache is asked and offered, it keeps its budget and stays within it, and
/// its hits and misses count the requests, its bytes saved what they were served.
pub proof fn every_use_stays_within_the_budget(
    budget: int,
    seed: u64,
    calls: Seq<CacheCall>,
    n: int,
)
    requires
        0 <= budget,
        0 <= n <= calls.len(),
        forall|i: int|
            0 <= i < n ==> CacheModel::empty(budget, seed).used_by(calls, i).can_use(
                #[trigger] calls[i],
            ),
    ensures
        ({
            let start = CacheModel::empty(budget, seed);
            let m = start.used_by(calls, n);
            &&& m.wf()
            &&& m.budget == budget
            &&& footprint(m.entries) <= m.bytes <= budget
            &&& m.stats.hits + m.stats.misses == CacheModel::requests_in(calls, n)
            &&& m.stats.bytes_saved == start.served_by(calls, n)
        }),
    decreases n,
{
    let start = CacheModel::empty(budget, seed);
    if n > 0 {
        every_use_stays_within_the_budget(budget, seed, calls, n - 1);
        let before = start.used_by(calls, n - 1);
        assert(before.can_use(calls[n - 1]));
        match calls[n - 1] {
            CacheCall::Request { key, weight } => {
                if before.entries.contains_key(key) {
                    footprint_without(before.entries, key);
                }
            },
            CacheCall::Offer { key, src } => {
                offers_stay_within_the_budget(before, key, src);
                an_offer_accounts_for_what_went(before, key, src);
            },
        }
    }
}

/// As long as no slice is offered while it is held, what was admitted and not evicted is
/// held, and the bytes charged are exactly those of the slices held.
pub proof fn the_counts_are_the_whole_account(
    budget: int,
    seed: u64,
    calls: Seq<CacheCall>,
    n: int,
)
    requires
        0 <= budget,
        0 <= n <= calls.len(),
        forall|i: int|
            0 <= i < n ==> CacheModel::empty(budget, seed).used_by(calls, i).can_use(
                #[trigger] calls[i],
            ),
        forall|i: int|
            0 <= i < n ==> (#[trigger] calls[i] matches CacheCall::Offer { key, src }
                ==> !CacheModel::empty(budget, seed).used_by(calls, i).entries.contains_key(key)),
    ensures
        ({
            let m = CacheModel::empty(budget, seed).used_by(calls, n);
            &&& m.stats.admissions - m.stats.evictions == m.entries.dom().len()
            &&& m.bytes == footprint(m.entries)
        }),
    decreases n,
{
    let start = CacheModel::empty(budget, seed);
    if n > 0 {
        the_counts_are_the_whole_account(budget, seed, calls, n - 1);
        every_use_stays_within_the_budget(budget, seed, calls, n - 1);
        let before = start.used_by(calls, n - 1);
        assert(before.can_use(calls[n - 1]));
        if let CacheCall::Offer { key, src } = calls[n - 1] {
            offers_keep_the_account(before, key, src);
        }
    }
}

/// A rare newcomer cannot displace frequent incumbents: offered to a cache without
/// room for it, all of whose slices are wanted at least as often, it is refused and
/// everything stays.
pub proof fn a_rare_newcomer_is_refused(m: CacheModel, key: u64, src: Seq<u8>)
    requires
        m.wf(),
        m.bytes + src.len() > m.budget,
        forall|k: u64| #[trigger] m.entries.contains_key(k) ==> m.uses(key) <= m.uses(k),
    ensures
        !m.admits(key, src),
        m.offered(key, src).entries == m.entries,
        m.offered(key, src).bytes == m.bytes,
        m.offered(key, src).stats == m.stats,
{
    m.sampled_keeps((VICTIM_SAMPLE * 2) as nat, None);
}

/// A slice that fits beside what is held is kept, and nothing is evicted for it.
pub proof fn an_offer_that_fits_is_kept(m: CacheModel, key: u64, src: Seq<u8>)
    requires
        m.bytes + src.len() <= m.budget,
        m.bytes >= 0,
    ensures
        m.admits(key, src),
        m.offered(key, src).entries == m.entries.insert(key, src),
        m.offered(key, src).bytes == m.bytes + src.len(),
        m.offered(key, src).stats.evictions == m.stats.evictions,
{
}

/// A slice larger than the whole budget is refused and the cache is left alone.
pub proof fn an_oversized_offer_changes_nothing(m: CacheModel, key: u64, src: Seq<u8>)
    requires
        src.len() > m.budget,
    ensures
        !m.admits(key, src),
        m.offered(key, src) == m,
{
}

/// A kept offer is what the next request for its key is served, and a hit.
pub proof fn a_kept_offer_is_served(m: CacheModel, key: u64, src: Seq<u8>, weight: u32)
    requires
        m.wf(),
        m.admits(key, src),
        m.stats.admissions < u64::MAX,
        m.stats.hits < u64::MAX,
    ensures
        m.offered(key, src).entries.contains_key(key),
        m.offered(key, src).entries[key] == src,
        m.offered(key, src).stats.admissions == m.stats.admissions + 1,
        m.offered(key, src).requested(key, weight).stats.hits == m.stats.hits + 1,
        m.offered(key, src).requested(key, weight).stats.misses == m.stats.misses,
{
    room_evicts_only_the_less_wanted(m, src.len(), m.uses(key));
}

/// Draws that start from live keys only find one.
proof fn live_keys_yield_a_victim(m: CacheModel, tries: nat, best: Option<(u64, u32)>)
    requires
        m.keys.len() > 0,
        forall|i: int| 0 <= i < m.keys.len() ==> m.entries.contains_key(#[trigger] m.keys[i]),
        best matches Some(b) ==> m.entries.contains_key(b.0) && b.1 == m.uses(b.0),
        tries > 0 || best is Some,
    ensures
        m.sampled(tries, best).1 is Some,
    decreases tries,
{
    if tries > 0 {
        let drawn = xorshift64(m.rng);
        let i = (drawn as usize) as int % m.keys.len() as int;
        let key = m.keys[i];
        let better = best is None || m.uses(key) < (best->0).1;
        live_keys_yield_a_victim(
            CacheModel { rng: drawn, ..m },
            (tries - 1) as nat,
            if better {
                Some((key, m.uses(key)))
            } else {
                best
            },
        );
    }
}

/// A frequent newcomer does displace a rare incumbent: in a full cache without stale
/// keys, where each slice is wanted less often than the newcomer and is no smaller,
/// the newcomer is kept and exactly one slice goes.
pub proof fn a_frequent_newcomer_is_kept(m: CacheModel, key: u64, src: Seq<u8>)
    requires
        m.wf(),
        src.len() <= m.budget < m.bytes + src.len(),
        m.keys.len() > 0,
        forall|i: int| 0 <= i < m.keys.len() ==> m.entries.contains_key(#[trigger] m.keys[i]),
        forall|k: u64| #[trigger]
            m.entries.contains_key(k) ==> m.uses(k) < m.uses(key) && m.entries[k].len()
                >= src.len(),
    ensures
        m.admits(key, src),
        m.offered(key, src).entries.contains_key(key),
        m.offered(key, src).stats.evictions == m.stats.evictions + 1,
{
    m.sampled_keeps((VICTIM_SAMPLE * 2) as nat, None);
    live_keys_yield_a_victim(m, (VICTIM_SAMPLE * 2) as nat, None);
    let (drawn, best) = m.sampled((VICTIM_SAMPLE * 2) as nat, None);
    let victim = (best->0).0;
    assert(m.entries.contains_key(victim));
    let after = drawn.evicted(victim);
    assert(after.bytes + src.len() <= after.budget);
    assert(after.room(src.len(), m.uses(key)) == (after, true));
    assert(m.room(src.len(), m.uses(key)) == (after, true));
}

/// Selections decide who stays: a request counts its weight, and at least once.
pub proof fn a_request_counts_its_selections(m: CacheModel, key: u64, weight: u32)
    requires
        m.can_request(key, weight),
    ensures
        m.requested(key, weight).counted(key) == m.counted(key) + (if weight == 0 {
            1
        } else {
            weight as int
        }),
        m.requested(key, weight).counted(key) > m.counted(key),
        forall|other: u64|
            other != key ==> #[trigger] m.requested(key, weight).counted(other) == m.counted(
                other,
            ),
        m.requested(key, weight).entries == m.entries,
{
}

/// Bounded memory for expert slices, admitted by frequency.
pub struct ExpertCache {
    entries: HashMap<SliceKey, Arc<[u8]>>,
    freq: HashMap<SliceKey, u32>,
    keys: Vec<SliceKey>,
    bytes: usize,
    budget: usize,
    rng: u64,
    stats: CacheStats,
}

impl View for ExpertCache {
    type V = CacheModel;

    closed spec fn view(&self) -> CacheModel {
        CacheModel {
            entries: self.entries@.map_values(|b: Arc<[u8]>| b@),
            freq: self.freq@,
            keys: self.keys@,
            bytes: self.bytes as int,
            budget: self.budget as int,
            rng: self.rng,
            stats: self.stats,
        }
    }
}

impl ExpertCache {
    /// An empty cache of at most `budget` bytes.
    pub fn new(budget: usize) -> (cache: Self)
        ensures
            cache@.wf(),
            cache@ == CacheModel::empty(budget as int, 0x2545_F491_4F6C_DD1D),
    {
        ExpertCache::with_seed(budget, 0x2545_F491_4F6C_DD1D)
    }

    /// An empty cache of at most `budget` bytes whose victims are drawn from `seed`.
    pub fn with_seed(budget: usize, seed: u64) -> (cache: Self)
        ensures
            cache@.wf(),
            cache@ == CacheModel::empty(budget as int, seed),
    {
        let cache = ExpertCache {
            entries: HashMap::new(),
            freq: HashMap::new(),
            keys: Vec::new(),
            bytes: 0,
            budget,
            rng: seed,
            stats: CacheStats::default(),
        };
        assert(cache@.entries =~= Map::empty());
        cache
    }

    pub fn budget(&self) -> (budget: usize)
        ensures
            budget == self@.budget,
    {
        self.budget
    }

    pub fn bytes(&self) -> (bytes: usize)
        ensures
            bytes == self@.bytes,
    {
        self.bytes
    }

    pub fn stats(&self) -> (stats: CacheStats)
        ensures
            stats == self@.stats,
    {
        self.stats
    }

    /// How often `key` has been wanted; a slice nobody asked for counts as once.
    pub fn uses(&self, key: SliceKey) -> (uses: u32)
        ensures
            uses == self@.uses(key),
    {
        match self.freq.get(&key) {
            Some(n) => *n,
            None => 1,
        }
    }

    /// Whether the counters can take one more request for `key`, worth `weight`.
    pub fn can_request(&self, key: SliceKey, weight: u32) -> (can: bool)
        ensures
            can == self@.can_request(key, weight),
    {
        let counted: u32 = self.counted(key);
        let worth: u32 = if weight == 0 {
            1
        } else {
            weight
        };
        let room = match self.entries.get(&key) {
            Some(bytes) => self.stats.hits < u64::MAX && self.stats.bytes_saved <= u64::MAX
                - bytes.len() as u64,
            None => self.stats.misses < u64::MAX,
        };
        worth <= u32::MAX - counted && room
    }

    pub(crate) fn counted(&self, key: SliceKey) -> (n: u32)
        ensures
            n == self@.counted(key),
    {
        match self.freq.get(&key) {
            Some(n) => *n,
            None => 0,
        }
    }

    pub(crate) fn serves(&self, key: SliceKey) -> (len: usize)
        ensures
            len == self@.serves(key),
    {
        match self.entries.get(&key) {
            Some(bytes) => bytes.len(),
            None => 0,
        }
    }

    /// Ask for a slice, worth `weight` selections. Counted whether or not present.
    ///
    /// Reads are deduplicated over a batch, so a slice chosen by ninety tokens and one
    /// chosen by a single token are both read once; the weight is what tells them
    /// apart.
    pub fn request(&mut self, key: SliceKey, weight: u32) -> (found: Option<Arc<[u8]>>)
        requires
            old(self)@.wf(),
            old(self)@.can_request(key, weight),
        ensures
            final(self)@.wf(),
            final(self)@ == old(self)@.requested(key, weight),
            found is Some <==> old(self)@.entries.contains_key(key),
            found matches Some(bytes) ==> bytes@ == old(self)@.entries[key],
    {
        let counted: u32 = self.counted(key);
        let worth: u32 = if weight == 0 {
            1
        } else {
            weight
        };
        let ghost before = self@;
        match self.entries.get(&key) {
            Some(bytes) => {
                proof {
                    footprint_without(self@.entries, key);
                }
                let found = Arc::clone(bytes);
                self.stats.hits = self.stats.hits + 1;
                self.stats.bytes_saved = self.stats.bytes_saved + found.len() as u64;
                self.freq.insert(key, counted + worth);
                assert(self@ =~= before.requested(key, weight));
                Some(found)
            },
            None => {
                self.stats.misses = self.stats.misses + 1;
                self.freq.insert(key, counted + worth);
                assert(self@ =~= before.requested(key, weight));
                None
            },
        }
    }

    /// Offer a freshly read slice, copying it **only if it is kept**.
    ///
    /// The caller reads straight into its own buffer and most offers are refused once
    /// the cache is warm, so nothing is allocated before the decision.
    pub fn offer(&mut self, key: SliceKey, src: &[u8])
        requires
            old(self)@.wf(),
            old(self)@.stats.admissions < u64::MAX,
        ensures
            final(self)@.wf(),
            final(self)@ == old(self)@.offered(key, src@),
    {
        if src.len() > self.budget {
            return ;
        }
        let mine: u32 = self.uses(key);
        let ghost before = self@;
        while src.len() > self.budget - self.bytes
            invariant
                self@.wf(),
                src.len() <= self.budget,
                mine == before.uses(key),
                src.len() <= before.budget,
                self@.room(src@.len(), mine) == before.room(src@.len(), mine),
                self@.freq == before.freq,
                self@.stats.admissions == before.stats.admissions,
                before == old(self)@,
                before.stats.admissions < u64::MAX,
            decreases self@.entries.dom().len(),
        {
            let ghost full = self@;
            proof {
                full.sampled_keeps((VICTIM_SAMPLE * 2) as nat, None);
            }
            let victim: SliceKey = match self.weakest(VICTIM_SAMPLE) {
                Some(victim) => victim,
                None => {
                    return ;
                },
            };
            let theirs: u32 = self.uses(victim);
            if mine <= theirs {
                return ;  // the incumbent is wanted at least as often; leave it
            }
            let ghost drawn = self@;
            proof {
                footprint_without(full.entries, victim);
            }
            match self.entries.remove(&victim) {
                Some(bytes) => {
                    self.bytes = self.bytes - bytes.len();
                    self.stats.evictions = self.stats.evictions + 1;
                    assert(self@ =~= drawn.evicted(victim));
                },
                None => {
                    return ;
                },
            }
        }
        let ghost roomy = self@;
        self.bytes = self.bytes + src.len();
        self.keys.push(key);
        self.entries.insert(key, shared_copy(src));
        self.stats.admissions = self.stats.admissions + 1;
        proof {
            assert(self@ =~= before.offered(key, src@));
            roomy.admitting_keeps_wf(key, src@);
        }
    }

    /// The least wanted of `2 * sample` draws.
    ///
    /// Drawing reads `keys` by index: walking the map instead would scan it once for
    /// every eviction.
    fn weakest(&mut self, sample: usize) -> (found: Option<SliceKey>)
        requires
            old(self)@.wf(),
            sample * 2 <= usize::MAX,
        ensures
            final(self)@.wf(),
            final(self)@ == old(self)@.sampled((sample * 2) as nat, None).0,
            found == (match old(self)@.sampled((sample * 2) as nat, None).1 {
                Some(b) => Some(b.0),
                None => None,
            }),
    {
        let ghost before = self@;
        let mut best: Option<(SliceKey, u32)> = None;
        let mut tries: usize = 0;
        proof {
            before.sampled_keeps((sample * 2) as nat, None);
        }
        while tries < sample * 2 && self.keys.len() > 0
            invariant
                sample * 2 <= usize::MAX,
                0 <= tries <= sample * 2,
                self@.sampled((sample * 2 - tries) as nat, best) == before.sampled(
                    (sample * 2) as nat,
                    None,
                ),
            decreases sample * 2 - tries,
        {
            let ghost held = self@;
            tries = tries + 1;
            let drawn: u64 = self.next_rand();
            let i: usize = (drawn as usize) % self.keys.len();
            let key: SliceKey = self.keys[i];
            if !self.entries.contains_key(&key) {
                self.keys.swap_remove(i);  // stale: evicted earlier
                assert(self@ =~= CacheModel {
                    rng: xorshift64(held.rng),
                    keys: held.keys.update(i as int, held.keys.last()).drop_last(),
                    ..held
                });
                continue ;
            }
            let uses: u32 = self.uses(key);
            let better: bool = match best {
                Some(b) => uses < b.1,
                None => true,
            };
            if better {
                best = Some((key, uses));
            }
        }
        match best {
            Some(b) => Some(b.0),
            None => None,
        }
    }

    /// xorshift64: enough randomness to spread the draws.
    fn next_rand(&mut self) -> (x: u64)
        ensures
            x == xorshift64(old(self)@.rng),
            final(self)@ == (CacheModel { rng: x, ..old(self)@ }),
    {
        let mut x: u64 = self.rng;
        x = x ^ (x << 13);
        x = x ^ (x >> 7);
        x = x ^ (x << 17);
        self.rng = x;
        x
    }
}

} // verus!
