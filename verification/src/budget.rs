//! Memory: what a pass needs, what may be spent on experts, and what a shortfall means.
use crate::qwen3::Qwen3Config;
use crate::chat::copied;
use vstd::prelude::*;

verus! {

pub const GIB: u64 = 0x4000_0000;

pub const MIB: u64 = 0x10_0000;

// --------------------------------------------------------------- dense arena

/// A count of at least one.
pub open spec fn at_least_one(n: int) -> int {
    if n < 1 {
        1
    } else {
        n
    }
}

/// Bytes of one layer's counted tensors over `n` tokens: the scores and their softmax,
/// and the activations, which are linear in `n`.
pub open spec fn layer_tensors(c: Qwen3Config, n: int) -> int {
    n * n * c.n_head * 8 + (n * c.n_embd * 48 + n * c.n_ff * 12)
}

/// Bytes of a dense pass over `n` tokens.
///
/// Per layer, because one graph spans every block and nothing inside a context is freed,
/// with a quarter over the counted tensors; then the head, an eighth for the graph and
/// its work buffers, and a fixed slack. Falling short is an abort, not an error.
pub open spec fn arena_bytes(c: Qwen3Config, n: int) -> int {
    let data = layer_tensors(c, at_least_one(n)) * 5 / 4 * at_least_one(c.n_layer as int)
        + c.vocab_size * 8;
    data + data / 8 + 512 * MIB
}

/// The sizes of a pass over `n` tokens fit machine integers.
pub open spec fn arena_fits(c: Qwen3Config, n: int) -> bool {
    &&& n <= u32::MAX
    &&& layer_tensors(c, at_least_one(n)) * 5 <= u64::MAX
    &&& arena_bytes(c, n) <= u64::MAX
    &&& arena_bytes(c, n) <= usize::MAX
}

/// A longer sequence never needs less.
pub proof fn longer_needs_no_less(c: Qwen3Config, n: int, m: int)
    requires
        n <= m,
    ensures
        0 <= layer_tensors(c, at_least_one(n)) <= layer_tensors(c, at_least_one(m)),
        0 <= arena_bytes(c, n) <= arena_bytes(c, m),
        arena_fits(c, m) ==> arena_fits(c, n),
{
    let a = at_least_one(n);
    let b = at_least_one(m);
    let heads = c.n_head as int;
    let embd = c.n_embd as int;
    let ff = c.n_ff as int;
    let layers = at_least_one(c.n_layer as int);
    assert(0 <= a * a * heads <= b * b * heads) by (nonlinear_arith)
        requires
            1 <= a <= b,
            0 <= heads,
    {
        assert(a * a <= b * b);
        assert(0 <= a * a);
        assert(a * a * heads <= b * b * heads);
    }
    assert(0 <= a * embd <= b * embd) by (nonlinear_arith)
        requires
            1 <= a <= b,
            0 <= embd,
    ;
    assert(0 <= a * ff <= b * ff) by (nonlinear_arith)
        requires
            1 <= a <= b,
            0 <= ff,
    ;
    let x = layer_tensors(c, a) * 5 / 4;
    let y = layer_tensors(c, b) * 5 / 4;
    assert(0 <= x <= y);
    assert(0 <= x * layers <= y * layers) by (nonlinear_arith)
        requires
            0 <= x <= y,
            1 <= layers,
    ;
}

/// Bytes of arena a dense pass over `n` tokens needs.
pub fn dense_arena_bytes(config: &Qwen3Config, n: i64) -> (bytes: usize)
    requires
        arena_fits(*config, n as int),
    ensures
        bytes == arena_bytes(*config, n as int),
{
    let n: u64 = if n < 1 {
        1
    } else {
        n as u64
    };
    let layers: u64 = if config.n_layer < 1 {
        1
    } else {
        config.n_layer as u64
    };
    let heads: u64 = config.n_head as u64;
    let embd: u64 = config.n_embd as u64;
    let ff: u64 = config.n_ff as u64;
    proof {
        assert(n * n <= u64::MAX) by (nonlinear_arith)
            requires
                n <= u32::MAX,
        ;
        assert(0 <= n * n * heads && 0 <= n * embd && 0 <= n * ff) by (nonlinear_arith)
            requires
                0 <= n,
                0 <= heads,
                0 <= embd,
                0 <= ff,
        ;
        let x = layer_tensors(*config, n as int) * 5 / 4;
        assert(x <= x * layers) by (nonlinear_arith)
            requires
                0 <= x,
                1 <= layers,
        ;
    }
    let scores: u64 = n * n * heads * 4 * 2;
    let activations: u64 = n * embd * 4 * 12 + n * ff * 4 * 3;
    let per_layer: u64 = (scores + activations) * 5 / 4;
    let head: u64 = config.vocab_size as u64 * 4 * 2;
    let data: u64 = per_layer * layers + head;
    (data + data / 8 + 512 * MIB) as usize
}

/// The longest sequence asked about.
pub const DENSE_LIMIT: i64 = 32_768;

/// `n` is the longest sequence up to [`DENSE_LIMIT`] that fits the budget; 1 where none
/// does.
pub open spec fn is_longest_fitting(c: Qwen3Config, budget: int, n: int) -> bool {
    &&& 1 <= n <= DENSE_LIMIT
    &&& n == 1 || arena_bytes(c, n) <= budget
    &&& forall|m: int| n < m <= DENSE_LIMIT ==> #[trigger] arena_bytes(c, m) > budget
}

/// The longest prompt this machine can prefill in one graph, for this model.
pub fn dense_max_tokens(config: &Qwen3Config, budget: u64) -> (n: i64)
    requires
        arena_fits(*config, DENSE_LIMIT as int),
    ensures
        is_longest_fitting(*config, budget as int, n as int),
{
    let mut lo: i64 = 1;
    let mut hi: i64 = DENSE_LIMIT;
    while lo < hi
        invariant
            1 <= lo <= hi <= DENSE_LIMIT,
            arena_fits(*config, DENSE_LIMIT as int),
            lo == 1 || arena_bytes(*config, lo as int) <= budget,
            forall|m: int|
                hi < m <= DENSE_LIMIT ==> #[trigger] arena_bytes(*config, m) > budget,
        decreases hi - lo,
    {
        let mid: i64 = (lo + hi + 1) / 2;
        proof {
            longer_needs_no_less(*config, mid as int, DENSE_LIMIT as int);
        }
        if dense_arena_bytes(config, mid) as u64 <= budget {
            lo = mid;
        } else {
            proof {
                assert forall|m: int| mid - 1 < m <= DENSE_LIMIT implies #[trigger] arena_bytes(
                    *config,
                    m,
                ) > budget by {
                    longer_needs_no_less(*config, mid as int, m);
                }
            }
            hi = mid - 1;
        }
    }
    lo
}

/// Why a prompt cannot be prefilled in one graph on this machine.
#[derive(Debug, Clone, Copy, PartialEq, Eq, Structural)]
pub struct DenseRefusal {
    pub need: u64,
    pub budget: u64,
    /// The longest that fits.
    pub max_tokens: i64,
}

/// What may be spent of the memory that is free: all but a GiB of it, taking it for four
/// where it is unknown.
pub open spec fn dense_budget(available: Option<u64>) -> int {
    let free = match available {
        Some(bytes) => bytes as int,
        None => 4 * GIB,
    };
    if free < GIB {
        0
    } else {
        free - GIB
    }
}

/// Refuses a sequence of `n` tokens whose arena is more than may be spent.
pub fn refuse_dense(config: &Qwen3Config, n: i64, available: Option<u64>) -> (refusal: Option<
    DenseRefusal,
>)
    requires
        arena_fits(*config, n as int),
        arena_fits(*config, DENSE_LIMIT as int),
    ensures
        match refusal {
            Some(r) => {
                &&& arena_bytes(*config, n as int) > dense_budget(available)
                &&& r.need == arena_bytes(*config, n as int)
                &&& r.budget == dense_budget(available)
                &&& is_longest_fitting(*config, dense_budget(available), r.max_tokens as int)
            },
            None => arena_bytes(*config, n as int) <= dense_budget(available),
        },
{
    let free: u64 = match available {
        Some(bytes) => bytes,
        None => 4 * GIB,
    };
    let budget: u64 = if free < GIB {
        0
    } else {
        free - GIB
    };
    let need: u64 = dense_arena_bytes(config, n) as u64;
    if need > budget {
        Some(DenseRefusal { need, budget, max_tokens: dense_max_tokens(config, budget) })
    } else {
        None
    }
}

/// A refused sequence is longer than the longest that fits, unless nothing fits at all.
pub proof fn refused_sequences_are_too_long(c: Qwen3Config, n: int, budget: int, longest: int)
    requires
        arena_bytes(c, n) > budget,
        is_longest_fitting(c, budget, longest),
        arena_bytes(c, 1) <= budget,
    ensures
        longest < n,
{
    if n <= longest {
        longer_needs_no_less(c, n, longest);
    }
}

// ------------------------------------------------------------- expert budget

/// Memory kept free beside the experts, for `positions` of context and a prefill block
/// of `block` tokens: the system, the key/value history and the arenas.
pub open spec fn headroom(c: Qwen3Config, positions: int, block: int) -> int {
    2 * GIB + kv_bytes(c) * positions + c.n_embd * block * 96
}

/// Bytes of history per position: two values of two bytes in every layer.
pub open spec fn kv_bytes(c: Qwen3Config) -> int {
    c.n_layer * c.n_head_kv * c.head_dim * 4
}

/// The parts of the headroom, in bytes.
#[derive(Debug, Clone, Copy, PartialEq, Eq, Structural)]
pub struct Headroom {
    pub total: u64,
    pub kv: u64,
    pub arenas: u64,
}

/// Memory kept free beside the experts.
pub fn expert_headroom(config: &Qwen3Config, positions: u64, block: u64) -> (h: Headroom)
    requires
        kv_bytes(*config) <= u64::MAX,
        headroom(*config, positions as int, block as int) <= u64::MAX,
    ensures
        h.kv == kv_bytes(*config) * positions,
        h.arenas == config.n_embd * block * 96,
        h.total == headroom(*config, positions as int, block as int),
{
    let layers: u64 = config.n_layer as u64;
    let heads: u64 = config.n_head_kv as u64;
    let dim: u64 = config.head_dim as u64;
    let embd: u64 = config.n_embd as u64;
    proof {
        assert(layers * heads <= u64::MAX) by (nonlinear_arith)
            requires
                layers <= u32::MAX,
                heads <= u32::MAX,
        ;
        assert(0 <= layers * heads * dim) by (nonlinear_arith)
            requires
                0 <= layers,
                0 <= heads,
                0 <= dim,
        ;
        assert(0 <= kv_bytes(*config) * positions && 0 <= embd * block) by (nonlinear_arith)
            requires
                0 <= kv_bytes(*config),
                0 <= positions,
                0 <= embd,
                0 <= block,
        ;
    }
    let per_position: u64 = layers * heads * dim * 2 * 2;
    let kv: u64 = per_position * positions;
    let arenas: u64 = embd * block * 4 * 24;
    Headroom { total: 2 * GIB + kv + arenas, kv, arenas }
}

/// What the expert cache may hold: what was asked for, else what is free beside the
/// headroom, and a GiB at the least.
pub open spec fn cache_budget(asked: Option<u64>, available: Option<u64>, kept: int) -> int {
    match (asked, available) {
        (Some(bytes), _) => bytes as int,
        (None, Some(free)) => if free - kept < GIB {
            GIB as int
        } else {
            free - kept
        },
        (None, None) => GIB as int,
    }
}

/// What the expert cache may hold.
pub fn expert_cache_budget(asked: Option<u64>, available: Option<u64>, kept: u64) -> (bytes: u64)
    ensures
        bytes == cache_budget(asked, available, kept as int),
{
    if let Some(bytes) = asked {
        return bytes;
    }
    match available {
        Some(free) => if free < kept || free - kept < GIB {
            GIB
        } else {
            free - kept
        },
        None => GIB,
    }
}

/// Memory kept out of the resident weights: the arena, the expert slices in flight, and
/// slack for the system.
pub fn weight_reserve(arena_mib: u64) -> (bytes: u64)
    requires
        arena_mib * MIB + 1280 * MIB <= u64::MAX,
    ensures
        bytes == arena_mib * MIB + 1280 * MIB,
{
    arena_mib * MIB + 512 * MIB + 768 * MIB
}

/// What became of a request for an expert cache.
#[derive(Debug, Clone, Copy, PartialEq, Eq, Structural)]
pub enum ExpertCacheChoice {
    /// A cache of this many bytes.
    On(u64),
    /// Asked for, and refused: always-read weights still stream, and a resident byte is
    /// read on every token.
    Refused { asked: u64, shortfall: u64 },
    /// Off, though the always-read set fits and one would be worth measuring.
    WorthMeasuring,
    /// Off.
    Off,
}

/// What becomes of a request for an expert cache beside weights of which `shortfall`
/// bytes do not fit.
pub open spec fn expert_choice(asked: Option<u64>, shortfall: u64) -> ExpertCacheChoice {
    match asked {
        Some(b) => if b == 0 {
            ExpertCacheChoice::Off
        } else if shortfall > 0 {
            ExpertCacheChoice::Refused { asked: b, shortfall }
        } else {
            ExpertCacheChoice::On(b)
        },
        None => if shortfall == 0 {
            ExpertCacheChoice::WorthMeasuring
        } else {
            ExpertCacheChoice::Off
        },
    }
}

/// Decides on a request for an expert cache.
pub fn choose_expert_cache(asked: Option<u64>, shortfall: u64) -> (choice: ExpertCacheChoice)
    ensures
        choice == expert_choice(asked, shortfall),
{
    match asked {
        Some(b) => if b == 0 {
            ExpertCacheChoice::Off
        } else if shortfall > 0 {
            ExpertCacheChoice::Refused { asked: b, shortfall }
        } else {
            ExpertCacheChoice::On(b)
        },
        None => if shortfall == 0 {
            ExpertCacheChoice::WorthMeasuring
        } else {
            ExpertCacheChoice::Off
        },
    }
}

/// No byte goes to the expert cache while always-read weights are still streaming.
pub proof fn residency_comes_first(asked: Option<u64>, shortfall: u64)
    requires
        shortfall > 0,
    ensures
        !(expert_choice(asked, shortfall) is On),
{
}

// ----------------------------------------------------------------- shortfall

/// A program that holds memory.
#[derive(Debug, Clone)]
pub struct Holder {
    pub name: String,
    pub bytes: u64,
    pub processes: usize,
}

/// Bytes the first `n` programs hold.
pub open spec fn held(holders: Seq<Holder>, n: int) -> int
    decreases n,
{
    if n <= 0 {
        0
    } else {
        held(holders, n - 1) + holders[n - 1].bytes
    }
}

/// Some of the programs never hold more than all of them.
pub proof fn held_grows(holders: Seq<Holder>, n: int, m: int)
    requires
        0 <= n <= m,
    ensures
        0 <= held(holders, n) <= held(holders, m),
    decreases m,
{
    if n < m {
        held_grows(holders, n, m - 1);
    } else if n > 0 {
        held_grows(holders, n - 1, n - 1);
    }
}

/// What is said of weights that do not fit.
#[derive(Debug, Clone, Copy, PartialEq, Eq, Structural)]
pub enum Shortfall {
    /// Nothing: all are resident, or what is missing was never downloaded.
    Silent,
    /// `missing` bytes are read on every token, and nothing large is closeable.
    NothingToClose { missing: u64 },
    /// Closing programs would free `free` bytes, which is enough where `short` is zero;
    /// the first `shown` of them are named.
    Closeable { missing: u64, free: u64, shown: usize, short: u64 },
}

/// How many programs are named.
pub const SHOWN_HOLDERS: usize = 4;

/// What is said where `missing` bytes of weights do not fit.
pub open spec fn shortfall_of(complete: bool, missing: u64, holders: Seq<Holder>) -> Shortfall {
    let free = held(holders, holders.len() as int);
    if complete || missing == 0 {
        Shortfall::Silent
    } else if holders.len() == 0 {
        Shortfall::NothingToClose { missing }
    } else {
        Shortfall::Closeable {
            missing,
            free: free as u64,
            shown: if holders.len() < SHOWN_HOLDERS {
                holders.len() as usize
            } else {
                SHOWN_HOLDERS
            },
            short: if free >= missing {
                0
            } else {
                (missing - free) as u64
            },
        }
    }
}

/// Says what a residency shortfall costs and what would end it: what does not fit is
/// read again on every token, and only the user can decide what to close.
pub fn report_residency_shortfall(complete: bool, missing: u64, holders: &Vec<Holder>) -> (said:
    Shortfall)
    requires
        held(holders@, holders@.len() as int) <= u64::MAX,
    ensures
        said == shortfall_of(complete, missing, holders@),
{
    if complete || missing == 0 {
        return Shortfall::Silent;
    }
    if holders.len() == 0 {
        return Shortfall::NothingToClose { missing };
    }
    let mut free: u64 = 0;
    let mut i: usize = 0;
    while i < holders.len()
        invariant
            i <= holders@.len(),
            free == held(holders@, i as int),
            held(holders@, holders@.len() as int) <= u64::MAX,
        decreases holders@.len() - i,
    {
        proof {
            held_grows(holders@, i + 1, holders@.len() as int);
        }
        free = free + holders[i].bytes;
        i = i + 1;
    }
    Shortfall::Closeable {
        missing,
        free,
        shown: if holders.len() < SHOWN_HOLDERS {
            holders.len()
        } else {
            SHOWN_HOLDERS
        },
        short: if free >= missing {
            0
        } else {
            missing - free
        },
    }
}

// -------------------------------------------------------------------- locking

/// How much of the resident weights was pinned.
#[derive(Debug, Clone)]
pub struct LockReport {
    pub locked_bytes: u64,
    pub failed_bytes: u64,
    /// Why the first that failed did; empty where none did.
    pub reason: String,
}

/// One tensor's attempt: its bytes, and what went wrong if something did.
#[derive(Debug, Clone)]
pub struct LockAttempt {
    pub bytes: u64,
    pub failure: Option<String>,
}

/// Bytes of the first `n` attempts that succeeded, or that failed.
pub open spec fn bytes_where(attempts: Seq<LockAttempt>, failed: bool, n: int) -> int
    decreases n,
{
    if n <= 0 {
        0
    } else {
        bytes_where(attempts, failed, n - 1) + (if attempts[n - 1].failure is Some == failed {
            attempts[n - 1].bytes as int
        } else {
            0
        })
    }
}

/// Why the first of the attempts `..n` with something to say failed.
pub open spec fn first_reason(attempts: Seq<LockAttempt>, n: int) -> Seq<char>
    decreases n,
{
    if n <= 0 {
        Seq::empty()
    } else if first_reason(attempts, n - 1).len() > 0 || attempts[n - 1].failure is None {
        first_reason(attempts, n - 1)
    } else {
        attempts[n - 1].failure->0@
    }
}

/// Every byte was either pinned or not.
pub proof fn lock_bytes_add_up(attempts: Seq<LockAttempt>, n: int, m: int)
    requires
        0 <= n <= m,
    ensures
        0 <= bytes_where(attempts, true, n) <= bytes_where(attempts, true, m),
        0 <= bytes_where(attempts, false, n) <= bytes_where(attempts, false, m),
        bytes_where(attempts, true, n) + bytes_where(attempts, false, n) == total_bytes(
            attempts,
            n,
        ),
    decreases m, n,
{
    if n < m {
        lock_bytes_add_up(attempts, n, m - 1);
    } else if n > 0 {
        lock_bytes_add_up(attempts, n - 1, n - 1);
    }
}

/// Bytes of the first `n` attempts.
pub open spec fn total_bytes(attempts: Seq<LockAttempt>, n: int) -> int
    decreases n,
{
    if n <= 0 {
        0
    } else {
        total_bytes(attempts, n - 1) + attempts[n - 1].bytes
    }
}

/// Sums up pinning the resident weights. The ceiling is raised once for the whole set;
/// where that fails nothing is pinned, and otherwise one tensor's failure is counted and
/// the rest go on.
pub fn lock_resident(refused: Option<&str>, attempts: &Vec<LockAttempt>) -> (report: LockReport)
    requires
        total_bytes(attempts@, attempts@.len() as int) <= u64::MAX,
    ensures
        match refused {
            Some(why) => {
                &&& report.locked_bytes == 0
                &&& report.failed_bytes == total_bytes(attempts@, attempts@.len() as int)
                &&& report.reason@ == why@
            },
            None => {
                &&& report.locked_bytes == bytes_where(attempts@, false, attempts@.len() as int)
                &&& report.failed_bytes == bytes_where(attempts@, true, attempts@.len() as int)
                &&& report.reason@ == first_reason(attempts@, attempts@.len() as int)
            },
        },
{
    let mut locked: u64 = 0;
    let mut failed: u64 = 0;
    let mut reason = String::new();
    let mut i: usize = 0;
    assert(reason@ =~= Seq::empty());
    while i < attempts.len()
        invariant
            i <= attempts@.len(),
            locked == bytes_where(attempts@, false, i as int),
            failed == bytes_where(attempts@, true, i as int),
            reason@ == first_reason(attempts@, i as int),
            total_bytes(attempts@, attempts@.len() as int) <= u64::MAX,
        decreases attempts@.len() - i,
    {
        proof {
            lock_bytes_add_up(attempts@, i + 1, attempts@.len() as int);
            lock_bytes_add_up(attempts@, attempts@.len() as int, attempts@.len() as int);
        }
        let bytes: u64 = attempts[i].bytes;
        match &attempts[i].failure {
            None => {
                locked = locked + bytes;
            },
            Some(why) => {
                failed = failed + bytes;
                if crate::text::chars_of(reason.as_str()).len() == 0 {
                    reason = copied(why.as_str());
                }
            },
        }
        i = i + 1;
    }
    proof {
        lock_bytes_add_up(attempts@, attempts@.len() as int, attempts@.len() as int);
    }
    match refused {
        Some(why) => LockReport {
            locked_bytes: 0,
            failed_bytes: locked + failed,
            reason: copied(why),
        },
        None => LockReport { locked_bytes: locked, failed_bytes: failed, reason },
    }
}

} // verus!
