//! Attention masks as f16 bytes: a visible key is 0, a hidden one -inf.
//!
//! A zero where -inf belongs lets a token attend to its own future, and the model
//! answers with fluent repetition rather than an error.
use vstd::prelude::*;

verus! {

/// The bytes of a mask of `queries` rows over `keys` keys.
pub open spec fn mask_bytes(queries: int, keys: int, hidden: spec_fn(int, int) -> bool) -> Seq<u8> {
    Seq::new(
        (queries * keys * 2) as nat,
        |i: int|
            if i % 2 == 1 && hidden((i / 2) / keys, (i / 2) % keys) {
                0xFCu8
            } else {
                0u8
            },
    )
}

/// Each query's row holds, for each key, `0x0000` where it is visible and `0xFC00`,
/// little-endian, where it is hidden.
pub proof fn mask_entry(
    queries: int,
    keys: int,
    hidden: spec_fn(int, int) -> bool,
    query: int,
    key: int,
)
    requires
        0 <= query < queries,
        0 <= key < keys,
    ensures
        0 <= (query * keys + key) * 2,
        (query * keys + key) * 2 + 1 < queries * keys * 2,
        mask_bytes(queries, keys, hidden)[(query * keys + key) * 2] == 0,
        mask_bytes(queries, keys, hidden)[(query * keys + key) * 2 + 1] == (if hidden(query, key) {
            0xFCu8
        } else {
            0u8
        }),
{
    let at = query * keys + key;
    assert(0 <= at && at + 1 <= queries * keys) by (nonlinear_arith)
        requires
            0 <= query < queries,
            0 <= key < keys,
            at == query * keys + key,
    ;
    assert(queries * keys * 2 == 2 * (queries * keys)) by (nonlinear_arith);
    vstd::arithmetic::div_mod::lemma_fundamental_div_mod_converse(at, keys, query, key);
}

/// What a query at absolute position `at` may not see: its future and, where there is
/// a window, what has slid out of it.
pub open spec fn out_of_sight(at: int, key: int, window: int) -> bool {
    key > at || (window > 0 && at - key >= window)
}

/// Hidden keys of an incremental pass: query `q` stands at `pos_start + q`.
pub open spec fn causal(pos_start: int, window: int) -> spec_fn(int, int) -> bool {
    |query: int, key: int| out_of_sight(pos_start + query, key, window)
}

/// The mask of `n_new` positions from `pos_start` over `n_total` keys.
///
/// The query axis is offset by the absolute position: query `q` sees keys up to
/// `pos_start + q`, not up to `q`. `window` is 0 for full attention.
pub fn causal_mask(pos_start: usize, n_new: usize, n_total: usize, window: u32) -> (bytes: Vec<u8>)
    requires
        pos_start + n_new <= usize::MAX,
        n_new * n_total * 2 <= usize::MAX,
    ensures
        bytes@ == mask_bytes(
            n_new as int,
            n_total as int,
            causal(pos_start as int, window as int),
        ),
{
    let ghost hidden = causal(pos_start as int, window as int);
    let ghost want = mask_bytes(n_new as int, n_total as int, hidden);
    let mut bytes: Vec<u8> = Vec::new();
    let mut query: usize = 0;
    while query < n_new
        invariant
            query <= n_new,
            pos_start + n_new <= usize::MAX,
            hidden == causal(pos_start as int, window as int),
            want == mask_bytes(n_new as int, n_total as int, hidden),
            bytes@.len() == query * n_total * 2,
            forall|i: int| 0 <= i < bytes@.len() ==> bytes@[i] == want[i],
        decreases n_new - query,
    {
        let at: usize = pos_start + query;
        let mut key: usize = 0;
        while key < n_total
            invariant
                query < n_new,
                key <= n_total,
                at == pos_start + query,
                hidden == causal(pos_start as int, window as int),
                want == mask_bytes(n_new as int, n_total as int, hidden),
                bytes@.len() == (query * n_total + key) * 2,
                forall|i: int| 0 <= i < bytes@.len() ==> bytes@[i] == want[i],
            decreases n_total - key,
        {
            proof {
                mask_entry(n_new as int, n_total as int, hidden, query as int, key as int);
            }
            bytes.push(0);
            if key > at || (window > 0 && at - key >= window as usize) {
                bytes.push(0xFC);
            } else {
                bytes.push(0);
            }
            key = key + 1;
        }
        proof {
            assert((query * n_total + n_total) * 2 == (query + 1) * n_total * 2)
                by (nonlinear_arith);
        }
        query = query + 1;
    }
    assert(bytes@ =~= want);
    bytes
}

/// Below a window's width, sliding attention is full attention.
pub proof fn a_short_sequence_cannot_reveal_the_window(
    pos_start: int,
    n_new: int,
    n_total: int,
    window: int,
)
    requires
        0 <= pos_start,
        0 <= n_new,
        0 <= n_total,
        pos_start + n_new <= window,
    ensures
        mask_bytes(n_new, n_total, causal(pos_start, window)) == mask_bytes(
            n_new,
            n_total,
            causal(pos_start, 0),
        ),
{
    let a = mask_bytes(n_new, n_total, causal(pos_start, window));
    let b = mask_bytes(n_new, n_total, causal(pos_start, 0));
    assert forall|i: int| 0 <= i < a.len() implies a[i] == b[i] by {
        let key = (i / 2) % n_total;
        let query = (i / 2) / n_total;
        assert(n_total > 0) by (nonlinear_arith)
            requires
                0 <= i < n_new * n_total * 2,
                0 <= n_new,
                0 <= n_total,
        ;
        let cell = i / 2;
        assert(cell < n_new * n_total) by {
            assert(n_new * n_total * 2 == 2 * (n_new * n_total)) by (nonlinear_arith);
        }
        vstd::arithmetic::div_mod::lemma_fundamental_div_mod(cell, n_total);
        vstd::arithmetic::div_mod::lemma_mod_bound(cell, n_total);
        assert(query < n_new) by (nonlinear_arith)
            requires
                cell == n_total * query + key,
                0 <= key,
                cell < n_new * n_total,
                n_total > 0,
        ;
        assert(0 <= key);
    }
    assert(a =~= b);
}

// ---------------------------------------------------------- raw and compressed

/// The padded key window each half of the compressed history occupies.
pub const WINDOW_KEYS: i64 = 256;

/// Keys a query may not see: in the raw half its future and what slid out of the
/// window, in the compressed half the blocks not yet complete behind it.
pub open spec fn two_halves(pos0: int, window: int, ratio: int) -> spec_fn(int, int) -> bool {
    |query: int, key: int|
        if key < WINDOW_KEYS {
            out_of_sight(pos0 + query, key, window)
        } else {
            key - WINDOW_KEYS >= (pos0 + query + 1) / ratio
        }
}

/// Keys attended over: the raw half, and the compressed half once there is one.
pub open spec fn key_count(has_comp: bool) -> int {
    if has_comp {
        512
    } else {
        256
    }
}

/// The mask of `nt` positions from `pos0`.
pub fn window_mask(pos0: i64, nt: i64, window: u32, ratio: i64, has_comp: bool) -> (bytes: Vec<u8>)
    requires
        0 <= pos0 <= i32::MAX,
        0 <= nt <= i32::MAX,
        ratio > 0,
        nt * 1024 <= usize::MAX,
    ensures
        bytes@ == mask_bytes(
            nt as int,
            key_count(has_comp),
            two_halves(pos0 as int, window as int, ratio as int),
        ),
{
    let ghost hidden = two_halves(pos0 as int, window as int, ratio as int);
    let ghost want = mask_bytes(nt as int, key_count(has_comp), hidden);
    let n_kv: i64 = if has_comp {
        512
    } else {
        256
    };
    let mut bytes: Vec<u8> = Vec::new();
    let mut query: i64 = 0;
    while query < nt
        invariant
            0 <= query <= nt,
            0 <= pos0 <= i32::MAX,
            nt <= i32::MAX,
            ratio > 0,
            n_kv == key_count(has_comp),
            hidden == two_halves(pos0 as int, window as int, ratio as int),
            want == mask_bytes(nt as int, key_count(has_comp), hidden),
            bytes@.len() == query * n_kv * 2,
            forall|i: int| 0 <= i < bytes@.len() ==> bytes@[i] == want[i],
        decreases nt - query,
    {
        let q_abs: i64 = pos0 + query;
        let complete: i64 = (q_abs + 1) / ratio;
        let mut key: i64 = 0;
        while key < n_kv
            invariant
                0 <= query < nt,
                0 <= key <= n_kv,
                0 <= pos0 <= i32::MAX,
                nt <= i32::MAX,
                ratio > 0,
                n_kv == key_count(has_comp),
                q_abs == pos0 + query,
                complete == (pos0 + query + 1) / ratio as int,
                hidden == two_halves(pos0 as int, window as int, ratio as int),
                want == mask_bytes(nt as int, key_count(has_comp), hidden),
                bytes@.len() == (query * n_kv + key) * 2,
                forall|i: int| 0 <= i < bytes@.len() ==> bytes@[i] == want[i],
            decreases n_kv - key,
        {
            proof {
                mask_entry(nt as int, n_kv as int, hidden, query as int, key as int);
            }
            let hide: bool = if key < WINDOW_KEYS {
                key > q_abs || (window > 0 && q_abs - key >= window as i64)
            } else {
                key - WINDOW_KEYS >= complete
            };
            bytes.push(0);
            if hide {
                bytes.push(0xFC);
            } else {
                bytes.push(0);
            }
            key = key + 1;
        }
        proof {
            assert((query * n_kv + n_kv) * 2 == (query + 1) * n_kv * 2) by (nonlinear_arith);
        }
        query = query + 1;
    }
    assert(bytes@ =~= want);
    bytes
}

/// A block is visible exactly to the queries that stand behind its last position.
pub proof fn a_block_is_seen_once_complete(pos0: int, window: int, ratio: int, query: int, block: int)
    requires
        0 <= pos0,
        0 <= query,
        ratio > 0,
        0 <= block < 256,
    ensures
        two_halves(pos0, window, ratio)(query, WINDOW_KEYS + block) <==> pos0 + query < (block + 1)
            * ratio - 1,
{
    let n = pos0 + query + 1;
    let done = n / ratio;
    vstd::arithmetic::div_mod::lemma_fundamental_div_mod(n, ratio);
    vstd::arithmetic::div_mod::lemma_mod_bound(n, ratio);
    if block >= done {
        assert((block + 1) * ratio >= (done + 1) * ratio) by (nonlinear_arith)
            requires
                block >= done,
                ratio > 0,
        ;
        assert((done + 1) * ratio == ratio * done + ratio) by (nonlinear_arith);
    } else {
        assert((block + 1) * ratio <= done * ratio) by (nonlinear_arith)
            requires
                block < done,
                ratio > 0,
        ;
        assert(done * ratio == ratio * done) by (nonlinear_arith);
    }
}

/// A query sees itself, nothing behind it in time, and of what came before exactly the
/// last `window` positions, itself among them; without a window, everything.
pub proof fn a_query_sees_its_window(pos_start: int, window: int, ratio: int, query: int, key: int)
    requires
        0 <= pos_start,
        0 <= window,
        0 <= query,
        0 <= key,
    ensures
        ({
            let at = pos_start + query;
            let seen = key <= at && (window == 0 || key > at - window);
            &&& causal(pos_start, window)(query, key) <==> !seen
            &&& key < WINDOW_KEYS ==> (two_halves(pos_start, window, ratio)(query, key) <==> !seen)
            &&& !causal(pos_start, window)(query, at)
        }),
{
}

} // verus!
