//! Attention state that survives from one DeepSeek-V4-Flash pass to the next, and what
//! the compressor reads of it.
//!
//! Three structures, not two. The compressor's input ring is the one that is easy to
//! miss, and missing it does not fail: it summarises the wrong span, fluently.
use crate::deepseek4::{AttentionKind, Deepseek4Config};
use crate::error::{ArchError, Result};
#[allow(unused_imports)]
use crate::kv::half_byte;
use vstd::prelude::*;

verus! {

/// Positions each half of a layer's history has room for.
pub const N_KV: usize = 256;

/// Rows a compressor that averages over two windows keeps.
pub const OVERLAP_ROWS: i64 = 8;

// ---------------------------------------------------------------------- ring

/// The last `n` values.
pub open spec fn tail<T>(values: Seq<T>, n: int) -> Seq<T> {
    if values.len() > n {
        values.skip(values.len() - n)
    } else {
        values
    }
}

/// What a ring of at most `keep` values holds after `batch` went in.
pub open spec fn slid(ring: Seq<u32>, batch: Seq<u32>, keep: int) -> Seq<u32> {
    tail(ring + batch, keep)
}

/// Sliding on every pass keeps the ring the last values there ever were.
pub proof fn a_ring_holds_the_last_values(history: Seq<u32>, batch: Seq<u32>, keep: int)
    requires
        0 <= keep,
    ensures
        slid(tail(history, keep), batch, keep) == tail(history + batch, keep),
{
    assert(slid(tail(history, keep), batch, keep) =~= tail(history + batch, keep));
}

/// What a batch is read behind: zeros up to `need` values, the ring, the batch, then
/// `pad` times `fill`.
pub open spec fn framed_rows(
    ring: Seq<u32>,
    batch: Seq<u32>,
    need: int,
    pad: int,
    fill: u32,
) -> Seq<u32> {
    let short = if ring.len() < need {
        need - ring.len()
    } else {
        0
    };
    Seq::new(short as nat, |i: int| 0u32) + ring + batch + Seq::new(pad as nat, |i: int| fill)
}

/// Frames a batch for the compressor.
pub fn frame_rows(ring: &Vec<u32>, batch: &Vec<u32>, need: usize, pad: usize, fill: u32) -> (rows:
    Vec<u32>)
    ensures
        rows@ == framed_rows(ring@, batch@, need as int, pad as int, fill),
{
    let mut rows: Vec<u32> = Vec::new();
    let short: usize = need.saturating_sub(ring.len());
    let mut i: usize = 0;
    while i < short
        invariant
            i <= short,
            rows@ == Seq::new(i as nat, |i: int| 0u32),
        decreases short - i,
    {
        rows.push(0);
        i = i + 1;
        assert(rows@ =~= Seq::new(i as nat, |i: int| 0u32));
    }
    rows.extend_from_slice(ring.as_slice());
    assert(rows@ =~= Seq::new(short as nat, |i: int| 0u32) + ring@);
    rows.extend_from_slice(batch.as_slice());
    let ghost front = Seq::new(short as nat, |i: int| 0u32) + ring@ + batch@;
    assert(rows@ =~= front);
    let mut j: usize = 0;
    while j < pad
        invariant
            j <= pad,
            rows@ == front + Seq::new(j as nat, |i: int| fill),
        decreases pad - j,
    {
        rows.push(fill);
        j = j + 1;
        assert(rows@ =~= front + Seq::new(j as nat, |i: int| fill));
    }
    rows
}

/// The framed row for an absolute position is that position's own row, and zeros
/// before the sequence began: `history` is everything projected before this batch,
/// `wide` values per position, and `rows` is how many the ring keeps.
pub proof fn framed_rows_are_absolute(
    history: Seq<u32>,
    batch: Seq<u32>,
    pos0: int,
    nt: int,
    wide: int,
    rows: int,
    pad: int,
    fill: u32,
    position: int,
    column: int,
)
    requires
        0 <= pos0,
        0 <= nt,
        0 < wide,
        0 <= rows,
        history.len() == pos0 * wide,
        batch.len() == nt * wide,
        pos0 - rows <= position < pos0 + nt,
        0 <= column < wide,
    ensures
        ({
            let framed = framed_rows(tail(history, rows * wide), batch, rows * wide, pad, fill);
            let at = (rows + position - pos0) * wide + column;
            &&& 0 <= at < framed.len()
            &&& framed[at] == (if position < 0 {
                0u32
            } else {
                (history + batch)[position * wide + column]
            })
        }),
{
    let need = rows * wide;
    let ring = tail(history, need);
    let at = (rows + position - pos0) * wide + column;
    assert(at == need + position * wide - pos0 * wide + column) by (nonlinear_arith)
        requires
            at == (rows + position - pos0) * wide + column,
            need == rows * wide,
    ;
    assert(0 <= at && at < need + nt * wide) by (nonlinear_arith)
        requires
            at == (rows + position - pos0) * wide + column,
            need == rows * wide,
            pos0 - rows <= position < pos0 + nt,
            0 <= column < wide,
    ;
    let spot = position * wide + column;
    if position < 0 {
        assert(spot < 0) by (nonlinear_arith)
            requires
                spot == position * wide + column,
                position < 0,
                0 <= column < wide,
        ;
    } else {
        assert(0 <= spot) by (nonlinear_arith)
            requires
                spot == position * wide + column,
                position >= 0,
                0 <= column < wide,
        ;
    }
    let framed = framed_rows(ring, batch, need, pad, fill);
    assert(framed.len() >= need + batch.len());
    if position < 0 {
        assert(pos0 < rows);
        assert(history.len() <= need) by (nonlinear_arith)
            requires
                history.len() == pos0 * wide,
                need == rows * wide,
                pos0 < rows,
                wide > 0,
        ;
        assert(ring == history);
    }
}

// ---------------------------------------------------------------------- plan

/// How one batch through a compressed layer is summarised.
pub struct CompressorPlan {
    /// First block the batch completes.
    pub b0: i64,
    /// One past the last block it completes.
    pub b1: i64,
    /// Values per row.
    pub wide: i64,
    /// Rows kept from before the batch.
    pub state_rows: i64,
    /// The row that stands for positions before the sequence.
    pub zero_row: i32,
    /// The rows gathered, the previous windows' first where windows overlap.
    pub rows: Vec<i32>,
    /// The position each completed block starts at.
    pub positions: Vec<i32>,
}

/// Values per row: both halves of a head where windows overlap.
pub open spec fn row_width(head: int, overlap: bool) -> int {
    if overlap {
        2 * head
    } else {
        head
    }
}

/// Rows kept from before a batch.
pub open spec fn rows_kept(ratio: int, overlap: bool) -> int {
    if overlap {
        OVERLAP_ROWS as int
    } else {
        ratio
    }
}

/// The framed row of absolute position `p`: the zero row before the sequence.
pub open spec fn row_of(p: int, pos0: int, nt: int, kept: int) -> int {
    if p < 0 {
        kept + nt
    } else {
        kept + p - pos0
    }
}

/// The rows gathered for the blocks that a batch of `nt` from `pos0` completes: each
/// block's previous window where windows overlap, then each block's own.
pub open spec fn gathered(ratio: int, overlap: bool, pos0: int, nt: int) -> Seq<int> {
    let b0 = pos0 / ratio;
    let n = (pos0 + nt) / ratio - b0;
    let kept = rows_kept(ratio, overlap);
    let own = Seq::new((n * ratio) as nat, |i: int| row_of(b0 * ratio + i, pos0, nt, kept));
    if overlap {
        Seq::new((n * ratio) as nat, |i: int| row_of(b0 * ratio - ratio + i, pos0, nt, kept)) + own
    } else {
        own
    }
}

/// The gather never reaches outside the framed batch. Behind a batch the reach is at
/// worst two windows less one, which is why eight rows are kept for a ratio of four.
pub proof fn gathers_stay_in_range(ratio: int, overlap: bool, pos0: int, nt: int, i: int)
    requires
        0 < ratio,
        overlap ==> ratio <= 4,
        0 <= pos0,
        0 <= nt,
        0 <= i < gathered(ratio, overlap, pos0, nt).len(),
    ensures
        0 <= gathered(ratio, overlap, pos0, nt)[i] <= rows_kept(ratio, overlap) + nt,
{
    block_bounds(ratio, pos0);
    block_bounds(ratio, pos0 + nt);
    let b0 = pos0 / ratio;
    let n = (pos0 + nt) / ratio - b0;
    vstd::arithmetic::div_mod::lemma_div_is_ordered(pos0, pos0 + nt, ratio);
    let b1 = (pos0 + nt) / ratio;
    assert(n * ratio == b1 * ratio - b0 * ratio && n * ratio >= 0) by (nonlinear_arith)
        requires
            n == b1 - b0,
            n >= 0,
            ratio > 0,
    ;
    let kept = rows_kept(ratio, overlap);
    let all = gathered(ratio, overlap, pos0, nt);
    if overlap && i < n * ratio {
        assert(all[i] == row_of(b0 * ratio - ratio + i, pos0, nt, kept));
    } else if overlap {
        assert(all[i] == row_of(b0 * ratio + (i - n * ratio), pos0, nt, kept));
    } else {
        assert(all[i] == row_of(b0 * ratio + i, pos0, nt, kept));
    }
}

proof fn block_bounds(ratio: int, p: int)
    requires
        0 < ratio,
        0 <= p,
    ensures
        0 <= p / ratio,
        (p / ratio) * ratio <= p < (p / ratio) * ratio + ratio,
{
    vstd::arithmetic::div_mod::lemma_fundamental_div_mod(p, ratio);
    vstd::arithmetic::div_mod::lemma_mod_bound(p, ratio);
    vstd::arithmetic::div_mod::lemma_div_pos_is_pos(p, ratio);
    assert((p / ratio) * ratio == ratio * (p / ratio)) by (nonlinear_arith);
}

fn gather_window(
    rows: &mut Vec<i32>,
    from: i64,
    count: i64,
    pos0: i64,
    nt: i64,
    kept: i64,
)
    requires
        -0x4000_0000 <= from <= i32::MAX,
        0 <= count <= i32::MAX,
        0 <= pos0 <= i32::MAX,
        0 <= nt <= i32::MAX,
        0 <= kept <= i32::MAX,
        pos0 + nt + kept <= i32::MAX,
        from + count <= pos0 + nt,
        from >= 0 ==> kept + from - pos0 >= 0,
        from < 0 ==> pos0 <= kept,
    ensures
        final(rows)@ == old(rows)@ + Seq::new(
            count as nat,
            |i: int| row_of(from + i, pos0 as int, nt as int, kept as int) as i32,
        ),
{
    let ghost added = Seq::new(
        count as nat,
        |i: int| row_of(from + i, pos0 as int, nt as int, kept as int) as i32,
    );
    let ghost before = rows@;
    let mut i: i64 = 0;
    while i < count
        invariant
            0 <= i <= count,
            added == Seq::new(
                count as nat,
                |i: int| row_of(from + i, pos0 as int, nt as int, kept as int) as i32,
            ),
            rows@ == before + added.take(i as int),
            -0x4000_0000 <= from <= i32::MAX,
            0 <= count <= i32::MAX,
            0 <= pos0 <= i32::MAX,
            0 <= nt <= i32::MAX,
            0 <= kept <= i32::MAX,
            pos0 + nt + kept <= i32::MAX,
            from + count <= pos0 + nt,
            from >= 0 ==> kept + from - pos0 >= 0,
            from < 0 ==> pos0 <= kept,
        decreases count - i,
    {
        let p: i64 = from + i;
        let row: i64 = if p < 0 {
            kept + nt
        } else {
            kept + p - pos0
        };
        rows.push(row as i32);
        assert(added.take(i + 1) =~= added.take(i as int).push(added[i as int]));
        i = i + 1;
        assert(rows@ =~= before + added.take(i as int));
    }
    assert(added.take(i as int) =~= added);
}

/// Plans the summary of the blocks that a batch of `nt` positions from `pos0`
/// completes. Blocks are absolute: a step summarises only the block it finishes, and
/// that block's rows come partly from the ring and partly from the batch.
pub fn plan_compressor(ratio: i64, head: i64, overlap: bool, pos0: i64, nt: i64) -> (plan:
    CompressorPlan)
    requires
        0 < ratio <= 0x1000_0000,
        overlap ==> ratio <= 4,
        0 <= head <= u32::MAX,
        0 <= pos0 <= 0x1000_0000,
        0 <= nt <= 0x1000_0000,
    ensures
        plan.b0 == pos0 as int / ratio as int,
        plan.b1 == (pos0 + nt) / ratio as int,
        plan.wide == row_width(head as int, overlap),
        plan.state_rows == rows_kept(ratio as int, overlap),
        plan.zero_row == plan.state_rows + nt,
        plan.rows@ == gathered(ratio as int, overlap, pos0 as int, nt as int).map_values(
            |r: int| r as i32,
        ),
        forall|i: int| 0 <= i < plan.rows@.len() ==> 0 <= #[trigger] plan.rows@[i] <= plan.zero_row,
        plan.positions@ == Seq::new(
            (plan.b1 - plan.b0) as nat,
            |i: int| ((plan.b0 + i) * ratio) as i32,
        ),
{
    let b0: i64 = pos0 / ratio;
    let b1: i64 = (pos0 + nt) / ratio;
    let wide: i64 = if overlap {
        2 * head
    } else {
        head
    };
    let kept: i64 = if overlap {
        OVERLAP_ROWS
    } else {
        ratio
    };
    proof {
        block_bounds(ratio as int, pos0 as int);
        block_bounds(ratio as int, pos0 + nt);
        vstd::arithmetic::div_mod::lemma_div_is_ordered(pos0 as int, pos0 + nt, ratio as int);
        let n = b1 - b0;
        let r = ratio as int;
        assert(n * r == b1 * r - b0 * r) by (nonlinear_arith)
            requires
                n == b1 - b0,
        ;
        assert(0 <= n * r) by (nonlinear_arith)
            requires
                0 <= n,
                0 < r,
        ;
        assert(0 <= b0 * r <= pos0) by (nonlinear_arith)
            requires
                0 <= b0,
                0 < r,
                b0 * r <= pos0,
        ;
    }
    let start: i64 = b0 * ratio;
    let count: i64 = (b1 - b0) * ratio;
    let mut rows: Vec<i32> = Vec::new();
    let ghost all = gathered(ratio as int, overlap, pos0 as int, nt as int);
    if overlap {
        gather_window(&mut rows, start - ratio, count, pos0, nt, kept);
    }
    gather_window(&mut rows, start, count, pos0, nt, kept);
    assert(rows@ =~= all.map_values(|r: int| r as i32));
    assert forall|i: int| 0 <= i < rows@.len() implies 0 <= #[trigger] rows@[i] <= kept + nt by {
        gathers_stay_in_range(ratio as int, overlap, pos0 as int, nt as int, i);
        assert(rows@[i] == all[i] as i32);
    }
    let mut positions: Vec<i32> = Vec::new();
    let mut b: i64 = b0;
    while b < b1
        invariant
            b0 <= b <= b1,
            0 <= b0,
            0 < ratio,
            b1 * ratio <= pos0 + nt <= 0x2000_0000,
            positions@ == Seq::new((b - b0) as nat, |i: int| ((b0 + i) * ratio) as i32),
        decreases b1 - b,
    {
        proof {
            assert(0 <= b * ratio <= b1 * ratio) by (nonlinear_arith)
                requires
                    0 <= b <= b1,
                    0 < ratio,
            ;
        }
        positions.push((b * ratio) as i32);
        b = b + 1;
        assert(positions@ =~= Seq::new((b - b0) as nat, |i: int| ((b0 + i) * ratio) as i32));
    }
    CompressorPlan {
        b0,
        b1,
        wide,
        state_rows: kept,
        zero_row: (kept + nt) as i32,
        rows,
        positions,
    }
}

/// The offset of each of a batch's tokens within its block.
pub fn offsets_in_block(pos0: i64, nt: i64, ratio: i64) -> (offsets: Vec<i32>)
    requires
        0 < ratio <= i32::MAX,
        0 <= pos0 <= i32::MAX,
        0 <= nt <= i32::MAX,
    ensures
        offsets@ == Seq::new(nt as nat, |p: int| ((pos0 + p) % ratio as int) as i32),
{
    let mut offsets: Vec<i32> = Vec::new();
    let mut p: i64 = 0;
    while p < nt
        invariant
            0 <= p <= nt,
            0 < ratio <= i32::MAX,
            0 <= pos0 <= i32::MAX,
            nt <= i32::MAX,
            offsets@ == Seq::new(p as nat, |p: int| ((pos0 + p) % ratio as int) as i32),
        decreases nt - p,
    {
        offsets.push(((pos0 + p) % ratio) as i32);
        p = p + 1;
        assert(offsets@ =~= Seq::new(p as nat, |p: int| ((pos0 + p) % ratio as int) as i32));
    }
    offsets
}

/// What a block does with its compressor on one batch.
#[derive(Debug, Clone, Copy, PartialEq, Eq, Structural)]
pub struct CompressorStep {
    /// The batch's rows enter the ring.
    pub slides: bool,
    /// A summary is built, and whether its windows overlap.
    pub summary: Option<bool>,
}

/// A batch of `nt` from `pos0` completes a block of `ratio`.
pub open spec fn completes(pos0: int, nt: int, ratio: int) -> bool {
    (pos0 + nt) / ratio > pos0 / ratio
}

/// Every batch through a compressed layer contributes its rows; a summary is built
/// when a block completes. Below the first boundary a compressed layer attends like a
/// plain one.
pub open spec fn compressor_step_of(kind: AttentionKind, ratio: Option<i64>, pos0: int, nt: int) ->
    CompressorStep {
    let fired = match ratio {
        Some(r) => completes(pos0, nt, r as int),
        None => false,
    };
    CompressorStep {
        slides: kind != AttentionKind::Raw,
        summary: match kind {
            AttentionKind::Raw => None,
            AttentionKind::CompressedSparse => if fired {
                Some(true)
            } else {
                None
            },
            AttentionKind::HeavilyCompressed => if fired {
                Some(false)
            } else {
                None
            },
        },
    }
}

/// What layer `il` does with its compressor on a batch of `nt` from `pos0`; `None` for
/// a compression ratio nobody has checked.
pub fn compressor_step(config: &Deepseek4Config, il: u32, pos0: i64, nt: i64) -> (step: Option<
    CompressorStep,
>)
    requires
        0 <= pos0,
        0 <= nt,
        pos0 + nt <= i64::MAX,
    ensures
        step == (match Deepseek4Config::kind_of_ratio(config.ratio_of(il as int)) {
            Some(kind) => Some(
                compressor_step_of(kind, config.ratio_of(il as int), pos0 as int, nt as int),
            ),
            None => None,
        }),
{
    let kind = match config.attention_kind_from_ratio(il) {
        Some(kind) => kind,
        None => {
            return None;
        },
    };
    let fired: bool = match config.compress_block(il) {
        Some(r) => (pos0 + nt) / r > pos0 / r,
        None => false,
    };
    let summary: Option<bool> = match kind {
        AttentionKind::Raw => None,
        AttentionKind::CompressedSparse => {
            if fired {
                Some(true)
            } else {
                None
            }
        },
        AttentionKind::HeavilyCompressed => {
            if fired {
                Some(false)
            } else {
                None
            }
        },
    };
    Some(CompressorStep { slides: kind != AttentionKind::Raw, summary })
}

/// A sequence's completed blocks are summarised exactly once, whatever the batches:
/// the blocks of two consecutive batches are those of both taken together.
pub proof fn batches_summarise_every_block_once(ratio: int, pos0: int, first: int, second: int)
    requires
        0 < ratio,
        0 <= pos0,
        0 <= first,
        0 <= second,
    ensures
        pos0 / ratio <= (pos0 + first) / ratio <= (pos0 + first + second) / ratio,
        completes(pos0, first + second, ratio) <==> completes(pos0, first, ratio) || completes(
            pos0 + first,
            second,
            ratio,
        ),
{
    vstd::arithmetic::div_mod::lemma_div_is_ordered(pos0, pos0 + first, ratio);
    vstd::arithmetic::div_mod::lemma_div_is_ordered(pos0 + first, pos0 + first + second, ratio);
}

// --------------------------------------------------------------------- cache

/// What a [`Deepseek4Cache`] holds, layer by layer.
#[verifier::ext_equal]
pub struct HistoryModel {
    /// Raw latents as f16 bits; the slot index is the absolute position.
    pub raw: Seq<Seq<u16>>,
    /// Compressed summaries as f16 bits; the slot index is the block.
    pub comp: Seq<Seq<u16>>,
    /// The last rows the compressor was fed.
    pub ring_kv: Seq<Seq<u32>>,
    /// The scores beside them.
    pub ring_score: Seq<Seq<u32>>,
    /// Blocks summarised so far.
    pub comp_len: Seq<i64>,
    /// Tokens the cache already describes.
    pub n_past: int,
}

impl HistoryModel {
    /// An empty history of `layers` layers, `per_layer` values to each half.
    pub open spec fn fresh(layers: nat, per_layer: nat) -> HistoryModel {
        HistoryModel {
            raw: Seq::new(layers, |i: int| Seq::new(per_layer, |j: int| 0u16)),
            comp: Seq::new(layers, |i: int| Seq::new(per_layer, |j: int| 0u16)),
            ring_kv: Seq::new(layers, |i: int| Seq::<u32>::empty()),
            ring_score: Seq::new(layers, |i: int| Seq::<u32>::empty()),
            comp_len: Seq::new(layers, |i: int| 0i64),
            n_past: 0,
        }
    }

    /// Every layer has its room, and as many layers of one kind as of another.
    pub open spec fn wf(self, per_layer: nat) -> bool {
        &&& self.comp.len() == self.raw.len()
        &&& self.ring_kv.len() == self.raw.len()
        &&& self.ring_score.len() == self.raw.len()
        &&& self.comp_len.len() == self.raw.len()
        &&& 0 <= self.n_past <= usize::MAX
        &&& forall|i: int|
            0 <= i < self.raw.len() ==> (#[trigger] self.raw[i]).len() == per_layer
        &&& forall|i: int|
            0 <= i < self.comp.len() ==> (#[trigger] self.comp[i]).len() == per_layer
    }

    /// The latents attention reads for `layer`: the raw half, and the summaries once
    /// the sequence has any.
    pub open spec fn keys(self, layer: int) -> Seq<u16> {
        if self.comp_len[layer] > 0 {
            self.raw[layer] + self.comp[layer]
        } else {
            self.raw[layer]
        }
    }
}

/// `values` written over `store` from index `at`.
pub open spec fn written(store: Seq<u16>, at: int, values: Seq<u16>) -> Seq<u16> {
    Seq::new(
        store.len(),
        |i: int|
            if at <= i < at + values.len() {
                values[i - at]
            } else {
                store[i]
            },
    )
}

/// Little-endian bytes of 16-bit values.
pub open spec fn half_bytes(halves: Seq<u16>) -> Seq<u8> {
    Seq::new(halves.len() * 2, |i: int| half_byte(halves[i / 2], i % 2))
}

fn zeros(n: usize) -> (v: Vec<u16>)
    ensures
        v@ == Seq::new(n as nat, |j: int| 0u16),
{
    let mut v: Vec<u16> = Vec::new();
    let mut i: usize = 0;
    while i < n
        invariant
            i <= n,
            v@ == Seq::new(i as nat, |j: int| 0u16),
        decreases n - i,
    {
        v.push(0);
        i = i + 1;
        assert(v@ =~= Seq::new(i as nat, |j: int| 0u16));
    }
    v
}

fn write_over(store: &mut Vec<u16>, at: usize, values: &Vec<u16>)
    requires
        at + values@.len() <= old(store)@.len(),
    ensures
        final(store)@ == written(old(store)@, at as int, values@),
{
    let ghost before = store@;
    let len: usize = store.len();
    let mut i: usize = 0;
    while i < values.len()
        invariant
            i <= values.len(),
            len == before.len(),
            at + values@.len() <= before.len(),
            store@.len() == before.len(),
            forall|j: int|
                0 <= j < before.len() ==> #[trigger] store@[j] == (if at <= j < at + i {
                    values@[j - at]
                } else {
                    before[j]
                }),
        decreases values.len() - i,
    {
        let v: u16 = values[i];
        store.set(at + i, v);
        i = i + 1;
    }
    assert(store@ =~= written(before, at as int, values@));
}

fn push_half_bytes(out: &mut Vec<u8>, halves: &Vec<u16>)
    ensures
        final(out)@ == old(out)@ + half_bytes(halves@),
{
    let ghost before = out@;
    let ghost all = half_bytes(halves@);
    let mut i: usize = 0;
    while i < halves.len()
        invariant
            i <= halves.len(),
            all == half_bytes(halves@),
            out@ == before + all.take(i * 2),
        decreases halves.len() - i,
    {
        let half: u16 = halves[i];
        out.push((half % 256) as u8);
        out.push((half / 256) as u8);
        assert(all.take((i + 1) * 2) =~= all.take(i * 2).push(all[i * 2]).push(all[i * 2 + 1]));
        i = i + 1;
        assert(out@ =~= before + all.take(i * 2));
    }
    assert(all.take(i * 2) =~= all);
}

fn copy_bits(v: &Vec<u32>) -> (out: Vec<u32>)
    ensures
        out@ == v@,
{
    let mut out: Vec<u32> = Vec::new();
    out.extend_from_slice(v.as_slice());
    assert(out@ =~= v@);
    out
}

/// `ring` with `batch` behind it, cut to its last `keep` values.
fn slide_ring(ring: &Vec<u32>, batch: &Vec<u32>, keep: usize) -> (out: Vec<u32>)
    ensures
        out@ == slid(ring@, batch@, keep as int),
{
    let mut all = copy_bits(ring);
    all.extend_from_slice(batch.as_slice());
    assert(all@ =~= ring@ + batch@);
    if all.len() > keep {
        let at: usize = all.len() - keep;
        let out = all.split_off(at);
        assert(out@ =~= slid(ring@, batch@, keep as int));
        out
    } else {
        all
    }
}

/// Attention state of a whole sequence.
pub struct Deepseek4Cache {
    raw: Vec<Vec<u16>>,
    comp: Vec<Vec<u16>>,
    ring_kv: Vec<Vec<u32>>,
    ring_score: Vec<Vec<u32>>,
    comp_len: Vec<i64>,
    n_past: usize,
    per_layer: usize,
}

/// The values in each of several buffers.
pub open spec fn each<T>(layers: Seq<Vec<T>>) -> Seq<Seq<T>> {
    layers.map_values(|l: Vec<T>| l@)
}

impl View for Deepseek4Cache {
    type V = HistoryModel;

    closed spec fn view(&self) -> HistoryModel {
        HistoryModel {
            raw: each(self.raw@),
            comp: each(self.comp@),
            ring_kv: each(self.ring_kv@),
            ring_score: each(self.ring_score@),
            comp_len: self.comp_len@,
            n_past: self.n_past as int,
        }
    }
}

impl Deepseek4Cache {
    /// Values to each half of a layer's history.
    pub closed spec fn room(&self) -> nat {
        self.per_layer as nat
    }

    pub open spec fn wf(&self) -> bool {
        self@.wf(self.room())
    }

    /// An empty cache for `n_layer` layers of latents `kv_lora_rank` wide.
    pub fn new(n_layer: u32, kv_lora_rank: u32) -> (cache: Self)
        requires
            kv_lora_rank * N_KV <= usize::MAX,
        ensures
            cache.wf(),
            cache.room() == kv_lora_rank * N_KV,
            cache@ == HistoryModel::fresh(n_layer as nat, (kv_lora_rank * N_KV) as nat),
    {
        let per_layer: usize = kv_lora_rank as usize * N_KV;
        Self::empty(n_layer as usize, per_layer)
    }

    fn empty(layers: usize, per_layer: usize) -> (cache: Self)
        ensures
            cache.wf(),
            cache.room() == per_layer,
            cache@ == HistoryModel::fresh(layers as nat, per_layer as nat),
    {
        let mut cache = Deepseek4Cache {
            raw: Vec::new(),
            comp: Vec::new(),
            ring_kv: Vec::new(),
            ring_score: Vec::new(),
            comp_len: Vec::new(),
            n_past: 0,
            per_layer,
        };
        let mut i: usize = 0;
        while i < layers
            invariant
                i <= layers,
                cache.per_layer == per_layer,
                cache.raw@.len() == i,
                cache.comp@.len() == i,
                cache.ring_kv@.len() == i,
                cache.ring_score@.len() == i,
                cache.comp_len@.len() == i,
                cache.n_past == 0,
                forall|j: int|
                    0 <= j < i ==> (#[trigger] cache.raw@[j])@ == Seq::new(
                        per_layer as nat,
                        |j: int| 0u16,
                    ),
                forall|j: int|
                    0 <= j < i ==> (#[trigger] cache.comp@[j])@ == Seq::new(
                        per_layer as nat,
                        |j: int| 0u16,
                    ),
                forall|j: int| 0 <= j < i ==> (#[trigger] cache.ring_kv@[j])@.len() == 0,
                forall|j: int| 0 <= j < i ==> (#[trigger] cache.ring_score@[j])@.len() == 0,
                forall|j: int| 0 <= j < i ==> #[trigger] cache.comp_len@[j] == 0,
            decreases layers - i,
        {
            cache.raw.push(zeros(per_layer));
            cache.comp.push(zeros(per_layer));
            cache.ring_kv.push(Vec::new());
            cache.ring_score.push(Vec::new());
            cache.comp_len.push(0);
            i = i + 1;
        }
        proof {
            let want = HistoryModel::fresh(layers as nat, per_layer as nat);
            assert(cache@.raw =~= want.raw);
            assert(cache@.comp =~= want.comp);
            assert forall|j: int| 0 <= j < layers implies cache@.ring_kv[j] == want.ring_kv[j] by {
                assert(cache.ring_kv@[j]@ =~= Seq::<u32>::empty());
            }
            assert(cache@.ring_kv =~= want.ring_kv);
            assert forall|j: int| 0 <= j < layers implies cache@.ring_score[j]
                == want.ring_score[j] by {
                assert(cache.ring_score@[j]@ =~= Seq::<u32>::empty());
            }
            assert(cache@.ring_score =~= want.ring_score);
            assert(cache@.comp_len =~= want.comp_len);
        }
        cache
    }

    /// Absolute position the next token will occupy.
    pub fn n_past(&self) -> (n: usize)
        ensures
            n == self@.n_past,
    {
        self.n_past
    }

    /// Forget everything, so the same cache can start a new sequence.
    pub fn clear(&mut self)
        requires
            old(self).wf(),
        ensures
            final(self).wf(),
            final(self).room() == old(self).room(),
            final(self)@ == HistoryModel::fresh(old(self)@.raw.len(), old(self).room()),
    {
        *self = Self::empty(self.raw.len(), self.per_layer);
    }

    /// Where a pass over `n_tokens` begins, or a refusal where the history has no room
    /// for them: refused before any weight is read, with the limit named.
    pub fn begin_pass(&self, n_tokens: usize) -> (pos0: Result<i64>)
        requires
            self.wf(),
            self@.n_past + n_tokens <= usize::MAX,
        ensures
            match pos0 {
                Ok(p) => self@.n_past + n_tokens <= N_KV && p == self@.n_past,
                Err(ArchError::ContextTooLong { tokens, limit }) => self@.n_past + n_tokens > N_KV
                    && tokens == self@.n_past + n_tokens && limit == N_KV,
                Err(_) => false,
            },
    {
        if self.n_past + n_tokens > N_KV {
            return Err(
                ArchError::ContextTooLong { tokens: self.n_past + n_tokens, limit: N_KV },
            );
        }
        Ok(self.n_past as i64)
    }

    /// Writes a batch's latents at their absolute slots.
    pub fn store_raw(&mut self, layer: usize, at: usize, values: &Vec<u16>)
        requires
            old(self).wf(),
            layer < old(self)@.raw.len(),
            at + values@.len() <= old(self).room(),
        ensures
            final(self).wf(),
            final(self).room() == old(self).room(),
            final(self)@ == (HistoryModel {
                raw: old(self)@.raw.update(
                    layer as int,
                    written(old(self)@.raw[layer as int], at as int, values@),
                ),
                ..old(self)@
            }),
    {
        assert(self@.raw[layer as int] == self.raw@[layer as int]@);
        write_over(&mut self.raw[layer], at, values);
        assert(self@ =~= (HistoryModel {
            raw: old(self)@.raw.update(
                layer as int,
                written(old(self)@.raw[layer as int], at as int, values@),
            ),
            ..old(self)@
        }));
    }

    /// Writes the summaries of the blocks from `block0` on, `head` values each. They
    /// stand at their absolute index: written from block 0, a step would overwrite the
    /// sequence's history with its own single block.
    pub fn store_summaries(&mut self, layer: usize, block0: i64, head: i64, values: &Vec<u16>)
        requires
            old(self).wf(),
            layer < old(self)@.raw.len(),
            0 <= block0 <= i32::MAX,
            0 < head <= u32::MAX,
            block0 * head + values@.len() <= old(self).room(),
            values@.len() <= i64::MAX / 2,
        ensures
            final(self).wf(),
            final(self).room() == old(self).room(),
            final(self)@ == (HistoryModel {
                comp: old(self)@.comp.update(
                    layer as int,
                    written(old(self)@.comp[layer as int], block0 * head, values@),
                ),
                comp_len: old(self)@.comp_len.update(
                    layer as int,
                    (block0 + values@.len() as int / head as int) as i64,
                ),
                ..old(self)@
            }),
    {
        assert(self@.comp[layer as int] == self.comp@[layer as int]@);
        proof {
            assert(0 <= block0 * head <= i32::MAX * u32::MAX) by (nonlinear_arith)
                requires
                    0 <= block0 <= i32::MAX,
                    0 < head <= u32::MAX,
            ;
            let len = values@.len() as int;
            vstd::arithmetic::div_mod::lemma_div_is_ordered_by_denominator(len, 1, head as int);
        }
        let at: usize = (block0 * head) as usize;
        write_over(&mut self.comp[layer], at, values);
        let done: i64 = block0 + values.len() as i64 / head;
        self.comp_len.set(layer, done);
        assert(self@ =~= (HistoryModel {
            comp: old(self)@.comp.update(
                layer as int,
                written(old(self)@.comp[layer as int], block0 * head, values@),
            ),
            comp_len: old(self)@.comp_len.update(
                layer as int,
                (block0 + values@.len() as int / head as int) as i64,
            ),
            ..old(self)@
        }));
    }

    /// Whether the sequence has summaries, not only this batch: three steps in four
    /// complete no block, and attending over the raw window alone on those would
    /// discard everything already compressed.
    pub fn has_summaries(&self, layer: usize) -> (yes: bool)
        requires
            self.wf(),
            layer < self@.raw.len(),
        ensures
            yes == (self@.comp_len[layer as int] > 0),
    {
        self.comp_len[layer] > 0
    }

    /// The latents attention reads for `layer`, as bytes.
    pub fn keys(&self, layer: usize) -> (bytes: Vec<u8>)
        requires
            self.wf(),
            layer < self@.raw.len(),
        ensures
            bytes@ == half_bytes(self@.keys(layer as int)),
    {
        let mut bytes: Vec<u8> = Vec::new();
        push_half_bytes(&mut bytes, &self.raw[layer]);
        assert(self@.raw[layer as int] == self.raw@[layer as int]@);
        assert(self@.comp[layer as int] == self.comp@[layer as int]@);
        if self.has_summaries(layer) {
            push_half_bytes(&mut bytes, &self.comp[layer]);
        }
        assert(bytes@ =~= half_bytes(self@.keys(layer as int)));
        bytes
    }

    /// Feeds a batch's rows and scores to the compressor's ring of `keep` values, and
    /// hands back what stood there before: a batch is read behind what preceded it, and
    /// sliding first would let it summarise itself.
    pub fn slide(&mut self, layer: usize, kv: &Vec<u32>, score: &Vec<u32>, keep: usize) -> (before: (
        Vec<u32>,
        Vec<u32>,
    ))
        requires
            old(self).wf(),
            layer < old(self)@.raw.len(),
        ensures
            final(self).wf(),
            final(self).room() == old(self).room(),
            before.0@ == old(self)@.ring_kv[layer as int],
            before.1@ == old(self)@.ring_score[layer as int],
            final(self)@ == (HistoryModel {
                ring_kv: old(self)@.ring_kv.update(
                    layer as int,
                    slid(old(self)@.ring_kv[layer as int], kv@, keep as int),
                ),
                ring_score: old(self)@.ring_score.update(
                    layer as int,
                    slid(old(self)@.ring_score[layer as int], score@, keep as int),
                ),
                ..old(self)@
            }),
    {
        let prev_kv = copy_bits(&self.ring_kv[layer]);
        let prev_score = copy_bits(&self.ring_score[layer]);
        let next_kv = slide_ring(&prev_kv, kv, keep);
        let next_score = slide_ring(&prev_score, score, keep);
        self.ring_kv.set(layer, next_kv);
        self.ring_score.set(layer, next_score);
        assert(self@ =~= (HistoryModel {
            ring_kv: old(self)@.ring_kv.update(
                layer as int,
                slid(old(self)@.ring_kv[layer as int], kv@, keep as int),
            ),
            ring_score: old(self)@.ring_score.update(
                layer as int,
                slid(old(self)@.ring_score[layer as int], score@, keep as int),
            ),
            ..old(self)@
        }));
        (prev_kv, prev_score)
    }

    /// Counts a finished pass.
    pub fn advance(&mut self, n_tokens: usize)
        requires
            old(self).wf(),
            old(self)@.n_past + n_tokens <= usize::MAX,
        ensures
            final(self).wf(),
            final(self).room() == old(self).room(),
            final(self)@ == (HistoryModel { n_past: old(self)@.n_past + n_tokens, ..old(self)@ }),
    {
        self.n_past = self.n_past + n_tokens;
    }
}

/// Slots are absolute: what was written for one span of positions is read back there,
/// and other positions keep what they held.
pub proof fn slots_are_absolute(store: Seq<u16>, at: int, values: Seq<u16>, i: int)
    requires
        0 <= at,
        at + values.len() <= store.len(),
        0 <= i < store.len(),
    ensures
        written(store, at, values).len() == store.len(),
        written(store, at, values).subrange(at, at + values.len()) == values,
        !(at <= i < at + values.len()) ==> written(store, at, values)[i] == store[i],
{
    assert(written(store, at, values).subrange(at, at + values.len()) =~= values);
}

/// One pass over a prompt leaves the raw half as two passes over its parts do.
pub proof fn prefill_and_steps_store_the_same(
    store: Seq<u16>,
    at: int,
    first: Seq<u16>,
    second: Seq<u16>,
)
    requires
        0 <= at,
        at + first.len() + second.len() <= store.len(),
    ensures
        written(store, at, first + second) == written(
            written(store, at, first),
            at + first.len(),
            second,
        ),
{
    assert(written(store, at, first + second) =~= written(
        written(store, at, first),
        at + first.len(),
        second,
    ));
}

} // verus!
