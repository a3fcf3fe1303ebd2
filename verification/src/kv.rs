//! Key/value history: the difference between quadratic and linear generation.
//!
//! Keys and values for a position never change once computed, so they are computed
//! once and kept, and each new token attends over the stored history. What is kept
//! is bytes in the layout attention reads, appended position by position.
use crate::text::{push_decimal, same_text, to_lower, trim};
#[allow(unused_imports)]
use crate::text::{decimal, lowered, trimmed};
use vstd::prelude::*;

verus! {

/// How the cache stores a key or value.
#[derive(Debug, Clone, Copy, PartialEq, Eq, Structural)]
pub enum KvType {
    /// 2 bytes per value.
    F16,
    /// 32 int8 quants sharing one f16 scale: 34 bytes per 32 values.
    Q8_0,
}

/// Values in one quantised block.
pub const QK8_0: usize = 32;

/// Bytes in one quantised block: the scale, then the quants.
pub const Q8_0_BLOCK_BYTES: usize = 34;

impl KvType {
    /// Bytes that `values` values take; for `Q8_0`, that their whole blocks take.
    pub open spec fn size_of(self, values: int) -> int {
        match self {
            KvType::F16 => values * 2,
            KvType::Q8_0 => values / 32 * 34,
        }
    }

    /// The storage type that `name` asks for.
    pub open spec fn named(name: Seq<char>) -> Option<KvType> {
        let plain = lowered(trimmed(name));
        if plain == "f16"@ || plain == "fp16"@ {
            Some(KvType::F16)
        } else if plain == "q8_0"@ || plain == "q8"@ {
            Some(KvType::Q8_0)
        } else {
            None
        }
    }

    /// Reads a storage type's name, whatever its case and the space around it.
    pub fn parse(name: &str) -> (kind: Option<Self>)
        ensures
            kind == KvType::named(name@),
    {
        let plain = to_lower(trim(name).as_str());
        if same_text(plain.as_str(), "f16") || same_text(plain.as_str(), "fp16") {
            Some(KvType::F16)
        } else if same_text(plain.as_str(), "q8_0") || same_text(plain.as_str(), "q8") {
            Some(KvType::Q8_0)
        } else {
            None
        }
    }

    /// The ggml type id, for building the tensor attention reads.
    pub fn ggml_type(self) -> (id: u32)
        ensures
            id == (match self {
                KvType::F16 => 1u32,
                KvType::Q8_0 => 8u32,
            }),
    {
        match self {
            KvType::F16 => 1,
            KvType::Q8_0 => 8,
        }
    }

    pub fn name(self) -> (name: &'static str)
        ensures
            name@ == (match self {
                KvType::F16 => "f16"@,
                KvType::Q8_0 => "q8_0"@,
            }),
    {
        match self {
            KvType::F16 => "f16",
            KvType::Q8_0 => "q8_0",
        }
    }

    /// Bytes for `values` values, which must be a whole number of rows.
    pub fn bytes_for(self, values: usize) -> (bytes: usize)
        requires
            self.size_of(values as int) <= usize::MAX,
        ensures
            bytes == self.size_of(values as int),
    {
        match self {
            KvType::F16 => values * 2,
            KvType::Q8_0 => values / 32 * 34,
        }
    }
}

/// A type's name reads back as the type.
pub proof fn names_read_back(kind: KvType)
    ensures
        KvType::named(
            match kind {
                KvType::F16 => "f16"@,
                KvType::Q8_0 => "q8_0"@,
            },
        ) == Some(kind),
{
    reveal_strlit("f16");
    reveal_strlit("fp16");
    reveal_strlit("q8_0");
    reveal_strlit("q8");
    let half = "f16"@;
    let quant = "q8_0"@;
    assert(trimmed(half) == half);
    assert(trimmed(quant) == quant);
    assert(lowered(half) =~= half);
    assert(lowered(quant) =~= quant);
    assert(quant.len() != half.len());
    assert(quant[0] != "fp16"@[0]);
}

/// One position's keys or values, encoded for storage.
pub enum KvRow {
    /// f16 bit patterns, one per value.
    Halves(Vec<u16>),
    /// int8 quants as bytes, one per value, and the f16 scale that each 32 share.
    Quants { scales: Vec<u16>, quants: Vec<u8> },
}

impl KvRow {
    /// How many values the row holds.
    pub open spec fn values(self) -> nat {
        match self {
            KvRow::Halves(halves) => halves@.len(),
            KvRow::Quants { scales, quants } => quants@.len(),
        }
    }

    /// The row is encoded as `kind` stores it.
    pub open spec fn encodes(self, kind: KvType) -> bool {
        match self {
            KvRow::Halves(halves) => kind == KvType::F16,
            KvRow::Quants { scales, quants } => kind == KvType::Q8_0 && scales@.len() == (
            quants@.len() + 31) / 32,
        }
    }

    /// The bytes attention reads: halves little-endian, or blocks of a little-endian
    /// scale and 32 quants.
    pub open spec fn bytes(self) -> Seq<u8> {
        match self {
            KvRow::Halves(halves) => Seq::new(
                halves@.len() * 2,
                |i: int| half_byte(halves@[i / 2], i % 2),
            ),
            KvRow::Quants { scales, quants } => Seq::new(
                quants@.len() / 32 * 34,
                |i: int| block_byte(scales@, quants@, i / 34, i % 34),
            ),
        }
    }

    /// How many values the row holds.
    pub fn len(&self) -> (n: usize)
        ensures
            n == self.values(),
    {
        match self {
            KvRow::Halves(halves) => halves.len(),
            KvRow::Quants { scales, quants } => quants.len(),
        }
    }
}

/// Byte `i` of a little-endian 16-bit value.
pub open spec fn half_byte(half: u16, i: int) -> u8 {
    if i == 0 {
        (half % 256) as u8
    } else {
        (half / 256) as u8
    }
}

/// Byte `i` of block `b`.
pub open spec fn block_byte(scales: Seq<u16>, quants: Seq<u8>, b: int, i: int) -> u8 {
    if i < 2 {
        half_byte(scales[b], i)
    } else {
        quants[b * 32 + i - 2]
    }
}

fn append_halves(out: &mut Vec<u8>, halves: &Vec<u16>)
    ensures
        final(out)@ == old(out)@ + Seq::new(
            halves@.len() * 2,
            |i: int| half_byte(halves@[i / 2], i % 2),
        ),
{
    let ghost all = Seq::new(halves@.len() * 2, |i: int| half_byte(halves@[i / 2], i % 2));
    let ghost before = out@;
    let mut i: usize = 0;
    while i < halves.len()
        invariant
            i <= halves.len(),
            all == Seq::new(halves@.len() * 2, |i: int| half_byte(halves@[i / 2], i % 2)),
            out@ == before + all.take(i * 2),
        decreases halves.len() - i,
    {
        let half: u16 = halves[i];
        out.push((half % 256) as u8);
        out.push((half / 256) as u8);
        assert(all.take((i + 1) * 2) =~= all.take(i * 2).push(all[i * 2]).push(all[i * 2 + 1]));
        i = i + 1;
        assert(out@ =~= before + all.take(i * 2));
    }
    assert(all.take(i * 2) =~= all);
}

fn append_blocks(out: &mut Vec<u8>, scales: &Vec<u16>, quants: &Vec<u8>)
    requires
        scales@.len() >= quants@.len() / 32,
    ensures
        final(out)@ == old(out)@ + Seq::new(
            quants@.len() / 32 * 34,
            |i: int| block_byte(scales@, quants@, i / 34, i % 34),
        ),
{
    let ghost all = Seq::new(
        quants@.len() / 32 * 34,
        |i: int| block_byte(scales@, quants@, i / 34, i % 34),
    );
    let ghost before = out@;
    let len: usize = quants.len();
    let blocks: usize = len / 32;
    let mut b: usize = 0;
    while b < blocks
        invariant
            b <= blocks,
            len == quants@.len(),
            blocks == len / 32,
            scales@.len() >= blocks,
            all == Seq::new(
                quants@.len() / 32 * 34,
                |i: int| block_byte(scales@, quants@, i / 34, i % 34),
            ),
            out@ == before + all.take(b * 34),
        decreases blocks - b,
    {
        let scale: u16 = scales[b];
        out.push((scale % 256) as u8);
        out.push((scale / 256) as u8);
        assert(all.take(b * 34 + 2) =~= all.take(b * 34).push(all[b * 34]).push(all[b * 34 + 1]));
        assert(out@ =~= before + all.take(b * 34 + 2));
        let mut q: usize = 0;
        while q < 32
            invariant
                q <= 32,
                b < blocks,
                len == quants@.len(),
                blocks == len / 32,
                all == Seq::new(
                    quants@.len() / 32 * 34,
                    |i: int| block_byte(scales@, quants@, i / 34, i % 34),
                ),
                out@ == before + all.take(b * 34 + 2 + q),
            decreases 32 - q,
        {
            out.push(quants[b * 32 + q]);
            assert(all.take(b * 34 + 2 + q + 1) =~= all.take(b * 34 + 2 + q).push(
                all[b * 34 + 2 + q],
            ));
            q = q + 1;
            assert(out@ =~= before + all.take(b * 34 + 2 + q));
        }
        b = b + 1;
    }
    assert(all.take(b * 34) =~= all);
}

fn append_row(out: &mut Vec<u8>, row: &KvRow)
    requires
        row.encodes(KvType::F16) || row.encodes(KvType::Q8_0),
    ensures
        final(out)@ == old(out)@ + row.bytes(),
{
    match row {
        KvRow::Halves(halves) => append_halves(out, halves),
        KvRow::Quants { scales, quants } => append_blocks(out, scales, quants),
    }
}

/// Removes bytes `to..from`, sliding the rest down.
fn cut(bytes: &mut Vec<u8>, to: usize, from: usize)
    requires
        to <= from <= old(bytes)@.len(),
    ensures
        final(bytes)@ == old(bytes)@.take(to as int) + old(bytes)@.skip(from as int),
{
    let ghost before = bytes@;
    let mut i: usize = from;
    while i < bytes.len()
        invariant
            to <= from <= i <= bytes@.len(),
            bytes@.len() == before.len(),
            forall|j: int| 0 <= j < to ==> bytes@[j] == before[j],
            forall|j: int| 0 <= j < i - from ==> #[trigger] bytes@[to + j] == before[from + j],
            forall|j: int| i <= j < before.len() ==> bytes@[j] == before[j],
        decreases bytes.len() - i,
    {
        let b: u8 = bytes[i];
        bytes.set(to + (i - from), b);
        i = i + 1;
    }
    let len: usize = bytes.len() - (from - to);
    bytes.truncate(len);
    assert forall|j: int| 0 <= j < bytes@.len() implies bytes@[j] == (before.take(to as int)
        + before.skip(from as int))[j] by {
        if j >= to {
            assert(bytes@[to + (j - to)] == before[from + (j - to)]);
        }
    }
    assert(bytes@ =~= before.take(to as int) + before.skip(from as int));
}

/// Why an append or a restore was refused.
#[derive(Debug, Clone, Copy, PartialEq, Eq, Structural)]
pub enum KvError {
    WrongSize { expected: usize, got_k: usize, got_v: usize },
}

impl KvError {
    pub open spec fn message_text(self) -> Seq<char> {
        match self {
            KvError::WrongSize { expected, got_k, got_v } => "kv cache expected "@ + decimal(
                expected as nat,
            ) + " floats per position, got k="@ + decimal(got_k as nat) + " v="@ + decimal(
                got_v as nat,
            ),
        }
    }

    /// What the error says.
    pub fn message(&self) -> (text: String)
        ensures
            text@ == self.message_text(),
    {
        match self {
            KvError::WrongSize { expected, got_k, got_v } => {
                let mut text = String::new();
                text.append("kv cache expected ");
                push_decimal(&mut text, *expected as u64);
                text.append(" floats per position, got k=");
                push_decimal(&mut text, *got_k as u64);
                text.append(" v=");
                push_decimal(&mut text, *got_v as u64);
                assert(text@ =~= self.message_text());
                text
            },
        }
    }
}

/// What a [`KvCache`] holds.
#[verifier::ext_equal]
pub struct KvModel {
    /// Per layer, the keys of every position in order.
    pub k: Seq<Seq<u8>>,
    /// Per layer, the values of every position in order.
    pub v: Seq<Seq<u8>>,
    /// Positions declared.
    pub positions: int,
    /// Values per position and layer.
    pub per_position: int,
    pub kind: KvType,
    /// Values per head.
    pub row: int,
}

impl KvModel {
    pub open spec fn wf(self) -> bool {
        &&& self.k.len() == self.v.len()
        &&& 0 <= self.positions <= usize::MAX
        &&& 0 <= self.per_position <= usize::MAX
        &&& self.kind == KvType::Q8_0 ==> self.row % 32 == 0 && self.per_position % 32 == 0
    }

    /// Bytes per position and layer.
    pub open spec fn step(self) -> int {
        self.kind.size_of(self.per_position)
    }

    /// Every layer holds exactly the positions declared.
    pub open spec fn consistent(self) -> bool {
        &&& forall|i: int|
            0 <= i < self.k.len() ==> (#[trigger] self.k[i]).len() == self.kind.size_of(
                self.positions * self.per_position,
            )
        &&& forall|i: int|
            0 <= i < self.v.len() ==> (#[trigger] self.v[i]).len() == self.kind.size_of(
                self.positions * self.per_position,
            )
    }

    /// The history with one more position's `k` and `v` at the end of `layer`.
    pub open spec fn pushed(self, layer: int, k: Seq<u8>, v: Seq<u8>) -> KvModel {
        KvModel {
            k: self.k.update(layer, self.k[layer] + k),
            v: self.v.update(layer, self.v[layer] + v),
            ..self
        }
    }

    /// The history with its first `n` positions only.
    pub open spec fn truncated(self, n: int) -> KvModel {
        if n >= self.positions {
            self
        } else {
            let keep = self.step() * n;
            KvModel {
                k: self.k.map_values(|l: Seq<u8>| shortened(l, keep)),
                v: self.v.map_values(|l: Seq<u8>| shortened(l, keep)),
                positions: n,
                ..self
            }
        }
    }

    /// How many positions a shift of `drop` after `keep` takes out.
    pub open spec fn shift_width(self, keep: int, drop: int) -> int {
        if drop == 0 || keep >= self.positions {
            0
        } else if drop <= self.positions - keep {
            drop
        } else {
            self.positions - keep
        }
    }

    /// The history without positions `keep..keep + drop`, the later ones slid down.
    pub open spec fn shifted(self, keep: int, drop: int) -> KvModel {
        let width = self.shift_width(keep, drop);
        if width == 0 {
            self
        } else {
            let step = self.step();
            KvModel {
                k: self.k.map_values(
                    |l: Seq<u8>| l.take(keep * step) + l.skip((keep + width) * step),
                ),
                v: self.v.map_values(
                    |l: Seq<u8>| l.take(keep * step) + l.skip((keep + width) * step),
                ),
                positions: self.positions - width,
                ..self
            }
        }
    }

    /// Shifting out `drop` positions after `keep` stays within every layer.
    pub open spec fn can_shift(self, keep: int, drop: int) -> bool {
        let end = keep + self.shift_width(keep, drop);
        self.shift_width(keep, drop) > 0 ==> {
            &&& self.step() <= usize::MAX
            &&& end * self.step() <= usize::MAX
            &&& forall|i: int|
                0 <= i < self.k.len() ==> end * self.step() <= (#[trigger] self.k[i]).len()
            &&& forall|i: int|
                0 <= i < self.v.len() ==> end * self.step() <= (#[trigger] self.v[i]).len()
        }
    }

    /// `k` and `v` are a whole number of positions for an existing layer.
    pub open spec fn restores(self, layer: int, k: Seq<u8>, v: Seq<u8>) -> bool {
        &&& layer < self.k.len()
        &&& k.len() == v.len()
        &&& self.step() != 0
        &&& k.len() as int % self.step() == 0
    }

    /// The bytes of position `p` in one layer's history.
    pub open spec fn position_of(self, layer: Seq<u8>, p: int) -> Seq<u8> {
        layer.subrange(p * self.step(), (p + 1) * self.step())
    }
}

/// `s`, cut to at most `n` bytes.
pub open spec fn shortened(s: Seq<u8>, n: int) -> Seq<u8> {
    if n < s.len() {
        s.take(n)
    } else {
        s
    }
}

/// The bytes of `n` positions are `n` times the bytes of one.
pub proof fn positions_scale(m: KvModel, n: int)
    requires
        m.wf(),
        n >= 0,
    ensures
        m.kind.size_of(n * m.per_position) == n * m.step(),
{
    let per = m.per_position;
    if m.kind == KvType::F16 {
        assert((n * per) * 2 == n * (per * 2)) by (nonlinear_arith);
    } else {
        let blocks = per / 32;
        assert(per == blocks * 32);
        assert(n * per == (n * blocks) * 32) by (nonlinear_arith)
            requires
                per == blocks * 32,
        ;
        assert((n * per) / 32 == n * blocks);
        assert((n * blocks) * 34 == n * (blocks * 34)) by (nonlinear_arith);
    }
}

/// A row takes one position's worth of bytes.
pub proof fn a_row_fills_one_position(row: KvRow, m: KvModel)
    requires
        m.wf(),
        row.encodes(m.kind),
        row.values() == m.per_position,
    ensures
        row.bytes().len() == m.step(),
{
}

/// A block never spans two heads, or one head's scale would be applied to another
/// head's values.
pub proof fn blocks_stay_within_a_head(m: KvModel, block: int)
    requires
        m.wf(),
        m.kind == KvType::Q8_0,
        m.row > 0,
        block >= 0,
    ensures
        (block * 32) / m.row == (block * 32 + 31) / m.row,
{
    let row = m.row;
    let first = block * 32;
    let head = first / row;
    let inside = first % row;
    let width = row / 32;
    vstd::arithmetic::div_mod::lemma_fundamental_div_mod(first, row);
    assert(row == width * 32);
    assert(inside % 32 == 0) by {
        assert(first == row * head + inside);
        assert(row * head == 32 * (width * head)) by (nonlinear_arith)
            requires
                row == width * 32,
        ;
        assert(inside == 32 * (block - width * head));
    }
    assert(inside + 31 < row);
    vstd::arithmetic::div_mod::lemma_fundamental_div_mod_converse(
        first + 31,
        row,
        head,
        inside + 31,
    );
}

/// Appending a position to every layer and advancing keeps the cache consistent,
/// puts the position last and leaves the earlier ones where they were.
pub proof fn appending_to_every_layer_is_consistent(
    m: KvModel,
    after: KvModel,
    k: Seq<Seq<u8>>,
    v: Seq<Seq<u8>>,
)
    requires
        m.wf(),
        m.consistent(),
        k.len() == m.k.len(),
        v.len() == m.v.len(),
        forall|i: int| 0 <= i < k.len() ==> (#[trigger] k[i]).len() == m.step(),
        forall|i: int| 0 <= i < v.len() ==> (#[trigger] v[i]).len() == m.step(),
        after == (KvModel {
            k: Seq::new(m.k.len(), |i: int| m.k[i] + k[i]),
            v: Seq::new(m.v.len(), |i: int| m.v[i] + v[i]),
            positions: m.positions + 1,
            ..m
        }),
    ensures
        after.consistent(),
        forall|i: int|
            0 <= i < m.k.len() ==> after.position_of(#[trigger] after.k[i], m.positions) == k[i],
        forall|i: int, p: int|
            0 <= i < m.k.len() && 0 <= p < m.positions ==> #[trigger] after.position_of(
                after.k[i],
                p,
            ) == m.position_of(m.k[i], p),
{
    positions_scale(m, m.positions);
    positions_scale(m, m.positions + 1);
    let step = m.step();
    let n = m.positions;
    assert((n + 1) * step == n * step + step) by (nonlinear_arith);
    assert forall|i: int| 0 <= i < after.k.len() implies (#[trigger] after.k[i]).len()
        == after.kind.size_of(after.positions * after.per_position) by {
        assert(m.k[i].len() == n * step);
    }
    assert forall|i: int| 0 <= i < after.v.len() implies (#[trigger] after.v[i]).len()
        == after.kind.size_of(after.positions * after.per_position) by {
        assert(m.v[i].len() == n * step);
    }
    assert forall|i: int| 0 <= i < m.k.len() implies after.position_of(#[trigger] after.k[i], n)
        == k[i] by {
        assert(m.k[i].len() == n * step);
        assert(after.position_of(after.k[i], n) =~= k[i]);
    }
    assert forall|i: int, p: int| 0 <= i < m.k.len() && 0 <= p < n implies
        #[trigger] after.position_of(after.k[i], p) == m.position_of(m.k[i], p) by {
        assert(m.k[i].len() == n * step);
        assert(0 <= p * step <= (p + 1) * step <= n * step) by (nonlinear_arith)
            requires
                0 <= p < n,
                step >= 0,
        ;
        assert(after.position_of(after.k[i], p) =~= m.position_of(m.k[i], p));
    }
}

/// Cutting a consistent cache back keeps it consistent, with the first positions
/// unchanged.
pub proof fn truncating_keeps_the_head(m: KvModel, n: int)
    requires
        m.wf(),
        m.consistent(),
        0 <= n,
    ensures
        m.truncated(n).wf(),
        m.truncated(n).consistent(),
        m.truncated(n).positions == (if n < m.positions {
            n
        } else {
            m.positions
        }),
        forall|i: int, p: int|
            0 <= i < m.k.len() && 0 <= p < m.truncated(n).positions
                ==> #[trigger] m.truncated(n).position_of(m.truncated(n).k[i], p) == m.position_of(
                m.k[i],
                p,
            ),
{
    if n < m.positions {
        positions_scale(m, m.positions);
        positions_scale(m, n);
        let step = m.step();
        let after = m.truncated(n);
        assert(step * n == n * step && n * step <= m.positions * step) by (nonlinear_arith)
            requires
                0 <= n < m.positions,
                step >= 0,
        ;
        assert forall|i: int| 0 <= i < after.k.len() implies (#[trigger] after.k[i]).len() == n
            * step by {
            assert(m.k[i].len() == m.positions * step);
        }
        assert forall|i: int| 0 <= i < after.v.len() implies (#[trigger] after.v[i]).len() == n
            * step by {
            assert(m.v[i].len() == m.positions * step);
        }
        assert forall|i: int, p: int| 0 <= i < m.k.len() && 0 <= p < n implies
            #[trigger] after.position_of(after.k[i], p) == m.position_of(m.k[i], p) by {
            assert(m.k[i].len() == m.positions * step);
            assert(0 <= p * step <= (p + 1) * step <= n * step) by (nonlinear_arith)
                requires
                    0 <= p < n,
                    step >= 0,
            ;
            assert(after.position_of(after.k[i], p) =~= m.position_of(m.k[i], p));
        }
    }
}

/// Shifting out everything behind `keep`, however much more is asked for, is cutting back
/// to it.
pub proof fn shifting_past_the_end_truncates(m: KvModel, keep: int, drop: int)
    requires
        m.wf(),
        m.consistent(),
        0 <= keep < m.positions,
        drop >= m.positions - keep,
    ensures
        m.shifted(keep, drop) == m.truncated(keep),
{
    let step = m.step();
    let cut = m.truncated(keep);
    let shifted = m.shifted(keep, drop);
    positions_scale(m, m.positions);
    assert(keep * step == step * keep && 0 <= keep * step <= m.positions * step)
        by (nonlinear_arith)
        requires
            0 <= keep < m.positions,
            step >= 0,
    ;
    let width = m.shift_width(keep, drop);
    assert(keep + width == m.positions);
    assert forall|i: int| 0 <= i < m.k.len() implies shifted.k[i] == cut.k[i] by {
        assert(m.k[i].len() == m.positions * step);
        assert(shifted.k[i] =~= m.k[i].take(keep * step));
        assert(cut.k[i] =~= m.k[i].take(keep * step));
    }
    assert forall|i: int| 0 <= i < m.v.len() implies shifted.v[i] == cut.v[i] by {
        assert(m.v[i].len() == m.positions * step);
        assert(shifted.v[i] =~= m.v[i].take(keep * step));
        assert(cut.v[i] =~= m.v[i].take(keep * step));
    }
    assert(shifted.k =~= cut.k);
    assert(shifted.v =~= cut.v);
}

/// The history `m` with the layers below `n` restored from `src`.
pub open spec fn restored_below(m: KvModel, src: KvModel, n: int) -> KvModel
    decreases n,
{
    if n <= 0 {
        m
    } else {
        let before = restored_below(m, src, n - 1);
        KvModel {
            k: before.k.update(n - 1, src.k[n - 1]),
            v: before.v.update(n - 1, src.v[n - 1]),
            ..before
        }
    }
}

proof fn restoring_below(m: KvModel, src: KvModel, n: int)
    requires
        m.wf(),
        src.wf(),
        m.k.len() == src.k.len(),
        0 <= n <= src.k.len(),
    ensures
        ({
            let after = restored_below(m, src, n);
            &&& after == (KvModel { k: after.k, v: after.v, ..m })
            &&& after.k.len() == src.k.len()
            &&& after.v.len() == src.v.len()
            &&& forall|i: int| 0 <= i < n ==> #[trigger] after.k[i] == src.k[i]
            &&& forall|i: int| 0 <= i < n ==> #[trigger] after.v[i] == src.v[i]
        }),
    decreases n,
{
    if n > 0 {
        restoring_below(m, src, n - 1);
    }
}

/// A consistent history copied layer by layer into another of its shape, whatever that
/// held, and declared to be as long, is that history: every layer is accepted.
pub proof fn restoring_every_layer_gives_the_source(m: KvModel, src: KvModel)
    requires
        m.wf(),
        src.wf(),
        src.consistent(),
        src.per_position > 0,
        m.k.len() == src.k.len(),
        m.per_position == src.per_position,
        m.kind == src.kind,
        m.row == src.row,
    ensures
        forall|l: int|
            0 <= l < src.k.len() ==> (#[trigger] restored_below(m, src, l)).restores(
                l,
                src.k[l],
                src.v[l],
            ),
        (KvModel {
            positions: src.positions,
            ..restored_below(m, src, src.k.len() as int)
        }) == src,
{
    let step = src.step();
    positions_scale(src, src.positions);
    assert forall|l: int| 0 <= l < src.k.len() implies (#[trigger] restored_below(
        m,
        src,
        l,
    )).restores(l, src.k[l], src.v[l]) by {
        restoring_below(m, src, l);
        assert(src.k[l].len() == src.positions * step);
        assert(src.v[l].len() == src.positions * step);
        vstd::arithmetic::div_mod::lemma_mod_multiples_basic(src.positions, step);
    }
    restoring_below(m, src, src.k.len() as int);
    let after = restored_below(m, src, src.k.len() as int);
    assert(after.k =~= src.k);
    assert(after.v =~= src.v);
}

/// Shifting keeps a consistent cache consistent: the first `keep` positions stay
/// where they are and every later one moves down by the width of the shift.
pub proof fn shifting_keeps_the_head_and_slides_the_tail(m: KvModel, keep: int, drop: int)
    requires
        m.wf(),
        m.consistent(),
        0 <= keep,
        0 <= drop,
        m.positions * m.step() <= usize::MAX,
        m.step() <= usize::MAX,
    ensures
        m.can_shift(keep, drop),
        m.shifted(keep, drop).wf(),
        m.shifted(keep, drop).consistent(),
        m.shifted(keep, drop).positions == m.positions - m.shift_width(keep, drop),
        forall|i: int, p: int|
            0 <= i < m.k.len() && 0 <= p < m.shifted(keep, drop).positions
                ==> #[trigger] m.shifted(keep, drop).position_of(m.shifted(keep, drop).k[i], p)
                == m.position_of(
                m.k[i],
                if p < keep {
                    p
                } else {
                    p + m.shift_width(keep, drop)
                },
            ),
{
    let width = m.shift_width(keep, drop);
    if width > 0 {
        let step = m.step();
        let n = m.positions;
        let after = m.shifted(keep, drop);
        positions_scale(m, n);
        positions_scale(m, n - width);
        assert(0 <= keep * step <= (keep + width) * step <= n * step) by (nonlinear_arith)
            requires
                0 <= keep,
                0 < width,
                keep + width <= n,
                step >= 0,
        ;
        assert(n * step - (keep + width) * step + keep * step == (n - width) * step)
            by (nonlinear_arith);
        assert forall|i: int| 0 <= i < m.k.len() implies (#[trigger] m.k[i]).len() == n * step by {}
        assert forall|i: int| 0 <= i < m.v.len() implies (#[trigger] m.v[i]).len() == n * step by {}
        assert forall|i: int| 0 <= i < after.k.len() implies (#[trigger] after.k[i]).len() == (n
            - width) * step by {
            assert(m.k[i].len() == n * step);
        }
        assert forall|i: int| 0 <= i < after.v.len() implies (#[trigger] after.v[i]).len() == (n
            - width) * step by {
            assert(m.v[i].len() == n * step);
        }
        assert forall|i: int, p: int|
            0 <= i < m.k.len() && 0 <= p < n - width implies #[trigger] after.position_of(
            after.k[i],
            p,
        ) == m.position_of(
            m.k[i],
            if p < keep {
                p
            } else {
                p + width
            },
        ) by {
            assert(m.k[i].len() == n * step);
            if p < keep {
                assert(0 <= p * step <= (p + 1) * step <= keep * step) by (nonlinear_arith)
                    requires
                        0 <= p < keep,
                        step >= 0,
                ;
                assert(after.position_of(after.k[i], p) =~= m.position_of(m.k[i], p));
            } else {
                assert(keep * step <= p * step && (p + 1) * step <= (n - width) * step && p * step
                    - keep * step + (keep + width) * step == (p + width) * step && (p + 1) * step
                    - keep * step + (keep + width) * step == (p + 1 + width) * step)
                    by (nonlinear_arith)
                    requires
                        keep <= p < n - width,
                        step >= 0,
                ;
                assert((p + 1) * step == p * step + step) by (nonlinear_arith);
                assert((p + width + 1) * step == (p + width) * step + step) by (nonlinear_arith);
                assert(after.position_of(after.k[i], p) =~= m.position_of(m.k[i], p + width));
            }
        }
    } else {
        assert forall|i: int, p: int|
            0 <= i < m.k.len() && 0 <= p < m.positions implies #[trigger] m.shifted(
            keep,
            drop,
        ).position_of(m.shifted(keep, drop).k[i], p) == m.position_of(
            m.k[i],
            if p < keep {
                p
            } else {
                p + width
            },
        ) by {}
    }
}

/// Stored keys and values for every layer.
pub struct KvCache {
    k: Vec<Vec<u8>>,
    v: Vec<Vec<u8>>,
    n_positions: usize,
    per_position: usize,
    kind: KvType,
    row: usize,
}

/// The bytes in each of several buffers.
pub open spec fn contents(layers: Seq<Vec<u8>>) -> Seq<Seq<u8>> {
    layers.map_values(|l: Vec<u8>| l@)
}

/// Bytes held by several buffers together.
pub open spec fn held(layers: Seq<Seq<u8>>) -> nat
    decreases layers.len(),
{
    if layers.len() == 0 {
        0
    } else {
        held(layers.drop_last()) + layers.last().len()
    }
}

/// Some of the buffers hold no more than all of them.
proof fn held_grows(layers: Seq<Seq<u8>>, n: int)
    requires
        0 <= n <= layers.len(),
    ensures
        held(layers.take(n)) <= held(layers),
    decreases layers.len() - n,
{
    if n < layers.len() {
        held_grows(layers, n + 1);
        assert(layers.take(n + 1).drop_last() =~= layers.take(n));
    } else {
        assert(layers.take(n) =~= layers);
    }
}

fn held_bytes(layers: &Vec<Vec<u8>>) -> (bytes: usize)
    requires
        held(contents(layers@)) <= usize::MAX,
    ensures
        bytes == held(contents(layers@)),
{
    let ghost all = contents(layers@);
    let mut bytes: usize = 0;
    let mut i: usize = 0;
    while i < layers.len()
        invariant
            i <= layers.len(),
            all == contents(layers@),
            bytes == held(all.take(i as int)),
            held(all) <= usize::MAX,
        decreases layers.len() - i,
    {
        proof {
            held_grows(all, i + 1);
            assert(all.take(i + 1).drop_last() =~= all.take(i as int));
        }
        bytes = bytes + layers[i].len();
        i = i + 1;
    }
    assert(all.take(i as int) =~= all);
    bytes
}

fn empty_layers(n: usize) -> (layers: Vec<Vec<u8>>)
    ensures
        contents(layers@) == Seq::new(n as nat, |i: int| Seq::<u8>::empty()),
{
    let mut layers: Vec<Vec<u8>> = Vec::new();
    let mut i: usize = 0;
    while i < n
        invariant
            i <= n,
            contents(layers@) == Seq::new(i as nat, |i: int| Seq::<u8>::empty()),
        decreases n - i,
    {
        let ghost was = layers@;
        layers.push(Vec::new());
        i = i + 1;
        assert(contents(layers@) =~= contents(was).push(Seq::<u8>::empty()));
        assert(contents(layers@) =~= Seq::new(i as nat, |i: int| Seq::<u8>::empty()));
    }
    layers
}

fn truncate_layers(layers: &mut Vec<Vec<u8>>, keep: usize)
    ensures
        contents(final(layers)@) == contents(old(layers)@).map_values(
            |l: Seq<u8>| shortened(l, keep as int),
        ),
{
    let ghost before = contents(layers@);
    let mut i: usize = 0;
    while i < layers.len()
        invariant
            i <= layers.len(),
            layers@.len() == before.len(),
            forall|j: int| 0 <= j < i ==> (#[trigger] layers@[j])@ == shortened(before[j], keep as int),
            forall|j: int| i <= j < before.len() ==> (#[trigger] layers@[j])@ == before[j],
        decreases layers.len() - i,
    {
        layers[i].truncate(keep);
        assert(layers@[i as int]@ =~= shortened(before[i as int], keep as int));
        i = i + 1;
    }
    assert(contents(layers@) =~= before.map_values(|l: Seq<u8>| shortened(l, keep as int)));
}

fn cut_layers(layers: &mut Vec<Vec<u8>>, to: usize, from: usize)
    requires
        to <= from,
        forall|i: int| 0 <= i < old(layers)@.len() ==> from <= (#[trigger] old(layers)@[i])@.len(),
    ensures
        contents(final(layers)@) == contents(old(layers)@).map_values(
            |l: Seq<u8>| l.take(to as int) + l.skip(from as int),
        ),
{
    let ghost before = contents(layers@);
    assert forall|j: int| 0 <= j < before.len() implies from <= (#[trigger] before[j]).len() by {
        assert(before[j] == layers@[j]@);
    }
    let mut i: usize = 0;
    while i < layers.len()
        invariant
            i <= layers.len(),
            to <= from,
            layers@.len() == before.len(),
            forall|j: int|
                0 <= j < i ==> (#[trigger] layers@[j])@ == before[j].take(to as int)
                    + before[j].skip(from as int),
            forall|j: int| i <= j < before.len() ==> (#[trigger] layers@[j])@ == before[j],
            forall|j: int| 0 <= j < before.len() ==> from <= (#[trigger] before[j]).len(),
        decreases layers.len() - i,
    {
        assert(layers@[i as int]@ == before[i as int]);
        cut(&mut layers[i], to, from);
        i = i + 1;
    }
    assert(contents(layers@) =~= before.map_values(
        |l: Seq<u8>| l.take(to as int) + l.skip(from as int),
    ));
}

fn copy_bytes(bytes: &[u8]) -> (out: Vec<u8>)
    ensures
        out@ == bytes@,
{
    let mut out: Vec<u8> = Vec::new();
    out.extend_from_slice(bytes);
    assert(out@ =~= bytes@);
    out
}

fn all_sized(layers: &Vec<Vec<u8>>, size: usize) -> (yes: bool)
    ensures
        yes == (forall|i: int|
            0 <= i < layers@.len() ==> (#[trigger] contents(layers@)[i]).len() == size),
{
    let mut i: usize = 0;
    while i < layers.len()
        invariant
            i <= layers.len(),
            forall|j: int| 0 <= j < i ==> (#[trigger] contents(layers@)[j]).len() == size,
        decreases layers.len() - i,
    {
        if layers[i].len() != size {
            assert(contents(layers@)[i as int].len() != size);
            return false;
        }
        i = i + 1;
    }
    true
}

impl View for KvCache {
    type V = KvModel;

    closed spec fn view(&self) -> KvModel {
        KvModel {
            k: contents(self.k@),
            v: contents(self.v@),
            positions: self.n_positions as int,
            per_position: self.per_position as int,
            kind: self.kind,
            row: self.row as int,
        }
    }
}

/// What `with_type` stores when `kind` is asked for: `Q8_0` only where a head holds
/// whole blocks.
pub open spec fn honoured(kind: KvType, head_dim: int) -> KvType {
    if kind == KvType::Q8_0 && head_dim % 32 != 0 {
        KvType::F16
    } else {
        kind
    }
}

impl KvCache {
    /// A cache storing f16.
    pub fn new(n_layer: usize, n_kv_heads: usize, head_dim: usize) -> (cache: Self)
        requires
            n_kv_heads * head_dim <= usize::MAX,
        ensures
            cache@.wf(),
            cache@ == (KvModel {
                k: Seq::new(n_layer as nat, |i: int| Seq::<u8>::empty()),
                v: Seq::new(n_layer as nat, |i: int| Seq::<u8>::empty()),
                positions: 0,
                per_position: n_kv_heads * head_dim,
                kind: KvType::F16,
                row: head_dim as int,
            }),
    {
        Self::with_type(n_layer, n_kv_heads, head_dim, KvType::F16)
    }

    /// A cache storing `kind`.
    ///
    /// `Q8_0` needs `head_dim` to be a multiple of 32, or a row does not hold whole
    /// blocks and the quantisation boundaries fall inside a head; such a model is
    /// stored as f16 rather than silently misquantised.
    pub fn with_type(n_layer: usize, n_kv_heads: usize, head_dim: usize, kind: KvType) -> (cache:
        Self)
        requires
            n_kv_heads * head_dim <= usize::MAX,
        ensures
            cache@.wf(),
            cache@ == (KvModel {
                k: Seq::new(n_layer as nat, |i: int| Seq::<u8>::empty()),
                v: Seq::new(n_layer as nat, |i: int| Seq::<u8>::empty()),
                positions: 0,
                per_position: n_kv_heads * head_dim,
                kind: honoured(kind, head_dim as int),
                row: head_dim as int,
            }),
    {
        let kind = if kind == KvType::Q8_0 && head_dim % 32 != 0 {
            KvType::F16
        } else {
            kind
        };
        proof {
            if kind == KvType::Q8_0 {
                vstd::arithmetic::div_mod::lemma_mul_mod_noop_right(
                    n_kv_heads as int,
                    head_dim as int,
                    32,
                );
                let heads = n_kv_heads as int;
                let rest = head_dim as int % 32;
                assert(heads * rest == 0) by (nonlinear_arith)
                    requires
                        rest == 0,
                ;
            }
        }
        KvCache {
            k: empty_layers(n_layer),
            v: empty_layers(n_layer),
            n_positions: 0,
            per_position: n_kv_heads * head_dim,
            kind,
            row: head_dim,
        }
    }

    /// What this cache stores. `with_type` may have refused what was asked for.
    pub fn kind(&self) -> (kind: KvType)
        ensures
            kind == self@.kind,
    {
        self.kind
    }

    /// Positions currently held.
    pub fn len(&self) -> (n: usize)
        ensures
            n == self@.positions,
    {
        self.n_positions
    }

    pub fn is_empty(&self) -> (empty: bool)
        ensures
            empty == (self@.positions == 0),
    {
        self.n_positions == 0
    }

    /// Values stored per position per layer.
    pub fn per_position(&self) -> (n: usize)
        ensures
            n == self@.per_position,
    {
        self.per_position
    }

    /// Total bytes held, for reporting against the memory budget.
    pub fn bytes(&self) -> (bytes: usize)
        requires
            held(self@.k) + held(self@.v) <= usize::MAX,
        ensures
            bytes == held(self@.k) + held(self@.v),
    {
        held_bytes(&self.k) + held_bytes(&self.v)
    }

    /// Append one position's keys and values for `layer`.
    ///
    /// Refused rather than accepted when a row is the wrong length: a short append
    /// would silently misalign every later position.
    pub fn push(&mut self, layer: usize, k: &KvRow, v: &KvRow) -> (done: Result<(), KvError>)
        requires
            old(self)@.wf(),
            k.encodes(old(self)@.kind),
            v.encodes(old(self)@.kind),
            k.values() == old(self)@.per_position && v.values() == old(self)@.per_position ==> layer
                < old(self)@.k.len(),
        ensures
            final(self)@.wf(),
            k.values() == old(self)@.per_position && v.values() == old(self)@.per_position
                ==> done is Ok && final(self)@ == old(self)@.pushed(
                layer as int,
                k.bytes(),
                v.bytes(),
            ),
            !(k.values() == old(self)@.per_position && v.values() == old(self)@.per_position)
                ==> final(self)@ == old(self)@ && done == Err::<(), KvError>(
                KvError::WrongSize {
                    expected: old(self)@.per_position as usize,
                    got_k: k.values() as usize,
                    got_v: v.values() as usize,
                },
            ),
    {
        if k.len() != self.per_position || v.len() != self.per_position {
            return Err(
                KvError::WrongSize {
                    expected: self.per_position,
                    got_k: k.len(),
                    got_v: v.len(),
                },
            );
        }
        append_row(&mut self.k[layer], k);
        append_row(&mut self.v[layer], v);
        assert(self@ =~= old(self)@.pushed(layer as int, k.bytes(), v.bytes()));
        Ok(())
    }

    /// Mark that a position has been appended to every layer.
    ///
    /// Separate from [`Self::push`] so the count advances once per token rather than
    /// once per layer.
    pub fn advance(&mut self)
        requires
            old(self)@.wf(),
            old(self)@.positions < usize::MAX,
        ensures
            final(self)@.wf(),
            final(self)@ == (KvModel { positions: old(self)@.positions + 1, ..old(self)@ }),
    {
        self.n_positions = self.n_positions + 1;
    }

    /// Advance by several positions at once: a prompt is appended whole before any
    /// token is generated.
    pub fn advance_by(&mut self, n: usize)
        requires
            old(self)@.wf(),
            old(self)@.positions + n <= usize::MAX,
        ensures
            final(self)@.wf(),
            final(self)@ == (KvModel { positions: old(self)@.positions + n, ..old(self)@ }),
    {
        self.n_positions = self.n_positions + n;
    }

    /// Raw bytes for a layer's keys, ready to fill a tensor of [`Self::kind`].
    pub fn keys(&self, layer: usize) -> (bytes: &[u8])
        requires
            layer < self@.k.len(),
        ensures
            bytes@ == self@.k[layer as int],
    {
        self.k[layer].as_slice()
    }

    /// Raw bytes for a layer's values.
    pub fn values(&self, layer: usize) -> (bytes: &[u8])
        requires
            layer < self@.v.len(),
        ensures
            bytes@ == self@.v[layer as int],
    {
        self.v[layer].as_slice()
    }

    /// Drop everything, for starting a new sequence.
    pub fn clear(&mut self)
        requires
            old(self)@.wf(),
        ensures
            final(self)@.wf(),
            final(self)@ == (KvModel {
                k: Seq::new(old(self)@.k.len(), |i: int| Seq::<u8>::empty()),
                v: Seq::new(old(self)@.v.len(), |i: int| Seq::<u8>::empty()),
                positions: 0,
                ..old(self)@
            }),
    {
        let layers: usize = self.k.len();
        self.k = empty_layers(layers);
        self.v = empty_layers(layers);
        self.n_positions = 0;
    }

    /// Number of layers, so a saved cache can be checked before it is trusted.
    pub fn layers(&self) -> (n: usize)
        ensures
            n == self@.k.len(),
    {
        self.k.len()
    }

    /// Replace one layer's stored bytes: restoring a saved prompt cache.
    ///
    /// Rejects a length that is not a whole number of positions, because a truncated
    /// restore would misalign every position after it.
    pub fn restore_layer(&mut self, layer: usize, k: &[u8], v: &[u8]) -> (done: Result<
        (),
        KvError,
    >)
        requires
            old(self)@.wf(),
            old(self)@.step() <= usize::MAX,
        ensures
            final(self)@.wf(),
            old(self)@.restores(layer as int, k@, v@) ==> done is Ok && final(self)@ == (KvModel {
                k: old(self)@.k.update(layer as int, k@),
                v: old(self)@.v.update(layer as int, v@),
                ..old(self)@
            }),
            !old(self)@.restores(layer as int, k@, v@) ==> final(self)@ == old(self)@ && done
                == Err::<(), KvError>(
                KvError::WrongSize {
                    expected: old(self)@.step() as usize,
                    got_k: k@.len() as usize,
                    got_v: v@.len() as usize,
                },
            ),
    {
        let step: usize = self.kind.bytes_for(self.per_position);
        if layer >= self.k.len() || k.len() != v.len() || step == 0 || k.len() % step != 0 {
            return Err(KvError::WrongSize { expected: step, got_k: k.len(), got_v: v.len() });
        }
        let new_k = copy_bytes(k);
        let new_v = copy_bytes(v);
        self.k.set(layer, new_k);
        self.v.set(layer, new_v);
        assert(self@ =~= (KvModel {
            k: old(self)@.k.update(layer as int, k@),
            v: old(self)@.v.update(layer as int, v@),
            ..old(self)@
        }));
        Ok(())
    }

    /// Declare how many positions the restored bytes cover.
    pub fn set_positions(&mut self, n: usize)
        requires
            old(self)@.wf(),
        ensures
            final(self)@.wf(),
            final(self)@ == (KvModel { positions: n as int, ..old(self)@ }),
    {
        self.n_positions = n;
    }

    /// Keep only the first `n` positions.
    ///
    /// A saved cache is reusable exactly as far as its tokens match the new prompt;
    /// past the first difference every stored key is conditioned on text that is no
    /// longer there.
    pub fn truncate_to(&mut self, n: usize)
        requires
            old(self)@.wf(),
            n < old(self)@.positions ==> old(self)@.step() <= usize::MAX && old(self)@.step() * n
                <= usize::MAX,
        ensures
            final(self)@.wf(),
            final(self)@ == old(self)@.truncated(n as int),
    {
        if n >= self.n_positions {
            return ;
        }
        let keep: usize = self.kind.bytes_for(self.per_position) * n;
        truncate_layers(&mut self.k, keep);
        truncate_layers(&mut self.v, keep);
        self.n_positions = n;
        assert(self@ =~= old(self)@.truncated(n as int));
    }

    /// Drop `drop` positions starting at `keep`, sliding the rest down.
    ///
    /// The first `keep` positions stay, the oldest `drop` after them are discarded, and
    /// everything later slides back so the sequence is contiguous again. The keys that
    /// slide are not re-encoded: each still carries the rotation of the position it was
    /// computed at, so shifted history is approximate.
    pub fn shift_out(&mut self, keep: usize, drop: usize)
        requires
            old(self)@.wf(),
            old(self)@.can_shift(keep as int, drop as int),
        ensures
            final(self)@.wf(),
            final(self)@ == old(self)@.shifted(keep as int, drop as int),
    {
        if drop == 0 || keep >= self.n_positions {
            return ;
        }
        let drop: usize = if drop <= self.n_positions - keep {
            drop
        } else {
            self.n_positions - keep
        };
        let step: usize = self.kind.bytes_for(self.per_position);
        proof {
            vstd::arithmetic::mul::lemma_mul_inequality(
                keep as int,
                keep + drop,
                step as int,
            );
        }
        let from: usize = (keep + drop) * step;
        let to: usize = keep * step;
        assert forall|i: int| 0 <= i < self.k@.len() implies from <= (#[trigger] self.k@[i])@.len() by {
            assert(self@.k[i] == self.k@[i]@);
        }
        assert forall|i: int| 0 <= i < self.v@.len() implies from <= (#[trigger] self.v@[i])@.len() by {
            assert(self@.v[i] == self.v@[i]@);
        }
        cut_layers(&mut self.k, to, from);
        cut_layers(&mut self.v, to, from);
        self.n_positions = self.n_positions - drop;
        assert(self@ =~= old(self)@.shifted(keep as int, drop as int));
    }

    /// Whether every layer holds the positions declared.
    ///
    /// A layer falling behind means it silently skipped its append, which would make
    /// attention read stale history for the rest of the run.
    pub fn is_consistent(&self) -> (yes: bool)
        requires
            self@.wf(),
            self@.positions * self@.per_position <= usize::MAX,
            self@.kind.size_of(self@.positions * self@.per_position) <= usize::MAX,
        ensures
            yes == self@.consistent(),
    {
        let expected: usize = self.kind.bytes_for(self.n_positions * self.per_position);
        all_sized(&self.k, expected) && all_sized(&self.v, expected)
    }
}

} // verus!
