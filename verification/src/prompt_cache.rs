//! A saved key/value history, so that a repeated prompt does not pay its prefill twice.
//!
//! ```text
//! "BTPC" u32 version  u64 fingerprint  u32 kind  u32 layers
//! u32 positions       u32 n_tokens     [u32; n_tokens] tokens
//! per layer: u64 len, k bytes, u64 len, v bytes
//! ```
//!
//! Numbers are little-endian. The fingerprint is the shape the history was built with:
//! restoring keys that another model computed is not an error anywhere downstream, so a
//! mismatch discards the file rather than using part of it.
//!
//! Every field is checked, the kind as part of the fingerprint and the positions against
//! the bytes of each layer, and an inconsistent file is not used. A history that claims
//! positions it does not hold would have attention read past what was stored.
use crate::kv::{KvCache, KvType};
#[allow(unused_imports)]
use crate::kv::KvModel;
use crate::qwen3::Qwen3Config;
use vstd::prelude::*;

verus! {

// ------------------------------------------------------------------- little-endian

/// The low `n` bytes of `x`, least significant first.
pub open spec fn le(x: nat, n: nat) -> Seq<u8>
    decreases n,
{
    if n == 0 {
        Seq::empty()
    } else {
        seq![(x % 256) as u8] + le(x / 256, (n - 1) as nat)
    }
}

/// The number that bytes spell, least significant first.
pub open spec fn le_value(bytes: Seq<u8>) -> nat
    decreases bytes.len(),
{
    if bytes.len() == 0 {
        0
    } else {
        bytes[0] as nat + 256 * le_value(bytes.skip(1))
    }
}

/// 256 to the `n`.
pub open spec fn byte_power(n: nat) -> nat
    decreases n,
{
    if n == 0 {
        1
    } else {
        256 * byte_power((n - 1) as nat)
    }
}

/// A number of at most `n` bytes reads back as itself.
pub proof fn le_reads_back(x: nat, n: nat)
    requires
        x < byte_power(n),
    ensures
        le(x, n).len() == n,
        le_value(le(x, n)) == x,
    decreases n,
{
    if n > 0 {
        let rest = (n - 1) as nat;
        assert(x / 256 < byte_power(rest)) by {
            vstd::arithmetic::div_mod::lemma_fundamental_div_mod(x as int, 256);
        }
        le_reads_back(x / 256, rest);
        assert(le(x, n).skip(1) =~= le(x / 256, rest));
    }
}

proof fn le_is_long(x: nat, n: nat)
    ensures
        le(x, n).len() == n,
    decreases n,
{
    if n > 0 {
        le_is_long(x / 256, (n - 1) as nat);
    }
}

proof fn powers()
    ensures
        byte_power(4) == 0x1_0000_0000,
        byte_power(8) == 0x1_0000_0000_0000_0000,
{
    reveal_with_fuel(byte_power, 9);
}

proof fn value_is_bounded(bytes: Seq<u8>)
    ensures
        le_value(bytes) < byte_power(bytes.len()),
    decreases bytes.len(),
{
    if bytes.len() > 0 {
        value_is_bounded(bytes.skip(1));
        assert(byte_power(bytes.len()) == 256 * byte_power((bytes.len() - 1) as nat));
    }
}

fn push_le(out: &mut Vec<u8>, x: u64, n: usize)
    ensures
        final(out)@ == old(out)@ + le(x as nat, n as nat),
{
    let ghost before = out@;
    let mut rest: u64 = x;
    let mut i: usize = 0;
    assert(out@ + le(rest as nat, n as nat) =~= before + le(x as nat, n as nat));
    while i < n
        invariant
            i <= n,
            out@ + le(rest as nat, (n - i) as nat) == before + le(x as nat, n as nat),
        decreases n - i,
    {
        let ghost was = out@;
        out.push((rest % 256) as u8);
        assert(out@ + le((rest / 256) as nat, (n - i - 1) as nat) =~= was + le(
            rest as nat,
            (n - i) as nat,
        ));
        rest = rest / 256;
        i = i + 1;
    }
    assert(out@ =~= before + le(x as nat, n as nat));
}

fn read_le(bytes: &[u8], at: usize, n: usize) -> (x: u64)
    requires
        n <= 8,
        at + n <= bytes@.len(),
    ensures
        x == le_value(bytes@.subrange(at as int, at + n)),
{
    let len: usize = bytes.len();
    let mut x: u64 = 0;
    let mut i: usize = n;
    assert(bytes@.subrange(at + n, at + n).len() == 0);
    while i > 0
        invariant
            i <= n <= 8,
            len == bytes@.len(),
            at + n <= len,
            x == le_value(bytes@.subrange(at + i, at + n)),
        decreases i,
    {
        let ghost tail = bytes@.subrange(at + i, at + n);
        i = i - 1;
        proof {
            let longer = bytes@.subrange(at + i, at + n);
            assert(longer.skip(1) =~= tail);
            value_is_bounded(longer);
            powers_grow(longer.len(), 8);
            powers();
        }
        x = x * 256 + bytes[at + i] as u64;
    }
    x
}

proof fn powers_grow(a: nat, b: nat)
    requires
        a <= b,
    ensures
        byte_power(a) <= byte_power(b),
        byte_power(a) >= 1,
    decreases b,
{
    if a < b {
        powers_grow(a, (b - 1) as nat);
    } else if a > 0 {
        powers_grow((a - 1) as nat, (b - 1) as nat);
    }
}

// --------------------------------------------------------------------- fingerprint

/// One step of the FNV-1a hash over 64-bit parts.
pub open spec fn fnv(hash: u64, part: u64) -> u64 {
    (hash ^ part).wrapping_mul(0x0000_0100_0000_01b3)
}

/// The hash of the first `n` of `parts`.
pub open spec fn hashed(parts: Seq<u64>, n: int) -> u64
    decreases n,
{
    if n <= 0 {
        0xcbf2_9ce4_8422_2325
    } else {
        fnv(hashed(parts, n - 1), parts[n - 1])
    }
}

/// The shape a history depends on.
pub open spec fn shape_parts(c: Qwen3Config, kind: KvType) -> Seq<u64> {
    seq![
        c.n_layer as u64,
        c.n_embd as u64,
        c.n_head as u64,
        c.n_head_kv as u64,
        c.head_dim as u64,
        c.vocab_size as u64,
        kind_id(kind) as u64,
    ]
}

/// The tensor library's id of a storage kind.
pub open spec fn kind_id(kind: KvType) -> u32 {
    match kind {
        KvType::F16 => 1,
        KvType::Q8_0 => 8,
    }
}

// ------------------------------------------------------------------------- format

/// `BTPC`.
pub open spec fn magic() -> Seq<u8> {
    seq![0x42u8, 0x54, 0x50, 0x43]
}

/// The format's version.
pub const VERSION: u32 = 1;

/// Token ids, four bytes each.
pub open spec fn token_bytes(tokens: Seq<u32>) -> Seq<u8>
    decreases tokens.len(),
{
    if tokens.len() == 0 {
        Seq::empty()
    } else {
        token_bytes(tokens.drop_last()) + le(tokens.last() as nat, 4)
    }
}

/// A run of bytes behind its length.
pub open spec fn run_bytes(run: Seq<u8>) -> Seq<u8> {
    le(run.len(), 8) + run
}

/// One layer's keys, then its values.
pub open spec fn layer_bytes(k: Seq<u8>, v: Seq<u8>) -> Seq<u8> {
    run_bytes(k) + run_bytes(v)
}

/// The layers from `from` on.
pub open spec fn layers_bytes(k: Seq<Seq<u8>>, v: Seq<Seq<u8>>, from: int) -> Seq<u8>
    decreases k.len() - from,
{
    if from < 0 || from >= k.len() {
        Seq::empty()
    } else {
        layer_bytes(k[from], v[from]) + layers_bytes(k, v, from + 1)
    }
}

/// The fixed part of a file.
pub open spec fn header_bytes(fingerprint: u64, m: KvModel, n_tokens: nat) -> Seq<u8> {
    magic() + le(VERSION as nat, 4) + le(fingerprint as nat, 8) + le(kind_id(m.kind) as nat, 4) + le(
        (m.k.len() as u32) as nat,
        4,
    ) + le((m.positions as u32) as nat, 4) + le((n_tokens as u32) as nat, 4)
}

/// A whole file: the history `m`, covering `tokens`.
pub open spec fn saved_bytes(fingerprint: u64, m: KvModel, tokens: Seq<u32>) -> Seq<u8> {
    header_bytes(fingerprint, m, tokens.len()) + token_bytes(tokens) + layers_bytes(m.k, m.v, 0)
}

/// The number in the `n` bytes at `at`.
pub open spec fn number_at(data: Seq<u8>, at: int, n: int) -> nat {
    le_value(data.subrange(at, at + n))
}

/// Where the run of bytes at `at` ends; `None` where the data does.
pub open spec fn run_end(data: Seq<u8>, at: int) -> Option<int> {
    if at + 8 > data.len() || at + 8 + number_at(data, at, 8) > data.len() {
        None
    } else {
        Some(at + 8 + number_at(data, at, 8))
    }
}

/// `n` layers read from `at`.
pub open spec fn read_layers(data: Seq<u8>, at: int, n: nat) -> Option<Seq<(Seq<u8>, Seq<u8>)>>
    decreases n,
{
    if n == 0 {
        Some(Seq::empty())
    } else {
        match run_end(data, at) {
            None => None,
            Some(mid) => match run_end(data, mid) {
                None => None,
                Some(end) => match read_layers(data, end, (n - 1) as nat) {
                    None => None,
                    Some(rest) => Some(
                        seq![(data.subrange(at + 8, mid), data.subrange(mid + 8, end))] + rest,
                    ),
                },
            },
        }
    }
}

/// The fixed part is whole and is the one asked for.
pub open spec fn header_fits(data: Seq<u8>, want: u64) -> bool {
    &&& data.len() >= 32
    &&& data.subrange(0, 4) == magic()
    &&& number_at(data, 4, 4) == VERSION
    &&& number_at(data, 8, 8) == want
}

/// The token ids of a file whose fixed part fits.
pub open spec fn read_tokens(data: Seq<u8>, n: nat) -> Seq<u32> {
    Seq::new(n, |i: int| number_at(data, 32 + 4 * i, 4) as u32)
}

/// What a file holds for the fingerprint `want`; nothing where any of it is off.
pub open spec fn loaded(data: Seq<u8>, want: u64) -> Option<
    (Seq<u32>, nat, Seq<(Seq<u8>, Seq<u8>)>),
> {
    if !header_fits(data, want) {
        None
    } else {
        let n = number_at(data, 28, 4);
        if 32 + 4 * n > data.len() {
            None
        } else {
            match read_layers(data, 32 + 4 * (n as int), number_at(data, 20, 4)) {
                None => None,
                Some(layers) => Some((read_tokens(data, n), number_at(data, 24, 4), layers)),
            }
        }
    }
}

/// A file's contents.
pub struct SavedPrompt {
    pub tokens: Vec<u32>,
    /// Positions the file declares: fewer than the tokens where the last ones were
    /// never evaluated.
    pub positions: u32,
    /// Keys and values of each layer.
    pub layers: Vec<(Vec<u8>, Vec<u8>)>,
}

/// The bytes of each layer.
pub open spec fn pairs(layers: Seq<(Vec<u8>, Vec<u8>)>) -> Seq<(Seq<u8>, Seq<u8>)> {
    layers.map_values(|l: (Vec<u8>, Vec<u8>)| (l.0@, l.1@))
}

/// Where a run ends, if the data holds all of it.
fn find_end(data: &[u8], at: usize) -> (end: Option<usize>)
    requires
        at <= data@.len(),
    ensures
        match end {
            Some(e) => run_end(data@, at as int) == Some(e as int) && at + 8 <= e <= data@.len(),
            None => run_end(data@, at as int) is None,
        },
{
    let len: usize = data.len();
    if len - at < 8 {
        return None;
    }
    let n: u64 = read_le(data, at, 8);
    if n > (len - at - 8) as u64 {
        return None;
    }
    Some(at + 8 + n as usize)
}

fn copy_run(data: &[u8], from: usize, to: usize) -> (run: Vec<u8>)
    requires
        from <= to <= data@.len(),
    ensures
        run@ == data@.subrange(from as int, to as int),
{
    let mut run: Vec<u8> = Vec::new();
    let mut i: usize = from;
    while i < to
        invariant
            from <= i <= to <= data@.len(),
            run@ == data@.subrange(from as int, i as int),
        decreases to - i,
    {
        run.push(data[i]);
        i = i + 1;
        assert(run@ =~= data@.subrange(from as int, i as int));
    }
    run
}

/// Reading and writing saved histories.
pub struct PromptCache;

impl PromptCache {
    /// The shape a history depends on, hashed. Any change invalidates every saved file.
    pub fn fingerprint(c: &Qwen3Config, kind: KvType) -> (hash: u64)
        ensures
            hash == hashed(shape_parts(*c, kind), 7),
    {
        let parts: Vec<u64> = vec![
            c.n_layer as u64,
            c.n_embd as u64,
            c.n_head as u64,
            c.n_head_kv as u64,
            c.head_dim as u64,
            c.vocab_size as u64,
            kind.ggml_type() as u64,
        ];
        assert(parts@ =~= shape_parts(*c, kind));
        let mut hash: u64 = 0xcbf2_9ce4_8422_2325;
        let mut i: usize = 0;
        while i < 7
            invariant
                i <= 7,
                parts@ == shape_parts(*c, kind),
                hash == hashed(parts@, i as int),
            decreases 7 - i,
        {
            hash = (hash ^ parts[i]).wrapping_mul(0x0000_0100_0000_01b3);
            i = i + 1;
        }
        hash
    }

    /// What a file holds. Anything inconsistent gives nothing: a saved prompt is an
    /// optimisation, and failing to use one must never fail the run.
    pub fn load(data: &[u8], want: u64) -> (found: Option<SavedPrompt>)
        ensures
            match found {
                Some(s) => loaded(data@, want) == Some(
                    (s.tokens@, s.positions as nat, pairs(s.layers@)),
                ),
                None => loaded(data@, want) is None,
            },
    {
        let len: usize = data.len();
        if len < 32 {
            return None;
        }
        if !(data[0] == 0x42 && data[1] == 0x54 && data[2] == 0x50 && data[3] == 0x43) {
            assert(data@.subrange(0, 4)[0] == data@[0]);
            assert(data@.subrange(0, 4)[1] == data@[1]);
            assert(data@.subrange(0, 4)[2] == data@[2]);
            assert(data@.subrange(0, 4)[3] == data@[3]);
            return None;
        }
        assert(data@.subrange(0, 4) =~= magic());
        if read_le(data, 4, 4) != VERSION as u64 || read_le(data, 8, 8) != want {
            return None;
        }
        proof {
            powers();
            value_is_bounded(data@.subrange(20, 24));
            value_is_bounded(data@.subrange(24, 28));
            value_is_bounded(data@.subrange(28, 32));
        }
        let positions: u32 = read_le(data, 24, 4) as u32;
        let n_layers: u64 = read_le(data, 20, 4);
        let n_tokens: u64 = read_le(data, 28, 4);
        if 4 * n_tokens > (len - 32) as u64 {
            return None;
        }
        let n: usize = n_tokens as usize;
        let mut tokens: Vec<u32> = Vec::new();
        let mut i: usize = 0;
        while i < n
            invariant
                i <= n,
                32 + 4 * n <= data@.len(),
                len == data@.len(),
                tokens@ == read_tokens(data@, i as nat),
            decreases n - i,
        {
            proof {
                powers();
                value_is_bounded(data@.subrange(32 + 4 * i, 36 + 4 * i));
            }
            tokens.push(read_le(data, 32 + 4 * i, 4) as u32);
            i = i + 1;
            assert(tokens@ =~= read_tokens(data@, i as nat));
        }
        let start: usize = 32 + 4 * n;
        let ghost want_layers = read_layers(data@, start as int, n_layers as nat);
        let mut at: usize = start;
        let mut layers: Vec<(Vec<u8>, Vec<u8>)> = Vec::new();
        let mut left: u64 = n_layers;
        proof {
            if let Some(rest) = want_layers {
                assert(pairs(layers@) + rest =~= rest);
            }
        }
        while left > 0
            invariant
                at <= data@.len(),
                want_layers == (match read_layers(data@, at as int, left as nat) {
                    None => None,
                    Some(rest) => Some(pairs(layers@) + rest),
                }),
                loaded(data@, want) == (match want_layers {
                    None => None,
                    Some(l) => Some((tokens@, positions as nat, l)),
                }),
            decreases left,
        {
            let ghost was = pairs(layers@);
            let mid = match find_end(data, at) {
                Some(m) => m,
                None => {
                    return None;
                },
            };
            let end = match find_end(data, mid) {
                Some(e) => e,
                None => {
                    return None;
                },
            };
            let k = copy_run(data, at + 8, mid);
            let v = copy_run(data, mid + 8, end);
            layers.push((k, v));
            proof {
                let one = (
                    data@.subrange(at + 8, mid as int),
                    data@.subrange(mid + 8, end as int),
                );
                assert(pairs(layers@) =~= was.push(one));
                if let Some(rest) = read_layers(data@, end as int, (left - 1) as nat) {
                    assert(was + (seq![one] + rest) =~= was.push(one) + rest);
                }
            }
            at = end;
            left = left - 1;
        }
        assert(want_layers == Some(pairs(layers@) + Seq::<(Seq<u8>, Seq<u8>)>::empty()));
        assert(pairs(layers@) + Seq::<(Seq<u8>, Seq<u8>)>::empty() =~= pairs(layers@));
        Some(SavedPrompt { tokens, positions, layers })
    }

    /// The file for the history `cache`, covering `tokens`.
    pub fn save(fingerprint: u64, cache: &KvCache, tokens: &Vec<u32>) -> (out: Vec<u8>)
        requires
            cache@.wf(),
        ensures
            out@ == saved_bytes(fingerprint, cache@, tokens@),
    {
        let ghost m = cache@;
        let mut out: Vec<u8> = vec![0x42, 0x54, 0x50, 0x43];
        assert(out@ =~= magic());
        push_le(&mut out, VERSION as u64, 4);
        push_le(&mut out, fingerprint, 8);
        push_le(&mut out, cache.kind().ggml_type() as u64, 4);
        push_le(&mut out, (cache.layers() as u32) as u64, 4);
        push_le(&mut out, (cache.len() as u32) as u64, 4);
        push_le(&mut out, (tokens.len() as u32) as u64, 4);
        let ghost head = header_bytes(fingerprint, m, tokens@.len());
        assert(out@ == head);
        let mut i: usize = 0;
        assert(tokens@.take(0) =~= Seq::<u32>::empty());
        assert(head + token_bytes(tokens@.take(0)) =~= head);
        while i < tokens.len()
            invariant
                i <= tokens.len(),
                out@ == head + token_bytes(tokens@.take(i as int)),
            decreases tokens.len() - i,
        {
            push_le(&mut out, tokens[i] as u64, 4);
            assert(tokens@.take(i + 1).drop_last() =~= tokens@.take(i as int));
            i = i + 1;
            assert(out@ =~= head + token_bytes(tokens@.take(i as int)));
        }
        assert(tokens@.take(i as int) =~= tokens@);
        let ghost front = head + token_bytes(tokens@);
        let mut layer: usize = 0;
        let n: usize = cache.layers();
        assert(out@ + layers_bytes(m.k, m.v, 0) =~= front + layers_bytes(m.k, m.v, 0));
        while layer < n
            invariant
                layer <= n,
                n == m.k.len(),
                m == cache@,
                m.wf(),
                out@ + layers_bytes(m.k, m.v, layer as int) == front + layers_bytes(m.k, m.v, 0),
            decreases n - layer,
        {
            let ghost was = out@;
            let k = cache.keys(layer);
            let v = cache.values(layer);
            push_le(&mut out, k.len() as u64, 8);
            out.extend_from_slice(k);
            push_le(&mut out, v.len() as u64, 8);
            out.extend_from_slice(v);
            assert(out@ =~= was + layer_bytes(k@, v@));
            assert(was + layers_bytes(m.k, m.v, layer as int) =~= out@ + layers_bytes(
                m.k,
                m.v,
                layer + 1,
            ));
            layer = layer + 1;
        }
        assert(out@ =~= front + layers_bytes(m.k, m.v, 0));
        out
    }
}

// --------------------------------------------------------------------------- laws

proof fn header_reads_back(fingerprint: u64, m: KvModel, n_tokens: nat, rest: Seq<u8>)
    requires
        m.k.len() <= u32::MAX,
        n_tokens <= u32::MAX,
    ensures
        ({
            let head = header_bytes(fingerprint, m, n_tokens);
            let data = head + rest;
            &&& head.len() == 32
            &&& data.subrange(0, 4) == magic()
            &&& number_at(data, 4, 4) == VERSION
            &&& number_at(data, 8, 8) == fingerprint
            &&& number_at(data, 20, 4) == m.k.len()
            &&& number_at(data, 24, 4) == m.positions as u32
            &&& number_at(data, 28, 4) == n_tokens
        }),
{
    powers();
    let a = magic();
    let b = le(VERSION as nat, 4);
    let c = le(fingerprint as nat, 8);
    let d = le(kind_id(m.kind) as nat, 4);
    let e = le((m.k.len() as u32) as nat, 4);
    let f = le((m.positions as u32) as nat, 4);
    let g = le((n_tokens as u32) as nat, 4);
    le_reads_back(VERSION as nat, 4);
    le_reads_back(fingerprint as nat, 8);
    le_is_long(kind_id(m.kind) as nat, 4);
    le_reads_back(m.k.len(), 4);
    le_reads_back((m.positions as u32) as nat, 4);
    le_reads_back(n_tokens, 4);
    let head = header_bytes(fingerprint, m, n_tokens);
    let data = head + rest;
    assert(data.subrange(0, 4) =~= a);
    assert(data.subrange(4, 8) =~= b);
    assert(data.subrange(8, 16) =~= c);
    assert(data.subrange(20, 24) =~= e);
    assert(data.subrange(24, 28) =~= f);
    assert(data.subrange(28, 32) =~= g);
}

proof fn tokens_read_back(tokens: Seq<u32>, i: int)
    requires
        0 <= i < tokens.len(),
    ensures
        token_bytes(tokens).len() == 4 * tokens.len(),
        token_bytes(tokens).subrange(4 * i, 4 * i + 4) == le(tokens[i] as nat, 4),
    decreases tokens.len(),
{
    let fewer = tokens.drop_last();
    tokens_are_long(fewer);
    le_is_long(tokens.last() as nat, 4);
    let all = token_bytes(tokens);
    if i == tokens.len() - 1 {
        assert(all.subrange(4 * i, 4 * i + 4) =~= le(tokens[i] as nat, 4));
    } else {
        tokens_read_back(fewer, i);
        assert(all.subrange(4 * i, 4 * i + 4) =~= token_bytes(fewer).subrange(4 * i, 4 * i + 4));
    }
}

proof fn tokens_are_long(tokens: Seq<u32>)
    ensures
        token_bytes(tokens).len() == 4 * tokens.len(),
    decreases tokens.len(),
{
    if tokens.len() > 0 {
        tokens_are_long(tokens.drop_last());
        le_is_long(tokens.last() as nat, 4);
    }
}

/// The keys and values of each layer.
pub open spec fn layers_of(m: KvModel) -> Seq<(Seq<u8>, Seq<u8>)> {
    Seq::new(m.k.len(), |i: int| (m.k[i], m.v[i]))
}

/// Each run's length fits the eight bytes it is written in.
pub open spec fn runs_fit(m: KvModel) -> bool {
    &&& forall|i: int| 0 <= i < m.k.len() ==> (#[trigger] m.k[i]).len() <= u64::MAX
    &&& forall|i: int| 0 <= i < m.v.len() ==> (#[trigger] m.v[i]).len() <= u64::MAX
}

proof fn run_reads_back(front: Seq<u8>, run: Seq<u8>, rest: Seq<u8>)
    requires
        run.len() <= u64::MAX,
    ensures
        ({
            let data = front + run_bytes(run) + rest;
            let at = front.len() as int;
            &&& run_bytes(run).len() == 8 + run.len()
            &&& run_end(data, at) == Some((at + 8 + run.len()) as int)
            &&& number_at(data, at, 8) == run.len()
            &&& data.subrange(at + 8, (at + 8 + run.len()) as int) == run
        }),
{
    powers();
    le_reads_back(run.len(), 8);
    let data = front + run_bytes(run) + rest;
    let at = front.len() as int;
    assert(data.subrange(at, at + 8) =~= le(run.len(), 8));
    assert(data.subrange(at + 8, (at + 8 + run.len()) as int) =~= run);
}

proof fn layers_read_back(front: Seq<u8>, m: KvModel, from: int)
    requires
        m.k.len() == m.v.len(),
        runs_fit(m),
        0 <= from <= m.k.len(),
    ensures
        read_layers(
            front + layers_bytes(m.k, m.v, from),
            front.len() as int,
            (m.k.len() - from) as nat,
        ) == Some(Seq::new((m.k.len() - from) as nat, |i: int| (m.k[from + i], m.v[from + i]))),
    decreases m.k.len() - from,
{
    let data = front + layers_bytes(m.k, m.v, from);
    let want = Seq::new((m.k.len() - from) as nat, |i: int| (m.k[from + i], m.v[from + i]));
    if from < m.k.len() {
        let k = m.k[from];
        let v = m.v[from];
        let rest = layers_bytes(m.k, m.v, from + 1);
        run_reads_back(front, k, run_bytes(v) + rest);
        assert(data =~= front + run_bytes(k) + (run_bytes(v) + rest));
        run_reads_back(front + run_bytes(k), v, rest);
        assert(data =~= front + run_bytes(k) + run_bytes(v) + rest);
        let after = front + layer_bytes(k, v);
        assert(data =~= after + rest);
        layers_read_back(after, m, from + 1);
        let others = Seq::new(
            (m.k.len() - from - 1) as nat,
            |i: int| (m.k[from + 1 + i], m.v[from + 1 + i]),
        );
        assert(want =~= seq![(k, v)] + others);
    } else {
        assert(want =~= Seq::<(Seq<u8>, Seq<u8>)>::empty());
    }
}

/// What was saved is what is loaded: the tokens, the positions and every layer's keys
/// and values.
pub proof fn a_saved_prompt_loads_back(fingerprint: u64, m: KvModel, tokens: Seq<u32>)
    requires
        m.wf(),
        runs_fit(m),
        m.k.len() <= u32::MAX,
        m.positions <= u32::MAX,
        tokens.len() <= u32::MAX,
    ensures
        loaded(saved_bytes(fingerprint, m, tokens), fingerprint) == Some(
            (tokens, m.positions as nat, layers_of(m)),
        ),
{
    let head = header_bytes(fingerprint, m, tokens.len());
    let middle = token_bytes(tokens);
    let back = layers_bytes(m.k, m.v, 0);
    let data = saved_bytes(fingerprint, m, tokens);
    header_reads_back(fingerprint, m, tokens.len(), middle + back);
    assert(data =~= head + (middle + back));
    tokens_are_long(tokens);
    powers();
    assert forall|i: int| 0 <= i < tokens.len() implies #[trigger] read_tokens(data, tokens.len())[i]
        == tokens[i] by {
        tokens_read_back(tokens, i);
        le_reads_back(tokens[i] as nat, 4);
        assert(data.subrange(32 + 4 * i, 32 + 4 * i + 4) =~= middle.subrange(4 * i, 4 * i + 4));
    }
    assert(read_tokens(data, tokens.len()) =~= tokens);
    layers_read_back(head + middle, m, 0);
    assert(Seq::new((m.k.len() - 0) as nat, |i: int| (m.k[0 + i], m.v[0 + i])) =~= layers_of(m));
}

/// A history saved for one shape is never loaded for another.
pub proof fn another_shape_loads_nothing(fingerprint: u64, m: KvModel, tokens: Seq<u32>, want: u64)
    requires
        m.k.len() <= u32::MAX,
        tokens.len() <= u32::MAX,
        want != fingerprint,
    ensures
        loaded(saved_bytes(fingerprint, m, tokens), want) is None,
{
    let rest = token_bytes(tokens) + layers_bytes(m.k, m.v, 0);
    header_reads_back(fingerprint, m, tokens.len(), rest);
    assert(saved_bytes(fingerprint, m, tokens) =~= header_bytes(fingerprint, m, tokens.len())
        + rest);
}

/// A file cut short anywhere is refused whole.
pub proof fn a_cut_file_loads_nothing(fingerprint: u64, m: KvModel, tokens: Seq<u32>, n: int, want: u64)
    requires
        m.wf(),
        runs_fit(m),
        m.k.len() <= u32::MAX,
        tokens.len() <= u32::MAX,
        0 <= n < saved_bytes(fingerprint, m, tokens).len(),
    ensures
        loaded(saved_bytes(fingerprint, m, tokens).take(n), want) is None,
{
    let head = header_bytes(fingerprint, m, tokens.len());
    let middle = token_bytes(tokens);
    let back = layers_bytes(m.k, m.v, 0);
    let data = saved_bytes(fingerprint, m, tokens);
    let cut = data.take(n);
    header_reads_back(fingerprint, m, tokens.len(), middle + back);
    assert(data =~= head + (middle + back));
    tokens_are_long(tokens);
    if n >= 32 {
        assert(cut.subrange(20, 24) =~= data.subrange(20, 24));
        assert(cut.subrange(28, 32) =~= data.subrange(28, 32));
        if 32 + 4 * tokens.len() <= n {
            cut_layers_read_nothing(head + middle, m, 0, n);
        }
    }
}

proof fn cut_layers_read_nothing(front: Seq<u8>, m: KvModel, from: int, n: int)
    requires
        m.k.len() == m.v.len(),
        runs_fit(m),
        0 <= from <= m.k.len(),
        front.len() <= n < (front + layers_bytes(m.k, m.v, from)).len(),
    ensures
        read_layers(
            (front + layers_bytes(m.k, m.v, from)).take(n),
            front.len() as int,
            (m.k.len() - from) as nat,
        ) is None,
    decreases m.k.len() - from,
{
    let data = front + layers_bytes(m.k, m.v, from);
    let cut = data.take(n);
    let at = front.len() as int;
    if from < m.k.len() {
        let k = m.k[from];
        let v = m.v[from];
        let rest = layers_bytes(m.k, m.v, from + 1);
        run_reads_back(front, k, run_bytes(v) + rest);
        assert(data =~= front + run_bytes(k) + (run_bytes(v) + rest));
        run_reads_back(front + run_bytes(k), v, rest);
        assert(data =~= front + run_bytes(k) + run_bytes(v) + rest);
        if at + 8 <= n {
            assert(cut.subrange(at, at + 8) =~= data.subrange(at, at + 8));
            let mid = at + 8 + k.len();
            if mid + 8 <= n {
                assert(cut.subrange(mid as int, mid + 8) =~= data.subrange(mid as int, mid + 8));
                let end = mid + 8 + v.len();
                if end <= n {
                    let after = front + layer_bytes(k, v);
                    assert(data =~= after + rest);
                    cut_layers_read_nothing(after, m, from + 1, n);
                }
            }
        }
    }
}

// -------------------------------------------------------------------------- reuse

/// How many leading tokens two sequences share, counting from `i`.
pub open spec fn prefix_from(a: Seq<u32>, b: Seq<u32>, i: int) -> int
    decreases a.len() - i,
{
    if 0 <= i < a.len() && i < b.len() && a[i] == b[i] {
        prefix_from(a, b, i + 1)
    } else {
        i
    }
}

/// What two sequences share is the longest prefix of both.
pub proof fn shared_prefixes_are_longest(a: Seq<u32>, b: Seq<u32>, n: int)
    requires
        0 <= n <= a.len(),
        n <= b.len(),
    ensures
        0 <= prefix_from(a, b, 0) <= a.len(),
        prefix_from(a, b, 0) <= b.len(),
        a.take(n) == b.take(n) <==> n <= prefix_from(a, b, 0),
{
    prefix_agrees(a, b, 0);
    let p = prefix_from(a, b, 0);
    if n <= p {
        assert(a.take(n) =~= b.take(n));
    } else if a.take(n) == b.take(n) {
        assert(a.take(n)[p] == a[p]);
        assert(b.take(n)[p] == b[p]);
    }
}

proof fn prefix_agrees(a: Seq<u32>, b: Seq<u32>, i: int)
    requires
        0 <= i <= a.len(),
        i <= b.len(),
    ensures
        i <= prefix_from(a, b, i) <= a.len(),
        prefix_from(a, b, i) <= b.len(),
        forall|j: int| i <= j < prefix_from(a, b, i) ==> a[j] == b[j],
        ({
            let p = prefix_from(a, b, i);
            p < a.len() && p < b.len() ==> a[p] != b[p]
        }),
    decreases a.len() - i,
{
    if i < a.len() && i < b.len() && a[i] == b[i] {
        prefix_agrees(a, b, i + 1);
    }
}

/// How many leading tokens two sequences share.
pub fn common_prefix(a: &[u32], b: &[u32]) -> (n: usize)
    ensures
        n == prefix_from(a@, b@, 0),
        n <= a@.len(),
        n <= b@.len(),
{
    let mut n: usize = 0;
    while n < a.len() && n < b.len() && a[n] == b[n]
        invariant
            n <= a@.len(),
            n <= b@.len(),
            prefix_from(a@, b@, 0) == prefix_from(a@, b@, n as int),
        decreases a@.len() - n,
    {
        n = n + 1;
    }
    n
}

/// How many positions of a saved history a prompt can take over: as far as the tokens
/// agree and positions were saved, and never the last, whose pass produces the logits
/// that start generation.
pub open spec fn reusable(saved: Seq<u32>, positions: int, tokens: Seq<u32>) -> int {
    let shared = prefix_from(saved, tokens, 0);
    let agreed = if shared < positions {
        shared
    } else {
        positions
    };
    let most = if tokens.len() == 0 {
        0
    } else {
        tokens.len() - 1
    };
    if agreed < most {
        agreed
    } else {
        most
    }
}

/// Every layer holds exactly `positions` positions.
pub open spec fn covers(m: KvModel, layers: Seq<(Seq<u8>, Seq<u8>)>, positions: int) -> bool {
    forall|i: int|
        0 <= i < layers.len() ==> m.restores(i, (#[trigger] layers[i]).0, layers[i].1)
            && layers[i].0.len() == positions * m.step()
}

/// The history with every layer's bytes replaced, declared to cover `positions`.
pub open spec fn restored(m: KvModel, layers: Seq<(Seq<u8>, Seq<u8>)>, positions: int) -> KvModel {
    KvModel {
        k: layers.map_values(|l: (Seq<u8>, Seq<u8>)| l.0),
        v: layers.map_values(|l: (Seq<u8>, Seq<u8>)| l.1),
        positions,
        ..m
    }
}

/// The history with nothing in it.
pub open spec fn emptied(m: KvModel) -> KvModel {
    KvModel {
        k: Seq::new(m.k.len(), |i: int| Seq::<u8>::empty()),
        v: Seq::new(m.v.len(), |i: int| Seq::<u8>::empty()),
        positions: 0,
        ..m
    }
}

/// Takes over as much of a saved history as `tokens` shares with it, and says how many
/// positions that is. Reusable only up to the first differing token: past it every
/// stored key is conditioned on text that is no longer there, and only as far as
/// positions were saved: the tokens of a whole session end with one that was drawn and
/// never evaluated. Layers that do not hold exactly the positions declared give `None`
/// and leave an empty history.
pub fn reuse(cache: &mut KvCache, saved: &SavedPrompt, tokens: &Vec<u32>) -> (shared: Option<usize>)
    requires
        old(cache)@.wf(),
        old(cache)@.step() <= usize::MAX,
        old(cache)@.step() * tokens@.len() <= usize::MAX,
    ensures
        final(cache)@.wf(),
        ({
            let m = old(cache)@;
            let n = reusable(saved.tokens@, saved.positions as int, tokens@);
            let layers = pairs(saved.layers@);
            if n > 0 && layers.len() == m.k.len() {
                if covers(m, layers, saved.positions as int) {
                    &&& shared == Some(n as usize)
                    &&& final(cache)@ == restored(m, layers, saved.positions as int).truncated(n)
                } else {
                    shared is None && final(cache)@ == emptied(m)
                }
            } else {
                shared == Some(0usize) && final(cache)@ == m
            }
        }),
        shared matches Some(n) ==> (n > 0 ==> final(cache)@.consistent()
            && final(cache)@.positions == n),
{
    let ghost m = cache@;
    let ghost layers = pairs(saved.layers@);
    let n_tokens: usize = tokens.len();
    let positions: usize = saved.positions as usize;
    let common: usize = common_prefix(saved.tokens.as_slice(), tokens.as_slice());
    let agreed: usize = if common < positions {
        common
    } else {
        positions
    };
    let most: usize = n_tokens.saturating_sub(1);
    let shared: usize = if agreed < most {
        agreed
    } else {
        most
    };
    assert(shared == reusable(saved.tokens@, positions as int, tokens@));
    if shared == 0 || saved.layers.len() != cache.layers() {
        return Some(0);
    }
    let step: usize = cache.kind().bytes_for(cache.per_position());
    let mut i: usize = 0;
    while i < saved.layers.len()
        invariant
            i <= saved.layers.len(),
            layers == pairs(saved.layers@),
            m == old(cache)@,
            m.wf(),
            shared > 0,
            positions == saved.positions,
            shared == reusable(saved.tokens@, positions as int, tokens@),
            saved.layers@.len() == m.k.len(),
            m.step() == step,
            cache@.wf(),
            cache@.k.len() == m.k.len(),
            cache@.v.len() == m.v.len(),
            cache@.positions == m.positions,
            cache@.per_position == m.per_position,
            cache@.kind == m.kind,
            cache@.row == m.row,
            forall|j: int|
                0 <= j < i ==> m.restores(j, (#[trigger] layers[j]).0, layers[j].1)
                    && layers[j].0.len() == positions * step && cache@.k[j] == layers[j].0
                    && cache@.v[j] == layers[j].1,
        decreases saved.layers.len() - i,
    {
        assert(layers[i as int] == (saved.layers@[i as int].0@, saved.layers@[i as int].1@));
        let k = saved.layers[i].0.as_slice();
        let v = saved.layers[i].1.as_slice();
        let held: bool = match cache.restore_layer(i, k, v) {
            Ok(()) => k.len() / step == positions,
            Err(_) => false,
        };
        proof {
            let bytes = layers[i as int].0.len() as int;
            if m.restores(i as int, layers[i as int].0, layers[i as int].1) {
                vstd::arithmetic::div_mod::lemma_fundamental_div_mod(bytes, step as int);
                vstd::arithmetic::mul::lemma_mul_is_commutative(bytes / step as int, step as int);
                if bytes == positions * step {
                    vstd::arithmetic::div_mod::lemma_div_by_multiple(
                        positions as int,
                        step as int,
                    );
                }
            }
        }
        if !held {
            cache.clear();
            assert(!covers(m, layers, positions as int)) by {
                assert(layers[i as int].0.len() != positions * step || !m.restores(
                    i as int,
                    layers[i as int].0,
                    layers[i as int].1,
                ));
            }
            assert(cache@ =~= emptied(m));
            return None;
        }
        i = i + 1;
    }
    cache.set_positions(positions);
    proof {
        let full = restored(m, layers, positions as int);
        assert(cache@.k =~= full.k);
        assert(cache@.v =~= full.v);
        assert(cache@ =~= full);
        restoring_is_consistent(m, layers, positions as int);
        crate::kv::truncating_keeps_the_head(full, shared as int);
        assert(m.step() * shared <= m.step() * tokens@.len()) by (nonlinear_arith)
            requires
                shared <= tokens@.len(),
                m.step() >= 0,
        ;
    }
    cache.truncate_to(shared);
    Some(shared)
}

/// Layers that hold exactly the positions declared restore a consistent history.
proof fn restoring_is_consistent(m: KvModel, layers: Seq<(Seq<u8>, Seq<u8>)>, positions: int)
    requires
        m.wf(),
        layers.len() == m.k.len(),
        0 <= positions <= usize::MAX,
        covers(m, layers, positions),
    ensures
        restored(m, layers, positions).wf(),
        restored(m, layers, positions).consistent(),
{
    let full = restored(m, layers, positions);
    crate::kv::positions_scale(full, positions);
    assert forall|i: int| 0 <= i < full.k.len() implies (#[trigger] full.k[i]).len() == positions
        * m.step() by {
        assert(layers[i].0.len() == positions * m.step());
    }
    assert forall|i: int| 0 <= i < full.v.len() implies (#[trigger] full.v[i]).len() == positions
        * m.step() by {
        assert(layers[i].0.len() == positions * m.step());
    }
}

/// A prompt that repeats what was saved takes over exactly the saved history, as far as
/// the tokens agree and were evaluated: every position it keeps is the one that was
/// saved, also where tokens were saved that no position covers.
pub proof fn a_reused_history_is_the_saved_one(
    saved: KvModel,
    fresh: KvModel,
    kept: Seq<u32>,
    tokens: Seq<u32>,
)
    requires
        saved.wf(),
        saved.consistent(),
        saved.step() != 0,
        fresh.wf(),
        fresh.k.len() == saved.k.len(),
        fresh.kind == saved.kind,
        fresh.per_position == saved.per_position,
        fresh.row == saved.row,
    ensures
        ({
            let layers = layers_of(saved);
            let n = reusable(kept, saved.positions, tokens);
            &&& covers(fresh, layers, saved.positions)
            &&& restored(fresh, layers, saved.positions).truncated(n) == saved.truncated(n)
            &&& saved.truncated(n).consistent()
            &&& saved.truncated(n).positions == n
        }),
{
    let layers = layers_of(saved);
    let n = reusable(kept, saved.positions, tokens);
    prefix_agrees(kept, tokens, 0);
    crate::kv::truncating_keeps_the_head(saved, n);
    crate::kv::positions_scale(saved, saved.positions);
    let step = saved.step();
    assert forall|i: int| 0 <= i < layers.len() implies fresh.restores(
        i,
        (#[trigger] layers[i]).0,
        layers[i].1,
    ) && layers[i].0.len() == saved.positions * fresh.step() by {
        assert(saved.k[i].len() == saved.positions * step);
        assert(saved.v[i].len() == saved.positions * step);
        assert((saved.positions * step) % step == 0) by {
            vstd::arithmetic::div_mod::lemma_mod_multiples_basic(saved.positions, step);
        }
    }
    let full = restored(fresh, layers, saved.positions);
    assert(full.k =~= saved.k);
    assert(full.v =~= saved.v);
    assert(full =~= saved);
}

/// What the hash multiplies by can be undone, so that no two values are multiplied to
/// the same one.
proof fn steps_lose_nothing(a: u64, b: u64)
    requires
        a.wrapping_mul(0x0000_0100_0000_01b3) == b.wrapping_mul(0x0000_0100_0000_01b3),
    ensures
        a == b,
{
    let m: int = 0x1_0000_0000_0000_0000;
    let p: int = 0x0000_0100_0000_01b3;
    let undo: int = 0xce96_5057_aff6_957b;
    assert(p * undo == 1 + 887285111055 * m);
    vstd::arithmetic::div_mod::lemma_mul_mod_noop_left(a * p, undo, m);
    vstd::arithmetic::div_mod::lemma_mul_mod_noop_left(b * p, undo, m);
    assert((a * p) % m == (b * p) % m);
    assert((a * p) * undo == m * (887285111055 * a) + a) by (nonlinear_arith)
        requires
            p * undo == 1 + 887285111055 * m,
    ;
    assert((b * p) * undo == m * (887285111055 * b) + b) by (nonlinear_arith)
        requires
            p * undo == 1 + 887285111055 * m,
    ;
    vstd::arithmetic::div_mod::lemma_mod_multiples_vanish(887285111055 * a, a as int, m);
    vstd::arithmetic::div_mod::lemma_mod_multiples_vanish(887285111055 * b, b as int, m);
    vstd::arithmetic::div_mod::lemma_small_mod(a as nat, m as nat);
    vstd::arithmetic::div_mod::lemma_small_mod(b as nat, m as nat);
}

proof fn one_difference_stays(x: Seq<u64>, y: Seq<u64>, n: int, i: int)
    requires
        0 <= i < n <= x.len(),
        x.len() == y.len(),
        x[i] != y[i],
        forall|j: int| 0 <= j < n && j != i ==> x[j] == y[j],
    ensures
        hashed(x, n) != hashed(y, n),
    decreases n,
{
    let (h, k) = (hashed(x, n - 1), hashed(y, n - 1));
    let (a, b) = (x[n - 1], y[n - 1]);
    if i < n - 1 {
        one_difference_stays(x, y, n - 1, i);
        assert(h ^ a != k ^ b) by (bit_vector)
            requires
                h != k,
                a == b,
        ;
    } else {
        same_parts_hash_alike(x, y, n - 1);
        assert(h ^ a != k ^ b) by (bit_vector)
            requires
                h == k,
                a != b,
        ;
    }
    if hashed(x, n) == hashed(y, n) {
        steps_lose_nothing(h ^ a, k ^ b);
    }
}

proof fn same_parts_hash_alike(x: Seq<u64>, y: Seq<u64>, n: int)
    requires
        0 <= n <= x.len(),
        x.len() == y.len(),
        forall|j: int| 0 <= j < n ==> x[j] == y[j],
    ensures
        hashed(x, n) == hashed(y, n),
    decreases n,
{
    if n > 0 {
        same_parts_hash_alike(x, y, n - 1);
    }
}

/// Any one change of shape invalidates every saved file: of two shapes that differ only in
/// their layers, width, heads, key heads, head width, vocabulary or storage kind, the
/// fingerprints differ.
pub proof fn a_changed_shape_changes_the_fingerprint(
    c: Qwen3Config,
    d: Qwen3Config,
    kind: KvType,
    other: KvType,
)
    requires
        ({
            let layers = c.n_layer != d.n_layer;
            let width = c.n_embd != d.n_embd;
            let heads = c.n_head != d.n_head;
            let keys = c.n_head_kv != d.n_head_kv;
            let head = c.head_dim != d.head_dim;
            let words = c.vocab_size != d.vocab_size;
            let kinds = kind != other;
            let count = |b: bool|
                if b {
                    1int
                } else {
                    0int
                };
            count(layers) + count(width) + count(heads) + count(keys) + count(head) + count(words)
                + count(kinds) == 1
        }),
    ensures
        hashed(shape_parts(c, kind), 7) != hashed(shape_parts(d, other), 7),
{
    let x = shape_parts(c, kind);
    let y = shape_parts(d, other);
    let i: int = if c.n_layer != d.n_layer {
        0
    } else if c.n_embd != d.n_embd {
        1
    } else if c.n_head != d.n_head {
        2
    } else if c.n_head_kv != d.n_head_kv {
        3
    } else if c.head_dim != d.head_dim {
        4
    } else if c.vocab_size != d.vocab_size {
        5
    } else {
        6
    };
    assert(x[i] != y[i]);
    one_difference_stays(x, y, 7, i);
}

} // verus!
