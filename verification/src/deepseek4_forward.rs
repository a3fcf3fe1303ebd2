//! A DeepSeek-V4-Flash pass, block by block: what each block binds, computes, stores
//! and reads, and when a sequence is refused.
use crate::container::Container;
use crate::deepseek4::{
    listed,
    push_shipped_names,
    Deepseek4Config,
    LayerRope,
    CSA_RATIO,
};
#[allow(unused_imports)]
use crate::deepseek4::shipped;
use crate::deepseek4_cache::{
    compressor_step,
    frame_rows,
    plan_compressor,
    CompressorPlan,
    CompressorStep,
    Deepseek4Cache,
    N_KV,
};
#[allow(unused_imports)]
use crate::deepseek4_cache::{
    compressor_step_of,
    framed_rows,
    gathered,
    row_width,
    rows_kept,
    slid,
    HistoryModel,
};
use crate::deepseek4_graph::{
    attention,
    compressor_project,
    embed,
    entry,
    ffn,
    layer_tail,
    moe_routing,
    q_and_kv,
    write_back,
    BlockEntry,
    BlockTail,
    Routing,
    SliceShapes,
};
#[allow(unused_imports)]
use crate::deepseek4_graph::{
    attn_gates,
    attn_input,
    block_out,
    chosen_experts,
    compressor_rows,
    compressor_scores,
    dims_fit,
    expert_shares,
    fed,
    ffn_gates,
    ffn_input,
    latent_attended,
    latents,
    queries,
    routing_weights,
    streams_after,
    streams_of,
};
use crate::error::{ArchError, Result};
use crate::expert_cache::{CacheStats, ExpertCache};
#[allow(unused_imports)]
use crate::expert_cache::CacheModel;
use crate::expert_read::READERS;
use crate::float_bits::{F32_NEG_INFINITY, F32_ZERO};
use crate::graph::{Graph, Slot};
#[allow(unused_imports)]
use crate::graph::{extends, Expr};
use crate::mask::window_mask;
#[allow(unused_imports)]
use crate::mask::{key_count, mask_bytes, two_halves};
use crate::names::{push_block_names, push_literals};
#[allow(unused_imports)]
use crate::names::{block_names, literals, texts};
#[allow(unused_imports)]
use crate::stream_pass::held;
use crate::text::parse_unsigned;
#[allow(unused_imports)]
use crate::text::parsed_int;
use vstd::prelude::*;

verus! {

// --------------------------------------------------------------------------- threads

/// How many threads evaluate a graph: the setting where it is a positive number, else
/// every core, else four.
pub open spec fn threads_for(setting: Option<Seq<char>>, cores: Option<usize>) -> int {
    let wanted = match setting {
        Some(text) => parsed_int(text, 0, usize::MAX as int),
        None => None,
    };
    match wanted {
        Some(n) if n > 0 => n,
        _ => match cores {
            Some(n) => n as int,
            None => 4,
        },
    }
}

/// What a setting says.
pub open spec fn said(setting: Option<&str>) -> Option<Seq<char>> {
    match setting {
        Some(text) => Some(text@),
        None => None,
    }
}

/// How many threads evaluate a graph, given a setting and how many cores there are.
pub fn threads(setting: Option<&str>, cores: Option<usize>) -> (n: usize)
    ensures
        n == threads_for(said(setting), cores),
{
    if let Some(text) = setting {
        if let Some(n) = parse_unsigned(text, usize::MAX as u64) {
            if n > 0 {
                return n as usize;
            }
        }
    }
    match cores {
        Some(n) => n,
        None => 4,
    }
}

// ----------------------------------------------------------------------------- runner

/// Suffixes every block binds, in order.
pub open spec fn bound_suffixes() -> Seq<Seq<char>> {
    seq![
        "hc_attn_fn.weight"@,
        "hc_attn_scale.weight"@,
        "hc_attn_base.weight"@,
        "hc_ffn_fn.weight"@,
        "hc_ffn_scale.weight"@,
        "hc_ffn_base.weight"@,
        "attn_norm.weight"@,
        "attn_q_a.weight"@,
        "attn_q_a_norm.weight"@,
        "attn_q_b.weight"@,
        "attn_kv.weight"@,
        "attn_kv_a_norm.weight"@,
        "attn_sinks.weight"@,
        "attn_output_a.weight"@,
        "attn_output_b.weight"@,
        "ffn_norm.weight"@,
        "ffn_gate_inp.weight"@,
        "ffn_gate_shexp.weight"@,
        "ffn_up_shexp.weight"@,
        "ffn_down_shexp.weight"@,
    ]
}

/// Suffixes a block binds where its container ships them: the two routing schemes are
/// mutually exclusive, and plain layers have no compressor.
pub open spec fn bound_if_shipped() -> Seq<Seq<char>> {
    seq![
        "ffn_gate_tid2eid.weight"@,
        "exp_probs_b.bias"@,
        "attn_compressor_kv.weight"@,
        "attn_compressor_gate.weight"@,
        "attn_compressor_ape.weight"@,
        "attn_compressor_norm.weight"@,
    ]
}

/// The tensors one block needs: its own, and for block 0, which the tokens enter by, the
/// embeddings too.
pub open spec fn block_needs(model: &Container, il: nat) -> Seq<Seq<char>> {
    let own = block_names(il, bound_suffixes()) + shipped(
        model,
        block_names(il, bound_if_shipped()),
    );
    if il == 0 {
        own.push("token_embd.weight"@)
    } else {
        own
    }
}

/// The tensors the output head needs.
pub open spec fn head_needs() -> Seq<Seq<char>> {
    seq![
        "output_hc_fn.weight"@,
        "output_hc_scale.weight"@,
        "output_hc_base.weight"@,
        "output_norm.weight"@,
        "output.weight"@,
    ]
}

/// The tensors the output head needs, in the order they are bound.
pub fn head_tensor_names() -> (names: Vec<String>)
    ensures
        texts(names@) == head_needs(),
{
    let list: Vec<&'static str> = vec![
        "output_hc_fn.weight",
        "output_hc_scale.weight",
        "output_hc_base.weight",
        "output_norm.weight",
        "output.weight",
    ];
    let mut names: Vec<String> = Vec::new();
    push_literals(&mut names, &list);
    assert(literals(list@) =~= head_needs());
    assert(texts(names@) =~= head_needs());
    names
}

/// Those of `names` that are not resident, in order.
pub open spec fn not_resident(names: Seq<Seq<char>>, resident: Seq<Seq<char>>) -> Seq<Seq<char>>
    decreases names.len(),
{
    if names.len() == 0 {
        Seq::empty()
    } else if resident.contains(names.last()) {
        not_resident(names.drop_last(), resident)
    } else {
        not_resident(names.drop_last(), resident).push(names.last())
    }
}

/// Every `READERS`th of `names` from the `slot`th on: one reader's share.
pub open spec fn share_of_reader(names: Seq<Seq<char>>, slot: int, n: int) -> Seq<Seq<char>>
    decreases n,
{
    if n <= 0 {
        Seq::empty()
    } else if (n - 1) % (READERS as int) == slot {
        share_of_reader(names, slot, n - 1).push(names[n - 1])
    } else {
        share_of_reader(names, slot, n - 1)
    }
}

/// Where an always-read tensor's bytes come from.
#[derive(Debug, Clone, Copy, PartialEq, Eq, Structural)]
pub enum BindFrom {
    /// Shared with the resident set; nothing is moved.
    Resident,
    /// Already read alongside others.
    Prefetched,
    /// Read now.
    Disk,
}

/// One model's forward pass, and the state it threads.
pub struct Deepseek4Forward {
    pub config: Deepseek4Config,
    /// Always-read weights held in memory; others are read again for every block.
    pub resident: Vec<String>,
    /// Routed slices held across blocks and tokens.
    pub cache: Option<ExpertCache>,
}

impl Deepseek4Forward {
    /// A pass that holds nothing in memory.
    pub fn new(config: Deepseek4Config) -> (fw: Self)
        ensures
            fw.config == config,
            fw.resident@.len() == 0,
            fw.cache is None,
    {
        Deepseek4Forward { config, resident: Vec::new(), cache: None }
    }

    /// Serve the tensors `resident` from memory instead of from disk.
    pub fn with_resident(self, resident: Vec<String>) -> (fw: Self)
        ensures
            fw.config == self.config,
            fw.resident == resident,
            fw.cache == self.cache,
    {
        Deepseek4Forward { config: self.config, resident, cache: self.cache }
    }

    /// Hold routed slices in `budget` bytes. Nothing is loaded in advance: the cache
    /// warms on the prompt it is given.
    pub fn with_expert_cache(self, budget: usize) -> (fw: Self)
        ensures
            fw.config == self.config,
            fw.resident == self.resident,
            fw.cache matches Some(c) && c@.wf() && c@ == CacheModel::empty(
                budget as int,
                0x2545_F491_4F6C_DD1D,
            ),
    {
        Deepseek4Forward {
            config: self.config,
            resident: self.resident,
            cache: Some(ExpertCache::new(budget)),
        }
    }

    /// What the cache counted and holds, or `None` without one.
    pub fn cache_stats(&self) -> (stats: Option<(CacheStats, usize)>)
        ensures
            match (self.cache, stats) {
                (Some(c), Some(s)) => s.0 == c@.stats && s.1 == c@.bytes,
                (None, None) => true,
                _ => false,
            },
    {
        match &self.cache {
            Some(c) => Some((c.stats(), c.bytes())),
            None => None,
        }
    }

    pub fn config(&self) -> (config: &Deepseek4Config)
        ensures
            *config == self.config,
    {
        &self.config
    }

    /// Whether leaving the sparse-attention indexer out is exact at this length: it is
    /// until the compressed history holds more entries than the indexer would keep.
    pub fn indexer_is_exact(&self, n_tokens: usize) -> (yes: bool)
        ensures
            yes == (n_tokens as int / CSA_RATIO as int <= self.config.indexer_top_k),
    {
        let blocks: u64 = n_tokens as u64 / CSA_RATIO as u64;
        blocks <= self.config.indexer_top_k as u64
    }

    /// The names of the tensors one block needs, with the embeddings for block 0.
    pub fn block_tensor_names(&self, model: &Container, il: u32) -> (names: Vec<String>)
        ensures
            texts(names@) == block_needs(model, il as nat),
    {
        let always: Vec<&'static str> = vec![
            "hc_attn_fn.weight",
            "hc_attn_scale.weight",
            "hc_attn_base.weight",
            "hc_ffn_fn.weight",
            "hc_ffn_scale.weight",
            "hc_ffn_base.weight",
            "attn_norm.weight",
            "attn_q_a.weight",
            "attn_q_a_norm.weight",
            "attn_q_b.weight",
            "attn_kv.weight",
            "attn_kv_a_norm.weight",
            "attn_sinks.weight",
            "attn_output_a.weight",
            "attn_output_b.weight",
            "ffn_norm.weight",
            "ffn_gate_inp.weight",
            "ffn_gate_shexp.weight",
            "ffn_up_shexp.weight",
            "ffn_down_shexp.weight",
        ];
        assert(literals(always@) =~= bound_suffixes());
        let some: Vec<&'static str> = vec![
            "ffn_gate_tid2eid.weight",
            "exp_probs_b.bias",
            "attn_compressor_kv.weight",
            "attn_compressor_gate.weight",
            "attn_compressor_ape.weight",
            "attn_compressor_norm.weight",
        ];
        assert(literals(some@) =~= bound_if_shipped());
        let mut names: Vec<String> = Vec::new();
        push_block_names(&mut names, il, &always);
        assert(texts(names@) =~= block_names(il as nat, bound_suffixes()));
        push_shipped_names(&mut names, model, il, &some);
        let ghost own = texts(names@);
        if il == 0 {
            names.push("token_embd.weight".to_owned());
            assert(texts(names@) =~= own.push("token_embd.weight"@));
        }
        names
    }

    /// The rotation of layer `il`, given the attenuation that the frequency scale calls
    /// for.
    pub fn rope(&self, il: u32, yarn: u32) -> (rope: LayerRope)
        ensures
            rope == self.config.layer_rope(il as int, yarn),
    {
        self.config.rope_for_layer(il, yarn)
    }

    fn missing(&self, names: &Vec<String>) -> (left: Vec<String>)
        ensures
            texts(left@) == not_resident(texts(names@), texts(self.resident@)),
    {
        let ghost all = texts(names@);
        let ghost kept = texts(self.resident@);
        let mut left: Vec<String> = Vec::new();
        let mut i: usize = 0;
        assert(texts(left@) =~= not_resident(all.take(0), kept));
        while i < names.len()
            invariant
                i <= names.len(),
                all == texts(names@),
                kept == texts(self.resident@),
                texts(left@) == not_resident(all.take(i as int), kept),
            decreases names.len() - i,
        {
            let ghost was = texts(left@);
            assert(all[i as int] == names@[i as int]@);
            assert(all.take(i + 1).drop_last() =~= all.take(i as int));
            if !listed(&self.resident, names[i].as_str()) {
                left.push(names[i].clone());
                assert(texts(left@) =~= was.push(all[i as int]));
            }
            i = i + 1;
        }
        assert(all.take(i as int) =~= all);
        left
    }

    /// How the non-resident ones of `names` are read ahead, a share for each reader; no
    /// shares at all where there are not two to overlap.
    pub fn prefetch_dense(&self, names: &Vec<String>) -> (shares: Vec<Vec<String>>)
        ensures
            ({
                let left = not_resident(texts(names@), texts(self.resident@));
                if left.len() < 2 {
                    shares@.len() == 0
                } else {
                    &&& shares@.len() == READERS
                    &&& forall|s: int|
                        0 <= s < READERS ==> texts((#[trigger] shares@[s])@) == share_of_reader(
                            left,
                            s,
                            left.len() as int,
                        )
                }
            }),
    {
        let left = self.missing(names);
        let ghost all = texts(left@);
        let mut shares: Vec<Vec<String>> = Vec::new();
        if left.len() < 2 {
            return shares;
        }
        let mut slot: usize = 0;
        while slot < READERS
            invariant
                slot <= READERS,
                all == texts(left@),
                shares@.len() == slot,
                forall|s: int|
                    0 <= s < slot ==> texts((#[trigger] shares@[s])@) == share_of_reader(
                        all,
                        s,
                        all.len() as int,
                    ),
            decreases READERS - slot,
        {
            let mut share: Vec<String> = Vec::new();
            let mut i: usize = 0;
            assert(texts(share@) =~= share_of_reader(all, slot as int, 0));
            while i < left.len()
                invariant
                    i <= left.len(),
                    all == texts(left@),
                    texts(share@) == share_of_reader(all, slot as int, i as int),
                decreases left.len() - i,
            {
                let ghost was = texts(share@);
                assert(all[i as int] == left@[i as int]@);
                if i % READERS == slot {
                    share.push(left[i].clone());
                    assert(texts(share@) =~= was.push(all[i as int]));
                }
                i = i + 1;
            }
            shares.push(share);
            slot = slot + 1;
        }
        shares
    }

    /// Where a tensor is bound from, given the names read ahead.
    pub fn bind_dense(&self, name: &str, prefetched: &Vec<String>) -> (from: BindFrom)
        ensures
            from == (if texts(self.resident@).contains(name@) {
                BindFrom::Resident
            } else if texts(prefetched@).contains(name@) {
                BindFrom::Prefetched
            } else {
                BindFrom::Disk
            }),
    {
        if listed(&self.resident, name) {
            BindFrom::Resident
        } else if listed(prefetched, name) {
            BindFrom::Prefetched
        } else {
            BindFrom::Disk
        }
    }
}

/// Every name that is not resident falls to exactly one reader: the one its place says.
pub proof fn each_tensor_has_one_reader(names: Seq<Seq<char>>, i: int)
    requires
        0 <= i < names.len(),
    ensures
        share_of_reader(names, i % (READERS as int), names.len() as int).contains(names[i]),
        0 <= i % (READERS as int) < READERS,
{
    share_holds(names, i % (READERS as int), names.len() as int, i);
}

proof fn share_holds(names: Seq<Seq<char>>, slot: int, n: int, i: int)
    requires
        0 <= i < n <= names.len(),
        i % (READERS as int) == slot,
    ensures
        share_of_reader(names, slot, n).contains(names[i]),
    decreases n,
{
    let all = share_of_reader(names, slot, n);
    if i == n - 1 {
        assert(all[all.len() - 1] == names[i]);
    } else {
        share_holds(names, slot, n - 1, i);
        let fewer = share_of_reader(names, slot, n - 1);
        let j = choose|j: int| 0 <= j < fewer.len() && fewer[j] == names[i];
        assert(all[j] == names[i]);
    }
}

// ----------------------------------------------------------------------------- passes

/// One step of a pass.
#[derive(Debug, Clone, Copy, PartialEq, Eq, Structural)]
pub enum ForwardStep {
    Block { il: u32 },
    Head,
    Done,
}

/// The step after `step`: every block in order, then the head.
pub open spec fn forward_after(c: Deepseek4Config, step: ForwardStep) -> ForwardStep {
    match step {
        ForwardStep::Block { il } => if il + 1 < c.n_layer {
            ForwardStep::Block { il: (il + 1) as u32 }
        } else {
            ForwardStep::Head
        },
        ForwardStep::Head => ForwardStep::Done,
        ForwardStep::Done => ForwardStep::Done,
    }
}

/// The `k`th step of a pass, from the first block on.
pub open spec fn forward_at(c: Deepseek4Config, k: nat) -> ForwardStep
    decreases k,
{
    if k == 0 {
        ForwardStep::Block { il: 0 }
    } else {
        forward_after(c, forward_at(c, (k - 1) as nat))
    }
}

/// A pass runs every block once, in order, then the head, and is done.
pub proof fn a_pass_runs_every_block_once(c: Deepseek4Config, k: nat)
    requires
        c.n_layer >= 1,
    ensures
        k < c.n_layer ==> forward_at(c, k) == (ForwardStep::Block { il: k as u32 }),
        k == c.n_layer ==> forward_at(c, k) == ForwardStep::Head,
        k > c.n_layer ==> forward_at(c, k) == ForwardStep::Done,
    decreases k,
{
    if k > 0 {
        a_pass_runs_every_block_once(c, (k - 1) as nat);
    }
}

/// The step after `step`.
pub fn next_forward(c: &Deepseek4Config, step: ForwardStep) -> (next: ForwardStep)
    requires
        step matches ForwardStep::Block { il } ==> il < u32::MAX,
    ensures
        next == forward_after(*c, step),
{
    match step {
        ForwardStep::Block { il } => if il + 1 < c.n_layer {
            ForwardStep::Block { il: il + 1 }
        } else {
            ForwardStep::Head
        },
        ForwardStep::Head => ForwardStep::Done,
        ForwardStep::Done => ForwardStep::Done,
    }
}

/// Where a pass over `n_tokens` begins, appended to what `cache` holds; refused before
/// any weight is read where there is no room.
///
/// One implementation behind [`prefill`] and [`step`]: a prefill is this against an
/// empty cache, a step is this with one token against a full one.
pub fn forward(cache: &Deepseek4Cache, n_tokens: usize) -> (pos0: Result<i64>)
    requires
        cache.wf(),
        cache@.n_past + n_tokens <= usize::MAX,
    ensures
        match pos0 {
            Ok(p) => cache@.n_past + n_tokens <= N_KV && p == cache@.n_past,
            Err(ArchError::ContextTooLong { tokens, limit }) => cache@.n_past + n_tokens > N_KV
                && tokens == cache@.n_past + n_tokens && limit == N_KV,
            Err(_) => false,
        },
{
    cache.begin_pass(n_tokens)
}

/// The empty cache a prefill of `n_tokens` starts from; refused where it cannot hold
/// them.
pub fn prefill(c: &Deepseek4Config, n_tokens: usize) -> (cache: Result<Deepseek4Cache>)
    requires
        c.kv_lora_rank * N_KV <= usize::MAX,
    ensures
        match cache {
            Ok(cache) => {
                &&& n_tokens <= N_KV
                &&& cache.wf()
                &&& cache.room() == c.kv_lora_rank * N_KV
                &&& cache@ == HistoryModel::fresh(
                    c.n_layer as nat,
                    (c.kv_lora_rank * N_KV) as nat,
                )
            },
            Err(ArchError::ContextTooLong { tokens, limit }) => n_tokens > N_KV && tokens
                == n_tokens && limit == N_KV,
            Err(_) => false,
        },
{
    if n_tokens > N_KV {
        return Err(ArchError::ContextTooLong { tokens: n_tokens, limit: N_KV });
    }
    Ok(Deepseek4Cache::new(c.n_layer, c.kv_lora_rank))
}

/// Where a single token's pass begins.
pub fn step(cache: &Deepseek4Cache) -> (pos0: Result<i64>)
    requires
        cache.wf(),
        cache@.n_past < usize::MAX,
    ensures
        match pos0 {
            Ok(p) => cache@.n_past + 1 <= N_KV && p == cache@.n_past,
            Err(ArchError::ContextTooLong { tokens, limit }) => cache@.n_past + 1 > N_KV
                && tokens == cache@.n_past + 1 && limit == N_KV,
            Err(_) => false,
        },
{
    forward(cache, 1)
}

// ------------------------------------------------------------------------------ block

/// What one block does with a batch.
pub struct BlockPlan {
    /// The tensors it binds, the first block's embedding table among them.
    pub names: Vec<String>,
    /// The rotation of its layer.
    pub rope: LayerRope,
    /// What its compressor does.
    pub compressor: CompressorStep,
    /// The layer's compression ratio; 1 where it has none.
    pub ratio: i64,
    /// The block of summaries the batch begins in.
    pub block0: i64,
}

/// A layer's compression ratio; 1 where it has none.
pub open spec fn ratio_or_one(c: Deepseek4Config, il: int) -> i64 {
    match c.ratio_of(il) {
        Some(r) => r,
        None => 1,
    }
}

/// Nodes of a block's first stage: what later stages read.
pub struct BlockStart {
    pub entry: BlockEntry,
    pub q: usize,
    pub kv: usize,
    /// The rows and scores its compressor is fed, where it has one.
    pub fed: Option<(usize, usize)>,
}

/// The residual streams a block starts from: the embedding of `tokens` for the first,
/// what the block before handed on for the others.
pub open spec fn streams_in(c: Deepseek4Config, first: bool, tokens: Seq<i32>) -> Expr {
    if first {
        streams_of(c, tokens)
    } else {
        held(Slot::Activations, c.n_embd as int, c.hc_mult as int, tokens.len() as int)
    }
}

impl Deepseek4Forward {
    /// Plans block `il` for a batch of `nt` from `pos0`.
    pub fn block(&self, model: &Container, il: u32, pos0: i64, nt: i64, yarn: u32) -> (plan: BlockPlan)
        requires
            Deepseek4Config::kind_of_ratio(self.config.ratio_of(il as int)) is Some,
            0 <= pos0,
            0 <= nt,
            pos0 + nt <= i64::MAX,
        ensures
            texts(plan.names@) == block_needs(model, il as nat),
            plan.rope == self.config.layer_rope(il as int, yarn),
            plan.compressor == compressor_step_of(
                Deepseek4Config::kind_of_ratio(self.config.ratio_of(il as int))->0,
                self.config.ratio_of(il as int),
                pos0 as int,
                nt as int,
            ),
            plan.ratio == ratio_or_one(self.config, il as int),
            plan.block0 == pos0 as int / plan.ratio as int,
    {
        let names = self.block_tensor_names(model, il);
        let compressor = match compressor_step(&self.config, il, pos0, nt) {
            Some(step) => step,
            None => CompressorStep { slides: false, summary: None },
        };
        let ratio: i64 = match self.config.compress_block(il) {
            Some(r) => r,
            None => 1,
        };
        BlockPlan {
            names,
            rope: self.rope(il, yarn),
            compressor,
            ratio,
            block0: pos0 / ratio,
        }
    }

    /// Builds a block's first stage: its entry, queries and latents, and what its
    /// compressor is fed. `first` says that the streams come from the embedding.
    pub fn begin_block(
        &self,
        g: &mut Graph,
        il: u32,
        first: bool,
        tokens: &Vec<i32>,
        pos0: i64,
        plan: &BlockPlan,
    ) -> (start: BlockStart)
        requires
            old(g).wf(),
            dims_fit(self.config),
            0 <= pos0,
            pos0 + tokens@.len() <= i32::MAX,
            0 < plan.ratio <= i32::MAX,
        ensures
            final(g).wf(),
            extends(final(g)@, old(g)@),
            ({
                let c = self.config;
                let nt = tokens@.len() as int;
                let x = streams_in(c, first, tokens@);
                let h = attn_input(c, il as nat, x, nt);
                &&& start.entry.streams < final(g)@.len()
                &&& final(g)@[start.entry.streams as int] == x
                &&& start.entry.attn_norm < final(g)@.len()
                &&& final(g)@[start.entry.attn_norm as int] == h
                &&& start.entry.gates.stand_for(final(g)@, attn_gates(c, il as nat, x, nt))
                &&& start.q < final(g)@.len()
                &&& final(g)@[start.q as int] == queries(
                    c,
                    il as nat,
                    h,
                    nt,
                    pos0 as int,
                    plan.rope,
                )
                &&& start.kv < final(g)@.len()
                &&& final(g)@[start.kv as int] == latents(
                    c,
                    il as nat,
                    h,
                    nt,
                    pos0 as int,
                    plan.rope,
                )
                &&& match start.fed {
                    Some(at) => {
                        &&& plan.compressor.slides
                        &&& at.0 < final(g)@.len()
                        &&& final(g)@[at.0 as int] == compressor_rows(il as nat, h)
                        &&& at.1 < final(g)@.len()
                        &&& final(g)@[at.1 as int] == compressor_scores(
                            il as nat,
                            h,
                            pos0 as int,
                            nt,
                            plan.ratio as int,
                        )
                    },
                    None => !plan.compressor.slides,
                }
            }),
    {
        let c = &self.config;
        let nt: i64 = tokens.len() as i64;
        let streams = if first {
            let mut ids: Vec<i32> = Vec::new();
            ids.extend_from_slice(tokens.as_slice());
            assert(ids@ =~= tokens@);
            embed(g, c, ids)
        } else {
            g.input(Slot::Activations, c.n_embd as i64, c.hc_mult as i64, nt)
        };
        let e = entry(g, c, il, streams, nt);
        let (q, kv) = q_and_kv(g, c, il, e.attn_norm, nt, pos0, plan.rope);
        let fed = if plan.compressor.slides {
            Some(compressor_project(g, il, e.attn_norm, nt, pos0, plan.ratio))
        } else {
            None
        };
        BlockStart { entry: e, q, kv, fed }
    }
}

/// Rows and scores framed for a summary.
pub struct Framed {
    pub plan: CompressorPlan,
    pub rows: Vec<u32>,
    pub scores: Vec<u32>,
}

/// Feeds a batch's rows and scores to its layer's ring and, where the batch completes a
/// block, frames them for the summary. The front padding is the ring as it was before
/// the batch; behind it stand zero rows that the softmax ignores.
pub fn feed_compressor(
    cache: &mut Deepseek4Cache,
    il: usize,
    head: u32,
    ratio: i64,
    overlap: bool,
    pos0: i64,
    nt: i64,
    kv: &Vec<u32>,
    score: &Vec<u32>,
) -> (framed: Framed)
    requires
        old(cache).wf(),
        il < old(cache)@.raw.len(),
        0 < ratio <= 0x1000_0000,
        overlap ==> ratio <= 4,
        0 <= pos0 <= 0x1000_0000,
        0 <= nt <= 0x1000_0000,
        rows_kept(ratio as int, overlap) * row_width(head as int, overlap) <= usize::MAX,
    ensures
        final(cache).wf(),
        final(cache).room() == old(cache).room(),
        ({
            let wide = row_width(head as int, overlap);
            let keep = rows_kept(ratio as int, overlap) * wide;
            let pad = if overlap {
                wide
            } else {
                0
            };
            let ring_kv = old(cache)@.ring_kv[il as int];
            let ring_score = old(cache)@.ring_score[il as int];
            &&& final(cache)@ == (HistoryModel {
                ring_kv: old(cache)@.ring_kv.update(il as int, slid(ring_kv, kv@, keep)),
                ring_score: old(cache)@.ring_score.update(
                    il as int,
                    slid(ring_score, score@, keep),
                ),
                ..old(cache)@
            })
            &&& framed.rows@ == framed_rows(ring_kv, kv@, keep, pad, F32_ZERO)
            &&& framed.scores@ == framed_rows(ring_score, score@, keep, pad, F32_NEG_INFINITY)
            &&& framed.plan.b0 == pos0 as int / ratio as int
            &&& framed.plan.b1 == (pos0 + nt) / ratio as int
            &&& framed.plan.wide == wide
            &&& framed.plan.state_rows == rows_kept(ratio as int, overlap)
            &&& framed.plan.rows@ == gathered(ratio as int, overlap, pos0 as int, nt as int)
                .map_values(|r: int| r as i32)
            &&& framed.plan.positions@ == Seq::new(
                (framed.plan.b1 - framed.plan.b0) as nat,
                |i: int| ((framed.plan.b0 + i) * ratio) as i32,
            )
        }),
{
    let plan = plan_compressor(ratio, head as i64, overlap, pos0, nt);
    proof {
        let k = plan.state_rows as int;
        let wide = plan.wide as int;
        assert(0 <= wide && wide <= k * wide && 0 <= k * wide) by (nonlinear_arith)
            requires
                wide >= 0,
                k >= 1,
        ;
        assert(k * wide <= 0x1000_0000 * (2 * u32::MAX)) by (nonlinear_arith)
            requires
                0 <= wide <= 2 * u32::MAX,
                0 <= k <= 0x1000_0000,
        ;
    }
    let keep: usize = (plan.state_rows * plan.wide) as usize;
    let pad: usize = if overlap {
        plan.wide as usize
    } else {
        0
    };
    let (before_kv, before_score) = cache.slide(il, kv, score, keep);
    let rows = frame_rows(&before_kv, kv, keep, pad, F32_ZERO);
    let scores = frame_rows(&before_score, score, keep, pad, F32_NEG_INFINITY);
    Framed { plan, rows, scores }
}

/// Nodes of a block's second stage.
pub struct BlockRouted {
    pub tail: BlockTail,
    pub routing: Routing,
}

/// What a block's attention computes over its history.
pub open spec fn block_attended(
    c: Deepseek4Config,
    il: nat,
    h: Expr,
    nt: int,
    pos0: int,
    plan: BlockPlan,
    has_comp: bool,
) -> Expr {
    latent_attended(
        c,
        il,
        queries(c, il, h, nt, pos0, plan.rope),
        nt,
        pos0,
        key_count(has_comp),
        mask_bytes(
            nt,
            key_count(has_comp),
            two_halves(pos0, c.sliding_window as int, plan.ratio as int),
        ),
        plan.rope,
    )
}

impl Deepseek4Forward {
    /// Builds a block's second stage: attention over its history, the tail and the
    /// router. The compressed half is read whenever the sequence has summaries, not only
    /// when this batch made some.
    pub fn attend_block(
        &self,
        g: &mut Graph,
        il: u32,
        start: &BlockStart,
        tokens: &Vec<i32>,
        pos0: i64,
        plan: &BlockPlan,
        has_comp: bool,
    ) -> (routed: BlockRouted)
        requires
            old(g).wf(),
            dims_fit(self.config),
            0 <= pos0,
            pos0 + tokens@.len() <= i32::MAX,
            tokens@.len() * 1024 <= usize::MAX,
            0 < plan.ratio,
            start.entry.streams < old(g)@.len(),
            start.entry.gates.stand_for(
                old(g)@,
                attn_gates(
                    self.config,
                    il as nat,
                    old(g)@[start.entry.streams as int],
                    tokens@.len() as int,
                ),
            ),
            start.q < old(g)@.len(),
            old(g)@[start.q as int] == queries(
                self.config,
                il as nat,
                attn_input(
                    self.config,
                    il as nat,
                    old(g)@[start.entry.streams as int],
                    tokens@.len() as int,
                ),
                tokens@.len() as int,
                pos0 as int,
                plan.rope,
            ),
        ensures
            final(g).wf(),
            extends(final(g)@, old(g)@),
            ({
                let c = self.config;
                let nt = tokens@.len() as int;
                let x = old(g)@[start.entry.streams as int];
                let out = block_attended(
                    c,
                    il as nat,
                    attn_input(c, il as nat, x, nt),
                    nt,
                    pos0 as int,
                    *plan,
                    has_comp,
                );
                let after = streams_after(c, il as nat, x, out, nt);
                let h = ffn_input(c, il as nat, after, nt);
                &&& routed.tail.streams < final(g)@.len()
                &&& final(g)@[routed.tail.streams as int] == after
                &&& routed.tail.ffn_norm < final(g)@.len()
                &&& final(g)@[routed.tail.ffn_norm as int] == h
                &&& routed.tail.gates.stand_for(final(g)@, ffn_gates(c, il as nat, after, nt))
                &&& routed.routing.experts < final(g)@.len()
                &&& final(g)@[routed.routing.experts as int] == chosen_experts(
                    c,
                    il as nat,
                    h,
                    tokens@,
                )
                &&& routed.routing.shares < final(g)@.len()
                &&& final(g)@[routed.routing.shares as int] == expert_shares(
                    c,
                    il as nat,
                    h,
                    tokens@,
                )
                &&& routed.routing.weights < final(g)@.len()
                &&& final(g)@[routed.routing.weights as int] == routing_weights(
                    c,
                    il as nat,
                    h,
                    tokens@,
                )
            }),
    {
        let c = &self.config;
        let nt: i64 = tokens.len() as i64;
        let n_kv: i64 = if has_comp {
            512
        } else {
            256
        };
        let mask = window_mask(pos0, nt, c.sliding_window, plan.ratio, has_comp);
        let out = attention(g, c, il, start.q, nt, pos0, n_kv, mask, plan.rope);
        let tail = layer_tail(g, c, il, &start.entry, out, nt);
        let routing = moe_routing(g, c, il, tail.ffn_norm, tokens);
        BlockRouted { tail, routing }
    }

    /// Builds a block's last stage: the feed-forward over the `n` slices read, written
    /// back across the streams.
    pub fn finish_block(
        &self,
        g: &mut Graph,
        il: u32,
        routed: &BlockRouted,
        shapes: SliceShapes,
        ids: Vec<i32>,
        n: usize,
        nt: i64,
    ) -> (at: usize)
        requires
            old(g).wf(),
            dims_fit(self.config),
            self.config.n_expert_used >= 1,
            n <= i64::MAX,
            routed.tail.streams < old(g)@.len(),
            routed.tail.ffn_norm < old(g)@.len(),
            routed.routing.weights < old(g)@.len(),
            routed.tail.gates.stand_for(
                old(g)@,
                ffn_gates(
                    self.config,
                    il as nat,
                    old(g)@[routed.tail.streams as int],
                    nt as int,
                ),
            ),
        ensures
            final(g).wf(),
            extends(final(g)@, old(g)@),
            at < final(g)@.len(),
            final(g)@[at as int] == block_out(
                self.config,
                il as nat,
                old(g)@[routed.tail.streams as int],
                fed(
                    self.config,
                    il as nat,
                    old(g)@[routed.tail.ffn_norm as int],
                    old(g)@[routed.routing.weights as int],
                    shapes,
                    ids@,
                    n as int,
                    nt as int,
                ),
                nt as int,
            ),
    {
        let c = &self.config;
        let out = ffn(g, c, il, routed.tail.ffn_norm, routed.routing.weights, shapes, ids, n, nt);
        write_back(g, c, il, &routed.tail, out, nt)
    }
}

} // verus!
