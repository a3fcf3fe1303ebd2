//! DeepSeek-V4-Flash: shape, the resident/streamed split and the attention plan,
//! all read from the container and never assumed.
//!
//! The layers of this model are not uniform: which optional tensors a block carries
//! decides its attention, and a manifest that took every block for block 0 would name
//! tensors that do not exist on half of them.
use crate::container::Container;
#[allow(unused_imports)]
use crate::container::value_of;
use crate::container::find;
use crate::error::{ArchError, Result};
use crate::float_bits::{
    greater, zero, F32_MILLIONTH, F32_ONE, F32_ONE_AND_A_HALF, F32_TEN_THOUSAND, F32_THIRTY_TWO,
    F32_ZERO,
};
#[allow(unused_imports)]
use crate::float_bits::{exceeds, is_zero};
use crate::names::{block_tensor, push_block_names, push_literals, sort_texts};
#[allow(unused_imports)]
use crate::names::{
    block_name, block_names, block_names_begin_with_blk, block_names_differ, in_order, literals,
    texts,
};
use crate::text::same_text;
use vstd::prelude::*;

verus! {

/// Which attention a given layer uses.
#[derive(Debug, Clone, Copy, PartialEq, Eq, Structural)]
pub enum AttentionKind {
    /// Plain attention over the full context.
    Raw,
    /// Heavily compressed attention: keys and values summarised into blocks.
    HeavilyCompressed,
    /// Compressed sparse attention, with an indexer choosing which keys each query
    /// keeps.
    CompressedSparse,
}

/// Shape and hyper-parameters, read from the container. Fields that hold a real
/// number hold its f32 bit pattern.
#[derive(Debug, Clone)]
pub struct Deepseek4Config {
    pub n_layer: u32,
    pub n_embd: u32,
    pub n_head: u32,
    pub n_head_kv: u32,
    /// Width of the compressed K/V projection (`attention.key_length`).
    pub kv_lora_rank: u32,
    /// Width Q is projected down to before being projected back up.
    pub q_lora_rank: u32,
    /// Width the attention output is projected through.
    pub output_lora_rank: u32,
    pub vocab_size: u32,
    pub n_expert: u32,
    pub n_expert_used: u32,
    /// Always-active experts, in addition to the routed ones.
    pub n_expert_shared: u32,
    pub n_ff_expert: u32,
    pub rms_eps: u32,
    pub rope_freq_base: u32,
    /// Router output scaling.
    pub expert_weights_scale: u32,
    pub expert_weights_norm: bool,
    /// Parallel residual streams in the hyper-connection block.
    pub hc_count: u32,
    pub hc_sinkhorn_iterations: u32,
    pub sliding_window: u32,
    /// Sparse-attention indexer: how many keys each query keeps.
    pub indexer_top_k: u32,
    pub indexer_head_count: u32,
    pub indexer_key_length: u32,
    /// Dimensions of a head that carry rotary position; the others carry none.
    pub n_rot: u32,
    /// Groups the attention output projection is split across.
    pub output_group_count: u32,
    /// Parallel residual streams the hyper-connection block carries.
    pub hc_mult: u32,
    /// Blocks, from the first, whose experts are looked up by token id.
    pub hash_layer_count: u32,
    /// SwiGLU clamp limit per layer, for the routed experts.
    pub swiglu_clamp_exp: Vec<u32>,
    /// The same, for the shared expert.
    pub swiglu_clamp_shexp: Vec<u32>,
    /// Per-layer compression ratio; 0 means the layer is uncompressed.
    pub compress_ratios: Vec<i64>,
    /// RoPE base used by compressed layers, in place of `rope_freq_base`.
    pub compress_rope_freq_base: u32,
    /// YaRN, for compressed layers only.
    pub rope_freq_scale: u32,
    pub rope_ext_factor: u32,
    pub rope_beta_fast: u32,
    pub rope_beta_slow: u32,
    pub rope_n_ctx_orig: u32,
}

/// What rotary embedding is parameterised by, as f32 bit patterns.
#[derive(Debug, Clone, Copy, PartialEq, Eq, Structural)]
pub struct RopeParams {
    pub freq_base: u32,
    pub freq_scale: u32,
    pub ext_factor: u32,
    pub attn_factor: u32,
    pub beta_fast: u32,
    pub beta_slow: u32,
}

/// Everything rotary embedding needs for one layer.
#[derive(Debug, Clone, Copy, PartialEq, Eq, Structural)]
pub struct LayerRope {
    pub params: RopeParams,
    pub n_ctx_orig: i32,
}

/// The ratio of a layer whose compressed attention is sparse.
pub const CSA_RATIO: i64 = 4;

/// The ratio of a layer whose attention is heavily compressed.
pub const HCA_RATIO: i64 = 128;

/// Metadata keys a container must declare, in the order they are asked for.
pub open spec fn needed_keys() -> Seq<Seq<char>> {
    seq![
        "block_count"@,
        "embedding_length"@,
        "attention.head_count"@,
        "attention.key_length"@,
        "attention.q_lora_rank"@,
        "expert_count"@,
        "expert_used_count"@,
        "expert_feed_forward_length"@,
    ]
}

/// The first of `keys` at or after `from` that the container does not declare.
pub open spec fn first_undeclared(model: &Container, keys: Seq<Seq<char>>, from: int) -> Option<
    Seq<char>,
>
    decreases keys.len() - from,
{
    if from < 0 || from >= keys.len() {
        None
    } else if model.int_at(keys[from]) is None {
        Some(keys[from])
    } else {
        first_undeclared(model, keys, from + 1)
    }
}

/// The metadata key below the architecture's own prefix.
pub open spec fn full_key(arch: Seq<char>, suffix: Seq<char>) -> Seq<char> {
    arch + "."@ + suffix
}

/// The unsigned value under `suffix`, which has no default.
pub fn need(model: &Container, suffix: &str) -> (v: Result<u64>)
    ensures
        match v {
            Ok(v) => model.int_at(suffix@) == Some(v),
            Err(ArchError::MissingMetadata(k)) => model.int_at(suffix@) is None && k@ == full_key(
                model.architecture@,
                suffix@,
            ),
            Err(_) => false,
        },
{
    match model.arch_u64(suffix) {
        Some(v) => Ok(v),
        None => {
            let mut key = String::new();
            key.append(model.architecture.as_str());
            key.append(".");
            key.append(suffix);
            assert(key@ =~= full_key(model.architecture@, suffix@));
            Err(ArchError::MissingMetadata(key))
        },
    }
}

/// The vocabulary size a container declares, or its embedding table's own shape.
pub open spec fn vocabulary(model: &Container) -> u64 {
    match model.int_at("vocab_size"@) {
        Some(v) => v,
        None => match model.tensor("token_embd.weight"@) {
            Some(t) => t.dims@[1],
            None => 0,
        },
    }
}

/// An embedding table, where one is asked for its shape, has two dimensions.
pub open spec fn embedding_has_shape(model: &Container) -> bool {
    model.int_at("vocab_size"@) is None ==> match model.tensor("token_embd.weight"@) {
        Some(t) => t.dims@.len() >= 2,
        None => true,
    }
}

/// Reads [`vocabulary`].
pub fn vocab_size_of(model: &Container) -> (v: u64)
    requires
        embedding_has_shape(model),
    ensures
        v == vocabulary(model),
{
    match model.arch_u64("vocab_size") {
        Some(v) => v,
        None => match model.location("token_embd.weight") {
            Some(t) => t.dims[1],
            None => 0,
        },
    }
}

/// The f32 list under `key`, empty if there is none.
pub open spec fn floats_of(model: &Container, key: Seq<char>) -> Option<Seq<u32>> {
    match value_of(model.float_lists@, key) {
        Some(v) => Some(v@),
        None => None,
    }
}

fn copy_floats(model: &Container, key: &str) -> (v: Option<Vec<u32>>)
    ensures
        match v {
            Some(v) => floats_of(model, key@) == Some(v@),
            None => floats_of(model, key@) is None,
        },
{
    match find(&model.float_lists, key) {
        Some(list) => {
            let mut out: Vec<u32> = Vec::new();
            out.extend_from_slice(list.as_slice());
            assert(out@ =~= list@);
            Some(out)
        },
        None => None,
    }
}

fn copy_ints(model: &Container, key: &str) -> (v: Vec<i64>)
    ensures
        v@ == (match value_of(model.int_lists@, key@) {
            Some(v) => v@,
            None => Seq::<i64>::empty(),
        }),
{
    let mut out: Vec<i64> = Vec::new();
    match find(&model.int_lists, key) {
        Some(list) => {
            out.extend_from_slice(list.as_slice());
            assert(out@ =~= list@);
            out
        },
        None => out,
    }
}

/// The frequency scale a container asks for: the reciprocal of its positive scaling
/// factor, and 1 without one.
pub open spec fn freq_scale_of(model: &Container) -> u32 {
    match value_of(model.floats@, "rope.scaling.factor"@) {
        Some(v) => match v.reciprocal {
            Some(r) => r,
            None => F32_ONE,
        },
        None => F32_ONE,
    }
}

/// Reads [`freq_scale_of`].
pub fn read_freq_scale(model: &Container) -> (v: u32)
    ensures
        v == freq_scale_of(model),
{
    match find(&model.floats, "rope.scaling.factor") {
        Some(v) => match v.reciprocal {
            Some(r) => r,
            None => F32_ONE,
        },
        None => F32_ONE,
    }
}

/// 1 where the container asks for YaRN scaling by name, 0 otherwise.
pub open spec fn ext_factor_of(model: &Container) -> u32 {
    match value_of(model.texts@, "rope.scaling.type"@) {
        Some(v) => if v@ == "yarn"@ {
            F32_ONE
        } else {
            F32_ZERO
        },
        None => F32_ZERO,
    }
}

/// Reads [`ext_factor_of`].
pub fn read_ext_factor(model: &Container) -> (v: u32)
    ensures
        v == ext_factor_of(model),
{
    match model.arch_str("rope.scaling.type") {
        Some(v) => {
            if same_text(v.as_str(), "yarn") {
                F32_ONE
            } else {
                F32_ZERO
            }
        },
        None => F32_ZERO,
    }
}

impl Deepseek4Config {
    /// The configuration holds what the container declares, with the defaults for
    /// what it leaves out.
    pub open spec fn describes(self, m: &Container) -> bool {
        &&& m.int_at("block_count"@) is Some && self.n_layer == m.int_at("block_count"@)->0 as u32
        &&& m.int_at("embedding_length"@) is Some && self.n_embd == m.int_at(
            "embedding_length"@,
        )->0 as u32
        &&& m.int_at("attention.head_count"@) is Some && self.n_head == m.int_at(
            "attention.head_count"@,
        )->0 as u32
        &&& self.n_head_kv == m.int_or("attention.head_count_kv"@, 1) as u32
        &&& m.int_at("attention.key_length"@) is Some && self.kv_lora_rank == m.int_at(
            "attention.key_length"@,
        )->0 as u32
        &&& m.int_at("attention.q_lora_rank"@) is Some && self.q_lora_rank == m.int_at(
            "attention.q_lora_rank"@,
        )->0 as u32
        &&& self.output_lora_rank == m.int_or("attention.output_lora_rank"@, 0) as u32
        &&& self.vocab_size == vocabulary(m) as u32
        &&& m.int_at("expert_count"@) is Some && self.n_expert == m.int_at(
            "expert_count"@,
        )->0 as u32
        &&& m.int_at("expert_used_count"@) is Some && self.n_expert_used == m.int_at(
            "expert_used_count"@,
        )->0 as u32
        &&& self.n_expert_shared == m.int_or("expert_shared_count"@, 0) as u32
        &&& m.int_at("expert_feed_forward_length"@) is Some && self.n_ff_expert == m.int_at(
            "expert_feed_forward_length"@,
        )->0 as u32
        &&& self.rms_eps == F32_MILLIONTH
        &&& self.rope_freq_base == (match value_of(m.ints@, "rope.freq_base"@) {
            Some(v) => v.as_f32,
            None => F32_TEN_THOUSAND,
        })
        &&& self.expert_weights_scale == F32_ONE_AND_A_HALF
        &&& self.expert_weights_norm
        &&& self.hc_count == m.int_or("hyper_connection.count"@, 1) as u32
        &&& self.hc_sinkhorn_iterations == m.int_or(
            "hyper_connection.sinkhorn_iterations"@,
            0,
        ) as u32
        &&& self.sliding_window == m.int_or("attention.sliding_window"@, 0) as u32
        &&& self.indexer_top_k == m.int_or("attention.indexer.top_k"@, 0) as u32
        &&& self.indexer_head_count == m.int_or("attention.indexer.head_count"@, 0) as u32
        &&& self.indexer_key_length == m.int_or("attention.indexer.key_length"@, 0) as u32
        &&& self.n_rot == m.int_or("rope.dimension_count"@, 0) as u32
        &&& self.output_group_count == m.int_or("attention.output_group_count"@, 1) as u32
        &&& self.hc_mult == m.int_or("hyper_connection.count"@, 1) as u32
        &&& self.hash_layer_count == m.int_or("hash_layer_count"@, 0) as u32
        &&& self.swiglu_clamp_exp@ == (match floats_of(m, "swiglu_clamp_exp"@) {
            Some(v) => v,
            None => Seq::<u32>::empty(),
        })
        &&& self.swiglu_clamp_shexp@ == (match floats_of(m, "swiglu_clamp_shexp"@) {
            Some(v) => v,
            None => match floats_of(m, "swiglu_clamp_exp"@) {
                Some(v) => v,
                None => Seq::<u32>::empty(),
            },
        })
        &&& self.compress_ratios@ == (match value_of(m.int_lists@, "attention.compress_ratios"@) {
            Some(v) => v@,
            None => Seq::<i64>::empty(),
        })
        &&& self.compress_rope_freq_base == m.float_or(
            "attention.compress_rope_freq_base"@,
            F32_TEN_THOUSAND,
        )
        &&& self.rope_freq_scale == freq_scale_of(m)
        &&& self.rope_ext_factor == ext_factor_of(m)
        &&& self.rope_beta_fast == m.float_or("rope.scaling.yarn_beta_fast"@, F32_THIRTY_TWO)
        &&& self.rope_beta_slow == m.float_or("rope.scaling.yarn_beta_slow"@, F32_ONE)
        &&& self.rope_n_ctx_orig == m.int_or("rope.scaling.original_context_length"@, 0) as u32
    }

    /// Reads the configuration, refusing another architecture and a container that
    /// leaves out a key there is no default for.
    pub fn from_model(model: &Container) -> (config: Result<Self>)
        requires
            embedding_has_shape(model),
        ensures
            match config {
                Ok(c) => model.architecture@ == "deepseek4"@ && c.describes(model),
                Err(ArchError::Unsupported(a)) => a@ == model.architecture@ && a@ != "deepseek4"@,
                Err(ArchError::MissingMetadata(k)) => {
                    &&& model.architecture@ == "deepseek4"@
                    &&& first_undeclared(model, needed_keys(), 0) matches Some(suffix)
                    &&& k@ == full_key(model.architecture@, suffix)
                },
                Err(_) => false,
            },
    {
        if !same_text(model.architecture.as_str(), "deepseek4") {
            return Err(ArchError::Unsupported(model.architecture.clone()));
        }
        proof {
            reveal_with_fuel(first_undeclared, 9);
        }
        let n_layer: u64 = need(model, "block_count")?;
        let n_embd: u64 = need(model, "embedding_length")?;
        let n_head: u64 = need(model, "attention.head_count")?;
        let key_length: u64 = need(model, "attention.key_length")?;
        let q_lora_rank: u64 = need(model, "attention.q_lora_rank")?;
        let n_expert: u64 = need(model, "expert_count")?;
        let n_expert_used: u64 = need(model, "expert_used_count")?;
        let n_ff_expert: u64 = need(model, "expert_feed_forward_length")?;
        let rope_freq_base: u32 = match find(&model.ints, "rope.freq_base") {
            Some(v) => v.as_f32,
            None => F32_TEN_THOUSAND,
        };
        let swiglu_clamp_exp = match copy_floats(model, "swiglu_clamp_exp") {
            Some(v) => v,
            None => Vec::new(),
        };
        // The routed limits stand in where the shared expert's own are absent.
        let swiglu_clamp_shexp = match copy_floats(model, "swiglu_clamp_shexp") {
            Some(v) => v,
            None => match copy_floats(model, "swiglu_clamp_exp") {
                Some(v) => v,
                None => Vec::new(),
            },
        };
        Ok(
            Deepseek4Config {
                n_layer: n_layer as u32,
                n_embd: n_embd as u32,
                n_head: n_head as u32,
                n_head_kv: model.arch_u64_or("attention.head_count_kv", 1) as u32,
                kv_lora_rank: key_length as u32,
                q_lora_rank: q_lora_rank as u32,
                output_lora_rank: model.arch_u64_or("attention.output_lora_rank", 0) as u32,
                vocab_size: vocab_size_of(model) as u32,
                n_expert: n_expert as u32,
                n_expert_used: n_expert_used as u32,
                n_expert_shared: model.arch_u64_or("expert_shared_count", 0) as u32,
                n_ff_expert: n_ff_expert as u32,
                rms_eps: F32_MILLIONTH,
                rope_freq_base,
                expert_weights_scale: F32_ONE_AND_A_HALF,
                expert_weights_norm: true,
                hc_count: model.arch_u64_or("hyper_connection.count", 1) as u32,
                hc_sinkhorn_iterations: model.arch_u64_or(
                    "hyper_connection.sinkhorn_iterations",
                    0,
                ) as u32,
                sliding_window: model.arch_u64_or("attention.sliding_window", 0) as u32,
                indexer_top_k: model.arch_u64_or("attention.indexer.top_k", 0) as u32,
                indexer_head_count: model.arch_u64_or("attention.indexer.head_count", 0) as u32,
                indexer_key_length: model.arch_u64_or("attention.indexer.key_length", 0) as u32,
                n_rot: model.arch_u64_or("rope.dimension_count", 0) as u32,
                output_group_count: model.arch_u64_or("attention.output_group_count", 1) as u32,
                hc_mult: model.arch_u64_or("hyper_connection.count", 1) as u32,
                hash_layer_count: model.arch_u64_or("hash_layer_count", 0) as u32,
                swiglu_clamp_exp,
                swiglu_clamp_shexp,
                compress_ratios: copy_ints(model, "attention.compress_ratios"),
                compress_rope_freq_base: model.arch_f32_or(
                    "attention.compress_rope_freq_base",
                    F32_TEN_THOUSAND,
                ),
                rope_freq_scale: read_freq_scale(model),
                rope_ext_factor: read_ext_factor(model),
                rope_beta_fast: model.arch_f32_or("rope.scaling.yarn_beta_fast", F32_THIRTY_TWO),
                rope_beta_slow: model.arch_f32_or("rope.scaling.yarn_beta_slow", F32_ONE),
                rope_n_ctx_orig: model.arch_u64_or(
                    "rope.scaling.original_context_length",
                    0,
                ) as u32,
            },
        )
    }
}

impl Deepseek4Config {
    /// The compression ratio of `layer`, if it compresses at all.
    pub open spec fn ratio_of(self, layer: int) -> Option<i64> {
        if 0 <= layer < self.compress_ratios@.len() && self.compress_ratios@[layer] != 0 {
            Some(self.compress_ratios@[layer])
        } else {
            None
        }
    }

    /// The compression ratio of `layer`, or `None` where it is uncompressed. A layer
    /// past the end of the table is uncompressed.
    pub fn compress_block(&self, layer: u32) -> (ratio: Option<i64>)
        ensures
            ratio == self.ratio_of(layer as int),
    {
        let at: usize = layer as usize;
        if at < self.compress_ratios.len() && self.compress_ratios[at] != 0 {
            Some(self.compress_ratios[at])
        } else {
            None
        }
    }

    /// Whether `layer` uses the compressed RoPE base and YaRN scaling.
    pub fn uses_compress_rope(&self, layer: u32) -> (yes: bool)
        ensures
            yes == (self.ratio_of(layer as int) is Some),
    {
        self.compress_block(layer).is_some()
    }

    /// The attention that a compression ratio stands for.
    pub open spec fn kind_of_ratio(ratio: Option<i64>) -> Option<AttentionKind> {
        match ratio {
            None => Some(AttentionKind::Raw),
            Some(r) => if r == CSA_RATIO {
                Some(AttentionKind::CompressedSparse)
            } else if r == HCA_RATIO {
                Some(AttentionKind::HeavilyCompressed)
            } else {
                None
            },
        }
    }

    /// The attention of `layer` by its compression ratio; `None` for a ratio nobody
    /// has checked.
    pub fn attention_kind_from_ratio(&self, layer: u32) -> (kind: Option<AttentionKind>)
        ensures
            kind == Deepseek4Config::kind_of_ratio(self.ratio_of(layer as int)),
    {
        match self.compress_block(layer) {
            None => Some(AttentionKind::Raw),
            Some(r) => {
                if r == CSA_RATIO {
                    Some(AttentionKind::CompressedSparse)
                } else if r == HCA_RATIO {
                    Some(AttentionKind::HeavilyCompressed)
                } else {
                    None
                }
            },
        }
    }

    /// RoPE parameters for `layer`, given the attenuation `yarn` that the frequency
    /// scale calls for.
    pub open spec fn layer_rope(self, layer: int, yarn: u32) -> LayerRope {
        if self.ratio_of(layer) is None {
            LayerRope {
                params: RopeParams {
                    freq_base: self.rope_freq_base,
                    freq_scale: F32_ONE,
                    ext_factor: F32_ZERO,
                    attn_factor: F32_ONE,
                    beta_fast: F32_ZERO,
                    beta_slow: F32_ZERO,
                },
                n_ctx_orig: 0,
            }
        } else {
            LayerRope {
                params: RopeParams {
                    freq_base: self.compress_rope_freq_base,
                    freq_scale: self.rope_freq_scale,
                    ext_factor: self.rope_ext_factor,
                    attn_factor: if is_zero(self.rope_ext_factor) {
                        F32_ONE
                    } else {
                        yarn
                    },
                    beta_fast: self.rope_beta_fast,
                    beta_slow: self.rope_beta_slow,
                },
                n_ctx_orig: self.rope_n_ctx_orig as i32,
            }
        }
    }

    /// RoPE parameters for `layer`.
    ///
    /// These are per layer and are not the container's top-level keys: an uncompressed
    /// layer uses the plain base with scaling switched off entirely. `yarn` is the
    /// attenuation `1 / (1 + 0.1 * ln(1 / freq_scale))`, which only a compressed layer
    /// of an extended model uses.
    pub fn rope_for_layer(&self, layer: u32, yarn: u32) -> (rope: LayerRope)
        ensures
            rope == self.layer_rope(layer as int, yarn),
    {
        if !self.uses_compress_rope(layer) {
            return LayerRope {
                params: RopeParams {
                    freq_base: self.rope_freq_base,
                    freq_scale: F32_ONE,
                    ext_factor: F32_ZERO,
                    attn_factor: F32_ONE,
                    beta_fast: F32_ZERO,
                    beta_slow: F32_ZERO,
                },
                n_ctx_orig: 0,
            };
        }
        LayerRope {
            params: RopeParams {
                freq_base: self.compress_rope_freq_base,
                freq_scale: self.rope_freq_scale,
                ext_factor: self.rope_ext_factor,
                attn_factor: Self::rope_attn_factor(self.rope_ext_factor, yarn),
                beta_fast: self.rope_beta_fast,
                beta_slow: self.rope_beta_slow,
            },
            n_ctx_orig: self.rope_n_ctx_orig as i32,
        }
    }

    /// The attention factor: exactly 1 where nothing is extended, `yarn` otherwise.
    pub fn rope_attn_factor(ext_factor: u32, yarn: u32) -> (factor: u32)
        ensures
            factor == (if is_zero(ext_factor) {
                F32_ONE
            } else {
                yarn
            }),
    {
        if zero(ext_factor) {
            F32_ONE
        } else {
            yarn
        }
    }

    /// The clamp table of the routed experts or of the shared one.
    pub open spec fn clamp_table(self, shared: bool) -> Seq<u32> {
        if shared {
            self.swiglu_clamp_shexp@
        } else {
            self.swiglu_clamp_exp@
        }
    }

    /// The SwiGLU clamp limit for `layer`, if its table holds one above a millionth.
    pub open spec fn clamp_of(self, layer: int, shared: bool) -> Option<u32> {
        let table = self.clamp_table(shared);
        if 0 <= layer < table.len() && exceeds(table[layer], F32_MILLIONTH) {
            Some(table[layer])
        } else {
            None
        }
    }

    /// The SwiGLU clamp limit for `layer`, or `None` when the layer has none: a limit
    /// at or below a millionth is no clamp at all.
    pub fn swiglu_limit(&self, layer: u32, shared: bool) -> (limit: Option<u32>)
        ensures
            limit == self.clamp_of(layer as int, shared),
    {
        let table: &Vec<u32> = if shared {
            &self.swiglu_clamp_shexp
        } else {
            &self.swiglu_clamp_exp
        };
        let at: usize = layer as usize;
        if at < table.len() && greater(table[at], F32_MILLIONTH) {
            Some(table[at])
        } else {
            None
        }
    }

    /// Head dimensions carrying no positional encoding.
    pub open spec fn plain_dims(self) -> int {
        if self.kv_lora_rank >= self.n_rot {
            self.kv_lora_rank - self.n_rot
        } else {
            0
        }
    }

    /// Head dimensions carrying no positional encoding.
    pub fn n_rot_none(&self) -> (n: u32)
        ensures
            n == self.plain_dims(),
    {
        self.kv_lora_rank.saturating_sub(self.n_rot)
    }

    /// Width of the residual stream the hyper-connection block operates on.
    pub fn hc_dim(&self) -> (n: u32)
        requires
            self.n_embd * self.hc_mult <= u32::MAX,
        ensures
            n == self.n_embd * self.hc_mult,
    {
        self.n_embd * self.hc_mult
    }

    /// Bytes of one expert in block 0's stacked tensor `suffix`; 0 where it has none.
    pub open spec fn slice_of(self, model: &Container, suffix: Seq<char>) -> int {
        let n_expert = if self.n_expert == 0 {
            1
        } else {
            self.n_expert as int
        };
        match model.tensor(block_name(0, suffix)) {
            Some(t) => t.size as int / n_expert,
            None => 0,
        }
    }

    /// Bytes of one expert, all three of its tensors.
    pub open spec fn bytes_per_expert(self, model: &Container) -> int {
        self.slice_of(model, "ffn_gate_exps.weight"@) + self.slice_of(
            model,
            "ffn_up_exps.weight"@,
        ) + self.slice_of(model, "ffn_down_exps.weight"@)
    }

    fn slice_bytes(&self, model: &Container, suffix: &str) -> (bytes: u64)
        ensures
            bytes == self.slice_of(model, suffix@),
    {
        let n_expert: u64 = if self.n_expert == 0 {
            1
        } else {
            self.n_expert as u64
        };
        match model.location(block_tensor(0, suffix).as_str()) {
            Some(t) => t.size / n_expert,
            None => 0,
        }
    }

    /// Bytes of routed-expert weight a single token pulls off disk: three tensors of
    /// each expert used, in every layer.
    pub fn expert_bytes_per_token(&self, model: &Container) -> (bytes: u64)
        requires
            self.bytes_per_expert(model) <= u64::MAX,
            self.bytes_per_expert(model) * self.n_expert_used <= u64::MAX,
            self.bytes_per_expert(model) * self.n_expert_used * self.n_layer <= u64::MAX,
        ensures
            bytes == self.bytes_per_expert(model) * self.n_expert_used * self.n_layer,
    {
        let per_expert: u64 = self.slice_bytes(model, "ffn_gate_exps.weight") + self.slice_bytes(
            model,
            "ffn_up_exps.weight",
        ) + self.slice_bytes(model, "ffn_down_exps.weight");
        per_expert * self.n_expert_used as u64 * self.n_layer as u64
    }
}

/// Only the first `n_layer` compression ratios are ever consulted: what stands behind
/// them changes no layer's answer.
pub proof fn extra_ratios_are_never_consulted(c: Deepseek4Config, d: Deepseek4Config, layer: int)
    requires
        0 <= layer < c.n_layer,
        c.compress_ratios@.len() >= c.n_layer,
        d.compress_ratios@.len() >= c.n_layer,
        c.compress_ratios@.take(c.n_layer as int) == d.compress_ratios@.take(c.n_layer as int),
    ensures
        c.ratio_of(layer) == d.ratio_of(layer),
{
    assert(c.compress_ratios@.take(c.n_layer as int)[layer] == c.compress_ratios@[layer]);
    assert(d.compress_ratios@.take(c.n_layer as int)[layer] == d.compress_ratios@[layer]);
}

// ------------------------------------------------------------------ manifest

/// Per-block tensors that are read for every token. The shared expert is here: it
/// runs unconditionally, so it is resident weight.
pub open spec fn resident_suffixes() -> Seq<Seq<char>> {
    seq![
        "attn_norm.weight"@,
        "attn_q_a.weight"@,
        "attn_q_a_norm.weight"@,
        "attn_q_b.weight"@,
        "attn_kv.weight"@,
        "attn_kv_a_norm.weight"@,
        "attn_output_a.weight"@,
        "attn_output_b.weight"@,
        "attn_sinks.weight"@,
        "ffn_norm.weight"@,
        "ffn_gate_inp.weight"@,
        "ffn_gate_shexp.weight"@,
        "ffn_up_shexp.weight"@,
        "ffn_down_shexp.weight"@,
        "hc_attn_base.weight"@,
        "hc_attn_fn.weight"@,
        "hc_attn_scale.weight"@,
        "hc_ffn_base.weight"@,
        "hc_ffn_fn.weight"@,
        "hc_ffn_scale.weight"@,
    ]
}

/// Per-block tensors that only some layers carry.
pub open spec fn optional_suffixes() -> Seq<Seq<char>> {
    seq![
        "attn_compressor_ape.weight"@,
        "attn_compressor_gate.weight"@,
        "attn_compressor_kv.weight"@,
        "attn_compressor_norm.weight"@,
        "exp_probs_b.bias"@,
        "indexer.attn_q_b.weight"@,
        "indexer.proj.weight"@,
        "indexer_compressor_ape.weight"@,
        "indexer_compressor_gate.weight"@,
        "indexer_compressor_kv.weight"@,
        "indexer_compressor_norm.weight"@,
        "ffn_gate_tid2eid.weight"@,
    ]
}

/// The stacked expert tensors, read one slice at a time.
pub open spec fn routed_suffixes() -> Seq<Seq<char>> {
    seq!["ffn_gate_exps.weight"@, "ffn_up_exps.weight"@, "ffn_down_exps.weight"@]
}

/// Tensors outside any block.
pub open spec fn global_names() -> Seq<Seq<char>> {
    seq![
        "token_embd.weight"@,
        "output_norm.weight"@,
        "output.weight"@,
        "output_hc_base.weight"@,
        "output_hc_fn.weight"@,
        "output_hc_scale.weight"@,
    ]
}

/// The suffixes of [`resident_suffixes`].
pub fn resident_block_suffixes() -> (list: Vec<&'static str>)
    ensures
        literals(list@) == resident_suffixes(),
{
    let list: Vec<&'static str> = vec![
        "attn_norm.weight",
        "attn_q_a.weight",
        "attn_q_a_norm.weight",
        "attn_q_b.weight",
        "attn_kv.weight",
        "attn_kv_a_norm.weight",
        "attn_output_a.weight",
        "attn_output_b.weight",
        "attn_sinks.weight",
        "ffn_norm.weight",
        "ffn_gate_inp.weight",
        "ffn_gate_shexp.weight",
        "ffn_up_shexp.weight",
        "ffn_down_shexp.weight",
        "hc_attn_base.weight",
        "hc_attn_fn.weight",
        "hc_attn_scale.weight",
        "hc_ffn_base.weight",
        "hc_ffn_fn.weight",
        "hc_ffn_scale.weight",
    ];
    assert(literals(list@) =~= resident_suffixes());
    list
}

/// The suffixes of [`optional_suffixes`].
pub fn optional_block_suffixes() -> (list: Vec<&'static str>)
    ensures
        literals(list@) == optional_suffixes(),
{
    let list: Vec<&'static str> = vec![
        "attn_compressor_ape.weight",
        "attn_compressor_gate.weight",
        "attn_compressor_kv.weight",
        "attn_compressor_norm.weight",
        "exp_probs_b.bias",
        "indexer.attn_q_b.weight",
        "indexer.proj.weight",
        "indexer_compressor_ape.weight",
        "indexer_compressor_gate.weight",
        "indexer_compressor_kv.weight",
        "indexer_compressor_norm.weight",
        "ffn_gate_tid2eid.weight",
    ];
    assert(literals(list@) =~= optional_suffixes());
    list
}

/// The suffixes of [`routed_suffixes`].
pub fn routed_block_suffixes() -> (list: Vec<&'static str>)
    ensures
        literals(list@) == routed_suffixes(),
{
    let list: Vec<&'static str> = vec![
        "ffn_gate_exps.weight",
        "ffn_up_exps.weight",
        "ffn_down_exps.weight",
    ];
    assert(literals(list@) =~= routed_suffixes());
    list
}

fn global_tensor_names() -> (list: Vec<&'static str>)
    ensures
        literals(list@) == global_names(),
{
    let list: Vec<&'static str> = vec![
        "token_embd.weight",
        "output_norm.weight",
        "output.weight",
        "output_hc_base.weight",
        "output_hc_fn.weight",
        "output_hc_scale.weight",
    ];
    assert(literals(list@) =~= global_names());
    list
}

/// Those of `names` that the container ships, in order.
pub open spec fn shipped(model: &Container, names: Seq<Seq<char>>) -> Seq<Seq<char>>
    decreases names.len(),
{
    if names.len() == 0 {
        Seq::empty()
    } else if model.has_tensor(names.last()) {
        shipped(model, names.drop_last()).push(names.last())
    } else {
        shipped(model, names.drop_last())
    }
}

/// Everything a list of shipped names holds is shipped and was asked for.
pub proof fn shipped_is_shipped(model: &Container, names: Seq<Seq<char>>, i: int)
    requires
        0 <= i < shipped(model, names).len(),
    ensures
        model.has_tensor(shipped(model, names)[i]),
        names.contains(shipped(model, names)[i]),
    decreases names.len(),
{
    if names.len() > 0 {
        let name = shipped(model, names)[i];
        if i < shipped(model, names.drop_last()).len() {
            shipped_is_shipped(model, names.drop_last(), i);
            let j = choose|j: int|
                0 <= j < names.drop_last().len() && names.drop_last()[j] == name;
            assert(names[j] == name);
        } else {
            assert(names[names.len() - 1] == name);
        }
    }
}

/// Appends those of block `il`'s tensors `suffixes` that the container ships.
pub fn push_shipped_names(
    names: &mut Vec<String>,
    model: &Container,
    il: u32,
    suffixes: &Vec<&'static str>,
)
    ensures
        texts(final(names)@) == texts(old(names)@) + shipped(
            model,
            block_names(il as nat, literals(suffixes@)),
        ),
{
    let ghost before = texts(names@);
    let ghost all = block_names(il as nat, literals(suffixes@));
    let mut i: usize = 0;
    assert(before + shipped(model, all.take(0)) =~= before);
    while i < suffixes.len()
        invariant
            i <= suffixes.len(),
            all == block_names(il as nat, literals(suffixes@)),
            texts(names@) == before + shipped(model, all.take(i as int)),
        decreases suffixes.len() - i,
    {
        let ghost was = names@;
        let name = block_tensor(il, suffixes[i]);
        assert(name@ == all[i as int]);
        assert(all.take(i + 1).drop_last() =~= all.take(i as int));
        if model.has(name.as_str()) {
            names.push(name);
            assert(texts(names@) =~= texts(was).push(all[i as int]));
        }
        i = i + 1;
        assert(texts(names@) =~= before + shipped(model, all.take(i as int)));
    }
    assert(all.take(i as int) =~= all);
}

/// The tensors held in memory when blocks below `n` are.
pub open spec fn resident_below(model: &Container, n: nat) -> Seq<Seq<char>>
    decreases n,
{
    if n == 0 {
        global_names()
    } else {
        let il = (n - 1) as nat;
        resident_below(model, il) + block_names(il, resident_suffixes()) + shipped(
            model,
            block_names(il, optional_suffixes()),
        )
    }
}

/// The stacked expert tensors of the blocks below `n`.
pub open spec fn routed_below(n: nat) -> Seq<Seq<char>>
    decreases n,
{
    if n == 0 {
        Seq::empty()
    } else {
        routed_below((n - 1) as nat) + block_names((n - 1) as nat, routed_suffixes())
    }
}

/// How many of the blocks below `n` ship the tensor `suffix`.
pub open spec fn blocks_shipping(model: &Container, suffix: Seq<char>, n: nat) -> nat
    decreases n,
{
    if n == 0 {
        0
    } else {
        blocks_shipping(model, suffix, (n - 1) as nat) + if model.has_tensor(
            block_name((n - 1) as nat, suffix),
        ) {
            1nat
        } else {
            0
        }
    }
}

/// Tensor names, and which of them stay resident.
pub struct Deepseek4Model {
    pub config: Deepseek4Config,
}

/// The first of `names` at or after `from` that the container does not ship.
pub open spec fn first_missing(model: &Container, names: Seq<Seq<char>>, from: int) -> Option<
    Seq<char>,
>
    decreases names.len() - from,
{
    if from < 0 || from >= names.len() {
        None
    } else if !model.has_tensor(names[from]) {
        Some(names[from])
    } else {
        first_missing(model, names, from + 1)
    }
}

/// Nothing is missing exactly when everything is shipped.
pub proof fn nothing_missing(model: &Container, names: Seq<Seq<char>>, from: int)
    requires
        0 <= from,
    ensures
        first_missing(model, names, from) is None <==> forall|i: int|
            from <= i < names.len() ==> model.has_tensor(#[trigger] names[i]),
    decreases names.len() - from,
{
    if from < names.len() {
        nothing_missing(model, names, from + 1);
        if model.has_tensor(names[from]) && (forall|i: int|
            from + 1 <= i < names.len() ==> model.has_tensor(#[trigger] names[i])) {
            assert forall|i: int| from <= i < names.len() implies model.has_tensor(
                #[trigger] names[i],
            ) by {
                if i > from {
                    assert(model.has_tensor(names[i]));
                }
            }
        }
    }
}

/// Fails on the first of `names` that the container does not ship.
pub fn check_shipped(model: &Container, names: &Vec<String>) -> (done: Result<()>)
    ensures
        match done {
            Ok(()) => first_missing(model, texts(names@), 0) is None,
            Err(ArchError::MissingTensor(t)) => first_missing(model, texts(names@), 0) == Some(t@),
            Err(_) => false,
        },
{
    let ghost all = texts(names@);
    let mut i: usize = 0;
    while i < names.len()
        invariant
            i <= names.len(),
            all == texts(names@),
            first_missing(model, all, 0) == first_missing(model, all, i as int),
        decreases names.len() - i,
    {
        assert(all[i as int] == names@[i as int]@);
        if !model.has(names[i].as_str()) {
            return Err(ArchError::MissingTensor(names[i].clone()));
        }
        i = i + 1;
    }
    Ok(())
}

/// Whether `name` is one of `names`.
pub fn listed(names: &Vec<String>, name: &str) -> (yes: bool)
    ensures
        yes == texts(names@).contains(name@),
{
    let mut i: usize = 0;
    while i < names.len()
        invariant
            i <= names.len(),
            forall|j: int| 0 <= j < i ==> (#[trigger] texts(names@)[j]) != name@,
        decreases names.len() - i,
    {
        assert(texts(names@)[i as int] == names@[i as int]@);
        if same_text(names[i].as_str(), name) {
            return true;
        }
        i = i + 1;
    }
    false
}

/// The names in a container's tensor table, in the table's order.
pub open spec fn table_names(model: &Container) -> Seq<Seq<char>> {
    Seq::new(model.tensors@.len(), |i: int| model.tensors@[i].key@)
}

/// Those of `names` that are not among `claimed`, in order.
pub open spec fn without(names: Seq<Seq<char>>, claimed: Seq<Seq<char>>) -> Seq<Seq<char>>
    decreases names.len(),
{
    if names.len() == 0 {
        Seq::empty()
    } else if claimed.contains(names.last()) {
        without(names.drop_last(), claimed)
    } else {
        without(names.drop_last(), claimed).push(names.last())
    }
}

/// Bytes that those of `names` take which the container ships.
pub open spec fn bytes_of(model: &Container, names: Seq<Seq<char>>) -> nat
    decreases names.len(),
{
    if names.len() == 0 {
        0
    } else {
        bytes_of(model, names.drop_last()) + match model.tensor(names.last()) {
            Some(t) => t.size as nat,
            None => 0,
        }
    }
}

proof fn bytes_of_grows(model: &Container, names: Seq<Seq<char>>, n: int)
    requires
        0 <= n <= names.len(),
    ensures
        bytes_of(model, names.take(n)) <= bytes_of(model, names),
    decreases names.len() - n,
{
    if n < names.len() {
        bytes_of_grows(model, names, n + 1);
        assert(names.take(n + 1).drop_last() =~= names.take(n));
    } else {
        assert(names.take(n) =~= names);
    }
}

/// The bytes that those of `names` take which the container ships.
pub fn shipped_bytes(model: &Container, names: &Vec<String>) -> (bytes: u64)
    requires
        bytes_of(model, texts(names@)) <= u64::MAX,
    ensures
        bytes == bytes_of(model, texts(names@)),
{
    let ghost all = texts(names@);
    let mut bytes: u64 = 0;
    let mut i: usize = 0;
    while i < names.len()
        invariant
            i <= names.len(),
            all == texts(names@),
            bytes == bytes_of(model, all.take(i as int)),
            bytes_of(model, all) <= u64::MAX,
        decreases names.len() - i,
    {
        proof {
            bytes_of_grows(model, all, i + 1);
            assert(all.take(i + 1).drop_last() =~= all.take(i as int));
            assert(all[i as int] == names@[i as int]@);
        }
        match model.location(names[i].as_str()) {
            Some(t) => {
                bytes = bytes + t.size;
            },
            None => {},
        }
        i = i + 1;
    }
    assert(all.take(i as int) =~= all);
    bytes
}

impl Deepseek4Model {
    pub fn new(config: Deepseek4Config) -> (model: Self)
        ensures
            model.config == config,
    {
        Deepseek4Model { config }
    }

    /// Everything held in memory for the whole run, in load order.
    pub open spec fn resident(&self, model: &Container) -> Seq<Seq<char>> {
        resident_below(model, self.config.n_layer as nat)
    }

    /// The stacked expert tensors, streamed per token.
    pub open spec fn routed(&self) -> Seq<Seq<char>> {
        routed_below(self.config.n_layer as nat)
    }

    /// Everything held in memory for the whole run.
    ///
    /// Takes the container because the optional per-layer tensors have to be
    /// discovered rather than assumed.
    pub fn resident_tensor_names(&self, model: &Container) -> (names: Vec<String>)
        ensures
            texts(names@) == self.resident(model),
    {
        let always = resident_block_suffixes();
        let sometimes = optional_block_suffixes();
        let mut names: Vec<String> = Vec::new();
        push_literals(&mut names, &global_tensor_names());
        assert(texts(names@) =~= global_names());
        let mut il: u32 = 0;
        while il < self.config.n_layer
            invariant
                il <= self.config.n_layer,
                literals(always@) == resident_suffixes(),
                literals(sometimes@) == optional_suffixes(),
                texts(names@) == resident_below(model, il as nat),
            decreases self.config.n_layer - il,
        {
            push_block_names(&mut names, il, &always);
            push_shipped_names(&mut names, model, il, &sometimes);
            il = il + 1;
        }
        names
    }

    /// The attention of `layer` by what the container ships for it.
    pub open spec fn kind_shipped(model: &Container, layer: nat) -> AttentionKind {
        if model.has_tensor(block_name(layer, "indexer.proj.weight"@)) {
            AttentionKind::CompressedSparse
        } else if model.has_tensor(block_name(layer, "attn_compressor_kv.weight"@)) {
            AttentionKind::HeavilyCompressed
        } else {
            AttentionKind::Raw
        }
    }

    /// Which attention `layer` uses, decided by what the container ships. The indexer
    /// implies a compressor, so the most specific is asked for first.
    pub fn attention_kind(&self, model: &Container, layer: u32) -> (kind: AttentionKind)
        ensures
            kind == Deepseek4Model::kind_shipped(model, layer as nat),
    {
        if model.has(block_tensor(layer, "indexer.proj.weight").as_str()) {
            AttentionKind::CompressedSparse
        } else if model.has(block_tensor(layer, "attn_compressor_kv.weight").as_str()) {
            AttentionKind::HeavilyCompressed
        } else {
            AttentionKind::Raw
        }
    }

    /// The attention kind of every layer, in order.
    pub fn attention_plan(&self, model: &Container) -> (plan: Vec<AttentionKind>)
        ensures
            plan@ == Seq::new(
                self.config.n_layer as nat,
                |il: int| Deepseek4Model::kind_shipped(model, il as nat),
            ),
    {
        let mut plan: Vec<AttentionKind> = Vec::new();
        let mut il: u32 = 0;
        while il < self.config.n_layer
            invariant
                il <= self.config.n_layer,
                plan@ == Seq::new(
                    il as nat,
                    |il: int| Deepseek4Model::kind_shipped(model, il as nat),
                ),
            decreases self.config.n_layer - il,
        {
            plan.push(self.attention_kind(model, il));
            il = il + 1;
            assert(plan@ =~= Seq::new(
                il as nat,
                |il: int| Deepseek4Model::kind_shipped(model, il as nat),
            ));
        }
        plan
    }

    fn count_shipping(&self, model: &Container, suffix: &str) -> (n: usize)
        ensures
            n == blocks_shipping(model, suffix@, self.config.n_layer as nat),
    {
        let mut n: usize = 0;
        let mut il: u32 = 0;
        while il < self.config.n_layer
            invariant
                il <= self.config.n_layer,
                n == blocks_shipping(model, suffix@, il as nat),
                n <= il,
            decreases self.config.n_layer - il,
        {
            if model.has(block_tensor(il, suffix).as_str()) {
                n = n + 1;
            }
            il = il + 1;
        }
        n
    }

    /// How many blocks carry each optional tensor.
    pub fn optional_layer_counts(&self, model: &Container) -> (counts: Vec<(&'static str, usize)>)
        ensures
            counts@.len() == optional_suffixes().len(),
            forall|i: int|
                0 <= i < counts@.len() ==> (#[trigger] counts@[i]).0@ == optional_suffixes()[i]
                    && counts@[i].1 == blocks_shipping(
                    model,
                    optional_suffixes()[i],
                    self.config.n_layer as nat,
                ),
    {
        let suffixes = optional_block_suffixes();
        let mut counts: Vec<(&'static str, usize)> = Vec::new();
        let mut i: usize = 0;
        while i < suffixes.len()
            invariant
                i <= suffixes.len(),
                literals(suffixes@) == optional_suffixes(),
                counts@.len() == i,
                forall|j: int|
                    0 <= j < i ==> (#[trigger] counts@[j]).0@ == optional_suffixes()[j]
                        && counts@[j].1 == blocks_shipping(
                        model,
                        optional_suffixes()[j],
                        self.config.n_layer as nat,
                    ),
            decreases suffixes.len() - i,
        {
            let suffix: &'static str = suffixes[i];
            assert(suffix@ == literals(suffixes@)[i as int]);
            let n: usize = self.count_shipping(model, suffix);
            counts.push((suffix, n));
            i = i + 1;
        }
        assert(suffixes@.len() == literals(suffixes@).len());
        counts
    }

    /// Stacked expert tensors, streamed per token.
    pub fn routed_tensor_names(&self) -> (names: Vec<String>)
        ensures
            texts(names@) == self.routed(),
    {
        let routed = routed_block_suffixes();
        let mut names: Vec<String> = Vec::new();
        assert(texts(names@) =~= Seq::<Seq<char>>::empty());
        let mut il: u32 = 0;
        while il < self.config.n_layer
            invariant
                il <= self.config.n_layer,
                literals(routed@) == routed_suffixes(),
                texts(names@) == routed_below(il as nat),
            decreases self.config.n_layer - il,
        {
            push_block_names(&mut names, il, &routed);
            il = il + 1;
        }
        names
    }

    /// Resident then routed names.
    fn manifest(&self, model: &Container) -> (names: Vec<String>)
        ensures
            texts(names@) == self.resident(model) + self.routed(),
    {
        let mut names = self.resident_tensor_names(model);
        let mut routed = self.routed_tensor_names();
        let ghost first = names@;
        let ghost second = routed@;
        names.append(&mut routed);
        assert(texts(names@) =~= texts(first) + texts(second));
        names
    }

    /// Fail on a missing tensor now, not at layer 37 of a two-minute load.
    pub fn verify(&self, model: &Container) -> (done: Result<()>)
        ensures
            match done {
                Ok(()) => first_missing(model, self.resident(model) + self.routed(), 0) is None,
                Err(ArchError::MissingTensor(t)) => first_missing(
                    model,
                    self.resident(model) + self.routed(),
                    0,
                ) == Some(t@),
                Err(_) => false,
            },
    {
        let names = self.manifest(model);
        check_shipped(model, &names)
    }

    /// Tensors in the container that this manifest does not name, in order.
    ///
    /// The reverse of [`Self::verify`]: a tensor nobody reads is a piece of the
    /// architecture that has been silently skipped.
    pub fn unclaimed_tensors(&self, model: &Container) -> (left: Vec<String>)
        ensures
            in_order(texts(left@)),
            texts(left@).to_multiset() == without(
                table_names(model),
                self.resident(model) + self.routed(),
            ).to_multiset(),
    {
        let claimed = self.manifest(model);
        let ghost all = table_names(model);
        let ghost taken = self.resident(model) + self.routed();
        let mut left: Vec<String> = Vec::new();
        assert(texts(left@) =~= Seq::<Seq<char>>::empty());
        let mut i: usize = 0;
        while i < model.tensors.len()
            invariant
                i <= model.tensors@.len(),
                all == table_names(model),
                texts(claimed@) == taken,
                texts(left@) == without(all.take(i as int), taken),
            decreases model.tensors@.len() - i,
        {
            let ghost was = left@;
            let name: &String = &model.tensors[i].key;
            assert(all.take(i + 1).drop_last() =~= all.take(i as int));
            if !listed(&claimed, name.as_str()) {
                left.push(name.clone());
                assert(texts(left@) =~= texts(was).push(name@));
            }
            i = i + 1;
        }
        assert(all.take(i as int) =~= all);
        sort_texts(left)
    }

    /// Bytes held in memory if every resident tensor is loaded.
    pub fn resident_bytes(&self, model: &Container) -> (bytes: u64)
        requires
            bytes_of(model, self.resident(model)) <= u64::MAX,
        ensures
            bytes == bytes_of(model, self.resident(model)),
    {
        let names = self.resident_tensor_names(model);
        shipped_bytes(model, &names)
    }
}

/// Every name is a block's or outside any block.
proof fn resident_names_are_spelled(model: &Container, n: nat, i: int) -> (found: (nat, int))
    requires
        0 <= i < resident_below(model, n).len(),
    ensures
        global_names().contains(resident_below(model, n)[i]) || (found.0 < n && (0 <= found.1
            < resident_suffixes().len() && resident_below(model, n)[i] == block_name(
            found.0,
            resident_suffixes()[found.1],
        ) || 0 <= found.1 < optional_suffixes().len() && resident_below(model, n)[i] == block_name(
            found.0,
            optional_suffixes()[found.1],
        ))),
    decreases n,
{
    if n == 0 {
        (0, 0)
    } else {
        let il = (n - 1) as nat;
        let before = resident_below(model, il);
        let always = block_names(il, resident_suffixes());
        let asked = block_names(il, optional_suffixes());
        if i < before.len() {
            resident_names_are_spelled(model, il, i)
        } else if i < before.len() + always.len() {
            (il, i - before.len())
        } else {
            let j = i - before.len() - always.len();
            shipped_is_shipped(model, asked, j);
            let k = choose|k: int| 0 <= k < asked.len() && asked[k] == shipped(model, asked)[j];
            (il, k)
        }
    }
}

proof fn routed_names_are_spelled(n: nat, i: int) -> (found: (nat, int))
    requires
        0 <= i < routed_below(n).len(),
    ensures
        found.0 < n,
        0 <= found.1 < 3,
        routed_below(n)[i] == block_name(found.0, routed_suffixes()[found.1]),
    decreases n,
{
    let il = (n - 1) as nat;
    if i < routed_below(il).len() {
        routed_names_are_spelled(il, i)
    } else {
        (il, i - routed_below(il).len())
    }
}

/// Whether a suffix ends like a stacked expert tensor.
spec fn stacked(suffix: Seq<char>) -> bool {
    suffix.len() >= 12 && suffix[suffix.len() - 12] == '_' && suffix[suffix.len() - 11] == 'e'
        && suffix[suffix.len() - 10] == 'x' && suffix[suffix.len() - 9] == 'p'
        && suffix[suffix.len() - 8] == 's'
}

proof fn routed_suffixes_are_stacked(i: int)
    requires
        0 <= i < 3,
    ensures
        stacked(routed_suffixes()[i]),
{
    reveal_strlit("ffn_gate_exps.weight");
    reveal_strlit("ffn_up_exps.weight");
    reveal_strlit("ffn_down_exps.weight");
}

proof fn resident_suffixes_are_not_stacked(i: int)
    ensures
        0 <= i < resident_suffixes().len() ==> !stacked(resident_suffixes()[i]),
{
    reveal_strlit("attn_norm.weight");
    reveal_strlit("attn_q_a.weight");
    reveal_strlit("attn_q_a_norm.weight");
    reveal_strlit("attn_q_b.weight");
    reveal_strlit("attn_kv.weight");
    reveal_strlit("attn_kv_a_norm.weight");
    reveal_strlit("attn_output_a.weight");
    reveal_strlit("attn_output_b.weight");
    reveal_strlit("attn_sinks.weight");
    reveal_strlit("ffn_norm.weight");
    reveal_strlit("ffn_gate_inp.weight");
    reveal_strlit("ffn_gate_shexp.weight");
    reveal_strlit("ffn_up_shexp.weight");
    reveal_strlit("ffn_down_shexp.weight");
    reveal_strlit("hc_attn_base.weight");
    reveal_strlit("hc_attn_fn.weight");
    reveal_strlit("hc_attn_scale.weight");
    reveal_strlit("hc_ffn_base.weight");
    reveal_strlit("hc_ffn_fn.weight");
    reveal_strlit("hc_ffn_scale.weight");
}

proof fn optional_suffixes_are_not_stacked(i: int)
    ensures
        0 <= i < optional_suffixes().len() ==> !stacked(optional_suffixes()[i]),
{
    reveal_strlit("attn_compressor_ape.weight");
    reveal_strlit("attn_compressor_gate.weight");
    reveal_strlit("attn_compressor_kv.weight");
    reveal_strlit("attn_compressor_norm.weight");
    reveal_strlit("exp_probs_b.bias");
    reveal_strlit("indexer.attn_q_b.weight");
    reveal_strlit("indexer.proj.weight");
    reveal_strlit("indexer_compressor_ape.weight");
    reveal_strlit("indexer_compressor_gate.weight");
    reveal_strlit("indexer_compressor_kv.weight");
    reveal_strlit("indexer_compressor_norm.weight");
    reveal_strlit("ffn_gate_tid2eid.weight");
}

/// A tensor is held in memory or streamed, never both: no name is in both lists,
/// whatever the container ships. The shared expert is among the former.
pub proof fn resident_and_routed_are_disjoint(m: Deepseek4Model, model: &Container, i: int, j: int)
    requires
        0 <= i < m.resident(model).len(),
        0 <= j < m.routed().len(),
    ensures
        m.resident(model)[i] != m.routed()[j],
{
    let n = m.config.n_layer as nat;
    let name = m.resident(model)[i];
    let (rb, rs) = routed_names_are_spelled(n, j);
    let routed = routed_suffixes()[rs];
    routed_suffixes_are_stacked(rs);
    block_names_begin_with_blk(rb, routed);
    let (b, k) = resident_names_are_spelled(model, n, i);
    if global_names().contains(name) {
        reveal_strlit("blk.");
        reveal_strlit("token_embd.weight");
        reveal_strlit("output_norm.weight");
        reveal_strlit("output.weight");
        reveal_strlit("output_hc_base.weight");
        reveal_strlit("output_hc_fn.weight");
        reveal_strlit("output_hc_scale.weight");
        let g = choose|g: int| 0 <= g < global_names().len() && global_names()[g] == name;
        assert(name[0] != 'b');
        assert(m.routed()[j].take(4)[0] == 'b');
    } else {
        resident_suffixes_are_not_stacked(k);
        optional_suffixes_are_not_stacked(k);
        if 0 <= k < resident_suffixes().len() && name == block_name(b, resident_suffixes()[k]) {
            block_names_differ(b, resident_suffixes()[k], rb, routed);
        } else {
            block_names_differ(b, optional_suffixes()[k], rb, routed);
        }
    }
}

/// Every block contributes its three stacked tensors.
pub proof fn every_block_has_three_stacked_tensors(m: Deepseek4Model)
    ensures
        m.routed().len() == m.config.n_layer * 3,
{
    routed_length(m.config.n_layer as nat);
}

proof fn routed_length(n: nat)
    ensures
        routed_below(n).len() == n * 3,
    decreases n,
{
    if n > 0 {
        routed_length((n - 1) as nat);
    }
}

/// What passes verification has every tensor of the manifest, held or streamed.
pub proof fn verified_containers_are_complete(m: Deepseek4Model, model: &Container)
    requires
        first_missing(model, m.resident(model) + m.routed(), 0) is None,
    ensures
        forall|i: int|
            0 <= i < m.resident(model).len() ==> model.has_tensor(#[trigger] m.resident(model)[i]),
        forall|i: int|
            0 <= i < m.routed().len() ==> model.has_tensor(#[trigger] m.routed()[i]),
{
    let all = m.resident(model) + m.routed();
    nothing_missing(model, all, 0);
    assert forall|i: int| 0 <= i < m.resident(model).len() implies model.has_tensor(
        #[trigger] m.resident(model)[i],
    ) by {
        assert(all[i] == m.resident(model)[i]);
    }
    assert forall|i: int| 0 <= i < m.routed().len() implies model.has_tensor(
        #[trigger] m.routed()[i],
    ) by {
        assert(all[m.resident(model).len() + i] == m.routed()[i]);
    }
}

/// A layer that does not compress rotates plainly, whatever the container says of scaling:
/// by its own base, unscaled, with nothing extended.
pub proof fn plain_layers_are_not_scaled(
    c: Deepseek4Config,
    d: Deepseek4Config,
    layer: int,
    yarn: u32,
    other: u32,
)
    requires
        c.ratio_of(layer) is None,
        d.ratio_of(layer) is None,
        c.rope_freq_base == d.rope_freq_base,
    ensures
        c.layer_rope(layer, yarn) == d.layer_rope(layer, other),
        c.layer_rope(layer, yarn).params.freq_base == c.rope_freq_base,
        c.layer_rope(layer, yarn).params.freq_scale == F32_ONE,
        is_zero(c.layer_rope(layer, yarn).params.ext_factor),
        c.layer_rope(layer, yarn).params.attn_factor == F32_ONE,
{
}

/// A layer that compresses rotates by the compressed base and the container's scaling, and
/// never by the plain base; it attenuates exactly where something is extended.
pub proof fn compressed_layers_are_scaled(
    c: Deepseek4Config,
    d: Deepseek4Config,
    layer: int,
    yarn: u32,
)
    requires
        c.ratio_of(layer) is Some,
        d.compress_ratios == c.compress_ratios,
        d.compress_rope_freq_base == c.compress_rope_freq_base,
        d.rope_freq_scale == c.rope_freq_scale,
        d.rope_ext_factor == c.rope_ext_factor,
        d.rope_beta_fast == c.rope_beta_fast,
        d.rope_beta_slow == c.rope_beta_slow,
        d.rope_n_ctx_orig == c.rope_n_ctx_orig,
    ensures
        c.layer_rope(layer, yarn) == d.layer_rope(layer, yarn),
        ({
            let p = c.layer_rope(layer, yarn).params;
            &&& p.freq_base == c.compress_rope_freq_base
            &&& p.freq_scale == c.rope_freq_scale
            &&& p.ext_factor == c.rope_ext_factor
            &&& p.beta_fast == c.rope_beta_fast
            &&& p.beta_slow == c.rope_beta_slow
            &&& p.attn_factor == (if is_zero(c.rope_ext_factor) {
                F32_ONE
            } else {
                yarn
            })
        }),
        c.layer_rope(layer, yarn).n_ctx_orig == c.rope_n_ctx_orig as i32,
{
}

/// Which layers compress is said by the table alone: by its own entry where that is not
/// zero, and past its end none does. The shared expert goes by its own clamps and the
/// routed ones by theirs.
pub proof fn layers_go_by_their_own_entries(c: Deepseek4Config, layer: int)
    requires
        0 <= layer,
    ensures
        c.ratio_of(layer) is Some <==> layer < c.compress_ratios@.len() && c.compress_ratios@[layer]
            != 0,
        c.ratio_of(layer) matches Some(r) ==> r == c.compress_ratios@[layer],
        c.clamp_of(layer, true) matches Some(l) ==> layer < c.swiglu_clamp_shexp@.len() && l
            == c.swiglu_clamp_shexp@[layer] && exceeds(l, F32_MILLIONTH),
        c.clamp_of(layer, false) matches Some(l) ==> layer < c.swiglu_clamp_exp@.len() && l
            == c.swiglu_clamp_exp@[layer] && exceeds(l, F32_MILLIONTH),
        c.clamp_of(layer, true) is None ==> layer >= c.swiglu_clamp_shexp@.len() || !exceeds(
            c.swiglu_clamp_shexp@[layer],
            F32_MILLIONTH,
        ),
        c.clamp_of(layer, false) is None ==> layer >= c.swiglu_clamp_exp@.len() || !exceeds(
            c.swiglu_clamp_exp@[layer],
            F32_MILLIONTH,
        ),
        c.kv_lora_rank >= c.n_rot ==> c.plain_dims() + c.n_rot == c.kv_lora_rank,
{
}

} // verus!
