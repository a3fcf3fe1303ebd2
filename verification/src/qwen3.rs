//! The generic dense and mixture-of-experts transformer: which rotary convention an
//! architecture uses, what its container must hold, and what it declares.
//!
//! Two details are easy to get wrong and produce fluent nonsense rather than an error:
//! per-head Q/K normalisation, and which rotary convention pairs the dimensions. Both
//! are decided here, from the container where it says and from the name where nothing
//! in the weights reveals it.
use crate::container::Container;
use crate::deepseek4::{
    check_shipped, need, read_ext_factor, read_freq_scale, vocab_size_of, RopeParams,
};
#[allow(unused_imports)]
use crate::deepseek4::{
    embedding_has_shape, ext_factor_of, first_missing, first_undeclared, freq_scale_of, full_key,
    vocabulary,
};
use crate::error::{ArchError, Result};
use crate::float_bits::{F32_MILLIONTH, F32_ONE, F32_TEN_THOUSAND, F32_THIRTY_TWO, F32_ZERO};
use crate::names::{push_block_names, push_literals};
#[allow(unused_imports)]
use crate::names::{
    block_name, block_names, block_names_begin_with_blk, block_names_differ, literals, texts,
};
use crate::text::{same_text, starts_with};
use vstd::prelude::*;

verus! {

/// Rotation pairs dimension `i` with `i + head_dim / 2`.
pub const ROPE_TYPE_NEOX: i32 = 2;

/// Rotation pairs adjacent dimensions.
pub const ROPE_TYPE_NORM: i32 = 0;

/// Architectures known to pair adjacent dimensions.
pub open spec fn adjacent_architectures() -> Seq<Seq<char>> {
    seq!["llama"@, "llama4"@, "baichuan"@, "deci"@, "mistral"@]
}

/// Architectures known to pair halves.
pub open spec fn halves_architectures() -> Seq<Seq<char>> {
    seq![
        "qwen2"@,
        "qwen2moe"@,
        "qwen3"@,
        "qwen3moe"@,
        "phi3"@,
        "gemma"@,
        "gemma2"@,
        "gemma3"@,
        "stablelm"@,
        "olmo"@,
        "starcoder2"@,
    ]
}

/// Architectures that have been run and whose output has been read.
pub open spec fn verified_architectures() -> Seq<Seq<char>> {
    seq![
        "deepseek4"@,
        "gemma2"@,
        "llama"@,
        "phi3"@,
        "qwen2"@,
        "qwen3"@,
        "qwen3moe"@,
    ]
}

fn one_of(name: &str, list: &Vec<&'static str>) -> (yes: bool)
    ensures
        yes == literals(list@).contains(name@),
{
    let mut i: usize = 0;
    while i < list.len()
        invariant
            i <= list.len(),
            forall|j: int| 0 <= j < i ==> (#[trigger] literals(list@)[j]) != name@,
        decreases list.len() - i,
    {
        assert(literals(list@)[i as int] == list@[i as int]@);
        if same_text(name, list[i]) {
            return true;
        }
        i = i + 1;
    }
    false
}

/// Which convention an architecture uses, by name, and whether that is known.
pub open spec fn rope_type_of(arch: Seq<char>) -> (i32, bool) {
    if adjacent_architectures().contains(arch) {
        (ROPE_TYPE_NORM, true)
    } else if halves_architectures().contains(arch) {
        (ROPE_TYPE_NEOX, true)
    } else {
        (ROPE_TYPE_NEOX, false)
    }
}

/// Which convention an architecture uses, by name, and whether that is known.
///
/// The default is the majority's and still a guess, which is why the answer says so:
/// the wrong convention runs without error and produces plausible text.
pub fn rope_type_for(arch: &str) -> (r: (i32, bool))
    ensures
        r == rope_type_of(arch@),
{
    let adjacent: Vec<&'static str> = vec!["llama", "llama4", "baichuan", "deci", "mistral"];
    let halves: Vec<&'static str> = vec![
        "qwen2",
        "qwen2moe",
        "qwen3",
        "qwen3moe",
        "phi3",
        "gemma",
        "gemma2",
        "gemma3",
        "stablelm",
        "olmo",
        "starcoder2",
    ];
    assert(literals(adjacent@) =~= adjacent_architectures());
    assert(literals(halves@) =~= halves_architectures());
    if one_of(arch, &adjacent) {
        (ROPE_TYPE_NORM, true)
    } else if one_of(arch, &halves) {
        (ROPE_TYPE_NEOX, true)
    } else {
        (ROPE_TYPE_NEOX, false)
    }
}

/// Architectures that have been run and whose output has been read.
pub fn verified_architecture_names() -> (list: Vec<&'static str>)
    ensures
        literals(list@) == verified_architectures(),
{
    let list: Vec<&'static str> = vec![
        "deepseek4",
        "gemma2",
        "llama",
        "phi3",
        "qwen2",
        "qwen3",
        "qwen3moe",
    ];
    assert(literals(list@) =~= verified_architectures());
    list
}

/// Whether `arch` has been run and had its output checked. Loading is not evidence:
/// an architecture nobody has checked can load and answer wrongly and confidently.
pub fn architecture_is_verified(arch: &str) -> (yes: bool)
    ensures
        yes == verified_architectures().contains(arch@),
{
    one_of(arch, &verified_architecture_names())
}

/// Shape and hyper-parameters, read from the container rather than assumed. Fields
/// that hold a real number hold its f32 bit pattern.
#[derive(Debug, Clone, Copy, PartialEq, Eq, Structural)]
pub struct Qwen3Config {
    pub n_layer: u32,
    pub n_embd: u32,
    pub n_head: u32,
    pub n_head_kv: u32,
    pub head_dim: u32,
    pub n_ff: u32,
    pub vocab_size: u32,
    pub rms_eps: u32,
    pub rope_freq_base: u32,
    /// Linear RoPE scaling; 1 is unscaled.
    pub rope_freq_scale: u32,
    /// YaRN mix; 0 is off.
    pub rope_ext_factor: u32,
    /// YaRN's magnitude correction.
    pub rope_attn_factor: u32,
    pub rope_beta_fast: u32,
    pub rope_beta_slow: u32,
    /// The context length the model was trained at; 0 where the container did not say.
    pub rope_orig_ctx: u32,
    /// Expert count; zero for the dense variant.
    pub n_expert: u32,
    pub n_expert_used: u32,
    pub n_ff_expert: u32,
    /// Each block carries `attn_q_norm` and `attn_k_norm`.
    pub qk_norm: bool,
    /// [`ROPE_TYPE_NORM`] or [`ROPE_TYPE_NEOX`].
    pub rope_type: i32,
    /// False when the type is a default rather than a fact.
    pub rope_type_is_known: bool,
    /// Q, K and V projections carry a bias vector.
    pub attn_bias: bool,
    /// Q, K and V share one `attn_qkv` tensor.
    pub fused_qkv: bool,
    /// The FFN gate and up projections share one `ffn_up` tensor, gate first.
    pub fused_gate_up: bool,
    /// Attention and FFN outputs are normalised again before the residual.
    pub post_norms: bool,
    /// Embeddings are multiplied by the square root of `n_embd` on the way in.
    pub scale_embeddings: bool,
    /// Soft cap on attention logits; 0 is none.
    pub attn_logit_softcap: u32,
    /// Soft cap on the final logits; 0 is none.
    pub final_logit_softcap: u32,
    /// Sliding-window attention width; 0 is full attention.
    pub sliding_window: u32,
}

/// Metadata keys a container must declare, in the order they are asked for.
pub open spec fn needed_qwen3_keys() -> Seq<Seq<char>> {
    seq!["embedding_length"@, "attention.head_count"@, "block_count"@]
}

impl Qwen3Config {
    /// The configuration holds what the container declares, with the defaults for
    /// what it leaves out.
    pub open spec fn describes(self, m: &Container) -> bool {
        &&& m.int_at("block_count"@) is Some && self.n_layer == m.int_at("block_count"@)->0 as u32
        &&& m.int_at("embedding_length"@) is Some && self.n_embd == m.int_at(
            "embedding_length"@,
        )->0 as u32
        &&& m.int_at("attention.head_count"@) is Some && self.n_head == m.int_at(
            "attention.head_count"@,
        )->0 as u32
        &&& self.n_head_kv == m.int_or("attention.head_count_kv"@, self.n_head as u64) as u32
        &&& self.head_dim == m.int_or(
            "attention.key_length"@,
            (self.n_embd / (if self.n_head == 0 {
                1u32
            } else {
                self.n_head
            })) as u64,
        ) as u32
        &&& self.n_ff == m.int_or("feed_forward_length"@, 0) as u32
        &&& self.vocab_size == vocabulary(m) as u32
        &&& self.rms_eps == m.float_or("attention.layer_norm_rms_epsilon"@, F32_MILLIONTH)
        &&& self.rope_freq_base == m.float_or("rope.freq_base"@, F32_TEN_THOUSAND)
        &&& self.rope_freq_scale == freq_scale_of(m)
        &&& self.rope_ext_factor == ext_factor_of(m)
        &&& self.rope_attn_factor == m.float_or("rope.scaling.attn_factor"@, F32_ONE)
        &&& self.rope_beta_fast == m.float_or("rope.scaling.beta_fast"@, F32_THIRTY_TWO)
        &&& self.rope_beta_slow == m.float_or("rope.scaling.beta_slow"@, F32_ONE)
        &&& self.rope_orig_ctx == m.int_or("rope.scaling.original_context_length"@, 0) as u32
        &&& self.n_expert == m.int_or("expert_count"@, 0) as u32
        &&& self.n_expert_used == m.int_or("expert_used_count"@, 0) as u32
        &&& self.n_ff_expert == m.int_or("expert_feed_forward_length"@, 0) as u32
        &&& self.qk_norm == m.has_tensor("blk.0.attn_q_norm.weight"@)
        &&& self.rope_type == rope_type_of(m.architecture@).0
        &&& self.rope_type_is_known == rope_type_of(m.architecture@).1
        &&& self.attn_bias == m.has_tensor("blk.0.attn_q.bias"@)
        &&& self.fused_qkv == m.has_tensor("blk.0.attn_qkv.weight"@)
        &&& self.fused_gate_up == (!m.has_tensor("blk.0.ffn_gate.weight"@) && m.has_tensor(
            "blk.0.ffn_up.weight"@,
        ))
        &&& self.post_norms == m.has_tensor("blk.0.post_attention_norm.weight"@)
        &&& self.scale_embeddings == "gemma"@.is_prefix_of(m.architecture@)
        &&& self.attn_logit_softcap == m.float_or("attn_logit_softcapping"@, F32_ZERO)
        &&& self.final_logit_softcap == m.float_or("final_logit_softcapping"@, F32_ZERO)
        &&& self.sliding_window == m.int_or("attention.sliding_window"@, 0) as u32
    }

    /// Reads the configuration, refusing a container that leaves out a key there is
    /// no default for.
    pub fn from_model(model: &Container) -> (config: Result<Self>)
        requires
            embedding_has_shape(model),
        ensures
            match config {
                Ok(c) => c.describes(model),
                Err(ArchError::MissingMetadata(k)) => {
                    &&& first_undeclared(model, needed_qwen3_keys(), 0) matches Some(suffix)
                    &&& k@ == full_key(model.architecture@, suffix)
                },
                Err(_) => false,
            },
    {
        proof {
            reveal_with_fuel(first_undeclared, 4);
        }
        let n_embd: u32 = need(model, "embedding_length")? as u32;
        let n_head: u32 = need(model, "attention.head_count")? as u32;
        let heads: u32 = if n_head == 0 {
            1
        } else {
            n_head
        };
        let head_dim: u32 = model.arch_u64_or(
            "attention.key_length",
            (n_embd / heads) as u64,
        ) as u32;
        let n_layer: u32 = need(model, "block_count")? as u32;
        let rope = rope_type_for(model.architecture.as_str());
        Ok(
            Qwen3Config {
                n_layer,
                n_embd,
                n_head,
                n_head_kv: model.arch_u64_or("attention.head_count_kv", n_head as u64) as u32,
                head_dim,
                n_ff: model.arch_u64_or("feed_forward_length", 0) as u32,
                vocab_size: vocab_size_of(model) as u32,
                rms_eps: model.arch_f32_or("attention.layer_norm_rms_epsilon", F32_MILLIONTH),
                rope_freq_base: model.arch_f32_or("rope.freq_base", F32_TEN_THOUSAND),
                // The container's factor multiplies the context, so the frequency
                // scale is its reciprocal.
                rope_freq_scale: read_freq_scale(model),
                rope_ext_factor: read_ext_factor(model),
                rope_attn_factor: model.arch_f32_or("rope.scaling.attn_factor", F32_ONE),
                rope_beta_fast: model.arch_f32_or("rope.scaling.beta_fast", F32_THIRTY_TWO),
                rope_beta_slow: model.arch_f32_or("rope.scaling.beta_slow", F32_ONE),
                rope_orig_ctx: model.arch_u64_or(
                    "rope.scaling.original_context_length",
                    0,
                ) as u32,
                n_expert: model.arch_u64_or("expert_count", 0) as u32,
                n_expert_used: model.arch_u64_or("expert_used_count", 0) as u32,
                n_ff_expert: model.arch_u64_or("expert_feed_forward_length", 0) as u32,
                // Asked of the container, not of the architecture name.
                qk_norm: model.has("blk.0.attn_q_norm.weight"),
                rope_type: rope.0,
                rope_type_is_known: rope.1,
                attn_bias: model.has("blk.0.attn_q.bias"),
                fused_qkv: model.has("blk.0.attn_qkv.weight"),
                fused_gate_up: !model.has("blk.0.ffn_gate.weight") && model.has(
                    "blk.0.ffn_up.weight",
                ),
                post_norms: model.has("blk.0.post_attention_norm.weight"),
                // Keyed on the name because nothing in the weights reveals it.
                scale_embeddings: starts_with(model.architecture.as_str(), "gemma"),
                attn_logit_softcap: model.arch_f32_or("attn_logit_softcapping", F32_ZERO),
                final_logit_softcap: model.arch_f32_or("final_logit_softcapping", F32_ZERO),
                sliding_window: model.arch_u64_or("attention.sliding_window", 0) as u32,
            },
        )
    }

    pub open spec fn moe(self) -> bool {
        self.n_expert > 0 && self.n_expert_used > 0
    }

    /// Whether the feed-forward is a mixture of experts.
    pub fn is_moe(&self) -> (yes: bool)
        ensures
            yes == self.moe(),
    {
        self.n_expert > 0 && self.n_expert_used > 0
    }

    /// The longest sequence this build can run correctly for this model. No
    /// architecture has a limit of the implementation's own.
    pub fn correct_context_limit(&self) -> (n: usize)
        ensures
            n == usize::MAX,
    {
        usize::MAX
    }

    /// What the rotation is parameterised by.
    pub fn rope(&self) -> (rope: RopeParams)
        ensures
            rope == self.rope_params(),
    {
        RopeParams {
            freq_base: self.rope_freq_base,
            freq_scale: self.rope_freq_scale,
            ext_factor: self.rope_ext_factor,
            attn_factor: self.rope_attn_factor,
            beta_fast: self.rope_beta_fast,
            beta_slow: self.rope_beta_slow,
        }
    }

    /// What the rotation is parameterised by.
    pub open spec fn rope_params(self) -> RopeParams {
        RopeParams {
            freq_base: self.rope_freq_base,
            freq_scale: self.rope_freq_scale,
            ext_factor: self.rope_ext_factor,
            attn_factor: self.rope_attn_factor,
            beta_fast: self.rope_beta_fast,
            beta_slow: self.rope_beta_slow,
        }
    }
}

// ------------------------------------------------------------------ manifest

/// What every block needs of the tensors named here, in load order.
pub open spec fn block_suffixes(c: Qwen3Config) -> Seq<Seq<char>> {
    let plain = Seq::<Seq<char>>::empty();
    seq!["attn_norm.weight"@, "attn_output.weight"@, "ffn_norm.weight"@] + (if c.post_norms {
        seq!["post_attention_norm.weight"@, "post_ffw_norm.weight"@]
    } else {
        plain
    }) + (if c.fused_qkv {
        seq!["attn_qkv.weight"@]
    } else {
        seq!["attn_q.weight"@, "attn_k.weight"@, "attn_v.weight"@] + (if c.attn_bias {
            seq!["attn_q.bias"@, "attn_k.bias"@, "attn_v.bias"@]
        } else {
            plain
        })
    }) + (if c.qk_norm {
        seq!["attn_q_norm.weight"@, "attn_k_norm.weight"@]
    } else {
        plain
    }) + (if c.moe() {
        seq![
            "ffn_gate_inp.weight"@,
            "ffn_gate_exps.weight"@,
            "ffn_up_exps.weight"@,
            "ffn_down_exps.weight"@,
        ]
    } else if c.fused_gate_up {
        seq!["ffn_up.weight"@, "ffn_down.weight"@]
    } else {
        seq!["ffn_gate.weight"@, "ffn_up.weight"@, "ffn_down.weight"@]
    })
}

/// What the blocks below `n` need, after what every model needs.
pub open spec fn required_below(c: Qwen3Config, n: nat) -> Seq<Seq<char>>
    decreases n,
{
    if n == 0 {
        seq!["token_embd.weight"@, "output_norm.weight"@]
    } else {
        required_below(c, (n - 1) as nat) + block_names((n - 1) as nat, block_suffixes(c))
    }
}

fn block_suffix_list(c: &Qwen3Config) -> (list: Vec<&'static str>)
    ensures
        literals(list@) == block_suffixes(*c),
{
    let mut list: Vec<&'static str> = vec![
        "attn_norm.weight",
        "attn_output.weight",
        "ffn_norm.weight",
    ];
    if c.post_norms {
        list.push("post_attention_norm.weight");
        list.push("post_ffw_norm.weight");
    }
    if c.fused_qkv {
        list.push("attn_qkv.weight");
    } else {
        list.push("attn_q.weight");
        list.push("attn_k.weight");
        list.push("attn_v.weight");
        if c.attn_bias {
            list.push("attn_q.bias");
            list.push("attn_k.bias");
            list.push("attn_v.bias");
        }
    }
    // Only some containers carry these; asking for them of the others would refuse
    // every one of them.
    if c.qk_norm {
        list.push("attn_q_norm.weight");
        list.push("attn_k_norm.weight");
    }
    if c.is_moe() {
        list.push("ffn_gate_inp.weight");
        list.push("ffn_gate_exps.weight");
        list.push("ffn_up_exps.weight");
        list.push("ffn_down_exps.weight");
    } else if c.fused_gate_up {
        list.push("ffn_up.weight");
        list.push("ffn_down.weight");
    } else {
        list.push("ffn_gate.weight");
        list.push("ffn_up.weight");
        list.push("ffn_down.weight");
    }
    assert(literals(list@) =~= block_suffixes(*c));
    list
}

/// Weight names an architecture needs, so a missing one is reported by name rather
/// than deep in a graph.
pub struct Qwen3Model {
    pub config: Qwen3Config,
}

impl Qwen3Model {
    pub fn new(config: Qwen3Config) -> (model: Self)
        ensures
            model.config == config,
    {
        Qwen3Model { config }
    }

    /// Every tensor this architecture reads, in load order.
    pub open spec fn required(&self) -> Seq<Seq<char>> {
        required_below(self.config, self.config.n_layer as nat)
    }

    /// Every tensor this architecture reads, in load order.
    pub fn required_tensors(&self) -> (names: Vec<String>)
        ensures
            texts(names@) == self.required(),
    {
        let suffixes = block_suffix_list(&self.config);
        let mut names: Vec<String> = Vec::new();
        let globals: Vec<&'static str> = vec!["token_embd.weight", "output_norm.weight"];
        push_literals(&mut names, &globals);
        assert(texts(names@) =~= required_below(self.config, 0));
        let mut il: u32 = 0;
        while il < self.config.n_layer
            invariant
                il <= self.config.n_layer,
                literals(suffixes@) == block_suffixes(self.config),
                texts(names@) == required_below(self.config, il as nat),
            decreases self.config.n_layer - il,
        {
            push_block_names(&mut names, il, &suffixes);
            il = il + 1;
        }
        names
    }

    /// Check the container has everything, before any weights are read. The output
    /// projection may be tied to the embeddings, so it is not asked for.
    pub fn verify(&self, model: &Container) -> (done: Result<()>)
        ensures
            match done {
                Ok(()) => first_missing(model, self.required(), 0) is None,
                Err(ArchError::MissingTensor(t)) => first_missing(model, self.required(), 0)
                    == Some(t@),
                Err(_) => false,
            },
    {
        let names = self.required_tensors();
        check_shipped(model, &names)
    }

    /// The output projection's name: the embeddings' when the container ships no
    /// separate one.
    pub open spec fn output_name(model: &Container) -> Seq<char> {
        if model.has_tensor("output.weight"@) {
            "output.weight"@
        } else {
            "token_embd.weight"@
        }
    }

    /// Name of the output projection.
    pub fn output_weight_name(&self, model: &Container) -> (name: &'static str)
        ensures
            name@ == Qwen3Model::output_name(model),
    {
        if model.has("output.weight") {
            "output.weight"
        } else {
            "token_embd.weight"
        }
    }
}

/// Every block asks for its own copy of every suffix, and nothing else is asked for
/// beside the two tensors outside any block.
pub proof fn every_layer_is_accounted_for(c: Qwen3Config, n: nat, il: nat, i: int)
    requires
        il < n,
        0 <= i < block_suffixes(c).len(),
    ensures
        required_below(c, n).contains(block_name(il, block_suffixes(c)[i])),
    decreases n,
{
    let last = (n - 1) as nat;
    let name = block_name(il, block_suffixes(c)[i]);
    let before = required_below(c, last);
    if il == last {
        assert(block_names(last, block_suffixes(c))[i] == name);
        assert(required_below(c, n)[before.len() + i] == name);
    } else {
        every_layer_is_accounted_for(c, last, il, i);
        let j = choose|j: int| 0 <= j < before.len() && before[j] == name;
        assert(required_below(c, n)[j] == name);
    }
}

/// A length and two characters tell the suffixes apart.
spec fn spelling(suffix: Seq<char>) -> (nat, char, char) {
    (suffix.len(), suffix[4], suffix[5])
}

proof fn spellings()
    ensures
        spelling("attn_norm.weight"@) == (16nat, '_', 'n'),
        spelling("attn_output.weight"@) == (18nat, '_', 'o'),
        spelling("ffn_norm.weight"@) == (15nat, 'n', 'o'),
        spelling("post_attention_norm.weight"@) == (26nat, '_', 'a'),
        spelling("post_ffw_norm.weight"@) == (20nat, '_', 'f'),
        spelling("attn_qkv.weight"@) == (15nat, '_', 'q'),
        spelling("attn_q.weight"@) == (13nat, '_', 'q'),
        spelling("attn_k.weight"@) == (13nat, '_', 'k'),
        spelling("attn_v.weight"@) == (13nat, '_', 'v'),
        spelling("attn_q.bias"@) == (11nat, '_', 'q'),
        spelling("attn_k.bias"@) == (11nat, '_', 'k'),
        spelling("attn_v.bias"@) == (11nat, '_', 'v'),
        spelling("attn_q_norm.weight"@) == (18nat, '_', 'q'),
        spelling("attn_k_norm.weight"@) == (18nat, '_', 'k'),
        spelling("ffn_gate_inp.weight"@) == (19nat, 'g', 'a'),
        spelling("ffn_gate_exps.weight"@) == (20nat, 'g', 'a'),
        spelling("ffn_up_exps.weight"@) == (18nat, 'u', 'p'),
        spelling("ffn_down_exps.weight"@) == (20nat, 'd', 'o'),
        spelling("ffn_gate.weight"@) == (15nat, 'g', 'a'),
        spelling("ffn_up.weight"@) == (13nat, 'u', 'p'),
        spelling("ffn_down.weight"@) == (15nat, 'd', 'o'),
{
    reveal_strlit("attn_norm.weight");
    reveal_strlit("attn_output.weight");
    reveal_strlit("ffn_norm.weight");
    reveal_strlit("post_attention_norm.weight");
    reveal_strlit("post_ffw_norm.weight");
    reveal_strlit("attn_qkv.weight");
    reveal_strlit("attn_q.weight");
    reveal_strlit("attn_k.weight");
    reveal_strlit("attn_v.weight");
    reveal_strlit("attn_q.bias");
    reveal_strlit("attn_k.bias");
    reveal_strlit("attn_v.bias");
    reveal_strlit("attn_q_norm.weight");
    reveal_strlit("attn_k_norm.weight");
    reveal_strlit("ffn_gate_inp.weight");
    reveal_strlit("ffn_gate_exps.weight");
    reveal_strlit("ffn_up_exps.weight");
    reveal_strlit("ffn_down_exps.weight");
    reveal_strlit("ffn_gate.weight");
    reveal_strlit("ffn_up.weight");
    reveal_strlit("ffn_down.weight");
}

/// Where a suffix stands in a block's list says when it is asked for.
proof fn suffix_is_conditional(c: Qwen3Config, i: int)
    requires
        0 <= i < block_suffixes(c).len(),
    ensures
        ({
            let s = block_suffixes(c)[i];
            &&& s == "attn_q_norm.weight"@ ==> c.qk_norm
            &&& s == "attn_k_norm.weight"@ ==> c.qk_norm
            &&& s == "ffn_gate_exps.weight"@ ==> c.moe()
            &&& s == "ffn_up_exps.weight"@ ==> c.moe()
            &&& s == "ffn_down_exps.weight"@ ==> c.moe()
            &&& s == "ffn_gate.weight"@ ==> !c.moe() && !c.fused_gate_up
        }),
{
    spellings();
}

/// A container without per-head norms is not asked for them, and one that has them is.
pub proof fn qk_norm_is_required_exactly_where_present(c: Qwen3Config)
    ensures
        block_suffixes(c).contains("attn_q_norm.weight"@) <==> c.qk_norm,
        block_suffixes(c).contains("attn_k_norm.weight"@) <==> c.qk_norm,
{
    let s = block_suffixes(c);
    if c.qk_norm {
        let at = 3 + (if c.post_norms {
            2int
        } else {
            0
        }) + (if c.fused_qkv {
            1int
        } else if c.attn_bias {
            6
        } else {
            3
        });
        assert(s[at] == "attn_q_norm.weight"@);
        assert(s[at + 1] == "attn_k_norm.weight"@);
    } else {
        assert forall|i: int| 0 <= i < s.len() implies s[i] != "attn_q_norm.weight"@ && s[i]
            != "attn_k_norm.weight"@ by {
            suffix_is_conditional(c, i);
        }
    }
}

/// A dense model is not asked for experts, and a mixture is asked for them and not for
/// a dense gate.
pub proof fn experts_are_required_exactly_of_mixtures(c: Qwen3Config)
    ensures
        block_suffixes(c).contains("ffn_gate_exps.weight"@) <==> c.moe(),
        block_suffixes(c).contains("ffn_up_exps.weight"@) <==> c.moe(),
        block_suffixes(c).contains("ffn_down_exps.weight"@) <==> c.moe(),
        block_suffixes(c).contains("ffn_gate.weight"@) <==> !c.moe() && !c.fused_gate_up,
{
    let s = block_suffixes(c);
    assert forall|i: int| 0 <= i < s.len() implies {
        &&& s[i] == "ffn_gate_exps.weight"@ ==> c.moe()
        &&& s[i] == "ffn_up_exps.weight"@ ==> c.moe()
        &&& s[i] == "ffn_down_exps.weight"@ ==> c.moe()
        &&& s[i] == "ffn_gate.weight"@ ==> !c.moe() && !c.fused_gate_up
    } by {
        suffix_is_conditional(c, i);
    }
    if c.moe() {
        assert(s[s.len() - 3] == "ffn_gate_exps.weight"@);
        assert(s[s.len() - 2] == "ffn_up_exps.weight"@);
        assert(s[s.len() - 1] == "ffn_down_exps.weight"@);
    } else if !c.fused_gate_up {
        assert(s[s.len() - 3] == "ffn_gate.weight"@);
    }
}

/// Where a suffix stands among all those a block can need.
spec fn suffix_place(suffix: Seq<char>) -> int {
    let s = spelling(suffix);
    if s == (16nat, '_', 'n') {
        0
    } else if s == (18nat, '_', 'o') {
        1
    } else if s == (15nat, 'n', 'o') {
        2
    } else if s == (26nat, '_', 'a') {
        3
    } else if s == (20nat, '_', 'f') {
        4
    } else if s == (15nat, '_', 'q') {
        5
    } else if s == (13nat, '_', 'q') {
        6
    } else if s == (13nat, '_', 'k') {
        7
    } else if s == (13nat, '_', 'v') {
        8
    } else if s == (11nat, '_', 'q') {
        9
    } else if s == (11nat, '_', 'k') {
        10
    } else if s == (11nat, '_', 'v') {
        11
    } else if s == (18nat, '_', 'q') {
        12
    } else if s == (18nat, '_', 'k') {
        13
    } else if s == (19nat, 'g', 'a') {
        14
    } else if s == (20nat, 'g', 'a') {
        15
    } else if s == (18nat, 'u', 'p') {
        16
    } else if s == (20nat, 'd', 'o') {
        17
    } else if s == (15nat, 'g', 'a') {
        18
    } else if s == (13nat, 'u', 'p') {
        19
    } else {
        20
    }
}

/// The texts at the places of [`suffix_place`] stand in their order.
spec fn in_place(suffixes: Seq<Seq<char>>, from: int, to: int) -> bool {
    &&& forall|i: int| 0 <= i < suffixes.len() ==> from <= suffix_place(#[trigger] suffixes[i]) < to
    &&& forall|i: int, j: int|
        0 <= i < j < suffixes.len() ==> suffix_place(#[trigger] suffixes[i]) < suffix_place(
            #[trigger] suffixes[j],
        )
}

proof fn in_place_joins(a: Seq<Seq<char>>, b: Seq<Seq<char>>, from: int, mid: int, to: int)
    requires
        from <= mid <= to,
        in_place(a, from, mid),
        in_place(b, mid, to),
    ensures
        in_place(a + b, from, to),
{
    let s = a + b;
    assert forall|i: int| 0 <= i < s.len() implies from <= suffix_place(#[trigger] s[i]) < to by {
        if i < a.len() {
            assert(s[i] == a[i]);
        } else {
            assert(s[i] == b[i - a.len()]);
        }
    }
    assert forall|i: int, j: int| 0 <= i < j < s.len() implies suffix_place(#[trigger] s[i])
        < suffix_place(#[trigger] s[j]) by {
        if j < a.len() {
            assert(s[i] == a[i] && s[j] == a[j]);
        } else if i < a.len() {
            assert(s[i] == a[i] && s[j] == b[j - a.len()]);
        } else {
            assert(s[i] == b[i - a.len()] && s[j] == b[j - a.len()]);
        }
    }
}

/// A block asks for no suffix twice.
proof fn block_suffixes_differ(c: Qwen3Config)
    ensures
        block_suffixes(c).no_duplicates(),
{
    spellings();
    let plain = Seq::<Seq<char>>::empty();
    let norms = seq!["attn_norm.weight"@, "attn_output.weight"@, "ffn_norm.weight"@];
    let post = if c.post_norms {
        seq!["post_attention_norm.weight"@, "post_ffw_norm.weight"@]
    } else {
        plain
    };
    let weights = seq!["attn_q.weight"@, "attn_k.weight"@, "attn_v.weight"@];
    let biases = if c.attn_bias {
        seq!["attn_q.bias"@, "attn_k.bias"@, "attn_v.bias"@]
    } else {
        plain
    };
    let qkv = if c.fused_qkv {
        seq!["attn_qkv.weight"@]
    } else {
        weights + biases
    };
    let head = if c.qk_norm {
        seq!["attn_q_norm.weight"@, "attn_k_norm.weight"@]
    } else {
        plain
    };
    let ffn = if c.moe() {
        seq![
            "ffn_gate_inp.weight"@,
            "ffn_gate_exps.weight"@,
            "ffn_up_exps.weight"@,
            "ffn_down_exps.weight"@,
        ]
    } else if c.fused_gate_up {
        seq!["ffn_up.weight"@, "ffn_down.weight"@]
    } else {
        seq!["ffn_gate.weight"@, "ffn_up.weight"@, "ffn_down.weight"@]
    };
    assert(in_place(norms, 0, 3));
    assert(in_place(post, 3, 5));
    assert(in_place(weights, 5, 9));
    assert(in_place(biases, 9, 12));
    in_place_joins(weights, biases, 5, 9, 12);
    assert(in_place(qkv, 5, 12));
    assert(in_place(head, 12, 14));
    assert(in_place(ffn, 14, 21));
    in_place_joins(norms, post, 0, 3, 5);
    in_place_joins(norms + post, qkv, 0, 5, 12);
    in_place_joins(norms + post + qkv, head, 0, 12, 14);
    in_place_joins(norms + post + qkv + head, ffn, 0, 14, 21);
    let s = block_suffixes(c);
    assert(s == norms + post + qkv + head + ffn);
    assert forall|i: int, j: int| 0 <= i < s.len() && 0 <= j < s.len() && i != j implies s[i]
        != s[j] by {
        if i < j {
            assert(suffix_place(s[i]) < suffix_place(s[j]));
        } else {
            assert(suffix_place(s[j]) < suffix_place(s[i]));
        }
    }
}

/// What the blocks below `n` need is named after a block below `n`, but for the two
/// tensors outside any block.
proof fn required_is_of_a_block_below(c: Qwen3Config, n: nat, k: int)
    requires
        2 <= k < required_below(c, n).len(),
    ensures
        exists|il: nat, i: int|
            il < n && 0 <= i < block_suffixes(c).len() && required_below(c, n)[k] == #[trigger] block_name(
                il,
                block_suffixes(c)[i],
            ),
    decreases n,
{
    if n > 0 {
        let last = (n - 1) as nat;
        let before = required_below(c, last);
        if k < before.len() {
            required_is_of_a_block_below(c, last, k);
        } else {
            let i = k - before.len();
            assert(required_below(c, n)[k] == block_name(last, block_suffixes(c)[i]));
        }
    }
}

proof fn globals_come_first(c: Qwen3Config, n: nat)
    ensures
        required_below(c, n).len() >= 2,
        required_below(c, n)[0] == "token_embd.weight"@,
        required_below(c, n)[1] == "output_norm.weight"@,
    decreases n,
{
    if n > 0 {
        globals_come_first(c, (n - 1) as nat);
    }
}

proof fn required_below_differ(c: Qwen3Config, n: nat)
    ensures
        required_below(c, n).no_duplicates(),
    decreases n,
{
    globals_come_first(c, n);
    reveal_strlit("token_embd.weight");
    reveal_strlit("output_norm.weight");
    reveal_strlit("blk.");
    if n > 0 {
        let last = (n - 1) as nat;
        let before = required_below(c, last);
        let suffixes = block_suffixes(c);
        let s = required_below(c, n);
        required_below_differ(c, last);
        block_suffixes_differ(c);
        globals_come_first(c, last);
        assert forall|i: int, j: int| 0 <= i < j < s.len() implies s[i] != s[j] by {
            if j < before.len() {
                assert(s[i] == before[i] && s[j] == before[j]);
            } else {
                let t = suffixes[j - before.len()];
                assert(s[j] == block_name(last, t));
                if i >= before.len() {
                    assert(s[i] == block_name(last, suffixes[i - before.len()]));
                    block_names_differ(last, suffixes[i - before.len()], last, t);
                } else if i >= 2 {
                    required_is_of_a_block_below(c, last, i);
                    let (il, k) = choose|il: nat, k: int|
                        il < last && 0 <= k < suffixes.len() && before[i] == #[trigger] block_name(
                            il,
                            suffixes[k],
                        );
                    block_names_differ(il, suffixes[k], last, t);
                } else {
                    block_names_begin_with_blk(last, t);
                    assert(s[j].take(4)[0] == 'b');
                    assert(s[j][0] == 'b');
                }
            }
        }
        assert forall|i: int, j: int| 0 <= i < s.len() && 0 <= j < s.len() && i != j implies s[i]
            != s[j] by {
            if j < i {
                assert(s[j] != s[i]);
            }
        }
    } else {
        assert("token_embd.weight"@[0] == 't');
        assert("output_norm.weight"@[0] == 'o');
    }
}

/// No tensor is asked for twice.
pub proof fn no_tensor_is_required_twice(model: Qwen3Model)
    ensures
        model.required().no_duplicates(),
{
    required_below_differ(model.config, model.config.n_layer as nat);
}

} // verus!
