//! What a configuration says of the container it was read from, entry by entry.
#[allow(unused_imports)]
use crate::container::{seek, seek_finds, value_of, Container, Entry, FloatValue, IntValue, TensorInfo};
#[allow(unused_imports)]
use crate::deepseek4::{first_undeclared, needed_keys, Deepseek4Config};
#[allow(unused_imports)]
use crate::float_bits::{
    F32_MILLIONTH, F32_ONE, F32_TEN_THOUSAND, F32_THIRTY_TWO, F32_ZERO,
};
#[allow(unused_imports)]
use crate::qwen3::{needed_qwen3_keys, Qwen3Config};
use vstd::prelude::*;

verus! {

/// `key` stands in the table, first with `value`.
pub open spec fn entered<T>(entries: Seq<Entry<T>>, key: Seq<char>, value: T) -> bool {
    exists|i: int|
        0 <= i < entries.len() && (#[trigger] entries[i]).key@ == key && entries[i].value == value
            && forall|j: int| 0 <= j < i ==> (#[trigger] entries[j]).key@ != key
}

/// `key` does not stand in the table.
pub open spec fn unentered<T>(entries: Seq<Entry<T>>, key: Seq<char>) -> bool {
    forall|j: int| 0 <= j < entries.len() ==> (#[trigger] entries[j]).key@ != key
}

/// `r` is the reciprocal of a positive value.
pub open spec fn is_reciprocal(v: FloatValue, r: u32) -> bool {
    v.reciprocal == Some(r)
}

/// A lookup gives the first entry of its key, and gives nothing only where there is none.
pub proof fn entries_are_found<T>(entries: Seq<Entry<T>>, key: Seq<char>)
    ensures
        forall|v: T| #[trigger] entered(entries, key, v) ==> value_of(entries, key) == Some(v),
        unentered(entries, key) <==> value_of(entries, key) is None,
        value_of(entries, key) matches Some(v) ==> entered(entries, key, v),
{
    seek_finds(entries, key, 0);
    assert forall|v: T| #[trigger] entered(entries, key, v) implies value_of(entries, key) == Some(
        v,
    ) by {
        let i = choose|i: int|
            0 <= i < entries.len() && (#[trigger] entries[i]).key@ == key && entries[i].value == v
                && forall|j: int| 0 <= j < i ==> (#[trigger] entries[j]).key@ != key;
        match seek(entries, key, 0) {
            Some(k) => {
                assert(k == i) by {
                    if k < i {
                        assert(entries[k].key@ != key);
                    } else if i < k {
                        assert(entries[i].key@ != key);
                    }
                }
            },
            None => {
                assert(entries[i].key@ != key);
            },
        }
    }
}

/// A dense or mixture configuration holds the entry of each key, and the documented
/// default where the container leaves a key out.
pub proof fn a_configuration_holds_its_entries(c: Qwen3Config, m: &Container)
    requires
        c.describes(m),
    ensures
        forall|v: IntValue|
            #[trigger] entered(m.ints@, "block_count"@, v) ==> c.n_layer == v.value as u32,
        forall|v: IntValue|
            #[trigger] entered(m.ints@, "embedding_length"@, v) ==> c.n_embd == v.value as u32,
        forall|v: IntValue|
            #[trigger] entered(m.ints@, "attention.head_count"@, v) ==> c.n_head == v.value as u32,
        forall|v: IntValue|
            #[trigger] entered(m.ints@, "attention.head_count_kv"@, v) ==> c.n_head_kv == v.value as u32,
        unentered(m.ints@, "attention.head_count_kv"@) ==> c.n_head_kv == c.n_head,
        forall|v: IntValue|
            #[trigger] entered(m.ints@, "attention.key_length"@, v) ==> c.head_dim == v.value as u32,
        forall|v: IntValue|
            #[trigger] entered(m.ints@, "feed_forward_length"@, v) ==> c.n_ff == v.value as u32,
        unentered(m.ints@, "feed_forward_length"@) ==> c.n_ff == 0,
        forall|v: IntValue|
            #[trigger] entered(m.ints@, "vocab_size"@, v) ==> c.vocab_size == v.value as u32,
        forall|v: FloatValue|
            #[trigger] entered(m.floats@, "attention.layer_norm_rms_epsilon"@, v) ==> c.rms_eps == v.bits,
        unentered(m.floats@, "attention.layer_norm_rms_epsilon"@) ==> c.rms_eps == F32_MILLIONTH,
        forall|v: FloatValue|
            #[trigger] entered(m.floats@, "rope.freq_base"@, v) ==> c.rope_freq_base == v.bits,
        unentered(m.floats@, "rope.freq_base"@) ==> c.rope_freq_base == F32_TEN_THOUSAND,
        forall|v: FloatValue|
            #[trigger] entered(m.floats@, "rope.scaling.attn_factor"@, v) ==> c.rope_attn_factor == v.bits,
        unentered(m.floats@, "rope.scaling.attn_factor"@) ==> c.rope_attn_factor == F32_ONE,
        forall|v: FloatValue|
            #[trigger] entered(m.floats@, "rope.scaling.beta_fast"@, v) ==> c.rope_beta_fast == v.bits,
        unentered(m.floats@, "rope.scaling.beta_fast"@) ==> c.rope_beta_fast == F32_THIRTY_TWO,
        forall|v: FloatValue|
            #[trigger] entered(m.floats@, "rope.scaling.beta_slow"@, v) ==> c.rope_beta_slow == v.bits,
        unentered(m.floats@, "rope.scaling.beta_slow"@) ==> c.rope_beta_slow == F32_ONE,
        forall|v: IntValue|
            #[trigger] entered(m.ints@, "rope.scaling.original_context_length"@, v) ==> c.rope_orig_ctx == v.value as u32,
        unentered(m.ints@, "rope.scaling.original_context_length"@) ==> c.rope_orig_ctx == 0,
        forall|v: IntValue|
            #[trigger] entered(m.ints@, "expert_count"@, v) ==> c.n_expert == v.value as u32,
        unentered(m.ints@, "expert_count"@) ==> c.n_expert == 0,
        forall|v: IntValue|
            #[trigger] entered(m.ints@, "expert_used_count"@, v) ==> c.n_expert_used == v.value as u32,
        unentered(m.ints@, "expert_used_count"@) ==> c.n_expert_used == 0,
        forall|v: IntValue|
            #[trigger] entered(m.ints@, "expert_feed_forward_length"@, v) ==> c.n_ff_expert == v.value as u32,
        unentered(m.ints@, "expert_feed_forward_length"@) ==> c.n_ff_expert == 0,
        forall|v: FloatValue|
            #[trigger] entered(m.floats@, "attn_logit_softcapping"@, v) ==> c.attn_logit_softcap == v.bits,
        unentered(m.floats@, "attn_logit_softcapping"@) ==> c.attn_logit_softcap == F32_ZERO,
        forall|v: FloatValue|
            #[trigger] entered(m.floats@, "final_logit_softcapping"@, v) ==> c.final_logit_softcap == v.bits,
        unentered(m.floats@, "final_logit_softcapping"@) ==> c.final_logit_softcap == F32_ZERO,
        forall|v: IntValue|
            #[trigger] entered(m.ints@, "attention.sliding_window"@, v) ==> c.sliding_window == v.value as u32,
        unentered(m.ints@, "attention.sliding_window"@) ==> c.sliding_window == 0,
        // The factor multiplies the context, so frequencies are scaled by its reciprocal.
        forall|v: FloatValue, r: u32|
            #[trigger] entered(m.floats@, "rope.scaling.factor"@, v) && #[trigger] is_reciprocal(v, r)
                ==> c.rope_freq_scale == r,
        forall|v: FloatValue|
            #[trigger] entered(m.floats@, "rope.scaling.factor"@, v) && v.reciprocal is None
                ==> c.rope_freq_scale == F32_ONE,
        unentered(m.floats@, "rope.scaling.factor"@) ==> c.rope_freq_scale == F32_ONE,
        forall|v: String|
            #[trigger] entered(m.texts@, "rope.scaling.type"@, v) ==> c.rope_ext_factor == (
            if v@ == "yarn"@ {
                F32_ONE
            } else {
                F32_ZERO
            }),
        unentered(m.texts@, "rope.scaling.type"@) ==> c.rope_ext_factor == F32_ZERO,
        // Without a declared size the vocabulary is as many rows as the embeddings have.
        forall|t: TensorInfo|
            unentered(m.ints@, "vocab_size"@) && #[trigger] entered(
                m.tensors@,
                "token_embd.weight"@,
                t,
            ) ==> c.vocab_size == t.dims@[1] as u32,
        // Heads share the width evenly where their own is not declared.
        unentered(m.ints@, "attention.key_length"@) && c.n_head > 0 ==> c.head_dim == c.n_embd
            / c.n_head,
        // What a layer carries is asked of the first block.
        c.qk_norm <==> !unentered(m.tensors@, "blk.0.attn_q_norm.weight"@),
        c.attn_bias <==> !unentered(m.tensors@, "blk.0.attn_q.bias"@),
        c.fused_qkv <==> !unentered(m.tensors@, "blk.0.attn_qkv.weight"@),
        c.post_norms <==> !unentered(m.tensors@, "blk.0.post_attention_norm.weight"@),
        c.fused_gate_up <==> unentered(m.tensors@, "blk.0.ffn_gate.weight"@) && !unentered(
            m.tensors@,
            "blk.0.ffn_up.weight"@,
        ),
{
    entries_are_found(m.ints@, "block_count"@);
    entries_are_found(m.ints@, "embedding_length"@);
    entries_are_found(m.ints@, "attention.head_count"@);
    entries_are_found(m.ints@, "attention.head_count_kv"@);
    entries_are_found(m.ints@, "attention.key_length"@);
    entries_are_found(m.ints@, "feed_forward_length"@);
    entries_are_found(m.ints@, "vocab_size"@);
    entries_are_found(m.floats@, "attention.layer_norm_rms_epsilon"@);
    entries_are_found(m.floats@, "rope.freq_base"@);
    entries_are_found(m.floats@, "rope.scaling.attn_factor"@);
    entries_are_found(m.floats@, "rope.scaling.beta_fast"@);
    entries_are_found(m.floats@, "rope.scaling.beta_slow"@);
    entries_are_found(m.ints@, "rope.scaling.original_context_length"@);
    entries_are_found(m.ints@, "expert_count"@);
    entries_are_found(m.ints@, "expert_used_count"@);
    entries_are_found(m.ints@, "expert_feed_forward_length"@);
    entries_are_found(m.floats@, "attn_logit_softcapping"@);
    entries_are_found(m.floats@, "final_logit_softcapping"@);
    entries_are_found(m.ints@, "attention.sliding_window"@);
    entries_are_found(m.floats@, "rope.scaling.factor"@);
    entries_are_found(m.texts@, "rope.scaling.type"@);
    entries_are_found(m.tensors@, "token_embd.weight"@);
    entries_are_found(m.tensors@, "blk.0.attn_q_norm.weight"@);
    entries_are_found(m.tensors@, "blk.0.attn_q.bias"@);
    entries_are_found(m.tensors@, "blk.0.attn_qkv.weight"@);
    entries_are_found(m.tensors@, "blk.0.post_attention_norm.weight"@);
    entries_are_found(m.tensors@, "blk.0.ffn_gate.weight"@);
    entries_are_found(m.tensors@, "blk.0.ffn_up.weight"@);
}

/// A latent-attention configuration holds the entry of each key, and the documented
/// default where the container leaves a key out.
pub proof fn a_latent_configuration_holds_its_entries(c: Deepseek4Config, m: &Container)
    requires
        c.describes(m),
    ensures
        forall|v: IntValue|
            #[trigger] entered(m.ints@, "block_count"@, v) ==> c.n_layer == v.value as u32,
        forall|v: IntValue|
            #[trigger] entered(m.ints@, "embedding_length"@, v) ==> c.n_embd == v.value as u32,
        forall|v: IntValue|
            #[trigger] entered(m.ints@, "attention.head_count"@, v) ==> c.n_head == v.value as u32,
        forall|v: IntValue|
            #[trigger] entered(m.ints@, "attention.head_count_kv"@, v) ==> c.n_head_kv == v.value as u32,
        unentered(m.ints@, "attention.head_count_kv"@) ==> c.n_head_kv == 1,
        forall|v: IntValue|
            #[trigger] entered(m.ints@, "attention.key_length"@, v) ==> c.kv_lora_rank == v.value as u32,
        forall|v: IntValue|
            #[trigger] entered(m.ints@, "attention.q_lora_rank"@, v) ==> c.q_lora_rank == v.value as u32,
        forall|v: IntValue|
            #[trigger] entered(m.ints@, "attention.output_lora_rank"@, v) ==> c.output_lora_rank == v.value as u32,
        unentered(m.ints@, "attention.output_lora_rank"@) ==> c.output_lora_rank == 0,
        forall|v: IntValue|
            #[trigger] entered(m.ints@, "vocab_size"@, v) ==> c.vocab_size == v.value as u32,
        forall|v: IntValue|
            #[trigger] entered(m.ints@, "expert_count"@, v) ==> c.n_expert == v.value as u32,
        forall|v: IntValue|
            #[trigger] entered(m.ints@, "expert_used_count"@, v) ==> c.n_expert_used == v.value as u32,
        forall|v: IntValue|
            #[trigger] entered(m.ints@, "expert_shared_count"@, v) ==> c.n_expert_shared == v.value as u32,
        unentered(m.ints@, "expert_shared_count"@) ==> c.n_expert_shared == 0,
        forall|v: IntValue|
            #[trigger] entered(m.ints@, "expert_feed_forward_length"@, v) ==> c.n_ff_expert == v.value as u32,
        forall|v: IntValue|
            #[trigger] entered(m.ints@, "hyper_connection.count"@, v) ==> c.hc_count == v.value as u32,
        unentered(m.ints@, "hyper_connection.count"@) ==> c.hc_count == 1,
        forall|v: IntValue|
            #[trigger] entered(m.ints@, "hyper_connection.count"@, v) ==> c.hc_mult == v.value as u32,
        unentered(m.ints@, "hyper_connection.count"@) ==> c.hc_mult == 1,
        forall|v: IntValue|
            #[trigger] entered(m.ints@, "hyper_connection.sinkhorn_iterations"@, v) ==> c.hc_sinkhorn_iterations == v.value as u32,
        unentered(m.ints@, "hyper_connection.sinkhorn_iterations"@) ==> c.hc_sinkhorn_iterations == 0,
        forall|v: IntValue|
            #[trigger] entered(m.ints@, "attention.sliding_window"@, v) ==> c.sliding_window == v.value as u32,
        unentered(m.ints@, "attention.sliding_window"@) ==> c.sliding_window == 0,
        forall|v: IntValue|
            #[trigger] entered(m.ints@, "attention.indexer.top_k"@, v) ==> c.indexer_top_k == v.value as u32,
        unentered(m.ints@, "attention.indexer.top_k"@) ==> c.indexer_top_k == 0,
        forall|v: IntValue|
            #[trigger] entered(m.ints@, "attention.indexer.head_count"@, v) ==> c.indexer_head_count == v.value as u32,
        unentered(m.ints@, "attention.indexer.head_count"@) ==> c.indexer_head_count == 0,
        forall|v: IntValue|
            #[trigger] entered(m.ints@, "attention.indexer.key_length"@, v) ==> c.indexer_key_length == v.value as u32,
        unentered(m.ints@, "attention.indexer.key_length"@) ==> c.indexer_key_length == 0,
        forall|v: IntValue|
            #[trigger] entered(m.ints@, "rope.dimension_count"@, v) ==> c.n_rot == v.value as u32,
        unentered(m.ints@, "rope.dimension_count"@) ==> c.n_rot == 0,
        forall|v: IntValue|
            #[trigger] entered(m.ints@, "attention.output_group_count"@, v) ==> c.output_group_count == v.value as u32,
        unentered(m.ints@, "attention.output_group_count"@) ==> c.output_group_count == 1,
        forall|v: IntValue|
            #[trigger] entered(m.ints@, "hash_layer_count"@, v) ==> c.hash_layer_count == v.value as u32,
        unentered(m.ints@, "hash_layer_count"@) ==> c.hash_layer_count == 0,
        forall|v: FloatValue|
            #[trigger] entered(m.floats@, "attention.compress_rope_freq_base"@, v) ==> c.compress_rope_freq_base == v.bits,
        unentered(m.floats@, "attention.compress_rope_freq_base"@) ==> c.compress_rope_freq_base == F32_TEN_THOUSAND,
        forall|v: FloatValue|
            #[trigger] entered(m.floats@, "rope.scaling.yarn_beta_fast"@, v) ==> c.rope_beta_fast == v.bits,
        unentered(m.floats@, "rope.scaling.yarn_beta_fast"@) ==> c.rope_beta_fast == F32_THIRTY_TWO,
        forall|v: FloatValue|
            #[trigger] entered(m.floats@, "rope.scaling.yarn_beta_slow"@, v) ==> c.rope_beta_slow == v.bits,
        unentered(m.floats@, "rope.scaling.yarn_beta_slow"@) ==> c.rope_beta_slow == F32_ONE,
        forall|v: IntValue|
            #[trigger] entered(m.ints@, "rope.scaling.original_context_length"@, v) ==> c.rope_n_ctx_orig == v.value as u32,
        unentered(m.ints@, "rope.scaling.original_context_length"@) ==> c.rope_n_ctx_orig == 0,
        // The factor multiplies the context, so frequencies are scaled by its reciprocal.
        forall|v: FloatValue, r: u32|
            #[trigger] entered(m.floats@, "rope.scaling.factor"@, v) && #[trigger] is_reciprocal(v, r)
                ==> c.rope_freq_scale == r,
        forall|v: FloatValue|
            #[trigger] entered(m.floats@, "rope.scaling.factor"@, v) && v.reciprocal is None
                ==> c.rope_freq_scale == F32_ONE,
        unentered(m.floats@, "rope.scaling.factor"@) ==> c.rope_freq_scale == F32_ONE,
        forall|v: String|
            #[trigger] entered(m.texts@, "rope.scaling.type"@, v) ==> c.rope_ext_factor == (
            if v@ == "yarn"@ {
                F32_ONE
            } else {
                F32_ZERO
            }),
        unentered(m.texts@, "rope.scaling.type"@) ==> c.rope_ext_factor == F32_ZERO,
        // Without a declared size the vocabulary is as many rows as the embeddings have.
        forall|t: TensorInfo|
            unentered(m.ints@, "vocab_size"@) && #[trigger] entered(
                m.tensors@,
                "token_embd.weight"@,
                t,
            ) ==> c.vocab_size == t.dims@[1] as u32,
        forall|v: IntValue|
            #[trigger] entered(m.ints@, "rope.freq_base"@, v) ==> c.rope_freq_base == v.as_f32,
        unentered(m.ints@, "rope.freq_base"@) ==> c.rope_freq_base == F32_TEN_THOUSAND,
        forall|v: Vec<i64>|
            #[trigger] entered(m.int_lists@, "attention.compress_ratios"@, v)
                ==> c.compress_ratios@ == v@,
        forall|v: Vec<u32>|
            #[trigger] entered(m.float_lists@, "swiglu_clamp_exp"@, v) ==> c.swiglu_clamp_exp@
                == v@,
        forall|v: Vec<u32>|
            #[trigger] entered(m.float_lists@, "swiglu_clamp_shexp"@, v) ==> c.swiglu_clamp_shexp@
                == v@,
        // The routed experts' limits stand in where the shared one has none of its own.
        unentered(m.float_lists@, "swiglu_clamp_shexp"@) ==> c.swiglu_clamp_shexp@
            == c.swiglu_clamp_exp@,
{
    entries_are_found(m.ints@, "block_count"@);
    entries_are_found(m.ints@, "embedding_length"@);
    entries_are_found(m.ints@, "attention.head_count"@);
    entries_are_found(m.ints@, "attention.head_count_kv"@);
    entries_are_found(m.ints@, "attention.key_length"@);
    entries_are_found(m.ints@, "attention.q_lora_rank"@);
    entries_are_found(m.ints@, "attention.output_lora_rank"@);
    entries_are_found(m.ints@, "vocab_size"@);
    entries_are_found(m.ints@, "expert_count"@);
    entries_are_found(m.ints@, "expert_used_count"@);
    entries_are_found(m.ints@, "expert_shared_count"@);
    entries_are_found(m.ints@, "expert_feed_forward_length"@);
    entries_are_found(m.ints@, "hyper_connection.count"@);
    entries_are_found(m.ints@, "hyper_connection.sinkhorn_iterations"@);
    entries_are_found(m.ints@, "attention.sliding_window"@);
    entries_are_found(m.ints@, "attention.indexer.top_k"@);
    entries_are_found(m.ints@, "attention.indexer.head_count"@);
    entries_are_found(m.ints@, "attention.indexer.key_length"@);
    entries_are_found(m.ints@, "rope.dimension_count"@);
    entries_are_found(m.ints@, "attention.output_group_count"@);
    entries_are_found(m.ints@, "hash_layer_count"@);
    entries_are_found(m.floats@, "attention.compress_rope_freq_base"@);
    entries_are_found(m.floats@, "rope.scaling.yarn_beta_fast"@);
    entries_are_found(m.floats@, "rope.scaling.yarn_beta_slow"@);
    entries_are_found(m.ints@, "rope.scaling.original_context_length"@);
    entries_are_found(m.floats@, "rope.scaling.factor"@);
    entries_are_found(m.texts@, "rope.scaling.type"@);
    entries_are_found(m.tensors@, "token_embd.weight"@);
    entries_are_found(m.ints@, "rope.freq_base"@);
    entries_are_found(m.int_lists@, "attention.compress_ratios"@);
    entries_are_found(m.float_lists@, "swiglu_clamp_exp"@);
    entries_are_found(m.float_lists@, "swiglu_clamp_shexp"@);
}

/// A configuration is refused exactly where one of the shape's own keys is missing, and
/// the key that is named is missing.
pub proof fn only_a_missing_shape_is_refused(m: &Container)
    ensures
        first_undeclared(m, needed_qwen3_keys(), 0) is None <==> !unentered(
            m.ints@,
            "embedding_length"@,
        ) && !unentered(m.ints@, "attention.head_count"@) && !unentered(m.ints@, "block_count"@),
        first_undeclared(m, needed_qwen3_keys(), 0) matches Some(key) ==> unentered(m.ints@, key),
{
    reveal_with_fuel(first_undeclared, 4);
    entries_are_found(m.ints@, "embedding_length"@);
    entries_are_found(m.ints@, "attention.head_count"@);
    entries_are_found(m.ints@, "block_count"@);
}

/// A latent-attention configuration is refused exactly where one of the keys without a
/// default is missing, and the key that is named is missing.
pub proof fn only_a_missing_latent_shape_is_refused(m: &Container)
    ensures
        first_undeclared(m, needed_keys(), 0) is None <==> {
            &&& !unentered(m.ints@, "block_count"@)
            &&& !unentered(m.ints@, "embedding_length"@)
            &&& !unentered(m.ints@, "attention.head_count"@)
            &&& !unentered(m.ints@, "attention.key_length"@)
            &&& !unentered(m.ints@, "attention.q_lora_rank"@)
            &&& !unentered(m.ints@, "expert_count"@)
            &&& !unentered(m.ints@, "expert_used_count"@)
            &&& !unentered(m.ints@, "expert_feed_forward_length"@)
        },
        first_undeclared(m, needed_keys(), 0) matches Some(key) ==> unentered(m.ints@, key),
{
    reveal_with_fuel(first_undeclared, 9);
    entries_are_found(m.ints@, "block_count"@);
    entries_are_found(m.ints@, "embedding_length"@);
    entries_are_found(m.ints@, "attention.head_count"@);
    entries_are_found(m.ints@, "attention.key_length"@);
    entries_are_found(m.ints@, "attention.q_lora_rank"@);
    entries_are_found(m.ints@, "expert_count"@);
    entries_are_found(m.ints@, "expert_used_count"@);
    entries_are_found(m.ints@, "expert_feed_forward_length"@);
}

} // verus!
