//! Local inference decisions, verified: which weights stay in memory, which
//! expert slices are read and kept, how a key/value history is laid out, and
//! what every request is answered.
//!
//! Everything here is plain data in, plain data out. Floating-point values
//! travel as their IEEE bit patterns; disk, network and the tensor library
//! stay with the caller.

pub mod args;
pub mod bench;
pub mod budget;
pub mod chat;
pub mod command;
pub mod container;
pub mod container_laws;
pub mod decision_laws;
pub mod deepseek4;
pub mod deepseek4_cache;
pub mod deepseek4_forward;
pub mod deepseek4_graph;
pub mod deepseek4_laws;
pub mod error;
pub mod evaluation;
pub mod expert_cache;
pub mod expert_read;
pub mod float_bits;
pub mod graph;
pub mod kv;
pub mod log;
pub mod mask;
pub mod names;
pub mod perplexity;
pub mod program_laws;
pub mod prompt_cache;
pub mod qwen3;
pub mod qwen3_graph;
pub mod qwen3_laws;
pub mod random;
pub mod routing;
pub mod run;
pub mod sample;
pub mod sample_laws;
pub mod sample_steps;
pub mod selection;
pub mod serve;
pub mod session;
pub mod stream;
pub mod stream_pass;
pub mod text;
pub mod token_writer;
