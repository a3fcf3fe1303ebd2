# bigtea_arch

Local inference of language models that do not fit in memory: the always-read weights
stay resident, the routed experts are read from disk as the router picks them.

`src/` is the library. Every function in it carries a contract, and Verus proves all but
four of them, which it takes on trust: `quoted`, `shared_copy` and `sort_by_falling_key`
each wrap one call of the standard library, and `String::push` is given its contract where
it stands. The library decides and computes on plain data: which tensors a model needs and which stay in memory,
which expert slices are read, kept or displaced, how a key/value history is laid out,
saved and reused, which graph a layer computes, how a token is chosen, what a session does
next and what a request is answered. Floating-point values travel as their IEEE bit
patterns.

`app/` does what cannot be stated that way: f32 and f64 arithmetic, files, sockets,
threads and the console. The tensor library, the container reader, the tokenizer and the
grammar engine are traits there, which a program supplies.

| modules | what they hold |
|---|---|
| `container`, `names`, `text`, `float_bits`, `random`, `error`, `log` | data and text |
| `qwen3`, `qwen3_graph`, `stream`, `stream_pass` | dense and mixture models |
| `deepseek4`, `deepseek4_graph`, `deepseek4_cache`, `deepseek4_forward` | latent attention |
| `graph`, `mask`, `selection`, `routing` | graphs, masks, expert choice |
| `expert_cache`, `expert_read`, `kv`, `prompt_cache` | what is kept in memory |
| `sample`, `sample_steps`, `token_writer`, `perplexity` | tokens in and out |
| `args`, `command`, `chat`, `budget`, `session`, `run`, `serve`, `bench` | programs |

What several functions promise together stands as public proof functions beside them, for
example that offers never outgrow the cache's budget, that a saved prompt loads back, or
that every byte of an expert stack is filled once.
