//! What holds of the decisions around a pass: what is scored, measured, said and asked.
#[allow(unused_imports)]
use crate::bench::{best_two, device_of, doublings, first_gpu, DeviceKind};
#[allow(unused_imports)]
use crate::chat::{prompt_framing, turn_framing, Framed};
#[allow(unused_imports)]
use crate::command::{
    hex_value, override_of, setting_of, short_escape, split_once, unescaped, RopeOverrides,
};
#[allow(unused_imports)]
use crate::float_bits::{is_above, is_nan, is_zero, value_order, F32_NEG_INFINITY, F32_ONE, F32_ZERO};
#[allow(unused_imports)]
use crate::log::{plain_line, shown_line, LogConfig, Sink};
#[allow(unused_imports)]
use crate::perplexity::PerplexityPlan;
#[allow(unused_imports)]
use crate::qwen3::Qwen3Config;
#[allow(unused_imports)]
use crate::routing::{descending, last_recorded};
#[allow(unused_imports)]
use crate::run::{Action, Next, Phase, RunModel, RunOptions};
#[allow(unused_imports)]
use crate::selection::is_top;
#[allow(unused_imports)]
use crate::serve::{
    completion_body, escaped, escaped_text_reads_back, hex_digit, json_string, length_after, readable,
};
#[allow(unused_imports)]
use crate::text::{
    all_digits, decimal, decimal_reads_back, digits_value, is_space, parsed_int, trimmed,
    trimmed_end, trimmed_start,
};
use vstd::prelude::*;
#[allow(unused_imports)]
use vstd::relations::{sorted_by, total_ordering};

verus! {

// ------------------------------------------------------------------------ perplexity

/// Exactly the tokens with more than half a chunk before them are scored, and every pass
/// that is run is one that a token of the chunk follows.
pub proof fn exactly_the_second_half_is_scored(plan: PerplexityPlan, i: int)
    requires
        plan.wf(),
    ensures
        plan.scores(i) <==> plan.chunk_size as int / 2 < i < plan.chunk_size,
        plan.evaluates(i) && i > 0 ==> i + 1 < plan.chunk_size,
        plan.chunk_size >= 2 ==> !plan.evaluates(plan.chunk_size - 1),
{
}

/// Chunks lie one behind the other, and what they leave of the corpus is less than one.
pub proof fn chunks_leave_less_than_one(plan: PerplexityPlan)
    requires
        plan.wf(),
    ensures
        0 <= plan.tokens - plan.chunks * plan.chunk_size < plan.chunk_size,
{
    let (t, c) = (plan.tokens as int, plan.chunk_size as int);
    vstd::arithmetic::div_mod::lemma_fundamental_div_mod(t, c);
    vstd::arithmetic::div_mod::lemma_mod_bound(t, c);
    assert(c * (t / c) == (t / c) * c) by (nonlinear_arith);
}

// ----------------------------------------------------------------------------- bench

/// The default is the first discrete GPU there is: none stands before it, and there is no
/// default only where there is none at all.
pub proof fn the_default_is_the_first_discrete_gpu(kinds: Seq<DeviceKind>, i: int, j: int)
    requires
        0 <= i <= j < kinds.len(),
        kinds[j] is Gpu,
    ensures
        first_gpu(kinds, i) matches Some(k) && i <= k <= j && kinds[k] is Gpu,
    decreases kinds.len() - i,
{
    if !(kinds[i] is Gpu) {
        the_default_is_the_first_discrete_gpu(kinds, i + 1, j);
    }
}

/// A device that is asked for is used, whatever it is, exactly where the machine has it.
pub proof fn a_device_asked_for_is_used(kinds: Seq<DeviceKind>, want: usize)
    ensures
        device_of(kinds, Some(want)) is Ok <==> want < kinds.len(),
        want < kinds.len() ==> device_of(kinds, Some(want)) == Ok::<int, Seq<char>>(want as int),
{
}

/// The second best is the logit of another place than the best, wherever there is one; so
/// the margin between them is one between two tokens.
pub proof fn the_second_best_is_anothers(logits: Seq<u32>, n: int)
    requires
        0 <= n <= logits.len(),
    ensures
        ({
            let (at, best, second) = best_two(logits, n);
            second == F32_NEG_INFINITY || exists|j: int|
                0 <= j < n && j != at && #[trigger] logits[j] == second
        }),
        ({
            let (at, best, second) = best_two(logits, n);
            best == F32_NEG_INFINITY || (0 <= at < n && logits[at] == best)
        }),
    decreases n,
{
    if n > 0 {
        the_second_best_is_anothers(logits, n - 1);
        let (at, best, second) = best_two(logits, n - 1);
        let v = logits[n - 1];
        if is_above(v, best) {
            if best != F32_NEG_INFINITY {
                assert(logits[at] == best && at != n - 1);
            }
        } else if is_above(v, second) {
            assert(logits[n - 1] == v);
            assert(at != n - 1) by {
                place_is_before(logits, n - 1);
                if n == 1 {
                    assert(best == F32_NEG_INFINITY && second == F32_NEG_INFINITY);
                }
            }
        } else if second != F32_NEG_INFINITY {
            let j = choose|j: int| 0 <= j < n - 1 && j != at && #[trigger] logits[j] == second;
            assert(logits[j] == second);
        }
    }
}

proof fn place_is_before(logits: Seq<u32>, n: int)
    requires
        0 < n <= logits.len(),
    ensures
        0 <= best_two(logits, n).0 < n,
    decreases n,
{
    if n > 1 {
        place_is_before(logits, n - 1);
    } else {
        assert(best_two(logits, 0).0 == 0);
    }
}

/// Thread counts double from the first, and go on as long as the next is within the
/// machine.
pub proof fn thread_counts_double(t: int, max: int)
    requires
        1 <= t <= max <= usize::MAX,
    ensures
        ({
            let counts = doublings(t, max);
            &&& counts.len() > 0
            &&& counts[0] == t
            &&& counts.last() <= max < 2 * counts.last()
            &&& forall|i: int|
                0 <= i < counts.len() - 1 ==> #[trigger] counts[i + 1] == 2 * counts[i]
        }),
    decreases max + 1 - t,
{
    let counts = doublings(t, max);
    let rest = doublings(t * 2, max);
    assert(counts =~= seq![t as usize] + rest);
    if t * 2 <= max {
        thread_counts_double(t * 2, max);
        assert(counts.last() == rest.last());
        assert forall|i: int| 0 <= i < counts.len() - 1 implies #[trigger] counts[i + 1] == 2
            * counts[i] by {
            if i > 0 {
                assert(rest[(i - 1) + 1] == 2 * rest[i - 1]);
            }
        }
    }
}

// ------------------------------------------------------------------------------ chat

/// Without a chat or a system prompt a prompt goes out as it is; with either it is what
/// the user says last.
pub proof fn prompts_go_out_unchanged(prompt: Seq<char>, chat: bool, system: Option<Seq<char>>)
    ensures
        match prompt_framing(prompt, chat, system) {
            Framed::Raw(text) => !chat && system is None && text == prompt,
            Framed::Template(sent) => (chat || system is Some) && sent.len() > 0 && sent.last() == (
                "user"@,
                prompt,
            ),
        },
{
}

/// What the user says is said whole: as their message in a conversation, else between the
/// prefix and the suffix that were asked for.
pub proof fn a_turn_is_said_whole(
    line: Seq<char>,
    in_conversation: bool,
    prefix: Seq<char>,
    suffix: Seq<char>,
)
    ensures
        match turn_framing(line, in_conversation, prefix, suffix) {
            Framed::Template(sent) => in_conversation && sent =~= seq![("user"@, line)],
            Framed::Raw(text) => {
                &&& !in_conversation
                &&& text.len() == prefix.len() + line.len() + suffix.len()
                &&& text.take(prefix.len() as int) =~= prefix
                &&& text.skip(prefix.len() as int).take(line.len() as int) =~= line
                &&& text.skip((prefix.len() + line.len()) as int) =~= suffix
            },
        },
{
}

/// A status line ends with its message, and begins with the time exactly where that was
/// asked for.
pub proof fn a_line_ends_with_its_message(
    config: LogConfig,
    level: u32,
    stamp: Seq<char>,
    message: Seq<char>,
)
    ensures
        ({
            let line = plain_line(Some(config), level, stamp, message);
            &&& line.len() >= message.len()
            &&& line.skip(line.len() - message.len()) =~= message
            &&& config.timestamps ==> line.len() >= stamp.len() && line.take(stamp.len() as int)
                =~= stamp
            &&& !config.timestamps && !config.prefix ==> line =~= message
        }),
{
}

/// Without colours a terminal is shown the line itself, and a file always is.
pub proof fn only_terminals_are_coloured(
    config: LogConfig,
    file_open: bool,
    level: u32,
    stamp: Seq<char>,
    message: Seq<char>,
)
    ensures
        ({
            let (sink, text) = shown_line(Some(config), file_open, level, stamp, message);
            let line = plain_line(Some(config), level, stamp, message);
            &&& sink is File <==> file_open
            &&& text != line ==> sink is Terminal && config.colors
        }),
{
}

// --------------------------------------------------------------------------- routing

/// Of a batch, what is kept for a layer are the last token's choices and no others; other
/// layers keep theirs.
pub proof fn only_the_last_token_is_kept(
    layers: Seq<Seq<i32>>,
    il: int,
    n_used: int,
    earlier: Seq<i32>,
    last: Seq<i32>,
)
    requires
        0 <= il,
        last.len() == n_used,
    ensures
        last_recorded(layers, il, n_used, earlier + last)[il] == last,
        forall|i: int|
            0 <= i < layers.len() && i != il ==> #[trigger] last_recorded(
                layers,
                il,
                n_used,
                earlier + last,
            )[i] == layers[i],
{
    let ids = earlier + last;
    assert(ids.skip(ids.len() - n_used) =~= last);
}

/// Counts from the largest down are the same counts, and none is followed by a larger one:
/// so those in front are the hottest.
pub proof fn the_hottest_stand_in_front(counts: Seq<u32>, i: int, j: int)
    requires
        0 <= i <= j < counts.len(),
    ensures
        descending(counts).to_multiset() == counts.to_multiset(),
        descending(counts).len() == counts.len(),
        descending(counts)[i] >= descending(counts)[j],
{
    broadcast use vstd::seq_lib::group_to_multiset_ensures;

    let leq = |a: u32, b: u32| b <= a;
    assert(total_ordering(leq));
    counts.lemma_sort_by_ensures(leq);
    let d = descending(counts);
    assert(d.to_multiset().len() == counts.to_multiset().len());
    if i < j {
        assert(leq(d[i], d[j]));
    }
}

/// As many are picked as were asked for or there are, no place twice, and none that was
/// left out is higher than one that was picked.
pub proof fn the_highest_are_picked(keys: Seq<i64>, picks: Seq<u32>, k: int)
    requires
        0 <= k,
        is_top(keys, picks, k),
    ensures
        picks.len() <= k,
        picks.len() <= keys.len(),
        picks.len() == k || picks.len() == keys.len(),
        forall|a: int, b: int| 0 <= a < b < picks.len() ==> picks[a] != picks[b],
        forall|a: int, i: int|
            #![trigger picks[a], keys[i]]
            0 <= a < picks.len() && 0 <= i < keys.len() && !picks.contains(i as u32) && i
                <= u32::MAX ==> keys[picks[a] as int] >= keys[i],
{
    assert forall|a: int, i: int|
        #![trigger picks[a], keys[i]]
        0 <= a < picks.len() && 0 <= i < keys.len() && !picks.contains(i as u32) && i
            <= u32::MAX implies keys[picks[a] as int] >= keys[i] by {
        assert(forall|b: int| 0 <= b < picks.len() ==> picks[b] != i);
    }
}

// ------------------------------------------------------------------------------- run

/// A token is drawn from the last position's logits, under the grammar exactly where one
/// holds; a run fails only where the pass gave less than one position's.
pub proof fn draws_are_from_the_last_position(
    run: RunModel,
    o: RunOptions,
    triggers: Seq<Seq<char>>,
)
    requires
        run.session.step < run.session.this_turn,
        run.logits <= usize::MAX,
    ensures
        match run.token(o, triggers) {
            Next::Go(next, Action::Mask { row }) => row + o.vocab == run.logits && o.constrained
                && next.session.armed && next.phase == (Phase::Masking { row }),
            Next::Go(next, Action::Draw { row, masked }) => row + o.vocab == run.logits && !masked
                && !(o.constrained && next.session.armed) && next.phase is Drawing,
            Next::Go(_, _) => false,
            Next::Fail(_) => run.logits < o.vocab,
        },
{
}

/// A prompt is evaluated from where the history ends, a whole block at a time but for the
/// last.
pub proof fn prompts_are_evaluated_in_blocks(run: RunModel, o: RunOptions, from: int)
    requires
        0 <= from < run.session.tokens.len() <= usize::MAX,
        o.block > 0,
    ensures
        run.prefill(o, from) matches Next::Go(next, Action::Prefill { from: begin, to }) && {
            &&& begin == from
            &&& from < to <= run.session.tokens.len()
            &&& to - from <= o.block
            &&& to - from == o.block || to == run.session.tokens.len()
            &&& next.phase == (Phase::Prefilling { end: to })
            &&& next.session == run.session
        },
{
}

// --------------------------------------------------------------------------- command

/// A rotary setting that is given is the one in force, whatever the container has; what
/// is not given stays the container's, but for what a scaling stands for.
pub proof fn given_settings_are_in_force(o: RopeOverrides, c: Qwen3Config)
    ensures
        ({
            let r = o.applied(c);
            &&& r.rope_freq_base == (if o.freq_base is Some { o.freq_base->0 } else { c.rope_freq_base })
            &&& r.rope_attn_factor == (if o.attn_factor is Some { o.attn_factor->0 } else {
                c.rope_attn_factor
            })
            &&& r.rope_beta_fast == (if o.beta_fast is Some { o.beta_fast->0 } else {
                c.rope_beta_fast
            })
            &&& r.rope_beta_slow == (if o.beta_slow is Some { o.beta_slow->0 } else {
                c.rope_beta_slow
            })
            &&& r.rope_orig_ctx == (if o.orig_ctx is Some { o.orig_ctx->0 } else {
                c.rope_orig_ctx
            })
            &&& o.ext_factor is Some ==> r.rope_ext_factor == o.ext_factor->0
            &&& o.scaling is None ==> r.rope_freq_scale == (if o.freq_scale is Some {
                o.freq_scale->0
            } else {
                c.rope_freq_scale
            })
            &&& o.scaling is None && o.ext_factor is None ==> r.rope_ext_factor == c.rope_ext_factor
            &&& r.n_layer == c.n_layer && r.n_head == c.n_head && r.rms_eps == c.rms_eps
        }),
{
}

/// Turning scaling off leaves no scale and no extrapolation, however the container is
/// scaled; asking for extrapolation never leaves it without strength.
pub proof fn a_scaling_is_what_it_says(o: RopeOverrides, c: Qwen3Config)
    requires
        o.scaling is Some,
        o.ext_factor is None,
    ensures
        o.scaling->0@ == "none"@ ==> o.applied(c).rope_freq_scale == F32_ONE && is_zero(
            o.applied(c).rope_ext_factor,
        ),
        o.scaling->0@ == "linear"@ ==> is_zero(o.applied(c).rope_ext_factor),
        o.scaling->0@ == "yarn"@ ==> !is_zero(o.applied(c).rope_ext_factor),
{
    reveal_strlit("none");
    reveal_strlit("linear");
    reveal_strlit("yarn");
    assert("none"@[0] != "yarn"@[0]);
    assert("linear"@.len() != "yarn"@.len());
    assert(is_zero(F32_ZERO) && !is_zero(F32_ONE));
}

/// Any character below 256 can be written as its two hexadecimal digits.
pub proof fn hex_escapes_name_their_character(v: int, rest: Seq<char>)
    requires
        0 <= v < 256,
    ensures
        unescaped(seq!['\\', 'x', hex_digit(v / 16), hex_digit(v % 16)] + rest) == seq![v as char]
            + unescaped(rest),
{
    let text = seq!['\\', 'x', hex_digit(v / 16), hex_digit(v % 16)] + rest;
    assert(hex_value(text[2]) == Some(v / 16));
    assert(hex_value(text[3]) == Some(v % 16));
    assert(v / 16 * 16 + v % 16 == v);
    assert(text.skip(4) =~= rest);
}

/// Line ends, tabs and nulls have escapes of their own, and quotes and backslashes stand
/// for themselves behind one.
pub proof fn short_escapes_are_the_usual_ones(c: char, rest: Seq<char>)
    requires
        c == 'n' || c == 't' || c == 'r' || c == '0' || c == '\'' || c == '"' || c == '\\',
    ensures
        ({
            let read = unescaped(seq!['\\', c] + rest);
            &&& read.len() > 0
            &&& read.skip(1) == unescaped(rest)
            &&& read[0] as int == (if c == 'n' {
                10
            } else if c == 't' {
                9
            } else if c == 'r' {
                13
            } else if c == '0' {
                0
            } else {
                c as int
            })
        }),
{
    let text = seq!['\\', c] + rest;
    assert(text.skip(2) =~= rest);
    assert(unescaped(text).skip(1) =~= unescaped(rest));
}

/// What is put together around a character is taken apart there again.
pub proof fn a_split_undoes_a_join(a: Seq<char>, c: char, b: Seq<char>)
    requires
        !a.contains(c),
    ensures
        split_once(a + seq![c] + b, c) == Some((a, b)),
{
    let text = a + seq![c] + b;
    let i = a.len() as int;
    assert(text[i] == c);
    assert(text.contains(c));
    text.index_of_first_ensures(c);
    let k = text.index_of_first(c)->0;
    assert(k == i) by {
        if k < i {
            assert(a[k] == c);
        }
    }
    assert(text.take(i) =~= a);
    assert(text.skip(i + 1) =~= b);
}

/// A setting written as its key, an equals sign, its type, a colon and its value is read
/// as that value of that key.
pub proof fn a_written_setting_is_read(key: Seq<char>, ty: Seq<char>, value: Seq<char>)
    requires
        !key.contains('='),
        !ty.contains(':'),
    ensures
        ({
            let read = override_of(key + seq!['='] + (ty + seq![':'] + value));
            &&& read is Some <==> setting_of(ty, value) is Some
            &&& read is Some ==> read->0 == (trimmed(key), setting_of(ty, value)->0)
        }),
{
    a_split_undoes_a_join(key, '=', ty + seq![':'] + value);
    a_split_undoes_a_join(ty, ':', value);
}

// ----------------------------------------------------------------------------- serve

/// A number in decimal reads back, with or without its sign, wherever it is in range.
pub proof fn written_numbers_read_back(n: nat, low: int, high: int)
    ensures
        low <= n <= high ==> parsed_int(decimal(n), low, high) == Some(n as int),
        low <= n <= high ==> parsed_int(seq!['+'] + decimal(n), low, high) == Some(n as int),
        low < 0 && low <= -n <= high ==> parsed_int(seq!['-'] + decimal(n), low, high) == Some(
            -(n as int),
        ),
        n > high ==> parsed_int(decimal(n), low, high) is None,
{
    decimal_reads_back(n);
    let d = decimal(n);
    assert('0' <= d[0] <= '9');
    assert((seq!['+'] + d).skip(1) =~= d);
    assert((seq!['-'] + d).skip(1) =~= d);
}

/// A text whose ends are no white space is trimmed already.
proof fn nothing_to_trim(text: Seq<char>)
    requires
        text.len() > 0,
        !is_space(text[0]),
        !is_space(text.last()),
    ensures
        trimmed(text) == text,
        trimmed_end(text) == text,
{
}

/// The length a request's head gives is the one that was written there.
pub proof fn a_written_length_is_read(n: nat, before: int)
    requires
        n <= usize::MAX,
    ensures
        length_after("Content-Length:"@ + decimal(n), before) == n,
        length_after("content-length:"@ + decimal(n), before) == n,
{
    decimal_reads_back(n);
    let d = decimal(n);
    assert('0' <= d[0] <= '9' && '0' <= d.last() <= '9');
    nothing_to_trim(d);
    written_numbers_read_back(n, 0, usize::MAX as int);
    reveal_strlit("Content-Length:");
    reveal_strlit("content-length:");
    let a = "Content-Length:"@ + d;
    let b = "content-length:"@ + d;
    assert(a.last() == d.last() && b.last() == d.last());
    assert(trimmed_end(a) == a && trimmed_end(b) == b);
    assert(a.skip(15) =~= d && b.skip(15) =~= d);
    assert("Content-Length:"@.is_prefix_of(a));
    assert("content-length:"@.is_prefix_of(b));
}

/// A completion can be read back out of its answer: behind the key stands a string that
/// says the text.
pub proof fn a_completion_says_its_text(text: Seq<char>, prompt_tokens: nat, produced: nat)
    ensures
        ({
            let key =
                "{\"id\":\"bigtea\",\"object\":\"chat.completion\",\"model\":\"deepseek-v4-flash\",\"choices\":[{\"index\":0,\"message\":{\"role\":\"assistant\",\"content\":\""@;
            let body = completion_body(text, prompt_tokens, produced);
            &&& key.is_prefix_of(body)
            &&& json_string(body.skip(key.len() as int)) matches Some((said, _)) && said
                == readable(text)
            &&& (",\"total_tokens\":"@ + decimal(prompt_tokens + produced) + "}}"@).is_suffix_of(
                body,
            )
        }),
{
    let key =
        "{\"id\":\"bigtea\",\"object\":\"chat.completion\",\"model\":\"deepseek-v4-flash\",\"choices\":[{\"index\":0,\"message\":{\"role\":\"assistant\",\"content\":\""@;
    let end = "\"},\"finish_reason\":\"length\"}],\"usage\":{\"prompt_tokens\":"@;
    reveal_strlit("\"},\"finish_reason\":\"length\"}],\"usage\":{\"prompt_tokens\":");
    let body = completion_body(text, prompt_tokens, produced);
    let total = ",\"total_tokens\":"@ + decimal(prompt_tokens + produced) + "}}"@;
    let numbers = decimal(prompt_tokens) + ",\"completion_tokens\":"@ + decimal(produced) + total;
    assert(end[0] == '"');
    let rest = end.skip(1) + numbers;
    assert(body =~= key + (escaped(text) + seq!['"'] + rest));
    assert(body.skip(key.len() as int) =~= escaped(text) + seq!['"'] + rest);
    escaped_text_reads_back(text, rest);
    assert(body.take(key.len() as int) =~= key);
    assert(body.skip(body.len() - total.len()) =~= total);
}

} // verus!
