//! What the programs around a model promise: requests, sessions, budgets and storage.
#[allow(unused_imports)]
use crate::budget::{
    arena_bytes, at_least_one, cache_budget, dense_budget, headroom, kv_bytes, layer_tensors, GIB,
};
#[allow(unused_imports)]
use crate::kv::{KvRow, KvType};
#[allow(unused_imports)]
use crate::names::block_name;
#[allow(unused_imports)]
use crate::qwen3::Qwen3Config;
#[allow(unused_imports)]
use crate::serve::{
    answer_of, error_body, escaped, escaped_text_reads_back, int_field, json_string, max_tokens_of,
    readable, response_text, route_of,
};
#[allow(unused_imports)]
use crate::session::{any_in, context_refusal, AfterToken, SessionModel};
#[allow(unused_imports)]
use crate::stream::{place_of, wanted_of, Wanted};
#[allow(unused_imports)]
use crate::container::Container;
use vstd::prelude::*;

verus! {

// ------------------------------------------------------------------------- requests

/// Every request is answered, and the status says how it went: what no endpoint serves is
/// not found, a completion that failed is a bad request, and only those are refused.
pub proof fn a_status_says_how_it_went(
    method: Seq<char>,
    target: Seq<char>,
    completion: Result<Seq<char>, Seq<char>>,
)
    ensures
        ({
            let route = route_of(method, target);
            let answer = answer_of(route, completion);
            let known = {
                ||| method == "GET"@ && (target == "/"@ || target == "/health"@ || target
                    == "/v1/models"@)
                ||| method == "POST"@ && target == "/v1/chat/completions"@
            };
            let completes = method == "POST"@ && target == "/v1/chat/completions"@;
            &&& answer.0 == 404 <==> !known
            &&& answer.0 == 400 <==> completes && completion is Err
            &&& answer.0 == 200 <==> known && (completes ==> completion is Ok)
            &&& completes && completion is Ok ==> answer.1 == completion->Ok_0
            &&& completes && completion is Err ==> answer.1 == error_body(completion->Err_0)
        }),
{
    reveal_strlit("GET");
    reveal_strlit("POST");
    assert("GET"@.len() != "POST"@.len());
}

/// A response ends with its body.
pub proof fn a_response_ends_with_its_body(status: u16, body: Seq<char>)
    ensures
        ({
            let text = response_text(status, body);
            &&& text.len() >= body.len()
            &&& text.skip(text.len() - body.len()) == body
        }),
{
    let text = response_text(status, body);
    assert(text.skip(text.len() - body.len()) =~= body);
}

/// A request is completed with the tokens it asks for, within one and four thousand and
/// ninety-six.
pub proof fn tokens_stay_in_range(body: Seq<char>)
    ensures
        1 <= max_tokens_of(body) <= 4096,
        int_field(body, "max_tokens"@) matches Some(n) ==> {
            &&& 1 <= n <= 4096 ==> max_tokens_of(body) == n
            &&& n < 1 ==> max_tokens_of(body) == 1
            &&& n > 4096 ==> max_tokens_of(body) == 4096
        },
{
}

/// What went wrong can be read back out of the answer: behind the key stands a string
/// that says the message.
pub proof fn an_error_says_its_message(message: Seq<char>)
    ensures
        ({
            let key = "{\"error\":{\"message\":\""@;
            &&& key.is_prefix_of(error_body(message))
            &&& json_string(error_body(message).skip(key.len() as int)) matches Some((text, _))
                && text == readable(message)
        }),
{
    let key = "{\"error\":{\"message\":\""@;
    let end = "\",\"type\":\"invalid_request_error\"}}"@;
    reveal_strlit("\",\"type\":\"invalid_request_error\"}}");
    let body = error_body(message);
    assert(end[0] == '"');
    assert(body.skip(key.len() as int) =~= escaped(message) + (seq!['"'] + end.skip(1)));
    assert(escaped(message) + (seq!['"'] + end.skip(1)) =~= escaped(message) + seq!['"'] + end.skip(
        1,
    ));
    escaped_text_reads_back(message, end.skip(1));
    assert(key.is_prefix_of(body)) by {
        assert(body.take(key.len() as int) =~= key);
    }
}

// ------------------------------------------------------------------------- sessions

/// A sequence is refused exactly where it would pass what can be run correctly or the
/// limit that was asked for, and one that fits both is never refused.
pub proof fn only_what_does_not_fit_is_refused(
    tokens: nat,
    n_predict: nat,
    correct: nat,
    limit: Option<usize>,
)
    ensures
        context_refusal(tokens, n_predict, correct, limit) is Some <==> tokens + n_predict
            > correct || (limit matches Some(l) && tokens + n_predict > l),
{
}

/// A turn goes on exactly while it has tokens left, the end of the sequence was not drawn
/// and no stop text was written; it goes on at the position behind the history.
pub proof fn a_turn_goes_on_until_something_ends_it(
    s: SessionModel,
    next: u32,
    eos: Option<u32>,
    decoded: Seq<char>,
    stops: Seq<Seq<char>>,
)
    requires
        s.evaluated <= usize::MAX,
    ensures
        ({
            let after = s.outcome(next, eos, decoded, stops);
            let t = s.taken(next, eos, decoded, stops);
            let ended = eos == Some(next) || any_in(s.text + decoded, stops);
            &&& after is Evaluate <==> !ended && s.step + 1 < s.this_turn
            &&& after is EndOfSequence <==> eos == Some(next)
            &&& after matches AfterToken::Evaluate(at) ==> at == s.evaluated && t.evaluated
                == s.evaluated + 1 && t.step == s.step + 1
            &&& !(after is Evaluate) ==> t.step == s.this_turn && t.evaluated == s.evaluated
            &&& t.tokens == s.tokens.push(next)
            &&& t.text == (if eos == Some(next) {
                s.text
            } else {
                s.text + decoded
            })
            &&& t.armed == s.armed
            &&& t.this_turn == s.this_turn
        }),
{
}

/// A turn begins with nothing written and its own number of tokens, constrained from the
/// start exactly where nothing has to trigger the grammar.
pub proof fn a_turn_begins_afresh(s: SessionModel, n: nat, triggers: Seq<Seq<char>>)
    ensures
        s.begun(n, triggers).text.len() == 0,
        s.begun(n, triggers).step == 0,
        s.begun(n, triggers).this_turn == n,
        s.begun(n, triggers).armed <==> triggers.len() == 0,
        s.begun(n, triggers).tokens == s.tokens,
        s.begun(n, triggers).evaluated == s.evaluated,
{
}

// -------------------------------------------------------------------------- budgets

/// What a position costs in memory is what a history of halves stores for it: keys and
/// values, in every layer.
pub proof fn a_position_costs_what_is_stored(c: Qwen3Config)
    ensures
        kv_bytes(c) == c.n_layer * (2 * KvType::F16.size_of(c.n_head_kv * c.head_dim)),
{
    assert(c.n_layer * c.n_head_kv * c.head_dim * 4 == c.n_layer * (2 * (c.n_head_kv * c.head_dim
        * 2))) by (nonlinear_arith);
}

/// The memory kept back holds every position's keys and values, and two gibibytes beside
/// them.
pub proof fn headroom_holds_the_history(c: Qwen3Config, positions: int, block: int)
    requires
        0 <= positions,
        0 <= block,
    ensures
        headroom(c, positions, block) >= 2 * GIB + kv_bytes(c) * positions,
        headroom(c, positions + 1, block) == headroom(c, positions, block) + kv_bytes(c),
{
    assert(c.n_embd * block * 96 >= 0) by (nonlinear_arith)
        requires
            0 <= block,
            c.n_embd >= 0,
    ;
    assert(kv_bytes(c) * (positions + 1) == kv_bytes(c) * positions + kv_bytes(c))
        by (nonlinear_arith);
}

/// The expert cache takes what was asked for; where nothing was, it takes what is free
/// beyond what is kept back, and never less than a gibibyte.
pub proof fn the_cache_takes_what_is_free(
    asked: Option<u64>,
    available: Option<u64>,
    kept: int,
)
    ensures
        asked matches Some(bytes) ==> cache_budget(asked, available, kept) == bytes,
        asked is None ==> cache_budget(asked, available, kept) >= GIB,
        asked is None && available is None ==> cache_budget(asked, available, kept) == GIB,
        asked is None && available is Some && available->0 - kept >= GIB ==> cache_budget(
            asked,
            available,
            kept,
        ) + kept == available->0,
{
}

/// A dense pass leaves a gibibyte free, and is taken to have four where nobody can tell.
pub proof fn a_dense_pass_leaves_room(available: Option<u64>)
    ensures
        available matches Some(free) && free >= GIB ==> dense_budget(available) + GIB
            == available->0,
        available matches Some(free) && free < GIB ==> dense_budget(available) == 0,
        available is None ==> dense_budget(available) == 3 * GIB,
{
}

/// The arena of a dense pass holds the scores and the probabilities of every layer at
/// once, since nothing inside one graph is freed.
pub proof fn an_arena_holds_every_layers_scores(c: Qwen3Config, n: int)
    requires
        1 <= n,
    ensures
        arena_bytes(c, n) >= c.n_layer * (2 * (n * n * c.n_head * 4)),
{
    let scores = n * n * c.n_head * 8;
    let rest = n * c.n_embd * 48 + n * c.n_ff * 12;
    assert(scores >= 0 && rest >= 0) by (nonlinear_arith)
        requires
            scores == n * n * c.n_head * 8,
            rest == n * c.n_embd * 48 + n * c.n_ff * 12,
            1 <= n,
            c.n_head >= 0,
            c.n_embd >= 0,
            c.n_ff >= 0,
    ;
    let padded = layer_tensors(c, n) * 5 / 4;
    assert(padded >= scores);
    let layers = at_least_one(c.n_layer as int);
    assert(padded * layers >= scores * c.n_layer) by (nonlinear_arith)
        requires
            padded >= scores,
            scores >= 0,
            layers >= c.n_layer,
            c.n_layer >= 0,
    ;
    assert(c.n_layer * (2 * (n * n * c.n_head * 4)) == scores * c.n_layer) by (nonlinear_arith)
        requires
            scores == n * n * c.n_head * 8,
    ;
    assert(c.vocab_size * 8 >= 0);
}

// -------------------------------------------------------------------------- storage

/// Stored halves read back: each is its low byte and then its high one.
pub proof fn stored_halves_read_back(halves: Vec<u16>, i: int)
    requires
        0 <= i < halves@.len(),
    ensures
        KvRow::Halves(halves).bytes().len() == 2 * halves@.len(),
        KvRow::Halves(halves).bytes()[2 * i] + 256 * KvRow::Halves(halves).bytes()[2 * i + 1]
            == halves@[i],
{
    let bytes = KvRow::Halves(halves).bytes();
    assert((2 * i) / 2 == i && (2 * i) % 2 == 0 && (2 * i + 1) / 2 == i && (2 * i + 1) % 2 == 1);
}

/// Stored blocks read back: a block is its scale, low byte first, and then its 32 quants.
pub proof fn stored_blocks_read_back(scales: Vec<u16>, quants: Vec<u8>, b: int, i: int)
    requires
        0 <= b < quants@.len() / 32,
        0 <= i < 32,
        scales@.len() >= quants@.len() / 32,
    ensures
        ({
            let bytes = KvRow::Quants { scales, quants }.bytes();
            &&& bytes.len() == quants@.len() / 32 * 34
            &&& bytes[34 * b] + 256 * bytes[34 * b + 1] == scales@[b]
            &&& bytes[34 * b + 2 + i] == quants@[32 * b + i]
        }),
{
    let bytes = KvRow::Quants { scales, quants }.bytes();
    assert(34 * b + 34 <= quants@.len() / 32 * 34);
    assert((34 * b) / 34 == b && (34 * b) % 34 == 0);
    assert((34 * b + 1) / 34 == b && (34 * b + 1) % 34 == 1);
    assert((34 * b + 2 + i) / 34 == b && (34 * b + 2 + i) % 34 == 2 + i);
}

/// Every expert that is wanted is wanted whole: its gating, up and down slices, each once
/// and under the name of its own stack.
pub proof fn experts_are_wanted_whole(il: u32, experts: Seq<u32>, e: int)
    requires
        0 <= e < experts.len(),
    ensures
        ({
            let wanted = wanted_of(il, experts);
            &&& wanted.len() == 3 * experts.len()
            &&& forall|j: int|
                0 <= j < 3 ==> (#[trigger] wanted[3 * e + j]).expert == experts[e] && wanted[3 * e
                    + j].layer == il
            &&& wanted[3 * e].name() == block_name(il as nat, "ffn_gate_exps.weight"@)
            &&& wanted[3 * e + 1].name() == block_name(il as nat, "ffn_up_exps.weight"@)
            &&& wanted[3 * e + 2].name() == block_name(il as nat, "ffn_down_exps.weight"@)
        }),
{
    let wanted = wanted_of(il, experts);
    assert forall|j: int| 0 <= j < 3 implies (#[trigger] wanted[3 * e + j]).expert == experts[e]
        && wanted[3 * e + j].layer == il && wanted[3 * e + j].tensor == j by {
        assert((3 * e + j) / 3 == e && (3 * e + j) % 3 == j);
    }
    assert(wanted[3 * e + 0].tensor == 0);
    assert(wanted[3 * e + 1].tensor == 1);
    assert(wanted[3 * e + 2].tensor == 2);
}

/// The slices of a stack lie one behind the other from its start, all as long, and none
/// reaches past its end.
pub proof fn slices_tile_their_stack(model: &Container, w: Wanted, next: Wanted)
    requires
        next == (Wanted { expert: next.expert, ..w }),
        next.expert == w.expert + 1,
        place_of(model, w) is At,
        place_of(model, next) is At,
    ensures
        place_of(model, next)->offset == place_of(model, w)->offset + place_of(model, w)->len,
        place_of(model, next)->len == place_of(model, w)->len,
        w.expert == 0 ==> place_of(model, w)->offset == 0,
        model.tensor(w.name()) matches Some(t) ==> place_of(model, next)->offset + place_of(
            model,
            next,
        )->len <= t.size,
{
    let t = model.tensor(w.name())->0;
    let n = crate::stream::experts_in(t.dims@);
    let len = t.size as int / n as int;
    let e = w.expert as int;
    assert((e + 1) * len == e * len + len) by (nonlinear_arith);
    assert((e + 2) * len <= t.size) by (nonlinear_arith)
        requires
            len == t.size as int / n as int,
            e + 2 <= n,
            n > 0,
            len >= 0,
    ;
    assert((e + 2) * len == (e + 1) * len + len) by (nonlinear_arith);
}

} // verus!
