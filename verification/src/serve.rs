//! An OpenAI-compatible endpoint: reading requests, and what each is answered.
//!
//! One POST and two GETs of HTTP/1.1, and as much of JSON as `messages: [{role, content}]`
//! needs. What is not understood is refused instead of guessed. The sockets and the model
//! are the caller's.
use crate::chat::{copied, Message};
#[allow(unused_imports)]
use crate::chat::conversation;
use crate::text::{
    chars_of, find_from, parse_i64, parse_unsigned, push_decimal, same_text, skip_space, space,
    text_between, trim,
};
#[allow(unused_imports)]
use crate::text::{
    decimal, is_digit, is_first_at, is_space, parsed_int, stands_at, trimmed, trimmed_end,
    trimmed_start,
};
use vstd::prelude::*;
#[allow(unused_imports)]
use vstd::utf8::encode_utf8;

verus! {

// ------------------------------------------------------------------ searching

/// Where `needle` first stands in `text` at or after `i`.
pub open spec fn first_from(text: Seq<char>, needle: Seq<char>, i: int) -> Option<int>
    decreases text.len() + 1 - i,
{
    if i > text.len() {
        None
    } else if stands_at(text, needle, i) {
        Some(i)
    } else {
        first_from(text, needle, i + 1)
    }
}

/// Where `needle` first stands in `text`.
pub open spec fn first_at(text: Seq<char>, needle: Seq<char>) -> Option<int> {
    first_from(text, needle, 0)
}

/// The first place is a place, and nothing stands before it.
pub proof fn first_is_first(text: Seq<char>, needle: Seq<char>, i: int)
    requires
        0 <= i,
    ensures
        match first_from(text, needle, i) {
            Some(k) => is_first_at(text, needle, i, k),
            None => forall|k: int| i <= k ==> !stands_at(text, needle, k),
        },
    decreases text.len() + 1 - i,
{
    if i <= text.len() && !stands_at(text, needle, i) {
        first_is_first(text, needle, i + 1);
        if first_from(text, needle, i) is None {
            assert forall|k: int| i <= k implies !stands_at(text, needle, k) by {
                assert(k == i || i + 1 <= k);
            }
        }
    }
}

fn find_in(chars: &[char], needle: &str, from: usize) -> (found: Option<usize>)
    requires
        from <= chars@.len(),
    ensures
        match found {
            Some(i) => {
                &&& first_at(chars@.skip(from as int), needle@) == Some(i - from)
                &&& from <= i
                &&& i + needle@.len() <= chars@.len()
            },
            None => first_at(chars@.skip(from as int), needle@) is None,
        },
{
    let wanted = chars_of(needle);
    let found = find_from(chars, wanted.as_slice(), from);
    proof {
        let rest = chars@.skip(from as int);
        assert forall|k: int| 0 <= k implies stands_at(rest, needle@, k) == stands_at(
            chars@,
            needle@,
            from + k,
        ) by {
            if k + needle@.len() <= rest.len() {
                assert(rest.subrange(k, k + needle@.len()) =~= chars@.subrange(
                    from + k,
                    from + k + needle@.len(),
                ));
            }
        }
        first_is_first(rest, needle@, 0);
        match found {
            Some(i) => {
                assert(stands_at(rest, needle@, i - from));
                assert forall|k: int| 0 <= k < i - from implies !stands_at(rest, needle@, k) by {
                    assert(!stands_at(chars@, needle@, from + k));
                }
                let k = first_at(rest, needle@)->0;
                assert(stands_at(rest, needle@, k));
                assert(k == i - from);
            },
            None => {
                if let Some(k) = first_at(rest, needle@) {
                    assert(stands_at(chars@, needle@, from + k));
                }
            },
        }
    }
    found
}

// ------------------------------------------------------------------- requests

/// How many characters from the front are no white space.
pub open spec fn word_len(text: Seq<char>) -> int
    decreases text.len(),
{
    if text.len() > 0 && !is_space(text[0]) {
        1 + word_len(text.skip(1))
    } else {
        0
    }
}

/// The first word of `text`, and what stands behind it.
pub open spec fn first_word(text: Seq<char>) -> (Seq<char>, Seq<char>) {
    let t = trimmed_start(text);
    (t.take(word_len(t)), t.skip(word_len(t)))
}

/// The method and the target of a request line.
pub open spec fn request_parts(line: Seq<char>) -> (Seq<char>, Seq<char>) {
    (first_word(line).0, first_word(first_word(line).1).0)
}

fn word_end(chars: &[char], from: usize) -> (end: usize)
    requires
        from <= chars@.len(),
    ensures
        end == from + word_len(chars@.skip(from as int)),
        from <= end <= chars@.len(),
{
    let mut end: usize = from;
    while end < chars.len() && !space(chars[end])
        invariant
            from <= end <= chars@.len(),
            from + word_len(chars@.skip(from as int)) == end + word_len(chars@.skip(end as int)),
        decreases chars@.len() - end,
    {
        assert(chars@.skip(end as int)[0] == chars@[end as int]);
        assert(chars@.skip(end as int).skip(1) =~= chars@.skip(end + 1));
        end = end + 1;
    }
    assert(end < chars@.len() ==> chars@.skip(end as int)[0] == chars@[end as int]);
    end
}

/// A request's head.
#[derive(Debug, Clone, PartialEq, Eq)]
pub struct RequestHead {
    pub method: String,
    pub target: String,
    /// Bytes of body that follow.
    pub content_length: usize,
}

/// What a header line does to the length of the body: nothing unless it declares one, and
/// one that cannot be read counts as zero.
pub open spec fn length_after(line: Seq<char>, length: int) -> int {
    let text = trimmed_end(line);
    if "Content-Length:"@.is_prefix_of(text) || "content-length:"@.is_prefix_of(text) {
        match parsed_int(trimmed(text.skip(15)), 0, usize::MAX as int) {
            Some(n) => n,
            None => 0,
        }
    } else {
        length
    }
}

impl RequestHead {
    /// Reads a request line.
    pub fn from_line(line: &str) -> (head: Self)
        ensures
            (head.method@, head.target@) == request_parts(line@),
            head.content_length == 0,
    {
        let chars = chars_of(line);
        let a: usize = skip_space(chars.as_slice(), 0);
        let b: usize = word_end(chars.as_slice(), a);
        let c: usize = skip_space(chars.as_slice(), b);
        let d: usize = word_end(chars.as_slice(), c);
        let head = RequestHead {
            method: text_between(chars.as_slice(), a, b),
            target: text_between(chars.as_slice(), c, d),
            content_length: 0,
        };
        proof {
            assert(chars@.skip(0) =~= chars@);
            let t = chars@.skip(a as int);
            assert(t.take(word_len(t)) =~= chars@.subrange(a as int, b as int));
            assert(t.skip(word_len(t)) =~= chars@.skip(b as int));
            let u = chars@.skip(c as int);
            assert(u.take(word_len(u)) =~= chars@.subrange(c as int, d as int));
        }
        head
    }

    /// Takes in a header line; false once the head has ended, with a blank line.
    pub fn header(&mut self, line: &str) -> (more: bool)
        ensures
            more == (trimmed_end(line@).len() > 0),
            final(self).method == old(self).method,
            final(self).target == old(self).target,
            final(self).content_length == (if more {
                length_after(line@, old(self).content_length as int)
            } else {
                old(self).content_length as int
            }),
    {
        let chars = chars_of(line);
        let mut to: usize = chars.len();
        assert(chars@.take(to as int) =~= chars@);
        while to > 0 && space(chars[to - 1])
            invariant
                to <= chars@.len(),
                trimmed_end(chars@) == trimmed_end(chars@.take(to as int)),
            decreases to,
        {
            assert(chars@.take(to as int).drop_last() =~= chars@.take(to - 1));
            to = to - 1;
        }
        let text = text_between(chars.as_slice(), 0, to);
        assert(text@ =~= trimmed_end(line@)) by {
            assert(text@ =~= chars@.take(to as int));
        }
        if to == 0 {
            return false;
        }
        let declares = crate::text::starts_with(text.as_str(), "Content-Length:")
            || crate::text::starts_with(text.as_str(), "content-length:");
        if declares {
            proof {
                reveal_strlit("Content-Length:");
                reveal_strlit("content-length:");
            }
            let value = text_between(chars.as_slice(), 15, to);
            assert(value@ =~= text@.skip(15));
            self.content_length = match parse_unsigned(
                trim(value.as_str()).as_str(),
                usize::MAX as u64,
            ) {
                Some(n) => n as usize,
                None => 0,
            };
        }
        true
    }
}

/// What a request asks for.
#[derive(Debug, Clone, Copy, PartialEq, Eq, Structural)]
pub enum Route {
    Health,
    Models,
    Complete,
    Unknown,
}

/// What a request asks for.
pub open spec fn route_of(method: Seq<char>, target: Seq<char>) -> Route {
    if method == "GET"@ && (target == "/health"@ || target == "/"@) {
        Route::Health
    } else if method == "GET"@ && target == "/v1/models"@ {
        Route::Models
    } else if method == "POST"@ && target == "/v1/chat/completions"@ {
        Route::Complete
    } else {
        Route::Unknown
    }
}

/// What a request asks for.
pub fn route(head: &RequestHead) -> (r: Route)
    ensures
        r == route_of(head.method@, head.target@),
{
    let method = head.method.as_str();
    let target = head.target.as_str();
    if same_text(method, "GET") && (same_text(target, "/health") || same_text(target, "/")) {
        Route::Health
    } else if same_text(method, "GET") && same_text(target, "/v1/models") {
        Route::Models
    } else if same_text(method, "POST") && same_text(target, "/v1/chat/completions") {
        Route::Complete
    } else {
        Route::Unknown
    }
}

// ------------------------------------------------------------------ responses

/// How an answer's status reads.
pub open spec fn reason_of(status: u16) -> Seq<char> {
    if status == 200 {
        "OK"@
    } else if status == 400 {
        "Bad Request"@
    } else {
        "Not Found"@
    }
}

/// A response: its head, which counts the body's bytes, and the body.
pub open spec fn response_text(status: u16, body: Seq<char>) -> Seq<char> {
    "HTTP/1.1 "@ + decimal(status as nat) + " "@ + reason_of(status)
        + "\r\nContent-Type: application/json\r\nContent-Length: "@ + decimal(
        encode_utf8(body).len(),
    ) + "\r\nAccess-Control-Allow-Origin: *\r\nConnection: close\r\n\r\n"@ + body
}

/// Writes a response.
pub fn response(status: u16, body: &str) -> (text: String)
    ensures
        text@ == response_text(status, body@),
{
    let mut text = copied("HTTP/1.1 ");
    push_decimal(&mut text, status as u64);
    text.append(" ");
    text.append(
        if status == 200 {
            "OK"
        } else if status == 400 {
            "Bad Request"
        } else {
            "Not Found"
        },
    );
    text.append("\r\nContent-Type: application/json\r\nContent-Length: ");
    push_decimal(&mut text, body.as_bytes().len() as u64);
    text.append("\r\nAccess-Control-Allow-Origin: *\r\nConnection: close\r\n\r\n");
    text.append(body);
    text
}

/// The digit of a value below sixteen, small.
pub open spec fn hex_digit(v: int) -> char {
    if v < 10 {
        (48 + v) as char
    } else {
        (87 + v) as char
    }
}

/// `c` inside a JSON string.
pub open spec fn escaped_char(c: char) -> Seq<char> {
    if c == '"' {
        seq!['\\', '"']
    } else if c == '\\' {
        seq!['\\', '\\']
    } else if c == '\n' {
        seq!['\\', 'n']
    } else if c == '\r' {
        seq!['\\', 'r']
    } else if c == '\t' {
        seq!['\\', 't']
    } else if ' ' > c {
        seq!['\\', 'u', '0', '0', hex_digit(c as int / 16), hex_digit(c as int % 16)]
    } else {
        seq![c]
    }
}

/// `text` inside a JSON string.
pub open spec fn escaped(text: Seq<char>) -> Seq<char>
    decreases text.len(),
{
    if text.len() == 0 {
        text
    } else {
        escaped(text.drop_last()) + escaped_char(text.last())
    }
}

fn hex_char(v: u8) -> (c: char)
    requires
        v < 16,
    ensures
        c == hex_digit(v as int),
{
    if v < 10 {
        (48 + v) as char
    } else {
        (87 + v) as char
    }
}

fn push_escaped(out: &mut String, c: char)
    ensures
        final(out)@ == old(out)@ + escaped_char(c),
{
    if c == '"' {
        out.push('\\');
        out.push('"');
    } else if c == '\\' {
        out.push('\\');
        out.push('\\');
    } else if c == '\n' {
        out.push('\\');
        out.push('n');
    } else if c == '\r' {
        out.push('\\');
        out.push('r');
    } else if c == '\t' {
        out.push('\\');
        out.push('t');
    } else if ' ' > c {
        let v: u8 = c as u32 as u8;
        out.push('\\');
        out.push('u');
        out.push('0');
        out.push('0');
        out.push(hex_char(v / 16));
        out.push(hex_char(v % 16));
    } else {
        out.push(c);
    }
    assert(out@ =~= old(out)@ + escaped_char(c));
}

/// Escapes a text for a JSON string.
pub fn escape(s: &str) -> (out: String)
    ensures
        out@ == escaped(s@),
{
    let chars = chars_of(s);
    let mut out = String::new();
    let mut i: usize = 0;
    assert(out@ =~= escaped(chars@.take(0)));
    while i < chars.len()
        invariant
            i <= chars@.len(),
            out@ == escaped(chars@.take(i as int)),
        decreases chars@.len() - i,
    {
        push_escaped(&mut out, chars[i]);
        assert(chars@.take(i + 1).drop_last() =~= chars@.take(i as int));
        i = i + 1;
    }
    assert(chars@.take(i as int) =~= chars@);
    out
}

/// What a refused request is answered.
pub open spec fn error_body(message: Seq<char>) -> Seq<char> {
    "{\"error\":{\"message\":\""@ + escaped(message)
        + "\",\"type\":\"invalid_request_error\"}}"@
}

/// What a refused request is answered.
pub fn error_json(message: &str) -> (body: String)
    ensures
        body@ == error_body(message@),
{
    let mut body = copied("{\"error\":{\"message\":\"");
    body.append(escape(message).as_str());
    body.append("\",\"type\":\"invalid_request_error\"}}");
    body
}

/// What a completion of `produced` tokens is answered.
pub open spec fn completion_body(text: Seq<char>, prompt_tokens: nat, produced: nat) -> Seq<char> {
    "{\"id\":\"bigtea\",\"object\":\"chat.completion\",\"model\":\"deepseek-v4-flash\",\"choices\":[{\"index\":0,\"message\":{\"role\":\"assistant\",\"content\":\""@
        + escaped(text)
        + "\"},\"finish_reason\":\"length\"}],\"usage\":{\"prompt_tokens\":"@ + decimal(
        prompt_tokens,
    ) + ",\"completion_tokens\":"@ + decimal(produced) + ",\"total_tokens\":"@ + decimal(
        prompt_tokens + produced,
    ) + "}}"@
}

/// What a completion of `produced` tokens is answered.
pub fn completion_json(text: &str, prompt_tokens: u64, produced: u64) -> (body: String)
    requires
        prompt_tokens + produced <= u64::MAX,
    ensures
        body@ == completion_body(text@, prompt_tokens as nat, produced as nat),
{
    let mut body = copied(
        "{\"id\":\"bigtea\",\"object\":\"chat.completion\",\"model\":\"deepseek-v4-flash\",\"choices\":[{\"index\":0,\"message\":{\"role\":\"assistant\",\"content\":\"",
    );
    body.append(escape(text).as_str());
    body.append("\"},\"finish_reason\":\"length\"}],\"usage\":{\"prompt_tokens\":");
    push_decimal(&mut body, prompt_tokens);
    body.append(",\"completion_tokens\":");
    push_decimal(&mut body, produced);
    body.append(",\"total_tokens\":");
    push_decimal(&mut body, prompt_tokens + produced);
    body.append("}}");
    body
}

/// The status and the body of an answer. A completion's is what it came to; whatever went
/// wrong with it is a bad request.
pub open spec fn answer_of(route: Route, completion: Result<Seq<char>, Seq<char>>) -> (
    u16,
    Seq<char>,
) {
    match route {
        Route::Health => (
            200,
            "{\"status\":\"ok\",\"architecture\":\"deepseek4\",\"context_limit\":256}"@,
        ),
        Route::Models => (
            200,
            "{\"object\":\"list\",\"data\":[{\"id\":\"deepseek-v4-flash\",\"object\":\"model\",\"owned_by\":\"bigtea\"}]}"@,
        ),
        Route::Complete => match completion {
            Ok(body) => (200, body),
            Err(message) => (400, error_body(message)),
        },
        Route::Unknown => (404, error_body("no such endpoint"@)),
    }
}

/// The outcome of a completion without its representation.
pub open spec fn outcome_texts(completion: Result<&str, &str>) -> Result<Seq<char>, Seq<char>> {
    match completion {
        Ok(body) => Ok(body@),
        Err(message) => Err(message@),
    }
}

/// Answers a request. `completion` is the body of a completion or what went wrong with
/// it, and is looked at only where one was asked for.
pub fn handle(route: Route, completion: Result<&str, &str>) -> (answer: (u16, String))
    ensures
        (answer.0, answer.1@) == answer_of(route, outcome_texts(completion)),
{
    match route {
        Route::Health => (
            200,
            copied("{\"status\":\"ok\",\"architecture\":\"deepseek4\",\"context_limit\":256}"),
        ),
        Route::Models => (
            200,
            copied(
                "{\"object\":\"list\",\"data\":[{\"id\":\"deepseek-v4-flash\",\"object\":\"model\",\"owned_by\":\"bigtea\"}]}",
            ),
        ),
        Route::Complete => match completion {
            Ok(body) => (200, copied(body)),
            Err(message) => (400, error_json(message)),
        },
        Route::Unknown => (404, error_json("no such endpoint")),
    }
}

// ----------------------------------------------------------------- completions

/// Tokens a request is completed with: what it asks for, within 1 and 4096; 64 where it
/// does not say.
pub open spec fn max_tokens_of(body: Seq<char>) -> int {
    match int_field(body, "max_tokens"@) {
        Some(n) => if n < 1 {
            1
        } else if n > 4096 {
            4096
        } else {
            n
        },
        None => 64,
    }
}

/// Positions a completion and its prompt hold together.
pub const SERVED_CONTEXT: usize = 256;

/// What is said of a request that does not fit.
pub open spec fn too_long_text(tokens: nat, max_tokens: nat) -> Seq<char> {
    "prompt is "@ + decimal(tokens) + " tokens and max_tokens is "@ + decimal(max_tokens)
        + "; this path holds 256 in total"@
}

/// How many tokens a request is completed with.
pub fn max_tokens(body: &str) -> (n: usize)
    ensures
        n == max_tokens_of(body@),
{
    match extract_int(body, "max_tokens") {
        Some(n) => if n < 1 {
            1
        } else if n > 4096 {
            4096
        } else {
            n as usize
        },
        None => 64,
    }
}

/// What a completion is asked for.
#[derive(Debug, Clone, PartialEq, Eq)]
pub struct CompletionRequest {
    pub messages: Vec<Message>,
    pub max_tokens: usize,
}

/// Reads what a completion is asked for: the conversation to frame, and how far to
/// continue it.
pub fn complete(body: &str) -> (read: Result<CompletionRequest, String>)
    ensures
        match read {
            Ok(request) => {
                &&& extraction(body@) == Ok::<
                    Seq<(Seq<char>, Seq<char>)>,
                    Seq<char>,
                >(conversation(request.messages@))
                &&& request.max_tokens == max_tokens_of(body@)
            },
            Err(text) => extraction(body@) == Err::<
                Seq<(Seq<char>, Seq<char>)>,
                Seq<char>,
            >(text@),
        },
{
    match extract_messages(body) {
        Ok(messages) => Ok(CompletionRequest { messages, max_tokens: max_tokens(body) }),
        Err(text) => Err(text),
    }
}

/// Refuses a request that is empty or does not fit, before any work is done on it.
pub fn check_request(tokens: usize, max_tokens: usize) -> (checked: Result<(), String>)
    ensures
        match checked {
            Ok(_) => tokens > 0 && tokens + max_tokens <= SERVED_CONTEXT,
            Err(text) => if tokens == 0 {
                text@ == "empty prompt"@
            } else {
                tokens + max_tokens > SERVED_CONTEXT && text@ == too_long_text(
                    tokens as nat,
                    max_tokens as nat,
                )
            },
        },
{
    if tokens == 0 {
        return Err(copied("empty prompt"));
    }
    if tokens <= SERVED_CONTEXT && max_tokens <= SERVED_CONTEXT - tokens {
        return Ok(());
    }
    let mut text = copied("prompt is ");
    push_decimal(&mut text, tokens as u64);
    text.append(" tokens and max_tokens is ");
    push_decimal(&mut text, max_tokens as u64);
    text.append("; this path holds 256 in total");
    Err(text)
}

// ------------------------------------------------------------------------ JSON

/// The string that `text` goes on with, its opening quote already read: what it says, and
/// how many characters it takes with its closing quote. Nothing where it never closes.
///
/// A `\u` and the four characters behind it are left out: a wrong guess would be worse.
pub open spec fn json_string(text: Seq<char>) -> Option<(Seq<char>, int)>
    decreases text.len(),
{
    if text.len() == 0 {
        None
    } else if text[0] == '"' {
        Some((Seq::empty(), 1))
    } else if text[0] != '\\' {
        behind(seq![text[0]], 1, json_string(text.skip(1)))
    } else if text.len() == 1 {
        None
    } else if text[1] == 'u' {
        if text.len() < 6 {
            None
        } else {
            behind(Seq::empty(), 6, json_string(text.skip(6)))
        }
    } else {
        behind(seq![unescaped_char(text[1])], 2, json_string(text.skip(2)))
    }
}

/// What a backslash and `c` stand for.
pub open spec fn unescaped_char(c: char) -> char {
    if c == 'n' {
        '\n'
    } else if c == 't' {
        '\t'
    } else if c == 'r' {
        '\r'
    } else {
        c
    }
}

/// A string whose first `taken` characters say `front`.
pub open spec fn behind(front: Seq<char>, taken: int, rest: Option<(Seq<char>, int)>) -> Option<
    (Seq<char>, int),
> {
    match rest {
        Some((text, n)) => Some((front + text, taken + n)),
        None => None,
    }
}

/// A string takes at least its closing quote and no more than there is.
pub proof fn strings_end_inside(text: Seq<char>)
    ensures
        json_string(text) matches Some((_, n)) ==> 1 <= n <= text.len() && text[n - 1] == '"',
    decreases text.len(),
{
    if text.len() > 0 && text[0] != '"' {
        if text[0] != '\\' {
            strings_end_inside(text.skip(1));
        } else if text.len() > 1 {
            if text[1] == 'u' {
                if text.len() >= 6 {
                    strings_end_inside(text.skip(6));
                }
            } else {
                strings_end_inside(text.skip(2));
            }
        }
    }
}

/// Reads the string that goes on at `from`; gives back what it says and how many
/// characters it took with its closing quote.
pub fn read_json_string(chars: &[char], from: usize) -> (read: std::result::Result<
    (String, usize),
    String,
>)
    requires
        from <= chars@.len(),
    ensures
        match read {
            Ok((text, taken)) => {
                &&& json_string(chars@.skip(from as int)) == Some((text@, taken as int))
                &&& 0 < taken <= chars@.len() - from
            },
            Err(why) => {
                &&& json_string(chars@.skip(from as int)) is None
                &&& why@ == "unterminated string in request body"@
            },
        },
{
    let len: usize = chars.len();
    let mut out = String::new();
    let mut at: usize = from;
    let ghost whole = json_string(chars@.skip(from as int));
    assert(whole == behind(out@, 0, whole)) by {
        if let Some((text, n)) = whole {
            assert(out@ + text =~= text);
        }
    }
    while at < len
        invariant
            from <= at <= len,
            len == chars@.len(),
            whole == json_string(chars@.skip(from as int)),
            whole == behind(out@, at - from, json_string(chars@.skip(at as int))),
        decreases len - at,
    {
        let ghost rest = chars@.skip(at as int);
        let ghost sofar = out@;
        let c = chars[at];
        assert(rest[0] == c);
        if c == '"' {
            assert(out@ + Seq::<char>::empty() =~= out@);
            return Ok((out, at + 1 - from));
        }
        if c != '\\' {
            out.push(c);
            proof {
                assert(rest.skip(1) =~= chars@.skip(at + 1));
                if let Some((text, n)) = json_string(chars@.skip(at + 1)) {
                    assert(sofar + (seq![c] + text) =~= out@ + text);
                }
            }
            at = at + 1;
        } else if len - at == 1 {
            return Err(copied("unterminated string in request body"));
        } else {
            let e = chars[at + 1];
            assert(rest[1] == e);
            if e == 'u' {
                if len - at < 6 {
                    return Err(copied("unterminated string in request body"));
                }
                proof {
                    assert(rest.skip(6) =~= chars@.skip(at + 6));
                    if let Some((text, n)) = json_string(chars@.skip(at + 6)) {
                        assert(sofar + (Seq::<char>::empty() + text) =~= out@ + text);
                    }
                }
                at = at + 6;
            } else {
                let d = if e == 'n' {
                    '\n'
                } else if e == 't' {
                    '\t'
                } else if e == 'r' {
                    '\r'
                } else {
                    e
                };
                out.push(d);
                proof {
                    assert(rest.skip(2) =~= chars@.skip(at + 2));
                    if let Some((text, n)) = json_string(chars@.skip(at + 2)) {
                        assert(sofar + (seq![d] + text) =~= out@ + text);
                    }
                }
                at = at + 2;
            }
        }
    }
    Err(copied("unterminated string in request body"))
}

/// What reading a request's messages comes to.
pub enum Extracted {
    Messages(Seq<(Seq<char>, Seq<char>)>),
    /// Content that is no string: parts of some other medium.
    NotText,
    /// A string that never closes.
    Unterminated,
}

/// `message` in front of what the rest came to.
pub open spec fn in_front(front: Seq<(Seq<char>, Seq<char>)>, rest: Extracted) -> Extracted {
    match rest {
        Extracted::Messages(more) => Extracted::Messages(front + more),
        other => other,
    }
}

/// What stands behind the first `key` and its colon.
pub open spec fn behind_key(text: Seq<char>, key: Seq<char>) -> Option<Seq<char>> {
    match first_at(text, key) {
        None => None,
        Some(at) => {
            let after = trimmed_start(text.skip(at + key.len()));
            match first_at(after, ":"@) {
                None => None,
                Some(colon) => Some(after.skip(colon + 1)),
            }
        },
    }
}

/// The `role` key comes before the next `content` key.
pub open spec fn role_first(text: Seq<char>) -> bool {
    match (first_at(text, "\"role\""@), first_at(text, "\"content\""@)) {
        (Some(r), Some(c)) => r < c,
        _ => false,
    }
}

/// The messages of `text`, the next content being said by `role`: keys are read in the
/// order they stand in, and a content without a role is the user's.
pub open spec fn extracted(text: Seq<char>, role: Seq<char>) -> Extracted
    decreases text.len(),
    via extracted_shrinks
{
    if role_first(text) {
        match behind_key(text, "\"role\""@) {
            None => Extracted::Messages(Seq::empty()),
            Some(rest) => {
                let value = trimmed_start(rest);
                if value.len() > 0 && value[0] == '"' {
                    match json_string(value.skip(1)) {
                        None => Extracted::Unterminated,
                        Some((said, _)) => extracted(rest, said),
                    }
                } else {
                    extracted(rest, role)
                }
            },
        }
    } else {
        match behind_key(text, "\"content\""@) {
            None => Extracted::Messages(Seq::empty()),
            Some(rest) => {
                let value = trimmed_start(rest);
                if value.len() == 0 || value[0] != '"' {
                    Extracted::NotText
                } else {
                    match json_string(value.skip(1)) {
                        None => Extracted::Unterminated,
                        Some((said, n)) => in_front(
                            seq![(role, said)],
                            extracted(value.skip(1 + n), "user"@),
                        ),
                    }
                }
            },
        }
    }
}

/// Trimming adds nothing.
pub proof fn trimming_shortens(text: Seq<char>)
    ensures
        trimmed_start(text).len() <= text.len(),
    decreases text.len(),
{
    if text.len() > 0 && is_space(text[0]) {
        trimming_shortens(text.drop_first());
    }
}

proof fn behind_key_shortens(text: Seq<char>, key: Seq<char>)
    requires
        key.len() > 0,
    ensures
        behind_key(text, key) matches Some(rest) ==> rest.len() < text.len(),
{
    first_is_first(text, key, 0);
    if let Some(at) = first_at(text, key) {
        let after = trimmed_start(text.skip(at + key.len()));
        trimming_shortens(text.skip(at + key.len()));
        first_is_first(after, ":"@, 0);
        reveal_strlit(":");
    }
}

#[via_fn]
proof fn extracted_shrinks(text: Seq<char>, role: Seq<char>) {
    reveal_strlit("\"role\"");
    reveal_strlit("\"content\"");
    behind_key_shortens(text, "\"role\""@);
    behind_key_shortens(text, "\"content\""@);
    if let Some(rest) = behind_key(text, "\"content\""@) {
        trimming_shortens(rest);
        let value = trimmed_start(rest);
        if value.len() > 0 {
            strings_end_inside(value.skip(1));
        }
    }
}

/// What is said of a request whose messages cannot be read.
pub open spec fn extraction(body: Seq<char>) -> Result<Seq<(Seq<char>, Seq<char>)>, Seq<char>> {
    match extracted(body, "user"@) {
        Extracted::NotText => Err("only string `content` is supported"@),
        Extracted::Unterminated => Err("unterminated string in request body"@),
        Extracted::Messages(messages) => if messages.len() == 0 {
            Err("no `messages[].content` in the request body"@)
        } else {
            Ok(messages)
        },
    }
}

/// Where the text behind the first `key` from `from` on, and its colon, begins.
fn find_behind_key(chars: &[char], key: &str, from: usize) -> (found: Option<usize>)
    requires
        from <= chars@.len(),
    ensures
        match found {
            Some(at) => {
                &&& behind_key(chars@.skip(from as int), key@) == Some(chars@.skip(at as int))
                &&& from <= at <= chars@.len()
            },
            None => behind_key(chars@.skip(from as int), key@) is None,
        },
{
    let total: usize = chars.len();
    let at: usize = match find_in(chars, key, from) {
        Some(at) => at,
        None => {
            return None;
        },
    };
    let len: usize = chars_of(key).len();
    assert(chars@.skip(from as int).skip(at - from + key@.len()) =~= chars@.skip(at + len));
    let after: usize = skip_space(chars, at + len);
    proof {
        reveal_strlit(":");
    }
    match find_in(chars, ":", after) {
        Some(colon) => {
            assert(colon < total);
            assert(chars@.skip(after as int).skip(colon - after + 1) =~= chars@.skip(colon + 1));
            Some(colon + 1)
        },
        None => None,
    }
}

fn role_comes_first(chars: &[char], from: usize) -> (yes: bool)
    requires
        from <= chars@.len(),
    ensures
        yes == role_first(chars@.skip(from as int)),
{
    match (find_in(chars, "\"role\"", from), find_in(chars, "\"content\"", from)) {
        (Some(r), Some(c)) => r < c,
        _ => false,
    }
}

/// Reads the conversation out of a chat-completions body, in order, with roles. What
/// cannot be represented is refused rather than half sent.
pub fn extract_messages(body: &str) -> (read: Result<Vec<Message>, String>)
    ensures
        match read {
            Ok(messages) => extraction(body@) == Ok::<
                Seq<(Seq<char>, Seq<char>)>,
                Seq<char>,
            >(conversation(messages@)),
            Err(text) => extraction(body@) == Err::<
                Seq<(Seq<char>, Seq<char>)>,
                Seq<char>,
            >(text@),
        },
{
    let chars = chars_of(body);
    let mut out: Vec<Message> = Vec::new();
    let mut role = copied("user");
    let mut at: usize = 0;
    let mut going = true;
    let ghost whole = extracted(body@, "user"@);
    proof {
        assert(chars@.skip(0) =~= chars@);
        if let Extracted::Messages(m) = whole {
            assert(conversation(out@) + m =~= m);
        }
    }
    while going
        invariant
            at <= chars@.len(),
            chars@ == body@,
            whole == extracted(body@, "user"@),
            going ==> whole == in_front(
                conversation(out@),
                extracted(chars@.skip(at as int), role@),
            ),
            !going ==> whole == Extracted::Messages(conversation(out@)),
        decreases chars@.len() - at, going as int,
    {
        let ghost rest = chars@.skip(at as int);
        proof {
            if extracted(rest, role@) == Extracted::Messages(Seq::empty()) {
                assert(conversation(out@) + Seq::empty() =~= conversation(out@));
            }
            reveal_strlit("\"role\"");
            reveal_strlit("\"content\"");
            behind_key_shortens(rest, "\"role\""@);
            behind_key_shortens(rest, "\"content\""@);
        }
        if role_comes_first(chars.as_slice(), at) {
            match find_behind_key(chars.as_slice(), "\"role\"", at) {
                None => {
                    going = false;
                },
                Some(next) => {
                    let value: usize = skip_space(chars.as_slice(), next);
                    assert(value < chars@.len() ==> chars@.skip(value as int)[0]
                        == chars@[value as int]);
                    if value < chars.len() && chars[value] == '"' {
                        assert(chars@.skip(value as int).skip(1) =~= chars@.skip(value + 1));
                        match read_json_string(chars.as_slice(), value + 1) {
                            Err(why) => {
                                return Err(why);
                            },
                            Ok((said, _taken)) => {
                                role = said;
                            },
                        }
                    }
                    at = next;
                },
            }
        } else {
            match find_behind_key(chars.as_slice(), "\"content\"", at) {
                None => {
                    going = false;
                },
                Some(next) => {
                    let value: usize = skip_space(chars.as_slice(), next);
                    assert(value < chars@.len() ==> chars@.skip(value as int)[0]
                        == chars@[value as int]);
                    if value >= chars.len() || chars[value] != '"' {
                        return Err(copied("only string `content` is supported"));
                    }
                    assert(chars@.skip(value as int).skip(1) =~= chars@.skip(value + 1));
                    match read_json_string(chars.as_slice(), value + 1) {
                        Err(why) => {
                            return Err(why);
                        },
                        Ok((said, taken)) => {
                            let end: usize = value + 1 + taken;
                            let ghost before = conversation(out@);
                            let message = Message::new(role.as_str(), said.as_str());
                            out.push(message);
                            proof {
                                assert(conversation(out@) =~= before.push((role@, said@)));
                                assert(chars@.skip(value as int).skip(1 + (end - (value + 1)))
                                    =~= chars@.skip(end as int));
                                if let Extracted::Messages(m) = extracted(
                                    chars@.skip(end as int),
                                    "user"@,
                                ) {
                                    assert(before + (seq![(role@, said@)] + m) =~= conversation(
                                        out@,
                                    ) + m);
                                }
                            }
                            role = copied("user");
                            at = end;
                        },
                    }
                },
            }
        }
    }
    if out.len() == 0 {
        return Err(copied("no `messages[].content` in the request body"));
    }
    Ok(out)
}

/// The digits that `text` begins with.
pub open spec fn leading_digits(text: Seq<char>) -> Seq<char>
    decreases text.len(),
{
    if text.len() > 0 && is_digit(text[0]) {
        seq![text[0]] + leading_digits(text.skip(1))
    } else {
        Seq::empty()
    }
}

/// The integer behind the first `"key"`, if it begins with a digit and fits.
pub open spec fn int_field(body: Seq<char>, key: Seq<char>) -> Option<int> {
    let quoted = seq!['"'] + key + seq!['"'];
    match first_at(body, quoted) {
        None => None,
        Some(at) => {
            let after = body.skip(at + quoted.len());
            match first_at(after, ":"@) {
                None => None,
                Some(colon) => parsed_int(
                    leading_digits(trimmed_start(after.skip(colon + 1))),
                    i64::MIN as int,
                    i64::MAX as int,
                ),
            }
        },
    }
}

/// Reads the integer behind the first `"key"`. A missing one is absent rather than zero.
pub fn extract_int(body: &str, key: &str) -> (value: Option<i64>)
    ensures
        match value {
            Some(v) => int_field(body@, key@) == Some(v as int),
            None => int_field(body@, key@) is None,
        },
{
    let chars = chars_of(body);
    let total: usize = chars.len();
    let mut wanted = String::new();
    wanted.push('"');
    wanted.append(key);
    wanted.push('"');
    assert(wanted@ =~= seq!['"'] + key@ + seq!['"']);
    assert(chars@.skip(0) =~= chars@);
    let at: usize = match find_in(chars.as_slice(), wanted.as_str(), 0) {
        Some(at) => at,
        None => {
            return None;
        },
    };
    let after: usize = at + chars_of(wanted.as_str()).len();
    proof {
        reveal_strlit(":");
    }
    let colon: usize = match find_in(chars.as_slice(), ":", after) {
        Some(colon) => colon,
        None => {
            return None;
        },
    };
    assert(colon < total);
    assert(chars@.skip(after as int).skip(colon - after + 1) =~= chars@.skip(colon + 1));
    let from: usize = skip_space(chars.as_slice(), colon + 1);
    let mut to: usize = from;
    assert(chars@.subrange(from as int, to as int) + leading_digits(chars@.skip(to as int))
        =~= leading_digits(chars@.skip(from as int)));
    while to < chars.len() && '0' <= chars[to] && chars[to] <= '9'
        invariant
            from <= to <= chars@.len(),
            chars@.subrange(from as int, to as int) + leading_digits(chars@.skip(to as int))
                == leading_digits(chars@.skip(from as int)),
        decreases chars@.len() - to,
    {
        let ghost rest = chars@.skip(to as int);
        assert(rest[0] == chars@[to as int]);
        assert(rest.skip(1) =~= chars@.skip(to + 1));
        assert(chars@.subrange(from as int, to + 1) + leading_digits(chars@.skip(to + 1))
            =~= chars@.subrange(from as int, to as int) + leading_digits(rest));
        to = to + 1;
    }
    proof {
        let rest = chars@.skip(to as int);
        if to < chars@.len() {
            assert(rest[0] == chars@[to as int]);
        }
        assert(leading_digits(rest) =~= Seq::empty());
        assert(chars@.subrange(from as int, to as int) =~= leading_digits(
            chars@.skip(from as int),
        ));
    }
    let digits = text_between(chars.as_slice(), from, to);
    parse_i64(digits.as_str())
}

// ------------------------------------------------------------------------ laws

/// What reading back an escaped text gives: control characters with no short escape are
/// left out.
pub open spec fn readable(text: Seq<char>) -> Seq<char>
    decreases text.len(),
{
    if text.len() == 0 {
        text
    } else if ' ' > text[0] && text[0] != '\n' && text[0] != '\r' && text[0] != '\t' {
        readable(text.skip(1))
    } else {
        seq![text[0]] + readable(text.skip(1))
    }
}

proof fn escaped_from_the_front(text: Seq<char>)
    requires
        text.len() > 0,
    ensures
        escaped(text) == escaped_char(text[0]) + escaped(text.skip(1)),
    decreases text.len(),
{
    if text.len() == 1 {
        assert(text.drop_last() =~= Seq::<char>::empty());
        assert(text.skip(1) =~= Seq::<char>::empty());
        assert(escaped(text) =~= escaped_char(text[0]) + escaped(text.skip(1)));
    } else {
        escaped_from_the_front(text.drop_last());
        assert(text.drop_last().skip(1) =~= text.skip(1).drop_last());
        assert(escaped(text) =~= escaped_char(text[0]) + escaped(text.skip(1)));
    }
}

/// A response's strings end where they should, whatever they hold: an escaped text and a
/// closing quote are read as one string that says the text, whatever stands behind them.
pub proof fn escaped_text_reads_back(text: Seq<char>, rest: Seq<char>)
    ensures
        json_string(escaped(text) + seq!['"'] + rest) == Some(
            (readable(text), escaped(text).len() as int + 1),
        ),
    decreases text.len(),
{
    let all = escaped(text) + seq!['"'] + rest;
    if text.len() == 0 {
        assert(all[0] == '"');
        assert(readable(text) =~= Seq::empty());
    } else {
        escaped_from_the_front(text);
        let c = text[0];
        let tail = text.skip(1);
        escaped_text_reads_back(tail, rest);
        let back = escaped(tail) + seq!['"'] + rest;
        let head = escaped_char(c);
        assert(all =~= head + back);
        assert(all.skip(head.len() as int) =~= back);
        assert(all[0] == head[0]);
        if head.len() > 1 {
            assert(all[1] == head[1]);
        }
        assert(readable(text) =~= (if ' ' > c && c != '\n' && c != '\r' && c != '\t' {
            Seq::empty() + readable(tail)
        } else {
            seq![c] + readable(tail)
        }));
    }
}

/// An escaped text that is never closed is no string.
pub proof fn unclosed_text_is_no_string(text: Seq<char>)
    ensures
        json_string(escaped(text)) is None,
    decreases text.len(),
{
    if text.len() > 0 {
        escaped_from_the_front(text);
        let head = escaped_char(text[0]);
        let back = escaped(text.skip(1));
        let all = escaped(text);
        unclosed_text_is_no_string(text.skip(1));
        assert(all =~= head + back);
        assert(all.skip(head.len() as int) =~= back);
        assert(all[0] == head[0]);
        if head.len() > 1 {
            assert(all[1] == head[1]);
        }
    }
}

/// Reading undoes escaping: a text without control characters other than newline,
/// carriage return and tab comes back as it was, and what is taken is the escaped text and
/// its closing quote, whatever stands behind them.
pub proof fn reading_undoes_escaping(text: Seq<char>, rest: Seq<char>)
    requires
        forall|i: int|
            0 <= i < text.len() ==> (#[trigger] text[i]) >= ' ' || text[i] == '\n' || text[i]
                == '\r' || text[i] == '\t',
    ensures
        json_string(escaped(text) + seq!['"'] + rest) == Some(
            (text, escaped(text).len() as int + 1),
        ),
        json_string(escaped(text)) is None,
{
    escaped_text_reads_back(text, rest);
    ordinary_text_is_readable(text);
    unclosed_text_is_no_string(text);
}

proof fn escaped_char_is_printable(c: char, i: int)
    requires
        0 <= i < escaped_char(c).len(),
    ensures
        escaped_char(c)[i] >= ' ',
{
    if ' ' > c {
        let code = c as int;
        assert(0 <= code < 32);
        assert(code / 16 < 16 && code % 16 < 16);
        assert(hex_digit(code / 16) >= ' ');
        assert(hex_digit(code % 16) >= ' ');
    }
}

/// Nothing below a space stands raw in an escaped text.
pub proof fn escaped_text_is_printable(text: Seq<char>, i: int)
    requires
        0 <= i < escaped(text).len(),
    ensures
        escaped(text)[i] >= ' ',
    decreases text.len(),
{
    if text.len() > 0 {
        let front = escaped(text.drop_last());
        let back = escaped_char(text.last());
        if i < front.len() {
            escaped_text_is_printable(text.drop_last(), i);
        } else {
            assert(escaped(text)[i] == back[i - front.len()]);
            escaped_char_is_printable(text.last(), i - front.len());
        }
    }
}

/// Text without control characters reads back as it is.
pub proof fn ordinary_text_is_readable(text: Seq<char>)
    requires
        forall|i: int|
            0 <= i < text.len() ==> (#[trigger] text[i]) >= ' ' || text[i] == '\n' || text[i]
                == '\r' || text[i] == '\t',
    ensures
        readable(text) == text,
    decreases text.len(),
{
    if text.len() > 0 {
        let rest = text.skip(1);
        assert forall|i: int| 0 <= i < rest.len() implies (#[trigger] rest[i]) >= ' '
            || rest[i] == '\n' || rest[i] == '\r' || rest[i] == '\t' by {
            assert(rest[i] == text[i + 1]);
        }
        ordinary_text_is_readable(rest);
        assert(seq![text[0]] + rest =~= text);
    }
}

/// A request that passed fits, and is completed with at least one token.
pub proof fn completions_are_never_empty(body: Seq<char>)
    ensures
        1 <= max_tokens_of(body) <= 4096,
{
}

} // verus!
