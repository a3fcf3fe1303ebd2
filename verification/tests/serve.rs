use bigtea_arch::chat::Message;
use bigtea_arch::serve::{
    check_request, complete, completion_json, error_json, escape, extract_int, extract_messages,
    handle, max_tokens, read_json_string, response, route, RequestHead, Route,
};

#[test]
fn a_normal_chat_request_yields_its_messages_with_roles() {
    let body = r#"{"model":"x","messages":[{"role":"system","content":"Be brief."},
                      {"role":"user","content":"Hello"}],"max_tokens":16}"#;
    let msgs = extract_messages(body).unwrap();
    assert_eq!(msgs.len(), 2);
    assert_eq!(msgs[0], Message::new("system", "Be brief."));
    assert_eq!(msgs[1], Message::new("user", "Hello"));
    assert_eq!(extract_int(body, "max_tokens"), Some(16));
}

#[test]
fn escapes_survive_the_round_trip() {
    let body = r#"{"messages":[{"role":"user","content":"say \"hi\"\nand a tab\there"}]}"#;
    let got = extract_messages(body).unwrap().remove(0).content;
    assert_eq!(got, "say \"hi\"\nand a tab\there");
    let e = escape(&got);
    assert!(
        !e.contains('\n'),
        "raw newline would break the response body"
    );
    assert!(e.contains("\\\""), "quotes must be escaped: {e}");
}

#[test]
fn unsupported_content_is_refused_not_guessed() {
    let body = r#"{"messages":[{"role":"user","content":[{"type":"text","text":"hi"}]}]}"#;
    assert!(extract_messages(body).is_err());
}

#[test]
fn a_request_without_content_is_an_error() {
    assert!(extract_messages(r#"{"model":"x"}"#).is_err());
}

#[test]
fn missing_max_tokens_is_absent_rather_than_zero() {
    assert_eq!(extract_int(r#"{"messages":[]}"#, "max_tokens"), None);
}

#[test]
fn control_characters_cannot_break_the_response() {
    let e = escape("a\u{1}b");
    assert!(e.contains("\\u0001"), "{e}");
}

#[test]
fn each_refusal_has_its_words() {
    let e = extract_messages(r#"{"content": 3}"#).unwrap_err();
    assert_eq!(e, "only string `content` is supported");
    let e = extract_messages(r#"{"content": "open"#).unwrap_err();
    assert_eq!(e, "unterminated string in request body");
    let e = extract_messages(r#"{"role": "open"#).unwrap_err();
    assert_eq!(e, "no `messages[].content` in the request body");
    let e = extract_messages("{\"role\": \"open, \"content\": ").unwrap_err();
    assert_eq!(e, "only string `content` is supported");
    let e = extract_messages("{\"role\": \"x\\").unwrap_err();
    assert_eq!(e, "no `messages[].content` in the request body");
}

#[test]
fn an_escaped_string_reads_back() {
    for text in ["", "plain", "a\"b\\c", "line\nline\r\ttab", "h\u{e9}llo \u{1f600}"] {
        let body = format!("{{\"content\":\"{}\"}}", escape(text));
        let got = extract_messages(&body).unwrap();
        assert_eq!(got, vec![Message::new("user", text)]);
    }
    let dropped = extract_messages(&format!("{{\"content\":\"{}\"}}", escape("a\u{1}b\u{1f}c")));
    assert_eq!(dropped.unwrap()[0].content, "abc");
}

#[test]
fn a_content_without_a_role_is_the_users() {
    let body = r#"{"messages":[{"role":"assistant","content":"a"},{"content":"b"}]}"#;
    let got = extract_messages(body).unwrap();
    assert_eq!(got[0], Message::new("assistant", "a"));
    assert_eq!(got[1], Message::new("user", "b"));
}

#[test]
fn numbers_are_read_behind_their_key() {
    assert_eq!(extract_int(r#"{"n" :  42}"#, "n"), Some(42));
    assert_eq!(extract_int(r#"{"n": -1}"#, "n"), None);
    assert_eq!(extract_int(r#"{"n": 99999999999999999999}"#, "n"), None);
    assert_eq!(extract_int(r#"{"n""#, "n"), None);
    assert_eq!(max_tokens("{}"), 64);
    assert_eq!(max_tokens(r#"{"max_tokens": 0}"#), 1);
    assert_eq!(max_tokens(r#"{"max_tokens": 5000}"#), 4096);
    assert_eq!(max_tokens(r#"{"max_tokens": 7}"#), 7);
}

#[test]
fn a_request_line_and_its_headers() {
    let mut head = RequestHead::from_line("POST /v1/chat/completions HTTP/1.1\r\n");
    assert_eq!(head.method, "POST");
    assert_eq!(head.target, "/v1/chat/completions");
    assert!(head.header("Host: localhost\r\n"));
    assert!(head.header("Content-Length:  12 \r\n"));
    assert_eq!(head.content_length, 12);
    assert!(head.header("content-length: nonsense\r\n"));
    assert_eq!(head.content_length, 0);
    assert!(head.header("content-length:5\r\n"));
    assert!(!head.header("\r\n"));
    assert_eq!(head.content_length, 5);
    assert_eq!(route(&head), Route::Complete);
    let empty = RequestHead::from_line("\r\n");
    assert_eq!((empty.method.as_str(), empty.target.as_str()), ("", ""));
    assert_eq!(route(&empty), Route::Unknown);
}

#[test]
fn routes_and_answers() {
    let at = |line: &str| route(&RequestHead::from_line(line));
    assert_eq!(at("GET / HTTP/1.1"), Route::Health);
    assert_eq!(at("GET /health HTTP/1.1"), Route::Health);
    assert_eq!(at("GET /v1/models HTTP/1.1"), Route::Models);
    assert_eq!(at("GET /v1/chat/completions HTTP/1.1"), Route::Unknown);

    let (status, body) = handle(Route::Health, Err("unused"));
    assert_eq!(status, 200);
    assert_eq!(
        body,
        r#"{"status":"ok","architecture":"deepseek4","context_limit":256}"#
    );
    let (status, body) = handle(Route::Models, Err("unused"));
    assert_eq!(status, 200);
    assert_eq!(
        body,
        r#"{"object":"list","data":[{"id":"deepseek-v4-flash","object":"model","owned_by":"bigtea"}]}"#
    );
    assert_eq!(handle(Route::Complete, Ok("{}")), (200, "{}".to_string()));
    let (status, body) = handle(Route::Complete, Err("empty \"prompt\""));
    assert_eq!(status, 400);
    assert_eq!(
        body,
        r#"{"error":{"message":"empty \"prompt\"","type":"invalid_request_error"}}"#
    );
    let (status, body) = handle(Route::Unknown, Ok("{}"));
    assert_eq!(status, 404);
    assert_eq!(body, error_json("no such endpoint"));
}

#[test]
fn a_response_counts_bytes_not_characters() {
    let text = response(200, "h\u{e9}");
    assert_eq!(
        text,
        "HTTP/1.1 200 OK\r\nContent-Type: application/json\r\nContent-Length: 3\r\n\
         Access-Control-Allow-Origin: *\r\nConnection: close\r\n\r\nh\u{e9}"
    );
    assert!(response(400, "").starts_with("HTTP/1.1 400 Bad Request\r\n"));
    assert!(response(404, "").starts_with("HTTP/1.1 404 Not Found\r\n"));
}

#[test]
fn a_request_that_does_not_fit_is_refused_first() {
    assert_eq!(check_request(0, 1), Err("empty prompt".to_string()));
    assert_eq!(check_request(192, 64), Ok(()));
    assert_eq!(
        check_request(193, 64),
        Err("prompt is 193 tokens and max_tokens is 64; this path holds 256 in total".to_string())
    );
    assert!(check_request(usize::MAX, 4096).is_err());
}

#[test]
fn a_completion_is_read_and_answered() {
    let request = complete(r#"{"messages":[{"role":"user","content":"hi"}],"max_tokens":3}"#);
    let request = request.unwrap();
    assert_eq!(request.messages, vec![Message::new("user", "hi")]);
    assert_eq!(request.max_tokens, 3);
    assert!(complete("{}").is_err());
    assert_eq!(
        completion_json("a\n", 5, 2),
        "{\"id\":\"bigtea\",\"object\":\"chat.completion\",\"model\":\"deepseek-v4-flash\",\"choices\":[{\"index\":0,\"message\":{\"role\":\"assistant\",\"content\":\"a\\n\"},\"finish_reason\":\"length\"}],\"usage\":{\"prompt_tokens\":5,\"completion_tokens\":2,\"total_tokens\":7}}"
    );
}

#[test]
fn reading_undoes_escaping() {
    for text in ["", "plain", "say \"hi\"\n\\back\tslash\r", "h\u{e9}\u{4e16}"] {
        let mut chars: Vec<char> = escape(text).chars().collect();
        let n = chars.len();
        let unclosed = read_json_string(&chars, 0);
        assert_eq!(unclosed, Err("unterminated string in request body".to_string()));
        chars.extend("\", \"more\"".chars());
        assert_eq!(read_json_string(&chars, 0), Ok((text.to_string(), n + 1)));
    }
    let cut: Vec<char> = "x\\u00".chars().collect();
    assert!(read_json_string(&cut, 0).is_err());
}
