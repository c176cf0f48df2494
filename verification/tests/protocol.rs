//! The wire format, tested without a model or a socket.

use llm_worker::engine::{Float32, Stop};
use llm_worker::protocol::{
    error_body, error_frame, finish_reason, ChatMessage, ChatRequest, ChatTemplateKwargs, Content,
    ContentPart, RequestDefaults, RequestError, ResponseWriter, StreamOptions, Usage,
    DEFAULT_MODEL, JSON_CONTENT_TYPE, SENTINEL, SSE_CONTENT_TYPE,
};
use serde_json::Value;

fn text(value: &Value) -> Option<String> {
    value.as_str().map(str::to_string)
}

fn float(value: &Value) -> Option<Float32> {
    value.as_f64().map(|number| Float32 { bits: (number as f32).to_bits() })
}

fn integer(value: &Value) -> Option<i32> {
    value.as_i64().map(|number| number as i32)
}

fn content(value: &Value) -> Option<Content> {
    if let Some(parts) = value.as_array() {
        let parts = parts
            .iter()
            .map(|part| ContentPart {
                kind: text(&part["type"]).expect("a part has a type"),
                text: text(&part["text"]),
            })
            .collect();
        return Some(Content::Parts(parts));
    }
    text(value).map(Content::Text)
}

/// A request body as the library's request, or what is wrong with it.
fn decode(body: &[u8]) -> Result<ChatRequest, String> {
    let value: Value = serde_json::from_slice(body).map_err(|error| error.to_string())?;
    let messages = value["messages"].as_array().ok_or("missing field `messages`")?;
    Ok(ChatRequest {
        model: text(&value["model"]),
        messages: messages
            .iter()
            .map(|message| ChatMessage {
                role: text(&message["role"]).expect("a message has a role"),
                content: content(&message["content"]),
            })
            .collect(),
        stream: value["stream"].as_bool().unwrap_or(false),
        stream_options: value["stream_options"].as_object().map(|options| StreamOptions {
            include_usage: options
                .get("include_usage")
                .and_then(Value::as_bool)
                .unwrap_or(false),
        }),
        max_tokens: integer(&value["max_tokens"]),
        max_completion_tokens: integer(&value["max_completion_tokens"]),
        temperature: float(&value["temperature"]),
        top_p: float(&value["top_p"]),
        seed: value["seed"].as_u64().map(|seed| seed as u32),
        think: value["think"].as_bool(),
        chat_template_kwargs: value["chat_template_kwargs"].as_object().map(|kwargs| {
            ChatTemplateKwargs {
                enable_thinking: kwargs.get("enable_thinking").and_then(Value::as_bool),
            }
        }),
    })
}

fn try_parse(body: &[u8]) -> Result<ChatRequest, RequestError> {
    ChatRequest::parse(decode(body))
}

fn parse(json: &str) -> ChatRequest {
    try_parse(json.as_bytes()).expect("request should parse")
}

fn float32(number: f32) -> Float32 {
    Float32 { bits: number.to_bits() }
}

/// Every SSE frame in `body`, with the `data: ` prefix stripped.
fn frames(body: &str) -> Vec<&str> {
    body.split("\n\n")
        .filter(|frame| !frame.is_empty())
        .map(|frame| frame.strip_prefix("data: ").expect("frame is an SSE data line"))
        .collect()
}

#[test]
fn reads_a_plain_request() {
    let request = parse(
        r#"{"model":"qwen","messages":[{"role":"user","content":"hi"}],"stream":true}"#,
    );
    assert_eq!(request.model_name(), "qwen");
    assert!(request.stream);

    let generate = request.to_generate_request(RequestDefaults::default());
    assert_eq!(generate.messages.len(), 1);
    assert_eq!(generate.messages[0].role, "user");
    assert_eq!(generate.messages[0].content, "hi");
}

/// Content is a string in the older form of the API and a list of parts in the
/// current one. Both arrive from real clients.
#[test]
fn reads_both_content_shapes() {
    let request = parse(
        r#"{"messages":[
            {"role":"system","content":"be brief"},
            {"role":"user","content":[{"type":"text","text":"one "},{"type":"image_url"},{"type":"text","text":"two"}]}
        ]}"#,
    );
    let generate = request.to_generate_request(RequestDefaults::default());
    assert_eq!(generate.messages[0].content, "be brief");
    assert_eq!(generate.messages[1].content, "one two");
}

#[test]
fn unknown_fields_are_ignored_but_empty_messages_are_not() {
    parse(r#"{"messages":[{"role":"user","content":"hi"}],"presence_penalty":0.5,"user":"someone"}"#);
    assert!(try_parse(br#"{"messages":[]}"#).is_err());
    assert!(try_parse(b"not json").is_err());
}

#[test]
fn sampling_falls_back_to_the_configured_defaults() {
    let defaults = RequestDefaults {
        max_tokens: 64,
        temperature: float32(0.7),
        top_p: float32(0.8),
        seed: 7,
        think: false,
    };
    let generate = parse(r#"{"messages":[{"role":"user","content":"hi"}]}"#)
        .to_generate_request(defaults);
    assert_eq!(generate.max_tokens, 64);
    assert_eq!(f32::from_bits(generate.temperature.bits), 0.7);
    assert_eq!(generate.seed, 7);

    // max_completion_tokens is the current spelling, and wins.
    let generate = parse(
        r#"{"messages":[{"role":"user","content":"hi"}],"max_tokens":10,"max_completion_tokens":20}"#,
    )
    .to_generate_request(defaults);
    assert_eq!(generate.max_tokens, 20);
}

#[test]
fn thinking_is_accepted_under_either_name() {
    let defaults = RequestDefaults::default();
    let ours = parse(r#"{"messages":[{"role":"user","content":"hi"}],"think":true}"#);
    assert!(ours.to_generate_request(defaults).think);

    let theirs = parse(
        r#"{"messages":[{"role":"user","content":"hi"}],"chat_template_kwargs":{"enable_thinking":true}}"#,
    );
    assert!(theirs.to_generate_request(defaults).think);
}

#[test]
fn a_stream_opens_with_a_role_and_ends_with_a_sentinel() {
    let writer = ResponseWriter::new("chatcmpl-1", "qwen");
    let body = format!(
        "{}{}{}",
        writer.stream_open(),
        writer.stream_token("Hi"),
        writer.stream_close(Stop::EndOfGeneration, None)
    );
    let frames = frames(&body);
    assert_eq!(frames.len(), 4);
    assert_eq!(frames[3], "[DONE]");

    let open: serde_json::Value = serde_json::from_str(frames[0]).unwrap();
    assert_eq!(open["object"], "chat.completion.chunk");
    assert_eq!(open["choices"][0]["delta"]["role"], "assistant");
    assert!(open["choices"][0]["delta"]["content"].is_null());

    let token: serde_json::Value = serde_json::from_str(frames[1]).unwrap();
    assert_eq!(token["choices"][0]["delta"]["content"], "Hi");

    let close: serde_json::Value = serde_json::from_str(frames[2]).unwrap();
    assert_eq!(close["choices"][0]["finish_reason"], "stop");
    assert!(close["usage"].is_null(), "usage is only sent when asked for");
}

#[test]
fn the_token_limit_is_reported_as_length() {
    let writer = ResponseWriter::new("chatcmpl-2", "qwen");
    let body = writer.stream_close(Stop::Limit, Some(Usage::new(5, 8)));
    let close: serde_json::Value = serde_json::from_str(frames(&body)[0]).unwrap();
    assert_eq!(close["choices"][0]["finish_reason"], "length");
    assert_eq!(close["usage"]["prompt_tokens"], 5);
    assert_eq!(close["usage"]["completion_tokens"], 8);
    assert_eq!(close["usage"]["total_tokens"], 13);
}

#[test]
fn a_buffered_completion_carries_the_whole_message() {
    let writer = ResponseWriter::new("chatcmpl-3", "qwen");
    let body = writer.completion("Hello.".to_string(), Stop::EndOfGeneration, Usage::new(4, 2));
    let completion: serde_json::Value = serde_json::from_str(&body).unwrap();
    assert_eq!(completion["object"], "chat.completion");
    assert_eq!(completion["id"], "chatcmpl-3");
    assert_eq!(completion["choices"][0]["message"]["role"], "assistant");
    assert_eq!(completion["choices"][0]["message"]["content"], "Hello.");
    assert_eq!(completion["choices"][0]["finish_reason"], "stop");
    assert_eq!(completion["usage"]["total_tokens"], 6);
}

#[test]
fn a_body_that_is_no_request_says_why() {
    let error = try_parse(br#"{"messages":[]}"#).unwrap_err();
    assert!(matches!(error, RequestError::NoMessages));
    assert_eq!(error.message(), "messages must not be empty");

    let error = try_parse(b"not json").unwrap_err();
    assert!(matches!(error, RequestError::Malformed(_)));
    assert_eq!(error.message(), decode(b"not json").unwrap_err());
}

#[test]
fn a_request_without_a_model_gets_the_one_that_is_served() {
    let request = parse(r#"{"messages":[{"role":"user","content":"hi"}]}"#);
    assert_eq!(request.model_name(), "llm");
    assert_eq!(request.model_name(), DEFAULT_MODEL);
    assert_eq!(request.model_name_or("qwen"), "qwen");

    let request = parse(r#"{"model":"other","messages":[{"role":"user","content":"hi"}]}"#);
    assert_eq!(request.model_name_or("qwen"), "other");
}

#[test]
fn usage_is_reported_only_when_asked_for() {
    let quiet = parse(r#"{"messages":[{"role":"user","content":"hi"}]}"#);
    assert!(!quiet.include_usage());
    let refused = parse(
        r#"{"messages":[{"role":"user","content":"hi"}],"stream_options":{"include_usage":false}}"#,
    );
    assert!(!refused.include_usage());
    let asked = parse(
        r#"{"messages":[{"role":"user","content":"hi"}],"stream_options":{"include_usage":true}}"#,
    );
    assert!(asked.include_usage());
}

#[test]
fn defaults_are_those_of_an_empty_request() {
    let defaults = RequestDefaults::default();
    assert_eq!(defaults.max_tokens, 128);
    assert_eq!(f32::from_bits(defaults.temperature.bits), 0.0);
    assert_eq!(f32::from_bits(defaults.top_p.bits), 0.9);
    assert_eq!(defaults.seed, 42);
    assert!(!defaults.think);
}

#[test]
fn what_a_request_names_wins_over_the_defaults() {
    let request = parse(
        r#"{"messages":[{"role":"user"}],"max_tokens":10,"temperature":0.5,"top_p":0.25,"seed":9,
            "think":false,"chat_template_kwargs":{"enable_thinking":true}}"#,
    );
    let mut defaults = RequestDefaults::default();
    defaults.think = true;
    let generate = request.to_generate_request(defaults);
    assert_eq!(generate.messages[0].content, "");
    assert_eq!(generate.max_tokens, 10);
    assert_eq!(f32::from_bits(generate.temperature.bits), 0.5);
    assert_eq!(f32::from_bits(generate.top_p.bits), 0.25);
    assert_eq!(generate.seed, 9);
    // Our own name for it is asked first.
    assert!(!generate.think);
}

#[test]
fn parts_that_are_no_text_are_dropped() {
    let part = |kind: &str, text: Option<&str>| ContentPart {
        kind: kind.to_string(),
        text: text.map(str::to_string),
    };
    let content = Content::Parts(vec![
        part("text", Some("a")),
        part("text", None),
        part("image_url", Some("b")),
        part("texts", Some("c")),
        part("text", Some("d")),
    ]);
    assert_eq!(content.text(), "ad");
    assert_eq!(Content::Parts(Vec::new()).text(), "");
    assert_eq!(Content::Text("whole".to_string()).text(), "whole");
}

#[test]
fn every_stop_has_a_spelling() {
    assert_eq!(finish_reason(Stop::EndOfGeneration), "stop");
    assert_eq!(finish_reason(Stop::Limit), "length");
    assert_eq!(finish_reason(Stop::ContextFull), "length");
    assert_eq!(finish_reason(Stop::Cancelled), "stop");
}

#[test]
fn chunks_are_written_to_the_letter() {
    let writer = ResponseWriter::at("chatcmpl-4", "qwen", 1700000000);
    assert_eq!(writer.id(), "chatcmpl-4");
    assert_eq!(
        writer.stream_open(),
        "data: {\"id\":\"chatcmpl-4\",\"object\":\"chat.completion.chunk\",\"created\":1700000000,\
         \"model\":\"qwen\",\"choices\":[{\"index\":0,\"delta\":{\"role\":\"assistant\"},\
         \"finish_reason\":null}]}\n\n"
    );
    assert_eq!(
        writer.stream_token("a\"b"),
        "data: {\"id\":\"chatcmpl-4\",\"object\":\"chat.completion.chunk\",\"created\":1700000000,\
         \"model\":\"qwen\",\"choices\":[{\"index\":0,\"delta\":{\"content\":\"a\\\"b\"},\
         \"finish_reason\":null}]}\n\n"
    );
    assert_eq!(
        writer.stream_close(Stop::Limit, Some(Usage::new(1, 2))),
        "data: {\"id\":\"chatcmpl-4\",\"object\":\"chat.completion.chunk\",\"created\":1700000000,\
         \"model\":\"qwen\",\"choices\":[{\"index\":0,\"delta\":{},\"finish_reason\":\"length\"}],\
         \"usage\":{\"prompt_tokens\":1,\"completion_tokens\":2,\"total_tokens\":3}}\n\n\
         data: [DONE]\n\n"
    );
    assert_eq!(
        writer.completion("x".to_string(), Stop::Cancelled, Usage::new(0, 0)),
        "{\"id\":\"chatcmpl-4\",\"object\":\"chat.completion\",\"created\":1700000000,\
         \"model\":\"qwen\",\"choices\":[{\"index\":0,\"message\":{\"role\":\"assistant\",\
         \"content\":\"x\"},\"finish_reason\":\"stop\"}],\"usage\":{\"prompt_tokens\":0,\
         \"completion_tokens\":0,\"total_tokens\":0}}"
    );
}

#[test]
fn a_response_is_dated_by_the_clock() {
    let frame = ResponseWriter::new("chatcmpl-5", "qwen").stream_open();
    let open: Value = serde_json::from_str(frames(&frame)[0]).unwrap();
    let now = std::time::SystemTime::now()
        .duration_since(std::time::UNIX_EPOCH)
        .unwrap()
        .as_secs();
    let created = open["created"].as_u64().unwrap();
    assert!(created <= now && now - created < 60);
}

/// Every piece comes back out of its frame, whatever it holds.
#[test]
fn pieces_survive_their_frames() {
    let writer = ResponseWriter::at("chatcmpl-6", "qwen", 1);
    let mut everything = String::new();
    for code in 0..0x180u32 {
        everything.push(char::from_u32(code).unwrap());
    }
    for piece in ["", "plain", "\n\n", "data: x\n\ndata: y", "\"\\/", "\u{1f600}\u{2028}", &everything]
    {
        let frame = writer.stream_token(piece);
        let found = frames(&frame);
        assert_eq!(found.len(), 1, "a piece broke its frame: {piece:?}");
        let token: Value = serde_json::from_str(found[0]).unwrap();
        assert_eq!(token["choices"][0]["delta"]["content"], piece);
        assert!(frame.contains(&serde_json::to_string(piece).unwrap()));
    }
    assert_ne!(writer.stream_token("a"), writer.stream_token("b"));
}

#[test]
fn errors_are_written_to_the_letter() {
    assert_eq!(
        error_body("no \"room\"", "overloaded_error"),
        "{\"error\":{\"code\":null,\"message\":\"no \\\"room\\\"\",\"param\":null,\
         \"type\":\"overloaded_error\"}}"
    );
    let error: Value = serde_json::from_str(&error_body("m", "k")).unwrap();
    assert_eq!(error["error"]["message"], "m");
    assert_eq!(error["error"]["type"], "k");
    assert!(error["error"]["param"].is_null());
    assert!(error["error"]["code"].is_null());
    assert_eq!(error.to_string(), error_body("m", "k"));

    let frame = error_frame("broken");
    let found = frames(&frame);
    assert_eq!(found.len(), 2);
    assert_eq!(found[0], error_body("broken", "server_error"));
    assert_eq!(found[1], "[DONE]");
    assert!(frame.ends_with(SENTINEL));
}

#[test]
fn the_content_types_are_fixed() {
    assert_eq!(SSE_CONTENT_TYPE, "text/event-stream; charset=utf-8");
    assert_eq!(JSON_CONTENT_TYPE, "application/json");
}
