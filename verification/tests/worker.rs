//! One job from its lane to its response.

use std::time::{Duration, UNIX_EPOCH};

use bytes::Bytes;
use llm_worker::clock::{millis_at, seconds_at};
use llm_worker::console::{conversation, Tally};
use llm_worker::engine::{Capacity, Event, Float32, ModelInfo, Stop, SubmitError};
use llm_worker::ingress;
use llm_worker::ingress::{is_chat_path, route, Route, CHAT_COMPLETIONS_PATH};
use llm_worker::protocol::{
    error_frame, ChatMessage, ChatRequest, Content, RequestError, ResponseWriter, StreamOptions,
    Usage,
};
use llm_worker::worker::{
    claim_body, claim_head, completion_id, error_kind, refuse, reject, worker_id, Action, BodyRead,
    CompletionIds, Exchange, Job, JobTask, ReadError, RequestBody, SourceFrame, Status,
    WorkerConfig,
};
use serde_json::Value;

fn request(stream: bool, usage: bool) -> ChatRequest {
    ChatRequest {
        model: None,
        messages: vec![ChatMessage {
            role: "user".to_string(),
            content: Some(Content::Text("hi".to_string())),
        }],
        stream,
        stream_options: Some(StreamOptions { include_usage: usage }),
        max_tokens: None,
        max_completion_tokens: None,
        temperature: None,
        top_p: None,
        seed: None,
        think: None,
        chat_template_kwargs: None,
    }
}

fn token(piece: &str) -> Option<Event> {
    Some(Event::Token(piece.to_string()))
}

fn done() -> Option<Event> {
    Some(Event::Done { stop: Stop::EndOfGeneration, prompt_tokens: 4, tokens: 2, elapsed_ms: 9 })
}

/// The status, content type and body of a response that is whole.
fn response(actions: &[Action]) -> (u16, &'static str, String) {
    let (Action::Start(head), Some(Action::Finish)) = (&actions[0], actions.last()) else {
        panic!("not a response: {actions:?}");
    };
    assert_eq!(head.cache_control, "no-store");
    let body = actions[1..actions.len() - 1]
        .iter()
        .map(|action| match action {
            Action::Body(text) => text.as_str(),
            other => panic!("expected a body, got {other:?}"),
        })
        .collect();
    (head.status.code(), head.content_type, body)
}

fn error_of(body: &str) -> (String, String) {
    let value: Value = serde_json::from_str(body).unwrap();
    (
        value["error"]["message"].as_str().unwrap().to_string(),
        value["error"]["type"].as_str().unwrap().to_string(),
    )
}

#[test]
fn a_stream_is_answered_piece_by_piece() {
    let writer = ResponseWriter::at("chatcmpl-1", "qwen", 1);
    let same = ResponseWriter::at("chatcmpl-1", "qwen", 1);
    let mut exchange = Exchange::new(writer, true, true);
    let mut actions = exchange.open();
    for event in [token("Hi"), token(" you")] {
        let turn = exchange.turn(event);
        assert!(turn.outcome.is_none());
        actions.extend(turn.actions);
    }
    let turn = exchange.turn(done());
    assert_eq!(turn.outcome, Some(Ok(())));
    actions.extend(turn.actions);

    let (code, content_type, body) = response(&actions);
    assert_eq!(code, 200);
    assert_eq!(content_type, "text/event-stream; charset=utf-8");
    assert_eq!(
        body,
        format!(
            "{}{}{}{}",
            same.stream_open(),
            same.stream_token("Hi"),
            same.stream_token(" you"),
            same.stream_close(Stop::EndOfGeneration, Some(Usage::new(4, 2)))
        )
    );
}

#[test]
fn usage_stays_out_of_a_stream_that_did_not_ask() {
    let mut exchange = Exchange::new(ResponseWriter::at("c", "m", 1), true, false);
    let turn = exchange.turn(done());
    let Action::Body(body) = &turn.actions[0] else { panic!("expected a body") };
    assert!(!body.contains("usage"));
}

#[test]
fn a_buffered_answer_comes_in_one_body() {
    let mut config = WorkerConfig::new("w");
    config.model_name = "qwen".to_string();
    let mut exchange = Exchange::begin("chatcmpl-2", &request(false, true), &config);
    assert!(exchange.open().is_empty());
    for event in [token("Hel"), token(""), token("lo.")] {
        let turn = exchange.turn(event);
        assert!(turn.actions.is_empty() && turn.outcome.is_none());
    }
    let turn = exchange.turn(done());
    assert_eq!(turn.outcome, Some(Ok(())));
    let (code, content_type, body) = response(&turn.actions);
    assert_eq!((code, content_type), (200, "application/json"));
    let completion: Value = serde_json::from_str(&body).unwrap();
    assert_eq!(completion["id"], "chatcmpl-2");
    assert_eq!(completion["model"], "qwen");
    assert_eq!(completion["choices"][0]["message"]["content"], "Hello.");
    assert_eq!(completion["usage"]["total_tokens"], 6);
}

#[test]
fn a_request_may_name_its_own_model() {
    let mut named = request(false, false);
    named.model = Some("mine".to_string());
    let mut exchange = Exchange::begin("c", &named, &WorkerConfig::new("w"));
    let (_, _, body) = response(&exchange.turn(done()).actions);
    let completion: Value = serde_json::from_str(&body).unwrap();
    assert_eq!(completion["model"], "mine");
}

#[test]
fn a_failure_is_reported_to_the_client() {
    let failed = || Some(Event::Failed("out of luck".to_string()));
    let mut exchange = Exchange::begin("c", &request(true, false), &WorkerConfig::new("w"));
    let mut actions = exchange.open();
    let turn = exchange.turn(failed());
    assert_eq!(turn.outcome, Some(Err("out of luck".to_string())));
    actions.extend(turn.actions);
    let (code, _, body) = response(&actions);
    assert_eq!(code, 200);
    assert!(body.ends_with("data: [DONE]\n\n"));
    assert!(body.contains("out of luck"));

    let mut exchange = Exchange::begin("c", &request(false, false), &WorkerConfig::new("w"));
    exchange.turn(token("half"));
    let turn = exchange.turn(failed());
    assert_eq!(turn.outcome, Some(Err("out of luck".to_string())));
    let (code, content_type, body) = response(&turn.actions);
    assert_eq!((code, content_type), (500, "application/json"));
    assert_eq!(error_of(&body), ("out of luck".to_string(), "server_error".to_string()));
}

/// A caller waiting on a response deserves an answer, whatever became of the
/// engine.
#[test]
fn an_engine_that_vanishes_is_reported_to_the_client() {
    let vanished = "engine closed the stream without finishing";
    let mut exchange = Exchange::begin("c", &request(true, false), &WorkerConfig::new("w"));
    let mut actions = exchange.open();
    actions.extend(exchange.turn(token("half")).actions);
    let turn = exchange.turn(None);
    assert_eq!(turn.outcome, Some(Err(vanished.to_string())));
    actions.extend(turn.actions);
    let (code, _, body) = response(&actions);
    assert_eq!(code, 200);
    assert!(body.ends_with(&error_frame(vanished)));

    let mut exchange = Exchange::begin("c", &request(false, false), &WorkerConfig::new("w"));
    let turn = exchange.turn(None);
    assert_eq!(turn.outcome, Some(Err(vanished.to_string())));
    let (code, content_type, body) = response(&turn.actions);
    assert_eq!((code, content_type), (500, "application/json"));
    assert_eq!(error_of(&body), (vanished.to_string(), "server_error".to_string()));
}

#[test]
fn requests_that_cannot_be_read_are_rejected() {
    let cases = [
        (ReadError::Lane("lane gone".to_string()), "lane gone"),
        (ReadError::HeadersMissing, "request headers were missing"),
        (
            ReadError::TimedOut { timeout_ms: 30_000 },
            "request body did not finish within 30000ms",
        ),
        (ReadError::Request(RequestError::NoMessages), "messages must not be empty"),
        (ReadError::Request(RequestError::Malformed("expected value".to_string())), "expected value"),
    ];
    for (error, message) in cases {
        let actions = reject(&error);
        let (code, content_type, body) = response(&actions);
        assert_eq!((code, content_type), (400, "application/json"));
        assert_eq!(error_of(&body), (message.to_string(), "invalid_request_error".to_string()));
    }
}

#[test]
fn requests_without_room_are_refused() {
    for error in [SubmitError::QueueFull, SubmitError::ShutDown] {
        let actions = refuse(&error);
        let (code, _, body) = response(&actions);
        assert_eq!(code, 503);
        assert_eq!(error_of(&body), (error.message().to_string(), "overloaded_error".to_string()));
    }
}

#[test]
fn statuses_have_codes_and_kinds() {
    let all = [
        (Status::Success, 200, "server_error"),
        (Status::BadRequest, 400, "invalid_request_error"),
        (Status::InternalServerError, 500, "server_error"),
        (Status::ServiceUnavailable, 503, "overloaded_error"),
    ];
    for (status, code, kind) in all {
        assert_eq!(status.code(), code);
        assert_eq!(error_kind(status), kind);
    }
}

#[test]
fn a_body_is_read_up_to_its_end() {
    let frames = [
        SourceFrame::Other,
        SourceFrame::Body(Bytes::from_static(b"{\"mes")),
        SourceFrame::Body(Bytes::new()),
        SourceFrame::Other,
        SourceFrame::Body(Bytes::from_static(b"sages\":[]}")),
        SourceFrame::End,
        SourceFrame::Body(Bytes::from_static(b"ignored")),
    ];
    let mut body = RequestBody::new();
    for frame in &frames {
        if !body.push(frame) {
            break;
        }
    }
    assert_eq!(&body.finish()[..], b"{\"messages\":[]}");
    assert!(RequestBody::new().finish().is_empty());
}

#[test]
fn a_job_is_claimed_head_first() {
    assert!(claim_head(Ok(true)).is_ok());
    assert!(matches!(claim_head(Ok(false)), Err(ReadError::HeadersMissing)));
    assert!(matches!(claim_head(Err("x".to_string())), Err(ReadError::Lane(error)) if error == "x"));

    let body = claim_body(BodyRead::Complete(Bytes::from_static(b"b")), 5).unwrap();
    assert_eq!(&body[..], b"b");
    assert!(matches!(
        claim_body(BodyRead::TimedOut, 5),
        Err(ReadError::TimedOut { timeout_ms: 5 })
    ));
    assert!(matches!(
        claim_body(BodyRead::Failed("y".to_string()), 5),
        Err(ReadError::Lane(error)) if error == "y"
    ));
}

#[test]
fn completion_ids_are_hexadecimal() {
    assert_eq!(completion_id(0x18bcfe5, 0), "chatcmpl-000000000000000018bcfe5");
    assert_eq!(completion_id(0, 0xabc), "chatcmpl-0000000000000abc0");
    assert_eq!(completion_id(u64::MAX, u64::MAX), format!("chatcmpl-{}", "f".repeat(32)));
}

/// Unique within a process and ordered, whatever the clock reads.
#[test]
fn completion_ids_sort_as_they_come() {
    let ids: Vec<String> = [
        (0x12, 0),
        (0x1, 1),
        (u64::MAX, 2),
        (0, 0x3456),
        (0x12, 0xffff),
        (0x1, 0x10000),
        (0x1, 0x23456),
        (0, u64::MAX),
    ]
    .into_iter()
    .map(|(started, sequence)| completion_id(started, sequence))
    .collect();
    for pair in ids.windows(2) {
        assert!(pair[0] < pair[1], "{} {}", pair[0], pair[1]);
    }
    assert_ne!(completion_id(0x12, 0x3456), completion_id(0x1, 0x23456));
}

#[test]
fn a_completion_id_ends_with_the_clock() {
    let before = UNIX_EPOCH.elapsed().unwrap().as_millis() as u64;
    let mut ids = CompletionIds::new();
    ids.next_completion_id();
    let id = ids.next_completion_id();
    let digits = id.strip_prefix("chatcmpl-0000000000000001").expect("the number comes first");
    let started = u64::from_str_radix(digits, 16).unwrap();
    assert!(started >= before && started < before + 60_000);
}

#[test]
fn every_id_sorts_after_the_earlier_ones() {
    let mut ids = CompletionIds::new();
    assert_eq!(ids.issued(), 0);
    let given: Vec<String> = (0..300).map(|_| ids.next_completion_id()).collect();
    assert_eq!(ids.issued(), 300);
    for (i, id) in given.iter().enumerate() {
        assert!(id.starts_with("chatcmpl-"));
        assert!(given[..i].iter().all(|earlier| earlier < id));
    }
}

#[test]
fn the_clock_is_read_in_whole_units() {
    let later = UNIX_EPOCH + Duration::new(1_700_000_001, 999_999_999);
    assert_eq!(seconds_at(later), 1_700_000_001);
    assert_eq!(millis_at(later), 1_700_000_001_999);
    assert_eq!((seconds_at(UNIX_EPOCH), millis_at(UNIX_EPOCH)), (0, 0));
    let before = UNIX_EPOCH - Duration::from_secs(90);
    assert_eq!((seconds_at(before), millis_at(before)), (0, 0));
}

#[test]
fn workers_are_set_up() {
    let config = WorkerConfig::new("llm-7");
    assert_eq!(config.worker_id, "llm-7");
    assert_eq!(config.max_inflight, 1);
    assert_eq!(config.poll_interval, 50);
    assert_eq!(config.heartbeat_interval, 1_000);
    assert_eq!(config.discovery_interval, 5_000);
    assert_eq!(config.request_timeout, 30_000);
    assert_eq!(config.model_name, "llm");
    assert_eq!(config.defaults.max_tokens, 128);
    assert_eq!(config.defaults.temperature, Float32 { bits: 0 });

    assert_eq!(worker_id(Some("gpu-a".to_string()), 12), "gpu-a");
    assert_eq!(worker_id(None, 4711), "llm-4711");
}

#[test]
fn intervals_are_at_least_a_millisecond() {
    let mut config = WorkerConfig::new("w");
    config.poll_interval = 0;
    config.discovery_interval = 0;
    config.request_timeout = 0;
    let config = config.clamped();
    assert_eq!(config.poll_interval, 1);
    assert_eq!(config.heartbeat_interval, 1_000);
    assert_eq!(config.discovery_interval, 1);
    assert_eq!(config.request_timeout, 1);
}

#[test]
fn a_worker_needs_somewhere_to_attach() {
    let mut config = WorkerConfig::new("w");
    let error = config.require_ingress().unwrap_err();
    assert_eq!(
        error.message(),
        "nothing to attach to: pass --ingress-url or --discovery-dns"
    );
    config.discovery_dns = Some("ring.local".to_string());
    assert!(config.require_ingress().is_ok());
    config.discovery_dns = None;
    config.ingress_urls.push("https://a:8443".to_string());
    assert!(config.require_ingress().is_ok());
}

#[test]
fn requests_are_routed() {
    assert_eq!(route("GET", "/"), Route::Page);
    for path in ["/health", "/healthz"] {
        assert_eq!(route("GET", path), Route::Health);
    }
    for path in ["/", "/health", "/healthz", "/v1/models"] {
        assert_eq!(route("POST", path), Route::NotFound);
    }
    assert_eq!(route("GET", "/v1/models"), Route::Models);
    assert_eq!(route("GET", "/v1/models/"), Route::NotFound);
    assert_eq!(route("get", "/"), Route::NotFound);
    assert!(is_chat_path(CHAT_COMPLETIONS_PATH));
    assert!(is_chat_path("/v1/chat/completions"));
    assert!(!is_chat_path("/v1/chat"));
}

#[test]
fn health_reports_the_engine() {
    let info = ModelInfo {
        path: std::path::PathBuf::from("/m \"x\".gguf"),
        n_params: 752_000_000,
        n_layer: 24,
        n_ctx: 8192,
    };
    let capacity = Capacity { inflight: 3, max_inflight: 4, available_slots: 1, decoding: 2 };
    let shown = info.path.display().to_string();
    let body = ingress::health("llmq-test", &shown, &info, capacity);
    let health: Value = serde_json::from_str(&body).unwrap();
    assert_eq!(health["status"], "ok");
    assert_eq!(health["model"], "llmq-test");
    assert_eq!(health["model_path"], "/m \"x\".gguf");
    assert_eq!(health["n_params"], 752_000_000);
    assert_eq!(health["n_ctx"], 8192);
    assert_eq!(health["inflight"], 3);
    assert_eq!(health["max_inflight"], 4);
    assert_eq!(health["available_slots"], 1);
    assert_eq!(health.to_string(), body);
}

#[test]
fn models_and_missing_pages_are_json() {
    let body = ingress::models("qwen");
    let models: Value = serde_json::from_str(&body).unwrap();
    assert_eq!(models["object"], "list");
    assert_eq!(models["data"][0]["id"], "qwen");
    assert_eq!(models["data"][0]["object"], "model");
    assert_eq!(models["data"][0]["owned_by"], "llm");
    assert_eq!(models.to_string(), body);

    assert_eq!(
        error_of(&ingress::not_found()),
        ("not found".to_string(), "invalid_request_error".to_string())
    );
}

#[test]
fn a_terminal_asks_and_may_cancel() {
    let alone = conversation(None, "Say hi.".to_string());
    assert_eq!(alone.len(), 1);
    assert_eq!((alone[0].role.as_str(), alone[0].content.as_str()), ("user", "Say hi."));
    let both = conversation(Some("Be brief.".to_string()), "Say hi.".to_string());
    assert_eq!(both.len(), 2);
    assert_eq!((both[0].role.as_str(), both[0].content.as_str()), ("system", "Be brief."));
    assert_eq!((both[1].role.as_str(), both[1].content.as_str()), ("user", "Say hi."));

    let mut tally = Tally::new(Some(2));
    assert!(!tally.count());
    assert!(tally.count());
    assert!(!tally.count());
    assert_eq!(tally.seen, 3);
    let mut endless = Tally::new(None);
    assert!(!endless.count());
}

/// A job whose request has been understood.
fn understood(stream: bool, ids: &mut CompletionIds) -> Job {
    let mut job = Job::new();
    assert_eq!(job.task(), JobTask::ReadHead);
    assert!(job.head(Ok(true)).is_empty());
    assert_eq!(job.task(), JobTask::ReadBody);
    let body = Bytes::from_static(b"{}");
    assert_eq!(job.body(BodyRead::Complete(body.clone()), 30_000).unwrap(), body);
    assert_eq!(job.task(), JobTask::Decode);
    assert_eq!(job.id(), None);
    let mut config = WorkerConfig::new("w");
    config.defaults.max_tokens = 77;
    let generate = job.decoded(Ok(request(stream, false)), ids, &config).unwrap();
    assert_eq!(generate.max_tokens, 77);
    assert_eq!(generate.messages[0].content, "hi");
    assert_eq!(job.task(), JobTask::Submit);
    assert_eq!(job.outcome(), None);
    job
}

#[test]
fn a_job_is_read_submitted_and_answered() {
    let mut ids = CompletionIds::new();
    let mut job = understood(true, &mut ids);
    let id = job.id().unwrap();
    assert!(id.starts_with("chatcmpl-0000000000000000"));
    let mut actions = job.submitted(Ok(()));
    assert_eq!(actions.len(), 2);
    assert_eq!(job.task(), JobTask::Receive);
    actions.extend(job.heard(token("Hi")));
    assert_eq!((job.task(), job.outcome()), (JobTask::Receive, None));
    actions.extend(job.heard(done()));
    assert_eq!((job.task(), job.outcome()), (JobTask::Stop, Some(Ok(()))));
    let (code, content_type, body) = response(&actions);
    assert_eq!((code, content_type), (200, "text/event-stream; charset=utf-8"));
    assert_eq!(body.matches(&format!("\"id\":\"{id}\"")).count(), 3);
    assert!(body.ends_with("data: [DONE]\n\n"));

    let next = understood(false, &mut ids).id().unwrap();
    assert!(next > id);
}

#[test]
fn a_buffered_job_writes_once() {
    let mut job = understood(false, &mut CompletionIds::new());
    assert!(job.submitted(Ok(())).is_empty());
    assert!(job.heard(token("Hel")).is_empty());
    assert!(job.heard(token("lo.")).is_empty());
    let (code, _, body) = response(&job.heard(done()));
    assert_eq!(code, 200);
    let completion: Value = serde_json::from_str(&body).unwrap();
    assert_eq!(completion["choices"][0]["message"]["content"], "Hello.");
    assert_eq!(job.outcome(), Some(Ok(())));
}

#[test]
fn a_job_that_cannot_be_read_is_over() {
    let missing = "request headers were missing";
    for (found, message) in [(Ok(false), missing), (Err("lane broke".to_string()), "lane broke")] {
        let mut job = Job::new();
        let (code, _, body) = response(&job.head(found));
        assert_eq!(code, 400);
        assert_eq!(error_of(&body), (message.to_string(), "invalid_request_error".to_string()));
        assert_eq!((job.task(), job.outcome()), (JobTask::Stop, Some(Ok(()))));
    }

    let late = "request body did not finish within 250ms";
    for (read, message) in
        [(BodyRead::TimedOut, late), (BodyRead::Failed("lane broke".to_string()), "lane broke")]
    {
        let mut job = Job::new();
        job.head(Ok(true));
        let (code, _, body) = response(&job.body(read, 250).unwrap_err());
        assert_eq!((code, error_of(&body).0.as_str()), (400, message));
        assert_eq!(job.task(), JobTask::Stop);
    }
}

#[test]
fn a_body_that_is_no_request_gets_no_name() {
    let mut empty = request(true, false);
    empty.messages.clear();
    let none = "messages must not be empty";
    for (decoded, message) in [(Ok(empty), none), (Err("not JSON".to_string()), "not JSON")] {
        let mut ids = CompletionIds::new();
        let mut job = Job::new();
        job.head(Ok(true));
        job.body(BodyRead::Complete(Bytes::new()), 250).unwrap();
        let answer = job.decoded(decoded, &mut ids, &WorkerConfig::new("w")).unwrap_err();
        let (code, _, body) = response(&answer);
        assert_eq!((code, error_of(&body).0.as_str()), (400, message));
        assert_eq!((job.task(), job.id(), ids.issued()), (JobTask::Stop, None, 0));
    }
}

#[test]
fn a_job_that_is_refused_is_over() {
    let mut job = understood(true, &mut CompletionIds::new());
    let (code, _, body) = response(&job.submitted(Err(SubmitError::QueueFull)));
    assert_eq!(code, 503);
    assert_eq!(
        error_of(&body),
        ("engine queue is full".to_string(), "overloaded_error".to_string())
    );
    assert_eq!((job.task(), job.outcome()), (JobTask::Stop, Some(Ok(()))));
}

#[test]
fn a_job_ends_with_the_failure_of_its_generation() {
    let mut job = understood(true, &mut CompletionIds::new());
    let mut actions = job.submitted(Ok(()));
    actions.extend(job.heard(token("Hi")));
    actions.extend(job.heard(Some(Event::Failed("out of memory".to_string()))));
    let (code, _, body) = response(&actions);
    assert_eq!(code, 200);
    assert!(body.contains("out of memory"));
    assert_eq!(job.outcome(), Some(Err("out of memory".to_string())));

    let mut vanished = understood(false, &mut CompletionIds::new());
    vanished.submitted(Ok(()));
    let (code, _, body) = response(&vanished.heard(None));
    assert_eq!(code, 500);
    assert_eq!(error_of(&body).0, "engine closed the stream without finishing");
    assert_eq!(vanished.task(), JobTask::Stop);
}
