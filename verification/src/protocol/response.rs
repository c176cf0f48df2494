//! What a client is answered.

use std::time::SystemTime;

use vstd::prelude::*;

use crate::clock;
use crate::clock::unix_seconds;
use crate::engine::Stop;
use crate::json;
use crate::text;

verus! {

pub const SSE_CONTENT_TYPE: &'static str = "text/event-stream; charset=utf-8";

pub const JSON_CONTENT_TYPE: &'static str = "application/json";

/// The sentinel that ends an SSE stream.
pub const SENTINEL: &'static str = "data: [DONE]\n\n";

/// The text of [`finish_reason`].
pub open spec fn spec_finish_reason(stop: Stop) -> Seq<char> {
    match stop {
        Stop::EndOfGeneration => "stop"@,
        Stop::Limit => "length"@,
        Stop::ContextFull => "length"@,
        Stop::Cancelled => "stop"@,
    }
}

/// How a stop reason renders on the wire. Running out of context cuts an
/// answer short just as running out of tokens does. Cancellation has no OpenAI
/// spelling; the client that cancelled is usually gone, and one that isn't
/// gets the same "stopped early" it would get from a stop sequence.
pub fn finish_reason(stop: Stop) -> (reason: &'static str)
    ensures
        reason@ == spec_finish_reason(stop),
        stop == Stop::Limit || stop == Stop::ContextFull ==> reason@ == "length"@,
        stop == Stop::EndOfGeneration || stop == Stop::Cancelled ==> reason@ == "stop"@,
{
    match stop {
        Stop::EndOfGeneration => "stop",
        Stop::Limit => "length",
        Stop::ContextFull => "length",
        Stop::Cancelled => "stop",
    }
}

#[derive(Debug, Clone, Copy, PartialEq, Eq, Structural)]
pub struct Usage {
    pub prompt_tokens: u32,
    pub completion_tokens: u32,
    pub total_tokens: u32,
}

impl Usage {
    pub fn new(prompt_tokens: u32, completion_tokens: u32) -> (usage: Self)
        requires
            prompt_tokens + completion_tokens <= u32::MAX,
        ensures
            usage.prompt_tokens == prompt_tokens,
            usage.completion_tokens == completion_tokens,
            usage.total_tokens == prompt_tokens + completion_tokens,
    {
        Usage {
            prompt_tokens,
            completion_tokens,
            total_tokens: prompt_tokens + completion_tokens,
        }
    }

    /// The counts as a JSON object.
    pub open spec fn json(self) -> Seq<char> {
        "{\"prompt_tokens\":"@ + text::decimal(self.prompt_tokens as nat)
            + ",\"completion_tokens\":"@ + text::decimal(self.completion_tokens as nat)
            + ",\"total_tokens\":"@ + text::decimal(self.total_tokens as nat) + "}"@
    }

    fn push_json(&self, out: &mut String)
        ensures
            final(out)@ == old(out)@ + self.json(),
    {
        out.append("{\"prompt_tokens\":");
        text::push_decimal(out, self.prompt_tokens as u64);
        out.append(",\"completion_tokens\":");
        text::push_decimal(out, self.completion_tokens as u64);
        out.append(",\"total_tokens\":");
        text::push_decimal(out, self.total_tokens as u64);
        out.append("}");
        assert(out@ =~= old(out)@ + self.json());
    }
}

/// One SSE frame around `payload`.
pub open spec fn frame(payload: Seq<char>) -> Seq<char> {
    "data: "@ + payload + "\n\n"@
}

/// One SSE frame around `json`.
fn sse(json: &str) -> (out: String)
    ensures
        out@ == frame(json@),
{
    let mut out = "data: ".to_owned();
    out.append(json);
    out.append("\n\n");
    out
}

/// What a chunk adds to the message.
pub enum DeltaView {
    Role,
    Content(Seq<char>),
    Nothing,
}

impl DeltaView {
    pub open spec fn json(self) -> Seq<char> {
        match self {
            DeltaView::Role => "{\"role\":\"assistant\"}"@,
            DeltaView::Content(text) => "{\"content\":"@ + json::json_string(text) + "}"@,
            DeltaView::Nothing => "{}"@,
        }
    }
}

/// The finish reason of a chunk, `null` while the answer goes on.
pub open spec fn finish_json(stop: Option<Stop>) -> Seq<char> {
    match stop {
        Some(stop) => json::json_string(spec_finish_reason(stop)),
        None => "null"@,
    }
}

/// The usage member of a chunk, absent where there is none to report.
pub open spec fn usage_member(usage: Option<Usage>) -> Seq<char> {
    match usage {
        Some(usage) => ",\"usage\":"@ + usage.json(),
        None => Seq::empty(),
    }
}

/// What a response writer was made with.
pub struct WriterView {
    pub id: Seq<char>,
    pub model: Seq<char>,
    pub created: u64,
}

impl WriterView {
    /// A chunk of a streamed answer, as JSON.
    pub open spec fn chunk(self, delta: DeltaView, stop: Option<Stop>, usage: Option<Usage>) -> Seq<
        char,
    > {
        "{\"id\":"@ + json::json_string(self.id)
            + ",\"object\":\"chat.completion.chunk\",\"created\":"@ + text::decimal(
            self.created as nat,
        ) + ",\"model\":"@ + json::json_string(self.model)
            + ",\"choices\":[{\"index\":0,\"delta\":"@ + delta.json() + ",\"finish_reason\":"@
            + finish_json(stop) + "}]"@ + usage_member(usage) + "}"@
    }

    /// The opening frame.
    pub open spec fn open_frame(self) -> Seq<char> {
        frame(self.chunk(DeltaView::Role, None, None))
    }

    /// The frame of one piece of text.
    pub open spec fn token_frame(self, text: Seq<char>) -> Seq<char> {
        frame(self.chunk(DeltaView::Content(text), None, None))
    }

    /// The frame that carries the finish reason.
    pub open spec fn close_frame(self, stop: Stop, usage: Option<Usage>) -> Seq<char> {
        frame(self.chunk(DeltaView::Nothing, Some(stop), usage))
    }

    /// A whole answer, as one JSON body.
    pub open spec fn completion(self, text: Seq<char>, stop: Stop, usage: Usage) -> Seq<char> {
        "{\"id\":"@ + json::json_string(self.id)
            + ",\"object\":\"chat.completion\",\"created\":"@ + text::decimal(self.created as nat)
            + ",\"model\":"@ + json::json_string(self.model)
            + ",\"choices\":[{\"index\":0,\"message\":{\"role\":\"assistant\",\"content\":"@
            + json::json_string(text) + "},\"finish_reason\":"@ + json::json_string(
            spec_finish_reason(stop),
        ) + "}],\"usage\":"@ + usage.json() + "}"@
    }
}

/// Renders one response: an id and model fixed at the start, then a frame per
/// event. Streaming and buffered share it so the two shapes cannot drift.
pub struct ResponseWriter {
    id: String,
    model: String,
    created: u64,
}

impl View for ResponseWriter {
    type V = WriterView;

    closed spec fn view(&self) -> WriterView {
        WriterView { id: self.id@, model: self.model@, created: self.created }
    }
}

impl ResponseWriter {
    /// A writer for a response that starts now.
    pub fn new(id: &str, model: &str) -> (writer: Self)
        ensures
            writer@.id == id@,
            writer@.model == model@,
            exists|now: SystemTime|
                writer@.created == clock::whole_seconds(#[trigger] clock::reading(now)),
    {
        ResponseWriter::at(id, model, unix_seconds())
    }

    /// A writer for a response that starts at `created`, in seconds since the
    /// epoch.
    pub fn at(id: &str, model: &str, created: u64) -> (writer: Self)
        ensures
            writer@ == (WriterView { id: id@, model: model@, created }),
    {
        ResponseWriter { id: id.to_owned(), model: model.to_owned(), created }
    }

    pub fn id(&self) -> (id: &str)
        ensures
            id@ == self@.id,
    {
        self.id.as_str()
    }

    fn chunk(&self, delta: &str, finish: &str, usage: Option<Usage>) -> (out: String)
        ensures
            out@ == "{\"id\":"@ + json::json_string(self@.id)
                + ",\"object\":\"chat.completion.chunk\",\"created\":"@ + text::decimal(
                self@.created as nat,
            ) + ",\"model\":"@ + json::json_string(self@.model)
                + ",\"choices\":[{\"index\":0,\"delta\":"@ + delta@ + ",\"finish_reason\":"@
                + finish@ + "}]"@ + usage_member(usage) + "}"@,
    {
        let mut out = "{\"id\":".to_owned();
        out.append(json::quote(self.id.as_str()).as_str());
        out.append(",\"object\":\"chat.completion.chunk\",\"created\":");
        text::push_decimal(&mut out, self.created);
        out.append(",\"model\":");
        out.append(json::quote(self.model.as_str()).as_str());
        out.append(",\"choices\":[{\"index\":0,\"delta\":");
        out.append(delta);
        out.append(",\"finish_reason\":");
        out.append(finish);
        out.append("}]");
        let ghost before = out@;
        if let Some(usage) = usage {
            out.append(",\"usage\":");
            usage.push_json(&mut out);
        }
        assert(out@ =~= before + usage_member(usage));
        out.append("}");
        out
    }

    /// The opening frame. Carries the assistant role and no content, which is
    /// what clients expect to see before any text arrives.
    pub fn stream_open(&self) -> (out: String)
        ensures
            out@ == self@.open_frame(),
    {
        sse(self.chunk("{\"role\":\"assistant\"}", "null", None).as_str())
    }

    pub fn stream_token(&self, text: &str) -> (out: String)
        ensures
            out@ == self@.token_frame(text@),
    {
        let mut delta = "{\"content\":".to_owned();
        delta.append(json::quote(text).as_str());
        delta.append("}");
        sse(self.chunk(delta.as_str(), "null", None).as_str())
    }

    /// The closing frames: an empty delta carrying the finish reason,
    /// optionally usage, then the sentinel that ends the SSE stream.
    pub fn stream_close(&self, stop: Stop, usage: Option<Usage>) -> (out: String)
        ensures
            out@ == self@.close_frame(stop, usage) + SENTINEL@,
            out@ == self@.close_frame(stop, usage) + "data: [DONE]\n\n"@,
    {
        let finish = json::quote(finish_reason(stop));
        let mut out = sse(self.chunk("{}", finish.as_str(), usage).as_str());
        out.append(SENTINEL);
        out
    }

    pub fn completion(&self, text: String, stop: Stop, usage: Usage) -> (out: String)
        ensures
            out@ == self@.completion(text@, stop, usage),
    {
        let mut out = "{\"id\":".to_owned();
        out.append(json::quote(self.id.as_str()).as_str());
        out.append(",\"object\":\"chat.completion\",\"created\":");
        text::push_decimal(&mut out, self.created);
        out.append(",\"model\":");
        out.append(json::quote(self.model.as_str()).as_str());
        out.append(",\"choices\":[{\"index\":0,\"message\":{\"role\":\"assistant\",\"content\":");
        out.append(json::quote(text.as_str()).as_str());
        out.append("},\"finish_reason\":");
        out.append(json::quote(finish_reason(stop)).as_str());
        out.append("}],\"usage\":");
        usage.push_json(&mut out);
        out.append("}");
        out
    }
}

/// The text of [`error_body`].
pub open spec fn spec_error_body(message: Seq<char>, kind: Seq<char>) -> Seq<char> {
    "{\"error\":{\"code\":null,\"message\":"@ + json::json_string(message)
        + ",\"param\":null,\"type\":"@ + json::json_string(kind) + "}}"@
}

/// An error in the shape OpenAI clients parse, for the paths where nothing
/// has been written yet and a status code is still ours to choose.
pub fn error_body(message: &str, kind: &str) -> (out: String)
    ensures
        out@ == spec_error_body(message@, kind@),
{
    let mut out = "{\"error\":{\"code\":null,\"message\":".to_owned();
    out.append(json::quote(message).as_str());
    out.append(",\"param\":null,\"type\":");
    out.append(json::quote(kind).as_str());
    out.append("}}");
    out
}

/// The text of [`error_frame`].
pub open spec fn spec_error_frame(message: Seq<char>) -> Seq<char> {
    frame(spec_error_body(message, "server_error"@)) + SENTINEL@
}

/// A mid-stream failure. The status line is long gone by then, so the error
/// travels as a frame and the stream still terminates properly.
pub fn error_frame(message: &str) -> (out: String)
    ensures
        out@ == spec_error_frame(message@),
        out@ == frame(spec_error_body(message@, "server_error"@)) + "data: [DONE]\n\n"@,
{
    let mut out = sse(error_body(message, "server_error").as_str());
    out.append(SENTINEL);
    out
}

} // verus!
