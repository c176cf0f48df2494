//! What a client sends.

use vstd::prelude::*;

use crate::engine::{Float32, GenerateRequest, Message};

verus! {

/// Reported back as the model name when a request does not name one.
pub const DEFAULT_MODEL: &'static str = "llm";

/// A chat-completions request, decoded.
#[derive(Debug, Clone)]
pub struct ChatRequest {
    pub model: Option<String>,
    pub messages: Vec<ChatMessage>,
    pub stream: bool,
    pub stream_options: Option<StreamOptions>,
    pub max_tokens: Option<i32>,
    /// The current spelling of `max_tokens`; it wins when both are present.
    pub max_completion_tokens: Option<i32>,
    pub temperature: Option<Float32>,
    pub top_p: Option<Float32>,
    pub seed: Option<u32>,
    /// Our own extension: let the model emit its reasoning block.
    pub think: Option<bool>,
    /// The spelling vLLM and llama-server use for the same thing.
    pub chat_template_kwargs: Option<ChatTemplateKwargs>,
}

#[derive(Debug, Clone, Copy, PartialEq, Eq, Structural)]
pub struct ChatTemplateKwargs {
    pub enable_thinking: Option<bool>,
}

#[derive(Debug, Clone, Copy, PartialEq, Eq, Structural)]
pub struct StreamOptions {
    pub include_usage: bool,
}

#[derive(Debug, Clone)]
pub struct ChatMessage {
    pub role: String,
    pub content: Option<Content>,
}

/// Content is a string in the older form of the API and a list of typed parts
/// in the current one. Both are in the wild, so accept both.
#[derive(Debug, Clone)]
pub enum Content {
    Text(String),
    Parts(Vec<ContentPart>),
}

#[derive(Debug, Clone)]
pub struct ContentPart {
    pub kind: String,
    pub text: Option<String>,
}

impl ContentPart {
    /// What this part contributes: its text if it is a text part.
    pub open spec fn spec_text(&self) -> Seq<char> {
        match self.text {
            Some(text) => if self.kind@ == "text"@ {
                text@
            } else {
                Seq::empty()
            },
            None => Seq::empty(),
        }
    }
}

/// The text parts of a list, one after the other.
pub open spec fn parts_text(parts: Seq<ContentPart>) -> Seq<char>
    decreases parts.len(),
{
    if parts.len() == 0 {
        Seq::empty()
    } else {
        parts_text(parts.drop_last()) + parts.last().spec_text()
    }
}

impl Content {
    pub open spec fn spec_text(&self) -> Seq<char> {
        match self {
            Content::Text(text) => text@,
            Content::Parts(parts) => parts_text(parts@),
        }
    }

    /// The text of this content, with non-text parts dropped. An image part
    /// in a text-only engine is a silent omission either way; dropping it
    /// keeps the surrounding text usable.
    pub fn text(&self) -> (text: String)
        ensures
            text@ == self.spec_text(),
            self matches Content::Text(own) ==> text@ == own@,
    {
        match self {
            Content::Text(text) => text.clone(),
            Content::Parts(parts) => {
                let text_kind = "text".to_owned();
                let mut joined = String::new();
                for i in 0..parts.len()
                    invariant
                        text_kind@ == "text"@,
                        joined@ == parts_text(parts@.take(i as int)),
                {
                    assert(parts@.take(i + 1).drop_last() =~= parts@.take(i as int));
                    let part = &parts[i];
                    if part.kind == text_kind {
                        if let Some(text) = &part.text {
                            joined.append(text.as_str());
                        }
                    }
                    assert(joined@ =~= parts_text(parts@.take(i + 1)));
                }
                assert(parts@.take(parts@.len() as int) =~= parts@);
                joined
            },
        }
    }
}

impl ChatMessage {
    /// The text of the message, empty where it has no content.
    pub open spec fn spec_text(&self) -> Seq<char> {
        match self.content {
            Some(content) => content.spec_text(),
            None => Seq::empty(),
        }
    }
}

/// Defaults for the fields a request may leave out.
#[derive(Debug, Clone, Copy, PartialEq, Eq, Structural)]
pub struct RequestDefaults {
    pub max_tokens: i32,
    pub temperature: Float32,
    pub top_p: Float32,
    pub seed: u32,
    pub think: bool,
}

impl Default for RequestDefaults {
    fn default() -> (defaults: Self)
        ensures
            defaults.max_tokens == 128,
            defaults.temperature.bits == 0,
            defaults.top_p.bits == 0x3f66_6666,
            defaults.seed == 42,
            !defaults.think,
    {
        let request = GenerateRequest::default();
        RequestDefaults {
            max_tokens: request.max_tokens,
            temperature: request.temperature,
            top_p: request.top_p,
            seed: request.seed,
            think: request.think,
        }
    }
}

/// Why a request body is not a request.
#[derive(Debug)]
pub enum RequestError {
    /// It could not be decoded.
    Malformed(String),
    NoMessages,
}

impl RequestError {
    /// The text of [`RequestError::message`].
    pub open spec fn spec_message(&self) -> Seq<char> {
        match self {
            RequestError::Malformed(error) => error@,
            RequestError::NoMessages => "messages must not be empty"@,
        }
    }

    /// What the client is told.
    pub fn message(&self) -> (message: String)
        ensures
            message@ == self.spec_message(),
            self matches RequestError::Malformed(error) ==> message@ == error@,
            *self is NoMessages ==> message@ == "messages must not be empty"@,
    {
        match self {
            RequestError::Malformed(error) => error.clone(),
            RequestError::NoMessages => "messages must not be empty".to_owned(),
        }
    }
}

/// The first of two optional values that is there.
pub open spec fn first_of<T>(first: Option<T>, second: Option<T>) -> Option<T> {
    match first {
        Some(value) => Some(value),
        None => second,
    }
}

/// An optional value, or what stands in for it.
pub open spec fn value_or<T>(value: Option<T>, default: T) -> T {
    match value {
        Some(value) => value,
        None => default,
    }
}

impl ChatRequest {
    /// Accept a decoded body: it has to be a request, and to have messages.
    pub fn parse(decoded: Result<ChatRequest, String>) -> (request: Result<
        ChatRequest,
        RequestError,
    >)
        ensures
            request == match decoded {
                Err(error) => Err::<ChatRequest, RequestError>(RequestError::Malformed(error)),
                Ok(decoded) => if decoded.messages@.len() == 0 {
                    Err(RequestError::NoMessages)
                } else {
                    Ok(decoded)
                },
            },
    {
        match decoded {
            Err(error) => Err(RequestError::Malformed(error)),
            Ok(request) => {
                if request.messages.len() == 0 {
                    Err(RequestError::NoMessages)
                } else {
                    Ok(request)
                }
            },
        }
    }

    pub open spec fn spec_model_name(&self) -> Seq<char> {
        self.spec_model_name_or(DEFAULT_MODEL@)
    }

    pub fn model_name(&self) -> (name: &str)
        ensures
            name@ == self.spec_model_name(),
            self.model is None ==> name@ == "llm"@,
            self.model matches Some(model) ==> name@ == model@,
    {
        self.model_name_or(DEFAULT_MODEL)
    }

    /// The model that the request names, or `served` where it names none.
    pub open spec fn spec_model_name_or(&self, served: Seq<char>) -> Seq<char> {
        match self.model {
            Some(model) => model@,
            None => served,
        }
    }

    /// What a response to this request names as its model, from a worker that
    /// calls its own `served`.
    pub fn model_name_or<'a>(&'a self, served: &'a str) -> (name: &'a str)
        ensures
            name@ == self.spec_model_name_or(served@),
            self.model is None ==> name@ == served@,
            self.model matches Some(model) ==> name@ == model@,
    {
        match &self.model {
            Some(model) => model.as_str(),
            None => served,
        }
    }

    pub open spec fn spec_include_usage(&self) -> bool {
        match self.stream_options {
            Some(options) => options.include_usage,
            None => false,
        }
    }

    pub fn include_usage(&self) -> (wanted: bool)
        ensures
            wanted == self.spec_include_usage(),
            wanted <==> (self.stream_options matches Some(options) && options.include_usage),
    {
        match self.stream_options {
            Some(options) => options.include_usage,
            None => false,
        }
    }

    /// Whether the reasoning block was asked for, under either name.
    pub open spec fn spec_think(&self) -> Option<bool> {
        first_of(
            self.think,
            match self.chat_template_kwargs {
                Some(kwargs) => kwargs.enable_thinking,
                None => None,
            },
        )
    }

    /// Whether `request` is what this one asks of the engine: the messages with
    /// their text, and each setting, or its default where it is left out.
    pub open spec fn asks_for(&self, request: GenerateRequest, defaults: RequestDefaults) -> bool {
        &&& request.messages@.len() == self.messages@.len()
        &&& forall|i: int|
            0 <= i < self.messages@.len() ==> (#[trigger] request.messages@[i]).role@
                == self.messages@[i].role@ && request.messages@[i].content@
                == self.messages@[i].spec_text()
        &&& request.max_tokens == value_or(
            first_of(self.max_completion_tokens, self.max_tokens),
            defaults.max_tokens,
        )
        &&& request.temperature == value_or(self.temperature, defaults.temperature)
        &&& request.top_p == value_or(self.top_p, defaults.top_p)
        &&& request.seed == value_or(self.seed, defaults.seed)
        &&& request.think == value_or(self.spec_think(), defaults.think)
    }

    pub fn to_generate_request(&self, defaults: RequestDefaults) -> (request: GenerateRequest)
        ensures
            self.asks_for(request, defaults),
            request.think == match (self.think, self.chat_template_kwargs) {
                (Some(think), _) => think,
                (None, Some(ChatTemplateKwargs { enable_thinking: Some(think) })) => think,
                _ => defaults.think,
            },
            request.max_tokens == match (self.max_completion_tokens, self.max_tokens) {
                (Some(max_tokens), _) => max_tokens,
                (None, Some(max_tokens)) => max_tokens,
                (None, None) => defaults.max_tokens,
            },
            self.temperature matches Some(temperature) ==> request.temperature == temperature,
            self.temperature is None ==> request.temperature == defaults.temperature,
            self.top_p matches Some(top_p) ==> request.top_p == top_p,
            self.top_p is None ==> request.top_p == defaults.top_p,
            self.seed matches Some(seed) ==> request.seed == seed,
            self.seed is None ==> request.seed == defaults.seed,
    {
        let think = match self.think {
            Some(think) => think,
            None => match self.chat_template_kwargs {
                Some(kwargs) => kwargs.enable_thinking.unwrap_or(defaults.think),
                None => defaults.think,
            },
        };
        let max_tokens: i32 = match self.max_completion_tokens {
            Some(max_tokens) => max_tokens,
            None => self.max_tokens.unwrap_or(defaults.max_tokens),
        };
        let mut messages: Vec<Message> = Vec::new();
        for i in 0..self.messages.len()
            invariant
                messages@.len() == i,
                forall|j: int|
                    0 <= j < i ==> (#[trigger] messages@[j]).role@ == self.messages@[j].role@
                        && messages@[j].content@ == self.messages@[j].spec_text(),
        {
            let message = &self.messages[i];
            let content = match &message.content {
                Some(content) => content.text(),
                None => String::new(),
            };
            messages.push(Message { role: message.role.clone(), content });
        }
        GenerateRequest {
            messages,
            max_tokens,
            temperature: self.temperature.unwrap_or(defaults.temperature),
            top_p: self.top_p.unwrap_or(defaults.top_p),
            seed: self.seed.unwrap_or(defaults.seed),
            think,
        }
    }
}

/// Whether to show the reasoning is what the request says under its own name;
/// where it says nothing there, what it says under the other one; and where it
/// says nothing at all, what the worker's default says, be that yes or no.
pub proof fn thinking_is_as_asked_or_by_default(
    chat: ChatRequest,
    request: GenerateRequest,
    defaults: RequestDefaults,
)
    requires
        chat.asks_for(request, defaults),
    ensures
        chat.think matches Some(think) ==> request.think == think,
        chat.think is None ==> {
            &&& chat.chat_template_kwargs is None ==> request.think == defaults.think
            &&& chat.chat_template_kwargs matches Some(kwargs) ==> {
                &&& kwargs.enable_thinking matches Some(think) ==> request.think == think
                &&& kwargs.enable_thinking is None ==> request.think == defaults.think
            }
        },
{
}

/// A setting that the request leaves out is the worker's default, and one that
/// it makes is the request's own. The current spelling of the token limit wins
/// over the older one.
pub proof fn settings_are_as_asked_or_by_default(
    chat: ChatRequest,
    request: GenerateRequest,
    defaults: RequestDefaults,
)
    requires
        chat.asks_for(request, defaults),
    ensures
        chat.max_completion_tokens matches Some(limit) ==> request.max_tokens == limit,
        chat.max_completion_tokens is None ==> (chat.max_tokens matches Some(limit)
            ==> request.max_tokens == limit),
        chat.max_completion_tokens is None && chat.max_tokens is None ==> request.max_tokens
            == defaults.max_tokens,
        chat.temperature matches Some(temperature) ==> request.temperature == temperature,
        chat.temperature is None ==> request.temperature == defaults.temperature,
        chat.top_p matches Some(top_p) ==> request.top_p == top_p,
        chat.top_p is None ==> request.top_p == defaults.top_p,
        chat.seed matches Some(seed) ==> request.seed == seed,
        chat.seed is None ==> request.seed == defaults.seed,
{
}

/// The engine is asked with the conversation as it was sent: every message, in
/// order, under its own role, and with its own text.
pub proof fn the_conversation_is_kept(
    chat: ChatRequest,
    request: GenerateRequest,
    defaults: RequestDefaults,
)
    requires
        chat.asks_for(request, defaults),
    ensures
        request.messages@.len() == chat.messages@.len(),
        forall|i: int|
            #![trigger request.messages@[i]]
            0 <= i < chat.messages@.len() ==> {
                &&& request.messages@[i].role@ == chat.messages@[i].role@
                &&& chat.messages@[i].content is None ==> request.messages@[i].content@.len() == 0
                &&& chat.messages@[i].content matches Some(Content::Text(text))
                    ==> request.messages@[i].content@ == text@
                &&& chat.messages@[i].content matches Some(Content::Parts(parts))
                    ==> request.messages@[i].content@ == parts_text(parts@)
            },
{
}

/// Of a list of parts every text is kept, in order, and nothing else: a list
/// split in two reads as its halves do, and a single part reads as its text if
/// it is a text part that has one, and as nothing if it is not.
pub proof fn parts_read_as_their_texts(a: Seq<ContentPart>, b: Seq<ContentPart>, part: ContentPart)
    ensures
        parts_text(a + b) == parts_text(a) + parts_text(b),
        part.kind@ == "text"@ ==> (part.text matches Some(text) ==> parts_text(seq![part])
            == text@),
        part.text is None || part.kind@ != "text"@ ==> parts_text(seq![part]).len() == 0,
        parts_text(Seq::empty()).len() == 0,
    decreases b.len(),
{
    if b.len() == 0 {
        assert(a + b =~= a);
        assert(parts_text(a) + parts_text(b) =~= parts_text(a));
    } else {
        assert((a + b).drop_last() =~= a + b.drop_last());
        parts_read_as_their_texts(a, b.drop_last(), part);
        assert(parts_text(a + b) =~= parts_text(a) + parts_text(b));
    }
    assert(seq![part].drop_last() =~= Seq::<ContentPart>::empty());
    reveal_with_fuel(parts_text, 2);
    assert(parts_text(seq![part]) =~= part.spec_text());
}

/// A response names the model that the request names, and only where it names
/// none, the one that is served.
pub proof fn the_requested_model_is_named(chat: ChatRequest, served: Seq<char>)
    ensures
        chat.model matches Some(model) ==> chat.spec_model_name_or(served) == model@,
        chat.model is None ==> chat.spec_model_name_or(served) == served,
        chat.model is None ==> chat.spec_model_name() == "llm"@,
{
}

/// Usage is reported in a stream where its options ask for it, and nowhere else.
pub proof fn usage_is_reported_where_asked(chat: ChatRequest)
    ensures
        chat.stream_options matches Some(options) ==> chat.spec_include_usage()
            == options.include_usage,
        chat.stream_options is None ==> !chat.spec_include_usage(),
{
}

} // verus!
