//! One unit of work, and what has to hold before it reaches the model.

use vstd::prelude::*;

use crate::text;

verus! {

/// A single-precision number kept as its IEEE-754 bit pattern. Sampling
/// parameters are handed on to the sampler; nothing here computes with them.
#[derive(Debug, Clone, Copy, PartialEq, Eq, Structural)]
pub struct Float32 {
    pub bits: u32,
}

impl Float32 {
    /// Greater than zero: the sign bit is clear, some other bit is not, and
    /// the pattern is not above that of infinity, where the NaNs are.
    pub open spec fn spec_is_positive(self) -> bool {
        0 < self.bits <= 0x7f80_0000
    }

    pub fn is_positive(self) -> (positive: bool)
        ensures
            positive == self.spec_is_positive(),
            positive <==> 0 < self.bits <= 0x7f80_0000,
    {
        0 < self.bits && self.bits <= 0x7f80_0000
    }
}

/// Zero, as a sampling temperature greedy and deterministic.
pub const ZERO_BITS: u32 = 0;

/// Nine tenths, the default nucleus.
pub const NINE_TENTHS_BITS: u32 = 0x3f66_6666;

/// Closes the reasoning block that a template leaves open.
pub const CLOSED_REASONING: &'static str = "<think>\n\n</think>\n\n";

/// One turn of a conversation. Roles are passed to the model's own chat
/// template verbatim, so what counts as valid is the template's business,
/// not ours.
#[derive(Debug, Clone)]
pub struct Message {
    pub role: String,
    pub content: String,
}

impl Message {
    pub fn system(content: &str) -> (message: Self)
        ensures
            message.role@ == "system"@,
            message.content@ == content@,
    {
        Message { role: "system".to_owned(), content: content.to_owned() }
    }

    pub fn user(content: &str) -> (message: Self)
        ensures
            message.role@ == "user"@,
            message.content@ == content@,
    {
        Message { role: "user".to_owned(), content: content.to_owned() }
    }

    pub fn assistant(content: &str) -> (message: Self)
        ensures
            message.role@ == "assistant"@,
            message.content@ == content@,
    {
        Message { role: "assistant".to_owned(), content: content.to_owned() }
    }
}

/// One unit of work. The engine applies the model's own chat template, so
/// these are the conversation's turns, not a formatted string.
#[derive(Debug, Clone)]
pub struct GenerateRequest {
    pub messages: Vec<Message>,
    pub max_tokens: i32,
    /// Zero is greedy and deterministic.
    pub temperature: Float32,
    pub top_p: Float32,
    pub seed: u32,
    /// Let the model emit its reasoning block.
    pub think: bool,
}

impl Default for GenerateRequest {
    fn default() -> (request: Self)
        ensures
            request.messages@.len() == 0,
            request.max_tokens == 128,
            request.temperature.bits == 0,
            request.top_p.bits == 0x3f66_6666,
            request.seed == 42,
            !request.think,
    {
        GenerateRequest {
            messages: Vec::new(),
            max_tokens: 128,
            temperature: Float32 { bits: ZERO_BITS },
            top_p: Float32 { bits: NINE_TENTHS_BITS },
            seed: 42,
            think: false,
        }
    }
}

/// How the next token is picked.
#[derive(Debug, Clone, Copy, PartialEq, Eq, Structural)]
pub enum Sampling {
    /// The likeliest token, every time.
    Greedy,
    /// Scaled by temperature, cut to the nucleus, drawn with a seeded
    /// generator. The nucleus keeps at least `min_keep` candidates.
    Nucleus { temperature: Float32, top_p: Float32, min_keep: usize, seed: u32 },
}

/// Why a request fails before its prompt reaches the model.
#[derive(Debug, Clone, Copy, PartialEq, Eq, Structural)]
pub enum PrefillError {
    NoMessages,
    PromptTooLong { tokens: usize, n_ctx: u32 },
}

impl PrefillError {
    /// The text of [`PrefillError::message`].
    pub open spec fn spec_message(self) -> Seq<char> {
        match self {
            PrefillError::NoMessages => "request has no messages"@,
            PrefillError::PromptTooLong { tokens, n_ctx } => "prompt is "@ + text::decimal(
                tokens as nat,
            ) + " tokens and a slot's context is "@ + text::decimal(n_ctx as nat),
        }
    }

    /// What the caller is told.
    pub fn message(&self) -> (message: String)
        ensures
            message@ == self.spec_message(),
            *self == PrefillError::NoMessages ==> message@ == "request has no messages"@,
            *self matches PrefillError::PromptTooLong { tokens, n_ctx } ==> message@
                == "prompt is "@ + text::decimal(tokens as nat)
                + " tokens and a slot's context is "@ + text::decimal(n_ctx as nat),
    {
        match *self {
            PrefillError::NoMessages => "request has no messages".to_owned(),
            PrefillError::PromptTooLong { tokens, n_ctx } => {
                let mut message = "prompt is ".to_owned();
                text::push_decimal(&mut message, tokens as u64);
                message.append(" tokens and a slot's context is ");
                text::push_decimal(&mut message, n_ctx as u64);
                message
            },
        }
    }
}

/// One token of a prompt, as it goes into the batch.
#[derive(Debug, Clone, Copy, PartialEq, Eq, Structural)]
pub struct PromptRow {
    pub token: i32,
    pub position: u32,
    pub seq_id: u32,
    /// Whether the model is asked for the logits at this row.
    pub logits: bool,
}

/// A prompt as batch rows: positions count up from zero and only the last row
/// asks for logits.
pub open spec fn prompt_rows(tokens: Seq<i32>, seq_id: u32) -> Seq<PromptRow> {
    Seq::new(
        tokens.len(),
        |i: int|
            PromptRow {
                token: tokens[i],
                position: i as u32,
                seq_id,
                logits: i == tokens.len() - 1,
            },
    )
}

/// Lay out a prompt for slot `seq_id`. A prompt has to leave room for at least
/// one token, so one that fills the slot's context is refused here rather than
/// failing somewhere inside the first forward pass.
pub fn plan_prompt(tokens: &Vec<i32>, seq_id: u32, n_ctx: u32) -> (plan: Result<
    Vec<PromptRow>,
    PrefillError,
>)
    ensures
        tokens@.len() < n_ctx ==> (plan matches Ok(rows) && rows@ == prompt_rows(tokens@, seq_id)),
        plan matches Ok(rows) ==> rows@.len() == tokens@.len(),
        plan matches Ok(rows) ==> forall|i: int|
            0 <= i < tokens@.len() ==> (#[trigger] rows@[i]).token == tokens@[i] && rows@[i].position
                == i && rows@[i].seq_id == seq_id && (rows@[i].logits <==> i == tokens@.len() - 1),
        tokens@.len() >= n_ctx ==> plan == Err::<Vec<PromptRow>, PrefillError>(
            PrefillError::PromptTooLong { tokens: tokens@.len() as usize, n_ctx },
        ),
{
    let count = tokens.len();
    if count >= n_ctx as usize {
        return Err(PrefillError::PromptTooLong { tokens: count, n_ctx });
    }
    let mut rows: Vec<PromptRow> = Vec::new();
    for i in 0..count
        invariant
            count == tokens@.len(),
            count < n_ctx,
            rows@ == prompt_rows(tokens@, seq_id).take(i as int),
    {
        rows.push(
            PromptRow { token: tokens[i], position: i as u32, seq_id, logits: i == count - 1 },
        );
        assert(rows@ =~= prompt_rows(tokens@, seq_id).take(i + 1));
    }
    assert(prompt_rows(tokens@, seq_id).take(count as int) =~= prompt_rows(tokens@, seq_id));
    Ok(rows)
}

impl GenerateRequest {
    /// The single-turn case, which is most of them.
    pub fn user(prompt: &str) -> (request: Self)
        ensures
            request.messages@.len() == 1,
            request.messages@[0].role@ == "user"@,
            request.messages@[0].content@ == prompt@,
            request.max_tokens == 128,
            request.temperature.bits == 0,
            request.top_p.bits == 0x3f66_6666,
            request.seed == 42,
            !request.think,
    {
        let mut request = GenerateRequest::default();
        request.messages.push(Message::user(prompt));
        request
    }

    /// A request without messages has nothing to template.
    pub fn require_messages(&self) -> (checked: Result<(), PrefillError>)
        ensures
            checked == if self.messages@.len() == 0 {
                Err::<(), PrefillError>(PrefillError::NoMessages)
            } else {
                Ok(())
            },
    {
        if self.messages.len() == 0 {
            Err(PrefillError::NoMessages)
        } else {
            Ok(())
        }
    }

    /// The prompt handed to the tokenizer: the templated conversation, with
    /// the reasoning block closed by hand unless the request wants to see it.
    pub fn finish_prompt(&self, templated: String) -> (prompt: String)
        ensures
            prompt@ == if self.think {
                templated@
            } else {
                templated@ + "<think>\n\n</think>\n\n"@
            },
    {
        let mut prompt = templated;
        if !self.think {
            prompt.append(CLOSED_REASONING);
        }
        prompt
    }

    /// The sampler this request asks for.
    pub open spec fn spec_sampling(&self) -> Sampling {
        if self.temperature.spec_is_positive() {
            Sampling::Nucleus {
                temperature: self.temperature,
                top_p: self.top_p,
                min_keep: 1,
                seed: self.seed,
            }
        } else {
            Sampling::Greedy
        }
    }

    pub fn sampling(&self) -> (sampling: Sampling)
        ensures
            sampling == self.spec_sampling(),
            sampling is Nucleus <==> self.temperature.spec_is_positive(),
            sampling matches Sampling::Nucleus { temperature, top_p, min_keep, seed } ==> {
                &&& temperature == self.temperature
                &&& top_p == self.top_p
                &&& min_keep == 1
                &&& seed == self.seed
            },
    {
        if self.temperature.is_positive() {
            Sampling::Nucleus {
                temperature: self.temperature,
                top_p: self.top_p,
                min_keep: 1,
                seed: self.seed,
            }
        } else {
            Sampling::Greedy
        }
    }
}

/// A number is positive where its sign bit is clear, unless it is zero or not a
/// number: infinity counts, and so do the smallest subnormal ones.
pub proof fn positive_is_neither_signed_nor_zero_nor_nan(number: Float32)
    ensures
        ({
            let bits = number.bits;
            let nan = bits & 0x7f80_0000 == 0x7f80_0000 && bits & 0x007f_ffff != 0;
            number.spec_is_positive() <==> bits & 0x8000_0000 == 0 && bits != 0 && !nan
        }),
{
    let bits = number.bits;
    assert(0 < bits && bits <= 0x7f80_0000 <==> bits & 0x8000_0000 == 0 && bits != 0 && !(bits
        & 0x7f80_0000 == 0x7f80_0000 && bits & 0x007f_ffff != 0)) by (bit_vector);
}

/// The model reads exactly the prompt: the tokens of the rows, in order, are
/// those of the prompt, each at its own place, all of them in one sequence, and
/// the logits are asked for at the end and nowhere else.
pub proof fn the_model_reads_the_prompt(tokens: Seq<i32>, seq_id: u32)
    requires
        tokens.len() <= u32::MAX,
    ensures
        ({
            let rows = prompt_rows(tokens, seq_id);
            &&& rows.map_values(|row: PromptRow| row.token) == tokens
            &&& forall|i: int|
                0 <= i < tokens.len() ==> (#[trigger] rows[i]).token == tokens[i]
                    && rows[i].position == i && rows[i].seq_id == seq_id
            &&& forall|i: int|
                0 <= i < tokens.len() ==> ((#[trigger] rows[i]).logits <==> i == tokens.len() - 1)
        }),
{
    let rows = prompt_rows(tokens, seq_id);
    assert(rows.map_values(|row: PromptRow| row.token) =~= tokens);
}

/// Two prompts that are laid out alike are the same prompt.
pub proof fn prompts_are_told_apart(a: Seq<i32>, b: Seq<i32>, seq_id: u32)
    requires
        prompt_rows(a, seq_id) == prompt_rows(b, seq_id),
    ensures
        a == b,
{
    let rows = prompt_rows(a, seq_id);
    assert(rows.len() == a.len() && rows.len() == b.len());
    assert forall|i: int| 0 <= i < a.len() implies a[i] == b[i] by {
        assert(rows[i].token == a[i]);
        assert(prompt_rows(b, seq_id)[i].token == b[i]);
    }
    assert(a =~= b);
}

/// A request with a temperature above zero is sampled with its own temperature,
/// nucleus and seed; any other is sampled greedily, whatever else it says.
pub proof fn a_request_is_sampled_as_it_asks(request: GenerateRequest)
    ensures
        match request.spec_sampling() {
            Sampling::Greedy => !request.temperature.spec_is_positive(),
            Sampling::Nucleus { temperature, top_p, min_keep, seed } => {
                &&& request.temperature.spec_is_positive()
                &&& temperature == request.temperature
                &&& top_p == request.top_p
                &&& min_keep == 1
                &&& seed == request.seed
            },
        },
{
}

/// Two requests with temperatures above zero that get the same sampler agree in
/// their temperature, their nucleus and their seed.
pub proof fn samplers_are_told_apart(a: GenerateRequest, b: GenerateRequest)
    requires
        a.temperature.spec_is_positive(),
        b.temperature.spec_is_positive(),
        a.spec_sampling() == b.spec_sampling(),
    ensures
        a.temperature == b.temperature,
        a.top_p == b.top_p,
        a.seed == b.seed,
{
}

} // verus!
