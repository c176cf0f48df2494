//! Server-sent events from the reader's side: what a client gets back from a
//! stream of frames.

use vstd::prelude::*;

use crate::engine::Stop;
use crate::json;
use crate::protocol::response;
use crate::protocol::response::{DeltaView, Usage, WriterView};
use crate::text;

verus! {

/// The payload of the sentinel.
pub open spec fn done() -> Seq<char> {
    "[DONE]"@
}

/// `payloads`, framed one after the other.
pub open spec fn framed(payloads: Seq<Seq<char>>) -> Seq<char>
    decreases payloads.len(),
{
    if payloads.len() == 0 {
        Seq::empty()
    } else {
        response::frame(payloads[0]) + framed(payloads.drop_first())
    }
}

/// Where the first empty line at or after `from` begins.
pub open spec fn first_break(body: Seq<char>, from: int) -> Option<int>
    decreases body.len() - from,
{
    if from < 0 || from + 1 >= body.len() {
        None
    } else if body[from] == '\n' && body[from + 1] == '\n' {
        Some(from)
    } else {
        first_break(body, from + 1)
    }
}

/// What a client reads: the body is cut at empty lines, and each line gives up
/// what follows its `data: `. Nothing, if the body is not made of such lines.
pub open spec fn read_frames(body: Seq<char>) -> Option<Seq<Seq<char>>>
    decreases body.len(),
{
    if body.len() == 0 {
        Some(Seq::empty())
    } else {
        match first_break(body, 0) {
            None => None,
            Some(end) => {
                if 6 <= end <= body.len() - 2 && body.take(6) == "data: "@ {
                    match read_frames(body.skip(end + 2)) {
                        Some(rest) => Some(seq![body.subrange(6, end)] + rest),
                        None => None,
                    }
                } else {
                    None
                }
            },
        }
    }
}

proof fn lemma_first_break(body: Seq<char>, from: int, end: int)
    requires
        0 <= from <= end,
        end + 1 < body.len(),
        forall|i: int| from <= i < end ==> body[i] != '\n',
        body[end] == '\n',
        body[end + 1] == '\n',
    ensures
        first_break(body, from) == Some(end),
    decreases end - from,
{
    if from < end {
        lemma_first_break(body, from + 1, end);
    }
}

/// A client reads back exactly the payloads that were framed, in order: no
/// payload without control characters can be mistaken for the end of a frame.
pub proof fn frames_are_read_back(payloads: Seq<Seq<char>>)
    requires
        forall|i: int| 0 <= i < payloads.len() ==> json::printable(#[trigger] payloads[i]),
    ensures
        read_frames(framed(payloads)) == Some(payloads),
    decreases payloads.len(),
{
    if payloads.len() == 0 {
        assert(payloads =~= Seq::empty());
    } else {
        let first = payloads[0];
        let rest = payloads.drop_first();
        let body = framed(payloads);
        let end: int = 6 + first.len() as int;
        reveal_strlit("data: ");
        reveal_strlit("\n\n");
        assert forall|i: int| 0 <= i < rest.len() implies json::printable(#[trigger] rest[i]) by {
            assert(rest[i] == payloads[i + 1]);
        }
        frames_are_read_back(rest);
        assert(body == response::frame(first) + framed(rest));
        assert forall|i: int| 0 <= i < end implies body[i] != '\n' by {
            if i < 6 {
                assert(body[i] == "data: "@[i]);
            } else {
                assert(body[i] == first[i - 6]);
            }
        }
        assert(body[end] == '\n');
        assert(body[end + 1] == '\n');
        lemma_first_break(body, 0, end);
        assert(body.take(6) =~= "data: "@);
        assert(body.subrange(6, end) =~= first);
        assert(body.skip(end + 2) =~= framed(rest));
        assert(seq![first] + rest =~= payloads);
    }
}

proof fn lemma_printable_concat(a: Seq<char>, b: Seq<char>)
    requires
        json::printable(a),
        json::printable(b),
    ensures
        json::printable(a + b),
{
    assert forall|i: int| 0 <= i < (a + b).len() implies #[trigger] (a + b)[i] as u32 >= 0x20 by {
        if i < a.len() {
            assert((a + b)[i] == a[i]);
        } else {
            assert((a + b)[i] == b[i - a.len()]);
        }
    }
}

proof fn lemma_digits_printable(n: nat, base: nat)
    requires
        2 <= base <= 16,
    ensures
        json::printable(text::digits(n, base)),
    decreases n,
{
    if n >= base {
        assert(n / base < n) by (nonlinear_arith)
            requires
                n >= base,
                base >= 2,
        ;
        assert(n % base < base) by (nonlinear_arith)
            requires
                base >= 2,
        ;
        lemma_digits_printable(n / base, base);
    }
}

proof fn lemma_usage_printable(usage: Usage)
    ensures
        json::printable(usage.json()),
{
    reveal_strlit("{\"prompt_tokens\":");
    reveal_strlit(",\"completion_tokens\":");
    reveal_strlit(",\"total_tokens\":");
    reveal_strlit("}");
    let p = text::decimal(usage.prompt_tokens as nat);
    let c = text::decimal(usage.completion_tokens as nat);
    let t = text::decimal(usage.total_tokens as nat);
    lemma_digits_printable(usage.prompt_tokens as nat, 10);
    lemma_digits_printable(usage.completion_tokens as nat, 10);
    lemma_digits_printable(usage.total_tokens as nat, 10);
    let a1 = "{\"prompt_tokens\":"@ + p;
    let a2 = a1 + ",\"completion_tokens\":"@;
    let a3 = a2 + c;
    let a4 = a3 + ",\"total_tokens\":"@;
    let a5 = a4 + t;
    lemma_printable_concat("{\"prompt_tokens\":"@, p);
    lemma_printable_concat(a1, ",\"completion_tokens\":"@);
    lemma_printable_concat(a2, c);
    lemma_printable_concat(a3, ",\"total_tokens\":"@);
    lemma_printable_concat(a4, t);
    lemma_printable_concat(a5, "}"@);
}

proof fn lemma_delta_printable(delta: DeltaView)
    ensures
        json::printable(delta.json()),
{
    reveal_strlit("{\"role\":\"assistant\"}");
    reveal_strlit("{\"content\":");
    reveal_strlit("}");
    reveal_strlit("{}");
    match delta {
        DeltaView::Content(text) => {
            json::json_strings_are_printable(text);
            lemma_printable_concat("{\"content\":"@, json::json_string(text));
            lemma_printable_concat("{\"content\":"@ + json::json_string(text), "}"@);
        },
        _ => {},
    }
}

/// A chunk is a single line, whatever its id, its model name and its text.
pub proof fn chunks_are_printable(
    writer: WriterView,
    delta: DeltaView,
    stop: Option<Stop>,
    usage: Option<Usage>,
)
    ensures
        json::printable(writer.chunk(delta, stop, usage)),
{
    reveal_strlit("{\"id\":");
    reveal_strlit(",\"object\":\"chat.completion.chunk\",\"created\":");
    reveal_strlit(",\"model\":");
    reveal_strlit(",\"choices\":[{\"index\":0,\"delta\":");
    reveal_strlit(",\"finish_reason\":");
    reveal_strlit("}]");
    reveal_strlit("}");
    reveal_strlit("null");
    reveal_strlit(",\"usage\":");
    json::json_strings_are_printable(writer.id);
    json::json_strings_are_printable(writer.model);
    lemma_digits_printable(writer.created as nat, 10);
    lemma_delta_printable(delta);
    match stop {
        Some(stop) => {
            json::json_strings_are_printable(response::spec_finish_reason(stop));
        },
        None => {},
    }
    match usage {
        Some(usage) => {
            lemma_usage_printable(usage);
            lemma_printable_concat(",\"usage\":"@, usage.json());
        },
        None => {},
    }
    let a1 = "{\"id\":"@ + json::json_string(writer.id);
    let a2 = a1 + ",\"object\":\"chat.completion.chunk\",\"created\":"@;
    let a3 = a2 + text::decimal(writer.created as nat);
    let a4 = a3 + ",\"model\":"@;
    let a5 = a4 + json::json_string(writer.model);
    let a6 = a5 + ",\"choices\":[{\"index\":0,\"delta\":"@;
    let a7 = a6 + delta.json();
    let a8 = a7 + ",\"finish_reason\":"@;
    let a9 = a8 + response::finish_json(stop);
    let a10 = a9 + "}]"@;
    let a11 = a10 + response::usage_member(usage);
    lemma_printable_concat("{\"id\":"@, json::json_string(writer.id));
    lemma_printable_concat(a1, ",\"object\":\"chat.completion.chunk\",\"created\":"@);
    lemma_printable_concat(a2, text::decimal(writer.created as nat));
    lemma_printable_concat(a3, ",\"model\":"@);
    lemma_printable_concat(a4, json::json_string(writer.model));
    lemma_printable_concat(a5, ",\"choices\":[{\"index\":0,\"delta\":"@);
    lemma_printable_concat(a6, delta.json());
    lemma_printable_concat(a7, ",\"finish_reason\":"@);
    lemma_printable_concat(a8, response::finish_json(stop));
    lemma_printable_concat(a9, "}]"@);
    lemma_printable_concat(a10, response::usage_member(usage));
    lemma_printable_concat(a11, "}"@);
}

/// An error body is a single line, whatever it says.
pub proof fn error_bodies_are_printable(message: Seq<char>, kind: Seq<char>)
    ensures
        json::printable(response::spec_error_body(message, kind)),
{
    reveal_strlit("{\"error\":{\"code\":null,\"message\":");
    reveal_strlit(",\"param\":null,\"type\":");
    reveal_strlit("}}");
    json::json_strings_are_printable(message);
    json::json_strings_are_printable(kind);
    let a1 = "{\"error\":{\"code\":null,\"message\":"@ + json::json_string(message);
    let a2 = a1 + ",\"param\":null,\"type\":"@;
    let a3 = a2 + json::json_string(kind);
    lemma_printable_concat("{\"error\":{\"code\":null,\"message\":"@, json::json_string(message));
    lemma_printable_concat(a1, ",\"param\":null,\"type\":"@);
    lemma_printable_concat(a2, json::json_string(kind));
    lemma_printable_concat(a3, "}}"@);
}

/// The sentinel is a frame like any other.
pub proof fn the_sentinel_is_a_frame()
    ensures
        response::SENTINEL@ == response::frame(done()),
        json::printable(done()),
{
    reveal_strlit("data: [DONE]\n\n");
    reveal_strlit("data: ");
    reveal_strlit("[DONE]");
    reveal_strlit("\n\n");
    assert(response::SENTINEL@ =~= response::frame(done()));
}

proof fn lemma_chunk_prefix(writer: WriterView, delta: DeltaView)
    ensures
        ({
            let head = "{\"id\":"@ + json::json_string(writer.id)
                + ",\"object\":\"chat.completion.chunk\",\"created\":"@ + text::decimal(
                writer.created as nat,
            ) + ",\"model\":"@ + json::json_string(writer.model)
                + ",\"choices\":[{\"index\":0,\"delta\":"@;
            let tail = ",\"finish_reason\":"@ + response::finish_json(None) + "}]"@
                + response::usage_member(None) + "}"@;
            writer.chunk(delta, None, None) == head + delta.json() + tail
        }),
{
    let head = "{\"id\":"@ + json::json_string(writer.id)
        + ",\"object\":\"chat.completion.chunk\",\"created\":"@ + text::decimal(
        writer.created as nat,
    ) + ",\"model\":"@ + json::json_string(writer.model)
        + ",\"choices\":[{\"index\":0,\"delta\":"@;
    let tail = ",\"finish_reason\":"@ + response::finish_json(None) + "}]"@
        + response::usage_member(None) + "}"@;
    assert(writer.chunk(delta, None, None) =~= head + delta.json() + tail);
}

/// The text of a piece can be told from its frame: two pieces that one writer
/// frames alike are the same piece.
pub proof fn token_frames_are_distinct(writer: WriterView, a: Seq<char>, b: Seq<char>)
    requires
        writer.token_frame(a) == writer.token_frame(b),
    ensures
        a == b,
{
    let x = writer.chunk(DeltaView::Content(a), None, None);
    let y = writer.chunk(DeltaView::Content(b), None, None);
    assert(x =~= writer.token_frame(a).subrange(
        "data: "@.len() as int,
        writer.token_frame(a).len() - "\n\n"@.len(),
    ));
    assert(y =~= writer.token_frame(b).subrange(
        "data: "@.len() as int,
        writer.token_frame(b).len() - "\n\n"@.len(),
    ));
    lemma_chunk_prefix(writer, DeltaView::Content(a));
    lemma_chunk_prefix(writer, DeltaView::Content(b));
    let head = "{\"id\":"@ + json::json_string(writer.id)
        + ",\"object\":\"chat.completion.chunk\",\"created\":"@ + text::decimal(
        writer.created as nat,
    ) + ",\"model\":"@ + json::json_string(writer.model)
        + ",\"choices\":[{\"index\":0,\"delta\":"@ + "{\"content\":"@;
    let ja = json::json_string(a);
    let jb = json::json_string(b);
    let suffix = x.len() - head.len() - ja.len();
    assert(ja =~= x.subrange(head.len() as int, x.len() - suffix));
    assert(jb =~= y.subrange(head.len() as int, y.len() - suffix));
    json::json_strings_are_distinct(a, b);
}

} // verus!
