//! What holds of every exchange.

use vstd::prelude::*;

use crate::engine::caller;
use crate::engine::event::EventView;
use crate::engine::pieces;
use crate::engine::Stop;
use crate::json;
use crate::json::values;
use crate::json::values::Json;
use crate::protocol::framing;
use crate::protocol::reading;
use crate::protocol::response;
use crate::protocol::response::{DeltaView, Usage, WriterView, SSE_CONTENT_TYPE};
use crate::worker::exchange;
use crate::worker::exchange::{ExchangeView, OutcomeView};
use crate::worker::reply;
use crate::worker::reply::{ActionView, Status};

verus! {

/// The token events of `texts`.
pub open spec fn tokens(texts: Seq<Seq<char>>) -> Seq<EventView> {
    texts.map_values(|text: Seq<char>| EventView::Token(text))
}

/// A generation that says `texts` and then ends with `last`.
pub open spec fn generation(texts: Seq<Seq<char>>, last: EventView) -> Seq<EventView> {
    tokens(texts).push(last)
}

/// The frames of `texts`, as body writes.
pub open spec fn token_writes(writer: WriterView, texts: Seq<Seq<char>>) -> Seq<ActionView> {
    texts.map_values(|text: Seq<char>| ActionView::Body(writer.token_frame(text)))
}

/// What is written to the body of a response.
pub open spec fn body_text(actions: Seq<ActionView>) -> Seq<char>
    decreases actions.len(),
{
    if actions.len() == 0 {
        Seq::empty()
    } else {
        match actions[0] {
            ActionView::Body(text) => text + body_text(actions.drop_first()),
            _ => body_text(actions.drop_first()),
        }
    }
}

/// A response is one head, then body frames, then one end.
pub open spec fn well_formed(actions: Seq<ActionView>) -> bool {
    &&& actions.len() >= 2
    &&& actions[0] is Start
    &&& actions.last() is Finish
    &&& forall|i: int| 0 < i < actions.len() - 1 ==> #[trigger] actions[i] is Body
}

proof fn lemma_streamed(x: ExchangeView, texts: Seq<Seq<char>>, last: EventView)
    requires
        x.stream,
        last.terminal(),
    ensures
        x.answer(generation(texts, last)) == token_writes(x.writer, texts) + x.writes(last),
    decreases texts.len(),
{
    let events = generation(texts, last);
    if texts.len() == 0 {
        assert(events =~= seq![last]);
        assert(token_writes(x.writer, texts) + x.writes(last) =~= x.writes(last));
    } else {
        let rest = texts.drop_first();
        assert(events.drop_first() =~= generation(rest, last));
        lemma_streamed(x, rest, last);
        assert(x.answer(events) =~= token_writes(x.writer, texts) + x.writes(last));
    }
}

proof fn lemma_buffered(x: ExchangeView, texts: Seq<Seq<char>>, last: EventView)
    requires
        !x.stream,
        last.terminal(),
    ensures
        x.answer(generation(texts, last)) == (ExchangeView {
            text: x.text + pieces::joined(texts),
            ..x
        }).writes(last),
    decreases texts.len(),
{
    let events = generation(texts, last);
    if texts.len() == 0 {
        assert(events =~= seq![last]);
        assert(x.text + pieces::joined(texts) =~= x.text);
    } else {
        let rest = texts.drop_first();
        let next = x.after(events[0]);
        assert(events.drop_first() =~= generation(rest, last));
        lemma_buffered(next, rest, last);
        pieces::lemma_joined_front(texts);
        assert(next.text + pieces::joined(rest) =~= x.text + pieces::joined(texts));
        assert(x.answer(events) =~= next.answer(generation(rest, last)));
    }
}

/// A streamed answer is the head, the opening frame, a frame for each piece in
/// order, and what the terminal event calls for.
pub proof fn a_stream_carries_every_piece_in_order(
    x: ExchangeView,
    texts: Seq<Seq<char>>,
    last: EventView,
)
    requires
        x.stream,
        last.terminal(),
    ensures
        x.transcript(generation(texts, last)) == seq![
            reply::start(Status::Success, SSE_CONTENT_TYPE@),
            ActionView::Body(x.writer.open_frame()),
        ] + token_writes(x.writer, texts) + x.writes(last),
{
    lemma_streamed(x, texts, last);
    assert(x.transcript(generation(texts, last)) =~= seq![
        reply::start(Status::Success, SSE_CONTENT_TYPE@),
        ActionView::Body(x.writer.open_frame()),
    ] + token_writes(x.writer, texts) + x.writes(last));
}

/// A buffered answer is one JSON body, and it carries the whole message: the
/// pieces joined, nothing lost and nothing added.
pub proof fn a_buffered_answer_carries_the_whole_message(
    x: ExchangeView,
    texts: Seq<Seq<char>>,
    stop: Stop,
    prompt_tokens: u32,
    tokens: u32,
    elapsed_ms: u64,
)
    requires
        !x.stream,
        x.text.len() == 0,
    ensures
        x.transcript(
            generation(texts, EventView::Done { stop, prompt_tokens, tokens, elapsed_ms }),
        ) == reply::spec_json_reply(
            Status::Success,
            x.writer.completion(
                pieces::joined(texts),
                stop,
                exchange::usage_of(prompt_tokens, tokens),
            ),
        ),
{
    let last = EventView::Done { stop, prompt_tokens, tokens, elapsed_ms };
    lemma_buffered(x, texts, last);
    assert(x.text + pieces::joined(texts) =~= pieces::joined(texts));
    let events = generation(texts, last);
    assert(x.transcript(events) =~= x.answer(events));
}

/// A generation that fails is answered all the same: with an error frame and
/// the sentinel where the stream is open, with a status and an error body
/// where nothing has been written yet.
pub proof fn a_failed_generation_is_answered(
    x: ExchangeView,
    texts: Seq<Seq<char>>,
    error: Seq<char>,
)
    ensures
        ({
            let written = x.transcript(generation(texts, EventView::Failed(error)));
            if x.stream {
                written == seq![
                    reply::start(Status::Success, SSE_CONTENT_TYPE@),
                    ActionView::Body(x.writer.open_frame()),
                ] + token_writes(x.writer, texts) + seq![
                    ActionView::Body(response::spec_error_frame(error)),
                    ActionView::Finish,
                ]
            } else {
                written == reply::spec_error_reply(Status::InternalServerError, error)
            }
        }),
{
    let last = EventView::Failed(error);
    if x.stream {
        a_stream_carries_every_piece_in_order(x, texts, last);
    } else {
        lemma_buffered(x, texts, last);
        assert(x.transcript(generation(texts, last)) =~= x.answer(generation(texts, last)));
    }
}

/// Whatever a generation says and however it ends, its caller gets one
/// response: a head, body frames, an end.
pub proof fn every_generation_gets_one_response(
    x: ExchangeView,
    texts: Seq<Seq<char>>,
    last: EventView,
)
    requires
        last.terminal(),
    ensures
        well_formed(x.transcript(generation(texts, last))),
{
    let written = x.transcript(generation(texts, last));
    if x.stream {
        a_stream_carries_every_piece_in_order(x, texts, last);
        let head = seq![
            reply::start(Status::Success, SSE_CONTENT_TYPE@),
            ActionView::Body(x.writer.open_frame()),
        ];
        let middle = token_writes(x.writer, texts);
        assert forall|i: int| 0 < i < written.len() - 1 implies #[trigger] written[i] is Body by {
            if 2 <= i < 2 + middle.len() {
                assert(written[i] == middle[i - 2]);
            } else if i >= 2 + middle.len() {
                assert(written[i] == x.writes(last)[i - 2 - middle.len()]);
            }
        }
        assert(written[0] == head[0]);
        assert(written.last() == x.writes(last).last());
    } else {
        lemma_buffered(x, texts, last);
        assert(written =~= x.answer(generation(texts, last)));
    }
}

/// The JSON payloads of a streamed answer whose last frames carry `end`.
pub open spec fn payloads(
    writer: WriterView,
    texts: Seq<Seq<char>>,
    end: Seq<Seq<char>>,
) -> Seq<Seq<char>> {
    seq![writer.chunk(DeltaView::Role, None, None)] + texts.map_values(
        |text: Seq<char>| writer.chunk(DeltaView::Content(text), None, None),
    ) + end
}

/// How a streamed answer that ends well ends: with the finish reason, and with
/// the counts where they were asked for.
pub open spec fn closing(x: ExchangeView, stop: Stop, usage: Usage) -> Seq<Seq<char>> {
    let usage = if x.include_usage {
        Some(usage)
    } else {
        None
    };
    seq![x.writer.chunk(DeltaView::Nothing, Some(stop), usage), framing::done()]
}

/// How a streamed answer that fails ends.
pub open spec fn failing(error: Seq<char>) -> Seq<Seq<char>> {
    seq![response::spec_error_body(error, "server_error"@), framing::done()]
}

proof fn lemma_body_text_split(a: Seq<ActionView>, b: Seq<ActionView>)
    ensures
        body_text(a + b) == body_text(a) + body_text(b),
    decreases a.len(),
{
    if a.len() == 0 {
        assert(a + b =~= b);
        assert(body_text(a) + body_text(b) =~= body_text(b));
    } else {
        assert((a + b).drop_first() =~= a.drop_first() + b);
        lemma_body_text_split(a.drop_first(), b);
        assert(body_text(a + b) =~= body_text(a) + body_text(b));
    }
}

proof fn lemma_framed_split(a: Seq<Seq<char>>, b: Seq<Seq<char>>)
    ensures
        framing::framed(a + b) == framing::framed(a) + framing::framed(b),
    decreases a.len(),
{
    if a.len() == 0 {
        assert(a + b =~= b);
        assert(framing::framed(a) + framing::framed(b) =~= framing::framed(b));
    } else {
        assert((a + b).drop_first() =~= a.drop_first() + b);
        lemma_framed_split(a.drop_first(), b);
        assert(framing::framed(a + b) =~= framing::framed(a) + framing::framed(b));
    }
}

proof fn lemma_token_writes_framed(writer: WriterView, texts: Seq<Seq<char>>)
    ensures
        body_text(token_writes(writer, texts)) == framing::framed(
            texts.map_values(
                |text: Seq<char>| writer.chunk(DeltaView::Content(text), None, None),
            ),
        ),
    decreases texts.len(),
{
    let chunks = texts.map_values(
        |text: Seq<char>| writer.chunk(DeltaView::Content(text), None, None),
    );
    let writes = token_writes(writer, texts);
    if texts.len() > 0 {
        let rest = texts.drop_first();
        assert(writes.drop_first() =~= token_writes(writer, rest));
        assert(chunks.drop_first() =~= rest.map_values(
            |text: Seq<char>| writer.chunk(DeltaView::Content(text), None, None),
        ));
        lemma_token_writes_framed(writer, rest);
    }
}

proof fn lemma_streams_are_read_back(
    x: ExchangeView,
    texts: Seq<Seq<char>>,
    last: EventView,
    end: Seq<Seq<char>>,
)
    requires
        x.stream,
        last.terminal(),
        body_text(x.writes(last)) == framing::framed(end),
        forall|i: int| 0 <= i < end.len() ==> json::printable(#[trigger] end[i]),
    ensures
        framing::read_frames(body_text(x.transcript(generation(texts, last)))) == Some(
            payloads(x.writer, texts, end),
        ),
{
    let writer = x.writer;
    let role = writer.chunk(DeltaView::Role, None, None);
    let chunks = texts.map_values(
        |text: Seq<char>| writer.chunk(DeltaView::Content(text), None, None),
    );
    let all = payloads(writer, texts, end);
    assert forall|i: int| 0 <= i < all.len() implies json::printable(#[trigger] all[i]) by {
        if i == 0 {
            framing::chunks_are_printable(writer, DeltaView::Role, None, None);
        } else if i <= texts.len() {
            assert(all[i] == chunks[i - 1]);
            framing::chunks_are_printable(writer, DeltaView::Content(texts[i - 1]), None, None);
        } else {
            assert(all[i] == end[i - 1 - texts.len()]);
        }
    }
    framing::frames_are_read_back(all);

    a_stream_carries_every_piece_in_order(x, texts, last);
    let head = seq![
        reply::start(Status::Success, SSE_CONTENT_TYPE@),
        ActionView::Body(writer.open_frame()),
    ];
    let middle = token_writes(writer, texts);
    lemma_body_text_split(head + middle, x.writes(last));
    lemma_body_text_split(head, middle);
    lemma_token_writes_framed(writer, texts);

    let first = seq![role];
    lemma_framed_split(first + chunks, end);
    lemma_framed_split(first, chunks);
    assert(body_text(head) =~= framing::framed(first)) by {
        reveal_with_fuel(body_text, 3);
        reveal_with_fuel(framing::framed, 2);
        assert(head.drop_first() =~= seq![ActionView::Body(writer.open_frame())]);
        assert(head.drop_first().drop_first() =~= Seq::<ActionView>::empty());
        assert(first.drop_first() =~= Seq::<Seq<char>>::empty());
    }
    assert(all =~= first + chunks + end);
}

proof fn lemma_last_two_frames(body: Seq<char>, payload: Seq<char>)
    requires
        body == response::frame(payload) + response::SENTINEL@,
    ensures
        body_text(seq![ActionView::Body(body), ActionView::Finish]) == framing::framed(
            seq![payload, framing::done()],
        ),
{
    let written = seq![ActionView::Body(body), ActionView::Finish];
    let end = seq![payload, framing::done()];
    framing::the_sentinel_is_a_frame();
    reveal_with_fuel(body_text, 3);
    reveal_with_fuel(framing::framed, 3);
    assert(written.drop_first() =~= seq![ActionView::Finish]);
    assert(written.drop_first().drop_first() =~= Seq::<ActionView>::empty());
    assert(end.drop_first() =~= seq![framing::done()]);
    assert(end.drop_first().drop_first() =~= Seq::<Seq<char>>::empty());
    assert(body_text(written) =~= framing::framed(end));
}

/// A client that reads a streamed answer gets back exactly its chunks: the one
/// with the role, one for each piece, the one with the finish reason, and the
/// sentinel last.
pub proof fn a_client_reads_the_stream_back(
    x: ExchangeView,
    texts: Seq<Seq<char>>,
    stop: Stop,
    prompt_tokens: u32,
    tokens: u32,
    elapsed_ms: u64,
)
    requires
        x.stream,
    ensures
        framing::read_frames(
            body_text(
                x.transcript(
                    generation(texts, EventView::Done { stop, prompt_tokens, tokens, elapsed_ms }),
                ),
            ),
        ) == Some(
            payloads(
                x.writer,
                texts,
                closing(x, stop, exchange::usage_of(prompt_tokens, tokens)),
            ),
        ),
{
    let last = EventView::Done { stop, prompt_tokens, tokens, elapsed_ms };
    let counts = exchange::usage_of(prompt_tokens, tokens);
    let usage = if x.include_usage {
        Some(counts)
    } else {
        None
    };
    let chunk = x.writer.chunk(DeltaView::Nothing, Some(stop), usage);
    framing::the_sentinel_is_a_frame();
    framing::chunks_are_printable(x.writer, DeltaView::Nothing, Some(stop), usage);
    lemma_last_two_frames(x.writer.close_frame(stop, usage) + response::SENTINEL@, chunk);
    lemma_streams_are_read_back(x, texts, last, closing(x, stop, counts));
}

/// A stream that breaks off is read back as well: after the pieces that came
/// through, the client finds the error, and the sentinel last.
pub proof fn a_client_reads_a_failed_stream_back(
    x: ExchangeView,
    texts: Seq<Seq<char>>,
    error: Seq<char>,
)
    requires
        x.stream,
    ensures
        framing::read_frames(
            body_text(x.transcript(generation(texts, EventView::Failed(error)))),
        ) == Some(payloads(x.writer, texts, failing(error))),
{
    let body = response::spec_error_body(error, "server_error"@);
    framing::the_sentinel_is_a_frame();
    framing::error_bodies_are_printable(error, "server_error"@);
    lemma_last_two_frames(response::spec_error_frame(error), body);
    lemma_streams_are_read_back(x, texts, EventView::Failed(error), failing(error));
}

/// The pieces of a generation that is complete.
pub open spec fn texts_of(events: Seq<EventView>) -> Seq<Seq<char>> {
    Seq::new(
        (events.len() - 1) as nat,
        |i: int|
            match events[i] {
                EventView::Token(text) => text,
                _ => Seq::empty(),
            },
    )
}

proof fn lemma_said_is_joined(events: Seq<EventView>)
    requires
        caller::all_tokens(events),
    ensures
        caller::said(events) == pieces::joined(
            Seq::new(
                events.len(),
                |i: int|
                    match events[i] {
                        EventView::Token(text) => text,
                        _ => Seq::empty(),
                    },
            ),
        ),
    decreases events.len(),
{
    let texts = Seq::new(
        events.len(),
        |i: int|
            match events[i] {
                EventView::Token(text) => text,
                _ => Seq::empty(),
            },
    );
    if events.len() > 0 {
        let earlier = events.drop_last();
        assert forall|i: int| 0 <= i < earlier.len() implies #[trigger] earlier[i] is Token by {
            assert(events[i] is Token);
        }
        lemma_said_is_joined(earlier);
        assert(texts.drop_last() =~= Seq::new(
            earlier.len(),
            |i: int|
                match earlier[i] {
                    EventView::Token(text) => text,
                    _ => Seq::empty(),
                },
        ));
    }
}

pub proof fn lemma_complete_is_a_generation(events: Seq<EventView>)
    requires
        caller::complete(events),
    ensures
        events == generation(texts_of(events), events.last()),
        pieces::joined(texts_of(events)) == caller::said(events),
{
    let said = events.drop_last();
    let texts = texts_of(events);
    let whole = generation(texts, events.last());
    assert forall|i: int| 0 <= i < events.len() implies #[trigger] events[i] == whole[i] by {
        if i < said.len() {
            assert(said[i] is Token);
        }
    }
    assert(events =~= whole);
    lemma_said_is_joined(said);
    assert(texts =~= Seq::new(
        said.len(),
        |i: int|
            match said[i] {
                EventView::Token(text) => text,
                _ => Seq::empty(),
            },
    ));
    assert(events == said.push(events.last()));
    assert(caller::said(events) =~= caller::said(said));
}

/// What the engine tells a caller is what the caller's client is told. From
/// the events of a generation that is complete, a buffered answer carries their
/// text as one message; a streamed one reads back as a chunk for each piece,
/// and the pieces join to the same text.
pub proof fn a_client_is_told_what_the_caller_heard(x: ExchangeView, events: Seq<EventView>)
    requires
        caller::complete(events),
        events.last() is Done,
        x.text.len() == 0,
    ensures
        events.last() matches EventView::Done { stop, prompt_tokens, tokens, elapsed_ms } && ({
            let usage = exchange::usage_of(prompt_tokens, tokens);
            if x.stream {
                &&& framing::read_frames(body_text(x.transcript(events))) == Some(
                    payloads(x.writer, texts_of(events), closing(x, stop, usage)),
                )
                &&& pieces::joined(texts_of(events)) == caller::said(events)
            } else {
                x.transcript(events) == reply::spec_json_reply(
                    Status::Success,
                    x.writer.completion(caller::said(events), stop, usage),
                )
            }
        }),
{
    lemma_complete_is_a_generation(events);
    let texts = texts_of(events);
    if let EventView::Done { stop, prompt_tokens, tokens, elapsed_ms } = events.last() {
        if x.stream {
            a_client_reads_the_stream_back(x, texts, stop, prompt_tokens, tokens, elapsed_ms);
        } else {
            a_buffered_answer_carries_the_whole_message(
                x,
                texts,
                stop,
                prompt_tokens,
                tokens,
                elapsed_ms,
            );
        }
    }
}

/// Why an answer ended, as its client reads it.
pub open spec fn reason_read(v: Option<Json>) -> Option<Json> {
    values::at(values::nth(values::at(v, "choices"@), 0), "finish_reason"@)
}

/// What one chunk of a stream adds, as its client reads it.
pub open spec fn delta_read(payload: Seq<char>) -> Option<Json> {
    values::at(values::nth(values::at(values::read(payload), "choices"@), 0), "delta"@)
}

/// Whether `v` has the name and the model of `writer`, and its time.
pub open spec fn signed_by(v: Option<Json>, writer: WriterView) -> bool {
    &&& values::at(v, "id"@) == Some(Json::Text(writer.id))
    &&& values::at(v, "model"@) == Some(Json::Text(writer.model))
    &&& values::at(v, "created"@) == Some(Json::Number(writer.created as nat))
}

/// Whether `counts` are the tokens of the prompt, those of the answer, and both
/// together.
pub open spec fn counted(counts: Option<Json>, prompt_tokens: u32, tokens: u32) -> bool {
    &&& values::at(counts, "prompt_tokens"@) == Some(Json::Number(prompt_tokens as nat))
    &&& values::at(counts, "completion_tokens"@) == Some(Json::Number(tokens as nat))
    &&& values::at(counts, "total_tokens"@) == Some(Json::Number((prompt_tokens + tokens) as nat))
}

/// What the client of a buffered answer reads: one JSON body under a head that
/// says so, with everything the engine said as its message, the reason it ended,
/// and its counts.
pub proof fn a_buffered_client_reads_the_answer(
    x: ExchangeView,
    texts: Seq<Seq<char>>,
    stop: Stop,
    prompt_tokens: u32,
    tokens: u32,
    elapsed_ms: u64,
)
    requires
        !x.stream,
        x.text.len() == 0,
        prompt_tokens + tokens <= u32::MAX,
    ensures
        ({
            let written = x.transcript(
                generation(texts, EventView::Done { stop, prompt_tokens, tokens, elapsed_ms }),
            );
            let v = values::read(written[1]->Body_0);
            let message = values::at(
                values::nth(values::at(v, "choices"@), 0),
                "message"@,
            );
            &&& written.len() == 3
            &&& written[0] == ActionView::Start {
                status: Status::Success,
                content_type: "application/json"@,
                cache_control: "no-store"@,
            }
            &&& written[1] is Body
            &&& written[2] is Finish
            &&& signed_by(v, x.writer)
            &&& values::at(v, "object"@) == Some(Json::Text("chat.completion"@))
            &&& values::at(message, "role"@) == Some(Json::Text("assistant"@))
            &&& values::at(message, "content"@) == Some(Json::Text(pieces::joined(texts)))
            &&& reason_read(v) == Some(
                Json::Text(
                    if stop == Stop::Limit || stop == Stop::ContextFull {
                        "length"@
                    } else {
                        "stop"@
                    },
                ),
            )
            &&& counted(values::at(v, "usage"@), prompt_tokens, tokens)
        }),
{
    a_buffered_answer_carries_the_whole_message(
        x,
        texts,
        stop,
        prompt_tokens,
        tokens,
        elapsed_ms,
    );
    reading::a_client_reads_a_completion(
        x.writer,
        pieces::joined(texts),
        stop,
        exchange::usage_of(prompt_tokens, tokens),
    );
}

/// What the client of a streamed answer reads, frame by frame, under a head that
/// says so: who speaks, each piece as it was said, the reason it ended, with the
/// counts where they were asked for and only there, and the sentinel.
pub proof fn a_streaming_client_reads_the_answer(
    x: ExchangeView,
    texts: Seq<Seq<char>>,
    stop: Stop,
    prompt_tokens: u32,
    tokens: u32,
    elapsed_ms: u64,
)
    requires
        x.stream,
        prompt_tokens + tokens <= u32::MAX,
    ensures
        ({
            let written = x.transcript(
                generation(texts, EventView::Done { stop, prompt_tokens, tokens, elapsed_ms }),
            );
            let frames = framing::read_frames(body_text(written)).unwrap();
            let n = texts.len() as int;
            let last = values::read(frames[n + 1]);
            &&& written[0] == ActionView::Start {
                status: Status::Success,
                content_type: "text/event-stream; charset=utf-8"@,
                cache_control: "no-store"@,
            }
            &&& framing::read_frames(body_text(written)) is Some
            &&& frames.len() == n + 3
            &&& forall|i: int|
                0 <= i < n + 2 ==> signed_by(values::read(#[trigger] frames[i]), x.writer)
            &&& values::at(delta_read(frames[0]), "role"@) == Some(Json::Text("assistant"@))
            &&& forall|i: int|
                0 <= i < n ==> values::at(delta_read(#[trigger] frames[i + 1]), "content"@) == Some(
                    Json::Text(texts[i]),
                )
            &&& forall|i: int|
                0 <= i <= n ==> reason_read(values::read(#[trigger] frames[i])) == Some(Json::Null)
            &&& delta_read(frames[n + 1]) is Some
            &&& values::at(delta_read(frames[n + 1]), "content"@) is None
            &&& reason_read(last) == Some(
                Json::Text(
                    if stop == Stop::Limit || stop == Stop::ContextFull {
                        "length"@
                    } else {
                        "stop"@
                    },
                ),
            )
            &&& if x.include_usage {
                counted(values::at(last, "usage"@), prompt_tokens, tokens)
            } else {
                values::at(last, "usage"@) is None
            }
            &&& frames[n + 2] == "[DONE]"@
        }),
{
    let last = EventView::Done { stop, prompt_tokens, tokens, elapsed_ms };
    let usage = exchange::usage_of(prompt_tokens, tokens);
    let reported = if x.include_usage {
        Some(usage)
    } else {
        None
    };
    a_stream_carries_every_piece_in_order(x, texts, last);
    a_client_reads_the_stream_back(x, texts, stop, prompt_tokens, tokens, elapsed_ms);
    let n = texts.len() as int;
    let frames = payloads(x.writer, texts, closing(x, stop, usage));
    assert(frames[0] == x.writer.chunk(DeltaView::Role, None, None));
    assert forall|i: int| 0 <= i < n implies #[trigger] frames[i + 1] == x.writer.chunk(
        DeltaView::Content(texts[i]),
        None,
        None,
    ) by {}
    assert(frames[n + 1] == x.writer.chunk(DeltaView::Nothing, Some(stop), reported));
    reading::a_client_reads_the_opening_chunk(x.writer);
    reading::a_client_reads_the_closing_chunk(x.writer, stop, reported);
    assert forall|i: int| 0 <= i < n implies {
        &&& signed_by(values::read(#[trigger] frames[i + 1]), x.writer)
        &&& values::at(delta_read(frames[i + 1]), "content"@) == Some(Json::Text(texts[i]))
        &&& reason_read(values::read(frames[i + 1])) == Some(Json::Null)
    } by {
        reading::a_client_reads_a_piece(x.writer, texts[i]);
    }
    assert forall|i: int| 0 <= i < n + 2 implies signed_by(
        values::read(#[trigger] frames[i]),
        x.writer,
    ) by {
        if 0 < i <= n {
            assert(signed_by(values::read(frames[(i - 1) + 1]), x.writer));
        }
    }
    assert forall|i: int| 0 <= i <= n implies reason_read(values::read(#[trigger] frames[i]))
        == Some(Json::Null) by {
        if 0 < i {
            assert(reason_read(values::read(frames[(i - 1) + 1])) == Some(Json::Null));
        }
    }
}

/// Whether `v` says that `message` went wrong, and of what kind that is.
pub open spec fn says_error(v: Option<Json>, message: Seq<char>, kind: Seq<char>) -> bool {
    &&& values::at(values::at(v, "error"@), "message"@) == Some(Json::Text(message))
    &&& values::at(values::at(v, "error"@), "type"@) == Some(Json::Text(kind))
}

/// What the client of a failed generation reads. A buffered one gets a status
/// that says so and the error; one that is streaming already gets the error
/// behind the pieces that came through, and the sentinel.
pub proof fn a_client_reads_the_failure(
    x: ExchangeView,
    texts: Seq<Seq<char>>,
    error: Seq<char>,
)
    ensures
        ({
            let written = x.transcript(generation(texts, EventView::Failed(error)));
            let frames = framing::read_frames(body_text(written)).unwrap();
            let n = texts.len() as int;
            if x.stream {
                &&& written[0] == ActionView::Start {
                    status: Status::Success,
                    content_type: "text/event-stream; charset=utf-8"@,
                    cache_control: "no-store"@,
                }
                &&& framing::read_frames(body_text(written)) is Some
                &&& frames.len() == n + 3
                &&& forall|i: int|
                    0 <= i < n ==> values::at(delta_read(#[trigger] frames[i + 1]), "content"@)
                        == Some(Json::Text(texts[i]))
                &&& says_error(values::read(frames[n + 1]), error, "server_error"@)
                &&& frames[n + 2] == "[DONE]"@
            } else {
                &&& written.len() == 3
                &&& written[0] == ActionView::Start {
                    status: Status::InternalServerError,
                    content_type: "application/json"@,
                    cache_control: "no-store"@,
                }
                &&& written[1] matches ActionView::Body(body) && says_error(
                    values::read(body),
                    error,
                    "server_error"@,
                )
                &&& written[2] is Finish
            }
        }),
{
    a_failed_generation_is_answered(x, texts, error);
    reading::a_client_reads_an_error(error, "server_error"@);
    if x.stream {
        a_client_reads_a_failed_stream_back(x, texts, error);
        let n = texts.len() as int;
        let frames = payloads(x.writer, texts, failing(error));
        assert(frames[n + 1] == response::spec_error_body(error, "server_error"@));
        assert forall|i: int| 0 <= i < n implies values::at(
            delta_read(#[trigger] frames[i + 1]),
            "content"@,
        ) == Some(Json::Text(texts[i])) by {
            reading::a_client_reads_a_piece(x.writer, texts[i]);
            assert(frames[i + 1] == x.writer.chunk(DeltaView::Content(texts[i]), None, None));
        }
    }
}

/// What a client reads that is answered with an error before anything else: a
/// status of its own, a JSON head, what went wrong, and of what kind it is.
pub proof fn a_client_reads_an_error_reply(status: Status, message: Seq<char>)
    ensures
        ({
            let written = reply::spec_error_reply(status, message);
            let kind = match status {
                Status::BadRequest => "invalid_request_error"@,
                Status::ServiceUnavailable => "overloaded_error"@,
                Status::InternalServerError => "server_error"@,
                Status::Success => "server_error"@,
            };
            &&& written.len() == 3
            &&& written[0] == ActionView::Start {
                status,
                content_type: "application/json"@,
                cache_control: "no-store"@,
            }
            &&& written[1] matches ActionView::Body(body) && says_error(
                values::read(body),
                message,
                kind,
            )
            &&& written[2] is Finish
        }),
{
    reading::a_client_reads_an_error(message, reply::spec_error_kind(status));
}

/// A job goes on while pieces come, is served once the engine is done, and has
/// failed with the engine's own words where the engine failed.
pub proof fn a_job_ends_as_its_generation_does(
    x: ExchangeView,
    text: Seq<char>,
    stop: Stop,
    prompt_tokens: u32,
    tokens: u32,
    elapsed_ms: u64,
)
    ensures
        x.ending(EventView::Token(text)) is None,
        x.ending(EventView::Done { stop, prompt_tokens, tokens, elapsed_ms }) == Some(
            OutcomeView::Served,
        ),
        x.ending(EventView::Failed(text)) == Some(OutcomeView::Failed(text)),
{
}

} // verus!
