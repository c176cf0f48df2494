//! What a client reads out of an answer.

use vstd::prelude::*;

use crate::engine::Stop;
use crate::json;
use crate::json::values;
use crate::json::values::Json;
use crate::protocol::response;
use crate::protocol::response::{DeltaView, Usage, WriterView};
use crate::text;

verus! {

/// The two texts are one.
spec fn same(a: Seq<char>, b: Seq<char>) -> bool {
    a == b
}

/// Counts, as a value.
spec fn usage_value(usage: Usage) -> Json {
    Json::Object(
        seq![
            ("prompt_tokens"@, Json::Number(usage.prompt_tokens as nat)),
            ("completion_tokens"@, Json::Number(usage.completion_tokens as nat)),
            ("total_tokens"@, Json::Number(usage.total_tokens as nat)),
        ],
    )
}

proof fn lemma_usage_text(usage: Usage)
    ensures
        usage_value(usage).text() == usage.json(),
{
    let p = Json::Number(usage.prompt_tokens as nat);
    let c = Json::Number(usage.completion_tokens as nat);
    let t = Json::Number(usage.total_tokens as nat);
    reveal_strlit("prompt_tokens");
    reveal_strlit("completion_tokens");
    reveal_strlit("total_tokens");
    reveal_strlit("{\"prompt_tokens\":");
    reveal_strlit(",\"completion_tokens\":");
    reveal_strlit(",\"total_tokens\":");
    reveal_strlit("}");
    values::lemma_plain("prompt_tokens"@);
    values::lemma_plain("completion_tokens"@);
    values::lemma_plain("total_tokens"@);
    assert("{\"prompt_tokens\":"@ =~= seq!['{'] + json::json_string("prompt_tokens"@) + seq![':']);
    assert(",\"completion_tokens\":"@ =~= seq![','] + json::json_string("completion_tokens"@)
        + seq![':']);
    assert(",\"total_tokens\":"@ =~= seq![','] + json::json_string("total_tokens"@) + seq![':']);
    assert("}"@ =~= seq!['}']);
    let m3 = seq![("total_tokens"@, t)];
    let m2 = seq![("completion_tokens"@, c)] + m3;
    let m1 = seq![("prompt_tokens"@, p)] + m2;
    values::lemma_one_member("total_tokens"@, t);
    values::lemma_first_member("completion_tokens"@, c, m3);
    values::lemma_first_member("prompt_tokens"@, p, m2);
    assert(usage_value(usage) == Json::Object(m1)) by {
        assert(m1 =~= seq![
            ("prompt_tokens"@, p),
            ("completion_tokens"@, c),
            ("total_tokens"@, t),
        ]);
    }
    assert(usage_value(usage).text() =~= usage.json());
}

/// What a chunk adds, as a value.
spec fn delta_value(delta: DeltaView) -> Json {
    match delta {
        DeltaView::Role => Json::Object(seq![("role"@, Json::Text("assistant"@))]),
        DeltaView::Content(text) => Json::Object(seq![("content"@, Json::Text(text))]),
        DeltaView::Nothing => Json::Object(Seq::empty()),
    }
}

proof fn lemma_delta_text(delta: DeltaView)
    ensures
        delta_value(delta).text() == delta.json(),
{
    reveal_strlit("role");
    reveal_strlit("assistant");
    reveal_strlit("content");
    reveal_strlit("{\"role\":\"assistant\"}");
    reveal_strlit("{\"content\":");
    reveal_strlit("}");
    reveal_strlit("{}");
    values::lemma_plain("role"@);
    values::lemma_plain("assistant"@);
    values::lemma_plain("content"@);
    match delta {
        DeltaView::Role => {
            values::lemma_one_member("role"@, Json::Text("assistant"@));
            assert(delta_value(delta).text() =~= delta.json());
        },
        DeltaView::Content(text) => {
            values::lemma_one_member("content"@, Json::Text(text));
            assert("{\"content\":"@ =~= seq!['{'] + json::json_string("content"@) + seq![':']);
            assert("}"@ =~= seq!['}']);
            assert(delta_value(delta).text() =~= delta.json());
        },
        DeltaView::Nothing => {
            assert(delta_value(delta).text() =~= delta.json());
        },
    }
}

/// The reason a generation stopped, as clients spell it.
spec fn reason(stop: Stop) -> Seq<char> {
    if stop == Stop::Limit || stop == Stop::ContextFull {
        "length"@
    } else {
        "stop"@
    }
}

/// The reason of a chunk, as a value.
spec fn finish_value(stop: Option<Stop>) -> Json {
    match stop {
        Some(stop) => Json::Text(reason(stop)),
        None => Json::Null,
    }
}

proof fn lemma_finish_text(stop: Option<Stop>)
    ensures
        finish_value(stop).text() == response::finish_json(stop),
{
    reveal_strlit("null");
    assert("null"@ =~= seq!['n', 'u', 'l', 'l']);
}

/// The only choice of a chunk, as a value.
spec fn choice_value(delta: DeltaView, stop: Option<Stop>) -> Json {
    Json::Object(
        seq![
            ("index"@, Json::Number(0)),
            ("delta"@, delta_value(delta)),
            ("finish_reason"@, finish_value(stop)),
        ],
    )
}

proof fn lemma_choice_text(delta: DeltaView, stop: Option<Stop>)
    ensures
        choice_value(delta, stop).text() == seq!['{'] + json::json_string("index"@) + seq![':'] + seq!['0'] + seq![','] + json::json_string("delta"@) + seq![':'] + delta.json() + seq![','] + json::json_string(
            "finish_reason"@,
        ) + seq![':'] + response::finish_json(stop) + seq!['}'],
{
    let m3 = seq![("finish_reason"@, finish_value(stop))];
    let m2 = seq![("delta"@, delta_value(delta))] + m3;
    let m1 = seq![("index"@, Json::Number(0))] + m2;
    lemma_delta_text(delta);
    lemma_finish_text(stop);
    values::lemma_one_member("finish_reason"@, finish_value(stop));
    values::lemma_first_member("delta"@, delta_value(delta), m3);
    values::lemma_first_member("index"@, Json::Number(0), m2);
    assert(m1 =~= seq![
        ("index"@, Json::Number(0)),
        ("delta"@, delta_value(delta)),
        ("finish_reason"@, finish_value(stop)),
    ]);
    assert(Json::Number(0).text() =~= seq!['0']);
    assert(choice_value(delta, stop).text() =~= seq!['{'] + json::json_string("index"@) + seq![':'] + seq!['0'] + seq![','] + json::json_string("delta"@) + seq![':'] + delta.json() + seq![','] + json::json_string(
        "finish_reason"@,
    ) + seq![':'] + response::finish_json(stop) + seq!['}']);
}

/// The members that all answers begin with.
spec fn opening(writer: WriterView, object: Seq<char>, choice: Json) -> Seq<(Seq<char>, Json)> {
    seq![
        ("id"@, Json::Text(writer.id)),
        ("object"@, Json::Text(object)),
        ("created"@, Json::Number(writer.created as nat)),
        ("model"@, Json::Text(writer.model)),
        ("choices"@, Json::List(seq![choice])),
    ]
}

/// How those members are written.
spec fn opening_text(writer: WriterView, object: Seq<char>, choice: Seq<char>) -> Seq<char> {
    json::json_string("id"@) + seq![':'] + json::json_string(writer.id) + seq![',']
        + json::json_string("object"@) + seq![':'] + json::json_string(object) + seq![',']
        + json::json_string("created"@) + seq![':'] + text::decimal(writer.created as nat) + seq![
        ',',
    ] + json::json_string("model"@) + seq![':'] + json::json_string(writer.model) + seq![',']
        + json::json_string("choices"@) + seq![':'] + seq!['['] + choice + seq![']']
}

/// Five members in a row, and `rest` behind them.
#[verifier::rlimit(40)]
proof fn lemma_five_members(
    writer: WriterView,
    object: Seq<char>,
    choice: Seq<char>,
    rest: Seq<char>,
)
    ensures
        ({
            let choices = values::member_text("choices"@, seq!['['] + choice + seq![']']) + rest;
            let model = values::member_text("model"@, json::json_string(writer.model)) + seq![',']
                + choices;
            let created = values::member_text(
                "created"@,
                text::decimal(writer.created as nat),
            ) + seq![','] + model;
            let kind = values::member_text("object"@, json::json_string(object)) + seq![',']
                + created;
            values::member_text("id"@, json::json_string(writer.id)) + seq![','] + kind
                == opening_text(writer, object, choice) + rest
        }),
{
    broadcast use values::texts_are_put_together_in_any_order;

}

#[verifier::rlimit(40)]
proof fn lemma_opening_text(
    writer: WriterView,
    object: Seq<char>,
    choice: Json,
    usage: Option<Usage>,
)
    ensures
        ({
            let members = match usage {
                Some(usage) => opening(writer, object, choice).push(
                    ("usage"@, usage_value(usage)),
                ),
                None => opening(writer, object, choice),
            };
            Json::Object(members).text() == seq!['{'] + (opening_text(
                writer,
                object,
                choice.text(),
            ) + match usage {
                Some(usage) => seq![','] + (json::json_string("usage"@) + seq![':']
                    + usage.json()),
                None => Seq::empty(),
            }) + seq!['}']
        }),
{
    let id = Json::Text(writer.id);
    let kind = Json::Text(object);
    let created = Json::Number(writer.created as nat);
    let model = Json::Text(writer.model);
    let choices = Json::List(seq![choice]);
    values::lemma_one_item(choice);
    let m5 = match usage {
        Some(usage) => seq![("choices"@, choices)] + seq![("usage"@, usage_value(usage))],
        None => seq![("choices"@, choices)],
    };
    let rest: Seq<char> = match usage {
        Some(usage) => seq![','] + (json::json_string("usage"@) + seq![':'] + usage.json()),
        None => Seq::empty(),
    };
    let m4 = seq![("model"@, model)] + m5;
    let m3 = seq![("created"@, created)] + m4;
    let m2 = seq![("object"@, kind)] + m3;
    let m1 = seq![("id"@, id)] + m2;
    assert(m1 == match usage {
        Some(usage) => opening(writer, object, choice).push(("usage"@, usage_value(usage))),
        None => opening(writer, object, choice),
    }) by {
        match usage {
            Some(usage) => {
                assert(m1 =~= opening(writer, object, choice).push(("usage"@, usage_value(usage))));
            },
            None => {
                assert(m1 =~= opening(writer, object, choice));
            },
        }
    }
    let list = values::member_text("choices"@, seq!['['] + choice.text() + seq![']']);
    assert(values::members_text(m5) == list + rest) by {
        match usage {
            Some(usage) => {
                lemma_usage_text(usage);
                values::lemma_one_member("usage"@, usage_value(usage));
                values::lemma_first_member(
                    "choices"@,
                    choices,
                    seq![("usage"@, usage_value(usage))],
                );
                values::texts_are_put_together_in_any_order(
                    list,
                    seq![','],
                    json::json_string("usage"@) + seq![':'] + usage.json(),
                );
            },
            None => {
                values::lemma_one_member("choices"@, choices);
                assert(list + rest =~= list);
            },
        }
    }
    values::lemma_first_member("model"@, model, m5);
    values::lemma_first_member("created"@, created, m4);
    values::lemma_first_member("object"@, kind, m3);
    values::lemma_first_member("id"@, id, m2);
    lemma_five_members(writer, object, choice.text(), rest);
}

proof fn lemma_names()
    ensures
        json::json_string("id"@) == seq!['"'] + "id"@ + seq!['"'],
        json::json_string("object"@) == seq!['"'] + "object"@ + seq!['"'],
        json::json_string("created"@) == seq!['"'] + "created"@ + seq!['"'],
        json::json_string("model"@) == seq!['"'] + "model"@ + seq!['"'],
        json::json_string("choices"@) == seq!['"'] + "choices"@ + seq!['"'],
        json::json_string("usage"@) == seq!['"'] + "usage"@ + seq!['"'],
        json::json_string("index"@) == seq!['"'] + "index"@ + seq!['"'],
        json::json_string("delta"@) == seq!['"'] + "delta"@ + seq!['"'],
        json::json_string("message"@) == seq!['"'] + "message"@ + seq!['"'],
        json::json_string("role"@) == seq!['"'] + "role"@ + seq!['"'],
        json::json_string("content"@) == seq!['"'] + "content"@ + seq!['"'],
        json::json_string("assistant"@) == seq!['"'] + "assistant"@ + seq!['"'],
        json::json_string("finish_reason"@) == seq!['"'] + "finish_reason"@ + seq!['"'],
        json::json_string("chat.completion"@) == seq!['"'] + "chat.completion"@ + seq!['"'],
        json::json_string("chat.completion.chunk"@) == seq!['"'] + "chat.completion.chunk"@ + seq![
            '"',
        ],
{
    reveal_strlit("id");
    reveal_strlit("object");
    reveal_strlit("created");
    reveal_strlit("model");
    reveal_strlit("choices");
    reveal_strlit("usage");
    reveal_strlit("index");
    reveal_strlit("delta");
    reveal_strlit("message");
    reveal_strlit("role");
    reveal_strlit("content");
    reveal_strlit("assistant");
    reveal_strlit("finish_reason");
    reveal_strlit("chat.completion");
    reveal_strlit("chat.completion.chunk");
    values::lemma_plain("id"@);
    values::lemma_plain("object"@);
    values::lemma_plain("created"@);
    values::lemma_plain("model"@);
    values::lemma_plain("choices"@);
    values::lemma_plain("usage"@);
    values::lemma_plain("index"@);
    values::lemma_plain("delta"@);
    values::lemma_plain("message"@);
    values::lemma_plain("role"@);
    values::lemma_plain("content"@);
    values::lemma_plain("assistant"@);
    values::lemma_plain("finish_reason"@);
    values::lemma_plain("chat.completion"@);
    values::lemma_plain("chat.completion.chunk"@);
}

proof fn lemma_chunk_fragments()
    ensures
        "{\"id\":"@ == seq!['{'] + json::json_string("id"@) + seq![':'],
        ",\"object\":\"chat.completion.chunk\",\"created\":"@ == seq![','] + json::json_string(
            "object"@,
        ) + seq![':'] + json::json_string("chat.completion.chunk"@) + seq![',']
            + json::json_string("created"@) + seq![':'],
        ",\"model\":"@ == seq![','] + json::json_string("model"@) + seq![':'],
        ",\"choices\":[{\"index\":0,\"delta\":"@ == seq![','] + json::json_string("choices"@)
            + seq![':'] + seq!['['] + seq!['{'] + json::json_string("index"@) + seq![':'] + seq!['0'] + seq![',']
            + json::json_string("delta"@) + seq![':'],
        ",\"finish_reason\":"@ == seq![','] + json::json_string("finish_reason"@) + seq![':'],
        "}]"@ == seq!['}'] + seq![']'],
        ",\"usage\":"@ == seq![','] + json::json_string("usage"@) + seq![':'],
        "}"@ == seq!['}'],
{
    lemma_names();
    reveal_strlit("id");
    reveal_strlit("object");
    reveal_strlit("created");
    reveal_strlit("model");
    reveal_strlit("choices");
    reveal_strlit("usage");
    reveal_strlit("index");
    reveal_strlit("delta");
    reveal_strlit("finish_reason");
    reveal_strlit("chat.completion.chunk");
    reveal_strlit("{\"id\":");
    reveal_strlit(",\"object\":\"chat.completion.chunk\",\"created\":");
    reveal_strlit(",\"model\":");
    reveal_strlit(",\"choices\":[{\"index\":0,\"delta\":");
    reveal_strlit(",\"finish_reason\":");
    reveal_strlit("}]");
    reveal_strlit(",\"usage\":");
    reveal_strlit("}");
}

/// A chunk, as a value.
spec fn chunk_value(
    writer: WriterView,
    delta: DeltaView,
    stop: Option<Stop>,
    usage: Option<Usage>,
) -> Json {
    let members = opening(writer, "chat.completion.chunk"@, choice_value(delta, stop));
    match usage {
        Some(usage) => Json::Object(members.push(("usage"@, usage_value(usage)))),
        None => Json::Object(members),
    }
}

#[verifier::rlimit(40)]
proof fn lemma_chunk_text(
    writer: WriterView,
    delta: DeltaView,
    stop: Option<Stop>,
    usage: Option<Usage>,
)
    ensures
        same(
            chunk_value(writer, delta, stop, usage).text(),
            writer.chunk(delta, stop, usage),
        ),
{
    broadcast use values::texts_are_put_together_in_any_order;

    lemma_chunk_fragments();
    lemma_choice_text(delta, stop);
    lemma_opening_text(writer, "chat.completion.chunk"@, choice_value(delta, stop), usage);
    match usage {
        Some(usage) => {},
        None => {},
    }
}

/// The only choice of a whole answer, as a value.
spec fn message_choice(text: Seq<char>, stop: Stop) -> Json {
    Json::Object(
        seq![
            ("index"@, Json::Number(0)),
            (
                "message"@,
                Json::Object(
                    seq![("role"@, Json::Text("assistant"@)), ("content"@, Json::Text(text))],
                ),
            ),
            ("finish_reason"@, Json::Text(reason(stop))),
        ],
    )
}

proof fn lemma_message_choice_shape(
    index: Seq<char>,
    zero: Seq<char>,
    message: Seq<char>,
    role: Seq<char>,
    who: Seq<char>,
    content: Seq<char>,
    text: Seq<char>,
    finish: Seq<char>,
    why: Seq<char>,
)
    ensures
        same(
            seq!['{'] + (index + seq![':'] + zero + seq![','] + (message + seq![':'] + (seq!['{']
                + (role + seq![':'] + who + seq![','] + (content + seq![':'] + text)) + seq!['}'])
                + seq![','] + (finish + seq![':'] + why))) + seq!['}'],
            seq!['{'] + index + seq![':'] + zero + seq![','] + message + seq![':'] + seq!['{']
                + role + seq![':'] + who + seq![','] + content + seq![':'] + text + seq!['}']
                + seq![','] + finish + seq![':'] + why + seq!['}'],
        ),
{
    broadcast use values::texts_are_put_together_in_any_order;

}

#[verifier::rlimit(40)]
proof fn lemma_completion_shape(
    id: Seq<char>,
    named: Seq<char>,
    object: Seq<char>,
    kind: Seq<char>,
    created: Seq<char>,
    at: Seq<char>,
    model: Seq<char>,
    called: Seq<char>,
    choices: Seq<char>,
    before: Seq<char>,
    text: Seq<char>,
    between: Seq<char>,
    why: Seq<char>,
    usage: Seq<char>,
    counts: Seq<char>,
)
    ensures
        ({
            let choice = before + text + between + why + seq!['}'];
            let opening = id + seq![':'] + named + seq![','] + object + seq![':'] + kind + seq![',']
                + created + seq![':'] + at + seq![','] + model + seq![':'] + called + seq![',']
                + choices + seq![':'] + seq!['['] + choice + seq![']'];
            same(
                seq!['{'] + (opening + (seq![','] + (usage + seq![':'] + counts))) + seq!['}'],
                (seq!['{'] + id + seq![':']) + named + (seq![','] + object + seq![':'] + kind
                    + seq![','] + created + seq![':']) + at + (seq![','] + model + seq![':'])
                    + called + (seq![','] + choices + seq![':'] + seq!['['] + before) + text
                    + between + why + (seq!['}'] + seq![']'] + seq![','] + usage + seq![':'])
                    + counts + seq!['}'],
            )
        }),
{
    broadcast use values::texts_are_put_together_in_any_order;

}

proof fn lemma_message_choice_text(text: Seq<char>, stop: Stop)
    ensures
        same(
            message_choice(text, stop).text(),
            seq!['{'] + json::json_string("index"@) + seq![':'] + seq!['0'] + seq![',']
                + json::json_string("message"@) + seq![':'] + seq!['{'] + json::json_string(
                "role"@,
            ) + seq![':'] + json::json_string("assistant"@) + seq![','] + json::json_string(
                "content"@,
            ) + seq![':'] + json::json_string(text) + seq!['}'] + seq![','] + json::json_string(
                "finish_reason"@,
            ) + seq![':'] + json::json_string(reason(stop)) + seq!['}'],
        ),
{
    let role = Json::Text("assistant"@);
    let content = Json::Text(text);
    let said = seq![("role"@, role)] + seq![("content"@, content)];
    let message = Json::Object(said);
    let finish = Json::Text(reason(stop));
    let m3 = seq![("finish_reason"@, finish)];
    let m2 = seq![("message"@, message)] + m3;
    let m1 = seq![("index"@, Json::Number(0))] + m2;
    values::lemma_one_member("content"@, content);
    values::lemma_first_member("role"@, role, seq![("content"@, content)]);
    values::lemma_one_member("finish_reason"@, finish);
    values::lemma_first_member("message"@, message, m3);
    values::lemma_first_member("index"@, Json::Number(0), m2);
    assert(message_choice(text, stop) == Json::Object(m1)) by {
        assert(said =~= seq![("role"@, role), ("content"@, content)]);
        assert(m1 =~= seq![
            ("index"@, Json::Number(0)),
            ("message"@, message),
            ("finish_reason"@, finish),
        ]);
    }
    assert(Json::Number(0).text() == seq!['0']) by {
        assert(Json::Number(0).text() =~= seq!['0']);
    }
    lemma_message_choice_shape(
        json::json_string("index"@),
        seq!['0'],
        json::json_string("message"@),
        json::json_string("role"@),
        json::json_string("assistant"@),
        json::json_string("content"@),
        json::json_string(text),
        json::json_string("finish_reason"@),
        json::json_string(reason(stop)),
    );
}

proof fn lemma_completion_fragments()
    ensures
        ",\"object\":\"chat.completion\",\"created\":"@ == seq![','] + json::json_string("object"@)
            + seq![':'] + json::json_string("chat.completion"@) + seq![',']
            + json::json_string("created"@) + seq![':'],
        ",\"choices\":[{\"index\":0,\"message\":{\"role\":\"assistant\",\"content\":"@ == seq![',']
            + json::json_string("choices"@) + seq![':'] + seq!['['] + seq!['{']
            + json::json_string("index"@) + seq![':'] + seq!['0'] + seq![',']
            + json::json_string("message"@) + seq![':'] + seq!['{'] + json::json_string("role"@)
            + seq![':'] + json::json_string("assistant"@) + seq![','] + json::json_string(
            "content"@,
        ) + seq![':'],
        "},\"finish_reason\":"@ == seq!['}'] + seq![','] + json::json_string("finish_reason"@)
            + seq![':'],
        "}],\"usage\":"@ == seq!['}'] + seq![']'] + seq![','] + json::json_string("usage"@) + seq![
            ':',
        ],
{
    lemma_names();
    reveal_strlit("object");
    reveal_strlit("created");
    reveal_strlit("choices");
    reveal_strlit("usage");
    reveal_strlit("index");
    reveal_strlit("message");
    reveal_strlit("role");
    reveal_strlit("assistant");
    reveal_strlit("content");
    reveal_strlit("finish_reason");
    reveal_strlit("chat.completion");
    reveal_strlit(",\"object\":\"chat.completion\",\"created\":");
    reveal_strlit(",\"choices\":[{\"index\":0,\"message\":{\"role\":\"assistant\",\"content\":");
    reveal_strlit("},\"finish_reason\":");
    reveal_strlit("}],\"usage\":");
}

/// A whole answer, as a value.
spec fn completion_value(writer: WriterView, text: Seq<char>, stop: Stop, usage: Usage) -> Json {
    Json::Object(
        opening(writer, "chat.completion"@, message_choice(text, stop)).push(
            ("usage"@, usage_value(usage)),
        ),
    )
}

proof fn lemma_between_shape(said: Seq<char>, finish: Seq<char>, why: Seq<char>)
    ensures
        same(
            said + seq!['}'] + seq![','] + finish + seq![':'] + why + seq!['}'],
            said + (seq!['}'] + seq![','] + finish + seq![':']) + why + seq!['}'],
        ),
{
    broadcast use values::texts_are_put_together_in_any_order;

}

proof fn lemma_before_shape(
    choices: Seq<char>,
    index: Seq<char>,
    message: Seq<char>,
    role: Seq<char>,
    who: Seq<char>,
    content: Seq<char>,
)
    ensures
        same(
            seq![','] + choices + seq![':'] + seq!['['] + seq!['{'] + index + seq![':'] + seq!['0']
                + seq![','] + message + seq![':'] + seq!['{'] + role + seq![':'] + who + seq![',']
                + content + seq![':'],
            seq![','] + choices + seq![':'] + seq!['['] + (seq!['{'] + index + seq![':'] + seq![
                '0',
            ] + seq![','] + message + seq![':'] + seq!['{'] + role + seq![':'] + who + seq![',']
                + content + seq![':']),
        ),
{
    broadcast use values::texts_are_put_together_in_any_order;

}

proof fn lemma_completion_text(writer: WriterView, text: Seq<char>, stop: Stop, usage: Usage)
    ensures
        same(
            completion_value(writer, text, stop, usage).text(),
            writer.completion(text, stop, usage),
        ),
{
    lemma_chunk_fragments();
    lemma_completion_fragments();
    lemma_message_choice_text(text, stop);
    lemma_opening_text(writer, "chat.completion"@, message_choice(text, stop), Some(usage));
    let before = seq!['{'] + json::json_string("index"@) + seq![':'] + seq!['0'] + seq![',']
        + json::json_string("message"@) + seq![':'] + seq!['{'] + json::json_string("role"@)
        + seq![':'] + json::json_string("assistant"@) + seq![','] + json::json_string("content"@)
        + seq![':'];
    let between = seq!['}'] + seq![','] + json::json_string("finish_reason"@) + seq![':'];
    lemma_between_shape(
        before + json::json_string(text),
        json::json_string("finish_reason"@),
        json::json_string(reason(stop)),
    );
    lemma_before_shape(
        json::json_string("choices"@),
        json::json_string("index"@),
        json::json_string("message"@),
        json::json_string("role"@),
        json::json_string("assistant"@),
        json::json_string("content"@),
    );
    lemma_completion_shape(
        json::json_string("id"@),
        json::json_string(writer.id),
        json::json_string("object"@),
        json::json_string("chat.completion"@),
        json::json_string("created"@),
        text::decimal(writer.created as nat),
        json::json_string("model"@),
        json::json_string(writer.model),
        json::json_string("choices"@),
        before,
        json::json_string(text),
        between,
        json::json_string(reason(stop)),
        json::json_string("usage"@),
        usage.json(),
    );
}

proof fn lemma_names_differ()
    ensures
        "id"@ != "object"@ && "id"@ != "created"@ && "id"@ != "model"@ && "id"@ != "choices"@
            && "id"@ != "usage"@,
        "object"@ != "created"@ && "object"@ != "model"@ && "object"@ != "choices"@ && "object"@
            != "usage"@,
        "created"@ != "model"@ && "created"@ != "choices"@ && "created"@ != "usage"@,
        "model"@ != "choices"@ && "model"@ != "usage"@,
        "choices"@ != "usage"@,
        "index"@ != "delta"@ && "index"@ != "message"@ && "index"@ != "finish_reason"@,
        "delta"@ != "finish_reason"@ && "message"@ != "finish_reason"@,
        "role"@ != "content"@,
        "prompt_tokens"@ != "completion_tokens"@ && "prompt_tokens"@ != "total_tokens"@
            && "completion_tokens"@ != "total_tokens"@,
{
    reveal_strlit("id");
    reveal_strlit("object");
    reveal_strlit("created");
    reveal_strlit("model");
    reveal_strlit("choices");
    reveal_strlit("usage");
    reveal_strlit("index");
    reveal_strlit("delta");
    reveal_strlit("message");
    reveal_strlit("role");
    reveal_strlit("content");
    reveal_strlit("finish_reason");
    reveal_strlit("prompt_tokens");
    reveal_strlit("completion_tokens");
    reveal_strlit("total_tokens");
    assert("id"@.len() == 2);
    assert("object"@.len() == 6);
    assert("created"@.len() == 7);
    assert("model"@.len() == 5);
    assert("choices"@.len() == 7);
    assert("usage"@.len() == 5);
    assert("index"@.len() == 5);
    assert("delta"@.len() == 5);
    assert("message"@.len() == 7);
    assert("role"@.len() == 4);
    assert("content"@.len() == 7);
    assert("finish_reason"@.len() == 13);
    assert("prompt_tokens"@.len() == 13);
    assert("completion_tokens"@.len() == 17);
    assert("total_tokens"@.len() == 12);
    assert("created"@[1] != "choices"@[1]);
    assert("model"@[0] != "usage"@[0]);
    assert("index"@[0] != "delta"@[0]);
}

proof fn lemma_opening_members(
    writer: WriterView,
    object: Seq<char>,
    choice: Json,
    usage: Option<Usage>,
)
    ensures
        ({
            let members = match usage {
                Some(usage) => opening(writer, object, choice).push(
                    ("usage"@, usage_value(usage)),
                ),
                None => opening(writer, object, choice),
            };
            let v = Json::Object(members);
            &&& v.member("id"@) == Some(Json::Text(writer.id))
            &&& v.member("object"@) == Some(Json::Text(object))
            &&& v.member("created"@) == Some(Json::Number(writer.created as nat))
            &&& v.member("model"@) == Some(Json::Text(writer.model))
            &&& v.member("choices"@) == Some(Json::List(seq![choice]))
            &&& v.member("usage"@) == match usage {
                Some(usage) => Some(usage_value(usage)),
                None => None::<Json>,
            }
        }),
{
    let members = match usage {
        Some(usage) => opening(writer, object, choice).push(("usage"@, usage_value(usage))),
        None => opening(writer, object, choice),
    };
    lemma_names_differ();
    values::lemma_member(members, "id"@, 0);
    values::lemma_member(members, "object"@, 1);
    values::lemma_member(members, "created"@, 2);
    values::lemma_member(members, "model"@, 3);
    values::lemma_member(members, "choices"@, 4);
    if usage is Some {
        values::lemma_member(members, "usage"@, 5);
    } else {
        assert forall|i: int| !values::is_at(members, "usage"@, i) by {}
    }
}

proof fn lemma_usage_members(usage: Usage)
    ensures
        usage_value(usage).member("prompt_tokens"@) == Some(
            Json::Number(usage.prompt_tokens as nat),
        ),
        usage_value(usage).member("completion_tokens"@) == Some(
            Json::Number(usage.completion_tokens as nat),
        ),
        usage_value(usage).member("total_tokens"@) == Some(
            Json::Number(usage.total_tokens as nat),
        ),
{
    lemma_names_differ();
    if let Json::Object(members) = usage_value(usage) {
        values::lemma_member(members, "prompt_tokens"@, 0);
        values::lemma_member(members, "completion_tokens"@, 1);
        values::lemma_member(members, "total_tokens"@, 2);
    }
}

/// A client that reads a whole answer finds in it the id, the model and the time
/// of the response, the message as it was said, the counts, and why it ended:
/// `length` where the tokens asked for or the context ran out, `stop` in every
/// other case.
pub proof fn a_client_reads_a_completion(
    writer: WriterView,
    text: Seq<char>,
    stop: Stop,
    usage: Usage,
)
    ensures
        ({
            let v = values::read(writer.completion(text, stop, usage));
            let choices = values::at(v, "choices"@);
            let choice = values::nth(choices, 0);
            let message = values::at(choice, "message"@);
            let counts = values::at(v, "usage"@);
            &&& values::at(v, "id"@) == Some(Json::Text(writer.id))
            &&& values::at(v, "object"@) == Some(Json::Text("chat.completion"@))
            &&& values::at(v, "created"@) == Some(Json::Number(writer.created as nat))
            &&& values::at(v, "model"@) == Some(Json::Text(writer.model))
            &&& values::nth(choices, 1) is None
            &&& values::at(choice, "index"@) == Some(Json::Number(0))
            &&& values::at(message, "role"@) == Some(Json::Text("assistant"@))
            &&& values::at(message, "content"@) == Some(Json::Text(text))
            &&& values::at(choice, "finish_reason"@) == Some(
                Json::Text(
                    if stop == Stop::Limit || stop == Stop::ContextFull {
                        "length"@
                    } else {
                        "stop"@
                    },
                ),
            )
            &&& values::at(counts, "prompt_tokens"@) == Some(
                Json::Number(usage.prompt_tokens as nat),
            )
            &&& values::at(counts, "completion_tokens"@) == Some(
                Json::Number(usage.completion_tokens as nat),
            )
            &&& values::at(counts, "total_tokens"@) == Some(
                Json::Number(usage.total_tokens as nat),
            )
        }),
{
    lemma_completion_text(writer, text, stop, usage);
    values::values_are_read_back(completion_value(writer, text, stop, usage));
    lemma_opening_members(
        writer,
        "chat.completion"@,
        message_choice(text, stop),
        Some(usage),
    );
    lemma_usage_members(usage);
    lemma_names_differ();
    if let Json::Object(members) = message_choice(text, stop) {
        values::lemma_member(members, "index"@, 0);
        values::lemma_member(members, "message"@, 1);
        values::lemma_member(members, "finish_reason"@, 2);
        if let Json::Object(said) = members[1].1 {
            values::lemma_member(said, "role"@, 0);
            values::lemma_member(said, "content"@, 1);
        }
    }
}

/// What all chunks of a stream have in common: the id, the model and the time of
/// the response, and one choice.
proof fn lemma_client_reads_a_chunk(
    writer: WriterView,
    delta: DeltaView,
    stop: Option<Stop>,
    usage: Option<Usage>,
)
    ensures
        ({
            let v = values::read(writer.chunk(delta, stop, usage));
            let choices = values::at(v, "choices"@);
            let choice = values::nth(choices, 0);
            &&& values::at(v, "id"@) == Some(Json::Text(writer.id))
            &&& values::at(v, "object"@) == Some(Json::Text("chat.completion.chunk"@))
            &&& values::at(v, "created"@) == Some(Json::Number(writer.created as nat))
            &&& values::at(v, "model"@) == Some(Json::Text(writer.model))
            &&& values::nth(choices, 1) is None
            &&& values::at(choice, "index"@) == Some(Json::Number(0))
            &&& values::at(choice, "delta"@) == Some(delta_value(delta))
            &&& values::at(choice, "finish_reason"@) == Some(finish_value(stop))
            &&& values::at(v, "usage"@) == match usage {
                Some(usage) => Some(usage_value(usage)),
                None => None::<Json>,
            }
        }),
{
    lemma_chunk_text(writer, delta, stop, usage);
    values::values_are_read_back(chunk_value(writer, delta, stop, usage));
    lemma_opening_members(
        writer,
        "chat.completion.chunk"@,
        choice_value(delta, stop),
        usage,
    );
    lemma_names_differ();
    if let Json::Object(members) = choice_value(delta, stop) {
        values::lemma_member(members, "index"@, 0);
        values::lemma_member(members, "delta"@, 1);
        values::lemma_member(members, "finish_reason"@, 2);
    }
}

/// A chunk that opens a stream says who speaks, and nothing yet.
pub proof fn a_client_reads_the_opening_chunk(writer: WriterView)
    ensures
        ({
            let v = values::read(writer.chunk(DeltaView::Role, None, None));
            let choice = values::nth(values::at(v, "choices"@), 0);
            let delta = values::at(choice, "delta"@);
            &&& values::at(v, "id"@) == Some(Json::Text(writer.id))
            &&& values::at(v, "object"@) == Some(Json::Text("chat.completion.chunk"@))
            &&& values::at(v, "created"@) == Some(Json::Number(writer.created as nat))
            &&& values::at(v, "model"@) == Some(Json::Text(writer.model))
            &&& values::at(choice, "index"@) == Some(Json::Number(0))
            &&& values::at(delta, "role"@) == Some(Json::Text("assistant"@))
            &&& values::at(delta, "content"@) is None
            &&& values::at(choice, "finish_reason"@) == Some(Json::Null)
            &&& values::at(v, "usage"@) is None
        }),
{
    lemma_client_reads_a_chunk(writer, DeltaView::Role, None, None);
    lemma_names_differ();
    if let Json::Object(members) = delta_value(DeltaView::Role) {
        values::lemma_member(members, "role"@, 0);
        assert forall|i: int| !values::is_at(members, "content"@, i) by {}
    }
}

/// A chunk with a piece of text carries that text and no other, and does not end
/// the answer.
pub proof fn a_client_reads_a_piece(writer: WriterView, text: Seq<char>)
    ensures
        ({
            let v = values::read(writer.chunk(DeltaView::Content(text), None, None));
            let choice = values::nth(values::at(v, "choices"@), 0);
            let delta = values::at(choice, "delta"@);
            &&& values::at(v, "id"@) == Some(Json::Text(writer.id))
            &&& values::at(v, "object"@) == Some(Json::Text("chat.completion.chunk"@))
            &&& values::at(v, "created"@) == Some(Json::Number(writer.created as nat))
            &&& values::at(v, "model"@) == Some(Json::Text(writer.model))
            &&& values::at(choice, "index"@) == Some(Json::Number(0))
            &&& values::at(delta, "content"@) == Some(Json::Text(text))
            &&& values::at(delta, "role"@) is None
            &&& values::at(choice, "finish_reason"@) == Some(Json::Null)
            &&& values::at(v, "usage"@) is None
        }),
{
    lemma_client_reads_a_chunk(writer, DeltaView::Content(text), None, None);
    lemma_names_differ();
    if let Json::Object(members) = delta_value(DeltaView::Content(text)) {
        values::lemma_member(members, "content"@, 0);
        assert forall|i: int| !values::is_at(members, "role"@, i) by {}
    }
}

/// The chunk that closes a stream adds no text. It says why the answer ended,
/// `length` where the tokens asked for or the context ran out and `stop` in every
/// other case, and it has counts exactly where there are some to report.
pub proof fn a_client_reads_the_closing_chunk(
    writer: WriterView,
    stop: Stop,
    usage: Option<Usage>,
)
    ensures
        ({
            let v = values::read(writer.chunk(DeltaView::Nothing, Some(stop), usage));
            let choice = values::nth(values::at(v, "choices"@), 0);
            let delta = values::at(choice, "delta"@);
            let counts = values::at(v, "usage"@);
            &&& values::at(v, "id"@) == Some(Json::Text(writer.id))
            &&& values::at(v, "object"@) == Some(Json::Text("chat.completion.chunk"@))
            &&& values::at(v, "created"@) == Some(Json::Number(writer.created as nat))
            &&& values::at(v, "model"@) == Some(Json::Text(writer.model))
            &&& values::at(choice, "index"@) == Some(Json::Number(0))
            &&& delta is Some
            &&& values::at(delta, "content"@) is None
            &&& values::at(delta, "role"@) is None
            &&& values::at(choice, "finish_reason"@) == Some(
                Json::Text(
                    if stop == Stop::Limit || stop == Stop::ContextFull {
                        "length"@
                    } else {
                        "stop"@
                    },
                ),
            )
            &&& usage is None ==> counts is None
            &&& usage matches Some(usage) ==> {
                &&& values::at(counts, "prompt_tokens"@) == Some(
                    Json::Number(usage.prompt_tokens as nat),
                )
                &&& values::at(counts, "completion_tokens"@) == Some(
                    Json::Number(usage.completion_tokens as nat),
                )
                &&& values::at(counts, "total_tokens"@) == Some(
                    Json::Number(usage.total_tokens as nat),
                )
            }
        }),
{
    lemma_client_reads_a_chunk(writer, DeltaView::Nothing, Some(stop), usage);
    if let Json::Object(members) = delta_value(DeltaView::Nothing) {
        assert forall|i: int| !values::is_at(members, "role"@, i) by {}
        assert forall|i: int| !values::is_at(members, "content"@, i) by {}
    }
    if let Some(usage) = usage {
        lemma_usage_members(usage);
    }
}

/// Streamed or whole, an answer that ends for the same reason says so in the same
/// words.
pub proof fn both_forms_give_the_same_reason(
    writer: WriterView,
    text: Seq<char>,
    stop: Stop,
    usage: Usage,
    reported: Option<Usage>,
)
    ensures
        ({
            let whole = values::read(writer.completion(text, stop, usage));
            let last = values::read(writer.chunk(DeltaView::Nothing, Some(stop), reported));
            let choice = values::nth(values::at(whole, "choices"@), 0);
            let closing = values::nth(values::at(last, "choices"@), 0);
            &&& values::at(choice, "finish_reason"@) == values::at(closing, "finish_reason"@)
            &&& values::at(choice, "finish_reason"@) is Some
        }),
{
    a_client_reads_a_completion(writer, text, stop, usage);
    a_client_reads_the_closing_chunk(writer, stop, reported);
}

/// The reason is `length` exactly where something ran out, and `stop` otherwise.
pub proof fn length_means_that_something_ran_out(stop: Stop)
    ensures
        response::spec_finish_reason(stop) == "length"@ <==> stop == Stop::Limit || stop
            == Stop::ContextFull,
        response::spec_finish_reason(stop) == "stop"@ <==> stop == Stop::EndOfGeneration || stop
            == Stop::Cancelled,
{
    reveal_strlit("length");
    reveal_strlit("stop");
    assert("length"@.len() != "stop"@.len());
}

proof fn lemma_error_shape(
    error: Seq<char>,
    code: Seq<char>,
    message: Seq<char>,
    said: Seq<char>,
    param: Seq<char>,
    kind: Seq<char>,
    of: Seq<char>,
    null: Seq<char>,
)
    ensures
        same(
            seq!['{'] + (error + seq![':'] + (seq!['{'] + (code + seq![':'] + null + seq![','] + (
            message + seq![':'] + said + seq![','] + (param + seq![':'] + null + seq![','] + (kind
                + seq![':'] + of)))) + seq!['}'])) + seq!['}'],
            seq!['{'] + error + seq![':'] + seq!['{'] + code + seq![':'] + null + seq![',']
                + message + seq![':'] + said + (seq![','] + param + seq![':'] + null + seq![',']
                + kind + seq![':']) + of + (seq!['}'] + seq!['}']),
        ),
{
    broadcast use values::texts_are_put_together_in_any_order;

}

proof fn lemma_error_text(message: Seq<char>, kind: Seq<char>)
    ensures
        ({
            let inner = Json::Object(
                seq![
                    ("code"@, Json::Null),
                    ("message"@, Json::Text(message)),
                    ("param"@, Json::Null),
                    ("type"@, Json::Text(kind)),
                ],
            );
            same(
                Json::Object(seq![("error"@, inner)]).text(),
                response::spec_error_body(message, kind),
            )
        }),
{
    let m4 = seq![("type"@, Json::Text(kind))];
    let m3 = seq![("param"@, Json::Null)] + m4;
    let m2 = seq![("message"@, Json::Text(message))] + m3;
    let m1 = seq![("code"@, Json::Null)] + m2;
    let inner = Json::Object(m1);
    let null = seq!['n', 'u', 'l', 'l'];
    assert(m1 == seq![
        ("code"@, Json::Null),
        ("message"@, Json::Text(message)),
        ("param"@, Json::Null),
        ("type"@, Json::Text(kind)),
    ]) by {
        assert(m1 =~= seq![
            ("code"@, Json::Null),
            ("message"@, Json::Text(message)),
            ("param"@, Json::Null),
            ("type"@, Json::Text(kind)),
        ]);
    }
    values::lemma_one_member("type"@, Json::Text(kind));
    values::lemma_first_member("param"@, Json::Null, m4);
    values::lemma_first_member("message"@, Json::Text(message), m3);
    values::lemma_first_member("code"@, Json::Null, m2);
    values::lemma_one_member("error"@, inner);
    lemma_error_fragments();
    lemma_error_shape(
        json::json_string("error"@),
        json::json_string("code"@),
        json::json_string("message"@),
        json::json_string(message),
        json::json_string("param"@),
        json::json_string("type"@),
        json::json_string(kind),
        null,
    );
}

proof fn lemma_error_fragments()
    ensures
        "{\"error\":{\"code\":null,\"message\":"@ == seq!['{'] + json::json_string("error"@) + seq![
            ':',
        ] + seq!['{'] + json::json_string("code"@) + seq![':'] + seq!['n', 'u', 'l', 'l'] + seq![
            ',',
        ] + json::json_string("message"@) + seq![':'],
        ",\"param\":null,\"type\":"@ == seq![','] + json::json_string("param"@) + seq![':'] + seq![
            'n',
            'u',
            'l',
            'l',
        ] + seq![','] + json::json_string("type"@) + seq![':'],
        "}}"@ == seq!['}'] + seq!['}'],
{
    reveal_strlit("error");
    reveal_strlit("code");
    reveal_strlit("message");
    reveal_strlit("param");
    reveal_strlit("type");
    reveal_strlit("{\"error\":{\"code\":null,\"message\":");
    reveal_strlit(",\"param\":null,\"type\":");
    reveal_strlit("}}");
    values::lemma_plain("error"@);
    values::lemma_plain("code"@);
    values::lemma_plain("message"@);
    values::lemma_plain("param"@);
    values::lemma_plain("type"@);
}

/// A client that reads an error finds in it what went wrong and of what kind that
/// is.
pub proof fn a_client_reads_an_error(message: Seq<char>, kind: Seq<char>)
    ensures
        ({
            let v = values::read(response::spec_error_body(message, kind));
            let error = values::at(v, "error"@);
            &&& values::at(error, "message"@) == Some(Json::Text(message))
            &&& values::at(error, "type"@) == Some(Json::Text(kind))
            &&& values::at(error, "param"@) == Some(Json::Null)
            &&& values::at(error, "code"@) == Some(Json::Null)
        }),
{
    let members = seq![
        ("code"@, Json::Null),
        ("message"@, Json::Text(message)),
        ("param"@, Json::Null),
        ("type"@, Json::Text(kind)),
    ];
    let outer = seq![("error"@, Json::Object(members))];
    lemma_error_text(message, kind);
    values::values_are_read_back(Json::Object(outer));
    reveal_strlit("code");
    reveal_strlit("message");
    reveal_strlit("param");
    reveal_strlit("type");
    assert("code"@.len() == 4 && "message"@.len() == 7 && "param"@.len() == 5 && "type"@.len() == 4);
    assert("code"@[0] != "type"@[0]);
    values::lemma_member(outer, "error"@, 0);
    values::lemma_member(members, "code"@, 0);
    values::lemma_member(members, "message"@, 1);
    values::lemma_member(members, "param"@, 2);
    values::lemma_member(members, "type"@, 3);
}

} // verus!
