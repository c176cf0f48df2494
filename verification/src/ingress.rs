//! A front door: which requests go to the ring, and what the rest are told.

use vstd::prelude::*;

use crate::engine::{Capacity, ModelInfo};
use crate::json;
use crate::json::values;
use crate::json::values::Json;
use crate::protocol::error_body;
use crate::protocol::reading;
use crate::protocol::response;
use crate::text;

verus! {

pub const CHAT_COMPLETIONS_PATH: &'static str = "/v1/chat/completions";

/// Who owns the models that are listed.
pub const OWNER: &'static str = "llm";

fn same(a: &str, b: &str) -> (same: bool)
    ensures
        same == (a@ == b@),
{
    a.to_owned() == b.to_owned()
}

/// Whether a request to `path` is one for the ring.
pub fn is_chat_path(path: &str) -> (chat: bool)
    ensures
        chat == (path@ == CHAT_COMPLETIONS_PATH@),
        chat <==> path@ == "/v1/chat/completions"@,
{
    same(path, CHAT_COMPLETIONS_PATH)
}

/// The type of the chat page.
pub const HTML_CONTENT_TYPE: &'static str = "text/html; charset=utf-8";

/// What a request without a body is after.
#[derive(Debug, Clone, Copy, PartialEq, Eq, Structural)]
pub enum Route {
    /// The chat page.
    Page,
    Health,
    Models,
    NotFound,
}

/// The routes that can be read: the chat page, the health of the engine under
/// two names, and the list of models.
pub open spec fn spec_route(method: Seq<char>, path: Seq<char>) -> Route {
    if method != "GET"@ {
        Route::NotFound
    } else if path == "/"@ {
        Route::Page
    } else if path == "/health"@ || path == "/healthz"@ {
        Route::Health
    } else if path == "/v1/models"@ {
        Route::Models
    } else {
        Route::NotFound
    }
}

pub fn route(method: &str, path: &str) -> (route: Route)
    ensures
        route == spec_route(method@, path@),
        route == Route::Page <==> method@ == "GET"@ && path@ == "/"@,
        route == Route::Health <==> method@ == "GET"@ && (path@ == "/health"@ || path@
            == "/healthz"@),
        route == Route::Models <==> method@ == "GET"@ && path@ == "/v1/models"@,
{
    proof {
        routes_are_told_apart(method@, path@);
    }

    if !same(method, "GET") {
        Route::NotFound
    } else if same(path, "/") {
        Route::Page
    } else if same(path, "/health") || same(path, "/healthz") {
        Route::Health
    } else if same(path, "/v1/models") {
        Route::Models
    } else {
        Route::NotFound
    }
}

/// The text of [`health`].
pub open spec fn spec_health(
    model_name: Seq<char>,
    model_path: Seq<char>,
    info: ModelInfo,
    capacity: Capacity,
) -> Seq<char> {
    "{\"available_slots\":"@ + text::decimal(capacity.available_slots as nat) + ",\"inflight\":"@
        + text::decimal(capacity.inflight as nat) + ",\"max_inflight\":"@ + text::decimal(
        capacity.max_inflight as nat,
    ) + ",\"model\":"@ + json::json_string(model_name) + ",\"model_path\":"@ + json::json_string(
        model_path,
    ) + ",\"n_ctx\":"@ + text::decimal(info.n_ctx as nat) + ",\"n_params\":"@ + text::decimal(
        info.n_params as nat,
    ) + ",\"status\":\"ok\"}"@
}

/// Health reports the engine's own occupancy rather than the ring's, so an
/// operator sees the number the GPU is actually working from. `model_path` is
/// the path in `info`, as it is shown.
pub fn health(model_name: &str, model_path: &str, info: &ModelInfo, capacity: Capacity) -> (out:
    String)
    ensures
        out@ == spec_health(model_name@, model_path@, *info, capacity),
{
    let mut out = "{\"available_slots\":".to_owned();
    text::push_decimal(&mut out, capacity.available_slots as u64);
    out.append(",\"inflight\":");
    text::push_decimal(&mut out, capacity.inflight as u64);
    out.append(",\"max_inflight\":");
    text::push_decimal(&mut out, capacity.max_inflight as u64);
    out.append(",\"model\":");
    out.append(json::quote(model_name).as_str());
    out.append(",\"model_path\":");
    out.append(json::quote(model_path).as_str());
    out.append(",\"n_ctx\":");
    text::push_decimal(&mut out, info.n_ctx as u64);
    out.append(",\"n_params\":");
    text::push_decimal(&mut out, info.n_params);
    out.append(",\"status\":\"ok\"}");
    out
}

/// The text of [`models`].
pub open spec fn spec_models(model_name: Seq<char>) -> Seq<char> {
    "{\"data\":[{\"id\":"@ + json::json_string(model_name)
        + ",\"object\":\"model\",\"owned_by\":"@ + json::json_string(OWNER@)
        + "}],\"object\":\"list\"}"@
}

/// The one model there is, as a list.
pub fn models(model_name: &str) -> (out: String)
    ensures
        out@ == spec_models(model_name@),
{
    let mut out = "{\"data\":[{\"id\":".to_owned();
    out.append(json::quote(model_name).as_str());
    out.append(",\"object\":\"model\",\"owned_by\":");
    out.append(json::quote(OWNER).as_str());
    out.append("}],\"object\":\"list\"}");
    out
}

/// What a request to nowhere is told.
pub fn not_found() -> (out: String)
    ensures
        out@ == response::spec_error_body("not found"@, "invalid_request_error"@),
{
    error_body("not found", "invalid_request_error")
}

/// What a request without a body is after depends on its method and its path
/// alone: only reading leads anywhere, the root is the chat page, and each of the
/// other paths has one answer.
pub proof fn routes_are_told_apart(method: Seq<char>, path: Seq<char>)
    ensures
        spec_route(method, path) == Route::Page <==> method == "GET"@ && path == "/"@,
        spec_route(method, path) == Route::Health <==> method == "GET"@ && (path == "/health"@
            || path == "/healthz"@),
        spec_route(method, path) == Route::Models <==> method == "GET"@ && path == "/v1/models"@,
        spec_route(method, path) == Route::NotFound <==> method != "GET"@ || (path != "/"@ && path
            != "/health"@ && path != "/healthz"@ && path != "/v1/models"@),
{
    reveal_strlit("/");
    reveal_strlit("/health");
    reveal_strlit("/healthz");
    reveal_strlit("/v1/models");
    assert("/"@.len() == 1 && "/health"@.len() == 7 && "/healthz"@.len() == 8);
    assert("/v1/models"@.len() == 10);
}

proof fn lemma_health_fragments()
    ensures
        "{\"available_slots\":"@ == seq!['{'] + json::json_string("available_slots"@) + seq![':'],
        ",\"inflight\":"@ == seq![','] + json::json_string("inflight"@) + seq![':'],
        ",\"max_inflight\":"@ == seq![','] + json::json_string("max_inflight"@) + seq![':'],
        ",\"model\":"@ == seq![','] + json::json_string("model"@) + seq![':'],
        ",\"model_path\":"@ == seq![','] + json::json_string("model_path"@) + seq![':'],
        ",\"n_ctx\":"@ == seq![','] + json::json_string("n_ctx"@) + seq![':'],
        ",\"n_params\":"@ == seq![','] + json::json_string("n_params"@) + seq![':'],
        ",\"status\":\"ok\"}"@ == seq![','] + json::json_string("status"@) + seq![':']
            + json::json_string("ok"@) + seq!['}'],
{
    reveal_strlit("available_slots");
    reveal_strlit("inflight");
    reveal_strlit("max_inflight");
    reveal_strlit("model");
    reveal_strlit("model_path");
    reveal_strlit("n_ctx");
    reveal_strlit("n_params");
    reveal_strlit("status");
    reveal_strlit("ok");
    reveal_strlit("{\"available_slots\":");
    reveal_strlit(",\"inflight\":");
    reveal_strlit(",\"max_inflight\":");
    reveal_strlit(",\"model\":");
    reveal_strlit(",\"model_path\":");
    reveal_strlit(",\"n_ctx\":");
    reveal_strlit(",\"n_params\":");
    reveal_strlit(",\"status\":\"ok\"}");
    values::lemma_plain("available_slots"@);
    values::lemma_plain("inflight"@);
    values::lemma_plain("max_inflight"@);
    values::lemma_plain("model"@);
    values::lemma_plain("model_path"@);
    values::lemma_plain("n_ctx"@);
    values::lemma_plain("n_params"@);
    values::lemma_plain("status"@);
    values::lemma_plain("ok"@);
}

/// The two texts are one.
spec fn matching(a: Seq<char>, b: Seq<char>) -> bool {
    a == b
}

#[verifier::rlimit(40)]
proof fn lemma_health_shape(
    n0: Seq<char>,
    v0: Seq<char>,
    n1: Seq<char>,
    v1: Seq<char>,
    n2: Seq<char>,
    v2: Seq<char>,
    n3: Seq<char>,
    v3: Seq<char>,
    n4: Seq<char>,
    v4: Seq<char>,
    n5: Seq<char>,
    v5: Seq<char>,
    n6: Seq<char>,
    v6: Seq<char>,
    n7: Seq<char>,
    v7: Seq<char>,
)
    ensures
        matching(
            seq!['{'] + (n0 + seq![':'] + v0 + seq![','] + (n1 + seq![':'] + v1 + seq![','] + (n2 + seq![':'] + v2 + seq![','] + (n3 + seq![':'] + v3 + seq![','] + (n4 + seq![':'] + v4 + seq![','] + (n5 + seq![':'] + v5 + seq![','] + (n6 + seq![':'] + v6 + seq![','] + (n7 + seq![':'] + v7)))))))) + seq!['}'],
            (seq!['{'] + n0 + seq![':']) + v0 + (seq![','] + n1 + seq![':']) + v1 + (seq![','] + n2 + seq![':']) + v2 + (seq![','] + n3 + seq![':']) + v3 + (seq![','] + n4 + seq![':']) + v4 + (seq![','] + n5 + seq![':']) + v5 + (seq![','] + n6 + seq![':']) + v6 + (seq![','] + n7 + seq![':'] + v7 + seq!['}']),
        ),
{
    broadcast use values::texts_are_put_together_in_any_order;

}

/// The report, as a value.
spec fn health_members(
    model_name: Seq<char>,
    model_path: Seq<char>,
    info: ModelInfo,
    capacity: Capacity,
) -> Seq<(Seq<char>, Json)> {
    seq![
        ("available_slots"@, Json::Number(capacity.available_slots as nat)),
        ("inflight"@, Json::Number(capacity.inflight as nat)),
        ("max_inflight"@, Json::Number(capacity.max_inflight as nat)),
        ("model"@, Json::Text(model_name)),
        ("model_path"@, Json::Text(model_path)),
        ("n_ctx"@, Json::Number(info.n_ctx as nat)),
        ("n_params"@, Json::Number(info.n_params as nat)),
        ("status"@, Json::Text("ok"@)),
    ]
}

#[verifier::rlimit(40)]
proof fn lemma_health_text(
    model_name: Seq<char>,
    model_path: Seq<char>,
    info: ModelInfo,
    capacity: Capacity,
)
    ensures
        matching(
            Json::Object(health_members(model_name, model_path, info, capacity)).text(),
            spec_health(model_name, model_path, info, capacity),
        ),
{
    let all = health_members(model_name, model_path, info, capacity);
    let v0 = Json::Number(capacity.available_slots as nat);
    let v1 = Json::Number(capacity.inflight as nat);
    let v2 = Json::Number(capacity.max_inflight as nat);
    let v3 = Json::Text(model_name);
    let v4 = Json::Text(model_path);
    let v5 = Json::Number(info.n_ctx as nat);
    let v6 = Json::Number(info.n_params as nat);
    let v7 = Json::Text("ok"@);
    let m7 = seq![("status"@, v7)];
    values::lemma_one_member("status"@, v7);
    let m6 = seq![("n_params"@, v6)] + m7;
    values::lemma_first_member("n_params"@, v6, m7);
    let m5 = seq![("n_ctx"@, v5)] + m6;
    values::lemma_first_member("n_ctx"@, v5, m6);
    let m4 = seq![("model_path"@, v4)] + m5;
    values::lemma_first_member("model_path"@, v4, m5);
    let m3 = seq![("model"@, v3)] + m4;
    values::lemma_first_member("model"@, v3, m4);
    let m2 = seq![("max_inflight"@, v2)] + m3;
    values::lemma_first_member("max_inflight"@, v2, m3);
    let m1 = seq![("inflight"@, v1)] + m2;
    values::lemma_first_member("inflight"@, v1, m2);
    let m0 = seq![("available_slots"@, v0)] + m1;
    values::lemma_first_member("available_slots"@, v0, m1);
    assert(matching_members(m0, all)) by {
        assert(m0 =~= all);
    }
    lemma_health_fragments();
    lemma_health_shape(
        json::json_string("available_slots"@),
        v0.text(),
        json::json_string("inflight"@),
        v1.text(),
        json::json_string("max_inflight"@),
        v2.text(),
        json::json_string("model"@),
        v3.text(),
        json::json_string("model_path"@),
        v4.text(),
        json::json_string("n_ctx"@),
        v5.text(),
        json::json_string("n_params"@),
        v6.text(),
        json::json_string("status"@),
        v7.text(),
    );
}

/// The two lists of members are one.
spec fn matching_members(a: Seq<(Seq<char>, Json)>, b: Seq<(Seq<char>, Json)>) -> bool {
    a == b
}

/// Whoever reads the report finds in it how many slots are free, how many
/// requests are in the engine and how many it takes at once, the model under its
/// name and where it is, its context and its size, and that all is well.
pub proof fn a_client_reads_the_health(
    model_name: Seq<char>,
    model_path: Seq<char>,
    info: ModelInfo,
    capacity: Capacity,
)
    ensures
        ({
            let v = values::read(spec_health(model_name, model_path, info, capacity));
            &&& values::at(v, "available_slots"@) == Some(Json::Number(capacity.available_slots as nat))
            &&& values::at(v, "inflight"@) == Some(Json::Number(capacity.inflight as nat))
            &&& values::at(v, "max_inflight"@) == Some(Json::Number(capacity.max_inflight as nat))
            &&& values::at(v, "model"@) == Some(Json::Text(model_name))
            &&& values::at(v, "model_path"@) == Some(Json::Text(model_path))
            &&& values::at(v, "n_ctx"@) == Some(Json::Number(info.n_ctx as nat))
            &&& values::at(v, "n_params"@) == Some(Json::Number(info.n_params as nat))
            &&& values::at(v, "status"@) == Some(Json::Text("ok"@))
        }),
{
    let all = health_members(model_name, model_path, info, capacity);
    lemma_health_text(model_name, model_path, info, capacity);
    values::values_are_read_back(Json::Object(all));
    reveal_strlit("available_slots");
    reveal_strlit("inflight");
    reveal_strlit("max_inflight");
    reveal_strlit("model");
    reveal_strlit("model_path");
    reveal_strlit("n_ctx");
    reveal_strlit("n_params");
    reveal_strlit("status");
    assert("available_slots"@.len() == 15);
    assert("inflight"@.len() == 8);
    assert("max_inflight"@.len() == 12);
    assert("model"@.len() == 5);
    assert("model_path"@.len() == 10);
    assert("n_ctx"@.len() == 5);
    assert("n_params"@.len() == 8);
    assert("status"@.len() == 6);
    assert("inflight"@[0] != "n_params"@[0]);
    assert("model"@[0] != "n_ctx"@[0]);
    values::lemma_member(all, "available_slots"@, 0);
    values::lemma_member(all, "inflight"@, 1);
    values::lemma_member(all, "max_inflight"@, 2);
    values::lemma_member(all, "model"@, 3);
    values::lemma_member(all, "model_path"@, 4);
    values::lemma_member(all, "n_ctx"@, 5);
    values::lemma_member(all, "n_params"@, 6);
    values::lemma_member(all, "status"@, 7);
}

/// Whoever reads the list of models finds in it the one that is served, and who
/// owns it.
pub proof fn a_client_reads_the_models(model_name: Seq<char>)
    ensures
        ({
            let v = values::read(spec_models(model_name));
            let data = values::at(v, "data"@);
            let model = values::nth(data, 0);
            &&& values::at(v, "object"@) == Some(Json::Text("list"@))
            &&& values::nth(data, 1) is None
            &&& values::at(model, "id"@) == Some(Json::Text(model_name))
            &&& values::at(model, "object"@) == Some(Json::Text("model"@))
            &&& values::at(model, "owned_by"@) == Some(Json::Text("llm"@))
        }),
{
    let m3 = seq![("owned_by"@, Json::Text("llm"@))];
    let m2 = seq![("object"@, Json::Text("model"@))] + m3;
    let m1 = seq![("id"@, Json::Text(model_name))] + m2;
    let model = Json::Object(m1);
    let data = Json::List(seq![model]);
    let o2 = seq![("object"@, Json::Text("list"@))];
    let o1 = seq![("data"@, data)] + o2;
    values::lemma_one_member("owned_by"@, Json::Text("llm"@));
    values::lemma_first_member("object"@, Json::Text("model"@), m3);
    values::lemma_first_member("id"@, Json::Text(model_name), m2);
    values::lemma_one_item(model);
    values::lemma_one_member("object"@, Json::Text("list"@));
    values::lemma_first_member("data"@, data, o2);
    lemma_models_fragments();
    lemma_models_shape(
        json::json_string("data"@),
        json::json_string("id"@),
        json::json_string(model_name),
        json::json_string("object"@),
        json::json_string("model"@),
        json::json_string("owned_by"@),
        json::json_string("llm"@),
        json::json_string("list"@),
    );
    values::values_are_read_back(Json::Object(o1));
    reveal_strlit("data");
    reveal_strlit("id");
    reveal_strlit("object");
    reveal_strlit("owned_by");
    assert("data"@.len() == 4 && "id"@.len() == 2 && "object"@.len() == 6 && "owned_by"@.len()
        == 8);
    values::lemma_member(o1, "data"@, 0);
    values::lemma_member(o1, "object"@, 1);
    values::lemma_member(m1, "id"@, 0);
    values::lemma_member(m1, "object"@, 1);
    values::lemma_member(m1, "owned_by"@, 2);
}

proof fn lemma_models_fragments()
    ensures
        "{\"data\":[{\"id\":"@ == seq!['{'] + json::json_string("data"@) + seq![':'] + seq!['[']
            + seq!['{'] + json::json_string("id"@) + seq![':'],
        ",\"object\":\"model\",\"owned_by\":"@ == seq![','] + json::json_string("object"@) + seq![
            ':',
        ] + json::json_string("model"@) + seq![','] + json::json_string("owned_by"@) + seq![':'],
        "}],\"object\":\"list\"}"@ == seq!['}'] + seq![']'] + seq![','] + json::json_string(
            "object"@,
        ) + seq![':'] + json::json_string("list"@) + seq!['}'],
{
    reveal_strlit("data");
    reveal_strlit("id");
    reveal_strlit("object");
    reveal_strlit("model");
    reveal_strlit("owned_by");
    reveal_strlit("list");
    reveal_strlit("{\"data\":[{\"id\":");
    reveal_strlit(",\"object\":\"model\",\"owned_by\":");
    reveal_strlit("}],\"object\":\"list\"}");
    values::lemma_plain("data"@);
    values::lemma_plain("id"@);
    values::lemma_plain("object"@);
    values::lemma_plain("model"@);
    values::lemma_plain("owned_by"@);
    values::lemma_plain("list"@);
}

proof fn lemma_models_shape(
    data: Seq<char>,
    id: Seq<char>,
    named: Seq<char>,
    object: Seq<char>,
    model: Seq<char>,
    owner: Seq<char>,
    owned: Seq<char>,
    list: Seq<char>,
)
    ensures
        matching(
            seq!['{'] + (data + seq![':'] + (seq!['['] + (seq!['{'] + (id + seq![':'] + named
                + seq![','] + (object + seq![':'] + model + seq![','] + (owner + seq![':']
                + owned))) + seq!['}']) + seq![']']) + seq![','] + (object + seq![':'] + list))
                + seq!['}'],
            (seq!['{'] + data + seq![':'] + seq!['['] + seq!['{'] + id + seq![':']) + named + (
            seq![','] + object + seq![':'] + model + seq![','] + owner + seq![':']) + owned + (seq![
                '}',
            ] + seq![']'] + seq![','] + object + seq![':'] + list + seq!['}']),
        ),
{
    broadcast use values::texts_are_put_together_in_any_order;

}

/// Whoever asks for what is not there is told so.
pub proof fn a_client_reads_that_nothing_is_there()
    ensures
        ({
            let v = values::read(
                response::spec_error_body("not found"@, "invalid_request_error"@),
            );
            &&& values::at(values::at(v, "error"@), "message"@) == Some(Json::Text("not found"@))
            &&& values::at(values::at(v, "error"@), "type"@) == Some(
                Json::Text("invalid_request_error"@),
            )
        }),
{
    reading::a_client_reads_an_error("not found"@, "invalid_request_error"@);
}

} // verus!
