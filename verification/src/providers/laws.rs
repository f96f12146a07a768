//! What holds of the upstreams: which of them a request goes to, with which address, key and
//! body, and what is read of the replies.
use vstd::prelude::*;

use crate::error::ErrorView;
use crate::json;
use crate::json::JsonView;
use crate::providers;
use crate::providers::deepseek_web;
use crate::providers::deepseek_web::stream::ResponseView;
use crate::providers::openai_compat;
use crate::providers::openai_compat::OpenAiView;
use crate::providers::ProviderKind;
use crate::text;
use crate::text::CharClass;
use crate::text_laws;
use crate::types::RequestView;
use crate::upstream::{OptionsView, ReplyView};

verus! {

/// A request goes to DeepSeek's web chat if its model begins with that name and a slash, or
/// if it asks for it by name in capitals or small letters, and elsewhere if neither holds.
pub proof fn lemma_provider(request: RequestView, options: OptionsView)
    ensures
        text::begins(request.model, "deepseek-web/"@) ==> providers::provider_of(request, options)
            == ProviderKind::DeepSeekWeb,
        (options.provider matches Some(name) && text::lowered(name) == "deepseek-web"@)
            ==> providers::provider_of(request, options) == ProviderKind::DeepSeekWeb,
        !text::begins(request.model, "deepseek-web/"@) && (options.provider matches Some(name)
            ==> text::lowered(name) != "deepseek-web"@) ==> providers::provider_of(request, options)
            == ProviderKind::OpenAiCompat,
{
    reveal_strlit("deepseek-web");
    assert(text::lowered("deepseek-web"@) =~= "deepseek-web"@);
}

/// The models listed are those of DeepSeek's web chat if the model of the adapter or one
/// that an alias stands for is one of them, or if the request asks for them.
pub proof fn lemma_listing(
    fallback_model: Seq<char>,
    aliases: Map<Seq<char>, Seq<char>>,
    options: OptionsView,
    alias: Seq<char>,
)
    ensures
        ({
            let kind = providers::listing_provider(fallback_model, aliases, options);
            &&& text::begins(fallback_model, "deepseek-web/"@) ==> kind == ProviderKind::DeepSeekWeb
            &&& aliases.dom().contains(alias) && text::begins(aliases[alias], "deepseek-web/"@)
                ==> kind == ProviderKind::DeepSeekWeb
            &&& (options.provider matches Some(name) && text::lowered(name) == "deepseek-web"@)
                ==> kind == ProviderKind::DeepSeekWeb
            &&& !text::begins(fallback_model, "deepseek-web/"@) && aliases.dom().len() == 0
                && aliases.dom().finite() && options.provider is None ==> kind
                == ProviderKind::OpenAiCompat
        }),
{
    reveal_strlit("deepseek-web");
    assert(text::lowered("deepseek-web"@) =~= "deepseek-web"@);
}

/// A request goes to the address that it asks for, or else to the client's, without slashes
/// at its end; and with its own key, or else the client's, and with none if that is blank.
pub proof fn lemma_openai_target(
    client: OpenAiView,
    options: OptionsView,
    url: Seq<char>,
    slashes: Seq<char>,
)
    requires
        url.len() > 0,
        url[url.len() - 1] != '/',
        forall|k: int| 0 <= k < slashes.len() ==> #[trigger] slashes[k] == '/',
    ensures
        options.base_url matches Some(asked) ==> (!text::blank(asked) && text::trimmed(asked) == url
            + slashes ==> client.effective_base_url(options) == url),
        (options.base_url matches Some(asked) ==> text::blank(asked)) && client.base_url == url
            + slashes ==> client.effective_base_url(options) == url,
        options.api_key matches Some(key) ==> (!text::blank(key) ==> client.effective_api_key(
            options,
        ) == text::trimmed(key)),
        (options.api_key matches Some(key) ==> text::blank(key)) ==> client.effective_api_key(
            options,
        ) == client.api_key,
        text::blank(client.effective_api_key(options)) ==> client.bearer(options) is None,
        !text::blank(client.effective_api_key(options)) ==> client.bearer(options) == Some(
            client.effective_api_key(options),
        ),
{
    let class = CharClass::Only('/');
    assert forall|k: int| 0 <= k < slashes.len() implies class.holds(#[trigger] slashes[k]) by {}
    text_laws::lemma_back_of(url, slashes, class);
}

/// The chat completions and the models of a server stand under the first version of its API,
/// which an address may name already; an address of either is kept.
pub proof fn lemma_openai_endpoints(host: Seq<char>)
    ensures
        openai_compat::completions_at(host + "/v1"@) == host + "/v1"@ + "/chat/completions"@,
        openai_compat::models_at(host + "/v1"@) == host + "/v1"@ + "/models"@,
        openai_compat::completions_at(host + "/chat/completions"@) == host + "/chat/completions"@,
        openai_compat::models_at(host + "/models"@) == host + "/models"@,
        !text::ends(text::lowered(host), "/v1"@) && !text::ends(
            text::lowered(host),
            "/chat/completions"@,
        ) ==> openai_compat::completions_at(host) == host + "/v1/chat/completions"@,
        !text::ends(text::lowered(host), "/v1"@) && !text::ends(text::lowered(host), "/models"@)
            ==> openai_compat::models_at(host) == host + "/v1/models"@,
{
    reveal_strlit("/v1");
    reveal_strlit("/chat/completions");
    reveal_strlit("/models");
    lemma_ends_low(host, "/v1"@);
    lemma_ends_low(host, "/chat/completions"@);
    lemma_ends_low(host, "/models"@);
    let lower = text::lowered(host + "/v1"@);
    assert(lower[lower.len() - 1] == '1');
    if text::ends(lower, "/chat/completions"@) {
        assert(lower.skip(lower.len() - 17)[16] == 's');
    }
    if text::ends(lower, "/models"@) {
        assert(lower.skip(lower.len() - 7)[6] == 's');
    }
}

proof fn lemma_ends_low(s: Seq<char>, p: Seq<char>)
    requires
        forall|k: int| 0 <= k < p.len() ==> !('A' <= #[trigger] p[k] <= 'Z'),
    ensures
        text::ends(text::lowered(s + p), p),
{
    let lower = text::lowered(s + p);
    let tail = lower.skip(lower.len() - p.len());
    assert forall|k: int| 0 <= k < p.len() implies tail[k] == p[k] by {
        assert((s + p)[s.len() + k] == p[k]);
    }
    assert(tail =~= p);
}

/// A request for a completion names the model and the limit on tokens, asks for no stream,
/// and holds the prompt as the one message, the user's.
pub proof fn lemma_openai_body(request: RequestView, prompt: Seq<char>)
    ensures
        ({
            let body = JsonView::object(openai_compat::completion_members(request, prompt));
            &&& body.get("model"@) == Some(JsonView::Text(request.model))
            &&& body.get("stream"@) == Some(JsonView::Bool(false))
            &&& body.get("max_tokens"@) == Some(JsonView::Integer(request.max_tokens as int))
            &&& body.get("messages"@) matches Some(JsonView::Array(messages)) && messages.len() == 1
                && messages[0].get("role"@) == Some(JsonView::Text("user"@)) && messages[0].get(
                "content"@,
            ) == Some(JsonView::Text(prompt))
        }),
{
    reveal_strlit("model");
    reveal_strlit("stream");
    reveal_strlit("max_tokens");
    reveal_strlit("messages");
    reveal_strlit("role");
    reveal_strlit("content");
    let pairs = openai_compat::completion_members(request, prompt);
    assert forall|i: int, j: int| 0 <= i < j < pairs.len() implies (#[trigger] pairs[i]).0 != (
    #[trigger] pairs[j]).0 by {
        assert("model"@.len() == 5 && "stream"@.len() == 6 && "max_tokens"@.len() == 10
            && "messages"@.len() == 8);
    }
    json::lemma_lookup_collected(pairs, 0);
    json::lemma_lookup_collected(pairs, 1);
    json::lemma_lookup_collected(pairs, 2);
    json::lemma_lookup_collected(pairs, 3);
    let message = openai_compat::prompt_members(prompt);
    assert forall|i: int, j: int| 0 <= i < j < message.len() implies (#[trigger] message[i]).0 != (
    #[trigger] message[j]).0 by {
        assert("role"@.len() == 4 && "content"@.len() == 7);
    }
    json::lemma_lookup_collected(message, 0);
    json::lemma_lookup_collected(message, 1);
}

/// A completion is the content of the first choice's message, with what it gives as its
/// reasoning, under the longer name or the shorter one; where there is no such message it is
/// the response, and without either it is refused, as is every reply that reports a failure.
pub proof fn lemma_openai_completion(
    payload: JsonView,
    choices: Seq<JsonView>,
    message: JsonView,
    s: Seq<char>,
    t: Seq<char>,
)
    ensures
        openai_compat::completion_of(false, payload) == Err::<ReplyView, ErrorView>(
            ErrorView::Upstream(json::compact(payload)),
        ),
        payload.get("choices"@) == Some(JsonView::Array(choices)) && choices.len() > 0
            && choices[0].get("message"@) == Some(message) && message.get("content"@) == Some(
            JsonView::Text(s),
        ) ==> (openai_compat::completion_of(true, payload) matches Ok(reply) && reply.text == s
            && reply.provider_session_id is None && {
            &&& message.get("reasoning_content"@) == Some(JsonView::Text(t)) ==> reply.reasoning
                == Some(t)
            &&& message.get("reasoning_content"@) is None && message.get("reasoning"@) == Some(
                JsonView::Text(t),
            ) ==> reply.reasoning == Some(t)
            &&& message.get("reasoning_content"@) is None && message.get("reasoning"@) is None
                ==> reply.reasoning is None
        }),
        payload is Object && payload.get("choices"@) is None && payload.get("response"@) == Some(
            JsonView::Text(s),
        ) ==> (openai_compat::completion_of(true, payload) matches Ok(reply) && reply.text == s
            && reply.reasoning is None),
        payload is Object && payload.get("choices"@) is None && payload.get("response"@) is None
            ==> openai_compat::completion_of(true, payload) == Err::<ReplyView, ErrorView>(
            ErrorView::Upstream("missing assistant text"@ + ": "@ + json::compact(payload)),
        ),
{
    lemma_in_message(payload, choices, message, "content"@);
    lemma_in_message(payload, choices, message, "reasoning_content"@);
    lemma_in_message(payload, choices, message, "reasoning"@);
}

proof fn lemma_in_message(
    payload: JsonView,
    choices: Seq<JsonView>,
    message: JsonView,
    key: Seq<char>,
)
    ensures
        payload.get("choices"@) == Some(JsonView::Array(choices)) && choices.len() > 0
            && choices[0].get("message"@) == Some(message) && message is Object
            ==> payload.pointer(seq!["choices"@, "0"@, "message"@, key]) == message.get(key),
        payload is Object && payload.get("choices"@) is None ==> payload.pointer(
            seq!["choices"@, "0"@, "message"@, key],
        ) is None,
{
    let path = seq!["choices"@, "0"@, "message"@, key];
    let p1 = path.skip(1);
    let p2 = p1.skip(1);
    let p3 = p2.skip(1);
    assert(p1[0] == "0"@ && p2[0] == "message"@ && p3[0] == key && p3.skip(1).len() == 0);
    if payload.get("choices"@) == Some(JsonView::Array(choices)) && choices.len() > 0
        && choices[0].get("message"@) == Some(message) && message is Object {
        reveal_strlit("0");
        assert("0"@ =~= text::decimal(0));
        let list = JsonView::Array(choices);
        assert(list.step("0"@) == Some(choices[0]));
        assert(payload.pointer(path) == list.pointer(p1));
        assert(list.pointer(p1) == choices[0].pointer(p2));
        assert(choices[0].pointer(p2) == message.pointer(p3));
        if let Some(value) = message.get(key) {
            assert(message.pointer(p3) == value.pointer(p3.skip(1)));
        }
    }
}

/// A list of models that an upstream gives keeps its members but for the models, which the
/// aliases follow; and where it gives none, the list holds the model of the adapter and the
/// aliases, and says what went wrong.
pub proof fn lemma_openai_models(
    payload: JsonView,
    items: Seq<JsonView>,
    fallback_model: Seq<char>,
    aliases: Seq<Seq<char>>,
    other: Seq<char>,
    i: int,
)
    requires
        payload.get("data"@) == Some(JsonView::Array(items)),
        0 <= i < aliases.len(),
    ensures
        ({
            let list = openai_compat::models_of(true, payload, fallback_model, aliases);
            &&& list.get("data"@) matches Some(JsonView::Array(data)) && data.len() == items.len()
                + aliases.len() && data.take(items.len() as int) == items && data[items.len()
                + i].text_at("id"@) == Some(aliases[i]) && data[items.len() + i].text_at(
                "owned_by"@,
            ) == Some("adapter-alias"@)
            &&& other != "data"@ ==> list.get(other) == payload.get(other)
        }),
        ({
            let list = openai_compat::models_of(false, payload, fallback_model, aliases);
            &&& list.get("object"@) == Some(JsonView::Text("list"@))
            &&& list.get("warning"@) == Some(JsonView::Text(json::compact(payload)))
            &&& list.get("data"@) matches Some(JsonView::Array(data)) && data.len() == 1
                + aliases.len() && data[0].text_at("id"@) == Some(fallback_model) && data[0].text_at(
                "owned_by"@,
            ) == Some("adapter-fallback"@) && data[1 + i].text_at("id"@) == Some(aliases[i])
        }),
{
    lemma_model_item(aliases[i], "adapter-alias"@);
    lemma_model_item(fallback_model, "adapter-fallback"@);
    if let JsonView::Object(members) = payload {
        let all = JsonView::Array(items + providers::alias_items(aliases));
        json::lemma_lookup_inserted(members, "data"@, all, "data"@);
        json::lemma_lookup_inserted(members, "data"@, all, other);
        let data = items + providers::alias_items(aliases);
        assert(data.take(items.len() as int) =~= items);
        assert(data[items.len() + i] == providers::alias_items(aliases)[i]);
    }
    reveal_strlit("object");
    reveal_strlit("data");
    reveal_strlit("warning");
    let pairs = openai_compat::fallback_members(fallback_model, aliases, json::compact(payload));
    assert forall|i: int, j: int| 0 <= i < j < pairs.len() implies (#[trigger] pairs[i]).0 != (
    #[trigger] pairs[j]).0 by {
        assert("object"@.len() == 6 && "data"@.len() == 4 && "warning"@.len() == 7);
    }
    json::lemma_lookup_collected(pairs, 0);
    json::lemma_lookup_collected(pairs, 1);
    json::lemma_lookup_collected(pairs, 2);
}

proof fn lemma_model_item(id: Seq<char>, owner: Seq<char>)
    ensures
        ({
            let item = JsonView::object(providers::model_members(id, owner));
            &&& item.text_at("id"@) == Some(id)
            &&& item.text_at("object"@) == Some("model"@)
            &&& item.text_at("owned_by"@) == Some(owner)
        }),
{
    reveal_strlit("id");
    reveal_strlit("object");
    reveal_strlit("owned_by");
    let pairs = providers::model_members(id, owner);
    assert forall|i: int, j: int| 0 <= i < j < pairs.len() implies (#[trigger] pairs[i]).0 != (
    #[trigger] pairs[j]).0 by {
        assert("id"@.len() == 2 && "object"@.len() == 6 && "owned_by"@.len() == 8);
    }
    json::lemma_lookup_collected(pairs, 0);
    json::lemma_lookup_collected(pairs, 1);
    json::lemma_lookup_collected(pairs, 2);
}

/// The session of a request is what it gives as its session; or else what it gives as its
/// key; or else what the file holds. The status of the session says which of them it is.
pub proof fn lemma_session_source(options: OptionsView, stored: Option<Seq<char>>)
    ensures
        ({
            let own = options.deepseek_session matches Some(s) && !text::blank(s);
            let key = options.api_key matches Some(s) && !text::blank(s);
            let found = deepseek_web::session_of(options, stored);
            &&& options.deepseek_session matches Some(s) ==> (!text::blank(s) ==> found == Some(
                (text::trimmed(s), "x-deepseek-session"@),
            ))
            &&& !own ==> (options.api_key matches Some(s) ==> (!text::blank(s) ==> found == Some(
                (text::trimmed(s), "x-upstream-api-key"@),
            )))
            &&& !own && !key ==> (stored matches Some(s) ==> found == Some((s, "session_file"@)))
            &&& !own && !key && stored is None ==> found is None
                && deepseek_web::required_session(options, stored) is Err
            &&& deepseek_web::needs_stored(options) <==> !own && !key
        }),
{
}

/// The status of a session says whether there is one, where it is from, what it looks like
/// and how long it is.
pub proof fn lemma_session_status(options: OptionsView, stored: Option<Seq<char>>)
    ensures
        ({
            let status = deepseek_web::session_status(options, stored);
            match deepseek_web::session_of(options, stored) {
                Some((session, source)) => {
                    let t = text::trimmed(session);
                    &&& status.get("configured"@) == Some(JsonView::Bool(true))
                    &&& status.get("source"@) == Some(JsonView::Text(source))
                    &&& status.get("bytes"@) == Some(
                        JsonView::Integer(text::byte_len(session) as int),
                    )
                    &&& t.len() > 0 && t[0] == '{' ==> status.get("format"@) == Some(
                        JsonView::Text("json"@),
                    )
                    &&& t.len() > 0 && t[0] != '{' && (t.contains('=') || t.contains(';'))
                        ==> status.get("format"@) == Some(JsonView::Text("cookie"@))
                    &&& t.len() > 0 && t[0] != '{' && !t.contains('=') && !t.contains(';')
                        ==> status.get("format"@) == Some(JsonView::Text("unknown"@))
                },
                None => {
                    &&& status.get("configured"@) == Some(JsonView::Bool(false))
                    &&& status.get("source"@) == Some(JsonView::Null)
                },
            }
        }),
{
    reveal_strlit("configured");
    reveal_strlit("source");
    reveal_strlit("format");
    reveal_strlit("bytes");
    reveal_strlit("message");
    reveal_strlit("{");
    reveal_strlit("=");
    reveal_strlit(";");
    assert("configured"@.len() == 10 && "source"@.len() == 6 && "format"@.len() == 6
        && "bytes"@.len() == 5 && "message"@.len() == 7);
    assert("source"@[0] == 's' && "format"@[0] == 'f');
    match deepseek_web::session_of(options, stored) {
        Some((session, source)) => {
            let pairs = deepseek_web::configured_members(session, source);
            assert forall|i: int, j: int| 0 <= i < j < pairs.len() implies (
            #[trigger] pairs[i]).0 != (#[trigger] pairs[j]).0 by {}
            json::lemma_lookup_collected(pairs, 0);
            json::lemma_lookup_collected(pairs, 1);
            json::lemma_lookup_collected(pairs, 2);
            json::lemma_lookup_collected(pairs, 3);
            let t = text::trimmed(session);
            lemma_has_one(t, '=', "="@);
            lemma_has_one(t, ';', ";"@);
            if t.len() > 0 {
                assert(t.take(1)[0] == t[0]);
                if t[0] == '{' {
                    assert(t.take("{"@.len() as int) =~= "{"@);
                }
            }
        },
        None => {
            let pairs = deepseek_web::missing_members();
            assert forall|i: int, j: int| 0 <= i < j < pairs.len() implies (
            #[trigger] pairs[i]).0 != (#[trigger] pairs[j]).0 by {}
            json::lemma_lookup_collected(pairs, 0);
            json::lemma_lookup_collected(pairs, 1);
        },
    }
}

proof fn lemma_has_one(s: Seq<char>, c: char, p: Seq<char>)
    requires
        p.len() == 1,
        p[0] == c,
    ensures
        text::has(s, p) <==> s.contains(c),
{
    if s.contains(c) {
        let i = choose|i: int| 0 <= i < s.len() && s[i] == c;
        assert(s.subrange(i, i + 1) =~= p);
        assert(text::occurs(s, p, i));
    }
    if text::has(s, p) {
        let i = choose|i: int| text::occurs(s, p, i);
        assert(s.subrange(i, i + 1)[0] == s[i]);
    }
}

/// A completion of the web chat is what was said, without the word that ends it, with what
/// was thought and the id of the session. One that neither said nor thought anything is
/// refused, and so is a failure, with its message unless it says that the session expired.
pub proof fn lemma_web_completion(response: ResponseView, error: ErrorView, said: Seq<char>)
    ensures
        response.text == said + "FINISHED"@ && !text::blank(response.text) && !text::ends(
            said,
            "FINISHED"@,
        ) ==> (deepseek_web::completion_of(Ok(response)) matches Ok(reply) && reply.text
            == text::trimmed_end(said)),
        !text::ends(response.text, "FINISHED"@) && !text::blank(response.text) ==> (
        deepseek_web::completion_of(Ok(response)) matches Ok(reply) && reply.text
            == text::trimmed_end(response.text)),
        deepseek_web::completion_of(Ok(response)) matches Ok(reply) ==> reply.reasoning
            == response.reasoning && reply.provider_session_id == Some(response.session_id),
        deepseek_web::completion_of(Ok(response)) is Err <==> text::blank(response.text) && (
        response.reasoning matches Some(thought) ==> text::blank(thought)),
        text::has(error.said(), "Authorization Failed"@) || text::has(
            error.said(),
            "invalid token"@,
        ) || text::has(error.said(), "\"code\":40003"@) ==> deepseek_web::completion_of(Err(error))
            == Err::<ReplyView, ErrorView>(
            ErrorView::Upstream(
                "DeepSeek Web session invalid or expired. Re-login DeepSeek Web and refresh ~/.model-toolcall-adapter/deepseek_session.json, or paste a fresh session JSON/Cookie in the UI."@,
            ),
        ),
        !text::has(error.said(), "Authorization Failed"@) && !text::has(
            error.said(),
            "invalid token"@,
        ) && !text::has(error.said(), "\"code\":40003"@) ==> deepseek_web::completion_of(Err(error))
            == Err::<ReplyView, ErrorView>(
            ErrorView::Upstream("deepseek web provider"@ + ": "@ + error.said()),
        ),
{
    reveal_strlit("FINISHED");
    text_laws::lemma_suffix(said, "FINISHED"@);
    text_laws::lemma_suffix(response.text, "FINISHED"@);
}

/// The list of the models of the web chat gives each model as the chat's, without tool
/// calls, and the status of the session.
pub proof fn lemma_web_models(aliases: Seq<Seq<char>>, status: JsonView, i: int)
    requires
        0 <= i < 5,
    ensures
        ({
            let list = JsonView::object(deepseek_web::model_list_members(aliases, status));
            let ids = seq![
                "deepseek-web/reasoner"@,
                "deepseek-web/chat"@,
                "deepseek-web/search"@,
                "deepseek-web/expert"@,
                "deepseek-web/vision"@,
            ];
            &&& list.get("object"@) == Some(JsonView::Text("list"@))
            &&& list.get("provider"@) == Some(JsonView::Text("deepseek-web"@))
            &&& list.get("session"@) == Some(status)
            &&& list.get("data"@) matches Some(JsonView::Array(data)) && data.len() == 5
                + aliases.len() && data[i].get("id"@) == Some(JsonView::Text(ids[i]))
                && data[i].get("object"@) == Some(JsonView::Text("model"@)) && data[i].get(
                "owned_by"@,
            ) == Some(JsonView::Text("deepseek-web"@)) && data[i].get("tool_calling"@) == Some(
                JsonView::Bool(false),
            )
        }),
{
    reveal_strlit("object");
    reveal_strlit("data");
    reveal_strlit("provider");
    reveal_strlit("session");
    reveal_strlit("id");
    reveal_strlit("owned_by");
    reveal_strlit("tool_calling");
    let pairs = deepseek_web::model_list_members(aliases, status);
    assert forall|i: int, j: int| 0 <= i < j < pairs.len() implies (#[trigger] pairs[i]).0 != (
    #[trigger] pairs[j]).0 by {
        assert("object"@.len() == 6 && "data"@.len() == 4 && "provider"@.len() == 8
            && "session"@.len() == 7);
    }
    json::lemma_lookup_collected(pairs, 0);
    json::lemma_lookup_collected(pairs, 1);
    json::lemma_lookup_collected(pairs, 2);
    json::lemma_lookup_collected(pairs, 3);
    let id = deepseek_web::web_model_ids()[i];
    let model = deepseek_web::web_model_members(id);
    assert forall|i: int, j: int| 0 <= i < j < model.len() implies (#[trigger] model[i]).0 != (
    #[trigger] model[j]).0 by {
        assert("id"@.len() == 2 && "object"@.len() == 6 && "owned_by"@.len() == 8
            && "tool_calling"@.len() == 12);
    }
    json::lemma_lookup_collected(model, 0);
    json::lemma_lookup_collected(model, 1);
    json::lemma_lookup_collected(model, 2);
    json::lemma_lookup_collected(model, 3);
    let data = deepseek_web::web_models() + providers::alias_items(aliases);
    assert(data[i] == deepseek_web::web_models()[i]);
}

} // verus!
