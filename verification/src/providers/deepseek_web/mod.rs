//! The chat of DeepSeek's web site as an upstream, without the network.
use vstd::prelude::*;

use crate::error::{AdapterError, ErrorView};
use crate::json;
use crate::json::{Json, JsonView, Members};
use crate::providers;
use crate::table::Table;
use crate::text;
use crate::upstream;
use crate::upstream::{OptionsView, ReplyView, UpstreamRequestOptions, UpstreamResponse};
use crate::views;

pub mod client;
pub mod client_laws;
pub mod deltas;
pub mod deltas_laws;
pub mod pow;
pub mod stream;

use crate::providers::deepseek_web::stream::{DeepSeekWebResponse, ResponseView};

verus! {

// ---------------------------------------------------------------------------
// Sessions
// ---------------------------------------------------------------------------

/// The session that a request comes with, and where it is from: its own headers, or
/// else the file, as far as there is one.
pub open spec fn session_of(options: OptionsView, stored: Option<Seq<char>>) -> Option<
    (Seq<char>, Seq<char>),
> {
    match upstream::trimmed_if_present(options.deepseek_session) {
        Some(session) => Some((session, "x-deepseek-session"@)),
        None => match upstream::trimmed_if_present(options.api_key) {
            Some(session) => Some((session, "x-upstream-api-key"@)),
            None => match stored {
                Some(session) => Some((session, "session_file"@)),
                None => None,
            },
        },
    }
}

/// Whether a request needs the session of the file.
pub open spec fn needs_stored(options: OptionsView) -> bool {
    !upstream::present(options.deepseek_session) && !upstream::present(options.api_key)
}

/// Whether a request needs the session of the file.
pub fn needs_stored_session(options: &UpstreamRequestOptions) -> (r: bool)
    ensures
        r == needs_stored(options@),
{
    !upstream::is_present(&options.deepseek_session) && !upstream::is_present(&options.api_key)
}

/// A request with a session of its own is not affected by the file.
pub proof fn lemma_own_session_wins(
    options: OptionsView,
    a: Option<Seq<char>>,
    b: Option<Seq<char>>,
)
    requires
        !needs_stored(options),
    ensures
        session_of(options, a) == session_of(options, b),
        session_of(options, a) is Some,
{
}

/// The session that a request comes with, and where it is from.
pub fn session_from_options_with_source(
    options: &UpstreamRequestOptions,
    stored: Option<String>,
) -> (r: Option<(String, &'static str)>)
    ensures
        r is Some <==> session_of(options@, views::of_option(stored)) is Some,
        r matches Some((session, source)) ==> session_of(options@, views::of_option(stored))
            == Some((session@, source@)),
{
    if let Some(session) = upstream::trim_if_present(&options.deepseek_session) {
        return Some((session, "x-deepseek-session"));
    }
    if let Some(session) = upstream::trim_if_present(&options.api_key) {
        return Some((session, "x-upstream-api-key"));
    }
    match stored {
        Some(session) => Some((session, "session_file")),
        None => None,
    }
}

/// The session that a request goes out with.
pub open spec fn required_session(options: OptionsView, stored: Option<Seq<char>>) -> Result<
    Seq<char>,
    ErrorView,
> {
    match session_of(options, stored) {
        Some((session, _)) => Ok(session),
        None => Err(
            ErrorView::Upstream(
                "DeepSeek Web session missing. Paste session JSON/Cookie or save one to ~/.model-toolcall-adapter/deepseek_session.json."@,
            ),
        ),
    }
}

/// The session that a request goes out with.
pub fn raw_session_from_options(options: &UpstreamRequestOptions, stored: Option<String>) -> (r:
    Result<String, AdapterError>)
    ensures
        views::of_result(r) == required_session(options@, views::of_option(stored)),
{
    match session_from_options_with_source(options, stored) {
        Some((session, _)) => Ok(session),
        None => Err(
            AdapterError::Upstream(
                "DeepSeek Web session missing. Paste session JSON/Cookie or save one to ~/.model-toolcall-adapter/deepseek_session.json.".to_owned(),
            ),
        ),
    }
}

/// What a session looks like.
pub open spec fn format_of(session: Seq<char>) -> Seq<char> {
    let t = text::trimmed(session);
    if text::begins(t, "{"@) {
        "json"@
    } else if text::has(t, "="@) || text::has(t, ";"@) {
        "cookie"@
    } else {
        "unknown"@
    }
}

/// The members of the status of a session that is there.
pub open spec fn configured_members(session: Seq<char>, source: Seq<char>) -> Members {
    seq![
        ("configured"@, JsonView::Bool(true)),
        ("source"@, JsonView::Text(source)),
        ("format"@, JsonView::Text(format_of(session))),
        ("bytes"@, JsonView::Integer(text::byte_len(session) as int)),
    ]
}

/// The members of the status where there is no session.
pub open spec fn missing_members() -> Members {
    seq![
        ("configured"@, JsonView::Bool(false)),
        ("source"@, JsonView::Null),
        (
            "message"@,
            JsonView::Text(
                "DeepSeek Web session missing. Paste Session JSON/Cookie or save one to ~/.model-toolcall-adapter/deepseek_session.json."@,
            ),
        ),
    ]
}

/// The status of the session that a request comes with: where it is from and what it
/// looks like, but nothing of what it says.
pub open spec fn session_status(options: OptionsView, stored: Option<Seq<char>>) -> JsonView {
    match session_of(options, stored) {
        Some((session, source)) => JsonView::object(configured_members(session, source)),
        None => JsonView::object(missing_members()),
    }
}

/// What a session looks like.
pub fn session_format(session: &str) -> (r: &'static str)
    ensures
        r@ == format_of(session@),
{
    let chars = text::chars_of(session);
    let trimmed = text::trim(chars.as_slice());
    if text::begins_with_text(trimmed, "{") {
        "json"
    } else if text::has_text(trimmed, "=") || text::has_text(trimmed, ";") {
        "cookie"
    } else {
        "unknown"
    }
}

/// The status of a session that is there.
fn session_status_from_raw_with_source(session: &str, source: &str) -> (r: Json)
    ensures
        r@ == JsonView::object(configured_members(session@, source@)),
{
    let bytes = session.as_bytes().len();
    let pairs = vec![
        ("configured", Json::Bool(true)),
        ("source", Json::text(source)),
        ("format", Json::text(session_format(session))),
        ("bytes", Json::Unsigned(bytes as u64)),
    ];
    assert(json::pairs_view(pairs@) =~= configured_members(session@, source@));
    Json::object(pairs)
}

/// The status of the session that a request comes with.
pub fn session_status_from_options(options: &UpstreamRequestOptions, stored: Option<String>) -> (r:
    Json)
    ensures
        r@ == session_status(options@, views::of_option(stored)),
{
    match session_from_options_with_source(options, stored) {
        Some((session, source)) => session_status_from_raw_with_source(session.as_str(), source),
        None => {
            let pairs = vec![
                ("configured", Json::Bool(false)),
                ("source", Json::Null),
                (
                    "message",
                    Json::text(
                        "DeepSeek Web session missing. Paste Session JSON/Cookie or save one to ~/.model-toolcall-adapter/deepseek_session.json.",
                    ),
                ),
            ];
            assert(json::pairs_view(pairs@) =~= missing_members());
            Json::object(pairs)
        },
    }
}

// ---------------------------------------------------------------------------
// Models
// ---------------------------------------------------------------------------

/// The members of a model of the web chat.
pub open spec fn web_model_members(id: Seq<char>) -> Members {
    seq![
        ("id"@, JsonView::Text(id)),
        ("object"@, JsonView::Text("model"@)),
        ("owned_by"@, JsonView::Text("deepseek-web"@)),
        ("tool_calling"@, JsonView::Bool(false)),
    ]
}

/// The ids of the models of the web chat.
pub open spec fn web_model_ids() -> Seq<Seq<char>> {
    seq![
        "deepseek-web/reasoner"@,
        "deepseek-web/chat"@,
        "deepseek-web/search"@,
        "deepseek-web/expert"@,
        "deepseek-web/vision"@,
    ]
}

/// The models of the web chat.
pub open spec fn web_models() -> Seq<JsonView> {
    web_model_ids().map_values(|id: Seq<char>| JsonView::object(web_model_members(id)))
}

/// The members of the list of models.
pub open spec fn model_list_members(aliases: Seq<Seq<char>>, status: JsonView) -> Members {
    seq![
        ("object"@, JsonView::Text("list"@)),
        ("data"@, JsonView::Array(web_models() + providers::alias_items(aliases))),
        ("provider"@, JsonView::Text("deepseek-web"@)),
        ("session"@, status),
    ]
}

/// A model of the web chat.
fn web_model(id: &str) -> (r: Json)
    ensures
        r@ == JsonView::object(web_model_members(id@)),
{
    let pairs = vec![
        ("id", Json::text(id)),
        ("object", Json::text("model")),
        ("owned_by", Json::text("deepseek-web")),
        ("tool_calling", Json::Bool(false)),
    ];
    assert(json::pairs_view(pairs@) =~= web_model_members(id@));
    Json::object(pairs)
}

/// The list of models, with the status of the session.
pub fn model_list_with_status(model_aliases: &Table<String>, session_status: Json) -> (r: Json)
    ensures
        r@ == JsonView::object(model_list_members(model_aliases.keys(), session_status@)),
{
    let mut data = vec![
        web_model("deepseek-web/reasoner"),
        web_model("deepseek-web/chat"),
        web_model("deepseek-web/search"),
        web_model("deepseek-web/expert"),
        web_model("deepseek-web/vision"),
    ];
    assert(json::models(data@) =~= web_models());
    let mut aliases = providers::alias_model_items(model_aliases);
    let ghost added = aliases@;
    let ghost kept = data@;
    data.append(&mut aliases);
    assert(json::models(data@) =~= json::models(kept) + json::models(added)) by {
        assert(data@ == kept + added);
    }
    let pairs = vec![
        ("object", Json::text("list")),
        ("data", Json::Array(data)),
        ("provider", Json::text("deepseek-web")),
        ("session", session_status),
    ];
    assert(json::pairs_view(pairs@) =~= model_list_members(
        model_aliases.keys(),
        session_status@,
    ));
    Json::object(pairs)
}

/// The list of models holds the models of the web chat and the aliases by their ids, one
/// after another, each of them once if the aliases are distinct and none is the id of a
/// model.
pub proof fn lemma_model_list_ids(aliases: Seq<Seq<char>>, status: JsonView)
    ensures
        ({
            let list = JsonView::object(model_list_members(aliases, status));
            let ids = web_model_ids() + aliases;
            &&& list.get("data"@) matches Some(JsonView::Array(data)) && {
                &&& data.len() == ids.len()
                &&& forall|i: int|
                    0 <= i < data.len() ==> (#[trigger] data[i]).text_at("id"@) == Some(ids[i])
            }
            &&& aliases.no_duplicates() && (forall|i: int|
                0 <= i < aliases.len() ==> !web_model_ids().contains(#[trigger] aliases[i]))
                ==> ids.no_duplicates()
        }),
{
    let data = web_models() + providers::alias_items(aliases);
    let ids = web_model_ids() + aliases;
    let n = web_model_ids().len();
    lemma_list_names(aliases, status);
    json::lemma_lookup_collected(model_list_members(aliases, status), 1);
    assert forall|i: int| 0 <= i < data.len() implies (#[trigger] data[i]).text_at("id"@) == Some(
        ids[i],
    ) by {
        lemma_model_names(ids[i]);
        if i < n {
            assert(data[i] == JsonView::object(web_model_members(ids[i])));
            json::lemma_lookup_collected(web_model_members(ids[i]), 0);
        } else {
            let pairs = providers::model_members(ids[i], "adapter-alias"@);
            assert(data[i] == JsonView::object(pairs));
            json::lemma_lookup_collected(pairs, 0);
        }
    }
    if aliases.no_duplicates() && (forall|i: int|
        0 <= i < aliases.len() ==> !web_model_ids().contains(#[trigger] aliases[i])) {
        lemma_web_ids();
        assert forall|i: int, j: int| 0 <= i < j < ids.len() implies ids[i] != ids[j] by {
            if i >= n {
                assert(ids[i] == aliases[i - n] && ids[j] == aliases[j - n]);
            } else if j >= n {
                assert(ids[j] == aliases[j - n]);
                assert(web_model_ids().contains(web_model_ids()[i]));
            } else {
                assert(ids[i] == web_model_ids()[i] && ids[j] == web_model_ids()[j]);
            }
        }
        assert(ids.no_duplicates());
    }
}

/// The ids of the models of the web chat are distinct.
proof fn lemma_web_ids()
    ensures
        web_model_ids().no_duplicates(),
{
    reveal_strlit("deepseek-web/reasoner");
    reveal_strlit("deepseek-web/chat");
    reveal_strlit("deepseek-web/search");
    reveal_strlit("deepseek-web/expert");
    reveal_strlit("deepseek-web/vision");
    let ids = web_model_ids();
    let marks = seq!['r', 'c', 's', 'e', 'v'];
    assert forall|i: int, j: int| 0 <= i < ids.len() && 0 <= j < ids.len() && i != j implies ids[i]
        != ids[j] by {
        assert(ids[i][13] == marks[i] && ids[j][13] == marks[j]);
    }
}

proof fn lemma_list_names(aliases: Seq<Seq<char>>, status: JsonView)
    ensures
        forall|i: int, j: int|
            0 <= i < j < model_list_members(aliases, status).len() ==> (
            #[trigger] model_list_members(aliases, status)[i]).0 != (
            #[trigger] model_list_members(aliases, status)[j]).0,
{
    reveal_strlit("object");
    reveal_strlit("data");
    reveal_strlit("provider");
    reveal_strlit("session");
    assert("object"@.len() == 6 && "data"@.len() == 4 && "provider"@.len() == 8 && "session"@.len()
        == 7);
}

proof fn lemma_model_names(id: Seq<char>)
    ensures
        forall|i: int, j: int|
            0 <= i < j < web_model_members(id).len() ==> (#[trigger] web_model_members(id)[i]).0
                != (#[trigger] web_model_members(id)[j]).0,
        forall|i: int, j: int|
            0 <= i < j < providers::model_members(id, "adapter-alias"@).len() ==> (
            #[trigger] providers::model_members(id, "adapter-alias"@)[i]).0 != (
            #[trigger] providers::model_members(id, "adapter-alias"@)[j]).0,
{
    reveal_strlit("id");
    reveal_strlit("object");
    reveal_strlit("owned_by");
    reveal_strlit("tool_calling");
    assert("id"@.len() == 2 && "object"@.len() == 6 && "owned_by"@.len() == 8
        && "tool_calling"@.len() == 12);
}

/// The list of models, if there is a session.
pub open spec fn listed_models(
    aliases: Seq<Seq<char>>,
    options: OptionsView,
    stored: Option<Seq<char>>,
) -> Result<JsonView, ErrorView> {
    if session_of(options, stored) is Some {
        Ok(JsonView::object(model_list_members(aliases, session_status(options, stored))))
    } else {
        Err(
            ErrorView::Upstream(
                "DeepSeek Web session missing. Login first, then paste Session JSON/Cookie and retry fetching models."@,
            ),
        )
    }
}

/// The list of models, if there is a session.
pub fn list_models(
    model_aliases: &Table<String>,
    options: &UpstreamRequestOptions,
    stored: Option<String>,
) -> (r: Result<Json, AdapterError>)
    ensures
        views::of_result(r) == listed_models(
            model_aliases.keys(),
            options@,
            views::of_option(stored),
        ),
{
    match session_from_options_with_source(options, stored) {
        Some((session, source)) => {
            let status = session_status_from_raw_with_source(session.as_str(), source);
            Ok(model_list_with_status(model_aliases, status))
        },
        None => Err(
            AdapterError::Upstream(
                "DeepSeek Web session missing. Login first, then paste Session JSON/Cookie and retry fetching models.".to_owned(),
            ),
        ),
    }
}

// ---------------------------------------------------------------------------
// Completions
// ---------------------------------------------------------------------------

/// Whether an error says that the session is no longer good.
pub open spec fn says_expired(error: Seq<char>) -> bool {
    text::has(error, "Authorization Failed"@) || text::has(error, "invalid token"@) || text::has(
        error,
        "\"code\":40003"@,
    )
}

/// What a failed completion is reported as.
pub open spec fn reported(error: ErrorView) -> ErrorView {
    if says_expired(error.said()) {
        ErrorView::Upstream(
            "DeepSeek Web session invalid or expired. Re-login DeepSeek Web and refresh ~/.model-toolcall-adapter/deepseek_session.json, or paste a fresh session JSON/Cookie in the UI."@,
        )
    } else {
        ErrorView::Upstream("deepseek web provider"@ + ": "@ + error.said())
    }
}

/// What was said, without the word that ends it and trailing white space.
pub open spec fn cleaned_output(s: Seq<char>) -> Seq<char> {
    text::trimmed_end(text::without_suffix(s, "FINISHED"@))
}

/// What a completion comes to for the request.
pub open spec fn completion_of(outcome: Result<ResponseView, ErrorView>) -> Result<
    ReplyView,
    ErrorView,
> {
    match outcome {
        Err(error) => Err(reported(error)),
        Ok(response) => if text::blank(response.text) && !upstream::present(response.reasoning) {
            Err(
                ErrorView::Upstream("deepseek web provider returned empty text and reasoning"@),
            )
        } else {
            Ok(
                ReplyView {
                    text: cleaned_output(response.text),
                    reasoning: response.reasoning,
                    provider_session_id: Some(response.session_id),
                },
            )
        },
    }
}

/// Whether an error says that the session is no longer good.
pub fn is_auth_error(text: &str) -> (r: bool)
    ensures
        r == says_expired(text@),
{
    text::str_contains(text, "Authorization Failed") || text::str_contains(text, "invalid token")
        || text::str_contains(text, "\"code\":40003")
}

/// What was said, without the word that ends it and trailing white space.
pub fn clean_output(text: &str) -> (r: String)
    ensures
        r@ == cleaned_output(text@),
{
    let chars = text::chars_of(text);
    text::string_of(text::trim_end(text::drop_suffix(chars.as_slice(), "FINISHED")))
}

/// What a completion comes to for the request.
pub fn finish_completion(outcome: Result<DeepSeekWebResponse, AdapterError>) -> (r: Result<
    UpstreamResponse,
    AdapterError,
>)
    ensures
        views::of_result(r) == completion_of(views::of_result(outcome)),
{
    match outcome {
        Err(error) => {
            let said = error.message();
            if is_auth_error(said.as_str()) {
                Err(
                    AdapterError::Upstream(
                        "DeepSeek Web session invalid or expired. Re-login DeepSeek Web and refresh ~/.model-toolcall-adapter/deepseek_session.json, or paste a fresh session JSON/Cookie in the UI.".to_owned(),
                    ),
                )
            } else {
                Err(AdapterError::upstream_failure("deepseek web provider", said.as_str()))
            }
        },
        Ok(response) => {
            if text::is_blank(response.text.as_str()) && !upstream::is_present(
                &response.reasoning,
            ) {
                return Err(
                    AdapterError::Upstream(
                        "deepseek web provider returned empty text and reasoning".to_owned(),
                    ),
                );
            }
            Ok(
                UpstreamResponse {
                    text: clean_output(response.text.as_str()),
                    reasoning: response.reasoning,
                    provider_session_id: Some(response.session_id),
                },
            )
        },
    }
}

} // verus!
