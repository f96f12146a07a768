//! A server with the chat completions API as an upstream, without the network.
use vstd::prelude::*;

use crate::error::{AdapterError, ErrorView};
use crate::json;
use crate::json::{Json, JsonView, Members};
use crate::providers;
use crate::table::Table;
use crate::text;
use crate::text::CharClass;
use crate::types::{RequestView, UnifiedRequest};
use crate::upstream;
use crate::upstream::{OptionsView, ReplyView, UpstreamRequestOptions, UpstreamResponse};
use crate::views;

verus! {

/// Where the upstream is, and the key to it.
pub struct OpenAiView {
    pub base_url: Seq<char>,
    pub api_key: Seq<char>,
}

/// Where the upstream is, and the key to it.
#[derive(Clone)]
pub struct OpenAiCompatClient {
    base_url: String,
    api_key: String,
}

impl View for OpenAiCompatClient {
    type V = OpenAiView;

    closed spec fn view(&self) -> OpenAiView {
        OpenAiView { base_url: self.base_url@, api_key: self.api_key@ }
    }
}

/// `url` without slashes at its end.
pub open spec fn without_slash(url: Seq<char>) -> Seq<char> {
    text::dropped_back(url, CharClass::Only('/'))
}

impl OpenAiView {
    /// Where a request goes: where it asks to, or else where the client points.
    pub open spec fn effective_base_url(self, options: OptionsView) -> Seq<char> {
        match upstream::trimmed_if_present(options.base_url) {
            Some(url) => without_slash(url),
            None => without_slash(self.base_url),
        }
    }

    /// The key that a request goes with: its own, or else the client's.
    pub open spec fn effective_api_key(self, options: OptionsView) -> Seq<char> {
        match upstream::trimmed_if_present(options.api_key) {
            Some(key) => key,
            None => self.api_key,
        }
    }

    /// The key that a request is sent with: none if it is blank.
    pub open spec fn bearer(self, options: OptionsView) -> Option<Seq<char>> {
        let key = self.effective_api_key(options);
        if text::blank(key) {
            None
        } else {
            Some(key)
        }
    }
}

/// The address of the chat completions of a server.
pub open spec fn completions_at(base_url: Seq<char>) -> Seq<char> {
    let lower = text::lowered(base_url);
    if text::ends(lower, "/chat/completions"@) {
        base_url
    } else if text::ends(lower, "/v1"@) {
        base_url + "/chat/completions"@
    } else {
        base_url + "/v1/chat/completions"@
    }
}

/// The address of the models of a server.
pub open spec fn models_at(base_url: Seq<char>) -> Seq<char> {
    let lower = text::lowered(base_url);
    if text::ends(lower, "/models"@) {
        base_url
    } else if text::ends(lower, "/v1"@) {
        base_url + "/models"@
    } else {
        base_url + "/v1/models"@
    }
}

/// The members of the one message that carries the prompt.
pub open spec fn prompt_members(prompt: Seq<char>) -> Members {
    seq![("role"@, JsonView::Text("user"@)), ("content"@, JsonView::Text(prompt))]
}

/// The members of a request for a completion.
pub open spec fn completion_members(request: RequestView, prompt: Seq<char>) -> Members {
    seq![
        ("model"@, JsonView::Text(request.model)),
        ("stream"@, JsonView::Bool(false)),
        ("max_tokens"@, JsonView::Integer(request.max_tokens as int)),
        ("messages"@, JsonView::Array(seq![JsonView::object(prompt_members(prompt))])),
    ]
}

/// A request to the upstream.
#[derive(Debug)]
pub struct OpenAiRequest {
    pub endpoint: String,
    pub bearer: Option<String>,
    pub body: Json,
}

/// What the text of a completion is, where a reply holds one.
pub open spec fn completion_text(payload: JsonView) -> Option<Seq<char>> {
    match payload.text_under(seq!["choices"@, "0"@, "message"@, "content"@]) {
        Some(content) => Some(content),
        None => payload.text_at("response"@),
    }
}

/// What was thought for a completion, where a reply holds it.
pub open spec fn completion_reasoning(payload: JsonView) -> Option<Seq<char>> {
    match payload.text_under(seq!["choices"@, "0"@, "message"@, "reasoning_content"@]) {
        Some(reasoning) => Some(reasoning),
        None => payload.text_under(seq!["choices"@, "0"@, "message"@, "reasoning"@]),
    }
}

/// What a reply to a request for a completion comes to.
pub open spec fn completion_of(success: bool, payload: JsonView) -> Result<ReplyView, ErrorView> {
    if !success {
        Err(ErrorView::Upstream(json::compact(payload)))
    } else {
        match completion_text(payload) {
            None => Err(
                ErrorView::Upstream("missing assistant text"@ + ": "@ + json::compact(payload)),
            ),
            Some(text) => Ok(
                ReplyView {
                    text,
                    reasoning: completion_reasoning(payload),
                    provider_session_id: None,
                },
            ),
        }
    }
}

/// The models that an upstream lists, with the aliases behind them.
pub open spec fn with_aliases(payload: JsonView, aliases: Seq<Seq<char>>) -> JsonView {
    match payload {
        JsonView::Object(members) => match json::lookup(members, "data"@) {
            Some(JsonView::Array(items)) => JsonView::Object(
                json::inserted(
                    members,
                    "data"@,
                    JsonView::Array(items + providers::alias_items(aliases)),
                ),
            ),
            _ => payload,
        },
        _ => payload,
    }
}

/// The members of the list of models where the upstream gives none.
pub open spec fn fallback_members(
    fallback_model: Seq<char>,
    aliases: Seq<Seq<char>>,
    warning: Seq<char>,
) -> Members {
    seq![
        ("object"@, JsonView::Text("list"@)),
        (
            "data"@,
            JsonView::Array(
                seq![JsonView::object(providers::model_members(fallback_model, "adapter-fallback"@))]
                    + providers::alias_items(aliases),
            ),
        ),
        ("warning"@, JsonView::Text(warning)),
    ]
}

/// The list of models that the reply of an upstream gives.
pub open spec fn models_of(
    success: bool,
    payload: JsonView,
    fallback_model: Seq<char>,
    aliases: Seq<Seq<char>>,
) -> JsonView {
    if success {
        with_aliases(payload, aliases)
    } else {
        JsonView::object(fallback_members(fallback_model, aliases, json::compact(payload)))
    }
}

impl OpenAiCompatClient {
    /// The upstream at this address, with this key.
    pub fn new(base_url: &str, api_key: &str) -> (r: Self)
        ensures
            r@ == (OpenAiView { base_url: without_slash(base_url@), api_key: api_key@ }),
    {
        let chars = text::chars_of(base_url);
        OpenAiCompatClient {
            base_url: text::string_of(text::drop_back(chars.as_slice(), CharClass::Only('/'))),
            api_key: api_key.to_owned(),
        }
    }

    /// Where a request goes.
    pub fn effective_base_url(&self, options: &UpstreamRequestOptions) -> (r: String)
        ensures
            r@ == self@.effective_base_url(options@),
    {
        let url = match upstream::trim_if_present(&options.base_url) {
            Some(url) => url,
            None => self.base_url.clone(),
        };
        let chars = text::chars_of(url.as_str());
        text::string_of(text::drop_back(chars.as_slice(), CharClass::Only('/')))
    }

    /// The key that a request goes with.
    pub fn effective_api_key(&self, options: &UpstreamRequestOptions) -> (r: String)
        ensures
            r@ == self@.effective_api_key(options@),
    {
        match upstream::trim_if_present(&options.api_key) {
            Some(key) => key,
            None => self.api_key.clone(),
        }
    }

    /// The key that a request is sent with.
    fn bearer(&self, options: &UpstreamRequestOptions) -> (r: Option<String>)
        ensures
            views::of_option(r) == self@.bearer(options@),
    {
        let key = self.effective_api_key(options);
        if text::is_blank(key.as_str()) {
            None
        } else {
            Some(key)
        }
    }

    /// The request for a completion.
    pub fn completion_request(
        &self,
        request: &UnifiedRequest,
        prompt: &str,
        options: &UpstreamRequestOptions,
    ) -> (r: OpenAiRequest)
        ensures
            r.endpoint@ == completions_at(self@.effective_base_url(options@)),
            views::of_option(r.bearer) == self@.bearer(options@),
            r.body@ == JsonView::object(completion_members(request@, prompt@)),
    {
        let message = vec![("role", Json::text("user")), ("content", Json::text(prompt))];
        assert(json::pairs_view(message@) =~= prompt_members(prompt@));
        let messages = vec![Json::object(message)];
        assert(json::models(messages@) =~= seq![JsonView::object(prompt_members(prompt@))]);
        let pairs = vec![
            ("model", Json::text(request.model.as_str())),
            ("stream", Json::Bool(false)),
            ("max_tokens", Json::Unsigned(request.max_tokens as u64)),
            ("messages", Json::Array(messages)),
        ];
        assert(json::pairs_view(pairs@) =~= completion_members(request@, prompt@));
        OpenAiRequest {
            endpoint: chat_completions_endpoint(self.effective_base_url(options).as_str()),
            bearer: self.bearer(options),
            body: Json::object(pairs),
        }
    }

    /// The request for the list of models: its address and the key to it.
    pub fn models_request(&self, options: &UpstreamRequestOptions) -> (r: (String, Option<String>))
        ensures
            r.0@ == models_at(self@.effective_base_url(options@)),
            views::of_option(r.1) == self@.bearer(options@),
    {
        (
            models_endpoint(self.effective_base_url(options).as_str()),
            self.bearer(options),
        )
    }
}

/// The address of the chat completions of a server.
pub fn chat_completions_endpoint(base_url: &str) -> (r: String)
    ensures
        r@ == completions_at(base_url@),
{
    let chars = text::chars_of(base_url);
    let lower = text::to_lower(chars.as_slice());
    let mut endpoint = base_url.to_owned();
    if text::ends_with_text(lower.as_slice(), "/chat/completions") {
    } else if text::ends_with_text(lower.as_slice(), "/v1") {
        endpoint.append("/chat/completions");
    } else {
        endpoint.append("/v1/chat/completions");
    }
    endpoint
}

/// The address of the models of a server.
pub fn models_endpoint(base_url: &str) -> (r: String)
    ensures
        r@ == models_at(base_url@),
{
    let chars = text::chars_of(base_url);
    let lower = text::to_lower(chars.as_slice());
    let mut endpoint = base_url.to_owned();
    if text::ends_with_text(lower.as_slice(), "/models") {
    } else if text::ends_with_text(lower.as_slice(), "/v1") {
        endpoint.append("/models");
    } else {
        endpoint.append("/v1/models");
    }
    endpoint
}

/// A text that may be missing, as a copy.
fn owned(s: Option<&str>) -> (r: Option<String>)
    ensures
        views::of_option(r) == views::of_option(s),
{
    match s {
        Some(s) => Some(s.to_owned()),
        None => None,
    }
}

/// What a reply to a request for a completion comes to.
pub fn read_completion(success: bool, payload: &Json) -> (r: Result<UpstreamResponse, AdapterError>)
    ensures
        views::of_result(r) == completion_of(success, payload@),
{
    if !success {
        return Err(AdapterError::Upstream(payload.to_text()));
    }
    let content = vec!["choices", "0", "message", "content"];
    let reasoning_content = vec!["choices", "0", "message", "reasoning_content"];
    let reasoning = vec!["choices", "0", "message", "reasoning"];
    proof {
        assert(json::tokens_view(content@) =~= seq![
            "choices"@,
            "0"@,
            "message"@,
            "content"@,
        ]);
        assert(json::tokens_view(reasoning_content@) =~= seq![
            "choices"@,
            "0"@,
            "message"@,
            "reasoning_content"@,
        ]);
        assert(json::tokens_view(reasoning@) =~= seq![
            "choices"@,
            "0"@,
            "message"@,
            "reasoning"@,
        ]);
    }
    let text = match payload.text_under(content.as_slice()) {
        Some(text) => text.to_owned(),
        None => match payload.text_at("response") {
            Some(text) => text.to_owned(),
            None => {
                return Err(
                    AdapterError::upstream_failure(
                        "missing assistant text",
                        payload.to_text().as_str(),
                    ),
                );
            },
        },
    };
    let thought = match payload.text_under(reasoning_content.as_slice()) {
        Some(thought) => Some(thought.to_owned()),
        None => owned(payload.text_under(reasoning.as_slice())),
    };
    Ok(UpstreamResponse { text, reasoning: thought, provider_session_id: None })
}

/// The models that an upstream lists, with the aliases behind them.
pub fn with_alias_models(payload: Json, model_aliases: &Table<String>) -> (r: Json)
    ensures
        r@ == with_aliases(payload@, model_aliases.keys()),
{
    let mut items = match payload.get("data") {
        Some(Json::Array(items)) => json::copied(items),
        _ => {
            return payload;
        },
    };
    let ghost listed = json::models(items@);
    let mut aliases = providers::alias_model_items(model_aliases);
    let ghost added = aliases@;
    let ghost kept = items@;
    items.append(&mut aliases);
    assert(json::models(items@) =~= listed + json::models(added)) by {
        assert(items@ == kept + added);
    }
    match payload {
        Json::Object(object) => Json::Object(object.with("data".to_owned(), Json::Array(items))),
        other => other,
    }
}

/// The list of models where the upstream gives none.
pub fn fallback_models(fallback_model: &str, model_aliases: &Table<String>, warning: &str) -> (r:
    Json)
    ensures
        r@ == JsonView::object(
            fallback_members(fallback_model@, model_aliases.keys(), warning@),
        ),
{
    let first = providers::model_item(fallback_model, "adapter-fallback");
    let mut data = vec![first];
    let mut aliases = providers::alias_model_items(model_aliases);
    let ghost added = aliases@;
    let ghost kept = data@;
    data.append(&mut aliases);
    assert(json::models(data@) =~= seq![first@] + json::models(added)) by {
        assert(data@ == kept + added);
    }
    let pairs = vec![
        ("object", Json::text("list")),
        ("data", Json::Array(data)),
        ("warning", Json::text(warning)),
    ];
    assert(json::pairs_view(pairs@) =~= fallback_members(
        fallback_model@,
        model_aliases.keys(),
        warning@,
    ));
    Json::object(pairs)
}

/// The list of models that the reply of an upstream gives.
pub fn read_models(
    success: bool,
    payload: Json,
    fallback_model: &str,
    model_aliases: &Table<String>,
) -> (r: Json)
    ensures
        r@ == models_of(success, payload@, fallback_model@, model_aliases.keys()),
{
    if success {
        with_alias_models(payload, model_aliases)
    } else {
        fallback_models(fallback_model, model_aliases, payload.to_text().as_str())
    }
}

} // verus!
