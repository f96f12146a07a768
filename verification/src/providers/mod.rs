//! The upstreams that requests go to.
use vstd::prelude::*;

use crate::json;
use crate::json::{Json, JsonView, Members};
use crate::table::Table;
use crate::text;
use crate::types::{RequestView, UnifiedRequest};
use crate::upstream::{OptionsView, UpstreamRequestOptions};

pub mod deepseek_web;
pub mod laws;
pub mod openai_compat;

verus! {

/// An upstream.
#[derive(Debug, Clone, Copy, PartialEq, Eq, Structural)]
pub enum ProviderKind {
    /// A server with the chat completions API.
    OpenAiCompat,
    /// The chat of DeepSeek's web site.
    DeepSeekWeb,
}

/// Whether a model is one of DeepSeek's web chat.
pub open spec fn names_deepseek(model: Seq<char>) -> bool {
    text::begins(model, "deepseek-web/"@)
}

/// Whether a request asks for DeepSeek's web chat by its headers.
pub open spec fn asks_deepseek(options: OptionsView) -> bool {
    options.provider matches Some(provider) && text::same_ignoring_case(provider, "deepseek-web"@)
}

/// The upstream of a request.
pub open spec fn provider_of(request: RequestView, options: OptionsView) -> ProviderKind {
    if names_deepseek(request.model) || asks_deepseek(options) {
        ProviderKind::DeepSeekWeb
    } else {
        ProviderKind::OpenAiCompat
    }
}

/// Whether a request asks for DeepSeek's web chat by its headers.
pub fn wants_deepseek(options: &UpstreamRequestOptions) -> (r: bool)
    ensures
        r == asks_deepseek(options@),
{
    match &options.provider {
        Some(provider) => text::eq_ignore_case(provider.as_str(), "deepseek-web"),
        None => false,
    }
}

/// The upstream of a request.
pub fn resolve_provider(request: &UnifiedRequest, options: &UpstreamRequestOptions) -> (r:
    ProviderKind)
    ensures
        r == provider_of(request@, options@),
{
    if text::str_starts_with(request.model.as_str(), "deepseek-web/") || wants_deepseek(options) {
        ProviderKind::DeepSeekWeb
    } else {
        ProviderKind::OpenAiCompat
    }
}

/// Whether one of these models is of DeepSeek's web chat.
pub open spec fn aliases_name_deepseek(aliases: Map<Seq<char>, Seq<char>>) -> bool {
    exists|alias: Seq<char>| #[trigger]
        aliases.dom().contains(alias) && names_deepseek(aliases[alias])
}

/// The upstream whose models are listed.
pub open spec fn listing_provider(
    fallback_model: Seq<char>,
    aliases: Map<Seq<char>, Seq<char>>,
    options: OptionsView,
) -> ProviderKind {
    if names_deepseek(fallback_model) || aliases_name_deepseek(aliases) || asks_deepseek(options) {
        ProviderKind::DeepSeekWeb
    } else {
        ProviderKind::OpenAiCompat
    }
}

/// Whether one of these models is of DeepSeek's web chat.
fn any_alias_names_deepseek(aliases: &Table<String>) -> (r: bool)
    ensures
        r == aliases_name_deepseek(aliases@),
{
    let n = aliases.len();
    let mut i: usize = 0;
    while i < n
        invariant
            i <= n,
            n == aliases.keys().len(),
            aliases.distinct_keys(),
            forall|k: int| 0 <= k < i ==> !names_deepseek(aliases@[#[trigger] aliases.keys()[k]]),
        decreases n - i,
    {
        let model = aliases.value_at(i);
        if text::str_starts_with(model.as_str(), "deepseek-web/") {
            let key = aliases.key_at(i);
            assert(aliases@.dom().contains(key@) && names_deepseek(aliases@[key@]));
            return true;
        }
        i += 1;
    }
    proof {
        aliases.lemma_keys();
        if aliases_name_deepseek(aliases@) {
            let alias = choose|alias: Seq<char>| #[trigger]
                aliases@.dom().contains(alias) && names_deepseek(aliases@[alias]);
            assert(aliases.keys().contains(alias));
            let k = choose|k: int| 0 <= k < aliases.keys().len() && aliases.keys()[k] == alias;
            assert(names_deepseek(aliases@[aliases.keys()[k]]));
        }
    }
    false
}

/// The upstream whose models are listed.
pub fn resolve_listing_provider(
    fallback_model: &str,
    model_aliases: &Table<String>,
    options: &UpstreamRequestOptions,
) -> (r: ProviderKind)
    ensures
        r == listing_provider(fallback_model@, model_aliases@, options@),
{
    if text::str_starts_with(fallback_model, "deepseek-web/") || any_alias_names_deepseek(
        model_aliases,
    ) || wants_deepseek(options) {
        ProviderKind::DeepSeekWeb
    } else {
        ProviderKind::OpenAiCompat
    }
}

/// The members of a model in a list of models.
pub open spec fn model_members(id: Seq<char>, owner: Seq<char>) -> Members {
    seq![
        ("id"@, JsonView::Text(id)),
        ("object"@, JsonView::Text("model"@)),
        ("owned_by"@, JsonView::Text(owner)),
    ]
}

/// The aliases as models.
pub open spec fn alias_items(aliases: Seq<Seq<char>>) -> Seq<JsonView> {
    aliases.map_values(|alias: Seq<char>| JsonView::object(model_members(alias, "adapter-alias"@)))
}

/// A model in a list of models.
pub fn model_item(id: &str, owner: &str) -> (r: Json)
    ensures
        r@ == JsonView::object(model_members(id@, owner@)),
{
    let pairs = vec![
        ("id", Json::text(id)),
        ("object", Json::text("model")),
        ("owned_by", Json::text(owner)),
    ];
    assert(json::pairs_view(pairs@) =~= model_members(id@, owner@));
    Json::object(pairs)
}

/// The aliases as models, in the order in which they were set.
pub fn alias_model_items(model_aliases: &Table<String>) -> (r: Vec<Json>)
    ensures
        json::models(r@) == alias_items(model_aliases.keys()),
{
    let mut out: Vec<Json> = Vec::new();
    let n = model_aliases.len();
    let mut i: usize = 0;
    while i < n
        invariant
            i <= n,
            n == model_aliases.keys().len(),
            json::models(out@) == alias_items(model_aliases.keys().take(i as int)),
        decreases n - i,
    {
        let ghost before = out@;
        let alias = model_aliases.key_at(i);
        out.push(model_item(alias, "adapter-alias"));
        assert(json::models(out@) =~= json::models(before).push(
            JsonView::object(model_members(alias@, "adapter-alias"@)),
        ));
        i += 1;
        assert(model_aliases.keys().take(i as int) =~= model_aliases.keys().take(i - 1).push(alias@));
        assert(json::models(out@) =~= alias_items(model_aliases.keys().take(i as int)));
    }
    assert(model_aliases.keys().take(n as int) =~= model_aliases.keys());
    out
}

} // verus!
