//! From a request to its reply: which model it goes to with which prompt, and what is
//! made of what the model wrote.
use vstd::prelude::*;

use crate::config::{AdapterSettings, SettingsView};
use crate::error::{AdapterError, ErrorView};
use crate::http::sse;
use crate::ids;
use crate::json;
use crate::json::{Json, JsonView, Members};
use crate::protocol;
use crate::protocol_laws;
use crate::protocol_laws::WrittenCall;
use crate::providers;
use crate::responses_store;
use crate::responses_store::{ResponseStore, StoreError, Stored};
use crate::text;
use crate::types;
use crate::types::{
    CallView, MessageView, ParsedToolCall, RequestView, ToolView, UnifiedRequest,
};
use crate::upstream::{OptionsView, UpstreamRequestOptions, UpstreamResponse};
use crate::views;
use crate::wire;
use crate::wire::{chat, messages, responses, WireMode};

verus! {

// ---------------------------------------------------------------------------
// Before the model
// ---------------------------------------------------------------------------

/// The error for a response that is not there.
pub open spec fn no_previous(id: Seq<char>) -> ErrorView {
    ErrorView::NotFound("previous response "@ + id + " not found"@)
}

/// The request with the output of the response that it goes on from before its own
/// messages.
pub open spec fn with_context(stored: Stored, request: RequestView) -> Result<
    RequestView,
    ErrorView,
> {
    match request.previous_response_id {
        None => Ok(request),
        Some(id) => if stored.dom().contains(id) {
            Ok(
                RequestView {
                    messages: responses::messages_of(stored[id].output_items) + request.messages,
                    ..request
                },
            )
        } else {
            Err(no_previous(id))
        },
    }
}

/// Whether a request for a model that the adapter does not know goes to its own model
/// of DeepSeek's web chat: it asks for no other upstream.
pub open spec fn routes_to_deepseek(
    requested: Seq<char>,
    upstream_model: Seq<char>,
    options: OptionsView,
) -> bool {
    &&& providers::names_deepseek(upstream_model)
    &&& !providers::names_deepseek(text::trimmed(requested))
    &&& options.provider is None || providers::asks_deepseek(options)
    &&& options.base_url is None
}

/// The model that a request names: the adapter's own if it names none.
pub open spec fn named_model(requested: Seq<char>, upstream_model: Seq<char>) -> Seq<char> {
    if text::blank(requested) || text::trimmed(requested) == "local-model"@ {
        upstream_model
    } else {
        requested
    }
}

/// The model that a request for this model goes to.
pub open spec fn mapped_model(
    named: Seq<char>,
    settings: SettingsView,
    options: OptionsView,
) -> Seq<char> {
    if settings.model_aliases.dom().contains(text::trimmed(named)) {
        settings.model_aliases[text::trimmed(named)]
    } else if routes_to_deepseek(named, settings.upstream_model, options) {
        settings.upstream_model
    } else {
        named
    }
}

/// The first `n` tools.
pub open spec fn first_tools(tools: Seq<ToolView>, n: nat) -> Seq<ToolView> {
    if tools.len() <= n {
        tools
    } else {
        tools.take(n as int)
    }
}

/// A request as it goes out: with the model that it goes to, the model that it asked
/// for, and its prompt.
pub struct PreparedView {
    pub mode: WireMode,
    pub request: RequestView,
    pub external_model: Seq<char>,
    pub prompt: Seq<char>,
}

/// A request as it goes out, once its context is before it.
pub open spec fn ready(
    mode: WireMode,
    request: RequestView,
    settings: SettingsView,
    options: OptionsView,
) -> PreparedView {
    let external_model = named_model(request.model, settings.upstream_model);
    let out = RequestView {
        model: mapped_model(external_model, settings, options),
        tools: first_tools(request.tools, settings.max_tool_definitions),
        ..request
    };
    PreparedView {
        mode,
        request: out,
        external_model,
        prompt: out.prompt(protocol::protocol_prompt(out.tools)),
    }
}

/// A request as it goes out.
pub open spec fn prepared(
    mode: WireMode,
    asked: RequestView,
    stored: Stored,
    settings: SettingsView,
    options: OptionsView,
) -> Result<PreparedView, ErrorView> {
    if asked.stream {
        Err(ErrorView::StreamUnsupported)
    } else if mode == WireMode::Responses {
        match with_context(stored, asked) {
            Ok(request) => Ok(ready(mode, request, settings, options)),
            Err(error) => Err(error),
        }
    } else {
        Ok(ready(mode, asked, settings, options))
    }
}

/// What a payload comes to before the model is asked.
pub open spec fn prepared_payload(
    mode: WireMode,
    payload: JsonView,
    stored: Stored,
    settings: SettingsView,
    options: OptionsView,
) -> Result<PreparedView, ErrorView> {
    match types::wire_request(mode, payload) {
        Err(error) => Err(error),
        Ok(asked) => prepared(mode, asked, stored, settings, options),
    }
}

/// A request as it goes out, with the items that it was asked with.
#[derive(Debug)]
pub struct PreparedRequest {
    pub mode: WireMode,
    pub request: UnifiedRequest,
    pub external_model: String,
    pub prompt: String,
    pub input_items: Vec<Json>,
}

impl View for PreparedRequest {
    type V = PreparedView;

    open spec fn view(&self) -> PreparedView {
        PreparedView {
            mode: self.mode,
            request: self.request@,
            external_model: self.external_model@,
            prompt: self.prompt@,
        }
    }
}

/// Puts the output of the response that a request goes on from before its messages.
pub fn prepend_previous_response_context(store: &ResponseStore, request: UnifiedRequest) -> (r:
    Result<UnifiedRequest, AdapterError>)
    ensures
        views::of_result(r) == with_context(store@, request@),
{
    let id = match &request.previous_response_id {
        None => {
            return Ok(request);
        },
        Some(id) => id.clone(),
    };
    let items = match store.context_items_for(id.as_str()) {
        Some(items) => items,
        None => {
            let mut message = "previous response ".to_owned();
            message.append(id.as_str());
            message.append(" not found");
            return Err(AdapterError::NotFound(message));
        },
    };
    let mut request = request;
    let mut thread = responses::parse_items(&items);
    let ghost context = thread@;
    let ghost own = request.messages@;
    thread.append(&mut request.messages);
    assert(views::of_list(thread@) =~= views::of_list(context) + views::of_list(own)) by {
        assert(thread@ == context + own);
    }
    request.messages = thread;
    Ok(request)
}

/// Whether a request for a model that the adapter does not know goes to its own model
/// of DeepSeek's web chat.
pub fn should_route_to_default_deepseek_model(
    requested_model: &str,
    upstream_model: &str,
    upstream_options: &UpstreamRequestOptions,
) -> (r: bool)
    ensures
        r == routes_to_deepseek(requested_model@, upstream_model@, upstream_options@),
{
    text::str_starts_with(upstream_model, "deepseek-web/") && !text::str_starts_with(
        text::trim_str(requested_model).as_str(),
        "deepseek-web/",
    ) && (upstream_options.provider.is_none() || providers::wants_deepseek(upstream_options))
        && upstream_options.base_url.is_none()
}

/// The model that a request names.
fn name_model(requested: &str, upstream_model: &str) -> (r: String)
    ensures
        r@ == named_model(requested@, upstream_model@),
{
    if text::is_blank(requested) || text::same(
        text::trim_str(requested).as_str(),
        "local-model",
    ) {
        upstream_model.to_owned()
    } else {
        requested.to_owned()
    }
}

/// The model that a request for this model goes to.
fn map_model(named: &str, settings: &AdapterSettings, options: &UpstreamRequestOptions) -> (r:
    String)
    ensures
        r@ == mapped_model(named@, settings@, options@),
{
    match settings.model_aliases.get(text::trim_str(named).as_str()) {
        Some(model) => model.clone(),
        None => {
            if should_route_to_default_deepseek_model(
                named,
                settings.upstream_model.as_str(),
                options,
            ) {
                settings.upstream_model.clone()
            } else {
                named.to_owned()
            }
        },
    }
}

/// A request as it goes out, once its context is before it.
fn make_ready(
    mode: WireMode,
    request: UnifiedRequest,
    settings: &AdapterSettings,
    options: &UpstreamRequestOptions,
    input_items: Vec<Json>,
) -> (r: PreparedRequest)
    ensures
        r@ == ready(mode, request@, settings@, options@),
        r.input_items == input_items,
{
    let ghost asked = request@;
    let ghost offered = request.tools@;
    let mut request = request;
    let external_model = name_model(request.model.as_str(), settings.upstream_model.as_str());
    request.model = map_model(external_model.as_str(), settings, options);
    request.tools.truncate(settings.max_tool_definitions);
    assert(request@.tools =~= first_tools(asked.tools, settings@.max_tool_definitions));
    let protocol = protocol::render_tool_protocol_prompt(request.tools.as_slice());
    let prompt = request.render_prompt_with_tool_protocol(protocol.as_str());
    PreparedRequest { mode, request, external_model, prompt, input_items }
}

/// Prepares a request to go out. The items that it was asked with, which a response
/// keeps, are those of its own messages, without its context; only a response has any.
pub fn prepare_request(
    mode: WireMode,
    request: UnifiedRequest,
    store: &ResponseStore,
    settings: &AdapterSettings,
    options: &UpstreamRequestOptions,
) -> (r: Result<PreparedRequest, AdapterError>)
    ensures
        views::of_result(r) == prepared(mode, request@, store@, settings@, options@),
        mode == WireMode::Responses ==> (r matches Ok(out) ==> responses_store::are_items_of(
            json::models(out.input_items@),
            request@,
        )),
        mode != WireMode::Responses ==> (r matches Ok(out) ==> out.input_items@.len() == 0),
{
    if request.stream {
        return Err(AdapterError::StreamUnsupported);
    }
    match mode {
        WireMode::Responses => {
            let input_items = responses_store::input_items_from_request(&request);
            match prepend_previous_response_context(store, request) {
                Ok(request) => Ok(make_ready(mode, request, settings, options, input_items)),
                Err(error) => Err(error),
            }
        },
        _ => Ok(make_ready(mode, request, settings, options, Vec::new())),
    }
}

/// Reads a payload and prepares its request to go out.
pub fn prepare_payload(
    mode: WireMode,
    payload: Json,
    store: &ResponseStore,
    settings: &AdapterSettings,
    options: &UpstreamRequestOptions,
) -> (r: Result<PreparedRequest, AdapterError>)
    ensures
        views::of_result(r) == prepared_payload(mode, payload@, store@, settings@, options@),
        mode == WireMode::Responses ==> (r matches Ok(out) ==> responses_store::are_items_of(
            json::models(out.input_items@),
            types::wire_request(mode, payload@)->Ok_0,
        )),
        mode != WireMode::Responses ==> (r matches Ok(out) ==> out.input_items@.len() == 0),
{
    match UnifiedRequest::from_wire_payload(mode, payload) {
        Err(error) => Err(error),
        Ok(request) => prepare_request(mode, request, store, settings, options),
    }
}

// ---------------------------------------------------------------------------
// After the model
// ---------------------------------------------------------------------------

/// Whether every call is of this tool.
pub open spec fn all_named(calls: Seq<CallView>, name: Seq<char>) -> bool {
    forall|i: int| 0 <= i < calls.len() ==> (#[trigger] calls[i]).name == name
}

/// The calls that the choice of tools leaves: none if it allows none, and an error if
/// it requires one tool and another is called.
pub open spec fn chosen_calls(request: RequestView, calls: Seq<CallView>) -> Result<
    Seq<CallView>,
    ErrorView,
> {
    if calls.len() == 0 || request.tool_choice is Never {
        Ok(Seq::empty())
    } else {
        match request.tool_choice.required_name() {
            Some(name) => if all_named(calls, name) {
                Ok(calls)
            } else {
                Err(
                    ErrorView::InvalidRequest(
                        "model emitted a tool other than required function "@ + name,
                    ),
                )
            },
            None => Ok(calls),
        }
    }
}

/// The calls that are left where calls may not be parallel: the first.
pub open spec fn constrained(request: RequestView, calls: Seq<CallView>) -> Seq<CallView> {
    if request.parallel_tool_calls || calls.len() == 0 {
        calls
    } else {
        calls.take(1)
    }
}

/// The calls that a reply makes. A response whose choice requires a tool fails without
/// one, and is held to one call where calls may not be parallel.
pub open spec fn reply_calls(mode: WireMode, request: RequestView, model_text: Seq<char>) -> Result<
    Seq<CallView>,
    ErrorView,
> {
    match chosen_calls(request, protocol::calls_in(model_text)) {
        Err(error) => Err(error),
        Ok(calls) => if mode == WireMode::Responses {
            if calls.len() == 0 && (request.tool_choice is Required || request.tool_choice
                is Function) {
                Err(
                    ErrorView::InvalidRequest(
                        "tool_choice requires a tool call, but the upstream model returned text"@,
                    ),
                )
            } else {
                Ok(constrained(request, calls))
            }
        } else {
            Ok(calls)
        },
    }
}

/// A body with this as its model, unless that is blank.
pub open spec fn with_model(body: JsonView, model: Seq<char>) -> JsonView {
    if text::blank(model) {
        body
    } else {
        sse::with_member(body, "model"@, JsonView::Text(model))
    }
}

/// The items of a response: what the model said, or the calls.
pub open spec fn output_of(
    model_text: Seq<char>,
    calls: Seq<CallView>,
    unique: Seq<Seq<char>>,
) -> Seq<JsonView> {
    if calls.len() == 0 {
        seq![JsonView::object(responses::message_members(model_text, unique[0]))]
    } else {
        responses::call_items(calls, unique)
    }
}

/// How many ids a reply takes: its own, and in a response one for each item.
pub open spec fn ids_for(mode: WireMode, calls: Seq<CallView>) -> nat {
    if mode != WireMode::Responses {
        1
    } else if calls.len() == 0 {
        2
    } else {
        1 + calls.len()
    }
}

/// The reply with these calls, ids and time. It says the model that was asked for.
pub open spec fn reply_of(
    out: PreparedView,
    model_text: Seq<char>,
    calls: Seq<CallView>,
    unique: Seq<Seq<char>>,
    created: int,
) -> JsonView {
    let body = match out.mode {
        WireMode::ChatCompletions => JsonView::object(
            chat::reply_members(out.request.model, model_text, calls, unique[0], created),
        ),
        WireMode::Messages => JsonView::object(
            messages::reply_members(out.request.model, model_text, calls, unique[0]),
        ),
        WireMode::Responses => JsonView::object(
            responses::response_members(
                out.request,
                output_of(model_text, calls, unique.skip(1)),
                if calls.len() == 0 {
                    model_text
                } else {
                    Seq::empty()
                },
                unique[0],
                created,
            ),
        ),
    };
    with_model(body, out.external_model)
}

/// Whether a body is the reply with these calls, with random ids and some time.
pub open spec fn replies(
    out: PreparedView,
    model_text: Seq<char>,
    calls: Seq<CallView>,
    body: JsonView,
) -> bool {
    exists|unique: Seq<Seq<char>>, created: int|
        unique.len() == ids_for(out.mode, calls) && ids::all_random(unique) && body
            == #[trigger] reply_of(out, model_text, calls, unique, created)
}

/// The store once a reply was given: a response is kept, with the items that it was
/// asked with and the session of the upstream.
pub open spec fn store_after(
    stored: Stored,
    out: PreparedView,
    body: JsonView,
    input_items: Seq<JsonView>,
    provider_session_id: Option<Seq<char>>,
) -> Stored {
    if out.mode == WireMode::Responses {
        responses_store::with_response(
            stored,
            body,
            input_items,
            out.request.background,
            provider_session_id,
        )
    } else {
        stored
    }
}

/// The calls that the choice of tools leaves.
pub fn apply_tool_choice_to_tool_calls(
    request: &UnifiedRequest,
    _model_text: &str,
    tool_calls: Vec<ParsedToolCall>,
) -> (r: Result<Vec<ParsedToolCall>, AdapterError>)
    ensures
        match r {
            Ok(calls) => chosen_calls(request@, views::of_list(tool_calls@)) == Ok::<
                Seq<CallView>,
                ErrorView,
            >(views::of_list(calls@)),
            Err(error) => chosen_calls(request@, views::of_list(tool_calls@)) == Err::<
                Seq<CallView>,
                ErrorView,
            >(error@),
        },
{
    let ghost all = views::of_list(tool_calls@);
    if tool_calls.len() == 0 {
        assert(all =~= Seq::empty());
        return Ok(tool_calls);
    }
    if !request.tool_choice.allows_tools() {
        let none: Vec<ParsedToolCall> = Vec::new();
        assert(views::of_list(none@) =~= Seq::empty());
        return Ok(none);
    }
    if let Some(name) = request.tool_choice.required_name() {
        let mut i: usize = 0;
        while i < tool_calls.len()
            invariant
                i <= tool_calls@.len(),
                all == views::of_list(tool_calls@),
                forall|k: int| 0 <= k < i ==> (#[trigger] all[k]).name == name@,
                all.len() > 0,
                !(request@.tool_choice is Never),
                request@.tool_choice.required_name() == Some(name@),
            decreases tool_calls.len() - i,
        {
            if !text::same(tool_calls[i].name.as_str(), name) {
                assert(all[i as int].name != name@);
                let mut message =
                    "model emitted a tool other than required function ".to_owned();
                message.append(name);
                return Err(AdapterError::InvalidRequest(message));
            }
            i += 1;
        }
    }
    Ok(tool_calls)
}

/// The calls that are left where calls may not be parallel.
pub fn constrain_parallel_tool_calls(
    request: &UnifiedRequest,
    tool_calls: Vec<ParsedToolCall>,
) -> (r: Vec<ParsedToolCall>)
    ensures
        views::of_list(r@) == constrained(request@, views::of_list(tool_calls@)),
{
    let ghost all = views::of_list(tool_calls@);
    let mut tool_calls = tool_calls;
    if !request.parallel_tool_calls {
        tool_calls.truncate(1);
    }
    assert(views::of_list(tool_calls@) =~= constrained(request@, all));
    tool_calls
}

/// The calls that a reply makes.
pub fn decide_calls(mode: WireMode, request: &UnifiedRequest, model_text: &str) -> (r: Result<
    Vec<ParsedToolCall>,
    AdapterError,
>)
    ensures
        match r {
            Ok(calls) => reply_calls(mode, request@, model_text@) == Ok::<Seq<CallView>, ErrorView>(
                views::of_list(calls@),
            ),
            Err(error) => reply_calls(mode, request@, model_text@) == Err::<
                Seq<CallView>,
                ErrorView,
            >(error@),
        },
{
    let calls = match apply_tool_choice_to_tool_calls(
        request,
        model_text,
        protocol::parse_tool_calls(model_text),
    ) {
        Ok(calls) => calls,
        Err(error) => {
            return Err(error);
        },
    };
    match mode {
        WireMode::Responses => {
            if calls.len() == 0 && request.tool_choice.requires_tool() {
                return Err(
                    AdapterError::InvalidRequest(
                        "tool_choice requires a tool call, but the upstream model returned text".to_owned(),
                    ),
                );
            }
            Ok(constrain_parallel_tool_calls(request, calls))
        },
        _ => Ok(calls),
    }
}

/// Puts the model that was asked for in a body.
pub fn restore_external_model(body: Json, external_model: &str) -> (r: Json)
    requires
        text::blank(external_model@) || sse::takes_members(body@),
    ensures
        r@ == with_model(body@, external_model@),
{
    if text::is_blank(external_model) {
        body
    } else {
        sse::set_member(body, "model", Json::text(external_model))
    }
}

/// The items of a response.
fn emit_output(model_text: &str, calls: &Vec<ParsedToolCall>, unique: &[String]) -> (r: Vec<Json>)
    requires
        unique@.len() >= calls@.len(),
        unique@.len() >= 1,
    ensures
        json::models(r@) == output_of(model_text@, views::of_list(calls@), text::texts(unique@)),
{
    if calls.len() == 0 {
        let item = responses::message_output_item(model_text, unique[0].as_str());
        let output = vec![item];
        assert(json::models(output@) =~= seq![item@]);
        output
    } else {
        responses::function_call_items(calls.as_slice(), unique)
    }
}

/// The reply with these calls, ids and time.
pub fn reply_with(
    out: &PreparedRequest,
    model_text: &str,
    calls: &Vec<ParsedToolCall>,
    unique: &[String],
    created: i64,
) -> (r: Json)
    requires
        unique@.len() >= ids_for(out.mode, views::of_list(calls@)),
    ensures
        r@ == reply_of(
            out@,
            model_text@,
            views::of_list(calls@),
            text::texts(unique@),
            created as int,
        ),
{
    let body = match out.mode {
        WireMode::ChatCompletions => chat::response_with(
            &out.request,
            model_text,
            calls.as_slice(),
            unique[0].as_str(),
            created,
        ),
        WireMode::Messages => messages::response_with(
            &out.request,
            model_text,
            calls.as_slice(),
            unique[0].as_str(),
        ),
        WireMode::Responses => {
            let rest = vstd::slice::slice_subrange(unique, 1, unique.len());
            assert(text::texts(rest@) =~= text::texts(unique@).skip(1));
            let output = emit_output(model_text, calls, rest);
            proof {
                reveal_strlit("");
                assert(""@ =~= Seq::empty());
            }
            let output_text = if calls.len() == 0 {
                model_text
            } else {
                ""
            };
            responses::response_from_output(
                &out.request,
                output,
                output_text,
                unique[0].as_str(),
                created,
            )
        },
    };
    restore_external_model(body, out.external_model.as_str())
}

/// Draws the ids that a reply takes.
fn draw_ids(mode: WireMode, calls: &Vec<ParsedToolCall>) -> (r: Vec<String>)
    ensures
        r@.len() == ids_for(mode, views::of_list(calls@)),
        ids::all_random(text::texts(r@)),
{
    let mut out: Vec<String> = Vec::new();
    out.push(ids::fresh_uuid());
    if let WireMode::Responses = mode {
        if calls.len() == 0 {
            out.push(ids::fresh_uuid());
        }
        let mut i: usize = 0;
        let ghost first = out@.len();
        while i < calls.len()
            invariant
                i <= calls@.len(),
                out@.len() == first + i,
                forall|k: int| 0 <= k < out@.len() ==> ids::random_uuid((#[trigger] out@[k])@),
            decreases calls.len() - i,
        {
            out.push(ids::fresh_uuid());
            i += 1;
        }
    }
    out
}

/// What the reply of the upstream comes to for the request. A response is kept in the
/// store.
pub fn finish_request(out: PreparedRequest, reply: &UpstreamResponse, store: &mut ResponseStore) -> (r:
    Result<Json, AdapterError>)
    ensures
        match reply_calls(out@.mode, out@.request, reply@.text) {
            Err(error) => r matches Err(e) && e@ == error && final(store)@ == old(store)@,
            Ok(calls) => r matches Ok(body) && replies(out@, reply@.text, calls, body@)
                && final(store)@ == store_after(
                old(store)@,
                out@,
                body@,
                json::models(out.input_items@),
                reply@.provider_session_id,
            ),
        },
{
    let calls = match decide_calls(out.mode, &out.request, reply.text.as_str()) {
        Ok(calls) => calls,
        Err(error) => {
            return Err(error);
        },
    };
    let drawn = draw_ids(out.mode, &calls);
    let created = ids::unix_time();
    let body = reply_with(&out, reply.text.as_str(), &calls, drawn.as_slice(), created);
    assert(replies(out@, reply@.text, views::of_list(calls@), body@)) by {
        assert(body@ == reply_of(
            out@,
            reply@.text,
            views::of_list(calls@),
            text::texts(drawn@),
            created as int,
        ));
    }
    if let WireMode::Responses = out.mode {
        let context_items = responses_store::input_items_from_request(&out.request);
        let session = match &reply.provider_session_id {
            Some(id) => Some(id.clone()),
            None => None,
        };
        store.insert_with_provider_session(
            body.clone(),
            out.input_items,
            context_items,
            out.request.background,
            session,
        );
    }
    Ok(body)
}

// ---------------------------------------------------------------------------
// What holds of every reply
// ---------------------------------------------------------------------------

/// A reply makes no call if the choice of tools allows none; if it requires one tool,
/// every call is of that tool.
pub proof fn lemma_calls_follow_choice(mode: WireMode, request: RequestView, model_text: Seq<char>)
    ensures
        request.tool_choice is Never ==> reply_calls(mode, request, model_text) == Ok::<
            Seq<CallView>,
            ErrorView,
        >(Seq::empty()),
        request.tool_choice.required_name() matches Some(name) ==> (reply_calls(
            mode,
            request,
            model_text,
        ) matches Ok(calls) ==> all_named(calls, name)),
{
    if request.tool_choice is Never {
        assert(constrained(request, Seq::empty()) =~= Seq::empty());
    }
}

/// A response that must call a tool does so, and where calls may not be parallel it
/// makes one at most.
pub proof fn lemma_response_calls(request: RequestView, model_text: Seq<char>)
    ensures
        reply_calls(WireMode::Responses, request, model_text) matches Ok(calls) ==> {
            &&& request.tool_choice is Required || request.tool_choice is Function ==> calls.len()
                > 0
            &&& !request.parallel_tool_calls ==> calls.len() <= 1
        },
{
}

/// Every call of a reply is one that stands in what the model wrote.
pub proof fn lemma_calls_from_text(mode: WireMode, request: RequestView, model_text: Seq<char>)
    ensures
        reply_calls(mode, request, model_text) matches Ok(calls) ==> forall|i: int|
            0 <= i < calls.len() ==> protocol::calls_in(model_text).contains(#[trigger] calls[i]),
{
    let found = protocol::calls_in(model_text);
    if let Ok(calls) = reply_calls(mode, request, model_text) {
        assert forall|i: int| 0 <= i < calls.len() implies found.contains(
            #[trigger] calls[i],
        ) by {
            assert(calls[i] == found[i]);
        }
    }
}

/// The calls that a model writes as the protocol asks are those of the reply, in their
/// order and as they were meant, if the choice of tools allows them; a response that may
/// not make several makes the first.
pub proof fn lemma_written_calls_are_given(
    mode: WireMode,
    request: RequestView,
    calls: Seq<WrittenCall>,
    behind: Seq<char>,
)
    requires
        calls.len() > 0,
        protocol_laws::all_clear(calls, behind),
        protocol_laws::opens_none(behind),
        !(request.tool_choice is Never),
        request.tool_choice.required_name() matches Some(name) ==> all_named(
            protocol_laws::meant_calls(calls),
            name,
        ),
    ensures
        (forall|i: int|
            0 <= i < calls.len() ==> protocol::jsonish((#[trigger] calls[i]).body) == Some(
                calls[i].value,
            )) ==> reply_calls(mode, request, protocol_laws::text_with(calls, behind)) == Ok::<
            Seq<CallView>,
            ErrorView,
        >(
            if mode == WireMode::Responses {
                constrained(request, protocol_laws::meant_calls(calls))
            } else {
                protocol_laws::meant_calls(calls)
            },
        ),
{
    protocol_laws::lemma_written_calls_are_read(calls, behind);
}

/// What a model says in plain words makes no call in the reply; only a response that must
/// make one fails.
pub proof fn lemma_prose_is_given(mode: WireMode, request: RequestView, model_text: Seq<char>)
    requires
        protocol_laws::opens_none(model_text),
        protocol::fenced(model_text) is None,
    ensures
        protocol::jsonish(model_text) is None ==> (match reply_calls(mode, request, model_text) {
            Ok(calls) => calls.len() == 0 && !(mode == WireMode::Responses && (
            request.tool_choice is Required || request.tool_choice is Function)),
            Err(_) => mode == WireMode::Responses && (request.tool_choice is Required
                || request.tool_choice is Function),
        }),
{
    protocol_laws::lemma_prose_makes_no_call(model_text);
}

/// A reply says the model that was asked for, whatever model it came from.
pub proof fn lemma_reply_model(
    out: PreparedView,
    model_text: Seq<char>,
    calls: Seq<CallView>,
    unique: Seq<Seq<char>>,
    created: int,
)
    requires
        !text::blank(out.external_model),
    ensures
        reply_of(out, model_text, calls, unique, created).text_at("model"@) == Some(
            out.external_model,
        ),
{
    let chat_body = JsonView::object(
        chat::reply_members(out.request.model, model_text, calls, unique[0], created),
    );
    let message_body = JsonView::object(
        messages::reply_members(out.request.model, model_text, calls, unique[0]),
    );
    let response_body = JsonView::object(
        responses::response_members(
            out.request,
            output_of(model_text, calls, unique.skip(1)),
            if calls.len() == 0 {
                model_text
            } else {
                Seq::empty()
            },
            unique[0],
            created,
        ),
    );
    let model = JsonView::Text(out.external_model);
    json::lemma_lookup_inserted(chat_body->Object_0, "model"@, model, "model"@);
    json::lemma_lookup_inserted(message_body->Object_0, "model"@, model, "model"@);
    json::lemma_lookup_inserted(response_body->Object_0, "model"@, model, "model"@);
}

/// A response that was given is in the store under its id, and one that goes on from
/// it finds its output: each call that it made, as a function call of its own id.
pub proof fn lemma_response_kept(
    stored: Stored,
    out: PreparedView,
    model_text: Seq<char>,
    calls: Seq<CallView>,
    unique: Seq<Seq<char>>,
    created: int,
    input_items: Seq<JsonView>,
    session: Option<Seq<char>>,
)
    requires
        out.mode == WireMode::Responses,
    ensures
        ({
            let body = reply_of(out, model_text, calls, unique, created);
            let now = store_after(stored, out, body, input_items, session);
            let id = "resp_"@ + unique[0];
            &&& body.text_at("id"@) == Some(id)
            &&& now.dom().contains(id)
            &&& now[id].body == body
            &&& now[id].input_items == input_items
            &&& now[id].output_items == output_of(model_text, calls, unique.skip(1))
            &&& now[id].provider_session_id == session
        }),
{
    let output = output_of(model_text, calls, unique.skip(1));
    let said = if calls.len() == 0 {
        model_text
    } else {
        Seq::empty()
    };
    let pairs = responses::response_members(out.request, output, said, unique[0], created);
    lemma_response_names(pairs);
    json::lemma_lookup_collected(pairs, 0);
    json::lemma_lookup_collected(pairs, 6);
    let members = json::collected(pairs);
    let model = JsonView::Text(out.external_model);
    reveal_strlit("id");
    reveal_strlit("model");
    reveal_strlit("output");
    assert("id"@.len() == 2 && "model"@.len() == 5 && "output"@.len() == 6);
    json::lemma_lookup_inserted(members, "model"@, model, "id"@);
    json::lemma_lookup_inserted(members, "model"@, model, "output"@);
}

/// What a response said, as messages: the text of the model, or the calls that it made.
pub open spec fn said(model_text: Seq<char>, calls: Seq<CallView>) -> Seq<MessageView> {
    if calls.len() == 0 {
        seq![responses::said_message(model_text)]
    } else {
        calls.map_values(|call: CallView| responses::called_message(call))
    }
}

/// A request that goes on from a response that was given has what that response said
/// before its own messages.
pub proof fn lemma_goes_on(
    stored: Stored,
    out: PreparedView,
    model_text: Seq<char>,
    calls: Seq<CallView>,
    unique: Seq<Seq<char>>,
    created: int,
    input_items: Seq<JsonView>,
    session: Option<Seq<char>>,
    request: RequestView,
)
    requires
        out.mode == WireMode::Responses,
        request.previous_response_id == Some("resp_"@ + unique[0]),
    ensures
        ({
            let body = reply_of(out, model_text, calls, unique, created);
            let now = store_after(stored, out, body, input_items, session);
            with_context(now, request) == Ok::<RequestView, ErrorView>(
                RequestView { messages: said(model_text, calls) + request.messages, ..request },
            )
        }),
{
    lemma_response_kept(stored, out, model_text, calls, unique, created, input_items, session);
    let items = output_of(model_text, calls, unique.skip(1));
    assert(responses::messages_of(items) =~= said(model_text, calls)) by {
        if calls.len() == 0 {
            responses::lemma_message_item_reads_back(model_text, unique.skip(1)[0]);
            assert(items.take(0) =~= Seq::empty());
            reveal_with_fuel(responses::messages_of, 2);
        } else {
            responses::lemma_call_items_read_back(calls, unique.skip(1));
        }
    }
}

proof fn lemma_response_names(pairs: Members)
    requires
        pairs.len() == 12,
        pairs[0].0 == "id"@,
        pairs[1].0 == "object"@,
        pairs[2].0 == "created_at"@,
        pairs[3].0 == "status"@,
        pairs[4].0 == "background"@,
        pairs[5].0 == "model"@,
        pairs[6].0 == "output"@,
        pairs[7].0 == "output_text"@,
        pairs[8].0 == "parallel_tool_calls"@,
        pairs[9].0 == "previous_response_id"@,
        pairs[10].0 == "tool_choice"@,
        pairs[11].0 == "usage"@,
    ensures
        forall|i: int, j: int|
            0 <= i < j < pairs.len() ==> (#[trigger] pairs[i]).0 != (#[trigger] pairs[j]).0,
{
    reveal_strlit("id");
    reveal_strlit("object");
    reveal_strlit("created_at");
    reveal_strlit("status");
    reveal_strlit("background");
    reveal_strlit("model");
    reveal_strlit("output");
    reveal_strlit("output_text");
    reveal_strlit("parallel_tool_calls");
    reveal_strlit("previous_response_id");
    reveal_strlit("tool_choice");
    reveal_strlit("usage");
    let firsts = seq![
        ("id"@.len(), 'i', 'd'),
        ("object"@.len(), 'o', 'b'),
        ("created_at"@.len(), 'c', 'r'),
        ("status"@.len(), 's', 't'),
        ("background"@.len(), 'b', 'a'),
        ("model"@.len(), 'm', 'o'),
        ("output"@.len(), 'o', 'u'),
        ("output_text"@.len(), 'o', 'u'),
        ("parallel_tool_calls"@.len(), 'p', 'a'),
        ("previous_response_id"@.len(), 'p', 'r'),
        ("tool_choice"@.len(), 't', 'o'),
        ("usage"@.len(), 'u', 's'),
    ];
    assert forall|i: int, j: int| 0 <= i < j < pairs.len() implies (#[trigger] pairs[i]).0 != (
    #[trigger] pairs[j]).0 by {
        assert(firsts[i] == (pairs[i].0.len(), pairs[i].0[0], pairs[i].0[1]));
        assert(firsts[j] == (pairs[j].0.len(), pairs[j].0[0], pairs[j].0[1]));
        assert(firsts[i] != firsts[j]);
    }
}

// ---------------------------------------------------------------------------
// The other routes of responses
// ---------------------------------------------------------------------------

/// The payload of a request for a response, which is made without a stream, and whether
/// its reply is to be one.
pub open spec fn unstreamed(payload: JsonView) -> (JsonView, bool) {
    if wire::is_set(payload, "stream"@) {
        (sse::with_member(payload, "stream"@, JsonView::Bool(false)), true)
    } else {
        (payload, false)
    }
}

/// The payload of a request for a response, which is made without a stream, and whether
/// its reply is to be one.
pub fn take_stream_flag(payload: Json) -> (r: (Json, bool))
    ensures
        (r.0@, r.1) == unstreamed(payload@),
{
    if wire::flag(&payload, "stream") {
        (sse::set_member(payload, "stream", Json::Bool(false)), true)
    } else {
        (payload, false)
    }
}

/// A request for a response whose stream flag was taken is not turned away for it.
pub proof fn lemma_unstreamed(payload: JsonView)
    ensures
        !wire::is_set(unstreamed(payload).0, "stream"@),
{
    if let JsonView::Object(members) = payload {
        json::lemma_lookup_inserted(members, "stream"@, JsonView::Bool(false), "stream"@);
    }
}

/// The error for a response that is not there.
pub open spec fn no_response(id: Seq<char>) -> ErrorView {
    ErrorView::NotFound("response "@ + id + " not found"@)
}

/// The error for a response that is not there.
fn missing_response(id: &str) -> (r: AdapterError)
    ensures
        r@ == no_response(id@),
{
    let mut message = "response ".to_owned();
    message.append(id);
    message.append(" not found");
    AdapterError::NotFound(message)
}

/// The body of a response.
pub fn responses_retrieve(store: &ResponseStore, response_id: &str) -> (r: Result<
    Json,
    AdapterError,
>)
    ensures
        views::of_result(r) == (if store@.dom().contains(response_id@) {
            Ok::<JsonView, ErrorView>(store@[response_id@].body)
        } else {
            Err::<JsonView, ErrorView>(no_response(response_id@))
        }),
{
    match store.retrieve(response_id) {
        Some(body) => Ok(body),
        None => Err(missing_response(response_id)),
    }
}

/// Which of the items of a response are asked for.
#[derive(Debug, Clone)]
pub struct ResponseItemsQuery {
    pub after: Option<String>,
    pub limit: Option<usize>,
    pub order: Option<String>,
}

impl ResponseItemsQuery {
    /// Whether the oldest items come first.
    pub open spec fn ascends(self) -> bool {
        self.order matches Some(order) && text::same_ignoring_case(order@, "asc"@)
    }
}

/// A page of the items that a response was asked with.
pub fn responses_input_items(
    store: &ResponseStore,
    response_id: &str,
    query: &ResponseItemsQuery,
) -> (r: Result<Json, AdapterError>)
    ensures
        views::of_result(r) == (if store@.dom().contains(response_id@) {
            Ok::<JsonView, ErrorView>(
                JsonView::object(
                    responses_store::page_members(
                        responses_store::page_of(
                            store@[response_id@].input_items,
                            views::of_option(query.after),
                            query.limit,
                            query.ascends(),
                        ),
                    ),
                ),
            )
        } else {
            Err::<JsonView, ErrorView>(no_response(response_id@))
        }),
{
    let ascending = match &query.order {
        Some(order) => text::eq_ignore_case(order.as_str(), "asc"),
        None => false,
    };
    let after = match &query.after {
        Some(after) => Some(after.as_str()),
        None => None,
    };
    match store.list_input_items(response_id, after, query.limit, ascending) {
        Some(body) => Ok(body),
        None => Err(missing_response(response_id)),
    }
}

/// What cancelling a response is answered with.
pub open spec fn cancel_answer(stored: Stored, id: Seq<char>) -> Result<JsonView, ErrorView> {
    match responses_store::cancellable(stored, id) {
        Ok(_) => Ok(responses_store::cancelled(stored[id].body)),
        Err(StoreError::NotFound) => Err(no_response(id)),
        Err(StoreError::NotBackground) => Err(
            ErrorView::InvalidRequest("only background responses can be cancelled"@),
        ),
    }
}

/// Cancels a response that runs in the background.
pub fn responses_cancel(store: &mut ResponseStore, response_id: &str) -> (r: Result<
    Json,
    AdapterError,
>)
    ensures
        views::of_result(r) == cancel_answer(old(store)@, response_id@),
        final(store)@ == responses_store::with_cancelled(old(store)@, response_id@),
{
    match store.cancel(response_id) {
        Ok(body) => Ok(body),
        Err(StoreError::NotFound) => Err(missing_response(response_id)),
        Err(StoreError::NotBackground) => Err(
            AdapterError::InvalidRequest("only background responses can be cancelled".to_owned()),
        ),
    }
}

/// The request that is compacted: that of the payload, or one without messages if the
/// payload has no input.
pub open spec fn compacted_request(payload: JsonView) -> RequestView {
    match responses::request_of(payload) {
        Ok(request) => request,
        Err(_) => RequestView {
            model: wire::text_or(payload, "model"@, Seq::empty()),
            max_tokens: wire::token_limit(payload, "max_output_tokens"@, "max_tokens"@),
            system: payload.text_at("instructions"@),
            messages: Seq::empty(),
            tools: chat::tools_of(chat::items_of(payload.get("tools"@))),
            tool_choice: chat::choice_of(payload.get("tool_choice"@)),
            parallel_tool_calls: wire::is_set(payload, "parallel_tool_calls"@),
            stream: wire::is_set(payload, "stream"@),
            background: false,
            previous_response_id: payload.text_at("previous_response_id"@),
        },
    }
}

/// The request that is compacted.
pub fn compact_request(payload: Json) -> (r: UnifiedRequest)
    ensures
        r@ == compacted_request(payload@),
{
    proof {
        reveal_strlit("");
        assert(""@ =~= Seq::empty());
    }
    let (messages, background) = match payload.get("input") {
        Some(input) => (responses::parse_input(input), wire::flag(&payload, "background")),
        None => {
            let none: Vec<types::UnifiedMessage> = Vec::new();
            assert(views::of_list(none@) =~= Seq::empty());
            (none, false)
        },
    };
    UnifiedRequest {
        model: wire::text_or_else(&payload, "model", ""),
        max_tokens: wire::read_token_limit(&payload, "max_output_tokens", "max_tokens"),
        system: wire::owned_text_at(&payload, "instructions"),
        messages,
        tools: chat::parse_tools(payload.get("tools")),
        tool_choice: chat::parse_tool_choice(payload.get("tool_choice")),
        parallel_tool_calls: wire::flag(&payload, "parallel_tool_calls"),
        stream: wire::flag(&payload, "stream"),
        background,
        previous_response_id: wire::owned_text_at(&payload, "previous_response_id"),
    }
}

/// The items that a compacted request starts with: the output of the response that it
/// goes on from.
pub open spec fn compacted_context(stored: Stored, request: RequestView) -> Result<
    Seq<JsonView>,
    ErrorView,
> {
    match request.previous_response_id {
        None => Ok(Seq::empty()),
        Some(id) => if stored.dom().contains(id) {
            Ok(stored[id].output_items)
        } else {
            Err(no_previous(id))
        },
    }
}

/// The members of a compaction.
pub open spec fn compaction_members(
    output: Seq<JsonView>,
    unique: Seq<char>,
    created: int,
) -> Members {
    seq![
        ("id"@, JsonView::Text("cmp_"@ + unique)),
        ("created_at"@, JsonView::Integer(created)),
        ("object"@, JsonView::Text("response.compaction"@)),
        ("output"@, JsonView::Array(output)),
    ]
}

/// The compaction of a request with these ids and this time, if the response that it
/// goes on from is there.
pub open spec fn compaction_of(
    stored: Stored,
    request: RequestView,
    item_ids: Seq<Seq<char>>,
    unique: Seq<char>,
    created: int,
) -> Result<JsonView, ErrorView> {
    match compacted_context(stored, request) {
        Err(error) => Err(error),
        Ok(context) => Ok(
            JsonView::object(
                compaction_members(
                    context + responses_store::request_items(request, item_ids),
                    unique,
                    created,
                ),
            ),
        ),
    }
}

/// The compaction of a request with these items of its own, this id and this time.
pub fn compact_with(
    store: &ResponseStore,
    request: &UnifiedRequest,
    items: Vec<Json>,
    unique: &str,
    created: i64,
) -> (r: Result<Json, AdapterError>)
    ensures
        views::of_result(r) == (match compacted_context(store@, request@) {
            Err(error) => Err::<JsonView, ErrorView>(error),
            Ok(context) => Ok::<JsonView, ErrorView>(
                JsonView::object(
                    compaction_members(
                        context + json::models(items@),
                        unique@,
                        created as int,
                    ),
                ),
            ),
        }),
{
    let mut output = match &request.previous_response_id {
        None => {
            let none: Vec<Json> = Vec::new();
            assert(json::models(none@) =~= Seq::empty());
            none
        },
        Some(id) => match store.context_items_for(id.as_str()) {
            Some(items) => items,
            None => {
                let mut message = "previous response ".to_owned();
                message.append(id.as_str());
                message.append(" not found");
                return Err(AdapterError::NotFound(message));
            },
        },
    };
    let ghost context = output@;
    let ghost own = items@;
    let mut items = items;
    output.append(&mut items);
    assert(json::models(output@) =~= json::models(context) + json::models(own)) by {
        assert(output@ == context + own);
    }
    let mut id = "cmp_".to_owned();
    id.append(unique);
    let pairs = vec![
        ("id", Json::Text(id)),
        ("created_at", Json::integer(created)),
        ("object", Json::text("response.compaction")),
        ("output", Json::Array(output)),
    ];
    assert(json::pairs_view(pairs@) =~= compaction_members(
        json::models(context) + json::models(own),
        unique@,
        created as int,
    ));
    Ok(Json::object(pairs))
}

/// The compaction of the request that a payload makes, with random ids and the time.
pub fn responses_compact(store: &ResponseStore, payload: Json) -> (r: Result<Json, AdapterError>)
    ensures
        exists|item_ids: Seq<Seq<char>>, unique: Seq<char>, created: int|
            item_ids.len() == responses_store::request_ids(compacted_request(payload@))
                && ids::all_random(item_ids) && ids::random_uuid(unique) && views::of_result(r)
                == #[trigger] compaction_of(
                store@,
                compacted_request(payload@),
                item_ids,
                unique,
                created,
            ),
{
    let request = compact_request(payload);
    let items = responses_store::input_items_from_request(&request);
    let unique = ids::fresh_uuid();
    let created = ids::unix_time();
    let ghost item_ids = choose|item_ids: Seq<Seq<char>>|
        item_ids.len() == responses_store::request_ids(request@) && ids::all_random(item_ids)
            && json::models(items@) == #[trigger] responses_store::request_items(request@, item_ids);
    let r = compact_with(store, &request, items, unique.as_str(), created);
    assert(views::of_result(r) == compaction_of(
        store@,
        request@,
        item_ids,
        unique@,
        created as int,
    ));
    r
}

} // verus!
