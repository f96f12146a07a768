//! What holds of routes: which model a request goes to, with which tools and before which
//! messages, and what the other answers of the server say.
use vstd::prelude::*;

use crate::config::SettingsView;
use crate::error::ErrorView;
use crate::http::routes;
use crate::http::routes::{PreparedView, ResponseItemsQuery};
use crate::http::sse;
use crate::json;
use crate::json::JsonView;
use crate::protocol;
use crate::responses_store;
use crate::responses_store::Stored;
use crate::text;
use crate::text_laws;
use crate::types;
use crate::types::{CallView, ChoiceView, ContentView, MessageView, RequestView};
use crate::upstream::OptionsView;
use crate::wire::{chat, messages, responses, WireMode};

verus! {

// ---------------------------------------------------------------------------
// Before the model
// ---------------------------------------------------------------------------

/// A request that names no model, or the local one, means the adapter's. Another name is
/// what the client is answered with.
pub proof fn lemma_model_named(requested: Seq<char>, upstream_model: Seq<char>)
    ensures
        text::blank(requested) ==> routes::named_model(requested, upstream_model) == upstream_model,
        text::trimmed(requested) == "local-model"@ ==> routes::named_model(requested, upstream_model)
            == upstream_model,
        !text::blank(requested) && text::trimmed(requested) != "local-model"@
            ==> routes::named_model(requested, upstream_model) == requested,
{
}

/// An alias goes to the model that it stands for. Any other name goes as it is, unless the
/// adapter's model is one of DeepSeek's web chat and the request names none of these, asks
/// for no other upstream and for no address: then it goes to the adapter's model.
pub proof fn lemma_model_mapped(named: Seq<char>, settings: SettingsView, options: OptionsView)
    ensures
        ({
            let model = routes::mapped_model(named, settings, options);
            let alias = text::trimmed(named);
            let known = settings.model_aliases.dom().contains(alias);
            let web = text::begins(settings.upstream_model, "deepseek-web/"@);
            &&& known ==> model == settings.model_aliases[alias]
            &&& !known && web && !text::begins(alias, "deepseek-web/"@) && options.provider is None
                && options.base_url is None ==> model == settings.upstream_model
            &&& !known && web && !text::begins(alias, "deepseek-web/"@) && (
            options.provider matches Some(provider) && text::lowered(provider) == "deepseek-web"@)
                && options.base_url is None ==> model == settings.upstream_model
            &&& !known && !web ==> model == named
            &&& !known && text::begins(alias, "deepseek-web/"@) ==> model == named
            &&& !known && options.base_url is Some ==> model == named
            &&& !known && (options.provider matches Some(provider) && text::lowered(provider)
                != "deepseek-web"@) ==> model == named
        }),
{
    reveal_strlit("deepseek-web");
    assert(text::lowered("deepseek-web"@) =~= "deepseek-web"@);
}

/// A request goes out with the model that its name comes to and with the first of its tools,
/// as many as the adapter takes, and is otherwise as it came; its prompt tells the model
/// of these tools.
pub proof fn lemma_request_ready(
    mode: WireMode,
    request: RequestView,
    settings: SettingsView,
    options: OptionsView,
)
    ensures
        ({
            let out = routes::ready(mode, request, settings, options);
            let n = settings.max_tool_definitions as int;
            &&& out.mode == mode
            &&& out.external_model == routes::named_model(request.model, settings.upstream_model)
            &&& out.request.model == routes::mapped_model(out.external_model, settings, options)
            &&& request.tools.len() <= n ==> out.request.tools == request.tools
            &&& request.tools.len() > n ==> out.request.tools == request.tools.take(n)
            &&& out.request.messages == request.messages
            &&& out.request.system == request.system
            &&& out.request.max_tokens == request.max_tokens
            &&& out.request.tool_choice == request.tool_choice
            &&& out.request.parallel_tool_calls == request.parallel_tool_calls
            &&& out.request.background == request.background
            &&& out.request.previous_response_id == request.previous_response_id
            &&& out.prompt == out.request.prompt(protocol::protocol_prompt(out.request.tools))
        }),
{
}

/// A request for a stream is refused. One that goes on from a response that is not there is
/// refused as such, by the API that has responses; one that goes on from another is
/// preceded by what that response put out; and every other request goes as it is.
pub proof fn lemma_request_prepared(
    mode: WireMode,
    asked: RequestView,
    stored: Stored,
    settings: SettingsView,
    options: OptionsView,
)
    ensures
        ({
            let out = routes::prepared(mode, asked, stored, settings, options);
            &&& asked.stream ==> out == Err::<routes::PreparedView, ErrorView>(
                ErrorView::StreamUnsupported,
            )
            &&& !asked.stream && mode != WireMode::Responses ==> (out matches Ok(prepared)
                && prepared.request.messages == asked.messages)
            &&& !asked.stream && mode == WireMode::Responses && asked.previous_response_id is None
                ==> (out matches Ok(prepared) && prepared.request.messages == asked.messages)
            &&& !asked.stream && mode == WireMode::Responses ==> (
            asked.previous_response_id matches Some(id) ==> {
                &&& !stored.dom().contains(id) ==> out == Err::<routes::PreparedView, ErrorView>(
                    ErrorView::NotFound("previous response "@ + id + " not found"@),
                )
                &&& stored.dom().contains(id) ==> (out matches Ok(prepared)
                    && prepared.request.messages == responses::messages_of(
                    stored[id].output_items,
                ) + asked.messages)
            })
        }),
{
}

/// Each API reads requests by its own rules: two need messages, the third an input.
pub proof fn lemma_apis_apart(payload: JsonView, items: Seq<JsonView>)
    ensures
        payload.get("messages"@) is None ==> types::wire_request(WireMode::ChatCompletions, payload)
            is Err && types::wire_request(WireMode::Messages, payload) is Err,
        payload.get("input"@) is None ==> types::wire_request(WireMode::Responses, payload) is Err,
        payload.get("messages"@) == Some(JsonView::Array(items)) ==> types::wire_request(
            WireMode::ChatCompletions,
            payload,
        ) is Ok && types::wire_request(WireMode::Messages, payload) is Ok,
        payload.get("input"@) is Some ==> types::wire_request(WireMode::Responses, payload) is Ok,
{
}

/// A payload that asks for a stream is taken as one that does not, and nothing else of it
/// changes.
pub proof fn lemma_stream_flag(payload: JsonView, key: Seq<char>)
    ensures
        payload.get("stream"@) == Some(JsonView::Bool(true)) ==> {
            &&& routes::unstreamed(payload).1
            &&& routes::unstreamed(payload).0.get("stream"@) == Some(JsonView::Bool(false))
            &&& key != "stream"@ ==> routes::unstreamed(payload).0.get(key) == payload.get(key)
        },
        payload.get("stream"@) is None || payload.get("stream"@) == Some(JsonView::Bool(false)) ==> {
            &&& !routes::unstreamed(payload).1
            &&& routes::unstreamed(payload).0 == payload
        },
{
    if let JsonView::Object(members) = payload {
        let no = JsonView::Bool(false);
        json::lemma_lookup_inserted(members, "stream"@, no, "stream"@);
        json::lemma_lookup_inserted(members, "stream"@, no, key);
    }
}

// ---------------------------------------------------------------------------
// Stored responses
// ---------------------------------------------------------------------------

/// Cancelling is answered with the response as cancelled if it runs in the background, and
/// refused otherwise.
pub proof fn lemma_cancel(stored: Stored, id: Seq<char>)
    ensures
        !stored.dom().contains(id) ==> routes::cancel_answer(stored, id) == Err::<
            JsonView,
            ErrorView,
        >(ErrorView::NotFound("response "@ + id + " not found"@)),
        stored.dom().contains(id) && !stored[id].background ==> routes::cancel_answer(stored, id)
            == Err::<JsonView, ErrorView>(
            ErrorView::InvalidRequest("only background responses can be cancelled"@),
        ),
        stored.dom().contains(id) && stored[id].background ==> (routes::cancel_answer(
            stored,
            id,
        ) matches Ok(body) && body == responses_store::with_cancelled(stored, id)[id].body),
{
}

/// A compaction lists what the response put out that the request goes on from, and then the
/// items of the request.
pub proof fn lemma_compaction(
    stored: Stored,
    request: RequestView,
    item_ids: Seq<Seq<char>>,
    unique: Seq<char>,
    created: int,
)
    ensures
        ({
            let answer = routes::compaction_of(stored, request, item_ids, unique, created);
            let items = responses_store::request_items(request, item_ids);
            &&& request.previous_response_id is None ==> (answer matches Ok(body) && body.get(
                "output"@,
            ) == Some(JsonView::Array(items)))
            &&& request.previous_response_id matches Some(id) ==> {
                &&& stored.dom().contains(id) ==> (answer matches Ok(body) && body.get("output"@)
                    == Some(JsonView::Array(stored[id].output_items + items)))
                &&& !stored.dom().contains(id) ==> answer == Err::<JsonView, ErrorView>(
                    ErrorView::NotFound("previous response "@ + id + " not found"@),
                )
            }
            &&& answer matches Ok(body) ==> {
                &&& body.get("id"@) == Some(JsonView::Text("cmp_"@ + unique))
                &&& body.get("created_at"@) == Some(JsonView::Integer(created))
                &&& body.get("object"@) == Some(JsonView::Text("response.compaction"@))
            }
        }),
{
    let items = responses_store::request_items(request, item_ids);
    assert(Seq::<JsonView>::empty() + items =~= items);
    reveal_strlit("id");
    reveal_strlit("created_at");
    reveal_strlit("object");
    reveal_strlit("output");
    assert("object"@[1] == 'b' && "output"@[1] == 'u');
    if let Ok(context) = routes::compacted_context(stored, request) {
        let pairs = routes::compaction_members(context + items, unique, created);
        assert forall|i: int, j: int| 0 <= i < j < pairs.len() implies (#[trigger] pairs[i]).0 != (
        #[trigger] pairs[j]).0 by {
            assert("id"@.len() == 2 && "created_at"@.len() == 10 && "object"@.len() == 6
                && "output"@.len() == 6);
        }
        json::lemma_lookup_collected(pairs, 0);
        json::lemma_lookup_collected(pairs, 1);
        json::lemma_lookup_collected(pairs, 2);
        json::lemma_lookup_collected(pairs, 3);
    }
}

/// A payload without an input is compacted as a request without messages that is otherwise
/// read like one with an input.
pub proof fn lemma_compacted_request(payload: JsonView)
    requires
        payload.get("input"@) is None,
    ensures
        ({
            let request = routes::compacted_request(payload);
            &&& request.messages.len() == 0
            &&& payload.get("model"@) matches Some(JsonView::Text(model)) ==> request.model == model
            &&& payload.get("instructions"@) matches Some(JsonView::Text(system)) ==> request.system
                == Some(system)
            &&& payload.get("previous_response_id"@) matches Some(JsonView::Text(id))
                ==> request.previous_response_id == Some(id)
            &&& payload.get("previous_response_id"@) is None ==> request.previous_response_id is None
        }),
{
}

// ---------------------------------------------------------------------------
// Streams
// ---------------------------------------------------------------------------

/// An event is a line with its name, a line with its data and an empty line.
pub proof fn lemma_event_lines(name: Seq<char>, data: JsonView, rest: Seq<char>)
    requires
        forall|k: int| 0 <= k < name.len() ==> #[trigger] name[k] != '\n' && name[k] != '\r',
        forall|k: int|
            0 <= k < json::compact(data).len() ==> #[trigger] json::compact(data)[k] != '\n'
                && json::compact(data)[k] != '\r',
    ensures
        text::lines(sse::event_text(name, data) + rest) == seq![
            "event: "@ + name,
            "data: "@ + json::compact(data),
            Seq::<char>::empty(),
        ] + text::lines(rest),
{
    reveal_strlit("event: ");
    reveal_strlit("data: ");
    reveal_strlit("\n");
    reveal_strlit("\n\n");
    let said = json::compact(data);
    let a = "event: "@ + name;
    let b = "data: "@ + said;
    let none = Seq::<char>::empty();
    let all = sse::event_text(name, data) + rest;
    let behind_b = none + "\n"@ + rest;
    let behind_a = b + "\n"@ + behind_b;
    assert(all =~= a + "\n"@ + behind_a);
    assert forall|k: int| 0 <= k < a.len() implies #[trigger] a[k] != '\n' && a[k] != '\r' by {
        if k >= 7 {
            assert(a[k] == name[k - 7]);
        }
    }
    assert forall|k: int| 0 <= k < b.len() implies #[trigger] b[k] != '\n' && b[k] != '\r' by {
        if k >= 6 {
            assert(b[k] == said[k - 6]);
        }
    }
    assert(a[a.len() - 1] != '\r' && b[b.len() - 1] != '\r');
    text_laws::lemma_lines(a, behind_a);
    text_laws::lemma_lines(b, behind_b);
    text_laws::lemma_lines(none, rest);
    assert(text::lines(all) =~= seq![a, b, none] + text::lines(rest));
}

/// A text that a message puts out is told as a part that comes, its text at once, the text
/// as done, and the part as done, each with its places in the output and in the message.
pub proof fn lemma_part_told(output_index: int, content_index: int, part: JsonView, said: Seq<char>)
    requires
        part.get("type"@) == Some(JsonView::Text("output_text"@)),
        part.get("text"@) == Some(JsonView::Text(said)),
    ensures
        sse::part_events(output_index, content_index, part) == sse::event_text(
            "response.content_part.added"@,
            JsonView::object(
                seq![
                    ("type"@, JsonView::Text("response.content_part.added"@)),
                    ("output_index"@, JsonView::Integer(output_index)),
                    ("content_index"@, JsonView::Integer(content_index)),
                    ("part"@, part),
                ],
            ),
        ) + sse::event_text(
            "response.output_text.delta"@,
            JsonView::object(
                seq![
                    ("type"@, JsonView::Text("response.output_text.delta"@)),
                    ("output_index"@, JsonView::Integer(output_index)),
                    ("content_index"@, JsonView::Integer(content_index)),
                    ("delta"@, JsonView::Text(said)),
                ],
            ),
        ) + sse::event_text(
            "response.output_text.done"@,
            JsonView::object(
                seq![
                    ("type"@, JsonView::Text("response.output_text.done"@)),
                    ("output_index"@, JsonView::Integer(output_index)),
                    ("content_index"@, JsonView::Integer(content_index)),
                    ("text"@, JsonView::Text(said)),
                ],
            ),
        ) + sse::event_text(
            "response.content_part.done"@,
            JsonView::object(
                seq![
                    ("type"@, JsonView::Text("response.content_part.done"@)),
                    ("output_index"@, JsonView::Integer(output_index)),
                    ("content_index"@, JsonView::Integer(content_index)),
                    ("part"@, part),
                ],
            ),
        ),
{
}

/// An item of the output is told as added before what it says, and as done behind it; an
/// item that is no message says nothing in between.
pub proof fn lemma_item_told(index: int, item: JsonView)
    ensures
        ({
            let added = sse::event_text(
                "response.output_item.added"@,
                JsonView::object(
                    seq![
                        ("type"@, JsonView::Text("response.output_item.added"@)),
                        ("output_index"@, JsonView::Integer(index)),
                        ("item"@, item),
                    ],
                ),
            );
            let done = sse::event_text(
                "response.output_item.done"@,
                JsonView::object(
                    seq![
                        ("type"@, JsonView::Text("response.output_item.done"@)),
                        ("output_index"@, JsonView::Integer(index)),
                        ("item"@, item),
                    ],
                ),
            );
            &&& text::begins(sse::item_events(index, item), added)
            &&& text::ends(sse::item_events(index, item), done)
            &&& item.get("type"@) == Some(JsonView::Text("function_call"@)) ==> sse::item_events(
                index,
                item,
            ) == added + done
            &&& item.get("type"@) == Some(JsonView::Text("message"@)) ==> (item.get(
                "content"@,
            ) matches Some(JsonView::Array(parts)) ==> sse::item_events(index, item) == added
                + sse::parts_events(index, parts) + done)
        }),
{
    reveal_strlit("message");
    reveal_strlit("function_call");
    assert("message"@.len() == 7 && "function_call"@.len() == 13);
    let all = sse::item_events(index, item);
    let added = sse::event_text(
        "response.output_item.added"@,
        JsonView::object(sse::item_event("response.output_item.added"@, index, item)),
    );
    let done = sse::event_text(
        "response.output_item.done"@,
        JsonView::object(sse::item_event("response.output_item.done"@, index, item)),
    );
    let said = sse::message_events(index, item);
    assert(all.take(added.len() as int) =~= added);
    assert(all.skip(all.len() - done.len()) =~= done);
    if said.len() == 0 {
        assert(added + said + done =~= added + done);
    }
}

// ---------------------------------------------------------------------------
// After the model
// ---------------------------------------------------------------------------

/// Calls that a model makes are given as they are where the client chose automatically or
/// requires one, as are those of the function that it requires; only the first of them for a
/// response that takes no parallel calls. Where another function is required the reply is
/// refused.
pub proof fn lemma_calls_given(mode: WireMode, request: RequestView, model_text: Seq<char>, i: int)
    requires
        0 <= i < protocol::calls_in(model_text).len(),
    ensures
        ({
            let calls = protocol::calls_in(model_text);
            let given = routes::reply_calls(mode, request, model_text);
            let chosen = request.tool_choice is Auto || request.tool_choice is Required || (
            request.tool_choice matches ChoiceView::Function { name } && forall|j: int|
                0 <= j < calls.len() ==> (#[trigger] calls[j]).name == name);
            &&& chosen && (mode != WireMode::Responses || request.parallel_tool_calls) ==> given
                == Ok::<Seq<CallView>, ErrorView>(calls)
            &&& chosen && mode == WireMode::Responses && !request.parallel_tool_calls ==> given
                == Ok::<Seq<CallView>, ErrorView>(seq![calls[0]])
            &&& request.tool_choice matches ChoiceView::Function { name } ==> (calls[i].name != name
                ==> given == Err::<Seq<CallView>, ErrorView>(
                ErrorView::InvalidRequest(
                    "model emitted a tool other than required function "@ + name,
                ),
            ))
        }),
{
    let calls = protocol::calls_in(model_text);
    assert(calls.take(1) =~= seq![calls[0]]);
}

/// A response that must call a tool, but for which the model only wrote text, is refused.
pub proof fn lemma_call_missing(request: RequestView, model_text: Seq<char>)
    requires
        protocol::calls_in(model_text).len() == 0,
    ensures
        request.tool_choice is Required || request.tool_choice is Function ==> routes::reply_calls(
            WireMode::Responses,
            request,
            model_text,
        ) == Err::<Seq<CallView>, ErrorView>(
            ErrorView::InvalidRequest(
                "tool_choice requires a tool call, but the upstream model returned text"@,
            ),
        ),
        request.tool_choice is Auto || request.tool_choice is Never ==> (routes::reply_calls(
            WireMode::Responses,
            request,
            model_text,
        ) matches Ok(calls) && calls.len() == 0),
{
}

/// What a response puts out is one message with what the model said, or one item for each
/// call, in their order, with the call's id, name and arguments.
pub proof fn lemma_output(model_text: Seq<char>, calls: Seq<CallView>, unique: Seq<Seq<char>>, i: int)
    ensures
        ({
            let output = routes::output_of(model_text, calls, unique);
            &&& calls.len() == 0 ==> output.len() == 1 && responses::message_of(output[0]) == Some(
                MessageView {
                    role: "assistant"@,
                    content: seq![ContentView::Text { text: model_text }],
                },
            )
            &&& 0 <= i < calls.len() ==> output.len() == calls.len() && {
                &&& output[i].get("type"@) == Some(JsonView::Text("function_call"@))
                &&& output[i].get("call_id"@) == Some(JsonView::Text(calls[i].id))
                &&& output[i].get("name"@) == Some(JsonView::Text(calls[i].name))
                &&& output[i].get("arguments"@) == Some(JsonView::Text(calls[i].arguments))
                &&& output[i].get("id"@) == Some(JsonView::Text("fc_"@ + unique[i]))
            }
        }),
{
    if calls.len() == 0 {
        responses::lemma_message_item_reads_back(model_text, unique[0]);
    } else if 0 <= i < calls.len() {
        reveal_strlit("id");
        reveal_strlit("type");
        reveal_strlit("status");
        reveal_strlit("call_id");
        reveal_strlit("name");
        reveal_strlit("arguments");
        assert("type"@[0] == 't' && "name"@[0] == 'n');
        let pairs = responses::call_members(calls[i], unique[i]);
        assert forall|a: int, b: int| 0 <= a < b < pairs.len() implies (#[trigger] pairs[a]).0 != (
        #[trigger] pairs[b]).0 by {
            assert("id"@.len() == 2 && "type"@.len() == 4 && "status"@.len() == 6
                && "call_id"@.len() == 7 && "name"@.len() == 4 && "arguments"@.len() == 9);
        }
        json::lemma_lookup_collected(pairs, 0);
        json::lemma_lookup_collected(pairs, 1);
        json::lemma_lookup_collected(pairs, 3);
        json::lemma_lookup_collected(pairs, 4);
        json::lemma_lookup_collected(pairs, 5);
    }
}

/// A reply has the shape of the API that was asked, and the client's name for the model.
pub proof fn lemma_reply_shape(
    out: PreparedView,
    model_text: Seq<char>,
    calls: Seq<CallView>,
    unique: Seq<Seq<char>>,
    created: int,
    key: Seq<char>,
)
    requires
        key != "model"@,
    ensures
        ({
            let reply = routes::reply_of(out, model_text, calls, unique, created);
            &&& out.mode == WireMode::ChatCompletions ==> reply.get(key) == JsonView::object(
                chat::reply_members(out.request.model, model_text, calls, unique[0], created),
            ).get(key)
            &&& out.mode == WireMode::Messages ==> reply.get(key) == JsonView::object(
                messages::reply_members(out.request.model, model_text, calls, unique[0]),
            ).get(key)
            &&& out.mode == WireMode::Responses && calls.len() == 0 ==> reply.get(key)
                == JsonView::object(
                responses::response_members(
                    out.request,
                    routes::output_of(model_text, calls, unique.skip(1)),
                    model_text,
                    unique[0],
                    created,
                ),
            ).get(key)
            &&& out.mode == WireMode::Responses && calls.len() > 0 ==> reply.get(key)
                == JsonView::object(
                responses::response_members(
                    out.request,
                    routes::output_of(model_text, calls, unique.skip(1)),
                    Seq::empty(),
                    unique[0],
                    created,
                ),
            ).get(key)
        }),
{
    let body = match out.mode {
        WireMode::ChatCompletions => chat::reply_members(
            out.request.model,
            model_text,
            calls,
            unique[0],
            created,
        ),
        WireMode::Messages => messages::reply_members(
            out.request.model,
            model_text,
            calls,
            unique[0],
        ),
        WireMode::Responses => responses::response_members(
            out.request,
            routes::output_of(model_text, calls, unique.skip(1)),
            if calls.len() == 0 {
                model_text
            } else {
                Seq::empty()
            },
            unique[0],
            created,
        ),
    };
    json::lemma_lookup_inserted(
        json::collected(body),
        "model"@,
        JsonView::Text(out.external_model),
        key,
    );
}

/// Only responses are kept, and of each that is kept the others stay.
pub proof fn lemma_only_responses_kept(
    stored: Stored,
    out: PreparedView,
    body: JsonView,
    items: Seq<JsonView>,
    session: Option<Seq<char>>,
    id: Seq<char>,
)
    ensures
        ({
            let now = routes::store_after(stored, out, body, items, session);
            &&& out.mode != WireMode::Responses ==> now == stored
            &&& out.mode == WireMode::Responses && body.get("id"@) == Some(JsonView::Text(id))
                ==> now.dom().contains(id) && now[id].body == body && now[id].input_items == items
                && now[id].background == out.request.background && now[id].provider_session_id
                == session
        }),
{
}

/// The event of this name that tells of a response.
pub open spec fn told_response(name: Seq<char>, response: JsonView) -> Seq<char> {
    sse::event_text(
        name,
        JsonView::object(seq![("type"@, JsonView::Text(name)), ("response"@, response)]),
    )
}

/// A stream begins with the response as it is in progress, without its output, and ends with
/// all of it.
pub proof fn lemma_stream_of(body: JsonView, key: Seq<char>)
    requires
        body is Object,
    ensures
        exists|begun: JsonView, running: JsonView|
            {
                &&& sse::stream_of(body) == #[trigger] told_response("response.created"@, begun)
                    + #[trigger] told_response("response.in_progress"@, running)
                    + sse::items_events(chat::items_of(body.get("output"@))) + told_response(
                    "response.completed"@,
                    body,
                ) + "data: [DONE]\n\n"@
                &&& begun.get("status"@) == Some(JsonView::Text("in_progress"@))
                &&& begun.get("output"@) == Some(JsonView::Array(Seq::empty()))
                &&& running.get("output"@) == Some(JsonView::Array(Seq::empty()))
                &&& key != "output"@ ==> running.get(key) == body.get(key)
                &&& key != "output"@ && key != "status"@ ==> begun.get(key) == body.get(key)
            },
{
    reveal_strlit("status");
    reveal_strlit("output");
    assert("status"@[0] == 's' && "output"@[0] == 'o');
    let status = JsonView::Text("in_progress"@);
    let none = JsonView::Array(Seq::empty());
    let first = sse::with_member(body, "status"@, status);
    let begun = sse::without_output(first);
    let running = sse::without_output(body);
    if let JsonView::Object(members) = body {
        let changed = json::inserted(members, "status"@, status);
        json::lemma_lookup_inserted(members, "status"@, status, "status"@);
        json::lemma_lookup_inserted(members, "status"@, status, key);
        json::lemma_lookup_inserted(changed, "output"@, none, "output"@);
        json::lemma_lookup_inserted(changed, "output"@, none, "status"@);
        json::lemma_lookup_inserted(changed, "output"@, none, key);
        json::lemma_lookup_inserted(members, "output"@, none, "output"@);
        json::lemma_lookup_inserted(members, "output"@, none, key);
    }
    assert(sse::stream_of(body) == told_response("response.created"@, begun) + told_response(
        "response.in_progress"@,
        running,
    ) + sse::items_events(chat::items_of(body.get("output"@))) + told_response(
        "response.completed"@,
        body,
    ) + "data: [DONE]\n\n"@);
}

/// The oldest items come first only if the order asks for it, in capitals or small letters.
pub proof fn lemma_order(query: ResponseItemsQuery)
    ensures
        query.order is None ==> !query.ascends(),
        query.order matches Some(order) ==> (query.ascends() <==> text::lowered(order@) == "asc"@),
{
    reveal_strlit("asc");
    assert(text::lowered("asc"@) =~= "asc"@);
}

} // verus!
