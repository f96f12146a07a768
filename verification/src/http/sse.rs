//! A response as a stream of events.
use vstd::prelude::*;

use crate::json;
use crate::json::{Json, JsonObject, JsonView, Members};
use crate::text;
use crate::views;
use crate::wire;
use crate::wire::chat;

verus! {

/// An event of the stream.
pub open spec fn event_text(name: Seq<char>, data: JsonView) -> Seq<char> {
    "event: "@ + name + "\n"@ + "data: "@ + json::compact(data) + "\n\n"@
}

/// The members of an event that shows the response.
pub open spec fn response_event(name: Seq<char>, response: JsonView) -> Members {
    seq![("type"@, JsonView::Text(name)), ("response"@, response)]
}

/// The members of an event that shows an item.
pub open spec fn item_event(name: Seq<char>, index: int, item: JsonView) -> Members {
    seq![
        ("type"@, JsonView::Text(name)),
        ("output_index"@, JsonView::Integer(index)),
        ("item"@, item),
    ]
}

/// The members of an event that shows something of a part of an item.
pub open spec fn part_event(
    name: Seq<char>,
    output_index: int,
    content_index: int,
    key: Seq<char>,
    value: JsonView,
) -> Members {
    seq![
        ("type"@, JsonView::Text(name)),
        ("output_index"@, JsonView::Integer(output_index)),
        ("content_index"@, JsonView::Integer(content_index)),
        (key, value),
    ]
}

/// The events of a part: its coming, its text at once, and its end. A part that is no
/// output text has none.
pub open spec fn part_events(output_index: int, content_index: int, part: JsonView) -> Seq<char> {
    if part.text_at("type"@) != Some("output_text"@) {
        Seq::empty()
    } else {
        let said = JsonView::Text(wire::text_or(part, "text"@, Seq::empty()));
        event_text(
            "response.content_part.added"@,
            JsonView::object(
                part_event(
                    "response.content_part.added"@,
                    output_index,
                    content_index,
                    "part"@,
                    part,
                ),
            ),
        ) + event_text(
            "response.output_text.delta"@,
            JsonView::object(
                part_event(
                    "response.output_text.delta"@,
                    output_index,
                    content_index,
                    "delta"@,
                    said,
                ),
            ),
        ) + event_text(
            "response.output_text.done"@,
            JsonView::object(
                part_event(
                    "response.output_text.done"@,
                    output_index,
                    content_index,
                    "text"@,
                    said,
                ),
            ),
        ) + event_text(
            "response.content_part.done"@,
            JsonView::object(
                part_event(
                    "response.content_part.done"@,
                    output_index,
                    content_index,
                    "part"@,
                    part,
                ),
            ),
        )
    }
}

/// The events of the parts of an item.
pub open spec fn parts_events(output_index: int, parts: Seq<JsonView>) -> Seq<char>
    decreases parts.len(),
{
    if parts.len() == 0 {
        Seq::empty()
    } else {
        parts_events(output_index, parts.take(parts.len() - 1)) + part_events(
            output_index,
            parts.len() - 1,
            parts[parts.len() - 1],
        )
    }
}

/// The events of the text of an item. An item that is no message has none.
pub open spec fn message_events(output_index: int, item: JsonView) -> Seq<char> {
    if item.text_at("type"@) == Some("message"@) {
        parts_events(output_index, chat::items_of(item.get("content"@)))
    } else {
        Seq::empty()
    }
}

/// The events of an item: its coming, its text, and its end.
pub open spec fn item_events(index: int, item: JsonView) -> Seq<char> {
    event_text(
        "response.output_item.added"@,
        JsonView::object(item_event("response.output_item.added"@, index, item)),
    ) + message_events(index, item) + event_text(
        "response.output_item.done"@,
        JsonView::object(item_event("response.output_item.done"@, index, item)),
    )
}

/// The events of these items.
pub open spec fn items_events(items: Seq<JsonView>) -> Seq<char>
    decreases items.len(),
{
    if items.len() == 0 {
        Seq::empty()
    } else {
        items_events(items.take(items.len() - 1)) + item_events(
            items.len() - 1,
            items[items.len() - 1],
        )
    }
}

/// Whether members can be set in a value: it is an object, or null, which becomes one.
pub open spec fn takes_members(value: JsonView) -> bool {
    value is Object || value is Null
}

/// A value that takes members with this one set.
pub open spec fn with_member(value: JsonView, key: Seq<char>, member: JsonView) -> JsonView
    recommends
        takes_members(value),
{
    match value {
        JsonView::Object(members) => JsonView::Object(json::inserted(members, key, member)),
        _ => JsonView::Object(json::inserted(Seq::empty(), key, member)),
    }
}

/// A response without its output.
pub open spec fn without_output(body: JsonView) -> JsonView {
    with_member(body, "output"@, JsonView::Array(Seq::empty()))
}

/// The stream of a response: that it was created and is in progress, its items, that
/// it is completed, and the end.
pub open spec fn stream_of(body: JsonView) -> Seq<char> {
    event_text(
        "response.created"@,
        JsonView::object(
            response_event(
                "response.created"@,
                without_output(with_member(body, "status"@, JsonView::Text("in_progress"@))),
            ),
        ),
    ) + event_text(
        "response.in_progress"@,
        JsonView::object(response_event("response.in_progress"@, without_output(body))),
    ) + items_events(chat::items_of(body.get("output"@))) + event_text(
        "response.completed"@,
        JsonView::object(response_event("response.completed"@, body)),
    ) + "data: [DONE]\n\n"@
}

/// Adds an event to the stream.
pub fn push_sse(stream: &mut String, event: &str, data: &Json)
    ensures
        final(stream)@ == old(stream)@ + event_text(event@, data@),
{
    let ghost before = stream@;
    stream.append("event: ");
    stream.append(event);
    stream.append("\n");
    stream.append("data: ");
    stream.append(data.to_text().as_str());
    stream.append("\n\n");
    assert(stream@ =~= before + event_text(event@, data@));
}

/// Adds an event that shows the response.
fn push_response(stream: &mut String, event: &str, response: Json)
    ensures
        final(stream)@ == old(stream)@ + event_text(
            event@,
            JsonView::object(response_event(event@, response@)),
        ),
{
    let pairs = vec![("type", Json::text(event)), ("response", response)];
    assert(json::pairs_view(pairs@) =~= response_event(event@, response@));
    push_sse(stream, event, &Json::object(pairs));
}

/// Adds an event that shows an item.
fn push_item(stream: &mut String, event: &str, index: usize, item: &Json)
    ensures
        final(stream)@ == old(stream)@ + event_text(
            event@,
            JsonView::object(item_event(event@, index as int, item@)),
        ),
{
    let pairs = vec![
        ("type", Json::text(event)),
        ("output_index", Json::Unsigned(index as u64)),
        ("item", item.clone()),
    ];
    assert(json::pairs_view(pairs@) =~= item_event(event@, index as int, item@));
    push_sse(stream, event, &Json::object(pairs));
}

/// Adds an event that shows something of a part of an item.
fn push_part(
    stream: &mut String,
    event: &str,
    output_index: usize,
    content_index: usize,
    key: &str,
    value: Json,
)
    ensures
        final(stream)@ == old(stream)@ + event_text(
            event@,
            JsonView::object(
                part_event(event@, output_index as int, content_index as int, key@, value@),
            ),
        ),
{
    let pairs = vec![
        ("type", Json::text(event)),
        ("output_index", Json::Unsigned(output_index as u64)),
        ("content_index", Json::Unsigned(content_index as u64)),
        (key, value),
    ];
    assert(json::pairs_view(pairs@) =~= part_event(
        event@,
        output_index as int,
        content_index as int,
        key@,
        value@,
    ));
    push_sse(stream, event, &Json::object(pairs));
}

/// Adds the events of a part.
fn push_part_events(stream: &mut String, output_index: usize, content_index: usize, part: &Json)
    ensures
        final(stream)@ == old(stream)@ + part_events(
            output_index as int,
            content_index as int,
            part@,
        ),
{
    let ghost before = stream@;
    let shown = match part.text_at("type") {
        Some(kind) => text::same(kind, "output_text"),
        None => false,
    };
    if !shown {
        assert(stream@ =~= before + Seq::empty());
        return;
    }
    proof {
        reveal_strlit("");
        assert(""@ =~= Seq::empty());
    }
    let said = wire::text_or_else(part, "text", "");
    push_part(
        stream,
        "response.content_part.added",
        output_index,
        content_index,
        "part",
        part.clone(),
    );
    push_part(
        stream,
        "response.output_text.delta",
        output_index,
        content_index,
        "delta",
        Json::text(said.as_str()),
    );
    push_part(
        stream,
        "response.output_text.done",
        output_index,
        content_index,
        "text",
        Json::text(said.as_str()),
    );
    push_part(
        stream,
        "response.content_part.done",
        output_index,
        content_index,
        "part",
        part.clone(),
    );
    assert(stream@ =~= before + part_events(output_index as int, content_index as int, part@));
}

/// Adds the events of the text of an item.
pub fn push_message_text_events(stream: &mut String, output_index: usize, item: &Json)
    ensures
        final(stream)@ == old(stream)@ + message_events(output_index as int, item@),
{
    let ghost before = stream@;
    assert(before =~= before + Seq::empty());
    let is_message = match item.text_at("type") {
        Some(kind) => text::same(kind, "message"),
        None => false,
    };
    if !is_message {
        return;
    }
    let parts = match item.get("content") {
        Some(Json::Array(parts)) => parts,
        _ => {
            return;
        },
    };
    let ghost all = json::models(parts@);
    let mut i: usize = 0;
    assert(all.take(0) =~= Seq::empty());
    while i < parts.len()
        invariant
            i <= parts@.len(),
            all == json::models(parts@),
            stream@ == before + parts_events(output_index as int, all.take(i as int)),
        decreases parts.len() - i,
    {
        let ghost next = all.take(i + 1);
        let ghost now = stream@;
        assert(next.take(i as int) =~= all.take(i as int));
        assert(next[i as int] == parts@[i as int]@);
        push_part_events(stream, output_index, i, &parts[i]);
        assert(stream@ =~= before + parts_events(output_index as int, next));
        i += 1;
    }
    assert(all.take(i as int) =~= all);
}

/// A value that takes members with this one set.
pub fn set_member(value: Json, key: &str, member: Json) -> (r: Json)
    requires
        takes_members(value@),
    ensures
        r@ == with_member(value@, key@, member@),
{
    let object = match value {
        Json::Object(object) => object,
        _ => JsonObject::new(),
    };
    Json::Object(object.with(key.to_owned(), member))
}

/// A response without its output.
pub fn body_without_output(body: &Json) -> (r: Json)
    requires
        takes_members(body@),
    ensures
        r@ == without_output(body@),
{
    let none: Vec<Json> = Vec::new();
    assert(json::models(none@) =~= Seq::empty());
    set_member(body.clone(), "output", Json::Array(none))
}

/// The stream of a response.
pub fn responses_sse(body: &Json) -> (r: String)
    requires
        takes_members(body@),
    ensures
        r@ == stream_of(body@),
{
    let mut stream = String::new();
    let started = set_member(body.clone(), "status", Json::text("in_progress"));
    push_response(&mut stream, "response.created", body_without_output(&started));
    push_response(&mut stream, "response.in_progress", body_without_output(body));
    let ghost head = stream@;
    assert(head =~= head + Seq::empty());
    if let Some(Json::Array(items)) = body.get("output") {
        let ghost all = json::models(items@);
        let mut i: usize = 0;
        assert(all.take(0) =~= Seq::empty());
        while i < items.len()
            invariant
                i <= items@.len(),
                all == json::models(items@),
                stream@ == head + items_events(all.take(i as int)),
            decreases items.len() - i,
        {
            let ghost next = all.take(i + 1);
            assert(next.take(i as int) =~= all.take(i as int));
            assert(next[i as int] == items@[i as int]@);
            push_item(&mut stream, "response.output_item.added", i, &items[i]);
            push_message_text_events(&mut stream, i, &items[i]);
            push_item(&mut stream, "response.output_item.done", i, &items[i]);
            assert(stream@ =~= head + items_events(next));
            i += 1;
        }
        assert(all.take(i as int) =~= all);
    }
    assert(stream@ == head + items_events(chat::items_of(body@.get("output"@))));
    push_response(&mut stream, "response.completed", body.clone());
    stream.append("data: [DONE]\n\n");
    assert(stream@ =~= stream_of(body@));
    stream
}

/// The stream begins with the event that the response was created, and ends with the
/// one that it is completed, which shows it whole, and the end.
pub proof fn lemma_stream_ends(body: JsonView)
    ensures
        text::begins(stream_of(body), "event: "@ + "response.created"@ + "\n"@),
        text::ends(
            stream_of(body),
            event_text(
                "response.completed"@,
                JsonView::object(response_event("response.completed"@, body)),
            ) + "data: [DONE]\n\n"@,
        ),
{
    let s = stream_of(body);
    let start = "event: "@ + "response.created"@ + "\n"@;
    let end = event_text(
        "response.completed"@,
        JsonView::object(response_event("response.completed"@, body)),
    ) + "data: [DONE]\n\n"@;
    assert(s.take(start.len() as int) =~= start);
    assert(s.skip(s.len() - end.len()) =~= end);
}

/// Each item of the output is told in the stream: that it came, its text, and its end.
pub proof fn lemma_stream_tells_items(body: JsonView, i: int)
    requires
        0 <= i < chat::items_of(body.get("output"@)).len(),
    ensures
        text::has(stream_of(body), item_events(i, chat::items_of(body.get("output"@))[i])),
{
    let items = chat::items_of(body.get("output"@));
    let told = items_events(items);
    let created = event_text(
        "response.created"@,
        JsonView::object(
            response_event(
                "response.created"@,
                without_output(with_member(body, "status"@, JsonView::Text("in_progress"@))),
            ),
        ),
    );
    let in_progress = event_text(
        "response.in_progress"@,
        JsonView::object(response_event("response.in_progress"@, without_output(body))),
    );
    let completed = event_text(
        "response.completed"@,
        JsonView::object(response_event("response.completed"@, body)),
    );
    let before = created + in_progress;
    let behind = completed + "data: [DONE]\n\n"@;
    assert(stream_of(body) =~= before + told + behind);
    text::lemma_has_between(before, told, behind);
    lemma_items_told(items, i);
    text::lemma_has_within(stream_of(body), told, item_events(i, items[i]));
}

proof fn lemma_items_told(items: Seq<JsonView>, i: int)
    requires
        0 <= i < items.len(),
    ensures
        text::has(items_events(items), item_events(i, items[i])),
    decreases items.len(),
{
    let none = Seq::<char>::empty();
    let n = items.len() - 1;
    let front = items_events(items.take(n));
    let last = item_events(n, items[n]);
    if i == n {
        text::lemma_has_between(front, last, none);
        assert(front + last + none =~= items_events(items));
    } else {
        assert(items.take(n)[i] == items[i]);
        lemma_items_told(items.take(n), i);
        text::lemma_has_between(none, front, last);
        assert(none + front + last =~= items_events(items));
        text::lemma_has_within(items_events(items), front, item_events(i, items[i]));
    }
}

} // verus!
