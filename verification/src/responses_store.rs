//! The responses that can be asked for again, and the items that they are made of.
use vstd::prelude::*;

use crate::ids;
use crate::json;
use crate::json::{Json, JsonObject, JsonView, Members};
use crate::table::Table;
use crate::text;
use crate::types::{
    ContentView, MessageView, RequestView, UnifiedContent, UnifiedMessage, UnifiedRequest,
};
use crate::views;
use crate::wire::chat;

verus! {

// ---------------------------------------------------------------------------
// The items of a request
// ---------------------------------------------------------------------------

/// Whether a part of a message is an item with an id of its own.
pub open spec fn has_id(content: ContentView) -> bool {
    content is ToolUse || content is ToolResult
}

/// How many ids the items of these parts take.
pub open spec fn content_ids(contents: Seq<ContentView>) -> nat
    decreases contents.len(),
{
    if contents.len() == 0 {
        0
    } else {
        content_ids(contents.take(contents.len() - 1)) + if has_id(contents[contents.len() - 1]) {
            1nat
        } else {
            0
        }
    }
}

/// The members of the item of a part, with this as what tells it from others.
pub open spec fn content_members(content: ContentView, unique: Seq<char>) -> Members {
    match content {
        ContentView::Text { text } => seq![
            ("type"@, JsonView::Text("input_text"@)),
            ("text"@, JsonView::Text(text)),
        ],
        ContentView::ImageUrl { url } => seq![
            ("type"@, JsonView::Text("input_image"@)),
            ("image_url"@, JsonView::Text(url)),
        ],
        ContentView::ToolUse { id, name, input } => seq![
            ("id"@, JsonView::Text("fc_"@ + unique)),
            ("type"@, JsonView::Text("function_call"@)),
            ("status"@, JsonView::Text("completed"@)),
            ("call_id"@, JsonView::Text(id)),
            ("name"@, JsonView::Text(name)),
            ("arguments"@, JsonView::Text(json::compact(input))),
        ],
        ContentView::ToolResult { tool_use_id, content, is_error } => seq![
            ("id"@, JsonView::Text("fco_"@ + unique)),
            ("type"@, JsonView::Text("function_call_output"@)),
            ("call_id"@, JsonView::Text(tool_use_id)),
            ("output"@, JsonView::Text(content)),
        ],
    }
}

/// The items of these parts, told from others by these, one after the other.
pub open spec fn content_items(contents: Seq<ContentView>, unique: Seq<Seq<char>>) -> Seq<JsonView>
    decreases contents.len(),
{
    if contents.len() == 0 {
        Seq::empty()
    } else {
        let before = contents.take(contents.len() - 1);
        content_items(before, unique).push(
            JsonView::object(
                content_members(
                    contents[contents.len() - 1],
                    unique[content_ids(before) as int],
                ),
            ),
        )
    }
}

/// Whether a message is an item by its one part alone.
pub open spec fn is_tool_message(message: MessageView) -> bool {
    message.content.len() == 1 && has_id(message.content[0])
}

/// How many ids the item of a message takes.
pub open spec fn message_ids(message: MessageView) -> nat {
    if is_tool_message(message) {
        1
    } else {
        1 + content_ids(message.content)
    }
}

/// The members of the item of a message.
pub open spec fn message_members(unique: Seq<char>, role: Seq<char>, content: Seq<JsonView>) -> Members {
    seq![
        ("id"@, JsonView::Text("msg_"@ + unique)),
        ("type"@, JsonView::Text("message"@)),
        ("role"@, JsonView::Text(role)),
        ("status"@, JsonView::Text("completed"@)),
        ("content"@, JsonView::Array(content)),
    ]
}

/// The item of a message: that of its one part if it is a tool's, or else a message.
pub open spec fn message_item(message: MessageView, unique: Seq<Seq<char>>) -> JsonView {
    if is_tool_message(message) {
        JsonView::object(content_members(message.content[0], unique[0]))
    } else {
        JsonView::object(
            message_members(unique[0], message.role, content_items(message.content, unique.skip(1))),
        )
    }
}

/// How many ids the items of these messages take.
pub open spec fn thread_ids(messages: Seq<MessageView>) -> nat
    decreases messages.len(),
{
    if messages.len() == 0 {
        0
    } else {
        thread_ids(messages.take(messages.len() - 1)) + message_ids(messages[messages.len() - 1])
    }
}

/// The items of these messages.
pub open spec fn thread_items(messages: Seq<MessageView>, unique: Seq<Seq<char>>) -> Seq<JsonView>
    decreases messages.len(),
{
    if messages.len() == 0 {
        Seq::empty()
    } else {
        let before = messages.take(messages.len() - 1);
        thread_items(before, unique).push(
            message_item(messages[messages.len() - 1], unique.skip(thread_ids(before) as int)),
        )
    }
}

/// The part that holds the system's text.
pub open spec fn system_content(system: Seq<char>) -> ContentView {
    ContentView::Text { text: text::trimmed(system) }
}

/// Whether a request has a system text that is not blank.
pub open spec fn has_system(request: RequestView) -> bool {
    request.system matches Some(system) && !text::blank(system)
}

/// How many ids the items of a request take.
pub open spec fn request_ids(request: RequestView) -> nat {
    (if has_system(request) {
        1nat
    } else {
        0
    }) + thread_ids(request.messages)
}

/// The items of a request, told from others by these: the system's text as the
/// developer's message, and one item for each message.
pub open spec fn request_items(request: RequestView, unique: Seq<Seq<char>>) -> Seq<JsonView> {
    if has_system(request) {
        seq![
            JsonView::object(
                message_members(
                    unique[0],
                    "developer"@,
                    content_items(seq![system_content(request.system->0)], Seq::empty()),
                ),
            ),
        ] + thread_items(request.messages, unique.skip(1))
    } else {
        thread_items(request.messages, unique)
    }
}

/// Whether these are the items of a request, each with a random id.
pub open spec fn are_items_of(items: Seq<JsonView>, request: RequestView) -> bool {
    exists|unique: Seq<Seq<char>>|
        unique.len() == request_ids(request) && ids::all_random(unique) && items
            == #[trigger] request_items(request, unique)
}

/// One item comes of each message of a request, and one of its system text if it has one.
pub proof fn lemma_one_item_per_message(request: RequestView, unique: Seq<Seq<char>>)
    ensures
        request_items(request, unique).len() == request.messages.len() + if has_system(request) {
            1int
        } else {
            0
        },
{
    lemma_thread_items_len(request.messages, unique);
    lemma_thread_items_len(request.messages, unique.skip(1));
}

proof fn lemma_thread_items_len(messages: Seq<MessageView>, unique: Seq<Seq<char>>)
    ensures
        thread_items(messages, unique).len() == messages.len(),
    decreases messages.len(),
{
    if messages.len() > 0 {
        lemma_thread_items_len(messages.take(messages.len() - 1), unique);
    }
}

/// More parts take no fewer ids.
proof fn lemma_content_ids_grow(contents: Seq<ContentView>, i: int)
    requires
        0 <= i < contents.len(),
    ensures
        content_ids(contents.take(i)) + (if has_id(contents[i]) {
            1nat
        } else {
            0
        }) == content_ids(contents.take(i + 1)),
        content_ids(contents.take(i + 1)) <= content_ids(contents),
    decreases contents.len() - i,
{
    assert(contents.take(i + 1).take(i) =~= contents.take(i));
    if i + 1 < contents.len() {
        lemma_content_ids_grow(contents, i + 1);
    } else {
        assert(contents.take(i + 1) =~= contents);
    }
}

/// More messages take no fewer ids.
proof fn lemma_thread_ids_grow(messages: Seq<MessageView>, i: int)
    requires
        0 <= i < messages.len(),
    ensures
        thread_ids(messages.take(i)) + message_ids(messages[i]) == thread_ids(messages.take(i + 1)),
        thread_ids(messages.take(i + 1)) <= thread_ids(messages),
    decreases messages.len() - i,
{
    assert(messages.take(i + 1).take(i) =~= messages.take(i));
    if i + 1 < messages.len() {
        lemma_thread_ids_grow(messages, i + 1);
    } else {
        assert(messages.take(i + 1) =~= messages);
    }
}

/// The text `prefix` with `unique` behind it, as JSON.
fn tagged(prefix: &str, unique: &str) -> (r: Json)
    ensures
        r@ == JsonView::Text(prefix@ + unique@),
{
    let mut id = prefix.to_owned();
    id.append(unique);
    Json::Text(id)
}

/// The item of a part.
fn content_to_item(content: &UnifiedContent, unique: &str) -> (r: Json)
    ensures
        r@ == JsonView::object(content_members(content@, unique@)),
{
    let pairs = match content {
        UnifiedContent::Text { text } => {
            vec![("type", Json::text("input_text")), ("text", Json::text(text.as_str()))]
        },
        UnifiedContent::ImageUrl { url } => {
            vec![("type", Json::text("input_image")), ("image_url", Json::text(url.as_str()))]
        },
        UnifiedContent::ToolUse { id, name, input } => vec![
            ("id", tagged("fc_", unique)),
            ("type", Json::text("function_call")),
            ("status", Json::text("completed")),
            ("call_id", Json::text(id.as_str())),
            ("name", Json::text(name.as_str())),
            ("arguments", Json::Text(input.to_text())),
        ],
        UnifiedContent::ToolResult { tool_use_id, content, is_error } => vec![
            ("id", tagged("fco_", unique)),
            ("type", Json::text("function_call_output")),
            ("call_id", Json::text(tool_use_id.as_str())),
            ("output", Json::text(content.as_str())),
        ],
    };
    assert(json::pairs_view(pairs@) =~= content_members(content@, unique@));
    Json::object(pairs)
}

/// Whether a part of a message is an item with an id of its own.
fn takes_id(content: &UnifiedContent) -> (r: bool)
    ensures
        r == has_id(content@),
{
    match content {
        UnifiedContent::ToolUse { .. } => true,
        UnifiedContent::ToolResult { .. } => true,
        _ => false,
    }
}

/// The items of these parts.
fn contents_to_items(contents: &Vec<UnifiedContent>, unique: &[String]) -> (r: Vec<Json>)
    requires
        unique@.len() >= content_ids(views::of_list(contents@)),
    ensures
        json::models(r@) == content_items(views::of_list(contents@), text::texts(unique@)),
{
    let ghost all = views::of_list(contents@);
    let ghost names = text::texts(unique@);
    let mut out: Vec<Json> = Vec::new();
    let mut i: usize = 0;
    let mut at: usize = 0;
    assert(all.take(0) =~= Seq::empty());
    assert(json::models(out@) =~= Seq::empty());
    while i < contents.len()
        invariant
            i <= contents@.len(),
            all == views::of_list(contents@),
            names == text::texts(unique@),
            at == content_ids(all.take(i as int)),
            content_ids(all) <= unique@.len(),
            json::models(out@) == content_items(all.take(i as int), names),
        decreases contents.len() - i,
    {
        let ghost next = all.take(i + 1);
        let ghost before = out@;
        assert(next.take(i as int) =~= all.take(i as int));
        proof {
            lemma_content_ids_grow(all, i as int);
        }
        let content = &contents[i];
        if takes_id(content) {
            out.push(content_to_item(content, unique[at].as_str()));
            at += 1;
        } else {
            let item = content_to_item(content, "");
            assert(content_members(content@, ""@) =~= content_members(
                content@,
                names[content_ids(all.take(i as int)) as int],
            ));
            out.push(item);
        }
        assert(json::models(out@) =~= json::models(before).push(
            JsonView::object(
                content_members(content@, names[content_ids(all.take(i as int)) as int]),
            ),
        ));
        i += 1;
    }
    assert(all.take(i as int) =~= all);
    out
}

/// The item that says these parts in this role.
fn item_of(unique: &str, role: &str, content: Vec<Json>) -> (r: Json)
    ensures
        r@ == JsonView::object(message_members(unique@, role@, json::models(content@))),
{
    let pairs = vec![
        ("id", tagged("msg_", unique)),
        ("type", Json::text("message")),
        ("role", Json::text(role)),
        ("status", Json::text("completed")),
        ("content", Json::Array(content)),
    ];
    assert(json::pairs_view(pairs@) =~= message_members(unique@, role@, json::models(content@)));
    Json::object(pairs)
}

/// The item of a message.
fn message_to_item(message: &UnifiedMessage, unique: &[String]) -> (r: Json)
    requires
        unique@.len() >= message_ids(message@),
    ensures
        r@ == message_item(message@, text::texts(unique@)),
{
    if message.content.len() == 1 && takes_id(&message.content[0]) {
        return content_to_item(&message.content[0], unique[0].as_str());
    }
    let rest = vstd::slice::slice_subrange(unique, 1, unique.len());
    assert(text::texts(rest@) =~= text::texts(unique@).skip(1));
    let content = contents_to_items(&message.content, rest);
    item_of(unique[0].as_str(), message.role.as_str(), content)
}

/// The items of a request, told from others by these.
pub fn input_items_with(request: &UnifiedRequest, unique: &[String]) -> (r: Vec<Json>)
    requires
        unique@.len() >= request_ids(request@),
    ensures
        json::models(r@) == request_items(request@, text::texts(unique@)),
{
    let mut items: Vec<Json> = Vec::new();
    let mut rest = unique;
    assert(json::models(items@) =~= Seq::empty());
    if let Some(system) = &request.system {
        if !text::is_blank(system.as_str()) {
            let parts = vec![UnifiedContent::Text { text: text::trim_str(system.as_str()) }];
            let ghost all = views::of_list(parts@);
            assert(all =~= seq![system_content(system@)]);
            assert(content_ids(all) == 0) by {
                reveal_with_fuel(content_ids, 2);
            }
            let none = vstd::slice::slice_subrange(unique, 0, 0);
            assert(text::texts(none@) =~= Seq::empty());
            let content = contents_to_items(&parts, none);
            let item = item_of(unique[0].as_str(), "developer", content);
            items.push(item);
            assert(json::models(items@) =~= seq![item@]);
            rest = vstd::slice::slice_subrange(unique, 1, unique.len());
            assert(text::texts(rest@) =~= text::texts(unique@).skip(1));
        }
    }
    let ghost names = text::texts(rest@);
    let ghost front = json::models(items@);
    let ghost all = views::of_list(request.messages@);
    let mut i: usize = 0;
    let mut at: usize = 0;
    assert(all.take(0) =~= Seq::empty());
    assert(front + thread_items(all.take(0), names) =~= front);
    while i < request.messages.len()
        invariant
            i <= request.messages@.len(),
            all == views::of_list(request.messages@),
            names == text::texts(rest@),
            at == thread_ids(all.take(i as int)),
            thread_ids(all) <= rest@.len(),
            json::models(items@) == front + thread_items(all.take(i as int), names),
        decreases request.messages.len() - i,
    {
        let ghost next = all.take(i + 1);
        let ghost before = items@;
        assert(next.take(i as int) =~= all.take(i as int));
        proof {
            lemma_thread_ids_grow(all, i as int);
        }
        let own = vstd::slice::slice_subrange(rest, at, rest.len());
        assert(text::texts(own@) =~= names.skip(at as int));
        let message = &request.messages[i];
        let item = message_to_item(message, own);
        items.push(item);
        assert(json::models(items@) =~= json::models(before).push(item@));
        assert(json::models(items@) =~= front + thread_items(next, names));
        proof {
            assert(rest.len() == rest@.len());
        }
        at += count_ids(message, own);
        i += 1;
    }
    assert(all.take(i as int) =~= all);
    items
}

/// How many ids the item of a message takes.
fn count_ids(message: &UnifiedMessage, unique: &[String]) -> (r: usize)
    requires
        unique@.len() >= message_ids(message@),
    ensures
        r == message_ids(message@),
{
    let ghost all = message@.content;
    if message.content.len() == 1 && takes_id(&message.content[0]) {
        return 1;
    }
    let bound = unique.len();
    let mut n: usize = 1;
    let mut i: usize = 0;
    assert(all.take(0) =~= Seq::empty());
    while i < message.content.len()
        invariant
            i <= message.content@.len(),
            all == views::of_list(message.content@),
            n == 1 + content_ids(all.take(i as int)),
            1 + content_ids(all) <= bound,
        decreases message.content.len() - i,
    {
        proof {
            lemma_content_ids_grow(all, i as int);
        }
        if takes_id(&message.content[i]) {
            n += 1;
        }
        i += 1;
    }
    assert(all.take(i as int) =~= all);
    n
}

/// Draws the ids that the items of a request take.
fn draw_ids(request: &UnifiedRequest) -> (r: Vec<String>)
    ensures
        r@.len() == request_ids(request@),
        ids::all_random(text::texts(r@)),
{
    let mut out: Vec<String> = Vec::new();
    if let Some(system) = &request.system {
        if !text::is_blank(system.as_str()) {
            out.push(ids::fresh_uuid());
        }
    }
    let ghost all = views::of_list(request.messages@);
    let ghost first = out@.len();
    let mut i: usize = 0;
    assert(all.take(0) =~= Seq::empty());
    while i < request.messages.len()
        invariant
            i <= request.messages@.len(),
            all == views::of_list(request.messages@),
            out@.len() == first + thread_ids(all.take(i as int)),
            forall|k: int| 0 <= k < out@.len() ==> ids::random_uuid((#[trigger] out@[k])@),
        decreases request.messages.len() - i,
    {
        proof {
            lemma_thread_ids_grow(all, i as int);
        }
        let message = &request.messages[i];
        let ghost parts = message@.content;
        let ghost start = out@.len();
        out.push(ids::fresh_uuid());
        if !(message.content.len() == 1 && takes_id(&message.content[0])) {
            let mut k: usize = 0;
            assert(parts.take(0) =~= Seq::empty());
            while k < message.content.len()
                invariant
                    k <= message.content@.len(),
                    parts == views::of_list(message.content@),
                    out@.len() == start + 1 + content_ids(parts.take(k as int)),
                    forall|j: int| 0 <= j < out@.len() ==> ids::random_uuid((#[trigger] out@[j])@),
                decreases message.content.len() - k,
            {
                proof {
                    lemma_content_ids_grow(parts, k as int);
                }
                if takes_id(&message.content[k]) {
                    out.push(ids::fresh_uuid());
                }
                k += 1;
            }
            assert(parts.take(k as int) =~= parts);
        }
        i += 1;
    }
    assert(all.take(i as int) =~= all);
    out
}

/// The items of a request, each with a fresh id.
pub fn input_items_from_request(request: &UnifiedRequest) -> (r: Vec<Json>)
    ensures
        are_items_of(json::models(r@), request@),
{
    let drawn = draw_ids(request);
    input_items_with(request, drawn.as_slice())
}

// ---------------------------------------------------------------------------
// The store
// ---------------------------------------------------------------------------

/// A response that can be asked for again.
#[verifier::ext_equal]
pub struct StoredView {
    pub body: JsonView,
    pub input_items: Seq<JsonView>,
    pub output_items: Seq<JsonView>,
    pub background: bool,
    pub provider_session_id: Option<Seq<char>>,
}

/// A response that can be asked for again.
#[derive(Debug)]
pub struct StoredResponse {
    body: Json,
    input_items: Vec<Json>,
    output_items: Vec<Json>,
    background: bool,
    provider_session_id: Option<String>,
}

impl View for StoredResponse {
    type V = StoredView;

    closed spec fn view(&self) -> StoredView {
        StoredView {
            body: self.body@,
            input_items: json::models(self.input_items@),
            output_items: json::models(self.output_items@),
            background: self.background,
            provider_session_id: views::of_option(self.provider_session_id),
        }
    }
}

/// The responses, by their ids.
pub type Stored = Map<Seq<char>, StoredView>;

/// Why a response was not cancelled.
#[derive(Debug, Clone, Copy, PartialEq, Eq, Structural)]
pub enum StoreError {
    /// There is no such response.
    NotFound,
    /// The response does not run in the background.
    NotBackground,
}

/// The responses that can be asked for again.
#[derive(Debug)]
pub struct ResponseStore {
    entries: Table<StoredResponse>,
}

impl View for ResponseStore {
    type V = Stored;

    closed spec fn view(&self) -> Stored {
        self.entries@
    }
}

/// The store once a response came in. One without an id is not kept.
pub open spec fn with_response(
    stored: Stored,
    body: JsonView,
    input_items: Seq<JsonView>,
    background: bool,
    provider_session_id: Option<Seq<char>>,
) -> Stored {
    match body.text_at("id"@) {
        Some(id) => stored.insert(
            id,
            StoredView {
                body,
                input_items,
                output_items: chat::items_of(body.get("output"@)),
                background,
                provider_session_id,
            },
        ),
        None => stored,
    }
}

/// A body whose status, if it has one, says that it was cancelled.
pub open spec fn cancelled(body: JsonView) -> JsonView {
    match body {
        JsonView::Object(members) => if json::lookup(members, "status"@) is Some {
            JsonView::Object(
                json::inserted(members, "status"@, JsonView::Text("cancelled"@)),
            )
        } else {
            body
        },
        _ => body,
    }
}

/// Whether a response can be cancelled.
pub open spec fn cancellable(stored: Stored, id: Seq<char>) -> Result<(), StoreError> {
    if !stored.dom().contains(id) {
        Err(StoreError::NotFound)
    } else if !stored[id].background {
        Err(StoreError::NotBackground)
    } else {
        Ok(())
    }
}

/// The store once this response was cancelled, if it can be.
pub open spec fn with_cancelled(stored: Stored, id: Seq<char>) -> Stored {
    if cancellable(stored, id) is Ok {
        stored.insert(id, StoredView { body: cancelled(stored[id].body), ..stored[id] })
    } else {
        stored
    }
}

/// The index of the first item with this id.
pub open spec fn item_with_id(items: Seq<JsonView>, id: Seq<char>, from: int) -> Option<int>
    decreases items.len() - from,
{
    if from < 0 || from >= items.len() {
        None
    } else if items[from].text_at("id"@) == Some(id) {
        Some(from)
    } else {
        item_with_id(items, id, from + 1)
    }
}

/// The items of a page: those behind the one with the id `after`, if there is one,
/// and so many of them as `limit` says, but at least one and at most a hundred.
pub open spec fn page_of(
    items: Seq<JsonView>,
    after: Option<Seq<char>>,
    limit: Option<usize>,
    ascending: bool,
) -> Seq<JsonView> {
    let ordered = if ascending {
        items
    } else {
        items.reverse()
    };
    let start = match after {
        Some(id) => match item_with_id(ordered, id, 0) {
            Some(i) => i + 1,
            None => 0,
        },
        None => 0,
    };
    let rest = ordered.skip(start);
    let most = match limit {
        None => 20int,
        Some(n) => if n < 1 {
            1
        } else if n > 100 {
            100
        } else {
            n as int
        },
    };
    if rest.len() <= most {
        rest
    } else {
        rest.take(most)
    }
}

/// The id of an item as JSON, or null.
pub open spec fn id_or_null(item: JsonView) -> JsonView {
    match item.text_at("id"@) {
        Some(id) => JsonView::Text(id),
        None => JsonView::Null,
    }
}

/// The members of a page of items.
pub open spec fn page_members(page: Seq<JsonView>) -> Members {
    seq![
        ("object"@, JsonView::Text("list"@)),
        ("data"@, JsonView::Array(page)),
        (
            "first_id"@,
            if page.len() > 0 {
                id_or_null(page[0])
            } else {
                JsonView::Null
            },
        ),
        (
            "last_id"@,
            if page.len() > 0 {
                id_or_null(page[page.len() - 1])
            } else {
                JsonView::Null
            },
        ),
        ("has_more"@, JsonView::Bool(false)),
    ]
}

impl Default for ResponseStore {
    fn default() -> (r: Self)
        ensures
            r@ == Map::<Seq<char>, StoredView>::empty(),
    {
        ResponseStore { entries: Table::new() }
    }
}

/// The page of these items.
fn list_page(items: &Vec<Json>, after: Option<&str>, limit: Option<usize>, ascending: bool) -> (r:
    Vec<Json>)
    ensures
        json::models(r@) == page_of(json::models(items@), views::of_option(after), limit, ascending),
{
    let ghost all = json::models(items@);
    let ghost ordered = if ascending {
        all
    } else {
        all.reverse()
    };
    let n = items.len();
    let mut start: usize = 0;
    if let Some(id) = after {
        let mut i: usize = 0;
        while i < n
            invariant_except_break
                item_with_id(ordered, id@, i as int) == item_with_id(ordered, id@, 0),
                start == 0,
            invariant
                i <= n,
                n == items@.len(),
                all == json::models(items@),
                ordered == (if ascending {
                    all
                } else {
                    all.reverse()
                }),
            ensures
                start == (match item_with_id(ordered, id@, 0) {
                    Some(k) => k + 1,
                    None => 0,
                }),
                start <= n,
            decreases n - i,
        {
            let item = if ascending {
                &items[i]
            } else {
                &items[n - 1 - i]
            };
            assert(item@ == ordered[i as int]);
            let found = match item.text_at("id") {
                Some(own) => text::same(own, id),
                None => false,
            };
            if found {
                start = i + 1;
                break;
            }
            i += 1;
        }
    }
    let most: usize = match limit {
        None => 20,
        Some(n) => if n < 1 {
            1
        } else if n > 100 {
            100
        } else {
            n
        },
    };
    let end = if n - start <= most {
        n
    } else {
        start + most
    };
    let mut out: Vec<Json> = Vec::new();
    let mut i: usize = start;
    while i < end
        invariant
            start <= i <= end,
            end <= n,
            n == items@.len(),
            all == json::models(items@),
            ordered == (if ascending {
                all
            } else {
                all.reverse()
            }),
            out@.len() == i - start,
            forall|k: int| 0 <= k < out@.len() ==> (#[trigger] out@[k])@ == ordered[start + k],
        decreases end - i,
    {
        let item = if ascending {
            &items[i]
        } else {
            &items[n - 1 - i]
        };
        assert(item@ == ordered[i as int]);
        out.push(item.clone());
        i += 1;
    }
    assert(json::models(out@) =~= page_of(all, views::of_option(after), limit, ascending));
    out
}

/// The id of an item as JSON, or null.
fn item_id(item: &Json) -> (r: Json)
    ensures
        r@ == id_or_null(item@),
{
    match item.text_at("id") {
        Some(id) => Json::text(id),
        None => Json::Null,
    }
}

impl ResponseStore {
    /// Keeps a response, with the items that it was asked with. Its own items are those
    /// that its body holds as output.
    pub fn insert_with_provider_session(
        &mut self,
        body: Json,
        input_items: Vec<Json>,
        _context_items: Vec<Json>,
        background: bool,
        provider_session_id: Option<String>,
    )
        ensures
            final(self)@ == with_response(
                old(self)@,
                body@,
                json::models(input_items@),
                background,
                views::of_option(provider_session_id),
            ),
    {
        let id = match body.text_at("id") {
            Some(id) => id.to_owned(),
            None => {
                return;
            },
        };
        let output_items = match body.get("output") {
            Some(Json::Array(items)) => json::copied(items),
            _ => Vec::new(),
        };
        assert(json::models(output_items@) =~= chat::items_of(body@.get("output"@)));
        self.entries.insert(
            id,
            StoredResponse { body, input_items, output_items, background, provider_session_id },
        );
    }

    /// The session that the upstream kept for a response.
    pub fn provider_session_id_for(&self, response_id: &str) -> (r: Option<String>)
        ensures
            views::of_option(r) == (if self@.dom().contains(response_id@) {
                self@[response_id@].provider_session_id
            } else {
                None
            }),
    {
        match self.entries.get(response_id) {
            Some(entry) => match &entry.provider_session_id {
                Some(id) => Some(id.clone()),
                None => None,
            },
            None => None,
        }
    }

    /// The body of a response.
    pub fn retrieve(&self, response_id: &str) -> (r: Option<Json>)
        ensures
            views::of_option(r) == (if self@.dom().contains(response_id@) {
                Some(self@[response_id@].body)
            } else {
                None
            }),
    {
        match self.entries.get(response_id) {
            Some(entry) => Some(entry.body.clone()),
            None => None,
        }
    }

    /// The items that a response that goes on from this one starts with: its output.
    pub fn context_items_for(&self, response_id: &str) -> (r: Option<Vec<Json>>)
        ensures
            r is Some <==> self@.dom().contains(response_id@),
            r matches Some(items) ==> json::models(items@) == self@[response_id@].output_items,
    {
        match self.entries.get(response_id) {
            Some(entry) => Some(json::copied(&entry.output_items)),
            None => None,
        }
    }

    /// A page of the items that a response was asked with.
    pub fn list_input_items(
        &self,
        response_id: &str,
        after: Option<&str>,
        limit: Option<usize>,
        ascending: bool,
    ) -> (r: Option<Json>)
        ensures
            views::of_option(r) == (if self@.dom().contains(response_id@) {
                Some(
                    JsonView::object(
                        page_members(
                            page_of(
                                self@[response_id@].input_items,
                                views::of_option(after),
                                limit,
                                ascending,
                            ),
                        ),
                    ),
                )
            } else {
                None
            }),
    {
        let entry = match self.entries.get(response_id) {
            Some(entry) => entry,
            None => {
                return None;
            },
        };
        let page = list_page(&entry.input_items, after, limit, ascending);
        let ghost listed = json::models(page@);
        let first_id = if page.len() > 0 {
            item_id(&page[0])
        } else {
            Json::Null
        };
        let last_id = if page.len() > 0 {
            item_id(&page[page.len() - 1])
        } else {
            Json::Null
        };
        let pairs = vec![
            ("object", Json::text("list")),
            ("data", Json::Array(page)),
            ("first_id", first_id),
            ("last_id", last_id),
            ("has_more", Json::Bool(false)),
        ];
        assert(json::pairs_view(pairs@) =~= page_members(listed));
        Some(Json::object(pairs))
    }

    /// Cancels a response that runs in the background, and gives its body.
    pub fn cancel(&mut self, response_id: &str) -> (r: Result<Json, StoreError>)
        ensures
            final(self)@ == with_cancelled(old(self)@, response_id@),
            match cancellable(old(self)@, response_id@) {
                Ok(_) => r matches Ok(body) && body@ == final(self)@[response_id@].body,
                Err(error) => r == Err::<Json, StoreError>(error),
            },
    {
        match self.entries.get(response_id) {
            None => {
                return Err(StoreError::NotFound);
            },
            Some(entry) => {
                if !entry.background {
                    return Err(StoreError::NotBackground);
                }
            },
        }
        match self.entries.take(response_id) {
            None => Err(StoreError::NotFound),
            Some(entry) => {
                let body = mark_cancelled(entry.body);
                let shown = body.clone();
                let now = StoredResponse {
                    body,
                    input_items: entry.input_items,
                    output_items: entry.output_items,
                    background: entry.background,
                    provider_session_id: entry.provider_session_id,
                };
                let ghost kept = old(self)@[response_id@];
                assert(now@ =~= StoredView { body: cancelled(kept.body), ..kept });
                self.entries.insert(response_id.to_owned(), now);
                assert(self@ =~= with_cancelled(old(self)@, response_id@));
                Ok(shown)
            },
        }
    }
}

/// A body whose status, if it has one, says that it was cancelled.
fn mark_cancelled(body: Json) -> (r: Json)
    ensures
        r@ == cancelled(body@),
{
    match body {
        Json::Object(object) => {
            if object.get("status").is_some() {
                Json::Object(object.with("status".to_owned(), Json::text("cancelled")))
            } else {
                Json::Object(object)
            }
        },
        other => other,
    }
}

/// A response that came in is found under its id, with its output as the context of
/// those that go on from it; every other response is as before.
pub proof fn lemma_with_response(
    stored: Stored,
    body: JsonView,
    input_items: Seq<JsonView>,
    background: bool,
    provider_session_id: Option<Seq<char>>,
    other: Seq<char>,
)
    ensures
        ({
            let now = with_response(stored, body, input_items, background, provider_session_id);
            &&& body.text_at("id"@) matches Some(id) ==> now.dom().contains(id) && now[id].body
                == body && now[id].input_items == input_items && now[id].output_items
                == chat::items_of(body.get("output"@)) && now[id].provider_session_id
                == provider_session_id
            &&& body.text_at("id"@) != Some(other) ==> (now.dom().contains(other)
                <==> stored.dom().contains(other)) && now[other] == stored[other]
        }),
{
}

/// Cancelling touches nothing but the status of a response that runs in the
/// background: its other members, its items and every other response are as before.
pub proof fn lemma_with_cancelled(stored: Stored, id: Seq<char>, other: Seq<char>, key: Seq<char>)
    ensures
        ({
            let now = with_cancelled(stored, id);
            &&& now.dom() == stored.dom()
            &&& other != id ==> now[other] == stored[other]
            &&& cancellable(stored, id) is Err ==> now == stored
            &&& stored.dom().contains(id) ==> now[id].input_items == stored[id].input_items
                && now[id].output_items == stored[id].output_items && now[id].background
                == stored[id].background && now[id].provider_session_id
                == stored[id].provider_session_id
            &&& stored.dom().contains(id) && key != "status"@ ==> now[id].body.get(key)
                == stored[id].body.get(key)
            &&& cancellable(stored, id) is Ok && stored[id].body.get("status"@) is Some
                ==> now[id].body.get("status"@) == Some(JsonView::Text("cancelled"@))
        }),
{
    let now = with_cancelled(stored, id);
    assert(now.dom() =~= stored.dom());
    if let JsonView::Object(members) = stored[id].body {
        json::lemma_lookup_inserted(members, "status"@, JsonView::Text("cancelled"@), key);
        json::lemma_lookup_inserted(members, "status"@, JsonView::Text("cancelled"@), "status"@);
    }
}

/// Cancelling twice is cancelling once.
pub proof fn lemma_cancel_twice(stored: Stored, id: Seq<char>)
    ensures
        with_cancelled(with_cancelled(stored, id), id) == with_cancelled(stored, id),
{
    let once = with_cancelled(stored, id);
    if cancellable(stored, id) is Ok {
        if let JsonView::Object(members) = stored[id].body {
            let status = JsonView::Text("cancelled"@);
            if json::lookup(members, "status"@) is Some {
                lemma_insert_twice(members, "status"@, status);
            }
        }
        assert(with_cancelled(once, id) =~= once);
    }
}

proof fn lemma_insert_twice(members: Members, key: Seq<char>, value: JsonView)
    ensures
        json::inserted(json::inserted(members, key, value), key, value) == json::inserted(
            members,
            key,
            value,
        ),
    decreases members.len(),
{
    let once = json::inserted(members, key, value);
    if members.len() == 0 {
        assert(once.skip(1) =~= Seq::empty());
        assert(json::inserted(once, key, value) =~= once);
    } else if members[0].0 == key {
        assert(once.skip(1) =~= members.skip(1));
    } else if text::precedes(key, members[0].0) {
        assert(once.skip(1) =~= members);
    } else {
        lemma_insert_twice(members.skip(1), key, value);
        assert(once.skip(1) =~= json::inserted(members.skip(1), key, value));
    }
}

/// A page holds at least one item if there is one left, never more than a hundred,
/// and only items that the response was asked with.
pub proof fn lemma_page(
    items: Seq<JsonView>,
    after: Option<Seq<char>>,
    limit: Option<usize>,
    ascending: bool,
)
    ensures
        page_of(items, after, limit, ascending).len() <= 100,
        after is None && items.len() > 0 ==> page_of(items, after, limit, ascending).len() > 0,
        forall|i: int|
            0 <= i < page_of(items, after, limit, ascending).len() ==> items.contains(
                #[trigger] page_of(items, after, limit, ascending)[i],
            ),
{
    let ordered = if ascending {
        items
    } else {
        items.reverse()
    };
    if let Some(id) = after {
        lemma_item_with_id(ordered, id, 0);
    }
    let page = page_of(items, after, limit, ascending);
    assert forall|i: int| 0 <= i < page.len() implies items.contains(#[trigger] page[i]) by {
        let start = match after {
            Some(id) => match item_with_id(ordered, id, 0) {
                Some(i) => i + 1,
                None => 0,
            },
            None => 0,
        };
        assert(page[i] == ordered[start + i]);
        if ascending {
            assert(items[start + i] == page[i]);
        } else {
            assert(items[items.len() - 1 - (start + i)] == page[i]);
        }
    }
}

proof fn lemma_item_with_id(items: Seq<JsonView>, id: Seq<char>, from: int)
    requires
        0 <= from,
    ensures
        item_with_id(items, id, from) matches Some(k) ==> from <= k < items.len(),
    decreases items.len() - from,
{
    if from < items.len() && items[from].text_at("id"@) != Some(id) {
        lemma_item_with_id(items, id, from + 1);
    }
}

// ---------------------------------------------------------------------------
// Keeping the store
// ---------------------------------------------------------------------------

/// A text that may be missing, as JSON.
pub open spec fn text_or_null(s: Option<Seq<char>>) -> JsonView {
    match s {
        Some(s) => JsonView::Text(s),
        None => JsonView::Null,
    }
}

/// The members that a response is kept as.
pub open spec fn kept_members(response: StoredView) -> Members {
    seq![
        ("body"@, response.body),
        ("input_items"@, JsonView::Array(response.input_items)),
        ("output_items"@, JsonView::Array(response.output_items)),
        ("background"@, JsonView::Bool(response.background)),
        ("provider_session_id"@, text_or_null(response.provider_session_id)),
    ]
}

/// The response that these members make: all have to be there but the session, which may
/// be missing or null.
pub open spec fn response_from(
    body: Option<JsonView>,
    input_items: Option<JsonView>,
    output_items: Option<JsonView>,
    background: Option<JsonView>,
    session: Option<JsonView>,
) -> Option<StoredView> {
    let provider_session_id = match session {
        None => Some(None),
        Some(JsonView::Null) => Some(None),
        Some(JsonView::Text(id)) => Some(Some(id)),
        Some(_) => None,
    };
    match (body, input_items, output_items, background, provider_session_id) {
        (
            Some(body),
            Some(JsonView::Array(input_items)),
            Some(JsonView::Array(output_items)),
            Some(JsonView::Bool(background)),
            Some(provider_session_id),
        ) => Some(
            StoredView { body, input_items, output_items, background, provider_session_id },
        ),
        _ => None,
    }
}

/// The response that was kept as this value: an object with the members, or a list of
/// all five of them.
pub open spec fn kept_response(value: JsonView) -> Option<StoredView> {
    match value {
        JsonView::Object(_) => response_from(
            value.get("body"@),
            value.get("input_items"@),
            value.get("output_items"@),
            value.get("background"@),
            value.get("provider_session_id"@),
        ),
        JsonView::Array(items) => if items.len() == 5 {
            response_from(
                Some(items[0]),
                Some(items[1]),
                Some(items[2]),
                Some(items[3]),
                Some(items[4]),
            )
        } else {
            None
        },
        _ => None,
    }
}

/// The members that a store is kept as, for these ids.
pub open spec fn store_members(ids: Seq<Seq<char>>, stored: Stored) -> Members {
    ids.map_values(|id: Seq<char>| (id, JsonView::object(kept_members(stored[id]))))
}

/// Whether a value is an object whose members are all kept responses.
pub open spec fn readable(value: JsonView) -> bool {
    &&& value is Object
    &&& forall|key: Seq<char>| (#[trigger] value.get(key)) matches Some(member) ==> kept_response(
        member,
    ) is Some
}

/// Whether a value says that the store is this one.
pub open spec fn says(value: JsonView, stored: Stored) -> bool {
    &&& value is Object
    &&& forall|key: Seq<char>| #[trigger]
        stored.dom().contains(key) <==> value.get(key) is Some
    &&& forall|key: Seq<char>| #[trigger]
        stored.dom().contains(key) ==> kept_response(value.get(key)->0) == Some(stored[key])
}

/// A value says only one store.
pub proof fn lemma_says_one(value: JsonView, a: Stored, b: Stored)
    requires
        says(value, a),
        says(value, b),
    ensures
        a == b,
{
    assert forall|key: Seq<char>| a.dom().contains(key) <==> b.dom().contains(key) by {}
    assert forall|key: Seq<char>| a.dom().contains(key) implies a[key] == b[key] by {
        assert(kept_response(value.get(key)->0) == Some(a[key]));
        assert(b.dom().contains(key));
    }
    assert(a =~= b);
}

/// What a response is kept as is read as that response.
pub proof fn lemma_kept_response(response: StoredView)
    ensures
        kept_response(JsonView::object(kept_members(response))) == Some(response),
{
    let pairs = kept_members(response);
    lemma_distinct_names();
    let names = seq![
        "body"@,
        "input_items"@,
        "output_items"@,
        "background"@,
        "provider_session_id"@,
    ];
    assert forall|i: int, j: int| 0 <= i < j < pairs.len() implies (#[trigger] pairs[i]).0 != (
    #[trigger] pairs[j]).0 by {
        assert(pairs[i].0 == names[i] && pairs[j].0 == names[j]);
    }
    json::lemma_lookup_collected(pairs, 0);
    json::lemma_lookup_collected(pairs, 1);
    json::lemma_lookup_collected(pairs, 2);
    json::lemma_lookup_collected(pairs, 3);
    json::lemma_lookup_collected(pairs, 4);
}

proof fn lemma_distinct_names()
    ensures
        "body"@ != "input_items"@,
        "body"@ != "output_items"@,
        "body"@ != "background"@,
        "body"@ != "provider_session_id"@,
        "input_items"@ != "output_items"@,
        "input_items"@ != "background"@,
        "input_items"@ != "provider_session_id"@,
        "output_items"@ != "background"@,
        "output_items"@ != "provider_session_id"@,
        "background"@ != "provider_session_id"@,
{
    reveal_strlit("body");
    reveal_strlit("input_items");
    reveal_strlit("output_items");
    reveal_strlit("background");
    reveal_strlit("provider_session_id");
    assert("body"@.len() == 4 && "input_items"@.len() == 11 && "output_items"@.len() == 12);
    assert("background"@.len() == 10 && "provider_session_id"@.len() == 19);
}

/// What a store is kept as says that store: what is written down reads back.
pub proof fn lemma_kept_store(ids: Seq<Seq<char>>, stored: Stored)
    requires
        ids.no_duplicates(),
        forall|id: Seq<char>| ids.contains(id) <==> #[trigger] stored.dom().contains(id),
    ensures
        says(JsonView::object(store_members(ids, stored)), stored),
        readable(JsonView::object(store_members(ids, stored))),
{
    let pairs = store_members(ids, stored);
    let value = JsonView::object(pairs);
    assert forall|key: Seq<char>| #[trigger]
        stored.dom().contains(key) implies value.get(key) is Some && kept_response(
        value.get(key)->0,
    ) == Some(stored[key]) by {
        assert(ids.contains(key));
        let i = choose|i: int| 0 <= i < ids.len() && ids[i] == key;
        assert forall|a: int, b: int| 0 <= a < b < pairs.len() implies (#[trigger] pairs[a]).0 != (
        #[trigger] pairs[b]).0 by {
            assert(ids[a] != ids[b]);
        }
        json::lemma_lookup_collected(pairs, i);
        lemma_kept_response(stored[key]);
    }
    assert forall|key: Seq<char>| !stored.dom().contains(key) implies (#[trigger] value.get(key))
        is None by {
        assert forall|a: int| 0 <= a < pairs.len() implies (#[trigger] pairs[a]).0 != key by {
            assert(ids.contains(ids[a]));
        }
        json::lemma_lookup_not_collected(pairs, key);
    }
}

/// What is restored of a text that reads as the value that a store was kept as is that
/// store.
pub proof fn lemma_restored(ids: Seq<Seq<char>>, stored: Stored, text: Seq<char>, restored: Stored)
    requires
        ids.no_duplicates(),
        forall|id: Seq<char>| ids.contains(id) <==> #[trigger] stored.dom().contains(id),
        json::parsed(text) == Some(JsonView::object(store_members(ids, stored))),
        says(json::parsed(text)->0, restored),
    ensures
        restored == stored,
{
    lemma_kept_store(ids, stored);
    lemma_says_one(json::parsed(text)->0, stored, restored);
}

/// The value that a response is kept as.
fn keep_response(response: &StoredResponse) -> (r: Json)
    ensures
        r@ == JsonView::object(kept_members(response@)),
{
    let session = match &response.provider_session_id {
        Some(id) => Json::text(id.as_str()),
        None => Json::Null,
    };
    let pairs = vec![
        ("body", response.body.clone()),
        ("input_items", Json::Array(json::copied(&response.input_items))),
        ("output_items", Json::Array(json::copied(&response.output_items))),
        ("background", Json::Bool(response.background)),
        ("provider_session_id", session),
    ];
    assert(json::pairs_view(pairs@) =~= kept_members(response@));
    Json::object(pairs)
}

/// The response that these members make.
fn read_members(
    body: Option<&Json>,
    input_items: Option<&Json>,
    output_items: Option<&Json>,
    background: Option<&Json>,
    session: Option<&Json>,
) -> (r: Option<StoredResponse>)
    ensures
        views::of_option(r) == response_from(
            views::of_option(body),
            views::of_option(input_items),
            views::of_option(output_items),
            views::of_option(background),
            views::of_option(session),
        ),
{
    let provider_session_id = match session {
        None => None,
        Some(Json::Null) => None,
        Some(Json::Text(id)) => Some(id.clone()),
        Some(_) => {
            return None;
        },
    };
    match (body, input_items, output_items, background) {
        (
            Some(body),
            Some(Json::Array(input_items)),
            Some(Json::Array(output_items)),
            Some(Json::Bool(background)),
        ) => Some(
            StoredResponse {
                body: body.clone(),
                input_items: json::copied(input_items),
                output_items: json::copied(output_items),
                background: *background,
                provider_session_id,
            },
        ),
        _ => None,
    }
}

/// The response that was kept as this value.
fn read_response(value: &Json) -> (r: Option<StoredResponse>)
    ensures
        views::of_option(r) == kept_response(value@),
{
    match value {
        Json::Object(_) => read_members(
            value.get("body"),
            value.get("input_items"),
            value.get("output_items"),
            value.get("background"),
            value.get("provider_session_id"),
        ),
        Json::Array(items) => if items.len() == 5 {
            read_members(
                Some(&items[0]),
                Some(&items[1]),
                Some(&items[2]),
                Some(&items[3]),
                Some(&items[4]),
            )
        } else {
            None
        },
        _ => None,
    }
}

impl ResponseStore {
    /// The ids of the responses, in the order in which they first came in.
    pub closed spec fn ids(self) -> Seq<Seq<char>> {
        self.entries.keys()
    }

    /// The value that the store is kept as. It says this store.
    pub fn to_json(&self) -> (r: Json)
        ensures
            r@ == JsonView::object(store_members(self.ids(), self@)),
            says(r@, self@),
            readable(r@),
    {
        let n = self.entries.len();
        let ghost all = store_members(self.ids(), self@);
        let mut object = JsonObject::new();
        let mut i: usize = 0;
        assert(all.take(0) =~= Seq::empty());
        while i < n
            invariant
                i <= n,
                n == self.ids().len(),
                all == store_members(self.ids(), self@),
                object@ == json::collected(all.take(i as int)),
            decreases n - i,
        {
            let ghost next = all.take(i + 1);
            assert(next.take(i as int) =~= all.take(i as int));
            let id = self.entries.key_at(i).to_owned();
            let value = keep_response(self.entries.value_at(i));
            assert(next[i as int] == (id@, value@));
            object = object.with(id, value);
            i += 1;
        }
        assert(all.take(n as int) =~= all);
        proof {
            self.entries.lemma_keys();
            lemma_kept_store(self.ids(), self@);
        }
        Json::Object(object)
    }

    /// The store that a value says, if its members are all kept responses.
    pub fn from_json(value: &Json) -> (r: Option<Self>)
        ensures
            r is Some <==> readable(value@),
            r matches Some(store) ==> says(value@, store@),
    {
        let object = match value {
            Json::Object(object) => object,
            _ => {
                return None;
            },
        };
        let n = object.len();
        let ghost members = object@;
        let mut entries: Table<StoredResponse> = Table::new();
        let mut i: usize = 0;
        while i < n
            invariant
                i <= n,
                n == members.len(),
                members == object@,
                value@ == JsonView::Object(members),
                json::keys_ascend(members),
                forall|key: Seq<char>| #[trigger]
                    entries@.dom().contains(key) ==> exists|k: int|
                        0 <= k < i && (#[trigger] members[k]).0 == key,
                forall|k: int|
                    0 <= k < i ==> entries@.dom().contains((#[trigger] members[k]).0)
                        && kept_response(members[k].1) == Some(entries@[members[k].0]),
            decreases n - i,
        {
            let ghost before = entries@;
            proof {
                json::lemma_lookup_member(members, i as int);
            }
            let id = object.key_at(i).to_owned();
            match read_response(object.value_at(i)) {
                Some(response) => {
                    entries.insert(id, response);
                    assert forall|k: int| 0 <= k < i + 1 implies entries@.dom().contains(
                        (#[trigger] members[k]).0,
                    ) && kept_response(members[k].1) == Some(entries@[members[k].0]) by {
                        if k < i {
                            text::lemma_precedes_irreflexive(members[k].0);
                            assert(text::precedes(members[k].0, members[i as int].0));
                        }
                    }
                },
                None => {
                    assert(value@.get(members[i as int].0) == Some(members[i as int].1));
                    return None;
                },
            }
            i += 1;
        }
        proof {
            assert forall|key: Seq<char>| #[trigger]
                entries@.dom().contains(key) implies value@.get(key) is Some && kept_response(
                value@.get(key)->0,
            ) == Some(entries@[key]) by {
                let k = choose|k: int| 0 <= k < n && (#[trigger] members[k]).0 == key;
                json::lemma_lookup_member(members, k);
            }
            assert forall|key: Seq<char>| (#[trigger] value@.get(key)) is Some implies entries@.dom().contains(
                key,
            ) by {
                json::lemma_lookup_found(members, key);
                let k = choose|k: int|
                    0 <= k < members.len() && (#[trigger] members[k]).0 == key;
                assert(entries@.dom().contains(members[k].0));
            }
        }
        Some(ResponseStore { entries })
    }
}

} // verus!
