//! What holds of stored responses: what their items say, and which of them a page lists.
use vstd::prelude::*;

use crate::json;
use crate::json::JsonView;
use crate::responses_store;
use crate::text;
use crate::types::{ContentView, MessageView, RequestView};
use crate::wire::responses;

verus! {

/// The item that a text or an image is kept as is read as that text or image.
pub proof fn lemma_part_reads_back(content: ContentView, unique: Seq<char>)
    requires
        content is Text || content is ImageUrl,
    ensures
        responses::part_of(JsonView::object(responses_store::content_members(content, unique)))
            == Some(content),
{
    reveal_strlit("type");
    reveal_strlit("text");
    reveal_strlit("image_url");
    reveal_strlit("input_text");
    reveal_strlit("output_text");
    reveal_strlit("input_image");
    assert("type"@[1] == 'y' && "text"@[1] == 'e');
    assert("input_text"@.len() == 10 && "output_text"@.len() == 11 && "input_image"@.len() == 11
        && "text"@.len() == 4 && "image_url"@.len() == 9 && "type"@.len() == 4);
    assert("output_text"@[0] == 'o' && "input_image"@[0] == 'i');
    let pairs = responses_store::content_members(content, unique);
    assert forall|i: int, j: int| 0 <= i < j < pairs.len() implies (#[trigger] pairs[i]).0 != (
    #[trigger] pairs[j]).0 by {}
    json::lemma_lookup_collected(pairs, 0);
    json::lemma_lookup_collected(pairs, 1);
}

/// The parts that texts and images are kept as are read as these, in their order.
pub proof fn lemma_parts_read_back(contents: Seq<ContentView>, unique: Seq<Seq<char>>)
    requires
        forall|i: int|
            0 <= i < contents.len() ==> (#[trigger] contents[i] is Text || contents[i] is ImageUrl),
    ensures
        responses::parts_of(responses_store::content_items(contents, unique)) == contents,
    decreases contents.len(),
{
    let items = responses_store::content_items(contents, unique);
    if contents.len() > 0 {
        let n = contents.len() - 1;
        let before = contents.take(n);
        assert forall|i: int| 0 <= i < before.len() implies (#[trigger] before[i] is Text
            || before[i] is ImageUrl) by {
            assert(before[i] == contents[i]);
        }
        lemma_parts_read_back(before, unique);
        let front = responses_store::content_items(before, unique);
        assert(items.take(items.len() - 1) =~= front);
        assert(contents[n] is Text || contents[n] is ImageUrl);
        lemma_part_reads_back(
            contents[n],
            unique[responses_store::content_ids(before) as int],
        );
        assert(contents =~= before.push(contents[n]));
    } else {
        assert(contents =~= Seq::empty());
    }
}

/// A message of texts and images is kept as an item that is read as that message: with its
/// role, and its parts in their order.
pub proof fn lemma_message_reads_back(message: MessageView, unique: Seq<Seq<char>>)
    requires
        forall|i: int|
            0 <= i < message.content.len() ==> (#[trigger] message.content[i] is Text
                || message.content[i] is ImageUrl),
    ensures
        responses::message_of(responses_store::message_item(message, unique)) == Some(message),
{
    lemma_parts_read_back(message.content, unique.skip(1));
    let content = responses_store::content_items(message.content, unique.skip(1));
    if message.content.len() == 1 {
        assert(message.content[0] is Text || message.content[0] is ImageUrl);
    }
    lemma_message_item(unique[0], message.role, content);
}

proof fn lemma_message_item(unique: Seq<char>, role: Seq<char>, content: Seq<JsonView>)
    ensures
        ({
            let item = JsonView::object(responses_store::message_members(unique, role, content));
            &&& item.get("id"@) == Some(JsonView::Text("msg_"@ + unique))
            &&& item.get("type"@) == Some(JsonView::Text("message"@))
            &&& item.get("role"@) == Some(JsonView::Text(role))
            &&& item.get("content"@) == Some(JsonView::Array(content))
        }),
{
    reveal_strlit("id");
    reveal_strlit("type");
    reveal_strlit("role");
    reveal_strlit("status");
    reveal_strlit("content");
    assert("id"@.len() == 2 && "type"@.len() == 4 && "role"@.len() == 4 && "status"@.len() == 6
        && "content"@.len() == 7);
    assert("type"@[0] == 't' && "role"@[0] == 'r');
    let pairs = responses_store::message_members(unique, role, content);
    assert forall|i: int, j: int| 0 <= i < j < pairs.len() implies (#[trigger] pairs[i]).0 != (
    #[trigger] pairs[j]).0 by {}
    json::lemma_lookup_collected(pairs, 0);
    json::lemma_lookup_collected(pairs, 1);
    json::lemma_lookup_collected(pairs, 2);
    json::lemma_lookup_collected(pairs, 4);
}

/// The system text of a request is kept first, trimmed, as the developer's message.
pub proof fn lemma_system_kept(request: RequestView, unique: Seq<Seq<char>>, system: Seq<char>)
    requires
        request.system == Some(system),
        !text::blank(system),
    ensures
        ({
            let items = responses_store::request_items(request, unique);
            &&& items.len() == request.messages.len() + 1
            &&& responses::message_of(items[0]) matches Some(message) && message.role
                == "developer"@ && message.content == seq![
                ContentView::Text { text: text::trimmed(system) },
            ]
        }),
{
    responses_store::lemma_one_item_per_message(request, unique);
    let contents = seq![responses_store::system_content(system)];
    lemma_parts_read_back(contents, Seq::empty());
    let content = responses_store::content_items(contents, Seq::empty());
    lemma_message_item(unique[0], "developer"@, content);
    reveal_strlit("message");
}

/// A page lists the items from the first on, or from the last on backwards, or those behind
/// the item that it is asked to go on from, as many as there are up to the limit: twenty if
/// none is asked for, at least one and at most a hundred.
pub proof fn lemma_page_lists(
    items: Seq<JsonView>,
    after: Option<Seq<char>>,
    limit: Option<usize>,
    ascending: bool,
    start: int,
)
    requires
        0 <= start <= items.len(),
        after is None ==> start == 0,
        after matches Some(id) ==> 0 < start && (forall|j: int|
            0 <= j < start ==> ((if ascending {
                #[trigger] items[j]
            } else {
                items[items.len() - 1 - j]
            }).text_at("id"@) == Some(id) <==> j == start - 1)),
    ensures
        ({
            let page = responses_store::page_of(items, after, limit, ascending);
            let most = match limit {
                None => 20int,
                Some(0) => 1,
                Some(n) => if n > 100 {
                    100
                } else {
                    n as int
                },
            };
            &&& items.len() - start <= most ==> page.len() == items.len() - start
            &&& items.len() - start > most ==> page.len() == most
            &&& ascending ==> forall|i: int|
                0 <= i < page.len() ==> #[trigger] page[i] == items[start + i]
            &&& !ascending ==> forall|i: int|
                0 <= i < page.len() ==> #[trigger] page[i] == items[items.len() - 1 - start - i]
        }),
{
    let ordered = if ascending {
        items
    } else {
        items.reverse()
    };
    if let Some(id) = after {
        assert forall|j: int| 0 <= j < start implies (#[trigger] ordered[j].text_at("id"@) == Some(id)
            <==> j == start - 1) by {
            let item = items[j];
            if !ascending {
                assert(ordered[j] == items[items.len() - 1 - j]);
            }
        }
        lemma_item_at(ordered, id, start - 1, 0);
    }
}

proof fn lemma_item_at(items: Seq<JsonView>, id: Seq<char>, k: int, from: int)
    requires
        0 <= from <= k < items.len(),
        forall|j: int| 0 <= j <= k ==> (#[trigger] items[j].text_at("id"@) == Some(id) <==> j == k),
    ensures
        responses_store::item_with_id(items, id, from) == Some(k),
    decreases k - from,
{
    assert(items[from].text_at("id"@) == Some(id) <==> from == k);
    if from < k {
        lemma_item_at(items, id, k, from + 1);
    }
}

/// A page is a list with its items, the id of its first and of its last.
pub proof fn lemma_page_body(page: Seq<JsonView>, a: Seq<char>, b: Seq<char>)
    ensures
        ({
            let body = JsonView::object(responses_store::page_members(page));
            &&& body.get("object"@) == Some(JsonView::Text("list"@))
            &&& body.get("data"@) == Some(JsonView::Array(page))
            &&& page.len() > 0 && page[0].get("id"@) == Some(JsonView::Text(a)) ==> body.get(
                "first_id"@,
            ) == Some(JsonView::Text(a))
            &&& page.len() > 0 && page[page.len() - 1].get("id"@) == Some(JsonView::Text(b))
                ==> body.get("last_id"@) == Some(JsonView::Text(b))
            &&& page.len() == 0 ==> body.get("first_id"@) == Some(JsonView::Null) && body.get(
                "last_id"@,
            ) == Some(JsonView::Null)
            &&& body.get("has_more"@) == Some(JsonView::Bool(false))
        }),
{
    reveal_strlit("object");
    reveal_strlit("data");
    reveal_strlit("first_id");
    reveal_strlit("last_id");
    reveal_strlit("has_more");
    assert("object"@.len() == 6 && "data"@.len() == 4 && "first_id"@.len() == 8 && "last_id"@.len()
        == 7 && "has_more"@.len() == 8);
    assert("first_id"@[0] == 'f' && "has_more"@[0] == 'h');
    let pairs = responses_store::page_members(page);
    assert forall|i: int, j: int| 0 <= i < j < pairs.len() implies (#[trigger] pairs[i]).0 != (
    #[trigger] pairs[j]).0 by {}
    json::lemma_lookup_collected(pairs, 0);
    json::lemma_lookup_collected(pairs, 1);
    json::lemma_lookup_collected(pairs, 2);
    json::lemma_lookup_collected(pairs, 3);
    json::lemma_lookup_collected(pairs, 4);
}

} // verus!
