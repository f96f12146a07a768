//! What the events of a completion stream say.
use vstd::prelude::*;

use crate::json;
use crate::json::{Json, JsonView};
use crate::text;
use crate::views;

verus! {

/// Whether a piece of output is thought or said.
#[derive(Debug, Clone, Copy, PartialEq, Eq, Structural)]
pub enum DeepSeekDeltaKind {
    Thinking,
    Text,
}

/// The pieces found so far, and the kind of the last.
pub struct Progress {
    pub deltas: Seq<(DeepSeekDeltaKind, Seq<char>)>,
    pub last: Option<DeepSeekDeltaKind>,
}

impl Progress {
    /// Adds a piece. An empty piece is left out, but its kind counts.
    pub open spec fn with(self, kind: DeepSeekDeltaKind, content: Seq<char>) -> Progress {
        Progress {
            deltas: if content.len() > 0 {
                self.deltas.push((kind, content))
            } else {
                self.deltas
            },
            last: Some(kind),
        }
    }

    /// Adds a piece if there is one.
    pub open spec fn with_some(self, kind: DeepSeekDeltaKind, content: Option<Seq<char>>) -> Progress {
        match content {
            Some(content) => self.with(kind, content),
            None => self,
        }
    }
}

/// The kind that a type names.
pub open spec fn kind_named(name: Seq<char>) -> DeepSeekDeltaKind {
    let upper = text::uppered(name);
    if upper == "THINK"@ || upper == "THINKING"@ || upper == "REASONING"@ {
        DeepSeekDeltaKind::Thinking
    } else {
        DeepSeekDeltaKind::Text
    }
}

/// The text of the first of these members that is a text.
pub open spec fn first_text(value: JsonView, keys: Seq<Seq<char>>) -> Option<Seq<char>>
    decreases keys.len(),
{
    if keys.len() == 0 {
        None
    } else {
        match value.text_at(keys[0]) {
            Some(content) => Some(content),
            None => first_text(value, keys.skip(1)),
        }
    }
}

/// The keys under which a chunk may hold its text.
pub open spec fn content_keys() -> Seq<Seq<char>> {
    seq![
        "content"@,
        "text"@,
        "delta"@,
        "message"@,
        "answer"@,
        "reasoning_content"@,
        "thinking_content"@,
    ]
}

/// `some`, or nothing as the empty text.
pub open spec fn or_empty(some: Option<Seq<char>>) -> Seq<char> {
    match some {
        Some(s) => s,
        None => Seq::empty(),
    }
}

/// Adds the text of the chunk that an event holds.
pub open spec fn with_chunk(p: Progress, event: JsonView) -> Progress {
    match event.pointer(seq!["data"@, "biz_data"@, "chunk"@]) {
        Some(chunk) => p.with_some(
            kind_named(or_empty(chunk.text_at("type"@))),
            first_text(chunk, content_keys()),
        ),
        None => p,
    }
}

/// Adds the content of an event that names its type.
pub open spec fn with_typed(p: Progress, event: JsonView) -> Progress {
    match event.text_at("type"@) {
        Some(name) => p.with_some(kind_named(name), event.text_at("content"@)),
        None => p,
    }
}

/// The kind of a text that an event sets at a path. A path that says nothing of the
/// kind goes on with the last one.
pub open spec fn kind_at(
    path: Seq<char>,
    named_type: Option<Seq<char>>,
    last: Option<DeepSeekDeltaKind>,
) -> DeepSeekDeltaKind {
    if text::has(path, "reasoning"@) || text::has(path, "thinking"@) || text::has(path, "thought"@)
        || named_type == Some("thinking"@) {
        DeepSeekDeltaKind::Thinking
    } else if path.len() == 0 || text::has(path, "content"@) || text::has(path, "choices"@) {
        match last {
            Some(kind) => kind,
            None => DeepSeekDeltaKind::Text,
        }
    } else {
        DeepSeekDeltaKind::Text
    }
}

/// Adds the text that an event sets.
pub open spec fn with_value(p: Progress, event: JsonView) -> Progress {
    p.with_some(
        kind_at(or_empty(event.text_at("p"@)), event.text_at("type"@), p.last),
        event.text_at("v"@),
    )
}

/// The fragments that an event holds: the value that it sets if that has a type,
/// else the fragments of a response, else the items of the value.
pub open spec fn fragments(event: JsonView) -> Seq<JsonView> {
    match event.get("v"@) {
        Some(JsonView::Object(members)) if json::lookup(members, "type"@) is Some => {
            seq![JsonView::Object(members)]
        },
        value => match event.pointer(seq!["v"@, "response"@, "fragments"@]) {
            Some(JsonView::Array(items)) => items,
            _ => match value {
                Some(JsonView::Array(items)) => items,
                _ => Seq::empty(),
            },
        },
    }
}

/// The text of a fragment, if the first of its usual keys that it has is one.
pub open spec fn fragment_text(fragment: JsonView) -> Option<Seq<char>> {
    match crate::protocol::first_member(
        fragment,
        seq!["content"@, "v"@, "text"@, "delta"@],
    ) {
        Some(content) => content.as_text(),
        None => None,
    }
}

/// Adds a fragment. Its kind counts even where it has no text.
pub open spec fn with_fragment(p: Progress, fragment: JsonView) -> Progress {
    let kind = match fragment.text_at("type"@) {
        Some(name) => kind_named(name),
        None => DeepSeekDeltaKind::Text,
    };
    p.with(kind, or_empty(fragment_text(fragment)))
}

/// Adds the fragments.
pub open spec fn with_fragments(p: Progress, items: Seq<JsonView>) -> Progress
    decreases items.len(),
{
    if items.len() == 0 {
        p
    } else {
        with_fragment(with_fragments(p, items.take(items.len() - 1)), items[items.len() - 1])
    }
}

/// Adds the texts that stand at these places of an event.
pub open spec fn with_texts(
    p: Progress,
    event: JsonView,
    kind: DeepSeekDeltaKind,
    paths: Seq<Seq<Seq<char>>>,
) -> Progress
    decreases paths.len(),
{
    if paths.len() == 0 {
        p
    } else {
        with_texts(p, event, kind, paths.take(paths.len() - 1)).with_some(
            kind,
            event.text_under(paths[paths.len() - 1]),
        )
    }
}

/// Where an event may hold what is said.
pub open spec fn said_paths() -> Seq<Seq<Seq<char>>> {
    seq![
        seq!["data"@, "biz_data"@, "content"@],
        seq!["data"@, "biz_data"@, "text"@],
        seq!["data"@, "biz_data"@, "message"@, "content"@],
        seq!["data"@, "biz_data"@, "message"@],
        seq!["data"@, "biz_data"@, "answer"@],
        seq!["data"@, "content"@],
        seq!["data"@, "text"@],
        seq!["data"@, "message"@, "content"@],
        seq!["data"@, "message"@],
        seq!["data"@, "answer"@],
    ]
}

/// Where an event may hold what is thought.
pub open spec fn thought_paths() -> Seq<Seq<Seq<char>>> {
    seq![
        seq!["data"@, "biz_data"@, "reasoning_content"@],
        seq!["data"@, "biz_data"@, "thinking_content"@],
        seq!["data"@, "biz_data"@, "thinking"@],
        seq!["data"@, "reasoning_content"@],
        seq!["data"@, "thinking_content"@],
        seq!["data"@, "thinking"@],
        seq!["reasoning_content"@],
        seq!["thinking_content"@],
    ]
}

/// The value at the first of these places that is there.
pub open spec fn first_at(event: JsonView, paths: Seq<Seq<Seq<char>>>) -> Option<JsonView>
    decreases paths.len(),
{
    if paths.len() == 0 {
        None
    } else {
        match event.pointer(paths[0]) {
            Some(value) => Some(value),
            None => first_at(event, paths.skip(1)),
        }
    }
}

/// Where an event may hold a code.
pub open spec fn code_paths() -> Seq<Seq<Seq<char>>> {
    seq![seq!["code"@], seq!["data"@, "biz_code"@], seq!["data"@, "code"@]]
}

/// Where an event may hold a message that goes with a code.
pub open spec fn message_paths() -> Seq<Seq<Seq<char>>> {
    seq![
        seq!["msg"@],
        seq!["message"@],
        seq!["data"@, "biz_msg"@],
        seq!["data"@, "msg"@],
        seq!["error"@, "message"@],
    ]
}

/// The error that an event reports by a code other than zero.
pub open spec fn error_text(event: JsonView) -> Option<Seq<char>> {
    let code = match first_at(event, code_paths()) {
        Some(value) => value.as_i64(),
        None => None,
    };
    let message = match first_at(event, message_paths()) {
        Some(JsonView::Text(s)) => text::trimmed(s),
        _ => Seq::empty(),
    };
    match code {
        None => None,
        Some(code) => if code == 0 {
            None
        } else if message.len() > 0 {
            Some("DeepSeek Web returned "@ + text::signed_decimal(code as int) + ": "@ + message)
        } else {
            Some("DeepSeek Web returned error code "@ + text::signed_decimal(code as int))
        },
    }
}

/// The pieces of output that an event holds, with the kind that later pieces without
/// one go on with. An event that holds none and reports an error says that error.
pub open spec fn event_deltas(event: JsonView, last: Option<DeepSeekDeltaKind>) -> Progress {
    let start = Progress { deltas: Seq::empty(), last };
    let direct = with_value(with_typed(with_chunk(start, event), event), event);
    let all = with_texts(
        with_texts(
            with_fragments(direct, fragments(event)),
            event,
            DeepSeekDeltaKind::Text,
            said_paths(),
        ),
        event,
        DeepSeekDeltaKind::Thinking,
        thought_paths(),
    );
    match error_text(event) {
        Some(error) if all.deltas.len() == 0 => Progress {
            deltas: seq![(DeepSeekDeltaKind::Text, error)],
            last: all.last,
        },
        _ => all,
    }
}

/// The views of pieces of output.
pub open spec fn pieces(deltas: Seq<(DeepSeekDeltaKind, String)>) -> Seq<
    (DeepSeekDeltaKind, Seq<char>),
> {
    deltas.map_values(|d: (DeepSeekDeltaKind, String)| (d.0, d.1@))
}

/// Pieces of output as they are gathered.
struct Gathered {
    deltas: Vec<(DeepSeekDeltaKind, String)>,
    last: Option<DeepSeekDeltaKind>,
}

impl View for Gathered {
    type V = Progress;

    closed spec fn view(&self) -> Progress {
        Progress { deltas: pieces(self.deltas@), last: self.last }
    }
}

impl Gathered {
    /// Adds a piece.
    fn add_piece(&mut self, kind: DeepSeekDeltaKind, content: &str)
        ensures
            final(self)@ == old(self)@.with(kind, content@),
    {
        push_deepseek_delta(&mut self.deltas, kind, content);
        self.last = Some(kind);
    }

    /// Adds a piece if there is one.
    fn add_some(&mut self, kind: DeepSeekDeltaKind, content: Option<&str>)
        ensures
            final(self)@ == old(self)@.with_some(kind, views::of_option(content)),
    {
        if let Some(content) = content {
            self.add_piece(kind, content);
        }
    }

    /// Adds the texts that stand at these places of an event.
    fn add_texts(&mut self, event: &Json, kind: DeepSeekDeltaKind, paths: &Vec<Vec<&str>>)
        ensures
            final(self)@ == with_texts(old(self)@, event@, kind, json::paths_view(paths@)),
    {
        let ghost all = json::paths_view(paths@);
        let ghost start = self@;
        let mut i: usize = 0;
        while i < paths.len()
            invariant
                i <= paths@.len(),
                all == json::paths_view(paths@),
                self@ == with_texts(start, event@, kind, all.take(i as int)),
            decreases paths.len() - i,
        {
            let ghost next = all.take(i + 1);
            assert(next.take(i as int) =~= all.take(i as int));
            assert(next[i as int] == json::tokens_view(paths@[i as int]@));
            self.add_some(kind, event.text_under(paths[i].as_slice()));
            i += 1;
        }
        assert(all.take(i as int) =~= all);
    }

    /// Adds a fragment.
    fn add_fragment(&mut self, fragment: &Json)
        ensures
            final(self)@ == with_fragment(old(self)@, fragment@),
    {
        let kind = match fragment.text_at("type") {
            Some(name) => deepseek_kind_from_type(name),
            None => DeepSeekDeltaKind::Text,
        };
        let content = match fragment_content(fragment) {
            Some(content) => content,
            None => "",
        };
        proof {
            reveal_strlit("");
            assert(""@ =~= Seq::empty());
        }
        self.add_piece(kind, content);
    }
}

/// Adds a piece of output unless it is empty.
fn push_deepseek_delta(
    deltas: &mut Vec<(DeepSeekDeltaKind, String)>,
    kind: DeepSeekDeltaKind,
    content: &str,
)
    ensures
        pieces(final(deltas)@) == (if content@.len() > 0 {
            pieces(old(deltas)@).push((kind, content@))
        } else {
            pieces(old(deltas)@)
        }),
{
    if !text::same(content, "") {
        deltas.push((kind, content.to_owned()));
    }
    proof {
        reveal_strlit("");
        assert(content@.len() == 0 ==> content@ =~= ""@);
    }
    assert(content@.len() > 0 ==> pieces(deltas@) =~= pieces(old(deltas)@).push((kind, content@)));
}

/// The kind that a type names.
fn deepseek_kind_from_type(chunk_type: &str) -> (r: DeepSeekDeltaKind)
    ensures
        r == kind_named(chunk_type@),
{
    let chars = text::chars_of(chunk_type);
    let upper = text::string_of(text::to_upper(chars.as_slice()).as_slice());
    if text::same(upper.as_str(), "THINK") || text::same(upper.as_str(), "THINKING") || text::same(
        upper.as_str(),
        "REASONING",
    ) {
        DeepSeekDeltaKind::Thinking
    } else {
        DeepSeekDeltaKind::Text
    }
}

/// The text of the first of the usual members that is a text.
fn deepseek_content_text(value: &Json) -> (r: Option<&str>)
    ensures
        views::of_option(r) == first_text(value@, content_keys()),
{
    let keys = vec![
        "content",
        "text",
        "delta",
        "message",
        "answer",
        "reasoning_content",
        "thinking_content",
    ];
    let ghost all = json::tokens_view(keys@);
    assert(all =~= content_keys());
    let mut i: usize = 0;
    assert(all.skip(0) =~= all);
    while i < keys.len()
        invariant
            i <= keys@.len(),
            all == json::tokens_view(keys@),
            first_text(value@, all.skip(i as int)) == first_text(value@, all),
            all == content_keys(),
        decreases keys.len() - i,
    {
        assert(all.skip(i as int)[0] == keys@[i as int]@);
        if let Some(content) = value.text_at(keys[i]) {
            return Some(content);
        }
        assert(all.skip(i as int).skip(1) =~= all.skip(i + 1));
        i += 1;
    }
    None
}

/// The text of a fragment.
fn fragment_content(fragment: &Json) -> (r: Option<&str>)
    ensures
        views::of_option(r) == fragment_text(fragment@),
{
    proof {
        reveal_with_fuel(crate::protocol::first_member, 5);
    }
    let ghost keys = seq!["content"@, "v"@, "text"@, "delta"@];
    assert(keys.skip(1)[0] == "v"@ && keys.skip(1).skip(1)[0] == "text"@ && keys.skip(1).skip(
        1,
    ).skip(1)[0] == "delta"@);
    let content = match fragment.get("content") {
        Some(content) => content,
        None => match fragment.get("v") {
            Some(content) => content,
            None => match fragment.get("text") {
                Some(content) => content,
                None => match fragment.get("delta") {
                    Some(content) => content,
                    None => {
                        return None;
                    },
                },
            },
        },
    };
    content.as_str()
}

/// The kind of a text that an event sets at a path.
fn kind_of_path(path: &str, named_type: Option<&str>, last: Option<DeepSeekDeltaKind>) -> (r:
    DeepSeekDeltaKind)
    ensures
        r == kind_at(path@, views::of_option(named_type), last),
{
    let typed = match named_type {
        Some(name) => text::same(name, "thinking"),
        None => false,
    };
    proof {
        reveal_strlit("");
        assert(path@.len() == 0 ==> path@ =~= ""@);
    }
    if text::str_contains(path, "reasoning") || text::str_contains(path, "thinking")
        || text::str_contains(path, "thought") || typed {
        DeepSeekDeltaKind::Thinking
    } else if text::same(path, "") || text::str_contains(path, "content") || text::str_contains(
        path,
        "choices",
    ) {
        match last {
            Some(kind) => kind,
            None => DeepSeekDeltaKind::Text,
        }
    } else {
        DeepSeekDeltaKind::Text
    }
}

/// The value at the first of these places that is there.
fn find_first_at<'a>(event: &'a Json, paths: &Vec<Vec<&str>>) -> (r: Option<&'a Json>)
    ensures
        views::of_option(r) == first_at(event@, json::paths_view(paths@)),
{
    let ghost all = json::paths_view(paths@);
    let mut i: usize = 0;
    assert(all.skip(0) =~= all);
    while i < paths.len()
        invariant
            i <= paths@.len(),
            all == json::paths_view(paths@),
            first_at(event@, all.skip(i as int)) == first_at(event@, all),
        decreases paths.len() - i,
    {
        assert(all.skip(i as int)[0] == json::tokens_view(paths@[i as int]@));
        if let Some(value) = event.pointer(paths[i].as_slice()) {
            return Some(value);
        }
        assert(all.skip(i as int).skip(1) =~= all.skip(i + 1));
        i += 1;
    }
    None
}

/// The error that an event reports.
pub fn extract_deepseek_error_text(event: &Json) -> (r: Option<String>)
    ensures
        views::of_option(r) == error_text(event@),
{
    let codes = vec![vec!["code"], vec!["data", "biz_code"], vec!["data", "code"]];
    let messages = vec![
        vec!["msg"],
        vec!["message"],
        vec!["data", "biz_msg"],
        vec!["data", "msg"],
        vec!["error", "message"],
    ];
    assert(json::paths_view(codes@) =~~= code_paths());
    assert(json::paths_view(messages@) =~~= message_paths());
    let code = match find_first_at(event, &codes) {
        Some(value) => match value.as_i64() {
            Some(code) => code,
            None => {
                return None;
            },
        },
        None => {
            return None;
        },
    };
    let message = match find_first_at(event, &messages) {
        Some(Json::Text(s)) => text::trim_str(s.as_str()),
        _ => String::new(),
    };
    if code == 0 {
        return None;
    }
    proof {
        reveal_strlit("");
        assert(message@.len() == 0 ==> message@ =~= ""@);
    }
    if !text::same(message.as_str(), "") {
        let mut out = "DeepSeek Web returned ".to_owned();
        out.append(text::signed_decimal_of(code).as_str());
        out.append(": ");
        out.append(message.as_str());
        Some(out)
    } else {
        let mut out = "DeepSeek Web returned error code ".to_owned();
        out.append(text::signed_decimal_of(code).as_str());
        Some(out)
    }
}

/// The pieces of output that an event holds, with the kind that later pieces without
/// one go on with.
pub fn extract_deepseek_deltas(event: &Json, last: Option<DeepSeekDeltaKind>) -> (r: (
    Vec<(DeepSeekDeltaKind, String)>,
    Option<DeepSeekDeltaKind>,
))
    ensures
        (Progress { deltas: pieces(r.0@), last: r.1 }) == event_deltas(event@, last),
{
    let mut out = Gathered { deltas: Vec::new(), last };
    assert(out@.deltas =~= Seq::empty());
    let chunk_path = vec!["data", "biz_data", "chunk"];
    assert(json::tokens_view(chunk_path@) =~= seq!["data"@, "biz_data"@, "chunk"@]);
    proof {
        reveal_strlit("");
        assert(""@ =~= Seq::empty());
    }
    if let Some(chunk) = event.pointer(chunk_path.as_slice()) {
        let named_type = match chunk.text_at("type") {
            Some(name) => name,
            None => "",
        };
        out.add_some(deepseek_kind_from_type(named_type), deepseek_content_text(chunk));
    }
    if let Some(name) = event.text_at("type") {
        out.add_some(deepseek_kind_from_type(name), event.text_at("content"));
    }
    let path = match event.text_at("p") {
        Some(path) => path,
        None => "",
    };
    let kind = kind_of_path(path, event.text_at("type"), out.last);
    out.add_some(kind, event.text_at("v"));

    let ghost direct = out@;
    add_fragments(&mut out, event);

    let said = vec![
        vec!["data", "biz_data", "content"],
        vec!["data", "biz_data", "text"],
        vec!["data", "biz_data", "message", "content"],
        vec!["data", "biz_data", "message"],
        vec!["data", "biz_data", "answer"],
        vec!["data", "content"],
        vec!["data", "text"],
        vec!["data", "message", "content"],
        vec!["data", "message"],
        vec!["data", "answer"],
    ];
    assert(json::paths_view(said@) =~~= said_paths());
    out.add_texts(event, DeepSeekDeltaKind::Text, &said);
    let thought = vec![
        vec!["data", "biz_data", "reasoning_content"],
        vec!["data", "biz_data", "thinking_content"],
        vec!["data", "biz_data", "thinking"],
        vec!["data", "reasoning_content"],
        vec!["data", "thinking_content"],
        vec!["data", "thinking"],
        vec!["reasoning_content"],
        vec!["thinking_content"],
    ];
    assert(json::paths_view(thought@) =~~= thought_paths());
    out.add_texts(event, DeepSeekDeltaKind::Thinking, &thought);

    if out.deltas.len() == 0 {
        if let Some(error) = extract_deepseek_error_text(event) {
            out.deltas.push((DeepSeekDeltaKind::Text, error));
            assert(pieces(out.deltas@) =~= seq![(DeepSeekDeltaKind::Text, error@)]);
        }
    }
    (out.deltas, out.last)
}

/// Adds the fragments that an event holds.
fn add_fragments(out: &mut Gathered, event: &Json)
    ensures
        final(out)@ == with_fragments(old(out)@, fragments(event@)),
{
    let ghost start = out@;
    let value = event.get("v");
    if let Some(Json::Object(object)) = value {
        if object.get("type").is_some() {
            if let Some(fragment) = value {
                out.add_fragment(fragment);
                let ghost one = seq![fragment@];
                assert(fragments(event@) =~= one);
                assert(one.take(0) =~= Seq::empty());
                assert(with_fragments(start, one.take(0)) == start);
            }
            return;
        }
    }
    let path = vec!["v", "response", "fragments"];
    assert(json::tokens_view(path@) =~= seq!["v"@, "response"@, "fragments"@]);
    let items = match event.pointer(path.as_slice()) {
        Some(Json::Array(items)) => items,
        _ => match value {
            Some(Json::Array(items)) => items,
            _ => {
                return;
            },
        },
    };
    let ghost all = json::models(items@);
    assert(fragments(event@) == all);
    let mut i: usize = 0;
    assert(all.take(0) =~= Seq::empty());
    while i < items.len()
        invariant
            i <= items@.len(),
            all == json::models(items@),
            out@ == with_fragments(start, all.take(i as int)),
        decreases items.len() - i,
    {
        let ghost next = all.take(i + 1);
        assert(next.take(i as int) =~= all.take(i as int));
        assert(next[i as int] == items@[i as int]@);
        out.add_fragment(&items[i]);
        i += 1;
    }
    assert(all.take(i as int) =~= all);
}

// ---------------------------------------------------------------------------
// Ids
// ---------------------------------------------------------------------------

/// Where an event may hold the id of the message that it is part of.
pub open spec fn parent_paths() -> Seq<Seq<Seq<char>>> {
    seq![
        seq!["data"@, "biz_data"@, "response_message_id"@],
        seq!["data"@, "biz_data"@, "message_id"@],
        seq!["data"@, "biz_data"@, "msg_id"@],
        seq!["data"@, "biz_data"@, "chunk"@, "response_message_id"@],
        seq!["data"@, "biz_data"@, "chunk"@, "message_id"@],
        seq!["data"@, "biz_data"@, "chunk"@, "msg_id"@],
        seq!["data"@, "response_message_id"@],
        seq!["data"@, "message_id"@],
        seq!["data"@, "msg_id"@],
        seq!["response_message_id"@],
        seq!["message_id"@],
        seq!["msg_id"@],
    ]
}

/// `found` as a message id: a number, or a text that is not blank.
pub open spec fn as_message_id(found: Option<JsonView>) -> Option<JsonView> {
    match found {
        Some(JsonView::Text(raw)) if !text::blank(raw) => found,
        Some(JsonView::Integer(_)) => found,
        Some(JsonView::Float(_)) => found,
        _ => None,
    }
}

/// The message id at the first of these places that holds one.
pub open spec fn first_message_id(event: JsonView, paths: Seq<Seq<Seq<char>>>) -> Option<JsonView>
    decreases paths.len(),
{
    if paths.len() == 0 {
        None
    } else {
        match as_message_id(event.pointer(paths[0])) {
            Some(id) => Some(id),
            None => first_message_id(event, paths.skip(1)),
        }
    }
}

/// The id of the message that an event is part of.
pub fn extract_parent_message_id(event: &Json) -> (r: Option<Json>)
    ensures
        views::of_option(r) == first_message_id(event@, parent_paths()),
{
    let paths = vec![
        vec!["data", "biz_data", "response_message_id"],
        vec!["data", "biz_data", "message_id"],
        vec!["data", "biz_data", "msg_id"],
        vec!["data", "biz_data", "chunk", "response_message_id"],
        vec!["data", "biz_data", "chunk", "message_id"],
        vec!["data", "biz_data", "chunk", "msg_id"],
        vec!["data", "response_message_id"],
        vec!["data", "message_id"],
        vec!["data", "msg_id"],
        vec!["response_message_id"],
        vec!["message_id"],
        vec!["msg_id"],
    ];
    let ghost all = json::paths_view(paths@);
    assert(all =~~= parent_paths());
    let mut i: usize = 0;
    assert(all.skip(0) =~= all);
    while i < paths.len()
        invariant
            i <= paths@.len(),
            all == json::paths_view(paths@),
            all == parent_paths(),
            first_message_id(event@, all.skip(i as int)) == first_message_id(event@, all),
        decreases paths.len() - i,
    {
        assert(all.skip(i as int)[0] == json::tokens_view(paths@[i as int]@));
        if let Some(value) = event.pointer(paths[i].as_slice()) {
            let usable = match value {
                Json::Text(raw) => !text::is_blank(raw.as_str()),
                Json::Unsigned(_) => true,
                Json::Negative(_) => true,
                Json::Float(_) => true,
                _ => false,
            };
            if usable {
                return Some(value.clone());
            }
        }
        assert(all.skip(i as int).skip(1) =~= all.skip(i + 1));
        i += 1;
    }
    None
}

/// Where an event or a reply may hold the id of a session.
pub open spec fn session_paths() -> Seq<Seq<Seq<char>>> {
    seq![
        seq!["data"@, "biz_data"@, "id"@],
        seq!["data"@, "biz_data"@, "chat_session_id"@],
        seq!["data"@, "biz_data"@, "session_id"@],
        seq!["data"@, "biz_data"@, "chat_session"@, "id"@],
        seq!["data"@, "biz_data"@, "chat_session"@, "chat_session_id"@],
        seq!["data"@, "id"@],
        seq!["data"@, "chat_session_id"@],
        seq!["id"@],
    ]
}

/// The text at the first of these places that holds one which is not blank, trimmed.
pub open spec fn first_session_id(event: JsonView, paths: Seq<Seq<Seq<char>>>) -> Option<Seq<char>>
    decreases paths.len(),
{
    if paths.len() == 0 {
        None
    } else {
        match event.text_under(paths[0]) {
            Some(id) if !text::blank(id) => Some(text::trimmed(id)),
            _ => first_session_id(event, paths.skip(1)),
        }
    }
}

/// The id of the session that an event or a reply names.
pub fn find_deepseek_session_id(event: &Json) -> (r: Option<String>)
    ensures
        views::of_option(r) == first_session_id(event@, session_paths()),
{
    let paths = vec![
        vec!["data", "biz_data", "id"],
        vec!["data", "biz_data", "chat_session_id"],
        vec!["data", "biz_data", "session_id"],
        vec!["data", "biz_data", "chat_session", "id"],
        vec!["data", "biz_data", "chat_session", "chat_session_id"],
        vec!["data", "id"],
        vec!["data", "chat_session_id"],
        vec!["id"],
    ];
    let ghost all = json::paths_view(paths@);
    assert(all =~~= session_paths());
    let mut i: usize = 0;
    assert(all.skip(0) =~= all);
    while i < paths.len()
        invariant
            i <= paths@.len(),
            all == json::paths_view(paths@),
            all == session_paths(),
            first_session_id(event@, all.skip(i as int)) == first_session_id(event@, all),
        decreases paths.len() - i,
    {
        assert(all.skip(i as int)[0] == json::tokens_view(paths@[i as int]@));
        if let Some(id) = event.text_under(paths[i].as_slice()) {
            if !text::is_blank(id) {
                return Some(text::trim_str(id));
            }
        }
        assert(all.skip(i as int).skip(1) =~= all.skip(i + 1));
        i += 1;
    }
    None
}

// ---------------------------------------------------------------------------
// Lines
// ---------------------------------------------------------------------------

/// The event that a line of the stream holds.
pub open spec fn line_event(line: Seq<char>) -> Option<JsonView> {
    let trimmed = text::trimmed(line);
    if trimmed.len() == 0 || trimmed == "data: [DONE]"@ {
        None
    } else if text::begins(trimmed, "data: "@) {
        json::parsed(trimmed.skip("data: "@.len() as int))
    } else {
        json::parsed(trimmed)
    }
}

/// The events that these lines hold.
pub open spec fn line_events(lines: Seq<Seq<char>>) -> Seq<JsonView>
    decreases lines.len(),
{
    if lines.len() == 0 {
        Seq::empty()
    } else {
        line_events(lines.take(lines.len() - 1)) + match line_event(lines[lines.len() - 1]) {
            Some(event) => seq![event],
            None => Seq::empty(),
        }
    }
}

/// The event that a line of the stream holds.
pub fn parse_deepseek_sse_line(line: &str) -> (r: Option<Json>)
    ensures
        views::of_option(r) == line_event(line@),
{
    let chars = text::chars_of(line);
    let trimmed = text::trim(chars.as_slice());
    if trimmed.len() == 0 || text::same(text::string_of(trimmed).as_str(), "data: [DONE]") {
        return None;
    }
    proof {
        reveal_strlit("data: ");
    }
    let body = if text::begins_with_text(trimmed, "data: ") {
        text::after(trimmed, 6)
    } else {
        trimmed
    };
    json::parse_json(text::string_of(body).as_str())
}

/// The events that a body holds, one on a line.
pub fn parse_deepseek_sse_values(body: &str) -> (r: Vec<Json>)
    ensures
        views::of_list(r@) == line_events(text::lines(body@)),
{
    let chars = text::chars_of(body);
    let lines = text::split_lines(chars.as_slice());
    let ghost all = text::texts(lines@);
    let mut out: Vec<Json> = Vec::new();
    let mut i: usize = 0;
    assert(all.take(0) =~= Seq::empty());
    assert(views::of_list(out@) =~= Seq::empty());
    while i < lines.len()
        invariant
            i <= lines@.len(),
            all == text::texts(lines@),
            views::of_list(out@) == line_events(all.take(i as int)),
        decreases lines.len() - i,
    {
        let ghost next = all.take(i + 1);
        let ghost before = out@;
        assert(next.take(i as int) =~= all.take(i as int));
        if let Some(event) = parse_deepseek_sse_line(lines[i].as_str()) {
            out.push(event);
            assert(views::of_list(out@) =~= views::of_list(before) + seq![event@]);
        }
        assert(views::of_list(before) =~= views::of_list(before) + Seq::empty());
        i += 1;
    }
    assert(all.take(i as int) =~= all);
    out
}

} // verus!
