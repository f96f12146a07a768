//! What holds of the events of a completion stream: what is thought goes on as thought,
//! what is said as said, and nothing that an event says is lost.
use vstd::prelude::*;

use crate::json::JsonView;
use crate::json_laws;
use crate::protocol;
use crate::providers::deepseek_web::client;
use crate::providers::deepseek_web::client::ClientView;
use crate::providers::deepseek_web::deltas;
use crate::providers::deepseek_web::deltas::{DeepSeekDeltaKind, Progress};
use crate::providers::deepseek_web::stream;
use crate::providers::deepseek_web::stream::RunView;
use crate::text;

verus! {

// ---------------------------------------------------------------------------
// Pieces are only added
// ---------------------------------------------------------------------------

/// Whether the pieces of `a` are the first of those of `b`.
spec fn grows(a: Progress, b: Progress) -> bool {
    a.deltas.len() <= b.deltas.len() && b.deltas.take(a.deltas.len() as int) == a.deltas
}

proof fn lemma_grows_with(p: Progress, kind: DeepSeekDeltaKind, content: Seq<char>)
    ensures
        grows(p, p.with(kind, content)),
        content.len() > 0 ==> p.with(kind, content).deltas.contains((kind, content)),
{
    let q = p.with(kind, content);
    assert(q.deltas.take(p.deltas.len() as int) =~= p.deltas);
    if content.len() > 0 {
        assert(q.deltas[p.deltas.len() as int] == (kind, content));
    }
}

proof fn lemma_grows_some(p: Progress, kind: DeepSeekDeltaKind, content: Option<Seq<char>>)
    ensures
        grows(p, p.with_some(kind, content)),
        content matches Some(s) ==> s.len() > 0 ==> p.with_some(kind, content).deltas.contains(
            (kind, s),
        ),
{
    assert(p.deltas.take(p.deltas.len() as int) =~= p.deltas);
    if let Some(s) = content {
        lemma_grows_with(p, kind, s);
    }
}

proof fn lemma_grows_trans(a: Progress, b: Progress, c: Progress)
    requires
        grows(a, b),
        grows(b, c),
    ensures
        grows(a, c),
        forall|piece: (DeepSeekDeltaKind, Seq<char>)|
            b.deltas.contains(piece) ==> #[trigger] c.deltas.contains(piece),
{
    let n = a.deltas.len() as int;
    assert(c.deltas.take(n) =~= c.deltas.take(b.deltas.len() as int).take(n));
    assert forall|piece: (DeepSeekDeltaKind, Seq<char>)|
        b.deltas.contains(piece) implies #[trigger] c.deltas.contains(piece) by {
        let i = choose|i: int| 0 <= i < b.deltas.len() && b.deltas[i] == piece;
        assert(c.deltas.take(b.deltas.len() as int)[i] == c.deltas[i]);
    }
}

proof fn lemma_grows_fragments(p: Progress, items: Seq<JsonView>)
    ensures
        grows(p, deltas::with_fragments(p, items)),
    decreases items.len(),
{
    assert(p.deltas.take(p.deltas.len() as int) =~= p.deltas);
    if items.len() > 0 {
        let before = items.take(items.len() - 1);
        let q = deltas::with_fragments(p, before);
        lemma_grows_fragments(p, before);
        let fragment = items[items.len() - 1];
        let kind = match fragment.text_at("type"@) {
            Some(name) => deltas::kind_named(name),
            None => DeepSeekDeltaKind::Text,
        };
        lemma_grows_with(q, kind, deltas::or_empty(deltas::fragment_text(fragment)));
        lemma_grows_trans(p, q, deltas::with_fragments(p, items));
    }
}

proof fn lemma_grows_texts(
    p: Progress,
    event: JsonView,
    kind: DeepSeekDeltaKind,
    paths: Seq<Seq<Seq<char>>>,
)
    ensures
        grows(p, deltas::with_texts(p, event, kind, paths)),
        forall|i: int|
            0 <= i < paths.len() ==> (event.text_under(#[trigger] paths[i]) matches Some(s) ==> s.len()
                > 0 ==> deltas::with_texts(p, event, kind, paths).deltas.contains((kind, s))),
    decreases paths.len(),
{
    assert(p.deltas.take(p.deltas.len() as int) =~= p.deltas);
    if paths.len() > 0 {
        let n = paths.len() - 1;
        let before = paths.take(n);
        let q = deltas::with_texts(p, event, kind, before);
        let r = deltas::with_texts(p, event, kind, paths);
        lemma_grows_texts(p, event, kind, before);
        lemma_grows_some(q, kind, event.text_under(paths[n]));
        lemma_grows_trans(p, q, r);
        assert forall|i: int| 0 <= i < paths.len() implies (event.text_under(
            #[trigger] paths[i],
        ) matches Some(s) ==> s.len() > 0 ==> r.deltas.contains((kind, s))) by {
            if i < n {
                assert(before[i] == paths[i]);
            }
        }
    }
}

/// How far an event has come once its chunk, its own content, the text that it sets and
/// its fragments were taken.
spec fn steps(event: JsonView, last: Option<DeepSeekDeltaKind>) -> Seq<Progress> {
    let p0 = Progress { deltas: Seq::empty(), last };
    let p1 = deltas::with_chunk(p0, event);
    let p2 = deltas::with_typed(p1, event);
    let p3 = deltas::with_value(p2, event);
    let p4 = deltas::with_fragments(p3, deltas::fragments(event));
    let p5 = deltas::with_texts(p4, event, DeepSeekDeltaKind::Text, deltas::said_paths());
    let p6 = deltas::with_texts(p5, event, DeepSeekDeltaKind::Thinking, deltas::thought_paths());
    seq![p0, p1, p2, p3, p4, p5, p6]
}

proof fn lemma_steps(event: JsonView, last: Option<DeepSeekDeltaKind>)
    ensures
        ({
            let s = steps(event, last);
            let end = deltas::event_deltas(event, last);
            &&& end.last == s[6].last
            &&& s[6].deltas.len() > 0 ==> end == s[6]
            &&& forall|i: int, piece: (DeepSeekDeltaKind, Seq<char>)|
                0 <= i < 7 && (#[trigger] s[i]).deltas.contains(piece)
                    ==> #[trigger] end.deltas.contains(piece)
        }),
{
    let s = steps(event, last);
    let end = deltas::event_deltas(event, last);
    if let Some(chunk) = event.pointer(seq!["data"@, "biz_data"@, "chunk"@]) {
        lemma_grows_some(
            s[0],
            deltas::kind_named(deltas::or_empty(chunk.text_at("type"@))),
            deltas::first_text(chunk, deltas::content_keys()),
        );
    }
    assert(s[0].deltas.take(0) =~= s[0].deltas);
    assert(s[1].deltas.take(s[1].deltas.len() as int) =~= s[1].deltas);
    if let Some(name) = event.text_at("type"@) {
        lemma_grows_some(s[1], deltas::kind_named(name), event.text_at("content"@));
    }
    lemma_grows_some(
        s[2],
        deltas::kind_at(
            deltas::or_empty(event.text_at("p"@)),
            event.text_at("type"@),
            s[2].last,
        ),
        event.text_at("v"@),
    );
    lemma_grows_fragments(s[3], deltas::fragments(event));
    lemma_grows_texts(s[4], event, DeepSeekDeltaKind::Text, deltas::said_paths());
    lemma_grows_texts(s[5], event, DeepSeekDeltaKind::Thinking, deltas::thought_paths());
    assert(grows(s[0], s[1]) && grows(s[1], s[2]) && grows(s[2], s[3]) && grows(s[3], s[4])
        && grows(s[4], s[5]) && grows(s[5], s[6]));
    lemma_grows_trans(s[4], s[5], s[6]);
    lemma_grows_trans(s[3], s[4], s[6]);
    lemma_grows_trans(s[2], s[3], s[6]);
    lemma_grows_trans(s[1], s[2], s[6]);
    lemma_grows_trans(s[0], s[1], s[6]);
    assert forall|i: int, piece: (DeepSeekDeltaKind, Seq<char>)|
        0 <= i < 7 && (#[trigger] s[i]).deltas.contains(piece) implies #[trigger] end.deltas.contains(
        piece,
    ) by {
        assert(i == 0 || i == 1 || i == 2 || i == 3 || i == 4 || i == 5 || i == 6);
        assert(s[6].deltas.contains(piece));
        let k = choose|k: int| 0 <= k < s[6].deltas.len() && s[6].deltas[k] == piece;
        assert(s[6].deltas.len() > 0);
    }
}

// ---------------------------------------------------------------------------
// What an event that sets a text comes to
// ---------------------------------------------------------------------------

/// Whether an event sets this text and holds nothing else that is said or thought.
pub open spec fn sets_text(event: JsonView, value: Seq<char>) -> bool {
    &&& event.get("v"@) == Some(JsonView::Text(value))
    &&& value.len() > 0
    &&& event.get("data"@) is None
    &&& event.get("type"@) is None
    &&& event.get("reasoning_content"@) is None
    &&& event.get("thinking_content"@) is None
}

/// Whether a path names what is thought.
pub open spec fn names_thought(path: Seq<char>) -> bool {
    text::has(path, "reasoning"@) || text::has(path, "thinking"@) || text::has(path, "thought"@)
}

/// Texts at places whose first step leads nowhere add nothing.
proof fn lemma_no_texts(
    p: Progress,
    event: JsonView,
    kind: DeepSeekDeltaKind,
    paths: Seq<Seq<Seq<char>>>,
)
    requires
        forall|i: int|
            0 <= i < paths.len() ==> (#[trigger] paths[i]).len() > 0 && event.step(paths[i][0])
                is None,
    ensures
        deltas::with_texts(p, event, kind, paths) == p,
    decreases paths.len(),
{
    if paths.len() > 0 {
        let n = paths.len() - 1;
        let before = paths.take(n);
        assert forall|i: int| 0 <= i < before.len() implies (#[trigger] before[i]).len() > 0
            && event.step(before[i][0]) is None by {
            assert(before[i] == paths[i]);
        }
        lemma_no_texts(p, event, kind, before);
        assert(event.step(paths[n][0]) is None);
        assert(event.pointer(paths[n]) is None);
    }
}

/// An event that sets a text gives that text as its one piece. Its kind is thought where
/// its path says so; it is that of the piece before, and said if there was none, where the
/// event has no path or one to a content or to the choices; and said elsewhere. Later
/// pieces go on with the kind.
pub proof fn lemma_set_text(
    event: JsonView,
    last: Option<DeepSeekDeltaKind>,
    value: Seq<char>,
    path: Seq<char>,
)
    requires
        sets_text(event, value),
        event.get("p"@) == Some(JsonView::Text(path)) || (event.get("p"@) is None && path.len()
            == 0),
    ensures
        ({
            let found = deltas::event_deltas(event, last);
            let open = path.len() == 0 || text::has(path, "content"@) || text::has(
                path,
                "choices"@,
            );
            &&& found.deltas.len() == 1
            &&& found.deltas[0].1 == value
            &&& found.last == Some(found.deltas[0].0)
            &&& names_thought(path) ==> found.deltas[0].0 == DeepSeekDeltaKind::Thinking
            &&& !names_thought(path) && open ==> {
                &&& last matches Some(kind) ==> found.deltas[0].0 == kind
                &&& last is None ==> found.deltas[0].0 == DeepSeekDeltaKind::Text
            }
            &&& !names_thought(path) && !open ==> found.deltas[0].0 == DeepSeekDeltaKind::Text
        }),
{
    let s = steps(event, last);
    lemma_steps(event, last);
    assert(event is Object);
    let chunk = seq!["data"@, "biz_data"@, "chunk"@];
    assert(event.step(chunk[0]) is None);
    assert(event.pointer(chunk) is None);
    assert(s[2] == s[0]);
    assert(deltas::or_empty(event.text_at("p"@)) =~= path);
    assert(s[3].deltas =~= seq![(s[3].last->0, value)]);
    let inner = seq!["v"@, "response"@, "fragments"@];
    assert(event.step(inner[0]) == Some(JsonView::Text(value)));
    assert(JsonView::Text(value).step(inner.skip(1)[0]) is None);
    assert(JsonView::Text(value).pointer(inner.skip(1)) is None);
    assert(event.pointer(inner) is None);
    assert(deltas::fragments(event).len() == 0);
    assert(s[4] == s[3]);
    lemma_no_texts(s[4], event, DeepSeekDeltaKind::Text, deltas::said_paths());
    lemma_no_texts(s[5], event, DeepSeekDeltaKind::Thinking, deltas::thought_paths());
}

/// Whether an event adds this text to the content of what came last.
pub open spec fn appends(event: JsonView, value: Seq<char>) -> bool {
    &&& sets_text(event, value)
    &&& event.get("p"@) is None || (event.get("p"@) matches Some(JsonView::Text(path))
        && text::has(path, "content"@) && !names_thought(path))
}

/// The texts one behind another.
pub open spec fn behind_each_other(values: Seq<Seq<char>>) -> Seq<char>
    decreases values.len(),
{
    if values.len() == 0 {
        Seq::empty()
    } else {
        behind_each_other(values.take(values.len() - 1)) + values[values.len() - 1]
    }
}

/// Appends have the kind of what came last: after a thought they all are what is thought,
/// and add nothing to what is said; after something said, or at the start, they are what is
/// said, and add nothing to what is thought.
pub proof fn lemma_appends_go_on(
    run: RunView,
    client: ClientView,
    events: Seq<JsonView>,
    values: Seq<Seq<char>>,
)
    requires
        events.len() == values.len(),
        forall|i: int| 0 <= i < events.len() ==> appends(#[trigger] events[i], values[i]),
    ensures
        ({
            let now = stream::with_events(run, client, events);
            &&& run.last == Some(DeepSeekDeltaKind::Thinking) ==> {
                &&& now.reasoning == run.reasoning + behind_each_other(values)
                &&& now.text == run.text
                &&& now.last == Some(DeepSeekDeltaKind::Thinking)
            }
            &&& run.last != Some(DeepSeekDeltaKind::Thinking) ==> {
                &&& now.text == run.text + behind_each_other(values)
                &&& now.reasoning == run.reasoning
                &&& now.last != Some(DeepSeekDeltaKind::Thinking)
            }
        }),
    decreases events.len(),
{
    if events.len() == 0 {
        assert(run.reasoning + behind_each_other(values) =~= run.reasoning);
        assert(run.text + behind_each_other(values) =~= run.text);
    } else {
        let n = events.len() - 1;
        let before = events.take(n);
        let said = values.take(n);
        assert forall|i: int| 0 <= i < before.len() implies appends(#[trigger] before[i], said[i]) by {
            assert(before[i] == events[i] && said[i] == values[i]);
        }
        lemma_appends_go_on(run, client, before, said);
        let then = stream::with_events(run, client, before);
        let event = events[n];
        let path = match event.get("p"@) {
            Some(JsonView::Text(path)) => path,
            _ => Seq::empty(),
        };
        assert(appends(events[n], values[n]));
        if event.get("p"@) is None {
            lemma_nothing_named();
        }
        lemma_set_text(event, then.last, values[n], path);
        lemma_one_piece(then, client, event);
        assert(behind_each_other(values) == behind_each_other(said) + values[n]);
        assert(run.reasoning + behind_each_other(said) + values[n] =~= run.reasoning
            + behind_each_other(values));
        assert(run.text + behind_each_other(said) + values[n] =~= run.text + behind_each_other(
            values,
        ));
    }
}

proof fn lemma_nothing_named()
    ensures
        !names_thought(Seq::empty()),
{
    reveal_strlit("reasoning");
    reveal_strlit("thinking");
    reveal_strlit("thought");
}

/// An event with one piece adds that piece to what is thought or to what is said, by its
/// kind, and nothing to the other.
proof fn lemma_one_piece(run: RunView, client: ClientView, event: JsonView)
    requires
        deltas::event_deltas(event, run.last).deltas.len() == 1,
    ensures
        ({
            let found = deltas::event_deltas(event, run.last);
            let now = run.with_event(client, event);
            &&& now.last == found.last
            &&& found.deltas[0].0 == DeepSeekDeltaKind::Thinking ==> now.reasoning == run.reasoning
                + found.deltas[0].1 && now.text == run.text
            &&& found.deltas[0].0 == DeepSeekDeltaKind::Text ==> now.text == run.text
                + found.deltas[0].1 && now.reasoning == run.reasoning
        }),
{
    reveal_with_fuel(RunView::with_pieces, 2);
    let found = deltas::event_deltas(event, run.last);
    assert(found.deltas.take(0) =~= Seq::empty());
}

// ---------------------------------------------------------------------------
// Fragments
// ---------------------------------------------------------------------------

/// Whether a type says that a fragment is what is thought.
pub open spec fn thought_type(name: Seq<char>) -> bool {
    text::uppered(name) == "THINK"@ || text::uppered(name) == "THINKING"@ || text::uppered(name)
        == "REASONING"@
}

/// Whether an event opens a response with this one fragment, of this type and content.
pub open spec fn opens_fragment(event: JsonView, kind: Seq<char>, content: Seq<char>) -> bool {
    &&& event.get("v"@) matches Some(v) && v.get("type"@) is None && (v.get("response"@) matches Some(
        response,
    ) && (response.get("fragments"@) matches Some(JsonView::Array(items)) && items.len() == 1
        && items[0].get("type"@) == Some(JsonView::Text(kind)) && items[0].get("content"@) == Some(
        JsonView::Text(content),
    )))
    &&& content.len() > 0
    &&& event.get("data"@) is None
    &&& event.get("type"@) is None
    &&& event.get("reasoning_content"@) is None
    &&& event.get("thinking_content"@) is None
}

/// A fragment gives its content as one piece, thought if its type says so and said
/// otherwise, and later pieces without a kind of their own go on with it.
pub proof fn lemma_fragment(
    event: JsonView,
    last: Option<DeepSeekDeltaKind>,
    kind: Seq<char>,
    content: Seq<char>,
)
    requires
        opens_fragment(event, kind, content),
    ensures
        ({
            let found = deltas::event_deltas(event, last);
            let meant = if thought_type(kind) {
                DeepSeekDeltaKind::Thinking
            } else {
                DeepSeekDeltaKind::Text
            };
            &&& found.deltas == seq![(meant, content)]
            &&& found.last == Some(meant)
        }),
{
    let s = steps(event, last);
    lemma_steps(event, last);
    let chunk = seq!["data"@, "biz_data"@, "chunk"@];
    assert(event.step(chunk[0]) is None);
    assert(event.pointer(chunk) is None);
    assert(s[3] == s[0]);
    let v = event.get("v"@)->0;
    let response = v.get("response"@)->0;
    let items = response.get("fragments"@)->0->Array_0;
    let inner = seq!["v"@, "response"@, "fragments"@];
    assert(inner.skip(1)[0] == "response"@);
    assert(inner.skip(1).skip(1)[0] == "fragments"@);
    assert(inner.skip(1).skip(1).skip(1).len() == 0);
    assert(event.step("v"@) == Some(v) && v.step("response"@) == Some(response));
    assert(response.step("fragments"@) == Some(JsonView::Array(items)));
    reveal_with_fuel(JsonView::pointer, 4);
    assert(event.pointer(inner) == Some(JsonView::Array(items)));
    assert(deltas::fragments(event) == items);
    let keys = seq!["content"@, "v"@, "text"@, "delta"@];
    assert(keys[0] == "content"@);
    assert(deltas::fragment_text(items[0]) == Some(content));
    assert(items.take(0) =~= Seq::empty());
    reveal_with_fuel(deltas::with_fragments, 2);
    assert(s[4].deltas =~= seq![(s[4].last->0, content)]);
    lemma_no_texts(s[4], event, DeepSeekDeltaKind::Text, deltas::said_paths());
    lemma_no_texts(s[5], event, DeepSeekDeltaKind::Thinking, deltas::thought_paths());
}

/// A fragment of what is thought and all that is appended to it are what is thought: the
/// one behind the other, with nothing of it in what is said. A fragment of another type
/// and all that is appended to it are what is said.
pub proof fn lemma_fragment_goes_on(
    run: RunView,
    client: ClientView,
    opening: JsonView,
    kind: Seq<char>,
    content: Seq<char>,
    events: Seq<JsonView>,
    values: Seq<Seq<char>>,
)
    requires
        opens_fragment(opening, kind, content),
        events.len() == values.len(),
        forall|i: int| 0 <= i < events.len() ==> appends(#[trigger] events[i], values[i]),
    ensures
        ({
            let now = stream::with_events(run.with_event(client, opening), client, events);
            let whole = content + behind_each_other(values);
            &&& thought_type(kind) ==> now.reasoning == run.reasoning + whole && now.text == run.text
            &&& !thought_type(kind) ==> now.text == run.text + whole && now.reasoning
                == run.reasoning
        }),
{
    lemma_fragment(opening, run.last, kind, content);
    lemma_one_piece(run, client, opening);
    let then = run.with_event(client, opening);
    lemma_appends_go_on(then, client, events, values);
    assert(run.reasoning + content + behind_each_other(values) =~= run.reasoning + (content
        + behind_each_other(values)));
    assert(run.text + content + behind_each_other(values) =~= run.text + (content
        + behind_each_other(values)));
}

// ---------------------------------------------------------------------------
// Nothing is lost
// ---------------------------------------------------------------------------

/// What an event holds at one of the places for what is said is one of its pieces, as
/// said; what it holds at one of the places for what is thought, as thought.
pub proof fn lemma_nothing_lost(event: JsonView, last: Option<DeepSeekDeltaKind>, s: Seq<char>)
    requires
        s.len() > 0,
    ensures
        ({
            let found = deltas::event_deltas(event, last).deltas;
            let said = (DeepSeekDeltaKind::Text, s);
            let thought = (DeepSeekDeltaKind::Thinking, s);
            &&& event.text_under(seq!["data"@, "biz_data"@, "content"@]) == Some(s)
                ==> found.contains(said)
            &&& event.text_under(seq!["data"@, "biz_data"@, "text"@]) == Some(s) ==> found.contains(
                said,
            )
            &&& event.text_under(seq!["data"@, "biz_data"@, "message"@, "content"@]) == Some(s)
                ==> found.contains(said)
            &&& event.text_under(seq!["data"@, "biz_data"@, "message"@]) == Some(s)
                ==> found.contains(said)
            &&& event.text_under(seq!["data"@, "biz_data"@, "answer"@]) == Some(s)
                ==> found.contains(said)
            &&& event.text_under(seq!["data"@, "content"@]) == Some(s) ==> found.contains(said)
            &&& event.text_under(seq!["data"@, "text"@]) == Some(s) ==> found.contains(said)
            &&& event.text_under(seq!["data"@, "message"@, "content"@]) == Some(s)
                ==> found.contains(said)
            &&& event.text_under(seq!["data"@, "message"@]) == Some(s) ==> found.contains(said)
            &&& event.text_under(seq!["data"@, "answer"@]) == Some(s) ==> found.contains(said)
            &&& event.text_under(seq!["data"@, "biz_data"@, "reasoning_content"@]) == Some(s)
                ==> found.contains(thought)
            &&& event.text_under(seq!["data"@, "biz_data"@, "thinking_content"@]) == Some(s)
                ==> found.contains(thought)
            &&& event.text_under(seq!["data"@, "biz_data"@, "thinking"@]) == Some(s)
                ==> found.contains(thought)
            &&& event.text_under(seq!["data"@, "reasoning_content"@]) == Some(s) ==> found.contains(
                thought,
            )
            &&& event.text_under(seq!["data"@, "thinking_content"@]) == Some(s) ==> found.contains(
                thought,
            )
            &&& event.text_under(seq!["data"@, "thinking"@]) == Some(s) ==> found.contains(thought)
            &&& event.text_under(seq!["reasoning_content"@]) == Some(s) ==> found.contains(thought)
            &&& event.text_under(seq!["thinking_content"@]) == Some(s) ==> found.contains(thought)
        }),
{
    let steps = steps(event, last);
    lemma_steps(event, last);
    lemma_grows_texts(steps[4], event, DeepSeekDeltaKind::Text, deltas::said_paths());
    lemma_grows_texts(steps[5], event, DeepSeekDeltaKind::Thinking, deltas::thought_paths());
    let said = deltas::said_paths();
    let thought = deltas::thought_paths();
    assert(said[0].len() == 3 && said[1].len() == 3 && said[2].len() == 4 && said[3].len() == 3
        && said[4].len() == 3 && said[5].len() == 2 && said[6].len() == 2 && said[7].len() == 3
        && said[8].len() == 2 && said[9].len() == 2);
    assert(thought[0].len() == 3 && thought[1].len() == 3 && thought[2].len() == 3
        && thought[3].len() == 2 && thought[4].len() == 2 && thought[5].len() == 2
        && thought[6].len() == 1 && thought[7].len() == 1);
    assert(steps[5].deltas.contains((DeepSeekDeltaKind::Text, s))
        ==> deltas::event_deltas(event, last).deltas.contains((DeepSeekDeltaKind::Text, s)));
    assert(steps[6].deltas.contains((DeepSeekDeltaKind::Thinking, s))
        ==> deltas::event_deltas(event, last).deltas.contains((DeepSeekDeltaKind::Thinking, s)));
}

/// The content of an event that names its type is one of its pieces, of the kind that the
/// type says.
pub proof fn lemma_typed_content(
    event: JsonView,
    last: Option<DeepSeekDeltaKind>,
    kind: Seq<char>,
    content: Seq<char>,
)
    requires
        event.get("type"@) == Some(JsonView::Text(kind)),
        event.get("content"@) == Some(JsonView::Text(content)),
        content.len() > 0,
    ensures
        deltas::event_deltas(event, last).deltas.contains(
            (
                if thought_type(kind) {
                    DeepSeekDeltaKind::Thinking
                } else {
                    DeepSeekDeltaKind::Text
                },
                content,
            ),
        ),
{
    let s = steps(event, last);
    lemma_steps(event, last);
    lemma_grows_some(s[1], deltas::kind_named(kind), Some(content));
    assert(s[2].deltas.contains((deltas::kind_named(kind), content)));
}

/// The text of a chunk is one of the pieces of its event, of the kind that the type of the
/// chunk says: the first of its content, text, delta, message, answer and reasoning that
/// is a text.
pub proof fn lemma_chunk_text(
    event: JsonView,
    last: Option<DeepSeekDeltaKind>,
    chunk: JsonView,
    s: Seq<char>,
)
    requires
        event.pointer(seq!["data"@, "biz_data"@, "chunk"@]) == Some(chunk),
        s.len() > 0,
        ({
            let text = Some(JsonView::Text(s));
            ||| chunk.get("content"@) == text
            ||| chunk.get("content"@) is None && chunk.get("text"@) == text
            ||| chunk.get("content"@) is None && chunk.get("text"@) is None && chunk.get("delta"@)
                == text
            ||| chunk.get("content"@) is None && chunk.get("text"@) is None && chunk.get("delta"@)
                is None && chunk.get("message"@) == text
            ||| chunk.get("content"@) is None && chunk.get("text"@) is None && chunk.get("delta"@)
                is None && chunk.get("message"@) is None && chunk.get("answer"@) == text
            ||| chunk.get("content"@) is None && chunk.get("text"@) is None && chunk.get("delta"@)
                is None && chunk.get("message"@) is None && chunk.get("answer"@) is None
                && chunk.get("reasoning_content"@) == text
            ||| chunk.get("content"@) is None && chunk.get("text"@) is None && chunk.get("delta"@)
                is None && chunk.get("message"@) is None && chunk.get("answer"@) is None
                && chunk.get("reasoning_content"@) is None && chunk.get("thinking_content"@) == text
        }),
    ensures
        deltas::event_deltas(event, last).deltas.contains(
            (
                if chunk.get("type"@) matches Some(JsonView::Text(kind)) && thought_type(kind) {
                    DeepSeekDeltaKind::Thinking
                } else {
                    DeepSeekDeltaKind::Text
                },
                s,
            ),
        ),
{
    let all = steps(event, last);
    lemma_steps(event, last);
    let keys = deltas::content_keys();
    assert(keys.skip(1)[0] == "text"@);
    assert(keys.skip(1).skip(1)[0] == "delta"@);
    assert(keys.skip(1).skip(1).skip(1)[0] == "message"@);
    assert(keys.skip(1).skip(1).skip(1).skip(1)[0] == "answer"@);
    assert(keys.skip(1).skip(1).skip(1).skip(1).skip(1)[0] == "reasoning_content"@);
    assert(keys.skip(1).skip(1).skip(1).skip(1).skip(1).skip(1)[0] == "thinking_content"@);
    reveal_with_fuel(deltas::first_text, 8);
    assert(deltas::first_text(chunk, keys) == Some(s));
    let kind = deltas::kind_named(deltas::or_empty(chunk.text_at("type"@)));
    reveal_strlit("THINK");
    reveal_strlit("THINKING");
    reveal_strlit("REASONING");
    assert("THINK"@.len() == 5 && "THINKING"@.len() == 8 && "REASONING"@.len() == 9);
    assert(text::uppered(Seq::<char>::empty()).len() == 0);
    assert(chunk.text_at("type"@) is None ==> kind == DeepSeekDeltaKind::Text);
    lemma_grows_some(all[0], kind, Some(s));
    assert(all[1].deltas.contains((kind, s)));
}

// ---------------------------------------------------------------------------
// Ids and lines
// ---------------------------------------------------------------------------

/// An event is part of the message whose id it gives: in its data, in the chunk there, or
/// by itself, as the response's id, the message's id or the short form of it. The first of
/// these places that holds a number or a text that is not blank counts.
pub proof fn lemma_message_id(event: JsonView, k: int)
    requires
        0 <= k < 12,
    ensures
        ({
            let places = seq![
                seq!["data"@, "biz_data"@, "response_message_id"@],
                seq!["data"@, "biz_data"@, "message_id"@],
                seq!["data"@, "biz_data"@, "msg_id"@],
                seq!["data"@, "biz_data"@, "chunk"@, "response_message_id"@],
                seq!["data"@, "biz_data"@, "chunk"@, "message_id"@],
                seq!["data"@, "biz_data"@, "chunk"@, "msg_id"@],
                seq!["data"@, "response_message_id"@],
                seq!["data"@, "message_id"@],
                seq!["data"@, "msg_id"@],
                seq!["response_message_id"@],
                seq!["message_id"@],
                seq!["msg_id"@],
            ];
            let found = deltas::first_message_id(event, deltas::parent_paths());
            let here = event.pointer(places[k]);
            let usable = match here {
                Some(JsonView::Text(s)) => !text::blank(s),
                Some(JsonView::Integer(_)) => true,
                Some(JsonView::Float(_)) => true,
                _ => false,
            };
            &&& (forall|j: int| 0 <= j < k ==> event.pointer(#[trigger] places[j]) is None)
                && usable ==> found == here
            &&& (forall|j: int| 0 <= j < 12 ==> event.pointer(#[trigger] places[j]) is None)
                ==> found is None
        }),
{
    let paths = deltas::parent_paths();
    assert(paths.skip(0) =~= paths);
    if forall|j: int| 0 <= j < k ==> event.pointer(#[trigger] paths[j]) is None {
        lemma_first_id(event, paths, 0, k);
    }
    if forall|j: int| 0 <= j < 12 ==> event.pointer(#[trigger] paths[j]) is None {
        lemma_first_id(event, paths, 0, 12);
    }
}

proof fn lemma_first_id(event: JsonView, paths: Seq<Seq<Seq<char>>>, from: int, k: int)
    requires
        0 <= from <= k <= paths.len(),
        forall|j: int| from <= j < k ==> event.pointer(#[trigger] paths[j]) is None,
    ensures
        deltas::first_message_id(event, paths.skip(from)) == deltas::first_message_id(
            event,
            paths.skip(k),
        ),
        k < paths.len() ==> paths.skip(k)[0] == paths[k],
    decreases k - from,
{
    if from < k {
        assert(paths.skip(from)[0] == paths[from]);
        assert(event.pointer(paths[from]) is None);
        assert(paths.skip(from).skip(1) =~= paths.skip(from + 1));
        lemma_first_id(event, paths, from + 1, k);
    }
}

/// A line with `data: ` before JSON is the event that the JSON says, as is one that is
/// JSON by itself; an empty line and the one that ends a stream are none.
pub proof fn lemma_line(json: Seq<char>)
    requires
        json.len() > 0,
        !text::whitespace(json[0]),
        !text::whitespace(json[json.len() - 1]),
        json != "[DONE]"@,
        !text::begins(json, "data: "@),
    ensures
        deltas::line_event("data: "@ + json) == crate::json::parsed(json),
        deltas::line_event(json) == crate::json::parsed(json),
        deltas::line_event("data: [DONE]"@) is None,
        deltas::line_event(Seq::empty()) is None,
{
    reveal_strlit("data: ");
    reveal_strlit("[DONE]");
    reveal_strlit("data: [DONE]");
    let line = "data: "@ + json;
    assert(line[0] == 'd' && line[line.len() - 1] == json[json.len() - 1]);
    assert(text::trimmed(line) == line);
    assert(text::trimmed(json) == json);
    assert(line.take("data: "@.len() as int) =~= "data: "@);
    assert(line.skip("data: "@.len() as int) =~= json);
    assert("data: [DONE]"@ =~= "data: "@ + "[DONE]"@);
    if line == "data: [DONE]"@ {
        assert(line.skip(6) =~= "[DONE]"@);
    }
    if json == "data: [DONE]"@ {
        assert(json.take("data: "@.len() as int) =~= "data: "@);
    }
    assert("data: [DONE]"@[0] == 'd' && "data: [DONE]"@["data: [DONE]"@.len() - 1] == ']');
    assert(text::trimmed("data: [DONE]"@) == "data: [DONE]"@);
}

/// The fragments of an event are its value, if that has a type; or else those of the response
/// in it; or else the items of its value.
pub proof fn lemma_fragments_of(event: JsonView, v: JsonView, items: Seq<JsonView>)
    requires
        event.get("v"@) == Some(v),
    ensures
        v.get("type"@) is Some ==> deltas::fragments(event) == seq![v],
        v.get("type"@) is None && (v.get("response"@) matches Some(response) && response.get(
            "fragments"@,
        ) == Some(JsonView::Array(items))) ==> deltas::fragments(event) == items,
        v == JsonView::Array(items) ==> deltas::fragments(event) == items,
{
    let inner = seq!["v"@, "response"@, "fragments"@];
    let i1 = inner.skip(1);
    let i2 = i1.skip(1);
    assert(i1[0] == "response"@ && i2[0] == "fragments"@ && i2.skip(1).len() == 0);
    assert(event.step("v"@) == Some(v));
    assert(event.pointer(inner) == v.pointer(i1));
    if let Some(response) = v.get("response"@) {
        assert(v.step("response"@) == Some(response));
        assert(v.pointer(i1) == response.pointer(i2));
        if response.get("fragments"@) == Some(JsonView::Array(items)) {
            assert(response.step("fragments"@) == Some(JsonView::Array(items)));
            assert(JsonView::Array(items).pointer(i2.skip(1)) == Some(JsonView::Array(items)));
        }
    }
    if v == JsonView::Array(items) {
        reveal_strlit("response");
        json_laws::lemma_index(items, 0, "response"@);
        assert(v.pointer(i1) is None);
    }
}

/// What a fragment says is its content, or else its value, its text or its delta: of these
/// the first that it has counts.
pub proof fn lemma_fragment_said(fragment: JsonView, said: Seq<char>)
    ensures
        fragment.get("content"@) == Some(JsonView::Text(said)) ==> deltas::fragment_text(fragment)
            == Some(said),
        fragment.get("content"@) is None && fragment.get("v"@) == Some(JsonView::Text(said))
            ==> deltas::fragment_text(fragment) == Some(said),
        fragment.get("content"@) is None && fragment.get("v"@) is None && fragment.get("text"@)
            == Some(JsonView::Text(said)) ==> deltas::fragment_text(fragment) == Some(said),
        fragment.get("content"@) is None && fragment.get("v"@) is None && fragment.get("text"@)
            is None && fragment.get("delta"@) == Some(JsonView::Text(said))
            ==> deltas::fragment_text(fragment) == Some(said),
        fragment.get("content"@) is None && fragment.get("v"@) is None && fragment.get("text"@)
            is None && fragment.get("delta"@) is None ==> deltas::fragment_text(fragment) is None,
{
    let keys = seq!["content"@, "v"@, "text"@, "delta"@];
    let k1 = keys.skip(1);
    let k2 = k1.skip(1);
    let k3 = k2.skip(1);
    assert(k1[0] == "v"@ && k2[0] == "text"@ && k3[0] == "delta"@ && k3.skip(1).len() == 0);
    reveal_with_fuel(protocol::first_member, 5);
}

/// An event that holds nothing of what events are read for says nothing.
pub proof fn lemma_silent_event(event: JsonView, last: Option<DeepSeekDeltaKind>)
    requires
        event is Object,
        event.get("data"@) is None,
        event.get("v"@) is None,
        event.get("type"@) is None,
        event.get("reasoning_content"@) is None,
        event.get("thinking_content"@) is None,
        event.get("code"@) is None,
    ensures
        deltas::event_deltas(event, last).deltas.len() == 0,
        deltas::event_deltas(event, last).last == last,
{
    let s = steps(event, last);
    let chunk = seq!["data"@, "biz_data"@, "chunk"@];
    assert(event.step(chunk[0]) is None);
    assert(event.pointer(chunk) is None);
    let inner = seq!["v"@, "response"@, "fragments"@];
    assert(event.step(inner[0]) is None);
    assert(event.pointer(inner) is None);
    lemma_no_texts(s[4], event, DeepSeekDeltaKind::Text, deltas::said_paths());
    lemma_no_texts(s[5], event, DeepSeekDeltaKind::Thinking, deltas::thought_paths());
    let codes = deltas::code_paths();
    let c1 = codes.skip(1);
    let c2 = c1.skip(1);
    assert(c1[0] == seq!["data"@, "biz_code"@] && c2[0] == seq!["data"@, "code"@] && c2.skip(
        1,
    ).len() == 0);
    assert(codes[0][0] == "code"@ && c1[0][0] == "data"@ && c2[0][0] == "data"@);
    assert(event.pointer(codes[0]) is None);
    assert(event.pointer(c1[0]) is None);
    assert(event.pointer(c2[0]) is None);
    reveal_with_fuel(deltas::first_at, 4);
    assert(deltas::first_at(event, codes) is None);
}

/// An event with an error says its code, and its message if it has one; the code zero is no
/// error. Code and message stand in the event, or else in its data, and the message may
/// also stand in its error.
pub proof fn lemma_error_said(event: JsonView, code: int, said: Seq<char>)
    requires
        -0x8000_0000_0000_0000 <= code <= 0x7fff_ffff_ffff_ffff,
        event.get("code"@) == Some(JsonView::Integer(code)),
    ensures
        code == 0 ==> deltas::error_text(event) is None,
        code != 0 && event.get("msg"@) == Some(JsonView::Text(said)) && !text::blank(said)
            ==> deltas::error_text(event) == Some(
            "DeepSeek Web returned "@ + text::signed_decimal(code) + ": "@ + text::trimmed(said),
        ),
        code != 0 && event.get("msg"@) is None && event.get("message"@) == Some(
            JsonView::Text(said),
        ) && !text::blank(said) ==> deltas::error_text(event) == Some(
            "DeepSeek Web returned "@ + text::signed_decimal(code) + ": "@ + text::trimmed(said),
        ),
        code != 0 && event.get("msg"@) is None && event.get("message"@) is None && event.get(
            "data"@,
        ) is None && event.get("error"@) is None ==> deltas::error_text(event) == Some(
            "DeepSeek Web returned error code "@ + text::signed_decimal(code),
        ),
{
    let codes = deltas::code_paths();
    let number = JsonView::Integer(code);
    assert(codes[0] == seq!["code"@] && codes[0].skip(1).len() == 0);
    assert(event.step("code"@) == Some(number));
    assert(number.pointer(codes[0].skip(1)) == Some(number));
    assert(event.pointer(codes[0]) == Some(number));
    assert(deltas::first_at(event, codes) == Some(number));
    let m = deltas::message_paths();
    let m1 = m.skip(1);
    let m2 = m1.skip(1);
    let m3 = m2.skip(1);
    let m4 = m3.skip(1);
    assert(m[0] == seq!["msg"@] && m1[0] == seq!["message"@] && m2[0] == seq!["data"@, "biz_msg"@]
        && m3[0] == seq!["data"@, "msg"@] && m4[0] == seq!["error"@, "message"@] && m4.skip(1).len()
        == 0);
    let message = JsonView::Text(said);
    assert(m[0].skip(1).len() == 0 && m1[0].skip(1).len() == 0);
    assert(message.pointer(m[0].skip(1)) == Some(message));
    assert(message.pointer(m1[0].skip(1)) == Some(message));
    assert(event.step("msg"@) == event.get("msg"@));
    assert(event.step("message"@) == event.get("message"@));
    assert(event.get("msg"@) is None ==> event.pointer(m[0]) is None);
    assert(event.get("message"@) is None ==> event.pointer(m1[0]) is None);
    if event.get("data"@) is None && event.get("error"@) is None {
        assert(event.step("data"@) is None && event.step("error"@) is None);
        assert(m2[0][0] == "data"@ && m3[0][0] == "data"@ && m4[0][0] == "error"@);
        assert(event.pointer(m2[0]) is None);
        assert(event.pointer(m3[0]) is None);
        assert(event.pointer(m4[0]) is None);
    }
    reveal_with_fuel(deltas::first_at, 6);
}

/// An event tells the session that it names first, and then its pieces in their order; it
/// leaves the message that it names as the one that the next answers.
pub proof fn lemma_event_told(run: RunView, client: ClientView, event: JsonView)
    ensures
        ({
            let now = run.with_event(client, event);
            let pieces = deltas::event_deltas(event, run.last).deltas;
            let named = deltas::first_session_id(event, deltas::session_paths());
            let message = deltas::first_message_id(event, deltas::parent_paths());
            let before = match named {
                Some(_) => run.told.len() + 1,
                None => run.told.len(),
            };
            &&& now.told.len() == before + pieces.len()
            &&& now.told.take(run.told.len() as int) == run.told
            &&& named matches Some(id) ==> now.told[run.told.len() as int]
                == stream::EventView::SessionId(id)
            &&& forall|i: int|
                0 <= i < pieces.len() ==> #[trigger] now.told[before + i] == match pieces[i].0 {
                    DeepSeekDeltaKind::Thinking => stream::EventView::ReasoningDelta(pieces[i].1),
                    DeepSeekDeltaKind::Text => stream::EventView::TextDelta(pieces[i].1),
                }
            &&& message matches Some(id) ==> now.parent == Some(id) && now.sessions
                == client::with_parent(client, run.sessions, id)
            &&& message is None ==> now.parent == run.parent && now.sessions == run.sessions
        }),
{
    let pieces = deltas::event_deltas(event, run.last).deltas;
    let kept = match deltas::first_message_id(event, deltas::parent_paths()) {
        Some(id) => RunView {
            parent: Some(id),
            sessions: client::with_parent(client, run.sessions, id),
            ..run
        },
        None => run,
    };
    let told = match deltas::first_session_id(event, deltas::session_paths()) {
        Some(id) => kept.telling(stream::EventView::SessionId(id)),
        None => kept,
    };
    stream::lemma_pieces_tell_in_order(told, pieces);
    lemma_pieces_keep(told, pieces);
    let now = run.with_event(client, event);
    assert(now.told == told.with_pieces(pieces).told);
    assert(now.told.take(run.told.len() as int) =~= run.told) by {
        assert forall|i: int| 0 <= i < run.told.len() implies now.told[i] == run.told[i] by {
            assert(now.told.take(told.told.len() as int)[i] == told.told[i]);
        }
    }
    if told.told.len() > run.told.len() {
        assert(now.told.take(told.told.len() as int)[run.told.len() as int]
            == told.told[run.told.len() as int]);
    }
}

/// Pieces leave the sessions and the message alone.
proof fn lemma_pieces_keep(run: RunView, pieces: Seq<(DeepSeekDeltaKind, Seq<char>)>)
    ensures
        run.with_pieces(pieces).parent == run.parent,
        run.with_pieces(pieces).sessions == run.sessions,
    decreases pieces.len(),
{
    if pieces.len() > 0 {
        lemma_pieces_keep(run, pieces.take(pieces.len() - 1));
    }
}

} // verus!
