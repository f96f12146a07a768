//! What a completion comes to, read as a whole or piece by piece as it arrives.
use vstd::prelude::*;

use crate::json::{Json, JsonView};
use crate::providers::deepseek_web::client;
use crate::providers::deepseek_web::client::{
    ClientView, DeepSeekSessionState, DeepSeekWebClient, SessionView, Sessions,
};
use crate::providers::deepseek_web::deltas;
use crate::providers::deepseek_web::deltas::DeepSeekDeltaKind;
use crate::table::Table;
use crate::text;
use crate::text::CharClass;
use crate::views;

verus! {

/// Something that a stream tells as it goes on.
pub enum EventView {
    ReasoningDelta(Seq<char>),
    TextDelta(Seq<char>),
    SessionId(Seq<char>),
    Done {
        text: Seq<char>,
        reasoning: Option<Seq<char>>,
        session_id: Seq<char>,
        parent_message_id: Option<JsonView>,
    },
}

/// Something that a stream tells as it goes on.
#[derive(Debug, PartialEq, Eq)]
pub enum DeepSeekStreamEvent {
    /// A piece of what is thought.
    ReasoningDelta(String),
    /// A piece of what is said.
    TextDelta(String),
    /// The id of the session.
    SessionId(String),
    /// The end, with everything that was thought and said.
    Done {
        text: String,
        reasoning: Option<String>,
        session_id: String,
        parent_message_id: Option<Json>,
    },
}

impl View for DeepSeekStreamEvent {
    type V = EventView;

    open spec fn view(&self) -> EventView {
        match *self {
            DeepSeekStreamEvent::ReasoningDelta(s) => EventView::ReasoningDelta(s@),
            DeepSeekStreamEvent::TextDelta(s) => EventView::TextDelta(s@),
            DeepSeekStreamEvent::SessionId(s) => EventView::SessionId(s@),
            DeepSeekStreamEvent::Done { text, reasoning, session_id, parent_message_id } => {
                EventView::Done {
                    text: text@,
                    reasoning: views::of_option(reasoning),
                    session_id: session_id@,
                    parent_message_id: views::of_option(parent_message_id),
                }
            },
        }
    }
}

/// How far a stream has come: what it has said and thought, the kind of the last
/// piece, the message that the next one answers, the sessions, and what was told.
#[verifier::ext_equal]
pub struct RunView {
    pub text: Seq<char>,
    pub reasoning: Seq<char>,
    pub last: Option<DeepSeekDeltaKind>,
    pub parent: Option<JsonView>,
    pub sessions: Sessions,
    pub told: Seq<EventView>,
}

impl RunView {
    /// The run once one more thing was told.
    pub open spec fn telling(self, event: EventView) -> RunView {
        RunView { told: self.told.push(event), ..self }
    }

    /// The run once a piece of output came in.
    pub open spec fn with_piece(self, piece: (DeepSeekDeltaKind, Seq<char>)) -> RunView {
        match piece.0 {
            DeepSeekDeltaKind::Thinking => RunView {
                reasoning: self.reasoning + piece.1,
                told: self.told.push(EventView::ReasoningDelta(piece.1)),
                ..self
            },
            DeepSeekDeltaKind::Text => RunView {
                text: self.text + piece.1,
                told: self.told.push(EventView::TextDelta(piece.1)),
                ..self
            },
        }
    }

    /// The run once these pieces came in.
    pub open spec fn with_pieces(self, pieces: Seq<(DeepSeekDeltaKind, Seq<char>)>) -> RunView
        decreases pieces.len(),
    {
        if pieces.len() == 0 {
            self
        } else {
            self.with_pieces(pieces.take(pieces.len() - 1)).with_piece(pieces[pieces.len() - 1])
        }
    }

    /// The run once an event came in: its message id is kept, its session id is told,
    /// then its pieces come in.
    pub open spec fn with_event(self, client: ClientView, event: JsonView) -> RunView {
        let kept = match deltas::first_message_id(event, deltas::parent_paths()) {
            Some(id) => RunView {
                parent: Some(id),
                sessions: client::with_parent(client, self.sessions, id),
                ..self
            },
            None => self,
        };
        let told = match deltas::first_session_id(event, deltas::session_paths()) {
            Some(id) => kept.telling(EventView::SessionId(id)),
            None => kept,
        };
        let found = deltas::event_deltas(event, self.last);
        RunView { last: found.last, ..told.with_pieces(found.deltas) }
    }

    /// The run once a line came in.
    pub open spec fn with_line(self, client: ClientView, line: Seq<char>) -> RunView {
        match deltas::line_event(line) {
            Some(event) => self.with_event(client, event),
            None => self,
        }
    }
}

/// The run once the whole lines of `buffer` came in, with what is left of it.
pub open spec fn drained(run: RunView, client: ClientView, buffer: Seq<char>) -> (
    RunView,
    Seq<char>,
)
    decreases buffer.len(),
{
    match text::class_from(buffer, CharClass::Only('\n'), 0) {
        None => (run, buffer),
        Some(i) => {
            proof {
                text::lemma_class_from(buffer, CharClass::Only('\n'), 0);
            }
            drained(run.with_line(client, buffer.take(i)), client, buffer.skip(i + 1))
        },
    }
}

/// `s` trimmed, unless nothing is left of it.
pub open spec fn unless_blank(s: Seq<char>) -> Option<Seq<char>> {
    if text::blank(s) {
        None
    } else {
        Some(text::trimmed(s))
    }
}

/// The run at its end: what is left of the buffer comes in as a line, and the end is
/// told.
pub open spec fn finished(
    run: RunView,
    client: ClientView,
    buffer: Seq<char>,
    session_id: Seq<char>,
) -> RunView {
    let last = if text::blank(buffer) {
        run
    } else {
        run.with_line(client, buffer)
    };
    last.telling(
        EventView::Done {
            text: last.text,
            reasoning: unless_blank(last.reasoning),
            session_id,
            parent_message_id: match client::parent_in(client, last.sessions) {
                Some(id) => Some(id),
                None => last.parent,
            },
        },
    )
}

/// A stream does not care how it is cut into chunks: what is left after `a`, with `b`
/// put behind it, comes to the same as `a` and `b` in one.
pub proof fn lemma_drained_in_chunks(run: RunView, client: ClientView, a: Seq<char>, b: Seq<char>)
    ensures
        ({
            let (first, left) = drained(run, client, a);
            drained(run, client, a + b) == drained(first, client, left + b)
        }),
    decreases a.len(),
{
    text::lemma_class_from(a, CharClass::Only('\n'), 0);
    text::lemma_class_from(a + b, CharClass::Only('\n'), 0);
    match text::class_from(a, CharClass::Only('\n'), 0) {
        None => {},
        Some(i) => {
            let whole = text::class_from(a + b, CharClass::Only('\n'), 0);
            assert((a + b)[i] == '\n');
            assert(whole is Some);
            let k = whole->0;
            if k < i {
                assert((a + b)[k] == a[k]);
            }
            assert(k == i);
            assert((a + b).take(i) =~= a.take(i));
            assert((a + b).skip(i + 1) =~= a.skip(i + 1) + b);
            lemma_drained_in_chunks(run.with_line(client, a.take(i)), client, a.skip(i + 1), b);
        },
    }
}

/// Pieces are told in their order, behind what was told before.
pub proof fn lemma_pieces_tell_in_order(run: RunView, pieces: Seq<(DeepSeekDeltaKind, Seq<char>)>)
    ensures
        run.with_pieces(pieces).told.len() == run.told.len() + pieces.len(),
        run.with_pieces(pieces).told.take(run.told.len() as int) == run.told,
        forall|i: int|
            0 <= i < pieces.len() ==> #[trigger] run.with_pieces(pieces).told[run.told.len() + i]
                == match pieces[i].0 {
                DeepSeekDeltaKind::Thinking => EventView::ReasoningDelta(pieces[i].1),
                DeepSeekDeltaKind::Text => EventView::TextDelta(pieces[i].1),
            },
    decreases pieces.len(),
{
    if pieces.len() > 0 {
        let before = pieces.take(pieces.len() - 1);
        lemma_pieces_tell_in_order(run, before);
        let told = run.with_pieces(before).told;
        let now = run.with_pieces(pieces).told;
        assert(now.take(run.told.len() as int) =~= told.take(run.told.len() as int));
        assert forall|i: int| 0 <= i < pieces.len() implies #[trigger] now[run.told.len() + i]
            == match pieces[i].0 {
            DeepSeekDeltaKind::Thinking => EventView::ReasoningDelta(pieces[i].1),
            DeepSeekDeltaKind::Text => EventView::TextDelta(pieces[i].1),
        } by {
            if i < before.len() {
                assert(told[run.told.len() + i] == now[run.told.len() + i]);
                assert(before[i] == pieces[i]);
            }
        }
    } else {
        assert(run.told.take(run.told.len() as int) =~= run.told);
    }
}

/// `String::from_utf8_lossy` of these bytes.
pub uninterp spec fn lossy(bytes: Seq<u8>) -> Seq<char>;

/// `String::from_utf8_lossy`, the text of the bytes with what is no UTF-8 replaced. Bytes
/// that are UTF-8 give the text that they are.
#[verifier::external_body]
fn lossy_text(bytes: &[u8]) -> (r: String)
    ensures
        r@ == lossy(bytes@),
        vstd::utf8::valid_utf8(bytes@) ==> r@ == vstd::utf8::decode_utf8(bytes@),
{
    String::from_utf8_lossy(bytes).into_owned()
}

/// A completion as it streams in.
#[derive(Debug)]
pub struct DeepSeekStream {
    buffer: String,
    text: String,
    reasoning: String,
    last_fragment_kind: Option<DeepSeekDeltaKind>,
    parent_message_id: Option<Json>,
}

impl DeepSeekStream {
    /// What came in after the last whole line.
    pub closed spec fn left(self) -> Seq<char> {
        self.buffer@
    }

    /// How far the stream has come, with these sessions and nothing told yet.
    pub closed spec fn run(self, sessions: Sessions) -> RunView {
        RunView {
            text: self.text@,
            reasoning: self.reasoning@,
            last: self.last_fragment_kind,
            parent: views::of_option(self.parent_message_id),
            sessions,
            told: Seq::empty(),
        }
    }

    /// How far the stream has come, with this told.
    spec fn telling(self, sessions: Sessions, told: Seq<DeepSeekStreamEvent>) -> RunView {
        RunView { told: views::of_list(told), ..self.run(sessions) }
    }

    /// A stream of which nothing came in yet.
    pub fn new(session: &DeepSeekSessionState) -> (r: Self)
        ensures
            r.left() == Seq::<char>::empty(),
            forall|sessions: Sessions| #[trigger]
                r.run(sessions) == (RunView {
                    text: Seq::empty(),
                    reasoning: Seq::empty(),
                    last: None,
                    parent: session@.parent_message_id,
                    sessions,
                    told: Seq::empty(),
                }),
    {
        DeepSeekStream {
            buffer: String::new(),
            text: String::new(),
            reasoning: String::new(),
            last_fragment_kind: None,
            parent_message_id: match &session.parent_message_id {
                Some(id) => Some(id.clone()),
                None => None,
            },
        }
    }

    /// Takes in pieces of output.
    fn take_pieces(
        &mut self,
        found: Vec<(DeepSeekDeltaKind, String)>,
        told: &mut Vec<DeepSeekStreamEvent>,
        Ghost(sessions): Ghost<Sessions>,
    )
        ensures
            final(self).telling(sessions, final(told)@) == old(self).telling(
                sessions,
                old(told)@,
            ).with_pieces(deltas::pieces(found@)),
            final(self).left() == old(self).left(),
    {
        let ghost all = deltas::pieces(found@);
        let ghost start = self.telling(sessions, told@);
        let mut i: usize = 0;
        while i < found.len()
            invariant
                i <= found@.len(),
                all == deltas::pieces(found@),
                self.left() == old(self).left(),
                self.telling(sessions, told@) == start.with_pieces(all.take(i as int)),
            decreases found.len() - i,
        {
            let ghost next = all.take(i + 1);
            let ghost before = told@;
            assert(next.take(i as int) =~= all.take(i as int));
            assert(next[i as int] == (found@[i as int].0, found@[i as int].1@));
            let content = &found[i].1;
            match found[i].0 {
                DeepSeekDeltaKind::Thinking => {
                    self.reasoning.append(content.as_str());
                    told.push(DeepSeekStreamEvent::ReasoningDelta(content.clone()));
                    assert(views::of_list(told@) =~= views::of_list(before).push(
                        EventView::ReasoningDelta(content@),
                    ));
                },
                DeepSeekDeltaKind::Text => {
                    self.text.append(content.as_str());
                    told.push(DeepSeekStreamEvent::TextDelta(content.clone()));
                    assert(views::of_list(told@) =~= views::of_list(before).push(
                        EventView::TextDelta(content@),
                    ));
                },
            }
            i += 1;
        }
        assert(all.take(i as int) =~= all);
    }

    /// Takes in an event.
    fn take_event(
        &mut self,
        client: &DeepSeekWebClient,
        sessions: &mut Table<DeepSeekSessionState>,
        told: &mut Vec<DeepSeekStreamEvent>,
        event: &Json,
    )
        ensures
            final(self).telling(final(sessions)@, final(told)@) == old(self).telling(
                old(sessions)@,
                old(told)@,
            ).with_event(client@, event@),
            final(self).left() == old(self).left(),
    {
        if let Some(id) = deltas::extract_parent_message_id(event) {
            client.update_parent_message_id(sessions, &id);
            self.parent_message_id = Some(id);
        }
        let ghost before = told@;
        if let Some(id) = deltas::find_deepseek_session_id(event) {
            told.push(DeepSeekStreamEvent::SessionId(id));
            assert(views::of_list(told@) =~= views::of_list(before).push(EventView::SessionId(id@)));
        }
        let (found, last) = deltas::extract_deepseek_deltas(event, self.last_fragment_kind);
        let ghost kept = self.telling(sessions@, told@);
        self.take_pieces(found, told, Ghost(sessions@));
        self.last_fragment_kind = last;
        assert(self.telling(sessions@, told@) =~= RunView {
            last,
            ..kept.with_pieces(deltas::pieces(found@))
        });
    }

    /// Takes in a line.
    fn process_deepseek_stream_line(
        &mut self,
        client: &DeepSeekWebClient,
        sessions: &mut Table<DeepSeekSessionState>,
        told: &mut Vec<DeepSeekStreamEvent>,
        line: &str,
    )
        ensures
            final(self).telling(final(sessions)@, final(told)@) == old(self).telling(
                old(sessions)@,
                old(told)@,
            ).with_line(client@, line@),
            final(self).left() == old(self).left(),
    {
        if let Some(event) = deltas::parse_deepseek_sse_line(line) {
            self.take_event(client, sessions, told, &event);
        }
    }

    /// Takes in the whole lines of the buffer.
    fn drain_deepseek_stream_lines(
        &mut self,
        client: &DeepSeekWebClient,
        sessions: &mut Table<DeepSeekSessionState>,
        told: &mut Vec<DeepSeekStreamEvent>,
    )
        ensures
            (final(self).telling(final(sessions)@, final(told)@), final(self).left()) == drained(
                old(self).telling(old(sessions)@, old(told)@),
                client@,
                old(self).left(),
            ),
    {
        let chars = text::chars_of(self.buffer.as_str());
        let mut rest = chars.as_slice();
        let ghost start = self.telling(sessions@, told@);
        let ghost whole = self.left();
        loop
            invariant_except_break
                drained(self.telling(sessions@, told@), client@, rest@) == drained(
                    start,
                    client@,
                    whole,
                ),
            ensures
                (self.telling(sessions@, told@), rest@) == drained(start, client@, whole),
            decreases rest@.len(),
        {
            match text::find_class(rest, CharClass::Only('\n')) {
                Some(i) => {
                    let line = text::string_of(text::before(rest, i));
                    self.process_deepseek_stream_line(client, sessions, told, line.as_str());
                    rest = text::after(rest, i + 1);
                },
                None => {
                    break;
                },
            }
        }
        self.buffer = text::string_of(rest);
    }

    /// Takes in a chunk, and says what it tells.
    pub fn feed(
        &mut self,
        client: &DeepSeekWebClient,
        sessions: &mut Table<DeepSeekSessionState>,
        chunk: &[u8],
    ) -> (r: Vec<DeepSeekStreamEvent>)
        ensures
            (
                RunView { told: views::of_list(r@), ..final(self).run(final(sessions)@) },
                final(self).left(),
            ) == drained(
                old(self).run(old(sessions)@),
                client@,
                old(self).left() + lossy(chunk@),
            ),
            vstd::utf8::valid_utf8(chunk@) ==> lossy(chunk@) == vstd::utf8::decode_utf8(chunk@),
    {
        self.feed_text(client, sessions, lossy_text(chunk).as_str())
    }

    /// Takes in a chunk of text, and says what it tells.
    pub fn feed_text(
        &mut self,
        client: &DeepSeekWebClient,
        sessions: &mut Table<DeepSeekSessionState>,
        chunk: &str,
    ) -> (r: Vec<DeepSeekStreamEvent>)
        ensures
            (
                RunView { told: views::of_list(r@), ..final(self).run(final(sessions)@) },
                final(self).left(),
            ) == drained(old(self).run(old(sessions)@), client@, old(self).left() + chunk@),
    {
        let mut told: Vec<DeepSeekStreamEvent> = Vec::new();
        self.buffer.append(chunk);
        assert(self.telling(sessions@, told@) =~= old(self).run(old(sessions)@));
        self.drain_deepseek_stream_lines(client, sessions, &mut told);
        told
    }

    /// Ends the stream, and says what is still to be told.
    pub fn finish(
        self,
        client: &DeepSeekWebClient,
        sessions: &mut Table<DeepSeekSessionState>,
        session_id: &str,
    ) -> (r: Vec<DeepSeekStreamEvent>)
        ensures
            views::of_list(r@) == finished(
                self.run(old(sessions)@),
                client@,
                self.left(),
                session_id@,
            ).told,
            final(sessions)@ == finished(
                self.run(old(sessions)@),
                client@,
                self.left(),
                session_id@,
            ).sessions,
    {
        let mut run = self;
        let mut told: Vec<DeepSeekStreamEvent> = Vec::new();
        assert(run.telling(sessions@, told@) =~= self.run(old(sessions)@));
        if !text::is_blank(run.buffer.as_str()) {
            let line = run.buffer.clone();
            run.process_deepseek_stream_line(client, sessions, &mut told, line.as_str());
        }
        let ghost last = run.telling(sessions@, told@);
        let parent_message_id = match client.current_parent_message_id(sessions) {
            Some(id) => Some(id),
            None => match &run.parent_message_id {
                Some(id) => Some(id.clone()),
                None => None,
            },
        };
        let reasoning = if text::is_blank(run.reasoning.as_str()) {
            None
        } else {
            Some(text::trim_str(run.reasoning.as_str()))
        };
        let ghost before = told@;
        let done = DeepSeekStreamEvent::Done {
            text: run.text.clone(),
            reasoning,
            session_id: session_id.to_owned(),
            parent_message_id,
        };
        told.push(done);
        assert(views::of_list(told@) =~= views::of_list(before).push(done@));
        told
    }
}

// ---------------------------------------------------------------------------
// A completion as a whole
// ---------------------------------------------------------------------------

/// What a completion came to.
pub struct ResponseView {
    pub text: Seq<char>,
    pub reasoning: Option<Seq<char>>,
    pub session_id: Seq<char>,
    pub parent_message_id: Option<JsonView>,
}

/// What a completion came to.
#[derive(Debug)]
pub struct DeepSeekWebResponse {
    pub text: String,
    pub reasoning: Option<String>,
    pub session_id: String,
    pub parent_message_id: Option<Json>,
}

impl View for DeepSeekWebResponse {
    type V = ResponseView;

    open spec fn view(&self) -> ResponseView {
        ResponseView {
            text: self.text@,
            reasoning: views::of_option(self.reasoning),
            session_id: self.session_id@,
            parent_message_id: views::of_option(self.parent_message_id),
        }
    }
}

/// A run of which nothing came in yet.
pub open spec fn fresh_run(sessions: Sessions) -> RunView {
    RunView {
        text: Seq::empty(),
        reasoning: Seq::empty(),
        last: None,
        parent: None,
        sessions,
        told: Seq::empty(),
    }
}

/// The run once these events came in.
pub open spec fn with_events(run: RunView, client: ClientView, events: Seq<JsonView>) -> RunView
    decreases events.len(),
{
    if events.len() == 0 {
        run
    } else {
        with_events(run, client, events.take(events.len() - 1)).with_event(
            client,
            events[events.len() - 1],
        )
    }
}

/// What the body of a completion comes to. A body without any output is itself what
/// is said.
pub open spec fn whole_response(
    client: ClientView,
    sessions: Sessions,
    session: SessionView,
    body: Seq<char>,
) -> ResponseView {
    let run = with_events(fresh_run(sessions), client, deltas::line_events(text::lines(body)));
    ResponseView {
        text: if text::blank(run.text) && text::blank(run.reasoning) {
            body
        } else {
            run.text
        },
        reasoning: unless_blank(run.reasoning),
        session_id: session.session_id,
        parent_message_id: client::parent_in(client, run.sessions),
    }
}

/// What the body of a completion comes to.
pub fn read_response(
    client: &DeepSeekWebClient,
    sessions: &mut Table<DeepSeekSessionState>,
    session: &DeepSeekSessionState,
    body: &str,
) -> (r: DeepSeekWebResponse)
    ensures
        r@ == whole_response(client@, old(sessions)@, session@, body@),
        final(sessions)@ == with_events(
            fresh_run(old(sessions)@),
            client@,
            deltas::line_events(text::lines(body@)),
        ).sessions,
{
    let events = deltas::parse_deepseek_sse_values(body);
    let ghost all = views::of_list(events@);
    let mut run = DeepSeekStream {
        buffer: String::new(),
        text: String::new(),
        reasoning: String::new(),
        last_fragment_kind: None,
        parent_message_id: None,
    };
    let mut told: Vec<DeepSeekStreamEvent> = Vec::new();
    let ghost start = fresh_run(sessions@);
    assert(run.telling(sessions@, told@) =~= start);
    assert(all.take(0) =~= Seq::empty());
    let mut i: usize = 0;
    while i < events.len()
        invariant
            i <= events@.len(),
            all == views::of_list(events@),
            run.telling(sessions@, told@) == with_events(start, client@, all.take(i as int)),
        decreases events.len() - i,
    {
        let ghost next = all.take(i + 1);
        assert(next.take(i as int) =~= all.take(i as int));
        assert(next[i as int] == events@[i as int]@);
        run.take_event(client, sessions, &mut told, &events[i]);
        i += 1;
    }
    assert(all.take(i as int) =~= all);
    let silent = text::is_blank(run.text.as_str()) && text::is_blank(run.reasoning.as_str());
    let reasoning = if text::is_blank(run.reasoning.as_str()) {
        None
    } else {
        Some(text::trim_str(run.reasoning.as_str()))
    };
    DeepSeekWebResponse {
        text: if silent {
            body.to_owned()
        } else {
            run.text
        },
        reasoning,
        session_id: session.session_id.clone(),
        parent_message_id: client.current_parent_message_id(sessions),
    }
}

// ---------------------------------------------------------------------------
// What holds of every completion
// ---------------------------------------------------------------------------

/// What was said in these events, piece by piece.
pub open spec fn said_in(told: Seq<EventView>) -> Seq<char>
    decreases told.len(),
{
    if told.len() == 0 {
        Seq::empty()
    } else {
        said_in(told.take(told.len() - 1)) + match told[told.len() - 1] {
            EventView::TextDelta(s) => s,
            _ => Seq::empty(),
        }
    }
}

/// What was thought in these events, piece by piece.
pub open spec fn thought_in(told: Seq<EventView>) -> Seq<char>
    decreases told.len(),
{
    if told.len() == 0 {
        Seq::empty()
    } else {
        thought_in(told.take(told.len() - 1)) + match told[told.len() - 1] {
            EventView::ReasoningDelta(s) => s,
            _ => Seq::empty(),
        }
    }
}

impl RunView {
    /// Whether everything that was said and thought was told.
    pub open spec fn told_all(self) -> bool {
        self.text == said_in(self.told) && self.reasoning == thought_in(self.told)
    }

    /// The run, had this been told before.
    pub open spec fn after_telling(self, told: Seq<EventView>) -> RunView {
        RunView { told: told + self.told, ..self }
    }
}

proof fn lemma_telling(run: RunView, event: EventView)
    ensures
        run.telling(event).told.take(run.told.len() as int) == run.told,
        said_in(run.telling(event).told) == said_in(run.told) + match event {
            EventView::TextDelta(s) => s,
            _ => Seq::empty(),
        },
        thought_in(run.telling(event).told) == thought_in(run.told) + match event {
            EventView::ReasoningDelta(s) => s,
            _ => Seq::empty(),
        },
{
    assert(run.telling(event).told.take(run.told.len() as int) =~= run.told);
}

proof fn lemma_pieces_told(run: RunView, pieces: Seq<(DeepSeekDeltaKind, Seq<char>)>)
    requires
        run.told_all(),
    ensures
        run.with_pieces(pieces).told_all(),
    decreases pieces.len(),
{
    if pieces.len() > 0 {
        let before = run.with_pieces(pieces.take(pieces.len() - 1));
        lemma_pieces_told(run, pieces.take(pieces.len() - 1));
        let piece = pieces[pieces.len() - 1];
        let event = match piece.0 {
            DeepSeekDeltaKind::Thinking => EventView::ReasoningDelta(piece.1),
            DeepSeekDeltaKind::Text => EventView::TextDelta(piece.1),
        };
        lemma_telling(before, event);
        let now = before.with_piece(piece);
        assert(now.told == before.telling(event).told);
        assert(said_in(now.told) =~= now.text);
        assert(thought_in(now.told) =~= now.reasoning);
    }
}

proof fn lemma_line_told(run: RunView, client: ClientView, line: Seq<char>)
    requires
        run.told_all(),
    ensures
        run.with_line(client, line).told_all(),
{
    if let Some(event) = deltas::line_event(line) {
        let kept = match deltas::first_message_id(event, deltas::parent_paths()) {
            Some(id) => RunView {
                parent: Some(id),
                sessions: client::with_parent(client, run.sessions, id),
                ..run
            },
            None => run,
        };
        let told = match deltas::first_session_id(event, deltas::session_paths()) {
            Some(id) => {
                lemma_telling(kept, EventView::SessionId(id));
                kept.telling(EventView::SessionId(id))
            },
            None => kept,
        };
        assert(said_in(told.told) =~= told.text);
        assert(thought_in(told.told) =~= told.reasoning);
        lemma_pieces_told(told, deltas::event_deltas(event, run.last).deltas);
    }
}

/// Nothing is said or thought that is not told: at every point of a stream the pieces
/// that were told are what was said and thought, one after the other.
pub proof fn lemma_stream_tells_all(run: RunView, client: ClientView, buffer: Seq<char>)
    requires
        run.told_all(),
    ensures
        drained(run, client, buffer).0.told_all(),
    decreases buffer.len(),
{
    text::lemma_class_from(buffer, CharClass::Only('\n'), 0);
    if let Some(i) = text::class_from(buffer, CharClass::Only('\n'), 0) {
        lemma_line_told(run, client, buffer.take(i));
        lemma_stream_tells_all(
            run.with_line(client, buffer.take(i)),
            client,
            buffer.skip(i + 1),
        );
    }
}

/// The end of a stream tells the text that its pieces were, and nothing is told after it.
pub proof fn lemma_end_tells_all(
    run: RunView,
    client: ClientView,
    buffer: Seq<char>,
    session: Seq<char>,
)
    requires
        run.told_all(),
    ensures
        ({
            let told = finished(run, client, buffer, session).told;
            let pieces = told.take(told.len() - 1);
            &&& told.len() > 0
            &&& told[told.len() - 1] matches EventView::Done {
                text,
                reasoning,
                session_id,
                parent_message_id,
            } && text == said_in(pieces) && reasoning == unless_blank(thought_in(pieces))
                && session_id == session
        }),
{
    if !text::blank(buffer) {
        lemma_line_told(run, client, buffer);
    }
    let last = if text::blank(buffer) {
        run
    } else {
        run.with_line(client, buffer)
    };
    let told = finished(run, client, buffer, session).told;
    assert(told.take(told.len() - 1) =~= last.told);
}

proof fn lemma_pieces_after_telling(
    run: RunView,
    told: Seq<EventView>,
    pieces: Seq<(DeepSeekDeltaKind, Seq<char>)>,
)
    ensures
        run.after_telling(told).with_pieces(pieces) == run.with_pieces(pieces).after_telling(told),
    decreases pieces.len(),
{
    if pieces.len() > 0 {
        lemma_pieces_after_telling(run, told, pieces.take(pieces.len() - 1));
        assert(run.after_telling(told).with_pieces(pieces) =~= run.with_pieces(
            pieces,
        ).after_telling(told));
    }
}

proof fn lemma_line_after_telling(
    run: RunView,
    told: Seq<EventView>,
    client: ClientView,
    line: Seq<char>,
)
    ensures
        run.after_telling(told).with_line(client, line) == run.with_line(
            client,
            line,
        ).after_telling(told),
{
    if let Some(event) = deltas::line_event(line) {
        let kept = match deltas::first_message_id(event, deltas::parent_paths()) {
            Some(id) => RunView {
                parent: Some(id),
                sessions: client::with_parent(client, run.sessions, id),
                ..run
            },
            None => run,
        };
        let said = match deltas::first_session_id(event, deltas::session_paths()) {
            Some(id) => {
                assert(kept.after_telling(told).telling(EventView::SessionId(id))
                    =~= kept.telling(EventView::SessionId(id)).after_telling(told));
                kept.telling(EventView::SessionId(id))
            },
            None => kept,
        };
        lemma_pieces_after_telling(said, told, deltas::event_deltas(event, run.last).deltas);
    }
}

/// What was told before changes nothing of what is told from then on: the events of the
/// chunks, one after the other, are those of the stream.
pub proof fn lemma_drained_after_telling(
    run: RunView,
    told: Seq<EventView>,
    client: ClientView,
    buffer: Seq<char>,
)
    ensures
        drained(run.after_telling(told), client, buffer) == (
            drained(run, client, buffer).0.after_telling(told),
            drained(run, client, buffer).1,
        ),
    decreases buffer.len(),
{
    text::lemma_class_from(buffer, CharClass::Only('\n'), 0);
    if let Some(i) = text::class_from(buffer, CharClass::Only('\n'), 0) {
        let line = buffer.take(i);
        lemma_line_after_telling(run, told, client, line);
        lemma_drained_after_telling(
            run.with_line(client, line),
            told,
            client,
            buffer.skip(i + 1),
        );
    }
}

/// The run once these lines came in.
pub open spec fn with_lines(run: RunView, client: ClientView, lines: Seq<Seq<char>>) -> RunView
    decreases lines.len(),
{
    if lines.len() == 0 {
        run
    } else {
        with_lines(run, client, lines.take(lines.len() - 1)).with_line(
            client,
            lines[lines.len() - 1],
        )
    }
}

proof fn lemma_first_line(run: RunView, client: ClientView, line: Seq<char>, rest: Seq<Seq<char>>)
    ensures
        with_lines(run, client, seq![line] + rest) == with_lines(
            run.with_line(client, line),
            client,
            rest,
        ),
    decreases rest.len(),
{
    let all = seq![line] + rest;
    if rest.len() == 0 {
        assert(all.take(0) =~= Seq::empty());
        assert(all[0] == line);
        assert(with_lines(run, client, all.take(0)) == run);
    } else {
        lemma_first_line(run, client, line, rest.take(rest.len() - 1));
        assert(all.take(all.len() - 1) =~= seq![line] + rest.take(rest.len() - 1));
        assert(all[all.len() - 1] == rest[rest.len() - 1]);
    }
}

proof fn lemma_line_without_return(line: Seq<char>)
    ensures
        deltas::line_event(text::without_return(line)) == deltas::line_event(line),
{
    if line.len() > 0 && line[line.len() - 1] == '\r' {
        text::lemma_trimmed_without_last(line);
    }
}

proof fn lemma_events_are_lines(run: RunView, client: ClientView, lines: Seq<Seq<char>>)
    ensures
        with_events(run, client, deltas::line_events(lines)) == with_lines(run, client, lines),
    decreases lines.len(),
{
    if lines.len() > 0 {
        let before = lines.take(lines.len() - 1);
        lemma_events_are_lines(run, client, before);
        let events = deltas::line_events(lines);
        match deltas::line_event(lines[lines.len() - 1]) {
            Some(event) => {
                assert(events.take(events.len() - 1) =~= deltas::line_events(before));
                assert(events[events.len() - 1] == event);
            },
            None => {
                assert(events =~= deltas::line_events(before));
            },
        }
    }
}

proof fn lemma_drained_is_lines(run: RunView, client: ClientView, buffer: Seq<char>)
    ensures
        ({
            let (end, left) = drained(run, client, buffer);
            end.with_line(client, left) == with_lines(run, client, text::lines(buffer))
        }),
    decreases buffer.len(),
{
    text::lemma_class_from(buffer, CharClass::Only('\n'), 0);
    match text::class_from(buffer, CharClass::Only('\n'), 0) {
        None => {
            if buffer.len() == 0 {
                assert(text::trimmed(buffer).len() == 0);
            } else {
                let one = seq![buffer];
                assert(text::lines(buffer) =~= one);
                assert(one.take(0) =~= Seq::empty());
                assert(with_lines(run, client, one.take(0)) == run);
            }
        },
        Some(i) => {
            let line = buffer.take(i);
            let rest = buffer.skip(i + 1);
            lemma_line_without_return(line);
            lemma_first_line(run, client, text::without_return(line), text::lines(rest));
            lemma_drained_is_lines(run.with_line(client, line), client, rest);
        },
    }
}

/// A completion comes to the same read as a whole or as a stream, however that is cut
/// into chunks: the same is said and thought, and the sessions end up the same.
pub proof fn lemma_whole_is_stream(
    client: ClientView,
    sessions: Sessions,
    session: SessionView,
    body: Seq<char>,
)
    ensures
        ({
            let whole = with_events(
                fresh_run(sessions),
                client,
                deltas::line_events(text::lines(body)),
            );
            let (run, left) = drained(fresh_run(sessions), client, body);
            let end = finished(run, client, left, session.session_id);
            &&& end.text == whole.text
            &&& end.reasoning == whole.reasoning
            &&& end.sessions == whole.sessions
            &&& !text::blank(whole.text) || !text::blank(whole.reasoning) ==> {
                let response = whole_response(client, sessions, session, body);
                &&& end.told[end.told.len() - 1] matches EventView::Done {
                    text,
                    reasoning,
                    session_id,
                    parent_message_id,
                } && text == response.text && reasoning == response.reasoning && session_id
                    == response.session_id
            }
        }),
{
    let (run, left) = drained(fresh_run(sessions), client, body);
    lemma_events_are_lines(fresh_run(sessions), client, text::lines(body));
    lemma_drained_is_lines(fresh_run(sessions), client, body);
    if text::blank(left) {
        assert(run.with_line(client, left) == run);
    }
}

} // verus!
