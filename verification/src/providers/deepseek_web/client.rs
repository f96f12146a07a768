//! A client of DeepSeek's web chat, without the network: its sessions, what it sends
//! and what it makes of the replies.
use vstd::prelude::*;

use crate::error::{AdapterError, ErrorView};
use crate::ids;
use crate::json;
use crate::json::{Json, JsonView, Members};
use crate::providers::deepseek_web::deltas;
use crate::providers::deepseek_web::deltas::DeepSeekDeltaKind;
use crate::table::Table;
use crate::text;
use crate::text::CharClass;
use crate::views;

verus! {

/// Where the web chat is.
pub const DEFAULT_BASE_URL: &'static str = "https://chat.deepseek.com";

/// The browser that the client says it is unless it is told otherwise.
pub const DEFAULT_USER_AGENT: &'static str = "Mozilla/5.0 (Windows NT 10.0; Win64; x64) AppleWebKit/537.36 (KHTML, like Gecko) Chrome/120.0.0.0 Safari/537.36";

/// The version of the web application that the client says it is.
pub const CURRENT_APP_VERSION: &'static str = "2.0.0";

// ---------------------------------------------------------------------------
// Texts that must not grow too long or show too much
// ---------------------------------------------------------------------------

/// What stands for the part of a prompt that was left out.
pub const TRUNCATION_MARKER: &'static str = "\n\n[truncated middle for deepseek web request budget]\n\n";

/// How many characters from the front of `s` fit in `budget` bytes.
pub open spec fn front_fit(s: Seq<char>, budget: int) -> int
    decreases s.len(),
{
    if s.len() == 0 || text::width(s[0]) > budget {
        0
    } else {
        1 + front_fit(s.skip(1), budget - text::width(s[0]))
    }
}

/// How many characters from the back of `s` fit in `budget` bytes.
pub open spec fn back_fit(s: Seq<char>, budget: int) -> int
    decreases s.len(),
{
    if s.len() == 0 || text::width(s[s.len() - 1]) > budget {
        0
    } else {
        1 + back_fit(s.take(s.len() - 1), budget - text::width(s[s.len() - 1]))
    }
}

/// `a` without `b`, but not below zero.
pub open spec fn less(a: int, b: int) -> int {
    if a >= b {
        a - b
    } else {
        0
    }
}

/// `s` trimmed, and with its middle left out if it takes more than `max_bytes`.
pub open spec fn middle_truncated(s: Seq<char>, max_bytes: int) -> Seq<char> {
    let t = text::trimmed(s);
    if text::byte_len(t) <= max_bytes {
        t
    } else {
        let budget = less(max_bytes, text::byte_len(TRUNCATION_MARKER@) as int);
        let head = budget / 2;
        t.take(front_fit(t, head)) + TRUNCATION_MARKER@ + t.skip(
            t.len() - back_fit(t, budget - head),
        )
    }
}

/// The characters that fit from the front fit, and one more would not.
pub proof fn lemma_front_fit(s: Seq<char>, budget: int)
    requires
        budget >= 0,
    ensures
        0 <= front_fit(s, budget) <= s.len(),
        text::byte_len(s.take(front_fit(s, budget))) <= budget,
        front_fit(s, budget) < s.len() ==> text::byte_len(s.take(front_fit(s, budget) + 1))
            > budget,
    decreases s.len(),
{
    reveal_with_fuel(vstd::utf8::encode_utf8, 2);
    if s.len() > 0 {
        text::lemma_byte_len_one(s[0]);
        if text::width(s[0]) > budget {
            assert(s.take(0) =~= Seq::empty());
            assert(s.take(1) =~= seq![s[0]]);
        } else {
            let rest = s.skip(1);
            let k = front_fit(rest, budget - text::width(s[0]));
            lemma_front_fit(rest, budget - text::width(s[0]));
            assert(s.take(k + 1) =~= seq![s[0]] + rest.take(k));
            text::lemma_byte_len_concat(seq![s[0]], rest.take(k));
            if k < rest.len() {
                assert(s.take(k + 2) =~= seq![s[0]] + rest.take(k + 1));
                text::lemma_byte_len_concat(seq![s[0]], rest.take(k + 1));
            }
        }
    } else {
        assert(s.take(0) =~= Seq::empty());
    }
}

/// The characters that fit from the back fit, and one more would not.
pub proof fn lemma_back_fit(s: Seq<char>, budget: int)
    requires
        budget >= 0,
    ensures
        0 <= back_fit(s, budget) <= s.len(),
        text::byte_len(s.skip(s.len() - back_fit(s, budget))) <= budget,
        back_fit(s, budget) < s.len() ==> text::byte_len(s.skip(s.len() - back_fit(s, budget) - 1))
            > budget,
    decreases s.len(),
{
    reveal_with_fuel(vstd::utf8::encode_utf8, 2);
    if s.len() > 0 {
        let c = s[s.len() - 1];
        text::lemma_byte_len_one(c);
        if text::width(c) > budget {
            assert(s.skip(s.len() as int) =~= Seq::empty());
            assert(s.skip(s.len() - 1) =~= seq![c]);
        } else {
            let rest = s.take(s.len() - 1);
            let k = back_fit(rest, budget - text::width(c));
            lemma_back_fit(rest, budget - text::width(c));
            assert(s.skip(s.len() - (k + 1)) =~= rest.skip(rest.len() - k) + seq![c]);
            text::lemma_byte_len_concat(rest.skip(rest.len() - k), seq![c]);
            if k < rest.len() {
                assert(s.skip(s.len() - (k + 1) - 1) =~= rest.skip(rest.len() - k - 1) + seq![c]);
                text::lemma_byte_len_concat(rest.skip(rest.len() - k - 1), seq![c]);
            }
        }
    } else {
        assert(s.skip(0) =~= Seq::empty());
    }
}

/// A truncated text takes no more than `max_bytes`, if those hold the marker at
/// all. It keeps the text if that fits, and else begins as the text does and ends
/// as the text does.
pub proof fn lemma_middle_truncated(s: Seq<char>, max_bytes: int)
    requires
        max_bytes >= text::byte_len(TRUNCATION_MARKER@),
    ensures
        text::byte_len(middle_truncated(s, max_bytes)) <= max_bytes,
        text::byte_len(text::trimmed(s)) <= max_bytes ==> middle_truncated(s, max_bytes)
            == text::trimmed(s),
        text::byte_len(text::trimmed(s)) > max_bytes ==> exists|i: int, j: int|
            0 <= i <= text::trimmed(s).len() && 0 <= j <= text::trimmed(s).len() && middle_truncated(
                s,
                max_bytes,
            ) == #[trigger] text::trimmed(s).take(i) + TRUNCATION_MARKER@
                + #[trigger] text::trimmed(s).skip(j),
{
    let t = text::trimmed(s);
    if text::byte_len(t) > max_bytes {
        let budget = less(max_bytes, text::byte_len(TRUNCATION_MARKER@) as int);
        let head = budget / 2;
        lemma_front_fit(t, head);
        lemma_back_fit(t, budget - head);
        let front = t.take(front_fit(t, head));
        let back = t.skip(t.len() - back_fit(t, budget - head));
        text::lemma_byte_len_concat(front, TRUNCATION_MARKER@);
        text::lemma_byte_len_concat(front + TRUNCATION_MARKER@, back);
    }
}

/// `content` trimmed, and with its middle left out if it takes more than `max_bytes`.
pub fn truncate_middle_to_bytes(content: &str, max_bytes: usize) -> (r: String)
    ensures
        r@ == middle_truncated(content@, max_bytes as int),
{
    let chars = text::chars_of(content);
    let trimmed = text::trim(chars.as_slice());
    let whole = text::string_of(trimmed);
    let whole_len: usize = whole.as_str().as_bytes().len();
    if whole_len <= max_bytes {
        return whole;
    }
    let marker_len: usize = TRUNCATION_MARKER.as_bytes().len();
    let budget: usize = if max_bytes >= marker_len {
        max_bytes - marker_len
    } else {
        0
    };
    let head_budget: usize = budget / 2;
    let tail_budget: usize = budget - head_budget;

    let mut head_end: usize = 0;
    let mut left: usize = head_budget;
    assert(trimmed@.skip(0) =~= trimmed@);
    while head_end < trimmed.len() && text::width_of(trimmed[head_end]) <= left
        invariant
            head_end <= trimmed@.len(),
            front_fit(trimmed@, head_budget as int) == head_end + front_fit(
                trimmed@.skip(head_end as int),
                left as int,
            ),
        decreases trimmed.len() - head_end,
    {
        assert(trimmed@.skip(head_end as int).skip(1) =~= trimmed@.skip(head_end + 1));
        left -= text::width_of(trimmed[head_end]);
        head_end += 1;
    }

    let mut tail_start: usize = trimmed.len();
    let mut left: usize = tail_budget;
    assert(trimmed@.take(tail_start as int) =~= trimmed@);
    while tail_start > 0 && text::width_of(trimmed[tail_start - 1]) <= left
        invariant
            tail_start <= trimmed@.len(),
            back_fit(trimmed@, tail_budget as int) == trimmed@.len() - tail_start + back_fit(
                trimmed@.take(tail_start as int),
                left as int,
            ),
        decreases tail_start,
    {
        assert(trimmed@.take(tail_start as int).take(tail_start - 1) =~= trimmed@.take(
            tail_start - 1,
        ));
        left -= text::width_of(trimmed[tail_start - 1]);
        tail_start -= 1;
    }

    let mut output = text::string_of(text::before(trimmed, head_end));
    output.append(TRUNCATION_MARKER);
    output.append(text::string_of(text::after(trimmed, tail_start)).as_str());
    output
}

/// `s` trimmed, and cut off after `max_chars` characters.
pub open spec fn cut_off(s: Seq<char>, max_chars: int) -> Seq<char> {
    let t = text::trimmed(s);
    if t.len() <= max_chars {
        t
    } else {
        t.take(max_chars) + "..."@
    }
}

/// `text` trimmed, and cut off after `max_chars` characters.
pub fn truncate_for_error(text: &str, max_chars: usize) -> (r: String)
    ensures
        r@ == cut_off(text@, max_chars as int),
{
    let chars = text::chars_of(text);
    let trimmed = text::trim(chars.as_slice());
    if trimmed.len() <= max_chars {
        return text::string_of(trimmed);
    }
    let mut out = text::string_of(text::before(trimmed, max_chars));
    out.append("...");
    out
}

/// What may be shown of a secret: its first four characters.
pub open spec fn redacted(secret: Seq<char>) -> Seq<char> {
    let t = text::trimmed(secret);
    if t.len() == 0 {
        "<empty>"@
    } else if t.len() <= 4 {
        t + "...[redacted]"@
    } else {
        t.take(4) + "...[redacted]"@
    }
}

/// What may be shown of a secret.
pub fn redact_secret(secret: &str) -> (r: String)
    ensures
        r@ == redacted(secret@),
{
    let chars = text::chars_of(secret);
    let trimmed = text::trim(chars.as_slice());
    if trimmed.len() == 0 {
        return "<empty>".to_owned();
    }
    let shown = if trimmed.len() <= 4 {
        trimmed
    } else {
        text::before(trimmed, 4)
    };
    let mut out = text::string_of(shown);
    out.append("...[redacted]");
    out
}

/// Two secrets that are long enough and begin alike are shown alike: nothing after
/// the fourth character can be told from what is shown.
pub proof fn lemma_redacted_hides(a: Seq<char>, b: Seq<char>)
    requires
        text::trimmed(a).len() >= 4,
        text::trimmed(b).len() >= 4,
        text::trimmed(a).take(4) == text::trimmed(b).take(4),
    ensures
        redacted(a) == redacted(b),
{
    if text::trimmed(a).len() == 4 {
        assert(text::trimmed(a).take(4) =~= text::trimmed(a));
    }
    if text::trimmed(b).len() == 4 {
        assert(text::trimmed(b).take(4) =~= text::trimmed(b));
    }
}

// ---------------------------------------------------------------------------
// The client
// ---------------------------------------------------------------------------

/// What a saved session says.
pub struct OptionsView {
    pub cookie: Seq<char>,
    pub bearer: Option<Seq<char>>,
    pub user_agent: Option<Seq<char>>,
    pub last_session_id: Option<Seq<char>>,
    pub last_parent_message_id: Option<JsonView>,
}

/// What a saved session says.
#[derive(Debug)]
pub struct DeepSeekWebOptions {
    pub cookie: String,
    pub bearer: Option<String>,
    pub user_agent: Option<String>,
    pub last_session_id: Option<String>,
    pub last_parent_message_id: Option<Json>,
}

impl View for DeepSeekWebOptions {
    type V = OptionsView;

    open spec fn view(&self) -> OptionsView {
        OptionsView {
            cookie: self.cookie@,
            bearer: views::of_option(self.bearer),
            user_agent: views::of_option(self.user_agent),
            last_session_id: views::of_option(self.last_session_id),
            last_parent_message_id: views::of_option(self.last_parent_message_id),
        }
    }
}

/// Whether a member that may be missing is a text, or is missing or null.
pub open spec fn text_or_missing(member: Option<JsonView>) -> bool {
    member matches Some(value) ==> value is Text || value is Null
}

/// The text of a member that may be missing or null.
pub open spec fn text_of(member: Option<JsonView>) -> Option<Seq<char>> {
    match member {
        Some(value) => value.as_text(),
        None => None,
    }
}

/// A member that may be missing or null.
pub open spec fn unless_null(member: Option<JsonView>) -> Option<JsonView> {
    match member {
        Some(JsonView::Null) => None,
        other => other,
    }
}

/// The options that these members give: a cookie, and other texts where they are
/// there.
pub open spec fn options_from(
    cookie: Option<JsonView>,
    bearer: Option<JsonView>,
    user_agent: Option<JsonView>,
    session_id: Option<JsonView>,
    parent_id: Option<JsonView>,
) -> Option<OptionsView> {
    match cookie {
        Some(JsonView::Text(cookie)) if text_or_missing(bearer) && text_or_missing(user_agent)
            && text_or_missing(session_id) => Some(
            OptionsView {
                cookie,
                bearer: text_of(bearer),
                user_agent: text_of(user_agent),
                last_session_id: text_of(session_id),
                last_parent_message_id: unless_null(parent_id),
            },
        ),
        _ => None,
    }
}

/// The options that a JSON value gives: an object with the members, or a list of all
/// five of them.
pub open spec fn options_in(value: JsonView) -> Option<OptionsView> {
    match value {
        JsonView::Object(_) => options_from(
            value.get("cookie"@),
            value.get("bearer"@),
            value.get("user_agent"@),
            value.get("last_session_id"@),
            value.get("last_parent_message_id"@),
        ),
        JsonView::Array(items) => if items.len() == 5 {
            options_from(
                Some(items[0]),
                Some(items[1]),
                Some(items[2]),
                Some(items[3]),
                Some(items[4]),
            )
        } else {
            None
        },
        _ => None,
    }
}

/// The options that a saved session gives: those of the value that it was read as, if it
/// was read and the value gives options, or else the text as a cookie.
pub open spec fn saved_options(raw: Seq<char>, read: Option<JsonView>) -> OptionsView {
    let given = match read {
        Some(value) => options_in(value),
        None => None,
    };
    match given {
        Some(options) => options,
        None => OptionsView {
            cookie: raw,
            bearer: None,
            user_agent: None,
            last_session_id: None,
            last_parent_message_id: None,
        },
    }
}

/// A copy of a text that may be missing.
fn copied_text(s: Option<&str>) -> (r: Option<String>)
    ensures
        views::of_option(r) == views::of_option(s),
{
    match s {
        Some(s) => Some(s.to_owned()),
        None => None,
    }
}

/// A copy of a value that may be missing.
fn copied_value(value: &Option<Json>) -> (r: Option<Json>)
    ensures
        views::of_option(r) == views::of_option(*value),
{
    match value {
        Some(value) => Some(value.clone()),
        None => None,
    }
}

/// Whether a member is a text, or is missing or null.
fn is_text_or_missing(member: Option<&Json>) -> (r: bool)
    ensures
        r == text_or_missing(views::of_option(member)),
{
    match member {
        Some(Json::Text(_)) => true,
        Some(Json::Null) => true,
        Some(_) => false,
        None => true,
    }
}

/// The text of a member that may be missing or null.
fn member_text(member: Option<&Json>) -> (r: Option<String>)
    ensures
        views::of_option(r) == text_of(views::of_option(member)),
{
    match member {
        Some(value) => copied_text(value.as_str()),
        None => None,
    }
}

impl DeepSeekWebOptions {
    /// The options that these members give.
    fn from_members(
        cookie: Option<&Json>,
        bearer: Option<&Json>,
        user_agent: Option<&Json>,
        session_id: Option<&Json>,
        parent_id: Option<&Json>,
    ) -> (r: Option<Self>)
        ensures
            views::of_option(r) == options_from(
                views::of_option(cookie),
                views::of_option(bearer),
                views::of_option(user_agent),
                views::of_option(session_id),
                views::of_option(parent_id),
            ),
    {
        let cookie = match cookie {
            Some(Json::Text(cookie)) => cookie.clone(),
            _ => {
                return None;
            },
        };
        if !is_text_or_missing(bearer) || !is_text_or_missing(user_agent) || !is_text_or_missing(
            session_id,
        ) {
            return None;
        }
        let last_parent_message_id = match parent_id {
            Some(Json::Null) => None,
            Some(value) => Some(value.clone()),
            None => None,
        };
        Some(
            DeepSeekWebOptions {
                cookie,
                bearer: member_text(bearer),
                user_agent: member_text(user_agent),
                last_session_id: member_text(session_id),
                last_parent_message_id,
            },
        )
    }

    /// The options that a JSON value gives.
    pub fn from_value(value: &Json) -> (r: Option<Self>)
        ensures
            views::of_option(r) == options_in(value@),
    {
        match value {
            Json::Object(_) => Self::from_members(
                value.get("cookie"),
                value.get("bearer"),
                value.get("user_agent"),
                value.get("last_session_id"),
                value.get("last_parent_message_id"),
            ),
            Json::Array(items) => if items.len() == 5 {
                Self::from_members(
                    Some(&items[0]),
                    Some(&items[1]),
                    Some(&items[2]),
                    Some(&items[3]),
                    Some(&items[4]),
                )
            } else {
                None
            },
            _ => None,
        }
    }

    /// The options that a saved session gives, which was read as this value if it is one
    /// that was saved with its options.
    pub fn from_raw(raw: &str, read: Option<&Json>) -> (r: Self)
        ensures
            r@ == saved_options(raw@, views::of_option(read)),
    {
        let given = match read {
            Some(value) => Self::from_value(value),
            None => None,
        };
        match given {
            Some(options) => options,
            None => DeepSeekWebOptions {
                cookie: raw.to_owned(),
                bearer: None,
                user_agent: None,
                last_session_id: None,
                last_parent_message_id: None,
            },
        }
    }
}

/// A client.
pub struct ClientView {
    pub cookie: Seq<char>,
    pub bearer: Option<Seq<char>>,
    pub user_agent: Seq<char>,
    pub session_key_override: Option<Seq<char>>,
    pub parent_message_id_override: Option<JsonView>,
    pub runtime_session_key: Seq<char>,
}

impl ClientView {
    /// The key under which the client's session is kept.
    pub open spec fn session_key(self) -> Seq<char> {
        match self.session_key_override {
            Some(id) => id,
            None => self.runtime_session_key,
        }
    }
}

/// A bearer that is a JSON object with a text as its `value` stands for that text.
pub open spec fn unwrapped_bearer(bearer: Seq<char>) -> Seq<char> {
    if bearer.len() > 0 && bearer[0] == '{' {
        match json::parsed(bearer) {
            Some(JsonView::Object(members)) => match json::lookup(members, "value"@) {
                Some(JsonView::Text(value)) => value,
                _ => bearer,
            },
            _ => bearer,
        }
    } else {
        bearer
    }
}

/// The client for a saved session that was read as this value, with `unique` as what
/// tells it from other clients.
pub open spec fn client_for(
    raw: Seq<char>,
    read: Option<JsonView>,
    unique: Seq<char>,
) -> ClientView {
    let options = saved_options(raw, read);
    ClientView {
        cookie: options.cookie,
        bearer: match options.bearer {
            Some(bearer) => Some(unwrapped_bearer(bearer)),
            None => None,
        },
        user_agent: match options.user_agent {
            Some(agent) => agent,
            None => DEFAULT_USER_AGENT@,
        },
        session_key_override: match options.last_session_id {
            Some(id) if !text::blank(id) => Some(id),
            _ => None,
        },
        parent_message_id_override: options.last_parent_message_id,
        runtime_session_key: "new-"@ + unique,
    }
}

/// A client of the web chat.
pub struct DeepSeekWebClient {
    cookie: String,
    bearer: Option<String>,
    user_agent: String,
    session_key_override: Option<String>,
    parent_message_id_override: Option<Json>,
    runtime_session_key: String,
}

impl View for DeepSeekWebClient {
    type V = ClientView;

    closed spec fn view(&self) -> ClientView {
        ClientView {
            cookie: self.cookie@,
            bearer: views::of_option(self.bearer),
            user_agent: self.user_agent@,
            session_key_override: views::of_option(self.session_key_override),
            parent_message_id_override: views::of_option(self.parent_message_id_override),
            runtime_session_key: self.runtime_session_key@,
        }
    }
}

/// What may be shown of a client.
#[derive(Debug)]
pub struct RedactedClient {
    pub cookie: String,
    pub bearer: Option<String>,
    pub user_agent: String,
    pub session_key_override: Option<String>,
    pub parent_message_id_override: Option<Json>,
    pub runtime_session_key: String,
}

/// A header of a request, with what an error calls it.
#[derive(Debug)]
pub struct HeaderLine {
    pub name: &'static str,
    pub value: String,
    pub label: &'static str,
}

impl HeaderLine {
    /// The header as name, value and label.
    pub open spec fn parts(self) -> (Seq<char>, Seq<char>, Seq<char>) {
        (self.name@, self.value@, self.label@)
    }
}

/// The headers as names, values and labels.
pub open spec fn header_parts(lines: Seq<HeaderLine>) -> Seq<(Seq<char>, Seq<char>, Seq<char>)> {
    lines.map_values(|line: HeaderLine| line.parts())
}

/// The headers of every request that a client makes.
pub open spec fn client_headers(client: ClientView) -> Seq<(Seq<char>, Seq<char>, Seq<char>)> {
    let always = seq![
        ("user-agent"@, client.user_agent, "user-agent"@),
        ("accept"@, "*/*"@, "accept"@),
        ("content-type"@, "application/json"@, "content-type"@),
        ("origin"@, DEFAULT_BASE_URL@, "origin"@),
        ("referer"@, DEFAULT_BASE_URL@, "referer"@),
        ("cookie"@, client.cookie, "cookie"@),
        ("x-app-version"@, CURRENT_APP_VERSION@, "x-app-version"@),
        ("x-client-version"@, CURRENT_APP_VERSION@, "x-client-version"@),
        ("accept-language"@, "zh-CN,zh;q=0.9,en;q=0.8"@, "accept-language"@),
        ("x-client-locale"@, "zh_CN"@, "x-client-locale"@),
        ("x-client-platform"@, "web"@, "x-client-platform"@),
        ("x-client-timezone-offset"@, "28800"@, "x-client-timezone-offset"@),
    ];
    match client.bearer {
        Some(bearer) => always.push(
            ("authorization"@, "Bearer "@ + bearer, "authorization header"@),
        ),
        None => always,
    }
}

/// The header of this name, value and label.
fn header(name: &'static str, value: &str, label: &'static str) -> (r: HeaderLine)
    ensures
        r.parts() == (name@, value@, label@),
{
    HeaderLine { name, value: value.to_owned(), label }
}

impl DeepSeekWebClient {
    /// The client for a saved session that was read as this value, told from other
    /// clients by a random key.
    pub fn new(cookie_or_json: &str, read: Option<&Json>) -> (r: Self)
        ensures
            exists|unique: Seq<char>|
                ids::random_uuid(unique) && r@ == #[trigger] client_for(
                    cookie_or_json@,
                    views::of_option(read),
                    unique,
                ),
    {
        let unique = ids::fresh_uuid();
        Self::with_key(cookie_or_json, read, unique.as_str())
    }

    /// The client for a saved session that was read as this value, with `unique` as what
    /// tells it from other clients.
    pub fn with_key(cookie_or_json: &str, read: Option<&Json>, unique: &str) -> (r: Self)
        ensures
            r@ == client_for(cookie_or_json@, views::of_option(read), unique@),
    {
        let options = DeepSeekWebOptions::from_raw(cookie_or_json, read);
        let bearer = match options.bearer {
            Some(bearer) => Some(unwrap_bearer(bearer)),
            None => None,
        };
        let user_agent = match options.user_agent {
            Some(agent) => agent,
            None => DEFAULT_USER_AGENT.to_owned(),
        };
        let session_key_override = match options.last_session_id {
            Some(id) => if text::is_blank(id.as_str()) {
                None
            } else {
                Some(id)
            },
            None => None,
        };
        let mut runtime_session_key = "new-".to_owned();
        runtime_session_key.append(unique);
        DeepSeekWebClient {
            cookie: options.cookie,
            bearer,
            user_agent,
            session_key_override,
            parent_message_id_override: options.last_parent_message_id,
            runtime_session_key,
        }
    }

    /// What may be shown of the client.
    pub fn redacted(&self) -> (r: RedactedClient)
        ensures
            r.cookie@ == redacted(self@.cookie),
            views::of_option(r.bearer) == (match self@.bearer {
                Some(bearer) => Some(redacted(bearer)),
                None => None,
            }),
            r.user_agent@ == self@.user_agent,
            views::of_option(r.session_key_override) == self@.session_key_override,
            views::of_option(r.parent_message_id_override) == self@.parent_message_id_override,
            r.runtime_session_key@ == self@.runtime_session_key,
    {
        RedactedClient {
            cookie: redact_secret(self.cookie.as_str()),
            bearer: match &self.bearer {
                Some(bearer) => Some(redact_secret(bearer.as_str())),
                None => None,
            },
            user_agent: self.user_agent.clone(),
            session_key_override: match &self.session_key_override {
                Some(id) => Some(id.clone()),
                None => None,
            },
            parent_message_id_override: copied_value(&self.parent_message_id_override),
            runtime_session_key: self.runtime_session_key.clone(),
        }
    }

    /// The headers of every request that the client makes.
    pub fn headers(&self) -> (r: Vec<HeaderLine>)
        ensures
            header_parts(r@) == client_headers(self@),
    {
        let mut lines = vec![
            header("user-agent", self.user_agent.as_str(), "user-agent"),
            header("accept", "*/*", "accept"),
            header("content-type", "application/json", "content-type"),
            header("origin", DEFAULT_BASE_URL, "origin"),
            header("referer", DEFAULT_BASE_URL, "referer"),
            header("cookie", self.cookie.as_str(), "cookie"),
            header("x-app-version", CURRENT_APP_VERSION, "x-app-version"),
            header("x-client-version", CURRENT_APP_VERSION, "x-client-version"),
            header("accept-language", "zh-CN,zh;q=0.9,en;q=0.8", "accept-language"),
            header("x-client-locale", "zh_CN", "x-client-locale"),
            header("x-client-platform", "web", "x-client-platform"),
            header("x-client-timezone-offset", "28800", "x-client-timezone-offset"),
        ];
        if let Some(bearer) = &self.bearer {
            let mut value = "Bearer ".to_owned();
            value.append(bearer.as_str());
            lines.push(header("authorization", value.as_str(), "authorization header"));
        }
        assert(header_parts(lines@) =~= client_headers(self@));
        lines
    }

    /// The key under which the client's session is kept.
    pub fn session_key(&self) -> (r: String)
        ensures
            r@ == self@.session_key(),
    {
        match &self.session_key_override {
            Some(id) => id.clone(),
            None => self.runtime_session_key.clone(),
        }
    }
}

/// A bearer that is a JSON object with a text as its `value` stands for that text.
fn unwrap_bearer(bearer: String) -> (r: String)
    ensures
        r@ == unwrapped_bearer(bearer@),
{
    let chars = text::chars_of(bearer.as_str());
    if chars.len() > 0 && chars[0] == '{' {
        if let Some(Json::Object(object)) = json::parse_json(bearer.as_str()) {
            if let Some(Json::Text(value)) = object.get("value") {
                return value.clone();
            }
        }
    }
    bearer
}

// ---------------------------------------------------------------------------
// Sessions
// ---------------------------------------------------------------------------

/// A session of the web chat: its id and the message that the next one answers.
pub struct SessionView {
    pub session_id: Seq<char>,
    pub parent_message_id: Option<JsonView>,
}

/// The sessions, by the keys of their clients.
pub type Sessions = Map<Seq<char>, SessionView>;

/// A session of the web chat: its id and the message that the next one answers.
#[derive(Debug)]
pub struct DeepSeekSessionState {
    pub session_id: String,
    pub parent_message_id: Option<Json>,
}

impl View for DeepSeekSessionState {
    type V = SessionView;

    open spec fn view(&self) -> SessionView {
        SessionView {
            session_id: self.session_id@,
            parent_message_id: views::of_option(self.parent_message_id),
        }
    }
}

impl Clone for DeepSeekSessionState {
    fn clone(&self) -> (r: Self)
        ensures
            r@ == self@,
    {
        DeepSeekSessionState {
            session_id: self.session_id.clone(),
            parent_message_id: copied_value(&self.parent_message_id),
        }
    }
}

/// The session of a client that needs no new one: the one that is kept, or the one
/// that its saved session names.
pub open spec fn known_session_of(client: ClientView, sessions: Sessions) -> Option<SessionView> {
    if sessions.dom().contains(client.session_key()) {
        Some(sessions[client.session_key()])
    } else {
        match client.session_key_override {
            Some(id) => Some(
                SessionView {
                    session_id: id,
                    parent_message_id: client.parent_message_id_override,
                },
            ),
            None => None,
        }
    }
}

/// The session that the reply to a request for a new one gives.
pub open spec fn created_session(body: Seq<char>) -> Result<SessionView, ErrorView> {
    match json::reading(body) {
        Err(error) => Err(
            ErrorView::Upstream("deepseek web session json: "@ + error + ": "@ + body),
        ),
        Ok(payload) => match deltas::first_session_id(payload, deltas::session_paths()) {
            Some(id) => Ok(SessionView { session_id: id, parent_message_id: None }),
            None => Err(
                ErrorView::Upstream(
                    "DeepSeek create-session response did not include a session id"@ + ": "@
                        + cut_off(body, 600),
                ),
            ),
        },
    }
}

/// The sessions once a client has seen the id of a message: that is the one which its
/// next message answers.
pub open spec fn with_parent(client: ClientView, sessions: Sessions, id: JsonView) -> Sessions {
    let key = client.session_key();
    if id is Null {
        sessions
    } else if sessions.dom().contains(key) {
        sessions.insert(
            key,
            SessionView { session_id: sessions[key].session_id, parent_message_id: Some(id) },
        )
    } else {
        sessions.insert(
            key,
            SessionView {
                session_id: match client.session_key_override {
                    Some(id) => id,
                    None => Seq::empty(),
                },
                parent_message_id: Some(id),
            },
        )
    }
}

/// The message that the next one of a client answers, as far as its session knows.
pub open spec fn parent_in(client: ClientView, sessions: Sessions) -> Option<JsonView> {
    if sessions.dom().contains(client.session_key()) {
        sessions[client.session_key()].parent_message_id
    } else {
        None
    }
}

/// Once a client has seen a message's id, its next message answers that one; the
/// sessions of other clients are as before.
pub proof fn lemma_with_parent(client: ClientView, sessions: Sessions, id: JsonView, other: Seq<char>)
    requires
        !(id is Null),
    ensures
        parent_in(client, with_parent(client, sessions, id)) == Some(id),
        other != client.session_key() ==> (with_parent(client, sessions, id).dom().contains(other)
            <==> sessions.dom().contains(other)) && with_parent(client, sessions, id)[other]
            == sessions[other],
{
}

impl DeepSeekWebClient {
    /// The session of the client if it needs no new one. A session that its saved
    /// session names is kept from then on.
    pub fn known_session(&self, sessions: &mut Table<DeepSeekSessionState>) -> (r: Option<
        DeepSeekSessionState,
    >)
        ensures
            views::of_option(r) == known_session_of(self@, old(sessions)@),
            final(sessions)@ == (match known_session_of(self@, old(sessions)@) {
                Some(state) => old(sessions)@.insert(self@.session_key(), state),
                None => old(sessions)@,
            }),
    {
        let key = self.session_key();
        if let Some(state) = sessions.get(key.as_str()) {
            assert(old(sessions)@.insert(key@, state@) =~= old(sessions)@);
            return Some(state.clone());
        }
        match &self.session_key_override {
            Some(id) => {
                let state = DeepSeekSessionState {
                    session_id: id.clone(),
                    parent_message_id: copied_value(&self.parent_message_id_override),
                };
                sessions.insert(key, state.clone());
                Some(state)
            },
            None => None,
        }
    }

    /// The session that the reply to a request for a new one gives. It is kept from
    /// then on.
    pub fn accept_session(&self, sessions: &mut Table<DeepSeekSessionState>, body: &str) -> (r:
        Result<DeepSeekSessionState, AdapterError>)
        ensures
            views::of_result(r) == created_session(body@),
            final(sessions)@ == (match created_session(body@) {
                Ok(state) => old(sessions)@.insert(self@.session_key(), state),
                Err(_) => old(sessions)@,
            }),
    {
        let payload = match json::read_json(body) {
            Ok(payload) => payload,
            Err(error) => {
                let mut message = "deepseek web session json: ".to_owned();
                message.append(error.as_str());
                message.append(": ");
                message.append(body);
                return Err(AdapterError::Upstream(message));
            },
        };
        match deltas::find_deepseek_session_id(&payload) {
            Some(id) => {
                let state = DeepSeekSessionState { session_id: id, parent_message_id: None };
                sessions.insert(self.session_key(), state.clone());
                Ok(state)
            },
            None => Err(
                AdapterError::upstream_failure(
                    "DeepSeek create-session response did not include a session id",
                    truncate_for_error(body, 600).as_str(),
                ),
            ),
        }
    }

    /// The message that the next one answers, as far as the session knows.
    pub fn current_parent_message_id(&self, sessions: &Table<DeepSeekSessionState>) -> (r: Option<
        Json,
    >)
        ensures
            views::of_option(r) == parent_in(self@, sessions@),
    {
        match sessions.get(self.session_key().as_str()) {
            Some(state) => copied_value(&state.parent_message_id),
            None => None,
        }
    }

    /// Keeps the id of a message as that of the one which the next answers.
    pub fn update_parent_message_id(
        &self,
        sessions: &mut Table<DeepSeekSessionState>,
        parent_message_id: &Json,
    )
        ensures
            final(sessions)@ == with_parent(self@, old(sessions)@, parent_message_id@),
    {
        if let Json::Null = parent_message_id {
            return;
        }
        let key = self.session_key();
        let session_id = match sessions.get(key.as_str()) {
            Some(state) => state.session_id.clone(),
            None => match &self.session_key_override {
                Some(id) => id.clone(),
                None => String::new(),
            },
        };
        sessions.insert(
            key,
            DeepSeekSessionState { session_id, parent_message_id: Some(parent_message_id.clone()) },
        );
    }
}

/// The members of a request for a new session.
pub open spec fn session_request_members() -> Members {
    seq![("character_id"@, JsonView::Null)]
}

/// The body of a request for a new session.
pub fn session_request_body() -> (r: String)
    ensures
        r@ == json::compact(JsonView::object(session_request_members())),
{
    let pairs = vec![("character_id", Json::Null)];
    assert(json::pairs_view(pairs@) =~= session_request_members());
    Json::object(pairs).to_text()
}

/// The members of a request for a challenge.
pub open spec fn challenge_request_members(target_path: Seq<char>) -> Members {
    seq![("target_path"@, JsonView::Text(target_path))]
}

/// The body of a request for a challenge.
pub fn challenge_request_body(target_path: &str) -> (r: String)
    ensures
        r@ == json::compact(JsonView::object(challenge_request_members(target_path@))),
{
    let pairs = vec![("target_path", Json::text(target_path))];
    assert(json::pairs_view(pairs@) =~= challenge_request_members(target_path@));
    Json::object(pairs).to_text()
}

/// The error for a reply that is no success.
pub fn http_failure(status: &str, body: &str) -> (r: AdapterError)
    ensures
        r@ == ErrorView::Upstream("DeepSeek Web returned HTTP "@ + status@ + ": "@ + body@),
{
    let mut message = "DeepSeek Web returned HTTP ".to_owned();
    message.append(status);
    message.append(": ");
    message.append(body);
    AdapterError::Upstream(message)
}

/// What a model is called in a request.
pub open spec fn model_type(model: Seq<char>) -> Seq<char> {
    let lower = text::lowered(model);
    if text::has(lower, "vision"@) {
        "vision"@
    } else if text::has(lower, "expert"@) || text::has(lower, "pro"@) {
        "expert"@
    } else {
        "default"@
    }
}

/// What a model is called in a request.
pub fn deepseek_model_type(model: &str) -> (r: &'static str)
    ensures
        r@ == model_type(model@),
{
    let chars = text::chars_of(model);
    let lower = text::to_lower(chars.as_slice());
    if text::has_text(lower.as_slice(), "vision") {
        "vision"
    } else if text::has_text(lower.as_slice(), "expert") || text::has_text(
        lower.as_slice(),
        "pro",
    ) {
        "expert"
    } else {
        "default"
    }
}

/// The members of a request for a completion.
pub open spec fn completion_members(
    model: Seq<char>,
    prompt: Seq<char>,
    session: SessionView,
) -> Members {
    seq![
        ("chat_session_id"@, JsonView::Text(session.session_id)),
        (
            "parent_message_id"@,
            match session.parent_message_id {
                Some(id) => id,
                None => JsonView::Null,
            },
        ),
        ("model_type"@, JsonView::Text(model_type(model))),
        ("prompt"@, JsonView::Text(middle_truncated(prompt, 65536))),
        ("ref_file_ids"@, JsonView::Array(Seq::empty())),
        (
            "thinking_enabled"@,
            JsonView::Bool(text::has(model, "reasoner"@) || text::has(model, "thinking"@)),
        ),
        ("search_enabled"@, JsonView::Bool(text::has(model, "search"@))),
        ("preempt"@, JsonView::Bool(false)),
    ]
}

/// The request for a completion.
pub fn completion_payload(model: &str, prompt: &str, session_state: &DeepSeekSessionState) -> (r:
    Json)
    ensures
        r@ == JsonView::object(completion_members(model@, prompt@, session_state@)),
{
    let thinking_enabled = text::str_contains(model, "reasoner") || text::str_contains(
        model,
        "thinking",
    );
    let search_enabled = text::str_contains(model, "search");
    let parent = match &session_state.parent_message_id {
        Some(id) => id.clone(),
        None => Json::Null,
    };
    let no_files: Vec<Json> = Vec::new();
    assert(json::models(no_files@) =~= Seq::empty());
    let pairs = vec![
        ("chat_session_id", Json::text(session_state.session_id.as_str())),
        ("parent_message_id", parent),
        ("model_type", Json::text(deepseek_model_type(model))),
        ("prompt", Json::Text(truncate_middle_to_bytes(prompt, 65536))),
        ("ref_file_ids", Json::Array(no_files)),
        ("thinking_enabled", Json::Bool(thinking_enabled)),
        ("search_enabled", Json::Bool(search_enabled)),
        ("preempt", Json::Bool(false)),
    ];
    assert(json::pairs_view(pairs@) =~= completion_members(model@, prompt@, session_state@));
    Json::object(pairs)
}

} // verus!
