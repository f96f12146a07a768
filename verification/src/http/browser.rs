//! Capturing a session of DeepSeek's web chat from a browser that is driven over the
//! DevTools protocol, without the network.
use vstd::prelude::*;

use crate::error::{AdapterError, ErrorView};
use crate::json;
use crate::json::{Json, JsonObject, JsonView, Members};
use crate::providers::deepseek_web::client;
use crate::responses_store;
use crate::text;
use crate::views;

verus! {

/// The port that the browser listens on.
pub const DEFAULT_DEEPSEEK_DEBUG_PORT: u16 = 9223;

/// The port of the browser: the one that a request names, or else that of the browser
/// which was opened, or else the usual one.
pub open spec fn port_for(payload: JsonView, opened: Option<u16>) -> u16 {
    match json::integer_at(payload, "port"@) {
        Some(port) if port <= 65535 => port as u16,
        _ => match opened {
            Some(port) => port,
            None => DEFAULT_DEEPSEEK_DEBUG_PORT,
        },
    }
}

/// The port of the browser.
pub fn capture_port(payload: &Json, opened: Option<u16>) -> (r: u16)
    ensures
        r == port_for(payload@, opened),
{
    if let Some(port) = payload.u64_at("port") {
        if port <= 65535 {
            return port as u16;
        }
    }
    match opened {
        Some(port) => port,
        None => DEFAULT_DEEPSEEK_DEBUG_PORT,
    }
}

/// What the browser is started with.
pub open spec fn arguments_for(port: nat, user_data_dir: Seq<char>) -> Seq<Seq<char>> {
    seq![
        "--remote-debugging-port="@ + text::decimal(port),
        "--user-data-dir="@ + user_data_dir,
        "--no-first-run"@,
        "--no-default-browser-check"@,
        "--disable-background-networking"@,
        "--disable-component-update"@,
        "--disable-domain-reliability"@,
        "--disable-features=OptimizationHints,AutofillServerCommunication,MediaRouter"@,
        "--disable-sync"@,
        "--disable-extensions"@,
        "--metrics-recording-only"@,
        "--safebrowsing-disable-auto-update"@,
        "https://chat.deepseek.com/"@,
    ]
}

/// What the browser is started with.
pub fn browser_arguments(port: u16, user_data_dir: &str) -> (r: Vec<String>)
    ensures
        text::texts(r@) == arguments_for(port as nat, user_data_dir@),
{
    let mut port_argument = "--remote-debugging-port=".to_owned();
    port_argument.append(text::decimal_of(port as u64).as_str());
    let mut dir_argument = "--user-data-dir=".to_owned();
    dir_argument.append(user_data_dir);
    let out = vec![
        port_argument,
        dir_argument,
        "--no-first-run".to_owned(),
        "--no-default-browser-check".to_owned(),
        "--disable-background-networking".to_owned(),
        "--disable-component-update".to_owned(),
        "--disable-domain-reliability".to_owned(),
        "--disable-features=OptimizationHints,AutofillServerCommunication,MediaRouter".to_owned(),
        "--disable-sync".to_owned(),
        "--disable-extensions".to_owned(),
        "--metrics-recording-only".to_owned(),
        "--safebrowsing-disable-auto-update".to_owned(),
        "https://chat.deepseek.com/".to_owned(),
    ];
    assert(text::texts(out@) =~= arguments_for(port as nat, user_data_dir@));
    out
}

// ---------------------------------------------------------------------------
// The tab
// ---------------------------------------------------------------------------

/// How well a tab fits.
#[derive(Debug, Clone, Copy, PartialEq, Eq, Structural)]
pub enum TabFit {
    /// A page of the chat.
    Own,
    /// A page with the chat in its address.
    Page,
    /// Anything with the chat in its address.
    Near,
    /// Anything.
    Any,
}

/// Whether a tab fits so well.
pub open spec fn fits(tab: JsonView, fit: TabFit) -> bool {
    let page = tab.text_at("type"@) == Some("page"@);
    match (fit, tab.text_at("url"@)) {
        (TabFit::Own, Some(url)) => page && text::begins(url, "https://chat.deepseek.com"@),
        (TabFit::Page, Some(url)) => page && text::has(url, "chat.deepseek.com"@),
        (TabFit::Near, Some(url)) => text::has(url, "chat.deepseek.com"@),
        (TabFit::Any, _) => true,
        _ => false,
    }
}

/// The first tab that fits so well.
pub open spec fn first_fit(tabs: Seq<JsonView>, fit: TabFit) -> Option<JsonView>
    decreases tabs.len(),
{
    if tabs.len() == 0 {
        None
    } else if fits(tabs[0], fit) {
        Some(tabs[0])
    } else {
        first_fit(tabs.skip(1), fit)
    }
}

/// The tab that fits best, the first of those that fit alike.
pub open spec fn best_tab(tabs: Seq<JsonView>) -> Option<JsonView> {
    match first_fit(tabs, TabFit::Own) {
        Some(tab) => Some(tab),
        None => match first_fit(tabs, TabFit::Page) {
            Some(tab) => Some(tab),
            None => match first_fit(tabs, TabFit::Near) {
                Some(tab) => Some(tab),
                None => first_fit(tabs, TabFit::Any),
            },
        },
    }
}

/// The address at which the best tab is driven.
pub open spec fn tab_address(tabs: JsonView) -> Result<Seq<char>, ErrorView> {
    let best = match tabs {
        JsonView::Array(items) => best_tab(items),
        _ => None,
    };
    match best {
        None => Err(ErrorView::Upstream("controlled browser has no debuggable tabs"@)),
        Some(tab) => match tab.text_at("webSocketDebuggerUrl"@) {
            Some(url) => Ok(url),
            None => Err(
                ErrorView::Upstream(
                    "controlled browser tab does not expose webSocketDebuggerUrl"@,
                ),
            ),
        },
    }
}

/// Whether a tab fits so well.
fn tab_fits(tab: &Json, fit: TabFit) -> (r: bool)
    ensures
        r == fits(tab@, fit),
{
    let page = match tab.text_at("type") {
        Some(kind) => text::same(kind, "page"),
        None => false,
    };
    match fit {
        TabFit::Any => true,
        _ => match tab.text_at("url") {
            None => false,
            Some(url) => match fit {
                TabFit::Own => page && text::str_starts_with(url, "https://chat.deepseek.com"),
                TabFit::Page => page && text::str_contains(url, "chat.deepseek.com"),
                _ => text::str_contains(url, "chat.deepseek.com"),
            },
        },
    }
}

/// The first tab that fits so well.
fn find_fit(tabs: &Vec<Json>, fit: TabFit) -> (r: Option<&Json>)
    ensures
        views::of_option(r) == first_fit(json::models(tabs@), fit),
{
    let ghost all = json::models(tabs@);
    let mut i: usize = 0;
    assert(all.skip(0) =~= all);
    while i < tabs.len()
        invariant
            i <= tabs@.len(),
            all == json::models(tabs@),
            first_fit(all.skip(i as int), fit) == first_fit(all, fit),
        decreases tabs.len() - i,
    {
        assert(all.skip(i as int)[0] == tabs@[i as int]@);
        if tab_fits(&tabs[i], fit) {
            return Some(&tabs[i]);
        }
        assert(all.skip(i as int).skip(1) =~= all.skip(i + 1));
        i += 1;
    }
    None
}

/// The address at which the best tab is driven.
pub fn find_tab_address(tabs: &Json) -> (r: Result<String, AdapterError>)
    ensures
        views::of_result(r) == tab_address(tabs@),
{
    let best = match tabs {
        Json::Array(items) => match find_fit(items, TabFit::Own) {
            Some(tab) => Some(tab),
            None => match find_fit(items, TabFit::Page) {
                Some(tab) => Some(tab),
                None => match find_fit(items, TabFit::Near) {
                    Some(tab) => Some(tab),
                    None => find_fit(items, TabFit::Any),
                },
            },
        },
        _ => None,
    };
    match best {
        None => Err(
            AdapterError::Upstream("controlled browser has no debuggable tabs".to_owned()),
        ),
        Some(tab) => match tab.text_at("webSocketDebuggerUrl") {
            Some(url) => Ok(url.to_owned()),
            None => Err(
                AdapterError::Upstream(
                    "controlled browser tab does not expose webSocketDebuggerUrl".to_owned(),
                ),
            ),
        },
    }
}

// ---------------------------------------------------------------------------
// The DevTools protocol
// ---------------------------------------------------------------------------

/// The members of a command.
pub open spec fn command_members(id: int, method: Seq<char>, params: JsonView) -> Members {
    seq![
        ("id"@, JsonView::Integer(id)),
        ("method"@, JsonView::Text(method)),
        ("params"@, params),
    ]
}

/// A command.
pub fn cdp_command(id: u64, method: &str, params: Json) -> (r: String)
    ensures
        r@ == json::compact(JsonView::object(command_members(id as int, method@, params@))),
{
    let pairs = vec![
        ("id", Json::Unsigned(id)),
        ("method", Json::text(method)),
        ("params", params),
    ];
    assert(json::pairs_view(pairs@) =~= command_members(id as int, method@, params@));
    Json::object(pairs).to_text()
}

/// The members of what is asked for the cookies of the chat.
pub open spec fn cookie_query_members() -> Members {
    seq![("urls"@, JsonView::Array(seq![JsonView::Text("https://chat.deepseek.com/"@)]))]
}

/// What is asked for the cookies of the chat.
pub fn cookie_query() -> (r: Json)
    ensures
        r@ == JsonView::object(cookie_query_members()),
{
    let urls = vec![Json::text("https://chat.deepseek.com/")];
    assert(json::models(urls@) =~= seq![JsonView::Text("https://chat.deepseek.com/"@)]);
    let pairs = vec![("urls", Json::Array(urls))];
    assert(json::pairs_view(pairs@) =~= cookie_query_members());
    Json::object(pairs)
}

/// The expression that gives all that the page stored, as JSON text.
pub const STORAGE_EXPRESSION: &'static str = "JSON.stringify(Object.fromEntries(Array.from({length: localStorage.length}, (_, i) => { const k = localStorage.key(i); return [k, localStorage.getItem(k)]; })))";

/// The expression that gives the browser which it says it is.
pub const AGENT_EXPRESSION: &'static str = "navigator.userAgent";

/// The members of what is asked for the value of an expression.
pub open spec fn evaluation_members(expression: Seq<char>) -> Members {
    seq![("expression"@, JsonView::Text(expression)), ("returnByValue"@, JsonView::Bool(true))]
}

/// What is asked for the value of an expression.
pub fn evaluation(expression: &str) -> (r: Json)
    ensures
        r@ == JsonView::object(evaluation_members(expression@)),
{
    let pairs = vec![("expression", Json::text(expression)), ("returnByValue", Json::Bool(true))];
    assert(json::pairs_view(pairs@) =~= evaluation_members(expression@));
    Json::object(pairs)
}

/// What a message of the browser means for the command that waits.
pub enum StepView {
    /// It is about something else.
    Wait,
    /// It is the result.
    Done(JsonView),
    /// It is no JSON, or says that the command failed.
    Failed(ErrorView),
}

/// What a message of the browser means for the command that waits.
#[derive(Debug)]
pub enum CdpStep {
    /// It is about something else.
    Wait,
    /// It is the result.
    Done(Json),
    /// It is no JSON, or says that the command failed.
    Failed(AdapterError),
}

impl View for CdpStep {
    type V = StepView;

    open spec fn view(&self) -> StepView {
        match *self {
            CdpStep::Wait => StepView::Wait,
            CdpStep::Done(value) => StepView::Done(value@),
            CdpStep::Failed(error) => StepView::Failed(error@),
        }
    }
}

/// What a message of the browser that says this value means for the command with this id.
pub open spec fn step_in(id: u64, method: Seq<char>, value: JsonView) -> StepView {
    if json::integer_at(value, "id"@) != Some(id) {
        StepView::Wait
    } else {
        match value.get("error"@) {
            Some(error) => StepView::Failed(
                ErrorView::Upstream("CDP "@ + method + " failed: "@ + json::compact(error)),
            ),
            None => match value.get("result"@) {
                Some(result) => StepView::Done(result),
                None => StepView::Done(JsonView::empty_object()),
            },
        }
    }
}

/// What a message of the browser means for the command with this id.
pub open spec fn step_for(id: u64, method: Seq<char>, message: Seq<char>) -> StepView {
    match json::reading(message) {
        Err(error) => StepView::Failed(
            ErrorView::Upstream("parse CDP "@ + method + ": "@ + error),
        ),
        Ok(value) => step_in(id, method, value),
    }
}

/// What a message of the browser that says this value means for the command with this id.
pub fn cdp_reply(id: u64, method: &str, value: &Json) -> (r: CdpStep)
    ensures
        r@ == step_in(id, method@, value@),
{
    let ours = match value.u64_at("id") {
        Some(n) => n == id,
        None => false,
    };
    if !ours {
        return CdpStep::Wait;
    }
    if let Some(error) = value.get("error") {
        let mut text = "CDP ".to_owned();
        text.append(method);
        text.append(" failed: ");
        text.append(error.to_text().as_str());
        return CdpStep::Failed(AdapterError::Upstream(text));
    }
    match value.get("result") {
        Some(result) => CdpStep::Done(result.clone()),
        None => CdpStep::Done(Json::empty_object()),
    }
}

/// What a message of the browser means for the command with this id.
pub fn cdp_step(id: u64, method: &str, message: &str) -> (r: CdpStep)
    ensures
        r@ == step_for(id, method@, message@),
{
    match json::read_json(message) {
        Ok(value) => cdp_reply(id, method, &value),
        Err(error) => {
            let mut text = "parse CDP ".to_owned();
            text.append(method);
            text.append(": ");
            text.append(error.as_str());
            CdpStep::Failed(AdapterError::Upstream(text))
        },
    }
}

// ---------------------------------------------------------------------------
// What the browser knows
// ---------------------------------------------------------------------------

/// A cookie of DeepSeek's as `name=value`.
pub open spec fn cookie_pair(cookie: JsonView) -> Option<Seq<char>> {
    match cookie.text_at("domain"@) {
        Some(domain) if text::has(domain, "deepseek.com"@) => match (
            cookie.text_at("name"@),
            cookie.text_at("value"@),
        ) {
            (Some(name), Some(value)) => Some(name + "="@ + value),
            _ => None,
        },
        _ => None,
    }
}

/// The cookies of DeepSeek's among these.
pub open spec fn cookie_pairs(cookies: Seq<JsonView>) -> Seq<Seq<char>>
    decreases cookies.len(),
{
    if cookies.len() == 0 {
        Seq::empty()
    } else {
        let before = cookie_pairs(cookies.take(cookies.len() - 1));
        match cookie_pair(cookies[cookies.len() - 1]) {
            Some(pair) => before.push(pair),
            None => before,
        }
    }
}

/// The cookie header that the browser's cookies give.
pub open spec fn cookie_header_of(reply: JsonView) -> Result<Seq<char>, ErrorView> {
    let header = match reply.get("cookies"@) {
        Some(JsonView::Array(cookies)) => text::joined(cookie_pairs(cookies), "; "@),
        _ => Seq::empty(),
    };
    if text::blank(header) {
        Err(
            ErrorView::Upstream(
                "DeepSeek cookies were not found. Finish login in the controlled browser, then capture again."@,
            ),
        )
    } else {
        Ok(header)
    }
}

/// A cookie of DeepSeek's as `name=value`.
fn find_cookie_pair(cookie: &Json) -> (r: Option<String>)
    ensures
        views::of_option(r) == cookie_pair(cookie@),
{
    match cookie.text_at("domain") {
        Some(domain) => if !text::str_contains(domain, "deepseek.com") {
            return None;
        },
        None => {
            return None;
        },
    }
    match (cookie.text_at("name"), cookie.text_at("value")) {
        (Some(name), Some(value)) => {
            let mut pair = name.to_owned();
            pair.append("=");
            pair.append(value);
            Some(pair)
        },
        _ => None,
    }
}

/// The cookie header that the browser's cookies give.
pub fn cookie_header(reply: &Json) -> (r: Result<String, AdapterError>)
    ensures
        views::of_result(r) == cookie_header_of(reply@),
{
    let header = match reply.get("cookies") {
        Some(Json::Array(cookies)) => {
            let ghost all = json::models(cookies@);
            let mut pairs: Vec<String> = Vec::new();
            let mut i: usize = 0;
            assert(all.take(0) =~= Seq::empty());
            assert(text::texts(pairs@) =~= Seq::empty());
            while i < cookies.len()
                invariant
                    i <= cookies@.len(),
                    all == json::models(cookies@),
                    text::texts(pairs@) == cookie_pairs(all.take(i as int)),
                decreases cookies.len() - i,
            {
                let ghost next = all.take(i + 1);
                let ghost before = pairs@;
                assert(next.take(i as int) =~= all.take(i as int));
                if let Some(pair) = find_cookie_pair(&cookies[i]) {
                    pairs.push(pair);
                    assert(text::texts(pairs@) =~= text::texts(before).push(pair@));
                }
                i += 1;
            }
            assert(all.take(i as int) =~= all);
            text::join(&pairs, "; ")
        },
        _ => String::new(),
    };
    if text::is_blank(header.as_str()) {
        return Err(
            AdapterError::Upstream(
                "DeepSeek cookies were not found. Finish login in the controlled browser, then capture again.".to_owned(),
            ),
        );
    }
    Ok(header)
}

/// The browser that it says it is, or just a browser.
pub open spec fn agent_of(reply: Option<JsonView>) -> Seq<char> {
    let said = match reply {
        Some(reply) => reply.text_under(seq!["result"@, "value"@]),
        None => None,
    };
    match said {
        Some(agent) if !text::blank(agent) => agent,
        _ => "Mozilla/5.0"@,
    }
}

/// The browser that it says it is.
pub fn browser_agent(reply: Option<&Json>) -> (r: String)
    ensures
        r@ == agent_of(views::of_option(reply)),
{
    let path = vec!["result", "value"];
    assert(json::tokens_view(path@) =~= seq!["result"@, "value"@]);
    if let Some(reply) = reply {
        if let Some(agent) = reply.text_under(path.as_slice()) {
            if !text::is_blank(agent) {
                return agent.to_owned();
            }
        }
    }
    "Mozilla/5.0".to_owned()
}

/// What the page stored in the browser; what is no JSON counts as nothing.
pub open spec fn storage_of(reply: JsonView) -> JsonView {
    let text = match reply.text_under(seq!["result"@, "value"@]) {
        Some(text) => text,
        None => "{}"@,
    };
    match json::parsed(text) {
        Some(storage) => storage,
        None => JsonView::empty_object(),
    }
}

/// What the page stored in the browser.
pub fn page_storage(reply: &Json) -> (r: Json)
    ensures
        r@ == storage_of(reply@),
{
    let path = vec!["result", "value"];
    assert(json::tokens_view(path@) =~= seq!["result"@, "value"@]);
    let text = match reply.text_under(path.as_slice()) {
        Some(text) => text,
        None => "{}",
    };
    match json::parse_json(text) {
        Some(storage) => storage,
        None => Json::empty_object(),
    }
}

/// Where a JSON object may hold the value of an authorization.
pub open spec fn auth_keys() -> Seq<Seq<char>> {
    seq!["token"@, "access_token"@, "jwt"@, "value"@, "userToken"@, "settingsJwt"@]
}

/// The value of an authorization: the text itself, or what it holds if it is a JSON
/// object.
pub open spec fn auth_text(raw: Seq<char>) -> Option<Seq<char>>
    decreases raw.len(), 2nat, 0nat, 0nat,
{
    let t = text::trimmed(raw);
    if t.len() == 0 {
        None
    } else if t[0] != '{' {
        Some(t)
    } else {
        match json::parsed(t) {
            Some(value) => {
                proof {
                    text::lemma_trimmed_len(raw);
                }
                auth_in(value, t.len())
            },
            None => None,
        }
    }
}

/// The value of an authorization in a JSON value that stands in a text of this length:
/// a text in it, which is shorter, or the first of the usual members that has one.
pub open spec fn auth_in(value: JsonView, length: nat) -> Option<Seq<char>>
    decreases length, 1nat, json::depth(value), 7nat,
{
    match value {
        JsonView::Text(raw) => if raw.len() < length {
            auth_text(raw)
        } else {
            None
        },
        JsonView::Object(_) => auth_under(value, auth_keys(), length),
        _ => None,
    }
}

/// The value of an authorization in the first of these members that has one.
pub open spec fn auth_under(value: JsonView, keys: Seq<Seq<char>>, length: nat) -> Option<Seq<char>>
    decreases length, 1nat, json::depth(value), keys.len(),
{
    if keys.len() == 0 {
        None
    } else {
        let found = match value {
            JsonView::Object(members) => match json::lookup(members, keys[0]) {
                Some(member) => {
                    proof {
                        json::lemma_lookup_depth(members, keys[0]);
                    }
                    auth_in(member, length)
                },
                None => None,
            },
            _ => None,
        };
        match found {
            Some(value) => Some(value),
            None => auth_under(value, keys.skip(1), length),
        }
    }
}

/// Whether what is stored under a key is of no use, whatever it is.
pub open spec fn is_noise(key: Seq<char>) -> bool {
    text::has(key, "apm"@) || text::has(key, "tea"@) || text::has(key, "aws"@) || text::has(
        key,
        "smid"@,
    ) || text::has(key, "cache"@) || text::has(key, "challenge"@)
}

/// The authorization that a stored item gives, if it looks like one.
pub open spec fn auth_of_item(key: Seq<char>, value: JsonView) -> Option<Seq<char>> {
    let lower = text::lowered(key);
    let raw = match value.as_text() {
        Some(raw) => raw,
        None => Seq::empty(),
    };
    if is_noise(lower) {
        None
    } else if text::begins(text::trimmed_start(raw), "eyJ"@) || text::has(lower, "token"@)
        || text::has(lower, "auth"@) {
        auth_text(raw)
    } else {
        None
    }
}

/// The authorization that the first of these items that gives one gives.
pub open spec fn auth_of_items(members: Members) -> Option<Seq<char>>
    decreases members.len(),
{
    if members.len() == 0 {
        None
    } else {
        match auth_of_item(members[0].0, members[0].1) {
            Some(found) => Some(found),
            None => auth_of_items(members.skip(1)),
        }
    }
}

/// The authorization under this key, if it is a text that gives one.
pub open spec fn auth_at(storage: JsonView, key: Seq<char>) -> Option<Seq<char>> {
    match storage.text_at(key) {
        Some(raw) => auth_text(raw),
        None => None,
    }
}

/// The authorization that the page stored: the user's token, or else the token of the
/// settings, or else the first thing that looks like one.
pub open spec fn bearer_in(storage: JsonView) -> Option<Seq<char>> {
    match storage {
        JsonView::Object(members) => match auth_at(storage, "userToken"@) {
            Some(token) => Some(token),
            None => match auth_at(storage, "settingsJwt"@) {
                Some(token) => Some(token),
                None => auth_of_items(members),
            },
        },
        _ => None,
    }
}

/// The value of an authorization.
pub fn normalize_deepseek_auth_value(raw: &str) -> (r: Option<String>)
    ensures
        views::of_option(r) == auth_text(raw@),
    decreases raw@.len(), 2nat, 0nat, 0nat,
{
    let chars = text::chars_of(raw);
    let trimmed = text::trim(chars.as_slice());
    if trimmed.len() == 0 {
        return None;
    }
    let whole = text::string_of(trimmed);
    if trimmed[0] != '{' {
        return Some(whole);
    }
    proof {
        text::lemma_trimmed_len(raw@);
    }
    match json::parse_json(whole.as_str()) {
        Some(value) => find_auth_value_in_json(&value, trimmed.len()),
        None => None,
    }
}

/// The value of an authorization in a JSON value that stands in a text of this length.
pub fn find_auth_value_in_json(value: &Json, length: usize) -> (r: Option<String>)
    ensures
        views::of_option(r) == auth_in(value@, length as nat),
    decreases length, 1nat, json::depth(value@), 7nat,
{
    match value {
        Json::Text(raw) => {
            if text::chars_of(raw.as_str()).len() < length {
                normalize_deepseek_auth_value(raw.as_str())
            } else {
                None
            }
        },
        Json::Object(object) => {
            let keys = vec!["token", "access_token", "jwt", "value", "userToken", "settingsJwt"];
            let ghost all = json::tokens_view(keys@);
            assert(all =~= auth_keys());
            let mut i: usize = 0;
            assert(all.skip(0) =~= all);
            while i < keys.len()
                invariant
                    i <= keys@.len(),
                    all == json::tokens_view(keys@),
                    all == auth_keys(),
                    value@ == JsonView::Object(object@),
                    auth_under(value@, all.skip(i as int), length as nat) == auth_under(
                        value@,
                        all,
                        length as nat,
                    ),
                decreases keys.len() - i,
            {
                assert(all.skip(i as int)[0] == keys@[i as int]@);
                assert(all.skip(i as int).skip(1) =~= all.skip(i + 1));
                if let Some(member) = object.get(keys[i]) {
                    proof {
                        json::lemma_lookup_depth(object@, keys@[i as int]@);
                    }
                    if let Some(found) = find_auth_value_in_json(member, length) {
                        return Some(found);
                    }
                }
                i += 1;
            }
            None
        },
        _ => None,
    }
}

/// The authorization under this key.
fn find_auth_at(storage: &Json, key: &str) -> (r: Option<String>)
    ensures
        views::of_option(r) == auth_at(storage@, key@),
{
    match storage.text_at(key) {
        Some(raw) => normalize_deepseek_auth_value(raw),
        None => None,
    }
}

/// The authorization that a stored item gives.
fn find_auth_of_item(key: &str, value: &Json) -> (r: Option<String>)
    ensures
        views::of_option(r) == auth_of_item(key@, value@),
{
    let chars = text::chars_of(key);
    let lower = text::to_lower(chars.as_slice());
    let lower = lower.as_slice();
    if text::has_text(lower, "apm") || text::has_text(lower, "tea") || text::has_text(lower, "aws")
        || text::has_text(lower, "smid") || text::has_text(lower, "cache") || text::has_text(
        lower,
        "challenge",
    ) {
        return None;
    }
    proof {
        reveal_strlit("");
        assert(""@ =~= Seq::empty());
    }
    let raw = match value.as_str() {
        Some(raw) => raw,
        None => "",
    };
    let raw_chars = text::chars_of(raw);
    if text::begins_with_text(text::trim_start(raw_chars.as_slice()), "eyJ") || text::has_text(
        lower,
        "token",
    ) || text::has_text(lower, "auth") {
        normalize_deepseek_auth_value(raw)
    } else {
        None
    }
}

/// The authorization that the page stored.
pub fn find_deepseek_bearer(storage: &Json) -> (r: Option<String>)
    ensures
        views::of_option(r) == bearer_in(storage@),
{
    let object = match storage {
        Json::Object(object) => object,
        _ => {
            return None;
        },
    };
    if let Some(token) = find_auth_at(storage, "userToken") {
        return Some(token);
    }
    if let Some(token) = find_auth_at(storage, "settingsJwt") {
        return Some(token);
    }
    let ghost all = object@;
    let n = object.len();
    let mut i: usize = 0;
    assert(all.skip(0) =~= all);
    while i < n
        invariant
            i <= n,
            n == all.len(),
            all == object@,
            auth_of_items(all.skip(i as int)) == auth_of_items(all),
            bearer_in(storage@) == auth_of_items(all),
        decreases n - i,
    {
        if let Some(found) = find_auth_of_item(object.key_at(i), object.value_at(i)) {
            return Some(found);
        }
        assert(all.skip(i as int).skip(1) =~= all.skip(i + 1));
        i += 1;
    }
    None
}

// ---------------------------------------------------------------------------
// The session
// ---------------------------------------------------------------------------

/// The keys of what the page stored.
pub open spec fn stored_keys(storage: JsonView) -> Seq<JsonView> {
    match storage {
        JsonView::Object(members) => members.map_values(
            |m: (Seq<char>, JsonView)| JsonView::Text(m.0),
        ),
        _ => Seq::empty(),
    }
}

/// The members of a captured session.
pub open spec fn session_members(
    cookie: Seq<char>,
    bearer: Option<Seq<char>>,
    user_agent: Seq<char>,
    keys: Seq<JsonView>,
) -> Members {
    seq![
        ("cookie"@, JsonView::Text(cookie)),
        ("bearer"@, responses_store::text_or_null(bearer)),
        ("user_agent"@, JsonView::Text(user_agent)),
        ("local_storage_keys"@, JsonView::Array(keys)),
    ]
}

/// The session that the replies of the browser give.
pub open spec fn captured(cookies: JsonView, storage: JsonView, agent: Option<JsonView>) -> Result<
    JsonView,
    ErrorView,
> {
    match cookie_header_of(cookies) {
        Err(error) => Err(error),
        Ok(cookie) => Ok(
            JsonView::object(
                session_members(
                    cookie,
                    bearer_in(storage_of(storage)),
                    agent_of(agent),
                    stored_keys(storage_of(storage)),
                ),
            ),
        ),
    }
}

/// The keys of what the page stored.
fn list_stored_keys(storage: &Json) -> (r: Vec<Json>)
    ensures
        json::models(r@) == stored_keys(storage@),
{
    let mut out: Vec<Json> = Vec::new();
    if let Json::Object(object) = storage {
        let n = object.len();
        let mut i: usize = 0;
        while i < n
            invariant
                i <= n,
                n == object@.len(),
                out@.len() == i,
                forall|k: int| 0 <= k < i ==> (#[trigger] out@[k])@ == JsonView::Text(object@[k].0),
            decreases n - i,
        {
            out.push(Json::text(object.key_at(i)));
            i += 1;
        }
    }
    assert(json::models(out@) =~= stored_keys(storage@));
    out
}

/// The session that the replies of the browser give, as JSON text.
pub fn captured_session(cookies: &Json, storage: &Json, agent: Option<&Json>) -> (r: Result<
    String,
    AdapterError,
>)
    ensures
        match captured(cookies@, storage@, views::of_option(agent)) {
            Ok(session) => r matches Ok(s) && s@ == json::compact(session),
            Err(error) => r matches Err(e) && e@ == error,
        },
{
    let cookie = match cookie_header(cookies) {
        Ok(cookie) => cookie,
        Err(error) => {
            return Err(error);
        },
    };
    let stored = page_storage(storage);
    let bearer = find_deepseek_bearer(&stored);
    let keys = list_stored_keys(&stored);
    let user_agent = browser_agent(agent);
    let ghost listed = json::models(keys@);
    let pairs = vec![
        ("cookie", Json::text(cookie.as_str())),
        ("bearer", Json::optional_text(&bearer)),
        ("user_agent", Json::text(user_agent.as_str())),
        ("local_storage_keys", Json::Array(keys)),
    ];
    assert(json::pairs_view(pairs@) =~= session_members(
        cookie@,
        views::of_option(bearer),
        user_agent@,
        listed,
    ));
    Ok(Json::object(pairs).to_text())
}

/// A captured session is what a client is made of: the value that it is saved as gives
/// its cookie, its bearer and its browser as options.
pub proof fn lemma_captured_session_reads_back(
    cookie: Seq<char>,
    bearer: Option<Seq<char>>,
    user_agent: Seq<char>,
    keys: Seq<JsonView>,
    raw: Seq<char>,
)
    ensures
        ({
            let value = JsonView::object(session_members(cookie, bearer, user_agent, keys));
            let options = client::saved_options(raw, Some(value));
            &&& client::options_in(value) == Some(options)
            &&& options.cookie == cookie
            &&& options.bearer == bearer
            &&& options.user_agent == Some(user_agent)
            &&& options.last_session_id is None
            &&& options.last_parent_message_id is None
        }),
{
    let pairs = session_members(cookie, bearer, user_agent, keys);
    reveal_strlit("cookie");
    reveal_strlit("bearer");
    reveal_strlit("user_agent");
    reveal_strlit("local_storage_keys");
    reveal_strlit("last_session_id");
    reveal_strlit("last_parent_message_id");
    assert("cookie"@[0] != "bearer"@[0]);
    assert("cookie"@.len() == 6 && "bearer"@.len() == 6 && "user_agent"@.len() == 10
        && "local_storage_keys"@.len() == 18 && "last_session_id"@.len() == 15
        && "last_parent_message_id"@.len() == 22);
    assert forall|i: int, j: int| 0 <= i < j < pairs.len() implies (#[trigger] pairs[i]).0 != (
    #[trigger] pairs[j]).0 by {}
    json::lemma_lookup_collected(pairs, 0);
    json::lemma_lookup_collected(pairs, 1);
    json::lemma_lookup_collected(pairs, 2);
    json::lemma_lookup_not_collected(pairs, "last_session_id"@);
    json::lemma_lookup_not_collected(pairs, "last_parent_message_id"@);
}

/// What a session is saved as: JSON in its indented form, anything else as it is.
pub open spec fn saved_form(session: Seq<char>) -> Seq<char> {
    match json::parsed(session) {
        Some(value) => json::pretty(value),
        None => session,
    }
}

/// What a session is saved as.
pub fn normalize_deepseek_session_for_storage(session: &str) -> (r: String)
    ensures
        r@ == saved_form(session@),
{
    match json::parse_json(session) {
        Some(value) => value.to_pretty_text(),
        None => session.to_owned(),
    }
}

/// The session that a request asks to be saved.
pub open spec fn given_session(payload: JsonView) -> Result<Seq<char>, ErrorView> {
    match payload.text_at("session"@) {
        Some(session) if !text::blank(session) => Ok(text::trimmed(session)),
        _ => Err(ErrorView::InvalidRequest("session is required"@)),
    }
}

/// The session that a request asks to be saved.
pub fn session_to_save(payload: &Json) -> (r: Result<String, AdapterError>)
    ensures
        views::of_result(r) == given_session(payload@),
{
    if let Some(session) = payload.text_at("session") {
        if !text::is_blank(session) {
            return Ok(text::trim_str(session));
        }
    }
    Err(AdapterError::InvalidRequest("session is required".to_owned()))
}

} // verus!
