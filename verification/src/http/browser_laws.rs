//! What holds of the controlled browser: which tab is asked, what is asked of it, and what
//! its answers come to.
use vstd::prelude::*;

use crate::error::ErrorView;
use crate::http::browser;
use crate::http::browser::{StepView, TabFit};
use crate::json;
use crate::json::JsonView;
use crate::text;
use crate::text_laws;

verus! {

/// The port is the one that the request gives, or else the one that was opened, or else the
/// usual one.
pub proof fn lemma_port(payload: JsonView, n: int, opened: Option<u16>)
    ensures
        payload.get("port"@) == Some(JsonView::Integer(n)) && 0 <= n <= 65535 ==> browser::port_for(
            payload,
            opened,
        ) == n,
        payload.get("port"@) is None ==> (opened matches Some(port) ==> browser::port_for(
            payload,
            opened,
        ) == port),
        payload.get("port"@) is None && opened is None ==> browser::port_for(payload, opened)
            == 9223,
{
}

/// The browser is told its port and its directory, and opens the chat.
pub proof fn lemma_browser_arguments(port: nat, dir: Seq<char>)
    ensures
        ({
            let all = browser::arguments_for(port, dir);
            &&& all.contains("--remote-debugging-port="@ + text::decimal(port))
            &&& all.contains("--user-data-dir="@ + dir)
            &&& all[all.len() - 1] == "https://chat.deepseek.com/"@
        }),
{
    let all = browser::arguments_for(port, dir);
    assert(all[0] == "--remote-debugging-port="@ + text::decimal(port));
    assert(all[1] == "--user-data-dir="@ + dir);
}

/// The first tab that fits is the one.
proof fn lemma_first_tab(tabs: Seq<JsonView>, fit: TabFit, i: int)
    requires
        0 <= i < tabs.len(),
        browser::fits(tabs[i], fit),
        forall|j: int| 0 <= j < i ==> !browser::fits(#[trigger] tabs[j], fit),
    ensures
        browser::first_fit(tabs, fit) == Some(tabs[i]),
    decreases i,
{
    if i > 0 {
        assert(!browser::fits(tabs[0], fit));
        let rest = tabs.skip(1);
        assert forall|j: int| 0 <= j < i - 1 implies !browser::fits(#[trigger] rest[j], fit) by {
            assert(rest[j] == tabs[j + 1]);
        }
        lemma_first_tab(rest, fit, i - 1);
    }
}

/// Where no tab fits there is none.
proof fn lemma_no_tab(tabs: Seq<JsonView>, fit: TabFit)
    requires
        forall|j: int| 0 <= j < tabs.len() ==> !browser::fits(#[trigger] tabs[j], fit),
    ensures
        browser::first_fit(tabs, fit) is None,
    decreases tabs.len(),
{
    if tabs.len() > 0 {
        assert(!browser::fits(tabs[0], fit));
        let rest = tabs.skip(1);
        assert forall|j: int| 0 <= j < rest.len() implies !browser::fits(#[trigger] rest[j], fit) by {
            assert(rest[j] == tabs[j + 1]);
        }
        lemma_no_tab(rest, fit);
    }
}

/// Whether a tab is a page of the chat.
pub open spec fn shows_chat(tab: JsonView) -> bool {
    tab.get("type"@) == Some(JsonView::Text("page"@)) && (tab.get("url"@) matches Some(
        JsonView::Text(url),
    ) && text::begins(url, "https://chat.deepseek.com"@))
}

/// Whether a tab has the chat in its address.
pub open spec fn mentions_chat(tab: JsonView) -> bool {
    tab.get("url"@) matches Some(JsonView::Text(url)) && text::has(url, "chat.deepseek.com"@)
}

/// The first page of the chat is asked, by the address that it gives. Without one it is the
/// first page with the chat in its address, or else the first tab with it, or else the first
/// of all; without tabs, or without an address, there is nothing to ask.
pub proof fn lemma_tab(tabs: Seq<JsonView>, i: int, address: Seq<char>)
    requires
        0 <= i < tabs.len(),
        ({
            ||| shows_chat(tabs[i]) && forall|j: int| 0 <= j < i ==> !shows_chat(#[trigger] tabs[j])
            ||| {
                &&& forall|j: int| 0 <= j < tabs.len() ==> !shows_chat(#[trigger] tabs[j])
                &&& mentions_chat(tabs[i]) && tabs[i].get("type"@) == Some(JsonView::Text("page"@))
                &&& forall|j: int|
                    0 <= j < i ==> !(mentions_chat(#[trigger] tabs[j]) && tabs[j].get("type"@)
                        == Some(JsonView::Text("page"@)))
            }
            ||| {
                &&& forall|j: int| 0 <= j < tabs.len() ==> !shows_chat(#[trigger] tabs[j])
                &&& forall|j: int|
                    0 <= j < tabs.len() ==> !(mentions_chat(#[trigger] tabs[j]) && tabs[j].get(
                        "type"@,
                    ) == Some(JsonView::Text("page"@)))
                &&& mentions_chat(tabs[i])
                &&& forall|j: int| 0 <= j < i ==> !mentions_chat(#[trigger] tabs[j])
            }
            ||| {
                &&& i == 0
                &&& forall|j: int|
                    0 <= j < tabs.len() ==> !shows_chat(#[trigger] tabs[j]) && !mentions_chat(
                        tabs[j],
                    )
            }
        }),
    ensures
        tabs[i].get("webSocketDebuggerUrl"@) == Some(JsonView::Text(address))
            ==> browser::tab_address(JsonView::Array(tabs)) == Ok::<Seq<char>, ErrorView>(address),
        tabs[i].get("webSocketDebuggerUrl"@) is None ==> browser::tab_address(JsonView::Array(tabs))
            is Err,
        browser::tab_address(JsonView::Array(Seq::empty())) is Err,
{
    assert forall|j: int| 0 <= j < tabs.len() implies browser::fits(#[trigger] tabs[j], TabFit::Own)
        == shows_chat(tabs[j]) by {}
    assert forall|j: int| 0 <= j < tabs.len() implies browser::fits(#[trigger] tabs[j], TabFit::Page)
        == (mentions_chat(tabs[j]) && tabs[j].get("type"@) == Some(JsonView::Text("page"@))) by {}
    assert forall|j: int| 0 <= j < tabs.len() implies browser::fits(#[trigger] tabs[j], TabFit::Near)
        == mentions_chat(tabs[j]) by {}
    if shows_chat(tabs[i]) {
        if forall|j: int| 0 <= j < i ==> !shows_chat(#[trigger] tabs[j]) {
            lemma_first_tab(tabs, TabFit::Own, i);
        }
    } else {
        lemma_no_tab(tabs, TabFit::Own);
        if browser::fits(tabs[i], TabFit::Page) && (forall|j: int|
            0 <= j < i ==> !browser::fits(#[trigger] tabs[j], TabFit::Page)) {
            lemma_first_tab(tabs, TabFit::Page, i);
        } else {
            lemma_no_tab(tabs, TabFit::Page);
            if browser::fits(tabs[i], TabFit::Near) {
                lemma_first_tab(tabs, TabFit::Near, i);
            } else {
                lemma_no_tab(tabs, TabFit::Near);
                lemma_first_tab(tabs, TabFit::Any, i);
            }
        }
    }
    assert(browser::first_fit(Seq::empty(), TabFit::Own) is None);
}

/// A command says its number, its method and its parameters; the cookies are asked for those
/// of the chat, and an expression for its value.
pub proof fn lemma_commands(id: int, method: Seq<char>, params: JsonView, expression: Seq<char>)
    ensures
        ({
            let command = JsonView::object(browser::command_members(id, method, params));
            let query = JsonView::object(browser::cookie_query_members());
            let evaluation = JsonView::object(browser::evaluation_members(expression));
            &&& command.get("id"@) == Some(JsonView::Integer(id))
            &&& command.get("method"@) == Some(JsonView::Text(method))
            &&& command.get("params"@) == Some(params)
            &&& query.get("urls"@) == Some(
                JsonView::Array(seq![JsonView::Text("https://chat.deepseek.com/"@)]),
            )
            &&& evaluation.get("expression"@) == Some(JsonView::Text(expression))
            &&& evaluation.get("returnByValue"@) == Some(JsonView::Bool(true))
        }),
{
    reveal_strlit("id");
    reveal_strlit("method");
    reveal_strlit("params");
    reveal_strlit("urls");
    reveal_strlit("expression");
    reveal_strlit("returnByValue");
    assert("method"@[0] == 'm' && "params"@[0] == 'p');
    let a = browser::command_members(id, method, params);
    assert forall|i: int, j: int| 0 <= i < j < a.len() implies (#[trigger] a[i]).0 != (
    #[trigger] a[j]).0 by {
        assert("id"@.len() == 2 && "method"@.len() == 6 && "params"@.len() == 6);
    }
    json::lemma_lookup_collected(a, 0);
    json::lemma_lookup_collected(a, 1);
    json::lemma_lookup_collected(a, 2);
    let b = browser::cookie_query_members();
    json::lemma_lookup_collected(b, 0);
    let c = browser::evaluation_members(expression);
    assert forall|i: int, j: int| 0 <= i < j < c.len() implies (#[trigger] c[i]).0 != (
    #[trigger] c[j]).0 by {
        assert("expression"@.len() == 10 && "returnByValue"@.len() == 13);
    }
    json::lemma_lookup_collected(c, 0);
    json::lemma_lookup_collected(c, 1);
}

/// An answer with another number, or without one, is waited past. One with the number of the
/// command ends it: with its error if it has one, or else with its result.
pub proof fn lemma_command_answered(id: u64, method: Seq<char>, value: JsonView, other: int)
    ensures
        value.get("id"@) is None ==> browser::step_in(id, method, value) == StepView::Wait,
        value.get("id"@) == Some(JsonView::Integer(other)) && other != id ==> browser::step_in(
            id,
            method,
            value,
        ) == StepView::Wait,
        value.get("id"@) == Some(JsonView::Integer(id as int)) ==> {
            &&& value.get("error"@) matches Some(error) ==> browser::step_in(id, method, value)
                == StepView::Failed(
                ErrorView::Upstream("CDP "@ + method + " failed: "@ + json::compact(error)),
            )
            &&& value.get("error"@) is None ==> (value.get("result"@) matches Some(result)
                ==> browser::step_in(id, method, value) == StepView::Done(result))
            &&& value.get("error"@) is None && value.get("result"@) is None ==> browser::step_in(
                id,
                method,
                value,
            ) == StepView::Done(JsonView::Object(Seq::empty()))
        },
{
}

/// One more cookie of the chat comes behind the others, as its name and its value; one of
/// another site does not.
pub proof fn lemma_cookie(
    cookies: Seq<JsonView>,
    cookie: JsonView,
    domain: Seq<char>,
    name: Seq<char>,
    value: Seq<char>,
)
    requires
        cookie.get("domain"@) == Some(JsonView::Text(domain)),
        cookie.get("name"@) == Some(JsonView::Text(name)),
        cookie.get("value"@) == Some(JsonView::Text(value)),
    ensures
        ({
            let before = browser::cookie_pairs(cookies);
            let after = browser::cookie_pairs(cookies.push(cookie));
            &&& text::has(domain, "deepseek.com"@) ==> after == before.push(name + "="@ + value)
            &&& !text::has(domain, "deepseek.com"@) ==> after == before
            &&& text::has(domain, "deepseek.com"@) && before.len() > 0 ==> text::joined(after, "; "@)
                == text::joined(before, "; "@) + "; "@ + (name + "="@ + value)
        }),
        browser::cookie_pairs(Seq::empty()).len() == 0,
{
    assert(cookies.push(cookie).take(cookies.len() as int) =~= cookies);
    text_laws::lemma_joined(browser::cookie_pairs(cookies), name + "="@ + value, "; "@);
}

/// The cookies of an answer go out as one header, with a semicolon and a space between them,
/// and without any of the chat the login is not finished.
pub proof fn lemma_cookie_header(reply: JsonView, cookies: Seq<JsonView>)
    requires
        reply.get("cookies"@) == Some(JsonView::Array(cookies)),
    ensures
        ({
            let header = text::joined(browser::cookie_pairs(cookies), "; "@);
            &&& !text::blank(header) ==> browser::cookie_header_of(reply) == Ok::<
                Seq<char>,
                ErrorView,
            >(header)
            &&& text::blank(header) ==> browser::cookie_header_of(reply) == Err::<
                Seq<char>,
                ErrorView,
            >(
                ErrorView::Upstream(
                    "DeepSeek cookies were not found. Finish login in the controlled browser, then capture again."@,
                ),
            )
        }),
{
}

/// The value of an expression is the text under the value of the result: of the one that
/// asks who the browser is, it is the browser; of the one that asks what is stored, it is
/// what its JSON says.
pub proof fn lemma_values(reply: JsonView, result: JsonView, said: Seq<char>)
    requires
        reply.get("result"@) == Some(result),
        result.get("value"@) == Some(JsonView::Text(said)),
    ensures
        !text::blank(said) ==> browser::agent_of(Some(reply)) == said,
        browser::agent_of(None) == "Mozilla/5.0"@,
        json::parsed(said) matches Some(storage) ==> browser::storage_of(reply) == storage,
        json::parsed(said) is None ==> browser::storage_of(reply) == JsonView::Object(Seq::empty()),
{
    let path = seq!["result"@, "value"@];
    let p1 = path.skip(1);
    assert(p1[0] == "value"@ && p1.skip(1).len() == 0);
    assert(reply.step("result"@) == Some(result));
    assert(result.step("value"@) == Some(JsonView::Text(said)));
    assert(JsonView::Text(said).pointer(p1.skip(1)) == Some(JsonView::Text(said)));
    assert(result.pointer(p1) == Some(JsonView::Text(said)));
    assert(reply.pointer(path) == result.pointer(p1));
}

/// What is stored as a token is the token, trimmed, if it is not JSON.
pub proof fn lemma_plain_token(raw: Seq<char>)
    ensures
        text::blank(raw) ==> browser::auth_text(raw) is None,
        !text::blank(raw) && text::trimmed(raw)[0] != '{' ==> browser::auth_text(raw) == Some(
            text::trimmed(raw),
        ),
{
}

/// In a stored object the token stands under one of six names, of which the first that
/// gives one counts.
pub proof fn lemma_token_in_object(value: JsonView, length: nat, k: int, raw: Seq<char>)
    requires
        value is Object,
        0 <= k < 6,
        raw.len() < length,
        !text::blank(raw),
        text::trimmed(raw)[0] != '{',
    ensures
        ({
            let names = seq![
                "token"@,
                "access_token"@,
                "jwt"@,
                "value"@,
                "userToken"@,
                "settingsJwt"@,
            ];
            &&& (forall|j: int| 0 <= j < k ==> value.get(#[trigger] names[j]) is None) && value.get(
                names[k],
            ) == Some(JsonView::Text(raw)) ==> browser::auth_in(value, length) == Some(
                text::trimmed(raw),
            )
            &&& (forall|j: int| 0 <= j < 6 ==> value.get(#[trigger] names[j]) is None)
                ==> browser::auth_in(value, length) is None
        }),
{
    let names = browser::auth_keys();
    assert(names.skip(0) =~= names);
    if forall|j: int| 0 <= j < k ==> value.get(#[trigger] names[j]) is None {
        lemma_under_names(value, length, names, 0, k);
        if value.get(names[k]) == Some(JsonView::Text(raw)) {
            assert(browser::auth_in(JsonView::Text(raw), length) == Some(text::trimmed(raw)));
        }
    }
    if forall|j: int| 0 <= j < 6 ==> value.get(#[trigger] names[j]) is None {
        lemma_under_names(value, length, names, 0, 6);
    }
}

proof fn lemma_under_names(
    value: JsonView,
    length: nat,
    names: Seq<Seq<char>>,
    from: int,
    k: int,
)
    requires
        0 <= from <= k <= names.len(),
        value is Object,
        forall|j: int| from <= j < k ==> value.get(#[trigger] names[j]) is None,
    ensures
        browser::auth_under(value, names.skip(from), length) == browser::auth_under(
            value,
            names.skip(k),
            length,
        ),
        k < names.len() ==> names.skip(k)[0] == names[k],
    decreases k - from,
{
    if from < k {
        assert(names.skip(from)[0] == names[from]);
        assert(value.get(names[from]) is None);
        assert(names.skip(from).skip(1) =~= names.skip(from + 1));
        lemma_under_names(value, length, names, from + 1, k);
    }
}

/// The bearer is the user's token, or else that of the settings.
pub proof fn lemma_bearer(storage: JsonView, raw: Seq<char>)
    requires
        storage is Object,
        !text::blank(raw),
        text::trimmed(raw)[0] != '{',
    ensures
        storage.get("userToken"@) == Some(JsonView::Text(raw)) ==> browser::bearer_in(storage)
            == Some(text::trimmed(raw)),
        storage.get("userToken"@) is None && storage.get("settingsJwt"@) == Some(JsonView::Text(raw))
            ==> browser::bearer_in(storage) == Some(text::trimmed(raw)),
{
    lemma_plain_token(raw);
}

/// A stored text under another name is taken for the bearer if its name speaks of a token or
/// of authorization, or if it looks like one, unless its name shows that it is something
/// else.
pub proof fn lemma_stored_item(key: Seq<char>, raw: Seq<char>)
    requires
        !text::blank(raw),
        text::trimmed(raw)[0] != '{',
    ensures
        ({
            let lower = text::lowered(key);
            let found = browser::auth_of_item(key, JsonView::Text(raw));
            let noise = text::has(lower, "apm"@) || text::has(lower, "tea"@) || text::has(
                lower,
                "aws"@,
            ) || text::has(lower, "smid"@) || text::has(lower, "cache"@) || text::has(
                lower,
                "challenge"@,
            );
            let sign = text::has(lower, "token"@) || text::has(lower, "auth"@) || text::begins(
                text::trimmed_start(raw),
                "eyJ"@,
            );
            &&& noise ==> found is None
            &&& !noise && sign ==> found == Some(text::trimmed(raw))
            &&& !noise && !sign ==> found is None
        }),
{
    lemma_plain_token(raw);
}

/// A session that a request gives is saved trimmed; without one it is refused.
pub proof fn lemma_given_session(payload: JsonView, session: Seq<char>)
    ensures
        payload.get("session"@) == Some(JsonView::Text(session)) && !text::blank(session)
            ==> browser::given_session(payload) == Ok::<Seq<char>, ErrorView>(
            text::trimmed(session),
        ),
        payload.get("session"@) is None || (payload.get("session"@) == Some(JsonView::Text(session))
            && text::blank(session)) ==> browser::given_session(payload) == Err::<
            Seq<char>,
            ErrorView,
        >(ErrorView::InvalidRequest("session is required"@)),
        json::parsed(session) is None ==> browser::saved_form(session) == session,
        json::parsed(session) matches Some(value) ==> browser::saved_form(session) == json::pretty(
            value,
        ),
{
}

/// A captured session holds the cookies, the bearer, the browser and the names of what the
/// page has stored.
pub proof fn lemma_captured(
    cookies: JsonView,
    storage: JsonView,
    agent: Option<JsonView>,
    header: Seq<char>,
    i: int,
)
    requires
        browser::cookie_header_of(cookies) == Ok::<Seq<char>, ErrorView>(header),
    ensures
        browser::captured(cookies, storage, agent) matches Ok(session) && {
            let stored = browser::storage_of(storage);
            &&& session.get("cookie"@) == Some(JsonView::Text(header))
            &&& browser::bearer_in(stored) matches Some(token) ==> session.get("bearer"@) == Some(
                JsonView::Text(token),
            )
            &&& browser::bearer_in(stored) is None ==> session.get("bearer"@) == Some(
                JsonView::Null,
            )
            &&& session.get("user_agent"@) == Some(JsonView::Text(browser::agent_of(agent)))
            &&& session.get("local_storage_keys"@) matches Some(JsonView::Array(keys)) && (
            stored matches JsonView::Object(members) ==> keys.len() == members.len() && (0 <= i
                < members.len() ==> keys[i] == JsonView::Text(members[i].0)))
        },
{
    reveal_strlit("cookie");
    reveal_strlit("bearer");
    reveal_strlit("user_agent");
    reveal_strlit("local_storage_keys");
    assert("cookie"@[0] == 'c' && "bearer"@[0] == 'b');
    let stored = browser::storage_of(storage);
    let pairs = browser::session_members(
        header,
        browser::bearer_in(stored),
        browser::agent_of(agent),
        browser::stored_keys(stored),
    );
    assert forall|a: int, b: int| 0 <= a < b < pairs.len() implies (#[trigger] pairs[a]).0 != (
    #[trigger] pairs[b]).0 by {
        assert("cookie"@.len() == 6 && "bearer"@.len() == 6 && "user_agent"@.len() == 10
            && "local_storage_keys"@.len() == 18);
    }
    json::lemma_lookup_collected(pairs, 0);
    json::lemma_lookup_collected(pairs, 1);
    json::lemma_lookup_collected(pairs, 2);
    json::lemma_lookup_collected(pairs, 3);
}

} // verus!
