//! What holds of the client of the web chat: what a saved session comes to, what its requests
//! carry, and which session they belong to.
use vstd::prelude::*;

use crate::error::ErrorView;
use crate::json;
use crate::json::JsonView;
use crate::providers::deepseek_web::client;
use crate::providers::deepseek_web::client::{ClientView, SessionView, Sessions};
use crate::providers::deepseek_web::deltas;
use crate::providers::deepseek_web::pow;
use crate::text;

verus! {

/// A saved session in JSON gives the client its cookie, its bearer and the browser that it
/// names, and goes on with the session and the message that it names. Whatever has no cookie
/// there is taken for the cookie itself.
pub proof fn lemma_client(raw: Seq<char>, value: JsonView, unique: Seq<char>, s: Seq<char>)
    requires
        value is Object,
        value.get("cookie"@) == Some(JsonView::Text(s)),
        value.get("bearer"@) matches Some(member) ==> member is Text,
        value.get("user_agent"@) matches Some(member) ==> member is Text,
        value.get("last_session_id"@) matches Some(member) ==> member is Text,
    ensures
        ({
            let client = client::client_for(raw, Some(value), unique);
            &&& client.cookie == s
            &&& value.get("bearer"@) is None ==> client.bearer is None
            &&& value.get("bearer"@) matches Some(JsonView::Text(bearer)) ==> {
                &&& bearer.len() > 0 && bearer[0] != '{' ==> client.bearer == Some(bearer)
                &&& bearer.len() > 0 && bearer[0] == '{' ==> (json::parsed(bearer) matches Some(
                    inner,
                ) ==> (inner.get("value"@) matches Some(JsonView::Text(token)) ==> client.bearer
                    == Some(token)))
            }
            &&& value.get("user_agent"@) matches Some(JsonView::Text(agent)) ==> client.user_agent
                == agent
            &&& value.get("last_session_id"@) matches Some(JsonView::Text(id)) ==> {
                &&& !text::blank(id) ==> client.session_key() == id
                &&& text::blank(id) ==> client.session_key() == "new-"@ + unique
            }
            &&& value.get("last_session_id"@) is None ==> client.session_key() == "new-"@ + unique
            &&& value.get("last_parent_message_id"@) matches Some(id) ==> (!(id is Null)
                ==> client.parent_message_id_override == Some(id))
            &&& value.get("last_parent_message_id"@) is None
                ==> client.parent_message_id_override is None
        }),
{
}

/// What is no saved session is the cookie of a client that knows nothing else.
pub proof fn lemma_plain_cookie(raw: Seq<char>, read: Option<JsonView>, unique: Seq<char>)
    requires
        read matches Some(value) ==> !(value is Array) && !(value.get("cookie"@) matches Some(
            JsonView::Text(_),
        )),
    ensures
        ({
            let client = client::client_for(raw, read, unique);
            &&& client.cookie == raw
            &&& client.bearer is None
            &&& client.session_key() == "new-"@ + unique
            &&& client.parent_message_id_override is None
        }),
{
}

/// Every request of a client carries its cookie and its browser, says that it is JSON from
/// the chat's own site, and carries its bearer if it has one.
pub proof fn lemma_client_headers(client: ClientView)
    ensures
        ({
            let lines = client::client_headers(client);
            &&& lines.contains(("cookie"@, client.cookie, "cookie"@))
            &&& lines.contains(("user-agent"@, client.user_agent, "user-agent"@))
            &&& lines.contains(("content-type"@, "application/json"@, "content-type"@))
            &&& lines.contains(("origin"@, "https://chat.deepseek.com"@, "origin"@))
            &&& lines.contains(("referer"@, "https://chat.deepseek.com"@, "referer"@))
            &&& lines.contains(("accept"@, "*/*"@, "accept"@))
            &&& client.bearer matches Some(bearer) ==> lines.contains(
                ("authorization"@, "Bearer "@ + bearer, "authorization header"@),
            )
            &&& client.bearer is None ==> forall|i: int|
                0 <= i < lines.len() ==> (#[trigger] lines[i]).0 != "authorization"@
        }),
{
    let lines = client::client_headers(client);
    assert(lines[0] == ("user-agent"@, client.user_agent, "user-agent"@));
    assert(lines[1] == ("accept"@, "*/*"@, "accept"@));
    assert(lines[2] == ("content-type"@, "application/json"@, "content-type"@));
    assert(lines[3] == ("origin"@, "https://chat.deepseek.com"@, "origin"@));
    assert(lines[4] == ("referer"@, "https://chat.deepseek.com"@, "referer"@));
    assert(lines[5] == ("cookie"@, client.cookie, "cookie"@));
    if let Some(bearer) = client.bearer {
        assert(lines[12] == ("authorization"@, "Bearer "@ + bearer, "authorization header"@));
    } else {
        reveal_strlit("authorization");
        reveal_strlit("user-agent");
        reveal_strlit("accept");
        reveal_strlit("content-type");
        reveal_strlit("origin");
        reveal_strlit("referer");
        reveal_strlit("cookie");
        reveal_strlit("x-app-version");
        reveal_strlit("x-client-version");
        reveal_strlit("accept-language");
        reveal_strlit("x-client-locale");
        reveal_strlit("x-client-platform");
        reveal_strlit("x-client-timezone-offset");
        assert("authorization"@.len() == 13 && "authorization"@[1] == 'u');
        let second = seq!['s', 'c', 'o', 'r', 'e', 'o', '-', '-', 'c', '-', '-', '-'];
        assert forall|i: int| 0 <= i < lines.len() implies (#[trigger] lines[i]).0
            != "authorization"@ by {
            assert(lines[i].0[1] == second[i]);
            assert(second[i] != 'u');
        }
    }
}

/// A request for a completion belongs to its session and answers the session's last message,
/// asks for the kind of model that the model's name tells, lets it think or search if the
/// name says so, and says the prompt.
pub proof fn lemma_completion_body(model: Seq<char>, prompt: Seq<char>, session: SessionView)
    ensures
        ({
            let body = JsonView::object(client::completion_members(model, prompt, session));
            let lower = text::lowered(model);
            &&& body.get("chat_session_id"@) == Some(JsonView::Text(session.session_id))
            &&& session.parent_message_id matches Some(id) ==> body.get("parent_message_id"@)
                == Some(id)
            &&& session.parent_message_id is None ==> body.get("parent_message_id"@) == Some(
                JsonView::Null,
            )
            &&& text::has(lower, "vision"@) ==> body.get("model_type"@) == Some(
                JsonView::Text("vision"@),
            )
            &&& !text::has(lower, "vision"@) && (text::has(lower, "expert"@) || text::has(
                lower,
                "pro"@,
            )) ==> body.get("model_type"@) == Some(JsonView::Text("expert"@))
            &&& !text::has(lower, "vision"@) && !text::has(lower, "expert"@) && !text::has(
                lower,
                "pro"@,
            ) ==> body.get("model_type"@) == Some(JsonView::Text("default"@))
            &&& text::byte_len(text::trimmed(prompt)) <= 65536 ==> body.get("prompt"@) == Some(
                JsonView::Text(text::trimmed(prompt)),
            )
            &&& text::has(model, "reasoner"@) || text::has(model, "thinking"@) <==> body.get(
                "thinking_enabled"@,
            ) == Some(JsonView::Bool(true))
            &&& text::has(model, "search"@) <==> body.get("search_enabled"@) == Some(
                JsonView::Bool(true),
            )
            &&& body.get("ref_file_ids"@) == Some(JsonView::Array(Seq::empty()))
            &&& body.get("preempt"@) == Some(JsonView::Bool(false))
        }),
{
    reveal_strlit("chat_session_id");
    reveal_strlit("parent_message_id");
    reveal_strlit("model_type");
    reveal_strlit("prompt");
    reveal_strlit("ref_file_ids");
    reveal_strlit("thinking_enabled");
    reveal_strlit("search_enabled");
    reveal_strlit("preempt");
    let pairs = client::completion_members(model, prompt, session);
    assert forall|i: int, j: int| 0 <= i < j < pairs.len() implies (#[trigger] pairs[i]).0 != (
    #[trigger] pairs[j]).0 by {
        assert("chat_session_id"@.len() == 15 && "parent_message_id"@.len() == 17
            && "model_type"@.len() == 10 && "prompt"@.len() == 6 && "ref_file_ids"@.len() == 12
            && "thinking_enabled"@.len() == 16 && "search_enabled"@.len() == 14 && "preempt"@.len()
            == 7);
    }
    json::lemma_lookup_collected(pairs, 0);
    json::lemma_lookup_collected(pairs, 1);
    json::lemma_lookup_collected(pairs, 2);
    json::lemma_lookup_collected(pairs, 3);
    json::lemma_lookup_collected(pairs, 4);
    json::lemma_lookup_collected(pairs, 5);
    json::lemma_lookup_collected(pairs, 6);
    json::lemma_lookup_collected(pairs, 7);
}

/// A client goes on with the session that is kept for it; where none is, with the one that it
/// was set to, and without either it needs a new one.
pub proof fn lemma_known_session(client: ClientView, sessions: Sessions)
    ensures
        ({
            let key = match client.session_key_override {
                Some(id) => id,
                None => client.runtime_session_key,
            };
            let known = client::known_session_of(client, sessions);
            &&& sessions.dom().contains(key) ==> known == Some(sessions[key])
            &&& !sessions.dom().contains(key) && client.session_key_override is None
                ==> known is None
            &&& !sessions.dom().contains(key) ==> (client.session_key_override matches Some(id)
                ==> (known matches Some(session) && session.session_id == id
                && session.parent_message_id == client.parent_message_id_override))
        }),
{
}

/// The id of a session is the text, but for white space round it, at the first of these
/// places of a reply that holds one: in the data of the chat, in the chat session there, in
/// the data, or in the reply itself.
pub proof fn lemma_session_id(event: JsonView, k: int, id: Seq<char>)
    requires
        0 <= k < 8,
    ensures
        ({
            let places = seq![
                seq!["data"@, "biz_data"@, "id"@],
                seq!["data"@, "biz_data"@, "chat_session_id"@],
                seq!["data"@, "biz_data"@, "session_id"@],
                seq!["data"@, "biz_data"@, "chat_session"@, "id"@],
                seq!["data"@, "biz_data"@, "chat_session"@, "chat_session_id"@],
                seq!["data"@, "id"@],
                seq!["data"@, "chat_session_id"@],
                seq!["id"@],
            ];
            let found = deltas::first_session_id(event, deltas::session_paths());
            &&& (forall|j: int| 0 <= j < k ==> event.pointer(#[trigger] places[j]) is None)
                && event.pointer(places[k]) == Some(JsonView::Text(id)) && !text::blank(id)
                ==> found == Some(text::trimmed(id))
            &&& (forall|j: int| 0 <= j < 8 ==> event.pointer(#[trigger] places[j]) is None)
                ==> found is None
        }),
{
    let paths = deltas::session_paths();
    assert(paths.skip(0) =~= paths);
    if forall|j: int| 0 <= j < k ==> event.pointer(#[trigger] paths[j]) is None {
        lemma_first_session(event, paths, 0, k);
    }
    if forall|j: int| 0 <= j < 8 ==> event.pointer(#[trigger] paths[j]) is None {
        lemma_first_session(event, paths, 0, 8);
    }
}

proof fn lemma_first_session(event: JsonView, paths: Seq<Seq<Seq<char>>>, from: int, k: int)
    requires
        0 <= from <= k <= paths.len(),
        forall|j: int| from <= j < k ==> event.pointer(#[trigger] paths[j]) is None,
    ensures
        deltas::first_session_id(event, paths.skip(from)) == deltas::first_session_id(
            event,
            paths.skip(k),
        ),
        k < paths.len() ==> paths.skip(k)[0] == paths[k],
    decreases k - from,
{
    if from < k {
        assert(paths.skip(from)[0] == paths[from]);
        assert(event.pointer(paths[from]) is None);
        assert(paths.skip(from).skip(1) =~= paths.skip(from + 1));
        lemma_first_session(event, paths, from + 1, k);
    }
}

/// A new session is the one that the reply names, and has no message to answer yet.
pub proof fn lemma_new_session(body: Seq<char>, payload: JsonView, id: Seq<char>)
    requires
        json::reading(body) == Ok::<JsonView, Seq<char>>(payload),
        payload.pointer(seq!["data"@, "biz_data"@, "id"@]) == Some(JsonView::Text(id)),
        !text::blank(id),
    ensures
        client::created_session(body) matches Ok(session) && session.session_id == text::trimmed(id)
            && session.parent_message_id is None,
{
    lemma_session_id(payload, 0, id);
}

/// A secret of which more is known than four characters shows these and no more.
pub proof fn lemma_secret_shown(secret: Seq<char>)
    ensures
        text::blank(secret) ==> client::redacted(secret) == "<empty>"@,
        text::trimmed(secret).len() > 4 ==> client::redacted(secret) == text::trimmed(secret).take(4)
            + "...[redacted]"@,
        0 < text::trimmed(secret).len() <= 4 ==> client::redacted(secret) == text::trimmed(secret)
            + "...[redacted]"@,
{
}

/// A text that is cut off keeps as many characters as it may, and shows that it was cut.
pub proof fn lemma_cut_off(s: Seq<char>, n: int)
    requires
        0 <= n,
    ensures
        text::trimmed(s).len() <= n ==> client::cut_off(s, n) == text::trimmed(s),
        text::trimmed(s).len() > n ==> client::cut_off(s, n).len() == n + 3 && client::cut_off(
            s,
            n,
        ).take(n) == text::trimmed(s).take(n) && client::cut_off(s, n).skip(n) == "..."@,
{
    reveal_strlit("...");
    let t = text::trimmed(s);
    if t.len() > n {
        assert(client::cut_off(s, n).take(n) =~= t.take(n));
        assert(client::cut_off(s, n).skip(n) =~= "..."@);
    }
}

// ---------------------------------------------------------------------------
// Proofs of work
// ---------------------------------------------------------------------------

/// A challenge stands in the data of the chat, in the data, or in the reply itself.
pub proof fn lemma_challenge(payload: JsonView, challenge: JsonView)
    ensures
        ({
            let data = payload.get("data"@);
            let found = pow::challenge_in(payload);
            &&& (data matches Some(data) && data.get("biz_data"@) matches Some(inner) && inner.get(
                "challenge"@,
            ) == Some(challenge)) ==> found == Some(challenge)
            &&& (data matches Some(data) && data is Object && data.get("biz_data"@) is None
                && data.get("challenge"@) == Some(challenge)) ==> found == Some(challenge)
            &&& payload is Object && data is None && payload.get("challenge"@) == Some(challenge)
                ==> found == Some(challenge)
            &&& payload is Object && data is None && payload.get("challenge"@) is None
                ==> found is None
        }),
{
    let deep = seq!["data"@, "biz_data"@, "challenge"@];
    let near = seq!["data"@, "challenge"@];
    let here = seq!["challenge"@];
    let d1 = deep.skip(1);
    let d2 = d1.skip(1);
    assert(d1[0] == "biz_data"@ && d2[0] == "challenge"@ && d2.skip(1).len() == 0);
    let n1 = near.skip(1);
    assert(n1[0] == "challenge"@ && n1.skip(1).len() == 0);
    assert(here.skip(1).len() == 0);
    assert(challenge.pointer(d2.skip(1)) == Some(challenge));
    assert(challenge.pointer(n1.skip(1)) == Some(challenge));
    assert(challenge.pointer(here.skip(1)) == Some(challenge));
    if payload is Object {
        assert(payload.step("data"@) == payload.get("data"@));
        assert(payload.step("challenge"@) == payload.get("challenge"@));
        if let Some(data) = payload.get("data"@) {
            assert(payload.pointer(deep) == data.pointer(d1));
            assert(payload.pointer(near) == data.pointer(n1));
            if data is Object {
                assert(data.step("biz_data"@) == data.get("biz_data"@));
                assert(data.step("challenge"@) == data.get("challenge"@));
                if let Some(inner) = data.get("biz_data"@) {
                    assert(data.pointer(d1) == inner.pointer(d2));
                    if inner.get("challenge"@) is Some {
                        assert(inner.step("challenge"@) == inner.get("challenge"@));
                    }
                }
            }
        } else {
            assert(payload.pointer(deep) is None);
            assert(payload.pointer(near) is None);
        }
    }
}

/// A number solves a challenge if the hash of the salt, the challenge and the number, one
/// after another, begins with as many zero bits as are wanted.
pub proof fn lemma_solves(salt: Seq<char>, target: Seq<char>, bits: int, nonce: u64)
    ensures
        pow::solves(salt, target, bits, nonce) <==> pow::zero_bits(
            pow::sha256(
                vstd::utf8::encode_utf8(salt) + vstd::utf8::encode_utf8(target)
                    + vstd::utf8::encode_utf8(text::decimal(nonce as nat)),
            ),
        ) >= bits,
{
    text::lemma_encode_concat(salt, target);
    text::lemma_encode_concat(salt + target, text::decimal(nonce as nat));
}

/// A zero byte is eight zero bits; the bits before the first one of another byte are those by
/// which it can be shifted and still leave one.
pub proof fn lemma_zero_bits(byte: u8, rest: Seq<u8>)
    ensures
        pow::zero_bits(seq![0u8] + rest) == 8 + pow::zero_bits(rest),
        byte != 0 ==> pow::zero_bits(seq![byte] + rest) < 8 && byte >> ((7 - pow::zero_bits(
            seq![byte] + rest,
        )) as u8) == 1,
{
    assert((seq![0u8] + rest).skip(1) =~= rest);
    assert((seq![byte] + rest)[0] == byte);
    if byte != 0 {
        vstd::std_specs::bits::axiom_u8_leading_zeros(byte);
        let z = vstd::std_specs::bits::u8_leading_zeros(byte) as u8;
        let n = (7 - z) as u8;
        assert(z < 8);
        assert(z < 8 && n == 7 - z && (byte >> n) & 1u8 != 0u8 && byte >> ((n + 1) as u8) == 0
            ==> byte >> n == 1) by (bit_vector);
    }
}

/// A difficulty up to a thousand is the number of bits; a greater one is a number of
/// attempts, and the bits are those by which it can be shifted and still leave one.
pub proof fn lemma_wanted_bits(difficulty: u64)
    ensures
        difficulty <= 1000 ==> pow::wanted_bits(difficulty) == difficulty,
        difficulty > 1000 ==> 0 <= pow::wanted_bits(difficulty) < 64 && difficulty >> (
        pow::wanted_bits(difficulty) as u64) == 1,
{
    if difficulty > 1000 {
        vstd::std_specs::bits::axiom_u64_leading_zeros(difficulty);
        let z = vstd::std_specs::bits::u64_leading_zeros(difficulty) as u64;
        let n = (63 - z) as u64;
        assert(z < 64);
        assert(z < 64 && n == 63 - z && (difficulty >> n) & 1u64 != 0u64 && difficulty >> ((n
            + 1) as u64) == 0 ==> difficulty >> n == 1) by (bit_vector);
    }
}

/// Where the middle of a text is left out, what fits beside the marker is halved: the front
/// is the longest that fits in one half, and the back the longest that fits in the other.
pub proof fn lemma_halves_kept(s: Seq<char>, max_bytes: int)
    requires
        max_bytes >= text::byte_len(client::TRUNCATION_MARKER@),
        text::byte_len(text::trimmed(s)) > max_bytes,
    ensures
        ({
            let t = text::trimmed(s);
            let room = max_bytes - text::byte_len(client::TRUNCATION_MARKER@);
            exists|i: int, j: int|
                {
                    &&& 0 <= i <= t.len()
                    &&& 0 <= j <= t.len()
                    &&& client::middle_truncated(s, max_bytes) == #[trigger] t.take(i)
                        + client::TRUNCATION_MARKER@ + #[trigger] t.skip(j)
                    &&& text::byte_len(t.take(i)) <= room / 2
                    &&& i < t.len() ==> text::byte_len(t.take(i + 1)) > room / 2
                    &&& text::byte_len(t.skip(j)) <= room - room / 2
                    &&& j > 0 ==> text::byte_len(t.skip(j - 1)) > room - room / 2
                }
        }),
{
    let t = text::trimmed(s);
    let room = max_bytes - text::byte_len(client::TRUNCATION_MARKER@);
    client::lemma_front_fit(t, room / 2);
    client::lemma_back_fit(t, room - room / 2);
    let i = client::front_fit(t, room / 2);
    let j = t.len() - client::back_fit(t, room - room / 2);
    assert(client::middle_truncated(s, max_bytes) == t.take(i) + client::TRUNCATION_MARKER@
        + t.skip(j));
}

/// The answer to a challenge says what was hashed and how, that it is signed, and the path
/// that it is for; a challenge that lacks a part is refused, and the search ends after ten
/// million numbers.
pub proof fn lemma_answer_says(target: Seq<char>, salt: Seq<char>, nonce: u64, path: JsonView)
    ensures
        ({
            let answer = JsonView::object(pow::solution(target, salt, nonce, path));
            &&& answer.get("algorithm"@) == Some(JsonView::Text("sha256"@))
            &&& answer.get("challenge"@) == Some(JsonView::Text(target))
            &&& answer.get("salt"@) == Some(JsonView::Text(salt))
            &&& answer.get("answer"@) == Some(JsonView::Integer(nonce as int))
            &&& answer.get("signature"@) == Some(JsonView::Bool(true))
            &&& answer.get("target_path"@) == Some(path)
        }),
        pow::LAST_NONCE == 10_000_000,
{
    reveal_strlit("algorithm");
    reveal_strlit("challenge");
    reveal_strlit("salt");
    reveal_strlit("answer");
    reveal_strlit("signature");
    reveal_strlit("target_path");
    assert("algorithm"@[0] == 'a' && "challenge"@[0] == 'c' && "signature"@[0] == 's');
    let pairs = pow::solution(target, salt, nonce, path);
    assert forall|i: int, j: int| 0 <= i < j < pairs.len() implies (#[trigger] pairs[i]).0 != (
    #[trigger] pairs[j]).0 by {
        assert("algorithm"@.len() == 9 && "challenge"@.len() == 9 && "salt"@.len() == 4
            && "answer"@.len() == 6 && "signature"@.len() == 9 && "target_path"@.len() == 11);
    }
    json::lemma_lookup_collected(pairs, 0);
    json::lemma_lookup_collected(pairs, 1);
    json::lemma_lookup_collected(pairs, 2);
    json::lemma_lookup_collected(pairs, 3);
    json::lemma_lookup_collected(pairs, 4);
    json::lemma_lookup_collected(pairs, 5);
}

/// A challenge without its text, its salt or its difficulty is refused. One that names the
/// hash, in capitals or small letters, is solved here; what another program answers counts
/// if it reports success.
pub proof fn lemma_challenge_refused(
    challenge: JsonView,
    algorithm: Seq<char>,
    answer: JsonView,
    message: Seq<char>,
    status: Seq<char>,
)
    ensures
        challenge.get("challenge"@) is None || challenge.get("salt"@) is None || challenge.get(
            "difficulty"@,
        ) is None ==> pow::sha256_answer(challenge) is Err,
        challenge.get("algorithm"@) == Some(JsonView::Text(algorithm)) ==> (pow::asks_sha256(
            challenge,
        ) <==> text::lowered(algorithm) == "sha256"@),
        challenge.get("algorithm"@) is None ==> !pow::asks_sha256(challenge),
        pow::script_outcome("success"@, answer, Some(message)) == Ok::<JsonView, ErrorView>(answer),
        pow::script_outcome("success"@, answer, None) == Ok::<JsonView, ErrorView>(answer),
        status != "success"@ ==> pow::script_outcome(status, answer, Some(message)) == Err::<
            JsonView,
            ErrorView,
        >(ErrorView::Upstream("PoW solver failed: "@ + message)),
        status != "success"@ ==> pow::script_outcome(status, answer, None) == Err::<
            JsonView,
            ErrorView,
        >(ErrorView::Upstream("PoW solver failed: "@ + "unknown error"@)),
{
    reveal_strlit("sha256");
    assert(text::lowered("sha256"@) =~= "sha256"@);
}

/// A new session is asked for without a character, and a challenge for the path that it is
/// to open.
pub proof fn lemma_small_requests(path: Seq<char>)
    ensures
        JsonView::object(client::session_request_members()).get("character_id"@) == Some(
            JsonView::Null,
        ),
        JsonView::object(client::challenge_request_members(path)).get("target_path"@) == Some(
            JsonView::Text(path),
        ),
{
    json::lemma_lookup_collected(client::session_request_members(), 0);
    json::lemma_lookup_collected(client::challenge_request_members(path), 0);
}

/// Every request of a client says which version of the chat's page it is from, and the
/// language, the platform and the time zone of that page.
pub proof fn lemma_page_headers(client: ClientView)
    ensures
        ({
            let lines = client::client_headers(client);
            &&& lines.contains(("x-app-version"@, "2.0.0"@, "x-app-version"@))
            &&& lines.contains(("x-client-version"@, "2.0.0"@, "x-client-version"@))
            &&& lines.contains(
                ("accept-language"@, "zh-CN,zh;q=0.9,en;q=0.8"@, "accept-language"@),
            )
            &&& lines.contains(("x-client-locale"@, "zh_CN"@, "x-client-locale"@))
            &&& lines.contains(("x-client-platform"@, "web"@, "x-client-platform"@))
            &&& lines.contains(
                ("x-client-timezone-offset"@, "28800"@, "x-client-timezone-offset"@),
            )
        }),
{
    let lines = client::client_headers(client);
    assert(lines[6] == ("x-app-version"@, "2.0.0"@, "x-app-version"@));
    assert(lines[7] == ("x-client-version"@, "2.0.0"@, "x-client-version"@));
    assert(lines[8] == ("accept-language"@, "zh-CN,zh;q=0.9,en;q=0.8"@, "accept-language"@));
    assert(lines[9] == ("x-client-locale"@, "zh_CN"@, "x-client-locale"@));
    assert(lines[10] == ("x-client-platform"@, "web"@, "x-client-platform"@));
    assert(lines[11] == ("x-client-timezone-offset"@, "28800"@, "x-client-timezone-offset"@));
}

/// A client whose session names no browser gives the usual one, and the marker for what was
/// left out says so.
pub proof fn lemma_usual_texts(raw: Seq<char>, value: JsonView, unique: Seq<char>)
    requires
        value is Object,
        value.get("user_agent"@) is None,
    ensures
        client::client_for(raw, Some(value), unique).user_agent
            == "Mozilla/5.0 (Windows NT 10.0; Win64; x64) AppleWebKit/537.36 (KHTML, like Gecko) Chrome/120.0.0.0 Safari/537.36"@,
        client::TRUNCATION_MARKER@
            == "\n\n[truncated middle for deepseek web request budget]\n\n"@,
{
}

} // verus!
