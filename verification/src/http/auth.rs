//! What the headers of a request say: who it is from, and what it asks of its
//! upstream.
use vstd::prelude::*;

use crate::config::{AdapterSettings, SettingsView};
use crate::error::{AdapterError, ErrorView};
use crate::text;
use crate::upstream;
use crate::upstream::{OptionsView, UpstreamRequestOptions};
use crate::views;

verus! {

/// The headers of a request: names in small letters, each once, with their values.
pub open spec fn headers_of(headers: Seq<(String, String)>) -> Seq<(Seq<char>, Seq<char>)> {
    headers.map_values(|h: (String, String)| (h.0@, h.1@))
}

/// The value of a header.
pub open spec fn header_in(headers: Seq<(Seq<char>, Seq<char>)>, name: Seq<char>) -> Option<
    Seq<char>,
> {
    crate::protocol::value_for(headers, name)
}

/// The value of a header that is there and not blank, trimmed.
pub open spec fn header_text(headers: Seq<(Seq<char>, Seq<char>)>, name: Seq<char>) -> Option<
    Seq<char>,
> {
    upstream::trimmed_if_present(header_in(headers, name))
}

/// The key that a request gives as its bearer.
pub open spec fn bearer_in(headers: Seq<(Seq<char>, Seq<char>)>) -> Option<Seq<char>> {
    match header_in(headers, "authorization"@) {
        Some(value) => if text::begins(value, "Bearer "@) {
            Some(text::trimmed(value.skip("Bearer "@.len() as int)))
        } else {
            None
        },
        None => None,
    }
}

/// The key that a request gives as its API key.
pub open spec fn api_key_in(headers: Seq<(Seq<char>, Seq<char>)>) -> Option<Seq<char>> {
    match header_in(headers, "x-api-key"@) {
        Some(value) => Some(text::trimmed(value)),
        None => None,
    }
}

/// Whether a request may be served: the adapter has no key, or the request gives it.
pub open spec fn authorized(key: Seq<char>, headers: Seq<(Seq<char>, Seq<char>)>) -> bool {
    let expected = text::trimmed(key);
    expected.len() == 0 || bearer_in(headers) == Some(expected) || api_key_in(headers) == Some(
        expected,
    )
}

/// What a request asks of its upstream.
pub open spec fn options_in(headers: Seq<(Seq<char>, Seq<char>)>) -> OptionsView {
    OptionsView {
        provider: header_text(headers, "x-upstream-provider"@),
        base_url: header_text(headers, "x-upstream-base-url"@),
        api_key: header_text(headers, "x-upstream-api-key"@),
        deepseek_session: header_text(headers, "x-deepseek-session"@),
        provider_session_id: None,
    }
}

/// The value of a header.
pub fn header_value<'a>(headers: &'a Vec<(String, String)>, name: &str) -> (r: Option<&'a str>)
    ensures
        views::of_option(r) == header_in(headers_of(headers@), name@),
{
    let ghost all = headers_of(headers@);
    let mut i: usize = 0;
    assert(all.skip(0) =~= all);
    while i < headers.len()
        invariant
            i <= headers@.len(),
            all == headers_of(headers@),
            header_in(all.skip(i as int), name@) == header_in(all, name@),
        decreases headers.len() - i,
    {
        if text::same(headers[i].0.as_str(), name) {
            return Some(headers[i].1.as_str());
        }
        assert(all.skip(i as int).skip(1) =~= all.skip(i + 1));
        i += 1;
    }
    None
}

/// The value of a header that is there and not blank, trimmed.
pub fn header_string(headers: &Vec<(String, String)>, name: &str) -> (r: Option<String>)
    ensures
        views::of_option(r) == header_text(headers_of(headers@), name@),
{
    match header_value(headers, name) {
        Some(value) => if text::is_blank(value) {
            None
        } else {
            Some(text::trim_str(value))
        },
        None => None,
    }
}

/// What a request asks of its upstream.
pub fn upstream_options_from_headers(headers: &Vec<(String, String)>) -> (r: UpstreamRequestOptions)
    ensures
        r@ == options_in(headers_of(headers@)),
{
    UpstreamRequestOptions {
        provider: header_string(headers, "x-upstream-provider"),
        base_url: header_string(headers, "x-upstream-base-url"),
        api_key: header_string(headers, "x-upstream-api-key"),
        deepseek_session: header_string(headers, "x-deepseek-session"),
        provider_session_id: None,
    }
}

/// Whether a request may be served.
pub fn verify_auth(settings: &AdapterSettings, headers: &Vec<(String, String)>) -> (r: Result<
    (),
    AdapterError,
>)
    ensures
        r is Ok <==> authorized(settings@.adapter_api_key, headers_of(headers@)),
        r matches Err(error) ==> error@ == ErrorView::Unauthorized,
{
    let expected = text::trim_str(settings.adapter_api_key.as_str());
    proof {
        reveal_strlit("");
        reveal_strlit("Bearer ");
        assert(expected@.len() == 0 ==> expected@ =~= ""@);
    }
    if text::same(expected.as_str(), "") {
        return Ok(());
    }
    if let Some(value) = header_value(headers, "authorization") {
        let chars = text::chars_of(value);
        if text::begins_with_text(chars.as_slice(), "Bearer ") {
            let bearer = text::string_of(text::trim(text::after(chars.as_slice(), 7)));
            if text::same(bearer.as_str(), expected.as_str()) {
                return Ok(());
            }
        }
    }
    if let Some(value) = header_value(headers, "x-api-key") {
        if text::same(text::trim_str(value).as_str(), expected.as_str()) {
            return Ok(());
        }
    }
    Err(AdapterError::Unauthorized)
}

/// A request that gives neither key is not served by an adapter that has one.
pub proof fn lemma_no_key_no_service(key: Seq<char>, headers: Seq<(Seq<char>, Seq<char>)>)
    requires
        !text::blank(key),
        bearer_in(headers) is None,
        api_key_in(headers) is None,
    ensures
        !authorized(key, headers),
{
}

/// A header has the value that the first line of its name gives.
pub proof fn lemma_header(headers: Seq<(Seq<char>, Seq<char>)>, i: int)
    requires
        0 <= i < headers.len(),
        forall|k: int| 0 <= k < i ==> (#[trigger] headers[k]).0 != headers[i].0,
    ensures
        header_in(headers, headers[i].0) == Some(headers[i].1),
    decreases i,
{
    if i > 0 {
        assert(headers[0].0 != headers[i].0);
        let rest = headers.skip(1);
        assert forall|k: int| 0 <= k < i - 1 implies (#[trigger] rest[k]).0 != rest[i - 1].0 by {
            assert(rest[k] == headers[k + 1]);
        }
        lemma_header(rest, i - 1);
    }
}

/// A header that no line gives has no value.
pub proof fn lemma_no_header(headers: Seq<(Seq<char>, Seq<char>)>, name: Seq<char>)
    requires
        forall|k: int| 0 <= k < headers.len() ==> (#[trigger] headers[k]).0 != name,
    ensures
        header_in(headers, name) is None,
    decreases headers.len(),
{
    if headers.len() > 0 {
        let rest = headers.skip(1);
        assert forall|k: int| 0 <= k < rest.len() implies (#[trigger] rest[k]).0 != name by {
            assert(rest[k] == headers[k + 1]);
        }
        assert(headers[0].0 != name);
        lemma_no_header(rest, name);
    }
}

/// An adapter without a key serves every request. One with a key serves those that give it
/// as their bearer or as their API key, but for white space round it, and no others.
pub proof fn lemma_key_serves(
    key: Seq<char>,
    given: Seq<char>,
    headers: Seq<(Seq<char>, Seq<char>)>,
)
    ensures
        text::blank(key) ==> authorized(key, headers),
        header_in(headers, "authorization"@) == Some("Bearer "@ + given) && text::trimmed(given)
            == text::trimmed(key) ==> authorized(key, headers),
        header_in(headers, "x-api-key"@) == Some(given) && text::trimmed(given) == text::trimmed(
            key,
        ) ==> authorized(key, headers),
        !text::blank(key) && text::trimmed(given) != text::trimmed(key) && (header_in(
            headers,
            "authorization"@,
        ) is None || header_in(headers, "authorization"@) == Some("Bearer "@ + given)) && (
        header_in(headers, "x-api-key"@) is None || header_in(headers, "x-api-key"@) == Some(given))
            ==> !authorized(key, headers),
        !text::blank(key) && header_in(headers, "x-api-key"@) is None && (header_in(
            headers,
            "authorization"@,
        ) matches Some(value) && !text::begins(value, "Bearer "@)) ==> !authorized(key, headers),
{
    let value = "Bearer "@ + given;
    assert(value.take("Bearer "@.len() as int) =~= "Bearer "@);
    assert(value.skip("Bearer "@.len() as int) =~= given);
}

/// What a request asks of its upstream is what its headers of these names say, but for white
/// space round it, and what no header says, or only with white space, is not asked.
pub proof fn lemma_options_asked(headers: Seq<(Seq<char>, Seq<char>)>)
    ensures
        ({
            let options = options_in(headers);
            &&& header_in(headers, "x-upstream-provider"@) matches Some(value) ==> (!text::blank(
                value,
            ) ==> options.provider == Some(text::trimmed(value)))
            &&& header_in(headers, "x-upstream-base-url"@) matches Some(value) ==> (!text::blank(
                value,
            ) ==> options.base_url == Some(text::trimmed(value)))
            &&& header_in(headers, "x-upstream-api-key"@) matches Some(value) ==> (!text::blank(
                value,
            ) ==> options.api_key == Some(text::trimmed(value)))
            &&& header_in(headers, "x-deepseek-session"@) matches Some(value) ==> (!text::blank(
                value,
            ) ==> options.deepseek_session == Some(text::trimmed(value)))
            &&& !(header_in(headers, "x-upstream-provider"@) matches Some(value) && !text::blank(
                value,
            )) ==> options.provider is None
            &&& !(header_in(headers, "x-upstream-base-url"@) matches Some(value) && !text::blank(
                value,
            )) ==> options.base_url is None
            &&& !(header_in(headers, "x-upstream-api-key"@) matches Some(value) && !text::blank(
                value,
            )) ==> options.api_key is None
            &&& !(header_in(headers, "x-deepseek-session"@) matches Some(value) && !text::blank(
                value,
            )) ==> options.deepseek_session is None
            &&& options.provider_session_id is None
        }),
{
}

} // verus!
