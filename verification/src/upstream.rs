//! What a request may ask of its upstream, and what comes back.
use vstd::prelude::*;

use crate::text;
use crate::views;

verus! {

/// What an upstream answered.
pub struct ReplyView {
    pub text: Seq<char>,
    pub reasoning: Option<Seq<char>>,
    pub provider_session_id: Option<Seq<char>>,
}

/// What an upstream answered.
#[derive(Debug, Clone)]
pub struct UpstreamResponse {
    pub text: String,
    pub reasoning: Option<String>,
    pub provider_session_id: Option<String>,
}

impl View for UpstreamResponse {
    type V = ReplyView;

    open spec fn view(&self) -> ReplyView {
        ReplyView {
            text: self.text@,
            reasoning: views::of_option(self.reasoning),
            provider_session_id: views::of_option(self.provider_session_id),
        }
    }
}

/// What one request asks of its upstream.
pub struct OptionsView {
    pub provider: Option<Seq<char>>,
    pub base_url: Option<Seq<char>>,
    pub api_key: Option<Seq<char>>,
    pub deepseek_session: Option<Seq<char>>,
    pub provider_session_id: Option<Seq<char>>,
}

/// What one request asks of its upstream.
#[derive(Debug, Clone)]
pub struct UpstreamRequestOptions {
    pub provider: Option<String>,
    pub base_url: Option<String>,
    pub api_key: Option<String>,
    pub deepseek_session: Option<String>,
    pub provider_session_id: Option<String>,
}

impl View for UpstreamRequestOptions {
    type V = OptionsView;

    open spec fn view(&self) -> OptionsView {
        OptionsView {
            provider: views::of_option(self.provider),
            base_url: views::of_option(self.base_url),
            api_key: views::of_option(self.api_key),
            deepseek_session: views::of_option(self.deepseek_session),
            provider_session_id: views::of_option(self.provider_session_id),
        }
    }
}

impl Default for UpstreamRequestOptions {
    fn default() -> (r: Self)
        ensures
            r@ == (OptionsView {
                provider: None,
                base_url: None,
                api_key: None,
                deepseek_session: None,
                provider_session_id: None,
            }),
    {
        UpstreamRequestOptions {
            provider: None,
            base_url: None,
            api_key: None,
            deepseek_session: None,
            provider_session_id: None,
        }
    }
}

/// What may be shown of what a request asks: its secrets only as being there.
#[derive(Debug)]
pub struct RedactedUpstreamRequestOptions<'a> {
    pub provider: Option<&'a str>,
    pub base_url: Option<&'a str>,
    pub api_key_present: bool,
    pub deepseek_session_present: bool,
    pub provider_session_id: Option<&'a str>,
}

/// What may be shown of what a request asks.
pub struct RedactedView {
    pub provider: Option<Seq<char>>,
    pub base_url: Option<Seq<char>>,
    pub api_key_present: bool,
    pub deepseek_session_present: bool,
    pub provider_session_id: Option<Seq<char>>,
}

impl<'a> View for RedactedUpstreamRequestOptions<'a> {
    type V = RedactedView;

    open spec fn view(&self) -> RedactedView {
        RedactedView {
            provider: views::of_option(self.provider),
            base_url: views::of_option(self.base_url),
            api_key_present: self.api_key_present,
            deepseek_session_present: self.deepseek_session_present,
            provider_session_id: views::of_option(self.provider_session_id),
        }
    }
}

/// Whether a text is there and not blank.
pub open spec fn present(s: Option<Seq<char>>) -> bool {
    s matches Some(s) && !text::blank(s)
}

impl OptionsView {
    /// What may be shown of what a request asks.
    pub open spec fn redacted(self) -> RedactedView {
        RedactedView {
            provider: self.provider,
            base_url: self.base_url,
            api_key_present: present(self.api_key),
            deepseek_session_present: present(self.deepseek_session),
            provider_session_id: self.provider_session_id,
        }
    }
}

/// Of a key and of a session nothing shows but whether they are there: requests that
/// differ in nothing else show alike.
pub proof fn lemma_redacted_hides_secrets(a: OptionsView, b: OptionsView)
    requires
        a.provider == b.provider,
        a.base_url == b.base_url,
        a.provider_session_id == b.provider_session_id,
        present(a.api_key) == present(b.api_key),
        present(a.deepseek_session) == present(b.deepseek_session),
    ensures
        a.redacted() == b.redacted(),
{
}

/// A text that may be missing, as a slice.
pub fn borrowed(s: &Option<String>) -> (r: Option<&str>)
    ensures
        views::of_option(r) == views::of_option(*s),
{
    match s {
        Some(s) => Some(s.as_str()),
        None => None,
    }
}

/// Whether a text is there and not blank.
pub fn is_present(s: &Option<String>) -> (r: bool)
    ensures
        r == present(views::of_option(*s)),
{
    match s {
        Some(s) => !text::is_blank(s.as_str()),
        None => false,
    }
}

/// A text that is there and not blank, trimmed.
pub open spec fn trimmed_if_present(s: Option<Seq<char>>) -> Option<Seq<char>> {
    match s {
        Some(s) if !text::blank(s) => Some(text::trimmed(s)),
        _ => None,
    }
}

/// A text that is there and not blank, trimmed.
pub fn trim_if_present(s: &Option<String>) -> (r: Option<String>)
    ensures
        views::of_option(r) == trimmed_if_present(views::of_option(*s)),
{
    match s {
        Some(s) => if text::is_blank(s.as_str()) {
            None
        } else {
            Some(text::trim_str(s.as_str()))
        },
        None => None,
    }
}

impl UpstreamRequestOptions {
    /// What may be shown of what a request asks.
    pub fn redacted(&self) -> (r: RedactedUpstreamRequestOptions<'_>)
        ensures
            r@ == self@.redacted(),
    {
        RedactedUpstreamRequestOptions {
            provider: borrowed(&self.provider),
            base_url: borrowed(&self.base_url),
            api_key_present: is_present(&self.api_key),
            deepseek_session_present: is_present(&self.deepseek_session),
            provider_session_id: borrowed(&self.provider_session_id),
        }
    }
}

/// What a request asks shows but for its key and its session, of which it shows whether they
/// are there and not blank.
pub proof fn lemma_redacted_shows(options: OptionsView)
    ensures
        ({
            let shown = options.redacted();
            &&& shown.provider == options.provider
            &&& shown.base_url == options.base_url
            &&& shown.provider_session_id == options.provider_session_id
            &&& shown.api_key_present <==> (options.api_key matches Some(key) && !text::blank(key))
            &&& shown.deepseek_session_present <==> (options.deepseek_session matches Some(session)
                && !text::blank(session))
        }),
{
}

} // verus!
