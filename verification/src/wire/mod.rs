//! The APIs that clients speak.
use vstd::prelude::*;

use crate::json;
use crate::json::{Json, JsonView};

pub mod chat;
pub mod chat_laws;
pub mod messages;
pub mod messages_laws;
pub mod responses;
pub mod responses_laws;

verus! {

/// An API that clients speak.
#[derive(Debug, Clone, Copy, PartialEq, Eq, Structural)]
pub enum WireMode {
    /// OpenAI's chat completions.
    ChatCompletions,
    /// Anthropic's messages.
    Messages,
    /// OpenAI's responses.
    Responses,
}

/// The text of a member, or this text where there is none.
pub open spec fn text_or(value: JsonView, key: Seq<char>, otherwise: Seq<char>) -> Seq<char> {
    match value.text_at(key) {
        Some(s) => s,
        None => otherwise,
    }
}

/// Whether a member is there and true.
pub open spec fn is_set(value: JsonView, key: Seq<char>) -> bool {
    match value.get(key) {
        Some(member) => member.as_bool() == Some(true),
        None => false,
    }
}

/// The low 32 bits of `n`.
pub open spec fn low_bits(n: u64) -> u32 {
    (n % 0x1_0000_0000) as u32
}

/// A limit on tokens: the low 32 bits of the number under the key, or else under the
/// other key if the first is missing, and 1024 where that is none.
pub open spec fn token_limit(payload: JsonView, key: Seq<char>, other_key: Seq<char>) -> u32 {
    let member = match payload.get(key) {
        Some(member) => Some(member),
        None => payload.get(other_key),
    };
    match member {
        Some(member) => match member.as_u64() {
            Some(n) => low_bits(n),
            None => 1024,
        },
        None => 1024,
    }
}

/// The text of a member, or this text where there is none.
pub fn text_or_else(value: &Json, key: &str, otherwise: &str) -> (r: String)
    ensures
        r@ == text_or(value@, key@, otherwise@),
{
    match value.text_at(key) {
        Some(s) => s.to_owned(),
        None => otherwise.to_owned(),
    }
}

/// The text of a member, if there is one.
pub fn owned_text_at(value: &Json, key: &str) -> (r: Option<String>)
    ensures
        crate::views::of_option(r) == value@.text_at(key@),
{
    match value.text_at(key) {
        Some(s) => Some(s.to_owned()),
        None => None,
    }
}

/// Whether a member is there and true.
pub fn flag(value: &Json, key: &str) -> (r: bool)
    ensures
        r == is_set(value@, key@),
{
    match value.get(key) {
        Some(member) => match member.as_bool() {
            Some(b) => b,
            None => false,
        },
        None => false,
    }
}

/// A limit on tokens.
pub fn read_token_limit(payload: &Json, key: &str, other_key: &str) -> (r: u32)
    ensures
        r == token_limit(payload@, key@, other_key@),
{
    let member = match payload.get(key) {
        Some(member) => Some(member),
        None => payload.get(other_key),
    };
    match member {
        Some(member) => match member.as_u64() {
            Some(n) => (n % 0x1_0000_0000) as u32,
            None => 1024,
        },
        None => 1024,
    }
}

/// A limit on tokens is the number that is given, less what does not fit in 32 bits: under
/// the first key, or else under the second if the first is missing.
pub proof fn lemma_token_limit(
    payload: JsonView,
    key: Seq<char>,
    other_key: Seq<char>,
    high: int,
    low: u32,
)
    requires
        0 <= high < 0x1_0000_0000,
    ensures
        ({
            let given = Some(JsonView::Integer(high * 0x1_0000_0000 + low));
            &&& payload.get(key) == given ==> token_limit(payload, key, other_key) == low
            &&& payload.get(key) is None && payload.get(other_key) == given ==> token_limit(
                payload,
                key,
                other_key,
            ) == low
            &&& payload.get(key) is None && payload.get(other_key) is None ==> token_limit(
                payload,
                key,
                other_key,
            ) == 1024
        }),
{
    let n = high * 0x1_0000_0000 + low;
    assert(n % 0x1_0000_0000 == low) by (nonlinear_arith)
        requires
            n == high * 0x1_0000_0000 + low,
            0 <= low < 0x1_0000_0000,
    ;
    assert(0 <= n <= 0xffff_ffff_ffff_ffff) by (nonlinear_arith)
        requires
            n == high * 0x1_0000_0000 + low,
            0 <= low < 0x1_0000_0000,
            0 <= high < 0x1_0000_0000,
    ;
}

} // verus!
