//! What holds of JSON values: what a key, an index and a path lead to.
use vstd::prelude::*;

use crate::json;
use crate::json::JsonView;
use crate::text;
use crate::text_laws;

verus! {

/// An index in decimal leads to the item there, one past the end to nothing, and what is no
/// number to nothing.
pub proof fn lemma_index(items: Seq<JsonView>, i: nat, word: Seq<char>)
    ensures
        i < items.len() ==> JsonView::Array(items).step(text::decimal(i)) == Some(items[i as int]),
        i >= items.len() ==> JsonView::Array(items).step(text::decimal(i)) is None,
        word.len() == 0 || !('0' <= word[0] <= '9') ==> JsonView::Array(items).step(word) is None,
{
    lemma_index_from(items, i, 0);
    if word.len() == 0 || !('0' <= word[0] <= '9') {
        lemma_no_index(items, word, 0);
    }
}

proof fn lemma_index_from(items: Seq<JsonView>, i: nat, from: int)
    requires
        0 <= from,
    ensures
        from <= i < items.len() ==> json::item_named(items, text::decimal(i), from) == Some(
            items[i as int],
        ),
        i >= items.len() ==> json::item_named(items, text::decimal(i), from) is None,
    decreases items.len() - from,
{
    if from < items.len() {
        text::lemma_decimal_distinct(from as nat, i);
        lemma_index_from(items, i, from + 1);
    }
}

proof fn lemma_no_index(items: Seq<JsonView>, word: Seq<char>, from: int)
    requires
        0 <= from,
        word.len() == 0 || !('0' <= word[0] <= '9'),
    ensures
        json::item_named(items, word, from) is None,
    decreases items.len() - from,
{
    if from < items.len() {
        text_laws::lemma_decimal(from as nat);
        assert('0' <= text::decimal(from as nat)[0] <= '9');
        lemma_no_index(items, word, from + 1);
    }
}

/// A path leads where its first step and the rest of it lead.
pub proof fn lemma_path(value: JsonView, first: Seq<char>, rest: Seq<Seq<char>>)
    ensures
        value.pointer(Seq::empty()) == Some(value),
        value.step(first) matches Some(next) ==> value.pointer(seq![first] + rest) == next.pointer(
            rest,
        ),
        value.step(first) is None ==> value.pointer(seq![first] + rest) is None,
        value is Object ==> value.step(first) == value.get(first),
        !(value is Object) && !(value is Array) ==> value.step(first) is None,
        !(value is Object) ==> value.get(first) is None,
{
    let path = seq![first] + rest;
    assert(path[0] == first);
    assert(path.skip(1) =~= rest);
}

/// A key that is set in an object leads to what it was set to, and the other keys lead where
/// they led before.
pub proof fn lemma_set(members: json::Members, key: Seq<char>, value: JsonView, other: Seq<char>)
    ensures
        JsonView::Object(json::inserted(members, key, value)).get(key) == Some(value),
        other != key ==> JsonView::Object(json::inserted(members, key, value)).get(other)
            == JsonView::Object(members).get(other),
{
    json::lemma_lookup_inserted(members, key, value, key);
    json::lemma_lookup_inserted(members, key, value, other);
}

} // verus!
