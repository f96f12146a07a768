//! What the adapter is set to.
use vstd::prelude::*;

use crate::table::Table;
use crate::text;
use crate::text::CharClass;

verus! {

/// One alias: a name and the model that it stands for, with `=` between. Without
/// either it is none.
pub open spec fn alias_in(part: Seq<char>) -> Option<(Seq<char>, Seq<char>)> {
    match text::class_from(part, CharClass::Only('='), 0) {
        None => None,
        Some(i) => {
            let name = text::trimmed(part.take(i));
            let model = text::trimmed(part.skip(i + 1));
            if name.len() > 0 && model.len() > 0 {
                Some((name, model))
            } else {
                None
            }
        },
    }
}

/// The aliases with one more, if it is one.
pub open spec fn with_alias(
    aliases: Map<Seq<char>, Seq<char>>,
    part: Seq<char>,
) -> Map<Seq<char>, Seq<char>> {
    match alias_in(part) {
        Some((name, model)) => aliases.insert(name, model),
        None => aliases,
    }
}

/// The aliases, with those of a list behind them: commas stand between its parts, and
/// of two for one name the last counts.
pub open spec fn with_aliases(
    aliases: Map<Seq<char>, Seq<char>>,
    list: Seq<char>,
) -> Map<Seq<char>, Seq<char>>
    decreases list.len(),
{
    match text::class_from(list, CharClass::Only(','), 0) {
        None => with_alias(aliases, list),
        Some(i) => {
            proof {
                text::lemma_class_from(list, CharClass::Only(','), 0);
            }
            with_aliases(with_alias(aliases, list.take(i)), list.skip(i + 1))
        },
    }
}

/// Adds an alias, if it is one.
fn add_alias(aliases: &mut Table<String>, part: &[char])
    ensures
        final(aliases)@ == with_alias(old(aliases)@, part@),
{
    if let Some(i) = text::find_class(part, CharClass::Only('=')) {
        let name = text::trim(text::before(part, i));
        let model = text::trim(text::after(part, i + 1));
        if name.len() > 0 && model.len() > 0 {
            aliases.insert(text::string_of(name), text::string_of(model));
        }
    }
}

/// The aliases of a list such as `a=b,c=d`.
pub fn parse_model_aliases(list: &str) -> (r: Table<String>)
    ensures
        r@ == with_aliases(Map::empty(), list@),
{
    let chars = text::chars_of(list);
    let mut rest = chars.as_slice();
    let mut aliases: Table<String> = Table::new();
    loop
        invariant
            with_aliases(aliases@, rest@) == with_aliases(Map::empty(), list@),
        decreases rest@.len(),
    {
        match text::find_class(rest, CharClass::Only(',')) {
            Some(i) => {
                add_alias(&mut aliases, text::before(rest, i));
                rest = text::after(rest, i + 1);
            },
            None => {
                add_alias(&mut aliases, rest);
                return aliases;
            },
        }
    }
}

/// What the handling of requests depends on.
#[derive(Debug)]
pub struct AdapterSettings {
    pub adapter_api_key: String,
    pub upstream_model: String,
    pub model_aliases: Table<String>,
    pub max_tool_definitions: usize,
}

/// What the handling of requests depends on.
pub struct SettingsView {
    pub adapter_api_key: Seq<char>,
    pub upstream_model: Seq<char>,
    pub model_aliases: Map<Seq<char>, Seq<char>>,
    pub max_tool_definitions: nat,
}

impl View for AdapterSettings {
    type V = SettingsView;

    open spec fn view(&self) -> SettingsView {
        SettingsView {
            adapter_api_key: self.adapter_api_key@,
            upstream_model: self.upstream_model@,
            model_aliases: self.model_aliases@,
            max_tool_definitions: self.max_tool_definitions as nat,
        }
    }
}

/// A part of a list sets its name, trimmed, to its model, trimmed, and the rest of the list
/// goes on from there; a part without either sets nothing.
pub proof fn lemma_alias_set(
    aliases: Map<Seq<char>, Seq<char>>,
    name: Seq<char>,
    model: Seq<char>,
    rest: Seq<char>,
)
    requires
        forall|k: int| 0 <= k < name.len() ==> #[trigger] name[k] != '=' && name[k] != ',',
        forall|k: int| 0 <= k < model.len() ==> #[trigger] model[k] != ',',
    ensures
        ({
            let part = name + "="@ + model;
            let now = if text::blank(name) || text::blank(model) {
                aliases
            } else {
                aliases.insert(text::trimmed(name), text::trimmed(model))
            };
            &&& with_aliases(aliases, part) == now
            &&& with_aliases(aliases, part + ","@ + rest) == with_aliases(now, rest)
            &&& with_aliases(aliases, name) == aliases
            &&& with_aliases(aliases, name + ","@ + rest) == with_aliases(aliases, rest)
        }),
{
    reveal_strlit("=");
    reveal_strlit(",");
    let part = name + "="@ + model;
    let n = name.len() as int;
    let equals = CharClass::Only('=');
    let comma = CharClass::Only(',');
    assert(part[n] == '=');
    assert forall|k: int| 0 <= k < n implies !equals.holds(#[trigger] part[k]) by {
        assert(part[k] == name[k]);
    }
    text::lemma_class_at(part, equals, n);
    assert(part.take(n) =~= name);
    assert(part.skip(n + 1) =~= model);
    assert forall|k: int| 0 <= k < part.len() implies !comma.holds(#[trigger] part[k]) by {
        if k < n {
            assert(part[k] == name[k]);
        } else if k > n {
            assert(part[k] == model[k - n - 1]);
        }
    }
    lemma_split_off(aliases, part, rest);
    text::lemma_class_from(name, equals, 0);
    if let Some(k) = text::class_from(name, equals, 0) {
        assert(name[k] == '=');
    }
    lemma_split_off(aliases, name, rest);
}

/// A list is its first part and the rest behind the comma.
proof fn lemma_split_off(aliases: Map<Seq<char>, Seq<char>>, part: Seq<char>, rest: Seq<char>)
    requires
        forall|k: int| 0 <= k < part.len() ==> !CharClass::Only(',').holds(#[trigger] part[k]),
    ensures
        with_aliases(aliases, part) == with_alias(aliases, part),
        with_aliases(aliases, part + ","@ + rest) == with_aliases(with_alias(aliases, part), rest),
{
    reveal_strlit(",");
    let comma = CharClass::Only(',');
    let n = part.len() as int;
    text::lemma_class_from(part, comma, 0);
    if let Some(k) = text::class_from(part, comma, 0) {
        assert(!comma.holds(part[k]));
    }
    let list = part + ","@ + rest;
    assert(list[n] == ',');
    assert forall|k: int| 0 <= k < n implies !comma.holds(#[trigger] list[k]) by {
        assert(list[k] == part[k]);
    }
    text::lemma_class_at(list, comma, n);
    assert(list.take(n) =~= part);
    assert(list.skip(n + 1) =~= rest);
}

} // verus!
