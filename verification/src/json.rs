//! JSON values.
//!
//! `Json` holds a value as plain data; `JsonView` is its mathematical model.
//! Parsing and rendering are `serde_json`'s: a text is read into a
//! `serde_json::Value` and taken apart level by level, and a `Json` is put
//! together level by level into a `serde_json::Value` that is then written out.
use vstd::prelude::*;

use crate::text;
use crate::views;

verus! {

/// A JSON value. A number that is no 64-bit integer is given by the text that
/// it is written as. The members of an object stand in ascending order of their
/// keys, each key once.
pub enum JsonView {
    Null,
    Bool(bool),
    Integer(int),
    Float(Seq<char>),
    Text(Seq<char>),
    Array(Seq<JsonView>),
    Object(Seq<(Seq<char>, JsonView)>),
}

/// The members of an object.
pub type Members = Seq<(Seq<char>, JsonView)>;

/// Whether the keys ascend, so that each stands once.
pub open spec fn keys_ascend(members: Members) -> bool {
    forall|i: int, j: int|
        0 <= i < j < members.len() ==> text::precedes(
            (#[trigger] members[i]).0,
            (#[trigger] members[j]).0,
        )
}

/// The value of the first member with this key.
pub open spec fn lookup(members: Members, key: Seq<char>) -> Option<JsonView>
    decreases members.len(),
{
    if members.len() == 0 {
        None
    } else if members[0].0 == key {
        Some(members[0].1)
    } else {
        lookup(members.skip(1), key)
    }
}

/// The members with `key` set to `value`, at the place of the key's order.
pub open spec fn inserted(members: Members, key: Seq<char>, value: JsonView) -> Members
    decreases members.len(),
{
    if members.len() == 0 {
        seq![(key, value)]
    } else if members[0].0 == key {
        seq![(key, value)] + members.skip(1)
    } else if text::precedes(key, members[0].0) {
        seq![(key, value)] + members
    } else {
        seq![members[0]] + inserted(members.skip(1), key, value)
    }
}

/// The members that come of setting each pair in turn.
pub open spec fn collected(pairs: Members) -> Members
    decreases pairs.len(),
{
    if pairs.len() == 0 {
        Seq::empty()
    } else {
        inserted(
            collected(pairs.take(pairs.len() - 1)),
            pairs[pairs.len() - 1].0,
            pairs[pairs.len() - 1].1,
        )
    }
}

/// The first item from `i` on whose index is written as `token`.
pub open spec fn item_named(items: Seq<JsonView>, token: Seq<char>, i: int) -> Option<JsonView>
    decreases items.len() - i,
{
    if i < 0 || i >= items.len() {
        None
    } else if text::decimal(i as nat) == token {
        Some(items[i])
    } else {
        item_named(items, token, i + 1)
    }
}

/// How many arrays and objects are nested in each other at most.
pub open spec fn depth(value: JsonView) -> nat
    decreases value,
{
    match value {
        JsonView::Array(items) => 1 + deepest_item(items),
        JsonView::Object(members) => 1 + deepest_member(members),
        _ => 0,
    }
}

/// The greatest depth of an item.
pub open spec fn deepest_item(items: Seq<JsonView>) -> nat
    decreases items,
{
    if items.len() == 0 {
        0
    } else {
        let rest = deepest_item(items.subrange(0, items.len() - 1));
        let last = depth(items[items.len() - 1]);
        if rest < last {
            last
        } else {
            rest
        }
    }
}

/// The greatest depth of a member's value.
pub open spec fn deepest_member(members: Members) -> nat
    decreases members,
{
    if members.len() == 0 {
        0
    } else {
        let rest = deepest_member(members.subrange(0, members.len() - 1));
        let last = depth(members[members.len() - 1].1);
        if rest < last {
            last
        } else {
            rest
        }
    }
}

/// Whether every number in the value is an integer.
pub open spec fn integral(value: JsonView) -> bool
    decreases value,
{
    match value {
        JsonView::Float(_) => false,
        JsonView::Array(items) => forall|i: int| 0 <= i < items.len() ==> integral(#[trigger] items[i]),
        JsonView::Object(members) => forall|i: int|
            0 <= i < members.len() ==> integral((#[trigger] members[i]).1),
        _ => true,
    }
}

/// The key that `serde_json` keeps for itself: an object in which it is written first is
/// not read as an object.
pub const RESERVED_KEY: &'static str = "$serde_json::private::RawValue";

/// Whether no object in the value has the reserved key before all others.
pub open spec fn unreserved(value: JsonView) -> bool
    decreases value,
{
    match value {
        JsonView::Array(items) => forall|i: int|
            0 <= i < items.len() ==> unreserved(#[trigger] items[i]),
        JsonView::Object(members) => {
            &&& members.len() > 0 ==> members[0].0 != RESERVED_KEY@
            &&& forall|i: int| 0 <= i < members.len() ==> unreserved((#[trigger] members[i]).1)
        },
        _ => true,
    }
}

/// Whether the text that a value is written as is sure to read back as the value: its
/// numbers are integers, no object in it begins with the reserved key, and it nests no
/// more than 127 levels.
pub open spec fn reads_back(value: JsonView) -> bool {
    &&& integral(value)
    &&& unreserved(value)
    &&& depth(value) <= 127
}

/// Whether a text is in braces, as an object is written.
pub open spec fn braced(s: Seq<char>) -> bool {
    s.len() >= 2 && s[0] == '{' && s[s.len() - 1] == '}'
}

/// The number of the member with this key, if it is one that `u64` holds.
pub open spec fn integer_at(value: JsonView, key: Seq<char>) -> Option<u64> {
    match value.get(key) {
        Some(member) => member.as_u64(),
        None => None,
    }
}

impl JsonView {
    /// The object that comes of setting each pair in turn.
    pub open spec fn object(pairs: Members) -> JsonView {
        JsonView::Object(collected(pairs))
    }

    /// The object without members.
    pub open spec fn empty_object() -> JsonView {
        JsonView::Object(Seq::empty())
    }

    /// The member of an object with this key.
    pub open spec fn get(self, key: Seq<char>) -> Option<JsonView> {
        match self {
            JsonView::Object(members) => lookup(members, key),
            _ => None,
        }
    }

    /// The text of a string.
    pub open spec fn as_text(self) -> Option<Seq<char>> {
        match self {
            JsonView::Text(s) => Some(s),
            _ => None,
        }
    }

    /// The value of a boolean.
    pub open spec fn as_bool(self) -> Option<bool> {
        match self {
            JsonView::Bool(b) => Some(b),
            _ => None,
        }
    }

    /// The value of an unsigned integer.
    pub open spec fn as_u64(self) -> Option<u64> {
        match self {
            JsonView::Integer(n) => if 0 <= n <= u64::MAX {
                Some(n as u64)
            } else {
                None
            },
            _ => None,
        }
    }

    /// The value of an integer that fits in 64 bits with a sign.
    pub open spec fn as_i64(self) -> Option<i64> {
        match self {
            JsonView::Integer(n) => if i64::MIN <= n <= i64::MAX {
                Some(n as i64)
            } else {
                None
            },
            _ => None,
        }
    }

    /// The items of an array.
    pub open spec fn as_array(self) -> Option<Seq<JsonView>> {
        match self {
            JsonView::Array(items) => Some(items),
            _ => None,
        }
    }

    /// The members of an object.
    pub open spec fn as_object(self) -> Option<Members> {
        match self {
            JsonView::Object(members) => Some(members),
            _ => None,
        }
    }

    /// The text of the member with this key, if it is a string.
    pub open spec fn text_at(self, key: Seq<char>) -> Option<Seq<char>> {
        match self.get(key) {
            Some(value) => value.as_text(),
            None => None,
        }
    }

    /// The part of the value that one token of a pointer leads to.
    pub open spec fn step(self, token: Seq<char>) -> Option<JsonView> {
        match self {
            JsonView::Object(members) => lookup(members, token),
            JsonView::Array(items) => item_named(items, token, 0),
            _ => None,
        }
    }

    /// The part of the value that a pointer with these tokens leads to.
    pub open spec fn pointer(self, tokens: Seq<Seq<char>>) -> Option<JsonView>
        decreases tokens.len(),
    {
        if tokens.len() == 0 {
            Some(self)
        } else {
            match self.step(tokens[0]) {
                Some(next) => next.pointer(tokens.skip(1)),
                None => None,
            }
        }
    }

    /// The text that a pointer leads to, if it leads to a string.
    pub open spec fn text_under(self, tokens: Seq<Seq<char>>) -> Option<Seq<char>> {
        match self.pointer(tokens) {
            Some(value) => value.as_text(),
            None => None,
        }
    }
}

// ---------------------------------------------------------------------------
// Values
// ---------------------------------------------------------------------------

/// A number that is no 64-bit integer, as `serde_json` holds it.
#[derive(Debug, PartialEq, Eq)]
pub struct FloatNumber {
    raw: serde_json::Value,
}

impl FloatNumber {
    #[verifier::type_invariant]
    closed spec fn well_formed(self) -> bool {
        value_contents(self.raw) matches JsonView::Float(_)
    }

    /// The text that the number is written as.
    pub closed spec fn written(self) -> Seq<char> {
        match value_contents(self.raw) {
            JsonView::Float(s) => s,
            _ => Seq::empty(),
        }
    }
}

/// An integer below zero.
#[derive(Debug, Clone, Copy, PartialEq, Eq)]
pub struct NegativeNumber {
    n: i64,
}

impl NegativeNumber {
    #[verifier::type_invariant]
    closed spec fn well_formed(self) -> bool {
        self.n < 0
    }

    /// The integer.
    pub closed spec fn value(self) -> int {
        self.n as int
    }

    /// The integer.
    pub fn get(self) -> (r: i64)
        ensures
            r == self.value(),
            r < 0,
    {
        proof {
            use_type_invariant(&self);
        }
        self.n
    }
}

/// A JSON value. Each integer has one form: it is unsigned unless it is below zero.
#[derive(Debug, PartialEq, Eq)]
pub enum Json {
    Null,
    Bool(bool),
    Unsigned(u64),
    Negative(NegativeNumber),
    Float(FloatNumber),
    Text(String),
    Array(Vec<Json>),
    Object(JsonObject),
}

/// The members of a JSON object, in ascending order of their keys.
#[derive(Debug, PartialEq, Eq)]
pub struct JsonObject {
    members: Vec<(String, Json)>,
}

impl Json {
    /// The mathematical model of the value.
    pub open spec fn model(self) -> JsonView
        decreases self,
    {
        match self {
            Json::Null => JsonView::Null,
            Json::Bool(b) => JsonView::Bool(b),
            Json::Unsigned(n) => JsonView::Integer(n as int),
            Json::Negative(n) => JsonView::Integer(n.value()),
            Json::Float(x) => JsonView::Float(x.written()),
            Json::Text(s) => JsonView::Text(s@),
            Json::Array(items) => JsonView::Array(models(items@)),
            Json::Object(object) => JsonView::Object(object.model()),
        }
    }
}

/// The models of a list of values.
pub open spec fn models(items: Seq<Json>) -> Seq<JsonView>
    decreases items,
{
    Seq::new(
        items.len(),
        |i: int|
            if 0 <= i < items.len() {
                items[i].model()
            } else {
                JsonView::Null
            },
    )
}

impl JsonObject {
    /// The mathematical model of the members.
    pub closed spec fn model(self) -> Members
        decreases self,
    {
        Seq::new(
            self.members@.len(),
            |i: int|
                if 0 <= i < self.members@.len() {
                    (self.members@[i].0@, self.members@[i].1.model())
                } else {
                    (Seq::empty(), JsonView::Null)
                },
        )
    }

    #[verifier::type_invariant]
    closed spec fn well_formed(self) -> bool {
        keys_ascend(self.model())
    }
}

impl View for Json {
    type V = JsonView;

    open spec fn view(&self) -> JsonView {
        self.model()
    }
}

impl View for JsonObject {
    type V = Members;

    open spec fn view(&self) -> Members {
        self.model()
    }
}

/// `serde_json::Value`, a JSON value as `serde_json` holds it.
#[verifier::external_type_specification]
#[verifier::external_body]
pub struct ExValue(serde_json::Value);

/// What a `serde_json::Value` holds.
pub uninterp spec fn value_contents(value: serde_json::Value) -> JsonView;

/// `<serde_json::Value as Clone>::clone` gives a value that holds the same.
#[verifier::external_body]
fn clone_value(value: &serde_json::Value) -> (r: serde_json::Value)
    ensures
        value_contents(r) == value_contents(*value),
{
    value.clone()
}

/// One level of a `serde_json::Value`, with its parts as they stand in it.
enum ValueLevel<'a> {
    Null,
    Bool(bool),
    Number(Option<u64>, Option<i64>, String),
    Text(&'a String),
    Array(&'a Vec<serde_json::Value>),
    Object(Vec<(&'a String, &'a serde_json::Value)>),
}

/// What each of these values holds.
spec fn contents(items: Seq<serde_json::Value>) -> Seq<JsonView> {
    items.map_values(|value: serde_json::Value| value_contents(value))
}

impl<'a> ValueLevel<'a> {
    /// Whether a value that holds `whole` has this level at its top.
    spec fn tops(self, whole: JsonView) -> bool {
        match self {
            ValueLevel::Null => whole == JsonView::Null,
            ValueLevel::Bool(b) => whole == JsonView::Bool(b),
            ValueLevel::Number(Some(n), _, _) => whole == JsonView::Integer(n as int),
            ValueLevel::Number(None, Some(n), _) => whole == JsonView::Integer(n as int),
            ValueLevel::Number(None, None, s) => whole == JsonView::Float(s@),
            ValueLevel::Text(s) => whole == JsonView::Text(s@),
            ValueLevel::Array(items) => whole == JsonView::Array(contents(items@)),
            ValueLevel::Object(members) => {
                &&& whole == JsonView::Object(
                    members@.map_values(
                        |m: (&'a String, &'a serde_json::Value)| (m.0@, value_contents(*m.1)),
                    ),
                )
                &&& keys_ascend(whole->Object_0)
            },
        }
    }
}

/// Takes one level off a `serde_json::Value`. The variants are told apart; the
/// number is given by `Number::as_u64`, which is there exactly for an integer
/// that is not negative, `Number::as_i64`, which is then there exactly for a
/// negative integer, and the text that the number's `Display` writes; the
/// members of an object come as its map walks them, in ascending order of keys.
#[verifier::external_body]
fn top_level<'a>(value: &'a serde_json::Value) -> (r: ValueLevel<'a>)
    ensures
        r.tops(value_contents(*value)),
{
    match value {
        serde_json::Value::Null => ValueLevel::Null,
        serde_json::Value::Bool(b) => ValueLevel::Bool(*b),
        serde_json::Value::Number(n) => ValueLevel::Number(n.as_u64(), n.as_i64(), n.to_string()),
        serde_json::Value::String(s) => ValueLevel::Text(s),
        serde_json::Value::Array(items) => ValueLevel::Array(items),
        serde_json::Value::Object(map) => ValueLevel::Object(map.iter().collect()),
    }
}

/// The value that a `serde_json::Value` holds.
fn json_of(value: &serde_json::Value) -> (r: Json)
    ensures
        r@ == value_contents(*value),
    decreases value_contents(*value),
{
    let level = top_level(value);
    let ghost whole = value_contents(*value);
    match level {
        ValueLevel::Null => Json::Null,
        ValueLevel::Bool(b) => Json::Bool(b),
        ValueLevel::Number(Some(n), _, _) => Json::Unsigned(n),
        ValueLevel::Number(None, Some(n), _) => Json::integer(n),
        ValueLevel::Number(None, None, _) => Json::Float(FloatNumber { raw: clone_value(value) }),
        ValueLevel::Text(s) => Json::Text(s.clone()),
        ValueLevel::Array(items) => {
            let mut out: Vec<Json> = Vec::new();
            let mut i: usize = 0;
            while i < items.len()
                invariant
                    i <= items@.len(),
                    whole == value_contents(*value),
                    whole == JsonView::Array(contents(items@)),
                    out@.len() == i,
                    forall|k: int| 0 <= k < i ==> (#[trigger] out@[k])@ == value_contents(items@[k]),
                decreases items.len() - i,
            {
                assert(whole->Array_0[i as int] == value_contents(items@[i as int]));
                out.push(json_of(&items[i]));
                i += 1;
            }
            assert(models(out@) =~= contents(items@));
            Json::Array(out)
        },
        ValueLevel::Object(members) => {
            let mut out: Vec<(String, Json)> = Vec::new();
            let mut i: usize = 0;
            while i < members.len()
                invariant
                    i <= members@.len(),
                    whole == value_contents(*value),
                    level.tops(whole),
                    level == ValueLevel::Object(members),
                    out@.len() == i,
                    forall|k: int|
                        0 <= k < i ==> (#[trigger] out@[k]).0@ == members@[k].0@ && out@[k].1@
                            == value_contents(*members@[k].1),
                decreases members.len() - i,
            {
                assert(whole->Object_0[i as int].1 == value_contents(*members@[i as int].1));
                let key = members[i].0;
                let part = members[i].1;
                out.push((key.clone(), json_of(part)));
                i += 1;
            }
            let ghost made = JsonObject { members: out };
            assert(made.model() =~= whole->Object_0);
            Json::Object(JsonObject { members: out })
        },
    }
}

/// One level of a value that is to be put together.
enum NewLevel {
    Null,
    Bool(bool),
    Unsigned(u64),
    Signed(i64),
    Text(String),
    Array(Vec<serde_json::Value>),
    Object(Vec<(String, serde_json::Value)>),
}

/// The members that these pairs of a key and a value give.
spec fn pairs_contents(pairs: Seq<(String, serde_json::Value)>) -> Members {
    pairs.map_values(|m: (String, serde_json::Value)| (m.0@, value_contents(m.1)))
}

impl NewLevel {
    /// What the value holds that has this level at its top.
    spec fn whole(self) -> JsonView {
        match self {
            NewLevel::Null => JsonView::Null,
            NewLevel::Bool(b) => JsonView::Bool(b),
            NewLevel::Unsigned(n) => JsonView::Integer(n as int),
            NewLevel::Signed(n) => JsonView::Integer(n as int),
            NewLevel::Text(s) => JsonView::Text(s@),
            NewLevel::Array(items) => JsonView::Array(contents(items@)),
            NewLevel::Object(members) => JsonView::Object(pairs_contents(members@)),
        }
    }
}

/// Puts a `serde_json::Value` together of its parts, by its variants and their
/// `From` conversions. An object's map holds each key once, in ascending order,
/// so the keys handed over must do so already.
#[verifier::external_body]
fn put_together(level: NewLevel) -> (r: serde_json::Value)
    requires
        level matches NewLevel::Object(members) ==> keys_ascend(pairs_contents(members@)),
    ensures
        value_contents(r) == level.whole(),
{
    match level {
        NewLevel::Null => serde_json::Value::Null,
        NewLevel::Bool(b) => serde_json::Value::Bool(b),
        NewLevel::Unsigned(n) => serde_json::Value::from(n),
        NewLevel::Signed(n) => serde_json::Value::from(n),
        NewLevel::Text(s) => serde_json::Value::String(s),
        NewLevel::Array(items) => serde_json::Value::Array(items),
        NewLevel::Object(members) => serde_json::Value::Object(members.into_iter().collect()),
    }
}

/// The `serde_json::Value` that holds this value.
fn value_of(json: &Json) -> (r: serde_json::Value)
    ensures
        value_contents(r) == json@,
    decreases json@,
{
    match json {
        Json::Null => put_together(NewLevel::Null),
        Json::Bool(b) => put_together(NewLevel::Bool(*b)),
        Json::Unsigned(n) => put_together(NewLevel::Unsigned(*n)),
        Json::Negative(n) => put_together(NewLevel::Signed(n.get())),
        Json::Float(x) => {
            proof {
                use_type_invariant(x);
            }
            clone_value(&x.raw)
        },
        Json::Text(s) => put_together(NewLevel::Text(s.clone())),
        Json::Array(items) => {
            let mut out: Vec<serde_json::Value> = Vec::new();
            let mut i: usize = 0;
            while i < items.len()
                invariant
                    json == Json::Array(*items),
                    i <= items@.len(),
                    out@.len() == i,
                    forall|k: int| 0 <= k < i ==> value_contents(#[trigger] out@[k]) == items@[k]@,
                decreases items.len() - i,
            {
                assert(json@->Array_0[i as int] == items@[i as int]@);
                out.push(value_of(&items[i]));
                i += 1;
            }
            assert(contents(out@) =~= models(items@));
            put_together(NewLevel::Array(out))
        },
        Json::Object(object) => {
            proof {
                use_type_invariant(object);
            }
            let mut out: Vec<(String, serde_json::Value)> = Vec::new();
            let mut i: usize = 0;
            while i < object.members.len()
                invariant
                    json == Json::Object(*object),
                    i <= object.members@.len(),
                    out@.len() == i,
                    forall|k: int|
                        0 <= k < i ==> (#[trigger] out@[k]).0@ == object.members@[k].0@
                            && value_contents(out@[k].1) == object.members@[k].1@,
                decreases object.members.len() - i,
            {
                let member = &object.members[i];
                assert(json@->Object_0[i as int].1 == member.1@);
                out.push((member.0.clone(), value_of(&member.1)));
                i += 1;
            }
            assert(pairs_contents(out@) =~= object.model());
            put_together(NewLevel::Object(out))
        },
    }
}

/// What `serde_json::from_str::<Value>` reads off a text, or the text that its
/// error is written as: that comes where the text is no JSON, or nests more than
/// 127 arrays and objects in each other. An object that begins with the reserved key
/// is read as the JSON that the string behind that key holds.
pub uninterp spec fn reading(text: Seq<char>) -> Result<JsonView, Seq<char>>;

/// The value that a text is as JSON, if it is JSON.
pub open spec fn parsed(text: Seq<char>) -> Option<JsonView> {
    match reading(text) {
        Ok(value) => Some(value),
        Err(_) => None,
    }
}

/// The text that `Display` writes a `serde_json::Value` as.
pub uninterp spec fn compact(value: JsonView) -> Seq<char>;

/// The text that `serde_json::to_string_pretty` writes a value as.
pub uninterp spec fn pretty(value: JsonView) -> Seq<char>;

/// What was read, or the text of the error.
spec fn read_contents(read: Result<serde_json::Value, String>) -> Result<JsonView, Seq<char>> {
    match read {
        Ok(value) => Ok(value_contents(value)),
        Err(error) => Err(error@),
    }
}

/// `serde_json::from_str::<Value>`, with its error as the text that `Display`
/// writes it as.
#[verifier::external_body]
fn read_value(text: &str) -> (r: Result<serde_json::Value, String>)
    ensures
        read_contents(r) == reading(text@),
{
    serde_json::from_str(text).map_err(|error| error.to_string())
}

/// `<serde_json::Value as ToString>::to_string`. What it writes reads back as the
/// same value, unless a number in it is no integer, an object in it begins with the
/// reserved key, or it nests deeper than `serde_json::from_str` follows. An object is
/// written in braces.
#[verifier::external_body]
fn write_value(value: &serde_json::Value) -> (r: String)
    ensures
        r@ == compact(value_contents(*value)),
        reads_back(value_contents(*value)) ==> parsed(r@) == Some(value_contents(*value)),
        value_contents(*value) is Object ==> braced(r@),
{
    value.to_string()
}

/// `serde_json::to_string_pretty` of a `Value`, which has no way to fail. What it
/// writes reads back as the same value, unless a number in it is no integer, an object
/// in it begins with the reserved key, or it nests deeper than `serde_json::from_str`
/// follows.
#[verifier::external_body]
fn write_value_pretty(value: &serde_json::Value) -> (r: String)
    ensures
        r@ == pretty(value_contents(*value)),
        reads_back(value_contents(*value)) ==> parsed(r@) == Some(value_contents(*value)),
{
    serde_json::to_string_pretty(value).unwrap_or_default()
}

/// Reads a JSON text.
pub fn read_json(text: &str) -> (r: Result<Json, String>)
    ensures
        views::of_result(r) == reading(text@),
{
    match read_value(text) {
        Ok(value) => Ok(json_of(&value)),
        Err(error) => Err(error),
    }
}

/// Reads a JSON text, whatever is wrong with one that is none.
pub fn parse_json(text: &str) -> (r: Option<Json>)
    ensures
        views::of_option(r) == parsed(text@),
{
    match read_json(text) {
        Ok(value) => Some(value),
        Err(_) => None,
    }
}

impl Json {
    /// The value as compact JSON text. It reads back as the same value, unless a
    /// number in it is no integer, an object in it begins with the reserved key, or it
    /// nests more than 127 levels. The text of an object is in braces.
    pub fn to_text(&self) -> (r: String)
        ensures
            r@ == compact(self@),
            reads_back(self@) ==> parsed(r@) == Some(self@),
            self@ is Object ==> braced(r@),
    {
        write_value(&value_of(self))
    }

    /// The value as indented JSON text. It reads back as the same value, unless a
    /// number in it is no integer, an object in it begins with the reserved key, or it
    /// nests more than 127 levels.
    pub fn to_pretty_text(&self) -> (r: String)
        ensures
            r@ == pretty(self@),
            reads_back(self@) ==> parsed(r@) == Some(self@),
    {
        write_value_pretty(&value_of(self))
    }
}

/// Looking up a key after `key` was set finds what was set, or what was there.
pub proof fn lemma_lookup_inserted(members: Members, key: Seq<char>, value: JsonView, other: Seq<char>)
    ensures
        lookup(inserted(members, key, value), other) == if other == key {
            Some(value)
        } else {
            lookup(members, other)
        },
    decreases members.len(),
{
    reveal_with_fuel(lookup, 2);
    let after = inserted(members, key, value);
    if members.len() == 0 {
        assert(after.skip(1) =~= Seq::empty());
    } else if members[0].0 == key {
        assert(after.skip(1) =~= members.skip(1));
    } else if text::precedes(key, members[0].0) {
        assert(after.skip(1) =~= members);
    } else {
        lemma_lookup_inserted(members.skip(1), key, value, other);
        assert(after.skip(1) =~= inserted(members.skip(1), key, value));
    }
}

/// Setting a key keeps the keys in ascending order.
pub proof fn lemma_inserted_ascends(members: Members, key: Seq<char>, value: JsonView)
    requires
        keys_ascend(members),
    ensures
        keys_ascend(inserted(members, key, value)),
        forall|k: int|
            0 <= k < inserted(members, key, value).len() ==> (#[trigger] inserted(
                members,
                key,
                value,
            )[k]).0 == key || exists|j: int|
                0 <= j < members.len() && (#[trigger] members[j]).0 == inserted(
                    members,
                    key,
                    value,
                )[k].0,
    decreases members.len(),
{
    let after = inserted(members, key, value);
    if members.len() == 0 {
    } else if members[0].0 == key {
        assert forall|k: int| 0 <= k < after.len() implies (#[trigger] after[k]).0
            == members[k].0 by {}
    } else if text::precedes(key, members[0].0) {
        assert forall|i: int, j: int| 0 <= i < j < after.len() implies text::precedes(
            (#[trigger] after[i]).0,
            (#[trigger] after[j]).0,
        ) by {
            if i == 0 {
                assert(after[j] == members[j - 1]);
                if j > 1 {
                    text::lemma_precedes_transitive(key, members[0].0, members[j - 1].0);
                }
            } else {
                assert(after[i] == members[i - 1]);
                assert(after[j] == members[j - 1]);
            }
        }
        assert forall|k: int| 1 <= k < after.len() implies (#[trigger] after[k]).0
            == members[k - 1].0 by {}
    } else {
        let rest = members.skip(1);
        let tail = inserted(rest, key, value);
        assert forall|i: int, j: int| 0 <= i < j < rest.len() implies text::precedes(
            (#[trigger] rest[i]).0,
            (#[trigger] rest[j]).0,
        ) by {
            assert(rest[i] == members[i + 1]);
            assert(rest[j] == members[j + 1]);
        }
        lemma_inserted_ascends(rest, key, value);
        text::lemma_precedes_total(members[0].0, key);
        assert forall|j: int| 0 <= j < tail.len() implies text::precedes(
            members[0].0,
            (#[trigger] tail[j]).0,
        ) && (tail[j].0 == key || exists|k: int|
            0 <= k < members.len() && (#[trigger] members[k]).0 == tail[j].0) by {
            if tail[j].0 != key {
                let k = choose|k: int| 0 <= k < rest.len() && (#[trigger] rest[k]).0 == tail[j].0;
                assert(rest[k] == members[k + 1]);
            }
        }
        assert forall|i: int, j: int| 0 <= i < j < after.len() implies text::precedes(
            (#[trigger] after[i]).0,
            (#[trigger] after[j]).0,
        ) by {
            assert(after[j] == tail[j - 1]);
            if i > 0 {
                assert(after[i] == tail[i - 1]);
            }
        }
        assert forall|k: int| 0 <= k < after.len() implies (#[trigger] after[k]).0 == key
            || exists|j: int| 0 <= j < members.len() && (#[trigger] members[j]).0 == after[k].0 by {
            if k > 0 {
                assert(after[k] == tail[k - 1]);
            }
        }
    }
}

impl JsonObject {
    /// The object without members.
    pub fn new() -> (r: JsonObject)
        ensures
            r@ == Seq::<(Seq<char>, JsonView)>::empty(),
    {
        let members: Vec<(String, Json)> = Vec::new();
        let ghost made = JsonObject { members };
        assert(made.model() =~= Seq::empty());
        JsonObject { members }
    }

    /// How many members there are. Their keys ascend.
    pub fn len(&self) -> (r: usize)
        ensures
            r == self@.len(),
            keys_ascend(self@),
    {
        proof {
            use_type_invariant(self);
        }
        self.members.len()
    }

    /// The key of the member at this place of the order.
    pub fn key_at(&self, i: usize) -> (r: &str)
        requires
            i < self@.len(),
        ensures
            r@ == self@[i as int].0,
    {
        self.members[i].0.as_str()
    }

    /// The value of the member at this place of the order.
    pub fn value_at(&self, i: usize) -> (r: &Json)
        requires
            i < self@.len(),
        ensures
            r@ == self@[i as int].1,
    {
        &self.members[i].1
    }

    /// The value of the member with this key.
    pub fn get(&self, key: &str) -> (r: Option<&Json>)
        ensures
            views::of_option(r) == lookup(self@, key@),
    {
        let mut i: usize = 0;
        assert(self@.skip(0) =~= self@);
        while i < self.members.len()
            invariant
                i <= self.members@.len(),
                self@.len() == self.members@.len(),
                lookup(self@.skip(i as int), key@) == lookup(self@, key@),
            decreases self.members.len() - i,
        {
            if text::same(self.members[i].0.as_str(), key) {
                return Some(&self.members[i].1);
            }
            assert(self@.skip(i as int).skip(1) =~= self@.skip(i + 1));
            i += 1;
        }
        None
    }

    /// The members with `key` set to `value`.
    pub fn with(self, key: String, value: Json) -> (r: JsonObject)
        ensures
            r@ == inserted(self@, key@, value@),
    {
        proof {
            use_type_invariant(&self);
            lemma_inserted_ascends(self@, key@, value@);
        }
        let ghost before = self@;
        let mut members = self.members;
        let mut i: usize = 0;
        assert(before.skip(0) =~= before);
        assert(before.take(0) + inserted(before.skip(0), key@, value@) =~= inserted(
            before,
            key@,
            value@,
        ));
        while i < members.len() && text::is_before(members[i].0.as_str(), key.as_str())
            invariant
                i <= members@.len(),
                (JsonObject { members }).model() == before,
                before.take(i as int) + inserted(before.skip(i as int), key@, value@) == inserted(
                    before,
                    key@,
                    value@,
                ),
            decreases members.len() - i,
        {
            let ghost rest = before.skip(i as int);
            assert(rest[0] == before[i as int]);
            assert(before[i as int].0 == members@[i as int].0@);
            proof {
                text::lemma_precedes_irreflexive(key@);
                if text::precedes(key@, rest[0].0) {
                    text::lemma_precedes_transitive(key@, rest[0].0, key@);
                }
            }
            assert(rest.skip(1) =~= before.skip(i + 1));
            assert(inserted(rest, key@, value@) =~= seq![rest[0]] + inserted(
                rest.skip(1),
                key@,
                value@,
            ));
            assert(before.take(i + 1) + inserted(before.skip(i + 1), key@, value@) =~= before.take(
                i as int,
            ) + inserted(rest, key@, value@));
            i += 1;
        }
        let ghost rest = before.skip(i as int);
        let ghost done = inserted(before, key@, value@);
        let ghost old_members = members@;
        if i < members.len() && text::same(members[i].0.as_str(), key.as_str()) {
            assert(rest[0] == before[i as int]);
            let ghost k = key@;
            let ghost v = value@;
            members.set(i, (key, value));
            let ghost made = JsonObject { members };
            assert(rest.skip(1) =~= before.skip(i + 1));
            assert(made.model() =~= before.take(i as int) + (seq![(k, v)] + rest.skip(1)));
            JsonObject { members }
        } else {
            let ghost k = key@;
            let ghost v = value@;
            proof {
                if i < members@.len() {
                    assert(rest[0] == before[i as int]);
                    text::lemma_precedes_total(rest[0].0, k);
                }
            }
            members.insert(i, (key, value));
            let ghost made = JsonObject { members };
            assert(made.model() =~= before.take(i as int) + (seq![(k, v)] + rest));
            assert(rest.len() == 0 ==> seq![(k, v)] + rest =~= seq![(k, v)]);
            assert(made.model() =~= done);
            JsonObject { members }
        }
    }
}

/// A copy holds the same value.
impl Clone for Json {
    fn clone(&self) -> (r: Self)
        ensures
            r@ == self@,
        decreases self@,
    {
        match self {
            Json::Null => Json::Null,
            Json::Bool(b) => Json::Bool(*b),
            Json::Unsigned(n) => Json::Unsigned(*n),
            Json::Negative(n) => Json::Negative(*n),
            Json::Float(x) => {
                proof {
                    use_type_invariant(x);
                }
                Json::Float(FloatNumber { raw: clone_value(&x.raw) })
            },
            Json::Text(s) => Json::Text(s.clone()),
            Json::Array(items) => {
                let mut out: Vec<Json> = Vec::new();
                let mut i: usize = 0;
                while i < items.len()
                    invariant
                        self == Json::Array(*items),
                        i <= items@.len(),
                        out@.len() == i,
                        forall|k: int| 0 <= k < i ==> (#[trigger] out@[k])@ == items@[k]@,
                    decreases items.len() - i,
                {
                    assert(self@->Array_0[i as int] == items@[i as int]@);
                    out.push(items[i].clone());
                    i += 1;
                }
                assert(models(out@) =~= models(items@));
                Json::Array(out)
            },
            Json::Object(object) => {
                proof {
                    use_type_invariant(object);
                }
                let mut members: Vec<(String, Json)> = Vec::new();
                let mut i: usize = 0;
                while i < object.members.len()
                    invariant
                        self == Json::Object(*object),
                        i <= object.members@.len(),
                        members@.len() == i,
                        forall|k: int|
                            0 <= k < i ==> (#[trigger] members@[k]).0@ == object.members@[k].0@
                                && members@[k].1@ == object.members@[k].1@,
                    decreases object.members.len() - i,
                {
                    let member = &object.members[i];
                    assert(self@->Object_0[i as int].1 == member.1@);
                    members.push((member.0.clone(), member.1.clone()));
                    i += 1;
                }
                let ghost made = JsonObject { members };
                assert(made.model() =~= object.model());
                Json::Object(JsonObject { members })
            },
        }
    }
}

/// The views of a list of tokens.
pub open spec fn tokens_view(tokens: Seq<&str>) -> Seq<Seq<char>> {
    tokens.map_values(|t: &str| t@)
}

/// The views of a list of token lists.
pub open spec fn paths_view(paths: Seq<Vec<&str>>) -> Seq<Seq<Seq<char>>> {
    paths.map_values(|path: Vec<&str>| tokens_view(path@))
}

/// The members that these pairs of a key and a value stand for.
pub open spec fn pairs_view(pairs: Seq<(&str, Json)>) -> Members {
    pairs.map_values(|m: (&str, Json)| (m.0@, m.1@))
}

impl Json {
    /// A string.
    pub fn text(s: &str) -> (r: Json)
        ensures
            r@ == JsonView::Text(s@),
    {
        Json::Text(s.to_owned())
    }

    /// An integer.
    pub fn integer(n: i64) -> (r: Json)
        ensures
            r@ == JsonView::Integer(n as int),
    {
        if n >= 0 {
            Json::Unsigned(n as u64)
        } else {
            Json::Negative(NegativeNumber { n })
        }
    }

    /// A string, or null if there is none.
    pub fn optional_text(s: &Option<String>) -> (r: Json)
        ensures
            r@ == match views::of_option(*s) {
                Some(t) => JsonView::Text(t),
                None => JsonView::Null,
            },
    {
        match s {
            Some(t) => Json::Text(t.clone()),
            None => Json::Null,
        }
    }

    /// The object that comes of setting each pair in turn.
    pub fn object(pairs: Vec<(&str, Json)>) -> (r: Json)
        ensures
            r@ == JsonView::object(pairs_view(pairs@)),
    {
        let ghost all = pairs_view(pairs@);
        let mut object = JsonObject::new();
        let mut rest = pairs;
        let ghost mut i: int = 0;
        assert(all.take(0) =~= Seq::empty());
        assert(pairs_view(rest@) =~= all.skip(0));
        while rest.len() > 0
            invariant
                0 <= i <= all.len(),
                pairs_view(rest@) == all.skip(i),
                object@ == collected(all.take(i)),
            decreases rest.len(),
        {
            let ghost next = all.take(i + 1);
            let ghost before = rest@;
            assert(all.skip(i).len() == before.len());
            let pair = rest.remove(0);
            assert(pairs_view(before)[0] == (pair.0@, pair.1@));
            assert(next.take(i) =~= all.take(i));
            assert(next[i] == all.skip(i)[0]);
            assert forall|k: int| 0 <= k < rest@.len() implies #[trigger] pairs_view(rest@)[k]
                == all.skip(i + 1)[k] by {
                assert(rest@[k] == before[k + 1]);
                assert(pairs_view(before)[k + 1] == all.skip(i)[k + 1]);
            }
            assert(pairs_view(rest@) =~= all.skip(i + 1));
            object = object.with(pair.0.to_owned(), pair.1);
            proof {
                i = i + 1;
            }
        }
        assert(pairs_view(rest@).len() == 0);
        assert(all.take(i) =~= all);
        Json::Object(object)
    }

    /// The object without members.
    pub fn empty_object() -> (r: Json)
        ensures
            r@ == JsonView::empty_object(),
    {
        Json::Object(JsonObject::new())
    }

    /// The member of an object with this key.
    pub fn get(&self, key: &str) -> (r: Option<&Json>)
        ensures
            views::of_option(r) == self@.get(key@),
    {
        match self {
            Json::Object(object) => object.get(key),
            _ => None,
        }
    }

    /// The text of a string.
    pub fn as_str(&self) -> (r: Option<&str>)
        ensures
            views::of_option(r) == self@.as_text(),
    {
        match self {
            Json::Text(s) => Some(s.as_str()),
            _ => None,
        }
    }

    /// The value of a boolean.
    pub fn as_bool(&self) -> (r: Option<bool>)
        ensures
            r == self@.as_bool(),
    {
        match self {
            Json::Bool(b) => Some(*b),
            _ => None,
        }
    }

    /// The value of an integer that is not negative.
    pub fn as_u64(&self) -> (r: Option<u64>)
        ensures
            r == self@.as_u64(),
    {
        match self {
            Json::Unsigned(n) => Some(*n),
            Json::Negative(n) => {
                proof {
                    use_type_invariant(n);
                }
                None
            },
            _ => None,
        }
    }

    /// The value of an integer that fits in 64 bits with a sign.
    pub fn as_i64(&self) -> (r: Option<i64>)
        ensures
            r == self@.as_i64(),
    {
        match self {
            Json::Unsigned(n) => if *n <= 0x7fff_ffff_ffff_ffff {
                Some(*n as i64)
            } else {
                None
            },
            Json::Negative(n) => Some(n.get()),
            _ => None,
        }
    }

    /// The items of an array.
    pub fn as_array(&self) -> (r: Option<&Vec<Json>>)
        ensures
            r is Some <==> self@.as_array() is Some,
            r matches Some(items) ==> self@.as_array() == Some(models(items@)),
    {
        match self {
            Json::Array(items) => Some(items),
            _ => None,
        }
    }

    /// The members of an object.
    pub fn as_object(&self) -> (r: Option<&JsonObject>)
        ensures
            views::of_option(r) == self@.as_object(),
    {
        match self {
            Json::Object(object) => Some(object),
            _ => None,
        }
    }

    /// The number of the member with this key, if it is one that `u64` holds.
    pub fn u64_at(&self, key: &str) -> (r: Option<u64>)
        ensures
            r == integer_at(self@, key@),
    {
        match self.get(key) {
            Some(member) => member.as_u64(),
            None => None,
        }
    }

    /// The text of the member with this key, if it is a string.
    pub fn text_at(&self, key: &str) -> (r: Option<&str>)
        ensures
            views::of_option(r) == self@.text_at(key@),
    {
        match self.get(key) {
            Some(value) => value.as_str(),
            None => None,
        }
    }

    /// The part of the value that one token of a pointer leads to.
    fn step(&self, token: &str) -> (r: Option<&Json>)
        ensures
            views::of_option(r) == self@.step(token@),
    {
        match self {
            Json::Object(object) => object.get(token),
            Json::Array(items) => {
                let mut i: usize = 0;
                while i < items.len()
                    invariant
                        self == Json::Array(*items),
                        i <= items@.len(),
                        item_named(models(items@), token@, i as int) == item_named(
                            models(items@),
                            token@,
                            0,
                        ),
                    decreases items.len() - i,
                {
                    if text::same(text::decimal_of(i as u64).as_str(), token) {
                        return Some(&items[i]);
                    }
                    i += 1;
                }
                None
            },
            _ => None,
        }
    }

    /// The part of the value that a pointer with these tokens leads to.
    pub fn pointer(&self, tokens: &[&str]) -> (r: Option<&Json>)
        ensures
            views::of_option(r) == self@.pointer(tokens_view(tokens@)),
    {
        let mut here = self;
        let mut i: usize = 0;
        let ghost all = tokens_view(tokens@);
        assert(all.skip(0) =~= all);
        while i < tokens.len()
            invariant
                i <= tokens@.len(),
                all == tokens_view(tokens@),
                here@.pointer(all.skip(i as int)) == self@.pointer(all),
            decreases tokens.len() - i,
        {
            assert(all.skip(i as int)[0] == tokens@[i as int]@);
            assert(all.skip(i as int).skip(1) =~= all.skip(i + 1));
            match here.step(tokens[i]) {
                Some(next) => {
                    here = next;
                },
                None => {
                    return None;
                },
            }
            i += 1;
        }
        Some(here)
    }

    /// The text that a pointer leads to, if it leads to a string.
    pub fn text_under(&self, tokens: &[&str]) -> (r: Option<&str>)
        ensures
            views::of_option(r) == self@.text_under(tokens_view(tokens@)),
    {
        match self.pointer(tokens) {
            Some(value) => value.as_str(),
            None => None,
        }
    }
}

/// A copy of a list of values.
pub fn copied(items: &Vec<Json>) -> (r: Vec<Json>)
    ensures
        models(r@) == models(items@),
{
    let mut out: Vec<Json> = Vec::new();
    let mut i: usize = 0;
    while i < items.len()
        invariant
            i <= items@.len(),
            out@.len() == i,
            forall|k: int| 0 <= k < i ==> (#[trigger] out@[k])@ == items@[k]@,
        decreases items.len() - i,
    {
        out.push(items[i].clone());
        i += 1;
    }
    assert(models(out@) =~= models(items@));
    out
}

/// A pair whose key no other pair has is found by its key.
pub proof fn lemma_lookup_collected(pairs: Members, i: int)
    requires
        0 <= i < pairs.len(),
        forall|a: int, b: int|
            0 <= a < b < pairs.len() ==> (#[trigger] pairs[a]).0 != (#[trigger] pairs[b]).0,
    ensures
        lookup(collected(pairs), pairs[i].0) == Some(pairs[i].1),
    decreases pairs.len(),
{
    let n = pairs.len() - 1;
    let before = pairs.take(n);
    let (key, value) = pairs[n];
    lemma_lookup_inserted(collected(before), key, value, pairs[i].0);
    if i < n {
        assert(before[i] == pairs[i]);
        lemma_lookup_collected(before, i);
    }
}

/// A key that no pair has is not found.
pub proof fn lemma_lookup_not_collected(pairs: Members, key: Seq<char>)
    requires
        forall|a: int| 0 <= a < pairs.len() ==> (#[trigger] pairs[a]).0 != key,
    ensures
        lookup(collected(pairs), key) is None,
    decreases pairs.len(),
{
    if pairs.len() > 0 {
        let n = pairs.len() - 1;
        let before = pairs.take(n);
        assert(pairs[n].0 != key);
        assert forall|a: int| 0 <= a < before.len() implies (#[trigger] before[a]).0 != key by {
            assert(before[a] == pairs[a]);
        }
        lemma_lookup_not_collected(before, key);
        lemma_lookup_inserted(collected(before), pairs[n].0, pairs[n].1, key);
    }
}

/// A member is found by its key.
pub proof fn lemma_lookup_member(members: Members, i: int)
    requires
        keys_ascend(members),
        0 <= i < members.len(),
    ensures
        lookup(members, members[i].0) == Some(members[i].1),
    decreases members.len(),
{
    if i > 0 {
        text::lemma_precedes_irreflexive(members[i].0);
        assert(text::precedes(members[0].0, members[i].0));
        let rest = members.skip(1);
        assert forall|a: int, b: int| 0 <= a < b < rest.len() implies text::precedes(
            (#[trigger] rest[a]).0,
            (#[trigger] rest[b]).0,
        ) by {
            assert(rest[a] == members[a + 1] && rest[b] == members[b + 1]);
        }
        assert(rest[i - 1] == members[i]);
        lemma_lookup_member(rest, i - 1);
    }
}

/// A member is not nested as deep as the object that holds it.
pub proof fn lemma_member_depth(members: Members, i: int)
    requires
        0 <= i < members.len(),
    ensures
        depth(members[i].1) <= deepest_member(members),
    decreases members.len(),
{
    let rest = members.subrange(0, members.len() - 1);
    if i < members.len() - 1 {
        assert(rest[i] == members[i]);
        lemma_member_depth(rest, i);
    }
}

/// What is found by a key is not nested as deep as the object that holds it.
pub proof fn lemma_lookup_depth(members: Members, key: Seq<char>)
    requires
        lookup(members, key) is Some,
    ensures
        depth(lookup(members, key)->0) < depth(JsonView::Object(members)),
{
    lemma_lookup_index(members, key);
    let i = choose|i: int|
        0 <= i < members.len() && lookup(members, key) == Some((#[trigger] members[i]).1);
    lemma_member_depth(members, i);
}

/// What is found by a key is the value of a member.
pub proof fn lemma_lookup_index(members: Members, key: Seq<char>)
    requires
        lookup(members, key) is Some,
    ensures
        exists|i: int|
            0 <= i < members.len() && lookup(members, key) == Some((#[trigger] members[i]).1),
    decreases members.len(),
{
    if members[0].0 == key {
    } else {
        let rest = members.skip(1);
        lemma_lookup_index(rest, key);
        let i = choose|i: int|
            0 <= i < rest.len() && lookup(rest, key) == Some((#[trigger] rest[i]).1);
        assert(members[i + 1] == rest[i]);
    }
}

/// What is found by a key is a member with that key.
pub proof fn lemma_lookup_found(members: Members, key: Seq<char>)
    requires
        lookup(members, key) is Some,
    ensures
        exists|k: int| 0 <= k < members.len() && (#[trigger] members[k]).0 == key,
    decreases members.len(),
{
    if members[0].0 == key {
    } else {
        lemma_lookup_found(members.skip(1), key);
        let k = choose|k: int|
            0 <= k < members.skip(1).len() && (#[trigger] members.skip(1)[k]).0 == key;
        assert(members[k + 1].0 == key);
    }
}

} // verus!
