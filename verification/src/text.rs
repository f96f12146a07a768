//! Text as a sequence of characters.
//!
//! Every contract of this crate that speaks of text speaks of `Seq<char>`, the
//! view that `str` and `String` have. The specification functions here say what
//! trimming, searching, case folding, splitting into lines and counting bytes
//! mean on such a sequence; the executable functions compute them on `&[char]`.
use vstd::prelude::*;
use vstd::slice::slice_subrange;

verus! {

/// `String::push` appends the character at the end.
pub assume_specification[ std::string::String::push ](s: &mut std::string::String, c: char)
    ensures
        final(s)@ == old(s)@.push(c),
;

/// The characters with the Unicode property `White_Space`.
pub open spec fn whitespace(c: char) -> bool {
    ||| '\u{9}' <= c <= '\u{d}'
    ||| c == '\u{20}'
    ||| c == '\u{85}'
    ||| c == '\u{a0}'
    ||| c == '\u{1680}'
    ||| '\u{2000}' <= c <= '\u{200a}'
    ||| c == '\u{2028}'
    ||| c == '\u{2029}'
    ||| c == '\u{202f}'
    ||| c == '\u{205f}'
    ||| c == '\u{3000}'
}

/// A set of characters that can be taken off an end of a text.
#[derive(Clone, Copy)]
pub enum CharClass {
    /// White space.
    Whitespace,
    /// One character.
    Only(char),
    /// Carriage return and line feed.
    LineEnd,
}

impl CharClass {
    /// Whether the class holds `c`.
    pub open spec fn holds(self, c: char) -> bool {
        match self {
            CharClass::Whitespace => whitespace(c),
            CharClass::Only(d) => c == d,
            CharClass::LineEnd => c == '\r' || c == '\n',
        }
    }
}

/// `s` without its longest prefix of characters in `class`.
pub open spec fn dropped_front(s: Seq<char>, class: CharClass) -> Seq<char>
    decreases s.len(),
{
    if s.len() > 0 && class.holds(s[0]) {
        dropped_front(s.skip(1), class)
    } else {
        s
    }
}

/// `s` without its longest suffix of characters in `class`.
pub open spec fn dropped_back(s: Seq<char>, class: CharClass) -> Seq<char>
    decreases s.len(),
{
    if s.len() > 0 && class.holds(s[s.len() - 1]) {
        dropped_back(s.take(s.len() - 1), class)
    } else {
        s
    }
}

/// `s` without the suffix `p`, taken off as often as it stands there.
pub open spec fn without_suffix(s: Seq<char>, p: Seq<char>) -> Seq<char>
    decreases s.len(),
{
    if p.len() > 0 && ends(s, p) {
        without_suffix(s.take(s.len() - p.len()), p)
    } else {
        s
    }
}

/// `s` without leading white space.
pub open spec fn trimmed_start(s: Seq<char>) -> Seq<char> {
    dropped_front(s, CharClass::Whitespace)
}

/// `s` without trailing white space.
pub open spec fn trimmed_end(s: Seq<char>) -> Seq<char> {
    dropped_back(s, CharClass::Whitespace)
}

/// `s` without leading and trailing white space.
pub open spec fn trimmed(s: Seq<char>) -> Seq<char> {
    trimmed_end(trimmed_start(s))
}

/// Whether nothing is left of `s` once it is trimmed.
pub open spec fn blank(s: Seq<char>) -> bool {
    trimmed(s).len() == 0
}

/// Whether `s` begins with `p`.
pub open spec fn begins(s: Seq<char>, p: Seq<char>) -> bool {
    p.len() <= s.len() && s.take(p.len() as int) == p
}

/// Whether `s` ends with `p`.
pub open spec fn ends(s: Seq<char>, p: Seq<char>) -> bool {
    p.len() <= s.len() && s.skip(s.len() - p.len()) == p
}

/// Whether `p` stands in `s` at index `i`.
pub open spec fn occurs(s: Seq<char>, p: Seq<char>, i: int) -> bool {
    0 <= i && i + p.len() <= s.len() && s.subrange(i, i + p.len()) == p
}

/// Whether `p` stands anywhere in `s`.
pub open spec fn has(s: Seq<char>, p: Seq<char>) -> bool {
    exists|i: int| occurs(s, p, i)
}

/// The first index from `i` on at which `p` stands in `s`.
pub open spec fn first_from(s: Seq<char>, p: Seq<char>, i: int) -> Option<int>
    decreases s.len() + 1 - i,
{
    if i < 0 || i + p.len() > s.len() {
        None
    } else if occurs(s, p, i) {
        Some(i)
    } else {
        first_from(s, p, i + 1)
    }
}

/// The first index at which `p` stands in `s`.
pub open spec fn first(s: Seq<char>, p: Seq<char>) -> Option<int> {
    first_from(s, p, 0)
}

/// The first index from `i` on of a character in `class`.
pub open spec fn class_from(s: Seq<char>, class: CharClass, i: int) -> Option<int>
    decreases s.len() - i,
{
    if i < 0 || i >= s.len() {
        None
    } else if class.holds(s[i]) {
        Some(i)
    } else {
        class_from(s, class, i + 1)
    }
}

/// The last index of `c` in `s`.
pub open spec fn last_index(s: Seq<char>, c: char) -> Option<int>
    decreases s.len(),
{
    if s.len() == 0 {
        None
    } else if s[s.len() - 1] == c {
        Some(s.len() - 1)
    } else {
        last_index(s.take(s.len() - 1), c)
    }
}

/// `c`, or the small letter of an ASCII capital.
pub open spec fn lower_char(c: char) -> char {
    if 'A' <= c <= 'Z' {
        (c as u32 + 32) as char
    } else {
        c
    }
}

/// `c`, or the capital of a small ASCII letter.
pub open spec fn upper_char(c: char) -> char {
    if 'a' <= c <= 'z' {
        (c as u32 - 32) as char
    } else {
        c
    }
}

/// `s` with its ASCII capitals made small.
pub open spec fn lowered(s: Seq<char>) -> Seq<char> {
    s.map_values(|c: char| lower_char(c))
}

/// `s` with its small ASCII letters made capitals.
pub open spec fn uppered(s: Seq<char>) -> Seq<char> {
    s.map_values(|c: char| upper_char(c))
}

/// Whether `a` and `b` differ at most in the case of ASCII letters.
pub open spec fn same_ignoring_case(a: Seq<char>, b: Seq<char>) -> bool {
    lowered(a) == lowered(b)
}

/// The parts one after another with `sep` between neighbours.
pub open spec fn joined(parts: Seq<Seq<char>>, sep: Seq<char>) -> Seq<char>
    decreases parts.len(),
{
    if parts.len() == 0 {
        Seq::empty()
    } else if parts.len() == 1 {
        parts[0]
    } else {
        joined(parts.take(parts.len() - 1), sep) + sep + parts[parts.len() - 1]
    }
}

/// A line without the carriage return before its line feed.
pub open spec fn without_return(s: Seq<char>) -> Seq<char> {
    if s.len() > 0 && s[s.len() - 1] == '\r' {
        s.take(s.len() - 1)
    } else {
        s
    }
}

/// The lines of `s`. A line feed ends a line, together with a carriage return
/// right before it; the last line may lack its line feed.
pub open spec fn lines(s: Seq<char>) -> Seq<Seq<char>>
    decreases s.len(),
{
    if s.len() == 0 {
        Seq::empty()
    } else {
        match class_from(s, CharClass::Only('\n'), 0) {
            Some(i) => if 0 <= i < s.len() {
                seq![without_return(s.take(i))] + lines(s.skip(i + 1))
            } else {
                Seq::empty()
            },
            None => seq![s],
        }
    }
}

/// The decimal digit `d`.
pub open spec fn digit(d: nat) -> char {
    (('0' as u32) + d) as char
}

/// `n` in decimal, without leading zeros.
pub open spec fn decimal(n: nat) -> Seq<char>
    decreases n,
{
    if n < 10 {
        seq![digit(n)]
    } else {
        decimal(n / 10).push(digit(n % 10))
    }
}

/// `n` in decimal, with a minus sign before a negative number.
pub open spec fn signed_decimal(n: int) -> Seq<char> {
    if n < 0 {
        seq!['-'] + decimal((-n) as nat)
    } else {
        decimal(n as nat)
    }
}

/// The number of bytes that `c` takes in UTF-8.
pub open spec fn width(c: char) -> nat {
    if c <= '\u{7f}' {
        1
    } else if c <= '\u{7ff}' {
        2
    } else if c <= '\u{ffff}' {
        3
    } else {
        4
    }
}

/// The number of bytes that `s` takes in UTF-8.
pub open spec fn byte_len(s: Seq<char>) -> nat {
    vstd::utf8::encode_utf8(s).len()
}

/// Whether `a` stands before `b` in the order of code points.
pub open spec fn precedes(a: Seq<char>, b: Seq<char>) -> bool
    decreases a.len(),
{
    if b.len() == 0 {
        false
    } else if a.len() == 0 {
        true
    } else if a[0] != b[0] {
        a[0] < b[0]
    } else {
        precedes(a.skip(1), b.skip(1))
    }
}

/// No text stands before itself.
pub proof fn lemma_precedes_irreflexive(a: Seq<char>)
    ensures
        !precedes(a, a),
    decreases a.len(),
{
    if a.len() > 0 {
        lemma_precedes_irreflexive(a.skip(1));
    }
}

/// Of two different texts one stands before the other.
pub proof fn lemma_precedes_total(a: Seq<char>, b: Seq<char>)
    ensures
        a == b || precedes(a, b) || precedes(b, a),
    decreases a.len(),
{
    if a.len() > 0 && b.len() > 0 && a[0] == b[0] {
        lemma_precedes_total(a.skip(1), b.skip(1));
        if a.skip(1) == b.skip(1) {
            assert(a =~= seq![a[0]] + a.skip(1));
            assert(b =~= seq![b[0]] + b.skip(1));
        }
    } else if a.len() == 0 && b.len() == 0 {
        assert(a =~= b);
    }
}

/// The order of texts is transitive.
pub proof fn lemma_precedes_transitive(a: Seq<char>, b: Seq<char>, c: Seq<char>)
    requires
        precedes(a, b),
        precedes(b, c),
    ensures
        precedes(a, c),
    decreases a.len(),
{
    if a.len() > 0 && a[0] == b[0] && b[0] == c[0] {
        lemma_precedes_transitive(a.skip(1), b.skip(1), c.skip(1));
    }
}

/// The first index of a character in `class` holds one, and no earlier one does.
pub proof fn lemma_class_from(s: Seq<char>, class: CharClass, i: int)
    requires
        0 <= i,
    ensures
        class_from(s, class, i) matches Some(k) ==> i <= k < s.len() && class.holds(s[k]) && (
        forall|j: int| i <= j < k ==> !class.holds(#[trigger] s[j])),
        class_from(s, class, i) is None ==> (forall|j: int|
            i <= j < s.len() ==> !class.holds(#[trigger] s[j])),
    decreases s.len() - i,
{
    if i < s.len() && !class.holds(s[i]) {
        lemma_class_from(s, class, i + 1);
    }
}

/// What is left after taking characters off the front is no longer than before.
pub proof fn lemma_dropped_front_len(s: Seq<char>, class: CharClass)
    ensures
        dropped_front(s, class).len() <= s.len(),
    decreases s.len(),
{
    if s.len() > 0 && class.holds(s[0]) {
        lemma_dropped_front_len(s.skip(1), class);
    }
}

/// Different numbers are written differently.
pub proof fn lemma_decimal_distinct(a: nat, b: nat)
    ensures
        decimal(a) == decimal(b) ==> a == b,
    decreases a + b,
{
    if decimal(a) == decimal(b) {
        lemma_decimal_last(a);
        lemma_decimal_last(b);
        if a >= 10 && b >= 10 {
            lemma_decimal_distinct(a / 10, b / 10);
        } else if a >= 10 {
            lemma_decimal_last(a / 10);
        } else if b >= 10 {
            lemma_decimal_last(b / 10);
        }
    }
}

/// The last digit of a number is its remainder by ten, and the others are its quotient.
proof fn lemma_decimal_last(n: nat)
    ensures
        decimal(n).len() > 0,
        decimal(n)[decimal(n).len() - 1] as u32 == '0' as u32 + n % 10,
        n < 10 ==> decimal(n).len() == 1,
        n >= 10 ==> decimal(n).take(decimal(n).len() - 1) == decimal(n / 10),
    decreases n,
{
    if n >= 10 {
        lemma_decimal_last(n / 10);
        assert(decimal(n).take(decimal(n).len() - 1) =~= decimal(n / 10));
    }
}

/// The last index of a character holds it, and no later one does.
pub proof fn lemma_last_index(s: Seq<char>, c: char)
    ensures
        last_index(s, c) matches Some(k) ==> 0 <= k < s.len() && s[k] == c && (forall|j: int|
            k < j < s.len() ==> #[trigger] s[j] != c),
        last_index(s, c) is None ==> (forall|j: int| 0 <= j < s.len() ==> #[trigger] s[j] != c),
    decreases s.len(),
{
    if s.len() > 0 && s[s.len() - 1] != c {
        let front = s.take(s.len() - 1);
        lemma_last_index(front, c);
        assert forall|j: int| 0 <= j < s.len() - 1 implies s[j] == front[j] by {}
    }
}

/// What is left after taking characters off the back is no longer than before.
pub proof fn lemma_dropped_back_len(s: Seq<char>, class: CharClass)
    ensures
        dropped_back(s, class).len() <= s.len(),
    decreases s.len(),
{
    if s.len() > 0 && class.holds(s[s.len() - 1]) {
        lemma_dropped_back_len(s.take(s.len() - 1), class);
    }
}

/// A trimmed text is no longer than it was.
pub proof fn lemma_trimmed_len(s: Seq<char>)
    ensures
        trimmed(s).len() <= s.len(),
{
    lemma_dropped_front_len(s, CharClass::Whitespace);
    lemma_dropped_back_len(trimmed_start(s), CharClass::Whitespace);
}

/// White space at the end does not matter to a trimmed text.
pub proof fn lemma_trimmed_without_last(s: Seq<char>)
    requires
        s.len() > 0,
        whitespace(s[s.len() - 1]),
    ensures
        trimmed(s.take(s.len() - 1)) == trimmed(s),
    decreases s.len(),
{
    let front = s.take(s.len() - 1);
    if !whitespace(s[0]) {
        assert(front[0] == s[0]);
    } else if s.len() == 1 {
        assert(front =~= Seq::empty());
        assert(s.skip(1) =~= Seq::empty());
    } else {
        lemma_trimmed_without_last(s.skip(1));
        assert(front.skip(1) =~= s.skip(1).take(s.len() - 2));
        assert(front[0] == s[0]);
    }
}

/// The bytes of two texts one after the other are those of the first and then
/// those of the second.
pub proof fn lemma_encode_concat(a: Seq<char>, b: Seq<char>)
    ensures
        vstd::utf8::encode_utf8(a + b) == vstd::utf8::encode_utf8(a) + vstd::utf8::encode_utf8(b),
    decreases a.len(),
{
    if a.len() == 0 {
        assert(a + b =~= b);
        assert(vstd::utf8::encode_utf8(a) + vstd::utf8::encode_utf8(b) =~= vstd::utf8::encode_utf8(
            b,
        ));
    } else {
        lemma_encode_concat(a.drop_first(), b);
        assert((a + b).drop_first() =~= a.drop_first() + b);
        assert(vstd::utf8::encode_utf8(a + b) =~= vstd::utf8::encode_utf8(a)
            + vstd::utf8::encode_utf8(b));
    }
}

/// Bytes add up over two texts one after the other.
pub proof fn lemma_byte_len_concat(a: Seq<char>, b: Seq<char>)
    ensures
        byte_len(a + b) == byte_len(a) + byte_len(b),
{
    lemma_encode_concat(a, b);
}

/// One character takes as many bytes as its width says.
pub proof fn lemma_byte_len_one(c: char)
    ensures
        byte_len(seq![c]) == width(c),
{
    reveal_with_fuel(vstd::utf8::encode_utf8, 2);
    assert(seq![c].drop_first() =~= Seq::empty());
}

// ---------------------------------------------------------------------------
// Executable functions
// ---------------------------------------------------------------------------

/// The characters of `s`.
pub fn chars_of(s: &str) -> (r: Vec<char>)
    ensures
        r@ == s@,
{
    let mut out: Vec<char> = Vec::new();
    for c in it: s.chars()
        invariant
            it.seq() == s@,
            out@ == s@.take(it.index()),
    {
        out.push(c);
        assert(s@.take(it.index() + 1) =~= s@.take(it.index()).push(c));
    }
    assert(s@.take(s@.len() as int) =~= s@);
    out
}

/// The text of these characters.
pub fn string_of(s: &[char]) -> (r: String)
    ensures
        r@ == s@,
{
    let mut out = String::new();
    let mut i: usize = 0;
    while i < s.len()
        invariant
            i <= s@.len(),
            out@ == s@.take(i as int),
        decreases s.len() - i,
    {
        out.push(s[i]);
        i += 1;
        assert(s@.take(i as int) =~= s@.take(i - 1).push(s@[i - 1]));
    }
    assert(s@.take(i as int) =~= s@);
    out
}

/// The first `n` characters.
pub fn before(s: &[char], n: usize) -> (r: &[char])
    requires
        n <= s@.len(),
    ensures
        r@ == s@.take(n as int),
{
    slice_subrange(s, 0, n)
}

/// All but the first `n` characters.
pub fn after(s: &[char], n: usize) -> (r: &[char])
    requires
        n <= s@.len(),
    ensures
        r@ == s@.skip(n as int),
{
    slice_subrange(s, n, s.len())
}

/// Whether the two texts are equal.
pub fn same(a: &str, b: &str) -> (r: bool)
    ensures
        r == (a@ == b@),
{
    a.to_owned() == b.to_owned()
}

/// Whether `c` is white space.
pub fn is_whitespace(c: char) -> (r: bool)
    ensures
        r == whitespace(c),
{
    ('\u{9}' <= c && c <= '\u{d}') || c == '\u{20}' || c == '\u{85}' || c == '\u{a0}' || c
        == '\u{1680}' || ('\u{2000}' <= c && c <= '\u{200a}') || c == '\u{2028}' || c == '\u{2029}'
        || c == '\u{202f}' || c == '\u{205f}' || c == '\u{3000}'
}

impl CharClass {
    /// Whether the class holds `c`.
    pub fn contains(self, c: char) -> (r: bool)
        ensures
            r == self.holds(c),
    {
        match self {
            CharClass::Whitespace => is_whitespace(c),
            CharClass::Only(d) => c == d,
            CharClass::LineEnd => c == '\r' || c == '\n',
        }
    }
}

/// `s` without its longest prefix of characters in `class`.
pub fn drop_front(s: &[char], class: CharClass) -> (r: &[char])
    ensures
        r@ == dropped_front(s@, class),
{
    let mut i: usize = 0;
    assert(s@.skip(0) =~= s@);
    while i < s.len() && class.contains(s[i])
        invariant
            i <= s@.len(),
            dropped_front(s@.skip(i as int), class) == dropped_front(s@, class),
        decreases s.len() - i,
    {
        assert(s@.skip(i as int).skip(1) =~= s@.skip(i + 1));
        i += 1;
    }
    assert(s@.subrange(i as int, s@.len() as int) =~= s@.skip(i as int));
    slice_subrange(s, i, s.len())
}

/// `s` without its longest suffix of characters in `class`.
pub fn drop_back(s: &[char], class: CharClass) -> (r: &[char])
    ensures
        r@ == dropped_back(s@, class),
{
    let mut i: usize = s.len();
    assert(s@.take(i as int) =~= s@);
    while i > 0 && class.contains(s[i - 1])
        invariant
            i <= s@.len(),
            dropped_back(s@.take(i as int), class) == dropped_back(s@, class),
        decreases i,
    {
        assert(s@.take(i as int).take(i - 1) =~= s@.take(i - 1));
        i -= 1;
    }
    assert(s@.subrange(0, i as int) =~= s@.take(i as int));
    slice_subrange(s, 0, i)
}

/// `s` without leading white space.
pub fn trim_start(s: &[char]) -> (r: &[char])
    ensures
        r@ == trimmed_start(s@),
{
    drop_front(s, CharClass::Whitespace)
}

/// `s` without trailing white space.
pub fn trim_end(s: &[char]) -> (r: &[char])
    ensures
        r@ == trimmed_end(s@),
{
    drop_back(s, CharClass::Whitespace)
}

/// `s` without leading and trailing white space.
pub fn trim(s: &[char]) -> (r: &[char])
    ensures
        r@ == trimmed(s@),
{
    trim_end(trim_start(s))
}

/// The text `s` without leading and trailing white space.
pub fn trim_str(s: &str) -> (r: String)
    ensures
        r@ == trimmed(s@),
{
    let chars = chars_of(s);
    string_of(trim(chars.as_slice()))
}

/// Whether nothing is left of `s` once it is trimmed.
pub fn is_blank(s: &str) -> (r: bool)
    ensures
        r == blank(s@),
{
    let chars = chars_of(s);
    trim(chars.as_slice()).len() == 0
}

/// Whether `p` stands in `s` at index `i`.
pub fn occurs_at(s: &[char], p: &[char], i: usize) -> (r: bool)
    ensures
        r == occurs(s@, p@, i as int),
{
    if i > s.len() || p.len() > s.len() - i {
        return false;
    }
    let mut j: usize = 0;
    assert(s.len() == s@.len());
    while j < p.len()
        invariant
            j <= p@.len(),
            i + p@.len() <= s@.len(),
            s@.len() <= usize::MAX,
            forall|k: int| 0 <= k < j ==> s@[i + k] == p@[k],
        decreases p.len() - j,
    {
        if s[i + j] != p[j] {
            assert(s@.subrange(i as int, i + p@.len())[j as int] != p@[j as int]);
            return false;
        }
        j += 1;
    }
    assert(s@.subrange(i as int, i + p@.len()) =~= p@);
    true
}

/// Whether `s` begins with `p`.
pub fn starts_with(s: &[char], p: &[char]) -> (r: bool)
    ensures
        r == begins(s@, p@),
{
    assert(p@.len() <= s@.len() ==> s@.subrange(0, p@.len() as int) =~= s@.take(p@.len() as int));
    occurs_at(s, p, 0)
}

/// Whether `s` ends with `p`.
pub fn ends_with(s: &[char], p: &[char]) -> (r: bool)
    ensures
        r == ends(s@, p@),
{
    if p.len() > s.len() {
        return false;
    }
    assert(s@.subrange(s@.len() - p@.len(), s@.len() as int) =~= s@.skip(s@.len() - p@.len()));
    occurs_at(s, p, s.len() - p.len())
}

/// The first index from `i` on at which `p` stands in `s`.
pub fn find_from(s: &[char], p: &[char], i: usize) -> (r: Option<usize>)
    ensures
        r matches Some(k) ==> first_from(s@, p@, i as int) == Some(k as int),
        r is None ==> first_from(s@, p@, i as int) is None,
{
    let mut k: usize = i;
    while k <= s.len() && p.len() <= s.len() - k
        invariant
            i <= k,
            first_from(s@, p@, k as int) == first_from(s@, p@, i as int),
        decreases s.len() + 1 - k,
    {
        if occurs_at(s, p, k) {
            return Some(k);
        }
        assert(k == s@.len() ==> s@.subrange(k as int, k as int) =~= p@);
        k += 1;
    }
    None
}

/// The first index at which `p` stands in `s`.
pub fn find(s: &[char], p: &[char]) -> (r: Option<usize>)
    ensures
        r matches Some(k) ==> first(s@, p@) == Some(k as int),
        r is None ==> first(s@, p@) is None,
{
    find_from(s, p, 0)
}

/// The first index at which the text `p` stands in `s`.
pub fn find_text(s: &[char], p: &str) -> (r: Option<usize>)
    ensures
        r matches Some(k) ==> first(s@, p@) == Some(k as int) && k + p@.len() <= s@.len()
            <= usize::MAX,
        r is None ==> first(s@, p@) is None,
{
    let pattern = chars_of(p);
    proof {
        lemma_first_from(s@, p@, 0);
        assert(s.len() == s@.len());
    }
    find(s, pattern.as_slice())
}

/// Whether the text `p` stands anywhere in `s`.
pub fn has_text(s: &[char], p: &str) -> (r: bool)
    ensures
        r == has(s@, p@),
{
    let pattern = chars_of(p);
    contains(s, pattern.as_slice())
}

/// Whether `s` begins with the text `p`.
pub fn begins_with_text(s: &[char], p: &str) -> (r: bool)
    ensures
        r == begins(s@, p@),
{
    let pattern = chars_of(p);
    starts_with(s, pattern.as_slice())
}

/// Whether `s` ends with the text `p`.
pub fn ends_with_text(s: &[char], p: &str) -> (r: bool)
    ensures
        r == ends(s@, p@),
{
    let pattern = chars_of(p);
    ends_with(s, pattern.as_slice())
}

/// The first index of `p` is one at which `p` stands, and no earlier one is.
pub proof fn lemma_first_from(s: Seq<char>, p: Seq<char>, i: int)
    requires
        0 <= i,
    ensures
        first_from(s, p, i) matches Some(k) ==> i <= k && occurs(s, p, k),
        forall|j: int|
            i <= j && #[trigger] occurs(s, p, j) ==> (first_from(s, p, i) matches Some(k) && k
                <= j),
    decreases s.len() + 1 - i,
{
    if i + p.len() > s.len() || occurs(s, p, i) {
    } else {
        lemma_first_from(s, p, i + 1);
    }
}

/// The first character of a class, where it is known.
pub proof fn lemma_class_at(s: Seq<char>, class: CharClass, k: int)
    requires
        0 <= k < s.len(),
        class.holds(s[k]),
        forall|j: int| 0 <= j < k ==> !class.holds(#[trigger] s[j]),
    ensures
        class_from(s, class, 0) == Some(k),
{
    lemma_class_from(s, class, 0);
    match class_from(s, class, 0) {
        Some(i) => {
            if k < i {
                assert(!class.holds(s[k]));
            }
        },
        None => {
            assert(!class.holds(s[k]));
        },
    }
}

/// The first place of a text, where it is known.
pub proof fn lemma_first_at(s: Seq<char>, p: Seq<char>, k: int)
    requires
        occurs(s, p, k),
        forall|j: int| 0 <= j < k ==> !#[trigger] occurs(s, p, j),
    ensures
        first(s, p) == Some(k),
{
    lemma_first_from(s, p, 0);
}

/// `p` stands somewhere in `s` exactly if it has a first index there.
pub proof fn lemma_has_first(s: Seq<char>, p: Seq<char>)
    ensures
        has(s, p) <==> first(s, p) is Some,
        first(s, p) matches Some(k) ==> occurs(s, p, k),
{
    lemma_first_from(s, p, 0);
}

/// A text that stands between two others stands in all of it.
pub proof fn lemma_has_between(before: Seq<char>, middle: Seq<char>, behind: Seq<char>)
    ensures
        has(before + middle + behind, middle),
{
    let s = before + middle + behind;
    let k = before.len() as int;
    assert(s.subrange(k, k + middle.len()) =~= middle);
    assert(occurs(s, middle, k));
}

/// What stands in a text stands in a longer one that the text stands in.
pub proof fn lemma_has_within(outer: Seq<char>, middle: Seq<char>, inner: Seq<char>)
    requires
        has(outer, middle),
        has(middle, inner),
    ensures
        has(outer, inner),
{
    let i = choose|i: int| occurs(outer, middle, i);
    let j = choose|j: int| occurs(middle, inner, j);
    assert(outer.subrange(i + j, i + j + inner.len()) =~= outer.subrange(
        i,
        i + middle.len(),
    ).subrange(j, j + inner.len()));
    assert(occurs(outer, inner, i + j));
}

/// A text without this character that stands in two others with the character between
/// them stands in the first or in the second.
pub proof fn lemma_occurs_split(x: Seq<char>, c: char, y: Seq<char>, p: Seq<char>, i: int)
    requires
        occurs(x + seq![c] + y, p, i),
        p.len() > 0,
        forall|k: int| 0 <= k < p.len() ==> #[trigger] p[k] != c,
    ensures
        occurs(x, p, i) || occurs(y, p, i - x.len() - 1),
{
    let s = x + seq![c] + y;
    let n = x.len() as int;
    if i + p.len() <= n {
        assert(x.subrange(i, i + p.len()) =~= s.subrange(i, i + p.len()));
    } else if i > n {
        assert(y.subrange(i - n - 1, i - n - 1 + p.len()) =~= s.subrange(i, i + p.len()));
    } else {
        assert(s.subrange(i, i + p.len())[n - i] == c);
    }
}

/// A text without this character that stands somewhere in two others with the character
/// between them stands in one of them.
pub proof fn lemma_has_split(x: Seq<char>, c: char, y: Seq<char>, p: Seq<char>)
    requires
        has(x + seq![c] + y, p),
        p.len() > 0,
        forall|k: int| 0 <= k < p.len() ==> #[trigger] p[k] != c,
    ensures
        has(x, p) || has(y, p),
{
    let i = choose|i: int| occurs(x + seq![c] + y, p, i);
    lemma_occurs_split(x, c, y, p, i);
}

/// What stands in a part of a text stands in the text.
pub proof fn lemma_has_part(s: Seq<char>, from: int, to: int, p: Seq<char>)
    requires
        0 <= from <= to <= s.len(),
        has(s.subrange(from, to), p),
    ensures
        has(s, p),
{
    let i = choose|i: int| occurs(s.subrange(from, to), p, i);
    assert(s.subrange(from + i, from + i + p.len()) =~= s.subrange(from, to).subrange(
        i,
        i + p.len(),
    ));
    assert(occurs(s, p, from + i));
}

/// What stands in a trimmed text stands in the text.
pub proof fn lemma_has_trimmed(s: Seq<char>, p: Seq<char>)
    requires
        has(trimmed(s), p),
    ensures
        has(s, p),
{
    lemma_has_dropped_back(trimmed_start(s), CharClass::Whitespace, p);
    lemma_has_dropped_front(s, CharClass::Whitespace, p);
}

proof fn lemma_has_dropped_front(s: Seq<char>, class: CharClass, p: Seq<char>)
    requires
        has(dropped_front(s, class), p),
    ensures
        has(s, p),
    decreases s.len(),
{
    if s.len() > 0 && class.holds(s[0]) {
        lemma_has_dropped_front(s.skip(1), class, p);
        assert(s.skip(1) =~= s.subrange(1, s.len() as int));
        lemma_has_part(s, 1, s.len() as int, p);
    }
}

proof fn lemma_has_dropped_back(s: Seq<char>, class: CharClass, p: Seq<char>)
    requires
        has(dropped_back(s, class), p),
    ensures
        has(s, p),
    decreases s.len(),
{
    if s.len() > 0 && class.holds(s[s.len() - 1]) {
        lemma_has_dropped_back(s.take(s.len() - 1), class, p);
        assert(s.take(s.len() - 1) =~= s.subrange(0, s.len() - 1));
        lemma_has_part(s, 0, s.len() - 1, p);
    }
}

/// Whether `p` stands anywhere in `s`.
pub fn contains(s: &[char], p: &[char]) -> (r: bool)
    ensures
        r == has(s@, p@),
{
    proof {
        lemma_has_first(s@, p@);
    }
    find(s, p).is_some()
}

/// Whether `p` stands anywhere in the text `s`.
pub fn str_contains(s: &str, p: &str) -> (r: bool)
    ensures
        r == has(s@, p@),
{
    let chars = chars_of(s);
    let pattern = chars_of(p);
    contains(chars.as_slice(), pattern.as_slice())
}

/// Whether the text `s` begins with `p`.
pub fn str_starts_with(s: &str, p: &str) -> (r: bool)
    ensures
        r == begins(s@, p@),
{
    let chars = chars_of(s);
    let pattern = chars_of(p);
    starts_with(chars.as_slice(), pattern.as_slice())
}

/// `s` without the suffix `p`, taken off as often as it stands there.
pub fn drop_suffix<'a>(s: &'a [char], p: &str) -> (r: &'a [char])
    ensures
        r@ == without_suffix(s@, p@),
{
    let pattern = chars_of(p);
    let mut rest = s;
    while pattern.len() > 0 && ends_with(rest, pattern.as_slice())
        invariant
            pattern@ == p@,
            without_suffix(rest@, p@) == without_suffix(s@, p@),
        decreases rest@.len(),
    {
        rest = before(rest, rest.len() - pattern.len());
    }
    rest
}

/// The first index of a character in `class`.
pub fn find_class(s: &[char], class: CharClass) -> (r: Option<usize>)
    ensures
        r matches Some(k) ==> class_from(s@, class, 0) == Some(k as int) && k < s@.len() && k
            < usize::MAX,
        r is None ==> class_from(s@, class, 0) is None,
{
    let mut k: usize = 0;
    while k < s.len()
        invariant
            k <= s@.len(),
            class_from(s@, class, k as int) == class_from(s@, class, 0),
        decreases s.len() - k,
    {
        if class.contains(s[k]) {
            return Some(k);
        }
        k += 1;
    }
    None
}

/// The last index of `c` in `s`.
pub fn find_last(s: &[char], c: char) -> (r: Option<usize>)
    ensures
        r matches Some(k) ==> last_index(s@, c) == Some(k as int) && k < s@.len() && k
            < usize::MAX,
        r is None ==> last_index(s@, c) is None,
{
    let mut i: usize = s.len();
    assert(s@.take(i as int) =~= s@);
    while i > 0
        invariant
            i <= s@.len(),
            last_index(s@.take(i as int), c) == last_index(s@, c),
        decreases i,
    {
        if s[i - 1] == c {
            return Some(i - 1);
        }
        assert(s@.take(i as int).take(i - 1) =~= s@.take(i - 1));
        i -= 1;
    }
    None
}

/// `s` with its ASCII capitals made small.
pub fn to_lower(s: &[char]) -> (r: Vec<char>)
    ensures
        r@ == lowered(s@),
{
    let mut out: Vec<char> = Vec::new();
    let mut i: usize = 0;
    while i < s.len()
        invariant
            i <= s@.len(),
            out@ == lowered(s@.take(i as int)),
        decreases s.len() - i,
    {
        let c = s[i];
        let d = if 'A' <= c && c <= 'Z' {
            ((c as u8) + 32u8) as char
        } else {
            c
        };
        out.push(d);
        i += 1;
        assert(s@.take(i as int) =~= s@.take(i - 1).push(s@[i - 1]));
        assert(lowered(s@.take(i as int)) =~= lowered(s@.take(i - 1)).push(lower_char(s@[i - 1])));
    }
    assert(s@.take(i as int) =~= s@);
    out
}

/// `s` with its small ASCII letters made capitals.
pub fn to_upper(s: &[char]) -> (r: Vec<char>)
    ensures
        r@ == uppered(s@),
{
    let mut out: Vec<char> = Vec::new();
    let mut i: usize = 0;
    while i < s.len()
        invariant
            i <= s@.len(),
            out@ == uppered(s@.take(i as int)),
        decreases s.len() - i,
    {
        let c = s[i];
        let d = if 'a' <= c && c <= 'z' {
            ((c as u8) - 32u8) as char
        } else {
            c
        };
        out.push(d);
        i += 1;
        assert(s@.take(i as int) =~= s@.take(i - 1).push(s@[i - 1]));
        assert(uppered(s@.take(i as int)) =~= uppered(s@.take(i - 1)).push(upper_char(s@[i - 1])));
    }
    assert(s@.take(i as int) =~= s@);
    out
}

/// Whether the characters are equal, one by one.
pub fn same_chars(a: &[char], b: &[char]) -> (r: bool)
    ensures
        r == (a@ == b@),
{
    if a.len() != b.len() {
        return false;
    }
    assert(a@.subrange(0, b@.len() as int) =~= a@);
    occurs_at(a, b, 0)
}

/// Whether `a` and `b` differ at most in the case of ASCII letters.
pub fn eq_ignore_case(a: &str, b: &str) -> (r: bool)
    ensures
        r == same_ignoring_case(a@, b@),
{
    let left = to_lower(chars_of(a).as_slice());
    let right = to_lower(chars_of(b).as_slice());
    same_chars(left.as_slice(), right.as_slice())
}

/// Whether the text `a` stands before `b` in the order of code points.
pub fn is_before(a: &str, b: &str) -> (r: bool)
    ensures
        r == precedes(a@, b@),
{
    let left = chars_of(a);
    let right = chars_of(b);
    let mut i: usize = 0;
    assert(left@.skip(0) =~= left@);
    assert(right@.skip(0) =~= right@);
    while i < left.len() && i < right.len() && left[i] == right[i]
        invariant
            i <= left@.len(),
            i <= right@.len(),
            precedes(left@.skip(i as int), right@.skip(i as int)) == precedes(left@, right@),
        decreases left.len() - i,
    {
        assert(left@.skip(i as int).skip(1) =~= left@.skip(i + 1));
        assert(right@.skip(i as int).skip(1) =~= right@.skip(i + 1));
        i += 1;
    }
    if i == right.len() {
        false
    } else if i == left.len() {
        true
    } else {
        left[i] < right[i]
    }
}

/// The views of a list of texts.
pub open spec fn texts(parts: Seq<String>) -> Seq<Seq<char>> {
    parts.map_values(|s: String| s@)
}

/// The parts one after another with `sep` between neighbours.
pub fn join(parts: &Vec<String>, sep: &str) -> (r: String)
    ensures
        r@ == joined(texts(parts@), sep@),
{
    let mut out = String::new();
    let mut i: usize = 0;
    while i < parts.len()
        invariant
            i <= parts@.len(),
            out@ == joined(texts(parts@).take(i as int), sep@),
        decreases parts.len() - i,
    {
        let ghost done = texts(parts@).take(i + 1);
        assert(done.take(i as int) =~= texts(parts@).take(i as int));
        if i > 0 {
            out.append(sep);
        }
        out.append(parts[i].as_str());
        assert(i == 0 ==> out@ =~= parts@[0]@);
        i += 1;
    }
    assert(texts(parts@).take(i as int) =~= texts(parts@));
    out
}

/// The lines of `s`.
pub fn split_lines(s: &[char]) -> (r: Vec<String>)
    ensures
        texts(r@) == lines(s@),
{
    let mut out: Vec<String> = Vec::new();
    let mut rest = s;
    assert(texts(out@) =~= Seq::empty());
    assert(texts(out@) + lines(rest@) =~= lines(s@));
    while rest.len() > 0
        invariant
            texts(out@) + lines(rest@) =~= lines(s@),
        decreases rest@.len(),
    {
        let ghost before = out@;
        match find_class(rest, CharClass::Only('\n')) {
            Some(i) => {
                let line = slice_subrange(rest, 0, i);
                assert(line@ =~= rest@.take(i as int));
                let line = if i > 0 && line[i - 1] == '\r' {
                    slice_subrange(line, 0, i - 1)
                } else {
                    line
                };
                assert(line@ =~= without_return(rest@.take(i as int)));
                out.push(string_of(line));
                assert(texts(out@) =~= texts(before).push(line@));
                assert(rest@.subrange(i + 1, rest@.len() as int) =~= rest@.skip(i + 1));
                rest = slice_subrange(rest, i + 1, rest.len());
            },
            None => {
                out.push(string_of(rest));
                assert(texts(out@) =~= texts(before).push(rest@));
                rest = slice_subrange(rest, 0, 0);
            },
        }
    }
    assert(texts(out@) =~= lines(s@));
    out
}

/// `n` in decimal.
pub fn decimal_of(n: u64) -> (r: String)
    ensures
        r@ == decimal(n as nat),
    decreases n,
{
    let d = (n % 10) as u8;
    let c = (48u8 + d) as char;
    assert(c == digit((n % 10) as nat));
    let mut out = if n < 10 {
        String::new()
    } else {
        decimal_of(n / 10)
    };
    out.push(c);
    assert(n < 10 ==> out@ =~= seq![digit(n as nat)]);
    out
}

/// `n` in decimal, with a minus sign before a negative number.
pub fn signed_decimal_of(n: i64) -> (r: String)
    ensures
        r@ == signed_decimal(n as int),
{
    if n < 0 {
        let magnitude: u64 = if n == i64::MIN {
            0x8000_0000_0000_0000u64
        } else {
            (-n) as u64
        };
        let mut out = String::new();
        out.push('-');
        out.append(decimal_of(magnitude).as_str());
        assert(out@ =~= signed_decimal(n as int));
        out
    } else {
        decimal_of(n as u64)
    }
}

/// The number of bytes that `c` takes in UTF-8.
pub fn width_of(c: char) -> (r: usize)
    ensures
        r == width(c),
        1 <= r <= 4,
{
    if c <= '\u{7f}' {
        1
    } else if c <= '\u{7ff}' {
        2
    } else if c <= '\u{ffff}' {
        3
    } else {
        4
    }
}

} // verus!
