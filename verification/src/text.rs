//! String operations of the standard library and of `html_escape` that the
//! rest of the crate needs, each with the contract that its documentation
//! gives. Verus takes these contracts on trust: the bodies are calls into
//! code that it does not read.
use vstd::prelude::*;

verus! {

/// `str`'s `==`: whether the two strings hold the same characters.
#[verifier::external_body]
pub(crate) fn str_eq(a: &str, b: &str) -> (same: bool)
    ensures
        same == (a@ == b@),
{
    a == b
}

} // verus!

verus! {

/// `String::insert` at the front: `c` becomes the first character.
#[verifier::external_body]
pub(crate) fn prepend_char(s: &mut String, c: char)
    ensures
        final(s)@ == seq![c] + old(s)@,
{
    s.insert(0, c)
}

} // verus!

verus! {

/// The markup that stands for the character `c`: an entity for `&`, `<` and
/// `>`, and inside a double-quoted attribute value also for `"`.
pub open spec fn escape_char(c: char, in_attribute: bool) -> Seq<char> {
    if c == '&' {
        "&amp;"@
    } else if c == '<' {
        "&lt;"@
    } else if c == '>' {
        "&gt;"@
    } else if in_attribute && c == '"' {
        "&quot;"@
    } else {
        seq![c]
    }
}

/// `s` with every character that markup gives a meaning replaced by its
/// entity.
pub open spec fn escaped(s: Seq<char>, in_attribute: bool) -> Seq<char>
    decreases s.len(),
{
    if s.len() == 0 {
        Seq::empty()
    } else {
        escaped(s.drop_last(), in_attribute) + escape_char(s.last(), in_attribute)
    }
}

/// `html_escape::encode_text`: the text with every `&`, `<` and `>` replaced
/// by its entity.
#[verifier::external_body]
pub(crate) fn encode_text(text: &str) -> (markup: String)
    ensures
        markup@ == escaped(text@, false),
{
    html_escape::encode_text(text).into_owned()
}

/// `html_escape::encode_double_quoted_attribute`: the text with every `&`,
/// `<`, `>` and `"` replaced by its entity.
#[verifier::external_body]
pub(crate) fn escape_attr(value: &str) -> (markup: String)
    ensures
        markup@ == escaped(value@, true),
{
    html_escape::encode_double_quoted_attribute(value).into_owned()
}

/// `String::with_capacity`: an empty string with room for `capacity` bytes.
/// The standard library panics past the largest allocation.
#[verifier::external_body]
pub(crate) fn string_with_capacity(capacity: usize) -> (s: String)
    requires
        capacity <= isize::MAX,
    ensures
        s@ == Seq::<char>::empty(),
{
    String::with_capacity(capacity)
}

} // verus!

verus! {

/// Whether `c` is whitespace: a character with the Unicode property
/// `White_Space`.
pub open spec fn is_white_space(c: char) -> bool {
    ('\u{9}' <= c <= '\u{d}') || c == ' ' || c == '\u{85}' || c == '\u{a0}' || c == '\u{1680}' || (
    '\u{2000}' <= c <= '\u{200a}') || c == '\u{2028}' || c == '\u{2029}' || c == '\u{202f}' || c
        == '\u{205f}' || c == '\u{3000}'
}

/// `s` without the whitespace at its end.
pub open spec fn trimmed_end(s: Seq<char>) -> Seq<char>
    decreases s.len(),
{
    if s.len() > 0 && is_white_space(s.last()) {
        trimmed_end(s.drop_last())
    } else {
        s
    }
}

/// `s` without the whitespace at its start.
pub open spec fn trimmed_start(s: Seq<char>) -> Seq<char>
    decreases s.len(),
{
    if s.len() > 0 && is_white_space(s.first()) {
        trimmed_start(s.drop_first())
    } else {
        s
    }
}

/// `s` without the whitespace at its start and at its end.
pub open spec fn trimmed(s: Seq<char>) -> Seq<char> {
    trimmed_end(trimmed_start(s))
}

/// `str::trim`: the text without leading and trailing whitespace.
#[verifier::external_body]
pub(crate) fn trim(text: &str) -> (inner: &str)
    ensures
        inner@ == trimmed(text@),
{
    text.trim()
}

} // verus!
