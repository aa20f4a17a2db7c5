//! Character classes used by the reference grammar: the Unicode classes
//! `\w`, `\d` and `\s` of the `regex` crate's syntax, and the ASCII classes.
use vstd::prelude::*;

verus! {

/// `\w`: a Unicode word character as the `regex` crate defines it.
pub uninterp spec fn is_word_char(c: char) -> bool;

/// `\d`: a Unicode decimal digit as the `regex` crate defines it.
pub uninterp spec fn is_unicode_digit(c: char) -> bool;

/// `char::is_whitespace`: the Unicode `White_Space` property, which is also
/// the `regex` crate's `\s`.
pub uninterp spec fn is_white_space(c: char) -> bool;

pub open spec fn is_ascii_lower(c: char) -> bool {
    'a' <= c && c <= 'z'
}

pub open spec fn is_ascii_upper(c: char) -> bool {
    'A' <= c && c <= 'Z'
}

pub open spec fn is_ascii_digit(c: char) -> bool {
    '0' <= c && c <= '9'
}

/// `[0-9A-Za-z_]`: the ASCII part of `\w`.
pub open spec fn is_ascii_word(c: char) -> bool {
    is_ascii_lower(c) || is_ascii_upper(c) || is_ascii_digit(c) || c == '_'
}

/// The `regex` crate's `\w` class, matched against one character.
#[verifier::external_body]
pub(crate) fn word_char(c: char) -> (b: bool)
    ensures
        b == is_word_char(c),
        (c as u32) < 128 ==> (b <==> is_ascii_word(c)),
{
    let mut buf = [0u8; 4];
    regex::Regex::new(r"\A\w\z").unwrap().is_match(c.encode_utf8(&mut buf))
}

/// The `regex` crate's `\d` class, matched against one character.
#[verifier::external_body]
pub(crate) fn unicode_digit(c: char) -> (b: bool)
    ensures
        b == is_unicode_digit(c),
        (c as u32) < 128 ==> (b <==> is_ascii_digit(c)),
{
    let mut buf = [0u8; 4];
    regex::Regex::new(r"\A\d\z").unwrap().is_match(c.encode_utf8(&mut buf))
}

/// `char::is_whitespace`.
#[verifier::external_body]
pub(crate) fn white_space(c: char) -> (b: bool)
    ensures
        b == is_white_space(c),
        c == ' ' || c == '\t' || c == '\n' || c == '\r' ==> b,
        is_ascii_word(c) ==> !b,
{
    c.is_whitespace()
}

pub fn ascii_lower(c: char) -> (b: bool)
    ensures
        b == is_ascii_lower(c),
{
    'a' <= c && c <= 'z'
}

pub fn ascii_upper(c: char) -> (b: bool)
    ensures
        b == is_ascii_upper(c),
{
    'A' <= c && c <= 'Z'
}

pub fn ascii_digit(c: char) -> (b: bool)
    ensures
        b == is_ascii_digit(c),
{
    '0' <= c && c <= '9'
}

/// The class of each character of a text, computed once.
pub fn word_flags(t: &[char]) -> (w: Vec<bool>)
    ensures
        w@.len() == t@.len(),
        forall|i: int| 0 <= i < t@.len() ==> #[trigger] w@[i] == is_word_char(t@[i]),
{
    let mut w: Vec<bool> = Vec::new();
    let mut i: usize = 0;
    while i < t.len()
        invariant
            i <= t@.len(),
            w@.len() == i,
            forall|j: int| 0 <= j < i ==> #[trigger] w@[j] == is_word_char(t@[j]),
        decreases t@.len() - i,
    {
        w.push(word_char(t[i]));
        i = i + 1;
    }
    w
}

/// Whitespace flags of each character of a text.
pub fn space_flags(t: &[char]) -> (w: Vec<bool>)
    ensures
        w@.len() == t@.len(),
        forall|i: int| 0 <= i < t@.len() ==> #[trigger] w@[i] == is_white_space(t@[i]),
{
    let mut w: Vec<bool> = Vec::new();
    let mut i: usize = 0;
    while i < t.len()
        invariant
            i <= t@.len(),
            w@.len() == i,
            forall|j: int| 0 <= j < i ==> #[trigger] w@[j] == is_white_space(t@[j]),
        decreases t@.len() - i,
    {
        w.push(white_space(t[i]));
        i = i + 1;
    }
    w
}

/// Digit flags of each character of a text.
pub fn digit_flags(t: &[char]) -> (w: Vec<bool>)
    ensures
        w@.len() == t@.len(),
        forall|i: int| 0 <= i < t@.len() ==> #[trigger] w@[i] == is_unicode_digit(t@[i]),
{
    let mut w: Vec<bool> = Vec::new();
    let mut i: usize = 0;
    while i < t.len()
        invariant
            i <= t@.len(),
            w@.len() == i,
            forall|j: int| 0 <= j < i ==> #[trigger] w@[j] == is_unicode_digit(t@[j]),
        decreases t@.len() - i,
    {
        w.push(unicode_digit(t[i]));
        i = i + 1;
    }
    w
}

} // verus!
