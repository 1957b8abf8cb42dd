//! Escape and classification utilities for the pattern syntax.
//!
//! These routines are pure functions over single characters or bytes, plus
//! the [`escape`]/[`escape_into`] pair that quotes a whole string so it can
//! be used as a literal pattern.

use vstd::prelude::*;
use vstd::string::StrSliceExecFns;

pub mod class;
pub mod ranges;
pub mod unicode;

verus! {

/// Relies on `String::push`: appends the given character to the end of the
/// string.
pub assume_specification[ String::push ](s: &mut String, ch: char)
    ensures
        final(s)@ == old(s)@.push(ch),
;

/// The fixed set of meta characters: the characters that carry syntactic
/// meaning somewhere in a pattern and therefore must be escaped to be
/// matched literally.
pub open spec fn is_meta(c: char) -> bool {
    ||| c == '\\'
    ||| c == '.'
    ||| c == '+'
    ||| c == '*'
    ||| c == '?'
    ||| c == '('
    ||| c == ')'
    ||| c == '|'
    ||| c == '['
    ||| c == ']'
    ||| c == '{'
    ||| c == '}'
    ||| c == '^'
    ||| c == '$'
    ||| c == '#'
    ||| c == '&'
    ||| c == '-'
    ||| c == '~'
}

/// The characters a pattern may escape: every meta character, plus any ASCII
/// character that is neither a letter, nor a digit, nor one of `<` and `>`
/// (which are reserved for word-boundary syntax).
pub open spec fn is_escapeable(c: char) -> bool {
    is_meta(c) || ((c as u32) < 128 && !is_ascii_alphanumeric(c) && c != '<' && c != '>')
}

/// Membership in `[0-9A-Za-z]`, the ASCII letters and digits.
pub open spec fn is_ascii_alphanumeric(c: char) -> bool {
    ('0' <= c && c <= '9') || ('A' <= c && c <= 'Z') || ('a' <= c && c <= 'z')
}

/// Returns true if the given character has significance in a regex.
///
/// Generally speaking, these are the only characters which _must_ be escaped
/// in order to match their literal meaning. For example, to match a literal
/// `|`, one could write `\|`. Sometimes escaping isn't always necessary. For
/// example, `-` is treated as a meta character because of its significance
/// for writing ranges inside of character classes, but the regex `-` will
/// match a literal `-` because `-` has no special meaning outside of
/// character classes.
///
/// The set of characters for which this function returns `true` or `false`
/// is fixed and won't change in a semver compatible release.
pub fn is_meta_character(c: char) -> (r: bool)
    ensures
        r == is_meta(c),
{
    match c {
        '\\' | '.' | '+' | '*' | '?' | '(' | ')' | '|' | '[' | ']' | '{'
        | '}' | '^' | '$' | '#' | '&' | '-' | '~' => true,
        _ => false,
    }
}

/// Returns true if the given character can be escaped in a regex.
///
/// This returns true in all cases that [`is_meta_character`] returns true,
/// but also returns true in some cases where `is_meta_character` returns
/// false. For example, `%` is not a meta character, but it is escapeable:
/// `%` and `\%` both match a literal `%` in all contexts.
///
/// The purpose of this routine is to provide knowledge about what characters
/// may be escaped. Namely, most regex engines permit "superfluous" escapes
/// where characters without any special significance may be escaped even
/// though there is no actual _need_ to do so.
pub fn is_escapeable_character(c: char) -> (r: bool)
    ensures
        r == is_escapeable(c),
{
    // Certainly escapeable if it's a meta character.
    if is_meta_character(c) {
        return true;
    }
    // Any character that isn't ASCII is definitely not escapeable.
    if (c as u32) >= 128 {
        return false;
    }
    // Otherwise, everything is escapeable unless it's a letter or digit.
    // Letters and digits are reserved for adding new syntax in a backwards
    // compatible way.
    match c {
        '0'..='9' | 'A'..='Z' | 'a'..='z' => false,
        // `\<` and `\>` are significant escape sequences (word boundaries),
        // so the bare characters are kept as not escapeable.
        '<' | '>' => false,
        _ => true,
    }
}

/// Every meta character is escapeable: the escape sequences produced by
/// [`escape`] are all accepted by the pattern grammar.
pub proof fn lemma_meta_is_escapeable(c: char)
    ensures
        is_meta(c) ==> is_escapeable(c),
{
}

/// What escaping a single character appends: a backslash before every meta
/// character, and the character itself in every case.
pub open spec fn escaped_char(c: char) -> Seq<char> {
    if is_meta(c) {
        seq!['\\', c]
    } else {
        seq![c]
    }
}

/// The escaped form of a whole string: each character in order, with a
/// backslash inserted before every meta character.
pub open spec fn escaped(s: Seq<char>) -> Seq<char>
    decreases s.len(),
{
    if s.len() == 0 {
        Seq::empty()
    } else {
        escaped_char(s[0]) + escaped(s.drop_first())
    }
}

proof fn lemma_escaped_push(s: Seq<char>, c: char)
    ensures
        escaped(s.push(c)) == escaped(s) + escaped_char(c),
    decreases s.len(),
{
    if s.len() == 0 {
        assert(s.push(c)[0] == c);
        assert(s.push(c).drop_first() =~= Seq::<char>::empty());
        assert(escaped(s.push(c)) == escaped_char(c) + escaped(Seq::<char>::empty()));
        assert(escaped(s.push(c)) =~= escaped(s) + escaped_char(c));
    } else {
        assert(s.push(c)[0] == s[0]);
        assert(s.push(c).drop_first() =~= s.drop_first().push(c));
        lemma_escaped_push(s.drop_first(), c);
        assert(escaped(s.push(c)) == escaped_char(s[0]) + (escaped(s.drop_first())
            + escaped_char(c)));
        assert(escaped(s.push(c)) =~= escaped(s) + escaped_char(c));
    }
}

/// Escapes all regular expression meta characters in `text`.
///
/// The string returned may be safely used as a literal in a regular
/// expression.
pub fn escape(text: &str) -> (quoted: String)
    ensures
        quoted@ == escaped(text@),
{
    let mut quoted = String::new();
    escape_into(text, &mut quoted);
    proof {
        assert(quoted@ =~= escaped(text@));
    }
    quoted
}

/// Escapes all meta characters in `text` and writes the result into `buf`.
///
/// This will append escape characters into the given buffer. The characters
/// that are appended are safe to use as a literal in a regular expression.
pub fn escape_into(text: &str, buf: &mut String)
    ensures
        final(buf)@ == old(buf)@ + escaped(text@),
{
    let n = text.unicode_len();
    let mut i: usize = 0;
    while i < n
        invariant
            n == text@.len(),
            i <= n,
            buf@ == old(buf)@ + escaped(text@.take(i as int)),
        decreases n - i,
    {
        let c = text.get_char(i);
        if is_meta_character(c) {
            buf.push('\\');
        }
        buf.push(c);
        proof {
            assert(text@.take(i as int + 1) =~= text@.take(i as int).push(text@[i as int]));
            lemma_escaped_push(text@.take(i as int), text@[i as int]);
        }
        i += 1;
    }
    proof {
        assert(text@.take(n as int) =~= text@);
    }
}

/// How a regex reader decodes a pattern that is a pure literal: a backslash
/// followed by an escapeable character denotes that character, a character
/// with no syntactic significance denotes itself, and any unescaped meta
/// character (or dangling escape) means the pattern is not a pure literal.
pub open spec fn literal_decode(p: Seq<char>) -> Option<Seq<char>>
    decreases p.len(),
{
    if p.len() == 0 {
        Some(Seq::empty())
    } else if p[0] == '\\' {
        if p.len() >= 2 && is_escapeable(p[1]) {
            match literal_decode(p.skip(2)) {
                Some(rest) => Some(seq![p[1]] + rest),
                None => None,
            }
        } else {
            None
        }
    } else if is_meta(p[0]) {
        None
    } else {
        match literal_decode(p.drop_first()) {
            Some(rest) => Some(seq![p[0]] + rest),
            None => None,
        }
    }
}

/// Escaping is faithful: read back as a pattern, `escaped(s)` is a pure
/// literal that denotes exactly the text `s` — it contains no unescaped meta
/// character and no dangling escape, and decoding its escape sequences
/// yields `s` again.
pub proof fn lemma_escape_literal_round_trip(s: Seq<char>)
    ensures
        literal_decode(escaped(s)) == Some(s),
    decreases s.len(),
{
    if s.len() > 0 {
        let c = s[0];
        let rest = s.drop_first();
        let p = escaped(s);
        lemma_escape_literal_round_trip(rest);
        assert(seq![c] + rest =~= s);
        if is_meta(c) {
            assert(p[0] == '\\' && p[1] == c);
            assert(p.skip(2) =~= escaped(rest));
            lemma_meta_is_escapeable(c);
            assert(literal_decode(p) == Some(seq![c] + rest));
        } else {
            assert(p[0] == c);
            assert(p.drop_first() =~= escaped(rest));
            assert(literal_decode(p) == Some(seq![c] + rest));
        }
    }
}

/// Returns true if and only if the given character is a Unicode word
/// character, according to the injected word-character table.
///
/// A Unicode word character is defined by UTS#18 Annex C: a character in
/// either of the `Alphabetic` or `Join_Control` properties, or in one of the
/// `Decimal_Number`, `Mark` or `Connector_Punctuation` general categories.
/// This library does not compile the Unicode data tables in itself: `data`
/// is the injected capability that holds that class as a canonical range
/// list, or marks it unavailable.
///
/// The caller must provide an available table; use [`try_is_word_character`]
/// to get a recoverable error instead of a narrowed precondition.
pub fn is_word_character(c: char, data: &unicode::UnicodeWordData) -> (r: bool)
    requires
        data.wf(),
        data.is_available(),
    ensures
        r == data.contains_char(c),
{
    match try_is_word_character(c, data) {
        Ok(b) => b,
        Err(_) => false,
    }
}

/// Returns true if and only if the given character is a Unicode word
/// character, or an error when the word-character table is unavailable.
///
/// A Unicode word character is defined by UTS#18 Annex C: a character in
/// either of the `Alphabetic` or `Join_Control` properties, or in one of the
/// `Decimal_Number`, `Mark` or `Connector_Punctuation` general categories.
/// This library does not compile the Unicode data tables in itself: `data`
/// is the injected capability that holds that class as a canonical range
/// list, or marks it unavailable.
pub fn try_is_word_character(c: char, data: &unicode::UnicodeWordData) -> (r: Result<
    bool,
    unicode::UnicodeWordError,
>)
    requires
        data.wf(),
    ensures
        r is Ok <==> data.is_available(),
        r matches Ok(b) ==> b == data.contains_char(c),
{
    data.lookup(c)
}

/// Returns true if the given byte is an ASCII word byte.
///
/// An ASCII word byte is defined by the following character class:
/// `[_0-9a-zA-Z]`.
pub fn is_word_byte(c: u8) -> (r: bool)
    ensures
        r == is_ascii_word_byte(c),
{
    match c {
        // `_`, `0`-`9`, `a`-`z`, `A`-`Z`
        95 | 48..=57 | 97..=122 | 65..=90 => true,
        _ => false,
    }
}

/// Membership in the ASCII word class `[_0-9a-zA-Z]`.
pub open spec fn is_ascii_word_byte(c: u8) -> bool {
    ||| c == '_' as u8
    ||| ('0' as u8 <= c && c <= '9' as u8)
    ||| ('a' as u8 <= c && c <= 'z' as u8)
    ||| ('A' as u8 <= c && c <= 'Z' as u8)
}

} // verus!
