//! Regular expressions.
//!
//! Matching is left to the `regex` crate. Its results are named here; what
//! the library does with them is stated over those names.
use vstd::prelude::*;
use vstd::string::*;

use crate::skills;
use crate::text;

verus! {

/// The characters with a meaning of their own in a regular expression.
pub open spec fn is_meta(c: char) -> bool {
    ||| c == '\\' || c == '.' || c == '+' || c == '*' || c == '?'
    ||| c == '(' || c == ')' || c == '|' || c == '[' || c == ']'
    ||| c == '{' || c == '}' || c == '^' || c == '$' || c == '#'
    ||| c == '&' || c == '-' || c == '~'
}

/// `s` with a backslash before each character that has a meaning of its own.
pub open spec fn escaped(s: Seq<char>) -> Seq<char>
    decreases s.len(),
{
    if s.len() == 0 {
        Seq::empty()
    } else if is_meta(s.last()) {
        escaped(s.drop_last()).push('\\').push(s.last())
    } else {
        escaped(s.drop_last()).push(s.last())
    }
}

/// `regex::escape`: each meta character of the pattern is preceded by a
/// backslash, all else is kept.
pub assume_specification[ regex::escape ](pattern: &str) -> (r: String)
    ensures
        r@ == escaped(pattern@),
;

/// Whether `pattern` matches somewhere in `hay`; nothing if the pattern does
/// not compile.
pub uninterp spec fn regex_verdict(pattern: Seq<char>, hay: Seq<char>) -> Option<bool>;

/// `regex::Regex::new` and `Regex::is_match` on the compiled pattern. What
/// matches is the regex crate's to say; the result depends on the pattern and
/// the text alone.
///
/// One thing more is claimed of a match, by what the crate documents of its
/// syntax: `^` holds at the start of the text alone, letters, numbers, `_` and
/// `-` match themselves, `(a|b)` and `(?:a|b)` match one of their
/// alternatives, `\s`, `\t` and a space match a whitespace character, `\b`
/// matches nothing, `+` wants at least one, `*` and `?` let an element be
/// missing, `$` holds at the end of the text alone, and `|` outside of groups,
/// classes and escapes splits the whole pattern. So text that is matched by a
/// pattern that starts with `^` and a literal or an alternation of literals,
/// goes on with what matches the end of the text or a whitespace character,
/// and is not split, has one of the literals as its first word.
#[verifier::external_body]
pub(crate) fn regex_is_match(pattern: &str, hay: &str) -> (r: Option<bool>)
    ensures
        r == regex_verdict(pattern@, hay@),
        r == Some(true) ==> skills::opens_with_literal(pattern@, hay@),
{
    regex::Regex::new(pattern).ok().map(|re| re.is_match(hay))
}

/// `hay` with the matches of `pattern` replaced by `with`; nothing if the
/// pattern does not compile.
pub uninterp spec fn regex_replaced(
    pattern: Seq<char>,
    hay: Seq<char>,
    with: Seq<char>,
) -> Option<Seq<char>>;

/// `regex::Regex::new` and `Regex::replace_all` on the compiled pattern. What
/// is replaced is the regex crate's to say; the result depends on the
/// pattern, the text and the replacement alone.
#[verifier::external_body]
pub(crate) fn regex_replace_all(pattern: &str, hay: &str, with: &str) -> (r: Option<String>)
    ensures
        text::opt_view(r) == regex_replaced(pattern@, hay@, with@),
{
    regex::Regex::new(pattern).ok().map(|re| re.replace_all(hay, with).to_string())
}

/// Escaping goes character by character: a character with a meaning of its own
/// gets a backslash, every other one stays as it is.
pub proof fn law_escaping_goes_character_by_character(a: Seq<char>, b: Seq<char>, c: char)
    ensures
        escaped(a + b) == escaped(a) + escaped(b),
        escaped(seq![c]) == (if r"\.+*?()|[]{}^$#&-~"@.contains(c) {
            seq!['\\', c]
        } else {
            seq![c]
        }),
{
    lemma_escaped_append(a, b);
    let one = seq![c];
    assert(one.drop_last() =~= Seq::<char>::empty());
    assert(escaped(Seq::<char>::empty()) == Seq::<char>::empty());
    let meta = r"\.+*?()|[]{}^$#&-~"@;
    reveal_strlit(r"\.+*?()|[]{}^$#&-~");
    assert(meta.len() == 18);
    if is_meta(c) {
        assert(meta[0] == '\\' && meta[1] == '.' && meta[2] == '+' && meta[3] == '*' && meta[4]
            == '?' && meta[5] == '(' && meta[6] == ')' && meta[7] == '|' && meta[8] == '['
            && meta[9] == ']' && meta[10] == '{' && meta[11] == '}' && meta[12] == '^' && meta[13]
            == '$' && meta[14] == '#' && meta[15] == '&' && meta[16] == '-' && meta[17] == '~');
        assert(escaped(one) =~= seq!['\\', c]);
    } else {
        assert(escaped(one) =~= seq![c]);
    }
}

/// The escaped form of two texts put together.
proof fn lemma_escaped_append(a: Seq<char>, b: Seq<char>)
    ensures
        escaped(a + b) == escaped(a) + escaped(b),
    decreases b.len(),
{
    if b.len() == 0 {
        assert(a + b =~= a);
        assert(escaped(a) + escaped(b) =~= escaped(a));
    } else {
        lemma_escaped_append(a, b.drop_last());
        assert((a + b).drop_last() =~= a + b.drop_last());
        assert((a + b).last() == b.last());
        assert(escaped(a + b) =~= escaped(a) + escaped(b));
    }
}

} // verus!
