//! Skill matching engine.
//!
//! Decides which skills apply to a command, in which order, and what they
//! make of it. Skills live in a database; the rows that are read from it come
//! in as plain values.
use vstd::prelude::*;
use vstd::string::*;

use crate::numerals;
use crate::patterns;
use crate::text;
use crate::text::Class;

verus! {

// ---------------------------------------------------------------------------
// First words
// ---------------------------------------------------------------------------
/// The verb of a command: its first word, or the first word after a leading
/// `cd <dir> && `.
pub open spec fn verb_of(command: Seq<char>) -> Seq<char> {
    let t = text::trim_start(command);
    match text::after_prefix(t, "cd "@) {
        Some(rest) => match text::find(rest, " && "@) {
            Some(i) => text::first_word_of(rest.skip(i + 4)),
            None => text::first_word_of(t),
        },
        None => text::first_word_of(t),
    }
}

/// First word of a command, used to drive the fast path of [`may_match`].
///
/// Wrong-dir rewriters target the verb, not the `cd` wrapper, so a command of
/// the form `cd <dir> && <verb> …` is reduced to `<verb>`.
pub fn command_first_word_for_match(command: &str) -> (r: String)
    ensures
        r@ == verb_of(command@),
{
    let t = text::trimmed_start(command);
    if let Some(rest) = text::strip(t, "cd ") {
        if let Some(i) = text::find_text(rest, " && ") {
            proof {
                reveal_strlit(" && ");
            }
            let n: usize = rest.unicode_len();
            let tail = rest.substring_char(i + 4, n);
            assert(tail@ =~= rest@.skip(i + 4));
            return text::first_word(tail);
        }
    }
    text::first_word(t)
}

/// A non-empty word of letters, numbers, underscores and hyphens.
pub open spec fn is_literal(w: Seq<char>) -> bool {
    w.len() > 0 && text::run_len(w, Class::Word) == w.len()
}

/// A literal that can be the verb of a command. A `cd` at the front of a
/// command may be passed over for the verb behind it.
pub open spec fn is_verb_literal(w: Seq<char>) -> bool {
    is_literal(w) && w != "cd"@
}

/// An operator that makes what stands before it optional or repeats it.
pub open spec fn is_repetition(c: char) -> bool {
    c == '*' || c == '+' || c == '?' || c == '{'
}

/// What a pattern goes on with after a space character, if it starts with
/// one.
pub open spec fn after_space(s: Seq<char>) -> Option<Seq<char>> {
    if s.len() >= 1 && s[0] == ' ' {
        Some(s.skip(1))
    } else if s.len() >= 2 && s[0] == '\\' && (s[1] == 's' || s[1] == 't') {
        Some(s.skip(2))
    } else {
        None
    }
}

/// What stands behind an element of a pattern: whether the element has to
/// occur, and what follows its repetition operator, if it has one. Nothing is
/// said of counted and of stacked repetitions.
pub open spec fn quantified(s: Seq<char>) -> Option<(bool, Seq<char>)> {
    if s.len() == 0 || !is_repetition(s[0]) {
        Some((true, s))
    } else {
        let rest = if s.len() >= 2 && s[1] == '?' {
            s.skip(2)
        } else {
            s.skip(1)
        };
        if s[0] == '{' || (rest.len() > 0 && is_repetition(rest[0])) {
            None
        } else {
            Some((s[0] == '+', rest))
        }
    }
}

/// The first element of a pattern, where it is the end of the text, a space
/// character or a word boundary: whether it ends a word before it in any
/// case, and what follows it. If it need not end the word, what follows
/// decides.
pub open spec fn plain_end(s: Seq<char>) -> Option<(bool, Seq<char>)> {
    if s.len() >= 1 && s[0] == '$' {
        if s.len() >= 2 && is_repetition(s[1]) {
            None
        } else {
            Some((true, s.skip(1)))
        }
    } else if s.len() >= 2 && s[0] == '\\' && s[1] == 'b' {
        Some((false, s.skip(2)))
    } else {
        match after_space(s) {
            Some(t) => quantified(t),
            None => None,
        }
    }
}

/// A pattern without groups at its front ends a word before it.
pub open spec fn plain_ends(s: Seq<char>) -> bool
    decreases s.len(),
{
    match plain_end(s) {
        Some((true, _)) => true,
        Some((false, rest)) => plain_ends(rest),
        None => false,
    }
}

/// What a group holds, given the text between its parentheses.
pub open spec fn group_body(inner: Seq<char>) -> Seq<char> {
    match text::after_prefix(inner, "?:"@) {
        Some(body) => body,
        None => inner,
    }
}

/// As [`plain_end`], where the first element is a group without a group or a
/// class in it, each of whose alternatives ends a word before it.
pub open spec fn group_end(s: Seq<char>) -> Option<(bool, Seq<char>)> {
    let e = text::run_len(s, Class::Not(')')) as int;
    if s.len() > 0 && s[0] == '(' && e < s.len() && s[e - 1] != '\\' {
        let body = group_body(s.subrange(1, e));
        let pieces = text::split(body, '|');
        if !body.contains('(') && !body.contains('[') && (forall|i: int|
            0 <= i < pieces.len() ==> plain_ends(#[trigger] pieces[i])) {
            quantified(s.skip(e + 1))
        } else {
            None
        }
    } else {
        None
    }
}

/// The rest of a pattern ends the word before it: whatever it matches is
/// empty and stands at the end of the text, or starts with a space character.
pub open spec fn ends_word(s: Seq<char>) -> bool
    decreases s.len(),
{
    proof {
        text::lemma_run_len(s, Class::Not(')'));
    }
    match (if s.len() > 0 && s[0] == '(' {
        group_end(s)
    } else {
        plain_end(s)
    }) {
        Some((true, _)) => true,
        Some((false, rest)) => ends_word(rest),
        None => false,
    }
}

/// What opens a bracketed class: the bracket, a caret, and a closing bracket
/// that stands for itself.
pub open spec fn class_opening(s: Seq<char>) -> int {
    let n: int = if s.len() >= 2 && s[1] == '^' {
        2
    } else {
        1
    };
    if n < s.len() && s[n] == ']' {
        n + 1
    } else {
        n
    }
}

/// The name of a group holds a bracket, or does not end.
pub open spec fn odd_name(s: Seq<char>) -> bool
    decreases s.len(),
{
    s.len() == 0 || s[0] == '[' || (s[0] != '>' && odd_name(s.skip(1)))
}

/// The flags of a group turn on the mode that passes over spaces and
/// comments, or its name is odd.
pub open spec fn odd_flags(s: Seq<char>) -> bool
    decreases s.len(),
{
    if s.len() == 0 || s[0] == 'x' {
        true
    } else if s[0] == '<' {
        odd_name(s.skip(1))
    } else {
        s[0] != ')' && s[0] != ':' && odd_flags(s.skip(1))
    }
}

/// A pattern offers another way to match outside of its groups, or may do so:
/// read from inside `depth` groups and `brackets` classes, behind a hyphen in
/// a class or not.
pub open spec fn may_fork(s: Seq<char>, depth: nat, brackets: nat, hyphen: bool) -> bool
    decreases s.len(),
{
    if s.len() == 0 {
        false
    } else if s[0] == '\\' {
        s.len() >= 2 && may_fork(s.skip(2), depth, brackets, false)
    } else if s[0] == '[' {
        hyphen || may_fork(s.skip(class_opening(s)), depth, brackets + 1, false)
    } else if brackets > 0 {
        if s[0] == ']' {
            may_fork(s.skip(1), depth, (brackets - 1) as nat, false)
        } else {
            may_fork(s.skip(1), depth, brackets, s[0] == '-')
        }
    } else if s[0] == '(' {
        (s.len() >= 2 && s[1] == '?' && odd_flags(s.skip(2))) || may_fork(
            s.skip(1),
            depth + 1,
            0,
            false,
        )
    } else if s[0] == ')' {
        depth == 0 || may_fork(s.skip(1), (depth - 1) as nat, 0, false)
    } else if s[0] == '|' {
        depth == 0 || may_fork(s.skip(1), depth, 0, false)
    } else {
        may_fork(s.skip(1), depth, 0, false)
    }
}

/// The rest of a pattern settles the first word: it ends the word and offers
/// no other way to match.
pub open spec fn settles(rest: Seq<char>) -> bool {
    ends_word(rest) && (rest.contains('|') ==> !may_fork(rest, 0, 0, false))
}

/// The pieces of an alternation without the spaces around them, if each is a
/// literal that can be a verb.
pub open spec fn literals_in(pieces: Seq<Seq<char>>) -> Option<Seq<Seq<char>>> {
    if forall|i: int| 0 <= i < pieces.len() ==> is_verb_literal(text::trim(#[trigger] pieces[i])) {
        Some(Seq::new(pieces.len(), |i: int| text::trim(pieces[i])))
    } else {
        None
    }
}

/// The words with which a pattern can start, where it is anchored, starts
/// with a literal or with an alternation of literals, and the rest of it
/// settles that this is the whole first word.
pub open spec fn first_literals(pat: Seq<char>) -> Option<Seq<Seq<char>>> {
    match text::after_prefix(pat, "^"@) {
        None => None,
        Some(t) => if t.len() > 0 && t[0] == '(' {
            let e = text::run_len(t, Class::Not(')')) as int;
            if e < t.len() && settles(t.skip(e + 1)) {
                literals_in(text::split(t.subrange(1, e), '|'))
            } else {
                None
            }
        } else {
            let n = text::run_len(t, Class::Word) as int;
            if is_verb_literal(t.take(n)) && settles(t.skip(n)) {
                Some(seq![t.take(n)])
            } else {
                None
            }
        },
    }
}

/// Whether a character repeats what stands before it.
fn repeats(c: char) -> (r: bool)
    ensures
        r == is_repetition(c),
{
    c == '*' || c == '+' || c == '?' || c == '{'
}

/// What stands behind an element of a pattern, from an index on.
fn read_quantified(v: &Vec<char>, from: usize) -> (r: Option<(bool, usize)>)
    requires
        from <= v@.len(),
    ensures
        match r {
            Some((once, k)) => from <= k <= v@.len() && quantified(v@.skip(from as int)) == Some(
                (once, v@.skip(k as int)),
            ),
            None => quantified(v@.skip(from as int)) is None,
        },
{
    let n: usize = v.len();
    let ghost s = v@.skip(from as int);
    if from == n || !repeats(v[from]) {
        return Some((true, from));
    }
    assert(s[0] == v@[from as int]);
    let mut k: usize = from + 1;
    if k < n && v[k] == '?' {
        k += 1;
        assert(s.skip(2) =~= v@.skip(k as int));
    } else {
        assert(s.skip(1) =~= v@.skip(k as int));
    }
    if v[from] == '{' || (k < n && repeats(v[k])) {
        None
    } else {
        Some((v[from] == '+', k))
    }
}

/// The first plain element of a pattern, from an index on.
fn read_plain_end(v: &Vec<char>, from: usize) -> (r: Option<(bool, usize)>)
    requires
        from <= v@.len(),
    ensures
        match r {
            Some((ends, k)) => from < k <= v@.len() && plain_end(v@.skip(from as int)) == Some(
                (ends, v@.skip(k as int)),
            ),
            None => plain_end(v@.skip(from as int)) is None,
        },
{
    let n: usize = v.len();
    let ghost s = v@.skip(from as int);
    if from == n {
        return None;
    }
    assert(s[0] == v@[from as int]);
    if v[from] == '$' {
        if n - from >= 2 && repeats(v[from + 1]) {
            return None;
        }
        assert(s.skip(1) =~= v@.skip(from + 1));
        return Some((true, from + 1));
    }
    if v[from] == ' ' {
        assert(s.skip(1) =~= v@.skip(from + 1));
        return read_quantified(v, from + 1);
    }
    if n - from >= 2 && v[from] == '\\' {
        assert(s[1] == v@[from + 1]);
        assert(s.skip(2) =~= v@.skip(from + 2));
        if v[from + 1] == 'b' {
            return Some((false, from + 2));
        }
        if v[from + 1] == 's' || v[from + 1] == 't' {
            return read_quantified(v, from + 2);
        }
    }
    None
}

/// Whether a pattern without groups at its front ends a word before it.
fn reads_plain_ends(v: &Vec<char>) -> (r: bool)
    ensures
        r == plain_ends(v@),
{
    let mut i: usize = 0;
    assert(v@.skip(0) =~= v@);
    loop
        invariant
            i <= v@.len(),
            plain_ends(v@.skip(i as int)) == plain_ends(v@),
        decreases v@.len() - i,
    {
        match read_plain_end(v, i) {
            None => {
                return false;
            },
            Some((ends, k)) => {
                if ends {
                    return true;
                }
                i = k;
            },
        }
    }
}

/// Whether a character stands in a text.
fn holds(v: &Vec<char>, c: char) -> (r: bool)
    ensures
        r == v@.contains(c),
{
    let mut i: usize = 0;
    while i < v.len()
        invariant
            i <= v@.len(),
            forall|j: int| 0 <= j < i ==> v@[j] != c,
        decreases v@.len() - i,
    {
        if v[i] == c {
            return true;
        }
        i += 1;
    }
    false
}

/// The first element of a pattern, a group, from an index on.
fn read_group_end(v: &Vec<char>, from: usize) -> (r: Option<(bool, usize)>)
    requires
        from < v@.len(),
        v@[from as int] == '(',
    ensures
        match r {
            Some((ends, k)) => from < k <= v@.len() && group_end(v@.skip(from as int)) == Some(
                (ends, v@.skip(k as int)),
            ),
            None => group_end(v@.skip(from as int)) is None,
        },
{
    let ghost s = v@.skip(from as int);
    let close: usize = text::run_end(v, from, Class::Not(')'));
    let ghost e = close - from;
    assert(s[0] == '(');
    proof {
        text::lemma_run_len(s, Class::Not(')'));
        assert(e >= 1) by {
            if e == 0 {
                assert(!text::in_class(Class::Not(')'), s[0]));
            }
        }
    }
    if close == v.len() {
        return None;
    }
    assert(s[e - 1] == v@[close - 1]);
    if v[close - 1] == '\\' {
        return None;
    }
    let inner = text::string_of(v, from + 1, close);
    assert(inner@ =~= s.subrange(1, e));
    let body: &str = match text::strip(inner.as_str(), "?:") {
        Some(b) => b,
        None => inner.as_str(),
    };
    assert(body@ == group_body(s.subrange(1, e)));
    let b = text::chars_of(body);
    if holds(&b, '(') || holds(&b, '[') {
        return None;
    }
    let pieces = text::split_at_char(body, '|');
    let ghost all = text::views(pieces@);
    let mut each: bool = true;
    let mut i: usize = 0;
    while i < pieces.len() && each
        invariant
            i <= pieces@.len(),
            all == text::views(pieces@),
            each ==> forall|j: int| 0 <= j < i ==> plain_ends(#[trigger] all[j]),
            !each ==> exists|j: int| 0 <= j < i && !plain_ends(#[trigger] all[j]),
        decreases pieces@.len() - i,
    {
        let piece = text::chars_of(pieces[i].as_str());
        assert(all[i as int] == piece@);
        each = reads_plain_ends(&piece);
        i += 1;
    }
    if !each {
        return None;
    }
    assert(s.skip(e + 1) =~= v@.skip(close + 1));
    read_quantified(v, close + 1)
}

/// Whether the rest of a pattern from an index on ends the word before it.
fn reads_ends_word(v: &Vec<char>, from: usize) -> (r: bool)
    requires
        from <= v@.len(),
    ensures
        r == ends_word(v@.skip(from as int)),
{
    let mut i: usize = from;
    loop
        invariant
            from <= i <= v@.len(),
            ends_word(v@.skip(i as int)) == ends_word(v@.skip(from as int)),
        decreases v@.len() - i,
    {
        if i < v.len() {
            assert(v@.skip(i as int)[0] == v@[i as int]);
        }
        let step: Option<(bool, usize)> = if i < v.len() && v[i] == '(' {
            read_group_end(v, i)
        } else {
            read_plain_end(v, i)
        };
        match step {
            None => {
                return false;
            },
            Some((ends, k)) => {
                if ends {
                    return true;
                }
                i = k;
            },
        }
    }
}

/// Whether a group has odd flags or an odd name, from behind its `(?` on.
fn reads_odd_flags(v: &Vec<char>, from: usize) -> (r: bool)
    requires
        from <= v@.len(),
    ensures
        r == odd_flags(v@.skip(from as int)),
{
    let mut i: usize = from;
    let mut named: bool = false;
    while i < v.len()
        invariant
            from <= i <= v@.len(),
            odd_flags(v@.skip(from as int)) == (if named {
                odd_name(v@.skip(i as int))
            } else {
                odd_flags(v@.skip(i as int))
            }),
        decreases v@.len() - i,
    {
        let c: char = v[i];
        proof {
            assert(v@.skip(i as int)[0] == c);
            assert(v@.skip(i as int).skip(1) =~= v@.skip(i + 1));
        }
        if named {
            if c == '[' {
                return true;
            }
            if c == '>' {
                return false;
            }
        } else {
            if c == 'x' {
                return true;
            }
            if c == ')' || c == ':' {
                return false;
            }
            if c == '<' {
                named = true;
            }
        }
        i += 1;
    }
    true
}

/// How long the opening of a class is that stands at an index.
fn read_class_opening(v: &Vec<char>, at: usize) -> (r: usize)
    requires
        at < v@.len(),
    ensures
        r == class_opening(v@.skip(at as int)),
        1 <= r <= v@.len() - at,
{
    let left: usize = v.len() - at;
    let ghost s = v@.skip(at as int);
    let n: usize = if left >= 2 && v[at + 1] == '^' {
        2
    } else {
        1
    };
    if n < left && v[at + n] == ']' {
        n + 1
    } else {
        n
    }
}

/// Whether a pattern may offer another way to match outside of its groups,
/// from an index on.
fn reads_may_fork(v: &Vec<char>, from: usize) -> (r: bool)
    requires
        from <= v@.len(),
    ensures
        r == may_fork(v@.skip(from as int), 0, 0, false),
{
    let n: usize = v.len();
    let mut i: usize = from;
    let mut depth: usize = 0;
    let mut brackets: usize = 0;
    let mut hyphen: bool = false;
    while i < n
        invariant
            from <= i <= n,
            n == v@.len(),
            depth <= i,
            brackets <= i,
            may_fork(v@.skip(i as int), depth as nat, brackets as nat, hyphen) == may_fork(
                v@.skip(from as int),
                0,
                0,
                false,
            ),
        decreases n - i,
    {
        let c: char = v[i];
        let ghost s = v@.skip(i as int);
        proof {
            assert(s[0] == c);
            assert(s.skip(1) =~= v@.skip(i + 1));
        }
        if c == '\\' {
            if n - i < 2 {
                return false;
            }
            assert(s.skip(2) =~= v@.skip(i + 2));
            hyphen = false;
            i += 2;
        } else if c == '[' {
            if hyphen {
                return true;
            }
            let k: usize = read_class_opening(v, i);
            assert(s.skip(k as int) =~= v@.skip(i + k));
            brackets += 1;
            i += k;
        } else if brackets > 0 {
            if c == ']' {
                brackets -= 1;
                hyphen = false;
            } else {
                hyphen = c == '-';
            }
            i += 1;
        } else {
            hyphen = false;
            if c == '(' {
                if n - i >= 2 && v[i + 1] == '?' {
                    assert(s[1] == v@[i + 1]);
                    assert(s.skip(2) =~= v@.skip(i + 2));
                    if reads_odd_flags(v, i + 2) {
                        return true;
                    }
                }
                depth += 1;
            } else if c == ')' || c == '|' {
                if depth == 0 {
                    return true;
                }
                if c == ')' {
                    depth -= 1;
                }
            }
            i += 1;
        }
    }
    false
}

/// Whether the rest of a pattern from an index on settles the first word.
fn rest_settles(v: &Vec<char>, from: usize) -> (r: bool)
    requires
        from <= v@.len(),
    ensures
        r == settles(v@.skip(from as int)),
{
    if !reads_ends_word(v, from) {
        return false;
    }
    let ghost rest = v@.skip(from as int);
    let mut i: usize = from;
    while i < v.len()
        invariant
            from <= i <= v@.len(),
            rest == v@.skip(from as int),
            ends_word(rest),
            forall|j: int| from <= j < i ==> v@[j] != '|',
        decreases v@.len() - i,
    {
        if v[i] == '|' {
            assert(rest[i - from] == '|');
            return !reads_may_fork(v, from);
        }
        i += 1;
    }
    assert(!rest.contains('|'));
    true
}

/// Extracts the set of first-word literals from a `command_regex` pattern.
///
/// `None` means that the caller must run the regex (e.g. for `.`, `^\s*#`, or
/// patterns without an anchor). `Some(set)` lets the caller skip the regex
/// when the command's first word, as [`command_first_word_for_match`] gives
/// it, is not in the set: every command that the pattern matches has it there.
/// [`find_matches`] states this of every row that applies.
pub fn pattern_first_word_literals(pat: &str) -> (r: Option<Vec<String>>)
    ensures
        match r {
            Some(v) => first_literals(pat@) == Some(text::views(v@)),
            None => first_literals(pat@) is None,
        },
{
    let t = match text::strip(pat, "^") {
        Some(t) => t,
        None => {
            return None;
        },
    };
    let v = text::chars_of(t);
    assert(v@.skip(0) =~= t@);
    if v.len() > 0 && v[0] == '(' {
        let e: usize = text::run_end(&v, 0, Class::Not(')'));
        if e == v.len() {
            return None;
        }
        if !rest_settles(&v, e + 1) {
            return None;
        }
        proof {
            if e == 0 {
                assert(!text::in_class(Class::Not(')'), v@[0]));
            }
        }
        let inner = text::string_of(&v, 1, e);
        let pieces = text::split_at_char(inner.as_str(), '|');
        let ghost all = text::views(pieces@);
        let mut out: Vec<String> = Vec::new();
        let mut i: usize = 0;
        while i < pieces.len()
            invariant
                i <= pieces@.len(),
                all == text::views(pieces@),
                first_literals(pat@) == literals_in(all),
                out@.len() == i,
                forall|j: int|
                    0 <= j < i ==> is_verb_literal(text::trim(#[trigger] all[j])) && out@[j]@
                        == text::trim(all[j]),
            decreases pieces@.len() - i,
        {
            assert(all[i as int] == pieces@[i as int]@);
            let w = text::trimmed(pieces[i].as_str());
            let c = text::chars_of(w);
            let n: usize = text::run_end(&c, 0, Class::Word);
            assert(c@.skip(0) =~= w@);
            if c.len() == 0 || n < c.len() || text::same(w, "cd") {
                assert(!is_verb_literal(text::trim(all[i as int])));
                return None;
            }
            out.push(w.to_owned());
            i += 1;
        }
        assert(text::views(out@) =~= literals_in(all)->0);
        Some(out)
    } else {
        let n: usize = text::run_end(&v, 0, Class::Word);
        let w = text::string_of(&v, 0, n);
        proof {
            assert(v@.subrange(0, n as int) =~= t@.take(n as int));
            text::lemma_run_take(t@, Class::Word);
        }
        if n == 0 || text::same(w.as_str(), "cd") || !rest_settles(&v, n) {
            return None;
        }
        let mut out: Vec<String> = Vec::new();
        out.push(w);
        assert(text::views(out@) =~= seq![t@.take(n as int)]);
        Some(out)
    }
}

/// Where the words with which a pattern can start are known, the text starts
/// with one of them.
pub open spec fn opens_with_literal(pattern: Seq<char>, hay: Seq<char>) -> bool {
    first_literals(pattern) matches Some(words) ==> words.contains(text::first_word_of(hay))
}

/// A command that starts with a word other than `cd` has it as its verb.
proof fn lemma_first_word_is_the_verb(command: Seq<char>)
    requires
        text::first_word_of(command) != "cd"@,
    ensures
        verb_of(command) == text::first_word_of(command),
{
    let t = text::trim_start(command);
    text::lemma_trim_start_once(command);
    if text::after_prefix(t, "cd "@) is Some {
        reveal_strlit("cd ");
        reveal_strlit("cd");
        assert("cd"@ =~= seq!['c', 'd']);
        let rest = t.skip(2);
        assert(t.subrange(0, 3) == "cd "@);
        assert(t[0] == "cd "@[0] && t[1] == "cd "@[1] && t[2] == "cd "@[2]);
        assert(t =~= "cd"@ + rest);
        assert(rest[0] == ' ');
        text::lemma_first_word("cd"@, rest);
    }
}

/// The literals with which a pattern can start are no `cd`.
proof fn lemma_literals_are_verbs(pattern: Seq<char>, word: Seq<char>)
    requires
        first_literals(pattern) matches Some(words) && words.contains(word),
    ensures
        is_verb_literal(word),
{
}

/// A command whose pattern is known to start with one of its first words is
/// left in by them.
proof fn lemma_opening_is_left_in(pattern: Seq<char>, command: Seq<char>)
    requires
        opens_with_literal(pattern, command),
    ensures
        leaves_in(pattern, command),
{
    if let Some(words) = first_literals(pattern) {
        lemma_literals_are_verbs(pattern, text::first_word_of(command));
        lemma_first_word_is_the_verb(command);
    }
}

// ---------------------------------------------------------------------------
// Matching
// ---------------------------------------------------------------------------
/// A `file_exists` trigger of a skill and what was found in the working
/// directory.
pub struct FileTrigger {
    /// The file's name, after a `!` if it must not exist.
    pub pattern: String,
    /// Whether the file that [`trigger_file`] names exists.
    pub exists: bool,
}

/// A skill's action together with one of its command triggers.
pub struct CandidateRow {
    /// The skill's id.
    pub skill_id: i64,
    /// The skill's name.
    pub skill_name: String,
    /// Whether the skill is enabled.
    pub enabled: bool,
    /// The regular expression on the command.
    pub pattern: String,
    /// The kind of action.
    pub action_type: String,
    /// The action's template.
    pub template: String,
    /// The rank of the action's confidence.
    pub base: i64,
    /// The rank of the action's confidence times the trigger's weight.
    pub confidence: i64,
    /// The weighted confidence as it is shown, with one decimal.
    pub conf_label: String,
    /// The skill's `file_exists` triggers.
    pub files: Vec<FileTrigger>,
}

/// A matched skill with its action to apply.
///
/// A confidence is held as its rank: an integer that orders as the
/// confidences do.
pub struct SkillMatch {
    /// The skill's name.
    pub skill_name: String,
    /// The kind of action.
    pub action_type: String,
    /// The action's template.
    pub template: String,
    /// The rank of the match's confidence.
    pub confidence: i64,
    /// The confidence as it is shown, with one decimal.
    pub conf_label: String,
    /// The skill's id.
    pub skill_id: i64,
}

/// The model of a match.
pub struct MatchView {
    /// The skill's name.
    pub skill_name: Seq<char>,
    /// The kind of action.
    pub action_type: Seq<char>,
    /// The action's template.
    pub template: Seq<char>,
    /// The rank of the match's confidence.
    pub confidence: i64,
    /// The confidence as it is shown.
    pub conf_label: Seq<char>,
    /// The skill's id.
    pub skill_id: i64,
}

impl View for SkillMatch {
    type V = MatchView;

    open spec fn view(&self) -> MatchView {
        MatchView {
            skill_name: self.skill_name@,
            action_type: self.action_type@,
            template: self.template@,
            confidence: self.confidence,
            conf_label: self.conf_label@,
            skill_id: self.skill_id,
        }
    }
}

/// The models of a sequence of matches.
pub open spec fn match_views(v: Seq<SkillMatch>) -> Seq<MatchView> {
    Seq::new(v.len(), |i: int| v[i]@)
}

/// The file that a trigger's pattern names.
pub open spec fn named_file(pattern: Seq<char>) -> Seq<char> {
    match text::after_prefix(pattern, "!"@) {
        Some(name) => name,
        None => pattern,
    }
}

/// The file whose existence a trigger asks for, whatever it wants of it.
pub fn trigger_file(pattern: &str) -> (r: &str)
    ensures
        r@ == named_file(pattern@),
{
    match text::strip(pattern, "!") {
        Some(name) => name,
        None => pattern,
    }
}

/// A trigger's condition holds: a plain file exists, one after `!` does not.
pub open spec fn trigger_holds(t: FileTrigger) -> bool {
    t.exists != "!"@.is_prefix_of(t.pattern@)
}

/// The conditions of all file triggers hold.
pub open spec fn triggers_hold(files: Seq<FileTrigger>) -> bool {
    forall|i: int| 0 <= i < files.len() ==> trigger_holds(#[trigger] files[i])
}

/// Checks the `file_exists` triggers of a skill. Yields true if all of them
/// are satisfied, also if there are none.
pub fn check_file_triggers(files: &Vec<FileTrigger>) -> (r: bool)
    ensures
        r == triggers_hold(files@),
{
    let mut i: usize = 0;
    while i < files.len()
        invariant
            i <= files@.len(),
            forall|j: int| 0 <= j < i ==> trigger_holds(#[trigger] files@[j]),
        decreases files@.len() - i,
    {
        if files[i].exists == text::starts(files[i].pattern.as_str(), "!") {
            assert(!trigger_holds(files@[i as int]));
            return false;
        }
        i += 1;
    }
    true
}

/// The words with which a pattern can start, where these are known, leave a
/// command in.
pub open spec fn leaves_in(pattern: Seq<char>, command: Seq<char>) -> bool {
    first_literals(pattern) matches Some(words) ==> words.contains(verb_of(command))
}

/// Whether a pattern has to be tried on a command at all.
///
/// A caller may leave out the rows whose pattern need not be tried before
/// [`find_matches`] is asked: compiling a regex is most of its cost.
pub fn may_match(pattern: &str, command: &str) -> (r: bool)
    ensures
        r == leaves_in(pattern@, command@),
{
    match pattern_first_word_literals(pattern) {
        None => true,
        Some(words) => {
            let verb = command_first_word_for_match(command);
            let ghost all = text::views(words@);
            let mut i: usize = 0;
            while i < words.len()
                invariant
                    i <= words@.len(),
                    all == text::views(words@),
                    first_literals(pattern@) == Some(all),
                    verb@ == verb_of(command@),
                    forall|j: int| 0 <= j < i ==> all[j] != verb@,
                decreases words@.len() - i,
            {
                assert(all[i as int] == words@[i as int]@);
                if text::same(words[i].as_str(), verb.as_str()) {
                    return true;
                }
                i += 1;
            }
            false
        },
    }
}

/// A row is considered: its skill is enabled, and its confidence reaches the
/// minimum, both the action's own and the one that the match would have.
pub open spec fn considered(row: CandidateRow, min_confidence: i64) -> bool {
    row.enabled && row.base >= min_confidence && row.confidence >= min_confidence
}

/// A row applies, given what the regex crate says of its pattern and the
/// command: it is considered, the regex matches and its file triggers hold.
pub open spec fn applies_given(
    row: CandidateRow,
    min_confidence: i64,
    verdict: Option<bool>,
) -> bool {
    considered(row, min_confidence) && verdict == Some(true) && triggers_hold(row.files@)
}

/// Whether a row applies, given the regex crate's verdict on its pattern and
/// the command.
pub fn row_applies(row: &CandidateRow, min_confidence: i64, verdict: Option<bool>) -> (r: bool)
    ensures
        r == applies_given(*row, min_confidence, verdict),
{
    match verdict {
        Some(true) => row.enabled && row.base >= min_confidence && row.confidence >= min_confidence
            && check_file_triggers(&row.files),
        _ => false,
    }
}

/// A row applies to a command.
pub open spec fn applies(row: CandidateRow, command: Seq<char>, min_confidence: i64) -> bool {
    applies_given(row, min_confidence, patterns::regex_verdict(row.pattern@, command))
}

/// The match that a row yields.
pub open spec fn match_of(row: CandidateRow) -> MatchView {
    MatchView {
        skill_name: row.skill_name@,
        action_type: row.action_type@,
        template: row.template@,
        confidence: row.confidence,
        conf_label: row.conf_label@,
        skill_id: row.skill_id,
    }
}

/// The matches of the rows that apply, in the order of the rows.
pub open spec fn applicable(
    rows: Seq<CandidateRow>,
    command: Seq<char>,
    min_confidence: i64,
) -> Seq<MatchView>
    decreases rows.len(),
{
    if rows.len() == 0 {
        Seq::empty()
    } else if applies(rows.last(), command, min_confidence) {
        applicable(rows.drop_last(), command, min_confidence).push(match_of(rows.last()))
    } else {
        applicable(rows.drop_last(), command, min_confidence)
    }
}

/// How many matches at the front of `s` rank no lower than `confidence`.
pub open spec fn rank_len(s: Seq<MatchView>, confidence: i64) -> nat
    decreases s.len(),
{
    if s.len() > 0 && s[0].confidence >= confidence {
        1 + rank_len(s.skip(1), confidence)
    } else {
        0
    }
}

/// `s` with `m` behind the matches at its front that rank no lower.
pub open spec fn ranked_insert(s: Seq<MatchView>, m: MatchView) -> Seq<MatchView> {
    s.insert(rank_len(s, m.confidence) as int, m)
}

/// The matches of `s` from the highest confidence down, equal ones in the
/// order of `s`.
pub open spec fn ranked(s: Seq<MatchView>) -> Seq<MatchView>
    decreases s.len(),
{
    if s.len() == 0 {
        Seq::empty()
    } else {
        ranked_insert(ranked(s.drop_last()), s.last())
    }
}

/// The front of a list ends where a lower rank follows.
proof fn lemma_rank_len(s: Seq<MatchView>, confidence: i64)
    ensures
        rank_len(s, confidence) <= s.len(),
        forall|i: int| 0 <= i < rank_len(s, confidence) ==> s[i].confidence >= confidence,
        rank_len(s, confidence) < s.len() ==> s[rank_len(s, confidence) as int].confidence
            < confidence,
    decreases s.len(),
{
    if s.len() > 0 && s[0].confidence >= confidence {
        let t = s.skip(1);
        lemma_rank_len(t, confidence);
        assert forall|i: int| 0 <= i < rank_len(s, confidence) implies s[i].confidence
            >= confidence by {
            if i > 0 {
                assert(t[i - 1] == s[i]);
            }
        }
        if rank_len(s, confidence) < s.len() {
            assert(t[rank_len(t, confidence) as int] == s[rank_len(s, confidence) as int]);
        }
    }
}

/// Inserts a match behind those that rank no lower.
fn insert_ranked(out: &mut Vec<SkillMatch>, m: SkillMatch)
    ensures
        match_views(final(out)@) == ranked_insert(match_views(old(out)@), m@),
{
    let ghost before = match_views(out@);
    let mut i: usize = 0;
    while i < out.len()
        invariant_except_break
            i <= out@.len(),
            before == match_views(out@),
            out@ == old(out)@,
            forall|j: int| 0 <= j < i ==> before[j].confidence >= m.confidence,
        ensures
            i <= out@.len(),
            before == match_views(out@),
            out@ == old(out)@,
            forall|j: int| 0 <= j < i ==> before[j].confidence >= m.confidence,
            i < out@.len() ==> before[i as int].confidence < m.confidence,
        decreases out@.len() - i,
    {
        assert(before[i as int] == out@[i as int]@);
        if out[i].confidence < m.confidence {
            break;
        }
        i += 1;
    }
    proof {
        lemma_rank_len(before, m.confidence);
        let r = rank_len(before, m.confidence) as int;
        if r < i {
            assert(before[r].confidence >= m.confidence);
        }
        if i < r {
            assert(before[i as int].confidence >= m.confidence);
        }
    }
    let ghost mv = m@;
    out.insert(i, m);
    assert(match_views(out@) =~= before.insert(i as int, mv));
}

/// A list of matches that reach a minimum, ranked, holds only such matches.
proof fn lemma_ranked_reaches(s: Seq<MatchView>, min_confidence: i64)
    requires
        forall|i: int| 0 <= i < s.len() ==> (#[trigger] s[i]).confidence >= min_confidence,
    ensures
        forall|i: int|
            0 <= i < ranked(s).len() ==> (#[trigger] ranked(s)[i]).confidence >= min_confidence,
    decreases s.len(),
{
    if s.len() > 0 {
        let t = s.drop_last();
        let q = ranked(t);
        let k = rank_len(q, s.last().confidence) as int;
        lemma_ranked_reaches(t, min_confidence);
        lemma_rank_len(q, s.last().confidence);
        assert(s.last() == s[s.len() - 1]);
        assert forall|i: int| 0 <= i < ranked(s).len() implies (#[trigger] ranked(s)[i]).confidence
            >= min_confidence by {
            if i < k {
                assert(ranked(s)[i] == q[i]);
            } else if i > k {
                assert(ranked(s)[i] == q[i - 1]);
            }
        }
    }
}

/// The matches of rows that apply reach the minimum.
proof fn lemma_applicable_reaches(
    rows: Seq<CandidateRow>,
    command: Seq<char>,
    min_confidence: i64,
)
    ensures
        forall|i: int|
            0 <= i < applicable(rows, command, min_confidence).len() ==> (#[trigger] applicable(
                rows,
                command,
                min_confidence,
            )[i]).confidence >= min_confidence,
    decreases rows.len(),
{
    if rows.len() > 0 {
        let init = applicable(rows.drop_last(), command, min_confidence);
        let all = applicable(rows, command, min_confidence);
        lemma_applicable_reaches(rows.drop_last(), command, min_confidence);
        assert forall|i: int| 0 <= i < all.len() implies (#[trigger] all[i]).confidence
            >= min_confidence by {
            if i < init.len() {
                assert(all[i] == init[i]);
            }
        }
    }
}

/// No match that is found has a confidence below the minimum, whatever the
/// weight of its trigger.
pub proof fn law_matches_reach_the_minimum(
    rows: Seq<CandidateRow>,
    command: Seq<char>,
    min_confidence: i64,
)
    ensures
        forall|i: int|
            0 <= i < ranked(applicable(rows, command, min_confidence)).len() ==> (#[trigger] ranked(
                applicable(rows, command, min_confidence),
            )[i]).confidence >= min_confidence,
{
    lemma_applicable_reaches(rows, command, min_confidence);
    lemma_ranked_reaches(applicable(rows, command, min_confidence), min_confidence);
}

/// Finds the skills that match a command.
///
/// Yields the matches sorted by confidence (highest first). Only enabled
/// skills are considered, and only those whose confidence, the action's own
/// and that of the match, is at least `min_confidence`. No row applies whose
/// pattern's first words leave the command out.
pub fn find_matches(rows: &Vec<CandidateRow>, command: &str, min_confidence: i64) -> (r: Vec<
    SkillMatch,
>)
    ensures
        match_views(r@) == ranked(applicable(rows@, command@, min_confidence)),
        forall|i: int| 0 <= i < r@.len() ==> (#[trigger] r@[i]).confidence >= min_confidence,
        forall|i: int|
            0 <= i < rows@.len() && applies(#[trigger] rows@[i], command@, min_confidence)
                ==> leaves_in(rows@[i].pattern@, command@),
{
    let mut out: Vec<SkillMatch> = Vec::new();
    let mut i: usize = 0;
    proof {
        assert(rows@.take(0) =~= Seq::empty());
        assert(match_views(out@) =~= ranked(applicable(rows@.take(0), command@, min_confidence)));
    }
    while i < rows.len()
        invariant
            i <= rows@.len(),
            match_views(out@) == ranked(applicable(rows@.take(i as int), command@, min_confidence)),
            forall|j: int|
                0 <= j < i && applies(#[trigger] rows@[j], command@, min_confidence) ==> leaves_in(
                    rows@[j].pattern@,
                    command@,
                ),
        decreases rows@.len() - i,
    {
        let row = &rows[i];
        proof {
            let t = rows@.take(i + 1);
            assert(t.drop_last() =~= rows@.take(i as int));
            assert(t.last() == *row);
        }
        let ghost before = applicable(rows@.take(i as int), command@, min_confidence);
        // A pattern is compiled only where its verdict counts.
        let verdict: Option<bool> = if row.enabled && row.base >= min_confidence && row.confidence
            >= min_confidence {
            patterns::regex_is_match(row.pattern.as_str(), command)
        } else {
            None
        };
        if row_applies(row, min_confidence, verdict) {
            proof {
                lemma_opening_is_left_in(row.pattern@, command@);
                let after = before.push(match_of(*row));
                assert(after.drop_last() =~= before);
                assert(after.last() == match_of(*row));
            }
            insert_ranked(
                &mut out,
                SkillMatch {
                    skill_name: row.skill_name.clone(),
                    action_type: row.action_type.clone(),
                    template: row.template.clone(),
                    confidence: row.confidence,
                    conf_label: row.conf_label.clone(),
                    skill_id: row.skill_id,
                },
            );
        }
        i += 1;
    }
    proof {
        assert(rows@.take(i as int) =~= rows@);
        law_matches_reach_the_minimum(rows@, command@, min_confidence);
        assert forall|j: int| 0 <= j < out@.len() implies (#[trigger] out@[j]).confidence
            >= min_confidence by {
            assert(match_views(out@)[j] == out@[j]@);
        }
    }
    out
}

/// The rows whose patterns have to be tried on a command.
pub open spec fn rows_left_in(rows: Seq<CandidateRow>, command: Seq<char>) -> Seq<CandidateRow>
    decreases rows.len(),
{
    if rows.len() == 0 {
        Seq::empty()
    } else if leaves_in(rows.last().pattern@, command) {
        rows_left_in(rows.drop_last(), command).push(rows.last())
    } else {
        rows_left_in(rows.drop_last(), command)
    }
}

/// To leave out the rows whose patterns need not be tried changes nothing,
/// given what [`find_matches`] states of the rows that apply.
pub proof fn law_skipping_loses_no_match(
    rows: Seq<CandidateRow>,
    command: Seq<char>,
    min_confidence: i64,
)
    requires
        forall|i: int|
            0 <= i < rows.len() && applies(#[trigger] rows[i], command, min_confidence)
                ==> leaves_in(rows[i].pattern@, command),
    ensures
        applicable(rows_left_in(rows, command), command, min_confidence) == applicable(
            rows,
            command,
            min_confidence,
        ),
    decreases rows.len(),
{
    if rows.len() > 0 {
        let init = rows.drop_last();
        let last = rows[rows.len() - 1];
        assert forall|i: int|
            0 <= i < init.len() && applies(#[trigger] init[i], command, min_confidence) implies leaves_in(
            init[i].pattern@,
            command,
        ) by {
            assert(init[i] == rows[i]);
        }
        law_skipping_loses_no_match(init, command, min_confidence);
        if leaves_in(last.pattern@, command) {
            let kept = rows_left_in(init, command);
            assert(kept.push(last).drop_last() =~= kept);
        } else {
            assert(!applies(last, command, min_confidence));
        }
    }
}

/// Matches are ordered from the highest confidence down.
pub open spec fn descending(s: Seq<MatchView>) -> bool {
    forall|i: int, j: int| 0 <= i <= j < s.len() ==> s[i].confidence >= s[j].confidence
}

/// The matches of one confidence, in order.
pub open spec fn of_confidence(s: Seq<MatchView>, confidence: i64) -> Seq<MatchView>
    decreases s.len(),
{
    if s.len() == 0 {
        Seq::empty()
    } else if s.last().confidence == confidence {
        of_confidence(s.drop_last(), confidence).push(s.last())
    } else {
        of_confidence(s.drop_last(), confidence)
    }
}

/// The matches of one confidence in two lists put together.
proof fn lemma_of_confidence_add(a: Seq<MatchView>, b: Seq<MatchView>, c: i64)
    ensures
        of_confidence(a + b, c) == of_confidence(a, c) + of_confidence(b, c),
    decreases b.len(),
{
    if b.len() == 0 {
        assert(a + b =~= a);
        assert(of_confidence(a, c) + of_confidence(b, c) =~= of_confidence(a, c));
    } else {
        lemma_of_confidence_add(a, b.drop_last(), c);
        assert((a + b).drop_last() =~= a + b.drop_last());
        assert((a + b).last() == b.last());
        if b.last().confidence == c {
            assert(of_confidence(a, c) + of_confidence(b.drop_last(), c).push(b.last())
                =~= (of_confidence(a, c) + of_confidence(b.drop_last(), c)).push(b.last()));
        }
    }
}

/// A list without a confidence has no matches of it.
proof fn lemma_of_confidence_none(s: Seq<MatchView>, c: i64)
    requires
        forall|i: int| 0 <= i < s.len() ==> s[i].confidence != c,
    ensures
        of_confidence(s, c) == Seq::<MatchView>::empty(),
    decreases s.len(),
{
    if s.len() > 0 {
        assert(s.last() == s[s.len() - 1]);
        lemma_of_confidence_none(s.drop_last(), c);
    }
}

/// Ranking orders the matches by confidence, highest first, loses and adds
/// none, and keeps those of equal confidence in the order in which they came.
pub proof fn law_ranked_is_stable_sort(s: Seq<MatchView>)
    ensures
        descending(ranked(s)),
        ranked(s).len() == s.len(),
        forall|c: i64| #[trigger] of_confidence(ranked(s), c) == of_confidence(s, c),
    decreases s.len(),
{
    if s.len() > 0 {
        let t = s.drop_last();
        let m = s.last();
        law_ranked_is_stable_sort(t);
        let q = ranked(t);
        let k = rank_len(q, m.confidence) as int;
        lemma_rank_len(q, m.confidence);
        let out = q.insert(k, m);
        let (a, b) = (q.take(k), q.skip(k));
        assert(q =~= a + b);
        assert(out =~= a.push(m) + b);
        assert(descending(out)) by {
            assert forall|i: int, j: int| 0 <= i <= j < out.len() implies out[i].confidence
                >= out[j].confidence by {
                if i < k && j == k {
                    assert(out[i] == q[i]);
                } else if i == k && j > k {
                    assert(out[j] == q[j - 1]);
                    assert(q[k].confidence >= q[j - 1].confidence);
                } else {
                    let i0 = if i < k { i } else { i - 1 };
                    let j0 = if j < k { j } else { j - 1 };
                    if i != k && j != k {
                        assert(out[i] == q[i0] && out[j] == q[j0]);
                    }
                }
            }
        }
        assert forall|c: i64| #[trigger] of_confidence(ranked(s), c) == of_confidence(s, c) by {
            lemma_of_confidence_add(a.push(m), b, c);
            lemma_of_confidence_add(a, b, c);
            assert(a.push(m).drop_last() =~= a);
            assert(of_confidence(q, c) == of_confidence(t, c));
            if c == m.confidence {
                assert forall|i: int| 0 <= i < b.len() implies b[i].confidence != c by {
                    assert(b[i] == q[k + i]);
                    assert(q[k].confidence >= q[k + i].confidence);
                }
                lemma_of_confidence_none(b, c);
                assert(of_confidence(out, c) =~= of_confidence(a, c).push(m));
                assert(of_confidence(q, c) =~= of_confidence(a, c));
            } else {
                assert(of_confidence(a.push(m), c) == of_confidence(a, c));
            }
        }
    }
}

// ---------------------------------------------------------------------------
// Ties
// ---------------------------------------------------------------------------
/// The number of leading `true`s.
pub open spec fn leading(near: Seq<bool>) -> nat
    decreases near.len(),
{
    if near.len() > 0 && near[0] {
        1 + leading(near.skip(1))
    } else {
        0
    }
}

/// Counts how many leading matches share the top confidence, given for each
/// match whether its confidence lies within a small epsilon of the first
/// one's. Yields 0 for fewer than two matches; a clear winner counts as 1.
pub fn top_confidence_ties(near_top: &Vec<bool>) -> (r: usize)
    ensures
        r == (if near_top@.len() < 2 {
            0
        } else {
            leading(near_top@)
        }),
{
    if near_top.len() < 2 {
        return 0;
    }
    let mut i: usize = 0;
    assert(near_top@.skip(0) =~= near_top@);
    while i < near_top.len()
        invariant
            i <= near_top@.len(),
            leading(near_top@) == i + leading(near_top@.skip(i as int)),
        decreases near_top@.len() - i,
    {
        proof {
            assert(near_top@.skip(i as int)[0] == near_top@[i as int]);
            assert(near_top@.skip(i as int).skip(1) =~= near_top@.skip(i + 1));
        }
        if !near_top[i] {
            return i;
        }
        i += 1;
    }
    i
}

/// The metric line for a tie of `tied` matches at the top.
pub open spec fn tie_line(ts: nat, tied: nat) -> Seq<char> {
    "{\"ts\":"@ + numerals::dec(ts) + ",\"type\":\"skill_tie_at_top\",\"value\":"@ + numerals::dec(
        tied,
    ) + ".0}\n"@
}

/// Writes one tie observation as a line of the metrics log.
pub fn skill_tie_line(ts: u64, tied: usize) -> (r: String)
    ensures
        r@ == tie_line(ts as nat, tied as nat),
{
    let mut out = "{\"ts\":".to_owned();
    numerals::push_dec(&mut out, ts);
    out.append(",\"type\":\"skill_tie_at_top\",\"value\":");
    numerals::push_dec(&mut out, tied as u64);
    out.append(".0}\n");
    out
}

// ---------------------------------------------------------------------------
// Templates
// ---------------------------------------------------------------------------
/// A template filled in: each placeholder in it is replaced, and what is put
/// in its place is taken as it is.
pub open spec fn filled(template: Seq<char>, command: Seq<char>, root: Seq<char>) -> Seq<char>
    decreases template.len(),
{
    let a = "{{original_command}}"@;
    let b = "{{project_root}}"@;
    proof {
        reveal_strlit("{{original_command}}");
        reveal_strlit("{{project_root}}");
    }
    if template.len() == 0 {
        Seq::empty()
    } else if a.is_prefix_of(template) {
        command + filled(template.skip(a.len() as int), command, root)
    } else if b.is_prefix_of(template) {
        root + filled(template.skip(b.len() as int), command, root)
    } else {
        seq![template[0]] + filled(template.skip(1), command, root)
    }
}

/// Text stands at an index where the rest from there starts with it.
proof fn lemma_prefix_at(v: Seq<char>, pat: Seq<char>, i: int)
    requires
        0 <= i <= v.len(),
    ensures
        text::occurs_at(v, pat, i) == pat.is_prefix_of(v.skip(i)),
{
    if i + pat.len() <= v.len() {
        assert(v.skip(i).subrange(0, pat.len() as int) =~= v.subrange(i, i + pat.len()));
    }
}

/// Applies a skill action template to produce a modified command.
///
/// Supported placeholders:
/// - `{{original_command}}`: the original command string
/// - `{{project_root}}`: the resolved project root directory
pub fn apply_template(template: &str, original_command: &str, project_root: &str) -> (r: String)
    ensures
        r@ == filled(template@, original_command@, project_root@),
{
    let v = text::chars_of(template);
    let a = text::chars_of("{{original_command}}");
    let b = text::chars_of("{{project_root}}");
    proof {
        reveal_strlit("{{original_command}}");
        reveal_strlit("{{project_root}}");
    }
    let ghost whole = filled(template@, original_command@, project_root@);
    let mut out = String::new();
    let mut i: usize = 0;
    proof {
        assert(v@.skip(0) =~= template@);
        assert(out@ + whole =~= whole);
    }
    while i < v.len()
        invariant
            i <= v@.len(),
            a@ == "{{original_command}}"@,
            b@ == "{{project_root}}"@,
            a@.len() == 20,
            b@.len() == 16,
            out@ + filled(v@.skip(i as int), original_command@, project_root@) == whole,
        decreases v@.len() - i,
    {
        let ghost before = out@;
        let ghost rest = v@.skip(i as int);
        proof {
            lemma_prefix_at(v@, a@, i as int);
            lemma_prefix_at(v@, b@, i as int);
        }
        if text::occurs(&v, &a, i) {
            out.append(original_command);
            i += 20;
            proof {
                let tail = filled(v@.skip(i as int), original_command@, project_root@);
                assert(rest.skip(20) =~= v@.skip(i as int));
                assert(before + (original_command@ + tail) =~= out@ + tail);
            }
        } else if text::occurs(&v, &b, i) {
            out.append(project_root);
            i += 16;
            proof {
                let tail = filled(v@.skip(i as int), original_command@, project_root@);
                assert(rest.skip(16) =~= v@.skip(i as int));
                assert(before + (project_root@ + tail) =~= out@ + tail);
            }
        } else {
            out.push(v[i]);
            i += 1;
            proof {
                let tail = filled(v@.skip(i as int), original_command@, project_root@);
                assert(rest.skip(1) =~= v@.skip(i as int));
                assert(rest[0] == v@[i - 1]);
                assert(before + (seq![rest[0]] + tail) =~= out@ + tail);
            }
        }
    }
    proof {
        assert(v@.skip(i as int).len() == 0);
        assert(out@ + filled(v@.skip(i as int), original_command@, project_root@) =~= out@);
    }
    out
}

/// A character that opens no placeholder is kept.
proof fn lemma_filled_char(template: Seq<char>, command: Seq<char>, root: Seq<char>)
    requires
        template.len() > 0,
        template[0] != '{',
    ensures
        filled(template, command, root) == seq![template[0]] + filled(
            template.skip(1),
            command,
            root,
        ),
{
    reveal_strlit("{{original_command}}");
    reveal_strlit("{{project_root}}");
    assert("{{original_command}}"@[0] == '{');
    assert("{{project_root}}"@[0] == '{');
}

/// A template without a placeholder is the command that it yields.
pub proof fn law_plain_template_is_kept(template: Seq<char>, command: Seq<char>, root: Seq<char>)
    requires
        !text::contains(template, "{{original_command}}"@),
        !text::contains(template, "{{project_root}}"@),
    ensures
        filled(template, command, root) == template,
    decreases template.len(),
{
    let a = "{{original_command}}"@;
    let b = "{{project_root}}"@;
    if template.len() > 0 {
        let rest = template.skip(1);
        lemma_prefix_at(template, a, 0);
        lemma_prefix_at(template, b, 0);
        assert(template.skip(0) =~= template);
        assert(!text::occurs_at(template, a, 0) && !text::occurs_at(template, b, 0));
        assert forall|i: int| !text::occurs_at(rest, a, i) by {
            if text::occurs_at(rest, a, i) {
                assert(template.subrange(i + 1, i + 1 + a.len()) =~= rest.subrange(i, i + a.len()));
                assert(text::occurs_at(template, a, i + 1));
            }
        }
        assert forall|i: int| !text::occurs_at(rest, b, i) by {
            if text::occurs_at(rest, b, i) {
                assert(template.subrange(i + 1, i + 1 + b.len()) =~= rest.subrange(i, i + b.len()));
                assert(text::occurs_at(template, b, i + 1));
            }
        }
        law_plain_template_is_kept(rest, command, root);
        assert(seq![template[0]] + rest =~= template);
    }
}

/// The template that prepends a `cd` yields the command behind a `cd` to the
/// project root, whatever the command and the root hold.
pub proof fn law_prepend_cd_template(command: Seq<char>, root: Seq<char>)
    ensures
        filled("cd {{project_root}} && {{original_command}}"@, command, root) == "cd "@ + root
            + " && "@ + command,
{
    let t = "cd {{project_root}} && {{original_command}}"@;
    let a = "{{original_command}}"@;
    let b = "{{project_root}}"@;
    reveal_strlit("cd {{project_root}} && {{original_command}}");
    reveal_strlit("{{original_command}}");
    reveal_strlit("{{project_root}}");
    reveal_strlit("cd ");
    reveal_strlit(" && ");
    let (t1, t2, t3) = (t.skip(1), t.skip(2), t.skip(3));
    assert(t1.skip(1) =~= t2 && t2.skip(1) =~= t3);
    lemma_filled_char(t, command, root);
    lemma_filled_char(t1, command, root);
    lemma_filled_char(t2, command, root);
    let u = t.skip(19);
    assert(t3[2] == 'p' && a[2] == 'o');
    assert(t3.subrange(0, 16) =~= b);
    assert(t3.skip(16) =~= u);
    assert(!a.is_prefix_of(t3)) by {
        if a.is_prefix_of(t3) {
            assert(t3.subrange(0, 20)[2] == a[2]);
        }
    }
    assert(filled(t3, command, root) == root + filled(u, command, root));
    let (u1, u2, u3, u4) = (t.skip(20), t.skip(21), t.skip(22), t.skip(23));
    assert(u.skip(1) =~= u1 && u1.skip(1) =~= u2 && u2.skip(1) =~= u3 && u3.skip(1) =~= u4);
    lemma_filled_char(u, command, root);
    lemma_filled_char(u1, command, root);
    lemma_filled_char(u2, command, root);
    lemma_filled_char(u3, command, root);
    assert(u4.subrange(0, 20) =~= a);
    let none = u4.skip(20);
    assert(none.len() == 0);
    assert(filled(none, command, root) == Seq::<char>::empty());
    assert(a.is_prefix_of(u4));
    assert(filled(u4, command, root) == command + filled(none, command, root));
    assert(filled(u4, command, root) =~= command);
    assert(filled(u, command, root) =~= " && "@ + command);
    assert(filled(t, command, root) =~= "cd "@ + (root + (" && "@ + command)));
    assert("cd "@ + (root + (" && "@ + command)) =~= "cd "@ + root + " && "@ + command);
}

/// A placeholder stands across index `n` of a text.
pub open spec fn crosses(s: Seq<char>, n: int) -> bool {
    exists|j: int| #[trigger] stands_across(s, n, j)
}

/// A placeholder starts at index `j`, before index `n`, and ends behind it.
pub open spec fn stands_across(s: Seq<char>, n: int, j: int) -> bool {
    &&& 0 <= j < n
    &&& text::occurs_at(s, "{{original_command}}"@, j) && j + 20 > n || text::occurs_at(
        s,
        "{{project_root}}"@,
        j,
    ) && j + 16 > n
}

/// A template is filled from left to right, piece by piece, unless a
/// placeholder stands across the two pieces.
proof fn lemma_filled_append(p: Seq<char>, t: Seq<char>, command: Seq<char>, root: Seq<char>)
    requires
        !crosses(p + t, p.len() as int),
    ensures
        filled(p + t, command, root) == filled(p, command, root) + filled(t, command, root),
    decreases p.len(),
{
    let a = "{{original_command}}"@;
    let b = "{{project_root}}"@;
    let s = p + t;
    reveal_strlit("{{original_command}}");
    reveal_strlit("{{project_root}}");
    if p.len() == 0 {
        assert(s =~= t);
        assert(filled(p, command, root) + filled(t, command, root) =~= filled(t, command, root));
    } else {
        lemma_prefix_at(s, a, 0);
        lemma_prefix_at(s, b, 0);
        assert(s.skip(0) =~= s);
        let k: int = if a.is_prefix_of(s) {
            20
        } else if b.is_prefix_of(s) {
            16
        } else {
            1
        };
        if a.is_prefix_of(s) {
            assert(text::occurs_at(s, a, 0));
            assert(!stands_across(s, p.len() as int, 0));
            assert(20 <= p.len());
            assert(p.subrange(0, 20) =~= s.subrange(0, 20));
        } else if b.is_prefix_of(s) {
            assert(text::occurs_at(s, b, 0));
            assert(!stands_across(s, p.len() as int, 0));
            assert(16 <= p.len());
            assert(p.subrange(0, 16) =~= s.subrange(0, 16));
            assert(!a.is_prefix_of(p)) by {
                if a.is_prefix_of(p) {
                    assert(s.subrange(0, 20) =~= p.subrange(0, 20));
                }
            }
        } else {
            assert(!a.is_prefix_of(p)) by {
                if a.is_prefix_of(p) {
                    assert(s.subrange(0, 20) =~= p.subrange(0, 20));
                }
            }
            assert(!b.is_prefix_of(p)) by {
                if b.is_prefix_of(p) {
                    assert(s.subrange(0, 16) =~= p.subrange(0, 16));
                }
            }
        }
        let q = p.skip(k);
        assert(s.skip(k) =~= q + t);
        assert(!crosses(q + t, q.len() as int)) by {
            if crosses(q + t, q.len() as int) {
                let n = q.len() as int;
                let j = choose|j: int| #[trigger] stands_across(q + t, n, j);
                if text::occurs_at(q + t, a, j) && j + 20 > n {
                    assert(s.subrange(j + k, j + k + 20) =~= (q + t).subrange(j, j + 20));
                } else {
                    assert(s.subrange(j + k, j + k + 16) =~= (q + t).subrange(j, j + 16));
                }
                assert(stands_across(s, n + k, j + k));
            }
        }
        lemma_filled_append(q, t, command, root);
        let (x, y) = (filled(q, command, root), filled(t, command, root));
        if k == 20 {
            assert(command + (x + y) =~= (command + x) + y);
        } else if k == 16 {
            assert(root + (x + y) =~= (root + x) + y);
        } else {
            assert(s[0] == p[0]);
            assert(seq![p[0]] + (x + y) =~= (seq![p[0]] + x) + y);
        }
    }
}

/// Each placeholder is replaced by what it stands for, and what stands before
/// it and behind it is kept.
pub proof fn law_placeholders_are_replaced(
    before: Seq<char>,
    behind: Seq<char>,
    command: Seq<char>,
    root: Seq<char>,
)
    ensures
        !crosses(before + "{{original_command}}"@ + behind, before.len() as int) ==> filled(
            before + "{{original_command}}"@ + behind,
            command,
            root,
        ) == filled(before, command, root) + command + filled(behind, command, root),
        !crosses(before + "{{project_root}}"@ + behind, before.len() as int) ==> filled(
            before + "{{project_root}}"@ + behind,
            command,
            root,
        ) == filled(before, command, root) + root + filled(behind, command, root),
{
    let a = "{{original_command}}"@;
    let b = "{{project_root}}"@;
    reveal_strlit("{{original_command}}");
    reveal_strlit("{{project_root}}");
    let (x, y) = (filled(before, command, root), filled(behind, command, root));
    assert(before + a + behind =~= before + (a + behind));
    assert(before + b + behind =~= before + (b + behind));
    assert((a + behind).subrange(0, 20) =~= a);
    assert((a + behind).skip(20) =~= behind);
    assert((b + behind).subrange(0, 16) =~= b);
    assert((b + behind).skip(16) =~= behind);
    assert(!a.is_prefix_of(b + behind)) by {
        if a.is_prefix_of(b + behind) {
            assert((b + behind).subrange(0, 20)[2] == a[2]);
            assert((b + behind)[2] == b[2]);
        }
    }
    if !crosses(before + a + behind, before.len() as int) {
        lemma_filled_append(before, a + behind, command, root);
        assert(x + (command + y) =~= x + command + y);
    }
    if !crosses(before + b + behind, before.len() as int) {
        lemma_filled_append(before, b + behind, command, root);
        assert(x + (root + y) =~= x + root + y);
    }
}

/// Text around a placeholder is kept as it is where it holds none itself.
pub proof fn law_text_around_a_placeholder_is_kept(
    before: Seq<char>,
    behind: Seq<char>,
    command: Seq<char>,
    root: Seq<char>,
)
    requires
        !text::contains(before, "{{original_command}}"@),
        !text::contains(before, "{{project_root}}"@),
        !text::contains(behind, "{{original_command}}"@),
        !text::contains(behind, "{{project_root}}"@),
    ensures
        !crosses(before + "{{original_command}}"@ + behind, before.len() as int) ==> filled(
            before + "{{original_command}}"@ + behind,
            command,
            root,
        ) == before + command + behind,
        !crosses(before + "{{project_root}}"@ + behind, before.len() as int) ==> filled(
            before + "{{project_root}}"@ + behind,
            command,
            root,
        ) == before + root + behind,
{
    law_placeholders_are_replaced(before, behind, command, root);
    law_plain_template_is_kept(before, command, root);
    law_plain_template_is_kept(behind, command, root);
}

/// A flag behind the command's placeholder is added to the command.
pub proof fn law_flag_is_added(flag: Seq<char>, command: Seq<char>, root: Seq<char>)
    requires
        !text::contains(seq![' '] + flag, "{{original_command}}"@),
        !text::contains(seq![' '] + flag, "{{project_root}}"@),
    ensures
        filled("{{original_command}} "@ + flag, command, root) == command + seq![' '] + flag,
{
    let none = Seq::<char>::empty();
    let a = "{{original_command}}"@;
    let behind = seq![' '] + flag;
    reveal_strlit("{{original_command}}");
    reveal_strlit("{{original_command}} ");
    assert("{{original_command}} "@ + flag =~= none + a + behind);
    law_placeholders_are_replaced(none, behind, command, root);
    law_plain_template_is_kept(behind, command, root);
    assert(filled(none, command, root) + command + behind =~= command + seq![' '] + flag);
}

// ---------------------------------------------------------------------------
// Activation log
// ---------------------------------------------------------------------------
/// The line that records an activation.
pub open spec fn activation_record(
    ts: nat,
    skill_id: int,
    skill_name: Seq<char>,
    conf: Seq<char>,
) -> Seq<char> {
    "{\"ts\":"@ + numerals::dec(ts) + ",\"skill_id\":"@ + numerals::dec_int(skill_id)
        + ",\"skill_name\":\""@ + skill_name + "\",\"conf\":"@ + conf + "}\n"@
}

/// Writes the line that records an activation. `conf` is the confidence with
/// three decimals.
pub fn activation_line(ts: u64, skill_id: i64, skill_name: &str, conf: &str) -> (r: String)
    ensures
        r@ == activation_record(ts as nat, skill_id as int, skill_name@, conf@),
{
    let mut out = "{\"ts\":".to_owned();
    numerals::push_dec(&mut out, ts);
    out.append(",\"skill_id\":");
    let id = numerals::dec_int_text(skill_id);
    out.append(id.as_str());
    out.append(",\"skill_name\":\"");
    out.append(skill_name);
    out.append("\",\"conf\":");
    out.append(conf);
    out.append("}\n");
    out
}

/// The integer that follows the first occurrence of `key` in a line.
pub open spec fn int_field(line: Seq<char>, key: Seq<char>) -> Option<int> {
    match text::find(line, key) {
        Some(i) => {
            let rest = line.skip(i + key.len());
            let n = text::run_len(rest, Class::Signed) as int;
            numerals::read_between(rest.take(n), i64::MIN as int, i64::MAX as int)
        },
        None => None,
    }
}

/// Extracts an integer field from a JSON-ish line, e.g. 42 from
/// `{"skill_id":42,...}` under the key `"skill_id":`. Tailored to the line
/// format that [`activation_line`] writes; it does not handle whitespace or
/// escaped strings.
pub fn extract_int_field(line: &str, key: &str) -> (r: Option<i64>)
    ensures
        match r {
            Some(x) => int_field(line@, key@) == Some(x as int),
            None => int_field(line@, key@) is None,
        },
{
    match text::find_text(line, key) {
        Some(i) => {
            let v = text::chars_of(line);
            let k: usize = key.unicode_len();
            assert(i + k <= v.len());
            let a: usize = i + k;
            let b: usize = text::run_end(&v, a, Class::Signed);
            let t = text::string_of(&v, a, b);
            assert(t@ =~= line@.skip(a as int).take(b - a));
            numerals::read_i64(t.as_str())
        },
        None => None,
    }
}

/// The skill ids that the lines of an activation log record. Lines without
/// one are passed over.
pub open spec fn ids_in(lines: Seq<Seq<char>>) -> Seq<int>
    decreases lines.len(),
{
    if lines.len() == 0 {
        Seq::empty()
    } else {
        let rest = ids_in(lines.drop_last());
        let line = text::trim(lines.last());
        match int_field(line, "\"skill_id\":"@) {
            Some(id) => if line.len() == 0 {
                rest
            } else {
                rest.push(id)
            },
            None => rest,
        }
    }
}

/// The values of a sequence of ids.
pub open spec fn id_values(v: Seq<i64>) -> Seq<int> {
    Seq::new(v.len(), |i: int| v[i] as int)
}

/// Reads the activations to replay from the text of the log, one per line.
pub fn logged_activations(log: &str) -> (r: Vec<i64>)
    ensures
        id_values(r@) == ids_in(text::lines(log@)),
{
    let lines = text::split_lines(log);
    let ghost all = text::views(lines@);
    let mut out: Vec<i64> = Vec::new();
    let mut i: usize = 0;
    proof {
        assert(all.take(0) =~= Seq::<Seq<char>>::empty());
        assert(id_values(out@) =~= ids_in(all.take(0)));
    }
    while i < lines.len()
        invariant
            i <= lines@.len(),
            all == text::views(lines@),
            id_values(out@) == ids_in(all.take(i as int)),
        decreases lines@.len() - i,
    {
        proof {
            let t = all.take(i + 1);
            assert(t.drop_last() =~= all.take(i as int));
            assert(t.last() == lines@[i as int]@);
        }
        let line = text::trimmed(lines[i].as_str());
        let ghost before = id_values(out@);
        if !line.is_empty() {
            if let Some(id) = extract_int_field(line, "\"skill_id\":") {
                out.push(id);
                assert(id_values(out@) =~= before.push(id as int));
            }
        }
        i += 1;
    }
    assert(all.take(i as int) =~= all);
    out
}

/// An activation as it is logged.
pub struct Activation {
    /// When, in seconds.
    pub ts: nat,
    /// The skill's id.
    pub skill_id: int,
    /// The skill's name.
    pub skill_name: Seq<char>,
    /// The confidence as it is shown.
    pub conf: Seq<char>,
}

/// The log that a sequence of activations leaves.
pub open spec fn log_of(entries: Seq<Activation>) -> Seq<char>
    decreases entries.len(),
{
    if entries.len() == 0 {
        Seq::empty()
    } else {
        let a = entries.last();
        log_of(entries.drop_last()) + activation_record(a.ts, a.skill_id, a.skill_name, a.conf)
    }
}

/// The line of a record, without its line feed, yields the id that was
/// written, whatever else it records.
pub proof fn law_activation_reads_back(
    ts: nat,
    skill_id: int,
    skill_name: Seq<char>,
    conf: Seq<char>,
)
    requires
        i64::MIN <= skill_id <= i64::MAX,
    ensures
        int_field(
            activation_record(ts, skill_id, skill_name, conf).drop_last(),
            "\"skill_id\":"@,
        ) == Some(skill_id),
{
    let key = "\"skill_id\":"@;
    let open = "{\"ts\":"@;
    reveal_strlit("\"skill_id\":");
    reveal_strlit("{\"ts\":");
    reveal_strlit(",\"skill_id\":");
    reveal_strlit(",\"skill_name\":\"");
    reveal_strlit("\",\"conf\":");
    reveal_strlit("}\n");
    let d = numerals::dec(ts);
    let n = numerals::dec_int(skill_id);
    let rec = activation_record(ts, skill_id, skill_name, conf);
    let line = rec.drop_last();
    let tail = ",\"skill_name\":\""@ + skill_name + "\",\"conf\":"@ + conf + "}\n"@;
    let p = 7 + d.len() as int;
    assert(rec =~= open + d + ",\"skill_id\":"@ + n + tail);
    numerals::lemma_dec_reads_back(ts);
    assert(text::occurs_at(line, key, p)) by {
        assert(line.subrange(p, p + key.len() as int) =~= key);
    }
    assert forall|j: int| 0 <= j < p implies !text::occurs_at(line, key, j) by {
        if text::occurs_at(line, key, j) {
            let sub = line.subrange(j, j + key.len());
            assert(sub[0] == '"' && sub[1] == 's');
            assert(line[j] == '"' && line[j + 1] == 's');
            if j < 6 {
                assert(line[j] == open[j]);
                if j < 5 {
                    assert(line[j + 1] == open[j + 1]);
                }
            } else if j < 6 + d.len() {
                assert(line[j] == d[j - 6]);
                assert(text::is_digit(d[j - 6]));
            } else {
                assert(line[j] == ',');
            }
        }
    }
    text::lemma_find_is(line, key, p);
    let rest = line.skip(p + key.len());
    let after = tail.drop_last();
    assert(rest =~= n + after);
    numerals::lemma_dec_int_reads_back(skill_id);
    assert forall|i: int| 0 <= i < n.len() implies text::in_class(Class::Signed, rest[i]) by {
        assert(rest[i] == n[i]);
        if skill_id < 0 {
            let m = numerals::dec((-skill_id) as nat);
            numerals::lemma_dec_reads_back((-skill_id) as nat);
            if i > 0 {
                assert(n[i] == m[i - 1]);
                assert(text::is_digit(m[i - 1]));
            }
        } else {
            numerals::lemma_dec_reads_back(skill_id as nat);
            assert(text::is_digit(n[i]));
        }
    }
    assert(rest[n.len() as int] == ',');
    text::lemma_run_unique(rest, Class::Signed, n.len() as int);
    assert(rest.take(n.len() as int) =~= n);
}

/// Replaying a log yields the ids of the activations that were written to it,
/// in order. A skill's name must not break its line.
#[verifier::rlimit(40)]
pub proof fn law_log_replays(entries: Seq<Activation>)
    requires
        forall|i: int|
            0 <= i < entries.len() ==> {
                &&& i64::MIN <= (#[trigger] entries[i]).skill_id <= i64::MAX
                &&& !entries[i].skill_name.contains('\n')
                &&& !entries[i].conf.contains('\n')
            },
    ensures
        ids_in(text::lines(log_of(entries))) == Seq::new(
            entries.len(),
            |i: int| entries[i].skill_id,
        ),
        log_of(entries).len() == 0 || log_of(entries).last() == '\n',
    decreases entries.len(),
{
    let ids = Seq::new(entries.len(), |i: int| entries[i].skill_id);
    if entries.len() == 0 {
        assert(text::lines(log_of(entries)) =~= Seq::<Seq<char>>::empty());
        assert(ids =~= Seq::<int>::empty());
    } else {
        let init = entries.drop_last();
        let a = entries.last();
        let rec = activation_record(a.ts, a.skill_id, a.skill_name, a.conf);
        assert forall|i: int| 0 <= i < init.len() implies {
            &&& i64::MIN <= (#[trigger] init[i]).skill_id <= i64::MAX
            &&& !init[i].skill_name.contains('\n')
            &&& !init[i].conf.contains('\n')
        } by {
            assert(init[i] == entries[i]);
        }
        law_log_replays(init);
        assert(a == entries[entries.len() - 1]);
        law_activation_reads_back(a.ts, a.skill_id, a.skill_name, a.conf);
        reveal_strlit("{\"ts\":");
        reveal_strlit(",\"skill_id\":");
        reveal_strlit(",\"skill_name\":\"");
        reveal_strlit("\",\"conf\":");
        reveal_strlit("}\n");
        let line = rec.drop_last();
        let d = numerals::dec(a.ts);
        let n = numerals::dec_int(a.skill_id);
        numerals::lemma_dec_reads_back(a.ts);
        numerals::lemma_dec_int_reads_back(a.skill_id);
        if a.skill_id < 0 {
            numerals::lemma_dec_reads_back((-a.skill_id) as nat);
        } else {
            numerals::lemma_dec_reads_back(a.skill_id as nat);
        }
        assert(rec.last() == '\n');
        assert(rec =~= line.push('\n'));
        assert(line[0] == '{');
        assert(line.last() == '}');
        assert(!line.contains('\n')) by {
            if line.contains('\n') {
                let i = line.index_of('\n');
                let (p1, p2) = (6 + d.len(), 6 + d.len() + 12);
                let p3 = p2 + n.len();
                let p4 = p3 + 15;
                let p5 = p4 + a.skill_name.len();
                let p6 = p5 + 9;
                let p7 = p6 + a.conf.len();
                assert(line[i] == rec[i]);
                if i < 6 {
                } else if i < p1 {
                    assert(line[i] == d[i - 6]);
                    assert(text::is_digit(d[i - 6]));
                } else if i < p2 {
                    assert(line[i] == ",\"skill_id\":"@[i - p1]);
                } else if i < p3 {
                    assert(line[i] == n[i - p2]);
                    if a.skill_id < 0 {
                        if i > p2 {
                            assert(n[i - p2] == numerals::dec((-a.skill_id) as nat)[i - p2 - 1]);
                            assert(text::is_digit(
                                numerals::dec((-a.skill_id) as nat)[i - p2 - 1],
                            ));
                        }
                    } else {
                        assert(text::is_digit(n[i - p2]));
                    }
                } else if i < p4 {
                    assert(line[i] == ",\"skill_name\":\""@[i - p3]);
                } else if i < p5 {
                    assert(line[i] == a.skill_name[i - p4]);
                    assert(a.skill_name.contains(a.skill_name[i - p4]));
                } else if i < p6 {
                    assert(line[i] == "\",\"conf\":"@[i - p5]);
                } else if i < p7 {
                    assert(line[i] == a.conf[i - p6]);
                    assert(a.conf.contains(a.conf[i - p6]));
                } else {
                    assert(line[i] == '}');
                }
            }
        }
        text::lemma_one_line(line);
        text::lemma_lines_append(log_of(init), rec);
        let before = text::lines(log_of(init));
        let all = text::lines(log_of(entries));
        assert(all =~= before.push(line));
        assert(all.drop_last() =~= before);
        text::lemma_trim_same(line);
        assert(ids =~= ids.drop_last().push(a.skill_id));
        assert(ids.drop_last() =~= Seq::new(init.len(), |i: int| init[i].skill_id));
    }
}

/// How often each skill was activated, 0 where nothing is recorded.
pub open spec fn activations(stats: Map<int, nat>, skill: int) -> nat {
    if stats.dom().contains(skill) {
        stats[skill]
    } else {
        0
    }
}

/// How many of the ids are a skill's.
pub open spec fn times_in(ids: Seq<int>, skill: int) -> nat
    decreases ids.len(),
{
    if ids.len() == 0 {
        0
    } else if ids.last() == skill {
        times_in(ids.drop_last(), skill) + 1
    } else {
        times_in(ids.drop_last(), skill)
    }
}

/// The activations after each of the ids was counted.
pub open spec fn counted_in(stats: Map<int, nat>, ids: Seq<int>) -> Map<int, nat>
    decreases ids.len(),
{
    if ids.len() == 0 {
        stats
    } else {
        let before = counted_in(stats, ids.drop_last());
        before.insert(ids.last(), activations(before, ids.last()) + 1)
    }
}

/// A replay: the activations of the log are counted, and the log is emptied.
/// Yields the counts, the log that is left and the number of activations.
pub open spec fn replay(stats: Map<int, nat>, log: Seq<char>) -> (Map<int, nat>, Seq<char>, nat) {
    let ids = ids_in(text::lines(log));
    (counted_in(stats, ids), Seq::empty(), ids.len())
}

/// A line of the log that is not blank.
pub open spec fn is_entry(line: Seq<char>) -> bool {
    text::trim(line).len() > 0
}

/// The number of lines that are not blank.
pub open spec fn entries_in(lines: Seq<Seq<char>>) -> nat
    decreases lines.len(),
{
    if lines.len() == 0 {
        0
    } else if is_entry(lines.last()) {
        entries_in(lines.drop_last()) + 1
    } else {
        entries_in(lines.drop_last())
    }
}

/// Counting ids adds to each skill as many activations as the ids hold of it.
proof fn lemma_counted_in(stats: Map<int, nat>, ids: Seq<int>, skill: int)
    ensures
        activations(counted_in(stats, ids), skill) == activations(stats, skill) + times_in(
            ids,
            skill,
        ),
    decreases ids.len(),
{
    if ids.len() > 0 {
        lemma_counted_in(stats, ids.drop_last(), skill);
    }
}

/// A replay adds to each skill's activations the number of lines that record
/// it, and to no other skill's any.
pub proof fn law_replay_counts_each_line(stats: Map<int, nat>, log: Seq<char>, skill: int)
    ensures
        activations(replay(stats, log).0, skill) == activations(stats, skill) + times_in(
            ids_in(text::lines(log)),
            skill,
        ),
{
    lemma_counted_in(stats, ids_in(text::lines(log)), skill);
}

/// A second replay counts nothing: the first one left an empty log.
pub proof fn law_second_replay_is_empty(stats: Map<int, nat>, log: Seq<char>)
    ensures
        ({
            let (after, left, _) = replay(stats, log);
            replay(after, left) == (after, left, 0nat)
        }),
{
    let (after, left, _) = replay(stats, log);
    assert(ids_in(text::lines(left)) == Seq::<int>::empty());
}

/// Each line that is not blank and names a skill is one activation; no other
/// line is.
pub proof fn law_every_entry_is_an_activation(lines: Seq<Seq<char>>)
    ensures
        ids_in(lines).len() <= entries_in(lines),
        (forall|i: int|
            0 <= i < lines.len() && is_entry(#[trigger] lines[i]) ==> int_field(
                text::trim(lines[i]),
                "\"skill_id\":"@,
            ) is Some) ==> ids_in(lines).len() == entries_in(lines),
    decreases lines.len(),
{
    if lines.len() > 0 {
        let init = lines.drop_last();
        law_every_entry_is_an_activation(init);
        if forall|i: int|
            0 <= i < lines.len() && is_entry(#[trigger] lines[i]) ==> int_field(
                text::trim(lines[i]),
                "\"skill_id\":"@,
            ) is Some {
            assert forall|i: int| 0 <= i < init.len() && is_entry(#[trigger] init[i]) implies int_field(
                text::trim(init[i]),
                "\"skill_id\":"@,
            ) is Some by {
                assert(init[i] == lines[i]);
            }
            assert(lines.last() == lines[lines.len() - 1]);
        }
    }
}

// ---------------------------------------------------------------------------
// Upkeep
// ---------------------------------------------------------------------------
/// A moment as the databases hold it: whole seconds since the epoch.
pub fn chrono_now(secs: u64) -> (r: String)
    ensures
        r@ == numerals::dec(secs as nat),
{
    numerals::dec_text(secs)
}

/// The priority of a skill whose file states none.
pub fn default_priority() -> (r: i32)
    ensures
        r == 100,
{
    100
}

/// Whether a skill is retired after its confidence was lowered: it exists and
/// the best confidence left to it lies below the threshold.
pub fn decay_confidence(skill: Option<i64>, max_confidence: i64, disable_threshold: i64) -> (r:
    bool)
    ensures
        r == (skill is Some && max_confidence < disable_threshold),
{
    skill.is_some() && max_confidence < disable_threshold
}

/// Why a skill cannot be updated.
pub enum UpdateError {
    /// The file names another skill.
    Renamed {
        /// The name in the file.
        stated: String,
        /// The name of the skill to update.
        existing: String,
    },
    /// There is no such skill.
    NotFound {
        /// The name that was looked for.
        name: String,
    },
}

/// `s` in double quotes, its special characters escaped, as std's debug
/// formatting writes it.
pub uninterp spec fn debug_form(s: Seq<char>) -> Seq<char>;

/// std's `Debug` formatting of a string. The quotes and escapes are std's to
/// say; the result depends on the string alone.
#[verifier::external_body]
fn debug_text(s: &str) -> (r: String)
    ensures
        r@ == debug_form(s@),
{
    format!("{:?}", s)
}

/// What is said of a missing skill.
pub open spec fn not_found_sentence(name: Seq<char>) -> Seq<char> {
    "skill '"@ + name + "' not found"@
}

/// What is said of a file that names another skill, given both names in their
/// debug form.
pub open spec fn renamed_sentence(stated_form: Seq<char>, existing_form: Seq<char>) -> Seq<char> {
    "skill name in TOML ("@ + stated_form + ") does not match existing name ("@ + existing_form
        + "); rename is not supported via edit"@
}

/// The message that a skill was not found.
pub fn not_found_message(name: &str) -> (r: String)
    ensures
        r@ == not_found_sentence(name@),
{
    let mut out = "skill '".to_owned();
    out.append(name);
    out.append("' not found");
    out
}

/// The message that a file names another skill, given both names in their
/// debug form.
pub fn renamed_message(stated_form: &str, existing_form: &str) -> (r: String)
    ensures
        r@ == renamed_sentence(stated_form@, existing_form@),
{
    let mut out = "skill name in TOML (".to_owned();
    out.append(stated_form);
    out.append(") does not match existing name (");
    out.append(existing_form);
    out.append("); rename is not supported via edit");
    out
}

impl UpdateError {
    /// The error as a sentence.
    pub fn message(&self) -> (r: String)
        ensures
            r@ == (match self {
                UpdateError::Renamed { stated, existing } => renamed_sentence(
                    debug_form(stated@),
                    debug_form(existing@),
                ),
                UpdateError::NotFound { name } => not_found_sentence(name@),
            }),
    {
        match self {
            UpdateError::Renamed { stated, existing } => {
                let a = debug_text(stated.as_str());
                let b = debug_text(existing.as_str());
                renamed_message(a.as_str(), b.as_str())
            },
            UpdateError::NotFound { name } => not_found_message(name.as_str()),
        }
    }
}

/// Decides whether the file of a skill may replace the skill `existing_name`,
/// given the name in the file and the id found under `existing_name`. Renaming
/// by an edit is not supported, and is reported before a missing skill.
pub fn update_skill_toml(stated: &str, existing_name: &str, found: Option<i64>) -> (r: Result<
    i64,
    UpdateError,
>)
    ensures
        match r {
            Ok(id) => stated@ == existing_name@ && found == Some(id),
            Err(UpdateError::Renamed { stated: a, existing: b }) => {
                &&& stated@ != existing_name@
                &&& a@ == stated@
                &&& b@ == existing_name@
            },
            Err(UpdateError::NotFound { name }) => {
                &&& stated@ == existing_name@
                &&& found is None
                &&& name@ == existing_name@
            },
        },
{
    if !text::same(stated, existing_name) {
        return Err(
            UpdateError::Renamed { stated: stated.to_owned(), existing: existing_name.to_owned() },
        );
    }
    match found {
        Some(id) => Ok(id),
        None => Err(UpdateError::NotFound { name: existing_name.to_owned() }),
    }
}

/// The verb of a command is its first word; that of a command behind `cd DIR && `
/// is the first word behind it.
pub proof fn law_verb_is_the_tool_that_runs(
    pad: Seq<char>,
    dir: Seq<char>,
    more_pad: Seq<char>,
    verb: Seq<char>,
    rest: Seq<char>,
)
    requires
        forall|i: int| 0 <= i < pad.len() ==> text::is_space(#[trigger] pad[i]),
        forall|i: int| 0 <= i < more_pad.len() ==> text::is_space(#[trigger] more_pad[i]),
        verb.len() > 0,
        forall|i: int| 0 <= i < verb.len() ==> !text::is_space(#[trigger] verb[i]),
        rest.len() == 0 || text::is_space(rest[0]),
    ensures
        !"cd "@.is_prefix_of(verb + rest) ==> verb_of(pad + (verb + rest)) == verb,
        !text::contains(rest, " && "@) && verb.len() > 2 ==> verb_of(pad + (verb + rest)) == verb,
        text::find(dir + " && "@ + (more_pad + verb + rest), " && "@) == Some(dir.len() as int)
            ==> verb_of(pad + ("cd "@ + (dir + " && "@ + (more_pad + verb + rest)))) == verb,
{
    reveal_strlit("cd ");
    reveal_strlit(" && ");
    let none = Seq::<char>::empty();
    let plain = verb + rest;
    lemma_trim_start_pad(pad, plain);
    text::law_words_stand_between_spaces(none, verb, rest);
    assert(none + verb + rest =~= plain);
    text::law_prefix_and_rest(plain, "cd "@, plain);
    if verb.len() > 2 && "cd "@.is_prefix_of(plain) {
        assert(plain.subrange(0, 3)[2] == plain[2]);
        assert(plain[2] == verb[2]);
        assert(text::is_space(' '));
    }
    let inner = more_pad + verb + rest;
    let tail = dir + " && "@ + inner;
    let moved = "cd "@ + tail;
    assert(moved[0] == 'c');
    lemma_trim_start_pad(pad, moved);
    text::law_prefix_and_rest(moved, "cd "@, tail);
    if text::find(tail, " && "@) == Some(dir.len() as int) {
        assert(tail.skip(dir.len() as int + 4) =~= inner);
        text::law_words_stand_between_spaces(more_pad, verb, rest);
    }
}

/// Space at the front is taken off.
proof fn lemma_trim_start_pad(pad: Seq<char>, s: Seq<char>)
    requires
        forall|i: int| 0 <= i < pad.len() ==> text::is_space(#[trigger] pad[i]),
        s.len() > 0,
        !text::is_space(s[0]),
    ensures
        text::trim_start(pad + s) == s,
{
    let all = pad + s;
    let n = pad.len() as int;
    assert forall|i: int| 0 <= i < n implies text::in_class(
        Class::Space,
        #[trigger] all[i],
    ) by {
        assert(text::is_space(pad[i]));
    }
    assert(all[n] == s[0]);
    text::lemma_run_unique(all, Class::Space, n);
    assert(all.skip(n) =~= s);
}

/// A file trigger holds if its file exists; one with an exclamation mark before
/// the name holds if its file does not.
pub proof fn law_file_triggers(t: FileTrigger, name: Seq<char>)
    ensures
        t.pattern@ == seq!['!'] + name ==> (trigger_holds(t) <==> !t.exists) && named_file(
            t.pattern@,
        ) == name,
        t.pattern@ == name && (name.len() == 0 || name[0] != '!') ==> (trigger_holds(t)
            <==> t.exists) && named_file(t.pattern@) == name,
{
    reveal_strlit("!");
    assert("!"@ =~= seq!['!']);
    text::law_prefix_and_rest(t.pattern@, "!"@, name);
    if t.pattern@ == seq!['!'] + name {
        assert(t.pattern@.subrange(0, 1) =~= "!"@);
    }
    if t.pattern@ == name && "!"@.is_prefix_of(name) {
        assert(name.subrange(0, 1)[0] == name[0]);
    }
}

/// A row yields a match exactly if its skill is enabled, the action's confidence
/// and the weighted one both reach the minimum, its regular expression matches
/// the command and each of its file triggers holds. The match tells the skill,
/// the action and the weighted confidence.
pub proof fn law_row_applies_exactly_if(
    rows: Seq<CandidateRow>,
    row: CandidateRow,
    command: Seq<char>,
    min_confidence: i64,
)
    ensures
        applicable(rows.push(row), command, min_confidence) == (if row.enabled && row.base
            >= min_confidence && row.confidence >= min_confidence && patterns::regex_verdict(
            row.pattern@,
            command,
        ) == Some(true) && (forall|i: int|
            0 <= i < row.files@.len() ==> trigger_holds(#[trigger] row.files@[i])) {
            applicable(rows, command, min_confidence).push(
                MatchView {
                    skill_name: row.skill_name@,
                    action_type: row.action_type@,
                    template: row.template@,
                    confidence: row.confidence,
                    conf_label: row.conf_label@,
                    skill_id: row.skill_id,
                },
            )
        } else {
            applicable(rows, command, min_confidence)
        }),
        applicable(Seq::<CandidateRow>::empty(), command, min_confidence) == Seq::<
            MatchView,
        >::empty(),
{
    let all = rows.push(row);
    assert(all.drop_last() =~= rows);
    assert(all.last() == row);
}

/// The number of leading matches: all before it are near, and the one at it is
/// not.
pub proof fn law_leading_ones_are_counted(near: Seq<bool>, k: int)
    requires
        0 <= k <= near.len(),
        forall|i: int| 0 <= i < k ==> #[trigger] near[i],
        k < near.len() ==> !near[k],
    ensures
        leading(near) == k,
    decreases k,
{
    if k > 0 {
        assert(near[0]);
        assert forall|i: int| 0 <= i < k - 1 implies #[trigger] near.skip(1)[i] by {
            assert(near.skip(1)[i] == near[i + 1]);
        }
        law_leading_ones_are_counted(near.skip(1), k - 1);
    }
}

/// The integer behind the first occurrence of a key is read, up to the first
/// character that is no digit and no sign.
pub proof fn law_integer_behind_a_key(
    before: Seq<char>,
    key: Seq<char>,
    n: int,
    after: Seq<char>,
)
    requires
        text::find(before + key + (numerals::dec_int(n) + after), key) == Some(before.len() as int),
        after.len() == 0 || !('0' <= after[0] <= '9') && after[0] != '-',
    ensures
        int_field(before + key + (numerals::dec_int(n) + after), key) == (if i64::MIN <= n
            <= i64::MAX {
            Some(n)
        } else {
            None
        }),
{
    let d = numerals::dec_int(n);
    let rest = d + after;
    let line = before + key + rest;
    assert(line.skip(before.len() as int + key.len()) =~= rest);
    let m = d.len() as int;
    assert forall|i: int| 0 <= i < m implies text::in_class(
        Class::Signed,
        #[trigger] rest[i],
    ) by {
        assert(rest[i] == d[i]);
        if n < 0 {
            numerals::lemma_dec_reads_back((-n) as nat);
            if i > 0 {
                assert(d[i] == numerals::dec((-n) as nat)[i - 1]);
                assert(text::is_digit(numerals::dec((-n) as nat)[i - 1]));
            }
        } else {
            numerals::lemma_dec_reads_back(n as nat);
            assert(text::is_digit(numerals::dec(n as nat)[i]));
        }
    }
    if after.len() > 0 {
        assert(rest[m] == after[0]);
    }
    text::lemma_run_unique(rest, Class::Signed, m);
    assert(rest.take(m) =~= d);
    numerals::law_numbers_read_back(n, i64::MIN as int, i64::MAX as int);
}

/// A line without the key holds no integer of it.
pub proof fn law_no_integer_without_its_key(line: Seq<char>, key: Seq<char>)
    requires
        !text::contains(line, key),
    ensures
        int_field(line, key) is None,
{
    text::law_find_yields_the_first(line, key);
}

/// A pattern that is anchored, starts with a literal word and goes on with the
/// end of the text or with space starts with that word alone; one that is not
/// anchored may start with anything.
#[verifier::rlimit(40)]
pub proof fn law_anchored_word_is_the_first(word: Seq<char>, more: Seq<char>, other: Seq<char>)
    requires
        word.len() > 0,
        forall|i: int| 0 <= i < word.len() ==> text::in_class(Class::Word, #[trigger] word[i]),
        word != "cd"@,
        more.len() == 0 || !is_repetition(more[0]),
        !more.contains('|'),
    ensures
        first_literals("^"@ + (word + (r"\s+"@ + more))) == Some(seq![word]),
        first_literals("^"@ + (word + "$"@)) == Some(seq![word]),
        !"^"@.is_prefix_of(other) ==> first_literals(other) is None,
{
    reveal_strlit("^");
    reveal_strlit(r"\s+");
    reveal_strlit("$");
    let n = word.len() as int;
    text::law_prefix_and_rest(other, "^"@, other);
    text::lemma_run_unique(word, Class::Word, n);
    let rest = r"\s+"@ + more;
    let spaced = word + rest;
    text::law_prefix_and_rest("^"@ + spaced, "^"@, spaced);
    assert forall|i: int| 0 <= i < n implies text::in_class(
        Class::Word,
        #[trigger] spaced[i],
    ) by {
        assert(spaced[i] == word[i]);
    }
    assert(spaced[n] == '\\');
    text::lemma_run_unique(spaced, Class::Word, n);
    assert(spaced.take(n) =~= word);
    assert(spaced.skip(n) =~= rest);
    assert(spaced[0] == word[0]);
    assert(text::in_class(Class::Word, word[0]));
    lemma_space_settles(more);
    let ended = word + "$"@;
    text::law_prefix_and_rest("^"@ + ended, "^"@, ended);
    assert forall|i: int| 0 <= i < n implies text::in_class(
        Class::Word,
        #[trigger] ended[i],
    ) by {
        assert(ended[i] == word[i]);
    }
    assert(ended[n] == '$');
    text::lemma_run_unique(ended, Class::Word, n);
    assert(ended.take(n) =~= word);
    assert(ended.skip(n) =~= "$"@);
    assert(ended[0] == word[0]);
    assert(plain_end("$"@) == Some((true, "$"@.skip(1))));
    assert(ends_word("$"@));
    assert(!"$"@.contains('|'));
}

/// A pattern that is anchored and starts with a group of literal words, before
/// space, starts with one of them.
#[verifier::rlimit(40)]
pub proof fn law_anchored_words_are_the_first(a: Seq<char>, b: Seq<char>, more: Seq<char>)
    requires
        a.len() > 0,
        b.len() > 0,
        forall|i: int| 0 <= i < a.len() ==> text::in_class(Class::Word, #[trigger] a[i]),
        forall|i: int| 0 <= i < b.len() ==> text::in_class(Class::Word, #[trigger] b[i]),
        forall|i: int| 0 <= i < a.len() ==> !text::is_space(#[trigger] a[i]),
        forall|i: int| 0 <= i < b.len() ==> !text::is_space(#[trigger] b[i]),
        a != "cd"@,
        b != "cd"@,
        more.len() == 0 || !is_repetition(more[0]),
        !more.contains('|'),
    ensures
        first_literals("^"@ + ("("@ + (a + "|"@ + b) + ")"@ + (r"\s+"@ + more))) == Some(
            seq![a, b],
        ),
{
    reveal_strlit("^");
    reveal_strlit("(");
    reveal_strlit("|");
    reveal_strlit(")");
    reveal_strlit(r"\s+");
    let both = a + "|"@ + b;
    let rest = r"\s+"@ + more;
    let t = "("@ + both + ")"@ + rest;
    text::law_prefix_and_rest("^"@ + t, "^"@, t);
    let e = both.len() as int + 1;
    assert forall|i: int| 0 <= i < a.len() implies a[i] != '|' && a[i] != ')' by {
        assert(text::in_class(Class::Word, a[i]));
    }
    assert forall|i: int| 0 <= i < b.len() implies b[i] != '|' && b[i] != ')' by {
        assert(text::in_class(Class::Word, b[i]));
    }
    assert forall|i: int| 0 <= i < e implies text::in_class(
        Class::Not(')'),
        #[trigger] t[i],
    ) by {
        if i > 0 {
            assert(t[i] == both[i - 1]);
            if i - 1 < a.len() {
                assert(both[i - 1] == a[i - 1]);
            } else if i - 1 > a.len() {
                assert(both[i - 1] == b[i - 2 - a.len()]);
            }
        }
    }
    assert(t[e] == ')');
    text::lemma_run_unique(t, Class::Not(')'), e);
    assert(t.skip(e + 1) =~= rest);
    assert(t.subrange(1, e) =~= both);
    lemma_space_settles(more);
    assert(!a.contains('|'));
    assert(!b.contains('|'));
    lemma_two_literals(a, b);
}

/// Two literal words with a bar between them.
proof fn lemma_two_literals(a: Seq<char>, b: Seq<char>)
    requires
        a.len() > 0,
        b.len() > 0,
        forall|i: int| 0 <= i < a.len() ==> text::in_class(Class::Word, #[trigger] a[i]),
        forall|i: int| 0 <= i < b.len() ==> text::in_class(Class::Word, #[trigger] b[i]),
        forall|i: int| 0 <= i < a.len() ==> !text::is_space(#[trigger] a[i]),
        forall|i: int| 0 <= i < b.len() ==> !text::is_space(#[trigger] b[i]),
        a != "cd"@,
        b != "cd"@,
        !a.contains('|'),
        !b.contains('|'),
    ensures
        literals_in(text::split(a + "|"@ + b, '|')) == Some(seq![a, b]),
{
    let none = Seq::<char>::empty();
    let both = a + "|"@ + b;
    reveal_strlit("|");
    assert("|"@ =~= seq!['|']);
    text::law_split_at_a_separator(a, '|', b);
    text::law_split_at_a_separator(b, '|', none);
    let pieces = text::split(both, '|');
    assert(pieces =~= seq![a, b]);
    text::law_trim_takes_spaces_off(none, a, none);
    text::law_trim_takes_spaces_off(none, b, none);
    assert(none + a + none =~= a);
    assert(none + b + none =~= b);
    text::lemma_run_unique(a, Class::Word, a.len() as int);
    text::lemma_run_unique(b, Class::Word, b.len() as int);
    assert forall|i: int| 0 <= i < pieces.len() implies is_verb_literal(
        text::trim(#[trigger] pieces[i]),
    ) by {
        if i == 0 {
            assert(pieces[i] == a);
        } else {
            assert(pieces[i] == b);
        }
    }
    assert(Seq::new(pieces.len(), |i: int| text::trim(pieces[i])) =~= seq![a, b]);
}

/// Space behind a word settles it.
proof fn lemma_space_settles(more: Seq<char>)
    requires
        more.len() == 0 || !is_repetition(more[0]),
        !more.contains('|'),
    ensures
        settles(r"\s+"@ + more),
        (r"\s+"@ + more).len() >= 3,
        (r"\s+"@ + more)[0] == '\\',
{
    reveal_strlit(r"\s+");
    let rest = r"\s+"@ + more;
    assert(rest[0] == '\\' && rest[1] == 's' && rest[2] == '+');
    let plus = rest.skip(2);
    assert(plus[0] == '+');
    assert(plus.skip(1) =~= more);
    if more.len() > 0 {
        assert(plus[1] == more[0]);
    }
    assert(quantified(plus) == Some((true, more)));
    assert(plain_end(rest) == Some((true, more)));
    assert(ends_word(rest));
    assert(!rest.contains('|')) by {
        assert forall|i: int| 0 <= i < rest.len() implies rest[i] != '|' by {
            if i >= 3 {
                assert(rest[i] == more[i - 3]);
                assert(more.contains(more[i - 3]));
            }
        }
    }
}

/// A template with one placeholder, by its parts and the result: the placeholder
/// gives way to what it stands for, and the text around it stays.
pub proof fn law_apply_template(
    template: &str,
    command: &str,
    root: &str,
    r: String,
    before: Seq<char>,
    behind: Seq<char>,
)
    requires
        call_ensures(apply_template, (template, command, root), r),
        !text::contains(before, "{{original_command}}"@),
        !text::contains(before, "{{project_root}}"@),
        !text::contains(behind, "{{original_command}}"@),
        !text::contains(behind, "{{project_root}}"@),
        !crosses(template@, before.len() as int),
    ensures
        template@ == before + "{{original_command}}"@ + behind ==> r@ == before + command@ + behind,
        template@ == before + "{{project_root}}"@ + behind ==> r@ == before + root@ + behind,
        template@ == before ==> r@ == before,
{
    law_text_around_a_placeholder_is_kept(before, behind, command@, root@);
    law_plain_template_is_kept(before, command@, root@);
}

/// Adding a flag by a template adds it to the command and keeps all of it.
pub proof fn law_apply_flag_template(
    template: &str,
    command: &str,
    root: &str,
    r: String,
    flag: Seq<char>,
)
    requires
        call_ensures(apply_template, (template, command, root), r),
        template@ == "{{original_command}} "@ + flag,
        !text::contains(seq![' '] + flag, "{{original_command}}"@),
        !text::contains(seq![' '] + flag, "{{project_root}}"@),
    ensures
        r@ == command@ + seq![' '] + flag,
{
    law_flag_is_added(flag, command@, root@);
}

/// A skill is retired after a decay exactly if it exists and its best confidence
/// lies below the threshold.
pub proof fn law_decayed_skills_are_retired(
    skill: Option<i64>,
    max_confidence: i64,
    disable_threshold: i64,
    r: bool,
)
    requires
        call_ensures(decay_confidence, (skill, max_confidence, disable_threshold), r),
    ensures
        skill is None ==> !r,
        skill is Some && max_confidence >= disable_threshold ==> !r,
        skill is Some && max_confidence < disable_threshold ==> r,
{
}

/// A skill is updated exactly if the file names it and it exists.
pub proof fn law_updates_keep_the_name(
    stated: &str,
    existing: &str,
    found: Option<i64>,
    r: Result<i64, UpdateError>,
)
    requires
        call_ensures(update_skill_toml, (stated, existing, found), r),
    ensures
        r is Ok <==> stated@ == existing@ && found is Some,
        r matches Ok(id) ==> found == Some(id),
        stated@ != existing@ ==> r is Err && r->Err_0 is Renamed,
        stated@ == existing@ && found is None ==> r is Err && r->Err_0 is NotFound,
{
}

/// A pattern whose word need not end, by space that is optional or by nothing
/// behind it, may start with more than that word.
pub proof fn law_unended_word_settles_nothing(word: Seq<char>)
    requires
        word.len() > 0,
        forall|i: int| 0 <= i < word.len() ==> text::in_class(Class::Word, #[trigger] word[i]),
    ensures
        first_literals("^"@ + (word + r"\s*"@)) is None,
        first_literals("^"@ + word) is None,
{
    reveal_strlit(r"\s*");
    let none = Seq::<char>::empty();
    let star = r"\s*"@;
    lemma_literal_opening(word, star);
    lemma_literal_opening(word, none);
    assert(word + none =~= word);
    assert(star[0] == '\\' && star[1] == 's' && star[2] == '*');
    assert(star.skip(2).skip(1) =~= none);
    assert(quantified(star.skip(2)) == Some((false, none)));
    assert(plain_end(star) == Some((false, none)));
    assert(plain_end(none) is None);
    assert(!ends_word(none));
    assert(!ends_word(star));
}

/// What an anchored pattern with a word at its front goes on with.
proof fn lemma_literal_opening(word: Seq<char>, rest: Seq<char>)
    requires
        word.len() > 0,
        forall|i: int| 0 <= i < word.len() ==> text::in_class(Class::Word, #[trigger] word[i]),
        rest.len() == 0 || !text::in_class(Class::Word, rest[0]),
    ensures
        !settles(rest) ==> first_literals("^"@ + (word + rest)) is None,
{
    let n = word.len() as int;
    let t = word + rest;
    text::law_prefix_and_rest("^"@ + t, "^"@, t);
    assert forall|i: int| 0 <= i < n implies text::in_class(Class::Word, #[trigger] t[i]) by {
        assert(t[i] == word[i]);
    }
    if rest.len() > 0 {
        assert(t[n] == rest[0]);
    }
    text::lemma_run_unique(t, Class::Word, n);
    assert(t.skip(n) =~= rest);
    assert(t[0] == word[0]);
    assert(text::in_class(Class::Word, word[0]));
}

/// A bar outside of groups lets a pattern match otherwise, so that its first words
/// are not known.
pub proof fn law_bar_settles_nothing(word: Seq<char>, a: Seq<char>, b: Seq<char>)
    requires
        word.len() > 0,
        forall|i: int| 0 <= i < word.len() ==> text::in_class(Class::Word, #[trigger] word[i]),
        forall|i: int|
            0 <= i < a.len() ==> #[trigger] a[i] != '\\' && a[i] != '[' && a[i] != '(' && a[i]
                != ')',
    ensures
        first_literals("^"@ + (word + (r"\s+"@ + (a + seq!['|'] + b)))) is None,
{
    reveal_strlit(r"\s+");
    let more = a + seq!['|'] + b;
    let rest = r"\s+"@ + more;
    lemma_bar_forks(a, b);
    assert(rest[0] == '\\');
    let plus = rest.skip(2);
    assert(plus[0] == '+');
    assert(plus.skip(1) =~= more);
    assert(may_fork(plus, 0, 0, false));
    assert(may_fork(rest, 0, 0, false));
    assert(rest.contains('|')) by {
        assert(rest[3 + a.len() as int] == more[a.len() as int]);
    }
    lemma_literal_opening(word, rest);
}

/// A pattern with a bar outside of groups and classes forks.
proof fn lemma_bar_forks(a: Seq<char>, b: Seq<char>)
    requires
        forall|i: int|
            0 <= i < a.len() ==> #[trigger] a[i] != '\\' && a[i] != '[' && a[i] != '(' && a[i]
                != ')',
    ensures
        may_fork(a + seq!['|'] + b, 0, 0, false),
    decreases a.len(),
{
    let s = a + seq!['|'] + b;
    if a.len() > 0 {
        assert(s[0] == a[0]);
        assert forall|i: int| 0 <= i < a.len() - 1 implies #[trigger] a.skip(1)[i] != '\\'
            && a.skip(1)[i] != '[' && a.skip(1)[i] != '(' && a.skip(1)[i] != ')' by {
            assert(a.skip(1)[i] == a[i + 1]);
        }
        lemma_bar_forks(a.skip(1), b);
        assert(s.skip(1) =~= a.skip(1) + seq!['|'] + b);
    } else {
        assert(s[0] == '|');
    }
}

/// A pattern whose first word is known is tried on a command exactly if that word
/// is the command's verb; a pattern that is not anchored is tried on every command.
pub proof fn law_verb_decides_what_is_tried(
    word: Seq<char>,
    more: Seq<char>,
    other: Seq<char>,
    command: Seq<char>,
)
    requires
        word.len() > 0,
        forall|i: int| 0 <= i < word.len() ==> text::in_class(Class::Word, #[trigger] word[i]),
        word != "cd"@,
        more.len() == 0 || !is_repetition(more[0]),
        !more.contains('|'),
    ensures
        leaves_in("^"@ + (word + (r"\s+"@ + more)), command) <==> verb_of(command) == word,
        !"^"@.is_prefix_of(other) ==> leaves_in(other, command),
{
    law_anchored_word_is_the_first(word, more, other);
    let known = seq![word];
    if verb_of(command) == word {
        assert(known[0] == word);
    }
}

/// The line of a tie tells when it was and how many matches were tied.
pub proof fn law_tie_line_tells_the_tie(ts: nat, tied: nat)
    ensures
        tie_line(ts, tied) == ("{\"ts\":"@ + numerals::dec(ts)) + (
        ",\"type\":\"skill_tie_at_top\",\"value\":"@ + numerals::dec(tied) + ".0}\n"@),
{
    assert(tie_line(ts, tied) =~= ("{\"ts\":"@ + numerals::dec(ts)) + (
    ",\"type\":\"skill_tie_at_top\",\"value\":"@ + numerals::dec(tied) + ".0}\n"@));
}

/// What is said of an update that fails names the skill that was looked for, or
/// both names, the file's first.
pub proof fn law_failed_updates_are_explained(name: Seq<char>, stated: Seq<char>, existing: Seq<char>)
    ensures
        not_found_sentence(name) == "skill '"@ + (name + "' not found"@),
        renamed_sentence(stated, existing) == "skill name in TOML ("@ + (stated
            + ") does not match existing name ("@) + (existing
            + "); rename is not supported via edit"@),
{
    assert(not_found_sentence(name) =~= "skill '"@ + (name + "' not found"@));
    assert(renamed_sentence(stated, existing) =~= "skill name in TOML ("@ + (stated
        + ") does not match existing name ("@) + (existing
        + "); rename is not supported via edit"@));
}

/// A word boundary behind a word neither ends it nor keeps it from ending: what
/// follows decides.
#[verifier::rlimit(40)]
pub proof fn law_word_boundary_decides_nothing(word: Seq<char>, rest: Seq<char>)
    requires
        word.len() > 0,
        forall|i: int| 0 <= i < word.len() ==> text::in_class(Class::Word, #[trigger] word[i]),
        rest.len() > 0,
        !text::in_class(Class::Word, rest[0]),
        !rest.contains('|'),
    ensures
        first_literals("^"@ + (word + (r"\b"@ + rest))) == first_literals("^"@ + (word + rest)),
{
    reveal_strlit(r"\b");
    let n = word.len() as int;
    let more = r"\b"@ + rest;
    let t = word + more;
    let u = word + rest;
    text::law_prefix_and_rest("^"@ + t, "^"@, t);
    text::law_prefix_and_rest("^"@ + u, "^"@, u);
    assert forall|i: int| 0 <= i < n implies text::in_class(Class::Word, #[trigger] t[i])
        && text::in_class(Class::Word, u[i]) by {
        assert(t[i] == word[i]);
        assert(u[i] == word[i]);
    }
    assert forall|i: int| 0 <= i < n implies text::in_class(Class::Word, #[trigger] u[i]) by {
        assert(u[i] == word[i]);
    }
    assert(more[0] == '\\' && more[1] == 'b');
    assert(t[n] == more[0]);
    assert(u[n] == rest[0]);
    text::lemma_run_unique(t, Class::Word, n);
    text::lemma_run_unique(u, Class::Word, n);
    assert(t.take(n) =~= word);
    assert(u.take(n) =~= word);
    assert(t.skip(n) =~= more);
    assert(u.skip(n) =~= rest);
    assert(t[0] == word[0] && u[0] == word[0]);
    assert(text::in_class(Class::Word, word[0]));
    assert(more.skip(2) =~= rest);
    assert(plain_end(more) == Some((false, rest)));
    assert(ends_word(more) == ends_word(rest));
    assert(!more.contains('|')) by {
        assert forall|i: int| 0 <= i < more.len() implies more[i] != '|' by {
            if i >= 2 {
                assert(more[i] == rest[i - 2]);
                assert(rest.contains(rest[i - 2]));
            }
        }
    }
    assert(settles(more) == settles(rest));
}

/// The matches of one row, by the row and the result: one exactly if the row applies,
/// and it tells the row's skill, action and confidence.
pub proof fn law_find_matches(
    rows: &Vec<CandidateRow>,
    command: &str,
    min_confidence: i64,
    r: Vec<SkillMatch>,
)
    requires
        call_ensures(find_matches, (rows, command, min_confidence), r),
        rows@.len() == 1,
    ensures
        ({
            let row = rows@[0];
            let fits = row.enabled && row.base >= min_confidence && row.confidence >= min_confidence
                && patterns::regex_verdict(row.pattern@, command@) == Some(true) && (forall|
                i: int,
            |
                0 <= i < row.files@.len() ==> trigger_holds(#[trigger] row.files@[i]));
            &&& !fits ==> r@.len() == 0
            &&& fits ==> r@.len() == 1 && r@[0].skill_name@ == row.skill_name@
                && r@[0].action_type@ == row.action_type@ && r@[0].template@ == row.template@
                && r@[0].confidence == row.confidence && r@[0].skill_id == row.skill_id
        }),
{
    let none = Seq::<CandidateRow>::empty();
    law_row_applies_exactly_if(none, rows@[0], command@, min_confidence);
    assert(none.push(rows@[0]) =~= rows@);
    let found = applicable(rows@, command@, min_confidence);
    let out = match_views(r@);
    assert(out.len() == r@.len());
    if found.len() > 0 {
        assert(found.drop_last() =~= Seq::<MatchView>::empty());
        assert(ranked(found.drop_last()) =~= Seq::<MatchView>::empty());
        assert(ranked(found) =~= seq![found[0]]);
        assert(out[0] == r@[0]@);
    }
}

/// An integer behind a key, by the line and the result.
pub proof fn law_extract_int_field(
    line: &str,
    key: &str,
    r: Option<i64>,
    before: Seq<char>,
    n: i64,
    after: Seq<char>,
)
    requires
        call_ensures(extract_int_field, (line, key), r),
        line@ == before + key@ + (numerals::dec_int(n as int) + after),
        text::find(line@, key@) == Some(before.len() as int),
        after.len() == 0 || !('0' <= after[0] <= '9') && after[0] != '-',
    ensures
        r == Some(n),
{
    law_integer_behind_a_key(before, key@, n as int, after);
}

/// A `cd` with nothing behind it is its own verb.
pub proof fn law_lone_cd_is_its_own_verb(pad: Seq<char>, rest: Seq<char>)
    requires
        forall|i: int| 0 <= i < pad.len() ==> text::is_space(#[trigger] pad[i]),
        !text::contains(rest, " && "@),
    ensures
        verb_of(pad + ("cd "@ + rest)) == "cd"@,
        verb_of(pad + "cd"@) == "cd"@,
        verb_of(pad) == Seq::<char>::empty(),
{
    reveal_strlit("cd ");
    reveal_strlit("cd");
    let none = Seq::<char>::empty();
    let s = "cd "@ + rest;
    lemma_trim_start_pad(pad, s);
    lemma_trim_start_pad(pad, "cd"@);
    text::law_prefix_and_rest(s, "cd "@, rest);
    text::law_find_yields_the_first(rest, " && "@);
    let tail = seq![' '] + rest;
    assert(none + "cd"@ + tail =~= s);
    text::law_words_stand_between_spaces(none, "cd"@, tail);
    text::law_prefix_and_rest("cd"@, "cd "@, none);
    text::law_words_stand_between_spaces(none, "cd"@, none);
    assert(none + "cd"@ + none =~= "cd"@);
    text::lemma_run_unique(pad, Class::Space, pad.len() as int);
    assert(text::trim_start(pad) =~= none);
    text::law_prefix_and_rest(none, "cd "@, none);
    text::law_spaces_hold_no_word(none);
}

/// A record tells when, which skill by its id and its name, and with which confidence.
pub proof fn law_record_tells_the_activation(
    ts: nat,
    skill_id: int,
    skill_name: Seq<char>,
    conf: Seq<char>,
)
    ensures
        activation_record(ts, skill_id, skill_name, conf) == ("{\"ts\":"@ + numerals::dec(ts)) + (
        ",\"skill_id\":"@ + numerals::dec_int(skill_id)) + (",\"skill_name\":\""@ + skill_name
            + "\""@) + (",\"conf\":"@ + conf + "}\n"@),
{
    reveal_strlit("\",\"conf\":");
    reveal_strlit("\"");
    reveal_strlit(",\"conf\":");
    assert("\",\"conf\":"@ =~= "\""@ + ",\"conf\":"@);
    assert(activation_record(ts, skill_id, skill_name, conf) =~= ("{\"ts\":"@ + numerals::dec(ts))
        + (",\"skill_id\":"@ + numerals::dec_int(skill_id)) + (",\"skill_name\":\""@
        + skill_name + "\""@) + (",\"conf\":"@ + conf + "}\n"@));
}

} // verus!
