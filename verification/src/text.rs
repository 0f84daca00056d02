//! Operations on text, modelled as sequences of characters.
//!
//! A string's view is its `Seq<char>`. The spec functions here say what each
//! operation yields on that view; the executable functions compute it.
use vstd::prelude::*;
use vstd::string::*;
use vstd::utf8::*;

verus! {

// ---------------------------------------------------------------------------
// Trusted facts about std
// ---------------------------------------------------------------------------
/// `String::push` appends one character at the end of the string.
pub assume_specification[ String::push ](s: &mut String, c: char)
    ensures
        final(s)@ == old(s)@.push(c),
;

/// Whether a character outside ASCII is a letter or a number in Unicode's
/// tables, as `char::is_alphanumeric` reports it.
pub uninterp spec fn unicode_alphanumeric(c: char) -> bool;

/// `char::is_alphanumeric`: on ASCII exactly the letters and the digits, on
/// other characters whatever Unicode's tables say.
pub assume_specification[ char::is_alphanumeric ](c: char) -> (r: bool)
    ensures
        (c as u32) < 128 ==> r == is_ascii_alphanumeric(c),
        (c as u32) >= 128 ==> r == unicode_alphanumeric(c),
;

// ---------------------------------------------------------------------------
// Characters
// ---------------------------------------------------------------------------
/// The characters with Unicode's `White_Space` property.
pub open spec fn is_space(c: char) -> bool {
    let u = c as u32;
    ||| 0x09 <= u <= 0x0d
    ||| u == 0x20
    ||| u == 0x85
    ||| u == 0xa0
    ||| u == 0x1680
    ||| 0x2000 <= u <= 0x200a
    ||| u == 0x2028
    ||| u == 0x2029
    ||| u == 0x202f
    ||| u == 0x205f
    ||| u == 0x3000
}

/// The ASCII letters and digits.
pub open spec fn is_ascii_alphanumeric(c: char) -> bool {
    ||| 'a' <= c <= 'z'
    ||| 'A' <= c <= 'Z'
    ||| '0' <= c <= '9'
}

/// The letters and numbers of Unicode.
pub open spec fn is_alphanumeric(c: char) -> bool {
    if (c as u32) < 128 {
        is_ascii_alphanumeric(c)
    } else {
        unicode_alphanumeric(c)
    }
}

/// The ASCII digits.
pub open spec fn is_digit(c: char) -> bool {
    '0' <= c <= '9'
}

/// A kind of character by which text is split into runs.
#[derive(Clone, Copy)]
pub enum Class {
    /// Any whitespace character.
    Space,
    /// Any character that is not whitespace.
    NonSpace,
    /// An ASCII digit or a minus sign.
    Signed,
    /// A letter, a number, an underscore or a hyphen.
    Word,
    /// Any character other than the given one.
    Not(char),
    /// Any character other than the two given ones.
    NotEither(char, char),
}

/// Membership of a character in a class.
pub open spec fn in_class(k: Class, c: char) -> bool {
    match k {
        Class::Space => is_space(c),
        Class::NonSpace => !is_space(c),
        Class::Signed => is_digit(c) || c == '-',
        Class::Word => is_alphanumeric(c) || c == '_' || c == '-',
        Class::Not(x) => c != x,
        Class::NotEither(x, y) => c != x && c != y,
    }
}

/// Tests a character for whitespace.
pub fn space(c: char) -> (r: bool)
    ensures
        r == is_space(c),
{
    let u: u32 = c as u32;
    (0x09 <= u && u <= 0x0d) || u == 0x20 || u == 0x85 || u == 0xa0 || u == 0x1680 || (0x2000 <= u
        && u <= 0x200a) || u == 0x2028 || u == 0x2029 || u == 0x202f || u == 0x205f || u == 0x3000
}

/// Tests a character for membership in a class.
pub fn class_has(k: Class, c: char) -> (r: bool)
    ensures
        r == in_class(k, c),
{
    match k {
        Class::Space => space(c),
        Class::NonSpace => !space(c),
        Class::Signed => ('0' <= c && c <= '9') || c == '-',
        Class::Word => c.is_alphanumeric() || c == '_' || c == '-',
        Class::Not(x) => c != x,
        Class::NotEither(x, y) => c != x && c != y,
    }
}

// ---------------------------------------------------------------------------
// Conversions
// ---------------------------------------------------------------------------
/// The views of a sequence of strings.
pub open spec fn views(v: Seq<String>) -> Seq<Seq<char>> {
    Seq::new(v.len(), |i: int| v[i]@)
}

/// The view of an optional string.
pub open spec fn opt_view(s: Option<String>) -> Option<Seq<char>> {
    match s {
        Some(t) => Some(t@),
        None => None,
    }
}

/// The view of an optional string slice.
pub open spec fn opt_str(s: Option<&str>) -> Option<Seq<char>> {
    match s {
        Some(t) => Some(t@),
        None => None,
    }
}

/// The characters of a string.
pub fn chars_of(s: &str) -> (v: Vec<char>)
    ensures
        v@ == s@,
{
    let mut v: Vec<char> = Vec::new();
    for c in it: s.chars()
        invariant
            v@ == s@.take(it.index() as int),
            it.seq() == s@,
    {
        v.push(c);
    }
    v
}

/// The string made of the characters from `from` up to `to`.
pub fn string_of(v: &Vec<char>, from: usize, to: usize) -> (s: String)
    requires
        from <= to <= v@.len(),
    ensures
        s@ == v@.subrange(from as int, to as int),
{
    let mut s = String::new();
    let mut i: usize = from;
    while i < to
        invariant
            from <= i <= to <= v@.len(),
            s@ == v@.subrange(from as int, i as int),
        decreases to - i,
    {
        s.push(v[i]);
        proof {
            assert(v@.subrange(from as int, i + 1) =~= v@.subrange(from as int, i as int).push(v@[i as int]));
        }
        i += 1;
    }
    s
}

/// Tests two strings for equality.
pub fn same(a: &str, b: &str) -> (r: bool)
    ensures
        r == (a@ == b@),
{
    let x = chars_of(a);
    let y = chars_of(b);
    if x.len() != y.len() {
        return false;
    }
    let mut i: usize = 0;
    while i < x.len()
        invariant
            x@ == a@,
            y@ == b@,
            x@.len() == y@.len(),
            i <= x@.len(),
            forall|j: int| 0 <= j < i ==> x@[j] == y@[j],
        decreases x@.len() - i,
    {
        if x[i] != y[i] {
            return false;
        }
        i += 1;
    }
    assert(a@ =~= b@);
    true
}

/// A copy of an optional string.
pub fn copy_opt(a: &Option<String>) -> (r: Option<String>)
    ensures
        opt_view(r) == opt_view(*a),
{
    match a {
        Some(t) => Some(t.clone()),
        None => None,
    }
}

// ---------------------------------------------------------------------------
// Runs
// ---------------------------------------------------------------------------
/// The length of the longest prefix of `s` made of characters of class `k`.
pub open spec fn run_len(s: Seq<char>, k: Class) -> nat
    decreases s.len(),
{
    if s.len() > 0 && in_class(k, s[0]) {
        1 + run_len(s.skip(1), k)
    } else {
        0
    }
}

/// The length of the longest suffix of `s` made of characters of class `k`.
pub open spec fn tail_len(s: Seq<char>, k: Class) -> nat
    decreases s.len(),
{
    if s.len() > 0 && in_class(k, s.last()) {
        1 + tail_len(s.drop_last(), k)
    } else {
        0
    }
}

/// A run ends at the end of the text or before a character outside its class.
pub proof fn lemma_run_len(s: Seq<char>, k: Class)
    ensures
        run_len(s, k) <= s.len(),
        forall|i: int| 0 <= i < run_len(s, k) ==> in_class(k, s[i]),
        run_len(s, k) < s.len() ==> !in_class(k, s[run_len(s, k) as int]),
    decreases s.len(),
{
    if s.len() > 0 && in_class(k, s[0]) {
        let t = s.skip(1);
        lemma_run_len(t, k);
        assert forall|i: int| 0 <= i < run_len(s, k) implies in_class(k, s[i]) by {
            if i > 0 {
                assert(t[i - 1] == s[i]);
            }
        }
        if run_len(s, k) < s.len() {
            assert(t[run_len(t, k) as int] == s[run_len(s, k) as int]);
        }
    }
}

/// The conditions of [`lemma_run_len`] hold of one length only.
pub proof fn lemma_run_unique(s: Seq<char>, k: Class, n: int)
    requires
        0 <= n <= s.len(),
        forall|i: int| 0 <= i < n ==> in_class(k, s[i]),
        n < s.len() ==> !in_class(k, s[n]),
    ensures
        run_len(s, k) == n,
{
    lemma_run_len(s, k);
    let r = run_len(s, k) as int;
    if r < n {
        assert(in_class(k, s[r]));
    } else if n < r {
        assert(in_class(k, s[n]));
    }
}

/// A run is a run of its whole length.
pub proof fn lemma_run_take(s: Seq<char>, k: Class)
    ensures
        run_len(s.take(run_len(s, k) as int), k) == run_len(s, k),
{
    lemma_run_len(s, k);
    lemma_run_unique(s.take(run_len(s, k) as int), k, run_len(s, k) as int);
}

/// A tail starts at the start of the text or after a character outside its
/// class.
pub proof fn lemma_tail_len(s: Seq<char>, k: Class)
    ensures
        tail_len(s, k) <= s.len(),
        forall|i: int| s.len() - tail_len(s, k) <= i < s.len() ==> in_class(k, s[i]),
        tail_len(s, k) < s.len() ==> !in_class(k, s[s.len() - tail_len(s, k) - 1]),
    decreases s.len(),
{
    if s.len() > 0 && in_class(k, s.last()) {
        let t = s.drop_last();
        lemma_tail_len(t, k);
        assert forall|i: int| s.len() - tail_len(s, k) <= i < s.len() implies in_class(k, s[i]) by {
            if i < s.len() - 1 {
                assert(t[i] == s[i]);
            }
        }
    }
}

/// The conditions of [`lemma_tail_len`] hold of one length only.
pub proof fn lemma_tail_unique(s: Seq<char>, k: Class, n: int)
    requires
        0 <= n <= s.len(),
        forall|i: int| s.len() - n <= i < s.len() ==> in_class(k, s[i]),
        n < s.len() ==> !in_class(k, s[s.len() - n - 1]),
    ensures
        tail_len(s, k) == n,
{
    lemma_tail_len(s, k);
    let r = tail_len(s, k) as int;
    if r < n {
        assert(in_class(k, s[s.len() - r - 1]));
    } else if n < r {
        assert(in_class(k, s[s.len() - n - 1]));
    }
}

/// The end of the run of class `k` that starts at `from`.
pub fn run_end(v: &Vec<char>, from: usize, k: Class) -> (r: usize)
    requires
        from <= v@.len(),
    ensures
        from <= r <= v@.len(),
        r == from + run_len(v@.skip(from as int), k),
        forall|i: int| from <= i < r ==> in_class(k, v@[i]),
        r < v@.len() ==> !in_class(k, v@[r as int]),
{
    let mut i: usize = from;
    while i < v.len()
        invariant_except_break
            from <= i <= v@.len(),
            forall|j: int| from <= j < i ==> in_class(k, v@[j]),
        ensures
            from <= i <= v@.len(),
            forall|j: int| from <= j < i ==> in_class(k, v@[j]),
            i < v@.len() ==> !in_class(k, v@[i as int]),
        decreases v@.len() - i,
    {
        if !class_has(k, v[i]) {
            break;
        }
        i += 1;
    }
    proof {
        let s = v@.skip(from as int);
        assert forall|j: int| 0 <= j < i - from implies in_class(k, s[j]) by {
            assert(s[j] == v@[from + j]);
        }
        lemma_run_unique(s, k, i - from);
    }
    i
}

/// The start of the tail of class `k` of the text before `to`.
pub fn tail_start(v: &Vec<char>, from: usize, to: usize, k: Class) -> (r: usize)
    requires
        from <= to <= v@.len(),
    ensures
        from <= r <= to,
        r == to - tail_len(v@.subrange(from as int, to as int), k),
{
    let mut i: usize = to;
    while i > from
        invariant_except_break
            from <= i <= to <= v@.len(),
            forall|j: int| i <= j < to ==> in_class(k, v@[j]),
        ensures
            from <= i <= to <= v@.len(),
            forall|j: int| i <= j < to ==> in_class(k, v@[j]),
            i > from ==> !in_class(k, v@[i - 1]),
        decreases i,
    {
        if !class_has(k, v[i - 1]) {
            break;
        }
        i -= 1;
    }
    proof {
        let s = v@.subrange(from as int, to as int);
        assert forall|j: int| s.len() - (to - i) <= j < s.len() implies in_class(k, s[j]) by {
            assert(s[j] == v@[from + j]);
        }
        lemma_tail_unique(s, k, to - i);
    }
    i
}

// ---------------------------------------------------------------------------
// Trimming
// ---------------------------------------------------------------------------
/// `s` without its leading whitespace.
pub open spec fn trim_start(s: Seq<char>) -> Seq<char> {
    s.skip(run_len(s, Class::Space) as int)
}

/// `s` without its trailing whitespace.
pub open spec fn trim_end(s: Seq<char>) -> Seq<char> {
    s.take(s.len() - tail_len(s, Class::Space))
}

/// `s` without its leading and trailing whitespace.
pub open spec fn trim(s: Seq<char>) -> Seq<char> {
    trim_end(trim_start(s))
}

/// Drops leading whitespace.
pub fn trimmed_start(s: &str) -> (r: &str)
    ensures
        r@ == trim_start(s@),
{
    let v = chars_of(s);
    let i: usize = run_end(&v, 0, Class::Space);
    proof {
        assert(v@.skip(0) =~= s@);
        assert(s@.subrange(i as int, v@.len() as int) =~= s@.skip(i as int));
    }
    s.substring_char(i, v.len())
}

/// Drops leading and trailing whitespace.
pub fn trimmed(s: &str) -> (r: &str)
    ensures
        r@ == trim(s@),
{
    let v = chars_of(s);
    let i: usize = run_end(&v, 0, Class::Space);
    let j: usize = tail_start(&v, i, v.len(), Class::Space);
    proof {
        assert(v@.skip(0) =~= s@);
        let t = trim_start(s@);
        assert(v@.subrange(i as int, v@.len() as int) =~= t);
        assert(s@.subrange(i as int, j as int) =~= trim_end(t));
    }
    s.substring_char(i, j)
}

// ---------------------------------------------------------------------------
// Words
// ---------------------------------------------------------------------------
/// The maximal runs of non-whitespace characters of `s`, in order.
pub open spec fn words(s: Seq<char>) -> Seq<Seq<char>>
    decreases s.len(),
{
    proof {
        lemma_run_len(s, Class::Space);
        lemma_run_len(trim_start(s), Class::NonSpace);
    }
    let t = trim_start(s);
    let n = run_len(t, Class::NonSpace) as int;
    if t.len() == 0 || n == 0 {
        Seq::empty()
    } else {
        seq![t.take(n)] + words(t.skip(n))
    }
}

/// The first word of `s`, empty if it has none.
pub open spec fn first_word_of(s: Seq<char>) -> Seq<char> {
    if words(s).len() > 0 {
        words(s)[0]
    } else {
        Seq::empty()
    }
}

/// Text that was trimmed in front starts with the same word, and trimming it
/// again takes nothing off.
pub proof fn lemma_trim_start_once(s: Seq<char>)
    ensures
        trim_start(trim_start(s)) == trim_start(s),
        first_word_of(trim_start(s)) == first_word_of(s),
{
    let t = trim_start(s);
    let n = run_len(s, Class::Space) as int;
    lemma_run_len(s, Class::Space);
    if t.len() > 0 {
        assert(t[0] == s[n]);
    }
    lemma_run_unique(t, Class::Space, 0);
    assert(t.skip(0) =~= t);
}

/// A word at the front of a text that ends at a space is its first word.
pub proof fn lemma_first_word(word: Seq<char>, rest: Seq<char>)
    requires
        word.len() > 0,
        forall|i: int| 0 <= i < word.len() ==> !is_space(#[trigger] word[i]),
        rest.len() == 0 || is_space(rest[0]),
    ensures
        first_word_of(word + rest) == word,
{
    let s = word + rest;
    assert(s[0] == word[0]);
    lemma_run_unique(s, Class::Space, 0);
    assert(trim_start(s) =~= s);
    lemma_run_unique(s, Class::NonSpace, word.len() as int);
    assert(s.take(word.len() as int) =~= word);
}

/// The words of a string.
pub fn split_words(s: &str) -> (r: Vec<String>)
    ensures
        views(r@) == words(s@),
{
    let v = chars_of(s);
    let mut out: Vec<String> = Vec::new();
    let mut i: usize = 0;
    proof {
        assert(v@.skip(0) =~= s@);
        assert(views(out@) + words(s@) =~= words(s@));
    }
    loop
        invariant
            v@ == s@,
            i <= v@.len(),
            views(out@) + words(v@.skip(i as int)) == words(s@),
        decreases v@.len() - i,
    {
        let ghost rest = v@.skip(i as int);
        let a: usize = run_end(&v, i, Class::Space);
        let b: usize = run_end(&v, a, Class::NonSpace);
        let ghost t = trim_start(rest);
        proof {
            assert(t =~= v@.skip(a as int));
            if a < v@.len() {
                assert(t[0] == v@[a as int]);
                assert(in_class(Class::NonSpace, t[0]));
            }
        }
        if a == v.len() {
            assert(views(out@) =~= words(s@));
            return out;
        }
        let ghost before = views(out@);
        out.push(string_of(&v, a, b));
        proof {
            let n = run_len(t, Class::NonSpace) as int;
            assert(t.take(n) =~= v@.subrange(a as int, b as int));
            assert(t.skip(n) =~= v@.skip(b as int));
            assert(views(out@) =~= before.push(t.take(n)));
            assert(views(out@) + words(v@.skip(b as int)) =~= before + words(rest));
        }
        i = b;
    }
}

/// The first word of a string, or the empty string.
pub fn first_word(s: &str) -> (r: String)
    ensures
        r@ == first_word_of(s@),
{
    let w = split_words(s);
    if w.len() > 0 {
        proof {
            assert(views(w@)[0] == w@[0]@);
        }
        w[0].clone()
    } else {
        String::new()
    }
}

// ---------------------------------------------------------------------------
// Searching
// ---------------------------------------------------------------------------
/// `pat` stands in `s` at index `i`.
pub open spec fn occurs_at(s: Seq<char>, pat: Seq<char>, i: int) -> bool {
    0 <= i && i + pat.len() <= s.len() && s.subrange(i, i + pat.len()) == pat
}

/// `pat` stands somewhere in `s`.
pub open spec fn contains(s: Seq<char>, pat: Seq<char>) -> bool {
    exists|i: int| #[trigger] occurs_at(s, pat, i)
}

/// The first index at or after `i` at which `pat` stands in `s`.
pub open spec fn find_from(s: Seq<char>, pat: Seq<char>, i: int) -> Option<int>
    decreases s.len() + 1 - i,
{
    if i < 0 || i + pat.len() > s.len() {
        None
    } else if occurs_at(s, pat, i) {
        Some(i)
    } else {
        find_from(s, pat, i + 1)
    }
}

/// The first index at which `pat` stands in `s`.
pub open spec fn find(s: Seq<char>, pat: Seq<char>) -> Option<int> {
    find_from(s, pat, 0)
}

/// [`find_from`] yields the first occurrence, if there is one.
pub proof fn lemma_find_from(s: Seq<char>, pat: Seq<char>, i: int)
    requires
        0 <= i,
    ensures
        match find_from(s, pat, i) {
            Some(n) => i <= n && occurs_at(s, pat, n) && forall|j: int|
                i <= j < n ==> !occurs_at(s, pat, j),
            None => forall|j: int| i <= j ==> !occurs_at(s, pat, j),
        },
    decreases s.len() + 1 - i,
{
    if i + pat.len() <= s.len() && !occurs_at(s, pat, i) {
        lemma_find_from(s, pat, i + 1);
    }
}

/// An occurrence with none before it is the one that [`find`] yields.
pub proof fn lemma_find_is(s: Seq<char>, pat: Seq<char>, n: int)
    requires
        occurs_at(s, pat, n),
        forall|j: int| 0 <= j < n ==> !occurs_at(s, pat, j),
    ensures
        find(s, pat) == Some(n),
{
    lemma_find_from(s, pat, 0);
}

/// Text contains a pattern just where the search finds one.
pub proof fn lemma_contains_find(s: Seq<char>, pat: Seq<char>)
    ensures
        contains(s, pat) <==> find(s, pat) is Some,
{
    lemma_find_from(s, pat, 0);
    if find(s, pat) is Some {
        assert(occurs_at(s, pat, find(s, pat)->0));
    }
}

/// Whether `pat` stands in `v` at index `i`.
pub fn occurs(v: &Vec<char>, pat: &Vec<char>, i: usize) -> (r: bool)
    requires
        i <= v@.len(),
    ensures
        r == occurs_at(v@, pat@, i as int),
{
    let n: usize = v.len();
    if pat.len() > n - i {
        return false;
    }
    let mut j: usize = 0;
    while j < pat.len()
        invariant
            j <= pat@.len(),
            n == v@.len(),
            i + pat@.len() <= n,
            forall|k: int| 0 <= k < j ==> v@[i + k] == pat@[k],
        decreases pat@.len() - j,
    {
        if v[i + j] != pat[j] {
            proof {
                assert(v@.subrange(i as int, i + pat@.len())[j as int] == v@[i + j]);
            }
            return false;
        }
        j += 1;
    }
    assert(v@.subrange(i as int, i + pat@.len()) =~= pat@);
    true
}

/// The first index at or after `from` at which `pat` stands in `v`.
pub fn find_at(v: &Vec<char>, pat: &Vec<char>, from: usize) -> (r: Option<usize>)
    requires
        from <= v@.len(),
    ensures
        match r {
            Some(i) => find_from(v@, pat@, from as int) == Some(i as int) && from <= i && i
                + pat@.len() <= v@.len(),
            None => find_from(v@, pat@, from as int) is None,
        },
{
    let mut i: usize = from;
    loop
        invariant
            from <= i <= v@.len(),
            find_from(v@, pat@, i as int) == find_from(v@, pat@, from as int),
        decreases v@.len() - i,
    {
        if occurs(v, pat, i) {
            return Some(i);
        }
        if i == v.len() {
            assert(find_from(v@, pat@, i + 1) is None);
            return None;
        }
        i += 1;
    }
}

/// The first index, counted in characters, at which `pat` stands in `s`.
pub fn find_text(s: &str, pat: &str) -> (r: Option<usize>)
    ensures
        match r {
            Some(i) => find(s@, pat@) == Some(i as int) && i + pat@.len() <= s@.len(),
            None => find(s@, pat@) is None,
        },
{
    let v = chars_of(s);
    let p = chars_of(pat);
    find_at(&v, &p, 0)
}

/// Whether `pat` stands somewhere in `s`.
pub fn has_text(s: &str, pat: &str) -> (r: bool)
    ensures
        r == contains(s@, pat@),
{
    proof {
        lemma_contains_find(s@, pat@);
    }
    find_text(s, pat).is_some()
}

/// Whether `s` starts with `pat`.
pub fn starts(s: &str, pat: &str) -> (r: bool)
    ensures
        r == pat@.is_prefix_of(s@),
{
    let v = chars_of(s);
    let p = chars_of(pat);
    occurs(&v, &p, 0)
}

/// The text after the prefix `pat`, if `s` starts with it.
pub open spec fn after_prefix(s: Seq<char>, pat: Seq<char>) -> Option<Seq<char>> {
    if pat.is_prefix_of(s) {
        Some(s.skip(pat.len() as int))
    } else {
        None
    }
}

/// Strips the prefix `pat`.
pub fn strip<'a>(s: &'a str, pat: &str) -> (r: Option<&'a str>)
    ensures
        opt_str(r) == after_prefix(s@, pat@),
{
    if starts(s, pat) {
        let n: usize = s.unicode_len();
        let k: usize = pat.unicode_len();
        let t = s.substring_char(k, n);
        assert(t@ =~= s@.skip(pat@.len() as int));
        Some(t)
    } else {
        None
    }
}

// ---------------------------------------------------------------------------
// Replacing
// ---------------------------------------------------------------------------
/// `s` with every occurrence of `pat` replaced by `with`, taken from the left
/// without overlap. `pat` is not empty.
pub open spec fn replace(s: Seq<char>, pat: Seq<char>, with: Seq<char>) -> Seq<char>
    decreases s.len(),
{
    match find(s, pat) {
        Some(i) => if pat.len() > 0 && 0 <= i && i + pat.len() <= s.len() {
            s.take(i) + with + replace(s.skip(i + pat.len()), pat, with)
        } else {
            s
        },
        None => s,
    }
}

/// A search in the rest of a text is the search from there on.
pub proof fn lemma_find_shift(s: Seq<char>, pat: Seq<char>, at: int, i: int)
    requires
        0 <= at <= s.len(),
        0 <= i,
    ensures
        find_from(s, pat, at + i) == (match find_from(s.skip(at), pat, i) {
            Some(n) => Some(at + n),
            None => None,
        }),
    decreases s.len() + 1 - at - i,
{
    let t = s.skip(at);
    if at + i + pat.len() <= s.len() {
        assert(t.subrange(i, i + pat.len()) =~= s.subrange(at + i, at + i + pat.len()));
        if !occurs_at(s, pat, at + i) {
            lemma_find_shift(s, pat, at, i + 1);
        }
    }
}

/// Replaces every occurrence of `pat` by `with`.
pub fn replaced(s: &str, pat: &str, with: &str) -> (r: String)
    requires
        pat@.len() > 0,
    ensures
        r@ == replace(s@, pat@, with@),
{
    let v = chars_of(s);
    let p = chars_of(pat);
    let len: usize = v.len();
    let mut out = String::new();
    let mut i: usize = 0;
    proof {
        assert(s@.skip(0) =~= s@);
        assert(out@ + replace(s@, pat@, with@) =~= replace(s@, pat@, with@));
    }
    loop
        invariant
            v@ == s@,
            p@ == pat@,
            p@.len() > 0,
            len == v@.len(),
            i <= len,
            out@ + replace(v@.skip(i as int), pat@, with@) == replace(s@, pat@, with@),
        decreases v@.len() - i,
    {
        let ghost rest = v@.skip(i as int);
        proof {
            lemma_find_shift(v@, pat@, i as int, 0);
        }
        match find_at(&v, &p, i) {
            None => {
                let tail = string_of(&v, i, len);
                out.append(tail.as_str());
                assert(tail@ =~= rest);
                return out;
            },
            Some(n) => {
                let ghost before = out@;
                let piece = string_of(&v, i, n);
                out.append(piece.as_str());
                out.append(with);
                let next: usize = n + p.len();
                proof {
                    assert(rest.take(n - i) =~= piece@);
                    assert(rest.skip(n - i + pat@.len()) =~= v@.skip(next as int));
                    assert(out@ + replace(v@.skip(next as int), pat@, with@) =~= before + (
                    rest.take(n - i) + with@ + replace(v@.skip(next as int), pat@, with@)));
                }
                i = next;
            },
        }
    }
}

// ---------------------------------------------------------------------------
// Splitting and joining
// ---------------------------------------------------------------------------
/// The pieces of `s` between the occurrences of `sep`.
pub open spec fn split(s: Seq<char>, sep: char) -> Seq<Seq<char>>
    decreases s.len(),
{
    let n = run_len(s, Class::Not(sep)) as int;
    if 0 <= n < s.len() {
        seq![s.take(n)] + split(s.skip(n + 1), sep)
    } else {
        seq![s]
    }
}

/// Splits a string at every `sep`.
pub fn split_at_char(s: &str, sep: char) -> (r: Vec<String>)
    ensures
        views(r@) == split(s@, sep),
        r@.len() > 0,
{
    let v = chars_of(s);
    let mut out: Vec<String> = Vec::new();
    let mut i: usize = 0;
    proof {
        assert(s@.skip(0) =~= s@);
        assert(views(out@) + split(s@, sep) =~= split(s@, sep));
    }
    loop
        invariant
            v@ == s@,
            i <= v@.len(),
            views(out@) + split(v@.skip(i as int), sep) == split(s@, sep),
        decreases v@.len() - i,
    {
        let ghost rest = v@.skip(i as int);
        let ghost before = views(out@);
        let b: usize = run_end(&v, i, Class::Not(sep));
        out.push(string_of(&v, i, b));
        proof {
            assert(rest.take(b - i) =~= v@.subrange(i as int, b as int));
            assert(views(out@) =~= before.push(rest.take(b - i)));
        }
        if b == v.len() {
            proof {
                assert(rest.take(b - i) =~= rest);
                assert(before + seq![rest] =~= before.push(rest));
            }
            return out;
        }
        proof {
            assert(rest.skip(b - i + 1) =~= v@.skip(b + 1));
            assert(views(out@) + split(v@.skip(b + 1), sep) =~= before + (seq![rest.take(b - i)]
                + split(v@.skip(b + 1), sep)));
        }
        i = b + 1;
    }
}

/// A line without the carriage return before its line feed.
pub open spec fn chomp(line: Seq<char>) -> Seq<char> {
    if line.len() > 0 && line.last() == '\r' {
        line.drop_last()
    } else {
        line
    }
}

/// The lines of `s`, each ended by a line feed, with or without a carriage
/// return before it, or by the end of the text.
pub open spec fn lines(s: Seq<char>) -> Seq<Seq<char>>
    decreases s.len(),
{
    proof {
        lemma_run_len(s, Class::Not('\n'));
    }
    let n = run_len(s, Class::Not('\n')) as int;
    if s.len() == 0 {
        Seq::empty()
    } else if n >= s.len() {
        seq![s]
    } else {
        seq![chomp(s.take(n))] + lines(s.skip(n + 1))
    }
}

/// Text whose last line is ended, and the lines that follow it.
pub proof fn lemma_lines_append(a: Seq<char>, b: Seq<char>)
    requires
        a.len() == 0 || a.last() == '\n',
    ensures
        lines(a + b) == lines(a) + lines(b),
    decreases a.len(),
{
    if a.len() == 0 {
        assert(a + b =~= b);
        assert(lines(a) + lines(b) =~= lines(b));
    } else {
        let k = Class::Not('\n');
        let n = run_len(a, k) as int;
        lemma_run_len(a, k);
        assert(n < a.len()) by {
            if n == a.len() {
                assert(in_class(k, a[a.len() - 1]));
            }
        }
        assert((a + b)[n] == a[n]);
        lemma_run_unique(a + b, k, n);
        assert((a + b).take(n) =~= a.take(n));
        assert((a + b).skip(n + 1) =~= a.skip(n + 1) + b);
        if a.skip(n + 1).len() > 0 {
            assert(a.skip(n + 1).last() == a.last());
        }
        lemma_lines_append(a.skip(n + 1), b);
        assert(lines(a + b) =~= lines(a) + lines(b));
    }
}

/// A single ended line.
pub proof fn lemma_one_line(x: Seq<char>)
    requires
        !x.contains('\n'),
    ensures
        lines(x.push('\n')) == seq![chomp(x)],
{
    let s = x.push('\n');
    let k = Class::Not('\n');
    assert forall|i: int| 0 <= i < x.len() implies in_class(k, s[i]) by {
        assert(x.contains(x[i]));
    }
    lemma_run_unique(s, k, x.len() as int);
    assert(s.take(x.len() as int) =~= x);
    let rest = s.skip(x.len() as int + 1);
    assert(rest.len() == 0);
    assert(lines(rest) == Seq::<Seq<char>>::empty());
    assert(lines(s) =~= seq![chomp(x)]);
}

/// A line feed at the end of the last line adds no line; a carriage return
/// before it is no longer part of that line.
pub proof fn lemma_lines_ended(s: Seq<char>)
    requires
        s.len() > 0,
        s.last() != '\n',
    ensures
        lines(s).len() > 0,
        lines(s).last().len() > 0,
        lines(s).last().last() == s.last(),
        lines(s.push('\n')) == lines(s).drop_last().push(chomp(lines(s).last())),
        s.last() != '\r' ==> lines(s.push('\n')) == lines(s),
    decreases s.len(),
{
    let k = Class::Not('\n');
    let n = run_len(s, k) as int;
    let t = s.push('\n');
    lemma_run_len(s, k);
    lemma_run_unique(t, k, n);
    if n == s.len() {
        assert(t.take(n) =~= s);
        let rest = t.skip(n + 1);
        assert(rest.len() == 0);
        assert(lines(rest) == Seq::<Seq<char>>::empty());
        assert(lines(t) =~= seq![chomp(s)]);
        assert(lines(s).drop_last().push(chomp(s)) =~= seq![chomp(s)]);
    } else {
        let rest = s.skip(n + 1);
        assert(n + 1 < s.len()) by {
            if n + 1 == s.len() {
                assert(s.last() == s[n]);
            }
        }
        assert(rest.last() == s.last());
        lemma_lines_ended(rest);
        assert(t.take(n) =~= s.take(n));
        assert(t.skip(n + 1) =~= rest.push('\n'));
        let head = seq![chomp(s.take(n))];
        assert(lines(s) == head + lines(rest));
        assert(lines(s).last() == lines(rest).last());
        assert(head + lines(rest).drop_last().push(chomp(lines(rest).last())) =~= (head
            + lines(rest)).drop_last().push(chomp(lines(rest).last())));
    }
    if s.last() != '\r' {
        let all = lines(s);
        assert(chomp(all.last()) == all.last());
        assert(all.drop_last().push(all.last()) =~= all);
    }
}

/// A space at the end of a text is trimmed off.
pub proof fn lemma_trim_pushed(s: Seq<char>, c: char)
    requires
        is_space(c),
    ensures
        trim(s.push(c)) == trim(s),
{
    let t = s.push(c);
    let n = run_len(s, Class::Space) as int;
    lemma_run_len(s, Class::Space);
    if n == s.len() {
        assert forall|i: int| 0 <= i < t.len() implies in_class(Class::Space, t[i]) by {
            if i < s.len() {
                assert(t[i] == s[i]);
            }
        }
        lemma_run_unique(t, Class::Space, t.len() as int);
        assert(trim_start(t) =~= Seq::empty());
        assert(trim_start(s) =~= Seq::empty());
    } else {
        assert(t[n] == s[n]);
        lemma_run_unique(t, Class::Space, n);
        let u = trim_start(s);
        assert(trim_start(t) =~= u.push(c));
        assert(u.push(c).drop_last() =~= u);
        lemma_tail_len(u, Class::Space);
        assert(trim_end(u.push(c)) =~= trim_end(u));
    }
}

/// Text that starts and ends with a character that is no space is trimmed
/// already.
pub proof fn lemma_trim_same(s: Seq<char>)
    requires
        s.len() > 0,
        !is_space(s[0]),
        !is_space(s.last()),
    ensures
        trim(s) == s,
        trim_start(s) == s,
{
    lemma_run_unique(s, Class::Space, 0);
    assert(s.skip(0) =~= s);
    lemma_tail_unique(s, Class::Space, 0);
    assert(s.take(s.len() as int) =~= s);
}

/// Splits a string into its lines.
pub fn split_lines(s: &str) -> (r: Vec<String>)
    ensures
        views(r@) == lines(s@),
{
    let v = chars_of(s);
    let mut out: Vec<String> = Vec::new();
    let mut i: usize = 0;
    proof {
        assert(s@.skip(0) =~= s@);
        assert(views(out@) + lines(s@) =~= lines(s@));
    }
    while i < v.len()
        invariant
            v@ == s@,
            i <= v@.len(),
            views(out@) + lines(v@.skip(i as int)) == lines(s@),
        decreases v@.len() - i,
    {
        let ghost rest = v@.skip(i as int);
        let ghost before = views(out@);
        let b: usize = run_end(&v, i, Class::Not('\n'));
        if b == v.len() {
            out.push(string_of(&v, i, b));
            proof {
                assert(v@.subrange(i as int, b as int) =~= rest);
                assert(v@.skip(b as int) =~= Seq::<char>::empty());
                assert(views(out@) =~= before.push(rest));
                assert(views(out@) + lines(v@.skip(b as int)) =~= before + seq![rest]);
            }
            i = b;
        } else {
            let e: usize = if b > i && v[b - 1] == '\r' {
                b - 1
            } else {
                b
            };
            out.push(string_of(&v, i, e));
            proof {
                let line = rest.take(b - i);
                if b > i {
                    assert(line.last() == v@[b - 1]);
                }
                assert(v@.subrange(i as int, e as int) =~= chomp(line));
                assert(views(out@) =~= before.push(chomp(line)));
                assert(rest.skip(b - i + 1) =~= v@.skip(b + 1));
                assert(views(out@) + lines(v@.skip(b + 1)) =~= before + (seq![chomp(line)] + lines(
                    v@.skip(b + 1),
                )));
            }
            i = b + 1;
        }
    }
    proof {
        assert(v@.skip(i as int) =~= Seq::<char>::empty());
        assert(views(out@) =~= lines(s@));
    }
    out
}

/// The pieces of `parts` with `sep` between each two.
pub open spec fn join(parts: Seq<Seq<char>>, sep: Seq<char>) -> Seq<char>
    decreases parts.len(),
{
    if parts.len() == 0 {
        Seq::empty()
    } else if parts.len() == 1 {
        parts[0]
    } else {
        join(parts.drop_last(), sep) + sep + parts.last()
    }
}

/// Joining starts with the first piece and the separator.
pub proof fn lemma_join_front(parts: Seq<Seq<char>>, sep: Seq<char>)
    requires
        parts.len() >= 2,
    ensures
        join(parts, sep) == parts[0] + sep + join(parts.skip(1), sep),
    decreases parts.len(),
{
    let init = parts.drop_last();
    let rest = parts.skip(1);
    if parts.len() == 2 {
        assert(join(init, sep) == init[0]);
        assert(join(rest, sep) == rest[0]);
        assert(join(parts, sep) =~= parts[0] + sep + rest[0]);
    } else {
        lemma_join_front(init, sep);
        assert(init.skip(1) =~= rest.drop_last());
        assert(rest.last() == parts.last());
        assert(join(parts, sep) =~= parts[0] + sep + (join(rest.drop_last(), sep) + sep
            + parts.last()));
    }
}

/// Joins strings with `sep` between each two.
pub fn joined(parts: &Vec<String>, sep: &str) -> (r: String)
    ensures
        r@ == join(views(parts@), sep@),
{
    let mut out = String::new();
    let mut i: usize = 0;
    let ghost all = views(parts@);
    assert(all.take(0) =~= Seq::<Seq<char>>::empty());
    while i < parts.len()
        invariant
            i <= parts@.len(),
            all == views(parts@),
            out@ == join(all.take(i as int), sep@),
        decreases parts@.len() - i,
    {
        if i > 0 {
            out.append(sep);
        }
        out.append(parts[i].as_str());
        proof {
            let t = all.take(i + 1);
            assert(t.drop_last() =~= all.take(i as int));
            assert(t.last() == parts@[i as int]@);
            if i == 0 {
                assert(t[0] == parts@[0]@);
                assert(out@ =~= parts@[0]@);
            }
        }
        i += 1;
    }
    assert(all.take(i as int) =~= all);
    out
}

// ---------------------------------------------------------------------------
// Bytes
// ---------------------------------------------------------------------------
/// The length of `s` in bytes, encoded as UTF-8.
pub open spec fn byte_len(s: Seq<char>) -> nat {
    encode_utf8(s).len()
}

/// `s` can be cut after `n` bytes: no character straddles the cut.
pub open spec fn can_cut(s: Seq<char>, n: int) -> bool {
    byte_len(s) <= n || is_char_boundary(encode_utf8(s), n)
}

/// The characters of `s` that its first `n` bytes encode.
pub open spec fn byte_prefix(s: Seq<char>, n: int) -> Seq<char> {
    decode_utf8(encode_utf8(s).subrange(0, n))
}

/// What a cut keeps is a prefix of the text, as long as asked for.
pub proof fn lemma_byte_prefix(s: Seq<char>, n: int)
    requires
        is_char_boundary(encode_utf8(s), n),
        0 <= n <= byte_len(s),
    ensures
        byte_prefix(s, n).is_prefix_of(s),
        byte_len(byte_prefix(s, n)) == n,
{
    broadcast use encode_utf8_valid_utf8, encode_utf8_decode_utf8;

    let b = encode_utf8(s);
    valid_utf8_split(b, n);
    decode_utf8_split(b, n);
    decode_utf8_encode_utf8(b.subrange(0, n));
    let p = byte_prefix(s, n);
    let q = decode_utf8(b.subrange(n, b.len() as int));
    assert(s == p + q);
    assert((p + q).subrange(0, p.len() as int) =~= p);
}

/// Two texts put together are as long as both.
pub proof fn lemma_byte_len_add(a: Seq<char>, b: Seq<char>)
    ensures
        byte_len(a + b) == byte_len(a) + byte_len(b),
    decreases a.len(),
{
    if a.len() == 0 {
        assert(a + b =~= b);
    } else {
        assert((a + b).drop_first() =~= a.drop_first() + b);
        lemma_byte_len_add(a.drop_first(), b);
    }
}

/// Whether a string is longer than `n` bytes.
pub fn longer_than(s: &str, n: usize) -> (r: bool)
    ensures
        r == (byte_len(s@) > n),
{
    s.as_bytes().len() > n
}

/// Whether a string can be cut after `n` bytes.
pub fn cuttable(s: &str, n: usize) -> (r: bool)
    ensures
        r == can_cut(s@, n as int),
{
    !longer_than(s, n) || s.is_char_boundary(n)
}

/// The first `n` bytes of a string.
pub fn cut(s: &str, n: usize) -> (r: &str)
    requires
        can_cut(s@, n as int),
        byte_len(s@) > n,
    ensures
        r@ == byte_prefix(s@, n as int),
{
    let (head, _) = s.split_at(n);
    proof {
        broadcast use encode_utf8_decode_utf8;

        assert(decode_utf8(encode_utf8(head@)) == head@);
    }
    head
}

// ---------------------------------------------------------------------------
// Laws
// ---------------------------------------------------------------------------
/// The characters that separate words: tab to carriage return, the space, and
/// the further spaces of Unicode.
pub proof fn law_space_characters(c: char)
    ensures
        is_space(c) <==> seq![
            '\t',
            '\n',
            '\u{b}',
            '\u{c}',
            '\r',
            ' ',
            '\u{85}',
            '\u{a0}',
            '\u{1680}',
            '\u{2000}',
            '\u{2001}',
            '\u{2002}',
            '\u{2003}',
            '\u{2004}',
            '\u{2005}',
            '\u{2006}',
            '\u{2007}',
            '\u{2008}',
            '\u{2009}',
            '\u{200a}',
            '\u{2028}',
            '\u{2029}',
            '\u{202f}',
            '\u{205f}',
            '\u{3000}',
        ].contains(c),
{
    let all = seq![
        '\t',
        '\n',
        '\u{b}',
        '\u{c}',
        '\r',
        ' ',
        '\u{85}',
        '\u{a0}',
        '\u{1680}',
        '\u{2000}',
        '\u{2001}',
        '\u{2002}',
        '\u{2003}',
        '\u{2004}',
        '\u{2005}',
        '\u{2006}',
        '\u{2007}',
        '\u{2008}',
        '\u{2009}',
        '\u{200a}',
        '\u{2028}',
        '\u{2029}',
        '\u{202f}',
        '\u{205f}',
        '\u{3000}',
    ];
    let u = c as int;
    if is_space(c) {
        let k: int = if u <= 0x0d {
            u - 9
        } else if u == 0x20 {
            5
        } else if u == 0x85 {
            6
        } else if u == 0xa0 {
            7
        } else if u == 0x1680 {
            8
        } else if u <= 0x200a {
            u - 0x2000 + 9
        } else if u == 0x2028 {
            20
        } else if u == 0x2029 {
            21
        } else if u == 0x202f {
            22
        } else if u == 0x205f {
            23
        } else {
            24
        };
        assert(all[k] == c);
    }
}

/// Words are what stands between spaces: a word behind spaces, and with a
/// space or the end behind it, is the first, and the words of the rest follow.
pub proof fn law_words_stand_between_spaces(pad: Seq<char>, word: Seq<char>, rest: Seq<char>)
    requires
        forall|i: int| 0 <= i < pad.len() ==> is_space(#[trigger] pad[i]),
        word.len() > 0,
        forall|i: int| 0 <= i < word.len() ==> !is_space(#[trigger] word[i]),
        rest.len() == 0 || is_space(rest[0]),
    ensures
        words(pad + word + rest) == seq![word] + words(rest),
        first_word_of(pad + word + rest) == word,
{
    let s = pad + word + rest;
    let t = word + rest;
    lemma_run_unique(s, Class::Space, pad.len() as int);
    assert(trim_start(s) =~= t);
    lemma_run_unique(t, Class::NonSpace, word.len() as int);
    assert(t.take(word.len() as int) =~= word);
    assert(t.skip(word.len() as int) =~= rest);
}

/// Spaces alone, and no text at all, hold no word.
pub proof fn law_spaces_hold_no_word(pad: Seq<char>)
    requires
        forall|i: int| 0 <= i < pad.len() ==> is_space(#[trigger] pad[i]),
    ensures
        words(pad) == Seq::<Seq<char>>::empty(),
        first_word_of(pad) == Seq::<char>::empty(),
{
    lemma_run_unique(pad, Class::Space, pad.len() as int);
    assert(trim_start(pad).len() == 0);
}

/// Trimming takes off the spaces on both sides and nothing else.
pub proof fn law_trim_takes_spaces_off(front: Seq<char>, core: Seq<char>, back: Seq<char>)
    requires
        forall|i: int| 0 <= i < front.len() ==> is_space(#[trigger] front[i]),
        forall|i: int| 0 <= i < back.len() ==> is_space(#[trigger] back[i]),
        core.len() > 0 ==> !is_space(core[0]) && !is_space(core.last()),
    ensures
        trim(front + core + back) == core,
        core.len() > 0 ==> trim_start(front + core + back) == core + back,
{
    let s = front + core + back;
    if core.len() == 0 {
        lemma_run_unique(s, Class::Space, s.len() as int);
        assert(trim_start(s).len() == 0);
        assert(trim(s) =~= core);
    } else {
        let t = core + back;
        assert(s[front.len() as int] == core[0]);
        lemma_run_unique(s, Class::Space, front.len() as int);
        assert(trim_start(s) =~= t);
        assert(t[core.len() - 1] == core.last());
        lemma_tail_unique(t, Class::Space, back.len() as int);
        assert(t.take(core.len() as int) =~= core);
    }
}

/// The pieces of a text, put together again with the separator between them,
/// are the text, and no piece holds the separator.
pub proof fn law_split_pieces_make_the_text(s: Seq<char>, sep: char)
    ensures
        split(s, sep).len() > 0,
        join(split(s, sep), seq![sep]) == s,
        forall|i: int| 0 <= i < split(s, sep).len() ==> !(#[trigger] split(s, sep)[i]).contains(sep),
    decreases s.len(),
{
    let k = Class::Not(sep);
    let n = run_len(s, k) as int;
    let p = split(s, sep);
    lemma_run_len(s, k);
    if n < s.len() {
        let rest = s.skip(n + 1);
        let q = split(rest, sep);
        law_split_pieces_make_the_text(rest, sep);
        assert(p.skip(1) =~= q);
        assert(p[0] == s.take(n));
        lemma_join_front(p, seq![sep]);
        assert(s[n] == sep);
        assert(s =~= s.take(n) + seq![sep] + rest);
        assert forall|i: int| 0 <= i < p.len() implies !(#[trigger] p[i]).contains(sep) by {
            if i == 0 {
                assert forall|j: int| 0 <= j < n implies p[0][j] != sep by {
                    assert(in_class(k, s[j]));
                }
            } else {
                assert(p[i] == q[i - 1]);
            }
        }
    } else {
        assert forall|j: int| 0 <= j < s.len() implies s[j] != sep by {
            assert(in_class(k, s[j]));
        }
    }
}

/// A line ends at a line feed, and a carriage return before that is not part
/// of it. A last line without a line feed counts, an empty one does not.
pub proof fn law_lines_end_at_line_feeds(line: Seq<char>, rest: Seq<char>)
    requires
        !line.contains('\n'),
    ensures
        line.len() == 0 || line.last() != '\r' ==> lines(line + seq!['\n'] + rest) == seq![line]
            + lines(rest),
        lines(line + seq!['\r', '\n'] + rest) == seq![line] + lines(rest),
        line.len() > 0 ==> lines(line) == seq![line],
        lines(Seq::<char>::empty()) == Seq::<Seq<char>>::empty(),
{
    let one = line.push('\n');
    let cr = line.push('\r');
    let two = cr.push('\n');
    lemma_one_line(line);
    assert(!cr.contains('\n')) by {
        if cr.contains('\n') {
            let i = cr.index_of('\n');
            assert(line[i] == '\n');
        }
    }
    lemma_one_line(cr);
    assert(cr.drop_last() =~= line);
    lemma_lines_append(one, rest);
    lemma_lines_append(two, rest);
    assert(line + seq!['\n'] + rest =~= one + rest);
    assert(line + seq!['\r', '\n'] + rest =~= two + rest);
    if line.len() > 0 {
        let k = Class::Not('\n');
        assert forall|i: int| 0 <= i < line.len() implies in_class(k, line[i]) by {
            assert(line.contains(line[i]));
        }
        lemma_run_unique(line, k, line.len() as int);
    }
}

/// A search finds the first place where the pattern stands, and finds nothing
/// only if it stands nowhere.
pub proof fn law_find_yields_the_first(s: Seq<char>, pat: Seq<char>)
    ensures
        match find(s, pat) {
            Some(n) => {
                &&& 0 <= n
                &&& n + pat.len() <= s.len()
                &&& s.subrange(n, n + pat.len()) == pat
                &&& forall|j: int|
                    0 <= j < n ==> #[trigger] s.subrange(j, j + pat.len()) != pat
            },
            None => forall|j: int|
                0 <= j && j + pat.len() <= s.len() ==> #[trigger] s.subrange(j, j + pat.len())
                    != pat,
        },
        contains(s, pat) <==> exists|j: int|
            0 <= j && j + pat.len() <= s.len() && #[trigger] s.subrange(j, j + pat.len()) == pat,
{
    lemma_find_from(s, pat, 0);
    if let Some(n) = find(s, pat) {
        assert(occurs_at(s, pat, n));
        assert forall|j: int| 0 <= j < n implies #[trigger] s.subrange(j, j + pat.len()) != pat by {
            assert(!occurs_at(s, pat, j));
        }
    } else {
        assert forall|j: int| 0 <= j && j + pat.len() <= s.len() implies #[trigger] s.subrange(
            j,
            j + pat.len(),
        ) != pat by {
            assert(!occurs_at(s, pat, j));
        }
    }
    if contains(s, pat) {
        let i = choose|i: int| #[trigger] occurs_at(s, pat, i);
        assert(s.subrange(i, i + pat.len()) == pat);
    }
    if exists|j: int|
        0 <= j && j + pat.len() <= s.len() && #[trigger] s.subrange(j, j + pat.len()) == pat {
        let j = choose|j: int|
            0 <= j && j + pat.len() <= s.len() && #[trigger] s.subrange(j, j + pat.len()) == pat;
        assert(occurs_at(s, pat, j));
    }
}

/// What follows a prefix is the rest of the text behind it.
pub proof fn law_prefix_and_rest(s: Seq<char>, pat: Seq<char>, rest: Seq<char>)
    ensures
        after_prefix(s, pat) == Some(rest) <==> s == pat + rest,
        after_prefix(s, pat) is None <==> !pat.is_prefix_of(s),
{
    if pat.is_prefix_of(s) {
        assert(s =~= pat + s.skip(pat.len() as int));
    }
    if s == pat + rest {
        assert(s.subrange(0, pat.len() as int) =~= pat);
        assert(s.skip(pat.len() as int) =~= rest);
    }
}

/// Replacing puts the new text in the place of the first occurrence and goes
/// on behind it; text without an occurrence is kept.
pub proof fn law_replace_goes_from_left_to_right(
    front: Seq<char>,
    pat: Seq<char>,
    back: Seq<char>,
    with: Seq<char>,
)
    requires
        pat.len() > 0,
        forall|j: int|
            0 <= j < front.len() ==> #[trigger] (front + pat + back).subrange(j, j + pat.len())
                != pat,
    ensures
        replace(front + pat + back, pat, with) == front + with + replace(back, pat, with),
        !contains(back, pat) ==> replace(back, pat, with) == back,
{
    let s = front + pat + back;
    let n = front.len() as int;
    assert(s.subrange(n, n + pat.len()) =~= pat);
    assert forall|j: int| 0 <= j < n implies !occurs_at(s, pat, j) by {
        assert(s.subrange(j, j + pat.len()) != pat);
    }
    lemma_find_is(s, pat, n);
    assert(s.take(n) =~= front);
    assert(s.skip(n + pat.len()) =~= back);
    lemma_contains_find(back, pat);
}

/// A separator splits a text into the pieces before it and those behind it.
pub proof fn law_split_at_a_separator(a: Seq<char>, sep: char, b: Seq<char>)
    ensures
        split(a + seq![sep] + b, sep) == split(a, sep) + split(b, sep),
        !a.contains(sep) ==> split(a, sep) == seq![a],
    decreases a.len(),
{
    let k = Class::Not(sep);
    let s = a + seq![sep] + b;
    let n = run_len(a, k) as int;
    lemma_run_len(a, k);
    assert(s[a.len() as int] == sep);
    if n < a.len() {
        let rest = a.skip(n + 1);
        assert(s[n] == a[n]);
        lemma_run_unique(s, k, n);
        law_split_at_a_separator(rest, sep, b);
        assert(s.take(n) =~= a.take(n));
        assert(s.skip(n + 1) =~= rest + seq![sep] + b);
        assert(split(s, sep) =~= split(a, sep) + split(b, sep));
        assert(a[n] == sep);
    } else {
        lemma_run_unique(s, k, n);
        assert(s.take(n) =~= a);
        assert(s.skip(n + 1) =~= b);
    }
}

/// A text can be cut behind each of its characters, and a cut keeps what stands
/// before it.
pub proof fn law_cut_keeps_the_start(kept: Seq<char>, rest: Seq<char>)
    ensures
        can_cut(kept + rest, byte_len(kept) as int),
        byte_prefix(kept + rest, byte_len(kept) as int) == kept,
        byte_len(kept + rest) == byte_len(kept) + byte_len(rest),
        rest.len() > 0 ==> byte_len(rest) > 0,
{
    lemma_encoded_in_parts(kept, rest);
    let whole = encode_utf8(kept + rest);
    assert(whole.subrange(0, byte_len(kept) as int) =~= encode_utf8(kept));
    encode_utf8_decode_utf8(kept);
    if rest.len() > 0 {
        encode_utf8_first_scalar(rest);
    }
}

/// The bytes of two texts put together.
proof fn lemma_encoded_in_parts(a: Seq<char>, b: Seq<char>)
    ensures
        encode_utf8(a + b) == encode_utf8(a) + encode_utf8(b),
        is_char_boundary(encode_utf8(a + b), byte_len(a) as int),
    decreases a.len(),
{
    let s = a + b;
    encode_utf8_valid_utf8(s);
    if a.len() == 0 {
        assert(s =~= b);
        assert(encode_utf8(a) + encode_utf8(b) =~= encode_utf8(b));
    } else {
        assert(s.drop_first() =~= a.drop_first() + b);
        lemma_encoded_in_parts(a.drop_first(), b);
        assert(s[0] == a[0]);
        assert(encode_utf8(s) =~= encode_utf8(a) + encode_utf8(b));
        encode_utf8_first_scalar(s);
        encode_utf8_first_scalar(a);
        let n = encode_scalar(a[0] as u32).len() as int;
        assert(byte_len(a) == n + byte_len(a.drop_first()));
        assert(pop_first_scalar(encode_utf8(s)) =~= encode_utf8(s.drop_first()));
    }
}

/// Replacing one character by another goes character by character.
pub proof fn law_replacing_a_character(s: Seq<char>, from: char, to: char)
    ensures
        replace(s, seq![from], seq![to]).len() == s.len(),
        forall|i: int|
            0 <= i < s.len() ==> #[trigger] replace(s, seq![from], seq![to])[i] == (if s[i]
                == from {
                to
            } else {
                s[i]
            }),
    decreases s.len(),
{
    let pat = seq![from];
    law_find_yields_the_first(s, pat);
    match find(s, pat) {
        Some(n) => {
            let back = s.skip(n + 1);
            law_replacing_a_character(back, from, to);
            let out = replace(s, pat, seq![to]);
            assert(out =~= s.take(n) + seq![to] + replace(back, pat, seq![to]));
            assert(s[n] == s.subrange(n, n + 1)[0]);
            assert forall|i: int| 0 <= i < s.len() implies #[trigger] out[i] == (if s[i] == from {
                to
            } else {
                s[i]
            }) by {
                if i < n {
                    if s[i] == from {
                        assert(s.subrange(i, i + pat.len()) =~= pat);
                    }
                } else if i > n {
                    assert(back[i - n - 1] == s[i]);
                }
            }
        },
        None => {
            assert forall|i: int| 0 <= i < s.len() implies s[i] != from by {
                if s[i] == from {
                    assert(s.subrange(i, i + pat.len()) =~= pat);
                }
            }
        },
    }
}

/// Joining puts the separator between the parts and nowhere else.
pub proof fn law_joined_parts(part: Seq<char>, rest: Seq<Seq<char>>, sep: Seq<char>)
    ensures
        join(Seq::<Seq<char>>::empty(), sep) == Seq::<char>::empty(),
        join(seq![part], sep) == part,
        rest.len() > 0 ==> join(seq![part] + rest, sep) == part + sep + join(rest, sep),
{
    if rest.len() > 0 {
        let all = seq![part] + rest;
        lemma_join_front(all, sep);
        assert(all.skip(1) =~= rest);
    }
}

/// Space and more behind a text leave its first word as it is.
pub proof fn law_first_word_is_kept(s: Seq<char>, tail: Seq<char>)
    requires
        words(s).len() > 0,
        tail.len() == 0 || is_space(tail[0]),
    ensures
        first_word_of(s + tail) == first_word_of(s),
        first_word_of(s) == words(s)[0],
{
    lemma_run_len(s, Class::Space);
    let n = run_len(s, Class::Space) as int;
    let pad = s.take(n);
    let rest = s.skip(n);
    assert forall|i: int| 0 <= i < pad.len() implies is_space(#[trigger] pad[i]) by {
        assert(in_class(Class::Space, s[i]));
    }
    lemma_run_len(rest, Class::NonSpace);
    let m = run_len(rest, Class::NonSpace) as int;
    let word = rest.take(m);
    let more = rest.skip(m);
    assert forall|i: int| 0 <= i < word.len() implies !is_space(#[trigger] word[i]) by {
        assert(in_class(Class::NonSpace, rest[i]));
    }
    if rest.len() == 0 {
        assert(pad =~= s);
        law_spaces_hold_no_word(pad);
    } else {
        assert(rest[0] == s[n]);
        assert(word.len() > 0);
        if m < rest.len() {
            assert(more[0] == rest[m]);
        }
        law_words_stand_between_spaces(pad, word, more);
        assert(pad + word + more =~= s);
        law_words_stand_between_spaces(pad, word, more + tail);
        assert(pad + word + (more + tail) =~= s + tail);
    }
}

} // verus!
