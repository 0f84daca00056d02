//! Numbers written as text and read back.
use vstd::prelude::*;
use vstd::string::*;

use crate::text;

verus! {

/// The character of a decimal digit.
pub open spec fn digit_char(d: int) -> char {
    (48 + d) as char
}

/// The value of a decimal digit.
pub open spec fn digit_value(c: char) -> int {
    c as int - 48
}

/// The decimal digits of `n`, without leading zeros.
pub open spec fn dec(n: nat) -> Seq<char>
    decreases n,
{
    if n < 10 {
        seq![digit_char(n as int)]
    } else {
        dec(n / 10).push(digit_char((n % 10) as int))
    }
}

/// An integer in decimal, with a minus sign if it is negative.
pub open spec fn dec_int(n: int) -> Seq<char> {
    if n < 0 {
        seq!['-'] + dec((-n) as nat)
    } else {
        dec(n as nat)
    }
}

/// The character of a lower-case hexadecimal digit.
pub open spec fn hex_char(d: int) -> char {
    if d < 10 {
        (48 + d) as char
    } else {
        (87 + d) as char
    }
}

/// The last `width` hexadecimal digits of `n`.
pub open spec fn hex(n: nat, width: nat) -> Seq<char>
    decreases width,
{
    if width == 0 {
        Seq::empty()
    } else {
        hex(n / 16, (width - 1) as nat).push(hex_char((n % 16) as int))
    }
}

/// Every character of `s` is an ASCII digit.
pub open spec fn all_digits(s: Seq<char>) -> bool {
    forall|i: int| 0 <= i < s.len() ==> text::is_digit(#[trigger] s[i])
}

/// The number that a sequence of digits writes.
pub open spec fn digits_value(s: Seq<char>) -> int
    decreases s.len(),
{
    if s.len() == 0 {
        0
    } else {
        10 * digits_value(s.drop_last()) + digit_value(s.last())
    }
}

/// The number that a non-empty sequence of digits writes; nothing for other
/// text.
pub open spec fn read_digits(s: Seq<char>) -> Option<int> {
    if s.len() > 0 && all_digits(s) {
        Some(digits_value(s))
    } else {
        None
    }
}

/// The integer that `s` writes: digits, after at most one sign.
pub open spec fn read_int(s: Seq<char>) -> Option<int> {
    if s.len() > 0 && s[0] == '-' {
        match read_digits(s.skip(1)) {
            Some(v) => Some(-v),
            None => None,
        }
    } else if s.len() > 0 && s[0] == '+' {
        read_digits(s.skip(1))
    } else {
        read_digits(s)
    }
}

/// The integer that `s` writes, if it lies between `lo` and `hi`.
pub open spec fn read_between(s: Seq<char>, lo: int, hi: int) -> Option<int> {
    match read_int(s) {
        Some(v) => if lo <= v <= hi {
            Some(v)
        } else {
            None
        },
        None => None,
    }
}

/// Digits write a number that is not negative, and no smaller than the number
/// that a prefix of them writes.
pub proof fn lemma_digits_grow(s: Seq<char>, i: int)
    requires
        all_digits(s),
        0 <= i <= s.len(),
    ensures
        0 <= digits_value(s.take(i)) <= digits_value(s),
    decreases s.len(),
{
    if s.len() == 0 {
        assert(s.take(i) =~= s);
    } else {
        let t = s.drop_last();
        assert(all_digits(t));
        if i == s.len() {
            assert(s.take(i) =~= s);
            lemma_digits_grow(t, t.len() as int);
            assert(t.take(t.len() as int) =~= t);
        } else {
            lemma_digits_grow(t, i);
            assert(t.take(i) =~= s.take(i));
        }
        assert(text::is_digit(s[s.len() - 1]));
    }
}

/// Writing a natural number and reading it back yields the number.
pub proof fn lemma_dec_reads_back(n: nat)
    ensures
        dec(n).len() > 0,
        all_digits(dec(n)),
        digits_value(dec(n)) == n,
    decreases n,
{
    if n < 10 {
        let s = dec(n);
        assert(s.drop_last() =~= Seq::<char>::empty());
        assert(digits_value(s.drop_last()) == 0);
        assert(s.last() == digit_char(n as int));
    } else {
        lemma_dec_reads_back(n / 10);
        let s = dec(n);
        assert(s.drop_last() =~= dec(n / 10));
        assert(s.last() == digit_char((n % 10) as int));
        assert forall|i: int| 0 <= i < s.len() implies text::is_digit(#[trigger] s[i]) by {
            if i < s.len() - 1 {
                assert(s[i] == dec(n / 10)[i]);
            }
        }
    }
}

/// Writing an integer and reading it back yields the integer.
pub proof fn lemma_dec_int_reads_back(n: int)
    ensures
        read_int(dec_int(n)) == Some(n),
{
    if n < 0 {
        lemma_dec_reads_back((-n) as nat);
        assert(dec_int(n).skip(1) =~= dec((-n) as nat));
    } else {
        lemma_dec_reads_back(n as nat);
        assert(text::is_digit(dec(n as nat)[0]));
    }
}

/// Appends the decimal digits of `n`.
pub fn push_dec(out: &mut String, n: u64)
    ensures
        final(out)@ == old(out)@ + dec(n as nat),
    decreases n,
{
    if n >= 10 {
        push_dec(out, n / 10);
    }
    let d: u8 = (n % 10) as u8;
    let c: char = (48 + d) as char;
    out.push(c);
    assert(out@ =~= old(out)@ + dec(n as nat));
}

/// A natural number in decimal.
pub fn dec_text(n: u64) -> (r: String)
    ensures
        r@ == dec(n as nat),
{
    let mut out = String::new();
    push_dec(&mut out, n);
    assert(out@ =~= dec(n as nat));
    out
}

/// An integer in decimal.
pub fn dec_int_text(n: i64) -> (r: String)
    ensures
        r@ == dec_int(n as int),
{
    let mut out = String::new();
    if n < 0 {
        out.push('-');
        let m: u64 = (-(n as i128)) as u64;
        push_dec(&mut out, m);
    } else {
        push_dec(&mut out, n as u64);
    }
    assert(out@ =~= dec_int(n as int));
    out
}

/// Appends the last `width` hexadecimal digits of `n`.
pub fn push_hex(out: &mut String, n: u64, width: u32)
    ensures
        final(out)@ == old(out)@ + hex(n as nat, width as nat),
    decreases width,
{
    if width > 0 {
        push_hex(out, n / 16, width - 1);
        let d: u8 = (n % 16) as u8;
        let c: char = if d < 10 {
            (48 + d) as char
        } else {
            (87 + d) as char
        };
        out.push(c);
    }
    assert(out@ =~= old(out)@ + hex(n as nat, width as nat));
}

/// Reads the digits of `v` from `from` on, up to the value `limit`.
fn digits_from(v: &Vec<char>, from: usize, limit: u64) -> (r: Option<u64>)
    requires
        from <= v@.len(),
    ensures
        r == (match read_digits(v@.skip(from as int)) {
            Some(x) => if x <= limit {
                Some(x as u64)
            } else {
                None
            },
            None => None,
        }),
{
    let ghost s = v@.skip(from as int);
    if from == v.len() {
        return None;
    }
    let mut i: usize = from;
    let mut x: u64 = 0;
    assert(s.take(0) =~= Seq::<char>::empty());
    while i < v.len()
        invariant
            from <= i <= v@.len(),
            s == v@.skip(from as int),
            x == digits_value(s.take(i - from)),
            x <= limit,
            forall|j: int| 0 <= j < i - from ==> text::is_digit(#[trigger] s[j]),
        decreases v@.len() - i,
    {
        let c: char = v[i];
        if c < '0' || c > '9' {
            assert(!text::is_digit(s[i - from]));
            return None;
        }
        let y: u128 = 10 * (x as u128) + (c as u32 - 48) as u128;
        proof {
            let t = s.take(i - from + 1);
            assert(t.drop_last() =~= s.take(i - from));
            assert(t.last() == c);
            assert(digits_value(t) == y);
        }
        if y > limit as u128 {
            proof {
                if all_digits(s) {
                    lemma_digits_grow(s, i - from + 1);
                }
            }
            return None;
        }
        x = y as u64;
        i += 1;
    }
    assert(s.take(i - from) =~= s);
    Some(x)
}

/// Reads an integer between `-neg` and `pos`.
fn read_signed(s: &str, neg: u64, pos: u64) -> (r: Option<i128>)
    ensures
        match r {
            Some(x) => read_between(s@, -(neg as int), pos as int) == Some(x as int),
            None => read_between(s@, -(neg as int), pos as int) is None,
        },
{
    let v = text::chars_of(s);
    proof {
        assert(v@.skip(0) =~= s@);
        let t = s@.skip(1);
        if all_digits(t) {
            lemma_digits_grow(t, t.len() as int);
            assert(t.take(t.len() as int) =~= t);
        }
        if all_digits(s@) {
            lemma_digits_grow(s@, s@.len() as int);
            assert(s@.take(s@.len() as int) =~= s@);
        }
    }
    if v.len() > 0 && v[0] == '-' {
        match digits_from(&v, 1, neg) {
            Some(x) => Some(-(x as i128)),
            None => None,
        }
    } else if v.len() > 0 && v[0] == '+' {
        match digits_from(&v, 1, pos) {
            Some(x) => Some(x as i128),
            None => None,
        }
    } else {
        match digits_from(&v, 0, pos) {
            Some(x) => Some(x as i128),
            None => None,
        }
    }
}

/// Reads a 64-bit integer.
pub fn read_i64(s: &str) -> (r: Option<i64>)
    ensures
        match r {
            Some(x) => read_between(s@, i64::MIN as int, i64::MAX as int) == Some(x as int),
            None => read_between(s@, i64::MIN as int, i64::MAX as int) is None,
        },
{
    match read_signed(s, 0x8000_0000_0000_0000, 0x7fff_ffff_ffff_ffff) {
        Some(x) => Some(x as i64),
        None => None,
    }
}

/// Reads a 32-bit integer.
pub fn read_i32(s: &str) -> (r: Option<i32>)
    ensures
        match r {
            Some(x) => read_between(s@, i32::MIN as int, i32::MAX as int) == Some(x as int),
            None => read_between(s@, i32::MIN as int, i32::MAX as int) is None,
        },
{
    match read_signed(s, 0x8000_0000, 0x7fff_ffff) {
        Some(x) => Some(x as i32),
        None => None,
    }
}

// ---------------------------------------------------------------------------
// Columns
// ---------------------------------------------------------------------------
/// `n` copies of `c`.
pub open spec fn copies(c: char, n: nat) -> Seq<char> {
    Seq::new(n, |i: int| c)
}

/// `s` padded on the right with spaces to at least `width` characters.
pub open spec fn pad_right(s: Seq<char>, width: nat) -> Seq<char> {
    if s.len() < width {
        s + copies(' ', (width - s.len()) as nat)
    } else {
        s
    }
}

/// `s` padded on the left with spaces to at least `width` characters.
pub open spec fn pad_left(s: Seq<char>, width: nat) -> Seq<char> {
    if s.len() < width {
        copies(' ', (width - s.len()) as nat) + s
    } else {
        s
    }
}

/// Appends `n` copies of `c`.
pub fn push_copies(out: &mut String, c: char, n: usize)
    ensures
        final(out)@ == old(out)@ + copies(c, n as nat),
{
    let mut i: usize = 0;
    while i < n
        invariant
            i <= n,
            out@ == old(out)@ + copies(c, i as nat),
        decreases n - i,
    {
        out.push(c);
        i += 1;
        assert(out@ =~= old(out)@ + copies(c, i as nat));
    }
}

/// Appends `s` padded on the right.
pub fn push_padded(out: &mut String, s: &str, width: usize)
    ensures
        final(out)@ == old(out)@ + pad_right(s@, width as nat),
{
    out.append(s);
    let n: usize = s.unicode_len();
    if n < width {
        push_copies(out, ' ', width - n);
    }
    assert(out@ =~= old(out)@ + pad_right(s@, width as nat));
}

/// Appends `s` padded on the left.
pub fn push_aligned(out: &mut String, s: &str, width: usize)
    ensures
        final(out)@ == old(out)@ + pad_left(s@, width as nat),
{
    let n: usize = s.unicode_len();
    if n < width {
        push_copies(out, ' ', width - n);
    }
    out.append(s);
    assert(out@ =~= old(out)@ + pad_left(s@, width as nat));
}

// ---------------------------------------------------------------------------
// Laws
// ---------------------------------------------------------------------------
/// A number that is written is read back, if it lies in the range that is
/// asked for, and is refused if it does not.
pub proof fn law_numbers_read_back(n: int, lo: int, hi: int)
    ensures
        read_between(dec_int(n), lo, hi) == (if lo <= n <= hi {
            Some(n)
        } else {
            None
        }),
{
    lemma_dec_int_reads_back(n);
}

/// Zeros in front and a plus sign change nothing; a minus sign changes the
/// sign; a character that is no digit makes the text no number.
pub proof fn law_signs_and_zeros(digits: Seq<char>)
    ensures
        digits.len() > 0 && (forall|i: int|
            0 <= i < digits.len() ==> '0' <= #[trigger] digits[i] <= '9') ==> {
            &&& read_int(digits) matches Some(v) && v >= 0
            &&& read_int(seq!['0'] + digits) == read_int(digits)
            &&& read_int(seq!['+'] + digits) == read_int(digits)
            &&& read_int(seq!['-'] + digits) == Some(-(read_int(digits)->0))
        },
        digits.len() == 0 || (exists|i: int|
            0 <= i < digits.len() && !('0' <= #[trigger] digits[i] <= '9')) ==> {
            &&& read_int(seq!['0'] + digits) is None || digits.len() == 0
            &&& read_int(seq!['+'] + digits) is None
            &&& read_int(seq!['-'] + digits) is None
        },
{
    let (z, p, m) = (seq!['0'] + digits, seq!['+'] + digits, seq!['-'] + digits);
    assert(p.skip(1) =~= digits);
    assert(m.skip(1) =~= digits);
    if digits.len() > 0 && (forall|i: int|
        0 <= i < digits.len() ==> '0' <= #[trigger] digits[i] <= '9') {
        assert(all_digits(digits));
        lemma_digits_grow(digits, digits.len() as int);
        assert(digits.take(digits.len() as int) =~= digits);
        assert(text::is_digit(digits[0]));
        lemma_leading_zero(digits);
        assert forall|i: int| 0 <= i < z.len() implies text::is_digit(#[trigger] z[i]) by {
            if i > 0 {
                assert(z[i] == digits[i - 1]);
            }
        }
    }
    if exists|i: int| 0 <= i < digits.len() && !('0' <= #[trigger] digits[i] <= '9') {
        let i = choose|i: int| 0 <= i < digits.len() && !('0' <= #[trigger] digits[i] <= '9');
        assert(!text::is_digit(digits[i]));
        assert(z[i + 1] == digits[i]);
        assert(!all_digits(digits));
        assert(!all_digits(z));
    }
}

/// A zero in front adds nothing.
proof fn lemma_leading_zero(s: Seq<char>)
    ensures
        digits_value(seq!['0'] + s) == digits_value(s),
    decreases s.len(),
{
    let z = seq!['0'] + s;
    if s.len() == 0 {
        assert(z.drop_last() =~= Seq::<char>::empty());
        assert(digits_value(z.drop_last()) == 0);
    } else {
        lemma_leading_zero(s.drop_last());
        assert(z.drop_last() =~= seq!['0'] + s.drop_last());
    }
}

/// The hexadecimal digits of two numbers are the same only if the numbers
/// agree in as many digits.
pub proof fn law_hex_tells_numbers_apart(a: nat, b: nat, width: nat)
    requires
        hex(a, width) == hex(b, width),
    ensures
        a % vstd::arithmetic::power::pow(16, width) as nat
            == b % vstd::arithmetic::power::pow(16, width) as nat,
    decreases width,
{
    if width > 0 {
        let w = (width - 1) as nat;
        let (x, y) = (hex(a, width), hex(b, width));
        assert(x.drop_last() =~= hex(a / 16, w));
        assert(y.drop_last() =~= hex(b / 16, w));
        assert(x.last() == hex_char((a % 16) as int));
        assert(y.last() == hex_char((b % 16) as int));
        assert(a % 16 == b % 16);
        law_hex_tells_numbers_apart(a / 16, b / 16, w);
        vstd::arithmetic::power::lemma_pow_positive(16, w);
        vstd::arithmetic::power::lemma_pow_positive(16, width);
        reveal(vstd::arithmetic::power::pow);
        let p = vstd::arithmetic::power::pow(16, w);
        assert(vstd::arithmetic::power::pow(16, width) == 16 * p);
        vstd::arithmetic::div_mod::lemma_mod_breakdown(a as int, 16, p);
        vstd::arithmetic::div_mod::lemma_mod_breakdown(b as int, 16, p);
    } else {
        reveal(vstd::arithmetic::power::pow);
    }
}

/// Hexadecimal text is as long as asked for.
pub proof fn law_hex_width(n: nat, width: nat)
    ensures
        hex(n, width).len() == width,
    decreases width,
{
    if width > 0 {
        law_hex_width(n / 16, (width - 1) as nat);
    }
}

/// Padding keeps the text and adds spaces up to the width, on the side that
/// is asked for; longer text is kept as it is.
pub proof fn law_padding_adds_spaces(s: Seq<char>, width: nat)
    ensures
        pad_right(s, width).len() == (if s.len() < width {
            width
        } else {
            s.len()
        }),
        pad_left(s, width).len() == pad_right(s, width).len(),
        pad_right(s, width).take(s.len() as int) == s,
        pad_left(s, width).skip(pad_left(s, width).len() - s.len()) == s,
        forall|i: int|
            s.len() <= i < pad_right(s, width).len() ==> #[trigger] pad_right(s, width)[i] == ' ',
        forall|i: int|
            0 <= i < pad_left(s, width).len() - s.len() ==> #[trigger] pad_left(s, width)[i] == ' ',
{
    assert(pad_right(s, width).take(s.len() as int) =~= s);
    assert(pad_left(s, width).skip(pad_left(s, width).len() - s.len()) =~= s);
}

} // verus!
