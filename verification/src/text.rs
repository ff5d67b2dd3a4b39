//! Characters and digits: the classes of characters that the lexer tells
//! apart, and integers as text.
use vstd::prelude::*;

verus! {

/// Whether `c` is one of the ASCII decimal digits `0` to `9`.
pub open spec fn is_digit(c: char) -> bool {
    '0' <= c && c <= '9'
}

/// Whether `c` has the Unicode property `White_Space`.
pub open spec fn is_whitespace(c: char) -> bool {
    let u = c as u32;
    ||| 0x09 <= u <= 0x0D
    ||| u == 0x20
    ||| u == 0x85
    ||| u == 0xA0
    ||| u == 0x1680
    ||| 0x2000 <= u <= 0x200A
    ||| u == 0x2028
    ||| u == 0x2029
    ||| u == 0x202F
    ||| u == 0x205F
    ||| u == 0x3000
}

/// Whether `c` is a control code (Unicode general category `Cc`).
pub open spec fn is_control(c: char) -> bool {
    let u = c as u32;
    u <= 0x1F || (0x7F <= u <= 0x9F)
}

/// Whether `c` is an ASCII punctuation character.
pub open spec fn is_ascii_punctuation(c: char) -> bool {
    let u = c as u32;
    ||| 0x21 <= u <= 0x2F
    ||| 0x3A <= u <= 0x40
    ||| 0x5B <= u <= 0x60
    ||| 0x7B <= u <= 0x7E
}

/// Whether `c` may appear in an identifier: anything that is not an ASCII
/// digit, white space, a control code or ASCII punctuation.
pub open spec fn is_ident_char(c: char) -> bool {
    !(is_digit(c) || is_whitespace(c) || is_control(c) || is_ascii_punctuation(c))
}

/// Whether `c` is an ASCII decimal digit.
pub fn char_is_digit(c: char) -> (r: bool)
    ensures
        r == is_digit(c),
{
    c >= '0' && c <= '9'
}

/// Whether `c` is white space.
pub fn char_is_whitespace(c: char) -> (r: bool)
    ensures
        r == is_whitespace(c),
{
    let u: u32 = c as u32;
    (0x09 <= u && u <= 0x0D) || u == 0x20 || u == 0x85 || u == 0xA0 || u == 0x1680 || (0x2000 <= u
        && u <= 0x200A) || u == 0x2028 || u == 0x2029 || u == 0x202F || u == 0x205F || u == 0x3000
}

/// Whether `c` is a control code.
pub fn char_is_control(c: char) -> (r: bool)
    ensures
        r == is_control(c),
{
    let u: u32 = c as u32;
    u <= 0x1F || (0x7F <= u && u <= 0x9F)
}

/// Whether `c` is an ASCII punctuation character.
pub fn char_is_ascii_punctuation(c: char) -> (r: bool)
    ensures
        r == is_ascii_punctuation(c),
{
    let u: u32 = c as u32;
    (0x21 <= u && u <= 0x2F) || (0x3A <= u && u <= 0x40) || (0x5B <= u && u <= 0x60) || (0x7B <= u
        && u <= 0x7E)
}

/// Returns true if the character can be used in an identifier.
pub fn can_use_as_ident(c: char) -> (r: bool)
    ensures
        r == is_ident_char(c),
{
    !(char_is_digit(c) || char_is_whitespace(c) || char_is_control(c) || char_is_ascii_punctuation(
        c,
    ))
}

/// `String::push` of the standard library: appends the one character `c` to
/// the end of `s` and leaves what `s` held before in place.
#[verifier::external_body]
pub(crate) fn push_char(s: &mut String, c: char)
    ensures
        final(s)@ == old(s)@.push(c),
{
    s.push(c)
}

/// The characters of `s`, in order.
pub fn to_chars(s: &str) -> (v: Vec<char>)
    ensures
        v@ == s@,
{
    let mut v: Vec<char> = Vec::new();
    for c in it: s.chars()
        invariant
            v@ == it.seq().take(it.index() as int),
            it.seq() == s@,
    {
        v.push(c);
    }
    v
}

/// The text `chars[start..end]` as a string.
pub fn text_of(chars: &Vec<char>, start: usize, end: usize) -> (s: String)
    requires
        start <= end <= chars.len(),
    ensures
        s@ == chars@.subrange(start as int, end as int),
{
    let mut s = String::new();
    let mut i: usize = start;
    while i < end
        invariant
            start <= i <= end <= chars.len(),
            s@ == chars@.subrange(start as int, i as int),
        decreases end - i,
    {
        push_char(&mut s, chars[i]);
        i += 1;
        assert(s@ =~= chars@.subrange(start as int, i as int));
    }
    s
}

/// The number that the ASCII digit `c` stands for.
pub open spec fn digit_value(c: char) -> int {
    c as int - '0' as int
}

/// The ASCII digit that stands for `d`, for `d` below ten.
pub open spec fn digit_char(d: int) -> char {
    (d + '0' as int) as char
}

/// Whether `s` consists of ASCII decimal digits only.
pub open spec fn all_digits(s: Seq<char>) -> bool {
    forall|i: int| 0 <= i < s.len() ==> is_digit(#[trigger] s[i])
}

/// The number that the digit string `s` denotes in base ten.
pub open spec fn decimal_value(s: Seq<char>) -> int
    decreases s.len(),
{
    if s.len() == 0 {
        0
    } else {
        decimal_value(s.drop_last()) * 10 + digit_value(s.last())
    }
}

/// The base-ten digits of `n`, most significant first, without leading zeros.
pub open spec fn decimal_digits(n: nat) -> Seq<char>
    decreases n,
{
    if n < 10 {
        seq![digit_char(n as int)]
    } else {
        decimal_digits(n / 10).push(digit_char((n % 10) as int))
    }
}

/// The text of the integer `i`: its digits, after a minus sign if it is
/// negative.
pub open spec fn int_text(i: int) -> Seq<char> {
    if i < 0 {
        seq!['-'] + decimal_digits((-i) as nat)
    } else {
        decimal_digits(i as nat)
    }
}

/// Why a text is not an integer literal that fits in 64 bits.
#[derive(Debug, PartialEq, Eq, Clone, Copy, Structural)]
pub enum IntegerError {
    Empty,
    InvalidDigit,
    Overflow,
}

/// What `parse_integer` makes of a text: the value of a non-empty string of
/// ASCII digits that fits in a signed 64-bit integer, and otherwise the reason
/// why there is none.
pub open spec fn integer_of(s: Seq<char>) -> Result<i64, IntegerError> {
    if s.len() == 0 {
        Err(IntegerError::Empty)
    } else if !all_digits(s) {
        Err(IntegerError::InvalidDigit)
    } else if decimal_value(s) > i64::MAX {
        Err(IntegerError::Overflow)
    } else {
        Ok(decimal_value(s) as i64)
    }
}

/// A digit string denotes a number that is not negative.
pub proof fn lemma_decimal_value_nonnegative(s: Seq<char>)
    requires
        all_digits(s),
    ensures
        0 <= decimal_value(s),
    decreases s.len(),
{
    if s.len() > 0 {
        lemma_decimal_value_nonnegative(s.drop_last());
        assert(is_digit(s[s.len() - 1]));
    }
}

/// A longer digit string denotes no smaller a number than any of its
/// prefixes.
pub proof fn lemma_decimal_value_prefix(s: Seq<char>, k: int)
    requires
        all_digits(s),
        0 <= k <= s.len(),
    ensures
        decimal_value(s.take(k)) <= decimal_value(s),
    decreases s.len(),
{
    if k == s.len() {
        assert(s.take(k) =~= s);
    } else {
        lemma_decimal_value_prefix(s.drop_last(), k);
        lemma_decimal_value_nonnegative(s.drop_last());
        assert(s.drop_last().take(k) =~= s.take(k));
        assert(is_digit(s[s.len() - 1]));
    }
}

/// Reads an integer literal: a non-empty run of ASCII digits whose value
/// fits in a signed 64-bit integer.
pub fn parse_integer(text: &str) -> (r: Result<i64, IntegerError>)
    ensures
        r == integer_of(text@),
{
    let chars = to_chars(text);
    let n = chars.len();
    if n == 0 {
        return Err(IntegerError::Empty);
    }
    let mut i: usize = 0;
    while i < n
        invariant
            0 <= i <= n == chars.len(),
            n > 0,
            chars@ == text@,
            forall|j: int| 0 <= j < i ==> is_digit(#[trigger] chars@[j]),
        decreases n - i,
    {
        if !char_is_digit(chars[i]) {
            assert(!is_digit(chars@[i as int]));
            return Err(IntegerError::InvalidDigit);
        }
        i += 1;
    }
    let mut acc: i64 = 0;
    i = 0;
    while i < n
        invariant
            0 <= i <= n == chars.len(),
            n > 0,
            chars@ == text@,
            all_digits(chars@),
            acc == decimal_value(chars@.take(i as int)),
            0 <= acc,
        decreases n - i,
    {
        let d: i64 = (chars[i] as u32 - '0' as u32) as i64;
        proof {
            assert(is_digit(chars@[i as int]));
            assert(chars@.take(i + 1).drop_last() =~= chars@.take(i as int));
            assert(chars@.take(i + 1).last() == chars@[i as int]);
            assert(decimal_value(chars@.take(i + 1)) == acc * 10 + d);
            lemma_decimal_value_prefix(chars@, i + 1);
        }
        if acc > (i64::MAX - d) / 10 {
            return Err(IntegerError::Overflow);
        }
        acc = acc * 10 + d;
        i += 1;
    }
    assert(chars@.take(n as int) =~= chars@);
    Ok(acc)
}

/// The ASCII digit that stands for `d`.
fn digit_of(d: u64) -> (c: char)
    requires
        d < 10,
    ensures
        c == digit_char(d as int),
{
    if d == 0 {
        '0'
    } else if d == 1 {
        '1'
    } else if d == 2 {
        '2'
    } else if d == 3 {
        '3'
    } else if d == 4 {
        '4'
    } else if d == 5 {
        '5'
    } else if d == 6 {
        '6'
    } else if d == 7 {
        '7'
    } else if d == 8 {
        '8'
    } else {
        '9'
    }
}

/// Appends the base-ten digits of `n` to `s`.
pub fn push_decimal(s: &mut String, n: u64)
    ensures
        final(s)@ == old(s)@ + decimal_digits(n as nat),
    decreases n,
{
    if n >= 10 {
        push_decimal(s, n / 10);
    }
    push_char(s, digit_of(n % 10));
    assert(s@ =~= old(s)@ + decimal_digits(n as nat));
}

/// Appends the text of `i` to `s`.
pub fn push_int(s: &mut String, i: i64)
    ensures
        final(s)@ == old(s)@ + int_text(i as int),
{
    if i < 0 {
        push_char(s, '-');
        let magnitude: u64 = (-(i + 1)) as u64 + 1;
        push_decimal(s, magnitude);
        assert(s@ =~= old(s)@ + int_text(i as int));
    } else {
        push_decimal(s, i as u64);
    }
}

/// Appends the text `t` to `s`.
pub fn push_text(s: &mut String, t: &str)
    ensures
        final(s)@ == old(s)@ + t@,
{
    s.append(t);
}

} // verus!
