//! Character-level text handling: character classes, trimming, and turning
//! identifiers into readable labels.

use vstd::prelude::*;
use vstd::string::*;

verus! {

broadcast use vstd::string::group_string_axioms;

/// Unicode `Alphabetic` or `Numeric`.
pub uninterp spec fn char_is_alphanumeric(c: char) -> bool;

/// Unicode `Uppercase`.
pub uninterp spec fn char_is_uppercase(c: char) -> bool;

/// Unicode `Lowercase`.
pub uninterp spec fn char_is_lowercase(c: char) -> bool;

/// Unicode `White_Space`: tab, line feed, vertical tab, form feed, carriage
/// return, space, next line, no-break space, ogham space mark, the spaces
/// from en quad to hair space, line separator, paragraph separator, narrow
/// no-break space, medium mathematical space and ideographic space.
pub open spec fn char_is_whitespace(c: char) -> bool {
    let n = c as u32;
    ||| 0x9 <= n <= 0xd
    ||| n == 0x20
    ||| n == 0x85
    ||| n == 0xa0
    ||| n == 0x1680
    ||| 0x2000 <= n <= 0x200a
    ||| n == 0x2028
    ||| n == 0x2029
    ||| n == 0x202f
    ||| n == 0x205f
    ||| n == 0x3000
}

pub open spec fn is_ascii_letter_or_digit(c: char) -> bool {
    ('a' <= c && c <= 'z') || ('A' <= c && c <= 'Z') || ('0' <= c && c <= '9')
}

/// `char::is_alphanumeric`. Among ASCII characters exactly the letters and
/// digits are alphanumeric.
#[verifier::external_body]
pub(crate) fn is_alphanumeric(c: char) -> (b: bool)
    ensures
        b == char_is_alphanumeric(c),
        (c as u32) < 128 ==> (b <==> is_ascii_letter_or_digit(c)),
{
    c.is_alphanumeric()
}

/// `char::is_uppercase`. Among ASCII characters exactly `A` to `Z` are
/// uppercase.
#[verifier::external_body]
pub(crate) fn is_uppercase(c: char) -> (b: bool)
    ensures
        b == char_is_uppercase(c),
        (c as u32) < 128 ==> (b <==> ('A' <= c && c <= 'Z')),
{
    c.is_uppercase()
}

/// `char::is_lowercase`. Among ASCII characters exactly `a` to `z` are
/// lowercase.
#[verifier::external_body]
pub(crate) fn is_lowercase(c: char) -> (b: bool)
    ensures
        b == char_is_lowercase(c),
        (c as u32) < 128 ==> (b <==> ('a' <= c && c <= 'z')),
{
    c.is_lowercase()
}

/// Whether `c` is white space, as `char::is_whitespace` decides. Among ASCII
/// characters exactly space, tab, line feed, vertical tab, form feed and
/// carriage return are white space.
pub fn is_whitespace(c: char) -> (b: bool)
    ensures
        b == char_is_whitespace(c),
        (c as u32) < 128 ==> (b <==> (c == ' ' || c == '\t' || c == '\n' || c == '\u{b}' || c
            == '\u{c}' || c == '\r')),
{
    let n: u32 = c as u32;
    (0x9 <= n && n <= 0xd) || n == 0x20 || n == 0x85 || n == 0xa0 || n == 0x1680 || (0x2000 <= n
        && n <= 0x200a) || n == 0x2028 || n == 0x2029 || n == 0x202f || n == 0x205f || n == 0x3000
}

/// `String::push`: appends one character.
#[verifier::external_body]
pub(crate) fn push_char(s: &mut String, c: char)
    ensures
        final(s)@ == old(s)@.push(c),
{
    s.push(c);
}

/// The character of the decimal digit `d`.
pub open spec fn digit_char(d: int) -> char {
    (48 + d) as char
}

/// The decimal digits of `n`, most significant first, without leading zeros.
pub open spec fn decimal(n: nat) -> Seq<char>
    decreases n,
{
    if n < 10 {
        seq![digit_char(n as int)]
    } else {
        decimal(n / 10).push(digit_char((n % 10) as int))
    }
}

/// The number that the decimal digits `s` write, most significant first.
pub open spec fn decimal_value(s: Seq<char>) -> int
    decreases s.len(),
{
    if s.len() == 0 {
        0
    } else {
        decimal_value(s.drop_last()) * 10 + (s.last() as u32 - '0' as u32)
    }
}

/// The decimal digits of a number read back as that number; they are all
/// digits `0` to `9`, and the first is `0` only for zero itself.
pub proof fn law_decimal_reads_back(n: nat)
    ensures
        decimal_value(decimal(n)) == n,
        decimal(n).len() >= 1,
        forall|i: int| 0 <= i < decimal(n).len() ==> '0' <= #[trigger] decimal(n)[i] && decimal(n)[i] <= '9',
        n > 0 ==> decimal(n)[0] != '0',
    decreases n,
{
    if n < 10 {
        assert(decimal(n) == seq![digit_char(n as int)]);
        assert(seq![digit_char(n as int)].drop_last() =~= Seq::<char>::empty());
        assert(digit_char(n as int) as u32 == 48 + n);
        assert('0' as u32 == 48);
        let e = decimal(n);
        assert(e.last() == digit_char(n as int));
        assert(decimal_value(e) == decimal_value(e.drop_last()) * 10 + (e.last() as u32 - '0' as u32));
    } else {
        law_decimal_reads_back(n / 10);
        let d = decimal(n / 10);
        let e = decimal(n);
        assert(e == d.push(digit_char((n % 10) as int)));
        assert(e.drop_last() =~= d);
        assert forall|i: int| 0 <= i < e.len() implies '0' <= #[trigger] e[i] && e[i] <= '9' by {
            if i < d.len() {
                assert(e[i] == d[i]);
            }
        }
        assert(e[0] == d[0]);
        assert(digit_char((n % 10) as int) as u32 == 48 + n % 10);
        assert(n == (n / 10) * 10 + n % 10);
        assert('0' as u32 == 48);
        assert(e.last() == digit_char((n % 10) as int));
        assert(decimal_value(e) == decimal_value(e.drop_last()) * 10 + (e.last() as u32 - '0' as u32));
    }
}

fn digit(d: u64) -> (c: char)
    requires
        d < 10,
    ensures
        c == digit_char(d as int),
{
    match d {
        0 => '0',
        1 => '1',
        2 => '2',
        3 => '3',
        4 => '4',
        5 => '5',
        6 => '6',
        7 => '7',
        8 => '8',
        _ => '9',
    }
}

/// Appends the decimal digits of `n`.
pub fn push_decimal(s: &mut String, n: u64)
    ensures
        final(s)@ == old(s)@ + decimal(n as nat),
    decreases n,
{
    if n >= 10 {
        push_decimal(s, n / 10);
    }
    push_char(s, digit(n % 10));
    proof {
        if n < 10 {
            assert(decimal(n as nat) == seq![digit_char(n as int)]);
        } else {
            assert(decimal(n as nat) == decimal((n / 10) as nat).push(digit_char((n % 10) as int)));
        }
    }
}

/// The characters of `s`, in order.
pub fn chars_of(s: &str) -> (v: Vec<char>)
    ensures
        v@ == s@,
{
    let n = s.unicode_len();
    let mut v: Vec<char> = Vec::new();
    let mut i: usize = 0;
    while i < n
        invariant
            n == s@.len(),
            i <= n,
            v@ == s@.take(i as int),
        decreases n - i,
    {
        v.push(s.get_char(i));
        i = i + 1;
        proof {
            assert(v@ =~= s@.take(i as int));
        }
    }
    proof {
        assert(s@.take(n as int) =~= s@);
    }
    v
}

/// A string holding `chars[from..to]`.
pub fn string_from(chars: &Vec<char>, from: usize, to: usize) -> (s: String)
    requires
        from <= to <= chars@.len(),
    ensures
        s@ == chars@.subrange(from as int, to as int),
{
    let mut s = String::new();
    let mut i = from;
    while i < to
        invariant
            from <= i <= to,
            to <= chars@.len(),
            s@ == chars@.subrange(from as int, i as int),
        decreases to - i,
    {
        push_char(&mut s, chars[i]);
        i = i + 1;
        proof {
            assert(s@ =~= chars@.subrange(from as int, i as int));
        }
    }
    s
}

} // verus!
