//! Text as sequences of characters: digits, numbers, trimming and searching.
use vstd::prelude::*;
use vstd::slice::slice_subrange;

verus! {

/// `String::push` appends one character to the end of the string.
pub assume_specification[ String::push ](s: &mut String, c: char)
    ensures
        final(s)@ == old(s)@.push(c),
;

/// The characters of a string, in order.
pub fn chars_of(s: &str) -> (r: Vec<char>)
    ensures
        r@ == s@,
{
    let mut out: Vec<char> = Vec::new();
    for c in it: s.chars()
        invariant
            it.seq() == s@,
            out@ == s@.take(it.index()),
    {
        out.push(c);
    }
    out
}

/// The string made of the given characters.
pub fn string_of(cs: &[char]) -> (r: String)
    ensures
        r@ == cs@,
{
    let mut out: String = String::new();
    let mut i: usize = 0;
    while i < cs.len()
        invariant
            i <= cs@.len(),
            out@ == cs@.take(i as int),
        decreases cs@.len() - i,
    {
        out.push(cs[i]);
        i = i + 1;
        assert(out@ =~= cs@.take(i as int));
    }
    assert(cs@.take(i as int) =~= cs@);
    out
}

/// The decimal digit of value `d`.
pub open spec fn digit(d: int) -> char {
    ('0' as int + d) as char
}

/// The decimal digits of `n`, most significant first, without leading zeros.
pub open spec fn decimal(n: nat) -> Seq<char>
    decreases n,
{
    if n < 10 {
        seq![digit(n as int)]
    } else {
        decimal(n / 10).push(digit((n % 10) as int))
    }
}

/// The decimal form of a signed number: a minus sign before a negative one.
pub open spec fn signed_decimal(i: int) -> Seq<char> {
    if i < 0 {
        seq!['-'] + decimal((-i) as nat)
    } else {
        decimal(i as nat)
    }
}

/// The upper-case hexadecimal digit of value `d`.
pub open spec fn hex_digit(d: int) -> char {
    if d < 10 {
        digit(d)
    } else {
        ('A' as int + (d - 10)) as char
    }
}

/// Four upper-case hexadecimal digits.
pub open spec fn hex4(x: u16) -> Seq<char> {
    seq![
        hex_digit(x as int / 4096),
        hex_digit(x as int / 256 % 16),
        hex_digit(x as int / 16 % 16),
        hex_digit(x as int % 16),
    ]
}

/// Appends the decimal digits of `n`.
pub fn push_decimal(out: &mut String, n: u64)
    ensures
        final(out)@ == old(out)@ + decimal(n as nat),
    decreases n,
{
    if n >= 10 {
        push_decimal(out, n / 10);
    }
    let d: u8 = (n % 10) as u8;
    out.push((48u8 + d) as char);
    assert(out@ =~= old(out)@ + decimal(n as nat));
}

/// Appends the decimal form of a signed number.
pub fn push_signed_decimal(out: &mut String, i: i64)
    ensures
        final(out)@ == old(out)@ + signed_decimal(i as int),
{
    if i < 0 {
        out.push('-');
        let m: u64 = (-(i as i128)) as u64;
        push_decimal(out, m);
    } else {
        push_decimal(out, i as u64);
    }
    assert(out@ =~= old(out)@ + signed_decimal(i as int));
}

fn hex_char(d: u8) -> (c: char)
    requires
        d < 16,
    ensures
        c == hex_digit(d as int),
{
    if d < 10 {
        (48u8 + d) as char
    } else {
        (65u8 + (d - 10)) as char
    }
}

/// Appends four upper-case hexadecimal digits.
pub fn push_hex4(out: &mut String, x: u16)
    ensures
        final(out)@ == old(out)@ + hex4(x),
{
    out.push(hex_char((x / 4096) as u8));
    out.push(hex_char((x / 256 % 16) as u8));
    out.push(hex_char((x / 16 % 16) as u8));
    out.push(hex_char((x % 16) as u8));
    assert(out@ =~= old(out)@ + hex4(x));
}

/// Whether `c` is an ASCII decimal digit.
pub open spec fn is_digit(c: char) -> bool {
    '0' as int <= c as int <= '9' as int
}

/// The number that a row of decimal digits stands for.
pub open spec fn digits_value(s: Seq<char>) -> nat
    decreases s.len(),
{
    if s.len() == 0 {
        0
    } else {
        (10 * digits_value(s.drop_last()) + (s.last() as int - '0' as int)) as nat
    }
}

/// Whether `s` is one or more decimal digits and nothing else.
pub open spec fn all_digits(s: Seq<char>) -> bool {
    s.len() > 0 && forall|i: int| 0 <= i < s.len() ==> is_digit(#[trigger] s[i])
}

/// The number that `s` writes in decimal, with an optional plus sign.
pub open spec fn parsed_unsigned(s: Seq<char>) -> Option<nat> {
    let body = if s.len() > 0 && s[0] == '+' {
        s.skip(1)
    } else {
        s
    };
    if all_digits(body) {
        Some(digits_value(body))
    } else {
        None
    }
}

/// The number that `s` writes in decimal, with an optional plus or minus sign.
pub open spec fn parsed_signed(s: Seq<char>) -> Option<int> {
    if s.len() > 0 && s[0] == '-' {
        if all_digits(s.skip(1)) {
            Some(-digits_value(s.skip(1)))
        } else {
            None
        }
    } else {
        match parsed_unsigned(s) {
            Some(n) => Some(n as int),
            None => None,
        }
    }
}

/// The number that `s` writes in decimal, when it is at most `max`.
pub open spec fn parsed_up_to(s: Seq<char>, max: nat) -> Option<nat> {
    match parsed_unsigned(s) {
        Some(n) => if n <= max {
            Some(n)
        } else {
            None
        },
        None => None,
    }
}

/// The signed number that `s` writes in decimal, when it lies within the bounds.
pub open spec fn parsed_between(s: Seq<char>, min: int, max: int) -> Option<int> {
    match parsed_signed(s) {
        Some(n) => if min <= n <= max {
            Some(n)
        } else {
            None
        },
        None => None,
    }
}

/// The value of a row of digits, when it is one and its value is at most `max`.
fn digits_up_to(cs: &[char], max: u64) -> (r: Option<u64>)
    ensures
        match r {
            Some(n) => all_digits(cs@) && digits_value(cs@) == n && n <= max,
            None => !(all_digits(cs@) && digits_value(cs@) <= max),
        },
{
    if cs.len() == 0 {
        return None;
    }
    let mut acc: u128 = 0;
    let mut over: bool = false;
    let mut i: usize = 0;
    while i < cs.len()
        invariant
            i <= cs@.len(),
            forall|j: int| 0 <= j < i ==> is_digit(#[trigger] cs@[j]),
            over ==> digits_value(cs@.take(i as int)) > max,
            !over ==> acc == digits_value(cs@.take(i as int)) && acc <= max,
        decreases cs@.len() - i,
    {
        let c = cs[i];
        if !('0' <= c && c <= '9') {
            return None;
        }
        assert(cs@.take(i + 1).drop_last() =~= cs@.take(i as int));
        if !over {
            acc = 10 * acc + (c as u32 - '0' as u32) as u128;
            if acc > max as u128 {
                over = true;
            }
        }
        i = i + 1;
    }
    assert(cs@.take(i as int) =~= cs@);
    if over {
        None
    } else {
        Some(acc as u64)
    }
}

/// Reads a decimal number of at most `max`.
pub fn parse_up_to(cs: &[char], max: u64) -> (r: Option<u64>)
    ensures
        match r {
            Some(n) => parsed_up_to(cs@, max as nat) == Some(n as nat),
            None => parsed_up_to(cs@, max as nat) is None,
        },
{
    if cs.len() > 0 && cs[0] == '+' {
        let rest = slice_subrange(cs, 1, cs.len());
        assert(rest@ =~= cs@.skip(1));
        digits_up_to(rest, max)
    } else {
        digits_up_to(cs, max)
    }
}

/// Reads a signed decimal number between `min` and `max`.
pub fn parse_between(cs: &[char], min: i64, max: i64) -> (r: Option<i64>)
    requires
        i64::MIN < min <= 0 <= max,
    ensures
        match r {
            Some(n) => parsed_between(cs@, min as int, max as int) == Some(n as int),
            None => parsed_between(cs@, min as int, max as int) is None,
        },
{
    if cs.len() > 0 && cs[0] == '-' {
        let rest = slice_subrange(cs, 1, cs.len());
        assert(rest@ =~= cs@.skip(1));
        match digits_up_to(rest, (-min) as u64) {
            Some(n) => Some(-(n as i64)),
            None => None,
        }
    } else {
        match parse_up_to(cs, max as u64) {
            Some(n) => Some(n as i64),
            None => None,
        }
    }
}

/// Reads a `u64` in decimal.
pub fn parse_u64(s: &str) -> (r: Option<u64>)
    ensures
        match r {
            Some(n) => parsed_up_to(s@, u64::MAX as nat) == Some(n as nat),
            None => parsed_up_to(s@, u64::MAX as nat) is None,
        },
{
    parse_up_to(chars_of(s).as_slice(), u64::MAX)
}

/// Reads a `u32` in decimal.
pub fn parse_u32(s: &str) -> (r: Option<u32>)
    ensures
        match r {
            Some(n) => parsed_up_to(s@, u32::MAX as nat) == Some(n as nat),
            None => parsed_up_to(s@, u32::MAX as nat) is None,
        },
{
    match parse_up_to(chars_of(s).as_slice(), u32::MAX as u64) {
        Some(n) => Some(n as u32),
        None => None,
    }
}

/// Writing a number in decimal and reading it gives the number back.
pub proof fn law_parse_of_decimal(n: nat)
    ensures
        all_digits(decimal(n)),
        digits_value(decimal(n)) == n,
        parsed_unsigned(decimal(n)) == Some(n),
    decreases n,
{
    if n >= 10 {
        law_parse_of_decimal(n / 10);
        let d = digit((n % 10) as int);
        assert(decimal(n).drop_last() =~= decimal(n / 10));
        assert(is_digit(d));
        assert(all_digits(decimal(n))) by {
            assert forall|i: int| 0 <= i < decimal(n).len() implies is_digit(
                #[trigger] decimal(n)[i],
            ) by {
                if i < decimal(n / 10).len() {
                    assert(decimal(n)[i] == decimal(n / 10)[i]);
                }
            }
        }
    } else {
        assert(decimal(n).drop_last() =~= seq![]);
        assert(digits_value(seq![]) == 0);
    }
    assert(is_digit(decimal(n)[0]));
    assert(decimal(n)[0] != '+');
}

/// Writing a signed number in decimal and reading it gives the number back.
pub proof fn law_parse_of_signed_decimal(i: int)
    ensures
        parsed_signed(signed_decimal(i)) == Some(i),
{
    if i < 0 {
        law_parse_of_decimal((-i) as nat);
        assert(signed_decimal(i).skip(1) =~= decimal((-i) as nat));
    } else {
        law_parse_of_decimal(i as nat);
        assert(is_digit(decimal(i as nat)[0]));
    }
}

/// A number is written without leading zeros, in digits alone.
pub proof fn law_decimal_has_no_leading_zero(n: nat)
    ensures
        decimal(n).len() > 0,
        all_digits(decimal(n)),
        n > 0 ==> decimal(n)[0] != '0',
        n < 10 ==> decimal(n).len() == 1,
        n >= 10 ==> decimal(n).len() == decimal(n / 10).len() + 1,
    decreases n,
{
    law_parse_of_decimal(n);
    if n >= 10 {
        law_decimal_has_no_leading_zero(n / 10);
        assert(decimal(n)[0] == decimal(n / 10)[0]);
    } else if n > 0 {
        assert(decimal(n)[0] as int == '0' as int + n);
    }
}

/// A number is read up to the limit and refused beyond it; a plus sign may stand
/// before it.
pub proof fn law_numbers_are_read_up_to_the_limit(n: nat, max: nat)
    ensures
        parsed_up_to(decimal(n), max) == (if n <= max {
            Some(n)
        } else {
            None
        }),
        parsed_up_to(seq!['+'] + decimal(n), max) == (if n <= max {
            Some(n)
        } else {
            None
        }),
{
    law_parse_of_decimal(n);
    assert((seq!['+'] + decimal(n)).skip(1) =~= decimal(n));
}

/// A signed number is read within its limits and refused outside them.
pub proof fn law_signed_numbers_are_read_within_the_limits(i: int, min: int, max: int)
    ensures
        parsed_between(signed_decimal(i), min, max) == (if min <= i <= max {
            Some(i)
        } else {
            None
        }),
{
    law_parse_of_signed_decimal(i);
}

/// What is no number is refused: nothing at all, a sign alone, or anything but a
/// digit behind the first place.
pub proof fn law_what_is_no_number_is_refused(s: Seq<char>, i: int, max: nat)
    ensures
        s.len() == 0 ==> parsed_up_to(s, max) is None,
        s.len() > 0 && !is_digit(s[0]) && s[0] != '+' ==> parsed_up_to(s, max) is None,
        s.len() == 1 && !is_digit(s[0]) ==> parsed_up_to(s, max) is None && parsed_signed(
            s,
        ) is None,
        0 < i < s.len() && !is_digit(s[i]) ==> parsed_up_to(s, max) is None && parsed_signed(
            s,
        ) is None,
{
    if 0 < i < s.len() && !is_digit(s[i]) {
        assert(s.skip(1)[i - 1] == s[i]);
        assert(!all_digits(s.skip(1)));
        assert(!all_digits(s));
    }
}

/// A digit run is read as the number it writes: each further digit counts ten times
/// what stands before it, plus itself.
pub proof fn law_digits_count_in_tens(s: Seq<char>, d: int)
    requires
        0 <= d <= 9,
    ensures
        digits_value(s.push(digit(d))) == 10 * digits_value(s) + d,
        digits_value(seq![]) == 0,
{
    assert(s.push(digit(d)).drop_last() =~= s);
}

/// The value of an upper-case hexadecimal digit.
pub open spec fn hex_value(c: char) -> int {
    if '0' as int <= c as int <= '9' as int {
        c as int - '0' as int
    } else {
        c as int - 'A' as int + 10
    }
}

/// A number is written in four hexadecimal digits, the highest first, in upper case.
pub proof fn law_hex_reads_back(x: u16)
    ensures
        hex4(x).len() == 4,
        4096 * hex_value(hex4(x)[0]) + 256 * hex_value(hex4(x)[1]) + 16 * hex_value(hex4(x)[2])
            + hex_value(hex4(x)[3]) == x,
        forall|i: int|
            0 <= i < 4 ==> is_digit(#[trigger] hex4(x)[i]) || ('A' as int <= hex4(x)[i] as int
                <= 'F' as int),
{
    let v = x as int;
    let a = v / 4096;
    let b = v / 256 % 16;
    let c = v / 16 % 16;
    let d = v % 16;
    lemma_hex_digit(a);
    lemma_hex_digit(b);
    lemma_hex_digit(c);
    lemma_hex_digit(d);
    assert(v == 16 * (v / 16) + d);
    assert(v / 16 == 16 * (v / 256) + c);
    assert(v / 256 == 16 * a + b);
    let h = hex4(x);
    assert(h[0] == hex_digit(a) && h[1] == hex_digit(b) && h[2] == hex_digit(c) && h[3]
        == hex_digit(d));
}

proof fn lemma_hex_digit(d: int)
    requires
        0 <= d < 16,
    ensures
        hex_value(hex_digit(d)) == d,
        is_digit(hex_digit(d)) || ('A' as int <= hex_digit(d) as int <= 'F' as int),
{
}

} // verus!
