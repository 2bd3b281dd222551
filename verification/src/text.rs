//! Decimal text: the digits in file names, messages and configuration values.

use vstd::prelude::*;
use vstd::string::*;

verus! {

/// The character of the decimal digit `d`.
pub open spec fn digit_char(d: nat) -> char {
    ('0' as int + d) as char
}

/// The decimal digits of `n`, most significant first, without leading zeros.
pub open spec fn decimal(n: nat) -> Seq<char>
    decreases n,
{
    if n < 10 {
        seq![digit_char(n)]
    } else {
        decimal(n / 10).push(digit_char(n % 10))
    }
}

/// `decimal(n)` filled up on the left with zeros to at least `width` characters.
pub open spec fn zero_padded(n: nat, width: nat) -> Seq<char> {
    if decimal(n).len() >= width {
        decimal(n)
    } else {
        Seq::new((width - decimal(n).len()) as nat, |i: int| '0') + decimal(n)
    }
}

/// The text `tag(n)`, the way identifiers are shown.
pub open spec fn tagged(tag: Seq<char>, n: nat) -> Seq<char> {
    tag + seq!['('] + decimal(n) + seq![')']
}

/// The character of the lower-case hexadecimal digit `d`.
pub open spec fn hex_char(d: nat) -> char {
    if d < 10 {
        digit_char(d)
    } else {
        ('a' as int + (d - 10)) as char
    }
}

/// The lower-case hexadecimal digits of `n`, most significant first, without
/// leading zeros.
pub open spec fn hexadecimal(n: nat) -> Seq<char>
    decreases n,
{
    if n < 16 {
        seq![hex_char(n)]
    } else {
        hexadecimal(n / 16).push(hex_char(n % 16))
    }
}

/// The path of `name` in the directory `base`.
pub open spec fn joined_path(base: Seq<char>, name: Seq<char>) -> Seq<char> {
    if base.len() == 0 || base.last() == '/' {
        base + name
    } else {
        base + seq!['/'] + name
    }
}

/// Whether `c` is one of the ten ASCII digits.
pub open spec fn is_digit(c: char) -> bool {
    '0' <= c <= '9'
}

/// Whether every character of `s` is an ASCII digit.
pub open spec fn all_digits(s: Seq<char>) -> bool {
    forall|i: int| 0 <= i < s.len() ==> is_digit(#[trigger] s[i])
}

/// The number that the digits `s` denote.
pub open spec fn digits_value(s: Seq<char>) -> nat
    decreases s.len(),
{
    if s.len() == 0 {
        0
    } else {
        digits_value(s.drop_last()) * 10 + (s.last() as int - '0' as int) as nat
    }
}

/// An unsigned number without an optional leading plus sign.
pub open spec fn unsigned_digits(s: Seq<char>) -> Seq<char> {
    if s.len() > 1 && s[0] == '+' {
        s.skip(1)
    } else {
        s
    }
}

/// What `s` denotes as an unsigned decimal number of at most `max`: an optional
/// plus sign and at least one digit, nothing else.
pub open spec fn parsed_unsigned(s: Seq<char>, max: nat) -> Option<nat> {
    let digits = unsigned_digits(s);
    if digits.len() > 0 && all_digits(digits) && digits_value(digits) <= max {
        Some(digits_value(digits))
    } else {
        None
    }
}

fn digit_str(d: u64) -> (s: &'static str)
    requires
        d < 10,
    ensures
        s@ == seq![digit_char(d as nat)],
{
    proof {
        reveal_strlit("0");
        reveal_strlit("1");
        reveal_strlit("2");
        reveal_strlit("3");
        reveal_strlit("4");
        reveal_strlit("5");
        reveal_strlit("6");
        reveal_strlit("7");
        reveal_strlit("8");
        reveal_strlit("9");
    }
    if d == 0 {
        "0"
    } else if d == 1 {
        "1"
    } else if d == 2 {
        "2"
    } else if d == 3 {
        "3"
    } else if d == 4 {
        "4"
    } else if d == 5 {
        "5"
    } else if d == 6 {
        "6"
    } else if d == 7 {
        "7"
    } else if d == 8 {
        "8"
    } else {
        "9"
    }
}

/// Appends the decimal digits of `n` to `text`.
pub fn push_decimal(text: &mut String, n: u64)
    ensures
        final(text)@ == old(text)@ + decimal(n as nat),
    decreases n,
{
    if n >= 10 {
        push_decimal(text, n / 10);
    }
    text.append(digit_str(n % 10));
}

/// Appends the decimal digits of a number that may exceed 64 bits.
pub fn push_decimal_wide(text: &mut String, n: u128)
    ensures
        final(text)@ == old(text)@ + decimal(n as nat),
    decreases n,
{
    if n >= 10 {
        push_decimal_wide(text, n / 10);
    }
    text.append(digit_str((n % 10) as u64));
}

fn hex_str(d: u64) -> (s: &'static str)
    requires
        d < 16,
    ensures
        s@ == seq![hex_char(d as nat)],
{
    if d < 10 {
        return digit_str(d);
    }
    proof {
        reveal_strlit("a");
        reveal_strlit("b");
        reveal_strlit("c");
        reveal_strlit("d");
        reveal_strlit("e");
        reveal_strlit("f");
    }
    if d == 10 {
        "a"
    } else if d == 11 {
        "b"
    } else if d == 12 {
        "c"
    } else if d == 13 {
        "d"
    } else if d == 14 {
        "e"
    } else {
        "f"
    }
}

/// Appends the hexadecimal digits of `n` to `text`.
pub fn push_hexadecimal(text: &mut String, n: u64)
    ensures
        final(text)@ == old(text)@ + hexadecimal(n as nat),
    decreases n,
{
    if n >= 16 {
        push_hexadecimal(text, n / 16);
    }
    text.append(hex_str(n % 16));
}

/// The path of the file `name` in the directory `base`. `name` is relative.
pub fn join_path(base: &str, name: &str) -> (path: String)
    requires
        name@.len() > 0 ==> name@[0] != '/',
    ensures
        path@ == joined_path(base@, name@),
{
    proof {
        reveal_strlit("/");
    }
    let len: usize = base.unicode_len();
    let mut path = base.to_owned();
    if len > 0 {
        if base.get_char(len - 1) != '/' {
            path.append("/");
        }
    }
    path.append(name);
    assert(path@ =~= joined_path(base@, name@));
    path
}

/// Appends the decimal digits of `n`, zero-filled to `width` characters.
pub fn push_zero_padded(text: &mut String, n: u64, width: usize)
    ensures
        final(text)@ == old(text)@ + zero_padded(n as nat, width as nat),
{
    let mut digits = String::new();
    push_decimal(&mut digits, n);
    assert(digits@ =~= decimal(n as nat));
    let len: usize = digits.as_str().unicode_len();
    let mut filled: usize = len;
    let ghost start = text@;
    while filled < width
        invariant
            len <= filled,
            len < width ==> filled <= width,
            len >= width ==> filled == len,
            text@ == start + Seq::new((filled - len) as nat, |i: int| '0'),
        decreases width - filled,
    {
        proof {
            reveal_strlit("0");
        }
        text.append("0");
        filled += 1;
        assert(text@ =~= start + Seq::new((filled - len) as nat, |i: int| '0'));
    }
    text.append(digits.as_str());
    assert(text@ =~= start + zero_padded(n as nat, width as nat));
}

/// The text `tag(n)`.
pub fn tagged_text(tag: &str, n: u64) -> (text: String)
    ensures
        text@ == tagged(tag@, n as nat),
{
    proof {
        reveal_strlit("(");
        reveal_strlit(")");
    }
    let mut text = tag.to_owned();
    text.append("(");
    push_decimal(&mut text, n);
    text.append(")");
    assert(text@ =~= tagged(tag@, n as nat));
    text
}

/// Reads an unsigned decimal number of at most `max`.
pub fn parse_unsigned(text: &str, max: u64) -> (value: Option<u64>)
    ensures
        value matches Some(v) ==> parsed_unsigned(text@, max as nat) == Some(v as nat),
        value is None ==> parsed_unsigned(text@, max as nat) is None,
{
    let len: usize = text.unicode_len();
    let mut first: usize = 0;
    if len > 1 {
        if text.get_char(0) == '+' {
            first = 1;
        }
    }
    let ghost digits = unsigned_digits(text@);
    assert(digits =~= text@.skip(first as int));
    if first == len {
        return None;
    }
    let mut value: u64 = 0;
    let mut i: usize = first;
    while i < len
        invariant
            first <= i <= len,
            len == text@.len(),
            digits == text@.skip(first as int),
            all_digits(digits.take(i - first)),
            value == digits_value(digits.take(i - first)),
            value <= max,
            digits == unsigned_digits(text@),
            digits.len() == len - first,
        decreases len - i,
    {
        let c = text.get_char(i);
        let ghost k = i - first;
        assert(digits[k] == c);
        if c < '0' || c > '9' {
            assert(!is_digit(digits[k]));
            return None;
        }
        let d: u64 = (c as u32 - '0' as u32) as u64;
        proof {
            assert(digits.take(k + 1).drop_last() =~= digits.take(k));
            assert(digits.take(k + 1).last() == c);
            assert(digits_value(digits.take(k + 1)) == value * 10 + d);
            if value * 10 + d > max {
                digits_value_grows(digits, k + 1);
            }
        }
        if d > max || value > (max - d) / 10 {
            return None;
        }
        value = value * 10 + d;
        i += 1;
    }
    assert(digits.take(len - first) =~= digits);
    Some(value)
}

/// More digits never denote a smaller number.
pub proof fn digits_value_grows(s: Seq<char>, k: int)
    requires
        0 <= k <= s.len(),
    ensures
        digits_value(s.take(k)) <= digits_value(s),
    decreases s.len(),
{
    if k == s.len() {
        assert(s.take(k) =~= s);
    } else {
        digits_value_grows(s.drop_last(), k);
        assert(s.drop_last().take(k) =~= s.take(k));
    }
}

/// Ten to the power of `n`.
pub open spec fn power_of_ten(n: nat) -> nat
    decreases n,
{
    if n == 0 {
        1
    } else {
        10 * power_of_ten((n - 1) as nat)
    }
}

/// A number below ten to the power of `k` has at most `k` digits.
pub proof fn decimal_is_short(n: nat, k: nat)
    requires
        k > 0,
        n < power_of_ten(k),
    ensures
        decimal(n).len() <= k,
    decreases k,
{
    if n >= 10 {
        assert(power_of_ten(1) == 10) by {
            reveal_with_fuel(power_of_ten, 2);
        }
        decimal_is_short(n / 10, (k - 1) as nat);
    }
}

/// Decimal text grows by its last digit, and has no leading zeros.
pub proof fn decimal_grows_by_a_digit(n: nat, d: nat)
    requires
        d < 10,
    ensures
        decimal(d) == seq!["0123456789"@[d as int]],
        n > 0 ==> decimal(10 * n + d) == decimal(n) + decimal(d),
        n > 0 ==> decimal(n)[0] != '0',
    decreases n,
{
    reveal_strlit("0123456789");
    assert((10 * n + d) / 10 == n && (10 * n + d) % 10 == d);
    if n > 0 {
        assert(decimal(10 * n + d) =~= decimal(n) + decimal(d));
        if n >= 10 {
            decimal_grows_by_a_digit(n / 10, n % 10);
            assert(decimal(n / 10).len() > 0);
        }
    }
}

/// Text that is filled up with zeros has at least the width, and as many zeros as it takes for
/// that in front of the number; a number that is wide enough stays as it is.
pub proof fn padding_fills_the_width(n: nat, width: nat, i: int)
    ensures
        zero_padded(n, width).len() >= width,
        zero_padded(n, width).len() >= decimal(n).len(),
        zero_padded(n, width).len() == width || zero_padded(n, width).len() == decimal(n).len(),
        zero_padded(n, width).skip(zero_padded(n, width).len() - decimal(n).len()) == decimal(n),
        0 <= i < zero_padded(n, width).len() - decimal(n).len() ==> zero_padded(n, width)[i]
            == '0',
{
    assert(zero_padded(n, width).skip(zero_padded(n, width).len() - decimal(n).len())
        =~= decimal(n));
}

/// Hexadecimal text grows by its last digit.
pub proof fn hexadecimal_grows_by_a_digit(n: nat, d: nat)
    requires
        d < 16,
    ensures
        hexadecimal(d) == seq!["0123456789abcdef"@[d as int]],
        n > 0 ==> hexadecimal(16 * n + d) == hexadecimal(n) + hexadecimal(d),
{
    reveal_strlit("0123456789abcdef");
    assert((16 * n + d) / 16 == n && (16 * n + d) % 16 == d);
    if n > 0 {
        assert(hexadecimal(16 * n + d) =~= hexadecimal(n) + hexadecimal(d));
    }
}

/// A path is the directory, the name, and one slash between them, which may be the one that
/// the directory ends in.
pub proof fn paths_have_one_slash_between(base: Seq<char>, name: Seq<char>)
    ensures
        joined_path(base, name).take(base.len() as int) == base,
        joined_path(base, name).skip(joined_path(base, name).len() - name.len()) == name,
        base.len() > 0 && base.last() != '/' ==> joined_path(base, name) == base + "/"@ + name,
        base.len() > 0 ==> joined_path(base + "/"@, name) == base + "/"@ + name,
        joined_path(Seq::empty(), name) == name,
{
    reveal_strlit("/");
    assert(joined_path(base, name).take(base.len() as int) =~= base);
    assert(joined_path(base, name).skip(joined_path(base, name).len() - name.len()) =~= name);
    assert(Seq::<char>::empty() + name =~= name);
    assert((base + "/"@).last() == '/');
}

} // verus!
