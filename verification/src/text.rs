//! Decimal numbers and other small pieces of text.

use vstd::prelude::*;

verus! {

/// The digit for a value below ten.
pub open spec fn digit_char(d: nat) -> char {
    (48 + d) as char
}

/// A character is a decimal digit.
pub open spec fn is_digit(c: char) -> bool {
    '0' <= c && c <= '9'
}

/// Decimal notation without leading zeros.
pub open spec fn decimal(n: nat) -> Seq<char>
    decreases n,
{
    if n < 10 {
        seq![digit_char(n)]
    } else {
        decimal(n / 10).push(digit_char(n % 10))
    }
}

/// Decimal notation with leading zeros up to `width` digits.
pub open spec fn decimal_padded(n: nat, width: nat) -> Seq<char>
    decreases width,
{
    if width == 0 {
        Seq::empty()
    } else {
        decimal_padded(n / 10, (width - 1) as nat).push(digit_char(n % 10))
    }
}

/// Every character is a digit.
pub open spec fn all_digits(s: Seq<char>) -> bool {
    forall|i: int| 0 <= i < s.len() ==> is_digit(#[trigger] s[i])
}

/// The value of a run of digits.
pub open spec fn digits_value(s: Seq<char>) -> nat
    decreases s.len(),
{
    if s.len() == 0 {
        0
    } else {
        10 * digits_value(s.drop_last()) + (s.last() as nat - 48) as nat
    }
}

/// The number that a text stands for: digits, with or without a plus sign in
/// front, up to `max`.
pub open spec fn number_in(s: Seq<char>, max: nat) -> Option<nat> {
    let body = if s.len() > 0 && s[0] == '+' {
        s.skip(1)
    } else {
        s
    };
    if body.len() > 0 && all_digits(body) && digits_value(body) <= max {
        Some(digits_value(body))
    } else {
        None
    }
}

proof fn lemma_decimal(n: nat)
    ensures
        decimal(n).len() > 0,
        all_digits(decimal(n)),
        digits_value(decimal(n)) == n,
    decreases n,
{
    if n < 10 {
        assert(decimal(n).drop_last() =~= Seq::empty());
        assert(digits_value(decimal(n).drop_last()) == 0);
    } else {
        lemma_decimal(n / 10);
        assert(decimal(n).drop_last() =~= decimal(n / 10));
    }
}

/// Reading back what was written in decimal gives the number.
pub proof fn law_decimal_reads_back(n: nat, max: nat)
    requires
        n <= max,
    ensures
        number_in(decimal(n), max) == Some(n),
{
    lemma_decimal(n);
    assert(is_digit(decimal(n)[0]));
}

/// Two numbers with the same decimal notation are the same.
pub proof fn law_decimal_is_injective(a: nat, b: nat)
    requires
        decimal(a) == decimal(b),
    ensures
        a == b,
{
    lemma_decimal(a);
    lemma_decimal(b);
}

/// One digit as text.
fn digit_text(d: u64) -> (s: &'static str)
    requires
        d < 10,
    ensures
        s@ == seq![digit_char(d as nat)],
{
    proof {
        reveal_strlit("0");
        reveal_strlit("1");
        reveal_strlit("2");
        reveal_strlit("3");
        reveal_strlit("4");
        reveal_strlit("5");
        reveal_strlit("6");
        reveal_strlit("7");
        reveal_strlit("8");
        reveal_strlit("9");
    }
    match d {
        0 => "0",
        1 => "1",
        2 => "2",
        3 => "3",
        4 => "4",
        5 => "5",
        6 => "6",
        7 => "7",
        8 => "8",
        _ => "9",
    }
}

/// Appends a number in decimal.
pub fn push_decimal(out: &mut String, n: u64)
    ensures
        final(out)@ == old(out)@ + decimal(n as nat),
    decreases n,
{
    if n >= 10 {
        push_decimal(out, n / 10);
    }
    out.append(digit_text(n % 10));
    assert(out@ =~= old(out)@ + decimal(n as nat));
}

/// Appends the last `width` digits of a number.
pub fn push_padded(out: &mut String, n: u64, width: u32)
    ensures
        final(out)@ == old(out)@ + decimal_padded(n as nat, width as nat),
    decreases width,
{
    if width > 0 {
        push_padded(out, n / 10, width - 1);
        out.append(digit_text(n % 10));
    }
    assert(out@ =~= old(out)@ + decimal_padded(n as nat, width as nat));
}

/// A number in decimal.
pub fn decimal_text(n: u64) -> (s: String)
    ensures
        s@ == decimal(n as nat),
{
    let mut s = String::new();
    push_decimal(&mut s, n);
    assert(s@ =~= decimal(n as nat));
    s
}

proof fn lemma_digits_value_take(s: Seq<char>, i: int)
    requires
        0 <= i < s.len(),
    ensures
        digits_value(s.take(i + 1)) == 10 * digits_value(s.take(i)) + (s[i] as nat - 48) as nat,
{
    assert(s.take(i + 1).drop_last() =~= s.take(i));
}

proof fn lemma_digits_value_grows(s: Seq<char>, i: int)
    requires
        0 <= i <= s.len(),
    ensures
        digits_value(s.take(i)) <= digits_value(s),
    decreases s.len() - i,
{
    if i < s.len() {
        lemma_digits_value_grows(s, i + 1);
        lemma_digits_value_take(s, i);
    } else {
        assert(s.take(i) =~= s);
    }
}

/// Reads a decimal number of at most `max`.
pub fn parse_number(s: &str, max: u64) -> (n: Option<u64>)
    ensures
        n matches Some(v) ==> number_in(s@, max as nat) == Some(v as nat),
        n is None ==> number_in(s@, max as nat) is None,
{
    let chars = chars_of(s);
    let len: usize = chars.len();
    let start: usize = if len > 0 && chars[0] == '+' {
        1
    } else {
        0
    };
    let ghost body = s@.skip(start as int);
    if start == len {
        return None;
    }
    let mut value: u64 = 0;
    let mut i: usize = start;
    assert(start == 0 ==> body =~= s@);
    while i < len
        invariant
            start <= i <= len,
            start <= 1,
            chars@ == s@,
            len == s@.len(),
            body == s@.skip(start as int),
            body.len() > 0,
            start == (if len > 0 && s@[0] == '+' {
                1int
            } else {
                0
            }),
            start == 0 ==> body == s@,
            value == digits_value(body.take(i - start)),
            value <= max,
            all_digits(body.take(i - start)),
        decreases len - i,
    {
        let c = chars[i];
        assert(c == body[i - start]);
        if c < '0' || c > '9' {
            assert(!is_digit(body[i - start]));
            return None;
        }
        let digit: u64 = (c as u32 - 48) as u64;
        proof {
            lemma_digits_value_take(body, i - start);
            lemma_digits_value_grows(body, i + 1 - start);
            assert(all_digits(body.take(i + 1 - start)));
        }
        match value.checked_mul(10) {
            Some(tens) => match tens.checked_add(digit) {
                Some(next) => {
                    if next > max {
                        return None;
                    }
                    value = next;
                },
                None => {
                    return None;
                },
            },
            None => {
                return None;
            },
        }
        i = i + 1;
    }
    assert(body.take(i - start) =~= body);
    Some(value)
}

/// The characters of a text.
pub fn chars_of(s: &str) -> (chars: Vec<char>)
    ensures
        chars@ == s@,
{
    let mut chars: Vec<char> = Vec::new();
    for c in it: s.chars()
        invariant
            chars@ == s@.take(it.index()),
            it.seq() == s@,
    {
        chars.push(c);
    }
    assert(chars@ =~= s@);
    chars
}

/// The characters from `at` on are those of the needle.
fn matches_at(chars: &Vec<char>, needle: &Vec<char>, at: usize) -> (b: bool)
    requires
        at + needle@.len() <= chars@.len(),
    ensures
        b == stands_at(chars@, needle@, at as int),
{
    let len: usize = chars.len();
    let mut i: usize = 0;
    while i < needle.len()
        invariant
            i <= needle@.len(),
            len == chars@.len(),
            at + needle@.len() <= len,
            forall|j: int| 0 <= j < i ==> chars@[at + j] == needle@[j],
        decreases needle@.len() - i,
    {
        if chars[at + i] != needle[i] {
            assert(chars@.subrange(at as int, at + needle@.len())[i as int] != needle@[i as int]);
            return false;
        }
        i = i + 1;
    }
    assert(chars@.subrange(at as int, at + needle@.len()) =~= needle@);
    true
}

/// Two texts are the same.
pub fn same_text(a: &str, b: &str) -> (same: bool)
    ensures
        same == (a@ == b@),
{
    let x = chars_of(a);
    let y = chars_of(b);
    if x.len() != y.len() {
        return false;
    }
    assert(x@.subrange(0, x@.len() as int) =~= x@);
    matches_at(&x, &y, 0)
}

/// `needle` stands in `s` from place `at` on.
pub open spec fn stands_at(s: Seq<char>, needle: Seq<char>, at: int) -> bool {
    &&& 0 <= at
    &&& at + needle.len() <= s.len()
    &&& s.subrange(at, at + needle.len()) == needle
}

/// `needle` stands somewhere in `s`.
pub open spec fn contains_text(s: Seq<char>, needle: Seq<char>) -> bool {
    exists|at: int| #[trigger] stands_at(s, needle, at)
}

/// `needle` stands somewhere in `s`.
pub fn has_text(s: &str, needle: &str) -> (b: bool)
    ensures
        b == contains_text(s@, needle@),
{
    let chars = chars_of(s);
    let wanted = chars_of(needle);
    if wanted.len() > chars.len() {
        return false;
    }
    let last: usize = chars.len() - wanted.len();
    let mut at: usize = 0;
    while at < last
        invariant
            chars@ == s@,
            wanted@ == needle@,
            last == chars@.len() - wanted@.len(),
            at <= last,
            forall|k: int| 0 <= k < at ==> !#[trigger] stands_at(s@, needle@, k),
        decreases last - at,
    {
        if matches_at(&chars, &wanted, at) {
            return true;
        }
        at = at + 1;
    }
    matches_at(&chars, &wanted, last)
}

/// `s` ends in `suffix`.
pub open spec fn ends_in(s: Seq<char>, suffix: Seq<char>) -> bool {
    stands_at(s, suffix, s.len() - suffix.len())
}

/// What is before `suffix`, where `s` ends in it.
pub fn strip_suffix<'a>(s: &'a str, suffix: &str) -> (stem: Option<&'a str>)
    ensures
        stem is Some <==> ends_in(s@, suffix@),
        stem matches Some(t) ==> t@ + suffix@ == s@,
{
    let chars = chars_of(s);
    let wanted = chars_of(suffix);
    if wanted.len() > chars.len() {
        return None;
    }
    if matches_at(&chars, &wanted, chars.len() - wanted.len()) {
        let stem = s.substring_char(0, chars.len() - wanted.len());
        assert(stem@ + suffix@ =~= s@);
        Some(stem)
    } else {
        None
    }
}

/// A number that is too great is not read, and neither is a text with anything but digits
/// in it.
pub proof fn law_only_numbers_in_range_are_read(n: nat, s: Seq<char>, i: int, max: nat)
    ensures
        n > max ==> number_in(decimal(n), max) is None,
        0 < i < s.len() && !is_digit(s[i]) ==> number_in(s, max) is None,
        s.len() == 0 ==> number_in(s, max) is None,
        number_in(s, max) matches Some(v) ==> v <= max,
{
    lemma_decimal(n);
    assert(is_digit(decimal(n)[0]));
    if 0 < i < s.len() && !is_digit(s[i]) {
        assert(s.skip(1)[i - 1] == s[i]);
    }
}

/// A number with something behind it that is stripped is read back.
pub proof fn lemma_stem_reads_back(n: nat, suffix: Seq<char>, max: nat)
    requires
        n <= max,
    ensures
        ends_in(decimal(n) + suffix, suffix),
        (decimal(n) + suffix).take((decimal(n) + suffix).len() - suffix.len()) == decimal(n),
        number_in(decimal(n), max) == Some(n),
        decimal(n).len() > 0,
        is_digit((decimal(n) + suffix)[0]),
{
    let s = decimal(n) + suffix;
    lemma_decimal(n);
    law_decimal_reads_back(n, max);
    assert(s.subrange(s.len() - suffix.len(), s.len() as int) =~= suffix);
    assert(s.take(s.len() - suffix.len()) =~= decimal(n));
    assert(is_digit(decimal(n)[0]));
}

} // verus!
