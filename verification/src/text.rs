//! Text handling over sequences of characters.
use vstd::prelude::*;

verus! {

/// `String::push` appends one character at the end of the string.
pub assume_specification[ String::push ](s: &mut String, c: char)
    ensures
        final(s)@ == old(s)@.push(c),
;

/// An ASCII letter or digit.
pub open spec fn is_alphanumeric(c: char) -> bool {
    ('a' <= c && c <= 'z') || ('A' <= c && c <= 'Z') || ('0' <= c && c <= '9')
}

/// A character with Unicode's `White_Space` property.
pub open spec fn is_space(c: char) -> bool {
    let v = c as u32;
    (9 <= v && v <= 13) || v == 0x20 || v == 0x85 || v == 0xa0 || v == 0x1680 || (0x2000 <= v && v
        <= 0x200a) || v == 0x2028 || v == 0x2029 || v == 0x202f || v == 0x205f || v == 0x3000
}

/// The lower-case form of an ASCII capital; any other character as it is.
pub open spec fn lower(c: char) -> char {
    if 'A' <= c && c <= 'Z' {
        ((c as u8) + 32) as char
    } else {
        c
    }
}

/// A text with each ASCII capital in lower case.
pub open spec fn lowered(s: Seq<char>) -> Seq<char> {
    Seq::new(s.len(), |i: int| lower(s[i]))
}

/// A text without the white space at either end.
pub open spec fn trimmed(s: Seq<char>) -> Seq<char>
    decreases s.len(),
{
    if s.len() == 0 {
        s
    } else if is_space(s[0]) {
        trimmed(s.drop_first())
    } else if is_space(s.last()) {
        trimmed(s.drop_last())
    } else {
        s
    }
}

/// Where `c` stands for the last time in `s`; -1 where it does not occur.
pub open spec fn last_position(s: Seq<char>, c: char) -> int
    decreases s.len(),
{
    if s.len() == 0 {
        -1
    } else if s.last() == c {
        s.len() - 1
    } else {
        last_position(s.drop_last(), c)
    }
}

/// `needle` occurs in `s` as a contiguous run of characters.
pub open spec fn has_substring(s: Seq<char>, needle: Seq<char>) -> bool {
    exists|i: int| 0 <= i <= s.len() - needle.len() && #[trigger] s.subrange(i, i + needle.len()) == needle
}

/// A decimal digit.
pub open spec fn is_digit(c: char) -> bool {
    '0' <= c && c <= '9'
}

/// Every character is a decimal digit.
pub open spec fn all_digits(s: Seq<char>) -> bool {
    forall|i: int| 0 <= i < s.len() ==> is_digit(#[trigger] s[i])
}

/// The number that a run of decimal digits writes.
pub open spec fn digits_value(s: Seq<char>) -> nat
    decreases s.len(),
{
    if s.len() == 0 {
        0
    } else {
        (digits_value(s.drop_last()) * 10 + (s.last() as u32 - 48)) as nat
    }
}

/// A text without the plus sign that may stand in front.
pub open spec fn without_plus(s: Seq<char>) -> Seq<char> {
    if s.len() > 0 && s[0] == '+' {
        s.drop_first()
    } else {
        s
    }
}

/// The port number that a text writes: an optional plus sign, then decimal digits alone, with a
/// value that sixteen bits hold.
pub open spec fn port_value(s: Seq<char>) -> Option<u16> {
    let digits = without_plus(s);
    if digits.len() > 0 && all_digits(digits) && digits_value(digits) <= 0xffff {
        Some(digits_value(digits) as u16)
    } else {
        None
    }
}

/// The digit that writes a number below sixteen.
pub open spec fn hex_digit(n: nat) -> char {
    if n < 10 {
        (48 + n) as char
    } else {
        (87 + n) as char
    }
}

/// The decimal digits of a number.
pub open spec fn decimal(n: nat) -> Seq<char>
    decreases n,
{
    if n < 10 {
        seq![hex_digit(n)]
    } else {
        decimal(n / 10).push(hex_digit(n % 10))
    }
}

/// The lowest `width` hexadecimal digits of a number, most significant first.
pub open spec fn hexadecimal(n: nat, width: nat) -> Seq<char>
    decreases width,
{
    if width == 0 {
        Seq::empty()
    } else {
        hexadecimal(n / 16, (width - 1) as nat).push(hex_digit(n % 16))
    }
}

/// The characters of a text.
pub fn chars_of(s: &str) -> (r: Vec<char>)
    ensures
        r@ == s@,
{
    let mut r: Vec<char> = Vec::new();
    for c in it: s.chars()
        invariant
            it.seq() == s@,
            r@ == s@.take(it.index() as int),
    {
        r.push(c);
    }
    r
}

/// The text that characters `from` to `to` (not included) of `chars` make.
pub fn text_of(chars: &Vec<char>, from: usize, to: usize) -> (r: String)
    requires
        from <= to <= chars@.len(),
    ensures
        r@ == chars@.subrange(from as int, to as int),
{
    let mut r = String::new();
    let mut i: usize = from;
    while i < to
        invariant
            from <= i <= to <= chars@.len(),
            r@ == chars@.subrange(from as int, i as int),
        decreases to - i,
    {
        r.push(chars[i]);
        i = i + 1;
    }
    r
}

/// Whether two texts are the same.
pub fn same_text(a: &str, b: &str) -> (r: bool)
    ensures
        r == (a@ == b@),
{
    a.to_string() == b.to_string()
}

/// Whether a character is an ASCII letter or digit.
pub fn alphanumeric(c: char) -> (r: bool)
    ensures
        r == is_alphanumeric(c),
{
    ('a' <= c && c <= 'z') || ('A' <= c && c <= 'Z') || ('0' <= c && c <= '9')
}

/// Whether a character is white space.
pub fn space(c: char) -> (r: bool)
    ensures
        r == is_space(c),
{
    let v: u32 = c as u32;
    (9 <= v && v <= 13) || v == 0x20 || v == 0x85 || v == 0xa0 || v == 0x1680 || (0x2000 <= v && v
        <= 0x200a) || v == 0x2028 || v == 0x2029 || v == 0x202f || v == 0x205f || v == 0x3000
}

/// A text with each ASCII capital in lower case.
pub fn to_lowercase(s: &str) -> (r: String)
    ensures
        r@ == lowered(s@),
{
    let chars = chars_of(s);
    let mut r = String::new();
    let mut i: usize = 0;
    while i < chars.len()
        invariant
            chars@ == s@,
            i <= chars@.len(),
            r@ == lowered(s@).take(i as int),
        decreases chars@.len() - i,
    {
        let c: char = chars[i];
        if 'A' <= c && c <= 'Z' {
            let byte: u8 = c as u8;
            r.push((byte + 32) as char);
        } else {
            r.push(c);
        }
        i = i + 1;
    }
    assert(lowered(s@).take(s@.len() as int) == lowered(s@));
    r
}

/// A text without the white space at either end.
pub fn trim(s: &str) -> (r: String)
    ensures
        r@ == trimmed(s@),
{
    let chars = chars_of(s);
    let mut from: usize = 0;
    let mut to: usize = chars.len();
    assert(chars@.subrange(0, to as int) == s@);
    while from < to && space(chars[from])
        invariant
            chars@ == s@,
            from <= to == chars@.len(),
            trimmed(chars@.subrange(from as int, to as int)) == trimmed(s@),
        decreases to - from,
    {
        assert(chars@.subrange(from as int, to as int).drop_first() == chars@.subrange(
            from + 1,
            to as int,
        ));
        from = from + 1;
    }
    while from < to && space(chars[to - 1])
        invariant
            chars@ == s@,
            from <= to <= chars@.len(),
            from < to ==> !is_space(chars@[from as int]),
            trimmed(chars@.subrange(from as int, to as int)) == trimmed(s@),
        decreases to - from,
    {
        assert(chars@.subrange(from as int, to as int).drop_last() == chars@.subrange(
            from as int,
            to - 1,
        ));
        to = to - 1;
    }
    text_of(&chars, from, to)
}

/// The parts of a text before and after the last `c`; `None` where `c` does not occur.
pub fn split_at_last(s: &str, c: char) -> (r: Option<(String, String)>)
    ensures
        r is Some <==> last_position(s@, c) >= 0,
        r matches Some((before, after)) ==> {
            &&& before@ == s@.take(last_position(s@, c))
            &&& after@ == s@.skip(last_position(s@, c) + 1)
        },
{
    let chars = chars_of(s);
    let mut i: usize = chars.len();
    assert(s@.take(i as int) == s@);
    while i > 0
        invariant
            chars@ == s@,
            i <= chars@.len(),
            last_position(s@.take(i as int), c) == last_position(s@, c),
        decreases i,
    {
        assert(s@.take(i as int).drop_last() == s@.take(i - 1));
        if chars[i - 1] == c {
            assert(s@.take(i - 1) == chars@.subrange(0, i - 1));
            assert(s@.skip(i as int) == chars@.subrange(i as int, chars@.len() as int));
            return Some((text_of(&chars, 0, i - 1), text_of(&chars, i, chars.len())));
        }
        i = i - 1;
    }
    None
}

/// Whether `needle` occurs in a text.
pub fn contains(s: &str, needle: &str) -> (r: bool)
    ensures
        r == has_substring(s@, needle@),
{
    let chars = chars_of(s);
    let wanted = chars_of(needle);
    if wanted.len() > chars.len() {
        return false;
    }
    let last: usize = chars.len() - wanted.len();
    let mut i: usize = 0;
    while i <= last
        invariant
            chars@ == s@,
            wanted@ == needle@,
            last + wanted.len() == chars.len(),
            i <= last + 1,
            forall|k: int| 0 <= k < i ==> #[trigger] s@.subrange(k, k + needle@.len()) != needle@,
        decreases last + 1 - i,
    {
        let mut j: usize = 0;
        while j < wanted.len() && chars[i + j] == wanted[j]
            invariant
                chars@ == s@,
                wanted@ == needle@,
                last + wanted.len() == chars.len(),
                i <= last,
                j <= wanted@.len(),
                forall|k: int| 0 <= k < j ==> chars@[i + k] == wanted@[k],
            decreases wanted@.len() - j,
        {
            j = j + 1;
        }
        let ghost window = s@.subrange(i as int, i + needle@.len());
        if j == wanted.len() {
            assert(window == needle@);
            return true;
        }
        assert(window[j as int] != needle@[j as int]);
        if i == last {
            return false;
        }
        i = i + 1;
    }
    false
}

/// The port number that a text writes.
pub fn parse_port(s: &str) -> (r: Option<u16>)
    ensures
        r == port_value(s@),
{
    let chars = chars_of(s);
    let start: usize = if chars.len() > 0 && chars[0] == '+' {
        1
    } else {
        0
    };
    let ghost digits = without_plus(s@);
    assert(digits == chars@.skip(start as int));
    if start == chars.len() {
        return None;
    }
    let mut value: u32 = 0;
    let mut i: usize = start;
    while i < chars.len()
        invariant
            start <= i <= chars@.len(),
            digits == without_plus(s@),
            digits == chars@.skip(start as int),
            all_digits(digits.take(i - start)),
            value == digits_value(digits.take(i - start)),
            value <= 0xffff,
        decreases chars@.len() - i,
    {
        let c: char = chars[i];
        assert(digits.take(i + 1 - start).drop_last() == digits.take(i - start));
        assert(digits.take(i + 1 - start).last() == c);
        if !('0' <= c && c <= '9') {
            assert(!is_digit(digits[i - start]));
            return None;
        }
        value = value * 10 + (c as u32 - 48);
        if value > 0xffff {
            proof {
                lemma_digits_value_grows(digits, i + 1 - start);
            }
            return None;
        }
        i = i + 1;
    }
    assert(digits.take(digits.len() as int) == digits);
    Some(value as u16)
}

/// A run of digits writes at least what a shorter run of its leading digits writes.
proof fn lemma_digits_value_grows(s: Seq<char>, n: int)
    requires
        0 <= n <= s.len(),
    ensures
        all_digits(s) ==> digits_value(s.take(n)) <= digits_value(s),
    decreases s.len(),
{
    if n < s.len() {
        lemma_digits_value_grows(s.drop_last(), n);
        assert(s.drop_last().take(n) == s.take(n));
        assert(all_digits(s) ==> is_digit(s.last()));
        assert(all_digits(s) ==> all_digits(s.drop_last()));
    } else {
        assert(s.take(n) == s);
    }
}

/// The decimal digits of a number are digits, at least one, and write that number.
pub(crate) proof fn lemma_decimal(n: nat)
    ensures
        decimal(n).len() > 0,
        all_digits(decimal(n)),
        digits_value(decimal(n)) == n,
    decreases n,
{
    if n < 10 {
        reveal_with_fuel(digits_value, 2);
        assert(decimal(n).drop_last() == Seq::<char>::empty());
        assert(decimal(n).last() == hex_digit(n));
    } else {
        lemma_decimal(n / 10);
        assert(decimal(n).drop_last() == decimal(n / 10));
        assert(decimal(n).last() == hex_digit(n % 10));
        assert(is_digit(hex_digit(n % 10)));
    }
}

/// A last position lies within the text, or is -1.
pub proof fn lemma_last_position_in_range(s: Seq<char>, c: char)
    ensures
        -1 <= last_position(s, c) < s.len(),
    decreases s.len(),
{
    if s.len() > 0 {
        lemma_last_position_in_range(s.drop_last(), c);
    }
}

/// A character stands for the last time where what follows does not hold it.
pub(crate) proof fn lemma_last_position(before: Seq<char>, c: char, after: Seq<char>)
    requires
        !after.contains(c),
    ensures
        last_position(before.push(c) + after, c) == before.len(),
    decreases after.len(),
{
    let s = before.push(c) + after;
    if after.len() == 0 {
        assert(s == before.push(c));
    } else {
        assert(s.last() == after.last());
        assert(after.contains(after.last()));
        assert(s.drop_last() == before.push(c) + after.drop_last());
        assert forall|x: char| after.drop_last().contains(x) implies after.contains(x) by {
            let i = after.drop_last().index_of(x);
            assert(after[i] == x);
        }
        lemma_last_position(before, c, after.drop_last());
    }
}

/// The digit that writes a number below sixteen.
fn digit_char(n: u8) -> (r: char)
    requires
        n < 16,
    ensures
        r == hex_digit(n as nat),
{
    if n < 10 {
        (48 + n) as char
    } else {
        (87 + n) as char
    }
}

/// The decimal digits of a port number.
pub fn port_text(n: u16) -> (r: String)
    ensures
        r@ == decimal(n as nat),
    decreases n,
{
    if n < 10 {
        let mut r = String::new();
        r.push(digit_char(n as u8));
        r
    } else {
        let mut r = port_text(n / 10);
        r.push(digit_char((n % 10) as u8));
        r
    }
}

/// The lowest `width` hexadecimal digits of a number, most significant first.
pub fn hex_text(n: u64, width: usize) -> (r: String)
    ensures
        r@ == hexadecimal(n as nat, width as nat),
    decreases width,
{
    if width == 0 {
        String::new()
    } else {
        let mut r = hex_text(n / 16, width - 1);
        r.push(digit_char((n % 16) as u8));
        r
    }
}

/// The letters and digits are those of ASCII, by their code points.
pub proof fn law_letters_and_digits(c: char)
    ensures
        is_alphanumeric(c) <==> 48 <= c as u32 <= 57 || 65 <= c as u32 <= 90 || 97 <= c as u32
            <= 122,
{
}

/// White space is what Unicode lists as such, code point by code point.
pub proof fn law_white_space(c: char)
    ensures
        is_space(c) <==> {
            let v = c as u32;
            ||| v == 0x9 || v == 0xa || v == 0xb || v == 0xc || v == 0xd || v == 0x20
            ||| v == 0x85 || v == 0xa0 || v == 0x1680
            ||| v == 0x2000 || v == 0x2001 || v == 0x2002 || v == 0x2003 || v == 0x2004
            ||| v == 0x2005 || v == 0x2006 || v == 0x2007 || v == 0x2008 || v == 0x2009
            ||| v == 0x200a || v == 0x2028 || v == 0x2029 || v == 0x202f || v == 0x205f
            ||| v == 0x3000
        },
{
}

/// A text in lower case has the same length; for each capital, of a code point from 65 to 90, the
/// letter 32 code points on stands in it, and every other character stays.
pub proof fn law_lower_case(s: Seq<char>, i: int)
    requires
        0 <= i < s.len(),
    ensures
        lowered(s).len() == s.len(),
        65 <= s[i] as u32 <= 90 ==> lowered(s)[i] as u32 == s[i] as u32 + 32,
        !(65 <= s[i] as u32 <= 90) ==> lowered(s)[i] == s[i],
{
}

/// Trimming takes the white space off both ends of a text and nothing else: what stands between
/// them, which neither begins nor ends with white space, is left as it is.
pub proof fn law_trimming(before: Seq<char>, middle: Seq<char>, after: Seq<char>)
    requires
        forall|i: int| 0 <= i < before.len() ==> is_space(#[trigger] before[i]),
        forall|i: int| 0 <= i < after.len() ==> is_space(#[trigger] after[i]),
        middle.len() > 0 ==> !is_space(middle[0]) && !is_space(middle.last()),
    ensures
        trimmed(before + middle + after) == middle,
    decreases before.len() + after.len(),
{
    let s = before + middle + after;
    if before.len() > 0 {
        assert(s[0] == before[0]);
        assert(s.drop_first() == before.drop_first() + middle + after);
        law_trimming(before.drop_first(), middle, after);
    } else if after.len() > 0 {
        if middle.len() == 0 {
            assert(s[0] == after[0]);
            assert(s.drop_first() == before + middle + after.drop_first());
            law_trimming(before, middle, after.drop_first());
        } else {
            assert(s[0] == middle[0]);
            assert(s.last() == after.last());
            assert(s.drop_last() == before + middle + after.drop_last());
            law_trimming(before, middle, after.drop_last());
        }
    } else {
        assert(s == middle);
    }
}

/// A text is split where a character stands for the last time; there is no such place in a text
/// without it.
pub proof fn law_last_occurrence(before: Seq<char>, c: char, after: Seq<char>)
    requires
        !after.contains(c),
    ensures
        last_position(before.push(c) + after, c) == before.len(),
        last_position(after, c) == -1,
    decreases after.len(),
{
    lemma_last_position(before, c, after);
    if after.len() > 0 {
        assert(after.contains(after.last()));
        assert forall|x: char| after.drop_last().contains(x) implies after.contains(x) by {
            let i = after.drop_last().index_of(x);
            assert(after[i] == x);
        }
        law_last_occurrence(before, c, after.drop_last());
    }
}

/// A text occurs in every text that is put together from it and from anything before and after it,
/// and in no other.
pub proof fn law_occurrence(s: Seq<char>, before: Seq<char>, needle: Seq<char>, after: Seq<char>)
    ensures
        has_substring(before + needle + after, needle),
        has_substring(s, needle) ==> exists|a: Seq<char>, b: Seq<char>|
            s == #[trigger] (a + needle + b),
{
    let whole = before + needle + after;
    let at = before.len() as int;
    assert(whole.subrange(at, at + needle.len()) == needle);
    if has_substring(s, needle) {
        let i = choose|i: int|
            0 <= i <= s.len() - needle.len() && #[trigger] s.subrange(i, i + needle.len())
                == needle;
        let a = s.take(i);
        let b = s.skip(i + needle.len());
        assert(s == a + needle + b);
    }
}

/// A number is written in base ten: its last digit, by its code point, behind the digits of a tenth
/// of it.
pub proof fn law_decimal_digits(tens: nat, digit: nat)
    requires
        digit < 10,
    ensures
        decimal(digit) == seq![(48 + digit) as char],
        tens > 0 ==> decimal(10 * tens + digit) == decimal(tens).push((48 + digit) as char),
{
    assert((10 * tens + digit) / 10 == tens);
    assert((10 * tens + digit) % 10 == digit);
}

/// A number is written in base sixteen, with small letters, in as many digits as asked for.
pub proof fn law_hexadecimal_digits(high: nat, digit: nat, width: nat)
    requires
        digit < 16,
    ensures
        hexadecimal(high, 0).len() == 0,
        hexadecimal(16 * high + digit, width + 1) == hexadecimal(high, width).push(
            if digit < 10 {
                (48 + digit) as char
            } else {
                (97 + (digit - 10)) as char
            },
        ),
{
    assert((16 * high + digit) / 16 == high);
    assert((16 * high + digit) % 16 == digit);
}

/// The decimal digits of a number are read as that number where it is a port number, and as none
/// where it is too large.
pub proof fn law_port_number(n: nat)
    ensures
        n <= 65_535 ==> port_value(decimal(n)) == Some(n as u16),
        n > 65_535 ==> port_value(decimal(n)) is None,
{
    lemma_decimal(n);
    assert(is_digit(decimal(n)[0]));
    assert(without_plus(decimal(n)) == decimal(n));
}

/// A zero in front of digits does not change what they write.
proof fn lemma_leading_zero(digits: Seq<char>)
    ensures
        digits_value(seq!['0'] + digits) == digits_value(digits),
    decreases digits.len(),
{
    let s = seq!['0'] + digits;
    if digits.len() == 0 {
        reveal_with_fuel(digits_value, 2);
        assert(s.drop_last() == Seq::<char>::empty());
        assert(s.last() == '0');
    } else {
        assert(s.drop_last() == seq!['0'] + digits.drop_last());
        assert(s.last() == digits.last());
        lemma_leading_zero(digits.drop_last());
    }
}

/// Zeros in front of a port number do not change it, nor does one plus sign.
pub proof fn law_signs_and_zeros_of_a_port(digits: Seq<char>)
    requires
        digits.len() > 0,
        digits[0] != '+',
    ensures
        port_value(seq!['0'] + digits) == port_value(digits),
        port_value(seq!['+'] + digits) == port_value(digits),
{
    let zero = seq!['0'] + digits;
    let plus = seq!['+'] + digits;
    assert(without_plus(zero) == zero);
    assert(without_plus(plus) == digits);
    lemma_leading_zero(digits);
    assert(all_digits(zero) <==> all_digits(digits)) by {
        if all_digits(zero) {
            assert forall|i: int| 0 <= i < digits.len() implies is_digit(#[trigger] digits[i]) by {
                assert(zero[i + 1] == digits[i]);
            }
        }
        if all_digits(digits) {
            assert forall|i: int| 0 <= i < zero.len() implies is_digit(#[trigger] zero[i]) by {
                if i > 0 {
                    assert(zero[i] == digits[i - 1]);
                }
            }
        }
    }
}

/// A text with anything but digits behind its first character is no port number, nor is one whose
/// first character is neither a digit nor a plus sign, nor a text without a digit.
pub proof fn law_no_port_number(s: Seq<char>, i: int)
    ensures
        s.len() == 0 ==> port_value(s) is None,
        s == seq!['+'] ==> port_value(s) is None,
        0 < i < s.len() && !(48 <= s[i] as u32 <= 57) ==> port_value(s) is None,
        s.len() > 0 && !(48 <= s[0] as u32 <= 57) && s[0] != '+' ==> port_value(s) is None,
{
    let digits = without_plus(s);
    if 0 < i < s.len() && !(48 <= s[i] as u32 <= 57) {
        if s[0] == '+' {
            assert(digits[i - 1] == s[i]);
            assert(!is_digit(digits[i - 1]));
        } else {
            assert(!is_digit(digits[i]));
        }
    }
    if s.len() > 0 && !(48 <= s[0] as u32 <= 57) && s[0] != '+' {
        assert(!is_digit(digits[0]));
    }
}

} // verus!
