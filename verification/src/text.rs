//! Text: decimal numbers, fields, white space, and strings built from characters.
use vstd::arithmetic::div_mod::lemma_div_denominator;
use vstd::arithmetic::power::{lemma_pow0, lemma_pow1, lemma_pow_positive, pow};
use vstd::prelude::*;
use vstd::utf8::*;

verus! {

/// `String::push`: appends one character.
pub assume_specification[ String::push ](string: &mut String, c: char)
    ensures
        final(string)@ == old(string)@.push(c),
;

/// The decimal digit that stands for `d`.
pub open spec fn digit_char(d: nat) -> char {
    (48 + d) as char
}

/// Whether a character is one of the ten decimal digits.
pub open spec fn is_digit(c: char) -> bool {
    '0' <= c <= '9'
}

/// The number that a decimal digit stands for.
pub open spec fn digit_value(c: char) -> nat {
    (c as nat - 48) as nat
}

/// A natural number in decimal, without leading zeros.
pub open spec fn decimal(n: nat) -> Seq<char>
    decreases n,
{
    if n < 10 {
        seq![digit_char(n)]
    } else {
        decimal(n / 10).push(digit_char(n % 10))
    }
}

/// An integer in decimal: its absolute value, after a minus sign where it is negative.
pub open spec fn signed_decimal(n: int) -> Seq<char> {
    if n < 0 {
        seq!['-'] + decimal((-n) as nat)
    } else {
        decimal(n as nat)
    }
}

/// Whether every character of a text is a decimal digit.
pub open spec fn all_digits(text: Seq<char>) -> bool {
    forall|i: int| 0 <= i < text.len() ==> is_digit(#[trigger] text[i])
}

/// The number that a row of decimal digits stands for.
pub open spec fn digits_value(text: Seq<char>) -> nat
    decreases text.len(),
{
    if text.len() == 0 {
        0
    } else {
        digits_value(text.drop_last()) * 10 + digit_value(text.last())
    }
}

/// The number that one or more decimal digits stand for, and nothing for any other text.
pub open spec fn parsed_digits(text: Seq<char>) -> Option<nat> {
    if text.len() > 0 && all_digits(text) {
        Some(digits_value(text))
    } else {
        None
    }
}

/// The integer that a text stands for: decimal digits after an optional sign.
pub open spec fn parsed_int(text: Seq<char>) -> Option<int> {
    if text.len() > 0 && text[0] == '-' {
        match parsed_digits(text.skip(1)) {
            Some(n) => Some(-(n as int)),
            None => None,
        }
    } else {
        match parsed_nat(text) {
            Some(n) => Some(n as int),
            None => None,
        }
    }
}

/// The natural number that a text stands for: decimal digits after an optional plus sign.
pub open spec fn parsed_nat(text: Seq<char>) -> Option<nat> {
    if text.len() > 0 && text[0] == '+' {
        parsed_digits(text.skip(1))
    } else {
        parsed_digits(text)
    }
}

/// The `i32` that a text stands for, where it stands for an integer in that range.
pub open spec fn parsed_i32(text: Seq<char>) -> Option<i32> {
    match parsed_int(text) {
        Some(n) => if i32::MIN <= n <= i32::MAX {
            Some(n as i32)
        } else {
            None
        },
        None => None,
    }
}

/// The `u16` that a text stands for, where it stands for a natural number in that range.
pub open spec fn parsed_u16(text: Seq<char>) -> Option<u16> {
    match parsed_nat(text) {
        Some(n) => if n <= u16::MAX {
            Some(n as u16)
        } else {
            None
        },
        None => None,
    }
}

/// The fields of a text that a separator divides; one more than there are separators.
pub open spec fn fields(text: Seq<char>, separator: char) -> Seq<Seq<char>>
    decreases text.len(),
{
    if text.len() == 0 {
        seq![Seq::<char>::empty()]
    } else {
        let before = fields(text.drop_last(), separator);
        if text.last() == separator {
            before.push(Seq::<char>::empty())
        } else {
            before.drop_last().push(before.last().push(text.last()))
        }
    }
}

/// Whether a character is white space: the `White_Space` property of Unicode.
pub open spec fn is_white_space(c: char) -> bool {
    ||| '\u{9}' <= c <= '\u{d}'
    ||| c == ' '
    ||| c == '\u{85}'
    ||| c == '\u{a0}'
    ||| c == '\u{1680}'
    ||| '\u{2000}' <= c <= '\u{200a}'
    ||| c == '\u{2028}'
    ||| c == '\u{2029}'
    ||| c == '\u{202f}'
    ||| c == '\u{205f}'
    ||| c == '\u{3000}'
}

/// A text without the white space at its two ends.
pub open spec fn trimmed(text: Seq<char>) -> Seq<char>
    decreases text.len(),
{
    if text.len() > 0 && is_white_space(text[0]) {
        trimmed(text.drop_first())
    } else if text.len() > 0 && is_white_space(text.last()) {
        trimmed(text.drop_last())
    } else {
        text
    }
}

/// A character with the capital letters of ASCII turned into small ones.
pub open spec fn ascii_lower(c: char) -> char {
    if 'A' <= c <= 'Z' {
        (c as nat + 32) as char
    } else {
        c
    }
}

/// Whether two texts are the same but for the case of ASCII letters.
pub open spec fn same_ignoring_ascii_case(a: Seq<char>, b: Seq<char>) -> bool {
    &&& a.len() == b.len()
    &&& forall|i: int| 0 <= i < a.len() ==> ascii_lower(#[trigger] a[i]) == ascii_lower(b[i])
}

/// The text that `String::from_utf8_lossy` reads in a row of bytes.
pub uninterp spec fn utf8_lossy(bytes: Seq<u8>) -> Seq<char>;

/// `String::from_utf8_lossy`: bytes as UTF-8 text. Bytes that are UTF-8 are read as such; what
/// the text is where they are not, as where a character is cut short, is left to the name
/// `utf8_lossy`.
#[verifier::external_body]
pub(crate) fn decode_lossy(bytes: &[u8]) -> (text: String)
    ensures
        text@ == utf8_lossy(bytes@),
        valid_utf8(bytes@) ==> text@ == decode_utf8(bytes@),
{
    String::from_utf8_lossy(bytes).into_owned()
}

/// The characters of a text.
pub(crate) fn characters(text: &str) -> (chars: Vec<char>)
    ensures
        chars@ == text@,
{
    let mut chars: Vec<char> = Vec::new();
    for c in iter: text.chars()
        invariant
            iter.seq() == text@,
            chars@ == text@.take(iter.index()),
    {
        chars.push(c);
    }
    chars
}

/// The characters from `from` up to `to`.
fn characters_between(chars: &Vec<char>, from: usize, to: usize) -> (part: Vec<char>)
    requires
        from <= to <= chars@.len(),
    ensures
        part@ == chars@.subrange(from as int, to as int),
{
    let mut part: Vec<char> = Vec::new();
    let mut i: usize = from;
    while i < to
        invariant
            from <= i <= to <= chars@.len(),
            part@ == chars@.subrange(from as int, i as int),
        decreases to - i,
    {
        part.push(chars[i]);
        i = i + 1;
    }
    part
}

/// The text that the characters from `from` up to `to` make.
pub(crate) fn text_between(chars: &Vec<char>, from: usize, to: usize) -> (text: String)
    requires
        from <= to <= chars@.len(),
    ensures
        text@ == chars@.subrange(from as int, to as int),
{
    let mut text = String::new();
    let mut i: usize = from;
    while i < to
        invariant
            from <= i <= to <= chars@.len(),
            text@ == chars@.subrange(from as int, i as int),
        decreases to - i,
    {
        text.push(chars[i]);
        i = i + 1;
    }
    text
}

/// A text without the characters `c` at its end.
pub open spec fn without_trailing(text: Seq<char>, c: char) -> Seq<char>
    decreases text.len(),
{
    if text.len() > 0 && text.last() == c {
        without_trailing(text.drop_last(), c)
    } else {
        text
    }
}

/// A text without the characters `c` at its end.
pub(crate) fn strip_trailing(text: &str, c: char) -> (stem: String)
    ensures
        stem@ == without_trailing(text@, c),
{
    let chars = characters(text);
    let mut to: usize = chars.len();
    assert(chars@.take(to as int) =~= text@);
    while to > 0 && chars[(to - 1) as usize] == c
        invariant
            to <= chars@.len(),
            without_trailing(chars@.take(to as int), c) == without_trailing(text@, c),
        decreases to,
    {
        assert(chars@.take(to as int).drop_last() =~= chars@.take(to - 1));
        to = to - 1;
    }
    assert(chars@.take(to as int) =~= chars@.subrange(0, to as int));
    text_between(&chars, 0, to)
}

/// What an optional string holds.
pub open spec fn option_view(string: Option<String>) -> Option<Seq<char>> {
    match string {
        Some(s) => Some(s@),
        None => None,
    }
}

/// What the strings of a list hold.
pub open spec fn views(strings: Seq<String>) -> Seq<Seq<char>> {
    strings.map_values(|string: String| string@)
}

/// The fields of a text that a separator divides.
pub(crate) fn split_fields(text: &str, separator: char) -> (parts: Vec<String>)
    ensures
        views(parts@) == fields(text@, separator),
{
    let chars = characters(text);
    let mut parts: Vec<String> = Vec::new();
    let mut field = String::new();
    let mut i: usize = 0;
    assert(fields(chars@.take(0), separator) =~= views(parts@).push(field@));
    while i < chars.len()
        invariant
            i <= chars@.len(),
            fields(chars@.take(i as int), separator) == views(parts@).push(field@),
        decreases chars@.len() - i,
    {
        let c = chars[i];
        let ghost before = chars@.take(i as int);
        assert(chars@.take(i + 1).drop_last() =~= before);
        assert(views(parts@).push(field@).drop_last() =~= views(parts@));
        if c == separator {
            let ghost old_parts = parts@;
            parts.push(field);
            field = String::new();
            assert(views(parts@) =~= views(old_parts).push(parts@.last()@));
        } else {
            field.push(c);
        }
        i = i + 1;
    }
    assert(chars@.take(i as int) =~= text@);
    let ghost old_parts = parts@;
    parts.push(field);
    assert(views(parts@) =~= views(old_parts).push(parts@.last()@));
    parts
}

/// Appends a number in decimal.
pub(crate) fn push_decimal(text: &mut String, n: u64)
    ensures
        final(text)@ == old(text)@ + decimal(n as nat),
    decreases n,
{
    if n >= 10 {
        push_decimal(text, n / 10);
    }
    let digit: u8 = 48 + (n % 10) as u8;
    text.push(digit as char);
    assert(text@ =~= old(text)@ + decimal(n as nat));
}

/// An integer in decimal.
pub(crate) fn signed_to_decimal(n: i64) -> (text: String)
    ensures
        text@ == signed_decimal(n as int),
{
    let mut text = String::new();
    if n < 0 {
        text.push('-');
        if n == i64::MIN {
            push_decimal(&mut text, 9223372036854775808);
        } else {
            push_decimal(&mut text, (-n) as u64);
        }
    } else {
        push_decimal(&mut text, n as u64);
    }
    assert(text@ =~= signed_decimal(n as int));
    text
}

/// The number that a row of digits stands for grows with every digit.
proof fn lemma_digits_value_prefix(text: Seq<char>, i: int)
    requires
        0 <= i <= text.len(),
    ensures
        digits_value(text.take(i)) <= digits_value(text),
    decreases text.len(),
{
    if i == text.len() {
        assert(text.take(i) =~= text);
    } else {
        lemma_digits_value_prefix(text.drop_last(), i);
        assert(text.drop_last().take(i) =~= text.take(i));
    }
}

/// The number that the characters from `from` on stand for, as long as it is at most `limit`.
fn parse_digits(chars: &Vec<char>, from: usize, limit: u64) -> (number: Option<u64>)
    requires
        from <= chars@.len(),
        limit <= u32::MAX,
    ensures
        number == match parsed_digits(chars@.skip(from as int)) {
            Some(n) => if n <= limit {
                Some(n as u64)
            } else {
                None
            },
            None => None,
        },
{
    if from == chars.len() {
        return None;
    }
    let ghost digits = chars@.skip(from as int);
    let mut number: u64 = 0;
    let mut i: usize = from;
    while i < chars.len()
        invariant
            from <= i <= chars@.len(),
            digits == chars@.skip(from as int),
            limit <= u32::MAX,
            number <= limit,
            all_digits(digits.take(i - from)),
            number == digits_value(digits.take(i - from)),
        decreases chars@.len() - i,
    {
        let c = chars[i];
        assert(c == digits[i - from]);
        if !('0' <= c && c <= '9') {
            return None;
        }
        assert(digits.take(i + 1 - from).drop_last() =~= digits.take(i - from));
        number = number * 10 + (c as u64 - 48);
        i = i + 1;
        if number > limit {
            proof {
                lemma_digits_value_prefix(digits, i - from);
            }
            return None;
        }
    }
    assert(digits.take(i - from) =~= digits);
    Some(number)
}

/// The `i32` that a text stands for.
pub(crate) fn parse_i32(text: &str) -> (number: Option<i32>)
    ensures
        number == parsed_i32(text@),
{
    let chars = characters(text);
    assert(chars@.skip(0) =~= chars@);
    if chars.len() > 0 && chars[0] == '-' {
        match parse_digits(&chars, 1, 2147483648) {
            Some(n) => Some((-(n as i64)) as i32),
            None => None,
        }
    } else {
        let from: usize = if chars.len() > 0 && chars[0] == '+' {
            1
        } else {
            0
        };
        match parse_digits(&chars, from, 2147483647) {
            Some(n) => Some(n as i32),
            None => None,
        }
    }
}

/// The `u16` that a text stands for.
pub(crate) fn parse_u16(text: &str) -> (number: Option<u16>)
    ensures
        number == parsed_u16(text@),
{
    let chars = characters(text);
    assert(chars@.skip(0) =~= chars@);
    let from: usize = if chars.len() > 0 && chars[0] == '+' {
        1
    } else {
        0
    };
    match parse_digits(&chars, from, 65535) {
        Some(n) => Some(n as u16),
        None => None,
    }
}

/// Whether a character is white space.
fn white_space(c: char) -> (white: bool)
    ensures
        white == is_white_space(c),
{
    ('\u{9}' <= c && c <= '\u{d}') || c == ' ' || c == '\u{85}' || c == '\u{a0}' || c == '\u{1680}'
        || ('\u{2000}' <= c && c <= '\u{200a}') || c == '\u{2028}' || c == '\u{2029}'
        || c == '\u{202f}' || c == '\u{205f}' || c == '\u{3000}'
}

/// The characters of a text without the white space at its two ends.
pub(crate) fn trim(text: &str) -> (middle: Vec<char>)
    ensures
        middle@ == trimmed(text@),
{
    let chars = characters(text);
    let mut from: usize = 0;
    let mut to: usize = chars.len();
    assert(chars@.subrange(0, to as int) =~= text@);
    while from < to && white_space(chars[from])
        invariant
            from <= to <= chars@.len(),
            trimmed(chars@.subrange(from as int, to as int)) == trimmed(text@),
        decreases to - from,
    {
        assert(chars@.subrange(from as int, to as int).drop_first() =~= chars@.subrange(
            from + 1,
            to as int,
        ));
        from = from + 1;
    }
    while from < to && white_space(chars[(to - 1) as usize])
        invariant
            from <= to <= chars@.len(),
            from < to ==> !is_white_space(chars@[from as int]),
            trimmed(chars@.subrange(from as int, to as int)) == trimmed(text@),
        decreases to - from,
    {
        assert(chars@.subrange(from as int, to as int).drop_last() =~= chars@.subrange(
            from as int,
            to - 1,
        ));
        to = to - 1;
    }
    assert(trimmed(chars@.subrange(from as int, to as int)) == chars@.subrange(
        from as int,
        to as int,
    )) by {
        let middle = chars@.subrange(from as int, to as int);
        if middle.len() > 0 {
            assert(middle[0] == chars@[from as int]);
            assert(middle.last() == chars@[to - 1]);
        }
    }
    characters_between(&chars, from, to)
}

/// A character with the capital letters of ASCII turned into small ones.
fn to_ascii_lower(c: char) -> (lower: char)
    ensures
        lower == ascii_lower(c),
{
    if 'A' <= c && c <= 'Z' {
        (c as u8 + 32) as char
    } else {
        c
    }
}

/// Whether the characters are those of a word, but for the case of ASCII letters.
pub(crate) fn is_word(chars: &Vec<char>, word: &str) -> (same: bool)
    ensures
        same == same_ignoring_ascii_case(chars@, word@),
{
    let letters = characters(word);
    if chars.len() != letters.len() {
        return false;
    }
    let mut i: usize = 0;
    while i < chars.len()
        invariant
            i <= chars@.len() == letters@.len(),
            letters@ == word@,
            forall|j: int| 0 <= j < i ==> ascii_lower(#[trigger] chars@[j]) == ascii_lower(word@[j]),
        decreases chars@.len() - i,
    {
        if to_ascii_lower(chars[i]) != to_ascii_lower(letters[i]) {
            return false;
        }
        i = i + 1;
    }
    true
}

/// Fields put together, with a separator between them.
pub open spec fn joined(parts: Seq<Seq<char>>, separator: char) -> Seq<char>
    decreases parts.len(),
{
    if parts.len() == 0 {
        Seq::empty()
    } else if parts.len() == 1 {
        parts[0]
    } else {
        joined(parts.drop_last(), separator).push(separator) + parts.last()
    }
}

/// A number written in decimal is read back.
pub proof fn law_decimal_round_trip(n: nat)
    ensures
        parsed_digits(decimal(n)) == Some(n),
    decreases n,
{
    if n >= 10 {
        law_decimal_round_trip(n / 10);
        let digits = decimal(n);
        assert(digits.drop_last() =~= decimal(n / 10));
        assert forall|i: int| 0 <= i < digits.len() implies is_digit(#[trigger] digits[i]) by {
            if i < digits.len() - 1 {
                assert(digits[i] == decimal(n / 10)[i]);
            }
        }
    } else {
        assert(digits_value(decimal(n).drop_last()) == 0);
        assert(decimal(n).last() == digit_char(n));
    }
}

/// An `i32` written in decimal is read back.
pub proof fn law_i32_round_trip(n: i32)
    ensures
        parsed_i32(signed_decimal(n as int)) == Some(n),
{
    let text = signed_decimal(n as int);
    if n < 0 {
        law_decimal_round_trip((-n) as nat);
        assert(text.skip(1) =~= decimal((-n) as nat));
    } else {
        law_decimal_round_trip(n as nat);
        assert(is_digit(text[0]));
    }
}

/// A `u16` written in decimal is read back.
pub proof fn law_u16_round_trip(n: u16)
    ensures
        parsed_u16(decimal(n as nat)) == Some(n),
{
    law_decimal_round_trip(n as nat);
    assert(is_digit(decimal(n as nat)[0]));
}

/// Fields of a text behind more of it: text without the separator only makes the last one longer.
proof fn lemma_fields_extended(text: Seq<char>, field: Seq<char>, separator: char)
    requires
        !field.contains(separator),
    ensures
        fields(text, separator).len() > 0,
        fields(text + field, separator) == fields(text, separator).drop_last().push(
            fields(text, separator).last() + field,
        ),
    decreases field.len(),
{
    lemma_fields_not_empty(text, separator);
    let parts = fields(text, separator);
    if field.len() == 0 {
        assert(text + field =~= text);
        assert(parts.last() + field =~= parts.last());
        assert(parts.drop_last().push(parts.last()) =~= parts);
    } else {
        let shorter = field.drop_last();
        assert(!shorter.contains(separator)) by {
            if shorter.contains(separator) {
                let i = choose|i: int| 0 <= i < shorter.len() && shorter[i] == separator;
                assert(field[i] == separator);
            }
        }
        lemma_fields_extended(text, shorter, separator);
        assert((text + field).drop_last() =~= text + shorter);
        assert(field.last() != separator) by {
            assert(field[field.len() - 1] == field.last());
        }
        let before = fields(text + shorter, separator);
        assert(before.drop_last() =~= parts.drop_last());
        assert(before.last().push(field.last()) =~= parts.last() + field);
    }
}

proof fn lemma_fields_not_empty(text: Seq<char>, separator: char)
    ensures
        fields(text, separator).len() > 0,
    decreases text.len(),
{
    if text.len() > 0 {
        lemma_fields_not_empty(text.drop_last(), separator);
    }
}

/// Fields that do not hold the separator come back from the text that they were put together to.
pub proof fn law_fields_of_joined(parts: Seq<Seq<char>>, separator: char)
    requires
        parts.len() > 0,
        forall|i: int| 0 <= i < parts.len() ==> !(#[trigger] parts[i]).contains(separator),
    ensures
        fields(joined(parts, separator), separator) == parts,
    decreases parts.len(),
{
    let last = parts.last();
    assert(last == parts[parts.len() - 1]);
    if parts.len() == 1 {
        lemma_fields_extended(Seq::empty(), last, separator);
        assert(Seq::<char>::empty() + last =~= last);
        assert(fields(last, separator) =~= parts);
    } else {
        let before = parts.drop_last();
        law_fields_of_joined(before, separator);
        let head = joined(before, separator).push(separator);
        assert(head.drop_last() =~= joined(before, separator));
        assert(fields(head, separator) == before.push(Seq::empty()));
        lemma_fields_extended(head, last, separator);
        assert(before.push(Seq::empty()).drop_last() =~= before);
        assert(Seq::<char>::empty() + last =~= last);
        assert(fields(joined(parts, separator), separator) =~= parts);
    }
}

/// A text is its own fields put together again.
pub proof fn law_joined_fields(text: Seq<char>, separator: char)
    ensures
        joined(fields(text, separator), separator) == text,
    decreases text.len(),
{
    lemma_fields_not_empty(text, separator);
    if text.len() > 0 {
        let start = text.drop_last();
        let before = fields(start, separator);
        law_joined_fields(start, separator);
        lemma_fields_not_empty(start, separator);
        let parts = fields(text, separator);
        if text.last() == separator {
            assert(parts.drop_last() =~= before);
            assert(joined(parts, separator) =~= start.push(separator));
        } else {
            assert(parts.drop_last() =~= before.drop_last());
            assert(joined(parts, separator) =~= start.push(text.last()));
        }
        assert(start.push(text.last()) =~= text);
    } else {
        assert(text =~= Seq::empty());
    }
}

/// The digits of a number in decimal stand for its powers of ten, from the right, and none of them
/// is a zero that could be left out.
pub proof fn law_decimal_digits(n: nat)
    ensures
        decimal(n).len() > 0,
        forall|i: int|
            0 <= i < decimal(n).len() ==> (#[trigger] decimal(n)[decimal(n).len() - 1 - i]) as int == 48
                + (n as int / pow(10, i as nat)) % 10,
        decimal(n).len() > 1 ==> decimal(n)[0] != '0',
        n as int / pow(10, decimal(n).len()) == 0,
    decreases n,
{
    reveal(pow);
    let digits = decimal(n);
    if n < 10 {
        assert(digits =~= seq![digit_char(n)]);
        lemma_pow1(10);
        lemma_pow0(10);
        assert forall|i: int| 0 <= i < digits.len() implies (
        #[trigger] digits[digits.len() - 1 - i]) as int == 48 + (n as int / pow(10, i as nat)) % 10 by {
            assert(i == 0);
            assert(n as int / 1 == n as int);
        }
    } else {
        let shorter = decimal(n / 10);
        law_decimal_digits(n / 10);
        assert forall|i: int| 0 <= i < digits.len() implies (
        #[trigger] digits[digits.len() - 1 - i]) as int == 48 + (n as int / pow(10, i as nat)) % 10 by {
            if i == 0 {
                lemma_pow0(10);
                assert(n as int / 1 == n as int);
            } else {
                assert(digits[digits.len() - 1 - i] == shorter[shorter.len() - 1 - (i - 1)]);
                lemma_pow_positive(10, (i - 1) as nat);
                lemma_div_denominator(n as int, 10, pow(10, (i - 1) as nat));
                assert(pow(10, i as nat) == 10 * pow(10, (i - 1) as nat));
            }
        }
        lemma_pow_positive(10, shorter.len());
        lemma_div_denominator(n as int, 10, pow(10, shorter.len()));
        assert(pow(10, digits.len()) == 10 * pow(10, shorter.len()));
        assert(digits[0] == shorter[0]);
        if shorter.len() == 1 {
            let first = shorter[shorter.len() - 1 - 0];
            lemma_pow0(10);
            lemma_pow1(10);
            assert((n / 10) as int / 1 == (n / 10) as int);
            assert((n / 10) as int / 10 == 0);
            assert(first as int == 48 + (n / 10) as int % 10);
        }
    }
}

/// One more digit makes a number ten times as large and adds what the digit stands for.
pub proof fn law_one_more_digit(text: Seq<char>, digit: char)
    requires
        '0' <= digit <= '9',
    ensures
        digits_value(text.push(digit)) == 10 * digits_value(text) + (digit as int - '0' as int),
        digits_value(Seq::empty()) == 0,
{
    assert(text.push(digit).drop_last() =~= text);
}

/// How a row of digits reads, alone and behind a sign: as the number that it stands for, where that
/// fits, and as none otherwise.
pub proof fn law_digits_are_read(digits: Seq<char>)
    requires
        digits.len() > 0,
        forall|i: int| 0 <= i < digits.len() ==> '0' <= #[trigger] digits[i] <= '9',
    ensures
        ({
            let value = digits_value(digits) as int;
            let (plus, minus) = (seq!['+'] + digits, seq!['-'] + digits);
            let signed = if value <= 2147483647 {
                Some(value as i32)
            } else {
                None
            };
            let port = if value <= 65535 {
                Some(value as u16)
            } else {
                None
            };
            &&& parsed_i32(digits) == signed
            &&& parsed_i32(plus) == signed
            &&& parsed_i32(minus) == if value <= 2147483648 {
                Some((-value) as i32)
            } else {
                None
            }
            &&& parsed_u16(digits) == port
            &&& parsed_u16(plus) == port
            &&& parsed_u16(minus) is None
        }),
{
    assert('0' <= digits[0] <= '9');
    assert(all_digits(digits));
    let (plus, minus) = (seq!['+'] + digits, seq!['-'] + digits);
    assert(plus.skip(1) =~= digits);
    assert(minus.skip(1) =~= digits);
    assert(!is_digit(minus[0]));
}

/// A text is no number where it is empty, where it is a sign alone, where it begins with something
/// else than a digit or a sign, or where something else than a digit comes later.
pub proof fn law_other_texts_are_no_numbers(text: Seq<char>)
    requires
        ({
            ||| text.len() == 0
            ||| text.len() == 1 && !('0' <= text[0] <= '9')
            ||| text[0] != '+' && text[0] != '-' && !('0' <= text[0] <= '9')
            ||| exists|i: int| 1 <= i < text.len() && !('0' <= #[trigger] text[i] <= '9')
        }),
    ensures
        parsed_i32(text) is None,
        parsed_u16(text) is None,
{
    if text.len() > 0 {
        let rest = text.skip(1);
        if exists|i: int| 1 <= i < text.len() && !('0' <= #[trigger] text[i] <= '9') {
            let i = choose|i: int| 1 <= i < text.len() && !('0' <= #[trigger] text[i] <= '9');
            assert(rest[i - 1] == text[i]);
            assert(!is_digit(rest[i - 1]));
            assert(!is_digit(text[i]));
        } else {
            assert(!is_digit(text[0]) || text.len() == 1);
        }
    }
}

/// A separator divides: the fields of two texts with one between them are the fields of the first
/// and then those of the second.
pub proof fn law_separator_divides(a: Seq<char>, b: Seq<char>, separator: char)
    ensures
        fields((a.push(separator)) + b, separator) == fields(a, separator) + fields(b, separator),
    decreases b.len(),
{
    lemma_fields_not_empty(a, separator);
    lemma_fields_not_empty(b, separator);
    let text = a.push(separator) + b;
    if b.len() == 0 {
        assert(text =~= a.push(separator));
        assert(text.drop_last() =~= a);
        assert(fields(text, separator) =~= fields(a, separator) + fields(b, separator));
    } else {
        let shorter = b.drop_last();
        law_separator_divides(a, shorter, separator);
        lemma_fields_not_empty(shorter, separator);
        assert(text.drop_last() =~= a.push(separator) + shorter);
        assert(text.last() == b.last());
        assert(fields(text, separator) =~= fields(a, separator) + fields(b, separator));
    }
}

/// A text without the separator is its own only field.
pub proof fn law_undivided_text(text: Seq<char>, separator: char)
    requires
        forall|i: int| 0 <= i < text.len() ==> #[trigger] text[i] != separator,
    ensures
        fields(text, separator) == seq![text],
{
    assert(!text.contains(separator));
    lemma_fields_extended(Seq::empty(), text, separator);
    assert(Seq::<char>::empty() + text =~= text);
    assert(fields(text, separator) =~= seq![text]);
}

/// The characters that are white space, by their code points.
pub proof fn law_white_space(c: char)
    ensures
        is_white_space(c) <==> {
            let n = c as int;
            ||| 9 <= n <= 13
            ||| n == 32
            ||| n == 133
            ||| n == 160
            ||| n == 5760
            ||| 8192 <= n <= 8202
            ||| n == 8232
            ||| n == 8233
            ||| n == 8239
            ||| n == 8287
            ||| n == 12288
        },
{
}

/// Trimming takes away white space at the two ends and nothing else, and leaves none there.
pub proof fn law_trimmed(text: Seq<char>) -> (from: int)
    ensures
        0 <= from <= from + trimmed(text).len() <= text.len(),
        trimmed(text) == text.subrange(from, from + trimmed(text).len()),
        forall|i: int| 0 <= i < from ==> is_white_space(#[trigger] text[i]),
        forall|i: int|
            from + trimmed(text).len() <= i < text.len() ==> is_white_space(#[trigger] text[i]),
        trimmed(text).len() > 0 ==> !is_white_space(trimmed(text)[0]) && !is_white_space(
            trimmed(text).last(),
        ),
    decreases text.len(),
{
    if text.len() > 0 && is_white_space(text[0]) {
        let rest = text.drop_first();
        let n = law_trimmed(rest);
        assert forall|i: int| 0 <= i < n + 1 implies is_white_space(#[trigger] text[i]) by {
            if i > 0 {
                assert(rest[i - 1] == text[i]);
            }
        }
        assert forall|i: int| n + 1 + trimmed(text).len() <= i < text.len() implies is_white_space(
            #[trigger] text[i],
        ) by {
            assert(rest[i - 1] == text[i]);
        }
        assert(trimmed(text) =~= text.subrange(n + 1, n + 1 + trimmed(text).len()));
        n + 1
    } else if text.len() > 0 && is_white_space(text.last()) {
        let rest = text.drop_last();
        let n = law_trimmed(rest);
        assert forall|i: int| 0 <= i < n implies is_white_space(#[trigger] text[i]) by {
            assert(rest[i] == text[i]);
        }
        assert forall|i: int| n + trimmed(text).len() <= i < text.len() implies is_white_space(
            #[trigger] text[i],
        ) by {
            if i < text.len() - 1 {
                assert(rest[i] == text[i]);
            }
        }
        assert(trimmed(text) =~= text.subrange(n, n + trimmed(text).len()));
        n
    } else {
        assert(trimmed(text) =~= text.subrange(0, trimmed(text).len() as int));
        0
    }
}

/// Two texts are the same but for ASCII case where they are equally long and each character of one
/// is that of the other, or the same letter from A to Z in the other case.
pub proof fn law_same_but_for_case(a: Seq<char>, b: Seq<char>)
    ensures
        same_ignoring_ascii_case(a, b) <==> a.len() == b.len() && forall|i: int|
            0 <= i < a.len() ==> {
                let (x, y) = ((#[trigger] a[i]) as int, b[i] as int);
                ||| x == y
                ||| 65 <= x <= 90 && y == x + 32
                ||| 65 <= y <= 90 && x == y + 32
            },
{
    if a.len() == b.len() {
        assert forall|i: int| 0 <= i < a.len() implies (ascii_lower(a[i]) == ascii_lower(b[i]) <==> {
            let (x, y) = ((#[trigger] a[i]) as int, b[i] as int);
            ||| x == y
            ||| 65 <= x <= 90 && y == x + 32
            ||| 65 <= y <= 90 && x == y + 32
        }) by {}
    }
}

/// What is left of a text without the characters `c` at its end is how the text begins, and does
/// not end in `c`; nothing but `c` has gone.
pub proof fn law_without_trailing(text: Seq<char>, c: char)
    ensures
        ({
            let stem = without_trailing(text, c);
            &&& stem.len() <= text.len()
            &&& stem == text.take(stem.len() as int)
            &&& forall|i: int| stem.len() <= i < text.len() ==> #[trigger] text[i] == c
            &&& stem.len() > 0 ==> stem.last() != c
        }),
    decreases text.len(),
{
    let stem = without_trailing(text, c);
    if text.len() > 0 && text.last() == c {
        let rest = text.drop_last();
        law_without_trailing(rest, c);
        assert(stem =~= text.take(stem.len() as int));
        assert forall|i: int| stem.len() <= i < text.len() implies #[trigger] text[i] == c by {
            if i < text.len() - 1 {
                assert(rest[i] == text[i]);
            }
        }
    } else {
        assert(stem =~= text.take(stem.len() as int));
    }
}

} // verus!
