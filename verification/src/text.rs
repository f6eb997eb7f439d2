//! Reading settings out of text.

use vstd::prelude::*;

verus! {

/// Where `wanted` first stands in `text`; its length if it does not.
pub open spec fn position(text: Seq<char>, wanted: char) -> int
    decreases text.len(),
{
    if text.len() == 0 || text[0] == wanted {
        0
    } else {
        1 + position(text.drop_first(), wanted)
    }
}

/// Whether Unicode counts `letter` as white space: whether it has the property `White_Space`.
pub open spec fn is_white(letter: char) -> bool {
    let code = letter as u32;
    ||| 0x9 <= code <= 0xD
    ||| code == 0x20
    ||| code == 0x85
    ||| code == 0xA0
    ||| code == 0x1680
    ||| 0x2000 <= code <= 0x200A
    ||| code == 0x2028
    ||| code == 0x2029
    ||| code == 0x202F
    ||| code == 0x205F
    ||| code == 0x3000
}

/// Whether Unicode counts `letter` as white space.
fn white(letter: char) -> (answer: bool)
    ensures
        answer == is_white(letter),
{
    let code: u32 = letter as u32;
    (0x9 <= code && code <= 0xD) || code == 0x20 || code == 0x85 || code == 0xA0 || code == 0x1680
        || (0x2000 <= code && code <= 0x200A) || code == 0x2028 || code == 0x2029 || code == 0x202F
        || code == 0x205F || code == 0x3000
}

/// `text` without the white space it starts with.
pub open spec fn trimmed_start(text: Seq<char>) -> Seq<char>
    decreases text.len(),
{
    if text.len() > 0 && is_white(text[0]) {
        trimmed_start(text.drop_first())
    } else {
        text
    }
}

/// `text` without the white space it ends with.
pub open spec fn trimmed_end(text: Seq<char>) -> Seq<char>
    decreases text.len(),
{
    if text.len() > 0 && is_white(text.last()) {
        trimmed_end(text.drop_last())
    } else {
        text
    }
}

/// `text` without the white space around it.
pub open spec fn trimmed(text: Seq<char>) -> Seq<char> {
    trimmed_end(trimmed_start(text))
}

/// What stands between the commas of `text`, or any other `separator`.
pub open spec fn fields(text: Seq<char>, separator: char) -> Seq<Seq<char>>
    decreases text.len(),
{
    let at = position(text, separator);
    if 0 <= at < text.len() {
        seq![text.take(at)] + fields(text.skip(at + 1), separator)
    } else {
        seq![text]
    }
}

/// The number that a row of decimal digits writes.
pub open spec fn digits_value(digits: Seq<char>) -> int
    decreases digits.len(),
{
    if digits.len() == 0 {
        0
    } else {
        10 * digits_value(digits.drop_last()) + (digits.last() as int - '0' as int)
    }
}

/// Whether `text` is a row of decimal digits, and not empty.
pub open spec fn is_digits(text: Seq<char>) -> bool {
    &&& text.len() > 0
    &&& forall|i: int| 0 <= i < text.len() ==> '0' <= #[trigger] text[i] <= '9'
}

/// `text` without the plus sign it may start with.
pub open spec fn unsigned(text: Seq<char>) -> Seq<char> {
    if text.len() > 0 && text[0] == '+' {
        text.drop_first()
    } else {
        text
    }
}

/// The port that `text` names: a decimal number, with or without a plus sign, that fits a `u16`.
pub open spec fn port_value(text: Seq<char>) -> Option<u16> {
    let digits = unsigned(text);
    if is_digits(digits) && digits_value(digits) <= u16::MAX {
        Some(digits_value(digits) as u16)
    } else {
        None
    }
}

/// Where a character stands, and that it is the first such.
pub(crate) proof fn lemma_position(text: Seq<char>, wanted: char)
    ensures
        0 <= position(text, wanted) <= text.len(),
        position(text, wanted) < text.len() ==> text[position(text, wanted)] == wanted,
        forall|i: int| 0 <= i < position(text, wanted) ==> text[i] != wanted,
    decreases text.len(),
{
    if text.len() > 0 && text[0] != wanted {
        let later = text.drop_first();
        lemma_position(later, wanted);
        assert forall|i: int| 0 <= i < position(text, wanted) implies text[i] != wanted by {
            if i > 0 {
                assert(text[i] == later[i - 1]);
            }
        }
    }
}

/// Two places before which a character does not stand, and at which it does or the text ends, are
/// the same.
proof fn lemma_position_is(text: Seq<char>, wanted: char, at: int)
    requires
        0 <= at <= text.len(),
        at < text.len() ==> text[at] == wanted,
        forall|i: int| 0 <= i < at ==> text[i] != wanted,
    ensures
        position(text, wanted) == at,
{
    lemma_position(text, wanted);
}

/// Where `wanted` first stands in `text`; its length if it does not.
pub(crate) fn find(text: &str, wanted: char) -> (at: usize)
    ensures
        at == position(text@, wanted),
        at <= text@.len(),
{
    let length = text.unicode_len();
    let mut at: usize = 0;
    while at < length && text.get_char(at) != wanted
        invariant
            at <= length,
            length == text@.len(),
            forall|i: int| 0 <= i < at ==> text@[i] != wanted,
        decreases length - at,
    {
        at += 1;
    }
    proof {
        lemma_position_is(text@, wanted, at as int);
    }
    at
}

/// `text` without the white space around it.
pub(crate) fn trim(text: &str) -> (inner: &str)
    ensures
        inner@ == trimmed(text@),
{
    let length = text.unicode_len();
    let mut from: usize = 0;
    assert(text@.skip(0) =~= text@);
    while from < length && white(text.get_char(from))
        invariant
            from <= length,
            length == text@.len(),
            trimmed_start(text@.skip(from as int)) == trimmed_start(text@),
        decreases length - from,
    {
        assert(text@.skip(from as int).drop_first() =~= text@.skip(from + 1));
        from += 1;
    }
    assert(trimmed_start(text@) == text@.skip(from as int));
    let mut to: usize = length;
    assert(text@.subrange(from as int, length as int) =~= text@.skip(from as int));
    while to > from && white(text.get_char(to - 1))
        invariant
            from <= to <= length,
            length == text@.len(),
            trimmed_end(text@.subrange(from as int, to as int)) == trimmed(text@),
        decreases to,
    {
        assert(text@.subrange(from as int, to as int).drop_last() =~= text@.subrange(
            from as int,
            to - 1,
        ));
        to -= 1;
    }
    text.substring_char(from, to)
}

/// The port that `text` names.
pub(crate) fn parse_port(text: &str) -> (port: Option<u16>)
    ensures
        port == port_value(text@),
{
    let length = text.unicode_len();
    let from: usize = if length > 0 && text.get_char(0) == '+' {
        1
    } else {
        0
    };
    let ghost digits = unsigned(text@);
    assert(digits =~= text@.skip(from as int));
    if from == length {
        return None;
    }
    let mut value: u64 = 0;
    let mut i: usize = from;
    while i < length
        invariant
            from <= i <= length,
            length == text@.len(),
            digits == text@.skip(from as int),
            digits == unsigned(text@),
            forall|j: int| 0 <= j < i - from ==> '0' <= #[trigger] digits[j] <= '9',
            value <= u16::MAX,
            value == digits_value(digits.take(i - from)),
        decreases length - i,
    {
        let letter = text.get_char(i);
        assert(letter == digits[i - from]);
        if letter < '0' || letter > '9' {
            assert(!is_digits(digits));
            return None;
        }
        assert(digits.take(i - from + 1).drop_last() =~= digits.take(i - from));
        value = 10 * value + (letter as u64 - 48);
        i += 1;
        if value > u16::MAX as u64 {
            proof {
                if is_digits(digits) {
                    lemma_more_digits_more_value(digits, i - from);
                }
            }
            return None;
        }
    }
    assert(digits.take(i - from) =~= digits);
    Some(value as u16)
}

/// A number is no smaller than what its first digits write.
proof fn lemma_more_digits_more_value(digits: Seq<char>, n: int)
    requires
        0 <= n <= digits.len(),
        forall|i: int| 0 <= i < digits.len() ==> '0' <= #[trigger] digits[i] <= '9',
    ensures
        0 <= digits_value(digits.take(n)) <= digits_value(digits),
    decreases digits.len(),
{
    if n == digits.len() {
        assert(digits.take(n) =~= digits);
        lemma_value_not_negative(digits);
    } else {
        let shorter = digits.drop_last();
        assert(shorter.take(n) =~= digits.take(n));
        lemma_more_digits_more_value(shorter, n);
    }
}

/// Digits write no negative number.
proof fn lemma_value_not_negative(digits: Seq<char>)
    requires
        forall|i: int| 0 <= i < digits.len() ==> '0' <= #[trigger] digits[i] <= '9',
    ensures
        0 <= digits_value(digits),
    decreases digits.len(),
{
    if digits.len() > 0 {
        lemma_value_not_negative(digits.drop_last());
    }
}

/// The digit that writes a number below ten.
pub open spec fn digit(value: nat) -> char {
    ('0' as int + value) as char
}

/// A number in decimal, without leading zeros.
pub open spec fn decimal_digits(value: nat) -> Seq<char>
    decreases value,
{
    if value < 10 {
        seq![digit(value)]
    } else {
        decimal_digits(value / 10).push(digit(value % 10))
    }
}

/// Write a number in decimal.
pub fn decimal(value: u128) -> (text: String)
    ensures
        text@ == decimal_digits(value as nat),
    decreases value,
{
    let last: u8 = (value % 10) as u8;
    let mut text = if value < 10 {
        String::new()
    } else {
        decimal(value / 10)
    };
    text.push((48 + last) as char);
    assert(text@ =~= decimal_digits(value as nat));
    text
}

/// A number written in decimal reads back as the same number.
pub proof fn law_decimal_reads_back(value: nat)
    ensures
        is_digits(decimal_digits(value)),
        digits_value(decimal_digits(value)) == value,
    decreases value,
{
    reveal_with_fuel(digits_value, 2);
    let digits = decimal_digits(value);
    if value >= 10 {
        law_decimal_reads_back(value / 10);
        assert(digits.drop_last() =~= decimal_digits(value / 10));
        assert(digits.last() == digit(value % 10));
        assert forall|i: int| 0 <= i < digits.len() implies '0' <= #[trigger] digits[i] <= '9' by {
            if i < digits.len() - 1 {
                assert(digits[i] == decimal_digits(value / 10)[i]);
            }
        }
    } else {
        assert(digits.drop_last() =~= Seq::<char>::empty());
    }
}

/// A character is found where it first stands, and not at all exactly where it does not stand.
pub proof fn law_the_first_place_is_found(text: Seq<char>, wanted: char, at: int)
    requires
        0 <= at <= text.len(),
        forall|i: int| 0 <= i < at ==> text[i] != wanted,
    ensures
        at < text.len() && text[at] == wanted ==> position(text, wanted) == at,
        at == text.len() ==> position(text, wanted) == text.len(),
{
    if at == text.len() || text[at] == wanted {
        lemma_position_is(text, wanted, at);
    }
}

/// Whether all of `text` is white space.
pub open spec fn is_blank(text: Seq<char>) -> bool {
    forall|i: int| 0 <= i < text.len() ==> is_white(#[trigger] text[i])
}

proof fn lemma_trimmed_start(text: Seq<char>) -> (n: int)
    ensures
        0 <= n <= text.len(),
        trimmed_start(text) == text.skip(n),
        is_blank(text.take(n)),
        n < text.len() ==> !is_white(text[n]),
    decreases text.len(),
{
    if text.len() > 0 && is_white(text[0]) {
        let n = lemma_trimmed_start(text.drop_first());
        assert(text.drop_first().skip(n) =~= text.skip(n + 1));
        assert forall|i: int| 0 <= i < text.take(n + 1).len() implies is_white(
            #[trigger] text.take(n + 1)[i],
        ) by {
            if i > 0 {
                assert(text.drop_first().take(n)[i - 1] == text.take(n + 1)[i]);
            }
        }
        n + 1
    } else {
        assert(text.skip(0) =~= text);
        0
    }
}

proof fn lemma_trimmed_end(text: Seq<char>) -> (n: int)
    ensures
        0 <= n <= text.len(),
        trimmed_end(text) == text.take(n),
        is_blank(text.skip(n)),
        n > 0 ==> !is_white(text[n - 1]),
    decreases text.len(),
{
    if text.len() > 0 && is_white(text.last()) {
        let n = lemma_trimmed_end(text.drop_last());
        assert(text.drop_last().take(n) =~= text.take(n));
        assert forall|i: int| 0 <= i < text.skip(n).len() implies is_white(
            #[trigger] text.skip(n)[i],
        ) by {
            if i < text.skip(n).len() - 1 {
                assert(text.drop_last().skip(n)[i] == text.skip(n)[i]);
            }
        }
        n
    } else {
        assert(text.take(text.len() as int) =~= text);
        assert(text.skip(text.len() as int) =~= Seq::<char>::empty());
        text.len() as int
    }
}

/// Trimming takes white space off both ends, all of it and nothing else: what is left stands from
/// `from` to `to`, has white space at neither end, and there is only white space around it.
pub proof fn law_trimming_takes_the_white_space_off(text: Seq<char>) -> (span: (int, int))
    ensures
        0 <= span.0 <= span.1 <= text.len(),
        trimmed(text) == text.subrange(span.0, span.1),
        is_blank(text.take(span.0)),
        is_blank(text.skip(span.1)),
        span.0 < span.1 ==> !is_white(text[span.0]) && !is_white(text[span.1 - 1]),
{
    let from = lemma_trimmed_start(text);
    let rest = text.skip(from);
    let n = lemma_trimmed_end(rest);
    let to = from + n;
    assert(rest.take(n) =~= text.subrange(from, to));
    assert(text.skip(to) =~= rest.skip(n));
    if from < to {
        assert(rest[n - 1] == text[to - 1]);
    }
    (from, to)
}

/// What has white space at neither end is left as it is.
pub proof fn law_trimming_leaves_what_is_trimmed(text: Seq<char>)
    requires
        text.len() > 0 ==> !is_white(text[0]) && !is_white(text.last()),
    ensures
        trimmed(text) == text,
{
}

/// No letter, digit or sign that can be typed is white space; blanks, tabs, line ends and the
/// blanks that Unicode adds are.
pub proof fn law_what_is_white()
    ensures
        forall|letter: char| '!' <= letter <= '~' ==> !#[trigger] is_white(letter),
        forall|letter: char|
            '\t' <= letter <= '\r' || letter == ' ' || letter == '\u{A0}' || letter == '\u{3000}'
                || '\u{2000}' <= letter <= '\u{200A}' ==> #[trigger] is_white(letter),
        !is_white('\u{200B}') && !is_white('\u{FEFF}') && !is_white('\0'),
{
}

/// `parts` with `separator` between them.
pub open spec fn joined(parts: Seq<Seq<char>>, separator: char) -> Seq<char>
    decreases parts.len(),
{
    if parts.len() == 0 {
        Seq::empty()
    } else if parts.len() == 1 {
        parts[0]
    } else {
        parts[0].push(separator) + joined(parts.drop_first(), separator)
    }
}

/// The fields of a text, with the separator between them, are the text; there is one at least, and
/// none holds the separator.
pub proof fn law_fields_make_up_the_text(text: Seq<char>, separator: char)
    ensures
        fields(text, separator).len() > 0,
        joined(fields(text, separator), separator) == text,
        forall|i: int|
            0 <= i < fields(text, separator).len() ==> !(#[trigger] fields(
                text,
                separator,
            )[i]).contains(separator),
    decreases text.len(),
{
    lemma_position(text, separator);
    let at = position(text, separator);
    let all = fields(text, separator);
    if 0 <= at < text.len() {
        let rest = text.skip(at + 1);
        let later = fields(rest, separator);
        law_fields_make_up_the_text(rest, separator);
        assert(all.drop_first() =~= later);
        assert(text.take(at).push(separator) + rest =~= text);
        assert forall|i: int| 0 <= i < all.len() implies !(#[trigger] all[i]).contains(
            separator,
        ) by {
            if i > 0 {
                assert(all[i] == later[i - 1]);
            }
        }
    }
}

/// A port that is written in decimal is read, with or without a plus sign; a number that is none,
/// since it is too large, is not, and neither is nothing at all.
pub proof fn law_a_port_reads_back(value: nat)
    ensures
        value <= 65_535 ==> port_value(decimal_digits(value)) == Some(value as u16),
        value <= 65_535 ==> port_value(seq!['+'] + decimal_digits(value)) == Some(value as u16),
        value > 65_535 ==> port_value(decimal_digits(value)) is None,
        port_value(Seq::empty()) is None,
        port_value(seq!['+']) is None,
{
    let digits = decimal_digits(value);
    law_decimal_reads_back(value);
    assert('0' <= digits[0] <= '9');
    assert(unsigned(digits) == digits);
    assert((seq!['+'] + digits).drop_first() =~= digits);
    assert(seq!['+'].drop_first() =~= Seq::<char>::empty());
}

/// What names a port is digits, but for a plus sign that it may start with.
pub proof fn law_only_digits_name_a_port(text: Seq<char>, i: int)
    requires
        port_value(text) is Some,
        0 <= i < text.len(),
    ensures
        '0' <= text[i] <= '9' || (i == 0 && text[0] == '+'),
{
    let digits = unsigned(text);
    if text[0] == '+' {
        if i > 0 {
            assert(digits[i - 1] == text[i]);
        }
    } else {
        assert(digits[i] == text[i]);
    }
}

} // verus!
