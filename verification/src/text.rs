//! The few text formats of the control files, on the bytes of UTF-8 text:
//! surrounding white space, decimal numbers, and lists of numbers and ranges
//! separated by commas.

use vstd::prelude::*;

verus! {

/// White space that is one byte long: space, tab, line feed, vertical tab,
/// form feed and carriage return.
pub open spec fn is_space(byte: u8) -> bool {
    byte == 32 || (9 <= byte <= 13)
}

/// White space that is two bytes long in UTF-8: the next-line character
/// U+0085 and the no-break space U+00A0.
pub open spec fn is_two_byte_space(first: u8, second: u8) -> bool {
    first == 0xC2 && (second == 0x85 || second == 0xA0)
}

/// White space that is three bytes long in UTF-8: U+1680, U+2000 to U+200A,
/// U+2028, U+2029, U+202F, U+205F and U+3000.
pub open spec fn is_three_byte_space(first: u8, second: u8, third: u8) -> bool {
    ||| first == 0xE1 && second == 0x9A && third == 0x80
    ||| first == 0xE2 && second == 0x80 && (0x80 <= third <= 0x8A || third == 0xA8 || third
        == 0xA9 || third == 0xAF)
    ||| first == 0xE2 && second == 0x81 && third == 0x9F
    ||| first == 0xE3 && second == 0x80 && third == 0x80
}

/// Number of bytes of the white-space character with which `text` begins; 0
/// where it begins with none. The white-space characters are those of
/// Unicode's property White_Space.
pub open spec fn space_at_start(text: Seq<u8>) -> nat {
    if text.len() >= 1 && is_space(text[0]) {
        1
    } else if text.len() >= 2 && is_two_byte_space(text[0], text[1]) {
        2
    } else if text.len() >= 3 && is_three_byte_space(text[0], text[1], text[2]) {
        3
    } else {
        0
    }
}

/// Number of bytes of the white-space character with which `text` ends; 0
/// where it ends with none.
pub open spec fn space_at_end(text: Seq<u8>) -> nat {
    let len = text.len() as int;
    if len >= 1 && is_space(text[len - 1]) {
        1
    } else if len >= 2 && is_two_byte_space(text[len - 2], text[len - 1]) {
        2
    } else if len >= 3 && is_three_byte_space(text[len - 3], text[len - 2], text[len - 1]) {
        3
    } else {
        0
    }
}

/// Number of bytes of white space at the start of `text`.
pub open spec fn leading_spaces(text: Seq<u8>) -> nat
    decreases text.len(),
{
    let first = space_at_start(text);
    if first == 0 {
        0
    } else {
        first + leading_spaces(text.skip(first as int))
    }
}

/// Number of bytes of white space at the end of `text`.
pub open spec fn trailing_spaces(text: Seq<u8>) -> nat
    decreases text.len(),
{
    let last = space_at_end(text);
    if last == 0 {
        0
    } else {
        last + trailing_spaces(text.take(text.len() - last))
    }
}

/// `text` without the white space at its two ends: first the white space at
/// the start goes, then the white space at the end of what is left. For UTF-8
/// text this is what `str::trim` leaves.
pub open spec fn trimmed(text: Seq<u8>) -> Seq<u8> {
    let rest = text.skip(leading_spaces(text) as int);
    rest.take(rest.len() - trailing_spaces(rest))
}

/// An ASCII decimal digit.
pub open spec fn is_digit(byte: u8) -> bool {
    48 <= byte <= 57
}

/// Every byte of `text` is a decimal digit.
pub open spec fn all_digits(text: Seq<u8>) -> bool {
    forall|i: int| 0 <= i < text.len() ==> is_digit(text[i])
}

/// The value of a digit; 0 for any other byte.
pub open spec fn digit_value(byte: u8) -> nat {
    if is_digit(byte) {
        (byte - 48) as nat
    } else {
        0
    }
}

/// The number that the digits of `text` write in base ten.
pub open spec fn decimal_value(text: Seq<u8>) -> nat
    decreases text.len(),
{
    if text.len() == 0 {
        0
    } else {
        decimal_value(text.drop_last()) * 10 + digit_value(text.last())
    }
}

/// The number that `text` writes: an optional plus sign and then one or more
/// decimal digits, of a value that fits. Anything else is no number.
pub open spec fn parsed_number(text: Seq<u8>) -> Option<usize> {
    let digits = if text.len() > 0 && text[0] == 43 {
        text.drop_first()
    } else {
        text
    };
    if digits.len() > 0 && all_digits(digits) && decimal_value(digits) <= usize::MAX {
        Some(decimal_value(digits) as usize)
    } else {
        None
    }
}

/// Number of bytes of `text` before the first byte `stop`; all of them where
/// there is no such byte.
pub open spec fn bytes_before(text: Seq<u8>, stop: u8) -> nat
    decreases text.len(),
{
    if text.len() == 0 || text[0] == stop {
        0
    } else {
        1 + bytes_before(text.drop_first(), stop)
    }
}

/// The ids that one field of a list stands for, as their lowest and their
/// highest: a number stands for itself, and two numbers with a hyphen between
/// them stand for every id from the first to the second. Anything else stands
/// for no id.
pub open spec fn field_range(field: Seq<u8>) -> Option<(usize, usize)> {
    let cut = bytes_before(field, 45);
    if cut == field.len() {
        match parsed_number(field) {
            Some(only) => Some((only, only)),
            None => None,
        }
    } else {
        match (parsed_number(field.take(cut as int)), parsed_number(field.skip(cut as int + 1))) {
            (Some(low), Some(high)) => Some((low, high)),
            _ => None,
        }
    }
}

/// The lowest id from `low` to `high` that is not `id`, if there is one.
pub open spec fn first_other_in_range(low: usize, high: usize, id: usize) -> Option<usize> {
    if low > high {
        None
    } else if low != id {
        Some(low)
    } else if low < high {
        Some((low + 1) as usize)
    } else {
        None
    }
}

/// The first id other than `id` that one field of a list refers to.
pub open spec fn field_reference(field: Seq<u8>, id: usize) -> Option<usize> {
    match field_range(field) {
        Some((low, high)) => first_other_in_range(low, high, id),
        None => None,
    }
}

/// The first id other than `id` that the list `text` refers to. The fields of
/// the list are separated by commas; each is a number or a range of numbers.
/// Fields that stand for no id are passed over.
pub open spec fn first_other_id(text: Seq<u8>, id: usize) -> Option<usize>
    decreases text.len(),
{
    let len = bytes_before(text, 44);
    let field = field_reference(text.take(len as int), id);
    if field is Some {
        field
    } else if len < text.len() {
        first_other_id(text.skip(len as int + 1), id)
    } else {
        None
    }
}

/// The SMT sibling of logical core `id` according to the text of its list of
/// thread siblings, in which the siblings stand as numbers and as ranges: the
/// first id that the list refers to other than `id`, and `id` itself where
/// there is none or the list could not be read.
pub open spec fn sibling_of(list: Option<Seq<u8>>, id: usize) -> usize {
    match list {
        Some(text) => match first_other_id(trimmed(text), id) {
            Some(other) => other,
            None => id,
        },
        None => id,
    }
}

/// The bytes of `pattern` stand in `text` from index `at` on.
pub open spec fn occurs_at(text: Seq<u8>, pattern: Seq<u8>, at: int) -> bool {
    0 <= at && at + pattern.len() <= text.len() && text.subrange(at, at + pattern.len())
        == pattern
}

/// `text` holds the bytes of `pattern` in a row.
pub open spec fn contains_bytes(text: Seq<u8>, pattern: Seq<u8>) -> bool {
    exists|at: int| occurs_at(text, pattern, at)
}

/// `text` begins with the bytes of `prefix`.
pub open spec fn starts_with_bytes(text: Seq<u8>, prefix: Seq<u8>) -> bool {
    prefix.len() <= text.len() && text.subrange(0, prefix.len() as int) == prefix
}

/// The count of bytes before the first `stop`, for a text that begins with
/// `len` other bytes and goes on with `stop` or ends there.
pub proof fn lemma_bytes_before(text: Seq<u8>, stop: u8, len: int)
    requires
        0 <= len <= text.len(),
        forall|i: int| 0 <= i < len ==> text[i] != stop,
        len < text.len() ==> text[len] == stop,
    ensures
        bytes_before(text, stop) == len,
    decreases len,
{
    if len > 0 {
        let rest = text.drop_first();
        assert forall|i: int| 0 <= i < len - 1 implies rest[i] != stop by {
            assert(rest[i] == text[i + 1]);
        }
        if len < text.len() {
            assert(rest[len - 1] == text[len]);
        }
        lemma_bytes_before(rest, stop, len - 1);
    }
}

/// The digits read so far never write more than all the digits do.
pub proof fn lemma_decimal_prefix(text: Seq<u8>, count: int)
    requires
        0 <= count <= text.len(),
    ensures
        decimal_value(text.take(count)) <= decimal_value(text),
    decreases text.len(),
{
    if count == text.len() {
        assert(text.take(count) =~= text);
    } else {
        assert(text.drop_last().take(count) =~= text.take(count));
        lemma_decimal_prefix(text.drop_last(), count);
    }
}

/// Whether `byte` is white space of one byte.
pub fn is_space_byte(byte: u8) -> (space: bool)
    ensures
        space == is_space(byte),
{
    byte == 32 || (9 <= byte && byte <= 13)
}

/// Whether the three bytes are one white-space character.
fn is_wide_space(first: u8, second: u8, third: u8) -> (space: bool)
    ensures
        space == is_three_byte_space(first, second, third),
{
    (first == 0xE1 && second == 0x9A && third == 0x80) || (first == 0xE2 && second == 0x80 && ((
    0x80 <= third && third <= 0x8A) || third == 0xA8 || third == 0xA9 || third == 0xAF)) || (first
        == 0xE2 && second == 0x81 && third == 0x9F) || (first == 0xE3 && second == 0x80 && third
        == 0x80)
}

/// Number of bytes of the white-space character with which `text[at..end]`
/// begins.
fn space_len_from(text: &[u8], at: usize, end: usize) -> (len: usize)
    requires
        at <= end <= text@.len(),
    ensures
        len == space_at_start(text@.subrange(at as int, end as int)),
        at + len <= end,
{
    let ghost part = text@.subrange(at as int, end as int);
    let left = end - at;
    proof {
        if left >= 1 {
            assert(part[0] == text@[at as int]);
        }
        if left >= 2 {
            assert(part[1] == text@[at + 1]);
        }
        if left >= 3 {
            assert(part[2] == text@[at + 2]);
        }
    }
    if left >= 1 && is_space_byte(text[at]) {
        1
    } else if left >= 2 && text[at] == 0xC2 && (text[at + 1] == 0x85 || text[at + 1] == 0xA0) {
        2
    } else if left >= 3 && is_wide_space(text[at], text[at + 1], text[at + 2]) {
        3
    } else {
        0
    }
}

/// Number of bytes of the white-space character with which `text[start..at]`
/// ends.
fn space_len_until(text: &[u8], start: usize, at: usize) -> (len: usize)
    requires
        start <= at <= text@.len(),
    ensures
        len == space_at_end(text@.subrange(start as int, at as int)),
        start + len <= at,
{
    let ghost part = text@.subrange(start as int, at as int);
    let left = at - start;
    proof {
        if left >= 1 {
            assert(part[left - 1] == text@[at - 1]);
        }
        if left >= 2 {
            assert(part[left - 2] == text@[at - 2]);
        }
        if left >= 3 {
            assert(part[left - 3] == text@[at - 3]);
        }
    }
    if left >= 1 && is_space_byte(text[at - 1]) {
        1
    } else if left >= 2 && text[at - 2] == 0xC2 && (text[at - 1] == 0x85 || text[at - 1] == 0xA0) {
        2
    } else if left >= 3 && is_wide_space(text[at - 3], text[at - 2], text[at - 1]) {
        3
    } else {
        0
    }
}

/// Where the text without the white space at its ends starts and stops in
/// `text`.
pub fn trim(text: &[u8]) -> (bounds: (usize, usize))
    ensures
        bounds.0 <= bounds.1 <= text@.len(),
        text@.subrange(bounds.0 as int, bounds.1 as int) == trimmed(text@),
{
    let len = text.len();
    let mut start: usize = 0;
    proof {
        assert(text@.skip(0) =~= text@);
    }
    loop
        invariant
            start <= len,
            len == text@.len(),
            leading_spaces(text@) == start + leading_spaces(text@.skip(start as int)),
        ensures
            start <= len,
            leading_spaces(text@) == start,
        decreases len - start,
    {
        let first = space_len_from(text, start, len);
        proof {
            assert(text@.subrange(start as int, len as int) =~= text@.skip(start as int));
            assert(text@.skip(start as int).skip(first as int) =~= text@.skip(start + first));
        }
        if first == 0 {
            break ;
        }
        start += first;
    }
    let ghost rest = text@.skip(start as int);
    let mut end: usize = len;
    proof {
        assert(rest.take(len - start) =~= rest);
    }
    loop
        invariant
            start <= end <= len,
            len == text@.len(),
            rest == text@.skip(start as int),
            trailing_spaces(rest) == (len - end) + trailing_spaces(rest.take(end - start)),
        ensures
            start <= end <= len,
            trailing_spaces(rest) == len - end,
        decreases end,
    {
        let last = space_len_until(text, start, end);
        proof {
            assert(text@.subrange(start as int, end as int) =~= rest.take(end - start));
            assert(rest.take(end - start).take(end - start - last) =~= rest.take(
                end - last - start,
            ));
        }
        if last == 0 {
            break ;
        }
        end -= last;
    }
    proof {
        assert(text@.subrange(start as int, end as int) =~= rest.take(
            rest.len() - trailing_spaces(rest),
        ));
    }
    (start, end)
}

/// Where the first byte `stop` stands in `text[from..to]`; `to` where there is
/// none.
fn scan_until(text: &[u8], from: usize, to: usize, stop: u8) -> (at: usize)
    requires
        from <= to <= text@.len(),
    ensures
        from <= at <= to,
        at - from == bytes_before(text@.subrange(from as int, to as int), stop),
{
    let ghost part = text@.subrange(from as int, to as int);
    let mut at: usize = from;
    while at < to && text[at] != stop
        invariant
            from <= at <= to <= text@.len(),
            part == text@.subrange(from as int, to as int),
            forall|i: int| 0 <= i < at - from ==> part[i] != stop,
        decreases to - at,
    {
        proof {
            assert(part[at - from] == text@[at as int]);
        }
        at += 1;
    }
    proof {
        if at < to {
            assert(part[at - from] == text@[at as int]);
        }
        lemma_bytes_before(part, stop, at - from);
    }
    at
}

/// The number that `text` writes, if it writes one.
pub fn parse_number(text: &[u8]) -> (number: Option<usize>)
    ensures
        number == parsed_number(text@),
{
    assert(text@.subrange(0, text@.len() as int) =~= text@);
    parse_number_in(text, 0, text.len())
}

/// The number that the bytes `text[from..to]` write, if they write one.
pub(crate) fn parse_number_in(text: &[u8], from: usize, to: usize) -> (number: Option<usize>)
    requires
        from <= to <= text@.len(),
    ensures
        number == parsed_number(text@.subrange(from as int, to as int)),
{
    let ghost field = text@.subrange(from as int, to as int);
    let first: usize = if from < to && text[from] == 43 {
        from + 1
    } else {
        from
    };
    let ghost digits = text@.subrange(first as int, to as int);
    proof {
        if first > from {
            assert(field[0] == 43);
            assert(field.drop_first() =~= digits);
        } else {
            assert(field =~= digits);
            if field.len() > 0 {
                assert(field[0] == text@[from as int]);
            }
        }
    }
    if first == to {
        return None;
    }
    let mut value: usize = 0;
    let mut i: usize = first;
    let ghost expected = parsed_number(field);
    proof {
        assert(digits.take(0).len() == 0);
    }
    while i < to
        invariant
            first <= i <= to,
            to <= text@.len(),
            digits == text@.subrange(first as int, to as int),
            expected == parsed_number(text@.subrange(from as int, to as int)),
            expected == if all_digits(digits) && decimal_value(digits) <= usize::MAX {
                Some(decimal_value(digits) as usize)
            } else {
                None
            },
            all_digits(digits.take(i - first)),
            value == decimal_value(digits.take(i - first)),
        ensures
            i == to,
        decreases to - i,
    {
        let byte = text[i];
        proof {
            assert(digits[i - first] == byte);
            assert(digits.take(i - first + 1).drop_last() =~= digits.take(i - first));
            assert(digits.take(i - first + 1).last() == byte);
            assert(decimal_value(digits.take(i - first + 1)) == value * 10 + digit_value(byte));
            lemma_decimal_prefix(digits, i - first + 1);
        }
        if !(48 <= byte && byte <= 57) {
            assert(!is_digit(digits[i - first]));
            return None;
        }
        let digit: usize = (byte - 48) as usize;
        let shifted = match value.checked_mul(10) {
            Some(shifted) => shifted,
            None => {
                return None;
            },
        };
        let next = match shifted.checked_add(digit) {
            Some(next) => next,
            None => {
                return None;
            },
        };
        proof {
            let longer = digits.take(i - first + 1);
            assert forall|k: int| 0 <= k < longer.len() implies is_digit(longer[k]) by {
                if k < i - first {
                    assert(digits.take(i - first)[k] == longer[k]);
                }
            }
        }
        value = next;
        i += 1;
    }
    proof {
        assert(digits.take(to - first) =~= digits);
    }
    Some(value)
}

/// The number that `text` writes between the white space at its ends, if it
/// writes one.
pub fn parse_trimmed_number(text: &[u8]) -> (number: Option<usize>)
    ensures
        number == parsed_number(trimmed(text@)),
{
    let (start, end) = trim(text);
    parse_number_in(text, start, end)
}

/// Whether `text` is the digit 1 between the white space at its ends.
pub fn reads_as_one(text: &[u8]) -> (one: bool)
    ensures
        one == (trimmed(text@) == seq![49u8]),
{
    let (start, end) = trim(text);
    proof {
        let inner = text@.subrange(start as int, end as int);
        if end - start == 1 {
            assert(inner[0] == text@[start as int]);
            if text@[start as int] == 49 {
                assert(inner =~= seq![49u8]);
            } else {
                assert(seq![49u8][0] == 49u8);
            }
        } else {
            assert(seq![49u8].len() == 1);
        }
    }
    end - start == 1 && text[start] == 49
}

/// The ids that the field `text[from..to]` of a list stands for, as their
/// lowest and their highest.
fn parse_range_in(text: &[u8], from: usize, to: usize) -> (range: Option<(usize, usize)>)
    requires
        from <= to <= text@.len(),
    ensures
        range == field_range(text@.subrange(from as int, to as int)),
{
    let ghost field = text@.subrange(from as int, to as int);
    let hyphen = scan_until(text, from, to, 45);
    if hyphen == to {
        match parse_number_in(text, from, to) {
            Some(only) => Some((only, only)),
            None => None,
        }
    } else {
        proof {
            assert(field.take(hyphen - from) =~= text@.subrange(from as int, hyphen as int));
            assert(field.skip(hyphen - from + 1) =~= text@.subrange(hyphen + 1, to as int));
        }
        let low = parse_number_in(text, from, hyphen);
        let high = parse_number_in(text, hyphen + 1, to);
        match (low, high) {
            (Some(low), Some(high)) => Some((low, high)),
            _ => None,
        }
    }
}

/// The lowest id from `low` to `high` that is not `id`, if there is one.
pub fn other_in_range(low: usize, high: usize, id: usize) -> (other: Option<usize>)
    ensures
        other == first_other_in_range(low, high, id),
{
    if low > high {
        None
    } else if low != id {
        Some(low)
    } else if low < high {
        Some(low + 1)
    } else {
        None
    }
}

/// The SMT sibling of logical core `id` according to the text of its list of
/// thread siblings.
pub fn parse_sibling(list: &[u8], id: usize) -> (sibling: usize)
    ensures
        sibling == sibling_of(Some(list@), id),
{
    let (start, end) = trim(list);
    let ghost inner = list@.subrange(start as int, end as int);
    let mut at: usize = start;
    proof {
        assert(inner.skip(0) =~= inner);
    }
    loop
        invariant
            start <= at <= end <= list@.len(),
            inner == list@.subrange(start as int, end as int),
            inner == trimmed(list@),
            first_other_id(inner, id) == first_other_id(inner.skip(at - start), id),
        decreases end - at,
    {
        let ghost rest = inner.skip(at - start);
        let stop = scan_until(list, at, end, 44);
        proof {
            assert(rest =~= list@.subrange(at as int, end as int));
            assert(rest.take(stop - at) =~= list@.subrange(at as int, stop as int));
        }
        let found = match parse_range_in(list, at, stop) {
            Some((low, high)) => other_in_range(low, high, id),
            None => None,
        };
        match found {
            Some(other) => {
                return other;
            },
            None => {},
        }
        if stop >= end {
            return id;
        }
        proof {
            assert(rest.skip(stop - at + 1) =~= inner.skip(stop + 1 - start));
        }
        at = stop + 1;
    }
}

/// Whether `text` holds the bytes of `pattern` in a row.
pub fn contains_pattern(text: &[u8], pattern: &[u8]) -> (found: bool)
    ensures
        found == contains_bytes(text@, pattern@),
{
    let text_len = text.len();
    let pattern_len = pattern.len();
    if pattern_len > text_len {
        return false;
    }
    let last: usize = text_len - pattern_len;
    let mut at: usize = 0;
    loop
        invariant
            pattern_len <= text_len,
            text_len == text@.len(),
            pattern_len == pattern@.len(),
            last == text_len - pattern_len,
            at <= last,
            forall|k: int| 0 <= k < at ==> !occurs_at(text@, pattern@, k),
        decreases last - at,
    {
        if matches_at(text, at, pattern) {
            assert(occurs_at(text@, pattern@, at as int));
            return true;
        }
        if at == last {
            return false;
        }
        at += 1;
    }
}

/// Whether `text` begins with the bytes of `prefix`.
pub fn starts_with(text: &[u8], prefix: &[u8]) -> (found: bool)
    ensures
        found == starts_with_bytes(text@, prefix@),
{
    if prefix.len() > text.len() {
        return false;
    }
    matches_at(text, 0, prefix)
}

/// Whether the bytes of `pattern` stand in `text` from index `at` on.
fn matches_at(text: &[u8], at: usize, pattern: &[u8]) -> (same: bool)
    requires
        at + pattern@.len() <= text@.len(),
    ensures
        same == (text@.subrange(at as int, at + pattern@.len()) == pattern@),
{
    let ghost window = text@.subrange(at as int, at + pattern@.len());
    let text_len = text.len();
    let mut i: usize = 0;
    while i < pattern.len()
        invariant
            i <= pattern@.len(),
            text_len == text@.len(),
            at + pattern@.len() <= text@.len(),
            window == text@.subrange(at as int, at + pattern@.len()),
            forall|k: int| 0 <= k < i ==> window[k] == pattern@[k],
        decreases pattern@.len() - i,
    {
        if text[at + i] != pattern[i] {
            proof {
                assert(window[i as int] == text@[at + i]);
            }
            return false;
        }
        proof {
            assert(window[i as int] == text@[at + i]);
        }
        i += 1;
    }
    proof {
        assert(window =~= pattern@);
    }
    true
}

} // verus!
