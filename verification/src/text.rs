//! Text as a sequence of characters: joining, numbering, searching and case.

use vstd::prelude::*;
use vstd::string::{StrSliceExecFns, StringExecFns};

verus! {

/// `String::push` appends one character.
pub assume_specification[ String::push ](text: &mut String, character: char)
    ensures
        final(text)@ == old(text)@.push(character),
;

/// The upper-case form of a text, as `str::to_uppercase` gives it.
pub uninterp spec fn uppercase_text(text: Seq<char>) -> Seq<char>;

/// `str::to_uppercase`: the Unicode upper-case form, which the argument alone decides.
#[verifier::external_body]
pub(crate) fn to_uppercase(text: &str) -> (result: String)
    ensures
        result@ == uppercase_text(text@),
{
    text.to_uppercase()
}

/// The lower-case form of a text, as `str::to_lowercase` gives it.
pub uninterp spec fn lowercase_text(text: Seq<char>) -> Seq<char>;

/// `str::to_lowercase`: the Unicode lower-case form, which the argument alone decides.
#[verifier::external_body]
pub(crate) fn to_lowercase(text: &str) -> (result: String)
    ensures
        result@ == lowercase_text(text@),
{
    text.to_lowercase()
}

/// The text that bytes stand for once every ill-formed run is replaced, as
/// `String::from_utf8_lossy` gives it.
pub uninterp spec fn lossy_text(bytes: Seq<u8>) -> Seq<char>;

/// `String::from_utf8_lossy`: a text for any bytes, which the bytes alone decide.
#[verifier::external_body]
pub(crate) fn from_utf8_lossy(bytes: &[u8]) -> (result: String)
    ensures
        result@ == lossy_text(bytes@),
{
    String::from_utf8_lossy(bytes).into_owned()
}

/// The characters of `text`, one after another.
pub(crate) fn characters(text: &str) -> (result: Vec<char>)
    ensures
        result@ == text@,
{
    let mut result: Vec<char> = Vec::new();
    for c in it: text.chars()
        invariant
            it.seq() == text@,
            result@ == text@.take(it.index() as int),
    {
        result.push(c);
        assert(text@.take(it.index() + 1) == text@.take(it.index() as int).push(c));
    }
    assert(text@.take(text@.len() as int) == text@);
    result
}

/// Whether two texts hold the same characters.
pub fn same_text(left: &str, right: &str) -> (result: bool)
    ensures
        result == (left@ == right@),
{
    left.to_owned() == right.to_owned()
}

/// The text inside an optional text.
pub open spec fn opt_text(text: Option<String>) -> Option<Seq<char>> {
    match text {
        Some(text) => Some(text@),
        None => None,
    }
}

/// The text inside an optional borrowed text.
pub open spec fn opt_str(text: Option<&str>) -> Option<Seq<char>> {
    match text {
        Some(text) => Some(text@),
        None => None,
    }
}

/// Whether two optional texts are both absent or hold the same characters.
pub fn same_optional_text(left: Option<&str>, right: Option<&str>) -> (result: bool)
    ensures
        result == (opt_str(left) == opt_str(right)),
{
    match (left, right) {
        (Some(left), Some(right)) => same_text(left, right),
        (None, None) => true,
        _ => false,
    }
}

/// The borrowed form of an optional text.
pub(crate) fn borrowed(text: &Option<String>) -> (result: Option<&str>)
    ensures
        opt_str(result) == opt_text(*text),
{
    match text {
        Some(text) => Some(text.as_str()),
        None => None,
    }
}

/// A second optional text with the same characters.
pub(crate) fn copied(text: &Option<String>) -> (result: Option<String>)
    ensures
        opt_text(result) == opt_text(*text),
{
    match text {
        Some(text) => Some(text.as_str().to_owned()),
        None => None,
    }
}

/// The texts of a list of strings.
pub open spec fn texts(strings: Seq<String>) -> Seq<Seq<char>> {
    strings.map_values(|string: String| string@)
}

/// The texts of a list of borrowed strings.
pub open spec fn strs(strings: Seq<&str>) -> Seq<Seq<char>> {
    strings.map_values(|string: &str| string@)
}

// Joining.

/// The texts one after another with `separator` between each two.
pub open spec fn joined(parts: Seq<Seq<char>>, separator: Seq<char>) -> Seq<char>
    decreases parts.len(),
{
    if parts.len() == 0 {
        Seq::empty()
    } else if parts.len() == 1 {
        parts[0]
    } else {
        joined(parts.drop_last(), separator) + separator + parts.last()
    }
}

/// Joins strings with `separator` between each two.
pub fn join(parts: &[String], separator: &str) -> (result: String)
    ensures
        result@ == joined(texts(parts@), separator@),
{
    let mut result = String::new();
    let mut i: usize = 0;
    while i < parts.len()
        invariant
            0 <= i <= parts.len(),
            result@ == joined(texts(parts@.take(i as int)), separator@),
        decreases parts.len() - i,
    {
        if i > 0 {
            result.append(separator);
        }
        result.append(parts[i].as_str());
        proof {
            let longer = texts(parts@.take(i + 1));
            assert(longer.drop_last() =~= texts(parts@.take(i as int)));
            assert(longer.last() == parts@[i as int]@);
            if i == 0 {
                assert(result@ =~= parts@[0]@);
            }
        }
        i = i + 1;
    }
    assert(parts@.take(parts@.len() as int) == parts@);
    result
}

// Numbers.

/// The character of a decimal digit.
pub open spec fn digit_char(digit: nat) -> char {
    if digit == 0 {
        '0'
    } else if digit == 1 {
        '1'
    } else if digit == 2 {
        '2'
    } else if digit == 3 {
        '3'
    } else if digit == 4 {
        '4'
    } else if digit == 5 {
        '5'
    } else if digit == 6 {
        '6'
    } else if digit == 7 {
        '7'
    } else if digit == 8 {
        '8'
    } else {
        '9'
    }
}

/// A number in decimal, without leading zeros.
pub open spec fn decimal(number: nat) -> Seq<char>
    decreases number,
{
    if number < 10 {
        seq![digit_char(number)]
    } else {
        decimal(number / 10).push(digit_char(number % 10))
    }
}

fn digit(value: u64) -> (result: char)
    requires
        value < 10,
    ensures
        result == digit_char(value as nat),
{
    match value {
        0 => '0',
        1 => '1',
        2 => '2',
        3 => '3',
        4 => '4',
        5 => '5',
        6 => '6',
        7 => '7',
        8 => '8',
        _ => '9',
    }
}

/// Writes a number in decimal.
pub fn number_text(number: u64) -> (result: String)
    ensures
        result@ == decimal(number as nat),
    decreases number,
{
    if number < 10 {
        let mut result = String::new();
        result.push(digit(number));
        assert(result@ =~= seq![digit_char(number as nat)]);
        result
    } else {
        let mut result = number_text(number / 10);
        result.push(digit(number % 10));
        result
    }
}

/// The value of a decimal digit, for any other character `None`.
pub open spec fn digit_value(character: char) -> Option<nat> {
    if '0' <= character && character <= '9' {
        Some((character as nat - '0' as nat) as nat)
    } else {
        None
    }
}

/// The number that a run of decimal digits stands for; `None` where it holds
/// anything else. No digits at all stand for zero.
pub open spec fn digits_value(digits: Seq<char>) -> Option<nat>
    decreases digits.len(),
{
    if digits.len() == 0 {
        Some(0)
    } else {
        match (digits_value(digits.drop_last()), digit_value(digits.last())) {
            (Some(high), Some(low)) => Some(high * 10 + low),
            _ => None,
        }
    }
}

/// The digits of a written number: what follows an optional plus sign.
pub open spec fn number_digits(text: Seq<char>) -> Seq<char> {
    if text.len() > 0 && text[0] == '+' {
        text.skip(1)
    } else {
        text
    }
}

/// The number a text stands for, if it is an optional plus sign and at least one
/// decimal digit and the number is at most `limit`.
pub open spec fn parsed(text: Seq<char>, limit: nat) -> Option<nat> {
    if number_digits(text).len() == 0 {
        None
    } else {
        match digits_value(number_digits(text)) {
            Some(value) if value <= limit => Some(value),
            _ => None,
        }
    }
}

proof fn lemma_digits_prefix(digits: Seq<char>, shorter: int)
    requires
        0 <= shorter <= digits.len(),
    ensures
        digits_value(digits) is Some ==> {
            &&& digits_value(digits.take(shorter)) is Some
            &&& digits_value(digits.take(shorter))->0 <= digits_value(digits)->0
        },
    decreases digits.len(),
{
    if shorter == digits.len() {
        assert(digits.take(shorter) == digits);
    } else {
        lemma_digits_prefix(digits.drop_last(), shorter);
        assert(digits.drop_last().take(shorter) == digits.take(shorter));
    }
}

/// Reads a decimal number of at most `limit`.
pub fn parse_number(text: &str, limit: u64) -> (result: Option<u64>)
    ensures
        match result {
            Some(value) => parsed(text@, limit as nat) == Some(value as nat),
            None => parsed(text@, limit as nat) is None,
        },
{
    let chars: Vec<char> = characters(text);
    let start: usize = if chars.len() > 0 && chars[0] == '+' {
        1
    } else {
        0
    };
    if chars.len() == start {
        return None;
    }
    let ghost digits = number_digits(text@);
    assert(digits =~= text@.skip(start as int));
    let mut value: u64 = 0;
    let mut i: usize = start;
    assert(digits.take(0) =~= Seq::empty());
    while i < chars.len()
        invariant
            start <= i <= chars.len(),
            chars@ == text@,
            digits == text@.skip(start as int),
            digits == number_digits(text@),
            digits.len() > 0,
            digits_value(digits.take(i - start)) == Some(value as nat),
            value <= limit,
        decreases chars.len() - i,
    {
        let c: char = chars[i];
        let ghost seen = (i - start) as int;
        proof {
            lemma_digits_prefix(digits, seen + 1);
            assert(digits.take(seen + 1).drop_last() =~= digits.take(seen));
            assert(digits.take(seen + 1).last() == c);
            assert(digits.take(digits.len() as int) =~= digits);
        }
        if c < '0' || '9' < c {
            return None;
        }
        let low: u64 = (c as u32 - '0' as u32) as u64;
        match value.checked_mul(10) {
            None => return None,
            Some(shifted) => match shifted.checked_add(low) {
                None => return None,
                Some(next) => {
                    if next > limit {
                        return None;
                    }
                    value = next;
                },
            },
        }
        i = i + 1;
    }
    assert(digits.take(digits.len() as int) =~= digits);
    Some(value)
}

// Case.

/// Whether a character is an ASCII lower-case letter.
pub open spec fn is_lower(character: char) -> bool {
    'a' <= character && character <= 'z'
}

/// Whether a character is an ASCII upper-case letter.
pub open spec fn is_upper(character: char) -> bool {
    'A' <= character && character <= 'Z'
}

/// A character with an ASCII upper-case letter made lower-case.
pub open spec fn ascii_lower_char(character: char) -> char {
    if is_upper(character) {
        ((character as u8 + 32) as u8) as char
    } else {
        character
    }
}

/// A character with an ASCII lower-case letter made upper-case.
pub open spec fn ascii_upper_char(character: char) -> char {
    if is_lower(character) {
        ((character as u8 - 32) as u8) as char
    } else {
        character
    }
}

/// A text with its ASCII letters made lower-case.
pub open spec fn ascii_lower(text: Seq<char>) -> Seq<char> {
    text.map_values(|character: char| ascii_lower_char(character))
}

/// A text with its ASCII letters made upper-case.
pub open spec fn ascii_upper(text: Seq<char>) -> Seq<char> {
    text.map_values(|character: char| ascii_upper_char(character))
}

/// Makes the ASCII letters of a text lower-case.
pub fn to_ascii_lowercase(text: &str) -> (result: String)
    ensures
        result@ == ascii_lower(text@),
{
    let chars: Vec<char> = characters(text);
    let mut result = String::new();
    let mut i: usize = 0;
    while i < chars.len()
        invariant
            0 <= i <= chars.len(),
            chars@ == text@,
            result@ == ascii_lower(text@.take(i as int)),
        decreases chars.len() - i,
    {
        let c: char = chars[i];
        if 'A' <= c && c <= 'Z' {
            result.push((c as u8 + 32) as char);
        } else {
            result.push(c);
        }
        assert(result@ =~= ascii_lower(text@.take(i + 1)));
        i = i + 1;
    }
    assert(text@.take(text@.len() as int) == text@);
    result
}

/// Makes the ASCII letters of a text upper-case.
pub fn to_ascii_uppercase(text: &str) -> (result: String)
    ensures
        result@ == ascii_upper(text@),
{
    let chars: Vec<char> = characters(text);
    let mut result = String::new();
    let mut i: usize = 0;
    while i < chars.len()
        invariant
            0 <= i <= chars.len(),
            chars@ == text@,
            result@ == ascii_upper(text@.take(i as int)),
        decreases chars.len() - i,
    {
        let c: char = chars[i];
        if 'a' <= c && c <= 'z' {
            result.push((c as u8 - 32) as char);
        } else {
            result.push(c);
        }
        assert(result@ =~= ascii_upper(text@.take(i + 1)));
        i = i + 1;
    }
    assert(text@.take(text@.len() as int) == text@);
    result
}

/// Whether two texts differ at most in the case of ASCII letters.
pub fn same_ignoring_case(left: &str, right: &str) -> (result: bool)
    ensures
        result == (ascii_lower(left@) == ascii_lower(right@)),
{
    to_ascii_lowercase(left) == to_ascii_lowercase(right)
}

// Searching.

/// Whether `part` occurs in `text` at position `at`.
pub open spec fn occurs_at(text: Seq<char>, part: Seq<char>, at: int) -> bool {
    0 <= at && at + part.len() <= text.len() && text.subrange(at, at + part.len()) == part
}

/// Whether `part` occurs anywhere in `text`.
pub open spec fn occurs(text: Seq<char>, part: Seq<char>) -> bool {
    exists|at: int| occurs_at(text, part, at)
}

/// Whether `text` begins with `prefix`.
pub open spec fn begins_with(text: Seq<char>, prefix: Seq<char>) -> bool {
    occurs_at(text, prefix, 0)
}

fn part_at(text: &Vec<char>, part: &Vec<char>, at: usize) -> (result: bool)
    requires
        at <= text.len(),
    ensures
        result == occurs_at(text@, part@, at as int),
{
    if part.len() > text.len() - at {
        return false;
    }
    let mut i: usize = 0;
    while i < part.len()
        invariant
            0 <= i <= part.len(),
            at + part.len() <= text.len(),
            forall|k: int| 0 <= k < i ==> text@[at + k] == part@[k],
        decreases part.len() - i,
    {
        if text[at + i] != part[i] {
            assert(text@.subrange(at as int, at + part.len())[i as int] != part@[i as int]);
            return false;
        }
        i = i + 1;
    }
    assert(text@.subrange(at as int, at + part.len()) =~= part@);
    true
}

/// Whether `part` occurs anywhere in `text`.
pub fn contains(text: &str, part: &str) -> (result: bool)
    ensures
        result == occurs(text@, part@),
{
    let text_chars: Vec<char> = characters(text);
    let part_chars: Vec<char> = characters(part);
    let mut at: usize = 0;
    while at < text_chars.len()
        invariant
            0 <= at <= text_chars.len(),
            text_chars@ == text@,
            part_chars@ == part@,
            forall|k: int| 0 <= k < at ==> !occurs_at(text@, part@, k),
        decreases text_chars.len() - at,
    {
        if part_at(&text_chars, &part_chars, at) {
            return true;
        }
        at = at + 1;
    }
    part_at(&text_chars, &part_chars, at)
}

/// Whether `text` begins with `prefix`.
pub fn starts_with(text: &str, prefix: &str) -> (result: bool)
    ensures
        result == begins_with(text@, prefix@),
{
    part_at(&characters(text), &characters(prefix), 0)
}

/// What follows `prefix`, where `text` begins with it.
pub fn strip_prefix<'a>(text: &'a str, prefix: &str) -> (result: Option<&'a str>)
    ensures
        match result {
            Some(rest) => begins_with(text@, prefix@) && rest@ == text@.skip(
                prefix@.len() as int,
            ),
            None => !begins_with(text@, prefix@),
        },
{
    if starts_with(text, prefix) {
        let rest = text.substring_char(prefix.unicode_len(), text.unicode_len());
        assert(rest@ =~= text@.skip(prefix@.len() as int));
        Some(rest)
    } else {
        None
    }
}

// Pieces.

/// The pieces of a text between the occurrences of a separating character: one more
/// than there are separators.
pub open spec fn pieces(text: Seq<char>, separator: char) -> Seq<Seq<char>>
    decreases text.len(),
{
    if text.len() == 0 {
        seq![Seq::empty()]
    } else {
        let before = pieces(text.drop_last(), separator);
        if text.last() == separator {
            before.push(Seq::empty())
        } else {
            before.drop_last().push(before.last().push(text.last()))
        }
    }
}

/// Splits a text at a separating character.
pub fn split(text: &str, separator: char) -> (result: Vec<String>)
    ensures
        texts(result@) == pieces(text@, separator),
{
    let chars: Vec<char> = characters(text);
    let mut result: Vec<String> = Vec::new();
    let mut piece = String::new();
    let mut i: usize = 0;
    assert(text@.take(0) =~= Seq::empty());
    assert(texts(result@).push(piece@) =~= pieces(text@.take(0), separator));
    while i < chars.len()
        invariant
            0 <= i <= chars.len(),
            chars@ == text@,
            texts(result@).push(piece@) == pieces(text@.take(i as int), separator),
        decreases chars.len() - i,
    {
        let c: char = chars[i];
        let ghost before = pieces(text@.take(i as int), separator);
        let ghost old_result = result@;
        let ghost old_piece = piece@;
        proof {
            assert(text@.take(i + 1).drop_last() =~= text@.take(i as int));
            assert(text@.take(i + 1).last() == c);
            assert(before.drop_last() =~= texts(old_result));
            assert(before.last() == old_piece);
        }
        if c == separator {
            result.push(piece);
            piece = String::new();
            assert(texts(result@) =~= texts(old_result).push(old_piece));
            assert(texts(result@).push(piece@) =~= before.push(Seq::empty()));
        } else {
            piece.push(c);
            assert(texts(result@).push(piece@) =~= before.drop_last().push(
                before.last().push(c),
            ));
        }
        i = i + 1;
    }
    let ghost last = piece@;
    let ghost front = result@;
    result.push(piece);
    proof {
        assert(texts(result@) =~= texts(front).push(last));
        assert(text@.take(text@.len() as int) =~= text@);
    }
    result
}

/// Whether a separated list names `item`.
pub open spec fn lists(list: Seq<char>, separator: char, item: Seq<char>) -> bool {
    pieces(list, separator).contains(item)
}

/// Whether a list of strings holds a text.
pub(crate) fn holds(strings: &[String], item: &str) -> (result: bool)
    ensures
        result == texts(strings@).contains(item@),
{
    let mut i: usize = 0;
    while i < strings.len()
        invariant
            0 <= i <= strings.len(),
            forall|k: int| 0 <= k < i ==> strings@[k]@ != item@,
        decreases strings.len() - i,
    {
        if same_text(strings[i].as_str(), item) {
            assert(texts(strings@)[i as int] == item@);
            return true;
        }
        i = i + 1;
    }
    false
}

// White space.

/// Whether a character is white space, by the Unicode property of that name.
pub open spec fn is_white(character: char) -> bool {
    let code = character as u32;
    ||| 0x9 <= code <= 0xd
    ||| code == 0x20
    ||| code == 0x85
    ||| code == 0xa0
    ||| code == 0x1680
    ||| 0x2000 <= code <= 0x200a
    ||| code == 0x2028
    ||| code == 0x2029
    ||| code == 0x202f
    ||| code == 0x205f
    ||| code == 0x3000
}

fn white(character: char) -> (result: bool)
    ensures
        result == is_white(character),
{
    let code: u32 = character as u32;
    (0x9 <= code && code <= 0xd) || code == 0x20 || code == 0x85 || code == 0xa0 || code == 0x1680
        || (0x2000 <= code && code <= 0x200a) || code == 0x2028 || code == 0x2029 || code == 0x202f
        || code == 0x205f || code == 0x3000
}

/// A text without the white space at its start.
pub open spec fn trimmed_start(text: Seq<char>) -> Seq<char>
    decreases text.len(),
{
    if text.len() > 0 && is_white(text[0]) {
        trimmed_start(text.skip(1))
    } else {
        text
    }
}

/// A text without the white space at its end.
pub open spec fn trimmed_end(text: Seq<char>) -> Seq<char>
    decreases text.len(),
{
    if text.len() > 0 && is_white(text.last()) {
        trimmed_end(text.drop_last())
    } else {
        text
    }
}

/// A text without the white space at either end.
pub open spec fn trimmed(text: Seq<char>) -> Seq<char> {
    trimmed_end(trimmed_start(text))
}

/// Drops the white space at both ends of a text.
pub fn trim(text: &str) -> (result: &str)
    ensures
        result@ == trimmed(text@),
{
    let chars: Vec<char> = characters(text);
    let mut start: usize = 0;
    assert(text@.skip(0) =~= text@);
    while start < chars.len() && white(chars[start])
        invariant
            0 <= start <= chars.len(),
            chars@ == text@,
            trimmed_start(text@) == trimmed_start(text@.skip(start as int)),
        decreases chars.len() - start,
    {
        assert(text@.skip(start as int).skip(1) =~= text@.skip(start + 1));
        start = start + 1;
    }
    let ghost middle = text@.skip(start as int);
    assert(trimmed_start(text@) == middle);
    let mut end: usize = chars.len();
    assert(text@.subrange(start as int, end as int) =~= middle);
    while end > start && white(chars[end - 1])
        invariant
            start <= end <= chars.len(),
            chars@ == text@,
            trimmed_end(middle) == trimmed_end(text@.subrange(start as int, end as int)),
        decreases end,
    {
        assert(text@.subrange(start as int, end as int).drop_last() =~= text@.subrange(
            start as int,
            end - 1,
        ));
        end = end - 1;
    }
    text.substring_char(start, end)
}

// Truth.

pub open spec fn truth_text(value: bool) -> Seq<char> {
    if value {
        "true"@
    } else {
        "false"@
    }
}

pub fn truth(value: bool) -> (result: &'static str)
    ensures
        result@ == truth_text(value),
{
    if value {
        "true"
    } else {
        "false"
    }
}

// Laws.

/// Numbers read back from the digits they are written in.
pub proof fn numbers_read_back(number: nat)
    ensures
        digits_value(decimal(number)) == Some(number),
        decimal(number).len() > 0,
        forall|limit: nat| number <= limit ==> #[trigger] parsed(decimal(number), limit) == Some(
            number,
        ),
    decreases number,
{
    reveal_with_fuel(digits_value, 2);
    if number < 10 {
        assert(decimal(number).drop_last() =~= Seq::<char>::empty());
    } else {
        numbers_read_back(number / 10);
        assert(decimal(number).drop_last() =~= decimal(number / 10));
    }
    lemma_no_sign(number);
}

proof fn lemma_no_sign(number: nat)
    ensures
        decimal(number).len() > 0,
        decimal(number)[0] != '+',
    decreases number,
{
    if number >= 10 {
        lemma_no_sign(number / 10);
        assert(decimal(number)[0] == decimal(number / 10)[0]);
    }
}

proof fn lemma_joined_append(first: Seq<Seq<char>>, rest: Seq<Seq<char>>, separator: Seq<char>)
    requires
        first.len() > 0,
        rest.len() > 0,
    ensures
        joined(first + rest, separator) == joined(first, separator) + separator + joined(
            rest,
            separator,
        ),
    decreases rest.len(),
{
    let all = first + rest;
    assert(all.last() == rest.last());
    if rest.len() == 1 {
        assert(all.drop_last() =~= first);
        assert(joined(rest, separator) == rest[0]);
    } else {
        assert(all.drop_last() =~= first + rest.drop_last());
        lemma_joined_append(first, rest.drop_last(), separator);
        assert(joined(all, separator) =~= joined(first, separator) + separator + joined(
            rest,
            separator,
        ));
    }
}

/// Texts are joined with the separator between one and the next, and nowhere else: two
/// lists that are joined one behind the other are joined as one.
pub proof fn lists_are_joined_piece_by_piece(
    first: Seq<Seq<char>>,
    rest: Seq<Seq<char>>,
    separator: Seq<char>,
    text: Seq<char>,
)
    ensures
        joined(Seq::empty(), separator) == Seq::<char>::empty(),
        joined(seq![text], separator) == text,
        first.len() > 0 && rest.len() > 0 ==> joined(first + rest, separator) == joined(
            first,
            separator,
        ) + separator + joined(rest, separator),
{
    if first.len() > 0 && rest.len() > 0 {
        lemma_joined_append(first, rest, separator);
    }
}

/// A text is its pieces with the separator between them, and no piece holds the separator.
pub proof fn pieces_make_up_the_text(text: Seq<char>, separator: char)
    ensures
        pieces(text, separator).len() > 0,
        joined(pieces(text, separator), seq![separator]) == text,
        forall|i: int|
            0 <= i < pieces(text, separator).len() ==> !(
            #[trigger] pieces(text, separator)[i]).contains(separator),
    decreases text.len(),
{
    if text.len() > 0 {
        let fewer = text.drop_last();
        let before = pieces(fewer, separator);
        let all = pieces(text, separator);
        pieces_make_up_the_text(fewer, separator);
        if text.last() == separator {
            let rest = seq![Seq::<char>::empty()];
            assert(all =~= before + rest);
            lemma_joined_append(before, rest, seq![separator]);
            assert(joined(rest, seq![separator]) =~= Seq::empty());
            assert(joined(all, seq![separator]) =~= fewer.push(separator));
            assert(fewer.push(separator) =~= text);
        } else {
            assert forall|i: int| 0 <= i < all.len() implies !(#[trigger] all[i]).contains(
                separator,
            ) by {
                assert(!before[i].contains(separator));
                if i == all.len() - 1 {
                    let piece = before.last();
                    assert(all[i] == piece.push(text.last()));
                    if all[i].contains(separator) {
                        let at = all[i].index_of(separator);
                        assert(all[i][at] == separator);
                        assert(at < piece.len());
                        assert(piece[at] == separator);
                    }
                }
            }
            assert(all.drop_last() =~= before.drop_last());
            assert(joined(all, seq![separator]) =~= fewer.push(text.last()));
            assert(fewer.push(text.last()) =~= text);
        }
    }
}

/// Splitting gives back the pieces that were joined.
pub proof fn joined_pieces_come_apart(parts: Seq<Seq<char>>, separator: char)
    requires
        parts.len() > 0,
        forall|i: int| 0 <= i < parts.len() ==> !(#[trigger] parts[i]).contains(separator),
    ensures
        pieces(joined(parts, seq![separator]), separator) == parts,
    decreases parts.len(),
{
    if parts.len() == 1 {
        lemma_one_piece(Seq::empty(), parts[0], separator);
        assert(Seq::<char>::empty() + parts[0] =~= parts[0]);
        assert(pieces(parts[0], separator) =~= parts);
    } else {
        let fewer = parts.drop_last();
        assert forall|i: int| 0 <= i < fewer.len() implies !(#[trigger] fewer[i]).contains(
            separator,
        ) by {
            assert(fewer[i] == parts[i]);
        }
        joined_pieces_come_apart(fewer, separator);
        let before = joined(fewer, seq![separator]);
        let cut = before.push(separator);
        assert(cut.drop_last() =~= before);
        assert(pieces(cut, separator) == fewer.push(Seq::empty()));
        assert(!parts.last().contains(separator));
        lemma_one_piece(cut, parts.last(), separator);
        assert(before + seq![separator] + parts.last() =~= cut + parts.last());
        assert(pieces(cut + parts.last(), separator) =~= parts);
    }
}

proof fn lemma_one_piece(before: Seq<char>, piece: Seq<char>, separator: char)
    requires
        !piece.contains(separator),
    ensures
        pieces(before, separator).len() > 0,
        pieces(before + piece, separator) == pieces(before, separator).drop_last().push(
            pieces(before, separator).last() + piece,
        ),
    decreases piece.len(),
{
    pieces_make_up_the_text(before, separator);
    let cut = pieces(before, separator);
    if piece.len() == 0 {
        assert(before + piece =~= before);
        assert(cut.last() + piece =~= cut.last());
        assert(cut =~= cut.drop_last().push(cut.last()));
    } else {
        let fewer = piece.drop_last();
        assert forall|i: int| 0 <= i < fewer.len() implies fewer[i] != separator by {
            assert(piece.contains(piece[i]));
        }
        lemma_one_piece(before, fewer, separator);
        let all = before + piece;
        assert(piece.contains(piece.last()));
        assert(all.last() == piece.last());
        assert(all.drop_last() =~= before + fewer);
        let shorter = pieces(before + fewer, separator);
        assert(shorter.drop_last() =~= cut.drop_last());
        assert(shorter.last() == cut.last() + fewer);
        assert((cut.last() + fewer).push(piece.last()) =~= cut.last() + piece);
    }
}

/// Lowering the case turns each capital letter of the English alphabet into its small one,
/// raising it turns them back, and neither touches another character.
pub proof fn letters_change_case_one_by_one(text: Seq<char>, i: int)
    ensures
        ascii_lower("ABCDEFGHIJKLMNOPQRSTUVWXYZ"@) == "abcdefghijklmnopqrstuvwxyz"@,
        ascii_upper("abcdefghijklmnopqrstuvwxyz"@) == "ABCDEFGHIJKLMNOPQRSTUVWXYZ"@,
        ascii_lower(text).len() == text.len(),
        ascii_upper(text).len() == text.len(),
        0 <= i < text.len() && !('A' <= text[i] && text[i] <= 'Z') ==> ascii_lower(text)[i]
            == text[i],
        0 <= i < text.len() && !('a' <= text[i] && text[i] <= 'z') ==> ascii_upper(text)[i]
            == text[i],
{
    reveal_strlit("ABCDEFGHIJKLMNOPQRSTUVWXYZ");
    reveal_strlit("abcdefghijklmnopqrstuvwxyz");
    assert(ascii_lower("ABCDEFGHIJKLMNOPQRSTUVWXYZ"@) =~= "abcdefghijklmnopqrstuvwxyz"@);
    assert(ascii_upper("abcdefghijklmnopqrstuvwxyz"@) =~= "ABCDEFGHIJKLMNOPQRSTUVWXYZ"@);
}

/// That a text is white space only.
pub open spec fn blank(text: Seq<char>) -> bool {
    forall|i: int| 0 <= i < text.len() ==> is_white(#[trigger] text[i])
}

proof fn lemma_trimmed_start(text: Seq<char>) -> (front: Seq<char>)
    ensures
        blank(front),
        text == front + trimmed_start(text),
        trimmed_start(text).len() > 0 ==> !is_white(trimmed_start(text)[0]),
    decreases text.len(),
{
    if text.len() > 0 && is_white(text[0]) {
        let rest = lemma_trimmed_start(text.skip(1));
        let front = seq![text[0]] + rest;
        assert(text =~= seq![text[0]] + text.skip(1));
        assert(text =~= front + trimmed_start(text));
        assert forall|i: int| 0 <= i < front.len() implies is_white(#[trigger] front[i]) by {
            if i > 0 {
                assert(front[i] == rest[i - 1]);
            }
        }
        front
    } else {
        assert(text =~= Seq::<char>::empty() + text);
        Seq::empty()
    }
}

proof fn lemma_trimmed_end(text: Seq<char>) -> (back: Seq<char>)
    ensures
        blank(back),
        text == trimmed_end(text) + back,
        trimmed_end(text).len() > 0 ==> !is_white(trimmed_end(text).last()),
        trimmed_end(text).len() > 0 ==> trimmed_end(text)[0] == text[0],
    decreases text.len(),
{
    if text.len() > 0 && is_white(text.last()) {
        let rest = lemma_trimmed_end(text.drop_last());
        let back = rest.push(text.last());
        assert(text =~= text.drop_last().push(text.last()));
        assert(text =~= trimmed_end(text) + back);
        assert forall|i: int| 0 <= i < back.len() implies is_white(#[trigger] back[i]) by {
            if i < rest.len() {
                assert(back[i] == rest[i]);
            }
        }
        back
    } else {
        assert(text =~= text + Seq::<char>::empty());
        Seq::empty()
    }
}

/// Trimming takes the white space from both ends of a text, all of it and nothing else.
pub proof fn only_outer_white_space_is_trimmed(text: Seq<char>)
    ensures
        exists|front: Seq<char>, back: Seq<char>| #[trigger]
            blank(front) && #[trigger] blank(back) && text == front + trimmed(text) + back,
        trimmed(text).len() > 0 ==> !is_white(trimmed(text)[0]) && !is_white(trimmed(text).last()),
{
    let front = lemma_trimmed_start(text);
    let back = lemma_trimmed_end(trimmed_start(text));
    assert(text =~= front + trimmed(text) + back);
    assert(blank(front) && blank(back));
}

/// White space is what Unicode calls so.
pub proof fn white_space_is_as_in_unicode(character: char)
    ensures
        is_white(character) <==> seq![
            '\u{9}',
            '\u{a}',
            '\u{b}',
            '\u{c}',
            '\u{d}',
            '\u{20}',
            '\u{85}',
            '\u{a0}',
            '\u{1680}',
            '\u{2000}',
            '\u{2001}',
            '\u{2002}',
            '\u{2003}',
            '\u{2004}',
            '\u{2005}',
            '\u{2006}',
            '\u{2007}',
            '\u{2008}',
            '\u{2009}',
            '\u{200a}',
            '\u{2028}',
            '\u{2029}',
            '\u{202f}',
            '\u{205f}',
            '\u{3000}',
        ].contains(character),
{
    let all = seq![
        '\u{9}',
        '\u{a}',
        '\u{b}',
        '\u{c}',
        '\u{d}',
        '\u{20}',
        '\u{85}',
        '\u{a0}',
        '\u{1680}',
        '\u{2000}',
        '\u{2001}',
        '\u{2002}',
        '\u{2003}',
        '\u{2004}',
        '\u{2005}',
        '\u{2006}',
        '\u{2007}',
        '\u{2008}',
        '\u{2009}',
        '\u{200a}',
        '\u{2028}',
        '\u{2029}',
        '\u{202f}',
        '\u{205f}',
        '\u{3000}',
    ];
    let code = character as u32;
    if is_white(character) {
        let at = if code <= 0xd {
            code - 9
        } else if code == 0x20 {
            5
        } else if code == 0x85 {
            6
        } else if code == 0xa0 {
            7
        } else if code == 0x1680 {
            8
        } else if code <= 0x200a {
            code - 0x2000 + 9
        } else if code == 0x2028 {
            20
        } else if code == 0x2029 {
            21
        } else if code == 0x202f {
            22
        } else if code == 0x205f {
            23
        } else {
            24
        };
        assert(all[at] == character);
    }
}

/// A number is written with the ten digits, the highest first and without a zero in front.
pub proof fn numbers_are_written_in_tens(number: nat, digit: nat)
    requires
        digit < 10,
    ensures
        decimal(digit) == seq!["0123456789"@[digit as int]],
        number > 0 ==> decimal(10 * number + digit) == decimal(number) + decimal(digit),
        number > 0 ==> decimal(number)[0] != '0',
    decreases number,
{
    reveal_strlit("0123456789");
    if number > 0 {
        assert((10 * number + digit) / 10 == number);
        assert((10 * number + digit) % 10 == digit);
        assert(decimal(10 * number + digit) =~= decimal(number) + decimal(digit));
        if number >= 10 {
            numbers_are_written_in_tens(number / 10, number % 10);
            numbers_read_back(number / 10);
        }
    }
}

/// A text is read as a number where it is digits with at most a plus sign in front, and the
/// number is not above the limit.
pub proof fn other_texts_are_no_numbers(text: Seq<char>, number: nat, limit: nat, i: int)
    ensures
        parsed(decimal(number), limit) == if number <= limit {
            Some(number)
        } else {
            None
        },
        parsed(seq!['+'] + decimal(number), limit) == parsed(decimal(number), limit),
        parsed(Seq::empty(), limit) is None,
        parsed(seq!['+'], limit) is None,
        0 <= i < text.len() && !(48 <= text[i] as u32 <= 57) && !(i == 0 && text[i] == '+')
            ==> parsed(text, limit) is None,
{
    numbers_read_back(number);
    let digits = decimal(number);
    let signed = seq!['+'] + digits;
    assert(signed.skip(1) =~= digits);
    lemma_no_sign(number);
    assert(seq!['+'].skip(1) =~= Seq::empty());
    if 0 <= i < text.len() && !(48 <= text[i] as u32 <= 57) && !(i == 0 && text[i] == '+') {
        let digits = number_digits(text);
        let at = if text[0] == '+' {
            i - 1
        } else {
            i
        };
        assert(digits[at] == text[i]);
        lemma_no_digit(digits, at);
    }
}

proof fn lemma_no_digit(digits: Seq<char>, at: int)
    requires
        0 <= at < digits.len(),
        digit_value(digits[at]) is None,
    ensures
        digits_value(digits) is None,
    decreases digits.len(),
{
    if at < digits.len() - 1 {
        lemma_no_digit(digits.drop_last(), at);
    }
}

/// A part occurs in a text where the text is something, the part and something more; it
/// begins the text where nothing is in front.
pub proof fn parts_occur_where_they_stand(before: Seq<char>, part: Seq<char>, after: Seq<char>)
    ensures
        occurs(before + part + after, part),
        begins_with(part + after, part),
{
    let text = before + part + after;
    assert(text.subrange(before.len() as int, (before.len() + part.len()) as int) =~= part);
    assert(occurs_at(text, part, before.len() as int));
    assert((part + after).subrange(0, part.len() as int) =~= part);
}

/// What is said to occur in a text, or to begin it, is a part of it.
pub proof fn occurring_parts_are_there(text: Seq<char>, part: Seq<char>)
    ensures
        occurs(text, part) ==> exists|at: int|
            0 <= at <= text.len() - part.len() && text == #[trigger] text.take(at) + part
                + text.skip(at + part.len()),
        begins_with(text, part) ==> text == part + text.skip(part.len() as int),
{
    if occurs(text, part) {
        let at = choose|at: int| occurs_at(text, part, at);
        assert(text =~= text.take(at) + text.subrange(at, at + part.len()) + text.skip(
            at + part.len(),
        ));
    }
    if begins_with(text, part) {
        assert(text =~= text.subrange(0, part.len() as int) + text.skip(part.len() as int));
    }
}

} // verus!
