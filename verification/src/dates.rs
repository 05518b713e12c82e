//! The dates in XML property lists.
//!
//! Times after the year 9999 are out of range. An XML property list can only
//! write one with an offset from UTC: the last hours of that year, in a place
//! where it is earlier than in UTC. Whether the property list reader would come
//! to such a date is found out with its help: it is given the document with
//! other names in the place of those of the dates.

use vstd::prelude::*;
use vstd::utf8::valid_utf8;

use crate::text::{ascii_lowercase, characters, occurs_at, same_text, stands_at};

verus! {

/// The characters whose numbers the bytes are.
pub open spec fn byte_chars(bytes: Seq<u8>) -> Seq<char> {
    Seq::new(bytes.len(), |i: int| bytes[i] as char)
}

/// Whether a character is a decimal digit.
pub open spec fn is_digit(c: char) -> bool {
    '0' <= c <= '9'
}

/// The number that the two decimal digits at `at` are.
pub open spec fn two_digits(text: Seq<char>, at: int) -> int {
    10 * (text[at] as int - '0' as int) + (text[at + 1] as int - '0' as int)
}

/// Whether a number of two decimal digits below `limit` stands at `at`.
pub open spec fn has_number(text: Seq<char>, at: int, limit: int) -> bool {
    &&& at + 2 <= text.len()
    &&& is_digit(text[at])
    &&& is_digit(text[at + 1])
    &&& two_digits(text, at) < limit
}

/// Where the digits that begin at `at` end.
pub open spec fn digits_end(text: Seq<char>, at: int) -> int
    decreases text.len() - at,
{
    if 0 <= at < text.len() && is_digit(text[at]) {
        digits_end(text, at + 1)
    } else {
        at
    }
}

/// Where a decimal fraction that may begin at `at` ends, which is a dot and one
/// or more digits.
pub open spec fn fraction_end(text: Seq<char>, at: int) -> int {
    if at + 1 < text.len() && text[at] == '.' && is_digit(text[at + 1]) {
        digits_end(text, at + 1)
    } else {
        at
    }
}

/// Whether a date lies past the year 9999 in UTC: `9999-12-31`, any character, a
/// time of day, and behind a minus an offset that takes it past midnight.
pub open spec fn is_past_range(text: Seq<char>) -> bool {
    let offset = fraction_end(text, 19);
    &&& occurs_at(text, "9999-12-31"@, 0)
    &&& text.len() == offset + 6
    &&& text[10] < '\u{80}'
    &&& has_number(text, 11, 24)
    &&& text[13] == ':'
    &&& has_number(text, 14, 60)
    &&& text[16] == ':'
    &&& has_number(text, 17, 60)
    &&& text[offset] == '-'
    &&& has_number(text, offset + 1, 24)
    &&& text[offset + 3] == ':'
    &&& has_number(text, offset + 4, 60)
    &&& 60 * (two_digits(text, 11) + two_digits(text, offset + 1)) + two_digits(text, 14)
        + two_digits(text, offset + 4) >= 24 * 60
}

/// The end of the first `mark` that ends at `from` or later.
pub open spec fn mark_end(text: Seq<char>, mark: Seq<char>, from: int) -> Option<int>
    decreases text.len() + 1 - from,
{
    if from > text.len() {
        None
    } else if occurs_at(text, mark, from - mark.len()) {
        Some(from)
    } else {
        mark_end(text, mark, from + 1)
    }
}

/// The value of a digit in bases up to sixteen; sixteen where it is none.
pub open spec fn digit_value(c: char) -> int {
    if is_digit(c) {
        c as int - '0' as int
    } else if 'a' <= c <= 'f' {
        c as int - 'a' as int + 10
    } else if 'A' <= c <= 'F' {
        c as int - 'A' as int + 10
    } else {
        16
    }
}

/// The number that `digits` are in a base.
pub open spec fn number_in(base: int, digits: Seq<char>) -> Option<int>
    decreases digits.len(),
{
    if digits.len() == 0 {
        Some(0)
    } else {
        match number_in(base, digits.drop_last()) {
            Some(value) if digit_value(digits.last()) < base => Some(
                value * base + digit_value(digits.last()),
            ),
            _ => None,
        }
    }
}

/// What a reference such as `&#57;` or `&lt;` stands for.
pub enum Reference {
    /// An ASCII character.
    Ascii(char),
    /// Nothing, where its name is unknown.
    Nothing,
    /// A character beyond ASCII or none at all, which is no part of a date.
    Alien,
}

/// What a reference by number stands for.
pub open spec fn numeric_reference(base: int, digits: Seq<char>) -> Reference {
    match number_in(base, digits) {
        Some(code) if 0 < code < 0x80 => Reference::Ascii(code as char),
        _ => Reference::Alien,
    }
}

/// What a reference stands for, by what is between `&` and `;`.
pub open spec fn reference(name: Seq<char>) -> Reference {
    if name.len() > 0 && name[0] == '#' {
        if name.len() > 1 && name[1] == 'x' {
            numeric_reference(16, name.skip(2))
        } else {
            numeric_reference(10, name.skip(1))
        }
    } else if name == "lt"@ {
        Reference::Ascii('<')
    } else if name == "gt"@ {
        Reference::Ascii('>')
    } else if name == "amp"@ {
        Reference::Ascii('&')
    } else if name == "apos"@ {
        Reference::Ascii('\'')
    } else if name == "quot"@ {
        Reference::Ascii('"')
    } else {
        Reference::Nothing
    }
}

/// The first position from `at` on of a character that ends a reference or shows
/// that it has no end.
pub open spec fn reference_end(text: Seq<char>, at: int) -> int
    decreases text.len() - at,
{
    if 0 <= at < text.len() && text[at] != ';' && text[at] != '&' && text[at] != '<' {
        reference_end(text, at + 1)
    } else {
        at
    }
}

/// Where the internal subset of a document type declaration ends that goes on at
/// `at`: at the `>` of the declaration. Comments, processing instructions and
/// quotes in the declarations of entities, attributes and notations are passed
/// over; any other markup ends at its first `>`.
pub open spec fn subset_end(text: Seq<char>, at: int) -> Option<int>
    decreases text.len() - at,
{
    if at >= text.len() {
        None
    } else if text[at] == ']' {
        match mark_end(text, ">"@, at + 2) {
            Some(end) => Some(end - 1),
            None => None,
        }
    } else if text[at] != '<' {
        subset_end(text, at + 1)
    } else {
        match markup_end(text, at) {
            Some(next) if at < next <= text.len() => subset_end(text, next),
            _ => None,
        }
    }
}

/// Where the markup ends that begins at `at` in an internal subset.
pub open spec fn markup_end(text: Seq<char>, at: int) -> Option<int> {
    if occurs_at(text, "<?"@, at) {
        mark_end(text, "?>"@, at + 4)
    } else if occurs_at(text, "<!--"@, at) {
        mark_end(text, "-->"@, at + 7)
    } else if occurs_at(text, "<!ENTITY"@, at) || occurs_at(text, "<!ATTLIST"@, at) || occurs_at(
        text,
        "<!NOTATION"@,
        at,
    ) {
        match tag_end(text, at + 1, None, false) {
            Some(end) => Some(end + 1),
            None => None,
        }
    } else {
        mark_end(text, ">"@, at + 2)
    }
}

/// Where the document type declaration ends that begins at `at`: at its `>`.
pub open spec fn declaration_end(text: Seq<char>, at: int) -> Option<int> {
    match tag_end(text, at + 1, None, true) {
        Some(end) if text[end] == '[' => subset_end(text, end + 1),
        end => end,
    }
}

/// Whether a document type declaration begins at `at`.
pub open spec fn begins_declaration(text: Seq<char>, at: int) -> bool {
    at + 9 <= text.len() && ascii_lowercase(text.subrange(at, at + 9)) == "<!doctype"@
}

/// Whether the document type declaration from `at` to `end` has a name.
pub open spec fn is_named(text: Seq<char>, at: int, end: int) -> bool {
    exists|i: int| at + 9 <= i < end && !is_blank(#[trigger] text[i])
}

/// Whether `->` stands between `at` and `end` without another dash before it.
pub open spec fn has_arrow(text: Seq<char>, at: int, end: int) -> bool {
    exists|i: int|
        at < i < end && #[trigger] text[i] == '-' && text[i - 1] != '-' && i + 1 < text.len()
            && text[i + 1] == '>'
}

/// Whether it is unclear where the document type declaration ends that begins at
/// `at`: in one that is longer than its buffer, the reader may take `->` for the
/// end of a comment. No buffer is smaller than 512 bytes.
pub open spec fn is_unclear(text: Seq<char>, at: int) -> bool {
    let end = match declaration_end(text, at) {
        Some(end) => end,
        None => text.len() as int,
    };
    begins_declaration(text, at) && end - at > 512 && has_arrow(text, at, end)
}

/// What stands in the content of an element.
pub enum Piece {
    /// A character, and where the next piece begins.
    Text(char, int),
    /// What is passed over, and where the next piece begins.
    Passed(int),
    /// A closing tag.
    Closing,
    /// A document type declaration that it is unclear where it ends.
    Unclear,
    /// What makes the document unreadable, or the content no date.
    Broken,
}

/// What is passed over up to the first `mark` that ends at `from` or later.
pub open spec fn passed(text: Seq<char>, mark: Seq<char>, from: int) -> Piece {
    match mark_end(text, mark, from) {
        Some(end) => Piece::Passed(end),
        None => Piece::Broken,
    }
}

/// The piece of an element's content that begins at `at`. Comments, character
/// data sections, processing instructions and document type declarations are
/// passed over.
pub open spec fn piece_at(text: Seq<char>, at: int) -> Piece {
    if at >= text.len() {
        Piece::Broken
    } else if text[at] == '&' {
        let end = reference_end(text, at + 1);
        if end >= text.len() || text[end] != ';' {
            Piece::Broken
        } else {
            match reference(text.subrange(at + 1, end)) {
                Reference::Ascii(c) => Piece::Text(c, end + 1),
                Reference::Nothing => Piece::Passed(end + 1),
                Reference::Alien => Piece::Broken,
            }
        }
    } else if text[at] != '<' {
        Piece::Text(text[at], at + 1)
    } else if occurs_at(text, "</"@, at) {
        Piece::Closing
    } else if occurs_at(text, "<!--"@, at) {
        passed(text, "-->"@, at + 7)
    } else if occurs_at(text, "<![CDATA["@, at) {
        passed(text, "]]>"@, at + 12)
    } else if occurs_at(text, "<?"@, at) {
        if occurs_at(text, "<?>"@, at) {
            Piece::Broken
        } else {
            passed(text, "?>"@, at + 4)
        }
    } else if is_unclear(text, at) {
        Piece::Unclear
    } else {
        match declaration_end(text, at) {
            Some(end) if begins_declaration(text, at) && is_named(text, at, end) => Piece::Passed(
                end + 1,
            ),
            _ => Piece::Broken,
        }
    }
}

/// What the content of an element is.
pub enum Content {
    /// Characters, and where the closing tag begins.
    Read(Seq<char>, int),
    /// It is unclear.
    Unclear,
    /// It cannot be read, or is no date.
    Broken,
}

/// The content that goes on at `at`, behind the characters `before`.
pub open spec fn content(text: Seq<char>, at: int, before: Seq<char>) -> Content
    decreases text.len() - at,
{
    match piece_at(text, at) {
        Piece::Text(c, next) if at < next <= text.len() => content(text, next, before.push(c)),
        Piece::Passed(next) if at < next <= text.len() => content(text, next, before),
        Piece::Closing => Content::Read(before, at),
        Piece::Unclear => Content::Unclear,
        _ => Content::Broken,
    }
}

/// Where the tag ends that goes on at `at`: at the first `>` outside quotes, or
/// at a `[` where `bracket` lets that end it. `quote` is the quotation mark that
/// is open at `at`.
pub open spec fn tag_end(text: Seq<char>, at: int, quote: Option<char>, bracket: bool) -> Option<int>
    decreases text.len() - at,
{
    if at >= text.len() {
        None
    } else {
        match quote {
            Some(mark) => tag_end(
                text,
                at + 1,
                if text[at] == mark {
                    None
                } else {
                    quote
                },
                bracket,
            ),
            None => if text[at] == '>' || bracket && text[at] == '[' {
                Some(at)
            } else if text[at] == '\'' || text[at] == '"' {
                tag_end(text, at + 1, Some(text[at]), bracket)
            } else {
                tag_end(text, at + 1, None, bracket)
            },
        }
    }
}

/// Whether a character is XML white space.
pub open spec fn is_blank(c: char) -> bool {
    c == ' ' || c == '\r' || c == '\n' || c == '\t'
}

/// Where the name ends that goes on at `at`, no later than `end`.
pub open spec fn name_end(text: Seq<char>, at: int, end: int) -> int
    decreases end - at,
{
    if at < end && !is_blank(text[at]) {
        name_end(text, at + 1, end)
    } else {
        at
    }
}

/// A name without its prefix, which ends at its first colon.
pub open spec fn local_name(name: Seq<char>) -> Seq<char> {
    if name.contains(':') {
        name.skip(name.index_of_first(':')->0 + 1)
    } else {
        name
    }
}

/// The name in the tag that begins at `at` and ends at `end`.
pub open spec fn tag_name(text: Seq<char>, at: int, end: int) -> Seq<char> {
    text.subrange(at + 1, name_end(text, at + 1, end))
}

/// Where the opening tag of a date element that begins at `at` ends, if there is
/// one.
pub open spec fn date_tag_end(text: Seq<char>, at: int) -> Option<int> {
    if 0 <= at && at + 1 < text.len() && text[at] == '<' && text[at + 1] != '/' && text[at + 1] != '!'
        && text[at + 1] != '?' {
        match tag_end(text, at + 1, None, false) {
            Some(end) if text[end - 1] != '/' && local_name(tag_name(text, at, end)) == "date"@ => Some(
                end,
            ),
            _ => None,
        }
    } else {
        None
    }
}

/// Whether the closing tag that begins at `at` and ends at `end` has the name
/// `name`, which blanks may follow.
pub open spec fn closes(text: Seq<char>, at: int, end: int, name: Seq<char>) -> bool {
    &&& occurs_at(text, name, at + 2)
    &&& at + 2 + name.len() <= end
    &&& forall|i: int| at + 2 + name.len() <= i < end ==> is_blank(#[trigger] text[i])
}

/// Whether a date element begins at `at` that holds a date past the range, or
/// one that is unclear, in whatever surroundings.
pub open spec fn date_past_range(bytes: Seq<u8>, at: int) -> bool {
    let text = byte_chars(bytes);
    match date_tag_end(text, at) {
        Some(end) => match content(text, end + 1, Seq::empty()) {
            Content::Read(date, closing) => is_past_range(date) && (tag_end(
                text,
                closing + 1,
                None,
                false,
            ) matches Some(last) && closes(text, closing, last, tag_name(text, at, end))
                && valid_utf8(bytes.subrange(at, last + 1))),
            Content::Unclear => true,
            Content::Broken => false,
        },
        None => false,
    }
}

/// Whether nothing in a document looks like a date past the range.
pub open spec fn no_past_range(bytes: Seq<u8>) -> bool {
    forall|at: int| !#[trigger] date_past_range(bytes, at)
}

/// Where the letters `date` stand in the name of the date element that begins at
/// `at`.
pub open spec fn letters_at(bytes: Seq<u8>, at: int) -> int {
    let text = byte_chars(bytes);
    name_end(text, at + 1, date_tag_end(text, at)->0) - 4
}

/// Whether `at` is where the letter `index` of `date` stands in the opening tag
/// of what looks like a date past the range.
pub open spec fn is_letter(bytes: Seq<u8>, index: int, at: int) -> bool {
    exists|k: int| #[trigger] date_past_range(bytes, k) && letters_at(bytes, k) + index == at
}

/// A document with `letter` for the letter `index` of `date` in the opening tags
/// of what looks like dates past the range.
pub open spec fn renamed(bytes: Seq<u8>, index: int, letter: u8) -> Seq<u8> {
    Seq::new(
        bytes.len(),
        |at: int|
            if is_letter(bytes, index, at) {
                letter
            } else {
                bytes[at]
            },
    )
}

/// A document in which what looks like a date past the range is an `xate`.
pub open spec fn with_xates(bytes: Seq<u8>) -> Seq<u8> {
    renamed(bytes, 0, 0x78)
}

/// A document in which what looks like a date past the range begins as `data`.
pub open spec fn with_data(bytes: Seq<u8>) -> Seq<u8> {
    renamed(bytes, 3, 0x61)
}

/// What the XML reader finds wrong with a document in which nothing looks like a
/// date past the range: the text of its error, or nothing where it reads the
/// document.
pub uninterp spec fn xml_error(bytes: Seq<u8>) -> Option<Seq<char>>;

/// Whether the XML reader does not come to what looks like a date past the
/// range: whatever it says of the document does not depend on its name. Where it
/// does come there, it knows no `xate`, and finds a `data` closed by another
/// name.
pub open spec fn past_range_unread(bytes: Seq<u8>) -> bool {
    &&& no_past_range(with_xates(bytes))
    &&& no_past_range(with_data(bytes))
    &&& xml_error(with_xates(bytes)) == xml_error(with_data(bytes))
}

/// Whether a document begins with text outside of markup, behind white space, so
/// that it is no XML.
pub open spec fn begins_with_text(text: Seq<char>, at: int) -> bool
    decreases text.len() - at,
{
    if at >= text.len() {
        false
    } else if '\u{9}' <= text[at] <= '\u{d}' || text[at] == ' ' {
        begins_with_text(text, at + 1)
    } else {
        text[at] < '\u{80}' && text[at] != '<' && text[at] != '&'
    }
}

/// Whether the property list reader comes to no date past the range when it
/// reads a document: a binary one writes its dates in another way, and one that
/// is no XML has none.
pub open spec fn dates_in_range(bytes: Seq<u8>) -> bool {
    let text = byte_chars(bytes);
    ||| occurs_at(text, "bplist00"@, 0)
    ||| begins_with_text(text, 0)
    ||| no_past_range(bytes)
    ||| past_range_unread(bytes)
}

/// Whether `piece` stands in `text` at `at`.
fn reads_at(text: &Vec<char>, piece: &str, at: usize) -> (found: bool)
    requires
        at <= text@.len(),
    ensures
        found == occurs_at(text@, piece@, at as int),
{
    let piece = characters(piece);
    piece.len() <= text.len() - at && stands_at(text, &piece, at)
}

/// Whether `text` is the same as `other`.
fn is_same(text: &Vec<char>, other: &str) -> (same: bool)
    ensures
        same == (text@ == other@),
{
    let other = characters(other);
    if text.len() != other.len() {
        return false;
    }
    let same = stands_at(text, &other, 0);
    assert(text@.subrange(0, text@.len() as int) =~= text@);
    same
}

/// The characters from `start` to `end`.
fn part(text: &Vec<char>, start: usize, end: usize) -> (result: Vec<char>)
    requires
        start <= end <= text@.len(),
    ensures
        result@ == text@.subrange(start as int, end as int),
{
    let mut result: Vec<char> = Vec::new();
    let mut i: usize = start;
    while i < end
        invariant
            start <= i <= end <= text@.len(),
            result@ == text@.subrange(start as int, i as int),
        decreases end - i,
    {
        result.push(text[i]);
        i += 1;
        assert(result@ =~= text@.subrange(start as int, i as int));
    }
    result
}

/// The characters whose numbers the bytes are.
fn byte_characters(bytes: &[u8]) -> (text: Vec<char>)
    ensures
        text@ == byte_chars(bytes@),
{
    let mut text: Vec<char> = Vec::new();
    let mut i: usize = 0;
    while i < bytes.len()
        invariant
            i <= bytes@.len(),
            text@ == byte_chars(bytes@).take(i as int),
        decreases bytes@.len() - i,
    {
        text.push(bytes[i] as char);
        i += 1;
        assert(text@ =~= byte_chars(bytes@).take(i as int));
    }
    assert(text@ =~= byte_chars(bytes@));
    text
}

/// Reads the number of two digits at `at`.
fn number_at(text: &Vec<char>, at: usize, limit: u32) -> (number: Option<u32>)
    requires
        at <= text@.len(),
    ensures
        match number {
            Some(value) => has_number(text@, at as int, limit as int) && value == two_digits(
                text@,
                at as int,
            ),
            None => !has_number(text@, at as int, limit as int),
        },
{
    if text.len() - at < 2 {
        return None;
    }
    let (tens, ones) = (text[at], text[at + 1]);
    if tens < '0' || tens > '9' || ones < '0' || ones > '9' {
        return None;
    }
    let value = 10 * (tens as u32 - '0' as u32) + (ones as u32 - '0' as u32);
    if value < limit {
        Some(value)
    } else {
        None
    }
}

/// Finds the end of a decimal fraction that may begin at `at`.
fn find_fraction_end(text: &Vec<char>, at: usize) -> (end: usize)
    requires
        at <= text@.len(),
    ensures
        at <= end <= text@.len(),
        end == fraction_end(text@, at as int),
{
    if text.len() - at < 2 || text[at] != '.' || text[at + 1] < '0' || text[at + 1] > '9' {
        return at;
    }
    let mut end: usize = at + 1;
    while end < text.len() && '0' <= text[end] && text[end] <= '9'
        invariant
            at + 1 <= end <= text@.len(),
            digits_end(text@, at + 1) == digits_end(text@, end as int),
        decreases text@.len() - end,
    {
        end += 1;
    }
    end
}

/// Whether a date lies past the range.
fn past_range(text: &Vec<char>) -> (result: bool)
    ensures
        result == is_past_range(text@),
{
    if text.len() < 25 || !reads_at(text, "9999-12-31", 0) {
        return false;
    }
    let offset = find_fraction_end(text, 19);
    if text.len() - offset != 6 || text[10] >= '\u{80}' || text[13] != ':' || text[16] != ':'
        || text[offset] != '-' || text[offset + 3] != ':' {
        return false;
    }
    match (
        number_at(text, 11, 24),
        number_at(text, 14, 60),
        number_at(text, 17, 60),
        number_at(text, offset + 1, 24),
        number_at(text, offset + 4, 60),
    ) {
        (Some(hour), Some(minute), Some(_), Some(offset_hour), Some(offset_minute)) => 60 * (hour
            + offset_hour) + minute + offset_minute >= 24 * 60,
        _ => false,
    }
}

/// Finds the end of the first `mark` that ends `distance` behind `at` or later.
fn find_mark_end(text: &Vec<char>, mark: &str, at: usize, distance: usize) -> (end: Option<usize>)
    requires
        at <= text@.len(),
        mark@.len() <= distance,
    ensures
        match mark_end(text@, mark@, at + distance) {
            Some(position) => end matches Some(found) && found == position && at + distance
                <= position <= text@.len(),
            None => end is None,
        },
{
    let wanted = characters(mark);
    let length = text.len();
    if length - at < distance {
        return None;
    }
    let mut end: usize = at + distance;
    loop
        invariant
            wanted@ == mark@,
            mark@.len() <= at + distance <= end <= text@.len() == length,
            mark_end(text@, mark@, at + distance) == mark_end(text@, mark@, end as int),
        decreases length - end,
    {
        if stands_at(text, &wanted, end - wanted.len()) {
            return Some(end);
        }
        if end == length {
            assert(mark_end(text@, mark@, end + 1) is None);
            return None;
        }
        end += 1;
    }
}

/// A number that is too large stays so, whatever digits follow.
proof fn lemma_number_grows(base: int, digits: Seq<char>, length: int)
    requires
        base == 10 || base == 16,
        0 <= length <= digits.len(),
        number_in(base, digits.take(length)) matches Some(value) ==> value >= 0x80,
    ensures
        number_in(base, digits) matches Some(value) ==> value >= 0x80,
    decreases digits.len() - length,
{
    if length == digits.len() {
        assert(digits.take(length) =~= digits);
    } else {
        assert(digits.take(length + 1).drop_last() =~= digits.take(length));
        lemma_number_grows(base, digits, length + 1);
    }
}

/// Finds the value of a digit.
fn value_of(c: char) -> (value: u32)
    ensures
        value == digit_value(c),
        value <= 16,
{
    if '0' <= c && c <= '9' {
        c as u32 - '0' as u32
    } else if 'a' <= c && c <= 'f' {
        c as u32 - 'a' as u32 + 10
    } else if 'A' <= c && c <= 'F' {
        c as u32 - 'A' as u32 + 10
    } else {
        16
    }
}

/// Reads a reference by number, whose digits begin at `start`.
fn read_number(name: &Vec<char>, start: usize, base: u32) -> (result: Reference)
    requires
        start <= name@.len(),
        base == 10 || base == 16,
    ensures
        result == numeric_reference(base as int, name@.skip(start as int)),
{
    let ghost digits = name@.skip(start as int);
    let mut value: u32 = 0;
    let mut i: usize = start;
    assert(digits.take(0) =~= Seq::<char>::empty());
    while i < name.len()
        invariant
            start <= i <= name@.len(),
            base == 10 || base == 16,
            digits == name@.skip(start as int),
            value < 0x80,
            number_in(base as int, digits.take(i - start)) == Some(value as int),
        decreases name@.len() - i,
    {
        let ghost next = digits.take(i - start + 1);
        assert(next.drop_last() =~= digits.take(i - start));
        assert(next.last() == name@[i as int]);
        let digit = value_of(name[i]);
        if digit >= base {
            proof {
                lemma_number_grows(base as int, digits, i - start + 1);
            }
            return Reference::Alien;
        }
        assert(value * base <= 0x80 * 16) by (nonlinear_arith)
            requires
                value < 0x80,
                base == 10 || base == 16,
        ;
        value = value * base + digit;
        if value >= 0x80 {
            proof {
                lemma_number_grows(base as int, digits, i - start + 1);
            }
            return Reference::Alien;
        }
        i += 1;
    }
    assert(digits.take(i - start) =~= digits);
    if value == 0 {
        Reference::Alien
    } else {
        Reference::Ascii(value as u8 as char)
    }
}

/// Reads a reference.
fn read_reference(name: &Vec<char>) -> (result: Reference)
    ensures
        result == reference(name@),
{
    if name.len() > 0 && name[0] == '#' {
        if name.len() > 1 && name[1] == 'x' {
            read_number(name, 2, 16)
        } else {
            read_number(name, 1, 10)
        }
    } else if is_same(name, "lt") {
        Reference::Ascii('<')
    } else if is_same(name, "gt") {
        Reference::Ascii('>')
    } else if is_same(name, "amp") {
        Reference::Ascii('&')
    } else if is_same(name, "apos") {
        Reference::Ascii('\'')
    } else if is_same(name, "quot") {
        Reference::Ascii('"')
    } else {
        Reference::Nothing
    }
}

/// Finds the end of a reference.
fn find_reference_end(text: &Vec<char>, at: usize) -> (end: usize)
    requires
        at <= text@.len(),
    ensures
        at <= end <= text@.len(),
        end == reference_end(text@, at as int),
{
    let mut end: usize = at;
    while end < text.len() && text[end] != ';' && text[end] != '&' && text[end] != '<'
        invariant
            at <= end <= text@.len(),
            reference_end(text@, at as int) == reference_end(text@, end as int),
        decreases text@.len() - end,
    {
        end += 1;
    }
    end
}

/// The second and third character tell apart what begins with `<`.
proof fn lemma_openings(text: Seq<char>, at: int)
    ensures
        occurs_at(text, "</"@, at) ==> text[at + 1] == '/',
        occurs_at(text, "<?"@, at) ==> text[at + 1] == '?',
        occurs_at(text, "<!--"@, at) ==> text[at + 1] == '!' && text[at + 2] == '-',
        occurs_at(text, "<![CDATA["@, at) ==> text[at + 1] == '!' && text[at + 2] == '[',
{
    reveal_strlit("</");
    reveal_strlit("<?");
    reveal_strlit("<!--");
    reveal_strlit("<![CDATA[");
    if occurs_at(text, "</"@, at) || occurs_at(text, "<?"@, at) {
        assert(text.subrange(at, at + 2)[1] == text[at + 1]);
    }
    if occurs_at(text, "<!--"@, at) {
        assert(text.subrange(at, at + 4)[1] == text[at + 1]);
        assert(text.subrange(at, at + 4)[2] == text[at + 2]);
    }
    if occurs_at(text, "<![CDATA["@, at) {
        assert(text.subrange(at, at + 9)[1] == text[at + 1]);
        assert(text.subrange(at, at + 9)[2] == text[at + 2]);
    }
}

/// A document type declaration begins like nothing else.
proof fn lemma_declaration_opening(text: Seq<char>, at: int)
    requires
        begins_declaration(text, at),
        0 <= at,
    ensures
        text[at + 1] == '!',
        text[at + 2] == 'd' || text[at + 2] == 'D',
{
    reveal_strlit("<!doctype");
    let opening = ascii_lowercase(text.subrange(at, at + 9));
    assert(opening[1] == '!' && opening[2] == 'd');
}

/// Finds the end of the tag that goes on at `start`.
fn find_tag_end(text: &Vec<char>, start: usize, bracket: bool) -> (end: Option<usize>)
    requires
        start <= text.len(),
    ensures
        match tag_end(text@, start as int, None, bracket) {
            Some(position) => end matches Some(found) && found == position && start <= found
                < text.len() && (text@[position] == '>' || bracket && text@[position] == '['),
            None => end is None,
        },
{
    let mut quote: Option<char> = None;
    let mut at: usize = start;
    while at < text.len()
        invariant
            start <= at <= text@.len(),
            tag_end(text@, start as int, None, bracket) == tag_end(text@, at as int, quote, bracket),
        decreases text@.len() - at,
    {
        let c = text[at];
        match quote {
            Some(mark) => {
                if c == mark {
                    quote = None;
                }
            },
            None => {
                if c == '>' || bracket && c == '[' {
                    return Some(at);
                }
                if c == '\'' || c == '"' {
                    quote = Some(c);
                }
            },
        }
        at += 1;
    }
    None
}

/// Finds the end of a name.
fn find_name_end(text: &Vec<char>, start: usize, end: usize) -> (result: usize)
    requires
        start <= end <= text@.len(),
    ensures
        start <= result <= end,
        result == name_end(text@, start as int, end as int),
{
    let mut at: usize = start;
    while at < end && text[at] != ' ' && text[at] != '\r' && text[at] != '\n' && text[at] != '\t'
        invariant
            start <= at <= end <= text@.len(),
            name_end(text@, start as int, end as int) == name_end(text@, at as int, end as int),
        decreases end - at,
    {
        at += 1;
    }
    at
}

/// Whether a name is `date`, but for its prefix.
fn is_date_name(name: &Vec<char>) -> (result: bool)
    ensures
        result == (local_name(name@) == "date"@),
{
    let mut at: usize = 0;
    while at < name.len()
        invariant
            at <= name@.len(),
            forall|k: int| 0 <= k < at ==> name@[k] != ':',
        decreases name@.len() - at,
    {
        if name[at] == ':' {
            proof {
                name@.index_of_first_ensures(':');
                assert(name@.index_of_first(':') == Some(at as int));
                assert(name@.skip(at + 1) =~= name@.subrange(at + 1, name@.len() as int));
            }
            return is_same(&part(name, at + 1, name.len()), "date");
        }
        at += 1;
    }
    is_same(name, "date")
}

/// Finds the end of the markup that begins at `at` in an internal subset.
fn find_markup_end(text: &Vec<char>, at: usize) -> (end: Option<usize>)
    requires
        at < text.len(),
    ensures
        match markup_end(text@, at as int) {
            Some(position) => end matches Some(found) && found == position && at < found
                <= text.len(),
            None => end is None,
        },
{
    proof {
        reveal_strlit("?>");
        reveal_strlit("-->");
        reveal_strlit(">");
    }
    if reads_at(text, "<?", at) {
        find_mark_end(text, "?>", at, 4)
    } else if reads_at(text, "<!--", at) {
        find_mark_end(text, "-->", at, 7)
    } else if reads_at(text, "<!ENTITY", at) || reads_at(text, "<!ATTLIST", at) || reads_at(
        text,
        "<!NOTATION",
        at,
    ) {
        match find_tag_end(text, at + 1, false) {
            Some(end) => Some(end + 1),
            None => None,
        }
    } else {
        find_mark_end(text, ">", at, 2)
    }
}

/// Finds the end of an internal subset.
fn find_subset_end(text: &Vec<char>, start: usize) -> (end: Option<usize>)
    requires
        start <= text.len(),
    ensures
        match subset_end(text@, start as int) {
            Some(position) => end matches Some(found) && found == position && start <= found
                < text.len(),
            None => end is None,
        },
{
    proof {
        reveal_strlit(">");
    }
    let mut at: usize = start;
    while at < text.len()
        invariant
            start <= at <= text@.len(),
            ">"@.len() == 1,
            subset_end(text@, start as int) == subset_end(text@, at as int),
        decreases text@.len() - at,
    {
        if text[at] == ']' {
            return match find_mark_end(text, ">", at, 2) {
                Some(end) => Some(end - 1),
                None => None,
            };
        }
        if text[at] != '<' {
            at += 1;
        } else {
            match find_markup_end(text, at) {
                Some(end) => {
                    at = end;
                },
                None => return None,
            }
        }
    }
    None
}

/// Finds the end of a document type declaration.
fn find_declaration_end(text: &Vec<char>, at: usize) -> (end: Option<usize>)
    requires
        at < text.len(),
    ensures
        match declaration_end(text@, at as int) {
            Some(position) => end matches Some(found) && found == position && at < found
                < text.len(),
            None => end is None,
        },
{
    match find_tag_end(text, at + 1, true) {
        Some(end) => if text[end] == '[' {
            find_subset_end(text, end + 1)
        } else {
            Some(end)
        },
        None => None,
    }
}

/// Tells whether a document type declaration begins at `at`.
fn is_declaration_at(text: &Vec<char>, at: usize) -> (result: bool)
    requires
        at <= text.len(),
    ensures
        result == begins_declaration(text@, at as int),
{
    if text.len() - at < 9 {
        return false;
    }
    let opening = part(text, at, at + 9);
    let expected = characters("<!doctype");
    let mut i: usize = 0;
    proof {
        reveal_strlit("<!doctype");
    }
    while i < 9
        invariant
            i <= 9 == opening@.len() == expected@.len(),
            opening@ == text@.subrange(at as int, at + 9),
            expected@ == "<!doctype"@,
            forall|k: int| 0 <= k < i ==> ascii_lowercase(opening@)[k] == expected@[k],
        decreases 9 - i,
    {
        let c = opening[i];
        let lower = if 'A' <= c && c <= 'Z' {
            (c as u8 + 32) as char
        } else {
            c
        };
        if lower != expected[i] {
            assert(ascii_lowercase(opening@)[i as int] != expected@[i as int]);
            return false;
        }
        i += 1;
    }
    assert(ascii_lowercase(opening@) =~= expected@);
    true
}

/// Tells whether the document type declaration from `at` to `end` has a name.
fn has_name(text: &Vec<char>, at: usize, end: usize) -> (result: bool)
    requires
        at + 9 <= text.len(),
        end <= text.len(),
    ensures
        result == is_named(text@, at as int, end as int),
{
    let mut next: usize = at + 9;
    while next < end
        invariant
            at + 9 <= next,
            end <= text.len(),
            forall|k: int| at + 9 <= k < next && k < end ==> is_blank(#[trigger] text@[k]),
        decreases end - next,
    {
        if text[next] != ' ' && text[next] != '\r' && text[next] != '\n' && text[next] != '\t' {
            assert(!is_blank(text@[next as int]));
            return true;
        }
        next += 1;
    }
    false
}

/// Tells whether `->` stands between `at` and `end` without another dash before
/// it.
fn find_arrow(text: &Vec<char>, at: usize, end: usize) -> (result: bool)
    requires
        at < text.len(),
        end <= text.len(),
    ensures
        result == has_arrow(text@, at as int, end as int),
{
    let mut i: usize = at + 1;
    while i < end
        invariant
            at < i,
            end <= text.len(),
            forall|k: int|
                at < k < i && k < end && #[trigger] text@[k] == '-' && text@[k - 1] != '-' ==> !(k + 1
                    < text.len() && text@[k + 1] == '>'),
        decreases end - i,
    {
        if text[i] == '-' && text[i - 1] != '-' && text.len() - i > 1 && text[i + 1] == '>' {
            return true;
        }
        i += 1;
    }
    false
}

/// Tells whether it is unclear where a document type declaration ends.
fn ends_unclear(text: &Vec<char>, at: usize) -> (result: bool)
    requires
        at < text.len(),
    ensures
        result == is_unclear(text@, at as int),
{
    if !is_declaration_at(text, at) {
        return false;
    }
    let end = match find_declaration_end(text, at) {
        Some(end) => end,
        None => text.len(),
    };
    end - at > 512 && find_arrow(text, at, end)
}

/// Finds the end of what is passed over at `at`.
fn pass_over(text: &Vec<char>, at: usize) -> (end: Option<usize>)
    requires
        at < text.len(),
        text@[at as int] == '<',
    ensures
        match piece_at(text@, at as int) {
            Piece::Passed(next) => end matches Some(found) && found == next && at < found
                <= text.len(),
            Piece::Closing | Piece::Unclear => true,
            _ => end is None,
        },
{
    proof {
        lemma_openings(text@, at as int);
        reveal_strlit("-->");
        reveal_strlit("]]>");
        reveal_strlit("?>");
    }
    if reads_at(text, "<!--", at) {
        find_mark_end(text, "-->", at, 7)
    } else if reads_at(text, "<![CDATA[", at) {
        find_mark_end(text, "]]>", at, 12)
    } else if reads_at(text, "<?", at) {
        if reads_at(text, "<?>", at) {
            None
        } else {
            find_mark_end(text, "?>", at, 4)
        }
    } else {
        match find_declaration_end(text, at) {
            Some(end) => if is_declaration_at(text, at) && has_name(text, at, end) {
                Some(end + 1)
            } else {
                None
            },
            None => None,
        }
    }
}

/// What was read of the content of an element.
enum Reading {
    Read(Vec<char>, usize),
    Unclear,
    Broken,
}

/// Reads the content that begins at `start`, and finds its closing tag.
fn read_content(text: &Vec<char>, start: usize) -> (result: Reading)
    requires
        start <= text.len(),
    ensures
        match content(text@, start as int, Seq::empty()) {
            Content::Read(characters, closing) => result matches Reading::Read(found, at) && found@
                == characters && at == closing && start <= at < text.len(),
            Content::Unclear => result is Unclear,
            Content::Broken => result is Broken,
        },
{
    let mut before: Vec<char> = Vec::new();
    let mut at: usize = start;
    while at < text.len()
        invariant
            start <= at <= text.len(),
            content(text@, start as int, Seq::empty()) == content(text@, at as int, before@),
        decreases text.len() - at,
    {
        proof {
            lemma_openings(text@, at as int);
            if begins_declaration(text@, at as int) {
                lemma_declaration_opening(text@, at as int);
            }
        }
        let c = text[at];
        if c == '&' {
            let end = find_reference_end(text, at + 1);
            if end == text.len() || text[end] != ';' {
                return Reading::Broken;
            }
            match read_reference(&part(text, at + 1, end)) {
                Reference::Ascii(meant) => before.push(meant),
                Reference::Nothing => {},
                Reference::Alien => return Reading::Broken,
            }
            at = end + 1;
        } else if c != '<' {
            before.push(c);
            at += 1;
        } else if reads_at(text, "</", at) {
            return Reading::Read(before, at);
        } else if ends_unclear(text, at) {
            return Reading::Unclear;
        } else {
            match pass_over(text, at) {
                Some(end) => {
                    at = end;
                },
                None => return Reading::Broken,
            }
        }
    }
    Reading::Broken
}

/// Finds the end of the opening tag of the date element that begins at `at`.
fn find_date_tag_end(text: &Vec<char>, at: usize) -> (end: Option<usize>)
    requires
        at < text.len(),
    ensures
        match date_tag_end(text@, at as int) {
            Some(position) => end matches Some(found) && found == position && at < found
                < text.len(),
            None => end is None,
        },
{
    if text.len() - at < 2 || text[at] != '<' {
        return None;
    }
    let second = text[at + 1];
    if second == '/' || second == '!' || second == '?' {
        return None;
    }
    let end = match find_tag_end(text, at + 1, false) {
        Some(end) => end,
        None => return None,
    };
    let name = part(text, at + 1, find_name_end(text, at + 1, end));
    if text[end - 1] != '/' && is_date_name(&name) {
        Some(end)
    } else {
        None
    }
}

/// Tells whether a closing tag has the name `name`.
fn is_closed_by(text: &Vec<char>, at: usize, end: usize, name: &Vec<char>) -> (result: bool)
    requires
        at < end < text@.len(),
    ensures
        result == closes(text@, at as int, end as int, name@),
{
    if end - at < 2 || name.len() > end - at - 2 || !stands_at(text, name, at + 2) {
        return false;
    }
    let mut i: usize = at + 2 + name.len();
    while i < end
        invariant
            at + 2 + name@.len() <= i <= end < text@.len(),
            occurs_at(text@, name@, at + 2),
            forall|k: int| at + 2 + name@.len() <= k < i ==> is_blank(#[trigger] text@[k]),
        decreases end - i,
    {
        if text[i] != ' ' && text[i] != '\r' && text[i] != '\n' && text[i] != '\t' {
            assert(!is_blank(text@[i as int]));
            return false;
        }
        i += 1;
    }
    true
}

/// Tells whether bytes are UTF-8.
///
/// `std::str::from_utf8` gives an error exactly where they are not.
#[verifier::external_body]
fn is_utf8(bytes: &[u8]) -> (result: bool)
    ensures
        result == valid_utf8(bytes@),
{
    std::str::from_utf8(bytes).is_ok()
}

/// Tells whether a date element begins at `at` that holds a date past the range.
/// `text` is the document as characters.
fn is_date_past_range(bytes: &[u8], text: &Vec<char>, at: usize) -> (result: bool)
    requires
        at < text.len(),
        text@ == byte_chars(bytes@),
    ensures
        result == date_past_range(bytes@, at as int),
{
    let end = match find_date_tag_end(text, at) {
        Some(end) => end,
        None => return false,
    };
    let (date, closing) = match read_content(text, end + 1) {
        Reading::Read(date, closing) => (date, closing),
        Reading::Unclear => return true,
        Reading::Broken => return false,
    };
    if !past_range(&date) {
        return false;
    }
    let last = match find_tag_end(text, closing + 1, false) {
        Some(last) => last,
        None => return false,
    };
    let name = part(text, at + 1, find_name_end(text, at + 1, end));
    if !is_closed_by(text, closing, last, &name) {
        return false;
    }
    let element = copy_bytes(bytes, at, last + 1);
    is_utf8(element.as_slice())
}

/// The bytes from `start` to `end`.
fn copy_bytes(bytes: &[u8], start: usize, end: usize) -> (result: Vec<u8>)
    requires
        start <= end <= bytes@.len(),
    ensures
        result@ == bytes@.subrange(start as int, end as int),
{
    let length = bytes.len();
    let mut result: Vec<u8> = Vec::new();
    let mut i: usize = start;
    while i < end
        invariant
            start <= i <= end <= bytes@.len() == length,
            result@ == bytes@.subrange(start as int, i as int),
        decreases end - i,
    {
        result.push(bytes[i]);
        i += 1;
        assert(result@ =~= bytes@.subrange(start as int, i as int));
    }
    result
}

/// Asks what is wrong with a document as XML.
///
/// `plist::Value::from_reader_xml` reads the bytes as an XML property list, and
/// gives the value or an error, of which the text is kept. Either depends on the
/// bytes alone. Only a date past the year 9999 in UTC makes it panic. A document
/// so large or so deeply nested that memory or stack run out is beyond what is
/// said here.
#[verifier::external_body]
fn read_xml_error(bytes: &[u8]) -> (error: Option<String>)
    requires
        no_past_range(bytes@),
    ensures
        match error {
            Some(text) => xml_error(bytes@) == Some(text@),
            None => xml_error(bytes@) is None,
        },
{
    plist::Value::from_reader_xml(bytes).err().map(|error| error.to_string())
}

/// Nothing begins outside of a document.
proof fn lemma_inside(bytes: Seq<u8>, at: int)
    requires
        date_past_range(bytes, at),
    ensures
        0 <= at < bytes.len(),
{
}

/// Tells whether nothing in a document looks like a date past the range.
fn has_no_past_range(bytes: &[u8]) -> (result: bool)
    ensures
        result == no_past_range(bytes@),
{
    let text = byte_characters(bytes);
    let mut at: usize = 0;
    while at < text.len()
        invariant
            at <= text@.len(),
            text@ == byte_chars(bytes@),
            forall|k: int| 0 <= k < at ==> !#[trigger] date_past_range(bytes@, k),
        decreases text@.len() - at,
    {
        if is_date_past_range(bytes, &text, at) {
            return false;
        }
        at += 1;
    }
    assert forall|k: int| !#[trigger] date_past_range(bytes@, k) by {
        if date_past_range(bytes@, k) {
            lemma_inside(bytes@, k);
        }
    }
    true
}

/// Finds where the letters `date` stand in the name of the date element that
/// begins at `at`.
fn find_letters(bytes: &[u8], text: &Vec<char>, at: usize) -> (letters: usize)
    requires
        at < bytes@.len(),
        text@ == byte_chars(bytes@),
        date_past_range(bytes@, at as int),
    ensures
        letters == letters_at(bytes@, at as int),
        letters + 4 <= bytes@.len(),
{
    match find_date_tag_end(text, at) {
        Some(end) => {
            let last = find_name_end(text, at + 1, end);
            proof {
                reveal_strlit("date");
                tag_name(text@, at as int, end as int).index_of_first_ensures(':');
                assert(local_name(tag_name(text@, at as int, end as int)).len() == 4);
            }
            last - 4
        },
        None => 0,
    }
}

/// Whether `at` is where the letter `index` of `date` stands in what looks like a
/// date past the range and begins before `limit`.
spec fn is_letter_before(bytes: Seq<u8>, index: int, at: int, limit: int) -> bool {
    exists|k: int|
        k < limit && #[trigger] date_past_range(bytes, k) && letters_at(bytes, k) + index == at
}

/// Writes `letter` for the letter `index` of `date` in the opening tags of what
/// looks like dates past the range.
fn rename(bytes: &[u8], index: usize, letter: u8) -> (result: Vec<u8>)
    requires
        index < 4,
    ensures
        result@ == renamed(bytes@, index as int, letter),
{
    let text = byte_characters(bytes);
    let mut result = copy_bytes(bytes, 0, bytes.len());
    let mut at: usize = 0;
    assert forall|i: int| !#[trigger] is_letter_before(bytes@, index as int, i, 0) by {
        if is_letter_before(bytes@, index as int, i, 0) {
            let k = choose|k: int|
                k < 0 && #[trigger] date_past_range(bytes@, k) && letters_at(bytes@, k) + index == i;
            lemma_inside(bytes@, k);
        }
    }
    while at < text.len()
        invariant
            at <= text@.len(),
            index < 4,
            text@ == byte_chars(bytes@),
            result@.len() == bytes@.len(),
            forall|i: int|
                0 <= i < bytes@.len() ==> #[trigger] result@[i] == if is_letter_before(
                    bytes@,
                    index as int,
                    i,
                    at as int,
                ) {
                    letter
                } else {
                    bytes@[i]
                },
        decreases text@.len() - at,
    {
        let ghost before = result@;
        let found = is_date_past_range(bytes, &text, at);
        if found {
            let letters = find_letters(bytes, &text, at);
            result.set(letters + index, letter);
        }
        proof {
            assert forall|i: int| 0 <= i < bytes@.len() implies #[trigger] result@[i]
                == if is_letter_before(bytes@, index as int, i, at + 1) {
                letter
            } else {
                bytes@[i]
            } by {
                assert(before[i] == if is_letter_before(bytes@, index as int, i, at as int) {
                    letter
                } else {
                    bytes@[i]
                });
                if found && letters_at(bytes@, at as int) + index == i {
                    assert(is_letter_before(bytes@, index as int, i, at + 1));
                } else if is_letter_before(bytes@, index as int, i, at + 1) {
                    let k = choose|k: int|
                        k < at + 1 && #[trigger] date_past_range(bytes@, k) && letters_at(bytes@, k)
                            + index == i;
                    assert(k < at);
                    assert(is_letter_before(bytes@, index as int, i, at as int));
                } else {
                    assert(!is_letter_before(bytes@, index as int, i, at as int)) by {
                        if is_letter_before(bytes@, index as int, i, at as int) {
                            let k = choose|k: int|
                                k < at && #[trigger] date_past_range(bytes@, k) && letters_at(
                                    bytes@,
                                    k,
                                ) + index == i;
                            assert(k < at + 1);
                        }
                    }
                }
            }
        }
        at += 1;
    }
    assert forall|i: int| 0 <= i < bytes@.len() implies #[trigger] result@[i] == renamed(
        bytes@,
        index as int,
        letter,
    )[i] by {
        if is_letter(bytes@, index as int, i) {
            let k = choose|k: int| #[trigger]
                date_past_range(bytes@, k) && letters_at(bytes@, k) + index == i;
            lemma_inside(bytes@, k);
            assert(is_letter_before(bytes@, index as int, i, at as int));
        }
    }
    assert(result@ =~= renamed(bytes@, index as int, letter));
    result
}

/// Whether two errors are the same.
fn same_error(left: &Option<String>, right: &Option<String>) -> (same: bool)
    ensures
        same == match (*left, *right) {
            (Some(l), Some(r)) => l@ == r@,
            (None, None) => true,
            _ => false,
        },
{
    match (left, right) {
        (Some(left), Some(right)) => same_text(left.as_str(), right.as_str()),
        (None, None) => true,
        _ => false,
    }
}

/// Tells whether the XML reader does not come to what looks like a date past the
/// range.
fn is_past_range_unread(bytes: &[u8]) -> (result: bool)
    ensures
        result == past_range_unread(bytes@),
{
    let xates = rename(bytes, 0, 0x78);
    let data = rename(bytes, 3, 0x61);
    if !has_no_past_range(xates.as_slice()) || !has_no_past_range(data.as_slice()) {
        return false;
    }
    same_error(&read_xml_error(xates.as_slice()), &read_xml_error(data.as_slice()))
}

/// Tells whether a document begins with text outside of markup.
fn is_text_first(text: &Vec<char>) -> (result: bool)
    ensures
        result == begins_with_text(text@, 0),
{
    let mut at: usize = 0;
    while at < text.len()
        invariant
            at <= text@.len(),
            begins_with_text(text@, 0) == begins_with_text(text@, at as int),
        decreases text@.len() - at,
    {
        let c = text[at];
        if !('\u{9}' <= c && c <= '\u{d}') && c != ' ' {
            return c < '\u{80}' && c != '<' && c != '&';
        }
        at += 1;
    }
    false
}

/// Tells whether the property list reader comes to no date past the range when it
/// reads a document.
pub fn check_dates(bytes: &[u8]) -> (result: bool)
    ensures
        result == dates_in_range(bytes@),
{
    let text = byte_characters(bytes);
    reads_at(&text, "bplist00", 0) || is_text_first(&text) || has_no_past_range(bytes)
        || is_past_range_unread(bytes)
}

} // verus!
