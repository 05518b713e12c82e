//! Numbers as text, padding, and searching in text.

use vstd::prelude::*;
use vstd::string::*;

verus! {

/// The lower case digit of value `d`, for bases up to sixteen.
pub open spec fn digit_char(d: nat) -> char {
    if d < 10 {
        (48 + d) as char
    } else {
        (87 + d) as char
    }
}

/// `n` in base ten, without leading zeros.
pub open spec fn decimal(n: nat) -> Seq<char>
    decreases n,
{
    if n < 10 {
        seq![digit_char(n)]
    } else {
        decimal(n / 10) + seq![digit_char(n % 10)]
    }
}

/// `n` in base sixteen, in lower case and without leading zeros.
pub open spec fn hexadecimal(n: nat) -> Seq<char>
    decreases n,
{
    if n < 16 {
        seq![digit_char(n)]
    } else {
        hexadecimal(n / 16) + seq![digit_char(n % 16)]
    }
}

/// `n` in base ten, with a leading `-` where it is negative.
pub open spec fn signed_decimal(n: int) -> Seq<char> {
    if n < 0 {
        "-"@ + decimal((-n) as nat)
    } else {
        decimal(n as nat)
    }
}

/// `n` blanks.
pub open spec fn blanks(n: nat) -> Seq<char> {
    Seq::new(n, |i: int| ' ')
}

/// `text` with blanks before it, up to `width` characters.
pub open spec fn right_aligned(text: Seq<char>, width: nat) -> Seq<char> {
    if text.len() < width {
        blanks((width - text.len()) as nat) + text
    } else {
        text
    }
}

/// `text` with blanks behind it, up to `width` characters.
pub open spec fn left_aligned(text: Seq<char>, width: nat) -> Seq<char> {
    if text.len() < width {
        text + blanks((width - text.len()) as nat)
    } else {
        text
    }
}

/// The one-character text of a digit.
pub fn digit_text(d: u8) -> (text: &'static str)
    requires
        d < 16,
    ensures
        text@ == seq![digit_char(d as nat)],
{
    proof {
        reveal_strlit("0");
        reveal_strlit("1");
        reveal_strlit("2");
        reveal_strlit("3");
        reveal_strlit("4");
        reveal_strlit("5");
        reveal_strlit("6");
        reveal_strlit("7");
        reveal_strlit("8");
        reveal_strlit("9");
        reveal_strlit("a");
        reveal_strlit("b");
        reveal_strlit("c");
        reveal_strlit("d");
        reveal_strlit("e");
        reveal_strlit("f");
    }
    match d {
        0 => "0",
        1 => "1",
        2 => "2",
        3 => "3",
        4 => "4",
        5 => "5",
        6 => "6",
        7 => "7",
        8 => "8",
        9 => "9",
        10 => "a",
        11 => "b",
        12 => "c",
        13 => "d",
        14 => "e",
        _ => "f",
    }
}

/// Writes a number in base ten.
pub fn decimal_text(n: u64) -> (text: String)
    ensures
        text@ == decimal(n as nat),
    decreases n,
{
    if n < 10 {
        digit_text(n as u8).to_owned()
    } else {
        let mut text = decimal_text(n / 10);
        text.append(digit_text((n % 10) as u8));
        text
    }
}

/// Writes a number in lower case base sixteen.
pub fn hexadecimal_text(n: u64) -> (text: String)
    ensures
        text@ == hexadecimal(n as nat),
    decreases n,
{
    if n < 16 {
        digit_text(n as u8).to_owned()
    } else {
        let mut text = hexadecimal_text(n / 16);
        text.append(digit_text((n % 16) as u8));
        text
    }
}

/// Writes a signed number in base ten.
pub fn signed_decimal_text(n: i32) -> (text: String)
    ensures
        text@ == signed_decimal(n as int),
{
    if n < 0 {
        let mut text = "-".to_owned();
        let magnitude = decimal_text((-(n as i64)) as u64);
        text.append(magnitude.as_str());
        text
    } else {
        decimal_text(n as u64)
    }
}

/// Appends `count` blanks.
pub fn push_blanks(text: &mut String, count: usize)
    ensures
        final(text)@ == old(text)@ + blanks(count as nat),
{
    let mut done: usize = 0;
    assert(text@ =~= old(text)@ + blanks(0));
    while done < count
        invariant
            done <= count,
            text@ == old(text)@ + blanks(done as nat),
        decreases count - done,
    {
        proof {
            reveal_strlit(" ");
        }
        text.append(" ");
        done += 1;
        assert(text@ =~= old(text)@ + blanks(done as nat));
    }
}

/// Appends `piece`, right-aligned to `width` characters.
pub fn push_right_aligned(text: &mut String, piece: &str, width: usize)
    ensures
        final(text)@ == old(text)@ + right_aligned(piece@, width as nat),
{
    let length = piece.unicode_len();
    if length < width {
        push_blanks(text, width - length);
    }
    text.append(piece);
    assert(text@ =~= old(text)@ + right_aligned(piece@, width as nat));
}

/// Appends `piece`, left-aligned to `width` characters.
pub fn push_left_aligned(text: &mut String, piece: &str, width: usize)
    ensures
        final(text)@ == old(text)@ + left_aligned(piece@, width as nat),
{
    let length = piece.unicode_len();
    text.append(piece);
    if length < width {
        push_blanks(text, width - length);
    }
    assert(text@ =~= old(text)@ + left_aligned(piece@, width as nat));
}

/// Whether two texts are the same.
pub fn same_text(left: &str, right: &str) -> (same: bool)
    ensures
        same == (left@ == right@),
{
    left.to_owned() == right.to_owned()
}

/// The characters of a text.
pub fn characters(text: &str) -> (result: Vec<char>)
    ensures
        result@ == text@,
{
    let mut result: Vec<char> = Vec::new();
    for c in it: text.chars()
        invariant
            it.seq() == text@,
            result@ == text@.take(it.index() as int),
    {
        result.push(c);
        assert(result@ =~= text@.take(it.index() as int + 1));
    }
    assert(text@.take(text@.len() as int) =~= text@);
    result
}

/// Whether `pattern` stands in `text` at position `at`.
pub open spec fn occurs_at(text: Seq<char>, pattern: Seq<char>, at: int) -> bool {
    &&& 0 <= at
    &&& at + pattern.len() <= text.len()
    &&& text.subrange(at, at + pattern.len()) == pattern
}

/// The first position from `from` on at which `pattern` stands in `text`.
pub open spec fn find_from(text: Seq<char>, pattern: Seq<char>, from: nat) -> Option<nat>
    decreases text.len() + 1 - from,
{
    if from + pattern.len() > text.len() {
        None
    } else if occurs_at(text, pattern, from as int) {
        Some(from)
    } else {
        find_from(text, pattern, from + 1)
    }
}

/// Whether `pattern` stands anywhere in `text`.
pub open spec fn contains_text(text: Seq<char>, pattern: Seq<char>) -> bool {
    exists|at: int| occurs_at(text, pattern, at)
}

/// [`find_from`] finds an occurrence exactly where there is one, and no later
/// than any other.
pub proof fn lemma_find_from(text: Seq<char>, pattern: Seq<char>, from: nat)
    ensures
        match find_from(text, pattern, from) {
            Some(at) => from <= at && occurs_at(text, pattern, at as int) && forall|k: int|
                from <= k < at ==> !occurs_at(text, pattern, k),
            None => forall|k: int| from <= k ==> !occurs_at(text, pattern, k),
        },
    decreases text.len() + 1 - from,
{
    if from + pattern.len() <= text.len() && !occurs_at(text, pattern, from as int) {
        lemma_find_from(text, pattern, from + 1);
    }
}

/// Whether `pattern` stands at `at`.
pub(crate) fn stands_at(text: &Vec<char>, pattern: &Vec<char>, at: usize) -> (found: bool)
    requires
        at + pattern@.len() <= text@.len(),
    ensures
        found == occurs_at(text@, pattern@, at as int),
{
    let length = text.len();
    let mut i: usize = 0;
    while i < pattern.len()
        invariant
            i <= pattern@.len(),
            at + pattern@.len() <= text@.len() == length,
            forall|k: int| 0 <= k < i ==> text@[at + k] == pattern@[k],
        decreases pattern@.len() - i,
    {
        if text[at + i] != pattern[i] {
            assert(text@.subrange(at as int, at + pattern@.len())[i as int] != pattern@[i as int]);
            return false;
        }
        i += 1;
    }
    assert(text@.subrange(at as int, at + pattern@.len()) =~= pattern@);
    true
}

/// Finds the first occurrence of `pattern`.
pub fn find(text: &str, pattern: &str) -> (position: Option<usize>)
    ensures
        match find_from(text@, pattern@, 0) {
            Some(at) => position matches Some(p) && p == at,
            None => position is None,
        },
{
    let all = characters(text);
    let wanted = characters(pattern);
    if wanted.len() > all.len() {
        return None;
    }
    let last = all.len() - wanted.len();
    let mut at: usize = 0;
    loop
        invariant
            all@ == text@,
            wanted@ == pattern@,
            at <= last,
            last + wanted@.len() == all@.len(),
            find_from(text@, pattern@, 0) == find_from(text@, pattern@, at as nat),
        decreases last - at,
    {
        if stands_at(&all, &wanted, at) {
            return Some(at);
        }
        if at == last {
            assert(find_from(text@, pattern@, (at + 1) as nat) is None);
            return None;
        }
        at += 1;
    }
}

/// Whether `pattern` stands anywhere in `text`.
pub fn contains(text: &str, pattern: &str) -> (found: bool)
    ensures
        found == contains_text(text@, pattern@),
{
    proof {
        lemma_find_from(text@, pattern@, 0);
    }
    find(text, pattern).is_some()
}

/// Whether `text` begins with `prefix`.
pub fn starts_with(text: &str, prefix: &str) -> (found: bool)
    ensures
        found == prefix@.is_prefix_of(text@),
{
    let text = characters(text);
    let prefix = characters(prefix);
    prefix.len() <= text.len() && stands_at(&text, &prefix, 0)
}

/// Whether `text` ends with `suffix`.
pub fn ends_with(text: &str, suffix: &str) -> (found: bool)
    ensures
        found == suffix@.is_suffix_of(text@),
{
    let text = characters(text);
    let suffix = characters(suffix);
    suffix.len() <= text.len() && stands_at(&text, &suffix, text.len() - suffix.len())
}

/// Whether a text is made of ASCII characters alone.
pub open spec fn is_ascii(text: Seq<char>) -> bool {
    forall|i: int| 0 <= i < text.len() ==> #[trigger] text[i] < '\u{80}'
}

/// The lower case form of an ASCII character.
pub open spec fn ascii_lower(c: char) -> char {
    if 'A' <= c <= 'Z' {
        (c as int + 32) as char
    } else {
        c
    }
}

/// A text with each ASCII character in lower case.
pub open spec fn ascii_lowercase(text: Seq<char>) -> Seq<char> {
    Seq::new(text.len(), |i: int| ascii_lower(text[i]))
}

/// The characters with the Unicode property `White_Space`.
pub open spec fn is_white_space(c: char) -> bool {
    ||| '\u{9}' <= c <= '\u{d}'
    ||| c == ' '
    ||| c == '\u{85}'
    ||| c == '\u{a0}'
    ||| c == '\u{1680}'
    ||| '\u{2000}' <= c <= '\u{200a}'
    ||| c == '\u{2028}'
    ||| c == '\u{2029}'
    ||| c == '\u{202f}'
    ||| c == '\u{205f}'
    ||| c == '\u{3000}'
}

/// Whether `c` has the Unicode property `White_Space`.
pub fn white_space(c: char) -> (result: bool)
    ensures
        result == is_white_space(c),
{
    ('\u{9}' <= c && c <= '\u{d}') || c == ' ' || c == '\u{85}' || c == '\u{a0}' || c == '\u{1680}'
        || ('\u{2000}' <= c && c <= '\u{200a}') || c == '\u{2028}' || c == '\u{2029}' || c
        == '\u{202f}' || c == '\u{205f}' || c == '\u{3000}'
}

/// `text` without the white space at its end.
pub open spec fn trimmed_end(text: Seq<char>) -> Seq<char>
    decreases text.len(),
{
    if text.len() > 0 && is_white_space(text.last()) {
        trimmed_end(text.drop_last())
    } else {
        text
    }
}

/// The first `length` characters of `text`, without the white space at their end.
pub fn trim_end(text: &str, length: usize) -> (result: &str)
    requires
        length <= text@.len(),
    ensures
        result@ == trimmed_end(text@.take(length as int)),
{
    let all = characters(text);
    let mut end: usize = length;
    while end > 0 && white_space(all[end - 1])
        invariant
            end <= length <= text@.len(),
            all@ == text@,
            trimmed_end(text@.take(length as int)) == trimmed_end(text@.take(end as int)),
        decreases end,
    {
        assert(text@.take(end as int).drop_last() =~= text@.take(end - 1));
        end -= 1;
    }
    assert(text@.take(end as int) =~= text@.subrange(0, end as int));
    text.substring_char(0, end)
}

} // verus!
