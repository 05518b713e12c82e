//! Laws of numbers as text, of padding and of searching in text.

use vstd::prelude::*;

use crate::stat::{comma_grouped, digits_value, parsed_u32, unsigned_digits};
use crate::text::{
    blanks, contains_text, decimal, digit_char, find_from, hexadecimal, is_white_space, left_aligned,
    lemma_find_from, occurs_at, right_aligned, signed_decimal, trimmed_end,
};

verus! {

/// Law: a number in base ten is made of decimal digits, has no leading zero
/// unless it is zero, and read digit by digit it is the number.
pub proof fn law_decimal(n: nat)
    ensures
        decimal(n).len() > 0,
        forall|i: int| 0 <= i < decimal(n).len() ==> '0' <= #[trigger] decimal(n)[i] <= '9',
        if n == 0 {
            decimal(n).len() == 1
        } else {
            decimal(n)[0] != '0'
        },
        decimal(n).fold_left(0int, |v: int, c: char| 10 * v + (c as int - '0' as int)) == n,
    decreases n,
{
    let f = |v: int, c: char| 10 * v + (c as int - '0' as int);
    if n < 10 {
        assert(decimal(n).drop_last() =~= Seq::<char>::empty());
        assert(decimal(n).drop_last().fold_left(0int, f) == 0);
    } else {
        law_decimal(n / 10);
        assert(decimal(n).drop_last() =~= decimal(n / 10));
        assert(decimal(n).last() == digit_char(n % 10));
        assert(decimal(n)[0] == decimal(n / 10)[0]);
    }
}

/// Law: a number in base sixteen is made of digits and the letters `a` to `f`,
/// has no leading zero unless it is zero, and read digit by digit it is the
/// number.
pub proof fn law_hexadecimal(n: nat)
    ensures
        hexadecimal(n).len() > 0,
        forall|i: int|
            0 <= i < hexadecimal(n).len() ==> '0' <= #[trigger] hexadecimal(n)[i] <= '9' || 'a'
                <= hexadecimal(n)[i] <= 'f',
        if n == 0 {
            hexadecimal(n).len() == 1
        } else {
            hexadecimal(n)[0] != '0'
        },
        hexadecimal(n).fold_left(
            0int,
            |v: int, c: char|
                16 * v + (if c <= '9' {
                    c as int - '0' as int
                } else {
                    c as int - 'a' as int + 10
                }),
        ) == n,
    decreases n,
{
    let f = |v: int, c: char|
        16 * v + (if c <= '9' {
            c as int - '0' as int
        } else {
            c as int - 'a' as int + 10
        });
    if n < 16 {
        assert(hexadecimal(n).drop_last() =~= Seq::<char>::empty());
        assert(hexadecimal(n).drop_last().fold_left(0int, f) == 0);
    } else {
        law_hexadecimal(n / 16);
        assert(hexadecimal(n).drop_last() =~= hexadecimal(n / 16));
        assert(hexadecimal(n).last() == digit_char(n % 16));
        assert(hexadecimal(n)[0] == hexadecimal(n / 16)[0]);
    }
}

/// Law: a number is written with a minus exactly where it is negative, and what
/// follows is its magnitude.
pub proof fn law_signed_decimal(n: int)
    ensures
        n < 0 ==> signed_decimal(n).len() > 1 && signed_decimal(n)[0] == '-'
            && signed_decimal(n).drop_first() == decimal((-n) as nat),
        n >= 0 ==> signed_decimal(n) == decimal(n as nat),
{
    reveal_strlit("-");
    if n < 0 {
        law_decimal((-n) as nat);
        assert(signed_decimal(n).drop_first() =~= decimal((-n) as nat));
    }
}

/// Law: alignment adds blanks and nothing else, on one side, and no more than
/// the width asks for.
pub proof fn law_alignment(text: Seq<char>, width: nat)
    ensures
        right_aligned(text, width).len() == if text.len() < width {
            width
        } else {
            text.len()
        },
        left_aligned(text, width).len() == right_aligned(text, width).len(),
        forall|i: int|
            0 <= i < text.len() ==> right_aligned(text, width)[right_aligned(text, width).len()
                - text.len() + i] == #[trigger] text[i] && left_aligned(text, width)[i] == text[i],
        forall|i: int|
            0 <= i < right_aligned(text, width).len() - text.len() ==> #[trigger] right_aligned(
                text,
                width,
            )[i] == ' ',
        forall|i: int|
            text.len() <= i < left_aligned(text, width).len() ==> #[trigger] left_aligned(
                text,
                width,
            )[i] == ' ',
        blanks(width).len() == width,
        forall|i: int| 0 <= i < width ==> #[trigger] blanks(width)[i] == ' ',
{
}

/// Law: a grouped number begins with a digit, has a comma at every fourth place
/// from the right and digits at all others, no leading zero unless it is zero,
/// and without the commas it is the number.
#[verifier::rlimit(40)]
pub proof fn law_grouped(n: nat)
    ensures
        comma_grouped(n).len() > 0,
        '0' <= comma_grouped(n)[0] <= '9',
        if n == 0 {
            comma_grouped(n).len() == 1
        } else {
            comma_grouped(n)[0] != '0'
        },
        forall|i: int|
            0 <= i < comma_grouped(n).len() ==> if (comma_grouped(n).len() - i) % 4 == 0 {
                #[trigger] comma_grouped(n)[i] == ','
            } else {
                '0' <= comma_grouped(n)[i] <= '9'
            },
        comma_grouped(n).fold_left(
            0int,
            |v: int, c: char|
                if c == ',' {
                    v
                } else {
                    10 * v + (c as int - '0' as int)
                },
        ) == n,
    decreases n,
{
    law_decimal(n);
    if n < 1000 {
        lemma_short_decimal(n);
        lemma_fold_digits(decimal(n));
    } else {
        law_grouped(n / 1000);
        let m = n % 1000;
        let (x, y, z) = (m / 100 % 10, m / 10 % 10, m % 10);
        reveal_strlit(",");
        assert(comma_grouped(n) =~= comma_grouped(n / 1000) + seq![
            ',',
            digit_char(x),
            digit_char(y),
            digit_char(z),
        ]);
        lemma_group_places(comma_grouped(n / 1000), x, y, z);
        lemma_group_value(comma_grouped(n / 1000), x, y, z);
    }
}

proof fn lemma_group_places(front: Seq<char>, x: nat, y: nat, z: nat)
    requires
        x < 10,
        y < 10,
        z < 10,
        forall|i: int|
            0 <= i < front.len() ==> if (front.len() - i) % 4 == 0 {
                #[trigger] front[i] == ','
            } else {
                '0' <= front[i] <= '9'
            },
    ensures
        ({
            let text = front + seq![',', digit_char(x), digit_char(y), digit_char(z)];
            forall|i: int|
                0 <= i < text.len() ==> if (text.len() - i) % 4 == 0 {
                    #[trigger] text[i] == ','
                } else {
                    '0' <= text[i] <= '9'
                }
        }),
{
    let text = front + seq![',', digit_char(x), digit_char(y), digit_char(z)];
    assert forall|i: int| 0 <= i < text.len() implies if (text.len() - i) % 4 == 0 {
        #[trigger] text[i] == ','
    } else {
        '0' <= text[i] <= '9'
    } by {
        if i < front.len() {
            assert(text[i] == front[i]);
            assert((text.len() - i) % 4 == (front.len() - i) % 4);
        }
    }
}

proof fn lemma_group_value(front: Seq<char>, x: nat, y: nat, z: nat)
    requires
        x < 10,
        y < 10,
        z < 10,
    ensures
        ({
            let f = |v: int, c: char|
                if c == ',' {
                    v
                } else {
                    10 * v + (c as int - '0' as int)
                };
            (front + seq![',', digit_char(x), digit_char(y), digit_char(z)]).fold_left(0int, f)
                == 1000 * front.fold_left(0int, f) + 100 * x + 10 * y + z
        }),
{
    let f = |v: int, c: char|
        if c == ',' {
            v
        } else {
            10 * v + (c as int - '0' as int)
        };
    let one = front + seq![','];
    let two = one.push(digit_char(x));
    let three = two.push(digit_char(y));
    let four = three.push(digit_char(z));
    assert(front + seq![',', digit_char(x), digit_char(y), digit_char(z)] =~= four);
    assert(one.drop_last() =~= front);
    assert(two.drop_last() =~= one);
    assert(three.drop_last() =~= two);
    assert(four.drop_last() =~= three);
    assert(one.fold_left(0int, f) == front.fold_left(0int, f));
    assert(two.fold_left(0int, f) == 10 * one.fold_left(0int, f) + x);
    assert(three.fold_left(0int, f) == 10 * two.fold_left(0int, f) + y);
    assert(four.fold_left(0int, f) == 10 * three.fold_left(0int, f) + z);
}

proof fn lemma_short_decimal(n: nat)
    requires
        n < 1000,
    ensures
        decimal(n).len() <= 3,
{
    reveal_with_fuel(decimal, 3);
}

proof fn lemma_fold_digits(digits: Seq<char>)
    requires
        forall|i: int| 0 <= i < digits.len() ==> '0' <= #[trigger] digits[i] <= '9',
    ensures
        digits.fold_left(
            0int,
            |v: int, c: char|
                if c == ',' {
                    v
                } else {
                    10 * v + (c as int - '0' as int)
                },
        ) == digits.fold_left(0int, |v: int, c: char| 10 * v + (c as int - '0' as int)),
    decreases digits.len(),
{
    if digits.len() > 0 {
        let front = digits.drop_last();
        assert forall|i: int| 0 <= i < front.len() implies '0' <= #[trigger] front[i] <= '9' by {
            assert(front[i] == digits[i]);
        }
        lemma_fold_digits(front);
        assert(digits.last() == digits[digits.len() - 1]);
    }
}

/// Law: a text is parsed as a number exactly where it is decimal digits, one or
/// more, behind an optional plus, and the number that they are fits in 32 bits;
/// and then that number comes out.
pub proof fn law_parsed(digits: Seq<char>)
    ensures
        ({
            let value = digits.fold_left(0int, |v: int, c: char| 10 * v + (c as int - '0' as int));
            let valid = digits.len() > 0 && (forall|i: int|
                0 <= i < digits.len() ==> '0' <= #[trigger] digits[i] <= '9') && value
                <= 0xffff_ffff;
            &&& digits.len() == 0 || digits[0] != '+' ==> parsed_u32(digits) == if valid {
                Some(value as u32)
            } else {
                None
            }
            &&& parsed_u32(seq!['+'] + digits) == if valid {
                Some(value as u32)
            } else {
                None
            }
        }),
{
    lemma_digits_value(digits);
    assert(unsigned_digits(seq!['+'] + digits) =~= digits);
}

proof fn lemma_digits_value(digits: Seq<char>)
    ensures
        digits_value(digits) is Some <==> forall|i: int|
            0 <= i < digits.len() ==> '0' <= #[trigger] digits[i] <= '9',
        digits_value(digits) matches Some(value) ==> value == digits.fold_left(
            0int,
            |v: int, c: char| 10 * v + (c as int - '0' as int),
        ),
    decreases digits.len(),
{
    if digits.len() > 0 {
        let front = digits.drop_last();
        lemma_digits_value(front);
        assert(digits.last() == digits[digits.len() - 1]);
        if digits_value(digits) is Some {
            assert forall|i: int| 0 <= i < digits.len() implies '0' <= #[trigger] digits[i]
                <= '9' by {
                if i < front.len() {
                    assert(front[i] == digits[i]);
                }
            }
        }
        if forall|i: int| 0 <= i < digits.len() ==> '0' <= #[trigger] digits[i] <= '9' {
            assert forall|i: int| 0 <= i < front.len() implies '0' <= #[trigger] front[i] <= '9' by {
                assert(front[i] == digits[i]);
            }
        }
    }
}

/// Law: a text that is put together of any text, a pattern and any text
/// contains the pattern.
pub proof fn law_contains_what_is_inside(before: Seq<char>, pattern: Seq<char>, after: Seq<char>)
    ensures
        contains_text(before + pattern + after, pattern),
        find_from(before + pattern + after, pattern, 0) matches Some(at) && at <= before.len(),
{
    let text = before + pattern + after;
    assert(text.subrange(before.len() as int, (before.len() + pattern.len()) as int) =~= pattern);
    assert(occurs_at(text, pattern, before.len() as int));
    lemma_find_from(text, pattern, 0);
}

/// Law: a text that contains a pattern is put together of some text, the
/// pattern and some text; and where the pattern is found, it stands, and stands
/// nowhere before.
pub proof fn law_contained_is_inside(text: Seq<char>, pattern: Seq<char>) -> (at: nat)
    requires
        contains_text(text, pattern),
    ensures
        at + pattern.len() <= text.len(),
        text == text.take(at as int) + pattern + text.skip((at + pattern.len()) as int),
        find_from(text, pattern, 0) == Some(at),
        forall|k: int|
            #![trigger text.subrange(k, k + pattern.len())]
            0 <= k < at ==> text.subrange(k, k + pattern.len()) != pattern,
{
    lemma_find_from(text, pattern, 0);
    let at = find_from(text, pattern, 0)->0;
    assert(text.subrange(at as int, (at + pattern.len()) as int) == pattern);
    assert(text =~= text.take(at as int) + text.subrange(at as int, (at + pattern.len()) as int) + text.skip(
        (at + pattern.len()) as int,
    ));
    assert forall|k: int|
        #![trigger text.subrange(k, k + pattern.len())]
        0 <= k < at implies text.subrange(k, k + pattern.len()) != pattern by {
        assert(!occurs_at(text, pattern, k));
    }
    at
}

/// Law: the characters that count as white space are those with the numbers 9 to
/// 13, 32, 133, 160, 5760, 8192 to 8202, 8232, 8233, 8239, 8287 and 12288.
pub proof fn law_white_space(c: char)
    ensures
        is_white_space(c) <==> ({
            let n = c as int;
            9 <= n <= 13 || n == 32 || n == 133 || n == 160 || n == 5760 || 8192 <= n <= 8202 || n
                == 8232 || n == 8233 || n == 8239 || n == 8287 || n == 12288
        }),
{
}

/// Law: trimming takes white space off the end, all of it and nothing else.
pub proof fn law_trimmed(text: Seq<char>)
    ensures
        trimmed_end(text).len() <= text.len(),
        trimmed_end(text) == text.take(trimmed_end(text).len() as int),
        forall|i: int|
            trimmed_end(text).len() <= i < text.len() ==> is_white_space(#[trigger] text[i]),
        trimmed_end(text).len() > 0 ==> !is_white_space(trimmed_end(text).last()),
    decreases text.len(),
{
    if text.len() > 0 && is_white_space(text.last()) {
        let front = text.drop_last();
        law_trimmed(front);
        assert(front.take(trimmed_end(front).len() as int) =~= text.take(
            trimmed_end(front).len() as int,
        ));
        assert forall|i: int| trimmed_end(text).len() <= i < text.len() implies is_white_space(
            #[trigger] text[i],
        ) by {
            if i < front.len() {
                assert(front[i] == text[i]);
            }
        }
    } else {
        assert(text.take(text.len() as int) =~= text);
    }
}

} // verus!
