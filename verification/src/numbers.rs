//! Reading numbers out of text.
//!
//! A value of the command line that stands for a real number is kept as the
//! text that spells it, once that text is known to spell one. Nothing here
//! computes with it.

use crate::document::is_digit;
use crate::text::{
    chars_of, decimal, digits_of, law_decimal_spells_its_number, text_of, worth,
};
use vstd::prelude::*;

verus! {

/// A character with the Unicode property `White_Space`.
pub open spec fn is_space(c: char) -> bool {
    ||| '\u{9}' <= c <= '\u{d}'
    ||| c == ' '
    ||| c == '\u{85}'
    ||| c == '\u{a0}'
    ||| c == '\u{1680}'
    ||| '\u{2000}' <= c <= '\u{200a}'
    ||| c == '\u{2028}'
    ||| c == '\u{2029}'
    ||| c == '\u{202f}'
    ||| c == '\u{205f}'
    ||| c == '\u{3000}'
}

/// Whether a character is white space.
pub fn space(c: char) -> (yes: bool)
    ensures
        yes == is_space(c),
{
    ('\u{9}' <= c && c <= '\u{d}') || c == ' ' || c == '\u{85}' || c == '\u{a0}' || c == '\u{1680}'
        || ('\u{2000}' <= c && c <= '\u{200a}') || c == '\u{2028}' || c == '\u{2029}'
        || c == '\u{202f}' || c == '\u{205f}' || c == '\u{3000}'
}

/// A text without the white space at its start.
pub open spec fn trimmed_start(text: Seq<char>) -> Seq<char>
    decreases text.len(),
{
    if text.len() > 0 && is_space(text[0]) {
        trimmed_start(text.skip(1))
    } else {
        text
    }
}

/// A text without the white space at its end.
pub open spec fn trimmed_end(text: Seq<char>) -> Seq<char>
    decreases text.len(),
{
    if text.len() > 0 && is_space(text.last()) {
        trimmed_end(text.drop_last())
    } else {
        text
    }
}

/// A text without the white space at both ends.
pub open spec fn trimmed(text: Seq<char>) -> Seq<char> {
    trimmed_end(trimmed_start(text))
}

/// The characters of a text, without the white space at both ends.
pub fn trim(text: &str) -> (chars: Vec<char>)
    ensures
        chars@ == trimmed(text@),
{
    let all = chars_of(text);
    let mut from: usize = 0;
    assert(all@.skip(0) =~= all@);
    while from < all.len() && space(all[from])
        invariant
            from <= all@.len(),
            all@ == text@,
            trimmed_start(text@) == trimmed_start(all@.skip(from as int)),
        decreases all@.len() - from,
    {
        assert(all@.skip(from as int).skip(1) =~= all@.skip(from + 1));
        from = from + 1;
    }
    let mut to: usize = all.len();
    let ghost kept = all@.skip(from as int);
    assert(kept =~= all@.subrange(from as int, to as int));
    while to > from && space(all[to - 1])
        invariant
            from <= to <= all@.len(),
            trimmed_end(kept) == trimmed_end(all@.subrange(from as int, to as int)),
        decreases to,
    {
        assert(all@.subrange(from as int, to as int).drop_last() =~= all@.subrange(
            from as int,
            to - 1,
        ));
        to = to - 1;
    }
    let mut chars: Vec<char> = Vec::new();
    let mut at: usize = from;
    while at < to
        invariant
            from <= at <= to <= all@.len(),
            chars@ == all@.subrange(from as int, at as int),
        decreases to - at,
    {
        chars.push(all[at]);
        at = at + 1;
    }
    chars
}

/// A text of digits alone.
pub open spec fn all_digits(text: Seq<char>) -> bool {
    forall|i: int| 0 <= i < text.len() ==> is_digit(#[trigger] text[i])
}

/// What a text of digits is worth.
pub open spec fn digits_value(text: Seq<char>) -> int
    decreases text.len(),
{
    if text.len() == 0 {
        0
    } else {
        digits_value(text.drop_last()) * 10 + (text.last() as int - '0' as int)
    }
}

/// A number as a text spells it: digits, behind a sign where there is one.
pub open spec fn spelled(text: Seq<char>) -> Option<int> {
    let signed = text.len() > 0 && (text[0] == '+' || text[0] == '-');
    let digits = if signed {
        text.skip(1)
    } else {
        text
    };
    if digits.len() == 0 || !all_digits(digits) {
        None
    } else if signed && text[0] == '-' {
        Some(-digits_value(digits))
    } else {
        Some(digits_value(digits))
    }
}

/// An unsigned number up to a limit, as a text spells it. A minus sign spells
/// none, not even in front of zero.
pub open spec fn unsigned(text: Seq<char>, limit: int) -> Option<int> {
    if text.len() > 0 && text[0] == '-' {
        None
    } else {
        match spelled(text) {
            Some(value) => if value <= limit {
                Some(value)
            } else {
                None
            },
            None => None,
        }
    }
}

/// A signed number of sixty-four bits, as a text spells it.
pub open spec fn signed_value(text: Seq<char>) -> Option<int> {
    match spelled(text) {
        Some(value) => if i64::MIN <= value <= i64::MAX {
            Some(value)
        } else {
            None
        },
        None => None,
    }
}

proof fn lemma_digits_value(text: Seq<char>)
    requires
        all_digits(text),
    ensures
        digits_value(text) >= 0,
    decreases text.len(),
{
    if text.len() > 0 {
        assert(is_digit(text[text.len() - 1]));
        lemma_digits_value(text.drop_last());
    }
}

proof fn lemma_digits_grow(text: Seq<char>, at: int)
    requires
        all_digits(text),
        0 <= at <= text.len(),
    ensures
        digits_value(text.take(at)) <= digits_value(text),
    decreases text.len(),
{
    if at < text.len() {
        assert(is_digit(text[text.len() - 1]));
        assert(text.drop_last().take(at) =~= text.take(at));
        lemma_digits_grow(text.drop_last(), at);
        lemma_digits_value(text.drop_last());
    } else {
        assert(text.take(at) =~= text);
    }
}

/// The value of the digits from a position on, where it stays within a limit.
fn read_digits(chars: &Vec<char>, from: usize, limit: u64) -> (value: Option<u64>)
    requires
        from <= chars@.len(),
    ensures
        ({
            let digits = chars@.skip(from as int);
            let readable = digits.len() > 0 && all_digits(digits);
            match value {
                Some(value) => readable && digits_value(digits) == value && value <= limit,
                None => !readable || digits_value(digits) > limit,
            }
        }),
{
    let size: usize = chars.len();
    let ghost digits = chars@.skip(from as int);
    if from == size {
        return None;
    }
    let mut at: usize = from;
    while at < size
        invariant
            from <= at <= size == chars@.len(),
            digits == chars@.skip(from as int),
            forall|i: int| 0 <= i < at - from ==> is_digit(#[trigger] digits[i]),
        decreases size - at,
    {
        let c = chars[at];
        if !('0' <= c && c <= '9') {
            assert(!is_digit(digits[at - from]));
            return None;
        }
        assert(digits[at - from] == c);
        at = at + 1;
    }
    let mut value: u64 = 0;
    let mut at: usize = from;
    assert(digits.take(0) =~= Seq::empty());
    while at < size
        invariant
            from <= at <= size == chars@.len(),
            digits == chars@.skip(from as int),
            digits.len() > 0,
            all_digits(digits),
            value == digits_value(digits.take(at - from)),
            value <= limit,
        decreases size - at,
    {
        let c = chars[at];
        proof {
            assert(digits[at - from] == c);
            assert(is_digit(digits[at - from]));
            assert(digits.take(at + 1 - from).drop_last() =~= digits.take(at - from));
            assert(digits.take(at + 1 - from).last() == c);
            lemma_digits_grow(digits, at + 1 - from);
        }
        let digit: u64 = (c as u32 - '0' as u32) as u64;
        if value > limit / 10 {
            return None;
        }
        let tens: u64 = value * 10;
        if digit > limit - tens {
            return None;
        }
        value = tens + digit;
        at = at + 1;
    }
    assert(digits.take(size - from) =~= digits);
    Some(value)
}

/// An unsigned number up to a limit.
pub fn read_unsigned(chars: &Vec<char>, limit: u64) -> (value: Option<u64>)
    ensures
        match value {
            Some(value) => unsigned(chars@, limit as int) == Some(value as int),
            None => unsigned(chars@, limit as int) is None,
        },
{
    assert(chars@.skip(0) =~= chars@);
    if chars.len() > 0 && chars[0] == '-' {
        return None;
    }
    if chars.len() > 0 && chars[0] == '+' {
        read_digits(chars, 1, limit)
    } else {
        read_digits(chars, 0, limit)
    }
}

/// A signed number of sixty-four bits.
pub fn read_signed(chars: &Vec<char>) -> (value: Option<i64>)
    ensures
        match value {
            Some(value) => signed_value(chars@) == Some(value as int),
            None => signed_value(chars@) is None,
        },
{
    assert(chars@.skip(0) =~= chars@);
    if chars.len() > 0 && chars[0] == '-' {
        proof {
            if all_digits(chars@.skip(1)) {
                lemma_digits_value(chars@.skip(1));
            }
        }
        match read_digits(chars, 1, 9223372036854775808u64) {
            Some(size) => if size == 9223372036854775808u64 {
                Some(i64::MIN)
            } else {
                Some(-(size as i64))
            },
            None => None,
        }
    } else {
        let from: usize = if chars.len() > 0 && chars[0] == '+' {
            1
        } else {
            0
        };
        proof {
            if all_digits(chars@.skip(from as int)) {
                lemma_digits_value(chars@.skip(from as int));
            }
        }
        match read_digits(chars, from, 9223372036854775807u64) {
            Some(size) => Some(size as i64),
            None => None,
        }
    }
}

/// A character, with `A` to `Z` made small.
pub open spec fn small(c: char) -> char {
    if 'A' <= c <= 'Z' {
        (c as u32 + 32) as char
    } else {
        c
    }
}

/// A text, with `A` to `Z` made small.
pub open spec fn lowered(text: Seq<char>) -> Seq<char> {
    text.map_values(|c: char| small(c))
}

/// A character, with `A` to `Z` made small.
pub fn small_of(c: char) -> (d: char)
    ensures
        d == small(c),
{
    if 'A' <= c && c <= 'Z' {
        (c as u8 + 32) as char
    } else {
        c
    }
}

/// A text, with `A` to `Z` made small.
pub fn lower(text: &str) -> (small: String)
    ensures
        small@ == lowered(text@),
{
    let chars = chars_of(text);
    let mut out = String::new();
    let mut at: usize = 0;
    while at < chars.len()
        invariant
            at <= chars@.len(),
            chars@ == text@,
            out@ == lowered(text@).take(at as int),
        decreases chars@.len() - at,
    {
        out.push(small_of(chars[at]));
        assert(lowered(text@).take(at + 1) =~= lowered(text@).take(at as int).push(
            lowered(text@)[at as int],
        ));
        at = at + 1;
    }
    assert(out@ =~= lowered(text@));
    out
}

/// How many digits a text begins with.
pub open spec fn digit_run(text: Seq<char>) -> int
    decreases text.len(),
{
    if text.len() > 0 && is_digit(text[0]) {
        1 + digit_run(text.skip(1))
    } else {
        0
    }
}

/// A text without the sign it may begin with.
pub open spec fn unsigned_part(text: Seq<char>) -> Seq<char> {
    if text.len() > 0 && (text[0] == '+' || text[0] == '-') {
        text.skip(1)
    } else {
        text
    }
}

/// An exponent: `e` or `E`, a sign where there is one, and digits.
pub open spec fn is_exponent(text: Seq<char>) -> bool {
    &&& text.len() > 0
    &&& (text[0] == 'e' || text[0] == 'E')
    &&& ({
        let digits = unsigned_part(text.skip(1));
        digits.len() > 0 && all_digits(digits)
    })
}

/// What follows the digits of a number: nothing, or an exponent.
pub open spec fn is_tail(text: Seq<char>) -> bool {
    text.len() == 0 || is_exponent(text)
}

/// Digits with a point among them where there is one, at least one digit, and
/// an exponent where there is one.
pub open spec fn is_number(text: Seq<char>) -> bool {
    let whole = digit_run(text);
    let rest = text.skip(whole);
    if rest.len() > 0 && rest[0] == '.' {
        let fraction = digit_run(rest.skip(1));
        whole + fraction > 0 && is_tail(rest.skip(1 + fraction))
    } else {
        whole > 0 && is_tail(rest)
    }
}

/// A finite real number, as a text spells it.
pub open spec fn is_finite_real(text: Seq<char>) -> bool {
    is_number(unsigned_part(text))
}

/// A real number, as a text spells it: a finite one, infinity, or no number.
pub open spec fn is_real(text: Seq<char>) -> bool {
    let word = lowered(unsigned_part(text));
    is_finite_real(text) || word == "inf"@ || word == "infinity"@ || word == "nan"@
}

proof fn lemma_digit_run(text: Seq<char>)
    ensures
        0 <= digit_run(text) <= text.len(),
    decreases text.len(),
{
    if text.len() > 0 && is_digit(text[0]) {
        lemma_digit_run(text.skip(1));
    }
}

/// How many digits stand from a position on.
fn run_from(chars: &Vec<char>, from: usize) -> (count: usize)
    requires
        from <= chars@.len(),
    ensures
        count == digit_run(chars@.skip(from as int)),
        from + count <= chars@.len(),
{
    let size: usize = chars.len();
    let mut at: usize = from;
    while at < size && '0' <= chars[at] && chars[at] <= '9'
        invariant
            from <= at <= size == chars@.len(),
            digit_run(chars@.skip(from as int)) == at - from + digit_run(chars@.skip(at as int)),
        decreases size - at,
    {
        assert(chars@.skip(at as int).skip(1) =~= chars@.skip(at + 1));
        at = at + 1;
    }
    at - from
}

/// Whether nothing or an exponent stands from a position on.
fn tail_from(chars: &Vec<char>, from: usize) -> (yes: bool)
    requires
        from <= chars@.len(),
    ensures
        yes == is_tail(chars@.skip(from as int)),
{
    let size: usize = chars.len();
    let ghost text = chars@.skip(from as int);
    if from == size {
        return true;
    }
    if chars[from] != 'e' && chars[from] != 'E' {
        return false;
    }
    let mut at: usize = from + 1;
    if at < size && (chars[at] == '+' || chars[at] == '-') {
        at = at + 1;
    }
    let ghost digits = unsigned_part(text.skip(1));
    assert(text.skip(1) =~= chars@.skip(from + 1));
    assert(digits =~= chars@.skip(at as int));
    if at == size {
        return false;
    }
    let mut i: usize = at;
    while i < size
        invariant
            at <= i <= size == chars@.len(),
            digits == chars@.skip(at as int),
            forall|j: int| 0 <= j < i - at ==> is_digit(#[trigger] digits[j]),
            text.len() > 0,
            digits == unsigned_part(text.skip(1)),
            text == chars@.skip(from as int),
        decreases size - i,
    {
        let c = chars[i];
        assert(digits[i - at] == c);
        if !('0' <= c && c <= '9') {
            assert(!is_digit(digits[i - at]));
            return false;
        }
        i = i + 1;
    }
    true
}

/// Whether a finite real number is spelled.
pub fn spells_finite(chars: &Vec<char>) -> (yes: bool)
    ensures
        yes == is_finite_real(chars@),
{
    let size: usize = chars.len();
    let from: usize = if size > 0 && (chars[0] == '+' || chars[0] == '-') {
        1
    } else {
        0
    };
    let ghost text = unsigned_part(chars@);
    assert(text =~= chars@.skip(from as int));
    let whole: usize = run_from(chars, from);
    let ghost rest = text.skip(whole as int);
    assert(rest =~= chars@.skip(from + whole));
    if from + whole < size && chars[from + whole] == '.' {
        assert(rest.skip(1) =~= chars@.skip(from + whole + 1));
        let fraction: usize = run_from(chars, from + whole + 1);
        assert(rest.skip(1 + fraction) =~= chars@.skip(from + whole + 1 + fraction));
        (whole > 0 || fraction > 0) && tail_from(chars, from + whole + 1 + fraction)
    } else {
        whole > 0 && tail_from(chars, from + whole)
    }
}

/// Whether a real number is spelled.
pub fn spells_real(chars: &Vec<char>) -> (yes: bool)
    ensures
        yes == is_real(chars@),
{
    if spells_finite(chars) {
        return true;
    }
    let size: usize = chars.len();
    let from: usize = if size > 0 && (chars[0] == '+' || chars[0] == '-') {
        1
    } else {
        0
    };
    assert(unsigned_part(chars@) =~= chars@.subrange(from as int, size as int));
    let word = lower(&text_of(chars, from, size));
    crate::text::same(&word, "inf") || crate::text::same(&word, "infinity") || crate::text::same(
        &word,
        "nan",
    )
}

proof fn lemma_run_of_digits(text: Seq<char>, at: int)
    requires
        0 <= at < digit_run(text),
    ensures
        digit_run(text) <= text.len(),
        is_digit(text[at]),
    decreases text.len(),
{
    lemma_digit_run(text);
    if at > 0 {
        lemma_run_of_digits(text.skip(1), at - 1);
        assert(text.skip(1)[at - 1] == text[at]);
    }
}

proof fn lemma_tail_ends(text: Seq<char>)
    requires
        is_exponent(text),
    ensures
        is_digit(text.last()),
{
    let digits = unsigned_part(text.skip(1));
    assert(digits.last() == text.last());
    assert(is_digit(digits[digits.len() - 1]));
}

/// A finite number ends in a digit or in its point.
pub proof fn lemma_a_number_ends(text: Seq<char>)
    requires
        is_finite_real(text),
    ensures
        text.len() > 0,
        is_digit(text.last()) || text.last() == '.',
{
    let own = unsigned_part(text);
    let whole = digit_run(own);
    lemma_digit_run(own);
    let rest = own.skip(whole);
    if rest.len() > 0 && rest[0] == '.' {
        let behind = rest.skip(1);
        let fraction = digit_run(behind);
        lemma_digit_run(behind);
        let tail = rest.skip(1 + fraction);
        if tail.len() > 0 {
            lemma_tail_ends(tail);
            assert(tail.last() == own.last());
        } else if fraction > 0 {
            lemma_run_of_digits(behind, fraction - 1);
            assert(behind[fraction - 1] == own.last());
        } else {
            assert(own.last() == rest[0]);
        }
    } else if rest.len() > 0 {
        lemma_tail_ends(rest);
        assert(rest.last() == own.last());
    } else {
        lemma_run_of_digits(own, whole - 1);
        assert(own[whole - 1] == own.last());
    }
    assert(own.last() == text.last());
}

/// Text whose every character is a digit.
pub open spec fn of_digits(text: Seq<char>) -> bool {
    forall|i: int| 0 <= i < text.len() ==> '0' <= #[trigger] text[i] && text[i] <= '9'
}

proof fn lemma_worth_of(text: Seq<char>)
    ensures
        digits_value(text) == worth(text),
        all_digits(text) == of_digits(text),
    decreases text.len(),
{
    if text.len() > 0 {
        lemma_worth_of(text.drop_last());
    }
    if all_digits(text) {
        assert forall|i: int| 0 <= i < text.len() implies '0' <= #[trigger] text[i] && text[i]
            <= '9' by {
            assert(is_digit(text[i]));
        }
    }
    if of_digits(text) {
        assert forall|i: int| 0 <= i < text.len() implies is_digit(#[trigger] text[i]) by {
            assert('0' <= text[i] && text[i] <= '9');
        }
    }
}

/// Digits come to what they spell, with or without a plus ahead of them; a minus
/// makes them negative, and is no unsigned number. Too large a number is none.
pub proof fn law_digits_are_read(digits: Seq<char>, limit: int)
    requires
        digits.len() > 0,
        of_digits(digits),
        0 <= limit,
    ensures
        worth(digits) <= limit ==> unsigned(digits, limit) == Some(worth(digits)),
        worth(digits) <= limit ==> unsigned("+"@ + digits, limit) == Some(worth(digits)),
        worth(digits) > limit ==> unsigned(digits, limit) is None,
        unsigned("-"@ + digits, limit) is None,
        worth(digits) <= i64::MAX ==> signed_value(digits) == Some(worth(digits)),
        worth(digits) <= i64::MAX ==> signed_value("+"@ + digits) == Some(worth(digits)),
        -worth(digits) >= i64::MIN ==> signed_value("-"@ + digits) == Some(-worth(digits)),
        worth(digits) > i64::MAX ==> signed_value(digits) is None,
        -worth(digits) < i64::MIN ==> signed_value("-"@ + digits) is None,
{
    reveal_strlit("+");
    reveal_strlit("-");
    lemma_worth_of(digits);
    lemma_digits_value(digits);
    assert('0' <= digits[0] && digits[0] <= '9');
    assert(("+"@ + digits).skip(1) =~= digits);
    assert(("-"@ + digits).skip(1) =~= digits);
    assert(("+"@ + digits)[0] == '+');
    assert(("-"@ + digits)[0] == '-');
}

/// What spells a number is digits, behind a sign where there is one.
pub proof fn law_only_digits_are_read(text: Seq<char>, limit: int)
    ensures
        unsigned(text, limit) is Some ==> (text.len() > 0 && of_digits(text)) || (text.len() > 1
            && text[0] == '+' && of_digits(text.skip(1))),
        signed_value(text) is Some ==> (text.len() > 0 && of_digits(text)) || (text.len() > 1 && (
        text[0] == '+' || text[0] == '-') && of_digits(text.skip(1))),
        unsigned(text, limit) is Some ==> unsigned(text, limit)->0 <= limit,
{
    lemma_worth_of(text);
    lemma_worth_of(text.skip(1));
}

/// A number that was written is read back.
pub proof fn law_a_written_number_is_read_back(value: int, limit: int)
    ensures
        0 <= value <= limit ==> unsigned(decimal(value), limit) == Some(value),
        0 <= limit < value ==> unsigned(decimal(value), limit) is None,
        value < 0 ==> unsigned(decimal(value), limit) is None,
        i64::MIN <= value <= i64::MAX ==> signed_value(decimal(value)) == Some(value),
{
    law_decimal_spells_its_number(value);
    let digits = digits_of(value);
    assert(of_digits(digits));
    if value < 0 {
        reveal_strlit("-");
        assert("-"@ + digits =~= decimal(value));
        law_digits_are_read(digits, 0);
    } else if 0 <= limit {
        law_digits_are_read(digits, limit);
    } else {
        law_digits_are_read(digits, 0);
    }
}

/// White space round a text is dropped, as much of it as there is, and nothing else.
pub proof fn law_white_space_is_dropped(before: Seq<char>, text: Seq<char>, after: Seq<char>)
    requires
        forall|i: int| 0 <= i < before.len() ==> is_space(#[trigger] before[i]),
        forall|i: int| 0 <= i < after.len() ==> is_space(#[trigger] after[i]),
        text.len() > 0,
        !is_space(text[0]),
        !is_space(text.last()),
    ensures
        trimmed(before + text + after) == text,
        trimmed_end(text + after) == text,
        trimmed_start(before + text) == text,
    decreases before.len() + after.len(),
{
    if before.len() > 0 {
        let all = before + text + after;
        assert(all[0] == before[0]);
        assert(is_space(before[0]));
        assert(all.skip(1) =~= before.skip(1) + text + after);
        assert((before + text)[0] == before[0]);
        assert((before + text).skip(1) =~= before.skip(1) + text);
        law_white_space_is_dropped(before.skip(1), text, after);
    } else {
        let all = before + text + after;
        assert(all =~= text + after);
        assert(all[0] == text[0]);
        assert(before + text =~= text);
        if after.len() > 0 {
            assert(all.last() == after[after.len() - 1]);
            assert(is_space(after[after.len() - 1]));
            assert(all.drop_last() =~= text + after.drop_last());
            law_white_space_is_dropped(before, text, after.drop_last());
            assert(before + text + after.drop_last() =~= text + after.drop_last());
        } else {
            assert(all =~= text);
        }
    }
}

/// What counts as white space: the space, the controls that move on, and the spaces
/// beyond ASCII; no other character of ASCII does.
pub proof fn law_white_space(c: char)
    ensures
        c == ' ' || c == '\t' || c == '\n' || c == '\r' || c == '\u{b}' || c == '\u{c}' ==> is_space(
            c,
        ),
        c == '\u{a0}' || c == '\u{2003}' || c == '\u{3000}' ==> is_space(c),
        0x80 > c as u32 && is_space(c) ==> c == ' ' || c == '\t' || c == '\n' || c == '\r' || c
            == '\u{b}' || c == '\u{c}',
{
}

proof fn lemma_digits_run(digits: Seq<char>, rest: Seq<char>)
    requires
        of_digits(digits),
        rest.len() == 0 || !is_digit(rest[0]),
    ensures
        digit_run(digits + rest) == digits.len(),
    decreases digits.len(),
{
    if digits.len() > 0 {
        assert((digits + rest)[0] == digits[0]);
        assert((digits + rest).skip(1) =~= digits.skip(1) + rest);
        assert forall|i: int| 0 <= i < digits.skip(1).len() implies '0' <= #[trigger] digits.skip(
            1,
        )[i] && digits.skip(1)[i] <= '9' by {
            assert(digits.skip(1)[i] == digits[i + 1]);
        }
        lemma_digits_run(digits.skip(1), rest);
    } else {
        assert(digits + rest =~= rest);
    }
}

/// Which texts spell a finite number: digits, a point with digits on either side of it,
/// and an exponent with a sign of its own behind them; and all of it behind a sign.
pub proof fn law_what_spells_a_real_number(
    whole: Seq<char>,
    fraction: Seq<char>,
    power: Seq<char>,
    sign: char,
    mark: char,
)
    requires
        of_digits(whole),
        of_digits(fraction),
        of_digits(power),
        power.len() > 0,
        sign == '+' || sign == '-',
        mark == 'e' || mark == 'E',
    ensures
        whole.len() > 0 ==> is_finite_real(whole),
        whole.len() > 0 ==> is_finite_real(seq![sign] + whole),
        whole.len() + fraction.len() > 0 ==> is_finite_real(whole + "."@ + fraction),
        whole.len() + fraction.len() > 0 ==> is_finite_real(seq![sign] + (whole + "."@ + fraction)),
        whole.len() > 0 ==> is_finite_real(whole + (seq![mark] + power)),
        whole.len() > 0 ==> is_finite_real(whole + (seq![mark] + (seq![sign] + power))),
        whole.len() + fraction.len() > 0 ==> is_finite_real(
            whole + "."@ + fraction + (seq![mark] + power),
        ),
{
    reveal_strlit(".");
    let none = Seq::<char>::empty();
    lemma_plain_part(whole, none);
    lemma_plain_part(none + whole, none);
    assert(none + whole =~= whole);
    assert(whole + none =~= whole);
    let tail = seq![mark] + power;
    lemma_exponent(power, sign, mark);
    lemma_plain_part(whole, tail);
    let signed = seq![mark] + (seq![sign] + power);
    lemma_plain_part(whole, signed);
    lemma_point_part(whole, fraction, none);
    lemma_point_part(whole, fraction, tail);
    let pointed = whole + "."@ + fraction;
    assert(pointed + none =~= pointed);
    assert((seq![sign] + whole).skip(1) =~= whole);
    assert((seq![sign] + pointed).skip(1) =~= pointed);
    assert((seq![sign] + whole)[0] == sign);
    assert((seq![sign] + pointed)[0] == sign);
}

proof fn lemma_exponent(power: Seq<char>, sign: char, mark: char)
    requires
        of_digits(power),
        power.len() > 0,
        sign == '+' || sign == '-',
        mark == 'e' || mark == 'E',
    ensures
        is_tail(seq![mark] + power),
        is_tail(seq![mark] + (seq![sign] + power)),
{
    lemma_worth_of(power);
    let tail = seq![mark] + power;
    assert(tail.skip(1) =~= power);
    assert('0' <= power[0] && power[0] <= '9');
    let signed = seq![mark] + (seq![sign] + power);
    assert(signed.skip(1) =~= seq![sign] + power);
    assert((seq![sign] + power).skip(1) =~= power);
    assert((seq![sign] + power)[0] == sign);
}

proof fn lemma_plain_part(whole: Seq<char>, tail: Seq<char>)
    requires
        of_digits(whole),
        is_tail(tail),
    ensures
        whole.len() > 0 ==> is_number(whole + tail) && is_finite_real(whole + tail),
{
    if whole.len() > 0 {
        let all = whole + tail;
        lemma_digits_run(whole, tail);
        assert(all.skip(whole.len() as int) =~= tail);
        assert(all[0] == whole[0]);
    }
}

proof fn lemma_point_part(whole: Seq<char>, fraction: Seq<char>, tail: Seq<char>)
    requires
        of_digits(whole),
        of_digits(fraction),
        is_tail(tail),
    ensures
        whole.len() + fraction.len() > 0 ==> is_number(whole + "."@ + fraction + tail)
            && is_finite_real(whole + "."@ + fraction + tail),
{
    reveal_strlit(".");
    let all = whole + "."@ + fraction + tail;
    let behind = "."@ + fraction + tail;
    assert(all =~= whole + behind);
    assert(behind[0] == '.');
    lemma_digits_run(whole, behind);
    assert(all.skip(whole.len() as int) =~= behind);
    assert(behind.skip(1) =~= fraction + tail);
    lemma_digits_run(fraction, tail);
    assert(behind.skip(1 + fraction.len() as int) =~= tail);
    if whole.len() > 0 {
        assert(all[0] == whole[0]);
    } else {
        assert(all[0] == '.');
    }
}

/// A text that spells a finite number holds nothing but digits, signs, one point and
/// the letter of an exponent, and at least one digit.
pub proof fn law_nothing_else_spells_a_real_number(text: Seq<char>)
    requires
        is_finite_real(text),
    ensures
        text.len() > 0,
        forall|i: int|
            0 <= i < text.len() ==> is_digit(#[trigger] text[i]) || text[i] == '.' || text[i] == '+'
                || text[i] == '-' || text[i] == 'e' || text[i] == 'E',
        exists|i: int| 0 <= i < text.len() && is_digit(#[trigger] text[i]),
{
    let own = unsigned_part(text);
    let shift = text.len() - own.len();
    let whole = digit_run(own);
    lemma_digit_run(own);
    let rest = own.skip(whole);
    let pointed = rest.len() > 0 && rest[0] == '.';
    let behind = if pointed {
        rest.skip(1)
    } else {
        rest
    };
    let fraction = if pointed {
        digit_run(behind)
    } else {
        0
    };
    lemma_digit_run(behind);
    let tail = behind.skip(fraction);
    if pointed {
        assert(rest.skip(1 + fraction) =~= tail);
    } else {
        assert(tail =~= rest);
    }
    let start = whole + fraction + if pointed {
        1int
    } else {
        0int
    };
    assert forall|i: int| 0 <= i < text.len() implies is_digit(#[trigger] text[i]) || text[i] == '.'
        || text[i] == '+' || text[i] == '-' || text[i] == 'e' || text[i] == 'E' by {
        if i >= shift {
            let at = i - shift;
            assert(own[at] == text[i]);
            if at < whole {
                lemma_run_of_digits(own, at);
            } else if pointed && at == whole {
                assert(rest[0] == own[whole]);
            } else if at < start {
                lemma_run_of_digits(behind, at - whole - 1);
                assert(behind[at - whole - 1] == own[at]);
            } else {
                assert(tail[at - start] == own[at]);
                let digits = unsigned_part(tail.skip(1));
                let lead = tail.len() - digits.len();
                if at - start >= lead {
                    assert(digits[at - start - lead] == own[at]);
                    assert(is_digit(digits[at - start - lead]));
                }
            }
        }
    }
    if whole > 0 {
        lemma_run_of_digits(own, 0);
        assert(is_digit(text[shift]));
    } else {
        lemma_run_of_digits(behind, 0);
        assert(behind[0] == text[shift + 1]);
    }
}

/// Making a text small changes `A` to `Z` and no other character.
pub proof fn law_only_capitals_are_made_small(text: Seq<char>, at: int)
    requires
        0 <= at < text.len(),
    ensures
        lowered(text).len() == text.len(),
        'A' <= text[at] && text[at] <= 'Z' ==> lowered(text)[at] as int == text[at] as int + 32,
        !('A' <= text[at] && text[at] <= 'Z') ==> lowered(text)[at] == text[at],
{
}

} // verus!
