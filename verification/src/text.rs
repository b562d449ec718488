//! Text as sequences of characters.
//!
//! Contracts speak of a text by its view, a `Seq<char>`. The functions here are
//! the vocabulary that the rest of the library is written in: comparing,
//! searching, cutting, joining, and writing numbers down.

use vstd::prelude::*;

verus! {

/// The characters of each text of a list.
pub open spec fn texts(list: Seq<String>) -> Seq<Seq<char>> {
    list.map_values(|text: String| text@)
}

/// The characters of a text that may be absent.
pub open spec fn maybe(text: Option<String>) -> Option<Seq<char>> {
    match text {
        Some(text) => Some(text@),
        None => None,
    }
}

/// `String::push` appends one character at the end of the text.
pub assume_specification[ String::push ](text: &mut String, c: char)
    ensures
        final(text)@ == old(text)@.push(c),
;

/// `String::push_str` appends the characters of another text at the end.
pub assume_specification[ String::push_str ](text: &mut String, other: &str)
    ensures
        final(text)@ == old(text)@ + other@,
;

/// The characters of a text, in order.
pub fn chars_of(text: &str) -> (chars: Vec<char>)
    ensures
        chars@ == text@,
{
    let mut chars: Vec<char> = Vec::new();
    for c in iter: text.chars()
        invariant
            chars@ == iter.seq().take(iter.index() as int),
            iter.seq() == text@,
    {
        chars.push(c);
    }
    chars
}

/// The text that a stretch of characters spells.
pub fn text_of(chars: &Vec<char>, from: usize, to: usize) -> (text: String)
    requires
        from <= to <= chars@.len(),
    ensures
        text@ == chars@.subrange(from as int, to as int),
{
    let mut text = String::new();
    let mut at: usize = from;
    while at < to
        invariant
            from <= at <= to <= chars@.len(),
            text@ == chars@.subrange(from as int, at as int),
        decreases to - at,
    {
        text.push(chars[at]);
        at = at + 1;
    }
    text
}

/// Whether two texts hold the same characters.
pub fn same(left: &str, right: &str) -> (equal: bool)
    ensures
        equal == (left@ == right@),
{
    let left_chars = chars_of(left);
    let right_chars = chars_of(right);
    if left_chars.len() != right_chars.len() {
        return false;
    }
    let mut at: usize = 0;
    while at < left_chars.len()
        invariant
            at <= left_chars@.len() == right_chars@.len(),
            left_chars@ == left@,
            right_chars@ == right@,
            forall|i: int| 0 <= i < at ==> left_chars@[i] == right_chars@[i],
        decreases left_chars@.len() - at,
    {
        if left_chars[at] != right_chars[at] {
            return false;
        }
        at = at + 1;
    }
    assert(left@ =~= right@);
    true
}

/// Whether a text begins with another.
pub fn begins(text: &str, prefix: &str) -> (yes: bool)
    ensures
        yes == prefix@.is_prefix_of(text@),
{
    let chars = chars_of(text);
    let wanted = chars_of(prefix);
    if wanted.len() > chars.len() {
        return false;
    }
    let mut at: usize = 0;
    while at < wanted.len()
        invariant
            at <= wanted@.len() <= chars@.len(),
            chars@ == text@,
            wanted@ == prefix@,
            forall|i: int| 0 <= i < at ==> chars@[i] == wanted@[i],
        decreases wanted@.len() - at,
    {
        if chars[at] != wanted[at] {
            assert(prefix@[at as int] != text@.subrange(0, prefix@.len() as int)[at as int]);
            return false;
        }
        at = at + 1;
    }
    assert(prefix@ =~= text@.subrange(0, prefix@.len() as int));
    true
}

/// Whether a text ends with another.
pub fn finishes(text: &str, suffix: &str) -> (yes: bool)
    ensures
        yes == suffix@.is_suffix_of(text@),
{
    let chars = chars_of(text);
    let wanted = chars_of(suffix);
    if wanted.len() > chars.len() {
        return false;
    }
    let size: usize = chars.len();
    let start: usize = size - wanted.len();
    let mut at: usize = 0;
    while at < wanted.len()
        invariant
            at <= wanted@.len() <= chars@.len() == size,
            start == chars@.len() - wanted@.len(),
            chars@ == text@,
            wanted@ == suffix@,
            forall|i: int| 0 <= i < at ==> chars@[start + i] == wanted@[i],
        decreases wanted@.len() - at,
    {
        if chars[start + at] != wanted[at] {
            assert(suffix@[at as int] != text@.subrange(start as int, text@.len() as int)[at as int]);
            return false;
        }
        at = at + 1;
    }
    assert(suffix@ =~= text@.subrange(start as int, text@.len() as int));
    true
}

/// What is left of a text behind a prefix that it may have.
pub open spec fn without_prefix(text: Seq<char>, prefix: Seq<char>) -> Option<Seq<char>> {
    if prefix.is_prefix_of(text) {
        Some(text.skip(prefix.len() as int))
    } else {
        None
    }
}

/// The text behind a prefix, where it begins with it.
pub fn strip(text: &str, prefix: &str) -> (rest: Option<String>)
    ensures
        maybe(rest) == without_prefix(text@, prefix@),
{
    if !begins(text, prefix) {
        return None;
    }
    let chars = chars_of(text);
    let wanted = chars_of(prefix);
    let rest = text_of(&chars, wanted.len(), chars.len());
    assert(rest@ =~= text@.skip(prefix@.len() as int));
    Some(rest)
}

/// Whether `part` stands in `text` at a position.
pub open spec fn stands_at(text: Seq<char>, part: Seq<char>, at: int) -> bool {
    &&& 0 <= at
    &&& at + part.len() <= text.len()
    &&& text.subrange(at, at + part.len()) == part
}

/// Whether `part` occurs anywhere in `text`.
pub open spec fn occurs(text: Seq<char>, part: Seq<char>) -> bool {
    exists|at: int| stands_at(text, part, at)
}

/// Whether a text holds another one.
pub fn holds(text: &str, part: &str) -> (yes: bool)
    ensures
        yes == occurs(text@, part@),
{
    let chars = chars_of(text);
    let wanted = chars_of(part);
    let size: usize = chars.len();
    let mut at: usize = 0;
    while at <= size && wanted.len() <= size - at
        invariant
            at <= size + 1,
            size == chars@.len(),
            chars@ == text@,
            wanted@ == part@,
            forall|i: int| 0 <= i < at ==> !stands_at(text@, part@, i),
        decreases chars@.len() + 1 - at,
    {
        let mut matched: usize = 0;
        while matched < wanted.len() && chars[at + matched] == wanted[matched]
            invariant
                matched <= wanted@.len(),
                at + wanted@.len() <= chars@.len() == size,
                forall|i: int| 0 <= i < matched ==> chars@[at + i] == wanted@[i],
            decreases wanted@.len() - matched,
        {
            matched = matched + 1;
        }
        if matched == wanted.len() {
            assert(text@.subrange(at as int, at + part@.len()) =~= part@);
            assert(stands_at(text@, part@, at as int));
            return true;
        }
        assert(!stands_at(text@, part@, at as int)) by {
            assert(text@.subrange(at as int, at + part@.len())[matched as int] != part@[matched as int]);
        }
        at = at + 1;
    }
    assert forall|i: int| !stands_at(text@, part@, i) by {}
    false
}

/// `at` is where one of two characters first stands in a text.
pub open spec fn first_of(text: Seq<char>, one: char, other: char, at: int) -> bool {
    &&& 0 <= at < text.len()
    &&& (text[at] == one || text[at] == other)
    &&& forall|i: int| 0 <= i < at ==> text[i] != one && text[i] != other
}

/// Where one of two characters first stands in a text, if either does.
pub open spec fn find_either(text: Seq<char>, one: char, other: char) -> Option<int> {
    if exists|at: int| first_of(text, one, other, at) {
        Some(choose|at: int| first_of(text, one, other, at))
    } else {
        None
    }
}

/// Where a character first stands in a text, if it does.
pub open spec fn find(text: Seq<char>, wanted: char) -> Option<int> {
    find_either(text, wanted, wanted)
}

/// A text has one first place for a character.
pub proof fn lemma_find(text: Seq<char>, one: char, other: char, at: int)
    requires
        first_of(text, one, other, at),
    ensures
        find_either(text, one, other) == Some(at),
{
    let chosen = choose|i: int| first_of(text, one, other, i);
    assert(first_of(text, one, other, chosen));
    assert(chosen == at);
}

/// A text without a character has no first place for it.
pub proof fn lemma_find_none(text: Seq<char>, one: char, other: char)
    ensures
        find_either(text, one, other) is None <==> forall|i: int|
            0 <= i < text.len() ==> text[i] != one && text[i] != other,
{
    if find_either(text, one, other) is None {
        assert forall|i: int| 0 <= i < text.len() implies text[i] != one && text[i] != other by {
            if text[i] == one || text[i] == other {
                lemma_first(text, one, other, i);
            }
        }
    }
}

/// Where a character stands at all, there is a first place.
proof fn lemma_first(text: Seq<char>, one: char, other: char, at: int)
    requires
        0 <= at < text.len(),
        text[at] == one || text[at] == other,
    ensures
        exists|i: int| first_of(text, one, other, i),
    decreases at,
{
    if exists|i: int| 0 <= i < at && (text[i] == one || text[i] == other) {
        let earlier = choose|i: int| 0 <= i < at && (text[i] == one || text[i] == other);
        lemma_first(text, one, other, earlier);
    } else {
        assert(first_of(text, one, other, at));
    }
}

/// The first place of either of two characters.
pub fn position_of(chars: &Vec<char>, one: char, other: char) -> (at: Option<usize>)
    ensures
        match at {
            Some(at) => first_of(chars@, one, other, at as int)
                && find_either(chars@, one, other) == Some(at as int),
            None => find_either(chars@, one, other) is None,
        },
{
    let mut at: usize = 0;
    while at < chars.len()
        invariant
            at <= chars@.len(),
            forall|i: int| 0 <= i < at ==> chars@[i] != one && chars@[i] != other,
        decreases chars@.len() - at,
    {
        if chars[at] == one || chars[at] == other {
            proof {
                lemma_find(chars@, one, other, at as int);
            }
            return Some(at);
        }
        at = at + 1;
    }
    proof {
        lemma_find_none(chars@, one, other);
    }
    None
}

/// The digit of a value below thirty-six: `0` to `9`, then `a` to `z`.
pub open spec fn digit(value: int) -> char {
    if value < 10 {
        (48 + value) as char
    } else {
        (87 + value) as char
    }
}

/// A number written in a base, without leading zeros.
pub open spec fn in_base(value: nat, base: nat) -> Seq<char>
    decreases value,
{
    if base < 2 || value < base {
        seq![digit(value as int)]
    } else {
        proof {
            assert(value / base < value) by (nonlinear_arith)
                requires
                    2 <= base,
                    value >= base,
            ;
        }
        in_base(value / base, base).push(digit((value % base) as int))
    }
}

/// A number in decimal, with a sign where it is negative.
pub open spec fn decimal(value: int) -> Seq<char> {
    if value < 0 {
        seq!['-'] + in_base((-value) as nat, 10)
    } else {
        in_base(value as nat, 10)
    }
}

fn digit_of(value: u64) -> (c: char)
    requires
        value < 36,
    ensures
        c == digit(value as int),
{
    if value < 10 {
        (48 + value as u8) as char
    } else {
        (87 + value as u8) as char
    }
}

/// Write a number in a base, at the end of a text.
pub fn push_in_base(out: &mut String, value: u64, base: u64)
    requires
        2 <= base <= 36,
    ensures
        final(out)@ == old(out)@ + in_base(value as nat, base as nat),
    decreases value,
{
    if value < base {
        out.push(digit_of(value));
        assert(out@ =~= old(out)@ + in_base(value as nat, base as nat));
    } else {
        assert(value / base < value) by (nonlinear_arith)
            requires
                2 <= base,
                value >= base,
        ;
        push_in_base(out, value / base, base);
        out.push(digit_of(value % base));
        assert(out@ =~= old(out)@ + in_base(value as nat, base as nat));
    }
}

/// Write a number in decimal, at the end of a text.
pub fn push_number(out: &mut String, value: u64)
    ensures
        final(out)@ == old(out)@ + decimal(value as int),
{
    push_in_base(out, value, 10);
}

/// Write a signed number in decimal, at the end of a text.
pub fn push_signed(out: &mut String, value: i64)
    ensures
        final(out)@ == old(out)@ + decimal(value as int),
{
    if value < 0 {
        out.push('-');
        let size: u64 = if value == i64::MIN {
            9223372036854775808u64
        } else {
            (-value) as u64
        };
        push_in_base(out, size, 10);
        assert(out@ =~= old(out)@ + decimal(value as int));
    } else {
        push_in_base(out, value as u64, 10);
    }
}

/// A number as text.
pub fn number_text(value: u64) -> (text: String)
    ensures
        text@ == decimal(value as int),
{
    let mut out = String::new();
    push_number(&mut out, value);
    assert(out@ =~= decimal(value as int));
    out
}

/// A signed number as text.
pub fn signed_text(value: i64) -> (text: String)
    ensures
        text@ == decimal(value as int),
{
    let mut out = String::new();
    push_signed(&mut out, value);
    assert(out@ =~= decimal(value as int));
    out
}

/// A number is written with at least one digit.
proof fn lemma_in_base_length(value: nat, base: nat)
    requires
        base >= 2,
    ensures
        in_base(value, base).len() >= 1,
        value >= base ==> in_base(value, base).len() >= 2,
    decreases value,
{
    if value >= base {
        assert(value / base < value) by (nonlinear_arith)
            requires
                2 <= base,
                value >= base,
        ;
        lemma_in_base_length(value / base, base);
    }
}

/// Two digits that are written alike are equal.
proof fn lemma_digit(first: int, second: int)
    requires
        0 <= first < 36,
        0 <= second < 36,
        digit(first) == digit(second),
    ensures
        first == second,
{
    assert(digit(first) as int == if first < 10 {
        48 + first
    } else {
        87 + first
    });
    assert(digit(second) as int == if second < 10 {
        48 + second
    } else {
        87 + second
    });
}

/// Two numbers that are written alike are equal.
pub proof fn lemma_in_base(first: nat, second: nat, base: nat)
    requires
        2 <= base <= 36,
        in_base(first, base) == in_base(second, base),
    ensures
        first == second,
    decreases first,
{
    lemma_in_base_length(first, base);
    lemma_in_base_length(second, base);
    if first < base {
        assert(second < base);
        assert(in_base(first, base) == seq![digit(first as int)]);
        assert(in_base(second, base) == seq![digit(second as int)]);
        assert(seq![digit(first as int)][0] == digit(first as int));
        assert(seq![digit(second as int)][0] == digit(second as int));
        lemma_digit(first as int, second as int);
    } else {
        let one = in_base(first, base);
        let other = in_base(second, base);
        assert(one.last() == other.last());
        assert(one.drop_last() =~= in_base(first / base, base));
        assert(other.drop_last() =~= in_base(second / base, base));
        assert(first / base < first) by (nonlinear_arith)
            requires
                2 <= base,
                first >= base,
        ;
        lemma_in_base(first / base, second / base, base);
        assert(first % base == second % base) by {
            assert(first % base < base) by (nonlinear_arith)
                requires
                    2 <= base,
            ;
            assert(second % base < base) by (nonlinear_arith)
                requires
                    2 <= base,
            ;
            lemma_digit((first % base) as int, (second % base) as int);
        }
        vstd::arithmetic::div_mod::lemma_fundamental_div_mod(first as int, base as int);
        vstd::arithmetic::div_mod::lemma_fundamental_div_mod(second as int, base as int);
    }
}

/// So many spaces.
pub open spec fn spaces(count: int) -> Seq<char>
    decreases count,
{
    if count <= 0 {
        Seq::empty()
    } else {
        spaces(count - 1).push(' ')
    }
}

/// A text with spaces behind it, up to a width.
pub open spec fn padded(text: Seq<char>, width: int) -> Seq<char> {
    text + spaces(width - text.len())
}

/// Write a text with spaces behind it, up to a width.
pub fn push_padded(out: &mut String, text: &str, width: usize)
    ensures
        final(out)@ == old(out)@ + padded(text@, width as int),
{
    let size: usize = chars_of(text).len();
    out.push_str(text);
    let ghost before = out@;
    let mut count: usize = 0;
    assert(before + spaces(0) =~= before);
    while size < width && count < width - size
        invariant
            size == text@.len(),
            before == old(out)@ + text@,
            size < width ==> count <= width - size,
            size >= width ==> count == 0,
            out@ == before + spaces(count as int),
        decreases width - count,
    {
        out.push(' ');
        count = count + 1;
        assert(out@ =~= before + spaces(count as int));
    }
    assert(out@ =~= old(out)@ + padded(text@, width as int));
}

/// Whether a list of texts holds one.
pub fn contains_text(list: &Vec<String>, wanted: &str) -> (yes: bool)
    ensures
        yes == texts(list@).contains(wanted@),
{
    let mut at: usize = 0;
    while at < list.len()
        invariant
            at <= list@.len(),
            forall|i: int| 0 <= i < at ==> texts(list@)[i] != wanted@,
        decreases list@.len() - at,
    {
        assert(texts(list@)[at as int] == list@[at as int]@);
        if same(&list[at], wanted) {
            return true;
        }
        at = at + 1;
    }
    false
}

/// The tags of a text, each with the text behind it up to the next tag.
#[verifier::opaque]
pub open spec fn pieces_of(text: Seq<char>) -> Seq<(Seq<char>, Seq<char>)>
    decreases text.len(),
{
    match find(text, '<') {
        None => Seq::empty(),
        Some(at) => {
            let begun = text.skip(at + 1);
            match find(begun, '>') {
                None => Seq::empty(),
                Some(end) => {
                    let behind = begun.skip(end + 1);
                    let size = match find(behind, '<') {
                        Some(next) => next,
                        None => behind.len() as int,
                    };
                    seq![(begun.take(end), behind.take(size))] + pieces_of(behind.skip(size))
                },
            }
        },
    }
}

/// A tag with the text behind it is the first piece of a text that begins with it.
pub proof fn lemma_piece(tag: Seq<char>, text: Seq<char>, rest: Seq<char>)
    requires
        !tag.contains('>'),
        !text.contains('<'),
        rest.len() == 0 || rest[0] == '<',
    ensures
        pieces_of("<"@ + tag + ">"@ + text + rest) == seq![(tag, text)] + pieces_of(rest),
{
    reveal(pieces_of);
    reveal_strlit("<");
    reveal_strlit(">");
    let all = "<"@ + tag + ">"@ + text + rest;
    assert(first_of(all, '<', '<', 0));
    lemma_find(all, '<', '<', 0);
    let begun = all.skip(1);
    assert(begun =~= tag + ">"@ + text + rest);
    let end = tag.len() as int;
    assert forall|i: int| 0 <= i < end implies begun[i] != '>' by {
        assert(begun[i] == tag[i]);
        assert(tag.contains(tag[i]));
    }
    assert(first_of(begun, '>', '>', end));
    lemma_find(begun, '>', '>', end);
    assert(begun.take(end) =~= tag);
    let behind = begun.skip(end + 1);
    assert(behind =~= text + rest);
    let size = text.len() as int;
    assert forall|i: int| 0 <= i < size implies behind[i] != '<' by {
        assert(behind[i] == text[i]);
        assert(text.contains(text[i]));
    }
    if rest.len() > 0 {
        assert(behind[size] == rest[0]);
        assert(first_of(behind, '<', '<', size));
        lemma_find(behind, '<', '<', size);
    } else {
        lemma_find_none(behind, '<', '<');
    }
    assert(behind.take(size) =~= text);
    assert(behind.skip(size) =~= rest);
}

/// What digits come to, the last one counting ones.
pub open spec fn worth(digits: Seq<char>) -> int
    decreases digits.len(),
{
    if digits.len() == 0 {
        0
    } else {
        10 * worth(digits.drop_last()) + (digits.last() as int - 48)
    }
}

proof fn lemma_worth(value: nat)
    ensures
        in_base(value, 10).len() > 0,
        forall|i: int|
            0 <= i < in_base(value, 10).len() ==> '0' <= #[trigger] in_base(value, 10)[i]
                && in_base(value, 10)[i] <= '9',
        worth(in_base(value, 10)) == value,
        value > 0 ==> in_base(value, 10)[0] != '0',
        value < 10 ==> in_base(value, 10).len() == 1,
    decreases value,
{
    let text = in_base(value, 10);
    let unit = (value % 10) as int;
    assert(digit(unit) as int == 48 + unit);
    if value < 10 {
        assert(text.drop_last() =~= Seq::empty());
        assert(worth(text.drop_last()) == 0);
        assert(digit(value as int) as int == 48 + value);
    } else {
        lemma_worth(value / 10);
        assert(text.drop_last() =~= in_base(value / 10, 10));
        assert(text.last() == digit(unit));
        assert(text[0] == in_base(value / 10, 10)[0]);
    }
}

/// The digits of a number, without its sign.
pub open spec fn digits_of(value: int) -> Seq<char> {
    if value < 0 {
        decimal(value).skip(1)
    } else {
        decimal(value)
    }
}

/// A number is written with digits that come to it, without a zero ahead of them,
/// and with a sign where it is negative.
pub proof fn law_decimal_spells_its_number(value: int)
    ensures
        value < 0 ==> decimal(value).len() > 1 && decimal(value)[0] == '-',
        digits_of(value).len() > 0,
        forall|i: int|
            0 <= i < digits_of(value).len() ==> '0' <= #[trigger] digits_of(value)[i] && digits_of(
                value,
            )[i] <= '9',
        value >= 0 ==> worth(digits_of(value)) == value,
        value < 0 ==> worth(digits_of(value)) == -value,
        digits_of(value).len() > 1 ==> digits_of(value)[0] != '0',
{
    if value < 0 {
        lemma_worth((-value) as nat);
        assert(decimal(value).skip(1) =~= in_base((-value) as nat, 10));
    } else {
        lemma_worth(value as nat);
    }
}

/// A number is written without markup.
pub proof fn lemma_decimal_chars(value: int)
    ensures
        forall|i: int|
            0 <= i < decimal(value).len() ==> #[trigger] decimal(value)[i] != '<' && decimal(
                value,
            )[i] != '>',
{
    law_decimal_spells_its_number(value);
    assert forall|i: int| 0 <= i < decimal(value).len() implies #[trigger] decimal(value)[i] != '<'
        && decimal(value)[i] != '>' by {
        if value < 0 && i > 0 {
            assert(decimal(value)[i] == digits_of(value)[i - 1]);
        } else if value >= 0 {
            assert(decimal(value)[i] == digits_of(value)[i]);
        }
    }
}

/// Which of the thirty-six digits a character is.
pub open spec fn rank_of_digit(c: char) -> int {
    if '0' <= c && c <= '9' {
        c as int - '0' as int
    } else {
        c as int - 'a' as int + 10
    }
}

/// What digits of a base come to, the last one counting ones.
pub open spec fn worth_in(digits: Seq<char>, base: int) -> int
    decreases digits.len(),
{
    if digits.len() == 0 {
        0
    } else {
        base * worth_in(digits.drop_last(), base) + rank_of_digit(digits.last())
    }
}

/// A number in a base is written with digits below that base that come to it, small letters
/// behind the nine, without a zero ahead of them.
pub proof fn law_a_base_spells_its_number(value: nat, base: nat)
    requires
        2 <= base <= 36,
    ensures
        in_base(value, base).len() > 0,
        worth_in(in_base(value, base), base as int) == value,
        forall|i: int|
            0 <= i < in_base(value, base).len() ==> {
                let c = #[trigger] in_base(value, base)[i];
                (('0' <= c && c <= '9') || ('a' <= c && c <= 'z')) && rank_of_digit(c) < base
            },
        value > 0 ==> in_base(value, base)[0] != '0',
    decreases value,
{
    let text = in_base(value, base);
    if value < base {
        assert(text.drop_last() =~= Seq::empty());
        assert(worth_in(text.drop_last(), base as int) == 0);
        assert(base * 0 == 0) by (nonlinear_arith);
    } else {
        let unit = value % base;
        let rest = value / base;
        assert(rest < value && rest > 0) by (nonlinear_arith)
            requires
                2 <= base,
                value >= base,
                rest == value / base,
        ;
        assert(unit < base && value == base * rest + unit) by (nonlinear_arith)
            requires
                2 <= base,
                unit == value % base,
                rest == value / base,
        ;
        law_a_base_spells_its_number(rest, base);
        assert(text.drop_last() =~= in_base(rest, base));
        assert(text.last() == digit(unit as int));
        assert(text[0] == in_base(rest, base)[0]);
    }
}

proof fn lemma_spaces(count: int)
    ensures
        count >= 0 ==> spaces(count).len() == count,
        count < 0 ==> spaces(count).len() == 0,
        forall|i: int| 0 <= i < spaces(count).len() ==> #[trigger] spaces(count)[i] == ' ',
    decreases count,
{
    if count > 0 {
        lemma_spaces(count - 1);
    }
}

/// A text is padded behind, with spaces, up to its width, and never cut.
pub proof fn law_a_padded_text_keeps_its_text(text: Seq<char>, width: int)
    ensures
        text.is_prefix_of(padded(text, width)),
        text.len() <= width ==> padded(text, width).len() == width,
        text.len() > width ==> padded(text, width) == text,
        forall|i: int|
            text.len() <= i < padded(text, width).len() ==> #[trigger] padded(text, width)[i] == ' ',
{
    lemma_spaces(width - text.len());
    let all = padded(text, width);
    assert(all.subrange(0, text.len() as int) =~= text);
    if text.len() > width {
        assert(all =~= text);
    }
    assert forall|i: int| text.len() <= i < all.len() implies #[trigger] all[i] == ' ' by {
        assert(all[i] == spaces(width - text.len())[i - text.len()]);
    }
}

} // verus!
