//! A moment, as documents write it.

use crate::text::{decimal, digits_of, law_decimal_spells_its_number, worth};
use vstd::prelude::*;

verus! {

/// A moment by the machine's own clock.
#[derive(Clone, Copy, Debug, PartialEq, Eq)]
pub struct Clock {
    pub year: i32,
    pub month: u32,
    pub day: u32,
    pub hour: u32,
    pub minute: u32,
    pub second: u32,
    /// How far ahead of universal time the clock is.
    pub utc_offset_seconds: i32,
}

impl Default for Clock {
    fn default() -> (clock: Clock)
        ensures
            clock == (Clock {
                year: 0,
                month: 0,
                day: 0,
                hour: 0,
                minute: 0,
                second: 0,
                utc_offset_seconds: 0,
            }),
    {
        Clock {
            year: 0,
            month: 0,
            day: 0,
            hour: 0,
            minute: 0,
            second: 0,
            utc_offset_seconds: 0,
        }
    }
}

/// So many zeros.
pub open spec fn zeros(count: int) -> Seq<char>
    decreases count,
{
    if count <= 0 {
        Seq::empty()
    } else {
        zeros(count - 1).push('0')
    }
}

/// A number with zeros before it, up to a width. A sign comes first and counts.
pub open spec fn zero_padded(value: int, width: int) -> Seq<char> {
    if value < 0 {
        "-"@ + zeros(width - 1 - decimal(-value).len()) + decimal(-value)
    } else {
        zeros(width - decimal(value).len()) + decimal(value)
    }
}

fn push_zeros(out: &mut String, size: usize, width: usize)
    ensures
        final(out)@ == old(out)@ + zeros(width - size),
{
    let ghost start = out@;
    let mut count: usize = 0;
    assert(out@ =~= start + zeros(0));
    while size < width && count < width - size
        invariant
            size < width ==> count <= width - size,
            size >= width ==> count == 0,
            out@ == start + zeros(count as int),
        decreases width - count,
    {
        out.push('0');
        count = count + 1;
        assert(out@ =~= start + zeros(count as int));
    }
    assert(zeros(width - size) =~= zeros(count as int));
}

/// Write a number with zeros before it.
fn push_zero_padded(out: &mut String, value: i64, width: usize)
    requires
        value > i64::MIN,
        width > 0,
    ensures
        final(out)@ == old(out)@ + zero_padded(value as int, width as int),
{
    let ghost start = out@;
    let mut room: usize = width;
    let mut size: u64 = value as u64;
    if value < 0 {
        out.push_str("-");
        room = room - 1;
        size = (-value) as u64;
    }
    let digits = crate::text::number_text(size);
    push_zeros(out, crate::text::chars_of(&digits).len(), room);
    out.push_str(&digits);
    assert(out@ =~= start + zero_padded(value as int, width as int));
}

/// A date, such as `2026-09-12`.
pub open spec fn date_text(clock: Clock) -> Seq<char> {
    zero_padded(clock.year as int, 4) + "-"@ + zero_padded(clock.month as int, 2) + "-"@
        + zero_padded(clock.day as int, 2)
}

/// A time of day, such as `14:05:09`.
pub open spec fn time_text(clock: Clock) -> Seq<char> {
    zero_padded(clock.hour as int, 2) + ":"@ + zero_padded(clock.minute as int, 2) + ":"@
        + zero_padded(clock.second as int, 2)
}

/// How far ahead of universal time a clock is, in hours and minutes.
pub open spec fn offset_text(seconds: int) -> Seq<char> {
    let size = if seconds < 0 {
        -seconds
    } else {
        seconds
    };
    (if seconds < 0 {
        "-"@
    } else {
        "+"@
    }) + zero_padded(size / 3600, 2) + ":"@ + zero_padded(size % 3600 / 60, 2)
}

/// A moment in the form of ISO 8601, such as `2026-09-12T14:05:09+02:00`.
pub open spec fn iso_text(clock: Clock) -> Seq<char> {
    date_text(clock) + "T"@ + time_text(clock) + offset_text(clock.utc_offset_seconds as int)
}

impl Clock {
    /// The date.
    pub fn date(&self) -> (text: String)
        ensures
            text@ == date_text(*self),
    {
        let mut text = String::new();
        push_zero_padded(&mut text, self.year as i64, 4);
        text.push_str("-");
        push_zero_padded(&mut text, self.month as i64, 2);
        text.push_str("-");
        push_zero_padded(&mut text, self.day as i64, 2);
        assert(text@ =~= date_text(*self));
        text
    }

    /// The time of day.
    pub fn time(&self) -> (text: String)
        ensures
            text@ == time_text(*self),
    {
        let mut text = String::new();
        push_zero_padded(&mut text, self.hour as i64, 2);
        text.push_str(":");
        push_zero_padded(&mut text, self.minute as i64, 2);
        text.push_str(":");
        push_zero_padded(&mut text, self.second as i64, 2);
        assert(text@ =~= time_text(*self));
        text
    }

    /// The moment in the form of ISO 8601.
    pub fn iso(&self) -> (text: String)
        ensures
            text@ == iso_text(*self),
    {
        let mut text = self.date();
        text.push_str("T");
        text.push_str(&self.time());
        let mut size: i64 = self.utc_offset_seconds as i64;
        if size < 0 {
            text.push_str("-");
            size = -size;
        } else {
            text.push_str("+");
        }
        push_zero_padded(&mut text, size / 3600, 2);
        text.push_str(":");
        push_zero_padded(&mut text, size % 3600 / 60, 2);
        assert(text@ =~= iso_text(*self));
        text
    }
}

proof fn lemma_zeros(count: int)
    ensures
        count >= 0 ==> zeros(count).len() == count,
        count < 0 ==> zeros(count).len() == 0,
        forall|i: int| 0 <= i < zeros(count).len() ==> #[trigger] zeros(count)[i] == '0',
    decreases count,
{
    if count > 0 {
        lemma_zeros(count - 1);
    }
}

proof fn lemma_zeros_are_worth_nothing(count: int, digits: Seq<char>)
    ensures
        worth(zeros(count) + digits) == worth(digits),
    decreases digits.len(), count,
{
    let all = zeros(count) + digits;
    if digits.len() > 0 {
        assert(all.drop_last() =~= zeros(count) + digits.drop_last());
        assert(all.last() == digits.last());
        lemma_zeros_are_worth_nothing(count, digits.drop_last());
    } else {
        assert(all =~= zeros(count));
        if count > 0 {
            assert(zeros(count).drop_last() =~= zeros(count - 1));
            lemma_zeros_are_worth_nothing(count - 1, digits);
            assert(zeros(count - 1) + digits =~= zeros(count - 1));
        }
    }
}

/// A number is padded with zeros up to its width: it still comes to the same, it is made
/// of digits alone, and it is no shorter than the width, nor longer where it fits.
pub proof fn law_a_padded_number_comes_to_the_same(value: int, width: int)
    requires
        0 <= value,
        0 <= width,
    ensures
        worth(zero_padded(value, width)) == value,
        zero_padded(value, width).len() >= width,
        decimal(value).len() <= width ==> zero_padded(value, width).len() == width,
        forall|i: int|
            0 <= i < zero_padded(value, width).len() ==> '0' <= #[trigger] zero_padded(
                value,
                width,
            )[i] && zero_padded(value, width)[i] <= '9',
{
    law_decimal_spells_its_number(value);
    let digits = decimal(value);
    assert(digits == digits_of(value));
    let count = width - digits.len();
    lemma_zeros(count);
    lemma_zeros_are_worth_nothing(count, digits);
    let all = zero_padded(value, width);
    assert forall|i: int| 0 <= i < all.len() implies '0' <= #[trigger] all[i] && all[i]
        <= '9' by {
        if i < zeros(count).len() {
            assert(all[i] == zeros(count)[i]);
        } else {
            assert(all[i] == digits[i - zeros(count).len()]);
        }
    }
}

proof fn lemma_two_digits(value: int)
    requires
        0 <= value < 100,
    ensures
        decimal(value).len() <= 2,
{
    reveal_with_fuel(crate::text::in_base, 3);
}

proof fn lemma_four_digits(value: int)
    requires
        0 <= value < 10000,
    ensures
        decimal(value).len() <= 4,
{
    reveal_with_fuel(crate::text::in_base, 5);
}

/// A date is its year in four digits, its month in two and its day in two, with dashes
/// between them; a time is its hour, its minute and its second, each in two digits, with
/// colons between them.
pub proof fn law_dates_and_times_have_their_places(clock: Clock)
    requires
        0 <= clock.year < 10000,
        clock.month < 100 && clock.day < 100,
        clock.hour < 100 && clock.minute < 100 && clock.second < 100,
    ensures
        date_text(clock).len() == 10,
        worth(date_text(clock).subrange(0, 4)) == clock.year,
        date_text(clock)[4] == '-',
        worth(date_text(clock).subrange(5, 7)) == clock.month,
        date_text(clock)[7] == '-',
        worth(date_text(clock).subrange(8, 10)) == clock.day,
        time_text(clock).len() == 8,
        worth(time_text(clock).subrange(0, 2)) == clock.hour,
        time_text(clock)[2] == ':',
        worth(time_text(clock).subrange(3, 5)) == clock.minute,
        time_text(clock)[5] == ':',
        worth(time_text(clock).subrange(6, 8)) == clock.second,
{
    reveal_strlit("-");
    reveal_strlit(":");
    lemma_four_digits(clock.year as int);
    lemma_two_digits(clock.month as int);
    lemma_two_digits(clock.day as int);
    lemma_two_digits(clock.hour as int);
    lemma_two_digits(clock.minute as int);
    lemma_two_digits(clock.second as int);
    law_a_padded_number_comes_to_the_same(clock.year as int, 4);
    law_a_padded_number_comes_to_the_same(clock.month as int, 2);
    law_a_padded_number_comes_to_the_same(clock.day as int, 2);
    law_a_padded_number_comes_to_the_same(clock.hour as int, 2);
    law_a_padded_number_comes_to_the_same(clock.minute as int, 2);
    law_a_padded_number_comes_to_the_same(clock.second as int, 2);
    let date = date_text(clock);
    let time = time_text(clock);
    assert(date.subrange(0, 4) =~= zero_padded(clock.year as int, 4));
    assert(date.subrange(5, 7) =~= zero_padded(clock.month as int, 2));
    assert(date.subrange(8, 10) =~= zero_padded(clock.day as int, 2));
    assert(time.subrange(0, 2) =~= zero_padded(clock.hour as int, 2));
    assert(time.subrange(3, 5) =~= zero_padded(clock.minute as int, 2));
    assert(time.subrange(6, 8) =~= zero_padded(clock.second as int, 2));
}

/// A moment is a date, the letter between, a time, and how far ahead of universal time
/// the clock is: a sign, hours and minutes that come to it.
pub proof fn law_a_moment_says_how_far_ahead_it_is(clock: Clock)
    requires
        -360000 < clock.utc_offset_seconds < 360000,
    ensures
        ({
            let ahead = iso_text(clock).skip((date_text(clock) + time_text(clock)).len() as int + 1);
            let seconds = clock.utc_offset_seconds as int;
            &&& iso_text(clock) == date_text(clock) + "T"@ + time_text(clock) + ahead
            &&& ahead.len() == 6
            &&& ahead[0] == '-' <==> seconds < 0
            &&& ahead[0] == '+' <==> seconds >= 0
            &&& ahead[3] == ':'
            &&& 0 <= worth(ahead.subrange(4, 6)) < 60
            &&& ({
                let told = 3600 * worth(ahead.subrange(1, 3)) + 60 * worth(ahead.subrange(4, 6));
                if seconds < 0 {
                    told <= -seconds < told + 60
                } else {
                    told <= seconds < told + 60
                }
            })
        }),
{
    reveal_strlit("-");
    reveal_strlit("+");
    reveal_strlit(":");
    reveal_strlit("T");
    let seconds = clock.utc_offset_seconds as int;
    let size = if seconds < 0 {
        -seconds
    } else {
        seconds
    };
    let ahead = offset_text(seconds);
    let hours = size / 3600;
    let minutes = size % 3600 / 60;
    lemma_two_digits(hours);
    lemma_two_digits(minutes);
    law_a_padded_number_comes_to_the_same(hours, 2);
    law_a_padded_number_comes_to_the_same(minutes, 2);
    assert(ahead.subrange(1, 3) =~= zero_padded(hours, 2));
    assert(ahead.subrange(4, 6) =~= zero_padded(minutes, 2));
    assert(iso_text(clock).skip((date_text(clock) + time_text(clock)).len() as int + 1) =~= ahead);
}

/// A number below zero has its sign first, and the sign counts.
pub proof fn law_a_sign_counts(value: int, width: int)
    requires
        value < 0,
    ensures
        zero_padded(value, width) == "-"@ + zero_padded(-value, width - 1),
{
    assert(zero_padded(value, width) =~= "-"@ + zero_padded(-value, width - 1));
}

} // verus!
