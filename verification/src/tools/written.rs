//! Dates and times as the `datetime` tool writes them, read back.

use vstd::prelude::*;

use crate::text::decimal;

use super::datetime::{date_text, is_date, padded, time_text, weekday, weekday_text};

verus! {

proof fn lemma_padded_len(n: nat, width: nat)
    requires
        width == 2 && n < 100 || width == 4 && n < 10_000,
    ensures
        padded(n, width).len() == width,
{
    reveal_with_fuel(decimal, 5);
}

proof fn lemma_zeros_in_front(zeros: Seq<char>, digits: Seq<char>)
    requires
        forall|i: int| 0 <= i < zeros.len() ==> #[trigger] zeros[i] == '0',
    ensures
        crate::text::digits_value(zeros + digits) == crate::text::digits_value(digits),
    decreases zeros.len() + digits.len(),
{
    let all = zeros + digits;
    if digits.len() > 0 {
        lemma_zeros_in_front(zeros, digits.drop_last());
        assert(all.drop_last() =~= zeros + digits.drop_last());
    } else if zeros.len() > 0 {
        let less = zeros.drop_last();
        assert forall|i: int| 0 <= i < less.len() implies #[trigger] less[i] == '0' by {
            assert(less[i] == zeros[i]);
        }
        lemma_zeros_in_front(less, digits);
        assert(all.drop_last() =~= less + digits);
        assert(all.last() == zeros[zeros.len() - 1]);
    }
}

proof fn lemma_padded_value(n: nat, width: nat)
    ensures
        crate::text::digits_value(padded(n, width)) == n,
{
    crate::text::lemma_decimal_digits(n);
    let digits = decimal(n);
    let zeros = Seq::new(
        if digits.len() < width {
            (width - digits.len()) as nat
        } else {
            0
        },
        |i: int| '0',
    );
    lemma_zeros_in_front(zeros, digits);
    assert(padded(n, width) =~= zeros + digits);
}

/// The hours, minutes and seconds of a written time make up the second of the
/// day.
#[verifier::rlimit(30)]
pub proof fn law_written_times_are_read_back(second: int)
    requires
        0 <= second < 86_400,
    ensures
        ({
            let text = time_text(second);
            &&& text.len() == 8
            &&& text[2] == ':' && text[5] == ':'
            &&& crate::text::digits_value(text.subrange(0, 2)) < 24
            &&& crate::text::digits_value(text.subrange(3, 5)) < 60
            &&& crate::text::digits_value(text.subrange(6, 8)) < 60
            &&& crate::text::digits_value(text.subrange(0, 2)) * 3600 + crate::text::digits_value(
                text.subrange(3, 5),
            ) * 60 + crate::text::digits_value(text.subrange(6, 8)) == second
        }),
{
    reveal_strlit(":");
    let text = time_text(second);
    let (h, m, s) = ((second / 3600) as nat, (second / 60 % 60) as nat, (second % 60) as nat);
    lemma_padded_len(h, 2);
    lemma_padded_len(m, 2);
    lemma_padded_len(s, 2);
    lemma_padded_value(h, 2);
    lemma_padded_value(m, 2);
    lemma_padded_value(s, 2);
    assert(text.subrange(0, 2) =~= padded(h, 2));
    assert(text.subrange(3, 5) =~= padded(m, 2));
    assert(text.subrange(6, 8) =~= padded(s, 2));
}

/// The year, the month and the day are read back from a written date, where
/// the year has four places.
#[verifier::rlimit(30)]
pub proof fn law_written_dates_are_read_back(y: int, m: int, d: int)
    requires
        0 <= y < 10_000,
        is_date(y, m, d),
    ensures
        ({
            let text = date_text(y, m, d);
            &&& text.len() == 10
            &&& text[4] == '-' && text[7] == '-'
            &&& crate::text::digits_value(text.subrange(0, 4)) == y
            &&& crate::text::digits_value(text.subrange(5, 7)) == m
            &&& crate::text::digits_value(text.subrange(8, 10)) == d
        }),
{
    reveal_strlit("-");
    let text = date_text(y, m, d);
    lemma_padded_len(y as nat, 4);
    lemma_padded_len(m as nat, 2);
    lemma_padded_len(d as nat, 2);
    lemma_padded_value(y as nat, 4);
    lemma_padded_value(m as nat, 2);
    lemma_padded_value(d as nat, 2);
    assert(text.subrange(0, 4) =~= padded(y as nat, 4));
    assert(text.subrange(5, 7) =~= padded(m as nat, 2));
    assert(text.subrange(8, 10) =~= padded(d as nat, 2));
}

/// The day of the week that follows another.
pub open spec fn day_after(name: Seq<char>) -> Seq<char> {
    if name == "Monday"@ {
        "Tuesday"@
    } else if name == "Tuesday"@ {
        "Wednesday"@
    } else if name == "Wednesday"@ {
        "Thursday"@
    } else if name == "Thursday"@ {
        "Friday"@
    } else if name == "Friday"@ {
        "Saturday"@
    } else if name == "Saturday"@ {
        "Sunday"@
    } else {
        "Monday"@
    }
}

/// The days of the week follow each other without end, before 1970 as behind
/// it, which began on a Thursday.
#[verifier::rlimit(30)]
pub proof fn law_weekdays_follow_each_other(day: int)
    ensures
        weekday_text(weekday(day + 1)) == day_after(weekday_text(weekday(day))),
        weekday_text(weekday(0)) == "Thursday"@,
{
    reveal_strlit("Sunday");
    reveal_strlit("Monday");
    reveal_strlit("Tuesday");
    reveal_strlit("Wednesday");
    reveal_strlit("Thursday");
    reveal_strlit("Friday");
    reveal_strlit("Saturday");
    assert("Sunday"@.len() == 6 && "Monday"@.len() == 6 && "Friday"@.len() == 6);
    assert("Sunday"@[0] == 'S' && "Monday"@[0] == 'M' && "Friday"@[0] == 'F');
    assert("Tuesday"@.len() == 7 && "Wednesday"@.len() == 9);
    assert("Thursday"@.len() == 8 && "Saturday"@.len() == 8);
    assert("Thursday"@[0] == 'T' && "Saturday"@[0] == 'S');
    assert(weekday(day + 1) == (if weekday(day) == 6 {
        0
    } else {
        weekday(day) + 1
    }));
}

} // verus!
