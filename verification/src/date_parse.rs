//! The date window resolver: turns a user-supplied date token — an ISO
//! calendar date or a relative keyword — into a concrete calendar date.

use vstd::prelude::*;
use crate::datetime::{Date, spec_parse_date, spec_day_number, spec_weekday, parse_date,
    day_number, date_of_day_number, weekday, lemma_day_number_in_year,
    lemma_days_before_year_monotone};
use crate::text::chars_of;

verus! {

/// Whether two strings hold the same characters.
fn eq_str(a: &str, b: &str) -> (r: bool)
    ensures
        r == (a@ == b@),
{
    let sa = String::from_str(a);
    let sb = String::from_str(b);
    sa.eq(&sb)
}

/// The error text for an unresolvable date token.
pub open spec fn spec_date_error(s: Seq<char>) -> Seq<char> {
    "Can't format input as date: "@ + s
}

/// The token resolves to a date: an exact ISO calendar date, or one of the
/// relative keywords.
pub open spec fn spec_is_date_token(s: Seq<char>) -> bool {
    spec_parse_date(s) is Some || s == "today"@ || s == "yesterday"@ || s == "month"@
        || s == "biweekly"@ || s == "friday"@
}

/// Resolves a date token against `today`.
///
/// An exact `YYYY-MM-DD` date parses directly; `today`, `yesterday`, `month`
/// (the first of the current month), `biweekly` (the most recent of the 1st
/// and the 15th) and `friday` (the most recent Friday at or before today)
/// are evaluated against `today`; anything else is an error.
///
/// `today` must lie at least a week after the calendar's first day, so that
/// every keyword has a date to land on; any date a clock reports does.
pub fn input(s: &str, today: Date) -> (r: Result<Date, String>)
    requires
        today.wf(),
        spec_day_number(today) >= 7,
    ensures
        match r {
            Ok(d) => d.wf() && spec_is_date_token(s@),
            Err(e) => !spec_is_date_token(s@) && e@ == spec_date_error(s@),
        },
        spec_parse_date(s@) is Some ==> r == Ok::<Date, String>(spec_parse_date(s@).unwrap()),
        spec_parse_date(s@) is None && s@ == "today"@ ==> r == Ok::<Date, String>(today),
        spec_parse_date(s@) is None && s@ == "yesterday"@ ==> r is Ok && spec_day_number(
            r.unwrap()) == spec_day_number(today) - 1,
        spec_parse_date(s@) is None && s@ == "month"@ ==> r == Ok::<Date, String>(
            Date { year: today.year, month: today.month, day: 1 },
        ),
        spec_parse_date(s@) is None && s@ == "biweekly"@ ==> r == Ok::<Date, String>(
            Date {
                year: today.year,
                month: today.month,
                day: if today.day >= 15 {
                    15
                } else {
                    1
                },
            },
        ),
        spec_parse_date(s@) is None && s@ == "friday"@ ==> r is Ok && spec_weekday(r.unwrap())
            == 6 && spec_day_number(today) - 7 < spec_day_number(r.unwrap()) <= spec_day_number(
            today),
{
    proof {
        reveal_strlit("today");
        reveal_strlit("yesterday");
        reveal_strlit("month");
        reveal_strlit("biweekly");
        reveal_strlit("friday");
        assert("today"@[0] != "month"@[0] && "yesterday"@[0] != "month"@[0] && "biweekly"@[0]
            != "month"@[0] && "friday"@[0] != "month"@[0]);
    }
    let v = chars_of(s);
    if let Some(d) = parse_date(&v) {
        return Ok(d);
    }
    proof {
        lemma_day_number_in_year(today);
        lemma_days_before_year_monotone(today.year as int + 1, 10000);
    }
    if eq_str(s, "today") {
        Ok(today)
    } else if eq_str(s, "yesterday") {
        let n = day_number(&today);
        Ok(date_of_day_number(n - 1))
    } else if eq_str(s, "month") {
        Ok(Date { year: today.year, month: today.month, day: 1 })
    } else if eq_str(s, "biweekly") {
        let target: u8 = if today.day >= 15 {
            15
        } else {
            1
        };
        Ok(Date { year: today.year, month: today.month, day: target })
    } else if eq_str(s, "friday") {
        let n = day_number(&today);
        let wd = weekday(&today);
        // Friday has weekday number 6; step back to the most recent one.
        let gap = (wd + 1) % 7;
        Ok(date_of_day_number(n - gap as u32))
    } else {
        proof {
            reveal_strlit("Can't format input as date: ");
        }
        let mut e = String::from_str("Can't format input as date: ");
        e.append(s);
        Err(e)
    }
}

} // verus!
