//! Calendar dates read from bank exports, and their ISO text.
use chrono::Datelike;
use vstd::prelude::*;
use crate::amount::abs_int;
use crate::text::{dec_digits, pad_zeros, padded_digits, string_of};

verus! {

/// A day of the proleptic Gregorian calendar.
#[derive(Clone, Copy, Debug, PartialEq, Eq, Structural)]
pub struct CalendarDate {
    pub year: i32,
    pub month: u32,
    pub day: u32,
}

/// What `chrono::NaiveDate::parse_from_str(s, fmt)` reads, as (year, month, day).
pub uninterp spec fn date_parse(s: Seq<char>, fmt: Seq<char>) -> Option<(int, int, int)>;

/// Relies on `chrono::NaiveDate::parse_from_str`, read back through `Datelike`'s
/// `year`, `month` (1 to 12) and `day` (1 to 31).
#[verifier::external_body]
fn naive_date_parse(s: &str, fmt: &str) -> (r: Option<CalendarDate>)
    ensures
        r.is_some() == date_parse(s@, fmt@).is_some(),
        r matches Some(d) ==> date_parse(s@, fmt@) == Some(
            (d.year as int, d.month as int, d.day as int),
        ) && d.wf(),
{
    chrono::NaiveDate::parse_from_str(s, fmt).ok().map(
        |d| CalendarDate { year: d.year(), month: d.month(), day: d.day() },
    )
}

pub open spec fn as_date(t: (int, int, int)) -> CalendarDate {
    CalendarDate { year: t.0 as i32, month: t.1 as u32, day: t.2 as u32 }
}

/// The formats tried, in order, after the profile's own.
pub open spec fn fallback_formats() -> Seq<Seq<char>> {
    seq!["%m/%d/%Y"@, "%Y-%m-%d"@, "%m-%d-%Y"@, "%m/%d/%y"@, "%d/%m/%Y"@]
}

/// The date that the first fitting format reads from `s`, trying `fmt` first.
pub open spec fn parse_date_spec(s: Seq<char>, fmt: Seq<char>) -> Option<CalendarDate> {
    let f = fallback_formats();
    if date_parse(s, fmt) is Some {
        Some(as_date(date_parse(s, fmt)->0))
    } else if date_parse(s, f[0]) is Some {
        Some(as_date(date_parse(s, f[0])->0))
    } else if date_parse(s, f[1]) is Some {
        Some(as_date(date_parse(s, f[1])->0))
    } else if date_parse(s, f[2]) is Some {
        Some(as_date(date_parse(s, f[2])->0))
    } else if date_parse(s, f[3]) is Some {
        Some(as_date(date_parse(s, f[3])->0))
    } else if date_parse(s, f[4]) is Some {
        Some(as_date(date_parse(s, f[4])->0))
    } else {
        None
    }
}

/// The year as `%Y` writes it: four digits at least, with a sign outside 0 to 9999.
pub open spec fn year_text(y: int) -> Seq<char> {
    let digits = pad_zeros(dec_digits(abs_int(y) as nat), 4);
    if y < 0 {
        seq!['-'] + digits
    } else if y > 9999 {
        seq!['+'] + digits
    } else {
        digits
    }
}

/// `YYYY-MM-DD`.
pub open spec fn iso_text(d: CalendarDate) -> Seq<char> {
    year_text(d.year as int) + seq!['-'] + pad_zeros(dec_digits(d.month as nat), 2) + seq!['-']
        + pad_zeros(dec_digits(d.day as nat), 2)
}

impl CalendarDate {
    /// Month within 1 to 12 and day within 1 to 31.
    pub open spec fn wf(&self) -> bool {
        1 <= self.month <= 12 && 1 <= self.day <= 31
    }

    pub fn new(year: i32, month: u32, day: u32) -> (r: CalendarDate)
        ensures
            r.year == year && r.month == month && r.day == day,
    {
        CalendarDate { year, month, day }
    }

    /// The date in ISO 8601 form, as in `2024-01-15`.
    pub fn to_iso(&self) -> (r: String)
        ensures
            r@ == iso_text(*self),
    {
        let mut out: Vec<char> = Vec::new();
        let y = self.year;
        let mag: u128 = if y < 0 {
            (-(y as i64)) as u128
        } else {
            y as u128
        };
        if y < 0 {
            out.push('-');
        } else if y > 9999 {
            out.push('+');
        }
        let yd = padded_digits(mag, 4);
        out.append(&mut yd.clone());
        out.push('-');
        let md = padded_digits(self.month as u128, 2);
        out.append(&mut md.clone());
        out.push('-');
        let dd = padded_digits(self.day as u128, 2);
        out.append(&mut dd.clone());
        assert(out@ =~= iso_text(*self));
        string_of(out.as_slice())
    }
}

/// Read a date with exactly the format `fmt`.
pub fn parse_exact(s: &str, fmt: &str) -> (r: Option<CalendarDate>)
    ensures
        r.is_some() == date_parse(s@, fmt@).is_some(),
        r matches Some(d) ==> date_parse(s@, fmt@) == Some((d.year as int, d.month as int, d.day as int)),
{
    naive_date_parse(s, fmt)
}

/// Read a date with `fmt`, then with each fallback format in turn.
pub fn parse_date(s: &str, fmt: &str) -> (r: Option<CalendarDate>)
    ensures
        r == parse_date_spec(s@, fmt@),
        r matches Some(d) ==> d.wf(),
{
    if let Some(d) = naive_date_parse(s, fmt) {
        return Some(d);
    }
    if let Some(d) = naive_date_parse(s, "%m/%d/%Y") {
        return Some(d);
    }
    if let Some(d) = naive_date_parse(s, "%Y-%m-%d") {
        return Some(d);
    }
    if let Some(d) = naive_date_parse(s, "%m-%d-%Y") {
        return Some(d);
    }
    if let Some(d) = naive_date_parse(s, "%m/%d/%y") {
        return Some(d);
    }
    if let Some(d) = naive_date_parse(s, "%d/%m/%Y") {
        return Some(d);
    }
    None
}

} // verus!
