use crate::text::{decimal, decimal_text, digit_char, digit_str};
use crate::timestamp::{weekday_from_monday, weekday_of, CalendarDay};
use vstd::prelude::*;

verus! {

/// The English ordinal suffix of a day of the month.
pub open spec fn day_suffix(day: int) -> Seq<char> {
    if 11 <= day <= 13 {
        "th"@
    } else if day % 10 == 1 {
        "st"@
    } else if day % 10 == 2 {
        "nd"@
    } else if day % 10 == 3 {
        "rd"@
    } else {
        "th"@
    }
}

pub fn get_day_suffix(day: u32) -> (r: &'static str)
    ensures
        r@ == day_suffix(day as int),
{
    if 11 <= day && day <= 13 {
        "th"
    } else if day % 10 == 1 {
        "st"
    } else if day % 10 == 2 {
        "nd"
    } else if day % 10 == 3 {
        "rd"
    } else {
        "th"
    }
}

/// The week of the month a day falls in, weeks starting on Monday, the first week being the
/// one that holds the first of the month.
pub open spec fn week_of_month(day: int, first_weekday: int) -> int {
    (day - 1 + first_weekday) / 7 + 1
}

/// The week of the month of `day`, given the day of the week of the first of the month
/// (Monday being 0).
pub fn get_week_of_month(day: u32, first_weekday: u32) -> (r: u32)
    requires
        1 <= day <= 31,
        first_weekday < 7,
    ensures
        r == week_of_month(day as int, first_weekday as int),
{
    (day - 1 + first_weekday) / 7 + 1
}

/// The two-digit text of a number below 100.
pub open spec fn two_digits(n: int) -> Seq<char> {
    seq![digit_char(n / 10), digit_char(n % 10)]
}

fn two_digit_string(n: u32) -> (r: String)
    requires
        n < 100,
    ensures
        r@ == two_digits(n as int),
{
    let mut r = String::from_str(digit_str(n / 10));
    r.append(digit_str(n % 10));
    assert(r@ =~= two_digits(n as int));
    r
}

/// The file name of the note of a day of the month: its two-digit number and `.md`.
pub fn name_file(day: u32) -> (r: String)
    requires
        day < 100,
    ensures
        r@ == two_digits(day as int) + ".md"@,
{
    let mut r = two_digit_string(day);
    r.append(".md");
    r
}

/// The folder of a month's notes under `base_path`: `base/YYYY/MM/`.
pub fn build_file_path_for_month(base_path: &str, date: &CalendarDay) -> (r: String)
    requires
        date.wf(),
    ensures
        r@ == base_path@ + "/"@ + decimal(date.year as nat) + "/"@ + two_digits(date.month as int)
            + "/"@,
{
    let mut r = String::from_str(base_path);
    r.append("/");
    let y = decimal_text(date.year as u128);
    r.append(y.as_str());
    r.append("/");
    let m = two_digit_string(date.month);
    r.append(m.as_str());
    r.append("/");
    r
}

/// The folder of a day's note under `base_path`: `base/YYYY/MM/W/`, `W` being its week of the
/// month.
pub fn build_file_path_for_day(base_path: &str, date: &CalendarDay) -> (r: String)
    requires
        date.wf(),
    ensures
        r@ == base_path@ + "/"@ + decimal(date.year as nat) + "/"@ + two_digits(date.month as int)
            + "/"@ + decimal(
            week_of_month(
                date.day as int,
                weekday_of(date.year as int, date.month as int, 1),
            ) as nat,
        ) + "/"@,
{
    let first = CalendarDay { year: date.year, month: date.month, day: 1 };
    let fw = weekday_from_monday(&first);
    let w = get_week_of_month(date.day, fw);
    let mut r = build_file_path_for_month(base_path, date);
    let wt = decimal_text(w as u128);
    r.append(wt.as_str());
    r.append("/");
    r
}

pub open spec fn weekday_name_en(i: int) -> Seq<char> {
    if i == 0 {
        "Monday"@
    } else if i == 1 {
        "Tuesday"@
    } else if i == 2 {
        "Wednesday"@
    } else if i == 3 {
        "Thursday"@
    } else if i == 4 {
        "Friday"@
    } else if i == 5 {
        "Saturday"@
    } else {
        "Sunday"@
    }
}

pub open spec fn month_name_en(m: int) -> Seq<char> {
    if m == 1 {
        "January"@
    } else if m == 2 {
        "February"@
    } else if m == 3 {
        "March"@
    } else if m == 4 {
        "April"@
    } else if m == 5 {
        "May"@
    } else if m == 6 {
        "June"@
    } else if m == 7 {
        "July"@
    } else if m == 8 {
        "August"@
    } else if m == 9 {
        "September"@
    } else if m == 10 {
        "October"@
    } else if m == 11 {
        "November"@
    } else {
        "December"@
    }
}

pub open spec fn weekday_name_fr(i: int) -> Seq<char> {
    if i == 0 {
        "Lundi"@
    } else if i == 1 {
        "Mardi"@
    } else if i == 2 {
        "Mercredi"@
    } else if i == 3 {
        "Jeudi"@
    } else if i == 4 {
        "Vendredi"@
    } else if i == 5 {
        "Samedi"@
    } else {
        "Dimanche"@
    }
}

pub open spec fn month_name_fr(m: int) -> Seq<char> {
    if m == 1 {
        "janvier"@
    } else if m == 2 {
        "f\u{e9}vrier"@
    } else if m == 3 {
        "mars"@
    } else if m == 4 {
        "avril"@
    } else if m == 5 {
        "mai"@
    } else if m == 6 {
        "juin"@
    } else if m == 7 {
        "juillet"@
    } else if m == 8 {
        "ao\u{fb}t"@
    } else if m == 9 {
        "septembre"@
    } else if m == 10 {
        "octobre"@
    } else if m == 11 {
        "novembre"@
    } else {
        "d\u{e9}cembre"@
    }
}

fn weekday_en(i: u32) -> (r: &'static str)
    ensures
        r@ == weekday_name_en(i as int),
{
    match i {
        0 => "Monday",
        1 => "Tuesday",
        2 => "Wednesday",
        3 => "Thursday",
        4 => "Friday",
        5 => "Saturday",
        _ => "Sunday",
    }
}

fn month_en(m: u32) -> (r: &'static str)
    ensures
        r@ == month_name_en(m as int),
{
    match m {
        1 => "January",
        2 => "February",
        3 => "March",
        4 => "April",
        5 => "May",
        6 => "June",
        7 => "July",
        8 => "August",
        9 => "September",
        10 => "October",
        11 => "November",
        _ => "December",
    }
}

fn weekday_fr(i: u32) -> (r: &'static str)
    ensures
        r@ == weekday_name_fr(i as int),
{
    match i {
        0 => "Lundi",
        1 => "Mardi",
        2 => "Mercredi",
        3 => "Jeudi",
        4 => "Vendredi",
        5 => "Samedi",
        _ => "Dimanche",
    }
}

fn month_fr(m: u32) -> (r: &'static str)
    ensures
        r@ == month_name_fr(m as int),
{
    match m {
        1 => "janvier",
        2 => "f\u{e9}vrier",
        3 => "mars",
        4 => "avril",
        5 => "mai",
        6 => "juin",
        7 => "juillet",
        8 => "ao\u{fb}t",
        9 => "septembre",
        10 => "octobre",
        11 => "novembre",
        _ => "d\u{e9}cembre",
    }
}

/// The English heading of a day's note, such as `# Thursday, August 7th, 2025`.
pub fn get_date_as_text_en(date: &CalendarDay) -> (r: String)
    requires
        date.wf(),
    ensures
        r@ == "# "@ + weekday_name_en(weekday_of(date.year as int, date.month as int, date.day as int))
            + ", "@ + month_name_en(date.month as int) + " "@ + decimal(date.day as nat)
            + day_suffix(date.day as int) + ", "@ + decimal(date.year as nat) + "\n"@,
{
    let wd = weekday_from_monday(date);
    let mut r = String::from_str("# ");
    r.append(weekday_en(wd));
    r.append(", ");
    r.append(month_en(date.month));
    r.append(" ");
    let d = decimal_text(date.day as u128);
    r.append(d.as_str());
    r.append(get_day_suffix(date.day));
    r.append(", ");
    let y = decimal_text(date.year as u128);
    r.append(y.as_str());
    r.append("\n");
    r
}

/// The French heading of a day's note, such as `# Jeudi 7 août 2025`.
pub fn get_date_as_text_fr(date: &CalendarDay) -> (r: String)
    requires
        date.wf(),
    ensures
        r@ == "# "@ + weekday_name_fr(weekday_of(date.year as int, date.month as int, date.day as int))
            + " "@ + decimal(date.day as nat) + " "@ + month_name_fr(date.month as int) + " "@
            + decimal(date.year as nat) + "\n"@,
{
    let wd = weekday_from_monday(date);
    let mut r = String::from_str("# ");
    r.append(weekday_fr(wd));
    r.append(" ");
    let d = decimal_text(date.day as u128);
    r.append(d.as_str());
    r.append(" ");
    r.append(month_fr(date.month));
    r.append(" ");
    let y = decimal_text(date.year as u128);
    r.append(y.as_str());
    r.append("\n");
    r
}

} // verus!
