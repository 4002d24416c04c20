use crate::text::{decimal, decimal_text, digit_char, digit_str};
use crate::timestamp::{day_label, weekday_from_monday, weekday_of, CalendarDay};
use crate::work::{
    day_before, day_is_before, key_before, key_is_before, stats_views, week_views, weeks_days_wf,
    PeriodWorkStats, WeekView, WorkStats, WorkStatsByWeek,
};
use vstd::prelude::*;

verus! {

/// The short English name of a day of the week counted from Monday as 0.
pub open spec fn weekday_name(i: int) -> Seq<char> {
    if i == 0 {
        "Mon"@
    } else if i == 1 {
        "Tue"@
    } else if i == 2 {
        "Wed"@
    } else if i == 3 {
        "Thu"@
    } else if i == 4 {
        "Fri"@
    } else if i == 5 {
        "Sat"@
    } else {
        "Sun"@
    }
}

fn weekday_str(i: u32) -> (r: &'static str)
    ensures
        r@ == weekday_name(i as int),
{
    match i {
        0 => "Mon",
        1 => "Tue",
        2 => "Wed",
        3 => "Thu",
        4 => "Fri",
        5 => "Sat",
        _ => "Sun",
    }
}

/// An amount in hundredths written with two decimals.
pub open spec fn hundredths_text(c: nat) -> Seq<char> {
    decimal(c / 100) + seq!['.', digit_char((c % 100 / 10) as int), digit_char((c % 10) as int)]
}

/// Minutes written as hours with two decimals, rounded to the nearest hundredth (a third of
/// a hundredth is rounded down, two thirds up).
pub open spec fn hours_text(minutes: nat) -> Seq<char> {
    let f = ((minutes % 60) * 10 + 3) / 6;
    decimal(minutes / 60) + seq!['.', digit_char((f / 10) as int), digit_char((f % 10) as int)]
}

pub open spec fn week_header() -> Seq<char> {
    "\n| Day | Date       | Hours | Acc |\n|-----|------------|-------|-----|\n"@
}

pub open spec fn day_row(d: CalendarDay, minutes: nat, acc: nat) -> Seq<char> {
    "| "@ + weekday_name(weekday_of(d.year as int, d.month as int, d.day as int)) + " | "@
        + day_label(d) + " | "@ + hours_text(minutes) + " | "@ + hours_text(acc) + " |\n"@
}

/// The rows of a week's days, `acc` being the minutes before them in the week.
pub open spec fn week_rows(days: Seq<(CalendarDay, int)>, acc: nat) -> Seq<char>
    decreases days.len(),
{
    if days.len() == 0 {
        Seq::empty()
    } else {
        let a = acc + days[0].1 as nat;
        day_row(days[0].0, days[0].1 as nat, a) + week_rows(days.drop_first(), a)
    }
}

/// One table per week of `ws`, in the order of `ws`; `report_text` passes them sorted.
pub open spec fn weeks_text(ws: Seq<WeekView>) -> Seq<char>
    decreases ws.len(),
{
    if ws.len() == 0 {
        Seq::empty()
    } else {
        week_header() + week_rows(ws[0].2, 0) + weeks_text(ws.drop_first())
    }
}

/// `e` placed into `s` after every day that is not later than it.
pub open spec fn insert_day(s: Seq<(CalendarDay, int)>, e: (CalendarDay, int)) -> Seq<
    (CalendarDay, int),
>
    decreases s.len(),
{
    if s.len() == 0 {
        seq![e]
    } else if day_before(e.0, s.last().0) {
        insert_day(s.drop_last(), e).push(s.last())
    } else {
        s.push(e)
    }
}

/// The days in calendar order; equal days keep their order.
pub open spec fn sort_days(s: Seq<(CalendarDay, int)>) -> Seq<(CalendarDay, int)>
    decreases s.len(),
{
    if s.len() == 0 {
        s
    } else {
        insert_day(sort_days(s.drop_last()), s.last())
    }
}

/// A week with its days in calendar order.
pub open spec fn sorted_week(w: WeekView) -> WeekView {
    (w.0, w.1, sort_days(w.2))
}

/// `w` placed into `ws` after every week whose key is not later than its own.
pub open spec fn insert_week(ws: Seq<WeekView>, w: WeekView) -> Seq<WeekView>
    decreases ws.len(),
{
    if ws.len() == 0 {
        seq![w]
    } else if key_before(w.0, ws.last().0) {
        insert_week(ws.drop_last(), w).push(ws.last())
    } else {
        ws.push(w)
    }
}

/// The weeks in (year, week) order, each with its days in calendar order; equal keys keep
/// their order.
pub open spec fn sort_weeks(ws: Seq<WeekView>) -> Seq<WeekView>
    decreases ws.len(),
{
    if ws.len() == 0 {
        ws
    } else {
        insert_week(sort_weeks(ws.drop_last()), sorted_week(ws.last()))
    }
}

/// The report of a period: the week tables, weeks in (year, week) order and days in calendar
/// order inside each, then the worked days, the hours and the salary.
pub open spec fn report_text(
    ws: Seq<WeekView>,
    total_minutes: nat,
    work_days: nat,
    daily_rate_cents: nat,
    currency: Seq<char>,
) -> Seq<char> {
    weeks_text(sort_weeks(ws)) + "\n| Work Days | "@ + decimal(work_days) + "     |\n"@ + "| Total     | "@
        + hours_text(total_minutes) + " |\n"@ + "| Salary    | "@ + hundredths_text(
        daily_rate_cents * work_days,
    ) + " "@ + currency + " |\n"@
}

fn hundredths_string(c: u128) -> (r: String)
    ensures
        r@ == hundredths_text(c as nat),
{
    let mut r = decimal_text(c / 100);
    r.append(".");
    r.append(digit_str((c % 100 / 10) as u32));
    r.append(digit_str((c % 10) as u32));
    proof {
        reveal_strlit(".");
    }
    assert(r@ =~= hundredths_text(c as nat));
    r
}

fn hours_string(minutes: u128) -> (r: String)
    ensures
        r@ == hours_text(minutes as nat),
{
    let f = ((minutes % 60) * 10 + 3) / 6;
    let mut r = decimal_text(minutes / 60);
    r.append(".");
    r.append(digit_str((f / 10) as u32));
    r.append(digit_str((f % 10) as u32));
    proof {
        reveal_strlit(".");
    }
    assert(r@ =~= hours_text(minutes as nat));
    r
}

fn append_day_row(r: &mut String, d: &CalendarDay, minutes: u64, acc: u128)
    requires
        d.wf(),
    ensures
        final(r)@ == old(r)@ + day_row(*d, minutes as nat, acc as nat),
{
    proof {
        reveal_strlit("| ");
        reveal_strlit(" | ");
        reveal_strlit(" |\n");
    }
    let wd = weekday_from_monday(d);
    r.append("| ");
    r.append(weekday_str(wd));
    r.append(" | ");
    let label = d.label();
    r.append(label.as_str());
    r.append(" | ");
    let h = hours_string(minutes as u128);
    r.append(h.as_str());
    r.append(" | ");
    let a = hours_string(acc);
    r.append(a.as_str());
    r.append(" |\n");
    assert(final(r)@ =~= old(r)@ + day_row(*d, minutes as nat, acc as nat));
}

spec fn days_wf(v: Seq<WorkStats>) -> bool {
    forall|j: int| 0 <= j < v.len() ==> (#[trigger] v[j]).day.wf()
}

fn insert_day_exec(v: &mut Vec<WorkStats>, e: WorkStats)
    requires
        days_wf(old(v)@),
        e.day.wf(),
    ensures
        stats_views(final(v)@) == insert_day(stats_views(old(v)@), (e.day, e.length as int)),
        days_wf(final(v)@),
{
    let ghost s = stats_views(v@);
    let ghost ev = (e.day, e.length as int);
    let mut k = v.len();
    let mut done = false;
    assert(s.subrange(0, k as int) == s);
    assert(insert_day(s, ev) =~= insert_day(s.subrange(0, k as int), ev) + s.subrange(
        k as int,
        s.len() as int,
    ));
    while k > 0 && !done
        invariant
            k <= v@.len(),
            s == stats_views(v@),
            ev == (e.day, e.length as int),
            done ==> k > 0 && !day_before(ev.0, s[k - 1].0),
            insert_day(s, ev) == insert_day(s.subrange(0, k as int), ev) + s.subrange(
                k as int,
                s.len() as int,
            ),
        decreases k + (if done { 0int } else { 1int }),
    {
        assert(s[k - 1] == (v@[k - 1].day, v@[k - 1].length as int));
        if !day_is_before(&e.day, &v[k - 1].day) {
            done = true;
        } else {
            let ghost lo = s.subrange(0, k - 1);
            assert(s.subrange(0, k as int).drop_last() == lo);
            assert(s.subrange(0, k as int).last() == s[k - 1]);
            assert(insert_day(s.subrange(0, k as int), ev) == insert_day(lo, ev).push(s[k - 1]));
            assert(insert_day(lo, ev).push(s[k - 1]) + s.subrange(k as int, s.len() as int)
                =~= insert_day(lo, ev) + s.subrange(k - 1, s.len() as int));
            k = k - 1;
        }
    }
    if k > 0 {
        assert(s.subrange(0, k as int).last() == s[k - 1]);
        assert(insert_day(s.subrange(0, k as int), ev) == s.subrange(0, k as int).push(ev));
    } else {
        assert(insert_day(s.subrange(0, 0), ev) == seq![ev]);
    }
    let ghost before = v@;
    v.insert(k, e);
    assert(stats_views(v@) =~= s.insert(k as int, ev));
    assert(s.insert(k as int, ev) =~= insert_day(s.subrange(0, k as int), ev) + s.subrange(
        k as int,
        s.len() as int,
    ));
    assert forall|j: int| 0 <= j < v@.len() implies (#[trigger] v@[j]).day.wf() by {
        if j < k {
            assert(v@[j] == before[j]);
        } else if j > k {
            assert(v@[j] == before[j - 1]);
        }
    }
}

fn sorted_days(days: &Vec<WorkStats>) -> (r: Vec<WorkStats>)
    requires
        days_wf(days@),
    ensures
        stats_views(r@) == sort_days(stats_views(days@)),
        days_wf(r@),
{
    let mut r: Vec<WorkStats> = Vec::new();
    let mut i: usize = 0;
    while i < days.len()
        invariant
            i <= days@.len(),
            days_wf(days@),
            stats_views(r@) == sort_days(stats_views(days@.subrange(0, i as int))),
            days_wf(r@),
        decreases days@.len() - i,
    {
        let ghost pre = stats_views(days@.subrange(0, i + 1));
        assert(pre.drop_last() =~= stats_views(days@.subrange(0, i as int)));
        assert(pre.last() == (days@[i as int].day, days@[i as int].length as int));
        assert(days@[i as int].day.wf());
        insert_day_exec(&mut r, days[i]);
        i = i + 1;
    }
    assert(days@.subrange(0, days@.len() as int) == days@);
    r
}

fn insert_week_exec(v: &mut Vec<WorkStatsByWeek>, w: WorkStatsByWeek)
    requires
        weeks_days_wf(week_views(old(v)@)),
        days_wf(w.work_stats@),
    ensures
        week_views(final(v)@) == insert_week(week_views(old(v)@), w@),
        weeks_days_wf(week_views(final(v)@)),
{
    let ghost s = week_views(v@);
    let ghost wv = w@;
    let mut k = v.len();
    let mut done = false;
    assert(s.subrange(0, k as int) == s);
    assert(insert_week(s, wv) =~= insert_week(s.subrange(0, k as int), wv) + s.subrange(
        k as int,
        s.len() as int,
    ));
    while k > 0 && !done
        invariant
            k <= v@.len(),
            s == week_views(v@),
            wv.0 == w.week.key(),
            done ==> k > 0 && !key_before(wv.0, s[k - 1].0),
            insert_week(s, wv) == insert_week(s.subrange(0, k as int), wv) + s.subrange(
                k as int,
                s.len() as int,
            ),
        decreases k + (if done { 0int } else { 1int }),
    {
        assert(s[k - 1] == v@[k - 1]@);
        if !key_is_before(&w.week, &v[k - 1].week) {
            done = true;
        } else {
            let ghost lo = s.subrange(0, k - 1);
            assert(s.subrange(0, k as int).drop_last() == lo);
            assert(s.subrange(0, k as int).last() == s[k - 1]);
            assert(insert_week(s.subrange(0, k as int), wv) == insert_week(lo, wv).push(s[k - 1]));
            assert(insert_week(lo, wv).push(s[k - 1]) + s.subrange(k as int, s.len() as int)
                =~= insert_week(lo, wv) + s.subrange(k - 1, s.len() as int));
            k = k - 1;
        }
    }
    if k > 0 {
        assert(s.subrange(0, k as int).last() == s[k - 1]);
        assert(insert_week(s.subrange(0, k as int), wv) == s.subrange(0, k as int).push(wv));
    } else {
        assert(insert_week(s.subrange(0, 0), wv) == seq![wv]);
    }
    v.insert(k, w);
    assert(week_views(v@) =~= s.insert(k as int, wv));
    assert(s.insert(k as int, wv) =~= insert_week(s.subrange(0, k as int), wv) + s.subrange(
        k as int,
        s.len() as int,
    ));
    let ghost t = week_views(v@);
    assert forall|i: int, j: int| 0 <= i < t.len() && 0 <= j < t[i].2.len() implies (
    #[trigger] t[i].2[j]).0.wf() by {
        if i < k {
            assert(t[i] == s[i]);
        } else if i > k {
            assert(t[i] == s[i - 1]);
        } else {
            assert(t[i].2[j] == (w.work_stats@[j].day, w.work_stats@[j].length as int));
        }
    }
}

/// The weeks in (year, week) order, each with its days in calendar order.
fn sorted_weeks(ws: &Vec<WorkStatsByWeek>) -> (r: Vec<WorkStatsByWeek>)
    requires
        weeks_days_wf(week_views(ws@)),
    ensures
        week_views(r@) == sort_weeks(week_views(ws@)),
        weeks_days_wf(week_views(r@)),
{
    let mut r: Vec<WorkStatsByWeek> = Vec::new();
    let mut i: usize = 0;
    assert(week_views(r@) =~= Seq::<WeekView>::empty());
    while i < ws.len()
        invariant
            i <= ws@.len(),
            weeks_days_wf(week_views(ws@)),
            week_views(r@) == sort_weeks(week_views(ws@.subrange(0, i as int))),
            weeks_days_wf(week_views(r@)),
        decreases ws@.len() - i,
    {
        let w = &ws[i];
        let ghost pre = week_views(ws@.subrange(0, i + 1));
        assert(pre.drop_last() =~= week_views(ws@.subrange(0, i as int)));
        assert(pre.last() == w@);
        assert(week_views(ws@)[i as int] == w@);
        assert forall|j: int| 0 <= j < w.work_stats@.len() implies (
        #[trigger] w.work_stats@[j]).day.wf() by {
            assert(week_views(ws@)[i as int].2[j] == (w.work_stats@[j].day, w.work_stats@[j].length as int));
        }
        let days = sorted_days(&w.work_stats);
        let nw = WorkStatsByWeek {
            week: w.week,
            total_duration_in_minutes: w.total_duration_in_minutes,
            work_stats: days,
        };
        assert(nw@ == sorted_week(w@));
        insert_week_exec(&mut r, nw);
        i = i + 1;
    }
    assert(ws@.subrange(0, ws@.len() as int) == ws@);
    r
}

/// Renders the statistics of a period: per week, in (year, week) order, a table of its days in
/// calendar order with the hours of each and the hours so far in the week, then the number of worked days, the total hours and the
/// salary, `daily_rate_cents` (hundredths of the currency) times the worked days.
pub fn compose_work_stats(stats: &PeriodWorkStats, daily_rate_cents: u64, currency: &str) -> (r:
    String)
    requires
        weeks_days_wf(week_views(stats.work_stats_by_week@)),
    ensures
        r@ == report_text(
            week_views(stats.work_stats_by_week@),
            stats.total_duration_in_minutes as nat,
            stats.total_work_days as nat,
            daily_rate_cents as nat,
            currency@,
        ),
{
    let weeks = sorted_weeks(&stats.work_stats_by_week);
    let ghost ws = week_views(weeks@);
    let mut r = String::new();
    let mut i: usize = 0;
    proof {
        reveal_strlit("\n| Day | Date       | Hours | Acc |\n|-----|------------|-------|-----|\n");
        reveal_strlit("| ");
        reveal_strlit(" | ");
        reveal_strlit(" |\n");
    }
    assert(ws.subrange(0, ws.len() as int) == ws);
    assert(r@ + weeks_text(ws) =~= weeks_text(ws));
    while i < weeks.len()
        invariant
            i <= ws.len(),
            ws == week_views(weeks@),
            weeks_days_wf(ws),
            r@ + weeks_text(ws.subrange(i as int, ws.len() as int)) == weeks_text(ws),
        decreases ws.len() - i,
    {
        let week = &weeks[i];
        let ghost cur = ws.subrange(i as int, ws.len() as int);
        assert(cur[0] == week@);
        assert(cur.drop_first() == ws.subrange(i + 1, ws.len() as int));
        let ghost days = week@.2;
        r.append("\n| Day | Date       | Hours | Acc |\n|-----|------------|-------|-----|\n");
        assert(r@ + week_rows(days, 0) + weeks_text(cur.drop_first()) =~= weeks_text(ws));
        let mut acc: u128 = 0;
        let mut j: usize = 0;
        assert(days.subrange(0, days.len() as int) == days);
        while j < week.work_stats.len()
            invariant
                j <= days.len(),
                days == week@.2,
                week@ == ws[i as int],
                i < ws.len(),
                weeks_days_wf(ws),
                acc <= j * 0xffff_ffff_ffff_ffffu128,
                j <= 0xffff_ffff_ffff_ffff,
                r@ + week_rows(days.subrange(j as int, days.len() as int), acc as nat)
                    + weeks_text(cur.drop_first()) == weeks_text(ws),
            decreases days.len() - j,
        {
            let e = week.work_stats[j];
            let ghost rest = days.subrange(j + 1, days.len() as int);
            let ghost dcur = days.subrange(j as int, days.len() as int);
            assert(dcur[0] == (e.day, e.length as int));
            assert(dcur.drop_first() == rest);
            assert(days[j as int] == (e.day, e.length as int));
            assert(e.day.wf());
            acc = acc + e.length as u128;
            append_day_row(&mut r, &e.day, e.length, acc);
            assert(r@ + week_rows(rest, acc as nat) + weeks_text(cur.drop_first()) =~= weeks_text(ws));
            j = j + 1;
        }
        assert(days.subrange(j as int, days.len() as int) =~= Seq::<(CalendarDay, int)>::empty());
        i = i + 1;
    }
    assert(ws.subrange(i as int, ws.len() as int) =~= Seq::<WeekView>::empty());
    assert(r@ + Seq::<char>::empty() =~= r@);
    proof {
        reveal_strlit("\n| Work Days | ");
        reveal_strlit("     |\n");
        reveal_strlit("| Total     | ");
        reveal_strlit("| Salary    | ");
        reveal_strlit(" ");
    }
    r.append("\n| Work Days | ");
    let n = decimal_text(stats.total_work_days as u128);
    r.append(n.as_str());
    r.append("     |\n");
    r.append("| Total     | ");
    let t = hours_string(stats.total_duration_in_minutes as u128);
    r.append(t.as_str());
    r.append(" |\n");
    r.append("| Salary    | ");
    let days = stats.total_work_days as u128;
    let rate = daily_rate_cents as u128;
    assert(rate * days <= 0xffff_ffff_ffff_ffffu128 * 0xffff_ffff_ffff_ffffu128) by (nonlinear_arith)
        requires
            rate <= 0xffff_ffff_ffff_ffffu128,
            days <= 0xffff_ffff_ffff_ffffu128,
    ;
    let salary = rate * days;
    let sal = hundredths_string(salary);
    r.append(sal.as_str());
    r.append(" ");
    r.append(currency);
    r.append(" |\n");
    assert(r@ =~= report_text(
        week_views(stats.work_stats_by_week@),
        stats.total_duration_in_minutes as nat,
        stats.total_work_days as nat,
        daily_rate_cents as nat,
        currency@,
    ));
    r
}

} // verus!
