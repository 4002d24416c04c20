use crate::annotation::{all_wf, copy_annotation, views, Annotation, AnnotationView};
use crate::events::NotEvent;
use crate::text::chars_of;
use crate::timestamp::{
    elapsed_minutes, iso_week, iso_week_of, minutes_between, CalendarDay, Timestamp,
    NANOS_PER_MINUTE, NANOS_PER_SECOND, SECONDS_BOUND,
};
use vstd::prelude::*;

verus! {

pub open spec fn is_digit(c: char) -> bool {
    '0' <= c && c <= '9'
}

pub open spec fn digit_value(c: char) -> int {
    (c as u32) - 48
}

/// The day that a `YYYY-MM-DD` label names, if it is one and the day exists.
pub open spec fn parse_day_spec(w: Seq<char>) -> Option<CalendarDay> {
    if w.len() == 10 && is_digit(w[0]) && is_digit(w[1]) && is_digit(w[2]) && is_digit(w[3])
        && w[4] == '-' && is_digit(w[5]) && is_digit(w[6]) && w[7] == '-' && is_digit(w[8])
        && is_digit(w[9]) {
        let d = CalendarDay {
            year: (digit_value(w[0]) * 1000 + digit_value(w[1]) * 100 + digit_value(w[2]) * 10
                + digit_value(w[3])) as i32,
            month: (digit_value(w[5]) * 10 + digit_value(w[6])) as u32,
            day: (digit_value(w[8]) * 10 + digit_value(w[9])) as u32,
        };
        if d.wf() {
            Some(d)
        } else {
            None
        }
    } else {
        None
    }
}

fn digit_exec(c: char) -> (r: Option<u32>)
    ensures
        r is Some <==> is_digit(c),
        r is Some ==> r->Some_0 == digit_value(c) && r->Some_0 < 10,
{
    if '0' <= c && c <= '9' {
        Some((c as u32) - 48)
    } else {
        None
    }
}

/// Reads a `YYYY-MM-DD` day label; other text, or a day that does not exist, gives `None`.
pub fn parse_day(w: &str) -> (r: Option<CalendarDay>)
    ensures
        r == parse_day_spec(w@),
{
    let s = chars_of(w);
    if s.len() != 10 || s[4] != '-' || s[7] != '-' {
        return None;
    }
    let (y0, y1, y2, y3, m0, m1, d0, d1) = match (
        digit_exec(s[0]),
        digit_exec(s[1]),
        digit_exec(s[2]),
        digit_exec(s[3]),
        digit_exec(s[5]),
        digit_exec(s[6]),
        digit_exec(s[8]),
        digit_exec(s[9]),
    ) {
        (Some(a), Some(b), Some(c), Some(d), Some(e), Some(f), Some(g), Some(h)) => (
            a,
            b,
            c,
            d,
            e,
            f,
            g,
            h,
        ),
        _ => {
            return None;
        },
    };
    let year = (y0 * 1000 + y1 * 100 + y2 * 10 + y3) as i32;
    let month = m0 * 10 + m1;
    let day = d0 * 10 + d1;
    if month < 1 || month > 12 || day < 1 {
        return None;
    }
    let leap = (year % 4 == 0 && year % 100 != 0) || year % 400 == 0;
    let last = if month == 2 {
        if leap {
            29
        } else {
            28
        }
    } else if month == 4 || month == 6 || month == 9 || month == 11 {
        30
    } else {
        31
    };
    if day > last {
        return None;
    }
    Some(CalendarDay { year, month, day })
}

pub open spec fn instant_of(a: AnnotationView) -> int {
    a.datetime.instant()
}

/// `a` placed into `s` after every annotation that is not later than it.
pub open spec fn insert_by_time(s: Seq<AnnotationView>, a: AnnotationView) -> Seq<AnnotationView>
    decreases s.len(),
{
    if s.len() == 0 {
        seq![a]
    } else if instant_of(s.last()) > instant_of(a) {
        insert_by_time(s.drop_last(), a).push(s.last())
    } else {
        s.push(a)
    }
}

/// The annotations ordered by time; annotations at the same instant keep their order.
pub open spec fn sort_by_time(s: Seq<AnnotationView>) -> Seq<AnnotationView>
    decreases s.len(),
{
    if s.len() == 0 {
        s
    } else {
        insert_by_time(sort_by_time(s.drop_last()), s.last())
    }
}

pub open spec fn is_sorted_by_time(s: Seq<AnnotationView>) -> bool {
    forall|i: int, j: int| 0 <= i < j < s.len() ==> instant_of(s[i]) <= instant_of(s[j])
}

proof fn lemma_insert_keeps_sorted(s: Seq<AnnotationView>, k: int, a: AnnotationView)
    requires
        is_sorted_by_time(s),
        0 <= k <= s.len(),
        k > 0 ==> instant_of(s[k - 1]) <= instant_of(a),
        forall|j: int| k <= j < s.len() ==> instant_of(#[trigger] s[j]) > instant_of(a),
    ensures
        is_sorted_by_time(s.insert(k, a)),
{
    let t = s.insert(k, a);
    assert forall|i: int, j: int| 0 <= i < j < t.len() implies instant_of(t[i]) <= instant_of(
        t[j],
    ) by {
        if j < k {
            assert(t[i] == s[i] && t[j] == s[j]);
        } else if j == k {
            assert(t[i] == s[i]);
            assert(instant_of(s[i]) <= instant_of(s[k - 1]));
        } else if i < k {
            assert(t[i] == s[i] && t[j] == s[j - 1]);
        } else if i == k {
            assert(t[j] == s[j - 1]);
        } else {
            assert(t[i] == s[i - 1] && t[j] == s[j - 1]);
        }
    }
}

fn insert_sorted(v: &mut Vec<Annotation>, a: Annotation)
    requires
        is_sorted_by_time(views(old(v)@)),
        all_wf(old(v)@),
        a.wf(),
    ensures
        views(final(v)@) == insert_by_time(views(old(v)@), a@),
        is_sorted_by_time(views(final(v)@)),
        all_wf(final(v)@),
{
    let ghost s = views(v@);
    let key = a.datetime.instant_nanos();
    let mut k = v.len();
    let mut done = false;
    assert(s.subrange(0, k as int) == s);
    assert(s.subrange(k as int, s.len() as int) =~= Seq::<AnnotationView>::empty());
    assert(insert_by_time(s, a@) =~= insert_by_time(s.subrange(0, k as int), a@) + s.subrange(
        k as int,
        s.len() as int,
    ));
    while k > 0 && !done
        invariant
            k <= v@.len(),
            done ==> k > 0 && instant_of(s[k - 1]) <= instant_of(a@),
            s == views(v@),
            key == instant_of(a@),
            insert_by_time(s, a@) == insert_by_time(s.subrange(0, k as int), a@) + s.subrange(
                k as int,
                s.len() as int,
            ),
            forall|j: int| k <= j < s.len() ==> instant_of(#[trigger] s[j]) > instant_of(a@),
        decreases k + (if done { 0int } else { 1int }),
    {
        if v[k - 1].datetime.instant_nanos() <= key {
            done = true;
        } else {
            let ghost lo = s.subrange(0, k - 1);
            assert(s.subrange(0, k as int).drop_last() == lo);
            assert(s.subrange(0, k as int).last() == s[k - 1]);
            assert(insert_by_time(s.subrange(0, k as int), a@) == insert_by_time(lo, a@).push(
                s[k - 1],
            ));
            assert(insert_by_time(lo, a@).push(s[k - 1]) + s.subrange(k as int, s.len() as int)
                =~= insert_by_time(lo, a@) + s.subrange(k - 1, s.len() as int));
            k = k - 1;
        }
    }
    if k > 0 {
        assert(s.subrange(0, k as int).last() == s[k - 1]);
        assert(insert_by_time(s.subrange(0, k as int), a@) == s.subrange(0, k as int).push(a@));
    } else {
        assert(insert_by_time(s.subrange(0, 0), a@) == seq![a@]);
    }
    let ghost va = a@;
    v.insert(k, a);
    assert(views(v@) =~= s.insert(k as int, va));
    assert(s.insert(k as int, va) =~= insert_by_time(s.subrange(0, k as int), va) + s.subrange(
        k as int,
        s.len() as int,
    ));
    proof {
        lemma_insert_keeps_sorted(s, k as int, va);
    }
    assert forall|i: int| 0 <= i < v@.len() implies (#[trigger] v@[i]).wf() by {
        if i < k {
            assert(v@[i] == old(v)@[i]);
        } else if i > k {
            assert(v@[i] == old(v)@[i - 1]);
        }
    }
}

/// The annotations ordered by time, stably.
pub fn sort_annotations_by_time(annotations: &Vec<Annotation>) -> (r: Vec<Annotation>)
    requires
        all_wf(annotations@),
    ensures
        views(r@) == sort_by_time(views(annotations@)),
        is_sorted_by_time(views(r@)),
        all_wf(r@),
{
    let mut r: Vec<Annotation> = Vec::new();
    let mut i: usize = 0;
    while i < annotations.len()
        invariant
            i <= annotations@.len(),
            all_wf(annotations@),
            views(r@) == sort_by_time(views(annotations@.subrange(0, i as int))),
            is_sorted_by_time(views(r@)),
            all_wf(r@),
        decreases annotations@.len() - i,
    {
        let ghost pre = views(annotations@.subrange(0, i + 1));
        assert(pre.drop_last() == views(annotations@.subrange(0, i as int)));
        assert(pre.last() == annotations@[i as int]@);
        let a = copy_annotation(&annotations[i]);
        assert(annotations@[i as int].wf());
        insert_sorted(&mut r, a);
        i = i + 1;
    }
    assert(annotations@.subrange(0, annotations@.len() as int) == annotations@);
    r
}

/// The day a session started at `st` counts for: its work day label when that names a real
/// day, else the calendar day of its timestamp.
pub open spec fn session_day(st: AnnotationView) -> CalendarDay {
    match st.workday {
        Some(w) => match parse_day_spec(w) {
            Some(d) => d,
            None => st.datetime.date,
        },
        None => st.datetime.date,
    }
}

/// The completed sessions, as (day, minutes), found by one pass over `s` with `open` the
/// pending start: a start replaces any pending one, a stop closes the pending one (and is
/// passed over when there is none), other events change nothing.
pub open spec fn sessions_from(s: Seq<AnnotationView>, open: Option<AnnotationView>) -> Seq<
    (CalendarDay, int),
>
    decreases s.len(),
{
    if s.len() == 0 {
        Seq::empty()
    } else {
        let r = s[0];
        let rest = s.drop_first();
        match r.event {
            NotEvent::StartWork => sessions_from(rest, Some(r)),
            NotEvent::StopWork => match open {
                Some(st) => seq![(session_day(st), elapsed_minutes(st.datetime, r.datetime))]
                    + sessions_from(rest, None),
                None => sessions_from(rest, None),
            },
            NotEvent::CreateNot => sessions_from(rest, open),
        }
    }
}

/// The work sessions that a set of annotations records, once ordered by time.
pub open spec fn work_sessions(annotations: Seq<AnnotationView>) -> Seq<(CalendarDay, int)> {
    sessions_from(sort_by_time(annotations), None)
}

pub open spec fn sum_minutes(ss: Seq<(CalendarDay, int)>) -> int
    decreases ss.len(),
{
    if ss.len() == 0 {
        0
    } else {
        sum_minutes(ss.drop_last()) + ss.last().1
    }
}

/// A bound on the minutes of all sessions, which never overlap, between the earliest and the
/// latest timestamp that can be read.
pub const MAX_TOTAL_MINUTES: u64 = 10_000_000_000;

#[derive(Clone, Copy)]
struct Session {
    day: CalendarDay,
    minutes: u64,
}

spec fn session_views(s: Seq<Session>) -> Seq<(CalendarDay, int)> {
    s.map_values(|x: Session| (x.day, x.minutes as int))
}

proof fn lemma_instant_bounds(t: Timestamp)
    requires
        t.wf(),
    ensures
        -(SECONDS_BOUND as int) * NANOS_PER_SECOND < t.instant(),
        t.instant() < SECONDS_BOUND as int * NANOS_PER_SECOND + 2_000_000_000,
{
    let s = t.unix_seconds as int;
    assert(-(SECONDS_BOUND as int) * NANOS_PER_SECOND < s * NANOS_PER_SECOND) by (nonlinear_arith)
        requires
            -(SECONDS_BOUND as int) < s,
    ;
    assert(s * NANOS_PER_SECOND < SECONDS_BOUND as int * NANOS_PER_SECOND) by (nonlinear_arith)
        requires
            s < SECONDS_BOUND as int,
    ;
}

proof fn lemma_elapsed_bound(a: Timestamp, b: Timestamp)
    requires
        a.instant() <= b.instant(),
    ensures
        0 <= elapsed_minutes(a, b) * NANOS_PER_MINUTE <= b.instant() - a.instant(),
{
    if b.instant() > a.instant() {
        let d = b.instant() - a.instant();
        assert(0 <= (d / NANOS_PER_MINUTE as int) * NANOS_PER_MINUTE <= d) by (nonlinear_arith)
            requires
                d > 0,
        ;
    }
}

fn day_of_session(st: &Annotation) -> (r: CalendarDay)
    requires
        st.wf(),
    ensures
        r == session_day(st@),
        r.wf(),
{
    match &st.workday {
        Some(w) => match parse_day(w.as_str()) {
            Some(d) => d,
            None => st.datetime.date,
        },
        None => st.datetime.date,
    }
}

pub open spec fn open_view(open: Option<usize>, s: Seq<AnnotationView>) -> Option<AnnotationView> {
    match open {
        Some(k) => Some(s[k as int]),
        None => None,
    }
}

fn pair_sessions(sorted: &Vec<Annotation>) -> (r: Vec<Session>)
    requires
        is_sorted_by_time(views(sorted@)),
        all_wf(sorted@),
    ensures
        session_views(r@) == sessions_from(views(sorted@), None),
        sum_minutes(session_views(r@)) <= MAX_TOTAL_MINUTES,
        forall|i: int| 0 <= i < r@.len() ==> (#[trigger] r@[i]).day.wf(),
{
    let ghost s = views(sorted@);
    let mut acc: Vec<Session> = Vec::new();
    let mut open: Option<usize> = None;
    let mut i: usize = 0;
    assert(s.subrange(0, s.len() as int) == s);
    assert(session_views(acc@) + sessions_from(s, None) =~= sessions_from(s, None));
    while i < sorted.len()
        invariant
            i <= sorted@.len(),
            s == views(sorted@),
            is_sorted_by_time(s),
            all_wf(sorted@),
            sessions_from(s, None) == session_views(acc@) + sessions_from(
                s.subrange(i as int, s.len() as int),
                open_view(open, s),
            ),
            open is Some ==> open->Some_0 < i && s[open->Some_0 as int].event == NotEvent::StartWork,
            i == 0 ==> sum_minutes(session_views(acc@)) == 0,
            i > 0 && open is None ==> sum_minutes(session_views(acc@)) * NANOS_PER_MINUTE
                <= instant_of(s[i - 1]) - instant_of(s[0]),
            open is Some ==> sum_minutes(session_views(acc@)) * NANOS_PER_MINUTE <= instant_of(
                s[open->Some_0 as int],
            ) - instant_of(s[0]),
            forall|j: int| 0 <= j < acc@.len() ==> (#[trigger] acc@[j]).day.wf(),
        decreases sorted@.len() - i,
    {
        let ghost rest = s.subrange(i + 1, s.len() as int);
        let ghost cur = s.subrange(i as int, s.len() as int);
        assert(cur[0] == s[i as int]);
        assert(cur.drop_first() == rest);
        assert(sorted@[i as int].wf());
        let ghost sum0 = sum_minutes(session_views(acc@));
        if i > 0 {
            assert(instant_of(s[i - 1]) <= instant_of(s[i as int]));
        }
        assert(instant_of(s[0]) <= instant_of(s[i as int]));
        match sorted[i].event {
            NotEvent::StartWork => {
                proof {
                    if open is Some {
                        assert(instant_of(s[open->Some_0 as int]) <= instant_of(s[i as int]));
                    }
                }
                open = Some(i);
            },
            NotEvent::StopWork => {
                match open {
                    Some(k) => {
                        assert(sorted@[k as int].wf());
                        assert(instant_of(s[k as int]) <= instant_of(s[i as int]));
                        let m = minutes_between(&sorted[k].datetime, &sorted[i].datetime);
                        let d = day_of_session(&sorted[k]);
                        proof {
                            lemma_elapsed_bound(sorted@[k as int].datetime, sorted@[i as int].datetime);
                        }
                        let ghost before = session_views(acc@);
                        acc.push(Session { day: d, minutes: m });
                        assert(session_views(acc@) =~= before.push((d, m as int)));
                        assert(session_views(acc@).drop_last() == before);
                        assert(before + (seq![(d, m as int)] + sessions_from(rest, None)) =~= before.push(
                            (d, m as int),
                        ) + sessions_from(rest, None));
                        open = None;
                    },
                    None => {},
                }
            },
            NotEvent::CreateNot => {},
        }
        i = i + 1;
    }
    assert(s.subrange(i as int, s.len() as int) =~= Seq::<AnnotationView>::empty());
    assert(session_views(acc@) + Seq::<(CalendarDay, int)>::empty() =~= session_views(acc@));
    if i > 0 {
        proof {
            lemma_instant_bounds(sorted@[0].datetime);
            lemma_instant_bounds(sorted@[i - 1].datetime);
            if open is Some {
                lemma_instant_bounds(sorted@[open->Some_0 as int].datetime);
            }
            let t = sum_minutes(session_views(acc@));
            let span = 2 * (SECONDS_BOUND as int * NANOS_PER_SECOND + 2_000_000_000);
            assert(t * NANOS_PER_MINUTE <= span);
            assert(t <= MAX_TOTAL_MINUTES) by (nonlinear_arith)
                requires
                    t * NANOS_PER_MINUTE <= span,
                    span == 2 * (SECONDS_BOUND as int * NANOS_PER_SECOND + 2_000_000_000),
            ;
        }
    }
    acc
}

/// `a` comes before `b` in the calendar.
pub open spec fn day_before(a: CalendarDay, b: CalendarDay) -> bool {
    a.year < b.year || (a.year == b.year && (a.month < b.month || (a.month == b.month && a.day
        < b.day)))
}

/// Adds `m` minutes for day `d` to a list of (day, minutes) ordered by day.
pub open spec fn add_minutes(days: Seq<(CalendarDay, int)>, d: CalendarDay, m: int) -> Seq<
    (CalendarDay, int),
>
    decreases days.len(),
{
    if days.len() == 0 {
        seq![(d, m)]
    } else if days[0].0 == d {
        seq![(d, days[0].1 + m)] + days.drop_first()
    } else if day_before(days[0].0, d) {
        seq![days[0]] + add_minutes(days.drop_first(), d, m)
    } else {
        seq![(d, m)] + days
    }
}

/// The minutes of each worked day, ordered by day.
pub open spec fn day_totals(ss: Seq<(CalendarDay, int)>) -> Seq<(CalendarDay, int)>
    decreases ss.len(),
{
    if ss.len() == 0 {
        Seq::empty()
    } else {
        add_minutes(day_totals(ss.drop_last()), ss.last().0, ss.last().1)
    }
}

pub open spec fn sum_pairs(days: Seq<(CalendarDay, int)>) -> int
    decreases days.len(),
{
    if days.len() == 0 {
        0
    } else {
        days[0].1 + sum_pairs(days.drop_first())
    }
}

pub open spec fn all_nonneg(days: Seq<(CalendarDay, int)>) -> bool {
    forall|i: int| 0 <= i < days.len() ==> (#[trigger] days[i]).1 >= 0
}

pub(crate) proof fn lemma_add_minutes(days: Seq<(CalendarDay, int)>, d: CalendarDay, m: int)
    requires
        all_nonneg(days),
        m >= 0,
    ensures
        sum_pairs(add_minutes(days, d, m)) == sum_pairs(days) + m,
        all_nonneg(add_minutes(days, d, m)),
    decreases days.len(),
{
    let r = add_minutes(days, d, m);
    if days.len() == 0 {
        assert(sum_pairs(r) == m + sum_pairs(r.drop_first()));
        assert(r.drop_first() =~= Seq::<(CalendarDay, int)>::empty());
    } else if days[0].0 == d {
        assert(r.drop_first() =~= days.drop_first());
    } else if day_before(days[0].0, d) {
        lemma_add_minutes(days.drop_first(), d, m);
        assert(r.drop_first() =~= add_minutes(days.drop_first(), d, m));
        assert forall|i: int| 0 <= i < r.len() implies (#[trigger] r[i]).1 >= 0 by {
            if i > 0 {
                assert(r[i] == add_minutes(days.drop_first(), d, m)[i - 1]);
            }
        }
    } else {
        assert(r.drop_first() =~= days);
        assert forall|i: int| 0 <= i < r.len() implies (#[trigger] r[i]).1 >= 0 by {
            if i > 0 {
                assert(r[i] == days[i - 1]);
            }
        }
    }
}

proof fn lemma_entry_le_sum(days: Seq<(CalendarDay, int)>, i: int)
    requires
        all_nonneg(days),
        0 <= i < days.len(),
    ensures
        days[i].1 <= sum_pairs(days),
        sum_pairs(days) >= 0,
    decreases days.len(),
{
    lemma_sum_nonneg(days.drop_first());
    if i > 0 {
        lemma_entry_le_sum(days.drop_first(), i - 1);
    }
}

proof fn lemma_sum_nonneg(days: Seq<(CalendarDay, int)>)
    requires
        all_nonneg(days),
    ensures
        sum_pairs(days) >= 0,
    decreases days.len(),
{
    if days.len() > 0 {
        lemma_sum_nonneg(days.drop_first());
    }
}

/// The minutes of one worked day.
#[derive(Debug, Clone, Copy, PartialEq, Eq, Structural)]
pub struct WorkStats {
    pub day: CalendarDay,
    pub length: u64,
}

pub open spec fn stats_views(s: Seq<WorkStats>) -> Seq<(CalendarDay, int)> {
    s.map_values(|x: WorkStats| (x.day, x.length as int))
}

pub(crate) fn day_is_before(a: &CalendarDay, b: &CalendarDay) -> (r: bool)
    ensures
        r == day_before(*a, *b),
{
    a.year < b.year || (a.year == b.year && (a.month < b.month || (a.month == b.month && a.day
        < b.day)))
}

fn add_minutes_exec(days: &mut Vec<WorkStats>, d: CalendarDay, m: u64)
    requires
        sum_pairs(stats_views(old(days)@)) + m <= MAX_TOTAL_MINUTES,
        d.wf(),
        forall|j: int| 0 <= j < old(days)@.len() ==> (#[trigger] old(days)@[j]).day.wf(),
    ensures
        stats_views(final(days)@) == add_minutes(stats_views(old(days)@), d, m as int),
        forall|j: int| 0 <= j < final(days)@.len() ==> (#[trigger] final(days)@[j]).day.wf(),
{
    let ghost s = stats_views(days@);
    let mut q: usize = 0;
    let mut found = false;
    assert(s.subrange(0, s.len() as int) == s);
    assert(s.subrange(0, 0) + add_minutes(s.subrange(0, s.len() as int), d, m as int) =~= add_minutes(
        s,
        d,
        m as int,
    ));
    while q < days.len() && !found
        invariant
            q <= days@.len(),
            s == stats_views(days@),
            found ==> q < days@.len() && (days@[q as int].day == d || !day_before(
                days@[q as int].day,
                d,
            )),
            add_minutes(s, d, m as int) == s.subrange(0, q as int) + add_minutes(
                s.subrange(q as int, s.len() as int),
                d,
                m as int,
            ),
        decreases days@.len() - q + (if found { 0int } else { 1int }),
    {
        if days[q].day != d && day_is_before(&days[q].day, &d) {
            let ghost cur = s.subrange(q as int, s.len() as int);
            assert(cur[0] == s[q as int]);
            assert(cur.drop_first() == s.subrange(q + 1, s.len() as int));
            assert(s.subrange(0, q as int) + (seq![s[q as int]] + add_minutes(
                s.subrange(q + 1, s.len() as int),
                d,
                m as int,
            )) =~= s.subrange(0, q + 1) + add_minutes(s.subrange(q + 1, s.len() as int), d, m as int));
            q = q + 1;
        } else {
            found = true;
        }
    }
    let ghost cur = s.subrange(q as int, s.len() as int);
    if q < days.len() && days[q].day == d {
        assert(cur[0] == s[q as int]);
        assert(cur.drop_first() == s.subrange(q + 1, s.len() as int));
        proof {
            assert(all_nonneg(s));
            lemma_entry_le_sum(s, q as int);
        }
        let e = WorkStats { day: d, length: days[q].length + m };
        let ghost before = days@;
        days[q] = e;
        assert(stats_views(days@) =~= s.subrange(0, q as int) + add_minutes(cur, d, m as int));
        assert forall|j: int| 0 <= j < days@.len() implies (#[trigger] days@[j]).day.wf() by {
            if j != q {
                assert(days@[j] == before[j]);
            }
        }
    } else {
        if q < days.len() {
            assert(cur[0] == s[q as int]);
        } else {
            assert(cur =~= Seq::<(CalendarDay, int)>::empty());
        }
        let ghost before = days@;
        days.insert(q, WorkStats { day: d, length: m });
        assert(stats_views(days@) =~= s.subrange(0, q as int) + add_minutes(cur, d, m as int));
        assert forall|j: int| 0 <= j < days@.len() implies (#[trigger] days@[j]).day.wf() by {
            if j < q {
                assert(days@[j] == before[j]);
            } else if j > q {
                assert(days@[j] == before[j - 1]);
            }
        }
    }
}

/// An ISO 8601 week: its week-numbering year and its number.
#[derive(Debug, Clone, Copy, PartialEq, Eq, Hash, Structural)]
pub struct WeekId {
    pub year: i32,
    pub week: u32,
}

impl WeekId {
    pub open spec fn key(self) -> (int, int) {
        (self.year as int, self.week as int)
    }
}

pub open spec fn week_key(d: CalendarDay) -> (int, int) {
    iso_week_of(d.year as int, d.month as int, d.day as int)
}

pub open spec fn key_before(a: (int, int), b: (int, int)) -> bool {
    a.0 < b.0 || (a.0 == b.0 && a.1 < b.1)
}

/// The minutes of one ISO week and of each worked day in it.
#[derive(Debug)]
pub struct WorkStatsByWeek {
    pub week: WeekId,
    pub total_duration_in_minutes: u64,
    pub work_stats: Vec<WorkStats>,
}

/// A week as (key, total minutes, days).
pub type WeekView = ((int, int), int, Seq<(CalendarDay, int)>);

impl View for WorkStatsByWeek {
    type V = WeekView;

    open spec fn view(&self) -> WeekView {
        (self.week.key(), self.total_duration_in_minutes as int, stats_views(self.work_stats@))
    }
}

pub open spec fn week_views(s: Seq<WorkStatsByWeek>) -> Seq<WeekView> {
    s.map_values(|w: WorkStatsByWeek| w@)
}

/// Adds a worked day to a list of weeks ordered by key, opening its week if needed.
pub open spec fn add_day_to_weeks(ws: Seq<WeekView>, e: (CalendarDay, int)) -> Seq<WeekView>
    decreases ws.len(),
{
    let k = week_key(e.0);
    if ws.len() == 0 {
        seq![(k, e.1, seq![e])]
    } else if ws[0].0 == k {
        seq![(k, ws[0].1 + e.1, ws[0].2.push(e))] + ws.drop_first()
    } else if key_before(ws[0].0, k) {
        seq![ws[0]] + add_day_to_weeks(ws.drop_first(), e)
    } else {
        seq![(k, e.1, seq![e])] + ws
    }
}

/// Worked days grouped into weeks ordered by key; each week keeps its days in their order.
pub open spec fn group_weeks(days: Seq<(CalendarDay, int)>) -> Seq<WeekView>
    decreases days.len(),
{
    if days.len() == 0 {
        Seq::empty()
    } else {
        add_day_to_weeks(group_weeks(days.drop_last()), days.last())
    }
}

pub open spec fn sum_week_totals(ws: Seq<WeekView>) -> int
    decreases ws.len(),
{
    if ws.len() == 0 {
        0
    } else {
        ws[0].1 + sum_week_totals(ws.drop_first())
    }
}

pub open spec fn weeks_nonneg(ws: Seq<WeekView>) -> bool {
    forall|i: int| 0 <= i < ws.len() ==> (#[trigger] ws[i]).1 >= 0
}

pub(crate) proof fn lemma_add_day_to_weeks(ws: Seq<WeekView>, e: (CalendarDay, int))
    requires
        weeks_nonneg(ws),
        e.1 >= 0,
    ensures
        sum_week_totals(add_day_to_weeks(ws, e)) == sum_week_totals(ws) + e.1,
        weeks_nonneg(add_day_to_weeks(ws, e)),
    decreases ws.len(),
{
    let r = add_day_to_weeks(ws, e);
    let k = week_key(e.0);
    assert(r.len() > 0);
    assert(sum_week_totals(r) == r[0].1 + sum_week_totals(r.drop_first()));
    if ws.len() == 0 {
        assert(r[0] == (k, e.1, seq![e]));
        assert(r.drop_first() =~= Seq::<WeekView>::empty());
    } else if ws[0].0 == k {
        assert(r[0].1 == ws[0].1 + e.1);
        assert(r.drop_first() =~= ws.drop_first());
        assert forall|i: int| 0 <= i < r.len() implies (#[trigger] r[i]).1 >= 0 by {
            if i > 0 {
                assert(r[i] == ws[i]);
            }
        }
    } else if key_before(ws[0].0, k) {
        lemma_add_day_to_weeks(ws.drop_first(), e);
        assert(r[0] == ws[0]);
        assert(r.drop_first() =~= add_day_to_weeks(ws.drop_first(), e));
        assert forall|i: int| 0 <= i < r.len() implies (#[trigger] r[i]).1 >= 0 by {
            if i > 0 {
                assert(r[i] == add_day_to_weeks(ws.drop_first(), e)[i - 1]);
            }
        }
    } else {
        assert(r[0] == (k, e.1, seq![e]));
        assert(r.drop_first() =~= ws);
        assert forall|i: int| 0 <= i < r.len() implies (#[trigger] r[i]).1 >= 0 by {
            if i > 0 {
                assert(r[i] == ws[i - 1]);
            }
        }
    }
}

proof fn lemma_week_le_sum(ws: Seq<WeekView>, i: int)
    requires
        weeks_nonneg(ws),
        0 <= i < ws.len(),
    ensures
        ws[i].1 <= sum_week_totals(ws),
    decreases ws.len(),
{
    lemma_week_sum_nonneg(ws.drop_first());
    if i > 0 {
        lemma_week_le_sum(ws.drop_first(), i - 1);
    }
}

proof fn lemma_week_sum_nonneg(ws: Seq<WeekView>)
    requires
        weeks_nonneg(ws),
    ensures
        sum_week_totals(ws) >= 0,
    decreases ws.len(),
{
    if ws.len() > 0 {
        lemma_week_sum_nonneg(ws.drop_first());
    }
}

/// Every day listed in the weeks is a real day.
pub open spec fn weeks_days_wf(ws: Seq<WeekView>) -> bool {
    forall|i: int, j: int|
        0 <= i < ws.len() && 0 <= j < ws[i].2.len() ==> (#[trigger] ws[i].2[j]).0.wf()
}

pub(crate) fn key_is_before(a: &WeekId, b: &WeekId) -> (r: bool)
    ensures
        r == key_before(a.key(), b.key()),
{
    a.year < b.year || (a.year == b.year && a.week < b.week)
}

fn add_day_to_weeks_exec(weeks: &mut Vec<WorkStatsByWeek>, e: WorkStats)
    requires
        e.day.wf(),
        sum_week_totals(week_views(old(weeks)@)) + e.length <= MAX_TOTAL_MINUTES,
        weeks_nonneg(week_views(old(weeks)@)),
        weeks_days_wf(week_views(old(weeks)@)),
    ensures
        week_views(final(weeks)@) == add_day_to_weeks(week_views(old(weeks)@), (e.day, e.length as int)),
        weeks_days_wf(week_views(final(weeks)@)),
{
    let ghost s = week_views(weeks@);
    let ghost ev = (e.day, e.length as int);
    let (y, n) = iso_week(&e.day);
    let k = WeekId { year: y, week: n };
    assert(k.key() == week_key(e.day));
    let mut q: usize = 0;
    let mut found = false;
    assert(s.subrange(0, s.len() as int) == s);
    assert(s.subrange(0, 0) + add_day_to_weeks(s.subrange(0, s.len() as int), ev) =~= add_day_to_weeks(
        s,
        ev,
    ));
    while q < weeks.len() && !found
        invariant
            q <= weeks@.len(),
            s == week_views(weeks@),
            k.key() == week_key(ev.0),
            found ==> q < weeks@.len() && (weeks@[q as int].week.key() == k.key() || !key_before(
                weeks@[q as int].week.key(),
                k.key(),
            )),
            add_day_to_weeks(s, ev) == s.subrange(0, q as int) + add_day_to_weeks(
                s.subrange(q as int, s.len() as int),
                ev,
            ),
        decreases weeks@.len() - q + (if found { 0int } else { 1int }),
    {
        if weeks[q].week != k && key_is_before(&weeks[q].week, &k) {
            let ghost cur = s.subrange(q as int, s.len() as int);
            assert(cur[0] == s[q as int]);
            assert(cur.drop_first() == s.subrange(q + 1, s.len() as int));
            assert(s.subrange(0, q as int) + (seq![s[q as int]] + add_day_to_weeks(
                s.subrange(q + 1, s.len() as int),
                ev,
            )) =~= s.subrange(0, q + 1) + add_day_to_weeks(s.subrange(q + 1, s.len() as int), ev));
            q = q + 1;
        } else {
            found = true;
        }
    }
    let ghost cur = s.subrange(q as int, s.len() as int);
    if q < weeks.len() && weeks[q].week == k {
        assert(cur[0] == s[q as int]);
        assert(cur.drop_first() == s.subrange(q + 1, s.len() as int));
        proof {
            lemma_week_le_sum(s, q as int);
        }
        let mut w = weeks.remove(q);
        assert(w@ == s[q as int]);
        let ghost old_days = stats_views(w.work_stats@);
        w.work_stats.push(e);
        w.total_duration_in_minutes = w.total_duration_in_minutes + e.length;
        assert(stats_views(w.work_stats@) =~= old_days.push(ev));
        weeks.insert(q, w);
        assert(week_views(weeks@) =~= s.subrange(0, q as int) + add_day_to_weeks(cur, ev));
        assert(week_views(weeks@) == s.update(q as int, week_views(weeks@)[q as int]));
        assert(week_views(weeks@)[q as int].2 == s[q as int].2.push(ev));
    } else {
        if q < weeks.len() {
            assert(cur[0] == s[q as int]);
        } else {
            assert(cur =~= Seq::<WeekView>::empty());
        }
        let mut days: Vec<WorkStats> = Vec::new();
        days.push(e);
        assert(stats_views(days@) =~= seq![ev]);
        weeks.insert(q, WorkStatsByWeek { week: k, total_duration_in_minutes: e.length, work_stats: days });
        assert(week_views(weeks@) =~= s.subrange(0, q as int) + add_day_to_weeks(cur, ev));
        assert(week_views(weeks@) == s.insert(q as int, (k.key(), e.length as int, seq![ev])));
    }
}

/// The minutes worked over a period: in total, per ISO week and per day.
#[derive(Debug)]
pub struct PeriodWorkStats {
    pub total_duration_in_minutes: u64,
    pub total_work_days: usize,
    /// Ordered by week when built by `compute_work_stats` (see `lemma_weeks_shape`).
    pub work_stats_by_week: Vec<WorkStatsByWeek>,
}

proof fn lemma_prefix_sum_le(ss: Seq<(CalendarDay, int)>, i: int)
    requires
        0 <= i <= ss.len(),
        all_nonneg(ss),
    ensures
        sum_minutes(ss.subrange(0, i)) <= sum_minutes(ss),
    decreases ss.len() - i,
{
    if i < ss.len() {
        lemma_prefix_sum_le(ss, i + 1);
        assert(ss.subrange(0, i + 1).drop_last() == ss.subrange(0, i));
    } else {
        assert(ss.subrange(0, i) == ss);
    }
}

fn sessions_of(annotations: &Vec<Annotation>) -> (r: Vec<Session>)
    requires
        all_wf(annotations@),
    ensures
        session_views(r@) == work_sessions(views(annotations@)),
        sum_minutes(session_views(r@)) <= MAX_TOTAL_MINUTES,
        forall|i: int| 0 <= i < r@.len() ==> (#[trigger] r@[i]).day.wf(),
{
    let sorted = sort_annotations_by_time(annotations);
    pair_sessions(&sorted)
}

/// The minutes of all completed work sessions.
pub fn compute_work_time(annotations: &Vec<Annotation>) -> (r: u64)
    requires
        all_wf(annotations@),
    ensures
        r == sum_minutes(work_sessions(views(annotations@))),
{
    let sessions = sessions_of(annotations);
    let ghost ss = session_views(sessions@);
    let mut total: u64 = 0;
    let mut i: usize = 0;
    while i < sessions.len()
        invariant
            i <= sessions@.len(),
            ss == session_views(sessions@),
            sum_minutes(ss) <= MAX_TOTAL_MINUTES,
            total == sum_minutes(ss.subrange(0, i as int)),
        decreases sessions@.len() - i,
    {
        proof {
            lemma_prefix_sum_le(ss, i + 1);
            assert(ss.subrange(0, i + 1).drop_last() == ss.subrange(0, i as int));
        }
        total = total + sessions[i].minutes;
        i = i + 1;
    }
    assert(ss.subrange(0, ss.len() as int) == ss);
    total
}

/// Aggregates the work sessions of a period: minutes per worked day, per ISO week and in
/// total, and the number of worked days.
pub fn compute_work_stats(annotations: &Vec<Annotation>) -> (r: PeriodWorkStats)
    requires
        all_wf(annotations@),
    ensures
        r.total_duration_in_minutes == sum_minutes(work_sessions(views(annotations@))),
        r.total_work_days == day_totals(work_sessions(views(annotations@))).len(),
        week_views(r.work_stats_by_week@) == group_weeks(
            day_totals(work_sessions(views(annotations@))),
        ),
        weeks_days_wf(week_views(r.work_stats_by_week@)),
{
    let sessions = sessions_of(annotations);
    let ghost ss = session_views(sessions@);
    let mut days: Vec<WorkStats> = Vec::new();
    let mut total: u64 = 0;
    let mut i: usize = 0;
    while i < sessions.len()
        invariant
            i <= sessions@.len(),
            ss == session_views(sessions@),
            sum_minutes(ss) <= MAX_TOTAL_MINUTES,
            forall|j: int| 0 <= j < sessions@.len() ==> (#[trigger] sessions@[j]).day.wf(),
            total == sum_minutes(ss.subrange(0, i as int)),
            stats_views(days@) == day_totals(ss.subrange(0, i as int)),
            sum_pairs(stats_views(days@)) == total,
            all_nonneg(stats_views(days@)),
            forall|j: int| 0 <= j < days@.len() ==> (#[trigger] days@[j]).day.wf(),
        decreases sessions@.len() - i,
    {
        let x = sessions[i];
        proof {
            lemma_prefix_sum_le(ss, i + 1);
            assert(ss.subrange(0, i + 1).drop_last() == ss.subrange(0, i as int));
            assert(ss.subrange(0, i + 1).last() == (x.day, x.minutes as int));
            lemma_add_minutes(stats_views(days@), x.day, x.minutes as int);
        }
        assert(sessions@[i as int].day.wf());
        add_minutes_exec(&mut days, x.day, x.minutes);
        total = total + x.minutes;
        i = i + 1;
    }
    assert(ss.subrange(0, ss.len() as int) == ss);
    let ghost dv = stats_views(days@);
    let mut weeks: Vec<WorkStatsByWeek> = Vec::new();
    let mut j: usize = 0;
    assert(dv.subrange(0, dv.len() as int) == dv);
    assert(week_views(weeks@) =~= Seq::<WeekView>::empty());
    while j < days.len()
        invariant
            j <= days@.len(),
            dv == stats_views(days@),
            all_nonneg(dv),
            sum_pairs(dv) <= MAX_TOTAL_MINUTES,
            forall|k: int| 0 <= k < days@.len() ==> (#[trigger] days@[k]).day.wf(),
            week_views(weeks@) == group_weeks(dv.subrange(0, j as int)),
            weeks_days_wf(week_views(weeks@)),
            sum_week_totals(week_views(weeks@)) + sum_pairs(dv.subrange(j as int, dv.len() as int))
                == sum_pairs(dv),
        decreases days@.len() - j,
    {
        let e = days[j];
        let ghost cur = dv.subrange(j as int, dv.len() as int);
        proof {
            assert(cur[0] == (e.day, e.length as int));
            assert(cur.drop_first() == dv.subrange(j + 1, dv.len() as int));
            assert(all_nonneg(cur.drop_first())) by {
                assert forall|k: int| 0 <= k < cur.drop_first().len() implies (#[trigger] cur.drop_first()[k]).1
                    >= 0 by {
                    assert(cur.drop_first()[k] == dv[j + 1 + k]);
                }
            }
            lemma_sum_nonneg(cur.drop_first());
            assert(dv.subrange(0, j + 1).drop_last() == dv.subrange(0, j as int));
            assert(dv.subrange(0, j + 1).last() == (e.day, e.length as int));
            assert(weeks_nonneg(week_views(weeks@))) by {
                assert forall|k: int| 0 <= k < week_views(weeks@).len() implies (#[trigger] week_views(
                    weeks@,
                )[k]).1 >= 0 by {
                    assert(week_views(weeks@)[k] == weeks@[k]@);
                }
            }
            lemma_add_day_to_weeks(week_views(weeks@), (e.day, e.length as int));
        }
        assert(days@[j as int].day.wf());
        add_day_to_weeks_exec(&mut weeks, e);
        j = j + 1;
    }
    assert(dv.subrange(0, dv.len() as int) == dv);
    PeriodWorkStats {
        total_duration_in_minutes: total,
        total_work_days: days.len(),
        work_stats_by_week: weeks,
    }
}

} // verus!
