use crate::annotation::AnnotationView;
use crate::timestamp::{elapsed_minutes, CalendarDay};
use crate::events::NotEvent;
use crate::work::{
    add_day_to_weeks, add_minutes, all_nonneg, day_before, day_totals, group_weeks,
    insert_by_time, key_before, sessions_from, sort_by_time, sum_minutes, sum_pairs,
    sum_week_totals, week_key, weeks_nonneg, work_sessions, WeekView,
};
use vstd::prelude::*;

verus! {

proof fn lemma_sessions_nonneg(s: Seq<AnnotationView>, open: Option<AnnotationView>)
    ensures
        all_nonneg(sessions_from(s, open)),
    decreases s.len(),
{
    if s.len() > 0 {
        let rest = s.drop_first();
        lemma_sessions_nonneg(rest, None);
        lemma_sessions_nonneg(rest, Some(s[0]));
        lemma_sessions_nonneg(rest, open);
        match open {
            Some(st) => {
                let x = (crate::work::session_day(st), elapsed_minutes(st.datetime, s[0].datetime));
                let tail = sessions_from(rest, None);
                assert(x.1 >= 0);
                assert forall|i: int| 0 <= i < (seq![x] + tail).len() implies (#[trigger] (seq![x]
                    + tail)[i]).1 >= 0 by {
                    if i > 0 {
                        assert((seq![x] + tail)[i] == tail[i - 1]);
                    }
                }
            },
            None => {},
        }
    }
}

proof fn lemma_sum_pairs_push(d: Seq<(CalendarDay, int)>, e: (CalendarDay, int))
    ensures
        sum_pairs(d.push(e)) == sum_pairs(d) + e.1,
    decreases d.len(),
{
    if d.len() == 0 {
        assert(d.push(e)[0] == e);
        assert(d.push(e).drop_first() =~= Seq::<(CalendarDay, int)>::empty());
        assert(sum_pairs(Seq::<(CalendarDay, int)>::empty()) == 0);
    } else {
        lemma_sum_pairs_push(d.drop_first(), e);
        assert(d.push(e)[0] == d[0]);
        assert(d.push(e).drop_first() =~= d.drop_first().push(e));
    }
}

proof fn lemma_day_totals_sum(ss: Seq<(CalendarDay, int)>)
    requires
        all_nonneg(ss),
    ensures
        sum_pairs(day_totals(ss)) == sum_minutes(ss),
        all_nonneg(day_totals(ss)),
    decreases ss.len(),
{
    if ss.len() > 0 {
        assert(all_nonneg(ss.drop_last())) by {
            assert forall|i: int| 0 <= i < ss.drop_last().len() implies (#[trigger] ss.drop_last()[i]).1
                >= 0 by {
                assert(ss.drop_last()[i] == ss[i]);
            }
        }
        lemma_day_totals_sum(ss.drop_last());
        assert(ss.last() == ss[ss.len() - 1]);
        crate::work::lemma_add_minutes(day_totals(ss.drop_last()), ss.last().0, ss.last().1);
    }
}

proof fn lemma_group_weeks_sum(d: Seq<(CalendarDay, int)>)
    requires
        all_nonneg(d),
    ensures
        sum_week_totals(group_weeks(d)) == sum_pairs(d),
        weeks_nonneg(group_weeks(d)),
    decreases d.len(),
{
    if d.len() > 0 {
        let init = d.drop_last();
        assert(all_nonneg(init)) by {
            assert forall|i: int| 0 <= i < init.len() implies (#[trigger] init[i]).1 >= 0 by {
                assert(init[i] == d[i]);
            }
        }
        lemma_group_weeks_sum(init);
        assert(d.last() == d[d.len() - 1]);
        crate::work::lemma_add_day_to_weeks(group_weeks(init), d.last());
        lemma_sum_pairs_push(init, d.last());
        assert(init.push(d.last()) =~= d);
    }
}

/// The minutes of a period are the sum of the minutes of its weeks.
pub proof fn lemma_weeks_sum_to_total(annotations: Seq<AnnotationView>)
    ensures
        sum_week_totals(group_weeks(day_totals(work_sessions(annotations)))) == sum_minutes(
            work_sessions(annotations),
        ),
{
    let ss = work_sessions(annotations);
    lemma_sessions_nonneg(crate::work::sort_by_time(annotations), None);
    lemma_day_totals_sum(ss);
    lemma_group_weeks_sum(day_totals(ss));
}

/// The minutes of the sessions that count for day `d`.
pub open spec fn day_minutes(ss: Seq<(CalendarDay, int)>, d: CalendarDay) -> int
    decreases ss.len(),
{
    if ss.len() == 0 {
        0
    } else {
        day_minutes(ss.drop_last(), d) + if ss.last().0 == d {
            ss.last().1
        } else {
            0
        }
    }
}

pub open spec fn has_day(days: Seq<(CalendarDay, int)>, x: CalendarDay) -> bool {
    exists|i: int| 0 <= i < days.len() && (#[trigger] days[i]).0 == x
}

pub open spec fn strictly_ordered(days: Seq<(CalendarDay, int)>) -> bool {
    forall|i: int, j: int| 0 <= i < j < days.len() ==> day_before(days[i].0, days[j].0)
}

/// The minutes listed for day `x`: those of its first entry, or 0.
pub open spec fn minutes_for(days: Seq<(CalendarDay, int)>, x: CalendarDay) -> int
    decreases days.len(),
{
    if days.len() == 0 {
        0
    } else if days[0].0 == x {
        days[0].1
    } else {
        minutes_for(days.drop_first(), x)
    }
}

proof fn lemma_day_before_trans(a: CalendarDay, b: CalendarDay, c: CalendarDay)
    requires
        day_before(a, b),
        day_before(b, c),
    ensures
        day_before(a, c),
{
}

proof fn lemma_add_minutes_shape(days: Seq<(CalendarDay, int)>, d: CalendarDay, m: int)
    requires
        strictly_ordered(days),
    ensures
        strictly_ordered(add_minutes(days, d, m)),
        forall|x: CalendarDay|
            #[trigger] has_day(add_minutes(days, d, m), x) <==> (x == d || has_day(days, x)),
        forall|x: CalendarDay|
            #[trigger] minutes_for(add_minutes(days, d, m), x) == minutes_for(days, x) + if x == d {
                m
            } else {
                0
            },
    decreases days.len(),
{
    let r = add_minutes(days, d, m);
    if days.len() == 0 {
        assert(r[0] == (d, m));
        assert forall|x: CalendarDay| has_day(r, x) <==> (x == d || has_day(days, x)) by {
            if x == d {
                assert(r[0].0 == x);
            }
        }
        assert forall|x: CalendarDay| minutes_for(r, x) == minutes_for(days, x) + if x == d {
            m
        } else {
            0
        } by {
            assert(r.drop_first() =~= Seq::<(CalendarDay, int)>::empty());
            assert(minutes_for(r.drop_first(), x) == 0);
            assert(minutes_for(days, x) == 0);
        }
    } else if days[0].0 == d {
        let t = days.drop_first();
        assert(r[0] == (d, days[0].1 + m));
        assert(r.drop_first() =~= t);
        assert forall|x: CalendarDay| #[trigger] minutes_for(r, x) == minutes_for(days, x) + if x
            == d {
            m
        } else {
            0
        } by {
            if x != d {
                assert(minutes_for(r, x) == minutes_for(t, x));
            }
        }
        assert forall|i: int, j: int| 0 <= i < j < r.len() implies day_before(r[i].0, r[j].0) by {
            assert(r[j] == days[j]);
            if i > 0 {
                assert(r[i] == days[i]);
            }
        }
        assert forall|x: CalendarDay| has_day(r, x) <==> (x == d || has_day(days, x)) by {
            if has_day(days, x) {
                let i = choose|i: int| 0 <= i < days.len() && (#[trigger] days[i]).0 == x;
                if i > 0 {
                    assert(r[i] == days[i]);
                } else {
                    assert(r[0].0 == x);
                }
            }
            if has_day(r, x) {
                let i = choose|i: int| 0 <= i < r.len() && (#[trigger] r[i]).0 == x;
                if i > 0 {
                    assert(r[i] == days[i]);
                }
            }
            if x == d {
                assert(r[0].0 == x);
            }
        }
    } else if day_before(days[0].0, d) {
        let t = days.drop_first();
        assert(strictly_ordered(t)) by {
            assert forall|i: int, j: int| 0 <= i < j < t.len() implies day_before(t[i].0, t[j].0) by {
                assert(t[i] == days[i + 1] && t[j] == days[j + 1]);
            }
        }
        lemma_add_minutes_shape(t, d, m);
        let rt = add_minutes(t, d, m);
        assert(r.drop_first() =~= rt);
        assert(r[0] == days[0]);
        assert forall|x: CalendarDay| #[trigger] minutes_for(r, x) == minutes_for(days, x) + if x
            == d {
            m
        } else {
            0
        } by {
            if x != days[0].0 {
                assert(minutes_for(r, x) == minutes_for(rt, x));
                assert(minutes_for(days, x) == minutes_for(t, x));
            } else {
                assert(x != d);
            }
        }
        assert forall|x: CalendarDay| has_day(rt, x) implies day_before(days[0].0, x) by {
            if has_day(rt, x) && x != d {
                assert(has_day(t, x));
                let i = choose|i: int| 0 <= i < t.len() && (#[trigger] t[i]).0 == x;
                assert(t[i] == days[i + 1]);
            }
        }
        assert forall|i: int, j: int| 0 <= i < j < r.len() implies day_before(r[i].0, r[j].0) by {
            assert(r[j] == rt[j - 1]);
            if i > 0 {
                assert(r[i] == rt[i - 1]);
            } else {
                assert(has_day(rt, rt[j - 1].0));
            }
        }
        assert forall|x: CalendarDay| has_day(r, x) <==> (x == d || has_day(days, x)) by {
            if has_day(days, x) {
                let i = choose|i: int| 0 <= i < days.len() && (#[trigger] days[i]).0 == x;
                if i > 0 {
                    assert(t[i - 1] == days[i]);
                    assert(has_day(t, x));
                    assert(has_day(rt, x));
                    let k = choose|k: int| 0 <= k < rt.len() && (#[trigger] rt[k]).0 == x;
                    assert(r[k + 1] == rt[k]);
                } else {
                    assert(r[0].0 == x);
                }
            }
            if x == d {
                assert(has_day(rt, x));
                let k = choose|k: int| 0 <= k < rt.len() && (#[trigger] rt[k]).0 == x;
                assert(r[k + 1] == rt[k]);
            }
            if has_day(r, x) {
                let i = choose|i: int| 0 <= i < r.len() && (#[trigger] r[i]).0 == x;
                if i > 0 {
                    assert(r[i] == rt[i - 1]);
                    assert(rt[i - 1].0 == x);
                    assert(has_day(rt, x));
                    if x != d {
                        assert(has_day(t, x));
                        let k = choose|k: int| 0 <= k < t.len() && (#[trigger] t[k]).0 == x;
                        assert(days[k + 1] == t[k]);
                    }
                } else {
                    assert(days[0].0 == x);
                }
            }
        }
    } else {
        assert(r[0] == (d, m));
        assert(r.drop_first() =~= days);
        assert(day_before(d, days[0].0));
        assert forall|i: int, j: int| 0 <= i < j < r.len() implies day_before(r[i].0, r[j].0) by {
            assert(r[j] == days[j - 1]);
            if i > 0 {
                assert(r[i] == days[i - 1]);
            } else if j > 1 {
                lemma_day_before_trans(d, days[0].0, days[j - 1].0);
            }
        }
        assert forall|x: CalendarDay| has_day(r, x) <==> (x == d || has_day(days, x)) by {
            if has_day(days, x) {
                let i = choose|i: int| 0 <= i < days.len() && (#[trigger] days[i]).0 == x;
                assert(r[i + 1] == days[i]);
            }
            if has_day(r, x) {
                let i = choose|i: int| 0 <= i < r.len() && (#[trigger] r[i]).0 == x;
                if i > 0 {
                    assert(r[i] == days[i - 1]);
                }
            }
            if x == d {
                assert(r[0].0 == x);
            }
        }
        assert forall|x: CalendarDay| minutes_for(r, x) == minutes_for(days, x) + if x == d {
            m
        } else {
            0
        } by {
            lemma_minutes_for_absent(days, d);
        }
    }
}

/// A day before every listed day has no minutes listed.
proof fn lemma_minutes_for_absent(days: Seq<(CalendarDay, int)>, d: CalendarDay)
    requires
        strictly_ordered(days),
        days.len() > 0 ==> day_before(d, days[0].0),
    ensures
        minutes_for(days, d) == 0,
    decreases days.len(),
{
    if days.len() > 0 {
        let t = days.drop_first();
        if t.len() > 0 {
            assert(t[0] == days[1]);
            lemma_day_before_trans(d, days[0].0, days[1].0);
        }
        assert(strictly_ordered(t)) by {
            assert forall|i: int, j: int| 0 <= i < j < t.len() implies day_before(t[i].0, t[j].0) by {
                assert(t[i] == days[i + 1] && t[j] == days[j + 1]);
            }
        }
        lemma_minutes_for_absent(t, d);
    }
}

pub open spec fn has_session_on(ss: Seq<(CalendarDay, int)>, x: CalendarDay) -> bool {
    exists|j: int| 0 <= j < ss.len() && (#[trigger] ss[j]).0 == x
}

proof fn lemma_day_totals_shape(ss: Seq<(CalendarDay, int)>)
    ensures
        strictly_ordered(day_totals(ss)),
        forall|x: CalendarDay| #[trigger] has_day(day_totals(ss), x) <==> has_session_on(ss, x),
        forall|x: CalendarDay| #[trigger] minutes_for(day_totals(ss), x) == day_minutes(ss, x),
    decreases ss.len(),
{
    if ss.len() > 0 {
        let init = ss.drop_last();
        let e = ss.last();
        lemma_day_totals_shape(init);
        lemma_add_minutes_shape(day_totals(init), e.0, e.1);
        assert forall|x: CalendarDay| #[trigger] has_session_on(ss, x) <==> (x == e.0
            || has_session_on(init, x)) by {
            if has_session_on(ss, x) {
                let j = choose|j: int| 0 <= j < ss.len() && (#[trigger] ss[j]).0 == x;
                if j < ss.len() - 1 {
                    assert(init[j] == ss[j]);
                }
            }
            if has_session_on(init, x) {
                let j = choose|j: int| 0 <= j < init.len() && (#[trigger] init[j]).0 == x;
                assert(init[j] == ss[j]);
            }
            if x == e.0 {
                assert(ss[ss.len() - 1].0 == x);
            }
        }
        assert forall|x: CalendarDay| #[trigger] has_day(day_totals(ss), x) <==> has_session_on(
            ss,
            x,
        ) by {
            assert(has_day(day_totals(init), x) <==> has_session_on(init, x));
        }
        assert forall|x: CalendarDay| #[trigger] minutes_for(day_totals(ss), x) == day_minutes(
            ss,
            x,
        ) by {
            assert(minutes_for(day_totals(init), x) == day_minutes(init, x));
        }
    }
}

proof fn lemma_minutes_for_entry(days: Seq<(CalendarDay, int)>, i: int)
    requires
        strictly_ordered(days),
        0 <= i < days.len(),
    ensures
        minutes_for(days, days[i].0) == days[i].1,
    decreases i,
{
    if i > 0 {
        let t = days.drop_first();
        assert(day_before(days[0].0, days[i].0));
        assert(strictly_ordered(t)) by {
            assert forall|a: int, b: int| 0 <= a < b < t.len() implies day_before(t[a].0, t[b].0) by {
                assert(t[a] == days[a + 1] && t[b] == days[b + 1]);
            }
        }
        assert(t[i - 1] == days[i]);
        lemma_minutes_for_entry(t, i - 1);
    }
}

/// The worked days of a period: each day appears once, in calendar order, with the minutes of
/// the sessions that count for it, and a day appears exactly when some session counts for it;
/// so their number is the number of distinct days of the sessions.
pub proof fn lemma_day_totals(annotations: Seq<AnnotationView>)
    ensures
        forall|i: int, j: int|
            0 <= i < j < day_totals(work_sessions(annotations)).len() ==> day_before(
                day_totals(work_sessions(annotations))[i].0,
                day_totals(work_sessions(annotations))[j].0,
            ),
        forall|i: int|
            0 <= i < day_totals(work_sessions(annotations)).len() ==> (#[trigger] day_totals(
                work_sessions(annotations),
            )[i]).1 == day_minutes(
                work_sessions(annotations),
                day_totals(work_sessions(annotations))[i].0,
            ),
        forall|x: CalendarDay|
            #[trigger] has_day(day_totals(work_sessions(annotations)), x) <==> has_session_on(
                work_sessions(annotations),
                x,
            ),
        day_totals(work_sessions(annotations)).len() == work_sessions(annotations).map_values(
            |e: (CalendarDay, int)| e.0,
        ).to_set().len(),
{
    let ss = work_sessions(annotations);
    let d = day_totals(ss);
    lemma_day_totals_shape(ss);
    assert forall|i: int| 0 <= i < d.len() implies (#[trigger] d[i]).1 == day_minutes(ss, d[i].0) by {
        lemma_minutes_for_entry(d, i);
    }
    let ds = d.map_values(|e: (CalendarDay, int)| e.0);
    let sd = ss.map_values(|e: (CalendarDay, int)| e.0);
    assert(ds.no_duplicates()) by {
        assert forall|i: int, j: int| 0 <= i < ds.len() && 0 <= j < ds.len() && i != j implies ds[i]
            != ds[j] by {
            if i < j {
                assert(day_before(d[i].0, d[j].0));
            } else {
                assert(day_before(d[j].0, d[i].0));
            }
        }
    }
    ds.unique_seq_to_set();
    assert(ds.to_set() =~= sd.to_set()) by {
        assert forall|x: CalendarDay| ds.to_set().contains(x) <==> sd.to_set().contains(x) by {
            if ds.to_set().contains(x) {
                let i = choose|i: int| 0 <= i < ds.len() && ds[i] == x;
                assert(d[i].0 == x);
                assert(has_day(d, x));
                let j = choose|j: int| 0 <= j < ss.len() && (#[trigger] ss[j]).0 == x;
                assert(sd[j] == x);
            }
            if sd.to_set().contains(x) {
                let j = choose|j: int| 0 <= j < sd.len() && sd[j] == x;
                assert(ss[j].0 == x);
                assert(has_session_on(ss, x));
                assert(has_day(d, x));
                let i = choose|i: int| 0 <= i < d.len() && (#[trigger] d[i]).0 == x;
                assert(ds[i] == x);
            }
        }
    }
}

/// The weeks are ordered by key and none is empty; each holds days of its own key, in
/// calendar order, all listed in `days`, and its total is the sum of their minutes.
pub open spec fn weeks_shape(ws: Seq<WeekView>, days: Seq<(CalendarDay, int)>) -> bool {
    &&& forall|i: int, j: int| 0 <= i < j < ws.len() ==> key_before(ws[i].0, ws[j].0)
    &&& forall|i: int| 0 <= i < ws.len() ==> (#[trigger] ws[i]).2.len() > 0
    &&& forall|i: int| 0 <= i < ws.len() ==> (#[trigger] ws[i]).1 == sum_pairs(ws[i].2)
    &&& forall|i: int| 0 <= i < ws.len() ==> strictly_ordered((#[trigger] ws[i]).2)
    &&& forall|i: int, k: int|
        0 <= i < ws.len() && 0 <= k < ws[i].2.len() ==> week_key((#[trigger] ws[i].2[k]).0)
            == ws[i].0 && has_day(days, ws[i].2[k].0)
}

proof fn lemma_push_ordered(w: Seq<(CalendarDay, int)>, e: (CalendarDay, int))
    requires
        strictly_ordered(w),
        forall|k: int| 0 <= k < w.len() ==> day_before((#[trigger] w[k]).0, e.0),
    ensures
        strictly_ordered(w.push(e)),
{
    assert forall|a: int, b: int| 0 <= a < b < w.push(e).len() implies day_before(
        w.push(e)[a].0,
        w.push(e)[b].0,
    ) by {
        assert(w.push(e)[a] == w[a]);
        if b < w.len() {
            assert(w.push(e)[b] == w[b]);
        }
    }
}

proof fn lemma_add_day_shape(
    ws: Seq<WeekView>,
    e: (CalendarDay, int),
    days: Seq<(CalendarDay, int)>,
)
    requires
        weeks_shape(ws, days),
        forall|x: CalendarDay| has_day(days, x) ==> day_before(x, e.0),
    ensures
        weeks_shape(add_day_to_weeks(ws, e), days.push(e)),
        forall|i: int|
            0 <= i < add_day_to_weeks(ws, e).len() ==> (#[trigger] add_day_to_weeks(ws, e)[i]).0
                == week_key(e.0) || exists|j: int| 0 <= j < ws.len() && ws[j].0 == add_day_to_weeks(
                ws,
                e,
            )[i].0,
    decreases ws.len(),
{
    let k = week_key(e.0);
    let r = add_day_to_weeks(ws, e);
    let nd = days.push(e);
    assert(nd[days.len() as int] == e);
    assert forall|x: CalendarDay| has_day(days, x) implies has_day(nd, x) by {
        let i = choose|i: int| 0 <= i < days.len() && (#[trigger] days[i]).0 == x;
        assert(nd[i] == days[i]);
    }
    assert(has_day(nd, e.0));
    let single = seq![e];
    assert(strictly_ordered(single));
    assert(sum_pairs(single) == e.1 + sum_pairs(single.drop_first()));
    assert(single.drop_first() =~= Seq::<(CalendarDay, int)>::empty());
    if ws.len() == 0 {
        assert(r[0] == (k, e.1, single));
    } else if ws[0].0 == k {
        let w = ws[0].2;
        assert(r[0] == (k, ws[0].1 + e.1, w.push(e)));
        assert forall|a: int| 0 <= a < w.len() implies day_before((#[trigger] w[a]).0, e.0) by {
            assert(has_day(days, ws[0].2[a].0));
        }
        lemma_push_ordered(w, e);
        lemma_sum_pairs_push(w, e);
        assert forall|i: int| 0 < i < r.len() implies #[trigger] r[i] == ws[i] by {}
        assert forall|i: int, q: int|
            0 <= i < r.len() && 0 <= q < r[i].2.len() implies week_key((#[trigger] r[i].2[q]).0)
            == r[i].0 && has_day(nd, r[i].2[q].0) by {
            if i == 0 {
                if q < w.len() {
                    assert(r[0].2[q] == w[q]);
                    assert(has_day(days, ws[0].2[q].0));
                }
            } else {
                assert(has_day(days, ws[i].2[q].0));
            }
        }
    } else if key_before(ws[0].0, k) {
        let t = ws.drop_first();
        assert forall|i: int| 0 <= i < t.len() implies #[trigger] t[i] == ws[i + 1] by {}
        assert(weeks_shape(t, days)) by {
            assert forall|i: int, q: int|
                0 <= i < t.len() && 0 <= q < t[i].2.len() implies week_key(
                (#[trigger] t[i].2[q]).0,
            ) == t[i].0 && has_day(days, t[i].2[q].0) by {
                assert(ws[i + 1].2[q] == t[i].2[q]);
            }
        }
        lemma_add_day_shape(t, e, days);
        let rt = add_day_to_weeks(t, e);
        assert(r.drop_first() =~= rt);
        assert(r[0] == ws[0]);
        assert forall|i: int| 0 < i < r.len() implies #[trigger] r[i] == rt[i - 1] by {}
        assert forall|i: int, j: int| 0 <= i < j < r.len() implies key_before(r[i].0, r[j].0) by {
            if i == 0 {
                let rj = rt[j - 1];
                if rj.0 != k {
                    let jj = choose|jj: int| 0 <= jj < t.len() && t[jj].0 == rj.0;
                    assert(t[jj] == ws[jj + 1]);
                }
            }
        }
        assert forall|i: int, q: int|
            0 <= i < r.len() && 0 <= q < r[i].2.len() implies week_key((#[trigger] r[i].2[q]).0)
            == r[i].0 && has_day(nd, r[i].2[q].0) by {
            if i == 0 {
                assert(has_day(days, ws[0].2[q].0));
            } else {
                assert(rt[i - 1].2[q] == r[i].2[q]);
            }
        }
        assert forall|i: int|
            0 <= i < r.len() implies (#[trigger] r[i]).0 == k || exists|j: int|
            0 <= j < ws.len() && ws[j].0 == r[i].0 by {
            if i == 0 {
                assert(ws[0].0 == r[0].0);
            } else if rt[i - 1].0 != k {
                let jj = choose|jj: int| 0 <= jj < t.len() && t[jj].0 == rt[i - 1].0;
                assert(ws[jj + 1].0 == r[i].0);
            }
        }
    } else {
        assert(r[0] == (k, e.1, single));
        assert(r.drop_first() =~= ws);
        assert forall|i: int| 0 < i < r.len() implies #[trigger] r[i] == ws[i - 1] by {}
        assert forall|i: int, j: int| 0 <= i < j < r.len() implies key_before(r[i].0, r[j].0) by {
            if i == 0 && j > 1 {
                assert(key_before(ws[0].0, ws[j - 1].0));
            }
        }
        assert forall|i: int, q: int|
            0 <= i < r.len() && 0 <= q < r[i].2.len() implies week_key((#[trigger] r[i].2[q]).0)
            == r[i].0 && has_day(nd, r[i].2[q].0) by {
            if i > 0 {
                assert(has_day(days, ws[i - 1].2[q].0));
            }
        }
    }
}

proof fn lemma_group_weeks_shape(d: Seq<(CalendarDay, int)>)
    requires
        strictly_ordered(d),
    ensures
        weeks_shape(group_weeks(d), d),
    decreases d.len(),
{
    if d.len() > 0 {
        let init = d.drop_last();
        let e = d.last();
        assert(strictly_ordered(init)) by {
            assert forall|a: int, b: int| 0 <= a < b < init.len() implies day_before(
                init[a].0,
                init[b].0,
            ) by {
                assert(init[a] == d[a] && init[b] == d[b]);
            }
        }
        lemma_group_weeks_shape(init);
        assert forall|x: CalendarDay| has_day(init, x) implies day_before(x, e.0) by {
            let i = choose|i: int| 0 <= i < init.len() && (#[trigger] init[i]).0 == x;
            assert(init[i] == d[i]);
            assert(e == d[d.len() - 1]);
        }
        lemma_add_day_shape(group_weeks(init), e, init);
        assert(init.push(e) =~= d);
    } else {
        assert(group_weeks(d) =~= Seq::<WeekView>::empty());
    }
}

/// The weeks of a period are ordered by ISO week and none is empty; each lists, in calendar
/// order, worked days of that week only, and its total is the sum of their minutes.
pub proof fn lemma_weeks_shape(annotations: Seq<AnnotationView>)
    ensures
        weeks_shape(
            group_weeks(day_totals(work_sessions(annotations))),
            day_totals(work_sessions(annotations)),
        ),
{
    lemma_day_totals_shape(work_sessions(annotations));
    lemma_group_weeks_shape(day_totals(work_sessions(annotations)));
}

pub open spec fn has_no_stop(s: Seq<AnnotationView>) -> bool {
    forall|i: int| 0 <= i < s.len() ==> (#[trigger] s[i]).event != NotEvent::StopWork
}

proof fn lemma_insert_no_stop(t: Seq<AnnotationView>, a: AnnotationView)
    requires
        has_no_stop(t),
        a.event != NotEvent::StopWork,
    ensures
        has_no_stop(insert_by_time(t, a)),
    decreases t.len(),
{
    if t.len() > 0 && crate::work::instant_of(t.last()) > crate::work::instant_of(a) {
        let init = t.drop_last();
        assert(has_no_stop(init)) by {
            assert forall|i: int| 0 <= i < init.len() implies (#[trigger] init[i]).event
                != NotEvent::StopWork by {
                assert(init[i] == t[i]);
            }
        }
        lemma_insert_no_stop(init, a);
        let r = insert_by_time(init, a);
        assert(t.last() == t[t.len() - 1]);
        assert forall|i: int| 0 <= i < r.push(t.last()).len() implies (#[trigger] r.push(
            t.last(),
        )[i]).event != NotEvent::StopWork by {
            if i < r.len() {
                assert(r.push(t.last())[i] == r[i]);
            }
        }
    } else if t.len() > 0 {
        assert forall|i: int| 0 <= i < t.push(a).len() implies (#[trigger] t.push(a)[i]).event
            != NotEvent::StopWork by {
            if i < t.len() {
                assert(t.push(a)[i] == t[i]);
            }
        }
    } else {
        assert(insert_by_time(t, a)[0] == a);
    }
}

proof fn lemma_sort_no_stop(s: Seq<AnnotationView>)
    requires
        has_no_stop(s),
    ensures
        has_no_stop(sort_by_time(s)),
    decreases s.len(),
{
    if s.len() > 0 {
        let init = s.drop_last();
        assert(has_no_stop(init)) by {
            assert forall|i: int| 0 <= i < init.len() implies (#[trigger] init[i]).event
                != NotEvent::StopWork by {
                assert(init[i] == s[i]);
            }
        }
        lemma_sort_no_stop(init);
        assert(s.last() == s[s.len() - 1]);
        lemma_insert_no_stop(sort_by_time(init), s.last());
    }
}

proof fn lemma_sessions_need_a_stop(s: Seq<AnnotationView>, open: Option<AnnotationView>)
    requires
        has_no_stop(s),
    ensures
        sessions_from(s, open).len() == 0,
    decreases s.len(),
{
    if s.len() > 0 {
        let rest = s.drop_first();
        assert(has_no_stop(rest)) by {
            assert forall|i: int| 0 <= i < rest.len() implies (#[trigger] rest[i]).event
                != NotEvent::StopWork by {
                assert(rest[i] == s[i + 1]);
            }
        }
        assert(s[0].event != NotEvent::StopWork);
        lemma_sessions_need_a_stop(rest, Some(s[0]));
        lemma_sessions_need_a_stop(rest, open);
    }
}

/// A start that no stop follows completes no session: when no annotation is a stop, the
/// period has no minutes and no worked day.
pub proof fn lemma_no_stop_no_work(annotations: Seq<AnnotationView>)
    requires
        has_no_stop(annotations),
    ensures
        sum_minutes(work_sessions(annotations)) == 0,
        day_totals(work_sessions(annotations)).len() == 0,
{
    lemma_sort_no_stop(annotations);
    lemma_sessions_need_a_stop(sort_by_time(annotations), None);
    assert(work_sessions(annotations) =~= Seq::<(CalendarDay, int)>::empty());
}

} // verus!
