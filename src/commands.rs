use crate::events::NotEvent;
use vstd::prelude::*;

verus! {

/// The note an annotation is written to.
#[derive(Debug, Clone, Copy, PartialEq, Eq, Structural)]
pub enum NoteTarget {
    /// The note that holds the last work annotation.
    LastWorkNote,
    /// Today's note.
    CurrentNote,
}

/// An annotation to write: its timestamp (the time now when absent), event, note and work day.
#[derive(Debug)]
pub struct PlannedAnnotation {
    pub date: Option<String>,
    pub event: NotEvent,
    pub target: NoteTarget,
    pub workday: Option<String>,
}

pub type PlannedView = (Option<Seq<char>>, NotEvent, NoteTarget, Option<Seq<char>>);

pub open spec fn opt_view(o: Option<String>) -> Option<Seq<char>> {
    match o {
        Some(s) => Some(s@),
        None => None,
    }
}

pub open spec fn opt_str_view(o: Option<&str>) -> Option<Seq<char>> {
    match o {
        Some(s) => Some(s@),
        None => None,
    }
}

pub open spec fn planned_views(s: Seq<PlannedAnnotation>) -> Seq<PlannedView> {
    s.map_values(|p: PlannedAnnotation| (opt_view(p.date), p.event, p.target, opt_view(p.workday)))
}

/// What stopping work writes. When the last work annotation is a start, the session still
/// runs: it is stopped at the last instant of its work day in its own note, restarted at
/// midnight today in today's note, and stopped now for its work day. Otherwise work is
/// stopped now in today's note, for the requested day or else today.
pub open spec fn stop_work_plan(
    last_event: Option<NotEvent>,
    last_workday: Option<Seq<char>>,
    requested_day: Option<Seq<char>>,
    today: Seq<char>,
    offset: Seq<char>,
) -> Seq<PlannedView> {
    if last_event == Some(NotEvent::StartWork) {
        let day = match last_workday {
            Some(w) => w,
            None => Seq::empty(),
        };
        seq![
            (Some(day + "T23:59:59.999999999"@ + offset), NotEvent::StopWork, NoteTarget::LastWorkNote, last_workday),
            (Some(today + "T00:00:00.000000000"@ + offset), NotEvent::StartWork, NoteTarget::CurrentNote, Some(today)),
            (None, NotEvent::StopWork, NoteTarget::CurrentNote, last_workday),
        ]
    } else {
        let day = match requested_day {
            Some(d) => d,
            None => today,
        };
        seq![(None, NotEvent::StopWork, NoteTarget::CurrentNote, Some(day))]
    }
}

fn copy_opt(o: Option<&str>) -> (r: Option<String>)
    ensures
        opt_view(r) == opt_str_view(o),
{
    match o {
        Some(s) => Some(String::from_str(s)),
        None => None,
    }
}

/// Plans the annotations that stopping work writes, given the last work annotation's event
/// and work day, the day asked for, today's `YYYY-MM-DD` label and the local offset.
pub fn plan_stop_work(
    last_event: Option<NotEvent>,
    last_workday: Option<&str>,
    requested_day: Option<&str>,
    today: &str,
    offset: &str,
) -> (r: Vec<PlannedAnnotation>)
    ensures
        planned_views(r@) == stop_work_plan(
            last_event,
            opt_str_view(last_workday),
            opt_str_view(requested_day),
            today@,
            offset@,
        ),
{
    let mut r: Vec<PlannedAnnotation> = Vec::new();
    match last_event {
        Some(NotEvent::StartWork) => {
            let mut end = match last_workday {
                Some(w) => String::from_str(w),
                None => String::new(),
            };
            end.append("T23:59:59.999999999");
            end.append(offset);
            let mut start = String::from_str(today);
            start.append("T00:00:00.000000000");
            start.append(offset);
            r.push(
                PlannedAnnotation {
                    date: Some(end),
                    event: NotEvent::StopWork,
                    target: NoteTarget::LastWorkNote,
                    workday: copy_opt(last_workday),
                },
            );
            r.push(
                PlannedAnnotation {
                    date: Some(start),
                    event: NotEvent::StartWork,
                    target: NoteTarget::CurrentNote,
                    workday: Some(String::from_str(today)),
                },
            );
            r.push(
                PlannedAnnotation {
                    date: None,
                    event: NotEvent::StopWork,
                    target: NoteTarget::CurrentNote,
                    workday: copy_opt(last_workday),
                },
            );
        },
        _ => {
            let day = match requested_day {
                Some(d) => String::from_str(d),
                None => String::from_str(today),
            };
            r.push(
                PlannedAnnotation {
                    date: None,
                    event: NotEvent::StopWork,
                    target: NoteTarget::CurrentNote,
                    workday: Some(day),
                },
            );
        },
    }
    assert(planned_views(r@) =~= stop_work_plan(
        last_event,
        opt_str_view(last_workday),
        opt_str_view(requested_day),
        today@,
        offset@,
    ));
    r
}

} // verus!
