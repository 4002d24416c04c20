use crate::events::{event_code, event_for_code, NotEvent};
use crate::text::chars_of;
use crate::timestamp::{parse_timestamp, rfc3339_value, Timestamp};
use crate::uid::{fresh_uid, hyphenated, parse_uid, uid_text, uuid_value};
use vstd::prelude::*;
use vstd::string::StrSliceExecFns;

verus! {

/// The position of the first quote at or after `i`, or the length when there is none.
pub open spec fn first_quote_from(s: Seq<char>, i: int) -> int
    decreases s.len() - i,
{
    if i >= s.len() {
        s.len() as int
    } else if s[i] == '\'' {
        i
    } else {
        first_quote_from(s, i + 1)
    }
}

/// Whether `f:'value'` starts at `p`, with a non-empty value free of quotes.
pub open spec fn field_at(s: Seq<char>, f: Seq<char>, p: int) -> bool {
    let v = p + f.len() + 2;
    &&& 0 <= p
    &&& v <= s.len()
    &&& s.subrange(p, p + f.len()) == f
    &&& s[p + f.len()] == ':'
    &&& s[p + f.len() + 1] == '\''
    &&& v < first_quote_from(s, v) < s.len()
}

/// The value of the first occurrence of field `f` at or after `p`.
pub open spec fn field_from(s: Seq<char>, f: Seq<char>, p: int) -> Option<Seq<char>>
    decreases s.len() + 1 - p,
{
    if p < 0 || p > s.len() {
        None
    } else if field_at(s, f, p) {
        let v = p + f.len() + 2;
        Some(s.subrange(v, first_quote_from(s, v)))
    } else {
        field_from(s, f, p + 1)
    }
}

/// The value of the leftmost `f:'value'` in `s`.
pub open spec fn field_value(s: Seq<char>, f: Seq<char>) -> Option<Seq<char>> {
    field_from(s, f, 0)
}

fn first_quote(s: &Vec<char>, i: usize) -> (r: usize)
    requires
        i <= s@.len(),
    ensures
        r == first_quote_from(s@, i as int),
        i <= r <= s@.len(),
{
    let mut j = i;
    while j < s.len()
        invariant
            i <= j <= s@.len(),
            first_quote_from(s@, i as int) == first_quote_from(s@, j as int),
        decreases s@.len() - j,
    {
        if s[j] == '\'' {
            return j;
        }
        j = j + 1;
    }
    j
}

/// The end of the value when field `f` starts at `p`.
fn field_end_at(s: &Vec<char>, f: &Vec<char>, p: usize) -> (r: Option<usize>)
    requires
        p <= s@.len(),
    ensures
        r is Some <==> field_at(s@, f@, p as int),
        r is Some ==> r->Some_0 == first_quote_from(s@, p + f@.len() + 2),
{
    if s.len() - p < 2 || f.len() > s.len() - p - 2 {
        return None;
    }
    let n = s.len();
    let mut k: usize = 0;
    while k < f.len()
        invariant
            k <= f@.len(),
            n == s@.len(),
            p + f@.len() + 2 <= s@.len(),
            s@.subrange(p as int, p + k) == f@.subrange(0, k as int),
        decreases f@.len() - k,
    {
        if s[p + k] != f[k] {
            assert(s@.subrange(p as int, p + f@.len())[k as int] != f@[k as int]);
            return None;
        }
        assert(s@.subrange(p as int, p + k + 1) == s@.subrange(p as int, p + k).push(s@[p + k]));
        assert(f@.subrange(0, k + 1) == f@.subrange(0, k as int).push(f@[k as int]));
        k = k + 1;
    }
    assert(f@.subrange(0, f@.len() as int) == f@);
    let c = p + f.len();
    if s[c] != ':' || s[c + 1] != '\'' {
        return None;
    }
    let v = c + 2;
    let q = first_quote(s, v);
    if v < q && q < s.len() {
        Some(q)
    } else {
        None
    }
}

/// Where the value of the leftmost field `f` lies in `s`.
fn find_field(s: &Vec<char>, f: &Vec<char>) -> (r: Option<(usize, usize)>)
    ensures
        r is Some <==> field_value(s@, f@) is Some,
        r is Some ==> r->Some_0.0 <= r->Some_0.1 <= s@.len() && field_value(s@, f@)->Some_0
            == s@.subrange(r->Some_0.0 as int, r->Some_0.1 as int),
{
    let mut p: usize = 0;
    while p < s.len()
        invariant
            p <= s@.len(),
            field_from(s@, f@, 0) == field_from(s@, f@, p as int),
        decreases s@.len() + 1 - p,
    {
        match field_end_at(s, f, p) {
            Some(q) => {
                return Some((p + f.len() + 2, q));
            },
            None => {},
        }
        p = p + 1;
    }
    assert(!field_at(s@, f@, p as int));
    assert(field_from(s@, f@, p + 1) == None::<Seq<char>>);
    None
}

/// The value of the leftmost `field:'value'` in an annotation, if there is one.
pub fn extract_field_from_annotation(annotation: &str, field: &str) -> (r: Option<String>)
    ensures
        r is Some <==> field_value(annotation@, field@) is Some,
        r is Some ==> r->Some_0@ == field_value(annotation@, field@)->Some_0,
{
    let s = chars_of(annotation);
    let f = chars_of(field);
    match find_field(&s, &f) {
        Some((a, b)) => Some(String::from_str(annotation.substring_char(a, b))),
        None => None,
    }
}

/// Why an annotation could not be read.
#[derive(Debug, Clone, Copy, PartialEq, Eq, Structural)]
pub enum DecodeError {
    MissingOrInvalidDate,
    MissingOrInvalidEvent,
    MissingOrInvalidUid,
}

impl DecodeError {
    pub fn message(&self) -> (r: &'static str)
        ensures
            r@ == decode_error_message(*self),
    {
        match self {
            DecodeError::MissingOrInvalidDate => "Missing or invalid date",
            DecodeError::MissingOrInvalidEvent => "Missing or invalid event",
            DecodeError::MissingOrInvalidUid => "Missing or invalid uid",
        }
    }
}

pub open spec fn decode_error_message(e: DecodeError) -> Seq<char> {
    match e {
        DecodeError::MissingOrInvalidDate => "Missing or invalid date"@,
        DecodeError::MissingOrInvalidEvent => "Missing or invalid event"@,
        DecodeError::MissingOrInvalidUid => "Missing or invalid uid"@,
    }
}

/// One event recovered from a note.
#[derive(Debug)]
pub struct Annotation {
    pub uid: u128,
    pub event: NotEvent,
    pub datetime: Timestamp,
    /// The work day that a session event belongs to, as written.
    pub workday: Option<String>,
}

pub struct AnnotationView {
    pub uid: u128,
    pub event: NotEvent,
    pub datetime: Timestamp,
    pub workday: Option<Seq<char>>,
}

pub open spec fn option_view(o: Option<String>) -> Option<Seq<char>> {
    match o {
        Some(s) => Some(s@),
        None => None,
    }
}

impl View for Annotation {
    type V = AnnotationView;

    open spec fn view(&self) -> AnnotationView {
        AnnotationView {
            uid: self.uid,
            event: self.event,
            datetime: self.datetime,
            workday: option_view(self.workday),
        }
    }
}

impl Annotation {
    pub open spec fn wf(self) -> bool {
        self.datetime.wf()
    }

    /// The identifier in its hyphenated form.
    pub fn uid_string(&self) -> (r: String)
        ensures
            r@ == hyphenated(self.uid),
    {
        uid_text(self.uid)
    }
}

/// What an annotation text decodes to: the date, then the event, then the identifier must
/// be present and readable, in that order of checking.
pub open spec fn decode_spec(s: Seq<char>) -> Result<AnnotationView, DecodeError> {
    let date = field_value(s, "date"@);
    let event = field_value(s, "event"@);
    let uid = field_value(s, "uid"@);
    if date is None || rfc3339_value(date->Some_0) is None {
        Err(DecodeError::MissingOrInvalidDate)
    } else if event is None || event_for_code(event->Some_0) is None {
        Err(DecodeError::MissingOrInvalidEvent)
    } else if uid is None || uuid_value(uid->Some_0) is None {
        Err(DecodeError::MissingOrInvalidUid)
    } else {
        Ok(
            AnnotationView {
                uid: uuid_value(uid->Some_0)->Some_0,
                event: event_for_code(event->Some_0)->Some_0,
                datetime: rfc3339_value(date->Some_0)->Some_0,
                workday: field_value(s, "workday"@),
            },
        )
    }
}

pub open spec fn decoded(r: Result<Annotation, DecodeError>) -> Result<AnnotationView, DecodeError> {
    match r {
        Ok(a) => Ok(a@),
        Err(e) => Err(e),
    }
}

/// Reads the fields of an annotation text such as
/// `not:{date:'...',event:'START_WORK',uid:'...'}`.
pub fn parse_annotation(annotation_in_text: &str) -> (r: Result<Annotation, DecodeError>)
    ensures
        decoded(r) == decode_spec(annotation_in_text@),
        r is Ok ==> r->Ok_0.wf(),
{
    let date = extract_field_from_annotation(annotation_in_text, "date");
    let datetime = match date {
        Some(d) => match parse_timestamp(d.as_str()) {
            Some(t) => t,
            None => {
                return Err(DecodeError::MissingOrInvalidDate);
            },
        },
        None => {
            return Err(DecodeError::MissingOrInvalidDate);
        },
    };
    let event_text = extract_field_from_annotation(annotation_in_text, "event");
    let event = match event_text {
        Some(e) => {
            let ec = chars_of(e.as_str());
            match NotEvent::from_code(ec.as_slice()) {
                Ok(k) => k,
                Err(_) => {
                    return Err(DecodeError::MissingOrInvalidEvent);
                },
            }
        },
        None => {
            return Err(DecodeError::MissingOrInvalidEvent);
        },
    };
    let uid_field = extract_field_from_annotation(annotation_in_text, "uid");
    let uid = match uid_field {
        Some(u) => match parse_uid(u.as_str()) {
            Some(v) => v,
            None => {
                return Err(DecodeError::MissingOrInvalidUid);
            },
        },
        None => {
            return Err(DecodeError::MissingOrInvalidUid);
        },
    };
    let workday = extract_field_from_annotation(annotation_in_text, "workday");
    Ok(Annotation { uid, event, datetime, workday })
}

/// The annotation line for an event: a comment that Markdown does not render.
pub open spec fn annotation_line(
    date: Seq<char>,
    event: NotEvent,
    uid: u128,
    workday: Option<Seq<char>>,
) -> Seq<char> {
    "[//]: # \"not:{date:'"@ + date + "',event:'"@ + event_code(event) + "',uid:'"@ + hyphenated(uid)
        + "'"@ + match workday {
        Some(w) => ",workday:'"@ + w + "'"@,
        None => Seq::<char>::empty(),
    } + "}\""@
}

pub open spec fn str_option_view(o: Option<&str>) -> Option<Seq<char>> {
    match o {
        Some(s) => Some(s@),
        None => None,
    }
}

/// Relies on chrono's `Local::now` and `DateTime::to_rfc3339`: the time now, of which nothing
/// is promised here.
#[verifier::external_body]
fn get_now_as_string() -> (r: String) {
    chrono::Local::now().to_rfc3339()
}

/// Writes the annotation line of an event. Without a date the time now is written, and
/// without an identifier a fresh random one.
pub fn annotate(
    date: Option<&str>,
    event: NotEvent,
    input_uid: Option<u128>,
    workday: Option<&str>,
) -> (r: String)
    ensures
        exists|d: Seq<char>, u: u128|
            {
                &&& r@ == annotation_line(d, event, u, str_option_view(workday))
                &&& date is Some ==> d == date->Some_0@
                &&& input_uid is Some ==> u == input_uid->Some_0
            },
{
    let now;
    let d: &str = match date {
        Some(d) => d,
        None => {
            now = get_now_as_string();
            now.as_str()
        },
    };
    let u = match input_uid {
        Some(u) => u,
        None => fresh_uid(),
    };
    let ut = uid_text(u);
    let mut r = String::from_str("[//]: # \"not:{date:'");
    r.append(d);
    r.append("',event:'");
    r.append(event.code());
    r.append("',uid:'");
    r.append(ut.as_str());
    r.append("'");
    match workday {
        Some(w) => {
            r.append(",workday:'");
            r.append(w);
            r.append("'");
        },
        None => {},
    }
    r.append("}\"");
    assert(r@ =~= annotation_line(d@, event, u, str_option_view(workday)));
    r
}

pub open spec fn views(s: Seq<Annotation>) -> Seq<AnnotationView> {
    s.map_values(|a: Annotation| a@)
}

pub open spec fn all_wf(s: Seq<Annotation>) -> bool {
    forall|i: int| 0 <= i < s.len() ==> (#[trigger] s[i]).wf()
}

/// A copy of an annotation.
pub fn copy_annotation(a: &Annotation) -> (r: Annotation)
    ensures
        r@ == a@,
{
    let workday = match &a.workday {
        Some(w) => Some(w.clone()),
        None => None,
    };
    Annotation { uid: a.uid, event: a.event, datetime: a.datetime, workday }
}

/// The annotations, in order, whose event is one of `kinds`.
pub open spec fn kept(s: Seq<AnnotationView>, kinds: Seq<NotEvent>) -> Seq<AnnotationView>
    decreases s.len(),
{
    if s.len() == 0 {
        s
    } else if kinds.contains(s.last().event) {
        kept(s.drop_last(), kinds).push(s.last())
    } else {
        kept(s.drop_last(), kinds)
    }
}

/// Keeps, in their order, the annotations whose event is one of `event`.
pub fn filter_annotation_by_events(annotations: Vec<Annotation>, event: Vec<NotEvent>) -> (r: Vec<
    Annotation,
>)
    ensures
        views(r@) == kept(views(annotations@), event@),
        all_wf(annotations@) ==> all_wf(r@),
{
    let mut r: Vec<Annotation> = Vec::new();
    let mut i: usize = 0;
    while i < annotations.len()
        invariant
            i <= annotations@.len(),
            views(r@) == kept(views(annotations@.subrange(0, i as int)), event@),
            all_wf(annotations@) ==> all_wf(r@),
        decreases annotations@.len() - i,
    {
        let a = &annotations[i];
        let mut wanted = false;
        let mut j: usize = 0;
        while j < event.len()
            invariant
                j <= event@.len(),
                wanted == event@.subrange(0, j as int).contains(a.event),
            decreases event@.len() - j,
        {
            if event[j] == a.event {
                assert(event@.subrange(0, j + 1)[j as int] == a.event);
                wanted = true;
            } else {
                assert(event@.subrange(0, j + 1) == event@.subrange(0, j as int).push(event@[j as int]));
            }
            j = j + 1;
        }
        assert(event@.subrange(0, event@.len() as int) == event@);
        let ghost before = r@;
        assert(views(annotations@.subrange(0, i + 1)).drop_last() == views(
            annotations@.subrange(0, i as int),
        ));
        assert(views(annotations@.subrange(0, i + 1)).last() == a@);
        if wanted {
            r.push(copy_annotation(a));
            assert(views(r@) == views(before).push(a@));
        }
        i = i + 1;
    }
    assert(annotations@.subrange(0, annotations@.len() as int) == annotations@);
    r
}

} // verus!
