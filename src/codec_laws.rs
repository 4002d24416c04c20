use crate::annotation::{
    annotation_line, decode_spec, field_at, field_from, field_value, first_quote_from,
    AnnotationView, DecodeError,
};
use crate::events::{event_code, event_for_code, lemma_event_code_round_trip, NotEvent};
use crate::scan::{close_at, last_close_in, open_at, opener, payload_of};
use crate::timestamp::{is_rfc3339_char, is_timestamp_text, rfc3339_value};
use crate::uid::{hex_digit, hyphenated, uuid_value};
use vstd::prelude::*;

verus! {

/// A work day label that can stand in an annotation: not empty, without quotes.
pub open spec fn is_workday_text(w: Seq<char>) -> bool {
    w.len() > 0 && forall|i: int| 0 <= i < w.len() ==> #[trigger] w[i] != '\''
}

proof fn lemma_skip(s: Seq<char>, f: Seq<char>, a: int, b: int)
    requires
        0 <= a <= b <= s.len() + 1,
        forall|p: int| a <= p < b ==> !field_at(s, f, p),
    ensures
        field_from(s, f, a) == field_from(s, f, b),
    decreases b - a,
{
    if a < b {
        lemma_skip(s, f, a + 1, b);
    }
}

proof fn lemma_quote_after(s: Seq<char>, v: int, n: int)
    requires
        0 <= v,
        0 <= n,
        v + n < s.len(),
        forall|i: int| v <= i < v + n ==> s[i] != '\'',
        s[v + n] == '\'',
    ensures
        first_quote_from(s, v) == v + n,
    decreases n,
{
    if n > 0 {
        lemma_quote_after(s, v + 1, n - 1);
    }
}

/// Field `f` is found at `p` with the value `s[v..v + n]`.
proof fn lemma_found(s: Seq<char>, f: Seq<char>, p: int, n: int)
    requires
        0 <= p,
        n > 0,
        p + f.len() + 2 + n < s.len(),
        s.subrange(p, p + f.len()) == f,
        s[p + f.len()] == ':',
        s[p + f.len() + 1] == '\'',
        forall|i: int| p + f.len() + 2 <= i < p + f.len() + 2 + n ==> s[i] != '\'',
        s[p + f.len() + 2 + n] == '\'',
        forall|q: int| 0 <= q < p ==> !field_at(s, f, q),
        f.len() > 0,
    ensures
        field_value(s, f) == Some(s.subrange(p + f.len() + 2, p + f.len() + 2 + n)),
{
    let v = p + f.len() + 2;
    lemma_quote_after(s, v, n);
    assert(field_at(s, f, p));
    lemma_skip(s, f, 0, p);
}

/// Decoding reports the first required field that is missing or unreadable, checking the
/// date, then the event, then the identifier.
pub proof fn lemma_missing_field_errors(s: Seq<char>)
    ensures
        field_value(s, "date"@) is None ==> decode_spec(s) == Err::<AnnotationView, DecodeError>(
            DecodeError::MissingOrInvalidDate,
        ),
        field_value(s, "date"@) is Some && rfc3339_value(field_value(s, "date"@)->Some_0) is Some
            && field_value(s, "event"@) is None ==> decode_spec(s) == Err::<
            AnnotationView,
            DecodeError,
        >(DecodeError::MissingOrInvalidEvent),
        field_value(s, "date"@) is Some && rfc3339_value(field_value(s, "date"@)->Some_0) is Some
            && field_value(s, "event"@) is Some && event_for_code(
            field_value(s, "event"@)->Some_0,
        ) is Some && field_value(s, "uid"@) is None ==> decode_spec(s) == Err::<
            AnnotationView,
            DecodeError,
        >(DecodeError::MissingOrInvalidUid),
{
}

proof fn lemma_not_at(s: Seq<char>, f: Seq<char>, q: int)
    requires
        f.len() >= 2,
        0 <= q,
        q + 1 < s.len() ==> s[q] != f[0] || s[q + 1] != f[1],
    ensures
        !field_at(s, f, q),
{
    if field_at(s, f, q) {
        assert(s.subrange(q, q + f.len())[0] == s[q]);
        assert(s.subrange(q, q + f.len())[1] == s[q + 1]);
    }
}

proof fn lemma_hex_digit(n: int)
    requires
        0 <= n < 16,
    ensures
        hex_digit(n) != '\'' && hex_digit(n) != 'u' && hex_digit(n) != 'w',
{
    let t = seq!['0', '1', '2', '3', '4', '5', '6', '7', '8', '9', 'a', 'b', 'c', 'd', 'e', 'f'];
    assert(hex_digit(n) == t[n]);
}

proof fn lemma_hyphenated_chars(u: u128, i: int)
    requires
        0 <= i < 36,
    ensures
        hyphenated(u)[i] != '\'' && hyphenated(u)[i] != 'u' && hyphenated(u)[i] != 'w',
{
    if !(i == 8 || i == 13 || i == 18 || i == 23) {
        let k = i - crate::uid::hyphens_before(i);
        lemma_hex_digit(crate::uid::nibble(u, k));
    }
}

/// The fields of an annotation line, between its opening and closing braces.
pub open spec fn annotation_fields(
    date: Seq<char>,
    event: NotEvent,
    uid: u128,
    workday: Option<Seq<char>>,
) -> Seq<char> {
    "date:'"@ + date + "',event:'"@ + event_code(event) + "',uid:'"@ + hyphenated(uid) + "'"@
        + match workday {
        Some(w) => ",workday:'"@ + w + "'"@,
        None => Seq::<char>::empty(),
    }
}

/// Text in which no field name can start.
pub open spec fn free_of_field_starts(s: Seq<char>) -> bool {
    forall|i: int|
        0 <= i < s.len() ==> #[trigger] s[i] != 'd' && s[i] != 'e' && s[i] != 'u' && s[i] != 'w'
}

pub open spec fn decoded_event(
    date: Seq<char>,
    event: NotEvent,
    uid: u128,
    workday: Option<Seq<char>>,
) -> Result<AnnotationView, DecodeError> {
    Ok(AnnotationView { uid, event, datetime: rfc3339_value(date)->Some_0, workday })
}

/// The fields of an event, framed by text in which no field name starts, decode to that event.
#[verifier::rlimit(80)]
proof fn lemma_round_trip_framed(
    pre: Seq<char>,
    post: Seq<char>,
    date: Seq<char>,
    event: NotEvent,
    uid: u128,
    workday: Option<Seq<char>>,
)
    requires
        free_of_field_starts(pre),
        free_of_field_starts(post),
        is_timestamp_text(date),
        uuid_value(hyphenated(uid)) == Some(uid),
        workday is Some ==> is_workday_text(workday->Some_0),
    ensures
        decode_spec(pre + annotation_fields(date, event, uid, workday) + post) == decoded_event(
            date,
            event,
            uid,
            workday,
        ),
{
    reveal_strlit("date:'");
    reveal_strlit("',event:'");
    reveal_strlit("',uid:'");
    reveal_strlit("'");
    reveal_strlit(",workday:'");
    reveal_strlit("date");
    reveal_strlit("event");
    reveal_strlit("uid");
    reveal_strlit("workday");
    reveal_strlit("START_WORK");
    reveal_strlit("STOP_WORK");
    reveal_strlit("CREATE_NOT");
    lemma_event_code_round_trip(event, event);
    let f0 = "date:'"@;
    let b = "',event:'"@;
    let c = "',uid:'"@;
    let code = event_code(event);
    let h = hyphenated(uid);
    let wp = match workday {
        Some(w) => ",workday:'"@ + w + "'"@,
        None => Seq::<char>::empty(),
    };
    let l = pre + annotation_fields(date, event, uid, workday) + post;
    assert(l == pre + f0 + date + b + code + c + h + "'"@ + wp + post);
    let np = pre.len() as int;
    let nd = date.len() as int;
    let nc = code.len() as int;
    let od = np + 6;
    let ob = od + nd;
    let oc = ob + 9;
    let ou = oc + nc;
    let oh = ou + 7;
    let oq = oh + 36;
    let ow = oq + 1;
    let nw = wp.len() as int;
    let op = ow + nw;
    assert(l.len() == op + post.len());
    assert(forall|i: int| 0 <= i < np ==> l[i] == pre[i]);
    assert(forall|i: int| np <= i < od ==> l[i] == f0[i - np]);
    assert(forall|i: int| od <= i < ob ==> l[i] == date[i - od]);
    assert(forall|i: int| ob <= i < oc ==> l[i] == b[i - ob]);
    assert(forall|i: int| oc <= i < ou ==> l[i] == code[i - oc]);
    assert(forall|i: int| ou <= i < oh ==> l[i] == c[i - ou]);
    assert(forall|i: int| oh <= i < oq ==> l[i] == h[i - oh]);
    assert(l[oq] == '\'');
    assert(forall|i: int| ow <= i < op ==> l[i] == wp[i - ow]);
    assert(forall|i: int| op <= i < l.len() ==> l[i] == post[i - op]);
    assert(forall|i: int| 0 <= i < nc ==> code[i] != '\'' && code[i] != 'u' && code[i] != 'w'
        && code[i] != 'e');
    assert forall|i: int| oh <= i < oq implies l[i] != '\'' && l[i] != 'u' && l[i] != 'w' by {
        lemma_hyphenated_chars(uid, i - oh);
    }
    // date
    let fd = "date"@;
    assert forall|p: int| 0 <= p < np implies !field_at(l, fd, p) by {
        lemma_not_at(l, fd, p);
    }
    assert(l.subrange(np, np + 4) =~= fd);
    lemma_found(l, fd, np, nd);
    assert(l.subrange(od, ob) =~= date);
    // event
    let fe = "event"@;
    assert forall|p: int| 0 <= p < ob + 2 implies !field_at(l, fe, p) by {
        if od <= p < ob {
            assert(is_rfc3339_char(date[p - od]));
        }
        lemma_not_at(l, fe, p);
    }
    assert(l.subrange(ob + 2, ob + 7) =~= fe);
    lemma_found(l, fe, ob + 2, nc);
    assert(l.subrange(oc, ou) =~= code);
    // uid
    let fu = "uid"@;
    assert forall|p: int| 0 <= p < ou + 2 implies !field_at(l, fu, p) by {
        if od <= p < ob {
            assert(is_rfc3339_char(date[p - od]));
        }
        lemma_not_at(l, fu, p);
    }
    assert(l.subrange(ou + 2, ou + 5) =~= fu);
    lemma_found(l, fu, ou + 2, 36);
    assert(l.subrange(oh, oq) =~= h);
    // work day
    let fw = "workday"@;
    match workday {
        Some(w) => {
            assert(forall|i: int| ow + 10 <= i < ow + 10 + w.len() ==> l[i] == w[i - ow - 10]);
            assert(l[ow + 10 + w.len()] == '\'');
            assert forall|p: int| 0 <= p < ow + 1 implies !field_at(l, fw, p) by {
                if od <= p < ob {
                    assert(is_rfc3339_char(date[p - od]));
                }
                lemma_not_at(l, fw, p);
            }
            assert(l.subrange(ow + 1, ow + 8) =~= fw);
            lemma_found(l, fw, ow + 1, w.len() as int);
            assert(l.subrange(ow + 10, ow + 10 + w.len()) =~= w);
        },
        None => {
            assert forall|p: int| 0 <= p < l.len() + 1 implies !field_at(l, fw, p) by {
                if od <= p < ob {
                    assert(is_rfc3339_char(date[p - od]));
                }
                lemma_not_at(l, fw, p);
            }
            lemma_skip(l, fw, 0, l.len() as int + 1);
        },
    }
}

/// Decoding the annotation line written for an event gives back that event: its kind, its
/// identifier, the instant and offset read from its timestamp, and its work day label.
pub proof fn lemma_round_trip(
    date: Seq<char>,
    event: NotEvent,
    uid: u128,
    workday: Option<Seq<char>>,
)
    requires
        is_timestamp_text(date),
        uuid_value(hyphenated(uid)) == Some(uid),
        workday is Some ==> is_workday_text(workday->Some_0),
    ensures
        decode_spec(annotation_line(date, event, uid, workday)) == decoded_event(
            date,
            event,
            uid,
            workday,
        ),
{
    let pre = "[//]: # \"not:{"@;
    let post = "}\""@;
    reveal_strlit("[//]: # \"not:{");
    reveal_strlit("[//]: # \"not:{date:'");
    reveal_strlit("date:'");
    reveal_strlit("}\"");
    assert("[//]: # \"not:{date:'"@ =~= pre + "date:'"@);
    assert(annotation_line(date, event, uid, workday) =~= pre + annotation_fields(
        date,
        event,
        uid,
        workday,
    ) + post);
    lemma_round_trip_framed(pre, post, date, event, uid, workday);
}

/// The payload that the scanner takes from the annotation line of an event is its fields in
/// braces, and it decodes to that event, as does the same payload after `not:`.
pub proof fn lemma_round_trip_payload(
    date: Seq<char>,
    event: NotEvent,
    uid: u128,
    workday: Option<Seq<char>>,
)
    requires
        is_timestamp_text(date),
        uuid_value(hyphenated(uid)) == Some(uid),
        workday is Some ==> is_workday_text(workday->Some_0),
    ensures
        payload_of(annotation_line(date, event, uid, workday)) == Some(
            "{"@ + annotation_fields(date, event, uid, workday) + "}"@,
        ),
        decode_spec("{"@ + annotation_fields(date, event, uid, workday) + "}"@) == decoded_event(
            date,
            event,
            uid,
            workday,
        ),
        decode_spec("not:{"@ + annotation_fields(date, event, uid, workday) + "}"@)
            == decoded_event(date, event, uid, workday),
{
    reveal_strlit("{");
    reveal_strlit("}");
    reveal_strlit("not:{");
    reveal_strlit("[//]: # \"not:{");
    reveal_strlit("}\"");
    let fields = annotation_fields(date, event, uid, workday);
    lemma_round_trip_framed("{"@, "}"@, date, event, uid, workday);
    lemma_round_trip_framed("not:{"@, "}"@, date, event, uid, workday);
    let l = annotation_line(date, event, uid, workday);
    let pre = "[//]: # \"not:{"@;
    reveal_strlit("[//]: # \"not:{date:'");
    reveal_strlit("date:'");
    assert("[//]: # \"not:{date:'"@ =~= pre + "date:'"@);
    assert(l =~= pre + fields + "}\""@);
    let n = l.len() as int;
    assert(l.subrange(0, 14) =~= opener());
    assert(open_at(l, 0));
    assert(!close_at(l, n - 1));
    assert(close_at(l, n - 2));
    assert(last_close_in(l, 14, n - 1) == n - 2);
    assert(last_close_in(l, 14, n) == n - 2);
    assert(l.subrange(13, n - 1) =~= "{"@ + fields + "}"@);
}

} // verus!
