use crate::annotation::{
    decode_spec, parse_annotation, views, Annotation, AnnotationView, DecodeError,
};
use crate::text::chars_of;
use vstd::prelude::*;
use vstd::string::StrSliceExecFns;

verus! {

pub open spec fn strip_cr(l: Seq<char>) -> Seq<char> {
    if l.len() > 0 && l.last() == '\r' {
        l.drop_last()
    } else {
        l
    }
}

/// The lines of `s` from position `i` on, the current line having started at `start`: lines
/// end at `\n`, lose one trailing `\r`, and a final empty line is not counted.
pub open spec fn lines_from(s: Seq<char>, i: int, start: int) -> Seq<Seq<char>>
    decreases s.len() - i,
{
    if i >= s.len() {
        if start < s.len() {
            seq![strip_cr(s.subrange(start, s.len() as int))]
        } else {
            seq![]
        }
    } else if s[i] == '\n' {
        seq![strip_cr(s.subrange(start, i))] + lines_from(s, i + 1, i + 1)
    } else {
        lines_from(s, i + 1, start)
    }
}

pub open spec fn lines_of(s: Seq<char>) -> Seq<Seq<char>> {
    lines_from(s, 0, 0)
}

/// A white space character in the Unicode sense.
pub open spec fn is_blank(c: char) -> bool {
    ('\u{9}' <= c && c <= '\u{d}') || c == ' ' || c == '\u{85}' || c == '\u{a0}' || c == '\u{1680}'
        || ('\u{2000}' <= c && c <= '\u{200a}') || c == '\u{2028}' || c == '\u{2029}'
        || c == '\u{202f}' || c == '\u{205f}' || c == '\u{3000}'
}

fn is_blank_exec(c: char) -> (r: bool)
    ensures
        r == is_blank(c),
{
    ('\u{9}' <= c && c <= '\u{d}') || c == ' ' || c == '\u{85}' || c == '\u{a0}' || c == '\u{1680}'
        || ('\u{2000}' <= c && c <= '\u{200a}') || c == '\u{2028}' || c == '\u{2029}'
        || c == '\u{202f}' || c == '\u{205f}' || c == '\u{3000}'
}

/// The position of the last character at or before `k` that is not blank, or -1.
pub open spec fn last_non_blank(l: Seq<char>, k: int) -> int
    decreases k + 1,
{
    if k < 0 {
        -1
    } else if !is_blank(l[k]) {
        k
    } else {
        last_non_blank(l, k - 1)
    }
}

pub open spec fn marker() -> Seq<char> {
    "[//]: # \"not"@
}

/// An annotation line: the comment marker, a quote and `not`, and a closing quote that only
/// blanks follow.
pub open spec fn is_annotation_line(l: Seq<char>) -> bool {
    let j = last_non_blank(l, l.len() - 1);
    &&& l.len() >= 12
    &&& l.subrange(0, 12) == marker()
    &&& j >= 12
    &&& l[j] == '"'
}

/// The lines of a sequence that are annotation lines, in order.
pub open spec fn annotation_lines_in(ls: Seq<Seq<char>>) -> Seq<Seq<char>>
    decreases ls.len(),
{
    if ls.len() == 0 {
        ls
    } else if is_annotation_line(ls[0]) {
        seq![ls[0]] + annotation_lines_in(ls.drop_first())
    } else {
        annotation_lines_in(ls.drop_first())
    }
}

proof fn lemma_last_non_blank_range(l: Seq<char>, k: int)
    requires
        k >= -1,
    ensures
        -1 <= last_non_blank(l, k) <= k,
    decreases k + 1,
{
    if k >= 0 && is_blank(l[k]) {
        lemma_last_non_blank_range(l, k - 1);
    }
}

/// One past the position of the last character of `l` that is not blank, or 0.
fn last_non_blank_end(l: &Vec<char>) -> (r: usize)
    ensures
        r - 1 == last_non_blank(l@, l@.len() - 1),
{
    let mut k: usize = l.len();
    while k > 0
        invariant
            k <= l@.len(),
            last_non_blank(l@, l@.len() - 1) == last_non_blank(l@, k - 1),
        decreases k,
    {
        let c = l[k - 1];
        assert(c == l@[k - 1]);
        if !is_blank_exec(c) {
            assert(!is_blank(l@[k - 1]));
            assert(last_non_blank(l@, k - 1) == k - 1);
            return k;
        }
        k = k - 1;
    }
    0
}

fn is_annotation_line_exec(l: &Vec<char>) -> (r: bool)
    ensures
        r == is_annotation_line(l@),
{
    let m = chars_of("[//]: # \"not");
    proof {
        reveal_strlit("[//]: # \"not");
        assert(m@.len() == 12);
    }
    if l.len() < 12 {
        return false;
    }
    let mut k: usize = 0;
    while k < 12
        invariant
            k <= 12,
            l@.len() >= 12,
            m@ == marker(),
            m@.len() == 12,
            l@.subrange(0, k as int) == m@.subrange(0, k as int),
        decreases 12 - k,
    {
        if l[k] != m[k] {
            assert(l@.subrange(0, 12)[k as int] != m@[k as int]);
            return false;
        }
        assert(l@.subrange(0, k + 1) == l@.subrange(0, k as int).push(l@[k as int]));
        assert(m@.subrange(0, k + 1) == m@.subrange(0, k as int).push(m@[k as int]));
        k = k + 1;
    }
    assert(m@.subrange(0, 12) == m@);
    let e = last_non_blank_end(l);
    proof {
        lemma_last_non_blank_range(l@, l@.len() - 1);
    }
    e >= 13 && l[e - 1] == '"'
}

/// The lines of a note's text that are annotation lines, in order.
pub fn annotation_lines(content: &str) -> (r: Vec<String>)
    ensures
        r@.map_values(|x: String| x@) == annotation_lines_in(lines_of(content@)),
{
    let s = chars_of(content);
    let mut r: Vec<String> = Vec::new();
    let mut line: Vec<char> = Vec::new();
    let mut start: usize = 0;
    let mut i: usize = 0;
    while i < s.len()
        invariant
            s@ == content@,
            start <= i <= s@.len(),
            line@ == s@.subrange(start as int, i as int),
            annotation_lines_in(lines_of(s@)) == r@.map_values(|x: String| x@) + annotation_lines_in(
                lines_from(s@, i as int, start as int),
            ),
        decreases s@.len() - i,
    {
        let ghost rest = lines_from(s@, i + 1, i + 1);
        if s[i] == '\n' {
            let mut end = i;
            if end > start && s[end - 1] == '\r' {
                end = end - 1;
                line.pop();
            }
            assert(line@ == strip_cr(s@.subrange(start as int, i as int)));
            let ghost ls = seq![line@] + rest;
            assert(ls[0] == line@);
            assert(ls.drop_first() == rest);
            if is_annotation_line_exec(&line) {
                let t = String::from_str(content.substring_char(start, end));
                assert(line@ == s@.subrange(start as int, end as int));
                assert(t@ == line@);
                let ghost before = r@.map_values(|x: String| x@);
                r.push(t);
                assert(r@.map_values(|x: String| x@) =~= before.push(line@));
                assert(before + annotation_lines_in(ls) == before.push(line@) + annotation_lines_in(
                    rest,
                ));
            }
            line = Vec::new();
            start = i + 1;
        } else {
            line.push(s[i]);
            assert(line@ == s@.subrange(start as int, i + 1));
        }
        i = i + 1;
    }
    if start < s.len() {
        let mut end = s.len();
        if s[end - 1] == '\r' {
            end = end - 1;
            line.pop();
        }
        assert(line@ == strip_cr(s@.subrange(start as int, s@.len() as int)));
        let ghost ls = seq![line@];
        assert(ls[0] == line@);
        assert(ls.drop_first() == Seq::<Seq<char>>::empty());
        if is_annotation_line_exec(&line) {
            let t = String::from_str(content.substring_char(start, end));
            assert(line@ == s@.subrange(start as int, end as int));
            assert(t@ == line@);
            let ghost before = r@.map_values(|x: String| x@);
            r.push(t);
            assert(r@.map_values(|x: String| x@) =~= before.push(line@));
            assert(annotation_lines_in(ls.drop_first()) == Seq::<Seq<char>>::empty());
            assert(before + annotation_lines_in(ls) =~= before.push(line@));
        } else {
            assert(annotation_lines_in(ls) == annotation_lines_in(ls.drop_first()));
            assert(r@.map_values(|x: String| x@) + annotation_lines_in(ls) =~= r@.map_values(
                |x: String| x@,
            ));
        }
    } else {
        assert(r@.map_values(|x: String| x@) + Seq::<Seq<char>>::empty() == r@.map_values(
            |x: String| x@,
        ));
    }
    r
}

pub open spec fn opener() -> Seq<char> {
    "[//]: # \"not:{"@
}

pub open spec fn close_at(l: Seq<char>, k: int) -> bool {
    0 <= k && k + 1 < l.len() && l[k] == '}' && l[k + 1] == '"'
}

/// The last position in `lo..hi` where `}"` starts, or -1.
pub open spec fn last_close_in(l: Seq<char>, lo: int, hi: int) -> int
    decreases hi - lo,
{
    if hi <= lo {
        -1
    } else if close_at(l, hi - 1) {
        hi - 1
    } else {
        last_close_in(l, lo, hi - 1)
    }
}

pub open spec fn open_at(l: Seq<char>, p: int) -> bool {
    0 <= p && p + 14 <= l.len() && l.subrange(p, p + 14) == opener()
}

/// The payload `{...}` of the leftmost `[//]: # "not:{...}"` at or after `p`, reaching to the
/// last `}"` of the line.
pub open spec fn payload_from(l: Seq<char>, p: int) -> Option<Seq<char>>
    decreases l.len() + 1 - p,
{
    if p < 0 || p > l.len() {
        None
    } else if open_at(l, p) && last_close_in(l, p + 14, l.len() as int) >= 0 {
        Some(l.subrange(p + 13, last_close_in(l, p + 14, l.len() as int) + 1))
    } else {
        payload_from(l, p + 1)
    }
}

pub open spec fn payload_of(l: Seq<char>) -> Option<Seq<char>> {
    payload_from(l, 0)
}

/// The payloads of a sequence of lines, in order; lines without one are passed over.
pub open spec fn payloads(ls: Seq<Seq<char>>) -> Seq<Seq<char>>
    decreases ls.len(),
{
    if ls.len() == 0 {
        Seq::empty()
    } else {
        match payload_of(ls[0]) {
            Some(p) => seq![p] + payloads(ls.drop_first()),
            None => payloads(ls.drop_first()),
        }
    }
}

/// The records that a sequence of payloads decodes to, in order.
pub open spec fn decoded_records(ps: Seq<Seq<char>>) -> Seq<AnnotationView>
    decreases ps.len(),
{
    if ps.len() == 0 {
        Seq::empty()
    } else {
        match decode_spec(ps[0]) {
            Ok(a) => seq![a] + decoded_records(ps.drop_first()),
            Err(_) => decoded_records(ps.drop_first()),
        }
    }
}

/// The payloads that do not decode, each with its error, in order.
pub open spec fn decode_failures(ps: Seq<Seq<char>>) -> Seq<(Seq<char>, DecodeError)>
    decreases ps.len(),
{
    if ps.len() == 0 {
        Seq::empty()
    } else {
        match decode_spec(ps[0]) {
            Ok(_) => decode_failures(ps.drop_first()),
            Err(e) => seq![(ps[0], e)] + decode_failures(ps.drop_first()),
        }
    }
}

/// An annotation that could not be read, with the reason.
#[derive(Debug)]
pub struct ScanFailure {
    pub text: String,
    pub error: DecodeError,
}

/// The outcome of reading a batch of annotation lines.
#[derive(Debug)]
pub struct ScanReport {
    pub annotations: Vec<Annotation>,
    pub failures: Vec<ScanFailure>,
}

pub open spec fn failure_views(s: Seq<ScanFailure>) -> Seq<(Seq<char>, DecodeError)> {
    s.map_values(|f: ScanFailure| (f.text@, f.error))
}

pub open spec fn string_views(s: Seq<String>) -> Seq<Seq<char>> {
    s.map_values(|x: String| x@)
}

fn close_exec(l: &Vec<char>, k: usize) -> (r: bool)
    ensures
        r == close_at(l@, k as int),
{
    k < l.len() && l.len() - k > 1 && l[k] == '}' && l[k + 1] == '"'
}

fn last_close_exec(l: &Vec<char>, lo: usize) -> (r: Option<usize>)
    ensures
        r is None <==> last_close_in(l@, lo as int, l@.len() as int) == -1,
        r is Some ==> r->Some_0 == last_close_in(l@, lo as int, l@.len() as int),
{
    proof {
        lemma_last_close_range(l@, lo as int, l@.len() as int);
    }
    let mut hi = l.len();
    while hi > lo
        invariant
            last_close_in(l@, lo as int, l@.len() as int) == last_close_in(l@, lo as int, hi as int),
            hi <= l@.len(),
        decreases hi,
    {
        if close_exec(l, hi - 1) {
            return Some(hi - 1);
        }
        hi = hi - 1;
    }
    None
}

proof fn lemma_last_close_range(l: Seq<char>, lo: int, hi: int)
    ensures
        last_close_in(l, lo, hi) == -1 || lo <= last_close_in(l, lo, hi) < hi,
    decreases hi - lo,
{
    if hi > lo && !close_at(l, hi - 1) {
        lemma_last_close_range(l, lo, hi - 1);
    }
}

fn open_exec(l: &Vec<char>, o: &Vec<char>, p: usize) -> (r: bool)
    requires
        o@ == opener(),
        o@.len() == 14,
    ensures
        r == open_at(l@, p as int),
{
    if p > l.len() || l.len() - p < 14 {
        return false;
    }
    let n = l.len();
    let mut k: usize = 0;
    while k < 14
        invariant
            k <= 14,
            n == l@.len(),
            p + 14 <= l@.len(),
            o@ == opener(),
            o@.len() == 14,
            l@.subrange(p as int, p + k) == o@.subrange(0, k as int),
        decreases 14 - k,
    {
        if l[p + k] != o[k] {
            assert(l@.subrange(p as int, p + 14)[k as int] != o@[k as int]);
            return false;
        }
        assert(l@.subrange(p as int, p + k + 1) == l@.subrange(p as int, p + k).push(l@[p + k]));
        assert(o@.subrange(0, k + 1) == o@.subrange(0, k as int).push(o@[k as int]));
        k = k + 1;
    }
    assert(o@.subrange(0, 14) == o@);
    true
}

/// Where the payload of a line lies, if it has one.
fn payload_range(l: &Vec<char>) -> (r: Option<(usize, usize)>)
    ensures
        r is Some <==> payload_of(l@) is Some,
        r is Some ==> r->Some_0.0 <= r->Some_0.1 <= l@.len() && payload_of(l@)->Some_0
            == l@.subrange(r->Some_0.0 as int, r->Some_0.1 as int),
{
    let o = chars_of("[//]: # \"not:{");
    proof {
        reveal_strlit("[//]: # \"not:{");
        assert(o@.len() == 14);
    }
    let mut p: usize = 0;
    while p < l.len()
        invariant
            p <= l@.len(),
            o@ == opener(),
            o@.len() == 14,
            payload_from(l@, 0) == payload_from(l@, p as int),
        decreases l@.len() - p,
    {
        if open_exec(l, &o, p) {
            match last_close_exec(l, p + 14) {
                Some(k) => {
                    proof {
                        lemma_last_close_range(l@, p + 14, l@.len() as int);
                    }
                    return Some((p + 13, k + 1));
                },
                None => {},
            }
        }
        p = p + 1;
    }
    assert(!open_at(l@, p as int));
    assert(payload_from(l@, p + 1) == None::<Seq<char>>);
    None
}

/// Reads the payload of each annotation line, in order: each payload that decodes gives an
/// annotation, each one that does not gives a failure with its reason, and a line without a
/// payload is passed over.
pub fn decode_annotation_lines(lines: &Vec<String>) -> (r: ScanReport)
    ensures
        views(r.annotations@) == decoded_records(payloads(string_views(lines@))),
        failure_views(r.failures@) == decode_failures(payloads(string_views(lines@))),
        forall|i: int|
            0 <= i < r.annotations@.len() ==> (#[trigger] r.annotations@[i]).wf(),
        r.annotations@.len() + r.failures@.len() == payloads(string_views(lines@)).len(),
{
    let mut annotations: Vec<Annotation> = Vec::new();
    let mut failures: Vec<ScanFailure> = Vec::new();
    let ghost all = string_views(lines@);
    let ghost ps = payloads(all);
    let mut i: usize = 0;
    assert(all.subrange(0, all.len() as int) == all);
    assert(views(annotations@) + decoded_records(ps) =~= decoded_records(ps));
    assert(failure_views(failures@) + decode_failures(ps) =~= decode_failures(ps));
    while i < lines.len()
        invariant
            i <= lines@.len(),
            all == string_views(lines@),
            ps == payloads(all),
            decoded_records(ps) == views(annotations@) + decoded_records(
                payloads(all.subrange(i as int, all.len() as int)),
            ),
            decode_failures(ps) == failure_views(failures@) + decode_failures(
                payloads(all.subrange(i as int, all.len() as int)),
            ),
            forall|k: int| 0 <= k < annotations@.len() ==> (#[trigger] annotations@[k]).wf(),
        decreases lines@.len() - i,
    {
        let line = &lines[i];
        let l = chars_of(line.as_str());
        let ghost rest = all.subrange(i + 1, all.len() as int);
        assert(all.subrange(i as int, all.len() as int).drop_first() == rest);
        assert(all.subrange(i as int, all.len() as int)[0] == l@);
        match payload_range(&l) {
            Some((a, b)) => {
                let text = String::from_str(line.as_str().substring_char(a, b));
                let ghost pl = text@;
                assert(payloads(all.subrange(i as int, all.len() as int)) == seq![pl] + payloads(
                    rest,
                ));
                let ghost q = seq![pl] + payloads(rest);
                assert(q[0] == pl);
                assert(q.drop_first() == payloads(rest));
                match parse_annotation(text.as_str()) {
                    Ok(a) => {
                        let ghost before = views(annotations@);
                        annotations.push(a);
                        assert(views(annotations@) =~= before.push(a@));
                        assert(before + decoded_records(q) =~= before.push(a@) + decoded_records(
                            payloads(rest),
                        ));
                    },
                    Err(e) => {
                        let ghost before = failure_views(failures@);
                        failures.push(ScanFailure { text, error: e });
                        assert(failure_views(failures@) =~= before.push((pl, e)));
                        assert(before + decode_failures(q) =~= before.push((pl, e))
                            + decode_failures(payloads(rest)));
                    },
                }
            },
            None => {
                assert(payloads(all.subrange(i as int, all.len() as int)) == payloads(rest));
            },
        }
        i = i + 1;
    }
    assert(all.subrange(i as int, all.len() as int) =~= Seq::<Seq<char>>::empty());
    assert(views(annotations@) + Seq::<AnnotationView>::empty() =~= views(
        annotations@,
    ));
    assert(failure_views(failures@) + Seq::<(Seq<char>, DecodeError)>::empty() =~= failure_views(
        failures@,
    ));
    proof {
        lemma_batch_counts(ps);
    }
    ScanReport { annotations, failures }
}

/// Every payload of a batch gives either one record or one failure.
pub proof fn lemma_batch_counts(ps: Seq<Seq<char>>)
    ensures
        decoded_records(ps).len() + decode_failures(ps).len() == ps.len(),
    decreases ps.len(),
{
    if ps.len() > 0 {
        lemma_batch_counts(ps.drop_first());
    }
}

} // verus!
