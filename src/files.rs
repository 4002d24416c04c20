use crate::text::chars_of;
use vstd::prelude::*;

verus! {

/// A folder of notes is named by a number: one or more digits.
pub open spec fn is_note_folder(name: Seq<char>) -> bool {
    name.len() > 0 && forall|i: int| 0 <= i < name.len() ==> '0' <= #[trigger] name[i] && name[i] <= '9'
}

/// A note file's name ends with a digit and `.md`.
pub open spec fn is_note_file(name: Seq<char>) -> bool {
    let n = name.len() as int;
    &&& n >= 4
    &&& name.subrange(n - 3, n) == ".md"@
    &&& '0' <= name[n - 4] && name[n - 4] <= '9'
}

pub fn is_note_folder_name(name: &str) -> (r: bool)
    ensures
        r == is_note_folder(name@),
{
    let c = chars_of(name);
    if c.len() == 0 {
        return false;
    }
    let mut i: usize = 0;
    while i < c.len()
        invariant
            i <= c@.len(),
            c@ == name@,
            forall|k: int| 0 <= k < i ==> '0' <= #[trigger] c@[k] && c@[k] <= '9',
        decreases c@.len() - i,
    {
        if !('0' <= c[i] && c[i] <= '9') {
            assert(name@[i as int] < '0' || name@[i as int] > '9');
            return false;
        }
        i = i + 1;
    }
    true
}

pub fn is_note_file_name(name: &str) -> (r: bool)
    ensures
        r == is_note_file(name@),
{
    let c = chars_of(name);
    let n = c.len();
    if n < 4 {
        return false;
    }
    proof {
        reveal_strlit(".md");
    }
    let ok = c[n - 3] == '.' && c[n - 2] == 'm' && c[n - 1] == 'd' && '0' <= c[n - 4] && c[n - 4]
        <= '9';
    if ok {
        assert(c@.subrange(n - 3, n as int) =~= ".md"@);
    } else if !('0' <= c[n - 4] && c[n - 4] <= '9') {
    } else {
        assert(c@.subrange(n - 3, n as int)[0] == c@[n - 3]);
        assert(c@.subrange(n - 3, n as int)[1] == c@[n - 2]);
        assert(c@.subrange(n - 3, n as int)[2] == c@[n - 1]);
    }
    ok
}

} // verus!
