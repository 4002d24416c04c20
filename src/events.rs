use crate::text::chars_equal;
use vstd::prelude::*;

verus! {

/// The closed set of events that an annotation can record.
#[derive(Debug, Clone, Copy, PartialEq, Eq, Structural)]
pub enum NotEvent {
    StartWork,
    StopWork,
    CreateNot,
}

/// The stable wire code of each event kind.
pub open spec fn event_code(e: NotEvent) -> Seq<char> {
    match e {
        NotEvent::StartWork => "START_WORK"@,
        NotEvent::StopWork => "STOP_WORK"@,
        NotEvent::CreateNot => "CREATE_NOT"@,
    }
}

/// The event kind whose code is `s`, if any.
pub open spec fn event_for_code(s: Seq<char>) -> Option<NotEvent> {
    if s == "START_WORK"@ {
        Some(NotEvent::StartWork)
    } else if s == "STOP_WORK"@ {
        Some(NotEvent::StopWork)
    } else if s == "CREATE_NOT"@ {
        Some(NotEvent::CreateNot)
    } else {
        None
    }
}

/// Every code is read back as the kind it was written for, and no two kinds share a code.
pub proof fn lemma_event_code_round_trip(e: NotEvent, f: NotEvent)
    ensures
        event_for_code(event_code(e)) == Some(e),
        event_code(e) == event_code(f) ==> e == f,
{
    reveal_strlit("START_WORK");
    reveal_strlit("STOP_WORK");
    reveal_strlit("CREATE_NOT");
    assert("START_WORK"@.len() != "STOP_WORK"@.len());
    assert("STOP_WORK"@.len() != "CREATE_NOT"@.len());
    assert("START_WORK"@[0] != "CREATE_NOT"@[0]);
}

impl NotEvent {
    /// The wire code of this event kind.
    pub fn code(&self) -> (r: &'static str)
        ensures
            r@ == event_code(*self),
    {
        match self {
            NotEvent::StartWork => "START_WORK",
            NotEvent::StopWork => "STOP_WORK",
            NotEvent::CreateNot => "CREATE_NOT",
        }
    }

    /// The event kind whose wire code is `s`; an unknown code is an error.
    pub fn from_code(s: &[char]) -> (r: Result<NotEvent, ()>)
        ensures
            r is Ok <==> event_for_code(s@) is Some,
            r is Ok ==> Some(r->Ok_0) == event_for_code(s@),
    {
        let start = ['S', 'T', 'A', 'R', 'T', '_', 'W', 'O', 'R', 'K'];
        let stop = ['S', 'T', 'O', 'P', '_', 'W', 'O', 'R', 'K'];
        let create = ['C', 'R', 'E', 'A', 'T', 'E', '_', 'N', 'O', 'T'];
        proof {
            reveal_strlit("START_WORK");
            reveal_strlit("STOP_WORK");
            reveal_strlit("CREATE_NOT");
            assert(start@ == "START_WORK"@);
            assert(stop@ == "STOP_WORK"@);
            assert(create@ == "CREATE_NOT"@);
        }
        if chars_equal(s, start.as_slice()) {
            Ok(NotEvent::StartWork)
        } else if chars_equal(s, stop.as_slice()) {
            Ok(NotEvent::StopWork)
        } else if chars_equal(s, create.as_slice()) {
            Ok(NotEvent::CreateNot)
        } else {
            Err(())
        }
    }
}

} // verus!
