//! Events and the rows that are written out for them.

use crate::binary32::Binary32;
use vstd::prelude::*;

verus! {

/// A stretch of signal: its start, its length, the mean of its level and
/// the mean of its noise.
pub type Event = (u32, u32, Binary32, Binary32);

/// The time at which event `i` starts when the events follow one another
/// from 0 on: the lengths of the events before it, added up.
pub open spec fn elapsed(events: Seq<Event>, i: int) -> int
    decreases i,
{
    if i <= 0 {
        0
    } else {
        elapsed(events, i - 1) + events[i - 1].1
    }
}

/// The rows to write out for a list of events: each event with its start
/// set anew, to the time that the events before it take.
pub open spec fn rows_of(events: Seq<Event>) -> Seq<Event> {
    Seq::new(
        events.len(),
        |i: int| (elapsed(events, i) as u32, events[i].1, events[i].2, events[i].3),
    )
}

/// The rows of a list of events whose starts all fit 32 bits.
pub fn rows(events: &Vec<Event>) -> (rows: Vec<Event>)
    requires
        forall|i: int| 0 <= i < events.len() ==> elapsed(events@, i) <= u32::MAX,
    ensures
        rows@ == rows_of(events@),
{
    let mut rows: Vec<Event> = Vec::new();
    let mut start: u32 = 0;
    let mut i: usize = 0;
    while i < events.len()
        invariant
            i <= events.len(),
            rows.len() == i,
            i < events.len() ==> start == elapsed(events@, i as int),
            forall|j: int| 0 <= j < events.len() ==> elapsed(events@, j) <= u32::MAX,
            forall|j: int| 0 <= j < i ==> #[trigger] rows[j] == rows_of(events@)[j],
        decreases events.len() - i,
    {
        let event = events[i];
        rows.push((start, event.1, event.2, event.3));
        i += 1;
        if i < events.len() {
            assert(elapsed(events@, i as int) == start + event.1);
            start = start + event.1;
        }
    }
    rows
}

} // verus!
