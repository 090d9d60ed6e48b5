//! `max_end_time=HH:MM`: no course ends after the given time.
use vstd::prelude::*;

use crate::clock::{parse_time, time_of};
use crate::data::{Course, TimeOfDay, Timetable};
use crate::filter::{AnyFilter, Filter, FilterError};
use crate::text::{strip_key, value_after};

verus! {

pub struct MaxEndTimeFilter(pub TimeOfDay);

impl Filter for MaxEndTimeFilter {
    open spec fn accepts(&self, courses: Seq<&Course>) -> bool {
        forall|i: int|
            0 <= i < courses.len() ==> (#[trigger] courses[i]).occurrence.end_time.minutes
                <= self.0.minutes
    }

    fn filter(&self, timetable: &Timetable) -> (r: bool) {
        let cs = &timetable.courses;
        let mut i: usize = 0;
        while i < cs.len()
            invariant
                cs@ == timetable.courses@,
                i <= cs@.len(),
                forall|j: int| 0 <= j < i ==> (#[trigger] cs@[j]).occurrence.end_time.minutes
                    <= self.0.minutes,
            decreases cs@.len() - i,
        {
            if cs[i].occurrence.end_time.minutes > self.0.minutes {
                assert(!self.accepts(timetable.courses@)) by {
                    assert(timetable.courses@[i as int] == cs@[i as int]);
                }
                return false;
            }
            i = i + 1;
        }
        true
    }
}

/// What the value of `max_end_time=` yields.
pub open spec fn parsed(v: Seq<char>, r: Result<AnyFilter, FilterError>) -> bool {
    match time_of(v) {
        Some(t) => r == Ok::<AnyFilter, FilterError>(AnyFilter::MaxEndTime(MaxEndTimeFilter(t))),
        None => r matches Err(FilterError::InvalidTime(e)) && e@ == v,
    }
}

/// The filter that `spec` gives, if it starts with `max_end_time=`.
pub fn try_parse(spec: &str) -> (r: Option<Result<AnyFilter, FilterError>>)
    ensures
        r is None <==> value_after(spec@, "max_end_time"@) is None,
        r matches Some(x) ==> parsed(value_after(spec@, "max_end_time"@)->0, x),
{
    match strip_key(spec, "max_end_time") {
        None => None,
        Some(value) => match parse_time(value) {
            Some(t) => Some(Ok(AnyFilter::MaxEndTime(MaxEndTimeFilter(t)))),
            None => Some(Err(FilterError::InvalidTime(value.to_owned()))),
        },
    }
}

} // verus!
