//! `no_course_between=WEEKDAY,HH:MM,HH:MM`: no course on that weekday
//! overlaps the window from the first time to the second.
use vstd::prelude::*;

use crate::clock::{parse_time, time_of, weekday_from_name, weekday_named};
use crate::data::{Course, TimeOfDay, Timetable, Weekday};
use crate::filter::{AnyFilter, Filter, FilterError};
use crate::text::{fields, split_fields, strip_key, value_after};

verus! {

pub struct NoCourseBetweenFilter {
    pub weekday: Weekday,
    pub start: TimeOfDay,
    pub end: TimeOfDay,
}

impl NoCourseBetweenFilter {
    /// The course keeps clear of the window: another weekday, or it ends by
    /// the window's start, or it starts at the window's end or later.
    pub open spec fn clear_of(&self, c: &Course) -> bool {
        c.occurrence.weekday == self.weekday ==> c.occurrence.end_time.minutes
            <= self.start.minutes || c.occurrence.start_time.minutes >= self.end.minutes
    }
}

impl Filter for NoCourseBetweenFilter {
    open spec fn accepts(&self, courses: Seq<&Course>) -> bool {
        forall|i: int| 0 <= i < courses.len() ==> self.clear_of(#[trigger] courses[i])
    }

    fn filter(&self, timetable: &Timetable) -> (r: bool) {
        let cs = &timetable.courses;
        let mut i: usize = 0;
        while i < cs.len()
            invariant
                cs@ == timetable.courses@,
                i <= cs@.len(),
                forall|j: int| 0 <= j < i ==> self.clear_of(#[trigger] cs@[j]),
            decreases cs@.len() - i,
        {
            let occ = &cs[i].occurrence;
            if occ.weekday == self.weekday && !(occ.end_time.minutes <= self.start.minutes
                || occ.start_time.minutes >= self.end.minutes) {
                assert(!self.accepts(timetable.courses@)) by {
                    assert(timetable.courses@[i as int] == cs@[i as int]);
                }
                return false;
            }
            i = i + 1;
        }
        true
    }
}

/// What the value of `no_course_between=` yields. The fields are read in
/// order: a weekday name, then two times; fields after the third are ignored.
pub open spec fn parsed(v: Seq<char>, r: Result<AnyFilter, FilterError>) -> bool {
    let f = fields(v, ',');
    match weekday_named(f[0]) {
        None => r matches Err(FilterError::InvalidWeekday(e)) && e@ == f[0],
        Some(w) => if f.len() < 2 {
            r matches Err(FilterError::MissingArguments(e)) && e@ == v
        } else {
            match time_of(f[1]) {
                None => r matches Err(FilterError::InvalidTime(e)) && e@ == v,
                Some(start) => if f.len() < 3 {
                    r matches Err(FilterError::MissingArguments(e)) && e@ == v
                } else {
                    match time_of(f[2]) {
                        None => r matches Err(FilterError::InvalidTime(e)) && e@ == v,
                        Some(end) => r == Ok::<AnyFilter, FilterError>(
                            AnyFilter::NoCourseBetween(NoCourseBetweenFilter { weekday: w, start, end }),
                        ),
                    }
                },
            }
        },
    }
}

/// The filter that `spec` gives, if it starts with `no_course_between=`.
pub fn try_parse(spec: &str) -> (r: Option<Result<AnyFilter, FilterError>>)
    ensures
        r is None <==> value_after(spec@, "no_course_between"@) is None,
        r matches Some(x) ==> parsed(value_after(spec@, "no_course_between"@)->0, x),
{
    match strip_key(spec, "no_course_between") {
        None => None,
        Some(value) => Some(parse_window(value)),
    }
}

fn parse_window(value: &str) -> (r: Result<AnyFilter, FilterError>)
    ensures
        parsed(value@, r),
{
    let fields = split_fields(value, ',');
    let weekday = match weekday_from_name(fields[0]) {
        Some(w) => w,
        None => return Err(FilterError::InvalidWeekday(fields[0].to_owned())),
    };
    if fields.len() < 2 {
        return Err(FilterError::MissingArguments(value.to_owned()));
    }
    let start = match parse_time(fields[1]) {
        Some(t) => t,
        None => return Err(FilterError::InvalidTime(value.to_owned())),
    };
    if fields.len() < 3 {
        return Err(FilterError::MissingArguments(value.to_owned()));
    }
    let end = match parse_time(fields[2]) {
        Some(t) => t,
        None => return Err(FilterError::InvalidTime(value.to_owned())),
    };
    Ok(AnyFilter::NoCourseBetween(NoCourseBetweenFilter { weekday, start, end }))
}

} // verus!
