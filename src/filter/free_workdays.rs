//! `free_workdays=N`: at least `N` of Monday to Friday have no course.
use vstd::prelude::*;

use crate::data::{Course, Timetable};
use crate::filter::{AnyFilter, Filter, FilterError};
use crate::text::{decimal_u64, parse_u64, strip_key, value_after};

verus! {

pub struct FreeWorkdays(pub u64);

/// Some course falls on the day at position `d` of the week.
pub open spec fn day_used(courses: Seq<&Course>, d: nat) -> bool {
    exists|i: int| 0 <= i < courses.len() && (#[trigger] courses[i]).occurrence.weekday.ordinal() == d
}

/// How many of the first `n` days of the week have a course.
pub open spec fn busy_days_below(courses: Seq<&Course>, n: nat) -> nat
    decreases n,
{
    if n == 0 {
        0
    } else {
        busy_days_below(courses, (n - 1) as nat) + if day_used(courses, (n - 1) as nat) {
            1nat
        } else {
            0nat
        }
    }
}

/// How many workdays, Monday to Friday, have a course.
pub open spec fn busy_workdays(courses: Seq<&Course>) -> nat {
    busy_days_below(courses, 5)
}

fn has_course_on(courses: &Vec<&Course>, d: u8) -> (r: bool)
    ensures
        r == day_used(courses@, d as nat),
{
    let mut i: usize = 0;
    while i < courses.len()
        invariant
            i <= courses@.len(),
            forall|j: int| 0 <= j < i ==> (#[trigger] courses@[j]).occurrence.weekday.ordinal() != d,
        decreases courses@.len() - i,
    {
        if courses[i].occurrence.weekday.num_days_from_monday() == d {
            return true;
        }
        i = i + 1;
    }
    false
}

impl Filter for FreeWorkdays {
    open spec fn accepts(&self, courses: Seq<&Course>) -> bool {
        busy_workdays(courses) + self.0 <= 5
    }

    fn filter(&self, timetable: &Timetable) -> (r: bool) {
        let mut busy: u64 = 0;
        let mut d: u8 = 0;
        while d < 5
            invariant
                d <= 5,
                busy == busy_days_below(timetable.courses@, d as nat),
                busy <= d,
            decreases 5 - d,
        {
            if has_course_on(&timetable.courses, d) {
                busy = busy + 1;
            }
            d = d + 1;
        }
        self.0 <= 5 && busy <= 5 - self.0
    }
}

/// What the value of `free_workdays=` yields.
pub open spec fn parsed(v: Seq<char>, r: Result<AnyFilter, FilterError>) -> bool {
    match decimal_u64(v) {
        Some(n) => r == Ok::<AnyFilter, FilterError>(AnyFilter::FreeWorkdays(FreeWorkdays(n))),
        None => r matches Err(FilterError::InvalidNumber(e)) && e@ == v,
    }
}

/// The filter that `spec` gives, if it starts with `free_workdays=`.
pub fn try_parse(spec: &str) -> (r: Option<Result<AnyFilter, FilterError>>)
    ensures
        r is None <==> value_after(spec@, "free_workdays"@) is None,
        r matches Some(x) ==> parsed(value_after(spec@, "free_workdays"@)->0, x),
{
    match strip_key(spec, "free_workdays") {
        None => None,
        Some(value) => match parse_u64(value) {
            Some(n) => Some(Ok(AnyFilter::FreeWorkdays(FreeWorkdays(n)))),
            None => Some(Err(FilterError::InvalidNumber(value.to_owned()))),
        },
    }
}

} // verus!
