//! `max_gap_minutes_between_courses=M`: on every day, each break between
//! consecutive courses is shorter than `M` minutes.
use vstd::prelude::*;

use crate::canonical::{canonical, canonical_order};
use crate::data::{Course, Timetable};
use crate::filter::{AnyFilter, Filter, FilterError};
use crate::text::{decimal_i64, parse_i64, strip_key, value_after};

verus! {

pub struct MaxGapBetweenCoursesFilter(pub i64);

/// The break after the course at `i`, before the next course of the same
/// day, is shorter than `gap` minutes.
pub open spec fn gap_ok(s: Seq<&Course>, i: int, gap: i64) -> bool {
    s[i].occurrence.weekday == s[i + 1].occurrence.weekday ==> s[i + 1].occurrence.start_time.minutes
        - s[i].occurrence.end_time.minutes < gap
}

/// Every break between consecutive courses of a day, in canonical order, is
/// shorter than `gap` minutes.
pub open spec fn gaps_below(s: Seq<&Course>, gap: i64) -> bool {
    forall|i: int| 0 <= i < s.len() - 1 ==> #[trigger] gap_ok(s, i, gap)
}

impl Filter for MaxGapBetweenCoursesFilter {
    open spec fn accepts(&self, courses: Seq<&Course>) -> bool {
        gaps_below(canonical(courses), self.0)
    }

    fn filter(&self, timetable: &Timetable) -> (r: bool) {
        let s = canonical_order(&timetable.courses);
        let n = s.len();
        if n < 2 {
            return true;
        }
        let mut i: usize = 0;
        while i + 1 < n
            invariant
                n == s@.len(),
                s@ == canonical(timetable.courses@),
                n >= 2,
                i + 1 <= n,
                forall|k: int| 0 <= k < i ==> #[trigger] gap_ok(s@, k, self.0),
            decreases n - i,
        {
            let cur = s[i];
            let next = s[i + 1];
            if cur.occurrence.weekday == next.occurrence.weekday {
                let gap = next.occurrence.start_time.minutes as i64 - cur.occurrence.end_time.minutes as i64;
                if gap >= self.0 {
                    assert(!gap_ok(s@, i as int, self.0));
                    assert(!self.accepts(timetable.courses@));
                    return false;
                }
            }
            i = i + 1;
        }
        true
    }
}

/// What the value of `max_gap_minutes_between_courses=` yields.
pub open spec fn parsed(v: Seq<char>, r: Result<AnyFilter, FilterError>) -> bool {
    match decimal_i64(v) {
        Some(m) => r == Ok::<AnyFilter, FilterError>(
            AnyFilter::MaxGapBetweenCourses(MaxGapBetweenCoursesFilter(m)),
        ),
        None => r matches Err(FilterError::InvalidNumber(e)) && e@ == v,
    }
}

/// The filter that `spec` gives, if it starts with `max_gap_minutes_between_courses=`.
pub fn try_parse(spec: &str) -> (r: Option<Result<AnyFilter, FilterError>>)
    ensures
        r is None <==> value_after(spec@, "max_gap_minutes_between_courses"@) is None,
        r matches Some(x) ==> parsed(value_after(spec@, "max_gap_minutes_between_courses"@)->0, x),
{
    match strip_key(spec, "max_gap_minutes_between_courses") {
        None => None,
        Some(value) => match parse_i64(value) {
            Some(m) => Some(Ok(AnyFilter::MaxGapBetweenCourses(MaxGapBetweenCoursesFilter(m)))),
            None => Some(Err(FilterError::InvalidNumber(value.to_owned()))),
        },
    }
}

} // verus!
