//! `exclude_teacher=TEXT`: no course's teacher contains the given text.
use vstd::prelude::*;

use crate::data::{Course, Timetable};
use crate::filter::{AnyFilter, Filter, FilterError};
use crate::text::{chars_of, contains_chars, contains_text, strip_key, value_after};

verus! {

pub struct ExcludeTeacherFilter(pub String);

impl Filter for ExcludeTeacherFilter {
    open spec fn accepts(&self, courses: Seq<&Course>) -> bool {
        forall|i: int|
            0 <= i < courses.len() ==> !contains_text((#[trigger] courses[i]).teacher@, self.0@)
    }

    fn filter(&self, timetable: &Timetable) -> (r: bool) {
        let needle = chars_of(self.0.as_str());
        let cs = &timetable.courses;
        let mut i: usize = 0;
        while i < cs.len()
            invariant
                cs@ == timetable.courses@,
                i <= cs@.len(),
                needle@ == self.0@,
                forall|j: int| 0 <= j < i ==> !contains_text((#[trigger] cs@[j]).teacher@, self.0@),
            decreases cs@.len() - i,
        {
            let teacher = chars_of(cs[i].teacher.as_str());
            if contains_chars(&teacher, &needle) {
                assert(!self.accepts(timetable.courses@)) by {
                    assert(timetable.courses@[i as int] == cs@[i as int]);
                }
                return false;
            }
            i = i + 1;
        }
        true
    }
}

/// What the value of `exclude_teacher=` yields: always a filter.
pub open spec fn parsed(v: Seq<char>, r: Result<AnyFilter, FilterError>) -> bool {
    r matches Ok(AnyFilter::ExcludeTeacher(f)) && f.0@ == v
}

/// The filter that `spec` gives, if it starts with `exclude_teacher=`.
pub fn try_parse(spec: &str) -> (r: Option<Result<AnyFilter, FilterError>>)
    ensures
        r is None <==> value_after(spec@, "exclude_teacher"@) is None,
        r matches Some(x) ==> parsed(value_after(spec@, "exclude_teacher"@)->0, x),
{
    match strip_key(spec, "exclude_teacher") {
        None => None,
        Some(value) => Some(Ok(AnyFilter::ExcludeTeacher(ExcludeTeacherFilter(value.to_owned())))),
    }
}

} // verus!
