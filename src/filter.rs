//! Filters: predicates over timetables, read from `key=value` tokens, that
//! combine by conjunction.
use vstd::prelude::*;

use crate::data::{Course, Timetable};
use crate::text::{split_tokens, tokens, value_after};

pub mod exclude_teacher;
pub mod free_workdays;
pub mod max_end_time;
pub mod max_gap_between_courses;
pub mod min_start_time;
pub mod no_course_between;

use exclude_teacher::ExcludeTeacherFilter;
use free_workdays::FreeWorkdays;
use max_end_time::MaxEndTimeFilter;
use max_gap_between_courses::MaxGapBetweenCoursesFilter;
use min_start_time::MinStartTimeFilter;
use no_course_between::NoCourseBetweenFilter;

verus! {

/// A predicate over timetables. New kinds of filter implement this trait;
/// `filter_timetables` takes any of them.
pub trait Filter {
    /// Whether a timetable with these courses passes.
    spec fn accepts(&self, courses: Seq<&Course>) -> bool;

    fn filter(&self, timetable: &Timetable) -> (r: bool)
        ensures
            r == self.accepts(timetable.courses@),
    ;
}

/// One filter of any of the kinds that specifications name.
pub enum AnyFilter {
    MinStartTime(MinStartTimeFilter),
    MaxEndTime(MaxEndTimeFilter),
    FreeWorkdays(FreeWorkdays),
    MaxGapBetweenCourses(MaxGapBetweenCoursesFilter),
    ExcludeTeacher(ExcludeTeacherFilter),
    NoCourseBetween(NoCourseBetweenFilter),
}

impl Filter for AnyFilter {
    open spec fn accepts(&self, courses: Seq<&Course>) -> bool {
        match self {
            AnyFilter::MinStartTime(f) => f.accepts(courses),
            AnyFilter::MaxEndTime(f) => f.accepts(courses),
            AnyFilter::FreeWorkdays(f) => f.accepts(courses),
            AnyFilter::MaxGapBetweenCourses(f) => f.accepts(courses),
            AnyFilter::ExcludeTeacher(f) => f.accepts(courses),
            AnyFilter::NoCourseBetween(f) => f.accepts(courses),
        }
    }

    fn filter(&self, timetable: &Timetable) -> (r: bool) {
        match self {
            AnyFilter::MinStartTime(f) => f.filter(timetable),
            AnyFilter::MaxEndTime(f) => f.filter(timetable),
            AnyFilter::FreeWorkdays(f) => f.filter(timetable),
            AnyFilter::MaxGapBetweenCourses(f) => f.filter(timetable),
            AnyFilter::ExcludeTeacher(f) => f.filter(timetable),
            AnyFilter::NoCourseBetween(f) => f.filter(timetable),
        }
    }
}

/// Why a filter specification was refused; each carries the offending text.
#[derive(Debug)]
pub enum FilterError {
    /// No filter claims the token.
    UnknownFilter(String),
    /// The value is not a time `HH:MM`.
    InvalidTime(String),
    /// The value is not a number.
    InvalidNumber(String),
    /// The value is not a weekday name.
    InvalidWeekday(String),
    /// The value has fewer comma-separated fields than the filter needs.
    MissingArguments(String),
}

impl FilterError {
    /// The text that the error is about.
    pub open spec fn subject(&self) -> Seq<char> {
        match self {
            FilterError::UnknownFilter(s) => s@,
            FilterError::InvalidTime(s) => s@,
            FilterError::InvalidNumber(s) => s@,
            FilterError::InvalidWeekday(s) => s@,
            FilterError::MissingArguments(s) => s@,
        }
    }

    /// Why the text was refused, as the message puts it.
    pub open spec fn reason(&self) -> Seq<char> {
        match self {
            FilterError::UnknownFilter(_) => "Invalid filter specification: "@,
            FilterError::InvalidTime(_) => "Invalid time: "@,
            FilterError::InvalidNumber(_) => "Invalid positive number: "@,
            FilterError::InvalidWeekday(_) => "Invalid weekday: "@,
            FilterError::MissingArguments(_) => "Not enough comma separated arguments: "@,
        }
    }

    /// A message for the user: the reason, then the offending text.
    pub fn message(&self) -> (r: String)
        ensures
            r@ == self.reason() + self.subject(),
    {
        let (reason, subject) = match self {
            FilterError::UnknownFilter(s) => ("Invalid filter specification: ", s),
            FilterError::InvalidTime(s) => ("Invalid time: ", s),
            FilterError::InvalidNumber(s) => ("Invalid positive number: ", s),
            FilterError::InvalidWeekday(s) => ("Invalid weekday: ", s),
            FilterError::MissingArguments(s) => ("Not enough comma separated arguments: ", s),
        };
        let mut m = reason.to_owned();
        m.append(subject.as_str());
        m
    }
}

/// What a token yields: the first filter whose key it starts with reads the
/// value; a token that no filter claims is refused as unknown.
pub open spec fn filter_parsed(tok: Seq<char>, r: Result<AnyFilter, FilterError>) -> bool {
    if value_after(tok, "min_start_time"@) is Some {
        min_start_time::parsed(value_after(tok, "min_start_time"@)->0, r)
    } else if value_after(tok, "max_end_time"@) is Some {
        max_end_time::parsed(value_after(tok, "max_end_time"@)->0, r)
    } else if value_after(tok, "free_workdays"@) is Some {
        free_workdays::parsed(value_after(tok, "free_workdays"@)->0, r)
    } else if value_after(tok, "max_gap_minutes_between_courses"@) is Some {
        max_gap_between_courses::parsed(value_after(tok, "max_gap_minutes_between_courses"@)->0, r)
    } else if value_after(tok, "exclude_teacher"@) is Some {
        exclude_teacher::parsed(value_after(tok, "exclude_teacher"@)->0, r)
    } else if value_after(tok, "no_course_between"@) is Some {
        no_course_between::parsed(value_after(tok, "no_course_between"@)->0, r)
    } else {
        r matches Err(FilterError::UnknownFilter(e)) && e@ == tok
    }
}

/// The token specifies a filter.
pub open spec fn token_ok(tok: Seq<char>) -> bool {
    exists|f: AnyFilter| filter_parsed(tok, Ok::<AnyFilter, FilterError>(f))
}

/// The filter that one `key=value` token specifies.
pub fn parse_filter(spec: &str) -> (r: Result<AnyFilter, FilterError>)
    ensures
        filter_parsed(spec@, r),
{
    if let Some(r) = min_start_time::try_parse(spec) {
        return r;
    }
    if let Some(r) = max_end_time::try_parse(spec) {
        return r;
    }
    if let Some(r) = free_workdays::try_parse(spec) {
        return r;
    }
    if let Some(r) = max_gap_between_courses::try_parse(spec) {
        return r;
    }
    if let Some(r) = exclude_teacher::try_parse(spec) {
        return r;
    }
    if let Some(r) = no_course_between::try_parse(spec) {
        return r;
    }
    Err(FilterError::UnknownFilter(spec.to_owned()))
}

/// The filters of a specification line: one per whitespace-separated token,
/// in order; or the error of the first token that is refused.
pub fn parse_filters(specs: &str) -> (r: Result<Vec<AnyFilter>, FilterError>)
    ensures
        r matches Ok(fs) ==> fs@.len() == tokens(specs@).len() && forall|k: int|
            0 <= k < fs@.len() ==> filter_parsed(
                tokens(specs@)[k],
                Ok::<AnyFilter, FilterError>(#[trigger] fs@[k]),
            ),
        r matches Err(e) ==> exists|k: int|
            0 <= k < tokens(specs@).len() && #[trigger] filter_parsed(
                tokens(specs@)[k],
                Err::<AnyFilter, FilterError>(e),
            ) && forall|j: int| 0 <= j < k ==> #[trigger] token_ok(tokens(specs@)[j]),
{
    let toks = split_tokens(specs);
    let mut out: Vec<AnyFilter> = Vec::new();
    let mut k: usize = 0;
    while k < toks.len()
        invariant
            toks@.len() == tokens(specs@).len(),
            forall|x: int| 0 <= x < toks@.len() ==> (#[trigger] toks@[x])@ == tokens(specs@)[x],
            k <= toks@.len(),
            out@.len() == k,
            forall|x: int|
                0 <= x < k ==> filter_parsed(
                    tokens(specs@)[x],
                    Ok::<AnyFilter, FilterError>(#[trigger] out@[x]),
                ),
        decreases toks@.len() - k,
    {
        match parse_filter(toks[k]) {
            Ok(f) => {
                out.push(f);
            },
            Err(e) => {
                assert forall|j: int| 0 <= j < k implies #[trigger] token_ok(tokens(specs@)[j]) by {
                    assert(filter_parsed(tokens(specs@)[j], Ok::<AnyFilter, FilterError>(out@[j])));
                }
                return Err(e);
            },
        }
        k = k + 1;
    }
    Ok(out)
}

/// Every filter of `fs` accepts the courses.
pub open spec fn passes_all<F: Filter>(fs: Seq<F>, courses: Seq<&Course>) -> bool {
    forall|k: int| 0 <= k < fs.len() ==> #[trigger] fs[k].accepts(courses)
}

/// The test that a timetable must pass to survive `fs`.
pub open spec fn survives<'a, F: Filter>(fs: Seq<F>) -> spec_fn(Timetable<'a>) -> bool {
    |t: Timetable<'a>| passes_all(fs, t.courses@)
}

/// The timetables that every filter of `fs` accepts, in their order.
pub open spec fn survivors<'a, F: Filter>(ts: Seq<Timetable<'a>>, fs: Seq<F>) -> Seq<Timetable<'a>> {
    ts.filter(survives(fs))
}

fn passes<F: Filter>(timetable: &Timetable, filters: &Vec<F>) -> (r: bool)
    ensures
        r == passes_all(filters@, timetable.courses@),
{
    let mut k: usize = 0;
    while k < filters.len()
        invariant
            k <= filters@.len(),
            forall|x: int| 0 <= x < k ==> #[trigger] filters@[x].accepts(timetable.courses@),
        decreases filters@.len() - k,
    {
        if !filters[k].filter(timetable) {
            return false;
        }
        k = k + 1;
    }
    true
}

/// The timetables that pass every filter, in their order.
pub fn filter_timetables<'a, F: Filter>(timetables: Vec<Timetable<'a>>, filters: Vec<F>) -> (r: Vec<
    Timetable<'a>,
>)
    ensures
        r@ == survivors(timetables@, filters@),
{
    let ghost ts = timetables@;
    let n = timetables.len();
    let mut rest = timetables;
    let mut reversed: Vec<Timetable<'a>> = Vec::new();
    while rest.len() > 0
        invariant
            n == ts.len(),
            rest@ == ts.subrange(0, rest@.len() as int),
            reversed@.len() == n - rest@.len(),
            forall|j: int| 0 <= j < reversed@.len() ==> #[trigger] reversed@[j] == ts[n - 1 - j],
        decreases rest@.len(),
    {
        let t = rest.pop().unwrap();
        reversed.push(t);
    }
    let mut out: Vec<Timetable<'a>> = Vec::new();
    while reversed.len() > 0
        invariant
            n == ts.len(),
            reversed@.len() <= n,
            forall|j: int| 0 <= j < reversed@.len() ==> #[trigger] reversed@[j] == ts[n - 1 - j],
            out@ == survivors(ts.subrange(0, n - reversed@.len()), filters@),
        decreases reversed@.len(),
    {
        let ghost k = n - reversed@.len();
        let t = reversed.pop().unwrap();
        assert(t == ts[k]);
        let keep = passes(&t, &filters);
        proof {
            reveal(Seq::filter);
            let next = ts.subrange(0, k + 1);
            assert(next.drop_last() =~= ts.subrange(0, k));
            assert(next.last() == t);
        }
        if keep {
            out.push(t);
        }
    }
    assert(ts.subrange(0, n as int) =~= ts);
    out
}

/// With no filters, every timetable survives, in its place.
pub proof fn lemma_no_filters_keep_all<'a, F: Filter>(ts: Seq<Timetable<'a>>)
    ensures
        survivors(ts, Seq::<F>::empty()) == ts,
    decreases ts.len(),
{
    reveal(Seq::filter);
    if ts.len() > 0 {
        lemma_no_filters_keep_all::<F>(ts.drop_last());
        assert(ts.drop_last().push(ts.last()) =~= ts);
    }
}

proof fn lemma_passes_all_concat<F: Filter>(f1: Seq<F>, f2: Seq<F>, courses: Seq<&Course>)
    ensures
        passes_all(f1 + f2, courses) == (passes_all(f1, courses) && passes_all(f2, courses)),
{
    let both = f1 + f2;
    if passes_all(f1, courses) && passes_all(f2, courses) {
        assert forall|k: int| 0 <= k < both.len() implies #[trigger] both[k].accepts(courses) by {
            if k < f1.len() {
                assert(both[k] == f1[k]);
            } else {
                assert(both[k] == f2[k - f1.len()]);
            }
        }
    }
    if passes_all(both, courses) {
        assert forall|k: int| 0 <= k < f1.len() implies #[trigger] f1[k].accepts(courses) by {
            assert(both[k] == f1[k]);
        }
        assert forall|k: int| 0 <= k < f2.len() implies #[trigger] f2[k].accepts(courses) by {
            assert(both[k + f1.len()] == f2[k]);
        }
    }
}

/// Filtering with two lists at once equals filtering with the first, then
/// filtering what survives with the second.
pub proof fn lemma_filters_compose<'a, F: Filter>(ts: Seq<Timetable<'a>>, f1: Seq<F>, f2: Seq<F>)
    ensures
        survivors(ts, f1 + f2) == survivors(survivors(ts, f1), f2),
    decreases ts.len(),
{
    reveal(Seq::filter);
    if ts.len() > 0 {
        let s = ts.drop_last();
        let e = ts.last();
        lemma_filters_compose(s, f1, f2);
        lemma_passes_all_concat(f1, f2, e.courses@);
        let mid = survivors(s, f1);
        if passes_all(f1, e.courses@) {
            assert(mid.push(e).drop_last() =~= mid);
        }
    }
}

/// The order of the filters does not matter.
pub proof fn lemma_filter_order_irrelevant<'a, F: Filter>(
    ts: Seq<Timetable<'a>>,
    f1: Seq<F>,
    f2: Seq<F>,
)
    ensures
        survivors(ts, f1 + f2) == survivors(ts, f2 + f1),
    decreases ts.len(),
{
    reveal(Seq::filter);
    if ts.len() > 0 {
        lemma_filter_order_irrelevant(ts.drop_last(), f1, f2);
        lemma_passes_all_concat(f1, f2, ts.last().courses@);
        lemma_passes_all_concat(f2, f1, ts.last().courses@);
    }
}

/// Filtering again with the same filters changes nothing.
pub proof fn lemma_refilter_idempotent<'a, F: Filter>(ts: Seq<Timetable<'a>>, fs: Seq<F>)
    ensures
        survivors(survivors(ts, fs), fs) == survivors(ts, fs),
    decreases ts.len(),
{
    reveal(Seq::filter);
    if ts.len() > 0 {
        let s = ts.drop_last();
        let e = ts.last();
        lemma_refilter_idempotent(s, fs);
        let once = survivors(s, fs);
        if passes_all(fs, e.courses@) {
            assert(once.push(e).drop_last() =~= once);
        }
    }
}

} // verus!
