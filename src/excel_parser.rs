//! Reading courses from the rows of an exported course sheet. Each row holds,
//! as text: code, type, enrollment `joined/queue/limit`, two unused cells,
//! the schedule and location `DAY:HH:MM-HH:MM  location`, teacher, language,
//! site, comment and description.
use vstd::prelude::*;

use crate::clock::{parse_time, time_of};
use crate::data::{Course, CourseType, Enrollment, Occurrence, OneOfCourse, Subject, Weekday};
use crate::text::{decimal_u64, fields, parse_u64, same_text, split_fields, split_once, split_once_at};

verus! {

/// Why a row cannot be read as a course.
#[derive(Debug)]
pub enum RowError {
    /// The row has fewer cells than a course needs.
    MissingCells,
    /// The type cell names no course type.
    InvalidCourseType(String),
    /// The enrollment cell is not `joined/queue/limit`.
    InvalidEnrollment(String),
    /// The schedule cell is not `DAY:HH:MM-HH:MM  location`.
    InvalidOccurrence(String),
}

/// The course type that a type cell names.
pub open spec fn course_type_named(s: Seq<char>) -> Option<CourseType> {
    if s == "Elm\u{e9}let"@ {
        Some(CourseType::Lecture)
    } else if s == "Labor"@ {
        Some(CourseType::Laboratory)
    } else if s == "Gyakorlat"@ {
        Some(CourseType::Practice)
    } else {
        None
    }
}

pub fn parse_course_type(cell: &str) -> (r: Option<CourseType>)
    ensures
        r == course_type_named(cell@),
{
    if same_text(cell, "Elm\u{e9}let") {
        Some(CourseType::Lecture)
    } else if same_text(cell, "Labor") {
        Some(CourseType::Laboratory)
    } else if same_text(cell, "Gyakorlat") {
        Some(CourseType::Practice)
    } else {
        None
    }
}

/// A count in an enrollment cell: an unsigned number that fits 32 bits.
pub open spec fn count_of(s: Seq<char>) -> Option<u32> {
    match decimal_u64(s) {
        Some(v) => if v <= u32::MAX {
            Some(v as u32)
        } else {
            None
        },
        None => None,
    }
}

/// The enrollment that a cell `joined/queue/limit` gives; fields after the
/// third are ignored.
pub open spec fn enrollment_of(s: Seq<char>) -> Option<Enrollment> {
    let f = fields(s, '/');
    if f.len() >= 3 && count_of(f[0]) is Some && count_of(f[1]) is Some && count_of(f[2]) is Some {
        Some(
            Enrollment {
                people_joined: count_of(f[0])->0,
                people_queue: count_of(f[1])->0,
                people_limit: count_of(f[2])->0,
            },
        )
    } else {
        None
    }
}

fn parse_count(s: &str) -> (r: Option<u32>)
    ensures
        r == count_of(s@),
{
    match parse_u64(s) {
        Some(v) => if v <= u32::MAX as u64 {
            Some(v as u32)
        } else {
            None
        },
        None => None,
    }
}

pub fn parse_enrollment(cell: &str) -> (r: Option<Enrollment>)
    ensures
        r == enrollment_of(cell@),
{
    let f = split_fields(cell, '/');
    if f.len() < 3 {
        return None;
    }
    let joined = parse_count(f[0]);
    let queue = parse_count(f[1]);
    let limit = parse_count(f[2]);
    match (joined, queue, limit) {
        (Some(people_joined), Some(people_queue), Some(people_limit)) => Some(
            Enrollment { people_joined, people_queue, people_limit },
        ),
        _ => None,
    }
}

/// The weekday that an abbreviation of the sheet names.
pub open spec fn weekday_abbreviated(s: Seq<char>) -> Option<Weekday> {
    if s == "H"@ {
        Some(Weekday::Mon)
    } else if s == "K"@ {
        Some(Weekday::Tue)
    } else if s == "SZE"@ {
        Some(Weekday::Wed)
    } else if s == "CS"@ {
        Some(Weekday::Thu)
    } else if s == "P"@ {
        Some(Weekday::Fri)
    } else if s == "SZO"@ {
        Some(Weekday::Sat)
    } else if s == "V"@ {
        Some(Weekday::Sun)
    } else {
        None
    }
}

pub fn parse_weekday(s: &str) -> (r: Option<Weekday>)
    ensures
        r == weekday_abbreviated(s@),
{
    if same_text(s, "H") {
        Some(Weekday::Mon)
    } else if same_text(s, "K") {
        Some(Weekday::Tue)
    } else if same_text(s, "SZE") {
        Some(Weekday::Wed)
    } else if same_text(s, "CS") {
        Some(Weekday::Thu)
    } else if same_text(s, "P") {
        Some(Weekday::Fri)
    } else if same_text(s, "SZO") {
        Some(Weekday::Sat)
    } else if same_text(s, "V") {
        Some(Weekday::Sun)
    } else {
        None
    }
}

/// The schedule and location that a cell gives. An empty cell stands for a
/// course without schedule: the placeholder slot and no location. Otherwise
/// the cell is `DAY:START-END`, two spaces, then the location.
pub open spec fn occurrence_of(s: Seq<char>) -> Option<(Occurrence, Seq<char>)> {
    if s.len() == 0 {
        Some(
            (
                Occurrence {
                    weeks: None,
                    weekday: Weekday::Mon,
                    start_time: crate::data::TimeOfDay { minutes: 0 },
                    end_time: crate::data::TimeOfDay { minutes: 0 },
                },
                seq![],
            ),
        )
    } else {
        match split_once_at(s, "  "@) {
            None => None,
            Some((occ, loc)) => match split_once_at(occ, ":"@) {
                None => None,
                Some((day, times)) => match split_once_at(times, "-"@) {
                    None => None,
                    Some((start, end)) => {
                        match (weekday_abbreviated(day), time_of(start), time_of(end)) {
                            (Some(w), Some(st), Some(en)) => Some(
                                (
                                    Occurrence {
                                        weeks: None,
                                        weekday: w,
                                        start_time: st,
                                        end_time: en,
                                    },
                                    loc,
                                ),
                            ),
                            _ => None,
                        }
                    },
                },
            },
        }
    }
}

pub fn parse_occurrence_and_location(cell: &str) -> (r: Option<(Occurrence, String)>)
    ensures
        r matches Some((o, l)) ==> occurrence_of(cell@) == Some((o, l@)),
        r is None ==> occurrence_of(cell@) is None,
{
    if cell.unicode_len() == 0 {
        return Some((Occurrence::placeholder(), String::new()));
    }
    let (occ, loc) = match split_once(cell, "  ") {
        Some(p) => p,
        None => return None,
    };
    let (day, times) = match split_once(occ, ":") {
        Some(p) => p,
        None => return None,
    };
    let (start, end) = match split_once(times, "-") {
        Some(p) => p,
        None => return None,
    };
    let weekday = match parse_weekday(day) {
        Some(w) => w,
        None => return None,
    };
    let start_time = match parse_time(start) {
        Some(t) => t,
        None => return None,
    };
    let end_time = match parse_time(end) {
        Some(t) => t,
        None => return None,
    };
    Some((Occurrence { weeks: None, weekday, start_time, end_time }, loc.to_owned()))
}

/// What a row of at least eleven cells yields.
pub open spec fn row_parsed(subject_name: Seq<char>, row: Seq<String>, r: Result<Course, RowError>) -> bool {
    if row.len() < 11 {
        r matches Err(RowError::MissingCells)
    } else if course_type_named(row[1]@) is None {
        r matches Err(RowError::InvalidCourseType(e)) && e@ == row[1]@
    } else if enrollment_of(row[2]@) is None {
        r matches Err(RowError::InvalidEnrollment(e)) && e@ == row[2]@
    } else if occurrence_of(row[5]@) is None {
        r matches Err(RowError::InvalidOccurrence(e)) && e@ == row[5]@
    } else {
        let (occurrence, location) = occurrence_of(row[5]@)->0;
        r matches Ok(c) && c.wf() && !c.is_deleted && !c.is_hidden_by_user
            && c.subject_name@ == subject_name && c.code@ == row[0]@ && c.course_type
            == course_type_named(row[1]@)->0 && c.enrollment == enrollment_of(row[2]@)->0
            && c.occurrence == occurrence && c.location@ == location && c.teacher@ == row[6]@
            && c.language@ == row[7]@ && c.site@ == row[8]@ && c.comment@ == row[9]@
            && c.description@ == row[10]@
    }
}

/// The course that a row describes; cells after the eleventh are ignored.
pub fn parse_course(subject_name: &String, row: &Vec<String>) -> (r: Result<Course, RowError>)
    ensures
        row_parsed(subject_name@, row@, r),
{
    if row.len() < 11 {
        return Err(RowError::MissingCells);
    }
    let course_type = match parse_course_type(row[1].as_str()) {
        Some(t) => t,
        None => return Err(RowError::InvalidCourseType(row[1].clone())),
    };
    let enrollment = match parse_enrollment(row[2].as_str()) {
        Some(e) => e,
        None => return Err(RowError::InvalidEnrollment(row[2].clone())),
    };
    let (occurrence, location) = match parse_occurrence_and_location(row[5].as_str()) {
        Some(p) => p,
        None => return Err(RowError::InvalidOccurrence(row[5].clone())),
    };
    Ok(
        Course::new(
            subject_name.clone(),
            row[0].clone(),
            course_type,
            enrollment,
            location,
            row[6].clone(),
            row[7].clone(),
            row[8].clone(),
            row[9].clone(),
            row[10].clone(),
            occurrence,
        ),
    )
}

/// The courses of type `t`, in their order.
pub open spec fn of_type(cs: Seq<Course>, t: CourseType) -> Seq<Course> {
    cs.filter(|c: Course| c.course_type == t)
}

/// The alternative groups of a subject: the lectures, the laboratories and
/// the practices, each in row order, leaving out a type without courses.
pub open spec fn type_groups(cs: Seq<Course>) -> Seq<Seq<Course>> {
    let l = of_type(cs, CourseType::Lecture);
    let b = of_type(cs, CourseType::Laboratory);
    let p = of_type(cs, CourseType::Practice);
    (if l.len() > 0 {
        seq![l]
    } else {
        seq![]
    }) + (if b.len() > 0 {
        seq![b]
    } else {
        seq![]
    }) + (if p.len() > 0 {
        seq![p]
    } else {
        seq![]
    })
}

/// The courses split into alternative groups by type, as `type_groups` says.
pub fn group_by_course_type(courses: Vec<Course>) -> (r: Vec<OneOfCourse>)
    ensures
        r@.len() == type_groups(courses@).len(),
        forall|k: int| 0 <= k < r@.len() ==> (#[trigger] r@[k])@ == type_groups(courses@)[k],
{
    let ghost cs = courses@;
    let n = courses.len();
    let mut rest = courses;
    let mut reversed: Vec<Course> = Vec::new();
    while rest.len() > 0
        invariant
            n == cs.len(),
            rest@ == cs.subrange(0, rest@.len() as int),
            reversed@.len() == n - rest@.len(),
            forall|j: int| 0 <= j < reversed@.len() ==> #[trigger] reversed@[j] == cs[n - 1 - j],
        decreases rest@.len(),
    {
        let c = rest.pop().unwrap();
        reversed.push(c);
    }
    let mut lectures: Vec<Course> = Vec::new();
    let mut labs: Vec<Course> = Vec::new();
    let mut practices: Vec<Course> = Vec::new();
    while reversed.len() > 0
        invariant
            n == cs.len(),
            reversed@.len() <= n,
            forall|j: int| 0 <= j < reversed@.len() ==> #[trigger] reversed@[j] == cs[n - 1 - j],
            lectures@ == of_type(cs.subrange(0, n - reversed@.len()), CourseType::Lecture),
            labs@ == of_type(cs.subrange(0, n - reversed@.len()), CourseType::Laboratory),
            practices@ == of_type(cs.subrange(0, n - reversed@.len()), CourseType::Practice),
        decreases reversed@.len(),
    {
        let ghost k = n - reversed@.len();
        let c = reversed.pop().unwrap();
        assert(c == cs[k]);
        proof {
            reveal(Seq::filter);
            let next = cs.subrange(0, k + 1);
            assert(next.drop_last() =~= cs.subrange(0, k));
            assert(next.last() == c);
        }
        match c.course_type {
            CourseType::Lecture => lectures.push(c),
            CourseType::Laboratory => labs.push(c),
            CourseType::Practice => practices.push(c),
        }
    }
    assert(cs.subrange(0, n as int) =~= cs);
    let mut out: Vec<OneOfCourse> = Vec::new();
    if lectures.len() > 0 {
        out.push(lectures);
    }
    if labs.len() > 0 {
        out.push(labs);
    }
    if practices.len() > 0 {
        out.push(practices);
    }
    assert(out@.len() == type_groups(cs).len());
    out
}

/// How many course rows a sheet of `n` rows has, below its header.
pub open spec fn course_rows(n: int) -> int {
    if n > 0 {
        n - 1
    } else {
        0
    }
}

/// The row describes a course.
pub open spec fn row_ok(subject_name: Seq<char>, row: Seq<String>) -> bool {
    exists|c: Course| row_parsed(subject_name, row, Ok::<Course, RowError>(c))
}

/// The course has a schedule: its slot is not the placeholder.
pub open spec fn is_scheduled(c: Course) -> bool {
    !c.occurrence.spec_is_placeholder()
}

/// The subject that a course sheet describes: its first row is a header,
/// each other row a course. Courses without schedule cannot be placed in a
/// week and are left out; the others are grouped by type. The first row
/// that cannot be read gives the error.
pub fn parse_subject(subject_name: String, rows: &Vec<Vec<String>>) -> (r: Result<Subject, RowError>)
    ensures
        r matches Ok(s) ==> s.name@ == subject_name@ && exists|cs: Seq<Course>|
            #[trigger] cs.len() == course_rows(rows@.len() as int) && (forall|i: int|
                0 <= i < cs.len() ==> row_parsed(
                    subject_name@,
                    rows@[i + 1]@,
                    Ok::<Course, RowError>(#[trigger] cs[i]),
                )) && s.courses@.len() == type_groups(cs.filter(|c: Course| is_scheduled(c))).len()
                && (forall|k: int|
                0 <= k < s.courses@.len() ==> (#[trigger] s.courses@[k])@ == type_groups(
                    cs.filter(|c: Course| is_scheduled(c)),
                )[k]),
        r matches Err(e) ==> exists|i: int|
            1 <= i < rows@.len() && #[trigger] row_parsed(
                subject_name@,
                rows@[i]@,
                Err::<Course, RowError>(e),
            ) && forall|j: int| 1 <= j < i ==> #[trigger] row_ok(subject_name@, rows@[j]@),
{
    let ghost mut all: Seq<Course> = seq![];
    let mut courses: Vec<Course> = Vec::new();
    let mut i: usize = 1;
    while i < rows.len()
        invariant
            1 <= i,
            i <= rows@.len() || rows@.len() == 0,
            rows@.len() == 0 ==> all.len() == 0,
            rows@.len() > 0 ==> all.len() == i - 1,
            forall|j: int|
                0 <= j < all.len() ==> row_parsed(
                    subject_name@,
                    rows@[j + 1]@,
                    Ok::<Course, RowError>(#[trigger] all[j]),
                ),
            courses@ == all.filter(|c: Course| is_scheduled(c)),
        decreases rows@.len() - i,
    {
        match parse_course(&subject_name, &rows[i]) {
            Ok(c) => {
                proof {
                    reveal(Seq::filter);
                    assert(all.push(c).drop_last() =~= all);
                    all = all.push(c);
                }
                if !c.occurrence.is_placeholder() {
                    courses.push(c);
                }
            },
            Err(e) => {
                assert forall|j: int| 1 <= j < i implies #[trigger] row_ok(subject_name@, rows@[j]@) by {
                    assert(row_parsed(subject_name@, rows@[j]@, Ok::<Course, RowError>(all[j - 1])));
                }
                return Err(e);
            },
        }
        i = i + 1;
    }
    let groups = group_by_course_type(courses);
    let s = Subject { name: subject_name, courses: groups };
    assert(all.len() == course_rows(rows@.len() as int));
    Ok(s)
}

} // verus!

