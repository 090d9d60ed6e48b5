use vstd::prelude::*;

use crate::identity::{lemma_flags_do_not_change_digest, content_bytes_of, course_digest, hash_courses, sha256, timetable_hash};

verus! {

/// A day of the week, Monday first.
#[derive(Clone, Copy, Debug, PartialEq, Eq, Structural)]
pub enum Weekday {
    Mon,
    Tue,
    Wed,
    Thu,
    Fri,
    Sat,
    Sun,
}

impl Weekday {
    /// Position of the day in the week: Monday is 0, Sunday is 6.
    pub open spec fn ordinal(self) -> nat {
        match self {
            Weekday::Mon => 0,
            Weekday::Tue => 1,
            Weekday::Wed => 2,
            Weekday::Thu => 3,
            Weekday::Fri => 4,
            Weekday::Sat => 5,
            Weekday::Sun => 6,
        }
    }

    /// Monday to Friday.
    pub open spec fn is_workday(self) -> bool {
        self.ordinal() < 5
    }

    pub fn num_days_from_monday(&self) -> (r: u8)
        ensures
            r == self.ordinal(),
    {
        match self {
            Weekday::Mon => 0,
            Weekday::Tue => 1,
            Weekday::Wed => 2,
            Weekday::Thu => 3,
            Weekday::Fri => 4,
            Weekday::Sat => 5,
            Weekday::Sun => 6,
        }
    }

    /// The day at position `n` of the week (Monday is 0).
    pub fn from_ordinal(n: u8) -> (r: Option<Weekday>)
        ensures
            r is Some <==> n < 7,
            r matches Some(d) ==> d.ordinal() == n,
    {
        match n {
            0 => Some(Weekday::Mon),
            1 => Some(Weekday::Tue),
            2 => Some(Weekday::Wed),
            3 => Some(Weekday::Thu),
            4 => Some(Weekday::Fri),
            5 => Some(Weekday::Sat),
            6 => Some(Weekday::Sun),
            _ => None,
        }
    }
}

/// A time of day, counted in minutes since midnight.
#[derive(Clone, Copy, Debug, PartialEq, Eq, Structural)]
pub struct TimeOfDay {
    pub minutes: u32,
}

impl TimeOfDay {
    /// The time `hour:minute`; `None` unless `hour < 24` and `minute < 60`.
    pub fn from_hm(hour: u32, minute: u32) -> (r: Option<TimeOfDay>)
        ensures
            r is Some <==> hour < 24 && minute < 60,
            r matches Some(t) ==> t.minutes == hour * 60 + minute,
    {
        if hour < 24 && minute < 60 {
            Some(TimeOfDay { minutes: hour * 60 + minute })
        } else {
            None
        }
    }

    /// Midnight, the time that stands for a missing schedule.
    pub fn midnight() -> (r: TimeOfDay)
        ensures
            r.minutes == 0,
    {
        TimeOfDay { minutes: 0 }
    }

    pub fn hour(&self) -> (r: u32)
        ensures
            r == self.minutes / 60,
    {
        self.minutes / 60
    }

    pub fn minute(&self) -> (r: u32)
        ensures
            r == self.minutes % 60,
    {
        self.minutes % 60
    }
}

/// Which weeks of the term a course meets in.
#[derive(Clone, Copy, Debug, PartialEq, Eq, Structural)]
pub enum Weeks {
    Every,
    Even,
    Odd,
}

/// The weekly slot of a course.
#[derive(Clone, Copy, Debug, PartialEq, Eq, Structural)]
pub struct Occurrence {
    pub weeks: Option<Weeks>,
    pub weekday: Weekday,
    pub start_time: TimeOfDay,
    pub end_time: TimeOfDay,
}

impl Occurrence {
    /// The slot given to a course that has no schedule: Monday, 00:00 to 00:00.
    pub fn placeholder() -> (r: Occurrence)
        ensures
            r.weeks is None,
            r.weekday == Weekday::Mon,
            r.start_time.minutes == 0,
            r.end_time.minutes == 0,
    {
        Occurrence {
            weeks: None,
            weekday: Weekday::Mon,
            start_time: TimeOfDay::midnight(),
            end_time: TimeOfDay::midnight(),
        }
    }
}

impl Occurrence {
    /// The slot is the placeholder of a course without schedule.
    pub open spec fn spec_is_placeholder(&self) -> bool {
        self.weekday == Weekday::Mon && self.start_time.minutes == 0 && self.end_time.minutes == 0
    }

    pub fn is_placeholder(&self) -> (r: bool)
        ensures
            r == self.spec_is_placeholder(),
    {
        self.weekday == Weekday::Mon && self.start_time.minutes == 0 && self.end_time.minutes == 0
    }
}

#[derive(Clone, Copy, Debug, PartialEq, Eq, Structural)]
pub enum CourseType {
    Lecture,
    Laboratory,
    Practice,
}

impl CourseType {
    pub open spec fn ordinal(self) -> nat {
        match self {
            CourseType::Lecture => 0,
            CourseType::Laboratory => 1,
            CourseType::Practice => 2,
        }
    }

    pub fn rank(&self) -> (r: u8)
        ensures
            r == self.ordinal(),
    {
        match self {
            CourseType::Lecture => 0,
            CourseType::Laboratory => 1,
            CourseType::Practice => 2,
        }
    }

    /// The variant's name, as shown to users.
    pub fn name(&self) -> (r: &'static str)
        ensures
            *self == CourseType::Lecture ==> r@ == "Lecture"@,
            *self == CourseType::Laboratory ==> r@ == "Laboratory"@,
            *self == CourseType::Practice ==> r@ == "Practice"@,
    {
        match self {
            CourseType::Lecture => "Lecture",
            CourseType::Laboratory => "Laboratory",
            CourseType::Practice => "Practice",
        }
    }
}

#[derive(Clone, Copy, Debug, PartialEq, Eq, Structural)]
pub struct Enrollment {
    pub people_joined: u32,
    pub people_queue: u32,
    pub people_limit: u32,
}

/// A course section: its scheduling content, which identifies it, and two
/// presentation flags, which do not.
#[derive(Clone, Debug)]
pub struct Course {
    pub subject_name: String,
    pub code: String,
    pub course_type: CourseType,
    pub enrollment: Enrollment,
    pub location: String,
    pub teacher: String,
    pub language: String,
    pub site: String,
    pub comment: String,
    pub description: String,
    pub occurrence: Occurrence,
    /// The digest of the content when it was last computed; see `wf`.
    pub hash: Vec<u8>,
    pub is_deleted: bool,
    pub is_hidden_by_user: bool,
}

impl Course {
    /// The stored digest matches the current content.
    pub open spec fn wf(&self) -> bool {
        self.hash@ == course_digest(self)
    }

    /// A course with the given content, shown and not deleted, its digest computed.
    pub fn new(
        subject_name: String,
        code: String,
        course_type: CourseType,
        enrollment: Enrollment,
        location: String,
        teacher: String,
        language: String,
        site: String,
        comment: String,
        description: String,
        occurrence: Occurrence,
    ) -> (r: Course)
        ensures
            r.wf(),
            r.subject_name@ == subject_name@,
            r.code@ == code@,
            r.course_type == course_type,
            r.enrollment == enrollment,
            r.location@ == location@,
            r.teacher@ == teacher@,
            r.language@ == language@,
            r.site@ == site@,
            r.comment@ == comment@,
            r.description@ == description@,
            r.occurrence == occurrence,
            !r.is_deleted,
            !r.is_hidden_by_user,
    {
        let mut course = Course {
            subject_name,
            code,
            course_type,
            enrollment,
            location,
            teacher,
            language,
            site,
            comment,
            description,
            occurrence,
            hash: Vec::new(),
            is_deleted: false,
            is_hidden_by_user: false,
        };
        course.update_hash();
        course
    }

    /// Recomputes the stored digest from the current content.
    pub fn update_hash(&mut self)
        ensures
            final(self).wf(),
            same_content(final(self), old(self)),
            final(self).is_deleted == old(self).is_deleted,
            final(self).is_hidden_by_user == old(self).is_hidden_by_user,
    {
        let bytes = content_bytes_of(self);
        let ghost before = *self;
        self.hash = sha256(&bytes);
        proof {
            lemma_flags_do_not_change_digest(self, &before);
        }
    }

    /// The stored digest of the content.
    pub fn hash(&self) -> (r: &Vec<u8>)
        ensures
            r@ == self.hash@,
    {
        &self.hash
    }

    /// Deleted or hidden by the user.
    pub fn is_ignored(&self) -> (r: bool)
        ensures
            r == (self.is_deleted || self.is_hidden_by_user),
    {
        self.is_deleted || self.is_hidden_by_user
    }
}

/// Two courses agree on every field but the presentation flags.
pub open spec fn same_content(a: &Course, b: &Course) -> bool {
    &&& a.subject_name@ == b.subject_name@
    &&& a.code@ == b.code@
    &&& a.course_type == b.course_type
    &&& a.enrollment == b.enrollment
    &&& a.location@ == b.location@
    &&& a.teacher@ == b.teacher@
    &&& a.language@ == b.language@
    &&& a.site@ == b.site@
    &&& a.comment@ == b.comment@
    &&& a.description@ == b.description@
    &&& a.occurrence == b.occurrence
}

/// A group of mutually exclusive courses: a timetable takes exactly one of them.
pub type OneOfCourse = Vec<Course>;

/// A curriculum requirement and its alternative groups.
#[derive(Clone, Debug)]
pub struct Subject {
    pub name: String,
    pub courses: Vec<OneOfCourse>,
}

/// One selection of a course per group, with a sequence number and a
/// content hash computed on first use.
#[derive(Clone, Debug)]
pub struct Timetable<'a> {
    pub id: u32,
    pub courses: Vec<&'a Course>,
    /// The content hash once computed; see `wf`.
    pub hash: Option<String>,
}

impl<'a> Timetable<'a> {
    /// The cached hash, where there is one, is the hash of the courses.
    pub open spec fn wf(&self) -> bool {
        self.hash matches Some(h) ==> h@ == timetable_hash(self.courses@) && h@.len() == 44
    }

    pub fn new(id: u32, courses: Vec<&'a Course>) -> (r: Timetable<'a>)
        ensures
            r.id == id,
            r.courses@ == courses@,
            r.hash is None,
            r.wf(),
    {
        Timetable { id, courses, hash: None }
    }

    /// The content hash of the courses, in their order, computed once and kept.
    pub fn hash(&mut self) -> (r: String)
        requires
            old(self).wf(),
            forall|i: int| 0 <= i < old(self).courses@.len() ==> #[trigger] old(self).courses@[i].wf(),
        ensures
            r@ == timetable_hash(old(self).courses@),
            r@.len() == 44,
            final(self).wf(),
            final(self).id == old(self).id,
            final(self).courses@ == old(self).courses@,
            final(self).hash matches Some(h) && h@ == r@,
    {
        match &self.hash {
            Some(h) => h.clone(),
            None => {
                let h = hash_courses(&self.courses);
                self.hash = Some(h.clone());
                h
            },
        }
    }
}

} // verus!
