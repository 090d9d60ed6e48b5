use timetable_optimizer::data::{
    Course, CourseType, Enrollment, Occurrence, TimeOfDay, Timetable, Weekday,
};
use timetable_optimizer::filter::{
    filter_timetables, parse_filter, parse_filters, AnyFilter, Filter, FilterError,
};

fn time(h: u32, m: u32) -> TimeOfDay {
    TimeOfDay::from_hm(h, m).unwrap()
}

fn course(code: &str, teacher: &str, day: Weekday, start: (u32, u32), end: (u32, u32)) -> Course {
    Course::new(
        "Subject".to_string(),
        code.to_string(),
        CourseType::Practice,
        Enrollment { people_joined: 1, people_queue: 0, people_limit: 20 },
        "Room".to_string(),
        teacher.to_string(),
        "hu".to_string(),
        "Campus".to_string(),
        String::new(),
        String::new(),
        Occurrence {
            weeks: None,
            weekday: day,
            start_time: time(start.0, start.1),
            end_time: time(end.0, end.1),
        },
    )
}

fn passes(spec: &str, timetable: &Timetable) -> bool {
    parse_filter(spec).unwrap().filter(timetable)
}

#[test]
fn free_workdays_counts_days_without_courses() {
    let mon = course("m", "T", Weekday::Mon, (8, 0), (9, 0));
    let tue = course("t", "T", Weekday::Tue, (8, 0), (9, 0));
    let wed = course("w", "T", Weekday::Wed, (8, 0), (9, 0));
    let thu = course("h", "T", Weekday::Thu, (8, 0), (9, 0));
    let fri = course("f", "T", Weekday::Fri, (8, 0), (9, 0));
    let mon_wed_fri = Timetable::new(0, vec![&mon, &wed, &fri]);
    assert!(passes("free_workdays=2", &mon_wed_fri));
    assert!(!passes("free_workdays=3", &mon_wed_fri));
    let mon_to_thu = Timetable::new(1, vec![&mon, &tue, &wed, &thu]);
    assert!(!passes("free_workdays=2", &mon_to_thu));
    assert!(passes("free_workdays=1", &mon_to_thu));
    assert!(passes("free_workdays=0", &mon_to_thu));
    assert!(!passes("free_workdays=6", &Timetable::new(2, vec![])));
    assert!(passes("free_workdays=5", &Timetable::new(3, vec![])));
}

#[test]
fn weekend_courses_do_not_use_workdays() {
    let sat = course("s", "T", Weekday::Sat, (8, 0), (9, 0));
    let sun = course("u", "T", Weekday::Sun, (8, 0), (9, 0));
    assert!(passes("free_workdays=5", &Timetable::new(0, vec![&sat, &sun])));
}

#[test]
fn max_gap_rejects_a_gap_that_reaches_the_limit() {
    let first = course("a", "T", Weekday::Mon, (9, 0), (10, 0));
    let late = course("b", "T", Weekday::Mon, (10, 45), (11, 30));
    let soon = course("c", "T", Weekday::Mon, (10, 20), (11, 0));
    let exact = course("d", "T", Weekday::Mon, (10, 30), (11, 0));
    assert!(!passes("max_gap_minutes_between_courses=30", &Timetable::new(0, vec![&first, &late])));
    assert!(passes("max_gap_minutes_between_courses=30", &Timetable::new(1, vec![&first, &soon])));
    assert!(!passes("max_gap_minutes_between_courses=30", &Timetable::new(2, vec![&first, &exact])));
    // the order of the courses does not matter, only their times
    assert!(!passes("max_gap_minutes_between_courses=30", &Timetable::new(3, vec![&late, &first])));
}

#[test]
fn max_gap_looks_within_a_day_only() {
    let mon = course("a", "T", Weekday::Mon, (8, 0), (9, 0));
    let tue = course("b", "T", Weekday::Tue, (18, 0), (19, 0));
    assert!(passes("max_gap_minutes_between_courses=10", &Timetable::new(0, vec![&mon, &tue])));
}

#[test]
fn start_and_end_bounds() {
    let a = course("a", "T", Weekday::Mon, (8, 0), (9, 30));
    let b = course("b", "T", Weekday::Wed, (10, 0), (18, 0));
    let t = Timetable::new(0, vec![&a, &b]);
    assert!(passes("min_start_time=08:00", &t));
    assert!(!passes("min_start_time=08:01", &t));
    assert!(passes("max_end_time=18:00", &t));
    assert!(!passes("max_end_time=17:59", &t));
}

#[test]
fn exclude_teacher_matches_substrings() {
    let a = course("a", "Dr. Kovacs Anna", Weekday::Mon, (8, 0), (9, 0));
    let b = course("b", "Nagy Peter", Weekday::Tue, (8, 0), (9, 0));
    let t = Timetable::new(0, vec![&a, &b]);
    assert!(!passes("exclude_teacher=Kovacs", &t));
    assert!(!passes("exclude_teacher=Peter", &t));
    assert!(passes("exclude_teacher=Szabo", &t));
    assert!(passes("exclude_teacher=kovacs", &t));
}

#[test]
fn no_course_between_keeps_the_window_clear() {
    let a = course("a", "T", Weekday::Wed, (8, 0), (10, 0));
    let b = course("b", "T", Weekday::Wed, (14, 0), (16, 0));
    let c = course("c", "T", Weekday::Thu, (10, 0), (14, 0));
    let t = Timetable::new(0, vec![&a, &b, &c]);
    assert!(passes("no_course_between=Wed,10:00,14:00", &t));
    assert!(!passes("no_course_between=Wed,09:00,14:00", &t));
    assert!(!passes("no_course_between=Thu,12:00,13:00", &t));
    assert!(passes("no_course_between=Fri,00:00,23:59", &t));
    assert!(!passes("no_course_between=Wednesday,13:00,15:00", &t));
}

#[test]
fn unknown_filter_names_the_token() {
    match parse_filter("fastest_route=yes") {
        Err(FilterError::UnknownFilter(t)) => assert_eq!(t, "fastest_route=yes"),
        _ => panic!("expected an unknown filter"),
    }
    assert!(matches!(parse_filter("min_start_time"), Err(FilterError::UnknownFilter(_))));
}

#[test]
fn bad_values_name_the_value() {
    match parse_filter("min_start_time=25:00") {
        Err(FilterError::InvalidTime(v)) => assert_eq!(v, "25:00"),
        _ => panic!("expected an invalid time"),
    }
    match parse_filter("max_end_time=noon") {
        Err(FilterError::InvalidTime(v)) => assert_eq!(v, "noon"),
        _ => panic!("expected an invalid time"),
    }
    match parse_filter("free_workdays=-1") {
        Err(FilterError::InvalidNumber(v)) => assert_eq!(v, "-1"),
        _ => panic!("expected an invalid number"),
    }
    match parse_filter("max_gap_minutes_between_courses=lots") {
        Err(FilterError::InvalidNumber(v)) => assert_eq!(v, "lots"),
        _ => panic!("expected an invalid number"),
    }
    match parse_filter("no_course_between=Someday,10:00,12:00") {
        Err(FilterError::InvalidWeekday(v)) => assert_eq!(v, "Someday"),
        _ => panic!("expected an invalid weekday"),
    }
    match parse_filter("no_course_between=Mon,10:00") {
        Err(FilterError::MissingArguments(v)) => assert_eq!(v, "Mon,10:00"),
        _ => panic!("expected missing arguments"),
    }
    match parse_filter("no_course_between=Mon,10:xx,12:00") {
        Err(FilterError::InvalidTime(v)) => assert_eq!(v, "Mon,10:xx,12:00"),
        _ => panic!("expected an invalid time"),
    }
}

#[test]
fn messages_end_with_the_offending_text() {
    let e = parse_filter("bogus").err().unwrap();
    assert_eq!(e.message(), "Invalid filter specification: bogus");
    let e = parse_filter("min_start_time=8h").err().unwrap();
    assert_eq!(e.message(), "Invalid time: 8h");
    let e = parse_filter("max_gap_minutes_between_courses=abc").err().unwrap();
    assert_eq!(e.message(), "Invalid positive number: abc");
    let e = parse_filter("free_workdays=-1").err().unwrap();
    assert_eq!(e.message(), "Invalid positive number: -1");
}

#[test]
fn numbers_accept_a_plus_sign_and_negative_gaps() {
    assert!(matches!(parse_filter("free_workdays=+2"), Ok(AnyFilter::FreeWorkdays(_))));
    match parse_filter("max_gap_minutes_between_courses=-5") {
        Ok(AnyFilter::MaxGapBetweenCourses(f)) => assert_eq!(f.0, -5),
        _ => panic!("expected a gap filter"),
    }
}

#[test]
fn a_line_of_specifications() {
    let fs = parse_filters("  min_start_time=08:00   free_workdays=1\tmax_end_time=18:00 ").unwrap();
    assert_eq!(fs.len(), 3);
    assert!(matches!(fs[0], AnyFilter::MinStartTime(_)));
    assert!(matches!(fs[1], AnyFilter::FreeWorkdays(_)));
    assert!(matches!(fs[2], AnyFilter::MaxEndTime(_)));
    assert!(parse_filters("").unwrap().is_empty());
    assert!(parse_filters("   ").unwrap().is_empty());
    match parse_filters("min_start_time=08:00 nonsense free_workdays=x") {
        Err(FilterError::UnknownFilter(t)) => assert_eq!(t, "nonsense"),
        _ => panic!("expected the first error"),
    }
}

fn sample() -> Vec<Course> {
    vec![
        course("a", "T", Weekday::Mon, (8, 0), (10, 0)),
        course("b", "T", Weekday::Tue, (12, 0), (14, 0)),
        course("c", "T", Weekday::Wed, (16, 0), (19, 0)),
    ]
}

fn timetables(cs: &[Course]) -> Vec<Timetable<'_>> {
    vec![
        Timetable::new(0, vec![&cs[0]]),
        Timetable::new(1, vec![&cs[1]]),
        Timetable::new(2, vec![&cs[2]]),
        Timetable::new(3, vec![&cs[0], &cs[2]]),
    ]
}

fn ids(ts: &[Timetable]) -> Vec<u32> {
    ts.iter().map(|t| t.id).collect()
}

#[test]
fn no_filters_keep_every_timetable_in_order() {
    let cs = sample();
    let kept = filter_timetables::<AnyFilter>(timetables(&cs), vec![]);
    assert_eq!(ids(&kept), vec![0, 1, 2, 3]);
}

#[test]
fn two_filters_equal_one_after_the_other() {
    let cs = sample();
    let both = filter_timetables(
        timetables(&cs),
        vec![parse_filter("min_start_time=09:00").unwrap(), parse_filter("max_end_time=18:00").unwrap()],
    );
    let first = filter_timetables(timetables(&cs), vec![parse_filter("min_start_time=09:00").unwrap()]);
    let then = filter_timetables(first, vec![parse_filter("max_end_time=18:00").unwrap()]);
    let swapped = filter_timetables(
        timetables(&cs),
        vec![parse_filter("max_end_time=18:00").unwrap(), parse_filter("min_start_time=09:00").unwrap()],
    );
    assert_eq!(ids(&both), vec![1]);
    assert_eq!(ids(&then), ids(&both));
    assert_eq!(ids(&swapped), ids(&both));
}

#[test]
fn filtering_again_changes_nothing() {
    let cs = sample();
    let once = filter_timetables(timetables(&cs), vec![parse_filter("max_end_time=18:00").unwrap()]);
    let first = ids(&once);
    let twice = filter_timetables(once, vec![parse_filter("max_end_time=18:00").unwrap()]);
    assert_eq!(ids(&twice), first);
    assert_eq!(first, vec![0, 1]);
}
