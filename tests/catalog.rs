use timetable_optimizer::data::{CourseType, Subject, Weekday};
use timetable_optimizer::edit::{update_courses_by_code, FlagChange};
use timetable_optimizer::excel_parser::{
    parse_course, parse_course_type, parse_enrollment, parse_occurrence_and_location,
    parse_subject, parse_weekday, RowError,
};
use timetable_optimizer::stats::{count_all_courses, count_all_timetables, count_course_per_timetable};

fn row(code: &str, kind: &str, occ: &str) -> Vec<String> {
    vec![
        code, kind, "12/3/30", "x", "y", occ, "Kovacs", "magyar", "Budapest", "-", "notes",
    ]
    .into_iter()
    .map(|s| s.to_string())
    .collect()
}

#[test]
fn enrollment_cells() {
    let e = parse_enrollment("12/3/30").unwrap();
    assert_eq!((e.people_joined, e.people_queue, e.people_limit), (12, 3, 30));
    assert!(parse_enrollment("12/3").is_none());
    assert!(parse_enrollment("12/x/30").is_none());
    assert!(parse_enrollment("4294967296/0/0").is_none());
    let e = parse_enrollment("1/2/3/4").unwrap();
    assert_eq!(e.people_limit, 3);
}

#[test]
fn course_types_and_weekdays() {
    assert_eq!(parse_course_type("Elm\u{e9}let"), Some(CourseType::Lecture));
    assert_eq!(parse_course_type("Labor"), Some(CourseType::Laboratory));
    assert_eq!(parse_course_type("Gyakorlat"), Some(CourseType::Practice));
    assert_eq!(parse_course_type("Seminar"), None);
    assert_eq!(parse_weekday("H"), Some(Weekday::Mon));
    assert_eq!(parse_weekday("SZE"), Some(Weekday::Wed));
    assert_eq!(parse_weekday("SZO"), Some(Weekday::Sat));
    assert_eq!(parse_weekday("V"), Some(Weekday::Sun));
    assert_eq!(parse_weekday("X"), None);
}

#[test]
fn occurrence_cells() {
    let (o, loc) = parse_occurrence_and_location("K:10:15-11:45  QBF15").unwrap();
    assert_eq!(o.weekday, Weekday::Tue);
    assert_eq!(o.start_time.minutes, 615);
    assert_eq!(o.end_time.minutes, 705);
    assert_eq!(loc, "QBF15");
    let (o, loc) = parse_occurrence_and_location("").unwrap();
    assert_eq!((o.weekday, o.start_time.minutes, o.end_time.minutes), (Weekday::Mon, 0, 0));
    assert_eq!(loc, "");
    assert!(parse_occurrence_and_location("K:10:15-11:45 QBF15").is_none());
    assert!(parse_occurrence_and_location("Q:10:15-11:45  QBF15").is_none());
}

#[test]
fn course_rows() {
    let c = parse_course(&"Math".to_string(), &row("M1", "Labor", "CS:08:00-09:30  E1")).unwrap();
    assert_eq!(c.code, "M1");
    assert_eq!(c.subject_name, "Math");
    assert_eq!(c.course_type, CourseType::Laboratory);
    assert_eq!(c.occurrence.weekday, Weekday::Thu);
    assert_eq!(c.location, "E1");
    assert_eq!(c.teacher, "Kovacs");
    assert_eq!(c.description, "notes");
    assert_eq!(c.hash().len(), 32);
    assert!(matches!(
        parse_course(&"Math".to_string(), &row("M1", "Seminar", "")),
        Err(RowError::InvalidCourseType(_))
    ));
    assert!(matches!(
        parse_course(&"Math".to_string(), &vec!["M1".to_string()]),
        Err(RowError::MissingCells)
    ));
    assert!(matches!(
        parse_course(&"Math".to_string(), &row("M1", "Labor", "CS 08:00")),
        Err(RowError::InvalidOccurrence(_))
    ));
}

#[test]
fn subjects_group_courses_by_type() {
    let rows = vec![
        row("code", "type", "schedule"),
        row("GY1", "Gyakorlat", "H:08:00-09:30  A"),
        row("L1", "Elm\u{e9}let", "K:08:00-09:30  B"),
        row("GY2", "Gyakorlat", "SZE:08:00-09:30  C"),
    ];
    let s = parse_subject("Math".to_string(), &rows).unwrap();
    assert_eq!(s.name, "Math");
    let groups: Vec<Vec<String>> =
        s.courses.iter().map(|g| g.iter().map(|c| c.code.clone()).collect()).collect();
    assert_eq!(groups, vec![vec!["L1".to_string()], vec!["GY1".to_string(), "GY2".to_string()]]);
    let bad = vec![row("code", "type", "schedule"), row("X", "Nope", "")];
    assert!(parse_subject("Math".to_string(), &bad).is_err());
}

fn catalog() -> Vec<Subject> {
    let rows = vec![
        row("code", "type", "schedule"),
        row("L1", "Elm\u{e9}let", "H:08:00-09:30  A"),
        row("GY1", "Gyakorlat", "K:08:00-09:30  B"),
        row("GY2", "Gyakorlat", "SZE:08:00-09:30  C"),
        row("GY3", "Gyakorlat", "CS:08:00-09:30  D"),
    ];
    let mut math = parse_subject("Math".to_string(), &rows).unwrap();
    let rows = vec![
        row("code", "type", "schedule"),
        row("B1", "Labor", "P:08:00-09:30  E"),
        row("B2", "Labor", "P:10:00-11:30  F"),
    ];
    let mut bio = parse_subject("Bio".to_string(), &rows).unwrap();
    math.courses[1][2].is_hidden_by_user = true;
    bio.courses[0][0].is_deleted = true;
    bio.courses[0][1].is_deleted = true;
    vec![math, bio]
}

#[test]
fn statistics_skip_ignored_courses() {
    let subjects = catalog();
    assert_eq!(count_all_courses(&subjects), 3);
    assert_eq!(count_course_per_timetable(&subjects), 2);
    assert_eq!(count_all_timetables(&subjects), Some(2));
}

#[test]
fn flags_change_by_code_and_keep_digests() {
    let mut subjects = catalog();
    let before = subjects[0].courses[1][0].hash().clone();
    update_courses_by_code(&mut subjects, "GY1", FlagChange::Delete);
    assert!(subjects[0].courses[1][0].is_deleted);
    assert_eq!(subjects[0].courses[1][0].hash(), &before);
    assert!(!subjects[0].courses[0][0].is_deleted);
    update_courses_by_code(&mut subjects, "L1", FlagChange::ToggleHidden);
    assert!(subjects[0].courses[0][0].is_hidden_by_user);
    assert_eq!(count_all_courses(&subjects), 1);
    update_courses_by_code(&mut subjects, "L1", FlagChange::ToggleHidden);
    assert!(!subjects[0].courses[0][0].is_hidden_by_user);
    assert_eq!(count_all_courses(&subjects), 2);
    update_courses_by_code(&mut subjects, "nothing", FlagChange::Delete);
    assert_eq!(count_all_courses(&subjects), 2);
}

#[test]
fn courses_without_schedule_are_left_out() {
    let rows = vec![
        row("code", "type", "schedule"),
        row("L1", "Elm\u{e9}let", ""),
        row("GY1", "Gyakorlat", "H:08:00-09:30  A"),
    ];
    let s = parse_subject("PE".to_string(), &rows).unwrap();
    assert_eq!(s.courses.len(), 1);
    assert_eq!(s.courses[0].len(), 1);
    assert_eq!(s.courses[0][0].code, "GY1");
    let only_header = vec![row("code", "type", "schedule")];
    assert!(parse_subject("Empty".to_string(), &only_header).unwrap().courses.is_empty());
    assert!(parse_subject("None".to_string(), &vec![]).unwrap().courses.is_empty());
}
