use timetable_optimizer::data::{
    Course, CourseType, Enrollment, Occurrence, Subject, TimeOfDay, Weekday,
};
use timetable_optimizer::enumerate::{generate_timetables, raw_candidates, CatalogError};

fn time(h: u32, m: u32) -> TimeOfDay {
    TimeOfDay::from_hm(h, m).unwrap()
}

fn course(code: &str, day: Weekday, start: (u32, u32), end: (u32, u32)) -> Course {
    Course::new(
        "Subject".to_string(),
        code.to_string(),
        CourseType::Lecture,
        Enrollment { people_joined: 0, people_queue: 0, people_limit: 30 },
        "Room".to_string(),
        "Teacher".to_string(),
        "en".to_string(),
        "Campus".to_string(),
        String::new(),
        String::new(),
        Occurrence {
            weeks: None,
            weekday: day,
            start_time: time(start.0, start.1),
            end_time: time(end.0, end.1),
        },
    )
}

fn codes(courses: &[&Course]) -> Vec<String> {
    courses.iter().map(|c| c.code.clone()).collect()
}

#[test]
fn raw_count_is_product_of_group_sizes() {
    let subjects = vec![
        Subject {
            name: "A".to_string(),
            courses: vec![vec![
                course("a1", Weekday::Mon, (8, 0), (9, 0)),
                course("a2", Weekday::Tue, (8, 0), (9, 0)),
            ]],
        },
        Subject {
            name: "B".to_string(),
            courses: vec![vec![
                course("b1", Weekday::Wed, (8, 0), (9, 0)),
                course("b2", Weekday::Thu, (8, 0), (9, 0)),
                course("b3", Weekday::Fri, (8, 0), (9, 0)),
            ]],
        },
    ];
    let raw = raw_candidates(&subjects).unwrap();
    assert_eq!(raw.len(), 6);
    assert_eq!(codes(&raw[0]), vec!["a1", "b1"]);
    assert_eq!(codes(&raw[1]), vec!["a1", "b2"]);
    assert_eq!(codes(&raw[3]), vec!["a2", "b1"]);
    assert_eq!(codes(&raw[5]), vec!["a2", "b3"]);
    let timetables = generate_timetables(&subjects).unwrap();
    assert_eq!(timetables.len(), 6);
}

#[test]
fn raw_count_multiplies_over_groups_of_one_subject() {
    let subjects = vec![Subject {
        name: "A".to_string(),
        courses: vec![
            vec![
                course("l1", Weekday::Mon, (8, 0), (9, 0)),
                course("l2", Weekday::Mon, (10, 0), (11, 0)),
            ],
            vec![
                course("q1", Weekday::Tue, (8, 0), (9, 0)),
                course("q2", Weekday::Tue, (10, 0), (11, 0)),
                course("q3", Weekday::Tue, (12, 0), (13, 0)),
                course("q4", Weekday::Tue, (14, 0), (15, 0)),
            ],
        ],
    }];
    assert_eq!(raw_candidates(&subjects).unwrap().len(), 8);
}

#[test]
fn alternatives_of_one_group_never_meet() {
    // group A and group B of "Math" are alternatives; "Physics" is on Tuesday
    let subjects = vec![
        Subject {
            name: "Math".to_string(),
            courses: vec![vec![
                course("A", Weekday::Mon, (8, 0), (9, 30)),
                course("B", Weekday::Mon, (9, 0), (10, 0)),
            ]],
        },
        Subject {
            name: "Physics".to_string(),
            courses: vec![vec![course("C", Weekday::Tue, (8, 0), (9, 0))]],
        },
    ];
    assert_eq!(raw_candidates(&subjects).unwrap().len(), 2);
    let timetables = generate_timetables(&subjects).unwrap();
    assert_eq!(timetables.len(), 2);
    assert_eq!(codes(&timetables[0].courses), vec!["A", "C"]);
    assert_eq!(codes(&timetables[1].courses), vec!["B", "C"]);
}

#[test]
fn overlapping_selection_is_rejected() {
    let subjects = vec![
        Subject {
            name: "Math".to_string(),
            courses: vec![vec![course("lecture", Weekday::Mon, (8, 0), (9, 30))]],
        },
        Subject {
            name: "Math Lab".to_string(),
            courses: vec![vec![course("lab", Weekday::Mon, (9, 0), (10, 0))]],
        },
    ];
    assert_eq!(raw_candidates(&subjects).unwrap().len(), 1);
    assert!(generate_timetables(&subjects).unwrap().is_empty());
}

#[test]
fn touching_courses_are_admitted() {
    let subjects = vec![
        Subject {
            name: "X".to_string(),
            courses: vec![vec![course("late", Weekday::Mon, (10, 0), (11, 0))]],
        },
        Subject {
            name: "Y".to_string(),
            courses: vec![vec![course("early", Weekday::Mon, (9, 0), (10, 0))]],
        },
    ];
    let timetables = generate_timetables(&subjects).unwrap();
    assert_eq!(timetables.len(), 1);
    assert_eq!(codes(&timetables[0].courses), vec!["early", "late"]);
}

#[test]
fn timetables_are_in_canonical_order_and_numbered_by_raw_place() {
    let subjects = vec![
        Subject {
            name: "X".to_string(),
            courses: vec![vec![
                course("x-fri", Weekday::Fri, (8, 0), (9, 0)),
                course("x-mon", Weekday::Mon, (9, 0), (10, 0)),
            ]],
        },
        Subject {
            name: "Y".to_string(),
            courses: vec![vec![
                course("y-mon", Weekday::Mon, (9, 30), (10, 30)),
                course("y-tue", Weekday::Tue, (8, 0), (9, 0)),
            ]],
        },
    ];
    let timetables = generate_timetables(&subjects).unwrap();
    let ids: Vec<u32> = timetables.iter().map(|t| t.id).collect();
    // the third raw selection (x-mon, y-mon) overlaps
    assert_eq!(ids, vec![0, 1, 3]);
    assert_eq!(codes(&timetables[0].courses), vec!["y-mon", "x-fri"]);
    assert_eq!(codes(&timetables[1].courses), vec!["y-tue", "x-fri"]);
    assert_eq!(codes(&timetables[2].courses), vec!["x-mon", "y-tue"]);
}

#[test]
fn empty_group_is_an_error() {
    let subjects = vec![
        Subject {
            name: "X".to_string(),
            courses: vec![vec![course("x", Weekday::Mon, (8, 0), (9, 0))]],
        },
        Subject { name: "Y".to_string(), courses: vec![vec![course("y", Weekday::Tue, (8, 0), (9, 0))], vec![]] },
    ];
    assert_eq!(
        generate_timetables(&subjects).unwrap_err(),
        CatalogError::EmptyGroup { subject: 1, group: 1 }
    );
    assert!(raw_candidates(&subjects).is_err());
}

#[test]
fn catalog_without_groups_has_one_empty_timetable() {
    let subjects = vec![Subject { name: "X".to_string(), courses: vec![] }];
    let timetables = generate_timetables(&subjects).unwrap();
    assert_eq!(timetables.len(), 1);
    assert!(timetables[0].courses.is_empty());
    assert_eq!(timetables[0].id, 0);
    let none: Vec<Subject> = vec![];
    assert_eq!(generate_timetables(&none).unwrap().len(), 1);
}

#[test]
fn output_has_no_overlap_on_any_day() {
    let subjects = vec![
        Subject {
            name: "X".to_string(),
            courses: vec![vec![
                course("x1", Weekday::Mon, (8, 0), (10, 0)),
                course("x2", Weekday::Mon, (12, 0), (14, 0)),
            ]],
        },
        Subject {
            name: "Y".to_string(),
            courses: vec![vec![
                course("y1", Weekday::Mon, (9, 0), (11, 0)),
                course("y2", Weekday::Mon, (10, 0), (12, 0)),
            ]],
        },
        Subject {
            name: "Z".to_string(),
            courses: vec![vec![course("z1", Weekday::Mon, (11, 30), (12, 0))]],
        },
    ];
    let timetables = generate_timetables(&subjects).unwrap();
    for t in &timetables {
        for i in 0..t.courses.len() {
            for j in (i + 1)..t.courses.len() {
                let a = &t.courses[i].occurrence;
                let b = &t.courses[j].occurrence;
                if a.weekday == b.weekday {
                    assert!(a.end_time.minutes <= b.start_time.minutes);
                }
            }
        }
    }
    let kept: Vec<Vec<String>> = timetables.iter().map(|t| codes(&t.courses)).collect();
    assert_eq!(kept, vec![vec!["y1".to_string(), "z1".to_string(), "x2".to_string()]]);
}
