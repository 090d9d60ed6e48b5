use timetable_optimizer::data::{Course, CourseType, Enrollment, Occurrence, TimeOfDay, Weekday};
use timetable_optimizer::layout::{
    color_hash, course_box, draw_day_lines, draw_half_hour_lines, draw_hour_lines,
    draw_thick_line, foreground, Rect, BLACK, WHITE,
};

#[test]
fn half_hour_lines_every_thirty_rows() {
    let lines = draw_half_hour_lines(12);
    assert_eq!(lines.len(), 24);
    assert_eq!(lines[0], Rect { x: 0, y: 49, width: 1000, height: 2 });
    assert_eq!(lines[3], Rect { x: 0, y: 139, width: 1000, height: 2 });
    let long = draw_half_hour_lines(10_000);
    assert_eq!(long.len(), 20_000);
    assert_eq!(long[19_999], Rect { x: 0, y: 50 + 30 * 19_999 - 1, width: 1000, height: 2 });
}

#[test]
fn hour_and_day_lines() {
    let hours = draw_hour_lines(12);
    assert_eq!(hours.len(), 12);
    assert_eq!(hours[1], (Rect { x: 0, y: 108, width: 1000, height: 4 }, 115));
    let days = draw_day_lines(770);
    assert_eq!(days.len(), 6);
    assert_eq!(days[0], Rect { x: 98, y: 0, width: 4, height: 770 });
    assert_eq!(days[5], Rect { x: 848, y: 0, width: 4, height: 770 });
    assert_eq!(draw_thick_line((10, 0), (10, 40), 3), Rect { x: 9, y: 0, width: 3, height: 40 });
}

#[test]
fn colors_follow_the_code() {
    assert_eq!(color_hash("BMETE90"), color_hash("BMETE90"));
    assert_eq!(foreground((0, 0, 0)), WHITE);
    assert_eq!(foreground((255, 255, 255)), BLACK);
    assert_eq!(foreground((127, 128, 128)), WHITE);
    assert_eq!(foreground((128, 128, 128)), BLACK);
}

#[test]
fn course_boxes() {
    let c = Course::new(
        "S".to_string(),
        "CODE".to_string(),
        CourseType::Lecture,
        Enrollment { people_joined: 0, people_queue: 0, people_limit: 0 },
        String::new(),
        String::new(),
        String::new(),
        String::new(),
        String::new(),
        String::new(),
        Occurrence {
            weeks: None,
            weekday: Weekday::Wed,
            start_time: TimeOfDay::from_hm(10, 15).unwrap(),
            end_time: TimeOfDay::from_hm(11, 45).unwrap(),
        },
    );
    let b = course_box(&c, TimeOfDay::from_hm(8, 0).unwrap()).unwrap();
    assert_eq!(b.rect, Rect { x: 402, y: 185, width: 146, height: 90 });
    assert_eq!((b.text_x, b.text_y), (407, 190));
    assert_eq!(b.background, color_hash("CODE"));
    assert_eq!(b.foreground, foreground(b.background));
    let mut unscheduled = c;
    unscheduled.occurrence.start_time = TimeOfDay::midnight();
    assert!(course_box(&unscheduled, TimeOfDay::from_hm(8, 0).unwrap()).is_none());
}
