use timetable_optimizer::canonical::canonical_order;
use timetable_optimizer::data::{
    Course, CourseType, Enrollment, Occurrence, TimeOfDay, Timetable, Weekday, Weeks,
};
use timetable_optimizer::identity::{content_bytes_of, hash_courses};

fn time(h: u32, m: u32) -> TimeOfDay {
    TimeOfDay::from_hm(h, m).unwrap()
}

fn course(code: &str, teacher: &str, day: Weekday, start: (u32, u32), end: (u32, u32)) -> Course {
    Course::new(
        "Physics".to_string(),
        code.to_string(),
        CourseType::Laboratory,
        Enrollment { people_joined: 3, people_queue: 1, people_limit: 16 },
        "Lab 2".to_string(),
        teacher.to_string(),
        "en".to_string(),
        "North".to_string(),
        "bring goggles".to_string(),
        "optics".to_string(),
        Occurrence {
            weeks: Some(Weeks::Every),
            weekday: day,
            start_time: time(start.0, start.1),
            end_time: time(end.0, end.1),
        },
    )
}

#[test]
fn selection_order_does_not_change_the_hash() {
    let a = course("a", "T", Weekday::Mon, (8, 0), (9, 0));
    let b = course("b", "T", Weekday::Tue, (8, 0), (9, 0));
    let c = course("c", "T", Weekday::Mon, (10, 0), (11, 0));
    let one = canonical_order(&vec![&a, &b, &c]);
    let other = canonical_order(&vec![&b, &c, &a]);
    let mut t1 = Timetable::new(0, one);
    let mut t2 = Timetable::new(7, other);
    assert_eq!(t1.hash(), t2.hash());
    let codes: Vec<String> = t1.courses.iter().map(|c| c.code.clone()).collect();
    assert_eq!(codes, vec!["a", "c", "b"]);
}

#[test]
fn equal_content_gives_equal_hash() {
    let a1 = course("a", "T", Weekday::Mon, (8, 0), (9, 0));
    let a2 = course("a", "T", Weekday::Mon, (8, 0), (9, 0));
    assert_eq!(a1.hash(), a2.hash());
    let b = course("b", "T", Weekday::Fri, (8, 0), (9, 0));
    assert_eq!(hash_courses(&vec![&a1, &b]), hash_courses(&vec![&a2, &b]));
}

#[test]
fn teacher_change_changes_the_hashes() {
    let a = course("a", "Kovacs", Weekday::Mon, (8, 0), (9, 0));
    let mut changed = course("a", "Kovacs", Weekday::Mon, (8, 0), (9, 0));
    changed.teacher = "Nagy".to_string();
    changed.update_hash();
    assert_ne!(a.hash(), changed.hash());
    assert_ne!(hash_courses(&vec![&a]), hash_courses(&vec![&changed]));
}

#[test]
fn every_hashed_field_counts() {
    let base = course("a", "T", Weekday::Mon, (8, 0), (9, 0));
    let mut variants: Vec<Course> = Vec::new();
    for k in 0..9 {
        let mut c = course("a", "T", Weekday::Mon, (8, 0), (9, 0));
        match k {
            0 => c.subject_name = "Chemistry".to_string(),
            1 => c.course_type = CourseType::Lecture,
            2 => c.enrollment.people_joined = 4,
            3 => c.location = "Lab 3".to_string(),
            4 => c.language = "hu".to_string(),
            5 => c.site = "South".to_string(),
            6 => c.comment = String::new(),
            7 => c.occurrence.weeks = Some(Weeks::Odd),
            _ => c.occurrence.end_time = time(9, 15),
        }
        c.update_hash();
        variants.push(c);
    }
    for v in &variants {
        assert_ne!(v.hash(), base.hash());
    }
}

#[test]
fn presentation_flags_do_not_change_the_hashes() {
    let a = course("a", "T", Weekday::Mon, (8, 0), (9, 0));
    let mut flagged = course("a", "T", Weekday::Mon, (8, 0), (9, 0));
    flagged.is_deleted = true;
    flagged.is_hidden_by_user = true;
    flagged.update_hash();
    assert_eq!(a.hash(), flagged.hash());
    assert!(flagged.is_ignored());
    assert!(!a.is_ignored());
    let mut t1 = Timetable::new(0, vec![&a]);
    let mut t2 = Timetable::new(0, vec![&flagged]);
    assert_eq!(t1.hash(), t2.hash());
}

#[test]
fn hash_shapes() {
    let a = course("a", "T", Weekday::Mon, (8, 0), (9, 0));
    assert_eq!(a.hash().len(), 32);
    let mut t = Timetable::new(0, vec![&a]);
    let h = t.hash();
    assert_eq!(h.len(), 44);
    assert!(h.chars().all(|c| c.is_ascii_alphanumeric() || c == '-' || c == '_' || c == '='));
    assert_eq!(t.hash(), h);
    assert_eq!(t.hash.clone(), Some(h));
}

#[test]
fn empty_timetable_hash_is_the_digest_of_nothing() {
    let mut t = Timetable::new(0, vec![]);
    // SHA-256 of no bytes, in padded URL-safe base64
    assert_eq!(t.hash(), "47DEQpj8HBSa-_TImW-5JCeuQeRkm5NMpJWZG3hSuFU=");
}

#[test]
fn course_encoding_is_length_prefixed() {
    let a = course("ab", "T", Weekday::Tue, (8, 0), (9, 0));
    let bytes = content_bytes_of(&a);
    // "Physics": 8 length bytes, 7 characters of 4 bytes
    assert_eq!(&bytes[0..8], &[7, 0, 0, 0, 0, 0, 0, 0]);
    assert_eq!(&bytes[8..12], &[b'P', 0, 0, 0]);
    // then "ab"
    assert_eq!(&bytes[36..44], &[2, 0, 0, 0, 0, 0, 0, 0]);
    assert_eq!(&bytes[44..48], &[b'a', 0, 0, 0]);
    // the occurrence closes the encoding: weeks, weekday, start, end
    let n = bytes.len();
    assert_eq!(&bytes[n - 10..], &[1, 1, 224, 1, 0, 0, 28, 2, 0, 0]);
}
