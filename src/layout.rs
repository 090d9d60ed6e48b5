//! Geometry of a timetable picture: a column per day from Monday to
//! Saturday, a row per minute from the start of the day, and a coloured box
//! per course. Only positions and colours are computed here.
use vstd::prelude::*;

use std::collections::hash_map::DefaultHasher;
use std::hash::Hasher;
use vstd::std_specs::hash::DefaultHasherAdditionalSpecFns;
use vstd::string::StringSliceAdditionalSpecFns;
use vstd::utf8::encode_utf8;

use crate::data::{Course, TimeOfDay};

verus! {

pub const HEADER_HEIGHT: u32 = 50;

pub const TIMES_WIDTH: u32 = 100;

pub const DAY_WIDTH: u32 = 150;

/// Monday to Saturday.
pub const DAY_COUNT: u32 = 6;

pub const PADDING: i32 = 5;

pub const CANVAS_WIDTH: u32 = 1000;

pub const VERTICAL_LINE_THICKNESS: u32 = 4;

/// An axis-aligned rectangle: top-left corner and size, in pixels.
#[derive(Clone, Copy, Debug, PartialEq, Eq, Structural)]
pub struct Rect {
    pub x: i32,
    pub y: i32,
    pub width: u32,
    pub height: u32,
}

/// The most hours a picture can show: every row then fits an `i32`.
pub const MAX_HOURS: u32 = 35_791_393;

/// A colour as red, green and blue.
pub type Rgb = (u8, u8, u8);

pub const WHITE: Rgb = (255, 255, 255);

pub const BLACK: Rgb = (0, 0, 0);

/// The colour that the low three bytes of a hash give: red, green, blue.
pub open spec fn color_of_hash(h: u64) -> Rgb {
    ((h & 0xff) as u8, ((h >> 8u64) & 0xff) as u8, ((h >> 16u64) & 0xff) as u8)
}

/// What std's default hasher gives for a text: its bytes, then the byte 0xff.
pub open spec fn text_hash(s: Seq<char>) -> u64 {
    DefaultHasher::spec_finish(seq![encode_utf8(s), seq![0xffu8]])
}

/// The background colour of a course's box, from the hash of its code.
pub fn color_hash(course_code: &str) -> (r: Rgb)
    ensures
        r == color_of_hash(text_hash(course_code@)),
{
    let mut hasher = DefaultHasher::new();
    hasher.write(course_code.as_bytes());
    let end: [u8; 1] = [0xff];
    hasher.write(&end);
    proof {
        assert(end@ =~= seq![0xffu8]);
        assert(hasher@ =~= seq![course_code.spec_bytes(), seq![0xffu8]]);
    }
    let hash = hasher.finish();
    ((hash & 0xff) as u8, ((hash >> 8u64) & 0xff) as u8, ((hash >> 16u64) & 0xff) as u8)
}

/// The text colour on a background: white on a dark one (mean of the three
/// components below 128), black on a light one.
pub open spec fn foreground_of(bg: Rgb) -> Rgb {
    if (bg.0 as int + bg.1 as int + bg.2 as int) / 3 <= 127 {
        WHITE
    } else {
        BLACK
    }
}

pub fn foreground(bg: Rgb) -> (r: Rgb)
    ensures
        r == foreground_of(bg),
{
    let mean = (bg.0 as u16 + bg.1 as u16 + bg.2 as u16) / 3;
    if mean <= 127 {
        WHITE
    } else {
        BLACK
    }
}

/// The rectangle of a line `thickness` wide from `start` to `end`, centred
/// on it: horizontal where both ends share a row, vertical otherwise.
pub open spec fn thick_line(start: (u32, u32), end: (u32, u32), thickness: u32) -> Rect {
    let half = thickness / 2;
    if start.1 == end.1 {
        Rect {
            x: start.0 as i32,
            y: (start.1 - half) as i32,
            width: (end.0 - start.0) as u32,
            height: thickness,
        }
    } else {
        Rect {
            x: (start.0 - half) as i32,
            y: start.1 as i32,
            width: thickness,
            height: (end.1 - start.1) as u32,
        }
    }
}

pub fn draw_thick_line(start: (u32, u32), end: (u32, u32), thickness: u32) -> (r: Rect)
    requires
        start.0 <= end.0,
        start.1 <= end.1,
        start.0 <= i32::MAX,
        start.1 <= i32::MAX,
        start.1 == end.1 ==> thickness / 2 <= start.1,
        start.1 != end.1 ==> thickness / 2 <= start.0,
    ensures
        r == thick_line(start, end, thickness),
{
    let half = thickness / 2;
    if start.1 == end.1 {
        Rect {
            x: start.0 as i32,
            y: (start.1 - half) as i32,
            width: end.0 - start.0,
            height: thickness,
        }
    } else {
        Rect {
            x: (start.0 - half) as i32,
            y: start.1 as i32,
            width: thickness,
            height: end.1 - start.1,
        }
    }
}

/// The thin lines every half hour across the picture, `hours` hours long:
/// line `k` lies `30 * k` rows below the header.
pub fn draw_half_hour_lines(hours: u32) -> (r: Vec<Rect>)
    requires
        hours <= MAX_HOURS,
    ensures
        r@.len() == 2 * hours,
        forall|k: int|
            0 <= k < r@.len() ==> #[trigger] r@[k] == thick_line(
                (0, (HEADER_HEIGHT + 30 * k) as u32),
                (CANVAS_WIDTH, (HEADER_HEIGHT + 30 * k) as u32),
                2,
            ),
{
    let mut out: Vec<Rect> = Vec::new();
    let mut k: u32 = 0;
    while k < 2 * hours
        invariant
            hours <= MAX_HOURS,
            k <= 2 * hours,
            out@.len() == k,
            forall|j: int|
                0 <= j < k ==> #[trigger] out@[j] == thick_line(
                    (0, (HEADER_HEIGHT + 30 * j) as u32),
                    (CANVAS_WIDTH, (HEADER_HEIGHT + 30 * j) as u32),
                    2,
                ),
        decreases 2 * hours - k,
    {
        let y = HEADER_HEIGHT + 30 * k;
        out.push(draw_thick_line((0, y), (CANVAS_WIDTH, y), 2));
        k = k + 1;
    }
    out
}

/// The thick lines every hour across the picture, `hours` hours long, each
/// with the place of its time label: line `k` lies `60 * k` rows below the
/// header.
pub fn draw_hour_lines(hours: u32) -> (r: Vec<(Rect, i32)>)
    requires
        hours <= MAX_HOURS,
    ensures
        r@.len() == hours,
        forall|k: int|
            0 <= k < r@.len() ==> #[trigger] r@[k] == (
                thick_line(
                    (0, (HEADER_HEIGHT + 60 * k) as u32),
                    (CANVAS_WIDTH, (HEADER_HEIGHT + 60 * k) as u32),
                    4,
                ),
                (HEADER_HEIGHT + 60 * k + PADDING) as i32,
            ),
{
    let mut out: Vec<(Rect, i32)> = Vec::new();
    let mut k: u32 = 0;
    while k < hours
        invariant
            hours <= MAX_HOURS,
            k <= hours,
            out@.len() == k,
            forall|j: int|
                0 <= j < k ==> #[trigger] out@[j] == (
                    thick_line(
                        (0, (HEADER_HEIGHT + 60 * j) as u32),
                        (CANVAS_WIDTH, (HEADER_HEIGHT + 60 * j) as u32),
                        4,
                    ),
                    (HEADER_HEIGHT + 60 * j + PADDING) as i32,
                ),
        decreases hours - k,
    {
        let y = HEADER_HEIGHT + 60 * k;
        out.push((draw_thick_line((0, y), (CANVAS_WIDTH, y), 4), y as i32 + PADDING));
        k = k + 1;
    }
    out
}

/// The vertical lines before each day's column, down the whole picture.
pub fn draw_day_lines(canvas_height: u32) -> (r: Vec<Rect>)
    requires
        canvas_height > 0,
    ensures
        r@.len() == DAY_COUNT,
        forall|d: int|
            0 <= d < r@.len() ==> #[trigger] r@[d] == thick_line(
                ((TIMES_WIDTH + DAY_WIDTH * d) as u32, 0),
                ((TIMES_WIDTH + DAY_WIDTH * d) as u32, canvas_height),
                VERTICAL_LINE_THICKNESS,
            ),
{
    let mut out: Vec<Rect> = Vec::new();
    let mut d: u32 = 0;
    while d < DAY_COUNT
        invariant
            canvas_height > 0,
            d <= DAY_COUNT,
            out@.len() == d,
            forall|j: int|
                0 <= j < d ==> #[trigger] out@[j] == thick_line(
                    ((TIMES_WIDTH + DAY_WIDTH * j) as u32, 0),
                    ((TIMES_WIDTH + DAY_WIDTH * j) as u32, canvas_height),
                    VERTICAL_LINE_THICKNESS,
                ),
        decreases DAY_COUNT - d,
    {
        let x = TIMES_WIDTH + DAY_WIDTH * d;
        out.push(draw_thick_line((x, 0), (x, canvas_height), VERTICAL_LINE_THICKNESS));
        d = d + 1;
    }
    out
}

/// Where and how a course is drawn.
#[derive(Clone, Copy, Debug)]
pub struct CourseBox {
    pub rect: Rect,
    pub background: Rgb,
    pub foreground: Rgb,
    /// Top-left corner of the course code.
    pub text_x: i32,
    pub text_y: i32,
}

/// The box of a course in a picture whose first row is `day_start`: its
/// day's column less the line width, from its start to its end (no height
/// where the end does not follow the start), coloured by its code.
pub open spec fn course_rect(c: &Course, day_start: TimeOfDay) -> Rect {
    let x = TIMES_WIDTH + c.occurrence.weekday.ordinal() * DAY_WIDTH + VERTICAL_LINE_THICKNESS / 2;
    let y = HEADER_HEIGHT + c.occurrence.start_time.minutes - day_start.minutes;
    let len = c.occurrence.end_time.minutes - c.occurrence.start_time.minutes;
    Rect {
        x: x as i32,
        y: y as i32,
        width: (DAY_WIDTH - VERTICAL_LINE_THICKNESS) as u32,
        height: if len > 0 {
            len as u32
        } else {
            0
        },
    }
}

/// The box of a course; `None` for a course without schedule (start 00:00).
pub fn course_box(course: &Course, day_start: TimeOfDay) -> (r: Option<CourseBox>)
    requires
        day_start.minutes < 1440,
        course.occurrence.start_time.minutes < 1440,
        course.occurrence.end_time.minutes < 1440,
    ensures
        course.occurrence.start_time.minutes == 0 <==> r is None,
        r matches Some(b) ==> b.rect == course_rect(course, day_start) && b.background
            == color_of_hash(text_hash(course.code@)) && b.foreground == foreground_of(
            b.background,
        ) && b.text_x == b.rect.x + PADDING && b.text_y == b.rect.y + PADDING,
{
    let occ = &course.occurrence;
    if occ.start_time.minutes == 0 {
        return None;
    }
    let day = occ.weekday.num_days_from_monday() as u32;
    let x = TIMES_WIDTH + day * DAY_WIDTH + VERTICAL_LINE_THICKNESS / 2;
    let y = HEADER_HEIGHT as i32 + occ.start_time.minutes as i32 - day_start.minutes as i32;
    let height: u32 = if occ.end_time.minutes > occ.start_time.minutes {
        occ.end_time.minutes - occ.start_time.minutes
    } else {
        0
    };
    let rect = Rect { x: x as i32, y, width: DAY_WIDTH - VERTICAL_LINE_THICKNESS, height };
    let background = color_hash(course.code.as_str());
    Some(
        CourseBox {
            rect,
            background,
            foreground: foreground(background),
            text_x: rect.x + PADDING,
            text_y: rect.y + PADDING,
        },
    )
}

} // verus!
