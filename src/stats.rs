//! Counts over a catalog that ignore deleted and hidden courses.
use vstd::prelude::*;

use crate::data::{Course, OneOfCourse, Subject};

verus! {

/// The course takes part: neither deleted nor hidden.
pub open spec fn is_active(c: Course) -> bool {
    !(c.is_deleted || c.is_hidden_by_user)
}

/// How many courses of the group take part.
pub open spec fn active_count(g: Seq<Course>) -> nat
    decreases g.len(),
{
    if g.len() == 0 {
        0
    } else {
        active_count(g.drop_last()) + if is_active(g.last()) {
            1nat
        } else {
            0nat
        }
    }
}

/// The active courses of all the groups.
pub open spec fn groups_course_total(gs: Seq<OneOfCourse>) -> nat
    decreases gs.len(),
{
    if gs.len() == 0 {
        0
    } else {
        groups_course_total(gs.drop_last()) + active_count(gs.last()@)
    }
}

/// The groups that have an active course.
pub open spec fn groups_live(gs: Seq<OneOfCourse>) -> nat
    decreases gs.len(),
{
    if gs.len() == 0 {
        0
    } else {
        groups_live(gs.drop_last()) + if active_count(gs.last()@) > 0 {
            1nat
        } else {
            0nat
        }
    }
}

/// The product of the active counts of the groups that have an active course.
pub open spec fn groups_product(gs: Seq<OneOfCourse>) -> nat
    decreases gs.len(),
{
    if gs.len() == 0 {
        1
    } else if active_count(gs.last()@) > 0 {
        groups_product(gs.drop_last()) * active_count(gs.last()@)
    } else {
        groups_product(gs.drop_last())
    }
}

pub open spec fn course_total(ss: Seq<Subject>) -> nat
    decreases ss.len(),
{
    if ss.len() == 0 {
        0
    } else {
        course_total(ss.drop_last()) + groups_course_total(ss.last().courses@)
    }
}

pub open spec fn live_group_total(ss: Seq<Subject>) -> nat
    decreases ss.len(),
{
    if ss.len() == 0 {
        0
    } else {
        live_group_total(ss.drop_last()) + groups_live(ss.last().courses@)
    }
}

pub open spec fn timetable_total(ss: Seq<Subject>) -> nat
    decreases ss.len(),
{
    if ss.len() == 0 {
        1
    } else {
        timetable_total(ss.drop_last()) * groups_product(ss.last().courses@)
    }
}

proof fn lemma_active_count_le(g: Seq<Course>)
    ensures
        active_count(g) <= g.len(),
    decreases g.len(),
{
    if g.len() > 0 {
        lemma_active_count_le(g.drop_last());
    }
}

/// How many courses of the group are neither deleted nor hidden.
pub fn count_one_of_courses(courses: &OneOfCourse) -> (r: u64)
    ensures
        r == active_count(courses@),
{
    let mut n: u64 = 0;
    let mut i: usize = 0;
    while i < courses.len()
        invariant
            i <= courses@.len(),
            n == active_count(courses@.subrange(0, i as int)),
        decreases courses@.len() - i,
    {
        proof {
            let next = courses@.subrange(0, i + 1);
            assert(next.drop_last() =~= courses@.subrange(0, i as int));
            lemma_active_count_le(courses@.subrange(0, i as int));
        }
        if !courses[i].is_ignored() {
            n = n + 1;
        }
        i = i + 1;
    }
    assert(courses@.subrange(0, courses@.len() as int) =~= courses@);
    n
}

fn groups_counts(groups: &Vec<OneOfCourse>) -> (r: (u64, u64, Option<u64>))
    requires
        groups_course_total(groups@) <= u64::MAX,
    ensures
        r.0 == groups_course_total(groups@),
        r.1 == groups_live(groups@),
        r.2 == if groups_product(groups@) <= u64::MAX {
            Some(groups_product(groups@) as u64)
        } else {
            None::<u64>
        },
{
    let mut total: u64 = 0;
    let mut live: u64 = 0;
    let mut product: Option<u64> = Some(1);
    let mut i: usize = 0;
    while i < groups.len()
        invariant
            i <= groups@.len(),
            groups_course_total(groups@) <= u64::MAX,
            total == groups_course_total(groups@.subrange(0, i as int)),
            live == groups_live(groups@.subrange(0, i as int)),
            live <= i,
            product == if groups_product(groups@.subrange(0, i as int)) <= u64::MAX {
                Some(groups_product(groups@.subrange(0, i as int)) as u64)
            } else {
                None::<u64>
            },
        decreases groups@.len() - i,
    {
        let ghost pre = groups@.subrange(0, i as int);
        proof {
            let next = groups@.subrange(0, i + 1);
            assert(next.drop_last() =~= pre);
            lemma_groups_total_prefix(groups@, i + 1);
        }
        let c = count_one_of_courses(&groups[i]);
        total = total + c;
        if c > 0 {
            live = live + 1;
            product = match product {
                Some(p) => p.checked_mul(c),
                None => {
                    proof {
                        lemma_product_grows(groups_product(pre), c as nat);
                    }
                    None
                },
            };
        }
        i = i + 1;
    }
    assert(groups@.subrange(0, groups@.len() as int) =~= groups@);
    (total, live, product)
}

proof fn lemma_product_grows(p: nat, c: nat)
    requires
        c >= 1,
    ensures
        p * c >= p,
{
    assert(p * c >= p) by (nonlinear_arith)
        requires
            c >= 1,
    ;
}

proof fn lemma_groups_total_prefix(gs: Seq<OneOfCourse>, n: int)
    requires
        0 <= n <= gs.len(),
    ensures
        groups_course_total(gs.subrange(0, n)) <= groups_course_total(gs),
    decreases gs.len(),
{
    if n < gs.len() {
        lemma_groups_total_prefix(gs.drop_last(), n);
        assert(gs.drop_last().subrange(0, n) =~= gs.subrange(0, n));
    } else {
        assert(gs.subrange(0, n) =~= gs);
    }
}

proof fn lemma_course_total_prefix(ss: Seq<Subject>, n: int)
    requires
        0 <= n <= ss.len(),
    ensures
        course_total(ss.subrange(0, n)) <= course_total(ss),
    decreases ss.len(),
{
    if n < ss.len() {
        lemma_course_total_prefix(ss.drop_last(), n);
        assert(ss.drop_last().subrange(0, n) =~= ss.subrange(0, n));
    } else {
        assert(ss.subrange(0, n) =~= ss);
    }
}

/// The three counts of a catalog: active courses, groups with an active
/// course, and timetables (`None` where that number exceeds 64 bits).
fn catalog_counts(subjects: &[Subject]) -> (r: (u64, u64, Option<u64>))
    requires
        course_total(subjects@) <= u64::MAX,
    ensures
        r.0 == course_total(subjects@),
        r.1 == live_group_total(subjects@),
        r.2 == if timetable_total(subjects@) <= u64::MAX {
            Some(timetable_total(subjects@) as u64)
        } else {
            None::<u64>
        },
{
    let mut total: u64 = 0;
    let mut live: u64 = 0;
    let mut product: Option<u64> = Some(1);
    let mut i: usize = 0;
    while i < subjects.len()
        invariant
            i <= subjects@.len(),
            course_total(subjects@) <= u64::MAX,
            total == course_total(subjects@.subrange(0, i as int)),
            live == live_group_total(subjects@.subrange(0, i as int)),
            live <= total,
            product == if timetable_total(subjects@.subrange(0, i as int)) <= u64::MAX {
                Some(timetable_total(subjects@.subrange(0, i as int)) as u64)
            } else {
                None::<u64>
            },
        decreases subjects@.len() - i,
    {
        let ghost pre = subjects@.subrange(0, i as int);
        proof {
            let next = subjects@.subrange(0, i + 1);
            assert(next.drop_last() =~= pre);
            lemma_course_total_prefix(subjects@, i + 1);
            lemma_live_le_total(subjects@[i as int].courses@);
            lemma_groups_product_positive(subjects@[i as int].courses@);
            lemma_product_positive(pre);
        }
        let (t, l, p) = groups_counts(&subjects[i].courses);
        total = total + t;
        live = live + l;
        product = match (product, p) {
            (Some(a), Some(b)) => a.checked_mul(b),
            (None, Some(b)) => {
                proof {
                    lemma_zero_or_grows(timetable_total(pre), b as nat);
                }
                None
            },
            (Some(a), None) => {
                proof {
                    lemma_zero_or_grows(groups_product(subjects@[i as int].courses@), a as nat);
                    lemma_product_positive(pre);
                }
                None
            },
            (None, None) => {
                proof {
                    lemma_zero_or_grows(timetable_total(pre), groups_product(subjects@[i as int].courses@));
                }
                None
            },
        };
        i = i + 1;
    }
    assert(subjects@.subrange(0, subjects@.len() as int) =~= subjects@);
    (total, live, product)
}

proof fn lemma_zero_or_grows(p: nat, c: nat)
    requires
        c >= 1,
    ensures
        p * c >= p,
        c * p >= p,
{
    assert(p * c >= p && c * p >= p) by (nonlinear_arith)
        requires
            c >= 1,
    ;
}

proof fn lemma_groups_product_positive(gs: Seq<OneOfCourse>)
    ensures
        groups_product(gs) >= 1,
    decreases gs.len(),
{
    if gs.len() > 0 {
        lemma_groups_product_positive(gs.drop_last());
        if active_count(gs.last()@) > 0 {
            lemma_zero_or_grows(groups_product(gs.drop_last()), active_count(gs.last()@));
        }
    }
}

proof fn lemma_product_positive(ss: Seq<Subject>)
    ensures
        timetable_total(ss) >= 1,
    decreases ss.len(),
{
    if ss.len() > 0 {
        lemma_product_positive(ss.drop_last());
        lemma_groups_product_positive(ss.last().courses@);
        lemma_zero_or_grows(groups_product(ss.last().courses@), timetable_total(ss.drop_last()));
    }
}

proof fn lemma_live_le_total(gs: Seq<OneOfCourse>)
    ensures
        groups_live(gs) <= groups_course_total(gs),
    decreases gs.len(),
{
    if gs.len() > 0 {
        lemma_live_le_total(gs.drop_last());
    }
}

/// How many courses of the catalog are neither deleted nor hidden.
pub fn count_all_courses(subjects: &[Subject]) -> (r: u64)
    requires
        course_total(subjects@) <= u64::MAX,
    ensures
        r == course_total(subjects@),
{
    catalog_counts(subjects).0
}

/// How many courses a timetable of the catalog holds: one per group that
/// has an active course.
pub fn count_course_per_timetable(subjects: &[Subject]) -> (r: u64)
    requires
        course_total(subjects@) <= u64::MAX,
    ensures
        r == live_group_total(subjects@),
{
    catalog_counts(subjects).1
}

/// How many timetables the active courses allow before the overlap check:
/// the product, over the groups with an active course, of their active
/// counts; `None` where that exceeds 64 bits.
pub fn count_all_timetables(subjects: &[Subject]) -> (r: Option<u64>)
    requires
        course_total(subjects@) <= u64::MAX,
    ensures
        r == if timetable_total(subjects@) <= u64::MAX {
            Some(timetable_total(subjects@) as u64)
        } else {
            None::<u64>
        },
{
    catalog_counts(subjects).2
}

} // verus!
