//! Canonical order of a timetable's courses (weekday, then start time) and
//! the overlap check that runs on that order.
use vstd::prelude::*;

use crate::data::Course;

verus! {

broadcast use vstd::seq_lib::group_to_multiset_ensures;

/// `a` comes no later than `b`: an earlier weekday, or the same weekday and
/// a start no later.
pub open spec fn key_le(a: &Course, b: &Course) -> bool {
    a.occurrence.weekday.ordinal() < b.occurrence.weekday.ordinal() || (
    a.occurrence.weekday == b.occurrence.weekday && a.occurrence.start_time.minutes
        <= b.occurrence.start_time.minutes)
}

/// The courses are in canonical order.
pub open spec fn is_sorted(s: Seq<&Course>) -> bool {
    forall|i: int, j: int| 0 <= i < j < s.len() ==> key_le(#[trigger] s[i], #[trigger] s[j])
}

/// Where `c` goes in `t`: after every leading course that comes no later than it.
pub open spec fn insert_pos(t: Seq<&Course>, c: &Course) -> nat
    decreases t.len(),
{
    if t.len() == 0 {
        0
    } else if !key_le(t[0], c) {
        0
    } else {
        1 + insert_pos(t.drop_first(), c)
    }
}

/// The canonical arrangement: each course, in input order, inserted after
/// the courses already placed that come no later than it (a stable sort).
pub open spec fn canonical(s: Seq<&Course>) -> Seq<&Course>
    decreases s.len(),
{
    if s.len() == 0 {
        s
    } else {
        let t = canonical(s.drop_last());
        t.insert(insert_pos(t, s.last()) as int, s.last())
    }
}

/// The course at `i + 1` does not start before the course at `i` ends, if
/// both fall on one weekday.
pub open spec fn pair_ok(s: Seq<&Course>, i: int) -> bool {
    s[i].occurrence.weekday == s[i + 1].occurrence.weekday ==> s[i].occurrence.end_time.minutes
        <= s[i + 1].occurrence.start_time.minutes
}

/// No course starts before the previous course of the same weekday ends.
pub open spec fn adjacent_ok(s: Seq<&Course>) -> bool {
    forall|i: int| 0 <= i < s.len() - 1 ==> #[trigger] pair_ok(s, i)
}

/// Two courses of the same weekday whose times properly overlap.
pub open spec fn overlap(a: &Course, b: &Course) -> bool {
    &&& a.occurrence.weekday == b.occurrence.weekday
    &&& b.occurrence.start_time.minutes < a.occurrence.end_time.minutes
    &&& a.occurrence.start_time.minutes < b.occurrence.end_time.minutes
}

proof fn lemma_insert_pos_is(t: Seq<&Course>, c: &Course, j: int)
    requires
        0 <= j <= t.len(),
        forall|m: int| 0 <= m < j ==> key_le(#[trigger] t[m], c),
        j == t.len() || !key_le(t[j], c),
    ensures
        insert_pos(t, c) == j,
    decreases j,
{
    if j > 0 {
        assert(key_le(t[0], c));
        let d = t.drop_first();
        assert forall|m: int| 0 <= m < j - 1 implies key_le(#[trigger] d[m], c) by {
            assert(d[m] == t[m + 1]);
        }
        lemma_insert_pos_is(d, c, j - 1);
    }
}

proof fn lemma_insert_pos_props(t: Seq<&Course>, c: &Course)
    ensures
        insert_pos(t, c) <= t.len(),
        forall|m: int| 0 <= m < insert_pos(t, c) ==> key_le(#[trigger] t[m], c),
        insert_pos(t, c) < t.len() ==> !key_le(t[insert_pos(t, c) as int], c),
    decreases t.len(),
{
    if t.len() > 0 && key_le(t[0], c) {
        let d = t.drop_first();
        lemma_insert_pos_props(d, c);
        assert forall|m: int| 0 <= m < insert_pos(t, c) implies key_le(#[trigger] t[m], c) by {
            if m > 0 {
                assert(t[m] == d[m - 1]);
            }
        }
    }
}

proof fn lemma_insert_sorted(t: Seq<&Course>, c: &Course)
    requires
        is_sorted(t),
    ensures
        is_sorted(t.insert(insert_pos(t, c) as int, c)),
{
    lemma_insert_pos_props(t, c);
    let p = insert_pos(t, c) as int;
    let u = t.insert(p, c);
    assert forall|i: int, j: int| 0 <= i < j < u.len() implies key_le(#[trigger] u[i], #[trigger] u[j]) by {
        if j < p {
            assert(u[i] == t[i] && u[j] == t[j]);
        } else if j == p {
            assert(u[i] == t[i]);
        } else if i == p {
            assert(u[j] == t[j - 1]);
            assert(key_le(t[p], t[j - 1]) || p == j - 1);
        } else if i < p {
            assert(u[i] == t[i] && u[j] == t[j - 1]);
        } else {
            assert(u[i] == t[i - 1] && u[j] == t[j - 1]);
        }
    }
}

/// The canonical arrangement is sorted, and holds the same courses as many times.
pub proof fn lemma_canonical_sorted_permutation(s: Seq<&Course>)
    ensures
        is_sorted(canonical(s)),
        canonical(s).to_multiset() == s.to_multiset(),
        canonical(s).len() == s.len(),
    decreases s.len(),
{
    if s.len() > 0 {
        let t = canonical(s.drop_last());
        lemma_canonical_sorted_permutation(s.drop_last());
        lemma_insert_pos_props(t, s.last());
        lemma_insert_sorted(t, s.last());
        assert(s.drop_last().push(s.last()) =~= s);
    }
}

/// Of two courses on one weekday, the earlier in the sequence ends no later
/// than the later one starts.
pub open spec fn conflict_free(s: Seq<&Course>) -> bool {
    forall|i: int, j: int|
        0 <= i < j < s.len() && #[trigger] s[i].occurrence.weekday
            == #[trigger] s[j].occurrence.weekday ==> s[i].occurrence.end_time.minutes
            <= s[j].occurrence.start_time.minutes
}

/// In canonical order, the adjacent check rules out every overlap.
pub proof fn lemma_adjacent_ok_no_overlap(s: Seq<&Course>)
    requires
        is_sorted(s),
        adjacent_ok(s),
    ensures
        conflict_free(s),
{
    assert forall|i: int, j: int|
        0 <= i < j < s.len() && #[trigger] s[i].occurrence.weekday
            == #[trigger] s[j].occurrence.weekday implies s[i].occurrence.end_time.minutes
        <= s[j].occurrence.start_time.minutes by {
        assert(pair_ok(s, i));
        let a = s[i];
        let b = s[i + 1];
        let c = s[j];
        if i + 1 < j {
            assert(key_le(a, b));
            assert(key_le(b, c));
        }
        assert(a.occurrence.weekday.ordinal() <= b.occurrence.weekday.ordinal());
        assert(b.occurrence.weekday.ordinal() <= c.occurrence.weekday.ordinal());
        assert(b.occurrence.weekday == a.occurrence.weekday);
    }
}

/// No two places of the sequence hold courses with one weekday and one start time.
pub open spec fn distinct_keys(s: Seq<&Course>) -> bool {
    forall|i: int, j: int|
        0 <= i < s.len() && 0 <= j < s.len() && i != j ==> !(key_le(#[trigger] s[i], #[trigger] s[j])
            && key_le(s[j], s[i]))
}

proof fn lemma_distinct_keys_transfer(a: Seq<&Course>, s: Seq<&Course>)
    requires
        a.to_multiset() == s.to_multiset(),
        distinct_keys(a),
    ensures
        distinct_keys(s),
{
    assert(a.no_duplicates()) by {
        assert forall|i: int, j: int| 0 <= i < a.len() && 0 <= j < a.len() && i != j implies a[i]
            != a[j] by {
            if a[i] == a[j] {
                assert(key_le(a[i], a[j]) && key_le(a[j], a[i]));
            }
        }
    }
    a.lemma_multiset_has_no_duplicates();
    s.lemma_multiset_has_no_duplicates_conv();
    assert forall|i: int, j: int|
        0 <= i < s.len() && 0 <= j < s.len() && i != j implies !(key_le(#[trigger] s[i], #[trigger] s[j])
        && key_le(s[j], s[i])) by {
        assert(s.contains(s[i]));
        assert(s.contains(s[j]));
        assert(a.to_multiset().count(s[i]) > 0);
        assert(a.to_multiset().count(s[j]) > 0);
        assert(a.contains(s[i]));
        assert(a.contains(s[j]));
        let p = choose|p: int| 0 <= p < a.len() && a[p] == s[i];
        let q = choose|q: int| 0 <= q < a.len() && a[q] == s[j];
        assert(s[i] != s[j]);
        assert(p != q);
    }
}

/// Two sorted sequences of the same courses, with no shared key, are equal.
proof fn lemma_sorted_unique(s: Seq<&Course>, t: Seq<&Course>)
    requires
        is_sorted(s),
        is_sorted(t),
        s.to_multiset() == t.to_multiset(),
        distinct_keys(s),
    ensures
        s == t,
    decreases s.len(),
{
    vstd::seq_lib::to_multiset_len(s);
    vstd::seq_lib::to_multiset_len(t);
    if s.len() > 0 {
        assert(t.contains(t[0]));
        assert(s.to_multiset().count(t[0]) > 0);
        assert(s.contains(t[0]));
        let i = choose|i: int| 0 <= i < s.len() && s[i] == t[0];
        assert(s.contains(s[0]));
        assert(t.to_multiset().count(s[0]) > 0);
        assert(t.contains(s[0]));
        let j = choose|j: int| 0 <= j < t.len() && t[j] == s[0];
        if s[0] != t[0] {
            assert(i != 0);
            assert(j != 0);
            assert(key_le(s[0], s[i]));
            assert(key_le(t[0], t[j]));
            assert(false);
        }
        let s1 = s.drop_first();
        let t1 = t.drop_first();
        assert(s.remove(0) =~= s1);
        assert(t.remove(0) =~= t1);
        assert(s1.to_multiset() == t1.to_multiset());
        assert(is_sorted(s1)) by {
            assert forall|x: int, y: int| 0 <= x < y < s1.len() implies key_le(#[trigger] s1[x], #[trigger] s1[y]) by {
                assert(s1[x] == s[x + 1] && s1[y] == s[y + 1]);
            }
        }
        assert(is_sorted(t1)) by {
            assert forall|x: int, y: int| 0 <= x < y < t1.len() implies key_le(#[trigger] t1[x], #[trigger] t1[y]) by {
                assert(t1[x] == t[x + 1] && t1[y] == t[y + 1]);
            }
        }
        assert(distinct_keys(s1)) by {
            assert forall|x: int, y: int|
                0 <= x < s1.len() && 0 <= y < s1.len() && x != y implies !(key_le(#[trigger] s1[x], #[trigger] s1[y])
                && key_le(s1[y], s1[x])) by {
                assert(s1[x] == s[x + 1] && s1[y] == s[y + 1]);
            }
        }
        lemma_sorted_unique(s1, t1);
        assert(s =~= t) by {
            assert forall|x: int| 0 <= x < s.len() implies s[x] == t[x] by {
                if x > 0 {
                    assert(s[x] == s1[x - 1] && t[x] == t1[x - 1]);
                }
            }
        }
    }
}

/// The canonical order does not depend on the order in which the courses
/// come, when no two of them share a weekday and a start time.
pub proof fn lemma_canonical_ignores_order(a: Seq<&Course>, b: Seq<&Course>)
    requires
        a.to_multiset() == b.to_multiset(),
        distinct_keys(a),
    ensures
        canonical(a) == canonical(b),
{
    lemma_canonical_sorted_permutation(a);
    lemma_canonical_sorted_permutation(b);
    lemma_distinct_keys_transfer(a, canonical(a));
    lemma_sorted_unique(canonical(a), canonical(b));
}

fn comes_no_later(a: &Course, b: &Course) -> (r: bool)
    ensures
        r == key_le(a, b),
{
    let da = a.occurrence.weekday.num_days_from_monday();
    let db = b.occurrence.weekday.num_days_from_monday();
    da < db || (da == db && a.occurrence.start_time.minutes <= b.occurrence.start_time.minutes)
}

/// The courses in canonical order: by weekday, then start time, courses
/// with equal keys kept in input order.
pub fn canonical_order<'a>(courses: &Vec<&'a Course>) -> (r: Vec<&'a Course>)
    ensures
        r@ == canonical(courses@),
        is_sorted(r@),
        r@.to_multiset() == courses@.to_multiset(),
        r@.len() == courses@.len(),
{
    let mut out: Vec<&'a Course> = Vec::new();
    let mut i: usize = 0;
    while i < courses.len()
        invariant
            i <= courses@.len(),
            out@ == canonical(courses@.subrange(0, i as int)),
        decreases courses@.len() - i,
    {
        let c: &'a Course = courses[i];
        let mut j: usize = 0;
        while j < out.len() && comes_no_later(out[j], c)
            invariant
                j <= out@.len(),
                forall|m: int| 0 <= m < j ==> key_le(#[trigger] out@[m], c),
            decreases out@.len() - j,
        {
            j = j + 1;
        }
        proof {
            lemma_insert_pos_is(out@, c, j as int);
            let next = courses@.subrange(0, i + 1);
            assert(next.drop_last() =~= courses@.subrange(0, i as int));
            assert(next.last() == c);
        }
        out.insert(j, c);
        i = i + 1;
    }
    proof {
        assert(courses@.subrange(0, courses@.len() as int) =~= courses@);
        lemma_canonical_sorted_permutation(courses@);
    }
    out
}

/// Whether no course starts before the previous course of its weekday ends.
pub fn no_adjacent_overlap(courses: &Vec<&Course>) -> (r: bool)
    ensures
        r == adjacent_ok(courses@),
{
    let n = courses.len();
    if n < 2 {
        return true;
    }
    let mut i: usize = 0;
    while i + 1 < n
        invariant
            n == courses@.len(),
            n >= 2,
            i + 1 <= n,
            forall|k: int| 0 <= k < i ==> #[trigger] pair_ok(courses@, k),
        decreases n - i,
    {
        let cur = courses[i];
        let next = courses[i + 1];
        if cur.occurrence.weekday == next.occurrence.weekday
            && next.occurrence.start_time.minutes < cur.occurrence.end_time.minutes {
            assert(!pair_ok(courses@, i as int));
            return false;
        }
        i = i + 1;
    }
    true
}

} // verus!
