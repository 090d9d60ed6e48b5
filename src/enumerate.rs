//! The enumerator: every selection of one course per alternative group, in
//! canonical order, without the selections whose courses overlap.
use vstd::prelude::*;

use crate::canonical::{
    adjacent_ok, canonical, canonical_order, conflict_free, is_sorted,
    lemma_adjacent_ok_no_overlap, no_adjacent_overlap,
};
use crate::data::{Course, Subject, Timetable};

verus! {

/// Why a catalog cannot be enumerated.
#[derive(Clone, Copy, Debug, PartialEq, Eq, Structural)]
pub enum CatalogError {
    /// Group `group` of subject `subject` (both counted from 0) has no course.
    EmptyGroup { subject: usize, group: usize },
    /// The number of selections does not fit in a machine word.
    TooManyCandidates,
}

/// The product of `sizes[k..]`.
pub open spec fn product_from(sizes: Seq<int>, k: int) -> int
    decreases sizes.len() - k,
{
    if 0 <= k < sizes.len() {
        sizes[k] * product_from(sizes, k + 1)
    } else {
        1
    }
}

/// Where the `i`-th combination stands in axis `k`, when the combinations
/// run in lexicographic order with the last axis varying fastest.
pub open spec fn digit(sizes: Seq<int>, i: int, k: int) -> int {
    (i / product_from(sizes, k + 1)) % sizes[k]
}

pub open spec fn domain_sizes(ds: Seq<Vec<usize>>) -> Seq<int> {
    Seq::new(ds.len(), |k: int| ds[k]@.len() as int)
}

/// Relies on permutator's `CartesianProduct::cart_prod` for a vector of slices:
/// it yields one vector per combination of one element from each domain,
/// first domain slowest and last fastest; it needs at least one domain, and
/// no empty one.
#[verifier::external_body]
fn cartesian_product(domains: &Vec<Vec<usize>>) -> (r: Vec<Vec<usize>>)
    requires
        domains@.len() > 0,
        forall|k: int| 0 <= k < domains@.len() ==> #[trigger] domains@[k]@.len() > 0,
        product_from(domain_sizes(domains@), 0) <= usize::MAX,
    ensures
        r@.len() == product_from(domain_sizes(domains@), 0),
        forall|i: int| 0 <= i < r@.len() ==> #[trigger] r@[i]@.len() == domains@.len(),
        forall|i: int, k: int|
            0 <= i < r@.len() && 0 <= k < domains@.len() ==> #[trigger] r@[i]@[k]
                == domains@[k]@[digit(domain_sizes(domains@), i, k)],
{
    let slices: Vec<&[usize]> = domains.iter().map(|d| d.as_slice()).collect();
    permutator::CartesianProduct::cart_prod(&slices).map(
        |p: Vec<&usize>| p.into_iter().copied().collect(),
    ).collect()
}

/// The groups of the first `n` subjects, subject by subject.
pub open spec fn groups_upto<'a>(subjects: &'a [Subject], n: int) -> Seq<&'a Vec<Course>>
    decreases n,
{
    if n <= 0 {
        seq![]
    } else {
        groups_upto(subjects, n - 1) + Seq::new(
            subjects@[n - 1].courses@.len(),
            |g: int| &subjects@[n - 1].courses@[g],
        )
    }
}

/// Every alternative group of the catalog, one axis each.
pub open spec fn all_groups<'a>(subjects: &'a [Subject]) -> Seq<&'a Vec<Course>> {
    groups_upto(subjects, subjects@.len() as int)
}

pub open spec fn group_sizes(gs: Seq<&Vec<Course>>) -> Seq<int> {
    Seq::new(gs.len(), |k: int| gs[k]@.len() as int)
}

/// Group `group` of subject `subject` exists and is empty.
pub open spec fn is_empty_group(subjects: &[Subject], subject: int, group: int) -> bool {
    &&& 0 <= subject < subjects@.len()
    &&& 0 <= group < subjects@[subject].courses@.len()
    &&& subjects@[subject].courses@[group]@.len() == 0
}

pub open spec fn has_empty_group(subjects: &[Subject]) -> bool {
    exists|s: int, g: int| is_empty_group(subjects, s, g)
}

/// The number of selections before the overlap check: the product of the group sizes.
pub open spec fn raw_count(subjects: &[Subject]) -> int {
    product_from(group_sizes(all_groups(subjects)), 0)
}

/// The `i`-th selection, in the order of the groups.
pub open spec fn selection<'a>(gs: Seq<&'a Vec<Course>>, i: int) -> Seq<&'a Course> {
    Seq::new(gs.len(), |k: int| &gs[k]@[digit(group_sizes(gs), i, k)])
}

/// The numbers, below `n`, of the selections whose canonical order has no overlap.
pub open spec fn kept(gs: Seq<&Vec<Course>>, n: int) -> Seq<int>
    decreases n,
{
    if n <= 0 {
        seq![]
    } else if adjacent_ok(canonical(selection(gs, n - 1))) {
        kept(gs, n - 1).push(n - 1)
    } else {
        kept(gs, n - 1)
    }
}

proof fn lemma_product_positive(sizes: Seq<int>, k: int)
    requires
        forall|j: int| 0 <= j < sizes.len() ==> #[trigger] sizes[j] > 0,
    ensures
        product_from(sizes, k) > 0,
    decreases sizes.len() - k,
{
    if 0 <= k < sizes.len() {
        lemma_product_positive(sizes, k + 1);
        vstd::arithmetic::mul::lemma_mul_strictly_positive(sizes[k], product_from(sizes, k + 1));
    }
}

proof fn lemma_digit_bound(sizes: Seq<int>, i: int, k: int)
    requires
        forall|j: int| 0 <= j < sizes.len() ==> #[trigger] sizes[j] > 0,
        0 <= k < sizes.len(),
        0 <= i,
    ensures
        0 <= digit(sizes, i, k) < sizes[k],
{
    lemma_product_positive(sizes, k + 1);
    vstd::arithmetic::div_mod::lemma_mod_bound(i / product_from(sizes, k + 1), sizes[k]);
}

/// Every alternative group, checked non-empty.
fn collect_groups<'a>(subjects: &'a [Subject]) -> (r: Result<Vec<&'a Vec<Course>>, CatalogError>)
    ensures
        r matches Ok(gs) ==> gs@ == all_groups(subjects) && !has_empty_group(subjects),
        r matches Err(e) ==> e matches CatalogError::EmptyGroup { subject, group } && is_empty_group(
            subjects,
            subject as int,
            group as int,
        ),
{
    let mut groups: Vec<&'a Vec<Course>> = Vec::new();
    let mut s: usize = 0;
    while s < subjects.len()
        invariant
            s <= subjects@.len(),
            groups@ == groups_upto(subjects, s as int),
            forall|s2: int, g2: int| 0 <= s2 < s ==> !is_empty_group(subjects, s2, g2),
        decreases subjects@.len() - s,
    {
        let subject = &subjects[s];
        let ghost before = groups@;
        let mut g: usize = 0;
        while g < subject.courses.len()
            invariant
                s < subjects@.len(),
                *subject == subjects@[s as int],
                g <= subject.courses@.len(),
                groups@ == before + Seq::new(g as nat, |j: int| &subjects@[s as int].courses@[j]),
                forall|g2: int| 0 <= g2 < g ==> !is_empty_group(subjects, s as int, g2),
            decreases subject.courses@.len() - g,
        {
            let group = &subject.courses[g];
            if group.len() == 0 {
                return Err(CatalogError::EmptyGroup { subject: s, group: g });
            }
            groups.push(group);
            assert(groups@ =~= before + Seq::new(
                (g + 1) as nat,
                |j: int| &subjects@[s as int].courses@[j],
            ));
            g = g + 1;
        }
        assert(groups@ =~= groups_upto(subjects, s + 1));
        s = s + 1;
    }
    Ok(groups)
}

/// Every selection of one course per group, before the overlap check: the
/// `i`-th takes from each group the course that `digit` names, so that the
/// selections run through all combinations, the last group varying fastest.
/// A catalog without groups has one selection, the empty one.
pub fn raw_candidates<'a>(subjects: &'a [Subject]) -> (r: Result<Vec<Vec<&'a Course>>, CatalogError>)
    ensures
        has_empty_group(subjects) <==> r matches Err(CatalogError::EmptyGroup { .. }),
        r matches Err(CatalogError::EmptyGroup { subject, group }) ==> is_empty_group(
            subjects,
            subject as int,
            group as int,
        ),
        r matches Err(CatalogError::TooManyCandidates) <==> !has_empty_group(subjects) && raw_count(
            subjects,
        ) > usize::MAX,
        r matches Ok(v) ==> v@.len() == raw_count(subjects) && forall|i: int|
            0 <= i < v@.len() ==> (#[trigger] v@[i])@ == selection(all_groups(subjects), i),
{
    let groups = match collect_groups(subjects) {
        Ok(gs) => gs,
        Err(e) => return Err(e),
    };
    let ghost gs = groups@;
    let ghost sizes = group_sizes(gs);
    let n = groups.len();
    assert forall|j: int| 0 <= j < sizes.len() implies #[trigger] sizes[j] > 0 by {
        assert(gs[j] == all_groups(subjects)[j]);
        lemma_all_groups_nonempty(subjects, j);
    }
    // the product of the sizes, from the last group back
    let mut total: usize = 1;
    let mut k: usize = n;
    while k > 0
        invariant
            k <= n,
            n == gs.len(),
            groups@ == gs,
            gs == all_groups(subjects),
            !has_empty_group(subjects),
            sizes == group_sizes(gs),
            forall|j: int| 0 <= j < sizes.len() ==> #[trigger] sizes[j] > 0,
            total == product_from(sizes, k as int),
        decreases k,
    {
        let size = groups[k - 1].len();
        match total.checked_mul(size) {
            Some(t) => {
                total = t;
            },
            None => {
                proof {
                    assert(sizes[k - 1] == size);
                    vstd::arithmetic::mul::lemma_mul_is_commutative(total as int, size as int);
                    lemma_product_monotone(sizes, 0, (k - 1) as int);
                }
                return Err(CatalogError::TooManyCandidates);
            },
        }
        k = k - 1;
    }
    let mut out: Vec<Vec<&'a Course>> = Vec::new();
    if n == 0 {
        out.push(Vec::new());
        assert(selection(gs, 0) =~= Seq::<&Course>::empty());
        return Ok(out);
    }
    // the index domains 0..size of each group
    let mut domains: Vec<Vec<usize>> = Vec::new();
    let mut k: usize = 0;
    while k < n
        invariant
            k <= n,
            n == gs.len(),
            groups@ == gs,
            domains@.len() == k,
            forall|j: int| 0 <= j < k ==> (#[trigger] domains@[j])@.len() == gs[j]@.len(),
            forall|j: int, m: int|
                0 <= j < k && 0 <= m < domains@[j]@.len() ==> #[trigger] domains@[j]@[m] == m,
        decreases n - k,
    {
        let size = groups[k].len();
        let mut d: Vec<usize> = Vec::new();
        let mut m: usize = 0;
        while m < size
            invariant
                m <= size,
                d@.len() == m,
                forall|x: int| 0 <= x < m ==> #[trigger] d@[x] == x,
            decreases size - m,
        {
            d.push(m);
            m = m + 1;
        }
        domains.push(d);
        k = k + 1;
    }
    assert(domain_sizes(domains@) =~= sizes);
    assert forall|j: int| 0 <= j < domains@.len() implies #[trigger] domains@[j]@.len() > 0 by {
        assert(domain_sizes(domains@)[j] == sizes[j]);
    }
    let combos = cartesian_product(&domains);
    let mut i: usize = 0;
    while i < combos.len()
        invariant
            i <= combos@.len(),
            n == gs.len(),
            n > 0,
            groups@ == gs,
            domains@.len() == n,
            domain_sizes(domains@) == sizes,
            sizes == group_sizes(gs),
            forall|j: int| 0 <= j < sizes.len() ==> #[trigger] sizes[j] > 0,
            forall|j: int, m: int|
                0 <= j < n && 0 <= m < domains@[j]@.len() ==> #[trigger] domains@[j]@[m] == m,
            combos@.len() == product_from(sizes, 0),
            forall|x: int| 0 <= x < combos@.len() ==> #[trigger] combos@[x]@.len() == n,
            forall|x: int, j: int|
                0 <= x < combos@.len() && 0 <= j < n ==> #[trigger] combos@[x]@[j]
                    == domains@[j]@[digit(sizes, x, j)],
            out@.len() == i,
            forall|x: int| 0 <= x < i ==> (#[trigger] out@[x])@ == selection(gs, x),
        decreases combos@.len() - i,
    {
        let combo = &combos[i];
        let mut sel: Vec<&'a Course> = Vec::new();
        let mut j: usize = 0;
        while j < n
            invariant
                j <= n,
                n == gs.len(),
                groups@ == gs,
                i < combos@.len(),
                *combo == combos@[i as int],
                combo@.len() == n,
                sizes == group_sizes(gs),
                domain_sizes(domains@) == sizes,
                forall|y: int| 0 <= y < sizes.len() ==> #[trigger] sizes[y] > 0,
                forall|y: int, m: int|
                    0 <= y < n && 0 <= m < domains@[y]@.len() ==> #[trigger] domains@[y]@[m] == m,
                forall|y: int| 0 <= y < n ==> #[trigger] combo@[y] == domains@[y]@[digit(sizes, i as int, y)],
                sel@.len() == j,
                forall|y: int| 0 <= y < j ==> #[trigger] sel@[y] == selection(gs, i as int)[y],
            decreases n - j,
        {
            proof {
                lemma_digit_bound(sizes, i as int, j as int);
                assert(domain_sizes(domains@)[j as int] == domains@[j as int]@.len());
            }
            let pick = combo[j];
            sel.push(&groups[j][pick]);
            j = j + 1;
        }
        assert(sel@ =~= selection(gs, i as int));
        out.push(sel);
        i = i + 1;
    }
    Ok(out)
}

/// The conflict-free timetables of the catalog. The raw selections (see
/// `raw_candidates`) are each put in canonical order; those in which a course
/// starts before the previous course of its weekday ends are dropped; the
/// others become timetables, numbered by their place among the raw
/// selections. In every timetable, two courses of one weekday do not overlap.
pub fn generate_timetables<'a>(subjects: &'a [Subject]) -> (r: Result<
    Vec<Timetable<'a>>,
    CatalogError,
>)
    ensures
        has_empty_group(subjects) <==> r matches Err(CatalogError::EmptyGroup { .. }),
        r matches Err(CatalogError::EmptyGroup { subject, group }) ==> is_empty_group(
            subjects,
            subject as int,
            group as int,
        ),
        r matches Err(CatalogError::TooManyCandidates) <==> !has_empty_group(subjects) && raw_count(
            subjects,
        ) > usize::MAX,
        r matches Ok(ts) ==> ts@.len() == kept(all_groups(subjects), raw_count(subjects)).len(),
        r matches Ok(ts) ==> ts@.len() <= raw_count(subjects),
        r matches Ok(ts) ==> forall|m: int|
            0 <= m < ts@.len() ==> {
                let i = kept(all_groups(subjects), raw_count(subjects))[m];
                &&& (#[trigger] ts@[m]).id == i as u32
                &&& ts@[m].courses@ == canonical(selection(all_groups(subjects), i))
                &&& ts@[m].hash is None
                &&& is_sorted(ts@[m].courses@)
                &&& conflict_free(ts@[m].courses@)
            },
{
    let raw = match raw_candidates(subjects) {
        Ok(v) => v,
        Err(e) => return Err(e),
    };
    let ghost gs = all_groups(subjects);
    let mut out: Vec<Timetable<'a>> = Vec::new();
    let mut i: usize = 0;
    while i < raw.len()
        invariant
            i <= raw@.len(),
            forall|x: int| 0 <= x < raw@.len() ==> (#[trigger] raw@[x])@ == selection(gs, x),
            out@.len() == kept(gs, i as int).len(),
            forall|m: int|
                0 <= m < out@.len() ==> {
                    let x = kept(gs, i as int)[m];
                    &&& (#[trigger] out@[m]).id == x as u32
                    &&& out@[m].courses@ == canonical(selection(gs, x))
                    &&& out@[m].hash is None
                    &&& is_sorted(out@[m].courses@)
                    &&& conflict_free(out@[m].courses@)
                },
        decreases raw@.len() - i,
    {
        let sorted = canonical_order(&raw[i]);
        if no_adjacent_overlap(&sorted) {
            proof {
                lemma_adjacent_ok_no_overlap(sorted@);
            }
            out.push(Timetable::new(i as u32, sorted));
        }
        i = i + 1;
    }
    proof {
        lemma_kept_len(gs, raw@.len() as int);
    }
    Ok(out)
}

/// Every raw selection is kept or rejected: the kept ones are at most the
/// raw count, and exactly the raw count less the rejected ones.
pub proof fn lemma_kept_len(gs: Seq<&Vec<Course>>, n: int)
    requires
        n >= 0,
    ensures
        kept(gs, n).len() == n - rejected_count(gs, n),
        0 <= rejected_count(gs, n) <= n,
        kept(gs, n).len() <= n,
    decreases n,
{
    if n > 0 {
        lemma_kept_len(gs, n - 1);
    }
}

/// How many of the first `n` selections overlap in canonical order.
pub open spec fn rejected_count(gs: Seq<&Vec<Course>>, n: int) -> int
    decreases n,
{
    if n <= 0 {
        0
    } else if adjacent_ok(canonical(selection(gs, n - 1))) {
        rejected_count(gs, n - 1)
    } else {
        rejected_count(gs, n - 1) + 1
    }
}

proof fn lemma_product_monotone(sizes: Seq<int>, j: int, k: int)
    requires
        0 <= j <= k <= sizes.len(),
        forall|m: int| 0 <= m < sizes.len() ==> #[trigger] sizes[m] > 0,
    ensures
        product_from(sizes, j) >= product_from(sizes, k),
    decreases k - j,
{
    if j < k {
        lemma_product_monotone(sizes, j + 1, k);
        lemma_product_positive(sizes, j + 1);
        let a = sizes[j];
        let b = product_from(sizes, j + 1);
        assert(a * b >= b) by (nonlinear_arith)
            requires
                a >= 1,
                b >= 0,
        ;
    }
}

proof fn lemma_all_groups_nonempty(subjects: &[Subject], j: int)
    requires
        !has_empty_group(subjects),
        0 <= j < all_groups(subjects).len(),
    ensures
        all_groups(subjects)[j]@.len() > 0,
{
    lemma_groups_upto_nonempty(subjects, subjects@.len() as int, j);
}

proof fn lemma_groups_upto_nonempty(subjects: &[Subject], n: int, j: int)
    requires
        !has_empty_group(subjects),
        0 <= n <= subjects@.len(),
        0 <= j < groups_upto(subjects, n).len(),
    ensures
        groups_upto(subjects, n)[j]@.len() > 0,
    decreases n,
{
    if n > 0 {
        let prev = groups_upto(subjects, n - 1);
        if j >= prev.len() {
            let g = j - prev.len();
            assert(!is_empty_group(subjects, n - 1, g));
        } else {
            lemma_groups_upto_nonempty(subjects, n - 1, j);
        }
    }
}

} // verus!
