//! Changing the presentation flags of courses, found by code. The content
//! of a course, and so its digest, never changes here.
use vstd::prelude::*;

use crate::data::{same_content, Course, OneOfCourse, Subject};
use crate::text::same_text;

verus! {

/// A change of a course's presentation flags.
#[derive(Clone, Copy, Debug, PartialEq, Eq, Structural)]
pub enum FlagChange {
    /// Mark the course deleted.
    Delete,
    /// Hide the course if it is shown, show it if it is hidden.
    ToggleHidden,
}

/// The flags (deleted, hidden) of `c` after `change` is applied to the
/// courses with code `code`.
pub open spec fn flags_after(c: Course, code: Seq<char>, change: FlagChange) -> (bool, bool) {
    if c.code@ == code {
        match change {
            FlagChange::Delete => (true, c.is_hidden_by_user),
            FlagChange::ToggleHidden => (c.is_deleted, !c.is_hidden_by_user),
        }
    } else {
        (c.is_deleted, c.is_hidden_by_user)
    }
}

/// `new` is `old` with its flags changed as `flags_after` says.
pub open spec fn course_updated(new: Course, old: Course, code: Seq<char>, change: FlagChange) -> bool {
    &&& same_content(&new, &old)
    &&& new.hash@ == old.hash@
    &&& (new.is_deleted, new.is_hidden_by_user) == flags_after(old, code, change)
}

pub open spec fn group_updated(new: Seq<Course>, old: Seq<Course>, code: Seq<char>, change: FlagChange) -> bool {
    &&& new.len() == old.len()
    &&& forall|k: int| 0 <= k < new.len() ==> course_updated(#[trigger] new[k], old[k], code, change)
}

pub open spec fn subject_updated(new: Subject, old: Subject, code: Seq<char>, change: FlagChange) -> bool {
    &&& new.name@ == old.name@
    &&& new.courses@.len() == old.courses@.len()
    &&& forall|g: int|
        0 <= g < new.courses@.len() ==> group_updated(
            (#[trigger] new.courses@[g])@,
            old.courses@[g]@,
            code,
            change,
        )
}

fn update_group(group: &mut OneOfCourse, code: &str, change: FlagChange)
    ensures
        group_updated(final(group)@, old(group)@, code@, change),
{
    let n = group.len();
    let mut k: usize = 0;
    while k < n
        invariant
            n == group@.len(),
            n == old(group)@.len(),
            k <= n,
            forall|j: int| 0 <= j < k ==> course_updated(#[trigger] group@[j], old(group)@[j], code@, change),
            forall|j: int| k <= j < n ==> #[trigger] group@[j] == old(group)@[j],
        decreases n - k,
    {
        if same_text(group[k].code.as_str(), code) {
            match change {
                FlagChange::Delete => {
                    group[k].is_deleted = true;
                },
                FlagChange::ToggleHidden => {
                    let hidden = group[k].is_hidden_by_user;
                    group[k].is_hidden_by_user = !hidden;
                },
            }
        }
        k = k + 1;
    }
}

fn update_subject(subject: &mut Subject, code: &str, change: FlagChange)
    ensures
        subject_updated(*final(subject), *old(subject), code@, change),
{
    let n = subject.courses.len();
    let mut g: usize = 0;
    while g < n
        invariant
            n == subject.courses@.len(),
            n == old(subject).courses@.len(),
            subject.name@ == old(subject).name@,
            g <= n,
            forall|j: int|
                0 <= j < g ==> group_updated(
                    (#[trigger] subject.courses@[j])@,
                    old(subject).courses@[j]@,
                    code@,
                    change,
                ),
            forall|j: int| g <= j < n ==> #[trigger] subject.courses@[j] == old(subject).courses@[j],
        decreases n - g,
    {
        update_group(&mut subject.courses[g], code, change);
        g = g + 1;
    }
}

/// Applies `change` to every course whose code is `code`; everything else
/// stays as it was.
pub fn update_courses_by_code(subjects: &mut Vec<Subject>, code: &str, change: FlagChange)
    ensures
        final(subjects)@.len() == old(subjects)@.len(),
        forall|s: int|
            0 <= s < final(subjects)@.len() ==> subject_updated(
                #[trigger] final(subjects)@[s],
                old(subjects)@[s],
                code@,
                change,
            ),
{
    let n = subjects.len();
    let mut s: usize = 0;
    while s < n
        invariant
            n == subjects@.len(),
            n == old(subjects)@.len(),
            s <= n,
            forall|j: int|
                0 <= j < s ==> subject_updated(#[trigger] subjects@[j], old(subjects)@[j], code@, change),
            forall|j: int| s <= j < n ==> #[trigger] subjects@[j] == old(subjects)@[j],
        decreases n - s,
    {
        update_subject(&mut subjects[s], code, change);
        s = s + 1;
    }
}

/// Changing flags keeps every course's stored digest current.
pub proof fn lemma_update_keeps_digests(new: Course, old: Course, code: Seq<char>, change: FlagChange)
    requires
        old.wf(),
        course_updated(new, old, code, change),
    ensures
        new.wf(),
{
    crate::identity::lemma_flags_do_not_change_digest(&new, &old);
}

} // verus!
