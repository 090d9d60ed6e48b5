//! Content identity: a byte encoding of a course's scheduling content, the
//! per-course digest over it, and the timetable hash over the digests.
use vstd::prelude::*;

use crate::canonical::{canonical, distinct_keys, lemma_canonical_ignores_order};
use crate::data::{same_content, Course, CourseType, Enrollment, Occurrence, Weeks};

verus! {

/// The SHA-256 digest of a byte string.
pub uninterp spec fn sha256_of(data: Seq<u8>) -> Seq<u8>;

/// The padded URL-safe base64 text of a byte string.
pub uninterp spec fn base64_url_of(data: Seq<u8>) -> Seq<char>;

/// Relies on sha2's `Sha256::digest`: the SHA-256 digest of the bytes, which is 32 bytes long.
#[verifier::external_body]
pub(crate) fn sha256(data: &Vec<u8>) -> (r: Vec<u8>)
    ensures
        r@ == sha256_of(data@),
        r@.len() == 32,
{
    <sha2::Sha256 as sha2::Digest>::digest(data.as_slice()).to_vec()
}

/// Relies on base64's `Engine::encode` with the padded `URL_SAFE` engine: four
/// characters for each started group of three bytes.
#[verifier::external_body]
fn base64_url(data: &Vec<u8>) -> (r: String)
    requires
        data@.len() <= 0x1000_0000,
    ensures
        r@ == base64_url_of(data@),
        r@.len() == 4 * ((data@.len() + 2) / 3),
{
    base64::Engine::encode(&base64::engine::general_purpose::URL_SAFE, data.as_slice())
}

/// Little-endian bytes of a 64-bit number.
pub open spec fn u64_bytes(x: u64) -> Seq<u8> {
    seq![
        (x & 0xff) as u8,
        ((x >> 8u64) & 0xff) as u8,
        ((x >> 16u64) & 0xff) as u8,
        ((x >> 24u64) & 0xff) as u8,
        ((x >> 32u64) & 0xff) as u8,
        ((x >> 40u64) & 0xff) as u8,
        ((x >> 48u64) & 0xff) as u8,
        ((x >> 56u64) & 0xff) as u8,
    ]
}

/// Little-endian bytes of a 32-bit number.
pub open spec fn u32_bytes(x: u32) -> Seq<u8> {
    seq![
        (x & 0xff) as u8,
        ((x >> 8u32) & 0xff) as u8,
        ((x >> 16u32) & 0xff) as u8,
        ((x >> 24u32) & 0xff) as u8,
    ]
}

/// Each character as its 32-bit scalar value.
pub open spec fn chars_bytes(s: Seq<char>) -> Seq<u8>
    decreases s.len(),
{
    if s.len() == 0 {
        seq![]
    } else {
        chars_bytes(s.drop_last()) + u32_bytes(s.last() as u32)
    }
}

/// A text: its length in characters, then its characters.
pub open spec fn text_bytes(s: Seq<char>) -> Seq<u8> {
    u64_bytes(s.len() as u64) + chars_bytes(s)
}

pub open spec fn course_type_byte(t: CourseType) -> u8 {
    t.ordinal() as u8
}

pub open spec fn weeks_byte(w: Option<Weeks>) -> u8 {
    match w {
        None => 0,
        Some(Weeks::Every) => 1,
        Some(Weeks::Even) => 2,
        Some(Weeks::Odd) => 3,
    }
}

pub open spec fn enrollment_bytes(e: Enrollment) -> Seq<u8> {
    u32_bytes(e.people_joined) + u32_bytes(e.people_queue) + u32_bytes(e.people_limit)
}

pub open spec fn occurrence_bytes(o: Occurrence) -> Seq<u8> {
    seq![weeks_byte(o.weeks), o.weekday.ordinal() as u8] + u32_bytes(o.start_time.minutes)
        + u32_bytes(o.end_time.minutes)
}

/// The bytes that identify a course: every field but the two presentation flags.
#[verifier::opaque]
pub open spec fn content_bytes(c: &Course) -> Seq<u8> {
    text_bytes(c.subject_name@) + text_bytes(c.code@) + seq![course_type_byte(c.course_type)]
        + enrollment_bytes(c.enrollment) + text_bytes(c.location@) + text_bytes(c.teacher@)
        + text_bytes(c.language@) + text_bytes(c.site@) + text_bytes(c.comment@) + text_bytes(
        c.description@,
    ) + occurrence_bytes(c.occurrence)
}

/// The digest that identifies a course.
pub open spec fn course_digest(c: &Course) -> Seq<u8> {
    sha256_of(content_bytes(c))
}

/// The course digests one after another, in the order of the courses.
pub open spec fn digests_concat(cs: Seq<&Course>) -> Seq<u8>
    decreases cs.len(),
{
    if cs.len() == 0 {
        seq![]
    } else {
        digests_concat(cs.drop_last()) + course_digest(cs.last())
    }
}

/// The identity of a timetable with the given courses in the given order.
pub open spec fn timetable_hash(cs: Seq<&Course>) -> Seq<char> {
    base64_url_of(sha256_of(digests_concat(cs)))
}

/// The presentation flags take no part in a course's identity: two courses
/// that agree on every other field have the same encoding and the same digest.
pub proof fn lemma_flags_do_not_change_digest(a: &Course, b: &Course)
    requires
        same_content(a, b),
    ensures
        content_bytes(a) == content_bytes(b),
        course_digest(a) == course_digest(b),
{
    reveal(content_bytes);
}

/// Two timetables of the same courses have the same hash, in whatever order
/// the courses were selected, when no two of them share a weekday and a
/// start time (courses that do keep their selection order, which then
/// decides the hash).
pub proof fn lemma_hash_ignores_selection_order(a: Seq<&Course>, b: Seq<&Course>)
    requires
        a.to_multiset() == b.to_multiset(),
        distinct_keys(a),
    ensures
        timetable_hash(canonical(a)) == timetable_hash(canonical(b)),
{
    lemma_canonical_ignores_order(a, b);
}

/// Toggling the presentation flags of a timetable's courses leaves its hash unchanged.
pub proof fn lemma_timetable_hash_ignores_flags(a: Seq<&Course>, b: Seq<&Course>)
    requires
        a.len() == b.len(),
        forall|i: int| 0 <= i < a.len() ==> same_content(#[trigger] a[i], b[i]),
    ensures
        timetable_hash(a) == timetable_hash(b),
{
    lemma_digests_concat_ignores_flags(a, b);
}

proof fn lemma_digests_concat_ignores_flags(a: Seq<&Course>, b: Seq<&Course>)
    requires
        a.len() == b.len(),
        forall|i: int| 0 <= i < a.len() ==> same_content(#[trigger] a[i], b[i]),
    ensures
        digests_concat(a) == digests_concat(b),
    decreases a.len(),
{
    if a.len() > 0 {
        let (pa, pb) = (a.drop_last(), b.drop_last());
        assert forall|i: int| 0 <= i < pa.len() implies same_content(#[trigger] pa[i], pb[i]) by {
            assert(pa[i] == a[i] && pb[i] == b[i]);
        }
        lemma_digests_concat_ignores_flags(pa, pb);
        assert(same_content(a[a.len() - 1], b[b.len() - 1]));
        lemma_flags_do_not_change_digest(a.last(), b.last());
    }
}

/// SHA-256 gives different digests for different inputs.
pub open spec fn sha256_collision_free() -> bool {
    forall|x: Seq<u8>, y: Seq<u8>| #[trigger] sha256_of(x) == #[trigger] sha256_of(y) ==> x == y
}

/// Changing any identifying field of a course changes its digest, where
/// SHA-256 has no collisions.
pub proof fn lemma_content_change_changes_digest(a: &Course, b: &Course)
    requires
        sha256_collision_free(),
        texts_fit(a),
        texts_fit(b),
        !same_content(a, b),
    ensures
        course_digest(a) != course_digest(b),
{
    if course_digest(a) == course_digest(b) {
        lemma_content_bytes_injective(a, b);
    }
}

proof fn lemma_digests_concat_len(cs: Seq<&Course>)
    requires
        forall|x: Seq<u8>| (#[trigger] sha256_of(x)).len() == 32,
    ensures
        digests_concat(cs).len() == 32 * cs.len(),
    decreases cs.len(),
{
    if cs.len() > 0 {
        lemma_digests_concat_len(cs.drop_last());
    }
}

proof fn lemma_digests_concat_split(a: Seq<&Course>, b: Seq<&Course>)
    requires
        forall|x: Seq<u8>| (#[trigger] sha256_of(x)).len() == 32,
        a.len() == b.len(),
        digests_concat(a) == digests_concat(b),
    ensures
        forall|i: int| 0 <= i < a.len() ==> course_digest(#[trigger] a[i]) == course_digest(b[i]),
    decreases a.len(),
{
    if a.len() > 0 {
        let (pa, pb) = (a.drop_last(), b.drop_last());
        lemma_digests_concat_len(pa);
        lemma_digests_concat_len(pb);
        lemma_split_equal(digests_concat(pa), course_digest(a.last()), digests_concat(pb), course_digest(b.last()));
        lemma_digests_concat_split(pa, pb);
        assert forall|i: int| 0 <= i < a.len() implies course_digest(#[trigger] a[i]) == course_digest(b[i]) by {
            if i < a.len() - 1 {
                assert(a[i] == pa[i] && b[i] == pb[i]);
            }
        }
    }
}

/// Replacing a course of a timetable by one that differs in an identifying
/// field changes the timetable's hash, where SHA-256 has no collisions and
/// always gives 32 bytes, and distinct byte strings have distinct base64 texts.
pub proof fn lemma_content_change_changes_timetable_hash(a: Seq<&Course>, b: Seq<&Course>, i: int)
    requires
        sha256_collision_free(),
        forall|x: Seq<u8>| (#[trigger] sha256_of(x)).len() == 32,
        forall|x: Seq<u8>, y: Seq<u8>| #[trigger] base64_url_of(x) == #[trigger] base64_url_of(y) ==> x == y,
        a.len() == b.len(),
        0 <= i < a.len(),
        texts_fit(a[i]),
        texts_fit(b[i]),
        !same_content(a[i], b[i]),
    ensures
        timetable_hash(a) != timetable_hash(b),
{
    lemma_content_change_changes_digest(a[i], b[i]);
    if timetable_hash(a) == timetable_hash(b) {
        lemma_digests_concat_split(a, b);
    }
}

proof fn lemma_u64_bytes_injective(x: u64, y: u64)
    requires
        u64_bytes(x) == u64_bytes(y),
    ensures
        x == y,
{
    let a = u64_bytes(x);
    let b = u64_bytes(y);
    assert(a[0] == b[0] && a[1] == b[1] && a[2] == b[2] && a[3] == b[3]);
    assert(a[4] == b[4] && a[5] == b[5] && a[6] == b[6] && a[7] == b[7]);
    assert(x == y) by (bit_vector)
        requires
            (x & 0xff) as u8 == (y & 0xff) as u8,
            ((x >> 8u64) & 0xff) as u8 == ((y >> 8u64) & 0xff) as u8,
            ((x >> 16u64) & 0xff) as u8 == ((y >> 16u64) & 0xff) as u8,
            ((x >> 24u64) & 0xff) as u8 == ((y >> 24u64) & 0xff) as u8,
            ((x >> 32u64) & 0xff) as u8 == ((y >> 32u64) & 0xff) as u8,
            ((x >> 40u64) & 0xff) as u8 == ((y >> 40u64) & 0xff) as u8,
            ((x >> 48u64) & 0xff) as u8 == ((y >> 48u64) & 0xff) as u8,
            ((x >> 56u64) & 0xff) as u8 == ((y >> 56u64) & 0xff) as u8,
    ;
}

proof fn lemma_u32_bytes_injective(x: u32, y: u32)
    requires
        u32_bytes(x) == u32_bytes(y),
    ensures
        x == y,
{
    let a = u32_bytes(x);
    let b = u32_bytes(y);
    assert(a[0] == b[0] && a[1] == b[1] && a[2] == b[2] && a[3] == b[3]);
    assert(x == y) by (bit_vector)
        requires
            (x & 0xff) as u8 == (y & 0xff) as u8,
            ((x >> 8u32) & 0xff) as u8 == ((y >> 8u32) & 0xff) as u8,
            ((x >> 16u32) & 0xff) as u8 == ((y >> 16u32) & 0xff) as u8,
            ((x >> 24u32) & 0xff) as u8 == ((y >> 24u32) & 0xff) as u8,
    ;
}

proof fn lemma_chars_bytes_len(s: Seq<char>)
    ensures
        chars_bytes(s).len() == 4 * s.len(),
    decreases s.len(),
{
    if s.len() > 0 {
        lemma_chars_bytes_len(s.drop_last());
    }
}

proof fn lemma_chars_bytes_injective(s: Seq<char>, t: Seq<char>)
    requires
        s.len() == t.len(),
        chars_bytes(s) == chars_bytes(t),
    ensures
        s == t,
    decreases s.len(),
{
    if s.len() > 0 {
        let (ps, pt) = (s.drop_last(), t.drop_last());
        lemma_chars_bytes_len(ps);
        lemma_chars_bytes_len(pt);
        lemma_split_equal(chars_bytes(ps), u32_bytes(s.last() as u32), chars_bytes(pt), u32_bytes(t.last() as u32));
        lemma_u32_bytes_injective(s.last() as u32, t.last() as u32);
        vstd::utf8::char_u32_cast(s.last(), s.last() as u32);
        vstd::utf8::char_u32_cast(t.last(), s.last() as u32);
        assert(s.last() == t.last());
        lemma_chars_bytes_injective(ps, pt);
        assert(s =~= ps.push(s.last()));
        assert(t =~= pt.push(t.last()));
    }
}

/// Equal sequences cut at the same place give equal pieces.
proof fn lemma_split_equal(a1: Seq<u8>, r1: Seq<u8>, a2: Seq<u8>, r2: Seq<u8>)
    requires
        a1 + r1 == a2 + r2,
        a1.len() == a2.len(),
    ensures
        a1 == a2,
        r1 == r2,
{
    assert(a1 =~= (a1 + r1).subrange(0, a1.len() as int));
    assert(a2 =~= (a2 + r2).subrange(0, a2.len() as int));
    assert(r1 =~= (a1 + r1).subrange(a1.len() as int, (a1 + r1).len() as int));
    assert(r2 =~= (a2 + r2).subrange(a2.len() as int, (a2 + r2).len() as int));
}

/// A text's encoding can be told from what follows it.
proof fn lemma_text_prefix(s1: Seq<char>, r1: Seq<u8>, s2: Seq<char>, r2: Seq<u8>)
    requires
        text_bytes(s1) + r1 == text_bytes(s2) + r2,
        s1.len() <= u64::MAX,
        s2.len() <= u64::MAX,
    ensures
        s1 == s2,
        r1 == r2,
{
    let l1 = u64_bytes(s1.len() as u64);
    let l2 = u64_bytes(s2.len() as u64);
    assert(text_bytes(s1) + r1 =~= l1 + (chars_bytes(s1) + r1));
    assert(text_bytes(s2) + r2 =~= l2 + (chars_bytes(s2) + r2));
    lemma_split_equal(l1, chars_bytes(s1) + r1, l2, chars_bytes(s2) + r2);
    lemma_u64_bytes_injective(s1.len() as u64, s2.len() as u64);
    lemma_chars_bytes_len(s1);
    lemma_chars_bytes_len(s2);
    lemma_split_equal(chars_bytes(s1), r1, chars_bytes(s2), r2);
    lemma_chars_bytes_injective(s1, s2);
}

/// Every text of the course is shorter than 2^64 characters.
pub open spec fn texts_fit(c: &Course) -> bool {
    &&& c.subject_name@.len() <= u64::MAX
    &&& c.code@.len() <= u64::MAX
    &&& c.location@.len() <= u64::MAX
    &&& c.teacher@.len() <= u64::MAX
    &&& c.language@.len() <= u64::MAX
    &&& c.site@.len() <= u64::MAX
    &&& c.comment@.len() <= u64::MAX
    &&& c.description@.len() <= u64::MAX
}

/// The encoding, with its pieces grouped from the right.
spec fn content_bytes_nested(c: &Course) -> Seq<u8> {
    text_bytes(c.subject_name@) + (text_bytes(c.code@) + (seq![course_type_byte(c.course_type)] + (
    enrollment_bytes(c.enrollment) + (text_bytes(c.location@) + (text_bytes(c.teacher@) + (
    text_bytes(c.language@) + (text_bytes(c.site@) + (text_bytes(c.comment@) + (text_bytes(
        c.description@,
    ) + occurrence_bytes(c.occurrence))))))))))
}

proof fn lemma_assoc(a: Seq<u8>, b: Seq<u8>, c: Seq<u8>)
    ensures
        (a + b) + c == a + (b + c),
{
    assert((a + b) + c =~= a + (b + c));
}

proof fn lemma_content_bytes_nested(c: &Course)
    ensures
        content_bytes(c) == content_bytes_nested(c),
{
    reveal(content_bytes);
    let x1 = text_bytes(c.subject_name@);
    let x2 = text_bytes(c.code@);
    let x3 = seq![course_type_byte(c.course_type)];
    let x4 = enrollment_bytes(c.enrollment);
    let x5 = text_bytes(c.location@);
    let x6 = text_bytes(c.teacher@);
    let x7 = text_bytes(c.language@);
    let x8 = text_bytes(c.site@);
    let x9 = text_bytes(c.comment@);
    let x10 = text_bytes(c.description@);
    let x11 = occurrence_bytes(c.occurrence);
    let r10 = x10 + x11;
    let r9 = x9 + r10;
    let r8 = x8 + r9;
    let r7 = x7 + r8;
    let r6 = x6 + r7;
    let r5 = x5 + r6;
    let r4 = x4 + r5;
    let r3 = x3 + r4;
    let r2 = x2 + r3;
    let l2 = x1 + x2;
    let l3 = l2 + x3;
    let l4 = l3 + x4;
    let l5 = l4 + x5;
    let l6 = l5 + x6;
    let l7 = l6 + x7;
    let l8 = l7 + x8;
    let l9 = l8 + x9;
    let l10 = l9 + x10;
    lemma_assoc(l9, x10, x11);
    lemma_assoc(l8, x9, r10);
    lemma_assoc(l7, x8, r9);
    lemma_assoc(l6, x7, r8);
    lemma_assoc(l5, x6, r7);
    lemma_assoc(l4, x5, r6);
    lemma_assoc(l3, x4, r5);
    lemma_assoc(l2, x3, r4);
    lemma_assoc(x1, x2, r3);
    assert(content_bytes(c) == l10 + x11);
    assert(content_bytes_nested(c) == x1 + r2);
}

/// Courses whose encodings agree agree on every field but the presentation
/// flags: a change to any identifying field changes the bytes that the
/// course digest is computed from.
#[verifier::rlimit(40)]
pub proof fn lemma_content_bytes_injective(a: &Course, b: &Course)
    requires
        texts_fit(a),
        texts_fit(b),
        content_bytes(a) == content_bytes(b),
    ensures
        same_content(a, b),
{
    lemma_content_bytes_nested(a);
    lemma_content_bytes_nested(b);
    let ra = text_bytes(a.code@) + (seq![course_type_byte(a.course_type)] + (
    enrollment_bytes(a.enrollment) + (text_bytes(a.location@) + (text_bytes(a.teacher@) + (
    text_bytes(a.language@) + (text_bytes(a.site@) + (text_bytes(a.comment@) + (text_bytes(
        a.description@,
    ) + occurrence_bytes(a.occurrence)))))))));
    let rb = text_bytes(b.code@) + (seq![course_type_byte(b.course_type)] + (
    enrollment_bytes(b.enrollment) + (text_bytes(b.location@) + (text_bytes(b.teacher@) + (
    text_bytes(b.language@) + (text_bytes(b.site@) + (text_bytes(b.comment@) + (text_bytes(
        b.description@,
    ) + occurrence_bytes(b.occurrence)))))))));
    lemma_text_prefix(a.subject_name@, ra, b.subject_name@, rb);
    let ra = seq![course_type_byte(a.course_type)] + (enrollment_bytes(a.enrollment) + (text_bytes(
        a.location@,
    ) + (text_bytes(a.teacher@) + (text_bytes(a.language@) + (text_bytes(a.site@) + (text_bytes(
        a.comment@,
    ) + (text_bytes(a.description@) + occurrence_bytes(a.occurrence))))))));
    let rb = seq![course_type_byte(b.course_type)] + (enrollment_bytes(b.enrollment) + (text_bytes(
        b.location@,
    ) + (text_bytes(b.teacher@) + (text_bytes(b.language@) + (text_bytes(b.site@) + (text_bytes(
        b.comment@,
    ) + (text_bytes(b.description@) + occurrence_bytes(b.occurrence))))))));
    lemma_text_prefix(a.code@, ra, b.code@, rb);
    let ra = enrollment_bytes(a.enrollment) + (text_bytes(a.location@) + (text_bytes(a.teacher@) + (
    text_bytes(a.language@) + (text_bytes(a.site@) + (text_bytes(a.comment@) + (text_bytes(
        a.description@,
    ) + occurrence_bytes(a.occurrence)))))));
    let rb = enrollment_bytes(b.enrollment) + (text_bytes(b.location@) + (text_bytes(b.teacher@) + (
    text_bytes(b.language@) + (text_bytes(b.site@) + (text_bytes(b.comment@) + (text_bytes(
        b.description@,
    ) + occurrence_bytes(b.occurrence)))))));
    lemma_split_equal(
        seq![course_type_byte(a.course_type)],
        ra,
        seq![course_type_byte(b.course_type)],
        rb,
    );
    assert(seq![course_type_byte(a.course_type)][0] == seq![course_type_byte(b.course_type)][0]);
    assert(a.course_type == b.course_type);
    let ra2 = text_bytes(a.location@) + (text_bytes(a.teacher@) + (text_bytes(a.language@) + (
    text_bytes(a.site@) + (text_bytes(a.comment@) + (text_bytes(a.description@) + occurrence_bytes(
        a.occurrence,
    ))))));
    let rb2 = text_bytes(b.location@) + (text_bytes(b.teacher@) + (text_bytes(b.language@) + (
    text_bytes(b.site@) + (text_bytes(b.comment@) + (text_bytes(b.description@) + occurrence_bytes(
        b.occurrence,
    ))))));
    lemma_split_equal(enrollment_bytes(a.enrollment), ra2, enrollment_bytes(b.enrollment), rb2);
    let (ea, eb) = (a.enrollment, b.enrollment);
    assert(enrollment_bytes(ea) =~= u32_bytes(ea.people_joined) + (u32_bytes(ea.people_queue)
        + u32_bytes(ea.people_limit)));
    assert(enrollment_bytes(eb) =~= u32_bytes(eb.people_joined) + (u32_bytes(eb.people_queue)
        + u32_bytes(eb.people_limit)));
    lemma_split_equal(
        u32_bytes(ea.people_joined),
        u32_bytes(ea.people_queue) + u32_bytes(ea.people_limit),
        u32_bytes(eb.people_joined),
        u32_bytes(eb.people_queue) + u32_bytes(eb.people_limit),
    );
    lemma_split_equal(
        u32_bytes(ea.people_queue),
        u32_bytes(ea.people_limit),
        u32_bytes(eb.people_queue),
        u32_bytes(eb.people_limit),
    );
    lemma_u32_bytes_injective(ea.people_joined, eb.people_joined);
    lemma_u32_bytes_injective(ea.people_queue, eb.people_queue);
    lemma_u32_bytes_injective(ea.people_limit, eb.people_limit);
    let ra = text_bytes(a.teacher@) + (text_bytes(a.language@) + (text_bytes(a.site@) + (text_bytes(
        a.comment@,
    ) + (text_bytes(a.description@) + occurrence_bytes(a.occurrence)))));
    let rb = text_bytes(b.teacher@) + (text_bytes(b.language@) + (text_bytes(b.site@) + (text_bytes(
        b.comment@,
    ) + (text_bytes(b.description@) + occurrence_bytes(b.occurrence)))));
    lemma_text_prefix(a.location@, ra, b.location@, rb);
    let ra = text_bytes(a.language@) + (text_bytes(a.site@) + (text_bytes(a.comment@) + (text_bytes(
        a.description@,
    ) + occurrence_bytes(a.occurrence))));
    let rb = text_bytes(b.language@) + (text_bytes(b.site@) + (text_bytes(b.comment@) + (text_bytes(
        b.description@,
    ) + occurrence_bytes(b.occurrence))));
    lemma_text_prefix(a.teacher@, ra, b.teacher@, rb);
    let ra = text_bytes(a.site@) + (text_bytes(a.comment@) + (text_bytes(a.description@)
        + occurrence_bytes(a.occurrence)));
    let rb = text_bytes(b.site@) + (text_bytes(b.comment@) + (text_bytes(b.description@)
        + occurrence_bytes(b.occurrence)));
    lemma_text_prefix(a.language@, ra, b.language@, rb);
    let ra = text_bytes(a.comment@) + (text_bytes(a.description@) + occurrence_bytes(a.occurrence));
    let rb = text_bytes(b.comment@) + (text_bytes(b.description@) + occurrence_bytes(b.occurrence));
    lemma_text_prefix(a.site@, ra, b.site@, rb);
    let ra = text_bytes(a.description@) + occurrence_bytes(a.occurrence);
    let rb = text_bytes(b.description@) + occurrence_bytes(b.occurrence);
    lemma_text_prefix(a.comment@, ra, b.comment@, rb);
    lemma_text_prefix(a.description@, occurrence_bytes(a.occurrence), b.description@, occurrence_bytes(b.occurrence));
    lemma_occurrence_bytes_injective(a.occurrence, b.occurrence);
}

proof fn lemma_occurrence_bytes_injective(x: Occurrence, y: Occurrence)
    requires
        occurrence_bytes(x) == occurrence_bytes(y),
    ensures
        x == y,
{
    let (bx, by) = (occurrence_bytes(x), occurrence_bytes(y));
    assert(bx[0] == by[0] && bx[1] == by[1]);
    assert(x.weeks == y.weeks);
    assert(x.weekday == y.weekday);
    let (sx, sy) = (u32_bytes(x.start_time.minutes), u32_bytes(y.start_time.minutes));
    let (ex, ey) = (u32_bytes(x.end_time.minutes), u32_bytes(y.end_time.minutes));
    assert(bx =~= seq![weeks_byte(x.weeks), x.weekday.ordinal() as u8] + (sx + ex));
    assert(by =~= seq![weeks_byte(y.weeks), y.weekday.ordinal() as u8] + (sy + ey));
    lemma_split_equal(
        seq![weeks_byte(x.weeks), x.weekday.ordinal() as u8],
        sx + ex,
        seq![weeks_byte(y.weeks), y.weekday.ordinal() as u8],
        sy + ey,
    );
    lemma_split_equal(sx, ex, sy, ey);
    lemma_u32_bytes_injective(x.start_time.minutes, y.start_time.minutes);
    lemma_u32_bytes_injective(x.end_time.minutes, y.end_time.minutes);
}

fn push_u64(out: &mut Vec<u8>, x: u64)
    ensures
        final(out)@ == old(out)@ + u64_bytes(x),
{
    out.push((x & 0xff) as u8);
    out.push(((x >> 8u64) & 0xff) as u8);
    out.push(((x >> 16u64) & 0xff) as u8);
    out.push(((x >> 24u64) & 0xff) as u8);
    out.push(((x >> 32u64) & 0xff) as u8);
    out.push(((x >> 40u64) & 0xff) as u8);
    out.push(((x >> 48u64) & 0xff) as u8);
    out.push(((x >> 56u64) & 0xff) as u8);
    assert(final(out)@ =~= old(out)@ + u64_bytes(x));
}

fn push_u32(out: &mut Vec<u8>, x: u32)
    ensures
        final(out)@ == old(out)@ + u32_bytes(x),
{
    out.push((x & 0xff) as u8);
    out.push(((x >> 8u32) & 0xff) as u8);
    out.push(((x >> 16u32) & 0xff) as u8);
    out.push(((x >> 24u32) & 0xff) as u8);
    assert(final(out)@ =~= old(out)@ + u32_bytes(x));
}

fn push_text(out: &mut Vec<u8>, s: &String)
    ensures
        final(out)@ == old(out)@ + text_bytes(s@),
{
    let text = s.as_str();
    let n = text.unicode_len();
    push_u64(out, n as u64);
    let ghost start = out@;
    let mut i: usize = 0;
    while i < n
        invariant
            n == s@.len(),
            text@ == s@,
            i <= n,
            out@ == start + chars_bytes(s@.subrange(0, i as int)),
        decreases n - i,
    {
        let c = text.get_char(i);
        push_u32(out, c as u32);
        proof {
            let next = s@.subrange(0, i + 1);
            assert(next.drop_last() =~= s@.subrange(0, i as int));
        }
        i = i + 1;
    }
    assert(s@.subrange(0, n as int) =~= s@);
    assert(out@ =~= old(out)@ + text_bytes(s@));
}

/// The encoding of a course's content, as `content_bytes` gives it.
pub fn content_bytes_of(c: &Course) -> (r: Vec<u8>)
    ensures
        r@ == content_bytes(c),
{
    let mut out: Vec<u8> = Vec::new();
    push_text(&mut out, &c.subject_name);
    push_text(&mut out, &c.code);
    out.push(c.course_type.rank());
    push_u32(&mut out, c.enrollment.people_joined);
    push_u32(&mut out, c.enrollment.people_queue);
    push_u32(&mut out, c.enrollment.people_limit);
    push_text(&mut out, &c.location);
    push_text(&mut out, &c.teacher);
    push_text(&mut out, &c.language);
    push_text(&mut out, &c.site);
    push_text(&mut out, &c.comment);
    push_text(&mut out, &c.description);
    let weeks: u8 = match c.occurrence.weeks {
        None => 0,
        Some(Weeks::Every) => 1,
        Some(Weeks::Even) => 2,
        Some(Weeks::Odd) => 3,
    };
    out.push(weeks);
    out.push(c.occurrence.weekday.num_days_from_monday());
    push_u32(&mut out, c.occurrence.start_time.minutes);
    push_u32(&mut out, c.occurrence.end_time.minutes);
    proof {
        reveal(content_bytes);
    }
    assert(out@ =~= content_bytes(c));
    out
}

fn append_bytes(out: &mut Vec<u8>, d: &Vec<u8>)
    ensures
        final(out)@ == old(out)@ + d@,
{
    let mut k: usize = 0;
    while k < d.len()
        invariant
            k <= d@.len(),
            out@ == old(out)@ + d@.subrange(0, k as int),
        decreases d@.len() - k,
    {
        out.push(d[k]);
        assert(out@ =~= old(out)@ + d@.subrange(0, k + 1));
        k = k + 1;
    }
    assert(d@.subrange(0, d@.len() as int) =~= d@);
}

/// The hash of the courses in the given order, from their stored digests.
pub fn hash_courses(courses: &Vec<&Course>) -> (r: String)
    requires
        forall|i: int| 0 <= i < courses@.len() ==> #[trigger] courses@[i].wf(),
    ensures
        r@ == timetable_hash(courses@),
        r@.len() == 44,
{
    let mut all: Vec<u8> = Vec::new();
    let mut i: usize = 0;
    while i < courses.len()
        invariant
            i <= courses@.len(),
            forall|j: int| 0 <= j < courses@.len() ==> #[trigger] courses@[j].wf(),
            all@ == digests_concat(courses@.subrange(0, i as int)),
        decreases courses@.len() - i,
    {
        append_bytes(&mut all, courses[i].hash());
        proof {
            let next = courses@.subrange(0, i + 1);
            assert(next.drop_last() =~= courses@.subrange(0, i as int));
            assert(next.last() == courses@[i as int]);
            assert(courses@[i as int].wf());
        }
        i = i + 1;
    }
    assert(courses@.subrange(0, courses@.len() as int) =~= courses@);
    let digest = sha256(&all);
    base64_url(&digest)
}

} // verus!
