//! Character-level helpers for reading filter specifications: key prefixes,
//! decimal numbers, substrings and whitespace-separated tokens.
use vstd::prelude::*;

verus! {

pub open spec fn is_digit(c: char) -> bool {
    '0' <= c && c <= '9'
}

pub open spec fn all_digits(s: Seq<char>) -> bool {
    forall|i: int| 0 <= i < s.len() ==> is_digit(#[trigger] s[i])
}

/// The number that a string of decimal digits writes.
pub open spec fn digits_value(s: Seq<char>) -> int
    decreases s.len(),
{
    if s.len() == 0 {
        0
    } else {
        digits_value(s.drop_last()) * 10 + (s.last() as int - '0' as int)
    }
}

/// The text of an unsigned number: one or more digits after an optional `+`.
pub open spec fn unsigned_digits(s: Seq<char>) -> Seq<char> {
    if s.len() > 0 && s[0] == '+' {
        s.drop_first()
    } else {
        s
    }
}

/// What `s` reads as an unsigned 64-bit number: an optional `+`, then one or
/// more decimal digits, of a value that fits.
pub open spec fn decimal_u64(s: Seq<char>) -> Option<u64> {
    let d = unsigned_digits(s);
    if d.len() > 0 && all_digits(d) && digits_value(d) <= u64::MAX {
        Some(digits_value(d) as u64)
    } else {
        None
    }
}

/// What `s` reads as a signed 64-bit number: an optional `+` or `-`, then one
/// or more decimal digits, of a value that fits.
pub open spec fn decimal_i64(s: Seq<char>) -> Option<i64> {
    if s.len() > 0 && s[0] == '-' {
        let d = s.drop_first();
        if d.len() > 0 && all_digits(d) && digits_value(d) <= 0x8000_0000_0000_0000 {
            Some((-digits_value(d)) as i64)
        } else {
            None
        }
    } else {
        let d = unsigned_digits(s);
        if d.len() > 0 && all_digits(d) && digits_value(d) <= i64::MAX {
            Some(digits_value(d) as i64)
        } else {
            None
        }
    }
}

proof fn lemma_digits_value_nonneg(s: Seq<char>)
    requires
        all_digits(s),
    ensures
        digits_value(s) >= 0,
    decreases s.len(),
{
    if s.len() > 0 {
        assert(is_digit(s[s.len() - 1]));
        lemma_digits_value_nonneg(s.drop_last());
    }
}

/// A longer digit string is worth at least as much as its prefix.
proof fn lemma_digits_value_prefix(s: Seq<char>, j: int)
    requires
        all_digits(s),
        0 <= j <= s.len(),
    ensures
        digits_value(s.subrange(0, j)) <= digits_value(s),
    decreases s.len() - j,
{
    if j < s.len() {
        let t = s.drop_last();
        assert(all_digits(t)) by {
            assert forall|i: int| 0 <= i < t.len() implies is_digit(#[trigger] t[i]) by {
                assert(t[i] == s[i]);
            }
        }
        lemma_digits_value_prefix(t, j);
        assert(t.subrange(0, j) =~= s.subrange(0, j));
        lemma_digits_value_nonneg(t);
        assert(is_digit(s[s.len() - 1]));
    } else {
        assert(s.subrange(0, j) =~= s);
    }
}

/// The value of the digits of `s` from `from` on, if they are one or more
/// digits and the value is at most `limit`.
fn digits_up_to(s: &str, from: usize, limit: u64) -> (r: Option<u64>)
    requires
        from <= s@.len(),
    ensures
        ({
            let d = s@.subrange(from as int, s@.len() as int);
            r == if d.len() > 0 && all_digits(d) && digits_value(d) <= limit {
                Some(digits_value(d) as u64)
            } else {
                None
            }
        }),
        r matches Some(v) ==> v <= limit && v as int == digits_value(
            s@.subrange(from as int, s@.len() as int),
        ),
{
    let n = s.unicode_len();
    let ghost d = s@.subrange(from as int, s@.len() as int);
    if from == n {
        return None;
    }
    let mut acc: u64 = 0;
    let mut i: usize = from;
    while i < n
        invariant
            n == s@.len(),
            from < n,
            from <= i <= n,
            d == s@.subrange(from as int, n as int),
            all_digits(d.subrange(0, i - from)),
            acc == digits_value(d.subrange(0, i - from)),
            acc <= limit,
        decreases n - i,
    {
        let c = s.get_char(i);
        if !('0' <= c && c <= '9') {
            assert(!is_digit(d[i - from]));
            return None;
        }
        let v = (c as u32 - '0' as u32) as u64;
        let ghost prefix = d.subrange(0, i + 1 - from);
        assert(prefix.drop_last() =~= d.subrange(0, i - from));
        assert(all_digits(prefix)) by {
            assert forall|x: int| 0 <= x < prefix.len() implies is_digit(#[trigger] prefix[x]) by {
                if x < prefix.len() - 1 {
                    assert(prefix[x] == d.subrange(0, i - from)[x]);
                }
            }
        }
        if v > limit || acc > (limit - v) / 10 {
            proof {
                assert(digits_value(prefix) > limit);
                if all_digits(d) {
                    lemma_digits_value_prefix(d, i + 1 - from);
                }
            }
            return None;
        }
        acc = acc * 10 + v;
        i = i + 1;
    }
    assert(d.subrange(0, n - from) =~= d);
    proof {
        lemma_digits_value_nonneg(d);
    }
    Some(acc)
}

/// Reads an unsigned decimal number, as `decimal_u64` describes it.
pub fn parse_u64(s: &str) -> (r: Option<u64>)
    ensures
        r == decimal_u64(s@),
{
    let n = s.unicode_len();
    if n > 0 && s.get_char(0) == '+' {
        let r = digits_up_to(s, 1, u64::MAX);
        assert(s@.subrange(1, s@.len() as int) =~= s@.drop_first());
        r
    } else {
        let r = digits_up_to(s, 0, u64::MAX);
        assert(s@.subrange(0, s@.len() as int) =~= s@);
        r
    }
}

/// Reads a signed decimal number, as `decimal_i64` describes it.
pub fn parse_i64(s: &str) -> (r: Option<i64>)
    ensures
        r == decimal_i64(s@),
{
    let n = s.unicode_len();
    if n > 0 && s.get_char(0) == '-' {
        assert(s@.subrange(1, s@.len() as int) =~= s@.drop_first());
        match digits_up_to(s, 1, 0x8000_0000_0000_0000) {
            Some(m) => {
                let ghost d = s@.drop_first();
                assert(m as int == digits_value(d));
                if m == 0x8000_0000_0000_0000 {
                    Some(i64::MIN)
                } else {
                    let r = -(m as i64);
                    assert(r as int == -digits_value(d));
                    Some(r)
                }
            },
            None => None,
        }
    } else if n > 0 && s.get_char(0) == '+' {
        assert(s@.subrange(1, s@.len() as int) =~= s@.drop_first());
        match digits_up_to(s, 1, i64::MAX as u64) {
            Some(m) => Some(m as i64),
            None => None,
        }
    } else {
        assert(s@.subrange(0, s@.len() as int) =~= s@);
        match digits_up_to(s, 0, i64::MAX as u64) {
            Some(m) => Some(m as i64),
            None => None,
        }
    }
}

/// What follows `key=` at the start of `s`, if `s` starts so.
pub open spec fn value_after(s: Seq<char>, key: Seq<char>) -> Option<Seq<char>> {
    if s.len() > key.len() && s.subrange(0, key.len() as int) == key && s[key.len() as int] == '=' {
        Some(s.subrange(key.len() as int + 1, s.len() as int))
    } else {
        None
    }
}

/// The text after `key=`, if `s` starts with it.
pub fn strip_key<'s>(s: &'s str, key: &str) -> (r: Option<&'s str>)
    ensures
        r matches Some(v) ==> value_after(s@, key@) == Some(v@),
        r is None ==> value_after(s@, key@) is None,
{
    let n = s.unicode_len();
    let k = key.unicode_len();
    if n <= k {
        return None;
    }
    let mut i: usize = 0;
    while i < k
        invariant
            n == s@.len(),
            k == key@.len(),
            k < n,
            i <= k,
            forall|j: int| 0 <= j < i ==> s@[j] == key@[j],
        decreases k - i,
    {
        if s.get_char(i) != key.get_char(i) {
            assert(s@.subrange(0, k as int)[i as int] != key@[i as int]);
            return None;
        }
        i = i + 1;
    }
    assert(s@.subrange(0, k as int) =~= key@);
    if s.get_char(k) != '=' {
        return None;
    }
    Some(s.substring_char(k + 1, n))
}

/// `needle` occurs in `hay` at position `i`.
pub open spec fn occurs_at(hay: Seq<char>, needle: Seq<char>, i: int) -> bool {
    0 <= i && i + needle.len() <= hay.len() && hay.subrange(i, i + needle.len()) == needle
}

/// `needle` occurs somewhere in `hay` (the empty text occurs in every text).
pub open spec fn contains_text(hay: Seq<char>, needle: Seq<char>) -> bool {
    exists|i: int| occurs_at(hay, needle, i)
}

/// The characters of a text.
pub fn chars_of(s: &str) -> (r: Vec<char>)
    ensures
        r@ == s@,
{
    let n = s.unicode_len();
    let mut out: Vec<char> = Vec::new();
    let mut i: usize = 0;
    while i < n
        invariant
            n == s@.len(),
            i <= n,
            out@ == s@.subrange(0, i as int),
        decreases n - i,
    {
        out.push(s.get_char(i));
        assert(out@ =~= s@.subrange(0, i + 1));
        i = i + 1;
    }
    assert(s@.subrange(0, n as int) =~= s@);
    out
}

/// Whether `needle` occurs in `hay`.
pub fn contains_chars(hay: &Vec<char>, needle: &Vec<char>) -> (r: bool)
    ensures
        r == contains_text(hay@, needle@),
{
    let n = hay.len();
    let m = needle.len();
    if m > n {
        assert forall|i: int| !occurs_at(hay@, needle@, i) by {}
        return false;
    }
    let mut i: usize = 0;
    while i <= n - m
        invariant
            n == hay@.len(),
            m == needle@.len(),
            m <= n,
            i <= n - m + 1,
            forall|x: int| 0 <= x < i ==> !occurs_at(hay@, needle@, x),
        decreases n - i,
    {
        let mut j: usize = 0;
        while j < m && hay[i + j] == needle[j]
            invariant
                n == hay@.len(),
                m == needle@.len(),
                i + m <= n,
                j <= m,
                forall|y: int| 0 <= y < j ==> hay@[i + y] == needle@[y],
            decreases m - j,
        {
            j = j + 1;
        }
        if j == m {
            assert(hay@.subrange(i as int, i + m) =~= needle@);
            assert(occurs_at(hay@, needle@, i as int));
            return true;
        }
        assert(!occurs_at(hay@, needle@, i as int)) by {
            if occurs_at(hay@, needle@, i as int) {
                assert(hay@.subrange(i as int, i + m)[j as int] == needle@[j as int]);
            }
        }
        i = i + 1;
    }
    assert forall|x: int| !occurs_at(hay@, needle@, x) by {
        if 0 <= x < i {
        }
    }
    false
}

/// Characters that separate the tokens of a specification.
pub open spec fn is_space(c: char) -> bool {
    c == ' ' || c == '\t' || c == '\n' || c == '\r'
}

/// Start and end of each maximal run of non-space characters, left to right.
pub open spec fn token_spans(s: Seq<char>) -> Seq<(int, int)>
    decreases s.len(),
{
    if s.len() == 0 {
        seq![]
    } else {
        let rest = token_spans(s.drop_last());
        let n = s.len() as int;
        if is_space(s.last()) {
            rest
        } else if n >= 2 && !is_space(s[n - 2]) {
            rest.update(rest.len() - 1, (rest.last().0, n))
        } else {
            rest.push((n - 1, n))
        }
    }
}

/// The whitespace-separated tokens of a text.
pub open spec fn tokens(s: Seq<char>) -> Seq<Seq<char>> {
    token_spans(s).map_values(|p: (int, int)| s.subrange(p.0, p.1))
}

proof fn lemma_spans_shape(s: Seq<char>)
    ensures
        forall|k: int|
            0 <= k < token_spans(s).len() ==> 0 <= (#[trigger] token_spans(s)[k]).0
                < token_spans(s)[k].1 <= s.len(),
        s.len() > 0 && !is_space(s.last()) ==> token_spans(s).len() > 0 && token_spans(s).last().1
            == s.len(),
    decreases s.len(),
{
    if s.len() > 0 {
        let t = s.drop_last();
        lemma_spans_shape(t);
        let rest = token_spans(t);
        let n = s.len() as int;
        if is_space(s.last()) {
        } else if n >= 2 && !is_space(s[n - 2]) {
            assert(t.last() == s[n - 2]);
            let u = rest.update(rest.len() - 1, (rest.last().0, n));
            assert(token_spans(s) == u);
            assert forall|k: int| 0 <= k < u.len() implies 0 <= (#[trigger] u[k]).0 < u[k].1 <= n by {
                if k < u.len() - 1 {
                    assert(u[k] == rest[k]);
                }
            }
        } else {
            let u = rest.push((n - 1, n));
            assert(token_spans(s) == u);
            assert forall|k: int| 0 <= k < u.len() implies 0 <= (#[trigger] u[k]).0 < u[k].1 <= n by {
                if k < u.len() - 1 {
                    assert(u[k] == rest[k]);
                }
            }
        }
    }
}

/// The tokens of a text, as `tokens` gives them.
pub fn split_tokens<'s>(s: &'s str) -> (r: Vec<&'s str>)
    ensures
        r@.len() == tokens(s@).len(),
        forall|k: int| 0 <= k < r@.len() ==> (#[trigger] r@[k])@ == tokens(s@)[k],
{
    let n = s.unicode_len();
    let mut starts: Vec<usize> = Vec::new();
    let mut ends: Vec<usize> = Vec::new();
    let mut prev_space = true;
    let mut i: usize = 0;
    while i < n
        invariant
            n == s@.len(),
            i <= n,
            starts@.len() == ends@.len(),
            starts@.len() == token_spans(s@.subrange(0, i as int)).len(),
            forall|k: int|
                0 <= k < starts@.len() ==> (#[trigger] token_spans(s@.subrange(0, i as int))[k])
                    == (starts@[k] as int, ends@[k] as int),
            prev_space == (i == 0 || is_space(s@[i - 1])),
        decreases n - i,
    {
        let c = s.get_char(i);
        let ghost pre = s@.subrange(0, i as int);
        let ghost next = s@.subrange(0, i + 1);
        proof {
            assert(next.drop_last() =~= pre);
            lemma_spans_shape(pre);
            if i >= 1 {
                assert(next[i - 1] == s@[i - 1]);
                assert(pre.last() == s@[i - 1]);
            }
        }
        if c == ' ' || c == '\t' || c == '\n' || c == '\r' {
            prev_space = true;
        } else if !prev_space {
            let last = ends.len() - 1;
            ends.set(last, i + 1);
            prev_space = false;
        } else {
            starts.push(i);
            ends.push(i + 1);
            prev_space = false;
        }
        i = i + 1;
    }
    assert(s@.subrange(0, n as int) =~= s@);
    proof {
        lemma_spans_shape(s@);
    }
    let mut out: Vec<&'s str> = Vec::new();
    let mut k: usize = 0;
    while k < starts.len()
        invariant
            n == s@.len(),
            starts@.len() == ends@.len(),
            starts@.len() == token_spans(s@).len(),
            forall|x: int|
                0 <= x < starts@.len() ==> (#[trigger] token_spans(s@)[x]) == (
                starts@[x] as int,
                ends@[x] as int,
            ),
            forall|x: int|
                0 <= x < token_spans(s@).len() ==> 0 <= (#[trigger] token_spans(s@)[x]).0
                    < token_spans(s@)[x].1 <= s@.len(),
            k <= starts@.len(),
            out@.len() == k,
            forall|x: int| 0 <= x < k ==> (#[trigger] out@[x])@ == tokens(s@)[x],
        decreases starts@.len() - k,
    {
        assert(token_spans(s@)[k as int] == (starts@[k as int] as int, ends@[k as int] as int));
        out.push(s.substring_char(starts[k], ends[k]));
        k = k + 1;
    }
    out
}

/// Start and end of each field between separators `sep`, left to right; a
/// text without `sep` is one field, and the empty text is one empty field.
pub open spec fn field_spans(s: Seq<char>, sep: char) -> Seq<(int, int)>
    decreases s.len(),
{
    if s.len() == 0 {
        seq![(0, 0)]
    } else {
        let rest = field_spans(s.drop_last(), sep);
        let n = s.len() as int;
        if s.last() == sep {
            rest.push((n, n))
        } else {
            rest.update(rest.len() - 1, (rest.last().0, n))
        }
    }
}

/// The fields of a text between separators `sep`.
pub open spec fn fields(s: Seq<char>, sep: char) -> Seq<Seq<char>> {
    field_spans(s, sep).map_values(|p: (int, int)| s.subrange(p.0, p.1))
}

proof fn lemma_field_spans_shape(s: Seq<char>, sep: char)
    ensures
        field_spans(s, sep).len() >= 1,
        field_spans(s, sep).last().1 == s.len(),
        forall|k: int|
            0 <= k < field_spans(s, sep).len() ==> 0 <= (#[trigger] field_spans(s, sep)[k]).0
                <= field_spans(s, sep)[k].1 <= s.len(),
    decreases s.len(),
{
    if s.len() > 0 {
        let t = s.drop_last();
        lemma_field_spans_shape(t, sep);
        let rest = field_spans(t, sep);
        let n = s.len() as int;
        let u = field_spans(s, sep);
        if s.last() == sep {
            assert(u == rest.push((n, n)));
        } else {
            assert(u == rest.update(rest.len() - 1, (rest.last().0, n)));
        }
        assert forall|k: int| 0 <= k < u.len() implies 0 <= (#[trigger] u[k]).0 <= u[k].1 <= n by {
            if k < rest.len() - 1 {
                assert(u[k] == rest[k]);
            }
        }
    }
}

/// The fields of a text between separators `sep`, as `fields` gives them.
pub fn split_fields<'s>(s: &'s str, sep: char) -> (r: Vec<&'s str>)
    ensures
        r@.len() == fields(s@, sep).len(),
        r@.len() >= 1,
        forall|k: int| 0 <= k < r@.len() ==> (#[trigger] r@[k])@ == fields(s@, sep)[k],
{
    let n = s.unicode_len();
    let mut starts: Vec<usize> = Vec::new();
    let mut ends: Vec<usize> = Vec::new();
    starts.push(0);
    ends.push(0);
    let mut i: usize = 0;
    proof {
        assert(s@.subrange(0, 0).len() == 0);
    }
    while i < n
        invariant
            n == s@.len(),
            i <= n,
            starts@.len() == ends@.len(),
            starts@.len() == field_spans(s@.subrange(0, i as int), sep).len(),
            forall|k: int|
                0 <= k < starts@.len() ==> (#[trigger] field_spans(s@.subrange(0, i as int), sep)[k])
                    == (starts@[k] as int, ends@[k] as int),
        decreases n - i,
    {
        let c = s.get_char(i);
        let ghost pre = s@.subrange(0, i as int);
        let ghost next = s@.subrange(0, i + 1);
        proof {
            assert(next.drop_last() =~= pre);
            lemma_field_spans_shape(pre, sep);
        }
        if c == sep {
            starts.push(i + 1);
            ends.push(i + 1);
        } else {
            let last = ends.len() - 1;
            ends.set(last, i + 1);
        }
        i = i + 1;
    }
    assert(s@.subrange(0, n as int) =~= s@);
    proof {
        lemma_field_spans_shape(s@, sep);
    }
    let mut out: Vec<&'s str> = Vec::new();
    let mut k: usize = 0;
    while k < starts.len()
        invariant
            n == s@.len(),
            starts@.len() == ends@.len(),
            starts@.len() == field_spans(s@, sep).len(),
            forall|x: int|
                0 <= x < starts@.len() ==> (#[trigger] field_spans(s@, sep)[x]) == (
                starts@[x] as int,
                ends@[x] as int,
            ),
            forall|x: int|
                0 <= x < field_spans(s@, sep).len() ==> 0 <= (#[trigger] field_spans(s@, sep)[x]).0
                    <= field_spans(s@, sep)[x].1 <= s@.len(),
            k <= starts@.len(),
            out@.len() == k,
            forall|x: int| 0 <= x < k ==> (#[trigger] out@[x])@ == fields(s@, sep)[x],
        decreases starts@.len() - k,
    {
        assert(field_spans(s@, sep)[k as int] == (starts@[k as int] as int, ends@[k as int] as int));
        out.push(s.substring_char(starts[k], ends[k]));
        k = k + 1;
    }
    out
}

/// The first place, at `from` or later, where `pat` occurs in `s`.
pub open spec fn first_at(s: Seq<char>, pat: Seq<char>, from: int) -> Option<int>
    decreases s.len() + 1 - from,
{
    if from < 0 || from + pat.len() > s.len() {
        None
    } else if occurs_at(s, pat, from) {
        Some(from)
    } else {
        first_at(s, pat, from + 1)
    }
}

/// The text before and after the first occurrence of `pat`.
pub open spec fn split_once_at(s: Seq<char>, pat: Seq<char>) -> Option<(Seq<char>, Seq<char>)> {
    match first_at(s, pat, 0) {
        Some(p) => Some((s.subrange(0, p), s.subrange(p + pat.len(), s.len() as int))),
        None => None,
    }
}

/// Splits `s` around the first occurrence of `pat`, as `split_once_at` says.
pub fn split_once<'s>(s: &'s str, pat: &str) -> (r: Option<(&'s str, &'s str)>)
    ensures
        r matches Some((a, b)) ==> split_once_at(s@, pat@) == Some((a@, b@)),
        r is None ==> split_once_at(s@, pat@) is None,
{
    let hay = chars_of(s);
    let needle = chars_of(pat);
    let n = hay.len();
    let m = needle.len();
    if m > n {
        return None;
    }
    let mut i: usize = 0;
    while i <= n - m
        invariant
            n == s@.len(),
            m == pat@.len(),
            hay@ == s@,
            needle@ == pat@,
            m <= n,
            i <= n - m + 1,
            first_at(s@, pat@, 0) == first_at(s@, pat@, i as int),
        decreases n - i,
    {
        let mut j: usize = 0;
        while j < m && hay[i + j] == needle[j]
            invariant
                n == hay@.len(),
                m == needle@.len(),
                i + m <= n,
                j <= m,
                forall|y: int| 0 <= y < j ==> hay@[i + y] == needle@[y],
            decreases m - j,
        {
            j = j + 1;
        }
        if j == m {
            assert(hay@.subrange(i as int, i + m) =~= needle@);
            return Some((s.substring_char(0, i), s.substring_char(i + m, n)));
        }
        assert(!occurs_at(s@, pat@, i as int)) by {
            if occurs_at(s@, pat@, i as int) {
                assert(hay@.subrange(i as int, i + m)[j as int] == needle@[j as int]);
            }
        }
        i = i + 1;
    }
    None
}

/// Whether two texts are equal.
pub fn same_text(a: &str, b: &str) -> (r: bool)
    ensures
        r == (a@ == b@),
{
    let n = a.unicode_len();
    if n != b.unicode_len() {
        return false;
    }
    let mut i: usize = 0;
    while i < n
        invariant
            n == a@.len(),
            n == b@.len(),
            i <= n,
            forall|j: int| 0 <= j < i ==> a@[j] == b@[j],
        decreases n - i,
    {
        if a.get_char(i) != b.get_char(i) {
            return false;
        }
        i = i + 1;
    }
    assert(a@ =~= b@);
    true
}

} // verus!



