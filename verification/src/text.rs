//! Line splitting and case-sensitive substring search over character
//! sequences, with executable counterparts for `&str` values.

use vstd::prelude::*;

verus! {

/// Index of the first newline character of `s`, or `s.len()` if `s` holds
/// none.
pub open spec fn first_nl(s: Seq<char>) -> nat
    decreases s.len(),
{
    if s.len() == 0 {
        0
    } else if s[0] == '\n' {
        0
    } else {
        1 + first_nl(s.subrange(1, s.len() as int))
    }
}

/// A line with a final carriage return removed: the shape a line takes when
/// the newline that ended it closed a `\r\n` pair.
pub open spec fn strip_cr(l: Seq<char>) -> Seq<char> {
    if l.len() > 0 && l[l.len() - 1] == '\r' {
        l.subrange(0, l.len() - 1)
    } else {
        l
    }
}

/// The lines of `s`: split at each `\n`, with a `\r` that immediately
/// precedes a `\n` dropped from its line.  Terminators belong to no line,
/// and a final terminator is optional (a trailing empty segment yields no
/// line), matching how `str::lines` divides a body of text.
pub open spec fn lines_of(s: Seq<char>) -> Seq<Seq<char>>
    decreases s.len(),
{
    if s.len() == 0 {
        Seq::empty()
    } else {
        let d = first_nl(s);
        if d >= s.len() {
            seq![s]
        } else {
            seq![strip_cr(s.subrange(0, d as int))] + lines_of(
                s.subrange(d + 1 as int, s.len() as int),
            )
        }
    }
}

/// `needle` occurs in `hay` starting at position `i`.
pub open spec fn occurs_at(hay: Seq<char>, needle: Seq<char>, i: int) -> bool {
    0 <= i && i + needle.len() <= hay.len() && hay.subrange(i, i + needle.len()) == needle
}

/// `needle` is a contiguous substring of `hay`.
pub open spec fn contains_seq(hay: Seq<char>, needle: Seq<char>) -> bool {
    exists|i: int| occurs_at(hay, needle, i)
}

/// `first_nl` points at a newline (when there is one) and nothing before it
/// is a newline.
pub proof fn lemma_first_nl_bound(s: Seq<char>)
    ensures
        first_nl(s) <= s.len(),
        forall|j: int| 0 <= j < first_nl(s) ==> s[j] != '\n',
        first_nl(s) < s.len() ==> s[first_nl(s) as int] == '\n',
    decreases s.len(),
{
    if s.len() == 0 {
    } else if s[0] == '\n' {
    } else {
        let t = s.subrange(1, s.len() as int);
        lemma_first_nl_bound(t);
        assert forall|j: int| 0 <= j < first_nl(s) implies s[j] != '\n' by {
            if j >= 1 {
                assert(s[j] == t[j - 1]);
            }
        }
        if first_nl(s) < s.len() {
            assert(s[first_nl(s) as int] == t[first_nl(t) as int]);
        }
    }
}

/// The position of the first newline is pinned by its defining properties.
pub proof fn lemma_first_nl_at(s: Seq<char>, d: int)
    requires
        0 <= d <= s.len(),
        forall|j: int| 0 <= j < d ==> s[j] != '\n',
        d < s.len() ==> s[d] == '\n',
    ensures
        first_nl(s) == d,
    decreases s.len(),
{
    if d == 0 {
        if s.len() == 0 {
        } else {
            assert(s[0] == '\n');
        }
    } else {
        assert(s[0] != '\n');
        let t = s.subrange(1, s.len() as int);
        assert forall|j: int| 0 <= j < d - 1 implies t[j] != '\n' by {
            assert(t[j] == s[j + 1]);
        }
        if d - 1 < t.len() {
            assert(t[d - 1] == s[d]);
        }
        lemma_first_nl_at(t, d - 1);
    }
}

/// Substring containment is transitive.
pub proof fn lemma_contains_trans(a: Seq<char>, b: Seq<char>, c: Seq<char>)
    requires
        contains_seq(a, b),
        contains_seq(b, c),
    ensures
        contains_seq(a, c),
{
    let i = choose|i: int| occurs_at(a, b, i);
    let j = choose|j: int| occurs_at(b, c, j);
    assert(a.subrange(i + j, i + j + c.len() as int) =~= c) by {
        assert forall|k: int| 0 <= k < c.len() implies a[i + j + k] == c[k] by {
            assert(b.subrange(j, j + c.len() as int)[k] == b[j + k]);
            assert(a.subrange(i, i + b.len() as int)[j + k] == a[i + j + k]);
        }
    }
    assert(occurs_at(a, c, i + j));
}

/// Every line produced by `lines_of(s)` is a contiguous substring of `s`.
pub proof fn lemma_lines_contained(s: Seq<char>)
    ensures
        forall|k: int|
            0 <= k < lines_of(s).len() ==> #[trigger] contains_seq(s, lines_of(s)[k]),
    decreases s.len(),
{
    if s.len() == 0 {
    } else {
        let d = first_nl(s);
        lemma_first_nl_bound(s);
        if d >= s.len() {
            assert(s.subrange(0, s.len() as int) =~= s);
            assert(occurs_at(s, s, 0));
        } else {
            let head = strip_cr(s.subrange(0, d as int));
            let tail = s.subrange(d + 1 as int, s.len() as int);
            lemma_lines_contained(tail);
            assert(s.subrange(0, head.len() as int) =~= head);
            assert(occurs_at(s, head, 0));
            assert(s.subrange(d + 1 as int, d + 1 + tail.len() as int) =~= tail);
            assert(occurs_at(s, tail, d + 1 as int));
            assert forall|k: int|
                0 <= k < lines_of(s).len() implies #[trigger] contains_seq(
                s,
                lines_of(s)[k],
            ) by {
                if k > 0 {
                    assert(lines_of(s)[k] == lines_of(tail)[k - 1]);
                    assert(contains_seq(tail, lines_of(tail)[k - 1]));
                    lemma_contains_trans(s, tail, lines_of(tail)[k - 1]);
                }
            }
        }
    }
}

/// `needle` occurs in `hay` at position `i`; a character-by-character check.
fn check_occurs_at(hay: &str, needle: &str, i: usize) -> (r: bool)
    requires
        i + needle@.len() <= hay@.len(),
        hay@.len() <= usize::MAX,
    ensures
        r == occurs_at(hay@, needle@, i as int),
{
    let n = needle.unicode_len();
    let mut j: usize = 0;
    while j < n
        invariant
            n == needle@.len(),
            i + n <= hay@.len() <= usize::MAX,
            j <= n,
            forall|k: int| 0 <= k < j ==> hay@[i + k] == needle@[k],
        decreases n - j,
    {
        if hay.get_char(i + j) != needle.get_char(j) {
            assert(hay@.subrange(i as int, i + n as int)[j as int] == hay@[i + j]);
            assert(hay@.subrange(i as int, i + n as int) != needle@);
            return false;
        }
        j += 1;
    }
    assert(hay@.subrange(i as int, i + n as int) =~= needle@);
    true
}

/// `needle` is a substring of `hay`, by case-sensitive character
/// comparison and with no normalization, as `str::contains` decides it.
pub fn contains_term(hay: &str, needle: &str) -> (r: bool)
    ensures
        r == contains_seq(hay@, needle@),
{
    let nh = hay.unicode_len();
    let nn = needle.unicode_len();
    if nn > nh {
        assert forall|i: int| !occurs_at(hay@, needle@, i) by {}
        return false;
    }
    if nn == 0 {
        assert(hay@.subrange(0, 0) =~= needle@);
        assert(occurs_at(hay@, needle@, 0));
        return true;
    }
    let mut i: usize = 0;
    while i <= nh - nn
        invariant
            nh == hay@.len(),
            nn == needle@.len(),
            1 <= nn <= nh,
            i <= nh - nn + 1,
            forall|k: int| 0 <= k < i ==> !occurs_at(hay@, needle@, k),
        decreases nh - nn + 1 - i,
    {
        if check_occurs_at(hay, needle, i) {
            assert(contains_seq(hay@, needle@));
            return true;
        }
        i += 1;
    }
    assert forall|k: int| !occurs_at(hay@, needle@, k) by {
        if 0 <= k && k + nn <= nh {
            assert(!occurs_at(hay@, needle@, k));
        }
    }
    false
}

/// The lines of `body`, each as a fresh `String`, in body order.
pub fn split_lines(body: &str) -> (lines: Vec<String>)
    ensures
        lines@.map_values(|l: String| l@) == lines_of(body@),
{
    let n = body.unicode_len();
    let mut lines: Vec<String> = Vec::new();
    let mut start: usize = 0;
    let mut i: usize = 0;
    proof {
        assert(body@.subrange(0, n as int) =~= body@);
        assert(lines@.map_values(|l: String| l@) + lines_of(body@) =~= lines_of(body@));
    }
    while i < n
        invariant
            n == body@.len(),
            start <= i <= n,
            forall|j: int| start <= j < i ==> body@[j] != '\n',
            lines_of(body@) == lines@.map_values(|l: String| l@) + lines_of(
                body@.subrange(start as int, n as int),
            ),
        decreases n - i,
    {
        if body.get_char(i) == '\n' {
            let end = if i > start && body.get_char(i - 1) == '\r' {
                i - 1
            } else {
                i
            };
            let line = body.substring_char(start, end).to_owned();
            proof {
                let t = body@.subrange(start as int, n as int);
                assert forall|j: int| 0 <= j < i - start implies t[j] != '\n' by {
                    assert(t[j] == body@[start + j]);
                }
                assert(t[i - start] == body@[i as int]);
                lemma_first_nl_at(t, i - start);
                let head = t.subrange(0, (i - start) as int);
                assert(head =~= body@.subrange(start as int, i as int));
                assert(t.subrange(i - start + 1, t.len() as int) =~= body@.subrange(
                    i + 1,
                    n as int,
                ));
                if i > start && body@[i - 1] == '\r' {
                    assert(head[head.len() - 1] == body@[i - 1]);
                    assert(strip_cr(head) =~= body@.subrange(start as int, i - 1));
                } else {
                    if head.len() > 0 {
                        assert(head[head.len() - 1] == body@[i - 1]);
                    }
                    assert(strip_cr(head) == head);
                }
                assert(strip_cr(head) == line@);
                assert(lines_of(t) == seq![line@] + lines_of(
                    body@.subrange(i + 1, n as int),
                ));
                assert(lines@.push(line).map_values(|l: String| l@) =~= lines@.map_values(
                    |l: String| l@,
                ).push(line@));
                assert(lines@.map_values(|l: String| l@).push(line@) + lines_of(
                    body@.subrange(i + 1, n as int),
                ) =~= lines@.map_values(|l: String| l@) + lines_of(t));
            }
            lines.push(line);
            start = i + 1;
        }
        i += 1;
    }
    if start < n {
        let line = body.substring_char(start, n).to_owned();
        proof {
            let t = body@.subrange(start as int, n as int);
            assert forall|j: int| 0 <= j < t.len() implies t[j] != '\n' by {
                assert(t[j] == body@[start + j]);
            }
            lemma_first_nl_at(t, t.len() as int);
            assert(lines_of(t) == seq![t]);
            assert(line@ == t);
            assert(lines@.push(line).map_values(|l: String| l@) =~= lines@.map_values(
                |l: String| l@,
            ).push(line@));
            assert(lines@.map_values(|l: String| l@).push(line@) =~= lines@.map_values(
                |l: String| l@,
            ) + seq![t]);
        }
        lines.push(line);
    } else {
        proof {
            let t = body@.subrange(start as int, n as int);
            assert(t.len() == 0);
            assert(lines_of(t) == Seq::<Seq<char>>::empty());
            assert(lines@.map_values(|l: String| l@) + lines_of(t) =~= lines@.map_values(
                |l: String| l@,
            ));
        }
    }
    lines
}

} // verus!
