//! The line source: turning the per-line read results of the input file
//! into the sequence of candidate URLs.
//!
//! Each line of the input file arrives as `Some(text)` for a line that was
//! read, or `None` for a line lost to a read failure.  A line yields a
//! candidate exactly when it was read and is non-empty: blank lines and
//! failed reads are skipped, and a failed line never aborts the read.

use vstd::prelude::*;

verus! {

/// The line yields no candidate: it failed to read or is empty.
pub open spec fn skipped(line: Option<String>) -> bool {
    match line {
        Option::None => true,
        Option::Some(s) => s@.len() == 0,
    }
}

/// The candidate URLs drawn from a sequence of line read results, in input
/// order: the non-empty lines that were read, and nothing else.
pub open spec fn candidate_seq(lines: Seq<Option<String>>) -> Seq<Seq<char>>
    decreases lines.len(),
{
    if lines.len() == 0 {
        Seq::empty()
    } else {
        let rest = candidate_seq(lines.drop_last());
        if skipped(lines.last()) {
            rest
        } else {
            rest.push(lines.last()->Some_0@)
        }
    }
}

/// How many lines are neither blank nor failed reads.
pub open spec fn live_count(lines: Seq<Option<String>>) -> nat
    decreases lines.len(),
{
    if lines.len() == 0 {
        0
    } else {
        live_count(lines.drop_last()) + if skipped(lines.last()) {
            0nat
        } else {
            1nat
        }
    }
}

/// The line source yields exactly one candidate per non-blank line that was
/// read, however many blank or unreadable lines surround them.
pub proof fn lemma_candidate_count(lines: Seq<Option<String>>)
    ensures
        candidate_seq(lines).len() == live_count(lines),
    decreases lines.len(),
{
    if lines.len() > 0 {
        lemma_candidate_count(lines.drop_last());
    }
}

/// Inserting a blank or unreadable line at any position leaves the
/// candidate sequence unchanged.
pub proof fn lemma_skipped_line_ignored(lines: Seq<Option<String>>, k: int, blank: Option<String>)
    requires
        0 <= k <= lines.len(),
        skipped(blank),
    ensures
        candidate_seq(lines.insert(k, blank)) == candidate_seq(lines),
    decreases lines.len(),
{
    let ins = lines.insert(k, blank);
    if k == lines.len() {
        assert(ins.drop_last() =~= lines);
        assert(ins.last() == blank);
    } else {
        assert(ins.drop_last() =~= lines.drop_last().insert(k, blank));
        assert(ins.last() == lines.last());
        lemma_skipped_line_ignored(lines.drop_last(), k, blank);
    }
}

/// No candidate URL is the empty string.
pub proof fn lemma_candidates_nonempty(lines: Seq<Option<String>>)
    ensures
        forall|k: int| 0 <= k < candidate_seq(lines).len() ==> (#[trigger] candidate_seq(
            lines,
        )[k]).len() > 0,
    decreases lines.len(),
{
    if lines.len() > 0 {
        lemma_candidates_nonempty(lines.drop_last());
        let rest = candidate_seq(lines.drop_last());
        assert forall|k: int|
            0 <= k < candidate_seq(lines).len() implies (#[trigger] candidate_seq(
            lines,
        )[k]).len() > 0 by {
            if k < rest.len() {
                assert(candidate_seq(lines)[k] == rest[k]);
            }
        }
    }
}

/// Collects the candidate URLs from the line read results: every non-empty
/// line that was read, in input order, skipping blank lines and failures.
pub fn candidate_urls(lines: &Vec<Option<String>>) -> (urls: Vec<String>)
    ensures
        urls@.map_values(|s: String| s@) == candidate_seq(lines@),
{
    let mut urls: Vec<String> = Vec::new();
    let mut i: usize = 0;
    proof {
        assert(lines@.subrange(0, 0) =~= Seq::<Option<String>>::empty());
        assert(urls@.map_values(|s: String| s@) =~= candidate_seq(lines@.subrange(0, 0)));
    }
    while i < lines.len()
        invariant
            i <= lines@.len(),
            urls@.map_values(|s: String| s@) == candidate_seq(lines@.subrange(0, i as int)),
        decreases lines@.len() - i,
    {
        let ghost prev = urls@;
        match &lines[i] {
            Option::Some(s) => {
                if !s.as_str().is_empty() {
                    urls.push(s.clone());
                }
            },
            Option::None => {},
        }
        proof {
            let pre = lines@.subrange(0, i as int);
            let cur = lines@.subrange(0, i + 1);
            assert(cur.drop_last() =~= pre);
            assert(cur.last() == lines@[i as int]);
            if !skipped(lines@[i as int]) {
                assert(urls@.map_values(|s: String| s@) =~= prev.map_values(
                    |s: String| s@,
                ).push(lines@[i as int]->Some_0@));
            }
        }
        i += 1;
    }
    proof {
        assert(lines@.subrange(0, lines@.len() as int) =~= lines@);
    }
    urls
}

} // verus!
