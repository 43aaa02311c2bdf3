//! The verification pipeline: one fetch per candidate URL, an optional
//! scan of the body for a search term, and a per-URL outcome.
//!
//! The network call itself happens outside the library; its result arrives
//! as a plain value, `Ok` with the body text or `Err` with an error kind.
//! Everything the pipeline decides from that value is verified here: which
//! body lines match, what outcome each URL gets, and that one URL's
//! failure never touches another URL's outcome.

use vstd::prelude::*;

use crate::text::contains_seq;
use crate::text::contains_term;
use crate::text::lines_of;
use crate::text::split_lines;
use crate::text::lemma_lines_contained;
use crate::text::lemma_contains_trans;

verus! {

/// Why a fetch failed.  One outbound GET is made per URL; any of these
/// kinds marks that URL's outcome as a failure without touching the rest
/// of the batch.
#[derive(Clone, Copy, Debug, PartialEq, Eq, Structural)]
pub enum FetchError {
    /// The URL is not a syntactically valid absolute URL.
    MalformedUrl,
    /// The host could not be resolved.
    Dns,
    /// The connection could not be established, or broke.
    ConnectionFailed,
    /// The request exceeded the transport's timeout.
    Timeout,
    /// The response body could not be read as text.
    NonTextBody,
}

/// The verification outcome for one candidate URL: success with the
/// matched lines (zero or more), or a failure kind.
#[derive(Debug, PartialEq, Eq)]
pub struct Outcome {
    /// The candidate URL this outcome belongs to.
    pub url: String,
    /// The matched lines on success, or why the fetch failed.
    pub result: Result<Vec<String>, FetchError>,
}

/// The lines of `lines` as character sequences, in order.
pub open spec fn lines_view(lines: Seq<String>) -> Seq<Seq<char>> {
    lines.map_values(|l: String| l@)
}

/// The view of an optional search term.
pub open spec fn term_view(term: Option<&str>) -> Option<Seq<char>> {
    match term {
        Option::Some(t) => Option::Some(t@),
        Option::None => Option::None,
    }
}

/// The view of a fetch result: the body text as characters, or the error.
pub open spec fn fetch_view(fetch: Result<String, FetchError>) -> Result<Seq<char>, FetchError> {
    match fetch {
        Result::Ok(body) => Result::Ok(body@),
        Result::Err(e) => Result::Err(e),
    }
}

/// The lines of `body` that contain `term` as a case-sensitive substring,
/// in body order and with nothing else.
pub open spec fn matching_lines(lines: Seq<Seq<char>>, term: Seq<char>) -> Seq<Seq<char>>
    decreases lines.len(),
{
    if lines.len() == 0 {
        Seq::empty()
    } else {
        let rest = matching_lines(lines.drop_last(), term);
        if contains_seq(lines.last(), term) {
            rest.push(lines.last())
        } else {
            rest
        }
    }
}

/// The matched lines of a whole body for a search term.
pub open spec fn match_lines_spec(body: Seq<char>, term: Seq<char>) -> Seq<Seq<char>> {
    matching_lines(lines_of(body), term)
}

/// What the outcome of one URL must be, given the optional search term and
/// the result of the URL's single fetch.
pub open spec fn outcome_for(
    o: Outcome,
    url: Seq<char>,
    term: Option<Seq<char>>,
    fetch: Result<Seq<char>, FetchError>,
) -> bool {
    &&& o.url@ == url
    &&& match fetch {
        Result::Err(e) => o.result == Result::<Vec<String>, FetchError>::Err(e),
        Result::Ok(body) => match term {
            Option::None => o.result matches Result::Ok(v) && v@.len() == 0,
            Option::Some(t) => o.result matches Result::Ok(v) && lines_view(v@)
                == match_lines_spec(body, t),
        },
    }
}

/// A whole batch went through the pipeline: one outcome per URL, each
/// determined by that URL's own fetch result alone.
pub open spec fn batch_ok(
    outcomes: Seq<Outcome>,
    urls: Seq<Seq<char>>,
    term: Option<Seq<char>>,
    fetches: Seq<Result<Seq<char>, FetchError>>,
) -> bool {
    &&& outcomes.len() == urls.len()
    &&& urls.len() == fetches.len()
    &&& forall|i: int|
        0 <= i < urls.len() ==> outcome_for(#[trigger] outcomes[i], urls[i], term, fetches[i])
}

/// Collects every line of `body` containing `term`: exactly the lines with
/// `term` as a case-sensitive substring, in body order.
pub fn matched_lines(body: &str, term: &str) -> (found: Vec<String>)
    ensures
        lines_view(found@) == match_lines_spec(body@, term@),
{
    let lines = split_lines(body);
    let mut found: Vec<String> = Vec::new();
    let mut k: usize = 0;
    proof {
        assert(lines_of(body@).subrange(0, 0) =~= Seq::<Seq<char>>::empty());
        assert(lines_view(found@) =~= matching_lines(lines_of(body@).subrange(0, 0), term@));
    }
    while k < lines.len()
        invariant
            k <= lines@.len(),
            lines_view(lines@) == lines_of(body@),
            lines_view(found@) == matching_lines(lines_of(body@).subrange(0, k as int), term@),
        decreases lines@.len() - k,
    {
        let ghost prev = found@;
        let line = &lines[k];
        assert(line@ == lines_of(body@)[k as int]);
        if contains_term(line.as_str(), term) {
            found.push(line.clone());
        }
        proof {
            let all = lines_of(body@);
            let cur = all.subrange(0, k + 1);
            assert(cur.drop_last() =~= all.subrange(0, k as int));
            assert(cur.last() == all[k as int]);
            if contains_seq(all[k as int], term@) {
                assert(lines_view(found@) =~= lines_view(prev).push(all[k as int]));
            }
        }
        k += 1;
    }
    proof {
        assert(lines_of(body@).subrange(0, lines_of(body@).len() as int) =~= lines_of(body@));
    }
    found
}

/// Builds the outcome of one candidate URL from the result of its single
/// fetch: the fetch error as a failure; on success, the matched lines when
/// a search term is given, and success with no matches — the body is not
/// scanned at all — when none is.
pub fn verify_response(
    url: &str,
    search_term: Option<&str>,
    fetch: &Result<String, FetchError>,
) -> (o: Outcome)
    ensures
        outcome_for(o, url@, term_view(search_term), fetch_view(*fetch)),
{
    match fetch {
        Result::Err(e) => Outcome { url: url.to_owned(), result: Result::Err(*e) },
        Result::Ok(body) => match search_term {
            Option::None => Outcome { url: url.to_owned(), result: Result::Ok(Vec::new()) },
            Option::Some(term) => Outcome {
                url: url.to_owned(),
                result: Result::Ok(matched_lines(body.as_str(), term)),
            },
        },
    }
}

/// Runs the whole batch: one outcome per URL, in input order, each from
/// that URL's own fetch result; a failed fetch never stops the batch.
pub fn run_batch(
    urls: &Vec<String>,
    search_term: Option<&str>,
    fetches: &Vec<Result<String, FetchError>>,
) -> (outcomes: Vec<Outcome>)
    requires
        urls@.len() == fetches@.len(),
    ensures
        batch_ok(
            outcomes@,
            lines_view(urls@),
            term_view(search_term),
            fetches@.map_values(|f: Result<String, FetchError>| fetch_view(f)),
        ),
{
    let mut outcomes: Vec<Outcome> = Vec::new();
    let mut i: usize = 0;
    while i < urls.len()
        invariant
            urls@.len() == fetches@.len(),
            i <= urls@.len(),
            outcomes@.len() == i,
            forall|j: int|
                0 <= j < i ==> outcome_for(
                    #[trigger] outcomes@[j],
                    urls@[j]@,
                    term_view(search_term),
                    fetch_view(fetches@[j]),
                ),
        decreases urls@.len() - i,
    {
        let o = verify_response(urls[i].as_str(), search_term, &fetches[i]);
        outcomes.push(o);
        i += 1;
    }
    outcomes
}

/// How many of the outcomes are failures.
pub open spec fn failure_count_of(outcomes: Seq<Outcome>) -> nat
    decreases outcomes.len(),
{
    if outcomes.len() == 0 {
        0
    } else {
        failure_count_of(outcomes.drop_last()) + if outcomes.last().result is Err {
            1nat
        } else {
            0nat
        }
    }
}

/// Counts the URLs of a batch whose fetch failed: the aggregate
/// success/failure tally of a run.
pub fn failure_count(outcomes: &Vec<Outcome>) -> (n: usize)
    ensures
        n == failure_count_of(outcomes@),
{
    let mut n: usize = 0;
    let mut i: usize = 0;
    proof {
        assert(outcomes@.subrange(0, 0) =~= Seq::<Outcome>::empty());
    }
    while i < outcomes.len()
        invariant
            i <= outcomes@.len(),
            n <= i,
            n == failure_count_of(outcomes@.subrange(0, i as int)),
        decreases outcomes@.len() - i,
    {
        if outcomes[i].result.is_err() {
            n += 1;
        }
        proof {
            let cur = outcomes@.subrange(0, i + 1);
            assert(cur.drop_last() =~= outcomes@.subrange(0, i as int));
            assert(cur.last() == outcomes@[i as int]);
        }
        i += 1;
    }
    proof {
        assert(outcomes@.subrange(0, outcomes@.len() as int) =~= outcomes@);
    }
    n
}

/// A URL whose fetch failed gets exactly that failure as its outcome, and
/// every other URL's outcome is still the one its own fetch dictates: a
/// failing URL never aborts or disturbs the rest of the batch.
pub proof fn lemma_failure_isolated(
    outcomes: Seq<Outcome>,
    urls: Seq<Seq<char>>,
    term: Option<Seq<char>>,
    fetches: Seq<Result<Seq<char>, FetchError>>,
    k: int,
)
    requires
        batch_ok(outcomes, urls, term, fetches),
        0 <= k < urls.len(),
        fetches[k] is Err,
    ensures
        outcomes.len() == urls.len(),
        outcomes[k].result == Result::<Vec<String>, FetchError>::Err(fetches[k]->Err_0),
        forall|j: int|
            0 <= j < urls.len() && j != k ==> outcome_for(
                #[trigger] outcomes[j],
                urls[j],
                term,
                fetches[j],
            ),
{
    assert(outcome_for(outcomes[k], urls[k], term, fetches[k]));
}

/// Two outcomes agree in every observable part: same URL, same success or
/// failure, same matched lines or same error kind.
pub open spec fn outcomes_agree(a: Outcome, b: Outcome) -> bool {
    &&& a.url@ == b.url@
    &&& (a.result is Ok <==> b.result is Ok)
    &&& (a.result matches Result::Ok(v) ==> b.result matches Result::Ok(w) && lines_view(v@)
        == lines_view(w@))
    &&& (a.result matches Result::Err(e) ==> b.result matches Result::Err(f) && e == f)
}

/// Determinism of the pipeline: two batch runs over the same URLs, the
/// same search term, and the same fetch results produce outcome sequences
/// that agree pairwise in every observable part; the pipeline keeps no
/// hidden state between runs.
pub proof fn lemma_batch_deterministic(
    first: Seq<Outcome>,
    second: Seq<Outcome>,
    urls: Seq<Seq<char>>,
    term: Option<Seq<char>>,
    fetches: Seq<Result<Seq<char>, FetchError>>,
)
    requires
        batch_ok(first, urls, term, fetches),
        batch_ok(second, urls, term, fetches),
    ensures
        first.len() == second.len(),
        forall|i: int| 0 <= i < first.len() ==> outcomes_agree(first[i], #[trigger] second[i]),
{
    assert forall|i: int|
        0 <= i < first.len() implies outcomes_agree(first[i], #[trigger] second[i]) by {
        assert(outcome_for(first[i], urls[i], term, fetches[i]));
        assert(outcome_for(second[i], urls[i], term, fetches[i]));
        if fetches[i] is Ok && term is None {
            let v = first[i].result->Ok_0;
            let w = second[i].result->Ok_0;
            assert(lines_view(v@) =~= lines_view(w@));
        }
    }
}

/// The matched lines are exactly the lines that contain the term, in body
/// order: the scan is the filter of the body's lines by case-sensitive
/// substring containment.
pub proof fn lemma_scan_is_filter(lines: Seq<Seq<char>>, term: Seq<char>)
    ensures
        matching_lines(lines, term) == lines.filter(|l: Seq<char>| contains_seq(l, term)),
    decreases lines.len(),
{
    reveal(Seq::filter);
    if lines.len() == 0 {
        assert(matching_lines(lines, term) =~= lines.filter(
            |l: Seq<char>| contains_seq(l, term),
        ));
    } else {
        lemma_scan_is_filter(lines.drop_last(), term);
    }
}

/// No line matches when none contains the term.
proof fn lemma_matching_lines_none(lines: Seq<Seq<char>>, term: Seq<char>)
    requires
        forall|k: int| 0 <= k < lines.len() ==> !contains_seq(#[trigger] lines[k], term),
    ensures
        matching_lines(lines, term).len() == 0,
    decreases lines.len(),
{
    if lines.len() > 0 {
        assert forall|k: int|
            0 <= k < lines.drop_last().len() implies !contains_seq(
            #[trigger] lines.drop_last()[k],
            term,
        ) by {
            assert(lines.drop_last()[k] == lines[k]);
        }
        lemma_matching_lines_none(lines.drop_last(), term);
        assert(!contains_seq(lines.last(), term));
    }
}

/// A search term that occurs nowhere in the body matches no line: the scan
/// reports zero matches, and that is not an error.
pub proof fn lemma_absent_term(body: Seq<char>, term: Seq<char>)
    requires
        !contains_seq(body, term),
    ensures
        match_lines_spec(body, term).len() == 0,
{
    lemma_lines_contained(body);
    assert forall|k: int|
        0 <= k < lines_of(body).len() implies !contains_seq(
        #[trigger] lines_of(body)[k],
        term,
    ) by {
        if contains_seq(lines_of(body)[k], term) {
            lemma_contains_trans(body, lines_of(body)[k], term);
        }
    }
    lemma_matching_lines_none(lines_of(body), term);
}

} // verus!
