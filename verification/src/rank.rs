use vstd::prelude::*;
use crate::codec::{address_id, address_to_u64, valid_address};
use crate::matcher::{fuzzy_score, record_score, Matcher};
use crate::model::{
    candidate_views, record_views, result_views, Candidate, CandidateView, MatchResult,
    MatchResultView, WindowRecord, WindowRecordView,
};

verus! {

// The ranker: every fetched window is scored against the query, the windows
// that match at all are sorted ascending by score — the sort direction the
// deployed behaviour fixes, however inverted it looks — and at most
// `max_entries` of them become results.

/// The candidate that a matching window record becomes.
pub open spec fn candidate_of(query: Seq<char>, r: WindowRecordView) -> CandidateView {
    CandidateView {
        title: r.title,
        score: record_score(query, r),
        id: address_id(r.address) as u64,
    }
}

/// The windows that match the query at all, in fetch order, each scored:
/// a record whose combined score is not strictly positive is dropped.
pub open spec fn candidates(query: Seq<char>, rs: Seq<WindowRecordView>) -> Seq<CandidateView>
    decreases rs.len(),
{
    if rs.len() == 0 {
        Seq::empty()
    } else {
        let rest = candidates(query, rs.drop_first());
        if record_score(query, rs.first()) > 0 {
            seq![candidate_of(query, rs.first())] + rest
        } else {
            rest
        }
    }
}

/// Insertion into a score-ordered sequence: the new candidate goes in front
/// of the first candidate whose score is at least its own, so among equal
/// scores an earlier candidate stays in front of a later one.
pub open spec fn insert_sorted(c: CandidateView, s: Seq<CandidateView>) -> Seq<CandidateView>
    decreases s.len(),
{
    if s.len() == 0 {
        seq![c]
    } else if c.score <= s.first().score {
        seq![c] + s
    } else {
        seq![s.first()] + insert_sorted(c, s.drop_first())
    }
}

/// Stable sort, ascending by score: each candidate is inserted into the
/// sorted rest of the sequence.
pub open spec fn sort_by_score(s: Seq<CandidateView>) -> Seq<CandidateView>
    decreases s.len(),
{
    if s.len() == 0 {
        Seq::empty()
    } else {
        insert_sorted(s.first(), sort_by_score(s.drop_first()))
    }
}

/// At most `max` entries survive; the rest of the sequence is cut off.
pub open spec fn truncated(s: Seq<CandidateView>, max: nat) -> Seq<CandidateView> {
    if s.len() <= max {
        s
    } else {
        s.take(max as int)
    }
}

/// The result entry a surviving candidate becomes: title and identifier.
pub open spec fn result_of(c: CandidateView) -> MatchResultView {
    MatchResultView { title: c.title, id: c.id }
}

/// The result entries of a sequence of candidates, in order.
pub open spec fn results_of(s: Seq<CandidateView>) -> Seq<MatchResultView> {
    s.map_values(|c: CandidateView| result_of(c))
}

/// The ranked results from already-scored candidates: sort ascending by
/// score, cut to `max`, keep title and identifier.
pub open spec fn ranked_candidates(cs: Seq<CandidateView>, max: nat) -> Seq<MatchResultView> {
    results_of(truncated(sort_by_score(cs), max))
}

/// The whole ranking pipeline, from a query and a fetched snapshot to the
/// emitted result sequence.
pub open spec fn ranked(query: Seq<char>, rs: Seq<WindowRecordView>, max: nat) -> Seq<
    MatchResultView,
> {
    ranked_candidates(candidates(query, rs), max)
}

/// Ascending by score, duplicates allowed.
pub open spec fn sorted_ascending(s: Seq<CandidateView>) -> bool {
    forall|i: int, j: int| 0 <= i < j < s.len() ==> s[i].score <= s[j].score
}

/// Every candidate matched: all scores strictly positive.
pub open spec fn all_positive(s: Seq<CandidateView>) -> bool {
    forall|i: int| 0 <= i < s.len() ==> (#[trigger] s[i]).score > 0
}

/// Appending a record to the snapshot appends its candidate, if it matches.
proof fn lemma_candidates_push(query: Seq<char>, rs: Seq<WindowRecordView>, r: WindowRecordView)
    ensures
        candidates(query, rs.push(r)) == candidates(query, rs) + (if record_score(query, r) > 0 {
            seq![candidate_of(query, r)]
        } else {
            Seq::<CandidateView>::empty()
        }),
    decreases rs.len(),
{
    let tail = if record_score(query, r) > 0 {
        seq![candidate_of(query, r)]
    } else {
        Seq::<CandidateView>::empty()
    };
    if rs.len() == 0 {
        assert(rs.push(r).drop_first() =~= Seq::<WindowRecordView>::empty());
        assert(rs.push(r).first() == r);
        assert(candidates(query, Seq::<WindowRecordView>::empty()) == Seq::<CandidateView>::empty());
        assert(candidates(query, rs) == Seq::<CandidateView>::empty());
        assert(candidates(query, rs.push(r)) =~= candidates(query, rs) + tail);
    } else {
        assert(rs.push(r).first() == rs.first());
        assert(rs.push(r).drop_first() =~= rs.drop_first().push(r));
        lemma_candidates_push(query, rs.drop_first(), r);
        if record_score(query, rs.first()) > 0 {
            assert(candidates(query, rs.push(r)) =~= candidates(query, rs) + tail);
        } else {
            assert(candidates(query, rs.push(r)) =~= candidates(query, rs) + tail);
        }
    }
}

proof fn lemma_insert_sorted_len(c: CandidateView, s: Seq<CandidateView>)
    ensures
        insert_sorted(c, s).len() == s.len() + 1,
    decreases s.len(),
{
    if s.len() > 0 && !(c.score <= s.first().score) {
        lemma_insert_sorted_len(c, s.drop_first());
    }
}

/// Every element of an insertion is the inserted candidate or one of the old.
proof fn lemma_insert_sorted_membership(c: CandidateView, s: Seq<CandidateView>)
    ensures
        forall|j: int|
            0 <= j < insert_sorted(c, s).len() ==> (#[trigger] insert_sorted(c, s)[j] == c
                || s.contains(insert_sorted(c, s)[j])),
    decreases s.len(),
{
    lemma_insert_sorted_len(c, s);
    if s.len() == 0 {
    } else if c.score <= s.first().score {
        assert forall|j: int| 0 <= j < insert_sorted(c, s).len() implies (#[trigger] insert_sorted(
            c,
            s,
        )[j] == c || s.contains(insert_sorted(c, s)[j])) by {
            if j > 0 {
                assert(insert_sorted(c, s)[j] == s[j - 1]);
            }
        }
    } else {
        lemma_insert_sorted_membership(c, s.drop_first());
        assert forall|j: int| 0 <= j < insert_sorted(c, s).len() implies (#[trigger] insert_sorted(
            c,
            s,
        )[j] == c || s.contains(insert_sorted(c, s)[j])) by {
            if j == 0 {
                assert(insert_sorted(c, s)[0] == s[0]);
                assert(s.contains(s[0]));
            } else {
                let t = insert_sorted(c, s.drop_first());
                assert(insert_sorted(c, s)[j] == t[j - 1]);
                if t[j - 1] != c {
                    let x = t[j - 1];
                    let k = choose|k: int|
                        0 <= k < s.drop_first().len() && s.drop_first()[k] == x;
                    assert(s[k + 1] == x);
                    assert(s.contains(x));
                }
            }
        }
    }
}

/// Insertion keeps a score-ordered sequence ordered.
proof fn lemma_insert_sorted_sorted(c: CandidateView, s: Seq<CandidateView>)
    requires
        sorted_ascending(s),
    ensures
        sorted_ascending(insert_sorted(c, s)),
    decreases s.len(),
{
    lemma_insert_sorted_len(c, s);
    if s.len() == 0 {
    } else if c.score <= s.first().score {
        assert forall|i: int, j: int|
            0 <= i < j < insert_sorted(c, s).len() implies insert_sorted(c, s)[i].score
            <= insert_sorted(c, s)[j].score by {
            if i > 0 {
                assert(insert_sorted(c, s)[i] == s[i - 1]);
            }
            assert(insert_sorted(c, s)[j] == s[j - 1]);
            if i == 0 {
                assert(c.score <= s[0].score);
            }
        }
    } else {
        assert(sorted_ascending(s.drop_first()));
        lemma_insert_sorted_sorted(c, s.drop_first());
        lemma_insert_sorted_membership(c, s.drop_first());
        let t = insert_sorted(c, s.drop_first());
        assert forall|i: int, j: int|
            0 <= i < j < insert_sorted(c, s).len() implies insert_sorted(c, s)[i].score
            <= insert_sorted(c, s)[j].score by {
            if i > 0 {
                assert(insert_sorted(c, s)[i] == t[i - 1]);
                assert(insert_sorted(c, s)[j] == t[j - 1]);
            } else {
                assert(insert_sorted(c, s)[0] == s.first());
                assert(insert_sorted(c, s)[j] == t[j - 1]);
                if t[j - 1] == c {
                    assert(s.first().score < c.score);
                } else {
                    let k = choose|k: int|
                        0 <= k < s.drop_first().len() && s.drop_first()[k] == t[j - 1];
                    assert(s[k + 1] == t[j - 1]);
                    assert(s.first().score <= s[k + 1].score);
                }
            }
        }
    }
}

/// Insertion keeps "every score positive".
proof fn lemma_insert_sorted_positive(c: CandidateView, s: Seq<CandidateView>)
    requires
        c.score > 0,
        all_positive(s),
    ensures
        all_positive(insert_sorted(c, s)),
{
    lemma_insert_sorted_membership(c, s);
    assert forall|j: int| 0 <= j < insert_sorted(c, s).len() implies (#[trigger] insert_sorted(
        c,
        s,
    )[j]).score > 0 by {
        if insert_sorted(c, s)[j] != c {
            let k = choose|k: int| 0 <= k < s.len() && s[k] == insert_sorted(c, s)[j];
            assert(s[k].score > 0);
        }
    }
}

/// The sorted sequence is ordered ascending and keeps every score positive.
proof fn lemma_sort_by_score_ordered(s: Seq<CandidateView>)
    requires
        all_positive(s),
    ensures
        sorted_ascending(sort_by_score(s)),
        all_positive(sort_by_score(s)),
        sort_by_score(s).len() == s.len(),
    decreases s.len(),
{
    if s.len() > 0 {
        assert(all_positive(s.drop_first())) by {
            assert(forall|i: int|
                0 <= i < s.drop_first().len() ==> #[trigger] s.drop_first()[i] == s[i + 1]);
        }
        lemma_sort_by_score_ordered(s.drop_first());
        assert(s.first().score > 0);
        lemma_insert_sorted_sorted(s.first(), sort_by_score(s.drop_first()));
        lemma_insert_sorted_positive(s.first(), sort_by_score(s.drop_first()));
        lemma_insert_sorted_len(s.first(), sort_by_score(s.drop_first()));
    }
}

/// Every candidate that the filter keeps has a strictly positive score.
proof fn lemma_candidates_positive(query: Seq<char>, rs: Seq<WindowRecordView>)
    ensures
        all_positive(candidates(query, rs)),
    decreases rs.len(),
{
    if rs.len() > 0 {
        lemma_candidates_positive(query, rs.drop_first());
        let rest = candidates(query, rs.drop_first());
        if record_score(query, rs.first()) > 0 {
            assert forall|i: int|
                0 <= i < candidates(query, rs).len() implies (#[trigger] candidates(query, rs)[i]).score
                > 0 by {
                if i > 0 {
                    assert(candidates(query, rs)[i] == rest[i - 1]);
                }
            }
        }
    }
}

/// The emitted sequence never exceeds the configured maximum; what survives
/// the cut is sorted ascending by score, and every surviving candidate
/// matched its query with a strictly positive score.
pub proof fn lemma_ranked_bounded_positive_sorted(
    query: Seq<char>,
    rs: Seq<WindowRecordView>,
    max: nat,
)
    ensures
        ranked(query, rs, max).len() <= max,
        ranked(query, rs, max) == results_of(
            truncated(sort_by_score(candidates(query, rs)), max),
        ),
        all_positive(truncated(sort_by_score(candidates(query, rs)), max)),
        sorted_ascending(truncated(sort_by_score(candidates(query, rs)), max)),
{
    let cs = candidates(query, rs);
    lemma_candidates_positive(query, rs);
    lemma_sort_by_score_ordered(cs);
    let cut = truncated(sort_by_score(cs), max);
    assert(forall|j: int| 0 <= j < cut.len() ==> #[trigger] cut[j] == sort_by_score(cs)[j]);
}

/// A window neither of whose text fields matches the query at all.
pub open spec fn no_field_match(query: Seq<char>, r: WindowRecordView) -> bool {
    fuzzy_score(r.title, query) is None && fuzzy_score(r.class, query) is None
}

/// When no window's title or class matches the query, the result sequence is
/// empty.
pub proof fn lemma_no_match_no_results(query: Seq<char>, rs: Seq<WindowRecordView>, max: nat)
    requires
        forall|i: int| 0 <= i < rs.len() ==> no_field_match(query, #[trigger] rs[i]),
    ensures
        ranked(query, rs, max) == Seq::<MatchResultView>::empty(),
    decreases rs.len(),
{
    if rs.len() == 0 {
        assert(ranked(query, rs, max) =~= Seq::<MatchResultView>::empty());
    } else {
        assert(record_score(query, rs.first()) == 0);
        assert(forall|i: int|
            0 <= i < rs.drop_first().len() ==> no_field_match(query, #[trigger] rs.drop_first()[i]));
        lemma_no_match_no_results(query, rs.drop_first(), max);
        assert(candidates(query, rs) == candidates(query, rs.drop_first()));
        assert(ranked(query, rs, max) =~= Seq::<MatchResultView>::empty());
    }
}

/// Splitting an insertion at the position the scan finds: everything before
/// it scores below the new candidate, and it goes right there.
proof fn lemma_insert_sorted_split(c: CandidateView, s: Seq<CandidateView>, j: int)
    requires
        0 <= j <= s.len(),
        forall|k: int| 0 <= k < j ==> (#[trigger] s[k]).score < c.score,
        j < s.len() ==> c.score <= s[j].score,
    ensures
        insert_sorted(c, s) == s.take(j) + seq![c] + s.skip(j),
    decreases j,
{
    if j == 0 {
        if s.len() == 0 {
            assert(insert_sorted(c, s) =~= s.take(0) + seq![c] + s.skip(0));
        } else {
            assert(insert_sorted(c, s) =~= s.take(0) + seq![c] + s.skip(0));
        }
    } else {
        assert(s[0].score < c.score);
        let t = s.drop_first();
        assert(forall|k: int| 0 <= k < j - 1 ==> (#[trigger] t[k]).score < c.score) by {
            assert(forall|k: int| 0 <= k < t.len() ==> #[trigger] t[k] == s[k + 1]);
        }
        assert(j - 1 < t.len() ==> c.score <= t[j - 1].score);
        lemma_insert_sorted_split(c, t, j - 1);
        assert(insert_sorted(c, s) == seq![s.first()] + (t.take(j - 1) + seq![c] + t.skip(j - 1)));
        assert(insert_sorted(c, s) =~= s.take(j) + seq![c] + s.skip(j));
    }
}

/// Places one candidate into a vector at the first position whose score is
/// not below its own, so a vector sorted ascending stays sorted and the new
/// candidate goes in front of every equal score already placed; candidates
/// arrive here from the back of the fetch order, so equal scores end up in
/// that order.
fn insert_candidate(out: &mut Vec<Candidate>, c: Candidate)
    ensures
        candidate_views(final(out)@) == insert_sorted(c@, candidate_views(old(out)@)),
{
    let ghost cv = candidate_views(out@);
    let mut j: usize = 0;
    while j < out.len() && out[j].score < c.score
        invariant
            j <= out@.len(),
            out@ == old(out)@,
            cv == candidate_views(out@),
            forall|k: int| 0 <= k < j ==> (#[trigger] cv[k]).score < c@.score,
        decreases out@.len() - j,
    {
        assert(cv[j as int] == out@[j as int]@);
        j = j + 1;
    }
    assert(j < out@.len() ==> c@.score <= cv[j as int].score) by {
        if j < out@.len() {
            assert(cv[j as int] == out@[j as int]@);
        }
    }
    proof {
        lemma_insert_sorted_split(c@, cv, j as int);
    }
    out.insert(j, c);
    assert(candidate_views(out@) =~= cv.take(j as int) + seq![c@] + cv.skip(j as int)) by {
        assert(out@ == old(out)@.insert(j as int, c));
        assert(forall|i: int|
            0 <= i < out@.len() ==> #[trigger] candidate_views(out@)[i] == out@[i]@);
    }
}

/// Stable insertion sort, ascending by score: candidates are drawn from the
/// back of the input and inserted in front of equal scores, so candidates of
/// equal score keep their fetch order.
fn sort_candidates(input: Vec<Candidate>) -> (out: Vec<Candidate>)
    ensures
        candidate_views(out@) == sort_by_score(candidate_views(input@)),
{
    let ghost cs = candidate_views(input@);
    let mut rest = input;
    let mut out: Vec<Candidate> = Vec::new();
    while rest.len() > 0
        invariant
            rest@.len() <= cs.len(),
            cs.take(rest@.len() as int) == candidate_views(rest@),
            candidate_views(out@) == sort_by_score(cs.skip(rest@.len() as int)),
        decreases rest@.len(),
    {
        let ghost n = rest@.len() as int - 1;
        let ghost prev = rest@;
        let c = rest.pop().unwrap();
        proof {
            assert(candidate_views(prev)[n] == prev[n]@);
            assert(cs.take(n + 1)[n] == cs[n]);
            assert(c@ == cs[n]);
            assert(cs.take(n) =~= candidate_views(rest@)) by {
                assert(forall|i: int|
                    0 <= i < rest@.len() ==> #[trigger] candidate_views(rest@)[i] == rest@[i]@);
            }
            assert(cs.skip(n).first() == cs[n]);
            assert(cs.skip(n).drop_first() =~= cs.skip(n + 1));
        }
        insert_candidate(&mut out, c);
        proof {
            assert(sort_by_score(cs.skip(n)) == insert_sorted(
                cs.skip(n).first(),
                sort_by_score(cs.skip(n).drop_first()),
            ));
        }
    }
    proof {
        assert(cs.skip(0) =~= cs);
    }
    out
}

/// Keeps the first `max_entries` sorted candidates, each reduced to the
/// title it displays and the identifier a later selection hands back.
fn take_results(sorted: Vec<Candidate>, max_entries: usize) -> (res: Vec<MatchResult>)
    ensures
        result_views(res@) == results_of(truncated(candidate_views(sorted@), max_entries as nat)),
{
    let ghost cv = candidate_views(sorted@);
    let n: usize = if sorted.len() < max_entries {
        sorted.len()
    } else {
        max_entries
    };
    let mut res: Vec<MatchResult> = Vec::new();
    let mut i: usize = 0;
    proof {
        assert(result_views(res@) =~= results_of(cv.take(0)));
    }
    while i < n
        invariant
            i <= n,
            n <= sorted@.len(),
            n as nat == if sorted@.len() <= max_entries as nat {
                sorted@.len()
            } else {
                max_entries as nat
            },
            cv == candidate_views(sorted@),
            result_views(res@) == results_of(cv.take(i as int)),
        decreases n - i,
    {
        let title = sorted[i].title.clone();
        let id = sorted[i].id;
        let m = MatchResult { title, id };
        let ghost mv = m@;
        let ghost prev = res@;
        res.push(m);
        proof {
            assert(cv[i as int] == sorted@[i as int]@);
            assert(mv == result_of(cv[i as int]));
            assert(prev.len() == i as int) by {
                assert(result_views(prev).len() == prev.len());
                assert(cv.take(i as int).len() == i as int);
            }
            assert(res@ == prev.push(m));
            assert(res@.len() == prev.len() + 1 && res@[i as int]@ == mv);
            assert forall|k: int| 0 <= k < res@.len() implies result_views(res@)[k] == results_of(
                cv.take(i + 1),
            )[k] by {
                assert(result_views(res@)[k] == res@[k]@);
                assert(results_of(cv.take(i + 1))[k] == result_of(cv.take(i + 1)[k]));
                assert(cv.take(i + 1)[k] == cv[k]);
                if k < i as int {
                    assert(res@[k] == prev[k]);
                    assert(result_views(prev)[k] == prev[k]@);
                    assert(result_views(prev)[k] == result_of(cv.take(i as int)[k]));
                    assert(cv.take(i as int)[k] == cv[k]);
                }
            }
            assert(result_views(res@) =~= results_of(cv.take(i + 1)));
        }
        i = i + 1;
    }
    proof {
        assert(truncated(cv, max_entries as nat) =~= cv.take(n as int));
        assert(result_views(res@) == results_of(truncated(cv, max_entries as nat)));
    }
    res
}

/// Ranks already-scored candidates: stable sort ascending by score, then at
/// most `max_entries` survive, lowest scores first.
pub fn rank_candidates(cands: Vec<Candidate>, max_entries: usize) -> (res: Vec<MatchResult>)
    ensures
        result_views(res@) == ranked_candidates(candidate_views(cands@), max_entries as nat),
{
    let ghost cs = candidate_views(cands@);
    let sorted = sort_candidates(cands);
    let res = take_results(sorted, max_entries);
    proof {
        assert(result_views(res@) =~= ranked_candidates(cs, max_entries as nat));
    }
    res
}

/// Scores every fetched window against the query and keeps the ones that
/// match at all, in fetch order.
fn score_all(matcher: &Matcher, query: &str, records: &Vec<WindowRecord>) -> (out: Vec<Candidate>)
    requires
        forall|i: int|
            0 <= i < records@.len() ==> valid_address((#[trigger] records@[i])@.address),
    ensures
        candidate_views(out@) == candidates(query@, record_views(records@)),
{
    let ghost rv = record_views(records@);
    let mut out: Vec<Candidate> = Vec::new();
    let mut i: usize = 0;
    while i < records.len()
        invariant
            i <= records@.len(),
            rv == record_views(records@),
            forall|k: int|
                0 <= k < records@.len() ==> valid_address((#[trigger] records@[k])@.address),
            candidate_views(out@) == candidates(query@, rv.take(i as int)),
        decreases records@.len() - i,
    {
        let r = &records[i];
        proof {
            assert(rv[i as int] == records@[i as int]@);
            lemma_candidates_push(query@, rv.take(i as int), r@);
            assert(rv.take(i + 1) =~= rv.take(i as int).push(r@));
        }
        let score = matcher.score_record(query, r);
        if score > 0 {
            let id = address_to_u64(&r.address);
            let title = r.title.clone();
            out.push(Candidate { title, score, id });
            proof {
                assert(candidate_views(out@) =~= candidates(query@, rv.take(i as int)) + seq![
                    candidate_of(query@, r@),
                ]) by {
                    assert(forall|k: int|
                        0 <= k < out@.len() ==> #[trigger] candidate_views(out@)[k] == out@[k]@);
                }
            }
        }
        i = i + 1;
    }
    proof {
        assert(rv.take(records@.len() as int) =~= rv);
    }
    out
}

/// One query against one snapshot: every window is scored against the query,
/// the windows that match at all are sorted ascending by combined score, and
/// at most `max_entries` of them are emitted, each carrying its title and
/// its stable identifier. The window manager's contract makes every fetched
/// address token well formed, which the precondition records.
pub fn get_matches(
    matcher: &Matcher,
    query: &str,
    records: &Vec<WindowRecord>,
    max_entries: usize,
) -> (res: Vec<MatchResult>)
    requires
        forall|i: int|
            0 <= i < records@.len() ==> valid_address((#[trigger] records@[i])@.address),
    ensures
        result_views(res@) == ranked(query@, record_views(records@), max_entries as nat),
{
    let cands = score_all(matcher, query, records);
    rank_candidates(cands, max_entries)
}

/// Ranking is deterministic: two runs over one query, one snapshot and one
/// maximum emit identical sequences.
pub proof fn lemma_search_deterministic(
    query: Seq<char>,
    rs: Seq<WindowRecordView>,
    max: nat,
    r1: Seq<MatchResultView>,
    r2: Seq<MatchResultView>,
)
    requires
        r1 == ranked(query, rs, max),
        r2 == ranked(query, rs, max),
    ensures
        r1 == r2,
{
}

} // verus!
