use vstd::prelude::*;
use crate::model::WindowRecord;
use crate::model::WindowRecordView;

verus! {

#[verifier::external_type_specification]
#[verifier::external_body]
pub struct ExSkimMatcherV2(fuzzy_matcher::skim::SkimMatcherV2);

/// The relevance score that the skim fuzzy matcher, in its default
/// configuration, gives a choice string against a query pattern: `None` when
/// the pattern does not match, otherwise the score. The algorithm is fixed
/// and reads nothing but the two strings, so the result is a function of
/// them alone; its exact value is left unstated.
pub uninterp spec fn fuzzy_score(choice: Seq<char>, pattern: Seq<char>) -> Option<i64>;

/// The fuzzy-matching engine, built once at startup and shared read-only by
/// every query. Every `Matcher` holds a default-configured skim matcher, so
/// its scores depend on the strings alone.
pub struct Matcher {
    inner: fuzzy_matcher::skim::SkimMatcherV2,
}

impl Matcher {
    /// Relies on `SkimMatcherV2::default`: a matcher with the crate's fixed
    /// default configuration (smart case, no element limit, no debug).
    #[verifier::external_body]
    fn skim_default() -> fuzzy_matcher::skim::SkimMatcherV2 {
        fuzzy_matcher::skim::SkimMatcherV2::default()
    }

    pub fn new() -> Matcher {
        Matcher { inner: Self::skim_default() }
    }

    /// Relies on `FuzzyMatcher::fuzzy_match` for `SkimMatcherV2`: with the
    /// default configuration (the only one a `Matcher` ever holds) the score
    /// is computed from the two strings alone by a fixed deterministic
    /// algorithm, and an empty pattern matches everything with score 0.
    #[verifier::external_body]
    fn fuzzy_match(&self, choice: &str, pattern: &str) -> (r: Option<i64>)
        ensures
            r == fuzzy_score(choice@, pattern@),
            pattern@.len() == 0 ==> r == Some(0i64),
    {
        fuzzy_matcher::FuzzyMatcher::fuzzy_match(&self.inner, choice, pattern)
    }
}

/// What a missing match contributes to a combined score: nothing.
pub open spec fn score_contribution(r: Option<i64>) -> int {
    match r {
        Some(v) => v as int,
        None => 0,
    }
}

/// The combined relevance of a window against a query: the fuzzy score of its
/// title plus the fuzzy score of its class, a field without a match
/// contributing 0.
pub open spec fn record_score(query: Seq<char>, r: WindowRecordView) -> int {
    score_contribution(fuzzy_score(r.title, query)) + score_contribution(
        fuzzy_score(r.class, query),
    )
}

impl Matcher {
    /// Scores one window record against the query. The sum is taken over
    /// 128-bit integers, where two 64-bit scores cannot overflow.
    pub fn score_record(&self, query: &str, r: &WindowRecord) -> (s: i128)
        ensures
            s == record_score(query@, r@),
    {
        let title_score: i64 = match self.fuzzy_match(r.title.as_str(), query) {
            Some(v) => v,
            None => 0,
        };
        let class_score: i64 = match self.fuzzy_match(r.class.as_str(), query) {
            Some(v) => v,
            None => 0,
        };
        (title_score as i128) + (class_score as i128)
    }
}

} // verus!
