use vstd::prelude::*;

verus! {

/// A snapshot of one open window, as the window manager reports it: the
/// native address token (the bytes of the "0x"-prefixed hexadecimal string),
/// a title and a class, either possibly empty. Records live only for the
/// fetch that produced them and are never mutated.
pub struct WindowRecord {
    pub address: Vec<u8>,
    pub title: String,
    pub class: String,
}

/// The mathematical shape of a window record.
pub struct WindowRecordView {
    pub address: Seq<u8>,
    pub title: Seq<char>,
    pub class: Seq<char>,
}

impl View for WindowRecord {
    type V = WindowRecordView;

    open spec fn view(&self) -> WindowRecordView {
        WindowRecordView { address: self.address@, title: self.title@, class: self.class@ }
    }
}

/// The views of a sequence of window records.
pub open spec fn record_views(s: Seq<WindowRecord>) -> Seq<WindowRecordView> {
    s.map_values(|r: WindowRecord| r@)
}

/// One scored window, before ranking: the title to display, the combined
/// relevance score of title and class against the query, and the stable
/// identifier read from the address token.
pub struct Candidate {
    pub title: String,
    pub score: i128,
    pub id: u64,
}

/// The mathematical shape of a candidate.
pub struct CandidateView {
    pub title: Seq<char>,
    pub score: int,
    pub id: u64,
}

impl View for Candidate {
    type V = CandidateView;

    open spec fn view(&self) -> CandidateView {
        CandidateView { title: self.title@, score: self.score as int, id: self.id }
    }
}

/// The views of a sequence of candidates.
pub open spec fn candidate_views(s: Seq<Candidate>) -> Seq<CandidateView> {
    s.map_values(|c: Candidate| c@)
}

/// One entry of a query's ranked result: the window's title, copied verbatim,
/// and the stable identifier that a later selection hands back. A result
/// carries no description and no icon, so nothing besides these two fields.
pub struct MatchResult {
    pub title: String,
    pub id: u64,
}

/// The mathematical shape of a result entry.
pub struct MatchResultView {
    pub title: Seq<char>,
    pub id: u64,
}

impl View for MatchResult {
    type V = MatchResultView;

    open spec fn view(&self) -> MatchResultView {
        MatchResultView { title: self.title@, id: self.id }
    }
}

/// The views of a sequence of result entries.
pub open spec fn result_views(s: Seq<MatchResult>) -> Seq<MatchResultView> {
    s.map_values(|m: MatchResult| m@)
}

} // verus!
