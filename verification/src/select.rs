use vstd::prelude::*;
use crate::codec::{address_id, address_to_u64, valid_address};
use crate::model::{record_views, WindowRecord, WindowRecordView};

verus! {

// The selector: a previously issued identifier comes back, the window list
// is fetched afresh — it may have changed since the search — and the first
// record that still carries the identifier is focused. A missing record is
// an expected outcome, never an error; a failed focus command is reported
// with its reason.

/// Whether some record of the snapshot carries the identifier.
pub open spec fn has_id(rs: Seq<WindowRecordView>, id: u64) -> bool {
    exists|i: int| 0 <= i < rs.len() && address_id((#[trigger] rs[i]).address) == id
}

/// Whether `i` is the position of the first record carrying the identifier.
pub open spec fn is_first_match(rs: Seq<WindowRecordView>, id: u64, i: int) -> bool {
    &&& 0 <= i < rs.len()
    &&& address_id(rs[i].address) == id
    &&& forall|k: int| 0 <= k < i ==> address_id((#[trigger] rs[k]).address) != id
}

/// How one selection ends: the window got focus, no window carries the
/// identifier any more, or the window manager rejected the focus command
/// for the stated reason.
pub enum Outcome {
    Focused,
    NotFound,
    DispatchFailed(String),
}

/// What to do once the fresh snapshot is in hand: send a focus command for
/// this address token, or give up because no record matches.
pub enum FocusPlan {
    Dispatch(Vec<u8>),
    NotFound,
}

/// Scans a snapshot for the first record whose address token denotes the
/// selected identifier. Identifiers must match exactly; there is no fuzzy
/// identifier matching. The window manager's contract makes every fetched
/// address token well formed, which the precondition records.
pub fn find_client(records: &Vec<WindowRecord>, selection_id: u64) -> (r: Option<usize>)
    requires
        forall|i: int|
            0 <= i < records@.len() ==> valid_address((#[trigger] records@[i])@.address),
    ensures
        match r {
            Some(i) => is_first_match(record_views(records@), selection_id, i as int),
            None => !has_id(record_views(records@), selection_id),
        },
{
    let ghost rv = record_views(records@);
    proof {
        assert(forall|k: int| 0 <= k < rv.len() ==> #[trigger] rv[k] == records@[k]@);
    }
    let mut i: usize = 0;
    while i < records.len()
        invariant
            i <= records@.len(),
            rv == record_views(records@),
            forall|k: int| 0 <= k < rv.len() ==> #[trigger] rv[k] == records@[k]@,
            forall|j: int|
                0 <= j < records@.len() ==> valid_address((#[trigger] records@[j])@.address),
            forall|k: int| 0 <= k < i ==> address_id((#[trigger] rv[k]).address) != selection_id,
        decreases records@.len() - i,
    {
        let id = address_to_u64(&records[i].address);
        if id == selection_id {
            return Some(i);
        }
        i = i + 1;
    }
    None
}

/// Copies an address token, byte for byte.
fn copy_address(src: &Vec<u8>) -> (out: Vec<u8>)
    ensures
        out@ == src@,
{
    let mut out: Vec<u8> = Vec::new();
    let mut i: usize = 0;
    while i < src.len()
        invariant
            i <= src@.len(),
            out@ == src@.take(i as int),
        decreases src@.len() - i,
    {
        out.push(src[i]);
        proof {
            assert(out@ =~= src@.take(i + 1));
        }
        i = i + 1;
    }
    proof {
        assert(src@.take(src@.len() as int) =~= src@);
    }
    out
}

/// The selection decision over a fresh snapshot: a focus command is planned
/// exactly when some record still carries the selected identifier, and then
/// for the address token of the first such record; an identifier that no
/// record carries yields `NotFound`, and no dispatch is ever planned for it.
pub fn plan_focus(records: &Vec<WindowRecord>, selection_id: u64) -> (p: FocusPlan)
    requires
        forall|i: int|
            0 <= i < records@.len() ==> valid_address((#[trigger] records@[i])@.address),
    ensures
        p is Dispatch <==> has_id(record_views(records@), selection_id),
        match p {
            FocusPlan::Dispatch(addr) => exists|i: int|
                #[trigger] is_first_match(record_views(records@), selection_id, i) && addr@
                    == record_views(records@)[i].address,
            FocusPlan::NotFound => !has_id(record_views(records@), selection_id),
        },
{
    let ghost rv = record_views(records@);
    match find_client(records, selection_id) {
        Some(i) => {
            let addr = copy_address(&records[i].address);
            proof {
                assert(rv[i as int] == records@[i as int]@);
                assert(is_first_match(rv, selection_id, i as int) && addr@ == rv[i as int].address);
            }
            FocusPlan::Dispatch(addr)
        },
        None => FocusPlan::NotFound,
    }
}

/// What a dispatched focus command came to: success means the window was
/// focused; failure carries the window manager's reason, reported and not
/// retried.
pub fn outcome_of_dispatch(dispatched: Result<(), String>) -> (o: Outcome)
    ensures
        match dispatched {
            Ok(_) => o == Outcome::Focused,
            Err(e) => o == Outcome::DispatchFailed(e),
        },
{
    match dispatched {
        Ok(_) => Outcome::Focused,
        Err(e) => Outcome::DispatchFailed(e),
    }
}

/// The degrade-to-empty policy of the window source: a snapshot that could
/// not be fetched counts as no windows at all, and the failure goes no
/// further.
pub fn records_of_fetch(fetched: Result<Vec<WindowRecord>, String>) -> (v: Vec<WindowRecord>)
    ensures
        match fetched {
            Ok(w) => v@ == w@,
            Err(_) => v@ == Seq::<WindowRecord>::empty(),
        },
{
    match fetched {
        Ok(w) => w,
        Err(_) => Vec::new(),
    }
}

} // verus!
