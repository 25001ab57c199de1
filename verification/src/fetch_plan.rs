//! The decision kernel of the paged death-event fetch. Fetching one fight's
//! deaths may take several sequential requests: each page comes back with an
//! optional continuation cursor (an advanced start time), and the loop must
//! keep requesting until no cursor is returned. The iteration count is capped
//! defensively; exceeding the cap is treated as a fetch failure rather than
//! looping without bound. The requests themselves are issued by the caller;
//! this function decides, after each page, what to do next.

use vstd::prelude::*;

verus! {

/// What the fetch loop should do after receiving one page.
#[derive(Clone, Copy, Debug, PartialEq, Eq, Structural)]
pub enum FetchStep {
    /// Issue the next request, starting at the continuation cursor.
    Continue(u64),
    /// The page carried no continuation cursor: the fight is exhausted.
    Done,
    /// The page cap was reached with a continuation cursor still pending:
    /// treat the fetch as failed.
    Failed,
}

/// Decide the next step of the paged fetch, given how many pages were
/// fetched so far, the page cap, and the continuation cursor (if any) of the
/// page just received.
pub fn fetch_step(pages_done: u32, page_cap: u32, next_cursor: Option<u64>) -> (r: FetchStep)
    ensures
        next_cursor is None ==> r == FetchStep::Done,
        next_cursor matches Some(c) ==> r == (if pages_done + 1 < page_cap {
            FetchStep::Continue(c)
        } else {
            FetchStep::Failed
        }),
{
    match next_cursor {
        None => FetchStep::Done,
        Some(c) => {
            if (pages_done as u64) + 1 < (page_cap as u64) {
                FetchStep::Continue(c)
            } else {
                FetchStep::Failed
            }
        },
    }
}

} // verus!
