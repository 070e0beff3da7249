//! Properties of every crawl, proved of every well-formed state.

use vstd::prelude::*;
use crate::coordinator::{Crawler, StopPolicy};
use crate::state::CrawlState;

verus! {

/// No identifier is fetched twice. `Crawler::poll` adds each identifier that
/// it dispatches to `admitted`, and nothing ever takes one out; so the
/// identifiers handed to fetches are exactly `admitted`, which holds each of
/// them once, whichever links were discovered and in whichever order.
pub proof fn lemma_fetched_at_most_once(c: &Crawler)
    requires
        c.wf(),
    ensures
        c.state().admitted().no_duplicates(),
        forall|id: u32| c.state().admitted().contains(id) <==> c.state().known(id),
{
}

/// An identifier that has been visited or skipped is refused admission:
/// `CrawlState::try_admit` admits exactly the identifiers that are not known.
pub proof fn lemma_readmission_refused(s: &CrawlState, id: u32)
    requires
        s.wf(),
        s.visited().contains(id) || s.skipped().contains(id),
    ensures
        s.known(id),
        s.admitted().contains(id),
{
    assert(s.known(id));
}

/// Under `Count(n)` there are never more than `n` records, counting those
/// whose fetch is in flight; and once the count stops admission, the crawl
/// has exactly `n` records unless a fetch failed.
pub proof fn lemma_count_cap(c: &Crawler, n: usize, elapsed: u64)
    requires
        c.wf(),
        c.policy() == StopPolicy::Count(n),
    ensures
        c.state().results().len() <= n,
        c.state().results().len() + c.state().in_flight().len() <= n,
        c.stop_reached(elapsed) && !c.aborted() ==> c.state().results().len() == n,
{
}

/// Under `Duration(d)`, admission has stopped once `d` milliseconds have
/// passed: `Crawler::poll` dispatches nothing from then on.
pub proof fn lemma_deadline_stops_admission(c: &Crawler, d: u64, elapsed: u64)
    requires
        c.policy() == StopPolicy::Duration(d),
        elapsed >= d,
    ensures
        c.stop_reached(elapsed),
{
}

} // verus!
