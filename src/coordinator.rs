//! The crawl coordinator: a state machine that decides, each time it is
//! polled, whether a fetch is dispatched, whether to wait for fetches in
//! flight, or whether the crawl is over. Whoever drives it performs the
//! fetches and hands their outcomes back.

use vstd::prelude::*;
use crate::page::PageReport;
use crate::product::App;
use crate::state::CrawlState;

verus! {

/// When a crawl stops admitting work.
#[derive(Clone, Copy, Debug)]
pub enum StopPolicy {
    /// Once this many records are made.
    Count(usize),
    /// Once this many milliseconds have passed.
    Duration(u64),
}

#[derive(Clone, Copy, Debug, PartialEq, Eq, Structural)]
pub enum Phase {
    Running,
    Draining,
    Done,
}

/// What the driver of a crawl does next.
#[derive(Clone, Copy, Debug, PartialEq, Eq, Structural)]
pub enum Action {
    /// Fetch the page of this product and report back.
    Dispatch(u32),
    /// Wait for a fetch in flight to be reported, then poll again.
    Wait,
    /// The crawl is over and no fetch is in flight.
    Finish,
}

pub open spec fn policy_target(policy: StopPolicy) -> Option<usize> {
    match policy {
        StopPolicy::Count(n) => Some(n),
        StopPolicy::Duration(_) => None,
    }
}

pub struct Crawler {
    state: CrawlState,
    policy: StopPolicy,
    max_workers: usize,
    phase: Phase,
    aborted: bool,
}

impl Crawler {
    pub closed spec fn state(&self) -> CrawlState {
        self.state
    }

    pub closed spec fn policy(&self) -> StopPolicy {
        self.policy
    }

    /// The most fetches that may be in flight at once.
    pub closed spec fn max_workers(&self) -> usize {
        self.max_workers
    }

    pub closed spec fn phase(&self) -> Phase {
        self.phase
    }

    /// Whether a fetch has failed, which ends the crawl early.
    pub closed spec fn aborted(&self) -> bool {
        self.aborted
    }

    pub open spec fn wf(&self) -> bool {
        &&& self.state().wf()
        &&& self.max_workers() >= 1
        &&& self.state().in_flight().len() <= self.max_workers()
        &&& self.state().target() == policy_target(self.policy())
        &&& (self.phase() == Phase::Done ==> self.state().in_flight().len() == 0)
    }

    /// Whether the stopping policy, or a failed fetch, ends admission after
    /// `elapsed` milliseconds.
    pub open spec fn stop_reached(&self, elapsed: u64) -> bool {
        self.aborted() || match self.policy() {
            StopPolicy::Count(n) => self.state().results().len() >= n,
            StopPolicy::Duration(d) => elapsed >= d,
        }
    }

    /// A crawl from `seeds` under `policy`, with at most `max_workers` fetches
    /// in flight (at least one).
    pub fn new(seeds: &Vec<u32>, policy: StopPolicy, max_workers: usize) -> (r: Crawler)
        ensures
            r.wf(),
            r.state().frontier() == seeds@,
            r.state().admitted().len() == 0,
            r.state().results().len() == 0,
            r.state().visited().len() == 0,
            r.state().skipped().len() == 0,
            r.state().failed().len() == 0,
            r.state().in_flight().len() == 0,
            r.policy() == policy,
            r.max_workers() == if max_workers == 0 { 1 } else { max_workers },
            r.phase() == Phase::Running,
            !r.aborted(),
    {
        let target = match policy {
            StopPolicy::Count(n) => Some(n),
            StopPolicy::Duration(_) => None,
        };
        Crawler {
            state: CrawlState::new(seeds, target),
            policy,
            max_workers: if max_workers == 0 { 1 } else { max_workers },
            phase: Phase::Running,
            aborted: false,
        }
    }

    pub fn crawl_state(&self) -> (r: &CrawlState)
        ensures
            *r == self.state(),
    {
        &self.state
    }

    /// The records made so far.
    pub fn apps(&self) -> (r: &Vec<App>)
        ensures
            r@ == self.state().results(),
    {
        self.state.apps()
    }

    pub fn current_phase(&self) -> (r: Phase)
        ensures
            r == self.phase(),
    {
        self.phase
    }

    pub fn is_aborted(&self) -> (r: bool)
        ensures
            r == self.aborted(),
    {
        self.aborted
    }

    fn stop_reached_exec(&self, elapsed: u64) -> (r: bool)
        ensures
            r == self.stop_reached(elapsed),
    {
        self.aborted || match self.policy {
            StopPolicy::Count(n) => self.state.size() >= n,
            StopPolicy::Duration(d) => elapsed >= d,
        }
    }

    /// Decides the next step, `elapsed` milliseconds into the crawl. Once
    /// admission ends, by the policy or a failed fetch, the crawl drains: it
    /// waits for every fetch in flight and then finishes. While running, it
    /// pops the frontier, passing over identifiers already admitted, and
    /// dispatches the first that is admitted; it waits where the worker cap
    /// or the count target leaves no room, or where the frontier is empty but
    /// fetches in flight may still add to it; and it finishes where the
    /// frontier is empty and nothing is in flight.
    pub fn poll(&mut self, elapsed: u64) -> (r: Action)
        requires
            old(self).wf(),
        ensures
            final(self).wf(),
            final(self).policy() == old(self).policy(),
            final(self).max_workers() == old(self).max_workers(),
            final(self).aborted() == old(self).aborted(),
            final(self).state().results() == old(self).state().results(),
            final(self).state().visited() == old(self).state().visited(),
            final(self).state().skipped() == old(self).state().skipped(),
            final(self).state().failed() == old(self).state().failed(),
            (old(self).phase() != Phase::Running || old(self).stop_reached(elapsed))
                ==> final(self).state().frontier() == old(self).state().frontier(),
            (old(self).phase() != Phase::Running || old(self).stop_reached(elapsed))
                ==> final(self).phase() != Phase::Running,
            match r {
                Action::Dispatch(id) => {
                    &&& old(self).phase() == Phase::Running
                    &&& final(self).phase() == Phase::Running
                    &&& !old(self).stop_reached(elapsed)
                    &&& old(self).state().in_flight().len() < old(self).max_workers()
                    &&& old(self).state().below_target()
                    &&& !old(self).state().known(id)
                    &&& final(self).state().admitted() == old(self).state().admitted().push(id)
                    &&& final(self).state().in_flight() == old(self).state().in_flight().push(id)
                    &&& exists|k: int|
                        0 <= k < old(self).state().frontier().len()
                        && old(self).state().frontier()[k] == id
                        && final(self).state().frontier() == old(self).state().frontier().skip(k + 1)
                        && forall|j: int| 0 <= j < k ==> old(self).state().known(#[trigger] old(self).state().frontier()[j])
                },
                Action::Wait => {
                    &&& (old(self).phase() != Phase::Running || old(self).stop_reached(elapsed)
                        || old(self).state().in_flight().len() >= old(self).max_workers()
                        || !old(self).state().below_target() || (final(self).state().frontier().len()
                        == 0 && forall|j: int| 0 <= j < old(self).state().frontier().len()
                        ==> old(self).state().known(#[trigger] old(self).state().frontier()[j])))
                    &&& final(self).state().in_flight().len() > 0
                    &&& final(self).state().in_flight() == old(self).state().in_flight()
                    &&& final(self).state().admitted() == old(self).state().admitted()
                    &&& final(self).phase() != Phase::Done
                    &&& final(self).phase() == (if old(self).phase() != Phase::Running
                        || old(self).stop_reached(elapsed) { Phase::Draining } else { Phase::Running })
                },
                Action::Finish => {
                    &&& final(self).phase() == Phase::Done
                    &&& final(self).state().in_flight().len() == 0
                    &&& final(self).state().admitted() == old(self).state().admitted()
                    &&& (old(self).phase() != Phase::Running || old(self).stop_reached(elapsed)
                        || (final(self).state().frontier().len() == 0 && forall|j: int|
                        0 <= j < old(self).state().frontier().len()
                        ==> old(self).state().known(#[trigger] old(self).state().frontier()[j])))
                },
            },
    {
        if self.phase == Phase::Running && self.stop_reached_exec(elapsed) {
            self.phase = Phase::Draining;
        }
        if self.phase == Phase::Done {
            return Action::Finish;
        }
        if self.phase == Phase::Draining {
            if self.state.in_flight_count() == 0 {
                self.phase = Phase::Done;
                return Action::Finish;
            }
            return Action::Wait;
        }
        let in_flight = self.state.in_flight_count();
        let full = match self.policy {
            StopPolicy::Count(n) => self.state.size() + in_flight >= n,
            StopPolicy::Duration(_) => false,
        };
        if in_flight >= self.max_workers || full {
            return Action::Wait;
        }
        let ghost start = self.state.frontier();
        let ghost mut popped: int = 0;
        loop
            invariant
                self.wf(),
                self.phase == Phase::Running,
                old(self).phase() == Phase::Running,
                old(self).wf(),
                self.policy == old(self).policy,
                self.max_workers == old(self).max_workers,
                self.aborted == old(self).aborted,
                !old(self).stop_reached(elapsed),
                self.state.in_flight() == old(self).state().in_flight(),
                self.state.in_flight().len() < self.max_workers,
                old(self).state().below_target(),
                self.state.results() == old(self).state().results(),
                self.state.visited() == old(self).state().visited(),
                self.state.skipped() == old(self).state().skipped(),
                self.state.failed() == old(self).state().failed(),
                self.state.admitted() == old(self).state().admitted(),
                start == old(self).state().frontier(),
                0 <= popped <= start.len(),
                self.state.frontier() == start.skip(popped),
                forall|j: int| 0 <= j < popped ==> old(self).state().known(#[trigger] start[j]),
            ensures
                self.wf(),
                self.phase == Phase::Running,
                self.state.frontier().len() == 0,
                popped == start.len(),
                forall|j: int| 0 <= j < popped ==> old(self).state().known(#[trigger] start[j]),
                self.state.in_flight() == old(self).state().in_flight(),
                self.state.results() == old(self).state().results(),
                self.state.visited() == old(self).state().visited(),
                self.state.skipped() == old(self).state().skipped(),
                self.state.failed() == old(self).state().failed(),
                self.state.admitted() == old(self).state().admitted(),
                self.policy == old(self).policy,
                self.max_workers == old(self).max_workers,
                self.aborted == old(self).aborted,
            decreases self.state.frontier().len(),
        {
            match self.state.pop_frontier() {
                Some(id) => {
                    assert(popped < start.len());
                    assert(start.skip(popped).drop_first() =~= start.skip(popped + 1));
                    assert(id == start[popped]);
                    let ghost pre = self.state;
                    assert(pre.target() == old(self).state().target());
                    assert(pre.below_target() == old(self).state().below_target());
                    if self.state.try_admit(id) {
                        return Action::Dispatch(id);
                    }
                    assert(pre.known(id));
                    assert(old(self).state().known(id));
                    proof {
                        popped = popped + 1;
                    }
                },
                None => {
                    break;
                },
            }
        }
        if self.state.in_flight_count() == 0 {
            self.phase = Phase::Done;
            return Action::Finish;
        }
        Action::Wait
    }

    /// Hands back the outcome of the fetch of `id`: its record, where the
    /// report has one for `id`, or else a skip; then its links join the
    /// frontier. `false`, and nothing changed, where `id` was not in flight.
    pub fn complete(&mut self, id: u32, report: PageReport) -> (r: bool)
        requires
            old(self).wf(),
        ensures
            final(self).wf(),
            r == old(self).state().in_flight().contains(id),
            !r ==> *final(self) == *old(self),
            r ==> match report.app {
                Some(a) if a.id == id => final(self).state().results()
                    == old(self).state().results().push(a)
                    && final(self).state().skipped() == old(self).state().skipped(),
                _ => final(self).state().results() == old(self).state().results()
                    && final(self).state().skipped() == old(self).state().skipped().push(id),
            },
            r ==> final(self).state().frontier() == old(self).state().frontier() + report.links@,
            r ==> forall|x: u32| final(self).state().in_flight().contains(x)
                <==> (old(self).state().in_flight().contains(x) && x != id),
            final(self).state().failed() == old(self).state().failed(),
            final(self).state().admitted() == old(self).state().admitted(),
            final(self).policy() == old(self).policy(),
            final(self).max_workers() == old(self).max_workers(),
            final(self).phase() == old(self).phase(),
            final(self).aborted() == old(self).aborted(),
    {
        let PageReport { app, links } = report;
        let landed = match app {
            Some(a) => {
                if a.id == id {
                    self.state.record_success(a)
                } else {
                    self.state.record_skip(id)
                }
            },
            None => self.state.record_skip(id),
        };
        if landed {
            self.state.enqueue_discovered(&links);
        }
        landed
    }

    /// Hands back that the fetch of `id` failed: the crawl stops admitting
    /// work and drains. `false`, and nothing changed, where `id` was not in
    /// flight.
    pub fn fail(&mut self, id: u32) -> (r: bool)
        requires
            old(self).wf(),
        ensures
            final(self).wf(),
            r == old(self).state().in_flight().contains(id),
            !r ==> *final(self) == *old(self),
            r ==> final(self).aborted(),
            r ==> final(self).state().failed() == old(self).state().failed().push(id),
            r ==> forall|x: u32| final(self).state().in_flight().contains(x)
                <==> (old(self).state().in_flight().contains(x) && x != id),
            final(self).state().results() == old(self).state().results(),
            final(self).state().skipped() == old(self).state().skipped(),
            final(self).state().frontier() == old(self).state().frontier(),
            final(self).state().admitted() == old(self).state().admitted(),
            final(self).policy() == old(self).policy(),
            final(self).max_workers() == old(self).max_workers(),
            final(self).phase() == old(self).phase(),
    {
        if self.state.record_failure(id) {
            self.aborted = true;
            true
        } else {
            false
        }
    }
}

} // verus!
