//! The crawl state: the frontier of identifiers waiting for a fetch, the
//! identifiers admitted so far in each of their fates, and the records.

use vstd::prelude::*;
use std::collections::VecDeque;
use crate::product::App;

verus! {

pub open spec fn ids_of(apps: Seq<App>) -> Seq<u32> {
    apps.map_values(|a: App| a.id)
}

pub open spec fn disjoint(a: Seq<u32>, b: Seq<u32>) -> bool {
    forall|id: u32| !(a.contains(id) && b.contains(id))
}

proof fn lemma_push_unique(s: Seq<u32>, x: u32)
    requires
        s.no_duplicates(),
        !s.contains(x),
    ensures
        s.push(x).no_duplicates(),
        forall|y: u32| s.push(x).contains(y) <==> (s.contains(y) || y == x),
{
    assert forall|y: u32| s.push(x).contains(y) <==> (s.contains(y) || y == x) by {
        if s.push(x).contains(y) {
            let i = choose|i: int| 0 <= i < s.len() + 1 && s.push(x)[i] == y;
            if i < s.len() {
                assert(s[i] == y);
            }
        }
        if s.contains(y) {
            let i = choose|i: int| 0 <= i < s.len() && s[i] == y;
            assert(s.push(x)[i] == y);
        }
        if y == x {
            assert(s.push(x)[s.len() as int] == y);
        }
    }
    assert forall|i: int, j: int|
        0 <= i < s.push(x).len() && 0 <= j < s.push(x).len() && i != j
        implies s.push(x)[i] != s.push(x)[j] by {
        if i < s.len() && j < s.len() {
        } else if i < s.len() {
            assert(s.contains(s[i]));
        } else {
            assert(s.contains(s[j]));
        }
    }
}

proof fn lemma_remove_unique(s: Seq<u32>, k: int)
    requires
        s.no_duplicates(),
        0 <= k < s.len(),
    ensures
        s.remove(k).no_duplicates(),
        forall|y: u32| s.remove(k).contains(y) <==> (s.contains(y) && y != s[k]),
{
    let r = s.remove(k);
    assert forall|y: u32| r.contains(y) <==> (s.contains(y) && y != s[k]) by {
        if r.contains(y) {
            let i = choose|i: int| 0 <= i < r.len() && r[i] == y;
            if i < k {
                assert(s[i] == y);
            } else {
                assert(s[i + 1] == y);
            }
        }
        if s.contains(y) && y != s[k] {
            let i = choose|i: int| 0 <= i < s.len() && s[i] == y;
            if i < k {
                assert(r[i] == y);
            } else {
                assert(r[i - 1] == y);
            }
        }
    }
    assert forall|i: int, j: int| 0 <= i < r.len() && 0 <= j < r.len() && i != j implies r[i] != r[j] by {
        let i2 = if i < k { i } else { i + 1 };
        let j2 = if j < k { j } else { j + 1 };
        assert(r[i] == s[i2]);
        assert(r[j] == s[j2]);
    }
}

fn index_of(v: &Vec<u32>, id: u32) -> (r: Option<usize>)
    ensures
        r is None <==> !v@.contains(id),
        r matches Some(k) ==> k < v.len() && v@[k as int] == id,
{
    let mut i: usize = 0;
    while i < v.len()
        invariant
            i <= v.len(),
            forall|j: int| 0 <= j < i ==> v@[j] != id,
        decreases v.len() - i,
    {
        if v[i] == id {
            return Some(i);
        }
        i = i + 1;
    }
    None
}

/// The state of one crawl. Every identifier that was ever admitted for a fetch
/// stands in exactly one of four fates: in flight, visited (it has a record),
/// skipped (its page offers nothing to record) or failed (its fetch failed).
pub struct CrawlState {
    frontier: VecDeque<u32>,
    visited: Vec<u32>,
    skipped: Vec<u32>,
    failed: Vec<u32>,
    in_flight: Vec<u32>,
    results: Vec<App>,
    target: Option<usize>,
    admitted: Ghost<Seq<u32>>,
}

impl CrawlState {
    pub closed spec fn frontier(&self) -> Seq<u32> {
        self.frontier@
    }

    pub closed spec fn visited(&self) -> Seq<u32> {
        self.visited@
    }

    pub closed spec fn skipped(&self) -> Seq<u32> {
        self.skipped@
    }

    pub closed spec fn failed(&self) -> Seq<u32> {
        self.failed@
    }

    pub closed spec fn in_flight(&self) -> Seq<u32> {
        self.in_flight@
    }

    pub closed spec fn results(&self) -> Seq<App> {
        self.results@
    }

    /// The number of records at which admission stops, if there is one.
    pub closed spec fn target(&self) -> Option<usize> {
        self.target
    }

    /// Every identifier admitted for a fetch, in the order of admission.
    pub closed spec fn admitted(&self) -> Seq<u32> {
        self.admitted@
    }

    /// Whether `id` has been admitted: it is in one of the four fates.
    pub open spec fn known(&self, id: u32) -> bool {
        self.visited().contains(id) || self.skipped().contains(id) || self.failed().contains(id)
            || self.in_flight().contains(id)
    }

    /// Whether admission is open as far as the target goes.
    pub open spec fn below_target(&self) -> bool {
        match self.target() {
            Some(n) => self.results().len() + self.in_flight().len() < n,
            None => true,
        }
    }

    pub open spec fn wf(&self) -> bool {
        &&& self.admitted().no_duplicates()
        &&& forall|id: u32| self.admitted().contains(id) <==> self.known(id)
        &&& self.visited().no_duplicates()
        &&& self.skipped().no_duplicates()
        &&& self.failed().no_duplicates()
        &&& self.in_flight().no_duplicates()
        &&& disjoint(self.visited(), self.skipped())
        &&& disjoint(self.visited(), self.failed())
        &&& disjoint(self.visited(), self.in_flight())
        &&& disjoint(self.skipped(), self.failed())
        &&& disjoint(self.skipped(), self.in_flight())
        &&& disjoint(self.failed(), self.in_flight())
        &&& self.visited() == ids_of(self.results())
        &&& (self.target() matches Some(n) ==> self.results().len() + self.in_flight().len() <= n)
    }

    /// A fresh state whose frontier holds `seeds`; with `target`, admission
    /// stops once that many records are made or being made.
    pub fn new(seeds: &Vec<u32>, target: Option<usize>) -> (r: CrawlState)
        ensures
            r.wf(),
            r.frontier() == seeds@,
            r.target() == target,
            r.admitted().len() == 0,
            r.results().len() == 0,
            r.visited().len() == 0,
            r.skipped().len() == 0,
            r.failed().len() == 0,
            r.in_flight().len() == 0,
    {
        let mut frontier: VecDeque<u32> = VecDeque::new();
        let mut i: usize = 0;
        while i < seeds.len()
            invariant
                i <= seeds.len(),
                frontier@ == seeds@.take(i as int),
            decreases seeds.len() - i,
        {
            frontier.push_back(seeds[i]);
            assert(seeds@.take(i + 1) =~= seeds@.take(i as int).push(seeds@[i as int]));
            i = i + 1;
        }
        assert(seeds@.take(seeds.len() as int) =~= seeds@);
        let r = CrawlState {
            frontier,
            visited: Vec::new(),
            skipped: Vec::new(),
            failed: Vec::new(),
            in_flight: Vec::new(),
            results: Vec::new(),
            target,
            admitted: Ghost(Seq::empty()),
        };
        assert(ids_of(r.results@) =~= r.visited@);
        r
    }

    /// The number of records made so far.
    pub fn size(&self) -> (r: usize)
        ensures
            r == self.results().len(),
    {
        self.results.len()
    }

    pub fn in_flight_count(&self) -> (r: usize)
        ensures
            r == self.in_flight().len(),
    {
        self.in_flight.len()
    }

    /// The records made so far.
    pub fn apps(&self) -> (r: &Vec<App>)
        ensures
            r@ == self.results(),
    {
        &self.results
    }

    pub fn visited_ids(&self) -> (r: &Vec<u32>)
        ensures
            r@ == self.visited(),
    {
        &self.visited
    }

    pub fn skipped_ids(&self) -> (r: &Vec<u32>)
        ensures
            r@ == self.skipped(),
    {
        &self.skipped
    }

    pub fn failed_ids(&self) -> (r: &Vec<u32>)
        ensures
            r@ == self.failed(),
    {
        &self.failed
    }

    pub fn frontier_ids(&self) -> (r: &VecDeque<u32>)
        ensures
            r@ == self.frontier(),
    {
        &self.frontier
    }

    pub fn frontier_len(&self) -> (r: usize)
        ensures
            r == self.frontier().len(),
    {
        self.frontier.len()
    }

    /// Whether `id` has been admitted.
    pub fn is_known(&self, id: u32) -> (r: bool)
        ensures
            r == self.known(id),
    {
        index_of(&self.visited, id).is_some() || index_of(&self.skipped, id).is_some()
            || index_of(&self.failed, id).is_some() || index_of(&self.in_flight, id).is_some()
    }

    /// The one decision point of admission: `id` is admitted, and put in
    /// flight, exactly when it was never admitted before and the target
    /// leaves room for it.
    pub fn try_admit(&mut self, id: u32) -> (r: bool)
        requires
            old(self).wf(),
        ensures
            final(self).wf(),
            r == (!old(self).known(id) && old(self).below_target()),
            r ==> final(self).admitted() == old(self).admitted().push(id),
            r ==> final(self).in_flight() == old(self).in_flight().push(id),
            r ==> final(self).known(id),
            !r ==> *final(self) == *old(self),
            final(self).frontier() == old(self).frontier(),
            final(self).results() == old(self).results(),
            final(self).visited() == old(self).visited(),
            final(self).skipped() == old(self).skipped(),
            final(self).failed() == old(self).failed(),
            final(self).target() == old(self).target(),
    {
        if self.is_known(id) {
            return false;
        }
        let ghost pre = self.in_flight@;
        let below = match self.target {
            Some(n) => self.results.len() < n && self.in_flight.len() < n - self.results.len(),
            None => true,
        };
        if !below {
            return false;
        }
        proof {
            lemma_push_unique(self.in_flight@, id);
            lemma_push_unique(self.admitted@, id);
        }
        self.in_flight.push(id);
        self.admitted = Ghost(self.admitted@.push(id));
        proof {
            assert(self.in_flight@[pre.len() as int] == id);
            assert forall|x: u32| self.admitted().contains(x) <==> self.known(x) by {
                assert(old(self).admitted().contains(x) <==> old(self).known(x));
            }
        }
        true
    }

    /// Takes `id` out of flight; `false` where it was not in flight.
    fn land(&mut self, id: u32) -> (r: bool)
        requires
            old(self).wf(),
        ensures
            r == old(self).in_flight().contains(id),
            forall|x: u32| final(self).in_flight().contains(x) <==> (old(self).in_flight().contains(x) && x != id),
            final(self).in_flight().no_duplicates(),
            r ==> final(self).in_flight().len() == old(self).in_flight().len() - 1,
            !r ==> *final(self) == *old(self),
            final(self).frontier() == old(self).frontier(),
            final(self).results() == old(self).results(),
            final(self).visited() == old(self).visited(),
            final(self).skipped() == old(self).skipped(),
            final(self).failed() == old(self).failed(),
            final(self).admitted() == old(self).admitted(),
            final(self).target() == old(self).target(),
    {
        match index_of(&self.in_flight, id) {
            Some(k) => {
                proof {
                    lemma_remove_unique(self.in_flight@, k as int);
                }
                self.in_flight.remove(k);
                true
            },
            None => false,
        }
    }

    /// Records a product whose fetch was in flight; `false`, and nothing
    /// changed, where its identifier was not in flight.
    pub fn record_success(&mut self, app: App) -> (r: bool)
        requires
            old(self).wf(),
        ensures
            final(self).wf(),
            r == old(self).in_flight().contains(app.id),
            r ==> final(self).results() == old(self).results().push(app),
            r ==> final(self).visited() == old(self).visited().push(app.id),
            r ==> final(self).in_flight().len() == old(self).in_flight().len() - 1,
            r ==> final(self).skipped() == old(self).skipped(),
            r ==> final(self).failed() == old(self).failed(),
            r ==> forall|x: u32| final(self).in_flight().contains(x) <==> (old(self).in_flight().contains(x) && x != app.id),
            !r ==> *final(self) == *old(self),
            final(self).frontier() == old(self).frontier(),
            final(self).admitted() == old(self).admitted(),
            final(self).target() == old(self).target(),
    {
        let id = app.id;
        if !self.land(id) {
            return false;
        }
        proof {
            lemma_push_unique(self.visited@, id);
            assert(ids_of(self.results@.push(app)) =~= ids_of(self.results@).push(id));
        }
        self.visited.push(id);
        self.results.push(app);
        proof {
            assert forall|x: u32| self.admitted().contains(x) <==> self.known(x) by {
                assert(old(self).admitted().contains(x) <==> old(self).known(x));
            }
        }
        true
    }

    /// Records that the page of an identifier in flight offers nothing to
    /// record; `false`, and nothing changed, where it was not in flight.
    pub fn record_skip(&mut self, id: u32) -> (r: bool)
        requires
            old(self).wf(),
        ensures
            final(self).wf(),
            r == old(self).in_flight().contains(id),
            r ==> final(self).skipped() == old(self).skipped().push(id),
            r ==> final(self).in_flight().len() == old(self).in_flight().len() - 1,
            r ==> forall|x: u32| final(self).in_flight().contains(x) <==> (old(self).in_flight().contains(x) && x != id),
            !r ==> *final(self) == *old(self),
            final(self).results() == old(self).results(),
            final(self).visited() == old(self).visited(),
            final(self).failed() == old(self).failed(),
            final(self).frontier() == old(self).frontier(),
            final(self).admitted() == old(self).admitted(),
            final(self).target() == old(self).target(),
    {
        if !self.land(id) {
            return false;
        }
        proof {
            lemma_push_unique(self.skipped@, id);
        }
        self.skipped.push(id);
        proof {
            assert forall|x: u32| self.admitted().contains(x) <==> self.known(x) by {
                assert(old(self).admitted().contains(x) <==> old(self).known(x));
            }
        }
        true
    }

    /// Records that the fetch of an identifier in flight failed; `false`, and
    /// nothing changed, where it was not in flight.
    pub fn record_failure(&mut self, id: u32) -> (r: bool)
        requires
            old(self).wf(),
        ensures
            final(self).wf(),
            r == old(self).in_flight().contains(id),
            r ==> final(self).failed() == old(self).failed().push(id),
            r ==> final(self).in_flight().len() == old(self).in_flight().len() - 1,
            r ==> forall|x: u32| final(self).in_flight().contains(x) <==> (old(self).in_flight().contains(x) && x != id),
            !r ==> *final(self) == *old(self),
            final(self).results() == old(self).results(),
            final(self).visited() == old(self).visited(),
            final(self).skipped() == old(self).skipped(),
            final(self).frontier() == old(self).frontier(),
            final(self).admitted() == old(self).admitted(),
            final(self).target() == old(self).target(),
    {
        if !self.land(id) {
            return false;
        }
        proof {
            lemma_push_unique(self.failed@, id);
        }
        self.failed.push(id);
        proof {
            assert forall|x: u32| self.admitted().contains(x) <==> self.known(x) by {
                assert(old(self).admitted().contains(x) <==> old(self).known(x));
            }
        }
        true
    }

    /// Appends discovered identifiers to the frontier, in their order.
    pub fn enqueue_discovered(&mut self, ids: &Vec<u32>)
        requires
            old(self).wf(),
        ensures
            final(self).wf(),
            final(self).frontier() == old(self).frontier() + ids@,
            final(self).results() == old(self).results(),
            final(self).visited() == old(self).visited(),
            final(self).skipped() == old(self).skipped(),
            final(self).failed() == old(self).failed(),
            final(self).in_flight() == old(self).in_flight(),
            final(self).admitted() == old(self).admitted(),
            final(self).target() == old(self).target(),
    {
        let mut i: usize = 0;
        while i < ids.len()
            invariant
                i <= ids.len(),
                self.wf(),
                self.frontier() == old(self).frontier() + ids@.take(i as int),
                self.results() == old(self).results(),
                self.visited() == old(self).visited(),
                self.skipped() == old(self).skipped(),
                self.failed() == old(self).failed(),
                self.in_flight() == old(self).in_flight(),
                self.admitted() == old(self).admitted(),
                self.target() == old(self).target(),
            decreases ids.len() - i,
        {
            let ghost before = *self;
            self.frontier.push_back(ids[i]);
            proof {
                assert forall|x: u32| self.admitted().contains(x) <==> self.known(x) by {
                    assert(before.admitted().contains(x) <==> before.known(x));
                }
            }
            assert(old(self).frontier() + ids@.take(i + 1) =~= (old(self).frontier() + ids@.take(i as int)).push(ids@[i as int]));
            i = i + 1;
        }
        assert(ids@.take(ids.len() as int) =~= ids@);
    }

    /// Takes the identifier at the head of the frontier.
    pub fn pop_frontier(&mut self) -> (r: Option<u32>)
        requires
            old(self).wf(),
        ensures
            final(self).wf(),
            r is None <==> old(self).frontier().len() == 0,
            r is None ==> final(self).frontier() == old(self).frontier(),
            r matches Some(id) ==> id == old(self).frontier()[0]
                && final(self).frontier() == old(self).frontier().drop_first(),
            final(self).results() == old(self).results(),
            final(self).visited() == old(self).visited(),
            final(self).skipped() == old(self).skipped(),
            final(self).failed() == old(self).failed(),
            final(self).in_flight() == old(self).in_flight(),
            final(self).admitted() == old(self).admitted(),
            final(self).target() == old(self).target(),
    {
        let r = self.frontier.pop_front();
        proof {
            assert forall|x: u32| self.admitted().contains(x) <==> self.known(x) by {
                assert(old(self).admitted().contains(x) <==> old(self).known(x));
            }
        }
        r
    }
}

} // verus!
