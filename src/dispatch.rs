//! The decisions of a bounded-concurrency batch of fetches: which check to
//! start next, and what to keep of each finished fetch. The caller performs
//! the fetches and the waits, and reports each outcome back.
use vstd::prelude::*;
use vstd::set_lib::{lemma_int_range, set_int_range};
use crate::rank::{rank, ranked, sorted_by_name};
use crate::uptime::{reduce, records_fit, fits_u64, stat_matches, UptimeStat, WeeklyRecord};

verus! {

/// How many fetches may be in flight at once.
pub const CONCURRENCY_LIMIT: usize = 10;

/// Pause after each fetch, in milliseconds, before it counts as finished.
pub const PACING_DELAY_MS: u64 = 200;

/// One monitored target.
#[derive(Clone, Debug)]
pub struct Check {
    pub id: String,
    pub name: String,
}

/// Why one check's summary could not be had.
#[derive(Clone, Copy, Debug, PartialEq, Eq, Structural)]
pub enum FetchError {
    /// The connection failed or timed out.
    Network,
    /// The response did not have the expected structure.
    Decode,
    /// The service answered with a non-success status.
    RemoteRejected,
}

/// Where one check's fetch stands.
#[derive(Clone, Copy, Debug, PartialEq, Eq, Structural)]
pub enum Status {
    Queued,
    Running,
    /// Fetched, and its statistic collected.
    Succeeded,
    /// Its fetch failed, or its records could not be summed: dropped.
    Failed,
}

/// Number of fetches in flight.
pub open spec fn running_count(s: Seq<Status>) -> nat
    decreases s.len(),
{
    if s.len() == 0 {
        0
    } else {
        running_count(s.drop_last()) + if s.last() == Status::Running { 1nat } else { 0nat }
    }
}

/// A batch of fetches, one per check, started in the order of the checks.
pub struct Batch {
    pub checks: Vec<Check>,
    pub limit: usize,
    /// Checks before this index have been started.
    pub next: usize,
    pub in_flight: usize,
    pub status: Vec<Status>,
    /// The statistics of the successful fetches, in the order they finished.
    pub collected: Vec<UptimeStat>,
    /// For each collected statistic, the index of its check.
    pub sources: Ghost<Seq<int>>,
    /// The records that each successful fetch returned.
    pub fetched: Ghost<Map<int, Seq<WeeklyRecord>>>,
}

impl Batch {
    pub open spec fn len(&self) -> nat {
        self.checks@.len()
    }

    /// The invariant of a batch.
    pub open spec fn wf(&self) -> bool {
        &&& self.limit > 0
        &&& self.status@.len() == self.checks@.len()
        &&& self.next <= self.checks@.len()
        &&& forall|i: int| 0 <= i < self.status@.len() ==> (#[trigger] self.status@[i] == Status::Queued <==> i >= self.next)
        &&& self.in_flight == running_count(self.status@)
        &&& self.in_flight <= self.limit
        &&& self.sources@.len() == self.collected@.len()
        &&& self.sources@.no_duplicates()
        &&& forall|j: int| 0 <= j < self.sources@.len() ==> {
            let i = #[trigger] self.sources@[j];
            &&& 0 <= i < self.checks@.len()
            &&& self.status@[i] == Status::Succeeded
            &&& self.fetched@.contains_key(i)
            &&& stat_matches(self.collected@[j], self.checks@[i].id@, self.checks@[i].name@, self.fetched@[i])
        }
        &&& forall|i: int| 0 <= i < self.status@.len() && #[trigger] self.status@[i] == Status::Succeeded
            ==> self.sources@.contains(i)
    }

    /// Every check has been started and every fetch has finished.
    pub open spec fn done(&self) -> bool {
        self.next == self.checks@.len() && self.in_flight == 0
    }

    /// A batch over `checks` with nothing started yet.
    pub fn new(checks: Vec<Check>, limit: usize) -> (r: Batch)
        requires
            limit > 0,
        ensures
            r.wf(),
            r.checks@ == checks@,
            r.limit == limit,
            r.next == 0,
            r.in_flight == 0,
            r.collected@.len() == 0,
            forall|i: int| 0 <= i < checks@.len() ==> #[trigger] r.status@[i] == Status::Queued,
    {
        let n = checks.len();
        let mut status: Vec<Status> = Vec::new();
        let mut i: usize = 0;
        while i < n
            invariant
                i <= n,
                status@.len() == i,
                forall|k: int| 0 <= k < i ==> #[trigger] status@[k] == Status::Queued,
                running_count(status@) == 0,
            decreases n - i,
        {
            let ghost before = status@;
            status.push(Status::Queued);
            assert(status@.drop_last() =~= before);
            i = i + 1;
        }
        Batch {
            checks,
            limit,
            next: 0,
            in_flight: 0,
            status,
            collected: Vec::new(),
            sources: Ghost(Seq::empty()),
            fetched: Ghost(Map::empty()),
        }
    }

    /// Starts the next queued check where the limit allows: its index, or
    /// `None` where all are started or `limit` fetches are in flight.
    pub fn start_next(&mut self) -> (r: Option<usize>)
        requires
            old(self).wf(),
        ensures
            final(self).wf(),
            final(self).checks@ == old(self).checks@,
            final(self).limit == old(self).limit,
            final(self).collected@ == old(self).collected@,
            old(self).next < old(self).checks@.len() && old(self).in_flight < old(self).limit ==> {
                &&& r == Some(old(self).next)
                &&& final(self).next == old(self).next + 1
                &&& final(self).in_flight == old(self).in_flight + 1
                &&& final(self).status@ == old(self).status@.update(old(self).next as int, Status::Running)
            },
            !(old(self).next < old(self).checks@.len() && old(self).in_flight < old(self).limit) ==> {
                &&& r is None
                &&& *final(self) == *old(self)
            },
    {
        if self.next < self.checks.len() && self.in_flight < self.limit {
            let i = self.next;
            proof {
                lemma_running_count_update(self.status@, i as int, Status::Running);
            }
            self.status.set(i, Status::Running);
            self.next = i + 1;
            self.in_flight = self.in_flight + 1;
            Some(i)
        } else {
            None
        }
    }

    /// Records the outcome of the fetch of check `index`. A success is folded
    /// into a statistic and collected; a failure, or records whose sum does
    /// not fit in 64 bits, drops the check. An index that is not running is
    /// ignored.
    pub fn complete(&mut self, index: usize, outcome: Result<Vec<WeeklyRecord>, FetchError>)
        requires
            old(self).wf(),
        ensures
            final(self).wf(),
            final(self).checks@ == old(self).checks@,
            final(self).limit == old(self).limit,
            final(self).next == old(self).next,
            !(index < old(self).checks@.len() && old(self).status@[index as int] == Status::Running) ==> *final(self) == *old(self),
            index < old(self).checks@.len() && old(self).status@[index as int] == Status::Running ==> {
                &&& final(self).in_flight == old(self).in_flight - 1
                &&& match outcome {
                    Ok(rs) if fits_u64(rs@) => {
                        &&& final(self).status@ == old(self).status@.update(index as int, Status::Succeeded)
                        &&& final(self).collected@.len() == old(self).collected@.len() + 1
                        &&& final(self).collected@.drop_last() == old(self).collected@
                        &&& stat_matches(final(self).collected@.last(),
                            old(self).checks@[index as int].id@, old(self).checks@[index as int].name@, rs@)
                    },
                    _ => {
                        &&& final(self).status@ == old(self).status@.update(index as int, Status::Failed)
                        &&& final(self).collected@ == old(self).collected@
                    },
                }
            },
    {
        if index >= self.checks.len() {
            return;
        }
        if self.status[index] != Status::Running {
            return;
        }
        let ghost ii = index as int;
        let ghost prev = *self;
        let kept = match outcome {
            Ok(records) => {
                if records_fit(&records) {
                    let id = self.checks[index].id.clone();
                    let name = self.checks[index].name.clone();
                    let stat = reduce(id, name, &records);
                    self.collected.push(stat);
                    self.fetched = Ghost(self.fetched@.insert(ii, records@));
                    self.sources = Ghost(self.sources@.push(ii));
                    true
                } else {
                    false
                }
            },
            Err(_) => false,
        };
        let new_status = if kept { Status::Succeeded } else { Status::Failed };
        proof {
            lemma_running_count_update(self.status@, ii, new_status);
        }
        self.status.set(index, new_status);
        self.in_flight = self.in_flight - 1;
        proof {
            assert(!prev.sources@.contains(ii));
            assert forall|j: int| 0 <= j < self.sources@.len() implies {
                let i = #[trigger] self.sources@[j];
                &&& 0 <= i < self.checks@.len()
                &&& self.status@[i] == Status::Succeeded
                &&& self.fetched@.contains_key(i)
                &&& stat_matches(self.collected@[j], self.checks@[i].id@, self.checks@[i].name@, self.fetched@[i])
            } by {
                if j < prev.sources@.len() {
                    assert(self.sources@[j] == prev.sources@[j]);
                    assert(self.sources@[j] != ii);
                }
            }
            assert forall|i: int| 0 <= i < self.status@.len() && #[trigger] self.status@[i] == Status::Succeeded
                implies self.sources@.contains(i) by {
                if i != ii {
                    assert(prev.status@[i] == Status::Succeeded);
                    let j = choose|j: int| 0 <= j < prev.sources@.len() && prev.sources@[j] == i;
                    assert(self.sources@[j] == i);
                } else {
                    assert(self.sources@[self.sources@.len() - 1] == i);
                }
            }
        }
    }

    /// The check at `index`.
    pub fn check(&self, index: usize) -> (r: &Check)
        requires
            index < self.checks@.len(),
        ensures
            *r == self.checks@[index as int],
    {
        &self.checks[index]
    }

    /// The collected statistics, ranked by check name.
    pub fn into_ranked(self) -> (r: Vec<UptimeStat>)
        ensures
            r@ == ranked(self.collected@),
            sorted_by_name(r@),
            r@.to_multiset() == self.collected@.to_multiset(),
    {
        rank(self.collected)
    }

    /// Every check has been started and every fetch has finished.
    pub fn is_done(&self) -> (r: bool)
        requires
            self.wf(),
        ensures
            r == self.done(),
    {
        self.next == self.checks.len() && self.in_flight == 0
    }
}

proof fn lemma_none_running(s: Seq<Status>, i: int)
    requires
        running_count(s) == 0,
        0 <= i < s.len(),
    ensures
        s[i] != Status::Running,
    decreases s.len(),
{
    if i < s.len() - 1 {
        lemma_none_running(s.drop_last(), i);
    }
}

/// At any moment no more fetches are in flight than the batch's limit.
pub proof fn lemma_in_flight_bounded(b: Batch)
    requires
        b.wf(),
    ensures
        running_count(b.status@) <= b.limit,
{
}

/// Once a batch is done, where exactly one check failed, every other check has
/// one statistic collected and the failed one has none.
pub proof fn lemma_single_failure_dropped(b: Batch, k: int)
    requires
        b.wf(),
        b.done(),
        0 <= k < b.len(),
        b.status@[k] == Status::Failed,
        forall|i: int| 0 <= i < b.len() && i != k ==> #[trigger] b.status@[i] != Status::Failed,
    ensures
        b.collected@.len() == b.len() - 1,
        forall|j: int| 0 <= j < b.sources@.len() ==> #[trigger] b.sources@[j] != k,
        forall|j: int| #![trigger b.collected@[j]] 0 <= j < b.collected@.len() ==> {
            let i = b.sources@[j];
            &&& b.collected@[j].id@ == b.checks@[i].id@
            &&& b.collected@[j].name@ == b.checks@[i].name@
        },
        (forall|i: int, l: int| 0 <= i < b.len() && 0 <= l < b.len() && i != l
            ==> #[trigger] b.checks@[i].id@ != #[trigger] b.checks@[l].id@)
            ==> forall|j: int| 0 <= j < b.collected@.len() ==> #[trigger] b.collected@[j].id@ != b.checks@[k].id@,
{
    let n = b.len() as int;
    let want = set_int_range(0, n).remove(k);
    assert forall|i: int| 0 <= i < n && i != k implies #[trigger] b.status@[i] == Status::Succeeded by {
        lemma_none_running(b.status@, i);
    }
    assert forall|j: int| 0 <= j < b.sources@.len() implies #[trigger] b.sources@[j] != k by {
        let i = b.sources@[j];
        assert(b.status@[i] == Status::Succeeded);
    }
    assert forall|i: int| #[trigger] want.contains(i) <==> b.sources@.to_set().contains(i) by {
        if want.contains(i) {
            assert(b.status@[i] == Status::Succeeded);
            assert(b.sources@.contains(i));
        }
        if b.sources@.to_set().contains(i) {
            let j = choose|j: int| 0 <= j < b.sources@.len() && b.sources@[j] == i;
            assert(b.sources@[j] != k);
        }
    }
    assert(want =~= b.sources@.to_set());
    lemma_int_range(0, n);
    if forall|i: int, l: int| 0 <= i < n && 0 <= l < n && i != l
        ==> #[trigger] b.checks@[i].id@ != #[trigger] b.checks@[l].id@ {
        assert forall|j: int| 0 <= j < b.collected@.len() implies #[trigger] b.collected@[j].id@ != b.checks@[k].id@ by {
            let i = b.sources@[j];
            assert(i != k);
            assert(b.checks@[i].id@ != b.checks@[k].id@);
        }
    }
    b.sources@.unique_seq_to_set();
}

proof fn lemma_running_count_update(s: Seq<Status>, i: int, v: Status)
    requires
        0 <= i < s.len(),
    ensures
        running_count(s.update(i, v)) + (if s[i] == Status::Running { 1int } else { 0int })
            == running_count(s) + (if v == Status::Running { 1int } else { 0int }),
    decreases s.len(),
{
    if i < s.len() - 1 {
        lemma_running_count_update(s.drop_last(), i, v);
        assert(s.update(i, v).drop_last() =~= s.drop_last().update(i, v));
    } else {
        assert(s.update(i, v).drop_last() =~= s.drop_last());
    }
}

} // verus!
