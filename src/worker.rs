//! One search: draw, append, compare, until the window equals the target.

use crate::frequency::{count_of, FrequencyModel};
use crate::sampler::{SearchError, WeightedSampler};
use crate::window::{ends_with, evicted, lemma_window_equals_iff_ends_with, window_of, SlidingWindow};
use vstd::prelude::*;

verus! {

/// No prefix of `stream` of length `1..=n` ends with `target`.
pub open spec fn no_match_up_to(target: Seq<u8>, stream: Seq<u8>, n: nat) -> bool {
    forall|k: int| 1 <= k <= n ==> !ends_with(#[trigger] stream.take(k), target)
}

/// After `n` bytes of `stream` the window first equals `target`.
pub open spec fn is_first_match(target: Seq<u8>, stream: Seq<u8>, n: nat) -> bool {
    &&& 1 <= n <= stream.len()
    &&& ends_with(stream.take(n as int), target)
    &&& no_match_up_to(target, stream, (n - 1) as nat)
}

/// A stream has at most one first match.
pub proof fn lemma_first_match_unique(target: Seq<u8>, stream: Seq<u8>, n1: nat, n2: nat)
    requires
        is_first_match(target, stream, n1),
        is_first_match(target, stream, n2),
    ensures
        n1 == n2,
{
    if n1 < n2 {
        assert(!ends_with(stream.take(n1 as int), target));
    } else if n2 < n1 {
        assert(!ends_with(stream.take(n2 as int), target));
    }
}

/// Two searches for one target that draw the same bytes stop at the same
/// point: each stopped at the first match of its history, and both histories
/// are prefixes of the common stream of draws.
pub proof fn lemma_same_draws_same_report(target: Seq<u8>, draws: Seq<u8>, h1: Seq<u8>, h2: Seq<u8>)
    requires
        h1.len() <= draws.len(),
        h2.len() <= draws.len(),
        h1 == draws.take(h1.len() as int),
        h2 == draws.take(h2.len() as int),
        is_first_match(target, h1, h1.len()),
        is_first_match(target, h2, h2.len()),
    ensures
        h1 == h2,
{
    assert forall|k: int| 1 <= k <= h1.len() - 1 implies !ends_with(#[trigger] draws.take(k), target) by {
        assert(h1.take(k) =~= draws.take(k));
    }
    assert forall|k: int| 1 <= k <= h2.len() - 1 implies !ends_with(#[trigger] draws.take(k), target) by {
        assert(h2.take(k) =~= draws.take(k));
    }
    assert(h1.take(h1.len() as int) =~= draws.take(h1.len() as int));
    assert(h2.take(h2.len() as int) =~= draws.take(h2.len() as int));
    assert(is_first_match(target, draws, h1.len()));
    assert(is_first_match(target, draws, h2.len()));
    lemma_first_match_unique(target, draws, h1.len(), h2.len());
}

/// What a worker reports once its window equals the target.
#[derive(Debug, Clone, Copy, PartialEq, Eq, Structural)]
pub struct MatchResult {
    /// Bytes evicted from the front of the window when the match was seen.
    pub offset: u64,
    /// The seed of the worker's generator.
    pub seed: u64,
    /// Bytes generated up to and including the last byte of the match.
    pub generated: u64,
}

/// Runs the window over bytes already drawn, `drawn`, and reports the first
/// point at which it equals `target`, as a worker seeded with `seed` that drew
/// those bytes would; `None` where the window never equals it.
pub fn search_stream(target: &Vec<u8>, seed: u64, drawn: &Vec<u8>) -> (r: Option<MatchResult>)
    ensures
        r is None <==> no_match_up_to(target@, drawn@, drawn@.len()),
        r matches Some(m) ==> {
            &&& is_first_match(target@, drawn@, m.generated as nat)
            &&& m.offset as nat == evicted(m.generated as nat, target@.len())
            &&& m.seed == seed
        },
{
    let copy = target.clone();
    assert(copy@ =~= target@);
    let mut window = SlidingWindow::new(copy);
    let n = drawn.len();
    let mut i: usize = 0;
    while i < n
        invariant
            n == drawn@.len(),
            i <= n,
            window.wf(),
            window.target_view() == target@,
            window.history() == drawn@.take(i as int),
            no_match_up_to(target@, drawn@, i as nat),
        decreases n - i,
    {
        let found = window.push_and_check(drawn[i]);
        assert(drawn@.take(i + 1) =~= drawn@.take(i as int).push(drawn@[i as int]));
        i = i + 1;
        if found {
            return Some(MatchResult { offset: window.offset(), seed, generated: i as u64 });
        }
    }
    None
}

/// What `search_stream` reports on the bytes a worker drew is what the
/// worker reported: both stop at the one first match of the stream.
pub proof fn lemma_worker_agrees_with_stream(target: Seq<u8>, drawn: Seq<u8>, n1: nat, n2: nat)
    requires
        is_first_match(target, drawn, n1),
        is_first_match(target, drawn.take(n2 as int), n2),
        n2 <= drawn.len(),
    ensures
        n1 == n2,
{
    let h = drawn.take(n2 as int);
    assert forall|k: int| 1 <= k <= n2 - 1 implies !ends_with(#[trigger] drawn.take(k), target) by {
        assert(h.take(k) =~= drawn.take(k));
    }
    assert(h.take(n2 as int) =~= drawn.take(n2 as int));
    lemma_first_match_unique(target, drawn, n1, n2);
}

/// Where a worker stands.
#[derive(Debug, Clone, Copy, PartialEq, Eq, Structural)]
pub enum WorkerState {
    /// Still drawing bytes; no match seen yet.
    Running,
    /// A match was seen and reported; nothing more is drawn.
    Terminated,
}

/// One seeded generator and one window, searching for one target.
pub struct SearchWorker {
    sampler: WeightedSampler,
    window: SlidingWindow,
    generated: u64,
    state: WorkerState,
}

impl SearchWorker {
    /// The byte sequence searched for.
    pub closed spec fn target_view(&self) -> Seq<u8> {
        self.window.target_view()
    }

    /// Every byte generated so far, oldest first.
    pub closed spec fn history(&self) -> Seq<u8> {
        self.window.history()
    }

    /// The bytes the window holds.
    pub closed spec fn buffer_view(&self) -> Seq<u8> {
        self.window.buffer_view()
    }

    /// Bytes evicted from the front of the window so far.
    pub closed spec fn offset_view(&self) -> nat {
        self.window.offset_view()
    }

    /// The seed of the worker's generator.
    pub closed spec fn seed_view(&self) -> u64 {
        self.sampler.seed_view()
    }

    /// Where the worker stands.
    pub closed spec fn state_view(&self) -> WorkerState {
        self.state
    }

    /// The parts agree with each other.
    pub closed spec fn parts_agree(&self) -> bool {
        &&& self.sampler.wf()
        &&& self.window.wf()
        &&& self.sampler.source() == self.window.target_view()
        &&& self.generated as nat == self.window.history().len()
    }

    /// The window holds the tail of what was generated, every generated byte
    /// occurs in the target, and a worker is terminated exactly once the
    /// window has equalled the target.
    pub open spec fn wf(&self) -> bool {
        let t = self.target_view();
        let h = self.history();
        &&& self.parts_agree()
        &&& t.len() > 0
        &&& self.buffer_view() == window_of(h, t.len())
        &&& self.buffer_view().len() <= t.len()
        &&& self.offset_view() == evicted(h.len(), t.len())
        &&& forall|i: int| 0 <= i < h.len() ==> #[trigger] count_of(t, h[i]) > 0
        &&& self.state_view() == WorkerState::Running ==> no_match_up_to(t, h, h.len())
        &&& self.state_view() == WorkerState::Terminated ==> is_first_match(t, h, h.len())
    }

    /// A running worker for `target` with the profile `model` and a generator
    /// seeded with `seed`; it fails exactly when the target is empty.
    pub fn new(target: &Vec<u8>, model: &FrequencyModel, seed: u64) -> (r: Result<
        SearchWorker,
        SearchError,
    >)
        requires
            model.wf(),
            model.source() == target@,
        ensures
            r is Err <==> target@.len() == 0,
            r matches Err(e) ==> e == SearchError::ConfigurationError,
            r matches Ok(w) ==> {
                &&& w.wf()
                &&& w.target_view() == target@
                &&& w.seed_view() == seed
                &&& w.history() == Seq::<u8>::empty()
                &&& w.state_view() == WorkerState::Running
            },
    {
        match WeightedSampler::new(model, seed) {
            Err(e) => Err(e),
            Ok(sampler) => {
                let copy = target.clone();
                assert(copy@ =~= target@);
                let window = SlidingWindow::new(copy);
                Ok(SearchWorker { sampler, window, generated: 0, state: WorkerState::Running })
            },
        }
    }

    /// Draws up to `limit` bytes, stopping at the first byte after which the
    /// window equals the target; that match is reported, once, and the worker
    /// is then terminated. A terminated worker draws nothing and reports
    /// nothing. Drawing also stops when the count of generated bytes reaches
    /// `u64::MAX`.
    pub fn run(&mut self, limit: u64) -> (r: Option<MatchResult>)
        requires
            old(self).wf(),
        ensures
            final(self).wf(),
            final(self).target_view() == old(self).target_view(),
            final(self).seed_view() == old(self).seed_view(),
            old(self).history().len() <= final(self).history().len(),
            final(self).history().take(old(self).history().len() as int) == old(self).history(),
            old(self).state_view() == WorkerState::Terminated ==> {
                &&& r is None
                &&& final(self).history() == old(self).history()
                &&& final(self).state_view() == WorkerState::Terminated
            },
            old(self).state_view() == WorkerState::Running ==> (r matches Some(m) ==> {
                &&& final(self).state_view() == WorkerState::Terminated
                &&& m.generated as nat == final(self).history().len()
                &&& m.offset as nat == evicted(m.generated as nat, final(self).target_view().len())
                &&& m.offset as nat == final(self).offset_view()
                &&& m.seed == old(self).seed_view()
                &&& final(self).buffer_view() == final(self).target_view()
            }),
            old(self).state_view() == WorkerState::Running ==> (r is None ==> {
                &&& final(self).state_view() == WorkerState::Running
                &&& final(self).history().len() == if old(self).history().len() + limit
                    <= u64::MAX {
                    old(self).history().len() + limit
                } else {
                    u64::MAX as int
                }
            }),
    {
        if let WorkerState::Terminated = self.state {
            assert(self.history().take(self.history().len() as int) =~= self.history());
            return None;
        }
        let ghost h0 = self.history();
        let mut count: u64 = 0;
        assert(h0.take(h0.len() as int) =~= h0);
        while count < limit && self.generated < u64::MAX
            invariant
                self.wf(),
                self.state_view() == WorkerState::Running,
                old(self).state_view() == WorkerState::Running,
                self.target_view() == old(self).target_view(),
                self.seed_view() == old(self).seed_view(),
                h0 == old(self).history(),
                count <= limit,
                self.history().len() == h0.len() + count,
                self.history().take(h0.len() as int) == h0,
            decreases limit - count,
        {
            let ghost h = self.history();
            let ghost t = self.target_view();
            let b = self.sampler.next_byte();
            let found = self.window.push_and_check(b);
            self.generated = self.generated + 1;
            count = count + 1;
            let ghost h1 = self.history();
            proof {
                assert(h1 == h.push(b));
                assert forall|k: int| 0 <= k <= h.len() implies #[trigger] h1.take(k) == h.take(k) by {
                    assert(h1.take(k) =~= h.take(k));
                }
                assert(h1.take(h1.len() as int) =~= h1);
                assert(h1.take(h0.len() as int) =~= h.take(h0.len() as int));
                assert forall|i: int| 0 <= i < h1.len() implies #[trigger] count_of(t, h1[i]) > 0 by {
                    if i < h.len() {
                        assert(h1[i] == h[i]);
                    }
                }
                lemma_window_equals_iff_ends_with(h1, t);
            }
            if found {
                self.state = WorkerState::Terminated;
                return Some(
                    MatchResult {
                        offset: self.window.offset(),
                        seed: self.sampler.seed(),
                        generated: self.generated,
                    },
                );
            }
        }
        None
    }

    /// Where the worker stands.
    pub fn state(&self) -> (r: WorkerState)
        ensures
            r == self.state_view(),
    {
        self.state
    }

    /// The seed of the worker's generator.
    pub fn seed(&self) -> (r: u64)
        ensures
            r == self.seed_view(),
    {
        self.sampler.seed()
    }

    /// Bytes generated so far.
    pub fn generated(&self) -> (r: u64)
        requires
            self.wf(),
        ensures
            r as nat == self.history().len(),
    {
        self.generated
    }

    /// Bytes evicted from the front of the window so far.
    pub fn offset(&self) -> (r: u64)
        ensures
            r as nat == self.offset_view(),
    {
        self.window.offset()
    }

    /// The bytes the window holds.
    pub fn buffer(&self) -> (r: &Vec<u8>)
        ensures
            r@ == self.buffer_view(),
    {
        self.window.buffer()
    }
}

} // verus!
