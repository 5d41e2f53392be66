//! The crawl coordinator: a seeder feeding a bounded work queue, a fixed pool of
//! worker slots, a bounded result channel, and the collector draining it.
//!
//! The coordinator owns every hand-off and decides, one step at a time, what
//! happens next; the network work of each slot happens outside it and comes back
//! through `complete`. Every step moves one request one place down the line, so
//! a request is never lost or duplicated, no channel grows past its capacity,
//! and the run ends after a number of steps bounded by the number of candidates.

use std::collections::VecDeque;
use vstd::multiset::Multiset;
use vstd::prelude::*;
use crate::worker::{CrawlOutcome, FailureReason, ItemTask, Next, WorkItem, WorkerEvent, next_of};

verus! {

/// One worker's execution slot.
#[derive(Debug)]
pub enum Slot {
    /// Waiting for a request from the work queue.
    Idle,
    /// Crawling this request.
    Busy(WorkItem),
    /// Done crawling; holds the outcome until the result channel has room.
    Blocked(CrawlOutcome),
}

/// The kind of a slot, without its contents.
#[derive(Debug, Clone, Copy, PartialEq, Eq, Structural)]
pub enum SlotKind {
    Idle,
    Busy,
    Blocked,
}

pub open spec fn kind_of(s: Slot) -> SlotKind {
    match s {
        Slot::Idle => SlotKind::Idle,
        Slot::Busy(_) => SlotKind::Busy,
        Slot::Blocked(_) => SlotKind::Blocked,
    }
}

/// What the coordinator asks of its caller.
#[derive(Debug)]
pub enum Action {
    /// Crawl `item` for worker slot `worker`, then report the outcome with `complete`.
    Fetch { worker: usize, item: WorkItem },
    /// Hand this outcome to the collector.
    Collect(CrawlOutcome),
    /// A request moved inside the coordinator; ask again.
    Advanced,
    /// Nothing can move until a worker completes its fetch.
    Wait,
    /// Every candidate has been collected.
    Done,
}

/// The URLs of a sequence of requests.
pub open spec fn item_urls(s: Seq<WorkItem>) -> Seq<Seq<char>> {
    s.map_values(|i: WorkItem| i.url@)
}

/// The URLs of a sequence of outcomes.
pub open spec fn outcome_urls(s: Seq<CrawlOutcome>) -> Seq<Seq<char>> {
    s.map_values(|o: CrawlOutcome| o.url_view())
}

/// The URLs a slot holds: none, or that of its request or outcome.
pub open spec fn slot_urls(s: Slot) -> Multiset<Seq<char>> {
    match s {
        Slot::Idle => Multiset::empty(),
        Slot::Busy(item) => Multiset::singleton(item.url@),
        Slot::Blocked(o) => Multiset::singleton(o.url_view()),
    }
}

/// Steps a slot's request still has to take before it reaches the collector.
pub open spec fn slot_weight(s: Slot) -> nat {
    match s {
        Slot::Idle => 0,
        Slot::Busy(_) => 3,
        Slot::Blocked(_) => 2,
    }
}

/// Whether a slot is fetching the given URL.
pub open spec fn fetching(s: Slot, url: Seq<char>) -> bool {
    match s {
        Slot::Busy(item) => item.url@ == url,
        _ => false,
    }
}

pub open spec fn slot_fetching(s: Slot) -> nat {
    if s is Busy { 1 } else { 0 }
}

pub open spec fn slots_urls(s: Seq<Slot>) -> Multiset<Seq<char>>
    decreases s.len(),
{
    if s.len() == 0 {
        Multiset::empty()
    } else {
        slots_urls(s.drop_last()).add(slot_urls(s.last()))
    }
}

pub open spec fn slots_weight(s: Seq<Slot>) -> nat
    decreases s.len(),
{
    if s.len() == 0 {
        0
    } else {
        slots_weight(s.drop_last()) + slot_weight(s.last())
    }
}

/// How many slots are fetching.
pub open spec fn fetches_in_flight(s: Seq<Slot>) -> nat
    decreases s.len(),
{
    if s.len() == 0 {
        0
    } else {
        fetches_in_flight(s.drop_last()) + slot_fetching(s.last())
    }
}

proof fn lemma_slots_update(s: Seq<Slot>, i: int, x: Slot)
    requires
        0 <= i < s.len(),
    ensures
        slots_urls(s.update(i, x)).add(slot_urls(s[i])) =~= slots_urls(s).add(slot_urls(x)),
        slots_weight(s.update(i, x)) + slot_weight(s[i]) == slots_weight(s) + slot_weight(x),
        fetches_in_flight(s.update(i, x)) + slot_fetching(s[i]) == fetches_in_flight(s) + slot_fetching(x),
    decreases s.len(),
{
    broadcast use vstd::multiset::group_multiset_axioms;
    let t = s.update(i, x);
    if i == s.len() - 1 {
        assert(t.drop_last() =~= s.drop_last());
        assert(slots_urls(t) == slots_urls(s.drop_last()).add(slot_urls(x)));
        assert(slots_urls(s) == slots_urls(s.drop_last()).add(slot_urls(s[i])));
    } else {
        lemma_slots_update(s.drop_last(), i, x);
        assert(t.drop_last() =~= s.drop_last().update(i, x));
        assert(t.last() == s.last());
        assert(slots_urls(t) == slots_urls(t.drop_last()).add(slot_urls(s.last())));
        assert(slots_urls(s) == slots_urls(s.drop_last()).add(slot_urls(s.last())));
        let d = s.drop_last();
        assert forall|v: Seq<char>|
            #[trigger] slots_urls(t).add(slot_urls(s[i])).count(v) == slots_urls(s).add(slot_urls(x)).count(v) by {
            assert(slots_urls(d.update(i, x)).add(slot_urls(d[i])).count(v)
                == slots_urls(d).add(slot_urls(x)).count(v));
        }
    }
}

proof fn lemma_slots_idle(s: Seq<Slot>)
    requires
        forall|i: int| 0 <= i < s.len() ==> #[trigger] s[i] is Idle,
    ensures
        slots_urls(s) =~= Multiset::empty(),
        slots_weight(s) == 0,
        fetches_in_flight(s) == 0,
    decreases s.len(),
{
    if s.len() > 0 {
        lemma_slots_idle(s.drop_last());
    }
}

proof fn lemma_slots_bounds(s: Seq<Slot>)
    ensures
        fetches_in_flight(s) <= s.len(),
        slots_weight(s) <= 3 * slots_urls(s).len(),
        slots_weight(s) == 0 ==> forall|i: int| 0 <= i < s.len() ==> #[trigger] s[i] is Idle,
        forall|i: int| 0 <= i < s.len() && #[trigger] s[i] is Busy ==> fetches_in_flight(s) > 0,
    decreases s.len(),
{
    broadcast use vstd::multiset::group_multiset_axioms;
    if s.len() > 0 {
        let d = s.drop_last();
        lemma_slots_bounds(d);
        assert forall|i: int| 0 <= i < s.len() - 1 implies s[i] == d[i] by {}
    }
}

proof fn lemma_pop_front_multiset(s: Seq<Seq<char>>)
    requires
        s.len() > 0,
    ensures
        s.to_multiset() =~= s.drop_first().to_multiset().insert(s[0]),
{
    broadcast use vstd::seq_lib::group_to_multiset_ensures;
    assert(s.drop_first() =~= s.remove(0));
    assert(s.contains(s[0]));
}

proof fn lemma_empty_multiset(s: Seq<Seq<char>>)
    requires
        s.len() == 0,
    ensures
        s.to_multiset() =~= Multiset::empty(),
{
    broadcast use vstd::seq_lib::group_to_multiset_ensures;
    broadcast use vstd::multiset::group_multiset_axioms;
    vstd::multiset::lemma_multiset_empty_len(s.to_multiset());
}

proof fn lemma_item_urls_push(s: Seq<WorkItem>, x: WorkItem)
    ensures
        item_urls(s.push(x)) =~= item_urls(s).push(x.url@),
{
}

proof fn lemma_item_urls_pop_front(s: Seq<WorkItem>)
    requires
        s.len() > 0,
    ensures
        item_urls(s.subrange(1, s.len() as int)) =~= item_urls(s).drop_first(),
        item_urls(s)[0] == s[0].url@,
{
}

proof fn lemma_outcome_urls_push(s: Seq<CrawlOutcome>, x: CrawlOutcome)
    ensures
        outcome_urls(s.push(x)) =~= outcome_urls(s).push(x.url_view()),
{
}

proof fn lemma_outcome_urls_pop_front(s: Seq<CrawlOutcome>)
    requires
        s.len() > 0,
    ensures
        outcome_urls(s.subrange(1, s.len() as int)) =~= outcome_urls(s).drop_first(),
        outcome_urls(s)[0] == s[0].url_view(),
{
}

/// The crawl coordinator.
pub struct Pipeline {
    /// Candidates the seeder has not yet enqueued, in order.
    pending: VecDeque<WorkItem>,
    /// The work queue.
    queue: VecDeque<WorkItem>,
    queue_capacity: usize,
    /// One slot per worker.
    slots: Vec<Slot>,
    /// The result channel.
    results: VecDeque<CrawlOutcome>,
    result_capacity: usize,
    /// The URLs of all candidates.
    candidates: Ghost<Seq<Seq<char>>>,
    /// The URLs of the outcomes handed to the collector, in order.
    collected: Ghost<Seq<Seq<char>>>,
}

impl Pipeline {
    /// The URLs of all candidates, in the order they were given.
    pub closed spec fn candidates(&self) -> Seq<Seq<char>> {
        self.candidates@
    }

    /// The URLs of the outcomes handed to the collector so far, in order.
    pub closed spec fn collected(&self) -> Seq<Seq<char>> {
        self.collected@
    }

    pub closed spec fn queue_len(&self) -> nat {
        self.queue@.len()
    }

    pub closed spec fn queue_capacity(&self) -> nat {
        self.queue_capacity as nat
    }

    pub closed spec fn results_len(&self) -> nat {
        self.results@.len()
    }

    pub closed spec fn result_capacity(&self) -> nat {
        self.result_capacity as nat
    }

    pub closed spec fn worker_count(&self) -> nat {
        self.slots@.len()
    }

    /// The state of worker slot `w`.
    pub closed spec fn slot(&self, w: int) -> Slot {
        self.slots@[w]
    }

    /// How many fetches are in flight.
    pub closed spec fn in_flight(&self) -> nat {
        fetches_in_flight(self.slots@)
    }

    /// The URLs held anywhere between the seeder and the collector.
    pub closed spec fn in_transit(&self) -> Multiset<Seq<char>> {
        item_urls(self.pending@).to_multiset()
            .add(item_urls(self.queue@).to_multiset())
            .add(slots_urls(self.slots@))
            .add(outcome_urls(self.results@).to_multiset())
    }

    /// The number of steps the requests still have to take: five for a request
    /// the seeder holds, four in the queue, three while fetched, two while its
    /// outcome waits for the result channel, one in the result channel.
    pub closed spec fn work(&self) -> nat {
        5 * self.pending@.len() + 4 * self.queue@.len() + slots_weight(self.slots@)
            + self.results@.len()
    }

    /// Every candidate has reached the collector.
    pub closed spec fn is_finished(&self) -> bool {
        &&& self.pending@.len() == 0
        &&& self.queue@.len() == 0
        &&& self.results@.len() == 0
        &&& forall|w: int| 0 <= w < self.slots@.len() ==> #[trigger] self.slots@[w] is Idle
    }

    pub closed spec fn wf(&self) -> bool {
        &&& 1 <= self.queue_capacity
        &&& 1 <= self.result_capacity
        &&& 1 <= self.slots@.len()
        &&& self.queue@.len() <= self.queue_capacity
        &&& self.results@.len() <= self.result_capacity
        &&& self.in_transit().add(self.collected@.to_multiset()) =~= self.candidates@.to_multiset()
    }
}

fn slot_kind(s: &Slot) -> (k: SlotKind)
    ensures
        k == kind_of(*s),
{
    match s {
        Slot::Idle => SlotKind::Idle,
        Slot::Busy(_) => SlotKind::Busy,
        Slot::Blocked(_) => SlotKind::Blocked,
    }
}

/// The first slot of the wanted kind, if any.
fn find_slot(slots: &Vec<Slot>, want: SlotKind) -> (r: Option<usize>)
    ensures
        r matches Some(i) ==> i < slots@.len() && kind_of(slots@[i as int]) == want,
        r is None ==> forall|i: int| 0 <= i < slots@.len() ==> kind_of(#[trigger] slots@[i]) != want,
{
    let mut i: usize = 0;
    while i < slots.len()
        invariant
            i <= slots@.len(),
            forall|j: int| 0 <= j < i ==> kind_of(#[trigger] slots@[j]) != want,
        decreases slots@.len() - i,
    {
        if slot_kind(&slots[i]) == want {
            return Some(i);
        }
        i = i + 1;
    }
    None
}

impl Pipeline {
    /// A coordinator for crawling `candidates` with `workers` worker slots, a work
    /// queue of `queue_capacity` requests and a result channel of
    /// `result_capacity` outcomes.
    pub fn new(candidates: Vec<WorkItem>, workers: usize, queue_capacity: usize, result_capacity: usize) -> (p: Pipeline)
        requires
            1 <= workers,
            1 <= queue_capacity,
            1 <= result_capacity,
        ensures
            p.wf(),
            p.candidates() == item_urls(candidates@),
            p.collected() == Seq::<Seq<char>>::empty(),
            p.worker_count() == workers,
            p.queue_capacity() == queue_capacity,
            p.result_capacity() == result_capacity,
            p.queue_len() == 0,
            p.results_len() == 0,
            p.in_flight() == 0,
            p.work() == 5 * candidates@.len(),
    {
        let ghost all = candidates@;
        let mut rest = candidates;
        let mut pending: VecDeque<WorkItem> = VecDeque::new();
        while rest.len() > 0
            invariant
                rest@ + pending@ == all,
            decreases rest@.len(),
        {
            match rest.pop() {
                Some(item) => {
                    pending.push_front(item);
                    assert(rest@ + pending@ =~= all);
                },
                None => {},
            }
        }
        assert(pending@ =~= all);
        let mut slots: Vec<Slot> = Vec::new();
        while slots.len() < workers
            invariant
                slots@.len() <= workers,
                forall|w: int| 0 <= w < slots@.len() ==> #[trigger] slots@[w] is Idle,
            decreases workers - slots@.len(),
        {
            slots.push(Slot::Idle);
        }
        let p = Pipeline {
            pending,
            queue: VecDeque::new(),
            queue_capacity,
            slots,
            results: VecDeque::new(),
            result_capacity,
            candidates: Ghost(item_urls(all)),
            collected: Ghost(Seq::empty()),
        };
        proof {
            broadcast use vstd::multiset::group_multiset_axioms;
            lemma_slots_idle(p.slots@);
            lemma_empty_multiset(item_urls(p.queue@));
            lemma_empty_multiset(outcome_urls(p.results@));
            lemma_empty_multiset(p.collected@);
            assert(p.in_transit().add(p.collected@.to_multiset()) =~= p.candidates@.to_multiset());
        }
        p
    }

    /// Decides the coordinator's next step and takes it. In order of preference:
    /// hand the oldest result to the collector; move a finished worker's outcome
    /// into the result channel; give the oldest queued request to an idle
    /// worker; let the seeder enqueue its next candidate while the queue has
    /// room. Otherwise the run waits for a fetch, or is done.
    pub fn next_action(&mut self) -> (a: Action)
        requires
            old(self).wf(),
        ensures
            final(self).wf(),
            final(self).candidates() == old(self).candidates(),
            final(self).worker_count() == old(self).worker_count(),
            final(self).queue_capacity() == old(self).queue_capacity(),
            final(self).result_capacity() == old(self).result_capacity(),
            a is Done <==> old(self).is_finished(),
            a is Wait ==> old(self).in_flight() > 0,
            a is Done || a is Wait ==> *final(self) == *old(self),
            !(a is Done || a is Wait) ==> final(self).work() < old(self).work(),
            match a {
                Action::Collect(o) => final(self).collected() == old(self).collected().push(o.url_view()),
                _ => final(self).collected() == old(self).collected(),
            },
            match a {
                Action::Fetch { worker, item } => {
                    &&& worker < old(self).worker_count()
                    &&& old(self).slot(worker as int) is Idle
                    &&& final(self).slot(worker as int) == Slot::Busy(item)
                    &&& final(self).in_flight() == old(self).in_flight() + 1
                },
                _ => final(self).in_flight() == old(self).in_flight(),
            },
    {
        broadcast use vstd::multiset::group_multiset_axioms;
        let ghost before = *self;
        if self.results.len() > 0 {
            match self.results.pop_front() {
                Some(o) => {
                    proof {
                        lemma_outcome_urls_pop_front(before.results@);
                        lemma_pop_front_multiset(outcome_urls(before.results@));
                        broadcast use vstd::seq_lib::group_to_multiset_ensures;
                    }
                    self.collected = Ghost(self.collected@.push(o.url_view()));
                    proof {
                        assert(self.in_transit().add(self.collected@.to_multiset())
                            =~= before.in_transit().add(before.collected@.to_multiset()));
                    }
                    return Action::Collect(o);
                },
                None => {
                    return Action::Done;
                },
            }
        }
        match find_slot(&self.slots, SlotKind::Blocked) {
            Some(w) => {
                let mut taken = Slot::Idle;
                self.slots.set_and_swap(w, &mut taken);
                proof {
                    lemma_slots_update(before.slots@, w as int, Slot::Idle);
                }
                match taken {
                    Slot::Blocked(o) => {
                        self.results.push_back(o);
                        proof {
                            lemma_outcome_urls_push(before.results@, o);
                            broadcast use vstd::seq_lib::group_to_multiset_ensures;
                            assert forall|v: Seq<char>|
                                #[trigger] self.in_transit().add(self.collected@.to_multiset()).count(v)
                                == before.in_transit().add(before.collected@.to_multiset()).count(v) by {
                                assert(slots_urls(self.slots@).add(slot_urls(before.slots@[w as int])).count(v)
                                    == slots_urls(before.slots@).add(slot_urls(Slot::Idle)).count(v));
                            }
                            assert(self.in_transit().add(self.collected@.to_multiset())
                                =~= before.in_transit().add(before.collected@.to_multiset()));
                        }
                    },
                    _ => {},
                }
                return Action::Advanced;
            },
            None => {},
        }
        if self.queue.len() > 0 {
            match find_slot(&self.slots, SlotKind::Idle) {
                Some(w) => {
                    match self.queue.pop_front() {
                        Some(item) => {
                            let handed = WorkItem { url: item.url.clone() };
                            proof {
                                lemma_item_urls_pop_front(before.queue@);
                                lemma_pop_front_multiset(item_urls(before.queue@));
                                lemma_slots_update(before.slots@, w as int, Slot::Busy(item));
                            }
                            self.slots.set(w, Slot::Busy(item));
                            proof {
                                assert forall|v: Seq<char>|
                                #[trigger] self.in_transit().add(self.collected@.to_multiset()).count(v)
                                == before.in_transit().add(before.collected@.to_multiset()).count(v) by {
                                assert(slots_urls(self.slots@).add(slot_urls(before.slots@[w as int])).count(v)
                                    == slots_urls(before.slots@).add(slot_urls(Slot::Busy(item))).count(v));
                            }
                            assert(self.in_transit().add(self.collected@.to_multiset())
                                    =~= before.in_transit().add(before.collected@.to_multiset()));
                            }
                            return Action::Fetch { worker: w, item: handed };
                        },
                        None => {
                            return Action::Done;
                        },
                    }
                },
                None => {},
            }
        }
        if self.pending.len() > 0 && self.queue.len() < self.queue_capacity {
            match self.pending.pop_front() {
                Some(item) => {
                    proof {
                        lemma_item_urls_pop_front(before.pending@);
                        lemma_pop_front_multiset(item_urls(before.pending@));
                        lemma_item_urls_push(before.queue@, item);
                    }
                    self.queue.push_back(item);
                    proof {
                        broadcast use vstd::seq_lib::group_to_multiset_ensures;
                        assert(self.in_transit().add(self.collected@.to_multiset())
                            =~= before.in_transit().add(before.collected@.to_multiset()));
                    }
                    return Action::Advanced;
                },
                None => {
                    return Action::Done;
                },
            }
        }
        match find_slot(&self.slots, SlotKind::Busy) {
            Some(w) => {
                proof {
                    lemma_slots_bounds(self.slots@);
                }
                Action::Wait
            },
            None => {
                proof {
                    assert(self.slots@[0] is Idle);
                }
                Action::Done
            },
        }
    }

    /// Reports that worker slot `worker` finished its fetch with `outcome`. The
    /// report is accepted only from a slot that is fetching, and only with an
    /// outcome for the URL it fetches; otherwise nothing changes. The outcome
    /// goes into the result channel, or stays with the worker until the channel
    /// has room.
    pub fn complete(&mut self, worker: usize, outcome: CrawlOutcome) -> (accepted: bool)
        requires
            old(self).wf(),
        ensures
            final(self).wf(),
            final(self).candidates() == old(self).candidates(),
            final(self).collected() == old(self).collected(),
            final(self).worker_count() == old(self).worker_count(),
            final(self).queue_capacity() == old(self).queue_capacity(),
            final(self).result_capacity() == old(self).result_capacity(),
            accepted == (worker < old(self).worker_count() && fetching(old(self).slot(worker as int), outcome.url_view())),
            accepted ==> {
                &&& final(self).work() < old(self).work()
                &&& final(self).in_flight() + 1 == old(self).in_flight()
                &&& !(final(self).slot(worker as int) is Busy)
            },
            !accepted ==> *final(self) == *old(self),
    {
        broadcast use vstd::multiset::group_multiset_axioms;
        let ghost before = *self;
        if worker >= self.slots.len() {
            return false;
        }
        let fits = match &self.slots[worker] {
            Slot::Busy(item) => item.url == *outcome.url(),
            _ => false,
        };
        if !fits {
            return false;
        }
        if self.results.len() < self.result_capacity {
            proof {
                lemma_outcome_urls_push(before.results@, outcome);
                lemma_slots_update(before.slots@, worker as int, Slot::Idle);
                broadcast use vstd::seq_lib::group_to_multiset_ensures;
            }
            self.results.push_back(outcome);
            self.slots.set(worker, Slot::Idle);
        } else {
            proof {
                lemma_slots_update(before.slots@, worker as int, Slot::Blocked(outcome));
            }
            self.slots.set(worker, Slot::Blocked(outcome));
        }
        proof {
            broadcast use vstd::seq_lib::group_to_multiset_ensures;
            let x = self.slots@[worker as int];
            assert forall|v: Seq<char>|
                                #[trigger] self.in_transit().add(self.collected@.to_multiset()).count(v)
                                == before.in_transit().add(before.collected@.to_multiset()).count(v) by {
                                assert(slots_urls(self.slots@).add(slot_urls(before.slots@[worker as int])).count(v)
                                    == slots_urls(before.slots@).add(slot_urls(x)).count(v));
                            }
                            assert(self.in_transit().add(self.collected@.to_multiset())
                =~= before.in_transit().add(before.collected@.to_multiset()));
        }
        true
    }
}

/// Conservation: every outcome handed to the collector is for a candidate, no
/// candidate is collected more often than it was given, and once the run is
/// finished the collected URLs are exactly the candidates, each as often as it
/// was given, whatever their number.
pub proof fn lemma_conservation(p: Pipeline)
    requires
        p.wf(),
    ensures
        p.collected().to_multiset().subset_of(p.candidates().to_multiset()),
        p.is_finished() ==> p.collected().to_multiset() == p.candidates().to_multiset(),
        p.is_finished() ==> p.collected().len() == p.candidates().len(),
{
    broadcast use vstd::multiset::group_multiset_axioms;
    broadcast use vstd::seq_lib::group_to_multiset_ensures;
    if p.is_finished() {
        lemma_slots_idle(p.slots@);
        lemma_empty_multiset(item_urls(p.pending@));
        lemma_empty_multiset(item_urls(p.queue@));
        lemma_empty_multiset(outcome_urls(p.results@));
        assert(p.collected().to_multiset() =~= p.candidates().to_multiset());
        assert(p.collected().to_multiset().len() == p.collected().len());
        assert(p.candidates().to_multiset().len() == p.candidates().len());
    }
}

/// Boundedness: no more fetches are in flight than there are workers, and
/// neither the work queue nor the result channel holds more than its capacity.
pub proof fn lemma_bounded(p: Pipeline)
    requires
        p.wf(),
    ensures
        p.in_flight() <= p.worker_count(),
        p.queue_len() <= p.queue_capacity(),
        p.results_len() <= p.result_capacity(),
{
    lemma_slots_bounds(p.slots@);
}

/// Termination: the steps left are at most five for each candidate not yet
/// collected, and none are left exactly when the run is finished. Every step
/// of `next_action` but `Wait` and `Done`, and every accepted `complete`,
/// takes at least one of them, and `Wait` comes only while a fetch is in
/// flight; so with every capacity and worker count at least one the run is
/// done after at most five steps per candidate, however many candidates
/// there are for the queue's capacity.
pub proof fn lemma_work_bound(p: Pipeline)
    requires
        p.wf(),
    ensures
        p.collected().len() <= p.candidates().len(),
        p.work() <= 5 * (p.candidates().len() - p.collected().len()),
        p.work() == 0 <==> p.is_finished(),
{
    broadcast use vstd::multiset::group_multiset_axioms;
    broadcast use vstd::seq_lib::group_to_multiset_ensures;
    lemma_slots_bounds(p.slots@);
    assert(item_urls(p.pending@).len() == p.pending@.len());
    assert(item_urls(p.queue@).len() == p.queue@.len());
    assert(outcome_urls(p.results@).len() == p.results@.len());
    let pm = item_urls(p.pending@).to_multiset();
    let qm = item_urls(p.queue@).to_multiset();
    let sm = slots_urls(p.slots@);
    let rm = outcome_urls(p.results@).to_multiset();
    let cm = p.collected@.to_multiset();
    assert(pm.len() == p.pending@.len());
    assert(qm.len() == p.queue@.len());
    assert(rm.len() == p.results@.len());
    assert(cm.len() == p.collected@.len());
    assert(p.candidates@.to_multiset().len() == p.candidates@.len());
    assert(pm.add(qm).add(sm).add(rm).add(cm).len() == pm.len() + qm.len() + sm.len() + rm.len() + cm.len());
    if p.is_finished() {
        lemma_slots_idle(p.slots@);
    }
}

/// Isolation: when the extractor crashes on a request, the request ends with an
/// extraction-panic failure for its URL, and the worker slot fetching that URL
/// accepts this outcome as it accepts any other (see `complete`), which frees
/// the slot for the next request.
pub proof fn lemma_crash_is_isolated(p: Pipeline, w: int, task: ItemTask)
    requires
        p.wf(),
        0 <= w < p.worker_count(),
        fetching(p.slot(w), task.url@),
        task.stage is AwaitingExtraction,
    ensures
        next_of(task, WorkerEvent::ExtractionPanicked)
            == Next::Emit(CrawlOutcome::Failure { url: task.url, reason: FailureReason::ExtractionPanic }),
        fetching(p.slot(w), (CrawlOutcome::Failure { url: task.url, reason: FailureReason::ExtractionPanic }).url_view()),
{
}

impl Pipeline {
    /// How many fetches are in flight.
    pub fn fetches_in_flight(&self) -> (r: usize)
        ensures
            r == self.in_flight(),
    {
        let mut count: usize = 0;
        let mut i: usize = 0;
        proof {
            lemma_slots_bounds(self.slots@);
        }
        assert(self.slots@.subrange(0, 0) =~= Seq::<Slot>::empty());
        while i < self.slots.len()
            invariant
                i <= self.slots@.len(),
                count == fetches_in_flight(self.slots@.subrange(0, i as int)),
            decreases self.slots@.len() - i,
        {
            let ghost next = self.slots@.subrange(0, i + 1);
            assert(next.drop_last() =~= self.slots@.subrange(0, i as int));
            proof {
                lemma_slots_bounds(next);
            }
            if slot_kind(&self.slots[i]) == SlotKind::Busy {
                count = count + 1;
            }
            i = i + 1;
        }
        assert(self.slots@.subrange(0, self.slots@.len() as int) =~= self.slots@);
        count
    }

    /// How many requests wait in the work queue.
    pub fn queued(&self) -> (r: usize)
        ensures
            r == self.queue_len(),
    {
        self.queue.len()
    }

    /// How many outcomes wait in the result channel.
    pub fn buffered_results(&self) -> (r: usize)
        ensures
            r == self.results_len(),
    {
        self.results.len()
    }
}

/// Crawls every candidate through a coordinator with the given worker count and
/// capacities, calling `fetch` for each request as its worker takes it, and
/// returns the outcomes in the order the collector received them. The run
/// ends for any number of candidates, and yields exactly one outcome per
/// candidate.
pub fn crawl_all<F: Fn(WorkItem) -> CrawlOutcome>(
    candidates: Vec<WorkItem>,
    workers: usize,
    queue_capacity: usize,
    result_capacity: usize,
    fetch: F,
) -> (r: Vec<CrawlOutcome>)
    requires
        1 <= workers,
        1 <= queue_capacity,
        1 <= result_capacity,
        forall|i: WorkItem| #[trigger] fetch.requires((i,)),
        forall|i: WorkItem, o: CrawlOutcome| #[trigger] fetch.ensures((i,), o) ==> o.url_view() == i.url@,
    ensures
        outcome_urls(r@).to_multiset() == item_urls(candidates@).to_multiset(),
        r@.len() == candidates@.len(),
{
    let ghost given = item_urls(candidates@);
    let mut p = Pipeline::new(candidates, workers, queue_capacity, result_capacity);
    let mut out: Vec<CrawlOutcome> = Vec::new();
    assert(outcome_urls(out@) =~= p.collected());
    loop
        invariant
            p.wf(),
            p.in_flight() == 0,
            p.candidates() == given,
            outcome_urls(out@) == p.collected(),
            forall|i: WorkItem| #[trigger] fetch.requires((i,)),
            forall|i: WorkItem, o: CrawlOutcome| #[trigger] fetch.ensures((i,), o) ==> o.url_view() == i.url@,
        ensures
            p.wf(),
            p.is_finished(),
            p.candidates() == given,
            outcome_urls(out@) == p.collected(),
        decreases p.work(),
    {
        let ghost before = p;
        match p.next_action() {
            Action::Fetch { worker, item } => {
                let o = fetch(item);
                let accepted = p.complete(worker, o);
                assert(accepted);
            },
            Action::Collect(o) => {
                let ghost prior = out@;
                out.push(o);
                assert(outcome_urls(out@) =~= outcome_urls(prior).push(o.url_view()));
            },
            Action::Advanced => {},
            Action::Wait => {
                assert(false);
            },
            Action::Done => {
                break;
            },
        }
    }
    proof {
        lemma_conservation(p);
        broadcast use vstd::seq_lib::group_to_multiset_ensures;
        assert(outcome_urls(out@).to_multiset().len() == out@.len());
        assert(given.to_multiset().len() == given.len());
    }
    out
}

} // verus!
