//! Decisions of the database event loop.
//!
//! Events wait in a queue. An event that moves a node on the canvas can be
//! coalesced: before a batch runs, only the latest move of each node is kept.
//! Every other event is immediate and triggers a batch as soon as it arrives.
//! A full queue is drained by one batch before a new event is taken in.
//! The application runs the loop: it hands each arriving event and each timer
//! tick to the queue and executes, in order, the events handed back.
use std::collections::VecDeque;
use vstd::prelude::*;

verus! {

broadcast use vstd::std_specs::vecdeque::group_vec_dequeue_axioms;

/// How an event is scheduled.
#[derive(Debug, Clone, Copy, PartialEq, Eq, Structural)]
pub enum EventPriority {
    /// Runs in the batch that its arrival triggers.
    Immediate,
    /// Waits for the next batch and may be superseded by a later event.
    Coalescable,
}

/// An event waiting in the queue; `move_target` names the node that a move
/// event moves, and is `None` for every other event.
pub struct QueuedEvent<E> {
    pub payload: E,
    pub move_target: Option<String>,
}

/// The node that `e` moves, if it is a move.
pub open spec fn target_of<E>(e: QueuedEvent<E>) -> Option<Seq<char>> {
    match e.move_target {
        Some(s) => Some(s@),
        None => None,
    }
}

/// The priority of `e`: moves are coalescable, all else is immediate.
pub open spec fn priority_of<E>(e: QueuedEvent<E>) -> EventPriority {
    if target_of(e) is Some {
        EventPriority::Coalescable
    } else {
        EventPriority::Immediate
    }
}

impl<E> QueuedEvent<E> {
    /// The priority of this event.
    pub fn priority(&self) -> (p: EventPriority)
        ensures
            p == priority_of(*self),
    {
        match &self.move_target {
            Some(_) => EventPriority::Coalescable,
            None => EventPriority::Immediate,
        }
    }
}

/// Some event of `s` moves node `k`.
pub open spec fn has_target<E>(s: Seq<QueuedEvent<E>>, k: Seq<char>) -> bool {
    exists|j: int| 0 <= j < s.len() && #[trigger] target_of(s[j]) == Some(k)
}

/// `q` with every move dropped that a later move of the same node supersedes.
pub open spec fn coalesce<E>(q: Seq<QueuedEvent<E>>) -> Seq<QueuedEvent<E>>
    decreases q.len(),
{
    if q.len() == 0 {
        seq![]
    } else {
        let rest = coalesce(q.drop_first());
        match target_of(q[0]) {
            Some(k) => if has_target(q.drop_first(), k) {
                rest
            } else {
                seq![q[0]] + rest
            },
            None => seq![q[0]] + rest,
        }
    }
}

/// The payloads of `q`, in order.
pub open spec fn payloads<E>(q: Seq<QueuedEvent<E>>) -> Seq<E> {
    q.map_values(|e: QueuedEvent<E>| e.payload)
}

/// One batch: nothing on an empty queue; otherwise the queue is coalesced
/// and at most `batch` events leave it from the front.
/// The result is (events run, events left).
pub open spec fn process_spec<E>(q: Seq<QueuedEvent<E>>, batch: nat) -> (
    Seq<QueuedEvent<E>>,
    Seq<QueuedEvent<E>>,
) {
    if q.len() == 0 {
        (seq![], q)
    } else {
        let c = coalesce(q);
        let n = if c.len() < batch {
            c.len()
        } else {
            batch
        };
        (c.take(n as int), c.skip(n as int))
    }
}

/// An arriving event: a full queue first runs one batch, then the event is
/// queued, and an immediate event runs a batch. The result is
/// (events run, events left).
pub open spec fn incoming_spec<E>(
    q: Seq<QueuedEvent<E>>,
    ev: QueuedEvent<E>,
    batch: nat,
    max_len: nat,
) -> (Seq<QueuedEvent<E>>, Seq<QueuedEvent<E>>) {
    let first = if q.len() >= max_len {
        process_spec(q, batch)
    } else {
        (seq![], q)
    };
    let queued = first.1.push(ev);
    let second = if priority_of(ev) == EventPriority::Immediate {
        process_spec(queued, batch)
    } else {
        (seq![], queued)
    };
    (first.0 + second.0, second.1)
}

/// The queue of the event loop.
pub struct EventQueue<E> {
    queue: VecDeque<QueuedEvent<E>>,
    batch_size: usize,
    max_queue_len: usize,
}

fn contains_string(seen: &Vec<String>, k: &String) -> (r: bool)
    ensures
        r == seen@.map_values(|s: String| s@).contains(k@),
{
    let ghost sv = seen@.map_values(|s: String| s@);
    let mut i: usize = 0;
    while i < seen.len()
        invariant
            i <= seen@.len(),
            sv == seen@.map_values(|s: String| s@),
            forall|j: int| 0 <= j < i ==> sv[j] != k@,
        decreases seen@.len() - i,
    {
        if seen[i] == *k {
            assert(sv[i as int] == k@);
            return true;
        }
        i += 1;
    }
    false
}

proof fn lemma_has_target_cons<E>(x: QueuedEvent<E>, s: Seq<QueuedEvent<E>>, k: Seq<char>)
    ensures
        has_target(seq![x] + s, k) <==> (target_of(x) == Some(k) || has_target(s, k)),
{
    let t = seq![x] + s;
    if has_target(t, k) {
        let j = choose|j: int| 0 <= j < t.len() && #[trigger] target_of(t[j]) == Some(k);
        if j > 0 {
            assert(target_of(s[j - 1]) == Some(k));
        }
    }
    if has_target(s, k) {
        let j = choose|j: int| 0 <= j < s.len() && #[trigger] target_of(s[j]) == Some(k);
        assert(target_of(t[j + 1]) == Some(k));
    }
    if target_of(x) == Some(k) {
        assert(target_of(t[0]) == Some(k));
    }
}

proof fn lemma_coalesce_cons<E>(x: QueuedEvent<E>, s: Seq<QueuedEvent<E>>)
    ensures
        coalesce(seq![x] + s) == (match target_of(x) {
            Some(k) => if has_target(s, k) {
                coalesce(s)
            } else {
                seq![x] + coalesce(s)
            },
            None => seq![x] + coalesce(s),
        }),
{
    assert((seq![x] + s).drop_first() == s);
    assert((seq![x] + s)[0] == x);
}

impl<E> EventQueue<E> {
    /// The events waiting, oldest first.
    pub closed spec fn pending(&self) -> Seq<QueuedEvent<E>> {
        self.queue@
    }

    /// How many events one batch runs at most.
    pub closed spec fn batch(&self) -> nat {
        self.batch_size as nat
    }

    /// The queue length at which an arriving event first drains a batch.
    pub closed spec fn max_len(&self) -> nat {
        self.max_queue_len as nat
    }

    /// An empty queue.
    pub fn new(batch_size: usize, max_queue_len: usize) -> (r: Self)
        ensures
            r.pending() == Seq::<QueuedEvent<E>>::empty(),
            r.batch() == batch_size,
            r.max_len() == max_queue_len,
    {
        EventQueue { queue: VecDeque::new(), batch_size, max_queue_len }
    }

    /// The number of waiting events.
    pub fn len(&self) -> (n: usize)
        ensures
            n == self.pending().len(),
    {
        self.queue.len()
    }

    /// Drops every move that a later move of the same node supersedes.
    pub fn optimize(&mut self)
        ensures
            final(self).pending() == coalesce(old(self).pending()),
            final(self).batch() == old(self).batch(),
            final(self).max_len() == old(self).max_len(),
    {
        let ghost orig = self.queue@;
        let ghost mut suffix: Seq<QueuedEvent<E>> = seq![];
        let mut kept: VecDeque<QueuedEvent<E>> = VecDeque::new();
        let mut seen: Vec<String> = Vec::new();
        assert(orig == self.queue@ + suffix);
        while self.queue.len() > 0
            invariant
                orig == self.queue@ + suffix,
                kept@ == coalesce(suffix),
                forall|k: Seq<char>|
                    seen@.map_values(|s: String| s@).contains(k) <==> has_target(suffix, k),
                self.batch_size == old(self).batch_size,
                self.max_queue_len == old(self).max_queue_len,
            decreases self.queue@.len(),
        {
            let ghost before = self.queue@;
            let ev = self.queue.pop_back().unwrap();
            let ghost new_suffix = seq![ev] + suffix;
            proof {
                assert(before == self.queue@.push(ev));
                assert(orig == self.queue@ + new_suffix);
                lemma_coalesce_cons(ev, suffix);
                assert forall|k: Seq<char>| #![auto]
                    has_target(new_suffix, k) <==> (target_of(ev) == Some(k) || has_target(
                        suffix,
                        k,
                    )) by {
                    lemma_has_target_cons(ev, suffix, k);
                }
            }
            let superseded = match &ev.move_target {
                Some(k) => {
                    if contains_string(&seen, k) {
                        true
                    } else {
                        let ghost old_seen = seen@.map_values(|s: String| s@);
                        seen.push(k.clone());
                        assert(seen@.map_values(|s: String| s@) == old_seen.push(k@));
                        assert forall|k2: Seq<char>|
                            seen@.map_values(|s: String| s@).contains(k2) <==> has_target(
                                new_suffix,
                                k2,
                            ) by {
                            lemma_has_target_cons(ev, suffix, k2);
                            if old_seen.push(k@).contains(k2) && k2 != k@ {
                                let j = choose|j: int|
                                    0 <= j < old_seen.push(k@).len() && old_seen.push(k@)[j]
                                        == k2;
                                assert(old_seen[j] == k2);
                            }
                            if old_seen.contains(k2) {
                                let j = choose|j: int| 0 <= j < old_seen.len() && old_seen[j] == k2;
                                assert(old_seen.push(k@)[j] == k2);
                            }
                            if k2 == k@ {
                                assert(old_seen.push(k@)[old_seen.len() as int] == k2);
                            }
                        }
                        false
                    }
                },
                None => false,
            };
            if !superseded {
                kept.push_front(ev);
            }
            proof {
                suffix = new_suffix;
            }
        }
        assert(self.queue@.len() == 0);
        assert(suffix == orig);
        self.queue = kept;
    }

    /// Runs one batch; gives back the payloads of the events to execute,
    /// in order.
    fn process(&mut self) -> (run: Vec<E>)
        ensures
            run@ == payloads(process_spec(old(self).pending(), old(self).batch()).0),
            final(self).pending() == process_spec(old(self).pending(), old(self).batch()).1,
            final(self).batch() == old(self).batch(),
            final(self).max_len() == old(self).max_len(),
    {
        let mut run: Vec<E> = Vec::new();
        if self.queue.len() == 0 {
            assert(run@ =~= payloads(Seq::<QueuedEvent<E>>::empty()));
            return run;
        }
        let ghost q = self.queue@;
        self.optimize();
        let ghost c = self.queue@;
        let len = self.queue.len();
        let count = if len < self.batch_size {
            len
        } else {
            self.batch_size
        };
        let mut i: usize = 0;
        while i < count
            invariant
                i <= count <= c.len(),
                c == coalesce(q),
                count == (if c.len() < self.batch_size {
                    c.len()
                } else {
                    self.batch_size as nat
                }),
                self.queue@ == c.skip(i as int),
                run@ == payloads(c.take(i as int)),
                self.batch_size == old(self).batch_size,
                self.max_queue_len == old(self).max_queue_len,
            decreases count - i,
        {
            let ghost before = self.queue@;
            match self.queue.pop_front() {
                Some(ev) => {
                    assert(ev == c[i as int]);
                    run.push(ev.payload);
                    assert(c.take(i + 1) == c.take(i as int).push(c[i as int]));
                    assert(payloads(c.take(i + 1)) =~= payloads(c.take(i as int)).push(
                        c[i as int].payload,
                    ));
                    assert(self.queue@ =~= c.skip(i + 1));
                },
                None => {},
            }
            i += 1;
        }
        run
    }

    /// Takes in an arriving event and gives back, in order, the payloads of
    /// the events to execute now.
    pub fn handle_incoming(&mut self, ev: QueuedEvent<E>) -> (run: Vec<E>)
        ensures
            run@ == payloads(
                incoming_spec(old(self).pending(), ev, old(self).batch(), old(self).max_len()).0,
            ),
            final(self).pending() == incoming_spec(
                old(self).pending(),
                ev,
                old(self).batch(),
                old(self).max_len(),
            ).1,
            final(self).batch() == old(self).batch(),
            final(self).max_len() == old(self).max_len(),
    {
        let priority = ev.priority();
        let mut run = if self.queue.len() >= self.max_queue_len {
            self.process()
        } else {
            Vec::new()
        };
        let ghost first = run@;
        self.queue.push_back(ev);
        if priority == EventPriority::Immediate {
            let mut more = self.process();
            run.append(&mut more);
        }
        assert(run@ =~= payloads(
            incoming_spec(old(self).pending(), ev, old(self).batch(), old(self).max_len()).0,
        ));
        run
    }

    /// A timer tick: runs one batch and gives back the payloads to execute.
    pub fn tick(&mut self) -> (run: Vec<E>)
        ensures
            run@ == payloads(process_spec(old(self).pending(), old(self).batch()).0),
            final(self).pending() == process_spec(old(self).pending(), old(self).batch()).1,
            final(self).batch() == old(self).batch(),
            final(self).max_len() == old(self).max_len(),
    {
        self.process()
    }
}

/// The immediate (non-move) events of `q`, in order.
pub open spec fn immediates<E>(q: Seq<QueuedEvent<E>>) -> Seq<QueuedEvent<E>>
    decreases q.len(),
{
    if q.len() == 0 {
        seq![]
    } else if target_of(q[0]) is None {
        seq![q[0]] + immediates(q.drop_first())
    } else {
        immediates(q.drop_first())
    }
}

/// The latest event of `q` that moves node `k`.
pub open spec fn latest<E>(q: Seq<QueuedEvent<E>>, k: Seq<char>) -> QueuedEvent<E>
    decreases q.len(),
{
    if q.len() <= 1 || has_target(q.drop_first(), k) {
        if q.len() <= 1 {
            q[0]
        } else {
            latest(q.drop_first(), k)
        }
    } else {
        q[0]
    }
}

proof fn lemma_immediates_cons<E>(x: QueuedEvent<E>, s: Seq<QueuedEvent<E>>)
    ensures
        immediates(seq![x] + s) == if target_of(x) is None {
            seq![x] + immediates(s)
        } else {
            immediates(s)
        },
{
    assert((seq![x] + s).drop_first() == s);
    assert((seq![x] + s)[0] == x);
}

proof fn lemma_coalesce_targets<E>(q: Seq<QueuedEvent<E>>, k: Seq<char>)
    ensures
        has_target(coalesce(q), k) ==> has_target(q, k),
        coalesce(q).len() <= q.len(),
    decreases q.len(),
{
    if q.len() > 0 {
        let rest = q.drop_first();
        assert(q == seq![q[0]] + rest);
        lemma_coalesce_targets(rest, k);
        lemma_has_target_cons(q[0], rest, k);
        lemma_has_target_cons(q[0], coalesce(rest), k);
    }
}

/// Coalescing keeps every immediate event, in order.
pub proof fn law_coalesce_keeps_immediate_events<E>(q: Seq<QueuedEvent<E>>)
    ensures
        immediates(coalesce(q)) == immediates(q),
    decreases q.len(),
{
    if q.len() > 0 {
        let rest = q.drop_first();
        law_coalesce_keeps_immediate_events(rest);
        lemma_immediates_cons(q[0], coalesce(rest));
    }
}

/// After coalescing, no two waiting events move the same node.
pub proof fn law_coalesce_one_move_per_node<E>(q: Seq<QueuedEvent<E>>, i: int, j: int)
    requires
        0 <= i < j < coalesce(q).len(),
        target_of(coalesce(q)[i]) is Some,
    ensures
        target_of(coalesce(q)[i]) != target_of(coalesce(q)[j]),
    decreases q.len(),
{
    let rest = q.drop_first();
    let c = coalesce(q);
    let cr = coalesce(rest);
    if c == cr {
        law_coalesce_one_move_per_node(rest, i, j);
    } else {
        assert(c == seq![q[0]] + cr);
        if i == 0 {
            let k = target_of(q[0])->0;
            assert(!has_target(rest, k));
            lemma_coalesce_targets(rest, k);
            if target_of(c[j]) == Some(k) {
                assert(target_of(cr[j - 1]) == Some(k));
                assert(has_target(cr, k));
            }
        } else {
            assert(c[i] == cr[i - 1]);
            assert(c[j] == cr[j - 1]);
            law_coalesce_one_move_per_node(rest, i - 1, j - 1);
        }
    }
}

/// Coalescing keeps the latest move of every node that is moved.
pub proof fn law_coalesce_keeps_latest_move<E>(q: Seq<QueuedEvent<E>>, k: Seq<char>)
    requires
        has_target(q, k),
    ensures
        target_of(latest(q, k)) == Some(k),
        coalesce(q).contains(latest(q, k)),
    decreases q.len(),
{
    let rest = q.drop_first();
    assert(q == seq![q[0]] + rest);
    lemma_has_target_cons(q[0], rest, k);
    lemma_coalesce_cons(q[0], rest);
    if q.len() > 1 && has_target(rest, k) {
        law_coalesce_keeps_latest_move(rest, k);
        let c = coalesce(rest);
        let i = choose|i: int| 0 <= i < c.len() && c[i] == latest(rest, k);
        if coalesce(q) != c {
            assert(coalesce(q)[i + 1] == c[i]);
        }
    } else {
        if q.len() > 1 {
            assert(!has_target(rest, k));
        } else {
            assert(rest.len() == 0);
            assert(!has_target(rest, k));
        }
        assert(target_of(q[0]) == Some(k));
        assert(coalesce(q)[0] == q[0]);
    }
}

proof fn lemma_coalesce_push<E>(s: Seq<QueuedEvent<E>>, x: QueuedEvent<E>)
    ensures
        coalesce(s.push(x)).len() >= 1,
        coalesce(s.push(x)).last() == x,
    decreases s.len(),
{
    if s.len() == 0 {
        assert(s.push(x) == seq![x] + s);
        lemma_coalesce_cons(x, s);
        assert(coalesce(s) == Seq::<QueuedEvent<E>>::empty());
    } else {
        let rest = s.drop_first();
        assert(s.push(x) == seq![s[0]] + rest.push(x));
        lemma_coalesce_cons(s[0], rest.push(x));
        lemma_coalesce_push(rest, x);
    }
}

proof fn lemma_process_conserves<E>(q: Seq<QueuedEvent<E>>, batch: nat)
    ensures
        q.len() > 0 ==> process_spec(q, batch).0 + process_spec(q, batch).1 == coalesce(q),
        q.len() == 0 ==> process_spec(q, batch).0.len() == 0 && process_spec(q, batch).1 == q,
        process_spec(q, batch).1.len() <= q.len(),
        q.len() > 0 && batch >= 1 ==> process_spec(q, batch).1.len() < q.len(),
{
    if q.len() > 0 {
        let c = coalesce(q);
        let n = if c.len() < batch {
            c.len()
        } else {
            batch
        };
        assert(c.take(n as int) + c.skip(n as int) =~= c);
        assert(q == q.drop_last().push(q.last()));
        lemma_coalesce_push(q.drop_last(), q.last());
        lemma_coalesce_targets(q, seq![]);
    }
}

/// A batch runs the front of the coalesced queue and leaves the rest
/// waiting: nothing but superseded moves is dropped.
pub proof fn law_batch_conserves_events<E>(q: Seq<QueuedEvent<E>>, batch: nat)
    requires
        q.len() > 0,
    ensures
        process_spec(q, batch).0 + process_spec(q, batch).1 == coalesce(q),
{
    lemma_process_conserves(q, batch);
}

/// An arriving event is never dropped: of everything that runs and then
/// waits after its arrival, it comes last.
pub proof fn law_arriving_event_is_kept<E>(
    q: Seq<QueuedEvent<E>>,
    ev: QueuedEvent<E>,
    batch: nat,
    max_len: nat,
)
    ensures
        (incoming_spec(q, ev, batch, max_len).0 + incoming_spec(q, ev, batch, max_len).1).len()
            >= 1,
        (incoming_spec(q, ev, batch, max_len).0 + incoming_spec(q, ev, batch, max_len).1).last()
            == ev,
{
    let first = if q.len() >= max_len {
        process_spec(q, batch)
    } else {
        (seq![], q)
    };
    let queued = first.1.push(ev);
    if priority_of(ev) == EventPriority::Immediate {
        lemma_process_conserves(queued, batch);
        lemma_coalesce_push(first.1, ev);
        let r = incoming_spec(q, ev, batch, max_len);
        assert(r.0 + r.1 =~= first.0 + (process_spec(queued, batch).0 + process_spec(
            queued,
            batch,
        ).1));
    } else {
        let r = incoming_spec(q, ev, batch, max_len);
        assert(r.1 == queued);
    }
}

/// With batches of at least one event and room for at least one, the queue
/// never grows beyond its maximum length.
pub proof fn law_queue_stays_bounded<E>(
    q: Seq<QueuedEvent<E>>,
    ev: QueuedEvent<E>,
    batch: nat,
    max_len: nat,
)
    requires
        batch >= 1,
        max_len >= 1,
        q.len() <= max_len,
    ensures
        incoming_spec(q, ev, batch, max_len).1.len() <= max_len,
{
    lemma_process_conserves(q, batch);
    let first = if q.len() >= max_len {
        process_spec(q, batch)
    } else {
        (seq![], q)
    };
    lemma_process_conserves(first.1.push(ev), batch);
}

/// An immediate event that arrives while the queue has room runs in the
/// same call, after everything that waited, when one batch can take the
/// whole queue; nothing is left waiting.
pub proof fn law_immediate_event_runs<E>(
    q: Seq<QueuedEvent<E>>,
    ev: QueuedEvent<E>,
    batch: nat,
    max_len: nat,
)
    requires
        priority_of(ev) == EventPriority::Immediate,
        q.len() < max_len,
        q.len() + 1 <= batch,
    ensures
        incoming_spec(q, ev, batch, max_len).1.len() == 0,
        incoming_spec(q, ev, batch, max_len).0.len() >= 1,
        incoming_spec(q, ev, batch, max_len).0.last() == ev,
{
    let queued = q.push(ev);
    lemma_coalesce_push(q, ev);
    lemma_coalesce_targets(queued, seq![]);
    lemma_process_conserves(queued, batch);
    let c = coalesce(queued);
    assert(c.skip(c.len() as int).len() == 0);
    assert(c.take(c.len() as int) == c);
    let r = incoming_spec(q, ev, batch, max_len);
    assert(r.0 == Seq::<QueuedEvent<E>>::empty() + c);
    assert(Seq::<QueuedEvent<E>>::empty() + c == c);
}


proof fn lemma_coalesce_single<E>(x: QueuedEvent<E>)
    ensures
        coalesce(seq![x]) == seq![x],
{
    assert(seq![x].drop_first() =~= Seq::<QueuedEvent<E>>::empty());
    assert(coalesce(Seq::<QueuedEvent<E>>::empty()) == Seq::<QueuedEvent<E>>::empty());
}

/// An event that arrives at a full queue, whatever its priority, first lets
/// one batch of the waiting events run: the events run by the call begin
/// with the front of the coalesced waiting queue.
pub proof fn law_full_queue_runs_a_batch_first<E>(
    q: Seq<QueuedEvent<E>>,
    ev: QueuedEvent<E>,
    batch: nat,
    max_len: nat,
)
    requires
        q.len() >= max_len,
        q.len() > 0,
    ensures
        ({
            let n = if coalesce(q).len() < batch {
                coalesce(q).len()
            } else {
                batch
            };
            &&& incoming_spec(q, ev, batch, max_len).0.len() >= n
            &&& incoming_spec(q, ev, batch, max_len).0.take(n as int) == coalesce(q).take(n as int)
        }),
{
    let c = coalesce(q);
    let n = if c.len() < batch {
        c.len()
    } else {
        batch
    };
    let r = incoming_spec(q, ev, batch, max_len);
    let first = process_spec(q, batch);
    assert(first.0 == c.take(n as int));
    let second = if priority_of(ev) == EventPriority::Immediate {
        process_spec(first.1.push(ev), batch)
    } else {
        (seq![], first.1.push(ev))
    };
    assert(r.0 == first.0 + second.0);
    assert(r.0.take(n as int) =~= c.take(n as int));
}

/// An immediate event that arrives at a full queue runs in the same call
/// when a batch, of at least one event, can take all that waited: the waiting events run first,
/// coalesced, then the arriving event, and nothing is left waiting.
pub proof fn law_immediate_event_runs_at_full_queue<E>(
    q: Seq<QueuedEvent<E>>,
    ev: QueuedEvent<E>,
    batch: nat,
    max_len: nat,
)
    requires
        priority_of(ev) == EventPriority::Immediate,
        q.len() >= max_len,
        q.len() <= batch,
        batch >= 1,
    ensures
        incoming_spec(q, ev, batch, max_len).0 == coalesce(q).push(ev),
        incoming_spec(q, ev, batch, max_len).1.len() == 0,
{
    lemma_coalesce_targets(q, seq![]);
    lemma_process_conserves(q, batch);
    let first = process_spec(q, batch);
    let c = coalesce(q);
    if q.len() > 0 {
        assert(first.0 == c.take(c.len() as int));
        assert(c.take(c.len() as int) == c);
        assert(first.1 == c.skip(c.len() as int));
        assert(first.1.len() == 0);
    } else {
        assert(c == Seq::<QueuedEvent<E>>::empty());
    }
    let queued = first.1.push(ev);
    assert(queued =~= seq![ev]);
    lemma_coalesce_single(ev);
    let second = process_spec(queued, batch);
    assert(second.0 =~= seq![ev]);
    assert(second.1 =~= Seq::<QueuedEvent<E>>::empty());
    let r = incoming_spec(q, ev, batch, max_len);
    assert(r.0 =~= c.push(ev));
}

} // verus!
