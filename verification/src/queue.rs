//! The queue of players waiting to be indexed: each player once, in the
//! order of submission, each with a ticket number from which a waiting
//! client learns how many players are ahead.
use vstd::prelude::*;

use crate::buf::bytes_eq;
use crate::user::UserId;

verus! {

/// The queue is full; the task is handed back.
#[derive(Debug)]
pub struct QueueFull<T>(pub T);

/// The queue as a value: the tasks being indexed or waiting, each with its
/// ticket number; the waiting tasks in order; the capacity; the next ticket
/// number; and the number of the last task taken up.
pub struct QueueModel {
    pub indexing: Seq<(Seq<u8>, u64)>,
    pub queue: Seq<Seq<u8>>,
    pub capacity: nat,
    pub next_number: u64,
    pub acquired_number: u64,
}

/// The position of `task` among the tasks being indexed or waiting, if it
/// is one of them.
pub open spec fn spec_find_task(indexing: Seq<(Seq<u8>, u64)>, task: Seq<u8>) -> Option<int>
    decreases indexing.len(),
{
    if indexing.len() == 0 {
        None
    } else if indexing.last().0 == task {
        Some(indexing.len() - 1)
    } else {
        spec_find_task(indexing.drop_last(), task)
    }
}

/// The ticket number of `task`, if it is being indexed or waiting.
pub open spec fn spec_watch(q: QueueModel, task: Seq<u8>) -> Option<u64> {
    match spec_find_task(q.indexing, task) {
        Some(i) => Some(q.indexing[i].1),
        None => None,
    }
}

/// Submitting `task`: its ticket if it is there already; a full queue
/// refuses it; else it waits last with the next ticket number.
pub open spec fn spec_submit(q: QueueModel, task: Seq<u8>) -> (QueueModel, Option<u64>) {
    match spec_watch(q, task) {
        Some(n) => (q, Some(n)),
        None => if q.queue.len() >= q.capacity {
            (q, None)
        } else {
            (
                QueueModel {
                    indexing: q.indexing.push((task, q.next_number)),
                    queue: q.queue.push(task),
                    next_number: (q.next_number + 1) as u64,
                    ..q
                },
                Some(q.next_number),
            )
        },
    }
}

/// No task twice among those being indexed or waiting.
pub open spec fn spec_queue_wf(q: QueueModel) -> bool {
    forall|i: int, j: int|
        0 <= i < j < q.indexing.len() ==> q.indexing[i].0 != q.indexing[j].0
}

/// Taking up the next waiting task: waiting tasks are dropped in order;
/// each that is still being indexed or waiting sets the number of the last
/// task taken up; one whose clients all left (`closed`, in the order of the
/// waiting tasks) is forgotten, and the first other one is taken up.
pub open spec fn spec_acquire(q: QueueModel, closed: Seq<bool>) -> (QueueModel, Option<Seq<u8>>)
    decreases q.queue.len(),
{
    if q.queue.len() == 0 {
        (q, None)
    } else {
        let task = q.queue[0];
        let rest = QueueModel { queue: q.queue.drop_first(), ..q };
        match spec_find_task(q.indexing, task) {
            None => spec_acquire(rest, closed.drop_first()),
            Some(i) => {
                let q1 = QueueModel { acquired_number: q.indexing[i].1, ..rest };
                if closed[0] {
                    spec_acquire(QueueModel { indexing: q1.indexing.remove(i), ..q1 }, closed.drop_first())
                } else {
                    (q1, Some(task))
                }
            },
        }
    }
}

/// Completing `task`: it is forgotten.
pub open spec fn spec_complete(q: QueueModel, task: Seq<u8>) -> QueueModel {
    match spec_find_task(q.indexing, task) {
        Some(i) => QueueModel { indexing: q.indexing.remove(i), ..q },
        None => q,
    }
}

/// The tasks being indexed or waiting, and those waiting in order.
pub struct QueueState {
    indexing: Vec<(UserId, u64)>,
    queue: Vec<UserId>,
    capacity: usize,
    next_number: u64,
    acquired_number: u64,
}

impl View for QueueState {
    type V = QueueModel;

    closed spec fn view(&self) -> QueueModel {
        QueueModel {
            indexing: self.indexing@.map_values(|p: (UserId, u64)| (p.0.spec_bytes(), p.1)),
            queue: self.queue@.map_values(|t: UserId| t.spec_bytes()),
            capacity: self.capacity as nat,
            next_number: self.next_number,
            acquired_number: self.acquired_number,
        }
    }
}

impl QueueState {
    /// Whether no task is there twice.
    pub open spec fn wf(&self) -> bool {
        spec_queue_wf(self@)
    }

    /// An empty queue that holds at most `capacity` waiting tasks.
    pub fn with_capacity(capacity: usize) -> (q: QueueState)
        ensures
            q.wf(),
            q@.indexing.len() == 0,
            q@.queue.len() == 0,
            q@.capacity == capacity,
            q@.next_number == 0,
            q@.acquired_number == 0,
    {
        let q = QueueState {
            indexing: Vec::new(),
            queue: Vec::new(),
            capacity,
            next_number: 0,
            acquired_number: 0,
        };
        proof {
            assert(q@.indexing =~= Seq::<(Seq<u8>, u64)>::empty());
            assert(q@.queue =~= Seq::<Seq<u8>>::empty());
        }
        q
    }

    /// The number of tasks being indexed or waiting.
    pub fn len(&self) -> (n: usize)
        ensures
            n == self@.indexing.len(),
    {
        self.indexing.len()
    }

    /// The next ticket number.
    pub fn next_number(&self) -> (n: u64)
        ensures
            n == self@.next_number,
    {
        self.next_number
    }

    /// How many tickets come before the ticket numbered `number`: those
    /// after the last task taken up, none if it was taken up.
    pub fn preceding_tickets(&self, number: u64) -> (n: u64)
        ensures
            n == if number > self@.acquired_number {
                number - self@.acquired_number
            } else {
                0
            },
    {
        number.saturating_sub(self.acquired_number)
    }

    /// The position of `task` among the tasks being indexed or waiting.
    fn find(&self, task: &UserId) -> (r: Option<usize>)
        ensures
            r matches Some(i) ==> spec_find_task(self@.indexing, task.spec_bytes()) == Some(i as int)
                && i < self.indexing@.len(),
            r is None ==> spec_find_task(self@.indexing, task.spec_bytes()) is None,
    {
        let mut i: usize = self.indexing.len();
        proof {
            assert(self@.indexing.take(i as int) =~= self@.indexing);
        }
        while i > 0
            invariant
                i <= self.indexing@.len(),
                spec_find_task(self@.indexing, task.spec_bytes()) == spec_find_task(
                    self@.indexing.take(i as int),
                    task.spec_bytes(),
                ),
            decreases i,
        {
            let ghost pre = self@.indexing.take(i as int);
            proof {
                assert(pre.drop_last() =~= self@.indexing.take(i - 1));
                assert(pre.last() == (self.indexing@[i - 1].0.spec_bytes(), self.indexing@[i - 1].1));
            }
            if bytes_eq(self.indexing[i - 1].0.as_lowercase_bytes(), task.as_lowercase_bytes()) {
                proof {
                    lemma_find_bound(pre, task.spec_bytes());
                }
                return Some(i - 1);
            }
            i = i - 1;
        }
        None
    }

    /// The ticket number of `task`, if it is being indexed or waiting.
    pub fn watch(&self, task: &UserId) -> (r: Option<u64>)
        ensures
            r == spec_watch(self@, task.spec_bytes()),
    {
        proof {
            lemma_find_bound(self@.indexing, task.spec_bytes());
        }
        match self.find(task) {
            Some(i) => {
                let n = self.indexing[i].1;
                proof {
                    assert(spec_find_task(self@.indexing, task.spec_bytes()) == Some(i as int));
                    assert(self@.indexing[i as int].1 == self.indexing@[i as int].1);
                    assert(spec_watch(self@, task.spec_bytes()) == Some(n));
                }
                Some(n)
            },
            None => None,
        }
    }

    /// Submits `task`: gives its ticket number if it is there already;
    /// refuses it when the queue is full; else it waits last with the next
    /// ticket number.
    pub fn submit(&mut self, task: UserId) -> (r: Result<u64, QueueFull<UserId>>)
        requires
            old(self).wf(),
            old(self)@.next_number < u64::MAX,
        ensures
            final(self).wf(),
            final(self)@ == spec_submit(old(self)@, task.spec_bytes()).0,
            match spec_submit(old(self)@, task.spec_bytes()).1 {
                Some(n) => r == Ok::<u64, QueueFull<UserId>>(n),
                None => r matches Err(QueueFull(t)) && t == task,
            },
    {
        if let Some(n) = self.watch(&task) {
            return Ok(n);
        }
        if self.queue.len() >= self.capacity {
            return Err(QueueFull(task));
        }
        let ghost old_model = self@;
        let number = self.next_number;
        proof {
            lemma_find_none(old_model.indexing, task.spec_bytes());
        }
        self.queue.push(task.clone());
        self.indexing.push((task, number));
        self.next_number = self.next_number + 1;
        proof {
            assert(self@.indexing =~= old_model.indexing.push((task.spec_bytes(), number)));
            assert(self@.queue =~= old_model.queue.push(task.spec_bytes()));
        }
        Ok(number)
    }

    /// The waiting tasks, in order.
    pub fn waiting(&self) -> (v: &[UserId])
        ensures
            v@.map_values(|t: UserId| t.spec_bytes()) == self@.queue,
    {
        self.queue.as_slice()
    }

    /// Removes the task at position `i` from those being indexed or waiting.
    fn forget_at(&mut self, i: usize)
        requires
            old(self).wf(),
            i < old(self).indexing@.len(),
        ensures
            final(self).wf(),
            final(self)@ == (QueueModel { indexing: old(self)@.indexing.remove(i as int), ..old(self)@ }),
    {
        let ghost before = self@;
        self.indexing.remove(i);
        proof {
            assert(self@.indexing =~= before.indexing.remove(i as int));
            assert(self@.queue =~= before.queue);
        }
    }

    /// Takes up the next waiting task whose clients did not all leave;
    /// `closed` tells, for each waiting task in order, whether they did.
    pub fn acquire(&mut self, closed: &[bool]) -> (r: Option<UserId>)
        requires
            old(self).wf(),
            closed@.len() == old(self)@.queue.len(),
        ensures
            final(self).wf(),
            final(self)@ == spec_acquire(old(self)@, closed@).0,
            match spec_acquire(old(self)@, closed@).1 {
                Some(t) => r matches Some(id) && id.spec_bytes() == t,
                None => r is None,
            },
    {
        let mut k: usize = 0;
        let clen = closed.len();
        proof {
            assert(closed@.skip(0) =~= closed@);
        }
        while self.queue.len() > 0
            invariant
                self.wf(),
                k <= closed@.len(),
                clen == closed@.len(),
                closed@.len() - k == self@.queue.len(),
                spec_acquire(old(self)@, closed@) == spec_acquire(self@, closed@.skip(k as int)),
            decreases self@.queue.len(),
        {
            let ghost q = self@;
            let ghost cs = closed@.skip(k as int);
            assert(k < closed@.len());
            let task = self.queue.remove(0);
            proof {
                assert(self@.queue =~= q.queue.drop_first());
                assert(task.spec_bytes() == q.queue[0]);
                assert(cs.drop_first() =~= closed@.skip(k + 1));
                assert(cs[0] == closed@[k as int]);
                lemma_find_bound(q.indexing, task.spec_bytes());
            }
            match self.find(&task) {
                None => {},
                Some(i) => {
                    let number = self.indexing[i].1;
                    proof {
                        assert(q.indexing[i as int].1 == number);
                    }
                    self.acquired_number = number;
                    if closed[k] {
                        self.forget_at(i);
                    } else {
                        return Some(task);
                    }
                },
            }
            k = k + 1;
        }
        None
    }

    /// Forgets `task`, once it is indexed.
    pub fn complete(&mut self, task: &UserId)
        requires
            old(self).wf(),
        ensures
            final(self).wf(),
            final(self)@ == spec_complete(old(self)@, task.spec_bytes()),
    {
        proof {
            lemma_find_bound(self@.indexing, task.spec_bytes());
        }
        match self.find(task) {
            Some(i) => self.forget_at(i),
            None => {},
        }
    }
}

/// A task that is not found is none of the tasks.
proof fn lemma_find_none(indexing: Seq<(Seq<u8>, u64)>, task: Seq<u8>)
    requires
        spec_find_task(indexing, task) is None,
    ensures
        forall|i: int| 0 <= i < indexing.len() ==> indexing[i].0 != task,
    decreases indexing.len(),
{
    if indexing.len() > 0 {
        lemma_find_none(indexing.drop_last(), task);
        assert forall|i: int| 0 <= i < indexing.len() implies indexing[i].0 != task by {
            if i < indexing.len() - 1 {
                assert(indexing.drop_last()[i] == indexing[i]);
            }
        }
    }
}

/// A task found is at a position of the sequence.
proof fn lemma_find_bound(indexing: Seq<(Seq<u8>, u64)>, task: Seq<u8>)
    ensures
        spec_find_task(indexing, task) matches Some(i) ==> 0 <= i < indexing.len() && indexing[i].0 == task,
    decreases indexing.len(),
{
    if indexing.len() > 0 && indexing.last().0 != task {
        lemma_find_bound(indexing.drop_last(), task);
    }
}

/// A submitted task is watched with the ticket its submission gave, and
/// submitting it again gives the same ticket and leaves the queue as it is.
pub proof fn lemma_submit_watch(q: QueueModel, task: Seq<u8>)
    requires
        spec_queue_wf(q),
        q.next_number < u64::MAX,
    ensures
        spec_submit(q, task).1 matches Some(n) ==> {
            let q1 = spec_submit(q, task).0;
            &&& spec_watch(q1, task) == Some(n)
            &&& spec_submit(q1, task) == (q1, Some(n))
        },
{
    if spec_watch(q, task) is None && q.queue.len() < q.capacity {
        let q1 = spec_submit(q, task).0;
        assert(q1.indexing.drop_last() =~= q.indexing);
        assert(q1.indexing.last() == (task, q.next_number));
    }
}

/// Tickets are numbered in the order of submission: a task that was not
/// there gets the next number, above that of every task there.
pub proof fn lemma_ticket_order(q: QueueModel, task: Seq<u8>, other: Seq<u8>)
    requires
        spec_queue_wf(q),
        q.next_number < u64::MAX,
        forall|i: int| 0 <= i < q.indexing.len() ==> #[trigger] q.indexing[i].1 < q.next_number,
        spec_watch(q, other) is Some,
        spec_watch(q, task) is None,
        spec_submit(q, task).1 is Some,
    ensures
        spec_watch(q, other)->0 < spec_submit(q, task).1->0,
{
    lemma_find_bound(q.indexing, other);
}

/// A task that is none of the tasks is not found.
proof fn lemma_find_absent(indexing: Seq<(Seq<u8>, u64)>, task: Seq<u8>)
    requires
        forall|i: int| 0 <= i < indexing.len() ==> #[trigger] indexing[i].0 != task,
    ensures
        spec_find_task(indexing, task) is None,
    decreases indexing.len(),
{
    if indexing.len() > 0 {
        assert(indexing.last() == indexing[indexing.len() - 1]);
        assert forall|i: int| 0 <= i < indexing.drop_last().len() implies #[trigger] indexing.drop_last()[i].0 != task by {
            assert(indexing.drop_last()[i] == indexing[i]);
        }
        lemma_find_absent(indexing.drop_last(), task);
    }
}

/// A task that is at one position only is found there.
proof fn lemma_find_unique(indexing: Seq<(Seq<u8>, u64)>, task: Seq<u8>, i: int)
    requires
        0 <= i < indexing.len(),
        indexing[i].0 == task,
        forall|j: int| 0 <= j < indexing.len() && j != i ==> #[trigger] indexing[j].0 != task,
    ensures
        spec_find_task(indexing, task) == Some(i),
    decreases indexing.len(),
{
    if i < indexing.len() - 1 {
        assert(indexing.last() == indexing[indexing.len() - 1]);
        assert forall|j: int| 0 <= j < indexing.drop_last().len() && j != i implies #[trigger] indexing.drop_last()[j].0 != task by {
            assert(indexing.drop_last()[j] == indexing[j]);
        }
        assert(indexing.drop_last()[i] == indexing[i]);
        lemma_find_unique(indexing.drop_last(), task, i);
    }
}

/// Completing a task ends its watch, and leaves the ticket of every other
/// task as it was.
pub proof fn lemma_complete_watch(q: QueueModel, task: Seq<u8>, other: Seq<u8>)
    requires
        spec_queue_wf(q),
    ensures
        spec_watch(spec_complete(q, task), task) is None,
        other != task ==> spec_watch(spec_complete(q, task), other) == spec_watch(q, other),
{
    lemma_find_bound(q.indexing, task);
    lemma_find_bound(q.indexing, other);
    match spec_find_task(q.indexing, task) {
        None => {},
        Some(i) => {
            let r = q.indexing.remove(i);
            assert forall|j: int| 0 <= j < r.len() implies #[trigger] r[j].0 != task by {
                if j < i {
                    assert(r[j] == q.indexing[j]);
                } else {
                    assert(r[j] == q.indexing[j + 1]);
                }
            }
            lemma_find_absent(r, task);
            if other != task {
                match spec_find_task(q.indexing, other) {
                    None => {
                        lemma_find_none(q.indexing, other);
                        assert forall|j: int| 0 <= j < r.len() implies #[trigger] r[j].0 != other by {
                            if j < i {
                                assert(r[j] == q.indexing[j]);
                            } else {
                                assert(r[j] == q.indexing[j + 1]);
                            }
                        }
                        lemma_find_absent(r, other);
                    },
                    Some(k) => {
                        let k2 = if k < i { k } else { k - 1 };
                        assert(k != i);
                        assert(r[k2] == q.indexing[k]);
                        assert forall|j: int| 0 <= j < r.len() && j != k2 implies #[trigger] r[j].0 != other by {
                            if j < i {
                                assert(r[j] == q.indexing[j]);
                                assert(j != k);
                            } else {
                                assert(r[j] == q.indexing[j + 1]);
                                assert(j + 1 != k);
                            }
                        }
                        lemma_find_unique(r, other, k2);
                    },
                }
            }
        },
    }
}

} // verus!
