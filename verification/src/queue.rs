use vstd::prelude::*;

use std::collections::VecDeque;

verus! {

/// Requests to, and replies from, a queue protected by a delegation lock.
#[derive(PartialEq, Eq, Structural, Clone, Copy, Debug)]
pub enum QueueData<T> {
    Nothing,
    Push { data: T },
    Pop,
    OutputT { data: T },
    OutputEmpty,
}

impl<T> Default for QueueData<T> {
    fn default() -> (d: Self)
        ensures
            d is Nothing,
    {
        QueueData::Nothing
    }
}

/// A queue shared between threads.
pub trait ConcurrentQueue<T>: Sized {
    fn push(&self, value: T);

    fn pop(&self) -> Option<T>;
}

/// A first-in first-out queue used by one thread at a time.
pub trait SequentialQueue<T>: Sized {
    /// The items, oldest first.
    spec fn queue_view(&self) -> Seq<T>;

    /// Appends `value` at the back.
    fn push(&mut self, value: T)
        ensures
            final(self).queue_view() == old(self).queue_view().push(value),
    ;

    /// Removes and returns the oldest item.
    fn pop(&mut self) -> (r: Option<T>)
        ensures
            old(self).queue_view().len() == 0 ==> r.is_none() && final(self).queue_view() == old(
                self,
            ).queue_view(),
            old(self).queue_view().len() > 0 ==> r == Some(old(self).queue_view()[0])
                && final(self).queue_view() == old(self).queue_view().drop_first(),
    ;
}

impl<T> SequentialQueue<T> for VecDeque<T> {
    open spec fn queue_view(&self) -> Seq<T> {
        self@
    }

    fn push(&mut self, value: T) {
        self.push_back(value);
    }

    fn pop(&mut self) -> (r: Option<T>) {
        let r = self.pop_front();
        proof {
            if old(self)@.len() > 0 {
                assert(old(self)@.subrange(1, old(self)@.len() as int) =~= old(
                    self,
                )@.drop_first());
            }
        }
        r
    }
}

/// The reply a queue gives to one request: a push is answered with
/// `Nothing`, a pop with the oldest item or `OutputEmpty`.
pub open spec fn queue_reply<T>(items: Seq<T>, input: QueueData<T>) -> (Seq<T>, QueueData<T>) {
    match input {
        QueueData::Push { data } => (items.push(data), QueueData::Nothing),
        _ => if items.len() == 0 {
            (items, QueueData::OutputEmpty)
        } else {
            (items.drop_first(), QueueData::OutputT { data: items[0] })
        },
    }
}

/// The critical section of the queue benchmark: applies one request to the
/// protected queue and answers it. Only pushes and pops are requests.
pub fn queue_operation<Q: SequentialQueue<u64>>(queue: &mut Q, input: QueueData<u64>) -> (r:
    QueueData<u64>)
    requires
        input is Push || input is Pop,
    ensures
        (final(queue).queue_view(), r) == queue_reply(old(queue).queue_view(), input),
{
    match input {
        QueueData::Push { data } => {
            queue.push(data);
            QueueData::Nothing
        },
        _ => {
            let output = queue.pop();
            match output {
                Some(data) => QueueData::OutputT { data },
                None => QueueData::OutputEmpty,
            }
        },
    }
}

/// Law: the protected queue is first-in first-out: pushing `a` then `b`
/// onto an empty queue and popping twice answers `a`, then `b`, then leaves
/// the queue empty.
pub proof fn law_queue_fifo(a: u64, b: u64)
    ensures
        ({
            let (q1, _) = queue_reply(Seq::<u64>::empty(), QueueData::Push { data: a });
            let (q2, _) = queue_reply(q1, QueueData::Push { data: b });
            let (q3, r1) = queue_reply(q2, QueueData::Pop);
            let (q4, r2) = queue_reply(q3, QueueData::Pop);
            let (q5, r3) = queue_reply(q4, QueueData::Pop);
            r1 == QueueData::OutputT { data: a } && r2 == QueueData::OutputT { data: b } && r3
                == QueueData::<u64>::OutputEmpty && q5.len() == 0
        }),
{
    let q1 = Seq::<u64>::empty().push(a);
    let q2 = q1.push(b);
    assert(q2[0] == a);
    assert(q2.drop_first()[0] == b);
    assert(q2.drop_first().drop_first().len() == 0);
}

} // verus!
