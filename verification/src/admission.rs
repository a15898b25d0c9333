//! An admission queue for generation requests.
//!
//! A request is admitted against the token limit in force when it arrives; once admitted it
//! stays admitted, whatever later limits say, and requests leave in admission order. A
//! rejected request is handed back unchanged.
use std::collections::VecDeque;
use vstd::prelude::*;

verus! {

broadcast use vstd::std_specs::vecdeque::group_vec_dequeue_axioms;

/// A generation request, with the ids of the requests that depend on it.
#[derive(Debug, PartialEq, Eq)]
pub struct Request {
    /// The request's id.
    pub id: u64,
    /// How many new tokens it asks for.
    pub tokens: u32,
    /// The ids of the requests that depend on it.
    pub children: Vec<u64>,
}

/// What `remove` took out: the removed request's children, and how many requests remain.
#[derive(Debug, PartialEq, Eq)]
pub struct Removal {
    /// The children of the removed request.
    pub children: Vec<u64>,
    /// How many requests were queued after the removal.
    pub remaining: usize,
}

/// The scheduler: the token limit for new requests, and the admitted requests in order.
#[derive(Debug)]
pub struct Scheduler {
    max_new_tokens: u32,
    queue: VecDeque<Request>,
}

impl Default for Scheduler {
    fn default() -> (s: Self)
        ensures
            s@.max_new_tokens == 0,
            s@.queue == Seq::<Request>::empty(),
    {
        Scheduler { max_new_tokens: 0, queue: VecDeque::new() }
    }
}

/// What a scheduler holds: the limit for new requests and the admitted requests, oldest
/// first.
pub struct SchedulerView {
    pub max_new_tokens: u32,
    pub queue: Seq<Request>,
}

impl View for Scheduler {
    type V = SchedulerView;

    closed spec fn view(&self) -> SchedulerView {
        SchedulerView { max_new_tokens: self.max_new_tokens, queue: self.queue@ }
    }
}

/// Whether a request for `tokens` new tokens is admitted under the limit `max`: it asks for
/// at least one token and at most `max`.
pub open spec fn admissible(tokens: u32, max: u32) -> bool {
    0 < tokens <= max
}

/// The first place in `q` of a request with id `id`, or the length of `q` when none has it.
pub open spec fn position_of(q: Seq<Request>, id: u64) -> int
    decreases q.len(),
{
    if q.len() == 0 {
        0
    } else if q[0].id == id {
        0
    } else {
        1 + position_of(q.drop_first(), id)
    }
}

proof fn lemma_position_of(q: Seq<Request>, id: u64)
    ensures
        0 <= position_of(q, id) <= q.len(),
        forall|k: int| 0 <= k < position_of(q, id) ==> #[trigger] q[k].id != id,
        position_of(q, id) < q.len() ==> q[position_of(q, id)].id == id,
    decreases q.len(),
{
    if q.len() > 0 && q[0].id != id {
        lemma_position_of(q.drop_first(), id);
        assert forall|k: int| 0 <= k < position_of(q, id) implies #[trigger] q[k].id != id by {
            if k > 0 {
                assert(q[k] == q.drop_first()[k - 1]);
            }
        }
    }
}

impl Scheduler {
    /// Sets the limit for requests admitted from now on. The requests already admitted stay.
    pub fn set_max_new_tokens(&mut self, max: u32)
        ensures
            final(self)@.max_new_tokens == max,
            final(self)@.queue == old(self)@.queue,
    {
        self.max_new_tokens = max;
    }

    /// Admits `request` at the back of the queue, or hands it back unchanged when it asks
    /// for no token or more than the limit.
    pub fn admit_request(&mut self, request: Request) -> (r: Result<(), Request>)
        ensures
            final(self)@.max_new_tokens == old(self)@.max_new_tokens,
            if admissible(request.tokens, old(self)@.max_new_tokens) {
                &&& r is Ok
                &&& final(self)@.queue == old(self)@.queue.push(request)
            } else {
                &&& r == Err::<(), Request>(request)
                &&& final(self)@.queue == old(self)@.queue
            },
    {
        if request.tokens == 0 || request.tokens > self.max_new_tokens {
            return Err(request);
        }
        self.queue.push_back(request);
        Ok(())
    }

    /// The oldest admitted request, taken out of the queue. An admission stands: the limit
    /// in force now does not apply to it.
    pub fn next_accepted(&mut self) -> (r: Option<Request>)
        ensures
            final(self)@.max_new_tokens == old(self)@.max_new_tokens,
            old(self)@.queue.len() == 0 ==> r is None && final(self)@.queue == old(self)@.queue,
            old(self)@.queue.len() > 0 ==> r == Some(old(self)@.queue[0]) && final(self)@.queue
                == old(self)@.queue.drop_first(),
    {
        self.queue.pop_front()
    }

    /// Removes the first request with id `id`. The removal carries that request's children
    /// and the number of requests left; `None` when no request has the id.
    pub fn remove(&mut self, id: u64) -> (r: Option<Removal>)
        ensures
            final(self)@.max_new_tokens == old(self)@.max_new_tokens,
            ({
                let q = old(self)@.queue;
                let k = position_of(q, id);
                if k < q.len() {
                    &&& final(self)@.queue == q.remove(k)
                    &&& r matches Some(removal) && removal.children == q[k].children
                        && removal.remaining == q.len() - 1
                } else {
                    &&& r is None
                    &&& final(self)@.queue == q
                }
            }),
    {
        let ghost q = self.queue@;
        proof {
            lemma_position_of(q, id);
        }
        let n = self.queue.len();
        let mut index: usize = 0;
        while index < n && self.queue[index].id != id
            invariant
                n == self.queue@.len(),
                q == self.queue@,
                index <= position_of(q, id),
                position_of(q, id) < n ==> q[position_of(q, id)].id == id,
                position_of(q, id) <= n,
            decreases n - index,
        {
            index = index + 1;
        }
        if index == n {
            return None;
        }
        match self.queue.remove(index) {
            Some(request) => Some(Removal { children: request.children, remaining: self.queue.len() }),
            None => None,
        }
    }
}

} // verus!
