//! An inference request scheduler without model retirement.
//!
//! A request is admitted against the policy when it is submitted, and queued per model.
//! `next_batch` drains a model's queue in submission order while the prompt tokens fit the
//! budget. Order is submission order; time is not an input.
//!
//! The request types are those of [`crate::infersched`]; the scheduler keeps its queues in
//! one of those schedulers, in which no model is ever retired.
use vstd::prelude::*;

use crate::infersched;
pub use crate::infersched::{batch_len, ModelId, Policy, Request, RequestId};

verus! {

/// Why a submission was not queued.
#[derive(Clone, PartialEq, Eq, Debug)]
pub enum RejectReason {
    /// The prompt is longer than the policy allows.
    TooManyTokens {
        /// The prompt length.
        tokens: u32,
        /// The policy's limit.
        max: u32,
    },
    /// The model's queue is at the policy's limit.
    QueueFull {
        /// The model.
        model: ModelId,
        /// The policy's limit.
        max: usize,
    },
}

/// What `submit` did.
#[derive(Clone, PartialEq, Eq, Debug)]
pub enum SubmitOutcome {
    /// The request is queued at `position` (zero is the front).
    Queued {
        /// The request's place in its model's queue.
        position: usize,
    },
    /// The request was not queued.
    Rejected(RejectReason),
}

/// What a scheduler holds: the policy and the queue of each model that has one.
#[verifier::ext_equal]
pub struct SchedulerView {
    pub policy: Policy,
    pub queues: Map<Seq<char>, Seq<Request>>,
}

impl SchedulerView {
    /// The requests waiting for `m`: its queue, or nothing when it has none.
    pub open spec fn queued(self, m: Seq<char>) -> Seq<Request> {
        if self.queues.contains_key(m) {
            self.queues[m]
        } else {
            Seq::empty()
        }
    }

    /// What `submit` answers: a prompt above the limit is rejected first, then a full queue;
    /// otherwise the request goes to the back of its model's queue.
    pub open spec fn submit_outcome(self, r: Request) -> SubmitOutcome {
        let m = r.model@;
        if r.prompt_tokens > self.policy.max_prompt_tokens {
            SubmitOutcome::Rejected(
                RejectReason::TooManyTokens {
                    tokens: r.prompt_tokens,
                    max: self.policy.max_prompt_tokens,
                },
            )
        } else if self.queued(m).len() >= self.policy.max_queue_len {
            SubmitOutcome::Rejected(
                RejectReason::QueueFull { model: r.model, max: self.policy.max_queue_len },
            )
        } else {
            SubmitOutcome::Queued { position: self.queued(m).len() as usize }
        }
    }

    /// The scheduler after `submit`. A model whose request passes the prompt check has a
    /// queue from then on, even when the request finds it full.
    pub open spec fn after_submit(self, r: Request) -> SchedulerView {
        let m = r.model@;
        if r.prompt_tokens > self.policy.max_prompt_tokens {
            self
        } else if self.queued(m).len() >= self.policy.max_queue_len {
            SchedulerView { policy: self.policy, queues: self.queues.insert(m, self.queued(m)) }
        } else {
            SchedulerView {
                policy: self.policy,
                queues: self.queues.insert(m, self.queued(m).push(r)),
            }
        }
    }

    /// The batch `next_batch` takes from `m`'s queue under `budget`.
    pub open spec fn batch(self, m: Seq<char>, budget: int) -> Seq<Request> {
        self.queued(m).take(batch_len(self.queued(m), budget) as int)
    }

    /// The scheduler after `next_batch`: the batch leaves the front of `m`'s queue.
    pub open spec fn after_batch(self, m: Seq<char>, budget: int) -> SchedulerView {
        if self.queues.contains_key(m) {
            SchedulerView {
                policy: self.policy,
                queues: self.queues.insert(
                    m,
                    self.queued(m).skip(batch_len(self.queued(m), budget) as int),
                ),
            }
        } else {
            self
        }
    }
}

/// The scheduler: one queue per model, and the policy that admits new requests.
#[derive(Clone, Debug)]
pub struct Scheduler {
    inner: infersched::Scheduler,
}

impl View for Scheduler {
    type V = SchedulerView;

    closed spec fn view(&self) -> SchedulerView {
        SchedulerView { policy: self.inner@.policy, queues: self.inner@.queues }
    }
}

impl Scheduler {
    /// The scheduler's internal consistency.
    pub closed spec fn wf(&self) -> bool {
        &&& self.inner.wf()
        &&& self.inner@.retired == Set::<Seq<char>>::empty()
    }

    /// An empty scheduler under `policy`.
    pub fn new(policy: Policy) -> (s: Self)
        ensures
            s.wf(),
            s@.policy == policy,
            s@.queues == Map::<Seq<char>, Seq<Request>>::empty(),
    {
        Scheduler { inner: infersched::Scheduler::new(policy) }
    }

    /// The policy in force.
    pub fn policy(&self) -> (p: Policy)
        ensures
            p == self@.policy,
    {
        self.inner.policy()
    }

    /// Admits `request` under the policy and queues it behind its model's earlier requests.
    pub fn submit(&mut self, request: Request) -> (outcome: SubmitOutcome)
        requires
            old(self).wf(),
        ensures
            final(self).wf(),
            outcome == old(self)@.submit_outcome(request),
            final(self)@ == old(self)@.after_submit(request),
    {
        let ghost req = request;
        assert(!self.inner@.retired.contains(req.model@));
        match self.inner.submit(request) {
            infersched::SubmitOutcome::Queued { position } => SubmitOutcome::Queued { position },
            infersched::SubmitOutcome::Rejected(
                infersched::RejectReason::TooManyTokens { tokens, max },
            ) => SubmitOutcome::Rejected(RejectReason::TooManyTokens { tokens, max }),
            infersched::SubmitOutcome::Rejected(infersched::RejectReason::QueueFull { model, max }) => {
                SubmitOutcome::Rejected(RejectReason::QueueFull { model, max })
            },
            infersched::SubmitOutcome::Rejected(infersched::RejectReason::ModelRetired) => {
                // No model of this scheduler is ever retired.
                proof {
                    assert(false);
                }
                SubmitOutcome::Rejected(RejectReason::TooManyTokens { tokens: 0, max: 0 })
            },
        }
    }

    /// Takes requests from the front of `model`'s queue while their prompt tokens fit in `budget`.
    /// Returns them in submission order. An empty or unknown model gives an empty batch.
    pub fn next_batch(&mut self, model: &ModelId, budget: u32) -> (batch: Vec<Request>)
        requires
            old(self).wf(),
        ensures
            final(self).wf(),
            batch@ == old(self)@.batch(model@, budget as int),
            final(self)@ == old(self)@.after_batch(model@, budget as int),
    {
        self.inner.next_batch(model, budget)
    }

    /// How many requests wait in `model`'s queue.
    pub fn queued_len(&self, model: &ModelId) -> (n: usize)
        requires
            self.wf(),
        ensures
            n == self@.queued(model@).len(),
    {
        self.inner.queued_len(model)
    }
}

/// The prompt limit is the longest prompt a submission may carry: a request of at most
/// `max_prompt_tokens` tokens, for a model whose queue has room, is queued at the back of
/// that queue; and a request is refused for its length exactly when it is longer than the
/// limit.
pub proof fn law_submit_admits_what_the_policy_allows(s: SchedulerView, r: Request)
    ensures
        r.prompt_tokens <= s.policy.max_prompt_tokens && s.queued(r.model@).len()
            < s.policy.max_queue_len ==> {
            &&& s.submit_outcome(r) == SubmitOutcome::Queued {
                position: s.queued(r.model@).len() as usize,
            }
            &&& s.after_submit(r).queued(r.model@) == s.queued(r.model@).push(r)
        },
        (s.submit_outcome(r) matches SubmitOutcome::Rejected(RejectReason::TooManyTokens { .. }))
            <==> (r.prompt_tokens > s.policy.max_prompt_tokens),
{
}

} // verus!
