//! An inference request scheduler.
//!
//! A request is admitted against the policy when it is submitted, and queued per model.
//! `next_batch` drains a model's queue in submission order while the prompt tokens fit the
//! budget. A policy change applies to later submissions: an admission, once given, stands.
//! A retired model rejects submissions, and the retirement outcome carries the requests it
//! drained. Order is submission order; time is not an input.
use std::collections::VecDeque;
use vstd::prelude::*;

verus! {

broadcast use vstd::std_specs::vecdeque::group_vec_dequeue_axioms;

/// A client-assigned request identifier.
#[derive(Copy, Clone, PartialEq, Eq, Hash, PartialOrd, Ord, Debug, Structural)]
pub struct RequestId(pub u64);

/// The model a request runs on.
#[derive(PartialEq, Eq, Hash, Debug)]
pub struct ModelId(String);

impl View for ModelId {
    type V = Seq<char>;

    closed spec fn view(&self) -> Seq<char> {
        self.0@
    }
}

impl Clone for ModelId {
    fn clone(&self) -> (r: Self)
        ensures
            r == *self,
    {
        ModelId(self.0.clone())
    }
}

impl ModelId {
    /// A model identified by `name`.
    pub fn new(name: &str) -> (r: Self)
        ensures
            r@ == name@,
    {
        ModelId(name.to_owned())
    }

    /// The model's name.
    pub fn name(&self) -> (r: &str)
        ensures
            r@ == self@,
    {
        self.0.as_str()
    }

    /// Whether `self` and `other` name the same model.
    pub fn same_as(&self, other: &ModelId) -> (r: bool)
        ensures
            r == (self@ == other@),
    {
        self.0 == other.0
    }
}

/// A request to run a prompt on a model.
#[derive(Clone, PartialEq, Eq, Debug)]
pub struct Request {
    /// The client's id for the request.
    pub id: RequestId,
    /// The model to run on.
    pub model: ModelId,
    /// The prompt length.
    pub prompt_tokens: u32,
}

/// The admission limits.
#[derive(Copy, Clone, PartialEq, Eq, Debug, Structural)]
pub struct Policy {
    /// The longest prompt a submission may carry.
    pub max_prompt_tokens: u32,
    /// The most requests one model's queue holds.
    pub max_queue_len: usize,
}

/// Why a submission was not queued.
#[derive(Clone, PartialEq, Eq, Debug)]
pub enum RejectReason {
    /// The prompt is longer than the policy allows.
    TooManyTokens {
        /// The prompt length.
        tokens: u32,
        /// The policy's limit.
        max: u32,
    },
    /// The model's queue is at the policy's limit.
    QueueFull {
        /// The model.
        model: ModelId,
        /// The policy's limit.
        max: usize,
    },
    /// The model was retired. No later submission for it is queued.
    ModelRetired,
}

/// What `submit` did.
#[derive(Clone, PartialEq, Eq, Debug)]
pub enum SubmitOutcome {
    /// The request is queued at `position` (zero is the front).
    Queued {
        /// The request's place in its model's queue.
        position: usize,
    },
    /// The request was not queued.
    Rejected(RejectReason),
}

/// Why a model was not retired.
#[derive(Copy, Clone, PartialEq, Eq, Debug, Structural)]
pub enum RetireReason {
    /// The model was retired before.
    AlreadyRetired,
    /// No request ever named the model, so there is nothing to retire.
    UnknownModel,
}

/// What `retire_model` did.
#[derive(Clone, PartialEq, Eq, Debug)]
pub enum RetireOutcome {
    /// The model's queue is gone. `drained` holds what was in it, in submission order.
    Retired {
        /// The requests that were queued. Each client is owed a reply.
        drained: Vec<Request>,
    },
    /// Nothing changed.
    Rejected(RetireReason),
}

/// The sum of the prompt tokens of `q`.
pub open spec fn total_tokens(q: Seq<Request>) -> int
    decreases q.len(),
{
    if q.len() == 0 {
        0
    } else {
        q[0].prompt_tokens + total_tokens(q.drop_first())
    }
}

/// How many requests from the front of `q` a batch takes under `budget`: it takes the front
/// request while its prompt tokens fit in what is left of the budget.
pub open spec fn batch_len(q: Seq<Request>, budget: int) -> nat
    decreases q.len(),
{
    if q.len() > 0 && q[0].prompt_tokens <= budget {
        1 + batch_len(q.drop_first(), budget - q[0].prompt_tokens)
    } else {
        0
    }
}

/// One model's queue.
#[derive(Clone, Debug)]
struct ModelQueue {
    model: ModelId,
    queue: VecDeque<Request>,
}

/// What a scheduler holds: the policy, the queue of each model that has one, and the
/// retired models.
#[verifier::ext_equal]
pub struct SchedulerView {
    pub policy: Policy,
    pub queues: Map<Seq<char>, Seq<Request>>,
    pub retired: Set<Seq<char>>,
}

/// The scheduler: one queue per model, the models retired so far, and the policy that admits
/// new requests.
#[derive(Clone, Debug)]
pub struct Scheduler {
    policy: Policy,
    queues: Vec<ModelQueue>,
    retired: Vec<ModelId>,
}

spec fn has_slot(entries: Seq<ModelQueue>, m: Seq<char>) -> bool {
    exists|i: int| 0 <= i < entries.len() && #[trigger] entries[i].model@ == m
}

spec fn slot(entries: Seq<ModelQueue>, m: Seq<char>) -> int {
    choose|i: int| 0 <= i < entries.len() && #[trigger] entries[i].model@ == m
}

spec fn queue_map(entries: Seq<ModelQueue>) -> Map<Seq<char>, Seq<Request>> {
    Map::new(|m: Seq<char>| has_slot(entries, m), |m: Seq<char>| entries[slot(entries, m)].queue@)
}

spec fn distinct_models(entries: Seq<ModelQueue>) -> bool {
    forall|i: int, j: int|
        0 <= i < entries.len() && 0 <= j < entries.len() && i != j ==> #[trigger] entries[i].model@
            != #[trigger] entries[j].model@
}

spec fn name_set(names: Seq<ModelId>) -> Set<Seq<char>> {
    Set::new(|m: Seq<char>| exists|i: int| 0 <= i < names.len() && #[trigger] names[i]@ == m)
}

proof fn lemma_slot_is(entries: Seq<ModelQueue>, i: int)
    requires
        distinct_models(entries),
        0 <= i < entries.len(),
    ensures
        has_slot(entries, entries[i].model@),
        slot(entries, entries[i].model@) == i,
        queue_map(entries).contains_key(entries[i].model@),
        queue_map(entries)[entries[i].model@] == entries[i].queue@,
{
    let m = entries[i].model@;
    assert(has_slot(entries, m));
    let k = slot(entries, m);
    assert(entries[k].model@ == m);
}

/// Replacing the queue in slot `i` replaces that model's queue in the map.
proof fn lemma_update_slot(entries: Seq<ModelQueue>, i: int, e: ModelQueue)
    requires
        distinct_models(entries),
        0 <= i < entries.len(),
        e.model@ == entries[i].model@,
    ensures
        distinct_models(entries.update(i, e)),
        queue_map(entries.update(i, e)) == queue_map(entries).insert(e.model@, e.queue@),
{
    let post = entries.update(i, e);
    assert forall|a: int, b: int|
        0 <= a < post.len() && 0 <= b < post.len() && a != b implies #[trigger] post[a].model@
        != #[trigger] post[b].model@ by {
        assert(entries[a].model@ != entries[b].model@);
    }
    lemma_slot_is(post, i);
    assert forall|m: Seq<char>| m != e.model@ implies (has_slot(post, m) == has_slot(entries, m))
        && (has_slot(entries, m) ==> queue_map(post)[m] == queue_map(entries)[m]) by {
        if has_slot(entries, m) {
            let k = slot(entries, m);
            assert(k != i);
            assert(post[k].model@ == m);
            lemma_slot_is(entries, k);
            lemma_slot_is(post, k);
        }
        if has_slot(post, m) {
            let k = slot(post, m);
            assert(entries[k].model@ == m);
        }
    }
    assert(queue_map(post) =~= queue_map(entries).insert(e.model@, e.queue@));
}

/// Appending a slot for a model without one adds that model's queue to the map.
proof fn lemma_push_slot(entries: Seq<ModelQueue>, e: ModelQueue)
    requires
        distinct_models(entries),
        !has_slot(entries, e.model@),
    ensures
        distinct_models(entries.push(e)),
        queue_map(entries.push(e)) == queue_map(entries).insert(e.model@, e.queue@),
{
    let post = entries.push(e);
    assert forall|a: int, b: int|
        0 <= a < post.len() && 0 <= b < post.len() && a != b implies #[trigger] post[a].model@
        != #[trigger] post[b].model@ by {
        if a == entries.len() {
            assert(entries[b].model@ == post[b].model@);
        } else if b == entries.len() {
            assert(entries[a].model@ == post[a].model@);
        } else {
            assert(entries[a].model@ != entries[b].model@);
        }
    }
    lemma_slot_is(post, entries.len() as int);
    assert forall|m: Seq<char>| m != e.model@ implies (has_slot(post, m) == has_slot(entries, m))
        && (has_slot(entries, m) ==> queue_map(post)[m] == queue_map(entries)[m]) by {
        if has_slot(entries, m) {
            let k = slot(entries, m);
            assert(post[k].model@ == m);
            lemma_slot_is(entries, k);
            lemma_slot_is(post, k);
        }
        if has_slot(post, m) {
            let k = slot(post, m);
            assert(k != entries.len());
            assert(entries[k].model@ == m);
        }
    }
    assert(queue_map(post) =~= queue_map(entries).insert(e.model@, e.queue@));
}

/// Removing slot `i` removes that model's queue from the map.
proof fn lemma_remove_slot(entries: Seq<ModelQueue>, i: int)
    requires
        distinct_models(entries),
        0 <= i < entries.len(),
    ensures
        distinct_models(entries.remove(i)),
        queue_map(entries.remove(i)) == queue_map(entries).remove(entries[i].model@),
{
    let post = entries.remove(i);
    let m0 = entries[i].model@;
    assert forall|a: int, b: int|
        0 <= a < post.len() && 0 <= b < post.len() && a != b implies #[trigger] post[a].model@
        != #[trigger] post[b].model@ by {
        let a2 = if a < i { a } else { a + 1 };
        let b2 = if b < i { b } else { b + 1 };
        assert(post[a] == entries[a2]);
        assert(post[b] == entries[b2]);
        assert(entries[a2].model@ != entries[b2].model@);
    }
    assert forall|m: Seq<char>| m != m0 implies (has_slot(post, m) == has_slot(entries, m)) && (
    has_slot(entries, m) ==> queue_map(post)[m] == queue_map(entries)[m]) by {
        if has_slot(entries, m) {
            let k = slot(entries, m);
            assert(k != i);
            let k2 = if k < i { k } else { k - 1 };
            assert(post[k2] == entries[k]);
            assert(post[k2].model@ == m);
            lemma_slot_is(entries, k);
            lemma_slot_is(post, k2);
        }
        if has_slot(post, m) {
            let k = slot(post, m);
            let k2 = if k < i { k } else { k + 1 };
            assert(post[k] == entries[k2]);
            assert(entries[k2].model@ == m);
        }
    }
    assert(!has_slot(post, m0)) by {
        if has_slot(post, m0) {
            let k = slot(post, m0);
            let k2 = if k < i { k } else { k + 1 };
            assert(post[k] == entries[k2]);
            assert(k2 != i);
        }
    }
    assert(queue_map(post) =~= queue_map(entries).remove(m0));
}

impl View for Scheduler {
    type V = SchedulerView;

    closed spec fn view(&self) -> SchedulerView {
        SchedulerView {
            policy: self.policy,
            queues: queue_map(self.queues@),
            retired: name_set(self.retired@),
        }
    }
}

impl SchedulerView {
    /// The requests waiting for `m`: its queue, or nothing when it has none.
    pub open spec fn queued(self, m: Seq<char>) -> Seq<Request> {
        if self.queues.contains_key(m) {
            self.queues[m]
        } else {
            Seq::empty()
        }
    }

    /// No retired model has a queue.
    pub open spec fn consistent(self) -> bool {
        forall|m: Seq<char>| #[trigger] self.retired.contains(m) ==> !self.queues.contains_key(m)
    }

    /// The same scheduler under another policy.
    pub open spec fn with_policy(self, policy: Policy) -> SchedulerView {
        SchedulerView { policy, queues: self.queues, retired: self.retired }
    }

    /// The same scheduler with `m`'s queue set to `q`.
    pub open spec fn with_queue(self, m: Seq<char>, q: Seq<Request>) -> SchedulerView {
        SchedulerView { policy: self.policy, queues: self.queues.insert(m, q), retired: self.retired }
    }

    /// What `submit` answers: a retired model is rejected first, then a prompt above the
    /// limit, then a full queue; otherwise the request goes to the back of its model's queue.
    pub open spec fn submit_outcome(self, r: Request) -> SubmitOutcome {
        let m = r.model@;
        if self.retired.contains(m) {
            SubmitOutcome::Rejected(RejectReason::ModelRetired)
        } else if r.prompt_tokens > self.policy.max_prompt_tokens {
            SubmitOutcome::Rejected(
                RejectReason::TooManyTokens {
                    tokens: r.prompt_tokens,
                    max: self.policy.max_prompt_tokens,
                },
            )
        } else if self.queued(m).len() >= self.policy.max_queue_len {
            SubmitOutcome::Rejected(
                RejectReason::QueueFull { model: r.model, max: self.policy.max_queue_len },
            )
        } else {
            SubmitOutcome::Queued { position: self.queued(m).len() as usize }
        }
    }

    /// The scheduler after `submit`. A model that passes the retirement and prompt checks
    /// has a queue from then on, even when the request finds it full.
    pub open spec fn after_submit(self, r: Request) -> SchedulerView {
        let m = r.model@;
        if self.retired.contains(m) || r.prompt_tokens > self.policy.max_prompt_tokens {
            self
        } else if self.queued(m).len() >= self.policy.max_queue_len {
            self.with_queue(m, self.queued(m))
        } else {
            self.with_queue(m, self.queued(m).push(r))
        }
    }

    /// The batch `next_batch` takes from `m`'s queue under `budget`.
    pub open spec fn batch(self, m: Seq<char>, budget: int) -> Seq<Request> {
        self.queued(m).take(batch_len(self.queued(m), budget) as int)
    }

    /// The scheduler after `next_batch`: the batch leaves the front of `m`'s queue.
    pub open spec fn after_batch(self, m: Seq<char>, budget: int) -> SchedulerView {
        if self.queues.contains_key(m) {
            self.with_queue(m, self.queued(m).skip(batch_len(self.queued(m), budget) as int))
        } else {
            self
        }
    }

    /// Why `retire_model` refuses `m`, if it does.
    pub open spec fn retire_refusal(self, m: Seq<char>) -> Option<RetireReason> {
        if self.retired.contains(m) {
            Some(RetireReason::AlreadyRetired)
        } else if !self.queues.contains_key(m) {
            Some(RetireReason::UnknownModel)
        } else {
            None
        }
    }

    /// The scheduler after `retire_model`: a retired model loses its queue.
    pub open spec fn after_retire(self, m: Seq<char>) -> SchedulerView {
        if self.retire_refusal(m) is Some {
            self
        } else {
            SchedulerView {
                policy: self.policy,
                queues: self.queues.remove(m),
                retired: self.retired.insert(m),
            }
        }
    }
}

impl Scheduler {
    /// The scheduler's internal consistency: one queue per model, and no queue for a
    /// retired model.
    pub closed spec fn wf(&self) -> bool {
        &&& distinct_models(self.queues@)
        &&& forall|m: Seq<char>| #[trigger]
            name_set(self.retired@).contains(m) ==> !has_slot(self.queues@, m)
    }

    /// An empty scheduler under `policy`.
    pub fn new(policy: Policy) -> (s: Self)
        ensures
            s.wf(),
            s@.policy == policy,
            s@.queues == Map::<Seq<char>, Seq<Request>>::empty(),
            s@.retired == Set::<Seq<char>>::empty(),
    {
        let s = Scheduler { policy, queues: Vec::new(), retired: Vec::new() };
        assert(s@.queues =~= Map::<Seq<char>, Seq<Request>>::empty());
        assert(s@.retired =~= Set::<Seq<char>>::empty());
        s
    }

    /// The policy in force.
    pub fn policy(&self) -> (p: Policy)
        ensures
            p == self@.policy,
    {
        self.policy
    }

    /// Replaces the policy for submissions from now on. A request already queued was admitted
    /// under the policy of its time, and that admission stands: nothing is evicted or re-checked.
    pub fn set_policy(&mut self, policy: Policy)
        requires
            old(self).wf(),
        ensures
            final(self).wf(),
            final(self)@ == old(self)@.with_policy(policy),
    {
        self.policy = policy;
    }

    /// The slot of `model`'s queue, if it has one.
    fn find_queue(&self, model: &ModelId) -> (r: Option<usize>)
        ensures
            r matches Some(i) ==> i < self.queues@.len() && self.queues@[i as int].model@
                == model@,
            r is None ==> !has_slot(self.queues@, model@),
    {
        let n = self.queues.len();
        for i in 0..n
            invariant
                n == self.queues@.len(),
                forall|k: int| 0 <= k < i ==> #[trigger] self.queues@[k].model@ != model@,
        {
            if self.queues[i].model.same_as(model) {
                return Some(i);
            }
        }
        None
    }

    /// Whether `model` was retired.
    fn is_retired(&self, model: &ModelId) -> (r: bool)
        ensures
            r == name_set(self.retired@).contains(model@),
    {
        let n = self.retired.len();
        for i in 0..n
            invariant
                n == self.retired@.len(),
                forall|k: int| 0 <= k < i ==> #[trigger] self.retired@[k]@ != model@,
        {
            if self.retired[i].same_as(model) {
                assert(self.retired@[i as int]@ == model@);
                return true;
            }
        }
        false
    }

    /// Admits `request` under the policy and queues it behind its model's earlier requests.
    ///
    /// A retired model is rejected first, then a prompt above the limit. A model that passes
    /// both checks has a queue from then on, even if it is full and the request is rejected.
    pub fn submit(&mut self, request: Request) -> (outcome: SubmitOutcome)
        requires
            old(self).wf(),
        ensures
            final(self).wf(),
            outcome == old(self)@.submit_outcome(request),
            final(self)@ == old(self)@.after_submit(request),
    {
        if self.is_retired(&request.model) {
            return SubmitOutcome::Rejected(RejectReason::ModelRetired);
        }
        if request.prompt_tokens > self.policy.max_prompt_tokens {
            return SubmitOutcome::Rejected(
                RejectReason::TooManyTokens {
                    tokens: request.prompt_tokens,
                    max: self.policy.max_prompt_tokens,
                },
            );
        }
        let ghost pre = self.queues@;
        let i = match self.find_queue(&request.model) {
            Some(i) => {
                proof {
                    lemma_slot_is(pre, i as int);
                }
                i
            },
            None => {
                let e = ModelQueue { model: request.model.clone(), queue: VecDeque::new() };
                proof {
                    lemma_push_slot(pre, e);
                    assert(queue_map(pre).insert(request.model@, Seq::empty())
                        == queue_map(pre).insert(request.model@, self@.queued(request.model@)));
                }
                self.queues.push(e);
                proof {
                    lemma_slot_is(self.queues@, (self.queues@.len() - 1) as int);
                }
                self.queues.len() - 1
            },
        };
        let ghost mid = self.queues@;
        let max = self.policy.max_queue_len;
        if self.queues[i].queue.len() >= max {
            return SubmitOutcome::Rejected(RejectReason::QueueFull { model: request.model, max });
        }
        let ghost req = request;
        let slot = &mut self.queues[i];
        slot.queue.push_back(request);
        let position = slot.queue.len() - 1;
        proof {
            lemma_update_slot(mid, i as int, *slot);
        }
        SubmitOutcome::Queued { position }
    }

    /// Takes requests from the front of `model`'s queue while their prompt tokens fit in `budget`.
    /// Returns them in submission order. An empty or unknown model gives an empty batch.
    pub fn next_batch(&mut self, model: &ModelId, budget: u32) -> (batch: Vec<Request>)
        requires
            old(self).wf(),
        ensures
            final(self).wf(),
            batch@ == old(self)@.batch(model@, budget as int),
            final(self)@ == old(self)@.after_batch(model@, budget as int),
    {
        let i = match self.find_queue(model) {
            Some(i) => i,
            None => {
                return Vec::new();
            },
        };
        let ghost pre = self.queues@;
        proof {
            lemma_slot_is(pre, i as int);
        }
        let ghost q = pre[i as int].queue@;
        let slot = &mut self.queues[i];
        let mut batch: Vec<Request> = Vec::new();
        let mut used: u64 = 0;
        loop
            invariant_except_break
                used <= budget,
                slot.model == pre[i as int].model,
                q == batch@ + slot.queue@,
                batch_len(q, budget as int) == batch@.len() + batch_len(
                    slot.queue@,
                    budget - used,
                ),
            ensures
                slot.model == pre[i as int].model,
                q == batch@ + slot.queue@,
                batch_len(q, budget as int) == batch@.len(),
            decreases slot.queue@.len(),
        {
            if slot.queue.len() == 0 {
                break;
            }
            let tokens = slot.queue[0].prompt_tokens;
            if used + tokens as u64 > budget as u64 {
                break;
            }
            let ghost before = slot.queue@;
            let front = slot.queue.pop_front();
            match front {
                Some(r) => {
                    used = used + tokens as u64;
                    batch.push(r);
                    assert(before.drop_first() == slot.queue@);
                    assert(q == batch@ + slot.queue@) by {
                        assert(batch@ + slot.queue@ =~= batch@.drop_last() + before);
                    }
                },
                None => {
                    break;
                },
            }
        }
        proof {
            assert(q.take(batch@.len() as int) =~= batch@);
            assert(q.skip(batch@.len() as int) =~= slot.queue@);
            lemma_update_slot(pre, i as int, *slot);
        }
        batch
    }

    /// Retires `model`: its queue is removed and later submissions for it are rejected.
    /// The outcome carries the drained requests. It is the only record of them.
    pub fn retire_model(&mut self, model: &ModelId) -> (outcome: RetireOutcome)
        requires
            old(self).wf(),
        ensures
            final(self).wf(),
            outcome matches RetireOutcome::Rejected(reason) ==> old(self)@.retire_refusal(model@)
                == Some(reason),
            outcome matches RetireOutcome::Retired { drained } ==> old(self)@.retire_refusal(
                model@,
            ) is None && drained@ == old(self)@.queued(model@),
            old(self)@.retire_refusal(model@) is None ==> outcome is Retired,
            final(self)@ == old(self)@.after_retire(model@),
    {
        if self.is_retired(model) {
            return RetireOutcome::Rejected(RetireReason::AlreadyRetired);
        }
        let i = match self.find_queue(model) {
            Some(i) => i,
            None => {
                return RetireOutcome::Rejected(RetireReason::UnknownModel);
            },
        };
        let ghost pre = self.queues@;
        let ghost pre_retired = self.retired@;
        proof {
            lemma_slot_is(pre, i as int);
            lemma_remove_slot(pre, i as int);
        }
        let mut slot = self.queues.remove(i);
        let ghost q = slot.queue@;
        assert(q == old(self)@.queues[model@]);
        let mut drained: Vec<Request> = Vec::new();
        loop
            invariant
                q == drained@ + slot.queue@,
            ensures
                drained@ == q,
            decreases slot.queue@.len(),
        {
            let ghost before = slot.queue@;
            match slot.queue.pop_front() {
                Some(r) => {
                    drained.push(r);
                    assert(drained@ + slot.queue@ =~= drained@.drop_last() + before);
                },
                None => {
                    assert(drained@ =~= q);
                    break;
                },
            }
        }
        self.retired.push(model.clone());
        proof {
            assert(!has_slot(self.queues@, model@)) by {
                assert(!queue_map(self.queues@).contains_key(model@));
            }
            assert forall|m: Seq<char>| #[trigger]
                name_set(self.retired@).contains(m) implies !has_slot(self.queues@, m) by {
                if m != model@ {
                    let k = choose|k: int| 0 <= k < self.retired@.len() && #[trigger] self.retired@[k]@ == m;
                    assert(k < pre_retired.len());
                    assert(pre_retired[k] == self.retired@[k]);
                    assert(name_set(pre_retired).contains(m));
                    assert(!has_slot(pre, m));
                    assert(!queue_map(pre).contains_key(m));
                    assert(!queue_map(self.queues@).contains_key(m));
                }
            }
            assert(name_set(self.retired@) =~= name_set(pre_retired).insert(model@)) by {
                assert(self.retired@[pre_retired.len() as int]@ == model@);
                assert forall|m: Seq<char>| name_set(pre_retired).contains(m) implies name_set(
                    self.retired@,
                ).contains(m) by {
                    let k = choose|k: int| 0 <= k < pre_retired.len() && #[trigger] pre_retired[k]@ == m;
                    assert(self.retired@[k] == pre_retired[k]);
                }
                assert forall|m: Seq<char>| name_set(self.retired@).contains(m) && m != model@ implies name_set(
                    pre_retired,
                ).contains(m) by {
                    let k = choose|k: int| 0 <= k < self.retired@.len() && #[trigger] self.retired@[k]@ == m;
                    assert(k < pre_retired.len());
                    assert(pre_retired[k] == self.retired@[k]);
                }
            }
        }
        RetireOutcome::Retired { drained }
    }

    /// How many requests wait in `model`'s queue.
    pub fn queued_len(&self, model: &ModelId) -> (n: usize)
        requires
            self.wf(),
        ensures
            n == self@.queued(model@).len(),
    {
        match self.find_queue(model) {
            Some(i) => {
                proof {
                    lemma_slot_is(self.queues@, i as int);
                }
                self.queues[i].queue.len()
            },
            None => 0,
        }
    }
}

impl Scheduler {
    /// A well-formed scheduler keeps every retired model without a queue.
    pub proof fn lemma_wf_consistent(&self)
        requires
            self.wf(),
        ensures
            self@.consistent(),
    {
        assert forall|m: Seq<char>| #[trigger] self@.retired.contains(m) implies !self@.queues.contains_key(m) by {
            assert(name_set(self.retired@).contains(m));
        }
    }
}

/// A policy change neither evicts nor re-checks a queued request: each model's queue, and
/// each batch taken from it, is what it was under the old policy.
pub proof fn law_policy_change_keeps_admissions(
    s: SchedulerView,
    p: Policy,
    m: Seq<char>,
    budget: int,
)
    ensures
        s.with_policy(p).queued(m) == s.queued(m),
        s.with_policy(p).batch(m, budget) == s.batch(m, budget),
        s.with_policy(p).after_batch(m, budget).queues == s.after_batch(m, budget).queues,
{
}

/// Once a model is retired its queue is gone, every submission for it is rejected as
/// retired and changes nothing, and retiring it again is refused as already done.
pub proof fn law_retired_model_is_closed(s: SchedulerView, m: Seq<char>, r: Request)
    requires
        s.retire_refusal(m) is None,
        r.model@ == m,
    ensures
        s.after_retire(m).queued(m) == Seq::<Request>::empty(),
        s.after_retire(m).submit_outcome(r) == SubmitOutcome::Rejected(RejectReason::ModelRetired),
        s.after_retire(m).after_submit(r) == s.after_retire(m),
        s.after_retire(m).retire_refusal(m) == Some(RetireReason::AlreadyRetired),
{
}

/// Every operation keeps each retired model without a queue.
pub proof fn law_retired_models_stay_empty(
    s: SchedulerView,
    r: Request,
    m: Seq<char>,
    budget: int,
    p: Policy,
)
    requires
        s.consistent(),
    ensures
        s.after_submit(r).consistent(),
        s.after_batch(m, budget).consistent(),
        s.after_retire(m).consistent(),
        s.with_policy(p).consistent(),
{
    assert forall|k: Seq<char>| #[trigger] s.after_retire(m).retired.contains(k) implies !s.after_retire(
        m,
    ).queues.contains_key(k) by {
        if k != m {
            assert(s.retired.contains(k));
        }
    }
}

/// A batch fits its budget, and it is the longest prefix of the queue that does: with one
/// more request it would not fit.
pub proof fn law_batch_fits(q: Seq<Request>, budget: int)
    requires
        budget >= 0,
    ensures
        batch_len(q, budget) <= q.len(),
        total_tokens(q.take(batch_len(q, budget) as int)) <= budget,
        batch_len(q, budget) < q.len() ==> total_tokens(q.take(batch_len(q, budget) + 1int))
            > budget,
    decreases q.len(),
{
    let n = batch_len(q, budget);
    if q.len() > 0 && q[0].prompt_tokens <= budget {
        let rest = q.drop_first();
        let b2 = budget - q[0].prompt_tokens;
        law_batch_fits(rest, b2);
        assert(q.take(n as int).drop_first() =~= rest.take(n - 1));
        assert(q.take(n as int)[0] == q[0]);
        if n < q.len() {
            assert(q.take(n + 1int).drop_first() =~= rest.take(n as int));
            assert(q.take(n + 1int)[0] == q[0]);
        }
    } else {
        assert(q.take(0).len() == 0);
        if q.len() > 0 {
            assert(q.take(1).drop_first().len() == 0);
            assert(total_tokens(q.take(1).drop_first()) == 0);
        }
    }
}

/// Batching hands out each queued request once and in submission order: the batch followed
/// by what stays queued is the queue it was taken from.
pub proof fn law_batch_keeps_order(s: SchedulerView, m: Seq<char>, budget: int)
    ensures
        s.batch(m, budget) + s.after_batch(m, budget).queued(m) == s.queued(m),
{
    let q = s.queued(m);
    let n = batch_len(q, budget);
    assert(n <= q.len()) by {
        lemma_batch_len_bound(q, budget);
    }
    assert(q.take(n as int) + q.skip(n as int) =~= q);
    if !s.queues.contains_key(m) {
        assert(q.len() == 0);
        assert(q.take(n as int) + q =~= q);
    }
}

proof fn lemma_batch_len_bound(q: Seq<Request>, budget: int)
    ensures
        batch_len(q, budget) <= q.len(),
    decreases q.len(),
{
    if q.len() > 0 && q[0].prompt_tokens <= budget {
        lemma_batch_len_bound(q.drop_first(), budget - q[0].prompt_tokens);
    }
}

/// A queued request goes to the back of its model's queue, at the position `submit` reports;
/// a submission never grows a queue past the policy's limit, and touches no other model.
pub proof fn law_submit_appends(s: SchedulerView, r: Request, m: Seq<char>)
    ensures
        s.submit_outcome(r) matches SubmitOutcome::Queued { position } ==> {
            &&& s.after_submit(r).queued(r.model@).len() == position + 1
            &&& s.after_submit(r).queued(r.model@)[position as int] == r
            &&& position < s.policy.max_queue_len
        },
        s.after_submit(r).queued(m).len() <= s.queued(m).len() + 1,
        s.after_submit(r).queued(m).len() > s.queued(m).len() ==> s.after_submit(r).queued(m).len()
            <= s.policy.max_queue_len,
        m != r.model@ ==> s.after_submit(r).queued(m) == s.queued(m),
{
}

/// The prompt limit is the longest prompt a submission may carry: a request of at most
/// `max_prompt_tokens` tokens, for a model whose queue has room, is queued at the back of
/// that queue; and a request is refused for its length exactly when it is longer than the
/// limit.
pub proof fn law_submit_admits_what_the_policy_allows(s: SchedulerView, r: Request)
    ensures
        r.prompt_tokens <= s.policy.max_prompt_tokens && s.queued(r.model@).len()
            < s.policy.max_queue_len && !s.retired.contains(r.model@) ==> {
            &&& s.submit_outcome(r) == SubmitOutcome::Queued {
                position: s.queued(r.model@).len() as usize,
            }
            &&& s.after_submit(r).queued(r.model@) == s.queued(r.model@).push(r)
        },
        (s.submit_outcome(r) matches SubmitOutcome::Rejected(RejectReason::TooManyTokens { .. }))
            <==> (!s.retired.contains(r.model@) && r.prompt_tokens > s.policy.max_prompt_tokens),
{
}

} // verus!
