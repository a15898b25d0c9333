use idiomatic::infersched::{
    ModelId, Policy, RejectReason, Request, RequestId, RetireOutcome, RetireReason, Scheduler,
    SubmitOutcome,
};
use idiomatic::infersched_lite;

const POLICY: Policy = Policy { max_prompt_tokens: 4096, max_queue_len: 2 };
const WIDE: Policy = Policy { max_prompt_tokens: 4096, max_queue_len: 8 };
const NARROW: Policy = Policy { max_prompt_tokens: 2048, max_queue_len: 2 };

fn request(id: u64, prompt_tokens: u32) -> Request {
    Request { id: RequestId(id), model: ModelId::new("small"), prompt_tokens }
}

fn ids(batch: &[Request]) -> Vec<RequestId> {
    batch.iter().map(|request| request.id).collect()
}

#[test]
fn lib_test_submit_queues_behind_earlier_requests() {
    let mut scheduler = Scheduler::new(POLICY);
    assert_eq!(scheduler.submit(request(1, 100)), SubmitOutcome::Queued { position: 0 });
    assert_eq!(scheduler.submit(request(2, 100)), SubmitOutcome::Queued { position: 1 });
    assert_eq!(scheduler.queued_len(&ModelId::new("small")), 2);

    let mut lite = infersched_lite::Scheduler::new(POLICY);
    assert_eq!(lite.submit(request(1, 100)), infersched_lite::SubmitOutcome::Queued { position: 0 });
    assert_eq!(lite.submit(request(2, 100)), infersched_lite::SubmitOutcome::Queued { position: 1 });
    assert_eq!(lite.queued_len(&ModelId::new("small")), 2);
}

#[test]
fn lib_test_submit_rejects_a_prompt_above_the_limit() {
    let mut scheduler = Scheduler::new(POLICY);
    assert_eq!(
        scheduler.submit(request(1, 4097)),
        SubmitOutcome::Rejected(RejectReason::TooManyTokens { tokens: 4097, max: 4096 })
    );

    let mut lite = infersched_lite::Scheduler::new(POLICY);
    assert_eq!(
        lite.submit(request(1, 4097)),
        infersched_lite::SubmitOutcome::Rejected(infersched_lite::RejectReason::TooManyTokens {
            tokens: 4097,
            max: 4096
        })
    );
}

#[test]
fn lib_test_submit_rejects_when_the_queue_is_full() {
    let mut scheduler = Scheduler::new(POLICY);
    let _ = scheduler.submit(request(1, 100));
    let _ = scheduler.submit(request(2, 100));
    // max_queue_len is 2, so the third request finds the queue full
    assert_eq!(
        scheduler.submit(request(3, 100)),
        SubmitOutcome::Rejected(RejectReason::QueueFull { model: ModelId::new("small"), max: 2 })
    );

    let mut lite = infersched_lite::Scheduler::new(POLICY);
    let _ = lite.submit(request(1, 100));
    let _ = lite.submit(request(2, 100));
    assert_eq!(
        lite.submit(request(3, 100)),
        infersched_lite::SubmitOutcome::Rejected(infersched_lite::RejectReason::QueueFull {
            model: ModelId::new("small"),
            max: 2
        })
    );
}

#[test]
fn test_next_batch_takes_what_fits_including_an_exact_fit() {
    let mut scheduler = Scheduler::new(POLICY);
    let _ = scheduler.submit(request(1, 1000));
    let _ = scheduler.submit(request(2, 1000));
    // 1000 + 1000 = 2000 fits a budget of 2000 exactly
    let batch = scheduler.next_batch(&ModelId::new("small"), 2000);
    assert_eq!(batch.iter().map(|r| r.id).collect::<Vec<_>>(), vec![RequestId(1), RequestId(2)]);
    assert_eq!(scheduler.queued_len(&ModelId::new("small")), 0);
}

#[test]
fn lib_test_next_batch_of_an_unknown_model_is_empty() {
    let mut scheduler = Scheduler::new(POLICY);
    assert!(scheduler.next_batch(&ModelId::new("other"), 1000).is_empty());

    let mut lite = infersched_lite::Scheduler::new(POLICY);
    assert!(lite.next_batch(&ModelId::new("other"), 1000).is_empty());
}

#[test]
fn test_set_policy_keeps_the_requests_the_old_policy_admitted() {
    let mut scheduler = Scheduler::new(POLICY);
    let _ = scheduler.submit(request(1, 3000));
    scheduler.set_policy(Policy { max_prompt_tokens: 2048, max_queue_len: 1 });
    // the queued 3000-token request stays; a new one of the same size is rejected
    assert_eq!(scheduler.queued_len(&ModelId::new("small")), 1);
    assert_eq!(
        scheduler.submit(request(2, 3000)),
        SubmitOutcome::Rejected(RejectReason::TooManyTokens { tokens: 3000, max: 2048 })
    );
    assert_eq!(scheduler.next_batch(&ModelId::new("small"), 4096).len(), 1);
}

#[test]
fn test_retire_drains_the_queue_and_closes_the_model() {
    let mut scheduler = Scheduler::new(POLICY);
    let _ = scheduler.submit(request(1, 100));
    let _ = scheduler.submit(request(2, 200));
    assert_eq!(
        scheduler.retire_model(&ModelId::new("small")),
        RetireOutcome::Retired { drained: vec![request(1, 100), request(2, 200)] }
    );
    assert_eq!(scheduler.submit(request(3, 100)), SubmitOutcome::Rejected(RejectReason::ModelRetired));
    assert_eq!(
        scheduler.retire_model(&ModelId::new("small")),
        RetireOutcome::Rejected(RetireReason::AlreadyRetired)
    );
    assert_eq!(
        scheduler.retire_model(&ModelId::new("other")),
        RetireOutcome::Rejected(RetireReason::UnknownModel)
    );
}

#[test]
fn test_next_batch_stops_before_the_budget_is_exceeded() {
    let mut scheduler = infersched_lite::Scheduler::new(POLICY);
    let _ = scheduler.submit(request(1, 1000));
    let _ = scheduler.submit(request(2, 1500));
    // 1000 fits in 2000; 1000 + 1500 = 2500 does not
    let batch = scheduler.next_batch(&ModelId::new("small"), 2000);
    assert_eq!(batch.iter().map(|r| r.id).collect::<Vec<_>>(), vec![RequestId(1)]);
    assert_eq!(scheduler.queued_len(&ModelId::new("small")), 1);
}

#[test]
fn test_a_queued_request_survives_a_stricter_prompt_limit() {
    let mut scheduler = Scheduler::new(WIDE);
    assert_eq!(scheduler.submit(request(1, 3000)), SubmitOutcome::Queued { position: 0 });
    scheduler.set_policy(NARROW);
    // admitted under WIDE, so still served, whatever NARROW says
    assert_eq!(ids(&scheduler.next_batch(&ModelId::new("small"), 4096)), vec![RequestId(1)]);
}

#[test]
fn test_a_new_submission_is_checked_against_the_new_policy() {
    let mut scheduler = Scheduler::new(WIDE);
    scheduler.set_policy(NARROW);
    assert_eq!(
        scheduler.submit(request(1, 3000)),
        SubmitOutcome::Rejected(RejectReason::TooManyTokens { tokens: 3000, max: 2048 })
    );
}

#[test]
fn test_a_queue_longer_than_the_new_limit_is_kept_and_served() {
    let mut scheduler = Scheduler::new(WIDE);
    for id in 1..=4 {
        assert_eq!(
            scheduler.submit(request(id, 100)),
            SubmitOutcome::Queued { position: id as usize - 1 }
        );
    }
    scheduler.set_policy(NARROW);
    assert_eq!(scheduler.queued_len(&ModelId::new("small")), 4, "no queued request is evicted");
    // a fifth submission finds the queue over NARROW's limit of 2
    assert_eq!(
        scheduler.submit(request(5, 100)),
        SubmitOutcome::Rejected(RejectReason::QueueFull { model: ModelId::new("small"), max: 2 })
    );
    assert_eq!(
        ids(&scheduler.next_batch(&ModelId::new("small"), 4096)),
        vec![RequestId(1), RequestId(2), RequestId(3), RequestId(4)]
    );
}

#[test]
fn test_retire_returns_the_queued_requests_in_submission_order() {
    let mut scheduler = Scheduler::new(WIDE);
    let _ = scheduler.submit(request(1, 100));
    let _ = scheduler.submit(request(2, 200));
    let outcome = scheduler.retire_model(&ModelId::new("small"));
    assert_eq!(outcome, RetireOutcome::Retired { drained: vec![request(1, 100), request(2, 200)] });
    // the outcome is the only record: the scheduler holds nothing for the model now
    assert_eq!(scheduler.queued_len(&ModelId::new("small")), 0);
    assert!(scheduler.next_batch(&ModelId::new("small"), 4096).is_empty());
}

#[test]
fn test_a_submission_to_a_retired_model_is_rejected() {
    let mut scheduler = Scheduler::new(WIDE);
    let _ = scheduler.submit(request(1, 100));
    let _ = scheduler.retire_model(&ModelId::new("small"));
    assert_eq!(scheduler.submit(request(2, 100)), SubmitOutcome::Rejected(RejectReason::ModelRetired));
}

#[test]
fn test_retiring_twice_and_retiring_an_unknown_model_are_told_apart() {
    let mut scheduler = Scheduler::new(WIDE);
    let _ = scheduler.submit(request(1, 100));
    let _ = scheduler.retire_model(&ModelId::new("small"));
    assert_eq!(
        scheduler.retire_model(&ModelId::new("small")),
        RetireOutcome::Rejected(RetireReason::AlreadyRetired)
    );
    assert_eq!(
        scheduler.retire_model(&ModelId::new("never-seen")),
        RetireOutcome::Rejected(RetireReason::UnknownModel)
    );
}

#[test]
fn test_retiring_a_seen_model_with_an_empty_queue_drains_nothing() {
    let mut scheduler = Scheduler::new(WIDE);
    let _ = scheduler.submit(request(1, 100));
    let _ = scheduler.next_batch(&ModelId::new("small"), 4096);
    assert_eq!(
        scheduler.retire_model(&ModelId::new("small")),
        RetireOutcome::Retired { drained: Vec::new() }
    );
}

#[test]
fn test_a_batch_takes_a_request_that_exactly_fills_the_budget() {
    let mut scheduler = Scheduler::new(WIDE);
    let _ = scheduler.submit(request(1, 1024));
    let _ = scheduler.submit(request(2, 1024));
    // 1024 + 1024 = 2048, which fits a budget of 2048 exactly
    assert_eq!(
        ids(&scheduler.next_batch(&ModelId::new("small"), 2048)),
        vec![RequestId(1), RequestId(2)]
    );
}

#[test]
fn a_rejection_for_length_does_not_make_a_model_known() {
    let mut scheduler = Scheduler::new(NARROW);
    let _ = scheduler.submit(request(1, 3000));
    assert_eq!(
        scheduler.retire_model(&ModelId::new("small")),
        RetireOutcome::Rejected(RetireReason::UnknownModel)
    );
}

#[test]
fn a_queue_full_rejection_makes_the_model_known() {
    let mut scheduler = Scheduler::new(Policy { max_prompt_tokens: 10, max_queue_len: 0 });
    assert_eq!(
        scheduler.submit(request(1, 5)),
        SubmitOutcome::Rejected(RejectReason::QueueFull { model: ModelId::new("small"), max: 0 })
    );
    assert_eq!(scheduler.retire_model(&ModelId::new("small")), RetireOutcome::Retired { drained: Vec::new() });
}

#[test]
fn queues_of_two_models_are_apart_and_a_batch_stops_at_the_first_that_does_not_fit() {
    let mut scheduler = Scheduler::new(WIDE);
    let big = Request { id: RequestId(9), model: ModelId::new("big"), prompt_tokens: 10 };
    let _ = scheduler.submit(request(1, 300));
    let _ = scheduler.submit(big.clone());
    let _ = scheduler.submit(request(2, 500));
    let _ = scheduler.submit(request(3, 100));
    assert_eq!(scheduler.queued_len(&ModelId::new("big")), 1);
    // 300 fits in 700, 300 + 500 does not, so request 3 waits even though it would fit
    assert_eq!(ids(&scheduler.next_batch(&ModelId::new("small"), 700)), vec![RequestId(1)]);
    assert_eq!(scheduler.queued_len(&ModelId::new("small")), 2);
    assert_eq!(scheduler.next_batch(&ModelId::new("big"), 9).len(), 0);
    assert_eq!(scheduler.next_batch(&ModelId::new("big"), 10), vec![big]);
    assert_eq!(scheduler.policy(), WIDE);
}

#[test]
fn model_ids_compare_by_name() {
    let a = ModelId::new("small");
    assert_eq!(a.name(), "small");
    assert!(a.same_as(&ModelId::new("small")));
    assert!(!a.same_as(&ModelId::new("big")));
}

#[test]
fn the_lite_scheduler_takes_an_exact_fit_and_keeps_its_policy() {
    let mut scheduler = infersched_lite::Scheduler::new(POLICY);
    assert_eq!(scheduler.policy(), POLICY);
    let _ = scheduler.submit(request(1, 1000));
    let _ = scheduler.submit(request(2, 1000));
    assert_eq!(ids(&scheduler.next_batch(&ModelId::new("small"), 2000)), vec![RequestId(1), RequestId(2)]);
}
