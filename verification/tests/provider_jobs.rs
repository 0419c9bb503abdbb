use vapor_daemon::provider_jobs::{
    session_to_abort, BeforeStep, CallPoll, CompletedJob, ProbeHash, ProbeRequest, ProbeResult,
    ProviderCall, ProviderJobKind, ProviderJobOutcome, ProviderJobPool, SubtreeListing, TransferDirection,
    TransferLoop, TransferOutcome, TransferPhase, TransferStepResult,
};
use vapor_daemon::clock::SystemTime;
use vapor_daemon::records::{
    ProviderError, ProviderErrorKind, RemoteEntry, RemoteEntryKind, RetryFailureKind,
};

fn entry(path: &str, kind: RemoteEntryKind, op_id: Option<&str>) -> RemoteEntry {
    RemoteEntry {
        path: path.to_string(),
        kind,
        size_bytes: 3,
        modified_at: SystemTime::unix_epoch(),
        content_hash: None,
        op_id: op_id.map(|id| id.to_string()),
    }
}

#[test]
fn inline_pool_completes_jobs_at_dispatch() {
    let mut pool = ProviderJobPool::inline();
    let generation = pool.dispatch();
    assert_eq!(pool.in_flight(), 1);
    let (completed, aborts) = pool.harvest(vec![CompletedJob {
        intent_id: 7,
        outcome: ProviderJobOutcome::RemoteDelete(Ok(())),
        generation,
    }]);
    assert_eq!(completed.len(), 1);
    assert_eq!(completed[0].intent_id, 7);
    assert!(matches!(
        completed[0].outcome,
        ProviderJobOutcome::RemoteDelete(Ok(()))
    ));
    assert!(aborts.is_empty());
    assert_eq!(pool.in_flight(), 0);
}

#[test]
fn a_session_that_never_moves_a_byte_fails_instead_of_spinning() {
    let mut steps = TransferLoop::start();
    let mut outcome = None;
    for _ in 0..1_000 {
        let after = steps.after_step(1_024, TransferStepResult::Progressed { bytes_transferred: 0 });
        assert_eq!(after.refund, 1_024, "bytes that were not sent are given back");
        if after.outcome.is_some() {
            assert!(after.abort_session);
            outcome = after.outcome;
            break;
        }
    }
    assert!(matches!(
        outcome,
        Some(ProviderJobOutcome::TransferFailed { error, phase: TransferPhase::Step })
            if error.kind == ProviderErrorKind::Transient
                && error.message.contains("no progress")
    ));
}

#[test]
fn aborted_generation_cancels_undispatched_work() {
    let mut pool = ProviderJobPool::inline();
    let stale = pool.dispatch();
    pool.abort_in_flight();
    assert!(pool.is_cancelled(stale));
    // Jobs dispatched after the bump run under the new generation.
    let fresh = pool.dispatch();
    assert!(!pool.is_cancelled(fresh));
    let (completed, aborts) = pool.harvest(vec![
        CompletedJob {
            intent_id: 1,
            outcome: ProviderJobOutcome::TransferHeld { session: 9 },
            generation: stale,
        },
        CompletedJob {
            intent_id: 2,
            outcome: ProviderJobOutcome::Probe(ProbeResult {
                stat: Some(Ok(None)),
                content_hash: None,
                subtree: None,
            }),
            generation: fresh,
        },
    ]);
    assert_eq!(completed.len(), 1);
    assert!(matches!(completed[0].outcome, ProviderJobOutcome::Probe(_)));
    assert_eq!(aborts, vec![9], "a held session of an aborted job is aborted");
}

#[test]
fn threaded_provider_call_delivers_its_result_and_reports_panics() {
    let mut call: ProviderCall<u32> = ProviderCall::Pending;
    assert_eq!(call.take(CallPoll::Running), None);
    assert_eq!(call.take(CallPoll::Finished(Ok(42))), Some(Ok(42)));
    assert!(
        call.take(CallPoll::Running).is_none(),
        "a result is handed out once"
    );

    let mut call: ProviderCall<u8> = ProviderCall::Pending;
    let result = call.take(CallPoll::Finished(Err("boom".to_string())));
    assert!(matches!(result, Some(Err(message)) if message.contains("boom")));

    let mut lost: ProviderCall<u8> = ProviderCall::Pending;
    assert!(matches!(lost.take(CallPoll::Disconnected), Some(Err(_))));

    let mut inline = ProviderCall::Ready(Some(Ok("now")));
    assert_eq!(inline.take(CallPoll::Running), Some(Ok("now")));
}

#[test]
fn a_closed_gate_hands_the_session_back() {
    let mut pool = ProviderJobPool::inline();
    let generation = pool.dispatch();
    let steps = TransferLoop::start();
    pool.update_gates(true, true);
    assert_eq!(
        steps.before_step(&pool, generation, TransferDirection::Upload),
        BeforeStep::Step
    );
    pool.update_gates(false, true);
    assert_eq!(
        steps.before_step(&pool, generation, TransferDirection::Upload),
        BeforeStep::Hold
    );
    assert_eq!(
        steps.before_step(&pool, generation, TransferDirection::Download),
        BeforeStep::Step
    );
    assert!(steps.holds_on_grant(0));
    assert!(!steps.holds_on_grant(1));
    pool.abort_in_flight();
    assert_eq!(
        steps.before_step(&pool, generation, TransferDirection::Download),
        BeforeStep::Cancel
    );
}

#[test]
fn a_finished_transfer_ends_the_loop() {
    let mut steps = TransferLoop::start();
    let after = steps.after_step(
        10,
        TransferStepResult::Completed(TransferOutcome {
            content_hash: "h".to_string(),
            bytes_total: 4,
            remote_modified_at: None,
        }),
    );
    assert!(!after.abort_session);
    assert!(matches!(
        after.outcome,
        Some(ProviderJobOutcome::TransferCompleted(outcome)) if outcome.bytes_total == 4
    ));
    assert_eq!(
        session_to_abort(&ProviderJobOutcome::TransferHeld { session: 3 }),
        Some(3)
    );
    assert_eq!(session_to_abort(&ProviderJobOutcome::Cancelled), None);
}

#[test]
fn a_hash_is_fetched_only_where_it_can_tell() {
    let request = ProbeRequest {
        remote_path: "a.txt".to_string(),
        want_stat: true,
        hash: ProbeHash::IfDivergedFrom { index_op_id: "op-1".to_string() },
        want_subtree_listing: true,
    };
    let ours = Some(Ok(Some(entry("a.txt", RemoteEntryKind::File, Some("op-1")))));
    let theirs = Some(Ok(Some(entry("a.txt", RemoteEntryKind::File, Some("op-2")))));
    assert!(!request.wants_hash(&ours));
    assert!(request.wants_hash(&theirs));
    assert!(!request.wants_hash(&Some(Ok(None))));
    assert!(!request.wants_listing(&theirs));
    let directory = Some(Ok(Some(entry("d", RemoteEntryKind::Directory, None))));
    assert!(request.wants_listing(&directory));
}

#[test]
fn a_subtree_is_listed_directory_by_directory() {
    let mut listing = SubtreeListing::start("d".to_string());
    assert_eq!(listing.next_directory(), Some("d".to_string()));
    listing.add(vec![
        entry("d/sub", RemoteEntryKind::Directory, None),
        entry("d/a.txt", RemoteEntryKind::File, None),
    ]);
    assert_eq!(listing.next_directory(), Some("d/sub".to_string()));
    listing.add(vec![entry("d/sub/b.txt", RemoteEntryKind::File, None)]);
    assert_eq!(listing.next_directory(), None);
    let found: Vec<String> = listing.finish().into_iter().map(|e| e.path).collect();
    assert_eq!(found, vec!["d/sub", "d/a.txt", "d/sub/b.txt"]);
}

#[test]
fn a_failed_step_ends_the_transfer() {
    let mut steps = TransferLoop::start();
    let after = steps.after_step(
        10,
        TransferStepResult::Failed(ProviderError {
            kind: ProviderErrorKind::RateLimited,
            message: "slow down".to_string(),
            retry: RetryFailureKind::RateLimited { retry_after: None },
        }),
    );
    assert!(matches!(
        after.outcome,
        Some(ProviderJobOutcome::TransferFailed { error, phase: TransferPhase::Step })
            if error.kind == ProviderErrorKind::RateLimited
    ));
}

#[test]
fn workers_are_started_as_jobs_need_them() {
    let mut pool = ProviderJobPool::inline();
    assert!(!pool.needs_worker(0, 4), "nothing is in flight");
    pool.dispatch();
    assert!(pool.needs_worker(0, 4));
    assert!(pool.needs_worker(0, 0), "there is always room for one");
    assert!(!pool.needs_worker(1, 4));
    pool.dispatch();
    assert!(pool.needs_worker(1, 4));
    assert!(!pool.needs_worker(1, 1));
}

#[test]
fn a_job_queued_before_an_abort_does_not_run() {
    let mut pool = ProviderJobPool::inline();
    let generation = pool.dispatch();
    let job = ProviderJobKind::ResumeTransfer { session: 9, direction: TransferDirection::Upload };
    assert_eq!(pool.take_up(5, generation, &job), None);
    pool.abort_in_flight();
    let (done, session) = pool.take_up(5, generation, &job).expect("cancelled");
    assert_eq!(done.intent_id, 5);
    assert_eq!(done.outcome, ProviderJobOutcome::Cancelled);
    assert_eq!(session, Some(9));
}
