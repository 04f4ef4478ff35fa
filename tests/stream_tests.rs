use quipay::{PayrollStream, PayrollVault, QuipayError, StreamStatus};

const ADMIN: u64 = 1;
const EMPLOYER: u64 = 2;
const WORKER: u64 = 3;
const TOKEN: u64 = 4;
const OTHER: u64 = 5;
const FUNDS: i128 = 1_000_000_000;

fn funded_vault(amount: i128) -> PayrollVault {
    let mut vault = PayrollVault::new();
    vault.initialize(ADMIN, 0).unwrap();
    if amount > 0 {
        vault.deposit(TOKEN, amount).unwrap();
    }
    vault
}

fn setup() -> (PayrollStream, PayrollVault) {
    let mut streams = PayrollStream::new();
    streams.init(ADMIN).unwrap();
    (streams, funded_vault(FUNDS))
}

#[test]
fn test_pause_mechanism() {
    let (mut s, mut v) = setup();
    assert!(!s.is_paused());
    s.create_stream(&mut v, EMPLOYER, WORKER, TOKEN, 100, 0, 0, 10, 0).unwrap();
    s.set_paused(ADMIN, true).unwrap();
    assert!(s.is_paused());
}

#[test]
fn test_create_stream_paused() {
    let (mut s, mut v) = setup();
    s.set_paused(ADMIN, true).unwrap();
    let res = s.create_stream(&mut v, EMPLOYER, WORKER, TOKEN, 100, 0, 0, 10, 0);
    assert!(res.is_err());
    assert_eq!(res, Err(QuipayError::ProtocolPaused));
}

#[test]
fn test_withdraw_paused() {
    let (mut s, mut v) = setup();
    s.set_paused(ADMIN, true).unwrap();
    let result = s.withdraw(&mut v, 1, WORKER, 0);
    assert!(result.is_err());
}

#[test]
fn test_cancel_stream_paused() {
    let (mut s, mut v) = setup();
    s.set_paused(ADMIN, true).unwrap();
    let result = s.cancel_stream(&mut v, 1, EMPLOYER, 0);
    assert!(result.is_err());
}

#[test]
fn test_unpause_resumes_operations() {
    let (mut s, mut v) = setup();
    s.set_paused(ADMIN, true).unwrap();
    assert!(s.is_paused());
    s.set_paused(ADMIN, false).unwrap();
    assert!(!s.is_paused());
    s.create_stream(&mut v, EMPLOYER, WORKER, TOKEN, 100, 0, 0, 10, 0).unwrap();
}

#[test]
fn test_stream_withdraw_and_cleanup() {
    let (mut s, mut v) = setup();
    s.set_retention_secs(ADMIN, 0).unwrap();
    let stream_id = s.create_stream(&mut v, EMPLOYER, WORKER, TOKEN, 100, 0, 0, 10, 0).unwrap();
    let withdrawn_1 = s.withdraw(&mut v, stream_id, WORKER, 5).unwrap();
    assert!(withdrawn_1 > 0);
    let withdrawn_2 = s.withdraw(&mut v, stream_id, WORKER, 10).unwrap();
    assert!(withdrawn_2 > 0);
    let stream = s.get_stream(stream_id).unwrap();
    assert!(stream.withdrawn_amount >= stream.total_amount);
    s.cleanup_stream(stream_id, 10).unwrap();
    assert!(s.get_stream(stream_id).is_none());
}

#[test]
fn test_batch_withdraw_single_stream() {
    let (mut s, mut v) = setup();
    let stream_id = s.create_stream(&mut v, EMPLOYER, WORKER, TOKEN, 100, 0, 0, 10, 0).unwrap();
    let results = s.batch_withdraw(&mut v, vec![stream_id], WORKER, 5).unwrap();
    assert_eq!(results.len(), 1);
    let result = results[0];
    assert_eq!(result.stream_id, stream_id);
    assert!(result.success);
    assert!(result.amount > 0);
}

#[test]
fn test_batch_withdraw_multiple_streams() {
    let (mut s, mut v) = setup();
    let stream1 = s.create_stream(&mut v, EMPLOYER, WORKER, TOKEN, 100, 0, 0, 10, 0).unwrap();
    let stream2 = s.create_stream(&mut v, EMPLOYER, WORKER, TOKEN, 200, 0, 0, 20, 0).unwrap();
    let stream3 = s.create_stream(&mut v, EMPLOYER, WORKER, TOKEN, 50, 0, 0, 5, 0).unwrap();
    let results = s.batch_withdraw(&mut v, vec![stream1, stream2, stream3], WORKER, 10).unwrap();
    assert_eq!(results.len(), 3);
    for i in 0..3 {
        let result = results[i];
        assert!(result.success);
        assert!(result.amount > 0);
    }
}

#[test]
fn test_batch_withdraw_mixed_ownership() {
    let (mut s, mut v) = setup();
    let worker1 = WORKER;
    let worker2 = OTHER;
    let stream1 = s.create_stream(&mut v, EMPLOYER, worker1, TOKEN, 100, 0, 0, 10, 0).unwrap();
    let stream2 = s.create_stream(&mut v, EMPLOYER, worker2, TOKEN, 100, 0, 0, 10, 0).unwrap();
    let stream3 = s.create_stream(&mut v, EMPLOYER, worker1, TOKEN, 100, 0, 0, 10, 0).unwrap();
    let before = s.get_stream(stream2).unwrap();
    let results = s.batch_withdraw(&mut v, vec![stream1, stream2, stream3], worker1, 5).unwrap();
    assert_eq!(results.len(), 3);
    assert!(results[0].success);
    assert!(!results[1].success);
    assert_eq!(results[1].amount, 0);
    assert!(results[2].success);
    assert_eq!(s.get_stream(stream2).unwrap(), before);
}

#[test]
fn test_batch_withdraw_nonexistent_stream() {
    let (mut s, mut v) = setup();
    let stream_id = s.create_stream(&mut v, EMPLOYER, WORKER, TOKEN, 100, 0, 0, 10, 0).unwrap();
    let results = s.batch_withdraw(&mut v, vec![stream_id, 999u64], WORKER, 5).unwrap();
    assert_eq!(results.len(), 2);
    assert!(results[0].success);
    assert!(!results[1].success);
}

#[test]
fn test_batch_withdraw_closed_stream() {
    let (mut s, mut v) = setup();
    let stream1 = s.create_stream(&mut v, EMPLOYER, WORKER, TOKEN, 100, 0, 0, 10, 0).unwrap();
    let stream2 = s.create_stream(&mut v, EMPLOYER, WORKER, TOKEN, 100, 0, 0, 10, 0).unwrap();
    s.cancel_stream(&mut v, stream1, EMPLOYER, 0).unwrap();
    let results = s.batch_withdraw(&mut v, vec![stream1, stream2], WORKER, 5).unwrap();
    assert_eq!(results.len(), 2);
    assert!(!results[0].success);
    assert!(results[1].success);
}

#[test]
fn test_batch_withdraw_empty_list() {
    let (mut s, mut v) = setup();
    let results = s.batch_withdraw(&mut v, Vec::new(), WORKER, 0).unwrap();
    assert_eq!(results.len(), 0);
}

#[test]
fn test_batch_withdraw_completes_stream() {
    let (mut s, mut v) = setup();
    let stream_id = s.create_stream(&mut v, EMPLOYER, WORKER, TOKEN, 100, 0, 0, 10, 0).unwrap();
    let results = s.batch_withdraw(&mut v, vec![stream_id], WORKER, 10).unwrap();
    assert_eq!(results.len(), 1);
    assert!(results[0].success);
    let stream = s.get_stream(stream_id).unwrap();
    assert_eq!(stream.status, StreamStatus::Completed);
}

#[test]
fn test_index_get_employer_streams() {
    let (mut s, mut v) = setup();
    let id1 = s.create_stream(&mut v, EMPLOYER, WORKER, TOKEN, 10, 0, 0, 100, 0).unwrap();
    let id2 = s.create_stream(&mut v, EMPLOYER, WORKER, TOKEN, 20, 0, 0, 200, 0).unwrap();
    let ids = s.get_employer_streams(EMPLOYER);
    assert_eq!(ids.len(), 2);
    assert_eq!(ids[0], id1);
    assert_eq!(ids[1], id2);
}

#[test]
fn test_index_get_worker_streams() {
    let (mut s, mut v) = setup();
    let id1 = s.create_stream(&mut v, EMPLOYER, WORKER, TOKEN, 10, 0, 0, 100, 0).unwrap();
    let id2 = s.create_stream(&mut v, EMPLOYER, WORKER, TOKEN, 20, 0, 0, 200, 0).unwrap();
    let ids = s.get_worker_streams(WORKER);
    assert_eq!(ids.len(), 2);
    assert_eq!(ids[0], id1);
    assert_eq!(ids[1], id2);
}

#[test]
fn test_cliff_blocks_early_withdrawal() {
    let (mut s, mut v) = setup();
    let stream_id = s.create_stream(&mut v, EMPLOYER, WORKER, TOKEN, 100, 5, 0, 10, 0).unwrap();
    let amount = s.withdraw(&mut v, stream_id, WORKER, 3).unwrap();
    assert_eq!(amount, 0);
    let amount = s.withdraw(&mut v, stream_id, WORKER, 7).unwrap();
    assert!(amount > 0);
}

#[test]
fn test_cleanup_removes_from_indexes() {
    let (mut s, mut v) = setup();
    s.set_retention_secs(ADMIN, 0).unwrap();
    let id1 = s.create_stream(&mut v, EMPLOYER, WORKER, TOKEN, 100, 0, 0, 10, 0).unwrap();
    let id2 = s.create_stream(&mut v, EMPLOYER, WORKER, TOKEN, 100, 0, 0, 20, 0).unwrap();
    assert_eq!(s.get_employer_streams(EMPLOYER).len(), 2);
    assert_eq!(s.get_worker_streams(WORKER).len(), 2);
    s.withdraw(&mut v, id1, WORKER, 10).unwrap();
    s.cleanup_stream(id1, 10).unwrap();
    let emp_ids = s.get_employer_streams(EMPLOYER);
    assert_eq!(emp_ids.len(), 1);
    assert_eq!(emp_ids[0], id2);
    let wrk_ids = s.get_worker_streams(WORKER);
    assert_eq!(wrk_ids.len(), 1);
    assert_eq!(wrk_ids[0], id2);
}

#[test]
fn test_audit_fields_set_on_create() {
    let (mut s, mut v) = setup();
    let stream_id = s.create_stream(&mut v, EMPLOYER, WORKER, TOKEN, 10, 0, 42, 142, 42).unwrap();
    let stream = s.get_stream(stream_id).unwrap();
    assert_eq!(stream.created_at, 42);
    assert_eq!(stream.closed_at, 0);
    assert_eq!(stream.last_withdrawal_ts, 0);
    assert_eq!(stream.status, StreamStatus::Active);
}

#[test]
fn test_create_zero_rate_panics() {
    let (mut s, mut v) = setup();
    let result = s.create_stream(&mut v, EMPLOYER, WORKER, TOKEN, 0, 0, 0, 100, 0);
    assert!(result.is_err());
    assert_eq!(result, Err(QuipayError::InvalidAmount));
}

#[test]
fn test_create_negative_rate_panics() {
    let (mut s, mut v) = setup();
    let result = s.create_stream(&mut v, EMPLOYER, WORKER, TOKEN, -1, 0, 0, 100, 0);
    assert!(result.is_err());
}

#[test]
fn test_create_end_equals_start_panics() {
    let (mut s, mut v) = setup();
    let result = s.create_stream(&mut v, EMPLOYER, WORKER, TOKEN, 100, 0, 50, 50, 0);
    assert!(result.is_err());
}

#[test]
fn test_create_end_before_start_panics() {
    let (mut s, mut v) = setup();
    let result = s.create_stream(&mut v, EMPLOYER, WORKER, TOKEN, 100, 0, 50, 10, 0);
    assert!(result.is_err());
}

#[test]
fn test_create_start_in_past_panics() {
    let (mut s, mut v) = setup();
    let result = s.create_stream(&mut v, EMPLOYER, WORKER, TOKEN, 100, 0, 50, 200, 100);
    assert!(result.is_err());
}

#[test]
fn test_create_cliff_exceeds_end_panics() {
    let (mut s, mut v) = setup();
    let result = s.create_stream(&mut v, EMPLOYER, WORKER, TOKEN, 100, 200, 0, 100, 0);
    assert!(result.is_err());
}

#[test]
fn test_create_sequential_ids() {
    let (mut s, mut v) = setup();
    let id1 = s.create_stream(&mut v, EMPLOYER, WORKER, TOKEN, 10, 0, 0, 100, 0).unwrap();
    let id2 = s.create_stream(&mut v, EMPLOYER, WORKER, TOKEN, 10, 0, 0, 100, 0).unwrap();
    let id3 = s.create_stream(&mut v, EMPLOYER, WORKER, TOKEN, 10, 0, 0, 100, 0).unwrap();
    assert_eq!(id2, id1 + 1);
    assert_eq!(id3, id1 + 2);
}

#[test]
fn test_create_vault_rejection_fails() {
    let mut s = PayrollStream::new();
    s.init(ADMIN).unwrap();
    let mut v = funded_vault(0);
    let result = s.create_stream(&mut v, EMPLOYER, WORKER, TOKEN, 100, 0, 0, 100, 0);
    assert!(result.is_err());
}

#[test]
fn test_create_stream_blocked_when_treasury_insolvent() {
    let mut s = PayrollStream::new();
    s.init(ADMIN).unwrap();
    let mut v = funded_vault(100);
    let result = s.create_stream(&mut v, EMPLOYER, WORKER, TOKEN, 100, 0, 0, 100, 0);
    assert!(result.is_err());
    assert_eq!(result, Err(QuipayError::InsufficientBalance));
    assert!(s.get_stream(1).is_none());
}

#[test]
fn test_withdraw_before_stream_starts() {
    let (mut s, mut v) = setup();
    let stream_id = s.create_stream(&mut v, EMPLOYER, WORKER, TOKEN, 100, 0, 200, 300, 100).unwrap();
    let amount = s.withdraw(&mut v, stream_id, WORKER, 150).unwrap();
    assert_eq!(amount, 0);
}

#[test]
fn test_withdraw_at_midpoint_linear() {
    let (mut s, mut v) = setup();
    // rate=100, duration=100, total=10000
    let stream_id = s.create_stream(&mut v, EMPLOYER, WORKER, TOKEN, 100, 0, 0, 100, 0).unwrap();
    let amount = s.withdraw(&mut v, stream_id, WORKER, 50).unwrap();
    assert_eq!(amount, 5000);
}

#[test]
fn test_withdraw_after_end_returns_total() {
    let (mut s, mut v) = setup();
    // rate=100, duration=10, total=1000
    let stream_id = s.create_stream(&mut v, EMPLOYER, WORKER, TOKEN, 100, 0, 0, 10, 0).unwrap();
    let amount = s.withdraw(&mut v, stream_id, WORKER, 50).unwrap();
    assert_eq!(amount, 1000);
}

#[test]
fn test_withdraw_zero_available_returns_zero() {
    let (mut s, mut v) = setup();
    let stream_id = s.create_stream(&mut v, EMPLOYER, WORKER, TOKEN, 100, 0, 0, 100, 0).unwrap();
    s.withdraw(&mut v, stream_id, WORKER, 40).unwrap();
    // same instant: nothing new has vested
    let second = s.withdraw(&mut v, stream_id, WORKER, 40).unwrap();
    assert_eq!(second, 0);
}

#[test]
fn test_withdraw_sequential_accumulates_correctly() {
    let (mut s, mut v) = setup();
    // rate=10, duration=100, total=1000
    let stream_id = s.create_stream(&mut v, EMPLOYER, WORKER, TOKEN, 10, 0, 0, 100, 0).unwrap();
    let first = s.withdraw(&mut v, stream_id, WORKER, 25).unwrap();
    assert_eq!(first, 250);
    let second = s.withdraw(&mut v, stream_id, WORKER, 75).unwrap();
    assert_eq!(second, 500);
    let stream = s.get_stream(stream_id).unwrap();
    assert_eq!(stream.withdrawn_amount, 750);
}

#[test]
fn test_withdraw_wrong_worker_panics() {
    let (mut s, mut v) = setup();
    let intruder = OTHER;
    let stream_id = s.create_stream(&mut v, EMPLOYER, WORKER, TOKEN, 100, 0, 0, 100, 0).unwrap();
    let result = s.withdraw(&mut v, stream_id, intruder, 50);
    assert!(result.is_err());
    assert_eq!(result, Err(QuipayError::Unauthorized));
}

#[test]
fn test_withdraw_updates_last_withdrawal_ts() {
    let (mut s, mut v) = setup();
    let stream_id = s.create_stream(&mut v, EMPLOYER, WORKER, TOKEN, 100, 0, 0, 100, 0).unwrap();
    let before = s.get_stream(stream_id).unwrap();
    assert_eq!(before.last_withdrawal_ts, 0);
    s.withdraw(&mut v, stream_id, WORKER, 42).unwrap();
    let after = s.get_stream(stream_id).unwrap();
    assert_eq!(after.last_withdrawal_ts, 42);
}

#[test]
fn test_cancel_wrong_employer_panics() {
    let (mut s, mut v) = setup();
    let intruder = OTHER;
    let stream_id = s.create_stream(&mut v, EMPLOYER, WORKER, TOKEN, 100, 0, 0, 100, 0).unwrap();
    let result = s.cancel_stream(&mut v, stream_id, intruder, 0);
    assert!(result.is_err());
    assert_eq!(result, Err(QuipayError::Unauthorized));
}

#[test]
fn test_cancel_already_canceled_is_idempotent() {
    let (mut s, mut v) = setup();
    let stream_id = s.create_stream(&mut v, EMPLOYER, WORKER, TOKEN, 100, 0, 0, 100, 0).unwrap();
    s.cancel_stream(&mut v, stream_id, EMPLOYER, 0).unwrap();
    // a second cancel succeeds and changes nothing
    s.cancel_stream(&mut v, stream_id, EMPLOYER, 0).unwrap();
    let stream = s.get_stream(stream_id).unwrap();
    assert_eq!(stream.status, StreamStatus::Canceled);
}

#[test]
fn test_cancel_sets_closed_at() {
    let (mut s, mut v) = setup();
    let stream_id = s.create_stream(&mut v, EMPLOYER, WORKER, TOKEN, 100, 0, 0, 100, 0).unwrap();
    s.cancel_stream(&mut v, stream_id, EMPLOYER, 55).unwrap();
    let stream = s.get_stream(stream_id).unwrap();
    assert_eq!(stream.status, StreamStatus::Canceled);
    assert_eq!(stream.closed_at, 55);
}

#[test]
fn test_cancel_completed_stream_is_idempotent() {
    let (mut s, mut v) = setup();
    let stream_id = s.create_stream(&mut v, EMPLOYER, WORKER, TOKEN, 100, 0, 0, 10, 0).unwrap();
    s.withdraw(&mut v, stream_id, WORKER, 10).unwrap();
    // the stream is completed; cancel returns early
    s.cancel_stream(&mut v, stream_id, EMPLOYER, 10).unwrap();
    let stream = s.get_stream(stream_id).unwrap();
    assert_eq!(stream.status, StreamStatus::Completed);
}

#[test]
fn test_full_withdrawal_auto_completes_stream() {
    let (mut s, mut v) = setup();
    let stream_id = s.create_stream(&mut v, EMPLOYER, WORKER, TOKEN, 100, 0, 0, 10, 0).unwrap();
    let amount = s.withdraw(&mut v, stream_id, WORKER, 10).unwrap();
    assert_eq!(amount, 1000);
    let stream = s.get_stream(stream_id).unwrap();
    assert_eq!(stream.status, StreamStatus::Completed);
    assert_eq!(stream.withdrawn_amount, stream.total_amount);
}

#[test]
fn test_completed_stream_blocks_further_withdrawal() {
    let (mut s, mut v) = setup();
    let stream_id = s.create_stream(&mut v, EMPLOYER, WORKER, TOKEN, 100, 0, 0, 10, 0).unwrap();
    s.withdraw(&mut v, stream_id, WORKER, 10).unwrap();
    let result = s.withdraw(&mut v, stream_id, WORKER, 10);
    assert!(result.is_err());
    assert_eq!(result, Err(QuipayError::StreamClosed));
}

#[test]
fn test_minimum_one_second_stream() {
    let (mut s, mut v) = setup();
    // rate=1, duration=1, total=1
    let stream_id = s.create_stream(&mut v, EMPLOYER, WORKER, TOKEN, 1, 0, 0, 1, 0).unwrap();
    let amount = s.withdraw(&mut v, stream_id, WORKER, 1).unwrap();
    assert_eq!(amount, 1);
    let stream = s.get_stream(stream_id).unwrap();
    assert_eq!(stream.status, StreamStatus::Completed);
}

#[test]
fn test_init_twice_fails() {
    let (mut s, _v) = setup();
    let admin2 = OTHER;
    let result = s.init(admin2);
    assert!(result.is_err());
    assert_eq!(result, Err(QuipayError::AlreadyInitialized));
}

#[test]
fn test_get_nonexistent_stream_returns_none() {
    let (s, _v) = setup();
    assert!(s.get_stream(9999u64).is_none());
}

#[test]
fn test_cleanup_active_stream_panics() {
    let (mut s, mut v) = setup();
    let stream_id = s.create_stream(&mut v, EMPLOYER, WORKER, TOKEN, 100, 0, 0, 100, 0).unwrap();
    let result = s.cleanup_stream(stream_id, 0);
    assert!(result.is_err());
    assert_eq!(result, Err(QuipayError::StreamNotClosed));
}

#[test]
fn test_cleanup_before_retention_panics() {
    let (mut s, mut v) = setup();
    s.set_retention_secs(ADMIN, 100).unwrap();
    let stream_id = s.create_stream(&mut v, EMPLOYER, WORKER, TOKEN, 100, 0, 0, 10, 0).unwrap();
    s.cancel_stream(&mut v, stream_id, EMPLOYER, 10).unwrap();
    // closed at 10 with a retention of 100: eligible from 110 on
    let result = s.cleanup_stream(stream_id, 50);
    assert!(result.is_err());
    assert_eq!(result, Err(QuipayError::RetentionNotElapsed));
}

#[test]
fn test_empty_index_for_unknown_address() {
    let (s, _v) = setup();
    let stranger = OTHER;
    assert_eq!(s.get_employer_streams(stranger).len(), 0);
    assert_eq!(s.get_worker_streams(stranger).len(), 0);
}

#[test]
fn test_accrual_exact_linear() {
    let (mut s, mut v) = setup();
    // rate=1000, duration=1000, total=1_000_000
    let stream_id = s.create_stream(&mut v, EMPLOYER, WORKER, TOKEN, 1000, 0, 0, 1000, 0).unwrap();
    let a = s.withdraw(&mut v, stream_id, WORKER, 250).unwrap();
    assert_eq!(a, 250_000);
    let b = s.withdraw(&mut v, stream_id, WORKER, 500).unwrap();
    assert_eq!(b, 250_000);
    let c = s.withdraw(&mut v, stream_id, WORKER, 750).unwrap();
    assert_eq!(c, 250_000);
    let d = s.withdraw(&mut v, stream_id, WORKER, 1000).unwrap();
    assert_eq!(d, 250_000);
    assert_eq!(a + b + c + d, 1_000_000);
}

#[test]
fn test_cliff_retroactive_accrual() {
    let (mut s, mut v) = setup();
    // cliff=50, start=0, end=100, rate=10, total=1000
    let stream_id = s.create_stream(&mut v, EMPLOYER, WORKER, TOKEN, 10, 50, 0, 100, 0).unwrap();
    let before_cliff = s.withdraw(&mut v, stream_id, WORKER, 30).unwrap();
    assert_eq!(before_cliff, 0);
    let after_cliff = s.withdraw(&mut v, stream_id, WORKER, 60).unwrap();
    assert_eq!(after_cliff, 600);
}

#[test]
fn test_cliff_at_end_blocks_until_maturity() {
    let (mut s, mut v) = setup();
    // cliff == end: nothing vests until the stream matures
    let stream_id = s.create_stream(&mut v, EMPLOYER, WORKER, TOKEN, 100, 100, 0, 100, 0).unwrap();
    let mid = s.withdraw(&mut v, stream_id, WORKER, 50).unwrap();
    assert_eq!(mid, 0);
    let at_maturity = s.withdraw(&mut v, stream_id, WORKER, 100).unwrap();
    assert_eq!(at_maturity, 10000);
}

#[test]
fn test_multiple_streams_are_independent() {
    let (mut s, mut v) = setup();
    let worker2 = OTHER;
    let s1 = s.create_stream(&mut v, EMPLOYER, WORKER, TOKEN, 100, 0, 0, 100, 0).unwrap();
    let s2 = s.create_stream(&mut v, EMPLOYER, worker2, TOKEN, 200, 0, 0, 100, 0).unwrap();
    s.cancel_stream(&mut v, s1, EMPLOYER, 0).unwrap();
    assert_eq!(s.get_stream(s1).unwrap().status, StreamStatus::Canceled);
    assert_eq!(s.get_stream(s2).unwrap().status, StreamStatus::Active);
}

#[test]
fn test_last_withdrawal_ts_tracked_per_stream() {
    let (mut s, mut v) = setup();
    let s1 = s.create_stream(&mut v, EMPLOYER, WORKER, TOKEN, 100, 0, 0, 100, 0).unwrap();
    let s2 = s.create_stream(&mut v, EMPLOYER, WORKER, TOKEN, 100, 0, 0, 100, 0).unwrap();
    s.withdraw(&mut v, s1, WORKER, 10).unwrap();
    s.withdraw(&mut v, s2, WORKER, 20).unwrap();
    assert_eq!(s.get_stream(s1).unwrap().last_withdrawal_ts, 10);
    assert_eq!(s.get_stream(s2).unwrap().last_withdrawal_ts, 20);
}

#[test]
fn test_different_employers_have_independent_indexes() {
    let (mut s, mut v) = setup();
    let (employer1, employer2, worker1, worker2) = (10u64, 11u64, 12u64, 13u64);
    let id1 = s.create_stream(&mut v, employer1, worker1, TOKEN, 10, 0, 0, 100, 0).unwrap();
    let id2 = s.create_stream(&mut v, employer2, worker2, TOKEN, 10, 0, 0, 100, 0).unwrap();
    let emp1_ids = s.get_employer_streams(employer1);
    let emp2_ids = s.get_employer_streams(employer2);
    assert_eq!(emp1_ids.len(), 1);
    assert_eq!(emp1_ids[0], id1);
    assert_eq!(emp2_ids.len(), 1);
    assert_eq!(emp2_ids[0], id2);
    assert_eq!(s.get_worker_streams(worker1)[0], id1);
    assert_eq!(s.get_worker_streams(worker2)[0], id2);
}
