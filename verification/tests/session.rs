use shaipot::api::{calculate_avg_hashrate, collect_stats, hashes_since, record_sample};
use shaipot::miner::{
    check_job, connect_retry_delay, handle_server_message, judge_hash, make_submit, mine_attempt,
    plan_worker, reconnect_delay, select_worker_count, session_step, should_abandon, text_equal,
    AttemptOutcome, CurrentJob, PoolAction, SessionAction, SessionEvent, WorkerAction,
};
use shaipot::models::{Job, ServerMessage};
use shaipot::vdf_solution::HCGraphUtil;

fn job(id: &str, data: &str, target: &str) -> Job {
    Job { job_id: id.to_owned(), data: data.to_owned(), target: target.to_owned() }
}

fn message(kind: &str, id: Option<&str>, data: Option<&str>, target: Option<&str>) -> ServerMessage {
    ServerMessage {
        kind: kind.to_owned(),
        job_id: id.map(|s| s.to_owned()),
        data: data.map(|s| s.to_owned()),
        target: target.map(|s| s.to_owned()),
    }
}

#[test]
fn worker_count_is_capped_by_cores() {
    assert_eq!(select_worker_count(None, 8), 8);
    assert_eq!(select_worker_count(Some(4), 8), 4);
    assert_eq!(select_worker_count(Some(8), 8), 8);
    assert_eq!(select_worker_count(Some(64), 8), 8);
    assert_eq!(select_worker_count(Some(0), 8), 0);
}

#[test]
fn job_message_is_published() {
    let msg = message("job", Some("j1"), Some("00ff"), Some("ffff"));
    match handle_server_message(&msg) {
        PoolAction::Publish(job) => {
            assert_eq!(job.job_id, "j1");
            assert_eq!(job.data, "00ff");
            assert_eq!(job.target, "ffff");
        }
        other => panic!("{:?}", other),
    }
}

#[test]
fn job_message_with_a_missing_field_is_dropped() {
    assert!(matches!(
        handle_server_message(&message("job", None, Some("00"), Some("ff"))),
        PoolAction::Ignore
    ));
    assert!(matches!(
        handle_server_message(&message("job", Some("j"), None, Some("ff"))),
        PoolAction::Ignore
    ));
    assert!(matches!(
        handle_server_message(&message("job", Some("j"), Some("00"), None)),
        PoolAction::Ignore
    ));
}

#[test]
fn verdicts_are_counted_and_the_rest_dropped() {
    assert!(matches!(
        handle_server_message(&message("accepted", None, None, None)),
        PoolAction::CountAccepted
    ));
    assert!(matches!(
        handle_server_message(&message("rejected", None, None, None)),
        PoolAction::CountRejected
    ));
    assert!(matches!(
        handle_server_message(&message("accepted", Some("j"), Some("00"), Some("ff"))),
        PoolAction::CountAccepted
    ));
    assert!(matches!(handle_server_message(&message("ping", None, None, None)), PoolAction::Ignore));
    assert!(matches!(handle_server_message(&message("", None, None, None)), PoolAction::Ignore));
    assert!(matches!(handle_server_message(&message("Job", Some("j"), Some("00"), Some("ff"))), PoolAction::Ignore));
}

#[test]
fn texts_are_compared() {
    assert!(text_equal("job", "job"));
    assert!(!text_equal("job", "jobs"));
    assert!(text_equal("", ""));
}

#[test]
fn worker_lets_go_of_a_replaced_job() {
    let mining = job("a", "00", "ff");
    assert!(should_abandon(&None, &mining));
    assert!(should_abandon(&Some(job("b", "00", "ff")), &mining));
    assert!(!should_abandon(&Some(job("a", "00", "ff")), &mining));
    assert!(!should_abandon(&Some(job("a", "11", "ee")), &mining));
}

#[test]
fn job_is_checked_before_mining() {
    assert!(check_job(&job("a", "00ff", &"f".repeat(64))));
    assert!(check_job(&job("a", "", "0")));
    assert!(!check_job(&job("a", "0ff", "ff")));
    assert!(!check_job(&job("a", "xy", "ff")));
    assert!(!check_job(&job("a", "00", "target")));
    assert!(!check_job(&job("a", "00", &"f".repeat(65))));
}

#[test]
fn submit_message_carries_the_solution() {
    let msg = make_submit("miner", "0000002a", &job("j9", "00", "ff"), "abcd".to_owned());
    assert_eq!(msg.kind, "submit");
    assert_eq!(msg.miner_id, "miner");
    assert_eq!(msg.nonce, "0000002a");
    assert_eq!(msg.job_id, "j9");
    assert_eq!(msg.path, "abcd");
}

#[test]
fn hash_below_target_is_a_share() {
    let j = job("j1", "00", "0100");
    match judge_hash("me", "00000001", &j, "00ff", "beef".to_owned()) {
        AttemptOutcome::Share(msg) => {
            assert_eq!(msg.kind, "submit");
            assert_eq!(msg.miner_id, "me");
            assert_eq!(msg.nonce, "00000001");
            assert_eq!(msg.job_id, "j1");
            assert_eq!(msg.path, "beef");
        }
        other => panic!("{:?}", other),
    }
    assert!(matches!(
        judge_hash("me", "00000001", &j, "0100", "beef".to_owned()),
        AttemptOutcome::Miss
    ));
    assert!(matches!(
        judge_hash("me", "00000001", &j, "0101", "beef".to_owned()),
        AttemptOutcome::Miss
    ));
}

#[test]
fn attempt_with_an_open_target_gives_a_share() {
    let j = job("open", "00112233445566778899aabbccddeeff", &"f".repeat(64));
    let mut util = HCGraphUtil::new(Some(4_000));
    match mine_attempt(&j, "miner", "0000002a", &mut util) {
        AttemptOutcome::Share(msg) => {
            assert_eq!(msg.kind, "submit");
            assert_eq!(msg.miner_id, "miner");
            assert_eq!(msg.nonce, "0000002a");
            assert_eq!(msg.job_id, "open");
            assert_eq!(msg.path.len(), 8032);
        }
        AttemptOutcome::Unsolved => assert!(util.timed_out()),
        AttemptOutcome::Miss => {
            panic!("a hash of all f is the only one that an open target does not admit")
        }
    }
}

#[test]
fn attempt_with_a_closed_target_is_a_miss() {
    let j = job("closed", "00112233445566778899aabbccddeeff", "0");
    let mut util = HCGraphUtil::new(Some(4_000));
    match mine_attempt(&j, "miner", "0000002a", &mut util) {
        AttemptOutcome::Share(_) => panic!("no hash is below zero"),
        AttemptOutcome::Unsolved => assert!(util.timed_out()),
        AttemptOutcome::Miss => {}
    }
}

#[test]
fn attempt_without_time_is_unsolved() {
    let j = job("hurried", "00112233445566778899aabbccddeeff", &"f".repeat(64));
    let mut util = HCGraphUtil::new(Some(0));
    assert!(matches!(mine_attempt(&j, "miner", "0000002a", &mut util), AttemptOutcome::Unsolved));
    assert!(util.timed_out());
}

#[test]
fn connect_retry_waits_5_to_29_seconds() {
    for _ in 0..500 {
        let secs = connect_retry_delay();
        assert!(secs >= 5 && secs < 30);
    }
}

#[test]
fn reconnect_waits_11_to_41_seconds() {
    for _ in 0..500 {
        let secs = reconnect_delay();
        assert!(secs >= 11 && secs < 42);
    }
}

#[test]
fn average_rounds_down_and_is_zero_without_samples() {
    assert_eq!(calculate_avg_hashrate(&Vec::new()), 0);
    assert_eq!(calculate_avg_hashrate(&vec![7]), 7);
    assert_eq!(calculate_avg_hashrate(&vec![1, 2, 3, 4]), 2);
    assert_eq!(calculate_avg_hashrate(&vec![u64::MAX, u64::MAX, u64::MAX]), u64::MAX);
    assert_eq!(calculate_avg_hashrate(&vec![u64::MAX, 0]), u64::MAX / 2);
}

#[test]
fn window_keeps_the_last_ten_samples() {
    let mut window: Vec<u64> = Vec::new();
    for i in 0..10 {
        record_sample(&mut window, i);
    }
    assert_eq!(window, (0..10).collect::<Vec<u64>>());
    record_sample(&mut window, 10);
    assert_eq!(window, (1..11).collect::<Vec<u64>>());
    record_sample(&mut window, 11);
    assert_eq!(window, (2..12).collect::<Vec<u64>>());
}

#[test]
fn oversized_window_loses_one_sample_per_step() {
    let mut window: Vec<u64> = (0..12).collect();
    record_sample(&mut window, 99);
    assert_eq!(window.len(), 12);
    assert_eq!(window[0], 1);
    assert_eq!(window[11], 99);
}

#[test]
fn delta_is_counted_since_last_sample() {
    assert_eq!(hashes_since(1000, 0), 1000);
    assert_eq!(hashes_since(1000, 1000), 0);
    assert_eq!(hashes_since(1500, 1000), 500);
}

#[test]
fn stats_after_a_thousand_hashes() {
    let mut window: Vec<u64> = Vec::new();
    let mut last = 0usize;
    for count in [100usize, 300, 600, 1000] {
        record_sample(&mut window, hashes_since(count, last));
        last = count;
    }
    let stats = collect_stats(&window, 3, 1, "1.0.0".to_owned(), 4);
    assert_eq!(stats.hashrate, 250);
    assert_eq!(stats.accepted, 3);
    assert_eq!(stats.rejected, 1);
    assert_eq!(stats.accepted + stats.rejected, 4);
    assert_eq!(stats.version, "1.0.0");
    assert_eq!(stats.uptime, 4);
}

#[test]
fn worker_without_a_job_idles() {
    assert!(matches!(plan_worker(None), WorkerAction::Idle));
    let slot = CurrentJob::new();
    assert!(slot.snapshot().is_none());
    assert!(matches!(plan_worker(slot.snapshot()), WorkerAction::Idle));
}

#[test]
fn worker_mines_a_sound_job_and_passes_over_another() {
    match plan_worker(Some(job("a", "00ff", "ffff"))) {
        WorkerAction::Mine(j) => assert_eq!(j.job_id, "a"),
        other => panic!("{:?}", other),
    }
    match plan_worker(Some(job("b", "0g", "ffff"))) {
        WorkerAction::Skip(j) => assert_eq!(j.job_id, "b"),
        other => panic!("{:?}", other),
    }
    assert!(matches!(plan_worker(Some(job("c", "00", "nothing"))), WorkerAction::Skip(_)));
}

#[test]
fn slot_holds_the_latest_job() {
    let mut slot = CurrentJob::new();
    slot.publish(job("a", "00", "ff"));
    slot.publish(job("b", "11", "ee"));
    let seen = slot.snapshot().unwrap();
    assert_eq!(seen.job_id, "b");
    assert_eq!(seen.data, "11");
    assert_eq!(seen.target, "ee");
    assert_eq!(slot.snapshot().unwrap().job_id, "b");
    slot.clear();
    assert!(slot.snapshot().is_none());
}

#[test]
fn new_job_preempts_the_one_being_mined() {
    let mut slot = CurrentJob::new();
    slot.publish(job("a", "00", "ff"));
    let mining = slot.snapshot().unwrap();
    assert!(!should_abandon(&slot.snapshot(), &mining));
    slot.publish(job("b", "00", "ff"));
    assert!(should_abandon(&slot.snapshot(), &mining));
    slot.clear();
    assert!(should_abandon(&slot.snapshot(), &mining));
}

#[test]
fn solved_job_is_cleared_unless_replaced() {
    let mut slot = CurrentJob::new();
    assert!(!slot.clear_if_current("a"));
    slot.publish(job("a", "00", "ff"));
    assert!(slot.clear_if_current("a"));
    assert!(slot.snapshot().is_none());
    slot.publish(job("b", "00", "ff"));
    assert!(!slot.clear_if_current("a"));
    assert_eq!(slot.snapshot().unwrap().job_id, "b");
}

#[test]
fn accepted_verdict_follows_a_share() {
    let j = job("open", "00112233445566778899aabbccddeeff", &"f".repeat(64));
    let mut util = HCGraphUtil::new(Some(4_000));
    let mut accepted = 0usize;
    let mut submitted = 0usize;
    if let AttemptOutcome::Share(msg) = mine_attempt(&j, "miner", "00000007", &mut util) {
        assert_eq!(msg.kind, "submit");
        submitted += 1;
        let echo = message("accepted", None, None, None);
        if let PoolAction::CountAccepted = handle_server_message(&echo) {
            accepted += 1;
        }
    } else {
        assert!(util.timed_out());
    }
    assert_eq!(accepted, submitted);
}

#[test]
fn failed_connect_is_retried_after_5_to_29_seconds() {
    for _ in 0..300 {
        match session_step(&SessionEvent::ConnectFailed) {
            SessionAction::RetryAfter(secs) => assert!(secs >= 5 && secs < 30),
            other => panic!("{:?}", other),
        }
    }
}

#[test]
fn ended_session_clears_the_slot_and_waits_11_to_41_seconds() {
    for _ in 0..300 {
        match session_step(&SessionEvent::Closed) {
            SessionAction::ClearAndRetryAfter(secs) => assert!(secs >= 11 && secs < 42),
            other => panic!("{:?}", other),
        }
    }
}

#[test]
fn session_hands_messages_on() {
    let incoming = SessionEvent::Message(message("job", Some("j1"), Some("00"), Some("ff")));
    match session_step(&incoming) {
        SessionAction::Handle(PoolAction::Publish(job)) => assert_eq!(job.job_id, "j1"),
        other => panic!("{:?}", other),
    }
    let verdict = SessionEvent::Message(message("rejected", None, None, None));
    assert!(matches!(session_step(&verdict), SessionAction::Handle(PoolAction::CountRejected)));
    let noise = SessionEvent::Message(message("hello", None, None, None));
    assert!(matches!(session_step(&noise), SessionAction::Handle(PoolAction::Ignore)));
}
