use lkjmcrs::retry::{retry_step, RetryStep, RETRY_INITIAL_MS, RETRY_MAX_MS, RETRY_TOTAL_MS};

#[test]
fn waits_double_up_to_one_second() {
    assert_eq!(retry_step(0, RETRY_INITIAL_MS), RetryStep::Wait { wait_ms: 250, next_delay_ms: 500 });
    assert_eq!(retry_step(300, 500), RetryStep::Wait { wait_ms: 500, next_delay_ms: 1000 });
    assert_eq!(retry_step(900, 1000), RetryStep::Wait { wait_ms: 1000, next_delay_ms: 1000 });
    assert_eq!(RETRY_MAX_MS, 1000);
}

#[test]
fn retrying_stops_after_a_minute() {
    assert_eq!(RETRY_TOTAL_MS, 60_000);
    assert_eq!(retry_step(60_000, 1000), RetryStep::GiveUp);
    assert_eq!(retry_step(59_999, 1000), RetryStep::Wait { wait_ms: 1000, next_delay_ms: 1000 });
}

#[test]
fn a_whole_retry_schedule_stays_bounded() {
    let mut delay = RETRY_INITIAL_MS;
    let mut elapsed = 0;
    let mut waits = Vec::new();
    loop {
        match retry_step(elapsed, delay) {
            RetryStep::GiveUp => break,
            RetryStep::Wait { wait_ms, next_delay_ms } => {
                assert!(wait_ms <= RETRY_MAX_MS && next_delay_ms >= wait_ms);
                waits.push(wait_ms);
                elapsed += wait_ms;
                delay = next_delay_ms;
            }
        }
    }
    assert_eq!(&waits[..4], &[250, 500, 1000, 1000]);
    assert!(elapsed >= RETRY_TOTAL_MS);
}
