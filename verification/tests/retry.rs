use nube_sync::conn_retry::ConnRetry;
use nube_sync::conn_retry::RetryStep;
use std::cell::Cell;
use std::cell::RefCell;

#[test]
fn default_policy_gives_up_after_the_third_failure() {
    let policy = ConnRetry::default();
    assert_eq!(policy.attempts(), 3);
    assert_eq!(policy.after_failure(3), RetryStep::Wait { millis: 250, left: 2 });
    assert_eq!(policy.after_failure(2), RetryStep::Wait { millis: 250, left: 1 });
    assert_eq!(policy.after_failure(1), RetryStep::GiveUp);
}

#[test]
fn single_attempt_policy_never_waits() {
    let policy = ConnRetry::new(1, 10);
    assert_eq!(policy.attempts(), 1);
    assert_eq!(policy.after_failure(1), RetryStep::GiveUp);
    assert_eq!(policy.after_failure(0), RetryStep::GiveUp);
}

#[test]
fn first_success_is_returned_without_a_pause() {
    let calls = Cell::new(0u32);
    let pauses = RefCell::new(Vec::new());
    let result: Result<u32, String> = ConnRetry::default().execute_with_retries(
        || {
            calls.set(calls.get() + 1);
            Ok(42)
        },
        |millis| pauses.borrow_mut().push(millis),
    );
    assert_eq!(result, Ok(42));
    assert_eq!(calls.get(), 1);
    assert!(pauses.borrow().is_empty());
}

#[test]
fn success_after_failures_is_returned() {
    let calls = Cell::new(0u32);
    let pauses = RefCell::new(Vec::new());
    let result: Result<u32, String> = ConnRetry::default().execute_with_retries(
        || {
            calls.set(calls.get() + 1);
            if calls.get() < 3 {
                Err(format!("failure {}", calls.get()))
            } else {
                Ok(7)
            }
        },
        |millis| pauses.borrow_mut().push(millis),
    );
    assert_eq!(result, Ok(7));
    assert_eq!(calls.get(), 3);
    assert_eq!(*pauses.borrow(), vec![250, 250]);
}

#[test]
fn last_error_is_returned_once_exhausted() {
    let calls = Cell::new(0u32);
    let pauses = RefCell::new(Vec::new());
    let result: Result<u32, String> = ConnRetry::new(4, 5).execute_with_retries(
        || {
            calls.set(calls.get() + 1);
            Err(format!("failure {}", calls.get()))
        },
        |millis| pauses.borrow_mut().push(millis),
    );
    assert_eq!(result, Err("failure 4".to_string()));
    assert_eq!(calls.get(), 4);
    assert_eq!(*pauses.borrow(), vec![5, 5, 5]);
}
