use std::time::Duration;
use surrealdb_iroh::retry::{
    RetryBudget, RetryConfig, RetryError, RetryOperation, RetryPolicy, RetryStep,
};

#[test]
fn test_retry_config_default() {
    let config = RetryConfig::default();
    assert_eq!(config.initial_delay, Duration::from_millis(100));
    assert_eq!(config.max_retries, 5);
}

#[test]
fn test_retry_policy_should_retry() {
    let mut policy = RetryPolicy::new(RetryConfig::default());

    assert!(policy.should_retry());

    for _ in 0..5 {
        policy.record_attempt();
    }

    assert!(!policy.should_retry());
}

#[test]
fn test_retry_policy_infinite() {
    let config = RetryConfig::new().with_max_retries(0);
    let mut policy = RetryPolicy::new(config);

    for _ in 0..100 {
        policy.record_attempt();
        assert!(policy.should_retry());
    }
}

#[test]
fn test_retry_budget() {
    let mut budget = RetryBudget::new(3, Duration::from_secs(1));

    assert!(budget.can_retry());
    budget.record_attempt();
    budget.record_attempt();
    budget.record_attempt();

    assert!(!budget.can_retry());
    assert_eq!(budget.remaining(), 0);
}

#[test]
fn a_budget_goes_no_lower_than_nothing() {
    let mut budget = RetryBudget::new(1, Duration::from_secs(1));
    assert_eq!(budget.remaining(), 1);
    budget.record_attempt();
    budget.record_attempt();
    assert_eq!(budget.remaining(), 0);
    budget.reset();
    assert!(budget.can_retry());
}

#[test]
fn delays_are_capped() {
    let policy = RetryPolicy::new(RetryConfig::new().with_max_delay(Duration::from_millis(500)));
    assert_eq!(policy.next_delay(100), Some(Duration::from_millis(100)));
    assert_eq!(policy.next_delay(500), Some(Duration::from_millis(500)));
    assert_eq!(policy.next_delay(501), Some(Duration::from_millis(500)));
    assert_eq!(policy.next_delay(u64::MAX), Some(Duration::from_millis(500)));
    assert_eq!(policy.config().initial_delay, Duration::from_millis(100));
}

#[test]
fn an_operation_that_always_fails_is_tried_once_more_than_it_is_retried() {
    let config = RetryConfig::new().with_max_retries(3).with_initial_delay(Duration::from_secs(1));
    let mut op = RetryOperation::new(config);
    let mut tries = 0;
    loop {
        tries += 1;
        match op.step::<(), i32>(Err(tries), 10) {
            RetryStep::Wait(d) => assert_eq!(d, Duration::from_millis(10)),
            RetryStep::Done(r) => {
                let e = r.err().unwrap();
                assert_eq!(e.message(), "max retries (3) exceeded");
                assert!(matches!(
                    e,
                    RetryError::MaxRetriesExceeded { attempts: 3, last_error: 4 }
                ));
                break;
            }
        }
    }
    assert_eq!(tries, 4);
    assert_eq!(op.policy().attempts(), 3);
    op.reset();
    assert_eq!(op.policy().attempts(), 0);
}

#[test]
fn a_success_ends_the_operation() {
    let mut op = RetryOperation::new(RetryConfig::default());
    assert!(matches!(op.step::<i32, ()>(Err(()), 1), RetryStep::Wait(_)));
    assert_eq!(op.policy().attempts(), 1);
    assert!(matches!(op.step::<i32, ()>(Ok(8), 1), RetryStep::Done(Ok(8))));
    assert_eq!(op.policy().attempts(), 0);
}

#[test]
fn a_cancelled_operation_says_so() {
    let e: RetryError<()> = RetryError::Cancelled;
    assert_eq!(e.message(), "operation cancelled");
}

#[test]
fn a_policy_can_be_copied() {
    let config = RetryConfig::default();
    let copy = config.clone();
    assert_eq!(copy.max_delay, config.max_delay);
    assert_eq!(copy.max_retries, 5);
    assert!(RetryPolicy::new(copy).clone().should_retry());
}
