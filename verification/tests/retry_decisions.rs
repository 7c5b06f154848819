use sqlx_prepare::retry::{
    classify, retry_connect_errors, Attempt, ConnectError, ErrorClass, IoErrorKind, Step,
};

/// Runs the loop on a script of attempts and says how it ended and after how
/// many retries; `Step::Retry` where the script ends before the loop does.
fn drive(max_elapsed: u64, script: &[(Attempt, u64)]) -> (Step, usize) {
    for (retries, (attempt, elapsed)) in script.iter().enumerate() {
        match retry_connect_errors(max_elapsed, *attempt, *elapsed) {
            Step::Retry => {}
            step => return (step, retries),
        }
    }
    (Step::Retry, script.len())
}

const REFUSED: ConnectError = ConnectError::Io(IoErrorKind::ConnectionRefused);
const RESET: ConnectError = ConnectError::Io(IoErrorKind::ConnectionReset);
const ABORTED: ConnectError = ConnectError::Io(IoErrorKind::ConnectionAborted);

#[test]
fn refused_reset_and_aborted_are_transient() {
    assert_eq!(classify(REFUSED), ErrorClass::Transient);
    assert_eq!(classify(RESET), ErrorClass::Transient);
    assert_eq!(classify(ABORTED), ErrorClass::Transient);
}

#[test]
fn everything_else_is_permanent() {
    assert_eq!(classify(ConnectError::Io(IoErrorKind::Other)), ErrorClass::Permanent);
    assert_eq!(classify(ConnectError::Other), ErrorClass::Permanent);
}

#[test]
fn a_connection_ends_the_loop() {
    assert_eq!(retry_connect_errors(1000, Attempt::Connected, 0), Step::Done);
    assert_eq!(retry_connect_errors(0, Attempt::Connected, 5000), Step::Done);
}

#[test]
fn a_permanent_failure_is_not_retried() {
    assert_eq!(
        retry_connect_errors(10_000, Attempt::Failed(ConnectError::Other), 0),
        Step::Abort(ConnectError::Other)
    );
    assert_eq!(
        drive(
            10_000,
            &[(Attempt::Failed(ConnectError::Other), 1), (Attempt::Connected, 2)]
        ),
        (Step::Abort(ConnectError::Other), 0)
    );
    assert_eq!(
        drive(0, &[(Attempt::Failed(ConnectError::Io(IoErrorKind::Other)), 99)]),
        (Step::Abort(ConnectError::Io(IoErrorKind::Other)), 0)
    );
}

#[test]
fn the_time_limit_is_inclusive() {
    assert_eq!(retry_connect_errors(1000, Attempt::Failed(REFUSED), 999), Step::Retry);
    assert_eq!(retry_connect_errors(1000, Attempt::Failed(REFUSED), 1000), Step::Retry);
    assert_eq!(
        retry_connect_errors(1000, Attempt::Failed(REFUSED), 1001),
        Step::GiveUp(REFUSED)
    );
    assert_eq!(retry_connect_errors(0, Attempt::Failed(RESET), 0), Step::Retry);
    assert_eq!(retry_connect_errors(0, Attempt::Failed(RESET), 1), Step::GiveUp(RESET));
    assert_eq!(
        retry_connect_errors(u64::MAX, Attempt::Failed(ABORTED), u64::MAX),
        Step::Retry
    );
}

#[test]
fn transient_failures_use_up_the_time() {
    let script = [
        (Attempt::Failed(REFUSED), 10),
        (Attempt::Failed(RESET), 600),
        (Attempt::Failed(ABORTED), 1200),
        (Attempt::Failed(REFUSED), 2500),
    ];
    assert_eq!(drive(1000, &script), (Step::GiveUp(ABORTED), 2));
    assert_eq!(drive(5000, &script), (Step::Retry, 4));
    assert_eq!(drive(5, &script), (Step::GiveUp(REFUSED), 0));
}

#[test]
fn success_after_transient_failures_within_the_time() {
    let script = [
        (Attempt::Failed(REFUSED), 10),
        (Attempt::Failed(REFUSED), 500),
        (Attempt::Failed(RESET), 900),
        (Attempt::Connected, 1500),
    ];
    assert_eq!(drive(1000, &script), (Step::Done, 3));
    assert_eq!(drive(600, &script), (Step::GiveUp(RESET), 2));
}
