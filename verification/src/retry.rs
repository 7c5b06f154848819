//! The decisions of the connection retry loop.
//!
//! Whoever connects runs the loop: it makes an attempt, measures the time
//! that has passed since the first one, asks `retry_connect_errors` what to
//! do, and sleeps before it tries again. What is decided here is which
//! failures are worth another attempt, and when the time is up.

use vstd::prelude::*;

verus! {

/// What the transport says of a failed connection, as far as it matters
/// here.
#[derive(Clone, Copy, Debug, PartialEq, Eq, Structural)]
pub enum IoErrorKind {
    ConnectionRefused,
    ConnectionReset,
    ConnectionAborted,
    Other,
}

/// Why an attempt to connect failed: in the transport, or otherwise.
#[derive(Clone, Copy, Debug, PartialEq, Eq, Structural)]
pub enum ConnectError {
    Io(IoErrorKind),
    Other,
}

/// Whether a failure may go away by itself.
#[derive(Clone, Copy, Debug, PartialEq, Eq, Structural)]
pub enum ErrorClass {
    Transient,
    Permanent,
}

/// How an attempt to connect ended.
#[derive(Clone, Copy, Debug, PartialEq, Eq, Structural)]
pub enum Attempt {
    Connected,
    Failed(ConnectError),
}

/// What to do after an attempt.
#[derive(Clone, Copy, Debug, PartialEq, Eq, Structural)]
pub enum Step {
    /// The connection stands.
    Done,
    /// Wait, then try again.
    Retry,
    /// Give up at once: the failure is permanent.
    Abort(ConnectError),
    /// Give up: the failure is transient, but the time is up.
    GiveUp(ConnectError),
}

/// A failure is transient where the transport says that the connection was
/// refused, reset or aborted, and permanent otherwise.
pub open spec fn class_of(error: ConnectError) -> ErrorClass {
    match error {
        ConnectError::Io(IoErrorKind::ConnectionRefused)
        | ConnectError::Io(IoErrorKind::ConnectionReset)
        | ConnectError::Io(IoErrorKind::ConnectionAborted) => ErrorClass::Transient,
        _ => ErrorClass::Permanent,
    }
}

/// What is to be done after an attempt that ended `elapsed` milliseconds
/// after the first one began, where `max_elapsed` milliseconds are allowed.
pub open spec fn step_after(max_elapsed: u64, attempt: Attempt, elapsed: u64) -> Step {
    match attempt {
        Attempt::Connected => Step::Done,
        Attempt::Failed(error) => if class_of(error) == ErrorClass::Permanent {
            Step::Abort(error)
        } else if elapsed > max_elapsed {
            Step::GiveUp(error)
        } else {
            Step::Retry
        },
    }
}

/// Classifies a failure as transient or permanent.
pub fn classify(error: ConnectError) -> (r: ErrorClass)
    ensures
        r == class_of(error),
{
    match error {
        ConnectError::Io(kind) => match kind {
            IoErrorKind::ConnectionRefused
            | IoErrorKind::ConnectionReset
            | IoErrorKind::ConnectionAborted => ErrorClass::Transient,
            IoErrorKind::Other => ErrorClass::Permanent,
        },
        ConnectError::Other => ErrorClass::Permanent,
    }
}

/// Decides what to do after an attempt to connect. A permanent failure ends
/// the loop whatever the time; a transient one is tried again until more
/// than `max_elapsed` milliseconds have passed, and is then the failure of
/// the whole operation.
pub fn retry_connect_errors(max_elapsed: u64, attempt: Attempt, elapsed: u64) -> (r: Step)
    ensures
        r == step_after(max_elapsed, attempt, elapsed),
{
    match attempt {
        Attempt::Connected => Step::Done,
        Attempt::Failed(error) => match classify(error) {
            ErrorClass::Permanent => Step::Abort(error),
            ErrorClass::Transient => if elapsed > max_elapsed {
                Step::GiveUp(error)
            } else {
                Step::Retry
            },
        },
    }
}

/// One turn of the loop as seen from outside: how the attempt ended, and
/// the milliseconds that had passed by then.
pub struct Observation {
    pub attempt: Attempt,
    pub elapsed: u64,
}

/// How the loop ends on a run of observations, and after how many retries;
/// `Retry` where it is still going on after the last of them.
pub open spec fn run(max_elapsed: u64, observations: Seq<Observation>) -> (Step, nat)
    decreases observations.len(),
{
    if observations.len() == 0 {
        (Step::Retry, 0)
    } else {
        let first = observations[0];
        match step_after(max_elapsed, first.attempt, first.elapsed) {
            Step::Retry => {
                let (step, retries) = run(max_elapsed, observations.drop_first());
                (step, retries + 1)
            },
            step => (step, 0),
        }
    }
}

/// A connect function that fails permanently ends the loop at once, with
/// that failure and without a retry, whatever time has passed and whatever
/// would have followed.
pub proof fn lemma_permanent_failure_ends_at_once(
    max_elapsed: u64,
    observations: Seq<Observation>,
    error: ConnectError,
)
    requires
        observations.len() > 0,
        observations[0].attempt == Attempt::Failed(error),
        class_of(error) == ErrorClass::Permanent,
    ensures
        run(max_elapsed, observations) == (Step::Abort(error), 0nat),
{
}

/// A connect function that always fails transiently is tried again as long
/// as the time allows, and the loop ends with the transient failure of the
/// first attempt that ends after the time is up; it never ends otherwise.
pub proof fn lemma_transient_failures_use_up_the_time(
    max_elapsed: u64,
    observations: Seq<Observation>,
)
    requires
        forall|i: int|
            0 <= i < observations.len() ==> (#[trigger] observations[i]).attempt is Failed
                && class_of(observations[i].attempt->Failed_0) == ErrorClass::Transient,
    ensures
        ({
            let (step, retries) = run(max_elapsed, observations);
            match step {
                Step::Retry => retries == observations.len() && forall|i: int|
                    0 <= i < observations.len() ==> (#[trigger] observations[i]).elapsed
                        <= max_elapsed,
                Step::GiveUp(error) => {
                    &&& retries < observations.len()
                    &&& observations[retries as int].attempt == Attempt::Failed(error)
                    &&& observations[retries as int].elapsed > max_elapsed
                    &&& forall|i: int|
                        0 <= i < retries ==> (#[trigger] observations[i]).elapsed <= max_elapsed
                },
                _ => false,
            }
        }),
    decreases observations.len(),
{
    if observations.len() > 0 {
        let rest = observations.drop_first();
        assert forall|i: int| 0 <= i < rest.len() implies (#[trigger] rest[i]).attempt is Failed
            && class_of(rest[i].attempt->Failed_0) == ErrorClass::Transient by {
            assert(rest[i] == observations[i + 1]);
        }
        lemma_transient_failures_use_up_the_time(max_elapsed, rest);
        let (step, retries) = run(max_elapsed, rest);
        assert(observations[0].attempt is Failed);
        if observations[0].elapsed <= max_elapsed {
            assert forall|i: int| 0 <= i < retries + 1 && i < observations.len() implies (
            #[trigger] observations[i]).elapsed <= max_elapsed by {
                if i > 0 {
                    assert(rest[i - 1] == observations[i]);
                }
            }
            if step is GiveUp {
                assert(rest[retries as int] == observations[retries as int + 1]);
            }
        }
    }
}

/// A connect function that fails transiently `n` times within the time
/// allowed and then succeeds gives the connection, after `n` retries.
pub proof fn lemma_success_after_transient_failures(
    max_elapsed: u64,
    observations: Seq<Observation>,
    n: nat,
)
    requires
        n < observations.len(),
        observations[n as int].attempt == Attempt::Connected,
        forall|i: int|
            0 <= i < n ==> (#[trigger] observations[i]).attempt is Failed && class_of(
                observations[i].attempt->Failed_0,
            ) == ErrorClass::Transient && observations[i].elapsed <= max_elapsed,
    ensures
        run(max_elapsed, observations) == (Step::Done, n),
    decreases n,
{
    if n > 0 {
        let rest = observations.drop_first();
        assert(rest[n - 1] == observations[n as int]);
        assert forall|i: int| 0 <= i < n - 1 implies (#[trigger] rest[i]).attempt is Failed
            && class_of(rest[i].attempt->Failed_0) == ErrorClass::Transient && rest[i].elapsed
            <= max_elapsed by {
            assert(rest[i] == observations[i + 1]);
        }
        lemma_success_after_transient_failures(max_elapsed, rest, (n - 1) as nat);
        assert(observations[0].attempt is Failed);
    }
}

} // verus!
