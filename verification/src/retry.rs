//! When a failed call is tried again, and when it is given up.
use vstd::prelude::*;

use crate::text::join2;

verus! {

/// How long to wait after the failed attempt number `attempt`, counted from 0.
pub open spec fn backoff_delay(attempt: nat) -> u64 {
    if attempt == 0 {
        100
    } else if attempt == 1 {
        500
    } else {
        2000
    }
}

/// Repeats of an operation that may safely be repeated, with growing pauses
/// between them.
#[derive(Debug)]
pub struct Backoff {
    attempt: u32,
    max_retries: u32,
}

impl Backoff {
    /// The number of the current attempt, counted from 0.
    pub closed spec fn attempt(self) -> nat {
        self.attempt as nat
    }

    /// How often the operation may be repeated.
    pub closed spec fn max_retries(self) -> nat {
        self.max_retries as nat
    }

    /// An operation that may be repeated `max_retries` times.
    pub fn new(max_retries: u32) -> (r: Self)
        ensures
            r.attempt() == 0,
            r.max_retries() == max_retries,
    {
        Backoff { attempt: 0, max_retries }
    }

    /// The current attempt has failed: how many milliseconds to wait before the
    /// next, or nothing where the operation is to be given up.
    pub fn on_failed(&mut self) -> (r: Option<u64>)
        ensures
            final(self).max_retries() == old(self).max_retries(),
            match r {
                Some(delay) => old(self).attempt() < old(self).max_retries() && delay
                    == backoff_delay(old(self).attempt()) && final(self).attempt() == old(
                    self,
                ).attempt() + 1,
                None => old(self).attempt() >= old(self).max_retries() && final(self).attempt()
                    == old(self).attempt(),
            },
    {
        if self.attempt < self.max_retries {
            let delay: u64 = if self.attempt == 0 {
                100
            } else if self.attempt == 1 {
                500
            } else {
                2000
            };
            self.attempt = self.attempt + 1;
            Some(delay)
        } else {
            None
        }
    }
}

/// How a remote call is repeated. Times are in milliseconds.
#[derive(Debug, Clone, Copy, PartialEq, Eq, Structural)]
pub struct RetryConfig {
    pub max_attempts: u32,
    pub timeout_per_attempt: u64,
    pub delay_between_attempts: u64,
}

impl Default for RetryConfig {
    fn default() -> (r: Self)
        ensures
            r == (RetryConfig {
                max_attempts: 3,
                timeout_per_attempt: 10_000,
                delay_between_attempts: 2_000,
            }),
    {
        RetryConfig {
            max_attempts: 3,
            timeout_per_attempt: 10_000,
            delay_between_attempts: 2_000,
        }
    }
}

/// Why a repeated call failed.
#[derive(Debug)]
pub enum CallWithRetryError<E> {
    /// All attempts timed out.
    Timeout,
    /// The operation failed with an error.
    OperationFailed(E),
}

impl CallWithRetryError<String> {
    /// The error in words.
    pub fn message(&self) -> (r: String)
        ensures
            r@ == match *self {
                CallWithRetryError::Timeout => "all attempts timed out"@,
                CallWithRetryError::OperationFailed(e) => "operation failed: "@ + e@,
            },
    {
        match self {
            CallWithRetryError::Timeout => "all attempts timed out".to_owned(),
            CallWithRetryError::OperationFailed(e) => join2("operation failed: ", e.as_str()),
        }
    }
}

/// What is to be done next for a repeated call.
#[derive(Debug, Clone, Copy, PartialEq, Eq, Structural)]
pub enum CallStage {
    /// Make the call, with the configured timeout.
    Attempt,
    /// Wait for the configured delay.
    Pause,
    /// Report the error.
    GiveUp,
}

/// A repeated call so far.
pub struct CallProgress<E> {
    pub stage: CallStage,
    pub max_attempts: nat,
    /// How long each attempt may take.
    pub timeout: u64,
    /// How long to wait between two attempts.
    pub delay: u64,
    /// What became of the attempts so far: the error, or nothing for a timeout.
    pub failures: Seq<Option<E>>,
}

/// The last error among `failures`, passing over timeouts.
pub open spec fn last_error<E>(failures: Seq<Option<E>>) -> Option<E>
    decreases failures.len(),
{
    if failures.len() == 0 {
        None
    } else if failures.last() is Some {
        failures.last()
    } else {
        last_error(failures.drop_last())
    }
}

/// A call before the first attempt; one without attempts is given up at once.
pub open spec fn call_started<E>(config: RetryConfig) -> CallProgress<E> {
    CallProgress {
        stage: if config.max_attempts == 0 {
            CallStage::GiveUp
        } else {
            CallStage::Attempt
        },
        max_attempts: config.max_attempts as nat,
        timeout: config.timeout_per_attempt,
        delay: config.delay_between_attempts,
        failures: Seq::<Option<E>>::empty(),
    }
}

/// The call after a pause.
pub open spec fn call_resumed<E>(c: CallProgress<E>) -> CallProgress<E> {
    CallProgress {
        stage: if c.stage == CallStage::Pause {
            CallStage::Attempt
        } else {
            c.stage
        },
        ..c
    }
}

/// The call after an attempt has failed.
pub open spec fn call_failed<E>(c: CallProgress<E>, failure: Option<E>) -> CallProgress<E> {
    if c.stage != CallStage::Attempt {
        c
    } else {
        CallProgress {
            failures: c.failures.push(failure),
            stage: if c.failures.len() + 1 < c.max_attempts {
                CallStage::Pause
            } else {
                CallStage::GiveUp
            },
            ..c
        }
    }
}

/// A call that is repeated, with a timeout for each attempt and a pause between
/// attempts, until it succeeds or has been attempted often enough.
pub struct RetryCall<E> {
    stage: CallStage,
    config: RetryConfig,
    attempts: u32,
    last_error: Option<E>,
    failures: Ghost<Seq<Option<E>>>,
}

impl<E> View for RetryCall<E> {
    type V = CallProgress<E>;

    closed spec fn view(&self) -> CallProgress<E> {
        CallProgress {
            stage: self.stage,
            max_attempts: self.config.max_attempts as nat,
            timeout: self.config.timeout_per_attempt,
            delay: self.config.delay_between_attempts,
            failures: self.failures@,
        }
    }
}

/// A call is attempted at most as often as configured, and given up when all
/// attempts are used up.
pub open spec fn call_within_limit<E>(c: CallProgress<E>) -> bool {
    &&& c.failures.len() <= c.max_attempts
    &&& c.stage == CallStage::GiveUp <==> c.failures.len() == c.max_attempts
}

impl<E> RetryCall<E> {
    /// The attempts are counted and stay within the limit.
    pub closed spec fn wf(self) -> bool {
        &&& self.attempts == self.failures@.len()
        &&& self.last_error == last_error(self.failures@)
        &&& call_within_limit(self@)
    }

    /// Starts a repeated call.
    pub fn start(config: RetryConfig) -> (r: Self)
        ensures
            r.wf(),
            call_within_limit(r@),
            r@ == call_started::<E>(config),
    {
        RetryCall {
            stage: if config.max_attempts == 0 {
                CallStage::GiveUp
            } else {
                CallStage::Attempt
            },
            config,
            attempts: 0,
            last_error: None,
            failures: Ghost(Seq::<Option<E>>::empty()),
        }
    }

    /// What is to be done next.
    pub fn stage(&self) -> (r: CallStage)
        ensures
            r == self@.stage,
    {
        self.stage
    }

    /// How long the attempt may take, in milliseconds.
    pub fn timeout(&self) -> (r: u64)
        ensures
            r == self@.timeout,
    {
        self.config.timeout_per_attempt
    }

    /// How long to wait before the next attempt, in milliseconds.
    pub fn delay(&self) -> (r: u64)
        ensures
            r == self@.delay,
    {
        self.config.delay_between_attempts
    }

    fn count_failure(&mut self, Ghost(failure): Ghost<Option<E>>)
        requires
            old(self).attempts == old(self).failures@.len(),
            old(self)@.stage == CallStage::Attempt,
            old(self).attempts < old(self).config.max_attempts,
            old(self).last_error == last_error(old(self).failures@.push(failure)),
        ensures
            final(self).wf(),
            final(self)@ == call_failed(old(self)@, failure),
    {
        self.attempts = self.attempts + 1;
        self.failures = Ghost(self.failures@.push(failure));
        if self.attempts < self.config.max_attempts {
            self.stage = CallStage::Pause;
        } else {
            self.stage = CallStage::GiveUp;
        }
    }

    /// The attempt has failed with an error.
    pub fn on_error(&mut self, error: E)
        requires
            old(self).wf(),
        ensures
            final(self).wf(),
            call_within_limit(final(self)@),
            final(self)@ == call_failed(old(self)@, Some(error)),
    {
        if let CallStage::Attempt = self.stage {
            let ghost e = error;
            assert(self.failures@.push(Some(e)).last() == Some(e));
            self.last_error = Some(error);
            self.count_failure(Ghost(Some(e)));
        }
    }

    /// The attempt has timed out.
    pub fn on_timeout(&mut self)
        requires
            old(self).wf(),
        ensures
            final(self).wf(),
            call_within_limit(final(self)@),
            final(self)@ == call_failed(old(self)@, None),
    {
        if let CallStage::Attempt = self.stage {
            assert(self.failures@.push(None).drop_last() =~= self.failures@);
            self.count_failure(Ghost(None));
        }
    }

    /// The pause is over.
    pub fn on_paused(&mut self)
        requires
            old(self).wf(),
        ensures
            final(self).wf(),
            call_within_limit(final(self)@),
            final(self)@ == call_resumed(old(self)@),
    {
        if let CallStage::Pause = self.stage {
            self.stage = CallStage::Attempt;
        }
    }

    /// Why the call was given up: with the last error, or, where all attempts
    /// timed out, for that.
    pub fn into_error(self) -> (r: CallWithRetryError<E>)
        requires
            self.wf(),
        ensures
            match r {
                CallWithRetryError::OperationFailed(e) => last_error(self@.failures) == Some(e),
                CallWithRetryError::Timeout => last_error(self@.failures) is None,
            },
    {
        match self.last_error {
            Some(e) => CallWithRetryError::OperationFailed(e),
            None => CallWithRetryError::Timeout,
        }
    }
}

/// No error is reported only where every attempt timed out, and the error that
/// is reported is that of some attempt with nothing but timeouts after it.
pub proof fn last_error_is_the_last<E>(failures: Seq<Option<E>>)
    ensures
        last_error(failures) is None <==> forall|i: int|
            0 <= i < failures.len() ==> (#[trigger] failures[i]) is None,
        last_error(failures) matches Some(e) ==> exists|i: int|
            0 <= i < failures.len() && #[trigger] failures[i] == Some(e) && forall|j: int|
                i < j < failures.len() ==> (#[trigger] failures[j]) is None,
    decreases failures.len(),
{
    if failures.len() > 0 {
        let rest = failures.drop_last();
        last_error_is_the_last(rest);
        if failures.last() is Some {
            assert(failures[failures.len() - 1] is Some);
            assert(failures[failures.len() - 1] == last_error(failures));
        } else if last_error(rest) is Some {
            let e = last_error(rest)->0;
            let i = choose|i: int|
                0 <= i < rest.len() && #[trigger] rest[i] == Some(e) && forall|j: int|
                    i < j < rest.len() ==> (#[trigger] rest[j]) is None;
            assert(failures[i] == Some(e));
            assert forall|j: int| i < j < failures.len() implies (#[trigger] failures[j]) is None by {
                if j < rest.len() {
                    assert(rest[j] is None);
                }
            }
        } else {
            assert forall|j: int| 0 <= j < failures.len() implies (#[trigger] failures[j]) is None by {
                if j < rest.len() {
                    assert(rest[j] is None);
                }
            }
        }
    }
}

/// The call after attempts that all failed, as `failures` says, each but the last
/// followed by a pause.
pub open spec fn call_after<E>(config: RetryConfig, failures: Seq<Option<E>>) -> CallProgress<E>
    decreases failures.len(),
{
    if failures.len() == 0 {
        call_started(config)
    } else {
        call_resumed(call_failed(call_after(config, failures.drop_last()), failures.last()))
    }
}

/// A call whose attempts have all failed so far is attempted again, with the
/// configured timeout and after the configured pause, until it has been
/// attempted as often as configured; then it is given up, and no attempt is
/// forgotten.
pub proof fn a_call_is_attempted_to_the_limit<E>(config: RetryConfig, failures: Seq<Option<E>>)
    requires
        failures.len() <= config.max_attempts,
    ensures
        call_after(config, failures) == (CallProgress {
            stage: if failures.len() == config.max_attempts {
                CallStage::GiveUp
            } else {
                CallStage::Attempt
            },
            max_attempts: config.max_attempts as nat,
            timeout: config.timeout_per_attempt,
            delay: config.delay_between_attempts,
            failures,
        }),
        failures.len() > 0 ==> (call_failed(
            call_after(config, failures.drop_last()),
            failures.last(),
        ).stage == CallStage::Pause <==> failures.len() < config.max_attempts),
    decreases failures.len(),
{
    if failures.len() > 0 {
        a_call_is_attempted_to_the_limit(config, failures.drop_last());
        assert(failures.drop_last().push(failures.last()) =~= failures);
    } else {
        assert(failures =~= Seq::<Option<E>>::empty());
    }
}

} // verus!
