//! How often an elder is tried before it is given up.

use crate::error::Error;
use crate::query_response::QueryResponse;
use vstd::prelude::*;

verus! {

/// How often a failed attempt is repeated.
pub const NUMBER_OF_RETRIES: usize = 3;

/// What to do after an attempt.
pub enum Step<T> {
    /// Try again.
    Retry,
    /// Go on with this result.
    Done(Result<T, Error>),
}

/// What came of one attempt to query an elder.
pub enum QueryEvent {
    /// The elder could not be connected to.
    ConnectFailed(Error),
    /// The query could not be sent.
    SendFailed,
    /// The query was sent, and this came back: `None` where nobody is left to
    /// answer.
    Reply(Option<Result<QueryResponse, Error>>),
}

/// Whether an attempt, counted from 1, is the last one.
pub open spec fn is_last_attempt(attempt: nat, succeeded: bool) -> bool {
    succeeded || attempt > NUMBER_OF_RETRIES
}

/// The attempts on one elder.
pub struct Attempts {
    attempts: usize,
}

impl View for Attempts {
    /// The attempt that is made next, counted from 1.
    type V = nat;

    closed spec fn view(&self) -> nat {
        self.attempts as nat
    }
}

impl Attempts {
    /// Whether another attempt may be made.
    pub open spec fn wf(self) -> bool {
        1 <= self@ <= NUMBER_OF_RETRIES + 1
    }

    /// Before the first attempt.
    pub fn new() -> (attempts: Attempts)
        ensures
            attempts@ == 1,
            attempts.wf(),
    {
        Attempts { attempts: 1 }
    }

    /// Takes the result of an attempt: a success ends the attempts, and so does the
    /// failure of the last one.
    pub fn after_attempt<T>(&mut self, result: Result<T, Error>) -> (step: Step<T>)
        requires
            old(self).wf(),
        ensures
            final(self)@ == old(self)@ + 1,
            is_last_attempt(old(self)@, result is Ok) ==> step == Step::Done(result),
            !is_last_attempt(old(self)@, result is Ok) ==> step is Retry && final(self).wf(),
    {
        let done_trying = result.is_ok() || self.attempts > NUMBER_OF_RETRIES;
        self.attempts += 1;
        if done_trying {
            Step::Done(result)
        } else {
            Step::Retry
        }
    }

    /// Takes what came of an attempt to query an elder. An elder that cannot be
    /// connected to is given up at once; every other failure is retried.
    pub fn after_query(&mut self, event: QueryEvent) -> (step: Step<QueryResponse>)
        requires
            old(self).wf(),
        ensures
            match event {
                QueryEvent::ConnectFailed(error) => step == Step::<QueryResponse>::Done(
                    Err(error),
                ) && final(self)@ == old(self)@,
                QueryEvent::Reply(Some(Ok(response))) => step == Step::Done(
                    Ok::<QueryResponse, Error>(response),
                ) && final(self)@ == old(self)@ + 1,
                _ => {
                    &&& final(self)@ == old(self)@ + 1
                    &&& if is_last_attempt(old(self)@, false) {
                        step matches Step::Done(Err(Error::ReceivingQuery))
                    } else {
                        step is Retry && final(self).wf()
                    }
                },
            },
    {
        match event {
            QueryEvent::ConnectFailed(error) => Step::Done(Err(error)),
            QueryEvent::Reply(Some(Ok(response))) => self.after_attempt(Ok(response)),
            QueryEvent::Reply(Some(Err(_))) | QueryEvent::Reply(None) | QueryEvent::SendFailed => {
                self.after_attempt(Err(Error::ReceivingQuery))
            },
        }
    }
}

/// The last attempt that is made, from this one on, where attempt `n` succeeds if
/// `outcomes[n - 1]` says so.
pub open spec fn last_attempt(outcomes: Seq<bool>, attempt: nat) -> nat
    decreases NUMBER_OF_RETRIES + 1 - attempt,
{
    if is_last_attempt(attempt, outcomes[attempt - 1]) {
        attempt
    } else {
        last_attempt(outcomes, attempt + 1)
    }
}

/// An elder is tried once and then retried at most so often; it is tried no more
/// once an attempt succeeds, and not given up before.
pub proof fn law_attempts_are_bounded(outcomes: Seq<bool>, attempt: nat)
    requires
        1 <= attempt <= NUMBER_OF_RETRIES + 1,
        outcomes.len() == NUMBER_OF_RETRIES + 1,
    ensures
        ({
            let last = last_attempt(outcomes, attempt);
            &&& attempt <= last <= NUMBER_OF_RETRIES + 1
            &&& outcomes[last - 1] || last == NUMBER_OF_RETRIES + 1
            &&& forall|n: int| attempt <= n < last ==> !#[trigger] outcomes[n - 1]
        }),
    decreases NUMBER_OF_RETRIES + 1 - attempt,
{
    if !is_last_attempt(attempt, outcomes[attempt - 1]) {
        law_attempts_are_bounded(outcomes, attempt + 1);
    }
}

/// A success ends the attempts at once. Failures end them with the fourth, and no
/// earlier one does.
pub proof fn law_fourth_failure_is_the_last(attempt: nat)
    ensures
        is_last_attempt(attempt, true),
        is_last_attempt(attempt, false) <==> attempt >= 4,
{
}

} // verus!
