//! A projected message is committed step by step; a failure after the first step undoes
//! the steps before it.

use crate::failure;
use crate::failure::{raise, BichonError, ErrorCode};
use vstd::prelude::*;

verus! {

/// How a message is committed.
#[derive(Clone, Copy, Debug, PartialEq, Eq, Structural)]
pub enum Plan {
    /// Every step is durable, and it is a parsed message.
    Durable,
    /// Every step is durable, and it is no message: there are no attachments.
    Unparseable,
    /// Every step only queues its work.
    Queued,
}

/// A step of a commit.
#[derive(Clone, Copy, Debug, PartialEq, Eq, Structural)]
pub enum Step {
    /// Store the blobs.
    Blobs,
    /// Commit the records of the attachments.
    Attachments,
    /// Commit the envelope.
    Envelope,
    /// Remember that the message is known.
    Remember,
    /// Undo the steps so far.
    Undo,
    /// Nothing is left to do.
    Finished,
}

/// The step after one that went well.
pub open spec fn following(plan: Plan, step: Step) -> Step {
    match (plan, step) {
        (Plan::Durable, Step::Blobs) => Step::Attachments,
        (Plan::Durable, Step::Attachments) => Step::Envelope,
        (Plan::Durable, Step::Envelope) => Step::Remember,
        (Plan::Unparseable, Step::Blobs) => Step::Envelope,
        (Plan::Unparseable, Step::Envelope) => Step::Remember,
        (Plan::Queued, Step::Blobs) => Step::Envelope,
        (Plan::Queued, Step::Envelope) => Step::Attachments,
        (Plan::Queued, Step::Attachments) => Step::Remember,
        _ => Step::Finished,
    }
}

/// The failure of a projection that was cancelled.
pub open spec fn cancelled_failure() -> failure::Failure {
    failure::failure(ErrorCode::InternalError, "UIDONLY canonical projection cancelled"@)
}

/// Fails where the projection was cancelled.
pub fn check_uidonly_projection_cancelled(cancelled: bool) -> (result: Result<(), BichonError>)
    ensures
        failure::judged(result) == if cancelled {
            Err(cancelled_failure())
        } else {
            Ok(())
        },
{
    if cancelled {
        Err(raise(ErrorCode::InternalError, "UIDONLY canonical projection cancelled"))
    } else {
        Ok(())
    }
}

/// A commit in progress: the step that is due, and why the steps are undone.
#[verifier::ext_equal]
pub ghost struct Progress {
    pub plan: Plan,
    pub step: Step,
    pub cause: Option<failure::Failure>,
}

/// A commit at a step, with nothing gone wrong.
pub open spec fn at_step(plan: Plan, step: Step) -> Progress {
    Progress { plan, step, cause: None }
}

/// A commit whose steps are undone.
pub open spec fn undoing(plan: Plan, cause: failure::Failure) -> Progress {
    Progress { plan, step: Step::Undo, cause: Some(cause) }
}

/// What comes after the due step came out this way.
pub open spec fn advanced(
    progress: Progress,
    outcome: Result<(), failure::Failure>,
    cancelled: bool,
) -> Result<Progress, failure::Failure> {
    match (progress.step, outcome) {
        (Step::Undo, Err(e)) => Err(e),
        (Step::Undo, Ok(_)) => Err(progress.cause.unwrap()),
        (Step::Blobs, Err(e)) => Err(e),
        (Step::Attachments, Err(e)) => Ok(undoing(progress.plan, e)),
        (Step::Envelope, Err(e)) => Ok(undoing(progress.plan, e)),
        (Step::Remember, Err(e)) => Err(e),
        (Step::Finished, _) => Ok(progress),
        (Step::Remember, Ok(_)) => Ok(at_step(progress.plan, Step::Finished)),
        (step, Ok(_)) => if cancelled && progress.plan != Plan::Queued {
            Ok(undoing(progress.plan, cancelled_failure()))
        } else {
            Ok(at_step(progress.plan, following(progress.plan, step)))
        },
    }
}

/// A commit in progress.
#[derive(Debug, PartialEq, Eq)]
pub struct Commit {
    plan: Plan,
    step: Step,
    cause: Option<BichonError>,
}

impl View for Commit {
    type V = Progress;

    closed spec fn view(&self) -> Progress {
        Progress {
            plan: self.plan,
            step: self.step,
            cause: match self.cause {
                Some(e) => Some(e@),
                None => None,
            },
        }
    }
}

/// The result of a step with its commit taken by its view.
pub open spec fn seen_commit(result: Result<Commit, BichonError>) -> Result<
    Progress,
    failure::Failure,
> {
    match result {
        Ok(commit) => Ok(commit@),
        Err(e) => Err(e@),
    }
}

impl Commit {
    /// The steps are undone for a reason.
    #[verifier::type_invariant]
    spec fn sound(self) -> bool {
        self.step == Step::Undo <==> self.cause is Some
    }

    /// Starts a commit, unless it was cancelled before.
    pub fn start(plan: Plan, cancelled: bool) -> (result: Result<Commit, BichonError>)
        ensures
            seen_commit(result) == if cancelled && plan != Plan::Queued {
                Err(cancelled_failure())
            } else {
                Ok(at_step(plan, Step::Blobs))
            },
    {
        let queued = plan == Plan::Queued;
        match check_uidonly_projection_cancelled(cancelled && !queued) {
            Err(e) => Err(e),
            Ok(()) => Ok(Commit { plan, step: Step::Blobs, cause: None }),
        }
    }

    /// The step that is due.
    pub fn step(&self) -> (step: Step)
        ensures
            step == self@.step,
    {
        self.step
    }

    fn undo(plan: Plan, cause: BichonError) -> (commit: Commit)
        ensures
            commit@ == undoing(plan, cause@),
    {
        Commit { plan, step: Step::Undo, cause: Some(cause) }
    }

    /// Goes on after the due step: success leads to the next one, unless the projection
    /// was cancelled meanwhile; a failure or a cancellation after the blobs were stored
    /// leads to undoing, and then to the failure.
    pub fn on_outcome(self, outcome: Result<(), BichonError>, cancelled: bool) -> (result: Result<
        Commit,
        BichonError,
    >)
        ensures
            seen_commit(result) == advanced(self@, failure::judged(outcome), cancelled),
    {
        proof {
            use_type_invariant(&self);
        }
        let Commit { plan, step, cause } = self;
        match outcome {
            Err(e) => match step {
                Step::Attachments => Ok(Commit::undo(plan, e)),
                Step::Envelope => Ok(Commit::undo(plan, e)),
                Step::Finished => Ok(Commit { plan, step, cause }),
                _ => Err(e),
            },
            Ok(()) => match step {
                Step::Undo => match cause {
                    Some(e) => Err(e),
                    None => Ok(Commit { plan, step: Step::Finished, cause: None }),
                },
                Step::Finished => Ok(Commit { plan, step, cause }),
                Step::Remember => Ok(Commit { plan, step: Step::Finished, cause: None }),
                _ => {
                    let queued = plan == Plan::Queued;
                    match check_uidonly_projection_cancelled(cancelled && !queued) {
                        Err(e) => Ok(Commit::undo(plan, e)),
                        Ok(()) => Ok(Commit { plan, step: next_step(plan, step), cause: None }),
                    }
                },
            },
        }
    }
}

fn next_step(plan: Plan, step: Step) -> (next: Step)
    requires
        step == Step::Blobs || step == Step::Attachments || step == Step::Envelope,
    ensures
        next == following(plan, step),
{
    match plan {
        Plan::Durable => match step {
            Step::Blobs => Step::Attachments,
            Step::Attachments => Step::Envelope,
            _ => Step::Remember,
        },
        Plan::Unparseable => match step {
            Step::Blobs => Step::Envelope,
            Step::Envelope => Step::Remember,
            _ => Step::Finished,
        },
        Plan::Queued => match step {
            Step::Blobs => Step::Envelope,
            Step::Envelope => Step::Attachments,
            _ => Step::Remember,
        },
    }
}

/// How a step came out, and whether the projection was cancelled by then.
pub ghost struct Happening {
    pub outcome: Result<(), failure::Failure>,
    pub cancelled: bool,
}

/// Where a commit stands after some steps.
pub open spec fn committed(progress: Progress, happenings: Seq<Happening>) -> Result<
    Progress,
    failure::Failure,
>
    decreases happenings.len(),
{
    if happenings.len() == 0 {
        Ok(progress)
    } else {
        match advanced(progress, happenings[0].outcome, happenings[0].cancelled) {
            Err(e) => Err(e),
            Ok(next) => committed(next, happenings.drop_first()),
        }
    }
}

/// A message is remembered as known only after every step before went well and, unless
/// it was only queued, no cancellation was seen.
pub proof fn law_only_committed_messages_are_remembered(plan: Plan, happenings: Seq<Happening>)
    requires
        committed(at_step(plan, Step::Blobs), happenings) == Ok::<Progress, failure::Failure>(
            at_step(plan, Step::Remember),
        ),
    ensures
        happenings.len() == if plan == Plan::Unparseable {
            2int
        } else {
            3
        },
        forall|i: int|
            0 <= i < happenings.len() ==> (#[trigger] happenings[i]).outcome is Ok && (
            happenings[i].cancelled ==> plan == Plan::Queued),
{
    lemma_remembered_from(at_step(plan, Step::Blobs), happenings);
}

/// How many steps lead from this one to remembering the message.
spec fn distance(plan: Plan, step: Step) -> int {
    match (plan, step) {
        (Plan::Durable, Step::Blobs) => 3,
        (Plan::Durable, Step::Attachments) => 2,
        (Plan::Durable, Step::Envelope) => 1,
        (Plan::Unparseable, Step::Blobs) => 2,
        (Plan::Unparseable, Step::Envelope) => 1,
        (Plan::Queued, Step::Blobs) => 3,
        (Plan::Queued, Step::Envelope) => 2,
        (Plan::Queued, Step::Attachments) => 1,
        (_, Step::Remember) => 0,
        _ => -1,
    }
}

proof fn lemma_remembered_from(progress: Progress, happenings: Seq<Happening>)
    requires
        committed(progress, happenings) == Ok::<Progress, failure::Failure>(
            at_step(progress.plan, Step::Remember),
        ),
    ensures
        happenings.len() == distance(progress.plan, progress.step),
        forall|i: int|
            0 <= i < happenings.len() ==> (#[trigger] happenings[i]).outcome is Ok && (
            happenings[i].cancelled ==> progress.plan == Plan::Queued),
    decreases happenings.len(),
{
    if happenings.len() > 0 {
        let first = happenings[0];
        let rest = happenings.drop_first();
        match advanced(progress, first.outcome, first.cancelled) {
            Err(_) => {},
            Ok(next) => {
                lemma_remembered_from(next, rest);
                assert forall|i: int| 0 <= i < happenings.len() implies (
                #[trigger] happenings[i]).outcome is Ok && (happenings[i].cancelled
                    ==> progress.plan == Plan::Queued) by {
                    if i > 0 {
                        assert(rest[i - 1] == happenings[i]);
                    }
                }
            },
        }
    }
}

/// Once the blobs are stored, a durable commit can fail only by undoing its steps.
pub proof fn law_failed_commits_are_undone(
    progress: Progress,
    outcome: Result<(), failure::Failure>,
    cancelled: bool,
)
    requires
        progress.plan != Plan::Queued,
        progress.step == Step::Attachments || progress.step == Step::Envelope,
    ensures
        outcome is Err || cancelled ==> {
            let cause = match outcome {
                Err(e) => e,
                Ok(_) => cancelled_failure(),
            };
            advanced(progress, outcome, cancelled) == Ok::<Progress, failure::Failure>(
                undoing(progress.plan, cause),
            )
        },
        advanced(progress, outcome, cancelled) is Ok,
{
}

/// Undoing always ends in a failure: its own, or the one that caused it.
pub proof fn law_undoing_ends_in_failure(
    plan: Plan,
    cause: failure::Failure,
    outcome: Result<(), failure::Failure>,
    cancelled: bool,
)
    ensures
        advanced(undoing(plan, cause), outcome, cancelled) == Err::<Progress, failure::Failure>(
            match outcome {
                Err(e) => e,
                Ok(_) => cause,
            },
        ),
{
}

/// A commit finishes only by remembering the message: some step before the end did, and it
/// went well.
pub proof fn law_finished_commits_are_remembered(plan: Plan, happenings: Seq<Happening>)
    requires
        committed(at_step(plan, Step::Blobs), happenings) == Ok::<Progress, failure::Failure>(
            at_step(plan, Step::Finished),
        ),
    ensures
        exists|n: int|
            0 <= n < happenings.len() && (#[trigger] happenings[n]).outcome is Ok && committed(
                at_step(plan, Step::Blobs),
                happenings.take(n),
            ) == Ok::<Progress, failure::Failure>(at_step(plan, Step::Remember)),
{
    lemma_finished_from(at_step(plan, Step::Blobs), happenings);
}

proof fn lemma_finished_from(progress: Progress, happenings: Seq<Happening>)
    requires
        distance(progress.plan, progress.step) >= 0 || progress.step == Step::Undo,
        progress.step != Step::Undo ==> progress.cause is None,
        committed(progress, happenings) == Ok::<Progress, failure::Failure>(
            at_step(progress.plan, Step::Finished),
        ),
    ensures
        exists|n: int|
            0 <= n < happenings.len() && (#[trigger] happenings[n]).outcome is Ok && committed(
                progress,
                happenings.take(n),
            ) == Ok::<Progress, failure::Failure>(at_step(progress.plan, Step::Remember)),
    decreases happenings.len(),
{
    if happenings.len() > 0 {
        let rest = happenings.drop_first();
        if progress.step == Step::Remember {
            assert(happenings.take(0) =~= Seq::<Happening>::empty());
            assert(progress == at_step(progress.plan, Step::Remember));
            assert(happenings[0].outcome is Ok);
        } else {
            match advanced(progress, happenings[0].outcome, happenings[0].cancelled) {
                Err(_) => {},
                Ok(next) => {
                    lemma_finished_from(next, rest);
                    let n = choose|n: int|
                        0 <= n < rest.len() && (#[trigger] rest[n]).outcome is Ok && committed(
                            next,
                            rest.take(n),
                        ) == Ok::<Progress, failure::Failure>(
                            at_step(next.plan, Step::Remember),
                        );
                    assert(happenings[n + 1] == rest[n]);
                    assert(happenings.take(n + 1).drop_first() =~= rest.take(n));
                    assert(happenings.take(n + 1)[0] == happenings[0]);
                },
            }
        }
    }
}

/// What a cache of known messages holds after some steps of a commit: remembering the
/// message adds it.
pub open spec fn cached_after<A>(
    cache: Set<A>,
    message: A,
    progress: Progress,
    happenings: Seq<Happening>,
) -> Set<A>
    decreases happenings.len(),
{
    if happenings.len() == 0 {
        cache
    } else {
        let next = if progress.step == Step::Remember {
            cache.insert(message)
        } else {
            cache
        };
        match advanced(progress, happenings[0].outcome, happenings[0].cancelled) {
            Err(_) => next,
            Ok(reached) => cached_after(next, message, reached, happenings.drop_first()),
        }
    }
}

proof fn lemma_cache_grows<A>(
    cache: Set<A>,
    message: A,
    progress: Progress,
    happenings: Seq<Happening>,
)
    ensures
        cache.subset_of(cached_after(cache, message, progress, happenings)),
        cached_after(cache, message, progress, happenings).subset_of(cache.insert(message)),
    decreases happenings.len(),
{
    if happenings.len() > 0 {
        let next = if progress.step == Step::Remember {
            cache.insert(message)
        } else {
            cache
        };
        match advanced(progress, happenings[0].outcome, happenings[0].cancelled) {
            Err(_) => {},
            Ok(reached) => {
                lemma_cache_grows(next, message, reached, happenings.drop_first());
            },
        }
    }
}

/// Once its commit has finished, a message is in the cache of known messages, and nothing
/// else was added to it.
pub proof fn law_finished_commits_are_cached<A>(
    cache: Set<A>,
    message: A,
    plan: Plan,
    happenings: Seq<Happening>,
)
    requires
        committed(at_step(plan, Step::Blobs), happenings) == Ok::<Progress, failure::Failure>(
            at_step(plan, Step::Finished),
        ),
    ensures
        cached_after(cache, message, at_step(plan, Step::Blobs), happenings) == cache.insert(
            message,
        ),
{
    lemma_cached_from(cache, message, at_step(plan, Step::Blobs), happenings);
    lemma_cache_grows(cache, message, at_step(plan, Step::Blobs), happenings);
}

proof fn lemma_cached_from<A>(
    cache: Set<A>,
    message: A,
    progress: Progress,
    happenings: Seq<Happening>,
)
    requires
        distance(progress.plan, progress.step) >= 0 || progress.step == Step::Undo,
        committed(progress, happenings) == Ok::<Progress, failure::Failure>(
            at_step(progress.plan, Step::Finished),
        ),
    ensures
        cached_after(cache, message, progress, happenings).contains(message),
    decreases happenings.len(),
{
    if happenings.len() > 0 {
        let rest = happenings.drop_first();
        let next = if progress.step == Step::Remember {
            cache.insert(message)
        } else {
            cache
        };
        match advanced(progress, happenings[0].outcome, happenings[0].cancelled) {
            Err(_) => {},
            Ok(reached) => {
                if progress.step == Step::Remember {
                    lemma_cache_grows(next, message, reached, rest);
                } else {
                    lemma_cached_from(next, message, reached, rest);
                }
            },
        }
    }
}

} // verus!
