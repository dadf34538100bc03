//! Rebuilding the archive of a mailbox, and of all mailboxes of an account.

use crate::failure;
use crate::failure::{BichonError, Failure};
use vstd::prelude::*;

verus! {

/// What a mailbox is rebuilt from.
#[derive(Clone, Copy, Debug, PartialEq, Eq, Structural)]
pub enum Source {
    /// The whole mailbox.
    Whole,
    /// What a search by date finds; the server lists so many messages.
    ByDate { exists: u32 },
}

/// A step of rebuilding a mailbox.
#[derive(Clone, Copy, Debug, PartialEq, Eq, Structural)]
pub enum RebuildStep {
    /// Keep acquisitions and writers out.
    Lock,
    /// Remove the state of earlier acquisitions.
    CleanUp,
    /// Remove the envelopes.
    DeleteEnvelopes,
    /// Remove the records of attachments.
    DeleteAttachments,
    /// Let acquisitions and writers in again.
    Unlock,
    /// Report that there is nothing to fetch.
    ReportEmpty,
    /// Fetch the messages.
    Fetch,
    /// Remember the highest UID.
    Persist,
    /// Nothing is left to do.
    Finished,
}

/// A rebuild in progress.
#[verifier::ext_equal]
pub ghost struct Rebuilding {
    pub source: Source,
    pub step: RebuildStep,
    pub cause: Option<Failure>,
    pub highest_uid: Option<u32>,
}

/// A rebuild at a step, with nothing gone wrong.
pub open spec fn rebuild_at(
    source: Source,
    step: RebuildStep,
    highest_uid: Option<u32>,
) -> Rebuilding {
    Rebuilding { source, step, cause: None, highest_uid }
}

/// A rebuild that releases its lock and then fails.
pub open spec fn abandoned(source: Source, cause: Failure) -> Rebuilding {
    Rebuilding { source, step: RebuildStep::Unlock, cause: Some(cause), highest_uid: None }
}

/// The step after the lock was released.
pub open spec fn refill(source: Source) -> RebuildStep {
    match source {
        Source::ByDate { exists: 0 } => RebuildStep::ReportEmpty,
        _ => RebuildStep::Fetch,
    }
}

/// What comes after the due step came out this way; fetching brings the highest UID.
pub open spec fn rebuilt(
    state: Rebuilding,
    outcome: Result<Option<u32>, Failure>,
) -> Result<Rebuilding, Failure> {
    let source = state.source;
    match (state.step, outcome) {
        (RebuildStep::Lock, _) => Ok(rebuild_at(source, RebuildStep::CleanUp, None)),
        (RebuildStep::CleanUp, Ok(_)) => Ok(rebuild_at(source, RebuildStep::DeleteEnvelopes, None)),
        (RebuildStep::DeleteEnvelopes, Ok(_)) => Ok(
            rebuild_at(source, RebuildStep::DeleteAttachments, None),
        ),
        (RebuildStep::DeleteAttachments, Ok(_)) => Ok(
            rebuild_at(source, RebuildStep::Unlock, None),
        ),
        (RebuildStep::CleanUp, Err(e)) => Ok(abandoned(source, e)),
        (RebuildStep::DeleteEnvelopes, Err(e)) => Ok(abandoned(source, e)),
        (RebuildStep::DeleteAttachments, Err(e)) => Ok(abandoned(source, e)),
        (RebuildStep::Unlock, _) => match state.cause {
            Some(e) => Err(e),
            None => Ok(rebuild_at(source, refill(source), None)),
        },
        (RebuildStep::ReportEmpty, Ok(_)) => Ok(rebuild_at(source, RebuildStep::Persist, None)),
        (RebuildStep::Fetch, Ok(highest_uid)) => if source == Source::Whole {
            Ok(rebuild_at(source, RebuildStep::Finished, highest_uid))
        } else {
            Ok(rebuild_at(source, RebuildStep::Persist, highest_uid))
        },
        (RebuildStep::Persist, Ok(_)) => Ok(
            rebuild_at(source, RebuildStep::Finished, state.highest_uid),
        ),
        (RebuildStep::Finished, _) => Ok(state),
        (_, Err(e)) => Err(e),
    }
}

/// A rebuild of one mailbox in progress.
#[derive(Debug, PartialEq, Eq)]
pub struct Rebuild {
    source: Source,
    step: RebuildStep,
    cause: Option<BichonError>,
    highest_uid: Option<u32>,
}

/// A failure taken by its view, where there is one.
pub open spec fn seen_error(error: Option<BichonError>) -> Option<Failure> {
    match error {
        Some(e) => Some(e@),
        None => None,
    }
}

impl View for Rebuild {
    type V = Rebuilding;

    closed spec fn view(&self) -> Rebuilding {
        Rebuilding {
            source: self.source,
            step: self.step,
            cause: seen_error(self.cause),
            highest_uid: self.highest_uid,
        }
    }
}

/// The result of a step with its rebuild taken by its view.
pub open spec fn seen_rebuild(result: Result<Rebuild, BichonError>) -> Result<Rebuilding, Failure> {
    match result {
        Ok(rebuild) => Ok(rebuild@),
        Err(e) => Err(e@),
    }
}

impl Rebuild {
    /// Starts a rebuild.
    pub fn start(source: Source) -> (rebuild: Rebuild)
        ensures
            rebuild@ == rebuild_at(source, RebuildStep::Lock, None),
    {
        Rebuild { source, step: RebuildStep::Lock, cause: None, highest_uid: None }
    }

    /// The step that is due.
    pub fn step(&self) -> (step: RebuildStep)
        ensures
            step == self@.step,
    {
        self.step
    }

    /// The highest UID that was fetched.
    pub fn highest_uid(&self) -> (highest_uid: Option<u32>)
        ensures
            highest_uid == self@.highest_uid,
    {
        self.highest_uid
    }

    fn at(source: Source, step: RebuildStep, highest_uid: Option<u32>) -> (rebuild: Rebuild)
        ensures
            rebuild@ == rebuild_at(source, step, highest_uid),
    {
        Rebuild { source, step, cause: None, highest_uid }
    }

    fn abandon(source: Source, cause: BichonError) -> (rebuild: Rebuild)
        ensures
            rebuild@ == abandoned(source, cause@),
    {
        Rebuild { source, step: RebuildStep::Unlock, cause: Some(cause), highest_uid: None }
    }

    /// Goes on after the due step.
    pub fn on_outcome(self, outcome: Result<Option<u32>, BichonError>) -> (result: Result<
        Rebuild,
        BichonError,
    >)
        ensures
            seen_rebuild(result) == rebuilt(self@, failure::judged(outcome)),
    {
        let source = self.source;
        match self.step {
            RebuildStep::Lock => Ok(Rebuild::at(source, RebuildStep::CleanUp, None)),
            RebuildStep::CleanUp => match outcome {
                Ok(_) => Ok(Rebuild::at(source, RebuildStep::DeleteEnvelopes, None)),
                Err(e) => Ok(Rebuild::abandon(source, e)),
            },
            RebuildStep::DeleteEnvelopes => match outcome {
                Ok(_) => Ok(Rebuild::at(source, RebuildStep::DeleteAttachments, None)),
                Err(e) => Ok(Rebuild::abandon(source, e)),
            },
            RebuildStep::DeleteAttachments => match outcome {
                Ok(_) => Ok(Rebuild::at(source, RebuildStep::Unlock, None)),
                Err(e) => Ok(Rebuild::abandon(source, e)),
            },
            RebuildStep::Unlock => match self.cause {
                Some(e) => Err(e),
                None => match source {
                    Source::ByDate { exists: 0 } => Ok(
                        Rebuild::at(source, RebuildStep::ReportEmpty, None),
                    ),
                    _ => Ok(Rebuild::at(source, RebuildStep::Fetch, None)),
                },
            },
            RebuildStep::ReportEmpty => match outcome {
                Ok(_) => Ok(Rebuild::at(source, RebuildStep::Persist, None)),
                Err(e) => Err(e),
            },
            RebuildStep::Fetch => match outcome {
                Ok(highest_uid) => if source == Source::Whole {
                    Ok(Rebuild::at(source, RebuildStep::Finished, highest_uid))
                } else {
                    Ok(Rebuild::at(source, RebuildStep::Persist, highest_uid))
                },
                Err(e) => Err(e),
            },
            RebuildStep::Persist => match outcome {
                Ok(_) => Ok(Rebuild::at(source, RebuildStep::Finished, self.highest_uid)),
                Err(e) => Err(e),
            },
            RebuildStep::Finished => Ok(self),
        }
    }
}

/// Where a rebuild stands after some steps.
pub open spec fn rebuilt_after(
    state: Rebuilding,
    outcomes: Seq<Result<Option<u32>, Failure>>,
) -> Result<Rebuilding, Failure>
    decreases outcomes.len(),
{
    if outcomes.len() == 0 {
        Ok(state)
    } else {
        match rebuilt(state, outcomes[0]) {
            Err(e) => Err(e),
            Ok(next) => rebuilt_after(next, outcomes.drop_first()),
        }
    }
}

/// Steps that need the earlier state removed, and how many come before each.
pub open spec fn position(step: RebuildStep) -> int {
    match step {
        RebuildStep::Lock => 0,
        RebuildStep::CleanUp => 1,
        RebuildStep::DeleteEnvelopes => 2,
        RebuildStep::DeleteAttachments => 3,
        RebuildStep::Unlock => 4,
        RebuildStep::ReportEmpty => 5,
        RebuildStep::Fetch => 5,
        RebuildStep::Persist => 6,
        RebuildStep::Finished => 7,
    }
}

proof fn lemma_progress_from(
    state: Rebuilding,
    outcomes: Seq<Result<Option<u32>, Failure>>,
    reached: Rebuilding,
)
    requires
        rebuilt_after(state, outcomes) == Ok::<Rebuilding, Failure>(reached),
        reached.cause is None,
        reached.step != RebuildStep::Finished,
        state.cause is None || state.step == RebuildStep::Unlock,
    ensures
        state.cause is None,
        outcomes.len() == position(reached.step) - position(state.step),
        forall|i: int|
            0 <= i < outcomes.len() && 1 <= position(state.step) + i <= 3 ==> (
            #[trigger] outcomes[i]) is Ok,
    decreases outcomes.len(),
{
    if outcomes.len() > 0 {
        let rest = outcomes.drop_first();
        match rebuilt(state, outcomes[0]) {
            Err(_) => {},
            Ok(next) => {
                lemma_progress_from(next, rest, reached);
                assert forall|i: int|
                    0 <= i < outcomes.len() && 1 <= position(state.step) + i <= 3 implies (
                #[trigger] outcomes[i]) is Ok by {
                    if i > 0 {
                        assert(rest[i - 1] == outcomes[i]);
                    }
                }
            },
        }
    }
}

/// Nothing of the archive is removed before the state of earlier acquisitions is, and
/// nothing is fetched before both are gone and the lock is released: a step is due, with
/// nothing gone wrong, only after every removal before it succeeded.
pub proof fn law_removals_come_in_order(
    source: Source,
    outcomes: Seq<Result<Option<u32>, Failure>>,
    reached: Rebuilding,
)
    requires
        rebuilt_after(rebuild_at(source, RebuildStep::Lock, None), outcomes) == Ok::<
            Rebuilding,
            Failure,
        >(reached),
        reached.cause is None,
        reached.step != RebuildStep::Finished,
    ensures
        outcomes.len() == position(reached.step),
        forall|i: int| 1 <= i <= 3 && i < outcomes.len() ==> (#[trigger] outcomes[i]) is Ok,
{
    lemma_progress_from(rebuild_at(source, RebuildStep::Lock, None), outcomes, reached);
}

/// A removal that fails releases the lock, and then the rebuild fails for that reason.
pub proof fn law_failed_removal_releases_the_lock(
    state: Rebuilding,
    cause: Failure,
    outcome: Result<Option<u32>, Failure>,
)
    requires
        1 <= position(state.step) <= 3,
    ensures
        rebuilt(state, Err(cause)) == Ok::<Rebuilding, Failure>(abandoned(state.source, cause)),
        rebuilt(abandoned(state.source, cause), outcome) == Err::<Rebuilding, Failure>(cause),
{
}

/// What is due in a walk over the mailboxes of an account.
#[derive(Clone, Copy, Debug, PartialEq, Eq, Structural)]
pub enum WalkStep {
    /// Report that the download was cancelled.
    ReportCancelled,
    /// Report that this mailbox is empty.
    ReportEmpty(usize),
    /// Wait for a permit to fetch this mailbox.
    Permit(usize),
    /// Fetch this mailbox.
    Fetch(usize),
    /// Remember the highest UID of this mailbox.
    Persist(usize, Option<u32>),
    /// Nothing is left to do.
    Finished,
}

/// A walk over the mailboxes of an account in progress.
#[verifier::ext_equal]
pub ghost struct Walking {
    pub by_date: bool,
    pub counts: Seq<u32>,
    pub step: WalkStep,
    pub last_error: Option<Failure>,
}

/// What is due once a mailbox has its turn: a search by date passes empty mailboxes
/// over, and needs a permit for the others.
pub open spec fn turn(by_date: bool, counts: Seq<u32>, at: int, cancelled: bool) -> WalkStep {
    if at >= counts.len() {
        WalkStep::Finished
    } else if cancelled {
        WalkStep::ReportCancelled
    } else if !by_date {
        WalkStep::Fetch(at as usize)
    } else if counts[at] == 0 {
        WalkStep::ReportEmpty(at as usize)
    } else {
        WalkStep::Permit(at as usize)
    }
}

/// A walk at a step; one that has come to its end fails with the last failure.
pub open spec fn walk_at(walk: Walking, step: WalkStep, last_error: Option<Failure>) -> Result<
    Walking,
    Failure,
> {
    match (step, last_error) {
        (WalkStep::Finished, Some(e)) => Err(e),
        _ => Ok(Walking { step, last_error, ..walk }),
    }
}

/// What comes after the due step came out this way; fetching brings the highest UID.
pub open spec fn walked(
    walk: Walking,
    outcome: Result<Option<u32>, Failure>,
    cancelled: bool,
) -> Result<Walking, Failure> {
    match (walk.step, outcome) {
        (WalkStep::ReportCancelled, Ok(_)) => walk_at(walk, WalkStep::Finished, walk.last_error),
        (WalkStep::ReportCancelled, Err(e)) => Err(e),
        (WalkStep::ReportEmpty(at), Ok(_)) => walk_at(
            walk,
            turn(walk.by_date, walk.counts, at + 1, cancelled),
            walk.last_error,
        ),
        (WalkStep::ReportEmpty(_), Err(e)) => Err(e),
        (WalkStep::Permit(at), Ok(_)) => walk_at(walk, WalkStep::Fetch(at), walk.last_error),
        (WalkStep::Permit(at), Err(e)) => walk_at(
            walk,
            turn(walk.by_date, walk.counts, at + 1, cancelled),
            Some(e),
        ),
        (WalkStep::Fetch(at), Ok(highest_uid)) => if walk.by_date {
            walk_at(walk, WalkStep::Persist(at, highest_uid), walk.last_error)
        } else {
            walk_at(walk, turn(walk.by_date, walk.counts, at + 1, cancelled), walk.last_error)
        },
        (WalkStep::Fetch(at), Err(e)) => walk_at(
            walk,
            turn(walk.by_date, walk.counts, at + 1, cancelled),
            Some(e),
        ),
        (WalkStep::Persist(at, _), Ok(_)) => walk_at(
            walk,
            turn(walk.by_date, walk.counts, at + 1, cancelled),
            walk.last_error,
        ),
        (WalkStep::Persist(_, _), Err(e)) => Err(e),
        (WalkStep::Finished, _) => Ok(walk),
    }
}

/// A walk over the mailboxes of an account, which rebuilds them one by one.
#[derive(Debug, PartialEq, Eq)]
pub struct RebuildWalk {
    by_date: bool,
    counts: Vec<u32>,
    step: WalkStep,
    last_error: Option<BichonError>,
}

impl View for RebuildWalk {
    type V = Walking;

    closed spec fn view(&self) -> Walking {
        Walking {
            by_date: self.by_date,
            counts: self.counts@,
            step: self.step,
            last_error: seen_error(self.last_error),
        }
    }
}

/// The result of a step with its walk taken by its view.
pub open spec fn seen_walk(result: Result<RebuildWalk, BichonError>) -> Result<Walking, Failure> {
    match result {
        Ok(walk) => Ok(walk@),
        Err(e) => Err(e@),
    }
}

/// The mailbox of a step is one of those that are walked over.
spec fn on_the_way(step: WalkStep, len: nat) -> bool {
    match step {
        WalkStep::ReportEmpty(at) => at < len,
        WalkStep::Permit(at) => at < len,
        WalkStep::Fetch(at) => at < len,
        WalkStep::Persist(at, _) => at < len,
        _ => true,
    }
}

impl RebuildWalk {
    #[verifier::type_invariant]
    spec fn sound(self) -> bool {
        on_the_way(self.step, self.counts@.len())
    }

    /// What is due after a mailbox, or at first.
    fn next_turn(by_date: bool, counts: &Vec<u32>, before: Option<usize>, cancelled: bool) -> (step:
        WalkStep)
        requires
            before matches Some(at) ==> at < counts@.len(),
        ensures
            step == turn(
                by_date,
                counts@,
                match before {
                    Some(at) => at + 1,
                    None => 0,
                },
                cancelled,
            ),
            on_the_way(step, counts@.len()),
    {
        let len: usize = counts.len();
        let at: usize = match before {
            Some(at) => at + 1,
            None => 0,
        };
        if at >= len {
            WalkStep::Finished
        } else if cancelled {
            WalkStep::ReportCancelled
        } else if !by_date {
            WalkStep::Fetch(at)
        } else if counts[at] == 0 {
            WalkStep::ReportEmpty(at)
        } else {
            WalkStep::Permit(at)
        }
    }

    fn at(
        by_date: bool,
        counts: Vec<u32>,
        step: WalkStep,
        last_error: Option<BichonError>,
    ) -> (result: Result<RebuildWalk, BichonError>)
        requires
            on_the_way(step, counts@.len()),
        ensures
            seen_walk(result) == match (step, seen_error(last_error)) {
                (WalkStep::Finished, Some(e)) => Err::<Walking, Failure>(e),
                _ => Ok(
                    (Walking {
                        by_date,
                        counts: counts@,
                        step,
                        last_error: seen_error(last_error),
                    }),
                ),
            },
    {
        match step {
            WalkStep::Finished => match last_error {
                Some(e) => Err(e),
                None => Ok(RebuildWalk { by_date, counts, step, last_error: None }),
            },
            _ => Ok(RebuildWalk { by_date, counts, step, last_error }),
        }
    }

    /// Starts a walk over mailboxes with so many messages each.
    pub fn start(by_date: bool, counts: Vec<u32>, cancelled: bool) -> (walk: RebuildWalk)
        ensures
            walk@ == (Walking {
                by_date,
                counts: counts@,
                step: turn(by_date, counts@, 0, cancelled),
                last_error: None,
            }),
    {
        let step = RebuildWalk::next_turn(by_date, &counts, None, cancelled);
        RebuildWalk { by_date, counts, step, last_error: None }
    }

    /// What is due.
    pub fn step(&self) -> (step: WalkStep)
        ensures
            step == self@.step,
    {
        self.step
    }

    /// Goes on after the due step. A mailbox that fails does not keep the others from
    /// their turn; the walk fails with the last failure once it has come to its end.
    pub fn on_outcome(self, outcome: Result<Option<u32>, BichonError>, cancelled: bool) -> (result:
        Result<RebuildWalk, BichonError>)
        ensures
            seen_walk(result) == walked(self@, failure::judged(outcome), cancelled),
    {
        proof {
            use_type_invariant(&self);
        }
        let RebuildWalk { by_date, counts, step, last_error } = self;
        match step {
            WalkStep::Finished => Ok(RebuildWalk { by_date, counts, step, last_error }),
            WalkStep::ReportCancelled => match outcome {
                Ok(_) => RebuildWalk::at(by_date, counts, WalkStep::Finished, last_error),
                Err(e) => Err(e),
            },
            WalkStep::ReportEmpty(at) => match outcome {
                Ok(_) => {
                    let next = RebuildWalk::next_turn(by_date, &counts, Some(at), cancelled);
                    RebuildWalk::at(by_date, counts, next, last_error)
                },
                Err(e) => Err(e),
            },
            WalkStep::Permit(at) => match outcome {
                Ok(_) => RebuildWalk::at(by_date, counts, WalkStep::Fetch(at), last_error),
                Err(e) => {
                    let next = RebuildWalk::next_turn(by_date, &counts, Some(at), cancelled);
                    RebuildWalk::at(by_date, counts, next, Some(e))
                },
            },
            WalkStep::Fetch(at) => match outcome {
                Ok(highest_uid) => {
                    let next = if by_date {
                        WalkStep::Persist(at, highest_uid)
                    } else {
                        RebuildWalk::next_turn(by_date, &counts, Some(at), cancelled)
                    };
                    RebuildWalk::at(by_date, counts, next, last_error)
                },
                Err(e) => {
                    let next = RebuildWalk::next_turn(by_date, &counts, Some(at), cancelled);
                    RebuildWalk::at(by_date, counts, next, Some(e))
                },
            },
            WalkStep::Persist(at, _) => match outcome {
                Ok(_) => {
                    let next = RebuildWalk::next_turn(by_date, &counts, Some(at), cancelled);
                    RebuildWalk::at(by_date, counts, next, last_error)
                },
                Err(e) => Err(e),
            },
        }
    }
}

/// A rebuild of whole mailboxes passes none of them over, however many messages the
/// server lists: the list is no proof that a mailbox is empty.
pub proof fn law_whole_rebuild_visits_empty_mailboxes(counts: Seq<u32>, at: int)
    requires
        0 <= at < counts.len() <= usize::MAX,
    ensures
        turn(false, counts, at, false) == WalkStep::Fetch(at as usize),
{
}

/// A mailbox that fails does not keep the next one from its turn.
pub proof fn law_failed_mailbox_is_passed(walk: Walking, at: usize, error: Failure)
    requires
        walk.step == WalkStep::Fetch(at),
        at + 1 < walk.counts.len() <= usize::MAX,
    ensures
        walked(walk, Err(error), false) == Ok::<Walking, Failure>(
            Walking {
                step: turn(walk.by_date, walk.counts, at + 1, false),
                last_error: Some(error),
                ..walk
            },
        ),
{
}

/// A walk that comes to its end without failing never lost a failure: once one is
/// remembered, every step keeps one or ends the walk with a failure.
pub proof fn law_failures_are_not_forgotten(
    walk: Walking,
    outcome: Result<Option<u32>, Failure>,
    cancelled: bool,
)
    requires
        walk.last_error is Some,
        walk.step != WalkStep::Finished,
    ensures
        match walked(walk, outcome, cancelled) {
            Err(_) => true,
            Ok(next) => next.last_error is Some && next.step != WalkStep::Finished,
        },
{
}

} // verus!
