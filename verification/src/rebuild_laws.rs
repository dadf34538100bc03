//! What a rebuild owes: every step in its order, and every mailbox its turn.

use crate::failure::Failure;
use crate::rebuild;
use crate::rebuild::{RebuildStep, Rebuilding, Source, WalkStep, Walking};
use vstd::prelude::*;

verus! {

/// A rebuild in which nothing goes wrong takes its steps in one order: it locks, removes
/// the state of earlier acquisitions, the envelopes and the attachments, unlocks, and
/// fetches. The highest UID that was fetched is remembered where messages were searched by
/// date, and it is the rebuild's result; an empty search fetches nothing and forgets the
/// highest UID.
pub proof fn law_rebuild_succeeds(source: Source, highest_uid: Option<u32>, n: int)
    requires
        0 <= n <= 7,
    ensures
        ({
            let fetched = Ok::<Option<u32>, Failure>(highest_uid);
            let good = Ok::<Option<u32>, Failure>(None);
            let outcomes = seq![good, good, good, good, good, fetched, good];
            let steps = match source {
                Source::Whole => seq![
                    RebuildStep::Lock,
                    RebuildStep::CleanUp,
                    RebuildStep::DeleteEnvelopes,
                    RebuildStep::DeleteAttachments,
                    RebuildStep::Unlock,
                    RebuildStep::Fetch,
                    RebuildStep::Finished,
                    RebuildStep::Finished,
                ],
                Source::ByDate { exists } => seq![
                    RebuildStep::Lock,
                    RebuildStep::CleanUp,
                    RebuildStep::DeleteEnvelopes,
                    RebuildStep::DeleteAttachments,
                    RebuildStep::Unlock,
                    if exists == 0 {
                        RebuildStep::ReportEmpty
                    } else {
                        RebuildStep::Fetch
                    },
                    RebuildStep::Persist,
                    RebuildStep::Finished,
                ],
            };
            &&& rebuild::rebuilt_after(
                rebuild::rebuild_at(source, RebuildStep::Lock, None),
                outcomes.take(n),
            ) matches Ok(reached)
            &&& reached.step == steps[n]
            &&& reached.source == source
            &&& reached.cause is None
            &&& n >= 6 ==> reached.highest_uid == (match source {
                Source::ByDate { exists: 0 } => None,
                _ => highest_uid,
            })
        }),
{
    let fetched = Ok::<Option<u32>, Failure>(highest_uid);
    let good = Ok::<Option<u32>, Failure>(None);
    let outcomes = seq![good, good, good, good, good, fetched, good];
    let given = outcomes.take(n);
    reveal_with_fuel(rebuild::rebuilt_after, 9);
    if n > 0 {
        assert(given.drop_first() =~= outcomes.subrange(1, n));
        if n > 1 {
            assert(outcomes.subrange(1, n).drop_first() =~= outcomes.subrange(2, n));
            if n > 2 {
                assert(outcomes.subrange(2, n).drop_first() =~= outcomes.subrange(3, n));
                if n > 3 {
                    assert(outcomes.subrange(3, n).drop_first() =~= outcomes.subrange(4, n));
                    if n > 4 {
                        assert(outcomes.subrange(4, n).drop_first() =~= outcomes.subrange(5, n));
                        if n > 5 {
                            assert(outcomes.subrange(5, n).drop_first() =~= outcomes.subrange(
                                6,
                                n,
                            ));
                            if n > 6 {
                                assert(outcomes.subrange(6, n).drop_first() =~= Seq::empty());
                            }
                        }
                    }
                }
            }
        }
    }
}

/// A rebuild that fails after its removals fails at once, with the failure of the step.
pub proof fn law_failed_refill_ends_the_rebuild(state: Rebuilding, error: Failure)
    requires
        state.step == RebuildStep::Fetch || state.step == RebuildStep::ReportEmpty || state.step
            == RebuildStep::Persist,
    ensures
        rebuild::rebuilt(state, Err(error)) == Err::<Rebuilding, Failure>(error),
{
}

/// The turn of a mailbox is due, or, behind the last one, the end of the walk.
pub open spec fn has_turn(walk: Walking, at: int) -> bool {
    if at >= walk.counts.len() {
        walk.step == WalkStep::Finished
    } else if walk.by_date && walk.counts[at] == 0 {
        walk.step == WalkStep::ReportEmpty(at as usize)
    } else if walk.by_date {
        walk.step == WalkStep::Permit(at as usize)
    } else {
        walk.step == WalkStep::Fetch(at as usize)
    }
}

/// A walk starts with the first mailbox, unless it is cancelled before.
pub proof fn law_walk_starts_with_the_first_mailbox(by_date: bool, counts: Seq<u32>)
    requires
        counts.len() <= usize::MAX,
    ensures
        has_turn(
            Walking {
                by_date,
                counts,
                step: rebuild::turn(by_date, counts, 0, false),
                last_error: None,
            },
            0,
        ),
        counts.len() > 0 ==> rebuild::turn(by_date, counts, 0, true) == WalkStep::ReportCancelled,
        counts.len() == 0 ==> rebuild::turn(by_date, counts, 0, true) == WalkStep::Finished,
{
}

/// What becomes of the mailbox whose turn it is. With a permit it is fetched; the highest
/// UID of a search by date is remembered then. Once it is done with, whether well or not,
/// the turn of the next mailbox is due, and a failure to fetch is kept in mind; behind the
/// last mailbox the walk ends, with the last failure where there was one.
pub proof fn law_every_mailbox_is_followed_by_the_next(
    walk: Walking,
    at: usize,
    highest_uid: Option<u32>,
    error: Failure,
)
    requires
        at < walk.counts.len() <= usize::MAX,
    ensures
        ({
            let good = Ok::<Option<u32>, Failure>(highest_uid);
            let bad = Err::<Option<u32>, Failure>(error);
            let after = |outcome: Result<Option<u32>, Failure>| rebuild::walked(walk, outcome, false);
            match walk.step {
                WalkStep::Permit(i) => i == at ==> {
                    &&& after(good) == Ok::<Walking, Failure>(
                        Walking { step: WalkStep::Fetch(at), ..walk },
                    )
                    &&& moves_on(walk, after(bad), at + 1, Some(error))
                },
                WalkStep::Fetch(i) => i == at ==> {
                    &&& walk.by_date ==> after(good) == Ok::<Walking, Failure>(
                        Walking { step: WalkStep::Persist(at, highest_uid), ..walk },
                    )
                    &&& !walk.by_date ==> moves_on(walk, after(good), at + 1, walk.last_error)
                    &&& moves_on(walk, after(bad), at + 1, Some(error))
                },
                WalkStep::Persist(i, _) => i == at ==> {
                    &&& moves_on(walk, after(good), at + 1, walk.last_error)
                    &&& after(bad) == Err::<Walking, Failure>(error)
                },
                WalkStep::ReportEmpty(i) => i == at ==> {
                    &&& moves_on(walk, after(good), at + 1, walk.last_error)
                    &&& after(bad) == Err::<Walking, Failure>(error)
                },
                _ => true,
            }
        }),
{
}

/// The walk goes on with the turn of a mailbox and this failure in mind, or ends with it.
pub open spec fn moves_on(
    walk: Walking,
    next: Result<Walking, Failure>,
    at: int,
    last_error: Option<Failure>,
) -> bool {
    if at >= walk.counts.len() && last_error is Some {
        next == Err::<Walking, Failure>(last_error->0)
    } else {
        &&& next is Ok
        &&& has_turn(next->Ok_0, at)
        &&& next->Ok_0.counts == walk.counts
        &&& next->Ok_0.by_date == walk.by_date
        &&& next->Ok_0.last_error == last_error
    }
}

/// A walk that is cancelled when a mailbox is done with reports so instead of giving the
/// next one its turn, and ends after that report.
pub proof fn law_cancelled_walk_ends(walk: Walking, at: usize, highest_uid: Option<u32>)
    requires
        at + 1 < walk.counts.len() <= usize::MAX,
        (walk.step == WalkStep::Fetch(at) && !walk.by_date) || walk.step == WalkStep::Persist(
            at,
            highest_uid,
        ) || walk.step == WalkStep::ReportEmpty(at),
    ensures
        ({
            &&& rebuild::walked(walk, Ok(highest_uid), true) == Ok::<Walking, Failure>(
                Walking { step: WalkStep::ReportCancelled, ..walk },
            )
            &&& rebuild::walked(
                Walking { step: WalkStep::ReportCancelled, ..walk },
                Ok(highest_uid),
                true,
            ) == (match walk.last_error {
                Some(e) => Err::<Walking, Failure>(e),
                None => Ok(Walking { step: WalkStep::Finished, ..walk }),
            })
        }),
{
}

/// Where an uncancelled walk over some mailboxes stands after some outcomes.
pub open spec fn walk_after(
    by_date: bool,
    counts: Seq<u32>,
    outcomes: Seq<Result<Option<u32>, Failure>>,
) -> Result<Walking, Failure>
    decreases outcomes.len(),
{
    if outcomes.len() == 0 {
        Ok(
            Walking {
                by_date,
                counts,
                step: rebuild::turn(by_date, counts, 0, false),
                last_error: None,
            },
        )
    } else {
        match walk_after(by_date, counts, outcomes.drop_last()) {
            Err(e) => Err(e),
            Ok(walk) => rebuild::walked(walk, outcomes.last(), false),
        }
    }
}

/// After some of the outcomes, fetching this mailbox was due, and it went well.
pub open spec fn fetched_within(
    by_date: bool,
    counts: Seq<u32>,
    outcomes: Seq<Result<Option<u32>, Failure>>,
    at: int,
) -> bool {
    exists|n: int|
        0 <= n < outcomes.len() && (#[trigger] outcomes[n]) is Ok && fetches(
            walk_after(by_date, counts, outcomes.take(n)),
            at,
        )
}

pub open spec fn fetches(walk: Result<Walking, Failure>, at: int) -> bool {
    walk is Ok && walk->Ok_0.step == WalkStep::Fetch(at as usize)
}

/// The mailboxes before this one are done with.
spec fn reached(walk: Walking) -> int {
    match walk.step {
        WalkStep::ReportCancelled => 0,
        WalkStep::ReportEmpty(at) => at as int,
        WalkStep::Permit(at) => at as int,
        WalkStep::Fetch(at) => at as int,
        WalkStep::Persist(at, _) => at + 1,
        WalkStep::Finished => walk.counts.len() as int,
    }
}

proof fn lemma_walk_fetches_all_before(
    by_date: bool,
    counts: Seq<u32>,
    outcomes: Seq<Result<Option<u32>, Failure>>,
    at: int,
)
    requires
        counts.len() <= usize::MAX,
    ensures
        walk_after(by_date, counts, outcomes) matches Ok(walk) ==> {
            &&& walk.counts == counts
            &&& walk.by_date == by_date
            &&& walk.step != WalkStep::ReportCancelled
            &&& 0 <= reached(walk) <= counts.len()
            &&& walk.step is Persist ==> by_date
            &&& walk.step matches WalkStep::ReportEmpty(i) ==> by_date && i < counts.len()
                && counts[i as int] == 0
            &&& walk.step matches WalkStep::Permit(i) ==> i < counts.len()
            &&& walk.step matches WalkStep::Fetch(i) ==> i < counts.len()
            &&& walk.step matches WalkStep::Persist(i, _) ==> i < counts.len()
            &&& walk.last_error is None && 0 <= at < reached(walk) && (!by_date || counts[at] > 0)
                ==> fetched_within(by_date, counts, outcomes, at)
        },
    decreases outcomes.len(),
{
    if outcomes.len() > 0 {
        let fewer = outcomes.drop_last();
        lemma_walk_fetches_all_before(by_date, counts, fewer, at);
        if let Ok(before) = walk_after(by_date, counts, fewer) {
            if fetched_within(by_date, counts, fewer, at) {
                let n = choose|n: int|
                    0 <= n < fewer.len() && (#[trigger] fewer[n]) is Ok && fetches(
                        walk_after(by_date, counts, fewer.take(n)),
                        at,
                    );
                assert(fewer.take(n) =~= outcomes.take(n));
                assert(outcomes[n] == fewer[n]);
                assert(fetched_within(by_date, counts, outcomes, at));
            }
            if before.step == WalkStep::Fetch(at as usize) && outcomes.last() is Ok {
                let n = outcomes.len() - 1;
                assert(outcomes.take(n) =~= fewer);
                assert(outcomes[n] is Ok);
                assert(fetches(walk_after(by_date, counts, outcomes.take(n)), at));
                assert(fetched_within(by_date, counts, outcomes, at));
            }
        }
    }
}

/// A walk that is not cancelled and ends in success has fetched, and fetched well, every
/// mailbox with messages; one that does not search by date has fetched every mailbox.
pub proof fn law_finished_walk_has_fetched_all(
    by_date: bool,
    counts: Seq<u32>,
    outcomes: Seq<Result<Option<u32>, Failure>>,
    at: int,
)
    requires
        counts.len() <= usize::MAX,
        walk_after(by_date, counts, outcomes) matches Ok(walk) && walk.step == WalkStep::Finished,
        0 <= at < counts.len(),
        !by_date || counts[at] > 0,
    ensures
        fetched_within(by_date, counts, outcomes, at),
{
    lemma_walk_fetches_all_before(by_date, counts, outcomes, at);
    lemma_finished_walk_kept_no_failure(by_date, counts, outcomes);
}

proof fn lemma_finished_walk_kept_no_failure(
    by_date: bool,
    counts: Seq<u32>,
    outcomes: Seq<Result<Option<u32>, Failure>>,
)
    ensures
        walk_after(by_date, counts, outcomes) matches Ok(walk) ==> walk.step == WalkStep::Finished
            ==> walk.last_error is None,
    decreases outcomes.len(),
{
    if outcomes.len() > 0 {
        lemma_finished_walk_kept_no_failure(by_date, counts, outcomes.drop_last());
    }
}

/// A walk in which everything goes well is never refused and comes to its end: three
/// outcomes for each mailbox are always enough.
pub proof fn law_good_walk_ends(by_date: bool, counts: Seq<u32>, outcomes: Seq<Result<Option<u32>, Failure>>)
    requires
        counts.len() <= usize::MAX,
        forall|i: int| 0 <= i < outcomes.len() ==> (#[trigger] outcomes[i]) is Ok,
    ensures
        ({
            &&& walk_after(by_date, counts, outcomes) matches Ok(walk)
            &&& walk.last_error is None
            &&& outcomes.len() >= 3 * counts.len() ==> walk.step == WalkStep::Finished
        }),
    decreases outcomes.len(),
{
    lemma_good_walk(by_date, counts, outcomes);
}

proof fn lemma_good_walk(by_date: bool, counts: Seq<u32>, outcomes: Seq<Result<Option<u32>, Failure>>)
    requires
        counts.len() <= usize::MAX,
        forall|i: int| 0 <= i < outcomes.len() ==> (#[trigger] outcomes[i]) is Ok,
    ensures
        ({
            &&& walk_after(by_date, counts, outcomes) matches Ok(walk)
            &&& walk.last_error is None
            &&& walk.counts == counts
            &&& walk.by_date == by_date
            &&& match walk.step {
                WalkStep::ReportCancelled => false,
                WalkStep::ReportEmpty(i) => outcomes.len() <= 3 * i && i < counts.len(),
                WalkStep::Permit(i) => outcomes.len() <= 3 * i && i < counts.len(),
                WalkStep::Fetch(i) => outcomes.len() <= 3 * i + 1 && i < counts.len(),
                WalkStep::Persist(i, _) => outcomes.len() <= 3 * i + 2 && i < counts.len(),
                WalkStep::Finished => true,
            }
        }),
    decreases outcomes.len(),
{
    if outcomes.len() > 0 {
        let fewer = outcomes.drop_last();
        assert forall|i: int| 0 <= i < fewer.len() implies (#[trigger] fewer[i]) is Ok by {
            assert(fewer[i] == outcomes[i]);
        }
        lemma_good_walk(by_date, counts, fewer);
        assert(outcomes.last() is Ok);
    }
}

} // verus!
