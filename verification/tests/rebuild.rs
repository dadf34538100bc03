use bichon_uidonly::failure::{raise, BichonError, ErrorCode};
use bichon_uidonly::rebuild::{Rebuild, RebuildStep, RebuildWalk, Source, WalkStep};

/// Performs a rebuild; `outcome` answers each step.
fn run_rebuild_sequence(
    source: Source,
    events: &mut Vec<&'static str>,
    mut outcome: impl FnMut(RebuildStep) -> Result<Option<u32>, BichonError>,
) -> Result<Option<u32>, BichonError> {
    let mut rebuild = Rebuild::start(source);
    loop {
        let step = rebuild.step();
        let name = match step {
            RebuildStep::Finished => return Ok(rebuild.highest_uid()),
            RebuildStep::Lock => "lock",
            RebuildStep::CleanUp => "cleanup-ledger",
            RebuildStep::DeleteEnvelopes => "delete-envelope-index",
            RebuildStep::DeleteAttachments => "delete-attachment-index",
            RebuildStep::Unlock => "unlock",
            RebuildStep::ReportEmpty => "report-empty",
            RebuildStep::Fetch => "reacquire",
            RebuildStep::Persist => "persist",
        };
        let answer = outcome(step);
        if answer.is_ok() {
            events.push(name);
        }
        rebuild = rebuild.on_outcome(answer)?;
    }
}

#[test]
fn rebuild_sequence_cleans_ledger_before_indexes_then_reacquires() {
    let mut events = Vec::new();
    let result = run_rebuild_sequence(Source::Whole, &mut events, |step| {
        Ok(match step {
            RebuildStep::Fetch => Some(77),
            _ => None,
        })
    })
    .unwrap();
    assert_eq!(result, Some(77));
    assert_eq!(
        events[1..],
        [
            "cleanup-ledger",
            "delete-envelope-index",
            "delete-attachment-index",
            "unlock",
            "reacquire"
        ]
    );
}

#[test]
fn rebuild_cleanup_failure_aborts_before_canonical_deletion() {
    let mut events = Vec::new();
    let error = run_rebuild_sequence(Source::Whole, &mut events, |step| match step {
        RebuildStep::CleanUp => Err(raise(
            ErrorCode::InternalError,
            "synthetic ledger cleanup failure",
        )),
        _ => Ok(None),
    })
    .unwrap_err();
    assert!(error.message.contains("synthetic ledger cleanup failure"));
    assert_eq!(events[1..], ["unlock"]);
}

#[test]
fn a_dated_rebuild_of_an_empty_mailbox_fetches_nothing() {
    let mut events = Vec::new();
    let result =
        run_rebuild_sequence(Source::ByDate { exists: 0 }, &mut events, |_| Ok(None)).unwrap();
    assert_eq!(result, None);
    assert_eq!(events[4..], ["unlock", "report-empty", "persist"]);

    let mut events = Vec::new();
    let result = run_rebuild_sequence(Source::ByDate { exists: 1 }, &mut events, |step| {
        Ok(match step {
            RebuildStep::Fetch => Some(5),
            _ => None,
        })
    })
    .unwrap();
    assert_eq!(result, Some(5));
    assert_eq!(events[4..], ["unlock", "reacquire", "persist"]);
}

#[test]
fn a_failed_removal_releases_the_lock_and_fails() {
    for failing in [RebuildStep::DeleteEnvelopes, RebuildStep::DeleteAttachments] {
        let mut events = Vec::new();
        let error = run_rebuild_sequence(Source::Whole, &mut events, |step| {
            if step == failing {
                Err(raise(ErrorCode::InternalError, "synthetic"))
            } else {
                Ok(None)
            }
        })
        .unwrap_err();
        assert_eq!(error.message, "synthetic");
        assert_eq!(*events.last().unwrap(), "unlock");
        assert!(!events.contains(&"reacquire"));
    }
}

#[test]
fn a_walk_visits_every_mailbox_and_fails_with_the_last_failure() {
    let mut walk = RebuildWalk::start(false, vec![0, 3, 0], false);
    let mut fetched = Vec::new();
    let error = loop {
        let outcome = match walk.step() {
            WalkStep::Fetch(at) => {
                fetched.push(at);
                if at < 2 {
                    Err(raise(ErrorCode::NetworkError, if at == 0 { "first" } else { "second" }))
                } else {
                    Ok(Some(1))
                }
            }
            step => panic!("unexpected step {step:?}"),
        };
        match walk.on_outcome(outcome, false) {
            Ok(next) => walk = next,
            Err(error) => break error,
        }
    };
    assert_eq!(fetched, [0, 1, 2]);
    assert_eq!(error.message, "second");
}

#[test]
fn a_dated_walk_passes_empty_mailboxes_over() {
    let mut walk = RebuildWalk::start(true, vec![0, 3], false);
    let mut steps = Vec::new();
    while walk.step() != WalkStep::Finished {
        steps.push(walk.step());
        let outcome = match walk.step() {
            WalkStep::Fetch(_) => Ok(Some(9)),
            _ => Ok(None),
        };
        walk = walk.on_outcome(outcome, false).unwrap();
    }
    assert_eq!(
        steps,
        [
            WalkStep::ReportEmpty(0),
            WalkStep::Permit(1),
            WalkStep::Fetch(1),
            WalkStep::Persist(1, Some(9)),
        ]
    );

    let walk = RebuildWalk::start(true, vec![3], false);
    let refused = walk
        .on_outcome(Err(raise(ErrorCode::RequestTimeout, "no permit")), false)
        .unwrap_err();
    assert_eq!(refused.message, "no permit");
}

#[test]
fn a_cancelled_walk_reports_and_ends() {
    let walk = RebuildWalk::start(false, vec![1, 1], false);
    let walk = walk.on_outcome(Ok(None), true).unwrap();
    assert_eq!(walk.step(), WalkStep::ReportCancelled);
    let walk = walk.on_outcome(Ok(None), true).unwrap();
    assert_eq!(walk.step(), WalkStep::Finished);
}
