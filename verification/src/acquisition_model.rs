//! The acquisition of one mailbox as a state machine, and what holds of it.

use crate::batches;
use crate::batches::{
    AcquisitionLimits, InventoryItem, UIDONLY_PROJECTION_BATCH_BYTES,
    UIDONLY_PROJECTION_BATCH_MESSAGES,
};
use crate::failure;
use crate::failure::ErrorCode;
use crate::limits::Duration;
use vstd::prelude::*;

verus! {

/// The boundary of a mailbox as `EXAMINE` reports it.
#[derive(Clone, Copy, Debug, PartialEq, Eq, Structural)]
pub struct MailboxSnapshot {
    pub exists: u32,
    pub uid_validity: u32,
    pub uid_next: u32,
}

/// A message with its exact octets.
#[derive(Debug, PartialEq, Eq)]
pub struct UidOnlyMessage {
    pub uid: u32,
    pub body: Vec<u8>,
}

/// How far an acquisition has come.
#[derive(Clone, Copy, Debug, PartialEq, Eq, Structural)]
pub struct AcquisitionProgress {
    pub planned: u64,
    pub resolved: u64,
    pub downloaded: u64,
}

/// The proof that a mailbox was acquired up to a checkpoint.
#[derive(Clone, Copy, Debug, PartialEq, Eq, Structural)]
pub struct AcquisitionReport {
    pub uid_validity: u32,
    pub uid_next: u32,
    pub exists: u32,
    pub checkpoint: Option<u32>,
    pub inventoried: u64,
    pub archived: u64,
}

/// How often a failed operation is retried on a new connection.
pub const MAX_UIDONLY_RECONNECTS: u32 = 3;

/// What is counted over the whole acquisition.
#[derive(Clone, Copy, Debug, PartialEq, Eq, Structural)]
pub struct Tally {
    pub snapshot: MailboxSnapshot,
    pub full_snapshot: bool,
    pub high: u32,
    pub cursor: u32,
    pub previous: u32,
    pub inventoried: u64,
    pub archived: u64,
    pub downloaded: u64,
}

/// What is in flight of one page: batches to fetch, messages that arrived with what
/// was asked for, and messages that wait to be stored.
#[verifier::ext_equal]
pub ghost struct PageState {
    pub batches: Seq<Seq<InventoryItem>>,
    pub requested: Seq<InventoryItem>,
    pub arrived: Seq<UidOnlyMessage>,
    pub pending: Seq<UidOnlyMessage>,
    pub pending_bytes: int,
}

/// One batch that is being fetched, in pieces where it was too large.
#[verifier::ext_equal]
pub ghost struct FetchState {
    pub requested: Seq<InventoryItem>,
    pub current: Seq<InventoryItem>,
    pub pieces: Seq<Seq<InventoryItem>>,
    pub messages: Seq<UidOnlyMessage>,
    pub reconnects: int,
}

/// The operation that goes on after a new connection.
#[verifier::ext_equal]
pub ghost enum Retry {
    List,
    Fetch { page: PageState, fetch: FetchState, split: bool },
    Close,
}

/// What the acquisition waits for.
#[verifier::ext_equal]
pub ghost enum Stage {
    Examining,
    Opening { snapshot: MailboxSnapshot },
    Announcing { tally: Tally },
    Listing { tally: Tally, reconnects: int },
    Verifying { tally: Tally, items: Seq<InventoryItem> },
    Fetching { tally: Tally, page: PageState, fetch: FetchState },
    Storing { tally: Tally, page: PageState, stored: int, at_end: bool },
    Reporting { tally: Tally, page: PageState, at_end: bool },
    Closing { tally: Tally, reconnects: int },
    Reconnecting { tally: Tally, retry: Retry, reconnects: int, last: failure::Failure },
    Reproving { tally: Tally, retry: Retry, reconnects: int, last: failure::Failure },
}

/// What is to be done next.
#[verifier::ext_equal]
pub ghost enum Act {
    Examine,
    BeginEpoch(u32),
    Report(AcquisitionProgress),
    List { cursor: u32, high: u32, page_size: u32 },
    Verify(Seq<u32>),
    Fetch(Seq<InventoryItem>),
    Store(Seq<UidOnlyMessage>),
    Reconnect { wait: Duration, page_size: u32 },
    Done(AcquisitionReport),
}

/// What came of it.
#[verifier::ext_equal]
pub ghost enum Happening {
    Examined(Result<MailboxSnapshot, failure::Failure>),
    Opened(Result<Option<u32>, failure::Failure>),
    Reported(Result<(), failure::Failure>),
    Listed { page: Result<Seq<InventoryItem>, failure::Failure>, cancelled: bool },
    Verified(Result<Seq<bool>, failure::Failure>),
    Fetched(Result<Seq<UidOnlyMessage>, failure::Failure>),
    Stored(Result<(), failure::Failure>),
    Reconnected(Result<(), failure::Failure>),
}

pub type Next = Result<(Stage, Act), failure::Failure>;

pub open spec fn refuse(code: ErrorCode, message: Seq<char>) -> Next {
    Err(failure::failure(code, message))
}

/// An error that a new connection may cure.
pub open spec fn retryable(code: ErrorCode) -> bool {
    code is NetworkError || code is ConnectionTimeout || code is RequestTimeout
}

pub open spec fn progress_of(tally: Tally) -> AcquisitionProgress {
    AcquisitionProgress {
        planned: tally.snapshot.exists as u64,
        resolved: tally.archived,
        downloaded: tally.downloaded,
    }
}

pub open spec fn list(tally: Tally, limits: AcquisitionLimits, reconnects: int) -> (Stage, Act) {
    (
        Stage::Listing { tally, reconnects },
        Act::List { cursor: tally.cursor, high: tally.high, page_size: limits.page_size },
    )
}

/// The end of the inventory: everything that it listed is archived, and for a full
/// snapshot everything that exists was listed.
pub open spec fn conclude(tally: Tally) -> Next {
    if (tally.full_snapshot && tally.inventoried != tally.snapshot.exists) || tally.archived
        != tally.inventoried {
        refuse(
            ErrorCode::ImapUnexpectedResult,
            "UIDONLY inventory did not reconcile the EXAMINE message count"@,
        )
    } else {
        Ok((Stage::Closing { tally, reconnects: 0 }, Act::Examine))
    }
}

/// The next page, or the end of the inventory.
pub open spec fn next_page(tally: Tally, limits: AcquisitionLimits) -> Next {
    if tally.high > 0 && tally.cursor <= tally.high {
        Ok(list(tally, limits, 0))
    } else {
        conclude(tally)
    }
}

/// The first examination of the mailbox.
pub open spec fn on_examined(snapshot: MailboxSnapshot, expected: Option<u32>) -> Next {
    if snapshot.uid_validity == 0 || snapshot.uid_next == 0 {
        refuse(
            ErrorCode::ImapUnexpectedResult,
            "UIDONLY EXAMINE omitted a valid UIDVALIDITY or UIDNEXT"@,
        )
    } else if expected is Some && expected->0 != snapshot.uid_validity {
        refuse(
            ErrorCode::Incompatible,
            "UIDVALIDITY changed between mailbox discovery and UIDONLY EXAMINE"@,
        )
    } else {
        Ok((Stage::Opening { snapshot }, Act::BeginEpoch(snapshot.uid_validity)))
    }
}

/// The UID after another; the greatest stays.
pub open spec fn uid_after(uid: u32) -> u32 {
    if uid == u32::MAX {
        uid
    } else {
        (uid + 1) as u32
    }
}

/// The archive has opened the epoch; it may have a proven checkpoint.
pub open spec fn on_opened(snapshot: MailboxSnapshot, resume_after: Option<u32>) -> Next {
    let high = (snapshot.uid_next - 1) as u32;
    if resume_after is Some && resume_after->0 > high {
        refuse(
            ErrorCode::Incompatible,
            "UIDONLY UIDNEXT moved behind the proven checkpoint"@,
        )
    } else {
        let tally = Tally {
            snapshot,
            full_snapshot: resume_after is None,
            high,
            cursor: match resume_after {
                Some(uid) => uid_after(uid),
                None => 1,
            },
            previous: 0,
            inventoried: 0,
            archived: 0,
            downloaded: 0,
        };
        Ok((Stage::Announcing { tally }, Act::Report(progress_of(tally))))
    }
}

/// Counts the items of a page from `from` on: each above the one before and in the
/// fixed range.
pub open spec fn counted_page(
    tally: Tally,
    items: Seq<InventoryItem>,
    from: int,
) -> Result<Tally, failure::Failure>
    decreases items.len() - from,
{
    if from >= items.len() {
        Ok(tally)
    } else if items[from].uid < tally.cursor || items[from].uid > tally.high || items[from].uid
        <= tally.previous {
        Err(
            failure::failure(
                ErrorCode::ImapUnexpectedResult,
                "UIDONLY inventory was duplicate, unordered, or outside the fixed range"@,
            ),
        )
    } else if tally.inventoried == u64::MAX {
        Err(
            failure::failure(
                ErrorCode::PayloadTooLarge,
                "UIDONLY inventory count overflow"@,
            ),
        )
    } else {
        counted_page(
            Tally {
                previous: items[from].uid,
                inventoried: (tally.inventoried + 1) as u64,
                ..tally
            },
            items,
            from + 1,
        )
    }
}

pub open spec fn uids_of(items: Seq<InventoryItem>) -> Seq<u32> {
    items.map_values(|item: InventoryItem| item.uid)
}

/// A page of the inventory arrived.
pub open spec fn on_listed(
    tally: Tally,
    items: Seq<InventoryItem>,
    cancelled: bool,
    limits: AcquisitionLimits,
) -> Next {
    if items.len() > limits.page_size {
        refuse(
            ErrorCode::ImapUnexpectedResult,
            "UIDONLY inventory page exceeded its requested bound"@,
        )
    } else if items.len() == 0 {
        conclude(tally)
    } else if cancelled {
        refuse(ErrorCode::InternalError, "UIDONLY acquisition cancelled"@)
    } else {
        match counted_page(Tally { previous: (tally.cursor - 1) as u32, ..tally }, items, 0) {
            Err(e) => Err(e),
            Ok(counted) => Ok(
                (Stage::Verifying { tally: counted, items }, Act::Verify(uids_of(items))),
            ),
        }
    }
}

/// How many flags are set.
pub open spec fn set_flags(flags: Seq<bool>) -> nat
    decreases flags.len(),
{
    if flags.len() == 0 {
        0
    } else {
        set_flags(flags.drop_last()) + if flags.last() {
            1nat
        } else {
            0
        }
    }
}

/// The items whose flag is not set, in order.
pub open spec fn unflagged(items: Seq<InventoryItem>, flags: Seq<bool>) -> Seq<InventoryItem>
    decreases flags.len(),
{
    if flags.len() == 0 {
        Seq::empty()
    } else {
        let before = unflagged(items, flags.drop_last());
        if flags.last() {
            before
        } else {
            before.push(items[flags.len() - 1])
        }
    }
}

/// A page with nothing in flight but batches to fetch.
pub open spec fn fresh_page(fetches: Seq<Seq<InventoryItem>>) -> PageState {
    PageState {
        batches: fetches,
        requested: Seq::empty(),
        arrived: Seq::empty(),
        pending: Seq::empty(),
        pending_bytes: 0,
    }
}

/// The archive says which messages it already holds.
pub open spec fn on_verified(
    tally: Tally,
    items: Seq<InventoryItem>,
    flags: Seq<bool>,
    limits: AcquisitionLimits,
) -> Next {
    if flags.len() != items.len() {
        refuse(
            ErrorCode::InternalError,
            "UIDONLY receipt lookup returned the wrong result count"@,
        )
    } else {
        proceed(
            Tally { archived: (tally.archived + set_flags(flags)) as u64, ..tally },
            fresh_page(
                batches::planned(
                    unflagged(items, flags),
                    limits.fetch_batch_size,
                    limits.fetch_batch_bytes,
                ),
            ),
            limits,
        )
    }
}

/// The messages that wait must be stored before one of `actual` bytes joins them.
pub open spec fn must_store(page: PageState, actual: int) -> bool {
    page.pending.len() > 0 && (page.pending.len() >= UIDONLY_PROJECTION_BATCH_MESSAGES
        || batches::capped(page.pending_bytes + actual) > UIDONLY_PROJECTION_BATCH_BYTES)
}

/// Takes in messages that arrived, up to one that must wait for a store.
pub open spec fn absorbed(page: PageState, limits: AcquisitionLimits) -> Result<
    PageState,
    failure::Failure,
>
    decreases page.arrived.len(),
{
    if page.arrived.len() == 0 {
        Ok(page)
    } else {
        let message = page.arrived[0];
        let actual = message.body@.len() as int;
        if message.uid != page.requested[0].uid {
            Err(
                failure::failure(
                    ErrorCode::ImapUnexpectedResult,
                    "UIDONLY exact fetch returned the wrong UID"@,
                ),
            )
        } else if actual > limits.max_literal_bytes {
            Err(
                failure::failure(
                    ErrorCode::PayloadTooLarge,
                    "UIDONLY exact body exceeded its pre-read budget"@,
                ),
            )
        } else if must_store(page, actual) {
            Ok(page)
        } else {
            absorbed(
                PageState {
                    requested: page.requested.drop_first(),
                    arrived: page.arrived.drop_first(),
                    pending: page.pending.push(message),
                    pending_bytes: page.pending_bytes + actual,
                    ..page
                },
                limits,
            )
        }
    }
}

pub open spec fn without_pending(page: PageState) -> PageState {
    PageState { pending: Seq::empty(), pending_bytes: 0, ..page }
}

/// The first piece of a batch is the whole batch.
pub open spec fn fetch_of(batch: Seq<InventoryItem>) -> FetchState {
    FetchState {
        requested: batch,
        current: batch,
        pieces: Seq::empty(),
        messages: Seq::empty(),
        reconnects: 0,
    }
}

/// The page is done: the cursor moves past it.
pub open spec fn page_done(tally: Tally, page: PageState) -> (Stage, Act) {
    let moved = Tally { cursor: uid_after(tally.previous), ..tally };
    (Stage::Reporting { tally: moved, page, at_end: true }, Act::Report(progress_of(moved)))
}

/// Goes on with a page: stores, fetches, or ends it.
pub open spec fn proceed(tally: Tally, page: PageState, limits: AcquisitionLimits) -> Next {
    match absorbed(page, limits) {
        Err(e) => Err(e),
        Ok(taken) => if taken.arrived.len() > 0 {
            Ok(
                (
                    Stage::Storing {
                        tally,
                        page: without_pending(taken),
                        stored: taken.pending.len() as int,
                        at_end: false,
                    },
                    Act::Store(taken.pending),
                ),
            )
        } else if taken.batches.len() > 0 {
            Ok(
                (
                    Stage::Fetching {
                        tally,
                        page: PageState { batches: taken.batches.drop_first(), ..taken },
                        fetch: fetch_of(taken.batches[0]),
                    },
                    Act::Fetch(taken.batches[0]),
                ),
            )
        } else if taken.pending.len() > 0 {
            Ok(
                (
                    Stage::Storing {
                        tally,
                        page: without_pending(taken),
                        stored: taken.pending.len() as int,
                        at_end: true,
                    },
                    Act::Store(taken.pending),
                ),
            )
        } else {
            Ok(page_done(tally, taken))
        },
    }
}

/// A piece of a batch arrived.
pub open spec fn on_fetched(
    tally: Tally,
    page: PageState,
    fetch: FetchState,
    arrived: Seq<UidOnlyMessage>,
    limits: AcquisitionLimits,
) -> Next {
    let messages = fetch.messages + arrived;
    if fetch.pieces.len() > 0 {
        Ok(
            (
                Stage::Fetching {
                    tally,
                    page,
                    fetch: FetchState {
                        current: fetch.pieces.last(),
                        pieces: fetch.pieces.drop_last(),
                        messages,
                        ..fetch
                    },
                },
                Act::Fetch(fetch.pieces.last()),
            ),
        )
    } else if messages.len() != fetch.requested.len() {
        refuse(
            ErrorCode::ImapUnexpectedResult,
            "UIDONLY body batch returned the wrong result count"@,
        )
    } else {
        proceed(
            tally,
            PageState { requested: fetch.requested, arrived: messages, ..page },
            limits,
        )
    }
}

/// Messages were stored and verified.
pub open spec fn on_stored(tally: Tally, page: PageState, stored: int, at_end: bool) -> (
    Stage,
    Act,
) {
    let grown = Tally {
        archived: (tally.archived + stored) as u64,
        downloaded: (tally.downloaded + stored) as u64,
        ..tally
    };
    if at_end {
        page_done(grown, page)
    } else {
        (Stage::Reporting { tally: grown, page, at_end: false }, Act::Report(progress_of(grown)))
    }
}

pub open spec fn on_reported(
    tally: Tally,
    page: PageState,
    at_end: bool,
    limits: AcquisitionLimits,
) -> Next {
    if !at_end {
        proceed(tally, page, limits)
    } else if tally.previous == u32::MAX {
        conclude(tally)
    } else {
        next_page(tally, limits)
    }
}

/// The final examination: the epoch must not have changed.
pub open spec fn on_closed(tally: Tally, snapshot: MailboxSnapshot) -> Next {
    if snapshot.uid_validity != tally.snapshot.uid_validity || snapshot.uid_next
        < tally.snapshot.uid_next {
        refuse(
            ErrorCode::Incompatible,
            "UIDONLY mailbox epoch changed during acquisition"@,
        )
    } else {
        Ok(
            (
                Stage::Closing { tally, reconnects: 0 },
                Act::Done(
                    AcquisitionReport {
                        uid_validity: tally.snapshot.uid_validity,
                        uid_next: tally.snapshot.uid_next,
                        exists: tally.snapshot.exists,
                        checkpoint: if tally.high > 0 {
                            Some(tally.high)
                        } else {
                            None
                        },
                        inventoried: tally.inventoried,
                        archived: tally.archived,
                    },
                ),
            ),
        )
    }
}

/// The wait before the n-th new connection: one second, then twice as long each time.
pub open spec fn wait_before(reconnects: int) -> Duration {
    Duration {
        seconds: if reconnects <= 1 {
            1
        } else if reconnects == 2 {
            2
        } else {
            4
        },
        nanoseconds: 0,
    }
}

/// Another connection, unless there were enough.
pub open spec fn recover(
    tally: Tally,
    retry: Retry,
    reconnects: int,
    last: failure::Failure,
    limits: AcquisitionLimits,
) -> Next {
    if reconnects >= MAX_UIDONLY_RECONNECTS {
        Err(last)
    } else {
        Ok(
            (
                Stage::Reconnecting { tally, retry, reconnects: reconnects + 1, last },
                Act::Reconnect {
                    wait: wait_before(reconnects + 1),
                    page_size: limits.page_size,
                },
            ),
        )
    }
}

pub open spec fn recovery_failure() -> failure::Failure {
    failure::failure(ErrorCode::NetworkError, "UIDONLY transport recovery failed"@)
}

/// The two halves of a piece that was too large.
pub open spec fn halves(fetch: FetchState) -> FetchState {
    let middle = (fetch.current.len() / 2) as int;
    FetchState {
        current: fetch.current.take(middle),
        pieces: fetch.pieces.push(fetch.current.skip(middle)),
        ..fetch
    }
}

/// The operation goes on after the epoch was proven again.
pub open spec fn resumed(
    tally: Tally,
    retry: Retry,
    reconnects: int,
    limits: AcquisitionLimits,
) -> (Stage, Act) {
    match retry {
        Retry::List => list(tally, limits, reconnects),
        Retry::Close => (Stage::Closing { tally, reconnects }, Act::Examine),
        Retry::Fetch { page, fetch, split } => {
            let next = FetchState {
                reconnects,
                ..if split {
                    halves(fetch)
                } else {
                    fetch
                }
            };
            (Stage::Fetching { tally, page, fetch: next }, Act::Fetch(next.current))
        },
    }
}

/// The mailbox was examined on a new connection.
pub open spec fn on_reproven(
    tally: Tally,
    retry: Retry,
    reconnects: int,
    last: failure::Failure,
    examined: Result<MailboxSnapshot, failure::Failure>,
    limits: AcquisitionLimits,
) -> Next {
    match examined {
        Ok(snapshot) => if snapshot.uid_validity == tally.snapshot.uid_validity
            && snapshot.uid_next >= tally.snapshot.uid_next {
            Ok(resumed(tally, retry, reconnects, limits))
        } else {
            refuse(
                ErrorCode::Incompatible,
                "UIDONLY mailbox epoch changed while reconnecting"@,
            )
        },
        Err(e) => if retryable(e.code) {
            recover(tally, retry, reconnects, e, limits)
        } else {
            Err(e)
        },
    }
}

/// How the acquisition goes on.
pub open spec fn step(
    limits: AcquisitionLimits,
    expected: Option<u32>,
    stage: Stage,
    happening: Happening,
) -> Next {
    match (stage, happening) {
        (Stage::Examining, Happening::Examined(Ok(snapshot))) => on_examined(snapshot, expected),
        (Stage::Examining, Happening::Examined(Err(e))) => Err(e),
        (Stage::Opening { snapshot }, Happening::Opened(Ok(resume_after))) => on_opened(
            snapshot,
            resume_after,
        ),
        (Stage::Opening { .. }, Happening::Opened(Err(e))) => Err(e),
        (Stage::Announcing { tally }, Happening::Reported(Ok(()))) => next_page(tally, limits),
        (Stage::Announcing { .. }, Happening::Reported(Err(e))) => Err(e),
        (Stage::Listing { tally, .. }, Happening::Listed { page: Ok(items), cancelled }) =>
            on_listed(tally, items, cancelled, limits),
        (Stage::Listing { tally, reconnects }, Happening::Listed { page: Err(e), .. }) =>
            if retryable(e.code) {
                recover(tally, Retry::List, reconnects, recovery_failure(), limits)
            } else {
                Err(e)
            },
        (Stage::Verifying { tally, items }, Happening::Verified(Ok(flags))) => on_verified(
            tally,
            items,
            flags,
            limits,
        ),
        (Stage::Verifying { .. }, Happening::Verified(Err(e))) => Err(e),
        (Stage::Fetching { tally, page, fetch }, Happening::Fetched(Ok(arrived))) => on_fetched(
            tally,
            page,
            fetch,
            arrived,
            limits,
        ),
        (Stage::Fetching { tally, page, fetch }, Happening::Fetched(Err(e))) => if retryable(
            e.code,
        ) {
            recover(
                tally,
                Retry::Fetch { page, fetch, split: false },
                fetch.reconnects,
                recovery_failure(),
                limits,
            )
        } else if e.code is PayloadTooLarge && fetch.current.len() > 1 {
            recover(
                tally,
                Retry::Fetch { page, fetch, split: true },
                fetch.reconnects,
                recovery_failure(),
                limits,
            )
        } else {
            Err(e)
        },
        (Stage::Storing { tally, page, stored, at_end }, Happening::Stored(Ok(()))) => Ok(
            on_stored(tally, page, stored, at_end),
        ),
        (Stage::Storing { .. }, Happening::Stored(Err(e))) => Err(e),
        (Stage::Reporting { tally, page, at_end }, Happening::Reported(Ok(()))) => on_reported(
            tally,
            page,
            at_end,
            limits,
        ),
        (Stage::Reporting { .. }, Happening::Reported(Err(e))) => Err(e),
        (Stage::Closing { tally, .. }, Happening::Examined(Ok(snapshot))) => on_closed(
            tally,
            snapshot,
        ),
        (Stage::Closing { tally, reconnects }, Happening::Examined(Err(e))) => if retryable(
            e.code,
        ) {
            recover(tally, Retry::Close, reconnects, recovery_failure(), limits)
        } else {
            Err(e)
        },
        (
            Stage::Reconnecting { tally, retry, reconnects, last },
            Happening::Reconnected(Ok(())),
        ) => Ok((Stage::Reproving { tally, retry, reconnects, last }, Act::Examine)),
        (
            Stage::Reconnecting { tally, retry, reconnects, .. },
            Happening::Reconnected(Err(e)),
        ) => if retryable(e.code) {
            recover(tally, retry, reconnects, e, limits)
        } else {
            Err(e)
        },
        (
            Stage::Reproving { tally, retry, reconnects, last },
            Happening::Examined(examined),
        ) => on_reproven(tally, retry, reconnects, last, examined, limits),
        _ => refuse(ErrorCode::InternalError, "UIDONLY acquisition is out of step"@),
    }
}

} // verus!
