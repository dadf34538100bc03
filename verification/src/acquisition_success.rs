//! What an acquisition owes to a server and an archive that answer truly.

use crate::acquisition_laws;
use crate::acquisition_model;
use crate::acquisition_model::{
    Act, AcquisitionProgress, FetchState, Happening, MailboxSnapshot, Next,
    PageState, Retry, Stage, Tally, UidOnlyMessage,
};
use crate::acquisition_runs;
use crate::acquisition_world;
use crate::batches;
use crate::batches::{AcquisitionLimits, InventoryItem};
use crate::failure::{ErrorCode, Failure};
use crate::limits::Duration;
use vstd::prelude::*;

verus! {

/// A step that fails for this reason.
pub open spec fn refused(next: Next, code: ErrorCode) -> bool {
    next is Err && next->Err_0.code == code
}

/// A mailbox whose epoch is valid, and is the expected one where one is expected, is
/// opened; no other is.
pub proof fn law_valid_epoch_is_opened(
    limits: AcquisitionLimits,
    expected: Option<u32>,
    snapshot: MailboxSnapshot,
)
    ensures
        ({
            let next = acquisition_model::step(
                limits,
                expected,
                Stage::Examining,
                Happening::Examined(Ok(snapshot)),
            );
            let valid = snapshot.uid_validity > 0 && snapshot.uid_next > 0;
            let awaited = expected is None || expected == Some(snapshot.uid_validity);
            &&& valid && awaited ==> next == Ok::<(Stage, Act), Failure>(
                (Stage::Opening { snapshot }, Act::BeginEpoch(snapshot.uid_validity)),
            )
            &&& !valid ==> refused(next, ErrorCode::ImapUnexpectedResult)
            &&& valid && !awaited ==> refused(next, ErrorCode::Incompatible)
        }),
{
}

/// A proven checkpoint below UIDNEXT opens the acquisition behind it, and none opens it
/// at the first UID; a checkpoint that UIDNEXT does not reach is refused. Nothing is
/// counted yet, and as many messages are planned as exist.
pub proof fn law_proven_checkpoint_opens(
    limits: AcquisitionLimits,
    expected: Option<u32>,
    snapshot: MailboxSnapshot,
    checkpoint: Option<u32>,
)
    requires
        snapshot.uid_next > 0,
    ensures
        ({
            let next = acquisition_model::step(
                limits,
                expected,
                (Stage::Opening { snapshot }),
                Happening::Opened(Ok(checkpoint)),
            );
            let behind = checkpoint is None || checkpoint->0 <= snapshot.uid_next - 1;
            &&& behind ==> {
                &&& next matches Ok((Stage::Announcing { tally }, act))
                &&& tally.snapshot == snapshot
                &&& tally.full_snapshot <==> checkpoint is None
                &&& tally.high == snapshot.uid_next - 1
                &&& tally.cursor == (if checkpoint is None {
                    1
                } else {
                    checkpoint->0 + 1
                })
                &&& tally.inventoried == 0 && tally.archived == 0 && tally.downloaded == 0
                &&& act == Act::Report(
                    AcquisitionProgress {
                        planned: snapshot.exists as u64,
                        resolved: 0,
                        downloaded: 0,
                    },
                )
            }
            &&& !behind ==> refused(next, ErrorCode::Incompatible)
        }),
{
}

/// Where the proven checkpoint is UIDNEXT less one there is nothing to list: the
/// acquisition announces itself, examines the mailbox once more, and, where the epoch is
/// the same, ends with that checkpoint and nothing inventoried.
pub proof fn law_nothing_new_ends_at_once(
    limits: AcquisitionLimits,
    expected: Option<u32>,
    snapshot: MailboxSnapshot,
    last: MailboxSnapshot,
)
    requires
        snapshot.uid_validity > 0,
        snapshot.uid_next > 0,
        expected is None || expected == Some(snapshot.uid_validity),
        last.uid_validity == snapshot.uid_validity,
        last.uid_next >= snapshot.uid_next,
    ensures
        ({
            let happenings = seq![
                Happening::Examined(Ok(snapshot)),
                Happening::Opened(Ok(Some((snapshot.uid_next - 1) as u32))),
                Happening::Reported(Ok(())),
                Happening::Examined(Ok(last)),
            ];
            &&& acquisition_runs::journal_of(limits, expected, happenings) matches Ok(journal)
            &&& journal.wanted.len() == 0 && journal.stored.len() == 0
            &&& journal.act matches Act::Done(report)
            &&& report.checkpoint == (if snapshot.uid_next > 1 {
                Some((snapshot.uid_next - 1) as u32)
            } else {
                None
            })
            &&& report.inventoried == 0 && report.archived == 0
            &&& report.uid_validity == snapshot.uid_validity
            &&& report.uid_next == snapshot.uid_next
            &&& report.exists == snapshot.exists
        }),
{
    let all = seq![
        Happening::Examined(Ok(snapshot)),
        Happening::Opened(Ok(Some((snapshot.uid_next - 1) as u32))),
        Happening::Reported(Ok(())),
        Happening::Examined(Ok(last)),
    ];
    reveal_with_fuel(acquisition_runs::journal_of, 5);
    assert(all.drop_last() =~= all.take(3));
    assert(all.take(3).drop_last() =~= all.take(2));
    assert(all.take(2).drop_last() =~= all.take(1));
    assert(all.take(1).drop_last() =~= Seq::empty());
}

/// A page that grows from the cursor on within the range and within its bound is taken in
/// whole: its UIDs go to the archive in their order, the tally counts each of them and
/// remembers the last, and the cursor stays where it was.
pub proof fn law_ordered_page_is_verified(
    limits: AcquisitionLimits,
    expected: Option<u32>,
    tally: Tally,
    reconnects: int,
    items: Seq<InventoryItem>,
)
    requires
        0 < items.len() <= limits.page_size,
        tally.inventoried + items.len() <= u64::MAX,
        1 <= tally.cursor,
        forall|i: int|
            0 <= i < items.len() ==> tally.cursor <= (#[trigger] items[i]).uid <= tally.high,
        forall|i: int, j: int|
            0 <= i < j < items.len() ==> (#[trigger] items[i]).uid < (#[trigger] items[j]).uid,
    ensures
        ({
            let next = acquisition_model::step(
                limits,
                expected,
                (Stage::Listing { tally, reconnects }),
                (Happening::Listed { page: Ok(items), cancelled: false }),
            );
            &&& next matches Ok((Stage::Verifying { tally: counted, items: listed }, act))
            &&& listed == items
            &&& counted == (Tally {
                previous: items.last().uid,
                inventoried: (tally.inventoried + items.len()) as u64,
                ..tally
            })
            &&& act matches Act::Verify(uids)
            &&& uids.len() == items.len()
            &&& forall|i: int| 0 <= i < items.len() ==> #[trigger] uids[i] == items[i].uid
        }),
{
    let from = Tally { previous: (tally.cursor - 1) as u32, ..tally };
    acquisition_world::lemma_true_page_is_counted(from, items, 0);
}

/// A page is refused where it is longer than was asked for, where an item lies outside the
/// range, or where an item does not lie above the one before it; one that comes after a
/// cancellation ends the acquisition.
pub proof fn law_disordered_page_is_refused(
    limits: AcquisitionLimits,
    expected: Option<u32>,
    tally: Tally,
    reconnects: int,
    items: Seq<InventoryItem>,
    cancelled: bool,
    i: int,
)
    requires
        tally.cursor >= 1,
        items.len() > limits.page_size || (0 <= i < items.len() && (cancelled || items[i].uid
            < tally.cursor || items[i].uid > tally.high || (i > 0 && items[i].uid <= items[i
            - 1].uid))),
    ensures
        acquisition_model::step(
            limits,
            expected,
            (Stage::Listing { tally, reconnects }),
            (Happening::Listed { page: Ok(items), cancelled }),
        ) is Err,
{
    let from = Tally { previous: (tally.cursor - 1) as u32, ..tally };
    if items.len() <= limits.page_size && acquisition_model::counted_page(from, items, 0) is Ok {
        lemma_counted_page_grows(from, items, 0, i);
    }
}

proof fn lemma_counted_page_grows(tally: Tally, items: Seq<InventoryItem>, from: int, i: int)
    requires
        0 <= from <= i < items.len(),
        acquisition_model::counted_page(tally, items, from) is Ok,
    ensures
        tally.cursor <= items[i].uid <= tally.high,
        i > from ==> items[i].uid > items[i - 1].uid,
    decreases i - from,
{
    let next = Tally {
        previous: items[from].uid,
        inventoried: (tally.inventoried + 1) as u64,
        ..tally
    };
    if i > from {
        lemma_counted_page_grows(next, items, from + 1, i);
        if i == from + 1 {
            assert(acquisition_model::counted_page(next, items, from + 1) is Ok);
        }
    }
}

/// An empty page ends the inventory: the mailbox is examined once more where everything
/// that was listed is archived and, for a full snapshot, as many messages were listed as
/// exist; otherwise the acquisition fails.
pub proof fn law_empty_page_ends_the_inventory(
    limits: AcquisitionLimits,
    expected: Option<u32>,
    tally: Tally,
    reconnects: int,
    cancelled: bool,
)
    ensures
        ({
            let next = acquisition_model::step(
                limits,
                expected,
                (Stage::Listing { tally, reconnects }),
                (Happening::Listed { page: Ok(Seq::empty()), cancelled }),
            );
            let accounted = tally.archived == tally.inventoried && (tally.full_snapshot
                ==> tally.inventoried == tally.snapshot.exists);
            &&& accounted ==> next == Ok::<(Stage, Act), Failure>(
                (Stage::Closing { tally, reconnects: 0 }, Act::Examine),
            )
            &&& !accounted ==> refused(next, ErrorCode::ImapUnexpectedResult)
        }),
{
}

/// The archive's answer decides what is fetched: exactly the messages that it does not
/// hold, once each and in their order; those that it holds are counted as archived.
pub proof fn law_only_missing_messages_are_fetched(
    limits: AcquisitionLimits,
    expected: Option<u32>,
    tally: Tally,
    items: Seq<InventoryItem>,
    flags: Seq<bool>,
    i: int,
)
    requires
        acquisition_laws::sound(Stage::Verifying { tally, items }),
        flags.len() == items.len(),
        0 <= i < items.len(),
        forall|j: int, k: int|
            0 <= j < k < items.len() ==> (#[trigger] items[j]).uid < (#[trigger] items[k]).uid,
    ensures
        ({
            let next = acquisition_model::step(
                limits,
                expected,
                (Stage::Verifying { tally, items }),
                Happening::Verified(Ok(flags)),
            );
            &&& next matches Ok((stage, act))
            &&& {
                let wanted = acquisition_runs::outstanding(stage, act);
                &&& wanted.contains(items[i].uid) <==> !flags[i]
                &&& acquisition_runs::ascending(wanted)
                &&& wanted.len() <= items.len()
                &&& match stage {
                    Stage::Fetching { tally: grown, fetch, .. } => {
                        &&& wanted.len() > 0
                        &&& grown.archived == tally.archived + items.len() - wanted.len()
                        &&& grown.downloaded == tally.downloaded
                        &&& grown.inventoried == tally.inventoried
                        &&& act == Act::Fetch(fetch.requested)
                    },
                    Stage::Reporting { tally: grown, at_end, .. } => {
                        &&& wanted.len() == 0
                        &&& at_end
                        &&& grown.archived == tally.archived + items.len()
                        &&& grown.downloaded == tally.downloaded
                        &&& grown.inventoried == tally.inventoried
                    },
                    _ => false,
                }
            }
        }),
{
    acquisition_laws::lemma_unflagged(items, flags);
    lemma_unflagged_items(items, flags, i);
    let wanted = acquisition_model::unflagged(items, flags);
    let plan = batches::planned(wanted, limits.fetch_batch_size, limits.fetch_batch_bytes);
    batches::law_batches_hold_every_message_once(
        wanted,
        limits.fetch_batch_size,
        limits.fetch_batch_bytes,
    );
    let uids = acquisition_model::uids_of(wanted);
    if uids.contains(items[i].uid) {
        let k = choose|k: int| 0 <= k < uids.len() && uids[k] == items[i].uid;
        assert(wanted[k].uid == items[i].uid);
    }
    if !flags[i] {
        let k = choose|k: int| 0 <= k < wanted.len() && #[trigger] wanted[k] == items[i];
        assert(uids[k] == items[i].uid);
    }
    if plan.len() > 0 {
        batches::law_batches_keep_limits(
            wanted,
            limits.fetch_batch_size,
            limits.fetch_batch_bytes,
            0,
        );
        assert(wanted == plan[0] + batches::joined(plan.drop_first()));
        let page = acquisition_model::fresh_page(plan.drop_first());
        let fetch = acquisition_model::fetch_of(plan[0]);
        assert(acquisition_runs::fetch_queue(page, fetch) =~= uids);
    } else {
        assert(wanted =~= Seq::empty());
        let page = acquisition_model::fresh_page(plan);
        assert(acquisition_runs::page_queue(page) =~= uids);
    }
}

proof fn lemma_unflagged_items(items: Seq<InventoryItem>, flags: Seq<bool>, i: int)
    requires
        flags.len() <= items.len(),
        0 <= i < items.len(),
        forall|j: int, k: int|
            0 <= j < k < items.len() ==> (#[trigger] items[j]).uid < (#[trigger] items[k]).uid,
    ensures
        ({
            let wanted = acquisition_model::unflagged(items, flags);
            &&& forall|k: int|
                0 <= k < wanted.len() ==> (i < flags.len() && flags[i] || i >= flags.len()
                    ==> (#[trigger] wanted[k]).uid != items[i].uid)
            &&& i < flags.len() && !flags[i] ==> exists|k: int|
                0 <= k < wanted.len() && #[trigger] wanted[k] == items[i]
            &&& forall|j: int, k: int|
                0 <= j < k < wanted.len() ==> (#[trigger] wanted[j]).uid < (
                #[trigger] wanted[k]).uid
            &&& forall|k: int|
                0 <= k < wanted.len() ==> flags.len() > 0 && (#[trigger] wanted[k]).uid
                    <= items[flags.len() - 1].uid
        }),
    decreases flags.len(),
{
    if flags.len() > 0 {
        let fewer = flags.drop_last();
        lemma_unflagged_items(items, fewer, i);
        let before = acquisition_model::unflagged(items, fewer);
        let wanted = acquisition_model::unflagged(items, flags);
        let last = flags.len() - 1;
        if i < last && !flags[i] {
            let k = choose|k: int| 0 <= k < before.len() && #[trigger] before[k] == items[i];
            assert(wanted[k] == items[i]);
        }
        if i == last && !flags[i] {
            assert(wanted[before.len() as int] == items[i]);
        }
        if fewer.len() > 0 {
            assert(items[fewer.len() - 1].uid < items[last].uid);
        }
        assert forall|j: int, k: int| 0 <= j < k < wanted.len() implies (#[trigger] wanted[j]).uid
            < (#[trigger] wanted[k]).uid by {
            assert(wanted[j] == before[j]);
            if k < before.len() {
                assert(wanted[k] == before[k]);
            }
        }
        assert forall|k: int| 0 <= k < wanted.len() implies (#[trigger] wanted[k]).uid
            <= items[last].uid by {
            if k < before.len() {
                assert(wanted[k] == before[k]);
            }
        }
        assert forall|k: int|
            0 <= k < wanted.len() && (i < flags.len() && flags[i] || i >= flags.len()) implies (
        #[trigger] wanted[k]).uid != items[i].uid by {
            if k < before.len() {
                assert(wanted[k] == before[k]);
                if i == last {
                    assert(before[k].uid <= items[fewer.len() - 1].uid);
                }
            } else {
                assert(wanted[k] == items[last]);
            }
        }
    }
}

/// Stored messages are counted, all of them as archived and as downloaded, and the
/// progress that is reported then says so.
pub proof fn law_stored_messages_are_reported(
    limits: AcquisitionLimits,
    expected: Option<u32>,
    tally: Tally,
    page: PageState,
    stored: int,
    at_end: bool,
)
    requires
        acquisition_laws::sound(Stage::Storing { tally, page, stored, at_end }),
    ensures
        ({
            let next = acquisition_model::step(
                limits,
                expected,
                (Stage::Storing { tally, page, stored, at_end }),
                Happening::Stored(Ok(())),
            );
            &&& next matches Ok((Stage::Reporting { tally: grown, page: left, at_end: ended }, act))
            &&& ended == at_end
            &&& left == page
            &&& grown.archived == tally.archived + stored
            &&& grown.downloaded == tally.downloaded + stored
            &&& grown.inventoried == tally.inventoried
            &&& grown.previous == tally.previous
            &&& grown.high == tally.high
            &&& grown.snapshot == tally.snapshot
            &&& grown.full_snapshot == tally.full_snapshot
            &&& at_end && tally.previous < u32::MAX ==> grown.cursor == tally.previous + 1
            &&& !at_end ==> grown.cursor == tally.cursor
            &&& act == Act::Report(
                AcquisitionProgress {
                    planned: tally.snapshot.exists as u64,
                    resolved: grown.archived,
                    downloaded: grown.downloaded,
                },
            )
        }),
{
}

/// After the report on a page the next one is asked for from the cursor up to the end of
/// the range; where the cursor is past the range, the inventory ends.
pub proof fn law_next_page_starts_at_the_cursor(
    limits: AcquisitionLimits,
    expected: Option<u32>,
    tally: Tally,
    page: PageState,
)
    requires
        tally.previous < u32::MAX,
    ensures
        ({
            let next = acquisition_model::step(
                limits,
                expected,
                (Stage::Reporting { tally, page, at_end: true }),
                Happening::Reported(Ok(())),
            );
            let first = acquisition_model::step(
                limits,
                expected,
                (Stage::Announcing { tally }),
                Happening::Reported(Ok(())),
            );
            let accounted = tally.archived == tally.inventoried && (tally.full_snapshot
                ==> tally.inventoried == tally.snapshot.exists);
            &&& first == next
            &&& 1 <= tally.cursor <= tally.high ==> next == Ok::<(Stage, Act), Failure>(
                (
                    Stage::Listing { tally, reconnects: 0 },
                    Act::List {
                        cursor: tally.cursor,
                        high: tally.high,
                        page_size: limits.page_size,
                    },
                ),
            )
            &&& tally.cursor > tally.high && accounted ==> next == Ok::<(Stage, Act), Failure>(
                (Stage::Closing { tally, reconnects: 0 }, Act::Examine),
            )
            &&& tally.cursor > tally.high && !accounted ==> refused(
                next,
                ErrorCode::ImapUnexpectedResult,
            )
        }),
{
}

/// The bytes of some messages.
pub open spec fn octets(messages: Seq<UidOnlyMessage>) -> int
    decreases messages.len(),
{
    if messages.len() == 0 {
        0
    } else {
        octets(messages.drop_last()) + messages.last().body@.len()
    }
}

/// What waits to be stored is counted, and within the ceilings of a store.
pub open spec fn storable(page: PageState) -> bool {
    &&& page.pending_bytes == octets(page.pending)
    &&& page.pending.len() <= 32
    &&& page.pending.len() <= 1 || octets(page.pending) <= 33_554_432
}

/// No store is larger than it may be: whatever arrives, at most 32 messages go to the
/// archive at once, and together at most 33554432 bytes unless it is a single one. And
/// none is smaller than it has to be: a store comes early only where the message after it
/// would not fit in.
pub proof fn law_stores_are_bounded(tally: Tally, page: PageState, limits: AcquisitionLimits)
    requires
        acquisition_laws::sound_page(page),
        storable(page),
    ensures
        acquisition_model::proceed(tally, page, limits) matches Ok((stage, act)) ==> match stage {
            Stage::Storing { page: kept, stored, at_end, .. } => {
                &&& act matches Act::Store(messages)
                &&& storable(kept)
                &&& stored == messages.len()
                &&& 0 < messages.len() <= 32
                &&& messages.len() == 1 || octets(messages) <= 33_554_432
                &&& messages + kept.arrived == page.pending + page.arrived
                &&& !at_end ==> kept.arrived.len() > 0 && (messages.len() == 32 || octets(messages)
                    + kept.arrived[0].body@.len() > 33_554_432)
                &&& at_end ==> kept.arrived.len() == 0 && kept.batches.len() == 0
            },
            Stage::Fetching { page: kept, fetch, .. } => {
                &&& storable(kept)
                &&& act == Act::Fetch(fetch.current)
                &&& fetch.current == page.batches[0]
                &&& kept.batches == page.batches.drop_first()
                &&& kept.pending == page.pending + page.arrived
            },
            Stage::Reporting { page: kept, at_end, .. } => at_end && storable(kept)
                && page.pending.len() == 0 && page.arrived.len() == 0 && page.batches.len() == 0,
            _ => false,
        },
{
    lemma_absorbed_is_storable(page, limits);
    acquisition_laws::lemma_absorbed_keeps_page(page, limits);
    acquisition_laws::law_messages_are_stored_in_order(page, limits);
    if let Ok(taken) = acquisition_model::absorbed(page, limits) {
        let n = page.arrived.len() - taken.arrived.len();
        assert(taken.pending + taken.arrived =~= page.pending + page.arrived);
        if taken.arrived.len() == 0 {
            assert(taken.pending =~= page.pending + page.arrived);
        }
    }
}

proof fn lemma_absorbed_is_storable(page: PageState, limits: AcquisitionLimits)
    requires
        acquisition_laws::sound_page(page),
        storable(page),
    ensures
        acquisition_model::absorbed(page, limits) matches Ok(taken) ==> {
            &&& storable(taken)
            &&& taken.arrived.len() > 0 ==> taken.pending.len() == 32 || octets(taken.pending)
                + taken.arrived[0].body@.len() > 33_554_432
        },
    decreases page.arrived.len(),
{
    if page.arrived.len() > 0 {
        let message = page.arrived[0];
        let actual = message.body@.len() as int;
        if actual <= limits.max_literal_bytes && !acquisition_model::must_store(page, actual) {
            let next = PageState {
                requested: page.requested.drop_first(),
                arrived: page.arrived.drop_first(),
                pending: page.pending.push(message),
                pending_bytes: page.pending_bytes + actual,
                ..page
            };
            assert(next.pending.drop_last() =~= page.pending);
            lemma_absorbed_is_storable(next, limits);
        }
    }
}

/// The stage of an operation with another number of new connections.
pub open spec fn retried(stage: Stage, reconnects: int) -> Stage {
    match stage {
        Stage::Listing { tally, .. } => Stage::Listing { tally, reconnects },
        Stage::Fetching { tally, page, fetch } => Stage::Fetching {
            tally,
            page,
            fetch: FetchState { reconnects, ..fetch },
        },
        Stage::Closing { tally, .. } => Stage::Closing { tally, reconnects },
        _ => stage,
    }
}

/// An operation that a new connection may save: how it failed, what is done in it, and
/// how many new connections it has had.
pub open spec fn failing(stage: Stage, act: Act, error: Failure, happening: Happening) -> bool {
    match stage {
        Stage::Listing { tally, .. } => {
            &&& act matches Act::List { cursor, high, .. }
            &&& cursor == tally.cursor && high == tally.high
            &&& happening matches Happening::Listed { page: Err(e), .. } && e == error
        },
        Stage::Fetching { fetch, .. } => {
            &&& act == Act::Fetch(fetch.current)
            &&& happening == Happening::Fetched(Err(error))
        },
        Stage::Closing { .. } => {
            &&& act == Act::Examine
            &&& happening == Happening::Examined(Err(error))
        },
        _ => false,
    }
}

/// How many new connections an operation has had.
pub open spec fn spent(stage: Stage) -> int {
    match stage {
        Stage::Listing { reconnects, .. } => reconnects,
        Stage::Fetching { fetch, .. } => fetch.reconnects,
        Stage::Closing { reconnects, .. } => reconnects,
        _ => 0,
    }
}

/// The tally of such an operation.
pub open spec fn tally_of(stage: Stage) -> Tally {
    match stage {
        Stage::Listing { tally, .. } => tally,
        Stage::Fetching { tally, .. } => tally,
        Stage::Closing { tally, .. } => tally,
        _ => arbitrary(),
    }
}

/// Errors of the network and of time are cured on a new connection, up to three times for
/// one operation, after one, two and four seconds; once the same epoch is proven there,
/// the very operation that failed is done again. The fourth failure ends the acquisition
/// with a network error.
pub proof fn law_lost_connection_is_replaced(
    limits: AcquisitionLimits,
    expected: Option<u32>,
    stage: Stage,
    act: Act,
    error: Failure,
    happening: Happening,
    snapshot: MailboxSnapshot,
)
    requires
        failing(stage, act, error, happening),
        error.code == ErrorCode::NetworkError || error.code == ErrorCode::ConnectionTimeout
            || error.code == ErrorCode::RequestTimeout,
        0 <= spent(stage),
        snapshot.uid_validity == tally_of(stage).snapshot.uid_validity,
        snapshot.uid_next >= tally_of(stage).snapshot.uid_next,
        act matches Act::List { page_size, .. } ==> page_size == limits.page_size,
    ensures
        ({
            let lost = acquisition_model::step(limits, expected, stage, happening);
            &&& spent(stage) >= 3 ==> refused(lost, ErrorCode::NetworkError)
            &&& spent(stage) < 3 ==> {
                &&& lost matches Ok((waiting, due))
                &&& due == (Act::Reconnect {
                    wait: Duration {
                        seconds: if spent(stage) == 0 {
                            1
                        } else if spent(stage) == 1 {
                            2
                        } else {
                            4
                        },
                        nanoseconds: 0,
                    },
                    page_size: limits.page_size,
                })
                &&& acquisition_model::step(
                    limits,
                    expected,
                    waiting,
                    Happening::Reconnected(Ok(())),
                ) matches Ok((proving, Act::Examine))
                &&& acquisition_model::step(
                    limits,
                    expected,
                    proving,
                    Happening::Examined(Ok(snapshot)),
                ) == Ok::<(Stage, Act), Failure>((retried(stage, spent(stage) + 1), act))
            }
        }),
{
}

/// A batch that is too large for the connection is fetched in two halves on a new one, the
/// first half first; a single message that is too large ends the acquisition.
pub proof fn law_large_batch_is_halved(
    limits: AcquisitionLimits,
    expected: Option<u32>,
    tally: Tally,
    page: PageState,
    fetch: FetchState,
    error: Failure,
    snapshot: MailboxSnapshot,
)
    requires
        error.code == ErrorCode::PayloadTooLarge,
        0 <= fetch.reconnects < 3,
        snapshot.uid_validity == tally.snapshot.uid_validity,
        snapshot.uid_next >= tally.snapshot.uid_next,
    ensures
        ({
            let lost = acquisition_model::step(
                limits,
                expected,
                (Stage::Fetching { tally, page, fetch }),
                Happening::Fetched(Err(error)),
            );
            &&& fetch.current.len() <= 1 ==> lost == Err::<(Stage, Act), Failure>(error)
            &&& fetch.current.len() > 1 ==> {
                &&& lost matches Ok((waiting, Act::Reconnect { .. }))
                &&& acquisition_model::step(
                    limits,
                    expected,
                    waiting,
                    Happening::Reconnected(Ok(())),
                ) matches Ok((proving, Act::Examine))
                &&& acquisition_model::step(
                    limits,
                    expected,
                    proving,
                    Happening::Examined(Ok(snapshot)),
                ) matches Ok((Stage::Fetching { tally: t, page: p, fetch: next }, due))
                &&& t == tally && p == page
                &&& due == Act::Fetch(next.current)
                &&& next.requested == fetch.requested && next.messages == fetch.messages
                &&& next.reconnects == fetch.reconnects + 1
                &&& next.pieces.len() == fetch.pieces.len() + 1
                &&& next.pieces.drop_last() == fetch.pieces
                &&& next.current + next.pieces.last() == fetch.current
                &&& next.pieces.last().len() - 1 <= next.current.len() <= next.pieces.last().len()
            }
        }),
{
    let next = acquisition_model::halves(fetch);
    assert(next.pieces.drop_last() =~= fetch.pieces);
    let middle = (fetch.current.len() / 2) as int;
    assert(fetch.current.take(middle) + fetch.current.skip(middle) =~= fetch.current);
}

/// An error that no new connection cures ends the acquisition as it is.
pub proof fn law_other_errors_end_the_acquisition(
    limits: AcquisitionLimits,
    expected: Option<u32>,
    stage: Stage,
    error: Failure,
    cancelled: bool,
)
    requires
        error.code != ErrorCode::NetworkError,
        error.code != ErrorCode::ConnectionTimeout,
        error.code != ErrorCode::RequestTimeout,
    ensures
        ({
            let ended = Err::<(Stage, Act), Failure>(error);
            let step = |happening: Happening|
                acquisition_model::step(limits, expected, stage, happening);
            match stage {
                Stage::Examining => step(Happening::Examined(Err(error))) == ended,
                Stage::Opening { .. } => step(Happening::Opened(Err(error))) == ended,
                Stage::Announcing { .. } => step(Happening::Reported(Err(error))) == ended,
                Stage::Listing { .. } => step((Happening::Listed { page: Err(error), cancelled }))
                    == ended,
                Stage::Verifying { .. } => step(Happening::Verified(Err(error))) == ended,
                Stage::Fetching { .. } => error.code != ErrorCode::PayloadTooLarge ==> step(
                    Happening::Fetched(Err(error)),
                ) == ended,
                Stage::Storing { .. } => step(Happening::Stored(Err(error))) == ended,
                Stage::Reporting { .. } => step(Happening::Reported(Err(error))) == ended,
                Stage::Closing { .. } => step(Happening::Examined(Err(error))) == ended,
                Stage::Reconnecting { .. } => step(Happening::Reconnected(Err(error))) == ended,
                Stage::Reproving { .. } => step(Happening::Examined(Err(error))) == ended,
            }
        }),
{
}

/// A new connection that cannot be had, or on which the mailbox cannot be examined, is one
/// of the three; one that shows another epoch ends the acquisition.
pub proof fn law_new_connections_are_counted(
    limits: AcquisitionLimits,
    expected: Option<u32>,
    tally: Tally,
    retry: Retry,
    reconnects: int,
    last: Failure,
    error: Failure,
    snapshot: MailboxSnapshot,
)
    requires
        error.code == ErrorCode::NetworkError || error.code == ErrorCode::ConnectionTimeout
            || error.code == ErrorCode::RequestTimeout,
        1 <= reconnects,
    ensures
        ({
            let waiting = Stage::Reconnecting { tally, retry, reconnects, last };
            let proving = Stage::Reproving { tally, retry, reconnects, last };
            let unmade = acquisition_model::step(
                limits,
                expected,
                waiting,
                Happening::Reconnected(Err(error)),
            );
            let unproven = acquisition_model::step(
                limits,
                expected,
                proving,
                Happening::Examined(Err(error)),
            );
            let changed = acquisition_model::step(
                limits,
                expected,
                proving,
                Happening::Examined(Ok(snapshot)),
            );
            &&& unmade == unproven
            &&& reconnects >= 3 ==> unmade == Err::<(Stage, Act), Failure>(error)
            &&& reconnects < 3 ==> {
                &&& unmade matches Ok((Stage::Reconnecting { tally: t, retry: r, reconnects: n, .. }, act))
                &&& t == tally && r == retry && n == reconnects + 1
                &&& act matches Act::Reconnect { wait, .. }
                &&& wait.seconds == 2 * reconnects
                &&& wait.nanoseconds == 0
            }
            &&& snapshot.uid_validity != tally.snapshot.uid_validity || snapshot.uid_next
                < tally.snapshot.uid_next ==> refused(changed, ErrorCode::Incompatible)
        }),
{
}

/// The last examination decides: the same epoch, with a UIDNEXT that did not go back, gives
/// the report of the tally; any other is refused.
pub proof fn law_same_epoch_gives_the_report(
    limits: AcquisitionLimits,
    expected: Option<u32>,
    tally: Tally,
    reconnects: int,
    last: MailboxSnapshot,
)
    requires
        tally.high == tally.snapshot.uid_next - 1,
    ensures
        ({
            let next = acquisition_model::step(
                limits,
                expected,
                (Stage::Closing { tally, reconnects }),
                Happening::Examined(Ok(last)),
            );
            let same = last.uid_validity == tally.snapshot.uid_validity && last.uid_next
                >= tally.snapshot.uid_next;
            &&& !same ==> refused(next, ErrorCode::Incompatible)
            &&& same ==> {
                &&& next matches Ok((_, Act::Done(report)))
                &&& report.uid_validity == tally.snapshot.uid_validity
                &&& report.uid_next == tally.snapshot.uid_next
                &&& report.exists == tally.snapshot.exists
                &&& report.inventoried == tally.inventoried
                &&& report.archived == tally.archived
                &&& report.checkpoint == (if tally.snapshot.uid_next == 1 {
                    None
                } else {
                    Some((tally.snapshot.uid_next - 1) as u32)
                })
            }
        }),
{
}

/// What arrives for a piece of a batch goes behind what arrived before: with pieces left
/// the last of them is asked for next, and without any the batch must be complete.
pub proof fn law_pieces_are_put_together(
    limits: AcquisitionLimits,
    expected: Option<u32>,
    tally: Tally,
    page: PageState,
    fetch: FetchState,
    arrived: Seq<UidOnlyMessage>,
)
    ensures
        ({
            let next = acquisition_model::step(
                limits,
                expected,
                (Stage::Fetching { tally, page, fetch }),
                Happening::Fetched(Ok(arrived)),
            );
            let total = fetch.messages.len() + arrived.len();
            &&& fetch.pieces.len() == 0 && total != fetch.requested.len() ==> refused(
                next,
                ErrorCode::ImapUnexpectedResult,
            )
            &&& fetch.pieces.len() > 0 ==> {
                &&& next matches Ok((Stage::Fetching { tally: t, page: p, fetch: f }, act))
                &&& t == tally && p == page
                &&& f.messages == fetch.messages + arrived
                &&& f.current == fetch.pieces[fetch.pieces.len() - 1]
                &&& f.pieces == fetch.pieces.take(fetch.pieces.len() - 1)
                &&& f.requested == fetch.requested
                &&& f.reconnects == fetch.reconnects
                &&& act == Act::Fetch(f.current)
            }
        }),
{
}

/// A message under another UID than the one asked for, or larger than the limit, is never
/// stored: the acquisition fails when its turn comes.
pub proof fn law_wrong_messages_are_not_stored(
    tally: Tally,
    page: PageState,
    limits: AcquisitionLimits,
)
    requires
        page.arrived.len() > 0,
        page.requested.len() == page.arrived.len(),
    ensures
        page.arrived[0].uid != page.requested[0].uid ==> refused(
            acquisition_model::proceed(tally, page, limits),
            ErrorCode::ImapUnexpectedResult,
        ),
        page.arrived[0].uid == page.requested[0].uid && page.arrived[0].body@.len()
            > limits.max_literal_bytes ==> refused(
            acquisition_model::proceed(tally, page, limits),
            ErrorCode::PayloadTooLarge,
        ),
{
}

/// An answer that does not belong to what is due is refused.
pub proof fn law_answers_belong_to_what_is_due(
    limits: AcquisitionLimits,
    expected: Option<u32>,
    stage: Stage,
    happening: Happening,
)
    ensures
        acquisition_model::step(limits, expected, stage, happening) is Ok ==> match happening {
            Happening::Examined(_) => stage is Examining || stage is Closing || stage is Reproving,
            Happening::Opened(_) => stage is Opening,
            Happening::Reported(_) => stage is Announcing || stage is Reporting,
            Happening::Listed { .. } => stage is Listing,
            Happening::Verified(_) => stage is Verifying,
            Happening::Fetched(_) => stage is Fetching,
            Happening::Stored(_) => stage is Storing,
            Happening::Reconnected(_) => stage is Reconnecting,
        },
{
}

/// Why a page ends the acquisition: one that is too long or out of order is an unexpected
/// answer of the server, and one that comes after a cancellation ends it as cancelled; an
/// archive that does not answer for every message of a page is at fault itself.
pub proof fn law_refused_pages_tell_why(
    limits: AcquisitionLimits,
    expected: Option<u32>,
    tally: Tally,
    reconnects: int,
    items: Seq<InventoryItem>,
    cancelled: bool,
    flags: Seq<bool>,
)
    ensures
        ({
            let next = acquisition_model::step(
                limits,
                expected,
                (Stage::Listing { tally, reconnects }),
                (Happening::Listed { page: Ok(items), cancelled }),
            );
            &&& items.len() > limits.page_size ==> refused(next, ErrorCode::ImapUnexpectedResult)
            &&& 0 < items.len() <= limits.page_size && cancelled ==> refused(
                next,
                ErrorCode::InternalError,
            )
            &&& 0 < items.len() <= limits.page_size && !cancelled && tally.cursor >= 1 && (
            items[0].uid < tally.cursor || items[0].uid > tally.high) ==> refused(
                next,
                ErrorCode::ImapUnexpectedResult,
            )
            &&& flags.len() != items.len() ==> refused(
                acquisition_model::step(
                    limits,
                    expected,
                    (Stage::Verifying { tally, items }),
                    Happening::Verified(Ok(flags)),
                ),
                ErrorCode::InternalError,
            )
        }),
{
}

/// An operation that is cut short because its time is up may be cured by a new connection;
/// one that is cancelled may not.
pub proof fn law_expired_operations_are_curable(expired: bool, error: crate::failure::BichonError)
    requires
        call_ensures(crate::acquisition::operation_interruption, (expired,), error),
    ensures
        expired ==> error@.code == ErrorCode::RequestTimeout,
        !expired ==> error@.code == ErrorCode::InternalError,
        acquisition_model::retryable(error@.code) <==> expired,
{
}

} // verus!
