//! What holds of an acquisition from its start to its report.

use crate::acquisition_laws;
use crate::acquisition_model;
use crate::acquisition_model::{Act, FetchState, Happening, PageState, Retry, Stage, Tally, UidOnlyMessage};
use crate::batches;
use crate::batches::{AcquisitionLimits, InventoryItem};
use crate::failure::Failure;
use vstd::prelude::*;

verus! {

/// The UIDs of some messages.
pub open spec fn message_uids(messages: Seq<UidOnlyMessage>) -> Seq<u32> {
    messages.map_values(|message: UidOnlyMessage| message.uid)
}

/// The UIDs of a page that are not stored yet, in the order in which they will be, with
/// these messages first and these items next.
pub open spec fn queued(
    messages: Seq<UidOnlyMessage>,
    items: Seq<InventoryItem>,
    fetches: Seq<Seq<InventoryItem>>,
) -> Seq<u32> {
    message_uids(messages) + acquisition_model::uids_of(items) + acquisition_model::uids_of(
        batches::joined(fetches),
    )
}

/// The UIDs of a page that are not stored yet.
pub open spec fn page_queue(page: PageState) -> Seq<u32> {
    queued(page.pending, page.requested, page.batches)
}

/// The UIDs of a page that are not stored yet while one of its batches is fetched.
pub open spec fn fetch_queue(page: PageState, fetch: FetchState) -> Seq<u32> {
    queued(page.pending, fetch.requested, page.batches)
}

/// The UIDs that are to be stored and are not yet, in order.
pub open spec fn outstanding(stage: Stage, act: Act) -> Seq<u32> {
    match stage {
        Stage::Fetching { page, fetch, .. } => fetch_queue(page, fetch),
        Stage::Storing { page, .. } => match act {
            Act::Store(messages) => queued(messages, page.requested, page.batches),
            _ => Seq::empty(),
        },
        Stage::Reporting { page, .. } => page_queue(page),
        Stage::Reconnecting { retry: Retry::Fetch { page, fetch, .. }, .. } => fetch_queue(
            page,
            fetch,
        ),
        Stage::Reproving { retry: Retry::Fetch { page, fetch, .. }, .. } => fetch_queue(page, fetch),
        _ => Seq::empty(),
    }
}

/// An acquisition with what it has done so far: the UIDs that were listed and not held
/// by the archive, and those of the messages that the archive has stored.
#[verifier::ext_equal]
pub ghost struct Journal {
    pub stage: Stage,
    pub act: Act,
    pub wanted: Seq<u32>,
    pub stored: Seq<u32>,
}

/// The UIDs that are found to be wanting.
pub open spec fn newly_wanted(stage: Stage, happening: Happening) -> Seq<u32> {
    match (stage, happening) {
        (Stage::Verifying { items, .. }, Happening::Verified(Ok(flags))) => {
            acquisition_model::uids_of(acquisition_model::unflagged(items, flags))
        },
        _ => Seq::empty(),
    }
}

/// The UIDs that are now stored.
pub open spec fn newly_stored(stage: Stage, act: Act, happening: Happening) -> Seq<u32> {
    match (stage, act, happening) {
        (Stage::Storing { .. }, Act::Store(messages), Happening::Stored(Ok(_))) => message_uids(
            messages,
        ),
        _ => Seq::empty(),
    }
}

/// The journal after one more happening.
pub open spec fn noted(
    limits: AcquisitionLimits,
    expected: Option<u32>,
    journal: Journal,
    happening: Happening,
) -> Result<Journal, Failure> {
    match acquisition_model::step(limits, expected, journal.stage, happening) {
        Err(e) => Err(e),
        Ok((stage, act)) => Ok(
            Journal {
                stage,
                act,
                wanted: journal.wanted + newly_wanted(journal.stage, happening),
                stored: journal.stored + newly_stored(journal.stage, journal.act, happening),
            },
        ),
    }
}

/// The journal of an acquisition that starts.
pub open spec fn blank() -> Journal {
    Journal {
        stage: Stage::Examining,
        act: Act::Examine,
        wanted: Seq::empty(),
        stored: Seq::empty(),
    }
}

/// The journal of an acquisition after some happenings.
pub open spec fn journal_of(
    limits: AcquisitionLimits,
    expected: Option<u32>,
    happenings: Seq<Happening>,
) -> Result<Journal, Failure>
    decreases happenings.len(),
{
    if happenings.len() == 0 {
        Ok(blank())
    } else {
        match journal_of(limits, expected, happenings.drop_last()) {
            Err(e) => Err(e),
            Ok(journal) => noted(limits, expected, journal, happenings.last()),
        }
    }
}

/// UIDs that grow from each to the next.
pub open spec fn ascending(uids: Seq<u32>) -> bool {
    forall|i: int, j: int| 0 <= i < j < uids.len() ==> #[trigger] uids[i] < #[trigger] uids[j]
}

pub open spec fn all_below(uids: Seq<u32>, bound: int) -> bool {
    forall|i: int| 0 <= i < uids.len() ==> (#[trigger] uids[i]) < bound
}

/// What has been wanted so far lies below what may still be listed.
pub open spec fn passed(stage: Stage, wanted: Seq<u32>) -> bool {
    match stage {
        Stage::Examining => wanted.len() == 0,
        Stage::Opening { .. } => wanted.len() == 0,
        Stage::Announcing { tally } => all_below(wanted, tally.cursor as int),
        Stage::Listing { tally, .. } => all_below(wanted, tally.cursor as int),
        Stage::Verifying { tally, items } => {
            &&& items.len() > 0
            &&& all_below(wanted, tally.cursor as int)
            &&& listed_above(tally, items)
        },
        Stage::Fetching { tally, .. } => all_below(wanted, tally.previous + 1),
        Stage::Storing { tally, .. } => all_below(wanted, tally.previous + 1),
        Stage::Reporting { tally, at_end, .. } => {
            &&& all_below(wanted, tally.previous + 1)
            &&& at_end ==> tally.cursor == acquisition_model::uid_after(tally.previous)
        },
        Stage::Closing { .. } => true,
        Stage::Reconnecting { tally, retry, .. } => passed_retry(tally, retry, wanted),
        Stage::Reproving { tally, retry, .. } => passed_retry(tally, retry, wanted),
    }
}

pub open spec fn passed_retry(tally: Tally, retry: Retry, wanted: Seq<u32>) -> bool {
    match retry {
        Retry::List => all_below(wanted, tally.cursor as int),
        Retry::Fetch { .. } => all_below(wanted, tally.previous + 1),
        Retry::Close => true,
    }
}

/// The items of a page grow from the cursor to the last that was counted.
pub open spec fn listed_above(tally: Tally, items: Seq<InventoryItem>) -> bool {
    &&& forall|i: int|
        0 <= i < items.len() ==> tally.cursor <= (#[trigger] items[i]).uid <= tally.previous
    &&& forall|i: int, j: int|
        0 <= i < j < items.len() ==> (#[trigger] items[i]).uid < (#[trigger] items[j]).uid
}

/// What every journal satisfies: whatever is wanted is stored or outstanding, in order
/// and once each.
pub open spec fn kept(journal: Journal) -> bool {
    &&& acquisition_laws::sound(journal.stage)
    &&& journal.stage is Storing ==> journal.act is Store
    &&& journal.wanted == journal.stored + outstanding(journal.stage, journal.act)
    &&& ascending(journal.wanted)
    &&& passed(journal.stage, journal.wanted)
}

proof fn lemma_absorbed_keeps_queue(page: PageState, limits: AcquisitionLimits)
    requires
        acquisition_laws::sound_page(page),
    ensures
        acquisition_model::absorbed(page, limits) matches Ok(taken) ==> page_queue(taken)
            == page_queue(page),
    decreases page.arrived.len(),
{
    if page.arrived.len() > 0 {
        let message = page.arrived[0];
        let actual = message.body@.len() as int;
        if message.uid == page.requested[0].uid && actual <= limits.max_literal_bytes
            && !acquisition_model::must_store(page, actual) {
            let next = PageState {
                requested: page.requested.drop_first(),
                arrived: page.arrived.drop_first(),
                pending: page.pending.push(message),
                pending_bytes: page.pending_bytes + actual,
                ..page
            };
            acquisition_laws::lemma_absorbed_keeps_page(page, limits);
            assert(page_queue(next) =~= page_queue(page));
            lemma_absorbed_keeps_queue(next, limits);
        }
    }
}

proof fn lemma_proceed_keeps_queue(tally: Tally, page: PageState, limits: AcquisitionLimits)
    requires
        acquisition_laws::sound_page(page),
    ensures
        acquisition_model::proceed(tally, page, limits) matches Ok((stage, act)) ==> {
            &&& outstanding(stage, act) == page_queue(page)
            &&& stage is Storing ==> act is Store
            &&& match stage {
                Stage::Fetching { tally: t, .. } => t == tally,
                Stage::Storing { tally: t, .. } => t == tally,
                Stage::Reporting { tally: t, at_end, .. } => at_end && t == (Tally {
                    cursor: acquisition_model::uid_after(tally.previous),
                    ..tally
                }),
                _ => false,
            }
        },
{
    lemma_absorbed_keeps_queue(page, limits);
    acquisition_laws::lemma_absorbed_keeps_page(page, limits);
    if let Ok(taken) = acquisition_model::absorbed(page, limits) {
        if taken.arrived.len() == 0 && taken.batches.len() > 0 {
            let batch = taken.batches[0];
            let rest = taken.batches.drop_first();
            assert(batches::joined(taken.batches) == batch + batches::joined(rest));
            assert(acquisition_model::uids_of(batch + batches::joined(rest))
                =~= acquisition_model::uids_of(batch) + acquisition_model::uids_of(
                batches::joined(rest),
            ));
            let next = PageState { batches: rest, ..taken };
            assert(fetch_queue(next, acquisition_model::fetch_of(batch)) =~= page_queue(taken));
        }
    }
}

proof fn lemma_unflagged_ascends(tally: Tally, items: Seq<InventoryItem>, flags: Seq<bool>)
    requires
        listed_above(tally, items),
        flags.len() <= items.len(),
    ensures
        ({
            let rest = acquisition_model::uids_of(acquisition_model::unflagged(items, flags));
            &&& ascending(rest)
            &&& forall|i: int| 0 <= i < rest.len() ==> tally.cursor <= #[trigger] rest[i]
            &&& all_below(rest, tally.previous + 1)
            &&& flags.len() < items.len() ==> all_below(rest, items[flags.len() as int].uid as int)
        }),
    decreases flags.len(),
{
    if flags.len() > 0 {
        let n = flags.len() - 1;
        lemma_unflagged_ascends(tally, items, flags.drop_last());
        let before = acquisition_model::unflagged(items, flags.drop_last());
        let uids = acquisition_model::uids_of(before);
        let rest = acquisition_model::uids_of(acquisition_model::unflagged(items, flags));
        if !flags.last() {
            assert(rest =~= uids.push(items[n].uid));
        } else {
            assert(rest == uids);
        }
        if flags.len() < items.len() {
            assert(items[n].uid < items[flags.len() as int].uid);
        }
    }
}

proof fn lemma_counted_page_is_above(tally: Tally, items: Seq<InventoryItem>, from: int)
    requires
        0 <= from <= items.len(),
    ensures
        acquisition_model::counted_page(tally, items, from) matches Ok(counted) ==> {
            &&& counted.cursor == tally.cursor
            &&& counted.previous >= tally.previous
            &&& forall|i: int|
                from <= i < items.len() ==> tally.cursor <= (#[trigger] items[i]).uid
                    && tally.previous < items[i].uid <= counted.previous
            &&& forall|i: int, j: int|
                from <= i < j < items.len() ==> (#[trigger] items[i]).uid < (
                #[trigger] items[j]).uid
        },
    decreases items.len() - from,
{
    if from < items.len() && tally.inventoried < u64::MAX && !(items[from].uid < tally.cursor
        || items[from].uid > tally.high || items[from].uid <= tally.previous) {
        let next = Tally {
            previous: items[from].uid,
            inventoried: (tally.inventoried + 1) as u64,
            ..tally
        };
        lemma_counted_page_is_above(next, items, from + 1);
    }
}

/// A page that came to its end leaves nothing outstanding.
proof fn lemma_empty_page_queue(page: PageState)
    requires
        acquisition_laws::sound_page(page),
        acquisition_laws::in_page(page) == 0,
    ensures
        page_queue(page) == Seq::<u32>::empty(),
{
    assert(page_queue(page) =~= Seq::<u32>::empty());
}

proof fn lemma_step_keeps_journal(
    limits: AcquisitionLimits,
    expected: Option<u32>,
    journal: Journal,
    happening: Happening,
)
    requires
        kept(journal),
    ensures
        noted(limits, expected, journal, happening) matches Ok(next) ==> kept(next),
{
    acquisition_laws::law_steps_keep_account(limits, expected, journal.stage, happening);
    let wanted = journal.wanted;
    let stored = journal.stored;
    if let Ok(next) = noted(limits, expected, journal, happening) {
        assert(stored + Seq::<u32>::empty() =~= stored);
        assert(wanted + Seq::<u32>::empty() =~= wanted);
        match (journal.stage, happening) {
            (Stage::Listing { tally, .. }, Happening::Listed { page: Ok(items), .. }) => {
                if items.len() > 0 {
                    lemma_counted_page_is_above(
                        Tally { previous: (tally.cursor - 1) as u32, ..tally },
                        items,
                        0,
                    );
                }
            },
            (Stage::Verifying { tally, items }, Happening::Verified(Ok(flags))) => {
                let rest = acquisition_model::unflagged(items, flags);
                let fetches = batches::planned(
                    rest,
                    limits.fetch_batch_size,
                    limits.fetch_batch_bytes,
                );
                batches::law_batches_hold_every_message_once(
                    rest,
                    limits.fetch_batch_size,
                    limits.fetch_batch_bytes,
                );
                lemma_unflagged_ascends(tally, items, flags);
                let page = acquisition_model::fresh_page(fetches);
                let uids = acquisition_model::uids_of(rest);
                assert(page_queue(page) =~= uids);
                lemma_proceed_keeps_queue(
                    Tally {
                        archived: (tally.archived + acquisition_model::set_flags(flags)) as u64,
                        ..tally
                    },
                    page,
                    limits,
                );
                assert(wanted == stored);
                assert(ascending(wanted + uids));
                assert(tally.cursor <= items[0].uid <= tally.previous);
                assert(all_below(wanted + uids, tally.previous + 1));
            },
            (Stage::Fetching { tally, page, fetch }, Happening::Fetched(Ok(arrived))) => {
                if fetch.pieces.len() == 0 {
                    let whole = PageState {
                        requested: fetch.requested,
                        arrived: fetch.messages + arrived,
                        ..page
                    };
                    assert(page_queue(whole) == fetch_queue(page, fetch));
                    lemma_proceed_keeps_queue(tally, whole, limits);
                }
            },
            (Stage::Storing { tally, page, stored: count, at_end }, Happening::Stored(Ok(_))) => {
                if let Act::Store(messages) = journal.act {
                    assert(page.pending =~= Seq::<UidOnlyMessage>::empty());
                    assert(message_uids(page.pending) =~= Seq::<u32>::empty());
                    assert(queued(messages, page.requested, page.batches) =~= message_uids(messages)
                        + page_queue(page));
                    assert(stored + (message_uids(messages) + page_queue(page)) =~= (stored
                        + message_uids(messages)) + page_queue(page));
                }
            },
            (Stage::Reporting { tally, page, at_end }, Happening::Reported(Ok(_))) => {
                if at_end {
                    lemma_empty_page_queue(page);
                } else {
                    lemma_proceed_keeps_queue(tally, page, limits);
                }
            },
            _ => {},
        }
    }
}

/// Whatever happens, the messages that an acquisition has stored are the first of those
/// that were listed and not held by the archive: in order, once each, none passed over.
pub proof fn law_messages_are_stored_once(
    limits: AcquisitionLimits,
    expected: Option<u32>,
    happenings: Seq<Happening>,
)
    ensures
        journal_of(limits, expected, happenings) matches Ok(journal) ==> {
            &&& ascending(journal.wanted)
            &&& journal.wanted == journal.stored + outstanding(journal.stage, journal.act)
            &&& kept(journal)
        },
    decreases happenings.len(),
{
    if happenings.len() == 0 {
        assert(blank().stored + outstanding(blank().stage, blank().act) =~= blank().wanted);
    } else {
        law_messages_are_stored_once(limits, expected, happenings.drop_last());
        if let Ok(journal) = journal_of(limits, expected, happenings.drop_last()) {
            lemma_step_keeps_journal(limits, expected, journal, happenings.last());
        }
    }
}

/// A checkpoint is reported only after every message that was listed and not held by
/// the archive has been stored, in order and once each.
pub proof fn law_checkpoint_follows_every_store(
    limits: AcquisitionLimits,
    expected: Option<u32>,
    happenings: Seq<Happening>,
)
    ensures
        journal_of(limits, expected, happenings) matches Ok(journal) ==> journal.act is Done ==> {
            &&& journal.stored == journal.wanted
            &&& ascending(journal.wanted)
        },
{
    law_messages_are_stored_once(limits, expected, happenings);
    if happenings.len() > 0 {
        if let Ok(before) = journal_of(limits, expected, happenings.drop_last()) {
            law_messages_are_stored_once(limits, expected, happenings.drop_last());
            acquisition_laws::law_report_is_complete(
                limits,
                expected,
                before.stage,
                happenings.last(),
            );
        }
    }
    if let Ok(journal) = journal_of(limits, expected, happenings) {
        if journal.stage is Closing {
            assert(journal.stored + Seq::<u32>::empty() =~= journal.stored);
        }
    }
}

/// A new connection on which the mailbox has another epoch, or fewer UIDs behind it,
/// ends the acquisition.
pub proof fn law_changed_epoch_is_refused(
    limits: AcquisitionLimits,
    expected: Option<u32>,
    tally: Tally,
    retry: Retry,
    reconnects: int,
    last: Failure,
    snapshot: acquisition_model::MailboxSnapshot,
)
    requires
        snapshot.uid_validity != tally.snapshot.uid_validity || snapshot.uid_next
            < tally.snapshot.uid_next,
    ensures
        acquisition_model::step(
            limits,
            expected,
            (Stage::Reproving { tally, retry, reconnects, last }),
            Happening::Examined(Ok(snapshot)),
        ) is Err,
        acquisition_model::step(
            limits,
            expected,
            (Stage::Closing { tally, reconnects }),
            Happening::Examined(Ok(snapshot)),
        ) is Err,
{
}

} // verus!
