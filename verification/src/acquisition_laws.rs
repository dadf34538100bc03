//! What holds of every acquisition.

use crate::acquisition_model;
use crate::acquisition_model::{
    Act, FetchState, Happening, PageState, Retry, Stage, Tally, UidOnlyMessage,
    MAX_UIDONLY_RECONNECTS,
};
use crate::batches;
use crate::batches::{AcquisitionLimits, InventoryItem};
use vstd::prelude::*;

verus! {

/// The messages of a page that are neither archived nor given up.
pub open spec fn in_page(page: PageState) -> nat {
    batches::joined(page.batches).len() + page.arrived.len() + page.pending.len()
}

/// The pieces still to be fetched after the current one, the last on top.
pub open spec fn stacked(pieces: Seq<Seq<InventoryItem>>) -> Seq<InventoryItem>
    decreases pieces.len(),
{
    if pieces.len() == 0 {
        Seq::empty()
    } else {
        pieces.last() + stacked(pieces.drop_last())
    }
}

/// What is left to fetch of a batch.
pub open spec fn left(fetch: FetchState) -> Seq<InventoryItem> {
    fetch.current + stacked(fetch.pieces)
}

/// What is left to fetch is the end of what was asked for.
pub open spec fn covers(fetch: FetchState) -> bool {
    &&& left(fetch).len() <= fetch.requested.len()
    &&& fetch.requested.skip(fetch.requested.len() - left(fetch).len()) == left(fetch)
    &&& 0 <= fetch.reconnects <= MAX_UIDONLY_RECONNECTS
}

pub open spec fn sound_page(page: PageState) -> bool {
    &&& page.requested.len() == page.arrived.len()
    &&& 0 <= page.pending_bytes <= u64::MAX
    &&& page.pending.len() == 0 ==> page.pending_bytes == 0
}

pub open spec fn sound_tally(tally: Tally, in_flight: int) -> bool {
    &&& tally.snapshot.uid_validity > 0
    &&& tally.snapshot.uid_next > 0
    &&& tally.high == tally.snapshot.uid_next - 1
    &&& tally.cursor >= 1
    &&& tally.downloaded <= tally.archived
    &&& tally.archived + in_flight == tally.inventoried
}

/// The inventory is at its end and accounts for every message.
pub open spec fn reconciled(tally: Tally) -> bool {
    &&& tally.archived == tally.inventoried
    &&& tally.full_snapshot ==> tally.inventoried == tally.snapshot.exists
}

pub open spec fn sound_retry(tally: Tally, retry: Retry) -> bool {
    match retry {
        Retry::List => sound_tally(tally, 0),
        Retry::Close => sound_tally(tally, 0) && reconciled(tally),
        Retry::Fetch { page, fetch, split } => {
            &&& sound_page(page)
            &&& page.arrived.len() == 0
            &&& covers(fetch)
            &&& split ==> fetch.current.len() > 1
            &&& sound_tally(tally, (in_page(page) + fetch.requested.len()) as int)
        },
    }
}

/// What every reachable stage satisfies: each message that the inventory listed is
/// archived or in flight, exactly once.
pub open spec fn sound(stage: Stage) -> bool {
    match stage {
        Stage::Examining => true,
        Stage::Opening { snapshot } => snapshot.uid_validity > 0 && snapshot.uid_next > 0,
        Stage::Announcing { tally } => sound_tally(tally, 0),
        Stage::Listing { tally, reconnects } => {
            &&& sound_tally(tally, 0)
            &&& 0 <= reconnects <= MAX_UIDONLY_RECONNECTS
        },
        Stage::Verifying { tally, items } => sound_tally(tally, items.len() as int),
        Stage::Fetching { tally, page, fetch } => {
            &&& sound_page(page)
            &&& page.arrived.len() == 0
            &&& covers(fetch)
            &&& sound_tally(tally, (in_page(page) + fetch.requested.len()) as int)
        },
        Stage::Storing { tally, page, stored, at_end } => {
            &&& sound_page(page)
            &&& page.pending.len() == 0
            &&& 0 < stored
            &&& at_end ==> in_page(page) == 0
            &&& sound_tally(tally, in_page(page) + stored)
        },
        Stage::Reporting { tally, page, at_end } => {
            &&& sound_page(page)
            &&& at_end ==> in_page(page) == 0
            &&& sound_tally(tally, in_page(page) as int)
        },
        Stage::Closing { tally, reconnects } => {
            &&& sound_tally(tally, 0)
            &&& reconciled(tally)
            &&& 0 <= reconnects <= MAX_UIDONLY_RECONNECTS
        },
        Stage::Reconnecting { tally, retry, reconnects, .. } => {
            &&& sound_retry(tally, retry)
            &&& 0 <= reconnects <= MAX_UIDONLY_RECONNECTS
        },
        Stage::Reproving { tally, retry, reconnects, .. } => {
            &&& sound_retry(tally, retry)
            &&& 0 <= reconnects <= MAX_UIDONLY_RECONNECTS
        },
    }
}

/// Taking in messages keeps a page sound and every message in it.
pub proof fn lemma_absorbed_keeps_page(page: PageState, limits: AcquisitionLimits)
    requires
        sound_page(page),
    ensures
        acquisition_model::absorbed(page, limits) matches Ok(taken) ==> {
            &&& sound_page(taken)
            &&& in_page(taken) == in_page(page)
            &&& taken.batches == page.batches
            &&& taken.arrived.len() > 0 ==> taken.pending.len() > 0
            &&& taken.arrived.len() <= page.arrived.len()
        },
    decreases page.arrived.len(),
{
    if page.arrived.len() > 0 {
        let message = page.arrived[0];
        let actual = message.body@.len() as int;
        if message.uid == page.requested[0].uid && actual <= limits.max_literal_bytes
            && !acquisition_model::must_store(page, actual) {
            lemma_absorbed_keeps_page(
                PageState {
                    requested: page.requested.drop_first(),
                    arrived: page.arrived.drop_first(),
                    pending: page.pending.push(message),
                    pending_bytes: page.pending_bytes + actual,
                    ..page
                },
                limits,
            );
        }
    }
}

proof fn lemma_proceed_keeps_sound(tally: Tally, page: PageState, limits: AcquisitionLimits)
    requires
        sound_page(page),
        sound_tally(tally, in_page(page) as int),
    ensures
        acquisition_model::proceed(tally, page, limits) matches Ok((stage, _)) ==> sound(stage),
{
    lemma_absorbed_keeps_page(page, limits);
    if let Ok(taken) = acquisition_model::absorbed(page, limits) {
        if taken.arrived.len() == 0 && taken.batches.len() > 0 {
            let batch = taken.batches[0];
            let fetch = acquisition_model::fetch_of(batch);
            assert(left(fetch) =~= batch);
            assert(fetch.requested.skip(0) =~= batch);
            assert(batches::joined(taken.batches) == batch + batches::joined(
                taken.batches.drop_first(),
            ));
        } else if taken.arrived.len() == 0 {
            assert(batches::joined(taken.batches).len() == 0);
        }
    }
}

proof fn lemma_counted_page(tally: Tally, items: Seq<InventoryItem>, from: int)
    requires
        0 <= from <= items.len(),
    ensures
        acquisition_model::counted_page(tally, items, from) matches Ok(counted) ==> {
            &&& counted == (Tally {
                previous: counted.previous,
                inventoried: counted.inventoried,
                ..tally
            })
            &&& counted.inventoried == tally.inventoried + (items.len() - from)
            &&& from == items.len() ==> counted.previous == tally.previous
            &&& from < items.len() ==> counted.previous == items.last().uid
            &&& forall|i: int|
                from <= i < items.len() ==> tally.cursor <= (#[trigger] items[i]).uid <= tally.high
                    && items[i].uid > tally.previous
            &&& forall|i: int, j: int|
                from <= i < j < items.len() ==> (#[trigger] items[i]).uid < (
                #[trigger] items[j]).uid
        },
    decreases items.len() - from,
{
    if from < items.len() && tally.inventoried < u64::MAX {
        let next = Tally {
            previous: items[from].uid,
            inventoried: (tally.inventoried + 1) as u64,
            ..tally
        };
        lemma_counted_page(next, items, from + 1);
    }
}

pub proof fn lemma_unflagged(items: Seq<InventoryItem>, flags: Seq<bool>)
    requires
        flags.len() <= items.len(),
    ensures
        acquisition_model::unflagged(items, flags).len() + acquisition_model::set_flags(flags)
            == flags.len(),
    decreases flags.len(),
{
    if flags.len() > 0 {
        lemma_unflagged(items, flags.drop_last());
    }
}

proof fn lemma_halves_cover(fetch: FetchState)
    requires
        covers(fetch),
        fetch.current.len() > 1,
    ensures
        left(acquisition_model::halves(fetch)) == left(fetch),
        covers(acquisition_model::halves(fetch)),
        acquisition_model::halves(fetch).current.len() > 0,
{
    let next = acquisition_model::halves(fetch);
    let middle = (fetch.current.len() / 2) as int;
    assert(next.pieces.drop_last() =~= fetch.pieces);
    assert(left(next) =~= left(fetch));
}

proof fn lemma_next_piece_covers(fetch: FetchState, messages: Seq<UidOnlyMessage>)
    requires
        covers(fetch),
        fetch.pieces.len() > 0,
    ensures
        covers(
            FetchState {
                current: fetch.pieces.last(),
                pieces: fetch.pieces.drop_last(),
                messages,
                ..fetch
            },
        ),
{
    let next = FetchState {
        current: fetch.pieces.last(),
        pieces: fetch.pieces.drop_last(),
        messages,
        ..fetch
    };
    let n = fetch.requested.len() as int;
    assert(left(fetch) == fetch.current + left(next));
    assert(fetch.requested.skip(n - left(next).len()) =~= left(fetch).skip(
        fetch.current.len() as int,
    )) by {
        assert(fetch.requested.skip(n - left(fetch).len()).skip(fetch.current.len() as int)
            =~= fetch.requested.skip(n - left(next).len()));
    }
    assert(left(fetch).skip(fetch.current.len() as int) =~= left(next));
}

/// Every step keeps the stage sound: whatever the server and the archive answer, no
/// message that the inventory listed is lost or counted twice.
pub proof fn law_steps_keep_account(
    limits: AcquisitionLimits,
    expected: Option<u32>,
    stage: Stage,
    happening: Happening,
)
    requires
        sound(stage),
    ensures
        acquisition_model::step(limits, expected, stage, happening) matches Ok((next, _)) ==> sound(
            next,
        ),
{
    match (stage, happening) {
        (Stage::Listing { tally, .. }, Happening::Listed { page: Ok(items), .. }) => {
            lemma_counted_page(
                Tally { previous: (tally.cursor - 1) as u32, ..tally },
                items,
                0,
            );
        },
        (Stage::Verifying { tally, items }, Happening::Verified(Ok(flags))) => {
            if flags.len() == items.len() {
                lemma_unflagged(items, flags);
                let rest = acquisition_model::unflagged(items, flags);
                let fetches = batches::planned(
                    rest,
                    limits.fetch_batch_size,
                    limits.fetch_batch_bytes,
                );
                batches::law_batches_hold_every_message_once(
                    rest,
                    limits.fetch_batch_size,
                    limits.fetch_batch_bytes,
                );
                let grown = Tally {
                    archived: (tally.archived + acquisition_model::set_flags(flags)) as u64,
                    ..tally
                };
                lemma_proceed_keeps_sound(grown, acquisition_model::fresh_page(fetches), limits);
            }
        },
        (Stage::Fetching { tally, page, fetch }, Happening::Fetched(Ok(arrived))) => {
            if fetch.pieces.len() > 0 {
                lemma_next_piece_covers(fetch, fetch.messages + arrived);
            } else if fetch.messages.len() + arrived.len() == fetch.requested.len() {
                lemma_proceed_keeps_sound(
                    tally,
                    PageState {
                        requested: fetch.requested,
                        arrived: fetch.messages + arrived,
                        ..page
                    },
                    limits,
                );
            }
        },
        (Stage::Reporting { tally, page, at_end }, Happening::Reported(Ok(()))) => {
            if !at_end {
                lemma_proceed_keeps_sound(tally, page, limits);
            }
        },
        (Stage::Reproving { tally, retry, reconnects, .. }, Happening::Examined(Ok(_))) => {
            if let Retry::Fetch { page, fetch, split } = retry {
                if split {
                    lemma_halves_cover(fetch);
                }
                let next = if split {
                    acquisition_model::halves(fetch)
                } else {
                    fetch
                };
                let counted = FetchState { reconnects, ..next };
                assert(left(counted) == left(next));
            }
        },
        _ => {},
    }
}

/// A report is given only where everything that was listed is archived, where for a
/// full snapshot everything that exists was listed, and with UIDNEXT less one as the
/// checkpoint; the final examination found the same epoch.
pub proof fn law_report_is_complete(
    limits: AcquisitionLimits,
    expected: Option<u32>,
    stage: Stage,
    happening: Happening,
)
    requires
        sound(stage),
    ensures
        acquisition_model::step(limits, expected, stage, happening) matches Ok((_, Act::Done(report)))
            ==> {
            &&& stage is Closing
            &&& report.archived == report.inventoried
            &&& stage->Closing_tally.full_snapshot ==> report.inventoried == report.exists
            &&& report.checkpoint is None <==> report.uid_next == 1
            &&& report.checkpoint matches Some(checkpoint) ==> checkpoint == report.uid_next - 1
            &&& happening matches Happening::Examined(Ok(last)) && last.uid_validity
                == report.uid_validity && last.uid_next >= report.uid_next
        },
{
}

/// A page is only verified where its UIDs grow from each item to the next and all
/// lie in the fixed range, at or above the cursor.
pub proof fn law_verified_page_is_increasing(
    limits: AcquisitionLimits,
    expected: Option<u32>,
    listed: Tally,
    reconnects: int,
    happening: Happening,
)
    requires
        sound(Stage::Listing { tally: listed, reconnects }),
    ensures
        acquisition_model::step(
            limits,
            expected,
            (Stage::Listing { tally: listed, reconnects }),
            happening,
        ) matches Ok((Stage::Verifying { tally, items }, act)) ==> {
            &&& act == Act::Verify(acquisition_model::uids_of(items))
            &&& 0 < items.len() <= limits.page_size
            &&& tally.previous == items.last().uid
            &&& tally.cursor == listed.cursor
            &&& forall|i: int|
                0 <= i < items.len() ==> listed.cursor <= (#[trigger] items[i]).uid <= listed.high
            &&& forall|i: int, j: int|
                0 <= i < j < items.len() ==> (#[trigger] items[i]).uid < (#[trigger] items[j]).uid
        },
{
    if let Happening::Listed { page: Ok(items), .. } = happening {
        lemma_counted_page(
            Tally { previous: (listed.cursor - 1) as u32, ..listed },
            items,
            0,
        );
    }
}

/// A page that is done moves the cursor past it.
pub proof fn law_cursor_passes_page(
    limits: AcquisitionLimits,
    expected: Option<u32>,
    stage: Stage,
    happening: Happening,
)
    requires
        sound(stage),
        stage is Verifying || stage is Fetching || stage is Storing,
    ensures
        acquisition_model::step(limits, expected, stage, happening) matches Ok(
            (Stage::Reporting { tally, at_end, .. }, _),
        ) ==> at_end ==> tally.cursor == acquisition_model::uid_after(tally.previous),
{
}

/// One operation is retried on at most three new connections, each after a longer
/// wait than the one before.
pub proof fn law_reconnects_are_bounded(
    limits: AcquisitionLimits,
    expected: Option<u32>,
    stage: Stage,
    happening: Happening,
)
    requires
        sound(stage),
    ensures
        acquisition_model::step(limits, expected, stage, happening) matches Ok((next, act))
            ==> act is Reconnect ==> {
            &&& next is Reconnecting
            &&& 1 <= next->Reconnecting_reconnects <= MAX_UIDONLY_RECONNECTS
            &&& act->wait == acquisition_model::wait_before(next->Reconnecting_reconnects)
            &&& act->Reconnect_page_size == limits.page_size
            &&& stage matches Stage::Reconnecting { reconnects, .. }
                ==> next->Reconnecting_reconnects == reconnects + 1
            &&& stage matches Stage::Reproving { reconnects, .. } ==> next->Reconnecting_reconnects
                == reconnects + 1
        },
{
}

/// Messages go to the archive in the order in which they were asked for, each under
/// its UID and within the size limit, and none is left out.
pub proof fn law_messages_are_stored_in_order(page: PageState, limits: AcquisitionLimits)
    requires
        sound_page(page),
    ensures
        acquisition_model::absorbed(page, limits) matches Ok(taken) ==> {
            let n = page.arrived.len() - taken.arrived.len();
            &&& 0 <= n
            &&& taken.pending == page.pending + page.arrived.take(n)
            &&& taken.arrived == page.arrived.skip(n)
            &&& taken.requested == page.requested.skip(n)
            &&& forall|i: int|
                0 <= i < n ==> (#[trigger] page.arrived[i]).uid == page.requested[i].uid
                    && page.arrived[i].body@.len() <= limits.max_literal_bytes
        },
    decreases page.arrived.len(),
{
    lemma_absorbed_keeps_page(page, limits);
    if page.arrived.len() == 0 {
        assert(page.pending + page.arrived.take(0) =~= page.pending);
        assert(page.arrived.skip(0) =~= page.arrived);
        assert(page.requested.skip(0) =~= page.requested);
    } else {
        let message = page.arrived[0];
        let actual = message.body@.len() as int;
        if message.uid == page.requested[0].uid && actual <= limits.max_literal_bytes {
            if acquisition_model::must_store(page, actual) {
                assert(page.pending + page.arrived.take(0) =~= page.pending);
                assert(page.arrived.skip(0) =~= page.arrived);
                assert(page.requested.skip(0) =~= page.requested);
            } else {
                let next = PageState {
                    requested: page.requested.drop_first(),
                    arrived: page.arrived.drop_first(),
                    pending: page.pending.push(message),
                    pending_bytes: page.pending_bytes + actual,
                    ..page
                };
                law_messages_are_stored_in_order(next, limits);
                if let Ok(taken) = acquisition_model::absorbed(page, limits) {
                    let m = next.arrived.len() - taken.arrived.len();
                    assert(taken.pending =~= page.pending + page.arrived.take(m + 1));
                    assert(taken.arrived =~= page.arrived.skip(m + 1));
                    assert(taken.requested =~= page.requested.skip(m + 1));
                    assert forall|i: int| 0 <= i < m + 1 implies (#[trigger] page.arrived[i]).uid
                        == page.requested[i].uid && page.arrived[i].body@.len()
                        <= limits.max_literal_bytes by {
                        if i > 0 {
                            assert(next.arrived[i - 1].uid == next.requested[i - 1].uid);
                        }
                    }
                }
            }
        }
    }
}

/// A batch that was too large is fetched in halves, which together are the batch:
/// what is left to fetch does not change.
pub proof fn law_splitting_skips_nothing(fetch: FetchState)
    requires
        covers(fetch),
        fetch.current.len() > 1,
    ensures
        left(acquisition_model::halves(fetch)) == left(fetch),
        0 < acquisition_model::halves(fetch).current.len() < fetch.current.len(),
{
    lemma_halves_cover(fetch);
}

} // verus!
