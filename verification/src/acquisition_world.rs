//! An acquisition in a world that answers truly: it is never refused, and it ends with
//! everything archived.

use crate::acquisition_laws;
use crate::acquisition_laws::{left, sound, sound_page, stacked};
use crate::acquisition_model;
use crate::acquisition_model::{
    Act, FetchState, Happening, MailboxSnapshot, PageState, Retry, Stage, Tally, UidOnlyMessage,
};
use crate::acquisition_runs;
use crate::batches;
use crate::batches::{AcquisitionLimits, InventoryItem};
use vstd::prelude::*;

verus! {

/// A mailbox with its messages in the order of their UIDs, and the checkpoint that the
/// archive has proven for it: so many messages lie at or before it.
pub ghost struct World {
    pub snapshot: MailboxSnapshot,
    pub messages: Seq<InventoryItem>,
    pub checkpoint: Option<u32>,
    pub before: int,
}

/// A mailbox fits together: as many messages exist as it holds, all below UIDNEXT.
pub open spec fn whole(world: World) -> bool {
    &&& world.snapshot.uid_validity > 0
    &&& world.snapshot.uid_next > 0
    &&& world.snapshot.exists == world.messages.len()
    &&& forall|i: int|
        0 <= i < world.messages.len() ==> 0 < (#[trigger] world.messages[i]).uid
            < world.snapshot.uid_next
    &&& forall|i: int, j: int|
        0 <= i < j < world.messages.len() ==> (#[trigger] world.messages[i]).uid < (
        #[trigger] world.messages[j]).uid
    &&& 0 <= world.before <= world.messages.len()
    &&& match world.checkpoint {
        None => world.before == 0,
        Some(checkpoint) => checkpoint < world.snapshot.uid_next && parted(
            world.messages,
            world.before,
            checkpoint + 1,
        ),
    }
}

/// The first `n` messages lie below a UID, and the others do not.
pub open spec fn parted(messages: Seq<InventoryItem>, n: int, uid: int) -> bool {
    &&& 0 <= n <= messages.len()
    &&& forall|i: int| 0 <= i < n ==> (#[trigger] messages[i]).uid < uid
    &&& forall|i: int| n <= i < messages.len() ==> (#[trigger] messages[i]).uid >= uid
}

/// A page of at most so many messages from the cursor on, of which `n` come before it;
/// it is empty only where nothing is left.
pub open spec fn page_at(
    messages: Seq<InventoryItem>,
    cursor: u32,
    page_size: u32,
    items: Seq<InventoryItem>,
    n: int,
) -> bool {
    &&& parted(messages, n, cursor as int)
    &&& items.len() <= page_size
    &&& n + items.len() <= messages.len()
    &&& items == messages.subrange(n, n + items.len())
    &&& items.len() == 0 ==> n == messages.len()
}

/// The messages that were asked for, in that order, each within the size limit.
pub open spec fn delivered(
    items: Seq<InventoryItem>,
    messages: Seq<UidOnlyMessage>,
    limits: AcquisitionLimits,
) -> bool {
    &&& items.len() == messages.len()
    &&& forall|i: int|
        0 <= i < messages.len() ==> (#[trigger] messages[i]).uid == items[i].uid
            && messages[i].body@.len() <= limits.max_literal_bytes
}

/// What a true server and archive answer: the mailbox as it is, pages of its messages,
/// bodies that were asked for, and success.
pub open spec fn truthful(
    world: World,
    limits: AcquisitionLimits,
    stage: Stage,
    act: Act,
    happening: Happening,
) -> bool {
    match (act, happening) {
        (Act::Examine, Happening::Examined(Ok(snapshot))) => if stage is Examining {
            snapshot == world.snapshot
        } else {
            snapshot.uid_validity == world.snapshot.uid_validity && snapshot.uid_next
                >= world.snapshot.uid_next
        },
        (Act::BeginEpoch(_), Happening::Opened(Ok(checkpoint))) => checkpoint == world.checkpoint,
        (Act::Report(_), Happening::Reported(Ok(_))) => true,
        (Act::List { cursor, page_size, .. }, Happening::Listed { page: Ok(items), cancelled }) => {
            !cancelled && exists|n: int| page_at(world.messages, cursor, page_size, items, n)
        },
        (Act::Verify(uids), Happening::Verified(Ok(flags))) => flags.len() == uids.len(),
        (Act::Fetch(items), Happening::Fetched(Ok(messages))) => delivered(items, messages, limits),
        (Act::Store(_), Happening::Stored(Ok(_))) => true,
        (Act::Reconnect { .. }, Happening::Reconnected(Ok(_))) => true,
        _ => false,
    }
}

/// The tally counts the messages from the checkpoint up to, and without, a UID.
pub open spec fn counts_up_to(world: World, tally: Tally, uid: int) -> bool {
    &&& tally.snapshot == world.snapshot
    &&& tally.high == world.snapshot.uid_next - 1
    &&& tally.full_snapshot ==> world.before == 0
    &&& tally.cursor <= tally.high + 1
    &&& tally.previous <= tally.high
    &&& parted(world.messages, world.before + tally.inventoried, uid)
}

pub open spec fn none_empty(list: Seq<Seq<InventoryItem>>) -> bool {
    forall|i: int| 0 <= i < list.len() ==> (#[trigger] list[i]).len() > 0
}

pub open spec fn page_fits(page: PageState, limits: AcquisitionLimits) -> bool {
    delivered(page.requested, page.arrived, limits) && none_empty(page.batches)
}

/// The messages fetched so far are the first of those asked for, and the rest is left.
pub open spec fn fetch_fits(fetch: FetchState, limits: AcquisitionLimits) -> bool {
    &&& fetch.messages.len() + left(fetch).len() == fetch.requested.len()
    &&& delivered(
        fetch.requested.take(fetch.messages.len() as int),
        fetch.messages,
        limits,
    )
    &&& fetch.current.len() > 0
    &&& none_empty(fetch.pieces)
}

pub open spec fn retry_fits(
    world: World,
    limits: AcquisitionLimits,
    tally: Tally,
    retry: Retry,
) -> bool {
    match retry {
        Retry::List => tally.cursor <= tally.high && counts_up_to(
            world,
            tally,
            tally.cursor as int,
        ),
        Retry::Fetch { page, fetch, .. } => {
            &&& counts_up_to(world, tally, tally.previous + 1)
            &&& page_fits(page, limits)
            &&& fetch_fits(fetch, limits)
        },
        Retry::Close => tally.snapshot == world.snapshot && tally.inventoried == world.messages.len()
            - world.before,
    }
}

/// How a stage and what is due in it stand to the world: the tally counts the messages
/// of the mailbox, and what arrived is what was asked for.
pub open spec fn fits(world: World, limits: AcquisitionLimits, stage: Stage, act: Act) -> bool {
    match stage {
        Stage::Examining => act == Act::Examine,
        Stage::Opening { snapshot } => snapshot == world.snapshot && act is BeginEpoch,
        Stage::Announcing { tally } => {
            &&& act is Report
            &&& tally.inventoried == 0
            &&& counts_up_to(world, tally, tally.cursor as int)
        },
        Stage::Listing { tally, .. } => {
            &&& act == (Act::List {
                cursor: tally.cursor,
                high: tally.high,
                page_size: limits.page_size,
            })
            &&& retry_fits(world, limits, tally, Retry::List)
        },
        Stage::Verifying { tally, items } => {
            &&& act matches Act::Verify(uids)
            &&& uids.len() == items.len()
            &&& items.len() > 0
            &&& counts_up_to(world, tally, tally.previous + 1)
        },
        Stage::Fetching { tally, page, fetch } => {
            &&& act == Act::Fetch(fetch.current)
            &&& retry_fits(world, limits, tally, Retry::Fetch { page, fetch, split: false })
        },
        Stage::Storing { tally, page, .. } => {
            &&& act is Store
            &&& counts_up_to(world, tally, tally.previous + 1)
            &&& page_fits(page, limits)
        },
        Stage::Reporting { tally, page, at_end } => {
            &&& act is Report
            &&& counts_up_to(world, tally, tally.previous + 1)
            &&& page_fits(page, limits)
            &&& at_end ==> tally.cursor == tally.previous + 1
        },
        Stage::Closing { tally, .. } => act == Act::Examine && retry_fits(
            world,
            limits,
            tally,
            Retry::Close,
        ),
        Stage::Reconnecting { tally, retry, .. } => act is Reconnect && retry_fits(
            world,
            limits,
            tally,
            retry,
        ),
        Stage::Reproving { tally, retry, .. } => act == Act::Examine && retry_fits(
            world,
            limits,
            tally,
            retry,
        ),
    }
}

/// The messages of the mailbox that are not listed yet.
pub open spec fn unlisted(world: World, tally: Tally) -> int {
    world.messages.len() - world.before - tally.inventoried
}

pub open spec fn page_work(page: PageState) -> int {
    (3 * batches::joined(page.batches).len() + 2 * (page.arrived.len() + page.pending.len())) as int
}

pub open spec fn retry_work(world: World, tally: Tally, retry: Retry) -> int {
    match retry {
        Retry::List => 6 * unlisted(world, tally) + 2,
        Retry::Fetch { page, fetch, .. } => 6 * unlisted(world, tally) + page_work(page) + 3 * left(
            fetch,
        ).len() + 2 * fetch.messages.len() + 3,
        Retry::Close => 1,
    }
}

/// A bound on the steps that an acquisition still takes in a true world.
pub open spec fn work(world: World, stage: Stage) -> int {
    match stage {
        Stage::Examining => 6 * (world.messages.len() - world.before) + 5,
        Stage::Opening { .. } => 6 * (world.messages.len() - world.before) + 4,
        Stage::Announcing { tally } => 6 * unlisted(world, tally) + 3,
        Stage::Listing { tally, .. } => retry_work(world, tally, Retry::List),
        Stage::Verifying { tally, items } => 6 * unlisted(world, tally) + 3 * items.len() + 4,
        Stage::Fetching { tally, page, fetch } => retry_work(
            world,
            tally,
            Retry::Fetch { page, fetch, split: false },
        ),
        Stage::Storing { tally, page, stored, .. } => 6 * unlisted(world, tally) + page_work(page)
            + 2 * stored + 3,
        Stage::Reporting { tally, page, at_end } => 6 * unlisted(world, tally) + if at_end {
            3
        } else {
            page_work(page) + 4
        },
        Stage::Closing { .. } => 1,
        Stage::Reconnecting { tally, retry, .. } => retry_work(world, tally, retry) + 2,
        Stage::Reproving { tally, retry, .. } => retry_work(world, tally, retry) + 1,
    }
}

pub proof fn lemma_true_page_is_counted(tally: Tally, items: Seq<InventoryItem>, from: int)
    requires
        0 <= from <= items.len(),
        tally.inventoried + (items.len() - from) <= u64::MAX,
        forall|i: int|
            from <= i < items.len() ==> tally.cursor <= (#[trigger] items[i]).uid <= tally.high
                && tally.previous < items[i].uid,
        forall|i: int, j: int|
            from <= i < j < items.len() ==> (#[trigger] items[i]).uid < (#[trigger] items[j]).uid,
    ensures
        acquisition_model::counted_page(tally, items, from) == Ok::<
            Tally,
            crate::failure::Failure,
        >(
            Tally {
                previous: if from < items.len() {
                    items.last().uid
                } else {
                    tally.previous
                },
                inventoried: (tally.inventoried + (items.len() - from)) as u64,
                ..tally
            },
        ),
    decreases items.len() - from,
{
    if from < items.len() {
        let next = Tally {
            previous: items[from].uid,
            inventoried: (tally.inventoried + 1) as u64,
            ..tally
        };
        lemma_true_page_is_counted(next, items, from + 1);
    }
}

proof fn lemma_delivered_is_absorbed(page: PageState, limits: AcquisitionLimits)
    requires
        sound_page(page),
        page_fits(page, limits),
    ensures
        acquisition_model::absorbed(page, limits) is Ok,
        page_fits(acquisition_model::absorbed(page, limits)->Ok_0, limits),
        page_work(acquisition_model::absorbed(page, limits)->Ok_0) == page_work(page),
    decreases page.arrived.len(),
{
    if page.arrived.len() > 0 {
        let message = page.arrived[0];
        let actual = message.body@.len() as int;
        if !acquisition_model::must_store(page, actual) {
            let next = PageState {
                requested: page.requested.drop_first(),
                arrived: page.arrived.drop_first(),
                pending: page.pending.push(message),
                pending_bytes: page.pending_bytes + actual,
                ..page
            };
            assert forall|i: int| 0 <= i < next.arrived.len() implies (
            #[trigger] next.arrived[i]).uid == next.requested[i].uid && next.arrived[i].body@.len()
                <= limits.max_literal_bytes by {
                assert(next.arrived[i] == page.arrived[i + 1]);
            }
            lemma_delivered_is_absorbed(next, limits);
        }
    }
}

proof fn lemma_true_page_goes_on(
    world: World,
    limits: AcquisitionLimits,
    tally: Tally,
    page: PageState,
)
    requires
        whole(world),
        sound_page(page),
        page_fits(page, limits),
        counts_up_to(world, tally, tally.previous + 1),
    ensures
        ({
            let next = acquisition_model::proceed(tally, page, limits);
            &&& next matches Ok((stage, act))
            &&& fits(world, limits, stage, act)
            &&& work(world, stage) <= 6 * unlisted(world, tally) + page_work(page) + 3
            &&& !(act is Done)
        }),
{
    lemma_delivered_is_absorbed(page, limits);
    acquisition_laws::lemma_absorbed_keeps_page(page, limits);
    let taken = acquisition_model::absorbed(page, limits)->Ok_0;
    if taken.arrived.len() > 0 {
    } else if taken.batches.len() > 0 {
        let batch = taken.batches[0];
        let fetch = acquisition_model::fetch_of(batch);
        assert(left(fetch) =~= batch);
        let rest = PageState { batches: taken.batches.drop_first(), ..taken };
        assert(batches::joined(taken.batches) == batch + batches::joined(rest.batches));
        assert(fetch.requested.take(0) =~= Seq::empty());
        assert forall|i: int| 0 <= i < rest.batches.len() implies (
        #[trigger] rest.batches[i]).len() > 0 by {
            assert(rest.batches[i] == taken.batches[i + 1]);
        }
    }
}

/// In a true world no answer is ever refused: every step of an acquisition succeeds and
/// brings it nearer to its end, until it reports every message that lies behind the
/// checkpoint as inventoried and archived.
pub proof fn law_true_answers_are_never_refused(
    world: World,
    limits: AcquisitionLimits,
    expected: Option<u32>,
    stage: Stage,
    act: Act,
    happening: Happening,
)
    requires
        whole(world),
        expected is None || expected == Some(world.snapshot.uid_validity),
        sound(stage),
        fits(world, limits, stage, act),
        truthful(world, limits, stage, act, happening),
    ensures
        ({
            &&& acquisition_model::step(limits, expected, stage, happening) matches Ok((next, due))
            &&& sound(next)
            &&& match due {
                Act::Done(report) => {
                    &&& report.inventoried == world.messages.len() - world.before
                    &&& report.archived == report.inventoried
                    &&& report.uid_validity == world.snapshot.uid_validity
                    &&& report.uid_next == world.snapshot.uid_next
                    &&& report.exists == world.messages.len()
                },
                _ => fits(world, limits, next, due) && work(world, next) < work(world, stage),
            }
        }),
{
    acquisition_laws::law_steps_keep_account(limits, expected, stage, happening);
    match (stage, happening) {
        (Stage::Listing { tally, .. }, Happening::Listed { page: Ok(items), .. }) => {
            let n = choose|n: int|
                page_at(world.messages, tally.cursor, limits.page_size, items, n);
            let known = world.before + tally.inventoried;
            if n < known {
                assert(world.messages[n].uid < tally.cursor);
            }
            if known < n {
                assert(world.messages[known].uid >= tally.cursor);
            }
            assert(n == known);
            if items.len() > 0 {
                let from = Tally { previous: (tally.cursor - 1) as u32, ..tally };
                assert forall|i: int| 0 <= i < items.len() implies tally.cursor <= (
                #[trigger] items[i]).uid <= tally.high by {
                    assert(items[i] == world.messages[n + i]);
                }
                assert forall|i: int, j: int| 0 <= i < j < items.len() implies (
                #[trigger] items[i]).uid < (#[trigger] items[j]).uid by {
                    assert(items[i] == world.messages[n + i]);
                    assert(items[j] == world.messages[n + j]);
                }
                lemma_true_page_is_counted(from, items, 0);
                let last = items.last().uid;
                assert(items.last() == world.messages[n + items.len() - 1]);
                assert(parted(world.messages, n + items.len(), last + 1)) by {
                    assert forall|i: int| 0 <= i < n + items.len() implies (
                    #[trigger] world.messages[i]).uid < last + 1 by {
                        if i < n + items.len() - 1 {
                            assert(world.messages[i].uid < world.messages[n + items.len()
                                - 1].uid);
                        }
                    }
                    assert forall|i: int| n + items.len() <= i < world.messages.len() implies (
                    #[trigger] world.messages[i]).uid >= last + 1 by {
                        assert(world.messages[n + items.len() - 1].uid < world.messages[i].uid);
                    }
                }
            }
        },
        (Stage::Verifying { tally, items }, Happening::Verified(Ok(flags))) => {
            acquisition_laws::lemma_unflagged(items, flags);
            let wanted = acquisition_model::unflagged(items, flags);
            let plan = batches::planned(
                wanted,
                limits.fetch_batch_size,
                limits.fetch_batch_bytes,
            );
            batches::law_batches_hold_every_message_once(
                wanted,
                limits.fetch_batch_size,
                limits.fetch_batch_bytes,
            );
            assert forall|i: int| 0 <= i < plan.len() implies (#[trigger] plan[i]).len() > 0 by {
                batches::law_batches_keep_limits(
                    wanted,
                    limits.fetch_batch_size,
                    limits.fetch_batch_bytes,
                    i,
                );
            }
            let grown = Tally {
                archived: (tally.archived + acquisition_model::set_flags(flags)) as u64,
                ..tally
            };
            lemma_true_page_goes_on(world, limits, grown, acquisition_model::fresh_page(plan));
        },
        (Stage::Fetching { tally, page, fetch }, Happening::Fetched(Ok(arrived))) => {
            lemma_true_piece(world, limits, tally, page, fetch, arrived);
        },
        (Stage::Reporting { tally, page, at_end }, Happening::Reported(Ok(_))) => {
            if !at_end {
                lemma_true_page_goes_on(world, limits, tally, page);
            } else {
                lemma_all_listed(world, tally);
            }
        },
        (Stage::Announcing { tally }, Happening::Reported(Ok(_))) => {
            lemma_all_listed(world, tally);
        },
        (Stage::Reproving { tally, retry, .. }, Happening::Examined(Ok(_))) => {
            if let Retry::Fetch { page, fetch, split } = retry {
                if split {
                    acquisition_laws::law_splitting_skips_nothing(fetch);
                    let next = acquisition_model::halves(fetch);
                    let middle = (fetch.current.len() / 2) as int;
                    assert forall|i: int| 0 <= i < next.pieces.len() implies (
                    #[trigger] next.pieces[i]).len() > 0 by {
                        if i < fetch.pieces.len() {
                            assert(next.pieces[i] == fetch.pieces[i]);
                        } else {
                            assert(next.pieces[i] == fetch.current.skip(middle));
                        }
                    }
                }
                let reached = acquisition_model::resumed(tally, retry, 0, limits).0;
                assert(left(reached->Fetching_fetch) == left(fetch));
            }
        },
        _ => {},
    }
}

/// Every happening is a true answer to what was due when it came, up to the report.
pub open spec fn answers_truly(
    world: World,
    limits: AcquisitionLimits,
    expected: Option<u32>,
    happenings: Seq<Happening>,
) -> bool
    decreases happenings.len(),
{
    happenings.len() == 0 || {
        &&& answers_truly(world, limits, expected, happenings.drop_last())
        &&& match acquisition_runs::journal_of(limits, expected, happenings.drop_last()) {
            Ok(journal) => !(journal.act is Done) && truthful(
                world,
                limits,
                journal.stage,
                journal.act,
                happenings.last(),
            ),
            Err(_) => true,
        }
    }
}

/// An acquisition in a true world never fails, ends after finitely many answers, and ends
/// with every message of the mailbox behind the checkpoint inventoried and archived.
pub proof fn law_true_acquisition_is_complete(
    world: World,
    limits: AcquisitionLimits,
    expected: Option<u32>,
    happenings: Seq<Happening>,
)
    requires
        whole(world),
        expected is None || expected == Some(world.snapshot.uid_validity),
        answers_truly(world, limits, expected, happenings),
    ensures
        acquisition_runs::journal_of(limits, expected, happenings) is Ok,
        ({
            let journal = acquisition_runs::journal_of(limits, expected, happenings)->Ok_0;
            &&& sound(journal.stage)
            &&& match journal.act {
                Act::Done(report) => {
                    &&& report.inventoried == world.messages.len() - world.before
                    &&& report.archived == report.inventoried
                    &&& report.uid_validity == world.snapshot.uid_validity
                    &&& report.uid_next == world.snapshot.uid_next
                    &&& report.exists == world.messages.len()
                    &&& happenings.len() <= 6 * (world.messages.len() - world.before) + 5
                },
                _ => {
                    &&& fits(world, limits, journal.stage, journal.act)
                    &&& work(world, journal.stage) + happenings.len() <= 6 * (world.messages.len()
                        - world.before) + 5
                },
            }
        }),
    decreases happenings.len(),
{
    if happenings.len() > 0 {
        law_true_acquisition_is_complete(world, limits, expected, happenings.drop_last());
        let journal = acquisition_runs::journal_of(limits, expected, happenings.drop_last())->Ok_0;
        law_true_answers_are_never_refused(
            world,
            limits,
            expected,
            journal.stage,
            journal.act,
            happenings.last(),
        );
        assert(work(world, journal.stage) >= 1);
    }
}

/// Behind the range nothing is left to list.
proof fn lemma_all_listed(world: World, tally: Tally)
    requires
        whole(world),
        counts_up_to(world, tally, tally.cursor as int),
    ensures
        tally.cursor > tally.high ==> tally.inventoried == world.messages.len() - world.before,
{
    let n = world.before + tally.inventoried;
    if tally.cursor > tally.high && n < world.messages.len() {
        assert(world.messages[n].uid >= tally.cursor);
    }
}

proof fn lemma_true_piece(
    world: World,
    limits: AcquisitionLimits,
    tally: Tally,
    page: PageState,
    fetch: FetchState,
    arrived: Seq<UidOnlyMessage>,
)
    requires
        whole(world),
        sound(Stage::Fetching { tally, page, fetch }),
        retry_fits(world, limits, tally, Retry::Fetch { page, fetch, split: false }),
        delivered(fetch.current, arrived, limits),
    ensures
        ({
            let before = Stage::Fetching { tally, page, fetch };
            let next = acquisition_model::on_fetched(tally, page, fetch, arrived, limits);
            &&& next matches Ok((stage, act))
            &&& fits(world, limits, stage, act)
            &&& work(world, stage) < work(world, before)
            &&& !(act is Done)
        }),
{
    let messages = fetch.messages + arrived;
    let n = fetch.messages.len() as int;
    assert(fetch.requested.skip(n) == left(fetch));
    assert(delivered(fetch.requested.take(messages.len() as int), messages, limits)) by {
        assert forall|i: int| 0 <= i < messages.len() implies (#[trigger] messages[i]).uid
            == fetch.requested.take(messages.len() as int)[i].uid && messages[i].body@.len()
            <= limits.max_literal_bytes by {
            if i < n {
                assert(messages[i] == fetch.messages[i]);
                assert(fetch.requested.take(n)[i] == fetch.requested[i]);
            } else {
                assert(messages[i] == arrived[i - n]);
                assert(left(fetch)[i - n] == fetch.current[i - n]);
                assert(fetch.requested.skip(n)[i - n] == fetch.requested[i]);
            }
        }
    }
    if fetch.pieces.len() > 0 {
        let next = FetchState {
            current: fetch.pieces.last(),
            pieces: fetch.pieces.drop_last(),
            messages,
            ..fetch
        };
        assert(stacked(fetch.pieces) == left(next));
        assert(left(next).len() == left(fetch).len() - fetch.current.len());
        assert forall|i: int| 0 <= i < next.pieces.len() implies (
        #[trigger] next.pieces[i]).len() > 0 by {
            assert(next.pieces[i] == fetch.pieces[i]);
        }
    } else {
        assert(left(fetch) =~= fetch.current);
        assert(fetch.requested.take(messages.len() as int) =~= fetch.requested);
        let next = PageState { requested: fetch.requested, arrived: messages, ..page };
        lemma_true_page_goes_on(world, limits, tally, next);
    }
}

} // verus!
