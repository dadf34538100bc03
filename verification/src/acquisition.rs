//! The acquisition of one mailbox, step by step: one immutable UID range is listed,
//! compared with the archive, fetched and stored. Any ambiguity is an error.

use crate::acquisition_laws;
use crate::acquisition_model;
use crate::acquisition_model::{
    AcquisitionProgress, AcquisitionReport, MailboxSnapshot, Tally, UidOnlyMessage,
    MAX_UIDONLY_RECONNECTS,
};
use crate::batches;
use crate::batches::{
    planned_fetch_batches, AcquisitionLimits, InventoryItem, UIDONLY_PROJECTION_BATCH_BYTES,
    UIDONLY_PROJECTION_BATCH_MESSAGES,
};
use crate::failure;
use crate::failure::{raise, BichonError, ErrorCode};
use crate::limits::Duration;
use std::collections::VecDeque;
use vstd::prelude::*;

verus! {

#[derive(Debug)]
struct Page {
    batches: VecDeque<Vec<InventoryItem>>,
    requested: VecDeque<InventoryItem>,
    arrived: VecDeque<UidOnlyMessage>,
    pending: Vec<UidOnlyMessage>,
    pending_bytes: u64,
}

impl Page {
    spec fn state(self) -> acquisition_model::PageState {
        acquisition_model::PageState {
            batches: batches::views(self.batches@),
            requested: self.requested@,
            arrived: self.arrived@,
            pending: self.pending@,
            pending_bytes: self.pending_bytes as int,
        }
    }
}

#[derive(Debug)]
struct Fetch {
    requested: Vec<InventoryItem>,
    current: Vec<InventoryItem>,
    pieces: Vec<Vec<InventoryItem>>,
    messages: Vec<UidOnlyMessage>,
    reconnects: u32,
}

impl Fetch {
    spec fn state(self) -> acquisition_model::FetchState {
        acquisition_model::FetchState {
            requested: self.requested@,
            current: self.current@,
            pieces: batches::views(self.pieces@),
            messages: self.messages@,
            reconnects: self.reconnects as int,
        }
    }
}

#[derive(Debug)]
enum Retry {
    List,
    Fetch { page: Page, fetch: Fetch, split: bool },
    Close,
}

impl Retry {
    spec fn state(self) -> acquisition_model::Retry {
        match self {
            Retry::List => acquisition_model::Retry::List,
            Retry::Close => acquisition_model::Retry::Close,
            Retry::Fetch { page, fetch, split } => acquisition_model::Retry::Fetch {
                page: page.state(),
                fetch: fetch.state(),
                split,
            },
        }
    }
}

#[derive(Debug)]
enum Stage {
    Examining,
    Opening { snapshot: MailboxSnapshot },
    Announcing { tally: Tally },
    Listing { tally: Tally, reconnects: u32 },
    Verifying { tally: Tally, items: Vec<InventoryItem> },
    Fetching { tally: Tally, page: Page, fetch: Fetch },
    Storing { tally: Tally, page: Page, stored: u64, at_end: bool },
    Reporting { tally: Tally, page: Page, at_end: bool },
    Closing { tally: Tally, reconnects: u32 },
    Reconnecting { tally: Tally, retry: Retry, reconnects: u32, last: BichonError },
    Reproving { tally: Tally, retry: Retry, reconnects: u32, last: BichonError },
}

impl Stage {
    spec fn state(self) -> acquisition_model::Stage {
        match self {
            Stage::Examining => acquisition_model::Stage::Examining,
            Stage::Opening { snapshot } => acquisition_model::Stage::Opening { snapshot },
            Stage::Announcing { tally } => acquisition_model::Stage::Announcing { tally },
            Stage::Listing { tally, reconnects } => acquisition_model::Stage::Listing {
                tally,
                reconnects: reconnects as int,
            },
            Stage::Verifying { tally, items } => acquisition_model::Stage::Verifying {
                tally,
                items: items@,
            },
            Stage::Fetching { tally, page, fetch } => acquisition_model::Stage::Fetching {
                tally,
                page: page.state(),
                fetch: fetch.state(),
            },
            Stage::Storing { tally, page, stored, at_end } => acquisition_model::Stage::Storing {
                tally,
                page: page.state(),
                stored: stored as int,
                at_end,
            },
            Stage::Reporting { tally, page, at_end } => acquisition_model::Stage::Reporting {
                tally,
                page: page.state(),
                at_end,
            },
            Stage::Closing { tally, reconnects } => acquisition_model::Stage::Closing {
                tally,
                reconnects: reconnects as int,
            },
            Stage::Reconnecting { tally, retry, reconnects, last } =>
                acquisition_model::Stage::Reconnecting {
                    tally,
                    retry: retry.state(),
                    reconnects: reconnects as int,
                    last: last@,
                },
            Stage::Reproving { tally, retry, reconnects, last } =>
                acquisition_model::Stage::Reproving {
                    tally,
                    retry: retry.state(),
                    reconnects: reconnects as int,
                    last: last@,
                },
        }
    }
}

/// What the owner of the connection and of the archive does next.
#[derive(Debug, PartialEq, Eq)]
pub enum Action {
    /// Examine the mailbox.
    Examine,
    /// Open the archive's epoch and ask for its proven checkpoint.
    BeginEpoch(u32),
    /// Report the progress.
    Report(AcquisitionProgress),
    /// List one page of the inventory.
    List { cursor: u32, high: u32, page_size: u32 },
    /// Ask the archive which of these UIDs it holds.
    Verify(Vec<u32>),
    /// Fetch the bodies of exactly these messages.
    Fetch(Vec<InventoryItem>),
    /// Store these messages durably.
    Store(Vec<UidOnlyMessage>),
    /// Wait, then make a new connection that serves pages of this size.
    Reconnect { wait: Duration, page_size: u32 },
    /// The mailbox is acquired.
    Done(AcquisitionReport),
}

impl View for Action {
    type V = acquisition_model::Act;

    open spec fn view(&self) -> acquisition_model::Act {
        match *self {
            Action::Examine => acquisition_model::Act::Examine,
            Action::BeginEpoch(epoch) => acquisition_model::Act::BeginEpoch(epoch),
            Action::Report(progress) => acquisition_model::Act::Report(progress),
            Action::List { cursor, high, page_size } => acquisition_model::Act::List {
                cursor,
                high,
                page_size,
            },
            Action::Verify(uids) => acquisition_model::Act::Verify(uids@),
            Action::Fetch(items) => acquisition_model::Act::Fetch(items@),
            Action::Store(messages) => acquisition_model::Act::Store(messages@),
            Action::Reconnect { wait, page_size } => acquisition_model::Act::Reconnect {
                wait,
                page_size,
            },
            Action::Done(report) => acquisition_model::Act::Done(report),
        }
    }
}

/// What came of the last action.
#[derive(Debug, PartialEq, Eq)]
pub enum Event {
    Examined(Result<MailboxSnapshot, BichonError>),
    Opened(Result<Option<u32>, BichonError>),
    Reported(Result<(), BichonError>),
    Listed { page: Result<Vec<InventoryItem>, BichonError>, cancelled: bool },
    Verified(Result<Vec<bool>, BichonError>),
    Fetched(Result<Vec<UidOnlyMessage>, BichonError>),
    Stored(Result<(), BichonError>),
    Reconnected(Result<(), BichonError>),
}

impl View for Event {
    type V = acquisition_model::Happening;

    open spec fn view(&self) -> acquisition_model::Happening {
        match *self {
            Event::Examined(result) => acquisition_model::Happening::Examined(
                failure::judged(result),
            ),
            Event::Opened(result) => acquisition_model::Happening::Opened(failure::judged(result)),
            Event::Reported(result) => acquisition_model::Happening::Reported(
                failure::judged(result),
            ),
            Event::Listed { page, cancelled } => acquisition_model::Happening::Listed {
                page: match page {
                    Ok(items) => Ok(items@),
                    Err(e) => Err(e@),
                },
                cancelled,
            },
            Event::Verified(result) => acquisition_model::Happening::Verified(
                match result {
                    Ok(flags) => Ok(flags@),
                    Err(e) => Err(e@),
                },
            ),
            Event::Fetched(result) => acquisition_model::Happening::Fetched(
                match result {
                    Ok(messages) => Ok(messages@),
                    Err(e) => Err(e@),
                },
            ),
            Event::Stored(result) => acquisition_model::Happening::Stored(failure::judged(result)),
            Event::Reconnected(result) => acquisition_model::Happening::Reconnected(
                failure::judged(result),
            ),
        }
    }
}

/// A stage and an action, taken by their views.
spec fn went_on(result: Result<(Stage, Action), BichonError>) -> acquisition_model::Next {
    match result {
        Ok((stage, action)) => Ok((stage.state(), action@)),
        Err(e) => Err(e@),
    }
}

/// Whether a new connection may cure an error.
pub fn retryable_transport_error(code: ErrorCode) -> (result: bool)
    ensures
        result == acquisition_model::retryable(code),
{
    match code {
        ErrorCode::NetworkError | ErrorCode::ConnectionTimeout | ErrorCode::RequestTimeout => true,
        _ => false,
    }
}

fn progress_of(tally: &Tally) -> (progress: AcquisitionProgress)
    ensures
        progress == acquisition_model::progress_of(*tally),
{
    AcquisitionProgress {
        planned: tally.snapshot.exists as u64,
        resolved: tally.archived,
        downloaded: tally.downloaded,
    }
}

fn uid_after(uid: u32) -> (next: u32)
    ensures
        next == acquisition_model::uid_after(uid),
{
    if uid == u32::MAX {
        uid
    } else {
        uid + 1
    }
}

fn list(tally: Tally, limits: &AcquisitionLimits, reconnects: u32) -> (result: (Stage, Action))
    ensures
        (result.0.state(), result.1@) == acquisition_model::list(
            tally,
            *limits,
            reconnects as int,
        ),
{
    (
        Stage::Listing { tally, reconnects },
        Action::List { cursor: tally.cursor, high: tally.high, page_size: limits.page_size },
    )
}

fn conclude(tally: Tally) -> (result: Result<(Stage, Action), BichonError>)
    ensures
        went_on(result) == acquisition_model::conclude(tally),
{
    if (tally.full_snapshot && tally.inventoried != tally.snapshot.exists as u64) || tally.archived
        != tally.inventoried {
        return Err(
            raise(
                ErrorCode::ImapUnexpectedResult,
                "UIDONLY inventory did not reconcile the EXAMINE message count",
            ),
        );
    }
    Ok((Stage::Closing { tally, reconnects: 0 }, Action::Examine))
}

fn next_page(tally: Tally, limits: &AcquisitionLimits) -> (result: Result<
    (Stage, Action),
    BichonError,
>)
    ensures
        went_on(result) == acquisition_model::next_page(tally, *limits),
{
    if tally.high > 0 && tally.cursor <= tally.high {
        Ok(list(tally, limits, 0))
    } else {
        conclude(tally)
    }
}

fn on_examined(snapshot: MailboxSnapshot, expected: Option<u32>) -> (result: Result<
    (Stage, Action),
    BichonError,
>)
    ensures
        went_on(result) == acquisition_model::on_examined(snapshot, expected),
{
    if snapshot.uid_validity == 0 || snapshot.uid_next == 0 {
        return Err(
            raise(
                ErrorCode::ImapUnexpectedResult,
                "UIDONLY EXAMINE omitted a valid UIDVALIDITY or UIDNEXT",
            ),
        );
    }
    match expected {
        Some(uid_validity) => {
            if uid_validity != snapshot.uid_validity {
                return Err(
                    raise(
                        ErrorCode::Incompatible,
                        "UIDVALIDITY changed between mailbox discovery and UIDONLY EXAMINE",
                    ),
                );
            }
        },
        None => {},
    }
    Ok((Stage::Opening { snapshot }, Action::BeginEpoch(snapshot.uid_validity)))
}

fn on_opened(snapshot: MailboxSnapshot, resume_after: Option<u32>) -> (result: Result<
    (Stage, Action),
    BichonError,
>)
    requires
        snapshot.uid_next > 0,
    ensures
        went_on(result) == acquisition_model::on_opened(snapshot, resume_after),
{
    let high: u32 = snapshot.uid_next - 1;
    let cursor: u32 = match resume_after {
        Some(checkpoint) => {
            if checkpoint > high {
                return Err(
                    raise(
                        ErrorCode::Incompatible,
                        "UIDONLY UIDNEXT moved behind the proven checkpoint",
                    ),
                );
            }
            uid_after(checkpoint)
        },
        None => 1,
    };
    let tally = Tally {
        snapshot,
        full_snapshot: resume_after.is_none(),
        high,
        cursor,
        previous: 0,
        inventoried: 0,
        archived: 0,
        downloaded: 0,
    };
    Ok((Stage::Announcing { tally }, Action::Report(progress_of(&tally))))
}

fn count_page(tally: Tally, items: &[InventoryItem]) -> (result: Result<Tally, BichonError>)
    ensures
        failure::judged(result) == acquisition_model::counted_page(tally, items@, 0),
{
    let mut counted = tally;
    let mut i: usize = 0;
    while i < items.len()
        invariant
            i <= items@.len(),
            acquisition_model::counted_page(tally, items@, 0) == acquisition_model::counted_page(
                counted,
                items@,
                i as int,
            ),
        decreases items.len() - i,
    {
        let uid = items[i].uid;
        if uid < counted.cursor || uid > counted.high || uid <= counted.previous {
            return Err(
                raise(
                    ErrorCode::ImapUnexpectedResult,
                    "UIDONLY inventory was duplicate, unordered, or outside the fixed range",
                ),
            );
        }
        if counted.inventoried == u64::MAX {
            return Err(
                raise(ErrorCode::PayloadTooLarge, "UIDONLY inventory count overflow"),
            );
        }
        counted = Tally { previous: uid, inventoried: counted.inventoried + 1, ..counted };
        i = i + 1;
    }
    Ok(counted)
}

fn uids_of(items: &[InventoryItem]) -> (uids: Vec<u32>)
    ensures
        uids@ == acquisition_model::uids_of(items@),
{
    let mut uids: Vec<u32> = Vec::new();
    let mut i: usize = 0;
    while i < items.len()
        invariant
            i <= items@.len(),
            uids@ == acquisition_model::uids_of(items@.take(i as int)),
        decreases items.len() - i,
    {
        uids.push(items[i].uid);
        i = i + 1;
        assert(uids@ =~= acquisition_model::uids_of(items@.take(i as int)));
    }
    assert(items@.take(i as int) =~= items@);
    uids
}

fn on_listed(
    tally: Tally,
    items: Vec<InventoryItem>,
    cancelled: bool,
    limits: &AcquisitionLimits,
) -> (result: Result<(Stage, Action), BichonError>)
    requires
        tally.cursor >= 1,
    ensures
        went_on(result) == acquisition_model::on_listed(tally, items@, cancelled, *limits),
{
    if items.len() > limits.page_size as usize {
        return Err(
            raise(
                ErrorCode::ImapUnexpectedResult,
                "UIDONLY inventory page exceeded its requested bound",
            ),
        );
    }
    if items.len() == 0 {
        return conclude(tally);
    }
    if cancelled {
        return Err(raise(ErrorCode::InternalError, "UIDONLY acquisition cancelled"));
    }
    match count_page(Tally { previous: tally.cursor - 1, ..tally }, items.as_slice()) {
        Err(e) => Err(e),
        Ok(counted) => {
            let uids = uids_of(items.as_slice());
            Ok((Stage::Verifying { tally: counted, items }, Action::Verify(uids)))
        },
    }
}

/// Splits items by their flags: how many are set, and the items whose flag is not.
fn split_by_flags(items: &[InventoryItem], flags: &[bool]) -> (result: (u64, Vec<InventoryItem>))
    requires
        items@.len() == flags@.len(),
    ensures
        result.0 == acquisition_model::set_flags(flags@),
        result.1@ == acquisition_model::unflagged(items@, flags@),
{
    let mut set: u64 = 0;
    let mut rest: Vec<InventoryItem> = Vec::new();
    let mut i: usize = 0;
    while i < flags.len()
        invariant
            i <= flags@.len() == items@.len(),
            set <= i,
            set == acquisition_model::set_flags(flags@.take(i as int)),
            rest@ == acquisition_model::unflagged(items@, flags@.take(i as int)),
        decreases flags.len() - i,
    {
        assert(flags@.take(i + 1).drop_last() =~= flags@.take(i as int));
        if flags[i] {
            set = set + 1;
        } else {
            rest.push(items[i]);
        }
        i = i + 1;
    }
    assert(flags@.take(i as int) =~= flags@);
    (set, rest)
}

fn copy_items(items: &[InventoryItem]) -> (copy: Vec<InventoryItem>)
    ensures
        copy@ == items@,
{
    let mut copy: Vec<InventoryItem> = Vec::new();
    copy.extend_from_slice(items);
    assert(copy@ =~= items@);
    copy
}

fn into_queue<A>(list: Vec<A>) -> (queue: VecDeque<A>)
    ensures
        queue@ == list@,
{
    let mut queue: VecDeque<A> = VecDeque::new();
    let ghost all = list@;
    for item in it: list
        invariant
            it.seq() == all,
            queue@ == all.take(it.index() as int),
    {
        queue.push_back(item);
        assert(queue@ =~= all.take(it.index() as int + 1));
    }
    assert(all.take(all.len() as int) =~= all);
    queue
}

fn on_verified(
    tally: Tally,
    items: Vec<InventoryItem>,
    flags: Vec<bool>,
    limits: &AcquisitionLimits,
) -> (result: Result<(Stage, Action), BichonError>)
    requires
        tally.archived + items@.len() <= u64::MAX,
    ensures
        went_on(result) == acquisition_model::on_verified(tally, items@, flags@, *limits),
{
    if flags.len() != items.len() {
        return Err(
            raise(
                ErrorCode::InternalError,
                "UIDONLY receipt lookup returned the wrong result count",
            ),
        );
    }
    let (set, rest) = split_by_flags(items.as_slice(), flags.as_slice());
    proof {
        acquisition_laws::lemma_unflagged(items@, flags@);
    }
    let fetches = planned_fetch_batches(rest, limits.fetch_batch_size, limits.fetch_batch_bytes);
    let page = Page {
        batches: into_queue(fetches),
        requested: VecDeque::new(),
        arrived: VecDeque::new(),
        pending: Vec::new(),
        pending_bytes: 0,
    };
    assert(page.state() =~= acquisition_model::fresh_page(
        batches::planned(
            acquisition_model::unflagged(items@, flags@),
            limits.fetch_batch_size,
            limits.fetch_batch_bytes,
        ),
    ));
    proceed(Tally { archived: tally.archived + set, ..tally }, page, limits)
}

fn must_store(page: &Page, actual: u64) -> (result: bool)
    ensures
        result == acquisition_model::must_store(page.state(), actual as int),
{
    page.pending.len() != 0 && (page.pending.len() >= UIDONLY_PROJECTION_BATCH_MESSAGES
        || page.pending_bytes.saturating_add(actual) > UIDONLY_PROJECTION_BATCH_BYTES)
}

fn absorb(page: Page, limits: &AcquisitionLimits) -> (result: Result<Page, BichonError>)
    requires
        acquisition_laws::sound_page(page.state()),
    ensures
        match result {
            Ok(taken) => acquisition_model::absorbed(page.state(), *limits) == Ok::<
                acquisition_model::PageState,
                failure::Failure,
            >(taken.state()),
            Err(e) => acquisition_model::absorbed(page.state(), *limits) == Err::<
                acquisition_model::PageState,
                failure::Failure,
            >(e@),
        },
{
    let mut taken = page;
    let ghost start = page.state();
    while taken.arrived.len() > 0
        invariant
            acquisition_laws::sound_page(taken.state()),
            acquisition_model::absorbed(start, *limits) == acquisition_model::absorbed(
                taken.state(),
                *limits,
            ),
            start == page.state(),
        decreases taken.arrived@.len(),
    {
        let ghost here = taken.state();
        let actual: u64 = taken.arrived[0].body.len() as u64;
        if taken.arrived[0].uid != taken.requested[0].uid {
            return Err(
                raise(
                    ErrorCode::ImapUnexpectedResult,
                    "UIDONLY exact fetch returned the wrong UID",
                ),
            );
        }
        if actual > limits.max_literal_bytes {
            return Err(
                raise(
                    ErrorCode::PayloadTooLarge,
                    "UIDONLY exact body exceeded its pre-read budget",
                ),
            );
        }
        if must_store(&taken, actual) {
            return Ok(taken);
        }
        taken.pending_bytes = taken.pending_bytes + actual;
        let _ = taken.requested.pop_front();
        match taken.arrived.pop_front() {
            Some(message) => {
                taken.pending.push(message);
            },
            None => {},
        }
        assert(taken.requested@ =~= here.requested.drop_first());
        assert(taken.arrived@ =~= here.arrived.drop_first());
        assert(taken.state() =~= (acquisition_model::PageState {
            requested: here.requested.drop_first(),
            arrived: here.arrived.drop_first(),
            pending: here.pending.push(here.arrived[0]),
            pending_bytes: here.pending_bytes + actual,
            ..here
        }));
    }
    Ok(taken)
}

fn store(tally: Tally, page: Page, at_end: bool) -> (result: (Stage, Action))
    ensures
        result.0.state() == (acquisition_model::Stage::Storing {
            tally,
            page: acquisition_model::without_pending(page.state()),
            stored: page.pending@.len() as int,
            at_end,
        }),
        result.1@ == acquisition_model::Act::Store(page.pending@),
{
    let stored: u64 = page.pending.len() as u64;
    let Page { batches, requested, arrived, pending, pending_bytes: _ } = page;
    let rest = Page { batches, requested, arrived, pending: Vec::new(), pending_bytes: 0 };
    assert(rest.state() =~= acquisition_model::without_pending(page.state()));
    (Stage::Storing { tally, page: rest, stored, at_end }, Action::Store(pending))
}

fn page_done(tally: Tally, page: Page) -> (result: (Stage, Action))
    ensures
        (result.0.state(), result.1@) == acquisition_model::page_done(tally, page.state()),
{
    let moved = Tally { cursor: uid_after(tally.previous), ..tally };
    let progress = progress_of(&moved);
    (Stage::Reporting { tally: moved, page, at_end: true }, Action::Report(progress))
}

fn proceed(tally: Tally, page: Page, limits: &AcquisitionLimits) -> (result: Result<
    (Stage, Action),
    BichonError,
>)
    requires
        acquisition_laws::sound_page(page.state()),
    ensures
        went_on(result) == acquisition_model::proceed(tally, page.state(), *limits),
{
    let mut page = match absorb(page, limits) {
        Err(e) => {
            return Err(e);
        },
        Ok(taken) => taken,
    };
    if page.arrived.len() > 0 {
        return Ok(store(tally, page, false));
    }
    let ghost taken = page.state();
    match page.batches.pop_front() {
        Some(batch) => {
            proof {
                assert(batch@ == taken.batches[0]);
                assert(batches::views(page.batches@) =~= taken.batches.drop_first());
            }
            let current = copy_items(batch.as_slice());
            let asked = copy_items(batch.as_slice());
            let fetch = Fetch {
                requested: batch,
                current,
                pieces: Vec::new(),
                messages: Vec::new(),
                reconnects: 0,
            };
            assert(fetch.state() =~= acquisition_model::fetch_of(taken.batches[0]));
            Ok((Stage::Fetching { tally, page, fetch }, Action::Fetch(asked)))
        },
        None => {
            assert(page.state() =~= taken);
            if page.pending.len() > 0 {
                Ok(store(tally, page, true))
            } else {
                Ok(page_done(tally, page))
            }
        },
    }
}

fn on_fetched(
    tally: Tally,
    page: Page,
    fetch: Fetch,
    arrived: Vec<UidOnlyMessage>,
    limits: &AcquisitionLimits,
) -> (result: Result<(Stage, Action), BichonError>)
    requires
        acquisition_laws::sound_page(page.state()),
    ensures
        went_on(result) == acquisition_model::on_fetched(
            tally,
            page.state(),
            fetch.state(),
            arrived@,
            *limits,
        ),
{
    let ghost before = fetch.state();
    let mut fetch = fetch;
    let mut arrived = arrived;
    let ghost piece = arrived@;
    fetch.messages.append(&mut arrived);
    assert(fetch.messages@ =~= before.messages + piece);
    match fetch.pieces.pop() {
        Some(next) => {
            proof {
                assert(next@ == before.pieces.last());
                assert(batches::views(fetch.pieces@) =~= before.pieces.drop_last());
            }
            let asked = copy_items(next.as_slice());
            fetch.current = next;
            Ok((Stage::Fetching { tally, page, fetch }, Action::Fetch(asked)))
        },
        None => {
            if fetch.messages.len() != fetch.requested.len() {
                return Err(
                    raise(
                        ErrorCode::ImapUnexpectedResult,
                        "UIDONLY body batch returned the wrong result count",
                    ),
                );
            }
            let ghost waiting = page.state();
            let Fetch { requested, current: _, pieces: _, messages, reconnects: _ } = fetch;
            let Page { batches, requested: _, arrived: _, pending, pending_bytes } = page;
            let page = Page {
                batches,
                requested: into_queue(requested),
                arrived: into_queue(messages),
                pending,
                pending_bytes,
            };
            assert(page.state() =~= (acquisition_model::PageState {
                requested: before.requested,
                arrived: before.messages + piece,
                ..waiting
            }));
            proceed(tally, page, limits)
        },
    }
}

fn on_stored(tally: Tally, page: Page, stored: u64, at_end: bool) -> (result: (Stage, Action))
    requires
        tally.archived + stored <= u64::MAX,
        tally.downloaded + stored <= u64::MAX,
    ensures
        (result.0.state(), result.1@) == acquisition_model::on_stored(
            tally,
            page.state(),
            stored as int,
            at_end,
        ),
{
    let grown = Tally {
        archived: tally.archived + stored,
        downloaded: tally.downloaded + stored,
        ..tally
    };
    if at_end {
        page_done(grown, page)
    } else {
        let progress = progress_of(&grown);
        (Stage::Reporting { tally: grown, page, at_end: false }, Action::Report(progress))
    }
}

fn on_reported(tally: Tally, page: Page, at_end: bool, limits: &AcquisitionLimits) -> (result:
    Result<(Stage, Action), BichonError>)
    requires
        acquisition_laws::sound_page(page.state()),
    ensures
        went_on(result) == acquisition_model::on_reported(tally, page.state(), at_end, *limits),
{
    if !at_end {
        proceed(tally, page, limits)
    } else if tally.previous == u32::MAX {
        conclude(tally)
    } else {
        next_page(tally, limits)
    }
}

fn on_closed(tally: Tally, snapshot: MailboxSnapshot) -> (result: Result<
    (Stage, Action),
    BichonError,
>)
    ensures
        went_on(result) == acquisition_model::on_closed(tally, snapshot),
{
    if snapshot.uid_validity != tally.snapshot.uid_validity || snapshot.uid_next
        < tally.snapshot.uid_next {
        return Err(
            raise(ErrorCode::Incompatible, "UIDONLY mailbox epoch changed during acquisition"),
        );
    }
    let report = AcquisitionReport {
        uid_validity: tally.snapshot.uid_validity,
        uid_next: tally.snapshot.uid_next,
        exists: tally.snapshot.exists,
        checkpoint: if tally.high > 0 {
            Some(tally.high)
        } else {
            None
        },
        inventoried: tally.inventoried,
        archived: tally.archived,
    };
    Ok((Stage::Closing { tally, reconnects: 0 }, Action::Done(report)))
}

fn wait_before(reconnects: u32) -> (wait: Duration)
    ensures
        wait == acquisition_model::wait_before(reconnects as int),
{
    if reconnects <= 1 {
        Duration::from_secs(1)
    } else if reconnects == 2 {
        Duration::from_secs(2)
    } else {
        Duration::from_secs(4)
    }
}

fn recover(
    tally: Tally,
    retry: Retry,
    reconnects: u32,
    last: BichonError,
    limits: &AcquisitionLimits,
) -> (result: Result<(Stage, Action), BichonError>)
    ensures
        went_on(result) == acquisition_model::recover(
            tally,
            retry.state(),
            reconnects as int,
            last@,
            *limits,
        ),
{
    if reconnects >= MAX_UIDONLY_RECONNECTS {
        return Err(last);
    }
    let next: u32 = reconnects + 1;
    Ok(
        (
            Stage::Reconnecting { tally, retry, reconnects: next, last },
            Action::Reconnect { wait: wait_before(next), page_size: limits.page_size },
        ),
    )
}

fn recovery_failure() -> (error: BichonError)
    ensures
        error@ == acquisition_model::recovery_failure(),
{
    raise(ErrorCode::NetworkError, "UIDONLY transport recovery failed")
}

fn halve(fetch: Fetch) -> (result: Fetch)
    ensures
        result.state() == acquisition_model::halves(fetch.state()),
{
    let ghost before = fetch.state();
    let mut fetch = fetch;
    let middle: usize = fetch.current.len() / 2;
    let second = fetch.current.split_off(middle);
    assert(second@ =~= before.current.skip(middle as int));
    assert(fetch.current@ =~= before.current.take(middle as int));
    fetch.pieces.push(second);
    assert(batches::views(fetch.pieces@) =~= before.pieces.push(second@));
    fetch
}

fn resume(tally: Tally, retry: Retry, reconnects: u32, limits: &AcquisitionLimits) -> (result: (
    Stage,
    Action,
))
    ensures
        (result.0.state(), result.1@) == acquisition_model::resumed(
            tally,
            retry.state(),
            reconnects as int,
            *limits,
        ),
{
    match retry {
        Retry::List => list(tally, limits, reconnects),
        Retry::Close => (Stage::Closing { tally, reconnects }, Action::Examine),
        Retry::Fetch { page, fetch, split } => {
            let mut next = if split {
                halve(fetch)
            } else {
                fetch
            };
            next.reconnects = reconnects;
            let asked = copy_items(next.current.as_slice());
            (Stage::Fetching { tally, page, fetch: next }, Action::Fetch(asked))
        },
    }
}

fn on_reproven(
    tally: Tally,
    retry: Retry,
    reconnects: u32,
    examined: Result<MailboxSnapshot, BichonError>,
    limits: &AcquisitionLimits,
) -> (result: Result<(Stage, Action), BichonError>)
    ensures
        forall|last: failure::Failure| #[trigger]
            acquisition_model::on_reproven(
                tally,
                retry.state(),
                reconnects as int,
                last,
                failure::judged(examined),
                *limits,
            ) == went_on(result),
{
    match examined {
        Ok(snapshot) => {
            if snapshot.uid_validity == tally.snapshot.uid_validity && snapshot.uid_next
                >= tally.snapshot.uid_next {
                Ok(resume(tally, retry, reconnects, limits))
            } else {
                Err(
                    raise(
                        ErrorCode::Incompatible,
                        "UIDONLY mailbox epoch changed while reconnecting",
                    ),
                )
            }
        },
        Err(error) => {
            if retryable_transport_error(error.code) {
                recover(tally, retry, reconnects, error, limits)
            } else {
                Err(error)
            }
        },
    }
}

/// The error of an operation that was broken off: cancelled, or out of time.
pub fn operation_interruption(expired: bool) -> (error: BichonError)
    ensures
        error@ == if expired {
            failure::failure(
                ErrorCode::RequestTimeout,
                "UIDONLY operation runtime ceiling exceeded"@,
            )
        } else {
            failure::failure(ErrorCode::InternalError, "UIDONLY acquisition cancelled"@)
        },
{
    if expired {
        raise(ErrorCode::RequestTimeout, "UIDONLY operation runtime ceiling exceeded")
    } else {
        raise(ErrorCode::InternalError, "UIDONLY acquisition cancelled")
    }
}

/// The acquisition of one mailbox.
#[derive(Debug)]
pub struct Acquisition {
    limits: AcquisitionLimits,
    expected_uid_validity: Option<u32>,
    stage: Stage,
}

impl Acquisition {
    pub closed spec fn limits(self) -> AcquisitionLimits {
        self.limits
    }

    pub closed spec fn expected(self) -> Option<u32> {
        self.expected_uid_validity
    }

    pub closed spec fn stage(self) -> acquisition_model::Stage {
        self.stage.state()
    }

    /// Every message that the inventory listed is archived or in flight.
    pub open spec fn wf(self) -> bool {
        acquisition_laws::sound(self.stage())
    }

    /// Starts an acquisition: the mailbox is to be examined. `expected_uid_validity`
    /// is the epoch that is already known.
    pub fn start(limits: AcquisitionLimits, expected_uid_validity: Option<u32>) -> (result: Result<
        (Acquisition, Action),
        BichonError,
    >)
        ensures
            result is Ok <==> limits.usable(),
            result matches Ok((acquisition, action)) ==> {
                &&& acquisition.wf()
                &&& acquisition.limits() == limits
                &&& acquisition.expected() == expected_uid_validity
                &&& acquisition.stage() is Examining
                &&& action@ == acquisition_model::Act::Examine
            },
            result matches Err(e) ==> e@ == failure::failure(
                ErrorCode::InvalidParameter,
                "UIDONLY acquisition limits must be nonzero"@,
            ),
    {
        match limits.validate() {
            Err(e) => Err(e),
            Ok(limits) => Ok(
                (
                    Acquisition { limits, expected_uid_validity, stage: Stage::Examining },
                    Action::Examine,
                ),
            ),
        }
    }

    /// Goes on with what came of the last action. A checkpoint may be persisted only
    /// from the report of [`Action::Done`].
    pub fn on_event(self, event: Event) -> (result: Result<(Acquisition, Action), BichonError>)
        requires
            self.wf(),
        ensures
            match result {
                Ok((next, action)) => {
                    &&& acquisition_model::step(
                        self.limits(),
                        self.expected(),
                        self.stage(),
                        event@,
                    ) == Ok::<(acquisition_model::Stage, acquisition_model::Act), failure::Failure>(
                        (next.stage(), action@),
                    )
                    &&& next.wf()
                    &&& next.limits() == self.limits()
                    &&& next.expected() == self.expected()
                },
                Err(e) => acquisition_model::step(
                    self.limits(),
                    self.expected(),
                    self.stage(),
                    event@,
                ) == Err::<(acquisition_model::Stage, acquisition_model::Act), failure::Failure>(
                    e@,
                ),
            },
    {
        proof {
            acquisition_laws::law_steps_keep_account(
                self.limits,
                self.expected_uid_validity,
                self.stage.state(),
                event@,
            );
        }
        let Acquisition { limits, expected_uid_validity, stage } = self;
        match advance(&limits, expected_uid_validity, stage, event) {
            Err(e) => Err(e),
            Ok((stage, action)) => Ok(
                (Acquisition { limits, expected_uid_validity, stage }, action),
            ),
        }
    }
}

fn advance(
    limits: &AcquisitionLimits,
    expected: Option<u32>,
    stage: Stage,
    event: Event,
) -> (result: Result<(Stage, Action), BichonError>)
    requires
        acquisition_laws::sound(stage.state()),
    ensures
        went_on(result) == acquisition_model::step(*limits, expected, stage.state(), event@),
{
    match (stage, event) {
        (Stage::Examining, Event::Examined(Ok(snapshot))) => on_examined(snapshot, expected),
        (Stage::Examining, Event::Examined(Err(e))) => Err(e),
        (Stage::Opening { snapshot }, Event::Opened(Ok(resume_after))) => on_opened(
            snapshot,
            resume_after,
        ),
        (Stage::Opening { .. }, Event::Opened(Err(e))) => Err(e),
        (Stage::Announcing { tally }, Event::Reported(Ok(()))) => next_page(tally, limits),
        (Stage::Announcing { .. }, Event::Reported(Err(e))) => Err(e),
        (Stage::Listing { tally, .. }, Event::Listed { page: Ok(items), cancelled }) => on_listed(
            tally,
            items,
            cancelled,
            limits,
        ),
        (Stage::Listing { tally, reconnects }, Event::Listed { page: Err(e), .. }) => {
            if retryable_transport_error(e.code) {
                recover(tally, Retry::List, reconnects, recovery_failure(), limits)
            } else {
                Err(e)
            }
        },
        (Stage::Verifying { tally, items }, Event::Verified(Ok(flags))) => on_verified(
            tally,
            items,
            flags,
            limits,
        ),
        (Stage::Verifying { .. }, Event::Verified(Err(e))) => Err(e),
        (Stage::Fetching { tally, page, fetch }, Event::Fetched(Ok(arrived))) => on_fetched(
            tally,
            page,
            fetch,
            arrived,
            limits,
        ),
        (Stage::Fetching { tally, page, fetch }, Event::Fetched(Err(e))) => {
            let reconnects = fetch.reconnects;
            if retryable_transport_error(e.code) {
                recover(
                    tally,
                    Retry::Fetch { page, fetch, split: false },
                    reconnects,
                    recovery_failure(),
                    limits,
                )
            } else if e.code == ErrorCode::PayloadTooLarge && fetch.current.len() > 1 {
                recover(
                    tally,
                    Retry::Fetch { page, fetch, split: true },
                    reconnects,
                    recovery_failure(),
                    limits,
                )
            } else {
                Err(e)
            }
        },
        (Stage::Storing { tally, page, stored, at_end }, Event::Stored(Ok(()))) => Ok(
            on_stored(tally, page, stored, at_end),
        ),
        (Stage::Storing { .. }, Event::Stored(Err(e))) => Err(e),
        (Stage::Reporting { tally, page, at_end }, Event::Reported(Ok(()))) => on_reported(
            tally,
            page,
            at_end,
            limits,
        ),
        (Stage::Reporting { .. }, Event::Reported(Err(e))) => Err(e),
        (Stage::Closing { tally, .. }, Event::Examined(Ok(snapshot))) => on_closed(
            tally,
            snapshot,
        ),
        (Stage::Closing { tally, reconnects }, Event::Examined(Err(e))) => {
            if retryable_transport_error(e.code) {
                recover(tally, Retry::Close, reconnects, recovery_failure(), limits)
            } else {
                Err(e)
            }
        },
        (
            Stage::Reconnecting { tally, retry, reconnects, last },
            Event::Reconnected(Ok(())),
        ) => Ok((Stage::Reproving { tally, retry, reconnects, last }, Action::Examine)),
        (Stage::Reconnecting { tally, retry, reconnects, .. }, Event::Reconnected(Err(e))) => {
            if retryable_transport_error(e.code) {
                recover(tally, retry, reconnects, e, limits)
            } else {
                Err(e)
            }
        },
        (Stage::Reproving { tally, retry, reconnects, .. }, Event::Examined(examined)) =>
            on_reproven(tally, retry, reconnects, examined, limits),
        _ => Err(raise(ErrorCode::InternalError, "UIDONLY acquisition is out of step")),
    }
}

} // verus!
