//! What the transport owes to a server that answers what it was asked.

use crate::acquisition_model;
use crate::acquisition_model::{MailboxSnapshot, UidOnlyMessage};
use crate::batches::InventoryItem;
use crate::failure::{BichonError, ErrorCode, Failure};
use crate::text;
use crate::transport;
use crate::transport::{FetchedMessage, ImapFailure, IoFailure, Taken};
use vstd::prelude::*;

verus! {

/// A connection that broke is a network error, which a new connection cures; any other
/// failure of an IMAP operation is an unexpected answer, which none does.
pub proof fn law_broken_connections_are_curable(error: ImapFailure, code: ErrorCode)
    requires
        call_ensures(transport::imap_error_code, (error,), code),
    ensures
        error == ImapFailure::Unlisted || error == ImapFailure::Io(IoFailure::Unlisted) ==> code
            == ErrorCode::ImapUnexpectedResult && !acquisition_model::retryable(code),
        error != ImapFailure::Unlisted && error != ImapFailure::Io(IoFailure::Unlisted) ==> code
            == ErrorCode::NetworkError && acquisition_model::retryable(code),
{
}

/// A snapshot says what `EXAMINE` reported, and needs both UIDVALIDITY and UIDNEXT.
pub proof fn law_snapshot_is_as_reported(
    exists_count: u32,
    uid_validity: Option<u32>,
    uid_next: Option<u32>,
    result: Result<MailboxSnapshot, BichonError>,
)
    requires
        call_ensures(
            transport::examined_snapshot,
            (exists_count, uid_validity, uid_next),
            result,
        ),
    ensures
        result is Ok <==> uid_validity is Some && uid_next is Some,
        result matches Ok(snapshot) ==> snapshot.exists == exists_count && Some(
            snapshot.uid_validity,
        ) == uid_validity && Some(snapshot.uid_next) == uid_next,
        result matches Err(e) ==> e@.code == ErrorCode::ImapUnexpectedResult,
{
}

/// A fetch that reports the metadata of one message: a UID, under which it comes, and a
/// size.
pub open spec fn reports_metadata(fetched: FetchedMessage) -> bool {
    fetched.uid == Some(fetched.leading) && fetched.size is Some
}

/// Fetches with their metadata give the items of an inventory, one each and in their order;
/// one that lacks its metadata is refused, and everything with it.
pub proof fn law_reported_metadata_are_the_items(fetched: Seq<FetchedMessage>)
    ensures
        (forall|i: int| 0 <= i < fetched.len() ==> reports_metadata(#[trigger] fetched[i])) ==> {
            &&& transport::items_of(fetched) matches Ok(items)
            &&& items.len() == fetched.len()
            &&& forall|i: int|
                0 <= i < items.len() ==> (#[trigger] items[i]).uid == fetched[i].leading
                    && Some(items[i].rfc822_size as u32) == fetched[i].size
                    && items[i].rfc822_size <= u32::MAX
        },
        (exists|i: int| 0 <= i < fetched.len() && !reports_metadata(#[trigger] fetched[i]))
            ==> transport::items_of(fetched) is Err,
    decreases fetched.len(),
{
    if fetched.len() > 0 {
        let fewer = fetched.drop_last();
        let last = fetched.len() - 1;
        law_reported_metadata_are_the_items(fewer);
        if forall|i: int| 0 <= i < fetched.len() ==> reports_metadata(#[trigger] fetched[i]) {
            assert forall|i: int| 0 <= i < fewer.len() implies reports_metadata(
                #[trigger] fewer[i],
            ) by {
                assert(reports_metadata(fetched[i]));
            }
            assert(reports_metadata(fetched[last]));
            let before = transport::items_of(fewer)->Ok_0;
            let items = transport::items_of(fetched)->Ok_0;
            assert forall|i: int| 0 <= i < items.len() implies (#[trigger] items[i]).uid
                == fetched[i].leading && Some(items[i].rfc822_size as u32) == fetched[i].size
                && items[i].rfc822_size <= u32::MAX by {
                if i < before.len() {
                    assert(items[i] == before[i]);
                    assert(fewer[i] == fetched[i]);
                }
            }
        }
        if exists|i: int| 0 <= i < fetched.len() && !reports_metadata(#[trigger] fetched[i]) {
            let i = choose|i: int|
                0 <= i < fetched.len() && !reports_metadata(#[trigger] fetched[i]);
            if i < last {
                assert(!reports_metadata(fewer[i]));
            }
        }
    }
}

/// A fetch that brings one message that was asked for, within the budget for one.
pub open spec fn brings_message(
    items: Seq<InventoryItem>,
    fetched: FetchedMessage,
    literal_budget: u64,
) -> bool {
    &&& fetched.uid == Some(fetched.leading)
    &&& fetched.size is Some
    &&& fetched.body is Some
    &&& fetched.body->0@.len() <= literal_budget
    &&& exists|i: int| 0 <= i < items.len() && (#[trigger] items[i]).uid == fetched.leading
}

/// The octets of some fetches.
pub open spec fn octets(fetched: Seq<FetchedMessage>) -> int
    decreases fetched.len(),
{
    if fetched.len() == 0 {
        0
    } else {
        octets(fetched.drop_last()) + fetched.last().body->0@.len()
    }
}

proof fn lemma_octets_from_front(fetched: Seq<FetchedMessage>)
    requires
        fetched.len() > 0,
    ensures
        octets(fetched) == fetched[0].body->0@.len() + octets(fetched.drop_first()),
        octets(fetched.drop_first()) >= 0,
    decreases fetched.len(),
{
    if fetched.len() > 1 {
        let shorter = fetched.drop_last();
        lemma_octets_from_front(shorter);
        assert(shorter.drop_first() =~= fetched.drop_first().drop_last());
        assert(fetched.drop_first().last() == fetched.last());
    } else {
        assert(fetched.drop_last() =~= Seq::empty());
        assert(fetched.drop_first() =~= Seq::empty());
    }
}

pub open spec fn unlike(fetched: Seq<FetchedMessage>) -> bool {
    forall|i: int, j: int|
        0 <= i < j < fetched.len() ==> (#[trigger] fetched[i]).leading != (
        #[trigger] fetched[j]).leading
}

proof fn lemma_brought_messages_are_taken_in(
    items: Seq<InventoryItem>,
    taken: Taken,
    fetched: Seq<FetchedMessage>,
    literal_budget: u64,
    command_budget: u64,
)
    requires
        forall|i: int|
            0 <= i < fetched.len() ==> brings_message(items, #[trigger] fetched[i], literal_budget)
                && !taken.messages.contains_key(fetched[i].leading),
        unlike(fetched),
        0 <= taken.total,
        taken.total + octets(fetched) <= command_budget,
    ensures
        ({
            &&& transport::all_taken_in(items, taken, fetched, literal_budget, command_budget)
                matches Ok(end)
            &&& end.total == taken.total + octets(fetched)
            &&& forall|i: int|
                0 <= i < fetched.len() ==> {
                    &&& end.messages.contains_key((#[trigger] fetched[i]).leading)
                    &&& end.messages[fetched[i].leading].uid == fetched[i].leading
                    &&& Some(end.messages[fetched[i].leading].body) == fetched[i].body
                }
            &&& forall|uid: u32|
                taken.messages.contains_key(uid) ==> #[trigger] end.messages.contains_key(uid)
                    && end.messages[uid] == taken.messages[uid]
        }),
    decreases fetched.len(),
{
    if fetched.len() > 0 {
        lemma_octets_from_front(fetched);
        let first = fetched[0];
        let rest = fetched.drop_first();
        assert(brings_message(items, first, literal_budget));
        assert(transport::asked(items, first.leading));
        let next = Taken {
            total: taken.total + first.body->0@.len(),
            messages: taken.messages.insert(
                first.leading,
                UidOnlyMessage { uid: first.leading, body: first.body->0 },
            ),
        };
        assert(transport::taken_in(items, taken, first, literal_budget, command_budget) == Ok::<
            Taken,
            Failure,
        >(next));
        assert forall|i: int| 0 <= i < rest.len() implies brings_message(
            items,
            #[trigger] rest[i],
            literal_budget,
        ) && !next.messages.contains_key(rest[i].leading) by {
            assert(rest[i] == fetched[i + 1]);
            assert(fetched[0].leading != fetched[i + 1].leading);
        }
        assert forall|i: int, j: int| 0 <= i < j < rest.len() implies (#[trigger] rest[i]).leading
            != (#[trigger] rest[j]).leading by {
            assert(rest[i] == fetched[i + 1]);
            assert(rest[j] == fetched[j + 1]);
        }
        lemma_brought_messages_are_taken_in(items, next, rest, literal_budget, command_budget);
        let end = transport::all_taken_in(
            items,
            next,
            rest,
            literal_budget,
            command_budget,
        )->Ok_0;
        assert forall|i: int| 0 <= i < fetched.len() implies {
            &&& end.messages.contains_key((#[trigger] fetched[i]).leading)
            &&& end.messages[fetched[i].leading].uid == fetched[i].leading
            &&& Some(end.messages[fetched[i].leading].body) == fetched[i].body
        } by {
            if i > 0 {
                assert(rest[i - 1] == fetched[i]);
            } else {
                assert(next.messages.contains_key(first.leading));
                assert(end.messages.contains_key(first.leading));
            }
        }
        assert forall|uid: u32| taken.messages.contains_key(uid) implies
            #[trigger] end.messages.contains_key(uid) && end.messages[uid] == taken.messages[uid] by {
            assert(!taken.messages.contains_key(first.leading));
            assert(next.messages.contains_key(uid));
            assert(end.messages.contains_key(uid));
        }
    }
}

proof fn lemma_all_in_order(items: Seq<InventoryItem>, messages: Map<u32, UidOnlyMessage>)
    requires
        forall|i: int|
            0 <= i < items.len() ==> messages.contains_key((#[trigger] items[i]).uid),
        forall|i: int, j: int|
            0 <= i < j < items.len() ==> (#[trigger] items[i]).uid != (#[trigger] items[j]).uid,
    ensures
        ({
            &&& transport::in_order(items, messages) matches Ok(ordered)
            &&& ordered.len() == items.len()
            &&& forall|i: int|
                0 <= i < items.len() ==> #[trigger] ordered[i] == messages[items[i].uid]
        }),
    decreases items.len(),
{
    if items.len() > 0 {
        let tail = items.drop_first();
        let fewer = messages.remove(items[0].uid);
        assert(messages.contains_key(items[0].uid));
        assert forall|i: int| 0 <= i < tail.len() implies fewer.contains_key(
            (#[trigger] tail[i]).uid,
        ) by {
            assert(tail[i] == items[i + 1]);
            assert(items[0].uid != items[i + 1].uid);
        }
        assert forall|i: int, j: int| 0 <= i < j < tail.len() implies (#[trigger] tail[i]).uid != (
        #[trigger] tail[j]).uid by {
            assert(tail[i] == items[i + 1]);
            assert(tail[j] == items[j + 1]);
        }
        lemma_all_in_order(tail, fewer);
        let rest = transport::in_order(tail, fewer)->Ok_0;
        let ordered = transport::in_order(items, messages)->Ok_0;
        assert forall|i: int| 0 <= i < items.len() implies #[trigger] ordered[i]
            == messages[items[i].uid] by {
            if i > 0 {
                assert(ordered[i] == rest[i - 1]);
                assert(tail[i - 1] == items[i]);
                assert(items[0].uid != items[i].uid);
            }
        }
    }
}

/// A server that sends every message that was asked for once, in whatever order, within the
/// budgets and as many octets as the adapter counted, is never refused: the messages come
/// out in the order in which they were asked for, each with the octets sent for its UID.
pub proof fn law_exact_answers_are_accepted(
    items: Seq<InventoryItem>,
    fetched: Seq<FetchedMessage>,
    literal_budget: u64,
    command_budget: u64,
    before: u64,
    after: u64,
    i: int,
    j: int,
)
    requires
        fetched.len() == items.len(),
        forall|k: int, m: int|
            0 <= k < m < items.len() ==> (#[trigger] items[k]).uid != (#[trigger] items[m]).uid,
        unlike(fetched),
        forall|k: int|
            0 <= k < fetched.len() ==> brings_message(items, #[trigger] fetched[k], literal_budget),
        forall|k: int|
            0 <= k < items.len() ==> exists|m: int|
                0 <= m < fetched.len() && (#[trigger] fetched[m]).leading == (
                #[trigger] items[k]).uid,
        octets(fetched) <= command_budget,
        after - before == octets(fetched),
        0 <= i < items.len(),
        0 <= j < fetched.len(),
        items[i].uid == fetched[j].leading,
    ensures
        ({
            &&& transport::exact_fetch(
                items,
                fetched,
                literal_budget,
                command_budget,
                before,
                after,
            ) matches Ok(messages)
            &&& messages.len() == items.len()
            &&& messages[i].uid == items[i].uid
            &&& Some(messages[i].body) == fetched[j].body
        }),
{
    let start = Taken { total: 0, messages: Map::empty() };
    lemma_brought_messages_are_taken_in(items, start, fetched, literal_budget, command_budget);
    let end = transport::all_taken_in(
        items,
        start,
        fetched,
        literal_budget,
        command_budget,
    )->Ok_0;
    assert forall|k: int| 0 <= k < items.len() implies end.messages.contains_key(
        (#[trigger] items[k]).uid,
    ) by {
        let m = choose|m: int|
            0 <= m < fetched.len() && (#[trigger] fetched[m]).leading == items[k].uid;
        assert(end.messages.contains_key(fetched[m].leading));
    }
    lemma_all_in_order(items, end.messages);
    assert(end.messages.contains_key(fetched[j].leading));
}

proof fn lemma_taken_in_only_answers(
    items: Seq<InventoryItem>,
    taken: Taken,
    fetched: Seq<FetchedMessage>,
    literal_budget: u64,
    command_budget: u64,
    i: int,
)
    requires
        transport::all_taken_in(items, taken, fetched, literal_budget, command_budget) is Ok,
        0 <= i < fetched.len(),
    ensures
        brings_message(items, fetched[i], literal_budget),
        !taken.messages.contains_key(fetched[i].leading),
        forall|j: int| i < j < fetched.len() ==> fetched[i].leading != (#[trigger] fetched[j]).leading,
    decreases fetched.len(),
{
    let next = transport::taken_in(items, taken, fetched[0], literal_budget, command_budget)->Ok_0;
    let rest = fetched.drop_first();
    if i > 0 {
        lemma_taken_in_only_answers(items, next, rest, literal_budget, command_budget, i - 1);
        assert(rest[i - 1] == fetched[i]);
        assert forall|j: int| i < j < fetched.len() implies fetched[i].leading != (
        #[trigger] fetched[j]).leading by {
            assert(rest[j - 1] == fetched[j]);
        }
    } else {
        assert forall|j: int| i < j < fetched.len() implies fetched[i].leading != (
        #[trigger] fetched[j]).leading by {
            lemma_taken_in_only_answers(items, next, rest, literal_budget, command_budget, j - 1);
            assert(rest[j - 1] == fetched[j]);
            assert(next.messages.contains_key(fetched[0].leading));
        }
    }
}

/// Anything else is refused: an answer that was not asked for, comes under another number
/// than its UID, lacks its size or body, is too large, or comes twice.
pub proof fn law_inexact_answers_are_refused(
    items: Seq<InventoryItem>,
    fetched: Seq<FetchedMessage>,
    literal_budget: u64,
    command_budget: u64,
    before: u64,
    after: u64,
    i: int,
    j: int,
)
    requires
        0 <= i <= j < fetched.len(),
        fetched.len() != items.len() || !brings_message(items, fetched[i], literal_budget) || (i
            < j && fetched[i].leading == fetched[j].leading),
    ensures
        transport::exact_fetch(items, fetched, literal_budget, command_budget, before, after) is Err,
{
    let start = Taken { total: 0, messages: Map::empty() };
    if fetched.len() == items.len() && transport::all_taken_in(
        items,
        start,
        fetched,
        literal_budget,
        command_budget,
    ) is Ok {
        lemma_taken_in_only_answers(items, start, fetched, literal_budget, command_budget, i);
    }
}

/// The octets of an accepted fetch are as many as the adapter counted.
pub proof fn law_counted_octets_are_those_accepted(
    items: Seq<InventoryItem>,
    fetched: Seq<FetchedMessage>,
    literal_budget: u64,
    command_budget: u64,
    before: u64,
    after: u64,
)
    ensures
        transport::exact_fetch(items, fetched, literal_budget, command_budget, before, after) is Ok
            ==> after - before == octets(fetched),
{
    let start = Taken { total: 0, messages: Map::empty() };
    lemma_taken_octets(items, start, fetched, literal_budget, command_budget);
}

proof fn lemma_taken_octets(
    items: Seq<InventoryItem>,
    taken: Taken,
    fetched: Seq<FetchedMessage>,
    literal_budget: u64,
    command_budget: u64,
)
    ensures
        transport::all_taken_in(items, taken, fetched, literal_budget, command_budget) matches Ok(
            end,
        ) ==> end.total == taken.total + octets(fetched),
    decreases fetched.len(),
{
    if fetched.len() > 0 {
        lemma_octets_from_front(fetched);
        if let Ok(next) = transport::taken_in(
            items,
            taken,
            fetched[0],
            literal_budget,
            command_budget,
        ) {
            lemma_taken_octets(items, next, fetched.drop_first(), literal_budget, command_budget);
        }
    }
}

/// A page is asked for by a range that is not empty and a bound that is not zero, and
/// exact messages by UIDs of which none is zero and there is at least one; nothing else is
/// asked for, and every such request can be made.
pub proof fn law_sound_requests_can_be_made(
    cursor: u32,
    high: u32,
    page_size: u32,
    uids: Seq<u32>,
    i: int,
)
    ensures
        transport::page_arguments(cursor, high, page_size) is Ok <==> 1 <= cursor <= high
            && page_size >= 1,
        transport::exact_arguments(uids) is Ok ==> uids.len() > 0,
        transport::exact_arguments(uids) is Ok && 0 <= i < uids.len() ==> uids[i] != 0,
        uids.len() > 0 && (forall|j: int| 0 <= j < uids.len() ==> #[trigger] uids[j] != 0)
            ==> transport::exact_arguments(uids) is Ok,
{
    if transport::exact_arguments(uids) is Ok && 0 <= i < uids.len() {
        assert(uids.contains(uids[i]));
    }
}

/// A set of UIDs names each of them in decimal, in their order and with commas between
/// them.
pub proof fn law_uid_set_names_each(uids: Seq<u32>, uid: u32)
    ensures
        transport::uid_set(seq![uid]) == text::numeral(uid as nat),
        uids.len() > 0 ==> transport::uid_set(uids.push(uid)) == transport::uid_set(uids) + ","@
            + text::numeral(uid as nat),
{
    if uids.len() > 0 {
        assert(uids.push(uid).drop_last() =~= uids);
    }
}

} // verus!
