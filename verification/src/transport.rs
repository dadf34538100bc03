//! What a server's answers to an acquisition amount to.

use crate::acquisition_model::{MailboxSnapshot, UidOnlyMessage};
use crate::batches::InventoryItem;
use crate::failure;
use crate::failure::{raise, BichonError, ErrorCode};
use std::collections::BTreeMap;
use crate::text;
use crate::text::{push_numeral, push_text};
use vstd::prelude::*;

verus! {

/// Why input or output on a connection failed.
#[derive(Clone, Copy, Debug, PartialEq, Eq, Structural)]
pub enum IoFailure {
    BrokenPipe,
    ConnectionReset,
    ConnectionAborted,
    NotConnected,
    UnexpectedEof,
    TimedOut,
    WriteZero,
    Unlisted,
}

/// Why an IMAP operation failed.
#[derive(Clone, Copy, Debug, PartialEq, Eq, Structural)]
pub enum ImapFailure {
    ConnectionLost,
    Io(IoFailure),
    Unlisted,
}

/// The class of a failed IMAP operation: a broken connection is a network error,
/// everything else an unexpected answer.
pub fn imap_error_code(error: ImapFailure) -> (code: ErrorCode)
    ensures
        code == match error {
            ImapFailure::ConnectionLost => ErrorCode::NetworkError,
            ImapFailure::Io(IoFailure::Unlisted) => ErrorCode::ImapUnexpectedResult,
            ImapFailure::Io(_) => ErrorCode::NetworkError,
            ImapFailure::Unlisted => ErrorCode::ImapUnexpectedResult,
        },
{
    match error {
        ImapFailure::ConnectionLost => ErrorCode::NetworkError,
        ImapFailure::Io(IoFailure::Unlisted) => ErrorCode::ImapUnexpectedResult,
        ImapFailure::Io(_) => ErrorCode::NetworkError,
        ImapFailure::Unlisted => ErrorCode::ImapUnexpectedResult,
    }
}

/// The snapshot that an `EXAMINE` reports.
pub fn examined_snapshot(exists: u32, uid_validity: Option<u32>, uid_next: Option<u32>) -> (result:
    Result<MailboxSnapshot, BichonError>)
    ensures
        failure::judged(result) == match (uid_validity, uid_next) {
            (None, _) => Err(
                failure::failure(
                    ErrorCode::ImapUnexpectedResult,
                    "UIDONLY EXAMINE omitted UIDVALIDITY"@,
                ),
            ),
            (Some(_), None) => Err(
                failure::failure(
                    ErrorCode::ImapUnexpectedResult,
                    "UIDONLY EXAMINE omitted UIDNEXT"@,
                ),
            ),
            (Some(uid_validity), Some(uid_next)) => Ok(
                (MailboxSnapshot { exists, uid_validity, uid_next }),
            ),
        },
{
    match (uid_validity, uid_next) {
        (None, _) => Err(
            raise(ErrorCode::ImapUnexpectedResult, "UIDONLY EXAMINE omitted UIDVALIDITY"),
        ),
        (Some(_), None) => Err(
            raise(ErrorCode::ImapUnexpectedResult, "UIDONLY EXAMINE omitted UIDNEXT"),
        ),
        (Some(uid_validity), Some(uid_next)) => Ok(
            MailboxSnapshot { exists, uid_validity, uid_next },
        ),
    }
}

/// A message as a fetch reports it: its leading number, its UID and size where they
/// are given, and its body where it was asked for.
#[derive(Debug, PartialEq, Eq)]
pub struct FetchedMessage {
    pub leading: u32,
    pub uid: Option<u32>,
    pub size: Option<u32>,
    pub body: Option<Vec<u8>>,
}

/// The inventory item that a fetch reports.
pub open spec fn item_of(fetched: FetchedMessage) -> Result<InventoryItem, failure::Failure> {
    if fetched.uid is None {
        Err(
            failure::failure(
                ErrorCode::ImapUnexpectedResult,
                "UIDONLY inventory omitted UID"@,
            ),
        )
    } else if fetched.leading != fetched.uid->0 {
        Err(
            failure::failure(
                ErrorCode::ImapUnexpectedResult,
                "UIDONLY inventory leading UID did not match UID data item"@,
            ),
        )
    } else if fetched.size is None {
        Err(
            failure::failure(
                ErrorCode::ImapUnexpectedResult,
                "UIDONLY inventory omitted RFC822.SIZE"@,
            ),
        )
    } else {
        Ok(InventoryItem { uid: fetched.uid->0, rfc822_size: fetched.size->0 as u64 })
    }
}

/// The inventory items that fetches report, or the first that is not one.
pub open spec fn items_of(fetched: Seq<FetchedMessage>) -> Result<
    Seq<InventoryItem>,
    failure::Failure,
>
    decreases fetched.len(),
{
    if fetched.len() == 0 {
        Ok(Seq::empty())
    } else {
        match (items_of(fetched.drop_last()), item_of(fetched.last())) {
            (Err(e), _) => Err(e),
            (Ok(_), Err(e)) => Err(e),
            (Ok(items), Ok(item)) => Ok(items.push(item)),
        }
    }
}

fn read_item(fetched: &FetchedMessage) -> (result: Result<InventoryItem, BichonError>)
    ensures
        failure::judged(result) == item_of(*fetched),
{
    match fetched.uid {
        None => Err(raise(ErrorCode::ImapUnexpectedResult, "UIDONLY inventory omitted UID")),
        Some(uid) => {
            if fetched.leading != uid {
                return Err(
                    raise(
                        ErrorCode::ImapUnexpectedResult,
                        "UIDONLY inventory leading UID did not match UID data item",
                    ),
                );
            }
            match fetched.size {
                None => Err(
                    raise(
                        ErrorCode::ImapUnexpectedResult,
                        "UIDONLY inventory omitted RFC822.SIZE",
                    ),
                ),
                Some(size) => Ok(InventoryItem { uid, rfc822_size: size as u64 }),
            }
        },
    }
}

proof fn lemma_items_of_fails(fetched: Seq<FetchedMessage>, k: int)
    requires
        0 <= k <= fetched.len(),
        items_of(fetched.take(k)) is Err,
    ensures
        items_of(fetched) == items_of(fetched.take(k)),
    decreases fetched.len() - k,
{
    if k < fetched.len() {
        assert(fetched.take(k + 1).drop_last() =~= fetched.take(k));
        lemma_items_of_fails(fetched, k + 1);
    } else {
        assert(fetched.take(k) =~= fetched);
    }
}

/// The inventory items that fetches report.
pub fn inventory_items(fetched: &[FetchedMessage]) -> (result: Result<
    Vec<InventoryItem>,
    BichonError,
>)
    ensures
        match result {
            Ok(items) => items_of(fetched@) == Ok::<Seq<InventoryItem>, failure::Failure>(items@),
            Err(e) => items_of(fetched@) == Err::<Seq<InventoryItem>, failure::Failure>(e@),
        },
{
    let mut items: Vec<InventoryItem> = Vec::new();
    let mut i: usize = 0;
    while i < fetched.len()
        invariant
            i <= fetched@.len(),
            items_of(fetched@.take(i as int)) == Ok::<Seq<InventoryItem>, failure::Failure>(items@),
        decreases fetched.len() - i,
    {
        proof {
            assert(fetched@.take(i + 1).drop_last() =~= fetched@.take(i as int));
        }
        match read_item(&fetched[i]) {
            Err(e) => {
                proof {
                    lemma_items_of_fails(fetched@, i + 1);
                }
                return Err(e);
            },
            Ok(item) => {
                items.push(item);
            },
        }
        i = i + 1;
    }
    assert(fetched@.take(i as int) =~= fetched@);
    Ok(items)
}

/// The bodies taken in so far: their octets, and the messages by UID.
pub ghost struct Taken {
    pub total: int,
    pub messages: Map<u32, UidOnlyMessage>,
}

pub open spec fn asked(items: Seq<InventoryItem>, uid: u32) -> bool {
    exists|i: int| 0 <= i < items.len() && (#[trigger] items[i]).uid == uid
}

/// Takes in one body: of a UID that was asked for, with its metadata, within both
/// budgets, and for the first time.
pub open spec fn taken_in(
    items: Seq<InventoryItem>,
    taken: Taken,
    fetched: FetchedMessage,
    literal_budget: u64,
    command_budget: u64,
) -> Result<Taken, failure::Failure> {
    if fetched.uid is None {
        Err(
            failure::failure(
                ErrorCode::ImapUnexpectedResult,
                "UIDONLY exact fetch omitted UID"@,
            ),
        )
    } else if !asked(items, fetched.uid->0) || fetched.leading != fetched.uid->0 || fetched.size
        is None {
        Err(
            failure::failure(
                ErrorCode::ImapUnexpectedResult,
                "UIDONLY exact fetch returned mismatched metadata"@,
            ),
        )
    } else if fetched.body is None {
        Err(
            failure::failure(
                ErrorCode::ImapUnexpectedResult,
                "UIDONLY exact fetch omitted its full literal body"@,
            ),
        )
    } else {
        let uid = fetched.uid->0;
        let body = fetched.body->0;
        let total = taken.total + body@.len();
        if body@.len() > literal_budget {
            Err(
                failure::failure(
                    ErrorCode::PayloadTooLarge,
                    "UIDONLY exact body exceeded its per-literal budget"@,
                ),
            )
        } else if total > u64::MAX {
            Err(
                failure::failure(
                    ErrorCode::PayloadTooLarge,
                    "UIDONLY exact batch byte count overflow"@,
                ),
            )
        } else if total > command_budget {
            Err(
                failure::failure(
                    ErrorCode::PayloadTooLarge,
                    "UIDONLY exact batch exceeded its command budget"@,
                ),
            )
        } else if taken.messages.contains_key(uid) {
            Err(
                failure::failure(
                    ErrorCode::ImapUnexpectedResult,
                    "UIDONLY exact fetch returned a duplicate UID"@,
                ),
            )
        } else {
            Ok(
                Taken { total, messages: taken.messages.insert(uid, UidOnlyMessage { uid, body }) },
            )
        }
    }
}

/// Takes in bodies from `from` on.
pub open spec fn all_taken_in(
    items: Seq<InventoryItem>,
    taken: Taken,
    fetched: Seq<FetchedMessage>,
    literal_budget: u64,
    command_budget: u64,
) -> Result<Taken, failure::Failure>
    decreases fetched.len(),
{
    if fetched.len() == 0 {
        Ok(taken)
    } else {
        match taken_in(items, taken, fetched[0], literal_budget, command_budget) {
            Err(e) => Err(e),
            Ok(next) => all_taken_in(
                items,
                next,
                fetched.drop_first(),
                literal_budget,
                command_budget,
            ),
        }
    }
}

/// The messages in the order in which they were asked for, each once.
pub open spec fn in_order(
    items: Seq<InventoryItem>,
    messages: Map<u32, UidOnlyMessage>,
) -> Result<Seq<UidOnlyMessage>, failure::Failure>
    decreases items.len(),
{
    if items.len() == 0 {
        Ok(Seq::empty())
    } else if !messages.contains_key(items[0].uid) {
        Err(
            failure::failure(
                ErrorCode::ImapUnexpectedResult,
                "UIDONLY exact batch omitted a requested UID"@,
            ),
        )
    } else {
        match in_order(items.drop_first(), messages.remove(items[0].uid)) {
            Err(e) => Err(e),
            Ok(rest) => Ok(seq![messages[items[0].uid]] + rest),
        }
    }
}

/// What an exact fetch of `items` amounts to. The adapter counted `before` literal
/// octets ahead of it and `after` once it was complete.
pub open spec fn exact_fetch(
    items: Seq<InventoryItem>,
    fetched: Seq<FetchedMessage>,
    literal_budget: u64,
    command_budget: u64,
    before: u64,
    after: u64,
) -> Result<Seq<UidOnlyMessage>, failure::Failure> {
    if fetched.len() != items.len() {
        Err(
            failure::failure(
                ErrorCode::ImapUnexpectedResult,
                "UIDONLY exact fetch returned the wrong result count"@,
            ),
        )
    } else {
        match all_taken_in(
            items,
            Taken { total: 0, messages: Map::empty() },
            fetched,
            literal_budget,
            command_budget,
        ) {
            Err(e) => Err(e),
            Ok(taken) => if after - before != taken.total {
                Err(
                    failure::failure(
                        ErrorCode::ImapUnexpectedResult,
                        "UIDONLY exact batch did not match literal accounting"@,
                    ),
                )
            } else {
                in_order(items, taken.messages)
            },
        }
    }
}

fn is_asked(items: &[InventoryItem], uid: u32) -> (result: bool)
    ensures
        result == asked(items@, uid),
{
    let mut i: usize = 0;
    while i < items.len()
        invariant
            i <= items@.len(),
            forall|j: int| 0 <= j < i ==> (#[trigger] items@[j]).uid != uid,
        decreases items.len() - i,
    {
        if items[i].uid == uid {
            return true;
        }
        i = i + 1;
    }
    false
}

fn take_in(
    items: &[InventoryItem],
    messages: &mut BTreeMap<u32, UidOnlyMessage>,
    total: u64,
    fetched: FetchedMessage,
    literal_budget: u64,
    command_budget: u64,
) -> (result: Result<u64, BichonError>)
    ensures
        ({
            let next = taken_in(
                items@,
                Taken { total: total as int, messages: old(messages)@ },
                fetched,
                literal_budget,
                command_budget,
            );
            match result {
                Ok(sum) => next == Ok::<Taken, failure::Failure>(
                    Taken { total: sum as int, messages: final(messages)@ },
                ),
                Err(e) => next == Err::<Taken, failure::Failure>(e@),
            }
        }),
{
    broadcast use vstd::std_specs::btree::group_btree_axioms;

    let uid = match fetched.uid {
        None => {
            return Err(
                raise(ErrorCode::ImapUnexpectedResult, "UIDONLY exact fetch omitted UID"),
            );
        },
        Some(uid) => uid,
    };
    if !is_asked(items, uid) || fetched.leading != uid || fetched.size.is_none() {
        return Err(
            raise(
                ErrorCode::ImapUnexpectedResult,
                "UIDONLY exact fetch returned mismatched metadata",
            ),
        );
    }
    let body = match fetched.body {
        None => {
            return Err(
                raise(
                    ErrorCode::ImapUnexpectedResult,
                    "UIDONLY exact fetch omitted its full literal body",
                ),
            );
        },
        Some(body) => body,
    };
    let actual: u64 = body.len() as u64;
    if actual > literal_budget {
        return Err(
            raise(
                ErrorCode::PayloadTooLarge,
                "UIDONLY exact body exceeded its per-literal budget",
            ),
        );
    }
    let sum: u64 = match total.checked_add(actual) {
        None => {
            return Err(
                raise(ErrorCode::PayloadTooLarge, "UIDONLY exact batch byte count overflow"),
            );
        },
        Some(sum) => sum,
    };
    if sum > command_budget {
        return Err(
            raise(ErrorCode::PayloadTooLarge, "UIDONLY exact batch exceeded its command budget"),
        );
    }
    if messages.insert(uid, UidOnlyMessage { uid, body }).is_some() {
        return Err(
            raise(
                ErrorCode::ImapUnexpectedResult,
                "UIDONLY exact fetch returned a duplicate UID",
            ),
        );
    }
    Ok(sum)
}

fn put_in_order(
    items: &[InventoryItem],
    messages: BTreeMap<u32, UidOnlyMessage>,
) -> (result: Result<Vec<UidOnlyMessage>, BichonError>)
    ensures
        match result {
            Ok(ordered) => in_order(items@, messages@) == Ok::<
                Seq<UidOnlyMessage>,
                failure::Failure,
            >(ordered@),
            Err(e) => in_order(items@, messages@) == Err::<Seq<UidOnlyMessage>, failure::Failure>(
                e@,
            ),
        },
{
    broadcast use vstd::std_specs::btree::group_btree_axioms;

    let mut left = messages;
    let mut ordered: Vec<UidOnlyMessage> = Vec::new();
    let mut i: usize = 0;
    assert(items@.skip(0) =~= items@);
    proof {
        if let Ok(rest) = in_order(items@, messages@) {
            assert(ordered@ + rest =~= rest);
        }
    }
    while i < items.len()
        invariant
            i <= items@.len(),
            in_order(items@, messages@) == (match in_order(items@.skip(i as int), left@) {
                Err(e) => Err(e),
                Ok(rest) => Ok(ordered@ + rest),
            }),
        decreases items.len() - i,
    {
        let ghost here = items@.skip(i as int);
        let ghost before = left@;
        let uid = items[i].uid;
        proof {
            assert(here[0] == items@[i as int]);
            assert(here.drop_first() =~= items@.skip(i + 1));
        }
        match left.remove(&uid) {
            None => {
                return Err(
                    raise(
                        ErrorCode::ImapUnexpectedResult,
                        "UIDONLY exact batch omitted a requested UID",
                    ),
                );
            },
            Some(message) => {
                let ghost done = ordered@;
                ordered.push(message);
                proof {
                    assert(left@ =~= before.remove(uid));
                    assert(message == before[uid]);
                    if let Ok(rest) = in_order(here.drop_first(), left@) {
                        assert(done + (seq![message] + rest) =~= ordered@ + rest);
                    }
                }
            },
        }
        i = i + 1;
    }
    assert(items@.skip(i as int) =~= Seq::<InventoryItem>::empty());
    assert(ordered@ + Seq::<UidOnlyMessage>::empty() =~= ordered@);
    Ok(ordered)
}

/// What an exact fetch amounts to: every body that was asked for, in that order, each
/// once, within its budgets and the literal octets that the adapter counted.
pub fn check_exact_fetch(
    items: &[InventoryItem],
    fetched: Vec<FetchedMessage>,
    literal_budget: u64,
    command_budget: u64,
    before: u64,
    after: u64,
) -> (result: Result<Vec<UidOnlyMessage>, BichonError>)
    ensures
        ({
            let wanted = exact_fetch(
                items@,
                fetched@,
                literal_budget,
                command_budget,
                before,
                after,
            );
            match result {
                Ok(messages) => wanted == Ok::<Seq<UidOnlyMessage>, failure::Failure>(messages@),
                Err(e) => wanted == Err::<Seq<UidOnlyMessage>, failure::Failure>(e@),
            }
        }),
{
    if fetched.len() != items.len() {
        return Err(
            raise(
                ErrorCode::ImapUnexpectedResult,
                "UIDONLY exact fetch returned the wrong result count",
            ),
        );
    }
    let ghost start = Taken { total: 0, messages: Map::empty() };
    let ghost all = fetched@;
    let mut messages: BTreeMap<u32, UidOnlyMessage> = BTreeMap::new();
    let mut total: u64 = 0;
    assert(all.skip(0) =~= all);
    for message in it: fetched
        invariant
            it.seq() == all,
            all.len() == items@.len(),
            start == (Taken { total: 0, messages: Map::empty() }),
            all_taken_in(items@, start, all, literal_budget, command_budget) == all_taken_in(
                items@,
                Taken { total: total as int, messages: messages@ },
                all.skip(it.index() as int),
                literal_budget,
                command_budget,
            ),
            exact_fetch(items@, all, literal_budget, command_budget, before, after) == (
            match all_taken_in(items@, start, all, literal_budget, command_budget) {
                Err(e) => Err(e),
                Ok(taken) => if after - before != taken.total {
                    Err(
                        failure::failure(
                            ErrorCode::ImapUnexpectedResult,
                            "UIDONLY exact batch did not match literal accounting"@,
                        ),
                    )
                } else {
                    in_order(items@, taken.messages)
                },
            }),
    {
        let ghost here = all.skip(it.index() as int);
        proof {
            assert(here[0] == message);
            assert(here.drop_first() =~= all.skip(it.index() as int + 1));
        }
        match take_in(items, &mut messages, total, message, literal_budget, command_budget) {
            Err(e) => {
                return Err(e);
            },
            Ok(sum) => {
                total = sum;
            },
        }
    }
    assert(all.skip(all.len() as int) =~= Seq::<FetchedMessage>::empty());
    let counted: Option<u64> = after.checked_sub(before);
    let matching = match counted {
        Some(count) => count == total,
        None => false,
    };
    if !matching {
        return Err(
            raise(
                ErrorCode::ImapUnexpectedResult,
                "UIDONLY exact batch did not match literal accounting",
            ),
        );
    }
    put_in_order(items, messages)
}

/// A message that came from one of the fetches, under its UID.
pub open spec fn came_from(fetched: Seq<FetchedMessage>, uid: u32, message: UidOnlyMessage) -> bool {
    message.uid == uid && exists|j: int|
        0 <= j < fetched.len() && (#[trigger] fetched[j]).uid == Some(uid) && fetched[j].body
            == Some(message.body)
}

proof fn lemma_taken_in(
    items: Seq<InventoryItem>,
    taken: Taken,
    all: Seq<FetchedMessage>,
    from: int,
    literal_budget: u64,
    command_budget: u64,
)
    requires
        0 <= from <= all.len(),
        forall|uid: u32| #[trigger]
            taken.messages.contains_key(uid) ==> came_from(all, uid, taken.messages[uid])
                && taken.messages[uid].body@.len() <= literal_budget,
        taken.total <= command_budget,
    ensures
        all_taken_in(items, taken, all.skip(from), literal_budget, command_budget) matches Ok(end)
            ==> {
            &&& forall|uid: u32| #[trigger]
                end.messages.contains_key(uid) ==> came_from(all, uid, end.messages[uid])
                    && end.messages[uid].body@.len() <= literal_budget
            &&& end.total <= command_budget
        },
    decreases all.len() - from,
{
    let rest = all.skip(from);
    if rest.len() > 0 {
        assert(rest[0] == all[from]);
        assert(rest.drop_first() =~= all.skip(from + 1));
        if let Ok(next) = taken_in(items, taken, rest[0], literal_budget, command_budget) {
            assert forall|uid: u32| #[trigger] next.messages.contains_key(uid) implies came_from(
                all,
                uid,
                next.messages[uid],
            ) && next.messages[uid].body@.len() <= literal_budget by {
                if uid != rest[0].uid->0 {
                    assert(taken.messages.contains_key(uid));
                }
            }
            lemma_taken_in(items, next, all, from + 1, literal_budget, command_budget);
        }
    }
}

proof fn lemma_in_order(items: Seq<InventoryItem>, messages: Map<u32, UidOnlyMessage>)
    ensures
        in_order(items, messages) matches Ok(ordered) ==> {
            &&& ordered.len() == items.len()
            &&& forall|i: int|
                0 <= i < items.len() ==> messages.contains_key((#[trigger] items[i]).uid)
                    && ordered[i] == messages[items[i].uid]
        },
    decreases items.len(),
{
    if items.len() > 0 {
        let tail = items.drop_first();
        let fewer = messages.remove(items[0].uid);
        lemma_in_order(tail, fewer);
        if let Ok(ordered) = in_order(items, messages) {
            let rest = in_order(tail, fewer)->Ok_0;
            assert forall|i: int| 0 <= i < items.len() implies messages.contains_key(
                (#[trigger] items[i]).uid,
            ) && ordered[i] == messages[items[i].uid] by {
                if i > 0 {
                    assert(tail[i - 1] == items[i]);
                    assert(fewer.contains_key(tail[i - 1].uid));
                    assert(ordered[i] == rest[i - 1]);
                }
            }
        }
    }
}

/// An accepted fetch gives every message that was asked for, in that order: under its
/// UID, with the octets that the server sent for that UID, within the budgets.
pub proof fn law_exact_fetch_is_exact(
    items: Seq<InventoryItem>,
    fetched: Seq<FetchedMessage>,
    literal_budget: u64,
    command_budget: u64,
    before: u64,
    after: u64,
)
    ensures
        exact_fetch(items, fetched, literal_budget, command_budget, before, after) matches Ok(
            messages,
        ) ==> {
            &&& messages.len() == items.len() == fetched.len()
            &&& 0 <= after - before <= command_budget
            &&& forall|i: int|
                0 <= i < items.len() ==> came_from(
                    fetched,
                    (#[trigger] items[i]).uid,
                    messages[i],
                ) && messages[i].body@.len() <= literal_budget
        },
{
    let start = Taken { total: 0, messages: Map::empty() };
    assert(fetched.skip(0) =~= fetched);
    lemma_taken_in(items, start, fetched, 0, literal_budget, command_budget);
    if fetched.len() == items.len() {
        if let Ok(taken) = all_taken_in(items, start, fetched, literal_budget, command_budget) {
            lemma_in_order(items, taken.messages);
            lemma_total_is_not_negative(items, start, fetched, literal_budget, command_budget);
        }
    }
}

proof fn lemma_total_is_not_negative(
    items: Seq<InventoryItem>,
    taken: Taken,
    fetched: Seq<FetchedMessage>,
    literal_budget: u64,
    command_budget: u64,
)
    requires
        taken.total >= 0,
    ensures
        all_taken_in(items, taken, fetched, literal_budget, command_budget) matches Ok(end)
            ==> end.total >= 0,
    decreases fetched.len(),
{
    if fetched.len() > 0 {
        if let Ok(next) = taken_in(items, taken, fetched[0], literal_budget, command_budget) {
            lemma_total_is_not_negative(
                items,
                next,
                fetched.drop_first(),
                literal_budget,
                command_budget,
            );
        }
    }
}

/// Fails where a transport was poisoned, or where it is not in UID-only mode.
pub fn check_health(poison_reason: Option<String>, active: bool) -> (result: Result<
    (),
    BichonError,
>)
    ensures
        failure::judged(result) == match poison_reason {
            Some(reason) => Err(
                failure::failure(ErrorCode::ImapUnexpectedResult, reason@),
            ),
            None => if active {
                Ok(())
            } else {
                Err(
                    failure::failure(
                        ErrorCode::ImapUnexpectedResult,
                        "UIDONLY transport is not active"@,
                    ),
                )
            },
        },
{
    match poison_reason {
        Some(reason) => Err(raise(ErrorCode::ImapUnexpectedResult, reason.as_str())),
        None => if active {
            Ok(())
        } else {
            Err(raise(ErrorCode::ImapUnexpectedResult, "UIDONLY transport is not active"))
        },
    }
}

/// The arguments of a `UID FETCH` for one page of an inventory.
pub open spec fn page_arguments(cursor: u32, high: u32, page_size: u32) -> Result<
    (Seq<char>, Seq<char>),
    failure::Failure,
> {
    if cursor == 0 || cursor > high || page_size == 0 {
        Err(
            failure::failure(ErrorCode::InvalidParameter, "Invalid UIDONLY inventory bounds"@),
        )
    } else {
        Ok(
            (
                text::numeral(cursor as nat) + ":"@ + text::numeral(high as nat),
                "(UID RFC822.SIZE) (PARTIAL 1:"@ + text::numeral(page_size as nat) + ")"@,
            ),
        )
    }
}

/// A pair of arguments taken by its view.
pub open spec fn seen_arguments(arguments: Result<(String, String), BichonError>) -> Result<
    (Seq<char>, Seq<char>),
    failure::Failure,
> {
    match arguments {
        Ok((set, query)) => Ok((set@, query@)),
        Err(e) => Err(e@),
    }
}

/// Renders the set and the query that list one page of an inventory.
pub fn inventory_args(cursor: u32, high: u32, page_size: u32) -> (arguments: Result<
    (String, String),
    BichonError,
>)
    ensures
        seen_arguments(arguments) == page_arguments(cursor, high, page_size),
{
    if cursor == 0 || cursor > high || page_size == 0 {
        return Err(raise(ErrorCode::InvalidParameter, "Invalid UIDONLY inventory bounds"));
    }
    let mut set = String::new();
    push_numeral(&mut set, cursor as u64);
    push_text(&mut set, ":");
    push_numeral(&mut set, high as u64);
    let mut query = String::new();
    push_text(&mut query, "(UID RFC822.SIZE) (PARTIAL 1:");
    push_numeral(&mut query, page_size as u64);
    push_text(&mut query, ")");
    proof {
        assert(set@ =~= text::numeral(cursor as nat) + ":"@ + text::numeral(high as nat));
        assert(query@ =~= "(UID RFC822.SIZE) (PARTIAL 1:"@ + text::numeral(page_size as nat) + ")"@);
    }
    Ok((set, query))
}

/// UIDs as a set, with commas between them.
pub open spec fn uid_set(uids: Seq<u32>) -> Seq<char>
    decreases uids.len(),
{
    if uids.len() == 0 {
        Seq::empty()
    } else if uids.len() == 1 {
        text::numeral(uids[0] as nat)
    } else {
        uid_set(uids.drop_last()) + ","@ + text::numeral(uids.last() as nat)
    }
}

/// The arguments of a `UID FETCH` for exactly these messages.
pub open spec fn exact_arguments(uids: Seq<u32>) -> Result<
    (Seq<char>, Seq<char>),
    failure::Failure,
> {
    if uids.len() == 0 || uids.contains(0u32) {
        Err(failure::failure(ErrorCode::InvalidParameter, "Invalid UIDONLY exact UID set"@))
    } else {
        Ok((uid_set(uids), "(UID RFC822.SIZE BODY.PEEK[])"@))
    }
}

/// Renders the set and the query that fetch exactly these messages.
pub fn exact_args(uids: &[u32]) -> (arguments: Result<(String, String), BichonError>)
    ensures
        seen_arguments(arguments) == exact_arguments(uids@),
{
    let mut set = String::new();
    let mut i: usize = 0;
    assert(uids@.take(0) =~= Seq::<u32>::empty());
    assert(set@ =~= uid_set(uids@.take(0)));
    while i < uids.len()
        invariant
            i <= uids@.len(),
            set@ == uid_set(uids@.take(i as int)),
            forall|j: int| 0 <= j < i ==> uids@[j] != 0,
        decreases uids.len() - i,
    {
        if uids[i] == 0 {
            assert(uids@.contains(0u32));
            return Err(raise(ErrorCode::InvalidParameter, "Invalid UIDONLY exact UID set"));
        }
        let ghost before = set@;
        if i > 0 {
            push_text(&mut set, ",");
        }
        push_numeral(&mut set, uids[i] as u64);
        proof {
            let next = uids@.take(i + 1);
            assert(next.drop_last() =~= uids@.take(i as int));
            assert(next.last() == uids@[i as int]);
            if i == 0 {
                assert(set@ =~= text::numeral(uids@[0] as nat));
                assert(next[0] == uids@[0]);
            } else {
                assert(set@ =~= before + ","@ + text::numeral(uids@[i as int] as nat));
            }
        }
        i = i + 1;
    }
    assert(uids@.take(i as int) =~= uids@);
    if uids.len() == 0 {
        return Err(raise(ErrorCode::InvalidParameter, "Invalid UIDONLY exact UID set"));
    }
    Ok((set, "(UID RFC822.SIZE BODY.PEEK[])".to_owned()))
}

} // verus!
