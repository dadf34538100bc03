//! What a session owes to a server that keeps to the protocol.

use crate::command::{InventoryRequest, UidOnlyCommand};
use crate::dispatch;
use crate::dispatch::{Attribute, BodySection, Gathered, MailboxDatum, Outcome, Response};
use crate::dispatch::{ResponseCode, Solicited, Status};
use crate::error::{Error, ErrorKind};
use crate::framing;
use crate::framing::Provenance;
use crate::mailbox;
use crate::mailbox::{InventoryItem, Notification};
use crate::nonzero::NonZeroU32;
use crate::session;
use crate::session::{Answer, Enabling, Running};
use std::ops::RangeInclusive;
use vstd::prelude::*;

verus! {

broadcast use crate::nonzero::lemma_nonzero_u32_of;

/// The bytes that a response took up on the wire.
pub open spec fn wire_size(record: Provenance) -> int {
    match record {
        Provenance::TranslatedUidFetch { wire_bytes, .. } => wire_bytes as int,
        Provenance::Unchanged { wire_bytes } => wire_bytes as int,
    }
}

/// One more response with this record is within the ceilings of a run.
pub open spec fn has_room(run: Running, records: Seq<Provenance>) -> bool {
    &&& records.len() > 0
    &&& 0 <= run.responses < run.limits.max_responses@
    &&& 0 <= run.wire_bytes
    &&& run.wire_bytes + wire_size(records[0]) <= run.limits.max_wire_bytes@
}

/// The run goes on with this gathered, and one more response counted.
pub open spec fn goes_on(
    run: Running,
    records: Seq<Provenance>,
    response: Response,
    gathered: Gathered,
) -> bool {
    session::answered(run, records, response) == Ok::<Answer, Error>(
        Answer::Pending(
            Running {
                limits: run.limits,
                command: run.command,
                tag: run.tag,
                gathered,
                responses: run.responses + 1,
                wire_bytes: run.wire_bytes + wire_size(records[0]),
            },
        ),
    )
}

/// The run ends with this outcome.
pub open spec fn ends(
    run: Running,
    records: Seq<Provenance>,
    response: Response,
    outcome: Outcome,
) -> bool {
    session::answered(run, records, response) == Ok::<Answer, Error>(Answer::Complete(outcome))
}

/// The response is refused as one that breaks the protocol.
pub open spec fn is_refused(run: Running, records: Seq<Provenance>, response: Response) -> bool {
    let answer = session::answered(run, records, response);
    answer is Err && answer->Err_0.kind == ErrorKind::InvalidData
}

/// Everything that was gathered, and one notification more.
pub open spec fn with_event(gathered: Gathered, event: Notification) -> Gathered {
    Gathered { notifications: gathered.notifications.push(event), ..gathered }
}

/// Everything that was gathered, and one thing more that was asked for.
pub open spec fn with_data(gathered: Gathered, data: Solicited) -> Gathered {
    Gathered { solicited: gathered.solicited.push(data), ..gathered }
}

/// Within the ceiling on events, an untagged OK without a code, or with a code that only
/// informs, is never refused, whatever the command: it adds exactly one notification and
/// leaves everything else that was gathered as it was.
pub proof fn law_informing_ok_is_noted(
    run: Running,
    records: Seq<Provenance>,
    code: Option<ResponseCode>,
)
    requires
        has_room(run, records),
        records[0] is Unchanged,
        code is None || code == Some(ResponseCode::PermanentFlags) || code == Some(
            ResponseCode::HighestModSeq,
        ) || code == Some(ResponseCode::Unseen) || code == Some(ResponseCode::Alert),
    ensures
        run.gathered.notifications.len() < run.limits.max_events@ ==> goes_on(
            run,
            records,
            (Response::Data { status: Status::Success, code }),
            with_event(run.gathered, Notification::Status),
        ),
        run.gathered.notifications.len() >= run.limits.max_events@ ==> is_refused(
            run,
            records,
            (Response::Data { status: Status::Success, code }),
        ),
{
}

/// The same of what is gathered alone: an untagged OK that only informs adds one
/// notification.
pub proof fn law_informing_ok_adds_one_notification(
    command: UidOnlyCommand,
    code: Option<ResponseCode>,
    limits: crate::limits::CommandLimits,
    gathered: Gathered,
)
    requires
        gathered.notifications.len() < limits.max_events@,
        code is None || code == Some(ResponseCode::PermanentFlags) || code == Some(
            ResponseCode::HighestModSeq,
        ) || code == Some(ResponseCode::Unseen) || code == Some(ResponseCode::Alert),
    ensures
        ({
            &&& dispatch::on_untagged_ok(command, code, limits, gathered) matches Ok(next)
            &&& next.notifications.len() == gathered.notifications.len() + 1
            &&& next.notifications.last() is Status
            &&& next.notifications.drop_last() == gathered.notifications
            &&& next.exists == gathered.exists
            &&& next.uid_validity == gathered.uid_validity
            &&& next.uid_next == gathered.uid_next
            &&& next.read_only == gathered.read_only
            &&& next.solicited == gathered.solicited
            &&& next.vanished_ranges == gathered.vanished_ranges
            &&& next.saw_bye == gathered.saw_bye
        }),
{
}

/// During `EXAMINE` the message count, UIDVALIDITY and UIDNEXT are kept, each once and the
/// latter two only where they are not zero; read-only mode is kept. Outside of it none of
/// the codes is accepted.
pub proof fn law_examine_keeps_the_boundary(run: Running, records: Seq<Provenance>, value: u32)
    requires
        has_room(run, records),
        records[0] is Unchanged,
    ensures
        ({
            let g = run.gathered;
            let count = Response::Mailbox(MailboxDatum::Exists(value));
            let validity = Response::Data {
                status: Status::Success,
                code: Some(ResponseCode::UidValidity(value)),
            };
            let next = Response::Data {
                status: Status::Success,
                code: Some(ResponseCode::UidNext(value)),
            };
            let read_only = Response::Data {
                status: Status::Success,
                code: Some(ResponseCode::ReadOnly),
            };
            if run.command is Examine {
                &&& g.exists is None ==> goes_on(
                    run,
                    records,
                    count,
                    Gathered { exists: Some(value), ..g },
                )
                &&& g.exists is Some ==> is_refused(run, records, count)
                &&& g.uid_validity is None && value != 0 ==> goes_on(
                    run,
                    records,
                    validity,
                    Gathered { uid_validity: Some(NonZeroU32::of(value)), ..g },
                )
                &&& g.uid_validity is Some || value == 0 ==> is_refused(run, records, validity)
                &&& g.uid_next is None && value != 0 ==> goes_on(
                    run,
                    records,
                    next,
                    Gathered { uid_next: Some(NonZeroU32::of(value)), ..g },
                )
                &&& g.uid_next is Some || value == 0 ==> is_refused(run, records, next)
                &&& goes_on(run, records, read_only, Gathered { read_only: true, ..g })
            } else {
                &&& is_refused(run, records, validity)
                &&& is_refused(run, records, next)
                &&& is_refused(run, records, read_only)
            }
        }),
{
}

/// Other commands note a message count, and every command notes the count of recent
/// messages, within the ceiling on events; a list of flags changes nothing, and other
/// mailbox responses are refused.
pub proof fn law_mailbox_changes_are_noted(run: Running, records: Seq<Provenance>, value: u32)
    requires
        has_room(run, records),
        records[0] is Unchanged,
    ensures
        ({
            let room = run.gathered.notifications.len() < run.limits.max_events@;
            let count = Response::Mailbox(MailboxDatum::Exists(value));
            let recent = Response::Mailbox(MailboxDatum::Recent(value));
            &&& !(run.command is Examine) && room ==> goes_on(
                run,
                records,
                count,
                with_event(run.gathered, Notification::Exists(value)),
            )
            &&& room ==> goes_on(
                run,
                records,
                recent,
                with_event(run.gathered, Notification::Recent(value)),
            )
            &&& !room ==> is_refused(run, records, recent)
            &&& !(run.command is Examine) && !room ==> is_refused(run, records, count)
            &&& goes_on(run, records, Response::Mailbox(MailboxDatum::Flags), run.gathered)
            &&& is_refused(run, records, Response::Mailbox(MailboxDatum::Unlisted))
        }),
{
}

/// UIDs that vanished are noted as they came, and their ranges are counted, within both
/// ceilings.
pub proof fn law_vanished_uids_are_noted(
    run: Running,
    records: Seq<Provenance>,
    earlier: bool,
    uids: Vec<RangeInclusive<u32>>,
)
    requires
        has_room(run, records),
        records[0] is Unchanged,
        run.gathered.vanished_ranges >= 0,
    ensures
        ({
            let response = Response::Vanished { earlier, uids };
            let ranges = run.gathered.vanished_ranges + uids@.len();
            let fits = ranges <= run.limits.max_vanished_ranges@
                && run.gathered.notifications.len() < run.limits.max_events@;
            &&& fits ==> goes_on(
                run,
                records,
                response,
                Gathered {
                    vanished_ranges: ranges,
                    ..with_event(run.gathered, Notification::Vanished { earlier, uids })
                },
            )
            &&& !fits ==> is_refused(run, records, response)
        }),
{
}

/// A farewell belongs to `LOGOUT` alone; no other untagged status and no response that is
/// not listed is accepted.
pub proof fn law_farewell_belongs_to_logout(
    run: Running,
    records: Seq<Provenance>,
    status: Status,
    code: Option<ResponseCode>,
)
    requires
        has_room(run, records),
        records[0] is Unchanged,
    ensures
        status == Status::Bye && run.command is Logout ==> goes_on(
            run,
            records,
            (Response::Data { status, code }),
            (Gathered { saw_bye: true, ..run.gathered }),
        ),
        status != Status::Success && (status != Status::Bye || !(run.command is Logout))
            ==> is_refused(run, records, (Response::Data { status, code })),
        is_refused(
            run,
            records,
            (Response::Data { status: Status::Success, code: Some(ResponseCode::Unlisted) }),
        ),
        is_refused(run, records, Response::Expunge),
        is_refused(run, records, Response::Capabilities),
        is_refused(run, records, Response::Unlisted),
{
}

/// A run counts its responses and their bytes: what is over a ceiling, or came without a
/// record of how it came off the wire, is refused, whatever it says.
pub proof fn law_ceilings_of_a_run_are_kept(
    run: Running,
    records: Seq<Provenance>,
    response: Response,
)
    requires
        0 <= run.responses,
        0 <= run.wire_bytes,
        run.responses >= run.limits.max_responses@ || records.len() == 0 || run.wire_bytes
            + wire_size(records[0]) > run.limits.max_wire_bytes@,
    ensures
        session::answered(run, records, response) is Err,
{
}

/// Only a fetch may come translated, and a fetch must, under the UID of its line.
pub proof fn law_translation_belongs_to_fetches(
    run: Running,
    records: Seq<Provenance>,
    response: Response,
)
    requires
        records.len() > 0,
    ensures
        session::answered(run, records, response) is Ok ==> match response {
            Response::Fetch { leading_uid, .. } => {
                &&& records[0] matches Provenance::TranslatedUidFetch { leading_uid: wire, .. }
                &&& wire == leading_uid
            },
            _ => records[0] is Unchanged,
        },
{
}

/// The completion of `EXAMINE` gives the boundary as it was gathered, once everything was:
/// a count, UIDVALIDITY, UIDNEXT and read-only mode, which the completion itself may
/// confirm. The highest UID is UIDNEXT less one, and there is none in an empty range.
pub proof fn law_examine_completes_with_the_boundary(
    run: Running,
    records: Seq<Provenance>,
    tag: String,
    code: Option<ResponseCode>,
)
    requires
        has_room(run, records),
        records[0] is Unchanged,
        run.command is Examine,
        tag@ == run.tag,
        code is None || code == Some(ResponseCode::ReadOnly),
    ensures
        ({
            let g = run.gathered;
            let response = Response::Done { tag, status: Status::Success, code };
            let known = g.exists is Some && g.uid_validity is Some && g.uid_next is Some
                && g.solicited.len() == 0 && (g.read_only || code is Some) && g.exists->0
                < g.uid_next->0@;
            &&& !known ==> is_refused(run, records, response)
            &&& known ==> {
                &&& session::answered(run, records, response) matches Ok(
                    Answer::Complete(
                        Outcome::Examine { exists, uid_validity, uid_next, high, notifications },
                    ),
                )
                &&& exists == g.exists->0
                &&& uid_validity@ == g.uid_validity->0@
                &&& uid_next@ == g.uid_next->0@
                &&& notifications == g.notifications
                &&& g.uid_next->0@ == 1 ==> high is None
                &&& g.uid_next->0@ > 1 ==> high is Some && high->0@ == g.uid_next->0@ - 1
            }
        }),
{
}

/// A page completes with the items that were gathered, in that order, provided that they
/// are items, no more than asked for, grow from each to the next, and are not among those
/// that vanished meanwhile.
pub proof fn law_inventory_completes_with_its_items(
    run: Running,
    records: Seq<Provenance>,
    tag: String,
    request: InventoryRequest,
    items: Seq<InventoryItem>,
)
    requires
        has_room(run, records),
        records[0] is Unchanged,
        run.command == UidOnlyCommand::Inventory(request),
        tag@ == run.tag,
        run.gathered.solicited.len() == items.len(),
        forall|i: int|
            0 <= i < items.len() ==> #[trigger] run.gathered.solicited[i] == Solicited::Inventory(
                items[i],
            ),
    ensures
        ({
            let response = Response::Done { tag, status: Status::Success, code: None };
            let grows = forall|i: int, j: int|
                0 <= i < j < items.len() ==> (#[trigger] items[i]).uid@ < (#[trigger] items[j]).uid@;
            let stays = forall|i: int|
                0 <= i < items.len() ==> !mailbox::vanished(
                    run.gathered.notifications,
                    (#[trigger] items[i]).uid@,
                );
            &&& items.len() <= request.size()@ && grows && stays ==> ends(
                run,
                records,
                response,
                Outcome::Inventory { request, items, notifications: run.gathered.notifications },
            )
            &&& !(items.len() <= request.size()@ && grows && stays) ==> is_refused(
                run,
                records,
                response,
            )
        }),
{
    assert(dispatch::items_in(run.gathered.solicited) =~= items);
    assert forall|i: int| 0 <= i < run.gathered.solicited.len() implies (
    #[trigger] run.gathered.solicited[i]) is Inventory by {
        assert(run.gathered.solicited[i] == Solicited::Inventory(items[i]));
    }
}

/// A body command completes with the octets that were gathered; without any it tells a
/// message that vanished from one that is missing. Octets of a message that vanished are
/// refused, and so is more than one answer.
pub proof fn law_body_completes_with_its_octets(
    run: Running,
    records: Seq<Provenance>,
    tag: String,
    uid: NonZeroU32,
    start: u32,
    count: NonZeroU32,
)
    requires
        has_room(run, records),
        records[0] is Unchanged,
        run.command == (UidOnlyCommand::BodyChunk { uid, offset: start, count }),
        tag@ == run.tag,
    ensures
        ({
            let response = Response::Done { tag, status: Status::Success, code: None };
            let notifications = run.gathered.notifications;
            let gone = mailbox::vanished(notifications, uid@);
            let found = run.gathered.solicited;
            &&& found.len() == 0 && gone ==> ends(
                run,
                records,
                response,
                Outcome::Vanished { uid, notifications },
            )
            &&& found.len() == 0 && !gone ==> ends(
                run,
                records,
                response,
                Outcome::Missing { uid, notifications },
            )
            &&& found.len() == 1 && !gone ==> match found[0] {
                Solicited::Body { uid: named, rfc822_size, offset, bytes } => ends(
                    run,
                    records,
                    response,
                    Outcome::Chunk { uid: named, rfc822_size, offset, bytes, notifications },
                ),
                Solicited::Inventory(_) => is_refused(run, records, response),
            }
            &&& found.len() == 1 && gone ==> is_refused(run, records, response)
            &&& found.len() > 1 ==> is_refused(run, records, response)
        }),
{
}

/// `NOOP` completes with the notifications, and `LOGOUT` once the server has said farewell.
pub proof fn law_short_commands_complete(run: Running, records: Seq<Provenance>, tag: String)
    requires
        has_room(run, records),
        records[0] is Unchanged,
        tag@ == run.tag,
        run.gathered.solicited.len() == 0,
    ensures
        ({
            let response = Response::Done { tag, status: Status::Success, code: None };
            &&& run.command is Noop ==> ends(
                run,
                records,
                response,
                Outcome::Noop(run.gathered.notifications),
            )
            &&& run.command is Logout && run.gathered.saw_bye ==> ends(
                run,
                records,
                response,
                Outcome::Logout,
            )
            &&& run.command is Logout && !run.gathered.saw_bye ==> is_refused(
                run,
                records,
                response,
            )
        }),
{
}

/// A completion under another tag, with another status than OK, or with a code that the
/// command has no use for, is refused; only the completion ends a command.
pub proof fn law_only_its_completion_ends_a_command(
    run: Running,
    records: Seq<Provenance>,
    response: Response,
)
    ensures
        session::answered(run, records, response) matches Ok(Answer::Complete(_)) ==> {
            &&& response matches Response::Done { tag, status, code }
            &&& tag@ == run.tag
            &&& status == Status::Success
            &&& code is None || (code == Some(ResponseCode::ReadOnly) && run.command is Examine)
        },
        response is Done && has_room(run, records) ==> !(session::answered(
            run,
            records,
            response,
        ) matches Ok(Answer::Pending(_))),
{
}

/// A UID is reported as vanished where one of the ranges of one of the notifications holds
/// it, and only there.
pub proof fn law_vanished_uids_lie_in_a_range(
    notifications: Seq<Notification>,
    uid: u32,
    i: int,
    j: int,
)
    requires
        0 <= i < notifications.len(),
    ensures
        notifications[i] matches Notification::Vanished { uids, .. } ==> (0 <= j < uids@.len()
            && !uids@[j]@.exhausted && uids@[j]@.start <= uid <= uids@[j]@.end
            ==> mailbox::vanished(notifications, uid)),
        mailbox::vanished(notifications, uid) ==> exists|k: int|
            0 <= k < notifications.len() && (#[trigger] notifications[k]) is Vanished,
        (forall|k: int, m: int|
            0 <= k < notifications.len() && notifications[k] is Vanished && 0 <= m
                < notifications[k]->Vanished_uids@.len() ==> !(
            #[trigger] notifications[k]->Vanished_uids@[m]@.start <= uid
                <= notifications[k]->Vanished_uids@[m]@.end)) ==> !mailbox::vanished(
            notifications,
            uid,
        ),
{
    if let Notification::Vanished { uids, .. } = notifications[i] {
        if 0 <= j < uids@.len() && !uids@[j]@.exhausted && uids@[j]@.start <= uid <= uids@[j]@.end {
            assert(mailbox::range_holds(uids@[j], uid));
            assert(mailbox::reports_vanished(notifications[i], uid));
        }
    }
    if mailbox::vanished(notifications, uid) {
        let k = choose|k: int|
            0 <= k < notifications.len() && mailbox::reports_vanished(
                #[trigger] notifications[k],
                uid,
            );
        let ranges = notifications[k]->Vanished_uids@;
        let m = choose|m: int|
            0 <= m < ranges.len() && mailbox::range_holds(#[trigger] ranges[m], uid);
        assert(notifications[k] is Vanished);
        assert(notifications[k]->Vanished_uids@[m]@.start <= uid);
    }
}

/// Activation goes on with every list of capabilities, within the ceilings, and ends with
/// the completion under its tag once the connection is active and nothing else is waiting.
pub proof fn law_activation_completes(
    run: Enabling,
    control: framing::Control,
    tag: String,
    status: Status,
    code: Option<ResponseCode>,
)
    ensures
        ({
            let within = control.activation_wire_bytes <= run.limits.max_wire_bytes@;
            let done = session::enabling(run, control, Response::Done { tag, status, code });
            let listed = session::enabling(run, control, Response::Capabilities);
            let active = tag@ == run.tag && status == Status::Success && control.phase
                == framing::Phase::Active && control.provenance.len() == 0;
            &&& within && active ==> done == Ok::<Option<Enabling>, Error>(None)
            &&& !(within && active) ==> done is Err
            &&& within && run.responses_left > 1 ==> listed == Ok::<Option<Enabling>, Error>(
                Some(
                    Enabling {
                        limits: run.limits,
                        tag: run.tag,
                        responses_left: run.responses_left - 1,
                    },
                ),
            )
            &&& !(within && run.responses_left > 1) ==> listed is Err
        }),
{
}

/// Nothing but capabilities and the completion belongs to an activation.
pub proof fn law_activation_takes_nothing_else(
    run: Enabling,
    control: framing::Control,
    response: Response,
)
    requires
        !(response is Capabilities),
        !(response is Done),
    ensures
        session::enabling(run, control, response) is Err,
{
}

/// Three attributes in whatever order.
pub open spec fn any_order(i: int, j: int, k: int) -> bool {
    0 <= i < 3 && 0 <= j < 3 && 0 <= k < 3 && i != j && j != k && i != k
}

proof fn lemma_three_attributes(attributes: Seq<Attribute>)
    requires
        attributes.len() == 3,
    ensures
        attributes.drop_last() == attributes.take(2),
        attributes.take(2).drop_last() == attributes.take(1),
        attributes.take(1).drop_last() == Seq::<Attribute>::empty(),
        attributes.last() == attributes[2],
        attributes.take(2).last() == attributes[1],
        attributes.take(1).last() == attributes[0],
{
    assert(attributes.drop_last() =~= attributes.take(2));
    assert(attributes.take(2).drop_last() =~= attributes.take(1));
    assert(attributes.take(1).drop_last() =~= Seq::<Attribute>::empty());
}

/// An inventory takes the UID, size and date of a message in whatever order they come,
/// for every UID in the range that was asked for, and for no other.
pub proof fn law_requested_metadata_is_taken(
    run: Running,
    records: Seq<Provenance>,
    request: InventoryRequest,
    attributes: Vec<Attribute>,
    uid: u32,
    size: u32,
    date: String,
    i: int,
    j: int,
    k: int,
)
    requires
        has_room(run, records),
        records[0] matches Provenance::TranslatedUidFetch { leading_uid, .. } && leading_uid == uid,
        run.command == UidOnlyCommand::Inventory(request),
        any_order(i, j, k),
        attributes@.len() == 3,
        attributes@[i] == Attribute::Uid(uid),
        attributes@[j] == Attribute::Rfc822Size(size),
        attributes@[k] == Attribute::InternalDate(date),
        uid != 0,
    ensures
        ({
            let response = Response::Fetch { leading_uid: uid, attributes };
            let item = InventoryItem {
                uid: NonZeroU32::of(uid),
                rfc822_size: size,
                internal_date: date,
            };
            &&& request.first()@ <= uid <= request.last()@ ==> goes_on(
                run,
                records,
                response,
                with_data(run.gathered, Solicited::Inventory(item)),
            )
            &&& !(request.first()@ <= uid <= request.last()@) ==> is_refused(run, records, response)
        }),
{
    lemma_three_attributes(attributes@);
    reveal_with_fuel(dispatch::uids_in, 4);
    reveal_with_fuel(dispatch::flags_in, 4);
    reveal_with_fuel(dispatch::sizes_in, 4);
    reveal_with_fuel(dispatch::dates_in, 4);
    reveal_with_fuel(dispatch::bodies_in, 4);
}

/// A body command takes the octets of the message that it asked for, in whatever order its
/// UID, size and section come, where they start at the offset and are as many as asked for
/// or as the message still has.
pub proof fn law_requested_octets_are_taken(
    run: Running,
    records: Seq<Provenance>,
    asked: NonZeroU32,
    offset: u32,
    count: NonZeroU32,
    attributes: Vec<Attribute>,
    uid: u32,
    size: u32,
    bytes: Vec<u8>,
    i: int,
    j: int,
    k: int,
)
    requires
        has_room(run, records),
        records[0] matches Provenance::TranslatedUidFetch { leading_uid, .. } && leading_uid == uid,
        run.command == (UidOnlyCommand::BodyChunk { uid: asked, offset, count }),
        any_order(i, j, k),
        attributes@.len() == 3,
        attributes@[i] == Attribute::Uid(uid),
        attributes@[j] == Attribute::Rfc822Size(size),
        attributes@[k] == Attribute::Body(
            BodySection { whole_message: true, offset: Some(offset), data: Some(bytes) },
        ),
        uid != 0,
    ensures
        ({
            let response = Response::Fetch { leading_uid: uid, attributes };
            let exact = uid == asked@ && offset <= size && (bytes@.len() == count@ && offset
                + count@ <= size || bytes@.len() == size - offset && size - offset < count@);
            &&& exact ==> goes_on(
                run,
                records,
                response,
                with_data(
                    run.gathered,
                    Solicited::Body {
                        uid: NonZeroU32::of(uid),
                        rfc822_size: size,
                        offset,
                        bytes,
                    },
                ),
            )
            &&& !exact ==> is_refused(run, records, response)
        }),
{
    lemma_three_attributes(attributes@);
    reveal_with_fuel(dispatch::uids_in, 4);
    reveal_with_fuel(dispatch::flags_in, 4);
    reveal_with_fuel(dispatch::sizes_in, 4);
    reveal_with_fuel(dispatch::dates_in, 4);
    reveal_with_fuel(dispatch::bodies_in, 4);
}

/// A fetch that brings the flags of a UID, with or without that UID, is noted as a change
/// of its flags, whatever the command.
pub proof fn law_flag_change_is_noted(
    run: Running,
    records: Seq<Provenance>,
    attributes: Vec<Attribute>,
    uid: u32,
    flags: Vec<String>,
    i: int,
)
    requires
        has_room(run, records),
        records[0] matches Provenance::TranslatedUidFetch { leading_uid, .. } && leading_uid == uid,
        1 <= attributes@.len() <= 2,
        0 <= i < attributes@.len(),
        attributes@[i] == Attribute::Flags(flags),
        attributes@.len() == 2 ==> attributes@[1 - i] == Attribute::Uid(uid),
        uid != 0,
    ensures
        ({
            let response = Response::Fetch { leading_uid: uid, attributes };
            let room = run.gathered.notifications.len() < run.limits.max_events@;
            &&& room ==> goes_on(
                run,
                records,
                response,
                with_event(
                    run.gathered,
                    Notification::Flags { uid: NonZeroU32::of(uid), flags },
                ),
            )
            &&& !room ==> is_refused(run, records, response)
        }),
{
    let all = attributes@;
    reveal_with_fuel(dispatch::uids_in, 4);
    reveal_with_fuel(dispatch::flags_in, 4);
    reveal_with_fuel(dispatch::sizes_in, 4);
    reveal_with_fuel(dispatch::dates_in, 4);
    reveal_with_fuel(dispatch::bodies_in, 4);
    assert(all.drop_last() =~= all.take(all.len() - 1));
    assert(all.take(1).drop_last() =~= Seq::<Attribute>::empty());
    assert(all.take(1).last() == all[0]);
    if all.len() == 1 {
        assert(all.take(1) =~= all);
    }
}

/// How many attributes there are of each kind, together.
proof fn lemma_attributes_are_sorted(attributes: Seq<Attribute>)
    ensures
        !dispatch::has_unlisted(attributes) ==> attributes.len() == dispatch::uids_in(
            attributes,
        ).len() + dispatch::flags_in(attributes).len() + dispatch::sizes_in(attributes).len()
            + dispatch::dates_in(attributes).len() + dispatch::bodies_in(attributes).len(),
        forall|n: int|
            0 <= n < dispatch::uids_in(attributes).len() ==> attributes.contains(
                Attribute::Uid(#[trigger] dispatch::uids_in(attributes)[n]),
            ),
        forall|n: int|
            0 <= n < dispatch::sizes_in(attributes).len() ==> attributes.contains(
                Attribute::Rfc822Size(#[trigger] dispatch::sizes_in(attributes)[n]),
            ),
        forall|n: int|
            0 <= n < dispatch::dates_in(attributes).len() ==> attributes.contains(
                Attribute::InternalDate(#[trigger] dispatch::dates_in(attributes)[n]),
            ),
        forall|n: int|
            0 <= n < dispatch::bodies_in(attributes).len() ==> attributes.contains(
                Attribute::Body(#[trigger] dispatch::bodies_in(attributes)[n]),
            ),
        forall|n: int|
            0 <= n < dispatch::flags_in(attributes).len() ==> attributes.contains(
                Attribute::Flags(#[trigger] dispatch::flags_in(attributes)[n]),
            ),
    decreases attributes.len(),
{
    if attributes.len() > 0 {
        let fewer = attributes.drop_last();
        let last = attributes.len() - 1;
        lemma_attributes_are_sorted(fewer);
        if !dispatch::has_unlisted(attributes) {
            assert(!dispatch::has_unlisted(fewer)) by {
                if dispatch::has_unlisted(fewer) {
                    let n = choose|n: int|
                        0 <= n < fewer.len() && (#[trigger] fewer[n]) is Unlisted;
                    assert(attributes[n] is Unlisted);
                }
            }
            assert(!(attributes[last] is Unlisted));
        }
        assert forall|a: Attribute| #[trigger] fewer.contains(a) implies attributes.contains(a) by {
            let n = choose|n: int| 0 <= n < fewer.len() && fewer[n] == a;
            assert(attributes[n] == a);
        }
        assert(attributes.contains(attributes[last]));
        assert forall|n: int| 0 <= n < dispatch::uids_in(attributes).len() implies attributes.contains(
            Attribute::Uid(#[trigger] dispatch::uids_in(attributes)[n])) by {
            if n < dispatch::uids_in(fewer).len() {
                assert(dispatch::uids_in(attributes)[n] == dispatch::uids_in(fewer)[n]);
                assert(fewer.contains(Attribute::Uid(dispatch::uids_in(fewer)[n])));
            }
        }
        assert forall|n: int| 0 <= n < dispatch::sizes_in(attributes).len() implies attributes.contains(
            Attribute::Rfc822Size(#[trigger] dispatch::sizes_in(attributes)[n])) by {
            if n < dispatch::sizes_in(fewer).len() {
                assert(dispatch::sizes_in(attributes)[n] == dispatch::sizes_in(fewer)[n]);
                assert(fewer.contains(Attribute::Rfc822Size(dispatch::sizes_in(fewer)[n])));
            }
        }
        assert forall|n: int| 0 <= n < dispatch::dates_in(attributes).len() implies attributes.contains(
            Attribute::InternalDate(#[trigger] dispatch::dates_in(attributes)[n])) by {
            if n < dispatch::dates_in(fewer).len() {
                assert(dispatch::dates_in(attributes)[n] == dispatch::dates_in(fewer)[n]);
                assert(fewer.contains(Attribute::InternalDate(dispatch::dates_in(fewer)[n])));
            }
        }
        assert forall|n: int| 0 <= n < dispatch::bodies_in(attributes).len() implies attributes.contains(
            Attribute::Body(#[trigger] dispatch::bodies_in(attributes)[n])) by {
            if n < dispatch::bodies_in(fewer).len() {
                assert(dispatch::bodies_in(attributes)[n] == dispatch::bodies_in(fewer)[n]);
                assert(fewer.contains(Attribute::Body(dispatch::bodies_in(fewer)[n])));
            }
        }
        assert forall|n: int| 0 <= n < dispatch::flags_in(attributes).len() implies attributes.contains(
            Attribute::Flags(#[trigger] dispatch::flags_in(attributes)[n])) by {
            if n < dispatch::flags_in(fewer).len() {
                assert(dispatch::flags_in(attributes)[n] == dispatch::flags_in(fewer)[n]);
                assert(fewer.contains(Attribute::Flags(dispatch::flags_in(fewer)[n])));
            }
        }
    }
}

/// Every fetch that is accepted has the shape of what it adds: the metadata of an inventory
/// come from exactly a UID, a size and a date, octets from exactly a UID, a size and one
/// section of the whole message, and a change of flags from flags, with or without a UID.
pub proof fn law_accepted_fetches_have_their_shape(
    command: UidOnlyCommand,
    uid: u32,
    attributes: Seq<Attribute>,
    limits: crate::limits::CommandLimits,
    gathered: Gathered,
)
    ensures
        dispatch::uidfetch(command, uid, attributes, limits, gathered) matches Ok(next) ==> {
            ||| {
                &&& next.notifications.len() > gathered.notifications.len()
                &&& next.notifications.last() matches Notification::Flags { uid: named, flags }
                &&& next == with_event(gathered, next.notifications.last())
                &&& named@ == uid
                &&& attributes.contains(Attribute::Flags(flags))
                &&& attributes.len() == 1 || (attributes.len() == 2 && attributes.contains(
                    Attribute::Uid(uid),
                ))
            }
            ||| {
                &&& next.solicited.len() > gathered.solicited.len()
                &&& next == with_data(gathered, next.solicited.last())
                &&& attributes.len() == 3
                &&& attributes.contains(Attribute::Uid(uid))
                &&& match next.solicited.last() {
                    Solicited::Inventory(item) => {
                        &&& command is Inventory
                        &&& item.uid@ == uid
                        &&& attributes.contains(Attribute::Rfc822Size(item.rfc822_size))
                        &&& attributes.contains(Attribute::InternalDate(item.internal_date))
                    },
                    Solicited::Body { uid: named, rfc822_size, offset, bytes } => {
                        &&& command is BodyChunk
                        &&& named@ == uid
                        &&& attributes.contains(Attribute::Rfc822Size(rfc822_size))
                        &&& attributes.contains(
                            Attribute::Body(
                                BodySection {
                                    whole_message: true,
                                    offset: Some(offset),
                                    data: Some(bytes),
                                },
                            ),
                        )
                    },
                }
            }
        },
{
    lemma_attributes_are_sorted(attributes);
    if let Ok(next) = dispatch::uidfetch(command, uid, attributes, limits, gathered) {
        let bodies = dispatch::bodies_in(attributes);
        if dispatch::uids_in(attributes).len() == 1 {
            assert(dispatch::uids_in(attributes)[0] == uid);
        }
        if bodies.len() == 1 {
            assert(attributes.contains(Attribute::Body(bodies[0])));
        }
        if dispatch::sizes_in(attributes).len() == 1 {
            assert(attributes.contains(
                Attribute::Rfc822Size(dispatch::sizes_in(attributes)[0]),
            ));
        }
        if dispatch::dates_in(attributes).len() == 1 {
            assert(attributes.contains(
                Attribute::InternalDate(dispatch::dates_in(attributes)[0]),
            ));
        }
        if dispatch::flags_in(attributes).len() == 1 {
            assert(attributes.contains(Attribute::Flags(dispatch::flags_in(attributes)[0])));
        }
    }
}

/// A whole `EXAMINE` as a server answers it, with any numbers that fit together, ends in
/// the boundary that it told.
pub proof fn law_examine_exchange_succeeds(
    run: Running,
    record: Provenance,
    exists_count: u32,
    recent: u32,
    validity: u32,
    next: u32,
    tag: String,
)
    requires
        run.command is Examine,
        run.gathered == dispatch::nothing(),
        run.responses == 0,
        run.wire_bytes == 0,
        run.tag == tag@,
        record is Unchanged,
        run.limits.max_responses@ >= 7,
        run.limits.max_events@ >= 2,
        7 * wire_size(record) <= run.limits.max_wire_bytes@,
        validity > 0,
        exists_count < next,
    ensures
        ({
            let responses = seq![
                Response::Mailbox(MailboxDatum::Flags),
                Response::Mailbox(MailboxDatum::Exists(exists_count)),
                Response::Mailbox(MailboxDatum::Recent(recent)),
                Response::Data {
                    status: Status::Success,
                    code: Some(ResponseCode::PermanentFlags),
                },
                Response::Data {
                    status: Status::Success,
                    code: Some(ResponseCode::UidValidity(validity)),
                },
                Response::Data {
                    status: Status::Success,
                    code: Some(ResponseCode::UidNext(next)),
                },
                Response::Done {
                    tag,
                    status: Status::Success,
                    code: Some(ResponseCode::ReadOnly),
                },
            ];
            &&& answered_all(run, record, responses) matches Ok(
                Answer::Complete(
                    Outcome::Examine { exists, uid_validity, uid_next, high, notifications },
                ),
            )
            &&& exists == exists_count
            &&& uid_validity@ == validity
            &&& uid_next@ == next
            &&& notifications == seq![Notification::Recent(recent), Notification::Status]
        }),
{
    let responses = seq![
        Response::Mailbox(MailboxDatum::Flags),
        Response::Mailbox(MailboxDatum::Exists(exists_count)),
        Response::Mailbox(MailboxDatum::Recent(recent)),
        Response::Data { status: Status::Success, code: Some(ResponseCode::PermanentFlags) },
        Response::Data {
            status: Status::Success,
            code: Some(ResponseCode::UidValidity(validity)),
        },
        Response::Data { status: Status::Success, code: Some(ResponseCode::UidNext(next)) },
        Response::Done { tag, status: Status::Success, code: Some(ResponseCode::ReadOnly) },
    ];
    reveal_with_fuel(answered_all, 8);
    let one = responses.drop_last();
    let two = one.drop_last();
    let three = two.drop_last();
    let four = three.drop_last();
    let five = four.drop_last();
    let six = five.drop_last();
    assert(one.last() == responses[5]);
    assert(two.last() == responses[4]);
    assert(three.last() == responses[3]);
    assert(four.last() == responses[2]);
    assert(five.last() == responses[1]);
    assert(six.last() == responses[0]);
    assert(six.drop_last() =~= Seq::empty());
    let noted = Seq::<Notification>::empty().push(Notification::Recent(recent)).push(
        Notification::Status,
    );
    assert(noted =~= seq![Notification::Recent(recent), Notification::Status]);
}

/// Some responses one after the other, with records like this one.
pub open spec fn answered_all(
    run: Running,
    record: Provenance,
    responses: Seq<Response>,
) -> Result<Answer, Error>
    decreases responses.len(),
{
    if responses.len() == 0 {
        Ok(Answer::Pending(run))
    } else {
        match answered_all(run, record, responses.drop_last()) {
            Ok(Answer::Pending(reached)) => session::answered(
                reached,
                seq![record],
                responses.last(),
            ),
            other => other,
        }
    }
}

/// UIDONLY may be enabled on a clean connection with a time limit, and only there.
pub proof fn law_clean_connection_may_be_enabled(
    handle: crate::adapter::AdapterHandle,
    limits: crate::limits::CommandLimits,
    result: Result<&'static str, Error>,
)
    requires
        call_ensures(session::UidOnlySession::may_enable, (&handle, &limits), result),
    ensures
        result is Ok <==> {
            &&& limits.timeout.seconds > 0 || limits.timeout.nanoseconds > 0
            &&& handle@.phase != framing::Phase::Active
            &&& handle@.provenance.len() == 0
        },
        result matches Ok(line) ==> line@ == "ENABLE UIDONLY"@,
        result matches Err(e) ==> e.kind == ErrorKind::InvalidInput,
{
}

/// A command that is cut short fails for the reason why: its time was up, the connection
/// closed, or what the reader met.
pub proof fn law_interrupted_commands_tell_why(
    interruption: session::Interruption,
    error: Error,
)
    requires
        call_ensures(session::command_interruption, (interruption,), error),
    ensures
        interruption == session::Interruption::Expired ==> error.kind == ErrorKind::TimedOut,
        interruption == session::Interruption::Closed ==> error.kind == ErrorKind::UnexpectedEof,
        interruption matches session::Interruption::Unreadable(kind) ==> error.kind == kind,
{
}

/// A command goes out as it was prepared, under its tag and with nothing gathered yet.
pub proof fn law_sent_commands_start_afresh(
    prepared: session::PreparedCommand,
    tag: String,
    run: session::CommandRun,
)
    requires
        call_ensures(session::PreparedCommand::sent, (prepared, tag), run),
    ensures
        run@.command == prepared.what(),
        run@.limits == prepared.ceilings(),
        run@.tag == tag@,
        run@.responses == 0 && run@.wire_bytes == 0,
        run@.gathered.exists is None && run@.gathered.uid_validity is None
            && run@.gathered.uid_next is None,
        !run@.gathered.read_only && !run@.gathered.saw_bye,
        run@.gathered.solicited.len() == 0 && run@.gathered.notifications.len() == 0,
        run@.gathered.vanished_ranges == 0,
{
}

/// A range that a notification reports ends before its end where it was walked through, and
/// holds its end otherwise.
pub proof fn law_ranges_hold_their_ends(range: RangeInclusive<u32>, uid: u32)
    ensures
        !range@.exhausted ==> (mailbox::range_holds(range, uid) <==> range@.start <= uid
            <= range@.end),
        range@.exhausted ==> (mailbox::range_holds(range, uid) <==> range@.start <= uid && uid
            < range@.end),
{
}

/// Commands have to have a time limit.
pub proof fn law_commands_need_a_time_limit(
    limits: crate::limits::CommandLimits,
    result: Result<(), Error>,
)
    requires
        call_ensures(crate::limits::CommandLimits::validate, (&limits,), result),
    ensures
        result is Ok <==> limits.timeout.seconds > 0 || limits.timeout.nanoseconds > 0,
        result matches Err(e) ==> e.kind == ErrorKind::InvalidInput,
{
}

/// An activation that is cut short fails because its time was up or because the connection
/// closed.
pub proof fn law_interrupted_activation_tells_why(expired: bool, error: Error)
    requires
        call_ensures(session::enable_interruption, (expired,), error),
    ensures
        expired ==> error.kind == ErrorKind::TimedOut,
        !expired ==> error.kind == ErrorKind::InvalidData,
{
}

/// Copies of items and of notifications say the same in every respect.
pub proof fn law_copies_say_the_same(
    item: InventoryItem,
    copy: InventoryItem,
    event: Notification,
    other: Notification,
)
    ensures
        mailbox::same_item(item, copy) <==> item.uid@ == copy.uid@ && item.rfc822_size
            == copy.rfc822_size && item.internal_date@ == copy.internal_date@,
        mailbox::same_event(event, other) ==> match event {
            Notification::Exists(n) => other == Notification::Exists(n),
            Notification::Recent(n) => other == Notification::Recent(n),
            Notification::Status => other == Notification::Status,
            Notification::Flags { uid, flags } => {
                &&& other matches Notification::Flags { uid: u, flags: f }
                &&& u == uid
                &&& f@.len() == flags@.len()
                &&& forall|i: int| 0 <= i < flags@.len() ==> (#[trigger] f@[i])@ == flags@[i]@
            },
            Notification::Vanished { earlier, uids } => {
                &&& other matches Notification::Vanished { earlier: e, uids: u }
                &&& e == earlier
                &&& u@.len() == uids@.len()
                &&& forall|i: int| 0 <= i < uids@.len() ==> (#[trigger] u@[i])@ == uids@[i]@
            },
        },
        mailbox::same_event(event, event),
{
    broadcast use crate::nonzero::lemma_nonzero_u32_view;

}

} // verus!
