//! What holds of every run of a command.

use crate::command::{InventoryRequest, UidOnlyCommand};
use crate::dispatch;
use crate::dispatch::{Response, Solicited};
use crate::framing;
use crate::framing::Provenance;
use crate::inventory;
use crate::limits::CommandLimits;
use crate::mailbox;
use crate::mailbox::Notification;
use crate::nonzero::NonZeroU32;
use crate::session;
use vstd::prelude::*;

verus! {

broadcast use crate::nonzero::lemma_nonzero_u32_of;

/// Data that the command asked for.
pub open spec fn asked_for(command: UidOnlyCommand, data: Solicited) -> bool {
    match (command, data) {
        (UidOnlyCommand::Inventory(request), Solicited::Inventory(item)) => request.first()@
            <= item.uid@ <= request.last()@,
        (
            UidOnlyCommand::BodyChunk { uid, offset, count },
            Solicited::Body { uid: found, rfc822_size, offset: start, bytes },
        ) => {
            &&& found@ == uid@
            &&& start == offset
            &&& offset <= rfc822_size
            &&& bytes@.len() == framing::smaller(rfc822_size - offset, count@ as int)
        },
        _ => false,
    }
}

/// What a running command may have gathered: only data that it asked for, within
/// its ceilings.
pub open spec fn lawful(run: session::Running) -> bool {
    &&& forall|i: int|
        0 <= i < run.gathered.solicited.len() ==> asked_for(
            run.command,
            #[trigger] run.gathered.solicited[i],
        )
    &&& run.gathered.notifications.len() <= run.limits.max_events@
    &&& 0 <= run.gathered.vanished_ranges <= run.limits.max_vanished_ranges@
    &&& 0 <= run.responses <= run.limits.max_responses@
    &&& 0 <= run.wire_bytes <= run.limits.max_wire_bytes@
    &&& !(run.command is Examine) ==> run.gathered.exists is None && run.gathered.uid_validity
        is None && run.gathered.uid_next is None
}

/// Every response keeps a run lawful: whatever the server sends, nothing is kept
/// that the command did not ask for, and no ceiling is passed.
pub proof fn law_responses_keep_runs_lawful(
    run: session::Running,
    records: Seq<Provenance>,
    response: Response,
)
    requires
        lawful(run),
    ensures
        session::answered(run, records, response) matches Ok(session::Answer::Pending(next)) ==> (
        lawful(next) && next.command == run.command && next.limits == run.limits && next.tag
            == run.tag && next.responses == run.responses + 1),
{
    if let Ok(session::Answer::Pending(next)) = session::answered(run, records, response) {
        let before = run.gathered.solicited;
        let after = next.gathered.solicited;
        assert forall|i: int| 0 <= i < after.len() implies asked_for(
            run.command,
            #[trigger] after[i],
        ) by {
            if i < before.len() {
                assert(asked_for(run.command, before[i]));
                assert(after[i] == before[i]);
            }
        }
    }
}

/// A fresh run is lawful.
pub proof fn law_fresh_run_is_lawful(
    limits: CommandLimits,
    command: UidOnlyCommand,
    tag: Seq<char>,
)
    ensures
        lawful(
            session::Running {
                limits,
                command,
                tag,
                gathered: dispatch::nothing(),
                responses: 0,
                wire_bytes: 0,
            },
        ),
{
}

/// A page that an inventory command completes with answers the plan that waits
/// for it: the planner never refuses it.
pub proof fn law_completed_page_is_accepted(
    run: session::Running,
    records: Seq<Provenance>,
    response: Response,
    plan: inventory::Plan,
    asked: InventoryRequest,
)
    requires
        lawful(run),
        run.command == UidOnlyCommand::Inventory(asked),
        inventory::outstanding(plan, asked),
    ensures
        session::answered(run, records, response) matches Ok(session::Answer::Complete(outcome))
            ==> (outcome matches dispatch::Outcome::Inventory { request, items, .. } && request
            == asked && inventory::answers(plan, items)),
{
    if let Ok(session::Answer::Complete(outcome)) = session::answered(run, records, response) {
        let solicited = run.gathered.solicited;
        let items = dispatch::items_in(solicited);
        assert forall|i: int| 0 <= i < items.len() implies asked.first()@ <= (
        #[trigger] items[i]).uid@ <= asked.last()@ by {
            assert(asked_for(run.command, solicited[i]));
        }
    }
}

/// Octets that a body command completes with are those asked for: of the exact
/// UID, from the offset on, and as many as the message still has.
pub proof fn law_completed_chunk_is_exact(
    run: session::Running,
    records: Seq<Provenance>,
    response: Response,
    asked: NonZeroU32,
    start: u32,
    wanted: NonZeroU32,
)
    requires
        lawful(run),
        run.command == (UidOnlyCommand::BodyChunk { uid: asked, offset: start, count: wanted }),
    ensures
        session::answered(run, records, response) matches Ok(
            session::Answer::Complete(dispatch::Outcome::Chunk { uid, rfc822_size, offset, bytes, notifications }),
        ) ==> {
            &&& uid@ == asked@
            &&& offset == start
            &&& start <= rfc822_size
            &&& bytes@.len() == framing::smaller(rfc822_size - start, wanted@ as int)
            &&& !mailbox::vanished(notifications, asked@)
        },
{
    if let Ok(session::Answer::Complete(outcome)) = session::answered(run, records, response) {
        if run.gathered.solicited.len() == 1 {
            assert(asked_for(run.command, run.gathered.solicited[0]));
        }
    }
}

/// A snapshot fits together: the highest UID is UIDNEXT less one, and no more
/// messages exist than there are UIDs.
pub proof fn law_snapshot_fits_together(
    run: session::Running,
    records: Seq<Provenance>,
    response: Response,
)
    requires
        run.command is Examine,
    ensures
        session::answered(run, records, response) matches Ok(
            session::Answer::Complete(dispatch::Outcome::Examine { exists, uid_next, high, .. }),
        ) ==> {
            &&& exists <= uid_next@ - 1
            &&& high is None ==> exists == 0
            &&& high matches Some(highest) ==> highest@ == uid_next@ - 1 && exists <= highest@
        },
{
}

/// No response that carries message sequence numbers is ever accepted.
pub proof fn law_sequence_numbers_are_refused(
    run: session::Running,
    records: Seq<Provenance>,
    leading: u32,
    attributes: Vec<dispatch::Attribute>,
)
    requires
        records.len() > 0,
        records[0] is Unchanged,
    ensures
        session::answered(run, records, Response::Expunge) is Err,
        session::answered(run, records, (Response::Fetch { leading_uid: leading, attributes })) is Err,
{
}

/// A fetch that is accepted adds exactly one thing behind what was gathered: a change of the
/// flags of its UID where it brings no size, date or body, else data that was asked for. It
/// names its UID, which is not zero, at most once more.
pub proof fn law_fetch_adds_one_thing(
    command: UidOnlyCommand,
    uid: u32,
    attributes: Seq<dispatch::Attribute>,
    limits: CommandLimits,
    gathered: dispatch::Gathered,
)
    ensures
        dispatch::uidfetch(command, uid, attributes, limits, gathered) matches Ok(next) ==> {
            let unasked = dispatch::sizes_in(attributes).len() == 0 && dispatch::dates_in(
                attributes,
            ).len() == 0 && dispatch::bodies_in(attributes).len() == 0;
            let inner = dispatch::uids_in(attributes);
            &&& uid != 0
            &&& inner.len() <= 1
            &&& inner.len() == 1 ==> inner[0] == uid
            &&& unasked ==> {
                &&& next.notifications.len() == gathered.notifications.len() + 1
                &&& next.notifications.last() matches Notification::Flags { uid: named, .. }
                    && named@ == uid
                &&& next == (dispatch::Gathered {
                    notifications: gathered.notifications.push(next.notifications.last()),
                    ..gathered
                })
            }
            &&& !unasked ==> {
                &&& next.solicited.len() == gathered.solicited.len() + 1
                &&& next == (dispatch::Gathered {
                    solicited: gathered.solicited.push(next.solicited.last()),
                    ..gathered
                })
            }
        },
{
}

} // verus!
