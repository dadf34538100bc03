//! The commands of an active connection, response by response.

use crate::command::{InventoryRequest, UidOnlyCommand};
use crate::error;
use crate::error::{invalid_data, Error};
use crate::framing;
use crate::framing::Provenance;
use crate::limits::CommandLimits;
use crate::mailbox;
use crate::mailbox::{
    has_vanished, is_increasing, BodyChunk, ExactFetchOutcome, InventoryItem, InventoryPage,
    MailboxSnapshot, Notification,
};
use crate::nonzero::NonZeroU32;
use core::ops::RangeInclusive;
use vstd::prelude::*;

verus! {

broadcast use crate::nonzero::lemma_nonzero_u32_of;

/// The status of a response.
#[derive(Clone, Copy, Debug, PartialEq, Eq, Structural)]
pub enum Status {
    Success,
    No,
    Bad,
    PreAuth,
    Bye,
}

/// The code of a status response.
#[derive(Clone, Copy, Debug, PartialEq, Eq, Structural)]
pub enum ResponseCode {
    ReadOnly,
    UidValidity(u32),
    UidNext(u32),
    PermanentFlags,
    HighestModSeq,
    Unseen,
    Alert,
    Unlisted,
}

/// A body section of a fetch: whether it is the whole message, where it starts,
/// and its octets.
#[derive(Debug, PartialEq, Eq)]
pub struct BodySection {
    pub whole_message: bool,
    pub offset: Option<u32>,
    pub data: Option<Vec<u8>>,
}

/// One attribute of a fetch.
#[derive(Debug, PartialEq, Eq)]
pub enum Attribute {
    Uid(u32),
    Flags(Vec<String>),
    Rfc822Size(u32),
    InternalDate(String),
    Body(BodySection),
    Unlisted,
}

/// A mailbox response.
#[derive(Clone, Copy, Debug, PartialEq, Eq, Structural)]
pub enum MailboxDatum {
    Exists(u32),
    Recent(u32),
    Flags,
    Unlisted,
}

/// A parsed response.
#[derive(Debug, PartialEq, Eq)]
pub enum Response {
    Done { tag: String, status: Status, code: Option<ResponseCode> },
    Fetch { leading_uid: u32, attributes: Vec<Attribute> },
    Mailbox(MailboxDatum),
    Data { status: Status, code: Option<ResponseCode> },
    Vanished { earlier: bool, uids: Vec<RangeInclusive<u32>> },
    Expunge,
    Capabilities,
    Unlisted,
}

/// Data that a command asked for.
#[derive(Debug, PartialEq, Eq)]
pub enum Solicited {
    Inventory(InventoryItem),
    Body { uid: NonZeroU32, rfc822_size: u32, offset: u32, bytes: Vec<u8> },
}

/// What the responses to a command have brought so far.
#[derive(Debug, PartialEq, Eq)]
pub struct Accumulator {
    exists: Option<u32>,
    uid_validity: Option<NonZeroU32>,
    uid_next: Option<NonZeroU32>,
    read_only: bool,
    solicited: Vec<Solicited>,
    notifications: Vec<Notification>,
    vanished_ranges: usize,
    saw_bye: bool,
}

/// The view of an [`Accumulator`].
#[verifier::ext_equal]
pub ghost struct Gathered {
    pub exists: Option<u32>,
    pub uid_validity: Option<NonZeroU32>,
    pub uid_next: Option<NonZeroU32>,
    pub read_only: bool,
    pub solicited: Seq<Solicited>,
    pub notifications: Seq<Notification>,
    pub vanished_ranges: int,
    pub saw_bye: bool,
}

impl View for Accumulator {
    type V = Gathered;

    closed spec fn view(&self) -> Gathered {
        Gathered {
            exists: self.exists,
            uid_validity: self.uid_validity,
            uid_next: self.uid_next,
            read_only: self.read_only,
            solicited: self.solicited@,
            notifications: self.notifications@,
            vanished_ranges: self.vanished_ranges as int,
            saw_bye: self.saw_bye,
        }
    }
}

/// Nothing gathered yet.
pub open spec fn nothing() -> Gathered {
    Gathered {
        exists: None,
        uid_validity: None,
        uid_next: None,
        read_only: false,
        solicited: Seq::empty(),
        notifications: Seq::empty(),
        vanished_ranges: 0,
        saw_bye: false,
    }
}

impl Default for Accumulator {
    fn default() -> (accumulator: Self)
        ensures
            accumulator@ == nothing(),
    {
        let accumulator = Accumulator {
            exists: None,
            uid_validity: None,
            uid_next: None,
            read_only: false,
            solicited: Vec::new(),
            notifications: Vec::new(),
            vanished_ranges: 0,
            saw_bye: false,
        };
        assert(accumulator@ =~= nothing());
        accumulator
    }
}

/// The result of a completed command.
#[derive(Debug, PartialEq, Eq)]
pub enum CommandOutput {
    Examine(MailboxSnapshot),
    Inventory(InventoryPage),
    Body(ExactFetchOutcome),
    Noop(Vec<Notification>),
    Logout,
}

/// The UIDs among attributes, in order.
pub open spec fn uids_in(attributes: Seq<Attribute>) -> Seq<u32>
    decreases attributes.len(),
{
    if attributes.len() == 0 {
        Seq::empty()
    } else {
        match attributes.last() {
            Attribute::Uid(uid) => uids_in(attributes.drop_last()).push(uid),
            _ => uids_in(attributes.drop_last()),
        }
    }
}

/// The flag lists among attributes, in order.
pub open spec fn flags_in(attributes: Seq<Attribute>) -> Seq<Vec<String>>
    decreases attributes.len(),
{
    if attributes.len() == 0 {
        Seq::empty()
    } else {
        match attributes.last() {
            Attribute::Flags(flags) => flags_in(attributes.drop_last()).push(flags),
            _ => flags_in(attributes.drop_last()),
        }
    }
}

/// The message sizes among attributes, in order.
pub open spec fn sizes_in(attributes: Seq<Attribute>) -> Seq<u32>
    decreases attributes.len(),
{
    if attributes.len() == 0 {
        Seq::empty()
    } else {
        match attributes.last() {
            Attribute::Rfc822Size(size) => sizes_in(attributes.drop_last()).push(size),
            _ => sizes_in(attributes.drop_last()),
        }
    }
}

/// The internal dates among attributes, in order.
pub open spec fn dates_in(attributes: Seq<Attribute>) -> Seq<String>
    decreases attributes.len(),
{
    if attributes.len() == 0 {
        Seq::empty()
    } else {
        match attributes.last() {
            Attribute::InternalDate(date) => dates_in(attributes.drop_last()).push(date),
            _ => dates_in(attributes.drop_last()),
        }
    }
}

/// The body sections among attributes, in order.
pub open spec fn bodies_in(attributes: Seq<Attribute>) -> Seq<BodySection>
    decreases attributes.len(),
{
    if attributes.len() == 0 {
        Seq::empty()
    } else {
        match attributes.last() {
            Attribute::Body(section) => bodies_in(attributes.drop_last()).push(section),
            _ => bodies_in(attributes.drop_last()),
        }
    }
}

/// An attribute that no command asks for.
pub open spec fn has_unlisted(attributes: Seq<Attribute>) -> bool {
    exists|i: int| 0 <= i < attributes.len() && (#[trigger] attributes[i]) is Unlisted
}

/// A notification is added, within the ceiling on events.
pub open spec fn notified(
    limits: CommandLimits,
    gathered: Gathered,
    notification: Notification,
) -> Result<Gathered, Error> {
    if gathered.notifications.len() >= limits.max_events@ {
        Err(error::data_error("command event count exceeds configured limit"))
    } else {
        Ok(Gathered { notifications: gathered.notifications.push(notification), ..gathered })
    }
}

pub open spec fn solicit(gathered: Gathered, data: Solicited) -> Gathered {
    Gathered { solicited: gathered.solicited.push(data), ..gathered }
}

/// The metadata that an inventory asked for.
pub open spec fn inventory_record(
    request: InventoryRequest,
    uid: u32,
    attributes: Seq<Attribute>,
) -> Result<Solicited, Error> {
    let sizes = sizes_in(attributes);
    let dates = dates_in(attributes);
    if has_unlisted(attributes) || bodies_in(attributes).len() > 0 {
        Err(error::data_error("inventory result contains an unrequested attribute"))
    } else if uid < request.first()@ || uid > request.last()@ {
        Err(error::data_error("inventory UID is outside requested range"))
    } else if sizes.len() != 1 || dates.len() != 1 {
        Err(
            error::data_error(
                "inventory result does not contain exactly UID, RFC822.SIZE, and INTERNALDATE",
            ),
        )
    } else {
        Ok(
            Solicited::Inventory(
                InventoryItem {
                    uid: NonZeroU32::of(uid),
                    rfc822_size: sizes[0],
                    internal_date: dates[0],
                },
            ),
        )
    }
}

/// The octets that a body command asked for.
pub open spec fn body_record(
    asked_uid: u32,
    offset: u32,
    count: u32,
    uid: u32,
    attributes: Seq<Attribute>,
) -> Result<Solicited, Error> {
    let sizes = sizes_in(attributes);
    let bodies = bodies_in(attributes);
    if has_unlisted(attributes) || dates_in(attributes).len() > 0 {
        Err(error::data_error("body result contains an unrequested attribute"))
    } else if uid != asked_uid {
        Err(error::data_error("body result does not match the exact requested UID"))
    } else if sizes.len() != 1 || bodies.len() != 1 {
        Err(
            error::data_error(
                "body result does not contain exactly UID, RFC822.SIZE, and one body section",
            ),
        )
    } else if !bodies[0].whole_message || bodies[0].offset != Some(offset) {
        Err(
            error::data_error("body section origin does not match requested full-message chunk"),
        )
    } else {
        match bodies[0].data {
            None => Err(error::data_error("body response omitted literal data")),
            Some(bytes) => if sizes[0] < offset {
                Err(error::data_error("body response offset exceeds RFC822.SIZE"))
            } else if bytes@.len() != framing::smaller(sizes[0] - offset, count as int) {
                Err(
                    error::data_error(
                        "body literal length is inconsistent with request and RFC822.SIZE",
                    ),
                )
            } else {
                Ok(
                    Solicited::Body {
                        uid: NonZeroU32::of(uid),
                        rfc822_size: sizes[0],
                        offset,
                        bytes,
                    },
                )
            },
        }
    }
}

/// What a fetch of one UID adds: data that the command asked for, or a change of
/// flags.
pub open spec fn uidfetch(
    command: UidOnlyCommand,
    uid: u32,
    attributes: Seq<Attribute>,
    limits: CommandLimits,
    gathered: Gathered,
) -> Result<Gathered, Error> {
    let uids = uids_in(attributes);
    let flags = flags_in(attributes);
    if uid == 0 {
        Err(error::data_error("UID 0 is invalid"))
    } else if uids.len() > 1 {
        Err(error::data_error("UIDFETCH contains multiple inner UID items"))
    } else if uids.len() == 1 && uids[0] != uid {
        Err(error::data_error("leading and inner UID differ"))
    } else if sizes_in(attributes).len() == 0 && dates_in(attributes).len() == 0 && bodies_in(
        attributes,
    ).len() == 0 {
        if has_unlisted(attributes) {
            Err(
                error::data_error(
                    "unsolicited UIDFETCH contains an attribute outside the flags allowlist",
                ),
            )
        } else if flags.len() != 1 {
            Err(error::data_error("unclassified unsolicited UIDFETCH response"))
        } else {
            notified(
                limits,
                gathered,
                Notification::Flags { uid: NonZeroU32::of(uid), flags: flags[0] },
            )
        }
    } else if flags.len() > 0 {
        Err(
            error::data_error("solicited UIDFETCH mixed requested data with unsolicited flags"),
        )
    } else if uids.len() == 0 {
        Err(error::data_error("solicited UIDFETCH omitted the requested inner UID"))
    } else {
        match command {
            UidOnlyCommand::Inventory(request) => match inventory_record(
                request,
                uid,
                attributes,
            ) {
                Ok(data) => Ok(solicit(gathered, data)),
                Err(e) => Err(e),
            },
            UidOnlyCommand::BodyChunk { uid: asked, offset, count } => match body_record(
                asked@,
                offset,
                count@,
                uid,
                attributes,
            ) {
                Ok(data) => Ok(solicit(gathered, data)),
                Err(e) => Err(e),
            },
            _ => Err(error::data_error("non-fetch command received solicited UIDFETCH data")),
        }
    }
}

/// A result together with what has been gathered, as its view.
pub open spec fn gathered_by(result: Result<(), Error>, after: Gathered) -> Result<
    Gathered,
    Error,
> {
    match result {
        Ok(()) => Ok(after),
        Err(e) => Err(e),
    }
}

/// A response that is no fetch was handed on as it came.
pub fn require_unchanged(provenance: Provenance) -> (result: Result<(), Error>)
    ensures
        result == if provenance is Unchanged {
            Ok(())
        } else {
            Err(error::data_error("non-FETCH response has UIDFETCH provenance"))
        },
{
    match provenance {
        Provenance::Unchanged { .. } => Ok(()),
        _ => Err(invalid_data("non-FETCH response has UIDFETCH provenance")),
    }
}

/// Adds a notification, within the ceiling on events.
pub fn push_notification(
    limits: &CommandLimits,
    accumulator: &mut Accumulator,
    notification: Notification,
) -> (result: Result<(), Error>)
    ensures
        gathered_by(result, final(accumulator)@) == notified(
            *limits,
            old(accumulator)@,
            notification,
        ),
        result is Err ==> final(accumulator)@ == old(accumulator)@,
{
    if accumulator.notifications.len() >= limits.max_events.get() {
        return Err(invalid_data("command event count exceeds configured limit"));
    }
    accumulator.notifications.push(notification);
    Ok(())
}

/// The attributes of a fetch, sorted by what they are.
struct Sorted {
    uids: Vec<u32>,
    flags: Vec<Vec<String>>,
    sizes: Vec<u32>,
    dates: Vec<String>,
    bodies: Vec<BodySection>,
    unlisted: bool,
}

fn sort_attributes(attributes: Vec<Attribute>) -> (sorted: Sorted)
    ensures
        sorted.uids@ == uids_in(attributes@),
        sorted.flags@ == flags_in(attributes@),
        sorted.sizes@ == sizes_in(attributes@),
        sorted.dates@ == dates_in(attributes@),
        sorted.bodies@ == bodies_in(attributes@),
        sorted.unlisted == has_unlisted(attributes@),
{
    let mut uids: Vec<u32> = Vec::new();
    let mut flags: Vec<Vec<String>> = Vec::new();
    let mut sizes: Vec<u32> = Vec::new();
    let mut dates: Vec<String> = Vec::new();
    let mut bodies: Vec<BodySection> = Vec::new();
    let mut unlisted: bool = false;
    let ghost all = attributes@;
    for attribute in it: attributes
        invariant
            it.seq() == all,
            uids@ == uids_in(all.take(it.index() as int)),
            flags@ == flags_in(all.take(it.index() as int)),
            sizes@ == sizes_in(all.take(it.index() as int)),
            dates@ == dates_in(all.take(it.index() as int)),
            bodies@ == bodies_in(all.take(it.index() as int)),
            unlisted == has_unlisted(all.take(it.index() as int)),
    {
        let ghost n = it.index() as int;
        proof {
            assert(all.take(n + 1).drop_last() =~= all.take(n));
            assert(all.take(n + 1).last() == attribute);
            if has_unlisted(all.take(n)) {
                let i = choose|i: int|
                    0 <= i < n && (#[trigger] all.take(n)[i]) is Unlisted;
                assert(all.take(n + 1)[i] is Unlisted);
            }
            if has_unlisted(all.take(n + 1)) {
                let i = choose|i: int|
                    0 <= i < n + 1 && (#[trigger] all.take(n + 1)[i]) is Unlisted;
                if i < n {
                    assert(all.take(n)[i] is Unlisted);
                }
            }
            assert(all.take(n + 1)[n] == attribute);
        }
        match attribute {
            Attribute::Uid(uid) => uids.push(uid),
            Attribute::Flags(list) => flags.push(list),
            Attribute::Rfc822Size(size) => sizes.push(size),
            Attribute::InternalDate(date) => dates.push(date),
            Attribute::Body(section) => bodies.push(section),
            Attribute::Unlisted => {
                unlisted = true;
            },
        }
    }
    assert(all.take(all.len() as int) =~= all);
    Sorted { uids, flags, sizes, dates, bodies, unlisted }
}

/// Takes the only element of a list.
fn only<A>(list: Vec<A>) -> (item: A)
    requires
        list@.len() == 1,
    ensures
        item == list@[0],
{
    let mut list = list;
    list.remove(0)
}

/// Sorts a fetch of one UID into what the command asked for and what came unasked.
pub fn classify_uidfetch(
    command: &UidOnlyCommand,
    leading_uid: u32,
    attributes: Vec<Attribute>,
    limits: &CommandLimits,
    accumulator: &mut Accumulator,
) -> (result: Result<(), Error>)
    ensures
        gathered_by(result, final(accumulator)@) == uidfetch(
            *command,
            leading_uid,
            attributes@,
            *limits,
            old(accumulator)@,
        ),
        result is Err ==> final(accumulator)@ == old(accumulator)@,
{
    let uid = match NonZeroU32::new(leading_uid) {
        None => {
            return Err(invalid_data("UID 0 is invalid"));
        },
        Some(uid) => uid,
    };
    let sorted = sort_attributes(attributes);
    if sorted.uids.len() > 1 {
        return Err(invalid_data("UIDFETCH contains multiple inner UID items"));
    }
    if sorted.uids.len() == 1 && sorted.uids[0] != leading_uid {
        return Err(invalid_data("leading and inner UID differ"));
    }
    if sorted.sizes.len() == 0 && sorted.dates.len() == 0 && sorted.bodies.len() == 0 {
        if sorted.unlisted {
            return Err(
                invalid_data(
                    "unsolicited UIDFETCH contains an attribute outside the flags allowlist",
                ),
            );
        }
        if sorted.flags.len() != 1 {
            return Err(invalid_data("unclassified unsolicited UIDFETCH response"));
        }
        return push_notification(
            limits,
            accumulator,
            Notification::Flags { uid, flags: only(sorted.flags) },
        );
    }
    if sorted.flags.len() != 0 {
        return Err(
            invalid_data("solicited UIDFETCH mixed requested data with unsolicited flags"),
        );
    }
    if sorted.uids.len() == 0 {
        return Err(invalid_data("solicited UIDFETCH omitted the requested inner UID"));
    }
    match command {
        UidOnlyCommand::Inventory(request) => {
            if sorted.unlisted || sorted.bodies.len() != 0 {
                return Err(invalid_data("inventory result contains an unrequested attribute"));
            }
            if leading_uid < request.start().get() || leading_uid > request.end().get() {
                return Err(invalid_data("inventory UID is outside requested range"));
            }
            if sorted.sizes.len() != 1 || sorted.dates.len() != 1 {
                return Err(
                    invalid_data(
                        "inventory result does not contain exactly UID, RFC822.SIZE, and INTERNALDATE",
                    ),
                );
            }
            accumulator.solicited.push(
                Solicited::Inventory(
                    InventoryItem {
                        uid,
                        rfc822_size: sorted.sizes[0],
                        internal_date: only(sorted.dates),
                    },
                ),
            );
            Ok(())
        },
        UidOnlyCommand::BodyChunk { uid: asked, offset, count } => {
            if sorted.unlisted || sorted.dates.len() != 0 {
                return Err(invalid_data("body result contains an unrequested attribute"));
            }
            if leading_uid != asked.get() {
                return Err(invalid_data("body result does not match the exact requested UID"));
            }
            if sorted.sizes.len() != 1 || sorted.bodies.len() != 1 {
                return Err(
                    invalid_data(
                        "body result does not contain exactly UID, RFC822.SIZE, and one body section",
                    ),
                );
            }
            let size = sorted.sizes[0];
            let section = only(sorted.bodies);
            let at_offset = match section.offset {
                Some(start) => start == *offset,
                None => false,
            };
            if !section.whole_message || !at_offset {
                return Err(
                    invalid_data("body section origin does not match requested full-message chunk"),
                );
            }
            let bytes = match section.data {
                None => {
                    return Err(invalid_data("body response omitted literal data"));
                },
                Some(bytes) => bytes,
            };
            if size < *offset {
                return Err(invalid_data("body response offset exceeds RFC822.SIZE"));
            }
            let remaining: u32 = size - *offset;
            let expected: u32 = if remaining < count.get() {
                remaining
            } else {
                count.get()
            };
            if bytes.len() != expected as usize {
                return Err(
                    invalid_data("body literal length is inconsistent with request and RFC822.SIZE"),
                );
            }
            accumulator.solicited.push(
                Solicited::Body { uid, rfc822_size: size, offset: *offset, bytes },
            );
            Ok(())
        },
        _ => Err(invalid_data("non-fetch command received solicited UIDFETCH data")),
    }
}

/// The view of a [`CommandOutput`].
#[verifier::ext_equal]
pub ghost enum Outcome {
    Examine {
        exists: u32,
        uid_validity: NonZeroU32,
        uid_next: NonZeroU32,
        high: Option<NonZeroU32>,
        notifications: Seq<Notification>,
    },
    Inventory {
        request: InventoryRequest,
        items: Seq<InventoryItem>,
        notifications: Seq<Notification>,
    },
    Chunk {
        uid: NonZeroU32,
        rfc822_size: u32,
        offset: u32,
        bytes: Vec<u8>,
        notifications: Seq<Notification>,
    },
    Missing { uid: NonZeroU32, notifications: Seq<Notification> },
    Vanished { uid: NonZeroU32, notifications: Seq<Notification> },
    Noop(Seq<Notification>),
    Logout,
}

impl View for CommandOutput {
    type V = Outcome;

    open spec fn view(&self) -> Outcome {
        match *self {
            CommandOutput::Examine(snapshot) => Outcome::Examine {
                exists: snapshot.exists,
                uid_validity: snapshot.uid_validity,
                uid_next: snapshot.uid_next,
                high: snapshot.snapshot_high_uid,
                notifications: snapshot.notifications@,
            },
            CommandOutput::Inventory(page) => Outcome::Inventory {
                request: page.request,
                items: page.items@,
                notifications: page.notifications@,
            },
            CommandOutput::Body(ExactFetchOutcome::Chunk(chunk)) => Outcome::Chunk {
                uid: chunk.uid,
                rfc822_size: chunk.rfc822_size,
                offset: chunk.offset,
                bytes: chunk.bytes,
                notifications: chunk.notifications@,
            },
            CommandOutput::Body(ExactFetchOutcome::Missing { uid, notifications }) =>
                Outcome::Missing { uid, notifications: notifications@ },
            CommandOutput::Body(ExactFetchOutcome::Vanished { uid, notifications }) =>
                Outcome::Vanished { uid, notifications: notifications@ },
            CommandOutput::Noop(notifications) => Outcome::Noop(notifications@),
            CommandOutput::Logout => Outcome::Logout,
        }
    }
}

pub open spec fn outcome_of(result: Result<CommandOutput, Error>) -> Result<Outcome, Error> {
    match result {
        Ok(output) => Ok(output@),
        Err(e) => Err(e),
    }
}

/// The items of an inventory, where nothing else was gathered.
pub open spec fn items_in(solicited: Seq<Solicited>) -> Seq<InventoryItem> {
    Seq::new(solicited.len(), |i: int| solicited[i]->Inventory_0)
}

pub open spec fn all_items(solicited: Seq<Solicited>) -> bool {
    forall|i: int| 0 <= i < solicited.len() ==> (#[trigger] solicited[i]) is Inventory
}

/// One of the items is reported as vanished.
pub open spec fn item_vanished(
    items: Seq<InventoryItem>,
    notifications: Seq<Notification>,
) -> bool {
    exists|i: int|
        0 <= i < items.len() && mailbox::vanished(notifications, (#[trigger] items[i]).uid@)
}

/// The highest UID below UIDNEXT.
pub open spec fn high_uid(uid_next: NonZeroU32) -> Option<NonZeroU32> {
    if uid_next@ == 1 {
        None
    } else {
        Some(NonZeroU32::of((uid_next@ - 1) as u32))
    }
}

/// What `EXAMINE` gathered, as a snapshot.
pub open spec fn examined(gathered: Gathered) -> Result<Outcome, Error> {
    if gathered.solicited.len() > 0 {
        Err(error::data_error("EXAMINE returned solicited UID data"))
    } else if gathered.exists is None {
        Err(error::data_error("EXAMINE omitted EXISTS"))
    } else if gathered.uid_validity is None {
        Err(error::data_error("EXAMINE omitted UIDVALIDITY"))
    } else if gathered.uid_next is None {
        Err(error::data_error("EXAMINE omitted UIDNEXT"))
    } else if !gathered.read_only {
        Err(error::data_error("EXAMINE did not confirm read-only mode"))
    } else if gathered.exists->0 > gathered.uid_next->0@ - 1 {
        Err(error::data_error("EXAMINE EXISTS is inconsistent with UIDNEXT"))
    } else {
        Ok(
            Outcome::Examine {
                exists: gathered.exists->0,
                uid_validity: gathered.uid_validity->0,
                uid_next: gathered.uid_next->0,
                high: high_uid(gathered.uid_next->0),
                notifications: gathered.notifications,
            },
        )
    }
}

/// What an inventory gathered, as a page.
pub open spec fn inventoried(request: InventoryRequest, gathered: Gathered) -> Result<
    Outcome,
    Error,
> {
    let items = items_in(gathered.solicited);
    if !all_items(gathered.solicited) {
        Err(error::data_error("inventory returned body data"))
    } else if items.len() > request.size()@ {
        Err(error::data_error("inventory returned more results than requested"))
    } else if !mailbox::increasing(items) {
        Err(error::data_error("inventory results are duplicated or out of order"))
    } else if item_vanished(items, gathered.notifications) {
        Err(error::data_error("inventory item and VANISHED notification overlap"))
    } else {
        Ok(Outcome::Inventory { request, items, notifications: gathered.notifications })
    }
}

/// What a body command gathered: octets, a vanished message, or nothing.
pub open spec fn body_fetched(uid: NonZeroU32, gathered: Gathered) -> Result<Outcome, Error> {
    let notifications = gathered.notifications;
    let gone = mailbox::vanished(notifications, uid@);
    if gathered.solicited.len() > 1 {
        Err(error::data_error("body command returned more than one solicited result"))
    } else if gathered.solicited.len() == 0 {
        if gone {
            Ok(Outcome::Vanished { uid, notifications })
        } else {
            Ok(Outcome::Missing { uid, notifications })
        }
    } else {
        match gathered.solicited[0] {
            Solicited::Inventory(_) => Err(
                error::data_error("body command returned inventory metadata"),
            ),
            Solicited::Body { uid: found, rfc822_size, offset, bytes } => if gone {
                Err(error::data_error("body result and target VANISHED were both reported"))
            } else {
                Ok(Outcome::Chunk { uid: found, rfc822_size, offset, bytes, notifications })
            },
        }
    }
}

/// The result of a command that completed with what was gathered.
pub open spec fn finalized(command: UidOnlyCommand, gathered: Gathered) -> Result<Outcome, Error> {
    match command {
        UidOnlyCommand::Examine { .. } => examined(gathered),
        UidOnlyCommand::Inventory(request) => inventoried(request, gathered),
        UidOnlyCommand::BodyChunk { uid, .. } => body_fetched(uid, gathered),
        UidOnlyCommand::Noop => if gathered.solicited.len() > 0 {
            Err(error::data_error("NOOP returned solicited UID data"))
        } else {
            Ok(Outcome::Noop(gathered.notifications))
        },
        UidOnlyCommand::Logout => if gathered.solicited.len() > 0 || !gathered.saw_bye {
            Err(error::data_error("LOGOUT omitted BYE or returned UID data"))
        } else {
            Ok(Outcome::Logout)
        },
    }
}

fn has_item_vanished(items: &[InventoryItem], notifications: &[Notification]) -> (result: bool)
    ensures
        result == item_vanished(items@, notifications@),
{
    let mut i: usize = 0;
    while i < items.len()
        invariant
            i <= items@.len(),
            forall|j: int|
                0 <= j < i ==> !mailbox::vanished(notifications@, (#[trigger] items@[j]).uid@),
        decreases items.len() - i,
    {
        if has_vanished(notifications, items[i].uid.get()) {
            assert(mailbox::vanished(notifications@, items@[i as int].uid@));
            return true;
        }
        i = i + 1;
    }
    false
}

/// The items among what was solicited, or `None` where something else is among it.
fn take_items(solicited: Vec<Solicited>) -> (result: Option<Vec<InventoryItem>>)
    ensures
        result is Some <==> all_items(solicited@),
        result matches Some(items) ==> items@ == items_in(solicited@),
{
    let mut items: Vec<InventoryItem> = Vec::new();
    let ghost all = solicited@;
    for data in it: solicited
        invariant
            it.seq() == all,
            items@ == items_in(all.take(it.index() as int)),
            all_items(all.take(it.index() as int)),
    {
        let ghost n = it.index() as int;
        assert(all.take(n + 1)[n] == data);
        match data {
            Solicited::Inventory(item) => {
                items.push(item);
                assert(items@ =~= items_in(all.take(n + 1)));
                assert forall|i: int| 0 <= i < n + 1 implies (#[trigger] all.take(
                    n + 1,
                )[i]) is Inventory by {
                    if i < n {
                        assert(all.take(n)[i] is Inventory);
                    }
                }
            },
            Solicited::Body { .. } => {
                assert(!(all[n] is Inventory));
                return None;
            },
        }
    }
    assert(all.take(all.len() as int) =~= all);
    Some(items)
}

/// The result of a command that completed.
pub fn finalize_command(command: &UidOnlyCommand, accumulator: Accumulator) -> (result: Result<
    CommandOutput,
    Error,
>)
    ensures
        outcome_of(result) == finalized(*command, accumulator@),
{
    match command {
        UidOnlyCommand::Examine { .. } => {
            if accumulator.solicited.len() != 0 {
                return Err(invalid_data("EXAMINE returned solicited UID data"));
            }
            let exists = match accumulator.exists {
                None => {
                    return Err(invalid_data("EXAMINE omitted EXISTS"));
                },
                Some(exists) => exists,
            };
            let uid_validity = match accumulator.uid_validity {
                None => {
                    return Err(invalid_data("EXAMINE omitted UIDVALIDITY"));
                },
                Some(uid_validity) => uid_validity,
            };
            let uid_next = match accumulator.uid_next {
                None => {
                    return Err(invalid_data("EXAMINE omitted UIDNEXT"));
                },
                Some(uid_next) => uid_next,
            };
            if !accumulator.read_only {
                return Err(invalid_data("EXAMINE did not confirm read-only mode"));
            }
            let below_next: u32 = uid_next.get() - 1;
            let snapshot_high_uid = NonZeroU32::new(below_next);
            if exists > below_next {
                return Err(invalid_data("EXAMINE EXISTS is inconsistent with UIDNEXT"));
            }
            Ok(
                CommandOutput::Examine(
                    MailboxSnapshot {
                        exists,
                        uid_validity,
                        uid_next,
                        snapshot_high_uid,
                        notifications: accumulator.notifications,
                    },
                ),
            )
        },
        UidOnlyCommand::Inventory(request) => {
            let items = match take_items(accumulator.solicited) {
                None => {
                    return Err(invalid_data("inventory returned body data"));
                },
                Some(items) => items,
            };
            if items.len() > request.page_size().get() as usize {
                return Err(invalid_data("inventory returned more results than requested"));
            }
            if !is_increasing(items.as_slice()) {
                return Err(invalid_data("inventory results are duplicated or out of order"));
            }
            if has_item_vanished(items.as_slice(), accumulator.notifications.as_slice()) {
                return Err(invalid_data("inventory item and VANISHED notification overlap"));
            }
            Ok(
                CommandOutput::Inventory(
                    InventoryPage {
                        request: *request,
                        items,
                        notifications: accumulator.notifications,
                    },
                ),
            )
        },
        UidOnlyCommand::BodyChunk { uid, .. } => {
            if accumulator.solicited.len() > 1 {
                return Err(invalid_data("body command returned more than one solicited result"));
            }
            let gone = has_vanished(accumulator.notifications.as_slice(), uid.get());
            if accumulator.solicited.len() == 0 {
                let notifications = accumulator.notifications;
                return if gone {
                    Ok(
                        CommandOutput::Body(
                            ExactFetchOutcome::Vanished { uid: *uid, notifications },
                        ),
                    )
                } else {
                    Ok(CommandOutput::Body(ExactFetchOutcome::Missing { uid: *uid, notifications }))
                };
            }
            match only(accumulator.solicited) {
                Solicited::Inventory(_) => Err(
                    invalid_data("body command returned inventory metadata"),
                ),
                Solicited::Body { uid, rfc822_size, offset, bytes } => {
                    if gone {
                        return Err(
                            invalid_data("body result and target VANISHED were both reported"),
                        );
                    }
                    Ok(
                        CommandOutput::Body(
                            ExactFetchOutcome::Chunk(
                                BodyChunk {
                                    uid,
                                    rfc822_size,
                                    offset,
                                    bytes,
                                    notifications: accumulator.notifications,
                                },
                            ),
                        ),
                    )
                },
            }
        },
        UidOnlyCommand::Noop => {
            if accumulator.solicited.len() != 0 {
                return Err(invalid_data("NOOP returned solicited UID data"));
            }
            Ok(CommandOutput::Noop(accumulator.notifications))
        },
        UidOnlyCommand::Logout => {
            if accumulator.solicited.len() != 0 || !accumulator.saw_bye {
                return Err(invalid_data("LOGOUT omitted BYE or returned UID data"));
            }
            Ok(CommandOutput::Logout)
        },
    }
}

/// What one response does to what was gathered: more of it, or the result.
#[verifier::ext_equal]
pub ghost enum Turn {
    Pending(Gathered),
    Complete(Outcome),
}

pub open spec fn pending(result: Result<Gathered, Error>) -> Result<Turn, Error> {
    match result {
        Ok(gathered) => Ok(Turn::Pending(gathered)),
        Err(e) => Err(e),
    }
}

pub open spec fn complete(result: Result<Outcome, Error>) -> Result<Turn, Error> {
    match result {
        Ok(outcome) => Ok(Turn::Complete(outcome)),
        Err(e) => Err(e),
    }
}

/// The completion of the command under its tag.
pub open spec fn on_done(
    command: UidOnlyCommand,
    awaited: Seq<char>,
    tag: Seq<char>,
    status: Status,
    code: Option<ResponseCode>,
    gathered: Gathered,
) -> Result<Turn, Error> {
    if tag != awaited {
        Err(error::data_error("unexpected tagged response"))
    } else if status is No {
        Err(error::data_error("UIDONLY command completed with tagged NO"))
    } else if status is Bad {
        Err(error::data_error("UIDONLY command completed with tagged BAD"))
    } else if !(status is Success) {
        Err(error::data_error("UIDONLY command completed with unexpected tagged status"))
    } else if code is None {
        complete(finalized(command, gathered))
    } else if code == Some(ResponseCode::ReadOnly) && command is Examine {
        complete(finalized(command, Gathered { read_only: true, ..gathered }))
    } else {
        Err(
            error::data_error("tagged response code is not allowlisted for this command"),
        )
    }
}

/// A mailbox response.
pub open spec fn on_mailbox(
    command: UidOnlyCommand,
    datum: MailboxDatum,
    limits: CommandLimits,
    gathered: Gathered,
) -> Result<Gathered, Error> {
    match datum {
        MailboxDatum::Exists(count) => if !(command is Examine) {
            notified(limits, gathered, Notification::Exists(count))
        } else if gathered.exists is Some {
            Err(error::data_error("EXAMINE returned more than one EXISTS response"))
        } else {
            Ok(Gathered { exists: Some(count), ..gathered })
        },
        MailboxDatum::Recent(count) => notified(limits, gathered, Notification::Recent(count)),
        MailboxDatum::Flags => Ok(gathered),
        MailboxDatum::Unlisted => Err(
            error::data_error("mailbox response is not allowlisted in UIDONLY mode"),
        ),
    }
}

/// An untagged `OK` with its code.
pub open spec fn on_untagged_ok(
    command: UidOnlyCommand,
    code: Option<ResponseCode>,
    limits: CommandLimits,
    gathered: Gathered,
) -> Result<Gathered, Error> {
    match code {
        Some(ResponseCode::UidValidity(value)) => if !(command is Examine) {
            Err(error::data_error("UIDVALIDITY is only valid during EXAMINE"))
        } else if value == 0 {
            Err(error::data_error("UIDVALIDITY 0 is invalid"))
        } else if gathered.uid_validity is Some {
            Err(error::data_error("EXAMINE returned more than one UIDVALIDITY"))
        } else {
            Ok(Gathered { uid_validity: Some(NonZeroU32::of(value)), ..gathered })
        },
        Some(ResponseCode::UidNext(value)) => if !(command is Examine) {
            Err(error::data_error("UIDNEXT is only valid during EXAMINE"))
        } else if value == 0 {
            Err(error::data_error("UIDNEXT 0 is invalid"))
        } else if gathered.uid_next is Some {
            Err(error::data_error("EXAMINE returned more than one UIDNEXT"))
        } else {
            Ok(Gathered { uid_next: Some(NonZeroU32::of(value)), ..gathered })
        },
        Some(ResponseCode::ReadOnly) => if command is Examine {
            Ok(Gathered { read_only: true, ..gathered })
        } else {
            Err(error::data_error("response code is not allowlisted in UIDONLY mode"))
        },
        Some(ResponseCode::Unlisted) => Err(
            error::data_error("response code is not allowlisted in UIDONLY mode"),
        ),
        _ => notified(limits, gathered, Notification::Status),
    }
}

/// UIDs that vanished.
pub open spec fn on_vanished(
    earlier: bool,
    uids: Vec<RangeInclusive<u32>>,
    limits: CommandLimits,
    gathered: Gathered,
) -> Result<Gathered, Error> {
    let ranges = gathered.vanished_ranges + uids@.len();
    if ranges > usize::MAX {
        Err(error::data_error("VANISHED range count overflow"))
    } else if ranges > limits.max_vanished_ranges@ {
        Err(error::data_error("VANISHED range count exceeds configured limit"))
    } else {
        notified(
            limits,
            Gathered { vanished_ranges: ranges, ..gathered },
            Notification::Vanished { earlier, uids },
        )
    }
}

/// One response with the record of how it came off the wire.
pub open spec fn dispatched(
    command: UidOnlyCommand,
    awaited: Seq<char>,
    limits: CommandLimits,
    record: Provenance,
    response: Response,
    gathered: Gathered,
) -> Result<Turn, Error> {
    let changed = Err(error::data_error("non-FETCH response has UIDFETCH provenance"));
    match response {
        Response::Fetch { leading_uid, attributes } => match record {
            Provenance::Unchanged { .. } => Err(
                error::data_error("parsed FETCH did not originate as UIDFETCH"),
            ),
            Provenance::TranslatedUidFetch { leading_uid: wire_uid, .. } => if wire_uid
                != leading_uid {
                Err(error::data_error("parsed and wire leading UIDs differ"))
            } else {
                pending(uidfetch(command, leading_uid, attributes@, limits, gathered))
            },
        },
        Response::Done { tag, status, code } => if !(record is Unchanged) {
            changed
        } else {
            on_done(command, awaited, tag@, status, code, gathered)
        },
        Response::Mailbox(datum) => if !(record is Unchanged) {
            changed
        } else {
            pending(on_mailbox(command, datum, limits, gathered))
        },
        Response::Data { status, code } => if status is Success {
            if !(record is Unchanged) {
                changed
            } else {
                pending(on_untagged_ok(command, code, limits, gathered))
            }
        } else if status is Bye && command is Logout {
            if !(record is Unchanged) {
                changed
            } else {
                Ok(Turn::Pending(Gathered { saw_bye: true, ..gathered }))
            }
        } else {
            Err(error::data_error("unexpected untagged status response"))
        },
        Response::Vanished { earlier, uids } => if !(record is Unchanged) {
            changed
        } else {
            pending(on_vanished(earlier, uids, limits, gathered))
        },
        Response::Expunge => Err(
            error::data_error("sequence EXPUNGE is forbidden in UIDONLY mode"),
        ),
        _ => Err(error::data_error("response is not allowlisted for UIDONLY commands")),
    }
}

fn is_examine(command: &UidOnlyCommand) -> (result: bool)
    ensures
        result == (*command is Examine),
{
    match command {
        UidOnlyCommand::Examine { .. } => true,
        _ => false,
    }
}

/// Completes a command under its tag.
pub fn complete_command(
    command: &UidOnlyCommand,
    awaited: &String,
    tag: &String,
    status: Status,
    code: Option<ResponseCode>,
    accumulator: Accumulator,
) -> (result: Result<CommandOutput, Error>)
    ensures
        complete(outcome_of(result)) == on_done(
            *command,
            awaited@,
            tag@,
            status,
            code,
            accumulator@,
        ),
{
    if *tag != *awaited {
        return Err(invalid_data("unexpected tagged response"));
    }
    match status {
        Status::Success => {},
        Status::No => {
            return Err(invalid_data("UIDONLY command completed with tagged NO"));
        },
        Status::Bad => {
            return Err(invalid_data("UIDONLY command completed with tagged BAD"));
        },
        _ => {
            return Err(
                invalid_data("UIDONLY command completed with unexpected tagged status"),
            );
        },
    }
    let mut accumulator = accumulator;
    match code {
        None => {},
        Some(ResponseCode::ReadOnly) if is_examine(command) => {
            accumulator.read_only = true;
        },
        Some(_) => {
            return Err(
                invalid_data("tagged response code is not allowlisted for this command"),
            );
        },
    }
    finalize_command(command, accumulator)
}

/// Takes in a mailbox response.
pub fn note_mailbox(
    command: &UidOnlyCommand,
    datum: MailboxDatum,
    limits: &CommandLimits,
    accumulator: &mut Accumulator,
) -> (result: Result<(), Error>)
    ensures
        gathered_by(result, final(accumulator)@) == on_mailbox(
            *command,
            datum,
            *limits,
            old(accumulator)@,
        ),
        result is Err ==> final(accumulator)@ == old(accumulator)@,
{
    match datum {
        MailboxDatum::Exists(count) => {
            if !is_examine(command) {
                return push_notification(limits, accumulator, Notification::Exists(count));
            }
            if accumulator.exists.is_some() {
                return Err(invalid_data("EXAMINE returned more than one EXISTS response"));
            }
            accumulator.exists = Some(count);
            Ok(())
        },
        MailboxDatum::Recent(count) => push_notification(
            limits,
            accumulator,
            Notification::Recent(count),
        ),
        MailboxDatum::Flags => Ok(()),
        MailboxDatum::Unlisted => Err(
            invalid_data("mailbox response is not allowlisted in UIDONLY mode"),
        ),
    }
}

/// Takes in an untagged `OK`.
pub fn note_untagged_ok(
    command: &UidOnlyCommand,
    code: Option<ResponseCode>,
    limits: &CommandLimits,
    accumulator: &mut Accumulator,
) -> (result: Result<(), Error>)
    ensures
        gathered_by(result, final(accumulator)@) == on_untagged_ok(
            *command,
            code,
            *limits,
            old(accumulator)@,
        ),
        result is Err ==> final(accumulator)@ == old(accumulator)@,
{
    match code {
        Some(ResponseCode::UidValidity(value)) => {
            if !is_examine(command) {
                return Err(invalid_data("UIDVALIDITY is only valid during EXAMINE"));
            }
            match NonZeroU32::new(value) {
                None => Err(invalid_data("UIDVALIDITY 0 is invalid")),
                Some(value) => {
                    if accumulator.uid_validity.is_some() {
                        return Err(invalid_data("EXAMINE returned more than one UIDVALIDITY"));
                    }
                    accumulator.uid_validity = Some(value);
                    Ok(())
                },
            }
        },
        Some(ResponseCode::UidNext(value)) => {
            if !is_examine(command) {
                return Err(invalid_data("UIDNEXT is only valid during EXAMINE"));
            }
            match NonZeroU32::new(value) {
                None => Err(invalid_data("UIDNEXT 0 is invalid")),
                Some(value) => {
                    if accumulator.uid_next.is_some() {
                        return Err(invalid_data("EXAMINE returned more than one UIDNEXT"));
                    }
                    accumulator.uid_next = Some(value);
                    Ok(())
                },
            }
        },
        Some(ResponseCode::ReadOnly) => {
            if !is_examine(command) {
                return Err(invalid_data("response code is not allowlisted in UIDONLY mode"));
            }
            accumulator.read_only = true;
            Ok(())
        },
        Some(ResponseCode::Unlisted) => Err(
            invalid_data("response code is not allowlisted in UIDONLY mode"),
        ),
        _ => push_notification(limits, accumulator, Notification::Status),
    }
}

/// Takes in UIDs that vanished.
pub fn note_vanished(
    earlier: bool,
    uids: Vec<RangeInclusive<u32>>,
    limits: &CommandLimits,
    accumulator: &mut Accumulator,
) -> (result: Result<(), Error>)
    ensures
        gathered_by(result, final(accumulator)@) == on_vanished(
            earlier,
            uids,
            *limits,
            old(accumulator)@,
        ),
        result is Err ==> final(accumulator)@ == (Gathered {
            vanished_ranges: if old(accumulator)@.vanished_ranges + uids@.len() > usize::MAX {
                old(accumulator)@.vanished_ranges
            } else {
                old(accumulator)@.vanished_ranges + uids@.len()
            },
            ..old(accumulator)@
        }),
{
    match accumulator.vanished_ranges.checked_add(uids.len()) {
        None => {
            return Err(invalid_data("VANISHED range count overflow"));
        },
        Some(total) => {
            accumulator.vanished_ranges = total;
        },
    }
    if accumulator.vanished_ranges > limits.max_vanished_ranges.get() {
        return Err(invalid_data("VANISHED range count exceeds configured limit"));
    }
    push_notification(limits, accumulator, Notification::Vanished { earlier, uids })
}

/// Takes in the server's farewell.
pub fn note_bye(accumulator: &mut Accumulator)
    ensures
        final(accumulator)@ == (Gathered { saw_bye: true, ..old(accumulator)@ }),
{
    accumulator.saw_bye = true;
}

} // verus!
