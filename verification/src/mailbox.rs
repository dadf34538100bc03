//! What commands report of a mailbox.

use crate::command::InventoryRequest;
use crate::nonzero::NonZeroU32;
use core::ops::RangeInclusive;
use vstd::prelude::*;

verus! {

/// The boundary of a mailbox examined read-only, within one UIDVALIDITY epoch.
#[derive(Clone, Debug, PartialEq, Eq)]
pub struct MailboxSnapshot {
    pub exists: u32,
    pub uid_validity: NonZeroU32,
    pub uid_next: NonZeroU32,
    pub snapshot_high_uid: Option<NonZeroU32>,
    pub notifications: Vec<Notification>,
}

/// The metadata of one message of an inventory page.
#[derive(Debug, PartialEq, Eq)]
pub struct InventoryItem {
    pub uid: NonZeroU32,
    pub rfc822_size: u32,
    pub internal_date: String,
}

/// A state change that the server reported unasked.
#[derive(Debug, PartialEq, Eq)]
pub enum Notification {
    Exists(u32),
    Recent(u32),
    Flags { uid: NonZeroU32, flags: Vec<String> },
    Status,
    Vanished { earlier: bool, uids: Vec<RangeInclusive<u32>> },
}

/// Two records say the same of the same message.
pub open spec fn same_item(a: InventoryItem, b: InventoryItem) -> bool {
    a.uid == b.uid && a.rfc822_size == b.rfc822_size && a.internal_date@ == b.internal_date@
}

/// Two lists of records say the same.
pub open spec fn same_items(a: Seq<InventoryItem>, b: Seq<InventoryItem>) -> bool {
    a.len() == b.len() && forall|i: int|
        0 <= i < a.len() ==> same_item(a[i], #[trigger] b[i])
}

/// Two lists of flags are the same.
pub open spec fn same_flags(a: Seq<String>, b: Seq<String>) -> bool {
    a.len() == b.len() && forall|i: int| 0 <= i < a.len() ==> a[i]@ == (#[trigger] b[i])@
}

/// Two lists of ranges are the same.
pub open spec fn same_ranges(
    a: Seq<RangeInclusive<u32>>,
    b: Seq<RangeInclusive<u32>>,
) -> bool {
    a.len() == b.len() && forall|i: int| 0 <= i < a.len() ==> a[i]@ == (#[trigger] b[i])@
}

/// Two notifications report the same.
pub open spec fn same_event(a: Notification, b: Notification) -> bool {
    match (a, b) {
        (Notification::Exists(m), Notification::Exists(n)) => m == n,
        (Notification::Recent(m), Notification::Recent(n)) => m == n,
        (
            Notification::Flags { uid: m, flags: f },
            Notification::Flags { uid: n, flags: g },
        ) => m == n && same_flags(f@, g@),
        (Notification::Status, Notification::Status) => true,
        (
            Notification::Vanished { earlier: d, uids: u },
            Notification::Vanished { earlier: e, uids: v },
        ) => d == e && same_ranges(u@, v@),
        _ => false,
    }
}

/// Two lists of notifications report the same.
pub open spec fn same_events(a: Seq<Notification>, b: Seq<Notification>) -> bool {
    a.len() == b.len() && forall|i: int|
        0 <= i < a.len() ==> same_event(a[i], #[trigger] b[i])
}

impl Clone for InventoryItem {
    fn clone(&self) -> (copy: Self)
        ensures
            same_item(*self, copy),
    {
        InventoryItem {
            uid: self.uid,
            rfc822_size: self.rfc822_size,
            internal_date: self.internal_date.as_str().to_owned(),
        }
    }
}

/// `Clone::clone` of `core::ops::RangeInclusive`: the copy has the same bounds and stands
/// at the same point.
#[verifier::external_body]
fn copy_range(range: &RangeInclusive<u32>) -> (copy: RangeInclusive<u32>)
    ensures
        copy@ == range@,
{
    range.clone()
}

fn copy_ranges(ranges: &[RangeInclusive<u32>]) -> (copy: Vec<RangeInclusive<u32>>)
    ensures
        same_ranges(ranges@, copy@),
{
    let mut copy: Vec<RangeInclusive<u32>> = Vec::new();
    let mut i: usize = 0;
    while i < ranges.len()
        invariant
            i <= ranges@.len(),
            copy@.len() == i,
            forall|j: int| 0 <= j < i ==> ranges@[j]@ == (#[trigger] copy@[j])@,
        decreases ranges.len() - i,
    {
        copy.push(copy_range(&ranges[i]));
        i = i + 1;
    }
    copy
}

fn copy_flags(flags: &[String]) -> (copy: Vec<String>)
    ensures
        same_flags(flags@, copy@),
{
    let mut copy: Vec<String> = Vec::new();
    let mut i: usize = 0;
    while i < flags.len()
        invariant
            i <= flags@.len(),
            copy@.len() == i,
            forall|j: int| 0 <= j < i ==> flags@[j]@ == (#[trigger] copy@[j])@,
        decreases flags.len() - i,
    {
        copy.push(flags[i].as_str().to_owned());
        i = i + 1;
    }
    copy
}

impl Clone for Notification {
    fn clone(&self) -> (copy: Self)
        ensures
            same_event(*self, copy),
    {
        match self {
            Notification::Exists(count) => Notification::Exists(*count),
            Notification::Recent(count) => Notification::Recent(*count),
            Notification::Flags { uid, flags } => Notification::Flags {
                uid: *uid,
                flags: copy_flags(flags.as_slice()),
            },
            Notification::Status => Notification::Status,
            Notification::Vanished { earlier, uids } => Notification::Vanished {
                earlier: *earlier,
                uids: copy_ranges(uids.as_slice()),
            },
        }
    }
}

/// Copies records.
pub fn copy_items(items: &[InventoryItem]) -> (copy: Vec<InventoryItem>)
    ensures
        same_items(items@, copy@),
{
    let mut copy: Vec<InventoryItem> = Vec::new();
    let mut i: usize = 0;
    while i < items.len()
        invariant
            i <= items@.len(),
            copy@.len() == i,
            forall|j: int| 0 <= j < i ==> same_item(items@[j], #[trigger] copy@[j]),
        decreases items.len() - i,
    {
        copy.push(items[i].clone());
        i = i + 1;
    }
    copy
}

/// Copies notifications.
pub fn copy_notifications(notifications: &[Notification]) -> (copy: Vec<Notification>)
    ensures
        same_events(notifications@, copy@),
{
    let mut copy: Vec<Notification> = Vec::new();
    let mut i: usize = 0;
    while i < notifications.len()
        invariant
            i <= notifications@.len(),
            copy@.len() == i,
            forall|j: int| 0 <= j < i ==> same_event(notifications@[j], #[trigger] copy@[j]),
        decreases notifications.len() - i,
    {
        copy.push(notifications[i].clone());
        i = i + 1;
    }
    copy
}

/// A complete page of an inventory.
#[derive(Clone, Debug, PartialEq, Eq)]
pub struct InventoryPage {
    pub request: InventoryRequest,
    pub items: Vec<InventoryItem>,
    pub notifications: Vec<Notification>,
}

/// Some octets of one message.
#[derive(Clone, Debug, PartialEq, Eq)]
pub struct BodyChunk {
    pub uid: NonZeroU32,
    pub rfc822_size: u32,
    pub offset: u32,
    pub bytes: Vec<u8>,
    pub notifications: Vec<Notification>,
}

/// What the server said of one exact UID.
#[derive(Clone, Debug, PartialEq, Eq)]
pub enum ExactFetchOutcome {
    Chunk(BodyChunk),
    Missing { uid: NonZeroU32, notifications: Vec<Notification> },
    Vanished { uid: NonZeroU32, notifications: Vec<Notification> },
}

/// UIDs that grow from each item to the next.
pub open spec fn increasing(items: Seq<InventoryItem>) -> bool {
    forall|i: int, j: int|
        0 <= i < j < items.len() ==> (#[trigger] items[i]).uid@ < (#[trigger] items[j]).uid@
}

/// UIDs that all lie in `first..=last`.
pub open spec fn within(items: Seq<InventoryItem>, first: u32, last: u32) -> bool {
    forall|i: int| 0 <= i < items.len() ==> first <= (#[trigger] items[i]).uid@ <= last
}

/// A UID that lies in a range.
pub open spec fn range_holds(range: RangeInclusive<u32>, uid: u32) -> bool {
    range@.start <= uid && if range@.exhausted {
        uid < range@.end
    } else {
        uid <= range@.end
    }
}

/// A UID that lies in one of some ranges.
pub open spec fn ranges_hold(ranges: Seq<RangeInclusive<u32>>, uid: u32) -> bool {
    exists|i: int| 0 <= i < ranges.len() && range_holds(#[trigger] ranges[i], uid)
}

/// A notification that reports the UID as vanished.
pub open spec fn reports_vanished(notification: Notification, uid: u32) -> bool {
    match notification {
        Notification::Vanished { uids, .. } => ranges_hold(uids@, uid),
        _ => false,
    }
}

/// Some notification reports the UID as vanished.
pub open spec fn vanished(notifications: Seq<Notification>, uid: u32) -> bool {
    exists|i: int|
        0 <= i < notifications.len() && reports_vanished(#[trigger] notifications[i], uid)
}

pub fn is_increasing(items: &[InventoryItem]) -> (result: bool)
    ensures
        result == increasing(items@),
{
    let mut i: usize = 1;
    while i < items.len()
        invariant
            1 <= i,
            items@.len() > 0 ==> i <= items@.len(),
            forall|a: int, b: int|
                0 <= a < b < i && b < items@.len() ==> (#[trigger] items@[a]).uid@ < (
                #[trigger] items@[b]).uid@,
        decreases items.len() - i,
    {
        if items[i - 1].uid.get() >= items[i].uid.get() {
            assert(!increasing(items@)) by {
                assert(items@[i - 1].uid@ >= items@[i as int].uid@);
            }
            return false;
        }
        assert(items@[i - 1].uid@ < items@[i as int].uid@);
        i = i + 1;
    }
    true
}

pub fn is_within(items: &[InventoryItem], first: u32, last: u32) -> (result: bool)
    ensures
        result == within(items@, first, last),
{
    let mut i: usize = 0;
    while i < items.len()
        invariant
            i <= items@.len(),
            forall|a: int| 0 <= a < i ==> first <= (#[trigger] items@[a]).uid@ <= last,
        decreases items.len() - i,
    {
        let uid = items[i].uid.get();
        if uid < first || uid > last {
            assert(!within(items@, first, last)) by {
                assert(!(first <= items@[i as int].uid@ <= last));
            }
            return false;
        }
        i = i + 1;
    }
    true
}

fn do_ranges_hold(ranges: &[RangeInclusive<u32>], uid: u32) -> (result: bool)
    ensures
        result == ranges_hold(ranges@, uid),
{
    let mut i: usize = 0;
    while i < ranges.len()
        invariant
            i <= ranges@.len(),
            forall|j: int| 0 <= j < i ==> !range_holds(#[trigger] ranges@[j], uid),
        decreases ranges.len() - i,
    {
        if ranges[i].contains(&uid) {
            assert(range_holds(ranges@[i as int], uid));
            return true;
        }
        i = i + 1;
    }
    false
}

pub fn does_report_vanished(notification: &Notification, uid: u32) -> (result: bool)
    ensures
        result == reports_vanished(*notification, uid),
{
    match notification {
        Notification::Vanished { uids, .. } => do_ranges_hold(uids.as_slice(), uid),
        _ => false,
    }
}

pub fn has_vanished(notifications: &[Notification], uid: u32) -> (result: bool)
    ensures
        result == vanished(notifications@, uid),
{
    let mut i: usize = 0;
    while i < notifications.len()
        invariant
            i <= notifications@.len(),
            forall|j: int|
                0 <= j < i ==> !reports_vanished(#[trigger] notifications@[j], uid),
        decreases notifications.len() - i,
    {
        if does_report_vanished(&notifications[i], uid) {
            return true;
        }
        i = i + 1;
    }
    false
}

} // verus!
