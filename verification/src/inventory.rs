//! The two-phase plan of a sparse UID inventory.

use crate::command::InventoryRequest;
use crate::error;
use crate::error::{invalid_data, invalid_input, Error};
use crate::mailbox;
use crate::mailbox::{
    copy_items, copy_notifications, is_increasing, is_within, InventoryItem, InventoryPage,
    Notification,
};
use crate::nonzero::NonZeroU32;
use vstd::prelude::*;

verus! {

/// How far a plan has come: what is left lies in `cursor..=high`.
pub ghost struct Plan {
    pub high: Option<NonZeroU32>,
    pub cursor: Option<NonZeroU32>,
    pub page_size: NonZeroU32,
    pub complete: bool,
}

/// An unfinished plan has a range of UIDs left.
pub open spec fn coherent(plan: Plan) -> bool {
    plan.complete || (plan.high is Some && plan.cursor is Some && plan.cursor->0@ <= plan.high->0@)
}

/// The request that the plan waits for.
pub open spec fn outstanding(plan: Plan, request: InventoryRequest) -> bool {
    &&& !plan.complete
    &&& plan.cursor == Some(request.first())
    &&& plan.high == Some(request.last())
    &&& plan.page_size == request.size()
}

/// Items that answer a request of this plan.
pub open spec fn answers(plan: Plan, items: Seq<InventoryItem>) -> bool {
    &&& !plan.complete
    &&& mailbox::increasing(items)
    &&& mailbox::within(items, plan.cursor->0@, plan.high->0@)
    &&& items.len() <= plan.page_size@
}

/// An empty page, or one that reaches the end of the range, completes a plan.
pub open spec fn completes(items: Seq<InventoryItem>, end: u32) -> bool {
    items.len() == 0 || items.last().uid@ == end
}

/// The plan before and after a page was committed.
pub open spec fn advances(before: Plan, items: Seq<InventoryItem>, after: Plan) -> bool {
    &&& after.high == before.high
    &&& after.page_size == before.page_size
    &&& after.complete == completes(items, before.high->0@)
    &&& if after.complete {
        after.cursor is None
    } else {
        after.cursor is Some && after.cursor->0@ == items.last().uid@ + 1
    }
}

/// A page that answered its request and must be persisted before it is committed.
#[derive(Debug, PartialEq, Eq)]
pub struct ValidatedInventoryPage {
    request: InventoryRequest,
    items: Vec<InventoryItem>,
    notifications: Vec<Notification>,
    complete_after_commit: bool,
    next_cursor: Option<NonZeroU32>,
}

impl ValidatedInventoryPage {
    #[verifier::type_invariant]
    spec fn valid(self) -> bool {
        &&& mailbox::increasing(self.items@)
        &&& mailbox::within(self.items@, self.request.first()@, self.request.last()@)
        &&& self.items@.len() <= self.request.size()@
        &&& self.complete_after_commit == completes(self.items@, self.request.last()@)
        &&& if self.complete_after_commit {
            self.next_cursor is None
        } else {
            self.next_cursor is Some && self.next_cursor->0@ == self.items@.last().uid@ + 1
        }
    }

    pub closed spec fn answered(self) -> InventoryRequest {
        self.request
    }

    pub closed spec fn records(self) -> Seq<InventoryItem> {
        self.items@
    }

    pub closed spec fn events(self) -> Seq<Notification> {
        self.notifications@
    }

    /// What the caller must persist before the page is committed.
    pub fn items(&self) -> (items: &[InventoryItem])
        ensures
            items@ == self.records(),
            mailbox::increasing(items@),
            mailbox::within(items@, self.answered().first()@, self.answered().last()@),
            items@.len() <= self.answered().size()@,
    {
        proof {
            use_type_invariant(self);
        }
        self.items.as_slice()
    }

    /// State changes that came with the page.
    pub fn notifications(&self) -> (notifications: &[Notification])
        ensures
            notifications@ == self.events(),
    {
        self.notifications.as_slice()
    }

    /// Whether nothing is left once this page is committed.
    pub fn completes_inventory(&self) -> (result: bool)
        ensures
            result == completes(self.records(), self.answered().last()@),
    {
        proof {
            use_type_invariant(self);
        }
        self.complete_after_commit
    }
}

impl Clone for ValidatedInventoryPage {
    fn clone(&self) -> (copy: Self)
        ensures
            copy.answered() == self.answered(),
            mailbox::same_items(self.records(), copy.records()),
            mailbox::same_events(self.events(), copy.events()),
    {
        proof {
            use_type_invariant(self);
        }
        let items = copy_items(self.items.as_slice());
        proof {
            assert forall|i: int, j: int| 0 <= i < j < items@.len() implies (
            #[trigger] items@[i]).uid@ < (#[trigger] items@[j]).uid@ by {
                assert(self.items@[i].uid@ < self.items@[j].uid@);
            }
            assert forall|i: int| 0 <= i < items@.len() implies self.request.first()@ <= (
            #[trigger] items@[i]).uid@ <= self.request.last()@ by {
                assert(self.request.first()@ <= self.items@[i].uid@ <= self.request.last()@);
            }
        }
        ValidatedInventoryPage {
            request: self.request,
            items,
            notifications: copy_notifications(self.notifications.as_slice()),
            complete_after_commit: self.complete_after_commit,
            next_cursor: self.next_cursor,
        }
    }
}

/// The plan of an inventory up to one fixed UID.
#[derive(Clone, Copy, Debug, PartialEq, Eq)]
pub struct InventoryPlanner {
    snapshot_high_uid: Option<NonZeroU32>,
    cursor: Option<NonZeroU32>,
    page_size: NonZeroU32,
    complete: bool,
}

impl View for InventoryPlanner {
    type V = Plan;

    closed spec fn view(&self) -> Plan {
        Plan {
            high: self.snapshot_high_uid,
            cursor: self.cursor,
            page_size: self.page_size,
            complete: self.complete,
        }
    }
}

/// The page size of a plan: what was configured, at most what the server allows.
pub open spec fn effective_page_size(
    configured: NonZeroU32,
    advertised: Option<NonZeroU32>,
) -> NonZeroU32 {
    match advertised {
        Some(limit) => if limit@ < configured@ {
            limit
        } else {
            configured
        },
        None => configured,
    }
}

impl InventoryPlanner {
    #[verifier::type_invariant]
    spec fn valid(self) -> bool {
        coherent(self@)
    }

    /// A plan from UID 1 to the snapshot's highest UID; complete where there is none.
    pub fn new(
        snapshot_high_uid: Option<NonZeroU32>,
        configured_page_size: NonZeroU32,
        advertised_message_limit: Option<NonZeroU32>,
    ) -> (planner: Self)
        ensures
            coherent(planner@),
            planner@.high == snapshot_high_uid,
            planner@.page_size == effective_page_size(
                configured_page_size,
                advertised_message_limit,
            ),
            planner@.complete == (snapshot_high_uid is None),
            snapshot_high_uid is Some ==> planner@.cursor is Some && planner@.cursor->0@ == 1,
            snapshot_high_uid is None ==> planner@.cursor is None,
    {
        let page_size = match advertised_message_limit {
            Some(limit) => configured_page_size.min(limit),
            None => configured_page_size,
        };
        let (cursor, complete) = match snapshot_high_uid {
            Some(high) => {
                let _ = high.get();
                (Some(NonZeroU32::at_least_one(1)), false)
            },
            None => (None, true),
        };
        InventoryPlanner { snapshot_high_uid, cursor, page_size, complete }
    }

    pub fn is_complete(&self) -> (result: bool)
        ensures
            result == self@.complete,
    {
        self.complete
    }

    /// The page to ask for next, unless the inventory is complete.
    pub fn next_request(&self) -> (result: Option<InventoryRequest>)
        ensures
            coherent(self@),
            result is None <==> self@.complete,
            result matches Some(request) ==> outstanding(self@, request),
    {
        proof {
            use_type_invariant(self);
        }
        if self.complete {
            return None;
        }
        match (self.cursor, self.snapshot_high_uid) {
            (Some(start), Some(end)) => match InventoryRequest::new(start, end, self.page_size) {
                Ok(request) => Some(request),
                Err(_) => None,
            },
            _ => None,
        }
    }

    /// Checks a page against the outstanding request, without advancing.
    pub fn validate_page(&self, page: InventoryPage) -> (result: Result<
        ValidatedInventoryPage,
        Error,
    >)
        ensures
            result is Ok <==> outstanding(self@, page.request) && answers(self@, page.items@),
            result matches Ok(validated) ==> {
                &&& validated.answered() == page.request
                &&& validated.records() == page.items@
                &&& validated.events() == page.notifications@
            },
            result matches Err(e) ==> e == error::data_error(
                if self@.complete {
                    "inventory is already complete"
                } else if !outstanding(self@, page.request) {
                    "inventory page does not match the outstanding request"
                } else if !(mailbox::increasing(page.items@) && mailbox::within(
                    page.items@,
                    page.request.first()@,
                    page.request.last()@,
                )) {
                    "inventory page is not unique, increasing, and in range"
                } else {
                    "inventory page exceeds requested result count"
                },
            ),
    {
        let request = match self.next_request() {
            None => {
                return Err(invalid_data("inventory is already complete"));
            },
            Some(request) => request,
        };
        if !page.request.same(&request) {
            proof {
                if outstanding(self@, page.request) {
                    crate::command::lemma_request_is_its_parts(page.request, request);
                }
            }
            return Err(invalid_data("inventory page does not match the outstanding request"));
        }
        if !is_increasing(page.items.as_slice()) || !is_within(
            page.items.as_slice(),
            request.start().get(),
            request.end().get(),
        ) {
            return Err(invalid_data("inventory page is not unique, increasing, and in range"));
        }
        if page.items.len() > request.page_size().get() as usize {
            return Err(invalid_data("inventory page exceeds requested result count"));
        }
        let complete_after_commit = page.items.len() == 0 || page.items[page.items.len()
            - 1].uid.get() == request.end().get();
        let next_cursor = if complete_after_commit {
            None
        } else {
            Some(NonZeroU32::at_least_one(page.items[page.items.len() - 1].uid.get() + 1))
        };
        Ok(
            ValidatedInventoryPage {
                request,
                items: page.items,
                notifications: page.notifications,
                complete_after_commit,
                next_cursor,
            },
        )
    }

    /// Advances past a page that has been persisted.
    pub fn commit_page(&mut self, validated: ValidatedInventoryPage) -> (result: Result<(), Error>)
        ensures
            coherent(final(self)@),
            result is Ok <==> outstanding(old(self)@, validated.answered()),
            result is Ok ==> answers(old(self)@, validated.records()) && advances(
                old(self)@,
                validated.records(),
                final(self)@,
            ),
            result matches Err(e) ==> *final(self) == *old(self) && e == error::data_error(
                "validated inventory page is stale or belongs to another planner state",
            ),
    {
        proof {
            use_type_invariant(&*self);
            use_type_invariant(&validated);
        }
        let matching = match self.next_request() {
            None => false,
            Some(request) => {
                let same = request.same(&validated.request);
                proof {
                    if outstanding(self@, validated.request) {
                        crate::command::lemma_request_is_its_parts(validated.request, request);
                    }
                }
                same
            },
        };
        if !matching {
            return Err(
                invalid_data(
                    "validated inventory page is stale or belongs to another planner state",
                ),
            );
        }
        self.complete = validated.complete_after_commit;
        if self.complete {
            self.cursor = None;
        } else {
            self.cursor = validated.next_cursor;
        }
        Ok(())
    }
}

/// A page that does not complete the plan moves the cursor forward, past every
/// UID of the page, and keeps it inside the range.
pub proof fn law_cursor_moves_forward(before: Plan, items: Seq<InventoryItem>, after: Plan)
    requires
        coherent(before),
        answers(before, items),
        advances(before, items, after),
    ensures
        coherent(after),
        !after.complete ==> before.cursor->0@ < after.cursor->0@ <= before.high->0@,
        !after.complete ==> forall|i: int|
            0 <= i < items.len() ==> (#[trigger] items[i]).uid@ < after.cursor->0@,
{
    if !after.complete {
        let last = items.last();
        assert(items[items.len() - 1] == last);
        assert forall|i: int| 0 <= i < items.len() implies (#[trigger] items[i]).uid@
            < after.cursor->0@ by {
            if i < items.len() - 1 {
                assert(items[i].uid@ < items[items.len() - 1].uid@);
            }
        }
    }
}

/// A page shorter than asked for does not by itself complete a plan: only an
/// empty page, or one that holds the highest UID, does.
pub proof fn law_short_page_is_not_completion(before: Plan, items: Seq<InventoryItem>, after: Plan)
    requires
        coherent(before),
        answers(before, items),
        advances(before, items, after),
    ensures
        after.complete <==> items.len() == 0 || exists|i: int|
            0 <= i < items.len() && (#[trigger] items[i]).uid@ == before.high->0@,
{
    if items.len() > 0 {
        assert(items[items.len() - 1] == items.last());
        if exists|i: int| 0 <= i < items.len() && (#[trigger] items[i]).uid@ == before.high->0@ {
            let i = choose|i: int|
                0 <= i < items.len() && (#[trigger] items[i]).uid@ == before.high->0@;
            if i < items.len() - 1 {
                assert(items[i].uid@ < items[items.len() - 1].uid@);
            }
        }
    }
}

/// Pages that were committed one after the other, from the first plan on.
pub open spec fn committed(plans: Seq<Plan>, pages: Seq<Seq<InventoryItem>>) -> bool {
    &&& plans.len() == pages.len() + 1
    &&& coherent(plans[0])
    &&& forall|k: int|
        0 <= k < pages.len() ==> answers(plans[k], #[trigger] pages[k]) && advances(
            plans[k],
            pages[k],
            plans[k + 1],
        )
}

proof fn lemma_committed_plans(plans: Seq<Plan>, pages: Seq<Seq<InventoryItem>>, j: int, k: int)
    requires
        committed(plans, pages),
        0 <= j <= k <= pages.len(),
    ensures
        coherent(plans[k]),
        plans[k].high == plans[0].high,
        j < k && !plans[k].complete ==> plans[j].cursor->0@ + (k - j) <= plans[k].cursor->0@,
        j < k && !plans[k].complete ==> !plans[j].complete,
    decreases k,
{
    if k > 0 {
        assert(answers(plans[k - 1], pages[k - 1]));
        assert(advances(plans[k - 1], pages[k - 1], plans[k - 1 + 1]));
        lemma_committed_plans(plans, pages, if j < k { j } else { k - 1 }, k - 1);
        law_cursor_moves_forward(plans[k - 1], pages[k - 1], plans[k]);
    }
}

/// Over a whole inventory no UID comes twice and every UID is larger than those
/// of all earlier pages, up to the snapshot's highest UID.
pub proof fn law_inventory_never_repeats(
    plans: Seq<Plan>,
    pages: Seq<Seq<InventoryItem>>,
    j: int,
    a: int,
    k: int,
    b: int,
)
    requires
        committed(plans, pages),
        0 <= j < pages.len(),
        0 <= a < pages[j].len(),
        0 <= k < pages.len(),
        0 <= b < pages[k].len(),
        j < k || (j == k && a < b),
    ensures
        pages[j][a].uid@ < pages[k][b].uid@ <= plans[0].high->0@,
{
    lemma_committed_plans(plans, pages, 0, k);
    lemma_committed_plans(plans, pages, 0, j);
    assert(answers(plans[k], pages[k]));
    assert(pages[k][b].uid@ <= plans[k].high->0@);
    if j < k {
        assert(answers(plans[j], pages[j]));
        assert(advances(plans[j], pages[j], plans[j + 1]));
        lemma_committed_plans(plans, pages, j, j + 1);
        lemma_committed_plans(plans, pages, j + 1, k);
        law_cursor_moves_forward(plans[j], pages[j], plans[j + 1]);
    }
}

/// An inventory ends: it takes at most as many pages as there are UIDs.
pub proof fn law_inventory_ends(plans: Seq<Plan>, pages: Seq<Seq<InventoryItem>>)
    requires
        committed(plans, pages),
        pages.len() > 0,
    ensures
        pages.len() <= plans[0].high->0@ - plans[0].cursor->0@ + 1,
{
    let n = (pages.len() - 1) as int;
    assert(answers(plans[n], pages[n]));
    lemma_committed_plans(plans, pages, 0, n);
}

pub open spec fn strictly_increasing(uids: Seq<NonZeroU32>) -> bool {
    forall|i: int, j: int|
        0 <= i < j < uids.len() ==> (#[trigger] uids[i])@ < (#[trigger] uids[j])@
}

/// The UIDs of `remote` that `local` lacks, in their order.
pub open spec fn difference(remote: Seq<NonZeroU32>, local: Seq<NonZeroU32>) -> Seq<NonZeroU32> {
    remote.filter(|uid: NonZeroU32| !local.contains(uid))
}

fn validate_uid_list(uids: &[NonZeroU32], complaint: &'static str) -> (result: Result<(), Error>)
    ensures
        result == if strictly_increasing(uids@) {
            Ok(())
        } else {
            Err(error::input_error(complaint))
        },
{
    let mut i: usize = 1;
    while i < uids.len()
        invariant
            1 <= i,
            uids@.len() > 0 ==> i <= uids@.len(),
            forall|a: int, b: int|
                0 <= a < b < i && b < uids@.len() ==> (#[trigger] uids@[a])@ < (
                #[trigger] uids@[b])@,
        decreases uids.len() - i,
    {
        if uids[i - 1].get() >= uids[i].get() {
            assert(!strictly_increasing(uids@)) by {
                assert(uids@[i - 1]@ >= uids@[i as int]@);
            }
            return Err(invalid_input(complaint));
        }
        assert(uids@[i - 1]@ < uids@[i as int]@);
        i = i + 1;
    }
    Ok(())
}

/// The remote UIDs that are not verified locally, for strictly increasing lists.
pub fn missing_verified_uids(
    remote: &[NonZeroU32],
    locally_verified: &[NonZeroU32],
) -> (result: Result<Vec<NonZeroU32>, Error>)
    ensures
        result is Ok <==> strictly_increasing(remote@) && strictly_increasing(locally_verified@),
        result matches Ok(missing) ==> missing@ == difference(remote@, locally_verified@),
        result matches Err(e) ==> e == error::input_error(
            if !strictly_increasing(remote@) {
                "remote UID list must be strictly increasing and unique"
            } else {
                "local UID list must be strictly increasing and unique"
            },
        ),
{
    match validate_uid_list(remote, "remote UID list must be strictly increasing and unique") {
        Err(e) => {
            return Err(e);
        },
        Ok(()) => {},
    }
    match validate_uid_list(
        locally_verified,
        "local UID list must be strictly increasing and unique",
    ) {
        Err(e) => {
            return Err(e);
        },
        Ok(()) => {},
    }
    let ghost lacks = |uid: NonZeroU32| !locally_verified@.contains(uid);
    let mut missing: Vec<NonZeroU32> = Vec::new();
    let mut local_index: usize = 0;
    let mut i: usize = 0;
    assert(remote@.take(0).filter(lacks) =~= Seq::<NonZeroU32>::empty()) by {
        reveal(Seq::filter);
    }
    while i < remote.len()
        invariant
            i <= remote@.len(),
            local_index <= locally_verified@.len(),
            strictly_increasing(remote@),
            strictly_increasing(locally_verified@),
            lacks == (|uid: NonZeroU32| !locally_verified@.contains(uid)),
            missing@ == remote@.take(i as int).filter(lacks),
            i < remote@.len() ==> forall|j: int|
                0 <= j < local_index ==> (#[trigger] locally_verified@[j])@ < remote@[i as int]@,
        decreases remote.len() - i,
    {
        let remote_uid = remote[i];
        while local_index < locally_verified.len() && locally_verified[local_index].get()
            < remote_uid.get()
            invariant
                local_index <= locally_verified@.len(),
                forall|j: int|
                    0 <= j < local_index ==> (#[trigger] locally_verified@[j])@ < remote_uid@,
            decreases locally_verified.len() - local_index,
        {
            local_index = local_index + 1;
        }
        let found = local_index < locally_verified.len() && locally_verified[local_index].get()
            == remote_uid.get();
        proof {
            broadcast use crate::nonzero::lemma_nonzero_u32_view;

            if found {
                assert(locally_verified@[local_index as int] == remote_uid);
            } else {
                assert forall|j: int| 0 <= j < locally_verified@.len() implies
                    #[trigger] locally_verified@[j] != remote_uid by {
                    if j > local_index {
                        assert(locally_verified@[local_index as int]@ < locally_verified@[j]@);
                    }
                }
            }
            assert(lacks(remote_uid) == !found);
            assert(remote@.take(i + 1) =~= remote@.take(i as int).push(remote_uid));
            reveal(Seq::filter);
            assert(remote@.take(i + 1).drop_last() =~= remote@.take(i as int));
        }
        if !found {
            missing.push(remote_uid);
        }
        proof {
            if i + 1 < remote@.len() {
                assert(remote@[i as int]@ < remote@[i + 1]@);
            }
        }
        i = i + 1;
    }
    assert(remote@.take(i as int) =~= remote@);
    Ok(missing)
}

/// The difference is strictly increasing and holds exactly the remote UIDs that
/// are not verified locally.
pub proof fn law_difference_is_exact(remote: Seq<NonZeroU32>, local: Seq<NonZeroU32>)
    requires
        strictly_increasing(remote),
    ensures
        strictly_increasing(difference(remote, local)),
        forall|uid: NonZeroU32| #[trigger]
            difference(remote, local).contains(uid) <==> remote.contains(uid) && !local.contains(
                uid,
            ),
    decreases remote.len(),
{
    reveal(Seq::filter);
    let lacks = |uid: NonZeroU32| !local.contains(uid);
    if remote.len() > 0 {
        let before = remote.drop_last();
        assert forall|i: int, j: int| 0 <= i < j < before.len() implies (#[trigger] before[i])@ < (
        #[trigger] before[j])@ by {
            assert(remote[i]@ < remote[j]@);
        }
        law_difference_is_exact(before, local);
        let kept = difference(before, local);
        assert forall|i: int| 0 <= i < kept.len() implies (#[trigger] kept[i])@ < remote.last()@ by {
            assert(kept.contains(kept[i]));
            let k = choose|k: int| 0 <= k < before.len() && before[k] == kept[i];
            assert(remote[k]@ < remote[remote.len() - 1]@);
        }
        assert(remote =~= before.push(remote.last()));
        assert forall|uid: NonZeroU32| #[trigger]
            difference(remote, local).contains(uid) <==> remote.contains(uid) && !local.contains(
                uid,
            ) by {
            assert(remote.contains(uid) <==> before.contains(uid) || uid == remote.last()) by {
                if remote.contains(uid) {
                    let k = choose|k: int| 0 <= k < remote.len() && remote[k] == uid;
                    if k < before.len() {
                        assert(before[k] == uid);
                    }
                }
                if before.contains(uid) {
                    let k = choose|k: int| 0 <= k < before.len() && before[k] == uid;
                    assert(remote[k] == uid);
                }
                if uid == remote.last() {
                    assert(remote[remote.len() - 1] == uid);
                }
            }
            assert(difference(before, local).contains(uid) <==> before.contains(uid)
                && !local.contains(uid));
            let all = difference(remote, local);
            if lacks(remote.last()) {
                assert(all =~= kept.push(remote.last()));
                if all.contains(uid) {
                    let k = choose|k: int| 0 <= k < all.len() && all[k] == uid;
                    if k < kept.len() {
                        assert(kept[k] == uid);
                    }
                }
                if kept.contains(uid) {
                    let k = choose|k: int| 0 <= k < kept.len() && kept[k] == uid;
                    assert(all[k] == uid);
                }
                if uid == remote.last() {
                    assert(all[kept.len() as int] == uid);
                }
            } else {
                assert(all =~= kept);
            }
        }
    }
}

} // verus!
