//! Limits of an acquisition and the batches that bodies are fetched in.

use crate::failure;
use crate::failure::{raise, BichonError, ErrorCode};
use crate::limits::Duration;
use vstd::prelude::*;

verus! {

pub const UIDONLY_DEFAULT_PAGE_SIZE: u32 = 1_000;

pub const UIDONLY_MAX_FETCH_BATCH_MESSAGES: u32 = 32;

pub const UIDONLY_PROJECTION_BATCH_MESSAGES: usize = 32;

pub const UIDONLY_PROJECTION_BATCH_BYTES: u64 = 33_554_432;

pub const UIDONLY_FETCH_BATCH_BYTES: u64 = 33_554_432;

pub const DEFAULT_BATCH_SIZE: u32 = 30;

pub const DEFAULT_MAX_EMAIL_SIZE: u64 = 104_857_600;

/// One message of the remote inventory.
#[derive(Clone, Copy, Debug, PartialEq, Eq, Structural)]
pub struct InventoryItem {
    pub uid: u32,
    pub rfc822_size: u64,
}

/// The ceilings of an acquisition.
#[derive(Clone, Copy, Debug, PartialEq, Eq, Structural)]
pub struct AcquisitionLimits {
    pub max_literal_bytes: u64,
    pub max_operation_runtime: Duration,
    pub page_size: u32,
    pub fetch_batch_size: u32,
    pub fetch_batch_bytes: u64,
}

impl AcquisitionLimits {
    /// Nothing is zero, and a batch fits into the ceilings of a fetch.
    pub open spec fn usable(self) -> bool {
        &&& self.max_literal_bytes != 0
        &&& self.max_operation_runtime.seconds != 0 || self.max_operation_runtime.nanoseconds != 0
        &&& self.page_size != 0
        &&& 0 < self.fetch_batch_size <= UIDONLY_MAX_FETCH_BATCH_MESSAGES
        &&& 0 < self.fetch_batch_bytes <= UIDONLY_FETCH_BATCH_BYTES
    }

    /// The limits for messages of at most so many bytes. Each single operation is
    /// bounded in time, not the whole acquisition.
    pub fn bounded(max_literal_bytes: u64) -> (limits: Self)
        ensures
            limits == (AcquisitionLimits {
                max_literal_bytes,
                max_operation_runtime: Duration { seconds: 600, nanoseconds: 0 },
                page_size: 1_000,
                fetch_batch_size: 30,
                fetch_batch_bytes: UIDONLY_FETCH_BATCH_BYTES,
            }),
            max_literal_bytes > 0 ==> limits.usable(),
    {
        AcquisitionLimits {
            max_literal_bytes,
            max_operation_runtime: Duration::from_secs(600),
            page_size: 1_000,
            fetch_batch_size: if DEFAULT_BATCH_SIZE < UIDONLY_MAX_FETCH_BATCH_MESSAGES {
                DEFAULT_BATCH_SIZE
            } else {
                UIDONLY_MAX_FETCH_BATCH_MESSAGES
            },
            fetch_batch_bytes: UIDONLY_FETCH_BATCH_BYTES,
        }
    }

    pub fn validate(self) -> (result: Result<Self, BichonError>)
        ensures
            failure::judged(result) == if self.usable() {
                Ok(self)
            } else {
                Err(
                    failure::failure(
                        ErrorCode::InvalidParameter,
                        "UIDONLY acquisition limits must be nonzero"@,
                    ),
                )
            },
    {
        if self.max_literal_bytes == 0 || self.max_operation_runtime.is_zero() || self.page_size
            == 0 || self.fetch_batch_size == 0 || self.fetch_batch_size
            > UIDONLY_MAX_FETCH_BATCH_MESSAGES || self.fetch_batch_bytes == 0
            || self.fetch_batch_bytes > UIDONLY_FETCH_BATCH_BYTES {
            return Err(
                raise(
                    ErrorCode::InvalidParameter,
                    "UIDONLY acquisition limits must be nonzero",
                ),
            );
        }
        Ok(self)
    }
}

/// The ceilings that a connection is wrapped with.
#[derive(Clone, Copy, Debug, PartialEq, Eq, Structural)]
pub struct UidOnlyLimits {
    pub max_control_line_bytes: usize,
    pub max_literal_bytes: usize,
    pub max_response_bytes: usize,
    pub max_command_literal_bytes: usize,
    pub max_command_response_bytes: usize,
    pub max_command_responses: usize,
    pub max_command_runtime: Duration,
}

pub open spec fn larger(a: int, b: int) -> int {
    if a < b {
        b
    } else {
        a
    }
}

/// The ceilings for messages of at most so many bytes.
pub open spec fn wire_limits(max_literal_bytes: u64) -> Result<UidOnlyLimits, failure::Failure> {
    let command_literal = larger(max_literal_bytes as int, UIDONLY_FETCH_BATCH_BYTES as int);
    if max_literal_bytes == 0 || max_literal_bytes > u32::MAX {
        Err(
            failure::failure(
                ErrorCode::InvalidParameter,
                "UIDONLY message-size limit is outside the supported range"@,
            ),
        )
    } else if command_literal + 131_072 > usize::MAX {
        Err(
            failure::failure(
                ErrorCode::InvalidParameter,
                "UIDONLY response-size limit overflow"@,
            ),
        )
    } else if command_literal + 262_144 > usize::MAX {
        Err(
            failure::failure(
                ErrorCode::InvalidParameter,
                "UIDONLY command-size limit overflow"@,
            ),
        )
    } else {
        Ok(
            UidOnlyLimits {
                max_control_line_bytes: 65_536,
                max_literal_bytes: max_literal_bytes as usize,
                max_response_bytes: (command_literal + 131_072) as usize,
                max_command_literal_bytes: command_literal as usize,
                max_command_response_bytes: (command_literal + 262_144) as usize,
                max_command_responses: 2_048,
                max_command_runtime: Duration { seconds: 300, nanoseconds: 0 },
            },
        )
    }
}

/// The ceilings for messages of at most so many bytes.
pub fn protocol_limits(max_literal_bytes: u64) -> (result: Result<UidOnlyLimits, BichonError>)
    ensures
        failure::judged(result) == wire_limits(max_literal_bytes),
{
    if max_literal_bytes == 0 || max_literal_bytes > u32::MAX as u64 {
        return Err(
            raise(
                ErrorCode::InvalidParameter,
                "UIDONLY message-size limit is outside the supported range",
            ),
        );
    }
    let literal: usize = max_literal_bytes as usize;
    let batch: usize = UIDONLY_FETCH_BATCH_BYTES as usize;
    let command_literal: usize = if literal < batch {
        batch
    } else {
        literal
    };
    let response: usize = match command_literal.checked_add(131_072) {
        None => {
            return Err(
                raise(ErrorCode::InvalidParameter, "UIDONLY response-size limit overflow"),
            );
        },
        Some(response) => response,
    };
    let command: usize = match response.checked_add(131_072) {
        None => {
            return Err(raise(ErrorCode::InvalidParameter, "UIDONLY command-size limit overflow"));
        },
        Some(command) => command,
    };
    Ok(
        UidOnlyLimits {
            max_control_line_bytes: 65_536,
            max_literal_bytes: literal,
            max_response_bytes: response,
            max_command_literal_bytes: command_literal,
            max_command_response_bytes: command,
            max_command_responses: 2_048,
            max_command_runtime: Duration::from_secs(300),
        },
    )
}

/// The literal ceiling of a probe: the configured one, moved into the range that
/// every server connection supports.
pub open spec fn probe_literal(max_literal_bytes: u64) -> int {
    let representable = if u32::MAX < usize::MAX - 262_144 {
        u32::MAX as int
    } else {
        usize::MAX - 262_144
    };
    if max_literal_bytes < 1 {
        1
    } else if max_literal_bytes > representable {
        representable
    } else {
        max_literal_bytes as int
    }
}

pub fn protocol_probe_literal(max_literal_bytes: u64) -> (literal: u64)
    ensures
        literal == probe_literal(max_literal_bytes),
{
    let below: u64 = (usize::MAX - 262_144) as u64;
    let representable: u64 = if (u32::MAX as u64) < below {
        u32::MAX as u64
    } else {
        below
    };
    if max_literal_bytes < 1 {
        1
    } else if max_literal_bytes > representable {
        representable
    } else {
        max_literal_bytes
    }
}

/// A probe is never refused for the configured message size.
pub proof fn law_probe_limits_always_fit(max_literal_bytes: u64)
    ensures
        0 < probe_literal(max_literal_bytes) <= u64::MAX,
        wire_limits(probe_literal(max_literal_bytes) as u64) is Ok,
{
}

/// The batch size of fetches: what was asked for, within what the server and the
/// archive allow, at least one.
pub open spec fn batch_size(requested: Option<u32>, message_limit: u32) -> u32 {
    let asked = match requested {
        Some(size) => size,
        None => DEFAULT_BATCH_SIZE,
    };
    let bounded = if asked < message_limit {
        asked
    } else {
        message_limit
    };
    if bounded == 0 {
        1
    } else if bounded > UIDONLY_MAX_FETCH_BATCH_MESSAGES {
        UIDONLY_MAX_FETCH_BATCH_MESSAGES
    } else {
        bounded
    }
}

pub fn effective_fetch_batch_size(requested: Option<u32>, message_limit: u32) -> (size: u32)
    ensures
        size == batch_size(requested, message_limit),
{
    let asked = match requested {
        Some(size) => size,
        None => DEFAULT_BATCH_SIZE,
    };
    let bounded: u32 = if asked < message_limit {
        asked
    } else {
        message_limit
    };
    let capped: u32 = if bounded < UIDONLY_MAX_FETCH_BATCH_MESSAGES {
        bounded
    } else {
        UIDONLY_MAX_FETCH_BATCH_MESSAGES
    };
    if capped < 1 {
        1
    } else {
        capped
    }
}

/// The bytes that a message counts for: its declared size, at least one.
pub open spec fn declared(item: InventoryItem) -> int {
    if item.rfc822_size == 0 {
        1
    } else {
        item.rfc822_size as int
    }
}

/// The declared bytes of some messages.
pub open spec fn total(items: Seq<InventoryItem>) -> int
    decreases items.len(),
{
    if items.len() == 0 {
        0
    } else {
        total(items.drop_last()) + declared(items.last())
    }
}

/// A sum as a saturating counter holds it.
pub open spec fn capped(sum: int) -> int {
    if sum > u64::MAX {
        u64::MAX as int
    } else {
        sum
    }
}

/// The message after the first `n` may join them in one batch.
pub open spec fn joins(items: Seq<InventoryItem>, n: int, count_limit: u32, byte_limit: u64) -> bool {
    n < count_limit && capped(total(items.take(n)) + declared(items[n])) <= byte_limit
}

/// How many messages the first batch holds, of which `n` are known to.
pub open spec fn first_batch(
    items: Seq<InventoryItem>,
    n: int,
    count_limit: u32,
    byte_limit: u64,
) -> int
    decreases items.len() - n,
{
    if n < items.len() && joins(items, n, count_limit, byte_limit) {
        first_batch(items, n + 1, count_limit, byte_limit)
    } else {
        n
    }
}

pub proof fn lemma_first_batch(
    items: Seq<InventoryItem>,
    n: int,
    count_limit: u32,
    byte_limit: u64,
)
    requires
        0 <= n <= items.len(),
    ensures
        n <= first_batch(items, n, count_limit, byte_limit) <= items.len(),
    decreases items.len() - n,
{
    if n < items.len() && joins(items, n, count_limit, byte_limit) {
        lemma_first_batch(items, n + 1, count_limit, byte_limit);
    }
}

/// The batches of some messages, each as long as it may be.
pub open spec fn planned(items: Seq<InventoryItem>, count_limit: u32, byte_limit: u64) -> Seq<
    Seq<InventoryItem>,
>
    decreases items.len(),
{
    if items.len() == 0 {
        Seq::empty()
    } else {
        proof {
            lemma_first_batch(items, 1, count_limit, byte_limit);
        }
        let n = first_batch(items, 1, count_limit, byte_limit);
        seq![items.take(n)] + planned(items.skip(n), count_limit, byte_limit)
    }
}

/// Batches as sequences.
pub open spec fn views(batches: Seq<Vec<InventoryItem>>) -> Seq<Seq<InventoryItem>> {
    batches.map_values(|batch: Vec<InventoryItem>| batch@)
}

/// Cuts messages into batches, in order, each within both limits where it holds more
/// than one message.
pub fn planned_fetch_batches(
    items: Vec<InventoryItem>,
    count_limit: u32,
    byte_limit: u64,
) -> (batches: Vec<Vec<InventoryItem>>)
    ensures
        views(batches@) == planned(items@, count_limit, byte_limit),
{
    let mut batches: Vec<Vec<InventoryItem>> = Vec::new();
    let mut batch: Vec<InventoryItem> = Vec::new();
    let mut bytes: u64 = 0;
    let mut i: usize = 0;
    proof {
        assert(items@.skip(0) =~= items@);
        assert(views(batches@) + planned(items@, count_limit, byte_limit) =~= planned(
            items@,
            count_limit,
            byte_limit,
        ));
        assert(batch@ + items@ =~= items@);
        assert(batch@ =~= Seq::<InventoryItem>::empty());
    }
    while i < items.len()
        invariant
            i <= items@.len(),
            batch@.len() <= i,
            bytes == capped(total(batch@)),
            planned(items@, count_limit, byte_limit) == views(batches@) + planned(
                batch@ + items@.skip(i as int),
                count_limit,
                byte_limit,
            ),
            i > 0 ==> batch@.len() > 0,
            batch@.len() > 0 ==> first_batch(
                batch@ + items@.skip(i as int),
                1,
                count_limit,
                byte_limit,
            ) == first_batch(
                batch@ + items@.skip(i as int),
                batch@.len() as int,
                count_limit,
                byte_limit,
            ),
        decreases items.len() - i,
    {
        let item = items[i];
        let size: u64 = if item.rfc822_size < 1 {
            1
        } else {
            item.rfc822_size
        };
        let ghost whole = batch@ + items@.skip(i as int);
        let ghost n = batch@.len() as int;
        let ghost rest = items@.skip(i as int);
        proof {
            assert(whole[n] == item);
            assert(whole.take(n) =~= batch@);
            lemma_total_bounds(batch@);
        }
        if batch.len() != 0 && (batch.len() >= count_limit as usize || bytes.saturating_add(size)
            > byte_limit) {
            proof {
                assert(!joins(whole, n, count_limit, byte_limit));
                assert(first_batch(whole, 1, count_limit, byte_limit) == n);
                assert(whole.skip(n) =~= rest);
                assert(views(batches@.push(batch)) =~= views(batches@).push(batch@));
                assert(views(batches@) + (seq![batch@] + planned(rest, count_limit, byte_limit))
                    =~= views(batches@).push(batch@) + planned(rest, count_limit, byte_limit));
            }
            let mut full: Vec<InventoryItem> = Vec::new();
            std::mem::swap(&mut full, &mut batch);
            batches.push(full);
            bytes = 0;
            assert(batch@ =~= Seq::<InventoryItem>::empty());
            assert(batch@ + rest =~= rest);
        }
        let ghost current = batch@ + rest;
        let ghost m = batch@.len() as int;
        proof {
            assert(current[m] == item);
            assert(current.take(m) =~= batch@);
            assert(batch@.push(item) + items@.skip(i + 1) =~= current);
            assert(batch@.push(item).drop_last() =~= batch@);
        }
        let ghost sum = total(batch@);
        proof {
            lemma_total_bounds(batch@);
        }
        bytes = bytes.saturating_add(size);
        batch.push(item);
        assert(total(batch@) == sum + declared(item));
        i = i + 1;
    }
    proof {
        let whole = batch@ + items@.skip(i as int);
        assert(whole =~= batch@);
        if batch@.len() > 0 {
            assert(first_batch(whole, batch@.len() as int, count_limit, byte_limit)
                == batch@.len());
            assert(whole.take(batch@.len() as int) =~= batch@);
            assert(whole.skip(batch@.len() as int) =~= Seq::<InventoryItem>::empty());
            assert(planned(whole.skip(batch@.len() as int), count_limit, byte_limit) =~= Seq::<
                Seq<InventoryItem>,
            >::empty());
            assert(planned(whole, count_limit, byte_limit) =~= seq![batch@]);
            assert(views(batches@.push(batch)) =~= views(batches@).push(batch@));
            assert(views(batches@) + seq![batch@] =~= views(batches@).push(batch@));
        } else {
            assert(planned(whole, count_limit, byte_limit) =~= Seq::<Seq<InventoryItem>>::empty());
            assert(views(batches@) + planned(whole, count_limit, byte_limit) =~= views(batches@));
        }
    }
    if batch.len() != 0 {
        batches.push(batch);
    }
    batches
}

proof fn lemma_total_bounds(items: Seq<InventoryItem>)
    ensures
        0 <= total(items),
    decreases items.len(),
{
    if items.len() > 0 {
        lemma_total_bounds(items.drop_last());
    }
}

/// The messages of some batches, in order.
pub open spec fn joined(batches: Seq<Seq<InventoryItem>>) -> Seq<InventoryItem>
    decreases batches.len(),
{
    if batches.len() == 0 {
        Seq::empty()
    } else {
        batches[0] + joined(batches.drop_first())
    }
}

/// Batches lose, repeat and reorder nothing.
pub proof fn law_batches_hold_every_message_once(
    items: Seq<InventoryItem>,
    count_limit: u32,
    byte_limit: u64,
)
    ensures
        joined(planned(items, count_limit, byte_limit)) == items,
    decreases items.len(),
{
    if items.len() > 0 {
        lemma_first_batch(items, 1, count_limit, byte_limit);
        let n = first_batch(items, 1, count_limit, byte_limit);
        law_batches_hold_every_message_once(items.skip(n), count_limit, byte_limit);
        let all = planned(items, count_limit, byte_limit);
        assert(all.drop_first() =~= planned(items.skip(n), count_limit, byte_limit));
        assert(all[0] == items.take(n));
        assert(items.take(n) + items.skip(n) =~= items);
    }
}

proof fn lemma_first_batch_fits(
    items: Seq<InventoryItem>,
    n: int,
    count_limit: u32,
    byte_limit: u64,
)
    requires
        1 <= n <= items.len(),
        n == 1 || (n <= count_limit && capped(total(items.take(n))) <= byte_limit),
    ensures
        ({
            let m = first_batch(items, n, count_limit, byte_limit);
            m == 1 || (m <= count_limit && capped(total(items.take(m))) <= byte_limit)
        }),
    decreases items.len() - n,
{
    if n < items.len() && joins(items, n, count_limit, byte_limit) {
        assert(items.take(n + 1).drop_last() =~= items.take(n));
        assert(items.take(n + 1).last() == items[n]);
        lemma_first_batch_fits(items, n + 1, count_limit, byte_limit);
    }
}

/// Every batch holds a message, and one that holds more is within both limits.
pub proof fn law_batches_keep_limits(
    items: Seq<InventoryItem>,
    count_limit: u32,
    byte_limit: u64,
    k: int,
)
    requires
        0 <= k < planned(items, count_limit, byte_limit).len(),
    ensures
        ({
            let batch = planned(items, count_limit, byte_limit)[k];
            &&& batch.len() > 0
            &&& batch.len() == 1 || (batch.len() <= count_limit && capped(total(batch))
                <= byte_limit)
        }),
    decreases items.len(),
{
    if items.len() > 0 {
        lemma_first_batch(items, 1, count_limit, byte_limit);
        lemma_first_batch_fits(items, 1, count_limit, byte_limit);
        let n = first_batch(items, 1, count_limit, byte_limit);
        let rest = planned(items.skip(n), count_limit, byte_limit);
        if k > 0 {
            assert(planned(items, count_limit, byte_limit)[k] == rest[k - 1]);
            law_batches_keep_limits(items.skip(n), count_limit, byte_limit, k - 1);
        } else {
            assert(planned(items, count_limit, byte_limit)[0] == items.take(n));
        }
    }
}

} // verus!
