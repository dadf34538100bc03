//! What is asked of a server, and under which names things are kept.

use crate::batches::AcquisitionLimits;
use crate::command;
use crate::command::{InventoryRequest, UidOnlyCommand};
use crate::envelope;
use crate::envelope::Arrival;
use crate::error::{Error, ErrorKind};
use crate::failure::{BichonError, ErrorCode};
use crate::inventory;
use crate::inventory::{InventoryPlanner, Plan};
use crate::limits::CommandLimits;
use crate::nonzero::NonZeroU32;
use crate::projection;
use crate::projection::Fetched;
use crate::recovery;
use crate::text;
use crate::text_laws;
use vstd::prelude::*;

verus! {

/// Which commands may be sent: every page within the configured size, every chunk within
/// the configured size whose end is still a number of 32 bits, and every mailbox name in
/// plain ASCII without control characters that fits, quoted and escaped, into its ceiling.
/// Nothing else may, and it is refused as a bad request.
pub proof fn law_sound_commands_may_be_sent(command: UidOnlyCommand, limits: CommandLimits)
    ensures
        ({
            let line = command::command_text(command, limits);
            &&& line is Ok <==> match command {
                UidOnlyCommand::Examine { encoded_mailbox } => {
                    let name = encoded_mailbox@;
                    &&& text::ascii(name)
                    &&& forall|i: int|
                        0 <= i < name.len() ==> ' ' <= (#[trigger] name[i]) && name[i] as int != 127
                    &&& command::escaped(name).len() + 2 <= limits.max_mailbox_wire_bytes@
                },
                UidOnlyCommand::Inventory(request) => request.size()@
                    <= limits.max_inventory_page@,
                UidOnlyCommand::BodyChunk { offset, count, .. } => count@
                    <= limits.max_body_chunk_bytes@ && offset + count@ <= u32::MAX,
                UidOnlyCommand::Noop => true,
                UidOnlyCommand::Logout => true,
            }
            &&& line matches Err(e) ==> e.kind == ErrorKind::InvalidInput
                || command::escaped(command->encoded_mailbox@).len() + 2 > usize::MAX
        }),
{
    if let UidOnlyCommand::Examine { encoded_mailbox } = command {
        let name = encoded_mailbox@;
        lemma_escaping_makes_no_shorter(name);
        if text::ascii(name) {
            vstd::utf8::is_ascii_chars_encode_utf8(name);
        }
        if command::holds_control(name) {
            let i = choose|i: int| 0 <= i < name.len() && command::control(#[trigger] name[i]);
            assert(!(' ' <= name[i] && name[i] as int != 127));
        }
    }
}

proof fn lemma_escaping_makes_no_shorter(name: Seq<char>)
    ensures
        command::escaped(name).len() >= name.len(),
    decreases name.len(),
{
    if name.len() > 0 {
        lemma_escaping_makes_no_shorter(name.drop_last());
    }
}

/// A name is escaped character by character: a backslash goes before a quote and before a
/// backslash, and nothing else changes.
pub proof fn law_names_are_escaped_one_by_one(a: Seq<char>, b: Seq<char>, c: char)
    ensures
        command::escaped(a + b) == command::escaped(a) + command::escaped(b),
        c == '"' || c == '\\' ==> command::escaped(seq![c]) == seq!['\\', c],
        c != '"' && c != '\\' ==> command::escaped(seq![c]) == seq![c],
    decreases b.len(),
{
    reveal_with_fuel(command::escaped, 3);
    assert(seq![c].drop_last() =~= Seq::empty());
    assert(Seq::<char>::empty().push('\\').push(c) =~= seq!['\\', c]);
    assert(Seq::<char>::empty().push(c) =~= seq![c]);
    if b.len() == 0 {
        assert(a + b =~= a);
        assert(command::escaped(a) + b =~= command::escaped(a));
    } else {
        law_names_are_escaped_one_by_one(a, b.drop_last(), c);
        assert((a + b).drop_last() =~= a + b.drop_last());
        assert((a + b).last() == b.last());
        let x = command::escaped(a);
        let y = command::escaped(b.drop_last());
        let l = b.last();
        assert((x + y).push(l) =~= x + y.push(l));
        assert((x + y).push('\\').push(l) =~= x + y.push('\\').push(l));
    }
}

/// A number at the start of a text ends where the digits do.
proof fn lemma_number_ends(m: nat, x: Seq<char>, n: nat, y: Seq<char>)
    requires
        text::numeral(m) + x == text::numeral(n) + y,
        x.len() > 0 && !('0' <= x[0] <= '9'),
        y.len() > 0 && !('0' <= y[0] <= '9'),
    ensures
        m == n,
        x == y,
{
    let a = text::numeral(m);
    let b = text::numeral(n);
    text_laws::law_numerals_read_back(m);
    text_laws::law_numerals_read_back(n);
    let whole = a + x;
    if a.len() < b.len() {
        assert(whole[a.len() as int] == x[0]);
        assert((b + y)[a.len() as int] == b[a.len() as int]);
        assert(false);
    }
    if b.len() < a.len() {
        assert((b + y)[b.len() as int] == y[0]);
        assert(whole[b.len() as int] == a[b.len() as int]);
        assert(false);
    }
    assert(a =~= whole.take(a.len() as int));
    assert(b =~= whole.take(a.len() as int));
    assert(x =~= whole.skip(a.len() as int));
    assert(y =~= whole.skip(a.len() as int));
    text_laws::law_numerals_are_told_apart(m, n);
}

proof fn lemma_common_start(start: Seq<char>, x: Seq<char>, y: Seq<char>)
    requires
        start + x == start + y,
    ensures
        x == y,
{
    assert(x =~= (start + x).skip(start.len() as int));
    assert(y =~= (start + y).skip(start.len() as int));
}

/// Requests for different pages are written differently: the text names the first UID, the
/// last UID and the size of the page.
pub proof fn law_pages_are_told_apart(
    a: InventoryRequest,
    b: InventoryRequest,
    limits: CommandLimits,
)
    requires
        command::inventory_text(a, limits) is Ok,
        command::inventory_text(a, limits) == command::inventory_text(b, limits),
    ensures
        a.first()@ == b.first()@,
        a.last()@ == b.last()@,
        a.size()@ == b.size()@,
{
    reveal_strlit(":");
    reveal_strlit(")");
    reveal_strlit(" (UID RFC822.SIZE INTERNALDATE) (PARTIAL 1:");
    let start = "UID FETCH "@;
    let middle = " (UID RFC822.SIZE INTERNALDATE) (PARTIAL 1:"@;
    let n = |r: NonZeroU32| text::numeral(r@ as nat);
    let a3 = n(a.size()) + ")"@;
    let b3 = n(b.size()) + ")"@;
    let a2 = n(a.last()) + (middle + a3);
    let b2 = n(b.last()) + (middle + b3);
    let a1 = n(a.first()) + (":"@ + a2);
    let b1 = n(b.first()) + (":"@ + b2);
    assert(command::inventory_text(a, limits)->Ok_0 =~= start + a1);
    assert(command::inventory_text(b, limits)->Ok_0 =~= start + b1);
    lemma_common_start(start, a1, b1);
    lemma_number_ends(a.first()@ as nat, ":"@ + a2, b.first()@ as nat, ":"@ + b2);
    lemma_common_start(":"@, a2, b2);
    lemma_number_ends(a.last()@ as nat, middle + a3, b.last()@ as nat, middle + b3);
    lemma_common_start(middle, a3, b3);
    lemma_number_ends(a.size()@ as nat, ")"@, b.size()@ as nat, ")"@);
}

/// Requests for different octets are written differently: the text names the UID, the
/// offset and the count.
pub proof fn law_chunks_are_told_apart(
    uid: u32,
    offset: u32,
    count: u32,
    other_uid: u32,
    other_offset: u32,
    other_count: u32,
    limits: CommandLimits,
)
    requires
        command::body_text(uid, offset, count, limits) is Ok,
        command::body_text(uid, offset, count, limits) == command::body_text(
            other_uid,
            other_offset,
            other_count,
            limits,
        ),
    ensures
        uid == other_uid,
        offset == other_offset,
        count == other_count,
{
    reveal_strlit(" (UID RFC822.SIZE BODY.PEEK[]<");
    reveal_strlit(".");
    reveal_strlit(">)");
    let start = "UID FETCH "@;
    let middle = " (UID RFC822.SIZE BODY.PEEK[]<"@;
    let a3 = text::numeral(count as nat) + ">)"@;
    let b3 = text::numeral(other_count as nat) + ">)"@;
    let a2 = text::numeral(offset as nat) + ("."@ + a3);
    let b2 = text::numeral(other_offset as nat) + ("."@ + b3);
    let a1 = text::numeral(uid as nat) + (middle + a2);
    let b1 = text::numeral(other_uid as nat) + (middle + b2);
    assert(command::body_text(uid, offset, count, limits)->Ok_0 =~= start + a1);
    assert(command::body_text(other_uid, other_offset, other_count, limits)->Ok_0 =~= start + b1);
    lemma_common_start(start, a1, b1);
    lemma_number_ends(uid as nat, middle + a2, other_uid as nat, middle + b2);
    lemma_common_start(middle, a2, b2);
    lemma_number_ends(offset as nat, "."@ + a3, other_offset as nat, "."@ + b3);
    lemma_common_start("."@, a3, b3);
    lemma_number_ends(count as nat, ">)"@, other_count as nat, ">)"@);
}

/// A range is asked for as it is, and only one that does not run backwards.
pub proof fn law_ranges_run_forward(
    start: NonZeroU32,
    end: NonZeroU32,
    page_size: NonZeroU32,
    result: Result<InventoryRequest, Error>,
)
    requires
        call_ensures(InventoryRequest::new, (start, end, page_size), result),
    ensures
        result is Ok <==> start@ <= end@,
        result matches Ok(request) ==> request.first()@ == start@ && request.last()@ == end@
            && request.size()@ == page_size@,
{
}

/// A plan starts at the first UID and ends at the highest; where there is none it is
/// complete at once. Its pages are as large as configured, or as the server allows where
/// that is less.
pub proof fn law_plan_covers_the_mailbox(
    high: Option<NonZeroU32>,
    configured: NonZeroU32,
    advertised: Option<NonZeroU32>,
    planner: InventoryPlanner,
)
    requires
        call_ensures(InventoryPlanner::new, (high, configured, advertised), planner),
    ensures
        high is None <==> planner@.complete,
        high matches Some(last) ==> {
            &&& planner@.cursor is Some && planner@.cursor->0@ == 1
            &&& planner@.high is Some && planner@.high->0@ == last@
        },
        planner@.page_size@ <= configured@,
        advertised is None ==> planner@.page_size@ == configured@,
        advertised matches Some(limit) ==> {
            &&& planner@.page_size@ <= limit@
            &&& planner@.page_size@ == configured@ || planner@.page_size@ == limit@
        },
{
}

/// A page that answers the outstanding request, in order and within its bounds, is never
/// refused, and any other is.
pub proof fn law_answering_pages_are_accepted(
    planner: InventoryPlanner,
    page: crate::mailbox::InventoryPage,
    result: Result<inventory::ValidatedInventoryPage, Error>,
)
    requires
        call_ensures(InventoryPlanner::validate_page, (&planner, page), result),
        inventory::coherent(planner@),
    ensures
        result is Ok <==> {
            &&& !planner@.complete
            &&& page.request.first()@ == planner@.cursor->0@
            &&& page.request.last()@ == planner@.high->0@
            &&& page.request.size()@ == planner@.page_size@
            &&& page.items@.len() <= planner@.page_size@
            &&& forall|i: int|
                0 <= i < page.items@.len() ==> planner@.cursor->0@ <= (
                #[trigger] page.items@[i]).uid@ <= planner@.high->0@
            &&& forall|i: int, j: int|
                0 <= i < j < page.items@.len() ==> (#[trigger] page.items@[i]).uid@ < (
                #[trigger] page.items@[j]).uid@
        },
        result matches Ok(validated) ==> validated.records() == page.items@ && validated.events()
            == page.notifications@,
{
    broadcast use crate::nonzero::lemma_nonzero_u32_view;

}

/// The bounded limits of an acquisition, which are usable for every message size but zero.
pub proof fn law_bounded_limits_are_usable(max_literal_bytes: u64, limits: AcquisitionLimits)
    requires
        call_ensures(AcquisitionLimits::bounded, (max_literal_bytes,), limits),
    ensures
        limits.max_literal_bytes == max_literal_bytes,
        limits.page_size == 1000,
        limits.fetch_batch_size == 30,
        limits.fetch_batch_bytes == 33_554_432,
        limits.max_operation_runtime.seconds == 600,
        limits.max_operation_runtime.nanoseconds == 0,
        limits.usable() <==> max_literal_bytes > 0,
{
}

/// Limits pass as they are where nothing in them is zero and a batch is within 32 messages
/// and 33554432 bytes, and are refused otherwise.
pub proof fn law_usable_limits_pass(
    limits: AcquisitionLimits,
    result: Result<AcquisitionLimits, BichonError>,
)
    requires
        call_ensures(AcquisitionLimits::validate, (limits,), result),
    ensures
        result is Ok <==> {
            &&& limits.max_literal_bytes > 0
            &&& limits.page_size > 0
            &&& limits.max_operation_runtime.seconds > 0
                || limits.max_operation_runtime.nanoseconds > 0
            &&& 0 < limits.fetch_batch_size <= 32
            &&& 0 < limits.fetch_batch_bytes <= 33_554_432
        },
        result matches Ok(passed) ==> passed == limits,
        result matches Err(e) ==> e@.code == ErrorCode::InvalidParameter,
{
}

/// A fetched message is the body with what is known of it; without a size it has the size
/// of its body, and without a body there is none.
pub proof fn law_fetched_message_is_its_body(
    body: Option<Vec<u8>>,
    uid: Option<u32>,
    size: Option<u32>,
    internal_date: Option<i64>,
    result: Option<Fetched>,
)
    requires
        call_ensures(projection::fetched_message, (body, uid, size, internal_date), result),
    ensures
        body is None ==> result is None,
        body is Some ==> {
            &&& result matches Some(fetched)
            &&& fetched.body@ == body->0@
            &&& uid is Some ==> fetched.uid == uid->0
            &&& uid is None ==> fetched.uid == 0
            &&& size is Some ==> fetched.size == size->0
            &&& size is None && body->0@.len() <= u32::MAX ==> fetched.size == body->0@.len()
            &&& internal_date is Some ==> fetched.internal_date == internal_date->0
            &&& internal_date is None ==> fetched.internal_date == 0
        },
{
}

/// An imported message arrives under no UID, with the size of its body and the dates that
/// were given.
pub proof fn law_imported_message_has_no_uid(
    body: &[u8],
    account_id: u64,
    mailbox_id: u64,
    internal_date: i64,
    now: i64,
    arrival: Arrival,
)
    requires
        call_ensures(
            envelope::imported,
            (body, account_id, mailbox_id, internal_date, now),
            arrival,
        ),
    ensures
        arrival.account_id == account_id,
        arrival.mailbox_id == mailbox_id,
        arrival.uid == 0,
        body@.len() <= u32::MAX ==> arrival.size == body@.len(),
        arrival.internal_date == internal_date,
        arrival.now == now,
{
}

/// The value of a hexadecimal digit.
pub open spec fn hex_value(c: char) -> int {
    if '0' <= c <= '9' {
        c as int - 48
    } else {
        c as int - 87
    }
}

/// The number that hexadecimal digits denote.
pub open spec fn hex_number(s: Seq<char>) -> int
    decreases s.len(),
{
    if s.len() == 0 {
        0
    } else {
        16 * hex_number(s.drop_last()) + hex_value(s.last())
    }
}

pub open spec fn hex_digits(s: Seq<char>) -> bool {
    forall|i: int| 0 <= i < s.len() ==> ('0' <= (#[trigger] s[i]) <= '9' || 'a' <= s[i] <= 'f')
}

/// A hexadecimal numeral reads back as its number, with zeros before it or without, and
/// zeros go before it up to the width.
pub proof fn law_hexadecimal_reads_back(n: nat, width: nat)
    ensures
        hex_number(envelope::hexadecimal(n)) == n,
        hex_digits(envelope::hexadecimal(n)),
        hex_number(envelope::zero_padded(envelope::hexadecimal(n), width as int)) == n,
        hex_digits(envelope::zero_padded(envelope::hexadecimal(n), width as int)),
        envelope::zero_padded(envelope::hexadecimal(n), width as int).len() >= width,
{
    lemma_hexadecimal(n);
    let digits = envelope::hexadecimal(n);
    if digits.len() < width {
        lemma_leading_zeros((width - digits.len()) as nat, digits);
    }
}

proof fn lemma_hexadecimal(n: nat)
    ensures
        hex_number(envelope::hexadecimal(n)) == n,
        hex_digits(envelope::hexadecimal(n)),
    decreases n,
{
    reveal_with_fuel(hex_number, 2);
    let digits = envelope::hexadecimal(n);
    if n < 16 {
        assert(digits.drop_last() =~= Seq::empty());
    } else {
        lemma_hexadecimal(n / 16);
        let front = envelope::hexadecimal(n / 16);
        assert(digits.drop_last() =~= front);
        assert forall|i: int| 0 <= i < digits.len() implies ('0' <= (#[trigger] digits[i]) <= '9'
            || 'a' <= digits[i] <= 'f') by {
            if i < front.len() {
                assert(digits[i] == front[i]);
            }
        }
    }
}

proof fn lemma_leading_zeros(zeros: nat, digits: Seq<char>)
    requires
        hex_digits(digits),
    ensures
        hex_number(Seq::new(zeros, |i: int| '0') + digits) == hex_number(digits),
        hex_digits(Seq::new(zeros, |i: int| '0') + digits),
    decreases zeros + digits.len(),
{
    let all = Seq::new(zeros, |i: int| '0') + digits;
    assert forall|i: int| 0 <= i < all.len() implies ('0' <= (#[trigger] all[i]) <= '9' || 'a'
        <= all[i] <= 'f') by {
        if i >= zeros {
            assert(all[i] == digits[i - zeros]);
        }
    }
    if digits.len() > 0 {
        let fewer = digits.drop_last();
        assert forall|i: int| 0 <= i < fewer.len() implies ('0' <= (#[trigger] fewer[i]) <= '9'
            || 'a' <= fewer[i] <= 'f') by {
            assert(fewer[i] == digits[i]);
        }
        lemma_leading_zeros(zeros, fewer);
        assert(all.drop_last() =~= Seq::new(zeros, |i: int| '0') + fewer);
    } else if zeros > 0 {
        lemma_leading_zeros((zeros - 1) as nat, digits);
        assert(all.drop_last() =~= Seq::new((zeros - 1) as nat, |i: int| '0') + digits);
    } else {
        assert(all =~= digits);
    }
}

/// IDs that are made for messages from different numbers are different.
pub proof fn law_made_ids_are_told_apart(
    a: nat,
    b: nat,
    timestamp: int,
    other_timestamp: int,
    pid: nat,
    other_pid: nat,
)
    requires
        envelope::made_message_id(a, timestamp, pid) == envelope::made_message_id(
            b,
            other_timestamp,
            other_pid,
        ),
    ensures
        a == b,
{
    reveal_strlit("<");
    reveal_strlit(".");
    let x = envelope::zero_padded(envelope::hexadecimal(a), 16);
    let y = envelope::zero_padded(envelope::hexadecimal(b), 16);
    law_hexadecimal_reads_back(a, 16);
    law_hexadecimal_reads_back(b, 16);
    let u = "."@ + envelope::signed_numeral(timestamp) + "."@ + text::numeral(pid) + "@bichon>"@;
    let v = "."@ + envelope::signed_numeral(other_timestamp) + "."@ + text::numeral(other_pid)
        + "@bichon>"@;
    let first = envelope::made_message_id(a, timestamp, pid);
    assert(first =~= "<"@ + (x + u));
    assert(envelope::made_message_id(b, other_timestamp, other_pid) =~= "<"@ + (y + v));
    lemma_common_start("<"@, x + u, y + v);
    assert(u[0] == '.');
    assert(v[0] == '.');
    let whole = x + u;
    if x.len() < y.len() {
        assert(whole[x.len() as int] == '.');
        assert((y + v)[x.len() as int] == y[x.len() as int]);
        assert(false);
    }
    if y.len() < x.len() {
        assert((y + v)[y.len() as int] == '.');
        assert(whole[y.len() as int] == x[y.len() as int]);
        assert(false);
    }
    assert(x =~= whole.take(x.len() as int));
    assert(y =~= whole.take(x.len() as int));
}

/// Bytes that are no message have a thread of their own: different places have different
/// roots.
pub proof fn law_places_are_told_apart(a: Arrival, b: Arrival)
    requires
        projection::unparseable_root(a) == projection::unparseable_root(b),
    ensures
        a.account_id == b.account_id,
        a.mailbox_id == b.mailbox_id,
        a.uid == b.uid,
{
    reveal_strlit("-");
    let start = "uidonly-unparseable-"@;
    let n = |x: nat| text::numeral(x);
    let a3 = n(a.uid as nat);
    let b3 = n(b.uid as nat);
    let a2 = n(a.mailbox_id as nat) + ("-"@ + a3);
    let b2 = n(b.mailbox_id as nat) + ("-"@ + b3);
    let a1 = n(a.account_id as nat) + ("-"@ + a2);
    let b1 = n(b.account_id as nat) + ("-"@ + b2);
    assert(projection::unparseable_root(a) =~= start + a1);
    assert(projection::unparseable_root(b) =~= start + b1);
    lemma_common_start(start, a1, b1);
    lemma_number_ends(a.account_id as nat, "-"@ + a2, b.account_id as nat, "-"@ + b2);
    lemma_common_start("-"@, a2, b2);
    lemma_number_ends(a.mailbox_id as nat, "-"@ + a3, b.mailbox_id as nat, "-"@ + b3);
    lemma_common_start("-"@, a3, b3);
    text_laws::law_numerals_are_told_apart(a.uid as nat, b.uid as nat);
}

/// After a page that does not complete the plan, the next one starts right behind the last
/// item, so that no UID is passed over.
pub proof fn law_next_page_starts_behind_the_last_item(
    before: Plan,
    items: Seq<crate::mailbox::InventoryItem>,
    after: Plan,
)
    requires
        inventory::coherent(before),
        inventory::answers(before, items),
        inventory::advances(before, items, after),
    ensures
        !after.complete ==> items.len() > 0 && after.cursor is Some && after.cursor->0@
            == items[items.len() - 1].uid@ + 1,
        after.complete ==> after.cursor is None,
        after.high == before.high,
        after.page_size == before.page_size,
{
}

/// A time is written in decimal, with a sign where it is negative.
pub proof fn law_times_are_written_with_their_sign(n: int)
    ensures
        n >= 0 ==> envelope::signed_numeral(n) == text::numeral(n as nat),
        n < 0 ==> envelope::signed_numeral(n) == "-"@ + text::numeral((-n) as nat),
{
}

/// The UIDs that are missing: those of the server that are not verified, for two lists that
/// grow; lists that do not are refused.
pub proof fn law_missing_uids_are_those_not_verified(
    remote: &[NonZeroU32],
    local: &[NonZeroU32],
    result: Result<Vec<NonZeroU32>, Error>,
    uid: NonZeroU32,
)
    requires
        call_ensures(inventory::missing_verified_uids, (remote, local), result),
    ensures
        result is Ok <==> (forall|i: int, j: int|
            0 <= i < j < remote@.len() ==> (#[trigger] remote@[i])@ < (#[trigger] remote@[j])@) && (
        forall|i: int, j: int|
            0 <= i < j < local@.len() ==> (#[trigger] local@[i])@ < (#[trigger] local@[j])@),
        result matches Ok(missing) ==> (missing@.contains(uid) <==> remote@.contains(uid)
            && !local@.contains(uid)),
        result matches Err(e) ==> e.kind == ErrorKind::InvalidInput,
{
    if result is Ok {
        inventory::law_difference_is_exact(remote@, local@);
    }
}

/// What could not be healed is told as not found; what could is handed on as it is.
pub proof fn law_unhealed_content_is_not_found<B>(
    outcome: Result<B, BichonError>,
    account_id: u64,
    envelope_id: &str,
    content_hash: &str,
    result: Result<B, BichonError>,
)
    requires
        call_ensures(
            recovery::healed::<B>,
            (outcome, account_id, envelope_id, content_hash),
            result,
        ),
    ensures
        outcome matches Ok(body) ==> result == Ok::<B, BichonError>(body),
        outcome is Err ==> result is Err && result->Err_0@.code == ErrorCode::ResourceNotFound,
{
}

/// A message counts as projected once its commit has finished, under the ID and the hash of
/// its envelope, and not before.
pub proof fn law_finished_commits_are_projected(
    commit: crate::commit::Commit,
    envelope: envelope::Envelope,
    result: Option<projection::CanonicalProjection>,
)
    requires
        call_ensures(projection::canonical_projection, (&commit, &envelope), result),
    ensures
        result is Some <==> commit@.step == crate::commit::Step::Finished,
        result matches Some(done) ==> done.envelope_id@ == envelope.id@ && done.content_hash@
            == envelope.content_hash@ && done.created,
{
}

/// What a message is composed with: its arrival, whether it is durable, its content hash,
/// the ID made for it, and the envelope ID that was fixed, if one was.
pub proof fn law_messages_are_given_their_names(
    storage: projection::Storage,
    arrival: Arrival,
    fixed: Option<String>,
    made: String,
    given: projection::Given,
)
    requires
        call_ensures(projection::Given::of, (&storage, arrival, fixed, made), given),
    ensures
        given.arrival == arrival,
        given.durable == storage.durable,
        given.content_hash@ == storage.content_hash@,
        given.made_message_id@ == made@,
        fixed matches Some(id) ==> given.envelope_id@ == id@,
        fixed is None ==> given.envelope_id@.len() == 36,
{
}

} // verus!
