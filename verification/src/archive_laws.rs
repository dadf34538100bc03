//! What the archive owes to every message: its commit, its recovery, and its whole self.

use crate::blob;
use crate::commit;
use crate::commit::{Happening, Plan, Progress, Step};
use crate::detach;
use crate::envelope::RuleQuestion;
use crate::failure;
use crate::failure::{BichonError, ErrorCode, Failure};
use crate::mime;
use crate::mime::AttachmentPart;
use crate::projection;
use crate::projection::{Extraction, Storage};
use crate::reattach;
use crate::reattach::Spot;
use crate::recovery;
use crate::recovery::{Missing, Recovery};
use vstd::prelude::*;

verus! {

/// The steps of a commit in which everything goes well: a durable message is committed
/// with its attachments before its envelope, bytes that are no message have no attachments,
/// and a queued message gets its envelope first; all are remembered last.
pub proof fn law_good_commit_takes_its_steps(plan: Plan, n: int)
    requires
        0 <= n <= 4,
    ensures
        ({
            let good = Happening { outcome: Ok(()), cancelled: false };
            let happenings = seq![good, good, good, good];
            let steps = match plan {
                Plan::Durable => seq![
                    Step::Blobs,
                    Step::Attachments,
                    Step::Envelope,
                    Step::Remember,
                    Step::Finished,
                ],
                Plan::Unparseable => seq![
                    Step::Blobs,
                    Step::Envelope,
                    Step::Remember,
                    Step::Finished,
                    Step::Finished,
                ],
                Plan::Queued => seq![
                    Step::Blobs,
                    Step::Envelope,
                    Step::Attachments,
                    Step::Remember,
                    Step::Finished,
                ],
            };
            &&& commit::committed(commit::at_step(plan, Step::Blobs), happenings.take(n)) matches Ok(
                reached,
            )
            &&& reached.plan == plan
            &&& reached.step == steps[n]
            &&& reached.cause is None
        }),
{
    let good = Happening { outcome: Ok(()), cancelled: false };
    let all = seq![good, good, good, good];
    reveal_with_fuel(commit::committed, 6);
    if n > 0 {
        assert(all.take(n).drop_first() =~= all.subrange(1, n));
        if n > 1 {
            assert(all.subrange(1, n).drop_first() =~= all.subrange(2, n));
            if n > 2 {
                assert(all.subrange(2, n).drop_first() =~= all.subrange(3, n));
                if n > 3 {
                    assert(all.subrange(3, n).drop_first() =~= Seq::empty());
                }
            }
        }
    }
}

/// A queued message does not heed a cancellation: it takes the same step as without one.
/// Any other is undone for it, once a step before the last has gone well.
pub proof fn law_cancelled_commits_are_undone(progress: Progress)
    requires
        progress.step == Step::Blobs || progress.step == Step::Attachments || progress.step
            == Step::Envelope,
    ensures
        progress.plan == Plan::Queued ==> commit::advanced(progress, Ok(()), true)
            == commit::advanced(progress, Ok(()), false),
        progress.plan != Plan::Queued ==> {
            &&& commit::advanced(progress, Ok(()), true) matches Ok(next)
            &&& next.plan == progress.plan
            &&& next.step == Step::Undo
            &&& next.cause matches Some(cause)
            &&& cause.code == ErrorCode::InternalError
        },
{
}

/// Blobs that cannot be stored, and a message that cannot be remembered, fail the commit at
/// once; records that cannot be committed undo it, whatever its plan.
pub proof fn law_failed_steps_end_or_undo(
    progress: Progress,
    error: Failure,
    cancelled: bool,
)
    ensures
        progress.step == Step::Blobs || progress.step == Step::Remember ==> commit::advanced(
            progress,
            Err(error),
            cancelled,
        ) == Err::<Progress, Failure>(error),
        progress.step == Step::Attachments || progress.step == Step::Envelope ==> {
            &&& commit::advanced(progress, Err(error), cancelled) matches Ok(next)
            &&& next.plan == progress.plan
            &&& next.step == Step::Undo
            &&& next.cause == Some(error)
        },
        progress.step == Step::Remember ==> {
            &&& commit::advanced(progress, Ok(()), cancelled) matches Ok(next)
            &&& next.step == Step::Finished
            &&& next.plan == progress.plan
        },
{
}

/// What is committed of a message: nothing where it was passed over or cannot be taken
/// apart; everything else has its plan.
pub proof fn law_every_kept_message_has_a_plan(extraction: Extraction, durable: bool)
    ensures
        projection::commit_plan(extraction, durable) is None <==> extraction is Skipped
            || extraction is Overlapping,
        extraction is Unparseable ==> projection::commit_plan(extraction, durable) == Some(
            Plan::Unparseable,
        ),
        extraction is Ready && durable ==> projection::commit_plan(extraction, durable) == Some(
            Plan::Durable,
        ),
        extraction is Ready && !durable ==> projection::commit_plan(extraction, durable) == Some(
            Plan::Queued,
        ),
{
}

/// A message is passed over only where it is known, or where the rules that there are
/// leave it out. A message that is not known and that no rules apply to is never passed
/// over: it is taken apart where it parses; where it does not, it is kept as it is if it is
/// durable, and refused otherwise. A durable message is never given up because its parts
/// overlap.
pub proof fn law_new_messages_are_not_passed_over<
    A: Fn(&RuleQuestion) -> bool,
    T: Fn(&AttachmentPart, &str, Option<&str>) -> bool,
    H: Fn(&[u8]) -> String,
    K: Fn(&str) -> String,
>(
    body: Seq<u8>,
    size: u32,
    known: bool,
    spam_headers: Option<Vec<String>>,
    storage: Storage,
    should_archive: A,
    may_extract: T,
    compute_content_hash: H,
    blob_key: K,
    result: Result<Extraction, BichonError>,
)
    requires
        projection::extracted(
            body,
            size,
            known,
            spam_headers,
            storage,
            should_archive,
            may_extract,
            compute_content_hash,
            blob_key,
            result,
        ),
    ensures
        known ==> result == Ok::<Extraction, BichonError>(Extraction::Skipped),
        result == Ok::<Extraction, BichonError>(Extraction::Skipped) ==> known || (
        spam_headers is Some && exists|question: &RuleQuestion|
            question.size == size && #[trigger] should_archive.ensures((question,), false)),
        !known && mime::parsed_texts(body) is None && storage.durable ==> result == Ok::<
            Extraction,
            BichonError,
        >(Extraction::Unparseable),
        !known && mime::parsed_texts(body) is None && !storage.durable ==> result is Err
            && result->Err_0@.code == ErrorCode::InternalError,
        !known && mime::parsed_texts(body) is Some && spam_headers is None ==> match result {
            Ok(Extraction::Ready(_)) => true,
            Ok(Extraction::Overlapping) => !storage.durable,
            Ok(_) => false,
            Err(e) => e@.code == ErrorCode::PayloadTooLarge,
        },
{
    if !known && mime::parsed_texts(body) is Some {
        if result == Ok::<Extraction, BichonError>(Extraction::Skipped) {
            if let Some(headers) = spam_headers {
                let question = choose|question: &RuleQuestion|
                    projection::asked(body, size, headers@, *question)
                        && #[trigger] should_archive.ensures((question,), false);
                assert(question.size == size);
                assert(should_archive.ensures((question,), false));
            }
        } else {
            let keyed = choose|keyed: Seq<detach::KeyedPart>|
                #[trigger] projection::found_and_keyed(
                    body,
                    storage.durable,
                    may_extract,
                    compute_content_hash,
                    blob_key,
                    keyed,
                ) && projection::taken_apart(body, storage, keyed, result);
            let list = detach::arranged(detach::keyed(keyed));
            lemma_copies_fail_as_too_large(body, list, 0, storage.durable);
        }
    }
}

proof fn lemma_copies_fail_as_too_large(
    body: Seq<u8>,
    parts: Seq<detach::Keyed>,
    sum: int,
    exact: bool,
)
    ensures
        detach::copied(body, parts, sum, exact) matches Err(e) ==> e.code
            == ErrorCode::PayloadTooLarge,
    decreases parts.len(),
{
    if parts.len() > 0 {
        let next = if detach::present(body.len(), parts[0]) {
            sum + detach::end(body.len(), parts[0]) - detach::first(body.len(), parts[0])
        } else {
            sum
        };
        lemma_copies_fail_as_too_large(body, parts.drop_first(), next, exact);
    }
}

/// A durable message that was taken apart is stored as it is, byte for byte, under the key
/// for exact messages; as many attachments are described as it has, and no text is to be
/// read from them.
pub proof fn law_durable_messages_are_stored_exactly(
    body: Seq<u8>,
    storage: Storage,
    keyed: Seq<detach::KeyedPart>,
    result: Result<Extraction, BichonError>,
)
    requires
        projection::taken_apart(body, storage, keyed, result),
        storage.durable,
    ensures
        result matches Ok(extraction) ==> {
            &&& extraction matches Extraction::Ready(ready)
            &&& blob::contents(ready.prepared.detached.email.1) == body
            &&& ready.prepared.detached.email.0@ == storage.exact_raw_key@
            &&& ready.prepared.infos@.len() == keyed.len()
            &&& ready.prepared.detached.attachments@.len() == keyed.len()
            &&& ready.prepared.candidates@.len() == 0
        },
{
    let list = detach::arranged(detach::keyed(keyed));
    detach::law_arranging_orders_the_parts(detach::keyed(keyed));
    detach::law_no_budget_extracts_nothing(list, 0);
    if let Ok(Extraction::Ready(ready)) = result {
        let prepared = ready.prepared;
        assert(detach::infos_of(prepared.infos@).len() == list.len());
        assert(detach::blobs_of(prepared.detached.attachments@).len() == list.len());
        assert(detach::candidates_of(prepared.candidates@).len() == 0);
    }
}

/// A rollback succeeds just where neither of its steps failed, and otherwise tells of every
/// failure, the attachments' before the envelope's.
pub proof fn law_rollback_tells_every_failure(
    attachments: Result<(), String>,
    envelope: Result<(), String>,
)
    ensures
        ({
            let result = recovery::rolled_back(
                recovery::errors_of(attachments) + recovery::errors_of(envelope),
            );
            let start = "UIDONLY canonical rollback failed: "@;
            &&& attachments is Ok && envelope is Ok ==> result == Ok::<(), Failure>(())
            &&& attachments is Err && envelope is Ok ==> result == Err::<(), Failure>(
                failure::failure(ErrorCode::InternalError, start + attachments->Err_0@),
            )
            &&& attachments is Ok && envelope is Err ==> result == Err::<(), Failure>(
                failure::failure(ErrorCode::InternalError, start + envelope->Err_0@),
            )
            &&& attachments is Err && envelope is Err ==> result == Err::<(), Failure>(
                failure::failure(
                    ErrorCode::InternalError,
                    start + (attachments->Err_0@ + "; "@ + envelope->Err_0@),
                ),
            )
        }),
{
    let errors = recovery::errors_of(attachments) + recovery::errors_of(envelope);
    reveal_with_fuel(recovery::joined, 3);
    if attachments is Err && envelope is Ok {
        assert(errors =~= seq![attachments->Err_0@]);
    }
    if attachments is Ok && envelope is Err {
        assert(errors =~= seq![envelope->Err_0@]);
    }
    if attachments is Err && envelope is Err {
        assert(errors =~= seq![attachments->Err_0@, envelope->Err_0@]);
        assert(errors.drop_last() =~= seq![attachments->Err_0@]);
    }
}

/// A message that was fetched again is put back only where it is the archived one and
/// parses; one with another hash is refused as an unexpected result, whatever it holds.
pub proof fn law_only_the_archived_message_is_recovered<
    T: Fn(&AttachmentPart, &str, Option<&str>) -> bool,
    H: Fn(&[u8]) -> String,
>(
    raw: Seq<u8>,
    expected: Seq<char>,
    fetched: Seq<char>,
    may_extract: T,
    compute_content_hash: H,
    result: Result<Recovery, BichonError>,
)
    requires
        recovery::recovered(raw, expected, fetched, may_extract, compute_content_hash, result),
    ensures
        result is Ok ==> expected == fetched && mime::parsed_texts(raw) is Some,
        expected != fetched ==> result is Err && result->Err_0@.code
            == ErrorCode::ImapUnexpectedResult,
        expected == fetched && mime::parsed_texts(raw) is None ==> result is Err
            && result->Err_0@.code == ErrorCode::InternalError,
        expected == fetched && mime::parsed_texts(raw) is Some ==> (result matches Err(e) ==> e@.code
            == ErrorCode::PayloadTooLarge),
        result matches Ok(Recovery::Restored(prepared)) ==> prepared.detached.email.0@ == expected,
{
    if expected == fetched && mime::parsed_texts(raw) is Some {
        let (parts, keyed) = choose|parts: Seq<AttachmentPart>, keyed: Seq<detach::KeyedPart>|
            {
                let list = detach::arranged(detach::keyed(keyed));
                &&& mime::parsed_parts(raw) == Some(mime::parts_of(parts))
                &&& #[trigger] recovery::hashed_parts(
                    raw,
                    parts,
                    may_extract,
                    compute_content_hash,
                    keyed,
                )
                &&& match result {
                    Ok(Recovery::Overlapping) => !detach::cuts_fit(
                        raw.len() as int,
                        raw.len(),
                        list,
                    ),
                    Ok(Recovery::Restored(prepared)) => detach::cuts_fit(
                        raw.len() as int,
                        raw.len(),
                        list,
                    ) && detach::prepared_from(raw, list, fetched, fetched, None, Ok(prepared)),
                    Err(e) => detach::prepared_from(raw, list, fetched, fetched, None, Err(e)),
                }
            };
        let list = detach::arranged(detach::keyed(keyed));
        lemma_copies_fail_as_too_large(raw, list, 0, false);
    }
}

/// What cannot be found is told as such.
pub proof fn law_missing_things_are_not_found(missing: Missing<'_>)
    ensures
        recovery::not_found(missing).code == ErrorCode::ResourceNotFound,
{
}

/// The places where a pattern is found: at each of them it occurs, each lies behind the end
/// of the one before, and every occurrence reaches into one that was found.
pub proof fn law_placeholders_are_found(
    data: Seq<u8>,
    pattern: Seq<u8>,
    from: int,
    i: int,
    at: int,
)
    requires
        0 <= from,
        pattern.len() > 0,
    ensures
        ({
            let found = reattach::occurrences(data, pattern, from);
            &&& 0 <= i < found.len() ==> {
                &&& from <= found[i]
                &&& found[i] + pattern.len() <= data.len()
                &&& data.subrange(found[i], found[i] + pattern.len() as int) == pattern
                &&& i > 0 ==> found[i - 1] + pattern.len() <= found[i]
            }
            &&& from <= at && at + pattern.len() <= data.len() && data.subrange(
                at,
                at + pattern.len() as int,
            ) == pattern ==> exists|k: int|
                0 <= k < found.len() && #[trigger] found[k] <= at < found[k] + pattern.len()
        }),
    decreases data.len() - from,
{
    let found = reattach::occurrences(data, pattern, from);
    let n = pattern.len() as int;
    if from + n <= data.len() {
        if data.subrange(from, from + n) == pattern {
            let rest = reattach::occurrences(data, pattern, from + n);
            assert(found == seq![from] + rest);
            if i > 0 {
                law_placeholders_are_found(data, pattern, from + n, i - 1, at);
                if i < found.len() {
                    assert(found[i] == rest[i - 1]);
                    if i > 1 {
                        assert(found[i - 1] == rest[i - 2]);
                    }
                }
            } else {
                law_placeholders_are_found(data, pattern, from + n, 0, at);
            }
            if from <= at && at + n <= data.len() && data.subrange(at, at + n) == pattern {
                if at < from + n {
                    assert(found[0] <= at < found[0] + n);
                } else {
                    let k = choose|k: int|
                        0 <= k < rest.len() && #[trigger] rest[k] <= at < rest[k] + n;
                    assert(found[k + 1] == rest[k]);
                }
            }
        } else {
            law_placeholders_are_found(data, pattern, from + 1, i, at);
        }
    }
}

/// Ordering placeholders loses and adds none, and puts them from the last to the first.
pub proof fn law_placeholders_are_ordered(list: Seq<Spot>)
    ensures
        reattach::ordered(list).to_multiset() == list.to_multiset(),
        reattach::ordered(list).len() == list.len(),
        forall|i: int, j: int|
            0 <= i < j < list.len() ==> (#[trigger] reattach::ordered(list)[i]).start >= (
            #[trigger] reattach::ordered(list)[j]).start,
    decreases list.len(),
{
    broadcast use vstd::seq_lib::group_to_multiset_ensures;

    if list.len() > 0 {
        let before = reattach::ordered(list.drop_last());
        law_placeholders_are_ordered(list.drop_last());
        let spot = list.last();
        lemma_spot_place(before, spot.start, 0);
        let at = reattach::spot_place(before, spot.start, 0);
        let all = before.insert(at, spot);
        assert(list =~= list.drop_last().push(spot));
        vstd::seq_lib::to_multiset_insert(before, at, spot);
        assert forall|i: int, j: int| 0 <= i < j < all.len() implies (#[trigger] all[i]).start >= (
        #[trigger] all[j]).start by {
            let p = if i < at {
                i
            } else {
                i - 1
            };
            let q = if j < at {
                j
            } else {
                j - 1
            };
            if i != at {
                assert(all[i] == before[p]);
            }
            if j != at {
                assert(all[j] == before[q]);
            }
        }
    }
}

proof fn lemma_spot_place(list: Seq<Spot>, start: usize, from: int)
    requires
        0 <= from <= list.len(),
        forall|i: int| 0 <= i < from ==> (#[trigger] list[i]).start >= start,
        forall|i: int, j: int|
            0 <= i < j < list.len() ==> (#[trigger] list[i]).start >= (#[trigger] list[j]).start,
    ensures
        ({
            let at = reattach::spot_place(list, start, from);
            &&& from <= at <= list.len()
            &&& forall|i: int| 0 <= i < at ==> (#[trigger] list[i]).start >= start
            &&& forall|i: int| at <= i < list.len() ==> (#[trigger] list[i]).start < start
        }),
    decreases list.len() - from,
{
    if from < list.len() && list[from].start >= start {
        lemma_spot_place(list, start, from + 1);
    }
}

/// A stored message is handed out as it is where its hash is that of the original or where
/// it has no attachments; where the attachments are not as many as were counted it is
/// refused; otherwise the placeholders of all of them are put back.
pub proof fn law_whole_messages_need_nothing_put_back(
    stored: Seq<u8>,
    hash_matches: bool,
    attachment_count: usize,
    keys: Seq<Seq<char>>,
)
    ensures
        ({
            let plan = reattach::to_put_back(stored, hash_matches, attachment_count, keys);
            &&& hash_matches || attachment_count == 0 ==> plan == Ok::<
                Option<Seq<Spot>>,
                Failure,
            >(None)
            &&& !hash_matches && attachment_count > 0 && attachment_count != keys.len() ==> plan
                is Err && plan->Err_0.code == ErrorCode::InternalError
            &&& !hash_matches && attachment_count > 0 && attachment_count == keys.len() ==> {
                &&& plan matches Ok(Some(list))
                &&& list.to_multiset() == reattach::spots(stored, keys, 0).to_multiset()
            }
        }),
{
    law_placeholders_are_ordered(reattach::spots(stored, keys, 0));
}

/// The placeholders of a message are those of its attachments one after the other, each
/// with the place of its attachment among the keys.
pub proof fn law_every_attachment_has_its_placeholders(
    data: Seq<u8>,
    keys: Seq<Seq<char>>,
    which: int,
    i: int,
)
    requires
        data.len() <= usize::MAX,
        0 <= which,
        which + keys.len() <= usize::MAX,
        0 <= i < reattach::spots(data, keys, which).len(),
    ensures
        ({
            let spot = reattach::spots(data, keys, which)[i];
            let marker = detach::placeholder(keys[spot.which - which]);
            &&& which <= spot.which < which + keys.len()
            &&& spot.start <= spot.end <= data.len()
            &&& data.subrange(spot.start as int, spot.end as int) == marker
        }),
    decreases keys.len(),
{
    let marker = detach::placeholder(keys[0]);
    reattach::lemma_marker_is_long(keys[0]);
    let starts = reattach::occurrences(data, marker, 0);
    let here = reattach::spots_at(starts, marker.len() as int, which);
    if i < here.len() {
        law_placeholders_are_found(data, marker, 0, i, 0);
    } else {
        let rest = reattach::spots(data, keys.drop_first(), which + 1);
        law_every_attachment_has_its_placeholders(
            data,
            keys.drop_first(),
            which + 1,
            i - here.len(),
        );
        assert(reattach::spots(data, keys, which)[i] == rest[i - here.len()]);
    }
}

/// A placeholder whose attachment is missing stays as it is; one whose attachment was found
/// is replaced by it, and nothing else changes. A placeholder outside of the message, or of
/// no attachment, cannot be replaced.
pub proof fn law_found_attachments_are_put_back(
    data: Seq<u8>,
    spot: Spot,
    blobs: Seq<Option<Seq<u8>>>,
)
    ensures
        spot.which >= blobs.len() ==> !reattach::fits(data.len() as int, seq![spot], blobs),
        spot.which < blobs.len() ==> match blobs[spot.which as int] {
            None => {
                &&& reattach::fits(data.len() as int, seq![spot], blobs)
                &&& reattach::restored(data, seq![spot], blobs) == data
            },
            Some(bytes) => {
                &&& reattach::fits(data.len() as int, seq![spot], blobs) <==> spot.start <= spot.end
                    <= data.len()
                &&& reattach::restored(data, seq![spot], blobs) == data.take(spot.start as int)
                    + bytes + data.skip(spot.end as int)
            },
        },
        reattach::restored(data, Seq::<Spot>::empty(), blobs) == data,
        reattach::fits(data.len() as int, Seq::<Spot>::empty(), blobs),
{
    reveal_with_fuel(reattach::restored, 3);
    reveal_with_fuel(reattach::fits, 3);
    assert(seq![spot].drop_first() =~= Seq::empty());
}

/// Placeholders that already come from the last to the first stay in their order, those at
/// the same place too.
pub proof fn law_ordered_placeholders_stay_in_order(list: Seq<Spot>)
    requires
        forall|i: int, j: int|
            0 <= i < j < list.len() ==> (#[trigger] list[i]).start >= (#[trigger] list[j]).start,
    ensures
        reattach::ordered(list) == list,
    decreases list.len(),
{
    if list.len() > 0 {
        let fewer = list.drop_last();
        assert forall|i: int, j: int| 0 <= i < j < fewer.len() implies (#[trigger] fewer[i]).start
            >= (#[trigger] fewer[j]).start by {
            assert(fewer[i] == list[i]);
            assert(fewer[j] == list[j]);
        }
        law_ordered_placeholders_stay_in_order(fewer);
        let start = list.last().start;
        assert forall|i: int| 0 <= i < fewer.len() implies (#[trigger] fewer[i]).start >= start by {
            assert(fewer[i] == list[i]);
        }
        lemma_spot_place(fewer, start, 0);
        let at = reattach::spot_place(fewer, start, 0);
        if at < fewer.len() {
            assert(fewer[at].start < start);
        }
        assert(fewer.insert(fewer.len() as int, list.last()) =~= list);
    }
}

/// A message is identified by the hash of its very bytes, and an exact copy is kept under
/// the key that is made of that hash; where its UID matters it is never known.
pub proof fn law_messages_are_identified_by_their_bytes<
    H: Fn(&[u8]) -> String,
    C: Fn(&str) -> bool,
    X: Fn(&str) -> String,
>(
    body: Seq<u8>,
    durable: bool,
    preserve_uid_identity: bool,
    compute_content_hash: H,
    is_known: C,
    exact_raw_key: X,
    storage: Storage,
    known: bool,
)
    requires
        projection::identified(
            body,
            durable,
            preserve_uid_identity,
            compute_content_hash,
            is_known,
            exact_raw_key,
            storage,
            known,
        ),
    ensures
        storage.durable == durable,
        exists|bytes: &[u8]|
            bytes@ == body && #[trigger] compute_content_hash.ensures(
                (bytes,),
                storage.content_hash,
            ),
        exists|hash: &str|
            hash@ == storage.content_hash@ && #[trigger] exact_raw_key.ensures(
                (hash,),
                storage.exact_raw_key,
            ),
        preserve_uid_identity ==> !known,
        !preserve_uid_identity ==> exists|hash: &str|
            hash@ == storage.content_hash@ && #[trigger] is_known.ensures((hash,), known),
{
}

/// The attachments of a message that is recovered are keyed by the hashes of their decoded
/// contents, one each and in their order.
pub proof fn law_recovered_parts_are_keyed_by_their_contents<
    T: Fn(&AttachmentPart, &str, Option<&str>) -> bool,
    H: Fn(&[u8]) -> String,
>(
    raw: Seq<u8>,
    parts: Seq<AttachmentPart>,
    may_extract: T,
    compute_content_hash: H,
    keyed: Seq<detach::KeyedPart>,
    i: int,
)
    requires
        recovery::hashed_parts(raw, parts, may_extract, compute_content_hash, keyed),
        0 <= i < parts.len(),
    ensures
        keyed.len() == parts.len(),
        keyed[i].part == parts[i],
        exists|bytes: &[u8]|
            bytes@ == parts[i]@.contents && #[trigger] compute_content_hash.ensures(
                (bytes,),
                keyed[i].key,
            ),
{
    assert(keyed[i].part == parts[i]);
}

/// Whether text may be extracted from a part is asked with its extension and the sender of
/// the message, and the extension is that of its name.
pub proof fn law_eligibility_is_asked_about_the_part<
    T: Fn(&AttachmentPart, &str, Option<&str>) -> bool,
>(
    part: AttachmentPart,
    sender: Option<Seq<char>>,
    may_extract: T,
    ext: Seq<char>,
    eligible: bool,
)
    requires
        detach::traits_found(part, sender, may_extract, ext, eligible),
    ensures
        detach::portably_named(part@.name) ==> ext == detach::small_extension(part@.name),
        exists|shown: &str, from: Option<&str>|
            {
                &&& shown@ == ext
                &&& crate::envelope::seen_ref(from) == sender
                &&& #[trigger] may_extract.ensures((&part, shown, from), eligible)
            },
{
    let (shown, from) = choose|shown: &str, from: Option<&str>|
        {
            &&& shown@ == ext
            &&& crate::envelope::seen_ref(from) == sender
            &&& #[trigger] may_extract.ensures((&part, shown, from), eligible)
        };
    assert(may_extract.ensures((&part, shown, from), eligible));
}

/// A message that parses is taken apart where it is durable or its parts can be replaced,
/// provided that its parts are not too large together; one that is not durable and whose
/// parts cannot be replaced is given up as overlapping.
pub proof fn law_fitting_messages_are_taken_apart(
    body: Seq<u8>,
    storage: Storage,
    keyed: Seq<detach::KeyedPart>,
    result: Result<Extraction, BichonError>,
)
    requires
        projection::taken_apart(body, storage, keyed, result),
    ensures
        ({
            let list = detach::arranged(detach::keyed(keyed));
            let fits = detach::cuts_fit(body.len() as int, body.len(), list);
            let small = detach::copied(body, list, 0, storage.durable) is Ok;
            &&& (storage.durable || fits) && small ==> result is Ok && result->Ok_0 is Ready
            &&& (storage.durable || fits) && !small ==> result is Err
            &&& !storage.durable && !fits ==> result == Ok::<Extraction, BichonError>(
                Extraction::Overlapping,
            )
        }),
{
}

/// A message that was taken apart comes with what was read from its bytes: its texts, its
/// headers, its IDs and its addresses.
pub proof fn law_taken_apart_messages_keep_what_was_read(
    body: Seq<u8>,
    storage: Storage,
    keyed: Seq<detach::KeyedPart>,
    result: Result<Extraction, BichonError>,
)
    requires
        projection::taken_apart(body, storage, keyed, result),
    ensures
        result matches Ok(Extraction::Ready(ready)) ==> {
            &&& mime::parsed_texts(body) == Some(ready.texts@)
            &&& mime::parsed_ids(body) == Some(ready.ids@)
            &&& mime::parsed_addresses(body) == Some(ready.addresses@)
            &&& ready.headers@.subject == mime::raw_header(body, "Subject"@)
            &&& ready.headers@.metadata == mime::raw_header(body, "X-Bichon-Metadata"@)
        },
{
}

} // verus!
