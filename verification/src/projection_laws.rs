//! What holds of projections as a whole: which messages are passed over, and what the archive
//! knows afterwards.

use crate::commit;
use crate::commit::{Happening, Plan, Progress, Step};
use crate::detach::Info;
use crate::envelope::{Indexed, RuleQuestion};
use crate::failure;
use crate::failure::BichonError;
use crate::mime::{Addresses, AttachmentPart, Ids};
use crate::projection;
use crate::projection::{Extraction, Given, Storage};
use vstd::prelude::*;

verus! {

/// A message of a mailbox of an account, by its content hash.
pub ghost struct Known {
    pub account_id: u64,
    pub mailbox_id: u64,
    pub content_hash: Seq<char>,
}

/// The answers say which messages of a mailbox are in the cache.
pub open spec fn tells<C: Fn(&str) -> bool>(
    is_known: C,
    cache: Set<Known>,
    account_id: u64,
    mailbox_id: u64,
) -> bool {
    forall|hash: &str, answer: bool| #[trigger]
        is_known.ensures((hash,), answer) ==> answer == cache.contains(
            Known { account_id, mailbox_id, content_hash: hash@ },
        )
}

/// The content of a message is in the cache.
pub open spec fn is_cached<H: Fn(&[u8]) -> String>(
    body: Seq<u8>,
    compute_content_hash: H,
    cache: Set<Known>,
    account_id: u64,
    mailbox_id: u64,
) -> bool {
    forall|bytes: &[u8], hash: String|
        bytes@ == body && #[trigger] compute_content_hash.ensures((bytes,), hash)
            ==> cache.contains(Known { account_id, mailbox_id, content_hash: hash@ })
}

/// A message whose UID does not matter and whose content is in the cache is passed over,
/// however long it is: nothing is committed of it.
pub proof fn law_cached_messages_are_passed_over<
    A: Fn(&RuleQuestion) -> bool,
    T: Fn(&AttachmentPart, &str, Option<&str>) -> bool,
    H: Fn(&[u8]) -> String,
    K: Fn(&str) -> String,
    C: Fn(&str) -> bool,
    X: Fn(&str) -> String,
>(
    body: Seq<u8>,
    size: u32,
    durable: bool,
    spam_headers: Option<Vec<String>>,
    should_archive: A,
    may_extract: T,
    compute_content_hash: H,
    blob_key: K,
    is_known: C,
    exact_raw_key: X,
    cache: Set<Known>,
    account_id: u64,
    mailbox_id: u64,
    storage: Storage,
    result: Result<Extraction, BichonError>,
)
    requires
        projection::core_extracted(
            body,
            size,
            durable,
            false,
            spam_headers,
            should_archive,
            may_extract,
            compute_content_hash,
            blob_key,
            is_known,
            exact_raw_key,
            storage,
            result,
        ),
        tells(is_known, cache, account_id, mailbox_id),
        is_cached(body, compute_content_hash, cache, account_id, mailbox_id),
    ensures
        projection::surely_known(body, false, compute_content_hash, is_known),
        result == Ok::<Extraction, BichonError>(Extraction::Skipped),
        projection::commit_plan(result->Ok_0, durable) is None,
{
}

/// A message whose UID matters is treated alike whatever is in the cache, so that messages
/// with the same content stay distinct.
pub proof fn law_uid_identity_ignores_the_cache<
    A: Fn(&RuleQuestion) -> bool,
    T: Fn(&AttachmentPart, &str, Option<&str>) -> bool,
    H: Fn(&[u8]) -> String,
    K: Fn(&str) -> String,
    C: Fn(&str) -> bool,
    D: Fn(&str) -> bool,
    X: Fn(&str) -> String,
>(
    body: Seq<u8>,
    size: u32,
    durable: bool,
    spam_headers: Option<Vec<String>>,
    should_archive: A,
    may_extract: T,
    compute_content_hash: H,
    blob_key: K,
    is_known: C,
    is_otherwise_known: D,
    exact_raw_key: X,
    storage: Storage,
    result: Result<Extraction, BichonError>,
)
    requires
        projection::core_extracted(
            body,
            size,
            durable,
            true,
            spam_headers,
            should_archive,
            may_extract,
            compute_content_hash,
            blob_key,
            is_known,
            exact_raw_key,
            storage,
            result,
        ),
    ensures
        projection::core_extracted(
            body,
            size,
            durable,
            true,
            spam_headers,
            should_archive,
            may_extract,
            compute_content_hash,
            blob_key,
            is_otherwise_known,
            exact_raw_key,
            storage,
            result,
        ),
        projection::extracted(
            body,
            size,
            false,
            spam_headers,
            storage,
            should_archive,
            may_extract,
            compute_content_hash,
            blob_key,
            result,
        ),
{
    assert(projection::identified(
        body,
        durable,
        true,
        compute_content_hash,
        is_otherwise_known,
        exact_raw_key,
        storage,
        false,
    ));
}

/// A message that was projected is named by the envelope ID and the content hash that the
/// archive was given, and its content is in the cache afterwards.
pub proof fn law_projected_messages_are_known(
    ids: Ids,
    addresses: Addresses,
    infos: Seq<Info>,
    given: Given,
    envelope: Indexed,
    cache: Set<Known>,
    plan: Plan,
    happenings: Seq<Happening>,
)
    requires
        envelope == projection::composed(ids, addresses, infos, given, envelope) || envelope
            == projection::unparseable(given, envelope),
        commit::committed(commit::at_step(plan, Step::Blobs), happenings) == Ok::<
            Progress,
            failure::Failure,
        >(commit::at_step(plan, Step::Finished)),
    ensures
        envelope.id == given.envelope_id@,
        envelope.content_hash == given.content_hash@,
        commit::cached_after(
            cache,
            (Known {
                account_id: given.arrival.account_id,
                mailbox_id: given.arrival.mailbox_id,
                content_hash: envelope.content_hash,
            }),
            commit::at_step(plan, Step::Blobs),
            happenings,
        ).contains(
            (Known {
                account_id: given.arrival.account_id,
                mailbox_id: given.arrival.mailbox_id,
                content_hash: given.content_hash@,
            }),
        ),
{
    commit::law_finished_commits_are_cached(
        cache,
        Known {
            account_id: given.arrival.account_id,
            mailbox_id: given.arrival.mailbox_id,
            content_hash: envelope.content_hash,
        },
        plan,
        happenings,
    );
}

} // verus!
