//! What an account is enrolled with, and how a page is cut into batches.

use crate::account::{AccountModel, AuthType, MailBox};
use crate::batches;
use crate::batches::InventoryItem;
use crate::capability;
use crate::capability::CapabilityRoute;
use crate::connection;
use crate::connection::{AcquisitionConnectionIdentity, ImapConnectionManager, Proof};
use crate::enrolment;
use crate::enrolment::{Enrolled, Planned};
use crate::failure::{BichonError, ErrorCode, Failure};
use crate::limits::Duration;
use crate::scope;
use crate::text;
use crate::text_laws;
use vstd::prelude::*;

verus! {

/// The ceilings on the wire: a literal may be as large as a message may be, a command may
/// bring at least that and at least a full batch, and there is room above the literals for
/// what stands around them. Every size that 32 bits hold, but zero, has its ceilings.
pub proof fn law_wire_limits_hold_a_message(max_literal_bytes: u64)
    ensures
        ({
            let full = 33_554_432;
            let result = batches::wire_limits(max_literal_bytes);
            let command = if max_literal_bytes > full {
                max_literal_bytes as int
            } else {
                full
            };
            &&& 0 < max_literal_bytes <= u32::MAX && command + 262_144 <= usize::MAX ==> {
                &&& result matches Ok(limits)
                &&& limits.max_literal_bytes == max_literal_bytes
                &&& limits.max_command_literal_bytes == command
                &&& limits.max_response_bytes == command + 128 * 1024
                &&& limits.max_command_response_bytes == command + 256 * 1024
                &&& limits.max_control_line_bytes == 64 * 1024
                &&& limits.max_command_responses == 2048
                &&& limits.max_command_runtime.seconds == 300
                &&& limits.max_command_runtime.nanoseconds == 0
            }
            &&& !(0 < max_literal_bytes <= u32::MAX && command + 262_144 <= usize::MAX)
                ==> result is Err && result->Err_0.code == ErrorCode::InvalidParameter
        }),
{
}

/// A probe uses the configured message size where the wire can hold it, else the nearest
/// size that it can.
pub proof fn law_probe_uses_the_configured_size(max_literal_bytes: u64)
    ensures
        ({
            let literal = batches::probe_literal(max_literal_bytes);
            &&& literal >= 1
            &&& literal <= u32::MAX
            &&& literal + 262_144 <= usize::MAX
            &&& 1 <= max_literal_bytes <= u32::MAX && max_literal_bytes + 262_144 <= usize::MAX
                ==> literal == max_literal_bytes
            &&& max_literal_bytes == 0 ==> literal == 1
            &&& max_literal_bytes > u32::MAX || max_literal_bytes + 262_144 > usize::MAX
                ==> literal == u32::MAX || literal + 262_144 == usize::MAX
        }),
{
}

/// The size of a batch: what was asked for, or thirty, where neither the server's limit nor
/// the ceiling of 32 messages is smaller; then it is the smallest of them, and at least
/// one.
pub proof fn law_batch_size_is_within_its_limits(requested: Option<u32>, message_limit: u32)
    ensures
        ({
            let size = batches::batch_size(requested, message_limit);
            let asked = if requested is Some {
                requested->0
            } else {
                30
            };
            &&& 1 <= size <= 32
            &&& message_limit >= 1 ==> size <= message_limit
            &&& asked >= 1 ==> size <= asked
            &&& 1 <= asked <= 32 && asked <= message_limit ==> size == asked
            &&& size == 1 || size == 32 || size == asked || size == message_limit
            &&& asked >= 32 && message_limit >= 32 ==> size == 32
            &&& 1 <= message_limit <= 32 && message_limit <= asked ==> size == message_limit
        }),
{
}

/// The declared bytes of some messages: their sizes together, each at least one.
pub proof fn law_declared_bytes_add_up(items: Seq<InventoryItem>, item: InventoryItem)
    ensures
        batches::total(Seq::<InventoryItem>::empty()) == 0,
        item.rfc822_size > 0 ==> batches::total(items.push(item)) == batches::total(items)
            + item.rfc822_size,
        item.rfc822_size == 0 ==> batches::total(items.push(item)) == batches::total(items) + 1,
{
    assert(items.push(item).drop_last() =~= items);
}

proof fn lemma_first_batch_is_full(
    items: Seq<InventoryItem>,
    n: int,
    count_limit: u32,
    byte_limit: u64,
)
    requires
        1 <= n <= items.len(),
    ensures
        ({
            let m = batches::first_batch(items, n, count_limit, byte_limit);
            &&& n <= m <= items.len()
            &&& m < items.len() ==> !batches::joins(items, m, count_limit, byte_limit)
        }),
    decreases items.len() - n,
{
    if n < items.len() && batches::joins(items, n, count_limit, byte_limit) {
        lemma_first_batch_is_full(items, n + 1, count_limit, byte_limit);
    }
}

/// Batches are as long as they may be: the first message of a batch would not have fitted
/// into the batch before, which holds as many as it may or would have passed the bytes that
/// it may hold.
pub proof fn law_batches_are_as_long_as_they_may(
    items: Seq<InventoryItem>,
    count_limit: u32,
    byte_limit: u64,
    k: int,
)
    requires
        0 <= k < batches::planned(items, count_limit, byte_limit).len() - 1,
    ensures
        ({
            let all = batches::planned(items, count_limit, byte_limit);
            &&& all[k + 1].len() > 0
            &&& all[k].len() >= count_limit || batches::capped(
                batches::total(all[k].push(all[k + 1][0])),
            ) > byte_limit
        }),
    decreases items.len(),
{
    let all = batches::planned(items, count_limit, byte_limit);
    assert(items.len() > 0);
    lemma_first_batch_is_full(items, 1, count_limit, byte_limit);
    let n = batches::first_batch(items, 1, count_limit, byte_limit);
    let rest = batches::planned(items.skip(n), count_limit, byte_limit);
    assert(all =~= seq![items.take(n)] + rest);
    if k > 0 {
        law_batches_are_as_long_as_they_may(items.skip(n), count_limit, byte_limit, k - 1);
        assert(all[k] == rest[k - 1]);
        assert(all[k + 1] == rest[k]);
    } else {
        batches::law_batches_keep_limits(items, count_limit, byte_limit, 1);
        batches::law_batches_hold_every_message_once(items.skip(n), count_limit, byte_limit);
        assert(rest.len() > 0);
        assert(rest[0][0] == items[n]) by {
            assert(batches::joined(rest) == rest[0] + batches::joined(rest.drop_first()));
            assert(items.skip(n)[0] == items[n]);
        }
        assert(all[1] == rest[0]);
        law_declared_bytes_add_up(items.take(n), items[n]);
        assert(all[0].push(all[1][0]) =~= items.take(n).push(items[n]));
    }
}

/// Messages that fit together come in one batch.
pub proof fn law_fitting_messages_come_together(
    items: Seq<InventoryItem>,
    count_limit: u32,
    byte_limit: u64,
)
    requires
        0 < items.len() <= count_limit,
        batches::total(items) <= byte_limit,
    ensures
        batches::planned(items, count_limit, byte_limit) == seq![items],
{
    lemma_prefix_is_smaller(items, 1);
    lemma_all_join(items, 1, count_limit, byte_limit);
    let n = batches::first_batch(items, 1, count_limit, byte_limit);
    assert(items.take(n) =~= items);
    assert(items.skip(n) =~= Seq::empty());
    let rest = batches::planned(items.skip(n), count_limit, byte_limit);
    assert(rest.len() == 0);
    assert(batches::planned(items, count_limit, byte_limit) == seq![items.take(n)] + rest);
    assert(seq![items] + rest =~= seq![items]);
}

proof fn lemma_prefix_is_smaller(items: Seq<InventoryItem>, n: int)
    requires
        0 <= n <= items.len(),
    ensures
        0 <= batches::total(items.take(n)) <= batches::total(items),
    decreases items.len(),
{
    if n == items.len() {
        assert(items.take(n) =~= items);
        if n > 0 {
            lemma_prefix_is_smaller(items.drop_last(), n - 1);
            assert(items.drop_last().take(n - 1) =~= items.drop_last());
        }
    } else {
        lemma_prefix_is_smaller(items.drop_last(), n);
        assert(items.drop_last().take(n) =~= items.take(n));
    }
}

proof fn lemma_all_join(items: Seq<InventoryItem>, n: int, count_limit: u32, byte_limit: u64)
    requires
        1 <= n <= items.len() <= count_limit,
        batches::total(items) <= byte_limit,
    ensures
        batches::first_batch(items, n, count_limit, byte_limit) == items.len(),
    decreases items.len() - n,
{
    if n < items.len() {
        lemma_prefix_is_smaller(items, n + 1);
        assert(items.take(n + 1).drop_last() =~= items.take(n));
        assert(items.take(n + 1).last() == items[n]);
        assert(batches::joins(items, n, count_limit, byte_limit));
        lemma_all_join(items, n + 1, count_limit, byte_limit);
    }
}

/// What is decided before a connection is made. A server counts as limited where that is
/// asked for, where the account remembers it, or where the mailbox was proven against this
/// very source; an account with rules enabled cannot be enrolled with such a server, and
/// every other account with a complete source can.
pub proof fn law_account_is_planned_for(
    account: AccountModel,
    mailbox: MailBox,
    force_uidonly: bool,
)
    ensures
        match scope::source_of(account) {
            Err(e) => enrolment::planned(account, mailbox, force_uidonly) == Err::<
                Planned,
                Failure,
            >(e),
            Ok(source) => {
                let proven = mailbox.uidonly_source_scope is Some
                    && mailbox.uidonly_source_scope->0@ == source;
                let limited = force_uidonly || capability::remembered_limited(account) || proven;
                let rules = account.archive_rules is Some && account.archive_rules->0.enabled;
                let result = enrolment::planned(account, mailbox, force_uidonly);
                &&& limited && rules ==> result is Err && result->Err_0.code
                    == ErrorCode::Incompatible
                &&& !(limited && rules) ==> {
                    &&& result matches Ok(plan)
                    &&& plan.source_scope == source
                    &&& plan.known_limited == limited
                    &&& account.max_email_size_bytes is Some ==> plan.max_literal
                        == account.max_email_size_bytes->0
                    &&& account.max_email_size_bytes is None ==> plan.max_literal == 104_857_600
                    &&& plan.wire_limits.max_literal_bytes == batches::probe_literal(
                        plan.max_literal,
                    )
                }
            },
        },
{
    batches::law_probe_limits_always_fit(enrolment::message_size_limit(account));
}

/// The limits of an acquisition: pages as large as the server allows, at most a thousand
/// messages, and batches within their limits.
pub proof fn law_acquisition_limits_fit_the_server(
    account: AccountModel,
    max_literal: u64,
    message_limit: u32,
)
    ensures
        ({
            let limits = enrolment::acquisition_limits(account, max_literal, message_limit);
            &&& limits.max_literal_bytes == max_literal
            &&& 1 <= limits.page_size <= 1000
            &&& message_limit >= 1 ==> limits.page_size <= message_limit
            &&& limits.page_size == 1000 || limits.page_size == message_limit || message_limit == 0
            &&& limits.fetch_batch_size == batches::batch_size(
                account.download_batch_size,
                message_limit,
            )
            &&& limits.fetch_batch_bytes == 33_554_432
            &&& limits.max_operation_runtime.seconds == 600
            &&& limits.max_operation_runtime.nanoseconds == 0
        }),
{
}

/// Which way an account is acquired once the capabilities are known. An ordinary server is
/// acquired the ordinary way unless it is known to be limited. A server with the full set
/// is acquired by UID where the account allows it, has no rules enabled and its limits and
/// scopes are sound; the acquisition resumes behind the highest UID just where the mailbox
/// was proven against the same source.
pub proof fn law_sound_account_is_enrolled(
    account: AccountModel,
    mailbox: MailBox,
    plan: Planned,
    capabilities: Seq<String>,
    message_limit: u32,
)
    ensures
        ({
            let result = enrolment::routed(account, mailbox, plan, capabilities);
            let route = capability::classified(capabilities);
            let rules = account.archive_rules is Some && account.archive_rules->0.enabled;
            &&& route == Ok::<CapabilityRoute, Failure>(CapabilityRoute::Legacy)
                && !plan.known_limited ==> result == Ok::<Option<Enrolled>, Failure>(None)
            &&& route == Ok::<CapabilityRoute, Failure>(CapabilityRoute::Legacy)
                && plan.known_limited ==> result is Err
            &&& route is Err ==> result is Err
            &&& route == Ok::<CapabilityRoute, Failure>(CapabilityRoute::UidOnly { message_limit })
                ==> {
                let wire = batches::wire_limits(plan.max_literal);
                let connection_scope = scope::connection_of(account);
                let sound = account.uidonly_enabled && !rules && wire is Ok
                    && connection_scope is Ok;
                &&& !sound ==> result is Err
                &&& sound ==> {
                    &&& result matches Ok(Some(enrolled))
                    &&& enrolled.source_scope == plan.source_scope
                    &&& enrolled.connection_scope == connection_scope->Ok_0
                    &&& enrolled.wire_limits == wire->Ok_0
                    &&& enrolled.limits == enrolment::acquisition_limits(
                        account,
                        plan.max_literal,
                        message_limit,
                    )
                    &&& mailbox.uidonly_source_scope is Some && mailbox.uidonly_source_scope->0@
                        == plan.source_scope ==> enrolled.resume_after == mailbox.highest_uid
                    &&& mailbox.uidonly_source_scope is None || mailbox.uidonly_source_scope->0@
                        != plan.source_scope ==> enrolled.resume_after is None
                }
            }
        }),
{
}

/// An account passes as unchanged just where both of its scopes are those that the
/// acquisition started with and no rules were enabled meanwhile.
pub proof fn law_unchanged_account_goes_on(
    current: AccountModel,
    source_scope: Seq<char>,
    connection_scope: Seq<char>,
)
    ensures
        enrolment::unchanged(current, source_scope, connection_scope) is Ok <==> {
            &&& scope::source_of(current) == Ok::<Seq<char>, Failure>(source_scope)
            &&& scope::connection_of(current) == Ok::<Seq<char>, Failure>(connection_scope)
            &&& current.archive_rules is None || !current.archive_rules->0.enabled
        },
{
}

/// A new connection may be made just where the connection scope is the one that the
/// acquisition started with.
pub proof fn law_reconnecting_needs_the_same_scope(
    current: AccountModel,
    frozen: String,
    result: Result<(), BichonError>,
)
    requires
        call_ensures(enrolment::may_reconnect, (&current, &frozen), result),
    ensures
        result is Ok <==> scope::connection_of(current) == Ok::<Seq<char>, Failure>(frozen@),
{
}

/// A new connection is good just where the server still has the full set, with a limit that
/// is not below the page size.
pub proof fn law_new_connection_keeps_the_page_size(
    capabilities: &[String],
    page_size: u32,
    result: Result<(), BichonError>,
)
    requires
        call_ensures(enrolment::check_reconnected, (capabilities, page_size), result),
    ensures
        result is Ok <==> (capability::classified(capabilities@) matches Ok(
            CapabilityRoute::UidOnly { message_limit },
        ) && page_size <= message_limit),
{
}

/// UIDONLY is used only for accounts that allow it; an ordinary route needs no leave.
pub proof fn law_uidonly_needs_leave(
    account: AccountModel,
    route: CapabilityRoute,
    result: Result<(), BichonError>,
)
    requires
        call_ensures(capability::require_uidonly_opt_in, (&account, route), result),
    ensures
        result is Ok <==> account.uidonly_enabled || route == CapabilityRoute::Legacy,
        result matches Err(e) ==> e@.code == ErrorCode::Incompatible,
{
}

/// A failed attempt to connect is followed by another after a second, twice, where the
/// network failed; any other failure stands.
pub proof fn law_connecting_is_tried_three_times(
    attempt: u32,
    error: BichonError,
    result: Result<Duration, BichonError>,
)
    requires
        call_ensures(ImapConnectionManager::after_failed_attempt, (attempt, error), result),
    ensures
        result is Ok <==> error.code == ErrorCode::NetworkError && attempt <= 1,
        result matches Ok(wait) ==> wait.seconds == 1 && wait.nanoseconds == 0,
        result matches Err(e) ==> e == error,
{
}

/// A connection may go on just where the account still has the identity that is expected
/// of it, if one is.
pub proof fn law_identity_is_checked(
    account: AccountModel,
    expected: Option<&AcquisitionConnectionIdentity>,
    result: Result<AcquisitionConnectionIdentity, BichonError>,
)
    requires
        call_ensures(ImapConnectionManager::check_identity, (&account, expected), result),
    ensures
        account.imap is None ==> result is Err,
        account.imap is Some && expected is None ==> result is Ok,
        account.imap is Some && expected is Some ==> (result is Ok <==> connection::identity_of(
            account,
        )->Ok_0 == expected->0@),
        result matches Ok(identity) ==> connection::identity_of(account)
            == Ok::<connection::Identity, Failure>(identity@),
{
}

/// Two accounts with one identity log in as the same principal at the same endpoint, case
/// of the host aside, and by the same means.
pub proof fn law_identity_tells_accounts_apart(a: AccountModel, b: AccountModel)
    requires
        a.imap is Some,
        b.imap is Some,
        connection::identity_of(a) == connection::identity_of(b),
    ensures
        a.principal() == b.principal(),
        text::lowercase(a.imap->0.host@) == text::lowercase(b.imap->0.host@),
        a.imap->0.port == b.imap->0.port,
        a.imap->0.encryption == b.imap->0.encryption,
        a.imap->0.auth.auth_type == b.imap->0.auth.auth_type,
        a.imap->0.use_proxy == b.imap->0.use_proxy,
        a.use_dangerous == b.use_dangerous,
{
    let x = text::lowercase(a.imap->0.host@);
    let y = text::lowercase(b.imap->0.host@);
    let m = text::numeral(a.imap->0.port as nat);
    let n = text::numeral(b.imap->0.port as nat);
    text_laws::law_numerals_read_back(a.imap->0.port as nat);
    text_laws::law_numerals_read_back(b.imap->0.port as nat);
    reveal_strlit(":");
    let whole = x + ":"@ + m;
    assert(whole == y + ":"@ + n);
    if m.len() < n.len() {
        let at = x.len() as int;
        assert(whole[at] == ':');
        assert((y + ":"@ + n)[at] == n[at - y.len() - 1]);
        assert(false);
    }
    if n.len() < m.len() {
        let at = y.len() as int;
        assert((y + ":"@ + n)[at] == ':');
        assert(whole[at] == m[at - x.len() - 1]);
        assert(false);
    }
    assert(x =~= whole.take(x.len() as int));
    assert(y =~= whole.take(x.len() as int));
    assert(m =~= whole.skip(x.len() as int + 1));
    assert(n =~= whole.skip(x.len() as int + 1));
    text_laws::law_numerals_are_told_apart(
        a.imap->0.port as nat,
        b.imap->0.port as nat,
    );
}

/// The credential of an account: its password or its access token, as it authenticates,
/// under its principal; without the one that it needs there is none.
pub proof fn law_credential_is_what_the_account_uses(
    account: AccountModel,
    auth_type: AuthType,
    password: Option<String>,
    token: Option<String>,
)
    ensures
        ({
            let proof_of = connection::credential_of(account, auth_type, password, token);
            &&& auth_type == AuthType::Password && password is Some ==> proof_of == Ok::<
                Proof,
                Failure,
            >(Proof::Password { login: account.principal(), encrypted_password: password->0@ })
            &&& auth_type == AuthType::OAuth2 && token is Some ==> proof_of == Ok::<Proof, Failure>(
                Proof::OAuth2 { login: account.principal(), access_token: token->0@ },
            )
            &&& auth_type == AuthType::Password && password is None ==> proof_of is Err
                && proof_of->Err_0.code == ErrorCode::MissingConfiguration
            &&& auth_type == AuthType::OAuth2 && token is None ==> proof_of is Err
                && proof_of->Err_0.code == ErrorCode::MissingConfiguration
            &&& account.login_name is Some ==> account.principal() == account.login_name->0@
            &&& account.login_name is None ==> account.principal() == account.email@
        }),
{
}

/// A source is complete with a host, a principal and a port, and only then has a scope.
pub proof fn law_complete_source_has_a_scope(account: AccountModel)
    ensures
        ({
            let complete = account.imap is Some && scope::canonical_host(
                account.imap->0.host@,
            ).len() > 0 && account.principal().len() > 0 && account.imap->0.port > 0;
            &&& scope::source_of(account) is Ok <==> complete
            &&& scope::source_of(account) matches Err(e) ==> e.code
                == ErrorCode::MissingConfiguration
        }),
{
}

/// A host is the same source with white space around it, dots behind it, and in whatever
/// case.
pub proof fn law_host_is_read_generously(
    before: Seq<char>,
    host: Seq<char>,
    dots: nat,
    after: Seq<char>,
)
    requires
        host.len() > 0,
        !text::white(host[0]),
        !text::white(host[host.len() - 1]),
        host[host.len() - 1] != '.',
        forall|i: int| 0 <= i < before.len() ==> text::white(#[trigger] before[i]),
        forall|i: int| 0 <= i < after.len() ==> text::white(#[trigger] after[i]),
    ensures
        scope::canonical_host(before + (host + Seq::new(dots, |i: int| '.')) + after)
            == text::lowercase(host),
{
    let tail = Seq::new(dots, |i: int| '.');
    let inner = host + tail;
    assert(inner[0] == host[0]);
    if dots > 0 {
        assert(inner[inner.len() - 1] == '.');
    } else {
        assert(inner =~= host);
    }
    text_laws::law_trimming_keeps_what_is_inside(before, inner, after);
    lemma_trailing_dots(host, dots);
}

proof fn lemma_trailing_dots(host: Seq<char>, dots: nat)
    requires
        host.len() > 0,
        host[host.len() - 1] != '.',
    ensures
        text::without_trailing(host + Seq::new(dots, |i: int| '.'), |c: char| c == '.') == host,
    decreases dots,
{
    let all = host + Seq::new(dots, |i: int| '.');
    if dots > 0 {
        lemma_trailing_dots(host, (dots - 1) as nat);
        assert(all.drop_last() =~= host + Seq::new((dots - 1) as nat, |i: int| '.'));
    } else {
        assert(all =~= host);
    }
}

} // verus!
