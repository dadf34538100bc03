//! How an account and a mailbox come to an acquisition, and what must still hold of
//! them at its end.

use crate::account::{AccountModel, MailBox};
use crate::batches;
use crate::batches::{
    effective_fetch_batch_size, protocol_limits, protocol_probe_literal, AcquisitionLimits,
    UidOnlyLimits, DEFAULT_MAX_EMAIL_SIZE, UIDONLY_DEFAULT_PAGE_SIZE,
};
use crate::capability;
use crate::capability::{
    account_requires_uidonly, classify_capabilities, require_uidonly_opt_in, CapabilityRoute,
};
use crate::failure;
use crate::failure::{raise, BichonError, ErrorCode};
use crate::limits::Duration;
use crate::scope;
use crate::scope::{connection_scope, source_scope};
use vstd::prelude::*;

verus! {

/// What is decided before a connection is made.
#[derive(Debug, PartialEq, Eq)]
pub struct ConnectPlan {
    pub source_scope: String,
    pub known_limited: bool,
    pub max_literal: u64,
    pub wire_limits: UidOnlyLimits,
}

/// The view of a [`ConnectPlan`].
#[verifier::ext_equal]
pub ghost struct Planned {
    pub source_scope: Seq<char>,
    pub known_limited: bool,
    pub max_literal: u64,
    pub wire_limits: UidOnlyLimits,
}

impl View for ConnectPlan {
    type V = Planned;

    open spec fn view(&self) -> Planned {
        Planned {
            source_scope: self.source_scope@,
            known_limited: self.known_limited,
            max_literal: self.max_literal,
            wire_limits: self.wire_limits,
        }
    }
}

/// What is decided once the server's capabilities are known.
#[derive(Debug, PartialEq, Eq)]
pub struct UidOnlyPlan {
    pub source_scope: String,
    pub connection_scope: String,
    pub wire_limits: UidOnlyLimits,
    pub limits: AcquisitionLimits,
    pub resume_after: Option<u32>,
}

/// The view of a [`UidOnlyPlan`].
#[verifier::ext_equal]
pub ghost struct Enrolled {
    pub source_scope: Seq<char>,
    pub connection_scope: Seq<char>,
    pub wire_limits: UidOnlyLimits,
    pub limits: AcquisitionLimits,
    pub resume_after: Option<u32>,
}

impl View for UidOnlyPlan {
    type V = Enrolled;

    open spec fn view(&self) -> Enrolled {
        Enrolled {
            source_scope: self.source_scope@,
            connection_scope: self.connection_scope@,
            wire_limits: self.wire_limits,
            limits: self.limits,
            resume_after: self.resume_after,
        }
    }
}

/// Where an acquisition connection leads.
#[derive(Debug, PartialEq, Eq)]
pub enum ConnectRoute {
    Legacy,
    UidOnly(UidOnlyPlan),
}

pub open spec fn rules_refused() -> failure::Failure {
    failure::failure(
        ErrorCode::Incompatible,
        "UIDONLY acquisition does not yet support enabled archive rules"@,
    )
}

/// The mailbox was proven complete against the source `scope`.
pub open spec fn proven_in(mailbox: MailBox, scope: Seq<char>) -> bool {
    mailbox.uidonly_source_scope matches Some(known) && known@ == scope
}

pub open spec fn message_size_limit(account: AccountModel) -> u64 {
    match account.max_email_size_bytes {
        Some(size) => size,
        None => DEFAULT_MAX_EMAIL_SIZE,
    }
}

/// What is decided before a connection is made.
pub open spec fn planned(account: AccountModel, mailbox: MailBox, force_uidonly: bool) -> Result<
    Planned,
    failure::Failure,
> {
    match scope::source_of(account) {
        Err(e) => Err(e),
        Ok(source_scope) => {
            let known_limited = force_uidonly || capability::remembered_limited(account)
                || proven_in(mailbox, source_scope);
            let max_literal = message_size_limit(account);
            if known_limited && account.ruled() {
                Err(rules_refused())
            } else {
                match batches::wire_limits(batches::probe_literal(max_literal) as u64) {
                    Err(e) => Err(e),
                    Ok(wire_limits) => Ok(
                        Planned { source_scope, known_limited, max_literal, wire_limits },
                    ),
                }
            }
        },
    }
}

/// The limits of an acquisition from a server with this message limit.
pub open spec fn acquisition_limits(
    account: AccountModel,
    max_literal: u64,
    message_limit: u32,
) -> AcquisitionLimits {
    AcquisitionLimits {
        max_literal_bytes: max_literal,
        max_operation_runtime: Duration { seconds: 600, nanoseconds: 0 },
        page_size: if message_limit == 0 {
            1
        } else if message_limit < UIDONLY_DEFAULT_PAGE_SIZE {
            message_limit
        } else {
            UIDONLY_DEFAULT_PAGE_SIZE
        },
        fetch_batch_size: batches::batch_size(account.download_batch_size, message_limit),
        fetch_batch_bytes: batches::UIDONLY_FETCH_BATCH_BYTES,
    }
}

/// What is decided once the server's capabilities are known: `None` for the ordinary
/// route.
pub open spec fn routed(
    account: AccountModel,
    mailbox: MailBox,
    plan: Planned,
    capabilities: Seq<String>,
) -> Result<Option<Enrolled>, failure::Failure> {
    match capability::classified(capabilities) {
        Err(e) => Err(e),
        Ok(CapabilityRoute::Legacy) => if plan.known_limited {
            Err(
                failure::failure(
                    ErrorCode::Incompatible,
                    "Known limited server omitted UIDONLY capabilities on the acquisition connection"@,
                ),
            )
        } else {
            Ok(None)
        },
        Ok(CapabilityRoute::UidOnly { message_limit }) => if !account.uidonly_enabled {
            Err(
                failure::failure(
                    ErrorCode::Incompatible,
                    "Server requires UIDONLY acquisition; enable uidonly_enabled for this account after reviewing the storage transition"@,
                ),
            )
        } else {
            match (batches::wire_limits(plan.max_literal), scope::connection_of(account)) {
                (Err(e), _) => Err(e),
                (Ok(wire_limits), connection) => if account.ruled() {
                    Err(rules_refused())
                } else {
                    match connection {
                        Err(e) => Err(e),
                        Ok(connection_scope) => Ok(
                            Some(
                                Enrolled {
                                    source_scope: plan.source_scope,
                                    connection_scope,
                                    wire_limits,
                                    limits: acquisition_limits(
                                        account,
                                        plan.max_literal,
                                        message_limit,
                                    ),
                                    resume_after: if proven_in(mailbox, plan.source_scope) {
                                        mailbox.highest_uid
                                    } else {
                                        None
                                    },
                                },
                            ),
                        ),
                    }
                },
            }
        },
    }
}

fn is_proven_in(mailbox: &MailBox, scope: &String) -> (result: bool)
    ensures
        result == proven_in(*mailbox, scope@),
{
    match &mailbox.uidonly_source_scope {
        Some(known) => *known == *scope,
        None => false,
    }
}

/// Decides what holds before a connection is made.
pub fn plan_connection(account: &AccountModel, mailbox: &MailBox, force_uidonly: bool) -> (result:
    Result<ConnectPlan, BichonError>)
    ensures
        match result {
            Ok(plan) => planned(*account, *mailbox, force_uidonly) == Ok::<
                Planned,
                failure::Failure,
            >(plan@),
            Err(e) => planned(*account, *mailbox, force_uidonly) == Err::<
                Planned,
                failure::Failure,
            >(e@),
        },
{
    let source_scope = match source_scope(account) {
        Err(e) => {
            return Err(e);
        },
        Ok(source_scope) => source_scope,
    };
    let known_limited = force_uidonly || account_requires_uidonly(account) || is_proven_in(
        mailbox,
        &source_scope,
    );
    if known_limited && account.has_enabled_rules() {
        return Err(
            raise(
                ErrorCode::Incompatible,
                "UIDONLY acquisition does not yet support enabled archive rules",
            ),
        );
    }
    let max_literal: u64 = match account.max_email_size_bytes {
        Some(size) => size,
        None => DEFAULT_MAX_EMAIL_SIZE,
    };
    match protocol_limits(protocol_probe_literal(max_literal)) {
        Err(e) => Err(e),
        Ok(wire_limits) => Ok(
            ConnectPlan { source_scope, known_limited, max_literal, wire_limits },
        ),
    }
}

/// Decides the route once the server's capabilities are known.
pub fn route_connection(
    account: &AccountModel,
    mailbox: &MailBox,
    plan: ConnectPlan,
    capabilities: &[String],
) -> (result: Result<ConnectRoute, BichonError>)
    ensures
        match result {
            Ok(ConnectRoute::Legacy) => routed(*account, *mailbox, plan@, capabilities@) == Ok::<
                Option<Enrolled>,
                failure::Failure,
            >(None),
            Ok(ConnectRoute::UidOnly(enrolled)) => routed(
                *account,
                *mailbox,
                plan@,
                capabilities@,
            ) == Ok::<Option<Enrolled>, failure::Failure>(Some(enrolled@)),
            Err(e) => routed(*account, *mailbox, plan@, capabilities@) == Err::<
                Option<Enrolled>,
                failure::Failure,
            >(e@),
        },
{
    let route = match classify_capabilities(capabilities) {
        Err(e) => {
            return Err(e);
        },
        Ok(route) => route,
    };
    match require_uidonly_opt_in(account, route) {
        Err(e) => {
            return Err(e);
        },
        Ok(()) => {},
    }
    let message_limit = match route {
        CapabilityRoute::Legacy => {
            if plan.known_limited {
                return Err(
                    raise(
                        ErrorCode::Incompatible,
                        "Known limited server omitted UIDONLY capabilities on the acquisition connection",
                    ),
                );
            }
            return Ok(ConnectRoute::Legacy);
        },
        CapabilityRoute::UidOnly { message_limit } => message_limit,
    };
    let wire_limits = match protocol_limits(plan.max_literal) {
        Err(e) => {
            return Err(e);
        },
        Ok(wire_limits) => wire_limits,
    };
    if account.has_enabled_rules() {
        return Err(
            raise(
                ErrorCode::Incompatible,
                "UIDONLY acquisition does not yet support enabled archive rules",
            ),
        );
    }
    let connection_scope = match connection_scope(account) {
        Err(e) => {
            return Err(e);
        },
        Ok(connection_scope) => connection_scope,
    };
    let resume_after = if is_proven_in(mailbox, &plan.source_scope) {
        mailbox.highest_uid
    } else {
        None
    };
    let mut limits = AcquisitionLimits::bounded(plan.max_literal);
    limits.page_size = if message_limit == 0 {
        1
    } else if message_limit < UIDONLY_DEFAULT_PAGE_SIZE {
        message_limit
    } else {
        UIDONLY_DEFAULT_PAGE_SIZE
    };
    limits.fetch_batch_size = effective_fetch_batch_size(
        account.download_batch_size,
        message_limit,
    );
    Ok(
        ConnectRoute::UidOnly(
            UidOnlyPlan {
                source_scope: plan.source_scope,
                connection_scope,
                wire_limits,
                limits,
                resume_after,
            },
        ),
    )
}

/// The account is as it was when the acquisition started.
pub open spec fn unchanged(
    current: AccountModel,
    source_scope: Seq<char>,
    connection_scope: Seq<char>,
) -> Result<(), failure::Failure> {
    let changed = Err(
        failure::failure(
            ErrorCode::Incompatible,
            "UIDONLY account source, connection policy, or archive rules changed during acquisition"@,
        ),
    );
    match (scope::source_of(current), scope::connection_of(current)) {
        (Err(e), _) => Err(e),
        (Ok(source), connection) => if source != source_scope {
            changed
        } else {
            match connection {
                Err(e) => Err(e),
                Ok(connection) => if connection != connection_scope || current.ruled() {
                    changed
                } else {
                    Ok(())
                },
            }
        },
    }
}

/// Confirms, at the end of an acquisition, that the account is as it was.
pub fn confirm_unchanged(current: &AccountModel, frozen: &UidOnlyPlan) -> (result: Result<
    (),
    BichonError,
>)
    ensures
        failure::judged(result) == unchanged(
            *current,
            frozen.source_scope@,
            frozen.connection_scope@,
        ),
{
    let source = match source_scope(current) {
        Err(e) => {
            return Err(e);
        },
        Ok(source) => source,
    };
    let mut changed = source != frozen.source_scope;
    if !changed {
        let connection = match connection_scope(current) {
            Err(e) => {
                return Err(e);
            },
            Ok(connection) => connection,
        };
        changed = connection != frozen.connection_scope || current.has_enabled_rules();
    }
    if changed {
        return Err(
            raise(
                ErrorCode::Incompatible,
                "UIDONLY account source, connection policy, or archive rules changed during acquisition",
            ),
        );
    }
    Ok(())
}

/// A new connection may be made only where the account still connects the same way.
pub fn may_reconnect(current: &AccountModel, frozen_connection: &String) -> (result: Result<
    (),
    BichonError,
>)
    ensures
        failure::judged(result) == match scope::connection_of(*current) {
            Err(e) => Err(e),
            Ok(connection) => if connection != frozen_connection@ {
                Err(
                    failure::failure(
                        ErrorCode::Incompatible,
                        "UIDONLY account connection changed while reconnecting"@,
                    ),
                )
            } else {
                Ok(())
            },
        },
{
    match connection_scope(current) {
        Err(e) => Err(e),
        Ok(connection) => {
            if connection != *frozen_connection {
                return Err(
                    raise(
                        ErrorCode::Incompatible,
                        "UIDONLY account connection changed while reconnecting",
                    ),
                );
            }
            Ok(())
        },
    }
}

/// A new connection must still serve pages of the fixed size.
pub fn check_reconnected(capabilities: &[String], page_size: u32) -> (result: Result<
    (),
    BichonError,
>)
    ensures
        failure::judged(result) == match capability::classified(capabilities@) {
            Err(e) => Err(e),
            Ok(CapabilityRoute::Legacy) => Err(
                failure::failure(
                    ErrorCode::Incompatible,
                    "UIDONLY reconnect lost required capabilities"@,
                ),
            ),
            Ok(CapabilityRoute::UidOnly { message_limit }) => if message_limit < page_size {
                Err(
                    failure::failure(
                        ErrorCode::Incompatible,
                        "UIDONLY reconnect reduced MESSAGELIMIT below the fixed page size"@,
                    ),
                )
            } else {
                Ok(())
            },
        },
{
    match classify_capabilities(capabilities) {
        Err(e) => Err(e),
        Ok(CapabilityRoute::Legacy) => Err(
            raise(ErrorCode::Incompatible, "UIDONLY reconnect lost required capabilities"),
        ),
        Ok(CapabilityRoute::UidOnly { message_limit }) => {
            if message_limit < page_size {
                return Err(
                    raise(
                        ErrorCode::Incompatible,
                        "UIDONLY reconnect reduced MESSAGELIMIT below the fixed page size",
                    ),
                );
            }
            Ok(())
        },
    }
}

/// The archive of one mailbox, bound to one UIDVALIDITY epoch once it is opened.
#[derive(Debug, PartialEq, Eq)]
pub struct BichonCanonicalArchive {
    pub account_id: u64,
    pub mailbox_id: u64,
    pub source_scope: String,
    pub uid_validity: Option<u32>,
    pub resume_after: Option<u32>,
}

impl BichonCanonicalArchive {
    /// Opens an epoch; another one than before is refused.
    pub fn begin_epoch(&mut self, uid_validity: u32) -> (result: Result<(), BichonError>)
        ensures
            result is Err <==> old(self).uid_validity is Some && old(self).uid_validity->0
                != uid_validity,
            result is Ok ==> *final(self) == (BichonCanonicalArchive {
                uid_validity: Some(uid_validity),
                ..*old(self)
            }),
            result matches Err(e) ==> *final(self) == *old(self) && e@ == failure::failure(
                ErrorCode::Incompatible,
                "UIDONLY archive epoch changed"@,
            ),
    {
        match self.uid_validity {
            Some(existing) => {
                if existing != uid_validity {
                    return Err(raise(ErrorCode::Incompatible, "UIDONLY archive epoch changed"));
                }
            },
            None => {},
        }
        self.uid_validity = Some(uid_validity);
        Ok(())
    }
}

/// A plan for UIDONLY is made only with usable limits, for an account that opted in and
/// has no rules enabled, and it resumes only behind a proof for the same source.
pub proof fn law_enrolment_is_guarded(
    account: AccountModel,
    mailbox: MailBox,
    plan: Planned,
    capabilities: Seq<String>,
)
    ensures
        routed(account, mailbox, plan, capabilities) matches Ok(Some(enrolled)) ==> {
            &&& enrolled.limits.usable()
            &&& account.uidonly_enabled
            &&& !account.ruled()
            &&& enrolled.resume_after is Some ==> proven_in(mailbox, enrolled.source_scope)
            &&& enrolled.source_scope == plan.source_scope
        },
{
}

/// A server that is known to be limited is never acquired the ordinary way.
pub proof fn law_limited_server_never_falls_back(
    account: AccountModel,
    mailbox: MailBox,
    plan: Planned,
    capabilities: Seq<String>,
)
    requires
        plan.known_limited,
    ensures
        routed(account, mailbox, plan, capabilities) != Ok::<Option<Enrolled>, failure::Failure>(
            None,
        ),
{
}

} // verus!
