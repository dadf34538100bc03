//! How connections to a server are made: identity, attempts, credentials and the
//! route that its capabilities allow.

use crate::account::{AccountModel, AuthType, Encryption};
use crate::capability;
use crate::capability::{
    acquisition_route, advertised_message_limit, conservative_message_limit, has_capability,
    has_message_limit_capability, AcquisitionRoute, Capability,
};
use crate::failure;
use crate::failure::{raise, BichonError, ErrorCode};
use crate::limits::Duration;
use crate::nonzero::NonZeroU32;
use crate::text;
use crate::text::{characters, push_numeral, push_text, to_lowercase};
use vstd::prelude::*;

verus! {

/// The decisions on connections to a server.
#[derive(Clone, Copy, Debug, PartialEq, Eq, Structural)]
pub struct ImapConnectionManager;

/// What must stay the same while a mailbox is acquired; secrets may change.
#[derive(Clone, Debug, PartialEq, Eq)]
pub struct AcquisitionConnectionIdentity {
    endpoint: String,
    principal: String,
    encryption: Encryption,
    auth_type: AuthType,
    proxy_id: Option<u64>,
    use_dangerous: bool,
}

/// The view of an [`AcquisitionConnectionIdentity`].
#[verifier::ext_equal]
pub ghost struct Identity {
    pub endpoint: Seq<char>,
    pub principal: Seq<char>,
    pub encryption: Encryption,
    pub auth_type: AuthType,
    pub proxy_id: Option<u64>,
    pub use_dangerous: bool,
}

impl View for AcquisitionConnectionIdentity {
    type V = Identity;

    closed spec fn view(&self) -> Identity {
        Identity {
            endpoint: self.endpoint@,
            principal: self.principal@,
            encryption: self.encryption,
            auth_type: self.auth_type,
            proxy_id: self.proxy_id,
            use_dangerous: self.use_dangerous,
        }
    }
}

/// The connection identity of an account.
pub open spec fn identity_of(account: AccountModel) -> Result<Identity, failure::Failure> {
    match account.imap {
        None => Err(
            failure::failure(
                ErrorCode::MissingConfiguration,
                "IMAP account has no endpoint"@,
            ),
        ),
        Some(imap) => Ok(
            Identity {
                endpoint: text::lowercase(imap.host@) + ":"@ + text::numeral(imap.port as nat),
                principal: account.principal(),
                encryption: imap.encryption,
                auth_type: imap.auth.auth_type,
                proxy_id: imap.use_proxy,
                use_dangerous: account.use_dangerous,
            },
        ),
    }
}

/// An identity result taken by its views.
pub open spec fn identified(result: Result<AcquisitionConnectionIdentity, BichonError>) -> Result<
    Identity,
    failure::Failure,
> {
    match result {
        Ok(identity) => Ok(identity@),
        Err(e) => Err(e@),
    }
}

/// The connection identity of an account.
pub fn acquisition_connection_identity(account: &AccountModel) -> (result: Result<
    AcquisitionConnectionIdentity,
    BichonError,
>)
    ensures
        identified(result) == identity_of(*account),
{
    match &account.imap {
        None => Err(raise(ErrorCode::MissingConfiguration, "IMAP account has no endpoint")),
        Some(imap) => {
            let host = characters(imap.host.as_str());
            let mut endpoint = to_lowercase(host.as_slice());
            push_text(&mut endpoint, ":");
            push_numeral(&mut endpoint, imap.port as u64);
            Ok(
                AcquisitionConnectionIdentity {
                    endpoint,
                    principal: account.login().as_str().to_owned(),
                    encryption: imap.encryption,
                    auth_type: imap.auth.auth_type,
                    proxy_id: imap.use_proxy,
                    use_dangerous: account.use_dangerous,
                },
            )
        },
    }
}

impl AcquisitionConnectionIdentity {
    /// Whether two identities are the same.
    pub fn same(&self, other: &AcquisitionConnectionIdentity) -> (result: bool)
        ensures
            result == (self@ == other@),
    {
        let same_proxy = match (self.proxy_id, other.proxy_id) {
            (Some(a), Some(b)) => a == b,
            (None, None) => true,
            _ => false,
        };
        self.endpoint == other.endpoint && self.principal == other.principal && self.encryption
            == other.encryption && self.auth_type == other.auth_type && same_proxy
            && self.use_dangerous == other.use_dangerous
    }
}

/// How an account proves who it is; the password is still encrypted.
#[derive(Debug, PartialEq, Eq)]
pub enum Credential {
    Password { login: String, encrypted_password: String },
    OAuth2 { login: String, access_token: String },
}

/// The view of a [`Credential`].
#[verifier::ext_equal]
pub ghost enum Proof {
    Password { login: Seq<char>, encrypted_password: Seq<char> },
    OAuth2 { login: Seq<char>, access_token: Seq<char> },
}

impl View for Credential {
    type V = Proof;

    open spec fn view(&self) -> Proof {
        match *self {
            Credential::Password { login, encrypted_password } => Proof::Password {
                login: login@,
                encrypted_password: encrypted_password@,
            },
            Credential::OAuth2 { login, access_token } => Proof::OAuth2 {
                login: login@,
                access_token: access_token@,
            },
        }
    }
}

/// The credential of an account; `token` is its access token, where it has one.
pub open spec fn credential_of(
    account: AccountModel,
    auth_type: AuthType,
    password: Option<String>,
    token: Option<String>,
) -> Result<Proof, failure::Failure> {
    match auth_type {
        AuthType::Password => match password {
            Some(password) => Ok(
                Proof::Password { login: account.principal(), encrypted_password: password@ },
            ),
            None => Err(
                failure::failure(
                    ErrorCode::MissingConfiguration,
                    "Imap auth type is Passwd, but password not set"@,
                ),
            ),
        },
        AuthType::OAuth2 => match token {
            Some(token) => Ok(Proof::OAuth2 { login: account.principal(), access_token: token@ }),
            None => Err(
                failure::failure(
                    ErrorCode::MissingConfiguration,
                    "Imap auth type is OAuth2, but OAuth2 authorization is not yet complete."@,
                ),
            ),
        },
    }
}

/// Where the probe of a server leads.
#[derive(Clone, Copy, Debug, PartialEq, Eq)]
pub enum ProbeRoute {
    /// A fresh ordinary connection from the same account snapshot.
    Standard,
    /// A fresh connection on which UIDONLY is enabled.
    UidOnly { message_limit: Option<NonZeroU32> },
}

/// Some capability is named `MESSAGELIMIT`.
pub open spec fn limit_is_named(capabilities: Seq<Capability>) -> bool {
    exists|i: int|
        0 <= i < capabilities.len() && capability::names_limit(#[trigger] capabilities[i])
}

/// Where the probe of a server with these capabilities leads.
pub open spec fn probed(capabilities: Seq<Capability>) -> Result<ProbeRoute, failure::Failure> {
    let limit = capability::least_limit(capabilities);
    let named = limit_is_named(capabilities);
    if named && limit is None {
        Err(
            failure::failure(
                ErrorCode::Incompatible,
                "server advertises an invalid MESSAGELIMIT; completeness cannot be claimed"@,
            ),
        )
    } else {
        match capability::route(
            capability::lists(capabilities, "UIDONLY"@),
            capability::lists(capabilities, "PARTIAL"@),
            named,
        ) {
            AcquisitionRoute::Standard => Ok(ProbeRoute::Standard),
            AcquisitionRoute::UidOnly => Ok(ProbeRoute::UidOnly { message_limit: limit }),
            AcquisitionRoute::Limited => Err(
                failure::failure(
                    ErrorCode::Incompatible,
                    "server advertises a limited acquisition surface without both UIDONLY and PARTIAL; completeness cannot be claimed"@,
                ),
            ),
        }
    }
}

/// The message limit of an activated connection, from both of its probes.
pub open spec fn activated(
    capabilities: Seq<Capability>,
    probed_limit: Option<NonZeroU32>,
) -> Result<Option<NonZeroU32>, failure::Failure> {
    let limit = capability::least_limit(capabilities);
    if !capability::lists(capabilities, "UIDONLY"@) || !capability::lists(
        capabilities,
        "PARTIAL"@,
    ) {
        Err(
            failure::failure(
                ErrorCode::Incompatible,
                "server stopped advertising UIDONLY or PARTIAL on the activation connection"@,
            ),
        )
    } else if limit_is_named(capabilities) && limit is None {
        Err(
            failure::failure(
                ErrorCode::Incompatible,
                "server advertises an invalid MESSAGELIMIT on the activation connection"@,
            ),
        )
    } else {
        Ok(capability::conservative(probed_limit, limit))
    }
}

/// How often a connection is attempted.
pub const CONNECT_ATTEMPTS: u32 = 3;

impl ImapConnectionManager {
    /// After a failed attempt, counted from zero: the wait before the next one, or
    /// the error where it is not worth another.
    pub fn after_failed_attempt(attempt: u32, error: BichonError) -> (result: Result<
        Duration,
        BichonError,
    >)
        ensures
            result is Ok <==> error.code is NetworkError && attempt + 1 < CONNECT_ATTEMPTS,
            result matches Ok(wait) ==> wait == (Duration { seconds: 1, nanoseconds: 0 }),
            result matches Err(e) ==> e == error,
    {
        if error.code == ErrorCode::NetworkError && attempt < CONNECT_ATTEMPTS - 1 {
            Ok(Duration::from_secs(1))
        } else {
            Err(error)
        }
    }

    /// The credential that an account logs in with.
    pub fn credential(account: &AccountModel, access_token: Option<String>) -> (result: Result<
        Credential,
        BichonError,
    >)
        requires
            account.imap is Some,
        ensures
            ({
                let auth = account.imap->0.auth;
                let wanted = credential_of(*account, auth.auth_type, auth.password, access_token);
                match result {
                    Ok(credential) => wanted == Ok::<Proof, failure::Failure>(credential@),
                    Err(e) => wanted == Err::<Proof, failure::Failure>(e@),
                }
            }),
    {
        let login = account.login().as_str().to_owned();
        match &account.imap {
            None => Err(raise(ErrorCode::MissingConfiguration, "IMAP account has no endpoint")),
            Some(imap) => match imap.auth.auth_type {
                AuthType::Password => match &imap.auth.password {
                    Some(password) => Ok(
                        Credential::Password {
                            login,
                            encrypted_password: password.as_str().to_owned(),
                        },
                    ),
                    None => Err(
                        raise(
                            ErrorCode::MissingConfiguration,
                            "Imap auth type is Passwd, but password not set",
                        ),
                    ),
                },
                AuthType::OAuth2 => match access_token {
                    Some(access_token) => Ok(Credential::OAuth2 { login, access_token }),
                    None => Err(
                        raise(
                            ErrorCode::MissingConfiguration,
                            "Imap auth type is OAuth2, but OAuth2 authorization is not yet complete.",
                        ),
                    ),
                },
            },
        }
    }

    /// Whether the client names itself to the server.
    pub fn announces_itself(capabilities: &[Capability]) -> (result: bool)
        ensures
            result == exists|i: int|
                0 <= i < capabilities@.len() && identifies(#[trigger] capabilities@[i]),
    {
        let mut i: usize = 0;
        while i < capabilities.len()
            invariant
                i <= capabilities@.len(),
                forall|j: int| 0 <= j < i ==> !identifies(#[trigger] capabilities@[j]),
            decreases capabilities.len() - i,
        {
            match &capabilities[i] {
                Capability::Atom(atom) => {
                    let upper = "ID".to_owned();
                    let lower = "id".to_owned();
                    if *atom == upper || *atom == lower {
                        assert(identifies(capabilities@[i as int]));
                        return true;
                    }
                },
                _ => {},
            }
            i = i + 1;
        }
        false
    }

    /// Allows a new acquisition connection for an account, unless its identity is no
    /// longer the one expected.
    pub fn check_identity(
        account: &AccountModel,
        expected_identity: Option<&AcquisitionConnectionIdentity>,
    ) -> (result: Result<AcquisitionConnectionIdentity, BichonError>)
        ensures
            identified(result) == match (identity_of(*account), expected_identity) {
                (Ok(current), Some(expected)) => if current == expected@ {
                    Ok(current)
                } else {
                    Err(
                        failure::failure(
                            ErrorCode::Incompatible,
                            "IMAP connection identity changed during UIDONLY acquisition; refusing to reconnect"@,
                        ),
                    )
                },
                (current, _) => current,
            },
    {
        let current = match acquisition_connection_identity(account) {
            Err(e) => {
                return Err(e);
            },
            Ok(current) => current,
        };
        match expected_identity {
            Some(expected) => {
                if !expected.same(&current) {
                    return Err(
                        raise(
                            ErrorCode::Incompatible,
                            "IMAP connection identity changed during UIDONLY acquisition; refusing to reconnect",
                        ),
                    );
                }
            },
            None => {},
        }
        Ok(current)
    }

    /// Where the probe of a server leads.
    pub fn route_probe(capabilities: &[Capability]) -> (result: Result<ProbeRoute, BichonError>)
        ensures
            failure::judged(result) == probed(capabilities@),
    {
        let limit = advertised_message_limit(capabilities);
        let named = has_message_limit_capability(capabilities);
        if named && limit.is_none() {
            return Err(
                raise(
                    ErrorCode::Incompatible,
                    "server advertises an invalid MESSAGELIMIT; completeness cannot be claimed",
                ),
            );
        }
        match acquisition_route(
            has_capability(capabilities, "UIDONLY"),
            has_capability(capabilities, "PARTIAL"),
            named,
        ) {
            AcquisitionRoute::Standard => Ok(ProbeRoute::Standard),
            AcquisitionRoute::UidOnly => Ok(ProbeRoute::UidOnly { message_limit: limit }),
            AcquisitionRoute::Limited => Err(
                raise(
                    ErrorCode::Incompatible,
                    "server advertises a limited acquisition surface without both UIDONLY and PARTIAL; completeness cannot be claimed",
                ),
            ),
        }
    }

    /// The message limit of the connection that is to be activated.
    pub fn confirm_activation(
        capabilities: &[Capability],
        probed_message_limit: Option<NonZeroU32>,
    ) -> (result: Result<Option<NonZeroU32>, BichonError>)
        ensures
            failure::judged(result) == activated(capabilities@, probed_message_limit),
    {
        if !has_capability(capabilities, "UIDONLY") || !has_capability(capabilities, "PARTIAL") {
            return Err(
                raise(
                    ErrorCode::Incompatible,
                    "server stopped advertising UIDONLY or PARTIAL on the activation connection",
                ),
            );
        }
        let limit = advertised_message_limit(capabilities);
        if has_message_limit_capability(capabilities) && limit.is_none() {
            return Err(
                raise(
                    ErrorCode::Incompatible,
                    "server advertises an invalid MESSAGELIMIT on the activation connection",
                ),
            );
        }
        Ok(conservative_message_limit(probed_message_limit, limit))
    }
}

/// How far an acquisition connection has come.
#[derive(Clone, Copy, Debug, PartialEq, Eq)]
pub enum AcquisitionBuild {
    /// The bounded probe connection is to be made and its capabilities fetched.
    Probing,
    /// The probe is to be closed and an ordinary connection made.
    Standard,
    /// The probe is to be closed, a second connection made and its capabilities
    /// fetched.
    Activating { probed_limit: Option<NonZeroU32> },
    /// UIDONLY is to be enabled on the second connection.
    Enabling { message_limit: Option<NonZeroU32> },
}

/// What the capabilities of the connection at hand lead to.
pub open spec fn built(step: AcquisitionBuild, capabilities: Seq<Capability>) -> Result<
    AcquisitionBuild,
    failure::Failure,
> {
    match step {
        AcquisitionBuild::Probing => match probed(capabilities) {
            Err(e) => Err(e),
            Ok(ProbeRoute::Standard) => Ok(AcquisitionBuild::Standard),
            Ok(ProbeRoute::UidOnly { message_limit }) => Ok(
                AcquisitionBuild::Activating { probed_limit: message_limit },
            ),
        },
        AcquisitionBuild::Activating { probed_limit } => match activated(
            capabilities,
            probed_limit,
        ) {
            Err(e) => Err(e),
            Ok(message_limit) => Ok(AcquisitionBuild::Enabling { message_limit }),
        },
        _ => Ok(step),
    }
}

impl AcquisitionBuild {
    /// Starts with the account as it is, unless its identity is no longer the one
    /// expected.
    pub fn begin(
        account: &AccountModel,
        expected_identity: Option<&AcquisitionConnectionIdentity>,
    ) -> (result: Result<AcquisitionBuild, BichonError>)
        ensures
            result matches Ok(step) ==> step is Probing && identity_of(*account) is Ok && (
            expected_identity matches Some(expected) ==> identity_of(*account)->Ok_0 == expected@),
            result matches Err(e) ==> e@ == (match identity_of(*account) {
                Err(e) => e,
                Ok(_) => failure::failure(
                    ErrorCode::Incompatible,
                    "IMAP connection identity changed during UIDONLY acquisition; refusing to reconnect"@,
                ),
            }),
            identity_of(*account) is Ok && expected_identity is None ==> result is Ok,
            identity_of(*account) is Ok && (expected_identity matches Some(expected)
                && identity_of(*account)->Ok_0 == expected@) ==> result is Ok,
    {
        match ImapConnectionManager::check_identity(account, expected_identity) {
            Err(e) => Err(e),
            Ok(_) => Ok(AcquisitionBuild::Probing),
        }
    }

    /// Goes on with the capabilities of the connection at hand.
    pub fn on_capabilities(self, capabilities: &[Capability]) -> (result: Result<
        AcquisitionBuild,
        BichonError,
    >)
        ensures
            failure::judged(result) == built(self, capabilities@),
    {
        match self {
            AcquisitionBuild::Probing => match ImapConnectionManager::route_probe(capabilities) {
                Err(e) => Err(e),
                Ok(ProbeRoute::Standard) => Ok(AcquisitionBuild::Standard),
                Ok(ProbeRoute::UidOnly { message_limit }) => Ok(
                    AcquisitionBuild::Activating { probed_limit: message_limit },
                ),
            },
            AcquisitionBuild::Activating { probed_limit } => {
                match ImapConnectionManager::confirm_activation(capabilities, probed_limit) {
                    Err(e) => Err(e),
                    Ok(message_limit) => Ok(AcquisitionBuild::Enabling { message_limit }),
                }
            },
            _ => Ok(self),
        }
    }
}

/// The capability with which a server asks for the client's name.
pub open spec fn identifies(capability: Capability) -> bool {
    capability matches Capability::Atom(atom) && (atom@ == "ID"@ || atom@ == "id"@)
}

/// A new password leaves the identity of a connection as it was.
pub proof fn law_identity_survives_new_secret(a: AccountModel, b: AccountModel)
    requires
        a.imap is Some,
        b.imap is Some,
        a.principal() == b.principal(),
        a.use_dangerous == b.use_dangerous,
        a.imap->0.host@ == b.imap->0.host@,
        a.imap->0.port == b.imap->0.port,
        a.imap->0.encryption == b.imap->0.encryption,
        a.imap->0.use_proxy == b.imap->0.use_proxy,
        a.imap->0.auth.auth_type == b.imap->0.auth.auth_type,
    ensures
        identity_of(a) == identity_of(b),
{
}

/// A server is activated only where it lists both extensions twice, and never with
/// a limit above one that it announced on either connection.
pub proof fn law_activation_is_conservative(
    first: Seq<Capability>,
    second: Seq<Capability>,
    probed_limit: Option<NonZeroU32>,
    limit: Option<NonZeroU32>,
    i: int,
    j: int,
)
    requires
        probed(first) == Ok::<ProbeRoute, failure::Failure>(
            (ProbeRoute::UidOnly { message_limit: probed_limit }),
        ),
        activated(second, probed_limit) == Ok::<Option<NonZeroU32>, failure::Failure>(limit),
        0 <= i < first.len(),
        0 <= j < second.len(),
    ensures
        capability::lists(first, "UIDONLY"@) && capability::lists(first, "PARTIAL"@),
        capability::lists(second, "UIDONLY"@) && capability::lists(second, "PARTIAL"@),
        capability::limit_of(first[i]) matches Some(n) ==> limit is Some && limit->0@ <= n,
        capability::limit_of(second[j]) matches Some(n) ==> limit is Some && limit->0@ <= n,
{
    capability::law_least_limit_is_least(first, i);
    capability::law_least_limit_is_least(second, j);
    capability::law_conservative_limit_is_least(probed_limit, capability::least_limit(second));
}

} // verus!
