//! What an account and a mailbox say about their server.

use vstd::prelude::*;

verus! {

/// How a connection is encrypted.
#[derive(Clone, Copy, Debug, PartialEq, Eq, Structural)]
pub enum Encryption {
    Ssl,
    StartTls,
    Plain,
}

/// How a connection is authenticated.
#[derive(Clone, Copy, Debug, PartialEq, Eq, Structural)]
pub enum AuthType {
    Password,
    OAuth2,
}

/// The credentials of an account; the password is encrypted.
#[derive(Clone, Debug, PartialEq, Eq)]
pub struct AuthConfig {
    pub auth_type: AuthType,
    pub password: Option<String>,
}

/// The server of an account.
#[derive(Clone, Debug, PartialEq, Eq)]
pub struct ImapConfig {
    pub host: String,
    pub port: u16,
    pub encryption: Encryption,
    pub auth: AuthConfig,
    pub use_proxy: Option<u64>,
}

/// Rules that decide which messages are archived.
#[derive(Clone, Copy, Debug, PartialEq, Eq, Structural)]
pub struct ArchiveRules {
    pub enabled: bool,
}

/// A mail account.
#[derive(Clone, Debug, PartialEq, Eq)]
pub struct AccountModel {
    pub id: u64,
    pub email: String,
    pub login_name: Option<String>,
    pub imap: Option<ImapConfig>,
    pub use_dangerous: bool,
    pub uidonly_enabled: bool,
    pub archive_rules: Option<ArchiveRules>,
    pub capabilities: Option<Vec<String>>,
    pub max_email_size_bytes: Option<u64>,
    pub download_batch_size: Option<u32>,
}

impl Default for AccountModel {
    fn default() -> (account: Self)
        ensures
            account.id == 0,
            account.email@ == Seq::<char>::empty(),
            account.login_name is None,
            account.imap is None,
            !account.use_dangerous,
            !account.uidonly_enabled,
            account.archive_rules is None,
            account.capabilities is None,
            account.max_email_size_bytes is None,
            account.download_batch_size is None,
    {
        AccountModel {
            id: 0,
            email: String::new(),
            login_name: None,
            imap: None,
            use_dangerous: false,
            uidonly_enabled: false,
            archive_rules: None,
            capabilities: None,
            max_email_size_bytes: None,
            download_batch_size: None,
        }
    }
}

impl AccountModel {
    /// Who logs in: the login name, or the address where there is none.
    pub open spec fn principal(self) -> Seq<char> {
        match self.login_name {
            Some(name) => name@,
            None => self.email@,
        }
    }

    /// The account has archive rules, and they are enabled.
    pub open spec fn ruled(self) -> bool {
        self.archive_rules matches Some(rules) && rules.enabled
    }

    pub fn has_enabled_rules(&self) -> (result: bool)
        ensures
            result == self.ruled(),
    {
        match self.archive_rules {
            Some(rules) => rules.enabled,
            None => false,
        }
    }

    /// Who logs in.
    pub fn login(&self) -> (login: &String)
        ensures
            login@ == self.principal(),
    {
        match &self.login_name {
            Some(name) => name,
            None => &self.email,
        }
    }
}

/// What is remembered of a mailbox.
#[derive(Clone, Debug, PartialEq, Eq)]
pub struct MailBox {
    pub id: u64,
    pub uid_validity: Option<u32>,
    pub highest_uid: Option<u32>,
    pub uidonly_source_scope: Option<String>,
}

} // verus!
