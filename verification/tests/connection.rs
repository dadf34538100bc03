use bichon_uidonly::account::{AccountModel, AuthConfig, AuthType, Encryption, ImapConfig};
use bichon_uidonly::capability::{
    acquisition_route, advertised_message_limit, capability_matches, capability_to_string,
    conservative_message_limit, has_capability, has_message_limit_capability, AcquisitionRoute,
    Capability,
};
use bichon_uidonly::connection::{
    acquisition_connection_identity, AcquisitionBuild, Credential, ImapConnectionManager,
    ProbeRoute,
};
use bichon_uidonly::failure::{raise, ErrorCode};
use bichon_uidonly::nonzero::NonZeroU32;

fn atoms(names: &[&str]) -> Vec<Capability> {
    names
        .iter()
        .map(|name| Capability::Atom(name.to_string()))
        .collect()
}

fn account() -> AccountModel {
    AccountModel {
        id: 42,
        email: "archive@example.invalid".into(),
        login_name: Some("archive-login".into()),
        imap: Some(ImapConfig {
            host: "imap.example.invalid".into(),
            port: 993,
            encryption: Encryption::Ssl,
            auth: AuthConfig {
                auth_type: AuthType::Password,
                password: Some("first-secret".into()),
            },
            use_proxy: Some(7),
        }),
        ..Default::default()
    }
}

#[test]
fn non_uidonly_capabilities_route_to_legacy_standard_acquisition() {
    assert_eq!(
        acquisition_route(false, false, false),
        AcquisitionRoute::Standard
    );
    assert_eq!(
        acquisition_route(true, true, true),
        AcquisitionRoute::UidOnly
    );
    assert_eq!(
        acquisition_route(true, false, true),
        AcquisitionRoute::Limited
    );
    assert_eq!(
        acquisition_route(false, false, true),
        AcquisitionRoute::Limited
    );
}

#[test]
fn activation_uses_the_most_conservative_message_limit() {
    let smaller = NonZeroU32::new(500).unwrap();
    let larger = NonZeroU32::new(1_000).unwrap();
    assert_eq!(
        conservative_message_limit(Some(larger), Some(smaller)),
        Some(smaller)
    );
    assert_eq!(
        conservative_message_limit(Some(smaller), None),
        Some(smaller)
    );
}

#[test]
fn uidonly_capability_matching_is_case_insensitive() {
    assert!(capability_matches(
        &Capability::Atom("uIdOnLy".into()),
        "UIDONLY"
    ));
    assert!(capability_matches(
        &Capability::Atom("pArTiAl".into()),
        "PARTIAL"
    ));
}

#[test]
fn acquisition_identity_freezes_principal_and_transport_not_secret_rotation() {
    let account = account();
    let expected = acquisition_connection_identity(&account).unwrap();

    let mut rotated_secret = account.clone();
    rotated_secret.imap.as_mut().unwrap().auth.password = Some("rotated-secret".into());
    assert_eq!(
        acquisition_connection_identity(&rotated_secret).unwrap(),
        expected,
        "credential rotation on the same connection identity remains allowed"
    );

    let mut changed_principal = account.clone();
    changed_principal.login_name = Some("other-principal".into());
    assert_ne!(
        acquisition_connection_identity(&changed_principal).unwrap(),
        expected
    );

    let mut changed_auth = account.clone();
    changed_auth.imap.as_mut().unwrap().auth.auth_type = AuthType::OAuth2;
    assert_ne!(
        acquisition_connection_identity(&changed_auth).unwrap(),
        expected
    );

    let mut changed_tls_policy = account.clone();
    changed_tls_policy.use_dangerous = true;
    assert_ne!(
        acquisition_connection_identity(&changed_tls_policy).unwrap(),
        expected
    );

    let mut changed_endpoint = account.clone();
    changed_endpoint.imap.as_mut().unwrap().host = "other.example.invalid".into();
    assert_ne!(
        acquisition_connection_identity(&changed_endpoint).unwrap(),
        expected
    );

    let mut changed_proxy = account.clone();
    changed_proxy.imap.as_mut().unwrap().use_proxy = Some(8);
    assert_ne!(
        acquisition_connection_identity(&changed_proxy).unwrap(),
        expected
    );

    let mut changed_encryption = account;
    changed_encryption.imap.as_mut().unwrap().encryption = Encryption::StartTls;
    assert_ne!(
        acquisition_connection_identity(&changed_encryption).unwrap(),
        expected
    );
}

#[test]
fn capability_texts_and_limits_are_read() {
    assert_eq!(capability_to_string(&Capability::Imap4rev1), "IMAP4rev1");
    let listed = atoms(&["IDLE", "MessageLimit=1000", "MESSAGELIMIT=30", "MESSAGELIMIT=x"]);
    assert_eq!(advertised_message_limit(&listed), NonZeroU32::new(30));
    assert!(has_message_limit_capability(&listed));
    assert!(has_capability(&listed, "idle"));
    assert!(!has_capability(&listed, "UIDONLY"));
    assert_eq!(advertised_message_limit(&atoms(&["MESSAGELIMIT=0"])), None);
    assert!(has_message_limit_capability(&atoms(&["MESSAGELIMIT=0"])));
    assert!(!has_message_limit_capability(&atoms(&["IDLE"])));
}

#[test]
fn a_probe_leads_to_a_standard_or_an_activated_connection() {
    assert_eq!(
        ImapConnectionManager::route_probe(&atoms(&["IMAP4rev1", "PARTIAL"])).unwrap(),
        ProbeRoute::Standard
    );
    assert_eq!(
        ImapConnectionManager::route_probe(&atoms(&["UIDONLY", "PARTIAL", "MESSAGELIMIT=5"]))
            .unwrap(),
        ProbeRoute::UidOnly {
            message_limit: NonZeroU32::new(5)
        }
    );
    let limited = ImapConnectionManager::route_probe(&atoms(&["UIDONLY"])).unwrap_err();
    assert_eq!(limited.code(), ErrorCode::Incompatible);
    assert!(limited.message.contains("limited acquisition surface"));
    let invalid = ImapConnectionManager::route_probe(&atoms(&[
        "UIDONLY",
        "PARTIAL",
        "MESSAGELIMIT=none",
    ]))
    .unwrap_err();
    assert!(invalid.message.contains("invalid MESSAGELIMIT"));
}

#[test]
fn activation_confirms_both_extensions_again() {
    let build = AcquisitionBuild::begin(&account(), None).unwrap();
    let build = build
        .on_capabilities(&atoms(&["UIDONLY", "PARTIAL", "MESSAGELIMIT=500"]))
        .unwrap();
    assert_eq!(
        build,
        AcquisitionBuild::Activating {
            probed_limit: NonZeroU32::new(500)
        }
    );
    assert_eq!(
        build
            .on_capabilities(&atoms(&["UIDONLY", "PARTIAL", "MESSAGELIMIT=1000"]))
            .unwrap(),
        AcquisitionBuild::Enabling {
            message_limit: NonZeroU32::new(500)
        }
    );
    let stopped = build.on_capabilities(&atoms(&["UIDONLY"])).unwrap_err();
    assert!(stopped.message.contains("stopped advertising"));
    let invalid = build
        .on_capabilities(&atoms(&["UIDONLY", "PARTIAL", "MESSAGELIMIT="]))
        .unwrap_err();
    assert!(invalid
        .message
        .contains("invalid MESSAGELIMIT on the activation connection"));
    assert_eq!(
        AcquisitionBuild::begin(&account(), None)
            .unwrap()
            .on_capabilities(&atoms(&["IDLE"]))
            .unwrap(),
        AcquisitionBuild::Standard
    );
}

#[test]
fn a_changed_identity_refuses_to_reconnect() {
    let frozen = acquisition_connection_identity(&account()).unwrap();
    assert!(AcquisitionBuild::begin(&account(), Some(&frozen)).is_ok());
    let mut changed = account();
    changed.login_name = None;
    let error = AcquisitionBuild::begin(&changed, Some(&frozen)).unwrap_err();
    assert_eq!(error.code(), ErrorCode::Incompatible);
    assert!(error.message.contains("refusing to reconnect"));
    let nowhere = AccountModel::default();
    assert_eq!(
        AcquisitionBuild::begin(&nowhere, None).unwrap_err().code(),
        ErrorCode::MissingConfiguration
    );
}

#[test]
fn credentials_come_from_the_account() {
    assert_eq!(
        ImapConnectionManager::credential(&account(), None).unwrap(),
        Credential::Password {
            login: "archive-login".into(),
            encrypted_password: "first-secret".into(),
        }
    );
    let mut without = account();
    without.imap.as_mut().unwrap().auth.password = None;
    assert!(ImapConnectionManager::credential(&without, None)
        .unwrap_err()
        .message
        .contains("password not set"));
    let mut oauth = account();
    oauth.login_name = None;
    oauth.imap.as_mut().unwrap().auth.auth_type = AuthType::OAuth2;
    assert_eq!(
        ImapConnectionManager::credential(&oauth, Some("token".into())).unwrap(),
        Credential::OAuth2 {
            login: "archive@example.invalid".into(),
            access_token: "token".into(),
        }
    );
    assert!(ImapConnectionManager::credential(&oauth, None)
        .unwrap_err()
        .message
        .contains("OAuth2 authorization is not yet complete"));
}

#[test]
fn network_errors_are_worth_two_more_attempts() {
    let network = || raise(ErrorCode::NetworkError, "down");
    assert_eq!(
        ImapConnectionManager::after_failed_attempt(0, network())
            .unwrap()
            .seconds,
        1
    );
    assert!(ImapConnectionManager::after_failed_attempt(1, network()).is_ok());
    assert!(ImapConnectionManager::after_failed_attempt(2, network()).is_err());
    let refused = raise(ErrorCode::ImapAuthenticationFailed, "no");
    assert!(ImapConnectionManager::after_failed_attempt(0, refused).is_err());
}

#[test]
fn the_client_names_itself_where_asked() {
    assert!(ImapConnectionManager::announces_itself(&atoms(&["IDLE", "ID"])));
    assert!(ImapConnectionManager::announces_itself(&atoms(&["id"])));
    assert!(!ImapConnectionManager::announces_itself(&atoms(&["Id", "IDLE"])));
}
