use bichon_uidonly::account::{
    AccountModel, ArchiveRules, AuthConfig, AuthType, Encryption, ImapConfig, MailBox,
};
use bichon_uidonly::acquisition::{retryable_transport_error, Acquisition, Action, Event};
use bichon_uidonly::acquisition_model::MailboxSnapshot;
use bichon_uidonly::batches::{
    planned_fetch_batches, protocol_limits, AcquisitionLimits, InventoryItem,
};
use bichon_uidonly::enrolment::{
    check_reconnected, confirm_unchanged, may_reconnect, plan_connection, route_connection,
    BichonCanonicalArchive, ConnectRoute, UidOnlyPlan,
};
use bichon_uidonly::failure::{raise, BichonError, ErrorCode};
use bichon_uidonly::lines::{
    classify_numeric_response, contains_internaldate_nil, is_enabled_uidonly, parse_literal_len,
    parse_pass_through_literal_len, pass_through_untagged_may_contain_literal, tagged_status,
    NumericResponse, TaggedStatus,
};
use bichon_uidonly::scope::{connection_scope, mailbox_has_uidonly_proof, source_scope};
use bichon_uidonly::transport::{
    check_exact_fetch, check_health, exact_args, examined_snapshot, imap_error_code,
    inventory_args, inventory_items, FetchedMessage, ImapFailure, IoFailure,
};

fn account() -> AccountModel {
    AccountModel {
        email: "alice@example.invalid".into(),
        imap: Some(ImapConfig {
            host: " IMAP.example.invalid. ".into(),
            port: 993,
            encryption: Encryption::StartTls,
            auth: AuthConfig {
                auth_type: AuthType::OAuth2,
                password: None,
            },
            use_proxy: Some(7),
        }),
        uidonly_enabled: true,
        ..Default::default()
    }
}

fn mailbox() -> MailBox {
    MailBox {
        id: 1,
        uid_validity: Some(77),
        highest_uid: Some(50),
        uidonly_source_scope: None,
    }
}

fn texts(list: &[&str]) -> Vec<String> {
    list.iter().map(|text| text.to_string()).collect()
}

#[test]
fn scopes_are_hashes_of_counted_fields() {
    let mut source = blake3::Hasher::new();
    source.update(b"bichon-uidonly-source-v2\0");
    for field in ["imap.example.invalid.", "alice@example.invalid"] {
        source.update(&(field.len() as u64).to_be_bytes());
        source.update(field.as_bytes());
    }
    source.update(&993_u16.to_be_bytes());
    let mut trailing_space = account();
    trailing_space.imap.as_mut().unwrap().host = "imap.example.invalid. .".into();
    // Only dots at the very end are dropped.
    assert_ne!(
        source_scope(&trailing_space).unwrap(),
        source.finalize().to_hex().to_string()
    );

    let mut source = blake3::Hasher::new();
    source.update(b"bichon-uidonly-source-v2\0");
    for field in ["imap.example.invalid", "alice@example.invalid"] {
        source.update(&(field.len() as u64).to_be_bytes());
        source.update(field.as_bytes());
    }
    source.update(&993_u16.to_be_bytes());
    let source = source.finalize().to_hex().to_string();
    assert_eq!(source_scope(&account()).unwrap(), source);

    let mut connection = blake3::Hasher::new();
    connection.update(b"bichon-uidonly-connection-v1\0");
    connection.update(source.as_bytes());
    connection.update(&[2, 0, 1]);
    connection.update(&7_u64.to_be_bytes());
    connection.update(&[2]);
    assert_eq!(
        connection_scope(&account()).unwrap(),
        connection.finalize().to_hex().to_string()
    );

    let proven = MailBox {
        uidonly_source_scope: Some(source),
        ..mailbox()
    };
    assert!(mailbox_has_uidonly_proof(&account(), &proven));
    assert!(!mailbox_has_uidonly_proof(&account(), &mailbox()));
}

#[test]
fn incomplete_sources_have_no_scope() {
    let error = source_scope(&AccountModel::default()).unwrap_err();
    assert_eq!(error.code(), ErrorCode::MissingConfiguration);
    assert!(error.message.contains("no IMAP configuration"));
    let mut nameless = account();
    nameless.email = String::new();
    assert!(source_scope(&nameless)
        .unwrap_err()
        .message
        .contains("incomplete"));
    let mut portless = account();
    portless.imap.as_mut().unwrap().port = 0;
    assert!(connection_scope(&portless).is_err());
    let mut hostless = account();
    hostless.imap.as_mut().unwrap().host = " .. ".into();
    assert!(source_scope(&hostless).is_err());
}

fn route(
    account: &AccountModel,
    mailbox: &MailBox,
    force: bool,
    capabilities: &[&str],
) -> Result<ConnectRoute, BichonError> {
    let plan = plan_connection(account, mailbox, force)?;
    route_connection(account, mailbox, plan, &texts(capabilities))
}

fn enrolled(account: &AccountModel, mailbox: &MailBox) -> UidOnlyPlan {
    match route(
        account,
        mailbox,
        false,
        &["UIDONLY", "PARTIAL", "MESSAGELIMIT=20"],
    ) {
        Ok(ConnectRoute::UidOnly(plan)) => plan,
        _ => panic!("not enrolled"),
    }
}

#[test]
fn enrolment_resumes_only_behind_a_proof() {
    let plan = enrolled(&account(), &mailbox());
    assert_eq!(plan.resume_after, None);
    assert_eq!(plan.limits.page_size, 20);
    assert_eq!(plan.limits.fetch_batch_size, 20);
    let proven = MailBox {
        uidonly_source_scope: Some(source_scope(&account()).unwrap()),
        ..mailbox()
    };
    assert_eq!(enrolled(&account(), &proven).resume_after, Some(50));
}

#[test]
fn limited_servers_never_fall_back() {
    assert_eq!(
        route(&account(), &mailbox(), false, &["IDLE"]).unwrap(),
        ConnectRoute::Legacy
    );
    for (account, force) in [
        (account(), true),
        (
            AccountModel {
                capabilities: Some(texts(&["UIDONLY"])),
                ..account()
            },
            false,
        ),
    ] {
        let error = route(&account, &mailbox(), force, &["IDLE"]).unwrap_err();
        assert_eq!(error.code(), ErrorCode::Incompatible);
        assert!(error.message.contains("Known limited server"));
    }
}

#[test]
fn rules_and_sizes_keep_accounts_out() {
    let ruled = AccountModel {
        archive_rules: Some(ArchiveRules { enabled: true }),
        ..account()
    };
    let limited = ["UIDONLY", "PARTIAL", "MESSAGELIMIT=20"];
    assert!(plan_connection(&ruled, &mailbox(), true)
        .unwrap_err()
        .message
        .contains("enabled archive rules"));
    assert!(route(&ruled, &mailbox(), false, &limited)
        .unwrap_err()
        .message
        .contains("enabled archive rules"));
    let huge = AccountModel {
        max_email_size_bytes: Some(u64::MAX),
        ..account()
    };
    assert!(route(&huge, &mailbox(), false, &limited)
        .unwrap_err()
        .message
        .contains("message-size limit"));
    let unwilling = AccountModel {
        uidonly_enabled: false,
        ..account()
    };
    assert!(route(&unwilling, &mailbox(), false, &limited)
        .unwrap_err()
        .message
        .contains("enable uidonly_enabled"));
}

#[test]
fn changed_accounts_are_refused_at_the_end() {
    let plan = enrolled(&account(), &mailbox());
    assert!(confirm_unchanged(&account(), &plan).is_ok());
    let mut moved = account();
    moved.imap.as_mut().unwrap().port = 143;
    assert!(confirm_unchanged(&moved, &plan)
        .unwrap_err()
        .message
        .contains("changed during acquisition"));
    let mut ruled = account();
    ruled.archive_rules = Some(ArchiveRules { enabled: true });
    assert!(confirm_unchanged(&ruled, &plan).is_err());
    let mut dangerous = account();
    dangerous.use_dangerous = true;
    assert!(confirm_unchanged(&dangerous, &plan).is_err());
    assert!(may_reconnect(&account(), &plan.connection_scope).is_ok());
    assert!(may_reconnect(&dangerous, &plan.connection_scope)
        .unwrap_err()
        .message
        .contains("changed while reconnecting"));
}

#[test]
fn reconnects_keep_the_page_size() {
    let limited = texts(&["UIDONLY", "PARTIAL", "MESSAGELIMIT=20"]);
    assert!(check_reconnected(&limited, 20).is_ok());
    assert!(check_reconnected(&limited, 21)
        .unwrap_err()
        .message
        .contains("reduced MESSAGELIMIT"));
    assert!(check_reconnected(&texts(&["IDLE"]), 1)
        .unwrap_err()
        .message
        .contains("lost required capabilities"));
}

#[test]
fn archives_are_bound_to_one_epoch() {
    let mut archive = BichonCanonicalArchive {
        account_id: 1,
        mailbox_id: 2,
        source_scope: "scope".into(),
        uid_validity: None,
        resume_after: None,
    };
    archive.begin_epoch(77).unwrap();
    archive.begin_epoch(77).unwrap();
    assert_eq!(
        archive.begin_epoch(78).unwrap_err().message,
        "UIDONLY archive epoch changed"
    );
    assert_eq!(archive.uid_validity, Some(77));
}

#[test]
fn lost_connections_are_network_errors() {
    assert_eq!(
        imap_error_code(ImapFailure::ConnectionLost),
        ErrorCode::NetworkError
    );
    assert_eq!(
        imap_error_code(ImapFailure::Io(IoFailure::TimedOut)),
        ErrorCode::NetworkError
    );
    assert_eq!(
        imap_error_code(ImapFailure::Io(IoFailure::Unlisted)),
        ErrorCode::ImapUnexpectedResult
    );
    assert_eq!(
        imap_error_code(ImapFailure::Unlisted),
        ErrorCode::ImapUnexpectedResult
    );
    assert!(retryable_transport_error(ErrorCode::RequestTimeout));
    assert!(!retryable_transport_error(ErrorCode::Incompatible));
}

#[test]
fn transports_must_be_healthy() {
    assert!(check_health(None, true).is_ok());
    assert_eq!(
        check_health(None, false).unwrap_err().message,
        "UIDONLY transport is not active"
    );
    assert_eq!(
        check_health(Some("poisoned".into()), true).unwrap_err().message,
        "poisoned"
    );
}

#[test]
fn snapshots_need_both_identifiers() {
    assert_eq!(
        examined_snapshot(3, Some(77), Some(51)).unwrap(),
        MailboxSnapshot {
            exists: 3,
            uid_validity: 77,
            uid_next: 51
        }
    );
    assert!(examined_snapshot(3, None, Some(51)).is_err());
    assert!(examined_snapshot(3, Some(77), None).is_err());
}

fn fetched(leading: u32, uid: Option<u32>, size: Option<u32>) -> FetchedMessage {
    FetchedMessage {
        leading,
        uid,
        size,
        body: Some(vec![b'x']),
    }
}

#[test]
fn inventory_responses_are_checked() {
    assert_eq!(
        inventory_items(&[fetched(7, Some(7), Some(5))]).unwrap(),
        [InventoryItem {
            uid: 7,
            rfc822_size: 5
        }]
    );
    for (message, expected) in [
        (fetched(7, None, Some(5)), "omitted UID"),
        (fetched(7, Some(8), Some(5)), "leading UID did not match"),
        (fetched(7, Some(7), None), "omitted RFC822.SIZE"),
    ] {
        assert!(inventory_items(&[message])
            .unwrap_err()
            .message
            .contains(expected));
    }
}

#[test]
fn exact_fetches_are_accounted_for() {
    let item = |uid| InventoryItem {
        uid,
        rfc822_size: 1,
    };
    let check = |list: Vec<FetchedMessage>, literal: u64, command: u64, received: u64| {
        check_exact_fetch(&[item(7), item(9)], list, literal, command, 10, 10 + received)
    };
    let good = || vec![fetched(9, Some(9), Some(1)), fetched(7, Some(7), Some(1))];
    let messages = check(good(), 8, 8, 2).unwrap();
    assert_eq!(messages[0].uid, 7);
    assert_eq!(messages[1].uid, 9);
    assert!(check(good(), 8, 8, 3)
        .unwrap_err()
        .message
        .contains("literal accounting"));
    assert_eq!(
        check(good(), 0, 8, 2).unwrap_err().code(),
        ErrorCode::PayloadTooLarge
    );
    assert_eq!(
        check(good(), 8, 1, 2).unwrap_err().code(),
        ErrorCode::PayloadTooLarge
    );
    let mut bodiless = good();
    bodiless[0].body = None;
    assert!(check(bodiless, 8, 8, 1)
        .unwrap_err()
        .message
        .contains("omitted its full literal body"));
    let mut mismatched = good();
    mismatched[0].leading = 8;
    assert!(check(mismatched, 8, 8, 2)
        .unwrap_err()
        .message
        .contains("mismatched metadata"));
}

#[test]
fn batches_hold_at_least_one_message() {
    let items: Vec<InventoryItem> = (1..=3)
        .map(|uid| InventoryItem {
            uid,
            rfc822_size: 100,
        })
        .collect();
    assert_eq!(planned_fetch_batches(items, 10, 1).len(), 3);
    assert!(planned_fetch_batches(Vec::new(), 10, 1).is_empty());
    assert!(protocol_limits(1).is_ok());
}

#[test]
fn acquisitions_refuse_unusable_limits_and_foreign_epochs() {
    let mut unusable = AcquisitionLimits::bounded(1);
    unusable.page_size = 0;
    assert_eq!(
        Acquisition::start(unusable, None).unwrap_err().message,
        "UIDONLY acquisition limits must be nonzero"
    );
    let snapshot = |uid_validity, uid_next| {
        let (acquisition, action) =
            Acquisition::start(AcquisitionLimits::bounded(1024), Some(77)).unwrap();
        assert!(matches!(action, Action::Examine));
        acquisition.on_event(Event::Examined(Ok(MailboxSnapshot {
            exists: 0,
            uid_validity,
            uid_next,
        })))
    };
    assert!(snapshot(78, 1)
        .unwrap_err()
        .message
        .contains("UIDVALIDITY changed"));
    assert!(snapshot(77, 0)
        .unwrap_err()
        .message
        .contains("omitted a valid UIDVALIDITY or UIDNEXT"));
    assert!(matches!(snapshot(77, 1), Ok((_, Action::BeginEpoch(77)))));
    let (acquisition, _) = Acquisition::start(AcquisitionLimits::bounded(1024), None).unwrap();
    assert_eq!(
        acquisition
            .on_event(Event::Stored(Err(raise(ErrorCode::InternalError, "early"))))
            .unwrap_err()
            .code(),
        ErrorCode::InternalError
    );
}

#[test]
fn lines_are_classified() {
    assert_eq!(
        classify_numeric_response(b"* 42 uidfetch (UID 42)\r\n").unwrap(),
        NumericResponse::UidFetch {
            leading_uid: 42,
            atom_start: 5,
            atom_end: 13
        }
    );
    assert_eq!(
        classify_numeric_response(b"* 42 FETCH (UID 42)\r\n").unwrap(),
        NumericResponse::Fetch
    );
    assert_eq!(
        classify_numeric_response(b"* OK hello\r\n").unwrap(),
        NumericResponse::Other
    );
    assert!(classify_numeric_response(b"* 0 UIDFETCH ()\r\n").is_err());
    assert_eq!(parse_literal_len(b"BODY[] {12}").unwrap(), 12);
    assert!(parse_literal_len(b"BODY[] {}").is_err());
    assert_eq!(parse_pass_through_literal_len(b"x {5}").unwrap(), Some(5));
    assert_eq!(parse_pass_through_literal_len(b"x}").unwrap(), None);
    assert!(contains_internaldate_nil(b"* 1 UIDFETCH (INTERNALDATE NIL)\r\n"));
    assert!(!contains_internaldate_nil(b"* 1 UIDFETCH (\"INTERNALDATE NIL\")\r\n"));
    assert!(is_enabled_uidonly(b"* ENABLED CONDSTORE UIDONLY\r\n"));
    assert!(!is_enabled_uidonly(b"* ENABLED CONDSTORE\r\n"));
    assert_eq!(
        tagged_status(b"A1 OK done\r\n", b"A1"),
        Some(TaggedStatus::Done)
    );
    assert_eq!(
        tagged_status(b"A1 NO sorry\r\n", b"A1"),
        Some(TaggedStatus::NoOrBad)
    );
    assert_eq!(tagged_status(b"A2 OK done\r\n", b"A1"), None);
    assert!(pass_through_untagged_may_contain_literal(b"* LIST () {5}\r\n"));
    assert!(!pass_through_untagged_may_contain_literal(b"* OK {5}\r\n"));
}

#[test]
fn fetch_arguments_are_rendered() {
    assert_eq!(
        inventory_args(8, 9, 2).unwrap(),
        ("8:9".to_string(), "(UID RFC822.SIZE) (PARTIAL 1:2)".to_string())
    );
    for (cursor, high, page_size) in [(0, 9, 2), (9, 8, 2), (1, 9, 0)] {
        assert_eq!(
            inventory_args(cursor, high, page_size).unwrap_err().code(),
            ErrorCode::InvalidParameter
        );
    }
    assert_eq!(
        exact_args(&[2, 7]).unwrap(),
        (
            "2,7".to_string(),
            "(UID RFC822.SIZE BODY.PEEK[])".to_string()
        )
    );
    assert!(exact_args(&[]).is_err());
    assert!(exact_args(&[2, 0]).is_err());
}
