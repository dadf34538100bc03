use std::collections::{BTreeMap, BTreeSet, VecDeque};

use bichon_uidonly::account::{AccountModel, AuthConfig, AuthType, Encryption, ImapConfig};
use bichon_uidonly::acquisition::{operation_interruption, Acquisition, Action, Event};
use bichon_uidonly::acquisition_model::{
    AcquisitionProgress, AcquisitionReport, MailboxSnapshot, UidOnlyMessage,
};
use bichon_uidonly::batches::{
    effective_fetch_batch_size, planned_fetch_batches, protocol_limits, protocol_probe_literal,
    AcquisitionLimits, InventoryItem,
};
use bichon_uidonly::capability::{
    account_requires_uidonly, classify_capabilities, require_uidonly_opt_in, CapabilityRoute,
};
use bichon_uidonly::failure::{raise, BichonError, ErrorCode};
use bichon_uidonly::limits::Duration;
use bichon_uidonly::scope::{connection_scope, source_scope};
use bichon_uidonly::transport::{
    check_exact_fetch, exact_args, inventory_args, inventory_items, FetchedMessage,
};

fn limits() -> AcquisitionLimits {
    let mut limits = AcquisitionLimits::bounded(64 * 1024);
    limits.max_operation_runtime = Duration::from_secs(20);
    limits.page_size = 2;
    limits.fetch_batch_size = 1;
    limits
}

fn inventory_item(uid: u32, rfc822_size: u64) -> InventoryItem {
    InventoryItem { uid, rfc822_size }
}

#[test]
fn capability_routing_ignores_standalone_partial_and_rejects_partial_uidonly_sets() {
    assert_eq!(
        classify_capabilities(&["IMAP4rev1".into(), "PARTIAL".into()]).unwrap(),
        CapabilityRoute::Legacy
    );
    assert_eq!(
        classify_capabilities(&[
            "IMAP4rev1".into(),
            "uidonly".into(),
            "partial".into(),
            "messagelimit=10000".into(),
        ])
        .unwrap(),
        CapabilityRoute::UidOnly {
            message_limit: 10_000
        }
    );
    for capabilities in [
        vec!["UIDONLY".into(), "PARTIAL".into()],
        vec!["MESSAGELIMIT=1000".into(), "PARTIAL".into()],
        vec!["UIDONLY".into(), "PARTIAL".into(), "MESSAGELIMIT=0".into()],
    ] {
        assert!(classify_capabilities(&capabilities).is_err());
    }
    let cached = |capability: &str| AccountModel {
        capabilities: Some(vec![capability.into()]),
        ..Default::default()
    };
    assert!(!account_requires_uidonly(&cached("PARTIAL")));
    assert!(account_requires_uidonly(&cached("UIDONLY")));
    assert!(account_requires_uidonly(&cached("MESSAGELIMIT=10000")));
}

#[test]
fn uidonly_route_requires_explicit_account_opt_in() {
    let route = CapabilityRoute::UidOnly {
        message_limit: 10_000,
    };
    let error = require_uidonly_opt_in(&AccountModel::default(), route).unwrap_err();
    assert_eq!(error.code(), ErrorCode::Incompatible);
    assert!(error.message.contains("enable uidonly_enabled"));

    let enabled = AccountModel {
        uidonly_enabled: true,
        ..Default::default()
    };
    assert!(require_uidonly_opt_in(&enabled, route).is_ok());
    assert!(require_uidonly_opt_in(&AccountModel::default(), CapabilityRoute::Legacy).is_ok());
}

#[test]
fn capability_probe_accepts_limits_that_only_uidonly_rejects() {
    for configured in [0, u64::from(u32::MAX) + 1] {
        assert!(protocol_limits(protocol_probe_literal(configured)).is_ok());
        assert!(protocol_limits(configured).is_err());
    }
}

#[test]
fn fetch_batch_limits_honor_account_server_and_byte_bounds() {
    assert_eq!(effective_fetch_batch_size(None, 1_000), 30);
    assert_eq!(effective_fetch_batch_size(Some(8), 1_000), 8);
    assert_eq!(effective_fetch_batch_size(Some(100), 1_000), 32);
    assert_eq!(effective_fetch_batch_size(Some(30), 4), 4);

    let items = vec![
        inventory_item(1, 40),
        inventory_item(2, 40),
        inventory_item(3, 10),
    ];
    let batches = planned_fetch_batches(items, 2, 64);
    assert_eq!(
        batches
            .iter()
            .map(|batch| batch.iter().map(|item| item.uid).collect::<Vec<_>>())
            .collect::<Vec<_>>(),
        [vec![1], vec![2, 3]]
    );
}

#[test]
fn source_identity_is_stable_across_connection_policy_changes() {
    let account = AccountModel {
        email: "alice@example.invalid".into(),
        imap: Some(ImapConfig {
            host: "IMAP.EXAMPLE.INVALID.".into(),
            port: 993,
            encryption: Encryption::Ssl,
            auth: AuthConfig {
                auth_type: AuthType::Password,
                password: None,
            },
            use_proxy: None,
        }),
        ..Default::default()
    };
    let source = source_scope(&account).unwrap();
    let connection = connection_scope(&account).unwrap();
    for changed in [
        AccountModel {
            use_dangerous: true,
            ..account.clone()
        },
        AccountModel {
            imap: account.imap.clone().map(|mut imap| {
                imap.use_proxy = Some(7);
                imap
            }),
            ..account.clone()
        },
        AccountModel {
            imap: account.imap.clone().map(|mut imap| {
                imap.auth.auth_type = AuthType::OAuth2;
                imap
            }),
            ..account.clone()
        },
    ] {
        assert_eq!(source_scope(&changed).unwrap(), source);
        assert_ne!(connection_scope(&changed).unwrap(), connection);
    }
    let mut other_principal = account;
    other_principal.login_name = Some("other@example.invalid".into());
    assert_ne!(source_scope(&other_principal).unwrap(), source);
}

/// What the acquisition asks of a server.
trait Transport {
    fn snapshot(&mut self) -> Result<MailboxSnapshot, BichonError>;
    fn inventory_page(
        &mut self,
        cursor: u32,
        high: u32,
        page_size: u32,
    ) -> Result<Vec<InventoryItem>, BichonError>;
    fn fetch_many(
        &mut self,
        items: &[InventoryItem],
        literal_budget: u64,
        command_budget: u64,
    ) -> Result<Vec<UidOnlyMessage>, BichonError>;
    fn reconnect(&mut self, _page_size: u32) -> Result<(), BichonError> {
        Err(raise(
            ErrorCode::NetworkError,
            "UIDONLY transport reconnect is unavailable",
        ))
    }
}

/// What the acquisition asks of an archive.
trait Archive {
    fn resume_after(&self) -> Option<u32> {
        None
    }
    fn verify_many(&mut self, uids: &[u32]) -> Result<Vec<bool>, BichonError>;
    fn project_many(&mut self, messages: Vec<UidOnlyMessage>) -> Result<(), BichonError>;
}

/// Performs the actions of an acquisition; `cancelled` is asked before each of them.
fn run_acquisition<T: Transport, A: Archive>(
    transport: &mut T,
    archive: &mut A,
    expected: Option<u32>,
    limits: AcquisitionLimits,
    cancelled: &std::cell::Cell<bool>,
    mut progress: impl FnMut(AcquisitionProgress),
) -> Result<AcquisitionReport, BichonError> {
    let (mut acquisition, mut action) = Acquisition::start(limits, expected)?;
    loop {
        let stopped = || operation_interruption(false);
        let event = match action {
            Action::Done(report) => return Ok(report),
            Action::Examine => Event::Examined(if cancelled.get() {
                Err(stopped())
            } else {
                transport.snapshot()
            }),
            Action::BeginEpoch(_) => Event::Opened(Ok(archive.resume_after())),
            Action::Report(state) => {
                progress(state);
                Event::Reported(Ok(()))
            }
            Action::List {
                cursor,
                high,
                page_size,
            } => Event::Listed {
                page: if cancelled.get() {
                    Err(stopped())
                } else {
                    transport.inventory_page(cursor, high, page_size)
                },
                cancelled: cancelled.get(),
            },
            Action::Verify(uids) => Event::Verified(if cancelled.get() {
                Err(stopped())
            } else {
                archive.verify_many(&uids)
            }),
            Action::Fetch(items) => Event::Fetched(if cancelled.get() {
                Err(stopped())
            } else {
                transport.fetch_many(&items, limits.max_literal_bytes, limits.fetch_batch_bytes)
            }),
            Action::Store(messages) => Event::Stored(if cancelled.get() {
                Err(stopped())
            } else {
                archive.project_many(messages)
            }),
            Action::Reconnect { page_size, .. } => Event::Reconnected(if cancelled.get() {
                Err(stopped())
            } else {
                transport.reconnect(page_size)
            }),
        };
        let next = acquisition.on_event(event)?;
        acquisition = next.0;
        action = next.1;
    }
}

struct FakeTransport {
    snapshot: MailboxSnapshot,
    pages: VecDeque<Vec<InventoryItem>>,
    messages: BTreeMap<u32, Vec<u8>>,
    fetched: Vec<u32>,
    fetch_batches: Vec<Vec<u32>>,
    expected_cursor: Option<u32>,
}

impl FakeTransport {
    fn sparse() -> Self {
        let body = |uid: u32| {
            format!("From: sender@invalid\r\nMessage-ID: <{uid}@invalid>\r\n\r\nbody").into_bytes()
        };
        Self {
            snapshot: MailboxSnapshot {
                exists: 3,
                uid_validity: 77,
                uid_next: 51,
            },
            pages: VecDeque::from([
                vec![inventory_item(2, 64), inventory_item(30, 64)],
                vec![inventory_item(50, 64)],
                vec![],
            ]),
            messages: BTreeMap::from([(2, body(2)), (30, body(30)), (50, body(50))]),
            fetched: Vec::new(),
            fetch_batches: Vec::new(),
            expected_cursor: None,
        }
    }
}

impl Transport for FakeTransport {
    fn snapshot(&mut self) -> Result<MailboxSnapshot, BichonError> {
        Ok(self.snapshot)
    }

    fn inventory_page(
        &mut self,
        cursor: u32,
        _high: u32,
        _page_size: u32,
    ) -> Result<Vec<InventoryItem>, BichonError> {
        if let Some(expected) = self.expected_cursor.take() {
            assert_eq!(cursor, expected);
        }
        Ok(self.pages.pop_front().unwrap_or_default())
    }

    fn fetch_many(
        &mut self,
        items: &[InventoryItem],
        literal_budget: u64,
        command_budget: u64,
    ) -> Result<Vec<UidOnlyMessage>, BichonError> {
        self.fetch_batches
            .push(items.iter().map(|item| item.uid).collect());
        let mut total = 0_u64;
        let mut messages = Vec::new();
        for item in items {
            self.fetched.push(item.uid);
            let raw = self.messages.get(&item.uid).cloned().ok_or_else(|| {
                raise(ErrorCode::ImapUnexpectedResult, "synthetic missing body")
            })?;
            total += raw.len() as u64;
            if raw.len() as u64 > literal_budget || total > command_budget {
                return Err(raise(
                    ErrorCode::PayloadTooLarge,
                    "synthetic literal budget",
                ));
            }
            messages.push(UidOnlyMessage {
                uid: item.uid,
                body: raw,
            });
        }
        Ok(messages)
    }
}

struct FlakyTransport {
    inner: FakeTransport,
    inventory_failures: u32,
    fetch_failures: u32,
    aggregate_overflow_once: bool,
    reconnects: u32,
    inventory_attempts: u32,
    fetch_attempts: Vec<u32>,
    snapshot_after_reconnect: Option<MailboxSnapshot>,
    message_limit_after_reconnect: Option<u32>,
}

impl FlakyTransport {
    fn sparse() -> Self {
        Self {
            inner: FakeTransport::sparse(),
            inventory_failures: 0,
            fetch_failures: 0,
            aggregate_overflow_once: false,
            reconnects: 0,
            inventory_attempts: 0,
            fetch_attempts: Vec::new(),
            snapshot_after_reconnect: None,
            message_limit_after_reconnect: None,
        }
    }
}

impl Transport for FlakyTransport {
    fn snapshot(&mut self) -> Result<MailboxSnapshot, BichonError> {
        self.inner.snapshot()
    }

    fn inventory_page(
        &mut self,
        cursor: u32,
        high: u32,
        page_size: u32,
    ) -> Result<Vec<InventoryItem>, BichonError> {
        self.inventory_attempts += 1;
        if self.inventory_failures > 0 {
            self.inventory_failures -= 1;
            return Err(raise(ErrorCode::NetworkError, "synthetic disconnect"));
        }
        self.inner.inventory_page(cursor, high, page_size)
    }

    fn fetch_many(
        &mut self,
        items: &[InventoryItem],
        literal_budget: u64,
        command_budget: u64,
    ) -> Result<Vec<UidOnlyMessage>, BichonError> {
        self.fetch_attempts
            .extend(items.iter().map(|item| item.uid));
        if self.aggregate_overflow_once && items.len() > 1 {
            self.aggregate_overflow_once = false;
            return Err(raise(
                ErrorCode::PayloadTooLarge,
                "synthetic aggregate overflow",
            ));
        }
        if self.fetch_failures > 0 {
            self.fetch_failures -= 1;
            return Err(raise(ErrorCode::NetworkError, "synthetic disconnect"));
        }
        self.inner.fetch_many(items, literal_budget, command_budget)
    }

    fn reconnect(&mut self, page_size: u32) -> Result<(), BichonError> {
        self.reconnects += 1;
        if self
            .message_limit_after_reconnect
            .take()
            .is_some_and(|message_limit| message_limit < page_size)
        {
            return Err(raise(
                ErrorCode::Incompatible,
                "synthetic reconnect reduced MESSAGELIMIT",
            ));
        }
        if let Some(snapshot) = self.snapshot_after_reconnect.take() {
            self.inner.snapshot = snapshot;
        }
        Ok(())
    }
}

#[derive(Default)]
struct FakeArchive {
    verified: BTreeSet<u32>,
    projected: Vec<u32>,
    fail_project: bool,
    resume_after: Option<u32>,
}

impl Archive for FakeArchive {
    fn resume_after(&self) -> Option<u32> {
        self.resume_after
    }

    fn verify_many(&mut self, uids: &[u32]) -> Result<Vec<bool>, BichonError> {
        Ok(uids.iter().map(|uid| self.verified.contains(uid)).collect())
    }

    fn project_many(&mut self, messages: Vec<UidOnlyMessage>) -> Result<(), BichonError> {
        if self.fail_project {
            return Err(raise(
                ErrorCode::InternalError,
                "synthetic projection failure",
            ));
        }
        for message in messages {
            self.projected.push(message.uid);
            self.verified.insert(message.uid);
        }
        Ok(())
    }
}

fn run_with<T: Transport, A: Archive>(
    transport: &mut T,
    archive: &mut A,
    limits: AcquisitionLimits,
) -> Result<AcquisitionReport, BichonError> {
    let cancelled = std::cell::Cell::new(false);
    run_acquisition(transport, archive, Some(77), limits, &cancelled, |_| ())
}

fn run_test<T: Transport, A: Archive>(
    transport: &mut T,
    archive: &mut A,
) -> Result<AcquisitionReport, BichonError> {
    run_with(transport, archive, limits())
}

#[test]
fn sparse_snapshot_streams_and_checkpoints_fixed_high() {
    let mut transport = FakeTransport::sparse();
    let mut archive = FakeArchive::default();
    let report = run_test(&mut transport, &mut archive).unwrap();
    assert_eq!(report.checkpoint, Some(50));
    assert_eq!((report.inventoried, report.archived), (3, 3));
    assert_eq!(transport.fetched, [2, 30, 50]);
}

#[test]
fn body_batches_are_exact_and_progress_follows_projection_commits() {
    let count = 40_u32;
    let mut transport = FakeTransport {
        snapshot: MailboxSnapshot {
            exists: count,
            uid_validity: 77,
            uid_next: count + 1,
        },
        pages: VecDeque::from([(1..=count)
            .map(|uid| inventory_item(uid, 1))
            .collect::<Vec<_>>()]),
        messages: (1..=count).map(|uid| (uid, vec![b'x'])).collect(),
        fetched: Vec::new(),
        fetch_batches: Vec::new(),
        expected_cursor: None,
    };
    let mut bounded = limits();
    bounded.page_size = count;
    bounded.fetch_batch_size = 30;
    let mut progress = Vec::new();
    let cancelled = std::cell::Cell::new(false);
    let report = run_acquisition(
        &mut transport,
        &mut FakeArchive::default(),
        Some(77),
        bounded,
        &cancelled,
        |state| progress.push(state),
    )
    .unwrap();

    assert_eq!(report.archived, u64::from(count));
    assert_eq!(transport.fetch_batches[0], (1..=30).collect::<Vec<_>>());
    assert_eq!(transport.fetch_batches[1], (31..=40).collect::<Vec<_>>());
    assert!(progress.iter().any(|state| state.downloaded == 32));
    assert_eq!(progress.last().unwrap().downloaded, u64::from(count));
}

#[test]
fn reconnect_retries_the_same_inventory_cursor() {
    let mut transport = FlakyTransport::sparse();
    transport.inventory_failures = 1;
    let report = run_test(&mut transport, &mut FakeArchive::default()).unwrap();

    assert_eq!(report.checkpoint, Some(50));
    assert_eq!(transport.reconnects, 1);
    assert_eq!(transport.inventory_attempts, 3);
}

#[test]
fn reconnect_retries_one_exact_uid_without_double_projection() {
    let mut transport = FlakyTransport::sparse();
    transport.fetch_failures = 1;
    let mut archive = FakeArchive::default();
    let report = run_test(&mut transport, &mut archive).unwrap();

    assert_eq!(report.archived, 3);
    assert_eq!(transport.reconnects, 1);
    assert_eq!(transport.fetch_attempts, [2, 2, 30, 50]);
    assert_eq!(archive.projected, [2, 30, 50]);
}

#[test]
fn reconnect_rejects_changed_uidvalidity_or_lower_uidnext() {
    for changed in [
        MailboxSnapshot {
            uid_validity: 78,
            ..FakeTransport::sparse().snapshot
        },
        MailboxSnapshot {
            uid_next: 50,
            ..FakeTransport::sparse().snapshot
        },
    ] {
        let mut transport = FlakyTransport::sparse();
        transport.inventory_failures = 1;
        transport.snapshot_after_reconnect = Some(changed);
        let error = run_test(&mut transport, &mut FakeArchive::default()).unwrap_err();

        assert_eq!(error.code(), ErrorCode::Incompatible);
        assert!(transport.inner.fetched.is_empty());
    }
}

#[test]
fn persistent_disconnect_uses_only_three_reconnects() {
    let mut transport = FlakyTransport::sparse();
    transport.inventory_failures = 4;
    let error = run_test(&mut transport, &mut FakeArchive::default()).unwrap_err();

    assert_eq!(error.code(), ErrorCode::NetworkError);
    assert_eq!(transport.reconnects, 3);
    assert_eq!(transport.inventory_attempts, 4);
}

#[test]
fn aggregate_overflow_reconnects_and_splits_without_skipping() {
    let mut transport = FlakyTransport::sparse();
    transport.aggregate_overflow_once = true;
    let mut archive = FakeArchive::default();
    let mut bounded = limits();
    bounded.fetch_batch_size = 2;
    let report = run_with(&mut transport, &mut archive, bounded).unwrap();

    assert_eq!(report.archived, 3);
    assert_eq!(transport.reconnects, 1);
    assert_eq!(archive.projected, [2, 30, 50]);
}

#[test]
fn reconnect_rejects_reduced_messagelimit_without_advancing() {
    let mut transport = FlakyTransport::sparse();
    transport.inventory_failures = 1;
    transport.message_limit_after_reconnect = Some(1);
    let mut archive = FakeArchive::default();

    let error = run_test(&mut transport, &mut archive).unwrap_err();

    assert_eq!(error.code(), ErrorCode::Incompatible);
    assert_eq!(transport.reconnects, 1);
    assert!(transport.inner.fetched.is_empty());
    assert!(archive.projected.is_empty());
}

#[test]
fn proven_checkpoint_scans_only_new_uids() {
    let mut transport = FakeTransport::sparse();
    transport.snapshot.exists = 4;
    transport.snapshot.uid_next = 60;
    transport.pages = VecDeque::from([vec![inventory_item(55, 64)]]);
    transport
        .messages
        .insert(55, b"Subject: new\r\n\r\nbody".to_vec());
    transport.expected_cursor = Some(51);
    let report = run_test(
        &mut transport,
        &mut FakeArchive {
            resume_after: Some(50),
            ..Default::default()
        },
    )
    .unwrap();
    assert_eq!((report.inventoried, report.archived), (1, 1));
    assert_eq!(report.checkpoint, Some(59));
    assert_eq!(transport.fetched, [55]);
}

#[test]
fn uidnext_behind_proven_checkpoint_fails_closed() {
    let mut transport = FakeTransport::sparse();
    let error = run_test(
        &mut transport,
        &mut FakeArchive {
            resume_after: Some(51),
            ..Default::default()
        },
    )
    .unwrap_err();
    assert_eq!(error.code(), ErrorCode::Incompatible);
    assert!(transport.fetched.is_empty());
}

#[test]
fn restart_skips_verified_receipts_without_a_secondary_ledger() {
    let mut transport = FakeTransport::sparse();
    let mut archive = FakeArchive {
        verified: BTreeSet::from([2, 30]),
        ..Default::default()
    };
    let report = run_test(&mut transport, &mut archive).unwrap();
    assert_eq!(report.archived, 3);
    assert_eq!(transport.fetched, [50]);
}

#[test]
fn short_inventory_never_returns_a_checkpoint() {
    let mut transport = FakeTransport::sparse();
    transport.snapshot.exists = 4;
    let error = run_test(&mut transport, &mut FakeArchive::default()).unwrap_err();
    assert_eq!(error.code(), ErrorCode::ImapUnexpectedResult);
}

#[test]
fn cancellation_and_projection_failure_abort_the_run() {
    let cancelled = std::cell::Cell::new(false);
    let mut transport = FakeTransport::sparse();
    let error = run_acquisition(
        &mut transport,
        &mut FakeArchive::default(),
        Some(77),
        limits(),
        &cancelled,
        |progress| {
            if progress.resolved > 0 {
                cancelled.set(true);
            }
        },
    )
    .unwrap_err();
    assert!(error.message.contains("cancelled"));

    let mut transport = FakeTransport::sparse();
    let error = run_test(
        &mut transport,
        &mut FakeArchive {
            fail_project: true,
            ..Default::default()
        },
    )
    .unwrap_err();
    assert!(error.message.contains("synthetic projection failure"));
}

struct LogicalMillion {
    cursor: u32,
}

impl Transport for LogicalMillion {
    fn snapshot(&mut self) -> Result<MailboxSnapshot, BichonError> {
        Ok(MailboxSnapshot {
            exists: 1_000_000,
            uid_validity: 9,
            uid_next: 1_000_001,
        })
    }

    fn inventory_page(
        &mut self,
        cursor: u32,
        high: u32,
        page_size: u32,
    ) -> Result<Vec<InventoryItem>, BichonError> {
        assert_eq!(cursor, self.cursor);
        let end = high.min(cursor + page_size - 1);
        self.cursor = end + 1;
        Ok((cursor..=end).map(|uid| inventory_item(uid, 64)).collect())
    }

    fn fetch_many(
        &mut self,
        _items: &[InventoryItem],
        _literal_budget: u64,
        _command_budget: u64,
    ) -> Result<Vec<UidOnlyMessage>, BichonError> {
        unreachable!("every logical receipt verifies")
    }
}

struct AllVerified;

impl Archive for AllVerified {
    fn verify_many(&mut self, uids: &[u32]) -> Result<Vec<bool>, BichonError> {
        Ok(vec![true; uids.len()])
    }

    fn project_many(&mut self, _messages: Vec<UidOnlyMessage>) -> Result<(), BichonError> {
        unreachable!("every logical receipt verifies")
    }
}

#[test]
fn million_message_inventory_is_page_bounded() {
    let mut transport = LogicalMillion { cursor: 1 };
    let mut bounded = limits();
    bounded.page_size = 1_000;
    bounded.max_operation_runtime = Duration::from_secs(30);
    let cancelled = std::cell::Cell::new(false);
    let report = run_acquisition(
        &mut transport,
        &mut AllVerified,
        Some(9),
        bounded,
        &cancelled,
        |_| (),
    )
    .unwrap();
    assert_eq!(report.inventoried, 1_000_000);
    assert_eq!(report.checkpoint, Some(1_000_000));
}

/// A server that answers from lists of fetch responses, as they come off the wire.
struct ListedTransport {
    snapshot: MailboxSnapshot,
    pages: Vec<Vec<FetchedMessage>>,
    bodies: Vec<Vec<FetchedMessage>>,
    commands: Vec<String>,
    received: u64,
}

fn listed(uid: u32, size: u32) -> FetchedMessage {
    FetchedMessage {
        leading: uid,
        uid: Some(uid),
        size: Some(size),
        body: None,
    }
}

fn exact(uid: u32, size: u32, body: &[u8]) -> FetchedMessage {
    FetchedMessage {
        leading: uid,
        uid: Some(uid),
        size: Some(size),
        body: Some(body.to_vec()),
    }
}

impl Transport for ListedTransport {
    fn snapshot(&mut self) -> Result<MailboxSnapshot, BichonError> {
        self.commands.push("A EXAMINE \"Synthetic\"".to_string());
        Ok(self.snapshot)
    }

    fn inventory_page(
        &mut self,
        cursor: u32,
        high: u32,
        page_size: u32,
    ) -> Result<Vec<InventoryItem>, BichonError> {
        let (set, query) = inventory_args(cursor, high, page_size)?;
        self.commands.push(format!("A UID FETCH {set} {query}"));
        inventory_items(&self.pages.remove(0))
    }

    fn fetch_many(
        &mut self,
        items: &[InventoryItem],
        literal_budget: u64,
        command_budget: u64,
    ) -> Result<Vec<UidOnlyMessage>, BichonError> {
        let uids: Vec<u32> = items.iter().map(|item| item.uid).collect();
        let (set, query) = exact_args(&uids)?;
        self.commands.push(format!("A UID FETCH {set} {query}"));
        let bodies = self.bodies.remove(0);
        let before = self.received;
        for message in &bodies {
            self.received += message.body.as_ref().map_or(0, |body| body.len() as u64);
        }
        check_exact_fetch(
            items,
            bodies,
            literal_budget,
            command_budget,
            before,
            self.received,
        )
    }
}

#[test]
fn tcp_fake_yahoo_uidonly_pages_sparse_uids_and_checkpoints_after_verification() {
    let messages = [
        (2, b"".as_slice()),
        (7, b"Subject: seven\r\n\r\nseven".as_slice()),
        (9, b"Subject: nine\r\n\r\nnine".as_slice()),
    ];
    // The reported sizes are deliberately advisory and wrong. The literal byte count is
    // the acquisition/accounting authority.
    let mut transport = ListedTransport {
        snapshot: MailboxSnapshot {
            exists: 3,
            uid_validity: 77,
            uid_next: 10,
        },
        pages: vec![vec![listed(2, 999), listed(7, 1)], vec![listed(9, 0)]],
        bodies: vec![
            vec![exact(7, 2, messages[1].1), exact(2, 1, messages[0].1)],
            vec![exact(9, 3, messages[2].1)],
        ],
        commands: Vec::new(),
        received: 0,
    };
    let mut archive = FakeArchive::default();
    let mut bounded = limits();
    bounded.fetch_batch_size = 2;
    let report = run_with(&mut transport, &mut archive, bounded).expect("complete fixed snapshot");

    assert_eq!(report.checkpoint, Some(9));
    assert_eq!((report.inventoried, report.archived), (3, 3));
    assert_eq!(archive.projected, [2, 7, 9]);

    let commands = transport.commands.join("\n");
    assert_eq!(commands.matches(" EXAMINE ").count(), 2);
    assert!(commands.contains(" UID FETCH 1:9 (UID RFC822.SIZE) (PARTIAL 1:2)"));
    assert!(commands.contains(" UID FETCH 8:9 (UID RFC822.SIZE) (PARTIAL 1:2)"));
    assert_eq!(commands.matches("BODY.PEEK[]").count(), 2);
    let commands = commands.to_ascii_uppercase();
    assert!(
        ![" STORE ", " MOVE ", " COPY ", " DELETE ", " EXPUNGE", " CLOSE",]
            .iter()
            .any(|forbidden| commands.contains(forbidden))
    );
}

#[test]
fn tcp_fake_yahoo_inventory_crosses_10000_before_one_30_body_command() {
    const MESSAGE_COUNT: u32 = 10_030;
    const PAGE_SIZE: u32 = 1_000;
    const FIRST_BODY_UID: u32 = 10_001;

    let mut pages = Vec::new();
    let mut cursor = 1_u32;
    while cursor <= MESSAGE_COUNT {
        let end = MESSAGE_COUNT.min(cursor + PAGE_SIZE - 1);
        pages.push((cursor..=end).map(|uid| listed(uid, 1)).collect());
        cursor = end + 1;
    }
    let requested_uids = (FIRST_BODY_UID..=MESSAGE_COUNT).collect::<Vec<_>>();
    let mut transport = ListedTransport {
        snapshot: MailboxSnapshot {
            exists: MESSAGE_COUNT,
            uid_validity: 77,
            uid_next: MESSAGE_COUNT + 1,
        },
        pages,
        bodies: vec![requested_uids
            .iter()
            .rev()
            .map(|uid| exact(*uid, 1, b"x"))
            .collect()],
        commands: Vec::new(),
        received: 0,
    };
    let mut archive = FakeArchive {
        verified: (1..FIRST_BODY_UID).collect(),
        ..Default::default()
    };
    let mut bounded = limits();
    bounded.page_size = PAGE_SIZE;
    bounded.fetch_batch_size = 30;
    let report = run_with(&mut transport, &mut archive, bounded)
        .expect("inventory and body retrieval must cross the 10,000-message boundary");

    assert_eq!(report.inventoried, u64::from(MESSAGE_COUNT));
    assert_eq!(report.archived, u64::from(MESSAGE_COUNT));
    assert_eq!(report.checkpoint, Some(MESSAGE_COUNT));
    assert_eq!(archive.projected, requested_uids);

    let commands = transport.commands.join("\n");
    assert_eq!(
        commands.matches("RFC822.SIZE) (PARTIAL 1:1000)").count(),
        11
    );
    assert_eq!(commands.matches("BODY.PEEK[]").count(), 1);
    let body_command = format!(
        "UID FETCH {} (",
        requested_uids
            .iter()
            .map(u32::to_string)
            .collect::<Vec<_>>()
            .join(",")
    );
    assert!(commands.contains(&body_command));
    let commands = commands.to_ascii_uppercase();
    assert!(
        ![" STORE ", " MOVE ", " COPY ", " DELETE ", " EXPUNGE", " CLOSE",]
            .iter()
            .any(|forbidden| commands.contains(forbidden))
    );
}

#[test]
fn session_body_batch_rejects_missing_duplicate_and_extraneous_uids() {
    let one = b"x".as_slice();
    for response in [
        vec![exact(7, 1, one)],
        vec![exact(7, 1, one), exact(7, 1, one)],
        vec![exact(7, 1, one), exact(99, 1, one)],
    ] {
        let received = response.len() as u64;
        let error = check_exact_fetch(
            &[inventory_item(7, 1), inventory_item(42, 1)],
            response,
            64 * 1024,
            64 * 1024,
            0,
            received,
        )
        .err()
        .expect("malformed batch must fail");
        assert_eq!(error.code(), ErrorCode::ImapUnexpectedResult);
    }
}
