use bichon_uidonly::account::{AccountModel, AuthConfig, AuthType, Encryption, ImapConfig};
use bichon_uidonly::adapter::{ReadStep, UidOnlyAdapter};
use bichon_uidonly::batches::{planned_fetch_batches, protocol_probe_literal, InventoryItem};
use bichon_uidonly::capability::{acquisition_route, classify_capabilities, AcquisitionRoute};
use bichon_uidonly::capability::{conservative_message_limit, CapabilityRoute};
use bichon_uidonly::command::{InventoryRequest, UidOnlyCommand};
use bichon_uidonly::inventory::InventoryPlanner;
use bichon_uidonly::dispatch::{classify_uidfetch, Accumulator, Attribute};
use bichon_uidonly::error::ErrorKind;
use bichon_uidonly::limits::{AdapterLimits, CommandLimits};
use bichon_uidonly::mailbox::Notification;
use bichon_uidonly::session::{command_interruption, Interruption};
use bichon_uidonly::mailbox::{InventoryItem as Item, InventoryPage};
use bichon_uidonly::nonzero::{NonZeroU32, NonZeroUsize};
use bichon_uidonly::scope::{connection_scope, source_scope};
use bichon_uidonly::words::normalize_whitespace;

fn nz(value: u32) -> NonZeroU32 {
    NonZeroU32::new(value).unwrap()
}

#[test]
fn reads_stay_within_the_input_limit() {
    let limits = AdapterLimits {
        max_input_bytes: NonZeroUsize::new(5).unwrap(),
        ..AdapterLimits::default()
    };
    let (mut adapter, mut handle) = UidOnlyAdapter::new((), limits).unwrap();
    assert_eq!(adapter.poll_read(&mut handle, 10), ReadStep::Fill(5));
    adapter.receive(b"* OK ");
    // The bytes of a line leave the input buffer as they are looked at.
    assert_eq!(adapter.poll_read(&mut handle, 10), ReadStep::Fill(5));
    adapter.receive(b"a\r\n* ");
    assert_eq!(
        adapter.poll_read(&mut handle, 4),
        ReadStep::Deliver(b"* OK".to_vec())
    );
    assert_eq!(
        adapter.poll_read(&mut handle, 10),
        ReadStep::Deliver(b" a\r\n".to_vec())
    );
    adapter.receive(b"");
    assert!(matches!(
        adapter.poll_read(&mut handle, 10),
        ReadStep::Fault(error) if error.message == "truncated IMAP response"
    ));
    assert_eq!(
        adapter.poll_read(&mut handle, 0),
        ReadStep::Deliver(Vec::new())
    );
}

#[test]
fn an_ended_stream_ends_between_responses() {
    let (mut adapter, mut handle) = UidOnlyAdapter::new((), AdapterLimits::default()).unwrap();
    adapter.receive(b"");
    assert_eq!(adapter.poll_read(&mut handle, 10), ReadStep::Ended);
}

#[test]
fn commands_are_read_only_and_one_line() {
    let limits = CommandLimits::default();
    for command in [
        UidOnlyCommand::Examine {
            encoded_mailbox: "a\"b\\c".into(),
        },
        UidOnlyCommand::Inventory(InventoryRequest::new(nz(1), nz(2), nz(3)).unwrap()),
        UidOnlyCommand::BodyChunk {
            uid: nz(1),
            offset: 0,
            count: nz(1),
        },
        UidOnlyCommand::Noop,
        UidOnlyCommand::Logout,
    ] {
        let line = command.render(&limits).unwrap();
        assert!(["EXAMINE \"", "UID FETCH ", "NOOP", "LOGOUT"]
            .iter()
            .any(|word| line.starts_with(word)));
        assert!(line.bytes().all(|byte| (32..127).contains(&byte)));
    }
}

#[test]
fn different_names_are_escaped_differently() {
    let render = |name: &str| {
        UidOnlyCommand::Examine {
            encoded_mailbox: name.into(),
        }
        .render(&CommandLimits::default())
        .unwrap()
    };
    assert_eq!(render("a\\\""), "EXAMINE \"a\\\\\\\"\"");
    assert_ne!(render("a\\\""), render("a\\\\\""));
}

#[test]
fn normalizing_twice_changes_nothing() {
    let once = normalize_whitespace(" a \u{a0}b\tc ", Some(4));
    assert_eq!(once, "a b");
    assert_eq!(normalize_whitespace(&once, Some(4)), once);
    assert!(once.len() <= 4);
}

#[test]
fn sources_are_told_apart_where_fields_meet() {
    let scope = |host: &str, email: &str| {
        source_scope(&AccountModel {
            email: email.into(),
            imap: Some(ImapConfig {
                host: host.into(),
                port: 993,
                encryption: Encryption::Plain,
                auth: AuthConfig {
                    auth_type: AuthType::Password,
                    password: None,
                },
                use_proxy: None,
            }),
            ..Default::default()
        })
        .unwrap()
    };
    assert_ne!(scope("ab", "c"), scope("a", "bc"));
    assert_eq!(scope("AB.", "c"), scope(" ab ", "c"));
    assert_eq!(scope("ab", "c").len(), 64);
}

#[test]
fn batches_hold_every_message_once_and_in_order() {
    let items: Vec<InventoryItem> = (1..=10)
        .map(|uid| InventoryItem {
            uid,
            rfc822_size: u64::from(uid),
        })
        .collect();
    let batches = planned_fetch_batches(items.clone(), 4, 12);
    assert!(batches.iter().all(|batch| batch.len() <= 4));
    assert!(batches.iter().all(|batch| {
        batch.len() == 1 || batch.iter().map(|item| item.rfc822_size).sum::<u64>() <= 12
    }));
    assert_eq!(batches.concat(), items);
}

#[test]
fn probe_literals_are_always_usable() {
    assert_eq!(protocol_probe_literal(0), 1);
    assert_eq!(protocol_probe_literal(7), 7);
    assert_eq!(protocol_probe_literal(u64::MAX), u64::from(u32::MAX));
}

#[test]
fn partial_alone_is_an_ordinary_server() {
    assert_eq!(
        acquisition_route(false, true, false),
        AcquisitionRoute::Standard
    );
    assert_eq!(
        classify_capabilities(&["PARTIAL".to_string()]).unwrap(),
        CapabilityRoute::Legacy
    );
    assert_eq!(conservative_message_limit(None, None), None);
    assert_eq!(
        conservative_message_limit(None, Some(nz(3))),
        Some(nz(3))
    );
}

#[test]
fn an_inventory_moves_forward_and_ends() {
    let mut planner = InventoryPlanner::new(Some(nz(9)), nz(4), None);
    let mut seen = Vec::new();
    let mut pages = 0;
    while let Some(request) = planner.next_request() {
        let first = request.start().get();
        let uids: Vec<u32> = [2, 5, 6, 9]
            .into_iter()
            .filter(|uid| *uid >= first)
            .take(2)
            .collect();
        seen.extend_from_slice(&uids);
        let page = InventoryPage {
            request,
            items: uids
                .iter()
                .map(|uid| Item {
                    uid: nz(*uid),
                    rfc822_size: 1,
                    internal_date: String::new(),
                })
                .collect(),
            notifications: Vec::new(),
        };
        let page = planner.validate_page(page).unwrap();
        planner.commit_page(page).unwrap();
        pages += 1;
    }
    assert!(planner.is_complete());
    assert_eq!(seen, [2, 5, 6, 9]);
    assert_eq!(pages, 2);
    assert!(InventoryPlanner::new(None, nz(4), None).is_complete());
}

#[test]
fn reads_pass_bytes_on_in_order_until_activation() {
    let wire = b"* OK ready\r\n* 1 FETCH (BODY[] {7}\r\nab\r\n* c)\r\n* 7 UIDFETCH (UID 7)\r\n";
    for size in 1..=wire.len() {
        let (mut adapter, mut handle) = UidOnlyAdapter::new((), AdapterLimits::default()).unwrap();
        let mut received = 0;
        let mut delivered = Vec::new();
        loop {
            match adapter.poll_read(&mut handle, 3) {
                ReadStep::Deliver(bytes) => delivered.extend_from_slice(&bytes),
                ReadStep::Fill(most) => {
                    let end = wire.len().min(received + size.min(most));
                    adapter.receive(&wire[received..end]);
                    received = end;
                }
                ReadStep::Ended => break,
                ReadStep::Wait | ReadStep::Fault(_) => panic!("not passed on"),
            }
            assert_eq!(delivered, wire[..delivered.len()]);
            assert!(delivered.len() <= received);
        }
        assert_eq!(delivered, wire);
    }
}

#[test]
fn refused_fetches_leave_what_was_gathered() {
    let limits = CommandLimits::default();
    let mut accumulator = Accumulator::default();
    let flags = || vec![Attribute::Flags(vec!["\\Seen".to_string()])];
    classify_uidfetch(&UidOnlyCommand::Noop, 4, flags(), &limits, &mut accumulator).unwrap();
    for (uid, attributes) in [
        (0, flags()),
        (4, vec![Attribute::Uid(5)]),
        (4, vec![Attribute::Uid(4), Attribute::Uid(4)]),
        (4, vec![Attribute::Unlisted]),
    ] {
        let mut expected = Accumulator::default();
        classify_uidfetch(&UidOnlyCommand::Noop, 4, flags(), &limits, &mut expected).unwrap();
        classify_uidfetch(
            &UidOnlyCommand::Noop,
            uid,
            attributes,
            &limits,
            &mut accumulator,
        )
        .unwrap_err();
        assert_eq!(accumulator, expected);
    }
}

#[test]
fn copies_of_pages_hold_everything() {
    let mut planner = InventoryPlanner::new(Some(nz(9)), nz(4), None);
    let page = planner
        .validate_page(InventoryPage {
            request: planner.next_request().unwrap(),
            items: vec![Item {
                uid: nz(3),
                rfc822_size: 8,
                internal_date: "date".into(),
            }],
            notifications: vec![
                Notification::Flags {
                    uid: nz(3),
                    flags: vec!["\\Seen".into()],
                },
                Notification::Vanished {
                    earlier: true,
                    uids: vec![4..=6],
                },
            ],
        })
        .unwrap();
    assert_eq!(page.clone(), page);
    planner.commit_page(page).unwrap();
}

#[test]
fn unreadable_responses_keep_the_kind_of_their_error() {
    for kind in [ErrorKind::ConnectionReset, ErrorKind::BrokenPipe, ErrorKind::Other] {
        let error = command_interruption(Interruption::Unreadable(kind));
        assert_eq!(error.kind, kind);
        assert_eq!(error.message, "UIDONLY IMAP response read or parse failed");
    }
}

#[test]
fn connections_are_told_apart_by_their_policy() {
    let account = |use_dangerous: bool, use_proxy: Option<u64>, auth_type: AuthType| AccountModel {
        email: "c".into(),
        use_dangerous,
        imap: Some(ImapConfig {
            host: "ab".into(),
            port: 993,
            encryption: Encryption::Ssl,
            auth: AuthConfig {
                auth_type,
                password: None,
            },
            use_proxy,
        }),
        ..Default::default()
    };
    let plain = account(false, None, AuthType::Password);
    for other in [
        account(true, None, AuthType::Password),
        account(false, Some(0), AuthType::Password),
        account(false, None, AuthType::OAuth2),
    ] {
        assert_eq!(source_scope(&plain).unwrap(), source_scope(&other).unwrap());
        assert_ne!(
            connection_scope(&plain).unwrap(),
            connection_scope(&other).unwrap()
        );
    }
}
