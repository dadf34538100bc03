use std::collections::VecDeque;

use bichon_uidonly::adapter::{AdapterHandle, ReadStep, UidOnlyAdapter};
use bichon_uidonly::command::InventoryRequest;
use bichon_uidonly::dispatch::{
    Attribute, BodySection, CommandOutput, MailboxDatum, Response, ResponseCode, Status,
};
use bichon_uidonly::error::{Error, ErrorKind};
use bichon_uidonly::framing::Provenance;
use bichon_uidonly::inventory::{missing_verified_uids, InventoryPlanner};
use bichon_uidonly::limits::{AdapterLimits, CommandLimits};
use bichon_uidonly::mailbox::{
    BodyChunk, ExactFetchOutcome, InventoryItem, InventoryPage, MailboxSnapshot, Notification,
};
use bichon_uidonly::nonzero::{NonZeroU32, NonZeroUsize};
use bichon_uidonly::session::{
    command_interruption, enable_interruption, CommandProgress, EnableProgress, Interruption,
    PreparedCommand, UidOnlySession,
};

fn nz(value: u32) -> NonZeroU32 {
    NonZeroU32::new(value).expect("test value is nonzero")
}

fn nzu(value: usize) -> NonZeroUsize {
    NonZeroUsize::new(value).expect("test value is nonzero")
}

/// What a read of the scripted connection came to.
enum ReadOutcome {
    Bytes(Vec<u8>),
    Blocked,
    Failed(Error),
}

/// Why there is no further response.
enum Stop {
    Adapter(Error),
    Unparsed(ErrorKind),
    Expired,
}

/// A connection that plays a transcript back, in pieces of the planned sizes.
struct Wire {
    transcript: Vec<u8>,
    position: usize,
    chunks: VecDeque<usize>,
    stall_at_eof: bool,
    adapter: UidOnlyAdapter<()>,
    handle: AdapterHandle,
    buffered: Vec<u8>,
    written: String,
    tags: u32,
}

impl Wire {
    fn new(transcript: Vec<u8>, limits: AdapterLimits) -> Wire {
        let (adapter, handle) = UidOnlyAdapter::new((), limits).unwrap();
        Wire {
            transcript,
            position: 0,
            chunks: VecDeque::new(),
            stall_at_eof: false,
            adapter,
            handle,
            buffered: Vec::new(),
            written: String::new(),
            tags: 0,
        }
    }

    fn with_plan(mut self, chunks: impl IntoIterator<Item = usize>) -> Wire {
        self.chunks = chunks.into_iter().collect();
        self
    }

    fn read(&mut self, wanted: usize) -> ReadOutcome {
        loop {
            match self.adapter.poll_read(&mut self.handle, wanted) {
                ReadStep::Deliver(bytes) => return ReadOutcome::Bytes(bytes),
                ReadStep::Wait => return ReadOutcome::Blocked,
                ReadStep::Ended => return ReadOutcome::Bytes(Vec::new()),
                ReadStep::Fault(error) => return ReadOutcome::Failed(error),
                ReadStep::Fill(most) => {
                    if self.position == self.transcript.len() && self.stall_at_eof {
                        return ReadOutcome::Blocked;
                    }
                    let planned = self.chunks.pop_front().unwrap_or(usize::MAX);
                    let count = planned.min(most).min(self.transcript.len() - self.position);
                    let end = self.position + count;
                    let bytes = self.transcript[self.position..end].to_vec();
                    self.position = end;
                    self.adapter.receive(&bytes);
                }
            }
        }
    }

    fn read_exact(&mut self, count: usize) -> Vec<u8> {
        let mut result = Vec::new();
        while result.len() < count {
            match self.read(count - result.len()) {
                ReadOutcome::Bytes(bytes) => {
                    assert!(!bytes.is_empty(), "unexpected end");
                    result.extend_from_slice(&bytes);
                }
                ReadOutcome::Blocked => panic!("blocked"),
                ReadOutcome::Failed(error) => panic!("{}", error.message),
            }
        }
        result
    }

    fn read_to_end(&mut self, observed: &mut Vec<u8>, size: usize) -> Result<(), Error> {
        loop {
            match self.read(size) {
                ReadOutcome::Bytes(bytes) if bytes.is_empty() => return Ok(()),
                ReadOutcome::Bytes(bytes) => observed.extend_from_slice(&bytes),
                ReadOutcome::Blocked => panic!("blocked"),
                ReadOutcome::Failed(error) => return Err(error),
            }
        }
    }

    /// The next response, `None` at the end, or why there is none.
    fn response(&mut self) -> Result<Option<Response>, Stop> {
        loop {
            if !self.buffered.is_empty() {
                let parsed = match imap_proto::Response::from_bytes(&self.buffered) {
                    Ok((rest, response)) => Some((rest.len(), convert(&response))),
                    Err(error) if error.is_incomplete() => None,
                    Err(_) => return Err(Stop::Unparsed(ErrorKind::Other)),
                };
                if let Some((rest, response)) = parsed {
                    let used = self.buffered.len() - rest;
                    self.buffered.drain(..used);
                    return Ok(Some(response));
                }
            }
            match self.read(8 * 1024) {
                ReadOutcome::Bytes(bytes) if bytes.is_empty() => {
                    if self.buffered.is_empty() {
                        return Ok(None);
                    }
                    return Err(Stop::Unparsed(ErrorKind::UnexpectedEof));
                }
                ReadOutcome::Bytes(bytes) => self.buffered.extend_from_slice(&bytes),
                ReadOutcome::Blocked => return Err(Stop::Expired),
                ReadOutcome::Failed(error) => return Err(Stop::Adapter(error)),
            }
        }
    }

    fn send(&mut self, text: &str) -> String {
        self.tags += 1;
        let tag = format!("A{:04}", self.tags);
        self.written.push_str(&format!("{tag} {text}\r\n"));
        tag
    }

    fn log_in(&mut self) {
        assert!(matches!(
            self.response(),
            Ok(Some(Response::Data {
                status: Status::Success,
                ..
            }))
        ));
        let tag = self.send("LOGIN \"synthetic-user\" \"synthetic-password\"");
        assert!(matches!(
            self.response(),
            Ok(Some(Response::Done { tag: t, .. })) if t == tag
        ));
    }

    fn enable(&mut self, limits: CommandLimits) -> Result<UidOnlySession, Error> {
        let text = UidOnlySession::may_enable(&self.handle, &limits)?;
        let tag = self.send(text);
        let mut run = UidOnlySession::enable(&mut self.handle, limits, tag)?;
        loop {
            let response = match self.response() {
                Ok(Some(response)) => response,
                Ok(None) => return Err(enable_interruption(false)),
                Err(Stop::Adapter(error)) => return Err(error),
                Err(Stop::Unparsed(_)) => panic!("unparsed response"),
                Err(Stop::Expired) => return Err(enable_interruption(true)),
            };
            match run.on_response(&self.handle, &response)? {
                EnableProgress::Pending(next) => run = next,
                EnableProgress::Enabled(session) => return Ok(session),
            }
        }
    }

    fn run(
        &mut self,
        prepared: Result<PreparedCommand, Error>,
    ) -> Result<(UidOnlySession, CommandOutput), Error> {
        let prepared = prepared?;
        let tag = self.send(prepared.text());
        let mut run = prepared.sent(tag);
        loop {
            let response = match self.response() {
                Ok(Some(response)) => response,
                Ok(None) => return Err(command_interruption(Interruption::Closed)),
                Err(stop) => {
                    return Err(command_interruption(match stop {
                        Stop::Adapter(error) => Interruption::Unreadable(error.kind),
                        Stop::Unparsed(kind) => Interruption::Unreadable(kind),
                        Stop::Expired => Interruption::Expired,
                    }))
                }
            };
            match run.on_response(&mut self.handle, response)? {
                CommandProgress::Pending(next) => run = next,
                CommandProgress::Complete(session, output) => return Ok((session, output)),
            }
        }
    }
}

fn convert_status(status: &imap_proto::Status) -> Status {
    match status {
        imap_proto::Status::Ok => Status::Success,
        imap_proto::Status::No => Status::No,
        imap_proto::Status::Bad => Status::Bad,
        imap_proto::Status::PreAuth => Status::PreAuth,
        imap_proto::Status::Bye => Status::Bye,
    }
}

fn convert_code(code: &imap_proto::ResponseCode<'_>) -> ResponseCode {
    match code {
        imap_proto::ResponseCode::ReadOnly => ResponseCode::ReadOnly,
        imap_proto::ResponseCode::UidValidity(value) => ResponseCode::UidValidity(*value),
        imap_proto::ResponseCode::UidNext(value) => ResponseCode::UidNext(*value),
        imap_proto::ResponseCode::PermanentFlags(_) => ResponseCode::PermanentFlags,
        imap_proto::ResponseCode::HighestModSeq(_) => ResponseCode::HighestModSeq,
        imap_proto::ResponseCode::Unseen(_) => ResponseCode::Unseen,
        imap_proto::ResponseCode::Alert => ResponseCode::Alert,
        _ => ResponseCode::Unlisted,
    }
}

fn convert_attribute(attribute: &imap_proto::AttributeValue<'_>) -> Attribute {
    match attribute {
        imap_proto::AttributeValue::Uid(uid) => Attribute::Uid(*uid),
        imap_proto::AttributeValue::Flags(flags) => {
            Attribute::Flags(flags.iter().map(|flag| flag.to_string()).collect())
        }
        imap_proto::AttributeValue::Rfc822Size(size) => Attribute::Rfc822Size(*size),
        imap_proto::AttributeValue::InternalDate(date) => {
            Attribute::InternalDate(date.to_string())
        }
        imap_proto::AttributeValue::BodySection {
            section,
            index,
            data,
        } => Attribute::Body(BodySection {
            whole_message: section.is_none(),
            offset: *index,
            data: data.as_ref().map(|bytes| bytes.to_vec()),
        }),
        _ => Attribute::Unlisted,
    }
}

fn convert(response: &imap_proto::Response<'_>) -> Response {
    match response {
        imap_proto::Response::Done {
            tag, status, code, ..
        } => Response::Done {
            tag: tag.0.clone(),
            status: convert_status(status),
            code: code.as_ref().map(convert_code),
        },
        imap_proto::Response::Data { status, code, .. } => Response::Data {
            status: convert_status(status),
            code: code.as_ref().map(convert_code),
        },
        imap_proto::Response::Fetch(leading_uid, attributes) => Response::Fetch {
            leading_uid: *leading_uid,
            attributes: attributes.iter().map(convert_attribute).collect(),
        },
        imap_proto::Response::MailboxData(datum) => Response::Mailbox(match datum {
            imap_proto::MailboxDatum::Exists(count) => MailboxDatum::Exists(*count),
            imap_proto::MailboxDatum::Recent(count) => MailboxDatum::Recent(*count),
            imap_proto::MailboxDatum::Flags(_) => MailboxDatum::Flags,
            _ => MailboxDatum::Unlisted,
        }),
        imap_proto::Response::Vanished { earlier, uids } => Response::Vanished {
            earlier: *earlier,
            uids: uids.clone(),
        },
        imap_proto::Response::Expunge(_) => Response::Expunge,
        imap_proto::Response::Capabilities(_) => Response::Capabilities,
        _ => Response::Unlisted,
    }
}

fn fixture_with_after_enable(after_enable: &[u8]) -> Vec<u8> {
    let mut transcript =
        b"* OK synthetic ready\r\nA0001 OK LOGIN completed\r\n* ENABLED UIDONLY\r\nA0002 OK ENABLE completed\r\n"
            .to_vec();
    transcript.extend_from_slice(after_enable);
    transcript
}

fn activated_session(
    transcript: Vec<u8>,
    adapter_limits: AdapterLimits,
    command_limits: CommandLimits,
) -> (UidOnlySession, Wire) {
    activate(Wire::new(transcript, adapter_limits), command_limits)
}

fn activate(mut wire: Wire, limits: CommandLimits) -> (UidOnlySession, Wire) {
    wire.log_in();
    let session = wire.enable(limits).unwrap();
    assert!(wire.handle.is_active());
    assert_eq!(wire.handle.provenance_len(), 0);
    (session, wire)
}

fn default_session(after_enable: &[u8]) -> (UidOnlySession, Wire) {
    activated_session(
        fixture_with_after_enable(after_enable),
        AdapterLimits::default(),
        CommandLimits::default(),
    )
}

#[test]
fn coalesced_enable_and_uidfetch_preserve_provenance() {
    let (session, mut wire) = default_session(
        b"* 42 uIdFeTcH (UID 42 FLAGS (\\Seen))\r\nA0003 OK NOOP completed\r\n",
    );

    let (_session, output) = wire.run(session.noop()).unwrap();
    assert_eq!(
        output,
        CommandOutput::Noop(vec![Notification::Flags {
            uid: nz(42),
            flags: vec!["\\Seen".to_string()],
        }])
    );
    assert_eq!(wire.handle.poison_reason(), None);
    assert!(wire.written.contains("A0002 ENABLE UIDONLY\r\n"));
    assert!(wire.written.contains("A0003 NOOP\r\n"));
}

#[test]
fn examine_returns_fixed_read_only_snapshot_including_empty_mailbox() {
    let (session, mut wire) = default_session(
        b"* FLAGS (\\Seen)\r\n* 0 EXISTS\r\n* 0 RECENT\r\n* OK [UIDVALIDITY 42]\r\n* OK [UIDNEXT 1]\r\nA0003 OK [READ-ONLY] EXAMINE completed\r\n",
    );

    let (_session, output) = wire.run(session.examine("INBOX".to_string())).unwrap();
    assert_eq!(
        output,
        CommandOutput::Examine(MailboxSnapshot {
            exists: 0,
            uid_validity: nz(42),
            uid_next: nz(1),
            snapshot_high_uid: None,
            notifications: vec![Notification::Recent(0)],
        })
    );
}

#[test]
fn examine_rejects_ambiguous_snapshot_identity() {
    for (response, expected) in [
        (
            b"* 0 EXISTS\r\n* 1 EXISTS\r\n* OK [UIDVALIDITY 42]\r\n* OK [UIDNEXT 1]\r\nA0003 OK [READ-ONLY] EXAMINE completed\r\n"
                .as_slice(),
            "more than one EXISTS",
        ),
        (
            b"* 0 EXISTS\r\n* OK [UIDVALIDITY 42]\r\n* OK [UIDVALIDITY 43]\r\n* OK [UIDNEXT 1]\r\nA0003 OK [READ-ONLY] EXAMINE completed\r\n"
                .as_slice(),
            "more than one UIDVALIDITY",
        ),
        (
            b"* 0 EXISTS\r\n* OK [UIDVALIDITY 42]\r\n* OK [UIDNEXT 1]\r\n* OK [UIDNEXT 2]\r\nA0003 OK [READ-ONLY] EXAMINE completed\r\n"
                .as_slice(),
            "more than one UIDNEXT",
        ),
        (
            b"* 1 EXISTS\r\n* OK [UIDVALIDITY 42]\r\n* OK [UIDNEXT 1]\r\nA0003 OK [READ-ONLY] EXAMINE completed\r\n"
                .as_slice(),
            "inconsistent with UIDNEXT",
        ),
    ] {
        let (session, mut wire) = default_session(response);
        let error = wire.run(session.examine("INBOX".to_string())).unwrap_err();
        assert!(error.message.contains(expected), "{}", error.message);
    }
}

#[test]
fn enable_without_exact_enabled_uidonly_fails_closed() {
    let transcript =
        b"* OK synthetic ready\r\nA0001 OK LOGIN completed\r\nA0002 OK ENABLE completed\r\n"
            .to_vec();
    let mut wire = Wire::new(transcript, AdapterLimits::default());
    wire.log_in();
    let error = wire.enable(CommandLimits::default()).unwrap_err();
    assert!(error.message.contains("without ENABLED UIDONLY"), "{}", error.message);
    assert!(wire
        .handle
        .poison_reason()
        .is_some_and(|reason| reason.contains("without ENABLED UIDONLY")));
    assert!(!wire.handle.is_active());

    let mut wire = Wire::new(fixture_with_after_enable(b""), AdapterLimits::default());
    wire.log_in();
    let limits = CommandLimits {
        max_wire_bytes: nzu(45),
        ..CommandLimits::default()
    };
    let error = wire.enable(limits).unwrap_err();
    assert!(error.message.contains("wire bytes"));
}

#[test]
fn uidfetch_before_matching_enable_completion_fails_closed() {
    let transcript =
        b"* OK synthetic ready\r\nA0001 OK LOGIN completed\r\n* ENABLED UIDONLY\r\n* 7 UIDFETCH (FLAGS ())\r\nA0002 OK ENABLE completed\r\n"
            .to_vec();
    let mut wire = Wire::new(transcript, AdapterLimits::default());
    wire.log_in();
    let error = wire.enable(CommandLimits::default()).unwrap_err();
    assert!(error.message.contains("before UIDONLY activation"), "{}", error.message);
    assert!(wire
        .handle
        .poison_reason()
        .is_some_and(|reason| reason.contains("before UIDONLY activation")));
    assert!(!wire.handle.is_active());
}

#[test]
fn literal_bytes_survive_fragmentation_pending_and_tiny_output_buffers() {
    let body = b"line 1\r\n* 777 UIDFETCH (UID 777)\r\n{999}\r\nline 4";
    let mut active = format!("* 42 UIDFETCH (UID 42 BODY[] {{{}}}\r\n", body.len()).into_bytes();
    active.extend_from_slice(body);
    active.extend_from_slice(b")\r\n");
    let transcript = b"* ENABLED UIDONLY\r\nA0009 OK ENABLE completed\r\n"
        .iter()
        .copied()
        .chain(active.iter().copied())
        .collect::<Vec<_>>();
    let expected = transcript
        .windows(8)
        .position(|window| window.eq_ignore_ascii_case(b"UIDFETCH"))
        .map(|start| {
            let mut bytes = transcript.clone();
            bytes.splice(start..start + 8, b"FETCH".iter().copied());
            bytes
        })
        .unwrap();

    for split in 1..transcript.len() {
        for output_size in 1..=8 {
            let mut wire = Wire::new(transcript.clone(), AdapterLimits::default())
                .with_plan([split, transcript.len() - split]);
            wire.handle.arm_enable(b"A0009").unwrap();

            let mut observed = Vec::new();
            wire.read_to_end(&mut observed, output_size).unwrap();
            assert_eq!(observed, expected, "split={split}, output={output_size}");
            assert!(matches!(
                wire.handle.take_provenance(),
                Some(Provenance::TranslatedUidFetch {
                    leading_uid: 42,
                    wire_bytes,
                }) if wire_bytes > body.len()
            ));
            let marker = format!("{{{}}}\r\n", body.len());
            let literal_start = observed
                .windows(marker.len())
                .position(|window| window == marker.as_bytes())
                .unwrap()
                + marker.len();
            assert_eq!(&observed[literal_start..literal_start + body.len()], body);
        }
    }
}

#[test]
fn ordinary_pass_through_frames_non_fetch_literals_byte_for_byte() {
    let payload = vec![b'x'; 70_000];
    let mut transcript = format!("* LIST () \"/\" {{{}}}\r\n", payload.len()).into_bytes();
    transcript.extend_from_slice(&payload);
    transcript.extend_from_slice(b"\r\nA0001 OK LIST completed\r\n");
    let mut wire = Wire::new(transcript.clone(), AdapterLimits::default());
    let mut observed = Vec::new();
    wire.read_to_end(&mut observed, 4096).unwrap();
    assert_eq!(observed, transcript);

    let status = b"* OK synthetic status {5}\r\n".to_vec();
    let mut wire = Wire::new(status.clone(), AdapterLimits::default());
    let mut observed = Vec::new();
    wire.read_to_end(&mut observed, 4096).unwrap();
    assert_eq!(observed, status);
}

#[test]
fn multi_literal_and_randomized_pending_fragmentation_preserve_bytes() {
    let transcript = b"* ENABLED UIDONLY\r\nA0009 OK ENABLE completed\r\n* 42 UIDFETCH (UID 42 BODY[1] {3}\r\nabc BODY[2] {3}\r\ndef)\r\n"
        .to_vec();
    let expected = b"* ENABLED UIDONLY\r\nA0009 OK ENABLE completed\r\n* 42 FETCH (UID 42 BODY[1] {3}\r\nabc BODY[2] {3}\r\ndef)\r\n";

    let mut plans = vec![vec![1; transcript.len()]];
    for seed in 1..=64_u64 {
        let mut state = seed;
        let mut remaining = transcript.len();
        let mut chunks = Vec::new();
        while remaining > 0 {
            state = state
                .wrapping_mul(6_364_136_223_846_793_005)
                .wrapping_add(1);
            let chunk = ((state >> 32) as usize % 17 + 1).min(remaining);
            chunks.push(chunk);
            remaining -= chunk;
        }
        plans.push(chunks);
    }

    for (case, chunks) in plans.into_iter().enumerate() {
        let mut wire = Wire::new(transcript.clone(), AdapterLimits::default()).with_plan(chunks);
        wire.handle.arm_enable(b"A0009").unwrap();
        let output_size = case % 32 + 1;
        let mut observed = Vec::new();
        wire.read_to_end(&mut observed, output_size).unwrap();
        assert_eq!(observed, expected, "randomized case {case}");
        assert!(matches!(
            wire.handle.take_provenance(),
            Some(Provenance::TranslatedUidFetch {
                leading_uid: 42,
                ..
            })
        ));
    }
}

#[test]
fn raw_fetch_after_activation_is_rejected() {
    let (session, mut wire) =
        default_session(b"* 42 FETCH (UID 42 FLAGS ())\r\nA0003 OK NOOP\r\n");
    let error = wire.run(session.noop()).unwrap_err();
    assert_eq!(error.kind, ErrorKind::InvalidData);
    assert_eq!(error.message, "UIDONLY IMAP response read or parse failed");
    assert!(wire
        .handle
        .poison_reason()
        .is_some_and(|reason| reason.contains("raw FETCH")));
}

#[test]
fn provenance_is_visible_before_response_and_queue_backpressures() {
    let transcript = b"* ENABLED UIDONLY\r\nA0009 OK ENABLE completed\r\n* 1 UIDFETCH (FLAGS ())\r\n* 2 UIDFETCH (FLAGS ())\r\n".to_vec();
    let limits = AdapterLimits {
        provenance_capacity: nzu(1),
        ..AdapterLimits::default()
    };
    let mut wire = Wire::new(transcript, limits);
    wire.handle.arm_enable(b"A0009").unwrap();

    let prefix_len = b"* ENABLED UIDONLY\r\nA0009 OK ENABLE completed\r\n".len();
    wire.read_exact(prefix_len);
    assert!(wire.handle.is_active());

    let first_line = b"* 1 FETCH (FLAGS ())\r\n";
    let mut first = wire.read_exact(1);
    assert_eq!(wire.handle.provenance_len(), 1);
    first.extend_from_slice(&wire.read_exact(first_line.len() - 1));
    assert_eq!(first, first_line);

    assert!(matches!(wire.read(1), ReadOutcome::Blocked));
    assert!(matches!(
        wire.handle.take_provenance(),
        Some(Provenance::TranslatedUidFetch { leading_uid: 1, .. })
    ));
    let second = wire.read_exact(b"* 2 FETCH (FLAGS ())\r\n".len());
    assert_eq!(second, b"* 2 FETCH (FLAGS ())\r\n");
}

#[test]
fn full_provenance_queue_stops_transport_reads() {
    let mut transcript = b"* ENABLED UIDONLY\r\nA0009 OK ENABLE completed\r\n".to_vec();
    for uid in 1..=5_000_u32 {
        transcript.extend_from_slice(format!("* {uid} UIDFETCH (FLAGS ())\r\n").as_bytes());
    }
    let limits = AdapterLimits {
        provenance_capacity: nzu(1),
        ..AdapterLimits::default()
    };
    let mut wire = Wire::new(transcript, limits);
    wire.handle.arm_enable(b"A0009").unwrap();

    let prefix = b"* ENABLED UIDONLY\r\nA0009 OK ENABLE completed\r\n";
    wire.read_exact(prefix.len());
    let first_line = b"* 1 FETCH (FLAGS ())\r\n";
    wire.read_exact(first_line.len());
    let before = wire.position;

    assert!(matches!(wire.read(1), ReadOutcome::Blocked));
    assert_eq!(wire.position, before);
    assert!(wire.handle.take_provenance().is_some());
}

#[test]
fn oversized_or_over_budget_literal_marker_is_never_forwarded() {
    for (limits, expected) in [
        (
            AdapterLimits {
                max_literal_bytes: nzu(1_024),
                ..AdapterLimits::default()
            },
            "literal exceeds configured byte limit",
        ),
        (
            AdapterLimits {
                max_control_line_bytes: nzu(128),
                max_literal_bytes: nzu(1_024),
                max_response_bytes: nzu(256),
                ..AdapterLimits::default()
            },
            "announced literal exceeds remaining response budget",
        ),
    ] {
        let marker = if expected.starts_with("literal exceeds") {
            2_048
        } else {
            512
        };
        let transcript = format!(
            "* ENABLED UIDONLY\r\nA0009 OK ENABLE completed\r\n* 42 UIDFETCH (UID 42 BODY[] {{{marker}}}\r\nbody"
        )
        .into_bytes();
        let mut wire = Wire::new(transcript, limits);
        wire.handle.arm_enable(b"A0009").unwrap();

        let mut observed = Vec::new();
        let error = wire.read_to_end(&mut observed, 32).unwrap_err();
        assert!(error.message.contains(expected));
        let marker = format!("{{{marker}}}\r\n");
        assert!(!observed
            .windows(marker.len())
            .any(|window| window == marker.as_bytes()));
    }
}

#[test]
fn unsupported_and_overflowing_active_literal_markers_fail_before_forwarding() {
    for marker in ["{1+}", "~{1}", "{999999999999999999999999999999999999}"] {
        let transcript = format!(
            "* ENABLED UIDONLY\r\nA0009 OK ENABLE completed\r\n* 42 UIDFETCH (UID 42 BODY[] {marker}\r\nx)"
        )
        .into_bytes();
        let mut wire = Wire::new(transcript, AdapterLimits::default());
        wire.handle.arm_enable(b"A0009").unwrap();
        let mut observed = Vec::new();
        let error = wire.read_to_end(&mut observed, 32).unwrap_err();
        assert!(
            error.message.contains("literal"),
            "marker={marker}, error={}",
            error.message
        );
        assert!(!observed
            .windows(marker.len())
            .any(|bytes| bytes == marker.as_bytes()));
    }
}

#[test]
fn truncated_literal_long_line_and_ambiguous_brace_text_fail_closed() {
    let cases = [
        (
            b"* ENABLED UIDONLY\r\nA0009 OK ENABLE completed\r\n* 42 UIDFETCH (UID 42 BODY[] {5}\r\nno"
                .to_vec(),
            AdapterLimits::default(),
            "truncated IMAP response",
            ErrorKind::UnexpectedEof,
        ),
        (
            {
                let mut bytes =
                    b"* ENABLED UIDONLY\r\nA0009 OK ENABLE completed\r\n* OK ".to_vec();
                bytes.extend(std::iter::repeat_n(b'x', 128));
                bytes.extend_from_slice(b"\r\n");
                bytes
            },
            AdapterLimits {
                max_control_line_bytes: nzu(64),
                ..AdapterLimits::default()
            },
            "control line exceeds configured byte limit",
            ErrorKind::InvalidData,
        ),
        (
            b"* ENABLED UIDONLY\r\nA0009 OK ENABLE completed\r\n* OK status {5}\r\nabcde"
                .to_vec(),
            AdapterLimits::default(),
            "outside an active UIDFETCH",
            ErrorKind::InvalidData,
        ),
    ];
    for (transcript, limits, expected, expected_kind) in cases {
        let mut wire = Wire::new(transcript, limits);
        wire.handle.arm_enable(b"A0009").unwrap();
        let error = wire.read_to_end(&mut Vec::new(), 32).unwrap_err();
        assert!(error.message.contains(expected));
        assert_eq!(error.kind, expected_kind);
    }
}

#[test]
fn bounded_inventory_returns_complete_metadata_and_ignores_flags_event() {
    let (session, mut wire) = default_session(
        b"* 5 UIDFETCH (UID 5 FLAGS (\\Seen))\r\n* 7 UIDFETCH (UID 7 RFC822.SIZE 10 INTERNALDATE \"01-Jan-2020 00:00:00 +0000\")\r\nA0003 OK FETCH completed\r\n",
    );
    let request = InventoryRequest::new(nz(1), nz(10), nz(10)).unwrap();
    let (_session, output) = wire.run(session.inventory(request)).unwrap();
    let CommandOutput::Inventory(page) = output else {
        panic!("unexpected output");
    };
    assert_eq!(
        page.items,
        vec![InventoryItem {
            uid: nz(7),
            rfc822_size: 10,
            internal_date: "01-Jan-2020 00:00:00 +0000".to_string(),
        }]
    );
    assert_eq!(
        page.notifications,
        vec![Notification::Flags {
            uid: nz(5),
            flags: vec!["\\Seen".to_string()],
        }]
    );
    assert!(wire
        .written
        .contains("A0003 UID FETCH 1:10 (UID RFC822.SIZE INTERNALDATE) (PARTIAL 1:10)\r\n"));
}

#[test]
fn inventory_rejects_uid_mismatch_missing_items_and_overfull_page() {
    let cases = [
        (
            b"* 7 UIDFETCH (UID 8 RFC822.SIZE 1 INTERNALDATE \"01-Jan-2020 00:00:00 +0000\")\r\nA0003 OK FETCH completed\r\n"
                .as_slice(),
            "leading and inner UID differ",
        ),
        (
            b"* 7 UIDFETCH (UID 7 RFC822.SIZE 1)\r\nA0003 OK FETCH completed\r\n".as_slice(),
            "exactly UID, RFC822.SIZE, and INTERNALDATE",
        ),
        (
            b"* 7 UIDFETCH (UID 7 RFC822.SIZE 1 internaldate nil)\r\nA0003 OK FETCH completed\r\n"
                .as_slice(),
            "INTERNALDATE NIL",
        ),
        (
            b"* 1 UIDFETCH (UID 1 RFC822.SIZE 1 INTERNALDATE \"01-Jan-2020 00:00:00 +0000\")\r\n* 2 UIDFETCH (UID 2 RFC822.SIZE 1 INTERNALDATE \"01-Jan-2020 00:00:00 +0000\")\r\nA0003 OK FETCH completed\r\n"
                .as_slice(),
            "more results than requested",
        ),
        (
            b"* 7 UIDFETCH (UID 7 RFC822.SIZE 1 INTERNALDATE \"01-Jan-2020 00:00:00 +0000\" MODSEQ (9))\r\nA0003 OK FETCH completed\r\n"
                .as_slice(),
            "unrequested attribute",
        ),
        (
            b"* VANISHED 7\r\n* 7 UIDFETCH (UID 7 RFC822.SIZE 1 INTERNALDATE \"01-Jan-2020 00:00:00 +0000\")\r\nA0003 OK FETCH completed\r\n"
                .as_slice(),
            "item and VANISHED",
        ),
    ];
    for (response, expected_adapter_invariant) in cases {
        let (session, mut wire) = default_session(response);
        let request = InventoryRequest::new(nz(1), nz(10), nz(1)).unwrap();
        let error = wire.run(session.inventory(request)).unwrap_err();
        assert_eq!(error.kind, ErrorKind::InvalidData);
        let surface = error.message;
        assert!(
            surface.contains(expected_adapter_invariant)
                || surface == "UIDONLY IMAP response read or parse failed",
            "unexpected safe error surface: {surface}"
        );
    }
}

#[test]
fn exact_body_chunk_returns_literal_and_rejects_adjacent_uid_or_wrong_origin() {
    let raw = b"synthetic raw bytes\r\n";
    let (session, mut wire) = default_session(
        format!(
            "* 42 UIDFETCH (UID 42 RFC822.SIZE {} BODY[]<0> {{{}}}\r\n{})\r\nA0003 OK FETCH completed\r\n",
            raw.len(),
            raw.len(),
            String::from_utf8_lossy(raw)
        )
        .as_bytes(),
    );
    let (_session, result) = wire
        .run(session.fetch_body_chunk(nz(42), 0, nz(1_024)))
        .unwrap();
    assert_eq!(
        result,
        CommandOutput::Body(ExactFetchOutcome::Chunk(BodyChunk {
            uid: nz(42),
            rfc822_size: raw.len() as u32,
            offset: 0,
            bytes: raw.to_vec(),
            notifications: Vec::new(),
        }))
    );
    assert!(wire
        .written
        .contains("A0003 UID FETCH 42 (UID RFC822.SIZE BODY.PEEK[]<0.1024>)\r\n"));

    for (response, expected) in [
        (
            b"* 43 UIDFETCH (UID 43 RFC822.SIZE 1 BODY[]<0> {1}\r\nx)\r\nA0003 OK FETCH completed\r\n"
                .as_slice(),
            "exact requested UID",
        ),
        (
            b"* 42 UIDFETCH (UID 42 RFC822.SIZE 1 BODY[]<1> {1}\r\nx)\r\nA0003 OK FETCH completed\r\n"
                .as_slice(),
            "origin does not match",
        ),
        (
            b"* 42 UIDFETCH (UID 42 RFC822.SIZE 1 BODY[] {1}\r\nx)\r\nA0003 OK FETCH completed\r\n"
                .as_slice(),
            "origin does not match",
        ),
        (
            b"* 42 UIDFETCH (UID 42 RFC822.SIZE 10 BODY[]<0> {0}\r\n)\r\nA0003 OK FETCH completed\r\n"
                .as_slice(),
            "literal length is inconsistent",
        ),
        (
            b"* 42 UIDFETCH (UID 42 RFC822.SIZE 1 INTERNALDATE \"01-Jan-2020 00:00:00 +0000\" BODY[]<0> {1}\r\nx)\r\nA0003 OK FETCH completed\r\n"
                .as_slice(),
            "unrequested attribute",
        ),
    ] {
        let (session, mut wire) = default_session(response);
        let error = wire
            .run(session.fetch_body_chunk(nz(42), 0, nz(1)))
            .unwrap_err();
        assert!(error.message.contains(expected), "{}", error.message);
    }
}

#[test]
fn literal_meter_charges_body_octets_before_truncated_command_completion() {
    let raw = b"received before eof";
    let (session, mut wire) = default_session(
        format!(
            "* 42 UIDFETCH (UID 42 RFC822.SIZE {} BODY[]<0> {{{}}}\r\n{})\r\n",
            raw.len(),
            raw.len(),
            String::from_utf8_lossy(raw)
        )
        .as_bytes(),
    );
    let before = wire.handle.literal_bytes_received();
    let error = wire
        .run(session.fetch_body_chunk(nz(42), 0, nz(raw.len() as u32)))
        .unwrap_err();
    assert_eq!(error.kind, ErrorKind::UnexpectedEof);
    assert_eq!(
        wire.handle.literal_bytes_received() - before,
        raw.len() as u64
    );
}

#[test]
fn parser_failures_do_not_echo_literal_bytes() {
    let (session, mut wire) = default_session(
        b"* 42 UIDFETCH (UID 42 RFC822.SIZE 6 BODY[]<0> {6}\r\nSECRET BROKEN\r\n",
    );
    let error = wire
        .run(session.fetch_body_chunk(nz(42), 0, nz(6)))
        .unwrap_err();
    assert_eq!(error.message, "UIDONLY IMAP response read or parse failed");
    assert!(!error.message.contains("SECRET"));
}

#[test]
fn exact_body_fetch_distinguishes_missing_and_vanished() {
    for (response, expected_vanished) in [
        (b"A0003 OK FETCH completed\r\n".as_slice(), false),
        (
            b"* VANISHED 42\r\nA0003 OK FETCH completed\r\n".as_slice(),
            true,
        ),
    ] {
        let (session, mut wire) = default_session(response);
        let (_session, output) = wire
            .run(session.fetch_body_chunk(nz(42), 0, nz(1)))
            .unwrap();
        let CommandOutput::Body(outcome) = output else {
            panic!("unexpected output");
        };
        assert_eq!(
            matches!(outcome, ExactFetchOutcome::Vanished { .. }),
            expected_vanished
        );
        assert_eq!(
            matches!(outcome, ExactFetchOutcome::Missing { .. }),
            !expected_vanished
        );
    }
}

#[test]
fn cancellation_timeout_and_resource_budgets_drop_connection_owner() {
    let mut wire = Wire::new(
        b"* OK synthetic ready\r\nA0001 OK LOGIN completed\r\n".to_vec(),
        AdapterLimits::default(),
    );
    wire.log_in();
    wire.stall_at_eof = true;
    let error = wire.enable(CommandLimits::default()).unwrap_err();
    assert_eq!(error.kind, ErrorKind::TimedOut);

    let mut wire = Wire::new(fixture_with_after_enable(b""), AdapterLimits::default());
    wire.stall_at_eof = true;
    let (session, mut wire) = activate(wire, CommandLimits::default());
    let error = wire.run(session.noop()).unwrap_err();
    assert_eq!(error.kind, ErrorKind::TimedOut);

    let mut after_enable = Vec::new();
    for uid in 1..=4_u32 {
        after_enable.extend_from_slice(format!("* {uid} UIDFETCH (FLAGS ())\r\n").as_bytes());
    }
    let limits = CommandLimits {
        max_responses: nzu(3),
        ..CommandLimits::default()
    };
    let (session, mut wire) = activated_session(
        fixture_with_after_enable(&after_enable),
        AdapterLimits::default(),
        limits,
    );
    let error = wire.run(session.noop()).unwrap_err();
    assert!(error.message.contains("response count"));

    let limits = CommandLimits {
        max_events: nzu(1),
        ..CommandLimits::default()
    };
    let (session, mut wire) = activated_session(
        fixture_with_after_enable(
            b"* 1 UIDFETCH (FLAGS ())\r\n* 2 UIDFETCH (FLAGS ())\r\nA0003 OK NOOP completed\r\n",
        ),
        AdapterLimits::default(),
        limits,
    );
    let error = wire.run(session.noop()).unwrap_err();
    assert!(error.message.contains("event count"));

    let limits = CommandLimits {
        max_vanished_ranges: nzu(2),
        ..CommandLimits::default()
    };
    let (session, mut wire) = activated_session(
        fixture_with_after_enable(b"* VANISHED 1,3,5\r\nA0003 OK NOOP completed\r\n"),
        AdapterLimits::default(),
        limits,
    );
    let error = wire.run(session.noop()).unwrap_err();
    assert!(error.message.contains("VANISHED range count"));

    let limits = CommandLimits {
        max_wire_bytes: nzu(50),
        ..CommandLimits::default()
    };
    let (session, mut wire) = activated_session(
        fixture_with_after_enable(b"* OK 12345678901234567890\r\nA0003 OK NOOP completed\r\n"),
        AdapterLimits::default(),
        limits,
    );
    let error = wire.run(session.noop()).unwrap_err();
    assert!(error.message.contains("wire bytes"));
}

#[test]
fn sequence_expunge_untagged_failure_and_unexpected_tag_fail_closed() {
    for (response, expected) in [
        (
            b"* 1 EXPUNGE\r\nA0003 OK NOOP completed\r\n".as_slice(),
            "sequence EXPUNGE",
        ),
        (
            b"* NO synthetic failure\r\nA0003 OK NOOP completed\r\n".as_slice(),
            "unexpected untagged status",
        ),
        (
            b"A0999 OK NOOP completed\r\n".as_slice(),
            "unexpected tagged",
        ),
        (
            b"* 1 UIDFETCH (UID 1 FLAGS () MODSEQ (9))\r\nA0003 OK NOOP completed\r\n".as_slice(),
            "flags allowlist",
        ),
    ] {
        let (session, mut wire) = default_session(response);
        let error = wire.run(session.noop()).unwrap_err();
        assert!(error.message.contains(expected), "{}", error.message);
    }
}

#[test]
fn logout_requires_bye_and_matching_completion() {
    let (session, mut wire) = default_session(b"* BYE logout\r\nA0003 OK LOGOUT completed\r\n");
    wire.run(session.logout()).unwrap();

    let (session, mut wire) = default_session(b"A0003 OK LOGOUT completed\r\n");
    assert!(wire
        .run(session.logout())
        .unwrap_err()
        .message
        .contains("omitted BYE"));
}

fn inventory_page(request: InventoryRequest, uids: &[u32]) -> InventoryPage {
    InventoryPage {
        request,
        items: uids
            .iter()
            .map(|uid| InventoryItem {
                uid: nz(*uid),
                rfc822_size: *uid,
                internal_date: "01-Jan-2020 00:00:00 +0000".to_string(),
            })
            .collect(),
        notifications: Vec::new(),
    }
}

#[test]
fn sparse_inventory_planner_requires_commit_and_short_page_is_not_completion() {
    let mut planner = InventoryPlanner::new(Some(nz(4_000_000_000)), nz(1_000), Some(nz(3)));
    let first = planner.next_request().unwrap();
    assert_eq!(first.page_size(), nz(3));
    let validated = planner
        .validate_page(inventory_page(first, &[2_000_000_001, 3_000_000_000]))
        .unwrap();
    assert!(!validated.completes_inventory());
    assert_eq!(
        planner.next_request(),
        Some(first),
        "validation alone must not advance the cursor"
    );
    planner.commit_page(validated).unwrap();
    let second = planner.next_request().unwrap();
    assert_eq!(second.start(), nz(3_000_000_001));

    let terminal = planner.validate_page(inventory_page(second, &[])).unwrap();
    assert!(terminal.completes_inventory());
    planner.commit_page(terminal).unwrap();
    assert!(planner.is_complete());
    assert_eq!(planner.next_request(), None);
}

#[test]
fn inventory_planner_accepts_fixed_upper_boundary_and_rejects_stale_page() {
    let mut planner = InventoryPlanner::new(Some(nz(10)), nz(5), None);
    let request = planner.next_request().unwrap();
    let mut page = inventory_page(request, &[2, 10]);
    page.notifications.push(Notification::Vanished {
        earlier: false,
        uids: vec![3..=4],
    });
    let validated = planner.validate_page(page).unwrap();
    assert!(validated.completes_inventory());
    assert_eq!(validated.notifications().len(), 1);
    let stale = validated.clone();
    planner.commit_page(validated).unwrap();
    assert!(planner.commit_page(stale).is_err());
}

#[test]
fn verified_diff_is_linear_sparse_and_preserves_logical_duplicates_by_uid() {
    let remote = [nz(1), nz(7), nz(42), nz(4_000_000_000)];
    let local = [nz(1), nz(42)];
    assert_eq!(
        missing_verified_uids(&remote, &local).unwrap(),
        vec![nz(7), nz(4_000_000_000)]
    );
    assert!(missing_verified_uids(&[nz(2), nz(1)], &local).is_err());
    assert!(missing_verified_uids(&remote, &[nz(1), nz(1)]).is_err());
}

#[test]
fn loopback_fake_server_observes_exact_read_only_command_order() {
    let (session, mut wire) = default_session(
        b"* FLAGS (\\Seen)\r\n* 1 EXISTS\r\n* 0 RECENT\r\n* OK [UIDVALIDITY 42]\r\n* OK [UIDNEXT 8]\r\nA0003 OK [READ-ONLY] EXAMINE completed\r\n\
          * 7 UIDFETCH (UID 7 RFC822.SIZE 5 INTERNALDATE \"01-Jan-2020 00:00:00 +0000\")\r\nA0004 OK FETCH completed\r\n\
          * 7 UIDFETCH (UID 7 RFC822.SIZE 5 BODY[]<0> {5}\r\nhello)\r\nA0005 OK FETCH completed\r\n\
          * BYE logout\r\nA0006 OK LOGOUT completed\r\n",
    );
    let (session, output) = wire.run(session.examine("INBOX".to_string())).unwrap();
    assert!(matches!(
        output,
        CommandOutput::Examine(snapshot) if snapshot.snapshot_high_uid == Some(nz(7))
    ));
    let request = InventoryRequest::new(nz(1), nz(7), nz(1)).unwrap();
    let (session, output) = wire.run(session.inventory(request)).unwrap();
    assert!(matches!(
        output,
        CommandOutput::Inventory(page) if page.items[0].uid == nz(7)
    ));
    let (session, output) = wire
        .run(session.fetch_body_chunk(nz(7), 0, nz(5)))
        .unwrap();
    assert!(matches!(
        output,
        CommandOutput::Body(ExactFetchOutcome::Chunk(BodyChunk { ref bytes, .. })) if bytes == b"hello"
    ));
    wire.run(session.logout()).unwrap();

    let commands: Vec<&str> = wire.written.lines().collect();
    assert_eq!(commands.len(), 6);
    assert!(commands[0].contains(" LOGIN "));
    assert!(commands[1].contains(" ENABLE UIDONLY"));
    assert!(commands[2].contains(" EXAMINE "));
    assert!(commands[3].contains("UID FETCH 1:7"));
    assert!(commands[4].contains("UID FETCH 7 "));
    assert!(commands[5].contains(" LOGOUT"));
}

#[test]
fn refusals_name_what_is_wrong() {
    for (response, expected) in [
        ("A0003 NO no\r\n", "tagged NO"),
        ("A0003 BAD bad\r\n", "tagged BAD"),
        ("A0003 OK [UIDNEXT 4] done\r\n", "tagged response code"),
        ("* OK [UIDVALIDITY 4] now\r\n", "UIDVALIDITY is only valid during EXAMINE"),
        ("* OK [UIDNEXT 4] now\r\n", "UIDNEXT is only valid during EXAMINE"),
        ("* OK [TRYCREATE] now\r\n", "response code is not allowlisted"),
        ("* SEARCH 1\r\n", "mailbox response is not allowlisted"),
        ("* 1 UIDFETCH (UID 1 UID 1 FLAGS ())\r\n", "multiple inner UID"),
        ("* 1 UIDFETCH (UID 2 FLAGS ())\r\n", "leading and inner UID differ"),
        ("* 1 UIDFETCH (UID 1)\r\n", "unclassified unsolicited UIDFETCH"),
        ("* CAPABILITY IMAP4rev1\r\n", "response is not allowlisted"),
        ("* BYE bye\r\n", "unexpected untagged status"),
    ] {
        let (session, mut wire) = default_session(response.as_bytes());
        let error = wire.run(session.noop()).unwrap_err();
        assert!(
            error.message.contains(expected),
            "{response}: {}",
            error.message
        );
        assert_eq!(error.kind, ErrorKind::InvalidData);
    }
    for (response, expected) in [
        ("* OK [UIDVALIDITY 1]\r\n* OK [UIDNEXT 1]\r\n", "omitted EXISTS"),
        ("* 0 EXISTS\r\n* OK [UIDNEXT 1]\r\n", "omitted UIDVALIDITY"),
        ("* 0 EXISTS\r\n* OK [UIDVALIDITY 1]\r\n", "omitted UIDNEXT"),
        ("* OK [UIDVALIDITY 0]\r\n", "UIDVALIDITY 0 is invalid"),
        ("* OK [UIDNEXT 0]\r\n", "UIDNEXT 0 is invalid"),
        (
            "* 0 EXISTS\r\n* OK [UIDVALIDITY 1]\r\n* OK [UIDNEXT 1]\r\n",
            "did not confirm read-only mode",
        ),
    ] {
        let transcript = format!("{response}A0003 OK EXAMINE completed\r\n");
        let (session, mut wire) = default_session(transcript.as_bytes());
        let error = wire.run(session.examine("INBOX".to_string())).unwrap_err();
        assert!(
            error.message.contains(expected),
            "{response}: {}",
            error.message
        );
    }
    for (response, expected) in [
        (
            "* 11 UIDFETCH (UID 11 RFC822.SIZE 1 INTERNALDATE \"01-Jan-2020 00:00:00 +0000\")\r\n",
            "outside requested range",
        ),
        (
            "* 7 UIDFETCH (UID 7 RFC822.SIZE 1 INTERNALDATE \"01-Jan-2020 00:00:00 +0000\")\r\n* 6 UIDFETCH (UID 6 RFC822.SIZE 1 INTERNALDATE \"01-Jan-2020 00:00:00 +0000\")\r\n",
            "duplicated or out of order",
        ),
        (
            "* 7 UIDFETCH (UID 7 RFC822.SIZE 1 FLAGS ())\r\n",
            "mixed requested data with unsolicited flags",
        ),
        (
            "* 7 UIDFETCH (RFC822.SIZE 1)\r\n",
            "omitted the requested inner UID",
        ),
    ] {
        let transcript = format!("{response}A0003 OK FETCH completed\r\n");
        let (session, mut wire) = default_session(transcript.as_bytes());
        let request = InventoryRequest::new(nz(1), nz(10), nz(5)).unwrap();
        let error = wire.run(session.inventory(request)).unwrap_err();
        assert!(
            error.message.contains(expected),
            "{response}: {}",
            error.message
        );
    }
    for (response, expected) in [
        (
            "* 42 UIDFETCH (UID 42 RFC822.SIZE 1 BODY[]<0> NIL)\r\n",
            "omitted literal data",
        ),
        (
            "* 42 UIDFETCH (UID 42 RFC822.SIZE 1)\r\n",
            "exactly UID, RFC822.SIZE, and one body section",
        ),
        (
            "* 42 UIDFETCH (UID 42 RFC822.SIZE 1 BODY[]<0> {1}\r\nx)\r\n* 42 UIDFETCH (UID 42 RFC822.SIZE 1 BODY[]<0> {1}\r\nx)\r\n",
            "more than one solicited result",
        ),
        (
            "* VANISHED 42\r\n* 42 UIDFETCH (UID 42 RFC822.SIZE 1 BODY[]<0> {1}\r\nx)\r\n",
            "target VANISHED",
        ),
    ] {
        let transcript = format!("{response}A0003 OK FETCH completed\r\n");
        let (session, mut wire) = default_session(transcript.as_bytes());
        let error = wire
            .run(session.fetch_body_chunk(nz(42), 0, nz(1)))
            .unwrap_err();
        assert!(
            error.message.contains(expected),
            "{response}: {}",
            error.message
        );
    }
}

#[test]
fn requests_outside_the_limits_are_not_sent() {
    let session = || default_session(b"").0;
    let request = InventoryRequest::new(nz(1), nz(10), nz(u32::MAX)).unwrap();
    assert_eq!(
        session().inventory(request).unwrap_err().kind,
        ErrorKind::InvalidInput
    );
    assert!(InventoryRequest::new(nz(2), nz(1), nz(1)).is_err());
    assert!(session()
        .fetch_body_chunk(nz(1), 0, nz(u32::MAX))
        .unwrap_err()
        .message
        .contains("body chunk exceeds configured limit"));
    assert!(session()
        .fetch_body_chunk(nz(1), u32::MAX, nz(2))
        .unwrap_err()
        .message
        .contains("body chunk range overflows"));
    assert!(session().examine("bad\r\nNOOP".to_string()).is_err());
}

#[test]
fn an_adapter_is_unwrapped_only_between_responses() {
    let mut wire = Wire::new(b"* OK ready\r\n* OK".to_vec(), AdapterLimits::default());
    wire.read_exact(b"* OK ready\r\n".len());
    let handle = wire.handle;
    assert!(wire.adapter.into_inner(&handle).is_err());
    let (adapter, handle) = UidOnlyAdapter::new(17_u8, AdapterLimits::default()).unwrap();
    assert_eq!(adapter.into_inner(&handle).unwrap(), 17);
    let broken = AdapterLimits {
        max_response_bytes: nzu(1),
        ..AdapterLimits::default()
    };
    assert!(UidOnlyAdapter::new((), broken).is_err());
}

#[test]
fn poison_is_permanent() {
    let mut wire = Wire::new(
        b"* ENABLED UIDONLY\r\nA0009 OK ENABLE completed\r\n* 1 FETCH (UID 1)\r\n* OK later\r\n"
            .to_vec(),
        AdapterLimits::default(),
    );
    wire.handle.arm_enable(b"A0009").unwrap();
    let first = wire.read_to_end(&mut Vec::new(), 16).unwrap_err();
    assert!(first.message.contains("raw FETCH"));
    let mut later = Vec::new();
    assert_eq!(
        wire.read_to_end(&mut later, 16).unwrap_err().message,
        "UIDONLY adapter already poisoned"
    );
    assert!(later.is_empty());
    assert!(!wire.handle.is_active());
    assert!(wire.handle.arm_enable(b"A0010").is_err());
}

#[test]
fn enabling_twice_or_with_a_foreign_tag_fails() {
    let (_session, mut wire) = default_session(b"");
    assert!(UidOnlySession::may_enable(&wire.handle, &CommandLimits::default()).is_err());
    assert!(wire.enable(CommandLimits::default()).is_err());

    let mut wire = Wire::new(
        b"* OK synthetic ready\r\nA0001 OK LOGIN completed\r\nA0002 NO ENABLE refused\r\n".to_vec(),
        AdapterLimits::default(),
    );
    wire.log_in();
    assert!(wire
        .enable(CommandLimits::default())
        .unwrap_err()
        .message
        .contains("was rejected"));
}
