//! The typestate of an active connection: from activation through each command
//! to its tagged completion.

use crate::adapter::AdapterHandle;
use crate::command;
use crate::command::{InventoryRequest, UidOnlyCommand};
use crate::dispatch;
use crate::dispatch::{
    classify_uidfetch, complete_command, note_bye, note_mailbox, note_untagged_ok, note_vanished,
    require_unchanged, Accumulator, CommandOutput, Response, Status,
};
use crate::error;
use crate::error::{invalid_data, invalid_input, other, Error, ErrorKind};
use crate::framing;
use crate::framing::Provenance;
use crate::framing_laws;
use crate::limits::CommandLimits;
use crate::nonzero::NonZeroU32;
use vstd::prelude::*;

verus! {

broadcast use crate::nonzero::lemma_nonzero_u32_of;

/// A connection on which `ENABLE UIDONLY` was confirmed.
#[derive(Debug, PartialEq, Eq)]
pub struct UidOnlySession {
    limits: CommandLimits,
}

/// The activation of a connection, from its first response on.
#[derive(Debug, PartialEq, Eq)]
pub struct EnableRun {
    limits: CommandLimits,
    tag: String,
    responses_left: usize,
}

/// How an activation goes on after a response.
#[derive(Debug, PartialEq, Eq)]
pub enum EnableProgress {
    Pending(EnableRun),
    Enabled(UidOnlySession),
}

/// A command that is ready to be sent.
#[derive(Debug, PartialEq, Eq)]
pub struct PreparedCommand {
    session: UidOnlySession,
    command: UidOnlyCommand,
    text: String,
}

/// A command that was sent, from its first response on.
#[derive(Debug, PartialEq, Eq)]
pub struct CommandRun {
    session: UidOnlySession,
    command: UidOnlyCommand,
    tag: String,
    accumulator: Accumulator,
    response_count: usize,
    wire_bytes: usize,
}

/// How a command goes on after a response.
#[derive(Debug, PartialEq, Eq)]
pub enum CommandProgress {
    Pending(CommandRun),
    Complete(UidOnlySession, CommandOutput),
}

/// The view of an [`EnableRun`].
#[verifier::ext_equal]
pub ghost struct Enabling {
    pub limits: CommandLimits,
    pub tag: Seq<char>,
    pub responses_left: int,
}

/// The view of a [`CommandRun`].
#[verifier::ext_equal]
pub ghost struct Running {
    pub limits: CommandLimits,
    pub command: UidOnlyCommand,
    pub tag: Seq<char>,
    pub gathered: dispatch::Gathered,
    pub responses: int,
    pub wire_bytes: int,
}

impl View for EnableRun {
    type V = Enabling;

    closed spec fn view(&self) -> Enabling {
        Enabling {
            limits: self.limits,
            tag: self.tag@,
            responses_left: self.responses_left as int,
        }
    }
}

impl View for CommandRun {
    type V = Running;

    closed spec fn view(&self) -> Running {
        Running {
            limits: self.session.limits,
            command: self.command,
            tag: self.tag@,
            gathered: self.accumulator@,
            responses: self.response_count as int,
            wire_bytes: self.wire_bytes as int,
        }
    }
}

/// How an activation goes on: the run, or `None` once the connection is active.
pub open spec fn enabling(
    run: Enabling,
    control: framing::Control,
    response: Response,
) -> Result<Option<Enabling>, Error> {
    if control.activation_wire_bytes > run.limits.max_wire_bytes@ {
        Err(error::data_error("ENABLE UIDONLY wire bytes exceed configured limit"))
    } else {
        match response {
            Response::Capabilities => if run.responses_left <= 1 {
                Err(error::data_error("ENABLE UIDONLY response count exceeds configured limit"))
            } else {
                Ok(Some(Enabling { responses_left: run.responses_left - 1, ..run }))
            },
            Response::Done { tag, status, .. } => if tag@ != run.tag {
                Err(error::data_error("unexpected ENABLE completion tag"))
            } else if !(status is Success) || !(control.phase is Active) {
                Err(error::data_error("UIDONLY did not activate"))
            } else if control.provenance.len() != 0 {
                Err(error::data_error("UIDONLY activation left unexpected provenance"))
            } else {
                Ok(None)
            },
            _ => Err(error::data_error("unexpected ENABLE UIDONLY response")),
        }
    }
}

/// How a command goes on: the run, or the outcome once it completed.
#[verifier::ext_equal]
pub ghost enum Answer {
    Pending(Running),
    Complete(dispatch::Outcome),
}

/// One response to a running command, with the records that the adapter left.
pub open spec fn answered(
    run: Running,
    records: Seq<Provenance>,
    response: Response,
) -> Result<Answer, Error> {
    let responses = run.responses + 1;
    let wire_bytes = run.wire_bytes + framing_laws::wire_bytes(records[0]);
    if responses > usize::MAX {
        Err(error::other_error("command response count overflow"))
    } else if responses > run.limits.max_responses@ {
        Err(error::data_error("command response count exceeds configured limit"))
    } else if records.len() == 0 {
        Err(error::data_error("parsed response has no provenance"))
    } else if wire_bytes > usize::MAX {
        Err(error::other_error("command wire byte count overflow"))
    } else if wire_bytes > run.limits.max_wire_bytes@ {
        Err(error::data_error("command wire bytes exceed configured limit"))
    } else {
        match dispatch::dispatched(
            run.command,
            run.tag,
            run.limits,
            records[0],
            response,
            run.gathered,
        ) {
            Err(e) => Err(e),
            Ok(dispatch::Turn::Complete(outcome)) => Ok(Answer::Complete(outcome)),
            Ok(dispatch::Turn::Pending(gathered)) => Ok(
                Answer::Pending(Running { gathered, responses, wire_bytes, ..run }),
            ),
        }
    }
}

impl UidOnlySession {
    pub closed spec fn ceilings(self) -> CommandLimits {
        self.limits
    }

    /// Whether a connection may be activated: with usable limits, at a clean
    /// pass-through boundary. The command to send then is `ENABLE UIDONLY`.
    pub fn may_enable(handle: &AdapterHandle, limits: &CommandLimits) -> (result: Result<
        &'static str,
        Error,
    >)
        ensures
            result == if limits.timeout.seconds == 0 && limits.timeout.nanoseconds == 0 {
                Err(error::input_error("command timeout must be nonzero"))
            } else if handle@.phase is Active || handle@.provenance.len() != 0 {
                Err(
                    error::input_error("UIDONLY enable requires a clean pass-through boundary"),
                )
            } else {
                Ok("ENABLE UIDONLY")
            },
    {
        match limits.validate() {
            Err(e) => {
                return Err(e);
            },
            Ok(()) => {},
        }
        if handle.is_active() || handle.provenance_len() != 0 {
            return Err(invalid_input("UIDONLY enable requires a clean pass-through boundary"));
        }
        Ok("ENABLE UIDONLY")
    }

    /// Starts the activation once `ENABLE UIDONLY` was sent under a tag.
    pub fn enable(handle: &mut AdapterHandle, limits: CommandLimits, tag: String) -> (result:
        Result<EnableRun, Error>)
        ensures
            result is Ok <==> old(handle)@.phase is PassThrough,
            result matches Ok(run) ==> {
                &&& run@ == (Enabling {
                    limits,
                    tag: tag@,
                    responses_left: limits.max_responses@ as int,
                })
                &&& final(handle)@ == (framing::Control {
                    phase: framing::Phase::PendingEnable {
                        tag: vstd::utf8::encode_utf8(tag@),
                        saw_enabled: false,
                    },
                    activation_wire_bytes: 0,
                    ..old(handle)@
                })
            },
            result matches Err(e) ==> *final(handle) == *old(handle) && e == error::other_error(
                "UIDONLY adapter is not in pass-through mode",
            ),
    {
        match handle.arm_enable(tag.as_str().as_bytes()) {
            Err(e) => {
                return Err(e);
            },
            Ok(()) => {},
        }
        let responses_left = limits.max_responses.get();
        Ok(EnableRun { limits, tag, responses_left })
    }

    fn prepare(self, command: UidOnlyCommand) -> (result: Result<PreparedCommand, Error>)
        ensures
            PreparedCommand::prepares(result, self.ceilings(), command),
    {
        match command.render(&self.limits) {
            Err(e) => Err(e),
            Ok(text) => Ok(PreparedCommand { session: self, command, text }),
        }
    }

    /// Prepares `EXAMINE` for a mailbox name in its wire encoding.
    pub fn examine(self, encoded_mailbox: String) -> (result: Result<PreparedCommand, Error>)
        ensures
            PreparedCommand::prepares(
                result,
                self.ceilings(),
                (UidOnlyCommand::Examine { encoded_mailbox }),
            ),
    {
        self.prepare(UidOnlyCommand::Examine { encoded_mailbox })
    }

    /// Prepares the request for one page of metadata.
    pub fn inventory(self, request: InventoryRequest) -> (result: Result<PreparedCommand, Error>)
        ensures
            PreparedCommand::prepares(
                result,
                self.ceilings(),
                UidOnlyCommand::Inventory(request),
            ),
    {
        self.prepare(UidOnlyCommand::Inventory(request))
    }

    /// Prepares the request for some octets of one message.
    pub fn fetch_body_chunk(self, uid: NonZeroU32, offset: u32, count: NonZeroU32) -> (result:
        Result<PreparedCommand, Error>)
        ensures
            PreparedCommand::prepares(
                result,
                self.ceilings(),
                (UidOnlyCommand::BodyChunk { uid, offset, count }),
            ),
    {
        self.prepare(UidOnlyCommand::BodyChunk { uid, offset, count })
    }

    /// Prepares `NOOP`.
    pub fn noop(self) -> (result: Result<PreparedCommand, Error>)
        ensures
            PreparedCommand::prepares(result, self.ceilings(), UidOnlyCommand::Noop),
    {
        self.prepare(UidOnlyCommand::Noop)
    }

    /// Prepares `LOGOUT`.
    pub fn logout(self) -> (result: Result<PreparedCommand, Error>)
        ensures
            PreparedCommand::prepares(result, self.ceilings(), UidOnlyCommand::Logout),
    {
        self.prepare(UidOnlyCommand::Logout)
    }
}

impl EnableRun {
    /// Takes in one response to `ENABLE UIDONLY`.
    pub fn on_response(self, handle: &AdapterHandle, response: &Response) -> (result: Result<
        EnableProgress,
        Error,
    >)
        ensures
            match result {
                Err(e) => enabling(self@, handle@, *response) == Err::<Option<Enabling>, Error>(e),
                Ok(EnableProgress::Pending(run)) => enabling(self@, handle@, *response) == Ok::<
                    Option<Enabling>,
                    Error,
                >(Some(run@)),
                Ok(EnableProgress::Enabled(session)) => enabling(self@, handle@, *response) == Ok::<
                    Option<Enabling>,
                    Error,
                >(None) && session.ceilings() == self@.limits,
            },
    {
        if handle.activation_wire_bytes() > self.limits.max_wire_bytes.get() {
            return Err(invalid_data("ENABLE UIDONLY wire bytes exceed configured limit"));
        }
        match response {
            Response::Capabilities => {
                if self.responses_left <= 1 {
                    return Err(
                        invalid_data("ENABLE UIDONLY response count exceeds configured limit"),
                    );
                }
                Ok(
                    EnableProgress::Pending(
                        EnableRun { responses_left: self.responses_left - 1, ..self },
                    ),
                )
            },
            Response::Done { tag, status, .. } => {
                if *tag != self.tag {
                    return Err(invalid_data("unexpected ENABLE completion tag"));
                }
                if *status != Status::Success || !handle.is_active() {
                    return Err(invalid_data("UIDONLY did not activate"));
                }
                if handle.provenance_len() != 0 {
                    return Err(invalid_data("UIDONLY activation left unexpected provenance"));
                }
                Ok(EnableProgress::Enabled(UidOnlySession { limits: self.limits }))
            },
            _ => Err(invalid_data("unexpected ENABLE UIDONLY response")),
        }
    }
}

impl PreparedCommand {
    pub closed spec fn ceilings(self) -> CommandLimits {
        self.session.limits
    }

    pub closed spec fn what(self) -> UidOnlyCommand {
        self.command
    }

    pub closed spec fn line(self) -> Seq<char> {
        self.text@
    }

    /// A command is prepared with its text, or refused as its rendering is.
    pub open spec fn prepares(
        result: Result<PreparedCommand, Error>,
        limits: CommandLimits,
        command: UidOnlyCommand,
    ) -> bool {
        match result {
            Ok(prepared) => {
                &&& command::command_text(command, limits) == Ok::<Seq<char>, Error>(
                    prepared.line(),
                )
                &&& prepared.what() == command
                &&& prepared.ceilings() == limits
            },
            Err(e) => command::command_text(command, limits) == Err::<Seq<char>, Error>(e),
        }
    }

    /// The text to send.
    pub fn text(&self) -> (text: &str)
        ensures
            text@ == self.line(),
    {
        self.text.as_str()
    }

    /// The command under the tag that it was sent with.
    pub fn sent(self, tag: String) -> (run: CommandRun)
        ensures
            run@ == (Running {
                limits: self.ceilings(),
                command: self.what(),
                tag: tag@,
                gathered: dispatch::nothing(),
                responses: 0,
                wire_bytes: 0,
            }),
    {
        CommandRun {
            session: self.session,
            command: self.command,
            tag,
            accumulator: Accumulator::default(),
            response_count: 0,
            wire_bytes: 0,
        }
    }
}

fn record_bytes(record: &Provenance) -> (bytes: usize)
    ensures
        bytes == framing_laws::wire_bytes(*record),
{
    match record {
        Provenance::TranslatedUidFetch { wire_bytes, .. } => *wire_bytes,
        Provenance::Unchanged { wire_bytes } => *wire_bytes,
    }
}

fn is_logout(command: &UidOnlyCommand) -> (result: bool)
    ensures
        result == (*command is Logout),
{
    match command {
        UidOnlyCommand::Logout => true,
        _ => false,
    }
}

impl CommandRun {
    /// Takes in one response, with the record that the adapter left of it.
    pub fn on_response(self, handle: &mut AdapterHandle, response: Response) -> (result: Result<
        CommandProgress,
        Error,
    >)
        requires
            old(handle).wf(),
        ensures
            final(handle).wf(),
            match result {
                Err(e) => answered(self@, old(handle)@.provenance, response) == Err::<
                    Answer,
                    Error,
                >(e),
                Ok(CommandProgress::Pending(run)) => answered(
                    self@,
                    old(handle)@.provenance,
                    response,
                ) == Ok::<Answer, Error>(Answer::Pending(run@)),
                Ok(CommandProgress::Complete(session, output)) => answered(
                    self@,
                    old(handle)@.provenance,
                    response,
                ) == Ok::<Answer, Error>(Answer::Complete(output@)) && session.ceilings()
                    == self@.limits,
            },
            final(handle)@ == if self@.responses + 1 > self@.limits.max_responses@
                || old(handle)@.provenance.len() == 0 {
                old(handle)@
            } else {
                (framing::Control {
                    provenance: old(handle)@.provenance.drop_first(),
                    ..old(handle)@
                })
            },
    {
        let mut run = self;
        run.response_count = match run.response_count.checked_add(1) {
            None => {
                return Err(other("command response count overflow"));
            },
            Some(count) => count,
        };
        if run.response_count > run.session.limits.max_responses.get() {
            return Err(invalid_data("command response count exceeds configured limit"));
        }
        let record = match handle.take_provenance() {
            None => {
                return Err(invalid_data("parsed response has no provenance"));
            },
            Some(record) => record,
        };
        run.wire_bytes = match run.wire_bytes.checked_add(record_bytes(&record)) {
            None => {
                return Err(other("command wire byte count overflow"));
            },
            Some(total) => total,
        };
        if run.wire_bytes > run.session.limits.max_wire_bytes.get() {
            return Err(invalid_data("command wire bytes exceed configured limit"));
        }
        run.dispatch(record, response)
    }

    fn dispatch(self, record: Provenance, response: Response) -> (result: Result<
        CommandProgress,
        Error,
    >)
        ensures
            ({
                let turn = dispatch::dispatched(
                    self@.command,
                    self@.tag,
                    self@.limits,
                    record,
                    response,
                    self@.gathered,
                );
                match result {
                    Err(e) => turn == Err::<dispatch::Turn, Error>(e),
                    Ok(CommandProgress::Pending(run)) => turn is Ok && turn->Ok_0 is Pending
                        && run@ == (Running { gathered: turn->Ok_0->Pending_0, ..self@ }),
                    Ok(CommandProgress::Complete(session, output)) => turn == Ok::<
                        dispatch::Turn,
                        Error,
                    >(dispatch::Turn::Complete(output@)) && session.ceilings() == self@.limits,
                }
            }),
    {
        let mut run = self;
        let limits = run.session.limits;
        let noted = match response {
            Response::Fetch { leading_uid, attributes } => match record {
                Provenance::Unchanged { .. } => Err(
                    invalid_data("parsed FETCH did not originate as UIDFETCH"),
                ),
                Provenance::TranslatedUidFetch { leading_uid: wire_uid, .. } => {
                    if wire_uid != leading_uid {
                        return Err(invalid_data("parsed and wire leading UIDs differ"));
                    }
                    classify_uidfetch(
                        &run.command,
                        leading_uid,
                        attributes,
                        &limits,
                        &mut run.accumulator,
                    )
                },
            },
            Response::Done { tag, status, code } => {
                match require_unchanged(record) {
                    Err(e) => {
                        return Err(e);
                    },
                    Ok(()) => {},
                }
                return match complete_command(
                    &run.command,
                    &run.tag,
                    &tag,
                    status,
                    code,
                    run.accumulator,
                ) {
                    Err(e) => Err(e),
                    Ok(output) => Ok(CommandProgress::Complete(run.session, output)),
                };
            },
            Response::Mailbox(datum) => match require_unchanged(record) {
                Err(e) => Err(e),
                Ok(()) => note_mailbox(&run.command, datum, &limits, &mut run.accumulator),
            },
            Response::Data { status, code } => {
                if status == Status::Success {
                    match require_unchanged(record) {
                        Err(e) => Err(e),
                        Ok(()) => note_untagged_ok(
                            &run.command,
                            code,
                            &limits,
                            &mut run.accumulator,
                        ),
                    }
                } else if status == Status::Bye && is_logout(&run.command) {
                    match require_unchanged(record) {
                        Err(e) => Err(e),
                        Ok(()) => {
                            note_bye(&mut run.accumulator);
                            Ok(())
                        },
                    }
                } else {
                    Err(invalid_data("unexpected untagged status response"))
                }
            },
            Response::Vanished { earlier, uids } => match require_unchanged(record) {
                Err(e) => Err(e),
                Ok(()) => note_vanished(earlier, uids, &limits, &mut run.accumulator),
            },
            Response::Expunge => Err(invalid_data("sequence EXPUNGE is forbidden in UIDONLY mode")),
            _ => Err(invalid_data("response is not allowlisted for UIDONLY commands")),
        };
        match noted {
            Err(e) => Err(e),
            Ok(()) => Ok(CommandProgress::Pending(run)),
        }
    }
}

/// Why a command got no further response.
#[derive(Clone, Copy, Debug, PartialEq, Eq, Structural)]
pub enum Interruption {
    /// The next response could not be read or parsed.
    Unreadable(ErrorKind),
    /// The connection was closed.
    Closed,
    /// The time for the command was up.
    Expired,
}

/// The error of a command that got no further response. It repeats nothing of what was
/// read.
pub fn command_interruption(interruption: Interruption) -> (error: Error)
    ensures
        error == match interruption {
            Interruption::Unreadable(kind) => (Error {
                kind,
                message: "UIDONLY IMAP response read or parse failed",
            }),
            Interruption::Closed => (Error {
                kind: ErrorKind::UnexpectedEof,
                message: "connection closed before command completion",
            }),
            Interruption::Expired => (Error {
                kind: ErrorKind::TimedOut,
                message: "UIDONLY command timed out",
            }),
        },
{
    match interruption {
        Interruption::Unreadable(kind) => Error {
            kind,
            message: "UIDONLY IMAP response read or parse failed",
        },
        Interruption::Closed => Error {
            kind: ErrorKind::UnexpectedEof,
            message: "connection closed before command completion",
        },
        Interruption::Expired => Error {
            kind: ErrorKind::TimedOut,
            message: "UIDONLY command timed out",
        },
    }
}

/// The error of `ENABLE UIDONLY` where the time was up, or else the connection was
/// closed.
pub fn enable_interruption(expired: bool) -> (error: Error)
    ensures
        error == if expired {
            (Error { kind: ErrorKind::TimedOut, message: "ENABLE UIDONLY timed out" })
        } else {
            (Error {
                kind: ErrorKind::InvalidData,
                message: "connection closed during ENABLE UIDONLY",
            })
        },
{
    if expired {
        Error { kind: ErrorKind::TimedOut, message: "ENABLE UIDONLY timed out" }
    } else {
        Error {
            kind: ErrorKind::InvalidData,
            message: "connection closed during ENABLE UIDONLY",
        }
    }
}

} // verus!
