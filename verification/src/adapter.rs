//! The literal-aware adapter between a byte stream and a response parser.

use crate::error;
use crate::error::{invalid_data, invalid_input, other, Error, ErrorKind};
use crate::framing;
use crate::framing::{
    ActiveResponseKind, ProcessInput, Provenance, READ_CHUNK,
};
use crate::limits::AdapterLimits;
use crate::lines;
use crate::lines::{
    classify_numeric_response, contains_internaldate_nil, has_crlf, is_enabled_uidonly,
    parse_literal_len, parse_pass_through_literal_len, pass_through_untagged_may_contain_literal,
    tagged_status, NumericResponse, TaggedStatus,
};
use crate::text::{push_word, RIGHT_BRACE};
use std::collections::VecDeque;
use vstd::prelude::*;
use vstd::slice::slice_subrange;

verus! {

#[derive(Debug)]
enum Mode {
    PassThrough,
    PendingEnable { tag: Vec<u8>, saw_enabled_uidonly: bool },
    Active,
    Poisoned,
}

/// Control state paired with one [`UidOnlyAdapter`].
#[derive(Debug)]
pub struct AdapterHandle {
    mode: Mode,
    provenance: VecDeque<Provenance>,
    reserved: usize,
    provenance_capacity: usize,
    activation_wire_bytes: usize,
    literal_bytes_received: u64,
    poison_reason: Option<&'static str>,
}

impl View for AdapterHandle {
    type V = framing::Control;

    closed spec fn view(&self) -> framing::Control {
        framing::Control {
            phase: match self.mode {
                Mode::PassThrough => framing::Phase::PassThrough,
                Mode::PendingEnable { tag, saw_enabled_uidonly } => framing::Phase::PendingEnable {
                    tag: tag@,
                    saw_enabled: saw_enabled_uidonly,
                },
                Mode::Active => framing::Phase::Active,
                Mode::Poisoned => framing::Phase::Poisoned,
            },
            provenance: self.provenance@,
            reserved: self.reserved as int,
            capacity: self.provenance_capacity as int,
            activation_wire_bytes: self.activation_wire_bytes as int,
            literal_bytes: self.literal_bytes_received as int,
            poison: self.poison_reason,
        }
    }
}

impl AdapterHandle {
    /// Records and reservations together stay within the queue's capacity.
    pub open spec fn wf(self) -> bool {
        0 <= self@.reserved && self@.provenance.len() + self@.reserved <= self@.capacity <= 1024
    }

    /// Awaits the completion of `ENABLE UIDONLY` under the tag `request_id`.
    pub fn arm_enable(&mut self, request_id: &[u8]) -> (result: Result<(), Error>)
        ensures
            old(self)@.phase is PassThrough ==> result == Ok::<(), Error>(()) && final(self)@ == (
            framing::Control {
                phase: framing::Phase::PendingEnable { tag: request_id@, saw_enabled: false },
                activation_wire_bytes: 0,
                ..old(self)@
            }),
            !(old(self)@.phase is PassThrough) ==> result == Err::<(), Error>(
                error::other_error("UIDONLY adapter is not in pass-through mode"),
            ) && *final(self) == *old(self),
    {
        match &self.mode {
            Mode::PassThrough => {},
            _ => {
                return Err(other("UIDONLY adapter is not in pass-through mode"));
            },
        }
        let mut tag: Vec<u8> = Vec::new();
        tag.extend_from_slice(request_id);
        assert(tag@ =~= request_id@);
        self.activation_wire_bytes = 0;
        self.mode = Mode::PendingEnable { tag, saw_enabled_uidonly: false };
        Ok(())
    }

    /// Takes the record of the oldest response that was not asked about yet.
    pub fn take_provenance(&mut self) -> (result: Option<Provenance>)
        requires
            old(self).wf(),
        ensures
            final(self).wf(),
            old(self)@.provenance.len() == 0 ==> result is None && final(self)@ == old(self)@,
            old(self)@.provenance.len() > 0 ==> result == Some(old(self)@.provenance[0])
                && final(self)@ == (framing::Control {
                provenance: old(self)@.provenance.drop_first(),
                ..old(self)@
            }),
    {
        let result = self.provenance.pop_front();
        assert(old(self)@.provenance.len() > 0 ==> self@.provenance
            =~= old(self)@.provenance.drop_first());
        result
    }

    pub fn provenance_len(&self) -> (result: usize)
        ensures
            result == self@.provenance.len(),
    {
        self.provenance.len()
    }

    pub fn activation_wire_bytes(&self) -> (result: usize)
        ensures
            result == self@.activation_wire_bytes,
    {
        self.activation_wire_bytes
    }

    /// All literal octets that the adapter has accepted, counted before the
    /// command they belong to completes.
    pub fn literal_bytes_received(&self) -> (result: u64)
        ensures
            result == self@.literal_bytes,
    {
        self.literal_bytes_received
    }

    /// Whether `ENABLE UIDONLY` has been confirmed.
    pub fn is_active(&self) -> (result: bool)
        ensures
            result == (self@.phase is Active),
    {
        match self.mode {
            Mode::Active => true,
            _ => false,
        }
    }

    /// Why the connection was poisoned, if it was.
    pub fn poison_reason(&self) -> (result: Option<String>)
        ensures
            result is Some <==> self@.poison is Some,
            result matches Some(reason) ==> reason@ == self@.poison->0@,
    {
        match self.poison_reason {
            None => None,
            Some(reason) => Some(reason.to_owned()),
        }
    }

    fn poison(&mut self, message: &'static str) -> (error: Error)
        ensures
            error == error::data_error(message),
            final(self)@ == (framing::Control {
                phase: framing::Phase::Poisoned,
                poison: Some(message),
                ..old(self)@
            }),
    {
        self.mode = Mode::Poisoned;
        self.poison_reason = Some(message);
        invalid_data(message)
    }
}

/// Frames responses, follows literals and turns `UIDFETCH` into `FETCH` for a
/// parser that only knows the latter.
#[derive(Debug)]
pub struct UidOnlyAdapter<T> {
    inner: T,
    limits: AdapterLimits,
    input: VecDeque<u8>,
    emit: VecDeque<u8>,
    line: Vec<u8>,
    literal_remaining: usize,
    response_bytes: usize,
    in_response: bool,
    first_line: bool,
    reserved_provenance: bool,
    active_kind: Option<ActiveResponseKind>,
    pass_through_literal_context: bool,
    eof: bool,
}

impl<T> View for UidOnlyAdapter<T> {
    type V = framing::Frame;

    closed spec fn view(&self) -> framing::Frame {
        framing::Frame {
            limits: self.limits,
            line: self.line@,
            literal_remaining: self.literal_remaining as int,
            response_bytes: self.response_bytes as int,
            in_response: self.in_response,
            first_line: self.first_line,
            holds_slot: self.reserved_provenance,
            kind: self.active_kind,
            literal_context: self.pass_through_literal_context,
        }
    }
}

/// What the owner of a byte stream does next to serve a read.
#[derive(Debug, PartialEq, Eq)]
pub enum ReadStep {
    /// Hand these bytes to the reader.
    Deliver(Vec<u8>),
    /// Wait until a provenance record is taken.
    Wait,
    /// Read at most so many bytes from the stream.
    Fill(usize),
    /// The stream has ended between two responses.
    Ended,
    /// The read fails.
    Fault(Error),
}

impl ReadStep {
    pub open spec fn delivered(self) -> Seq<u8> {
        match self {
            ReadStep::Deliver(bytes) => bytes@,
            _ => Seq::empty(),
        }
    }

    pub open spec fn verdict(self) -> framing::ReadVerdict {
        match self {
            ReadStep::Deliver(_) => framing::ReadVerdict::Deliver,
            ReadStep::Wait => framing::ReadVerdict::Wait,
            ReadStep::Fill(n) => framing::ReadVerdict::Fill(n as int),
            ReadStep::Ended => framing::ReadVerdict::Ended,
            ReadStep::Fault(e) => framing::ReadVerdict::Fault(e),
        }
    }
}

/// Takes the first `count` bytes of a queue.
fn take_front(queue: &mut VecDeque<u8>, count: usize) -> (taken: Vec<u8>)
    requires
        count <= old(queue)@.len(),
    ensures
        taken@ == old(queue)@.take(count as int),
        final(queue)@ == old(queue)@.skip(count as int),
{
    let mut taken: Vec<u8> = Vec::new();
    let mut i: usize = 0;
    while i < count
        invariant
            i <= count <= old(queue)@.len(),
            taken@ == old(queue)@.take(i as int),
            queue@ == old(queue)@.skip(i as int),
        decreases count - i,
    {
        match queue.pop_front() {
            Some(byte) => {
                taken.push(byte);
            },
            None => {},
        }
        i = i + 1;
        assert(taken@ =~= old(queue)@.take(i as int));
        assert(queue@ =~= old(queue)@.skip(i as int));
    }
    assert(queue@ =~= old(queue)@.skip(count as int));
    taken
}

/// Appends bytes to a queue.
fn extend_back(queue: &mut VecDeque<u8>, bytes: &[u8])
    ensures
        final(queue)@ == old(queue)@ + bytes@,
{
    let mut i: usize = 0;
    while i < bytes.len()
        invariant
            i <= bytes.len(),
            queue@ == old(queue)@ + bytes@.take(i as int),
        decreases bytes.len() - i,
    {
        queue.push_back(bytes[i]);
        i = i + 1;
        assert(bytes@.take(i as int) =~= bytes@.take(i - 1).push(bytes@[i - 1]));
    }
    assert(bytes@.take(i as int) =~= bytes@);
}

fn smallest(a: usize, b: usize) -> (result: usize)
    ensures
        result == framing::smaller(a as int, b as int),
{
    if a < b {
        a
    } else {
        b
    }
}

impl<T> UidOnlyAdapter<T> {
    pub closed spec fn inner(self) -> T {
        self.inner
    }

    /// Bytes read from the stream and not processed yet.
    pub closed spec fn input(self) -> Seq<u8> {
        self.input@
    }

    /// Bytes processed and not delivered yet.
    pub closed spec fn emitted(self) -> Seq<u8> {
        self.emit@
    }

    pub closed spec fn at_eof(self) -> bool {
        self.eof
    }

    /// The state of this adapter together with its handle.
    pub open spec fn state(self, control: AdapterHandle) -> framing::State {
        framing::joined(control@, self@)
    }

    /// Nothing but the framing state and the two buffers differs.
    pub open spec fn same_stream(self, other: Self) -> bool {
        &&& self.inner() == other.inner()
        &&& self.at_eof() == other.at_eof()
        &&& self@.limits == other@.limits
    }

    /// Wraps a byte stream in the pass-through phase.
    pub fn new(inner: T, limits: AdapterLimits) -> (result: Result<(Self, AdapterHandle), Error>)
        ensures
            result is Ok <==> limits.usable(),
            result matches Err(e) ==> e == error::input_error("invalid UIDONLY adapter limits"),
            result matches Ok((adapter, handle)) ==> {
                &&& handle.wf()
                &&& adapter.inner() == inner
                &&& !adapter.at_eof()
                &&& adapter.input() == Seq::<u8>::empty()
                &&& adapter.emitted() == Seq::<u8>::empty()
                &&& adapter.state(handle) == framing::initial(limits)
            },
    {
        match limits.validate() {
            Err(e) => {
                return Err(e);
            },
            Ok(()) => {},
        }
        let handle = AdapterHandle {
            mode: Mode::PassThrough,
            provenance: VecDeque::new(),
            reserved: 0,
            provenance_capacity: limits.provenance_capacity.get(),
            activation_wire_bytes: 0,
            literal_bytes_received: 0,
            poison_reason: None,
        };
        let adapter = UidOnlyAdapter {
            inner,
            limits,
            input: VecDeque::new(),
            emit: VecDeque::new(),
            line: Vec::new(),
            literal_remaining: 0,
            response_bytes: 0,
            in_response: false,
            first_line: true,
            reserved_provenance: false,
            active_kind: None,
            pass_through_literal_context: false,
            eof: false,
        };
        assert(adapter.state(handle) =~= framing::initial(limits));
        assert(adapter.input@ =~= Seq::<u8>::empty());
        assert(adapter.emit@ =~= Seq::<u8>::empty());
        Ok((adapter, handle))
    }

    /// Recovers the stream at an empty pass-through boundary, as `STARTTLS`
    /// needs it.
    pub fn into_inner(self, control: &AdapterHandle) -> (result: Result<T, Error>)
        ensures
            framing::at_boundary(self.state(*control)) && self.input().len() == 0
                && self.emitted().len() == 0 ==> result == Ok::<T, Error>(self.inner()),
            !(framing::at_boundary(self.state(*control)) && self.input().len() == 0
                && self.emitted().len() == 0) ==> result == Err::<T, Error>(
                error::input_error(
                    "UIDONLY adapter can only be unwrapped at an empty pass-through boundary",
                ),
            ),
    {
        let pass_through = match control.mode {
            Mode::PassThrough => true,
            _ => false,
        };
        if !pass_through || control.provenance.len() != 0 || control.reserved != 0
            || self.input.len() != 0 || self.emit.len() != 0 || self.line.len() != 0
            || self.literal_remaining != 0 || self.in_response || self.reserved_provenance {
            return Err(
                invalid_input(
                    "UIDONLY adapter can only be unwrapped at an empty pass-through boundary",
                ),
            );
        }
        Ok(self.inner)
    }

    /// Starts a response where none is in progress; `false` where it must wait
    /// for a free provenance record.
    fn ensure_response_started(&mut self, control: &mut AdapterHandle) -> (result: Result<
        bool,
        Error,
    >)
        requires
            old(control).wf(),
        ensures
            final(control).wf(),
            final(self).same_stream(*old(self)),
            final(self).input() == old(self).input(),
            final(self).emitted() == old(self).emitted(),
            ({
                let s = old(self).state(*old(control));
                let t = final(self).state(*final(control));
                if s.in_response {
                    t == s && result == Ok::<bool, Error>(true)
                } else if s.phase is Poisoned {
                    t == s && result == Err::<bool, Error>(framing::poison_error(s))
                } else if framing::blocked(s) {
                    t == s && result == Ok::<bool, Error>(false)
                } else {
                    t == framing::begin(s) && result == Ok::<bool, Error>(true)
                }
            }),
    {
        if self.in_response {
            return Ok(true);
        }
        match control.mode {
            Mode::Poisoned => {
                return match control.poison_reason {
                    Some(reason) => Err(invalid_data(reason)),
                    None => Err(invalid_data("UIDONLY adapter poisoned")),
                };
            },
            Mode::Active => {
                if control.provenance.len() + control.reserved >= control.provenance_capacity {
                    return Ok(false);
                }
                control.reserved = control.reserved + 1;
                self.reserved_provenance = true;
            },
            _ => {},
        }
        self.in_response = true;
        self.first_line = true;
        self.response_bytes = 0;
        self.active_kind = None;
        self.pass_through_literal_context = false;
        assert(self.state(*control) =~= framing::begin(old(self).state(*old(control))));
        Ok(true)
    }

    fn add_response_bytes(&mut self, control: &mut AdapterHandle, count: usize) -> (result: Result<
        (),
        Error,
    >)
        requires
            old(control).wf(),
        ensures
            final(control).wf(),
            final(self).same_stream(*old(self)),
            final(self).input() == old(self).input(),
            final(self).emitted() == old(self).emitted(),
            ({
                let step = framing::count(old(self).state(*old(control)), count as int);
                &&& final(self).state(*final(control)) == step.state
                &&& framing::verdict(result) == step.error
            }),
    {
        match self.response_bytes.checked_add(count) {
            None => {
                return Err(control.poison("response byte count overflow"));
            },
            Some(total) => {
                self.response_bytes = total;
            },
        }
        if self.response_bytes > self.limits.max_response_bytes.get() {
            return Err(control.poison("response exceeds configured byte limit"));
        }
        Ok(())
    }

    fn add_literal_bytes(control: &mut AdapterHandle, count: usize) -> (result: Result<(), Error>)
        requires
            old(control).wf(),
        ensures
            final(control).wf(),
            old(control)@.literal_bytes + count <= u64::MAX ==> result == Ok::<(), Error>(())
                && final(control)@ == (framing::Control {
                literal_bytes: old(control)@.literal_bytes + count,
                ..old(control)@
            }),
            old(control)@.literal_bytes + count > u64::MAX ==> result == Err::<(), Error>(
                error::data_error("literal byte counter overflow"),
            ) && final(control)@ == (framing::Control {
                phase: framing::Phase::Poisoned,
                poison: Some("literal byte counter overflow"),
                ..old(control)@
            }),
    {
        match control.literal_bytes_received.checked_add(count as u64) {
            None => Err(control.poison("literal byte counter overflow")),
            Some(total) => {
                control.literal_bytes_received = total;
                Ok(())
            },
        }
    }

    /// Reads the announcement of the first line of a response and rewrites an
    /// active `UIDFETCH`.
    fn classify_first_line(
        &mut self,
        control: &mut AdapterHandle,
        wire_line: Vec<u8>,
    ) -> (result: Result<Vec<u8>, Error>)
        requires
            old(control).wf(),
            lines::ends_in_crlf(wire_line@),
        ensures
            final(control).wf(),
            final(self).same_stream(*old(self)),
            final(self).input() == old(self).input(),
            final(self).emitted() == old(self).emitted(),
            ({
                let step = framing::classify(old(self).state(*old(control)), wire_line@);
                &&& final(self).state(*final(control)) == step.state
                &&& match result {
                    Ok(line) => step.error is None && line@ == step.out && lines::ends_in_crlf(
                        line@,
                    ),
                    Err(e) => step.error == Some(e),
                }
            }),
    {
        proof {
            assert(wire_line@.len() == wire_line.len());
            framing::lemma_rewrite_keeps_line_end(wire_line@);
        }
        let ghost before = self.state(*control);
        let poisoned = match control.mode {
            Mode::Poisoned => true,
            _ => false,
        };
        if poisoned {
            return Err(control.poison("UIDONLY adapter already poisoned"));
        }
        let numeric = match classify_numeric_response(wire_line.as_slice()) {
            Err(e) => {
                return Err(control.poison(e.message));
            },
            Ok(numeric) => numeric,
        };
        match control.mode {
            Mode::PassThrough => {
                let fetch = match numeric {
                    NumericResponse::Fetch => true,
                    _ => false,
                };
                self.pass_through_literal_context = fetch
                    || pass_through_untagged_may_contain_literal(wire_line.as_slice());
                if fetch {
                    self.active_kind = Some(ActiveResponseKind::Unchanged);
                }
                assert(self.state(*control) =~= framing::classify(before, wire_line@).state);
                Ok(wire_line)
            },
            Mode::PendingEnable { .. } => {
                match numeric {
                    NumericResponse::UidFetch { .. } => Err(
                        control.poison("UIDFETCH arrived before UIDONLY activation"),
                    ),
                    _ => Ok(wire_line),
                }
            },
            Mode::Active => match numeric {
                NumericResponse::UidFetch { leading_uid, atom_start, atom_end } => {
                    let mut rewritten: Vec<u8> = Vec::new();
                    rewritten.extend_from_slice(slice_subrange(wire_line.as_slice(), 0, atom_start));
                    proof {
                        reveal_strlit("FETCH");
                    }
                    push_word(&mut rewritten, "FETCH");
                    rewritten.extend_from_slice(
                        slice_subrange(wire_line.as_slice(), atom_end, wire_line.len()),
                    );
                    assert(rewritten@ =~= framing::with_fetch(
                        wire_line@,
                        atom_start as int,
                        atom_end as int,
                    ));
                    self.active_kind = Some(ActiveResponseKind::TranslatedUidFetch { leading_uid });
                    assert(self.state(*control) =~= framing::classify(before, wire_line@).state);
                    Ok(rewritten)
                },
                NumericResponse::Fetch => Err(
                    control.poison("raw FETCH is forbidden after UIDONLY activation"),
                ),
                NumericResponse::Other => {
                    self.active_kind = Some(ActiveResponseKind::Unchanged);
                    assert(self.state(*control) =~= framing::classify(before, wire_line@).state);
                    Ok(wire_line)
                },
            },
            Mode::Poisoned => Err(control.poison("UIDONLY adapter already poisoned")),
        }
    }

    /// Ends a response: activation moves on, an active response leaves its record.
    fn finish_response_before_emit(
        &mut self,
        control: &mut AdapterHandle,
        wire_line: &[u8],
    ) -> (result: Result<(), Error>)
        requires
            old(control).wf(),
        ensures
            final(control).wf(),
            final(self).same_stream(*old(self)),
            final(self).input() == old(self).input(),
            final(self).emitted() == old(self).emitted(),
            ({
                let step = framing::finish(old(self).state(*old(control)), wire_line@);
                &&& final(self).state(*final(control)) == step.state
                &&& framing::verdict(result) == step.error
                &&& step.error is None ==> step.out == wire_line@
            }),
    {
        let ghost before = self.state(*control);
        let pending = match control.mode {
            Mode::PendingEnable { .. } => true,
            _ => false,
        };
        if pending {
            match control.activation_wire_bytes.checked_add(self.response_bytes) {
                None => {
                    return Err(control.poison("ENABLE UIDONLY wire byte count overflow"));
                },
                Some(total) => {
                    control.activation_wire_bytes = total;
                },
            }
        }
        let poisoned = match control.mode {
            Mode::Poisoned => true,
            _ => false,
        };
        if poisoned {
            return Err(invalid_data("UIDONLY adapter poisoned"));
        }
        let enabled = is_enabled_uidonly(wire_line);
        let status = match &control.mode {
            Mode::PendingEnable { tag, .. } => tagged_status(wire_line, tag.as_slice()),
            _ => None,
        };
        let active = match control.mode {
            Mode::Active => true,
            _ => false,
        };
        if pending {
            if enabled {
                if let Mode::PendingEnable { saw_enabled_uidonly, .. } = &mut control.mode {
                    *saw_enabled_uidonly = true;
                }
            } else if let Some(status) = status {
                let confirmed = match control.mode {
                    Mode::PendingEnable { saw_enabled_uidonly, .. } => saw_enabled_uidonly,
                    _ => false,
                };
                match status {
                    TaggedStatus::Done => {
                        if !confirmed {
                            return Err(
                                control.poison("ENABLE completed OK without ENABLED UIDONLY"),
                            );
                        }
                        control.mode = Mode::Active;
                    },
                    TaggedStatus::NoOrBad => {
                        return Err(control.poison("ENABLE UIDONLY was rejected"));
                    },
                }
            }
        } else if active {
            if !self.reserved_provenance || control.reserved == 0 {
                return Err(control.poison("missing reserved provenance slot"));
            }
            let record = match self.active_kind {
                Some(ActiveResponseKind::TranslatedUidFetch { leading_uid }) => {
                    Provenance::TranslatedUidFetch { leading_uid, wire_bytes: self.response_bytes }
                },
                Some(ActiveResponseKind::Unchanged) => Provenance::Unchanged {
                    wire_bytes: self.response_bytes,
                },
                None => {
                    return Err(control.poison("missing active response classification"));
                },
            };
            control.reserved = control.reserved - 1;
            control.provenance.push_back(record);
            self.reserved_provenance = false;
        }
        self.in_response = false;
        self.first_line = true;
        self.response_bytes = 0;
        self.active_kind = None;
        self.pass_through_literal_context = false;
        assert(self.state(*control) =~= framing::finish(before, wire_line@).state);
        Ok(())
    }

    /// Handles a line whose response has been classified.
    fn handle_classified_line(
        &mut self,
        control: &mut AdapterHandle,
        wire_line: Vec<u8>,
    ) -> (result: Result<(), Error>)
        requires
            old(control).wf(),
            lines::ends_in_crlf(wire_line@),
        ensures
            final(control).wf(),
            final(self).same_stream(*old(self)),
            final(self).input() == old(self).input(),
            ({
                let step = framing::after_line(old(self).state(*old(control)), wire_line@);
                &&& final(self).state(*final(control)) == step.state
                &&& framing::verdict(result) == step.error
                &&& final(self).emitted() == old(self).emitted() + step.out
            }),
    {
        assert(self.emit@ =~= self.emit@ + Seq::<u8>::empty());
        let body = slice_subrange(wire_line.as_slice(), 0, wire_line.len() - 2);
        assert(body@ =~= wire_line@.take(wire_line@.len() - 2));
        let marker: bool = body.len() > 0 && body[body.len() - 1] == RIGHT_BRACE;
        let uidfetch = match self.active_kind {
            Some(ActiveResponseKind::TranslatedUidFetch { .. }) => true,
            _ => false,
        };
        if uidfetch && contains_internaldate_nil(body) {
            return Err(control.poison("UIDFETCH INTERNALDATE NIL is invalid"));
        }
        let (pass_through, pending, active) = match control.mode {
            Mode::PassThrough => (true, false, false),
            Mode::PendingEnable { .. } => (false, true, false),
            Mode::Active => (false, false, true),
            Mode::Poisoned => (false, false, false),
        };
        if marker && active && !uidfetch {
            return Err(control.poison("literal-like marker outside an active UIDFETCH response"));
        }
        if marker && pending {
            return Err(control.poison("literal response is forbidden during UIDONLY activation"));
        }
        let literal: Option<usize> = if marker && uidfetch {
            match parse_literal_len(body) {
                Err(e) => {
                    return Err(control.poison(e.message));
                },
                Ok(length) => Some(length),
            }
        } else if marker && pass_through && self.pass_through_literal_context {
            match parse_pass_through_literal_len(body) {
                Err(e) => {
                    return Err(control.poison(e.message));
                },
                Ok(length) => length,
            }
        } else {
            None
        };
        if let Some(length) = literal {
            if length > self.limits.max_literal_bytes.get() {
                return Err(control.poison("literal exceeds configured byte limit"));
            }
            match self.response_bytes.checked_add(length) {
                None => {
                    return Err(control.poison("response byte count overflow"));
                },
                Some(projected) => {
                    if projected > self.limits.max_response_bytes.get() {
                        return Err(
                            control.poison("announced literal exceeds remaining response budget"),
                        );
                    }
                },
            }
            self.literal_remaining = length;
            extend_back(&mut self.emit, wire_line.as_slice());
            return Ok(());
        }
        match self.finish_response_before_emit(control, wire_line.as_slice()) {
            Err(e) => {
                return Err(e);
            },
            Ok(()) => {},
        }
        extend_back(&mut self.emit, wire_line.as_slice());
        Ok(())
    }

    /// Handles a complete line: a literal follows it or the response ends.
    fn handle_complete_line(&mut self, control: &mut AdapterHandle) -> (result: Result<(), Error>)
        requires
            old(control).wf(),
            lines::ends_in_crlf(old(self)@.line),
        ensures
            final(control).wf(),
            final(self).same_stream(*old(self)),
            final(self).input() == old(self).input(),
            ({
                let step = framing::complete_line(old(self).state(*old(control)));
                &&& final(self).state(*final(control)) == step.state
                &&& framing::verdict(result) == step.error
                &&& final(self).emitted() == old(self).emitted() + step.out
            }),
    {
        proof {
            reveal(framing::complete_line);
        }
        let ghost before = self.state(*control);
        let mut wire_line: Vec<u8> = Vec::new();
        std::mem::swap(&mut self.line, &mut wire_line);
        assert(self.line@ =~= Seq::<u8>::empty());
        assert(self.emit@ =~= self.emit@ + Seq::<u8>::empty());
        let ghost cleared = framing::State { line: Seq::empty(), ..before };
        assert(self.state(*control) =~= cleared);
        if self.first_line {
            wire_line = match self.classify_first_line(control, wire_line) {
                Err(e) => {
                    return Err(e);
                },
                Ok(line) => line,
            };
            self.first_line = false;
        }
        let ghost ready = self.state(*control);
        assert(framing::complete_line(before) == framing::after_line(ready, wire_line@)) by {
            if before.first_line {
                assert(ready =~= (framing::State {
                    first_line: false,
                    ..framing::classify(cleared, before.line).state
                }));
            }
        }
        self.handle_classified_line(control, wire_line)
    }

    /// Moves buffered input on: literal octets as they are, lines once they are
    /// complete.
    pub fn process_input(&mut self, control: &mut AdapterHandle) -> (result: Result<
        ProcessInput,
        Error,
    >)
        requires
            old(control).wf(),
        ensures
            final(control).wf(),
            final(self).same_stream(*old(self)),
            framing::round(
                old(self).state(*old(control)),
                old(self).input(),
                old(self).emitted(),
            ) == (framing::Round {
                state: final(self).state(*final(control)),
                input: final(self).input(),
                emit: final(self).emitted(),
                result,
            }),
    {
        let ghost before = self.state(*control);
        if self.emit.len() != 0 {
            return Ok(ProcessInput::Emitted);
        }
        assert(self.emit@ =~= Seq::<u8>::empty());
        if !self.in_response && self.input.len() == 0 {
            return Ok(ProcessInput::NeedInput);
        }
        match self.ensure_response_started(control) {
            Err(e) => {
                return Err(e);
            },
            Ok(false) => {
                return Ok(ProcessInput::Backpressured);
            },
            Ok(true) => {},
        }
        let ghost started = self.state(*control);
        assert(started == if before.in_response {
            before
        } else {
            framing::begin(before)
        });
        if self.literal_remaining > 0 {
            if self.input.len() == 0 {
                return Ok(ProcessInput::NeedInput);
            }
            let count = smallest(
                smallest(self.literal_remaining, self.input.len()),
                READ_CHUNK,
            );
            let ghost bytes = self.input@.take(count as int);
            match self.add_response_bytes(control, count) {
                Err(e) => {
                    return Err(e);
                },
                Ok(()) => {},
            }
            match Self::add_literal_bytes(control, count) {
                Err(e) => {
                    return Err(e);
                },
                Ok(()) => {},
            }
            let moved = take_front(&mut self.input, count);
            extend_back(&mut self.emit, moved.as_slice());
            self.literal_remaining = self.literal_remaining - count;
            assert(self.emit@ =~= bytes);
            assert(self.state(*control) =~= framing::literal_bytes(started, bytes).state);
            return Ok(ProcessInput::Emitted);
        }
        let ghost all = self.input@;
        while self.input.len() > 0
            invariant
                control.wf(),
                self.same_stream(*old(self)),
                self.emitted() == Seq::<u8>::empty(),
                framing::line_run(started, all) == framing::line_run(
                    self.state(*control),
                    self.input(),
                ),
                framing::round(before, all, Seq::empty()).result == (
                match framing::line_run(started, all).step.error {
                    Some(e) => Err(e),
                    None => if framing::line_run(started, all).completed {
                        Ok(ProcessInput::Emitted)
                    } else {
                        Ok(ProcessInput::NeedInput)
                    },
                }),
                framing::round(before, all, Seq::empty()).state == framing::line_run(
                    started,
                    all,
                ).step.state,
                framing::round(before, all, Seq::empty()).input == framing::line_run(
                    started,
                    all,
                ).rest,
                framing::round(before, all, Seq::empty()).emit == framing::line_run(
                    started,
                    all,
                ).step.out,
                before == old(self).state(*old(control)),
                all == old(self).input(),
                old(self).emitted() == Seq::<u8>::empty(),
            decreases self.input@.len(),
        {
            let ghost here = self.state(*control);
            let ghost rest = self.input@;
            let byte = match self.input.pop_front() {
                Some(byte) => byte,
                None => {
                    return Ok(ProcessInput::NeedInput);
                },
            };
            assert(self.input@ =~= rest.drop_first());
            self.line.push(byte);
            assert(self.state(*control) =~= (framing::State {
                line: here.line.push(byte),
                ..here
            }));
            match self.add_response_bytes(control, 1) {
                Err(e) => {
                    return Err(e);
                },
                Ok(()) => {},
            }
            if self.line.len() > self.limits.max_control_line_bytes.get() {
                return Err(control.poison("control line exceeds configured byte limit"));
            }
            if has_crlf(self.line.as_slice()) {
                match self.handle_complete_line(control) {
                    Err(e) => {
                        assert(self.emit@ =~= Seq::<u8>::empty() + framing::line_byte(
                            here,
                            byte,
                        ).out);
                        assert(self.emit@ =~= framing::line_byte(here, byte).out);
                        return Err(e);
                    },
                    Ok(()) => {},
                }
                assert(self.emit@ =~= framing::line_byte(here, byte).out);
                return Ok(ProcessInput::Emitted);
            }
        }
        Ok(ProcessInput::NeedInput)
    }

    /// The wrapped stream.
    pub fn inner_mut(&mut self) -> (inner: &mut T)
        ensures
            *inner == old(self).inner(),
            final(self).inner() == *final(inner),
            final(self)@ == old(self)@,
            final(self).input() == old(self).input(),
            final(self).emitted() == old(self).emitted(),
            final(self).at_eof() == old(self).at_eof(),
    {
        &mut self.inner
    }

    /// Takes in what a read of the stream gave; nothing at all is its end.
    pub fn receive(&mut self, bytes: &[u8])
        ensures
            final(self)@ == old(self)@,
            final(self).inner() == old(self).inner(),
            final(self).emitted() == old(self).emitted(),
            final(self).input() == old(self).input() + bytes@,
            final(self).at_eof() == (old(self).at_eof() || bytes@.len() == 0),
    {
        if bytes.len() == 0 {
            self.eof = true;
            assert(self.input@ =~= old(self).input@ + bytes@);
        } else {
            extend_back(&mut self.input, bytes);
        }
    }

    /// Decides how a read of at most `wanted` bytes goes on.
    pub fn poll_read(&mut self, control: &mut AdapterHandle, wanted: usize) -> (step: ReadStep)
        requires
            old(control).wf(),
        ensures
            final(control).wf(),
            final(self).same_stream(*old(self)),
            wanted == 0 ==> step is Deliver && step.delivered().len() == 0
                && final(self)@ == old(self)@ && final(control)@ == old(control)@
                && final(self).input() == old(self).input() && final(self).emitted() == old(
                self,
            ).emitted(),
            wanted > 0 ==> framing::read_outcome(
                framing::round(
                    old(self).state(*old(control)),
                    old(self).input(),
                    old(self).emitted(),
                ),
                wanted as int,
                old(self).at_eof(),
            ) == (framing::Reading {
                state: final(self).state(*final(control)),
                input: final(self).input(),
                emit: final(self).emitted(),
                delivered: step.delivered(),
                verdict: step.verdict(),
            }),
    {
        if wanted == 0 {
            return ReadStep::Deliver(Vec::new());
        }
        match self.process_input(control) {
            Err(e) => ReadStep::Fault(e),
            Ok(ProcessInput::Backpressured) => ReadStep::Wait,
            Ok(ProcessInput::Emitted) => {
                let count = smallest(wanted, self.emit.len());
                let bytes = take_front(&mut self.emit, count);
                ReadStep::Deliver(bytes)
            },
            Ok(ProcessInput::NeedInput) => {
                if self.eof {
                    if self.input.len() != 0 && !self.in_response {
                        return ReadStep::Wait;
                    }
                    if self.in_response || self.line.len() != 0 || self.literal_remaining > 0 {
                        let fault = control.poison("truncated IMAP response");
                        return ReadStep::Fault(
                            Error { kind: ErrorKind::UnexpectedEof, message: fault.message },
                        );
                    }
                    return ReadStep::Ended;
                }
                if self.input.len() >= self.limits.max_input_bytes.get() {
                    return ReadStep::Fault(control.poison("input buffer limit reached"));
                }
                ReadStep::Fill(
                    smallest(self.limits.max_input_bytes.get() - self.input.len(), READ_CHUNK),
                )
            },
        }
    }
}

} // verus!
