//! Resource ceilings of the adapter and of the commands sent through it.

use crate::error;
use crate::error::{invalid_input, Error};
use crate::nonzero::{NonZeroU32, NonZeroUsize};
use vstd::prelude::*;

verus! {

/// A span of time: whole seconds and the nanoseconds beyond them.
#[derive(Clone, Copy, Debug, PartialEq, Eq, Structural)]
pub struct Duration {
    pub seconds: u64,
    pub nanoseconds: u32,
}

impl Duration {
    pub fn from_secs(seconds: u64) -> (span: Duration)
        ensures
            span == (Duration { seconds, nanoseconds: 0 }),
    {
        Duration { seconds, nanoseconds: 0 }
    }

    pub fn is_zero(&self) -> (result: bool)
        ensures
            result == (self.seconds == 0 && self.nanoseconds == 0),
    {
        self.seconds == 0 && self.nanoseconds == 0
    }
}

/// Ceilings that hold before bytes reach the response parser.
#[derive(Clone, Copy, Debug, PartialEq, Eq)]
pub struct AdapterLimits {
    pub max_input_bytes: NonZeroUsize,
    pub max_control_line_bytes: NonZeroUsize,
    pub max_literal_bytes: NonZeroUsize,
    pub max_response_bytes: NonZeroUsize,
    pub provenance_capacity: NonZeroUsize,
}

impl Default for AdapterLimits {
    fn default() -> (limits: Self)
        ensures
            limits.max_input_bytes@ == 65_536,
            limits.max_control_line_bytes@ == 65_536,
            limits.max_literal_bytes@ == 1_048_576,
            limits.max_response_bytes@ == 2_097_152,
            limits.provenance_capacity@ == 64,
            limits.usable(),
    {
        AdapterLimits {
            max_input_bytes: NonZeroUsize::at_least_one(65_536),
            max_control_line_bytes: NonZeroUsize::at_least_one(65_536),
            max_literal_bytes: NonZeroUsize::at_least_one(1_048_576),
            max_response_bytes: NonZeroUsize::at_least_one(2_097_152),
            provenance_capacity: NonZeroUsize::at_least_one(64),
        }
    }
}

impl AdapterLimits {
    /// A line can hold its line end, a response can hold a line, and the
    /// provenance queue stays small.
    pub open spec fn usable(self) -> bool {
        &&& self.max_control_line_bytes@ >= 2
        &&& self.max_response_bytes@ >= self.max_control_line_bytes@
        &&& self.provenance_capacity@ <= 1024
    }

    pub fn validate(&self) -> (result: Result<(), Error>)
        ensures
            result == if self.usable() {
                Ok(())
            } else {
                Err(error::input_error("invalid UIDONLY adapter limits"))
            },
    {
        if self.max_control_line_bytes.get() < 2 || self.max_response_bytes.get()
            < self.max_control_line_bytes.get() || self.provenance_capacity.get() > 1024 {
            return Err(invalid_input("invalid UIDONLY adapter limits"));
        }
        Ok(())
    }
}

/// Ceilings on one command after activation.
#[derive(Clone, Copy, Debug, PartialEq, Eq)]
pub struct CommandLimits {
    pub timeout: Duration,
    pub max_responses: NonZeroUsize,
    pub max_wire_bytes: NonZeroUsize,
    pub max_events: NonZeroUsize,
    pub max_vanished_ranges: NonZeroUsize,
    pub max_inventory_page: NonZeroU32,
    pub max_body_chunk_bytes: NonZeroU32,
    pub max_mailbox_wire_bytes: NonZeroUsize,
}

impl Default for CommandLimits {
    fn default() -> (limits: Self)
        ensures
            limits.timeout == (Duration { seconds: 30, nanoseconds: 0 }),
            limits.max_responses@ == 2_048,
            limits.max_wire_bytes@ == 4_194_304,
            limits.max_events@ == 2_048,
            limits.max_vanished_ranges@ == 2_048,
            limits.max_inventory_page@ == 1_000,
            limits.max_body_chunk_bytes@ == 1_048_576,
            limits.max_mailbox_wire_bytes@ == 4_096,
    {
        CommandLimits {
            timeout: Duration::from_secs(30),
            max_responses: NonZeroUsize::at_least_one(2_048),
            max_wire_bytes: NonZeroUsize::at_least_one(4_194_304),
            max_events: NonZeroUsize::at_least_one(2_048),
            max_vanished_ranges: NonZeroUsize::at_least_one(2_048),
            max_inventory_page: NonZeroU32::at_least_one(1_000),
            max_body_chunk_bytes: NonZeroU32::at_least_one(1_048_576),
            max_mailbox_wire_bytes: NonZeroUsize::at_least_one(4_096),
        }
    }
}

impl CommandLimits {
    pub fn validate(&self) -> (result: Result<(), Error>)
        ensures
            result == if self.timeout == (Duration { seconds: 0, nanoseconds: 0 }) {
                Err(error::input_error("command timeout must be nonzero"))
            } else {
                Ok(())
            },
    {
        if self.timeout.is_zero() {
            return Err(invalid_input("command timeout must be nonzero"));
        }
        Ok(())
    }
}

} // verus!
