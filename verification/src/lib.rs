//! Verified core of an IMAP archiver that works by UID alone.

use vstd::prelude::*;

pub mod account;
pub mod acquisition;
pub mod acquisition_laws;
pub mod acquisition_model;
pub mod acquisition_runs;
pub mod acquisition_success;
pub mod acquisition_world;
pub mod adapter;
pub mod archive_laws;
pub mod batches;
pub mod blob;
pub mod capability;
pub mod capability_laws;
pub mod command;
pub mod commit;
pub mod connection;
pub mod detach;
pub mod dispatch;
pub mod enrolment;
pub mod enrolment_laws;
pub mod envelope;
pub mod envelope_laws;
pub mod error;
pub mod failure;
pub mod framing;
pub mod framing_laws;
pub mod framing_success;
pub mod inventory;
pub mod limits;
pub mod line_laws;
pub mod lines;
pub mod mailbox;
pub mod message_laws;
pub mod mime;
pub mod nonzero;
pub mod projection;
pub mod projection_laws;
pub mod reading_laws;
pub mod reattach;
pub mod rebuild;
pub mod rebuild_laws;
pub mod recovery;
pub mod request_laws;
pub mod scope;
pub mod scope_laws;
pub mod session;
pub mod session_laws;
pub mod session_success;
pub mod text;
pub mod text_laws;
pub mod transport;
pub mod transport_laws;
pub mod words;

verus! {

} // verus!
