# bichon_uidonly

The acquisition core of a mail archiver, verified with Verus. It speaks to IMAP servers
that serve messages by UID only (RFC 9586), takes an inventory of a mailbox, fetches every
message of it exactly once, and turns raw messages into blobs and envelopes.

## Layout

`src/` is the library. Every item of it is verified; what is believed without proof are
the few items that call into other crates, each marked and described where it stands.

- Bytes and lines: `text`, `lines`, `framing`, `framing_laws`, `reading_laws`, `adapter`.
- Commands and responses: `limits`, `command`, `mailbox`, `dispatch`, `session`,
  `session_laws`, `inventory`.
- Servers and accounts: `account`, `capability`, `scope`, `connection`, `enrolment`.
- Acquisitions: `batches`, `transport`, `acquisition_model`, `acquisition`,
  `acquisition_laws`, `acquisition_runs`.
- Messages: `mime`, `words`, `blob`, `detach`, `reattach`, `envelope`, `projection`, `projection_laws`,
  `commit`, `recovery`, `rebuild`.

What the library promises beyond its functions' contracts stands in proof functions whose
names start with `law_`.

`app/` is ordinary Rust around the library: asynchronous streams and sessions, and the
loops that perform what the library decides. `tests/` runs the library with the real
crates that it calls.
