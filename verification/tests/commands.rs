use bichon_uidonly::command::{InventoryRequest, UidOnlyCommand};
use bichon_uidonly::limits::CommandLimits;
use bichon_uidonly::nonzero::{NonZeroU32, NonZeroUsize};

fn nz(value: u32) -> NonZeroU32 {
    NonZeroU32::new(value).unwrap()
}

#[test]
fn typed_command_builder_quotes_mailbox_and_rejects_injection() {
    let limits = CommandLimits::default();
    assert_eq!(
        UidOnlyCommand::Examine {
            encoded_mailbox: "Project \\\\ \"Archive\" &AMk-".to_string(),
        }
        .render(&limits)
        .unwrap(),
        "EXAMINE \"Project \\\\\\\\ \\\"Archive\\\" &AMk-\""
    );
    for invalid in [
        "bad\r\nNOOP",
        "bad\nNOOP",
        "bad\0name",
        "bad\tname",
        "收件箱",
    ] {
        assert!(UidOnlyCommand::Examine {
            encoded_mailbox: invalid.to_string(),
        }
        .render(&limits)
        .is_err());
    }
    let escaped_boundary = UidOnlyCommand::Examine {
        encoded_mailbox: "\\\\".to_string(),
    };
    let exact_limits = CommandLimits {
        max_mailbox_wire_bytes: NonZeroUsize::new(6).unwrap(),
        ..CommandLimits::default()
    };
    assert_eq!(
        escaped_boundary.render(&exact_limits).unwrap(),
        "EXAMINE \"\\\\\\\\\""
    );
    let too_small = CommandLimits {
        max_mailbox_wire_bytes: NonZeroUsize::new(5).unwrap(),
        ..CommandLimits::default()
    };
    assert!(escaped_boundary.render(&too_small).is_err());
    assert_eq!(
        UidOnlyCommand::Inventory(
            InventoryRequest::new(nz(1), nz(50_000), nz(1_000)).unwrap()
        )
        .render(&limits)
        .unwrap(),
        "UID FETCH 1:50000 (UID RFC822.SIZE INTERNALDATE) (PARTIAL 1:1000)"
    );
    assert_eq!(
        UidOnlyCommand::BodyChunk {
            uid: nz(42),
            offset: 1_024,
            count: nz(4_096),
        }
        .render(&limits)
        .unwrap(),
        "UID FETCH 42 (UID RFC822.SIZE BODY.PEEK[]<1024.4096>)"
    );
}
