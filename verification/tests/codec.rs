use eventsourcing::decode::{DecodeError, FieldPath};
use eventsourcing::proto::bank_command::Command;
use eventsourcing::proto::bank_event::Event;
use eventsourcing::proto::{
    AccountOpened, BankCommand, BankEvent, BankState, Transaction, TransactionDenied,
};
use eventsourcing::wire::{DecodeErrorKind, WireType};

fn opened(balance: i64, id: &str) -> BankEvent {
    BankEvent {
        event: Some(Event::Opened(AccountOpened {
            balance,
            id: id.to_string(),
        })),
    }
}

fn event_error(bytes: &[u8]) -> String {
    match BankEvent::deserialize(bytes.to_vec()) {
        Ok(e) => panic!("decoded {:?}", e),
        Err(m) => m,
    }
}

#[test]
fn command_transaction_encoding() {
    let c = BankCommand {
        command: Some(Command::Transaction(300)),
    };
    assert_eq!(c.encode_to_vec(), vec![0x08, 0xAC, 0x02]);
}

#[test]
fn command_open_account_encoding() {
    let c = BankCommand {
        command: Some(Command::OpenAccount(1000)),
    };
    assert_eq!(c.serialize(), Ok(vec![0x10, 0xE8, 0x07]));
}

#[test]
fn command_negative_amount_takes_ten_bytes() {
    let c = BankCommand {
        command: Some(Command::Transaction(-1)),
    };
    let bytes = c.encode_to_vec();
    assert_eq!(
        bytes,
        vec![0x08, 0xFF, 0xFF, 0xFF, 0xFF, 0xFF, 0xFF, 0xFF, 0xFF, 0xFF, 0x01]
    );
    assert_eq!(BankCommand::deserialize(bytes), Ok(c));
}

#[test]
fn command_zero_amount_is_still_encoded() {
    let c = BankCommand {
        command: Some(Command::Transaction(0)),
    };
    assert_eq!(c.encode_to_vec(), vec![0x08, 0x00]);
    assert_eq!(BankCommand::deserialize(vec![0x08, 0x00]), Ok(c));
}

#[test]
fn empty_command_is_empty() {
    let c = BankCommand { command: None };
    assert_eq!(c.encode_to_vec(), Vec::<u8>::new());
    assert_eq!(BankCommand::deserialize(vec![]), Ok(c));
}

#[test]
fn opened_event_encoding() {
    let e = opened(1000, "abc");
    assert_eq!(
        e.encode_to_vec(),
        vec![0x0A, 0x08, 0x08, 0xE8, 0x07, 0x12, 0x03, b'a', b'b', b'c']
    );
}

#[test]
fn transaction_and_denied_encoding() {
    let t = BankEvent {
        event: Some(Event::Transaction(Transaction { amount: 500 })),
    };
    assert_eq!(t.encode_to_vec(), vec![0x12, 0x03, 0x08, 0xF4, 0x03]);
    let d = BankEvent {
        event: Some(Event::Denied(TransactionDenied { amount: 250 })),
    };
    assert_eq!(d.encode_to_vec(), vec![0x1A, 0x03, 0x08, 0xFA, 0x01]);
    let zero = BankEvent {
        event: Some(Event::Transaction(Transaction { amount: 0 })),
    };
    assert_eq!(zero.encode_to_vec(), vec![0x12, 0x00]);
}

#[test]
fn state_encoding() {
    let s = BankState {
        balance: 1750,
        id: "x".to_string(),
        is_open: true,
    };
    assert_eq!(
        s.serialize(),
        Ok(vec![0x08, 0xD6, 0x0D, 0x12, 0x01, b'x', 0x18, 0x01])
    );
    assert_eq!(BankState::default().encode_to_vec(), Vec::<u8>::new());
}

#[test]
fn events_read_back() {
    let events = vec![
        opened(1000, "0190b3c4-aaaa-7bbb-8ccc-123456789abc"),
        opened(-5, ""),
        opened(0, "é✓"),
        BankEvent {
            event: Some(Event::Transaction(Transaction { amount: i64::MIN })),
        },
        BankEvent {
            event: Some(Event::Denied(TransactionDenied { amount: 7 })),
        },
        BankEvent { event: None },
    ];
    for e in events {
        let bytes = e.serialize().unwrap();
        assert_eq!(BankEvent::deserialize(bytes), Ok(e));
    }
}

#[test]
fn state_reads_back() {
    let s = BankState {
        balance: i64::MAX,
        id: "account".to_string(),
        is_open: false,
    };
    let bytes = s.serialize().unwrap();
    assert_eq!(BankState::deserialize(bytes), Ok(s));
}

#[test]
fn from_variant_wraps_it() {
    let e: BankEvent = Event::Transaction(Transaction { amount: 3 }).into();
    assert_eq!(
        e,
        BankEvent {
            event: Some(Event::Transaction(Transaction { amount: 3 }))
        }
    );
}

#[test]
fn later_fields_win_and_messages_merge() {
    // Two openings: the second only carries an id, which merges into the first.
    let bytes = vec![
        0x0A, 0x03, 0x08, 0xE8, 0x07, 0x0A, 0x03, 0x12, 0x01, b'z',
    ];
    assert_eq!(BankEvent::deserialize(bytes), Ok(opened(1000, "z")));
    // A transaction after an opening replaces it.
    let bytes = vec![0x0A, 0x03, 0x08, 0xE8, 0x07, 0x12, 0x02, 0x08, 0x05];
    assert_eq!(
        BankEvent::deserialize(bytes),
        Ok(BankEvent {
            event: Some(Event::Transaction(Transaction { amount: 5 }))
        })
    );
    // The last command variant wins.
    assert_eq!(
        BankCommand::deserialize(vec![0x08, 0x01, 0x10, 0x02]),
        Ok(BankCommand {
            command: Some(Command::OpenAccount(2))
        })
    );
    // A bool field is true for any non-zero varint.
    assert_eq!(
        BankState::deserialize(vec![0x18, 0x05]),
        Ok(BankState {
            balance: 0,
            id: String::new(),
            is_open: true
        })
    );
}

#[test]
fn unknown_fields_are_skipped() {
    // tag 4 varint, tag 5 fixed32, tag 6 fixed64, tag 7 length-delimited, tag 8 group.
    let bytes = vec![
        0x20, 0x96, 0x01, 0x2D, 1, 2, 3, 4, 0x31, 1, 2, 3, 4, 5, 6, 7, 8, 0x3A, 0x02, 9, 9,
        0x43, 0x08, 0x01, 0x44, 0x12, 0x02, 0x08, 0x07,
    ];
    assert_eq!(
        BankEvent::deserialize(bytes),
        Ok(BankEvent {
            event: Some(Event::Transaction(Transaction { amount: 7 }))
        })
    );
}

#[test]
fn error_invalid_varint() {
    assert_eq!(
        event_error(&[0x80]),
        "Event deserialization failed: failed to decode Protobuf message: invalid varint"
    );
    let ten = [0x08, 0xFF, 0xFF, 0xFF, 0xFF, 0xFF, 0xFF, 0xFF, 0xFF, 0xFF, 0x02];
    assert_eq!(
        BankCommand::deserialize(ten.to_vec()),
        Err("Event deserialization failed: failed to decode Protobuf message: BankCommand.command: invalid varint".to_string())
    );
}

#[test]
fn error_invalid_tag() {
    assert_eq!(
        event_error(&[0x00]),
        "Event deserialization failed: failed to decode Protobuf message: invalid tag value: 0"
    );
}

#[test]
fn error_invalid_wire_type() {
    assert_eq!(
        event_error(&[0x0F]),
        "Event deserialization failed: failed to decode Protobuf message: invalid wire type value: 7"
    );
}

#[test]
fn error_invalid_key() {
    assert_eq!(
        event_error(&[0x80, 0x80, 0x80, 0x80, 0x10]),
        "Event deserialization failed: failed to decode Protobuf message: invalid key value: 4294967296"
    );
}

#[test]
fn error_unexpected_wire_type() {
    assert_eq!(
        event_error(&[0x08, 0x01]),
        "Event deserialization failed: failed to decode Protobuf message: BankEvent.event: invalid wire type: Varint (expected LengthDelimited)"
    );
    assert_eq!(
        BankState::deserialize(vec![0x10, 0x01]),
        Err("Event deserialization failed: failed to decode Protobuf message: BankState.id: invalid wire type: Varint (expected LengthDelimited)".to_string())
    );
}

#[test]
fn error_buffer_underflow() {
    assert_eq!(
        event_error(&[0x0A, 0x05, 0x08]),
        "Event deserialization failed: failed to decode Protobuf message: BankEvent.event: buffer underflow"
    );
    assert_eq!(
        event_error(&[0x25, 0x01]),
        "Event deserialization failed: failed to decode Protobuf message: buffer underflow"
    );
}

#[test]
fn error_delimited_length_exceeded() {
    assert_eq!(
        event_error(&[0x0A, 0x01, 0x08, 0x01]),
        "Event deserialization failed: failed to decode Protobuf message: BankEvent.event: delimited length exceeded"
    );
}

#[test]
fn error_unexpected_end_group_tag() {
    assert_eq!(
        event_error(&[0x24]),
        "Event deserialization failed: failed to decode Protobuf message: unexpected end group tag"
    );
    assert_eq!(
        event_error(&[0x23, 0x2C]),
        "Event deserialization failed: failed to decode Protobuf message: unexpected end group tag"
    );
}

#[test]
fn error_invalid_string() {
    assert_eq!(
        event_error(&[0x0A, 0x03, 0x12, 0x01, 0xFF]),
        "Event deserialization failed: failed to decode Protobuf message: AccountOpened.id: BankEvent.event: invalid string value: data is not UTF-8 encoded"
    );
}

#[test]
fn error_inner_field_location() {
    assert_eq!(
        event_error(&[0x1A, 0x02, 0x0A, 0x00]),
        "Event deserialization failed: failed to decode Protobuf message: TransactionDenied.amount: BankEvent.event: invalid wire type: LengthDelimited (expected Varint)"
    );
}

#[test]
fn error_recursion_limit() {
    let deep = vec![0x23u8; 101];
    assert_eq!(
        event_error(&deep),
        "Event deserialization failed: failed to decode Protobuf message: recursion limit reached"
    );
    let shallow = vec![0x23u8; 100];
    assert_eq!(
        event_error(&shallow),
        "Event deserialization failed: failed to decode Protobuf message: invalid varint"
    );
}

#[test]
fn decode_error_value() {
    let e = BankEvent::decode(&[0x0A, 0x03, 0x12, 0x01, 0xFF]).unwrap_err();
    assert_eq!(
        e,
        DecodeError {
            kind: DecodeErrorKind::InvalidString,
            stack: vec![FieldPath::AccountOpenedId, FieldPath::BankEventEvent],
        }
    );
    let e = BankEvent::decode(&[0x08, 0x00]).unwrap_err();
    assert_eq!(
        e.kind,
        DecodeErrorKind::UnexpectedWireType {
            actual: WireType::Varint,
            expected: WireType::LengthDelimited
        }
    );
}

#[test]
fn decimal_text_digits() {
    assert_eq!(eventsourcing::errtext::decimal_text(0), "0");
    assert_eq!(eventsourcing::errtext::decimal_text(1234567890), "1234567890");
    assert_eq!(
        eventsourcing::errtext::decimal_text(u64::MAX),
        "18446744073709551615"
    );
}
