use eventsourcing::proto::bank_command::Command;
use eventsourcing::proto::bank_event::Event;
use eventsourcing::proto::{AccountOpened, BankCommand, BankEvent, Transaction, TransactionDenied};
use eventsourcing::sourcer::EventSourcer;

fn opened(balance: i64, id: &str) -> BankEvent {
    BankEvent {
        event: Some(Event::Opened(AccountOpened {
            balance,
            id: id.to_string(),
        })),
    }
}

fn transaction(amount: i64) -> BankEvent {
    BankEvent {
        event: Some(Event::Transaction(Transaction { amount })),
    }
}

fn history() -> Vec<BankEvent> {
    vec![opened(1000, "acc"), transaction(500), transaction(250)]
}

fn stored_history() -> Vec<Vec<u8>> {
    EventSourcer::append(history()).unwrap()
}

fn command_bytes(c: Command) -> Vec<u8> {
    BankCommand { command: Some(c) }.serialize().unwrap()
}

#[test]
fn append_serializes_each_event() {
    let stored = stored_history();
    assert_eq!(
        stored,
        vec![
            vec![0x0A, 0x08, 0x08, 0xE8, 0x07, 0x12, 0x03, b'a', b'c', b'c'],
            vec![0x12, 0x03, 0x08, 0xF4, 0x03],
            vec![0x12, 0x03, 0x08, 0xFA, 0x01],
        ]
    );
}

#[test]
fn appended_events_read_back() {
    assert_eq!(EventSourcer::get_events(stored_history()), Ok(history()));
    assert_eq!(EventSourcer::get_events(vec![]), Ok(vec![]));
}

#[test]
fn get_events_reports_the_first_bad_event() {
    let mut stored = stored_history();
    stored.push(vec![0x80]);
    stored.push(vec![0x00]);
    assert_eq!(
        EventSourcer::get_events(stored),
        Err("failed to deserialize evente: Event deserialization failed: failed to decode Protobuf message: invalid varint".to_string())
    );
}

#[test]
fn handle_command_against_stored_events() {
    let r = EventSourcer::handle_command(stored_history(), command_bytes(Command::Transaction(2000)));
    assert_eq!(
        r,
        Ok(vec![BankEvent {
            event: Some(Event::Denied(TransactionDenied { amount: 2000 }))
        }])
    );
    let r = EventSourcer::handle_command(stored_history(), command_bytes(Command::Transaction(1750)));
    assert_eq!(r, Ok(vec![transaction(1750)]));
}

#[test]
fn handle_command_refuses_a_second_opening() {
    let r = EventSourcer::handle_command(stored_history(), command_bytes(Command::OpenAccount(5)));
    assert_eq!(r, Err("Account is already open".to_string()));
}

#[test]
fn handle_command_opens_a_new_account() {
    let r = EventSourcer::handle_command(vec![], command_bytes(Command::OpenAccount(1000))).unwrap();
    assert_eq!(r.len(), 1);
    match &r[0].event {
        Some(Event::Opened(o)) => {
            assert_eq!(o.balance, 1000);
            assert_eq!(o.id.len(), 36);
        }
        other => panic!("unexpected {:?}", other),
    }
}

#[test]
fn handle_command_reports_bad_bytes() {
    let r = EventSourcer::handle_command(vec![vec![0x0F]], command_bytes(Command::Transaction(1)));
    assert_eq!(
        r,
        Err("Event deserialization failed: failed to decode Protobuf message: invalid wire type value: 7".to_string())
    );
    let r = EventSourcer::handle_command(stored_history(), vec![0x10]);
    assert_eq!(
        r,
        Err("Event deserialization failed: failed to decode Protobuf message: BankCommand.command: invalid varint".to_string())
    );
}
