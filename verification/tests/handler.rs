use eventsourcing::handler::CommandHandler;
use eventsourcing::proto::bank_command::Command;
use eventsourcing::proto::bank_event::Event;
use eventsourcing::proto::{
    AccountOpened, BankCommand, BankEvent, BankState, Transaction, TransactionDenied,
};

fn opened(balance: i64, id: &str) -> BankEvent {
    BankEvent {
        event: Some(Event::Opened(AccountOpened {
            balance,
            id: id.to_string(),
        })),
    }
}

fn transaction(amount: i64) -> BankEvent {
    BankEvent {
        event: Some(Event::Transaction(Transaction { amount })),
    }
}

fn denied(amount: i64) -> BankEvent {
    BankEvent {
        event: Some(Event::Denied(TransactionDenied { amount })),
    }
}

fn command(c: Command) -> BankCommand {
    BankCommand { command: Some(c) }
}

fn open_state(balance: i64) -> BankState {
    BankState {
        balance,
        id: "acc".to_string(),
        is_open: true,
    }
}

#[test]
fn rehydrate_open_and_two_deposits() {
    let events = vec![opened(1000, "acc"), transaction(500), transaction(250)];
    assert_eq!(CommandHandler::rehydrate(events), Ok(open_state(1750)));
}

#[test]
fn rehydrate_nothing_is_closed_and_empty() {
    assert_eq!(CommandHandler::rehydrate(vec![]), Ok(BankState::default()));
}

#[test]
fn rehydrate_ignores_denied_and_empty_events() {
    let events = vec![
        opened(10, "acc"),
        denied(500),
        BankEvent { event: None },
        transaction(-3),
    ];
    assert_eq!(CommandHandler::rehydrate(events), Ok(open_state(7)));
}

#[test]
fn rehydrate_second_opening_resets() {
    let events = vec![opened(10, "a"), transaction(5), opened(99, "b")];
    assert_eq!(
        CommandHandler::rehydrate(events),
        Ok(BankState {
            balance: 99,
            id: "b".to_string(),
            is_open: true
        })
    );
}

#[test]
fn rehydrate_wraps_at_the_bounds() {
    let events = vec![opened(i64::MAX, "acc"), transaction(1)];
    assert_eq!(CommandHandler::rehydrate(events), Ok(open_state(i64::MIN)));
}

#[test]
fn transaction_within_balance_is_allowed() {
    let r = CommandHandler::handle(open_state(1000), command(Command::Transaction(500)));
    assert_eq!(r, Ok(vec![transaction(500)]));
    let r = CommandHandler::handle(open_state(1000), command(Command::Transaction(1000)));
    assert_eq!(r, Ok(vec![transaction(1000)]));
}

#[test]
fn transaction_beyond_balance_is_denied() {
    let r = CommandHandler::handle(open_state(1000), command(Command::Transaction(1001)));
    assert_eq!(r, Ok(vec![denied(1001)]));
}

#[test]
fn negative_transaction_is_allowed() {
    let r = CommandHandler::handle(open_state(1000), command(Command::Transaction(-2000)));
    assert_eq!(r, Ok(vec![transaction(-2000)]));
}

#[test]
fn transaction_difference_saturates() {
    let r = CommandHandler::handle(open_state(i64::MIN), command(Command::Transaction(i64::MAX)));
    assert_eq!(r, Ok(vec![denied(i64::MAX)]));
    let r = CommandHandler::handle(open_state(i64::MAX), command(Command::Transaction(i64::MIN)));
    assert_eq!(r, Ok(vec![transaction(i64::MIN)]));
}

#[test]
fn empty_command_leads_to_nothing() {
    let r = CommandHandler::handle(open_state(1), BankCommand { command: None });
    assert_eq!(r, Ok(vec![]));
}

#[test]
fn opening_an_open_account_is_refused() {
    let r = CommandHandler::handle(open_state(1), command(Command::OpenAccount(1000)));
    assert_eq!(r, Err("Account is already open".to_string()));
}

#[test]
fn opening_a_closed_account_takes_a_uuid() {
    let r = CommandHandler::handle(BankState::default(), command(Command::OpenAccount(1000)));
    let events = r.unwrap();
    assert_eq!(events.len(), 1);
    match &events[0].event {
        Some(Event::Opened(o)) => {
            assert_eq!(o.balance, 1000);
            let id: Vec<char> = o.id.chars().collect();
            assert_eq!(id.len(), 36);
            for (i, c) in id.iter().enumerate() {
                if i == 8 || i == 13 || i == 18 || i == 23 {
                    assert_eq!(*c, '-');
                } else {
                    assert!(c.is_ascii_hexdigit() && !c.is_ascii_uppercase());
                }
            }
            assert_eq!(id[14], '7');
            assert!(matches!(id[19], '8' | '9' | 'a' | 'b'));
        }
        other => panic!("unexpected {:?}", other),
    }
}

#[test]
fn decided_events_fold_into_state() {
    let state = open_state(1000);
    let events = CommandHandler::handle(open_state(1000), command(Command::Transaction(200))).unwrap();
    let mut all = vec![opened(1000, "acc")];
    all.extend(events);
    assert_eq!(CommandHandler::rehydrate(all), Ok(open_state(1200)));
    assert_eq!(state.balance, 1000);
}

#[test]
fn state_of_earlier_events_stands_for_them() {
    let earlier = vec![opened(1000, "acc"), transaction(500)];
    let later = vec![transaction(250), denied(9), transaction(-50)];
    let mut all = earlier.clone();
    all.extend(later.clone());
    let whole = CommandHandler::rehydrate(all).unwrap();
    let snapshot = CommandHandler::rehydrate(earlier).unwrap();
    let mut from_snapshot = vec![opened(snapshot.balance, &snapshot.id)];
    from_snapshot.extend(later);
    assert_eq!(CommandHandler::rehydrate(from_snapshot), Ok(whole));
}

#[test]
fn one_more_event_folds_into_the_state() {
    let events = vec![opened(5, "acc"), transaction(5)];
    let before = CommandHandler::rehydrate(events.clone()).unwrap();
    let mut more = events;
    more.push(transaction(7));
    let after = CommandHandler::rehydrate(more).unwrap();
    assert_eq!(after.balance, before.balance + 7);
    assert_eq!(after.id, before.id);
    assert_eq!(after.is_open, before.is_open);
}

#[test]
fn an_open_account_stays_open() {
    let events = vec![opened(5, "acc"), denied(1), transaction(-100), BankEvent { event: None }];
    assert!(CommandHandler::rehydrate(events).unwrap().is_open);
}
