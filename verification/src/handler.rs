//! The command handler of the bank account: it folds events into the state
//! of the account, and decides which events a command leads to.
use crate::proto::bank_command::Command;
use crate::proto::bank_event::{Event, EventView};
use crate::proto::{
    AccountOpened, AccountOpenedView, BankCommand, BankEvent, BankEventView, BankState,
    BankStateView, Transaction, TransactionDenied,
};
use vstd::prelude::*;

verus! {

/// The command handler of the bank account.
pub struct CommandHandler;

/// The state after one more event: an opening sets the balance and the id
/// and opens the account, a transaction adds its amount (wrapping at the
/// bounds of i64), a refused transaction or an empty event changes nothing.
pub open spec fn apply_event(s: BankStateView, e: BankEventView) -> BankStateView {
    match e.event {
        Some(EventView::Opened(o)) => BankStateView { balance: o.balance, id: o.id, is_open: true },
        Some(EventView::Transaction(t)) => BankStateView {
            balance: vstd::wrapping::i64_specs::wrapping_add(s.balance, t.amount),
            ..s
        },
        _ => s,
    }
}

/// The state that a sequence of events leaves, from a closed, empty account.
pub open spec fn rehydrated(events: Seq<BankEventView>) -> BankStateView
    decreases events.len(),
{
    if events.len() == 0 {
        BankStateView::empty()
    } else {
        apply_event(rehydrated(events.drop_last()), events.last())
    }
}

pub open spec fn event_views(events: Seq<BankEvent>) -> Seq<BankEventView> {
    events.map_values(|e: BankEvent| e@)
}

/// What a command leads to in a state: a transaction is refused where it
/// would take the balance below zero, and allowed otherwise; an account
/// opens once, with the id given; an empty command leads to nothing.
pub open spec fn decide(state: BankStateView, command: BankCommand, id: Seq<char>) -> Result<
    Seq<BankEventView>,
    Seq<char>,
> {
    match command.command {
        Some(Command::Transaction(amount)) => if state.balance - amount < 0 {
            Ok(seq![BankEventView { event: Some(EventView::Denied(TransactionDenied { amount })) }])
        } else {
            Ok(seq![BankEventView { event: Some(EventView::Transaction(Transaction { amount })) }])
        },
        Some(Command::OpenAccount(balance)) => if state.is_open {
            Err("Account is already open"@)
        } else {
            Ok(
                seq![
                    BankEventView {
                        event: Some(EventView::Opened(AccountOpenedView { balance, id })),
                    },
                ],
            )
        },
        None => Ok(Seq::empty()),
    }
}

/// The command opens a closed account, which takes a fresh id.
pub open spec fn opens_account(state: BankStateView, command: BankCommand) -> bool {
    command.command matches Some(Command::OpenAccount(_)) && !state.is_open
}

pub open spec fn decided(r: Result<Vec<BankEvent>, String>, expected: Result<Seq<BankEventView>, Seq<char>>) -> bool {
    match expected {
        Ok(evs) => r matches Ok(v) && event_views(v@) == evs,
        Err(m) => r matches Err(x) && x@ == m,
    }
}

/// The id of the opening at the head of `events`.
pub open spec fn opened_id(events: Seq<BankEventView>) -> Seq<char> {
    match events[0].event {
        Some(EventView::Opened(o)) => o.id,
        _ => Seq::empty(),
    }
}

pub open spec fn is_lower_hex(c: char) -> bool {
    ('0' <= c && c <= '9') || ('a' <= c && c <= 'f')
}

/// Text in the hyphenated form of a version 7 UUID of the RFC 9562 variant:
/// 32 lowercase hex digits in groups of 8, 4, 4, 4 and 12.
pub open spec fn is_uuid_v7_text(t: Seq<char>) -> bool {
    &&& t.len() == 36
    &&& forall|i: int|
        0 <= i < 36 ==> if i == 8 || i == 13 || i == 18 || i == 23 {
            t[i] == '-'
        } else {
            is_lower_hex(#[trigger] t[i])
        }
    &&& t[14] == '7'
    &&& (t[19] == '8' || t[19] == '9' || t[19] == 'a' || t[19] == 'b')
}

/// A fresh account id.
/// Calls `uuid::Uuid::now_v7`, which makes a version 7 UUID of the RFC 9562
/// variant from the clock and random bits, and formats it with `to_string`,
/// which writes the lowercase hyphenated form. The contract states that form;
/// which UUID comes out depends on the time and on chance and is not stated.
#[verifier::external_body]
fn new_account_id() -> (id: String)
    ensures
        is_uuid_v7_text(id@),
{
    uuid::Uuid::now_v7().to_string()
}

/// The difference, clamped to the bounds of i64.
/// Calls `i64::saturating_sub`, which its documentation describes so.
#[verifier::external_body]
fn saturating_difference(a: i64, b: i64) -> (r: i64)
    ensures
        a - b > i64::MAX ==> r == i64::MAX,
        a - b < i64::MIN ==> r == i64::MIN,
        i64::MIN <= a - b <= i64::MAX ==> r == a - b,
{
    a.saturating_sub(b)
}

fn one_event(e: BankEvent) -> (r: Vec<BankEvent>)
    ensures
        event_views(r@) == seq![e@],
{
    let mut v = Vec::new();
    v.push(e);
    proof {
        assert(event_views(v@) =~= seq![e@]);
    }
    v
}

fn decide_with_id(state: &BankState, command: BankCommand, id: String) -> (r: Result<Vec<BankEvent>, String>)
    ensures
        decided(r, decide(state@, command, id@)),
{
    match command.command {
        Some(Command::Transaction(amount)) => {
            if saturating_difference(state.balance, amount) < 0 {
                Ok(one_event(BankEvent { event: Some(Event::Denied(TransactionDenied { amount })) }))
            } else {
                Ok(one_event(BankEvent { event: Some(Event::Transaction(Transaction { amount })) }))
            }
        },
        Some(Command::OpenAccount(initial_balance)) => {
            if state.is_open {
                return Err("Account is already open".to_owned());
            }
            Ok(
                one_event(
                    BankEvent {
                        event: Some(Event::Opened(AccountOpened { balance: initial_balance, id })),
                    },
                ),
            )
        },
        None => {
            let v = Vec::new();
            proof {
                assert(event_views(v@) =~= Seq::<BankEventView>::empty());
            }
            Ok(v)
        },
    }
}

impl CommandHandler {
    /// The state that `events` leave, folded in order from a closed, empty
    /// account; never fails.
    pub fn rehydrate(events: Vec<BankEvent>) -> (r: Result<BankState, String>)
        ensures
            r matches Ok(s) && s@ == rehydrated(event_views(events@)),
    {
        let mut state = BankState::default();
        let mut i: usize = 0;
        while i < events.len()
            invariant
                i <= events@.len(),
                state@ == rehydrated(event_views(events@).take(i as int)),
            decreases events@.len() - i,
        {
            match &events[i].event {
                Some(Event::Opened(o)) => {
                    state.balance = o.balance;
                    state.id = o.id.clone();
                    state.is_open = true;
                },
                Some(Event::Transaction(t)) => {
                    state.balance = state.balance.wrapping_add(t.amount);
                },
                Some(Event::Denied(_)) => {},
                None => {},
            }
            proof {
                let vs = event_views(events@);
                assert(vs.take(i + 1).drop_last() =~= vs.take(i as int));
                assert(vs.take(i + 1).last() == events@[i as int]@);
            }
            i = i + 1;
        }
        proof {
            assert(event_views(events@).take(i as int) =~= event_views(events@));
        }
        Ok(state)
    }

    /// The events that `command` leads to in `state`. Opening a closed
    /// account takes a fresh UUID as the account's id.
    pub fn handle(state: BankState, command: BankCommand) -> (r: Result<Vec<BankEvent>, String>)
        ensures
            opens_account(state@, command) ==> (r matches Ok(v) && is_uuid_v7_text(
                opened_id(event_views(v@)),
            ) && decided(r, decide(state@, command, opened_id(event_views(v@))))),
            !opens_account(state@, command) ==> decided(r, decide(state@, command, Seq::empty())),
    {
        let opens = match command.command {
            Some(Command::OpenAccount(_)) => !state.is_open,
            _ => false,
        };
        let id = if opens {
            new_account_id()
        } else {
            String::new()
        };
        let ghost id_view = id@;
        let r = decide_with_id(&state, command, id);
        proof {
            if opens {
                let v = r->Ok_0;
                assert(event_views(v@)[0] == BankEventView {
                    event: Some(EventView::Opened(AccountOpenedView {
                        balance: command.command->Some_0->OpenAccount_0,
                        id: id_view,
                    })),
                });
            }
        }
        r
    }
}

} // verus!
