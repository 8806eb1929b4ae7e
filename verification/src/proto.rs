//! The messages of the bank account: its events, its commands and its state,
//! each with its abstract view.
pub mod bank_command;
pub mod bank_event;

use self::bank_command::Command;
use self::bank_event::{Event, EventView};
use vstd::prelude::*;

verus! {

/// An account was opened with a starting balance and an id.
#[derive(Clone, Debug, PartialEq, Eq)]
pub struct AccountOpened {
    pub balance: i64,
    pub id: String,
}

pub struct AccountOpenedView {
    pub balance: i64,
    pub id: Seq<char>,
}

impl View for AccountOpened {
    type V = AccountOpenedView;

    open spec fn view(&self) -> AccountOpenedView {
        AccountOpenedView { balance: self.balance, id: self.id@ }
    }
}

impl AccountOpenedView {
    pub open spec fn empty() -> AccountOpenedView {
        AccountOpenedView { balance: 0, id: Seq::empty() }
    }
}

impl AccountOpened {
    /// An account opening with no balance and an empty id, as a freshly
    /// decoded message starts out.
    pub fn empty() -> (r: AccountOpened)
        ensures
            r@ == AccountOpenedView::empty(),
    {
        AccountOpened { balance: 0, id: String::new() }
    }
}

/// An amount was added to the balance.
#[derive(Clone, Copy, Debug, PartialEq, Eq, Structural)]
pub struct Transaction {
    pub amount: i64,
}

impl View for Transaction {
    type V = Transaction;

    open spec fn view(&self) -> Transaction {
        *self
    }
}

/// A transaction of an amount was refused.
#[derive(Clone, Copy, Debug, PartialEq, Eq, Structural)]
pub struct TransactionDenied {
    pub amount: i64,
}

impl View for TransactionDenied {
    type V = TransactionDenied;

    open spec fn view(&self) -> TransactionDenied {
        *self
    }
}

/// An event of the account; `event` is `None` where no variant was set.
#[derive(Clone, Debug, PartialEq, Eq)]
pub struct BankEvent {
    pub event: Option<Event>,
}

pub struct BankEventView {
    pub event: Option<EventView>,
}

impl View for BankEvent {
    type V = BankEventView;

    open spec fn view(&self) -> BankEventView {
        BankEventView {
            event: match &self.event {
                None => None,
                Some(e) => Some(e@),
            },
        }
    }
}

impl From<Event> for BankEvent {
    fn from(value: Event) -> (r: BankEvent) {
        BankEvent { event: Some(value) }
    }
}

impl vstd::std_specs::convert::FromSpecImpl<Event> for BankEvent {
    open spec fn obeys_from_spec() -> bool {
        true
    }

    open spec fn from_spec(v: Event) -> BankEvent {
        BankEvent { event: Some(v) }
    }
}

/// A command to the account; `command` is `None` where no variant was set.
#[derive(Clone, Copy, Debug, PartialEq, Eq, Structural)]
pub struct BankCommand {
    pub command: Option<Command>,
}

impl View for BankCommand {
    type V = BankCommand;

    open spec fn view(&self) -> BankCommand {
        *self
    }
}

/// The state of the account, as its events leave it.
#[derive(Clone, Debug, PartialEq, Eq)]
pub struct BankState {
    pub balance: i64,
    pub id: String,
    pub is_open: bool,
}

pub struct BankStateView {
    pub balance: i64,
    pub id: Seq<char>,
    pub is_open: bool,
}

impl View for BankState {
    type V = BankStateView;

    open spec fn view(&self) -> BankStateView {
        BankStateView { balance: self.balance, id: self.id@, is_open: self.is_open }
    }
}

impl BankStateView {
    pub open spec fn empty() -> BankStateView {
        BankStateView { balance: 0, id: Seq::empty(), is_open: false }
    }
}

impl Default for BankState {
    /// A closed account with no balance and an empty id.
    fn default() -> (r: BankState)
        ensures
            r@ == BankStateView::empty(),
    {
        BankState { balance: 0, id: String::new(), is_open: false }
    }
}

} // verus!
