//! The variants that a bank event can hold.
use super::{AccountOpened, AccountOpenedView, Transaction, TransactionDenied};
use vstd::prelude::*;

verus! {

#[derive(Clone, Debug, PartialEq, Eq)]
pub enum Event {
    Opened(AccountOpened),
    Transaction(Transaction),
    Denied(TransactionDenied),
}

pub enum EventView {
    Opened(AccountOpenedView),
    Transaction(Transaction),
    Denied(TransactionDenied),
}

impl View for Event {
    type V = EventView;

    open spec fn view(&self) -> EventView {
        match self {
            Event::Opened(o) => EventView::Opened(o@),
            Event::Transaction(t) => EventView::Transaction(*t),
            Event::Denied(d) => EventView::Denied(*d),
        }
    }
}

} // verus!
