//! The variants that a bank command can hold.
use vstd::prelude::*;

verus! {

/// Add an amount to the balance, or open the account with a starting balance.
#[derive(Clone, Copy, Debug, PartialEq, Eq, Structural)]
pub enum Command {
    Transaction(i64),
    OpenAccount(i64),
}

} // verus!
