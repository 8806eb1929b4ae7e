//! Encoding of the account's messages in the protobuf wire format, as proto3
//! lays fields out: in field-number order, each scalar only where it differs
//! from its default, each set variant of a one-of always.
use crate::proto::bank_command::Command;
use crate::proto::bank_event::{Event, EventView};
use crate::proto::{
    AccountOpened, AccountOpenedView, BankCommand, BankEvent, BankEventView, BankState,
    BankStateView, Transaction, TransactionDenied,
};
use crate::wire::{encode_key, key_bytes, put_varint, varint_bytes, WireType};
use vstd::prelude::*;
use vstd::string::*;
use vstd::utf8::*;

verus! {

/// An int64 field: its key, then the value's two's-complement bits as a varint.
pub open spec fn int64_field_bytes(tag: u32, v: i64) -> Seq<u8> {
    key_bytes(tag, WireType::Varint) + varint_bytes((v as u64) as nat)
}

/// A length-delimited field: its key, the length of `body`, then `body`.
pub open spec fn delimited_field_bytes(tag: u32, body: Seq<u8>) -> Seq<u8> {
    key_bytes(tag, WireType::LengthDelimited) + varint_bytes(body.len()) + body
}

/// A string field: its UTF-8 bytes, length-delimited.
pub open spec fn string_field_bytes(tag: u32, text: Seq<char>) -> Seq<u8> {
    delimited_field_bytes(tag, encode_utf8(text))
}

/// A bool field that is true.
pub open spec fn true_field_bytes(tag: u32) -> Seq<u8> {
    key_bytes(tag, WireType::Varint) + varint_bytes(1)
}

pub open spec fn int64_if_set(tag: u32, v: i64) -> Seq<u8> {
    if v != 0 {
        int64_field_bytes(tag, v)
    } else {
        Seq::empty()
    }
}

pub open spec fn string_if_set(tag: u32, text: Seq<char>) -> Seq<u8> {
    if text.len() != 0 {
        string_field_bytes(tag, text)
    } else {
        Seq::empty()
    }
}

pub open spec fn encode_account_opened(o: AccountOpenedView) -> Seq<u8> {
    int64_if_set(1, o.balance) + string_if_set(2, o.id)
}

/// The body of a message whose only field is an int64 amount.
pub open spec fn encode_amount(amount: i64) -> Seq<u8> {
    int64_if_set(1, amount)
}

pub open spec fn encode_bank_event(e: BankEventView) -> Seq<u8> {
    match e.event {
        None => Seq::empty(),
        Some(EventView::Opened(o)) => delimited_field_bytes(1, encode_account_opened(o)),
        Some(EventView::Transaction(t)) => delimited_field_bytes(2, encode_amount(t.amount)),
        Some(EventView::Denied(d)) => delimited_field_bytes(3, encode_amount(d.amount)),
    }
}

pub open spec fn encode_bank_command(c: BankCommand) -> Seq<u8> {
    match c.command {
        None => Seq::empty(),
        Some(Command::Transaction(a)) => int64_field_bytes(1, a),
        Some(Command::OpenAccount(a)) => int64_field_bytes(2, a),
    }
}

pub open spec fn encode_bank_state(s: BankStateView) -> Seq<u8> {
    int64_if_set(1, s.balance) + string_if_set(2, s.id) + if s.is_open {
        true_field_bytes(3)
    } else {
        Seq::empty()
    }
}

/// Text has no UTF-8 bytes exactly when it has no characters.
pub proof fn lemma_encode_utf8_empty(text: Seq<char>)
    ensures
        (encode_utf8(text).len() == 0) == (text.len() == 0),
{
    if text.len() > 0 {
        assert(encode_scalar(text[0] as u32).len() >= 1);
    }
}

/// Appends `bytes` to `buf`.
fn append_bytes(buf: &mut Vec<u8>, bytes: &[u8])
    ensures
        final(buf)@ == old(buf)@ + bytes@,
{
    let mut i: usize = 0;
    while i < bytes.len()
        invariant
            i <= bytes@.len(),
            buf@ == old(buf)@ + bytes@.take(i as int),
        decreases bytes@.len() - i,
    {
        buf.push(bytes[i]);
        i = i + 1;
        proof {
            assert(bytes@.take(i as int) =~= bytes@.take(i - 1) + seq![bytes@[i - 1]]);
        }
    }
    proof {
        assert(bytes@.take(i as int) =~= bytes@);
    }
}

fn put_int64_field(tag: u32, v: i64, buf: &mut Vec<u8>)
    ensures
        final(buf)@ == old(buf)@ + int64_field_bytes(tag, v),
{
    encode_key(tag, WireType::Varint, buf);
    put_varint(v as u64, buf);
}

fn put_delimited_field(tag: u32, body: &[u8], buf: &mut Vec<u8>)
    ensures
        final(buf)@ == old(buf)@ + delimited_field_bytes(tag, body@),
{
    encode_key(tag, WireType::LengthDelimited, buf);
    put_varint(body.len() as u64, buf);
    append_bytes(buf, body);
}

fn put_true_field(tag: u32, buf: &mut Vec<u8>)
    ensures
        final(buf)@ == old(buf)@ + true_field_bytes(tag),
{
    encode_key(tag, WireType::Varint, buf);
    put_varint(1, buf);
}

fn put_int64_if_set(tag: u32, v: i64, buf: &mut Vec<u8>)
    ensures
        final(buf)@ == old(buf)@ + int64_if_set(tag, v),
{
    if v != 0 {
        put_int64_field(tag, v, buf);
    } else {
        assert(old(buf)@ + Seq::<u8>::empty() =~= old(buf)@);
    }
}

fn put_string_if_set(tag: u32, text: &String, buf: &mut Vec<u8>)
    ensures
        final(buf)@ == old(buf)@ + string_if_set(tag, text@),
{
    proof {
        lemma_encode_utf8_empty(text@);
    }
    let bytes = text.as_str().as_bytes();
    if bytes.len() != 0 {
        put_delimited_field(tag, bytes, buf);
    } else {
        assert(old(buf)@ + Seq::<u8>::empty() =~= old(buf)@);
    }
}

impl AccountOpened {
    /// The protobuf encoding of the account opening.
    pub fn encode_to_vec(&self) -> (r: Vec<u8>)
        ensures
            r@ == encode_account_opened(self@),
    {
        let mut buf = Vec::new();
        put_int64_if_set(1, self.balance, &mut buf);
        put_string_if_set(2, &self.id, &mut buf);
        proof {
            assert(buf@ =~= encode_account_opened(self@));
        }
        buf
    }
}

fn encode_amount_to_vec(amount: i64) -> (r: Vec<u8>)
    ensures
        r@ == encode_amount(amount),
{
    let mut buf = Vec::new();
    put_int64_if_set(1, amount, &mut buf);
    proof {
        assert(buf@ =~= encode_amount(amount));
    }
    buf
}

impl Transaction {
    /// The protobuf encoding of the transaction.
    pub fn encode_to_vec(&self) -> (r: Vec<u8>)
        ensures
            r@ == encode_amount(self.amount),
    {
        encode_amount_to_vec(self.amount)
    }
}

impl TransactionDenied {
    /// The protobuf encoding of the refused transaction.
    pub fn encode_to_vec(&self) -> (r: Vec<u8>)
        ensures
            r@ == encode_amount(self.amount),
    {
        encode_amount_to_vec(self.amount)
    }
}

impl BankEvent {
    /// The protobuf encoding of the event.
    pub fn encode_to_vec(&self) -> (r: Vec<u8>)
        ensures
            r@ == encode_bank_event(self@),
    {
        let mut buf = Vec::new();
        match &self.event {
            None => {},
            Some(Event::Opened(o)) => {
                let body = o.encode_to_vec();
                put_delimited_field(1, body.as_slice(), &mut buf);
            },
            Some(Event::Transaction(t)) => {
                let body = t.encode_to_vec();
                put_delimited_field(2, body.as_slice(), &mut buf);
            },
            Some(Event::Denied(d)) => {
                let body = d.encode_to_vec();
                put_delimited_field(3, body.as_slice(), &mut buf);
            },
        }
        proof {
            assert(buf@ =~= encode_bank_event(self@));
        }
        buf
    }
}

impl BankCommand {
    /// The protobuf encoding of the command.
    pub fn encode_to_vec(&self) -> (r: Vec<u8>)
        ensures
            r@ == encode_bank_command(*self),
    {
        let mut buf = Vec::new();
        match self.command {
            None => {},
            Some(Command::Transaction(a)) => put_int64_field(1, a, &mut buf),
            Some(Command::OpenAccount(a)) => put_int64_field(2, a, &mut buf),
        }
        proof {
            assert(buf@ =~= encode_bank_command(*self));
        }
        buf
    }
}

impl BankState {
    /// The protobuf encoding of the state.
    pub fn encode_to_vec(&self) -> (r: Vec<u8>)
        ensures
            r@ == encode_bank_state(self@),
    {
        let mut buf = Vec::new();
        put_int64_if_set(1, self.balance, &mut buf);
        put_string_if_set(2, &self.id, &mut buf);
        if self.is_open {
            put_true_field(3, &mut buf);
        }
        proof {
            assert(buf@ =~= encode_bank_state(self@));
        }
        buf
    }
}

} // verus!
