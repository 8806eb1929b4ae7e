//! The text of a decode error: the location of the failing field, innermost
//! first, then why the bytes are not a valid encoding.
use crate::decode::{DecodeError, DecodeFailure, FieldPath};
use crate::wire::{DecodeErrorKind, WireType};
use vstd::prelude::*;
use vstd::string::StringExecFns;

verus! {

pub open spec fn digit_text(d: nat) -> Seq<char> {
    if d == 0 {
        "0"@
    } else if d == 1 {
        "1"@
    } else if d == 2 {
        "2"@
    } else if d == 3 {
        "3"@
    } else if d == 4 {
        "4"@
    } else if d == 5 {
        "5"@
    } else if d == 6 {
        "6"@
    } else if d == 7 {
        "7"@
    } else if d == 8 {
        "8"@
    } else {
        "9"@
    }
}

/// The decimal digits of `v`, most significant first.
pub open spec fn decimal(v: nat) -> Seq<char>
    decreases v,
{
    if v < 10 {
        digit_text(v)
    } else {
        decimal(v / 10) + digit_text(v % 10)
    }
}

pub open spec fn wire_type_name(w: WireType) -> Seq<char> {
    match w {
        WireType::Varint => "Varint"@,
        WireType::SixtyFourBit => "SixtyFourBit"@,
        WireType::LengthDelimited => "LengthDelimited"@,
        WireType::StartGroup => "StartGroup"@,
        WireType::EndGroup => "EndGroup"@,
        WireType::ThirtyTwoBit => "ThirtyTwoBit"@,
    }
}

pub open spec fn kind_text(k: DecodeErrorKind) -> Seq<char> {
    match k {
        DecodeErrorKind::InvalidVarint => "invalid varint"@,
        DecodeErrorKind::RecursionLimitReached => "recursion limit reached"@,
        DecodeErrorKind::InvalidWireType(v) => "invalid wire type value: "@ + decimal(v as nat),
        DecodeErrorKind::InvalidKey(v) => "invalid key value: "@ + decimal(v as nat),
        DecodeErrorKind::InvalidTag => "invalid tag value: 0"@,
        DecodeErrorKind::UnexpectedWireType { actual, expected } => "invalid wire type: "@
            + wire_type_name(actual) + " (expected "@ + wire_type_name(expected) + ")"@,
        DecodeErrorKind::BufferUnderflow => "buffer underflow"@,
        DecodeErrorKind::DelimitedLengthExceeded => "delimited length exceeded"@,
        DecodeErrorKind::UnexpectedEndGroupTag => "unexpected end group tag"@,
        DecodeErrorKind::InvalidString => "invalid string value: data is not UTF-8 encoded"@,
    }
}

pub open spec fn path_text(p: FieldPath) -> Seq<char> {
    match p {
        FieldPath::AccountOpenedBalance => "AccountOpened.balance: "@,
        FieldPath::AccountOpenedId => "AccountOpened.id: "@,
        FieldPath::TransactionAmount => "Transaction.amount: "@,
        FieldPath::TransactionDeniedAmount => "TransactionDenied.amount: "@,
        FieldPath::BankEventEvent => "BankEvent.event: "@,
        FieldPath::BankCommandCommand => "BankCommand.command: "@,
        FieldPath::BankStateBalance => "BankState.balance: "@,
        FieldPath::BankStateId => "BankState.id: "@,
        FieldPath::BankStateIsOpen => "BankState.is_open: "@,
    }
}

/// The locations of a stack, in the order they were recorded.
pub open spec fn stack_text(stack: Seq<FieldPath>) -> Seq<char>
    decreases stack.len(),
{
    if stack.len() == 0 {
        Seq::empty()
    } else {
        stack_text(stack.drop_last()) + path_text(stack.last())
    }
}

/// The text that reports a failed decode.
pub open spec fn decode_error_text(e: DecodeFailure) -> Seq<char> {
    "failed to decode Protobuf message: "@ + stack_text(e.stack) + kind_text(e.kind)
}

fn digit_str(d: u64) -> (r: &'static str)
    requires
        d < 10,
    ensures
        r@ == digit_text(d as nat),
{
    if d == 0 {
        "0"
    } else if d == 1 {
        "1"
    } else if d == 2 {
        "2"
    } else if d == 3 {
        "3"
    } else if d == 4 {
        "4"
    } else if d == 5 {
        "5"
    } else if d == 6 {
        "6"
    } else if d == 7 {
        "7"
    } else if d == 8 {
        "8"
    } else {
        "9"
    }
}

/// The decimal digits of `v`.
pub fn decimal_text(v: u64) -> (r: String)
    ensures
        r@ == decimal(v as nat),
    decreases v,
{
    if v < 10 {
        digit_str(v).to_owned()
    } else {
        let mut t = decimal_text(v / 10);
        t.append(digit_str(v % 10));
        t
    }
}

fn wire_type_str(w: WireType) -> (r: &'static str)
    ensures
        r@ == wire_type_name(w),
{
    match w {
        WireType::Varint => "Varint",
        WireType::SixtyFourBit => "SixtyFourBit",
        WireType::LengthDelimited => "LengthDelimited",
        WireType::StartGroup => "StartGroup",
        WireType::EndGroup => "EndGroup",
        WireType::ThirtyTwoBit => "ThirtyTwoBit",
    }
}

fn path_str(p: FieldPath) -> (r: &'static str)
    ensures
        r@ == path_text(p),
{
    match p {
        FieldPath::AccountOpenedBalance => "AccountOpened.balance: ",
        FieldPath::AccountOpenedId => "AccountOpened.id: ",
        FieldPath::TransactionAmount => "Transaction.amount: ",
        FieldPath::TransactionDeniedAmount => "TransactionDenied.amount: ",
        FieldPath::BankEventEvent => "BankEvent.event: ",
        FieldPath::BankCommandCommand => "BankCommand.command: ",
        FieldPath::BankStateBalance => "BankState.balance: ",
        FieldPath::BankStateId => "BankState.id: ",
        FieldPath::BankStateIsOpen => "BankState.is_open: ",
    }
}

/// Appends the text of `k` to `t`.
fn append_kind(t: &mut String, k: DecodeErrorKind)
    ensures
        final(t)@ == old(t)@ + kind_text(k),
{
    match k {
        DecodeErrorKind::InvalidVarint => t.append("invalid varint"),
        DecodeErrorKind::RecursionLimitReached => t.append("recursion limit reached"),
        DecodeErrorKind::InvalidWireType(v) => {
            t.append("invalid wire type value: ");
            let digits = decimal_text(v);
            t.append(digits.as_str());
        },
        DecodeErrorKind::InvalidKey(v) => {
            t.append("invalid key value: ");
            let digits = decimal_text(v);
            t.append(digits.as_str());
        },
        DecodeErrorKind::InvalidTag => t.append("invalid tag value: 0"),
        DecodeErrorKind::UnexpectedWireType { actual, expected } => {
            t.append("invalid wire type: ");
            t.append(wire_type_str(actual));
            t.append(" (expected ");
            t.append(wire_type_str(expected));
            t.append(")");
        },
        DecodeErrorKind::BufferUnderflow => t.append("buffer underflow"),
        DecodeErrorKind::DelimitedLengthExceeded => t.append("delimited length exceeded"),
        DecodeErrorKind::UnexpectedEndGroupTag => t.append("unexpected end group tag"),
        DecodeErrorKind::InvalidString => t.append(
            "invalid string value: data is not UTF-8 encoded",
        ),
    }
}

impl DecodeError {
    /// The text that reports this error.
    pub fn to_message(&self) -> (r: String)
        ensures
            r@ == decode_error_text(self@),
    {
        let mut t = "failed to decode Protobuf message: ".to_owned();
        let mut i: usize = 0;
        while i < self.stack.len()
            invariant
                i <= self.stack@.len(),
                t@ == "failed to decode Protobuf message: "@ + stack_text(self.stack@.take(i as int)),
            decreases self.stack@.len() - i,
        {
            t.append(path_str(self.stack[i]));
            proof {
                assert(self.stack@.take(i + 1).drop_last() =~= self.stack@.take(i as int));
            }
            i = i + 1;
        }
        proof {
            assert(self.stack@.take(i as int) =~= self.stack@);
        }
        append_kind(&mut t, self.kind);
        t
    }
}

} // verus!
