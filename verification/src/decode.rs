//! Decoding of the account's messages from the protobuf wire format: the
//! field loop shared by all messages, nested messages, and the error that a
//! failed decode reports.
use crate::proto::bank_command::Command;
use crate::proto::bank_event::{Event, EventView};
use crate::proto::{
    AccountOpened, AccountOpenedView, BankCommand, BankEvent, BankEventView, BankState,
    BankStateView, Transaction, TransactionDenied,
};
use crate::wire::{
    decode_key, key, lemma_key_bound, lemma_skip_bound, lemma_varint_bound, read_string_field,
    read_varint_field, skip, skip_field, string_field, take_varint, varint, varint_field,
    DecodeErrorKind, WireType,
};
use vstd::prelude::*;

verus! {

/// The field of a message in which decoding failed.
#[derive(Clone, Copy, Debug, PartialEq, Eq, Structural)]
pub enum FieldPath {
    AccountOpenedBalance,
    AccountOpenedId,
    TransactionAmount,
    TransactionDeniedAmount,
    BankEventEvent,
    BankCommandCommand,
    BankStateBalance,
    BankStateId,
    BankStateIsOpen,
}

/// Why a decode failed, and the fields it was in, innermost first.
#[derive(Clone, Debug, PartialEq, Eq)]
pub struct DecodeError {
    pub kind: DecodeErrorKind,
    pub stack: Vec<FieldPath>,
}

pub struct DecodeFailure {
    pub kind: DecodeErrorKind,
    pub stack: Seq<FieldPath>,
}

impl View for DecodeError {
    type V = DecodeFailure;

    open spec fn view(&self) -> DecodeFailure {
        DecodeFailure { kind: self.kind, stack: self.stack@ }
    }
}

pub open spec fn failure(k: DecodeErrorKind) -> DecodeFailure {
    DecodeFailure { kind: k, stack: Seq::empty() }
}

pub open spec fn failure_at(k: DecodeErrorKind, p: FieldPath) -> DecodeFailure {
    DecodeFailure { kind: k, stack: seq![p] }
}

pub open spec fn pushed(e: DecodeFailure, p: FieldPath) -> DecodeFailure {
    DecodeFailure { kind: e.kind, stack: e.stack.push(p) }
}

impl DecodeError {
    pub fn new(kind: DecodeErrorKind) -> (r: DecodeError)
        ensures
            r@ == failure(kind),
    {
        DecodeError { kind, stack: Vec::new() }
    }

    pub fn at(kind: DecodeErrorKind, p: FieldPath) -> (r: DecodeError)
        ensures
            r@ == failure_at(kind, p),
    {
        let mut stack = Vec::new();
        stack.push(p);
        proof {
            assert(stack@ =~= seq![p]);
        }
        DecodeError { kind, stack }
    }

    pub fn push(&mut self, p: FieldPath)
        ensures
            final(self)@ == pushed(old(self)@, p),
    {
        self.stack.push(p);
    }
}

/// What merging one field into a message does: from the message, the field
/// number, the wire type, the bytes after the key and the nesting still
/// allowed, the new message and the number of bytes the value takes.
pub type FieldStep<M> = spec_fn(M, u32, WireType, Seq<u8>, nat) -> Result<(M, nat), DecodeFailure>;

/// A step never consumes more than the bytes there are.
pub open spec fn consumes_within<M>(step: FieldStep<M>) -> bool {
    forall|m: M, t: u32, w: WireType, s: Seq<u8>, d: nat| #[trigger]
        step(m, t, w, s, d) is Ok ==> step(m, t, w, s, d)->Ok_0.1 <= s.len()
}

/// Merges fields into `m` while more than `limit` bytes are left, and gives
/// the message with the bytes that are left.
pub open spec fn fields_until<M>(step: FieldStep<M>, m: M, s: Seq<u8>, limit: nat, depth: nat) -> Result<
    (M, Seq<u8>),
    DecodeFailure,
>
    decreases s.len(),
{
    if s.len() <= limit {
        Ok((m, s))
    } else {
        match key(s) {
            Err(k) => Err(failure(k)),
            Ok((t, w, n)) => match step(m, t, w, s.skip(n as int), depth) {
                Err(e) => Err(e),
                Ok((m2, c)) => if n == 0 || n + c > s.len() {
                    Err(failure(DecodeErrorKind::BufferUnderflow))
                } else {
                    fields_until(step, m2, s.skip((n + c) as int), limit, depth)
                },
            },
        }
    }
}

/// Merges a length-delimited nested message into `m`: the number of bytes it
/// takes, length prefix included.
pub open spec fn nested<M>(step: FieldStep<M>, m: M, w: WireType, s: Seq<u8>, depth: nat) -> Result<
    (M, nat),
    DecodeFailure,
> {
    if w != WireType::LengthDelimited {
        Err(
            failure(
                DecodeErrorKind::UnexpectedWireType {
                    actual: w,
                    expected: WireType::LengthDelimited,
                },
            ),
        )
    } else if depth == 0 {
        Err(failure(DecodeErrorKind::RecursionLimitReached))
    } else {
        match varint(s) {
            None => Err(failure(DecodeErrorKind::InvalidVarint)),
            Some((l, n)) => if l + n > s.len() {
                Err(failure(DecodeErrorKind::BufferUnderflow))
            } else {
                let limit = (s.len() - n - l) as nat;
                match fields_until(step, m, s.skip(n as int), limit, (depth - 1) as nat) {
                    Err(e) => Err(e),
                    Ok((m2, rest)) => if rest.len() != limit {
                        Err(failure(DecodeErrorKind::DelimitedLengthExceeded))
                    } else {
                        Ok((m2, n + l))
                    },
                }
            },
        }
    }
}

/// Decodes a whole message, starting from `init`, as a top-level message.
pub open spec fn decoded<M>(step: FieldStep<M>, init: M, s: Seq<u8>) -> Result<M, DecodeFailure> {
    match fields_until(step, init, s, 0, 100) {
        Ok((m, _)) => Ok(m),
        Err(e) => Err(e),
    }
}

/// Skipping an unknown field leaves the message as it was.
pub open spec fn skipped<M>(m: M, w: WireType, tag: u32, s: Seq<u8>, depth: nat) -> Result<
    (M, nat),
    DecodeFailure,
> {
    match skip_field(w, tag, s, depth) {
        Err(k) => Err(failure(k)),
        Ok(n) => Ok((m, n)),
    }
}

pub open spec fn outcome<T: View>(
    r: Result<(T, &[u8]), DecodeError>,
    s: Seq<u8>,
    expected: Result<(T::V, nat), DecodeFailure>,
) -> bool {
    match expected {
        Ok((v, n)) => r matches Ok((x, rest)) && x@ == v && rest@ == s.skip(n as int),
        Err(e) => r matches Err(err) && err@ == e,
    }
}

pub open spec fn rest_outcome<T: View>(
    r: Result<(T, &[u8]), DecodeError>,
    expected: Result<(T::V, Seq<u8>), DecodeFailure>,
) -> bool {
    match expected {
        Ok((v, rest)) => r matches Ok((x, rr)) && x@ == v && rr@ == rest,
        Err(e) => r matches Err(err) && err@ == e,
    }
}

pub open spec fn decode_outcome<T: View>(
    r: Result<T, DecodeError>,
    expected: Result<T::V, DecodeFailure>,
) -> bool {
    match expected {
        Ok(v) => r matches Ok(x) && x@ == v,
        Err(e) => r matches Err(err) && err@ == e,
    }
}

/// The bytes that `fields_until` leaves are a suffix of its input.
pub proof fn lemma_fields_until_suffix<M>(
    step: FieldStep<M>,
    m: M,
    s: Seq<u8>,
    limit: nat,
    depth: nat,
)
    requires
        fields_until(step, m, s, limit, depth) is Ok,
    ensures
        ({
            let rest = fields_until(step, m, s, limit, depth)->Ok_0.1;
            &&& rest.len() <= s.len()
            &&& rest =~= s.skip(s.len() - rest.len())
            &&& (s.len() > limit ==> rest.len() <= limit)
            &&& (s.len() <= limit ==> rest == s)
        }),
    decreases s.len(),
{
    if s.len() > limit {
        let (t, w, n) = key(s)->Ok_0;
        let (m2, c) = step(m, t, w, s.skip(n as int), depth)->Ok_0;
        let s2 = s.skip((n + c) as int);
        lemma_fields_until_suffix(step, m2, s2, limit, depth);
        let rest = fields_until(step, m2, s2, limit, depth)->Ok_0.1;
        assert(rest =~= s.skip(s.len() - rest.len()));
    }
}

/// A message whose fields can be merged one at a time.
pub trait MergeFields: Sized + View {
    /// What merging one field does to the message's view.
    spec fn step() -> FieldStep<Self::V>;

    proof fn lemma_step_bounded()
        ensures
            consumes_within(Self::step()),
    ;

    /// Merges the field with number `tag`, whose value starts at `s`.
    fn merge_field<'a>(self, tag: u32, w: WireType, s: &'a [u8], depth: u32) -> (r: Result<
        (Self, &'a [u8]),
        DecodeError,
    >)
        ensures
            outcome(r, s@, (Self::step())(self@, tag, w, s@, depth as nat)),
    ;
}

/// Merges fields into `m` while more than `limit` bytes are left.
pub fn merge_fields<'a, M: MergeFields>(init: M, bytes: &'a [u8], limit: usize, depth: u32) -> (r:
    Result<(M, &'a [u8]), DecodeError>)
    ensures
        rest_outcome(r, fields_until(M::step(), init@, bytes@, limit as nat, depth as nat)),
{
    let ghost goal = fields_until(M::step(), init@, bytes@, limit as nat, depth as nat);
    let mut m = init;
    let mut s = bytes;
    proof {
        M::lemma_step_bounded();
    }
    while s.len() > limit
        invariant
            goal == fields_until(M::step(), m@, s@, limit as nat, depth as nat),
            goal == fields_until(M::step(), init@, bytes@, limit as nat, depth as nat),
            consumes_within(M::step()),
        decreases s@.len(),
    {
        let (tag, w, rest) = match decode_key(s) {
            Ok(x) => x,
            Err(k) => return Err(DecodeError::new(k)),
        };
        proof {
            lemma_key_bound(s@);
        }
        let ghost n = key(s@)->Ok_0.2;
        let ghost before = m@;
        let (m2, after) = match m.merge_field(tag, w, rest, depth) {
            Ok(x) => x,
            Err(e) => return Err(e),
        };
        proof {
            let c = (M::step())(before, tag, w, rest@, depth as nat)->Ok_0.1;
            assert(after@ =~= s@.skip((n + c) as int));
        }
        m = m2;
        s = after;
    }
    Ok((m, s))
}

/// Merges a length-delimited nested message into `m`.
pub fn merge_nested<'a, M: MergeFields>(m: M, w: WireType, s: &'a [u8], depth: u32) -> (r: Result<
    (M, &'a [u8]),
    DecodeError,
>)
    ensures
        outcome(r, s@, nested(M::step(), m@, w, s@, depth as nat)),
{
    if w != WireType::LengthDelimited {
        return Err(
            DecodeError::new(
                DecodeErrorKind::UnexpectedWireType {
                    actual: w,
                    expected: WireType::LengthDelimited,
                },
            ),
        );
    }
    if depth == 0 {
        return Err(DecodeError::new(DecodeErrorKind::RecursionLimitReached));
    }
    let (l, rest) = match take_varint(s) {
        Some(x) => x,
        None => return Err(DecodeError::new(DecodeErrorKind::InvalidVarint)),
    };
    proof {
        lemma_varint_bound(s@);
    }
    if l > rest.len() as u64 {
        return Err(DecodeError::new(DecodeErrorKind::BufferUnderflow));
    }
    let limit = rest.len() - l as usize;
    let ghost start = m@;
    let (m2, after) = match merge_fields(m, rest, limit, depth - 1) {
        Ok(x) => x,
        Err(e) => return Err(e),
    };
    proof {
        lemma_fields_until_suffix(M::step(), start, rest@, limit as nat, (depth - 1) as nat);
    }
    if after.len() != limit {
        return Err(DecodeError::new(DecodeErrorKind::DelimitedLengthExceeded));
    }
    proof {
        let n = varint(s@).unwrap().1;
        assert(after@ =~= s@.skip((n + l) as int));
    }
    Ok((m2, after))
}

/// Decodes a whole top-level message, starting from `init`.
pub fn decode_message<M: MergeFields>(init: M, bytes: &[u8]) -> (r: Result<M, DecodeError>)
    ensures
        decode_outcome(r, decoded(M::step(), init@, bytes@)),
{
    match merge_fields(init, bytes, 0, 100) {
        Ok((m, _)) => Ok(m),
        Err(e) => Err(e),
    }
}

// ----- AccountOpened -----
pub open spec fn account_opened_field(
    m: AccountOpenedView,
    tag: u32,
    w: WireType,
    s: Seq<u8>,
    depth: nat,
) -> Result<(AccountOpenedView, nat), DecodeFailure> {
    if tag == 1 {
        match varint_field(w, s) {
            Err(k) => Err(failure_at(k, FieldPath::AccountOpenedBalance)),
            Ok((v, n)) => Ok((AccountOpenedView { balance: v as i64, ..m }, n)),
        }
    } else if tag == 2 {
        match string_field(w, s) {
            Err(k) => Err(failure_at(k, FieldPath::AccountOpenedId)),
            Ok((text, n)) => Ok((AccountOpenedView { id: text, ..m }, n)),
        }
    } else {
        skipped(m, w, tag, s, depth)
    }
}

impl MergeFields for AccountOpened {
    open spec fn step() -> FieldStep<AccountOpenedView> {
        |m: AccountOpenedView, t: u32, w: WireType, s: Seq<u8>, d: nat|
            account_opened_field(m, t, w, s, d)
    }

    proof fn lemma_step_bounded() {
        assert forall|m: AccountOpenedView, t: u32, w: WireType, s: Seq<u8>, d: nat| #[trigger]
            (Self::step())(m, t, w, s, d) is Ok implies (Self::step())(
            m,
            t,
            w,
            s,
            d,
        )->Ok_0.1 <= s.len() by {
            lemma_field_bounds(w, t, s, d);
        }
    }

    fn merge_field<'a>(self, tag: u32, w: WireType, s: &'a [u8], depth: u32) -> (r: Result<
        (AccountOpened, &'a [u8]),
        DecodeError,
    >) {
        if tag == 1 {
            match read_varint_field(w, s) {
                Ok((v, rest)) => Ok((AccountOpened { balance: v as i64, id: self.id }, rest)),
                Err(k) => Err(DecodeError::at(k, FieldPath::AccountOpenedBalance)),
            }
        } else if tag == 2 {
            match read_string_field(w, s) {
                Ok((text, rest)) => Ok((AccountOpened { balance: self.balance, id: text }, rest)),
                Err(k) => Err(DecodeError::at(k, FieldPath::AccountOpenedId)),
            }
        } else {
            match skip(w, tag, s, depth) {
                Ok(rest) => Ok((self, rest)),
                Err(k) => Err(DecodeError::new(k)),
            }
        }
    }
}

/// The value readers and the skipping of a field never consume more than the
/// bytes there are.
pub proof fn lemma_field_bounds(w: WireType, tag: u32, s: Seq<u8>, d: nat)
    ensures
        varint_field(w, s) is Ok ==> varint_field(w, s)->Ok_0.1 <= s.len(),
        string_field(w, s) is Ok ==> string_field(w, s)->Ok_0.1 <= s.len(),
        skip_field(w, tag, s, d) is Ok ==> skip_field(w, tag, s, d)->Ok_0 <= s.len(),
{
    if varint(s) is Some {
        lemma_varint_bound(s);
    }
    if skip_field(w, tag, s, d) is Ok {
        lemma_skip_bound(w, tag, s, d);
    }
}

// ----- Transaction and TransactionDenied -----
pub open spec fn amount_field(
    path: FieldPath,
    m: i64,
    tag: u32,
    w: WireType,
    s: Seq<u8>,
    depth: nat,
) -> Result<(i64, nat), DecodeFailure> {
    if tag == 1 {
        match varint_field(w, s) {
            Err(k) => Err(failure_at(k, path)),
            Ok((v, n)) => Ok((v as i64, n)),
        }
    } else {
        skipped(m, w, tag, s, depth)
    }
}

fn merge_amount_field<'a>(path: FieldPath, m: i64, tag: u32, w: WireType, s: &'a [u8], depth: u32) -> (r:
    Result<(i64, &'a [u8]), DecodeError>)
    ensures
        outcome(r, s@, amount_field(path, m, tag, w, s@, depth as nat)),
{
    if tag == 1 {
        match read_varint_field(w, s) {
            Ok((v, rest)) => Ok((v as i64, rest)),
            Err(k) => Err(DecodeError::at(k, path)),
        }
    } else {
        match skip(w, tag, s, depth) {
            Ok(rest) => Ok((m, rest)),
            Err(k) => Err(DecodeError::new(k)),
        }
    }
}

impl MergeFields for Transaction {
    open spec fn step() -> FieldStep<Transaction> {
        |m: Transaction, t: u32, w: WireType, s: Seq<u8>, d: nat|
            match amount_field(FieldPath::TransactionAmount, m.amount, t, w, s, d) {
                Ok((a, n)) => Ok((Transaction { amount: a }, n)),
                Err(e) => Err(e),
            }
    }

    proof fn lemma_step_bounded() {
        assert forall|m: Transaction, t: u32, w: WireType, s: Seq<u8>, d: nat| #[trigger]
            (Self::step())(m, t, w, s, d) is Ok implies (Self::step())(
            m,
            t,
            w,
            s,
            d,
        )->Ok_0.1 <= s.len() by {
            lemma_field_bounds(w, t, s, d);
        }
    }

    fn merge_field<'a>(self, tag: u32, w: WireType, s: &'a [u8], depth: u32) -> (r: Result<
        (Transaction, &'a [u8]),
        DecodeError,
    >) {
        match merge_amount_field(FieldPath::TransactionAmount, self.amount, tag, w, s, depth) {
            Ok((a, rest)) => Ok((Transaction { amount: a }, rest)),
            Err(e) => Err(e),
        }
    }
}

impl MergeFields for TransactionDenied {
    open spec fn step() -> FieldStep<TransactionDenied> {
        |m: TransactionDenied, t: u32, w: WireType, s: Seq<u8>, d: nat|
            match amount_field(FieldPath::TransactionDeniedAmount, m.amount, t, w, s, d) {
                Ok((a, n)) => Ok((TransactionDenied { amount: a }, n)),
                Err(e) => Err(e),
            }
    }

    proof fn lemma_step_bounded() {
        assert forall|m: TransactionDenied, t: u32, w: WireType, s: Seq<u8>, d: nat| #[trigger]
            (Self::step())(m, t, w, s, d) is Ok implies (Self::step())(
            m,
            t,
            w,
            s,
            d,
        )->Ok_0.1 <= s.len() by {
            lemma_field_bounds(w, t, s, d);
        }
    }

    fn merge_field<'a>(self, tag: u32, w: WireType, s: &'a [u8], depth: u32) -> (r: Result<
        (TransactionDenied, &'a [u8]),
        DecodeError,
    >) {
        match merge_amount_field(FieldPath::TransactionDeniedAmount, self.amount, tag, w, s, depth) {
            Ok((a, rest)) => Ok((TransactionDenied { amount: a }, rest)),
            Err(e) => Err(e),
        }
    }
}

// ----- BankEvent -----
pub open spec fn bank_event_field(m: BankEventView, tag: u32, w: WireType, s: Seq<u8>, depth: nat) -> Result<
    (BankEventView, nat),
    DecodeFailure,
> {
    if tag == 1 {
        let cur = match m.event {
            Some(EventView::Opened(o)) => o,
            _ => AccountOpenedView::empty(),
        };
        match nested(AccountOpened::step(), cur, w, s, depth) {
            Err(e) => Err(pushed(e, FieldPath::BankEventEvent)),
            Ok((o, n)) => Ok((BankEventView { event: Some(EventView::Opened(o)) }, n)),
        }
    } else if tag == 2 {
        let cur = match m.event {
            Some(EventView::Transaction(t)) => t,
            _ => Transaction { amount: 0 },
        };
        match nested(Transaction::step(), cur, w, s, depth) {
            Err(e) => Err(pushed(e, FieldPath::BankEventEvent)),
            Ok((t, n)) => Ok((BankEventView { event: Some(EventView::Transaction(t)) }, n)),
        }
    } else if tag == 3 {
        let cur = match m.event {
            Some(EventView::Denied(d)) => d,
            _ => TransactionDenied { amount: 0 },
        };
        match nested(TransactionDenied::step(), cur, w, s, depth) {
            Err(e) => Err(pushed(e, FieldPath::BankEventEvent)),
            Ok((d, n)) => Ok((BankEventView { event: Some(EventView::Denied(d)) }, n)),
        }
    } else {
        skipped(m, w, tag, s, depth)
    }
}

impl MergeFields for BankEvent {
    open spec fn step() -> FieldStep<BankEventView> {
        |m: BankEventView, t: u32, w: WireType, s: Seq<u8>, d: nat| bank_event_field(m, t, w, s, d)
    }

    proof fn lemma_step_bounded() {
        assert forall|m: BankEventView, t: u32, w: WireType, s: Seq<u8>, d: nat| #[trigger]
            (Self::step())(m, t, w, s, d) is Ok implies (Self::step())(
            m,
            t,
            w,
            s,
            d,
        )->Ok_0.1 <= s.len() by {
            lemma_field_bounds(w, t, s, d);
        }
    }

    fn merge_field<'a>(self, tag: u32, w: WireType, s: &'a [u8], depth: u32) -> (r: Result<
        (BankEvent, &'a [u8]),
        DecodeError,
    >) {
        if tag == 1 {
            let cur = match self.event {
                Some(Event::Opened(o)) => o,
                _ => AccountOpened::empty(),
            };
            match merge_nested(cur, w, s, depth) {
                Ok((o, rest)) => Ok((BankEvent { event: Some(Event::Opened(o)) }, rest)),
                Err(e) => {
                    let mut e = e;
                    e.push(FieldPath::BankEventEvent);
                    Err(e)
                },
            }
        } else if tag == 2 {
            let cur = match self.event {
                Some(Event::Transaction(t)) => t,
                _ => Transaction { amount: 0 },
            };
            match merge_nested(cur, w, s, depth) {
                Ok((t, rest)) => Ok((BankEvent { event: Some(Event::Transaction(t)) }, rest)),
                Err(e) => {
                    let mut e = e;
                    e.push(FieldPath::BankEventEvent);
                    Err(e)
                },
            }
        } else if tag == 3 {
            let cur = match self.event {
                Some(Event::Denied(d)) => d,
                _ => TransactionDenied { amount: 0 },
            };
            match merge_nested(cur, w, s, depth) {
                Ok((d, rest)) => Ok((BankEvent { event: Some(Event::Denied(d)) }, rest)),
                Err(e) => {
                    let mut e = e;
                    e.push(FieldPath::BankEventEvent);
                    Err(e)
                },
            }
        } else {
            match skip(w, tag, s, depth) {
                Ok(rest) => Ok((self, rest)),
                Err(k) => Err(DecodeError::new(k)),
            }
        }
    }
}

// ----- BankCommand -----
pub open spec fn bank_command_field(m: BankCommand, tag: u32, w: WireType, s: Seq<u8>, depth: nat) -> Result<
    (BankCommand, nat),
    DecodeFailure,
> {
    if tag == 1 || tag == 2 {
        match varint_field(w, s) {
            Err(k) => Err(failure_at(k, FieldPath::BankCommandCommand)),
            Ok((v, n)) => Ok(
                (
                    BankCommand {
                        command: Some(
                            if tag == 1 {
                                Command::Transaction(v as i64)
                            } else {
                                Command::OpenAccount(v as i64)
                            },
                        ),
                    },
                    n,
                ),
            ),
        }
    } else {
        skipped(m, w, tag, s, depth)
    }
}

impl MergeFields for BankCommand {
    open spec fn step() -> FieldStep<BankCommand> {
        |m: BankCommand, t: u32, w: WireType, s: Seq<u8>, d: nat| bank_command_field(m, t, w, s, d)
    }

    proof fn lemma_step_bounded() {
        assert forall|m: BankCommand, t: u32, w: WireType, s: Seq<u8>, d: nat| #[trigger]
            (Self::step())(m, t, w, s, d) is Ok implies (Self::step())(
            m,
            t,
            w,
            s,
            d,
        )->Ok_0.1 <= s.len() by {
            lemma_field_bounds(w, t, s, d);
        }
    }

    fn merge_field<'a>(self, tag: u32, w: WireType, s: &'a [u8], depth: u32) -> (r: Result<
        (BankCommand, &'a [u8]),
        DecodeError,
    >) {
        if tag == 1 || tag == 2 {
            match read_varint_field(w, s) {
                Ok((v, rest)) => {
                    let c = if tag == 1 {
                        Command::Transaction(v as i64)
                    } else {
                        Command::OpenAccount(v as i64)
                    };
                    Ok((BankCommand { command: Some(c) }, rest))
                },
                Err(k) => Err(DecodeError::at(k, FieldPath::BankCommandCommand)),
            }
        } else {
            match skip(w, tag, s, depth) {
                Ok(rest) => Ok((self, rest)),
                Err(k) => Err(DecodeError::new(k)),
            }
        }
    }
}

// ----- BankState -----
pub open spec fn bank_state_field(m: BankStateView, tag: u32, w: WireType, s: Seq<u8>, depth: nat) -> Result<
    (BankStateView, nat),
    DecodeFailure,
> {
    if tag == 1 {
        match varint_field(w, s) {
            Err(k) => Err(failure_at(k, FieldPath::BankStateBalance)),
            Ok((v, n)) => Ok((BankStateView { balance: v as i64, ..m }, n)),
        }
    } else if tag == 2 {
        match string_field(w, s) {
            Err(k) => Err(failure_at(k, FieldPath::BankStateId)),
            Ok((text, n)) => Ok((BankStateView { id: text, ..m }, n)),
        }
    } else if tag == 3 {
        match varint_field(w, s) {
            Err(k) => Err(failure_at(k, FieldPath::BankStateIsOpen)),
            Ok((v, n)) => Ok((BankStateView { is_open: v != 0, ..m }, n)),
        }
    } else {
        skipped(m, w, tag, s, depth)
    }
}

impl MergeFields for BankState {
    open spec fn step() -> FieldStep<BankStateView> {
        |m: BankStateView, t: u32, w: WireType, s: Seq<u8>, d: nat| bank_state_field(m, t, w, s, d)
    }

    proof fn lemma_step_bounded() {
        assert forall|m: BankStateView, t: u32, w: WireType, s: Seq<u8>, d: nat| #[trigger]
            (Self::step())(m, t, w, s, d) is Ok implies (Self::step())(
            m,
            t,
            w,
            s,
            d,
        )->Ok_0.1 <= s.len() by {
            lemma_field_bounds(w, t, s, d);
        }
    }

    fn merge_field<'a>(self, tag: u32, w: WireType, s: &'a [u8], depth: u32) -> (r: Result<
        (BankState, &'a [u8]),
        DecodeError,
    >) {
        if tag == 1 {
            match read_varint_field(w, s) {
                Ok((v, rest)) => Ok(
                    (BankState { balance: v as i64, id: self.id, is_open: self.is_open }, rest),
                ),
                Err(k) => Err(DecodeError::at(k, FieldPath::BankStateBalance)),
            }
        } else if tag == 2 {
            match read_string_field(w, s) {
                Ok((text, rest)) => Ok(
                    (BankState { balance: self.balance, id: text, is_open: self.is_open }, rest),
                ),
                Err(k) => Err(DecodeError::at(k, FieldPath::BankStateId)),
            }
        } else if tag == 3 {
            match read_varint_field(w, s) {
                Ok((v, rest)) => Ok(
                    (BankState { balance: self.balance, id: self.id, is_open: v != 0 }, rest),
                ),
                Err(k) => Err(DecodeError::at(k, FieldPath::BankStateIsOpen)),
            }
        } else {
            match skip(w, tag, s, depth) {
                Ok(rest) => Ok((self, rest)),
                Err(k) => Err(DecodeError::new(k)),
            }
        }
    }
}

// ----- whole messages -----
/// What decoding `s` as a bank event gives.
#[verifier::opaque]
pub open spec fn decode_bank_event(s: Seq<u8>) -> Result<BankEventView, DecodeFailure> {
    decoded(BankEvent::step(), BankEventView { event: None }, s)
}

/// What decoding `s` as a bank command gives.
#[verifier::opaque]
pub open spec fn decode_bank_command(s: Seq<u8>) -> Result<BankCommand, DecodeFailure> {
    decoded(BankCommand::step(), BankCommand { command: None }, s)
}

/// What decoding `s` as a bank state gives.
#[verifier::opaque]
pub open spec fn decode_bank_state(s: Seq<u8>) -> Result<BankStateView, DecodeFailure> {
    decoded(BankState::step(), BankStateView::empty(), s)
}

impl BankEvent {
    /// Decodes a bank event from the protobuf wire format.
    pub fn decode(bytes: &[u8]) -> (r: Result<BankEvent, DecodeError>)
        ensures
            decode_outcome(r, decode_bank_event(bytes@)),
    {
        proof {
            reveal(decode_bank_event);
        }
        decode_message(BankEvent { event: None }, bytes)
    }
}

impl BankCommand {
    /// Decodes a bank command from the protobuf wire format.
    pub fn decode(bytes: &[u8]) -> (r: Result<BankCommand, DecodeError>)
        ensures
            decode_outcome(r, decode_bank_command(bytes@)),
    {
        proof {
            reveal(decode_bank_command);
        }
        decode_message(BankCommand { command: None }, bytes)
    }
}

impl BankState {
    /// Decodes a bank state from the protobuf wire format.
    pub fn decode(bytes: &[u8]) -> (r: Result<BankState, DecodeError>)
        ensures
            decode_outcome(r, decode_bank_state(bytes@)),
    {
        proof {
            reveal(decode_bank_state);
        }
        let init = BankState { balance: 0, id: String::new(), is_open: false };
        decode_message(init, bytes)
    }
}

} // verus!
