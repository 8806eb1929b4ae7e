//! What a decode gives back of an encode: every event, command and state
//! that is encoded decodes to itself.
use crate::decode::{
    decode_bank_command, decode_bank_event, decode_bank_state, fields_until, nested, FieldStep,
    MergeFields,
};
use crate::encode::{
    delimited_field_bytes, encode_account_opened, encode_amount, encode_bank_command,
    encode_bank_event, encode_bank_state, int64_field_bytes, int64_if_set, lemma_encode_utf8_empty,
    string_field_bytes, string_if_set, true_field_bytes,
};
use crate::proto::bank_command::Command;
use crate::proto::bank_event::EventView;
use crate::proto::{
    AccountOpened, AccountOpenedView, BankCommand, BankEvent, BankEventView, BankState,
    BankStateView, Transaction, TransactionDenied,
};
use crate::wire::{
    key, key_bytes, lemma_varint_roundtrip, skip_field, string_field, varint, varint_bytes, varint_field,
    wire_type_code, wire_type_of, WireType,
};
use vstd::prelude::*;
use vstd::utf8::*;

verus! {

/// Text whose UTF-8 bytes fit in a `String`, which holds at most
/// `isize::MAX` bytes.
pub open spec fn fits_string(text: Seq<char>) -> bool {
    encode_utf8(text).len() < 0x8000_0000_0000_0000
}

/// An event all of whose text fits in a `String`.
pub open spec fn event_fits(e: BankEventView) -> bool {
    match e.event {
        Some(EventView::Opened(o)) => fits_string(o.id),
        _ => true,
    }
}

proof fn lemma_key_roundtrip(tag: u32, w: WireType, rest: Seq<u8>)
    requires
        1 <= tag < 0x2000_0000,
    ensures
        key(key_bytes(tag, w) + rest) == Ok::<(u32, WireType, nat), crate::wire::DecodeErrorKind>(
            (tag, w, key_bytes(tag, w).len()),
        ),
        key_bytes(tag, w).len() >= 1,
{
    let k = tag as nat * 8 + wire_type_code(w);
    assert(k < 0x1_0000_0000);
    lemma_varint_roundtrip(k as u64, rest);
    assert(k % 8 == wire_type_code(w));
    assert(k / 8 == tag);
    assert(wire_type_of(k % 8) == Some(w));
}

proof fn lemma_i64_roundtrip(a: i64)
    ensures
        ((a as u64) as nat) as i64 == a,
{
    assert((a as u64) as i64 == a) by (bit_vector);
}

/// One field that `step` reads back in full moves the field loop past it.
proof fn lemma_fields_until_field<M>(
    step: FieldStep<M>,
    m: M,
    tag: u32,
    w: WireType,
    value: Seq<u8>,
    after: Seq<u8>,
    limit: nat,
    d: nat,
    m2: M,
)
    requires
        1 <= tag < 0x2000_0000,
        after.len() >= limit,
        step(m, tag, w, value + after, d) == Ok::<(M, nat), crate::decode::DecodeFailure>(
            (m2, value.len()),
        ),
    ensures
        fields_until(step, m, key_bytes(tag, w) + value + after, limit, d) == fields_until(
            step,
            m2,
            after,
            limit,
            d,
        ),
{
    let s = key_bytes(tag, w) + value + after;
    assert(s =~= key_bytes(tag, w) + (value + after));
    lemma_key_roundtrip(tag, w, value + after);
    let kl = key_bytes(tag, w).len();
    assert(s.skip(kl as int) =~= value + after);
    assert(s.skip((kl + value.len()) as int) =~= after);
}

/// With no more bytes than the limit, the field loop stops at once.
proof fn lemma_fields_until_done<M>(step: FieldStep<M>, m: M, after: Seq<u8>, d: nat)
    ensures
        fields_until(step, m, after, after.len(), d) == Ok::<
            (M, Seq<u8>),
            crate::decode::DecodeFailure,
        >((m, after)),
{
}

/// A nested message whose body the field loop reads back in full.
proof fn lemma_nested_roundtrip<M>(
    step: FieldStep<M>,
    m: M,
    body: Seq<u8>,
    after: Seq<u8>,
    d: nat,
    m2: M,
)
    requires
        d >= 1,
        body.len() < 0x1_0000_0000_0000_0000,
        fields_until(step, m, body + after, after.len(), (d - 1) as nat) == Ok::<
            (M, Seq<u8>),
            crate::decode::DecodeFailure,
        >((m2, after)),
    ensures
        nested(step, m, WireType::LengthDelimited, varint_bytes(body.len()) + body + after, d)
            == Ok::<(M, nat), crate::decode::DecodeFailure>(
            (m2, varint_bytes(body.len()).len() + body.len()),
        ),
{
    let s = varint_bytes(body.len()) + body + after;
    assert(s =~= varint_bytes(body.len()) + (body + after));
    lemma_varint_roundtrip(body.len() as u64, body + after);
    let n = varint_bytes(body.len()).len();
    assert(s.skip(n as int) =~= body + after);
}

proof fn lemma_int64_value(a: i64, after: Seq<u8>)
    ensures
        varint_field(WireType::Varint, varint_bytes((a as u64) as nat) + after) == Ok::<
            (nat, nat),
            crate::wire::DecodeErrorKind,
        >(((a as u64) as nat, varint_bytes((a as u64) as nat).len())),
        ((a as u64) as nat) as i64 == a,
{
    lemma_varint_roundtrip(a as u64, after);
    lemma_i64_roundtrip(a);
}

proof fn lemma_string_value(text: Seq<char>, after: Seq<u8>)
    requires
        fits_string(text),
    ensures
        string_field(
            WireType::LengthDelimited,
            varint_bytes(encode_utf8(text).len()) + encode_utf8(text) + after,
        ) == Ok::<(Seq<char>, nat), crate::wire::DecodeErrorKind>(
            (text, varint_bytes(encode_utf8(text).len()).len() + encode_utf8(text).len()),
        ),
{
    let b = encode_utf8(text);
    let s = varint_bytes(b.len()) + b + after;
    assert(s =~= varint_bytes(b.len()) + (b + after));
    lemma_varint_roundtrip(b.len() as u64, b + after);
    let n = varint_bytes(b.len()).len();
    assert(s.subrange(n as int, (n + b.len()) as int) =~= b);
    encode_utf8_valid_utf8(text);
    encode_utf8_decode_utf8(text);
}

proof fn lemma_opened_balance_step(m: AccountOpenedView, a: i64, rest: Seq<u8>, d: nat)
    ensures
        (AccountOpened::step())(m, 1, WireType::Varint, varint_bytes((a as u64) as nat) + rest, d)
            == Ok::<(AccountOpenedView, nat), crate::decode::DecodeFailure>(
            (AccountOpenedView { balance: a, ..m }, varint_bytes((a as u64) as nat).len()),
        ),
{
    lemma_int64_value(a, rest);
}

proof fn lemma_opened_id_step(m: AccountOpenedView, text: Seq<char>, rest: Seq<u8>, d: nat)
    requires
        fits_string(text),
    ensures
        (AccountOpened::step())(
            m,
            2,
            WireType::LengthDelimited,
            varint_bytes(encode_utf8(text).len()) + encode_utf8(text) + rest,
            d,
        ) == Ok::<(AccountOpenedView, nat), crate::decode::DecodeFailure>(
            (
                AccountOpenedView { id: text, ..m },
                varint_bytes(encode_utf8(text).len()).len() + encode_utf8(text).len(),
            ),
        ),
{
    lemma_string_value(text, rest);
}

proof fn lemma_account_opened_body(o: AccountOpenedView, after: Seq<u8>, d: nat)
    requires
        fits_string(o.id),
    ensures
        fields_until(
            AccountOpened::step(),
            AccountOpenedView::empty(),
            encode_account_opened(o) + after,
            after.len(),
            d,
        ) == Ok::<(AccountOpenedView, Seq<u8>), crate::decode::DecodeFailure>((o, after)),
{
    let step = AccountOpened::step();
    let e = AccountOpenedView::empty();
    let with_balance = AccountOpenedView { balance: o.balance, ..e };
    let id_part = string_if_set(2, o.id) + after;
    lemma_opened_then_id(o, with_balance, after, d);
    if o.balance != 0 {
        let vb = varint_bytes((o.balance as u64) as nat);
        lemma_opened_balance_step(e, o.balance, id_part, d);
        lemma_fields_until_field(step, e, 1, WireType::Varint, vb, id_part, after.len(), d, with_balance);
        assert(encode_account_opened(o) + after =~= key_bytes(1, WireType::Varint) + vb + id_part);
    } else {
        assert(encode_account_opened(o) + after =~= id_part);
        assert(with_balance == e);
    }
}

proof fn lemma_opened_then_id(o: AccountOpenedView, with_balance: AccountOpenedView, after: Seq<u8>, d: nat)
    requires
        fits_string(o.id),
        with_balance == (AccountOpenedView { balance: o.balance, id: Seq::empty() }),
    ensures
        fields_until(AccountOpened::step(), with_balance, string_if_set(2, o.id) + after, after.len(), d)
            == Ok::<(AccountOpenedView, Seq<u8>), crate::decode::DecodeFailure>((o, after)),
{
    let step = AccountOpened::step();
    lemma_encode_utf8_empty(o.id);
    if o.id.len() != 0 {
        let b = encode_utf8(o.id);
        let vb = varint_bytes(b.len()) + b;
        lemma_opened_id_step(with_balance, o.id, after, d);
        assert(varint_bytes(b.len()) + b + after =~= vb + after);
        lemma_fields_until_field(step, with_balance, 2, WireType::LengthDelimited, vb, after, after.len(), d, o);
        assert(string_if_set(2, o.id) + after =~= key_bytes(2, WireType::LengthDelimited) + vb + after);
    } else {
        assert(string_if_set(2, o.id) + after =~= after);
        assert(o.id =~= Seq::<char>::empty());
        assert(with_balance == o);
    }
    lemma_fields_until_done(step, o, after, d);
}

proof fn lemma_amount_body<M: MergeFields>(amount: i64, after: Seq<u8>, d: nat, zero: M::V, set: M::V)
    requires
        amount != 0 ==> (M::step())(
            zero,
            1,
            WireType::Varint,
            varint_bytes((amount as u64) as nat) + after,
            d,
        ) == Ok::<(M::V, nat), crate::decode::DecodeFailure>(
            (set, varint_bytes((amount as u64) as nat).len()),
        ),
        amount == 0 ==> zero == set,
    ensures
        fields_until(M::step(), zero, encode_amount(amount) + after, after.len(), d) == Ok::<
            (M::V, Seq<u8>),
            crate::decode::DecodeFailure,
        >((set, after)),
        encode_amount(amount).len() <= 11,
{
    if amount != 0 {
        let vb = varint_bytes((amount as u64) as nat);
        lemma_varint_roundtrip(amount as u64, after);
        lemma_fields_until_field(M::step(), zero, 1, WireType::Varint, vb, after, after.len(), d, set);
        assert(encode_amount(amount) + after =~= key_bytes(1, WireType::Varint) + vb + after);
        lemma_key_roundtrip(1, WireType::Varint, Seq::empty());
        lemma_varint_roundtrip(8, Seq::empty());
    } else {
        assert(encode_amount(amount) + after =~= after);
    }
    lemma_fields_until_done(M::step(), set, after, d);
}

proof fn lemma_transaction_step(amount: i64, after: Seq<u8>, d: nat)
    ensures
        amount != 0 ==> (Transaction::step())(
            Transaction { amount: 0 },
            1,
            WireType::Varint,
            varint_bytes((amount as u64) as nat) + after,
            d,
        ) == Ok::<(Transaction, nat), crate::decode::DecodeFailure>(
            (Transaction { amount }, varint_bytes((amount as u64) as nat).len()),
        ),
{
    lemma_int64_value(amount, after);
}

proof fn lemma_denied_step(amount: i64, after: Seq<u8>, d: nat)
    ensures
        amount != 0 ==> (TransactionDenied::step())(
            TransactionDenied { amount: 0 },
            1,
            WireType::Varint,
            varint_bytes((amount as u64) as nat) + after,
            d,
        ) == Ok::<(TransactionDenied, nat), crate::decode::DecodeFailure>(
            (TransactionDenied { amount }, varint_bytes((amount as u64) as nat).len()),
        ),
{
    lemma_int64_value(amount, after);
}

/// The field loop of an event reads the encoded event in full and goes on
/// with whatever follows it.
#[verifier::rlimit(40)]
proof fn lemma_event_prefix(e: BankEventView, extra: Seq<u8>)
    requires
        event_fits(e),
    ensures
        fields_until(BankEvent::step(), BankEventView { event: None }, encode_bank_event(e) + extra, 0, 100)
            == fields_until(BankEvent::step(), e, extra, 0, 100),
{
    let step = BankEvent::step();
    let none = BankEventView { event: None };
    match e.event {
        None => {
            assert(encode_bank_event(e) + extra =~= extra);
            assert(none == e);
        },
        Some(EventView::Opened(o)) => {
            let body = encode_account_opened(o);
            lemma_account_opened_body(o, extra, 99);
            assert(body.len() < 0x1_0000_0000_0000_0000) by {
                lemma_body_len(o);
            }
            lemma_nested_roundtrip(AccountOpened::step(), AccountOpenedView::empty(), body, extra, 100, o);
            let value = varint_bytes(body.len()) + body;
            assert(value + extra =~= varint_bytes(body.len()) + body + extra);
            lemma_fields_until_field(step, none, 1, WireType::LengthDelimited, value, extra, 0, 100, e);
            assert(encode_bank_event(e) + extra =~= key_bytes(1, WireType::LengthDelimited) + value + extra);
        },
        Some(EventView::Transaction(t)) => {
            let body = encode_amount(t.amount);
            let zero = Transaction { amount: 0 };
            lemma_transaction_step(t.amount, extra, 99);
            lemma_amount_body::<Transaction>(t.amount, extra, 99, zero, t);
            lemma_nested_roundtrip(Transaction::step(), zero, body, extra, 100, t);
            let value = varint_bytes(body.len()) + body;
            assert(value + extra =~= varint_bytes(body.len()) + body + extra);
            lemma_fields_until_field(step, none, 2, WireType::LengthDelimited, value, extra, 0, 100, e);
            assert(encode_bank_event(e) + extra =~= key_bytes(2, WireType::LengthDelimited) + value + extra);
        },
        Some(EventView::Denied(dn)) => {
            let body = encode_amount(dn.amount);
            let zero = TransactionDenied { amount: 0 };
            lemma_denied_step(dn.amount, extra, 99);
            lemma_amount_body::<TransactionDenied>(dn.amount, extra, 99, zero, dn);
            lemma_nested_roundtrip(TransactionDenied::step(), zero, body, extra, 100, dn);
            let value = varint_bytes(body.len()) + body;
            assert(value + extra =~= varint_bytes(body.len()) + body + extra);
            lemma_fields_until_field(step, none, 3, WireType::LengthDelimited, value, extra, 0, 100, e);
            assert(encode_bank_event(e) + extra =~= key_bytes(3, WireType::LengthDelimited) + value + extra);
        },
    }
}

/// Every event that is encoded decodes to itself.
pub proof fn law_bank_event_roundtrip(e: BankEventView)
    requires
        event_fits(e),
    ensures
        decode_bank_event(encode_bank_event(e)) == Ok::<BankEventView, crate::decode::DecodeFailure>(e),
{
    reveal(decode_bank_event);
    let empty = Seq::<u8>::empty();
    lemma_event_prefix(e, empty);
    assert(encode_bank_event(e) + empty =~= encode_bank_event(e));
    lemma_fields_until_done(BankEvent::step(), e, empty, 100);
}

/// An unknown field after an encoded event, of any wire type whose value is
/// well formed, is skipped: the event decodes as it was written.
#[verifier::rlimit(40)]
pub proof fn law_bank_event_skips_unknown_field(
    e: BankEventView,
    tag: u32,
    w: WireType,
    value: Seq<u8>,
)
    requires
        event_fits(e),
        4 <= tag < 0x2000_0000,
        skip_field(w, tag, value, 100) == Ok::<nat, crate::wire::DecodeErrorKind>(value.len()),
    ensures
        decode_bank_event(encode_bank_event(e) + key_bytes(tag, w) + value) == Ok::<
            BankEventView,
            crate::decode::DecodeFailure,
        >(e),
{
    reveal(decode_bank_event);
    let empty = Seq::<u8>::empty();
    let extra = key_bytes(tag, w) + value;
    lemma_event_prefix(e, extra);
    assert(encode_bank_event(e) + key_bytes(tag, w) + value =~= encode_bank_event(e) + extra);
    assert(value + empty =~= value);
    lemma_fields_until_field(BankEvent::step(), e, tag, w, value, empty, 0, 100, e);
    assert(extra + empty =~= extra);
    lemma_fields_until_done(BankEvent::step(), e, empty, 100);
}

proof fn lemma_body_len(o: AccountOpenedView)
    requires
        fits_string(o.id),
    ensures
        encode_account_opened(o).len() < 0x1_0000_0000_0000_0000,
{
    lemma_varint_roundtrip((o.balance as u64), Seq::empty());
    lemma_varint_roundtrip(encode_utf8(o.id).len() as u64, Seq::empty());
    lemma_varint_roundtrip(8, Seq::empty());
    lemma_varint_roundtrip(18, Seq::empty());
}

/// The field loop of a command reads the encoded command in full and goes
/// on with whatever follows it.
proof fn lemma_command_prefix(c: BankCommand, extra: Seq<u8>)
    ensures
        fields_until(BankCommand::step(), BankCommand { command: None }, encode_bank_command(c) + extra, 0, 100)
            == fields_until(BankCommand::step(), c, extra, 0, 100),
{
    let step = BankCommand::step();
    let none = BankCommand { command: None };
    match c.command {
        None => {
            assert(encode_bank_command(c) + extra =~= extra);
        },
        Some(Command::Transaction(a)) => {
            let vb = varint_bytes((a as u64) as nat);
            lemma_int64_value(a, extra);
            lemma_fields_until_field(step, none, 1, WireType::Varint, vb, extra, 0, 100, c);
            assert(encode_bank_command(c) + extra =~= key_bytes(1, WireType::Varint) + vb + extra);
        },
        Some(Command::OpenAccount(a)) => {
            let vb = varint_bytes((a as u64) as nat);
            lemma_int64_value(a, extra);
            lemma_fields_until_field(step, none, 2, WireType::Varint, vb, extra, 0, 100, c);
            assert(encode_bank_command(c) + extra =~= key_bytes(2, WireType::Varint) + vb + extra);
        },
    }
}

/// Every command that is encoded decodes to itself.
pub proof fn law_bank_command_roundtrip(c: BankCommand)
    ensures
        decode_bank_command(encode_bank_command(c)) == Ok::<BankCommand, crate::decode::DecodeFailure>(c),
{
    reveal(decode_bank_command);
    let empty = Seq::<u8>::empty();
    lemma_command_prefix(c, empty);
    assert(encode_bank_command(c) + empty =~= encode_bank_command(c));
    lemma_fields_until_done(BankCommand::step(), c, empty, 100);
}

/// An unknown field after an encoded command, of any wire type whose value
/// is well formed, is skipped: the command decodes as it was written.
pub proof fn law_bank_command_skips_unknown_field(
    c: BankCommand,
    tag: u32,
    w: WireType,
    value: Seq<u8>,
)
    requires
        3 <= tag < 0x2000_0000,
        skip_field(w, tag, value, 100) == Ok::<nat, crate::wire::DecodeErrorKind>(value.len()),
    ensures
        decode_bank_command(encode_bank_command(c) + key_bytes(tag, w) + value) == Ok::<
            BankCommand,
            crate::decode::DecodeFailure,
        >(c),
{
    reveal(decode_bank_command);
    let empty = Seq::<u8>::empty();
    let extra = key_bytes(tag, w) + value;
    lemma_command_prefix(c, extra);
    assert(encode_bank_command(c) + key_bytes(tag, w) + value =~= encode_bank_command(c) + extra);
    assert(value + empty =~= value);
    lemma_fields_until_field(BankCommand::step(), c, tag, w, value, empty, 0, 100, c);
    assert(extra + empty =~= extra);
    lemma_fields_until_done(BankCommand::step(), c, empty, 100);
}

/// Every state that is encoded decodes to itself.
#[verifier::rlimit(40)]
pub proof fn law_bank_state_roundtrip(st: BankStateView)
    requires
        fits_string(st.id),
    ensures
        decode_bank_state(encode_bank_state(st)) == Ok::<BankStateView, crate::decode::DecodeFailure>(
            st,
        ),
{
    reveal(decode_bank_state);
    let step = BankState::step();
    let e = BankStateView::empty();
    let empty = Seq::<u8>::empty();
    let open_part = if st.is_open {
        true_field_bytes(3)
    } else {
        empty
    };
    let s1 = BankStateView { balance: st.balance, ..e };
    let s2 = BankStateView { id: st.id, ..s1 };
    let id_part = string_if_set(2, st.id) + open_part;
    assert(encode_bank_state(st) =~= int64_if_set(1, st.balance) + id_part);
    if st.balance != 0 {
        let vb = varint_bytes((st.balance as u64) as nat);
        lemma_int64_value(st.balance, id_part);
        lemma_fields_until_field(step, e, 1, WireType::Varint, vb, id_part, 0, 100, s1);
        assert(int64_if_set(1, st.balance) + id_part =~= key_bytes(1, WireType::Varint) + vb + id_part);
    } else {
        assert(int64_if_set(1, st.balance) + id_part =~= id_part);
        assert(s1 == e);
    }
    lemma_encode_utf8_empty(st.id);
    if st.id.len() != 0 {
        let b = encode_utf8(st.id);
        let vb = varint_bytes(b.len()) + b;
        lemma_string_value(st.id, open_part);
        assert(varint_bytes(b.len()) + b + open_part =~= vb + open_part);
        lemma_fields_until_field(step, s1, 2, WireType::LengthDelimited, vb, open_part, 0, 100, s2);
        assert(id_part =~= key_bytes(2, WireType::LengthDelimited) + vb + open_part);
    } else {
        assert(id_part =~= open_part);
        assert(st.id =~= Seq::<char>::empty());
        assert(s2 == s1);
    }
    if st.is_open {
        let vb = varint_bytes(1);
        lemma_varint_roundtrip(1, empty);
        assert(vb + empty =~= vb);
        lemma_fields_until_field(step, s2, 3, WireType::Varint, vb, empty, 0, 100, st);
        assert(open_part =~= key_bytes(3, WireType::Varint) + vb + empty);
    } else {
        assert(open_part =~= empty);
        assert(s2 == st);
    }
    lemma_fields_until_done(step, st, empty, 100);
}

/// What merging a field with a number the message does not know must give:
/// the message unchanged, with the bytes that skipping the field takes, or
/// the failure of skipping it, at no field location.
pub open spec fn left_unchanged<M>(r: Result<(M, nat), crate::decode::DecodeFailure>, m: M, w: WireType, tag: u32, s: Seq<u8>, d: nat) -> bool {
    match skip_field(w, tag, s, d) {
        Ok(n) => r == Ok::<(M, nat), crate::decode::DecodeFailure>((m, n)),
        Err(k) => r is Err && r->Err_0.kind == k && r->Err_0.stack.len() == 0,
    }
}

/// Fields with numbers that a message does not know are skipped and leave
/// the message being decoded as it was, for every message of each kind.
pub proof fn law_unknown_fields_leave_messages_unchanged(tag: u32, w: WireType, s: Seq<u8>, d: nat)
    ensures
        tag != 1 && tag != 2 && tag != 3 ==> forall|m: BankEventView|
            left_unchanged(#[trigger] (BankEvent::step())(m, tag, w, s, d), m, w, tag, s, d),
        tag != 1 && tag != 2 ==> forall|c: BankCommand|
            left_unchanged(#[trigger] (BankCommand::step())(c, tag, w, s, d), c, w, tag, s, d),
        tag != 1 && tag != 2 && tag != 3 ==> forall|st: BankStateView|
            left_unchanged(#[trigger] (BankState::step())(st, tag, w, s, d), st, w, tag, s, d),
        tag != 1 && tag != 2 ==> forall|o: AccountOpenedView|
            left_unchanged(#[trigger] (AccountOpened::step())(o, tag, w, s, d), o, w, tag, s, d),
        tag != 1 ==> forall|t: Transaction|
            left_unchanged(#[trigger] (Transaction::step())(t, tag, w, s, d), t, w, tag, s, d),
        tag != 1 ==> forall|t: TransactionDenied|
            left_unchanged(#[trigger] (TransactionDenied::step())(t, tag, w, s, d), t, w, tag, s, d),
{
}

} // verus!
