//! Laws of the event-sourced account: what reading back the stored events
//! gives, how events fold into state, and what handling commands does.
use crate::handler::{apply_event, decide, rehydrated};
use crate::proto::bank_command::Command;
use crate::proto::bank_event::EventView;
use crate::proto::{AccountOpenedView, BankCommand, BankEventView, BankStateView, Transaction, TransactionDenied};
use crate::roundtrip::{event_fits, law_bank_event_roundtrip};
use crate::sourcer::{decode_events, encode_events};
use vstd::prelude::*;

verus! {

/// The state that events leave when folded into `s`, in order.
pub open spec fn apply_events(s: BankStateView, events: Seq<BankEventView>) -> BankStateView
    decreases events.len(),
{
    if events.len() == 0 {
        s
    } else {
        apply_event(apply_events(s, events.drop_last()), events.last())
    }
}

/// Reading back the bytes that `append` gives for events yields those
/// events, in order.
pub proof fn law_stored_events_read_back(events: Seq<BankEventView>)
    requires
        forall|i: int| 0 <= i < events.len() ==> event_fits(#[trigger] events[i]),
    ensures
        decode_events(encode_events(events)) == Ok::<
            Seq<BankEventView>,
            crate::decode::DecodeFailure,
        >(events),
    decreases events.len(),
{
    if events.len() > 0 {
        let init = events.drop_last();
        law_stored_events_read_back(init);
        assert(encode_events(events).drop_last() =~= encode_events(init));
        assert(event_fits(events[events.len() - 1]));
        law_bank_event_roundtrip(events.last());
        assert(encode_events(events).last() == crate::encode::encode_bank_event(events.last()));
        assert(init.push(events.last()) =~= events);
    } else {
        assert(encode_events(events) =~= Seq::<Seq<u8>>::empty());
        assert(events =~= Seq::<BankEventView>::empty());
    }
}

/// Rehydrating folds events one at a time into the state of the events
/// before them.
pub proof fn law_rehydrate_step(events: Seq<BankEventView>, e: BankEventView)
    ensures
        rehydrated(events.push(e)) == apply_event(rehydrated(events), e),
{
    assert(events.push(e).drop_last() =~= events);
}

/// The state of all events is the state that the later events leave when
/// folded into the state of the earlier ones: a stored state can stand for
/// the events before it.
pub proof fn law_rehydrate_split(earlier: Seq<BankEventView>, later: Seq<BankEventView>)
    ensures
        rehydrated(earlier + later) == apply_events(rehydrated(earlier), later),
    decreases later.len(),
{
    if later.len() == 0 {
        assert(earlier + later =~= earlier);
    } else {
        law_rehydrate_split(earlier, later.drop_last());
        assert((earlier + later).drop_last() =~= earlier + later.drop_last());
        assert((earlier + later).last() == later.last());
    }
}

/// Once open, an account stays open, whatever events follow.
pub proof fn law_stays_open(s: BankStateView, events: Seq<BankEventView>)
    requires
        s.is_open,
    ensures
        apply_events(s, events).is_open,
    decreases events.len(),
{
    if events.len() > 0 {
        law_stays_open(s, events.drop_last());
    }
}

/// An account is open exactly when some event opened it.
pub proof fn law_open_iff_opened(events: Seq<BankEventView>)
    ensures
        rehydrated(events).is_open <==> exists|i: int|
            0 <= i < events.len() && (#[trigger] events[i]).event matches Some(EventView::Opened(_)),
    decreases events.len(),
{
    if events.len() > 0 {
        let init = events.drop_last();
        law_open_iff_opened(init);
        if rehydrated(init).is_open {
            let i = choose|i: int|
                0 <= i < init.len() && (#[trigger] init[i]).event matches Some(EventView::Opened(_));
            assert(events[i] == init[i]);
        }
        if exists|i: int|
            0 <= i < events.len() && (#[trigger] events[i]).event matches Some(
                EventView::Opened(_),
            ) {
            let i = choose|i: int|
                0 <= i < events.len() && (#[trigger] events[i]).event matches Some(
                    EventView::Opened(_),
                );
            if i < events.len() - 1 {
                assert(init[i] == events[i]);
            }
        }
    }
}

/// A refused transaction, and an event with no variant, leave the state as
/// it was.
pub proof fn law_inert_events(s: BankStateView, e: BankEventView)
    requires
        e.event is None || e.event matches Some(EventView::Denied(_)),
    ensures
        apply_event(s, e) == s,
{
}

/// A command leads to at most one event.
pub proof fn law_at_most_one_event(s: BankStateView, c: BankCommand, id: Seq<char>)
    requires
        decide(s, c, id) is Ok,
    ensures
        decide(s, c, id)->Ok_0.len() <= 1,
{
}

/// Opening an account that is open is refused.
pub proof fn law_open_once(events: Seq<BankEventView>, balance: i64, id: Seq<char>)
    requires
        rehydrated(events).is_open,
    ensures
        decide(rehydrated(events), BankCommand { command: Some(Command::OpenAccount(balance)) }, id)
            == Err::<Seq<BankEventView>, Seq<char>>("Account is already open"@),
{
}

/// Applying what a command leads to: a transaction changes the balance by
/// its amount only where the balance less the amount is not negative, and an
/// opening opens the account with its balance and id.
pub proof fn law_decide_then_apply(s: BankStateView, c: BankCommand, id: Seq<char>)
    requires
        decide(s, c, id) is Ok,
    ensures
        ({
            let after = apply_events(s, decide(s, c, id)->Ok_0);
            match c.command {
                Some(Command::Transaction(a)) => if s.balance - a < 0 {
                    after == s
                } else {
                    after == BankStateView {
                        balance: vstd::wrapping::i64_specs::wrapping_add(s.balance, a),
                        ..s
                    }
                },
                Some(Command::OpenAccount(b)) => after == BankStateView {
                    balance: b,
                    id,
                    is_open: true,
                },
                None => after == s,
            }
        }),
{
    let evs = decide(s, c, id)->Ok_0;
    if evs.len() == 1 {
        assert(evs.drop_last() =~= Seq::<BankEventView>::empty());
        reveal_with_fuel(apply_events, 2);
        assert(apply_events(s, evs) == apply_event(s, evs[0]));
    }
}

/// Every transaction event adds its amount to the balance, whatever the
/// balance and the amount: exactly where the sum fits in i64, wrapping at
/// its bounds where it does not; the id and whether the account is open stay
/// as they were.
pub proof fn law_transaction_event_adds(events: Seq<BankEventView>, amount: i64)
    ensures
        ({
            let before = rehydrated(events);
            let after = rehydrated(
                events.push(BankEventView { event: Some(EventView::Transaction(Transaction { amount })) }),
            );
            &&& after.balance == vstd::wrapping::i64_specs::wrapping_add(before.balance, amount)
            &&& (i64::MIN <= before.balance + amount <= i64::MAX ==> after.balance == before.balance
                + amount)
            &&& after.id == before.id
            &&& after.is_open == before.is_open
        }),
{
    let e = BankEventView { event: Some(EventView::Transaction(Transaction { amount })) };
    assert(events.push(e).drop_last() =~= events);
}

/// An opening event sets the balance and the id it carries and opens the
/// account, whatever came before.
pub proof fn law_opened_event_sets(events: Seq<BankEventView>, o: AccountOpenedView)
    ensures
        rehydrated(events.push(BankEventView { event: Some(EventView::Opened(o)) })) == (BankStateView {
            balance: o.balance,
            id: o.id,
            is_open: true,
        }),
{
    let e = BankEventView { event: Some(EventView::Opened(o)) };
    assert(events.push(e).drop_last() =~= events);
}

/// A refused transaction event leaves the state of the events before it as
/// it was.
pub proof fn law_denied_event_keeps(events: Seq<BankEventView>, d: TransactionDenied)
    ensures
        rehydrated(events.push(BankEventView { event: Some(EventView::Denied(d)) })) == rehydrated(events),
{
    let e = BankEventView { event: Some(EventView::Denied(d)) };
    assert(events.push(e).drop_last() =~= events);
}

/// A transaction is refused exactly when the balance less its amount, taken
/// as whole numbers, is below zero; otherwise it is allowed as it came. The
/// refusal or the allowance is the only event.
pub proof fn law_transaction_decision(s: BankStateView, amount: i64, id: Seq<char>)
    ensures
        decide(s, BankCommand { command: Some(Command::Transaction(amount)) }, id) == Ok::<
            Seq<BankEventView>,
            Seq<char>,
        >(
            if s.balance < amount {
                seq![BankEventView { event: Some(EventView::Denied(TransactionDenied { amount })) }]
            } else {
                seq![BankEventView { event: Some(EventView::Transaction(Transaction { amount })) }]
            },
        ),
{
}

/// Opening a closed account leads to exactly one opening, with the balance
/// asked for and the id given; an empty command leads to nothing.
pub proof fn law_open_and_empty_decisions(s: BankStateView, balance: i64, id: Seq<char>)
    ensures
        !s.is_open ==> decide(s, BankCommand { command: Some(Command::OpenAccount(balance)) }, id)
            == Ok::<Seq<BankEventView>, Seq<char>>(
            seq![BankEventView { event: Some(EventView::Opened(AccountOpenedView { balance, id })) }],
        ),
        decide(s, BankCommand { command: None }, id) == Ok::<Seq<BankEventView>, Seq<char>>(
            Seq::empty(),
        ),
{
}

/// No events leave a closed account with no balance and an empty id.
pub proof fn law_no_events_closed()
    ensures
        rehydrated(Seq::empty()) == (BankStateView { balance: 0, id: Seq::empty(), is_open: false }),
{
}

} // verus!
