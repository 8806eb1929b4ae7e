//! The event sourcer: it reads an aggregate's events back from their stored
//! bytes, serializes new events for the store, and handles a command against
//! the state that the stored events leave.
use crate::decode::{decode_bank_command, decode_bank_event, DecodeFailure};
use crate::encode::encode_bank_event;
use crate::handler::{
    decide, decided, event_views, is_uuid_v7_text, opened_id, opens_account, rehydrated,
    CommandHandler,
};
use crate::proto::{BankCommand, BankEvent, BankEventView};
use crate::types::deserialize_error_text;
use vstd::prelude::*;
use vstd::string::StringExecFns;

verus! {

/// The event sourcer of the bank account.
pub struct EventSourcer;

pub open spec fn stored_views(stored: Seq<Vec<u8>>) -> Seq<Seq<u8>> {
    stored.map_values(|b: Vec<u8>| b@)
}

/// The events that stored bytes hold, in order, or the failure of the first
/// bytes that do not decode.
pub open spec fn decode_events(stored: Seq<Seq<u8>>) -> Result<Seq<BankEventView>, DecodeFailure>
    decreases stored.len(),
{
    if stored.len() == 0 {
        Ok(Seq::empty())
    } else {
        match decode_events(stored.drop_last()) {
            Err(e) => Err(e),
            Ok(evs) => match decode_bank_event(stored.last()) {
                Err(e) => Err(e),
                Ok(ev) => Ok(evs.push(ev)),
            },
        }
    }
}

/// The bytes that each event is stored as.
pub open spec fn encode_events(events: Seq<BankEventView>) -> Seq<Seq<u8>> {
    events.map_values(|e: BankEventView| encode_bank_event(e))
}

/// What handling a command against stored events gives.
pub open spec fn handled(
    r: Result<Vec<BankEvent>, String>,
    stored: Seq<Seq<u8>>,
    command: Seq<u8>,
) -> bool {
    match decode_events(stored) {
        Err(e) => r matches Err(m) && m@ == deserialize_error_text(e),
        Ok(evs) => match decode_bank_command(command) {
            Err(e) => r matches Err(m) && m@ == deserialize_error_text(e),
            Ok(c) => {
                &&& opens_account(rehydrated(evs), c) ==> (r matches Ok(v) && is_uuid_v7_text(
                    opened_id(event_views(v@)),
                ) && decided(r, decide(rehydrated(evs), c, opened_id(event_views(v@)))))
                &&& !opens_account(rehydrated(evs), c) ==> decided(
                    r,
                    decide(rehydrated(evs), c, Seq::empty()),
                )
            },
        },
    }
}

/// Decodes every stored event, stopping at the first that fails.
fn decode_stored(stored: &Vec<Vec<u8>>) -> (r: Result<Vec<BankEvent>, String>)
    ensures
        match decode_events(stored_views(stored@)) {
            Ok(evs) => r matches Ok(v) && event_views(v@) == evs,
            Err(e) => r matches Err(m) && m@ == deserialize_error_text(e),
        },
{
    let mut events: Vec<BankEvent> = Vec::new();
    let mut i: usize = 0;
    proof {
        assert(stored_views(stored@).take(0) =~= Seq::<Seq<u8>>::empty());
        assert(event_views(events@) =~= Seq::<BankEventView>::empty());
    }
    while i < stored.len()
        invariant
            i <= stored@.len(),
            decode_events(stored_views(stored@).take(i as int)) == Ok::<
                Seq<BankEventView>,
                DecodeFailure,
            >(event_views(events@)),
        decreases stored@.len() - i,
    {
        proof {
            let sv = stored_views(stored@);
            assert(sv.take(i + 1).drop_last() =~= sv.take(i as int));
            assert(sv.take(i + 1).last() == stored@[i as int]@);
        }
        match BankEvent::deserialize_from(stored[i].as_slice()) {
            Ok(e) => {
                let ghost before = events@;
                events.push(e);
                proof {
                    let sv = stored_views(stored@);
                    assert(event_views(events@) =~= event_views(before).push(e@));
                    assert(event_views(events@) =~= event_views(events@).drop_last().push(
                        events@.last()@,
                    ));
                    assert(event_views(events@).drop_last() =~= event_views(
                        events@.drop_last(),
                    ));
                }
            },
            Err(m) => {
                proof {
                    lemma_decode_events_prefix_error(stored_views(stored@), (i + 1) as nat);
                }
                return Err(m);
            },
        }
        i = i + 1;
    }
    proof {
        assert(stored_views(stored@).take(i as int) =~= stored_views(stored@));
    }
    Ok(events)
}

/// A failure in the first `n` stored events is the failure of them all.
proof fn lemma_decode_events_prefix_error(stored: Seq<Seq<u8>>, n: nat)
    requires
        n <= stored.len(),
        decode_events(stored.take(n as int)) is Err,
    ensures
        decode_events(stored) == decode_events(stored.take(n as int)),
    decreases stored.len() - n,
{
    if n < stored.len() {
        assert(stored.take((n + 1) as int).drop_last() =~= stored.take(n as int));
        lemma_decode_events_prefix_error(stored, n + 1);
    } else {
        assert(stored.take(n as int) =~= stored);
    }
}

impl EventSourcer {
    /// The events that the stored bytes of an aggregate hold.
    pub fn get_events(stored: Vec<Vec<u8>>) -> (r: Result<Vec<BankEvent>, String>)
        ensures
            match decode_events(stored_views(stored@)) {
                Ok(evs) => r matches Ok(v) && event_views(v@) == evs,
                Err(e) => r matches Err(m) && m@ == "failed to deserialize evente: "@
                    + deserialize_error_text(e),
            },
    {
        match decode_stored(&stored) {
            Ok(events) => Ok(events),
            Err(m) => {
                let mut t = "failed to deserialize evente: ".to_owned();
                t.append(m.as_str());
                Err(t)
            },
        }
    }

    /// The bytes to store for each new event, in order; never fails.
    pub fn append(new_events: Vec<BankEvent>) -> (r: Result<Vec<Vec<u8>>, String>)
        ensures
            r matches Ok(b) && stored_views(b@) == encode_events(event_views(new_events@)),
    {
        let mut all_events: Vec<Vec<u8>> = Vec::new();
        let mut i: usize = 0;
        while i < new_events.len()
            invariant
                i <= new_events@.len(),
                stored_views(all_events@) == encode_events(event_views(new_events@).take(i as int)),
            decreases new_events@.len() - i,
        {
            let bytes = new_events[i].encode_to_vec();
            let ghost before = all_events@;
            all_events.push(bytes);
            proof {
                let evs = event_views(new_events@);
                assert(evs.take(i + 1) =~= evs.take(i as int).push(new_events@[i as int]@));
                assert(stored_views(all_events@) =~= stored_views(before).push(bytes@));
                assert(encode_events(evs.take(i + 1)) =~= encode_events(evs.take(i as int)).push(
                    encode_bank_event(new_events@[i as int]@),
                ));
            }
            i = i + 1;
        }
        proof {
            assert(event_views(new_events@).take(i as int) =~= event_views(new_events@));
        }
        Ok(all_events)
    }

    /// Handles `command` against the state that the stored events leave.
    pub fn handle_command(stored: Vec<Vec<u8>>, command: Vec<u8>) -> (r: Result<
        Vec<BankEvent>,
        String,
    >)
        ensures
            handled(r, stored_views(stored@), command@),
    {
        let events = match decode_stored(&stored) {
            Ok(events) => events,
            Err(m) => return Err(m),
        };
        let state = match CommandHandler::rehydrate(events) {
            Ok(s) => s,
            Err(m) => return Err(m),
        };
        let command = match BankCommand::deserialize(command) {
            Ok(c) => c,
            Err(m) => return Err(m),
        };
        CommandHandler::handle(state, command)
    }
}

} // verus!
