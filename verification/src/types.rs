//! Serialization of events, commands and state to the bytes that are stored
//! and sent, and their deserialization, which reports why bytes are refused.
use crate::decode::{decode_bank_command, decode_bank_event, decode_bank_state, DecodeFailure};
use crate::encode::{encode_bank_command, encode_bank_event, encode_bank_state};
use crate::errtext::decode_error_text;
use crate::proto::{BankCommand, BankEvent, BankState};
use vstd::prelude::*;
use vstd::string::StringExecFns;

verus! {

/// The text of a refused deserialization.
pub open spec fn deserialize_error_text(e: DecodeFailure) -> Seq<char> {
    "Event deserialization failed: "@ + decode_error_text(e)
}

/// What deserializing gives: the decoded value, or the text of why the bytes
/// were refused.
pub open spec fn deserialized<T: View>(r: Result<T, String>, expected: Result<T::V, DecodeFailure>) -> bool {
    match expected {
        Ok(v) => r matches Ok(x) && x@ == v,
        Err(e) => r matches Err(m) && m@ == deserialize_error_text(e),
    }
}

impl BankEvent {
    /// The bytes of the event; never fails.
    pub fn serialize(&self) -> (r: Result<Vec<u8>, String>)
        ensures
            r matches Ok(b) && b@ == encode_bank_event(self@),
    {
        Ok(self.encode_to_vec())
    }

    /// The event that `event` holds.
    pub fn deserialize(event: Vec<u8>) -> (r: Result<BankEvent, String>)
        ensures
            deserialized(r, decode_bank_event(event@)),
    {
        BankEvent::deserialize_from(event.as_slice())
    }

    /// The event that `event` holds, read from a slice.
    pub fn deserialize_from(event: &[u8]) -> (r: Result<BankEvent, String>)
        ensures
            deserialized(r, decode_bank_event(event@)),
    {
        match BankEvent::decode(event) {
            Ok(e) => Ok(e),
            Err(e) => {
                let mut m = "Event deserialization failed: ".to_owned();
                m.append(e.to_message().as_str());
                Err(m)
            },
        }
    }
}

impl BankCommand {
    /// The bytes of the command; never fails.
    pub fn serialize(&self) -> (r: Result<Vec<u8>, String>)
        ensures
            r matches Ok(b) && b@ == encode_bank_command(*self),
    {
        Ok(self.encode_to_vec())
    }

    /// The command that `command` holds.
    pub fn deserialize(command: Vec<u8>) -> (r: Result<BankCommand, String>)
        ensures
            deserialized(r, decode_bank_command(command@)),
    {
        match BankCommand::decode(command.as_slice()) {
            Ok(c) => Ok(c),
            Err(e) => {
                let mut m = "Event deserialization failed: ".to_owned();
                m.append(e.to_message().as_str());
                Err(m)
            },
        }
    }
}

impl BankState {
    /// The bytes of the state; never fails.
    pub fn serialize(&self) -> (r: Result<Vec<u8>, String>)
        ensures
            r matches Ok(b) && b@ == encode_bank_state(self@),
    {
        Ok(self.encode_to_vec())
    }

    /// The state that `state` holds.
    pub fn deserialize(state: Vec<u8>) -> (r: Result<BankState, String>)
        ensures
            deserialized(r, decode_bank_state(state@)),
    {
        match BankState::decode(state.as_slice()) {
            Ok(s) => Ok(s),
            Err(e) => {
                let mut m = "Event deserialization failed: ".to_owned();
                m.append(e.to_message().as_str());
                Err(m)
            },
        }
    }
}

} // verus!
