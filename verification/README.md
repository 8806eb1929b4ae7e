# eventsourcing

An event-sourced bank account, verified with Verus.

The account keeps its history as events. A command handler folds the events
into the account's state and decides which events a command leads to; an
event sourcer reads an account's stored events back, handles commands against
them and serializes new events for storage; an event store names each stored
event by a version 6 UUID so that names sort by time.

## Layout

- `src/wire.rs`: the protobuf wire format: varints (written and read through
  `prost::encoding`), field keys, skipping of unknown fields, field values.
- `src/proto.rs`, `src/proto/`: the messages and their views.
- `src/decode.rs`: decoding of messages, with the field loop shared by all of
  them and nested messages; `src/errtext.rs`: the text of a decode error.
- `src/encode.rs`: proto3 encoding of the messages.
- `src/roundtrip.rs`: every message that is encoded decodes to itself.
- `src/types.rs`: serialize and deserialize.
- `src/handler.rs`: the command handler (`rehydrate`, `handle`).
- `src/sourcer.rs`: the event sourcer (`get_events`, `append`,
  `handle_command`) over stored bytes.
- `src/store.rs`: event file names, and the law that they sort by time.
- `src/laws.rs`: laws of reading back stored events, of folding events, and
  of handling commands.
- `app/`: the filesystem event store on WASI and the event sourcer that joins
  it to the library.

## Messages

| message             | field                                         | number | type             |
|---------------------|-----------------------------------------------|--------|------------------|
| `AccountOpened`     | `balance`                                     | 1      | int64            |
| `AccountOpened`     | `id`                                          | 2      | string           |
| `Transaction`       | `amount`                                      | 1      | int64            |
| `TransactionDenied` | `amount`                                      | 1      | int64            |
| `BankEvent`         | one-of `event`: `opened`, `transaction`, `denied` | 1, 2, 3 | messages above |
| `BankCommand`       | one-of `command`: `transaction`, `open_account`   | 1, 2    | int64          |
| `BankState`         | `balance`, `id`, `is_open`                    | 1, 2, 3 | int64, string, bool |
