# websocket

A WebSocket (RFC 6455) library whose behaviour is stated in contracts and
proved with Verus.

The library works on bytes already received and bytes to be sent: readers
consume from a `Vec<u8>` and writers append to one. The network itself lives
in `app/`.

## Layout

- `src/dataframe.rs`, `src/message.rs`: data frames and messages, with their
  wire form and the laws that reading gives back what writing wrote.
- `src/codec/`: frame and message codecs over byte buffers.
- `src/receiver.rs`, `src/sender.rs`: the default receiver (which reassembles
  fragmented messages and hands out control frames at once) and sender.
- `src/ws/`: the lower layer: frame headers, masking, the generic frame,
  message, sender and receiver traits, URLs, and the opening handshake
  (requests, responses, HTTP versions, header checks).
- `src/server/`: the server side of the handshake: validating an upgrade
  request, choosing protocols and extensions, accepting or rejecting.
- `src/util/`: header collections, reading up to a delimiter, SHA-1, base64
  and case-insensitive comparison.
- `tests/`: tests on concrete values.
- `app/`: TCP listeners and streams, and the blocking loops that feed the
  library the bytes a socket receives.

## Checking

Every function in `src/` verifies; the laws are public proof functions
(their names begin with `lemma_`), each stating in its doc comment what it
proves.
