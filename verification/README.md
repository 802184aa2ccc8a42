# ethernetip

EtherNet/IP explicit messaging for Allen-Bradley ControlLogix and
CompactLogix controllers: symbolic tag reads and writes (typed, arrays,
fragmented reads, multi-tag reads), connected messaging over Forward Open,
slot routing, discovery, and a deterministic simulated controller for tests.

The library is written in Verus. Every function in `src/` carries a
contract that the verifier checks: request builders state the exact bytes
they produce, decoders state what they return for every input and when they
fail, and the session logic states how each reply changes the session.

## Layout

- `src/cip/` — CIP: EPATH encoding and slot routing, request builders,
  reply decoders, Multiple Service Packets, symbol browsing, errors.
- `src/encapsulation.rs` — the 24-byte encapsulation header.
- `src/client/` — the session state of a client and what it makes of each
  reply: transport framing and CPF parsing, Forward Open and its fallback,
  fragmented reads, typed accessors, array writes, discovery replies.
- `src/fake_plc.rs` — the simulated controller: its reply to each request
  and its handling of a TCP session's messages.
- `src/types.rs`, `src/text.rs`, `src/le.rs` — data types, message text and
  little-endian fields.
- `app/` — the asynchronous client on tokio (sockets, timeouts, retries),
  the simulated controller's TCP listener, and the demo program.
- `tests/` — tests of the library on concrete values.

Laws that hold across functions are stated as proof functions next to the
code they speak of, for instance `lemma_header_roundtrip`,
`lemma_fallback_statuses`, `lemma_dot_join`, `lemma_msp_layout`,
`lemma_written_value_reads_back`, `lemma_rr_exchange`,
`lemma_depth_limit_enough` and `lemma_fake_plc_accepts_writes`.
