# pn532

A driver for the PN532 NFC controller, proved with Verus.

- `src/frame.rs`: the frames on the wire, their checksums, and the parser for responses
- `src/exchange.rs`: the stages of an exchange and what happens at each of them
- `src/protocol.rs`: `Pn532`, which sends requests and receives acknowledgements and responses
- `src/interface.rs`: `Interface`, the transport that a user supplies, and the record of the calls made over it
- `src/requests.rs`, `src/error.rs`: commands, requests and errors
- `src/laws.rs`, `src/runs.rs`: what holds of all frames and of all exchanges
- `app/`: blocking methods that bound an exchange by an `embedded-hal` count-down timer, and asynchronous ones

Sending and receiving never wait. When the chip is busy, a step of an exchange
returns; the caller looks at its timer, or yields, and takes the next step.

The frame that is written to the interface ends with the data checksum; the
postamble stays in the driver's buffer.
