# tls_unbuffered

An unbuffered TLS connection engine, verified with Verus. Records go in as bytes and come out as
bytes; the caller owns every buffer and does all input and output. Encrypted records can be opened
in place, or from an immutable buffer straight into another one.

* `src/msgs` - messages, record framing, the handshake buffer and the queues of chunks.
* `src/crypto` - TLS 1.3 record protection and key derivation. The ciphers, HKDF and HMAC are those
  of `aws-lc-rs`; `aead.rs`, `hkdf.rs` and `tls13.rs` say what is taken from it on trust.
* `src/conn` - the connection: the record layer, the state that both sides share, the traffic state
  of TLS 1.3, and the interface that a caller drives. `model.rs` says what a call comes to as a
  function of the connection and the input; `laws.rs` proves what holds over several calls.
* `tests` - the library from outside.
* `app` - standard traits that the verified types cannot have themselves.

The handshake itself is not part of the library: `establish` takes the secrets that a handshake has
agreed on, and the trait `State` is where one would plug in.
