//! An in-memory relay for key-exchange handshakes and encrypted mailboxes.
//!
//! The relay never interprets cryptographic material: public keys, signatures
//! and ciphertexts are opaque strings. It holds handshake records keyed by the
//! ordered pair (initiator, responder) and drives them through the lifecycle
//! Initiated → Paired → Complete (or Initiated → Expired by the sweeper), and it
//! holds an append-only queue of messages per recipient.
//!
//! Time is a count of milliseconds since the Unix epoch. Every store issues its
//! own timestamps and never lets them run backwards.
pub mod clock;
pub mod exchange;
pub mod mailbox;
pub mod request;
