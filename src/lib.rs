//! A client library for a newline- and NUL-delimited chat protocol: the wire codec,
//! the inline markup of message bodies, a queue of timed deliveries, the events read
//! from inbound messages, a registry of the handlers that answer them, and the
//! handlers themselves (among them word wars and welcomes).
pub mod text;
pub mod codec;
pub mod queue;
pub mod tablumps;
pub mod event;
pub mod hooks;
pub mod framing;
pub mod handler;
pub mod wordwar;
pub mod welcome;
