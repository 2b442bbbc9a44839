//! Streaming message framing and keyed dispatch for a Kafka command-line
//! bridge.
//!
//! The bridge reads an unbounded stream of characters, cuts it into frames by
//! balancing braces ([`framer`]), finds the routing key of each frame at a
//! dotted path inside its JSON ([`json`], [`key`]), and turns the frame into a
//! request to publish it under that key ([`dispatch`]). In the other direction
//! it renders the records it receives as lines ([`consumer`]). [`runner`] holds
//! the settings of a run and the rule by which its paths are joined, [`tls`]
//! the reading of the TLS settings, [`text`] what the others share.
//!
//! Nothing here talks to a broker, a file or a terminal: the library decides,
//! and its caller acts.

pub mod consumer;
pub mod dispatch;
pub mod framer;
pub mod json;
pub mod key;
pub mod runner;
pub mod text;
pub mod tls;
