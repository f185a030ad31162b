//! Automation client core for a turn-based web game that speaks a
//! continuously-compressed, batched JSON message stream over a socket.
//!
//! The verified library covers the streaming framing layer (splitting a byte
//! stream into complete JSON values), message normalization, the map store,
//! the scripted routine state machine, and the processor's decision logic.
//! Transport, console, and logging I/O live outside the library.

pub mod framer;
pub mod inflate;
pub mod json;
pub mod json_lemmas;
pub mod map;
pub mod pipeline;
pub mod protocol;
pub mod roundtrip;
pub mod routine;
pub mod util;
