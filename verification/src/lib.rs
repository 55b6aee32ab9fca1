//! A speech-output driver engine: the verified core of a long-lived process
//! that speaks a line-oriented control protocol with a speech-dispatch host,
//! drives a text-to-speech backend, and streams synthesized audio back inline
//! over the same text channel.
//!
//! The crate holds the protocol logic only: command dispatch with its
//! multi-line sub-dialogs, the markup-document playback state machine with
//! pause/stop propagation, the binary-safe audio framing codec, prosody
//! parameter mapping, and the voice registry. All input/output — the standard
//! stream channel, the synthesis backend, the filesystem — stays outside; the
//! surrounding program feeds lines and events in and carries actions out.

pub mod bytes;
pub mod codec;
pub mod engine;
pub mod frame;
pub mod markup;
pub mod player;
pub mod prosody;
pub mod semantics;
pub mod voice;
