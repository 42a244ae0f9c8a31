//! A local tool-invocation server library speaking a JSON-RPC-based protocol.
//!
//! The crate holds the verified core of the server: message framing over a
//! byte stream, a JSON value model with an exact serializer, the request
//! dispatcher, the asset-registry selection rules, the audio-normalization
//! logic for 16-bit PCM WAV buffers, and the notification planner. All
//! input/output (stdin/stdout, the filesystem, the platform notification
//! calls) lives outside the library and hands it plain values.

pub mod assets;
pub mod framing;
pub mod json;
pub mod notify;
pub mod rpc;
pub mod text;
pub mod wav;
