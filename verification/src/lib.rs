//! The logic of a real-time voice agent: turn taking, speech framing, call lifecycle and
//! configuration, each with a proved contract.

pub mod agent;
pub mod audio;
pub mod chunker;
pub mod config;
pub mod llm;
pub mod metrics;
pub mod server;
pub mod session;
pub mod stt;
pub mod text;
pub mod time;
pub mod tts;
