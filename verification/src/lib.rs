//! Streaming G-code to a CNC controller over a serial line: the decisions
//! of the streaming session, the byte and text handling around them, and
//! the reader over downloaded bytes.
pub mod config;
pub mod events;
pub mod foreign;
pub mod gcs;
pub mod input_handler;
pub mod protocol;
pub mod serial;
pub mod storage;
pub mod text;
pub mod vec_reader;
