//! A small message-ingestion toolkit: a length-prefixed wire codec for a
//! three-variant message union, collision-safe persistence planning for file
//! and image payloads, a listener/shutdown state machine, and the text and
//! CSV utilities that grew alongside it.
pub mod strutil;
pub mod text;
pub mod command;
pub mod csv;
pub mod csv_process;
pub mod imaging;
pub mod input;
pub mod server;
pub mod store;
pub mod table;
pub mod wire;
