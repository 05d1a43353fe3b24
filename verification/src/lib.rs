//! Request decoding for a publish/subscribe event store.

pub mod arguments;
pub mod codec;
pub mod command;
pub mod decimal;
pub mod diagnostics;
pub mod encoding;
pub mod grammar;
pub mod text;
