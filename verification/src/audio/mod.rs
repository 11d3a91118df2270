//! The audio of calls.
pub mod alsa_io;
pub mod cards;
pub mod codec;
pub mod discovery;
pub mod g711;
pub mod stream;
