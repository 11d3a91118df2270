//! The Session Initiation Protocol.
pub mod access;
pub mod auth;
pub mod description;
pub mod digest;
pub mod engine;
pub mod txn;
pub mod forms;
pub mod message;
pub mod register;
pub mod registrar;
pub mod reread;
pub mod round_trip;
pub mod sdp;
pub mod service;
pub mod transport;
pub mod uri;
pub mod wire;
