//! modem2sip: a gateway between a cellular modem and a SIP network.
//!
//! The library holds everything the gateway computes and decides: the SIP, SDP, MMS, WSP and DNS
//! codecs, the G.711 codec, the rings between sound card and network, digest authentication, the
//! transaction and dialog tables, number handling, and the rules by which calls, messages and
//! modem events are answered. What talks to the outside world lives in the application.
pub mod audio;
pub mod config;
pub mod db;
pub mod gateway;
pub mod http_api;
pub mod http_head;
pub mod http_service;
pub mod media;
pub mod mm;
pub mod mms;
pub mod net;
pub mod sip;
pub mod state;
pub mod table;
pub mod text;
pub mod vendor;
