//! The states and kinds of a message.
use vstd::prelude::*;

verus! {

pub const STATE_UNKNOWN: u32 = 0;

pub const STATE_STORED: u32 = 1;

pub const STATE_RECEIVING: u32 = 2;

pub const STATE_RECEIVED: u32 = 3;

pub const STATE_SENDING: u32 = 4;

pub const STATE_SENT: u32 = 5;

pub const PDU_UNKNOWN: u32 = 0;

pub const PDU_DELIVER: u32 = 1;

pub const PDU_SUBMIT: u32 = 2;

pub const PDU_STATUS_REPORT: u32 = 3;

} // verus!
