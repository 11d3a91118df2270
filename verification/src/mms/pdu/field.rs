//! Header field codes, already carrying the "well-known" high bit.
use vstd::prelude::*;

verus! {

pub const BCC: u8 = 0x81;

pub const CC: u8 = 0x82;

pub const CONTENT_LOCATION: u8 = 0x83;

pub const CONTENT_TYPE: u8 = 0x84;

pub const DATE: u8 = 0x85;

pub const DELIVERY_REPORT: u8 = 0x86;

pub const DELIVERY_TIME: u8 = 0x87;

pub const EXPIRY: u8 = 0x88;

pub const FROM: u8 = 0x89;

pub const MESSAGE_CLASS: u8 = 0x8A;

pub const MESSAGE_ID: u8 = 0x8B;

pub const MESSAGE_TYPE: u8 = 0x8C;

pub const MMS_VERSION: u8 = 0x8D;

pub const MESSAGE_SIZE: u8 = 0x8E;

pub const PRIORITY: u8 = 0x8F;

pub const READ_REPORT: u8 = 0x90;

pub const REPORT_ALLOWED: u8 = 0x91;

pub const RESPONSE_STATUS: u8 = 0x92;

pub const RESPONSE_TEXT: u8 = 0x93;

pub const SENDER_VISIBILITY: u8 = 0x94;

pub const STATUS: u8 = 0x95;

pub const SUBJECT: u8 = 0x96;

pub const TO: u8 = 0x97;

pub const TRANSACTION_ID: u8 = 0x98;

pub const RETRIEVE_STATUS: u8 = 0x99;

pub const RETRIEVE_TEXT: u8 = 0x9A;

} // verus!
