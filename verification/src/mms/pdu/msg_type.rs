//! Message types.
use vstd::prelude::*;

verus! {

pub const SEND_REQ: u8 = 0x80;

pub const SEND_CONF: u8 = 0x81;

pub const NOTIFICATION_IND: u8 = 0x82;

pub const NOTIFYRESP_IND: u8 = 0x83;

pub const RETRIEVE_CONF: u8 = 0x84;

pub const ACKNOWLEDGE_IND: u8 = 0x85;

pub const DELIVERY_IND: u8 = 0x86;

pub const READ_REC_IND: u8 = 0x87;

pub const READ_ORIG_IND: u8 = 0x88;

pub open spec fn name_of_type(t: u8) -> Seq<char> {
    match t {
        0x80 => "m-send-req"@,
        0x81 => "m-send-conf"@,
        0x82 => "m-notification-ind"@,
        0x83 => "m-notifyresp-ind"@,
        0x84 => "m-retrieve-conf"@,
        0x85 => "m-acknowledge-ind"@,
        0x86 => "m-delivery-ind"@,
        0x87 => "m-read-rec-ind"@,
        0x88 => "m-read-orig-ind"@,
        _ => "unknown"@,
    }
}

pub fn name(t: u8) -> (r: &'static str)
    ensures
        r@ == name_of_type(t),
{
    match t {
        0x80 => "m-send-req",
        0x81 => "m-send-conf",
        0x82 => "m-notification-ind",
        0x83 => "m-notifyresp-ind",
        0x84 => "m-retrieve-conf",
        0x85 => "m-acknowledge-ind",
        0x86 => "m-delivery-ind",
        0x87 => "m-read-rec-ind",
        0x88 => "m-read-orig-ind",
        _ => "unknown",
    }
}

} // verus!
