//! The states of a call, its directions, and why a state was entered.
use vstd::prelude::*;

verus! {

pub const UNKNOWN: i32 = 0;

pub const DIALING: i32 = 1;

pub const RINGING_OUT: i32 = 2;

pub const RINGING_IN: i32 = 3;

pub const ACTIVE: i32 = 4;

pub const HELD: i32 = 5;

pub const WAITING: i32 = 6;

pub const TERMINATED: i32 = 7;

pub const DIR_UNKNOWN: i32 = 0;

pub const DIR_INCOMING: i32 = 1;

pub const DIR_OUTGOING: i32 = 2;

pub const REASON_UNKNOWN: u32 = 0;

pub const REASON_OUTGOING_STARTED: u32 = 1;

pub const REASON_INCOMING_NEW: u32 = 2;

pub const REASON_ACCEPTED: u32 = 3;

pub const REASON_TERMINATED: u32 = 4;

pub const REASON_REFUSED_OR_BUSY: u32 = 5;

pub const REASON_ERROR: u32 = 6;

pub const REASON_AUDIO_SETUP_FAILED: u32 = 7;

pub const REASON_TRANSFERRED: u32 = 8;

pub const REASON_DEFLECTED: u32 = 9;

/// The name of a call state.
pub open spec fn state_text(s: i32) -> Seq<char> {
    match s {
        1 => "dialing"@,
        2 => "ringing-out"@,
        3 => "ringing-in"@,
        4 => "active"@,
        5 => "held"@,
        6 => "waiting"@,
        7 => "terminated"@,
        _ => "unknown"@,
    }
}

pub fn state_name(s: i32) -> (r: &'static str)
    ensures
        r@ == state_text(s),
{
    match s {
        1 => "dialing",
        2 => "ringing-out",
        3 => "ringing-in",
        4 => "active",
        5 => "held",
        6 => "waiting",
        7 => "terminated",
        _ => "unknown",
    }
}

} // verus!
