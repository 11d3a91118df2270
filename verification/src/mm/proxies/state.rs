//! The states of a modem.
use vstd::prelude::*;

verus! {

pub const MODEM_FAILED: i32 = -1;

pub const MODEM_UNKNOWN: i32 = 0;

pub const MODEM_INITIALIZING: i32 = 1;

pub const MODEM_LOCKED: i32 = 2;

pub const MODEM_DISABLED: i32 = 3;

pub const MODEM_DISABLING: i32 = 4;

pub const MODEM_ENABLING: i32 = 5;

pub const MODEM_ENABLED: i32 = 6;

pub const MODEM_SEARCHING: i32 = 7;

pub const MODEM_REGISTERED: i32 = 8;

pub const MODEM_DISCONNECTING: i32 = 9;

pub const MODEM_CONNECTING: i32 = 10;

pub const MODEM_CONNECTED: i32 = 11;

/// The name of a modem state.
pub open spec fn modem_state_text(s: i32) -> Seq<char> {
    match s {
        -1 => "failed"@,
        0 => "unknown"@,
        1 => "initializing"@,
        2 => "locked"@,
        3 => "disabled"@,
        4 => "disabling"@,
        5 => "enabling"@,
        6 => "enabled"@,
        7 => "searching"@,
        8 => "registered"@,
        9 => "disconnecting"@,
        10 => "connecting"@,
        11 => "connected"@,
        _ => "?"@,
    }
}

pub fn modem_state_name(s: i32) -> (r: &'static str)
    ensures
        r@ == modem_state_text(s),
{
    match s {
        -1 => "failed",
        0 => "unknown",
        1 => "initializing",
        2 => "locked",
        3 => "disabled",
        4 => "disabling",
        5 => "enabling",
        6 => "enabled",
        7 => "searching",
        8 => "registered",
        9 => "disconnecting",
        10 => "connecting",
        11 => "connected",
        _ => "?",
    }
}

/// A modem in this state can place calls and send messages.
pub open spec fn is_usable(s: i32) -> bool {
    s >= MODEM_ENABLED
}

/// Usable for calls and messages? Anything from "enabled" upwards is fine; registration is not
/// asked for, because some networks report `enabled` while attached.
pub fn usable(s: i32) -> (r: bool)
    ensures
        r == is_usable(s),
{
    s >= MODEM_ENABLED
}

} // verus!
