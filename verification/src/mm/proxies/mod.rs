//! The names and numbers of ModemManager's D-Bus interface.
//!
//! The numbering is ModemManager's own, kept whole rather than trimmed to what is used today: a
//! half-copied enumeration is worse than none when the next state has to be handled.
pub mod call;
pub mod sms;
pub mod state;

use vstd::prelude::*;

verus! {

pub const MM_SERVICE: &'static str = "org.freedesktop.ModemManager1";

pub const MM_PATH: &'static str = "/org/freedesktop/ModemManager1";

} // verus!
