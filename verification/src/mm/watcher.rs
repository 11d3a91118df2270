//! Modem discovery and supervision.
//!
//! The modem may be missing at start-up, may show up later, and may vanish and come back at any
//! time. The watch therefore never gives up: it reconnects to the system bus, re-scans on every
//! change, and re-runs the whole activation each time the device returns.
use vstd::prelude::*;

use super::proxies;
use super::proxies::state;
use super::ModemInfo;
use crate::audio::discovery;
use crate::audio::discovery::AlsaCard;
use crate::config::{Audio, ModemMatch};
use crate::text;

verus! {

/// The interface of a modem object.
pub const MODEM_IFACE: &'static str = "org.freedesktop.ModemManager1.Modem";

/// Something happened to the modem.
#[derive(Debug)]
pub enum ModemEvent {
    /// The configured modem is present and usable.
    Up { info: ModemInfo, alsa: Option<AlsaCard> },
    /// The modem is gone or no longer usable. SIP answers 503 until it is up.
    Down { reason: String },
    CallAdded(String),
    CallDeleted(String),
    CallState { path: String, old: i32, new: i32, cause: u32 },
    Dtmf { path: String, digit: String },
    SmsAdded { path: String, received: bool },
}

// ------------------------------------------------------------------ reconnecting

/// How long a session must last to count as progress, in seconds.
pub const LASTING_SESSION: u64 = 30;

/// How the attempts to reach the bus are paced.
#[derive(Debug, Clone, Copy, PartialEq, Eq, Structural)]
pub struct Reconnect {
    /// The wait before the next attempt, in seconds.
    pub backoff: u64,
}

impl Reconnect {
    pub open spec fn wf(&self) -> bool {
        1 <= self.backoff <= 30
    }

    pub fn new() -> (r: Self)
        ensures
            r.wf(),
            r.backoff == 1,
    {
        Reconnect { backoff: 1 }
    }

    /// How long to wait after an attempt, given how long its session lasted, if there was one.
    ///
    /// Resetting the wait on a successful connect would undo it entirely when the failure comes just
    /// after connecting - ModemManager restarting in a loop, say. Only a session that actually
    /// lasted counts as progress.
    pub fn after(&mut self, session_secs: Option<u64>) -> (r: u64)
        requires
            old(self).wf(),
        ensures
            final(self).wf(),
            r == match session_secs {
                Some(n) => if n > LASTING_SESSION {
                    1u64
                } else {
                    old(self).backoff
                },
                None => old(self).backoff,
            },
            final(self).backoff == if r * 2 < 30 {
                (r * 2) as u64
            } else {
                30u64
            },
    {
        let wait = match session_secs {
            Some(n) => if n > LASTING_SESSION {
                1
            } else {
                self.backoff
            },
            None => self.backoff,
        };
        self.backoff = if wait * 2 < 30 {
            wait * 2
        } else {
            30
        };
        wait
    }
}

// ------------------------------------------------------------------ matching

/// The number at the end of an object path.
pub open spec fn index_in(path: Seq<char>) -> Option<nat> {
    let parts = text::split(path, '/');
    text::number(parts.last(), 0xffff_ffff)
}

pub fn path_index(path: &str) -> (r: Option<u32>)
    ensures
        text::opt_nat_u32(r) == index_in(path@),
{
    let c = text::chars_of(path);
    let parts = text::split_at_char(c.as_slice(), '/');
    assert(text::slices(parts@).last() == parts@[parts@.len() - 1]@);
    text::parse_u32(parts[parts.len() - 1])
}

/// What a path is ordered by: its number, and last where it has none.
pub open spec fn rank(path: Seq<char>) -> nat {
    match index_in(path) {
        Some(n) => n,
        None => 0xffff_ffff,
    }
}

/// A list with a path at its place, behind the paths of the same rank.
pub open spec fn with_path(s: Seq<Seq<char>>, p: Seq<char>) -> Seq<Seq<char>>
    decreases s.len(),
{
    if s.len() == 0 || rank(s.last()) <= rank(p) {
        s.push(p)
    } else {
        with_path(s.drop_last(), p).push(s.last())
    }
}

/// The paths in the order in which they are tried.
pub open spec fn by_rank(s: Seq<Seq<char>>) -> Seq<Seq<char>>
    decreases s.len(),
{
    if s.len() == 0 {
        seq![]
    } else {
        with_path(by_rank(s.drop_last()), s.last())
    }
}

proof fn lemma_with_path_at(s: Seq<Seq<char>>, p: Seq<char>, i: int)
    requires
        0 <= i <= s.len(),
        i > 0 ==> rank(s[i - 1]) <= rank(p),
        forall|j: int| i <= j < s.len() ==> rank(#[trigger] s[j]) > rank(p),
    ensures
        with_path(s, p) == s.insert(i, p),
    decreases s.len(),
{
    if i < s.len() {
        assert forall|j: int| i <= j < s.drop_last().len() implies rank(
            #[trigger] s.drop_last()[j],
        ) > rank(p) by {
            assert(s.drop_last()[j] == s[j]);
        }
        lemma_with_path_at(s.drop_last(), p, i);
        assert(rank(s[s.len() - 1]) > rank(p));
        assert(with_path(s, p) =~= s.insert(i, p));
    } else {
        assert(s.insert(i, p) =~= s.push(p));
    }
}

fn rank_of(path: &str) -> (r: u32)
    ensures
        r == rank(path@),
{
    match path_index(path) {
        Some(n) => n,
        None => 0xffff_ffff,
    }
}

/// The modem objects in the order in which they are tried: by their number.
pub fn find_order(paths: &Vec<String>) -> (r: Vec<String>)
    ensures
        text::texts(r@) == by_rank(text::texts(paths@)),
{
    let ghost all = text::texts(paths@);
    let mut out: Vec<String> = Vec::new();
    let mut k: usize = 0;
    assert(text::texts(out@) =~= by_rank(all.take(0)));
    while k < paths.len()
        invariant
            k <= paths@.len(),
            all == text::texts(paths@),
            text::texts(out@) == by_rank(all.take(k as int)),
        decreases paths@.len() - k,
    {
        let p = text::owned(paths[k].as_str());
        let n = rank_of(p.as_str());
        let ghost s = text::texts(out@);
        let mut i: usize = out.len();
        while i > 0 && rank_of(out[i - 1].as_str()) > n
            invariant
                i <= out@.len(),
                s == text::texts(out@),
                n == rank(p@),
                forall|j: int| i <= j < out@.len() ==> rank(#[trigger] s[j]) > n,
            decreases i,
        {
            i -= 1;
        }
        proof {
            if i > 0 {
                assert(s[i - 1] == out@[i - 1]@);
            }
            lemma_with_path_at(s, p@, i as int);
        }
        let ghost v = p@;
        out.insert(i, p);
        assert(text::texts(out@) =~= s.insert(i as int, v));
        assert(all.take(k + 1).drop_last() =~= all.take(k as int));
        assert(all.take(k + 1).last() == v);
        k += 1;
    }
    assert(all.take(k as int) =~= all);
    out
}

pub open spec fn same_ignoring_case(a: Seq<char>, b: Seq<char>) -> bool {
    text::eq_nocase(text::trim(a), text::trim(b))
}

pub fn eq_ci(a: &str, b: &str) -> (r: bool)
    ensures
        r == same_ignoring_case(a@, b@),
{
    let x = text::chars_of(a);
    let y = text::chars_of(b);
    text::same_nocase(text::trimmed(x.as_slice()), text::trimmed(y.as_slice()))
}

/// A criterion that is set: an empty string in the config means "not set" - otherwise a stub like
/// `imei = ""` would silently match nothing at all.
pub open spec fn criterion(v: Option<String>) -> Option<Seq<char>> {
    match v {
        Some(s) => if text::trim(s@).len() > 0 {
            Some(text::trim(s@))
        } else {
            None
        },
        None => None,
    }
}

fn wanted(v: &Option<String>) -> (r: Option<String>)
    ensures
        text::opt_text(r) == criterion(*v),
{
    match v {
        Some(s) => {
            let c = text::chars_of(s.as_str());
            let t = text::trimmed(c.as_slice());
            if t.len() > 0 {
                Some(text::string_of(t))
            } else {
                None
            }
        },
        None => None,
    }
}

/// What the bus says of a modem that may be the configured one.
#[derive(Debug)]
pub struct Inspected {
    pub path: String,
    pub device: String,
    pub device_id: String,
    pub equipment_id: String,
    /// The identifier that the network side gives.
    pub imei: String,
    pub primary_port: String,
    /// The identifiers of the SIM, where there is one: its ICCID and its IMSI.
    pub sim: Option<(String, String)>,
}

/// A criterion that is not set is met by everything.
pub open spec fn meets(want: Option<Seq<char>>, have: Seq<char>) -> bool {
    match want {
        Some(w) => same_ignoring_case(have, w),
        None => true,
    }
}

/// The device path matches as a prefix either way, so a config can name the USB device while
/// ModemManager reports a deeper path (or vice versa).
pub open spec fn device_meets(want: Option<Seq<char>>, have: Seq<char>) -> bool {
    match want {
        Some(w) => have.len() > 0 && (text::has_prefix(have, w) || text::has_prefix(w, have)),
        None => true,
    }
}

pub open spec fn sim_meets(sel: ModemMatch, sim: Option<(String, String)>) -> bool {
    match sim {
        Some((id, imsi)) => meets(criterion(sel.sim_id), id@) && meets(criterion(sel.imsi), imsi@),
        None => criterion(sel.sim_id).is_none() && criterion(sel.imsi).is_none(),
    }
}

/// Every configured criterion must match. An empty selection matches the first modem, which is only
/// sane on single-modem systems.
pub open spec fn matches_selection(sel: ModemMatch, m: Inspected) -> bool {
    &&& match sel.index {
        Some(n) => index_in(m.path@) == Some(n as nat),
        None => true,
    }
    &&& device_meets(criterion(sel.device), m.device@)
    &&& meets(criterion(sel.device_id), m.device_id@)
    &&& meets(
        criterion(sel.imei),
        if m.equipment_id@.len() == 0 {
            m.imei@
        } else {
            m.equipment_id@
        },
    )
    &&& meets(criterion(sel.primary_port), m.primary_port@)
    &&& sim_meets(sel, m.sim)
}

fn fits(want: &Option<String>, have: &str) -> (r: bool)
    ensures
        r == meets(text::opt_text(*want), have@),
{
    match want {
        Some(w) => eq_ci(have, w.as_str()),
        None => true,
    }
}

fn device_fits(want: &Option<String>, have: &str) -> (r: bool)
    ensures
        r == device_meets(text::opt_text(*want), have@),
{
    match want {
        Some(w) => {
            let h = text::chars_of(have);
            let c = text::chars_of(w.as_str());
            h.len() > 0 && (text::starts_with(h.as_slice(), w.as_str()) || text::starts_with(
                c.as_slice(),
                have,
            ))
        },
        None => true,
    }
}

pub fn modem_matches(sel: &ModemMatch, m: &Inspected) -> (r: bool)
    ensures
        r == matches_selection(*sel, *m),
{
    if let Some(n) = sel.index {
        match path_index(m.path.as_str()) {
            Some(k) => if k != n {
                return false;
            },
            None => {
                return false;
            },
        }
    }
    let equipment = if text::chars_of(m.equipment_id.as_str()).len() == 0 {
        m.imei.as_str()
    } else {
        m.equipment_id.as_str()
    };
    let sim_id = wanted(&sel.sim_id);
    let imsi = wanted(&sel.imsi);
    let sim_fits = match &m.sim {
        Some((id, subscriber)) => fits(&sim_id, id.as_str()) && fits(&imsi, subscriber.as_str()),
        None => sim_id.is_none() && imsi.is_none(),
    };
    device_fits(&wanted(&sel.device), m.device.as_str()) && fits(
        &wanted(&sel.device_id),
        m.device_id.as_str(),
    ) && fits(&wanted(&sel.imei), equipment) && fits(
        &wanted(&sel.primary_port),
        m.primary_port.as_str(),
    ) && sim_fits
}

/// A selection that names nothing matches every modem.
pub proof fn law_an_empty_selection_matches_all(sel: ModemMatch, m: Inspected)
    requires
        sel.is_default(),
    ensures
        matches_selection(sel, m),
{
}

// ------------------------------------------------------------------ activation

/// How long the modem has to become usable, in seconds.
pub const ACTIVATION_TIME: u64 = 120;

/// What to do with a modem that is being activated.
#[derive(Debug, Clone, Copy, PartialEq, Eq, Structural)]
pub enum Activation {
    /// It is usable.
    Ready,
    /// It is in the failed state.
    Failed,
    /// The SIM is locked.
    Locked,
    /// Enable it, and look again in two seconds.
    Enable,
    /// Look again in two seconds.
    Wait,
    /// It did not become usable in time. A disabled one is still enabled, for the next attempt.
    TooLate { enable: bool },
}

/// Enable the modem if needed and allowed, and wait (bounded) until it is usable.
pub fn activate(modem_state: i32, may_enable: bool, waited_secs: u64) -> (r: Activation)
    ensures
        r == if modem_state >= state::MODEM_ENABLED {
            Activation::Ready
        } else if modem_state == state::MODEM_FAILED {
            Activation::Failed
        } else if modem_state == state::MODEM_LOCKED {
            Activation::Locked
        } else if waited_secs > ACTIVATION_TIME {
            Activation::TooLate { enable: modem_state == state::MODEM_DISABLED && may_enable }
        } else if modem_state == state::MODEM_DISABLED && may_enable {
            Activation::Enable
        } else {
            Activation::Wait
        },
{
    if state::usable(modem_state) {
        Activation::Ready
    } else if modem_state == state::MODEM_FAILED {
        Activation::Failed
    } else if modem_state == state::MODEM_LOCKED {
        Activation::Locked
    } else if waited_secs > ACTIVATION_TIME {
        Activation::TooLate { enable: modem_state == state::MODEM_DISABLED && may_enable }
    } else if modem_state == state::MODEM_DISABLED && may_enable {
        Activation::Enable
    } else {
        Activation::Wait
    }
}

/// How the sound card of a modem is found.
#[derive(Debug)]
pub enum CardChoice {
    /// The devices are configured; no detection needed.
    Configured,
    /// Detection is off and nothing is configured: calls will fail.
    Nothing,
    Found(AlsaCard),
    /// No card could be matched.
    NotFound,
}

pub open spec fn devices_configured(a: Audio) -> bool {
    a.device.is_some() || a.capture_device.is_some() && a.playback_device.is_some()
}

pub fn resolve_alsa(cfg: &Audio, cards: &Vec<AlsaCard>, device: &str) -> (r: CardChoice)
    ensures
        match r {
            CardChoice::Configured => devices_configured(*cfg),
            CardChoice::Nothing => !devices_configured(*cfg) && !cfg.auto,
            CardChoice::Found(c) => !devices_configured(*cfg) && cfg.auto && discovery::card_for(
                discovery::cards_of(cards@),
                device@,
                text::opt_text(cfg.card_hint),
            ) == Some(c@),
            CardChoice::NotFound => !devices_configured(*cfg) && cfg.auto && discovery::card_for(
                discovery::cards_of(cards@),
                device@,
                text::opt_text(cfg.card_hint),
            ).is_none(),
        },
{
    if cfg.device.is_some() || (cfg.capture_device.is_some() && cfg.playback_device.is_some()) {
        return CardChoice::Configured;
    }
    if !cfg.auto {
        return CardChoice::Nothing;
    }
    let hint = match &cfg.card_hint {
        Some(h) => Some(h.as_str()),
        None => None,
    };
    match discovery::find_for_modem(cards, device, hint) {
        Some(c) => CardChoice::Found(c),
        None => CardChoice::NotFound,
    }
}

/// The environment of `modem.ready_command`.
pub fn ready_environment(info: &ModemInfo, alsa: Option<&AlsaCard>) -> (r: Vec<
    (&'static str, String),
>)
    ensures
        r@.len() == 8,
        r@[0].0@ == "M2S_MODEM_PATH"@ && r@[0].1@ == info.path@,
        r@[1].0@ == "M2S_DEVICE"@ && r@[1].1@ == info.device@,
        r@[2].0@ == "M2S_IMEI"@ && r@[2].1@ == info.equipment_id@,
        r@[3].0@ == "M2S_PRIMARY_PORT"@ && r@[3].1@ == info.primary_port@,
        r@[4].0@ == "M2S_AT_PORT"@ && r@[4].1@ == if info.at_ports@.len() > 0 {
            info.at_ports@[0]@
        } else {
            seq![]
        },
        r@[5].0@ == "M2S_AT_PORTS"@ && r@[5].1@ == text::join(
            text::texts(info.at_ports@),
            " "@,
        ),
        r@[6].0@ == "M2S_AUDIO_PORTS"@ && r@[6].1@ == text::join(
            text::texts(info.audio_ports@),
            " "@,
        ),
        r@[7].0@ == "M2S_ALSA_DEVICE"@ && r@[7].1@ == match alsa {
            Some(c) => "plughw"@ + ":"@ + c@.id + ",0"@,
            None => seq![],
        },
{
    let first = if info.at_ports.len() > 0 {
        text::owned(info.at_ports[0].as_str())
    } else {
        String::new()
    };
    let card = match alsa {
        Some(c) => c.device_string(true),
        None => String::new(),
    };
    let mut out: Vec<(&'static str, String)> = Vec::new();
    out.push(("M2S_MODEM_PATH", text::owned(info.path.as_str())));
    out.push(("M2S_DEVICE", text::owned(info.device.as_str())));
    out.push(("M2S_IMEI", text::owned(info.equipment_id.as_str())));
    out.push(("M2S_PRIMARY_PORT", text::owned(info.primary_port.as_str())));
    out.push(("M2S_AT_PORT", first));
    out.push(("M2S_AT_PORTS", text::joined(info.at_ports.as_slice(), " ")));
    out.push(("M2S_AUDIO_PORTS", text::joined(info.audio_ports.as_slice(), " ")));
    out.push(("M2S_ALSA_DEVICE", card));
    out
}

// ------------------------------------------------------------------ supervision

/// What the watch on an active modem hears from the bus.
#[derive(Debug)]
pub enum Heard {
    /// Interfaces of an object went away.
    Removed { path: String, modem_interface: bool },
    /// The modem's state changed.
    State(i32),
    CallAdded(String),
    CallDeleted(String),
    SmsAdded { path: String, received: bool },
    /// A bus name has an owner, or none.
    Owner { name: String, owned: bool },
    /// The modem's state at a health check, or why it did not answer.
    Health(Result<i32, String>),
    /// A stream of signals ended.
    Closed(Stream),
}

/// The streams of signals that are watched.
#[derive(Debug, Clone, Copy, PartialEq, Eq, Structural)]
pub enum Stream {
    Objects,
    ModemState,
    CallAdded,
    CallDeleted,
    Messages,
    /// Watched only where the bus allows it.
    Names,
}

/// Why a modem is no longer usable.
#[derive(Debug)]
pub enum Loss {
    Removed,
    StateDropped(i32),
    Unhealthy(i32),
    /// It did not answer, for this reason.
    Unreachable(String),
    ManagerGone,
    StreamClosed(Stream),
}

/// Why a modem is no longer usable, mathematically.
pub enum Cause {
    Removed,
    StateDropped(i32),
    Unhealthy(i32),
    Unreachable(Seq<char>),
    ManagerGone,
    StreamClosed(Stream),
}

impl View for Loss {
    type V = Cause;

    open spec fn view(&self) -> Cause {
        match *self {
            Loss::Removed => Cause::Removed,
            Loss::StateDropped(s) => Cause::StateDropped(s),
            Loss::Unhealthy(s) => Cause::Unhealthy(s),
            Loss::Unreachable(e) => Cause::Unreachable(e@),
            Loss::ManagerGone => Cause::ManagerGone,
            Loss::StreamClosed(s) => Cause::StreamClosed(s),
        }
    }
}

pub open spec fn stream_text(s: Stream) -> Seq<char> {
    match s {
        Stream::Objects => "ObjectManager"@,
        Stream::ModemState => "StateChanged"@,
        Stream::CallAdded => "CallAdded"@,
        Stream::CallDeleted => "CallDeleted"@,
        Stream::Messages => "Messaging.Added"@,
        Stream::Names => "NameOwnerChanged"@,
    }
}

impl Loss {
    /// The reason in words.
    pub fn reason(&self) -> (r: String)
        ensures
            r@ == match *self {
                Loss::Removed => "modem removed from ModemManager"@,
                Loss::StateDropped(s) => "modem state dropped to "@ + state::modem_state_text(s),
                Loss::Unhealthy(s) => "modem state is "@ + state::modem_state_text(s),
                Loss::Unreachable(e) => "modem is unreachable on D-Bus: "@ + e@,
                Loss::ManagerGone => "ModemManager left the bus"@,
                Loss::StreamClosed(s) => stream_text(s) + " stream closed"@,
            },
    {
        match self {
            Loss::Removed => text::owned("modem removed from ModemManager"),
            Loss::StateDropped(s) => {
                let mut out = text::owned("modem state dropped to ");
                out.append(state::modem_state_name(*s));
                out
            },
            Loss::Unhealthy(s) => {
                let mut out = text::owned("modem state is ");
                out.append(state::modem_state_name(*s));
                out
            },
            Loss::Unreachable(e) => {
                let mut out = text::owned("modem is unreachable on D-Bus: ");
                out.append(e.as_str());
                out
            },
            Loss::ManagerGone => text::owned("ModemManager left the bus"),
            Loss::StreamClosed(s) => {
                let mut out = text::owned(
                    match s {
                        Stream::Objects => "ObjectManager",
                        Stream::ModemState => "StateChanged",
                        Stream::CallAdded => "CallAdded",
                        Stream::CallDeleted => "CallDeleted",
                        Stream::Messages => "Messaging.Added",
                        Stream::Names => "NameOwnerChanged",
                    },
                );
                out.append(" stream closed");
                out
            },
        }
    }
}

/// What the watch does about what it heard.
#[derive(Debug)]
pub enum Watch {
    /// Nothing.
    Go,
    /// Watch this call, and tell the gateway of it. A stale watcher for the same path has to go:
    /// ModemManager reuses call object paths.
    Follow(String),
    /// Stop watching this call, and tell the gateway that it is gone.
    Unfollow(String),
    /// Tell the gateway of a message.
    Message { path: String, received: bool },
    /// The modem is no longer usable.
    Lost(Loss),
}

/// What the watch does, mathematically.
pub enum Watched {
    Go,
    Follow(Seq<char>),
    Unfollow(Seq<char>),
    Message { path: Seq<char>, received: bool },
    Lost(Cause),
}

impl View for Watch {
    type V = Watched;

    open spec fn view(&self) -> Watched {
        match *self {
            Watch::Go => Watched::Go,
            Watch::Follow(p) => Watched::Follow(p@),
            Watch::Unfollow(p) => Watched::Unfollow(p@),
            Watch::Message { path, received } => Watched::Message { path: path@, received },
            Watch::Lost(l) => Watched::Lost(l@),
        }
    }
}

pub open spec fn reaction(modem: Seq<char>, h: Heard) -> Watched {
    match h {
        Heard::Removed { path, modem_interface } => if path@ == modem && modem_interface {
            Watched::Lost(Cause::Removed)
        } else {
            Watched::Go
        },
        Heard::State(s) => if state::is_usable(s) {
            Watched::Go
        } else {
            Watched::Lost(Cause::StateDropped(s))
        },
        Heard::CallAdded(p) => Watched::Follow(p@),
        Heard::CallDeleted(p) => Watched::Unfollow(p@),
        Heard::SmsAdded { path, received } => Watched::Message { path: path@, received },
        Heard::Owner { name, owned } => if name@ == proxies::MM_SERVICE@ && !owned {
            Watched::Lost(Cause::ManagerGone)
        } else {
            Watched::Go
        },
        Heard::Health(s) => match s {
            Ok(s) => if state::is_usable(s) {
                Watched::Go
            } else {
                Watched::Lost(Cause::Unhealthy(s))
            },
            Err(e) => Watched::Lost(Cause::Unreachable(e@)),
        },
        Heard::Closed(s) => if s == Stream::Names {
            Watched::Go
        } else {
            Watched::Lost(Cause::StreamClosed(s))
        },
    }
}

/// What to do about something heard while the modem at an object path is watched.
pub fn supervise(modem_path: &str, heard: Heard) -> (r: Watch)
    ensures
        r@ == reaction(modem_path@, heard),
{
    match heard {
        Heard::Removed { path, modem_interface } => if text::str_is(path.as_str(), modem_path)
            && modem_interface {
            Watch::Lost(Loss::Removed)
        } else {
            Watch::Go
        },
        Heard::State(s) => if state::usable(s) {
            Watch::Go
        } else {
            Watch::Lost(Loss::StateDropped(s))
        },
        Heard::CallAdded(p) => Watch::Follow(p),
        Heard::CallDeleted(p) => Watch::Unfollow(p),
        Heard::SmsAdded { path, received } => Watch::Message { path, received },
        Heard::Owner { name, owned } => if text::str_is(name.as_str(), proxies::MM_SERVICE)
            && !owned {
            Watch::Lost(Loss::ManagerGone)
        } else {
            Watch::Go
        },
        Heard::Health(s) => match s {
            Ok(s) => if state::usable(s) {
                Watch::Go
            } else {
                Watch::Lost(Loss::Unhealthy(s))
            },
            Err(e) => Watch::Lost(Loss::Unreachable(e)),
        },
        Heard::Closed(s) => if s == Stream::Names {
            Watch::Go
        } else {
            Watch::Lost(Loss::StreamClosed(s))
        },
    }
}

} // verus!
