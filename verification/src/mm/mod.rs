//! ModemManager: what the gateway knows of the modem it owns, and how it finds and watches it.
pub mod proxies;
pub mod selection;
pub mod watcher;

use vstd::prelude::*;

use crate::mms;
use crate::net;
use crate::net::IpAddr;
use crate::text;

verus! {

/// Everything the gateway needs to know about the modem it owns.
#[derive(Debug)]
pub struct ModemInfo {
    pub path: String,
    pub device: String,
    pub device_id: String,
    pub equipment_id: String,
    pub manufacturer: String,
    pub model: String,
    pub revision: String,
    pub primary_port: String,
    /// Ports ModemManager classified as AT.
    pub at_ports: Vec<String>,
    /// Ports ModemManager classified as audio, if the driver reports any.
    pub audio_ports: Vec<String>,
    pub own_number: Option<String>,
    pub sim_id: Option<String>,
    pub imsi: Option<String>,
    pub operator: Option<String>,
}

impl Default for ModemInfo {
    fn default() -> (r: Self)
        ensures
            r.path@.len() == 0 && r.device@.len() == 0 && r.device_id@.len() == 0,
            r.equipment_id@.len() == 0 && r.manufacturer@.len() == 0 && r.model@.len() == 0,
            r.revision@.len() == 0 && r.primary_port@.len() == 0,
            r.at_ports@.len() == 0 && r.audio_ports@.len() == 0,
            r.own_number.is_none() && r.sim_id.is_none() && r.imsi.is_none()
                && r.operator.is_none(),
    {
        ModemInfo {
            path: String::new(),
            device: String::new(),
            device_id: String::new(),
            equipment_id: String::new(),
            manufacturer: String::new(),
            model: String::new(),
            revision: String::new(),
            primary_port: String::new(),
            at_ports: Vec::new(),
            audio_ports: Vec::new(),
            own_number: None,
            sim_id: None,
            imsi: None,
            operator: None,
        }
    }
}

/// Where MMS traffic should be sourced from, and who resolves its names.
#[derive(Debug)]
pub struct BearerNet {
    pub interface: String,
    pub address: Option<IpAddr>,
    /// The operator's resolvers, which are usually the only ones that know the MMSC host names.
    pub dns: Vec<IpAddr>,
}

#[derive(Debug)]
pub struct CallInfo {
    pub path: String,
    pub number: String,
    pub direction: i32,
    pub state: i32,
    pub audio_port: Option<String>,
}

#[derive(Debug)]
pub struct SmsInfo {
    pub path: String,
    pub state: u32,
    pub pdu_type: u32,
    pub number: String,
    pub text: String,
    pub data: Vec<u8>,
    pub timestamp: Option<String>,
    pub smsc: Option<String>,
    pub class: i32,
}

pub open spec fn is_binary_push(text: Seq<char>, data: Seq<u8>) -> bool {
    text.len() == 0 && mms::is_push(data)
}

impl SmsInfo {
    /// A binary SMS with no text is (almost always) a WAP push, i.e. an MMS notification.
    pub fn looks_like_wap_push(&self) -> (r: bool)
        ensures
            r == is_binary_push(self.text@, self.data@),
    {
        text::chars_of(self.text.as_str()).len() == 0 && mms::is_wap_push(self.data.as_slice())
    }
}

// ------------------------------------------------------------------ reading a modem

/// The number of a port that takes AT commands.
pub const PORT_AT: u32 = 3;

/// The number of a port that carries audio.
pub const PORT_AUDIO: u32 = 8;

/// The names of the ports of a kind, behind a prefix.
pub open spec fn ports_of(ports: Seq<(String, u32)>, kind: u32, prefix: Seq<char>) -> Seq<Seq<char>>
    decreases ports.len(),
{
    if ports.len() == 0 {
        seq![]
    } else if ports.last().1 == kind {
        ports_of(ports.drop_last(), kind, prefix).push(prefix + ports.last().0@)
    } else {
        ports_of(ports.drop_last(), kind, prefix)
    }
}

/// A text, unless it is empty.
pub open spec fn unless_empty(v: Option<Seq<char>>) -> Option<Seq<char>> {
    match v {
        Some(s) => if s.len() > 0 {
            Some(s)
        } else {
            None
        },
        None => None,
    }
}

/// What the bus says of a SIM.
#[derive(Debug)]
pub struct SimReport {
    pub sim_id: Option<String>,
    pub imsi: Option<String>,
    pub operator: Option<String>,
}

/// What the bus says of the 3GPP side of a modem.
#[derive(Debug)]
pub struct NetworkReport {
    pub imei: String,
    pub operator: Option<String>,
}

/// What the bus says of a modem.
#[derive(Debug)]
pub struct ModemReport {
    pub path: String,
    pub device: String,
    pub device_id: String,
    pub equipment_id: String,
    pub manufacturer: String,
    pub model: String,
    pub revision: String,
    pub primary_port: String,
    pub own_numbers: Vec<String>,
    pub ports: Vec<(String, u32)>,
    pub sim: Option<SimReport>,
    pub network: Option<NetworkReport>,
}

/// The network's name for itself, or the one on the SIM.
pub open spec fn operator_of(r: ModemReport) -> Option<Seq<char>> {
    let from_network = match r.network {
        Some(n) => unless_empty(text::opt_text(n.operator)),
        None => None,
    };
    match from_network {
        Some(o) => Some(o),
        None => match r.sim {
            Some(s) => unless_empty(text::opt_text(s.operator)),
            None => None,
        },
    }
}

/// The modem's own identifier, or the one the network side gives.
pub open spec fn equipment_of(r: ModemReport) -> Seq<char> {
    match r.network {
        Some(n) => if r.equipment_id@.len() == 0 {
            n.imei@
        } else {
            r.equipment_id@
        },
        None => r.equipment_id@,
    }
}

fn pick_ports(ports: &Vec<(String, u32)>, kind: u32, prefix: &str) -> (r: Vec<String>)
    ensures
        text::texts(r@) == ports_of(ports@, kind, prefix@),
{
    let mut out: Vec<String> = Vec::new();
    let mut i: usize = 0;
    assert(text::texts(out@) =~= ports_of(ports@.take(0), kind, prefix@));
    while i < ports.len()
        invariant
            i <= ports@.len(),
            text::texts(out@) == ports_of(ports@.take(i as int), kind, prefix@),
        decreases ports@.len() - i,
    {
        assert(ports@.take(i + 1).drop_last() =~= ports@.take(i as int));
        if ports[i].1 == kind {
            let ghost so_far = text::texts(out@);
            let mut name = text::owned(prefix);
            name.append(ports[i].0.as_str());
            let ghost v = name@;
            out.push(name);
            assert(text::texts(out@) =~= so_far.push(v));
        }
        i += 1;
    }
    assert(ports@.take(i as int) =~= ports@);
    out
}

fn non_empty(v: &Option<String>) -> (r: Option<String>)
    ensures
        text::opt_text(r) == unless_empty(text::opt_text(*v)),
{
    match v {
        Some(s) => if text::chars_of(s.as_str()).len() > 0 {
            Some(text::owned(s.as_str()))
        } else {
            None
        },
        None => None,
    }
}

/// The modem as the gateway knows it, from what the bus says.
pub fn read_info(r: &ModemReport) -> (info: ModemInfo)
    ensures
        info.path@ == r.path@ && info.device@ == r.device@ && info.device_id@ == r.device_id@,
        info.manufacturer@ == r.manufacturer@ && info.model@ == r.model@,
        info.revision@ == r.revision@ && info.primary_port@ == r.primary_port@,
        info.equipment_id@ == equipment_of(*r),
        text::texts(info.at_ports@) == ports_of(r.ports@, PORT_AT, "/dev/"@),
        text::texts(info.audio_ports@) == ports_of(r.ports@, PORT_AUDIO, ""@),
        text::opt_text(info.own_number) == if r.own_numbers@.len() > 0 {
            Some(r.own_numbers@[0]@)
        } else {
            None
        },
        text::opt_text(info.sim_id) == match r.sim {
            Some(s) => unless_empty(text::opt_text(s.sim_id)),
            None => None,
        },
        text::opt_text(info.imsi) == match r.sim {
            Some(s) => unless_empty(text::opt_text(s.imsi)),
            None => None,
        },
        text::opt_text(info.operator) == operator_of(*r),
{
    let equipment_id = match &r.network {
        Some(n) => if text::chars_of(r.equipment_id.as_str()).len() == 0 {
            text::owned(n.imei.as_str())
        } else {
            text::owned(r.equipment_id.as_str())
        },
        None => text::owned(r.equipment_id.as_str()),
    };
    let (sim_id, imsi, sim_operator) = match &r.sim {
        Some(s) => (non_empty(&s.sim_id), non_empty(&s.imsi), non_empty(&s.operator)),
        None => (None, None, None),
    };
    let network_operator = match &r.network {
        Some(n) => non_empty(&n.operator),
        None => None,
    };
    ModemInfo {
        path: text::owned(r.path.as_str()),
        device: text::owned(r.device.as_str()),
        device_id: text::owned(r.device_id.as_str()),
        equipment_id,
        manufacturer: text::owned(r.manufacturer.as_str()),
        model: text::owned(r.model.as_str()),
        revision: text::owned(r.revision.as_str()),
        primary_port: text::owned(r.primary_port.as_str()),
        at_ports: pick_ports(&r.ports, PORT_AT, "/dev/"),
        audio_ports: pick_ports(&r.ports, PORT_AUDIO, ""),
        own_number: if r.own_numbers.len() > 0 {
            Some(text::owned(r.own_numbers[0].as_str()))
        } else {
            None
        },
        sim_id,
        imsi,
        operator: match network_operator {
            Some(o) => Some(o),
            None => sim_operator,
        },
    }
}

// ------------------------------------------------------------------ bearers

/// What the bus says of a bearer.
#[derive(Debug)]
pub struct BearerReport {
    pub connected: bool,
    pub interface: String,
    pub address: Option<String>,
    /// The resolvers, in their order, where they are given.
    pub dns: Vec<String>,
}

/// A bearer that carries data.
pub open spec fn carries_data(b: BearerReport) -> bool {
    b.connected && b.interface@.len() > 0
}

/// The first bearer that carries data.
pub open spec fn first_bearer(b: Seq<BearerReport>) -> Option<BearerReport>
    decreases b.len(),
{
    if b.len() == 0 {
        None
    } else if carries_data(b[0]) {
        Some(b[0])
    } else {
        first_bearer(b.skip(1))
    }
}

/// The addresses among some texts.
pub open spec fn addresses(t: Seq<Seq<char>>) -> Seq<IpAddr>
    decreases t.len(),
{
    if t.len() == 0 {
        seq![]
    } else {
        match net::ip_of(t.last()) {
            Some(ip) => addresses(t.drop_last()).push(ip),
            None => addresses(t.drop_last()),
        }
    }
}

/// The address that a text gives, if any.
pub open spec fn address_in(v: Option<Seq<char>>) -> Option<IpAddr> {
    match v {
        Some(s) => net::ip_of(s),
        None => None,
    }
}

fn read_addresses(t: &Vec<String>) -> (r: Vec<IpAddr>)
    ensures
        r@ == addresses(text::texts(t@)),
{
    let ghost all = text::texts(t@);
    let mut out: Vec<IpAddr> = Vec::new();
    let mut i: usize = 0;
    assert(out@ =~= addresses(all.take(0)));
    while i < t.len()
        invariant
            i <= t@.len(),
            all == text::texts(t@),
            out@ == addresses(all.take(i as int)),
        decreases t@.len() - i,
    {
        assert(all.take(i + 1).drop_last() =~= all.take(i as int));
        assert(all.take(i + 1).last() == t@[i as int]@);
        if let Some(ip) = net::parse_ip(t[i].as_str()) {
            out.push(ip);
        }
        i += 1;
    }
    assert(all.take(i as int) =~= all);
    out
}

/// The connected data bearer's network interface, address and resolvers.
///
/// MMS has to leave through the modem, and the address changes on every attach, so it is looked up
/// when it is needed rather than configured.
pub fn data_bearer(bearers: &Vec<BearerReport>) -> (r: Option<BearerNet>)
    ensures
        match (r, first_bearer(bearers@)) {
            (Some(n), Some(b)) => n.interface@ == b.interface@ && n.address == address_in(
                text::opt_text(b.address),
            ) && n.dns@ == addresses(text::texts(b.dns@)),
            (None, None) => true,
            _ => false,
        },
{
    let mut i: usize = 0;
    assert(bearers@.skip(0) =~= bearers@);
    while i < bearers.len()
        invariant
            i <= bearers@.len(),
            first_bearer(bearers@.skip(i as int)) == first_bearer(bearers@),
        decreases bearers@.len() - i,
    {
        let b = &bearers[i];
        assert(bearers@.skip(i as int)[0] == *b);
        assert(bearers@.skip(i as int).skip(1) =~= bearers@.skip(i + 1));
        if b.connected && text::chars_of(b.interface.as_str()).len() > 0 {
            return Some(
                BearerNet {
                    interface: text::owned(b.interface.as_str()),
                    address: match &b.address {
                        Some(a) => net::parse_ip(a.as_str()),
                        None => None,
                    },
                    dns: read_addresses(&b.dns),
                },
            );
        }
        i += 1;
    }
    None
}

// ------------------------------------------------------------------ digits

/// The digits to signal: all but white space.
pub open spec fn digits_of(s: Seq<char>) -> Seq<char>
    decreases s.len(),
{
    if s.len() == 0 {
        seq![]
    } else if text::is_space(s.last()) {
        digits_of(s.drop_last())
    } else {
        digits_of(s.drop_last()).push(s.last())
    }
}

/// The digits to signal, one by one.
pub fn dtmf_digits(digits: &str) -> (r: Vec<char>)
    ensures
        r@ == digits_of(digits@),
{
    let c = text::chars_of(digits);
    let mut out: Vec<char> = Vec::new();
    let mut i: usize = 0;
    assert(out@ =~= digits_of(c@.take(0)));
    while i < c.len()
        invariant
            i <= c@.len(),
            out@ == digits_of(c@.take(i as int)),
        decreases c@.len() - i,
    {
        assert(c@.take(i + 1).drop_last() =~= c@.take(i as int));
        if !text::space(c[i]) {
            out.push(c[i]);
        }
        i += 1;
    }
    assert(c@.take(i as int) =~= c@);
    out
}

} // verus!
