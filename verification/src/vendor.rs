//! Vendor audio-path setup over the modem's AT port.
//!
//! Everything else drives the modem through ModemManager's own interfaces. This is the one deliberate
//! exception, because there is no D-Bus API for it: Quectel modems keep their USB voice stream
//! switched off (`AT+QPCMV=0`) even when the digital audio interface is already set to USB
//! (`AT+QDAI: 5`), so calls connect but carry no audio at all.
//!
//! Only queries and `AT+QPCMV=1,2` are ever sent: through ModemManager where it relays commands, and
//! otherwise on a port ModemManager itself classified as AT. Set
//! `audio.vendor_audio_setup = "never"` to disable this entirely.
use vstd::prelude::*;

use crate::mm::ModemInfo;
use crate::text;

verus! {

#[derive(Debug, Clone, Copy, PartialEq, Eq, Structural)]
pub enum VendorAudioSetup {
    /// Apply the fix on modems that need it (currently: Quectel).
    Auto,
    /// Always try, whatever the modem reports itself as.
    Always,
    /// Never touch an AT port.
    Never,
}

impl Default for VendorAudioSetup {
    fn default() -> (r: Self)
        ensures
            r == VendorAudioSetup::Auto,
    {
        VendorAudioSetup::Auto
    }
}

/// The beginnings of the names of Quectel models.
pub open spec fn quectel_prefixes() -> Seq<Seq<char>> {
    seq!["EC2"@, "EC1"@, "EP0"@, "EG2"@, "EG9"@, "EM0"@, "BG9"@, "RM5"@]
}

pub open spec fn is_quectel_name(model: Seq<char>) -> bool {
    exists|i: int|
        0 <= i < 8 && text::has_prefix(text::upper(model), #[trigger] quectel_prefixes()[i])
}

/// A modem that the setup is meant for.
pub open spec fn is_quectel(info: ModemInfo) -> bool {
    text::find_text(text::lower(info.manufacturer@), "quectel"@) >= 0 || is_quectel_name(
        info.model@,
    )
}

pub open spec fn setup_applies(mode: VendorAudioSetup, info: ModemInfo) -> bool {
    info.at_ports@.len() > 0 && match mode {
        VendorAudioSetup::Never => false,
        VendorAudioSetup::Always => true,
        VendorAudioSetup::Auto => is_quectel(info),
    }
}

pub fn is_quectel_model(model: &str) -> (r: bool)
    ensures
        r == is_quectel_name(model@),
{
    let c = text::chars_of(model);
    let u = text::uppercase(c.as_slice());
    let m = u.as_slice();
    let r = text::starts_with(m, "EC2") || text::starts_with(m, "EC1") || text::starts_with(
        m,
        "EP0",
    ) || text::starts_with(m, "EG2") || text::starts_with(m, "EG9") || text::starts_with(m, "EM0")
        || text::starts_with(m, "BG9") || text::starts_with(m, "RM5");
    proof {
        let p = quectel_prefixes();
        assert(p[0] == "EC2"@ && p[1] == "EC1"@ && p[2] == "EP0"@ && p[3] == "EG2"@);
        assert(p[4] == "EG9"@ && p[5] == "EM0"@ && p[6] == "BG9"@ && p[7] == "RM5"@);
    }
    r
}

/// Does this modem need (and tolerate) the USB voice path being switched on?
pub fn applies(mode: VendorAudioSetup, info: &ModemInfo) -> (r: bool)
    ensures
        r == setup_applies(mode, *info),
{
    if info.at_ports.len() == 0 {
        return false;
    }
    match mode {
        VendorAudioSetup::Never => false,
        VendorAudioSetup::Always => true,
        VendorAudioSetup::Auto => {
            let c = text::chars_of(info.manufacturer.as_str());
            text::contains_text(text::lowercase(c.as_slice()).as_slice(), "quectel")
                || is_quectel_model(info.model.as_str())
        },
    }
}

// ------------------------------------------------------------------ replies

/// What a reply so far says of its command.
#[derive(Debug)]
pub enum Reply {
    /// It was carried out.
    Done,
    /// It was refused; the reply on one line.
    Refused(String),
    /// There is more to come.
    Incomplete,
}

/// A text with its line ends turned to spaces.
pub open spec fn on_one_line(s: Seq<char>) -> Seq<char> {
    s.map_values(
        |c: char|
            if c == '\r' || c == '\n' {
                ' '
            } else {
                c
            },
    )
}

/// What a reply collected so far says of its command.
pub fn read_reply(reply: &str) -> (r: Reply)
    ensures
        match r {
            Reply::Done => text::find_text(reply@, "OK"@) >= 0,
            Reply::Refused(t) => text::find_text(reply@, "OK"@) < 0 && text::find_text(
                reply@,
                "ERROR"@,
            ) >= 0 && t@ == on_one_line(text::trim(reply@)),
            Reply::Incomplete => text::find_text(reply@, "OK"@) < 0 && text::find_text(
                reply@,
                "ERROR"@,
            ) < 0,
        },
{
    let c = text::chars_of(reply);
    let s = c.as_slice();
    if text::contains_text(s, "OK") {
        return Reply::Done;
    }
    if !text::contains_text(s, "ERROR") {
        return Reply::Incomplete;
    }
    let t = text::trimmed(s);
    let mut out: Vec<char> = Vec::new();
    let mut i: usize = 0;
    while i < t.len()
        invariant
            i <= t@.len(),
            out@ =~= on_one_line(t@.take(i as int)),
        decreases t@.len() - i,
    {
        let ch = t[i];
        out.push(
            if ch == '\r' || ch == '\n' {
                ' '
            } else {
                ch
            },
        );
        assert(t@.take(i + 1) =~= t@.take(i as int).push(ch));
        i += 1;
    }
    assert(t@.take(i as int) =~= t@);
    Reply::Refused(text::string_of(out.as_slice()))
}

/// What follows a prefix on the first line that has it, leaving spaces at its ends aside.
pub open spec fn line_after(lines: Seq<Seq<char>>, prefix: Seq<char>) -> Option<Seq<char>>
    decreases lines.len(),
{
    if lines.len() == 0 {
        None
    } else {
        match text::after_prefix(text::trim(lines[0]), prefix) {
            Some(v) => Some(v),
            None => line_after(lines.skip(1), prefix),
        }
    }
}

/// The digital audio interface that a reply to `AT+QDAI?` gives.
pub open spec fn interface_in(reply: Seq<char>) -> Option<nat> {
    match line_after(text::lines(reply), "+QDAI:"@) {
        Some(v) => text::number(text::trim(text::split(text::trim(v), ',')[0]), 0xffff_ffff),
        None => None,
    }
}

/// A reply to `AT+QPCMV?` that says the voice path is on.
pub open spec fn voice_on_in(reply: Seq<char>) -> bool {
    match line_after(text::lines(reply), "+QPCMV:"@) {
        Some(v) => text::trim(v).len() > 0 && text::trim(v)[0] == '1',
        None => false,
    }
}

fn find_line(reply: &str, prefix: &str) -> (r: Option<String>)
    ensures
        text::opt_text(r) == line_after(text::lines(reply@), prefix@),
{
    let c = text::chars_of(reply);
    let lines = text::lines_of(c.as_slice());
    let ghost all = text::slices(lines@);
    let mut i: usize = 0;
    assert(all.skip(0) =~= all);
    while i < lines.len()
        invariant
            i <= lines@.len(),
            all == text::slices(lines@),
            all == text::lines(reply@),
            line_after(all.skip(i as int), prefix@) == line_after(all, prefix@),
        decreases lines@.len() - i,
    {
        assert(all.skip(i as int)[0] == lines@[i as int]@);
        assert(all.skip(i as int).skip(1) =~= all.skip(i + 1));
        if let Some(v) = text::strip_prefix(text::trimmed(lines[i]), prefix) {
            return Some(text::string_of(v));
        }
        i += 1;
    }
    None
}

/// The digital audio interface of the modem; five is USB.
pub fn audio_interface(reply: &str) -> (r: Option<u32>)
    ensures
        text::opt_nat_u32(r) == interface_in(reply@),
{
    match find_line(reply, "+QDAI:") {
        Some(v) => {
            let c = text::chars_of(v.as_str());
            let parts = text::split_at_char(text::trimmed(c.as_slice()), ',');
            assert(text::slices(parts@)[0] == parts@[0]@);
            text::parse_u32(text::trimmed(parts[0]))
        },
        None => None,
    }
}

pub fn voice_is_on(reply: &str) -> (r: bool)
    ensures
        r == voice_on_in(reply@),
{
    match find_line(reply, "+QPCMV:") {
        Some(v) => {
            let c = text::chars_of(v.as_str());
            let t = text::trimmed(c.as_slice());
            t.len() > 0 && t[0] == '1'
        },
        None => false,
    }
}

// ------------------------------------------------------------------ the setup

/// Where commands can be sent.
#[derive(Debug, PartialEq, Eq)]
pub enum Channel {
    /// Through ModemManager, serialised with its own traffic. It refuses unless it was started with
    /// `--debug`.
    Manager,
    /// On an AT port.
    Port(String),
}

/// The places to send commands to, in the order in which they are tried: ModemManager first, then
/// the AT ports, later ones first. ModemManager tends to keep the first AT port for itself, and on
/// Quectel the last one is the spare.
pub fn channels(info: &ModemInfo) -> (r: Vec<Channel>)
    ensures
        r@.len() == if info.at_ports@.len() == 0 {
            0
        } else {
            info.at_ports@.len() + 1
        },
        r@.len() > 0 ==> r@[0] is Manager,
        forall|i: int|
            1 <= i < r@.len() ==> (#[trigger] r@[i] matches Channel::Port(p) && p@
                == info.at_ports@[info.at_ports@.len() - i]@),
{
    let mut out: Vec<Channel> = Vec::new();
    if info.at_ports.len() == 0 {
        return out;
    }
    out.push(Channel::Manager);
    let mut k: usize = info.at_ports.len();
    while k > 0
        invariant
            k <= info.at_ports@.len(),
            out@.len() == info.at_ports@.len() - k + 1,
            out@[0] is Manager,
            forall|i: int|
                1 <= i < out@.len() ==> (#[trigger] out@[i] matches Channel::Port(p) && p@
                    == info.at_ports@[info.at_ports@.len() - i]@),
        decreases k,
    {
        k -= 1;
        out.push(Channel::Port(text::owned(info.at_ports[k].as_str())));
    }
    out
}

/// Where a setup on one channel stands: the command that was sent.
#[derive(Debug, Clone, Copy, PartialEq, Eq, Structural)]
pub enum Setup {
    AskInterface,
    AskVoice,
    Enable,
}

/// What to do next.
#[derive(Debug, Clone, Copy, PartialEq, Eq, Structural)]
pub enum Next {
    Send(Setup),
    /// The voice path was on already.
    AlreadyOn,
    /// The voice path was switched on.
    Enabled,
    /// This channel does not take the commands.
    Failed,
}

pub open spec fn command_text(s: Setup) -> Seq<char> {
    match s {
        Setup::AskInterface => "AT+QDAI?"@,
        Setup::AskVoice => "AT+QPCMV?"@,
        Setup::Enable => "AT+QPCMV=1,2"@,
    }
}

/// The command of a step. In the last one, 1 is enable and 2 is to route the PCM stream over USB.
pub fn command(s: Setup) -> (r: &'static str)
    ensures
        r@ == command_text(s),
{
    match s {
        Setup::AskInterface => "AT+QDAI?",
        Setup::AskVoice => "AT+QPCMV?",
        Setup::Enable => "AT+QPCMV=1,2",
    }
}

pub open spec fn setup_next(s: Setup, reply: Option<Seq<char>>, force: bool) -> Next {
    match s {
        Setup::AskInterface => Next::Send(
            if force {
                Setup::Enable
            } else {
                Setup::AskVoice
            },
        ),
        Setup::AskVoice => match reply {
            Some(t) => if voice_on_in(t) {
                Next::AlreadyOn
            } else {
                Next::Send(Setup::Enable)
            },
            None => Next::Send(Setup::Enable),
        },
        Setup::Enable => if reply.is_some() {
            Next::Enabled
        } else {
            Next::Failed
        },
    }
}

/// What to do once a command was answered, or refused (no reply). The queries are allowed to fail;
/// the digital audio interface is a persistent setting whose change needs a modem reset, so it is
/// only asked for.
pub fn configure_port(s: Setup, reply: Option<&str>, force: bool) -> (r: Next)
    ensures
        r == setup_next(s, text::opt_str(reply), force),
{
    match s {
        Setup::AskInterface => Next::Send(
            if force {
                Setup::Enable
            } else {
                Setup::AskVoice
            },
        ),
        Setup::AskVoice => match reply {
            Some(t) => if voice_is_on(t) {
                Next::AlreadyOn
            } else {
                Next::Send(Setup::Enable)
            },
            None => Next::Send(Setup::Enable),
        },
        Setup::Enable => match reply {
            Some(_) => Next::Enabled,
            None => Next::Failed,
        },
    }
}

/// A setup sends each command at most once, whatever is replied, and the one that writes only where
/// the voice path was not found on.
pub proof fn law_a_setup_ends(s: Setup, reply: Option<Seq<char>>, force: bool)
    ensures
        match setup_next(s, reply, force) {
            Next::Send(t) => match s {
                Setup::AskInterface => t != Setup::AskInterface,
                Setup::AskVoice => t == Setup::Enable,
                Setup::Enable => false,
            },
            _ => true,
        },
        s == Setup::AskVoice && reply.is_some() && voice_on_in(reply.unwrap()) ==> setup_next(
            s,
            reply,
            force,
        ) == Next::AlreadyOn,
{
}

/// Nothing is written but the switch of the voice path: every other command only asks. The audio
/// interface in particular is never changed; that one is persistent and needs a reset.
pub proof fn law_only_the_voice_path_is_written(s: Setup)
    ensures
        command_text(s).last() == '?' || command_text(s) == "AT+QPCMV=1,2"@,
        command_text(s).last() == '?' <==> s != Setup::Enable,
{
    reveal_strlit("AT+QDAI?");
    reveal_strlit("AT+QPCMV?");
    reveal_strlit("AT+QPCMV=1,2");
}

/// A modem is set up where it has a port for commands and the setup is asked for: always, or for the
/// modems of the one maker, who are known by the name of the maker or by that of the model.
pub proof fn law_the_setup_is_for_its_maker(mode: VendorAudioSetup, info: ModemInfo)
    ensures
        info.at_ports@.len() == 0 ==> !setup_applies(mode, info),
        mode == VendorAudioSetup::Never ==> !setup_applies(mode, info),
        mode == VendorAudioSetup::Always && info.at_ports@.len() > 0 ==> setup_applies(mode, info),
        mode == VendorAudioSetup::Auto && info.at_ports@.len() > 0 && text::lower(
            info.manufacturer@,
        ) == "quectel"@ ==> setup_applies(mode, info),
{
    let m = text::lower(info.manufacturer@);
    if m == "quectel"@ {
        assert(m.take("quectel"@.len() as int) =~= "quectel"@);
    }
}

/// What a reply says is behind the first line with the name of what was asked, whatever lines stand in
/// front of it.
pub proof fn law_a_reply_is_found_by_its_name(
    lines: Seq<Seq<char>>,
    i: int,
    value: Seq<char>,
    prefix: Seq<char>,
)
    requires
        0 <= i < lines.len(),
        text::trim(lines[i]) == prefix + value,
        forall|j: int| 0 <= j < i ==> !text::has_prefix(text::trim(#[trigger] lines[j]), prefix),
    ensures
        line_after(lines, prefix) == Some(value),
    decreases i,
{
    if i == 0 {
        let t = prefix + value;
        assert(t.take(prefix.len() as int) =~= prefix);
        assert(t.skip(prefix.len() as int) =~= value);
    } else {
        let r = lines.skip(1);
        assert(r[i - 1] == lines[i]);
        assert forall|j: int| 0 <= j < i - 1 implies !text::has_prefix(
            text::trim(#[trigger] r[j]),
            prefix,
        ) by {
            assert(r[j] == lines[j + 1]);
        }
        assert(!text::has_prefix(text::trim(lines[0]), prefix));
        law_a_reply_is_found_by_its_name(r, i - 1, value, prefix);
    }
}

/// The modems of the one maker are known by a maker whose name holds that name, or by a model whose
/// name begins as theirs do, both without regard to case.
pub proof fn law_a_maker_is_known(info: ModemInfo)
    ensures
        is_quectel(info) <==> text::holds(text::lower(info.manufacturer@), "quectel"@) || {
            let model = text::upper(info.model@);
            ||| text::has_prefix(model, "EC2"@) || text::has_prefix(model, "EC1"@)
            ||| text::has_prefix(model, "EP0"@) || text::has_prefix(model, "EG2"@)
            ||| text::has_prefix(model, "EG9"@) || text::has_prefix(model, "EM0"@)
            ||| text::has_prefix(model, "BG9"@) || text::has_prefix(model, "RM5"@)
        },
{
    let m = text::lower(info.manufacturer@);
    text::law_a_text_is_found_where_it_stands(m, "quectel"@);
    let p = quectel_prefixes();
    assert(p[0] == "EC2"@ && p[1] == "EC1"@ && p[2] == "EP0"@ && p[3] == "EG2"@);
    assert(p[4] == "EG9"@ && p[5] == "EM0"@ && p[6] == "BG9"@ && p[7] == "RM5"@);
}

/// The voice path is switched on where it is not found on, and in any case where that is forced; the
/// setup has worked where the switch was answered.
pub proof fn law_the_voice_path_is_switched_on(reply: Option<Seq<char>>, force: bool)
    ensures
        force ==> setup_next(Setup::AskInterface, reply, force) == Next::Send(Setup::Enable),
        !force ==> setup_next(Setup::AskInterface, reply, force) == Next::Send(Setup::AskVoice),
        !(reply matches Some(t) && voice_on_in(t)) ==> setup_next(Setup::AskVoice, reply, force)
            == Next::Send(Setup::Enable),
        reply.is_some() ==> setup_next(Setup::Enable, reply, force) == Next::Enabled,
        reply.is_none() ==> setup_next(Setup::Enable, reply, force) == Next::Failed,
        command_text(Setup::AskInterface) == "AT+QDAI?"@,
        command_text(Setup::AskVoice) == "AT+QPCMV?"@,
        command_text(Setup::Enable) == "AT+QPCMV=1,2"@,
{
}

/// A reply that gives the voice path as one says that it is on, and one that gives it as anything else
/// that it is not.
pub proof fn law_a_one_says_that_it_is_on(reply: Seq<char>, value: Seq<char>, i: int)
    requires
        0 <= i < text::lines(reply).len(),
        text::trim(text::lines(reply)[i]) == "+QPCMV:"@ + value,
        forall|j: int|
            0 <= j < i ==> !text::has_prefix(
                text::trim(#[trigger] text::lines(reply)[j]),
                "+QPCMV:"@,
            ),
    ensures
        voice_on_in(reply) <==> text::trim(value).len() > 0 && text::trim(value)[0] == '1',
{
    law_a_reply_is_found_by_its_name(text::lines(reply), i, value, "+QPCMV:"@);
}

/// The digital audio interface is the first number that the reply gives.
pub proof fn law_the_interface_is_the_first_number(reply: Seq<char>, n: u32, rest: Seq<char>, i: int)
    requires
        0 <= i < text::lines(reply).len(),
        text::trim(text::lines(reply)[i]) == "+QDAI:"@ + (text::dec(n as nat) + (seq![','] + rest)),
        text::is_trimmed(seq![','] + rest),
        forall|j: int|
            0 <= j < i ==> !text::has_prefix(
                text::trim(#[trigger] text::lines(reply)[j]),
                "+QDAI:"@,
            ),
    ensures
        interface_in(reply) == Some(n as nat),
{
    let d = text::dec(n as nat);
    let value = d + (seq![','] + rest);
    law_a_reply_is_found_by_its_name(text::lines(reply), i, value, "+QDAI:"@);
    text::lemma_dec_reads_back(n as nat);
    assert(text::is_digit(d[0]) && text::is_digit(d.last()));
    assert(value[0] == d[0] && value.last() == (seq![','] + rest).last());
    assert(text::is_trimmed(value) && text::is_trimmed(d));
    text::lemma_trimmed(value);
    text::lemma_trimmed(d);
    assert forall|j: int| 0 <= j < d.len() implies value[j] != ',' by {
        assert(text::is_digit(d[j]));
    }
    assert(value[d.len() as int] == ',');
    text::lemma_find_unique(value, ',', d.len() as int);
    assert(value.take(d.len() as int) =~= d);
    assert(text::split(value, ',')[0] == d);
    text::law_decimal_round_trip(n as nat, 0xffff_ffff);
}

} // verus!
