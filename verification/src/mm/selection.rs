//! Which modem is taken, and what is made of what is heard of it.
use vstd::prelude::*;

use super::proxies::{call, state};
use super::watcher;
use super::watcher::{Heard, Inspected, Stream, Watched};
use super::{BearerReport, ModemReport};
use crate::config::ModemMatch;
use crate::mms;
use crate::net;
use crate::text;

verus! {

// ------------------------------------------------------------------ the modem that is taken

/// A criterion that is set to more than white space is met by the same text, without regard to case
/// and to white space around it; every other criterion is met by everything.
pub open spec fn agrees(want: Option<String>, have: Seq<char>) -> bool {
    want matches Some(w) ==> (text::trim(w@).len() > 0 ==> text::lower(text::trim(have))
        == text::lower(text::trim(w@)))
}

/// A modem is taken exactly where it meets every criterion that is set. The device is met by one that
/// begins with it or that it begins with, the index by the last piece of the path, and what is asked of
/// the SIM by no modem without one.
pub proof fn law_a_modem_is_taken_by_every_criterion(sel: ModemMatch, m: Inspected)
    ensures
        watcher::matches_selection(sel, m) <==> {
            &&& sel.index matches Some(n) ==> watcher::index_in(m.path@) == Some(n as nat)
            &&& sel.device matches Some(d) ==> (text::trim(d@).len() > 0 ==> m.device@.len() > 0 && (
            text::has_prefix(m.device@, text::trim(d@)) || text::has_prefix(
                text::trim(d@),
                m.device@,
            )))
            &&& agrees(sel.device_id, m.device_id@)
            &&& agrees(
                sel.imei,
                if m.equipment_id@.len() > 0 {
                    m.equipment_id@
                } else {
                    m.imei@
                },
            )
            &&& agrees(sel.primary_port, m.primary_port@)
            &&& match m.sim {
                Some((id, imsi)) => agrees(sel.sim_id, id@) && agrees(sel.imsi, imsi@),
                None => (sel.sim_id matches Some(w) ==> text::trim(w@).len() == 0) && (
                sel.imsi matches Some(w) ==> text::trim(w@).len() == 0),
            }
        },
{
    lemma_trimmed_twice(sel.device_id);
    lemma_trimmed_twice(sel.imei);
    lemma_trimmed_twice(sel.primary_port);
    lemma_trimmed_twice(sel.sim_id);
    lemma_trimmed_twice(sel.imsi);
}

proof fn lemma_trimmed_twice(v: Option<String>)
    ensures
        v matches Some(s) ==> text::trim(text::trim(s@)) == text::trim(s@),
{
    if let Some(s) = v {
        text::lemma_trim_is_trimmed(s@);
        text::lemma_trimmed(text::trim(s@));
    }
}

/// The index of a modem is the number at the end of its path.
pub proof fn law_the_index_ends_the_path(parts: Seq<Seq<char>>, n: u32)
    requires
        forall|i: int| 0 <= i < parts.len() ==> !(#[trigger] parts[i]).contains('/'),
    ensures
        watcher::index_in(text::join(parts.push(text::dec(n as nat)), seq!['/'])) == Some(n as nat),
{
    let d = text::dec(n as nat);
    text::lemma_dec_reads_back(n as nat);
    assert(!d.contains('/')) by {
        assert forall|i: int| 0 <= i < d.len() implies d[i] != '/' by {
            assert(text::is_digit(d[i]));
        }
    }
    let all = parts.push(d);
    assert forall|i: int| 0 <= i < all.len() implies !(#[trigger] all[i]).contains('/') by {
        if i < parts.len() {
            assert(all[i] == parts[i]);
        }
    }
    text::law_join_splits_back(all, '/');
    text::law_decimal_round_trip(n as nat, 0xffff_ffff);
}

/// The modems are tried by their index, the lowest first, and all of them are.
pub proof fn law_modems_are_tried_in_order(paths: Seq<Seq<char>>)
    ensures
        watcher::by_rank(paths).to_multiset() =~= paths.to_multiset(),
        watcher::by_rank(paths).len() == paths.len(),
        forall|i: int, j: int|
            0 <= i <= j < paths.len() ==> watcher::rank(#[trigger] watcher::by_rank(paths)[i])
                <= watcher::rank(#[trigger] watcher::by_rank(paths)[j]),
    decreases paths.len(),
{
    broadcast use vstd::seq_lib::group_to_multiset_ensures;

    if paths.len() > 0 {
        let d = paths.drop_last();
        law_modems_are_tried_in_order(d);
        lemma_put_in_order(watcher::by_rank(d), paths.last());
        assert(paths =~= d.push(paths.last()));
    }
}

proof fn lemma_put_in_order(s: Seq<Seq<char>>, p: Seq<char>)
    requires
        forall|i: int, j: int|
            0 <= i <= j < s.len() ==> watcher::rank(#[trigger] s[i]) <= watcher::rank(
                #[trigger] s[j],
            ),
    ensures
        watcher::with_path(s, p).len() == s.len() + 1,
        watcher::with_path(s, p).to_multiset() =~= s.to_multiset().insert(p),
        forall|i: int, j: int|
            0 <= i <= j < s.len() + 1 ==> watcher::rank(#[trigger] watcher::with_path(s, p)[i])
                <= watcher::rank(#[trigger] watcher::with_path(s, p)[j]),
        forall|i: int|
            0 <= i < s.len() + 1 ==> watcher::rank(#[trigger] watcher::with_path(s, p)[i])
                <= watcher::rank(p) || s.len() > 0 && watcher::rank(watcher::with_path(s, p)[i])
                <= watcher::rank(s.last()),
    decreases s.len(),
{
    broadcast use vstd::seq_lib::group_to_multiset_ensures;

    let r = watcher::with_path(s, p);
    if s.len() == 0 || watcher::rank(s.last()) <= watcher::rank(p) {
        assert forall|i: int, j: int| 0 <= i <= j < s.len() + 1 implies watcher::rank(
            #[trigger] r[i],
        ) <= watcher::rank(#[trigger] r[j]) by {
            if j < s.len() {
                assert(r[i] == s[i] && r[j] == s[j]);
            } else if i < s.len() {
                assert(r[i] == s[i]);
                assert(watcher::rank(s[i]) <= watcher::rank(s[s.len() - 1]));
            }
        }
    } else {
        let d = s.drop_last();
        assert forall|i: int, j: int| 0 <= i <= j < d.len() implies watcher::rank(#[trigger] d[i])
            <= watcher::rank(#[trigger] d[j]) by {
            assert(d[i] == s[i] && d[j] == s[j]);
        }
        lemma_put_in_order(d, p);
        let w = watcher::with_path(d, p);
        assert(s =~= d.push(s.last()));
        assert forall|i: int| 0 <= i < w.len() implies watcher::rank(#[trigger] w[i])
            <= watcher::rank(s.last()) by {
            if d.len() > 0 {
                assert(d.last() == s[s.len() - 2]);
                assert(watcher::rank(s[s.len() - 2]) <= watcher::rank(s[s.len() - 1]));
            }
        }
        assert forall|i: int, j: int| 0 <= i <= j < s.len() + 1 implies watcher::rank(
            #[trigger] r[i],
        ) <= watcher::rank(#[trigger] r[j]) by {
            if j < w.len() {
                assert(r[i] == w[i] && r[j] == w[j]);
            } else if i < w.len() {
                assert(r[i] == w[i]);
            }
        }
    }
}

// ------------------------------------------------------------------ what is heard of it

/// Every call and every message that is reported is followed up under its own path.
pub proof fn law_what_is_reported_is_followed_up(modem: Seq<char>, p: String, received: bool)
    ensures
        watcher::reaction(modem, Heard::CallAdded(p)) == Watched::Follow(p@),
        watcher::reaction(modem, Heard::CallDeleted(p)) == Watched::Unfollow(p@),
        watcher::reaction(modem, Heard::SmsAdded { path: p, received }) == (Watched::Message {
            path: p@,
            received,
        }),
{
}

/// The modem is lost where it is removed, where its state falls below enabled, where it or its manager
/// cannot be reached and where what is to be heard of it ends; what happens to others loses nothing.
pub proof fn law_a_modem_is_lost_for_a_reason(
    modem: Seq<char>,
    path: String,
    interface: bool,
    s: i32,
    name: String,
    owned: bool,
    error: String,
    stream: Stream,
)
    ensures
        watcher::reaction(modem, Heard::Removed { path, modem_interface: interface }) is Lost
            <==> path@ == modem && interface,
        watcher::reaction(modem, Heard::State(s)) is Lost <==> s < 6,
        watcher::reaction(modem, Heard::State(s)) is Go <==> s >= 6,
        watcher::reaction(modem, Heard::Health(Ok(s))) is Lost <==> s < 6,
        watcher::reaction(modem, Heard::Health(Err(error))) is Lost,
        watcher::reaction(modem, Heard::Owner { name, owned }) is Lost <==> name@
            == "org.freedesktop.ModemManager1"@ && !owned,
        watcher::reaction(modem, Heard::Closed(stream)) is Lost <==> stream != Stream::Names,
{
}

// ------------------------------------------------------------------ the bearer that is used

/// The bearer that is used is the first that is connected and has an interface; there is none exactly
/// where none is.
pub proof fn law_the_first_bearer_is_used(b: Seq<BearerReport>, i: int)
    requires
        0 <= i < b.len(),
        b[i].connected && b[i].interface@.len() > 0,
        forall|j: int| 0 <= j < i ==> !(#[trigger] b[j].connected && b[j].interface@.len() > 0),
    ensures
        super::first_bearer(b) == Some(b[i]),
    decreases i,
{
    if i > 0 {
        let r = b.skip(1);
        assert(r[i - 1] == b[i]);
        assert forall|j: int| 0 <= j < i - 1 implies !(#[trigger] r[j].connected
            && r[j].interface@.len() > 0) by {
            assert(r[j] == b[j + 1]);
        }
        assert(!(b[0].connected && b[0].interface@.len() > 0));
        law_the_first_bearer_is_used(r, i - 1);
    }
}

/// Of the texts that are to be addresses those that are, are used, in their order; of the digits that
/// are to be dialled all but white space is.
pub proof fn law_what_can_be_used_is_used(t: Seq<Seq<char>>, digits: Seq<char>)
    ensures
        super::addresses(t) == t.filter(|x: Seq<char>| net::ip_of(x).is_some()).map_values(
            |x: Seq<char>| net::ip_of(x).unwrap(),
        ),
        super::digits_of(digits) == digits.filter(|c: char| !text::is_space(c)),
    decreases t.len() + digits.len(),
{
    reveal(Seq::filter);
    let p = |x: Seq<char>| net::ip_of(x).is_some();
    let f = |x: Seq<char>| net::ip_of(x).unwrap();
    if t.len() > 0 {
        law_what_can_be_used_is_used(t.drop_last(), digits);
        if p(t.last()) {
            assert(t.filter(p).map_values(f) =~= t.drop_last().filter(p).map_values(f).push(
                f(t.last()),
            ));
        }
    } else {
        assert(super::addresses(t) =~= t.filter(p).map_values(f));
        if digits.len() > 0 {
            law_what_can_be_used_is_used(t, digits.drop_last());
        }
    }
}

// ------------------------------------------------------------------ what is known of a modem

/// The ports of a kind are those that are reported with it, in their order, each behind the prefix.
pub proof fn law_ports_are_told_by_their_kind(ports: Seq<(String, u32)>, kind: u32, prefix: Seq<char>)
    ensures
        super::ports_of(ports, kind, prefix) == ports.filter(
            |p: (String, u32)| p.1 == kind,
        ).map_values(|p: (String, u32)| prefix + p.0@),
    decreases ports.len(),
{
    reveal(Seq::filter);
    let of_kind = |p: (String, u32)| p.1 == kind;
    let name = |p: (String, u32)| prefix + p.0@;
    if ports.len() > 0 {
        law_ports_are_told_by_their_kind(ports.drop_last(), kind, prefix);
        if of_kind(ports.last()) {
            assert(ports.filter(of_kind).map_values(name) =~= ports.drop_last().filter(
                of_kind,
            ).map_values(name).push(name(ports.last())));
        }
    } else {
        assert(super::ports_of(ports, kind, prefix) =~= ports.filter(of_kind).map_values(name));
    }
}

/// The operator is the one that the network names, the one on the SIM where it names none, and none
/// where neither does.
pub proof fn law_the_network_names_the_operator(r: ModemReport)
    ensures
        ({
            let named = r.network matches Some(n) && n.operator matches Some(o) && o@.len() > 0;
            &&& r.network matches Some(n) ==> (n.operator matches Some(o) ==> (o@.len() > 0
                ==> super::operator_of(r) == Some(o@)))
            &&& !named ==> (r.sim matches Some(s) ==> (s.operator matches Some(o) ==> (o@.len() > 0
                ==> super::operator_of(r) == Some(o@))))
            &&& !named && !(r.sim matches Some(s) && s.operator matches Some(o) && o@.len() > 0)
                ==> super::operator_of(r).is_none()
        }),
{
}

/// The equipment is known by its own identifier, and by the network's for it only where that is empty.
pub proof fn law_the_equipment_is_known_by_its_identifier(r: ModemReport)
    ensures
        r.equipment_id@.len() > 0 ==> super::equipment_of(r) == r.equipment_id@,
        r.equipment_id@.len() == 0 ==> (r.network matches Some(n) ==> super::equipment_of(r)
            == n.imei@),
{
}

/// A binary message without a text that is a push is taken for one, and no other.
pub proof fn law_a_push_has_no_text(t: Seq<char>, data: Seq<u8>)
    ensures
        t.len() > 0 ==> !super::is_binary_push(t, data),
        t.len() == 0 ==> super::is_binary_push(t, data) == mms::is_push(data),
{
}

/// The states of a modem and of a call are called as ModemManager calls them.
pub proof fn law_states_have_their_names(s: i32)
    ensures
        s == -1 ==> state::modem_state_text(s) == "failed"@,
        s == 2 ==> state::modem_state_text(s) == "locked"@,
        s == 3 ==> state::modem_state_text(s) == "disabled"@,
        s == 6 ==> state::modem_state_text(s) == "enabled"@,
        s == 7 ==> state::modem_state_text(s) == "searching"@,
        s == 8 ==> state::modem_state_text(s) == "registered"@,
        s == 11 ==> state::modem_state_text(s) == "connected"@,
        state::is_usable(s) <==> s >= 6,
        s == 1 ==> call::state_text(s) == "dialing"@,
        s == 2 ==> call::state_text(s) == "ringing-out"@,
        s == 3 ==> call::state_text(s) == "ringing-in"@,
        s == 4 ==> call::state_text(s) == "active"@,
        s == 5 ==> call::state_text(s) == "held"@,
        s == 6 ==> call::state_text(s) == "waiting"@,
        s == 7 ==> call::state_text(s) == "terminated"@,
{
}

} // verus!
