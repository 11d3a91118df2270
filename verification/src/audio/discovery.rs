//! Map a ModemManager modem to its own ALSA card.
//!
//! On a box with several identical modems, "card 1" is meaningless: after a reboot or a replug the
//! numbering moves. ModemManager tells us the sysfs path of the physical device; every ALSA card
//! carries a `device` link back into sysfs. The card whose device link lives under the modem's
//! device path is the modem's card - unambiguous by construction.
use vstd::prelude::*;

use crate::text;

verus! {

#[derive(Debug)]
pub struct AlsaCard {
    pub index: u32,
    /// Short ALSA id, e.g. "Module" or "EC25".
    pub id: String,
    /// Longer human readable name from /proc/asound/cards.
    pub name: String,
    /// Canonical sysfs path of the device backing the card.
    pub device_path: String,
    pub has_playback: bool,
    pub has_capture: bool,
}

/// A card, mathematically.
#[verifier::ext_equal]
pub struct Card {
    pub index: u32,
    pub id: Seq<char>,
    pub name: Seq<char>,
    pub device_path: Seq<char>,
    pub has_playback: bool,
    pub has_capture: bool,
}

impl View for AlsaCard {
    type V = Card;

    open spec fn view(&self) -> Card {
        Card {
            index: self.index,
            id: self.id@,
            name: self.name@,
            device_path: self.device_path@,
            has_playback: self.has_playback,
            has_capture: self.has_capture,
        }
    }
}

pub open spec fn cards_of(v: Seq<AlsaCard>) -> Seq<Card> {
    Seq::new(v.len(), |i: int| v[i]@)
}

pub open spec fn refs_of(v: Seq<&AlsaCard>) -> Seq<Card> {
    Seq::new(v.len(), |i: int| v[i]@)
}

impl Clone for AlsaCard {
    fn clone(&self) -> (r: Self)
        ensures
            r@ == self@,
    {
        AlsaCard {
            index: self.index,
            id: text::owned(self.id.as_str()),
            name: text::owned(self.name.as_str()),
            device_path: text::owned(self.device_path.as_str()),
            has_playback: self.has_playback,
            has_capture: self.has_capture,
        }
    }
}

impl AlsaCard {
    /// ALSA device string for this card. `plughw` lets alsa-lib convert rate and format when the
    /// modem card is picky (many UAC1 modems only do 16 kHz mono S16_LE).
    pub fn device_string(&self, plug: bool) -> (r: String)
        ensures
            r@ == (if plug {
                "plughw"@
            } else {
                "hw"@
            }) + ":"@ + self@.id + ",0"@,
    {
        let mut out = text::owned(
            if plug {
                "plughw"
            } else {
                "hw"
            },
        );
        out.append(":");
        out.append(self.id.as_str());
        out.append(",0");
        out
    }
}

// ------------------------------------------------------------------ paths

/// The components of a path. Repeated and trailing separators make none, nor does a `.` but at the
/// start of a relative path; the root of an absolute path is one.
pub open spec fn components(p: Seq<char>) -> Seq<Seq<char>> {
    let parts = text::split(p, '/');
    if p.len() > 0 && p[0] == '/' {
        seq!["/"@] + proper(parts)
    } else if parts[0] == "."@ {
        seq!["."@] + proper(parts)
    } else {
        proper(parts)
    }
}

pub open spec fn is_proper(part: Seq<char>) -> bool {
    part.len() > 0 && part != "."@
}

pub open spec fn proper(parts: Seq<Seq<char>>) -> Seq<Seq<char>>
    decreases parts.len(),
{
    if parts.len() == 0 {
        seq![]
    } else if is_proper(parts.last()) {
        proper(parts.drop_last()).push(parts.last())
    } else {
        proper(parts.drop_last())
    }
}

/// The path of components.
pub open spec fn path_text(c: Seq<Seq<char>>) -> Seq<char> {
    if c.len() > 0 && c[0] == "/"@ {
        "/"@ + text::join(c.skip(1), "/"@)
    } else {
        text::join(c, "/"@)
    }
}

fn read_components(p: &str) -> (r: Vec<String>)
    ensures
        text::texts(r@) == components(p@),
{
    let c = text::chars_of(p);
    let parts = text::split_at_char(c.as_slice(), '/');
    let ghost all = text::slices(parts@);
    let mut out: Vec<String> = Vec::new();
    if c.len() > 0 && c[0] == '/' {
        out.push(text::owned("/"));
    } else if text::is(parts[0], ".") {
        out.push(text::owned("."));
    }
    let ghost front = text::texts(out@);
    let mut i: usize = 0;
    assert(front + proper(all.take(0)) =~= front);
    while i < parts.len()
        invariant
            i <= parts@.len(),
            all == text::slices(parts@),
            text::texts(out@) == front + proper(all.take(i as int)),
        decreases parts@.len() - i,
    {
        let part = parts[i];
        let ghost so_far = text::texts(out@);
        assert(all.take(i + 1).drop_last() =~= all.take(i as int));
        assert(all.take(i + 1).last() == part@);
        if part.len() > 0 && !text::is(part, ".") {
            out.push(text::string_of(part));
            assert(text::texts(out@) =~= so_far.push(part@));
            assert(text::texts(out@) =~= front + proper(all.take(i + 1)));
        }
        i += 1;
    }
    assert(all.take(i as int) =~= all);
    assert(text::texts(out@) =~= components(p@));
    out
}

/// A path lies at or below another, component by component.
pub open spec fn under(path: Seq<char>, ancestor: Seq<char>) -> bool {
    let p = components(path);
    let a = components(ancestor);
    path.len() > 0 && ancestor.len() > 0 && a.len() <= p.len() && p.take(a.len() as int) == a
}

fn same_texts(a: &Vec<String>, b: &Vec<String>, n: usize) -> (r: bool)
    requires
        n <= a@.len(),
        n <= b@.len(),
    ensures
        r == (text::texts(a@).take(n as int) == text::texts(b@).take(n as int)),
{
    let ghost x = text::texts(a@);
    let ghost y = text::texts(b@);
    let mut i: usize = 0;
    while i < n
        invariant
            i <= n <= a@.len(),
            n <= b@.len(),
            x == text::texts(a@),
            y == text::texts(b@),
            forall|j: int| 0 <= j < i ==> x[j] == y[j],
        decreases n - i,
    {
        if !text::str_is(a[i].as_str(), b[i].as_str()) {
            assert(x.take(n as int)[i as int] != y.take(n as int)[i as int]);
            return false;
        }
        i += 1;
    }
    assert(x.take(n as int) =~= y.take(n as int));
    true
}

pub fn is_under(path: &str, ancestor: &str) -> (r: bool)
    ensures
        r == under(path@, ancestor@),
{
    if text::chars_of(path).len() == 0 || text::chars_of(ancestor).len() == 0 {
        return false;
    }
    let p = read_components(path);
    let a = read_components(ancestor);
    assert(text::texts(a@).take(a@.len() as int) =~= text::texts(a@));
    a.len() <= p.len() && same_texts(&p, &a, a.len())
}

/// The name of a USB device, such as "1-3" or "1-3.4"; an interface looks like "1-3:1.2".
pub open spec fn is_usb_device(name: Seq<char>) -> bool {
    !name.contains(':') && name.contains('-') && name.len() > 0 && text::is_digit(name[0])
}

/// How many components lead to the deepest USB device of a path; none if there is no such device.
pub open spec fn usb_depth(c: Seq<Seq<char>>) -> nat
    decreases c.len(),
{
    if c.len() == 0 {
        0
    } else if is_usb_device(c.last()) {
        c.len()
    } else {
        usb_depth(c.drop_last())
    }
}

/// The deepest USB device on a path.
pub open spec fn usb_root(path: Seq<char>) -> Option<Seq<char>> {
    let c = components(path);
    let n = usb_depth(c);
    if n == 0 {
        None
    } else {
        Some(path_text(c.take(n as int)))
    }
}

fn names_usb_device(name: &str) -> (r: bool)
    ensures
        r == is_usb_device(name@),
{
    let c = text::chars_of(name);
    let s = c.as_slice();
    !text::contains_char(s, ':') && text::contains_char(s, '-') && s.len() > 0 && text::digit(s[0])
}

/// For `/sys/devices/.../usb1/1-3/1-3:1.2` return `/sys/devices/.../usb1/1-3`.
///
/// The walk stops at the first (deepest) device it meets. Continuing to the top would return the hub
/// two identical modems are plugged into, and then both of their cards look like candidates for both
/// of them - exactly the mix-up this whole matching scheme exists to prevent.
pub fn usb_device_root(path: &str) -> (r: Option<String>)
    ensures
        text::opt_text(r) == usb_root(path@),
{
    let mut c = read_components(path);
    let ghost all = text::texts(c@);
    assert(all.take(all.len() as int) =~= all);
    while c.len() > 0
        invariant
            all == components(path@),
            c@.len() <= all.len(),
            text::texts(c@) == all.take(c@.len() as int),
            usb_depth(all.take(c@.len() as int)) == usb_depth(all),
        decreases c@.len(),
    {
        let n = c.len();
        assert(all.take(n as int).last() == c@[n - 1]@);
        assert(all.take(n as int).drop_last() =~= all.take(n - 1));
        if names_usb_device(c[n - 1].as_str()) {
            return Some(path_string(&c));
        }
        let ghost before = c@;
        let _ = c.pop();
        assert(text::texts(c@) =~= all.take(n - 1));
    }
    None
}

fn path_string(c: &Vec<String>) -> (r: String)
    ensures
        r@ == path_text(text::texts(c@)),
{
    let ghost all = text::texts(c@);
    if c.len() > 0 && text::str_is(c[0].as_str(), "/") {
        let tail = vstd::slice::slice_subrange(c.as_slice(), 1, c.len());
        assert(text::texts(tail@) =~= all.skip(1));
        let mut out = text::owned("/");
        out.append(text::joined(tail, "/").as_str());
        out
    } else {
        text::joined(c.as_slice(), "/")
    }
}

proof fn lemma_usb_depth(c: Seq<Seq<char>>)
    ensures
        usb_depth(c) <= c.len(),
        usb_depth(c) > 0 ==> is_usb_device(c[usb_depth(c) - 1]),
        forall|i: int| usb_depth(c) <= i < c.len() ==> !is_usb_device(#[trigger] c[i]),
    decreases c.len(),
{
    if c.len() > 0 && !is_usb_device(c.last()) {
        lemma_usb_depth(c.drop_last());
        assert forall|i: int| usb_depth(c) <= i < c.len() implies !is_usb_device(
            #[trigger] c[i],
        ) by {
            if i < c.len() - 1 {
                assert(c.drop_last()[i] == c[i]);
            }
        }
    }
}

/// The root of a path is a device, and nothing below it on the path is one: two devices behind one
/// hub never share a root.
pub proof fn law_the_root_is_the_deepest_device(c: Seq<Seq<char>>)
    ensures
        usb_depth(c) <= c.len(),
        usb_depth(c) > 0 ==> is_usb_device(c[usb_depth(c) - 1]),
        forall|i: int| usb_depth(c) <= i < c.len() ==> !is_usb_device(#[trigger] c[i]),
{
    lemma_usb_depth(c);
}

// ------------------------------------------------------------------ enumeration

/// The number and the name on a line of /proc/asound/cards, such as
/// ` 1 [Module         ]: USB-Audio - Android`.
pub open spec fn named_card(line: Seq<char>) -> Option<(nat, Seq<char>)> {
    let t = text::trim_start(line);
    let end = text::find_space(t);
    let colon = text::find_text(t, ": "@);
    if end < t.len() && colon >= 0 {
        match text::number(t.take(end), 0xffff_ffff) {
            Some(n) => Some((n, text::trim(t.skip(colon + 2)))),
            None => None,
        }
    } else {
        None
    }
}

/// The name of a card: the last one given.
pub open spec fn long_name(lines: Seq<Seq<char>>, index: nat) -> Option<Seq<char>>
    decreases lines.len(),
{
    if lines.len() == 0 {
        None
    } else {
        match named_card(lines.last()) {
            Some((n, name)) => if n == index {
                Some(name)
            } else {
                long_name(lines.drop_last(), index)
            },
            None => long_name(lines.drop_last(), index),
        }
    }
}

fn read_named_card(line: &[char]) -> (r: Option<(u32, String)>)
    ensures
        match r {
            Some((n, name)) => named_card(line@) == Some((n as nat, name@)),
            None => named_card(line@).is_none(),
        },
{
    let t = text::trimmed_start(line);
    let end = text::space_index(t);
    if end >= t.len() {
        return None;
    }
    let n = match text::parse_u32(text::take(t, end)) {
        Some(n) => n,
        None => {
            return None;
        },
    };
    match text::index_of_text(t, ": ") {
        Some(colon) => {
            proof {
                reveal_strlit(": ");
                text::lemma_find_text(t@, ": "@);
            }
            Some((n, text::string_of(text::trimmed(text::skip(t, colon + 2)))))
        },
        None => None,
    }
}

/// The name of a card in /proc/asound/cards.
pub fn proc_asound_name(content: &str, index: u32) -> (r: Option<String>)
    ensures
        text::opt_text(r) == long_name(text::lines(content@), index as nat),
{
    let c = text::chars_of(content);
    let lines = text::lines_of(c.as_slice());
    let ghost all = text::slices(lines@);
    let mut found: Option<String> = None;
    let mut i: usize = 0;
    while i < lines.len()
        invariant
            i <= lines@.len(),
            all == text::slices(lines@),
            text::opt_text(found) == long_name(all.take(i as int), index as nat),
        decreases lines@.len() - i,
    {
        assert(all.take(i + 1).drop_last() =~= all.take(i as int));
        assert(all.take(i + 1).last() == lines@[i as int]@);
        if let Some((n, name)) = read_named_card(lines[i]) {
            if n == index {
                found = Some(name);
            }
        }
        i += 1;
    }
    assert(all.take(i as int) =~= all);
    found
}

/// What sysfs says of an entry of /sys/class/sound.
#[derive(Debug)]
pub struct SoundEntry {
    /// The name of the entry.
    pub name: String,
    /// What its `id` file holds.
    pub id: Option<String>,
    /// The canonical path of its `device` link; empty where there is none.
    pub device_path: String,
    /// The names of the entries in it.
    pub parts: Vec<String>,
}

pub open spec fn card_number(name: Seq<char>) -> Option<nat> {
    match text::after_prefix(name, "card"@) {
        Some(n) => text::number(n, 0xffff_ffff),
        None => None,
    }
}

/// A part that is a PCM of a direction: `p` for playback, `c` for capture.
pub open spec fn is_pcm(part: Seq<char>, direction: char) -> bool {
    text::has_prefix(part, "pcmC"@) && part.len() > 0 && part.last() == direction
}

pub open spec fn has_pcm(parts: Seq<Seq<char>>, direction: char) -> bool {
    exists|i: int| 0 <= i < parts.len() && is_pcm(#[trigger] parts[i], direction)
}

/// The card of an entry, given the lines of /proc/asound/cards.
pub open spec fn card_of(e: SoundEntry, lines: Seq<Seq<char>>) -> Option<Card> {
    match card_number(e.name@) {
        Some(n) => {
            let id = match e.id {
                Some(s) => text::trim(s@),
                None => text::dec(n),
            };
            Some(
                Card {
                    index: n as u32,
                    id,
                    name: match long_name(lines, n) {
                        Some(name) => name,
                        None => id,
                    },
                    device_path: e.device_path@,
                    has_playback: has_pcm(text::texts(e.parts@), 'p'),
                    has_capture: has_pcm(text::texts(e.parts@), 'c'),
                },
            )
        },
        None => None,
    }
}

/// A list with a card at its place by number, behind the cards of the same number.
pub open spec fn with_card(s: Seq<Card>, c: Card) -> Seq<Card>
    decreases s.len(),
{
    if s.len() == 0 || s.last().index <= c.index {
        s.push(c)
    } else {
        with_card(s.drop_last(), c).push(s.last())
    }
}

/// The cards of the entries, by number.
pub open spec fn sorted_cards(entries: Seq<SoundEntry>, lines: Seq<Seq<char>>) -> Seq<Card>
    decreases entries.len(),
{
    if entries.len() == 0 {
        seq![]
    } else {
        let before = sorted_cards(entries.drop_last(), lines);
        match card_of(entries.last(), lines) {
            Some(c) => with_card(before, c),
            None => before,
        }
    }
}

pub open spec fn in_order(s: Seq<Card>) -> bool {
    forall|i: int, j: int| 0 <= i <= j < s.len() ==> s[i].index <= s[j].index
}

fn any_pcm(parts: &Vec<String>, direction: char) -> (r: bool)
    ensures
        r == has_pcm(text::texts(parts@), direction),
{
    let ghost all = text::texts(parts@);
    let mut i: usize = 0;
    while i < parts.len()
        invariant
            i <= parts@.len(),
            all == text::texts(parts@),
            forall|j: int| 0 <= j < i ==> !is_pcm(#[trigger] all[j], direction),
        decreases parts@.len() - i,
    {
        let c = text::chars_of(parts[i].as_str());
        let s = c.as_slice();
        if text::starts_with(s, "pcmC") && s.len() > 0 && s[s.len() - 1] == direction {
            assert(is_pcm(all[i as int], direction));
            return true;
        }
        assert(!is_pcm(all[i as int], direction));
        i += 1;
    }
    false
}

fn read_card(e: &SoundEntry, names: &str) -> (r: Option<AlsaCard>)
    ensures
        match r {
            Some(c) => card_of(*e, text::lines(names@)) == Some(c@),
            None => card_of(*e, text::lines(names@)).is_none(),
        },
{
    let c = text::chars_of(e.name.as_str());
    let index = match text::strip_prefix(c.as_slice(), "card") {
        Some(n) => match text::parse_u32(n) {
            Some(n) => n,
            None => {
                return None;
            },
        },
        None => {
            return None;
        },
    };
    let id = match &e.id {
        Some(s) => {
            let c = text::chars_of(s.as_str());
            text::string_of(text::trimmed(c.as_slice()))
        },
        None => text::decimal(index as u64),
    };
    let name = match proc_asound_name(names, index) {
        Some(n) => n,
        None => text::owned(id.as_str()),
    };
    Some(
        AlsaCard {
            index,
            id,
            name,
            device_path: text::owned(e.device_path.as_str()),
            has_playback: any_pcm(&e.parts, 'p'),
            has_capture: any_pcm(&e.parts, 'c'),
        },
    )
}

proof fn lemma_with_card_at(s: Seq<Card>, c: Card, i: int)
    requires
        0 <= i <= s.len(),
        i > 0 ==> s[i - 1].index <= c.index,
        forall|j: int| i <= j < s.len() ==> s[j].index > c.index,
    ensures
        with_card(s, c) == s.insert(i, c),
    decreases s.len(),
{
    if i < s.len() {
        lemma_with_card_at(s.drop_last(), c, i);
        assert(with_card(s, c) =~= s.insert(i, c));
    } else {
        assert(s.insert(i, c) =~= s.push(c));
    }
}

fn place_card(cards: &mut Vec<AlsaCard>, c: AlsaCard)
    ensures
        cards_of(final(cards)@) == with_card(cards_of(old(cards)@), c@),
{
    let ghost s = cards_of(cards@);
    let mut i: usize = cards.len();
    while i > 0 && cards[i - 1].index > c.index
        invariant
            i <= cards@.len(),
            s == cards_of(cards@),
            forall|j: int| i <= j < cards@.len() ==> s[j].index > c.index,
        decreases i,
    {
        i -= 1;
    }
    proof {
        assert(i > 0 ==> s[i - 1].index <= c@.index);
        lemma_with_card_at(s, c@, i as int);
    }
    let ghost card = c@;
    cards.insert(i, c);
    assert(cards_of(cards@) =~= s.insert(i as int, card));
}

/// The sound cards present on the system, from what sysfs and /proc/asound/cards say.
pub fn list_cards(entries: &Vec<SoundEntry>, names: &str) -> (r: Vec<AlsaCard>)
    ensures
        cards_of(r@) == sorted_cards(entries@, text::lines(names@)),
{
    let mut out: Vec<AlsaCard> = Vec::new();
    let mut i: usize = 0;
    assert(cards_of(out@) =~= sorted_cards(entries@.take(0), text::lines(names@)));
    while i < entries.len()
        invariant
            i <= entries@.len(),
            cards_of(out@) == sorted_cards(entries@.take(i as int), text::lines(names@)),
        decreases entries@.len() - i,
    {
        assert(entries@.take(i + 1).drop_last() =~= entries@.take(i as int));
        if let Some(c) = read_card(&entries[i], names) {
            place_card(&mut out, c);
        }
        i += 1;
    }
    assert(entries@.take(i as int) =~= entries@);
    out
}

proof fn lemma_with_card(s: Seq<Card>, c: Card)
    requires
        in_order(s),
    ensures
        in_order(with_card(s, c)),
        with_card(s, c).len() == s.len() + 1,
        forall|x: Card| #[trigger] with_card(s, c).contains(x) <==> s.contains(x) || x == c,
    decreases s.len(),
{
    let r = with_card(s, c);
    if s.len() == 0 || s.last().index <= c.index {
        assert forall|x: Card| #[trigger] r.contains(x) <==> s.contains(x) || x == c by {
            assert(r[s.len() as int] == c);
            assert(forall|i: int| 0 <= i < s.len() ==> r[i] == s[i]);
        }
    } else {
        let t = with_card(s.drop_last(), c);
        assert(in_order(s.drop_last()));
        lemma_with_card(s.drop_last(), c);
        assert forall|i: int| 0 <= i < t.len() implies t[i].index <= s.last().index by {
            assert(t.contains(t[i]));
            if t[i] != c {
                let k = choose|k: int| 0 <= k < s.drop_last().len() && s.drop_last()[k] == t[i];
                assert(s[k] == t[i]);
            }
        }
        assert forall|x: Card| #[trigger] r.contains(x) <==> s.contains(x) || x == c by {
            if r.contains(x) {
                let i = choose|i: int| 0 <= i < r.len() && r[i] == x;
                if i < t.len() {
                    assert(t.contains(x)) by {
                        assert(t[i] == x);
                    }
                    if x != c {
                        let k = choose|k: int|
                            0 <= k < s.drop_last().len() && s.drop_last()[k] == x;
                        assert(s[k] == x);
                    }
                } else {
                    assert(s[s.len() - 1] == x);
                }
            }
            if s.contains(x) || x == c {
                if x == s.last() {
                    assert(r[t.len() as int] == x);
                } else {
                    if s.contains(x) {
                        let k = choose|k: int| 0 <= k < s.len() && s[k] == x;
                        assert(s.drop_last()[k] == x);
                    }
                    assert(t.contains(x));
                    let i = choose|i: int| 0 <= i < t.len() && t[i] == x;
                    assert(r[i] == x);
                }
            }
        }
    }
}

/// The cards come out in the order of their numbers, and they are the cards of the entries.
pub proof fn law_cards_are_listed_in_order(entries: Seq<SoundEntry>, lines: Seq<Seq<char>>)
    ensures
        in_order(sorted_cards(entries, lines)),
        forall|x: Card| #[trigger]
            sorted_cards(entries, lines).contains(x) <==> exists|i: int|
                0 <= i < entries.len() && #[trigger] card_of(entries[i], lines) == Some(x),
    decreases entries.len(),
{
    if entries.len() > 0 {
        let front = entries.drop_last();
        let before = sorted_cards(front, lines);
        law_cards_are_listed_in_order(front, lines);
        let last = card_of(entries.last(), lines);
        if let Some(c) = last {
            lemma_with_card(before, c);
        }
        assert forall|x: Card| #[trigger]
            sorted_cards(entries, lines).contains(x) <==> exists|i: int|
                0 <= i < entries.len() && #[trigger] card_of(entries[i], lines) == Some(x) by {
            if before.contains(x) {
                let i = choose|i: int|
                    0 <= i < front.len() && #[trigger] card_of(front[i], lines) == Some(x);
                assert(card_of(entries[i], lines) == Some(x));
            }
            if exists|i: int|
                0 <= i < entries.len() && #[trigger] card_of(entries[i], lines) == Some(x) {
                let i = choose|i: int|
                    0 <= i < entries.len() && #[trigger] card_of(entries[i], lines) == Some(x);
                if i < front.len() {
                    assert(card_of(front[i], lines) == Some(x));
                    assert(before.contains(x));
                } else {
                    assert(entries[i] == entries.last());
                }
            }
            if last == Some(x) {
                assert(card_of(entries[entries.len() - 1], lines) == Some(x));
            }
        }
    }
}

// ------------------------------------------------------------------ matching

/// A card that plays and records.
pub open spec fn is_full(c: Card) -> bool {
    c.has_playback && c.has_capture
}

/// A card whose id or name holds a hint, in any case.
pub open spec fn fits_hint(c: Card, hint: Seq<char>) -> bool {
    text::find_text(text::lower(c.id), text::lower(hint)) >= 0 || text::find_text(
        text::lower(c.name),
        text::lower(hint),
    ) >= 0
}

/// Which cards are looked for.
pub enum Wanted {
    /// Below a device path.
    Under(Seq<char>),
    /// On the same USB device.
    SameUsb(Seq<char>),
    /// By name.
    Hint(Seq<char>),
    /// By name, and playing and recording.
    FullHint(Seq<char>),
}

pub open spec fn is_wanted(c: Card, w: Wanted) -> bool {
    match w {
        Wanted::Under(p) => is_full(c) && under(c.device_path, p),
        Wanted::SameUsb(root) => is_full(c) && usb_root(c.device_path) == Some(root),
        Wanted::Hint(h) => fits_hint(c, h),
        Wanted::FullHint(h) => is_full(c) && fits_hint(c, h),
    }
}

/// The cards that are looked for, in their order.
pub open spec fn select(s: Seq<Card>, w: Wanted) -> Seq<Card>
    decreases s.len(),
{
    if s.len() == 0 {
        seq![]
    } else if is_wanted(s.last(), w) {
        select(s.drop_last(), w).push(s.last())
    } else {
        select(s.drop_last(), w)
    }
}

/// The cards that sysfs ties to a modem. Some drivers anchor the sound card at the USB device while
/// ModemManager reports one of its interfaces (or the other way round), so failing a card below the
/// modem the ones on its USB device are taken.
pub open spec fn candidates(cards: Seq<Card>, modem: Seq<char>) -> Seq<Card> {
    let below = select(cards, Wanted::Under(modem));
    if below.len() > 0 {
        below
    } else {
        match usb_root(modem) {
            Some(root) => select(cards, Wanted::SameUsb(root)),
            None => below,
        }
    }
}

/// Several candidates narrowed by the hint, if it fits any of them.
pub open spec fn narrowed(s: Seq<Card>, hint: Option<Seq<char>>) -> Seq<Card> {
    match hint {
        Some(h) => if s.len() > 1 && select(s, Wanted::Hint(h)).len() > 0 {
            select(s, Wanted::Hint(h))
        } else {
            s
        },
        None => s,
    }
}

/// The card of a modem.
pub open spec fn card_for(cards: Seq<Card>, modem: Seq<char>, hint: Option<Seq<char>>) -> Option<
    Card,
> {
    let found = narrowed(candidates(cards, modem), hint);
    if found.len() > 0 {
        Some(found[0])
    } else {
        match hint {
            Some(h) => {
                let named = select(cards, Wanted::FullHint(h));
                if named.len() > 0 {
                    Some(named[0])
                } else {
                    None
                }
            },
            None => None,
        }
    }
}

/// Which cards are looked for.
enum Wish<'a> {
    Under(&'a str),
    SameUsb(&'a str),
    Hint(&'a str),
    FullHint(&'a str),
}

impl<'a> Wish<'a> {
    spec fn wanted(&self) -> Wanted {
        match *self {
            Wish::Under(p) => Wanted::Under(p@),
            Wish::SameUsb(p) => Wanted::SameUsb(p@),
            Wish::Hint(p) => Wanted::Hint(p@),
            Wish::FullHint(p) => Wanted::FullHint(p@),
        }
    }

    fn grants(&self, c: &AlsaCard) -> (r: bool)
        ensures
            r == is_wanted(c@, self.wanted()),
    {
        match self {
            Wish::Under(p) => c.has_playback && c.has_capture && is_under(
                c.device_path.as_str(),
                p,
            ),
            Wish::SameUsb(root) => c.has_playback && c.has_capture && match usb_device_root(
                c.device_path.as_str(),
            ) {
                Some(r) => text::str_is(r.as_str(), root),
                None => false,
            },
            Wish::Hint(h) => hinted(c, h),
            Wish::FullHint(h) => c.has_playback && c.has_capture && hinted(c, h),
        }
    }
}

fn hinted(c: &AlsaCard, hint: &str) -> (r: bool)
    ensures
        r == fits_hint(c@, hint@),
{
    let h = text::chars_of(hint);
    let low = text::string_of(text::lowercase(h.as_slice()).as_slice());
    let id = text::chars_of(c.id.as_str());
    let name = text::chars_of(c.name.as_str());
    text::contains_text(text::lowercase(id.as_slice()).as_slice(), low.as_str())
        || text::contains_text(text::lowercase(name.as_slice()).as_slice(), low.as_str())
}

fn pick<'a>(cards: &Vec<&'a AlsaCard>, wish: &Wish<'_>) -> (r: Vec<&'a AlsaCard>)
    ensures
        refs_of(r@) == select(refs_of(cards@), wish.wanted()),
{
    let ghost all = refs_of(cards@);
    let mut out: Vec<&'a AlsaCard> = Vec::new();
    let mut i: usize = 0;
    assert(refs_of(out@) =~= select(all.take(0), wish.wanted()));
    while i < cards.len()
        invariant
            i <= cards@.len(),
            all == refs_of(cards@),
            refs_of(out@) == select(all.take(i as int), wish.wanted()),
        decreases cards@.len() - i,
    {
        let c = cards[i];
        assert(all.take(i + 1).drop_last() =~= all.take(i as int));
        assert(all.take(i + 1).last() == c@);
        if wish.grants(c) {
            let ghost so_far = refs_of(out@);
            out.push(c);
            assert(refs_of(out@) =~= so_far.push(c@));
        }
        i += 1;
    }
    assert(all.take(i as int) =~= all);
    out
}

/// Find the card belonging to the modem whose sysfs path is `modem_device`.
///
/// `hint` (config `audio.card_hint`) is only used to disambiguate when the sysfs walk yields more
/// than one candidate, or as a last resort when the modem exposes its audio through an unrelated
/// device node.
pub fn find_for_modem(cards: &Vec<AlsaCard>, modem_device: &str, hint: Option<&str>) -> (r: Option<
    AlsaCard,
>)
    ensures
        match r {
            Some(c) => card_for(cards_of(cards@), modem_device@, text::opt_str(hint)) == Some(c@),
            None => card_for(cards_of(cards@), modem_device@, text::opt_str(hint)).is_none(),
        },
{
    let mut all: Vec<&AlsaCard> = Vec::new();
    let mut i: usize = 0;
    while i < cards.len()
        invariant
            i <= cards@.len(),
            refs_of(all@) =~= cards_of(cards@).take(i as int),
        decreases cards@.len() - i,
    {
        let ghost so_far = refs_of(all@);
        all.push(&cards[i]);
        assert(refs_of(all@) =~= so_far.push(cards@[i as int]@));
        assert(cards_of(cards@).take(i + 1) =~= so_far.push(cards@[i as int]@));
        i += 1;
    }
    assert(refs_of(all@) =~= cards_of(cards@));
    let mut found = pick(&all, &Wish::Under(modem_device));
    if found.len() == 0 {
        if let Some(root) = usb_device_root(modem_device) {
            found = pick(&all, &Wish::SameUsb(root.as_str()));
        }
    }
    assert(refs_of(found@) =~= candidates(cards_of(cards@), modem_device@));
    if found.len() > 1 {
        if let Some(h) = hint {
            let fewer = pick(&found, &Wish::Hint(h));
            if fewer.len() > 0 {
                found = fewer;
            }
        }
    }
    assert(refs_of(found@) =~= narrowed(
        candidates(cards_of(cards@), modem_device@),
        text::opt_str(hint),
    ));
    if found.len() > 0 {
        assert(refs_of(found@)[0] == found@[0]@);
        return Some(found[0].clone());
    }
    if let Some(h) = hint {
        let named = pick(&all, &Wish::FullHint(h));
        if named.len() > 0 {
            assert(refs_of(named@)[0] == named@[0]@);
            return Some(named[0].clone());
        }
    }
    None
}

proof fn lemma_select(s: Seq<Card>, w: Wanted)
    ensures
        forall|x: Card| #[trigger] select(s, w).contains(x) ==> s.contains(x) && is_wanted(x, w),
    decreases s.len(),
{
    if s.len() > 0 {
        lemma_select(s.drop_last(), w);
        assert forall|x: Card| #[trigger] select(s, w).contains(x) implies s.contains(x)
            && is_wanted(x, w) by {
            let before = select(s.drop_last(), w);
            let i = choose|i: int| 0 <= i < select(s, w).len() && select(s, w)[i] == x;
            if i < before.len() {
                assert(before[i] == x);
                assert(before.contains(x));
                let k = choose|k: int| 0 <= k < s.drop_last().len() && s.drop_last()[k] == x;
                assert(s[k] == x);
            } else {
                assert(s[s.len() - 1] == x);
            }
        }
    }
}

/// A modem never gets the card of another: without a hint, the card found lies below the modem's
/// device or on its USB device.
pub proof fn law_a_modem_gets_its_own_card(cards: Seq<Card>, modem: Seq<char>)
    ensures
        match card_for(cards, modem, None) {
            Some(c) => cards.contains(c) && is_full(c) && (under(c.device_path, modem) || (
            usb_root(modem).is_some() && usb_root(c.device_path) == usb_root(modem))),
            None => true,
        },
{
    let found = candidates(cards, modem);
    lemma_select(cards, Wanted::Under(modem));
    if let Some(root) = usb_root(modem) {
        lemma_select(cards, Wanted::SameUsb(root));
    }
    if found.len() > 0 {
        assert(found.contains(found[0]));
    }
}

} // verus!
