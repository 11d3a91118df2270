//! Which sound card carries the audio of a modem.
use vstd::prelude::*;

use super::discovery;
use super::discovery::{Card, Wanted};
use crate::text;

verus! {

/// Selecting keeps the cards that are wanted, all of them in their order.
pub proof fn law_a_selection_keeps_what_is_wanted(s: Seq<Card>, w: Wanted)
    ensures
        discovery::select(s, w) == s.filter(|c: Card| discovery::is_wanted(c, w)),
    decreases s.len(),
{
    reveal(Seq::filter);
    if s.len() > 0 {
        law_a_selection_keeps_what_is_wanted(s.drop_last(), w);
    }
}

proof fn lemma_first_selected(s: Seq<Card>, w: Wanted, i: int)
    requires
        0 <= i < s.len(),
        discovery::is_wanted(s[i], w),
        forall|j: int| 0 <= j < i ==> !discovery::is_wanted(#[trigger] s[j], w),
    ensures
        discovery::select(s, w).len() > 0,
        discovery::select(s, w)[0] == s[i],
    decreases s.len(),
{
    let d = s.drop_last();
    if i < d.len() {
        assert(d[i] == s[i]);
        assert forall|j: int| 0 <= j < i implies !discovery::is_wanted(#[trigger] d[j], w) by {
            assert(d[j] == s[j]);
        }
        lemma_first_selected(d, w, i);
    } else {
        lemma_none_selected(d, w);
    }
}

proof fn lemma_none_selected(s: Seq<Card>, w: Wanted)
    requires
        forall|j: int| 0 <= j < s.len() ==> !discovery::is_wanted(#[trigger] s[j], w),
    ensures
        discovery::select(s, w).len() == 0,
    decreases s.len(),
{
    if s.len() > 0 {
        let d = s.drop_last();
        assert forall|j: int| 0 <= j < d.len() implies !discovery::is_wanted(#[trigger] d[j], w) by {
            assert(d[j] == s[j]);
        }
        assert(!discovery::is_wanted(s[s.len() - 1], w));
        lemma_none_selected(d, w);
    }
}

/// A modem gets the first card that plays and captures and is part of the modem itself.
pub proof fn law_a_card_of_the_modem_is_found(cards: Seq<Card>, modem: Seq<char>, i: int)
    requires
        0 <= i < cards.len(),
        cards[i].has_playback && cards[i].has_capture,
        discovery::under(cards[i].device_path, modem),
        forall|j: int|
            0 <= j < i ==> !(#[trigger] cards[j].has_playback && cards[j].has_capture
                && discovery::under(cards[j].device_path, modem)),
    ensures
        discovery::card_for(cards, modem, None) == Some(cards[i]),
{
    let w = Wanted::Under(modem);
    assert forall|j: int| 0 <= j < i implies !discovery::is_wanted(#[trigger] cards[j], w) by {
        assert(!(cards[j].has_playback && cards[j].has_capture && discovery::under(
            cards[j].device_path,
            modem,
        )));
    }
    lemma_first_selected(cards, w, i);
}

/// Where no card is part of the modem itself, it gets the first one that plays and captures and hangs
/// on the same device of the bus.
pub proof fn law_a_card_beside_the_modem_is_found(
    cards: Seq<Card>,
    modem: Seq<char>,
    root: Seq<char>,
    i: int,
)
    requires
        0 <= i < cards.len(),
        discovery::usb_root(modem) == Some(root),
        forall|j: int|
            0 <= j < cards.len() ==> !(#[trigger] cards[j].has_playback && cards[j].has_capture
                && discovery::under(cards[j].device_path, modem)),
        cards[i].has_playback && cards[i].has_capture,
        discovery::usb_root(cards[i].device_path) == Some(root),
        forall|j: int|
            0 <= j < i ==> !(#[trigger] cards[j].has_playback && cards[j].has_capture
                && discovery::usb_root(cards[j].device_path) == Some(root)),
    ensures
        discovery::card_for(cards, modem, None) == Some(cards[i]),
{
    let below = Wanted::Under(modem);
    assert forall|j: int| 0 <= j < cards.len() implies !discovery::is_wanted(
        #[trigger] cards[j],
        below,
    ) by {
        assert(!(cards[j].has_playback && cards[j].has_capture && discovery::under(
            cards[j].device_path,
            modem,
        )));
    }
    lemma_none_selected(cards, below);
    let w = Wanted::SameUsb(root);
    assert forall|j: int| 0 <= j < i implies !discovery::is_wanted(#[trigger] cards[j], w) by {
        assert(!(cards[j].has_playback && cards[j].has_capture && discovery::usb_root(
            cards[j].device_path,
        ) == Some(root)));
    }
    lemma_first_selected(cards, w, i);
}

/// A hint is met by a card whose identifier or name holds it, without regard to case.
pub proof fn law_a_hint_is_part_of_a_name(c: Card, hint: Seq<char>)
    ensures
        discovery::fits_hint(c, hint) <==> (exists|i: int|
            0 <= i <= c.id.len() - hint.len() && #[trigger] text::lower(c.id).subrange(
                i,
                i + hint.len(),
            ) == text::lower(hint)) || (exists|i: int|
            0 <= i <= c.name.len() - hint.len() && #[trigger] text::lower(c.name).subrange(
                i,
                i + hint.len(),
            ) == text::lower(hint)),
{
    text::law_a_text_is_found_where_it_stands(text::lower(c.id), text::lower(hint));
    text::law_a_text_is_found_where_it_stands(text::lower(c.name), text::lower(hint));
}

/// A line of the sound system names the card whose number it begins with by what stands behind its
/// first colon and space.
pub proof fn law_a_line_names_its_card(n: u32, rest: Seq<char>, k: int)
    requires
        k == text::find_text(text::dec(n as nat) + (seq![' '] + rest), ": "@),
        k >= 0,
    ensures
        discovery::named_card(text::dec(n as nat) + (seq![' '] + rest)) == Some(
            (
                n as nat,
                text::trim((text::dec(n as nat) + (seq![' '] + rest)).skip(k + 2)),
            ),
        ),
{
    let d = text::dec(n as nat);
    let line = d + (seq![' '] + rest);
    text::lemma_dec_reads_back(n as nat);
    assert(text::is_digit(d[0]));
    assert(line[0] == d[0]);
    assert(text::trim_start(line) == line);
    lemma_number_ends(d, seq![' '] + rest);
    assert(line.take(d.len() as int) =~= d);
    text::law_decimal_round_trip(n as nat, 0xffff_ffff);
}

proof fn lemma_number_ends(d: Seq<char>, rest: Seq<char>)
    requires
        forall|i: int| 0 <= i < d.len() ==> text::is_digit(#[trigger] d[i]),
        rest.len() > 0,
        rest[0] == ' ',
    ensures
        text::find_space(d + rest) == d.len(),
    decreases d.len(),
{
    let s = d + rest;
    if d.len() > 0 {
        assert(s[0] == d[0]);
        assert(s.skip(1) =~= d.skip(1) + rest);
        lemma_number_ends(d.skip(1), rest);
    } else {
        assert(s =~= rest);
    }
}

/// A card is called what the last line that names it calls it.
pub proof fn law_the_last_line_names_a_card(lines: Seq<Seq<char>>, i: int, n: nat, name: Seq<char>)
    requires
        0 <= i < lines.len(),
        discovery::named_card(lines[i]) == Some((n, name)),
        forall|j: int|
            i < j < lines.len() ==> !(discovery::named_card(#[trigger] lines[j]) matches Some(c) && c.0
                == n),
    ensures
        discovery::long_name(lines, n) == Some(name),
    decreases lines.len(),
{
    if i < lines.len() - 1 {
        let r = lines.drop_last();
        assert(r[i] == lines[i]);
        assert forall|j: int| i < j < r.len() implies !(discovery::named_card(
            #[trigger] r[j],
        ) matches Some(c) && c.0 == n) by {
            assert(r[j] == lines[j]);
        }
        assert(!(discovery::named_card(lines[lines.len() - 1]) matches Some(c) && c.0 == n));
        law_the_last_line_names_a_card(r, i, n, name);
    }
}

} // verus!
