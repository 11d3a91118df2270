//! Digest headers on the wire: challenges and credentials are read as they were written.
use vstd::prelude::*;

use crate::sip::auth;
use crate::sip::auth::{Posed, Shown};
use crate::sip::engine;
use crate::sip::round_trip;
use crate::text;

verus! {

/// A parameter of a digest header: a name, a value, and whether the value stands in quotes.
pub struct Item {
    pub name: Seq<char>,
    pub value: Seq<char>,
    pub quoted: bool,
}

pub open spec fn item_text(i: Item) -> Seq<char> {
    i.name + seq!['='] + (if i.quoted {
        seq!['"'] + i.value + seq!['"']
    } else {
        i.value
    })
}

/// Parameters with a comma and a space between them.
pub open spec fn items_text(items: Seq<Item>) -> Seq<char>
    decreases items.len(),
{
    if items.len() == 0 {
        seq![]
    } else if items.len() == 1 {
        item_text(items[0])
    } else {
        items_text(items.drop_last()) + seq![',', ' '] + item_text(items.last())
    }
}

pub open spec fn item_pairs(items: Seq<Item>) -> Seq<(Seq<char>, Seq<char>)> {
    Seq::new(items.len(), |i: int| (items[i].name, items[i].value))
}

/// A name as this crate writes it: letters in lower case.
pub open spec fn name_plain(n: Seq<char>) -> bool {
    &&& n.len() > 0
    &&& forall|i: int| 0 <= i < n.len() ==> 'a' <= (#[trigger] n[i]) <= 'z'
}

/// A value that can stand in quotes.
pub open spec fn quotable(v: Seq<char>) -> bool {
    !v.contains('"')
}

/// A value that can stand without quotes.
pub open spec fn bare(v: Seq<char>) -> bool {
    &&& !v.contains(',')
    &&& text::is_trimmed(v)
    &&& v.len() > 0 ==> v[0] != '"'
}

pub open spec fn item_writable(i: Item) -> bool {
    &&& name_plain(i.name)
    &&& if i.quoted {
        quotable(i.value)
    } else {
        bare(i.value)
    }
}

pub open spec fn items_writable(items: Seq<Item>) -> bool {
    forall|i: int| 0 <= i < items.len() ==> item_writable(#[trigger] items[i])
}

proof fn lemma_letter(c: char)
    requires
        'a' <= c <= 'z',
    ensures
        c != '=',
        c != ',',
        !auth::is_ascii_space(c),
        !text::is_space(c),
        text::lower_char(c) == c,
{
}

proof fn lemma_spaces(c: char)
    ensures
        !text::is_space(c) ==> !auth::is_ascii_space(c),
{
}

proof fn lemma_key_end(n: Seq<char>, rest: Seq<char>)
    requires
        forall|i: int| 0 <= i < n.len() ==> 'a' <= (#[trigger] n[i]) <= 'z',
    ensures
        auth::key_end(n + (seq!['='] + rest)) == n.len(),
    decreases n.len(),
{
    let s = n + (seq!['='] + rest);
    if n.len() == 0 {
        assert(s[0] == '=');
    } else {
        assert(s[0] == n[0]);
        lemma_letter(n[0]);
        assert(s.skip(1) =~= n.skip(1) + (seq!['='] + rest));
        assert forall|i: int| 0 <= i < n.skip(1).len() implies 'a' <= (#[trigger] n.skip(1)[i])
            <= 'z' by {
            assert(n.skip(1)[i] == n[i + 1]);
        }
        lemma_key_end(n.skip(1), rest);
    }
}

proof fn lemma_value_read(i: Item, tail: Seq<char>)
    requires
        item_writable(i),
        tail.len() > 0 ==> tail[0] == ',',
    ensures
        auth::value_of(
            (if i.quoted {
                seq!['"'] + i.value + seq!['"']
            } else {
                i.value
            }) + tail,
        ) == (i.value, tail),
{
    let v = i.value;
    if i.quoted {
        let u = seq!['"'] + v + seq!['"'] + tail;
        assert(auth::skip_spaces(u) == u);
        assert(u.skip(1) =~= v + seq!['"'] + tail);
        text::lemma_split_once_at(v, tail, '"');
        text::lemma_find(u.skip(1), '"');
    } else {
        let u = v + tail;
        if v.len() > 0 {
            assert(u[0] == v[0]);
            lemma_spaces(v[0]);
        }
        assert(auth::skip_spaces(u) == u);
        text::lemma_trimmed(v);
        if tail.len() > 0 {
            let r = tail.skip(1);
            assert(u =~= v + seq![','] + r);
            text::lemma_split_once_at(v, r, ',');
            text::lemma_find(u, ',');
            assert(u.skip(v.len() as int) =~= tail);
        } else {
            assert(u =~= v);
            text::lemma_split_once_none(v, ',');
            assert(u.take(v.len() as int) =~= v);
            assert(u.skip(v.len() as int) =~= tail);
        }
    }
}

proof fn lemma_item_read(i: Item, tail: Seq<char>)
    requires
        item_writable(i),
        tail.len() > 0 ==> tail[0] == ',',
    ensures
        auth::digest_params(item_text(i) + tail) == seq![(i.name, i.value)] + auth::digest_params(
            tail,
        ),
{
    let written = if i.quoted {
        seq!['"'] + i.value + seq!['"']
    } else {
        i.value
    };
    let s = item_text(i) + tail;
    let n = i.name;
    assert(s =~= n + (seq!['='] + (written + tail)));
    assert(s[0] == n[0]);
    lemma_letter(n[0]);
    lemma_letter(n[n.len() - 1]);
    assert(auth::skip_separators(s) == s);
    lemma_key_end(n, written + tail);
    let k = n.len() as int;
    assert(s.take(k) =~= n);
    text::lemma_trimmed(n);
    assert(text::lower(n) =~= n) by {
        assert forall|j: int| 0 <= j < n.len() implies text::lower_char(#[trigger] n[j]) == n[j] by {
            lemma_letter(n[j]);
        }
    }
    assert(s[k] == '=');
    assert(s.skip(k + 1) =~= written + tail);
    lemma_value_read(i, tail);
}

proof fn lemma_separator_read(rest: Seq<char>)
    ensures
        auth::digest_params(seq![',', ' '] + rest) == auth::digest_params(rest),
{
    let s = seq![',', ' '] + rest;
    assert(s.skip(1) =~= seq![' '] + rest);
    assert(s.skip(1).skip(1) =~= rest);
    assert(auth::skip_separators(s) == auth::skip_separators(s.skip(1)));
    assert(auth::skip_separators(s.skip(1)) == auth::skip_separators(s.skip(1).skip(1)));
}

proof fn lemma_items_front(first: Item, rest: Seq<Item>)
    requires
        rest.len() > 0,
    ensures
        items_text(seq![first] + rest) == item_text(first) + (seq![',', ' '] + items_text(rest)),
    decreases rest.len(),
{
    let all = seq![first] + rest;
    assert(all.drop_last() =~= seq![first] + rest.drop_last());
    assert(all.last() == rest.last());
    if rest.len() == 1 {
        assert(all.drop_last() =~= seq![first]);
        assert(items_text(all.drop_last()) == item_text(first));
        assert(items_text(rest) == item_text(rest.last()));
        assert(items_text(all) =~= item_text(first) + (seq![',', ' '] + items_text(rest)));
    } else {
        lemma_items_front(first, rest.drop_last());
        assert(items_text(all) =~= item_text(first) + (seq![',', ' '] + items_text(rest)));
    }
}

/// The parameters of a digest header are read as they were written.
pub proof fn law_digest_parameters_read_back(items: Seq<Item>)
    requires
        items_writable(items),
    ensures
        auth::digest_params(items_text(items)) == item_pairs(items),
    decreases items.len(),
{
    let empty = Seq::<char>::empty();
    assert(auth::digest_params(empty) =~= seq![]) by {
        assert(auth::skip_separators(empty) == empty);
        assert(empty.take(0) =~= empty);
        text::lemma_trimmed(empty);
    }
    if items.len() == 0 {
        assert(auth::digest_params(items_text(items)) =~= item_pairs(items));
    } else {
        let first = items[0];
        let rest = items.skip(1);
        assert(item_writable(items[0]));
        assert(items =~= seq![first] + rest);
        if rest.len() == 0 {
            lemma_item_read(first, empty);
            assert(item_text(first) + empty =~= item_text(first));
            assert(item_pairs(items) =~= seq![(first.name, first.value)]);
        } else {
            assert(items_writable(rest)) by {
                assert forall|i: int| 0 <= i < rest.len() implies item_writable(
                    #[trigger] rest[i],
                ) by {
                    assert(rest[i] == items[i + 1]);
                }
            }
            law_digest_parameters_read_back(rest);
            lemma_items_front(first, rest);
            lemma_item_read(first, seq![',', ' '] + items_text(rest));
            lemma_separator_read(items_text(rest));
            assert(item_pairs(items) =~= seq![(first.name, first.value)] + item_pairs(rest));
        }
    }
}

// ------------------------------------------------------------------ header values

pub open spec fn digest_header(items: Seq<Item>) -> Seq<char> {
    seq!['D', 'i', 'g', 'e', 's', 't', ' '] + items_text(items)
}

proof fn lemma_item_end(i: Item)
    requires
        item_writable(i),
    ensures
        item_text(i).len() > 0,
        !text::is_space(item_text(i).last()),
{
    let t = item_text(i);
    if i.quoted {
        assert(t.last() == '"');
    } else if i.value.len() > 0 {
        assert(t.last() == i.value.last());
    } else {
        assert(t.last() == '=');
    }
}

proof fn lemma_header_read(items: Seq<Item>)
    requires
        items.len() > 0,
        items_writable(items),
    ensures
        auth::scheme_and_rest(digest_header(items)) == Some(("Digest"@, items_text(items))),
        auth::digest_params(items_text(items)) == item_pairs(items),
{
    let t = digest_header(items);
    let x = items_text(items);
    let scheme = seq!['D', 'i', 'g', 'e', 's', 't'];
    reveal_strlit("Digest");
    assert("Digest"@ =~= scheme);
    assert(item_writable(items[items.len() - 1]));
    lemma_item_end(items.last());
    assert(x.len() > 0 && x.last() == item_text(items.last()).last());
    assert(t.last() == x.last());
    assert(t[0] == 'D');
    text::lemma_trimmed(t);
    assert(t =~= scheme + (seq![' '] + x));
    round_trip::lemma_find_space_at(scheme, seq![' '] + x);
    assert(t.take(6) =~= scheme);
    assert(t.skip(7) =~= x);
    law_digest_parameters_read_back(items);
}

// ------------------------------------------------------------------ credentials

pub open spec fn one(name: Seq<char>, value: Seq<char>, quoted: bool) -> Seq<Item> {
    seq![Item { name, value, quoted }]
}

pub open spec fn maybe(name: Seq<char>, value: Option<Seq<char>>, quoted: bool) -> Seq<Item> {
    match value {
        Some(value) => seq![Item { name, value, quoted }],
        None => seq![],
    }
}

pub open spec fn fixed_items(c: Shown) -> Seq<Item> {
    one("username"@, c.username, true) + one("realm"@, c.realm, true) + one("nonce"@, c.nonce, true)
        + one("uri"@, c.uri, true) + one("response"@, c.response, true)
}

pub open spec fn items_of(c: Shown) -> Seq<Item> {
    fixed_items(c) + maybe("algorithm"@, c.algorithm, false) + maybe("qop"@, c.qop, false) + maybe(
        "nc"@,
        c.nc,
        false,
    ) + maybe("cnonce"@, c.cnonce, true) + maybe("opaque"@, c.opaque, true)
}

/// Credentials that are read back as they were written.
pub open spec fn credentials_writable(c: Shown) -> bool {
    &&& quotable(c.username)
    &&& quotable(c.realm)
    &&& quotable(c.nonce)
    &&& quotable(c.uri)
    &&& quotable(c.response)
    &&& c.algorithm matches Some(v) ==> bare(v)
    &&& c.qop matches Some(v) ==> bare(v)
    &&& c.nc matches Some(v) ==> bare(v)
    &&& c.cnonce matches Some(v) ==> quotable(v)
    &&& c.opaque matches Some(v) ==> quotable(v)
    &&& c.qop.is_none() ==> c.nc.is_none() && c.cnonce.is_none()
}

/// What a parameter adds to the text.
pub open spec fn added(name: Seq<char>, value: Option<Seq<char>>, quoted: bool) -> Seq<char> {
    match value {
        Some(v) => seq![',', ' '] + item_text(Item { name, value: v, quoted }),
        None => seq![],
    }
}

proof fn lemma_added(items: Seq<Item>, name: Seq<char>, value: Option<Seq<char>>, quoted: bool)
    requires
        items.len() > 0,
    ensures
        items_text(items + maybe(name, value, quoted)) == items_text(items) + added(
            name,
            value,
            quoted,
        ),
{
    let m = maybe(name, value, quoted);
    match value {
        Some(v) => {
            assert((items + m).drop_last() =~= items);
            assert(items_text(items + m) =~= items_text(items) + added(name, value, quoted));
        },
        None => {
            assert(items + m =~= items);
            assert(items_text(items + m) =~= items_text(items) + Seq::<char>::empty());
        },
    }
}

proof fn lemma_bare_piece(before: Seq<char>, name: Seq<char>, value: Option<Seq<char>>)
    requires
        before =~= seq![',', ' '] + name + seq!['='],
    ensures
        auth::optional_piece(before, value, seq![]) == added(name, value, false),
{
    if let Some(v) = value {
        assert(before + v + Seq::<char>::empty() =~= added(name, value, false));
    }
}

proof fn lemma_quoted_piece(
    before: Seq<char>,
    after: Seq<char>,
    name: Seq<char>,
    value: Option<Seq<char>>,
)
    requires
        before =~= seq![',', ' '] + name + seq!['=', '"'],
        after =~= seq!['"'],
    ensures
        auth::optional_piece(before, value, after) == added(name, value, true),
{
    if let Some(v) = value {
        assert(before + v + after =~= added(name, value, true));
    }
}

/// The same, of the whole header.
proof fn lemma_header_added(items: Seq<Item>, name: Seq<char>, value: Option<Seq<char>>, quoted: bool)
    requires
        items.len() > 0,
    ensures
        digest_header(items + maybe(name, value, quoted)) == digest_header(items) + added(
            name,
            value,
            quoted,
        ),
{
    lemma_added(items, name, value, quoted);
    assert(digest_header(items + maybe(name, value, quoted)) =~= digest_header(items) + added(
        name,
        value,
        quoted,
    ));
}

/// A quoted parameter behind a quoted parameter: the text up to its closing quote.
proof fn lemma_quoted_step(
    t: Seq<char>,
    items: Seq<Item>,
    between: Seq<char>,
    name: Seq<char>,
    v: Seq<char>,
)
    requires
        items.len() > 0,
        t + seq!['"'] == digest_header(items),
        between =~= seq!['"', ',', ' '] + name + seq!['=', '"'],
    ensures
        t + between + v + seq!['"'] == digest_header(items + one(name, v, true)),
{
    lemma_header_added(items, name, Some(v), true);
    let n = added(name, Some(v), true);
    assert(one(name, v, true) =~= maybe(name, Some(v), true));
    assert(n =~= seq![',', ' '] + name + seq!['=', '"'] + v + seq!['"']);
    assert(t + between + v + seq!['"'] =~= t + seq!['"'] + n);
}

proof fn lemma_first_item(lead: Seq<char>, name: Seq<char>, v: Seq<char>)
    requires
        lead =~= seq!['D', 'i', 'g', 'e', 's', 't', ' '] + name + seq!['=', '"'],
    ensures
        lead + v + seq!['"'] == digest_header(one(name, v, true)),
{
    assert(items_text(one(name, v, true)) == item_text(Item { name, value: v, quoted: true }));
    assert(lead + v + seq!['"'] =~= digest_header(one(name, v, true)));
}

proof fn lemma_literals()
    ensures
        "Digest username=\""@ =~= seq!['D', 'i', 'g', 'e', 's', 't', ' '] + "username"@ + seq![
            '=',
            '"',
        ],
        "Digest realm=\""@ =~= seq!['D', 'i', 'g', 'e', 's', 't', ' '] + "realm"@ + seq!['=', '"'],
        "\", realm=\""@ =~= seq!['"', ',', ' '] + "realm"@ + seq!['=', '"'],
        "\", nonce=\""@ =~= seq!['"', ',', ' '] + "nonce"@ + seq!['=', '"'],
        "\", uri=\""@ =~= seq!['"', ',', ' '] + "uri"@ + seq!['=', '"'],
        "\", response=\""@ =~= seq!['"', ',', ' '] + "response"@ + seq!['=', '"'],
        "\""@ =~= seq!['"'],
{
    reveal_strlit("Digest username=\"");
    reveal_strlit("Digest realm=\"");
    reveal_strlit("\", realm=\"");
    reveal_strlit("\", nonce=\"");
    reveal_strlit("\", uri=\"");
    reveal_strlit("\", response=\"");
    reveal_strlit("\"");
    reveal_strlit("username");
    reveal_strlit("realm");
    reveal_strlit("nonce");
    reveal_strlit("uri");
    reveal_strlit("response");
}

proof fn lemma_fixed_text(c: Shown)
    ensures
        auth::fixed_header(c) == digest_header(fixed_items(c)),
{
    lemma_literals();
    lemma_first_item("Digest username=\""@, "username"@, c.username);
    let a = one("username"@, c.username, true);
    let t = "Digest username=\""@ + c.username;
    lemma_quoted_step(t, a, "\", realm=\""@, "realm"@, c.realm);
    let b = a + one("realm"@, c.realm, true);
    let u = t + "\", realm=\""@ + c.realm;
    lemma_quoted_step(u, b, "\", nonce=\""@, "nonce"@, c.nonce);
    let d = b + one("nonce"@, c.nonce, true);
    let v = u + "\", nonce=\""@ + c.nonce;
    lemma_quoted_step(v, d, "\", uri=\""@, "uri"@, c.uri);
    let e = d + one("uri"@, c.uri, true);
    let w = v + "\", uri=\""@ + c.uri;
    lemma_quoted_step(w, e, "\", response=\""@, "response"@, c.response);
}

proof fn lemma_pieces(c: Shown)
    ensures
        auth::optional_piece(", algorithm="@, c.algorithm, seq![]) == added(
            "algorithm"@,
            c.algorithm,
            false,
        ),
        auth::optional_piece(", qop="@, c.qop, seq![]) == added("qop"@, c.qop, false),
        auth::optional_piece(", nc="@, c.nc, seq![]) == added("nc"@, c.nc, false),
        auth::optional_piece(", cnonce=\""@, c.cnonce, "\""@) == added("cnonce"@, c.cnonce, true),
        auth::optional_piece(", opaque=\""@, c.opaque, "\""@) == added("opaque"@, c.opaque, true),
{
    reveal_strlit(", algorithm=");
    reveal_strlit(", qop=");
    reveal_strlit(", nc=");
    reveal_strlit(", cnonce=\"");
    reveal_strlit(", opaque=\"");
    reveal_strlit("\"");
    reveal_strlit("algorithm");
    reveal_strlit("qop");
    reveal_strlit("nc");
    reveal_strlit("cnonce");
    reveal_strlit("opaque");
    lemma_bare_piece(", algorithm="@, "algorithm"@, c.algorithm);
    lemma_bare_piece(", qop="@, "qop"@, c.qop);
    lemma_bare_piece(", nc="@, "nc"@, c.nc);
    lemma_quoted_piece(", cnonce=\""@, "\""@, "cnonce"@, c.cnonce);
    lemma_quoted_piece(", opaque=\""@, "\""@, "opaque"@, c.opaque);
}

proof fn lemma_three(x: Seq<char>, q: Seq<char>, n: Seq<char>, w: Seq<char>)
    ensures
        x + (q + n + w) == x + q + n + w,
{
    assert(x + (q + n + w) =~= x + q + n + w);
}

proof fn lemma_header_items(c: Shown)
    requires
        c.qop.is_none() ==> c.nc.is_none() && c.cnonce.is_none(),
    ensures
        auth::header_text(c) == digest_header(items_of(c)),
{
    lemma_fixed_text(c);
    lemma_pieces(c);
    let f = fixed_items(c);
    lemma_header_added(f, "algorithm"@, c.algorithm, false);
    let g = f + maybe("algorithm"@, c.algorithm, false);
    lemma_header_added(g, "qop"@, c.qop, false);
    let h = g + maybe("qop"@, c.qop, false);
    lemma_header_added(h, "nc"@, c.nc, false);
    let i = h + maybe("nc"@, c.nc, false);
    lemma_header_added(i, "cnonce"@, c.cnonce, true);
    let j = i + maybe("cnonce"@, c.cnonce, true);
    lemma_header_added(j, "opaque"@, c.opaque, true);
    let a = added("algorithm"@, c.algorithm, false);
    let q = added("qop"@, c.qop, false);
    let n = added("nc"@, c.nc, false);
    let w = added("cnonce"@, c.cnonce, true);
    let x = auth::fixed_header(c) + a;
    match c.qop {
        Some(t) => {
            assert(", qop="@ + t + Seq::<char>::empty() =~= ", qop="@ + t);
            assert(", qop="@ + t == q);
            lemma_three(x, q, n, w);
        },
        None => {
            assert(x + Seq::<char>::empty() =~= x);
        },
    }
}

// ------------------------------------------------------------------ reading

proof fn lemma_last_value_concat(
    a: Seq<(Seq<char>, Seq<char>)>,
    b: Seq<(Seq<char>, Seq<char>)>,
    name: Seq<char>,
)
    ensures
        auth::last_value(a + b, name) == match auth::last_value(b, name) {
            Some(v) => Some(v),
            None => auth::last_value(a, name),
        },
    decreases b.len(),
{
    if b.len() == 0 {
        assert(a + b =~= a);
    } else {
        assert((a + b).drop_last() =~= a + b.drop_last());
        lemma_last_value_concat(a, b.drop_last(), name);
    }
}

/// The value of the last parameter of a name, among those that are written.
pub open spec fn item_value(items: Seq<Item>, name: Seq<char>) -> Option<Seq<char>> {
    auth::last_value(item_pairs(items), name)
}

proof fn lemma_item_value(
    items: Seq<Item>,
    n: Seq<char>,
    value: Option<Seq<char>>,
    quoted: bool,
    name: Seq<char>,
)
    ensures
        item_value(items + maybe(n, value, quoted), name) == if n == name && value.is_some() {
            value
        } else {
            item_value(items, name)
        },
{
    let m = maybe(n, value, quoted);
    assert(item_pairs(items + m) =~= item_pairs(items) + item_pairs(m));
    lemma_last_value_concat(item_pairs(items), item_pairs(m), name);
    if m.len() > 0 {
        assert(item_pairs(m).drop_last() =~= seq![]);
        assert(auth::last_value(Seq::<(Seq<char>, Seq<char>)>::empty(), name).is_none());
    }
}

/// The value of each name among the parameters of credentials.
proof fn lemma_value_in(c: Shown, name: Seq<char>)
    ensures
        item_value(items_of(c), name) == if name == "opaque"@ && c.opaque.is_some() {
            c.opaque
        } else if name == "cnonce"@ && c.cnonce.is_some() {
            c.cnonce
        } else if name == "nc"@ && c.nc.is_some() {
            c.nc
        } else if name == "qop"@ && c.qop.is_some() {
            c.qop
        } else if name == "algorithm"@ && c.algorithm.is_some() {
            c.algorithm
        } else if name == "response"@ {
            Some(c.response)
        } else if name == "uri"@ {
            Some(c.uri)
        } else if name == "nonce"@ {
            Some(c.nonce)
        } else if name == "realm"@ {
            Some(c.realm)
        } else if name == "username"@ {
            Some(c.username)
        } else {
            None
        },
{
    let none = Seq::<Item>::empty();
    assert(item_pairs(none) =~= seq![]);
    assert(item_value(none, name).is_none());
    let a = none + maybe("username"@, Some(c.username), true);
    lemma_item_value(none, "username"@, Some(c.username), true, name);
    assert(a =~= one("username"@, c.username, true));
    lemma_item_value(a, "realm"@, Some(c.realm), true, name);
    let b = a + one("realm"@, c.realm, true);
    lemma_item_value(b, "nonce"@, Some(c.nonce), true, name);
    let d = b + one("nonce"@, c.nonce, true);
    lemma_item_value(d, "uri"@, Some(c.uri), true, name);
    let e = d + one("uri"@, c.uri, true);
    lemma_item_value(e, "response"@, Some(c.response), true, name);
    let f = fixed_items(c);
    lemma_item_value(f, "algorithm"@, c.algorithm, false, name);
    let g = f + maybe("algorithm"@, c.algorithm, false);
    lemma_item_value(g, "qop"@, c.qop, false, name);
    let h = g + maybe("qop"@, c.qop, false);
    lemma_item_value(h, "nc"@, c.nc, false, name);
    let i = h + maybe("nc"@, c.nc, false);
    lemma_item_value(i, "cnonce"@, c.cnonce, true, name);
    let j = i + maybe("cnonce"@, c.cnonce, true);
    lemma_item_value(j, "opaque"@, c.opaque, true, name);
}

/// The first letters and lengths that tell the names apart.
proof fn lemma_names()
    ensures
        name_plain("username"@) && "username"@.len() == 8 && "username"@[0] == 'u',
        name_plain("realm"@) && "realm"@.len() == 5 && "realm"@[0] == 'r',
        name_plain("nonce"@) && "nonce"@.len() == 5 && "nonce"@[0] == 'n',
        name_plain("uri"@) && "uri"@.len() == 3 && "uri"@[0] == 'u',
        name_plain("response"@) && "response"@.len() == 8 && "response"@[0] == 'r',
        name_plain("algorithm"@) && "algorithm"@.len() == 9,
        name_plain("qop"@) && "qop"@.len() == 3 && "qop"@[0] == 'q',
        name_plain("nc"@) && "nc"@.len() == 2,
        name_plain("cnonce"@) && "cnonce"@.len() == 6 && "cnonce"@[0] == 'c',
        name_plain("opaque"@) && "opaque"@.len() == 6 && "opaque"@[0] == 'o',
        name_plain("stale"@) && "stale"@.len() == 5 && "stale"@[0] == 's',
{
    reveal_strlit("username");
    reveal_strlit("realm");
    reveal_strlit("nonce");
    reveal_strlit("uri");
    reveal_strlit("response");
    reveal_strlit("algorithm");
    reveal_strlit("qop");
    reveal_strlit("nc");
    reveal_strlit("cnonce");
    reveal_strlit("opaque");
    reveal_strlit("stale");
}

/// Credentials are read as they were written.
pub proof fn law_credentials_read_back(c: Shown)
    requires
        credentials_writable(c),
    ensures
        auth::credentials_of(auth::header_text(c)) == Some(c),
{
    let items = items_of(c);
    lemma_header_items(c);
    lemma_names();
    lemma_header_read(items);
    lemma_value_in(c, "username"@);
    lemma_value_in(c, "realm"@);
    lemma_value_in(c, "nonce"@);
    lemma_value_in(c, "uri"@);
    lemma_value_in(c, "response"@);
    lemma_value_in(c, "algorithm"@);
    lemma_value_in(c, "qop"@);
    lemma_value_in(c, "nc"@);
    lemma_value_in(c, "cnonce"@);
    lemma_value_in(c, "opaque"@);
}

/// An answer that is written, sent and read verifies under the password it was made with.
pub proof fn law_a_sent_answer_verifies(
    c: Posed,
    username: Seq<char>,
    password: Seq<char>,
    method: Seq<char>,
    uri: Seq<char>,
    body: Seq<u8>,
    nc_value: nat,
    cnonce: Seq<char>,
)
    requires
        credentials_writable(
            auth::answered(c, username, password, method, uri, body, nc_value, cnonce),
        ),
    ensures
        auth::credentials_of(
            auth::header_text(
                auth::answered(c, username, password, method, uri, body, nc_value, cnonce),
            ),
        ) matches Some(read) && auth::verifies(read, password, method, body),
{
    law_credentials_read_back(
        auth::answered(c, username, password, method, uri, body, nc_value, cnonce),
    );
}

// ------------------------------------------------------------------ challenges

pub open spec fn challenge_items(realm: Seq<char>, nonce: Seq<char>, stale: bool) -> Seq<Item> {
    one("realm"@, realm, true) + one("nonce"@, nonce, true) + one("algorithm"@, "MD5"@, false) + one(
        "qop"@,
        "auth"@,
        true,
    ) + maybe(
        "stale"@,
        if stale {
            Some("true"@)
        } else {
            None
        },
        false,
    )
}

proof fn lemma_challenge_items(realm: Seq<char>, nonce: Seq<char>, stale: bool)
    ensures
        engine::challenge_value(realm, nonce, stale) == digest_header(
            challenge_items(realm, nonce, stale),
        ),
{
    let s = if stale {
        Some("true"@)
    } else {
        None
    };
    lemma_literals();
    lemma_first_item("Digest realm=\""@, "realm"@, realm);
    let a = one("realm"@, realm, true);
    let t = "Digest realm=\""@ + realm;
    lemma_quoted_step(t, a, "\", nonce=\""@, "nonce"@, nonce);
    let b = a + one("nonce"@, nonce, true);
    let u = t + "\", nonce=\""@ + nonce;
    lemma_header_added(b, "algorithm"@, Some("MD5"@), false);
    let d = b + one("algorithm"@, "MD5"@, false);
    lemma_header_added(d, "qop"@, Some("auth"@), true);
    let e = d + one("qop"@, "auth"@, true);
    lemma_header_added(e, "stale"@, s, false);
    let m = added("algorithm"@, Some("MD5"@), false);
    let q = added("qop"@, Some("auth"@), true);
    assert("\", algorithm=MD5, qop=\"auth\""@ =~= seq!['"'] + m + q) by {
        reveal_strlit("\", algorithm=MD5, qop=\"auth\"");
        reveal_strlit("algorithm");
        reveal_strlit("MD5");
        reveal_strlit("qop");
        reveal_strlit("auth");
    }
    lemma_three(u, seq!['"'], m, q);
    assert(u + "\", algorithm=MD5, qop=\"auth\""@ == digest_header(e));
    assert(", stale=true"@ =~= added("stale"@, Some("true"@), false)) by {
        reveal_strlit(", stale=true");
        reveal_strlit("stale");
        reveal_strlit("true");
    }
    assert(digest_header(e) + Seq::<char>::empty() =~= digest_header(e));
}

/// A challenge of ours is read by a client as it was meant: realm and nonce as they are, the MD5
/// algorithm and plain authentication.
pub proof fn law_our_challenge_reads_back(realm: Seq<char>, nonce: Seq<char>, stale: bool)
    requires
        quotable(realm),
        quotable(nonce),
    ensures
        auth::challenge_of(engine::challenge_value(realm, nonce, stale)) == Some(
            (Posed {
                realm,
                nonce,
                opaque: None,
                qop: Some("auth"@),
                algorithm: Some("MD5"@),
            }),
        ),
{
    let s = if stale {
        Some("true"@)
    } else {
        None
    };
    let items = challenge_items(realm, nonce, stale);
    lemma_challenge_items(realm, nonce, stale);
    lemma_names();
    reveal_strlit("MD5");
    reveal_strlit("auth");
    reveal_strlit("true");
    lemma_header_read(items);
    assert forall|name: Seq<char>| #[trigger] item_value(items, name) == (if name == "stale"@
        && stale {
        Some("true"@)
    } else if name == "qop"@ {
        Some("auth"@)
    } else if name == "algorithm"@ {
        Some("MD5"@)
    } else if name == "nonce"@ {
        Some(nonce)
    } else if name == "realm"@ {
        Some(realm)
    } else {
        None
    }) by {
        let none = Seq::<Item>::empty();
        assert(item_pairs(none) =~= seq![]);
        assert(item_value(none, name).is_none());
        let a = none + maybe("realm"@, Some(realm), true);
        lemma_item_value(none, "realm"@, Some(realm), true, name);
        assert(a =~= one("realm"@, realm, true));
        lemma_item_value(a, "nonce"@, Some(nonce), true, name);
        let b = a + one("nonce"@, nonce, true);
        lemma_item_value(b, "algorithm"@, Some("MD5"@), false, name);
        let d = b + one("algorithm"@, "MD5"@, false);
        lemma_item_value(d, "qop"@, Some("auth"@), true, name);
        let e = d + one("qop"@, "auth"@, true);
        lemma_item_value(e, "stale"@, s, false, name);
    }
    assert(item_value(items, "realm"@) == Some(realm));
    assert(item_value(items, "nonce"@) == Some(nonce));
    assert(item_value(items, "qop"@) == Some("auth"@));
    assert(item_value(items, "algorithm"@) == Some("MD5"@));
    assert(item_value(items, "opaque"@).is_none());
}

} // verus!
