//! A tiny registrar so softphones can bind to the gateway directly.
//!
//! Bindings are kept in memory only; the gateway targets the freshest one when it needs to deliver
//! a call or a message and no static target is configured. Times are milliseconds of a clock that
//! never goes back.
use vstd::prelude::*;

use super::uri;
use super::uri::NameAddr;
use crate::net::SocketAddr;
use crate::text;

verus! {

#[derive(Debug)]
pub struct Binding {
    pub aor: String,
    pub contact: NameAddr,
    pub source: SocketAddr,
    pub expires_at: u64,
    pub registered_at: u64,
}

/// A binding, mathematically.
#[verifier::ext_equal]
pub struct Bound {
    pub aor: Seq<char>,
    pub contact: uri::Party,
    pub source: SocketAddr,
    pub expires_at: u64,
    pub registered_at: u64,
}

impl View for Binding {
    type V = Bound;

    open spec fn view(&self) -> Bound {
        Bound {
            aor: self.aor@,
            contact: self.contact@,
            source: self.source,
            expires_at: self.expires_at,
            registered_at: self.registered_at,
        }
    }
}

impl Clone for Binding {
    fn clone(&self) -> (r: Self)
        ensures
            r@ == self@,
    {
        Binding {
            aor: self.aor.clone(),
            contact: self.contact.clone(),
            source: self.source,
            expires_at: self.expires_at,
            registered_at: self.registered_at,
        }
    }
}

pub open spec fn bounds(v: Seq<Binding>) -> Seq<Bound> {
    Seq::new(v.len(), |i: int| v[i]@)
}

/// What tells the contacts of one address apart.
pub open spec fn contact_key(p: uri::Party) -> Seq<char> {
    uri::uri_text(uri::bare_address(p.uri))
}

/// The bindings that are not of this address and contact.
pub open spec fn without_contact(b: Seq<Bound>, aor: Seq<char>, key: Seq<char>) -> Seq<Bound>
    decreases b.len(),
{
    if b.len() == 0 {
        seq![]
    } else if b.last().aor == aor && contact_key(b.last().contact) == key {
        without_contact(b.drop_last(), aor, key)
    } else {
        without_contact(b.drop_last(), aor, key).push(b.last())
    }
}

/// The bindings of other addresses.
pub open spec fn without_aor(b: Seq<Bound>, aor: Seq<char>) -> Seq<Bound>
    decreases b.len(),
{
    if b.len() == 0 {
        seq![]
    } else if b.last().aor == aor {
        without_aor(b.drop_last(), aor)
    } else {
        without_aor(b.drop_last(), aor).push(b.last())
    }
}

/// The bindings of one address.
pub open spec fn of_aor(b: Seq<Bound>, aor: Seq<char>) -> Seq<Bound>
    decreases b.len(),
{
    if b.len() == 0 {
        seq![]
    } else if b.last().aor == aor {
        of_aor(b.drop_last(), aor).push(b.last())
    } else {
        of_aor(b.drop_last(), aor)
    }
}

/// The bindings that have not lapsed.
pub open spec fn live(b: Seq<Bound>, now: u64) -> Seq<Bound>
    decreases b.len(),
{
    if b.len() == 0 {
        seq![]
    } else if b.last().expires_at > now {
        live(b.drop_last(), now).push(b.last())
    } else {
        live(b.drop_last(), now)
    }
}

/// The bindings after a registration; one of no duration removes the contact.
pub open spec fn updated(
    b: Seq<Bound>,
    aor: Seq<char>,
    contact: uri::Party,
    source: SocketAddr,
    expires: u32,
    now: u64,
) -> Seq<Bound> {
    let rest = without_contact(b, aor, contact_key(contact));
    if expires > 0 {
        rest.push(
            Bound {
                aor,
                contact,
                source,
                expires_at: (now + expires * 1000) as u64,
                registered_at: now,
            },
        )
    } else {
        rest
    }
}

/// The most recently registered binding; of several, the last.
pub open spec fn newest_of(b: Seq<Bound>) -> Option<Bound>
    decreases b.len(),
{
    if b.len() == 0 {
        None
    } else {
        match newest_of(b.drop_last()) {
            Some(n) => if n.registered_at > b.last().registered_at {
                Some(n)
            } else {
                Some(b.last())
            },
            None => Some(b.last()),
        }
    }
}

#[derive(Debug)]
pub struct Registrar {
    bindings: Vec<Binding>,
}

impl View for Registrar {
    type V = Seq<Bound>;

    closed spec fn view(&self) -> Seq<Bound> {
        bounds(self.bindings@)
    }
}

impl Default for Registrar {
    fn default() -> (r: Self)
        ensures
            r@ == Seq::<Bound>::empty(),
    {
        Self::new()
    }
}

impl Registrar {
    pub fn new() -> (r: Self)
        ensures
            r@ == Seq::<Bound>::empty(),
    {
        let r = Registrar { bindings: Vec::new() };
        assert(r@ =~= Seq::<Bound>::empty());
        r
    }

    /// Add, refresh or remove a binding. `expires == 0` removes it.
    pub fn update(
        &mut self,
        aor: &str,
        contact: NameAddr,
        source: SocketAddr,
        expires: u32,
        now: u64,
    )
        requires
            now + expires * 1000 <= u64::MAX,
        ensures
            final(self)@ == updated(old(self)@, aor@, contact@, source, expires, now),
    {
        let key = contact.uri.bare().to_string();
        let ghost all = bounds(self.bindings@);
        let mut out: Vec<Binding> = Vec::new();
        let mut i: usize = 0;
        assert(bounds(out@) =~= without_contact(all.take(0), aor@, key@));
        while i < self.bindings.len()
            invariant
                i <= self.bindings@.len(),
                *self == *old(self),
                all == bounds(self.bindings@),
                bounds(out@) == without_contact(all.take(i as int), aor@, key@),
            decreases self.bindings@.len() - i,
        {
            let b = &self.bindings[i];
            let ghost before = out@;
            proof {
                assert(all.take(i + 1).drop_last() =~= all.take(i as int));
                assert(all.take(i + 1).last() == b@);
            }
            let other = b.contact.uri.bare().to_string();
            if !(text::str_is(b.aor.as_str(), aor) && text::str_is(other.as_str(), key.as_str())) {
                out.push(b.clone());
                assert(bounds(out@) =~= bounds(before).push(b@));
            }
            i += 1;
        }
        assert(all.take(i as int) =~= all);
        if expires > 0 {
            let ghost before = out@;
            let b = Binding {
                aor: text::owned(aor),
                contact,
                source,
                expires_at: now + expires as u64 * 1000,
                registered_at: now,
            };
            out.push(b);
            assert(bounds(out@) =~= bounds(before).push(b@));
        }
        self.bindings = out;
    }

    /// Wildcard de-registration (`Contact: *` with `Expires: 0`).
    pub fn remove_all(&mut self, aor: &str)
        ensures
            final(self)@ == without_aor(old(self)@, aor@),
    {
        let ghost all = bounds(self.bindings@);
        let mut out: Vec<Binding> = Vec::new();
        let mut i: usize = 0;
        assert(bounds(out@) =~= without_aor(all.take(0), aor@));
        while i < self.bindings.len()
            invariant
                i <= self.bindings@.len(),
                *self == *old(self),
                all == bounds(self.bindings@),
                bounds(out@) == without_aor(all.take(i as int), aor@),
            decreases self.bindings@.len() - i,
        {
            let b = &self.bindings[i];
            let ghost before = out@;
            proof {
                assert(all.take(i + 1).drop_last() =~= all.take(i as int));
                assert(all.take(i + 1).last() == b@);
            }
            if !text::str_is(b.aor.as_str(), aor) {
                out.push(b.clone());
                assert(bounds(out@) =~= bounds(before).push(b@));
            }
            i += 1;
        }
        assert(all.take(i as int) =~= all);
        self.bindings = out;
    }

    fn expire(&mut self, now: u64)
        ensures
            final(self)@ == live(old(self)@, now),
    {
        let ghost all = bounds(self.bindings@);
        let mut out: Vec<Binding> = Vec::new();
        let mut i: usize = 0;
        assert(bounds(out@) =~= live(all.take(0), now));
        while i < self.bindings.len()
            invariant
                i <= self.bindings@.len(),
                *self == *old(self),
                all == bounds(self.bindings@),
                bounds(out@) == live(all.take(i as int), now),
            decreases self.bindings@.len() - i,
        {
            let b = &self.bindings[i];
            let ghost before = out@;
            proof {
                assert(all.take(i + 1).drop_last() =~= all.take(i as int));
                assert(all.take(i + 1).last() == b@);
            }
            if b.expires_at > now {
                out.push(b.clone());
                assert(bounds(out@) =~= bounds(before).push(b@));
            }
            i += 1;
        }
        assert(all.take(i as int) =~= all);
        self.bindings = out;
    }

    /// The bindings of an address that have not lapsed.
    pub fn contacts(&mut self, aor: &str, now: u64) -> (r: Vec<Binding>)
        ensures
            final(self)@ == live(old(self)@, now),
            bounds(r@) == of_aor(live(old(self)@, now), aor@),
    {
        self.expire(now);
        let ghost all = bounds(self.bindings@);
        let mut out: Vec<Binding> = Vec::new();
        let mut i: usize = 0;
        assert(bounds(out@) =~= of_aor(all.take(0), aor@));
        while i < self.bindings.len()
            invariant
                i <= self.bindings@.len(),
                all == bounds(self.bindings@),
                bounds(out@) == of_aor(all.take(i as int), aor@),
            decreases self.bindings@.len() - i,
        {
            let b = &self.bindings[i];
            let ghost before = out@;
            proof {
                assert(all.take(i + 1).drop_last() =~= all.take(i as int));
                assert(all.take(i + 1).last() == b@);
            }
            if text::str_is(b.aor.as_str(), aor) {
                out.push(b.clone());
                assert(bounds(out@) =~= bounds(before).push(b@));
            }
            i += 1;
        }
        assert(all.take(i as int) =~= all);
        out
    }

    /// The most recently refreshed binding across every address.
    pub fn newest(&mut self, now: u64) -> (r: Option<Binding>)
        ensures
            final(self)@ == live(old(self)@, now),
            match r {
                Some(b) => newest_of(live(old(self)@, now)) == Some(b@),
                None => newest_of(live(old(self)@, now)).is_none(),
            },
    {
        self.expire(now);
        let ghost all = bounds(self.bindings@);
        let mut best: Option<usize> = None;
        let mut i: usize = 0;
        assert(all.take(0) =~= Seq::<Bound>::empty());
        while i < self.bindings.len()
            invariant
                i <= self.bindings@.len(),
                all == bounds(self.bindings@),
                match best {
                    Some(k) => k < i && newest_of(all.take(i as int)) == Some(all[k as int]),
                    None => newest_of(all.take(i as int)).is_none(),
                },
            decreases self.bindings@.len() - i,
        {
            proof {
                assert(all.take(i + 1).drop_last() =~= all.take(i as int));
                assert(all.take(i + 1).last() == all[i as int]);
            }
            best = match best {
                Some(k) => if self.bindings[k].registered_at > self.bindings[i].registered_at {
                    Some(k)
                } else {
                    Some(i)
                },
                None => Some(i),
            };
            i += 1;
        }
        assert(all.take(i as int) =~= all);
        match best {
            Some(k) => Some(self.bindings[k].clone()),
            None => None,
        }
    }
}

// ------------------------------------------------------------------ laws

/// No address has one contact twice.
pub open spec fn one_per_contact(b: Seq<Bound>) -> bool {
    forall|i: int, j: int|
        0 <= i < j < b.len() ==> !((#[trigger] b[i]).aor == (#[trigger] b[j]).aor && contact_key(
            b[i].contact,
        ) == contact_key(b[j].contact))
}

proof fn lemma_without_contact(b: Seq<Bound>, aor: Seq<char>, key: Seq<char>)
    ensures
        forall|x: Bound| #[trigger]
            without_contact(b, aor, key).contains(x) <==> b.contains(x) && !(x.aor == aor
                && contact_key(x.contact) == key),
        one_per_contact(b) ==> one_per_contact(without_contact(b, aor, key)),
    decreases b.len(),
{
    if b.len() > 0 {
        let d = b.drop_last();
        let w = without_contact(d, aor, key);
        lemma_without_contact(d, aor, key);
        assert(d.push(b.last()) =~= b);
        assert forall|x: Bound| #[trigger]
            without_contact(b, aor, key).contains(x) <==> b.contains(x) && !(x.aor == aor
                && contact_key(x.contact) == key) by {
            lemma_push_contains(d, b.last(), x);
            lemma_push_contains(w, b.last(), x);
            assert(w.contains(x) <==> d.contains(x) && !(x.aor == aor && contact_key(x.contact)
                == key));
        }
        if one_per_contact(b) {
            assert forall|i: int, j: int| 0 <= i < j < d.len() implies !((#[trigger] d[i]).aor == (
            #[trigger] d[j]).aor && contact_key(d[i].contact) == contact_key(d[j].contact)) by {
                assert(b[i] == d[i] && b[j] == d[j]);
            }
            let u = without_contact(b, aor, key);
            assert forall|i: int, j: int| 0 <= i < j < u.len() implies !((#[trigger] u[i]).aor == (
            #[trigger] u[j]).aor && contact_key(u[i].contact) == contact_key(u[j].contact)) by {
                if j < w.len() {
                    assert(u[i] == w[i] && u[j] == w[j]);
                } else {
                    assert(u[i] == w[i]);
                    assert(w.contains(w[i]));
                    let k = choose|k: int| 0 <= k < d.len() && d[k] == w[i];
                    assert(b[k] == d[k] && b[b.len() - 1] == b.last());
                }
            }
        }
    }
}

proof fn lemma_push_contains(s: Seq<Bound>, x: Bound, y: Bound)
    ensures
        s.push(x).contains(y) <==> s.contains(y) || y == x,
{
    let t = s.push(x);
    if t.contains(y) {
        let i = choose|i: int| 0 <= i < t.len() && t[i] == y;
        if i < s.len() {
            assert(s[i] == y);
        }
    }
    if s.contains(y) {
        let i = choose|i: int| 0 <= i < s.len() && s[i] == y;
        assert(t[i] == y);
    }
    assert(t[s.len() as int] == x);
}

/// A registration replaces the binding of its contact and leaves every other one: there is never
/// more than one binding per contact, a registration of no duration removes it, and any other one
/// is there until it lapses.
pub proof fn law_registration(
    b: Seq<Bound>,
    aor: Seq<char>,
    contact: uri::Party,
    source: SocketAddr,
    expires: u32,
    now: u64,
)
    requires
        one_per_contact(b),
        now + expires * 1000 <= u64::MAX,
    ensures
        one_per_contact(updated(b, aor, contact, source, expires, now)),
        forall|x: Bound| #[trigger]
            updated(b, aor, contact, source, expires, now).contains(x) ==> (x.aor == aor
                && contact_key(x.contact) == contact_key(contact) ==> expires > 0
                && x.registered_at == now && x.contact == contact),
        expires > 0 ==> updated(b, aor, contact, source, expires, now).contains(
            Bound {
                aor,
                contact,
                source,
                expires_at: (now + expires * 1000) as u64,
                registered_at: now,
            },
        ),
        forall|x: Bound| #[trigger]
            b.contains(x) && !(x.aor == aor && contact_key(x.contact) == contact_key(contact))
                ==> updated(b, aor, contact, source, expires, now).contains(x),
{
    let key = contact_key(contact);
    let w = without_contact(b, aor, key);
    lemma_without_contact(b, aor, key);
    let u = updated(b, aor, contact, source, expires, now);
    if expires > 0 {
        let n = Bound {
            aor,
            contact,
            source,
            expires_at: (now + expires * 1000) as u64,
            registered_at: now,
        };
        assert forall|x: Bound| #[trigger] u.contains(x) <==> w.contains(x) || x == n by {
            lemma_push_contains(w, n, x);
        }
        assert forall|i: int, j: int| 0 <= i < j < u.len() implies !((#[trigger] u[i]).aor == (
        #[trigger] u[j]).aor && contact_key(u[i].contact) == contact_key(u[j].contact)) by {
            if j < w.len() {
                assert(u[i] == w[i] && u[j] == w[j]);
            } else {
                assert(u[i] == w[i]);
                assert(w.contains(w[i]));
            }
        }
        assert forall|x: Bound| #[trigger]
            b.contains(x) && !(x.aor == aor && contact_key(x.contact) == key) implies u.contains(
            x,
        ) by {
            assert(w.contains(x));
        }
    } else {
        assert forall|x: Bound| #[trigger]
            b.contains(x) && !(x.aor == aor && contact_key(x.contact) == key) implies u.contains(
            x,
        ) by {
            assert(w.contains(x));
        }
    }
}

/// Nothing that has lapsed is handed out, and nothing that has not is lost.
pub proof fn law_lapsed_bindings_are_gone(b: Seq<Bound>, now: u64)
    ensures
        forall|x: Bound| #[trigger]
            live(b, now).contains(x) <==> b.contains(x) && x.expires_at > now,
    decreases b.len(),
{
    if b.len() > 0 {
        let d = b.drop_last();
        law_lapsed_bindings_are_gone(d, now);
        assert(d.push(b.last()) =~= b);
        assert forall|x: Bound| #[trigger]
            live(b, now).contains(x) <==> b.contains(x) && x.expires_at > now by {
            lemma_push_contains(d, b.last(), x);
            lemma_push_contains(live(d, now), b.last(), x);
            assert(live(d, now).contains(x) <==> d.contains(x) && x.expires_at > now);
        }
    }
}

/// The newest binding is one of those there are, and none was registered later.
pub proof fn law_newest(b: Seq<Bound>)
    ensures
        match newest_of(b) {
            Some(n) => b.contains(n) && forall|i: int|
                0 <= i < b.len() ==> (#[trigger] b[i]).registered_at <= n.registered_at,
            None => b.len() == 0,
        },
    decreases b.len(),
{
    if b.len() > 0 {
        let d = b.drop_last();
        law_newest(d);
        assert(d.push(b.last()) =~= b);
        let n = newest_of(b).unwrap();
        lemma_push_contains(d, b.last(), n);
        assert forall|i: int| 0 <= i < b.len() implies (#[trigger] b[i]).registered_at
            <= n.registered_at by {
            if i < d.len() {
                assert(d[i] == b[i]);
            }
        }
    }
}

/// What registered last is where calls and messages go.
pub proof fn law_the_last_registration_is_the_newest(
    b: Seq<Bound>,
    aor: Seq<char>,
    contact: uri::Party,
    source: SocketAddr,
    expires: u32,
    now: u64,
)
    requires
        expires > 0,
        forall|x: Bound| #[trigger] b.contains(x) ==> x.registered_at <= now,
    ensures
        newest_of(updated(b, aor, contact, source, expires, now)) == Some(
            Bound {
                aor,
                contact,
                source,
                expires_at: (now + expires * 1000) as u64,
                registered_at: now,
            },
        ),
{
    let key = contact_key(contact);
    let w = without_contact(b, aor, key);
    lemma_without_contact(b, aor, key);
    let u = updated(b, aor, contact, source, expires, now);
    assert(u.drop_last() =~= w);
    law_newest(w);
}

} // verus!
