//! A table of values by text keys.
use vstd::prelude::*;

use crate::text;

verus! {

/// Values by key, each key once, in the order of their first insertion.
#[derive(Debug)]
pub struct Table<V> {
    keys: Vec<String>,
    values: Vec<V>,
}

/// The place of a key in a list, or the length.
pub open spec fn place(keys: Seq<Seq<char>>, k: Seq<char>) -> int
    decreases keys.len(),
{
    if keys.len() == 0 || keys[0] == k {
        0
    } else {
        1 + place(keys.skip(1), k)
    }
}

pub proof fn lemma_place(keys: Seq<Seq<char>>, k: Seq<char>)
    ensures
        0 <= place(keys, k) <= keys.len(),
        place(keys, k) < keys.len() ==> keys[place(keys, k)] == k,
        forall|j: int| 0 <= j < place(keys, k) ==> keys[j] != k,
    decreases keys.len(),
{
    if keys.len() > 0 && keys[0] != k {
        lemma_place(keys.skip(1), k);
        assert forall|j: int| 0 <= j < place(keys, k) implies keys[j] != k by {
            if j > 0 {
                assert(keys.skip(1)[j - 1] == keys[j]);
            }
        }
    }
}

pub proof fn lemma_place_unique(keys: Seq<Seq<char>>, k: Seq<char>, i: int)
    requires
        0 <= i <= keys.len(),
        i < keys.len() ==> keys[i] == k,
        forall|j: int| 0 <= j < i ==> keys[j] != k,
    ensures
        place(keys, k) == i,
{
    lemma_place(keys, k);
    if place(keys, k) < i {
        assert(keys[place(keys, k)] == k);
    }
}

/// No key occurs twice.
pub open spec fn distinct(keys: Seq<Seq<char>>) -> bool {
    forall|i: int, j: int| 0 <= i < j < keys.len() ==> keys[i] != keys[j]
}

impl<V> View for Table<V> {
    type V = Map<Seq<char>, V>;

    closed spec fn view(&self) -> Map<Seq<char>, V> {
        Map::new(
            |k: Seq<char>| place(text::texts(self.keys@), k) < self.values@.len(),
            |k: Seq<char>| self.values@[place(text::texts(self.keys@), k)],
        )
    }
}

impl<V> Table<V> {
    /// One value per key, and no key twice.
    pub closed spec fn wf(&self) -> bool {
        self.keys@.len() == self.values@.len() && distinct(text::texts(self.keys@))
    }

    /// How many entries there are.
    pub closed spec fn size(&self) -> nat {
        self.keys@.len()
    }

    /// The key of an entry.
    pub closed spec fn key(&self, i: int) -> Seq<char> {
        self.keys@[i]@
    }

    pub fn new() -> (r: Self)
        ensures
            r.wf(),
            r.size() == 0,
            r@ == Map::<Seq<char>, V>::empty(),
    {
        let r = Table { keys: Vec::new(), values: Vec::new() };
        proof {
            assert forall|k: Seq<char>| !r@.contains_key(k) by {
                lemma_place(text::texts(r.keys@), k);
            }
            assert(r@ =~= Map::<Seq<char>, V>::empty());
        }
        r
    }

    pub fn len(&self) -> (r: usize)
        ensures
            r == self.size(),
    {
        self.keys.len()
    }

    fn position(&self, k: &str) -> (r: usize)
        requires
            self.wf(),
        ensures
            r == place(text::texts(self.keys@), k@),
            r <= self.keys@.len(),
            (r < self.keys@.len()) == self@.contains_key(k@),
    {
        let ghost ks = text::texts(self.keys@);
        let mut i: usize = 0;
        while i < self.keys.len()
            invariant
                i <= self.keys@.len(),
                self.wf(),
                ks == text::texts(self.keys@),
                forall|j: int| 0 <= j < i ==> ks[j] != k@,
            decreases self.keys@.len() - i,
        {
            if text::str_is(self.keys[i].as_str(), k) {
                proof {
                    lemma_place_unique(ks, k@, i as int);
                }
                return i;
            }
            i += 1;
        }
        proof {
            lemma_place_unique(ks, k@, i as int);
        }
        i
    }

    pub fn get(&self, k: &str) -> (r: Option<&V>)
        requires
            self.wf(),
        ensures
            match r {
                Some(v) => self@.contains_key(k@) && *v == self@[k@],
                None => !self@.contains_key(k@),
            },
    {
        let i = self.position(k);
        if i < self.keys.len() {
            Some(&self.values[i])
        } else {
            None
        }
    }

    pub fn contains(&self, k: &str) -> (r: bool)
        requires
            self.wf(),
        ensures
            r == self@.contains_key(k@),
    {
        self.position(k) < self.keys.len()
    }

    pub fn insert(&mut self, k: &str, v: V)
        requires
            old(self).wf(),
        ensures
            final(self).wf(),
            final(self)@ == old(self)@.insert(k@, v),
    {
        let ghost ks = text::texts(self.keys@);
        let ghost vs = self.values@;
        let i = self.position(k);
        if i < self.keys.len() {
            self.values[i] = v;
            proof {
                assert forall|x: Seq<char>| #[trigger] self@.contains_key(x) == old(
                    self,
                )@.insert(k@, v).contains_key(x) by {
                    lemma_place(ks, x);
                }
                assert forall|x: Seq<char>| #[trigger]
                    self@.contains_key(x) implies self@[x] == old(self)@.insert(k@, v)[x] by {
                    lemma_place(ks, x);
                    lemma_place(ks, k@);
                    if x != k@ {
                        assert(ks[place(ks, x)] == x);
                    }
                }
                assert(self@ =~= old(self)@.insert(k@, v));
            }
        } else {
            self.keys.push(text::owned(k));
            self.values.push(v);
            proof {
                let ks1 = text::texts(self.keys@);
                assert(ks1 =~= ks.push(k@));
                lemma_place(ks, k@);
                assert forall|x: Seq<char>|
                    place(ks1, x) == (if x == k@ {
                        ks.len() as int
                    } else if #[trigger] place(ks, x) < ks.len() {
                        place(ks, x)
                    } else {
                        ks.len() as int + 1
                    }) by {
                    lemma_place(ks, x);
                    if x == k@ {
                        lemma_place_unique(ks1, x, ks.len() as int);
                    } else if place(ks, x) < ks.len() {
                        lemma_place_unique(ks1, x, place(ks, x));
                    } else {
                        lemma_place_unique(ks1, x, ks.len() as int + 1);
                    }
                }
                assert forall|x: Seq<char>| #[trigger] self@.contains_key(x) == old(
                    self,
                )@.insert(k@, v).contains_key(x) by {
                    lemma_place(ks, x);
                    assert(place(ks, x) <= ks.len());
                }
                assert forall|x: Seq<char>| #[trigger]
                    self@.contains_key(x) implies self@[x] == old(self)@.insert(k@, v)[x] by {
                    lemma_place(ks, x);
                    assert(place(ks, x) <= ks.len());
                }
                assert(self@ =~= old(self)@.insert(k@, v));
            }
        }
    }

    /// Every entry is found under its key, and every key belongs to an entry.
    pub proof fn lemma_keys(&self)
        requires
            self.wf(),
        ensures
            forall|i: int| 0 <= i < self.size() ==> self@.contains_key(#[trigger] self.key(i)),
            forall|k: Seq<char>| #[trigger]
                self@.contains_key(k) ==> exists|i: int|
                    0 <= i < self.size() && #[trigger] self.key(i) == k,
    {
        let ks = text::texts(self.keys@);
        assert forall|i: int| 0 <= i < self.size() implies self@.contains_key(
            #[trigger] self.key(i),
        ) by {
            assert(ks[i] == self.key(i));
            lemma_place_unique(ks, self.key(i), i);
        }
        assert forall|k: Seq<char>| #[trigger] self@.contains_key(k) implies exists|i: int|
            0 <= i < self.size() && #[trigger] self.key(i) == k by {
            lemma_place(ks, k);
            assert(self.key(place(ks, k)) == k);
        }
    }

    /// The value of the entry at a place.
    pub(crate) fn value_at(&self, i: usize) -> (r: &V)
        requires
            self.wf(),
            i < self.size(),
        ensures
            self@.contains_key(self.key(i as int)),
            *r == self@[self.key(i as int)],
    {
        proof {
            let ks = text::texts(self.keys@);
            assert(ks[i as int] == self.key(i as int));
            lemma_place_unique(ks, self.key(i as int), i as int);
        }
        &self.values[i]
    }

    /// Take out the entry at a place.
    pub(crate) fn remove_index(&mut self, i: usize) -> (r: V)
        requires
            old(self).wf(),
            i < old(self).size(),
        ensures
            final(self).wf(),
            final(self).size() == old(self).size() - 1,
            old(self)@.contains_key(old(self).key(i as int)),
            r == old(self)@[old(self).key(i as int)],
            final(self)@ == old(self)@.remove(old(self).key(i as int)),
            forall|j: int| 0 <= j < i ==> #[trigger] final(self).key(j) == old(self).key(j),
            forall|j: int|
                i <= j < final(self).size() ==> #[trigger] final(self).key(j) == old(self).key(
                    j + 1,
                ),
    {
        let ghost ks = text::texts(self.keys@);
        let ghost k = self.keys@[i as int]@;
        let _ = self.keys.remove(i);
        let v = self.values.remove(i);
        proof {
            let ks1 = text::texts(self.keys@);
            assert(ks1 =~= ks.remove(i as int));
            assert(ks[i as int] == k);
            lemma_place_unique(ks, k, i as int);
            assert forall|x: Seq<char>|
                place(ks1, x) == (if x == k {
                    ks.len() - 1
                } else if #[trigger] place(ks, x) <= i {
                    place(ks, x)
                } else {
                    place(ks, x) - 1
                }) by {
                lemma_place(ks, x);
                if x == k {
                    assert forall|j: int| 0 <= j < ks1.len() implies ks1[j] != x by {
                        if j < i {
                            assert(ks1[j] == ks[j]);
                        } else {
                            assert(ks1[j] == ks[j + 1]);
                        }
                    }
                    lemma_place_unique(ks1, x, ks.len() - 1);
                } else {
                    let p = place(ks, x);
                    assert(p != i);
                    let q = if p < i {
                        p
                    } else {
                        p - 1
                    };
                    assert forall|j: int| 0 <= j < q implies ks1[j] != x by {
                        if j < i {
                            assert(ks1[j] == ks[j]);
                        } else {
                            assert(ks1[j] == ks[j + 1]);
                        }
                    }
                    if q < ks1.len() {
                        if q < i {
                            assert(ks1[q] == ks[q]);
                        } else {
                            assert(ks1[q] == ks[q + 1]);
                        }
                    }
                    lemma_place_unique(ks1, x, q);
                }
            }
            assert forall|a: int, b: int| 0 <= a < b < ks1.len() implies ks1[a] != ks1[b] by {
                let a1 = if a < i {
                    a
                } else {
                    a + 1
                };
                let b1 = if b < i {
                    b
                } else {
                    b + 1
                };
                assert(ks1[a] == ks[a1] && ks1[b] == ks[b1]);
            }
            assert forall|x: Seq<char>| #[trigger] self@.contains_key(x) == old(self)@.remove(
                k,
            ).contains_key(x) by {
                lemma_place(ks, x);
                assert(place(ks, x) <= ks.len());
            }
            assert forall|x: Seq<char>| #[trigger] self@.contains_key(x) implies self@[x] == old(
                self,
            )@.remove(k)[x] by {
                lemma_place(ks, x);
                assert(place(ks, x) <= ks.len());
            }
            assert(self@ =~= old(self)@.remove(k));
        }
        v
    }

    pub fn remove(&mut self, k: &str) -> (r: Option<V>)
        requires
            old(self).wf(),
        ensures
            final(self).wf(),
            final(self)@ == old(self)@.remove(k@),
            match r {
                Some(v) => old(self)@.contains_key(k@) && v == old(self)@[k@],
                None => !old(self)@.contains_key(k@),
            },
    {
        proof {
            lemma_place(text::texts(self.keys@), k@);
        }
        let i = self.position(k);
        if i < self.keys.len() {
            assert(self.key(i as int) == k@);
            Some(self.remove_index(i))
        } else {
            assert(self@ =~= self@.remove(k@));
            None
        }
    }
}

} // verus!
