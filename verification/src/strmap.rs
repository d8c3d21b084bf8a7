//! An ordered map from strings to values: its entries are kept in ascending key order (by
//! code point, the order of `String`), each key once, as a `BTreeMap<String, V>` iterates.

use vstd::prelude::*;

use crate::text::chars_of;

verus! {

/// Lexicographic order of texts by code point (the order of Rust's `String`).
pub open spec fn text_lt(a: Seq<char>, b: Seq<char>) -> bool
    decreases a.len(),
{
    if b.len() == 0 {
        false
    } else if a.len() == 0 {
        true
    } else if a[0] == b[0] {
        text_lt(a.drop_first(), b.drop_first())
    } else {
        (a[0] as u32) < (b[0] as u32)
    }
}

/// Strictly ascending keys: each key once, in order.
pub open spec fn ascending(ks: Seq<Seq<char>>) -> bool {
    forall|i: int, j: int| 0 <= i < j < ks.len() ==> text_lt(#[trigger] ks[i], #[trigger] ks[j])
}

/// No text is below itself.
pub proof fn lemma_text_lt_irreflexive(a: Seq<char>)
    ensures
        !text_lt(a, a),
    decreases a.len(),
{
    if a.len() > 0 {
        lemma_text_lt_irreflexive(a.drop_first());
    }
}

/// The order is transitive.
pub proof fn lemma_text_lt_transitive(a: Seq<char>, b: Seq<char>, c: Seq<char>)
    requires
        text_lt(a, b),
        text_lt(b, c),
    ensures
        text_lt(a, c),
    decreases a.len(),
{
    if a.len() > 0 && a[0] == b[0] && b[0] == c[0] {
        lemma_text_lt_transitive(a.drop_first(), b.drop_first(), c.drop_first());
    }
}

/// Two different texts are ordered one way or the other.
pub proof fn lemma_text_lt_total(a: Seq<char>, b: Seq<char>)
    requires
        a != b,
    ensures
        text_lt(a, b) || text_lt(b, a),
    decreases a.len(),
{
    if a.len() > 0 && b.len() > 0 {
        if a[0] == b[0] {
            if a.drop_first() == b.drop_first() {
                assert(a =~= seq![a[0]] + a.drop_first());
                assert(b =~= seq![b[0]] + b.drop_first());
            }
            lemma_text_lt_total(a.drop_first(), b.drop_first());
        } else {
            vstd::utf8::char_u32_cast(a[0], a[0] as u32);
            vstd::utf8::char_u32_cast(b[0], b[0] as u32);
            assert((a[0] as u32) != (b[0] as u32));
        }
    } else if a.len() == 0 && b.len() == 0 {
        assert(a =~= b);
    }
}

/// Whether `a` comes before `b`.
pub fn text_less(a: &[char], b: &[char]) -> (res: bool)
    ensures
        res == text_lt(a@, b@),
{
    let mut i: usize = 0;
    assert(a@.skip(0) =~= a@);
    assert(b@.skip(0) =~= b@);
    while i < a.len() && i < b.len()
        invariant
            i <= a.len(),
            i <= b.len(),
            forall|j: int| 0 <= j < i ==> a@[j] == b@[j],
            text_lt(a@, b@) == text_lt(a@.skip(i as int), b@.skip(i as int)),
        decreases a.len() - i,
    {
        if a[i] != b[i] {
            return (a[i] as u32) < (b[i] as u32);
        }
        assert(a@.skip(i as int).drop_first() =~= a@.skip(i + 1));
        assert(b@.skip(i as int).drop_first() =~= b@.skip(i + 1));
        i = i + 1;
    }
    i < b.len()
}

/// The keys of a list of entries, in order.
pub open spec fn entry_keys<T>(es: Seq<(String, T)>) -> Seq<Seq<char>> {
    es.map_values(|e: (String, T)| e.0@)
}

/// An ordered map from strings to values.
pub struct StrMap<T> {
    entries: Vec<(String, T)>,
}

impl<T> StrMap<T> {
    /// The keys, in entry order.
    pub closed spec fn key_order(&self) -> Seq<Seq<char>> {
        entry_keys(self.entries@)
    }

    #[verifier::type_invariant]
    closed spec fn keys_ascending(&self) -> bool {
        ascending(self.key_order())
    }

    /// The map the entries stand for.
    pub closed spec fn as_map(&self) -> Map<Seq<char>, T> {
        Map::new(
            |k: Seq<char>| self.key_order().contains(k),
            |k: Seq<char>| self.entries@[self.key_order().index_of(k)].1,
        )
    }

    /// An empty map.
    pub fn new() -> (res: StrMap<T>)
        ensures
            res.as_map() == Map::<Seq<char>, T>::empty(),
            res.key_order() == Seq::<Seq<char>>::empty(),
    {
        let res = StrMap { entries: Vec::new() };
        assert(res.as_map() =~= Map::<Seq<char>, T>::empty());
        assert(res.key_order() =~= Seq::<Seq<char>>::empty());
        res
    }
}

/// In ascending keys, a key sits at one position only.
proof fn lemma_index_of_ascending(ks: Seq<Seq<char>>, i: int)
    requires
        ascending(ks),
        0 <= i < ks.len(),
    ensures
        ks.index_of(ks[i]) == i,
{
    let j = ks.index_of(ks[i]);
    assert(ks.contains(ks[i]));
    if j < i {
        lemma_text_lt_irreflexive(ks[i]);
        assert(text_lt(ks[j], ks[i]));
    } else if i < j {
        lemma_text_lt_irreflexive(ks[i]);
        assert(text_lt(ks[i], ks[j]));
    }
}


/// What the map holds at the key of entry `j`.
proof fn lemma_value_at<T>(m: StrMap<T>, j: int)
    requires
        ascending(m.key_order()),
        0 <= j < m.entries@.len(),
    ensures
        m.as_map().contains_key(m.key_order()[j]),
        m.as_map()[m.key_order()[j]] == m.entries@[j].1,
{
    lemma_index_of_ascending(m.key_order(), j);
    assert(m.key_order().contains(m.key_order()[j]));
}

/// Where a key is, or where it would go.
enum Slot {
    /// The key is held by this entry.
    At(usize),
    /// The key is absent; it would be inserted before this entry.
    Before(usize),
}

impl<T> StrMap<T> {
    /// The slot of key `k`: the entry that holds it, or the position that keeps the keys
    /// ascending when it is inserted there.
    fn slot(&self, k: &Vec<char>) -> (res: Slot)
        ensures
            match res {
                Slot::At(i) => i < self.entries@.len() && self.key_order()[i as int] == k@,
                Slot::Before(p) => {
                    &&& p <= self.entries@.len()
                    &&& !self.key_order().contains(k@)
                    &&& forall|j: int| 0 <= j < p ==> text_lt(#[trigger] self.key_order()[j], k@)
                    &&& forall|j: int|
                        p <= j < self.entries@.len() ==> text_lt(k@, #[trigger] self.key_order()[j])
                },
            },
    {
        proof {
            use_type_invariant(self);
        }
        let ghost ks = self.key_order();
        let mut i: usize = 0;
        while i < self.entries.len()
            invariant
                i <= self.entries@.len(),
                ks == self.key_order(),
                ks.len() == self.entries@.len(),
                ascending(ks),
                forall|j: int| 0 <= j < i ==> text_lt(#[trigger] ks[j], k@),
            decreases self.entries.len() - i,
        {
            let ki = chars_of(self.entries[i].0.as_str());
            assert(ki@ == ks[i as int]);
            if crate::text::chars_equal(&ki, k) {
                return Slot::At(i);
            }
            if text_less(k, &ki) {
                proof {
                    assert forall|j: int| i <= j < ks.len() implies text_lt(k@, #[trigger] ks[j]) by {
                        if j > i {
                            lemma_text_lt_transitive(k@, ks[i as int], ks[j]);
                        }
                    }
                    assert forall|j: int| 0 <= j < ks.len() implies ks[j] != k@ by {
                        lemma_text_lt_irreflexive(k@);
                    }
                }
                return Slot::Before(i);
            }
            proof {
                lemma_text_lt_total(ki@, k@);
            }
            i = i + 1;
        }
        proof {
            assert forall|j: int| 0 <= j < ks.len() implies ks[j] != k@ by {
                lemma_text_lt_irreflexive(k@);
            }
        }
        Slot::Before(i)
    }

    /// The value at key `k`, if present.
    pub fn get(&self, k: &str) -> (res: Option<&T>)
        ensures
            match res {
                Some(v) => self.as_map().contains_key(k@) && *v == self.as_map()[k@],
                None => !self.as_map().contains_key(k@),
            },
    {
        proof {
            use_type_invariant(self);
        }
        let kc = chars_of(k);
        match self.slot(&kc) {
            Slot::At(i) => {
                proof {
                    lemma_value_at(*self, i as int);
                }
                Some(&self.entries[i].1)
            },
            Slot::Before(_) => None,
        }
    }

    /// Sets the value at key `k`, returning the value it replaces.
    pub fn insert(&mut self, k: String, v: T) -> (res: Option<T>)
        ensures
            final(self).as_map() == old(self).as_map().insert(k@, v),
            res == (if old(self).as_map().contains_key(k@) {
                Some(old(self).as_map()[k@])
            } else {
                None
            }),
    {
        proof {
            use_type_invariant(&*self);
        }
        let ghost old_map = self.as_map();
        let ghost ks = self.key_order();
        let ghost es = self.entries@;
        let kc = chars_of(k.as_str());
        let slot = self.slot(&kc);
        let mut entries: Vec<(String, T)> = Vec::new();
        std::mem::swap(&mut entries, &mut self.entries);
        match slot {
            Slot::At(i) => {
                proof {
                    lemma_value_at(StrMap { entries: entries }, i as int);
                }
                let ghost kk = k;
                let ghost kview = k@;
                let ghost vv = v;
                let (_key, old_value) = entries.remove(i);
                entries.insert(i, (k, v));
                proof {
                    assert(entries@ =~= es.update(i as int, (kk, vv)));
                    assert(entry_keys(entries@) =~= ks);
                    let m = StrMap { entries: entries };
                    assert forall|q: Seq<char>| #[trigger] m.as_map().contains_key(q) <==> old_map.insert(kview, vv).contains_key(q) by {}
                    assert forall|q: Seq<char>| m.as_map().contains_key(q) implies #[trigger] m.as_map()[q] == old_map.insert(kview, vv)[q] by {
                        let j = ks.index_of(q);
                        lemma_index_of_ascending(ks, j);
                        assert(ks[j] == q);
                        assert(m.key_order() == ks);
                        assert(m.as_map()[q] == entries@[j].1);
                        assert(old_map[q] == es[j].1);
                        if j != i {
                            assert(entries@[j] == es[j]);
                            lemma_index_of_ascending(ks, i as int);
                            assert(q != kview);
                        } else {
                            assert(q == kview);
                            assert(entries@[j] == (kk, vv));
                        }
                    }
                    assert(m.as_map() =~= old_map.insert(kview, vv));
                }
                self.entries = entries;
                Some(old_value)
            },
            Slot::Before(p) => {
                let ghost kk = k;
                let ghost kview = k@;
                let ghost vv = v;
                entries.insert(p, (k, v));
                proof {
                    let nks = entry_keys(entries@);
                    assert(nks =~= ks.insert(p as int, k@));
                    assert forall|a: int, b: int| 0 <= a < b < nks.len() implies text_lt(#[trigger] nks[a], #[trigger] nks[b]) by {
                        if b < p {
                        } else if a < p && b == p {
                        } else if a < p && b > p {
                            assert(nks[b] == ks[b - 1]);
                        } else if a == p {
                            assert(nks[b] == ks[b - 1]);
                        } else {
                            assert(nks[a] == ks[a - 1]);
                            assert(nks[b] == ks[b - 1]);
                        }
                    }
                    let m = StrMap { entries: entries };
                    assert forall|q: Seq<char>| #[trigger] m.as_map().contains_key(q) <==> old_map.insert(k@, v).contains_key(q) by {
                        if nks.contains(q) {
                            let j = choose|j: int| 0 <= j < nks.len() && nks[j] == q;
                            if j < p {
                                assert(ks[j] == q);
                            } else if j > p {
                                assert(ks[j - 1] == q);
                            }
                        }
                        if ks.contains(q) {
                            let j = choose|j: int| 0 <= j < ks.len() && ks[j] == q;
                            if j < p {
                                assert(nks[j] == q);
                            } else {
                                assert(nks[j + 1] == q);
                            }
                        }
                        if q == k@ {
                            assert(nks[p as int] == q);
                        }
                    }
                    assert forall|q: Seq<char>| m.as_map().contains_key(q) implies #[trigger] m.as_map()[q] == old_map.insert(kview, vv)[q] by {
                        let j = nks.index_of(q);
                        lemma_index_of_ascending(nks, j);
                        if j < p {
                            assert(entries@[j] == es[j]);
                            assert(ks[j] == q);
                            lemma_index_of_ascending(ks, j);
                        } else if j > p {
                            assert(entries@[j] == es[j - 1]);
                            assert(ks[j - 1] == q);
                            lemma_index_of_ascending(ks, j - 1);
                        } else {
                            assert(entries@[j] == (kk, vv));
                        }
                    }
                    assert(m.as_map() =~= old_map.insert(kview, vv));
                }
                self.entries = entries;
                None
            },
        }
    }

    /// Removes the entry at key `k`, returning its value.
    pub fn remove(&mut self, k: &str) -> (res: Option<T>)
        ensures
            final(self).as_map() == old(self).as_map().remove(k@),
            res == (if old(self).as_map().contains_key(k@) {
                Some(old(self).as_map()[k@])
            } else {
                None
            }),
    {
        proof {
            use_type_invariant(&*self);
        }
        let ghost old_map = self.as_map();
        let ghost ks = self.key_order();
        let kc = chars_of(k);
        match self.slot(&kc) {
            Slot::At(i) => {
                let mut entries: Vec<(String, T)> = Vec::new();
                std::mem::swap(&mut entries, &mut self.entries);
                proof {
                    lemma_value_at(StrMap { entries: entries }, i as int);
                }
                let (_key, value) = entries.remove(i);
                proof {
                    let nks = entry_keys(entries@);
                    assert(nks =~= ks.remove(i as int));
                    assert forall|a: int, b: int| 0 <= a < b < nks.len() implies text_lt(#[trigger] nks[a], #[trigger] nks[b]) by {
                        if b < i {
                        } else if a < i {
                            assert(nks[b] == ks[b + 1]);
                        } else {
                            assert(nks[a] == ks[a + 1]);
                            assert(nks[b] == ks[b + 1]);
                        }
                    }
                    let m = StrMap { entries: entries };
                    assert forall|q: Seq<char>| #[trigger] m.as_map().contains_key(q) <==> old_map.remove(k@).contains_key(q) by {
                        if nks.contains(q) {
                            let j = choose|j: int| 0 <= j < nks.len() && nks[j] == q;
                            if j < i {
                                assert(ks[j] == q);
                                lemma_text_lt_irreflexive(q);
                            } else {
                                assert(ks[j + 1] == q);
                                lemma_text_lt_irreflexive(q);
                            }
                        }
                        if ks.contains(q) && q != k@ {
                            let j = choose|j: int| 0 <= j < ks.len() && ks[j] == q;
                            if j < i {
                                assert(nks[j] == q);
                            } else {
                                assert(nks[j - 1] == q);
                            }
                        }
                    }
                    assert forall|q: Seq<char>| m.as_map().contains_key(q) implies #[trigger] m.as_map()[q] == old_map.remove(k@)[q] by {
                        let j = nks.index_of(q);
                        lemma_index_of_ascending(nks, j);
                        if j < i {
                            lemma_index_of_ascending(ks, j);
                        } else {
                            lemma_index_of_ascending(ks, j + 1);
                        }
                    }
                    assert(m.as_map() =~= old_map.remove(k@));
                }
                self.entries = entries;
                Some(value)
            },
            Slot::Before(_) => {
                assert(old_map.remove(k@) =~= old_map);
                None
            },
        }
    }

    /// The number of entries.
    pub fn len(&self) -> (res: usize)
        ensures
            res == self.key_order().len(),
    {
        self.entries.len()
    }

    /// Whether the map holds no entry.
    pub fn is_empty(&self) -> (res: bool)
        ensures
            res == (self.as_map() == Map::<Seq<char>, T>::empty()),
    {
        if self.entries.len() == 0 {
            assert(self.as_map() =~= Map::<Seq<char>, T>::empty());
            true
        } else {
            assert(self.as_map().contains_key(self.key_order()[0]));
            false
        }
    }

    /// The entries in ascending key order, each key once.
    pub fn into_entries(self) -> (res: Vec<(String, T)>)
        ensures
            entry_keys(res@) == self.key_order(),
            ascending(entry_keys(res@)),
            forall|k: Seq<char>| #[trigger]
                self.as_map().contains_key(k) <==> entry_keys(res@).contains(k),
            forall|j: int|
                0 <= j < res@.len() ==> self.as_map()[(#[trigger] res@[j]).0@] == res@[j].1,
    {
        proof {
            use_type_invariant(&self);
            assert forall|j: int| 0 <= j < self.entries@.len() implies self.as_map()[(#[trigger] self.entries@[j]).0@] == self.entries@[j].1 by {
                lemma_value_at(self, j);
            }
        }
        self.entries
    }
}

} // verus!
