//! An ordered map from text keys to text values, used for header sets and
//! for the open documents.

use vstd::prelude::*;
use crate::text::same_text;

verus! {

/// Entries of a text map: key and value of each, in insertion order.
pub type Entries = Seq<(Seq<char>, Seq<char>)>;

/// No key occurs twice.
pub open spec fn keys_unique(v: Entries) -> bool {
    forall|i: int, j: int| 0 <= i < j < v.len() ==> v[i].0 != v[j].0
}

/// Index of the first entry at or after `i` whose key is `k` (or `v.len()`).
pub open spec fn find_key(v: Entries, k: Seq<char>, i: int) -> int
    decreases v.len() - i,
{
    if i < v.len() && v[i].0 != k {
        find_key(v, k, i + 1)
    } else {
        i
    }
}

/// The value stored under `k`.
pub open spec fn lookup(v: Entries, k: Seq<char>) -> Option<Seq<char>> {
    let i = find_key(v, k, 0);
    if 0 <= i < v.len() {
        Some(v[i].1)
    } else {
        None
    }
}

/// `v` with `k` bound to `val`: an existing entry keeps its place, a new one goes last.
pub open spec fn insert_entry(v: Entries, k: Seq<char>, val: Seq<char>) -> Entries {
    let i = find_key(v, k, 0);
    if 0 <= i < v.len() {
        v.update(i, (k, val))
    } else {
        v.push((k, val))
    }
}

/// `v` without any entry for `k`; the other entries keep their order.
pub open spec fn remove_entry(v: Entries, k: Seq<char>) -> Entries
    decreases v.len(),
{
    if v.len() == 0 {
        Seq::empty()
    } else {
        let p = remove_entry(v.drop_last(), k);
        if v.last().0 == k {
            p
        } else {
            p.push(v.last())
        }
    }
}

pub proof fn lemma_find_key(v: Entries, k: Seq<char>, i: int)
    requires
        0 <= i <= v.len(),
    ensures
        i <= find_key(v, k, i) <= v.len(),
        find_key(v, k, i) < v.len() ==> v[find_key(v, k, i)].0 == k,
        forall|j: int| i <= j < find_key(v, k, i) ==> v[j].0 != k,
    decreases v.len() - i,
{
    if i < v.len() && v[i].0 != k {
        lemma_find_key(v, k, i + 1);
    }
}

pub proof fn lemma_insert_keeps_unique(v: Entries, k: Seq<char>, val: Seq<char>)
    requires
        keys_unique(v),
    ensures
        keys_unique(insert_entry(v, k, val)),
{
    lemma_find_key(v, k, 0);
}

proof fn lemma_find_key_push(v: Entries, e: (Seq<char>, Seq<char>), q: Seq<char>, i: int)
    requires
        0 <= i <= v.len(),
    ensures
        find_key(v.push(e), q, i) == if find_key(v, q, i) < v.len() {
            find_key(v, q, i)
        } else if e.0 == q {
            v.len() as int
        } else {
            v.len() + 1int
        },
    decreases v.len() - i,
{
    let w = v.push(e);
    if i < v.len() {
        assert(w[i] == v[i]);
        if v[i].0 != q {
            lemma_find_key_push(v, e, q, i + 1);
        }
    } else {
        assert(w[i] == e);
        if e.0 != q {
            assert(find_key(w, q, i + 1) == i + 1);
        }
    }
}

/// Looking up in a map with one more entry at the end.
pub proof fn lemma_lookup_push(v: Entries, e: (Seq<char>, Seq<char>), q: Seq<char>)
    ensures
        lookup(v.push(e), q) == match lookup(v, q) {
            Some(x) => Some(x),
            None => if e.0 == q {
                Some(e.1)
            } else {
                None
            },
        },
{
    lemma_find_key_push(v, e, q, 0);
    lemma_find_key(v, q, 0);
    let i = find_key(v, q, 0);
    if i < v.len() {
        assert(v.push(e)[i] == v[i]);
    } else if e.0 == q {
        assert(v.push(e)[v.len() as int] == e);
    }
}

/// After dropping `k`, looking up `k` finds nothing and every other key is unchanged.
pub proof fn lemma_lookup_remove(v: Entries, k: Seq<char>, q: Seq<char>)
    ensures
        lookup(remove_entry(v, k), q) == if q == k {
            None
        } else {
            lookup(v, q)
        },
    decreases v.len(),
{
    if v.len() == 0 {
        assert(find_key(v, q, 0) == 0);
        assert(find_key(remove_entry(v, k), q, 0) == 0);
    } else {
        let d = v.drop_last();
        let e = v.last();
        assert(d.push(e) =~= v);
        lemma_lookup_remove(d, k, q);
        lemma_lookup_push(d, e, q);
        if e.0 != k {
            lemma_lookup_push(remove_entry(d, k), e, q);
        }
    }
}

/// After binding `k` to `val`, looking up `k` gives `val` and every other key is unchanged.
pub proof fn lemma_lookup_insert(v: Entries, k: Seq<char>, val: Seq<char>, q: Seq<char>)
    ensures
        lookup(insert_entry(v, k, val), q) == if q == k {
            Some(val)
        } else {
            lookup(v, q)
        },
{
    let w = insert_entry(v, k, val);
    lemma_find_key(v, k, 0);
    lemma_find_key(v, q, 0);
    lemma_find_key(w, q, 0);
    let i = find_key(v, k, 0);
    let jv = find_key(v, q, 0);
    let jw = find_key(w, q, 0);
    if q == k {
        if i < v.len() {
            assert(w[i].0 == q);
            if jw < i {
                assert(w[jw] == v[jw]);
            }
            assert(jw == i);
        } else {
            assert(w[v.len() as int].0 == q);
            if jw < v.len() {
                assert(w[jw] == v[jw]);
            }
            assert(jw == v.len());
        }
    } else {
        if jv < v.len() {
            assert(jv != i);
            assert(w[jv] == v[jv]);
            if jw < jv {
                assert(jw != i ==> w[jw] == v[jw]);
            }
            assert(jw == jv);
        } else {
            assert forall|j: int| 0 <= j < w.len() implies w[j].0 != q by {
                if j < v.len() && j != i {
                    assert(w[j] == v[j]);
                }
            }
            assert(jw == w.len());
        }
    }
}

/// The entries of stored pairs, seen as characters.
pub open spec fn entries_view(e: Seq<(String, String)>) -> Entries {
    Seq::new(e.len(), |i: int| (e[i].0@, e[i].1@))
}

/// A map from text keys to text values that keeps the order in which keys came in;
/// binding a key again replaces its value in place.
#[derive(Debug, Clone)]
pub struct TextMap {
    entries: Vec<(String, String)>,
}

impl View for TextMap {
    type V = Entries;

    closed spec fn view(&self) -> Entries {
        entries_view(self.entries@)
    }
}

impl TextMap {
    /// An empty map.
    pub fn new() -> (r: TextMap)
        ensures
            r@ == Seq::<(Seq<char>, Seq<char>)>::empty(),
            keys_unique(r@),
    {
        let r = TextMap { entries: Vec::new() };
        assert(r@ =~= Seq::<(Seq<char>, Seq<char>)>::empty());
        r
    }

    pub fn len(&self) -> (r: usize)
        ensures
            r == self@.len(),
    {
        self.entries.len()
    }

    pub fn is_empty(&self) -> (r: bool)
        ensures
            r == (self@.len() == 0),
    {
        self.entries.len() == 0
    }

    /// Key and value of the `i`-th entry.
    pub fn entry(&self, i: usize) -> (r: (&String, &String))
        requires
            i < self@.len(),
        ensures
            r.0@ == self@[i as int].0,
            r.1@ == self@[i as int].1,
    {
        let e = &self.entries[i];
        (&e.0, &e.1)
    }

    fn position(&self, key: &str) -> (r: usize)
        ensures
            r as int == find_key(self@, key@, 0),
    {
        let mut i: usize = 0;
        while i < self.entries.len() && !same_text(&self.entries[i].0, key)
            invariant
                i <= self.entries.len(),
                self@.len() == self.entries.len(),
                find_key(self@, key@, 0) == find_key(self@, key@, i as int),
            decreases self.entries.len() - i,
        {
            assert(self@[i as int].0 == self.entries@[i as int].0@);
            i = i + 1;
        }
        proof {
            if i < self.entries.len() {
                assert(self@[i as int].0 == self.entries@[i as int].0@);
            }
        }
        i
    }

    /// The value stored under `key`.
    pub fn get(&self, key: &str) -> (r: Option<&String>)
        ensures
            match r {
                Some(v) => lookup(self@, key@) == Some(v@),
                None => lookup(self@, key@) is None,
            },
    {
        let i = self.position(key);
        if i < self.entries.len() {
            Some(&self.entries[i].1)
        } else {
            None
        }
    }

    /// Binds `key` to `value`.
    pub fn insert(&mut self, key: String, value: String)
        ensures
            final(self)@ == insert_entry(old(self)@, key@, value@),
            keys_unique(old(self)@) ==> keys_unique(final(self)@),
    {
        proof {
            if keys_unique(self@) {
                lemma_insert_keeps_unique(self@, key@, value@);
            }
        }
        let i = self.position(key.as_str());
        let ghost target = insert_entry(self@, key@, value@);
        if i < self.entries.len() {
            self.entries.set(i, (key, value));
        } else {
            self.entries.push((key, value));
        }
        assert(self@ =~= target);
    }

    /// Drops every entry for `key`.
    pub fn remove(&mut self, key: &str)
        ensures
            final(self)@ == remove_entry(old(self)@, key@),
            lookup(final(self)@, key@) is None,
            forall|q: Seq<char>| q != key@ ==> lookup(final(self)@, q) == lookup(old(self)@, q),
    {
        let ghost v = self@;
        let mut kept: Vec<(String, String)> = Vec::new();
        let mut i: usize = 0;
        while i < self.entries.len()
            invariant
                i <= self.entries.len(),
                v == entries_view(self.entries@),
                entries_view(kept@) == remove_entry(v.subrange(0, i as int), key@),
            decreases self.entries.len() - i,
        {
            let ghost before = kept@;
            if !same_text(&self.entries[i].0, key) {
                let name = self.entries[i].0.clone();
                let value = self.entries[i].1.clone();
                kept.push((name, value));
                assert(entries_view(kept@) =~= entries_view(before).push(v[i as int]));
            }
            assert(v.subrange(0, i + 1).drop_last() =~= v.subrange(0, i as int));
            i = i + 1;
        }
        assert(v.subrange(0, i as int) =~= v);
        self.entries = kept;
        proof {
            lemma_lookup_remove(v, key@, key@);
            assert forall|q: Seq<char>| q != key@ implies lookup(self@, q) == lookup(v, q) by {
                lemma_lookup_remove(v, key@, q);
            }
        }
    }
}

} // verus!
