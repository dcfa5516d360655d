//! A string-to-string map that keeps its entries in a definite order.
//!
//! Header and parameter maps are held here: keys are unique, an insert of a
//! present key replaces its value in place, and a new key goes to the end.
use vstd::prelude::*;

verus! {

/// Map contents: the entries, in order.
pub type Entries = Seq<(Seq<char>, Seq<char>)>;

/// No key occurs twice.
pub open spec fn keys_distinct(es: Entries) -> bool {
    forall|i: int, j: int| 0 <= i < j < es.len() ==> es[i].0 != es[j].0
}

/// Some entry has key `k`.
pub open spec fn has_key(es: Entries, k: Seq<char>) -> bool {
    exists|i: int| 0 <= i < es.len() && es[i].0 == k
}

/// The position of an entry with key `k`.
pub open spec fn key_pos(es: Entries, k: Seq<char>) -> int {
    choose|i: int| 0 <= i < es.len() && es[i].0 == k
}

/// The value stored under `k`, if any.
pub open spec fn lookup(es: Entries, k: Seq<char>) -> Option<Seq<char>> {
    if has_key(es, k) {
        Some(es[key_pos(es, k)].1)
    } else {
        None
    }
}

/// The value stored under `k`, or the empty string.
pub open spec fn lookup_or_empty(es: Entries, k: Seq<char>) -> Seq<char> {
    match lookup(es, k) {
        Some(v) => v,
        None => Seq::empty(),
    }
}

/// `k` set to `v`: replaced in place where present, appended where not.
pub open spec fn insert_entry(es: Entries, k: Seq<char>, v: Seq<char>) -> Entries {
    if has_key(es, k) {
        es.update(key_pos(es, k), (k, v))
    } else {
        es.push((k, v))
    }
}

/// The entry with key `k` taken out, the others kept in order.
pub open spec fn remove_entry(es: Entries, k: Seq<char>) -> Entries {
    if has_key(es, k) {
        es.remove(key_pos(es, k))
    } else {
        es
    }
}

/// Each entry of `more` set in turn (`HashMap::extend`).
pub open spec fn extend_entries(es: Entries, more: Entries) -> Entries
    decreases more.len(),
{
    if more.len() == 0 {
        es
    } else {
        extend_entries(insert_entry(es, more[0].0, more[0].1), more.drop_first())
    }
}

/// The position found by `key_pos` is the unique one holding `k`.
pub proof fn lemma_key_pos(es: Entries, k: Seq<char>, i: int)
    requires
        keys_distinct(es),
        0 <= i < es.len(),
        es[i].0 == k,
    ensures
        has_key(es, k),
        key_pos(es, k) == i,
        lookup(es, k) == Some(es[i].1),
{
    assert(has_key(es, k));
    let p = key_pos(es, k);
    assert(es[p].0 == k);
}

/// Inserting keeps keys distinct.
pub proof fn lemma_insert_distinct(es: Entries, k: Seq<char>, v: Seq<char>)
    requires
        keys_distinct(es),
    ensures
        keys_distinct(insert_entry(es, k, v)),
{
    if has_key(es, k) {
        let p = key_pos(es, k);
        assert(es[p].0 == k);
    }
}

/// Removing keeps keys distinct.
pub proof fn lemma_remove_distinct(es: Entries, k: Seq<char>)
    requires
        keys_distinct(es),
    ensures
        keys_distinct(remove_entry(es, k)),
{
    if has_key(es, k) {
        let p = key_pos(es, k);
        let r = es.remove(p);
        assert forall|i: int, j: int| 0 <= i < j < r.len() implies r[i].0 != r[j].0 by {
            let a = if i < p { i } else { i + 1 };
            let b = if j < p { j } else { j + 1 };
            assert(r[i] == es[a]);
            assert(r[j] == es[b]);
        }
    }
}

/// After setting `k` to `v`, a lookup of `k` gives `v`, every other key
/// keeps its value, and keys stay distinct.
pub proof fn law_lookup_after_insert(es: Entries, k: Seq<char>, v: Seq<char>, k2: Seq<char>)
    requires
        keys_distinct(es),
    ensures
        keys_distinct(insert_entry(es, k, v)),
        lookup(insert_entry(es, k, v), k) == Some(v),
        k2 != k ==> lookup(insert_entry(es, k, v), k2) == lookup(es, k2),
{
    lemma_insert_distinct(es, k, v);
    let n = insert_entry(es, k, v);
    let p = if has_key(es, k) { key_pos(es, k) } else { es.len() as int };
    if has_key(es, k) {
        assert(es[p].0 == k);
    }
    assert(n[p] == (k, v));
    lemma_key_pos(n, k, p);
    if k2 != k {
        if has_key(es, k2) {
            let q = key_pos(es, k2);
            assert(es[q].0 == k2);
            assert(n[q] == es[q]);
            lemma_key_pos(es, k2, q);
            lemma_key_pos(n, k2, q);
        } else {
            assert forall|i: int| 0 <= i < n.len() implies n[i].0 != k2 by {
                if i != p {
                    assert(n[i] == es[i]);
                }
            }
        }
    }
}

/// After removing `k`, a lookup of `k` finds nothing, every other key keeps
/// its value, and keys stay distinct.
pub proof fn law_lookup_after_remove(es: Entries, k: Seq<char>, k2: Seq<char>)
    requires
        keys_distinct(es),
    ensures
        keys_distinct(remove_entry(es, k)),
        lookup(remove_entry(es, k), k) is None,
        k2 != k ==> lookup(remove_entry(es, k), k2) == lookup(es, k2),
{
    lemma_remove_distinct(es, k);
    let n = remove_entry(es, k);
    if has_key(es, k) {
        let p = key_pos(es, k);
        assert(es[p].0 == k);
        assert forall|i: int| 0 <= i < n.len() implies n[i].0 != k by {
            let a = if i < p { i } else { i + 1 };
            assert(n[i] == es[a]);
            lemma_key_pos(es, k, p);
        }
        if k2 != k {
            if has_key(es, k2) {
                let q = key_pos(es, k2);
                assert(es[q].0 == k2);
                lemma_key_pos(es, k2, q);
                let q2 = if q < p { q } else { q - 1 };
                assert(n[q2] == es[q]);
                lemma_key_pos(n, k2, q2);
            } else {
                assert forall|i: int| 0 <= i < n.len() implies n[i].0 != k2 by {
                    let a = if i < p { i } else { i + 1 };
                    assert(n[i] == es[a]);
                }
            }
        }
    }
}

/// An ordered string map with unique keys.
#[derive(Debug)]
pub struct StrMap {
    entries: Vec<(String, String)>,
}

impl View for StrMap {
    type V = Entries;

    closed spec fn view(&self) -> Entries {
        self.entries@.map_values(|e: (String, String)| (e.0@, e.1@))
    }
}

impl StrMap {
    #[verifier::type_invariant]
    spec fn inv(self) -> bool {
        keys_distinct(self@)
    }

    /// An empty map.
    pub fn new() -> (m: StrMap)
        ensures
            m@ == Seq::<(Seq<char>, Seq<char>)>::empty(),
    {
        let m = StrMap { entries: Vec::new() };
        assert(m@ =~= Seq::<(Seq<char>, Seq<char>)>::empty());
        m
    }

    /// A copy of this map.
    pub fn duplicate(&self) -> (r: StrMap)
        ensures
            r@ == self@,
    {
        proof {
            use_type_invariant(self);
        }
        let mut es: Vec<(String, String)> = Vec::new();
        let mut i: usize = 0;
        while i < self.entries.len()
            invariant
                i <= self.entries@.len(),
                es@.map_values(|e: (String, String)| (e.0@, e.1@)) =~= self@.take(i as int),
            decreases self.entries.len() - i,
        {
            let k = self.entries[i].0.clone();
            let v = self.entries[i].1.clone();
            es.push((k, v));
            assert(self@.take(i + 1) =~= self@.take(i as int).push(self@[i as int]));
            i += 1;
        }
        assert(self@.take(self.entries@.len() as int) =~= self@);
        StrMap { entries: es }
    }

    /// The number of entries.
    pub fn len(&self) -> (n: usize)
        ensures
            n == self@.len(),
    {
        self.entries.len()
    }

    /// Whether there are no entries.
    pub fn is_empty(&self) -> (b: bool)
        ensures
            b == (self@.len() == 0),
    {
        self.entries.len() == 0
    }

    /// The key of the `i`-th entry.
    pub fn key_at(&self, i: usize) -> (k: &String)
        requires
            i < self@.len(),
        ensures
            k@ == self@[i as int].0,
    {
        &self.entries[i].0
    }

    /// The value of the `i`-th entry.
    pub fn value_at(&self, i: usize) -> (v: &String)
        requires
            i < self@.len(),
        ensures
            v@ == self@[i as int].1,
    {
        &self.entries[i].1
    }

    /// The position of the entry with key `key`.
    pub fn position(&self, key: &String) -> (r: Option<usize>)
        ensures
            match r {
                Some(i) => i < self@.len() && self@[i as int].0 == key@ && has_key(self@, key@)
                    && key_pos(self@, key@) == i,
                None => !has_key(self@, key@),
            },
    {
        proof {
            use_type_invariant(self);
        }
        let mut i: usize = 0;
        while i < self.entries.len()
            invariant
                i <= self@.len(),
                self@.len() == self.entries@.len(),
                keys_distinct(self@),
                forall|j: int| 0 <= j < i ==> self@[j].0 != key@,
            decreases self.entries.len() - i,
        {
            if self.entries[i].0 == *key {
                proof {
                    lemma_key_pos(self@, key@, i as int);
                }
                return Some(i);
            }
            i += 1;
        }
        None
    }

    /// The value stored under `key`, if any.
    pub fn get(&self, key: &str) -> (r: Option<&String>)
        ensures
            match r {
                Some(v) => lookup(self@, key@) == Some(v@),
                None => lookup(self@, key@) is None,
            },
    {
        let k = key.to_owned();
        match self.position(&k) {
            Some(i) => Some(&self.entries[i].1),
            None => None,
        }
    }

    /// Whether `key` has an entry.
    pub fn contains_key(&self, key: &str) -> (b: bool)
        ensures
            b == has_key(self@, key@),
    {
        let k = key.to_owned();
        self.position(&k).is_some()
    }

    /// The value stored under `key`, or the empty string.
    pub fn get_or_empty(&self, key: &str) -> (r: String)
        ensures
            r@ == lookup_or_empty(self@, key@),
    {
        match self.get(key) {
            Some(v) => v.clone(),
            None => String::new(),
        }
    }

    /// Sets `key` to `value`.
    pub fn insert(&mut self, key: String, value: String)
        ensures
            final(self)@ == insert_entry(old(self)@, key@, value@),
    {
        proof {
            use_type_invariant(&*self);
            lemma_insert_distinct(self@, key@, value@);
        }
        match self.position(&key) {
            Some(i) => {
                let ghost kv = key@;
                let ghost vv = value@;
                let mut es: Vec<(String, String)> = Vec::new();
                std::mem::swap(&mut es, &mut self.entries);
                es.set(i, (key, value));
                assert(es@.map_values(|e: (String, String)| (e.0@, e.1@))
                    =~= old(self)@.update(i as int, (kv, vv)));
                self.entries = es;
            },
            None => {
                let ghost kv = key@;
                let ghost vv = value@;
                let mut es: Vec<(String, String)> = Vec::new();
                std::mem::swap(&mut es, &mut self.entries);
                es.push((key, value));
                assert(es@.map_values(|e: (String, String)| (e.0@, e.1@))
                    =~= old(self)@.push((kv, vv)));
                self.entries = es;
            },
        }
    }

    /// Takes out the entry with key `key`, if any.
    pub fn remove(&mut self, key: &str)
        ensures
            final(self)@ == remove_entry(old(self)@, key@),
    {
        proof {
            use_type_invariant(&*self);
            lemma_remove_distinct(self@, key@);
        }
        let k = key.to_owned();
        match self.position(&k) {
            Some(i) => {
                let mut es: Vec<(String, String)> = Vec::new();
                std::mem::swap(&mut es, &mut self.entries);
                es.remove(i);
                assert(es@.map_values(|e: (String, String)| (e.0@, e.1@))
                    =~= old(self)@.remove(i as int));
                self.entries = es;
            },
            None => {},
        }
    }
    /// Sets each entry of `more` in turn (`HashMap::extend`).
    pub fn extend(&mut self, more: &StrMap)
        ensures
            final(self)@ == extend_entries(old(self)@, more@),
    {
        let ghost goal = extend_entries(self@, more@);
        let mut i: usize = 0;
        let n = more.len();
        assert(more@.skip(0) =~= more@);
        while i < n
            invariant
                i <= n,
                n == more@.len(),
                extend_entries(self@, more@.skip(i as int)) == goal,
            decreases n - i,
        {
            let ghost rest = more@.skip(i as int);
            assert(rest[0] == more@[i as int]);
            assert(rest.drop_first() =~= more@.skip(i + 1));
            let k = more.key_at(i).clone();
            let v = more.value_at(i).clone();
            self.insert(k, v);
            i += 1;
        }
        assert(more@.skip(n as int) =~= Seq::<(Seq<char>, Seq<char>)>::empty());
    }
}

} // verus!
