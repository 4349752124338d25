//! Ordered map from strings to values, kept sorted by key.
//!
//! Iteration goes by increasing key, as for a `BTreeMap<String, V>`.
use vstd::prelude::*;

use crate::text::{
    chars_eq, chars_lt, chars_of, lemma_text_lt_asymmetric, lemma_text_lt_irreflexive,
    lemma_text_lt_total, lemma_text_lt_transitive, text_lt,
};

verus! {

/// Keys of a list of entries.
pub open spec fn keys_of<V>(s: Seq<(String, V)>) -> Seq<Seq<char>> {
    s.map_values(|e: (String, V)| e.0@)
}

/// Keys strictly increase along the list.
pub open spec fn strictly_sorted(keys: Seq<Seq<char>>) -> bool {
    forall|i: int, j: int| 0 <= i < j < keys.len() ==> text_lt(#[trigger] keys[i], #[trigger] keys[j])
}

/// Map denoted by a list of entries (later entries win, keys being unique
/// this is just the set of pairs).
pub open spec fn entries_map<V>(s: Seq<(String, V)>) -> Map<Seq<char>, V>
    decreases s.len(),
{
    if s.len() == 0 {
        Map::empty()
    } else {
        entries_map(s.drop_last()).insert(s.last().0@, s.last().1)
    }
}

pub proof fn lemma_sorted_distinct(keys: Seq<Seq<char>>, i: int, j: int)
    requires
        strictly_sorted(keys),
        0 <= i < keys.len(),
        0 <= j < keys.len(),
        i != j,
    ensures
        keys[i] != keys[j],
{
    if i < j {
        assert(text_lt(keys[i], keys[j]));
        if keys[i] == keys[j] {
            lemma_text_lt_irreflexive(keys[i]);
        }
    } else {
        assert(text_lt(keys[j], keys[i]));
        if keys[i] == keys[j] {
            lemma_text_lt_irreflexive(keys[i]);
        }
    }
}

/// Two strictly sorted sequences with the same elements are equal.
pub proof fn lemma_sorted_unique(a: Seq<Seq<char>>, b: Seq<Seq<char>>)
    requires
        strictly_sorted(a),
        strictly_sorted(b),
        forall|k: Seq<char>| a.contains(k) <==> b.contains(k),
    ensures
        a == b,
    decreases a.len(),
{
    if a.len() == 0 {
        if b.len() > 0 {
            assert(b.contains(b[0]));
        }
        assert(a =~= b);
    } else {
        assert(a.contains(a[0]));
        assert(b.contains(a[0]));
        let j = choose|j: int| 0 <= j < b.len() && b[j] == a[0];
        assert(b.contains(b[0]));
        let i = choose|i: int| 0 <= i < a.len() && a[i] == b[0];
        if j > 0 {
            assert(text_lt(b[0], b[j]));
            if i == 0 {
                lemma_text_lt_irreflexive(a[0]);
            } else {
                assert(text_lt(a[0], a[i]));
                lemma_text_lt_asymmetric(a[0], b[0]);
            }
        }
        assert(a[0] == b[0]);
        let a2 = a.drop_first();
        let b2 = b.drop_first();
        assert forall|k: Seq<char>| a2.contains(k) implies b2.contains(k) by {
            let x = choose|x: int| 0 <= x < a2.len() && a2[x] == k;
            assert(a.contains(k));
            let y = choose|y: int| 0 <= y < b.len() && b[y] == k;
            if y == 0 {
                lemma_sorted_distinct(a, 0, x + 1);
            } else {
                assert(b2[y - 1] == k);
            }
        }
        assert forall|k: Seq<char>| b2.contains(k) implies a2.contains(k) by {
            let x = choose|x: int| 0 <= x < b2.len() && b2[x] == k;
            assert(b.contains(k));
            let y = choose|y: int| 0 <= y < a.len() && a[y] == k;
            if y == 0 {
                lemma_sorted_distinct(b, 0, x + 1);
            } else {
                assert(a2[y - 1] == k);
            }
        }
        lemma_sorted_unique(a2, b2);
        assert(a =~= seq![a[0]] + a2);
        assert(b =~= seq![b[0]] + b2);
    }
}

/// `s` with `k` inserted before the first element above it.
pub open spec fn insert_sorted(s: Seq<Seq<char>>, k: Seq<char>) -> Seq<Seq<char>>
    decreases s.len(),
{
    if s.len() == 0 {
        seq![k]
    } else if text_lt(k, s[0]) {
        seq![k] + s
    } else {
        seq![s[0]] + insert_sorted(s.drop_first(), k)
    }
}

/// Inserting a missing element into a strictly sorted sequence keeps it
/// strictly sorted and adds just that element.
pub proof fn lemma_insert_sorted(s: Seq<Seq<char>>, k: Seq<char>)
    requires
        strictly_sorted(s),
        !s.contains(k),
    ensures
        strictly_sorted(insert_sorted(s, k)),
        forall|x: Seq<char>| #[trigger] insert_sorted(s, k).contains(x) <==> (s.contains(x) || x == k),
    decreases s.len(),
{
    let r = insert_sorted(s, k);
    if s.len() == 0 {
        assert forall|x: Seq<char>| #[trigger] r.contains(x) <==> (s.contains(x) || x == k) by {
            if r.contains(x) {
                assert(r[0] == k);
            }
            if x == k {
                assert(r[0] == x);
            }
        }
    } else if text_lt(k, s[0]) {
        assert forall|a: int, b: int| 0 <= a < b < r.len() implies text_lt(#[trigger] r[a], #[trigger] r[b]) by {
            if a == 0 {
                if b > 1 {
                    assert(text_lt(s[0], s[b - 1]));
                    lemma_text_lt_transitive(k, s[0], s[b - 1]);
                }
            } else {
                assert(text_lt(s[a - 1], s[b - 1]));
            }
        }
        assert forall|x: Seq<char>| #[trigger] r.contains(x) <==> (s.contains(x) || x == k) by {
            if r.contains(x) {
                let i = choose|i: int| 0 <= i < r.len() && r[i] == x;
                if i > 0 {
                    assert(s[i - 1] == x);
                }
            }
            if s.contains(x) {
                let i = choose|i: int| 0 <= i < s.len() && s[i] == x;
                assert(r[i + 1] == x);
            }
            if x == k {
                assert(r[0] == x);
            }
        }
    } else {
        let t = s.drop_first();
        assert(!t.contains(k)) by {
            if t.contains(k) {
                let i = choose|i: int| 0 <= i < t.len() && t[i] == k;
                assert(s[i + 1] == k);
            }
        }
        lemma_insert_sorted(t, k);
        let rt = insert_sorted(t, k);
        assert(s[0] != k) by {
            assert(s.contains(s[0]));
        }
        lemma_text_lt_total(k, s[0]);
        assert(text_lt(s[0], k));
        assert forall|x: Seq<char>| rt.contains(x) implies text_lt(s[0], x) by {
            if x != k {
                assert(t.contains(x));
                let i = choose|i: int| 0 <= i < t.len() && t[i] == x;
                assert(s[i + 1] == x);
            }
        }
        assert forall|a: int, b: int| 0 <= a < b < r.len() implies text_lt(#[trigger] r[a], #[trigger] r[b]) by {
            if a == 0 {
                assert(rt.contains(rt[b - 1]));
            } else {
                assert(text_lt(rt[a - 1], rt[b - 1]));
            }
        }
        assert forall|x: Seq<char>| #[trigger] r.contains(x) <==> (s.contains(x) || x == k) by {
            if r.contains(x) {
                let i = choose|i: int| 0 <= i < r.len() && r[i] == x;
                if i > 0 {
                    assert(rt.contains(x));
                    if x != k {
                        let j = choose|j: int| 0 <= j < t.len() && t[j] == x;
                        assert(s[j + 1] == x);
                    }
                }
            }
            if s.contains(x) {
                let i = choose|i: int| 0 <= i < s.len() && s[i] == x;
                if i == 0 {
                    assert(r[0] == x);
                } else {
                    assert(t[i - 1] == x);
                    assert(rt.contains(x));
                    let j = choose|j: int| 0 <= j < rt.len() && rt[j] == x;
                    assert(r[j + 1] == x);
                }
            }
            if x == k {
                assert(rt.contains(x));
                let j = choose|j: int| 0 <= j < rt.len() && rt[j] == x;
                assert(r[j + 1] == x);
            }
        }
    }
}

/// Membership and lookup in `entries_map` of a list with distinct keys.
pub proof fn lemma_entries_map<V>(s: Seq<(String, V)>)
    requires
        strictly_sorted(keys_of(s)),
    ensures
        forall|k: Seq<char>| #[trigger] entries_map(s).contains_key(k) <==> exists|i: int| 0 <= i < s.len() && s[i].0@ == k,
        forall|i: int| 0 <= i < s.len() ==> #[trigger] entries_map(s)[s[i].0@] == s[i].1,
    decreases s.len(),
{
    if s.len() > 0 {
        let t = s.drop_last();
        let last = s[s.len() - 1];
        assert(keys_of(t) =~= keys_of(s).drop_last());
        lemma_entries_map(t);
        assert(entries_map(s) == entries_map(t).insert(last.0@, last.1));
        assert forall|k: Seq<char>| #[trigger] entries_map(s).contains_key(k) implies exists|i: int| 0 <= i < s.len() && s[i].0@ == k by {
            if k == last.0@ {
                assert(s[s.len() - 1].0@ == k);
            } else {
                assert(entries_map(t).contains_key(k));
                let i = choose|i: int| 0 <= i < t.len() && t[i].0@ == k;
                assert(t[i] == s[i]);
            }
        }
        assert forall|k: Seq<char>| (exists|i: int| 0 <= i < s.len() && s[i].0@ == k) implies #[trigger] entries_map(s).contains_key(k) by {
            let i = choose|i: int| 0 <= i < s.len() && s[i].0@ == k;
            if i < s.len() - 1 {
                assert(t[i] == s[i]);
                assert(entries_map(t).contains_key(k));
            }
        }
        assert forall|i: int| 0 <= i < s.len() implies #[trigger] entries_map(s)[s[i].0@] == s[i].1 by {
            if i < s.len() - 1 {
                assert(keys_of(s)[i] == s[i].0@);
                assert(keys_of(s)[s.len() - 1] == last.0@);
                lemma_sorted_distinct(keys_of(s), i, s.len() - 1);
                assert(t[i] == s[i]);
                assert(entries_map(t)[t[i].0@] == t[i].1);
            }
        }
    }
}

/// Two sorted lists with distinct keys that hold the same pairs denote the same map.
pub proof fn lemma_entries_map_ext<V>(s: Seq<(String, V)>, m: Map<Seq<char>, V>)
    requires
        strictly_sorted(keys_of(s)),
        forall|k: Seq<char>| #[trigger] m.contains_key(k) <==> exists|i: int| 0 <= i < s.len() && s[i].0@ == k,
        forall|i: int| 0 <= i < s.len() ==> #[trigger] m[s[i].0@] == s[i].1,
    ensures
        entries_map(s) == m,
{
    lemma_entries_map(s);
    assert forall|k: Seq<char>| #[trigger] entries_map(s).contains_key(k) implies entries_map(s)[k] == m[k] by {
        let i = choose|i: int| 0 <= i < s.len() && s[i].0@ == k;
        assert(entries_map(s)[s[i].0@] == s[i].1);
    }
    assert(entries_map(s) =~= m);
}

/// Ordered map with string keys.
pub struct StrMap<V> {
    entries: Vec<(String, V)>,
}

impl<V> StrMap<V> {
    #[verifier::type_invariant]
    spec fn sorted_keys(self) -> bool {
        strictly_sorted(keys_of(self.entries@))
    }

    /// The map's contents.
    pub closed spec fn view(&self) -> Map<Seq<char>, V> {
        entries_map(self.entries@)
    }

    /// The contents as key/value pairs, by increasing key.
    pub closed spec fn pairs(&self) -> Seq<(String, V)> {
        self.entries@
    }

    pub fn new() -> (m: Self)
        ensures
            m@ == Map::<Seq<char>, V>::empty(),
            m.pairs().len() == 0,
    {
        StrMap { entries: Vec::new() }
    }

    pub fn len(&self) -> (n: usize)
        ensures
            n == self.pairs().len(),
    {
        self.entries.len()
    }

    /// Entries by increasing key.
    pub fn entries(&self) -> (e: &Vec<(String, V)>)
        ensures
            e@ == self.pairs(),
            strictly_sorted(keys_of(e@)),
            forall|k: Seq<char>| #[trigger] self@.contains_key(k) <==> exists|i: int| 0 <= i < e@.len() && e@[i].0@ == k,
            forall|i: int| 0 <= i < e@.len() ==> #[trigger] self@[e@[i].0@] == e@[i].1,
            self@.dom().finite(),
            self@.len() == e@.len(),
    {
        proof {
            use_type_invariant(self);
            lemma_entries_map(self.entries@);
            lemma_entries_map_len(self.entries@);
        }
        &self.entries
    }

    /// The entries by increasing key, taken out of the map.
    pub fn into_pairs(self) -> (e: Vec<(String, V)>)
        ensures
            e@ == self.pairs(),
            strictly_sorted(keys_of(e@)),
            keys_of(e@).no_duplicates(),
            forall|k: Seq<char>| #[trigger] self@.contains_key(k) <==> exists|i: int| 0 <= i < e@.len() && e@[i].0@ == k,
            forall|i: int| 0 <= i < e@.len() ==> #[trigger] self@[e@[i].0@] == e@[i].1,
    {
        proof {
            use_type_invariant(&self);
            lemma_entries_map(self.entries@);
            let ks = keys_of(self.entries@);
            assert forall|i: int, j: int| 0 <= i < ks.len() && 0 <= j < ks.len() && i != j implies ks[i] != ks[j] by {
                lemma_sorted_distinct(ks, i, j);
            }
        }
        self.entries
    }

    /// Position of the first entry whose key is not below `key`.
    fn lower_bound(&self, key: &Vec<char>) -> (i: usize)
        ensures
            i <= self.pairs().len(),
            forall|j: int| 0 <= j < i ==> text_lt(#[trigger] keys_of(self.pairs())[j], key@),
            i < self.pairs().len() ==> !text_lt(keys_of(self.pairs())[i as int], key@),
    {
        let mut i: usize = 0;
        while i < self.entries.len()
            invariant
                0 <= i <= self.entries.len(),
                forall|j: int| 0 <= j < i ==> text_lt(#[trigger] keys_of(self.entries@)[j], key@),
            decreases self.entries.len() - i,
        {
            let k = chars_of(self.entries[i].0.as_str());
            if !chars_lt(&k, key) {
                return i;
            }
            i = i + 1;
        }
        i
    }

    /// The value stored under `key`.
    pub fn get(&self, key: &str) -> (r: Option<&V>)
        ensures
            self@.contains_key(key@) ==> r is Some && *r->0 == self@[key@],
            !self@.contains_key(key@) ==> r is None,
    {
        proof {
            use_type_invariant(self);
            lemma_entries_map(self.entries@);
        }
        let kc = chars_of(key);
        let i = self.lower_bound(&kc);
        if i < self.entries.len() {
            let k = chars_of(self.entries[i].0.as_str());
            if chars_eq(&k, &kc) {
                assert(keys_of(self.entries@)[i as int] == self.entries@[i as int].0@);
                return Some(&self.entries[i].1);
            }
            assert forall|j: int| 0 <= j < self.entries@.len() implies self.entries@[j].0@ != key@ by {
                assert(keys_of(self.entries@)[j] == self.entries@[j].0@);
                if j < i {
                    assert(text_lt(keys_of(self.entries@)[j], key@));
                    if self.entries@[j].0@ == key@ {
                        lemma_text_lt_irreflexive(key@);
                    }
                } else if j > i {
                    assert(text_lt(keys_of(self.entries@)[i as int], keys_of(self.entries@)[j]));
                    lemma_text_lt_total(keys_of(self.entries@)[i as int], key@);
                    if self.entries@[j].0@ == key@ {
                        lemma_text_lt_asymmetric(keys_of(self.entries@)[i as int], key@);
                    }
                }
            }
            return None;
        }
        assert forall|j: int| 0 <= j < self.entries@.len() implies self.entries@[j].0@ != key@ by {
            assert(keys_of(self.entries@)[j] == self.entries@[j].0@);
            if self.entries@[j].0@ == key@ {
                lemma_text_lt_irreflexive(key@);
            }
        }
        None
    }

    /// Whether `key` is present.
    pub fn contains_key(&self, key: &str) -> (b: bool)
        ensures
            b == self@.contains_key(key@),
    {
        match self.get(key) {
            Some(_) => true,
            None => false,
        }
    }

    /// Removes `key`, returning its value.
    pub fn remove(&mut self, key: &str) -> (r: Option<V>)
        ensures
            final(self)@ == old(self)@.remove(key@),
            old(self)@.contains_key(key@) ==> r == Some(old(self)@[key@]),
            !old(self)@.contains_key(key@) ==> r is None,
    {
        proof {
            use_type_invariant(&*self);
            lemma_entries_map(self.entries@);
        }
        let ghost old_entries = self.entries@;
        let ghost old_map = self@;
        let kc = chars_of(key);
        let i = self.lower_bound(&kc);
        let mut found = false;
        if i < self.entries.len() {
            let ek = chars_of(self.entries[i].0.as_str());
            found = chars_eq(&ek, &kc);
        }
        if !found {
            proof {
                assert forall|j: int| 0 <= j < old_entries.len() implies old_entries[j].0@ != key@ by {
                    assert(keys_of(old_entries)[j] == old_entries[j].0@);
                    if j < i {
                        assert(text_lt(keys_of(old_entries)[j], key@));
                        if old_entries[j].0@ == key@ {
                            lemma_text_lt_irreflexive(key@);
                        }
                    } else if j > i {
                        assert(text_lt(keys_of(old_entries)[i as int], keys_of(old_entries)[j]));
                        lemma_text_lt_total(keys_of(old_entries)[i as int], key@);
                        if old_entries[j].0@ == key@ {
                            lemma_text_lt_asymmetric(keys_of(old_entries)[i as int], key@);
                        }
                    }
                }
                assert(!old_map.contains_key(key@));
                assert(old_map.remove(key@) =~= old_map);
            }
            return None;
        }
        let mut entries: Vec<(String, V)> = Vec::new();
        std::mem::swap(&mut entries, &mut self.entries);
        let (_k, v) = entries.remove(i);
        let ghost ne = entries@;
        proof {
            let ok = keys_of(old_entries);
            let nk = keys_of(ne);
            assert(ne =~= old_entries.remove(i as int));
            assert(nk =~= ok.remove(i as int));
            assert(ok[i as int] == key@);
            assert forall|a: int, b: int| 0 <= a < b < nk.len() implies text_lt(#[trigger] nk[a], #[trigger] nk[b]) by {
                let a2 = if a < i { a } else { a + 1 };
                let b2 = if b < i { b } else { b + 1 };
                assert(nk[a] == ok[a2]);
                assert(nk[b] == ok[b2]);
            }
            assert forall|kk: Seq<char>| #[trigger] old_map.remove(key@).contains_key(kk) <==> exists|j: int|
                0 <= j < ne.len() && ne[j].0@ == kk by {
                if old_map.remove(key@).contains_key(kk) {
                    let j = choose|j: int| 0 <= j < old_entries.len() && old_entries[j].0@ == kk;
                    assert(j != i);
                    if j < i {
                        assert(ne[j].0@ == kk);
                    } else {
                        assert(ne[j - 1].0@ == kk);
                    }
                }
                if exists|j: int| 0 <= j < ne.len() && ne[j].0@ == kk {
                    let j = choose|j: int| 0 <= j < ne.len() && ne[j].0@ == kk;
                    let j2 = if j < i { j } else { j + 1 };
                    assert(old_entries[j2].0@ == kk);
                    assert(ok[j2] == kk);
                    lemma_sorted_distinct(ok, j2, i as int);
                }
            }
            assert forall|j: int| 0 <= j < ne.len() implies #[trigger] old_map.remove(key@)[ne[j].0@] == ne[j].1 by {
                let j2 = if j < i { j } else { j + 1 };
                assert(ne[j] == old_entries[j2]);
                assert(ok[j2] == old_entries[j2].0@);
                lemma_sorted_distinct(ok, j2, i as int);
            }
            lemma_entries_map_ext(ne, old_map.remove(key@));
            assert(old_entries[i as int].1 == old_map[key@]);
        }
        self.entries = entries;
        Some(v)
    }

    /// Sets the value stored under `key`.
    pub fn insert(&mut self, key: String, value: V)
        ensures
            final(self)@ == old(self)@.insert(key@, value),
    {
        proof {
            use_type_invariant(&*self);
            lemma_entries_map(self.entries@);
        }
        let ghost old_entries = self.entries@;
        let ghost old_map = self@;
        let kc = chars_of(key.as_str());
        let i = self.lower_bound(&kc);
        let ghost k = key@;
        let ghost v = value;
        let mut found = false;
        if i < self.entries.len() {
            let ek = chars_of(self.entries[i].0.as_str());
            found = chars_eq(&ek, &kc);
        }
        let mut entries: Vec<(String, V)> = Vec::new();
        std::mem::swap(&mut entries, &mut self.entries);
        assert(entries@ == old_entries);
        if found {
            entries.set(i, (key, value));
            let ghost ne = entries@;
            proof {
                assert(keys_of(ne) =~= keys_of(old_entries));
                lemma_entries_map(old_entries);
                assert forall|kk: Seq<char>| #[trigger] old_map.insert(k, v).contains_key(kk) <==> exists|j: int| 0 <= j < ne.len() && ne[j].0@ == kk by {
                    if old_map.insert(k, v).contains_key(kk) && kk != k {
                        let j = choose|j: int| 0 <= j < old_entries.len() && old_entries[j].0@ == kk;
                        assert(ne[j].0@ == kk);
                    }
                    if exists|j: int| 0 <= j < ne.len() && ne[j].0@ == kk {
                        let j = choose|j: int| 0 <= j < ne.len() && ne[j].0@ == kk;
                        if j != i {
                            assert(old_entries[j].0@ == kk);
                        }
                    }
                }
                assert forall|j: int| 0 <= j < ne.len() implies #[trigger] old_map.insert(k, v)[ne[j].0@] == ne[j].1 by {
                    if j != i {
                        assert(keys_of(old_entries)[j] == old_entries[j].0@);
                        assert(keys_of(old_entries)[i as int] == old_entries[i as int].0@);
                        lemma_sorted_distinct(keys_of(old_entries), j, i as int);
                    }
                }
                lemma_entries_map_ext(ne, old_map.insert(k, v));
            }
        } else {
            entries.insert(i, (key, value));
            let ghost ne = entries@;
            proof {
                let ok = keys_of(old_entries);
                let nk = keys_of(ne);
                assert(nk =~= ok.insert(i as int, k));
                if i < old_entries.len() {
                    lemma_text_lt_total(ok[i as int], k);
                    assert(text_lt(k, ok[i as int]));
                }
                assert forall|a: int, b: int| 0 <= a < b < nk.len() implies text_lt(#[trigger] nk[a], #[trigger] nk[b]) by {
                    if b < i {
                        assert(text_lt(ok[a], ok[b]));
                    } else if b == i {
                        assert(text_lt(ok[a], k));
                    } else if a == i {
                        if b - 1 > i {
                            assert(text_lt(ok[i as int], ok[b - 1]));
                            lemma_text_lt_transitive(k, ok[i as int], ok[b - 1]);
                        }
                    } else if a < i {
                        assert(text_lt(ok[a], k));
                        if b - 1 > i {
                            assert(text_lt(ok[i as int], ok[b - 1]));
                            lemma_text_lt_transitive(k, ok[i as int], ok[b - 1]);
                        }
                        lemma_text_lt_transitive(ok[a], k, ok[b - 1]);
                    } else {
                        assert(text_lt(ok[a - 1], ok[b - 1]));
                    }
                }
                assert forall|kk: Seq<char>| #[trigger] old_map.insert(k, v).contains_key(kk) <==> exists|j: int| 0 <= j < ne.len() && ne[j].0@ == kk by {
                    if old_map.insert(k, v).contains_key(kk) {
                        if kk == k {
                            assert(ne[i as int].0@ == kk);
                        } else {
                            let j = choose|j: int| 0 <= j < old_entries.len() && old_entries[j].0@ == kk;
                            if j < i {
                                assert(ne[j].0@ == kk);
                            } else {
                                assert(ne[j + 1].0@ == kk);
                            }
                        }
                    }
                    if exists|j: int| 0 <= j < ne.len() && ne[j].0@ == kk {
                        let j = choose|j: int| 0 <= j < ne.len() && ne[j].0@ == kk;
                        if j < i {
                            assert(old_entries[j].0@ == kk);
                        } else if j > i {
                            assert(old_entries[j - 1].0@ == kk);
                        }
                    }
                }
                assert forall|j: int| 0 <= j < ne.len() implies #[trigger] old_map.insert(k, v)[ne[j].0@] == ne[j].1 by {
                    assert(nk[j] == ne[j].0@);
                    assert(nk[i as int] == k);
                    if j != i {
                        lemma_sorted_distinct(nk, j, i as int);
                        if j < i {
                            assert(ne[j] == old_entries[j]);
                        } else {
                            assert(ne[j] == old_entries[j - 1]);
                        }
                    }
                }
                lemma_entries_map_ext(ne, old_map.insert(k, v));
            }
        }
        self.entries = entries;
    }
}

pub proof fn lemma_entries_map_len<V>(s: Seq<(String, V)>)
    requires
        strictly_sorted(keys_of(s)),
    ensures
        entries_map(s).dom().finite(),
        entries_map(s).len() == s.len(),
    decreases s.len(),
{
    if s.len() > 0 {
        let t = s.drop_last();
        assert(keys_of(t) =~= keys_of(s).drop_last());
        lemma_entries_map_len(t);
        lemma_entries_map(t);
        if entries_map(t).contains_key(s.last().0@) {
            let i = choose|i: int| 0 <= i < t.len() && t[i].0@ == s.last().0@;
            assert(keys_of(s)[i] == s[i].0@);
            assert(keys_of(s)[s.len() - 1] == s.last().0@);
            lemma_sorted_distinct(keys_of(s), i, s.len() - 1);
        }
    }
}

} // verus!
