//! Keyed logs: sequences of (key, value) entries in which the latest entry for
//! a key is the one that counts, as with repeated inserts into a map.

use vstd::prelude::*;

verus! {

/// The value of the latest entry for `k`.
pub open spec fn lookup_last<V>(log: Seq<(Seq<char>, V)>, k: Seq<char>) -> Option<V>
    decreases log.len(),
{
    if log.len() == 0 {
        None
    } else if log.last().0 == k {
        Some(log.last().1)
    } else {
        lookup_last(log.drop_last(), k)
    }
}

/// The number of entries whose key has not been visited.
pub open spec fn count_unvisited<V>(log: Seq<(Seq<char>, V)>, visited: Seq<Seq<char>>) -> nat
    decreases log.len(),
{
    if log.len() == 0 {
        0
    } else {
        count_unvisited(log.drop_last(), visited) + if visited.contains(log.last().0) { 0nat } else { 1nat }
    }
}

/// Visiting one more key never adds unvisited entries, and removes at least
/// one when the key has an entry and was not visited yet.
pub proof fn lemma_count_visit<V>(log: Seq<(Seq<char>, V)>, visited: Seq<Seq<char>>, k: Seq<char>)
    ensures
        count_unvisited(log, visited.push(k)) <= count_unvisited(log, visited),
        lookup_last(log, k) is Some && !visited.contains(k) ==> count_unvisited(log, visited.push(k))
            < count_unvisited(log, visited),
    decreases log.len(),
{
    if log.len() > 0 {
        lemma_count_visit(log.drop_last(), visited, k);
        let e = log.last().0;
        assert(visited.push(k).contains(e) <==> visited.contains(e) || e == k) by {
            if visited.push(k).contains(e) {
                let t = choose|t: int| 0 <= t < visited.push(k).len() && visited.push(k)[t] == e;
                if t < visited.len() {
                    assert(visited[t] == e);
                }
            }
            if visited.contains(e) {
                let t = choose|t: int| 0 <= t < visited.len() && visited[t] == e;
                assert(visited.push(k)[t] == e);
            }
            if e == k {
                assert(visited.push(k)[visited.len() as int] == e);
            }
        }
    }
}

/// At most every entry is unvisited.
pub proof fn lemma_count_bound<V>(log: Seq<(Seq<char>, V)>, visited: Seq<Seq<char>>)
    ensures
        count_unvisited(log, visited) <= log.len(),
    decreases log.len(),
{
    if log.len() > 0 {
        lemma_count_bound(log.drop_last(), visited);
    }
}

/// The latest entry for `k` is the one at `i` when no later entry has key `k`.
pub proof fn lemma_lookup_at<V>(log: Seq<(Seq<char>, V)>, k: Seq<char>, i: int)
    requires
        0 <= i < log.len(),
        log[i].0 == k,
        forall|j: int| i < j < log.len() ==> log[j].0 != k,
    ensures
        lookup_last(log, k) == Some(log[i].1),
    decreases log.len(),
{
    if i < log.len() - 1 {
        lemma_lookup_at(log.drop_last(), k, i);
    }
}

/// No entry has key `k`.
pub proof fn lemma_lookup_none<V>(log: Seq<(Seq<char>, V)>, k: Seq<char>)
    requires
        forall|j: int| 0 <= j < log.len() ==> log[j].0 != k,
    ensures
        lookup_last(log, k) is None,
    decreases log.len(),
{
    if log.len() > 0 {
        lemma_lookup_none(log.drop_last(), k);
    }
}

/// The position of the latest entry of `log` with key `k`.
pub fn find_last<V>(log: &Vec<(String, V)>, k: &str) -> (r: Option<usize>)
    ensures
        match r {
            Some(i) => i < log@.len() && log@[i as int].0@ == k@
                && forall|j: int| i < j < log@.len() ==> log@[j].0@ != k@,
            None => forall|j: int| 0 <= j < log@.len() ==> log@[j].0@ != k@,
        },
{
    let mut i: usize = log.len();
    while i > 0
        invariant
            i <= log@.len(),
            forall|j: int| i <= j < log@.len() ==> log@[j].0@ != k@,
        decreases i,
    {
        if crate::strings::str_eq(log[i - 1].0.as_str(), k) {
            return Some(i - 1);
        }
        i = i - 1;
    }
    None
}

/// Whether `k` is one of `visited`.
pub fn contains_str(visited: &Vec<String>, k: &str) -> (b: bool)
    ensures
        b == crate::strings::views(visited@).contains(k@),
{
    let ghost vs = crate::strings::views(visited@);
    let mut i: usize = 0;
    while i < visited.len()
        invariant
            i <= visited@.len(),
            vs == crate::strings::views(visited@),
            forall|j: int| 0 <= j < i ==> vs[j] != k@,
        decreases visited@.len() - i,
    {
        if crate::strings::str_eq(visited[i].as_str(), k) {
            assert(vs[i as int] == k@);
            return true;
        }
        i = i + 1;
    }
    false
}

} // verus!

verus! {

/// The position of the first entry with key `k` at or after `i`, or -1.
pub open spec fn key_index_from<V>(m: Seq<(Seq<char>, V)>, k: Seq<char>, i: int) -> int
    decreases m.len() - i,
{
    if i < 0 || i >= m.len() {
        -1
    } else if m[i].0 == k {
        i
    } else {
        key_index_from(m, k, i + 1)
    }
}

/// The position of the entry with key `k`, or -1.
pub open spec fn key_index<V>(m: Seq<(Seq<char>, V)>, k: Seq<char>) -> int {
    key_index_from(m, k, 0)
}

/// Inserting into a map kept as entries: the value of an existing key is
/// replaced in place, a new key is appended.
pub open spec fn map_insert<V>(m: Seq<(Seq<char>, V)>, k: Seq<char>, v: V) -> Seq<(Seq<char>, V)> {
    let i = key_index(m, k);
    if 0 <= i < m.len() {
        m.update(i, (k, v))
    } else {
        m.push((k, v))
    }
}

pub proof fn lemma_key_index_range<V>(m: Seq<(Seq<char>, V)>, k: Seq<char>, i: int)
    requires
        0 <= i,
    ensures
        key_index_from(m, k, i) == -1 || (i <= key_index_from(m, k, i) < m.len() && m[key_index_from(m, k, i)].0 == k),
        key_index_from(m, k, i) == -1 ==> forall|j: int| i <= j < m.len() ==> m[j].0 != k,
    decreases m.len() - i,
{
    if i < m.len() && m[i].0 != k {
        lemma_key_index_range(m, k, i + 1);
    }
}

/// The position of the entry with key `k`.
pub fn find_key<V>(m: &Vec<(String, V)>, k: &str) -> (r: Option<usize>)
    ensures
        match r {
            Some(i) => i < m@.len() && i == key_index(m@.map_values(|e: (String, V)| (e.0@, e.1)), k@),
            None => key_index(m@.map_values(|e: (String, V)| (e.0@, e.1)), k@) == -1,
        },
{
    let ghost mv = m@.map_values(|e: (String, V)| (e.0@, e.1));
    let mut i: usize = 0;
    while i < m.len()
        invariant
            i <= m@.len(),
            mv == m@.map_values(|e: (String, V)| (e.0@, e.1)),
            key_index(mv, k@) == key_index_from(mv, k@, i as int),
        decreases m@.len() - i,
    {
        if crate::strings::str_eq(m[i].0.as_str(), k) {
            return Some(i);
        }
        i = i + 1;
    }
    None
}

/// A string-keyed map of strings, kept in the order keys were first inserted.
#[derive(Debug, Clone)]
pub struct StringMap {
    entries: Vec<(String, String)>,
}

impl StringMap {
    /// The entries as plain values.
    pub closed spec fn view(self) -> Seq<(Seq<char>, Seq<char>)> {
        self.entries@.map_values(|e: (String, String)| (e.0@, e.1@))
    }

    pub fn new() -> (m: StringMap)
        ensures
            m@ == Seq::<(Seq<char>, Seq<char>)>::empty(),
    {
        let m = StringMap { entries: Vec::new() };
        assert(m@ =~= Seq::<(Seq<char>, Seq<char>)>::empty());
        m
    }

    /// Sets the value of `key`, replacing an earlier one.
    pub fn insert(&mut self, key: String, value: String)
        ensures
            final(self)@ == map_insert(old(self)@, key@, value@),
    {
        let ghost before = self@;
        let ghost ks = self.entries@.map_values(|e: (String, String)| (e.0@, e.1));
        proof {
            assert forall|j: int| 0 <= j < ks.len() implies ks[j].0 == before[j].0 by {}
            lemma_key_index_same(ks, before, key@, 0);
        }
        match find_key(&self.entries, key.as_str()) {
            Some(i) => {
                self.entries.set(i, (key, value));
                assert(self@ =~= before.update(i as int, (key@, value@)));
            },
            None => {
                self.entries.push((key, value));
                assert(self@ =~= before.push((key@, value@)));
            },
        }
    }

    /// The value of `key`, if any.
    pub fn get(&self, key: &str) -> (r: Option<&String>)
        ensures
            match r {
                Some(v) => 0 <= key_index(self@, key@) && self@[key_index(self@, key@)].1 == v@,
                None => key_index(self@, key@) == -1,
            },
    {
        let ghost ks = self.entries@.map_values(|e: (String, String)| (e.0@, e.1));
        proof {
            assert forall|j: int| 0 <= j < ks.len() implies ks[j].0 == self@[j].0 by {}
            lemma_key_index_same(ks, self@, key@, 0);
        }
        match find_key(&self.entries, key) {
            Some(i) => Some(&self.entries[i].1),
            None => None,
        }
    }

    /// The number of keys.
    pub fn len(&self) -> (n: usize)
        ensures
            n == self@.len(),
    {
        self.entries.len()
    }

    /// Whether there is no key.
    pub fn is_empty(&self) -> (b: bool)
        ensures
            b == (self@.len() == 0),
    {
        self.entries.len() == 0
    }
}

/// Two entry sequences with the same keys give the same key positions.
pub proof fn lemma_key_index_same<V, W>(a: Seq<(Seq<char>, V)>, b: Seq<(Seq<char>, W)>, k: Seq<char>, i: int)
    requires
        a.len() == b.len(),
        forall|j: int| 0 <= j < a.len() ==> a[j].0 == b[j].0,
        0 <= i,
    ensures
        key_index_from(a, k, i) == key_index_from(b, k, i),
    decreases a.len() - i,
{
    if i < a.len() && a[i].0 != k {
        lemma_key_index_same(a, b, k, i + 1);
    }
}

} // verus!

verus! {

/// The value a map kept as entries holds for `k`.
pub open spec fn map_get<V>(m: Seq<(Seq<char>, V)>, k: Seq<char>) -> Option<V> {
    let i = key_index(m, k);
    if 0 <= i < m.len() { Some(m[i].1) } else { None }
}

/// Appending an entry keeps the position of every key already present, and
/// of every absent key other than the appended one.
pub proof fn lemma_key_index_push<V>(m: Seq<(Seq<char>, V)>, x: (Seq<char>, V), q: Seq<char>, i: int)
    requires
        0 <= i <= m.len(),
    ensures
        key_index_from(m, q, i) >= 0 ==> key_index_from(m.push(x), q, i) == key_index_from(m, q, i),
        key_index_from(m, q, i) < 0 && x.0 != q ==> key_index_from(m.push(x), q, i) == -1,
        key_index_from(m, q, i) < 0 && x.0 == q ==> key_index_from(m.push(x), q, i) == m.len(),
    decreases m.len() - i,
{
    if i < m.len() {
        assert(m.push(x)[i] == m[i]);
        if m[i].0 != q {
            lemma_key_index_push(m, x, q, i + 1);
        }
    } else {
        assert(m.push(x)[i] == x);
        if x.0 != q {
            assert(key_index_from(m.push(x), q, i + 1) == -1);
        }
    }
}

/// After an insert, the map holds the inserted value for its key and what it
/// held before for every other key.
pub proof fn lemma_map_insert_get<V>(m: Seq<(Seq<char>, V)>, k: Seq<char>, v: V, q: Seq<char>)
    ensures
        map_get(map_insert(m, k, v), q) == if q == k { Some(v) } else { map_get(m, q) },
{
    let i = key_index(m, k);
    lemma_key_index_range(m, k, 0);
    lemma_key_index_range(m, q, 0);
    let m2 = map_insert(m, k, v);
    if 0 <= i < m.len() {
        assert forall|t: int| 0 <= t < m2.len() implies m2[t].0 == m[t].0 by {}
        lemma_key_index_same(m2, m, q, 0);
        let j = key_index(m, q);
        if 0 <= j < m.len() && j != i {
            assert(m2[j] == m[j]);
        }
    } else {
        lemma_key_index_push(m, (k, v), q, 0);
        let j = key_index(m, q);
        if 0 <= j < m.len() {
            assert(m2[j] == m[j]);
        }
    }
}

} // verus!
