//! A small map from text keys to values that remembers the order in which its
//! keys first came in.
use vstd::prelude::*;

verus! {

/// The entries as pairs of a key's text and a value's view.
pub open spec fn pairs_of<V: View>(es: Seq<(String, V)>) -> Seq<(Seq<char>, V::V)> {
    Seq::new(es.len(), |i: int| (es[i].0@, es[i].1@))
}

/// The map that a sequence of pairs describes; of two pairs with one key the
/// later one counts.
pub open spec fn map_of<V>(ps: Seq<(Seq<char>, V)>) -> Map<Seq<char>, V>
    decreases ps.len(),
{
    if ps.len() == 0 {
        Map::empty()
    } else {
        map_of(ps.drop_last()).insert(ps.last().0, ps.last().1)
    }
}

/// Whether no key stands twice among the pairs.
pub open spec fn distinct_keys<V>(ps: Seq<(Seq<char>, V)>) -> bool {
    forall|i: int, j: int| 0 <= i < j < ps.len() ==> ps[i].0 != ps[j].0
}

/// The index of the pair with key `k`, or the number of pairs where there is
/// none.
pub open spec fn position_of<V>(ps: Seq<(Seq<char>, V)>, k: Seq<char>) -> int
    decreases ps.len(),
{
    if ps.len() == 0 {
        0
    } else if ps[0].0 == k {
        0
    } else {
        1 + position_of(ps.drop_first(), k)
    }
}

/// The pairs after `k` has been given the value `v`: the pair with that key
/// is replaced where it stands, or a new pair is added at the end.
pub open spec fn with_entry<V>(ps: Seq<(Seq<char>, V)>, k: Seq<char>, v: V) -> Seq<
    (Seq<char>, V),
> {
    let i = position_of(ps, k);
    if 0 <= i < ps.len() {
        ps.update(i, (k, v))
    } else {
        ps.push((k, v))
    }
}

/// The pairs without the one that has the key `k`, if there is one.
pub open spec fn without_key<V>(ps: Seq<(Seq<char>, V)>, k: Seq<char>) -> Seq<(Seq<char>, V)> {
    let i = position_of(ps, k);
    if 0 <= i < ps.len() {
        ps.remove(i)
    } else {
        ps
    }
}

/// A map from text keys to values. Its model is the sequence of its entries,
/// in the order in which their keys first came in; no key stands twice.
pub struct StrMap<V: View> {
    entries: Vec<(String, V)>,
}

impl<V: View> View for StrMap<V> {
    type V = Seq<(Seq<char>, V::V)>;

    closed spec fn view(&self) -> Seq<(Seq<char>, V::V)> {
        pairs_of(self.entries@)
    }
}

impl<V: View> StrMap<V> {
    #[verifier::type_invariant]
    spec fn inv(self) -> bool {
        distinct_keys(pairs_of(self.entries@))
    }

    /// The map that the entries describe.
    pub open spec fn map(&self) -> Map<Seq<char>, V::V> {
        map_of(self@)
    }

    /// A map without entries.
    pub fn new() -> (r: Self)
        ensures
            r@ == Seq::<(Seq<char>, V::V)>::empty(),
    {
        let r = StrMap { entries: Vec::new() };
        assert(r@ =~= Seq::<(Seq<char>, V::V)>::empty());
        r
    }

    /// The number of keys. No key stands twice among the entries.
    pub fn len(&self) -> (r: usize)
        ensures
            r == self@.len(),
            distinct_keys(self@),
    {
        proof {
            use_type_invariant(self);
        }
        self.entries.len()
    }

    /// Whether the map has no entry.
    pub fn is_empty(&self) -> (r: bool)
        ensures
            r == (self@.len() == 0),
    {
        self.entries.len() == 0
    }

    /// The key and the value of the entry at index `i`.
    pub fn entry(&self, i: usize) -> (r: (&String, &V))
        requires
            i < self@.len(),
        ensures
            (r.0@, r.1@) == self@[i as int],
    {
        (&self.entries[i].0, &self.entries[i].1)
    }

    /// The index of the entry with the key `key`, or the number of entries
    /// where there is none.
    pub fn position(&self, key: &str) -> (r: usize)
        ensures
            r == position_of(self@, key@),
            r <= self@.len(),
            r < self@.len() ==> self@[r as int].0 == key@,
            (r < self@.len()) == self.map().dom().contains(key@),
            r < self@.len() ==> self.map()[key@] == self@[r as int].1,
    {
        proof {
            use_type_invariant(self);
            lemma_map_of_position(self@, key@);
        }
        self.first_index(key)
    }

    /// The index of the first entry with the key `key`, or the number of
    /// entries.
    fn first_index(&self, key: &str) -> (r: usize)
        ensures
            r == position_of(self@, key@),
            r <= self@.len(),
    {
        let k = key.to_owned();
        let mut i: usize = 0;
        assert(self@.skip(0) =~= self@);
        while i < self.entries.len()
            invariant
                i <= self.entries.len(),
                k@ == key@,
                position_of(self@, key@) == i + position_of(self@.skip(i as int), key@),
            decreases self.entries.len() - i,
        {
            let ghost rest = self@.skip(i as int);
            assert(rest[0] == self@[i as int]);
            if self.entries[i].0 == k {
                return i;
            }
            assert(rest.drop_first() =~= self@.skip(i + 1));
            i += 1;
        }
        i
    }

    /// Whether the map holds a value for `key`.
    pub fn contains_key(&self, key: &str) -> (r: bool)
        ensures
            r == self.map().dom().contains(key@),
    {
        self.position(key) < self.entries.len()
    }

    /// The value that the map holds for `key`, if it holds one.
    pub fn get(&self, key: &str) -> (r: Option<&V>)
        ensures
            r is Some == self.map().dom().contains(key@),
            r matches Some(v) ==> v@ == self.map()[key@],
    {
        let i = self.position(key);
        if i < self.entries.len() {
            Some(&self.entries[i].1)
        } else {
            None
        }
    }

    /// Gives `key` the value `value` and returns the value that it had. An
    /// entry that is there is replaced where it stands; a new one is added at
    /// the end.
    pub fn insert(&mut self, key: &str, value: V) -> (prev: Option<V>)
        ensures
            final(self)@ == with_entry(old(self)@, key@, value@),
            final(self).map() == old(self).map().insert(key@, value@),
            distinct_keys(final(self)@),
            prev is Some == old(self).map().dom().contains(key@),
            prev matches Some(v) ==> v@ == old(self).map()[key@],
    {
        let i = self.position(key);
        proof {
            use_type_invariant(&*self);
            lemma_with_entry(self@, key@, value@);
        }
        let ghost before = self@;
        let mut es: Vec<(String, V)> = Vec::new();
        core::mem::swap(&mut self.entries, &mut es);
        let prev = if i < es.len() {
            let gone = es.remove(i);
            es.insert(i, (key.to_owned(), value));
            Some(gone.1)
        } else {
            es.push((key.to_owned(), value));
            None
        };
        assert(pairs_of(es@) =~= with_entry(before, key@, value@));
        self.entries = es;
        prev
    }

    /// Takes the entry of `key` out, where there is one, and returns its value.
    pub fn remove(&mut self, key: &str) -> (prev: Option<V>)
        ensures
            final(self)@ == without_key(old(self)@, key@),
            final(self).map() == old(self).map().remove(key@),
            distinct_keys(final(self)@),
            prev is Some == old(self).map().dom().contains(key@),
            prev matches Some(v) ==> v@ == old(self).map()[key@],
    {
        let i = self.position(key);
        proof {
            use_type_invariant(&*self);
            lemma_without_key(self@, key@);
        }
        let ghost before = self@;
        let mut es: Vec<(String, V)> = Vec::new();
        core::mem::swap(&mut self.entries, &mut es);
        let prev = if i < es.len() {
            let gone = es.remove(i);
            Some(gone.1)
        } else {
            None
        };
        assert(pairs_of(es@) =~= without_key(before, key@));
        self.entries = es;
        prev
    }
}

/// Where the key stands, if anywhere, decides what the map holds for it.
pub proof fn lemma_map_of_position<V>(ps: Seq<(Seq<char>, V)>, k: Seq<char>)
    requires
        distinct_keys(ps),
    ensures
        0 <= position_of(ps, k) <= ps.len(),
        position_of(ps, k) < ps.len() ==> ps[position_of(ps, k)].0 == k,
        forall|j: int| 0 <= j < position_of(ps, k) ==> (#[trigger] ps[j]).0 != k,
        map_of(ps).dom().contains(k) == (position_of(ps, k) < ps.len()),
        position_of(ps, k) < ps.len() ==> map_of(ps)[k] == ps[position_of(ps, k)].1,
{
    lemma_position(ps, k);
    lemma_map_of(ps);
    let i = position_of(ps, k);
    if i < ps.len() {
        assert(map_of(ps).dom().contains(ps[i].0));
    }
}

/// `position_of` returns the first index with the key.
pub proof fn lemma_position<V>(ps: Seq<(Seq<char>, V)>, k: Seq<char>)
    ensures
        0 <= position_of(ps, k) <= ps.len(),
        position_of(ps, k) < ps.len() ==> ps[position_of(ps, k)].0 == k,
        forall|j: int| 0 <= j < position_of(ps, k) ==> (#[trigger] ps[j]).0 != k,
    decreases ps.len(),
{
    if ps.len() > 0 && ps[0].0 != k {
        let t = ps.drop_first();
        lemma_position(t, k);
        assert forall|j: int| 0 <= j < position_of(ps, k) implies (#[trigger] ps[j]).0 != k by {
            if j > 0 {
                assert(ps[j] == t[j - 1]);
            }
        }
        if position_of(ps, k) < ps.len() {
            assert(ps[position_of(ps, k)] == t[position_of(t, k)]);
        }
    }
}

/// With distinct keys the map holds exactly the pairs.
pub proof fn lemma_map_of<V>(ps: Seq<(Seq<char>, V)>)
    requires
        distinct_keys(ps),
    ensures
        forall|j: int|
            0 <= j < ps.len() ==> map_of(ps).dom().contains((#[trigger] ps[j]).0) && map_of(
                ps,
            )[ps[j].0] == ps[j].1,
        forall|k: Seq<char>| #[trigger]
            map_of(ps).dom().contains(k) ==> 0 <= position_of(ps, k) < ps.len(),
    decreases ps.len(),
{
    if ps.len() > 0 {
        let t = ps.drop_last();
        let n = ps.len() - 1;
        assert forall|i: int, j: int| 0 <= i < j < t.len() implies t[i].0 != t[j].0 by {
            assert(t[i] == ps[i] && t[j] == ps[j]);
        }
        lemma_map_of(t);
        assert forall|j: int| 0 <= j < ps.len() implies map_of(ps).dom().contains(
            (#[trigger] ps[j]).0,
        ) && map_of(ps)[ps[j].0] == ps[j].1 by {
            if j < n {
                assert(t[j] == ps[j]);
                assert(ps[j].0 != ps[n].0);
            }
        }
        assert forall|k: Seq<char>| #[trigger] map_of(ps).dom().contains(k) implies 0
            <= position_of(ps, k) < ps.len() by {
            lemma_position(ps, k);
            if k == ps[n].0 {
            } else {
                assert(map_of(t).dom().contains(k));
                lemma_position(t, k);
                let j = position_of(t, k);
                assert(t[j] == ps[j]);
            }
        }
    }
}

/// Giving a key a value keeps the keys distinct and inserts into the map.
pub proof fn lemma_with_entry<V>(ps: Seq<(Seq<char>, V)>, k: Seq<char>, v: V)
    requires
        distinct_keys(ps),
    ensures
        distinct_keys(with_entry(ps, k, v)),
        map_of(with_entry(ps, k, v)) == map_of(ps).insert(k, v),
{
    lemma_position(ps, k);
    let i = position_of(ps, k);
    let qs = with_entry(ps, k, v);
    let at = if i < ps.len() { i } else { ps.len() as int };
    assert(qs[at] == (k, v));
    assert forall|a: int, b: int| 0 <= a < b < qs.len() implies qs[a].0 != qs[b].0 by {
        if i < ps.len() {
            assert(qs[a].0 == ps[a].0 && qs[b].0 == ps[b].0);
        } else {
            if b == ps.len() {
                assert(ps[a].0 != k);
            }
        }
    }
    lemma_map_of(ps);
    lemma_map_of(qs);
    let m1 = map_of(qs);
    let m2 = map_of(ps).insert(k, v);
    assert forall|x: Seq<char>| m1.dom().contains(x) == m2.dom().contains(x) by {
        if m1.dom().contains(x) {
            lemma_position(qs, x);
            let j = position_of(qs, x);
            if x != k {
                assert(qs[j] == ps[j]);
            }
        }
        if m2.dom().contains(x) {
            if x == k {
                assert(m1.dom().contains(qs[at].0));
            } else {
                lemma_position(ps, x);
                let j = position_of(ps, x);
                assert(qs[j] == ps[j]);
                assert(m1.dom().contains(qs[j].0));
            }
        }
    }
    assert forall|x: Seq<char>| m1.dom().contains(x) implies m1[x] == m2[x] by {
        lemma_position(qs, x);
        let j = position_of(qs, x);
        assert(m1[qs[j].0] == qs[j].1);
        if x != k {
            assert(qs[j] == ps[j]);
            assert(map_of(ps)[ps[j].0] == ps[j].1);
        } else {
            if j != at {
                assert(qs[j].0 != qs[at].0);
            }
        }
    }
    assert(m1 =~= m2);
}

/// Taking a key out keeps the keys distinct and removes from the map.
pub proof fn lemma_without_key<V>(ps: Seq<(Seq<char>, V)>, k: Seq<char>)
    requires
        distinct_keys(ps),
    ensures
        distinct_keys(without_key(ps, k)),
        map_of(without_key(ps, k)) == map_of(ps).remove(k),
{
    lemma_position(ps, k);
    lemma_map_of(ps);
    let i = position_of(ps, k);
    let qs = without_key(ps, k);
    if i < ps.len() {
        assert forall|a: int, b: int| 0 <= a < b < qs.len() implies qs[a].0 != qs[b].0 by {
            let a2 = if a < i { a } else { a + 1 };
            let b2 = if b < i { b } else { b + 1 };
            assert(qs[a] == ps[a2] && qs[b] == ps[b2]);
        }
        lemma_map_of(qs);
        let m1 = map_of(qs);
        let m2 = map_of(ps).remove(k);
        assert forall|x: Seq<char>| m1.dom().contains(x) == m2.dom().contains(x) by {
            if m1.dom().contains(x) {
                lemma_position(qs, x);
                let j = position_of(qs, x);
                let j2 = if j < i { j } else { j + 1 };
                assert(qs[j] == ps[j2]);
                assert(ps[j2].0 != ps[i].0);
                assert(map_of(ps).dom().contains(ps[j2].0));
            }
            if m2.dom().contains(x) {
                lemma_position(ps, x);
                let j = position_of(ps, x);
                let j2 = if j < i { j } else { j - 1 };
                assert(qs[j2] == ps[j]);
                assert(m1.dom().contains(qs[j2].0));
            }
        }
        assert forall|x: Seq<char>| m1.dom().contains(x) implies m1[x] == m2[x] by {
            lemma_position(qs, x);
            let j = position_of(qs, x);
            let j2 = if j < i { j } else { j + 1 };
            assert(qs[j] == ps[j2]);
            assert(m1[qs[j].0] == qs[j].1);
            assert(map_of(ps)[ps[j2].0] == ps[j2].1);
        }
        assert(m1 =~= m2);
    } else {
        assert(!map_of(ps).dom().contains(k));
        assert(map_of(ps).remove(k) =~= map_of(ps));
    }
}

/// The first index with the key is the position.
pub proof fn lemma_position_is<V>(ps: Seq<(Seq<char>, V)>, k: Seq<char>, i: int)
    requires
        0 <= i <= ps.len(),
        i < ps.len() ==> ps[i].0 == k,
        forall|j: int| 0 <= j < i ==> (#[trigger] ps[j]).0 != k,
    ensures
        position_of(ps, k) == i,
{
    lemma_position(ps, k);
    let p = position_of(ps, k);
    if p < i {
        assert(ps[p].0 != k);
    }
}

/// Of two values given to one key in turn only the second is left.
pub proof fn lemma_with_entry_twice<V>(ps: Seq<(Seq<char>, V)>, k: Seq<char>, a: V, b: V)
    ensures
        with_entry(with_entry(ps, k, a), k, b) == with_entry(ps, k, b),
{
    lemma_position(ps, k);
    let i = position_of(ps, k);
    let qs = with_entry(ps, k, a);
    assert forall|j: int| 0 <= j < i implies (#[trigger] qs[j]).0 != k by {
        assert(qs[j] == ps[j]);
    }
    lemma_position_is(qs, k, i);
    assert(with_entry(qs, k, b) =~= with_entry(ps, k, b));
}

} // verus!
