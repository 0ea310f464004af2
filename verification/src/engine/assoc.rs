//! A small map from key codes to values, kept in insertion order.
//!
//! A session holds only the handful of keys held down at once, and ending a
//! session walks the map to release them: an association list keeps that
//! walk in a fixed order (the order of the presses) that the contracts can
//! state, where a hash map's walk order is left open.
use vstd::prelude::*;

verus! {

/// The map that a list of entries denotes: later entries win.
pub open spec fn entries_map<V: View>(s: Seq<(u16, V)>) -> Map<u16, V::V>
    decreases s.len(),
{
    if s.len() == 0 {
        Map::empty()
    } else {
        entries_map(s.drop_last()).insert(s.last().0, s.last().1@)
    }
}

/// No key occurs twice.
pub open spec fn keys_distinct<V>(s: Seq<(u16, V)>) -> bool {
    forall|i: int, j: int| 0 <= i < j < s.len() ==> (#[trigger] s[i]).0 != (#[trigger] s[j]).0
}

proof fn lemma_entries_dom<V: View>(s: Seq<(u16, V)>, k: u16)
    ensures
        entries_map(s).dom().contains(k) <==> exists|i: int| 0 <= i < s.len() && (#[trigger] s[i]).0 == k,
    decreases s.len(),
{
    if s.len() > 0 {
        lemma_entries_dom(s.drop_last(), k);
        if entries_map(s).dom().contains(k) && s.last().0 != k {
            let i = choose|i: int| 0 <= i < s.drop_last().len() && (#[trigger] s.drop_last()[i]).0 == k;
            assert(s[i] == s.drop_last()[i]);
        }
        if exists|i: int| 0 <= i < s.len() && (#[trigger] s[i]).0 == k {
            let i = choose|i: int| 0 <= i < s.len() && (#[trigger] s[i]).0 == k;
            if i < s.len() - 1 {
                assert(s.drop_last()[i] == s[i]);
            }
        }
    }
}

proof fn lemma_entries_value<V: View>(s: Seq<(u16, V)>, i: int)
    requires
        keys_distinct(s),
        0 <= i < s.len(),
    ensures
        entries_map(s).dom().contains(s[i].0),
        entries_map(s)[s[i].0] == s[i].1@,
    decreases s.len(),
{
    if i < s.len() - 1 {
        assert(s.drop_last()[i] == s[i]);
        assert(keys_distinct(s.drop_last())) by {
            assert forall|a: int, b: int| 0 <= a < b < s.drop_last().len() implies (#[trigger] s.drop_last()[a]).0
                != (#[trigger] s.drop_last()[b]).0 by {
                assert(s.drop_last()[a] == s[a]);
                assert(s.drop_last()[b] == s[b]);
            }
        }
        lemma_entries_value(s.drop_last(), i);
        assert(s[i].0 != s[s.len() - 1].0);
    }
}

proof fn lemma_distinct_drop_last<V>(s: Seq<(u16, V)>)
    requires
        keys_distinct(s),
        s.len() > 0,
    ensures
        keys_distinct(s.drop_last()),
{
    assert forall|a: int, b: int| 0 <= a < b < s.drop_last().len() implies (#[trigger] s.drop_last()[a]).0
        != (#[trigger] s.drop_last()[b]).0 by {
        assert(s.drop_last()[a] == s[a]);
        assert(s.drop_last()[b] == s[b]);
    }
}

proof fn lemma_entries_remove<V: View>(s: Seq<(u16, V)>, i: int)
    requires
        keys_distinct(s),
        0 <= i < s.len(),
    ensures
        entries_map(s.remove(i)) == entries_map(s).remove(s[i].0),
        keys_distinct(s.remove(i)),
    decreases s.len(),
{
    let k = s[i].0;
    lemma_distinct_drop_last(s);
    assert(keys_distinct(s.remove(i))) by {
        assert forall|a: int, b: int| 0 <= a < b < s.remove(i).len() implies (#[trigger] s.remove(i)[a]).0
            != (#[trigger] s.remove(i)[b]).0 by {
            let a2 = if a < i { a } else { a + 1 };
            let b2 = if b < i { b } else { b + 1 };
            assert(s.remove(i)[a] == s[a2]);
            assert(s.remove(i)[b] == s[b2]);
        }
    }
    if i == s.len() - 1 {
        assert(s.remove(i) =~= s.drop_last());
        lemma_entries_dom(s.drop_last(), k);
        assert forall|j: int| 0 <= j < s.drop_last().len() implies (#[trigger] s.drop_last()[j]).0 != k by {
            assert(s.drop_last()[j] == s[j]);
        }
        assert(entries_map(s.drop_last()) =~= entries_map(s).remove(k));
    } else {
        let t = s.drop_last();
        lemma_entries_remove(t, i);
        assert(s.remove(i) =~= t.remove(i).push(s.last()));
        assert(s.remove(i).drop_last() =~= t.remove(i));
        assert(s.last().0 != k);
        assert(entries_map(s.remove(i)) =~= entries_map(s).remove(k));
    }
}

/// A map from key codes to values with distinct keys, in insertion order.
pub struct CodeMap<V> {
    entries: Vec<(u16, V)>,
}

impl<V: View> View for CodeMap<V> {
    type V = Map<u16, V::V>;

    closed spec fn view(&self) -> Map<u16, V::V> {
        entries_map(self.entries@)
    }
}

impl<V: View> CodeMap<V> {
    /// No key occurs twice.
    pub closed spec fn wf(&self) -> bool {
        keys_distinct(self.entries@)
    }

    /// The keys, in insertion order.
    pub closed spec fn keys(&self) -> Seq<u16> {
        self.entries@.map_values(|e: (u16, V)| e.0)
    }

    /// An empty map.
    pub fn new() -> (m: Self)
        ensures
            m.wf(),
            m@ == Map::<u16, V::V>::empty(),
            m.keys().len() == 0,
    {
        let m = CodeMap { entries: Vec::new() };
        assert(m.keys() =~= Seq::<u16>::empty());
        m
    }

    /// Whether `k` has a value.
    pub fn contains(&self, k: u16) -> (r: bool)
        requires
            self.wf(),
        ensures
            r == self@.dom().contains(k),
    {
        proof {
            lemma_entries_dom(self.entries@, k);
        }
        let mut i: usize = 0;
        while i < self.entries.len()
            invariant
                i <= self.entries@.len(),
                forall|j: int| 0 <= j < i ==> (#[trigger] self.entries@[j]).0 != k,
            decreases self.entries@.len() - i,
        {
            if self.entries[i].0 == k {
                proof {
                    lemma_entries_dom(self.entries@, k);
                    assert((self.entries@[i as int]).0 == k);
                }
                return true;
            }
            i = i + 1;
        }
        proof {
            lemma_entries_dom(self.entries@, k);
        }
        false
    }

    /// Removes `k` and returns its value, if it had one.
    pub fn remove(&mut self, k: u16) -> (r: Option<V>)
        requires
            old(self).wf(),
        ensures
            final(self).wf(),
            final(self)@ == old(self)@.remove(k),
            r matches Some(v) ==> old(self)@.dom().contains(k) && v@ == old(self)@[k],
            r is None ==> !old(self)@.dom().contains(k),
    {
        proof {
            lemma_entries_dom(self.entries@, k);
        }
        let mut i: usize = 0;
        while i < self.entries.len()
            invariant
                i <= self.entries@.len(),
                self.entries@ == old(self).entries@,
                keys_distinct(self.entries@),
                forall|j: int| 0 <= j < i ==> (#[trigger] self.entries@[j]).0 != k,
            decreases self.entries@.len() - i,
        {
            if self.entries[i].0 == k {
                proof {
                    lemma_entries_value(self.entries@, i as int);
                    lemma_entries_remove(self.entries@, i as int);
                }
                let (_, v) = self.entries.remove(i);
                return Some(v);
            }
            i = i + 1;
        }
        proof {
            assert(!old(self)@.dom().contains(k));
            assert(old(self)@.remove(k) =~= old(self)@);
        }
        None
    }

    /// Sets the value of `k`, replacing any earlier one; the key moves to the end.
    pub fn insert(&mut self, k: u16, v: V)
        requires
            old(self).wf(),
        ensures
            final(self).wf(),
            final(self)@ == old(self)@.insert(k, v@),
    {
        let _ = self.remove(k);
        let ghost before = self.entries@;
        proof {
            lemma_entries_dom(before, k);
        }
        self.entries.push((k, v));
        proof {
            assert(self.entries@.drop_last() =~= before);
            assert(keys_distinct(self.entries@)) by {
                assert forall|a: int, b: int| 0 <= a < b < self.entries@.len() implies (#[trigger] self.entries@[a]).0
                    != (#[trigger] self.entries@[b]).0 by {
                    if b == self.entries@.len() - 1 {
                        assert(self.entries@[a] == before[a]);
                    } else {
                        assert(self.entries@[a] == before[a]);
                        assert(self.entries@[b] == before[b]);
                    }
                }
            }
            assert(self@ =~= old(self)@.insert(k, v@));
        }
    }

    /// Takes out every entry, in insertion order, leaving the map empty.
    pub fn drain_all(&mut self) -> (r: Vec<(u16, V)>)
        requires
            old(self).wf(),
        ensures
            final(self).wf(),
            final(self)@ == Map::<u16, V::V>::empty(),
            r@.len() == old(self).keys().len(),
            forall|i: int| 0 <= i < r@.len() ==> (#[trigger] r@[i]).0 == old(self).keys()[i],
            forall|i: int| 0 <= i < r@.len() ==> old(self)@.dom().contains((#[trigger] r@[i]).0)
                && old(self)@[r@[i].0] == r@[i].1@,
            r@.map_values(|e: (u16, V)| e.0).to_set() == old(self)@.dom(),
    {
        let mut r: Vec<(u16, V)> = Vec::new();
        std::mem::swap(&mut r, &mut self.entries);
        proof {
            assert forall|i: int| 0 <= i < r@.len() implies old(self)@.dom().contains((#[trigger] r@[i]).0)
                && old(self)@[r@[i].0] == r@[i].1@ by {
                lemma_entries_value(r@, i);
            }
            let ks = r@.map_values(|e: (u16, V)| e.0);
            assert forall|k: u16| #[trigger] old(self)@.dom().contains(k) <==> ks.to_set().contains(k) by {
                lemma_entries_dom(r@, k);
                if old(self)@.dom().contains(k) {
                    let i = choose|i: int| 0 <= i < r@.len() && (#[trigger] r@[i]).0 == k;
                    assert(ks[i] == k);
                }
                if ks.to_set().contains(k) {
                    let i = choose|i: int| 0 <= i < ks.len() && #[trigger] ks[i] == k;
                    assert(r@[i].0 == k);
                }
            }
            assert(ks.to_set() =~= old(self)@.dom());
        }
        r
    }
}

} // verus!
