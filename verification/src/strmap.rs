//! A string-keyed map with a mathematical `Map` view, used for a session's
//! payload (key to string-encoded value).

use vstd::prelude::*;

verus! {

/// Compares two string slices character by character.
pub fn str_eq(a: &str, b: &str) -> (r: bool)
    ensures
        r == (a@ == b@),
{
    let alen = a.unicode_len();
    let blen = b.unicode_len();
    if alen != blen {
        assert(a@.len() != b@.len());
        return false;
    }
    let mut i: usize = 0;
    while i < alen
        invariant
            0 <= i <= alen,
            alen == a@.len(),
            alen == b@.len(),
            forall|j: int| 0 <= j < i ==> a@[j] == b@[j],
        decreases alen - i,
    {
        if a.get_char(i) != b.get_char(i) {
            return false;
        }
        i += 1;
    }
    proof {
        assert(a@ =~= b@);
    }
    true
}

/// A map from string keys to string values, stored as a vector of pairs with
/// pairwise-distinct keys. Its view is the corresponding mathematical map.
pub struct StrMap {
    entries: Vec<(String, String)>,
}

impl StrMap {
    /// The mathematical map this value represents.
    pub closed spec fn view(&self) -> Map<Seq<char>, Seq<char>> {
        entries_map(self.entries@)
    }

    /// Keys are pairwise distinct, so each key denotes one entry.
    pub closed spec fn wf(&self) -> bool {
        forall|i: int, j: int|
            0 <= i < j < self.entries@.len() ==> self.entries@[i].0@ != self.entries@[j].0@
    }

    /// The entries in insertion order, as view pairs.
    pub closed spec fn entry_seq(&self) -> Seq<(Seq<char>, Seq<char>)> {
        self.entries@.map_values(|e: (String, String)| (e.0@, e.1@))
    }

    pub fn new() -> (r: StrMap)
        ensures
            r.wf(),
            r@ == Map::<Seq<char>, Seq<char>>::empty(),
            r.entry_seq() == Seq::<(Seq<char>, Seq<char>)>::empty(),
    {
        let r = StrMap { entries: Vec::new() };
        proof {
            assert(r.entry_seq() =~= Seq::<(Seq<char>, Seq<char>)>::empty());
        }
        r
    }

    pub fn len(&self) -> (n: usize)
        requires
            self.wf(),
        ensures
            n == self.entry_seq().len(),
            n == self@.dom().len(),
    {
        proof {
            lemma_entries_map_len(self.entries@);
        }
        self.entries.len()
    }

    fn position(&self, k: &str) -> (r: Option<usize>)
        ensures
            match r {
                Some(i) => i < self.entries@.len() && self.entries@[i as int].0@ == k@,
                None => forall|i: int| 0 <= i < self.entries@.len() ==> self.entries@[i].0@ != k@,
            },
    {
        let n = self.entries.len();
        let mut i: usize = 0;
        while i < n
            invariant
                0 <= i <= n,
                n == self.entries@.len(),
                forall|j: int| 0 <= j < i ==> self.entries@[j].0@ != k@,
            decreases n - i,
        {
            if str_eq(self.entries[i].0.as_str(), k) {
                return Some(i);
            }
            i += 1;
        }
        None
    }

    /// Looks a key up; no mutation.
    pub fn get(&self, k: &str) -> (r: Option<&String>)
        requires
            self.wf(),
        ensures
            match r {
                Some(v) => self@.contains_key(k@) && v@ == self@[k@],
                None => !self@.contains_key(k@),
            },
    {
        match self.position(k) {
            Some(i) => {
                proof {
                    lemma_entries_map_index(self.entries@, i as int);
                }
                Some(&self.entries[i].1)
            },
            None => {
                proof {
                    lemma_entries_map_absent(self.entries@, k@);
                }
                None
            },
        }
    }

    /// Whether the key is present.
    pub fn contains_key(&self, k: &str) -> (r: bool)
        requires
            self.wf(),
        ensures
            r == self@.contains_key(k@),
    {
        self.get(k).is_some()
    }

    /// Inserts or replaces the value under a key.
    pub fn insert(&mut self, k: String, v: String)
        requires
            old(self).wf(),
        ensures
            final(self).wf(),
            final(self)@ == old(self)@.insert(k@, v@),
    {
        let ghost pre = self.entries@;
        match self.position(k.as_str()) {
            Some(i) => {
                let slot = vstd::std_specs::vec::vec_index_mut(&mut self.entries, i);
                *slot = (k, v);
                proof {
                    lemma_entries_map_update(pre, self.entries@, i as int);
                    assert(self@ =~= old(self)@.insert(k@, v@));
                }
            },
            None => {
                self.entries.push((k, v));
                proof {
                    lemma_entries_map_absent(pre, k@);
                    assert(self.entries@.drop_last() =~= pre);
                    assert(self@ =~= old(self)@.insert(k@, v@));
                }
            },
        }
    }

    /// Removes a key, returning its value when it was present. Removing an
    /// absent key leaves the map unchanged.
    pub fn remove(&mut self, k: &str) -> (r: Option<String>)
        requires
            old(self).wf(),
        ensures
            final(self).wf(),
            final(self)@ == old(self)@.remove(k@),
            match r {
                Some(v) => old(self)@.contains_key(k@) && v@ == old(self)@[k@],
                None => !old(self)@.contains_key(k@),
            },
    {
        let ghost pre = self.entries@;
        match self.position(k) {
            Some(i) => {
                let (_, v) = self.entries.remove(i);
                proof {
                    lemma_entries_map_index(pre, i as int);
                    lemma_entries_map_remove(pre, self.entries@, i as int);
                    assert(self@ =~= old(self)@.remove(k@));
                }
                Some(v)
            },
            None => {
                proof {
                    lemma_entries_map_absent(pre, k@);
                    assert(self@ =~= old(self)@.remove(k@));
                }
                None
            },
        }
    }

    /// Drops every entry.
    pub fn clear(&mut self)
        ensures
            final(self).wf(),
            final(self)@ == Map::<Seq<char>, Seq<char>>::empty(),
            final(self).entry_seq() == Seq::<(Seq<char>, Seq<char>)>::empty(),
    {
        self.entries.clear();
        proof {
            assert(self@ =~= Map::<Seq<char>, Seq<char>>::empty());
            assert(self.entry_seq() =~= Seq::<(Seq<char>, Seq<char>)>::empty());
        }
    }

    /// The entry at a position, in insertion order.
    pub fn entry_at(&self, i: usize) -> (r: (&String, &String))
        requires
            i < self.entry_seq().len(),
        ensures
            (r.0@, r.1@) == self.entry_seq()[i as int],
    {
        (&self.entries[i].0, &self.entries[i].1)
    }

    /// Copies every entry of `other` into this map, replacing values of
    /// shared keys.
    pub fn merge(&mut self, other: &StrMap)
        requires
            old(self).wf(),
            other.wf(),
        ensures
            final(self).wf(),
            final(self)@ == old(self)@.union_prefer_right(other@),
    {
        let ghost target = old(self)@.union_prefer_right(other@);
        let n = other.entries.len();
        let mut i: usize = 0;
        proof {
            assert(other.entries@.take(0).len() == 0);
            assert(self@ =~= old(self)@.union_prefer_right(entries_map(other.entries@.take(0))));
        }
        while i < n
            invariant
                0 <= i <= n,
                n == other.entries@.len(),
                other.wf(),
                self.wf(),
                self@ == old(self)@.union_prefer_right(entries_map(other.entries@.take(i as int))),
            decreases n - i,
        {
            let k = other.entries[i].0.clone();
            let v = other.entries[i].1.clone();
            self.insert(k, v);
            proof {
                assert(other.entries@.take(i + 1).drop_last() =~= other.entries@.take(i as int));
                assert(self@ =~= old(self)@.union_prefer_right(
                    entries_map(other.entries@.take(i + 1)),
                ));
            }
            i += 1;
        }
        proof {
            assert(other.entries@.take(n as int) =~= other.entries@);
        }
    }
}

/// The mathematical map induced by a sequence of entries; later entries win.
pub closed spec fn entries_map(s: Seq<(String, String)>) -> Map<Seq<char>, Seq<char>>
    decreases s.len(),
{
    if s.len() == 0 {
        Map::empty()
    } else {
        entries_map(s.drop_last()).insert(s.last().0@, s.last().1@)
    }
}

/// With pairwise-distinct keys, each entry is what the map holds for its key.
proof fn lemma_entries_map_index(s: Seq<(String, String)>, i: int)
    requires
        0 <= i < s.len(),
        forall|p: int, q: int| 0 <= p < q < s.len() ==> s[p].0@ != s[q].0@,
    ensures
        entries_map(s).contains_key(s[i].0@),
        entries_map(s)[s[i].0@] == s[i].1@,
    decreases s.len(),
{
    if i < s.len() - 1 {
        lemma_entries_map_index(s.drop_last(), i);
    }
}

proof fn lemma_entries_map_absent(s: Seq<(String, String)>, k: Seq<char>)
    requires
        forall|i: int| 0 <= i < s.len() ==> s[i].0@ != k,
    ensures
        !entries_map(s).contains_key(k),
    decreases s.len(),
{
    if s.len() > 0 {
        lemma_entries_map_absent(s.drop_last(), k);
    }
}

proof fn lemma_entries_map_update(pre: Seq<(String, String)>, post: Seq<(String, String)>, i: int)
    requires
        0 <= i < pre.len(),
        post.len() == pre.len(),
        post[i].0@ == pre[i].0@,
        forall|j: int| 0 <= j < pre.len() && j != i ==> post[j] == pre[j],
        forall|p: int, q: int| 0 <= p < q < pre.len() ==> pre[p].0@ != pre[q].0@,
    ensures
        entries_map(post) =~= entries_map(pre).insert(post[i].0@, post[i].1@),
    decreases pre.len(),
{
    if pre.len() > 0 {
        if i == pre.len() - 1 {
            assert(pre.drop_last() =~= post.drop_last());
        } else {
            lemma_entries_map_update(pre.drop_last(), post.drop_last(), i);
        }
    }
}

proof fn lemma_entries_map_remove(pre: Seq<(String, String)>, post: Seq<(String, String)>, i: int)
    requires
        0 <= i < pre.len(),
        post =~= pre.subrange(0, i) + pre.subrange(i + 1, pre.len() as int),
        forall|p: int, q: int| 0 <= p < q < pre.len() ==> pre[p].0@ != pre[q].0@,
    ensures
        entries_map(post) =~= entries_map(pre).remove(pre[i].0@),
        forall|p: int, q: int| 0 <= p < q < post.len() ==> post[p].0@ != post[q].0@,
    decreases pre.len(),
{
    if i == pre.len() - 1 {
        assert(post =~= pre.drop_last());
        lemma_entries_map_absent(pre.drop_last(), pre[i].0@);
    } else {
        lemma_entries_map_remove(pre.drop_last(), post.drop_last(), i);
        assert(post.last() == pre.last());
        lemma_entries_map_absent(pre.drop_last().subrange(0, i)
            + pre.drop_last().subrange(i + 1, pre.len() - 1), pre[i].0@);
    }
}

proof fn lemma_entries_map_len(s: Seq<(String, String)>)
    requires
        forall|p: int, q: int| 0 <= p < q < s.len() ==> s[p].0@ != s[q].0@,
    ensures
        entries_map(s).dom().finite(),
        entries_map(s).dom().len() == s.len(),
    decreases s.len(),
{
    if s.len() > 0 {
        lemma_entries_map_len(s.drop_last());
        lemma_entries_map_absent(s.drop_last(), s.last().0@);
    }
}

} // verus!

verus! {

/// The mathematical map induced by a sequence of view pairs; later pairs win.
pub open spec fn pairs_map(es: Seq<(Seq<char>, Seq<char>)>) -> Map<Seq<char>, Seq<char>>
    decreases es.len(),
{
    if es.len() == 0 {
        Map::empty()
    } else {
        pairs_map(es.drop_last()).insert(es.last().0, es.last().1)
    }
}

proof fn lemma_entries_map_is_pairs(s: Seq<(String, String)>)
    ensures
        entries_map(s) == pairs_map(s.map_values(|e: (String, String)| (e.0@, e.1@))),
    decreases s.len(),
{
    let f = |e: (String, String)| (e.0@, e.1@);
    if s.len() == 0 {
        assert(s.map_values(f).len() == 0);
    } else {
        lemma_entries_map_is_pairs(s.drop_last());
        assert(s.map_values(f).drop_last() =~= s.drop_last().map_values(f));
        assert(s.map_values(f).last() == f(s.last()));
    }
}

/// A map's view is the pair-map of its entry sequence.
pub proof fn lemma_strmap_view_is_pairs(m: &StrMap)
    ensures
        m@ == pairs_map(m.entry_seq()),
{
    lemma_entries_map_is_pairs(m.entries@);
}

} // verus!
