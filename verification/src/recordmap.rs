//! The in-memory record store: session identifier to session record, with a
//! mathematical `Map` view and the sweep the engine runs on it.

use vstd::prelude::*;

use crate::record::SessionData;

verus! {

/// The map induced by a sequence of (id, record) entries.
pub open spec fn rec_map(s: Seq<(u128, SessionData)>) -> Map<u128, SessionData>
    decreases s.len(),
{
    if s.len() == 0 {
        Map::empty()
    } else {
        rec_map(s.drop_last()).insert(s.last().0, s.last().1)
    }
}

/// Pairwise-distinct identifiers.
pub open spec fn rec_unique(s: Seq<(u128, SessionData)>) -> bool {
    forall|i: int, j: int| 0 <= i < j < s.len() ==> s[i].0 != s[j].0
}

proof fn lemma_rec_map_dom(s: Seq<(u128, SessionData)>)
    ensures
        mem_rec_dom(s) =~= rec_map(s).dom(),
        rec_map(s).dom().finite(),
    decreases s.len(),
{
    if s.len() > 0 {
        let sd = s.drop_last();
        lemma_rec_map_dom(sd);
        let target = mem_rec_dom(s);
        assert forall|k: u128| #[trigger] rec_map(s).dom().contains(k) implies target.contains(
            k,
        ) by {
            if k == s.last().0 {
                assert(s[s.len() - 1].0 == k);
            } else {
                let i = choose|i: int| 0 <= i < sd.len() && sd[i].0 == k;
                assert(s[i].0 == k);
            }
        }
        assert forall|k: u128| #[trigger] target.contains(k) implies rec_map(s).dom().contains(
            k,
        ) by {
            let i = choose|i: int| 0 <= i < s.len() && s[i].0 == k;
            if i < s.len() - 1 {
                assert(sd[i].0 == k);
            }
        }
        assert(mem_rec_dom(s) =~= rec_map(s).dom());
    } else {
        assert(mem_rec_dom(s) =~= rec_map(s).dom());
    }
}

/// The identifiers of a sequence of entries, as a set.
pub open spec fn mem_rec_dom(s: Seq<(u128, SessionData)>) -> Set<u128> {
    Set::new(|k: u128| exists|i: int| 0 <= i < s.len() && s[i].0 == k)
}

proof fn lemma_rec_map_index(s: Seq<(u128, SessionData)>, i: int)
    requires
        0 <= i < s.len(),
        rec_unique(s),
    ensures
        rec_map(s).contains_key(s[i].0),
        rec_map(s)[s[i].0] == s[i].1,
    decreases s.len(),
{
    if i < s.len() - 1 {
        lemma_rec_map_index(s.drop_last(), i);
    }
}

proof fn lemma_rec_map_absent(s: Seq<(u128, SessionData)>, k: u128)
    requires
        forall|i: int| 0 <= i < s.len() ==> s[i].0 != k,
    ensures
        !rec_map(s).contains_key(k),
    decreases s.len(),
{
    if s.len() > 0 {
        lemma_rec_map_absent(s.drop_last(), k);
    }
}

proof fn lemma_rec_map_update(s: Seq<(u128, SessionData)>, post: Seq<(u128, SessionData)>, i: int)
    requires
        0 <= i < s.len(),
        post.len() == s.len(),
        post[i].0 == s[i].0,
        forall|j: int| 0 <= j < s.len() && j != i ==> post[j] == s[j],
        rec_unique(s),
    ensures
        rec_map(post) =~= rec_map(s).insert(post[i].0, post[i].1),
    decreases s.len(),
{
    if s.len() > 0 {
        if i == s.len() - 1 {
            assert(s.drop_last() =~= post.drop_last());
        } else {
            lemma_rec_map_update(s.drop_last(), post.drop_last(), i);
        }
    }
}

proof fn lemma_rec_map_remove(s: Seq<(u128, SessionData)>, post: Seq<(u128, SessionData)>, i: int)
    requires
        0 <= i < s.len(),
        post =~= s.subrange(0, i) + s.subrange(i + 1, s.len() as int),
        rec_unique(s),
    ensures
        rec_map(post) =~= rec_map(s).remove(s[i].0),
        rec_unique(post),
    decreases s.len(),
{
    if i == s.len() - 1 {
        assert(post =~= s.drop_last());
        lemma_rec_map_absent(s.drop_last(), s[i].0);
    } else {
        lemma_rec_map_remove(s.drop_last(), post.drop_last(), i);
        assert(post.last() == s.last());
        lemma_rec_map_absent(
            s.drop_last().subrange(0, i) + s.drop_last().subrange(i + 1, s.len() - 1),
            s[i].0,
        );
    }
}

/// Whether the memory sweep keeps a record at `now`: it does unless the
/// record's memory deadline has passed and no request holds it.
pub open spec fn sweep_keeps(r: SessionData, now: int) -> bool {
    r.autoremove_at >= now || r.requests >= 1
}

/// The identifiers the memory sweep evicts from a record map at `now`.
pub open spec fn sweep_victims(m: Map<u128, SessionData>, now: int) -> Set<u128> {
    m.dom().filter(|id: u128| !sweep_keeps(m[id], now))
}

/// The entries the sweep keeps, in order.
pub open spec fn sweep_kept(s: Seq<(u128, SessionData)>, now: int) -> Seq<(u128, SessionData)>
    decreases s.len(),
{
    if s.len() == 0 {
        Seq::empty()
    } else if sweep_keeps(s.last().1, now) {
        sweep_kept(s.drop_last(), now).push(s.last())
    } else {
        sweep_kept(s.drop_last(), now)
    }
}

proof fn lemma_sweep_sub(s: Seq<(u128, SessionData)>, now: int)
    requires
        rec_unique(s),
    ensures
        rec_unique(sweep_kept(s, now)),
        forall|i: int|
            0 <= i < sweep_kept(s, now).len() ==> exists|j: int|
                0 <= j < s.len() && s[j] == #[trigger] sweep_kept(s, now)[i],
    decreases s.len(),
{
    if s.len() > 0 {
        let s2 = s.drop_last();
        lemma_sweep_sub(s2, now);
        assert(forall|j: int| 0 <= j < s2.len() ==> s2[j] == s[j]);
        if sweep_keeps(s.last().1, now) {
            let kept2 = sweep_kept(s2, now);
            let kept = sweep_kept(s, now);
            assert(kept == kept2.push(s.last()));
            assert(forall|i: int| 0 <= i < kept2.len() ==> kept[i] == kept2[i]);
            assert(kept[kept.len() - 1] == s.last());
        }
    }
}

proof fn lemma_sweep_map(s: Seq<(u128, SessionData)>, now: int)
    requires
        rec_unique(s),
    ensures
        rec_unique(sweep_kept(s, now)),
        rec_map(sweep_kept(s, now)) =~= rec_map(s).remove_keys(sweep_victims(rec_map(s), now)),
    decreases s.len(),
{
    if s.len() == 0 {
    } else {
        let s2 = s.drop_last();
        let e = s.last();
        lemma_sweep_map(s2, now);
        lemma_rec_map_dom(s2);
        assert(!rec_map(s2).contains_key(e.0));
        lemma_sweep_sub(s, now);
        if sweep_keeps(e.1, now) {
            assert(sweep_victims(rec_map(s), now) =~= sweep_victims(rec_map(s2), now));
            let kept2 = sweep_kept(s2, now);
            assert(kept2.push(e).drop_last() =~= kept2);
            assert(rec_map(sweep_kept(s, now)) =~= rec_map(s).remove_keys(
                sweep_victims(rec_map(s), now),
            ));
        } else {
            assert(sweep_victims(rec_map(s), now) =~= sweep_victims(rec_map(s2), now).insert(e.0));
            assert(rec_map(sweep_kept(s, now)) =~= rec_map(s).remove_keys(
                sweep_victims(rec_map(s), now),
            ));
        }
    }
}

/// The identifier-to-record map.
pub struct RecordMap {
    entries: Vec<(u128, SessionData)>,
}

impl RecordMap {
    /// The mathematical map this store represents.
    pub closed spec fn view(&self) -> Map<u128, SessionData> {
        rec_map(self.entries@)
    }

    /// Identifiers are pairwise distinct and every record is well-formed and
    /// keyed by its own identifier.
    pub closed spec fn wf(&self) -> bool {
        &&& rec_unique(self.entries@)
        &&& forall|i: int|
            0 <= i < self.entries@.len() ==> (#[trigger] self.entries@[i].1).wf()
                && self.entries@[i].1.id == self.entries@[i].0
    }

    /// Every held record is well-formed and keyed by its own identifier.
    pub proof fn lemma_wf_records(&self)
        requires
            self.wf(),
        ensures
            forall|id: u128|
                self@.contains_key(id) ==> (#[trigger] self@[id]).wf() && self@[id].id == id,
            self@.dom().finite(),
    {
        lemma_rec_map_dom(self.entries@);
        assert forall|id: u128| self@.contains_key(id) implies (#[trigger] self@[id]).wf()
            && self@[id].id == id by {
            let i = choose|i: int| 0 <= i < self.entries@.len() && self.entries@[i].0 == id;
            lemma_rec_map_index(self.entries@, i);
        }
    }

    pub fn new() -> (r: RecordMap)
        ensures
            r.wf(),
            r@ == Map::<u128, SessionData>::empty(),
    {
        RecordMap { entries: Vec::new() }
    }

    /// How many records are held.
    pub fn len(&self) -> (n: usize)
        requires
            self.wf(),
        ensures
            n == self@.dom().len(),
    {
        proof {
            lemma_rec_len(self.entries@);
        }
        self.entries.len()
    }

    fn position(&self, id: u128) -> (r: Option<usize>)
        ensures
            match r {
                Some(i) => i < self.entries@.len() && self.entries@[i as int].0 == id,
                None => forall|i: int| 0 <= i < self.entries@.len() ==> self.entries@[i].0 != id,
            },
    {
        let n = self.entries.len();
        let mut i: usize = 0;
        while i < n
            invariant
                0 <= i <= n,
                n == self.entries@.len(),
                forall|j: int| 0 <= j < i ==> self.entries@[j].0 != id,
            decreases n - i,
        {
            if self.entries[i].0 == id {
                return Some(i);
            }
            i += 1;
        }
        None
    }

    /// Whether a record is held under the identifier.
    pub fn contains_key(&self, id: u128) -> (r: bool)
        requires
            self.wf(),
        ensures
            r == self@.contains_key(id),
    {
        match self.position(id) {
            Some(i) => {
                proof {
                    lemma_rec_map_index(self.entries@, i as int);
                }
                true
            },
            None => {
                proof {
                    lemma_rec_map_absent(self.entries@, id);
                }
                false
            },
        }
    }

    /// Reads a record; no mutation.
    pub fn get(&self, id: u128) -> (r: Option<&SessionData>)
        requires
            self.wf(),
        ensures
            match r {
                Some(d) => self@.contains_key(id) && *d == self@[id],
                None => !self@.contains_key(id),
            },
    {
        match self.position(id) {
            Some(i) => {
                proof {
                    lemma_rec_map_index(self.entries@, i as int);
                }
                Some(&self.entries[i].1)
            },
            None => {
                proof {
                    lemma_rec_map_absent(self.entries@, id);
                }
                None
            },
        }
    }

    /// Inserts or replaces a record.
    pub fn insert(&mut self, id: u128, data: SessionData)
        requires
            old(self).wf(),
            data.wf(),
            data.id == id,
        ensures
            final(self).wf(),
            final(self)@ == old(self)@.insert(id, data),
    {
        let ghost pre = self.entries@;
        match self.position(id) {
            Some(i) => {
                let slot = vstd::std_specs::vec::vec_index_mut(&mut self.entries, i);
                *slot = (id, data);
                proof {
                    lemma_rec_map_update(pre, self.entries@, i as int);
                    assert(self@ =~= old(self)@.insert(id, data));
                }
            },
            None => {
                self.entries.push((id, data));
                proof {
                    lemma_rec_map_absent(pre, id);
                    assert(self.entries@.drop_last() =~= pre);
                    assert(self@ =~= old(self)@.insert(id, data));
                }
            },
        }
    }

    /// Removes a record, returning it when it was held.
    pub fn remove(&mut self, id: u128) -> (r: Option<SessionData>)
        requires
            old(self).wf(),
        ensures
            final(self).wf(),
            final(self)@ == old(self)@.remove(id),
            match r {
                Some(d) => old(self)@.contains_key(id) && d == old(self)@[id],
                None => !old(self)@.contains_key(id),
            },
    {
        let ghost pre = self.entries@;
        match self.position(id) {
            Some(i) => {
                let (_, d) = self.entries.remove(i);
                proof {
                    lemma_rec_map_index(pre, i as int);
                    lemma_rec_map_remove(pre, self.entries@, i as int);
                    assert(self@ =~= old(self)@.remove(id));
                }
                Some(d)
            },
            None => {
                proof {
                    lemma_rec_map_absent(pre, id);
                    assert(self@ =~= old(self)@.remove(id));
                }
                None
            },
        }
    }

    /// The identifiers of records whose memory deadline has passed at `now`
    /// (including records protected by their reference count).
    pub fn expired_ids(&self, now: i64) -> (r: Vec<u128>)
        requires
            self.wf(),
        ensures
            forall|t: int|
                0 <= t < r@.len() ==> self@.contains_key(#[trigger] r@[t]) && self@[r@[t]].autoremove_at
                    < now,
    {
        let n = self.entries.len();
        let mut r: Vec<u128> = Vec::new();
        let mut i: usize = 0;
        while i < n
            invariant
                0 <= i <= n,
                n == self.entries@.len(),
                self.wf(),
                forall|t: int|
                    0 <= t < r@.len() ==> self@.contains_key(#[trigger] r@[t]) && self@[r@[t]].autoremove_at
                        < now,
            decreases n - i,
        {
            if self.entries[i].1.autoremove_at < now {
                proof {
                    lemma_rec_map_index(self.entries@, i as int);
                }
                r.push(self.entries[i].0);
            }
            i += 1;
        }
        r
    }

    /// Evicts every record whose memory deadline has passed and that no
    /// request holds. A record with a live reference count always stays.
    pub fn sweep(&mut self, now: i64)
        requires
            old(self).wf(),
        ensures
            final(self).wf(),
            final(self)@ == old(self)@.remove_keys(sweep_victims(old(self)@, now as int)),
            forall|id: u128|
                old(self)@.contains_key(id) && (old(self)@[id].autoremove_at >= now || old(
                    self,
                )@[id].requests >= 1) ==> final(self)@.contains_key(id) && final(self)@[id] == old(
                    self,
                )@[id],
    {
        let ghost s0 = self.entries@;
        let mut kept: Vec<(u128, SessionData)> = Vec::new();
        let ghost mut done: int = 0;
        proof {
            assert(self.entries@ =~= s0.subrange(0, s0.len() as int));
            assert(kept@ =~= sweep_kept(s0.take(0), now as int));
        }
        while self.entries.len() > 0
            invariant
                0 <= done <= s0.len(),
                self.entries@ == s0.subrange(done, s0.len() as int),
                kept@ == sweep_kept(s0.take(done), now as int),
            decreases self.entries@.len(),
        {
            let e = self.entries.remove(0);
            proof {
                assert(e == s0[done]);
                assert(self.entries@ =~= s0.subrange(done + 1, s0.len() as int));
                assert(s0.take(done + 1).drop_last() =~= s0.take(done));
                assert(s0.take(done + 1).last() == s0[done]);
            }
            if e.1.autoremove_at >= now || e.1.requests >= 1 {
                kept.push(e);
            }
            proof {
                done = done + 1;
            }
        }
        proof {
            assert(s0.take(s0.len() as int) =~= s0);
        }
        self.entries = kept;
        proof {
            lemma_sweep_map(s0, now as int);
            lemma_sweep_sub(s0, now as int);
            assert forall|id: u128|
                old(self)@.contains_key(id) && sweep_keeps(old(self)@[id], now as int) implies
                final(self)@.contains_key(id) && final(self)@[id] == old(self)@[id] by {
                assert(!sweep_victims(rec_map(s0), now as int).contains(id));
            }
        }
    }
}

proof fn lemma_rec_len(s: Seq<(u128, SessionData)>)
    requires
        rec_unique(s),
    ensures
        rec_map(s).dom().finite(),
        rec_map(s).dom().len() == s.len(),
    decreases s.len(),
{
    if s.len() > 0 {
        lemma_rec_len(s.drop_last());
        lemma_rec_map_absent(s.drop_last(), s.last().0);
    }
}

} // verus!

verus! {

/// Two record maps agree everywhere but possibly at one identifier.
pub open spec fn recs_same_elsewhere(
    a: Map<u128, SessionData>,
    b: Map<u128, SessionData>,
    id: u128,
) -> bool {
    &&& b.dom() == a.dom()
    &&& forall|j: u128| j != id && a.contains_key(j) ==> b[j] == #[trigger] a[j]
}

} // verus!

verus! {

/// Two record maps agree at every identifier but possibly the given one.
pub open spec fn recs_agree_except(
    a: Map<u128, SessionData>,
    b: Map<u128, SessionData>,
    id: u128,
) -> bool {
    forall|j: u128|
        j != id ==> #[trigger] b.contains_key(j) == a.contains_key(j) && (a.contains_key(j)
            ==> b[j] == a[j])
}

} // verus!

verus! {

/// Chains preservation of unrelated records through one more step: if every
/// record other than `id` survived from `a` to `b`, and the step from `b`
/// to `c` touched at most `cur` — which is `id` itself or was absent at the
/// start — then every record other than `id` also survived to `c`.
pub proof fn lemma_preserved_except(
    a: Map<u128, SessionData>,
    b: Map<u128, SessionData>,
    c: Map<u128, SessionData>,
    id: u128,
    cur: u128,
)
    requires
        forall|j: u128|
            j != id && #[trigger] a.contains_key(j) ==> b.contains_key(j) && b[j] == a[j],
        cur == id || !a.contains_key(cur),
        forall|j: u128|
            j != cur ==> (#[trigger] c.contains_key(j) == b.contains_key(j) && (b.contains_key(j)
                ==> c[j] == b[j])),
    ensures
        forall|j: u128|
            j != id && #[trigger] a.contains_key(j) ==> c.contains_key(j) && c[j] == a[j],
{
}

} // verus!
