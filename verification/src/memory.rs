//! An in-memory persistence backend: a reference implementation of the
//! storage contract that keeps its entries in a vector, scans for expiry
//! itself, and never fails. Useful for stores that want persistence
//! semantics without an external database, and for exercising the engine.

use vstd::prelude::*;

use crate::database::{expired_keys, ids_cover, in_table, table_keys, DatabasePool, StoredAs};
use crate::errors::DatabaseError;
use crate::ids::{key, key_text};
use crate::strmap::str_eq;

verus! {

/// The map induced by a sequence of (key, value, expiry) entries.
pub open spec fn mem_map(s: Seq<(String, String, i64)>) -> Map<Seq<char>, (Seq<char>, int)>
    decreases s.len(),
{
    if s.len() == 0 {
        Map::empty()
    } else {
        mem_map(s.drop_last()).insert(s.last().0@, (s.last().1@, s.last().2 as int))
    }
}

/// Pairwise-distinct keys.
pub open spec fn mem_unique(s: Seq<(String, String, i64)>) -> bool {
    forall|i: int, j: int| 0 <= i < j < s.len() ==> s[i].0@ != s[j].0@
}

proof fn lemma_mem_map_dom(s: Seq<(String, String, i64)>)
    ensures
        mem_map(s).dom() =~= Set::new(
            |k: Seq<char>| exists|i: int| 0 <= i < s.len() && s[i].0@ == k,
        ),
        mem_map(s).dom().finite(),
    decreases s.len(),
{
    if s.len() > 0 {
        let sd = s.drop_last();
        lemma_mem_map_dom(sd);
        let target = Set::new(|k: Seq<char>| exists|i: int| 0 <= i < s.len() && s[i].0@ == k);
        assert forall|k: Seq<char>| #[trigger] mem_map(s).dom().contains(k) implies target.contains(
            k,
        ) by {
            if k == s.last().0@ {
                assert(s[s.len() - 1].0@ == k);
            } else {
                let i = choose|i: int| 0 <= i < sd.len() && sd[i].0@ == k;
                assert(s[i].0@ == k);
            }
        }
        assert forall|k: Seq<char>| #[trigger] target.contains(k) implies mem_map(
            s,
        ).dom().contains(k) by {
            let i = choose|i: int| 0 <= i < s.len() && s[i].0@ == k;
            if i < s.len() - 1 {
                assert(sd[i].0@ == k);
            }
        }
        assert(mem_map(s).dom() =~= target);
    }
}

proof fn lemma_mem_map_index(s: Seq<(String, String, i64)>, i: int)
    requires
        0 <= i < s.len(),
        mem_unique(s),
    ensures
        mem_map(s).contains_key(s[i].0@),
        mem_map(s)[s[i].0@] == (s[i].1@, s[i].2 as int),
    decreases s.len(),
{
    if i < s.len() - 1 {
        lemma_mem_map_index(s.drop_last(), i);
    }
}

proof fn lemma_mem_map_absent(s: Seq<(String, String, i64)>, k: Seq<char>)
    requires
        forall|i: int| 0 <= i < s.len() ==> s[i].0@ != k,
    ensures
        !mem_map(s).contains_key(k),
    decreases s.len(),
{
    if s.len() > 0 {
        lemma_mem_map_absent(s.drop_last(), k);
    }
}

proof fn lemma_mem_map_update(
    pre: Seq<(String, String, i64)>,
    post: Seq<(String, String, i64)>,
    i: int,
)
    requires
        0 <= i < pre.len(),
        post.len() == pre.len(),
        post[i].0@ == pre[i].0@,
        forall|j: int| 0 <= j < pre.len() && j != i ==> post[j] == pre[j],
        mem_unique(pre),
    ensures
        mem_map(post) =~= mem_map(pre).insert(post[i].0@, (post[i].1@, post[i].2 as int)),
    decreases pre.len(),
{
    if pre.len() > 0 {
        if i == pre.len() - 1 {
            assert(pre.drop_last() =~= post.drop_last());
        } else {
            lemma_mem_map_update(pre.drop_last(), post.drop_last(), i);
        }
    }
}

proof fn lemma_mem_map_remove(
    pre: Seq<(String, String, i64)>,
    post: Seq<(String, String, i64)>,
    i: int,
)
    requires
        0 <= i < pre.len(),
        post =~= pre.subrange(0, i) + pre.subrange(i + 1, pre.len() as int),
        mem_unique(pre),
    ensures
        mem_map(post) =~= mem_map(pre).remove(pre[i].0@),
        mem_unique(post),
    decreases pre.len(),
{
    if i == pre.len() - 1 {
        assert(post =~= pre.drop_last());
        lemma_mem_map_absent(pre.drop_last(), pre[i].0@);
    } else {
        lemma_mem_map_remove(pre.drop_last(), post.drop_last(), i);
        assert(post.last() == pre.last());
        lemma_mem_map_absent(
            pre.drop_last().subrange(0, i) + pre.drop_last().subrange(i + 1, pre.len() - 1),
            pre[i].0@,
        );
    }
}

/// Whether a sweep keeps an entry: those outside the namespace always stay;
/// those inside stay unless the sweep takes everything or the entry is stale.
pub open spec fn keeps(e: (String, String, i64), table: Seq<char>, now: int, all: bool) -> bool {
    !(in_table(e.0@, table) && (all || (e.2 as int) < now))
}

/// The keys a sweep drops: namespace keys, stale ones only unless `all`.
pub open spec fn swept_out(
    db: Map<Seq<char>, (Seq<char>, int)>,
    table: Seq<char>,
    now: int,
    all: bool,
) -> Set<Seq<char>> {
    db.dom().filter(|k: Seq<char>| in_table(k, table) && (all || db[k].1 < now))
}

/// The entries a sweep keeps, in order.
pub open spec fn swept(
    s: Seq<(String, String, i64)>,
    table: Seq<char>,
    now: int,
    all: bool,
) -> Seq<(String, String, i64)>
    decreases s.len(),
{
    if s.len() == 0 {
        Seq::empty()
    } else if keeps(s.last(), table, now, all) {
        swept(s.drop_last(), table, now, all).push(s.last())
    } else {
        swept(s.drop_last(), table, now, all)
    }
}

/// The keys of the entries a sweep drops, in order.
pub open spec fn dropped_keys(
    s: Seq<(String, String, i64)>,
    table: Seq<char>,
    now: int,
    all: bool,
) -> Seq<Seq<char>>
    decreases s.len(),
{
    if s.len() == 0 {
        Seq::empty()
    } else if keeps(s.last(), table, now, all) {
        dropped_keys(s.drop_last(), table, now, all)
    } else {
        dropped_keys(s.drop_last(), table, now, all).push(s.last().0@)
    }
}

/// A sweep of the entries is exactly the removal of the swept-out keys from
/// the induced map, and the dropped keys list those keys.
proof fn lemma_swept_map(s: Seq<(String, String, i64)>, table: Seq<char>, now: int, all: bool)
    requires
        mem_unique(s),
    ensures
        mem_unique(swept(s, table, now, all)),
        mem_map(swept(s, table, now, all)) =~= mem_map(s).remove_keys(
            swept_out(mem_map(s), table, now, all),
        ),
        forall|k: Seq<char>|
            swept_out(mem_map(s), table, now, all).contains(k) <==> exists|i: int|
                0 <= i < dropped_keys(s, table, now, all).len() && #[trigger] dropped_keys(
                    s,
                    table,
                    now,
                    all,
                )[i] == k,
    decreases s.len(),
{
    if s.len() == 0 {
    } else {
        let s2 = s.drop_last();
        let e = s.last();
        let k0 = e.0@;
        lemma_swept_map(s2, table, now, all);
        lemma_mem_map_dom(s2);
        assert(!mem_map(s2).contains_key(k0));
        let db2 = mem_map(s2);
        let db = mem_map(s);
        let ex2 = swept_out(db2, table, now, all);
        let ex = swept_out(db, table, now, all);
        assert(!ex2.contains(k0));
        if keeps(e, table, now, all) {
            assert(ex =~= ex2);
            let kept2 = swept(s2, table, now, all);
            assert(swept(s, table, now, all) == kept2.push(e));
            assert(forall|i: int|
                0 <= i < kept2.len() ==> exists|j: int| 0 <= j < s2.len() && s2[j] == #[trigger]
                kept2[i]) by {
                lemma_swept_sub(s2, table, now, all);
            }
            assert(mem_unique(kept2.push(e))) by {
                lemma_swept_sub(s2, table, now, all);
            }
            assert(mem_map(kept2.push(e)).dom() =~= mem_map(kept2).dom().insert(k0)) by {
                assert(kept2.push(e).drop_last() =~= kept2);
                lemma_mem_map_dom(kept2);
            }
            assert(kept2.push(e).drop_last() =~= kept2);
            assert(mem_map(swept(s, table, now, all)) =~= db.remove_keys(ex));
        } else {
            assert(ex =~= ex2.insert(k0));
            assert(swept(s, table, now, all) == swept(s2, table, now, all));
            assert(mem_map(swept(s, table, now, all)) =~= db.remove_keys(ex));
            assert(dropped_keys(s, table, now, all) == dropped_keys(s2, table, now, all).push(
                k0,
            ));
        }
        assert(forall|k: Seq<char>|
            ex.contains(k) <==> exists|i: int|
                0 <= i < dropped_keys(s, table, now, all).len() && #[trigger] dropped_keys(
                    s,
                    table,
                    now,
                    all,
                )[i] == k) by {
            let dk2 = dropped_keys(s2, table, now, all);
            let dk = dropped_keys(s, table, now, all);
            if keeps(e, table, now, all) {
                assert(dk == dk2);
            } else {
                assert(dk == dk2.push(k0));
                assert(forall|i: int| 0 <= i < dk2.len() ==> dk[i] == dk2[i]);
                assert(dk[dk.len() - 1] == k0);
            }
        }
    }
}

/// Every kept entry is one of the original entries.
proof fn lemma_swept_sub(s: Seq<(String, String, i64)>, table: Seq<char>, now: int, all: bool)
    requires
        mem_unique(s),
    ensures
        mem_unique(swept(s, table, now, all)),
        forall|i: int|
            0 <= i < swept(s, table, now, all).len() ==> exists|j: int|
                0 <= j < s.len() && s[j] == #[trigger] swept(s, table, now, all)[i],
    decreases s.len(),
{
    if s.len() > 0 {
        let s2 = s.drop_last();
        lemma_swept_sub(s2, table, now, all);
        assert(forall|j: int| 0 <= j < s2.len() ==> s2[j] == s[j]);
        if keeps(s.last(), table, now, all) {
            let kept2 = swept(s2, table, now, all);
            let kept = swept(s, table, now, all);
            assert(kept == kept2.push(s.last()));
            assert(forall|i: int| 0 <= i < kept2.len() ==> kept[i] == kept2[i]);
            assert(kept[kept.len() - 1] == s.last());
            assert(mem_unique(kept)) by {
                assert(forall|i: int|
                    0 <= i < kept2.len() ==> exists|j: int|
                        0 <= j < s2.len() && s2[j] == #[trigger] kept2[i]);
            }
        }
    }
}

} // verus!

verus! {

/// Whether a full key lies in a namespace, checked character by character.
fn key_in_table(k: &str, table: &str) -> (r: bool)
    ensures
        r == in_table(k@, table@),
{
    let tlen = table.unicode_len();
    if tlen == 0 {
        return true;
    }
    let klen = k.unicode_len();
    if klen <= tlen {
        return false;
    }
    let mut i: usize = 0;
    while i < tlen
        invariant
            0 <= i <= tlen,
            tlen == table@.len(),
            klen == k@.len(),
            klen > tlen,
            forall|j: int| 0 <= j < i ==> k@[j] == table@[j],
        decreases tlen - i,
    {
        if k.get_char(i) != table.get_char(i) {
            proof {
                assert(k@.subrange(0, tlen as int)[i as int] != table@[i as int]);
            }
            return false;
        }
        i += 1;
    }
    proof {
        assert(k@.subrange(0, tlen as int) =~= table@);
    }
    k.get_char(tlen) == ':'
}

/// The id under a namespaced key: the part after the namespace prefix.
fn strip_table(k: &str, table: &str) -> (r: String)
    requires
        in_table(k@, table@),
    ensures
        key_text(r@, table@) == k@,
{
    let tlen = table.unicode_len();
    if tlen == 0 {
        k.to_owned()
    } else {
        let klen = k.unicode_len();
        let rest = k.substring_char(tlen + 1, klen).to_owned();
        proof {
            assert(key_text(rest@, table@) =~= k@);
        }
        rest
    }
}

/// How many of the entries lie in a namespace.
pub open spec fn table_count_seq(s: Seq<(String, String, i64)>, table: Seq<char>) -> int
    decreases s.len(),
{
    if s.len() == 0 {
        0
    } else {
        table_count_seq(s.drop_last(), table) + (if in_table(s.last().0@, table) {
            1int
        } else {
            0int
        })
    }
}

proof fn lemma_table_count(s: Seq<(String, String, i64)>, table: Seq<char>)
    requires
        mem_unique(s),
    ensures
        table_keys(mem_map(s), table).finite(),
        table_keys(mem_map(s), table).len() == table_count_seq(s, table),
        table_count_seq(s, table) >= 0,
    decreases s.len(),
{
    if s.len() == 0 {
        assert(table_keys(mem_map(s), table) =~= Set::<Seq<char>>::empty());
    } else {
        let s2 = s.drop_last();
        let k0 = s.last().0@;
        lemma_table_count(s2, table);
        lemma_mem_map_dom(s2);
        assert(!mem_map(s2).contains_key(k0));
        if in_table(k0, table) {
            assert(table_keys(mem_map(s), table) =~= table_keys(mem_map(s2), table).insert(k0));
            assert(!table_keys(mem_map(s2), table).contains(k0));
        } else {
            assert(table_keys(mem_map(s), table) =~= table_keys(mem_map(s2), table));
        }
    }
}

/// The in-memory backend: entries in a vector, scanned by hand.
#[derive(Debug)]
pub struct SessionMemoryPool {
    entries: Vec<(String, String, i64)>,
}

impl SessionMemoryPool {
    /// An empty backend.
    pub fn new() -> (r: SessionMemoryPool)
        ensures
            r.wf(),
            r.db() == Map::<Seq<char>, (Seq<char>, int)>::empty(),
    {
        SessionMemoryPool { entries: Vec::new() }
    }

    fn position(&self, k: &str) -> (r: Option<usize>)
        ensures
            match r {
                Some(i) => i < self.entries@.len() && self.entries@[i as int].0@ == k@,
                None => forall|i: int| 0 <= i < self.entries@.len() ==> self.entries@[i].0@ != k@,
            },
    {
        let n = self.entries.len();
        let mut i: usize = 0;
        while i < n
            invariant
                0 <= i <= n,
                n == self.entries@.len(),
                forall|j: int| 0 <= j < i ==> self.entries@[j].0@ != k@,
            decreases n - i,
        {
            if str_eq(self.entries[i].0.as_str(), k) {
                return Some(i);
            }
            i += 1;
        }
        None
    }
}

impl DatabasePool for SessionMemoryPool {
    closed spec fn db(&self) -> Map<Seq<char>, (Seq<char>, int)> {
        mem_map(self.entries@)
    }

    open spec fn persists(&self) -> bool {
        true
    }

    open spec fn auto_expiry(&self) -> bool {
        false
    }

    closed spec fn wf(&self) -> bool {
        mem_unique(self.entries@)
    }

    fn initiate(&mut self, table_name: &str) -> (r: Result<(), DatabaseError>)
        ensures
            r is Ok,
    {
        Ok(())
    }

    fn count(&self, table_name: &str) -> (r: Result<i64, DatabaseError>) {
        let ghost s0 = self.entries@;
        let n = self.entries.len();
        let mut c: i64 = 0;
        let mut i: usize = 0;
        while i < n
            invariant
                0 <= i <= n,
                n == s0.len(),
                self.entries@ == s0,
                0 <= c,
                c as int == table_count_seq(s0.take(i as int), table_name@),
            decreases n - i,
        {
            let matches_table = key_in_table(self.entries[i].0.as_str(), table_name);
            proof {
                assert(s0.take(i + 1).drop_last() =~= s0.take(i as int));
                assert(s0.take(i + 1).last() == s0[i as int]);
            }
            if matches_table {
                c = match c.checked_add(1) {
                    Some(v) => v,
                    None => {
                        return Err(
                            DatabaseError::GenericSelectError(String::from_str("count overflow")),
                        );
                    },
                };
            }
            i += 1;
        }
        proof {
            assert(s0.take(n as int) =~= s0);
            lemma_table_count(s0, table_name@);
        }
        Ok(c)
    }

    fn store(&mut self, id: &str, value: &str, expires: i64, table_name: &str) -> (r: Result<
        (),
        DatabaseError,
    >)
        ensures
            r is Ok,
    {
        let full = key(id, table_name);
        let ghost pre = self.entries@;
        match self.position(full.as_str()) {
            Some(i) => {
                let slot = vstd::std_specs::vec::vec_index_mut(&mut self.entries, i);
                *slot = (full, value.to_owned(), expires);
                proof {
                    lemma_mem_map_update(pre, self.entries@, i as int);
                    assert(self.db() =~= old(self).db().insert(
                        key_text(id@, table_name@),
                        (value@, expires as int),
                    ));
                }
            },
            None => {
                self.entries.push((full, value.to_owned(), expires));
                proof {
                    lemma_mem_map_absent(pre, key_text(id@, table_name@));
                    assert(self.entries@.drop_last() =~= pre);
                    assert(self.db() =~= old(self).db().insert(
                        key_text(id@, table_name@),
                        (value@, expires as int),
                    ));
                }
            },
        }
        Ok(())
    }

    fn load(&self, id: &str, table_name: &str) -> (r: Result<Option<StoredAs>, DatabaseError>)
        ensures
            r is Ok,
    {
        let full = key(id, table_name);
        match self.position(full.as_str()) {
            Some(i) => {
                proof {
                    lemma_mem_map_index(self.entries@, i as int);
                }
                Ok(Some(StoredAs::String(self.entries[i].1.clone())))
            },
            None => {
                proof {
                    lemma_mem_map_absent(self.entries@, key_text(id@, table_name@));
                }
                Ok(None)
            },
        }
    }

    fn delete(&mut self, id: &str, table_name: &str) -> (r: Result<(), DatabaseError>)
        ensures
            r is Ok,
    {
        let full = key(id, table_name);
        let ghost pre = self.entries@;
        match self.position(full.as_str()) {
            Some(i) => {
                let _ = self.entries.remove(i);
                proof {
                    lemma_mem_map_remove(pre, self.entries@, i as int);
                    assert(self.db() =~= old(self).db().remove(key_text(id@, table_name@)));
                }
            },
            None => {
                proof {
                    lemma_mem_map_absent(pre, key_text(id@, table_name@));
                    assert(self.db() =~= old(self).db().remove(key_text(id@, table_name@)));
                }
            },
        }
        Ok(())
    }

    fn id_exists(&self, id: &str, table_name: &str) -> (r: Result<bool, DatabaseError>)
        ensures
            r is Ok,
    {
        let full = key(id, table_name);
        match self.position(full.as_str()) {
            Some(i) => {
                proof {
                    lemma_mem_map_index(self.entries@, i as int);
                }
                Ok(true)
            },
            None => {
                proof {
                    lemma_mem_map_absent(self.entries@, key_text(id@, table_name@));
                }
                Ok(false)
            },
        }
    }

    #[verifier::rlimit(100)]
    #[verifier::spinoff_prover]
    fn delete_expired(&mut self, table_name: &str, now: i64) -> (r: Result<
        Vec<String>,
        DatabaseError,
    >)
        ensures
            r is Ok,
    {
        let ghost s0 = self.entries@;
        let mut kept: Vec<(String, String, i64)> = Vec::new();
        let mut ids: Vec<String> = Vec::new();
        let ghost mut done: int = 0;
        proof {
            assert(self.entries@ =~= s0.subrange(0, s0.len() as int));
            assert(kept@ =~= swept(s0.take(0), table_name@, now as int, false));
        }
        while self.entries.len() > 0
            invariant
                0 <= done <= s0.len(),
                self.entries@ == s0.subrange(done, s0.len() as int),
                kept@ == swept(s0.take(done), table_name@, now as int, false),
                ids@.len() == dropped_keys(s0.take(done), table_name@, now as int, false).len(),
                forall|t: int|
                    0 <= t < ids@.len() ==> key_text(#[trigger] ids@[t]@, table_name@)
                        == dropped_keys(s0.take(done), table_name@, now as int, false)[t],
            decreases self.entries@.len(),
        {
            let e = self.entries.remove(0);
            proof {
                assert(e == s0[done]);
                assert(self.entries@ =~= s0.subrange(done + 1, s0.len() as int));
                assert(s0.take(done + 1).drop_last() =~= s0.take(done));
                assert(s0.take(done + 1).last() == s0[done]);
            }
            let in_t = key_in_table(e.0.as_str(), table_name);
            if in_t && e.2 < now {
                let stripped = strip_table(e.0.as_str(), table_name);
                ids.push(stripped);
            } else {
                kept.push(e);
            }
            proof {
                done = done + 1;
            }
        }
        proof {
            assert(s0.take(s0.len() as int) =~= s0);
        }
        self.entries = kept;
        proof {
            lemma_swept_map(s0, table_name@, now as int, false);
            assert(swept_out(mem_map(s0), table_name@, now as int, false) =~= expired_keys(
                mem_map(s0),
                table_name@,
                now as int,
            ));
            let dropped = dropped_keys(s0, table_name@, now as int, false);
            let exk = expired_keys(mem_map(s0), table_name@, now as int);
            assert forall|t: int| 0 <= t < ids@.len() implies exk.contains(
                key_text(#[trigger] ids@[t]@, table_name@),
            ) by {
                assert(dropped[t] == key_text(ids@[t]@, table_name@));
            }
            assert(ids_cover(ids@, table_name@, exk)) by {
                assert forall|k: Seq<char>| exk.contains(k) implies exists|i: int|
                    0 <= i < ids@.len() && key_text(#[trigger] ids@[i]@, table_name@) == k by {
                    let i = choose|i: int| 0 <= i < dropped.len() && dropped[i] == k;
                    assert(key_text(ids@[i]@, table_name@) == k);
                }
            }
        }
        Ok(ids)
    }

    fn delete_all(&mut self, table_name: &str) -> (r: Result<(), DatabaseError>)
        ensures
            r is Ok,
    {
        let ghost s0 = self.entries@;
        let mut kept: Vec<(String, String, i64)> = Vec::new();
        let ghost mut done: int = 0;
        proof {
            assert(self.entries@ =~= s0.subrange(0, s0.len() as int));
            assert(kept@ =~= swept(s0.take(0), table_name@, 0, true));
        }
        while self.entries.len() > 0
            invariant
                0 <= done <= s0.len(),
                self.entries@ == s0.subrange(done, s0.len() as int),
                kept@ == swept(s0.take(done), table_name@, 0, true),
            decreases self.entries@.len(),
        {
            let e = self.entries.remove(0);
            proof {
                assert(e == s0[done]);
                assert(self.entries@ =~= s0.subrange(done + 1, s0.len() as int));
                assert(s0.take(done + 1).drop_last() =~= s0.take(done));
                assert(s0.take(done + 1).last() == s0[done]);
            }
            let in_t = key_in_table(e.0.as_str(), table_name);
            if !in_t {
                kept.push(e);
            }
            proof {
                done = done + 1;
            }
        }
        proof {
            assert(s0.take(s0.len() as int) =~= s0);
        }
        self.entries = kept;
        proof {
            lemma_swept_map(s0, table_name@, 0, true);
            assert(swept_out(mem_map(s0), table_name@, 0, true) =~= table_keys(
                mem_map(s0),
                table_name@,
            ));
        }
        Ok(())
    }

    #[verifier::rlimit(100)]
    #[verifier::spinoff_prover]
    fn get_ids(&self, table_name: &str) -> (r: Result<Vec<String>, DatabaseError>)
        ensures
            r is Ok,
    {
        let ghost s0 = self.entries@;
        let n = self.entries.len();
        let mut ids: Vec<String> = Vec::new();
        let mut i: usize = 0;
        while i < n
            invariant
                0 <= i <= n,
                n == s0.len(),
                self.entries@ == s0,
                ids@.len() == dropped_keys(s0.take(i as int), table_name@, 0, true).len(),
                forall|t: int|
                    0 <= t < ids@.len() ==> key_text(#[trigger] ids@[t]@, table_name@)
                        == dropped_keys(s0.take(i as int), table_name@, 0, true)[t],
            decreases n - i,
        {
            proof {
                assert(s0.take(i + 1).drop_last() =~= s0.take(i as int));
                assert(s0.take(i + 1).last() == s0[i as int]);
            }
            let in_t = key_in_table(self.entries[i].0.as_str(), table_name);
            if in_t {
                let stripped = strip_table(self.entries[i].0.as_str(), table_name);
                ids.push(stripped);
            }
            i += 1;
        }
        proof {
            assert(s0.take(n as int) =~= s0);
            lemma_swept_map(s0, table_name@, 0, true);
            assert(swept_out(mem_map(s0), table_name@, 0, true) =~= table_keys(
                mem_map(s0),
                table_name@,
            ));
            let dropped = dropped_keys(s0, table_name@, 0, true);
            let tks = table_keys(mem_map(s0), table_name@);
            assert forall|t: int| 0 <= t < ids@.len() implies tks.contains(
                key_text(#[trigger] ids@[t]@, table_name@),
            ) by {
                assert(dropped[t] == key_text(ids@[t]@, table_name@));
            }
            assert(ids_cover(ids@, table_name@, tks)) by {
                assert forall|k: Seq<char>| tks.contains(k) implies exists|i: int|
                    0 <= i < ids@.len() && key_text(#[trigger] ids@[i]@, table_name@) == k by {
                    let i = choose|i: int| 0 <= i < dropped.len() && dropped[i] == k;
                    assert(key_text(ids@[i]@, table_name@) == k);
                }
            }
        }
        Ok(ids)
    }

    fn auto_handles_expiry(&self) -> (r: bool) {
        false
    }
}

} // verus!
