//! The storage contract: the operations every persistence backend offers,
//! stated against an abstract view of the backend's live entries, plus the
//! no-op backend for purely in-memory stores.
//!
//! All operations are namespace-scoped by the key convention of
//! [`crate::ids::key`]: `"{table}:{id}"` when the namespace is non-empty,
//! else the raw id.

use vstd::prelude::*;

use crate::errors::DatabaseError;
use crate::ids::key_text;

verus! {

/// The wire shape of a persisted record: a raw encoded string, or the text
/// of a structured value as a backend with a native document type reports
/// it. The engine accepts and round-trips both.
#[derive(Debug, Clone)]
pub enum StoredAs {
    String(String),
    JsonValue(String),
}

impl StoredAs {
    /// The carried text, whichever representation it came in.
    pub open spec fn text(&self) -> Seq<char> {
        match self {
            StoredAs::String(s) => s@,
            StoredAs::JsonValue(s) => s@,
        }
    }

    pub fn as_text(&self) -> (r: &String)
        ensures
            r@ == self.text(),
    {
        match self {
            StoredAs::String(s) => s,
            StoredAs::JsonValue(s) => s,
        }
    }
}

impl Default for StoredAs {
    /// An empty raw string.
    fn default() -> (r: StoredAs)
        ensures
            r is String,
            r.text() == Seq::<char>::empty(),
    {
        StoredAs::String(String::new())
    }
}

/// Whether a full storage key belongs to a namespace: every key does under
/// the empty namespace, else exactly the keys written as `"{table}:{id}"`.
pub open spec fn in_table(k: Seq<char>, table: Seq<char>) -> bool {
    if table.len() == 0 {
        true
    } else {
        k.len() > table.len() && k.subrange(0, table.len() as int) == table && k[table.len() as int]
            == ':'
    }
}

/// The keys of a backend view that lie in a namespace.
pub open spec fn table_keys(db: Map<Seq<char>, (Seq<char>, int)>, table: Seq<char>) -> Set<
    Seq<char>,
> {
    db.dom().filter(|k: Seq<char>| in_table(k, table))
}

/// The keys of a namespace whose entries are stale at `now`.
pub open spec fn expired_keys(
    db: Map<Seq<char>, (Seq<char>, int)>,
    table: Seq<char>,
    now: int,
) -> Set<Seq<char>> {
    db.dom().filter(|k: Seq<char>| in_table(k, table) && db[k].1 < now)
}

/// Every key of the set is named by some id of the list (under the
/// namespace's key convention).
pub open spec fn ids_cover(ids: Seq<String>, table: Seq<char>, keys: Set<Seq<char>>) -> bool {
    forall|k: Seq<char>|
        keys.contains(k) ==> exists|i: int|
            0 <= i < ids.len() && key_text(#[trigger] ids[i]@, table) == k
}

/// The contract every persistence backend implements.
///
/// A backend is described by three spec functions: `db()`, its live entries
/// (full storage key to encoded payload and expiry); `persists()`, whether it
/// stores anything at all; and `auto_expiry()`, whether it enforces
/// `expires_at` natively (in which case the engine's storage sweep expects
/// nothing back from `delete_expired`). A backend that does not persist
/// behaves as an always-empty store. Every operation may fail with a
/// [`DatabaseError`]; a failed operation leaves the entries unchanged.
pub trait DatabasePool: Sized {
    /// The live persisted entries: full key to encoded payload and expiry.
    /// Unless a backend models itself more precisely, it reports none.
    open spec fn db(&self) -> Map<Seq<char>, (Seq<char>, int)> {
        Map::empty()
    }

    /// Whether this backend stores anything at all.
    open spec fn persists(&self) -> bool {
        false
    }

    /// Whether this backend expires rows natively.
    open spec fn auto_expiry(&self) -> bool {
        false
    }

    /// The view is well-formed (finitely many entries).
    open spec fn wf(&self) -> bool {
        true
    }

    /// Idempotent setup (creating a table or the like); never changes the
    /// entries.
    fn initiate(&mut self, table_name: &str) -> (r: Result<(), DatabaseError>)
        requires
            old(self).wf(),
        ensures
            final(self).wf(),
            final(self).persists() == old(self).persists(),
            final(self).auto_expiry() == old(self).auto_expiry(),
            final(self).db() == old(self).db(),
    ;

    /// How many entries the namespace holds; a backend that does not persist
    /// reports zero.
    fn count(&self, table_name: &str) -> (r: Result<i64, DatabaseError>)
        requires
            self.wf(),
        ensures
            match r {
                Ok(c) => {
                    &&& self.persists() ==> c as int == table_keys(self.db(), table_name@).len()
                    &&& !self.persists() ==> c == 0
                },
                Err(_) => true,
            },
    ;

    /// Upserts an encoded payload under the namespaced key, with its expiry.
    fn store(&mut self, id: &str, value: &str, expires: i64, table_name: &str) -> (r: Result<
        (),
        DatabaseError,
    >)
        requires
            old(self).wf(),
        ensures
            final(self).wf(),
            final(self).persists() == old(self).persists(),
            final(self).auto_expiry() == old(self).auto_expiry(),
            match r {
                Ok(_) => final(self).db() == (if old(self).persists() {
                    old(self).db().insert(
                        key_text(id@, table_name@),
                        (value@, expires as int),
                    )
                } else {
                    old(self).db()
                }),
                Err(_) => final(self).db() == old(self).db(),
            },
    ;

    /// Reads the payload under the namespaced key, if the backend holds one.
    fn load(&self, id: &str, table_name: &str) -> (r: Result<Option<StoredAs>, DatabaseError>)
        requires
            self.wf(),
        ensures
            match r {
                Ok(Some(sa)) => {
                    &&& self.persists()
                    &&& self.db().contains_key(key_text(id@, table_name@))
                    &&& sa.text() == self.db()[key_text(id@, table_name@)].0
                },
                Ok(None) => !(self.persists() && self.db().contains_key(
                    key_text(id@, table_name@),
                )),
                Err(_) => true,
            },
    ;

    /// Deletes the entry under the namespaced key; absent keys are no
    /// mistake.
    fn delete(&mut self, id: &str, table_name: &str) -> (r: Result<(), DatabaseError>)
        requires
            old(self).wf(),
        ensures
            final(self).wf(),
            final(self).persists() == old(self).persists(),
            final(self).auto_expiry() == old(self).auto_expiry(),
            match r {
                Ok(_) => final(self).db() == (if old(self).persists() {
                    old(self).db().remove(key_text(id@, table_name@))
                } else {
                    old(self).db()
                }),
                Err(_) => final(self).db() == old(self).db(),
            },
    ;

    /// Whether the namespaced key holds an entry. (Named to avoid the
    /// quantifier keyword.)
    fn id_exists(&self, id: &str, table_name: &str) -> (r: Result<bool, DatabaseError>)
        requires
            self.wf(),
        ensures
            match r {
                Ok(b) => b == (self.persists() && self.db().contains_key(
                    key_text(id@, table_name@),
                )),
                Err(_) => true,
            },
    ;

    /// Deletes every stale entry of the namespace and reports their ids. A
    /// backend that expires natively (or does not persist) has nothing to
    /// scan and reports none.
    fn delete_expired(&mut self, table_name: &str, now: i64) -> (r: Result<
        Vec<String>,
        DatabaseError,
    >)
        requires
            old(self).wf(),
        ensures
            final(self).wf(),
            final(self).persists() == old(self).persists(),
            final(self).auto_expiry() == old(self).auto_expiry(),
            r matches Ok(ids) ==> (old(self).persists() && !old(self).auto_expiry()
                ==> final(self).db() == old(self).db().remove_keys(
                expired_keys(old(self).db(), table_name@, now as int),
            )),
            r matches Ok(ids) ==> (old(self).persists() && !old(self).auto_expiry()
                ==> forall|i: int|
                0 <= i < ids@.len() ==> expired_keys(old(self).db(), table_name@, now as int)
                    .contains(key_text(#[trigger] ids@[i]@, table_name@))),
            r matches Ok(ids) ==> (old(self).persists() && !old(self).auto_expiry()
                ==> ids_cover(ids@, table_name@, expired_keys(old(self).db(), table_name@, now as int))),
            r matches Ok(ids) ==> (!(old(self).persists() && !old(self).auto_expiry())
                ==> final(self).db() == old(self).db() && ids@.len() == 0),
            r is Err ==> final(self).db() == old(self).db(),
    ;

    /// Deletes every entry of the namespace.
    fn delete_all(&mut self, table_name: &str) -> (r: Result<(), DatabaseError>)
        requires
            old(self).wf(),
        ensures
            final(self).wf(),
            final(self).persists() == old(self).persists(),
            final(self).auto_expiry() == old(self).auto_expiry(),
            match r {
                Ok(_) => final(self).db() == (if old(self).persists() {
                    old(self).db().remove_keys(table_keys(old(self).db(), table_name@))
                } else {
                    old(self).db()
                }),
                Err(_) => final(self).db() == old(self).db(),
            },
    ;

    /// The ids of every entry of the namespace.
    fn get_ids(&self, table_name: &str) -> (r: Result<Vec<String>, DatabaseError>)
        requires
            self.wf(),
        ensures
            r matches Ok(ids) ==> (self.persists() ==> forall|i: int|
                0 <= i < ids@.len() ==> table_keys(self.db(), table_name@).contains(
                    key_text(#[trigger] ids@[i]@, table_name@),
                )),
            r matches Ok(ids) ==> (self.persists() ==> ids_cover(ids@, table_name@, table_keys(self.db(), table_name@))),
            r matches Ok(ids) ==> (!self.persists() ==> ids@.len() == 0),
    ;

    /// Whether this backend enforces `expires_at` itself.
    fn auto_handles_expiry(&self) -> (r: bool)
        ensures
            r == self.auto_expiry(),
    ;
}

/// The backend for stores that persist nothing: every operation succeeds and
/// nothing is ever stored.
#[derive(Debug, Clone)]
pub struct SessionNullPool;

impl DatabasePool for SessionNullPool {
    open spec fn db(&self) -> Map<Seq<char>, (Seq<char>, int)> {
        Map::empty()
    }

    open spec fn persists(&self) -> bool {
        false
    }

    open spec fn auto_expiry(&self) -> bool {
        false
    }

    open spec fn wf(&self) -> bool {
        true
    }

    fn initiate(&mut self, table_name: &str) -> (r: Result<(), DatabaseError>)
        ensures
            r is Ok,
    {
        Ok(())
    }

    fn count(&self, table_name: &str) -> (r: Result<i64, DatabaseError>)
        ensures
            r is Ok,
    {
        Ok(0)
    }

    fn store(&mut self, id: &str, value: &str, expires: i64, table_name: &str) -> (r: Result<
        (),
        DatabaseError,
    >)
        ensures
            r is Ok,
    {
        Ok(())
    }

    fn load(&self, id: &str, table_name: &str) -> (r: Result<Option<StoredAs>, DatabaseError>)
        ensures
            r is Ok,
    {
        Ok(None)
    }

    fn delete(&mut self, id: &str, table_name: &str) -> (r: Result<(), DatabaseError>)
        ensures
            r is Ok,
    {
        Ok(())
    }

    fn id_exists(&self, id: &str, table_name: &str) -> (r: Result<bool, DatabaseError>)
        ensures
            r is Ok,
    {
        Ok(false)
    }

    fn delete_expired(&mut self, table_name: &str, now: i64) -> (r: Result<
        Vec<String>,
        DatabaseError,
    >)
        ensures
            r is Ok,
    {
        Ok(Vec::new())
    }

    fn delete_all(&mut self, table_name: &str) -> (r: Result<(), DatabaseError>)
        ensures
            r is Ok,
    {
        Ok(())
    }

    fn get_ids(&self, table_name: &str) -> (r: Result<Vec<String>, DatabaseError>)
        ensures
            r is Ok,
    {
        Ok(Vec::new())
    }

    fn auto_handles_expiry(&self) -> (r: bool) {
        false
    }
}

} // verus!

verus! {

impl From<String> for StoredAs {
    /// A raw string becomes the raw representation.
    fn from(s: String) -> (r: StoredAs) {
        StoredAs::String(s)
    }
}

impl vstd::std_specs::convert::FromSpecImpl<String> for StoredAs {
    open spec fn obeys_from_spec() -> bool {
        true
    }

    open spec fn from_spec(s: String) -> StoredAs {
        StoredAs::String(s)
    }
}

} // verus!
