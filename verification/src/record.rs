//! The per-session record: payload plus the flags and deadlines that drive
//! persistence and eviction.

use vstd::prelude::*;

use crate::config::{sat_add, ts_add, SessionConfig};
use crate::strmap::StrMap;

verus! {

/// One session's mutable state.
///
/// Flag semantics at flush time: `destroy` dominates everything (a record
/// marked destroyed is deleted, never written); `update` marks a dirty
/// payload; `renew` requests an identifier rotation; `store` says whether an
/// opt-in/manual policy may persist the record at all. `requests` counts the
/// requests currently attached to this identifier; a record with
/// `requests >= 1` is never evicted from memory.
pub struct SessionData {
    /// The current session identifier; changed only by rotation.
    pub id: u128,
    /// The payload: string key to string-encoded value.
    pub data: StrMap,
    /// When the persisted copy becomes stale (Unix seconds).
    pub expires_at: i64,
    /// When the in-memory copy may be evicted (Unix seconds).
    pub autoremove_at: i64,
    /// Sticky destruction flag.
    pub destroy: bool,
    /// Rotation request flag, cleared when rotation completes.
    pub renew: bool,
    /// Whether the extended persisted lifespan applies.
    pub longterm: bool,
    /// Whether an opt-in/manual policy may persist this record.
    pub store: bool,
    /// Dirty flag: the payload must be flushed.
    pub update: bool,
    /// How many requests currently hold this identifier.
    pub requests: usize,
}

impl SessionData {
    /// The payload is a well-formed map.
    pub open spec fn wf(&self) -> bool {
        self.data.wf()
    }

    /// A fresh record: empty payload, dirty (so that the first flush writes
    /// it), lifespans taken from the configuration.
    pub fn new(id: u128, storable: bool, now: i64, config: &SessionConfig) -> (r: SessionData)
        ensures
            r.wf(),
            r.id == id,
            r.data@ == Map::<Seq<char>, Seq<char>>::empty(),
            r.expires_at == sat_add(now as int, config.lifespan as int),
            r.autoremove_at == sat_add(now as int, config.memory_lifespan as int),
            !r.destroy,
            !r.renew,
            !r.longterm,
            r.store == storable,
            r.update,
            r.requests == 0,
    {
        SessionData {
            id,
            data: StrMap::new(),
            expires_at: ts_add(now, config.lifespan),
            autoremove_at: ts_add(now, config.memory_lifespan),
            destroy: false,
            renew: false,
            longterm: false,
            store: storable,
            update: true,
            requests: 0,
        }
    }

    /// Gives the record a new identifier; the record becomes dirty.
    pub fn set_id(&mut self, new_id: u128)
        ensures
            *final(self) == (SessionData { id: new_id, update: true, ..*old(self) }),
    {
        self.id = new_id;
        self.update = true;
    }

    /// Validates the record between requests: when `clear_check` is set and
    /// the memory deadline has passed, the record becomes dirty and, if the
    /// persisted copy is stale too, the payload is dropped. The memory
    /// deadline is pushed out regardless.
    pub fn service_clear(&mut self, now: i64, memory_lifespan: i64, clear_check: bool)
        requires
            old(self).wf(),
        ensures
            final(self).wf(),
            final(self).autoremove_at == sat_add(now as int, memory_lifespan as int),
            ({
                let stale = clear_check && old(self).autoremove_at < now;
                let gone = stale && old(self).expires_at < now;
                final(self).update == (old(self).update || stale)
                    && final(self).data@ == (if gone {
                        Map::<Seq<char>, Seq<char>>::empty()
                    } else {
                        old(self).data@
                    })
            }),
            final(self).id == old(self).id,
            final(self).expires_at == old(self).expires_at,
            final(self).destroy == old(self).destroy,
            final(self).renew == old(self).renew,
            final(self).longterm == old(self).longterm,
            final(self).store == old(self).store,
            final(self).requests == old(self).requests,
    {
        if clear_check && self.autoremove_at < now {
            self.update = true;
            if self.expires_at < now {
                self.data.clear();
            }
        }
        self.autoremove_at = ts_add(now, memory_lifespan);
    }

    /// Requests identifier rotation; the record becomes dirty.
    pub fn renew(&mut self)
        ensures
            *final(self) == (SessionData { renew: true, update: true, ..*old(self) }),
    {
        self.renew = true;
        self.update = true;
    }

    /// Withdraws a rotation request; the record stays dirty.
    pub fn prevent_renew(&mut self)
        ensures
            *final(self) == (SessionData { renew: false, update: true, ..*old(self) }),
    {
        self.renew = false;
        self.update = true;
    }

    pub fn will_renew(&self) -> (r: bool)
        ensures
            r == self.renew,
    {
        self.renew
    }

    /// Marks the record dirty so the next flush writes it.
    pub fn update(&mut self)
        ensures
            *final(self) == (SessionData { update: true, ..*old(self) }),
    {
        self.update = true;
    }

    /// Clears the dirty flag (after a flush attempt).
    pub fn prevent_update(&mut self)
        ensures
            *final(self) == (SessionData { update: false, ..*old(self) }),
    {
        self.update = false;
    }

    pub fn will_update(&self) -> (r: bool)
        ensures
            r == self.update,
    {
        self.update
    }

    /// Marks the record for destruction; the flag is sticky.
    pub fn destroy(&mut self)
        ensures
            *final(self) == (SessionData { destroy: true, ..*old(self) }),
    {
        self.destroy = true;
    }

    pub fn will_destroy(&self) -> (r: bool)
        ensures
            r == self.destroy,
    {
        self.destroy
    }

    /// Switches between the default and the extended persisted lifespan; the
    /// record becomes dirty.
    pub fn set_longterm(&mut self, longterm: bool)
        ensures
            *final(self) == (SessionData { longterm, update: true, ..*old(self) }),
    {
        self.longterm = longterm;
        self.update = true;
    }

    pub fn is_longterm(&self) -> (r: bool)
        ensures
            r == self.longterm,
    {
        self.longterm
    }

    pub fn expires_at(&self) -> (r: i64)
        ensures
            r == self.expires_at,
    {
        self.expires_at
    }

    /// Whether the persisted copy is stale at `now`.
    pub fn is_expired(&self, now: i64) -> (r: bool)
        ensures
            r == (self.expires_at < now),
    {
        self.expires_at < now
    }

    /// Moves the persisted deadline; the record becomes dirty.
    pub fn set_expiration(&mut self, expires_at: i64)
        ensures
            *final(self) == (SessionData { expires_at, update: true, ..*old(self) }),
    {
        self.expires_at = expires_at;
        self.update = true;
    }

    pub fn autoremove_at(&self) -> (r: i64)
        ensures
            r == self.autoremove_at,
    {
        self.autoremove_at
    }

    /// Moves the in-memory deadline; the record becomes dirty.
    pub fn set_autoremove(&mut self, autoremove_at: i64)
        ensures
            *final(self) == (SessionData { autoremove_at, update: true, ..*old(self) }),
    {
        self.autoremove_at = autoremove_at;
        self.update = true;
    }

    /// Whether the memory sweep may evict this record at `time`, leaving the
    /// reference count aside.
    pub fn will_autoremove(&self, time: i64) -> (r: bool)
        ensures
            r == (self.autoremove_at < time),
    {
        self.autoremove_at < time
    }

    /// Allows or forbids persisting under an opt-in/manual policy; the record
    /// becomes dirty.
    pub fn set_storable(&mut self, can_store: bool)
        ensures
            *final(self) == (SessionData { store: can_store, update: true, ..*old(self) }),
    {
        self.store = can_store;
        self.update = true;
    }

    pub fn is_storable(&self) -> (r: bool)
        ensures
            r == self.store,
    {
        self.store
    }

    /// Reads a payload value; no mutation.
    pub fn get(&self, key: &str) -> (r: Option<&String>)
        requires
            self.wf(),
        ensures
            match r {
                Some(v) => self.data@.contains_key(key@) && v@ == self.data@[key@],
                None => !self.data@.contains_key(key@),
            },
    {
        self.data.get(key)
    }

    /// Removes a payload key, returning its value. The record becomes dirty
    /// only when the key was present: removing an absent key changes
    /// nothing.
    pub fn get_remove(&mut self, key: &str) -> (r: Option<String>)
        requires
            old(self).wf(),
        ensures
            final(self).wf(),
            final(self).data@ == old(self).data@.remove(key@),
            final(self).update == (old(self).update || old(self).data@.contains_key(key@)),
            match r {
                Some(v) => old(self).data@.contains_key(key@) && v@ == old(self).data@[key@],
                None => !old(self).data@.contains_key(key@),
            },
            final(self).id == old(self).id,
            final(self).expires_at == old(self).expires_at,
            final(self).autoremove_at == old(self).autoremove_at,
            final(self).destroy == old(self).destroy,
            final(self).renew == old(self).renew,
            final(self).longterm == old(self).longterm,
            final(self).store == old(self).store,
            final(self).requests == old(self).requests,
    {
        let r = self.data.remove(key);
        if r.is_some() {
            self.update = true;
        }
        r
    }

    /// Writes a payload value; the record becomes dirty.
    pub fn set(&mut self, key: String, value: String)
        requires
            old(self).wf(),
        ensures
            final(self).wf(),
            final(self).data@ == old(self).data@.insert(key@, value@),
            final(self).update,
            final(self).id == old(self).id,
            final(self).expires_at == old(self).expires_at,
            final(self).autoremove_at == old(self).autoremove_at,
            final(self).destroy == old(self).destroy,
            final(self).renew == old(self).renew,
            final(self).longterm == old(self).longterm,
            final(self).store == old(self).store,
            final(self).requests == old(self).requests,
    {
        self.data.insert(key, value);
        self.update = true;
    }

    /// Removes a payload key; the record becomes dirty even when the key was
    /// absent.
    pub fn remove(&mut self, key: &str)
        requires
            old(self).wf(),
        ensures
            final(self).wf(),
            final(self).data@ == old(self).data@.remove(key@),
            final(self).update,
            final(self).id == old(self).id,
            final(self).expires_at == old(self).expires_at,
            final(self).autoremove_at == old(self).autoremove_at,
            final(self).destroy == old(self).destroy,
            final(self).renew == old(self).renew,
            final(self).longterm == old(self).longterm,
            final(self).store == old(self).store,
            final(self).requests == old(self).requests,
    {
        let _ = self.data.remove(key);
        self.update = true;
    }

    /// Drops the whole payload; the record becomes dirty.
    pub fn clear(&mut self)
        requires
            old(self).wf(),
        ensures
            final(self).wf(),
            final(self).data@ == Map::<Seq<char>, Seq<char>>::empty(),
            final(self).update,
            final(self).id == old(self).id,
            final(self).expires_at == old(self).expires_at,
            final(self).autoremove_at == old(self).autoremove_at,
            final(self).destroy == old(self).destroy,
            final(self).renew == old(self).renew,
            final(self).longterm == old(self).longterm,
            final(self).store == old(self).store,
            final(self).requests == old(self).requests,
    {
        self.data.clear();
        self.update = true;
    }

    /// Attaches one more request to this identifier; the count saturates.
    pub fn add_request(&mut self)
        ensures
            final(self).requests == (if old(self).requests == usize::MAX {
                usize::MAX as int
            } else {
                old(self).requests + 1
            }),
            *final(self) == (SessionData { requests: final(self).requests, ..*old(self) }),
    {
        self.requests = self.requests.saturating_add(1);
    }

    /// Detaches one request from this identifier; the count stops at zero.
    pub fn remove_request(&mut self)
        ensures
            final(self).requests == (if old(self).requests == 0 {
                0
            } else {
                old(self).requests - 1
            }),
            *final(self) == (SessionData { requests: final(self).requests, ..*old(self) }),
    {
        self.requests = self.requests.saturating_sub(1);
    }

    /// Resets the count to exactly one attached request.
    pub fn reset_requests(&mut self)
        ensures
            *final(self) == (SessionData { requests: 1, ..*old(self) }),
    {
        self.requests = 1;
    }

    /// Whether any request currently holds this identifier.
    pub fn is_parallel(&self) -> (r: bool)
        ensures
            r == (self.requests >= 1),
    {
        self.requests >= 1
    }

    /// Copies the entries of `data` into the payload, replacing shared keys;
    /// the flags are untouched.
    pub fn merge(&mut self, data: &StrMap)
        requires
            old(self).wf(),
            data.wf(),
        ensures
            final(self).wf(),
            final(self).data@ == old(self).data@.union_prefer_right(data@),
            *final(self) == (SessionData { data: final(self).data, ..*old(self) }),
    {
        self.data.merge(data);
    }
}

impl Default for SessionData {
    /// An inert placeholder: empty payload, zero deadlines, marked destroyed
    /// so that flushing it never writes.
    fn default() -> (r: SessionData)
        ensures
            r.wf(),
            r.id == 0,
            r.data@ == Map::<Seq<char>, Seq<char>>::empty(),
            r.expires_at == 0,
            r.autoremove_at == 0,
            r.destroy,
            !r.renew,
            !r.longterm,
            !r.store,
            !r.update,
            r.requests == 0,
    {
        SessionData {
            id: 0,
            data: StrMap::new(),
            expires_at: 0,
            autoremove_at: 0,
            destroy: true,
            renew: false,
            longterm: false,
            store: false,
            update: false,
            requests: 0,
        }
    }
}

} // verus!

verus! {

/// Everything but the payload and the dirty flag agrees.
pub open spec fn same_core(a: SessionData, b: SessionData) -> bool {
    &&& b.id == a.id
    &&& b.expires_at == a.expires_at
    &&& b.autoremove_at == a.autoremove_at
    &&& b.destroy == a.destroy
    &&& b.renew == a.renew
    &&& b.longterm == a.longterm
    &&& b.store == a.store
    &&& b.requests == a.requests
}

} // verus!
