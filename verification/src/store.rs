//! The session store: the orchestrator owning the record map, the membership
//! filter, the sweep timers, and the optional storage backend. Every session
//! operation goes through it.

use vstd::prelude::*;

use crate::codec::{dec_record, decode_record, enc_record, encode_record, is_valid_json, json_valid};
use crate::config::{sat_add, ts_add, SessionConfig, SessionMode};
use crate::crypt::{opens_to, seal, unseal};
use crate::database::{expired_keys, table_keys, DatabasePool, StoredAs};
use crate::errors::SessionError;
use crate::filter::MemberFilter;
use crate::ids::{id_chars, id_text, key_text, random_u128, SessionID};
use crate::record::{same_core, SessionData};
use crate::recordmap::{lemma_preserved_except, recs_agree_except, recs_same_elsewhere, sweep_victims, RecordMap};
use crate::strmap::pairs_map;

verus! {

/// How many fresh identifiers the generator draws before giving up. With
/// random 128-bit identifiers a single retry is already vanishingly
/// unlikely; the bound only turns a pathological environment into an error
/// instead of a loop.
pub const MAX_ID_ATTEMPTS: usize = 64;

/// The two sweep watermarks: the next instants at which a memory sweep and a
/// storage sweep are permitted.
pub struct SessionTimers {
    pub next_memory_sweep: i64,
    pub next_storage_sweep: i64,
}

/// The session store.
///
/// It owns the in-memory record map, the membership filter, the sweep
/// timers, the configuration, the optional encryption key, and the optional
/// storage backend (absence means a purely in-memory store).
pub struct SessionStore<T: DatabasePool> {
    client: Option<T>,
    records: RecordMap,
    filter: MemberFilter,
    timers: SessionTimers,
    config: SessionConfig,
    crypto_key: Option<Vec<u8>>,
}

impl<T: DatabasePool> SessionStore<T> {
    /// The in-memory records.
    pub closed spec fn recs(&self) -> Map<u128, SessionData> {
        self.records@
    }

    /// The persisted entries, empty without a backend.
    pub closed spec fn db(&self) -> Map<Seq<char>, (Seq<char>, int)> {
        match self.client {
            Some(c) => c.db(),
            None => Map::empty(),
        }
    }

    /// Whether a backend is attached at all.
    pub closed spec fn has_client(&self) -> bool {
        self.client is Some
    }

    /// Whether the attached backend stores anything.
    pub closed spec fn persists(&self) -> bool {
        match self.client {
            Some(c) => c.persists(),
            None => false,
        }
    }

    /// Whether the attached backend expires rows natively.
    pub closed spec fn auto_expiry(&self) -> bool {
        match self.client {
            Some(c) => c.auto_expiry(),
            None => false,
        }
    }

    /// The namespace this store persists under.
    pub open spec fn table(&self) -> Seq<char> {
        self.cfg().table_name@
    }

    /// The configuration.
    pub closed spec fn cfg(&self) -> SessionConfig {
        self.config
    }

    /// The sweep watermarks.
    pub closed spec fn next_memory_sweep(&self) -> int {
        self.timers.next_memory_sweep as int
    }

    pub closed spec fn next_storage_sweep(&self) -> int {
        self.timers.next_storage_sweep as int
    }

    /// Whether payloads are persisted unencrypted.
    pub closed spec fn plain(&self) -> bool {
        self.crypto_key is None
    }

    /// The configured encryption key bytes, if any.
    pub closed spec fn crypto(&self) -> Option<Vec<u8>> {
        self.crypto_key
    }

    pub closed spec fn wf(&self) -> bool {
        &&& self.records.wf()
        &&& match self.client {
            Some(c) => c.wf() && (!c.persists() ==> c.db() == Map::<
                Seq<char>,
                (Seq<char>, int),
            >::empty()),
            None => true,
        }
    }

    /// The store's identity: backend shape, configuration and key never
    /// change after construction.
    pub open spec fn same_setup(&self, b: &Self) -> bool {
        &&& b.has_client() == self.has_client()
        &&& b.persists() == self.persists()
        &&& b.auto_expiry() == self.auto_expiry()
        &&& b.cfg() == self.cfg()
        &&& b.crypto() == self.crypto()
    }

    /// Nothing changed but possibly the record map.
    pub open spec fn untouched_but_records(&self, b: &Self) -> bool {
        &&& self.same_setup(b)
        &&& b.db() == self.db()
        &&& b.next_memory_sweep() == self.next_memory_sweep()
        &&& b.next_storage_sweep() == self.next_storage_sweep()
    }

    /// A new store around an optional backend. Sweeps are permitted from
    /// `now` on.
    pub fn new(
        client: Option<T>,
        config: SessionConfig,
        crypto_key: Option<Vec<u8>>,
        now: i64,
    ) -> (r: SessionStore<T>)
        requires
            match client {
                Some(c) => c.wf() && (!c.persists() ==> c.db() == Map::<
                    Seq<char>,
                    (Seq<char>, int),
                >::empty()),
                None => true,
            },
        ensures
            r.wf(),
            r.recs() == Map::<u128, SessionData>::empty(),
            r.has_client() == (client is Some),
            r.db() == (match client {
                Some(c) => c.db(),
                None => Map::<Seq<char>, (Seq<char>, int)>::empty(),
            }),
            r.cfg() == config,
            r.next_memory_sweep() == now as int,
            r.next_storage_sweep() == now as int,
            r.plain() == (crypto_key is None),
    {
        SessionStore {
            client,
            records: RecordMap::new(),
            filter: MemberFilter::new(),
            timers: SessionTimers { next_memory_sweep: now, next_storage_sweep: now },
            config,
            crypto_key,
        }
    }

    /// Runs the backend's idempotent setup. The entries are never changed,
    /// so running it again changes nothing either.
    pub fn initiate(&mut self) -> (r: Result<(), SessionError>)
        requires
            old(self).wf(),
        ensures
            final(self).wf(),
            old(self).same_setup(final(self)),
            final(self).recs() == old(self).recs(),
            final(self).db() == old(self).db(),
            final(self).next_memory_sweep() == old(self).next_memory_sweep(),
            final(self).next_storage_sweep() == old(self).next_storage_sweep(),
            old(self).has_client() == false ==> r is Ok,
    {
        match &mut self.client {
            Some(c) => match c.initiate(self.config.table_name.as_str()) {
                Ok(_) => Ok(()),
                Err(e) => Err(SessionError::Database(e)),
            },
            None => Ok(()),
        }
    }

    /// Whether a record is held in memory for the identifier.
    pub fn data_exists(&self, id: u128) -> (r: bool)
        requires
            self.wf(),
        ensures
            r == self.recs().contains_key(id),
    {
        self.records.contains_key(id)
    }

    /// Creates a fresh, storable record under the identifier. Only
    /// meaningful under the manual storage policy, where records are never
    /// created automatically.
    pub fn create_data(&mut self, id: u128, now: i64)
        requires
            old(self).wf(),
            old(self).cfg().session_mode == SessionMode::Manual,
        ensures
            final(self).wf(),
            old(self).untouched_but_records(final(self)),
            final(self).recs().contains_key(id),
            final(self).recs()[id].id == id,
            final(self).recs()[id].data@ == Map::<Seq<char>, Seq<char>>::empty(),
            final(self).recs()[id].store,
            !final(self).recs()[id].destroy,
            final(self).recs()[id].requests == 0,
            recs_same_elsewhere(old(self).recs().insert(id, final(self).recs()[id]), final(self).recs(), id),
    {
        let d = SessionData::new(id, true, now, &self.config);
        self.records.insert(id, d);
        proof {
            assert(recs_same_elsewhere(
                old(self).recs().insert(id, final(self).recs()[id]),
                final(self).recs(),
                id,
            ));
        }
    }

    /// Flags the record to have its identifier rotated at the end of the
    /// request. Fire-and-forget: an absent identifier changes nothing.
    pub fn mark_renew(&mut self, id: u128)
        requires
            old(self).wf(),
        ensures
            final(self).wf(),
            old(self).untouched_but_records(final(self)),
            old(self).recs().contains_key(id) ==> final(self).recs() == old(self).recs().insert(
                id,
                (SessionData { renew: true, update: true, ..old(self).recs()[id] }),
            ),
            !old(self).recs().contains_key(id) ==> final(self).recs() == old(self).recs(),
    {
        proof {
            self.records.lemma_wf_records();
        }
        match self.records.remove(id) {
            Some(mut d) => {
                d.renew();
                self.records.insert(id, d);
                proof {
                    assert(final(self).recs() =~= old(self).recs().insert(
                        id,
                        (SessionData { renew: true, update: true, ..old(self).recs()[id] }),
                    ));
                }
            },
            None => {
                proof {
                    assert(final(self).recs() =~= old(self).recs());
                }
            },
        }
    }

    /// Marks the record dirty so the next flush writes it.
    pub fn force_update(&mut self, id: u128)
        requires
            old(self).wf(),
        ensures
            final(self).wf(),
            old(self).untouched_but_records(final(self)),
            old(self).recs().contains_key(id) ==> final(self).recs() == old(self).recs().insert(
                id,
                (SessionData { update: true, ..old(self).recs()[id] }),
            ),
            !old(self).recs().contains_key(id) ==> final(self).recs() == old(self).recs(),
    {
        proof {
            self.records.lemma_wf_records();
        }
        match self.records.remove(id) {
            Some(mut d) => {
                d.update();
                self.records.insert(id, d);
                proof {
                    assert(final(self).recs() =~= old(self).recs().insert(
                        id,
                        (SessionData { update: true, ..old(self).recs()[id] }),
                    ));
                }
            },
            None => {
                proof {
                    assert(final(self).recs() =~= old(self).recs());
                }
            },
        }
    }

    /// Sets the sticky destruction flag: the record will be deleted at the
    /// end of the request and never written.
    pub fn mark_destroy(&mut self, id: u128)
        requires
            old(self).wf(),
        ensures
            final(self).wf(),
            old(self).untouched_but_records(final(self)),
            old(self).recs().contains_key(id) ==> final(self).recs() == old(self).recs().insert(
                id,
                (SessionData { destroy: true, ..old(self).recs()[id] }),
            ),
            !old(self).recs().contains_key(id) ==> final(self).recs() == old(self).recs(),
    {
        proof {
            self.records.lemma_wf_records();
        }
        match self.records.remove(id) {
            Some(mut d) => {
                d.destroy();
                self.records.insert(id, d);
                proof {
                    assert(final(self).recs() =~= old(self).recs().insert(
                        id,
                        (SessionData { destroy: true, ..old(self).recs()[id] }),
                    ));
                }
            },
            None => {
                proof {
                    assert(final(self).recs() =~= old(self).recs());
                }
            },
        }
    }

    /// Switches the record between the default and the extended persisted
    /// lifespan.
    pub fn mark_longterm(&mut self, id: u128, longterm: bool)
        requires
            old(self).wf(),
        ensures
            final(self).wf(),
            old(self).untouched_but_records(final(self)),
            old(self).recs().contains_key(id) ==> final(self).recs() == old(self).recs().insert(
                id,
                (SessionData { longterm, update: true, ..old(self).recs()[id] }),
            ),
            !old(self).recs().contains_key(id) ==> final(self).recs() == old(self).recs(),
    {
        proof {
            self.records.lemma_wf_records();
        }
        match self.records.remove(id) {
            Some(mut d) => {
                d.set_longterm(longterm);
                self.records.insert(id, d);
                proof {
                    assert(final(self).recs() =~= old(self).recs().insert(
                        id,
                        (SessionData { longterm, update: true, ..old(self).recs()[id] }),
                    ));
                }
            },
            None => {
                proof {
                    assert(final(self).recs() =~= old(self).recs());
                }
            },
        }
    }

    /// Allows or forbids persisting the record under an opt-in or manual
    /// policy.
    pub fn mark_storable(&mut self, id: u128, can_store: bool)
        requires
            old(self).wf(),
        ensures
            final(self).wf(),
            old(self).untouched_but_records(final(self)),
            old(self).recs().contains_key(id) ==> final(self).recs() == old(self).recs().insert(
                id,
                (SessionData { store: can_store, update: true, ..old(self).recs()[id] }),
            ),
            !old(self).recs().contains_key(id) ==> final(self).recs() == old(self).recs(),
    {
        proof {
            self.records.lemma_wf_records();
        }
        match self.records.remove(id) {
            Some(mut d) => {
                d.set_storable(can_store);
                self.records.insert(id, d);
                proof {
                    assert(final(self).recs() =~= old(self).recs().insert(
                        id,
                        (SessionData { store: can_store, update: true, ..old(self).recs()[id] }),
                    ));
                }
            },
            None => {
                proof {
                    assert(final(self).recs() =~= old(self).recs());
                }
            },
        }
    }

    /// Attaches one more request to the identifier.
    pub fn add_request(&mut self, id: u128)
        requires
            old(self).wf(),
        ensures
            final(self).wf(),
            old(self).untouched_but_records(final(self)),
            old(self).recs().contains_key(id) ==> final(self).recs() == old(self).recs().insert(
                id,
                (SessionData {
                    requests: (if old(self).recs()[id].requests == usize::MAX {
                        usize::MAX as int
                    } else {
                        old(self).recs()[id].requests + 1
                    }) as usize,
                    ..old(self).recs()[id]
                }),
            ),
            !old(self).recs().contains_key(id) ==> final(self).recs() == old(self).recs(),
    {
        proof {
            self.records.lemma_wf_records();
        }
        match self.records.remove(id) {
            Some(mut d) => {
                d.add_request();
                self.records.insert(id, d);
                proof {
                    assert(final(self).recs() =~= old(self).recs().insert(id, final(self).recs()[id]));
                }
            },
            None => {
                proof {
                    assert(final(self).recs() =~= old(self).recs());
                }
            },
        }
    }

    /// Detaches one request from the identifier; the count stops at zero.
    pub fn remove_request(&mut self, id: u128)
        requires
            old(self).wf(),
        ensures
            final(self).wf(),
            old(self).untouched_but_records(final(self)),
            old(self).recs().contains_key(id) ==> final(self).recs() == old(self).recs().insert(
                id,
                (SessionData {
                    requests: (if old(self).recs()[id].requests == 0 {
                        0
                    } else {
                        old(self).recs()[id].requests - 1
                    }) as usize,
                    ..old(self).recs()[id]
                }),
            ),
            !old(self).recs().contains_key(id) ==> final(self).recs() == old(self).recs(),
    {
        proof {
            self.records.lemma_wf_records();
        }
        match self.records.remove(id) {
            Some(mut d) => {
                d.remove_request();
                self.records.insert(id, d);
                proof {
                    assert(final(self).recs() =~= old(self).recs().insert(id, final(self).recs()[id]));
                }
            },
            None => {
                proof {
                    assert(final(self).recs() =~= old(self).recs());
                }
            },
        }
    }

    /// Resets the record to exactly one attached request.
    pub fn reset_requests(&mut self, id: u128)
        requires
            old(self).wf(),
        ensures
            final(self).wf(),
            old(self).untouched_but_records(final(self)),
            old(self).recs().contains_key(id) ==> final(self).recs() == old(self).recs().insert(
                id,
                (SessionData { requests: 1, ..old(self).recs()[id] }),
            ),
            !old(self).recs().contains_key(id) ==> final(self).recs() == old(self).recs(),
    {
        proof {
            self.records.lemma_wf_records();
        }
        match self.records.remove(id) {
            Some(mut d) => {
                d.reset_requests();
                self.records.insert(id, d);
                proof {
                    assert(final(self).recs() =~= old(self).recs().insert(
                        id,
                        (SessionData { requests: 1, ..old(self).recs()[id] }),
                    ));
                }
            },
            None => {
                proof {
                    assert(final(self).recs() =~= old(self).recs());
                }
            },
        }
    }

    /// Whether any request currently holds the identifier.
    pub fn is_parallel(&self, id: u128) -> (r: bool)
        requires
            self.wf(),
        ensures
            r == (self.recs().contains_key(id) && self.recs()[id].requests >= 1),
    {
        match self.records.get(id) {
            Some(d) => d.is_parallel(),
            None => false,
        }
    }
}

} // verus!

verus! {

impl<T: DatabasePool> SessionStore<T> {
    /// Reads a payload value. `None` both when the identifier or the key is
    /// absent and when the stored text does not parse; callers cannot tell
    /// these apart here.
    pub fn get(&self, id: u128, k: &str) -> (r: Option<String>)
        requires
            self.wf(),
        ensures
            match r {
                Some(v) => self.recs().contains_key(id) && self.recs()[id].data@.contains_key(k@)
                    && v@ == self.recs()[id].data@[k@] && json_valid(v@),
                None => !(self.recs().contains_key(id) && self.recs()[id].data@.contains_key(k@)
                    && json_valid(self.recs()[id].data@[k@])),
            },
    {
        proof {
            self.records.lemma_wf_records();
        }
        match self.records.get(id) {
            Some(d) => match d.get(k) {
                Some(v) => {
                    if is_valid_json(v.as_str()) {
                        Some(v.clone())
                    } else {
                        None
                    }
                },
                None => None,
            },
            None => None,
        }
    }

    /// Writes a payload value; the record becomes dirty. An absent
    /// identifier changes nothing.
    pub fn set(&mut self, id: u128, k: String, v: String)
        requires
            old(self).wf(),
        ensures
            final(self).wf(),
            old(self).untouched_but_records(final(self)),
            !old(self).recs().contains_key(id) ==> final(self).recs() == old(self).recs(),
            old(self).recs().contains_key(id) ==> {
                &&& recs_same_elsewhere(old(self).recs(), final(self).recs(), id)
                &&& final(self).recs().contains_key(id)
                &&& final(self).recs()[id].data@ == old(self).recs()[id].data@.insert(k@, v@)
                &&& final(self).recs()[id].update
                &&& same_core(old(self).recs()[id], final(self).recs()[id])
            },
    {
        proof {
            self.records.lemma_wf_records();
        }
        match self.records.remove(id) {
            Some(mut d) => {
                d.set(k, v);
                self.records.insert(id, d);
                proof {
                    assert(final(self).recs().dom() =~= old(self).recs().dom());
                }
            },
            None => {
                proof {
                    assert(final(self).recs() =~= old(self).recs());
                }
            },
        }
    }

    /// Removes a payload key; the record becomes dirty even when the key was
    /// absent. An absent identifier changes nothing.
    pub fn remove(&mut self, id: u128, k: &str)
        requires
            old(self).wf(),
        ensures
            final(self).wf(),
            old(self).untouched_but_records(final(self)),
            !old(self).recs().contains_key(id) ==> final(self).recs() == old(self).recs(),
            old(self).recs().contains_key(id) ==> {
                &&& recs_same_elsewhere(old(self).recs(), final(self).recs(), id)
                &&& final(self).recs().contains_key(id)
                &&& final(self).recs()[id].data@ == old(self).recs()[id].data@.remove(k@)
                &&& final(self).recs()[id].update
                &&& same_core(old(self).recs()[id], final(self).recs()[id])
            },
    {
        proof {
            self.records.lemma_wf_records();
        }
        match self.records.remove(id) {
            Some(mut d) => {
                d.remove(k);
                self.records.insert(id, d);
                proof {
                    assert(final(self).recs().dom() =~= old(self).recs().dom());
                }
            },
            None => {
                proof {
                    assert(final(self).recs() =~= old(self).recs());
                }
            },
        }
    }

    /// Removes a payload key and hands its value back (when it parses); the
    /// record becomes dirty only when the key was present.
    pub fn get_and_remove(&mut self, id: u128, k: &str) -> (r: Option<String>)
        requires
            old(self).wf(),
        ensures
            final(self).wf(),
            old(self).untouched_but_records(final(self)),
            !old(self).recs().contains_key(id) ==> final(self).recs() == old(self).recs() && r
                is None,
            old(self).recs().contains_key(id) ==> {
                &&& recs_same_elsewhere(old(self).recs(), final(self).recs(), id)
                &&& final(self).recs().contains_key(id)
                &&& final(self).recs()[id].data@ == old(self).recs()[id].data@.remove(k@)
                &&& final(self).recs()[id].update == (old(self).recs()[id].update || old(self).recs()[id].data@.contains_key(k@))
                &&& same_core(old(self).recs()[id], final(self).recs()[id])
                &&& match r {
                    Some(v) => old(self).recs()[id].data@.contains_key(k@) && v@ == old(self).recs()[id].data@[k@] && json_valid(v@),
                    None => !(old(self).recs()[id].data@.contains_key(k@) && json_valid(
                        old(self).recs()[id].data@[k@],
                    )),
                }
            },
    {
        proof {
            self.records.lemma_wf_records();
        }
        match self.records.remove(id) {
            Some(mut d) => {
                let taken = d.get_remove(k);
                self.records.insert(id, d);
                proof {
                    assert(final(self).recs().dom() =~= old(self).recs().dom());
                }
                match taken {
                    Some(v) => {
                        if is_valid_json(v.as_str()) {
                            Some(v)
                        } else {
                            None
                        }
                    },
                    None => None,
                }
            },
            None => {
                proof {
                    assert(final(self).recs() =~= old(self).recs());
                }
                None
            },
        }
    }

    /// Drops the record's whole payload; the record becomes dirty. An absent
    /// identifier changes nothing.
    pub fn clear(&mut self, id: u128)
        requires
            old(self).wf(),
        ensures
            final(self).wf(),
            old(self).untouched_but_records(final(self)),
            !old(self).recs().contains_key(id) ==> final(self).recs() == old(self).recs(),
            old(self).recs().contains_key(id) ==> {
                &&& recs_same_elsewhere(old(self).recs(), final(self).recs(), id)
                &&& final(self).recs().contains_key(id)
                &&& final(self).recs()[id].data@ == Map::<Seq<char>, Seq<char>>::empty()
                &&& final(self).recs()[id].update
                &&& same_core(old(self).recs()[id], final(self).recs()[id])
            },
    {
        proof {
            self.records.lemma_wf_records();
        }
        match self.records.remove(id) {
            Some(mut d) => {
                d.clear();
                self.records.insert(id, d);
                proof {
                    assert(final(self).recs().dom() =~= old(self).recs().dom());
                }
            },
            None => {
                proof {
                    assert(final(self).recs() =~= old(self).recs());
                }
            },
        }
    }

    /// How many sessions exist: persisted sessions when a backend persists,
    /// else the records held in memory.
    pub fn count(&self) -> (r: Result<i64, SessionError>)
        requires
            self.wf(),
        ensures
            match r {
                Ok(c) => {
                    &&& self.has_client() && self.persists() ==> c as int == table_keys(
                        self.db(),
                        self.table(),
                    ).len()
                    &&& self.has_client() && !self.persists() ==> c == 0
                    &&& !self.has_client() ==> c as int == (if self.recs().dom().len()
                        > i64::MAX as int {
                        i64::MAX as int
                    } else {
                        self.recs().dom().len() as int
                    })
                },
                Err(_) => true,
            },
            !self.has_client() ==> r is Ok,
    {
        match &self.client {
            Some(c) => match c.count(self.config.table_name.as_str()) {
                Ok(n) => Ok(n),
                Err(e) => Err(SessionError::Database(e)),
            },
            None => {
                let n = self.records.len();
                if n as u64 > i64::MAX as u64 {
                    Ok(i64::MAX)
                } else {
                    Ok(n as i64)
                }
            },
        }
    }

    /// Draws fresh random identifiers until one is demonstrably unused: it
    /// must not collide with the in-memory map, and — when the filter or the
    /// backend can say more — the filter must not claim it and the backend
    /// must not hold it. Collisions simply draw again; only a backend error
    /// or exhausting the attempt bound fails.
    pub fn generate_id(&self) -> (r: Result<u128, SessionError>)
        requires
            self.wf(),
        ensures
            match r {
                Ok(id) => !self.recs().contains_key(id) && (!(self.persists()
                    && self.auto_expiry()) ==> !self.db().contains_key(
                    key_text(id_chars(id), self.table()),
                )),
                Err(e) => e is IdGenerationFailed || e is Database,
            },
            self.recs() == Map::<u128, SessionData>::empty() && !self.has_client()
                && !self.cfg().use_bloom_filters ==> r is Ok,
    {
        let ghost sure = self.recs() == Map::<u128, SessionData>::empty() && !self.has_client()
            && !self.cfg().use_bloom_filters;
        let mut attempts: usize = 0;
        while attempts < MAX_ID_ATTEMPTS
            invariant
                self.wf(),
                sure == (self.recs() == Map::<u128, SessionData>::empty() && !self.has_client()
                    && !self.cfg().use_bloom_filters),
                sure ==> attempts == 0,
            decreases MAX_ID_ATTEMPTS - attempts,
        {
            let token = random_u128();
            let text = id_text(token);
            let in_map = self.records.contains_key(token);
            if !in_map {
                if self.config.use_bloom_filters {
                    let in_filter = self.filter.contains(text.as_str());
                    if !in_filter {
                        match &self.client {
                            Some(c) => {
                                if c.auto_handles_expiry() {
                                    return Ok(token);
                                }
                            },
                            None => {
                                return Ok(token);
                            },
                        }
                    }
                    match &self.client {
                        Some(c) => {
                            match c.id_exists(text.as_str(), self.config.table_name.as_str()) {
                                Ok(false) => {
                                    return Ok(token);
                                },
                                Ok(true) => {},
                                Err(e) => {
                                    return Err(SessionError::Database(e));
                                },
                            }
                        },
                        None => {},
                    }
                } else {
                    match &self.client {
                        Some(c) => {
                            if c.auto_handles_expiry() {
                                return Ok(token);
                            }
                            match c.id_exists(text.as_str(), self.config.table_name.as_str()) {
                                Ok(false) => {
                                    return Ok(token);
                                },
                                Ok(true) => {},
                                Err(e) => {
                                    return Err(SessionError::Database(e));
                                },
                            }
                        },
                        None => {
                            return Ok(token);
                        },
                    }
                }
            }
            attempts += 1;
        }
        Err(SessionError::IdGenerationFailed)
    }

    /// Returns the candidate identifier when one came with the request, else
    /// a freshly generated one, and registers it in the filter (idempotently:
    /// an identifier the filter already claims is not counted again).
    pub fn resolve_or_create(&mut self, candidate: Option<u128>) -> (r: Result<
        (SessionID, bool),
        SessionError,
    >)
        requires
            old(self).wf(),
        ensures
            final(self).wf(),
            old(self).same_setup(final(self)),
            final(self).recs() == old(self).recs(),
            final(self).db() == old(self).db(),
            final(self).next_memory_sweep() == old(self).next_memory_sweep(),
            final(self).next_storage_sweep() == old(self).next_storage_sweep(),
            match r {
                Ok((sid, is_new)) => {
                    &&& is_new == (candidate is None)
                    &&& (candidate matches Some(v) ==> sid.0 == v)
                    &&& (is_new ==> !old(self).recs().contains_key(sid.0) && (!(old(self).persists() && old(self).auto_expiry()) ==> !old(self).db().contains_key(
                        key_text(id_chars(sid.0), old(self).table()),
                    )))
                },
                Err(_) => true,
            },
            candidate is Some ==> r is Ok,
    {
        let (id, is_new): (u128, bool) = match candidate {
            Some(v) => (v, false),
            None => {
                match self.generate_id() {
                    Ok(t) => (t, true),
                    Err(e) => {
                        return Err(e);
                    },
                }
            },
        };
        if self.config.use_bloom_filters {
            let text = id_text(id);
            if !self.filter.contains(text.as_str()) {
                self.filter.add(text.as_str());
            }
        }
        Ok((SessionID(id), is_new))
    }
}

} // verus!

verus! {

impl<T: DatabasePool> SessionStore<T> {
    fn auto_handles(&self) -> (r: bool)
        ensures
            r == self.auto_expiry(),
    {
        match &self.client {
            Some(c) => c.auto_handles_expiry(),
            None => false,
        }
    }

    /// The memory sweep. When due (the watermark has passed and records are
    /// kept in memory at all), it evicts every record whose memory deadline
    /// has passed and that no request holds — a record with a live reference
    /// count is never evicted — and pushes the watermark out. When filtering
    /// is enabled and the backend does not expire rows natively, the swept
    /// identifiers are first counted out of the filter.
    pub fn sweep_memory(&mut self, now: i64)
        requires
            old(self).wf(),
        ensures
            final(self).wf(),
            old(self).same_setup(final(self)),
            final(self).db() == old(self).db(),
            final(self).next_storage_sweep() == old(self).next_storage_sweep(),
            ({
                let due = now as int >= old(self).next_memory_sweep() && old(self).cfg().memory_lifespan != 0;
                if due {
                    &&& final(self).recs() == old(self).recs().remove_keys(
                        sweep_victims(old(self).recs(), now as int),
                    )
                    &&& final(self).next_memory_sweep() == sat_add(
                        now as int,
                        old(self).cfg().purge_update as int,
                    )
                } else {
                    &&& final(self).recs() == old(self).recs()
                    &&& final(self).next_memory_sweep() == old(self).next_memory_sweep()
                }
            }),
            forall|id: u128|
                old(self).recs().contains_key(id) && (#[trigger] old(self).recs()[id]).requests
                    >= 1 ==> final(self).recs().contains_key(id) && final(self).recs()[id] == old(self).recs()[id],
    {
        if now >= self.timers.next_memory_sweep && self.config.memory_lifespan != 0 {
            if self.config.use_bloom_filters && !self.auto_handles() {
                let victims = self.records.expired_ids(now);
                let n = victims.len();
                let mut i: usize = 0;
                while i < n
                    invariant
                        0 <= i <= n,
                        n == victims@.len(),
                        self.records == old(self).records,
                        self.client == old(self).client,
                        self.timers == old(self).timers,
                        self.config == old(self).config,
                        self.crypto_key == old(self).crypto_key,
                    decreases n - i,
                {
                    let text = id_text(victims[i]);
                    self.filter.remove(text.as_str());
                    i += 1;
                }
            }
            self.records.sweep(now);
            self.timers.next_memory_sweep = ts_add(now, self.config.purge_update);
        }
    }

    /// The storage sweep. When due and a backend is attached, asks it to
    /// delete every stale persisted entry, counts the reported identifiers
    /// out of the filter, and pushes the watermark out. A failing sweep does
    /// not reschedule, so the next request tries again.
    pub fn sweep_storage(&mut self, now: i64) -> (r: Result<(), SessionError>)
        requires
            old(self).wf(),
        ensures
            final(self).wf(),
            old(self).same_setup(final(self)),
            final(self).recs() == old(self).recs(),
            final(self).next_memory_sweep() == old(self).next_memory_sweep(),
            ({
                let due = now as int >= old(self).next_storage_sweep() && old(self).has_client();
                if due {
                    match r {
                        Ok(_) => {
                            &&& (old(self).persists() && !old(self).auto_expiry() ==> final(self).db() == old(self).db().remove_keys(
                                expired_keys(old(self).db(), old(self).table(), now as int),
                            ))
                            &&& (!(old(self).persists() && !old(self).auto_expiry()) ==> final(self).db() == old(self).db())
                            &&& final(self).next_storage_sweep() == sat_add(
                                now as int,
                                old(self).cfg().purge_database_update as int,
                            )
                        },
                        Err(_) => {
                            &&& final(self).db() == old(self).db()
                            &&& final(self).next_storage_sweep() == old(self).next_storage_sweep()
                        },
                    }
                } else {
                    &&& r is Ok
                    &&& final(self).db() == old(self).db()
                    &&& final(self).next_storage_sweep() == old(self).next_storage_sweep()
                }
            }),
    {
        if now >= self.timers.next_storage_sweep {
            let table = &self.config.table_name;
            let ids = match &mut self.client {
                Some(c) => match c.delete_expired(table.as_str(), now) {
                    Ok(ids) => ids,
                    Err(e) => {
                        return Err(SessionError::Database(e));
                    },
                },
                None => {
                    return Ok(());
                },
            };
            let ghost mid_client = self.client;
            if self.config.use_bloom_filters {
                let n = ids.len();
                let mut i: usize = 0;
                while i < n
                    invariant
                        0 <= i <= n,
                        n == ids@.len(),
                        self.records == old(self).records,
                        self.client == mid_client,
                        self.timers == old(self).timers,
                        self.config == old(self).config,
                        self.crypto_key == old(self).crypto_key,
                    decreases n - i,
                {
                    self.filter.remove(ids[i].as_str());
                    i += 1;
                }
            }
            self.timers.next_storage_sweep = ts_add(now, self.config.purge_database_update);
        }
        Ok(())
    }
}

} // verus!

verus! {

/// Whether a flush must delete the persisted copy instead of writing: the
/// record is marked destroyed, or a policy that requires opting in finds the
/// record not storable.
pub open spec fn flush_skips(d: SessionData, mode: SessionMode) -> bool {
    d.destroy || ((mode == SessionMode::OptIn || mode == SessionMode::Manual) && !d.store)
}

/// Whether a flush writes: nothing forces a delete, and the record is dirty
/// or unconditional saving is configured and the record is still within its
/// persisted lifespan.
pub open spec fn flush_writes(d: SessionData, cfg: SessionConfig, now: int) -> bool {
    !flush_skips(d, cfg.session_mode) && (d.update || (cfg.always_save && !(d.expires_at < now)))
}

/// Whether the end of a request evicts the record from memory and storage:
/// it is marked destroyed, or an opt-in policy finds it not storable, and no
/// request holds it any more.
pub open spec fn evict_due(d: SessionData, mode: SessionMode) -> bool {
    (d.destroy || (mode == SessionMode::OptIn && !d.store)) && d.requests == 0
}

impl<T: DatabasePool> SessionStore<T> {
    /// Reads a persisted record back: payload and long-term flag from the
    /// stored text, everything else recomputed from the configuration and
    /// `now`. Fails closed: text that does not open or does not decode is a
    /// hard error, never an empty session.
    fn load_record(&self, id: u128, storable: bool, now: i64) -> (r: Result<
        Option<SessionData>,
        SessionError,
    >)
        requires
            self.wf(),
        ensures
            match r {
                Ok(Some(d)) => {
                    &&& d.wf()
                    &&& d.id == id
                    &&& self.persists()
                    &&& self.db().contains_key(key_text(id_chars(id), self.table()))
                    &&& (self.plain() ==> {
                        &&& dec_record(self.db()[key_text(id_chars(id), self.table())].0)
                            is Some
                        &&& d.data@ == pairs_map(
                            dec_record(
                                self.db()[key_text(id_chars(id), self.table())].0,
                            ).unwrap().0,
                        )
                        &&& d.longterm == dec_record(
                            self.db()[key_text(id_chars(id), self.table())].0,
                        ).unwrap().1
                    })
                    &&& (self.crypto() matches Some(kb) ==> exists|t: Seq<char>|
                        {
                            &&& opens_to(
                                kb@,
                                id_chars(id),
                                self.db()[key_text(id_chars(id), self.table())].0,
                                t,
                            )
                            &&& #[trigger] dec_record(t) is Some
                            &&& d.data@ == pairs_map(dec_record(t).unwrap().0)
                            &&& d.longterm == dec_record(t).unwrap().1
                        })
                    &&& d.store == storable
                    &&& d.requests == 1
                    &&& !d.destroy
                    &&& !d.renew
                    &&& !d.update
                    &&& d.autoremove_at == sat_add(
                        now as int,
                        self.cfg().memory_lifespan as int,
                    )
                },
                Ok(None) => !(self.persists() && self.db().contains_key(
                    key_text(id_chars(id), self.table()),
                )),
                Err(e) => e is Database || e is Decrypt || e is Decode,
            },
            !self.has_client() ==> (r matches Ok(v) && v is None),
            self.plain() ==> !(r matches Err(e) && e is Decrypt),
            self.plain() && self.persists() && self.db().contains_key(
                key_text(id_chars(id), self.table()),
            ) && dec_record(self.db()[key_text(id_chars(id), self.table())].0) is Some ==> !(
            r matches Err(e) && e is Decode),
    {
        let text = id_text(id);
        let stored = match &self.client {
            Some(c) => match c.load(text.as_str(), self.config.table_name.as_str()) {
                Ok(v) => v,
                Err(e) => {
                    return Err(SessionError::Database(e));
                },
            },
            None => None,
        };
        match stored {
            None => Ok(None),
            Some(sa) => {
                let opened = match unseal(text.as_str(), sa.as_text().as_str(), &self.crypto_key) {
                    Some(t) => t,
                    None => {
                        return Err(SessionError::Decrypt);
                    },
                };
                let (payload, longterm) = match decode_record(opened.as_str()) {
                    Some(p) => p,
                    None => {
                        return Err(SessionError::Decode);
                    },
                };
                let lifespan = if longterm {
                    self.config.max_lifespan
                } else {
                    self.config.lifespan
                };
                let d = SessionData {
                    id,
                    data: payload,
                    expires_at: ts_add(now, lifespan),
                    autoremove_at: ts_add(now, self.config.memory_lifespan),
                    destroy: false,
                    renew: false,
                    longterm,
                    store: storable,
                    update: false,
                    requests: 1,
                };
                Ok(Some(d))
            },
        }
    }

    /// Persists the record at the end of a request. A record marked
    /// destroyed — or not storable under an opt-in or manual policy — has
    /// its persisted copy deleted and is never written. Otherwise a dirty
    /// record (or any record within its lifespan, when unconditional saving
    /// is configured) gets a fresh persisted deadline, its dirty flag
    /// cleared, and is written through the backend; a failed write is
    /// surfaced and the dirty flag stays cleared (one flush attempt per
    /// request).
    pub fn flush(&mut self, id: u128, now: i64) -> (r: Result<(), SessionError>)
        requires
            old(self).wf(),
        ensures
            final(self).wf(),
            old(self).same_setup(final(self)),
            final(self).next_memory_sweep() == old(self).next_memory_sweep(),
            final(self).next_storage_sweep() == old(self).next_storage_sweep(),
            !old(self).recs().contains_key(id) ==> final(self).recs() == old(self).recs()
                && final(self).db() == old(self).db() && r is Ok,
            old(self).recs().contains_key(id) ==> ({
                let d = old(self).recs()[id];
                let key = key_text(id_chars(id), old(self).table());
                if flush_skips(d, old(self).cfg().session_mode) {
                    &&& final(self).recs() == old(self).recs()
                    &&& (r is Ok ==> final(self).db() == (if old(self).persists() {
                        old(self).db().remove(key)
                    } else {
                        old(self).db()
                    }))
                    &&& (r is Err ==> final(self).db() == old(self).db())
                    &&& (!old(self).has_client() ==> r is Ok)
                } else if flush_writes(d, old(self).cfg(), now as int) {
                    let expires = sat_add(
                        now as int,
                        (if d.longterm {
                            old(self).cfg().max_lifespan
                        } else {
                            old(self).cfg().lifespan
                        }) as int,
                    );
                    &&& recs_same_elsewhere(old(self).recs(), final(self).recs(), id)
                    &&& final(self).recs().contains_key(id)
                    &&& final(self).recs()[id] == (SessionData {
                        expires_at: expires as i64,
                        update: false,
                        ..d
                    })
                    &&& (r is Ok && old(self).persists() ==> {
                        &&& final(self).db().contains_key(key)
                        &&& final(self).db()[key].1 == expires
                        &&& final(self).db().remove(key) == old(self).db().remove(key)
                        &&& (old(self).plain() ==> final(self).db()[key].0 == enc_record(
                            d.data.entry_seq(),
                            d.longterm,
                        ))
                        &&& (old(self).crypto() matches Some(kb) ==> opens_to(
                            kb@,
                            id_chars(id),
                            final(self).db()[key].0,
                            enc_record(d.data.entry_seq(), d.longterm),
                        ))
                    })
                    &&& (r is Ok && !old(self).persists() ==> final(self).db() == old(self).db())
                    &&& (r is Err ==> final(self).db() == old(self).db())
                    &&& (!old(self).has_client() && old(self).plain() ==> r is Ok)
                } else {
                    &&& final(self).recs() == old(self).recs()
                    &&& final(self).db() == old(self).db()
                    &&& r is Ok
                }
            }),
    {
        proof {
            self.records.lemma_wf_records();
        }
        match self.records.remove(id) {
            None => {
                proof {
                    assert(final(self).recs() =~= old(self).recs());
                }
                Ok(())
            },
            Some(mut d) => {
                let skip = d.will_destroy() || (self.config.session_mode.needs_storable()
                    && !d.is_storable());
                if skip {
                    self.records.insert(id, d);
                    proof {
                        assert(self.recs() =~= old(self).recs());
                    }
                    let text = id_text(id);
                    match &mut self.client {
                        Some(c) => match c.delete(text.as_str(), self.config.table_name.as_str()) {
                            Ok(_) => Ok(()),
                            Err(e) => Err(SessionError::Database(e)),
                        },
                        None => Ok(()),
                    }
                } else {
                    let should = d.will_update() || (self.config.always_save && !d.is_expired(
                        now,
                    ));
                    if should {
                        let lifespan = if d.is_longterm() {
                            self.config.max_lifespan
                        } else {
                            self.config.lifespan
                        };
                        let expires = ts_add(now, lifespan);
                        d.set_expiration(expires);
                        d.prevent_update();
                        let encoded = encode_record(&d.data, d.is_longterm());
                        let ghost dd = d;
                        self.records.insert(id, d);
                        proof {
                            assert(self.recs().dom() =~= old(self).recs().dom());
                            assert(recs_same_elsewhere(old(self).recs(), self.recs(), id));
                        }
                        let text = id_text(id);
                        let sealed = match seal(text.as_str(), encoded.as_str(), &self.crypto_key) {
                            Some(s) => s,
                            None => {
                                return Err(SessionError::Encrypt);
                            },
                        };
                        match &mut self.client {
                            Some(c) => {
                                match c.store(
                                    text.as_str(),
                                    sealed.as_str(),
                                    expires,
                                    self.config.table_name.as_str(),
                                ) {
                                    Ok(_) => {
                                        proof {
                                            if old(self).persists() {
                                                let key = key_text(
                                                    id_chars(id),
                                                    old(self).table(),
                                                );
                                                assert(final(self).db().remove(key) =~= old(self).db().remove(key));
                                            }
                                        }
                                        Ok(())
                                    },
                                    Err(e) => Err(SessionError::Database(e)),
                                }
                            },
                            None => Ok(()),
                        }
                    } else {
                        self.records.insert(id, d);
                        proof {
                            assert(self.recs() =~= old(self).recs());
                        }
                        Ok(())
                    }
                }
            },
        }
    }
}

} // verus!

verus! {

impl<T: DatabasePool> SessionStore<T> {
    /// Rotates a record's identifier: only valid while its renew flag is
    /// set. The persisted copy under the old identifier is deleted first —
    /// rotation must never leave two live persisted copies — then the old
    /// identifier leaves the filter, the new one is registered, and the
    /// record is re-keyed with its renew flag cleared. A storage failure
    /// aborts the rotation with the record untouched and still flagged, so a
    /// retry is safe.
    pub fn rotate(&mut self, id: u128) -> (r: Result<SessionID, SessionError>)
        requires
            old(self).wf(),
        ensures
            final(self).wf(),
            old(self).same_setup(final(self)),
            final(self).next_memory_sweep() == old(self).next_memory_sweep(),
            final(self).next_storage_sweep() == old(self).next_storage_sweep(),
            match r {
                Ok(nid) => {
                    &&& old(self).recs().contains_key(id)
                    &&& old(self).recs()[id].renew
                    &&& nid.0 != id
                    &&& !old(self).recs().contains_key(nid.0)
                    &&& final(self).recs() == old(self).recs().remove(id).insert(
                        nid.0,
                        (SessionData {
                            id: nid.0,
                            renew: false,
                            update: true,
                            ..old(self).recs()[id]
                        }),
                    )
                    &&& (old(self).persists() ==> final(self).db() == old(self).db().remove(
                        key_text(id_chars(id), old(self).table()),
                    ))
                    &&& (!old(self).persists() ==> final(self).db() == old(self).db())
                    &&& (!(old(self).persists() && old(self).auto_expiry()) ==> !final(self).db().contains_key(key_text(id_chars(nid.0), old(self).table())))
                },
                Err(_) => {
                    &&& final(self).recs() == old(self).recs()
                    &&& final(self).db() == old(self).db()
                },
            },
            r matches Err(e) ==> (e is NoSession <==> !(old(self).recs().contains_key(id) && old(self).recs()[id].renew)),
            !(old(self).recs().contains_key(id) && old(self).recs()[id].renew) ==> r is Err,
    {
        proof {
            self.records.lemma_wf_records();
        }
        let renew_set = match self.records.get(id) {
            Some(d) => d.will_renew(),
            None => false,
        };
        if !renew_set {
            return Err(SessionError::NoSession);
        }
        let new_id = match self.generate_id() {
            Ok(t) => t,
            Err(e) => {
                return Err(e);
            },
        };
        let old_text = id_text(id);
        match &mut self.client {
            Some(c) => {
                match c.delete(old_text.as_str(), self.config.table_name.as_str()) {
                    Ok(_) => {},
                    Err(e) => {
                        return Err(SessionError::Database(e));
                    },
                }
            },
            None => {},
        }
        if self.config.use_bloom_filters {
            self.filter.remove(old_text.as_str());
            let new_text = id_text(new_id);
            if !self.filter.contains(new_text.as_str()) {
                self.filter.add(new_text.as_str());
            }
        }
        match self.records.remove(id) {
            Some(mut d) => {
                d.set_id(new_id);
                d.prevent_renew();
                self.records.insert(new_id, d);
            },
            None => {},
        }
        Ok(SessionID(new_id))
    }

    /// Evicts a record that this request cycle has finished with: marked
    /// destroyed, or not storable under an opt-in policy, and held by no
    /// request. The identifier leaves the filter and the map, and any
    /// persisted copy is deleted.
    pub fn evict_if_unused(&mut self, id: u128) -> (r: Result<(), SessionError>)
        requires
            old(self).wf(),
        ensures
            final(self).wf(),
            old(self).same_setup(final(self)),
            final(self).next_memory_sweep() == old(self).next_memory_sweep(),
            final(self).next_storage_sweep() == old(self).next_storage_sweep(),
            !(old(self).recs().contains_key(id) && evict_due(
                old(self).recs()[id],
                old(self).cfg().session_mode,
            )) ==> {
                &&& final(self).recs() == old(self).recs()
                &&& final(self).db() == old(self).db()
                &&& r is Ok
            },
            old(self).recs().contains_key(id) && evict_due(
                old(self).recs()[id],
                old(self).cfg().session_mode,
            ) ==> {
                &&& final(self).recs() == old(self).recs().remove(id)
                &&& (r is Ok ==> final(self).db() == (if old(self).persists() {
                    old(self).db().remove(key_text(id_chars(id), old(self).table()))
                } else {
                    old(self).db()
                }))
                &&& (r is Err ==> final(self).db() == old(self).db())
                &&& (!old(self).has_client() ==> r is Ok)
            },
    {
        proof {
            self.records.lemma_wf_records();
        }
        let due = match self.records.get(id) {
            Some(d) => (d.will_destroy() || (self.config.session_mode.is_opt_in()
                && !d.is_storable())) && !d.is_parallel(),
            None => false,
        };
        if !due {
            return Ok(());
        }
        let text = id_text(id);
        if self.config.use_bloom_filters {
            self.filter.remove(text.as_str());
        }
        let _ = self.records.remove(id);
        match &mut self.client {
            Some(c) => match c.delete(text.as_str(), self.config.table_name.as_str()) {
                Ok(_) => Ok(()),
                Err(e) => Err(SessionError::Database(e)),
            },
            None => Ok(()),
        }
    }

    /// Drops the in-memory record at the end of a non-parallel request cycle
    /// when records are configured not to outlive their request (memory
    /// lifespan zero). Any persisted copy stays: without a backend this
    /// makes the store a per-request cache, with one it stays a write-through
    /// cache.
    pub fn drop_transient(&mut self, id: u128)
        requires
            old(self).wf(),
        ensures
            final(self).wf(),
            old(self).same_setup(final(self)),
            final(self).db() == old(self).db(),
            final(self).next_memory_sweep() == old(self).next_memory_sweep(),
            final(self).next_storage_sweep() == old(self).next_storage_sweep(),
            ({
                let go = old(self).recs().contains_key(id) && old(self).cfg().memory_lifespan == 0
                    && old(self).recs()[id].requests == 0;
                if go {
                    final(self).recs() == old(self).recs().remove(id)
                } else {
                    final(self).recs() == old(self).recs()
                }
            }),
            old(self).cfg().memory_lifespan == 0 ==> (final(self).recs().contains_key(id)
                ==> final(self).recs()[id].requests >= 1),
    {
        proof {
            self.records.lemma_wf_records();
        }
        if self.config.memory_lifespan != 0 {
            return ;
        }
        let go = match self.records.get(id) {
            Some(d) => !d.is_parallel(),
            None => false,
        };
        if !go {
            return ;
        }
        let has_backend = match &self.client {
            Some(_) => true,
            None => false,
        };
        if !has_backend && self.config.use_bloom_filters {
            let text = id_text(id);
            self.filter.remove(text.as_str());
        }
        let _ = self.records.remove(id);
    }
}

} // verus!

verus! {

impl<T: DatabasePool> SessionStore<T> {
    /// The inbound half of a request cycle: resolves or creates the
    /// identifier, then makes sure a record is attached to it — fresh for a
    /// new identifier, revalidated when already in memory, reloaded from the
    /// backend when not — and counts the request onto it. Under the manual
    /// policy a new identifier gets no record: the caller creates one
    /// explicitly.
    pub fn prepare_request(&mut self, candidate: Option<u128>, storable: bool, now: i64) -> (r:
        Result<(SessionID, bool), SessionError>)
        requires
            old(self).wf(),
        ensures
            final(self).wf(),
            old(self).same_setup(final(self)),
            final(self).db() == old(self).db(),
            final(self).next_memory_sweep() == old(self).next_memory_sweep(),
            final(self).next_storage_sweep() == old(self).next_storage_sweep(),
            match r {
                Ok((sid, is_new)) => {
                    &&& is_new == (candidate is None)
                    &&& (candidate matches Some(v) ==> sid.0 == v)
                    &&& (is_new ==> !old(self).recs().contains_key(sid.0) && (!(old(self).persists() && old(self).auto_expiry()) ==> !old(self).db().contains_key(
                        key_text(id_chars(sid.0), old(self).table()),
                    )))
                    &&& recs_agree_except(old(self).recs(), final(self).recs(), sid.0)
                    &&& (is_new && old(self).cfg().session_mode == SessionMode::Manual ==> final(self).recs() == old(self).recs())
                    &&& (!(is_new && old(self).cfg().session_mode == SessionMode::Manual) ==> {
                        &&& final(self).recs().contains_key(sid.0)
                        &&& final(self).recs()[sid.0].requests >= 1
                        &&& final(self).recs()[sid.0].id == sid.0
                    })
                    &&& (!is_new && !old(self).recs().contains_key(sid.0) && !(old(self).persists() && old(self).db().contains_key(
                        key_text(id_chars(sid.0), old(self).table()),
                    )) ==> final(self).recs()[sid.0].data@ == Map::<
                        Seq<char>,
                        Seq<char>,
                    >::empty())
                    &&& (!is_new && !old(self).recs().contains_key(sid.0) && old(self).persists()
                        && old(self).db().contains_key(
                        key_text(id_chars(sid.0), old(self).table()),
                    ) ==> (old(self).crypto() matches Some(kb) ==> exists|t: Seq<char>|
                        {
                            &&& opens_to(
                                kb@,
                                id_chars(sid.0),
                                old(self).db()[key_text(id_chars(sid.0), old(self).table())].0,
                                t,
                            )
                            &&& #[trigger] dec_record(t) is Some
                            &&& final(self).recs()[sid.0].data@ == pairs_map(
                                dec_record(t).unwrap().0,
                            )
                            &&& final(self).recs()[sid.0].longterm == dec_record(t).unwrap().1
                        }))
                    &&& (!is_new && !old(self).recs().contains_key(sid.0) && old(self).persists()
                        && old(self).db().contains_key(
                        key_text(id_chars(sid.0), old(self).table()),
                    ) && old(self).plain() ==> {
                        let stored = old(self).db()[key_text(
                            id_chars(sid.0),
                            old(self).table(),
                        )].0;
                        &&& dec_record(stored) is Some
                        &&& final(self).recs()[sid.0].data@ == pairs_map(
                            dec_record(stored).unwrap().0,
                        )
                        &&& final(self).recs()[sid.0].longterm == dec_record(stored).unwrap().1
                    })
                },
                Err(_) => final(self).recs() == old(self).recs(),
            },
            candidate is Some && !old(self).has_client() ==> r is Ok,
    {
        let (sid, is_new) = match self.resolve_or_create(candidate) {
            Ok(v) => v,
            Err(e) => {
                return Err(e);
            },
        };
        let id = sid.0;
        let manual = self.config.session_mode.is_manual();
        if is_new && !manual {
            let mut d = SessionData::new(id, storable, now, &self.config);
            d.reset_requests();
            self.records.insert(id, d);
            proof {
                assert(recs_agree_except(old(self).recs(), self.recs(), id));
            }
            return Ok((sid, is_new));
        }
        proof {
            self.records.lemma_wf_records();
        }
        match self.records.remove(id) {
            Some(mut d) => {
                d.service_clear(now, self.config.memory_lifespan, true);
                d.add_request();
                self.records.insert(id, d);
                proof {
                    assert(recs_agree_except(old(self).recs(), self.recs(), id));
                }
                Ok((sid, is_new))
            },
            None => {
                proof {
                    assert(self.recs() =~= old(self).recs());
                }
                if is_new {
                    return Ok((sid, is_new));
                }
                let loaded = match self.load_record(id, storable, now) {
                    Ok(v) => v,
                    Err(e) => {
                        return Err(e);
                    },
                };
                let d = match loaded {
                    Some(d) => d,
                    None => {
                        let mut fresh = SessionData::new(id, storable, now, &self.config);
                        fresh.reset_requests();
                        fresh
                    },
                };
                self.records.insert(id, d);
                proof {
                    assert(recs_agree_except(old(self).recs(), self.recs(), id));
                }
                Ok((sid, is_new))
            },
        }
    }

    /// The outbound half of a request cycle, run after the request was
    /// handled: rotates the identifier when requested, flushes the record
    /// through the storage policy, detaches this request, and evicts the
    /// record when this cycle has finished with it. Returns the final
    /// identifier with the destroy and storable flags for whoever manages
    /// the client-visible token.
    pub fn finish_request(&mut self, id: u128, now: i64) -> (r: Result<
        (SessionID, bool, bool),
        SessionError,
    >)
        requires
            old(self).wf(),
        ensures
            final(self).wf(),
            old(self).same_setup(final(self)),
            final(self).next_memory_sweep() == old(self).next_memory_sweep(),
            final(self).next_storage_sweep() == old(self).next_storage_sweep(),
            match r {
                Ok((sid, destroy, storable)) => {
                    &&& destroy == (old(self).recs().contains_key(id)
                        && old(self).recs()[id].destroy)
                    &&& storable == (old(self).recs().contains_key(id)
                        && old(self).recs()[id].store)
                    &&& (destroy ==> sid.0 == id)
                    &&& (destroy && old(self).persists() ==> !final(self).db().contains_key(
                        key_text(id_chars(id), old(self).table()),
                    ))
                    &&& (old(self).cfg().memory_lifespan == 0 ==> (final(self).recs().contains_key(sid.0) ==> final(self).recs()[sid.0].requests >= 1))
                },
                Err(_) => true,
            },
            forall|j: u128|
                j != id && #[trigger] old(self).recs().contains_key(j) ==> final(self).recs().contains_key(j) && final(self).recs()[j] == old(self).recs()[j],
            !old(self).has_client() && old(self).plain() && !(old(self).recs().contains_key(id)
                && old(self).recs()[id].renew) ==> r is Ok,
            r is Ok && old(self).recs().contains_key(id) && !old(self).recs()[id].renew
                && !flush_skips(old(self).recs()[id], old(self).cfg().session_mode) && old(self).db().contains_key(key_text(id_chars(id), old(self).table())) ==> final(self).db().contains_key(key_text(id_chars(id), old(self).table())),
            r is Ok && old(self).recs().contains_key(id) && !old(self).recs()[id].renew
                && flush_writes(old(self).recs()[id], old(self).cfg(), now as int) && old(self).persists() ==> {
                let key = key_text(id_chars(id), old(self).table());
                let d = old(self).recs()[id];
                &&& final(self).db().contains_key(key)
                &&& (old(self).plain() ==> final(self).db()[key].0 == enc_record(
                    d.data.entry_seq(),
                    d.longterm,
                ))
                &&& (old(self).crypto() matches Some(kb) ==> opens_to(
                    kb@,
                    id_chars(id),
                    final(self).db()[key].0,
                    enc_record(d.data.entry_seq(), d.longterm),
                ))
            },
    {
        proof {
            self.records.lemma_wf_records();
        }
        let (renew, storable, destroy, loaded) = match self.records.get(id) {
            Some(d) => (d.will_renew(), d.is_storable(), d.will_destroy(), true),
            None => (false, false, false, false),
        };
        let manual = self.config.session_mode.is_manual();
        let mut current = id;
        if !destroy && (!manual || loaded) && renew {
            match self.rotate(current) {
                Ok(sid) => {
                    current = sid.0;
                    proof {
                        assert forall|j: u128|
                            j != id && #[trigger] old(self).recs().contains_key(j) implies
                            self.recs().contains_key(j) && self.recs()[j] == old(self).recs()[j] by {
                            assert(j != current);
                        }
                    }
                },
                Err(SessionError::NoSession) => {},
                Err(e) => {
                    return Err(e);
                },
            }
        }
        proof {
            assert(current == id || !old(self).recs().contains_key(current));
        }
        let ghost mid1 = *self;
        if loaded {
            match self.flush(current, now) {
                Ok(_) => {},
                Err(e) => {
                    proof {
                        lemma_preserved_except(old(self).recs(), mid1.recs(), self.recs(), id, current);
                    }
                    return Err(e);
                },
            }
        }
        proof {
            lemma_preserved_except(old(self).recs(), mid1.recs(), self.recs(), id, current);
        }
        let ghost mid2 = *self;
        self.remove_request(current);
        proof {
            lemma_preserved_except(old(self).recs(), mid2.recs(), self.recs(), id, current);
        }
        let ghost mid3 = *self;
        match self.evict_if_unused(current) {
            Ok(_) => {},
            Err(e) => {
                proof {
                    lemma_preserved_except(old(self).recs(), mid3.recs(), self.recs(), id, current);
                }
                return Err(e);
            },
        }
        proof {
            lemma_preserved_except(old(self).recs(), mid3.recs(), self.recs(), id, current);
        }
        let ghost mid4 = *self;
        self.drop_transient(current);
        proof {
            lemma_preserved_except(old(self).recs(), mid4.recs(), self.recs(), id, current);
        }
        Ok((SessionID(current), destroy, storable))
    }
}

} // verus!

verus! {

impl<T: DatabasePool> SessionStore<T> {
    /// The configured storage policy.
    pub fn mode(&self) -> (r: SessionMode)
        ensures
            r == self.cfg().session_mode,
    {
        self.config.session_mode
    }
}

} // verus!

verus! {

impl<T: DatabasePool> SessionStore<T> {
    /// Checks that a session is held in memory and its persisted copy is
    /// not yet stale.
    pub fn verify(&self, id: u128, now: i64) -> (r: Result<(), SessionError>)
        requires
            self.wf(),
        ensures
            r is Ok <==> (self.recs().contains_key(id) && self.recs()[id].expires_at >= now),
    {
        match self.records.get(id) {
            Some(d) => {
                if d.is_expired(now) {
                    Err(SessionError::NoSession)
                } else {
                    Ok(())
                }
            },
            None => Err(SessionError::NoSession),
        }
    }

    /// Pushes the record's persisted deadline out by its configured
    /// lifespan, without touching the backend. Run this before forcing a
    /// database write.
    pub fn update_database_expires(&mut self, id: u128, now: i64) -> (r: Result<
        (),
        SessionError,
    >)
        requires
            old(self).wf(),
        ensures
            final(self).wf(),
            old(self).untouched_but_records(final(self)),
            r is Ok <==> old(self).recs().contains_key(id),
            old(self).recs().contains_key(id) ==> final(self).recs() == old(self).recs().insert(
                id,
                (SessionData {
                    expires_at: sat_add(
                        now as int,
                        (if old(self).recs()[id].longterm {
                            old(self).cfg().max_lifespan
                        } else {
                            old(self).cfg().lifespan
                        }) as int,
                    ) as i64,
                    update: true,
                    ..old(self).recs()[id]
                }),
            ),
            !old(self).recs().contains_key(id) ==> final(self).recs() == old(self).recs(),
    {
        proof {
            self.records.lemma_wf_records();
        }
        match self.records.remove(id) {
            Some(mut d) => {
                let lifespan = if d.is_longterm() {
                    self.config.max_lifespan
                } else {
                    self.config.lifespan
                };
                d.set_expiration(ts_add(now, lifespan));
                self.records.insert(id, d);
                proof {
                    assert(self.recs() =~= old(self).recs().insert(id, self.recs()[id]));
                }
                Ok(())
            },
            None => {
                proof {
                    assert(self.recs() =~= old(self).recs());
                }
                Err(SessionError::NoSession)
            },
        }
    }

    /// Pushes the record's in-memory deadline out by the configured memory
    /// lifespan.
    pub fn update_memory_expires(&mut self, id: u128, now: i64) -> (r: Result<(), SessionError>)
        requires
            old(self).wf(),
        ensures
            final(self).wf(),
            old(self).untouched_but_records(final(self)),
            r is Ok <==> old(self).recs().contains_key(id),
            old(self).recs().contains_key(id) ==> final(self).recs() == old(self).recs().insert(
                id,
                (SessionData {
                    autoremove_at: sat_add(
                        now as int,
                        old(self).cfg().memory_lifespan as int,
                    ) as i64,
                    update: true,
                    ..old(self).recs()[id]
                }),
            ),
            !old(self).recs().contains_key(id) ==> final(self).recs() == old(self).recs(),
    {
        proof {
            self.records.lemma_wf_records();
        }
        match self.records.remove(id) {
            Some(mut d) => {
                d.set_autoremove(ts_add(now, self.config.memory_lifespan));
                self.records.insert(id, d);
                proof {
                    assert(self.recs() =~= old(self).recs().insert(id, self.recs()[id]));
                }
                Ok(())
            },
            None => {
                proof {
                    assert(self.recs() =~= old(self).recs());
                }
                Err(SessionError::NoSession)
            },
        }
    }

    /// Writes the record through the backend right away, with its current
    /// deadline and flags untouched. Push the persisted deadline out first,
    /// or a storage sweep may drop the row again.
    pub fn force_database_update(&mut self, id: u128) -> (r: Result<(), SessionError>)
        requires
            old(self).wf(),
        ensures
            final(self).wf(),
            old(self).same_setup(final(self)),
            final(self).recs() == old(self).recs(),
            final(self).next_memory_sweep() == old(self).next_memory_sweep(),
            final(self).next_storage_sweep() == old(self).next_storage_sweep(),
            old(self).recs().contains_key(id) && !old(self).has_client() && old(self).plain()
                ==> r is Ok,
            !old(self).recs().contains_key(id) ==> final(self).db() == old(self).db() && r
                is Err,
            old(self).recs().contains_key(id) ==> ({
                let d = old(self).recs()[id];
                let key = key_text(id_chars(id), old(self).table());
                &&& (r is Ok && old(self).persists() ==> {
                    &&& final(self).db().contains_key(key)
                    &&& final(self).db()[key].1 == d.expires_at
                    &&& final(self).db().remove(key) == old(self).db().remove(key)
                    &&& (old(self).plain() ==> final(self).db()[key].0 == enc_record(
                        d.data.entry_seq(),
                        d.longterm,
                    ))
                    &&& (old(self).crypto() matches Some(kb) ==> opens_to(
                        kb@,
                        id_chars(id),
                        final(self).db()[key].0,
                        enc_record(d.data.entry_seq(), d.longterm),
                    ))
                })
                &&& (r is Ok && !old(self).persists() ==> final(self).db() == old(self).db())
                &&& (r is Err ==> final(self).db() == old(self).db())
            }),
    {
        proof {
            self.records.lemma_wf_records();
        }
        let (encoded, expires, longterm) = match self.records.get(id) {
            Some(d) => (encode_record(&d.data, d.is_longterm()), d.expires_at(), d.is_longterm()),
            None => {
                return Err(SessionError::NoSession);
            },
        };
        let text = id_text(id);
        let sealed = match seal(text.as_str(), encoded.as_str(), &self.crypto_key) {
            Some(s) => s,
            None => {
                return Err(SessionError::Encrypt);
            },
        };
        match &mut self.client {
            Some(c) => {
                match c.store(
                    text.as_str(),
                    sealed.as_str(),
                    expires,
                    self.config.table_name.as_str(),
                ) {
                    Ok(_) => {
                        proof {
                            if old(self).persists() {
                                let key = key_text(id_chars(id), old(self).table());
                                assert(final(self).db().remove(key) =~= old(self).db().remove(
                                    key,
                                ));
                            }
                        }
                        Ok(())
                    },
                    Err(e) => Err(SessionError::Database(e)),
                }
            },
            None => Ok(()),
        }
    }

    /// Removes the record from memory, unless a request still holds it. The
    /// filter and the backend keep the identifier.
    pub fn memory_remove_session(&mut self, id: u128) -> (r: Result<(), SessionError>)
        requires
            old(self).wf(),
        ensures
            final(self).wf(),
            old(self).untouched_but_records(final(self)),
            r is Ok,
            ({
                let held = old(self).recs().contains_key(id) && old(self).recs()[id].requests
                    >= 1;
                if held {
                    final(self).recs() == old(self).recs()
                } else {
                    final(self).recs() == old(self).recs().remove(id)
                }
            }),
    {
        proof {
            self.records.lemma_wf_records();
        }
        let held = match self.records.get(id) {
            Some(d) => d.is_parallel(),
            None => false,
        };
        if !held {
            let _ = self.records.remove(id);
        }
        proof {
            if old(self).recs().contains_key(id) && old(self).recs()[id].requests >= 1 {
            } else {
                assert(self.recs() =~= old(self).recs().remove(id));
            }
        }
        Ok(())
    }

    /// Deletes the session's persisted copy. Memory and the filter keep the
    /// identifier.
    pub fn database_remove_session(&mut self, id: u128) -> (r: Result<(), SessionError>)
        requires
            old(self).wf(),
        ensures
            final(self).wf(),
            old(self).same_setup(final(self)),
            final(self).recs() == old(self).recs(),
            final(self).next_memory_sweep() == old(self).next_memory_sweep(),
            final(self).next_storage_sweep() == old(self).next_storage_sweep(),
            r is Ok ==> final(self).db() == (if old(self).persists() {
                old(self).db().remove(key_text(id_chars(id), old(self).table()))
            } else {
                old(self).db()
            }),
            r is Err ==> final(self).db() == old(self).db(),
            !old(self).has_client() ==> r is Ok,
    {
        let text = id_text(id);
        match &mut self.client {
            Some(c) => match c.delete(text.as_str(), self.config.table_name.as_str()) {
                Ok(_) => Ok(()),
                Err(e) => Err(SessionError::Database(e)),
            },
            None => Ok(()),
        }
    }
}

} // verus!
