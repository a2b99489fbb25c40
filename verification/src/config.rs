//! Configuration consumed by the session store: lifespans, sweep intervals,
//! the storage policy mode, and the namespace.
//!
//! All instants and spans are whole seconds of Unix time, signed so that a
//! span can reach back in time (a zero or negative persisted lifespan makes a
//! record expire at once).

use vstd::prelude::*;

verus! {

/// Saturating sum of two timestamps/spans.
pub open spec fn sat_add(a: int, b: int) -> int {
    if a + b > i64::MAX {
        i64::MAX as int
    } else if a + b < i64::MIN {
        i64::MIN as int
    } else {
        a + b
    }
}

/// Adds a span to an instant, clamping at the representable ends.
pub fn ts_add(a: i64, b: i64) -> (r: i64)
    ensures
        r == sat_add(a as int, b as int),
{
    match a.checked_add(b) {
        Some(v) => v,
        None => {
            if a < 0 {
                i64::MIN
            } else {
                i64::MAX
            }
        },
    }
}

/// When records are persisted: always, only when a record opted in as
/// storable, or only for records created by hand.
#[derive(Clone, Copy, PartialEq, Eq, Structural, Debug)]
pub enum SessionMode {
    /// Every session is persisted and its record is created automatically.
    Always,
    /// Records are created automatically but persisted only when flagged
    /// storable.
    OptIn,
    /// Records are created only on request and persisted only when flagged
    /// storable.
    Manual,
}

impl SessionMode {
    pub fn is_manual(&self) -> (r: bool)
        ensures
            r == (*self == SessionMode::Manual),
    {
        matches!(self, SessionMode::Manual)
    }

    pub fn is_opt_in(&self) -> (r: bool)
        ensures
            r == (*self == SessionMode::OptIn),
    {
        matches!(self, SessionMode::OptIn)
    }

    /// Whether persistence requires the record's storable flag: true for the
    /// opt-in and manual modes.
    pub fn needs_storable(&self) -> (r: bool)
        ensures
            r == (*self == SessionMode::OptIn || *self == SessionMode::Manual),
    {
        matches!(self, SessionMode::OptIn | SessionMode::Manual)
    }
}

/// The configuration surface of the session store.
pub struct SessionConfig {
    /// Persisted lifespan of an ordinary session, in seconds.
    pub lifespan: i64,
    /// Persisted lifespan of a long-term ("remember me") session, in seconds.
    pub max_lifespan: i64,
    /// How long an untouched record may stay in memory, in seconds. Zero
    /// means a record lives only for the request that loaded it.
    pub memory_lifespan: i64,
    /// Throttle between two memory sweeps, in seconds.
    pub purge_update: i64,
    /// Throttle between two storage sweeps, in seconds.
    pub purge_database_update: i64,
    /// The storage policy.
    pub session_mode: SessionMode,
    /// Whether the membership filter is consulted at all.
    pub use_bloom_filters: bool,
    /// Whether a flush writes even when the record is not dirty.
    pub always_save: bool,
    /// Namespace under which this store's records are persisted.
    pub table_name: String,
}

pub const DEFAULT_LIFESPAN: i64 = 21600;

pub const DEFAULT_MAX_LIFESPAN: i64 = 5184000;

pub const DEFAULT_MEMORY_LIFESPAN: i64 = 3600;

pub const DEFAULT_PURGE_UPDATE: i64 = 3600;

pub const DEFAULT_PURGE_DATABASE_UPDATE: i64 = 21600;

impl Default for SessionConfig {
    /// Six-hour persisted lifespan, sixty-day long-term lifespan, one-hour
    /// memory lifespan and memory sweep, six-hour storage sweep, always-store
    /// policy, filter enabled, no unconditional saving, empty namespace.
    fn default() -> (r: SessionConfig)
        ensures
            r.lifespan == DEFAULT_LIFESPAN,
            r.max_lifespan == DEFAULT_MAX_LIFESPAN,
            r.memory_lifespan == DEFAULT_MEMORY_LIFESPAN,
            r.purge_update == DEFAULT_PURGE_UPDATE,
            r.purge_database_update == DEFAULT_PURGE_DATABASE_UPDATE,
            r.session_mode == SessionMode::Always,
            r.use_bloom_filters,
            !r.always_save,
            r.table_name@ == Seq::<char>::empty(),
    {
        SessionConfig {
            lifespan: DEFAULT_LIFESPAN,
            max_lifespan: DEFAULT_MAX_LIFESPAN,
            memory_lifespan: DEFAULT_MEMORY_LIFESPAN,
            purge_update: DEFAULT_PURGE_UPDATE,
            purge_database_update: DEFAULT_PURGE_DATABASE_UPDATE,
            session_mode: SessionMode::Always,
            use_bloom_filters: true,
            always_save: false,
            table_name: String::new(),
        }
    }
}

} // verus!
