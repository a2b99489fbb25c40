//! A two-tier session cache: an in-memory record store backed optionally by a
//! pluggable persistent database, holding small per-client key/value records
//! across many requests.
//!
//! The core pieces are the per-session record ([`SessionData`]), the record
//! store and orchestrator ([`SessionStore`]), the storage contract
//! ([`DatabasePool`]) with an in-memory and a no-op backend, the probabilistic
//! membership filter used to avoid database round-trips, and the text codec
//! for the persisted record shape.

mod codec;
mod config;
mod crypt;
mod database;
mod errors;
mod filter;
mod ids;
mod laws;
mod memory;
mod record;
mod recordmap;
mod store;
mod strmap;

pub use codec::decode_record;
pub use codec::encode_record;
pub use config::SessionConfig;
pub use config::SessionMode;
pub use crypt::lemma_sealed_round_trip;
pub use crypt::seal;
pub use crypt::unseal;
pub use database::in_table;
pub use database::DatabasePool;
pub use database::SessionNullPool;
pub use database::StoredAs;
pub use errors::DatabaseError;
pub use errors::SessionError;
pub use filter::lemma_filter_no_false_negative;
pub use filter::MemberFilter;
pub use ids::current_timestamp;
pub use ids::id_text;
pub use ids::key;
pub use ids::random_u128;
pub use ids::SessionID;
pub use laws::lemma_destroy_dominates;
pub use laws::lemma_destroy_flush_load_absent;
pub use laws::lemma_encrypted_round_trip;
pub use laws::lemma_optin_unstorable_skips_and_evicts;
pub use laws::lemma_parallel_record_survives_sweep;
pub use laws::lemma_payload_round_trip;
pub use laws::lemma_remove_idempotent;
pub use laws::lemma_unique_while_live;
pub use memory::SessionMemoryPool;
pub use record::SessionData;
pub use store::SessionStore;
pub use store::SessionTimers;
pub use strmap::str_eq;
pub use strmap::StrMap;
