//! Store-wide laws: properties that span several operations, stated over the
//! same views the operations' own contracts use.

use vstd::prelude::*;

use crate::codec::{dec_record, enc_record, lemma_record_round_trip};
use crate::config::{SessionConfig, SessionMode};
use crate::crypt::{lemma_sealed_round_trip, opens_to};
use crate::database::DatabasePool;
use crate::ids::{id_chars, key_text};
use crate::record::SessionData;
use crate::store::{flush_skips, flush_writes, SessionStore};
use crate::strmap::{lemma_strmap_view_is_pairs, pairs_map, StrMap};

verus! {

/// Identifier uniqueness under generation: an identifier that is still live
/// — held in the record map, or persisted while generation can see storage
/// (any setup short of a natively-expiring backend, where the unverified
/// filter alone decides) — is never handed out again, since generation only
/// returns identifiers absent from both.
pub proof fn lemma_unique_while_live<T: DatabasePool>(s: SessionStore<T>, live: u128, fresh: u128)
    requires
        s.recs().contains_key(live) || (!(s.persists() && s.auto_expiry())
            && s.db().contains_key(key_text(id_chars(live), s.table()))),
        !s.recs().contains_key(fresh),
        !(s.persists() && s.auto_expiry()) ==> !s.db().contains_key(
            key_text(id_chars(fresh), s.table()),
        ),
    ensures
        live != fresh,
{
}

/// Destruction dominates every other flag at flush time: a record marked
/// destroyed always takes the deleting branch and is never written, even
/// when it is also dirty or unconditional saving is configured.
pub proof fn lemma_destroy_dominates(d: SessionData, cfg: SessionConfig, now: int)
    requires
        d.destroy,
    ensures
        flush_skips(d, cfg.session_mode),
        !flush_writes(d, cfg, now),
{
}

/// Setting destroy and then flushing purges the persisted copy: in the state
/// a successful flush of a destroyed record leaves behind, the backend no
/// longer holds the identifier, so a subsequent load finds nothing.
pub proof fn lemma_destroy_flush_load_absent<T: DatabasePool>(
    pre: SessionStore<T>,
    post: SessionStore<T>,
    id: u128,
)
    requires
        pre.persists(),
        pre.recs().contains_key(id),
        pre.recs()[id].destroy,
        post.db() == pre.db().remove(key_text(id_chars(id), pre.table())),
    ensures
        !post.db().contains_key(key_text(id_chars(id), pre.table())),
{
}

/// The payload round trip: writing a payload mapping and the long-term flag
/// and reading the text back yields exactly that mapping and flag, whichever
/// wire representation carried the text.
pub proof fn lemma_payload_round_trip(m: &StrMap, longterm: bool)
    requires
        m.wf(),
    ensures
        dec_record(enc_record(m.entry_seq(), longterm)) is Some,
        pairs_map(dec_record(enc_record(m.entry_seq(), longterm)).unwrap().0) == m@,
        dec_record(enc_record(m.entry_seq(), longterm)).unwrap().1 == longterm,
{
    lemma_record_round_trip(m.entry_seq(), longterm);
    lemma_strmap_view_is_pairs(m);
}

/// The encrypted payload round trip: a flush under a key leaves a stored
/// value that opens to the written record text, and a reload reconstructs
/// its payload from a text the same value opens to — which is the same
/// text, so the reloaded payload and long-term flag are the written ones.
pub proof fn lemma_encrypted_round_trip(
    kb: Seq<u8>,
    id: u128,
    stored: Seq<char>,
    m: &StrMap,
    longterm: bool,
    t: Seq<char>,
)
    requires
        m.wf(),
        opens_to(kb, id_chars(id), stored, enc_record(m.entry_seq(), longterm)),
        opens_to(kb, id_chars(id), stored, t),
    ensures
        dec_record(t) is Some,
        pairs_map(dec_record(t).unwrap().0) == m@,
        dec_record(t).unwrap().1 == longterm,
{
    lemma_sealed_round_trip(kb, id_chars(id), stored, enc_record(m.entry_seq(), longterm), t);
    lemma_payload_round_trip(m, longterm);
}

/// Removing a payload key is idempotent: removing an absent key changes
/// nothing, so a second removal has no effect beyond the first.
pub proof fn lemma_remove_idempotent(m: Map<Seq<char>, Seq<char>>, k: Seq<char>)
    ensures
        m.remove(k).remove(k) == m.remove(k),
        !m.contains_key(k) ==> m.remove(k) == m,
{
    assert(m.remove(k).remove(k) =~= m.remove(k));
    if !m.contains_key(k) {
        assert(m.remove(k) =~= m);
    }
}

/// A record held by at least one request survives any memory sweep with its
/// state intact, regardless of its memory deadline.
pub proof fn lemma_parallel_record_survives_sweep(
    m: Map<u128, SessionData>,
    id: u128,
    now: int,
)
    requires
        m.contains_key(id),
        m[id].requests >= 1,
    ensures
        m.remove_keys(crate::recordmap::sweep_victims(m, now)).contains_key(id),
        m.remove_keys(crate::recordmap::sweep_victims(m, now))[id] == m[id],
{
    assert(!crate::recordmap::sweep_victims(m, now).contains(id));
}

/// Under the opt-in policy, a record that did not opt in and is not marked
/// destroyed is skipped by the flush (nothing is written) and evicted once
/// no request holds it.
pub proof fn lemma_optin_unstorable_skips_and_evicts(d: SessionData, cfg: SessionConfig, now: int)
    requires
        cfg.session_mode == SessionMode::OptIn,
        !d.store,
        d.requests == 0,
    ensures
        flush_skips(d, cfg.session_mode),
        !flush_writes(d, cfg, now),
        crate::store::evict_due(d, cfg.session_mode),
{
}

} // verus!
