use session_cache::{
    current_timestamp, random_u128, DatabaseError, DatabasePool, SessionConfig, SessionData,
    SessionMemoryPool, SessionMode, SessionNullPool, SessionStore,
};

const NOW: i64 = 1_700_000_000;

fn store_with_memory(config: SessionConfig) -> SessionStore<SessionMemoryPool> {
    SessionStore::new(Some(SessionMemoryPool::new()), config, None, NOW)
}

fn store_in_memory_only(config: SessionConfig) -> SessionStore<SessionNullPool> {
    SessionStore::new(Some(SessionNullPool), config, None, NOW)
}

#[test]
fn resolve_keeps_a_candidate_and_generates_otherwise() {
    let mut store = store_in_memory_only(SessionConfig::default());
    let (sid, is_new) = store.resolve_or_create(Some(42)).unwrap();
    assert_eq!(sid.0, 42);
    assert!(!is_new);
    let (a, new_a) = store.resolve_or_create(None).unwrap();
    let (b, new_b) = store.resolve_or_create(None).unwrap();
    assert!(new_a && new_b);
    assert_ne!(a.0, b.0);
}

#[test]
fn prepare_attaches_a_record_and_get_set_work() {
    let mut store = store_with_memory(SessionConfig::default());
    let (sid, is_new) = store.prepare_request(None, true, NOW).unwrap();
    assert!(is_new);
    let id = sid.0;
    assert!(store.data_exists(id));
    assert!(store.get(id, "user").is_none());
    store.set(id, "user".to_string(), "7".to_string());
    assert_eq!(store.get(id, "user").unwrap(), "7");
    store.remove(id, "user");
    assert!(store.get(id, "user").is_none());
}

#[test]
fn get_returns_none_for_text_that_does_not_parse() {
    let mut store = store_in_memory_only(SessionConfig::default());
    let (sid, _) = store.prepare_request(None, true, NOW).unwrap();
    store.set(sid.0, "bad".to_string(), "not json at all {".to_string());
    assert!(store.get(sid.0, "bad").is_none());
    store.set(sid.0, "good".to_string(), "[1,2]".to_string());
    assert_eq!(store.get(sid.0, "good").unwrap(), "[1,2]");
}

#[test]
fn get_and_remove_hands_the_value_back_once() {
    let mut store = store_in_memory_only(SessionConfig::default());
    let (sid, _) = store.prepare_request(None, true, NOW).unwrap();
    store.set(sid.0, "k".to_string(), "5".to_string());
    assert_eq!(store.get_and_remove(sid.0, "k").unwrap(), "5");
    assert!(store.get_and_remove(sid.0, "k").is_none());
}

#[test]
fn flush_persists_and_survives_memory_loss() {
    let mut store = store_with_memory(SessionConfig::default());
    let (sid, _) = store.prepare_request(None, true, NOW).unwrap();
    let id = sid.0;
    store.set(id, "user".to_string(), "9".to_string());
    store.mark_longterm(id, true);
    store.finish_request(id, NOW).unwrap();
    assert_eq!(store.count().unwrap(), 1);
    // second request cycle for the same identifier, after the memory sweep
    store.sweep_memory(i64::MAX - 1);
    assert!(!store.data_exists(id));
    let (sid2, is_new) = store.prepare_request(Some(id), true, NOW).unwrap();
    assert_eq!(sid2.0, id);
    assert!(!is_new);
    assert_eq!(store.get(id, "user").unwrap(), "9");
}

#[test]
fn destroy_then_flush_purges_the_persisted_copy() {
    let mut store = store_with_memory(SessionConfig::default());
    let (sid, _) = store.prepare_request(None, true, NOW).unwrap();
    let id = sid.0;
    store.set(id, "user".to_string(), "1".to_string());
    store.flush(id, NOW).unwrap();
    assert_eq!(store.count().unwrap(), 1);
    store.mark_destroy(id);
    store.flush(id, NOW).unwrap();
    assert_eq!(store.count().unwrap(), 0);
    // a fresh record under the same identifier is no longer backed by the
    // old payload
    store.remove_request(id);
    store.evict_if_unused(id).unwrap();
    assert!(!store.data_exists(id));
    let (_, is_new) = store.prepare_request(Some(id), true, NOW).unwrap();
    assert!(!is_new);
    assert!(store.get(id, "user").is_none());
}

#[test]
fn rotation_moves_the_record_and_deletes_the_old_persisted_copy() {
    let mut store = store_with_memory(SessionConfig::default());
    let (sid, _) = store.prepare_request(None, true, NOW).unwrap();
    let old_id = sid.0;
    store.set(old_id, "user".to_string(), "3".to_string());
    store.flush(old_id, NOW).unwrap();
    assert_eq!(store.count().unwrap(), 1);
    store.mark_renew(old_id);
    let new_sid = store.rotate(old_id).unwrap();
    let new_id = new_sid.0;
    assert_ne!(new_id, old_id);
    assert!(!store.data_exists(old_id));
    assert!(store.data_exists(new_id));
    assert_eq!(store.get(new_id, "user").unwrap(), "3");
    // the old persisted copy is gone (the new one is not written yet)
    assert_eq!(store.count().unwrap(), 0);
    // a rotate without the renew flag is refused and changes nothing
    assert!(store.rotate(new_id).is_err());
    assert!(store.data_exists(new_id));
}

#[test]
fn initiate_twice_changes_nothing() {
    let mut store = store_with_memory(SessionConfig::default());
    store.initiate().unwrap();
    let (sid, _) = store.prepare_request(None, true, NOW).unwrap();
    store.set(sid.0, "k".to_string(), "1".to_string());
    store.flush(sid.0, NOW).unwrap();
    assert_eq!(store.count().unwrap(), 1);
    store.initiate().unwrap();
    store.initiate().unwrap();
    assert_eq!(store.count().unwrap(), 1);
    assert_eq!(store.get(sid.0, "k").unwrap(), "1");
}

#[test]
fn zero_memory_lifespan_ends_each_cycle_with_an_empty_map() {
    let mut config = SessionConfig::default();
    config.memory_lifespan = 0;
    let mut store = store_with_memory(config);
    let (sid, _) = store.prepare_request(None, true, NOW).unwrap();
    let id = sid.0;
    store.set(id, "user".to_string(), "4".to_string());
    store.finish_request(id, NOW).unwrap();
    // the record left memory, but storage retains it
    assert!(!store.data_exists(id));
    assert_eq!(store.count().unwrap(), 1);
    let (sid2, is_new) = store.prepare_request(Some(id), true, NOW).unwrap();
    assert!(!is_new);
    assert_eq!(store.get(sid2.0, "user").unwrap(), "4");
}

#[test]
fn optin_without_storable_skips_storage_and_evicts() {
    let mut config = SessionConfig::default();
    config.session_mode = SessionMode::OptIn;
    let mut store = store_with_memory(config);
    let (sid, _) = store.prepare_request(None, false, NOW).unwrap();
    let id = sid.0;
    store.set(id, "user".to_string(), "2".to_string());
    store.finish_request(id, NOW).unwrap();
    assert_eq!(store.count().unwrap(), 0);
    assert!(!store.data_exists(id));
}

#[test]
fn parallel_requests_protect_the_record_until_the_last_detaches() {
    let mut store = store_with_memory(SessionConfig::default());
    let (sid, _) = store.prepare_request(None, true, NOW).unwrap();
    let id = sid.0;
    // a second concurrent request attaches to the same identifier
    let (sid2, is_new) = store.prepare_request(Some(id), true, NOW).unwrap();
    assert_eq!(sid2.0, id);
    assert!(!is_new);
    assert!(store.is_parallel(id));
    store.mark_destroy(id);
    store.finish_request(id, NOW).unwrap();
    // one request still holds it: no eviction yet
    assert!(store.data_exists(id));
    store.finish_request(id, NOW).unwrap();
    assert!(!store.data_exists(id));
}

#[test]
fn parallel_record_survives_the_memory_sweep() {
    let mut store = store_in_memory_only(SessionConfig::default());
    let (sid, _) = store.prepare_request(None, true, NOW).unwrap();
    let id = sid.0;
    // every memory deadline has passed, but the record is held
    store.sweep_memory(NOW + 10_000);
    assert!(store.data_exists(id));
    store.remove_request(id);
    store.sweep_memory(NOW + 20_000);
    assert!(!store.data_exists(id));
}

#[test]
fn storage_sweep_purges_expired_rows() {
    let mut config = SessionConfig::default();
    config.lifespan = 10;
    let mut store = store_with_memory(config);
    let (sid, _) = store.prepare_request(None, true, NOW).unwrap();
    store.set(sid.0, "k".to_string(), "1".to_string());
    store.flush(sid.0, NOW).unwrap();
    assert_eq!(store.count().unwrap(), 1);
    // well past the persisted deadline, the sweep removes the row
    store.sweep_storage(NOW + 100).unwrap();
    assert_eq!(store.count().unwrap(), 0);
}

#[test]
fn manual_mode_creates_records_only_on_request() {
    let mut config = SessionConfig::default();
    config.session_mode = SessionMode::Manual;
    let mut store = store_in_memory_only(config);
    let (sid, is_new) = store.prepare_request(None, false, NOW).unwrap();
    assert!(is_new);
    assert!(!store.data_exists(sid.0));
    store.create_data(sid.0, NOW);
    assert!(store.data_exists(sid.0));
}

#[test]
fn encrypted_payloads_round_trip_through_storage() {
    let key_bytes = [42u8; 64];
    let key = cookie::Key::from(&key_bytes).encryption().to_vec();
    let mut config = SessionConfig::default();
    config.memory_lifespan = 0;
    let mut store: SessionStore<SessionMemoryPool> =
        SessionStore::new(Some(SessionMemoryPool::new()), config, Some(key), NOW);
    let (sid, _) = store.prepare_request(None, true, NOW).unwrap();
    let id = sid.0;
    store.set(id, "secret".to_string(), "12".to_string());
    store.finish_request(id, NOW).unwrap();
    assert!(!store.data_exists(id));
    assert_eq!(store.count().unwrap(), 1);
    let (_, is_new) = store.prepare_request(Some(id), true, NOW).unwrap();
    assert!(!is_new);
    assert_eq!(store.get(id, "secret").unwrap(), "12");
}

#[test]
fn a_record_that_does_not_decode_is_a_hard_error() {
    let mut pool = SessionMemoryPool::new();
    // seed the backend under the text the store will ask for
    let id: u128 = 7;
    let text = session_cache::id_text(id);
    pool.store(text.as_str(), "this is not a record", NOW + 3600, "").unwrap();
    let mut store: SessionStore<SessionMemoryPool> =
        SessionStore::new(Some(pool), SessionConfig::default(), None, NOW);
    let err = store.prepare_request(Some(id), true, NOW).unwrap_err();
    assert!(matches!(err, session_cache::SessionError::Decode));
}

#[test]
fn database_error_messages_carry_their_text() {
    let e = DatabaseError::GenericAcquire("no connection".to_string());
    assert_eq!(e.message(), "no connection");
    let e = DatabaseError::GenericNotSupportedError("nope".to_string());
    assert_eq!(e.message(), "nope");
}

#[test]
fn session_record_flags_behave() {
    let config = SessionConfig::default();
    let mut d = SessionData::new(1, true, NOW, &config);
    assert!(!d.will_destroy());
    d.destroy();
    assert!(d.will_destroy());
    assert!(!d.will_renew());
    d.renew();
    assert!(d.will_renew());
    d.prevent_renew();
    assert!(!d.will_renew());
    d.prevent_update();
    assert!(!d.will_update());
    d.set_longterm(true);
    assert!(d.is_longterm());
    assert!(d.will_update());
    assert!(!d.is_parallel());
    d.add_request();
    d.add_request();
    assert!(d.is_parallel());
    d.remove_request();
    d.remove_request();
    assert!(!d.is_parallel());
    d.remove_request();
    assert!(!d.is_parallel());
    d.reset_requests();
    assert!(d.is_parallel());
}

#[test]
fn removing_an_absent_key_does_not_mark_the_record_dirty() {
    let config = SessionConfig::default();
    let mut d = SessionData::new(1, true, NOW, &config);
    d.prevent_update();
    assert!(d.get_remove("missing").is_none());
    assert!(!d.will_update());
    d.set("k".to_string(), "1".to_string());
    d.prevent_update();
    assert_eq!(d.get_remove("k").unwrap(), "1");
    assert!(d.will_update());
}

#[test]
fn null_pool_persists_nothing() {
    let mut store = store_in_memory_only(SessionConfig::default());
    let (sid, _) = store.prepare_request(None, true, NOW).unwrap();
    store.set(sid.0, "k".to_string(), "1".to_string());
    store.finish_request(sid.0, NOW).unwrap();
    // counting falls back to nothing persisted
    assert_eq!(store.count().unwrap(), 0);
}

#[test]
fn clock_and_randomness_wrappers_yield_plausible_values() {
    assert!(current_timestamp() > 1_600_000_000);
    let a = random_u128();
    let b = random_u128();
    assert_ne!(a, b);
}

#[test]
fn forced_updates_and_targeted_removals() {
    let mut store = store_with_memory(SessionConfig::default());
    let (sid, _) = store.prepare_request(None, true, NOW).unwrap();
    let id = sid.0;
    store.set(id, "k".to_string(), "8".to_string());
    assert!(store.verify(id, NOW).is_ok());
    assert!(store.verify(id, NOW + 30_000).is_err());
    store.update_database_expires(id, NOW + 10_000).unwrap();
    assert!(store.verify(id, NOW + 30_000).is_ok());
    store.force_database_update(id).unwrap();
    assert_eq!(store.count().unwrap(), 1);
    store.database_remove_session(id).unwrap();
    assert_eq!(store.count().unwrap(), 0);
    // still held by the request, so memory keeps it
    store.memory_remove_session(id).unwrap();
    assert!(store.data_exists(id));
    store.remove_request(id);
    store.memory_remove_session(id).unwrap();
    assert!(!store.data_exists(id));
    assert!(store.update_memory_expires(id, NOW).is_err());
}

#[test]
fn a_sealed_record_that_does_not_open_is_a_hard_error() {
    let id: u128 = 9;
    let text = session_cache::id_text(id);
    let mut pool = SessionMemoryPool::new();
    pool.store(text.as_str(), "definitely not ciphertext", NOW + 3600, "").unwrap();
    let key_bytes = [1u8; 64];
    let key = cookie::Key::from(&key_bytes).encryption().to_vec();
    let mut store: SessionStore<SessionMemoryPool> =
        SessionStore::new(Some(pool), SessionConfig::default(), Some(key), NOW);
    let err = store.prepare_request(Some(id), true, NOW).unwrap_err();
    assert!(matches!(err, session_cache::SessionError::Decrypt));
}

#[test]
fn rotate_without_the_renew_flag_reports_no_session() {
    let mut store = store_in_memory_only(SessionConfig::default());
    let (sid, _) = store.prepare_request(None, true, NOW).unwrap();
    let err = store.rotate(sid.0).unwrap_err();
    assert!(matches!(err, session_cache::SessionError::NoSession));
}

#[test]
fn deadlines_saturate_at_the_representable_ends() {
    let config = SessionConfig::default();
    let d = SessionData::new(1, true, i64::MAX - 1, &config);
    assert_eq!(d.expires_at(), i64::MAX);
    assert_eq!(d.autoremove_at(), i64::MAX);
    let e = SessionData::new(2, true, i64::MIN, &config);
    assert_eq!(e.expires_at(), i64::MIN + config.lifespan);
}
