use session_cache::{
    decode_record, encode_record, id_text, key, seal, str_eq, unseal, MemberFilter, StrMap,
};

fn map_of(pairs: &[(&str, &str)]) -> StrMap {
    let mut m = StrMap::new();
    for (k, v) in pairs {
        m.insert(k.to_string(), v.to_string());
    }
    m
}

#[test]
fn encode_empty_record() {
    let m = StrMap::new();
    assert_eq!(encode_record(&m, false), "{\"data\":{},\"longterm\":false}");
    assert_eq!(encode_record(&m, true), "{\"data\":{},\"longterm\":true}");
}

#[test]
fn encode_one_entry() {
    let m = map_of(&[("user", "1")]);
    assert_eq!(encode_record(&m, false), "{\"data\":{\"user\":\"1\"},\"longterm\":false}");
}

#[test]
fn encode_escapes_quotes_backslashes_and_controls() {
    let m = map_of(&[("k", "a\"b\\c\nd")]);
    assert_eq!(
        encode_record(&m, false),
        "{\"data\":{\"k\":\"a\\\"b\\\\c\\u000ad\"},\"longterm\":false}"
    );
}

#[test]
fn round_trip_plain() {
    let m = map_of(&[("user", "1"), ("name", "\"ann\"")]);
    let text = encode_record(&m, true);
    let (back, longterm) = decode_record(text.as_str()).expect("must decode");
    assert!(longterm);
    assert_eq!(back.len(), 2);
    assert_eq!(back.get("user").unwrap(), "1");
    assert_eq!(back.get("name").unwrap(), "\"ann\"");
}

#[test]
fn round_trip_special_characters() {
    let m = map_of(&[("quote\"key", "line\nbreak\ttab"), ("back\\slash", "uni\u{00e9}code")]);
    let text = encode_record(&m, false);
    let (back, longterm) = decode_record(text.as_str()).expect("must decode");
    assert!(!longterm);
    assert_eq!(back.get("quote\"key").unwrap(), "line\nbreak\ttab");
    assert_eq!(back.get("back\\slash").unwrap(), "uni\u{00e9}code");
}

#[test]
fn decode_accepts_short_escapes() {
    let text = "{\"data\":{\"k\":\"a\\nb\\tc\\\"d\\/e\"},\"longterm\":false}";
    let (back, _) = decode_record(text).expect("must decode");
    assert_eq!(back.get("k").unwrap(), "a\nb\tc\"d/e");
}

#[test]
fn decode_rejects_malformed_records() {
    assert!(decode_record("").is_none());
    assert!(decode_record("{}").is_none());
    assert!(decode_record("{\"data\":{},\"longterm\":false").is_none());
    assert!(decode_record("{\"data\":{},\"longterm\":maybe}").is_none());
    assert!(decode_record("{\"data\":{\"k\":1},\"longterm\":false}").is_none());
    assert!(decode_record("{\"data\":{},\"longterm\":false}trailing").is_none());
    assert!(decode_record("{\"data\":{\"k\":\"\\u0041\"},\"longterm\":false}").is_some());
    assert!(decode_record("{\"data\":{\"k\":\"\\uZZZZ\"},\"longterm\":false}").is_none());
}

#[test]
fn decode_later_duplicate_wins() {
    let text = "{\"data\":{\"k\":\"a\",\"k\":\"b\"},\"longterm\":false}";
    let (back, _) = decode_record(text).expect("must decode");
    assert_eq!(back.get("k").unwrap(), "b");
    assert_eq!(back.len(), 1);
}

#[test]
fn key_prefixing() {
    assert_eq!(key("abc", ""), "abc");
    assert_eq!(key("abc", "table"), "table:abc");
    assert_eq!(key("", "t"), "t:");
}

#[test]
fn id_text_formats_like_a_uuid() {
    assert_eq!(id_text(0), "00000000-0000-0000-0000-000000000000");
    assert_eq!(id_text(u128::MAX), "ffffffff-ffff-ffff-ffff-ffffffffffff");
    assert_eq!(id_text(0x0123456789abcdef0123456789abcdef), "01234567-89ab-cdef-0123-456789abcdef");
}

#[test]
fn str_eq_compares_contents() {
    assert!(str_eq("hello", "hello"));
    assert!(!str_eq("hello", "hellO"));
    assert!(!str_eq("hello", "hell"));
    assert!(str_eq("", ""));
}

#[test]
fn strmap_insert_get_remove() {
    let mut m = StrMap::new();
    assert!(m.get("a").is_none());
    m.insert("a".to_string(), "1".to_string());
    m.insert("b".to_string(), "2".to_string());
    assert_eq!(m.get("a").unwrap(), "1");
    m.insert("a".to_string(), "3".to_string());
    assert_eq!(m.get("a").unwrap(), "3");
    assert_eq!(m.len(), 2);
    assert_eq!(m.remove("a").unwrap(), "3");
    assert!(m.remove("a").is_none());
    assert!(m.remove("a").is_none());
    assert_eq!(m.len(), 1);
    assert!(m.contains_key("b"));
}

#[test]
fn strmap_merge_prefers_right() {
    let mut m = map_of(&[("a", "1"), ("b", "2")]);
    let other = map_of(&[("b", "9"), ("c", "3")]);
    m.merge(&other);
    assert_eq!(m.get("a").unwrap(), "1");
    assert_eq!(m.get("b").unwrap(), "9");
    assert_eq!(m.get("c").unwrap(), "3");
}

#[test]
fn filter_never_forgets_a_held_identifier() {
    let mut f = MemberFilter::new();
    assert!(!f.contains("alpha"));
    f.add("alpha");
    assert!(f.contains("alpha"));
    f.add("alpha");
    f.remove("alpha");
    assert!(f.contains("alpha"));
    f.remove("alpha");
    assert!(!f.contains("alpha"));
    f.add("beta");
    f.remove("never-added");
    assert!(f.contains("beta"));
}

#[test]
fn seal_without_key_is_identity() {
    let none: Option<Vec<u8>> = None;
    let sealed = seal("id", "payload", &none).unwrap();
    assert_eq!(sealed, "payload");
    assert_eq!(unseal("id", sealed.as_str(), &none).unwrap(), "payload");
}

#[test]
fn seal_with_key_round_trips_and_binds_to_the_identifier() {
    let key_bytes = [7u8; 64];
    let k = Some(cookie::Key::from(&key_bytes).encryption().to_vec());
    let sealed = seal("session-1", "secret text", &k).expect("sealing works");
    assert_ne!(sealed, "secret text");
    assert_eq!(unseal("session-1", sealed.as_str(), &k).unwrap(), "secret text");
    assert!(unseal("session-2", sealed.as_str(), &k).is_none());
    assert!(unseal("session-1", "00ff", &k).is_none());
    assert!(unseal("session-1", "not hex!", &k).is_none());
}

#[test]
fn round_trip_both_wire_representations() {
    let m = map_of(&[("a", "1")]);
    let text = encode_record(&m, false);
    let raw = session_cache::StoredAs::String(text.clone());
    let doc = session_cache::StoredAs::JsonValue(text.clone());
    for sa in [raw, doc] {
        let (back, longterm) = decode_record(sa.as_text().as_str()).expect("must decode");
        assert!(!longterm);
        assert_eq!(back.get("a").unwrap(), "1");
    }
}

#[test]
fn decodes_text_reserialized_by_a_document_store() {
    let v: serde_json::Value =
        serde_json::from_str("{\"data\":{\"k\":\"x\"},\"longterm\":true}").unwrap();
    let text = v.to_string();
    let (back, longterm) = decode_record(text.as_str()).expect("must decode");
    assert!(longterm);
    assert_eq!(back.get("k").unwrap(), "x");
}
