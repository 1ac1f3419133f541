use chord::kv_store::{key_position, keys_equal, pad_key, GetStatus, KvStore};
use chord::pow::{count_trailing_zero_bytes, PowToken, POW_TOKEN_LIVE_TIME};
use chord::ring::hash;

fn key(name: &str) -> [u8; 32] {
    pad_key(name.as_bytes()).unwrap()
}

#[test]
fn pad_key_right_pads_with_zeros() {
    let k = pad_key(b"hello").unwrap();
    assert_eq!(&k[..5], b"hello");
    assert!(k[5..].iter().all(|b| *b == 0));
    assert!(pad_key(&[1u8; 32]).is_some());
    assert!(pad_key(&[1u8; 33]).is_none());
    assert_eq!(pad_key(b"").unwrap(), [0u8; 32]);
}

#[test]
fn key_position_hashes_all_32_bytes() {
    let k = key("hello");
    assert_eq!(key_position(&k), hash(&k));
    assert_ne!(key_position(&k), hash(b"hello"));
    assert!(keys_equal(&k, &key("hello")));
    assert!(!keys_equal(&k, &key("hellp")));
}

#[test]
fn store_put_overwrites_and_get_reads() {
    let mut s = KvStore::new();
    assert_eq!(s.len(), 0);
    s.insert(key("a"), String::from("1"), 100);
    s.insert(key("b"), String::from("2"), 100);
    s.insert(key("a"), String::from("3"), 100);
    assert_eq!(s.len(), 2);
    assert_eq!(s.get(&key("a"), 50), (String::from("3"), GetStatus::Found));
    assert_eq!(s.get(&key("b"), 100), (String::from("2"), GetStatus::Found));
    assert_eq!(s.len(), 2);
}

#[test]
fn store_get_missing_is_not_found() {
    let mut s = KvStore::new();
    assert_eq!(s.get(&key("nope"), 0), (String::new(), GetStatus::NotFound));
}

#[test]
fn store_get_expired_evicts() {
    let mut s = KvStore::new();
    s.insert(key("k"), String::from("v"), 1001);
    assert_eq!(s.get(&key("k"), 1002), (String::from("v"), GetStatus::Expired));
    assert_eq!(s.len(), 0);
    assert_eq!(s.get(&key("k"), 1002), (String::new(), GetStatus::NotFound));
}

#[test]
fn store_remove() {
    let mut s = KvStore::new();
    s.insert(key("a"), String::from("1"), 7);
    let removed = s.remove(&key("a")).unwrap();
    assert_eq!(removed.value, "1");
    assert_eq!(removed.expiration, 7);
    assert!(s.remove(&key("a")).is_none());
    assert_eq!(s.len(), 0);
}

#[test]
fn store_pairs_in_arc_filters_by_key_position() {
    let mut s = KvStore::new();
    let names = ["a", "b", "c", "d", "e", "f", "g", "h"];
    for n in names.iter() {
        s.insert(key(n), n.to_string(), 9);
    }
    let lo = key_position(&key("a"));
    let hi = key_position(&key("e"));
    let picked = s.pairs_in_arc(lo, hi);
    for n in names.iter() {
        let p = key_position(&key(n));
        let inside = chord::ring::is_between(p, lo, hi, false, true);
        let found = picked.iter().any(|q| q.key == key(n));
        assert_eq!(inside, found, "{}", n);
    }
    assert!(picked.iter().any(|q| q.key == key("e")));
    assert!(!picked.iter().any(|q| q.key == key("a")));
    assert_eq!(s.len(), names.len());
    let all = s.pairs_in_arc(lo, lo);
    assert_eq!(all.len(), names.len());
}

#[test]
fn pow_generate_finds_first_valid_nonce() {
    let t = PowToken::generate(1, 1000, 100_000).unwrap();
    assert_eq!(t.nonce, 220);
    assert_eq!(t.digest(), 0x18bbd9f21a23b22ffed2259ea8ebc000);
    let t = PowToken::generate(2, 1000, 100_000).unwrap();
    assert_eq!(t.nonce, 1168);
    assert_eq!(count_trailing_zero_bytes(t.digest()), 2);
    assert!(PowToken::generate(2, 1000, 1168).is_none());
}

#[test]
fn pow_validate_checks_age_and_difficulty() {
    let t = PowToken { nonce: 1168, issued_at: 1000 };
    assert_eq!(t.validate(1000, POW_TOKEN_LIVE_TIME, 2), (false, true));
    assert_eq!(t.validate(1005, POW_TOKEN_LIVE_TIME, 2), (false, true));
    assert_eq!(t.validate(1006, POW_TOKEN_LIVE_TIME, 2), (true, true));
    assert_eq!(t.validate(1000, POW_TOKEN_LIVE_TIME, 3), (false, false));
    let bad = PowToken { nonce: 0, issued_at: 1000 };
    assert_eq!(bad.validate(1000, POW_TOKEN_LIVE_TIME, 1), (false, false));
}

#[test]
fn trailing_zero_bytes_counts() {
    assert_eq!(count_trailing_zero_bytes(0), 16);
    assert_eq!(count_trailing_zero_bytes(1), 0);
    assert_eq!(count_trailing_zero_bytes(0x100), 1);
    assert_eq!(count_trailing_zero_bytes(0xff_0000), 2);
}
