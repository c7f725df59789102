//! Texts, hexadecimal and maps with string keys.
use std::collections::BTreeMap;

use ce_pubsub::message::Attributes;
use ce_pubsub::strmap::{place_of, Place};
use ce_pubsub::text::{chars_of, decimal, len_bytes, space, starts_with, trim_range};
use ce_pubsub::Message;

#[test]
fn numerals_are_decimal() {
    for n in [0, 7, 10, 99, 100, 1_000_001, u64::MAX] {
        assert_eq!(decimal(n), n.to_string());
    }
}

#[test]
fn white_space_is_that_of_unicode() {
    for c in '\0'..=char::MAX {
        assert_eq!(space(c), c.is_whitespace(), "{c:?}");
    }
}

#[test]
fn trimming_drops_white_space_at_both_ends() {
    for s in ["", "  ", " a ", "a b", "\u{3000}x\u{a0}\t", "\u{200b}y"] {
        let chars = chars_of(s);
        let (a, b) = trim_range(&chars, 0, chars.len());
        assert_eq!(chars[a..b].iter().collect::<String>(), s.trim());
        assert_eq!(len_bytes(s), s.len());
    }
    assert!(starts_with("abc", "ab"));
    assert!(!starts_with("ab", "abc"));
}

#[test]
fn strings_are_ordered_by_their_bytes() {
    let texts = ["", "a", "aa", "b", "\u{e9}", "z", "\u{ffff}", "\u{10000}", "ab"];
    for a in texts {
        for b in texts {
            let expected = if a < b {
                Place::Before
            } else if a == b {
                Place::Same
            } else {
                Place::After
            };
            assert!(place_of(a, b) == expected, "{a:?} {b:?}");
        }
    }
}

#[test]
fn a_map_keeps_its_keys_in_order() {
    let mut map = Attributes::new();
    let mut reference: BTreeMap<String, String> = BTreeMap::new();
    let mut x = 12345u64;
    for i in 0..400 {
        x = x.wrapping_mul(6364136223846793005).wrapping_add(1442695040888963407);
        let key = format!("k{}", (x >> 33) % 60);
        if x % 3 == 0 {
            assert_eq!(map.remove(&key), reference.remove(&key));
        } else {
            let value = format!("v{i}");
            assert_eq!(map.insert(key.clone(), value.clone()), reference.insert(key, value));
        }
        assert_eq!(map.len(), reference.len());
        assert_eq!(map.is_empty(), reference.is_empty());
        assert_eq!(map.keys(), reference.keys().cloned().collect::<Vec<_>>());
    }
    for (i, (k, v)) in reference.iter().enumerate() {
        assert!(map.contains_key(k));
        assert_eq!(map.get(k), Some(v));
        assert_eq!(map.entry(i), (k.as_str(), v));
    }
    assert_eq!(map.clone(), map);
    assert!(map.get("absent").is_none());
}

#[test]
fn payloads_round_trip_through_hex() {
    let mut payload = Vec::new();
    for b in 0..=255u8 {
        payload.push(b);
        let m = Message::new(1, "n", &payload, 1);
        assert_eq!(m.payload_hex, hex::encode(&payload));
        assert_eq!(m.data().unwrap(), payload);
    }
}
