use barn::codec::{enc_i64, enc_pk, from_le_bytes};
use barn::double::{i64_double_bits, u64_double_bits};
use barn::index::Index;
use barn::json::JsonValue;
use barn::text::split;

#[test]
fn pk_keys_are_little_endian() {
    assert_eq!(enc_pk(1), vec![1, 0, 0, 0, 0, 0, 0, 0]);
    assert_eq!(enc_pk(0x0102030405060708), vec![8, 7, 6, 5, 4, 3, 2, 1]);
    assert_eq!(enc_i64(-1), vec![255; 8]);
    assert_eq!(enc_i64(i64::MIN), vec![0, 0, 0, 0, 0, 0, 0, 0x80]);
}

#[test]
fn from_le_bytes_reads_all_eight_bytes() {
    assert_eq!(from_le_bytes(&vec![0, 0, 0, 0, 0, 0, 0, 1]), 1u64 << 56);
    assert_eq!(from_le_bytes(&enc_pk(u64::MAX)), u64::MAX);
    assert_eq!(from_le_bytes(&vec![5, 0, 0, 0, 0, 0, 0, 0, 9]), 5);
}

fn index(t: &str, f: &str) -> Index {
    Index { name: "r_a".to_string(), unique: false, at_path: vec!["a".to_string()], val_type: t.to_string(), val_format: f.to_string() }
}

#[test]
fn index_keys_by_type() {
    let i = index("integer", "");
    assert_eq!(i.key_for(&JsonValue::Int(-2)), Ok(Some(enc_i64(-2))));
    assert_eq!(i.key_for(&JsonValue::UInt(7)), Ok(Some(enc_pk(7))));
    assert_eq!(i.key_for(&JsonValue::UInt(u64::MAX)), Ok(None));
    assert_eq!(i.key_for(&JsonValue::Str("7".to_string())), Ok(None));
    let n = index("number", "");
    assert_eq!(n.key_for(&JsonValue::Float(1.5f64.to_bits())), Ok(Some(1.5f64.to_le_bytes().to_vec())));
    assert_eq!(n.key_for(&JsonValue::Null), Ok(None));
    assert_eq!(n.key_for(&JsonValue::Int(-2)), Ok(Some((-2.0f64).to_le_bytes().to_vec())));
    assert_eq!(n.key_for(&JsonValue::UInt(u64::MAX)), Ok(Some((u64::MAX as f64).to_le_bytes().to_vec())));
    let s = index("string", "");
    assert_eq!(s.key_for(&JsonValue::Str("  Hello World \n".to_string())), Ok(Some(b"hello world".to_vec())));
    assert_eq!(s.key_for(&JsonValue::Str("ÄB".to_string())), Ok(Some("äb".as_bytes().to_vec())));
    let d = index("string", "date-time");
    assert_eq!(
        d.key_for(&JsonValue::Str("1970-01-01T00:00:01Z".to_string())),
        Ok(Some(1000i64.to_le_bytes().to_vec()))
    );
    assert_eq!(
        d.key_for(&JsonValue::Str("not a time".to_string())),
        Err(barn::errors::BarnError::InvalidAttributeValueError)
    );
    let day = index("string", "date");
    assert_eq!(day.key_for(&JsonValue::Str("1970-01-02".to_string())), Ok(Some(86400000i64.to_le_bytes().to_vec())));
    let b = index("boolean", "");
    assert_eq!(b.key_for(&JsonValue::Bool(true)), Err(barn::errors::BarnError::UnsupportedIndexValueType));
}

#[test]
fn split_keeps_empty_parts() {
    assert_eq!(split("a.b.c", '.'), vec!["a", "b", "c"]);
    assert_eq!(split("", '.'), vec![""]);
    assert_eq!(split(".x.", '.'), vec!["", "x", ""]);
}

#[test]
fn json_members_and_pointers() {
    let mut v = JsonValue::Object(vec![
        ("a".to_string(), JsonValue::Object(vec![("b".to_string(), JsonValue::Int(3))])),
        ("id".to_string(), JsonValue::Null),
    ]);
    assert!(matches!(v.pointer(&vec!["a".to_string(), "b".to_string()]), Some(JsonValue::Int(3))));
    assert!(v.pointer(&vec!["a".to_string(), "c".to_string()]).is_none());
    assert!(v.pointer(&vec!["id".to_string(), "x".to_string()]).is_none());
    assert!(v.set_member(&"id".to_string(), JsonValue::UInt(4)));
    assert!(!v.set_member(&"new".to_string(), JsonValue::Bool(true)));
    match &v {
        JsonValue::Object(es) => {
            let keys: Vec<&str> = es.iter().map(|e| e.0.as_str()).collect();
            assert_eq!(keys, vec!["a", "id", "new"]);
        }
        _ => panic!("not an object"),
    }
    assert!(matches!(v.get(&"id".to_string()), Some(JsonValue::UInt(4))));
}

#[test]
fn integer_doubles_match_rounding_to_nearest_even() {
    let mut samples: Vec<i64> = vec![
        0, 1, -1, 2, 3, 7, -7, 1000, 1 << 52, (1 << 53) - 1, 1 << 53, (1 << 53) + 1, (1 << 53) + 2,
        (1 << 53) + 3, (1 << 54) + 2, (1 << 54) + 6, i64::MAX, i64::MIN, i64::MIN + 1, -(1 << 53) - 1,
        123456789012345678, -987654321098765432,
    ];
    let mut x: i64 = 0x0123_4567_89ab_cdef;
    for _ in 0..2000 {
        x = x.wrapping_mul(6364136223846793005).wrapping_add(1442695040888963407);
        samples.push(x);
        samples.push(x >> (x as u64 % 63));
    }
    for i in samples {
        assert_eq!(i64_double_bits(i), (i as f64).to_bits(), "{}", i);
    }
    for u in [0u64, 1, u64::MAX, u64::MAX - 1024, u64::MAX - 1025, 1 << 63, (1 << 63) + 1024, 9007199254740993] {
        assert_eq!(u64_double_bits(u), (u as f64).to_bits(), "{}", u);
    }
}

#[test]
fn decimal_text_of_integers() {
    for n in [0u64, 7, 10, 12, 1000, 90817, u64::MAX] {
        assert_eq!(barn::text::decimal(n), n.to_string());
    }
}
