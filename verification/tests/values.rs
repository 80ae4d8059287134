use vidarax_api::auth::{fnv1a64, principal_key_from_headers, strong_hash_hex, CallerHeaders};
use vidarax_api::bench::{floor_rank, setting, summarize};
use vidarax_api::calendar::ms_to_iso;
use vidarax_api::codec::hex_bytes;
use vidarax_api::digits::{parse_unsigned, to_decimal, to_hex_padded};
use vidarax_api::ids::{parse_run_sequence, random_run_id, run_id_from_bytes, validate_run_id};
use vidarax_api::ieee::{Double, Single};
use vidarax_api::json::{parse_json, parse_payload, parse_or_null, Fields, Json};
use vidarax_api::percentile::percentile_ms;
use vidarax_api::text::{join, le, split, tail_after_last, to_lower, trim, underscore};
use vidarax_api::text_map::TextMap;

#[test]
fn derives_principal_keys_stably() {
    let mut headers = CallerHeaders { api_key: None, tenant_id: None };
    assert_eq!(principal_key_from_headers(&headers), "public");

    headers.api_key = Some("test-key".to_string());
    assert_eq!(
        principal_key_from_headers(&headers),
        format!("api-key:{:016x}", fnv1a64("test-key"))
    );

    headers.tenant_id = Some("tenant-a".to_string());
    assert_eq!(principal_key_from_headers(&headers), "tenant:tenant-a");
}

#[test]
fn hashes_follow_the_formula() {
    let mut expected: u64 = 1469598103934665603;
    for b in "test-key".bytes() {
        expected ^= b as u64;
        expected = expected.wrapping_mul(1099511628211);
    }
    assert_eq!(fnv1a64("test-key"), expected);
    assert_eq!(fnv1a64(""), 1469598103934665603);
    assert_eq!(
        strong_hash_hex("abc"),
        "ba7816bf8f01cfea414140de5dae2223b00361a396177a9cb410ff61f20015ad"
    );
}

#[test]
fn run_numbers_are_written_back() {
    let n = parse_run_sequence("run-00000000000000AF").expect("a number");
    assert_eq!(n, 175);
    assert_eq!(format!("run-{n:016x}"), "run-00000000000000af");
    assert_eq!(parse_run_sequence("run-000102030405060708090a0b0c0d0e0f"), None);
}

#[test]
fn instants_are_ordered_as_their_names() {
    let times = [0u64, 999, 1_000, 59_999, 86_399_999, 86_400_000, 951_782_400_000, 253_402_300_799_999];
    for pair in times.windows(2) {
        let (a, b) = (ms_to_iso(pair[0]), ms_to_iso(pair[1]));
        assert!(a < b, "{a} {b}");
        assert_eq!((a.len(), b.len()), (24, 24));
    }
    assert_eq!(ms_to_iso(253_402_300_799_999), "9999-12-31T23:59:59.999Z");
}

#[test]
fn percentiles_grow_and_take_any_order() {
    let values = vec![40u64, 10, 30, 20];
    let shuffled = vec![10u64, 20, 40, 30];
    let mut last = 0;
    for p in 0..=120u64 {
        let v = percentile_ms(&values, p);
        assert_eq!(v, percentile_ms(&shuffled, p));
        assert!(last <= v);
        last = v;
    }
    assert_eq!(percentile_ms(&values, 120), percentile_ms(&values, 100));
}

#[test]
fn numbers_are_written_and_read_back() {
    for n in [0u64, 7, 10, 99, 1_000, u64::MAX] {
        assert_eq!(to_decimal(n), n.to_string());
        assert_eq!(parse_unsigned(&to_decimal(n), 10, u64::MAX), Some(n));
    }
    assert_eq!(parse_unsigned("+12", 10, 100), Some(12));
    assert_eq!(parse_unsigned("101", 10, 100), None);
    assert_eq!(parse_unsigned("", 10, 100), None);
    assert_eq!(parse_unsigned("-1", 10, 100), None);
    assert_eq!(to_hex_padded(255, 4), "00ff");
    assert_eq!(hex_bytes(&[0, 15, 255]), "000fff");
}

#[test]
fn run_ids_are_recognized() {
    assert!(validate_run_id("run-0123456789abcdef"));
    assert!(validate_run_id("run-0123456789ABCDEF0123456789abcdef"));
    assert!(!validate_run_id("run-0123456789abcde"));
    assert!(!validate_run_id("run-0123456789abcdeg"));
    assert!(!validate_run_id("job-0123456789abcdef"));
    assert_eq!(parse_run_sequence("run-00000000000000ff"), Some(255));
    assert_eq!(parse_run_sequence("run-zz000000000000ff"), None);
    assert_eq!(run_id_from_bytes(&[1, 255]), "run-01ff");
    let a = random_run_id().expect("random source");
    let b = random_run_id().expect("random source");
    assert!(validate_run_id(&a));
    assert_eq!(a.len(), 36);
    assert_ne!(a, b);
}

#[test]
fn instants_have_iso_names() {
    assert_eq!(ms_to_iso(0), "1970-01-01T00:00:00.000Z");
    assert_eq!(ms_to_iso(951_782_400_123), "2000-02-29T00:00:00.123Z");
    assert_eq!(ms_to_iso(1_709_251_199_999), "2024-02-29T23:59:59.999Z");
}

#[test]
fn single_and_double_convert_like_hardware() {
    for x in [0.0f32, 0.1, 0.6, 1.0, 3.25e38, 1.0e-45, -2.25] {
        let s = Single { bits: x.to_bits() };
        assert_eq!(s.widen().bits, (x as f64).to_bits());
        assert_eq!(s.widen().narrow().bits, x.to_bits());
    }
    for d in [0.1f64, 1.0e-46, 3.4028236e38, 0.30000001192092896] {
        assert_eq!(Double { bits: d.to_bits() }.narrow().bits, (d as f32).to_bits());
    }
    for n in [0u64, 1, 16_777_217, 9_007_199_254_740_993, u64::MAX] {
        assert_eq!(Double::of_unsigned(n).bits, (n as f64).to_bits());
        assert_eq!(Single::of_unsigned(n).bits, (n as f32).to_bits());
    }
    for n in [-1i64, i64::MIN, -16_777_217, 12] {
        assert_eq!(Double::of_signed(n).bits, (n as f64).to_bits());
        assert_eq!(Single::of_signed(n).bits, (n as f32).to_bits());
    }
    let half = Single { bits: 0.5f32.to_bits() };
    let nan = Single { bits: f32::NAN.to_bits() };
    assert!(half.at_most(half) && !half.below(half));
    assert!(!nan.at_most(nan) && !nan.is_finite());
}

#[test]
fn json_is_read_with_its_numbers() {
    let v = parse_json(r#"{"a":1,"b":-2,"c":0.5,"d":[true,null,"x"],"e":{"f":"g"}}"#).unwrap();
    assert_eq!(v.unsigned_at("a"), Some(1));
    assert_eq!(v.unsigned_at("b"), None);
    assert_eq!(v.double_at("b").map(|d| f64::from_bits(d.bits)), Some(-2.0));
    assert_eq!(v.double_at("c").map(|d| f64::from_bits(d.bits)), Some(0.5));
    assert_eq!(v.get("c").and_then(|c| c.as_single()).map(|s| f32::from_bits(s.bits)), Some(0.5));
    assert_eq!(v.items_at("d").map(|d| d.len()), Some(3));
    assert_eq!(v.get("e").and_then(|e| e.text_at("f")), Some("g"));
    assert!(parse_json("{").is_none());
    assert_eq!(parse_payload("plain").text_at("raw"), Some("plain"));
    assert!(matches!(parse_or_null("plain"), Json::Null));
    let mut fields = Fields::new();
    fields.put("k", Json::number(1));
    fields.set("k", Json::number(2));
    fields.set_default("k", Json::number(3));
    assert_eq!(fields.object().unsigned_at("k"), Some(2));
}

#[test]
fn percentiles_are_at_the_nearest_rank() {
    let values: Vec<u64> = (1..=100).rev().collect();
    assert_eq!(percentile_ms(&values, 0), 1);
    assert_eq!(percentile_ms(&values, 50), 51);
    assert_eq!(percentile_ms(&values, 95), 95);
    assert_eq!(percentile_ms(&values, 100), 100);
    assert_eq!(percentile_ms(&Vec::new(), 50), 0);
    for n in 1..200usize {
        for pct in [1u64, 33, 50, 95, 99] {
            let v: Vec<u64> = (0..n as u64).collect();
            let rank = ((n - 1) as f64 * (pct as f64 / 100.0)).round() as u64;
            assert_eq!(percentile_ms(&v, pct), rank);
        }
    }
}

#[test]
fn measurements_are_summarized() {
    assert_eq!(setting(None, 200, 10, 20_000), 200);
    assert_eq!(setting(Some("5"), 200, 10, 20_000), 10);
    assert_eq!(setting(Some("x"), 200, 10, 20_000), 200);
    assert_eq!(setting(Some("90000"), 200, 10, 20_000), 20_000);
    let ranks = summarize(&vec![40, 10, 30, 20]);
    assert_eq!((ranks.p50, ranks.p95, ranks.max), (30, 40, 40));
    assert_eq!(floor_rank(0, 50), None);
    assert_eq!(floor_rank(200, 95), Some(189));
}

#[test]
fn texts_are_taken_apart() {
    assert_eq!(trim(" \u{3000}a b\t"), "a b");
    assert_eq!(to_lower("AbÉ"), "abÉ");
    assert_eq!(split("a,,b", ','), ["a", "", "b"]);
    assert_eq!(tail_after_last("a.b.c", '.').as_deref(), Some("c"));
    assert_eq!(tail_after_last("abc", '.'), None);
    assert_eq!(join(&vec!["a".to_string(), "b".to_string()], ", "), "a, b");
    assert_eq!(underscore("a b-c", true), "a_b_c");
    assert!(le("a", "ab") && !le("b", "ab"));
}

#[test]
fn text_maps_hold_one_value_for_each_text() {
    let mut map: TextMap<u64> = TextMap::new();
    map.insert("a".to_string(), 1);
    map.insert("b".to_string(), 2);
    map.insert("a".to_string(), 3);
    assert_eq!(map.len(), 2);
    assert_eq!(map.get("a"), Some(&3));
    assert_eq!(map.remove("a"), Some(3));
    assert_eq!(map.remove("a"), None);
    assert_eq!(map.keys(), ["b"]);
}
