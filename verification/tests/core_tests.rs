use warden::algo::Algo;
use warden::base36::{decode, encode};
use warden::docs::{hex_decode, hex_encode, lookup_key, version_is_current};
use warden::identity::Identity;
use warden::pathutil::{normalize, parent_dir, path_uuid, relpath_to_base, segments};
use warden::textutil::{split_lines, trim};
use warden::timeutil::{parse_timestamp, timestamp_text, Timestamp};
use warden::pathutil::expand_path;
use warden::weight::{alphabet, parse_weight};
use blake2::Digest;
use std::collections::hash_map::RandomState;
use std::hash::{BuildHasher, Hasher};

fn b(s: &str) -> Vec<u8> {
    s.as_bytes().to_vec()
}

#[test]
fn test_integrity() {
    for _ in 0..10000 {
        let mut hasher = RandomState::new().build_hasher();
        hasher.write_u32(1);
        let value = hasher.finish() as u128;

        let e = encode(value);
        let d = decode(&e);

        assert_eq!(d, Some(value));
    }
}

#[test]
fn base36_encodes_known_values() {
    assert_eq!(encode(0), b("0"));
    assert_eq!(encode(35), b("z"));
    assert_eq!(encode(36), b("10"));
    assert_eq!(encode(1295), b("zz"));
    assert_eq!(encode(u128::MAX), b("f5lxx1zz5pnorynqglhzmsp33"));
}

#[test]
fn base36_decode_accepts_leading_zeros() {
    assert_eq!(decode(b"000010"), Some(36));
    assert_eq!(decode(b"0"), Some(0));
}

#[test]
fn base36_decode_rejects_bad_input() {
    assert_eq!(decode(b""), None);
    assert_eq!(decode(b"a-b"), None);
    assert_eq!(decode(b"A"), None);
    assert_eq!(decode(b"hello world"), None);
}

#[test]
fn identity_round_trip() {
    let id = Identity::build(b("000abc"), b("create_user"));
    let text = id.text();
    assert_eq!(text, b("000abc--create_user"));
    let back = Identity::from_str(&text).expect("parses");
    assert_eq!(back.get_uid(), &b("000abc"));
    assert_eq!(back.get_name(), &b("create_user"));
}

#[test]
fn identity_new_yields_six_char_uid() {
    let id = Identity::new(b("create_user"));
    assert_eq!(id.get_uid().len(), 6);
    let text = id.text();
    let back = Identity::from_str(&text).expect("parses");
    assert_eq!(back.get_uid(), id.get_uid());
    assert_eq!(back.get_name(), id.get_name());
    assert!(id.get_id().is_some());
}

#[test]
fn identity_from_str_needs_separator() {
    assert!(Identity::from_str(b"no_separator_here").is_none());
    let id = Identity::from_str(b"ab--cd--ef").unwrap();
    assert_eq!(id.get_uid(), &b("ab"));
    assert_eq!(id.get_name(), &b("cd--ef"));
}

#[test]
fn algo_names_round_trip() {
    for algo in [Algo::Blake2b, Algo::SHA3_512, Algo::SHA3_224] {
        let name = algo.stringify();
        assert_eq!(Algo::from_str(&name), Some(algo));
    }
    assert_eq!(Algo::from_str(b"md5"), None);
    assert_eq!(Algo::Blake2b.stringify(), b("blake2b"));
    assert_eq!(Algo::SHA3_512.stringify(), b("sha3-512"));
    assert_eq!(Algo::SHA3_224.stringify(), b("sha3-224"));
}

#[test]
fn algo_digests_match_reference() {
    let content = b"select 1;\n";
    let ours = Algo::Blake2b.hash(content);
    let reference = blake2::Blake2b512::digest(content).to_vec();
    assert_eq!(ours, reference);
    assert_eq!(ours.len(), 64);

    let ours = Algo::SHA3_512.hash(content);
    let reference = sha3::Sha3_512::digest(content).to_vec();
    assert_eq!(ours, reference);
    assert_eq!(ours.len(), 64);

    let ours = Algo::SHA3_224.hash(content);
    let reference = sha3::Sha3_224::digest(content).to_vec();
    assert_eq!(ours, reference);
    assert_eq!(ours.len(), 28);
}

#[test]
fn weight_digits_match_documented_example() {
    let w = alphabet(b"test").expect("weighs");
    assert_eq!(w.num, b("0000000116000000010100000001150000000116"));
    assert_eq!(w.den.len(), 41);
    assert_eq!(w.den[0], b'1');
    assert!(w.den[1..].iter().all(|&d| d == b'0'));
}

#[test]
fn weight_orders_ascii_strings() {
    let a = alphabet(b"a").unwrap();
    let b2 = alphabet(b"b").unwrap();
    let ab = alphabet(b"ab").unwrap();
    assert!(a.le(&b2));
    assert!(!b2.le(&a));
    assert!(a.le(&ab));
    assert!(!ab.le(&a));
    assert!(a.le(&a));
}

#[test]
fn weight_rejects_empty_path() {
    match alphabet(b"") {
        Err(warden::error::Error::InvalidWeight { text }) => assert_eq!(text, b("")),
        other => panic!("expected InvalidWeight, got {:?}", other),
    }
}

#[test]
fn weight_override_forms_parse() {
    let half = parse_weight(b"1/2").expect("fraction");
    assert_eq!(half.num, b("1"));
    assert_eq!(half.den, b("2"));
    let three = parse_weight(b"3").expect("integer");
    assert_eq!(three.num, b("3"));
    assert_eq!(three.den, b("1"));
    let dec = parse_weight(b"0.5").expect("decimal");
    assert_eq!(dec.num, b("05"));
    assert_eq!(dec.den, b("10"));
    assert!(parse_weight(b"zero").is_none());
    assert!(parse_weight(b"0").is_none());
}

#[test]
fn weight_addition_is_rational() {
    let half = parse_weight(b"1/2").unwrap();
    let sum = half.add(&half);
    // 1/2 + 1/2 = 1: the reduced sum is 1/1.
    assert_eq!(sum.num, b("1"));
    assert_eq!(sum.den, b("1"));
}

#[test]
fn relpath_shares_prefix() {
    assert_eq!(relpath_to_base(b"/a/b", b"/a/b/c/d.sql"), b("c/d.sql"));
    assert_eq!(relpath_to_base(b"/a/b/c", b"/a/d.sql"), b("../../d.sql"));
    assert_eq!(relpath_to_base(b"/a", b"/a"), b(""));
}

#[test]
fn relpath_unrelated_returns_path() {
    assert_eq!(relpath_to_base(b"x/y", b"z/w"), b("z/w"));
}

#[test]
fn relpath_mixed_absolute_and_relative_returns_path() {
    assert_eq!(relpath_to_base(b"/a/b", b"a/b"), b("a/b"));
    assert_eq!(relpath_to_base(b"a/b", b"/a/b"), b("/a/b"));
}

#[test]
fn expand_path_substitutes_home() {
    assert_eq!(expand_path(b"~/x", Some(b"/home/u")).unwrap(), b("/home/u/x"));
    assert_eq!(expand_path(b"/a/~/x", Some(b"/home/u")).unwrap(), b("/home/u/x"));
    assert_eq!(expand_path(b"/plain", Some(b"/home/u")).unwrap(), b("/plain"));
    assert_eq!(expand_path(b"/plain", None).unwrap(), b("/plain"));
    assert!(expand_path(b"~/x", None).is_err());
}

#[test]
fn weight_is_blind_to_a_trailing_nul() {
    // The monotonicity of the weight stops at NUL bytes: a trailing
    // NUL contributes only zero digits, so the two weights are equal.
    let a = alphabet(b"a").unwrap();
    let a_nul = alphabet(b"a\0").unwrap();
    assert!(a.le(&a_nul) && a_nul.le(&a));
}

#[test]
fn normalize_folds_dots() {
    assert_eq!(normalize(b"/a/./b/../c"), b("/a/c"));
    assert_eq!(normalize(b"/a//b/"), b("/a/b"));
    assert_eq!(parent_dir(b"/a/b/c.sql"), b("/a/b"));
    assert_eq!(segments(b"/a/b").len(), 2);
}

#[test]
fn path_uuid_matches_reference() {
    let ours = path_uuid(b"/tmp/migrations/a.sql");
    let printed = format!("{:?}", std::path::Path::new("/tmp/migrations/a.sql"));
    let reference =
        uuid::Uuid::new_v5(&uuid::Uuid::NAMESPACE_OID, printed.as_bytes()).as_u128();
    assert_eq!(ours, reference);
    assert_ne!(path_uuid(b"/tmp/a.sql"), path_uuid(b"/tmp/b.sql"));
}

#[test]
fn lines_and_trim() {
    let lines = split_lines(b"a\r\nb\n\nc");
    assert_eq!(lines, vec![b("a"), b("b"), b(""), b("c")]);
    assert_eq!(trim(b"  select 1;\n\n"), b("select 1;"));
    assert_eq!(trim(b""), b(""));
}

#[test]
fn key_lookup_reads_values() {
    let lines = split_lines(b"seal:\n  algo: \"blake2b\"\n  sign: abc\n");
    assert_eq!(lookup_key(&lines, b"algo"), Some(b("blake2b")));
    assert_eq!(lookup_key(&lines, b"sign"), Some(b("abc")));
    assert_eq!(lookup_key(&lines, b"missing"), None);
}

#[test]
fn version_check_accepts_one_tenth() {
    assert!(version_is_current(b"1/10"));
    assert!(version_is_current(b"2/20"));
    assert!(!version_is_current(b"2/10"));
    assert!(!version_is_current(b"1/0"));
    assert!(!version_is_current(b"abc"));
}

#[test]
fn hex_round_trip() {
    let data = vec![0u8, 1, 0xab, 0xff, 0x10];
    let text = hex_encode(&data);
    assert_eq!(text, b("0001abff10"));
    assert_eq!(hex_decode(&text), Some(data));
    assert_eq!(hex_decode(b"abc"), None);
    assert_eq!(hex_decode(b"zz"), None);
}

#[test]
fn timestamp_text_round_trip() {
    let t = Timestamp { year: 2023, month: 1, day: 2, hour: 3, minute: 4, second: 5, millis: 6 };
    let text = timestamp_text(&t);
    assert_eq!(text, b("2023-01-02T03:04:05.006+00:00"));
    let back = parse_timestamp(&text).expect("parses");
    assert_eq!(back.year, 2023);
    assert_eq!(back.month, 1);
    assert_eq!(back.day, 2);
    assert_eq!(back.hour, 3);
    assert_eq!(back.minute, 4);
    assert_eq!(back.second, 5);
    assert_eq!(back.millis, 6);
    assert!(parse_timestamp(b"not a time").is_none());
}
