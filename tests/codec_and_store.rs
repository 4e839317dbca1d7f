use flate2::write::ZlibEncoder;
use flate2::Compression;
use kvserver::client::request_for;
use kvserver::codec::{decode_payload, encode_value};
use kvserver::protocol::{execute, respond, split_words, Reply};
use kvserver::store::KeyValueStore;
use std::io::Write;

fn deflate(bytes: &[u8]) -> Vec<u8> {
    let mut encoder = ZlibEncoder::new(Vec::new(), Compression::default());
    encoder.write_all(bytes).unwrap();
    encoder.finish().unwrap()
}

#[test]
fn decode_payload_reads_hex() {
    assert_eq!(decode_payload(b"6869"), b"hi".to_vec());
    assert_eq!(decode_payload(b"FF00aB"), vec![0xff, 0x00, 0xab]);
    assert_eq!(decode_payload(b""), Vec::<u8>::new());
    assert_eq!(decode_payload(b"123"), Vec::<u8>::new());
    assert_eq!(decode_payload(b"g0"), Vec::<u8>::new());
}

#[test]
fn encode_value_is_hex_of_compressed() {
    let encoded = encode_value(b"red");
    assert_eq!(encoded, hex::encode(deflate(b"red")).into_bytes());
    assert_eq!(decode_payload(&encoded), deflate(b"red"));
}

#[test]
fn words_split_on_unicode_whitespace() {
    let w = split_words(b"  SET\tkey \r\n value  ");
    assert_eq!(w, vec![b"SET".to_vec(), b"key".to_vec(), b"value".to_vec()]);
    assert!(split_words(b"").is_empty());
    assert!(split_words(b" \t ").is_empty());
    assert_eq!(split_words(b"x"), vec![b"x".to_vec()]);
    let w = split_words("a\u{a0}b\u{85}c\u{1680}d\u{2000}e\u{200a}f\u{2028}g\u{2029}h\u{202f}i\u{205f}j\u{3000}k\u{b}l".as_bytes());
    assert_eq!(w.len(), 12);
    assert_eq!(w[11], b"l".to_vec());
    assert!(split_words("\u{a0}\u{3000} ".as_bytes()).is_empty());
    let w = split_words("a\u{200b}b é".as_bytes());
    assert_eq!(w, vec!["a\u{200b}b".as_bytes().to_vec(), "é".as_bytes().to_vec()]);
}

#[test]
fn non_breaking_space_before_bye_still_ends_the_session() {
    let mut store = KeyValueStore::new();
    let (bytes, close) = respond(&mut store, "\u{a0}BYE".as_bytes());
    assert!(close);
    assert_eq!(bytes, deflate(b"Goodbye!\n"));
}

#[test]
fn unicode_space_separates_set_arguments() {
    let mut store = KeyValueStore::new();
    let (bytes, _) = respond(&mut store, "SET a\u{a0}b".as_bytes());
    assert_eq!(bytes, deflate(b"OK\n"));
    assert_eq!(store.get("a"), Some(&vec![]));
    let (bytes, _) = respond(&mut store, "SET\u{3000}k\u{2028}0102".as_bytes());
    assert_eq!(bytes, deflate(b"OK\n"));
    assert_eq!(store.get("k"), Some(&vec![1, 2]));
}

#[test]
fn unicode_space_makes_a_fourth_word() {
    let mut store = KeyValueStore::new();
    let (bytes, close) = respond(&mut store, "SET a b\u{a0}c".as_bytes());
    assert_eq!(bytes, deflate(b"ERROR\n"));
    assert!(!close);
    assert!(store.get("a").is_none());
}

#[test]
fn store_set_and_get() {
    let mut store = KeyValueStore::new();
    assert!(store.get("a").is_none());
    store.set("a".to_string(), vec![1, 2]);
    store.set("b".to_string(), vec![3]);
    store.set("a".to_string(), vec![4]);
    assert_eq!(store.get("a"), Some(&vec![4]));
    assert_eq!(store.get("b"), Some(&vec![3]));
    assert!(store.get("c").is_none());
}

#[test]
fn execute_answers_each_request_kind() {
    let mut store = KeyValueStore::new();
    assert!(matches!(execute(&mut store, b"GET k"), Reply::NotFound));
    assert!(matches!(execute(&mut store, b"SET k 0a0b"), Reply::Stored));
    match execute(&mut store, b"GET k") {
        Reply::Value(v) => assert_eq!(v, vec![10, 11]),
        _ => panic!("expected a value"),
    }
    assert!(matches!(execute(&mut store, b" BYE "), Reply::Farewell));
    assert!(matches!(execute(&mut store, b"BYE now"), Reply::Error));
    assert!(matches!(execute(&mut store, b"get k"), Reply::Error));
}

#[test]
fn respond_compresses_fixed_answers() {
    let mut store = KeyValueStore::new();
    let (bytes, close) = respond(&mut store, b"SET k 00");
    assert_eq!(bytes, deflate(b"OK\n"));
    assert_ne!(bytes, b"OK\n".to_vec());
    assert!(!close);
    let (bytes, close) = respond(&mut store, b"BYE");
    assert_eq!(bytes, deflate(b"Goodbye!\n"));
    assert!(close);
}

#[test]
fn utf8_keys_are_kept_apart() {
    let mut store = KeyValueStore::new();
    execute(&mut store, "SET clé 01".as_bytes());
    execute(&mut store, b"SET cle 02");
    assert_eq!(store.get("clé"), Some(&vec![1]));
    assert_eq!(store.get("cle"), Some(&vec![2]));
}

#[test]
fn client_builds_request_lines() {
    let (line, quit) = request_for(b"GET  color\n");
    assert_eq!(line, b"GET color\n".to_vec());
    assert!(!quit);
    let (line, quit) = request_for(b"BYE\n");
    assert_eq!(line, b"BYE\n".to_vec());
    assert!(quit);
    let (line, quit) = request_for(b"  hello   world ");
    assert_eq!(line, b"hello world\n".to_vec());
    assert!(!quit);
    let (line, _) = request_for(b"");
    assert_eq!(line, b"\n".to_vec());
}
