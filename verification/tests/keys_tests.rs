use base64::Engine;
use pasetogen::keys::{KeyError, KeySource, key_source, resolve_key};
use pasetogen::seal::generate_key;

#[test]
fn round_trip_encoded_key() {
    let bytes: Vec<u8> = (0u8..32).collect();
    let encoded = base64::engine::general_purpose::STANDARD.encode(&bytes);
    let key = resolve_key(&encoded).expect("a 32-byte key must resolve");
    assert_eq!(key.as_bytes().as_slice(), bytes.as_slice());
    assert_eq!(key.encode(), encoded);
}

#[test]
fn wrong_length_rejected() {
    // four bytes: the wrong length for a 32-byte key
    let r = resolve_key("QUJDRA==");
    assert!(matches!(r, Err(KeyError::MalformedKey)));
}

#[test]
fn empty_input_rejected() {
    let r = resolve_key("");
    assert!(matches!(r, Err(KeyError::MalformedKey)));
}

#[test]
fn undecodable_input_rejected() {
    let r = resolve_key("!!!this is not transport text!!!");
    assert!(matches!(r, Err(KeyError::MalformedKey)));
}

#[test]
fn thirty_three_bytes_rejected() {
    let bytes: Vec<u8> = (0u8..33).collect();
    let encoded = base64::engine::general_purpose::STANDARD.encode(&bytes);
    let r = resolve_key(&encoded);
    assert!(matches!(r, Err(KeyError::MalformedKey)));
}

#[test]
fn sentinel_selects_stdin() {
    assert_eq!(key_source("-"), KeySource::Stdin);
    assert_eq!(key_source("QUJDRA=="), KeySource::Direct);
    assert_eq!(key_source(""), KeySource::Direct);
}

#[test]
fn generated_keys_distinct() {
    let a = generate_key().expect("key generation must work");
    let b = generate_key().expect("key generation must work");
    assert_ne!(a.encode(), b.encode());
}

#[test]
fn generated_key_round_trips() {
    let key = generate_key().expect("key generation must work");
    assert_eq!(key.as_bytes().len(), 32);
    let encoded = key.encode();
    let back = resolve_key(&encoded).expect("an encoded fresh key must resolve");
    assert_eq!(back.as_bytes(), key.as_bytes());
}
