use safe_client::codec::{read_chunk, read_list, write_chunk, write_list};
use safe_client::crypto::{kdf_derive, sha256_hash, sha512_hash};
use safe_client::errors::ClientError;
use safe_client::name::Name;
use safe_client::registry::RequestRegistry;
use safe_client::store::{ImmutableData, Store, StructuredData};

#[test]
fn chunk_roundtrip() {
    let mut out: Vec<u8> = Vec::new();
    write_chunk(&mut out, b"alpha");
    write_chunk(&mut out, b"");
    write_chunk(&mut out, b"beta");

    let (a, p1) = read_chunk(&out[..], 0).unwrap();
    let (b, p2) = read_chunk(&out[..], p1).unwrap();
    let (c, p3) = read_chunk(&out[..], p2).unwrap();
    assert_eq!(a, b"alpha".to_vec());
    assert_eq!(b, Vec::<u8>::new());
    assert_eq!(c, b"beta".to_vec());
    assert_eq!(p3, out.len());
    assert!(read_chunk(&out[..], p3).is_none());
    // A truncated buffer does not parse.
    assert!(read_chunk(&out[..out.len() - 1], p2).is_none());
}

#[test]
fn list_roundtrip() {
    let items: Vec<Vec<u8>> = vec![vec![1u8, 2u8], Vec::new(), vec![3u8; 40]];
    let mut out: Vec<u8> = Vec::new();
    write_list(&mut out, &items);
    let (parsed, next) = read_list(&out[..], 0).unwrap();
    assert_eq!(parsed, items);
    assert_eq!(next, out.len());
}

#[test]
fn digests_have_known_values() {
    // FIPS 180 test vector for the empty-input and "abc" digests.
    let abc256 = sha256_hash(b"abc");
    let expected256: Vec<u8> = vec![
        0xba, 0x78, 0x16, 0xbf, 0x8f, 0x01, 0xcf, 0xea, 0x41, 0x41, 0x40, 0xde, 0x5d, 0xae,
        0x22, 0x23, 0xb0, 0x03, 0x61, 0xa3, 0x96, 0x17, 0x7a, 0x9c, 0xb4, 0x10, 0xff, 0x61,
        0xf2, 0x00, 0x15, 0xad,
    ];
    assert_eq!(abc256, expected256);

    let abc512 = sha512_hash(b"abc");
    assert_eq!(abc512.len(), 64);
    // First bytes of SHA-512("abc").
    assert_eq!(&abc512[..8], &[0xdd, 0xaf, 0x35, 0xa1, 0x93, 0x61, 0x7a, 0xba]);
}

#[test]
fn key_derivation_is_deterministic_and_salted() {
    let a = kdf_derive(b"password", b"1234", 10000);
    let b = kdf_derive(b"password", b"1234", 10000);
    let c = kdf_derive(b"password", b"1233", 10000);
    let d = kdf_derive(b"Password", b"1234", 10000);
    assert_eq!(a.len(), 48);
    assert_eq!(a, b);
    assert_ne!(a, c);
    assert_ne!(a, d);
}

#[test]
fn registry_slots_transition_once() {
    let mut registry = RequestRegistry::new();
    registry.insert_pending(5);

    // Delivering a payload makes the slot ready; taking it removes it.
    registry.complete(5, Some(vec![1u8, 2u8, 3u8]));
    // A second delivery must not overwrite the terminal slot.
    registry.complete(5, Some(vec![9u8]));
    assert_eq!(registry.take(5), Ok(vec![1u8, 2u8, 3u8]));
    // The slot is gone: a second take times out.
    assert_eq!(registry.take(5), Err(ClientError::Timeout));

    // A failure delivery surfaces as a response failure.
    registry.insert_pending(6);
    registry.complete(6, None);
    assert_eq!(registry.take(6), Err(ClientError::ResponseFailure));

    // Taking a slot that is still pending times out and removes it.
    registry.insert_pending(7);
    assert_eq!(registry.take(7), Err(ClientError::Timeout));
    registry.insert_pending(7);

    // An early delivery for an unknown id is stashed for a later take.
    registry.complete(99, Some(vec![4u8]));
    assert_eq!(registry.take(99), Ok(vec![4u8]));
}

#[test]
fn store_returns_newest_record() {
    let mut store = Store::new();
    let name = Name::from_bytes(vec![3u8; 64]);
    let other = Name::from_bytes(vec![4u8; 64]);
    assert!(store.get_record(&name).is_none());

    store.put_record(&name, vec![1u8]);
    store.put_record(&other, vec![2u8]);
    assert_eq!(store.get_record(&name), Some(vec![1u8]));

    // A later put under the same name wins.
    store.put_record(&name, vec![7u8, 8u8]);
    assert_eq!(store.get_record(&name), Some(vec![7u8, 8u8]));
    assert_eq!(store.get_record(&other), Some(vec![2u8]));
}

#[test]
fn records_serialise_and_parse() {
    let blob = ImmutableData::new(vec![42u8; 100]);
    assert_eq!(blob.name().as_bytes().len(), 64);
    let bytes = blob.serialised_contents();
    assert!(bytes != vec![42u8; 100]);
    let parsed = ImmutableData::deserialise(&bytes[..]).unwrap();
    assert_eq!(parsed.value(), blob.value());

    let sd = StructuredData::new(
        Name::from_bytes(vec![1u8; 64]),
        Name::from_bytes(vec![2u8; 64]),
        vec![Name::from_bytes(vec![3u8; 64]), Name::from_bytes(vec![4u8; 64])],
    );
    let sd_bytes = sd.serialised_contents();
    let parsed = StructuredData::deserialise(&sd_bytes[..]).unwrap();
    assert!(parsed.identifier().equals(sd.identifier()));
    assert!(parsed.owner().equals(sd.owner()));
    assert_eq!(parsed.value().len(), 2);
    assert!(parsed.latest_version().unwrap().equals(&Name::from_bytes(vec![4u8; 64])));

    // Garbage does not parse.
    assert!(StructuredData::deserialise(&[1u8, 2u8, 3u8]).is_none());
    assert!(ImmutableData::deserialise(&[1u8]).is_none());
}
