use aum::address::Address;
use aum::address::AddressError;
use aum::address::Format;
use aum::keypair::KeyPairError;
use aum::keypair::PublicKey;
use aum::keypair::SecretKey;
use aum::storage::Storage;
use aum::transaction::SignedTransaction;
use aum::transaction::Transaction;
use aum::transaction::TransactionParameters;

#[test]
fn secret_key_bytes_round_trip() {
    for seed in [0u64, 1, 255, 256, u64::MAX] {
        let k = SecretKey::new(seed);
        let bytes = k.to_bytes();
        assert_eq!(bytes.len(), 8);
        let back = SecretKey::from_bytes(&bytes).unwrap();
        assert_eq!(back, k);
    }
}

#[test]
fn secret_key_hex_round_trip() {
    for seed in [0u64, 7, 0xdead_beef, u64::MAX] {
        let k = SecretKey::new(seed);
        let hex = k.to_hex();
        assert_eq!(hex.len(), 16);
        let back = SecretKey::from_hex(&hex).unwrap();
        assert_eq!(back, k);
    }
}

#[test]
fn secret_key_hex_is_little_endian_lowercase() {
    let k = SecretKey::new(1);
    assert_eq!(k.to_hex(), "0100000000000000");
    let k = SecretKey::new(0xff);
    assert_eq!(k.to_hex(), "ff00000000000000");
}

#[test]
fn public_key_round_trips_and_matches_secret() {
    let sk = SecretKey::new(42);
    let pk = sk.pubkey();
    assert_eq!(PublicKey::from_secret_key(&sk), pk);
    let back = PublicKey::from_bytes(&pk.to_bytes()).unwrap();
    assert_eq!(back, pk);
    let back = PublicKey::from_hex(&pk.to_hex()).unwrap();
    assert_eq!(back, pk);
}

#[test]
fn bad_key_encodings_are_rejected() {
    assert!(matches!(
        SecretKey::from_bytes(&[1, 2, 3]),
        Err(KeyPairError::InvalidBytes)
    ));
    assert!(matches!(
        SecretKey::from_hex("zz00000000000000"),
        Err(KeyPairError::InvalidHex)
    ));
    assert!(matches!(
        SecretKey::from_hex("0100"),
        Err(KeyPairError::InvalidHex)
    ));
}

#[test]
fn address_display_parse_round_trip() {
    for (seed, format) in [(0u64, Format::Standard), (77, Format::Legacy), (u64::MAX, Format::Standard)] {
        let sk = SecretKey::new(seed);
        let a = Address::from_secret_key(&sk, &format).unwrap();
        let text = a.display();
        assert_eq!(text.len(), 19);
        let back = Address::parse(&text).unwrap();
        assert_eq!(back, a);
        assert!(Address::is_valid(&text));
    }
}

#[test]
fn address_derivation_agrees_between_keys() {
    let sk = SecretKey::new(9);
    let pk = sk.pubkey();
    let from_sk = Address::from_secret_key(&sk, &Format::Standard).unwrap();
    let from_pk = Address::from_public_key(&pk, &Format::Standard).unwrap();
    assert_eq!(from_sk, from_pk);
}

#[test]
fn malformed_addresses_are_rejected() {
    for bad in ["", "aq", "aq1", "aq30000000000000000", "xx10000000000000000", "aq1000000000000000g", "aq100000000000000000"] {
        assert!(matches!(Address::parse(bad), Err(AddressError::ParseError)));
        assert!(!Address::is_valid(bad));
    }
}

#[test]
fn hash_round_trips_through_bytes_and_hex() {
    let h = aum::hash::Hash::from_bytes(&[0xde, 0xad, 0x00, 0x01]).unwrap();
    assert_eq!(h.to_bytes(), vec![0xde, 0xad, 0x00, 0x01]);
    assert_eq!(h.to_hex(), "dead0001");
    let back = aum::hash::Hash::from_hex("dead0001").unwrap();
    assert_eq!(back.to_bytes(), h.to_bytes());
    assert!(aum::hash::Hash::from_hex("abc").is_err());
    assert!(aum::hash::Hash::from_hex("zz").is_err());
}

fn sample_tx() -> Transaction {
    let from = Address { id: 3, format: Format::Standard };
    let to = Address { id: 8, format: Format::Legacy };
    Transaction::new(from, to, TransactionParameters { amount: 500, nonce: 2 })
}

#[test]
fn transaction_bytes_round_trip() {
    let tx = sample_tx();
    let bytes = tx.to_bytes();
    assert_eq!(bytes.len(), 34);
    let back = Transaction::from_bytes(&bytes).unwrap();
    assert_eq!(back, tx);
    assert!(Transaction::from_bytes(&bytes[1..]).is_err());
}

#[test]
fn transaction_id_is_hex_of_bytes() {
    let tx = sample_tx();
    let id = tx.transaction_id().unwrap();
    assert_eq!(id.to_text(), tx.hash().to_hex());
    assert_eq!(id.to_text().len(), 68);
}

#[test]
fn signed_transaction_round_trips() {
    let tx = sample_tx();
    let signed = SignedTransaction { transaction: tx, signer: 3 };
    let bytes = signed.to_bytes();
    assert_eq!(bytes.len(), 42);
    assert_eq!(bytes, signed.signature());
    let back = SignedTransaction::from_bytes(&bytes).unwrap();
    assert_eq!(back, signed);
}

#[test]
fn storage_supports_crud_and_enumeration() {
    let mut st = Storage::new();
    assert!(st.is_empty());
    let a1 = Address { id: 1, format: Format::Standard };
    let a2 = Address { id: 2, format: Format::Standard };
    let k1 = SecretKey::new(1);
    let k2 = SecretKey::new(2);
    st.set(a1, k1);
    st.set(a2, k2);
    assert_eq!(st.len(), 2);
    assert_eq!(st.get(a1), Some(k1));
    assert!(st.contains_key(&a2));
    let k1b = SecretKey::new(100);
    st.set(a1, k1b);
    assert_eq!(st.len(), 2);
    assert_eq!(st.get(a1), Some(k1b));
    assert_eq!(st.keys(), vec![a1, a2]);
    assert_eq!(st.values(), vec![k1b, k2]);
    assert_eq!(st.iter().len(), 2);
    st.remove(a1);
    assert_eq!(st.get(a1), None);
    assert_eq!(st.len(), 1);
    st.clear();
    assert!(st.is_empty());
}
