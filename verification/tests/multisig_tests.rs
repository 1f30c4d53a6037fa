use amon::algorithm::{public_key_of, AlgorithmId, PublicKey};
use amon::error::KeyringError;
use amon::multisig::compose;

fn hex(bytes: &[u8]) -> String {
    let mut out = String::new();
    for b in bytes {
        out.push_str(&format!("{:02x}", b));
    }
    out
}

fn key_of_secret(n: u8) -> PublicKey {
    let mut secret = vec![0u8; 32];
    secret[31] = n;
    public_key_of(AlgorithmId::Secp256k1, &secret).unwrap()
}

fn bytes_of(keys: &[PublicKey]) -> Vec<Vec<u8>> {
    keys.iter().map(|k| k.bytes.clone()).collect()
}

#[test]
fn member_addresses_are_as_known() {
    assert_eq!(hex(&key_of_secret(1).address()), "751e76e8199196d454941c45d1b3a323f1433bd6");
    assert_eq!(hex(&key_of_secret(2).address()), "06afd46bcdfd22ef94ac122aa11f241244a37ecc");
    assert_eq!(hex(&key_of_secret(3).address()), "7dd65592d0ab2fe0d0257d571abf032cd9db93dc");
}

#[test]
fn two_of_three_sorted_by_address() {
    let a = key_of_secret(1);
    let b = key_of_secret(2);
    let c = key_of_secret(3);
    let key = compose(vec![a.clone(), b.clone(), c.clone()], 2, true).unwrap();
    assert_eq!(key.threshold(), 2);
    assert_eq!(bytes_of(key.members()), vec![b.bytes.clone(), a.bytes.clone(), c.bytes.clone()]);
    let addresses: Vec<Vec<u8>> = key.members().iter().map(|k| k.address()).collect();
    let mut sorted = addresses.clone();
    sorted.sort();
    assert_eq!(addresses, sorted);
    let r = compose(vec![a, b, c], 4, true);
    assert_eq!(r.err(), Some(KeyringError::InvalidThreshold));
}

#[test]
fn threshold_must_fit_the_members() {
    let a = key_of_secret(1);
    let b = key_of_secret(2);
    for sort in [true, false] {
        assert_eq!(
            compose(vec![a.clone(), b.clone()], 0, sort).err(),
            Some(KeyringError::InvalidThreshold)
        );
        assert_eq!(
            compose(vec![a.clone(), b.clone()], 3, sort).err(),
            Some(KeyringError::InvalidThreshold)
        );
        assert_eq!(
            compose(vec![a.clone(), b.clone()], u32::MAX, sort).err(),
            Some(KeyringError::InvalidThreshold)
        );
        assert_eq!(compose(vec![], 1, sort).err(), Some(KeyringError::InvalidThreshold));
        assert_eq!(compose(vec![], 0, sort).err(), Some(KeyringError::InvalidThreshold));
        assert!(compose(vec![a.clone(), b.clone()], 1, sort).is_ok());
        assert!(compose(vec![a.clone(), b.clone()], 2, sort).is_ok());
        assert!(compose(vec![a.clone()], 1, sort).is_ok());
    }
}

#[test]
fn given_order_is_kept_without_sorting() {
    let a = key_of_secret(1);
    let b = key_of_secret(2);
    let c = key_of_secret(3);
    let key = compose(vec![c.clone(), a.clone(), b.clone()], 3, false).unwrap();
    assert_eq!(key.threshold(), 3);
    assert_eq!(bytes_of(key.members()), vec![c.bytes, a.bytes, b.bytes]);
}

#[test]
fn sorting_is_a_rearrangement_and_repeatable() {
    let keys: Vec<PublicKey> = (1..=9).map(key_of_secret).collect();
    let mut given = keys.clone();
    given.reverse();
    let first = compose(given.clone(), 5, true).unwrap();
    let second = compose(given.clone(), 5, true).unwrap();
    let third = compose(keys.clone(), 5, true).unwrap();
    assert_eq!(bytes_of(first.members()), bytes_of(second.members()));
    assert_eq!(bytes_of(first.members()), bytes_of(third.members()));
    let mut out = bytes_of(first.members());
    let mut input = bytes_of(&given);
    out.sort();
    input.sort();
    assert_eq!(out, input);
    let addresses: Vec<Vec<u8>> = first.members().iter().map(|k| k.address()).collect();
    for pair in addresses.windows(2) {
        assert!(pair[0] < pair[1]);
    }
}

#[test]
fn same_member_twice_is_refused_when_sorting() {
    let a = key_of_secret(1);
    let b = key_of_secret(2);
    let r = compose(vec![a.clone(), b.clone(), a.clone()], 2, true);
    assert_eq!(r.err(), Some(KeyringError::DuplicateMember));
    let kept = compose(vec![a.clone(), b.clone(), a.clone()], 2, false).unwrap();
    assert_eq!(kept.members().len(), 3);
    let r = compose(vec![a.clone(), a.clone()], 3, true);
    assert_eq!(r.err(), Some(KeyringError::InvalidThreshold));
}

#[test]
fn bytes_of_a_threshold_key() {
    let a = PublicKey { algorithm: AlgorithmId::Secp256k1, bytes: vec![0xaa, 0xbb] };
    let b = PublicKey { algorithm: AlgorithmId::Ed25519, bytes: vec![0xcc] };
    let key = compose(vec![a, b], 2, false).unwrap();
    assert_eq!(hex(&key.to_bytes()), "0000000201aabb02cc");
    let big = compose(vec![key_of_secret(1)], 1, true).unwrap();
    assert_eq!(
        hex(&big.to_bytes()),
        "00000001010279be667ef9dcbbac55a06295ce870b07029bfcdb2dce28d959f2815b16f81798"
    );
}

#[test]
fn copy_of_a_threshold_key() {
    let key = compose(vec![key_of_secret(1), key_of_secret(2)], 2, true).unwrap();
    let copy = key.clone();
    assert_eq!(copy.threshold(), 2);
    assert_eq!(bytes_of(copy.members()), bytes_of(key.members()));
}
