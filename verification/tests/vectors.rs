use amon::algorithm::{
    derive_key_pair, public_key_of, split_tag, tree_secret, AlgorithmId, PublicKey,
};
use amon::hd_path::HDPath;
use amon::mnemonic::Mnemonic;

fn hex(bytes: &[u8]) -> String {
    let mut out = String::new();
    for b in bytes {
        out.push_str(&format!("{:02x}", b));
    }
    out
}

fn unhex(text: &str) -> Vec<u8> {
    let digits: Vec<u8> = text
        .bytes()
        .map(|c| match c {
            b'0'..=b'9' => c - b'0',
            b'a'..=b'f' => c - b'a' + 10,
            _ => panic!("not a hex digit"),
        })
        .collect();
    digits.chunks(2).map(|pair| pair[0] * 16 + pair[1]).collect()
}

const TWELVE: &str = "abandon abandon abandon abandon abandon abandon abandon abandon abandon abandon abandon about";

#[test]
fn seed_of_twelve_words_with_passphrase() {
    let mnemonic = Mnemonic::parse(TWELVE).unwrap();
    let seed = mnemonic.to_seed("TREZOR");
    assert_eq!(
        hex(&seed),
        "c55257c360c07c72029aebc1b53c05ed0362ada38ead3e3e9efa3708e53495531f09a6987599d18264c1e1c92f2cf141630c7a3c4ab7c81b2f001698e7463b04"
    );
}

#[test]
fn seed_depends_on_the_passphrase() {
    let mnemonic = Mnemonic::parse(TWELVE).unwrap();
    let plain = mnemonic.to_seed("");
    let again = mnemonic.to_seed("");
    let other = mnemonic.to_seed("x");
    assert_eq!(plain.len(), 64);
    assert_eq!(plain, again);
    assert_ne!(plain, other);
}

#[test]
fn public_key_of_secret_one() {
    let mut secret = vec![0u8; 32];
    secret[31] = 1;
    let key = public_key_of(AlgorithmId::Secp256k1, &secret).unwrap();
    assert_eq!(
        hex(&key.bytes),
        "0279be667ef9dcbbac55a06295ce870b07029bfcdb2dce28d959f2815b16f81798"
    );
    assert_eq!(hex(&key.address()), "751e76e8199196d454941c45d1b3a323f1433bd6");
}

#[test]
fn public_key_refuses_bad_secrets() {
    assert!(public_key_of(AlgorithmId::Secp256k1, &[0u8; 32]).is_err());
    assert!(public_key_of(AlgorithmId::Secp256k1, &[1u8; 31]).is_err());
    assert!(public_key_of(AlgorithmId::Secp256k1, &[0xffu8; 32]).is_err());
    assert!(public_key_of(AlgorithmId::Ed25519, &[1u8; 33]).is_err());
    assert!(public_key_of(AlgorithmId::Ed25519, &[]).is_err());
}

#[test]
fn secp256k1_tree_first_vector() {
    let seed = unhex("000102030405060708090a0b0c0d0e0f");
    let root =
        derive_key_pair(AlgorithmId::Secp256k1, &seed, &HDPath::from_levels(vec![])).unwrap();
    assert_eq!(
        hex(&root.secret),
        "e8f32e723decf4051aefac8e2c93c9c5b214313817cdb01a1494b917c8436b35"
    );
    assert_eq!(
        hex(&root.public.bytes),
        "0339a36013301597daef41fbe593a02cc513d0b55527ec2df1050e2e8ff49c85c2"
    );
    let child = derive_key_pair(
        AlgorithmId::Secp256k1,
        &seed,
        &HDPath::from_levels(vec![0x8000_0000]),
    )
    .unwrap();
    assert_eq!(
        hex(&child.secret),
        "edb2e14f9ee77d26dd93b4ecede8d16ed408ce149b6cd80b0715a2d911a0afea"
    );
    assert_eq!(
        hex(&child.public.bytes),
        "035a784662a4a20a65bf6aab9ae98a6c068a81c52e4b032c0fb5400c706cfccc56"
    );
}

#[test]
fn secp256k1_tree_refuses_short_seed() {
    let r = derive_key_pair(AlgorithmId::Secp256k1, &[1u8; 15], &HDPath::from_levels(vec![]));
    assert!(r.is_err());
}

#[test]
fn ed25519_tree_first_vector() {
    let seed = unhex("000102030405060708090a0b0c0d0e0f");
    let root = derive_key_pair(AlgorithmId::Ed25519, &seed, &HDPath::from_levels(vec![])).unwrap();
    assert_eq!(
        hex(&root.secret),
        "2b4be7f19ee27bbf30c667b642d5f4aa69fd169872f8fc3059c08ebae2eb19e7"
    );
    assert_eq!(
        hex(&root.public.bytes),
        "a4b2856bfec510abab89753fac1ac0e1112364e7d250545963f135f2a33188ed"
    );
    let child = derive_key_pair(
        AlgorithmId::Ed25519,
        &seed,
        &HDPath::from_levels(vec![0x8000_0000]),
    )
    .unwrap();
    assert_eq!(
        hex(&child.secret),
        "68e0fe46dfb67e368c75379acec591dad19df3cde26e63b93a8e704f1dade7a3"
    );
    assert_eq!(
        hex(&child.public.bytes),
        "8c8a13df77a28f3445213a0f432fde644acaa215fc72dcdf300d5efaa85d350c"
    );
}

#[test]
fn ed25519_tree_nodes() {
    let tag: Vec<u8> = (0u8..64).collect();
    let (key, chain) = split_tag(Some(tag.clone())).unwrap();
    assert_eq!(key, tag[..32].to_vec());
    assert_eq!(chain, tag[32..].to_vec());
    assert_eq!(split_tag(None), None);
    assert_eq!(split_tag(Some(vec![0u8; 63])), None);
    assert_eq!(split_tag(Some(vec![0u8; 65])), None);
    assert_eq!(split_tag(Some(vec![])), None);
    let seed = unhex("000102030405060708090a0b0c0d0e0f");
    assert_eq!(
        hex(&tree_secret(&seed, &vec![]).unwrap()),
        "2b4be7f19ee27bbf30c667b642d5f4aa69fd169872f8fc3059c08ebae2eb19e7"
    );
    assert_eq!(
        hex(&tree_secret(&seed, &vec![0x8000_0000]).unwrap()),
        "68e0fe46dfb67e368c75379acec591dad19df3cde26e63b93a8e704f1dade7a3"
    );
    assert_ne!(
        tree_secret(&seed, &vec![0x8000_0000, 0x8000_0001]),
        tree_secret(&seed, &vec![0x8000_0001, 0x8000_0000])
    );
}

#[test]
fn ed25519_tree_has_hardened_levels_only() {
    let seed = unhex("000102030405060708090a0b0c0d0e0f");
    let r = derive_key_pair(AlgorithmId::Ed25519, &seed, &HDPath::from_levels(vec![0]));
    assert_eq!(r.err(), Some(amon::error::KeyringError::IncompatibleOptions));
}

#[test]
fn ed25519_address_is_front_of_digest() {
    let key = PublicKey { algorithm: AlgorithmId::Ed25519, bytes: vec![] };
    // SHA-256 of the empty string.
    assert_eq!(hex(&key.address()), "e3b0c44298fc1c149afbf4c8996fb92427ae41e4");
}

#[test]
fn derivation_is_repeatable() {
    let seed = unhex("000102030405060708090a0b0c0d0e0f");
    let path = HDPath::build(118, 0, 0).unwrap();
    let first = derive_key_pair(AlgorithmId::Secp256k1, &seed, &path).unwrap();
    let second = derive_key_pair(AlgorithmId::Secp256k1, &seed, &path).unwrap();
    assert_eq!(first.secret, second.secret);
    assert_eq!(first.public.bytes, second.public.bytes);
    let other = derive_key_pair(AlgorithmId::Secp256k1, &seed, &HDPath::build(118, 0, 1).unwrap())
        .unwrap();
    assert_ne!(first.secret, other.secret);
}

#[test]
fn public_key_shape() {
    let short = PublicKey { algorithm: AlgorithmId::Ed25519, bytes: vec![0u8; 31] };
    assert!(!short.is_well_formed());
    let ed = PublicKey { algorithm: AlgorithmId::Ed25519, bytes: vec![0u8; 32] };
    assert!(ed.is_well_formed());
    let mut bytes = vec![0u8; 33];
    bytes[0] = 2;
    assert!(PublicKey { algorithm: AlgorithmId::Secp256k1, bytes: bytes.clone() }.is_well_formed());
    bytes[0] = 3;
    assert!(PublicKey { algorithm: AlgorithmId::Secp256k1, bytes: bytes.clone() }.is_well_formed());
    bytes[0] = 4;
    assert!(!PublicKey { algorithm: AlgorithmId::Secp256k1, bytes: bytes.clone() }.is_well_formed());
    assert!(!PublicKey { algorithm: AlgorithmId::Secp256k1, bytes: vec![2u8; 32] }.is_well_formed());
    assert!(!PublicKey { algorithm: AlgorithmId::Secp256k1, bytes: vec![] }.is_well_formed());
}
