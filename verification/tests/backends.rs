use amon::algorithm::{AlgorithmId, PublicKey};
use amon::backend::{Backend, BackendKind, MemoryBackend};
use amon::codec::{EncryptedBlob, KdfAlgorithm, KdfParams};
use amon::entry::{KeyEntry, KeyMaterial, KeyType};
use amon::error::KeyringError;
use amon::file_backend::{file_name, names_artifact, FileBackend};
use amon::hd_path::HDPath;
use amon::multisig::compose;
use amon::os_backend::{account_name, read_index, write_index, OsBackend};
use amon::stored::{decode_entry, encode_entry};

fn offline(name: &str, first: u8) -> KeyEntry {
    KeyEntry {
        name: name.to_string(),
        algorithm: AlgorithmId::Ed25519,
        public_key: vec![first; 32],
        material: KeyMaterial::Offline,
    }
}

fn local(name: &str) -> KeyEntry {
    KeyEntry {
        name: name.to_string(),
        algorithm: AlgorithmId::Secp256k1,
        public_key: vec![2u8; 33],
        material: KeyMaterial::Local {
            secret: EncryptedBlob {
                kdf: KdfParams { algorithm: KdfAlgorithm::Pbkdf2HmacSha512, rounds: 210_000 },
                salt: vec![1, 2, 3],
                nonce: vec![4; 24],
                ciphertext: vec![9; 32],
                tag: vec![7; 16],
            },
            path: Some(HDPath::build(118, 0, 0).unwrap()),
        },
    }
}

fn ledger(name: &str) -> KeyEntry {
    KeyEntry {
        name: name.to_string(),
        algorithm: AlgorithmId::Secp256k1,
        public_key: vec![],
        material: KeyMaterial::Ledger {
            device_path: HDPath::build(118, 1, 2).unwrap(),
            address_prefix: "cosmos".to_string(),
        },
    }
}

fn multisig(name: &str) -> KeyEntry {
    let a = PublicKey { algorithm: AlgorithmId::Secp256k1, bytes: vec![0xaa, 0xbb] };
    let b = PublicKey { algorithm: AlgorithmId::Ed25519, bytes: vec![0xcc] };
    let key = compose(vec![a, b], 2, false).unwrap();
    KeyEntry {
        name: name.to_string(),
        algorithm: AlgorithmId::Secp256k1,
        public_key: key.to_bytes(),
        material: KeyMaterial::Multisig { key },
    }
}

fn same(a: &KeyEntry, b: &KeyEntry) -> bool {
    encode_entry(a) == encode_entry(b)
}

fn names(entries: &[KeyEntry]) -> Vec<String> {
    entries.iter().map(|e| e.name.clone()).collect()
}

fn exercise<B: Backend>(store: &mut B) {
    assert_eq!(store.get("alice").err(), Some(KeyringError::NotFound));
    assert_eq!(store.list().len(), 0);
    assert_eq!(store.delete("alice").err(), Some(KeyringError::NotFound));

    assert_eq!(store.put(local("alice"), false), Ok(()));
    assert!(same(&store.get("alice").unwrap(), &local("alice")));

    assert_eq!(store.put(offline("alice", 1), false), Err(KeyringError::AlreadyExists));
    assert!(same(&store.get("alice").unwrap(), &local("alice")));

    assert_eq!(store.put(offline("alice", 1), true), Ok(()));
    assert!(same(&store.get("alice").unwrap(), &offline("alice", 1)));

    assert_eq!(store.put(ledger("bob"), false), Ok(()));
    assert_eq!(store.put(multisig("Zed"), false), Ok(()));
    assert_eq!(store.put(offline("Alice", 2), true), Ok(()));
    assert_eq!(store.put(offline("", 3), false), Ok(()));
    assert_eq!(store.put(offline("al", 4), false), Ok(()));
    assert_eq!(names(&store.list()), vec!["", "Alice", "Zed", "al", "alice", "bob"]);
    assert!(same(&store.get("bob").unwrap(), &ledger("bob")));
    assert!(same(&store.get("Zed").unwrap(), &multisig("Zed")));
    assert_eq!(store.get("ALICE").err(), Some(KeyringError::NotFound));

    assert_eq!(store.rename("alice", "bob"), Err(KeyringError::AlreadyExists));
    assert_eq!(store.rename("nobody", "bob"), Err(KeyringError::AlreadyExists));
    assert_eq!(store.rename("nobody", "carol"), Err(KeyringError::NotFound));
    assert_eq!(store.rename("alice", "alice"), Err(KeyringError::AlreadyExists));
    assert_eq!(names(&store.list()), vec!["", "Alice", "Zed", "al", "alice", "bob"]);

    assert_eq!(store.rename("bob", "Bob"), Ok(()));
    assert_eq!(store.get("bob").err(), Some(KeyringError::NotFound));
    assert!(same(&store.get("Bob").unwrap(), &ledger("Bob")));
    assert_eq!(names(&store.list()), vec!["", "Alice", "Bob", "Zed", "al", "alice"]);

    assert_eq!(store.delete("Zed"), Ok(()));
    assert_eq!(store.delete("Zed"), Err(KeyringError::NotFound));
    assert_eq!(store.get("Zed").err(), Some(KeyringError::NotFound));
    assert_eq!(names(&store.list()), vec!["", "Alice", "Bob", "al", "alice"]);
}

#[test]
fn memory_backend_keeps_the_contract() {
    let mut store = MemoryBackend::new();
    exercise(&mut store);
    assert_eq!(store.len(), 5);
}

#[test]
fn file_backend_keeps_the_contract() {
    let mut store = FileBackend::new();
    exercise(&mut store);
}

#[test]
fn os_backend_keeps_the_contract() {
    let mut store = OsBackend::new();
    exercise(&mut store);
}

#[test]
fn credentials_hold_what_was_stored() {
    let mut store = OsBackend::new();
    assert_eq!(store.put(local("alice"), false), Ok(()));
    assert_eq!(store.put(offline("Bob", 1), false), Ok(()));
    let credentials = store.credentials();
    assert_eq!(credentials.len(), 2);
    assert_eq!(credentials[0].account, "amon-key-426f62");
    assert_eq!(credentials[0].secret, encode_entry(&offline("Bob", 1)));
    assert_eq!(credentials[1].account, "amon-key-616c696365");
    assert_eq!(credentials[1].secret, encode_entry(&local("alice")));
    let one = store.credential("alice").unwrap();
    assert_eq!(one.account, "amon-key-616c696365");
    assert_eq!(one.secret, credentials[1].secret);
    assert_eq!(store.credential("nobody").err(), Some(KeyringError::NotFound));
    let secrets: Vec<String> = credentials.into_iter().map(|c| c.secret).collect();
    let loaded = OsBackend::load(&secrets).unwrap();
    assert_eq!(names(&loaded.list()), vec!["Bob", "alice"]);
    assert!(same(&loaded.get("alice").unwrap(), &local("alice")));
    assert_eq!(
        OsBackend::load(&vec!["junk".to_string()]).err(),
        Some(KeyringError::MalformedKey)
    );
    assert_eq!(account_name(""), "amon-key-");
    assert_eq!(account_name("é"), "amon-key-c3a9");
}

#[test]
fn file_names_fit_every_name() {
    assert_eq!(file_name("alice"), "616c696365.key");
    assert_eq!(file_name(""), ".key");
    assert_eq!(file_name("a/b ../"), "612f62202e2e2f.key");
    assert_eq!(file_name("é"), "c3a9.key");
    let mut store = FileBackend::new();
    assert_eq!(store.put(offline("b", 1), false), Ok(()));
    assert_eq!(store.put(offline("a", 2), false), Ok(()));
    let named = store.named_artifacts();
    assert_eq!(named.len(), 2);
    assert_eq!(named[0].name, "a");
    assert_eq!(named[0].text, encode_entry(&offline("a", 2)));
    assert_eq!(named[1].name, "b");
    assert_eq!(named[1].text, encode_entry(&offline("b", 1)));
}

#[test]
fn files_that_a_store_no_longer_needs() {
    let mut store = FileBackend::new();
    assert_eq!(store.put(offline("a", 1), false), Ok(()));
    assert_eq!(store.put(offline("b", 2), false), Ok(()));
    assert_eq!(store.file_names(), vec!["61.key", "62.key"]);
    let present: Vec<String> = ["lock", "61.key", "63.key", "notes.txt", "62.key", ".key", "key", "x.keys", "64.key"]
        .iter()
        .map(|s| s.to_string())
        .collect();
    assert_eq!(store.stale_files(&present), vec!["63.key", ".key", "64.key"]);
    assert_eq!(store.stale_files(&vec![]), Vec::<String>::new());
    assert_eq!(FileBackend::new().stale_files(&present).len(), 5);
    assert!(names_artifact("61.key"));
    assert!(names_artifact(".key"));
    assert!(!names_artifact("key"));
    assert!(!names_artifact("61.key "));
    assert!(!names_artifact(""));
}

#[test]
fn index_of_the_accounts() {
    let three: Vec<String> = ["amon-key-61", "amon-key-62", "amon-key-"].iter().map(|s| s.to_string()).collect();
    assert_eq!(write_index(&three), "amon-key-61\namon-key-62\namon-key-");
    assert_eq!(read_index(&write_index(&three)), three);
    assert_eq!(write_index(&vec![]), "");
    assert_eq!(read_index(""), Vec::<String>::new());
    assert_eq!(write_index(&vec!["one".to_string()]), "one");
    assert_eq!(read_index("one"), vec!["one"]);
    assert_eq!(read_index("a\n\nb\n"), vec!["a", "", "b", ""]);
    let mut store = OsBackend::new();
    assert_eq!(store.index(), "");
    assert_eq!(store.put(offline("b", 2), false), Ok(()));
    assert_eq!(store.put(offline("a", 1), false), Ok(()));
    assert_eq!(store.accounts(), vec!["amon-key-61", "amon-key-62"]);
    assert_eq!(store.index(), "amon-key-61\namon-key-62");
    assert_eq!(read_index(&store.index()), store.accounts());
    let before: Vec<String> = ["amon-key-60", "amon-key-61", "amon-key-63"].iter().map(|s| s.to_string()).collect();
    assert_eq!(store.stale_accounts(&before), vec!["amon-key-60", "amon-key-63"]);
}

#[test]
fn names_are_listed_by_their_characters() {
    let mut store = MemoryBackend::new();
    for name in ["b", "a", "B", "ab", "é", "z", "a b", "A", "1"] {
        assert_eq!(store.put(offline(name, 0), false), Ok(()));
    }
    let listed = names(&store.list());
    let mut sorted = listed.clone();
    sorted.sort();
    assert_eq!(listed, sorted);
    assert_eq!(listed, vec!["1", "A", "B", "a", "a b", "ab", "b", "z", "é"]);
}

#[test]
fn artifacts_hold_what_was_stored() {
    let mut store = FileBackend::new();
    assert_eq!(store.put(local("alice"), false), Ok(()));
    assert_eq!(store.put(multisig("team"), false), Ok(()));
    assert_eq!(store.put(ledger("device"), false), Ok(()));
    let text = store.artifact("alice").unwrap();
    assert_eq!(text, encode_entry(&local("alice")));
    assert!(same(&decode_entry(&text).unwrap(), &local("alice")));
    assert_eq!(store.artifact("nobody").err(), Some(KeyringError::NotFound));

    let artifacts = store.artifacts();
    assert_eq!(artifacts.len(), 3);
    assert_eq!(artifacts[0], encode_entry(&local("alice")));
    assert_eq!(artifacts[1], encode_entry(&ledger("device")));
    assert_eq!(artifacts[2], encode_entry(&multisig("team")));

    let loaded = FileBackend::load(&artifacts).unwrap();
    assert_eq!(names(&loaded.list()), vec!["alice", "device", "team"]);
    assert!(same(&loaded.get("team").unwrap(), &multisig("team")));
    assert_eq!(loaded.artifacts(), artifacts);
}

#[test]
fn loading_refuses_bad_artifacts() {
    let good = encode_entry(&offline("alice", 1));
    let empty: Vec<String> = vec![];
    assert_eq!(FileBackend::load(&empty).unwrap().list().len(), 0);
    assert_eq!(
        FileBackend::load(&vec![good.clone(), "junk".to_string()]).err(),
        Some(KeyringError::MalformedKey)
    );
    assert_eq!(
        FileBackend::load(&vec![good.clone(), encode_entry(&offline("alice", 2))]).err(),
        Some(KeyringError::AlreadyExists)
    );
    assert_eq!(
        FileBackend::load(&vec!["junk".to_string(), good.clone(), good.clone()]).err(),
        Some(KeyringError::MalformedKey)
    );
}

#[test]
fn stored_text_is_exact() {
    let mut entry = offline("alice", 0);
    entry.public_key = vec![0x01, 0xfe];
    assert_eq!(
        encode_entry(&entry),
        "amon key entry\ntype: offline\nalgorithm: ed25519\npublic-key: 01fe\nname-length: 5\nalice\n"
    );
    assert_eq!(
        encode_entry(&ledger("d")),
        "amon key entry\ntype: ledger\nalgorithm: secp256k1\npublic-key: \nname-length: 1\nd\npath: m/44'/118'/1'/0/2\nprefix-length: 6\ncosmos\n"
    );
    assert_eq!(
        encode_entry(&multisig("m")),
        "amon key entry\ntype: multisig\nalgorithm: secp256k1\npublic-key: 0000000201aabb02cc\nname-length: 1\nm\nthreshold: 2\nmembers: 2\nmember-algorithm: secp256k1\nmember-key: aabb\nmember-algorithm: ed25519\nmember-key: cc\n"
    );
    let mut plain = local("k");
    if let KeyMaterial::Local { path, .. } = &mut plain.material {
        *path = None;
    }
    assert_eq!(
        encode_entry(&plain),
        format!(
            "amon key entry\ntype: local\nalgorithm: secp256k1\npublic-key: {}\nname-length: 1\nk\npath: \nkdf: pbkdf2-hmac-sha512\nrounds: 210000\nsalt: 010203\nnonce: {}\ntag: {}\ndata: {}\n",
            "02".repeat(33),
            "04".repeat(24),
            "07".repeat(16),
            "09".repeat(32)
        )
    );
}

#[test]
fn stored_text_reads_back() {
    let mut odd = offline("two\nlines: and a colon", 5);
    odd.public_key = vec![];
    for entry in [
        offline("alice", 1),
        offline("", 1),
        odd,
        local("alice"),
        ledger("device"),
        multisig("team"),
        offline("né", 9),
    ] {
        let text = encode_entry(&entry);
        let back = decode_entry(&text).unwrap();
        assert_eq!(back.name, entry.name);
        assert_eq!(back.algorithm, entry.algorithm);
        assert_eq!(back.public_key, entry.public_key);
        assert_eq!(back.key_type(), entry.key_type());
        assert_eq!(encode_entry(&back), text);
    }
    let back = decode_entry(&encode_entry(&local("alice"))).unwrap();
    assert_eq!(back.key_type(), KeyType::Local);
    assert_eq!(back.derivation_path().unwrap().to_text(), "m/44'/118'/0'/0/0");
    assert_eq!(back.encrypted_secret().unwrap().salt, vec![1, 2, 3]);
    let back = decode_entry(&encode_entry(&multisig("team"))).unwrap();
    assert_eq!(back.multisig().unwrap().threshold(), 2);
    assert_eq!(back.multisig().unwrap().members().len(), 2);
    assert!(back.encrypted_secret().is_none());
    assert!(back.derivation_path().is_none());
    let back = decode_entry(&encode_entry(&ledger("device"))).unwrap();
    assert_eq!(back.derivation_path().unwrap().to_text(), "m/44'/118'/1'/0/2");
    assert!(back.multisig().is_none());
}

#[test]
fn other_texts_are_no_entries() {
    let good = encode_entry(&multisig("m"));
    let cases = [
        String::new(),
        "junk".to_string(),
        good.replace("threshold: 2", "threshold: 3"),
        good.replace("threshold: 2", "threshold: 0"),
        good.replace("members: 2", "members: 3"),
        good.replace("members: 2", "members: 1"),
        good.replace("name-length: 1", "name-length: 2"),
        good.replace("name-length: 1", "name-length: 0"),
        good.replace("name-length: 1", "name-length: 01"),
        good.replace("type: multisig", "type: offline"),
        good.replace("type: multisig", "type: other"),
        good.replace("member-key: cc", "member-key: CC"),
        good.replace("ed25519", "x25519"),
        format!("{}\n", good),
        good.trim_end().to_string(),
        encode_entry(&ledger("d")).replace("path: m/44'/118'/1'/0/2", "path: "),
        encode_entry(&ledger("d")).replace("path: m/44'/118'/1'/0/2", "path: m/044"),
        encode_entry(&ledger("d")).replace("prefix-length: 6", "prefix-length: 7"),
        encode_entry(&offline("a", 1)).replace("amon key entry", "other key entry"),
    ];
    for text in cases.iter() {
        assert_eq!(decode_entry(text).err(), Some(KeyringError::MalformedKey), "{:?}", text);
    }
}

#[test]
fn backend_selectors() {
    assert_eq!(BackendKind::from_selector("os"), Ok(BackendKind::Os));
    assert_eq!(BackendKind::from_selector("file"), Ok(BackendKind::File));
    assert_eq!(BackendKind::from_selector("memory"), Ok(BackendKind::Memory));
    assert_eq!(BackendKind::from_selector("test"), Ok(BackendKind::Memory));
    for other in ["", "OS", "kwallet", "pass", "files", " os", "memory "] {
        assert_eq!(BackendKind::from_selector(other), Err(KeyringError::UnknownBackend));
    }
    for kind in [BackendKind::Os, BackendKind::File, BackendKind::Memory] {
        assert_eq!(BackendKind::from_selector(kind.selector()), Ok(kind));
    }
    assert_eq!(BackendKind::Os.selector(), "os");
    assert_eq!(BackendKind::File.selector(), "file");
    assert_eq!(BackendKind::Memory.selector(), "memory");
}
