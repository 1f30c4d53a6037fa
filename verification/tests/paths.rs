use amon::error::KeyringError;
use amon::hd_path::{HDPath, HARDENED, PURPOSE};

#[test]
fn standard_path_text() {
    let path = HDPath::build(118, 0, 0).unwrap();
    assert_eq!(path.to_text(), "m/44'/118'/0'/0/0");
    assert_eq!(
        path.levels(),
        &vec![PURPOSE + HARDENED, 118 + HARDENED, HARDENED, 0, 0]
    );
    let other = HDPath::build(60, 7, 12).unwrap();
    assert_eq!(other.to_text(), "m/44'/60'/7'/0/12");
}

#[test]
fn largest_index_is_accepted() {
    let path = HDPath::build(2_147_483_647, 2_147_483_647, 2_147_483_647).unwrap();
    assert_eq!(
        path.to_text(),
        "m/44'/2147483647'/2147483647'/0/2147483647"
    );
}

#[test]
fn index_beyond_range_is_refused() {
    assert_eq!(
        HDPath::build(118, 2_147_483_648, 0).err(),
        Some(KeyringError::IncompatibleOptions)
    );
    assert_eq!(
        HDPath::build(118, 0, 2_147_483_648).err(),
        Some(KeyringError::IncompatibleOptions)
    );
    assert_eq!(
        HDPath::build(u32::MAX, 0, 0).err(),
        Some(KeyringError::IncompatibleOptions)
    );
}

#[test]
fn path_text_reads_back() {
    for text in ["m", "m/0", "m/0'", "m/44'/118'/0'/0/0", "m/2147483647'/2147483647", "m/1/2/3/4/5/6/7"] {
        let path = HDPath::parse(text).unwrap();
        assert_eq!(path.to_text(), text);
    }
    let path = HDPath::parse("m/44'/118'/0'/0/0").unwrap();
    assert_eq!(path.levels(), HDPath::build(118, 0, 0).unwrap().levels());
    assert_eq!(HDPath::parse("m").unwrap().levels().len(), 0);
    assert_eq!(HDPath::parse("m/5'").unwrap().levels(), &vec![5 + HARDENED]);
}

#[test]
fn levels_give_their_text() {
    assert_eq!(HDPath::from_levels(vec![]).to_text(), "m");
    assert_eq!(HDPath::from_levels(vec![0, HARDENED, u32::MAX]).to_text(), "m/0/0'/2147483647'");
    assert_eq!(HDPath::from_levels(vec![10, 100]).to_text(), "m/10/100");
}

#[test]
fn other_texts_are_no_paths() {
    for text in [
        "",
        "M",
        "m/",
        "/0",
        "44'/0",
        "m/044",
        "m/00",
        "m/2147483648",
        "m/2147483648'",
        "m/99999999999999999999999",
        "m/1''",
        "m/'",
        "m/1/",
        "m//1",
        "m/-1",
        "m/1 ",
        " m/1",
        "m/1h",
        "m/a",
        "m/1\n",
    ] {
        assert_eq!(
            HDPath::parse(text).err(),
            Some(KeyringError::IncompatibleOptions),
            "{:?}",
            text
        );
    }
}
