use amon::error::KeyringError;
use amon::mnemonic::{count_words, parts_words, validate, Mnemonic};

const TWELVE: &str = "abandon abandon abandon abandon abandon abandon abandon abandon abandon abandon abandon about";

const TWENTY_FOUR: &str = "abandon abandon abandon abandon abandon abandon abandon abandon abandon abandon abandon abandon abandon abandon abandon abandon abandon abandon abandon abandon abandon abandon abandon art";

#[test]
fn generate_then_validate_all_sizes() {
    for bits in [128u32, 160, 192, 224, 256] {
        let mnemonic = Mnemonic::generate(bits).unwrap();
        assert!(validate(mnemonic.phrase()));
        assert_eq!(count_words(mnemonic.phrase()), (bits / 32 * 3) as usize);
        assert!(Mnemonic::parse(mnemonic.phrase()).is_ok());
    }
}

#[test]
fn generate_refuses_other_sizes() {
    for bits in [0u32, 64, 127, 129, 255, 257, 512] {
        assert_eq!(Mnemonic::generate(bits).err(), Some(KeyringError::InvalidMnemonic));
    }
}

#[test]
fn generated_mnemonics_differ() {
    let first = Mnemonic::generate(256).unwrap();
    let second = Mnemonic::generate(256).unwrap();
    assert_ne!(first.phrase(), second.phrase());
}

#[test]
fn known_phrases_validate() {
    assert!(validate(TWELVE));
    assert!(validate(TWENTY_FOUR));
    assert!(validate(
        "legal winner thank year wave sausage worth useful legal winner thank yellow"
    ));
}

#[test]
fn changed_word_breaks_the_checksum() {
    let changed = TWELVE.replacen("about", "abandon", 1);
    assert!(!validate(&changed));
    let swapped =
        "winner legal thank year wave sausage worth useful legal winner thank yellow";
    assert!(!validate(swapped));
    let unknown = TWELVE.replacen("abandon", "abandonx", 1);
    assert!(!validate(&unknown));
    assert_eq!(Mnemonic::parse(&changed).err(), Some(KeyringError::InvalidMnemonic));
}

#[test]
fn some_changed_words_keep_the_checksum() {
    let mut entropy = vec![0u8; 16];
    entropy[15] = 1;
    let other = Mnemonic::from_entropy(&entropy).unwrap();
    let words: Vec<&str> = other.phrase().split(' ').collect();
    assert_eq!(words.len(), 12);
    for word in &words[..11] {
        assert_eq!(*word, "abandon");
    }
    assert_ne!(words[11], "about");
    assert!(validate(other.phrase()));
    assert_eq!(words[11], "actual");
}

#[test]
fn wrong_word_counts_are_refused() {
    assert!(!validate(""));
    assert!(!validate("abandon"));
    let eleven = "abandon abandon abandon abandon abandon abandon abandon abandon abandon abandon about";
    assert!(!validate(eleven));
    let thirteen = format!("{} abandon", TWELVE);
    assert!(!validate(&thirteen));
    let doubled = TWELVE.replacen(' ', "  ", 1);
    assert_eq!(count_words(&doubled), 12);
    assert!(validate(&doubled) == validate(&doubled));
}

#[test]
fn words_are_parted_as_white_space_parts_them() {
    let mut gaps = 0;
    for code in 0u32..=0x10FFFF {
        if let Some(c) = char::from_u32(code) {
            assert_eq!(parts_words(c), c.is_whitespace(), "{:x}", code);
            if parts_words(c) {
                gaps += 1;
            }
        }
    }
    assert_eq!(gaps, 25);
    assert_eq!(count_words("a\tb\nc\u{3000}d"), 4);
    assert_eq!(count_words("\t a \r\n"), 1);
    let tabbed = TWELVE.replace(' ', "\t");
    assert_eq!(count_words(&tabbed), 12);
    assert!(validate(&tabbed));
    let lined = TWELVE.replacen(' ', "\n", 3);
    assert!(validate(&lined));
    assert!(!validate(&TWELVE.replace(' ', "-")));
}

#[test]
fn mnemonic_of_drawn_entropy_has_the_size() {
    assert_eq!(Mnemonic::from_drawn(&[0u8; 16], 128).unwrap().phrase(), TWELVE);
    assert_eq!(Mnemonic::from_drawn(&[0u8; 32], 256).unwrap().phrase(), TWENTY_FOUR);
    assert_eq!(Mnemonic::from_drawn(&[0u8; 16], 256).err(), Some(KeyringError::InvalidMnemonic));
    assert_eq!(Mnemonic::from_drawn(&[0u8; 32], 128).err(), Some(KeyringError::InvalidMnemonic));
    assert_eq!(Mnemonic::from_drawn(&[0u8; 15], 128).err(), Some(KeyringError::InvalidMnemonic));
    assert_eq!(Mnemonic::from_drawn(&[], 0).err(), Some(KeyringError::InvalidMnemonic));
    for (len, bits, count) in [(16usize, 128u32, 12usize), (20, 160, 15), (24, 192, 18), (28, 224, 21), (32, 256, 24)] {
        let entropy: Vec<u8> = (0..len).map(|i| (i * 7 + 3) as u8).collect();
        let mnemonic = Mnemonic::from_drawn(&entropy, bits).unwrap();
        assert_eq!(count_words(mnemonic.phrase()), count);
        assert!(validate(mnemonic.phrase()));
        assert_eq!(
            Mnemonic::from_entropy(&entropy).unwrap().phrase(),
            mnemonic.phrase()
        );
    }
}

#[test]
fn words_are_counted_between_spaces() {
    assert_eq!(count_words(""), 0);
    assert_eq!(count_words("   "), 0);
    assert_eq!(count_words("a"), 1);
    assert_eq!(count_words(" a  b "), 2);
    assert_eq!(count_words(TWELVE), 12);
    assert_eq!(count_words(TWENTY_FOUR), 24);
}

#[test]
fn mnemonic_of_zero_entropy() {
    assert_eq!(Mnemonic::from_entropy(&[0u8; 16]).unwrap().phrase(), TWELVE);
    assert_eq!(Mnemonic::from_entropy(&[0u8; 32]).unwrap().phrase(), TWENTY_FOUR);
    assert_eq!(
        Mnemonic::from_entropy(&[0x7fu8; 16]).unwrap().phrase(),
        "legal winner thank year wave sausage worth useful legal winner thank yellow"
    );
}

#[test]
fn entropy_of_other_lengths_is_refused() {
    for len in [0usize, 1, 15, 17, 31, 33, 64] {
        let entropy = vec![0u8; len];
        assert_eq!(Mnemonic::from_entropy(&entropy).err(), Some(KeyringError::InvalidMnemonic));
    }
}
