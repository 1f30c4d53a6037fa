//! Mnemonic phrases: making them, checking them and stretching them into
//! seeds.

use vstd::prelude::*;
use vstd::string::StringSliceAdditionalSpecFns;
use vstd::utf8::encode_utf8;
use crate::bytes::append_bytes;
use crate::error::KeyringError;
use crate::primitives::{
    bip39_accepts, bip39_check, bip39_phrase, bip39_phrase_of, pbkdf2_hmac_sha512, pbkdf2_stretch,
    random_bytes,
};
use crate::text::chars_of;

verus! {

/// Rounds of stretching that turn a phrase into a seed.
pub const SEED_ROUNDS: u32 = 2048;

/// Number of bytes in a seed.
pub const SEED_LEN: usize = 64;

/// Bits of entropy behind a phrase when none are asked for.
pub const DEFAULT_ENTROPY_BITS: u32 = 256;

/// Whether `c` parts words: a space, a tab, an end of line, or any other
/// character that counts as white space, as the outside crate parts the
/// words of a phrase.
pub open spec fn is_gap(c: char) -> bool {
    c == '\u{9}' || c == '\u{A}' || c == '\u{B}' || c == '\u{C}' || c == '\u{D}' || c == ' ' || c
        == '\u{85}' || c == '\u{A0}' || c == '\u{1680}' || c == '\u{2000}' || c == '\u{2001}' || c
        == '\u{2002}' || c == '\u{2003}' || c == '\u{2004}' || c == '\u{2005}' || c == '\u{2006}'
        || c == '\u{2007}' || c == '\u{2008}' || c == '\u{2009}' || c == '\u{200A}' || c
        == '\u{2028}' || c == '\u{2029}' || c == '\u{202F}' || c == '\u{205F}' || c == '\u{3000}'
}

/// Whether a word starts at position `i` of `s`: a character that parts
/// no words, at the front or behind one that does.
pub open spec fn starts_word(s: Seq<char>, i: int) -> bool {
    !is_gap(s[i]) && (i == 0 || is_gap(s[i - 1]))
}

/// How many words `s` holds, a word being a run of characters that part
/// no words.
pub open spec fn word_count(s: Seq<char>) -> nat
    decreases s.len(),
{
    if s.len() == 0 {
        0
    } else if starts_word(s, s.len() - 1) {
        word_count(s.drop_last()) + 1
    } else {
        word_count(s.drop_last())
    }
}

/// Whether a phrase may have `n` words.
pub open spec fn accepted_word_count(n: nat) -> bool {
    n == 12 || n == 15 || n == 18 || n == 21 || n == 24
}

/// Whether entropy may have `bits` bits.
pub open spec fn accepted_entropy_bits(bits: u32) -> bool {
    bits == 128 || bits == 160 || bits == 192 || bits == 224 || bits == 256
}

/// Whether `phrase` is a mnemonic: an accepted number of words, parted by
/// white space as the outside crate parts them, all known, with a
/// checksum that matches.
pub open spec fn is_mnemonic(phrase: Seq<char>) -> bool {
    accepted_word_count(word_count(phrase)) && bip39_accepts(phrase)
}

/// The salt that goes with a passphrase: the word `mnemonic` and the
/// passphrase behind it.
pub open spec fn seed_salt(passphrase: Seq<char>) -> Seq<u8> {
    "mnemonic".spec_bytes() + encode_utf8(passphrase)
}

/// The seed of a phrase and a passphrase: the phrase as it stands,
/// stretched with the salt in a fixed number of rounds.
pub open spec fn seed_of(phrase: Seq<char>, passphrase: Seq<char>) -> Seq<u8> {
    pbkdf2_hmac_sha512(encode_utf8(phrase), seed_salt(passphrase), SEED_ROUNDS, SEED_LEN as nat)
}

/// What forming a mnemonic from entropy yields.
pub open spec fn phrase_from_entropy(entropy: Seq<u8>) -> Result<Seq<char>, KeyringError> {
    match bip39_phrase(entropy) {
        Some(phrase) => if is_mnemonic(phrase) {
            Ok(phrase)
        } else {
            Err(KeyringError::InvalidMnemonic)
        },
        None => Err(KeyringError::InvalidMnemonic),
    }
}

/// What forming a mnemonic of a given size from entropy yields: the
/// mnemonic of the entropy where it has three words for every 32 bits of
/// the size, and no mnemonic otherwise.
pub open spec fn sized_phrase(entropy: Seq<u8>, entropy_bits: u32) -> Result<
    Seq<char>,
    KeyringError,
> {
    match phrase_from_entropy(entropy) {
        Ok(phrase) => if word_count(phrase) == entropy_bits / 32 * 3 {
            Ok(phrase)
        } else {
            Err(KeyringError::InvalidMnemonic)
        },
        Err(e) => Err(e),
    }
}

/// A mnemonic phrase. Every value of this type has passed [`validate`].
pub struct Mnemonic {
    phrase: String,
}

impl View for Mnemonic {
    type V = Seq<char>;

    closed spec fn view(&self) -> Seq<char> {
        self.phrase@
    }
}

/// Whether `c` parts words.
pub fn parts_words(c: char) -> (r: bool)
    ensures
        r == is_gap(c),
{
    c == '\u{9}' || c == '\u{A}' || c == '\u{B}' || c == '\u{C}' || c == '\u{D}' || c == ' ' || c
        == '\u{85}' || c == '\u{A0}' || c == '\u{1680}' || c == '\u{2000}' || c == '\u{2001}' || c
        == '\u{2002}' || c == '\u{2003}' || c == '\u{2004}' || c == '\u{2005}' || c == '\u{2006}'
        || c == '\u{2007}' || c == '\u{2008}' || c == '\u{2009}' || c == '\u{200A}' || c
        == '\u{2028}' || c == '\u{2029}' || c == '\u{202F}' || c == '\u{205F}' || c == '\u{3000}'
}

/// Counts the words of a phrase.
pub fn count_words(phrase: &str) -> (n: usize)
    ensures
        n == word_count(phrase@),
{
    let chars = chars_of(phrase);
    let mut n: usize = 0;
    let mut i: usize = 0;
    assert(chars@.take(0) =~= Seq::<char>::empty());
    while i < chars.len()
        invariant
            i <= chars@.len(),
            n <= i,
            n == word_count(chars@.take(i as int)),
        decreases chars@.len() - i,
    {
        let ghost front = chars@.take(i + 1);
        assert(front.drop_last() =~= chars@.take(i as int));
        assert(front[i as int] == chars@[i as int]);
        if !parts_words(chars[i]) && (i == 0 || parts_words(chars[i - 1])) {
            assert(i > 0 ==> front[i - 1] == chars@[i - 1]);
            n = n + 1;
        } else {
            assert(i > 0 ==> front[i - 1] == chars@[i - 1]);
        }
        i = i + 1;
    }
    assert(chars@.take(i as int) =~= chars@);
    n
}

/// Whether the words form a mnemonic: an accepted count, and a checksum
/// that matches when it is computed again.
pub fn validate(words: &str) -> (ok: bool)
    ensures
        ok == is_mnemonic(words@),
{
    let n = count_words(words);
    if n == 12 || n == 15 || n == 18 || n == 21 || n == 24 {
        bip39_check(words)
    } else {
        false
    }
}

impl Mnemonic {
    #[verifier::type_invariant]
    spec fn well_formed(self) -> bool {
        is_mnemonic(self.phrase@)
    }

    /// Takes the words as a mnemonic if they form one.
    pub fn parse(words: &str) -> (r: Result<Mnemonic, KeyringError>)
        ensures
            match r {
                Ok(m) => is_mnemonic(words@) && m@ == words@,
                Err(e) => e == KeyringError::InvalidMnemonic && !is_mnemonic(words@),
            },
    {
        if validate(words) {
            Ok(Mnemonic { phrase: words.to_owned() })
        } else {
            Err(KeyringError::InvalidMnemonic)
        }
    }

    /// Forms the mnemonic of the given entropy, and checks it before it is
    /// handed out.
    pub fn from_entropy(entropy: &[u8]) -> (r: Result<Mnemonic, KeyringError>)
        ensures
            match r {
                Ok(m) => phrase_from_entropy(entropy@) == Ok::<Seq<char>, KeyringError>(m@),
                Err(e) => phrase_from_entropy(entropy@) == Err::<Seq<char>, KeyringError>(e),
            },
    {
        match bip39_phrase_of(entropy) {
            None => Err(KeyringError::InvalidMnemonic),
            Some(phrase) => {
                if validate(phrase.as_str()) {
                    Ok(Mnemonic { phrase })
                } else {
                    Err(KeyringError::InvalidMnemonic)
                }
            },
        }
    }

    /// Forms the mnemonic of entropy that was drawn for the given size,
    /// and holds its number of words against the size.
    pub fn from_drawn(entropy: &[u8], entropy_bits: u32) -> (r: Result<Mnemonic, KeyringError>)
        ensures
            match r {
                Ok(m) => sized_phrase(entropy@, entropy_bits) == Ok::<Seq<char>, KeyringError>(m@),
                Err(e) => sized_phrase(entropy@, entropy_bits) == Err::<Seq<char>, KeyringError>(
                    e,
                ),
            },
    {
        match Mnemonic::from_entropy(entropy) {
            Err(e) => Err(e),
            Ok(m) => {
                let n = count_words(m.phrase.as_str());
                if n == (entropy_bits / 32 * 3) as usize {
                    Ok(m)
                } else {
                    Err(KeyringError::InvalidMnemonic)
                }
            },
        }
    }

    /// Draws entropy of the given size from the system's random source and
    /// forms its mnemonic.
    ///
    /// A size other than 128, 160, 192, 224 or 256 bits is refused before
    /// anything is drawn. For any other size as many bytes are drawn as
    /// the size has, and the outcome is what [`Mnemonic::from_drawn`]
    /// makes of them: a mnemonic with three words for every 32 bits, or
    /// the failure to form one. The random source may fail as well.
    pub fn generate(entropy_bits: u32) -> (r: Result<Mnemonic, KeyringError>)
        ensures
            !accepted_entropy_bits(entropy_bits) ==> r == Err::<Mnemonic, KeyringError>(
                KeyringError::InvalidMnemonic,
            ),
            accepted_entropy_bits(entropy_bits) ==> match r {
                Ok(m) => is_mnemonic(m@) && word_count(m@) == entropy_bits / 32 * 3 && exists|
                    entropy: Seq<u8>,
                |
                    entropy.len() == entropy_bits / 8 && #[trigger] sized_phrase(
                        entropy,
                        entropy_bits,
                    ) == Ok::<Seq<char>, KeyringError>(m@),
                Err(e) => e == KeyringError::EntropyUnavailable || (e
                    == KeyringError::InvalidMnemonic && exists|entropy: Seq<u8>|
                    entropy.len() == entropy_bits / 8 && #[trigger] sized_phrase(
                        entropy,
                        entropy_bits,
                    ) is Err),
            },
    {
        if !(entropy_bits == 128 || entropy_bits == 160 || entropy_bits == 192 || entropy_bits
            == 224 || entropy_bits == 256) {
            return Err(KeyringError::InvalidMnemonic);
        }
        let len: usize = (entropy_bits / 8) as usize;
        match random_bytes(len) {
            None => Err(KeyringError::EntropyUnavailable),
            Some(entropy) => {
                Mnemonic::from_drawn(entropy.as_slice(), entropy_bits)
            },
        }
    }

    /// The words of the mnemonic, as they were given or generated.
    pub fn phrase(&self) -> (words: &str)
        ensures
            words@ == self@,
            is_mnemonic(words@),
    {
        proof {
            use_type_invariant(self);
        }
        self.phrase.as_str()
    }

    /// Stretches the mnemonic and a passphrase into a seed of 64 bytes.
    pub fn to_seed(&self, passphrase: &str) -> (seed: Vec<u8>)
        ensures
            seed@ == seed_of(self@, passphrase@),
            seed@.len() == SEED_LEN,
    {
        let mut salt: Vec<u8> = Vec::new();
        append_bytes(&mut salt, "mnemonic".as_bytes());
        append_bytes(&mut salt, passphrase.as_bytes());
        assert(salt@ =~= seed_salt(passphrase@));
        pbkdf2_stretch(self.phrase.as_str().as_bytes(), salt.as_slice(), SEED_ROUNDS, SEED_LEN)
    }
}

/// A mnemonic that was generated passes validation: every mnemonic that
/// this library hands out does.
pub proof fn lemma_generated_mnemonic_validates(entropy: Seq<u8>, phrase: Seq<char>)
    requires
        phrase_from_entropy(entropy) == Ok::<Seq<char>, KeyringError>(phrase),
    ensures
        is_mnemonic(phrase),
{
}

/// A mnemonic that was formed for a size validates and has three words
/// for every 32 bits of the size.
pub proof fn lemma_sized_mnemonic_validates(entropy: Seq<u8>, entropy_bits: u32, phrase: Seq<char>)
    requires
        sized_phrase(entropy, entropy_bits) == Ok::<Seq<char>, KeyringError>(phrase),
    ensures
        is_mnemonic(phrase),
        word_count(phrase) == entropy_bits / 32 * 3,
{
}

/// The same phrase and passphrase always give the same seed.
pub proof fn lemma_seed_is_repeatable(
    phrase: Seq<char>,
    passphrase: Seq<char>,
    other_phrase: Seq<char>,
    other_passphrase: Seq<char>,
)
    requires
        phrase == other_phrase,
        passphrase == other_passphrase,
    ensures
        seed_of(phrase, passphrase) == seed_of(other_phrase, other_passphrase),
{
}

} // verus!
