//! Hierarchical-deterministic derivation paths and their canonical text.

use vstd::prelude::*;
use crate::error::KeyringError;
use crate::text::{
    chars_of, decimal_in, decimal_text, field_end, find_field_end, free_of, is_digit,
    lemma_decimal_round_trip, lemma_digits_free_of, lemma_field_end_found,
    lemma_field_end_whole, lemma_free_of_joined, parse_u64, push_decimal, range_is, string_of,
};

verus! {

/// A level at or above this number is hardened.
pub const HARDENED: u32 = 0x8000_0000;

/// The purpose level of the standard account layout.
pub const PURPOSE: u32 = 44;

/// A derivation path: the child number of each level below the master key,
/// a hardened level being its index plus [`HARDENED`].
#[derive(Debug)]
pub struct HDPath {
    levels: Vec<u32>,
}

impl View for HDPath {
    type V = Seq<u32>;

    closed spec fn view(&self) -> Seq<u32> {
        self.levels@
    }
}

/// The text of one level: its index, and an apostrophe where it is
/// hardened.
pub open spec fn level_text(raw: u32) -> Seq<char> {
    if raw >= HARDENED {
        decimal_text((raw - HARDENED) as nat).push('\'')
    } else {
        decimal_text(raw as nat)
    }
}

/// The text of the levels, each behind a slash.
pub open spec fn levels_text(levels: Seq<u32>) -> Seq<char>
    decreases levels.len(),
{
    if levels.len() == 0 {
        Seq::empty()
    } else {
        seq!['/'] + level_text(levels[0]) + levels_text(levels.drop_first())
    }
}

/// The canonical text of a path: `m`, and the levels behind it.
pub open spec fn path_text(levels: Seq<u32>) -> Seq<char> {
    seq!['m'] + levels_text(levels)
}

/// The levels of the standard account layout,
/// `m/44'/coin_type'/account'/0/index`.
pub open spec fn account_levels(coin_type: u32, account: u32, index: u32) -> Seq<u32> {
    seq![
        (PURPOSE + HARDENED) as u32,
        (coin_type + HARDENED) as u32,
        (account + HARDENED) as u32,
        0u32,
        index,
    ]
}

/// The level that `s` is the text of, if it is one.
pub open spec fn parse_level(s: Seq<char>) -> Option<u32> {
    if s.len() > 0 && s.last() == '\'' {
        match parse_u64(s.drop_last()) {
            Some(n) => if n < HARDENED {
                Some((n + HARDENED) as u32)
            } else {
                None
            },
            None => None,
        }
    } else {
        match parse_u64(s) {
            Some(n) => if n < HARDENED {
                Some(n as u32)
            } else {
                None
            },
            None => None,
        }
    }
}

/// The levels that `s` is the text of, if it is one.
pub open spec fn parse_levels(s: Seq<char>) -> Option<Seq<u32>>
    decreases s.len(),
{
    if s.len() == 0 {
        Some(Seq::empty())
    } else if s[0] != '/' {
        None
    } else {
        let body = s.drop_first();
        let end = field_end(body, '/');
        if 0 <= end <= body.len() {
            match parse_level(body.take(end)) {
                None => None,
                Some(raw) => match parse_levels(body.skip(end)) {
                    None => None,
                    Some(rest) => Some(seq![raw] + rest),
                },
            }
        } else {
            None
        }
    }
}

/// The levels that the reader finds in `s`.
pub open spec fn parse_path(s: Seq<char>) -> Option<Seq<u32>> {
    if s.len() == 0 || s[0] != 'm' {
        None
    } else {
        parse_levels(s.drop_first())
    }
}

/// The path that `s` is the canonical text of, if it is one.
pub open spec fn path_of_text(s: Seq<char>) -> Option<Seq<u32>> {
    match parse_path(s) {
        Some(levels) => if path_text(levels) == s {
            Some(levels)
        } else {
            None
        },
        None => None,
    }
}

proof fn lemma_level_round_trip(raw: u32)
    ensures
        parse_level(level_text(raw)) == Some(raw),
        free_of(level_text(raw), '/'),
        level_text(raw).len() >= 1,
{
    let index: nat = if raw >= HARDENED {
        (raw - HARDENED) as nat
    } else {
        raw as nat
    };
    lemma_decimal_round_trip(index);
    let digits = decimal_text(index);
    assert(free_of(digits, '/')) by {
        assert forall|i: int| 0 <= i < digits.len() implies #[trigger] digits[i] != '/' by {
            assert(is_digit(digits[i]));
        }
    }
    if raw >= HARDENED {
        assert(digits.push('\'').drop_last() =~= digits);
    } else {
        assert(is_digit(digits.last()));
    }
}

proof fn lemma_levels_round_trip(levels: Seq<u32>)
    ensures
        parse_levels(levels_text(levels)) == Some(levels),
        levels.len() > 0 ==> levels_text(levels)[0] == '/',
    decreases levels.len(),
{
    if levels.len() > 0 {
        let rest = levels.drop_first();
        let first = level_text(levels[0]);
        let tail = levels_text(rest);
        let s = levels_text(levels);
        lemma_level_round_trip(levels[0]);
        lemma_levels_round_trip(rest);
        let body = s.drop_first();
        assert(body =~= first + tail);
        if rest.len() == 0 {
            assert(body =~= first);
            lemma_field_end_whole(first, '/');
        } else {
            assert(tail =~= seq!['/'] + tail.drop_first());
            assert(body =~= first + seq!['/'] + tail.drop_first());
            lemma_field_end_found(first, '/', tail.drop_first());
        }
        assert(body.take(first.len() as int) =~= first);
        assert(body.skip(first.len() as int) =~= tail);
        assert(seq![levels[0]] + rest =~= levels);
    }
}

/// The canonical text of a path reads back as that path.
pub proof fn lemma_path_round_trip(levels: Seq<u32>)
    ensures
        parse_path(path_text(levels)) == Some(levels),
{
    lemma_levels_round_trip(levels);
    assert(path_text(levels).drop_first() =~= levels_text(levels));
}

proof fn lemma_levels_text_one_line(levels: Seq<u32>)
    ensures
        free_of(levels_text(levels), '\n'),
    decreases levels.len(),
{
    if levels.len() > 0 {
        let raw = levels[0];
        let index: nat = if raw >= HARDENED {
            (raw - HARDENED) as nat
        } else {
            raw as nat
        };
        lemma_decimal_round_trip(index);
        lemma_digits_free_of(decimal_text(index), '\n');
        assert(free_of(level_text(raw), '\n'));
        lemma_levels_text_one_line(levels.drop_first());
        lemma_free_of_joined(seq!['/'], level_text(raw), '\n');
        lemma_free_of_joined(
            seq!['/'] + level_text(raw),
            levels_text(levels.drop_first()),
            '\n',
        );
    }
}

/// The canonical text of a path is not empty and stays on one line.
pub proof fn lemma_path_text_one_line(levels: Seq<u32>)
    ensures
        path_text(levels).len() >= 1,
        free_of(path_text(levels), '\n'),
{
    lemma_levels_text_one_line(levels);
    lemma_free_of_joined(seq!['m'], levels_text(levels), '\n');
}

/// The canonical text of a path is the text of that path and of no other.
pub proof fn lemma_path_of_text(levels: Seq<u32>)
    ensures
        path_of_text(path_text(levels)) == Some(levels),
{
    lemma_path_round_trip(levels);
}

/// Two paths with the same canonical text are the same path.
pub proof fn lemma_path_text_injective(a: Seq<u32>, b: Seq<u32>)
    requires
        path_text(a) == path_text(b),
    ensures
        a == b,
{
    lemma_path_round_trip(a);
    lemma_path_round_trip(b);
}

fn read_level(input: &Vec<char>, from: usize, to: usize) -> (r: Option<u32>)
    requires
        from <= to <= input@.len(),
    ensures
        r == parse_level(input@.subrange(from as int, to as int)),
{
    let ghost s = input@.subrange(from as int, to as int);
    if to > from && input[to - 1] == '\'' {
        assert(s.last() == '\'');
        assert(s.drop_last() =~= input@.subrange(from as int, to - 1));
        match decimal_in(input, from, to - 1) {
            Some(n) => if n < HARDENED as u64 {
                Some(n as u32 + HARDENED)
            } else {
                None
            },
            None => None,
        }
    } else {
        if to > from {
            assert(s.last() == input@[to - 1]);
        }
        match decimal_in(input, from, to) {
            Some(n) => if n < HARDENED as u64 {
                Some(n as u32)
            } else {
                None
            },
            None => None,
        }
    }
}

fn read_path(input: &Vec<char>) -> (r: Option<Vec<u32>>)
    ensures
        match r {
            Some(levels) => parse_path(input@) == Some(levels@),
            None => parse_path(input@) is None,
        },
{
    if input.len() == 0 || input[0] != 'm' {
        return None;
    }
    let mut levels: Vec<u32> = Vec::new();
    let mut pos: usize = 1;
    assert(input@.drop_first() =~= input@.skip(1));
    assert(Seq::<u32>::empty() + parse_levels(input@.skip(1))->0 =~= parse_levels(
        input@.skip(1),
    )->0);
    while pos < input.len()
        invariant
            1 <= pos <= input@.len(),
            parse_path(input@) == parse_levels(input@.skip(1)),
            parse_levels(input@.skip(1)) == match parse_levels(input@.skip(pos as int)) {
                Some(rest) => Some(levels@ + rest),
                None => None::<Seq<u32>>,
            },
        decreases input@.len() - pos,
    {
        let ghost here = input@.skip(pos as int);
        assert(here[0] == input@[pos as int]);
        if input[pos] != '/' {
            return None;
        }
        let start = pos + 1;
        let end = find_field_end(input, start, '/');
        proof {
            assert(here.drop_first() =~= input@.skip(start as int));
            assert(input@.skip(start as int).take(end - start) =~= input@.subrange(
                start as int,
                end as int,
            ));
            assert(input@.skip(start as int).skip(end - start) =~= input@.skip(end as int));
        }
        match read_level(input, start, end) {
            None => {
                return None;
            },
            Some(raw) => {
                proof {
                    let after = parse_levels(input@.skip(end as int));
                    if after is Some {
                        assert(levels@ + (seq![raw] + after->0) =~= levels@.push(raw) + after->0);
                    }
                }
                levels.push(raw);
            },
        }
        pos = end;
    }
    assert(input@.skip(pos as int) =~= Seq::<char>::empty());
    assert(levels@ + Seq::<u32>::empty() =~= levels@);
    Some(levels)
}

fn write_path(levels: &Vec<u32>) -> (out: Vec<char>)
    ensures
        out@ == path_text(levels@),
{
    let mut out: Vec<char> = Vec::new();
    out.push('m');
    let mut i: usize = 0;
    assert(levels@.skip(0) =~= levels@);
    while i < levels.len()
        invariant
            i <= levels@.len(),
            out@ + levels_text(levels@.skip(i as int)) == path_text(levels@),
        decreases levels@.len() - i,
    {
        let ghost before = out@;
        let ghost rest = levels@.skip(i as int);
        let raw = levels[i];
        assert(rest[0] == raw);
        assert(rest.drop_first() =~= levels@.skip(i + 1));
        out.push('/');
        if raw >= HARDENED {
            push_decimal(&mut out, (raw - HARDENED) as u64);
            out.push('\'');
        } else {
            push_decimal(&mut out, raw as u64);
        }
        assert(out@ =~= before + (seq!['/'] + level_text(raw)));
        assert(out@ + levels_text(levels@.skip(i + 1)) =~= before + levels_text(rest));
        i = i + 1;
    }
    assert(levels_text(levels@.skip(i as int)) =~= Seq::<char>::empty());
    assert(out@ + Seq::<char>::empty() =~= out@);
    out
}

impl Clone for HDPath {
    fn clone(&self) -> (r: Self)
        ensures
            r@ == self@,
    {
        let levels = self.levels.clone();
        assert(levels@ =~= self.levels@);
        HDPath { levels }
    }
}

impl HDPath {
    /// The path `m/44'/coin_type'/account'/0/index`.
    ///
    /// The three numbers must stay below 2^31, the range in which a level
    /// can be hardened; otherwise the options are refused.
    pub fn build(coin_type: u32, account: u32, index: u32) -> (r: Result<HDPath, KeyringError>)
        ensures
            match r {
                Ok(path) => coin_type < HARDENED && account < HARDENED && index < HARDENED
                    && path@ == account_levels(coin_type, account, index),
                Err(e) => e == KeyringError::IncompatibleOptions && (coin_type >= HARDENED
                    || account >= HARDENED || index >= HARDENED),
            },
    {
        if coin_type >= HARDENED || account >= HARDENED || index >= HARDENED {
            return Err(KeyringError::IncompatibleOptions);
        }
        let mut levels: Vec<u32> = Vec::new();
        levels.push(PURPOSE + HARDENED);
        levels.push(coin_type + HARDENED);
        levels.push(account + HARDENED);
        levels.push(0);
        levels.push(index);
        assert(levels@ =~= account_levels(coin_type, account, index));
        Ok(HDPath { levels })
    }

    /// A path from the child number of each level.
    pub fn from_levels(levels: Vec<u32>) -> (path: HDPath)
        ensures
            path@ == levels@,
    {
        HDPath { levels }
    }

    /// Reads a path from its canonical text.
    ///
    /// The text is accepted exactly when it is the canonical text of some
    /// path: `m`, and behind it each level as a slash, an index below 2^31
    /// without leading zeros, and an apostrophe where the level is hardened.
    pub fn parse(text: &str) -> (r: Result<HDPath, KeyringError>)
        ensures
            match r {
                Ok(path) => text@ == path_text(path@) && path_of_text(text@) == Some(path@),
                Err(e) => e == KeyringError::IncompatibleOptions && path_of_text(text@) is None
                    && forall|levels: Seq<u32>| text@ != #[trigger] path_text(levels),
            },
    {
        let input = chars_of(text);
        proof {
            assert forall|levels: Seq<u32>| text@ == #[trigger] path_text(levels) implies parse_path(
                text@,
            ) == Some(levels) by {
                lemma_path_round_trip(levels);
            }
        }
        match read_path(&input) {
            None => Err(KeyringError::IncompatibleOptions),
            Some(levels) => {
                let again = write_path(&levels);
                if range_is(&input, 0, input.len(), &again) {
                    assert(input@.subrange(0, input@.len() as int) =~= input@);
                    Ok(HDPath { levels })
                } else {
                    assert(input@.subrange(0, input@.len() as int) =~= input@);
                    Err(KeyringError::IncompatibleOptions)
                }
            },
        }
    }

    /// The canonical text of the path.
    pub fn to_text(&self) -> (text: String)
        ensures
            text@ == path_text(self@),
    {
        let out = write_path(&self.levels);
        string_of(&out)
    }

    /// The child number of each level, a hardened one at or above
    /// [`HARDENED`].
    pub fn levels(&self) -> (levels: &Vec<u32>)
        ensures
            levels@ == self@,
    {
        &self.levels
    }
}

} // verus!
