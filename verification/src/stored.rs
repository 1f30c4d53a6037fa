//! The text in which an entry is kept where entries are stored one by one:
//! a file for each, or a record of a credential store.

use vstd::prelude::*;
use crate::algorithm::{
    algorithm_name, algorithm_named, keys_view, lemma_algorithm_name_round_trip, AlgorithmId,
    PublicKey, PublicKeyView,
};
use crate::armor::{blob_at, blob_text, lemma_blob_round_trip, read_blob, write_blob};
use crate::entry::{
    path_view, type_of, EntryView, KeyEntry, KeyMaterial, KeyType, MaterialView,
};
use crate::error::KeyringError;
use crate::hd_path::{
    lemma_path_of_text, lemma_path_text_one_line, path_of_text, path_text, HDPath,
};
use crate::multisig::{compose, MultisigView};
use crate::text::{
    chars_of, counted_at, counted_text, decimal_in, decimal_text, field_at, field_line, free_of,
    hex_field_at, hex_text, holds_at, lemma_counted_at, lemma_decimal_round_trip,
    lemma_digits_free_of, lemma_field_at, lemma_hex_field_at, lemma_starts_with, parse_u64,
    push_decimal, push_field, push_text, range_is, read_counted, read_field, read_hex_field,
    same_text, starts_with, string_of, text_in, write_counted, write_hex_field,
};

verus! {

/// The name of a kind of entry.
pub open spec fn kind_name(kind: KeyType) -> Seq<char> {
    match kind {
        KeyType::Local => "local"@,
        KeyType::Ledger => "ledger"@,
        KeyType::Offline => "offline"@,
        KeyType::Multisig => "multisig"@,
    }
}

/// The kind of entry known under `name`, if there is one.
pub open spec fn kind_named(name: Seq<char>) -> Option<KeyType> {
    if name == "local"@ {
        Some(KeyType::Local)
    } else if name == "ledger"@ {
        Some(KeyType::Ledger)
    } else if name == "offline"@ {
        Some(KeyType::Offline)
    } else if name == "multisig"@ {
        Some(KeyType::Multisig)
    } else {
        None
    }
}

/// A kind is found again under its own name, which stays on one line.
pub proof fn lemma_kind_name_round_trip(kind: KeyType)
    ensures
        kind_named(kind_name(kind)) == Some(kind),
        free_of(kind_name(kind), '\n'),
{
    reveal_strlit("local");
    reveal_strlit("ledger");
    reveal_strlit("offline");
    reveal_strlit("multisig");
    assert("local"@.len() == 5 && "ledger"@.len() == 6 && "offline"@.len() == 7 && "multisig"@.len()
        == 8);
}

/// The algorithm named on the line under `label` at the front of `s`, and
/// what follows the line.
pub open spec fn algorithm_field_at(s: Seq<char>, label: Seq<char>) -> Option<
    (AlgorithmId, Seq<char>),
> {
    match field_at(s, label) {
        Some((value, rest)) => match algorithm_named(value) {
            Some(id) => Some((id, rest)),
            None => None,
        },
        None => None,
    }
}

/// A line that names an algorithm is read back as that algorithm.
pub proof fn lemma_algorithm_field_at(label: Seq<char>, id: AlgorithmId, rest: Seq<char>)
    ensures
        algorithm_field_at(field_line(label, algorithm_name(id)) + rest, label) == Some((id, rest)),
{
    lemma_algorithm_name_round_trip(id);
    assert(free_of(algorithm_name(id), '\n'));
    lemma_field_at(label, algorithm_name(id), rest);
}

/// The line of a path that may be missing: the canonical text, or nothing
/// behind the label.
pub open spec fn path_line(path: Option<Seq<u32>>) -> Seq<char> {
    field_line(
        "path"@,
        match path {
            Some(levels) => path_text(levels),
            None => Seq::empty(),
        },
    )
}

/// The path on the line at the front of `s`, and what follows the line.
pub open spec fn path_at(s: Seq<char>) -> Option<(Option<Seq<u32>>, Seq<char>)> {
    match field_at(s, "path"@) {
        None => None,
        Some((value, rest)) => if value.len() == 0 {
            Some((None, rest))
        } else {
            match path_of_text(value) {
                Some(levels) => Some((Some(levels), rest)),
                None => None,
            }
        },
    }
}

/// The line of a path is read back as that path.
pub proof fn lemma_path_at(path: Option<Seq<u32>>, rest: Seq<char>)
    ensures
        path_at(path_line(path) + rest) == Some((path, rest)),
{
    match path {
        Some(levels) => {
            lemma_path_text_one_line(levels);
            lemma_path_of_text(levels);
            lemma_field_at("path"@, path_text(levels), rest);
        },
        None => {
            lemma_field_at("path"@, Seq::empty(), rest);
        },
    }
}

/// The lines of one member of a threshold key.
pub open spec fn member_text(member: PublicKeyView) -> Seq<char> {
    field_line("member-algorithm"@, algorithm_name(member.algorithm)) + field_line(
        "member-key"@,
        hex_text(member.bytes),
    )
}

/// The member whose lines stand at the front of `s`, and what follows.
pub open spec fn member_at(s: Seq<char>) -> Option<(PublicKeyView, Seq<char>)> {
    match algorithm_field_at(s, "member-algorithm"@) {
        None => None,
        Some((algorithm, s1)) => match hex_field_at(s1, "member-key"@) {
            None => None,
            Some((bytes, s2)) => Some((PublicKeyView { algorithm, bytes }, s2)),
        },
    }
}

/// The lines of the members, one member after the other.
pub open spec fn members_text(members: Seq<PublicKeyView>) -> Seq<char>
    decreases members.len(),
{
    if members.len() == 0 {
        Seq::empty()
    } else {
        member_text(members[0]) + members_text(members.drop_first())
    }
}

/// The `count` members whose lines stand at the front of `s`, and what
/// follows them.
pub open spec fn members_at(s: Seq<char>, count: nat) -> Option<(Seq<PublicKeyView>, Seq<char>)>
    decreases count,
{
    if count == 0 {
        Some((Seq::empty(), s))
    } else {
        match member_at(s) {
            None => None,
            Some((member, s1)) => match members_at(s1, (count - 1) as nat) {
                None => None,
                Some((others, s2)) => Some((seq![member] + others, s2)),
            },
        }
    }
}

proof fn lemma_member_at(member: PublicKeyView, rest: Seq<char>)
    ensures
        member_at(member_text(member) + rest) == Some((member, rest)),
{
    let l2 = field_line("member-key"@, hex_text(member.bytes));
    assert(member_text(member) + rest =~= field_line(
        "member-algorithm"@,
        algorithm_name(member.algorithm),
    ) + (l2 + rest));
    lemma_algorithm_field_at("member-algorithm"@, member.algorithm, l2 + rest);
    lemma_hex_field_at("member-key"@, member.bytes, rest);
}

/// The lines of the members are read back as those members.
pub proof fn lemma_members_at(members: Seq<PublicKeyView>, rest: Seq<char>)
    ensures
        members_at(members_text(members) + rest, members.len()) == Some((members, rest)),
    decreases members.len(),
{
    if members.len() == 0 {
        assert(members_text(members) + rest =~= rest);
        assert(members =~= Seq::<PublicKeyView>::empty());
    } else {
        let others = members.drop_first();
        let tail = members_text(others) + rest;
        assert(members_text(members) + rest =~= member_text(members[0]) + tail);
        lemma_member_at(members[0], tail);
        lemma_members_at(others, rest);
        assert(seq![members[0]] + others =~= members);
    }
}

/// The lines that an entry holds besides its name and public key.
pub open spec fn material_text(material: MaterialView) -> Seq<char> {
    match material {
        MaterialView::Local { secret, path } => path_line(path) + blob_text(secret),
        MaterialView::Ledger { device_path, address_prefix } => path_line(Some(device_path))
            + counted_text("prefix-length"@, address_prefix),
        MaterialView::Offline => Seq::empty(),
        MaterialView::Multisig { key } => field_line(
            "threshold"@,
            decimal_text(key.threshold as nat),
        ) + field_line("members"@, decimal_text(key.members.len())) + members_text(key.members),
    }
}

/// The 64-bit number on the line under `label` at the front of `s`, and
/// what follows the line.
pub open spec fn u64_field_at(s: Seq<char>, label: Seq<char>) -> Option<(u64, Seq<char>)> {
    match field_at(s, label) {
        Some((value, rest)) => match parse_u64(value) {
            Some(n) => Some((n, rest)),
            None => None,
        },
        None => None,
    }
}

proof fn lemma_u64_field_at(label: Seq<char>, n: u64, rest: Seq<char>)
    ensures
        u64_field_at(field_line(label, decimal_text(n as nat)) + rest, label) == Some((n, rest)),
{
    lemma_decimal_round_trip(n as nat);
    lemma_digits_free_of(decimal_text(n as nat), '\n');
    lemma_field_at(label, decimal_text(n as nat), rest);
}

/// What an entry of the given kind holds, read from the front of `s`, and
/// what follows it.
pub open spec fn material_at(s: Seq<char>, kind: KeyType) -> Option<(MaterialView, Seq<char>)> {
    match kind {
        KeyType::Local => match path_at(s) {
            None => None,
            Some((path, s1)) => match blob_at(s1) {
                None => None,
                Some((secret, s2)) => Some((MaterialView::Local { secret, path }, s2)),
            },
        },
        KeyType::Ledger => match path_at(s) {
            None => None,
            Some((path, s1)) => match path {
                None => None,
                Some(device_path) => match counted_at(s1, "prefix-length"@) {
                    None => None,
                    Some((address_prefix, s2)) => Some(
                        (MaterialView::Ledger { device_path, address_prefix }, s2),
                    ),
                },
            },
        },
        KeyType::Offline => Some((MaterialView::Offline, s)),
        KeyType::Multisig => match u64_field_at(s, "threshold"@) {
            None => None,
            Some((threshold, s1)) => match u64_field_at(s1, "members"@) {
                None => None,
                Some((count, s2)) => match members_at(s2, count as nat) {
                    None => None,
                    Some((members, s3)) => if 1 <= threshold <= count && threshold <= u32::MAX {
                        Some(
                            (
                                MaterialView::Multisig {
                                    key: MultisigView { threshold: threshold as u32, members },
                                },
                                s3,
                            ),
                        )
                    } else {
                        None
                    },
                },
            },
        },
    }
}

/// Whether what an entry holds can be written and read back: its texts
/// and lists have lengths that a number of 64 bits holds, and a threshold
/// key asks for at least one signature and for no more than it has
/// members. Every entry that a program holds is of this kind.
pub open spec fn storable_material(material: MaterialView) -> bool {
    match material {
        MaterialView::Local { .. } => true,
        MaterialView::Ledger { address_prefix, .. } => address_prefix.len() <= u64::MAX,
        MaterialView::Offline => true,
        MaterialView::Multisig { key } => 1 <= key.threshold <= key.members.len()
            && key.members.len() <= u64::MAX,
    }
}

/// Whether an entry can be written and read back.
pub open spec fn storable(entry: EntryView) -> bool {
    entry.name.len() <= u64::MAX && storable_material(entry.material)
}

proof fn lemma_material_at(material: MaterialView, rest: Seq<char>)
    requires
        storable_material(material),
    ensures
        material_at(material_text(material) + rest, type_of(material)) == Some((material, rest)),
{
    match material {
        MaterialView::Local { secret, path } => {
            assert(material_text(material) + rest =~= path_line(path) + (blob_text(secret)
                + rest));
            lemma_path_at(path, blob_text(secret) + rest);
            lemma_blob_round_trip(secret, rest);
        },
        MaterialView::Ledger { device_path, address_prefix } => {
            let tail = counted_text("prefix-length"@, address_prefix) + rest;
            assert(material_text(material) + rest =~= path_line(Some(device_path)) + tail);
            lemma_path_at(Some(device_path), tail);
            lemma_counted_at("prefix-length"@, address_prefix, rest);
        },
        MaterialView::Offline => {
            assert(material_text(material) + rest =~= rest);
        },
        MaterialView::Multisig { key } => {
            let l2 = field_line("members"@, decimal_text(key.members.len()));
            let t2 = members_text(key.members) + rest;
            let t1 = l2 + t2;
            assert(material_text(material) + rest =~= field_line(
                "threshold"@,
                decimal_text(key.threshold as nat),
            ) + t1);
            lemma_u64_field_at("threshold"@, key.threshold as u64, t1);
            lemma_u64_field_at("members"@, key.members.len() as u64, t2);
            lemma_members_at(key.members, rest);
        },
    }
}

/// The first line of a stored entry.
pub open spec fn entry_head() -> Seq<char> {
    "amon key entry\n"@
}

/// The text of an entry: the first line, the kind, the algorithm, the
/// public key in hexadecimal, the name with its length ahead of it, and
/// what the entry holds besides.
pub open spec fn entry_text(entry: EntryView) -> Seq<char> {
    entry_head() + field_line("type"@, kind_name(type_of(entry.material))) + field_line(
        "algorithm"@,
        algorithm_name(entry.algorithm),
    ) + field_line("public-key"@, hex_text(entry.public_key)) + counted_text(
        "name-length"@,
        entry.name,
    ) + material_text(entry.material)
}

/// The entry that the reader finds in `s`.
pub open spec fn entry_at(s: Seq<char>) -> Option<EntryView> {
    if !starts_with(s, entry_head()) {
        None
    } else {
        match field_at(s.skip(entry_head().len() as int), "type"@) {
            None => None,
            Some((kind_name, s1)) => match kind_named(kind_name) {
                None => None,
                Some(kind) => match algorithm_field_at(s1, "algorithm"@) {
                    None => None,
                    Some((algorithm, s2)) => match hex_field_at(s2, "public-key"@) {
                        None => None,
                        Some((public_key, s3)) => match counted_at(s3, "name-length"@) {
                            None => None,
                            Some((name, s4)) => match material_at(s4, kind) {
                                None => None,
                                Some((material, s5)) => if s5.len() == 0 {
                                    Some(EntryView { name, algorithm, public_key, material })
                                } else {
                                    None
                                },
                            },
                        },
                    },
                },
            },
        }
    }
}

/// The text of an entry is read back as that entry.
pub proof fn lemma_entry_round_trip(entry: EntryView)
    requires
        storable(entry),
    ensures
        entry_at(entry_text(entry)) == Some(entry),
{
    let kind = type_of(entry.material);
    let l1 = field_line("type"@, kind_name(kind));
    let l2 = field_line("algorithm"@, algorithm_name(entry.algorithm));
    let l3 = field_line("public-key"@, hex_text(entry.public_key));
    let l4 = counted_text("name-length"@, entry.name);
    let s4 = material_text(entry.material);
    let s3 = l4 + s4;
    let s2 = l3 + s3;
    let s1 = l2 + s2;
    let s0 = l1 + s1;
    let s = entry_text(entry);
    assert(s =~= entry_head() + s0);
    lemma_starts_with(entry_head(), s0);
    lemma_kind_name_round_trip(kind);
    lemma_field_at("type"@, kind_name(kind), s1);
    lemma_algorithm_field_at("algorithm"@, entry.algorithm, s2);
    lemma_hex_field_at("public-key"@, entry.public_key, s3);
    lemma_counted_at("name-length"@, entry.name, s4);
    assert(s4 =~= s4 + Seq::<char>::empty());
    lemma_material_at(entry.material, Seq::empty());
}

/// The entry that `s` is the text of, if it is one.
pub open spec fn entry_of_text(s: Seq<char>) -> Option<EntryView> {
    match entry_at(s) {
        Some(entry) => if entry_text(entry) == s {
            Some(entry)
        } else {
            None
        },
        None => None,
    }
}

/// The text of an entry is the text of that entry and of no other.
pub proof fn lemma_entry_of_text(entry: EntryView)
    requires
        storable(entry),
    ensures
        entry_of_text(entry_text(entry)) == Some(entry),
{
    lemma_entry_round_trip(entry);
}

fn write_algorithm_field(out: &mut Vec<char>, label: &str, id: AlgorithmId)
    ensures
        final(out)@ == old(out)@ + field_line(label@, algorithm_name(id)),
{
    let name = chars_of(id.name());
    push_field(out, label, &name);
}

fn read_algorithm_field(input: &Vec<char>, pos: usize, label: &str) -> (r: Option<
    (AlgorithmId, usize),
>)
    requires
        pos <= input@.len(),
    ensures
        match r {
            Some((id, next)) => pos <= next <= input@.len() && algorithm_field_at(
                input@.skip(pos as int),
                label@,
            ) == Some((id, input@.skip(next as int))),
            None => algorithm_field_at(input@.skip(pos as int), label@) is None,
        },
{
    match read_field(input, pos, label) {
        None => None,
        Some((from, to, next)) => {
            let name = text_in(input, from, to);
            match AlgorithmId::from_name(name.as_str()) {
                Some(id) => Some((id, next)),
                None => None,
            }
        },
    }
}

fn write_u64_field(out: &mut Vec<char>, label: &str, n: u64)
    ensures
        final(out)@ == old(out)@ + field_line(label@, decimal_text(n as nat)),
{
    let mut value: Vec<char> = Vec::new();
    push_decimal(&mut value, n);
    assert(value@ =~= decimal_text(n as nat));
    push_field(out, label, &value);
}

fn read_u64_field(input: &Vec<char>, pos: usize, label: &str) -> (r: Option<(u64, usize)>)
    requires
        pos <= input@.len(),
    ensures
        match r {
            Some((n, next)) => pos <= next <= input@.len() && u64_field_at(
                input@.skip(pos as int),
                label@,
            ) == Some((n, input@.skip(next as int))),
            None => u64_field_at(input@.skip(pos as int), label@) is None,
        },
{
    match read_field(input, pos, label) {
        None => None,
        Some((from, to, next)) => match decimal_in(input, from, to) {
            None => None,
            Some(n) => Some((n, next)),
        },
    }
}

fn write_path_line(out: &mut Vec<char>, path: Option<&HDPath>)
    ensures
        final(out)@ == old(out)@ + path_line(
            match path {
                Some(p) => Some(p@),
                None => None,
            },
        ),
{
    let value: Vec<char> = match path {
        Some(p) => chars_of(p.to_text().as_str()),
        None => Vec::new(),
    };
    push_field(out, "path", &value);
}

fn read_path_line(input: &Vec<char>, pos: usize) -> (r: Option<(Option<HDPath>, usize)>)
    requires
        pos <= input@.len(),
    ensures
        match r {
            Some((path, next)) => pos <= next <= input@.len() && path_at(input@.skip(pos as int))
                == Some((path_view(path), input@.skip(next as int))),
            None => path_at(input@.skip(pos as int)) is None,
        },
{
    match read_field(input, pos, "path") {
        None => None,
        Some((from, to, next)) => {
            if from == to {
                assert(input@.subrange(from as int, to as int).len() == 0);
                return Some((None, next));
            }
            let text = text_in(input, from, to);
            match HDPath::parse(text.as_str()) {
                Ok(path) => Some((Some(path), next)),
                Err(_) => None,
            }
        },
    }
}

fn write_members(out: &mut Vec<char>, members: &Vec<PublicKey>)
    ensures
        final(out)@ == old(out)@ + members_text(keys_view(members@)),
{
    let ghost views = keys_view(members@);
    let mut i: usize = 0;
    assert(views.skip(0) =~= views);
    assert(out@ =~= old(out)@ + Seq::<char>::empty());
    assert(old(out)@ + members_text(views) =~= old(out)@ + Seq::<char>::empty() + members_text(
        views,
    ));
    let ghost mut written: Seq<char> = Seq::empty();
    while i < members.len()
        invariant
            i <= members@.len(),
            views == keys_view(members@),
            out@ == old(out)@ + written,
            written + members_text(views.skip(i as int)) == members_text(views),
        decreases members@.len() - i,
    {
        let ghost rest = views.skip(i as int);
        let ghost before = out@;
        let member = &members[i];
        write_algorithm_field(out, "member-algorithm", member.algorithm);
        write_hex_field(out, "member-key", member.bytes.as_slice());
        proof {
            assert(rest[0] == member@);
            assert(rest.drop_first() =~= views.skip(i + 1));
            assert(out@ =~= before + member_text(member@));
            let next = written + member_text(member@);
            assert(out@ =~= old(out)@ + next);
            assert(next + members_text(views.skip(i + 1)) =~= written + members_text(rest));
            written = next;
        }
        i = i + 1;
    }
    proof {
        assert(members_text(views.skip(i as int)) =~= Seq::<char>::empty());
        assert(written + Seq::<char>::empty() =~= written);
    }
}

fn read_members(input: &Vec<char>, pos: usize, count: u64) -> (r: Option<(Vec<PublicKey>, usize)>)
    requires
        pos <= input@.len(),
    ensures
        match r {
            Some((members, next)) => pos <= next <= input@.len() && members_at(
                input@.skip(pos as int),
                count as nat,
            ) == Some((keys_view(members@), input@.skip(next as int))),
            None => members_at(input@.skip(pos as int), count as nat) is None,
        },
{
    let mut members: Vec<PublicKey> = Vec::new();
    let mut here: usize = pos;
    let mut i: u64 = 0;
    let ghost start = input@.skip(pos as int);
    proof {
        match members_at(start, count as nat) {
            Some((others, _)) => {
                assert(keys_view(members@) + others =~= others);
            },
            None => {},
        }
    }
    while i < count
        invariant
            i <= count,
            pos <= here <= input@.len(),
            start == input@.skip(pos as int),
            members@.len() == i,
            members_at(start, count as nat) == match members_at(
                input@.skip(here as int),
                (count - i) as nat,
            ) {
                Some((others, rest)) => Some((keys_view(members@) + others, rest)),
                None => None::<(Seq<PublicKeyView>, Seq<char>)>,
            },
        decreases count - i,
    {
        let ghost before = keys_view(members@);
        let (algorithm, pos_a) = match read_algorithm_field(input, here, "member-algorithm") {
            None => {
                return None;
            },
            Some(found) => found,
        };
        let (bytes, pos_b) = match read_hex_field(input, pos_a, "member-key") {
            None => {
                return None;
            },
            Some(found) => found,
        };
        let member = PublicKey { algorithm, bytes };
        proof {
            match members_at(input@.skip(pos_b as int), (count - i - 1) as nat) {
                Some((others, _)) => {
                    assert(before + (seq![member@] + others) =~= before.push(member@) + others);
                },
                None => {},
            }
        }
        members.push(member);
        assert(keys_view(members@) =~= before.push(members@[i as int]@));
        here = pos_b;
        i = i + 1;
    }
    proof {
        assert(keys_view(members@) + Seq::<PublicKeyView>::empty() =~= keys_view(members@));
    }
    Some((members, here))
}

fn write_material(out: &mut Vec<char>, material: &KeyMaterial)
    ensures
        final(out)@ == old(out)@ + material_text(material@),
        storable_material(material@),
{
    match material {
        KeyMaterial::Local { secret, path } => {
            let path_ref: Option<&HDPath> = match path {
                Some(p) => Some(p),
                None => None,
            };
            write_path_line(out, path_ref);
            write_blob(out, secret);
            assert(out@ =~= old(out)@ + material_text(material@));
        },
        KeyMaterial::Ledger { device_path, address_prefix } => {
            write_path_line(out, Some(device_path));
            write_counted(out, "prefix-length", address_prefix.as_str());
            assert(out@ =~= old(out)@ + material_text(material@));
        },
        KeyMaterial::Offline => {
            assert(out@ =~= old(out)@ + material_text(material@));
        },
        KeyMaterial::Multisig { key } => {
            let threshold = key.threshold();
            let members = key.members();
            write_u64_field(out, "threshold", threshold as u64);
            write_u64_field(out, "members", members.len() as u64);
            write_members(out, members);
            assert(out@ =~= old(out)@ + material_text(material@));
        },
    }
}

fn read_material(input: &Vec<char>, pos: usize, kind: KeyType) -> (r: Option<(KeyMaterial, usize)>)
    requires
        pos <= input@.len(),
    ensures
        match r {
            Some((material, next)) => pos <= next <= input@.len() && material_at(
                input@.skip(pos as int),
                kind,
            ) == Some((material@, input@.skip(next as int))),
            None => material_at(input@.skip(pos as int), kind) is None,
        },
{
    match kind {
        KeyType::Local => {
            let (path, pos_a) = match read_path_line(input, pos) {
                None => {
                    return None;
                },
                Some(found) => found,
            };
            let (secret, pos_b) = match read_blob(input, pos_a) {
                None => {
                    return None;
                },
                Some(found) => found,
            };
            Some((KeyMaterial::Local { secret, path }, pos_b))
        },
        KeyType::Ledger => {
            let (path, pos_a) = match read_path_line(input, pos) {
                None => {
                    return None;
                },
                Some(found) => found,
            };
            let device_path = match path {
                None => {
                    return None;
                },
                Some(p) => p,
            };
            let (address_prefix, pos_b) = match read_counted(input, pos_a, "prefix-length") {
                None => {
                    return None;
                },
                Some(found) => found,
            };
            Some((KeyMaterial::Ledger { device_path, address_prefix }, pos_b))
        },
        KeyType::Offline => Some((KeyMaterial::Offline, pos)),
        KeyType::Multisig => {
            let (threshold, pos_a) = match read_u64_field(input, pos, "threshold") {
                None => {
                    return None;
                },
                Some(found) => found,
            };
            let (count, pos_b) = match read_u64_field(input, pos_a, "members") {
                None => {
                    return None;
                },
                Some(found) => found,
            };
            let (members, pos_c) = match read_members(input, pos_b, count) {
                None => {
                    return None;
                },
                Some(found) => found,
            };
            if threshold < 1 || threshold > count || threshold > u32::MAX as u64 {
                return None;
            }
            proof {
                lemma_members_at_count(input@.skip(pos_b as int), count as nat);
            }
            match compose(members, threshold as u32, false) {
                Ok(key) => Some((KeyMaterial::Multisig { key }, pos_c)),
                Err(_) => None,
            }
        },
    }
}

proof fn lemma_members_at_count(s: Seq<char>, count: nat)
    ensures
        members_at(s, count) matches Some((members, _)) ==> members.len() == count,
    decreases count,
{
    if count > 0 {
        match member_at(s) {
            None => {},
            Some((member, s1)) => {
                lemma_members_at_count(s1, (count - 1) as nat);
            },
        }
    }
}

fn write_entry(entry: &KeyEntry) -> (out: Vec<char>)
    ensures
        out@ == entry_text(entry@),
        storable(entry@),
{
    let mut out: Vec<char> = Vec::new();
    push_text(&mut out, "amon key entry\n");
    let kind = chars_of(
        match entry.key_type() {
            KeyType::Local => "local",
            KeyType::Ledger => "ledger",
            KeyType::Offline => "offline",
            KeyType::Multisig => "multisig",
        },
    );
    push_field(&mut out, "type", &kind);
    write_algorithm_field(&mut out, "algorithm", entry.algorithm);
    write_hex_field(&mut out, "public-key", entry.public_key.as_slice());
    write_counted(&mut out, "name-length", entry.name.as_str());
    write_material(&mut out, &entry.material);
    assert(out@ =~= entry_text(entry@));
    out
}

fn read_kind(input: &Vec<char>, from: usize, to: usize) -> (r: Option<KeyType>)
    requires
        from <= to <= input@.len(),
    ensures
        r == kind_named(input@.subrange(from as int, to as int)),
{
    let name = text_in(input, from, to);
    if same_text(name.as_str(), "local") {
        Some(KeyType::Local)
    } else if same_text(name.as_str(), "ledger") {
        Some(KeyType::Ledger)
    } else if same_text(name.as_str(), "offline") {
        Some(KeyType::Offline)
    } else if same_text(name.as_str(), "multisig") {
        Some(KeyType::Multisig)
    } else {
        None
    }
}

fn read_entry(input: &Vec<char>) -> (r: Option<KeyEntry>)
    ensures
        match r {
            Some(entry) => entry_at(input@) == Some(entry@),
            None => entry_at(input@) is None,
        },
{
    let head = chars_of("amon key entry\n");
    assert(input@.skip(0) =~= input@);
    if !holds_at(input, 0, &head) {
        return None;
    }
    let (from, to, pos_a) = match read_field(input, head.len(), "type") {
        None => {
            return None;
        },
        Some(found) => found,
    };
    let kind = match read_kind(input, from, to) {
        None => {
            return None;
        },
        Some(kind) => kind,
    };
    let (algorithm, pos_b) = match read_algorithm_field(input, pos_a, "algorithm") {
        None => {
            return None;
        },
        Some(found) => found,
    };
    let (public_key, pos_c) = match read_hex_field(input, pos_b, "public-key") {
        None => {
            return None;
        },
        Some(found) => found,
    };
    let (name, pos_d) = match read_counted(input, pos_c, "name-length") {
        None => {
            return None;
        },
        Some(found) => found,
    };
    let (material, pos_e) = match read_material(input, pos_d, kind) {
        None => {
            return None;
        },
        Some(found) => found,
    };
    if pos_e != input.len() {
        assert(input@.skip(pos_e as int).len() > 0);
        return None;
    }
    assert(input@.skip(pos_e as int).len() == 0);
    Some(KeyEntry { name, algorithm, public_key, material })
}

/// Writes an entry as the text in which it is stored. The text reads back
/// as the entry.
pub fn encode_entry(entry: &KeyEntry) -> (text: String)
    ensures
        text@ == entry_text(entry@),
        entry_of_text(text@) == Some(entry@),
        storable(entry@),
{
    let out = write_entry(entry);
    proof {
        lemma_entry_of_text(entry@);
    }
    string_of(&out)
}

/// Reads an entry from the text in which it is stored.
///
/// The text is accepted exactly when it is the text of some entry,
/// character for character; any other text is reported as malformed.
pub fn decode_entry(text: &str) -> (r: Result<KeyEntry, KeyringError>)
    ensures
        match r {
            Ok(entry) => text@ == entry_text(entry@) && entry_of_text(text@) == Some(entry@),
            Err(e) => e == KeyringError::MalformedKey && entry_of_text(text@) is None,
        },
{
    let input = chars_of(text);
    assert(input@.subrange(0, input@.len() as int) =~= input@);
    match read_entry(&input) {
        None => Err(KeyringError::MalformedKey),
        Some(entry) => {
            let again = write_entry(&entry);
            if range_is(&input, 0, input.len(), &again) {
                Ok(entry)
            } else {
                Err(KeyringError::MalformedKey)
            }
        },
    }
}

} // verus!
