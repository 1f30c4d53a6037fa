//! Storage of named key entries: the contract that every backend keeps,
//! and the backend that lives in memory.

use vstd::prelude::*;
use vstd::utf8::{encode_utf8, encode_utf8_decode_utf8};
use crate::entry::{entries_view, renamed, EntryView, KeyEntry};
use crate::error::KeyringError;
use crate::lex::{
    bytes_before, is_before, lemma_before_irreflexive, lemma_before_total,
    lemma_before_transitive,
};
use crate::text::same_text;

verus! {

/// The entries of a store, each under its name.
pub type Entries = Map<Seq<char>, EntryView>;

/// Whether the name `a` is listed ahead of `b`: names are ordered by their
/// characters, upper case and lower case apart.
pub open spec fn name_before(a: Seq<char>, b: Seq<char>) -> bool {
    bytes_before(encode_utf8(a), encode_utf8(b))
}

/// Whether each entry is listed ahead of all that follow it.
pub open spec fn ascending_names(s: Seq<EntryView>) -> bool {
    forall|i: int, j: int|
        0 <= i < j < s.len() ==> name_before((#[trigger] s[i]).name, (#[trigger] s[j]).name)
}

/// Whether `s` lists the entries of `m`: every entry once, under its own
/// name, in ascending order of name.
pub open spec fn is_listing(s: Seq<EntryView>, m: Entries) -> bool {
    &&& ascending_names(s)
    &&& forall|i: int|
        0 <= i < s.len() ==> m.contains_key((#[trigger] s[i]).name) && m[s[i].name] == s[i]
    &&& forall|n: Seq<char>|
        m.contains_key(n) ==> exists|i: int| 0 <= i < s.len() && (#[trigger] s[i]).name == n
}

/// What looking up a name yields.
pub open spec fn get_result(entries: Entries, name: Seq<char>) -> Result<EntryView, KeyringError> {
    if entries.contains_key(name) {
        Ok(entries[name])
    } else {
        Err(KeyringError::NotFound)
    }
}

/// What storing an entry yields: the entries afterwards, or the refusal
/// where the name is taken and may not be replaced.
pub open spec fn put_result(entries: Entries, entry: EntryView, overwrite: bool) -> Result<
    Entries,
    KeyringError,
> {
    if !overwrite && entries.contains_key(entry.name) {
        Err(KeyringError::AlreadyExists)
    } else {
        Ok(entries.insert(entry.name, entry))
    }
}

/// What deleting a name yields.
pub open spec fn delete_result(entries: Entries, name: Seq<char>) -> Result<
    Entries,
    KeyringError,
> {
    if entries.contains_key(name) {
        Ok(entries.remove(name))
    } else {
        Err(KeyringError::NotFound)
    }
}

/// What renaming yields. A new name that is taken is reported ahead of an
/// old name that is missing.
pub open spec fn rename_result(entries: Entries, old_name: Seq<char>, new_name: Seq<char>) -> Result<
    Entries,
    KeyringError,
> {
    if entries.contains_key(new_name) {
        Err(KeyringError::AlreadyExists)
    } else if !entries.contains_key(old_name) {
        Err(KeyringError::NotFound)
    } else {
        Ok(entries.remove(old_name).insert(new_name, renamed(entries[old_name], new_name)))
    }
}

/// Whether every entry stands under its own name.
pub open spec fn keyed_by_name(entries: Entries) -> bool {
    forall|n: Seq<char>| entries.contains_key(n) ==> (#[trigger] entries[n]).name == n
}

/// A store of named key entries. Every backend keeps this contract,
/// whatever it stores the entries in.
pub trait Backend {
    /// The entries in the store.
    spec fn entries(&self) -> Entries;

    /// Whether the store is in order.
    spec fn wf(&self) -> bool;

    /// In a store that is in order every entry stands under its own name.
    proof fn lemma_keyed_by_name(&self)
        requires
            self.wf(),
        ensures
            keyed_by_name(self.entries()),
    ;

    /// The entry stored under `name`.
    fn get(&self, name: &str) -> (r: Result<KeyEntry, KeyringError>)
        requires
            self.wf(),
        ensures
            match r {
                Ok(entry) => get_result(self.entries(), name@) == Ok::<EntryView, KeyringError>(
                    entry@,
                ),
                Err(e) => get_result(self.entries(), name@) == Err::<EntryView, KeyringError>(e),
            },
    ;

    /// The entries in ascending order of name.
    fn list(&self) -> (r: Vec<KeyEntry>)
        requires
            self.wf(),
        ensures
            is_listing(entries_view(r@), self.entries()),
    ;

    /// Stores an entry under its name. A name that is taken is replaced
    /// only where `overwrite` says so.
    fn put(&mut self, entry: KeyEntry, overwrite: bool) -> (r: Result<(), KeyringError>)
        requires
            old(self).wf(),
        ensures
            final(self).wf(),
            match put_result(old(self).entries(), entry@, overwrite) {
                Ok(after) => r is Ok && final(self).entries() == after,
                Err(e) => r == Err::<(), KeyringError>(e) && final(self).entries() == old(
                    self,
                ).entries(),
            },
    ;

    /// Removes the entry stored under `name`.
    fn delete(&mut self, name: &str) -> (r: Result<(), KeyringError>)
        requires
            old(self).wf(),
        ensures
            final(self).wf(),
            match delete_result(old(self).entries(), name@) {
                Ok(after) => r is Ok && final(self).entries() == after,
                Err(e) => r == Err::<(), KeyringError>(e) && final(self).entries() == old(
                    self,
                ).entries(),
            },
    ;

    /// Stores the entry of `old_name` under `new_name` in its place.
    fn rename(&mut self, old_name: &str, new_name: &str) -> (r: Result<(), KeyringError>)
        requires
            old(self).wf(),
        ensures
            final(self).wf(),
            match rename_result(old(self).entries(), old_name@, new_name@) {
                Ok(after) => r is Ok && final(self).entries() == after,
                Err(e) => r == Err::<(), KeyringError>(e) && final(self).entries() == old(
                    self,
                ).entries(),
            },
    ;
}

/// An entry that was stored is found again as it was stored.
pub proof fn lemma_put_then_get(entries: Entries, entry: EntryView, overwrite: bool)
    requires
        put_result(entries, entry, overwrite) is Ok,
    ensures
        get_result(put_result(entries, entry, overwrite)->Ok_0, entry.name) == Ok::<
            EntryView,
            KeyringError,
        >(entry),
{
}

/// Storing under a name that is taken, without leave to replace, is
/// refused, and the entry that was there is found as before.
pub proof fn lemma_put_refused_keeps_entry(entries: Entries, entry: EntryView)
    requires
        entries.contains_key(entry.name),
    ensures
        put_result(entries, entry, false) == Err::<Entries, KeyringError>(
            KeyringError::AlreadyExists,
        ),
        get_result(entries, entry.name) == Ok::<EntryView, KeyringError>(entries[entry.name]),
{
}

/// An entry that was deleted is not found any more, and every other entry
/// is found as before.
pub proof fn lemma_delete_then_get(entries: Entries, name: Seq<char>, other: Seq<char>)
    requires
        delete_result(entries, name) is Ok,
        other != name,
    ensures
        get_result(delete_result(entries, name)->Ok_0, name) == Err::<EntryView, KeyringError>(
            KeyringError::NotFound,
        ),
        get_result(delete_result(entries, name)->Ok_0, other) == get_result(entries, other),
{
}

/// After a renaming the entry is found under its new name, as it was but
/// for the name, and no longer under the old one.
pub proof fn lemma_rename_then_get(entries: Entries, old_name: Seq<char>, new_name: Seq<char>)
    requires
        rename_result(entries, old_name, new_name) is Ok,
    ensures
        get_result(rename_result(entries, old_name, new_name)->Ok_0, new_name) == Ok::<
            EntryView,
            KeyringError,
        >(renamed(entries[old_name], new_name)),
        get_result(rename_result(entries, old_name, new_name)->Ok_0, old_name) == Err::<
            EntryView,
            KeyringError,
        >(KeyringError::NotFound),
{
}

/// Which backend a keyring runs on.
#[derive(Clone, Copy, Debug, PartialEq, Eq, Structural)]
pub enum BackendKind {
    /// The credential store of the operating system.
    Os,
    /// Files, one for each entry.
    File,
    /// Memory of the process: gone when the process ends.
    Memory,
}

/// The backend that a selector names.
pub open spec fn backend_named(selector: Seq<char>) -> Option<BackendKind> {
    if selector == "os"@ {
        Some(BackendKind::Os)
    } else if selector == "file"@ {
        Some(BackendKind::File)
    } else if selector == "memory"@ || selector == "test"@ {
        Some(BackendKind::Memory)
    } else {
        None
    }
}

impl BackendKind {
    /// Reads a backend selector: `os`, `file` or `memory`; `test` stands
    /// for `memory`.
    pub fn from_selector(selector: &str) -> (r: Result<BackendKind, KeyringError>)
        ensures
            match r {
                Ok(kind) => backend_named(selector@) == Some(kind),
                Err(e) => e == KeyringError::UnknownBackend && backend_named(selector@) is None,
            },
    {
        if same_text(selector, "os") {
            Ok(BackendKind::Os)
        } else if same_text(selector, "file") {
            Ok(BackendKind::File)
        } else if same_text(selector, "memory") || same_text(selector, "test") {
            Ok(BackendKind::Memory)
        } else {
            Err(KeyringError::UnknownBackend)
        }
    }

    /// The selector that names this backend.
    pub fn selector(&self) -> (text: &'static str)
        ensures
            backend_named(text@) == Some(*self),
    {
        proof {
            reveal_strlit("os");
            reveal_strlit("file");
            reveal_strlit("memory");
            assert("os"@.len() == 2 && "file"@.len() == 4 && "memory"@.len() == 6);
        }
        match self {
            BackendKind::Os => "os",
            BackendKind::File => "file",
            BackendKind::Memory => "memory",
        }
    }
}

// ------------------------------------------------------------------
// Tables of entries in ascending order of name

/// Whether some entry of `s` has the name `n`.
pub open spec fn holds_name(s: Seq<EntryView>, n: Seq<char>) -> bool {
    exists|i: int| 0 <= i < s.len() && (#[trigger] s[i]).name == n
}

/// A position at which `s` has an entry of the name `n`.
pub open spec fn index_of_name(s: Seq<EntryView>, n: Seq<char>) -> int {
    choose|i: int| 0 <= i < s.len() && (#[trigger] s[i]).name == n
}

/// The entries of a table, each under its name.
pub open spec fn table_map(s: Seq<EntryView>) -> Entries {
    Map::new(|n: Seq<char>| holds_name(s, n), |n: Seq<char>| s[index_of_name(s, n)])
}

/// Two names of which neither is listed ahead of the other are the same.
pub proof fn lemma_names_total(a: Seq<char>, b: Seq<char>)
    requires
        !name_before(a, b),
        !name_before(b, a),
    ensures
        a == b,
{
    lemma_before_total(encode_utf8(a), encode_utf8(b), 0);
    encode_utf8_decode_utf8(a);
    encode_utf8_decode_utf8(b);
}

/// In a table in ascending order each entry is found under its name.
pub proof fn lemma_table_lookup(s: Seq<EntryView>, i: int)
    requires
        ascending_names(s),
        0 <= i < s.len(),
    ensures
        table_map(s).contains_key(s[i].name),
        table_map(s)[s[i].name] == s[i],
        index_of_name(s, s[i].name) == i,
{
    let n = s[i].name;
    let k = index_of_name(s, n);
    assert(holds_name(s, n));
    lemma_before_irreflexive(encode_utf8(n), 0);
    if k < i {
        assert(name_before(s[k].name, s[i].name));
    } else if k > i {
        assert(name_before(s[i].name, s[k].name));
    }
}

/// A table in ascending order lists its own entries.
pub proof fn lemma_table_is_listing(s: Seq<EntryView>)
    requires
        ascending_names(s),
    ensures
        is_listing(s, table_map(s)),
        keyed_by_name(table_map(s)),
{
    assert forall|i: int| 0 <= i < s.len() implies table_map(s).contains_key(
        (#[trigger] s[i]).name,
    ) && table_map(s)[s[i].name] == s[i] by {
        lemma_table_lookup(s, i);
    }
}

/// An entry that goes between the names ahead of it and those behind it
/// keeps the table in order and is added to its entries.
pub proof fn lemma_table_insert(s: Seq<EntryView>, p: int, e: EntryView)
    requires
        ascending_names(s),
        0 <= p <= s.len(),
        forall|i: int| 0 <= i < p ==> name_before((#[trigger] s[i]).name, e.name),
        forall|i: int| p <= i < s.len() ==> name_before(e.name, (#[trigger] s[i]).name),
    ensures
        ascending_names(s.insert(p, e)),
        table_map(s.insert(p, e)) == table_map(s).insert(e.name, e),
{
    let t = s.insert(p, e);
    assert forall|i: int, j: int| 0 <= i < j < t.len() implies name_before(
        (#[trigger] t[i]).name,
        (#[trigger] t[j]).name,
    ) by {
        let si = if i < p {
            i
        } else {
            i - 1
        };
        let sj = if j < p {
            j
        } else {
            j - 1
        };
        if i != p && j != p {
            assert(t[i] == s[si] && t[j] == s[sj]);
        } else if i == p {
            assert(t[j] == s[sj]);
        } else {
            assert(t[i] == s[si]);
        }
    }
    let left = table_map(t);
    let right = table_map(s).insert(e.name, e);
    assert forall|n: Seq<char>| left.contains_key(n) == right.contains_key(n) by {
        if holds_name(t, n) {
            let k = index_of_name(t, n);
            if k < p {
                assert(s[k].name == n);
            } else if k > p {
                assert(s[k - 1].name == n);
            }
        }
        if holds_name(s, n) {
            let k = index_of_name(s, n);
            let tk = if k < p {
                k
            } else {
                k + 1
            };
            assert(t[tk].name == n);
        }
        if n == e.name {
            assert(t[p].name == n);
        }
    }
    assert forall|n: Seq<char>| left.contains_key(n) implies left[n] == right[n] by {
        let k = index_of_name(t, n);
        lemma_table_lookup(t, k);
        if k < p {
            assert(t[k] == s[k]);
            lemma_table_lookup(s, k);
            lemma_before_irreflexive(encode_utf8(n), 0);
        } else if k > p {
            assert(t[k] == s[k - 1]);
            lemma_table_lookup(s, k - 1);
            lemma_before_irreflexive(encode_utf8(n), 0);
        }
    }
    assert(left =~= right);
}

/// Taking an entry out keeps the table in order and removes its name.
pub proof fn lemma_table_remove(s: Seq<EntryView>, p: int)
    requires
        ascending_names(s),
        0 <= p < s.len(),
    ensures
        ascending_names(s.remove(p)),
        table_map(s.remove(p)) == table_map(s).remove(s[p].name),
        forall|i: int| 0 <= i < p ==> name_before((#[trigger] s.remove(p)[i]).name, s[p].name),
        forall|i: int|
            p <= i < s.remove(p).len() ==> name_before(s[p].name, (#[trigger] s.remove(p)[i]).name),
{
    let t = s.remove(p);
    assert forall|i: int, j: int| 0 <= i < j < t.len() implies name_before(
        (#[trigger] t[i]).name,
        (#[trigger] t[j]).name,
    ) by {
        let si = if i < p {
            i
        } else {
            i + 1
        };
        let sj = if j < p {
            j
        } else {
            j + 1
        };
        assert(t[i] == s[si] && t[j] == s[sj]);
    }
    assert forall|i: int| 0 <= i < p implies name_before((#[trigger] t[i]).name, s[p].name) by {
        assert(t[i] == s[i]);
    }
    assert forall|i: int| p <= i < t.len() implies name_before(
        s[p].name,
        (#[trigger] t[i]).name,
    ) by {
        assert(t[i] == s[i + 1]);
    }
    let left = table_map(t);
    let right = table_map(s).remove(s[p].name);
    lemma_before_irreflexive(encode_utf8(s[p].name), 0);
    assert forall|n: Seq<char>| left.contains_key(n) == right.contains_key(n) by {
        if holds_name(t, n) {
            let k = index_of_name(t, n);
            let sk = if k < p {
                k
            } else {
                k + 1
            };
            assert(t[k] == s[sk]);
            assert(s[sk].name == n);
            if sk < p {
                assert(name_before(s[sk].name, s[p].name));
            } else {
                assert(name_before(s[p].name, s[sk].name));
            }
        }
        if holds_name(s, n) && n != s[p].name {
            let k = index_of_name(s, n);
            let tk = if k < p {
                k
            } else {
                k - 1
            };
            assert(t[tk] == s[k]);
            assert(t[tk].name == n);
        }
    }
    assert forall|n: Seq<char>| left.contains_key(n) implies left[n] == right[n] by {
        let k = index_of_name(t, n);
        lemma_table_lookup(t, k);
        let sk = if k < p {
            k
        } else {
            k + 1
        };
        assert(t[k] == s[sk]);
        lemma_table_lookup(s, sk);
    }
    assert(left =~= right);
}

/// A listing of entries lists the entries of its own table and no others.
pub proof fn lemma_listing_is_table(s: Seq<EntryView>, m: Entries)
    requires
        is_listing(s, m),
    ensures
        m == table_map(s),
{
    let t = table_map(s);
    assert forall|n: Seq<char>| m.contains_key(n) == t.contains_key(n) by {
        if holds_name(s, n) {
            let k = index_of_name(s, n);
            assert(m.contains_key(s[k].name));
        }
    }
    assert forall|n: Seq<char>| m.contains_key(n) implies m[n] == t[n] by {
        let k = index_of_name(s, n);
        lemma_table_lookup(s, k);
        assert(m[s[k].name] == s[k]);
    }
    assert(m =~= t);
}

/// The backend that keeps its entries in the memory of the process.
#[derive(Debug)]
pub struct MemoryBackend {
    table: Vec<KeyEntry>,
}

impl MemoryBackend {
    /// The entries in the order in which they are listed.
    pub closed spec fn listing(&self) -> Seq<EntryView> {
        entries_view(self.table@)
    }

    /// A store without entries.
    pub fn new() -> (store: MemoryBackend)
        ensures
            store.wf(),
            store.entries() == Entries::empty(),
            store.listing() == Seq::<EntryView>::empty(),
    {
        let store = MemoryBackend { table: Vec::new() };
        assert(store.entries() =~= Entries::empty());
        assert(store.listing() =~= Seq::<EntryView>::empty());
        store
    }

    /// How many entries the store holds.
    pub fn len(&self) -> (n: usize)
        ensures
            n == self.listing().len(),
    {
        self.table.len()
    }

    /// Finds where `name` stands in the table, or where it would go.
    fn locate(&self, name: &str) -> (r: (usize, bool))
        requires
            self.wf(),
        ensures
            r.0 <= self.listing().len(),
            r.1 ==> r.0 < self.listing().len() && self.listing()[r.0 as int].name == name@,
            r.1 == holds_name(self.listing(), name@),
            forall|i: int| 0 <= i < r.0 ==> name_before((#[trigger] self.listing()[i]).name, name@),
            forall|i: int|
                r.0 + (if r.1 {
                    1int
                } else {
                    0int
                }) <= i < self.listing().len() ==> name_before(
                    name@,
                    (#[trigger] self.listing()[i]).name,
                ),
    {
        let ghost s = self.listing();
        let wanted = name.as_bytes();
        let mut i: usize = 0;
        let mut found = false;
        while i < self.table.len()
            invariant_except_break
                !found,
            invariant
                i <= self.table@.len(),
                s == entries_view(self.table@),
                ascending_names(s),
                wanted@ == encode_utf8(name@),
                forall|j: int| 0 <= j < i ==> name_before((#[trigger] s[j]).name, name@),
            ensures
                i <= s.len(),
                found ==> i < s.len() && s[i as int].name == name@,
                !found ==> forall|j: int|
                    i <= j < s.len() ==> name_before(name@, (#[trigger] s[j]).name),
            decreases self.table@.len() - i,
        {
            let here = self.table[i].name.as_str().as_bytes();
            assert(here@ == encode_utf8(s[i as int].name));
            if is_before(here, wanted) {
                i = i + 1;
            } else if is_before(wanted, here) {
                proof {
                    assert forall|j: int| i <= j < s.len() implies name_before(
                        name@,
                        (#[trigger] s[j]).name,
                    ) by {
                        if j > i {
                            assert(name_before(s[i as int].name, s[j].name));
                            lemma_before_transitive(
                                encode_utf8(name@),
                                encode_utf8(s[i as int].name),
                                encode_utf8(s[j].name),
                                0,
                            );
                        }
                    }
                }
                break ;
            } else {
                proof {
                    lemma_names_total(s[i as int].name, name@);
                }
                found = true;
                break ;
            }
        }
        proof {
            lemma_before_irreflexive(encode_utf8(name@), 0);
            if found {
                assert forall|j: int| i + 1 <= j < s.len() implies name_before(
                    name@,
                    (#[trigger] s[j]).name,
                ) by {
                    assert(name_before(s[i as int].name, s[j].name));
                }
            } else {
                if holds_name(s, name@) {
                    let k = index_of_name(s, name@);
                    if k < i {
                        assert(name_before(s[k].name, name@));
                    } else {
                        assert(name_before(name@, s[k].name));
                    }
                }
            }
        }
        (i, found)
    }
}

impl Backend for MemoryBackend {
    closed spec fn entries(&self) -> Entries {
        table_map(entries_view(self.table@))
    }

    closed spec fn wf(&self) -> bool {
        ascending_names(entries_view(self.table@))
    }

    proof fn lemma_keyed_by_name(&self) {
        lemma_table_is_listing(entries_view(self.table@));
    }

    fn get(&self, name: &str) -> (r: Result<KeyEntry, KeyringError>) {
        let (pos, found) = self.locate(name);
        if found {
            proof {
                lemma_table_lookup(self.listing(), pos as int);
            }
            Ok(self.table[pos].clone())
        } else {
            Err(KeyringError::NotFound)
        }
    }

    fn list(&self) -> (r: Vec<KeyEntry>) {
        let mut out: Vec<KeyEntry> = Vec::new();
        let mut i: usize = 0;
        while i < self.table.len()
            invariant
                i <= self.table@.len(),
                out@.len() == i,
                forall|j: int| 0 <= j < i ==> (#[trigger] out@[j])@ == self.table@[j]@,
            decreases self.table@.len() - i,
        {
            out.push(self.table[i].clone());
            i = i + 1;
        }
        proof {
            assert(entries_view(out@) =~= entries_view(self.table@));
            lemma_table_is_listing(entries_view(self.table@));
        }
        out
    }

    fn put(&mut self, entry: KeyEntry, overwrite: bool) -> (r: Result<(), KeyringError>) {
        let ghost s = self.listing();
        let ghost e = entry@;
        let (pos, found) = self.locate(entry.name.as_str());
        if found {
            if !overwrite {
                return Err(KeyringError::AlreadyExists);
            }
            proof {
                lemma_table_lookup(s, pos as int);
                lemma_table_remove(s, pos as int);
            }
            let _ = self.table.remove(pos);
            assert(entries_view(self.table@) =~= s.remove(pos as int));
            proof {
                lemma_table_insert(s.remove(pos as int), pos as int, e);
            }
            self.table.insert(pos, entry);
            assert(entries_view(self.table@) =~= s.remove(pos as int).insert(pos as int, e));
            assert(table_map(s).remove(e.name).insert(e.name, e) =~= table_map(s).insert(
                e.name,
                e,
            ));
        } else {
            proof {
                lemma_table_insert(s, pos as int, e);
            }
            self.table.insert(pos, entry);
            assert(entries_view(self.table@) =~= s.insert(pos as int, e));
        }
        Ok(())
    }

    fn delete(&mut self, name: &str) -> (r: Result<(), KeyringError>) {
        let ghost s = self.listing();
        let (pos, found) = self.locate(name);
        if !found {
            return Err(KeyringError::NotFound);
        }
        proof {
            lemma_table_remove(s, pos as int);
        }
        let _ = self.table.remove(pos);
        assert(entries_view(self.table@) =~= s.remove(pos as int));
        Ok(())
    }

    fn rename(&mut self, old_name: &str, new_name: &str) -> (r: Result<(), KeyringError>) {
        let ghost s = self.listing();
        let (_, taken) = self.locate(new_name);
        if taken {
            return Err(KeyringError::AlreadyExists);
        }
        let (pos, found) = self.locate(old_name);
        if !found {
            return Err(KeyringError::NotFound);
        }
        proof {
            lemma_table_lookup(s, pos as int);
            lemma_table_remove(s, pos as int);
        }
        let entry = self.table.remove(pos);
        assert(entries_view(self.table@) =~= s.remove(pos as int));
        let moved = entry.with_name(new_name.to_owned());
        let ghost m = moved@;
        let ghost rest = s.remove(pos as int);
        proof {
            if holds_name(rest, new_name@) {
                let k = index_of_name(rest, new_name@);
                let sk = if k < pos {
                    k
                } else {
                    k + 1
                };
                assert(s[sk].name == new_name@);
            }
        }
        let (slot, _) = self.locate(new_name);
        proof {
            lemma_table_insert(rest, slot as int, m);
        }
        self.table.insert(slot, moved);
        assert(entries_view(self.table@) =~= rest.insert(slot as int, m));
        Ok(())
    }
}

} // verus!
