//! The backend for stores that keep one artifact for each entry: a file
//! on disk, or a record of a credential store. The backend works on the
//! image of such a store; reading the artifacts in and writing them out is
//! left to the program around it.

use vstd::prelude::*;
use vstd::utf8::encode_utf8;
use crate::backend::{
    ascending_names, get_result, index_of_name, is_listing, lemma_listing_is_table,
    lemma_table_insert, name_before, put_result, table_map, Backend, Entries, MemoryBackend,
};
use crate::lex::lemma_before_irreflexive;
use crate::entry::{entries_view, EntryView, KeyEntry};
use crate::error::KeyringError;
use crate::stored::{
    decode_entry, encode_entry, entry_of_text, entry_text, lemma_entry_of_text, storable,
};
use crate::text::{
    chars_of, hex_text, not_among, push_hex, push_text, range_is, string_of, texts_not_among,
    texts_view,
};

verus! {

/// The entries that a sequence of artifacts holds: each artifact must be
/// the text of an entry, and no name may come twice.
pub open spec fn loaded(artifacts: Seq<Seq<char>>) -> Result<Entries, KeyringError>
    decreases artifacts.len(),
{
    if artifacts.len() == 0 {
        Ok(Map::empty())
    } else {
        match loaded(artifacts.drop_last()) {
            Err(e) => Err(e),
            Ok(entries) => match entry_of_text(artifacts.last()) {
                None => Err(KeyringError::MalformedKey),
                Some(entry) => put_result(entries, entry, false),
            },
        }
    }
}

/// The texts of the entries, in order.
pub open spec fn artifacts_of(listing: Seq<EntryView>) -> Seq<Seq<char>> {
    Seq::new(listing.len(), |i: int| entry_text(listing[i]))
}

/// Whether every entry can be written and read back.
pub open spec fn all_storable(listing: Seq<EntryView>) -> bool {
    forall|i: int| 0 <= i < listing.len() ==> storable(#[trigger] listing[i])
}

/// The artifacts of a listing hold the entries that were listed: what was
/// written out is what is loaded.
pub proof fn lemma_artifacts_load_back(listing: Seq<EntryView>)
    requires
        ascending_names(listing),
        all_storable(listing),
    ensures
        loaded(artifacts_of(listing)) == Ok::<Entries, KeyringError>(table_map(listing)),
    decreases listing.len(),
{
    if listing.len() == 0 {
        assert(table_map(listing) =~= Map::<Seq<char>, EntryView>::empty());
    } else {
        let front = listing.drop_last();
        let last = listing.last();
        assert(ascending_names(front)) by {
            assert forall|i: int, j: int| 0 <= i < j < front.len() implies name_before(
                (#[trigger] front[i]).name,
                (#[trigger] front[j]).name,
            ) by {
                assert(front[i] == listing[i] && front[j] == listing[j]);
            }
        }
        assert(all_storable(front)) by {
            assert forall|i: int| 0 <= i < front.len() implies storable(#[trigger] front[i]) by {
                assert(front[i] == listing[i]);
            }
        }
        lemma_artifacts_load_back(front);
        assert(artifacts_of(listing).drop_last() =~= artifacts_of(front));
        assert(artifacts_of(listing).last() == entry_text(last));
        lemma_entry_of_text(last);
        assert forall|i: int| 0 <= i < front.len() implies name_before(
            (#[trigger] front[i]).name,
            last.name,
        ) by {
            assert(front[i] == listing[i]);
        }
        lemma_table_insert(front, front.len() as int, last);
        assert(front.insert(front.len() as int, last) =~= listing);
        if table_map(front).contains_key(last.name) {
            let k = index_of_name(front, last.name);
            assert(name_before(front[k].name, last.name));
            lemma_before_irreflexive(encode_utf8(last.name), 0);
        }
    }
}

/// The name of the file in which the entry of a name is kept: the bytes
/// of the name in hexadecimal, so that any name gives a file name, and the
/// suffix `.key`.
pub open spec fn file_name_of(name: Seq<char>) -> Seq<char> {
    hex_text(encode_utf8(name)) + ".key"@
}

/// The name of the file in which the entry of a name is kept.
pub fn file_name(name: &str) -> (file: String)
    ensures
        file@ == file_name_of(name@),
{
    let mut out: Vec<char> = Vec::new();
    push_hex(&mut out, name.as_bytes());
    push_text(&mut out, ".key");
    string_of(&out)
}

/// Whether a file name is that of an artifact: it ends in `.key`.
pub open spec fn is_artifact_name(name: Seq<char>) -> bool {
    name.len() >= 4 && name.subrange(name.len() - 4, name.len() as int) == ".key"@
}

/// Whether a file name is that of an artifact.
pub fn names_artifact(name: &str) -> (r: bool)
    ensures
        r == is_artifact_name(name@),
{
    let chars = chars_of(name);
    let suffix = chars_of(".key");
    proof {
        reveal_strlit(".key");
    }
    assert(suffix@.len() == 4);
    if chars.len() < suffix.len() {
        return false;
    }
    range_is(&chars, chars.len() - suffix.len(), chars.len(), &suffix)
}

/// The names of `present` that are names of artifacts, in their order.
pub open spec fn artifacts_among(present: Seq<Seq<char>>) -> Seq<Seq<char>>
    decreases present.len(),
{
    if present.len() == 0 {
        Seq::empty()
    } else if is_artifact_name(present.last()) {
        artifacts_among(present.drop_last()).push(present.last())
    } else {
        artifacts_among(present.drop_last())
    }
}

/// The files that a store no longer needs: of the files that are there,
/// the artifacts that are not among the files of the entries.
pub open spec fn stale_among(present: Seq<Seq<char>>, kept: Seq<Seq<char>>) -> Seq<Seq<char>> {
    not_among(artifacts_among(present), kept)
}

/// An artifact with the name of the entry that it holds.
#[derive(Debug)]
pub struct NamedArtifact {
    pub name: String,
    pub text: String,
}

/// Whether the artifacts are those of the listed entries, in order: each
/// has the name of its entry and the text of its entry.
pub open spec fn artifacts_match(artifacts: Seq<NamedArtifact>, listing: Seq<EntryView>) -> bool {
    &&& artifacts.len() == listing.len()
    &&& forall|i: int|
        0 <= i < listing.len() ==> (#[trigger] artifacts[i]).name@ == listing[i].name
            && artifacts[i].text@ == entry_text(listing[i])
}

/// The backend of a store that keeps one artifact for each entry.
#[derive(Debug)]
pub struct FileBackend {
    image: MemoryBackend,
}

impl FileBackend {
    /// The image of a store without artifacts.
    pub fn new() -> (store: FileBackend)
        ensures
            store.wf(),
            store.entries() == Entries::empty(),
    {
        FileBackend { image: MemoryBackend::new() }
    }

    /// The image of a store with the given artifacts.
    ///
    /// An artifact that is not the text of an entry is reported as
    /// malformed, and a name that comes twice as taken.
    pub fn load(artifacts: &Vec<String>) -> (r: Result<FileBackend, KeyringError>)
        ensures
            match loaded(texts_view(artifacts@)) {
                Ok(entries) => r matches Ok(store) && store.wf() && store.entries() == entries,
                Err(e) => r matches Err(x) && x == e,
            },
    {
        let ghost texts = texts_view(artifacts@);
        let mut image = MemoryBackend::new();
        let mut i: usize = 0;
        assert(texts.take(0) =~= Seq::<Seq<char>>::empty());
        while i < artifacts.len()
            invariant
                i <= artifacts@.len(),
                texts == texts_view(artifacts@),
                image.wf(),
                loaded(texts.take(i as int)) == Ok::<Entries, KeyringError>(image.entries()),
            decreases artifacts@.len() - i,
        {
            proof {
                assert(texts.take(i + 1).drop_last() =~= texts.take(i as int));
                assert(texts.take(i + 1).last() == artifacts@[i as int]@);
            }
            let entry = match decode_entry(artifacts[i].as_str()) {
                Ok(entry) => entry,
                Err(e) => {
                    proof {
                        lemma_load_failure_stays(texts, i + 1);
                    }
                    return Err(e);
                },
            };
            match image.put(entry, false) {
                Ok(()) => {},
                Err(e) => {
                    proof {
                        lemma_load_failure_stays(texts, i + 1);
                    }
                    return Err(e);
                },
            }
            i = i + 1;
        }
        assert(texts.take(i as int) =~= texts);
        Ok(FileBackend { image })
    }

    /// The artifact of the entry stored under `name`: the text that is
    /// kept for it, which reads back as the entry.
    pub fn artifact(&self, name: &str) -> (r: Result<String, KeyringError>)
        requires
            self.wf(),
        ensures
            match get_result(self.entries(), name@) {
                Ok(entry) => r matches Ok(text) && text@ == entry_text(entry) && entry_of_text(
                    text@,
                ) == Some(entry),
                Err(e) => r matches Err(x) && x == e,
            },
    {
        match self.image.get(name) {
            Ok(entry) => Ok(encode_entry(&entry)),
            Err(e) => Err(e),
        }
    }

    /// The artifacts of all entries with the names of the entries, in
    /// ascending order of name.
    pub fn named_artifacts(&self) -> (r: Vec<NamedArtifact>)
        requires
            self.wf(),
        ensures
            exists|listing: Seq<EntryView>| #[trigger]
                is_listing(listing, self.entries()) && artifacts_match(r@, listing),
    {
        let entries = self.image.list();
        let ghost listing = entries_view(entries@);
        let mut out: Vec<NamedArtifact> = Vec::new();
        let mut i: usize = 0;
        while i < entries.len()
            invariant
                i <= entries@.len(),
                listing == entries_view(entries@),
                out@.len() == i,
                forall|j: int|
                    0 <= j < i ==> (#[trigger] out@[j]).name@ == listing[j].name && out@[j].text@
                        == entry_text(listing[j]),
            decreases entries@.len() - i,
        {
            let text = encode_entry(&entries[i]);
            assert(listing[i as int] == entries@[i as int]@);
            out.push(NamedArtifact { name: entries[i].name.clone(), text });
            i = i + 1;
        }
        assert(is_listing(listing, self.entries()));
        assert(artifacts_match(out@, listing));
        out
    }

    /// The names of the files of all entries, in ascending order of the
    /// names of the entries.
    pub fn file_names(&self) -> (r: Vec<String>)
        requires
            self.wf(),
        ensures
            exists|listing: Seq<EntryView>| #[trigger]
                is_listing(listing, self.entries()) && listing.len() == r@.len() && forall|i: int|
                    0 <= i < listing.len() ==> (#[trigger] r@[i])@ == file_name_of(
                        listing[i].name,
                    ),
    {
        let entries = self.image.list();
        let ghost listing = entries_view(entries@);
        let mut out: Vec<String> = Vec::new();
        let mut i: usize = 0;
        while i < entries.len()
            invariant
                i <= entries@.len(),
                listing == entries_view(entries@),
                out@.len() == i,
                forall|j: int| 0 <= j < i ==> (#[trigger] out@[j])@ == file_name_of(listing[j].name),
            decreases entries@.len() - i,
        {
            assert(listing[i as int] == entries@[i as int]@);
            out.push(file_name(entries[i].name.as_str()));
            i = i + 1;
        }
        assert(is_listing(listing, self.entries()));
        out
    }

    /// The files that the store no longer needs, of those that are there:
    /// the artifacts that are not the file of an entry.
    pub fn stale_files(&self, present: &Vec<String>) -> (r: Vec<String>)
        requires
            self.wf(),
        ensures
            exists|kept: Seq<Seq<char>>|
                texts_view(r@) == #[trigger] stale_among(texts_view(present@), kept) && exists|
                    listing: Seq<EntryView>,
                | #[trigger]
                    is_listing(listing, self.entries()) && listing.len() == kept.len() && forall|
                        i: int,
                    |
                        0 <= i < listing.len() ==> #[trigger] kept[i] == file_name_of(
                            listing[i].name,
                        ),
    {
        let kept = self.file_names();
        let ghost views = texts_view(present@);
        let mut artifacts: Vec<String> = Vec::new();
        let mut i: usize = 0;
        assert(views.take(0) =~= Seq::<Seq<char>>::empty());
        assert(texts_view(artifacts@) =~= Seq::<Seq<char>>::empty());
        while i < present.len()
            invariant
                i <= present@.len(),
                views == texts_view(present@),
                texts_view(artifacts@) == artifacts_among(views.take(i as int)),
            decreases present@.len() - i,
        {
            let ghost before = texts_view(artifacts@);
            proof {
                assert(views.take(i + 1).drop_last() =~= views.take(i as int));
                assert(views.take(i + 1).last() == present@[i as int]@);
            }
            if names_artifact(present[i].as_str()) {
                artifacts.push(present[i].clone());
                assert(texts_view(artifacts@) =~= before.push(present@[i as int]@));
            }
            i = i + 1;
        }
        assert(views.take(i as int) =~= views);
        let r = texts_not_among(&artifacts, &kept);
        proof {
            let kept_view = texts_view(kept@);
            assert(texts_view(r@) == stale_among(views, kept_view));
            let listing = choose|listing: Seq<EntryView>| #[trigger]
                is_listing(listing, self.entries()) && listing.len() == kept@.len() && forall|
                    i: int,
                |
                    0 <= i < listing.len() ==> (#[trigger] kept@[i])@ == file_name_of(
                        listing[i].name,
                    );
            assert forall|i: int| 0 <= i < listing.len() implies #[trigger] kept_view[i]
                == file_name_of(listing[i].name) by {
                assert(kept_view[i] == kept@[i]@);
            }
        }
        r
    }

    /// The artifacts of all entries, in ascending order of name. Loading
    /// them gives the entries of this store.
    pub fn artifacts(&self) -> (r: Vec<String>)
        requires
            self.wf(),
        ensures
            loaded(texts_view(r@)) == Ok::<Entries, KeyringError>(self.entries()),
            exists|listing: Seq<EntryView>| #[trigger]
                is_listing(listing, self.entries()) && texts_view(r@) == artifacts_of(listing),
    {
        let entries = self.image.list();
        let ghost listing = entries_view(entries@);
        let mut out: Vec<String> = Vec::new();
        let mut i: usize = 0;
        while i < entries.len()
            invariant
                i <= entries@.len(),
                listing == entries_view(entries@),
                out@.len() == i,
                forall|j: int| 0 <= j < i ==> (#[trigger] out@[j])@ == entry_text(listing[j]),
                forall|j: int| 0 <= j < i ==> storable(#[trigger] listing[j]),
            decreases entries@.len() - i,
        {
            let text = encode_entry(&entries[i]);
            assert(listing[i as int] == entries@[i as int]@);
            out.push(text);
            i = i + 1;
        }
        proof {
            assert(texts_view(out@) =~= artifacts_of(listing));
            assert(is_listing(listing, self.entries()));
            lemma_listing_is_table(listing, self.entries());
            lemma_artifacts_load_back(listing);
        }
        out
    }
}

proof fn lemma_load_failure_stays(artifacts: Seq<Seq<char>>, n: int)
    requires
        0 <= n <= artifacts.len(),
        loaded(artifacts.take(n)) is Err,
    ensures
        loaded(artifacts) == loaded(artifacts.take(n)),
    decreases artifacts.len() - n,
{
    if n < artifacts.len() {
        assert(artifacts.take(n + 1).drop_last() =~= artifacts.take(n));
        lemma_load_failure_stays(artifacts, n + 1);
    } else {
        assert(artifacts.take(n) =~= artifacts);
    }
}

impl Backend for FileBackend {
    closed spec fn entries(&self) -> Entries {
        self.image.entries()
    }

    closed spec fn wf(&self) -> bool {
        self.image.wf()
    }

    proof fn lemma_keyed_by_name(&self) {
        self.image.lemma_keyed_by_name();
    }

    fn get(&self, name: &str) -> (r: Result<KeyEntry, KeyringError>) {
        self.image.get(name)
    }

    fn list(&self) -> (r: Vec<KeyEntry>) {
        self.image.list()
    }

    fn put(&mut self, entry: KeyEntry, overwrite: bool) -> (r: Result<(), KeyringError>) {
        self.image.put(entry, overwrite)
    }

    fn delete(&mut self, name: &str) -> (r: Result<(), KeyringError>) {
        self.image.delete(name)
    }

    fn rename(&mut self, old_name: &str, new_name: &str) -> (r: Result<(), KeyringError>) {
        self.image.rename(old_name, new_name)
    }
}

} // verus!
