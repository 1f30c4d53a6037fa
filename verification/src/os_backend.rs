//! The backend for the credential store of an operating system. The
//! store keeps one credential for each entry, whose secret is the text of
//! the entry; the backend works on the image of the credentials, and
//! talking to the store is left to the program around it.

use vstd::prelude::*;
use vstd::utf8::encode_utf8;
use crate::backend::{get_result, is_listing, Backend, Entries};
use crate::entry::{EntryView, KeyEntry};
use crate::error::KeyringError;
use crate::file_backend::{artifacts_match, loaded, FileBackend};
use crate::stored::{entry_of_text, entry_text};
use crate::text::{
    chars_of, field_end, free_of, hex_text, lemma_field_end_found, lemma_field_end_whole,
    not_among, push_chars, push_hex, push_text, split_fields, split_text, string_of,
    texts_not_among, texts_view,
};

verus! {

/// A credential as the store keeps it: the account it goes by, and the
/// secret, which the store does not look into.
#[derive(Debug)]
pub struct Credential {
    pub account: String,
    pub secret: String,
}

/// The account that the credential of an entry goes by: a fixed front,
/// and the bytes of the name in hexadecimal.
pub open spec fn account_of(name: Seq<char>) -> Seq<char> {
    "amon-key-"@ + hex_text(encode_utf8(name))
}

/// The account that the credential of an entry goes by.
pub fn account_name(name: &str) -> (account: String)
    ensures
        account@ == account_of(name@),
{
    let mut out: Vec<char> = Vec::new();
    push_text(&mut out, "amon-key-");
    push_hex(&mut out, name.as_bytes());
    string_of(&out)
}

/// The text of the index that lists the accounts of a store: the accounts
/// with a line end between one and the next.
pub open spec fn index_text(accounts: Seq<Seq<char>>) -> Seq<char>
    decreases accounts.len(),
{
    if accounts.len() == 0 {
        Seq::empty()
    } else if accounts.len() == 1 {
        accounts[0]
    } else {
        index_text(accounts.drop_last()) + seq!['\n'] + accounts.last()
    }
}

/// The accounts that an index lists: none where the text is empty, and
/// otherwise what stands between the line ends.
pub open spec fn index_accounts(text: Seq<char>) -> Seq<Seq<char>> {
    if text.len() == 0 {
        Seq::empty()
    } else {
        split_fields(text, '\n')
    }
}

proof fn lemma_index_text_front(accounts: Seq<Seq<char>>)
    requires
        accounts.len() >= 2,
    ensures
        index_text(accounts) == accounts[0] + seq!['\n'] + index_text(accounts.drop_first()),
    decreases accounts.len(),
{
    let front = accounts.drop_last();
    let rest = accounts.drop_first();
    if accounts.len() == 2 {
        assert(front.len() == 1 && rest.len() == 1);
        assert(front[0] == accounts[0]);
        assert(rest[0] == accounts[1]);
        assert(accounts.last() == accounts[1]);
        assert(index_text(front) == front[0]);
        assert(index_text(rest) == rest[0]);
        assert(index_text(accounts) == index_text(front) + seq!['\n'] + accounts.last());
    } else {
        lemma_index_text_front(front);
        assert(front.drop_first() =~= rest.drop_last());
        assert(front[0] == accounts[0]);
        assert(rest.last() == accounts.last());
        assert(index_text(rest) == index_text(rest.drop_last()) + seq!['\n'] + rest.last());
        assert(index_text(accounts) =~= accounts[0] + seq!['\n'] + index_text(rest));
    }
}

proof fn lemma_index_text_length(accounts: Seq<Seq<char>>)
    requires
        accounts.len() >= 1,
        accounts[0].len() > 0,
    ensures
        index_text(accounts).len() > 0,
    decreases accounts.len(),
{
    if accounts.len() >= 2 {
        lemma_index_text_front(accounts);
    }
}

/// An index is read back as the accounts it was written from, where each
/// account holds a character and no line end.
pub proof fn lemma_index_round_trip(accounts: Seq<Seq<char>>)
    requires
        forall|i: int|
            0 <= i < accounts.len() ==> (#[trigger] accounts[i]).len() > 0 && free_of(
                accounts[i],
                '\n',
            ),
    ensures
        index_accounts(index_text(accounts)) == accounts,
    decreases accounts.len(),
{
    if accounts.len() == 0 {
        assert(accounts =~= Seq::<Seq<char>>::empty());
    } else if accounts.len() == 1 {
        lemma_field_end_whole(accounts[0], '\n');
        assert(seq![accounts[0]] =~= accounts);
    } else {
        let rest = accounts.drop_first();
        let text = index_text(accounts);
        lemma_index_text_front(accounts);
        assert(forall|i: int| 0 <= i < rest.len() ==> (#[trigger] rest[i]) == accounts[i + 1]);
        lemma_index_round_trip(rest);
        lemma_index_text_length(rest);
        lemma_field_end_found(accounts[0], '\n', index_text(rest));
        let end = field_end(text, '\n');
        assert(text.take(end) =~= accounts[0]);
        assert(text.skip(end + 1) =~= index_text(rest));
        assert(seq![accounts[0]] + rest =~= accounts);
    }
}

/// Writes the index of the accounts.
pub fn write_index(accounts: &Vec<String>) -> (text: String)
    ensures
        text@ == index_text(texts_view(accounts@)),
{
    let ghost views = texts_view(accounts@);
    let mut out: Vec<char> = Vec::new();
    let mut i: usize = 0;
    assert(views.take(0) =~= Seq::<Seq<char>>::empty());
    while i < accounts.len()
        invariant
            i <= accounts@.len(),
            views == texts_view(accounts@),
            out@ == index_text(views.take(i as int)),
        decreases accounts@.len() - i,
    {
        proof {
            assert(views.take(i + 1).drop_last() =~= views.take(i as int));
            assert(views.take(i + 1).last() == accounts@[i as int]@);
            if i == 0 {
                assert(views.take(1)[0] == accounts@[0]@);
            }
        }
        if i > 0 {
            out.push('\n');
        }
        let chars = chars_of(accounts[i].as_str());
        push_chars(&mut out, &chars);
        assert(out@ =~= index_text(views.take(i + 1)));
        i = i + 1;
    }
    assert(views.take(i as int) =~= views);
    string_of(&out)
}

/// Reads the accounts that an index lists.
pub fn read_index(text: &str) -> (accounts: Vec<String>)
    ensures
        texts_view(accounts@) == index_accounts(text@),
{
    if text.unicode_len() == 0 {
        let accounts: Vec<String> = Vec::new();
        assert(texts_view(accounts@) =~= Seq::<Seq<char>>::empty());
        accounts
    } else {
        split_text(text, '\n')
    }
}

/// Whether the credentials are those of the listed entries, in order.
pub open spec fn credentials_match(credentials: Seq<Credential>, listing: Seq<EntryView>) -> bool {
    &&& credentials.len() == listing.len()
    &&& forall|i: int|
        0 <= i < listing.len() ==> (#[trigger] credentials[i]).account@ == account_of(
            listing[i].name,
        ) && credentials[i].secret@ == entry_text(listing[i])
}

/// The backend of the credential store of an operating system.
#[derive(Debug)]
pub struct OsBackend {
    image: FileBackend,
}

impl OsBackend {
    /// The image of a store without credentials.
    pub fn new() -> (store: OsBackend)
        ensures
            store.wf(),
            store.entries() == Entries::empty(),
    {
        OsBackend { image: FileBackend::new() }
    }

    /// The image of a store with the given secrets.
    ///
    /// A secret that is not the text of an entry is reported as malformed,
    /// and a name that comes twice as taken.
    pub fn load(secrets: &Vec<String>) -> (r: Result<OsBackend, KeyringError>)
        ensures
            match loaded(texts_view(secrets@)) {
                Ok(entries) => r matches Ok(store) && store.wf() && store.entries() == entries,
                Err(e) => r matches Err(x) && x == e,
            },
    {
        match FileBackend::load(secrets) {
            Ok(image) => Ok(OsBackend { image }),
            Err(e) => Err(e),
        }
    }

    /// The credential of the entry stored under `name`. Its secret reads
    /// back as the entry.
    pub fn credential(&self, name: &str) -> (r: Result<Credential, KeyringError>)
        requires
            self.wf(),
        ensures
            match get_result(self.entries(), name@) {
                Ok(entry) => r matches Ok(found) && found.account@ == account_of(name@)
                    && found.secret@ == entry_text(entry) && entry_of_text(found.secret@) == Some(
                    entry,
                ),
                Err(e) => r matches Err(x) && x == e,
            },
    {
        match self.image.artifact(name) {
            Ok(secret) => Ok(Credential { account: account_name(name), secret }),
            Err(e) => Err(e),
        }
    }

    /// The accounts of all entries, in ascending order of the names of
    /// the entries.
    pub fn accounts(&self) -> (r: Vec<String>)
        requires
            self.wf(),
        ensures
            exists|listing: Seq<EntryView>| #[trigger]
                is_listing(listing, self.entries()) && listing.len() == r@.len() && forall|i: int|
                    0 <= i < listing.len() ==> (#[trigger] r@[i])@ == account_of(listing[i].name),
    {
        let credentials = self.credentials();
        let ghost listing = choose|listing: Seq<EntryView>| #[trigger]
            is_listing(listing, self.entries()) && credentials_match(credentials@, listing);
        let mut out: Vec<String> = Vec::new();
        let mut i: usize = 0;
        while i < credentials.len()
            invariant
                i <= credentials@.len(),
                credentials_match(credentials@, listing),
                out@.len() == i,
                forall|j: int| 0 <= j < i ==> (#[trigger] out@[j])@ == account_of(listing[j].name),
            decreases credentials@.len() - i,
        {
            out.push(credentials[i].account.clone());
            i = i + 1;
        }
        assert(is_listing(listing, self.entries()));
        out
    }

    /// The index that lists the accounts of all entries.
    pub fn index(&self) -> (text: String)
        requires
            self.wf(),
        ensures
            exists|accounts: Seq<Seq<char>>|
                text@ == #[trigger] index_text(accounts) && exists|listing: Seq<EntryView>|
                 #[trigger]
                    is_listing(listing, self.entries()) && listing.len() == accounts.len()
                        && forall|i: int|
                        0 <= i < listing.len() ==> #[trigger] accounts[i] == account_of(
                            listing[i].name,
                        ),
    {
        let accounts = self.accounts();
        let text = write_index(&accounts);
        proof {
            self.lemma_accounts_view(accounts@);
        }
        text
    }

    /// The accounts that the store no longer needs, of those that an
    /// index listed: the ones that are not the account of an entry.
    pub fn stale_accounts(&self, present: &Vec<String>) -> (r: Vec<String>)
        requires
            self.wf(),
        ensures
            exists|kept: Seq<Seq<char>>|
                texts_view(r@) == #[trigger] not_among(texts_view(present@), kept) && exists|
                    listing: Seq<EntryView>,
                | #[trigger]
                    is_listing(listing, self.entries()) && listing.len() == kept.len() && forall|
                        i: int,
                    |
                        0 <= i < listing.len() ==> #[trigger] kept[i] == account_of(
                            listing[i].name,
                        ),
    {
        let kept = self.accounts();
        let r = texts_not_among(present, &kept);
        proof {
            self.lemma_accounts_view(kept@);
        }
        r
    }

    proof fn lemma_accounts_view(&self, accounts: Seq<String>)
        requires
            exists|listing: Seq<EntryView>| #[trigger]
                is_listing(listing, self.entries()) && listing.len() == accounts.len() && forall|
                    i: int,
                |
                    0 <= i < listing.len() ==> (#[trigger] accounts[i])@ == account_of(
                        listing[i].name,
                    ),
        ensures
            exists|listing: Seq<EntryView>| #[trigger]
                is_listing(listing, self.entries()) && listing.len() == texts_view(accounts).len()
                    && forall|i: int|
                    0 <= i < listing.len() ==> #[trigger] texts_view(accounts)[i] == account_of(
                        listing[i].name,
                    ),
    {
        let listing = choose|listing: Seq<EntryView>| #[trigger]
            is_listing(listing, self.entries()) && listing.len() == accounts.len() && forall|
                i: int,
            |
                0 <= i < listing.len() ==> (#[trigger] accounts[i])@ == account_of(
                    listing[i].name,
                );
        let views = texts_view(accounts);
        assert forall|i: int| 0 <= i < listing.len() implies #[trigger] views[i] == account_of(
            listing[i].name,
        ) by {
            assert(views[i] == accounts[i]@);
        }
    }

    /// The credentials of all entries, in ascending order of name.
    pub fn credentials(&self) -> (r: Vec<Credential>)
        requires
            self.wf(),
        ensures
            exists|listing: Seq<EntryView>| #[trigger]
                is_listing(listing, self.entries()) && credentials_match(r@, listing),
    {
        let artifacts = self.image.named_artifacts();
        let ghost listing = choose|listing: Seq<EntryView>| #[trigger]
            is_listing(listing, self.entries()) && artifacts_match(artifacts@, listing);
        let mut out: Vec<Credential> = Vec::new();
        let mut i: usize = 0;
        while i < artifacts.len()
            invariant
                i <= artifacts@.len(),
                artifacts_match(artifacts@, listing),
                out@.len() == i,
                forall|j: int|
                    0 <= j < i ==> (#[trigger] out@[j]).account@ == account_of(listing[j].name)
                        && out@[j].secret@ == entry_text(listing[j]),
            decreases artifacts@.len() - i,
        {
            let account = account_name(artifacts[i].name.as_str());
            let secret = artifacts[i].text.clone();
            out.push(Credential { account, secret });
            i = i + 1;
        }
        assert(credentials_match(out@, listing));
        out
    }
}

impl Backend for OsBackend {
    closed spec fn entries(&self) -> Entries {
        self.image.entries()
    }

    closed spec fn wf(&self) -> bool {
        self.image.wf()
    }

    proof fn lemma_keyed_by_name(&self) {
        self.image.lemma_keyed_by_name();
    }

    fn get(&self, name: &str) -> (r: Result<KeyEntry, KeyringError>) {
        self.image.get(name)
    }

    fn list(&self) -> (r: Vec<KeyEntry>) {
        self.image.list()
    }

    fn put(&mut self, entry: KeyEntry, overwrite: bool) -> (r: Result<(), KeyringError>) {
        self.image.put(entry, overwrite)
    }

    fn delete(&mut self, name: &str) -> (r: Result<(), KeyringError>) {
        self.image.delete(name)
    }

    fn rename(&mut self, old_name: &str, new_name: &str) -> (r: Result<(), KeyringError>) {
        self.image.rename(old_name, new_name)
    }
}

} // verus!
