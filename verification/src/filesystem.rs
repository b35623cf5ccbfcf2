//! The file store behind a location: a contract with three operations, a store held
//! in memory, and a loader over any store.

use std::sync::Arc;
use vstd::prelude::*;
use vstd::string::*;
use vstd::utf8::{decode_utf8, encode_utf8, valid_utf8};

verus! {

/// A place where texts are kept under paths.  What each operation does is up to the
/// implementation, and so is its error.
pub trait FileSystem: Clone {
    /// What goes wrong in this store.
    type FSError: std::fmt::Debug;

    /// Tests whether a file is kept under `path`.
    fn path_exists(&self, path: &str) -> Result<bool, Self::FSError>;

    /// Reads the file kept under `filename` into a string.
    fn read(&self, filename: &str) -> Result<String, Self::FSError>;

    /// Writes `contents` into the file kept under `filename`.
    fn write(&mut self, filename: &str, contents: &[u8]) -> Result<(), Self::FSError>;
}

#[verifier::external_type_specification]
#[verifier::external_body]
pub struct ExIoError(std::io::Error);

/// `std::io::Error::new` with the kind `Other`: an error that carries the debug text of
/// `cause`.  Nothing is claimed of the error made.
#[verifier::external_body]
fn other_error<E: std::fmt::Debug>(cause: &E) -> std::io::Error {
    std::io::Error::new(std::io::ErrorKind::Other, format!("{:?}", cause))
}

/// `Arc::from` on a slice: a shared slice that holds the bytes of `bytes`, in order.
#[verifier::external_body]
fn shared_bytes(bytes: &[u8]) -> (shared: Arc<[u8]>)
    ensures
        shared@ == bytes@,
{
    Arc::from(bytes)
}

/// What `String::from_utf8_lossy` makes of `bytes`: the text they encode, with each
/// invalid sequence replaced by U+FFFD.
pub uninterp spec fn utf8_lossy(bytes: Seq<u8>) -> Seq<char>;

/// `String::from_utf8_lossy`, made an owned string.  Valid UTF-8 is decoded as it is.
#[verifier::external_body]
fn lossy_text(bytes: &[u8]) -> (text: String)
    ensures
        text@ == utf8_lossy(bytes@),
        valid_utf8(bytes@) ==> text@ == decode_utf8(bytes@),
{
    String::from_utf8_lossy(bytes).into_owned()
}

/// A path with the text kept under it.
pub struct Entry {
    pub path: Seq<char>,
    pub text: Seq<char>,
}

/// No two entries have the same path.
pub open spec fn distinct_paths(listing: Seq<Entry>) -> bool {
    forall|i: int, j: int| 0 <= i < j < listing.len() ==> listing[i].path != listing[j].path
}

/// Some entry of `listing` is kept under `path`.
pub open spec fn lists(listing: Seq<Entry>, path: Seq<char>) -> bool {
    exists|i: int| 0 <= i < listing.len() && #[trigger] listing[i].path == path
}

/// Entry `i` is the last one kept under `path`.
pub open spec fn is_last_under(listing: Seq<Entry>, path: Seq<char>, i: int) -> bool {
    &&& 0 <= i < listing.len()
    &&& listing[i].path == path
    &&& forall|j: int| i < j < listing.len() ==> listing[j].path != path
}

/// The files of a listing: each path with the text of its last entry.
pub open spec fn files_of(listing: Seq<Entry>) -> Map<Seq<char>, Seq<char>>
    decreases listing.len(),
{
    if listing.len() == 0 {
        Map::empty()
    } else {
        files_of(listing.drop_last()).insert(listing.last().path, listing.last().text)
    }
}

/// The listing after `text` was put under `path`: the last entry of that path holds
/// the new text in its old place, and a new path goes to the end.
pub open spec fn stored(listing: Seq<Entry>, path: Seq<char>, text: Seq<char>) -> Seq<Entry> {
    if lists(listing, path) {
        listing.update(choose|i: int| is_last_under(listing, path, i), Entry { path, text })
    } else {
        listing.push(Entry { path, text })
    }
}

/// The text kept under `path`, or the empty text where there is none.
pub open spec fn text_at(files: Map<Seq<char>, Seq<char>>, path: Seq<char>) -> Seq<char> {
    if files.dom().contains(path) {
        files[path]
    } else {
        Seq::empty()
    }
}

/// The files of a listing are the paths it lists, each with the text of its last
/// entry.
pub proof fn lemma_files_of(listing: Seq<Entry>, path: Seq<char>)
    ensures
        files_of(listing).dom().contains(path) == lists(listing, path),
        forall|i: int| #[trigger]
            is_last_under(listing, path, i) ==> files_of(listing)[path] == listing[i].text,
    decreases listing.len(),
{
    if listing.len() > 0 {
        let front = listing.drop_last();
        lemma_files_of(front, path);
        if lists(front, path) {
            let i = choose|i: int| 0 <= i < front.len() && #[trigger] front[i].path == path;
            assert(listing[i].path == path);
        }
        if lists(listing, path) && listing.last().path != path {
            let i = choose|i: int| 0 <= i < listing.len() && #[trigger] listing[i].path == path;
            assert(front[i].path == path);
        }
        if listing.last().path == path {
            assert(listing[listing.len() - 1].path == path);
        }
        assert forall|i: int| #[trigger] is_last_under(listing, path, i) implies files_of(
            listing,
        )[path] == listing[i].text by {
            if i < listing.len() - 1 {
                assert(front[i].path == path);
                assert forall|j: int| i < j < front.len() implies front[j].path != path by {
                    assert(listing[j].path != path);
                }
                assert(is_last_under(front, path, i));
            }
        }
    }
}

/// Changing the text of the last entry under a path changes the files at that path
/// and nowhere else.
pub proof fn lemma_files_of_update(listing: Seq<Entry>, path: Seq<char>, text: Seq<char>, i: int)
    requires
        is_last_under(listing, path, i),
    ensures
        files_of(listing.update(i, Entry { path, text })) == files_of(listing).insert(path, text),
    decreases listing.len(),
{
    let after = listing.update(i, Entry { path, text });
    if i == listing.len() - 1 {
        assert(after.drop_last() =~= listing.drop_last());
        assert(files_of(after) =~= files_of(listing).insert(path, text));
    } else {
        let front = listing.drop_last();
        assert forall|j: int| i < j < front.len() implies front[j].path != path by {
            assert(listing[j].path != path);
        }
        lemma_files_of_update(front, path, text, i);
        assert(after.drop_last() =~= front.update(i, Entry { path, text }));
        assert(listing.last().path != path);
        assert(files_of(after) =~= files_of(listing).insert(path, text));
    }
}

/// Putting a text under a path changes the files at that path and nowhere else, and
/// keeps distinct paths distinct.
pub proof fn lemma_stored(listing: Seq<Entry>, path: Seq<char>, text: Seq<char>)
    ensures
        files_of(stored(listing, path, text)) == files_of(listing).insert(path, text),
        distinct_paths(listing) ==> distinct_paths(stored(listing, path, text)),
{
    let after = stored(listing, path, text);
    if lists(listing, path) {
        lemma_last_under(listing, path);
        let i = choose|i: int| is_last_under(listing, path, i);
        lemma_files_of_update(listing, path, text, i);
    } else {
        assert(after.drop_last() =~= listing);
        if distinct_paths(listing) {
            assert forall|i: int, j: int| 0 <= i < j < after.len() implies after[i].path
                != after[j].path by {
                if j == listing.len() {
                    assert(listing[i].path != path);
                }
            }
        }
    }
}

/// A path that is listed has a last entry.
pub proof fn lemma_last_under(listing: Seq<Entry>, path: Seq<char>)
    requires
        lists(listing, path),
    ensures
        exists|i: int| is_last_under(listing, path, i),
    decreases listing.len(),
{
    if listing.last().path == path {
        assert(is_last_under(listing, path, listing.len() - 1));
    } else {
        let front = listing.drop_last();
        let k = choose|k: int| 0 <= k < listing.len() && #[trigger] listing[k].path == path;
        assert(front[k].path == path);
        lemma_last_under(front, path);
        let i = choose|i: int| is_last_under(front, path, i);
        assert(listing[i].path == path);
        assert forall|j: int| i < j < listing.len() implies listing[j].path != path by {
            if j < front.len() {
                assert(front[j].path != path);
            }
        }
        assert(is_last_under(listing, path, i));
    }
}

/// A file store held in memory: texts under paths.  A path that is not there reads
/// as the empty text, without an error.
pub struct SymbolicFileSystem {
    entries: Vec<(String, String)>,
}

impl SymbolicFileSystem {
    /// The entries in the order in which their paths first came.
    pub closed spec fn listing(&self) -> Seq<Entry> {
        self.entries@.map_values(|e: (String, String)| Entry { path: e.0@, text: e.1@ })
    }

    /// A store without files.
    pub fn new() -> (store: Self)
        ensures
            store.listing() == Seq::<Entry>::empty(),
            store@ == Map::<Seq<char>, Seq<char>>::empty(),
    {
        let store = SymbolicFileSystem { entries: Vec::new() };
        assert(store.listing() =~= Seq::<Entry>::empty());
        store
    }

    /// The index of the last entry kept under `path`.
    fn position(&self, path: &str) -> (at: Option<usize>)
        ensures
            match at {
                Some(i) => is_last_under(self.listing(), path@, i as int),
                None => !lists(self.listing(), path@),
            },
    {
        let mut i: usize = self.entries.len();
        while i > 0
            invariant
                i <= self.entries@.len(),
                forall|j: int| i <= j < self.entries@.len() ==> self.listing()[j].path != path@,
            decreases i,
        {
            i -= 1;
            if crate::text::same_text(self.entries[i].0.as_str(), path) {
                return Some(i);
            }
        }
        None
    }

    /// Puts `text` under `path`, in place of what was there.
    pub fn insert(&mut self, path: String, text: String)
        ensures
            final(self).listing() == stored(old(self).listing(), path@, text@),
            final(self)@ == old(self)@.insert(path@, text@),
            distinct_paths(old(self).listing()) ==> distinct_paths(final(self).listing()),
    {
        let ghost before = self.listing();
        proof {
            lemma_stored(before, path@, text@);
        }
        match self.position(path.as_str()) {
            Some(i) => {
                proof {
                    let chosen = choose|k: int| is_last_under(before, path@, k);
                    assert(is_last_under(before, path@, i as int));
                    assert(is_last_under(before, path@, chosen));
                    assert(chosen == i);
                }
                self.entries.set(i, (path, text));
                assert(self.listing() =~= before.update(i as int, Entry { path: path@, text: text@ }));
            },
            None => {
                self.entries.push((path, text));
                assert(self.listing() =~= before.push(Entry { path: path@, text: text@ }));
            },
        }
    }

    /// The text kept under `canonical` where the path could be made canonical, else
    /// under `path` itself; the empty text where nothing is kept there.
    pub fn get(&self, path: &str, canonical: Option<&str>) -> (text: String)
        ensures
            text@ == text_at(
                self@,
                match canonical {
                    Some(resolved) => resolved@,
                    None => path@,
                },
            ),
    {
        let key = match canonical {
            Some(resolved) => resolved,
            None => path,
        };
        self.lookup(key)
    }

    /// The text kept under `path`, or the empty text.
    fn lookup(&self, path: &str) -> (text: String)
        ensures
            text@ == text_at(self@, path@),
    {
        proof {
            lemma_files_of(self.listing(), path@);
        }
        match self.position(path) {
            Some(i) => self.entries[i].1.clone(),
            None => String::new(),
        }
    }
}

impl View for SymbolicFileSystem {
    type V = Map<Seq<char>, Seq<char>>;

    open spec fn view(&self) -> Map<Seq<char>, Seq<char>> {
        files_of(self.listing())
    }
}

impl Clone for SymbolicFileSystem {
    fn clone(&self) -> (copy: Self)
        ensures
            copy.listing() == self.listing(),
            copy@ == self@,
    {
        let mut entries: Vec<(String, String)> = Vec::new();
        let mut i: usize = 0;
        while i < self.entries.len()
            invariant
                i <= self.entries@.len(),
                entries@.len() == i,
                forall|j: int|
                    0 <= j < i ==> entries@[j].0@ == self.entries@[j].0@ && entries@[j].1@
                        == self.entries@[j].1@,
            decreases self.entries@.len() - i,
        {
            entries.push((self.entries[i].0.clone(), self.entries[i].1.clone()));
            i += 1;
        }
        let ghost listing = entries@.map_values(
            |e: (String, String)| Entry { path: e.0@, text: e.1@ },
        );
        assert(listing =~= self.listing());
        SymbolicFileSystem { entries }
    }
}

impl FileSystem for SymbolicFileSystem {
    type FSError = ();

    /// Whether a file is kept under `path`.  Never fails.
    fn path_exists(&self, path: &str) -> (outcome: Result<bool, ()>)
        ensures
            outcome == Ok::<bool, ()>(self@.dom().contains(path@)),
    {
        proof {
            lemma_files_of(self.listing(), path@);
        }
        Ok(self.position(path).is_some())
    }

    /// The text kept under `filename`, or the empty text.  Never fails.
    fn read(&self, filename: &str) -> (outcome: Result<String, ()>)
        ensures
            outcome matches Ok(text) && text@ == text_at(self@, filename@),
    {
        Ok(self.lookup(filename))
    }

    /// Puts under `filename` the text that `contents` encode, invalid sequences
    /// replaced.  Never fails.  Valid UTF-8 is kept as the text it encodes, so that
    /// what was written is what will be read.
    fn write(&mut self, filename: &str, contents: &[u8]) -> (outcome: Result<(), ()>)
        ensures
            outcome is Ok,
            final(self).listing() == stored(old(self).listing(), filename@, utf8_lossy(contents@)),
            final(self)@ == old(self)@.insert(filename@, utf8_lossy(contents@)),
            valid_utf8(contents@) ==> text_at(final(self)@, filename@) == decode_utf8(contents@),
    {
        let text = lossy_text(contents);
        self.insert(filename.to_owned(), text);
        Ok(())
    }
}

/// The entries of a listing as the store shows them: for each, a line with the path
/// in quotes, the text on lines of its own, and a closing line.
pub open spec fn shown_entries(listing: Seq<Entry>) -> Seq<char>
    decreases listing.len(),
{
    if listing.len() == 0 {
        Seq::empty()
    } else {
        shown_entries(listing.drop_last()) + "file \""@ + listing.last().path + "\": {|\n"@
            + listing.last().text + "\n|}\n"@
    }
}

/// A store as text: an opening line, the entries in the order of the listing, and a
/// closing line.
pub open spec fn shown(listing: Seq<Entry>) -> Seq<char> {
    "SymbolicFileSystem {\n"@ + shown_entries(listing) + "}\n"@
}

impl SymbolicFileSystem {
    /// The store as text, for a reader.
    pub fn to_string(&self) -> (text: String)
        ensures
            text@ == shown(self.listing()),
    {
        let mut text = String::from_str("SymbolicFileSystem {\n");
        let ghost listing = self.listing();
        let mut i: usize = 0;
        assert(text@ =~= "SymbolicFileSystem {\n"@ + shown_entries(listing.take(0)));
        while i < self.entries.len()
            invariant
                i <= self.entries@.len(),
                listing == self.listing(),
                text@ == "SymbolicFileSystem {\n"@ + shown_entries(listing.take(i as int)),
            decreases self.entries@.len() - i,
        {
            proof {
                assert(listing.take(i + 1).drop_last() =~= listing.take(i as int));
            }
            let ghost before = text@;
            text.append("file \"");
            text.append(self.entries[i].0.as_str());
            text.append("\": {|\n");
            text.append(self.entries[i].1.as_str());
            text.append("\n|}\n");
            assert(text@ =~= before + "file \""@ + listing[i as int].path + "\": {|\n"@
                + listing[i as int].text + "\n|}\n"@);
            i += 1;
        }
        assert(listing.take(i as int) =~= listing);
        text.append("}\n");
        text
    }
}

/// What a loader makes of a store's answer to "is it there?": an error counts as no.
pub fn exists_or_false<E>(outcome: Result<bool, E>) -> (present: bool)
    ensures
        present == (outcome matches Ok(found) && found),
{
    match outcome {
        Ok(found) => found,
        Err(_) => false,
    }
}

/// What a loader makes of a store's answer to a read: the text as it is, and an I/O
/// error in place of the store's own.
pub fn read_or_io_error<E: std::fmt::Debug>(outcome: Result<String, E>) -> (text: Result<
    String,
    std::io::Error,
>)
    ensures
        match outcome {
            Ok(read) => text matches Ok(same) && same == read,
            Err(_) => text is Err,
        },
{
    match outcome {
        Ok(read) => Ok(read),
        Err(cause) => Err(other_error(&cause)),
    }
}

/// The bytes of a text that was read: its UTF-8 encoding, shared; an error stays as
/// it is.
pub fn bytes_of_text(text: Result<String, std::io::Error>) -> (bytes: Result<
    Arc<[u8]>,
    std::io::Error,
>)
    ensures
        match text {
            Ok(read) => bytes matches Ok(shared) && shared@ == encode_utf8(read@),
            Err(cause) => bytes matches Err(same) && same == cause,
        },
{
    match text {
        Ok(read) => {
            let encoded = read.as_str().as_bytes();
            Ok(shared_bytes(encoded))
        },
        Err(cause) => Err(cause),
    }
}

/// Reads files through a store.
#[derive(Debug)]
pub struct FileLoader<T: FileSystem>(T);

impl<T: FileSystem> Clone for FileLoader<T> {
    /// A loader over a clone of the store.
    fn clone(&self) -> (copy: Self)
        ensures
            call_ensures(T::clone, (&self@,), copy@),
    {
        FileLoader(self.0.clone())
    }
}

impl<T: FileSystem> View for FileLoader<T> {
    type V = T;

    /// The store that the loader reads from.
    closed spec fn view(&self) -> T {
        self.0
    }
}

impl<T: FileSystem> FileLoader<T> {
    /// A loader over `fs`.
    pub fn new(fs: T) -> (loader: Self)
        ensures
            loader@ == fs,
    {
        FileLoader(fs)
    }

    /// Whether the store says that a file is kept under `path`; `false` where the
    /// store fails.
    pub fn file_exists(&self, path: &str) -> (present: bool)
        ensures
            exists|outcome: Result<bool, T::FSError>|
                call_ensures(T::path_exists, (&self@, path), outcome) && present == (
                outcome matches Ok(found) && found),
    {
        exists_or_false(self.0.path_exists(path))
    }

    /// The text that the store reads under `path`, or an I/O error where the store
    /// fails.
    pub fn read_file(&self, path: &str) -> (text: Result<String, std::io::Error>)
        ensures
            exists|outcome: Result<String, T::FSError>|
                call_ensures(T::read, (&self@, path), outcome) && match outcome {
                    Ok(read) => text matches Ok(same) && same == read,
                    Err(_) => text is Err,
                },
    {
        read_or_io_error(self.0.read(path))
    }

    /// The UTF-8 bytes of the text that the store reads under `path`, or an I/O
    /// error where the store fails.
    pub fn read_binary_file(&self, path: &str) -> (bytes: Result<Arc<[u8]>, std::io::Error>)
        ensures
            exists|outcome: Result<String, T::FSError>|
                call_ensures(T::read, (&self@, path), outcome) && match outcome {
                    Ok(read) => bytes matches Ok(shared) && shared@ == encode_utf8(read@),
                    Err(_) => bytes is Err,
                },
    {
        bytes_of_text(self.read_file(path))
    }
}

/// Filling a store from a directory tree, step by step.  The walk keeps a work list
/// of paths that are still to be looked at, and takes the path added last first.
/// Whoever drives it looks each path up and reports what is there: a directory with
/// its entries, or a file with its canonical path and its text.
pub struct Ingest {
    to_visit: Vec<String>,
    store: SymbolicFileSystem,
}

/// Model of an [`Ingest`].
pub struct IngestView {
    /// The paths still to be looked at; the last one is next.
    pub to_visit: Seq<Seq<char>>,
    /// The entries gathered so far.
    pub listing: Seq<Entry>,
}

impl View for Ingest {
    type V = IngestView;

    closed spec fn view(&self) -> IngestView {
        IngestView {
            to_visit: self.to_visit@.map_values(|path: String| path@),
            listing: self.store.listing(),
        }
    }
}

impl Ingest {
    /// A walk that starts at `root` with an empty store.
    pub fn new(root: String) -> (walk: Self)
        ensures
            walk@ == (IngestView { to_visit: seq![root@], listing: Seq::empty() }),
    {
        let mut to_visit: Vec<String> = Vec::new();
        to_visit.push(root);
        let walk = Ingest { to_visit, store: SymbolicFileSystem::new() };
        assert(walk@.to_visit =~= seq![root@]);
        walk
    }

    /// Takes the next path off the work list; `None` when the walk is over.
    pub fn next_path(&mut self) -> (next: Option<String>)
        ensures
            final(self)@.listing == old(self)@.listing,
            match next {
                Some(path) => old(self)@.to_visit.len() > 0 && path@ == old(self)@.to_visit.last()
                    && final(self)@.to_visit == old(self)@.to_visit.drop_last(),
                None => old(self)@.to_visit.len() == 0 && final(self)@.to_visit == old(
                    self,
                )@.to_visit,
            },
    {
        let next = self.to_visit.pop();
        proof {
            if next is Some {
                assert(self@.to_visit =~= old(self)@.to_visit.drop_last());
            }
        }
        next
    }

    /// The path taken last is a directory: its entries go onto the work list, in
    /// the order given.
    pub fn found_directory(&mut self, entries: Vec<String>)
        ensures
            final(self)@.listing == old(self)@.listing,
            final(self)@.to_visit == old(self)@.to_visit + entries@.map_values(
                |path: String| path@,
            ),
    {
        let ghost added = entries@.map_values(|path: String| path@);
        let ghost before = self@.to_visit;
        let mut i: usize = 0;
        assert(self@.to_visit =~= before + added.take(0));
        while i < entries.len()
            invariant
                i <= entries@.len(),
                added == entries@.map_values(|path: String| path@),
                self@.listing == old(self)@.listing,
                self@.to_visit == before + added.take(i as int),
            decreases entries@.len() - i,
        {
            let path = entries[i].clone();
            let ghost held = self@.to_visit;
            self.to_visit.push(path);
            proof {
                assert(added[i as int] == entries@[i as int]@);
                assert(self@.to_visit =~= held.push(path@));
                assert(added.take(i + 1) =~= added.take(i as int).push(added[i as int]));
            }
            i += 1;
        }
        assert(added.take(i as int) =~= added);
    }

    /// The path taken last is a file: its text goes into the store under its
    /// canonical path.
    pub fn found_file(&mut self, canonical_path: String, contents: String)
        ensures
            final(self)@.to_visit == old(self)@.to_visit,
            final(self)@.listing == stored(old(self)@.listing, canonical_path@, contents@),
    {
        self.store.insert(canonical_path, contents);
    }

    /// The store that the walk has filled.
    pub fn into_store(self) -> (store: SymbolicFileSystem)
        ensures
            store.listing() == self@.listing,
    {
        self.store
    }
}

} // verus!
