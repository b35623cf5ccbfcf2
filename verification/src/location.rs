//! Where a definition lives: a file path and a qualified name.

pub use crate::filesystem::FileSystem;
use crate::text::{
    join_text, joined, lemma_split_then_join, occurs_in, split, split_text, texts,
};
use vstd::prelude::*;
use vstd::string::*;

verus! {

/// A position in a source file as it was reported: the file and the line numbers.
#[derive(Debug, PartialEq, Eq)]
pub struct RawLoc {
    pub filename: String,
    pub lines: Vec<u32>,
}

/// Model of a [`RawLoc`].
pub struct RawLocView {
    pub filename: Seq<char>,
    pub lines: Seq<u32>,
}

impl View for RawLoc {
    type V = RawLocView;

    open spec fn view(&self) -> RawLocView {
        RawLocView { filename: self.filename@, lines: self.lines@ }
    }
}

impl Clone for RawLoc {
    fn clone(&self) -> (copy: Self)
        ensures
            copy@ == self@,
    {
        RawLoc { filename: self.filename.clone(), lines: self.lines.clone() }
    }
}

impl RawLoc {
    /// A raw location in `filename` at `lines`.
    pub fn new(filename: String, lines: Vec<u32>) -> (raw: Self)
        ensures
            raw.filename == filename,
            raw.lines == lines,
            raw@ == (RawLocView { filename: filename@, lines: lines@ }),
    {
        Self { filename, lines }
    }
}

/// A file path together with the qualified name of a function in it, such as
/// `outer::inner::name`.
#[derive(Debug, PartialEq, Eq, Hash, PartialOrd, Ord)]
pub struct Loc(String, String);

impl Clone for Loc {
    fn clone(&self) -> (copy: Self)
        ensures
            copy@ == self@,
    {
        Loc(self.0.clone(), self.1.clone())
    }
}

/// Model of a [`Loc`].
pub struct LocView {
    pub path: Seq<char>,
    pub qualified_name: Seq<char>,
}

/// What stands between the segments of a qualified name.
pub open spec fn separator() -> Seq<char> {
    seq![':', ':']
}

/// The last segment of a qualified name; empty where the name has no separator.
pub open spec fn short_name(qualified_name: Seq<char>) -> Seq<char> {
    let segments = split(qualified_name, separator());
    if segments.len() < 2 {
        Seq::empty()
    } else {
        segments.last()
    }
}

/// All segments of a qualified name but the last, joined by the separator again;
/// empty where the name has no separator.
pub open spec fn defining_scope(qualified_name: Seq<char>) -> Seq<char> {
    joined(split(qualified_name, separator()).drop_last(), separator())
}

/// A qualified name that holds a separator is its defining scope, the separator, and
/// its short name.
pub proof fn lemma_scope_and_short_name(qualified_name: Seq<char>)
    requires
        occurs_in(separator(), qualified_name),
    ensures
        defining_scope(qualified_name) + separator() + short_name(qualified_name)
            == qualified_name,
{
    lemma_split_then_join(qualified_name, separator());
}

/// A qualified name without a separator has neither a defining scope nor a short
/// name.
pub proof fn lemma_unqualified_name(qualified_name: Seq<char>)
    requires
        !occurs_in(separator(), qualified_name),
    ensures
        defining_scope(qualified_name) == Seq::<char>::empty(),
        short_name(qualified_name) == Seq::<char>::empty(),
{
    assert(split(qualified_name, separator()) == seq![qualified_name]);
    assert(seq![qualified_name].drop_last() =~= Seq::<Seq<char>>::empty());
}

impl View for Loc {
    type V = LocView;

    closed spec fn view(&self) -> LocView {
        LocView { path: self.0@, qualified_name: self.1@ }
    }
}

impl Loc {
    /// A location is well formed when its qualified name is not empty.
    pub open spec fn well_formed(&self) -> bool {
        self@.qualified_name.len() > 0
    }

    /// The file path.
    pub fn path(&self) -> (path: &String)
        ensures
            path@ == self@.path,
    {
        &self.0
    }

    /// The function's own name: what follows the last separator.
    pub fn fn_name(&self) -> (name: &str)
        ensures
            name@ == short_name(self@.qualified_name),
    {
        proof {
            reveal_strlit("::");
            reveal_strlit("");
            assert("::"@ =~= separator());
        }
        let segments = split_text(self.1.as_str(), "::");
        if segments.len() < 2 {
            assert(""@ =~= Seq::<char>::empty());
            ""
        } else {
            assert(texts(segments@).last() == segments@.last()@);
            segments[segments.len() - 1]
        }
    }

    /// The qualified name as it was given.
    pub fn full_fn_name(&self) -> (name: &str)
        ensures
            name@ == self@.qualified_name,
    {
        self.1.as_str()
    }

    /// Where the function is defined: the qualified name without its last segment.
    pub fn file_name(&self) -> (scope: String)
        ensures
            scope@ == defining_scope(self@.qualified_name),
    {
        proof {
            reveal_strlit("::");
            assert("::"@ =~= separator());
        }
        let mut segments = split_text(self.1.as_str(), "::");
        let ghost all = texts(segments@);
        segments.pop();
        assert(texts(segments@) =~= all.drop_last());
        join_text(&segments, "::")
    }

    /// Reads the source file from `fs`: whatever the store answers for this path.
    pub fn read_source<S: FileSystem>(&self, fs: &S) -> (outcome: Result<String, S::FSError>)
        ensures
            exists|path: &str|
                path@ == self@.path && call_ensures(S::read, (fs, path), outcome),
    {
        fs.read(self.0.as_str())
    }

    /// Writes `text` to the source file in `fs`, as UTF-8: whatever the store
    /// answers for this path and these bytes.
    pub fn write_source<S: FileSystem>(&self, fs: &mut S, text: &str) -> (outcome: Result<
        (),
        S::FSError,
    >)
        ensures
            exists|store: &mut S, path: &str, bytes: &[u8]|
                *store == *old(fs) && *final(store) == *final(fs) && path@ == self@.path && bytes@
                    == vstd::utf8::encode_utf8(text@) && call_ensures(
                    S::write,
                    (store, path, bytes),
                    outcome,
                ),
    {
        fs.write(self.0.as_str(), text.as_bytes())
    }

    /// The location as text: the path, a colon, and the qualified name.
    pub fn to_string(&self) -> (text: String)
        ensures
            text@ == self@.path + seq![':'] + self@.qualified_name,
    {
        proof {
            reveal_strlit(":");
        }
        let mut text = self.0.clone();
        text.append(":");
        text.append(self.1.as_str());
        assert(text@ =~= self@.path + seq![':'] + self@.qualified_name);
        text
    }
}

impl From<(RawLoc, String)> for Loc {
    /// The location of `name` in the file of the raw location; the line numbers are
    /// left behind.
    fn from(pair: (RawLoc, String)) -> (loc: Self)
        ensures
            loc@ == (LocView { path: pair.0.filename@, qualified_name: pair.1@ }),
    {
        Loc(pair.0.filename, pair.1)
    }
}

impl vstd::std_specs::convert::FromSpecImpl<(RawLoc, String)> for Loc {
    open spec fn obeys_from_spec() -> bool {
        true
    }

    closed spec fn from_spec(pair: (RawLoc, String)) -> Loc {
        Loc(pair.0.filename, pair.1)
    }
}

} // verus!
