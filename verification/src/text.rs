//! Text primitives shared by the rest of the crate: character access, comparison,
//! substring search, splitting and joining, each proved against a `Seq<char>` model.

use vstd::prelude::*;
use vstd::std_specs::iter::IteratorSpec;
use vstd::string::*;

verus! {

/// `pattern` occurs in `text` as a contiguous run of characters.
pub open spec fn occurs_in(pattern: Seq<char>, text: Seq<char>) -> bool {
    exists|k: int| occurs_at(pattern, text, k)
}

/// `pattern` occurs in `text` starting at index `k`.
pub open spec fn occurs_at(pattern: Seq<char>, text: Seq<char>, k: int) -> bool {
    0 <= k && k + pattern.len() <= text.len() && text.subrange(k, k + pattern.len()) == pattern
}

/// The characters of `s`, in order.
pub fn chars_of(s: &str) -> (v: Vec<char>)
    ensures
        v@ == s@,
{
    let mut v: Vec<char> = Vec::new();
    let mut rest = s.chars();
    loop
        invariant
            rest.remaining() == s@.skip(v@.len() as int),
            v@ == s@.take(v@.len() as int),
            v@.len() <= s@.len(),
        ensures
            v@ == s@,
        decreases s@.len() - v@.len(),
    {
        match rest.next() {
            Some(c) => {
                v.push(c);
            },
            None => {
                break ;
            },
        }
    }
    v
}

/// Whether two string slices hold the same characters.
pub fn same_text(a: &str, b: &str) -> (r: bool)
    ensures
        r == (a@ == b@),
{
    let left = a.as_bytes();
    let right = b.as_bytes();
    proof {
        // Two texts with the same encoding are the same text.
        vstd::utf8::encode_utf8_decode_utf8(a@);
        vstd::utf8::encode_utf8_decode_utf8(b@);
    }
    if left.len() != right.len() {
        return false;
    }
    let mut i: usize = 0;
    while i < left.len()
        invariant
            i <= left@.len(),
            left@.len() == right@.len(),
            (a@ == b@) == (left@ == right@),
            forall|j: int| 0 <= j < i ==> left@[j] == right@[j],
        decreases left@.len() - i,
    {
        if left[i] != right[i] {
            return false;
        }
        i += 1;
    }
    assert(left@ =~= right@);
    true
}

/// Whether `pattern` matches `text` at index `k`, compared character by character.
fn matches_at(text: &Vec<char>, pattern: &Vec<char>, k: usize) -> (r: bool)
    requires
        k + pattern@.len() <= text@.len(),
    ensures
        r == occurs_at(pattern@, text@, k as int),
{
    let text_len: usize = text.len();
    let mut j: usize = 0;
    while j < pattern.len()
        invariant
            j <= pattern@.len(),
            k + pattern@.len() <= text@.len() == text_len,
            forall|i: int| 0 <= i < j ==> text@[k + i] == pattern@[i],
        decreases pattern@.len() - j,
    {
        if text[k + j] != pattern[j] {
            proof {
                let window = text@.subrange(k as int, k + pattern@.len());
                assert(window[j as int] == text@[k + j]);
            }
            return false;
        }
        j += 1;
    }
    assert(text@.subrange(k as int, k + pattern@.len()) =~= pattern@);
    true
}

/// Substring test on character vectors.
pub fn contains_chars(text: &Vec<char>, pattern: &Vec<char>) -> (r: bool)
    ensures
        r == occurs_in(pattern@, text@),
{
    if pattern.len() > text.len() {
        return false;
    }
    let last: usize = text.len() - pattern.len();
    let mut k: usize = 0;
    loop
        invariant
            last == text@.len() - pattern@.len(),
            k <= last,
            forall|i: int| 0 <= i < k ==> !occurs_at(pattern@, text@, i),
        decreases last - k,
    {
        if matches_at(text, pattern, k) {
            return true;
        }
        if k == last {
            return false;
        }
        k += 1;
    }
}

/// Case-sensitive substring test: does `pattern` occur anywhere in `text`?
pub fn contains(text: &str, pattern: &str) -> (r: bool)
    ensures
        r == occurs_in(pattern@, text@),
{
    let text_chars = chars_of(text);
    let pattern_chars = chars_of(pattern);
    contains_chars(&text_chars, &pattern_chars)
}

/// `k` is the least index at which `pattern` occurs in `text`.
pub open spec fn is_first_occurrence(pattern: Seq<char>, text: Seq<char>, k: int) -> bool {
    occurs_at(pattern, text, k) && forall|j: int| 0 <= j < k ==> !occurs_at(pattern, text, j)
}

/// The least index at which `pattern` occurs in `text`, if it occurs at all.
pub open spec fn first_occurrence(pattern: Seq<char>, text: Seq<char>) -> Option<int> {
    if occurs_in(pattern, text) {
        Some(choose|k: int| is_first_occurrence(pattern, text, k))
    } else {
        None
    }
}

/// The pieces of `text` between the occurrences of `separator`, which are taken from
/// left to right and do not overlap.  A text without the separator is one piece; `n`
/// separators give `n + 1` pieces, some of which may be empty.  An empty separator
/// separates nothing.
pub open spec fn split(text: Seq<char>, separator: Seq<char>) -> Seq<Seq<char>>
    decreases text.len(),
{
    match first_occurrence(separator, text) {
        Some(k) => if 0 <= k && k + separator.len() <= text.len() && separator.len() > 0 {
            seq![text.take(k)] + split(text.skip(k + separator.len()), separator)
        } else {
            seq![text]
        },
        None => seq![text],
    }
}

/// The pieces with `separator` between each two neighbours.
pub open spec fn joined(pieces: Seq<Seq<char>>, separator: Seq<char>) -> Seq<char>
    decreases pieces.len(),
{
    if pieces.len() == 0 {
        Seq::empty()
    } else if pieces.len() == 1 {
        pieces[0]
    } else {
        joined(pieces.drop_last(), separator) + separator + pieces.last()
    }
}

/// The character sequences of string slices.
pub open spec fn texts(pieces: Seq<&str>) -> Seq<Seq<char>> {
    pieces.map_values(|piece: &str| piece@)
}

/// An occurrence with none before it is the first occurrence.
pub proof fn lemma_first_occurrence(pattern: Seq<char>, text: Seq<char>, k: int)
    requires
        is_first_occurrence(pattern, text, k),
    ensures
        first_occurrence(pattern, text) == Some(k),
{
    let chosen = choose|j: int| is_first_occurrence(pattern, text, j);
    assert(is_first_occurrence(pattern, text, chosen));
    if chosen < k {
        assert(!occurs_at(pattern, text, chosen));
    }
    if k < chosen {
        assert(!occurs_at(pattern, text, k));
    }
}

/// A pattern that occurs somewhere has a first occurrence.
pub proof fn lemma_has_first_occurrence(pattern: Seq<char>, text: Seq<char>, k: int)
    requires
        occurs_at(pattern, text, k),
    ensures
        first_occurrence(pattern, text) is Some,
        is_first_occurrence(pattern, text, first_occurrence(pattern, text).unwrap()),
    decreases k,
{
    if exists|j: int| 0 <= j < k && occurs_at(pattern, text, j) {
        let j = choose|j: int| 0 <= j < k && occurs_at(pattern, text, j);
        lemma_has_first_occurrence(pattern, text, j);
    } else {
        assert(is_first_occurrence(pattern, text, k));
        lemma_first_occurrence(pattern, text, k);
    }
}

/// Joining a first piece and more pieces puts the separator after the first.
pub proof fn lemma_joined_prepend(first: Seq<char>, rest: Seq<Seq<char>>, separator: Seq<char>)
    requires
        rest.len() > 0,
    ensures
        joined(seq![first] + rest, separator) == first + separator + joined(rest, separator),
    decreases rest.len(),
{
    let all = seq![first] + rest;
    assert(all.drop_last() =~= seq![first] + rest.drop_last());
    assert(all.last() == rest.last());
    if rest.len() == 1 {
        assert(all.drop_last() =~= seq![first]);
        assert(joined(seq![first], separator) == first);
        assert(joined(rest, separator) == rest[0]);
        assert(joined(all, separator) =~= first + separator + joined(rest, separator));
    } else {
        lemma_joined_prepend(first, rest.drop_last(), separator);
        assert(joined(all, separator) =~= first + separator + joined(rest, separator));
    }
}

/// Splitting never gives less than one piece, gives at least two where the separator
/// occurs, and joining the pieces gives the text back.
pub proof fn lemma_split_then_join(text: Seq<char>, separator: Seq<char>)
    ensures
        split(text, separator).len() >= 1,
        separator.len() > 0 && occurs_in(separator, text) ==> split(text, separator).len() >= 2,
        joined(split(text, separator), separator) == text,
    decreases text.len(),
{
    if separator.len() > 0 && occurs_in(separator, text) {
        let at = choose|k: int| occurs_at(separator, text, k);
        lemma_has_first_occurrence(separator, text, at);
        let k = first_occurrence(separator, text).unwrap();
        let rest = text.skip(k + separator.len());
        lemma_split_then_join(rest, separator);
        lemma_joined_prepend(text.take(k), split(rest, separator), separator);
        assert(text =~= text.take(k) + separator + rest) by {
            assert(text.subrange(k, k + separator.len()) == separator);
        }
    }
}

/// Splits `text` at every occurrence of `separator`.  An empty separator separates
/// nothing.
pub fn split_text<'a>(text: &'a str, separator: &str) -> (pieces: Vec<&'a str>)
    ensures
        texts(pieces@) == split(text@, separator@),
{
    let chars = chars_of(text);
    let mark = chars_of(separator);
    let mut pieces: Vec<&'a str> = Vec::new();
    if mark.len() == 0 {
        pieces.push(text);
        assert(texts(pieces@) =~= seq![text@]);
        return pieces;
    }
    let mut start: usize = 0;
    let mut k: usize = 0;
    assert(text@.skip(0) =~= text@);
    assert(texts(pieces@) =~= Seq::<Seq<char>>::empty());
    while mark.len() <= chars.len() - k
        invariant
            chars@ == text@,
            mark@ == separator@,
            mark@.len() > 0,
            start <= k <= chars@.len(),
            split(text@, separator@) == texts(pieces@) + split(text@.skip(start as int), separator@),
            forall|j: int| 0 <= j < k - start ==> !occurs_at(separator@, text@.skip(start as int), j),
        decreases chars@.len() - k,
    {
        let ghost rest = text@.skip(start as int);
        if matches_at(&chars, &mark, k) {
            proof {
                assert(rest.subrange(k - start, k - start + mark@.len()) =~= text@.subrange(
                    k as int,
                    k + mark@.len(),
                ));
                lemma_first_occurrence(separator@, rest, k - start);
                assert(rest.take(k - start) =~= text@.subrange(start as int, k as int));
                assert(rest.skip(k - start + mark@.len()) =~= text@.skip(k + mark@.len()));
            }
            let piece = text.substring_char(start, k);
            let ghost before = texts(pieces@);
            pieces.push(piece);
            assert(texts(pieces@) =~= before + seq![piece@]);
            k = k + mark.len();
            start = k;
        } else {
            proof {
                assert(rest.subrange(k - start, k - start + mark@.len()) =~= text@.subrange(
                    k as int,
                    k + mark@.len(),
                ));
            }
            k = k + 1;
        }
    }
    let piece = text.substring_char(start, chars.len());
    proof {
        let rest = text@.skip(start as int);
        assert(rest =~= text@.subrange(start as int, text@.len() as int));
        assert forall|j: int| !occurs_at(separator@, rest, j) by {
            if 0 <= j && j + separator@.len() <= rest.len() {
                assert(j < k - start);
            }
        }
        assert(!occurs_in(separator@, rest));
        assert(split(rest, separator@) == seq![rest]);
    }
    let ghost before = texts(pieces@);
    pieces.push(piece);
    assert(texts(pieces@) =~= before + seq![piece@]);
    pieces
}

/// Joins `pieces` with `separator` between each two neighbours.
pub fn join_text(pieces: &Vec<&str>, separator: &str) -> (text: String)
    ensures
        text@ == joined(texts(pieces@), separator@),
{
    let mut text = String::new();
    let ghost all = texts(pieces@);
    let mut i: usize = 0;
    while i < pieces.len()
        invariant
            i <= pieces@.len(),
            all == texts(pieces@),
            text@ == joined(all.take(i as int), separator@),
        decreases pieces@.len() - i,
    {
        proof {
            assert(all.take(i + 1).drop_last() =~= all.take(i as int));
            assert(all.take(i + 1).last() == pieces@[i as int]@);
        }
        if i > 0 {
            text.append(separator);
        }
        text.append(pieces[i]);
        proof {
            if i == 0 {
                assert(text@ =~= pieces@[0]@);
            }
        }
        i += 1;
    }
    assert(all.take(i as int) =~= all);
    text
}

} // verus!
