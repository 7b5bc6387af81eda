//! The read-only view over a fixture's input sections that the function
//! under test receives, with raw-text and typed JSON lookup.

use vstd::prelude::*;
use vstd::utf8::decode_utf8;
use vstd::utf8::valid_utf8;
use crate::parse::bytes_eq;

verus! {

/// The errors a snapshot run can surface to the function under test or to
/// the embedding program.
#[derive(Debug)]
pub enum SnapError {
    /// A lookup asked for a section the fixture does not hold; carries the
    /// requested key.
    MissingSection(String),
    /// A section's text failed to decode into the requested shape.
    Decode,
    /// Bytes were not valid UTF-8 where text is required.
    InvalidText,
}

/// The mapping that a list of key/value pairs denotes: a later pair with the
/// same key overwrites an earlier one.
pub open spec fn entries_map(s: Seq<(String, String)>) -> Map<Seq<char>, Seq<char>>
    decreases s.len(),
{
    if s.len() == 0 {
        Map::empty()
    } else {
        entries_map(s.drop_last()).insert(s.last().0@, s.last().1@)
    }
}

/// A pair whose key no later pair repeats gives the map's value at that key.
pub proof fn lemma_entries_map_found(s: Seq<(String, String)>, j: int)
    requires
        0 <= j < s.len(),
        forall|i: int| j < i < s.len() ==> (#[trigger] s[i]).0@ != s[j].0@,
    ensures
        entries_map(s).contains_key(s[j].0@),
        entries_map(s)[s[j].0@] == s[j].1@,
    decreases s.len(),
{
    if j < s.len() - 1 {
        assert(forall|i: int| j < i < s.drop_last().len() ==> (#[trigger] s.drop_last()[i]).0@
            != s.drop_last()[j].0@);
        lemma_entries_map_found(s.drop_last(), j);
    }
}

/// A key no pair carries is not in the map.
pub proof fn lemma_entries_map_absent(s: Seq<(String, String)>, key: Seq<char>)
    requires
        forall|i: int| 0 <= i < s.len() ==> (#[trigger] s[i]).0@ != key,
    ensures
        !entries_map(s).contains_key(key),
    decreases s.len(),
{
    if s.len() > 0 {
        lemma_entries_map_absent(s.drop_last(), key);
    }
}

/// The read-only input view handed to the function under test: every
/// Input-kind section of one fixture, keyed by section name.
pub struct SnapshotInputs {
    entries: Vec<(String, String)>,
}

impl View for SnapshotInputs {
    type V = Map<Seq<char>, Seq<char>>;

    closed spec fn view(&self) -> Map<Seq<char>, Seq<char>> {
        entries_map(self.entries@)
    }
}

impl SnapshotInputs {
    /// Wraps a list of named input texts; a later entry with the same name
    /// overwrites an earlier one.
    pub fn from_entries(entries: Vec<(String, String)>) -> (r: SnapshotInputs)
        ensures
            r@ == entries_map(entries@),
    {
        SnapshotInputs { entries }
    }

    /// The raw text of the input section called `key`, or a missing-section
    /// error naming the key.
    pub fn get_str(&self, key: &str) -> (r: Result<&str, SnapError>)
        ensures
            self@.contains_key(key@) ==> (r matches Ok(s) && s@ == self@[key@]),
            !self@.contains_key(key@) ==> (r matches Err(SnapError::MissingSection(k)) && k@
                == key@),
    {
        let n: usize = self.entries.len();
        let mut k: usize = n;
        while k > 0
            invariant
                k <= n == self.entries@.len(),
                forall|j: int| k <= j < n ==> (#[trigger] self.entries@[j]).0@ != key@,
            decreases k,
        {
            k = k - 1;
            if bytes_eq(self.entries[k].0.as_str().as_bytes(), key.as_bytes()) {
                proof {
                    vstd::utf8::encode_utf8_decode_utf8(self.entries@[k as int].0@);
                    vstd::utf8::encode_utf8_decode_utf8(key@);
                    assert(self.entries@[k as int].0@ == key@);
                    lemma_entries_map_found(self.entries@, k as int);
                }
                return Ok(self.entries[k].1.as_str());
            }
        }
        proof {
            lemma_entries_map_absent(self.entries@, key@);
        }
        Err(SnapError::MissingSection(key.to_owned()))
    }

    /// The input section called `key`, decoded from JSON into `T`; a
    /// missing-section error when the key is absent, a decode error when its
    /// text does not parse.
    pub fn get_json<T: serde::de::DeserializeOwned>(&self, key: &str) -> (r: Result<T, SnapError>)
        ensures
            !self@.contains_key(key@) ==> (r matches Err(SnapError::MissingSection(k)) && k@
                == key@),
            self@.contains_key(key@) ==> r is Ok || (r matches Err(SnapError::Decode)),
    {
        match self.get_str(key) {
            Ok(s) => parse_json(s),
            Err(e) => Err(e),
        }
    }
}

/// Relies on serde_json::from_str: decodes a JSON value of type `T` from
/// text. What parses is decided by `T`'s deserialization, so nothing more is
/// promised of the result.
#[verifier::external_body]
fn parse_json<T: serde::de::DeserializeOwned>(s: &str) -> (r: Result<T, SnapError>)
    ensures
        r is Ok || (r matches Err(SnapError::Decode)),
{
    serde_json::from_str(s).map_err(|_| SnapError::Decode)
}

/// Relies on String::from_utf8: it succeeds exactly on valid UTF-8 and
/// decodes those bytes to the characters they encode.
#[verifier::external_body]
pub(crate) fn bytes_to_string(v: Vec<u8>) -> (r: Option<String>)
    ensures
        r is Some <==> valid_utf8(v@),
        (r matches Some(s) ==> s@ == decode_utf8(v@)),
{
    String::from_utf8(v).ok()
}

} // verus!
