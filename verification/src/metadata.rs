//! The flat metadata of a document.

use crate::flatten::{flatten_yaml, flattened, has_path};
use crate::yaml::{parse_documents, trees_of, yaml_documents, Node, Tree};
use vstd::hash_map::StringHashMap;
use vstd::prelude::*;
use yaml_rust2::ScanError;

verus! {

/// A map from dotted paths to string values. It is read by exact key only:
/// the order in which the keys came in cannot be seen. It has finitely many
/// keys.
pub struct Metadata {
    entries: StringHashMap<String>,
}

impl Metadata {
    #[verifier::type_invariant]
    spec fn is_finite(&self) -> bool {
        self.entries@.dom().finite()
    }
}

impl View for Metadata {
    type V = Map<Seq<char>, Seq<char>>;

    closed spec fn view(&self) -> Map<Seq<char>, Seq<char>> {
        Map::new(|k: Seq<char>| self.entries@.contains_key(k), |k: Seq<char>| self.entries@[k]@)
    }
}

/// `base` after the entries are written to it one by one: of two entries with
/// one path the later stays.
pub open spec fn written_onto(
    base: Map<Seq<char>, Seq<char>>,
    entries: Seq<(Seq<char>, Seq<char>)>,
) -> Map<Seq<char>, Seq<char>>
    decreases entries.len(),
{
    if entries.len() == 0 {
        base
    } else {
        written_onto(base, entries.drop_last()).insert(entries.last().0, entries.last().1)
    }
}

/// Whether the entry at `index` is the last one with the path `path`.
pub open spec fn is_last_with(
    entries: Seq<(Seq<char>, Seq<char>)>,
    path: Seq<char>,
    index: int,
) -> bool {
    &&& 0 <= index < entries.len()
    &&& entries[index].0 == path
    &&& forall|j: int| index < j < entries.len() ==> (#[trigger] entries[j]).0 != path
}

/// After entries are written to a map, it has a path exactly if it had the
/// path before or some entry has it.
pub proof fn lemma_written_paths(
    base: Map<Seq<char>, Seq<char>>,
    entries: Seq<(Seq<char>, Seq<char>)>,
    path: Seq<char>,
)
    ensures
        written_onto(base, entries).contains_key(path) <==> base.contains_key(path) || has_path(
            entries,
            path,
        ),
        !has_path(entries, path) ==> written_onto(base, entries)[path] == base[path],
    decreases entries.len(),
{
    if entries.len() > 0 {
        let front = entries.drop_last();
        lemma_written_paths(base, front, path);
        let last = entries.len() - 1;
        if has_path(front, path) {
            let i = choose|i: int| 0 <= i < front.len() && (#[trigger] front[i]).0 == path;
            assert(entries[i].0 == path);
        }
        if entries[last].0 == path {
            assert(has_path(entries, path));
        }
        if has_path(entries, path) && entries[last].0 != path {
            let i = choose|i: int| 0 <= i < entries.len() && (#[trigger] entries[i]).0 == path;
            assert(front[i].0 == path);
        }
    }
}

/// After entries are written to a map, a path that some entry has holds the
/// value of the last such entry.
pub proof fn lemma_written_value(
    base: Map<Seq<char>, Seq<char>>,
    entries: Seq<(Seq<char>, Seq<char>)>,
    path: Seq<char>,
    index: int,
)
    requires
        is_last_with(entries, path, index),
    ensures
        written_onto(base, entries).contains_key(path),
        written_onto(base, entries)[path] == entries[index].1,
    decreases entries.len(),
{
    let last = entries.len() - 1;
    if index < last {
        let front = entries.drop_last();
        assert(entries[last].0 != path);
        assert(is_last_with(front, path, index)) by {
            assert forall|j: int| index < j < front.len() implies (#[trigger] front[j]).0
                != path by {
                assert(entries[j].0 != path);
            }
        }
        lemma_written_value(base, front, path, index);
    }
}

/// The key and value pairs of `pairs`, by their characters.
pub open spec fn pairs_view(pairs: Seq<(String, String)>) -> Seq<(Seq<char>, Seq<char>)> {
    Seq::new(pairs.len(), |i: int| (pairs[i].0@, pairs[i].1@))
}

impl Metadata {
    /// The empty map.
    pub fn new() -> (m: Metadata)
        ensures
            m@ == Map::<Seq<char>, Seq<char>>::empty(),
            m@.dom().finite(),
    {
        let m = Metadata { entries: StringHashMap::new() };
        assert(m@.dom() =~= m.entries@.dom());
        m
    }

    /// Sets `key` to `value`, whatever it was before.
    pub fn insert(&mut self, key: String, value: String)
        ensures
            final(self)@ == old(self)@.insert(key@, value@),
            final(self)@.dom().finite(),
    {
        proof {
            use_type_invariant(&*self);
        }
        let mut taken = Metadata::new();
        std::mem::swap(self, &mut taken);
        let mut entries = taken.entries;
        entries.insert(key, value);
        *self = Metadata { entries };
        assert(self@ =~= old(self)@.insert(key@, value@));
        assert(self@.dom() =~= self.entries@.dom());
    }

    /// The value of `key`, if it has one.
    pub fn get(&self, key: &str) -> (r: Option<&String>)
        ensures
            match r {
                Some(value) => self@.contains_key(key@) && value@ == self@[key@],
                None => !self@.contains_key(key@),
            },
    {
        self.entries.get(key)
    }

    /// Whether `key` has a value.
    pub fn contains_key(&self, key: &str) -> (b: bool)
        ensures
            b == self@.contains_key(key@),
    {
        self.entries.contains_key(key)
    }

    /// The number of keys.
    pub fn len(&self) -> (n: usize)
        ensures
            n == self@.len(),
            self@.dom().finite(),
    {
        proof {
            use_type_invariant(self);
        }
        assert(self@.dom() =~= self.entries@.dom());
        self.entries.len()
    }

    /// Whether there is no key at all.
    pub fn is_empty(&self) -> (b: bool)
        ensures
            b == (self@.len() == 0),
            self@.dom().finite(),
    {
        self.len() == 0
    }

    /// Takes over every key of `other`: where both have a key, the value of
    /// `other` stays.
    pub fn extend(&mut self, other: Metadata)
        ensures
            final(self)@ == old(self)@.union_prefer_right(other@),
            final(self)@.dom().finite(),
    {
        proof {
            use_type_invariant(&*self);
            use_type_invariant(&other);
        }
        let ghost mine = self.entries@.dom();
        let ghost theirs = other.entries@.dom();
        let mut taken = Metadata::new();
        std::mem::swap(self, &mut taken);
        let mut entries = taken.entries;
        entries.union_prefer_right(other.entries);
        assert(entries@.dom() =~= mine.union(theirs));
        *self = Metadata { entries };
        assert(self@ =~= old(self)@.union_prefer_right(other@));
        assert(self@.dom() =~= self.entries@.dom());
    }

    /// The map that holds the pairs, written in order: of two pairs with one
    /// key the later stays.
    pub fn from_pairs(pairs: &Vec<(String, String)>) -> (m: Metadata)
        ensures
            m@ == written_onto(Map::empty(), pairs_view(pairs@)),
    {
        let mut m = Metadata::new();
        let mut i: usize = 0;
        while i < pairs.len()
            invariant
                i <= pairs.len(),
                m@ == written_onto(Map::empty(), pairs_view(pairs@).take(i as int)),
            decreases pairs.len() - i,
        {
            let key = pairs[i].0.clone();
            let value = pairs[i].1.clone();
            m.insert(key, value);
            proof {
                let all = pairs_view(pairs@);
                assert(all.take(i + 1).drop_last() =~= all.take(i as int));
            }
            i += 1;
        }
        assert(pairs_view(pairs@).take(i as int) =~= pairs_view(pairs@));
        m
    }
}

/// The two ways in which reading metadata fails.
#[derive(Clone, Copy, Debug, PartialEq, Eq, Structural)]
pub enum ErrorKind {
    /// The text is not well-formed YAML.
    Scan,
    /// The text is well-formed, but it is not one document that is a mapping.
    InvalidType,
}

/// Why the metadata of a document could not be read.
#[derive(Debug)]
pub enum MetadataError {
    /// The text is not well-formed YAML. The parser's report says what is
    /// wrong and where.
    Scan(ScanError),
    /// The text is well-formed, but it is not one document that is a mapping:
    /// it is empty, a scalar, a sequence, or several documents.
    InvalidType,
}

impl MetadataError {
    /// Which of the two failures this is.
    pub open spec fn kind_of(&self) -> ErrorKind {
        match self {
            MetadataError::Scan(_) => ErrorKind::Scan,
            MetadataError::InvalidType => ErrorKind::InvalidType,
        }
    }

    /// Which of the two failures this is.
    pub fn kind(&self) -> (kind: ErrorKind)
        ensures
            kind == self.kind_of(),
    {
        match self {
            MetadataError::Scan(_) => ErrorKind::Scan,
            MetadataError::InvalidType => ErrorKind::InvalidType,
        }
    }
}

/// The metadata that parsed documents give: the flat map of the one document,
/// which must be a mapping.
pub open spec fn metadata_of_documents(documents: Seq<Tree>) -> Result<
    Map<Seq<char>, Seq<char>>,
    MetadataError,
> {
    if documents.len() == 1 && documents[0] is Mapping {
        Ok(flattened(documents[0]))
    } else {
        Err(MetadataError::InvalidType)
    }
}

/// The metadata that the YAML text `text` gives. Where the parser reports
/// the text as malformed, the failure carries that report.
pub open spec fn metadata_of(text: Seq<char>) -> Result<Map<Seq<char>, Seq<char>>, MetadataError> {
    match yaml_documents(text) {
        Err(report) => Err(MetadataError::Scan(report)),
        Ok(documents) => metadata_of_documents(documents),
    }
}

/// Documents that are not exactly one mapping give no metadata but an
/// `InvalidType` failure: no documents, several, a scalar or a sequence.
pub proof fn lemma_only_one_mapping_is_metadata(documents: Seq<Tree>)
    ensures
        metadata_of_documents(documents) is Ok <==> documents.len() == 1 && documents[0] is Mapping,
        metadata_of_documents(documents) matches Err(error) ==> error == MetadataError::InvalidType,
{
}

/// Text fails with `Scan` exactly where the parser reports it as malformed,
/// and the failure then carries the parser's report for that text. Text that
/// parses fails with `InvalidType` or not at all.
pub proof fn lemma_scan_failure_is_malformed_text(text: Seq<char>)
    ensures
        match yaml_documents(text) {
            Err(report) => metadata_of(text) == Err::<Map<Seq<char>, Seq<char>>, MetadataError>(
                MetadataError::Scan(report),
            ),
            Ok(_) => !(metadata_of(text) matches Err(MetadataError::Scan(_))),
        },
{
}

/// Whether the result `r` stands for `expected`: the same map, or the same
/// failure.
pub open spec fn agrees(
    r: Result<Metadata, MetadataError>,
    expected: Result<Map<Seq<char>, Seq<char>>, MetadataError>,
) -> bool {
    match r {
        Ok(metadata) => expected == Ok::<Map<Seq<char>, Seq<char>>, MetadataError>(metadata@),
        Err(error) => expected == Err::<Map<Seq<char>, Seq<char>>, MetadataError>(error),
    }
}

/// Flattens the one document of `documents`. Anything but exactly one
/// document that is a mapping is an `InvalidType` error.
pub fn metadata_from_documents(documents: &Vec<Node>) -> (r: Result<Metadata, MetadataError>)
    ensures
        agrees(r, metadata_of_documents(trees_of(documents@))),
{
    if documents.len() != 1 {
        return Err(MetadataError::InvalidType);
    }
    match &documents[0] {
        Node::Mapping(_) => {
            let mut metadata = Metadata::new();
            flatten_yaml(&documents[0], &mut metadata);
            Ok(metadata)
        },
        _ => Err(MetadataError::InvalidType),
    }
}

/// Reads the metadata block `input`: parses it as YAML and flattens its one
/// document. Malformed text is a `Scan` error, which carries the parser's
/// report; well-formed text of another shape an `InvalidType` error.
///
/// Parsing costs call stack for each level of nesting; only the flattening
/// that follows it does not.
pub fn read_metadata(input: &str) -> (r: Result<Metadata, MetadataError>)
    ensures
        agrees(r, metadata_of(input@)),
{
    match parse_documents(input) {
        Ok(documents) => metadata_from_documents(&documents),
        Err(error) => Err(MetadataError::Scan(error)),
    }
}

} // verus!
