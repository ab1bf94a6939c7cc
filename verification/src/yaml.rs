//! The tree that a YAML document parses to.

use vstd::prelude::*;
use yaml_rust2::{ScanError, Yaml, YamlLoader};

verus! {

/// A YAML document as a mathematical tree: what `Node` stands for.
pub enum Tree {
    /// Key and value pairs, in document order.
    Mapping(Seq<(Tree, Tree)>),
    /// Items, in document order.
    Sequence(Seq<Tree>),
    /// A real number, as the text it was written in.
    Real(Seq<char>),
    Integer(int),
    Text(Seq<char>),
    Boolean(bool),
    Null,
    /// Anything else: an alias, or a value the parser could not read.
    Other,
}

/// A YAML document.
#[derive(Debug)]
pub enum Node {
    /// Key and value pairs, in document order.
    Mapping(Vec<(Node, Node)>),
    /// Items, in document order.
    Sequence(Vec<Node>),
    /// A real number, as the text it was written in.
    Real(String),
    Integer(i64),
    Text(String),
    Boolean(bool),
    Null,
    /// Anything else: an alias, or a value the parser could not read.
    Other,
}

/// The trees of a mapping's entries, in order.
pub open spec fn entries_view(entries: Seq<(Node, Node)>) -> Seq<(Tree, Tree)>
    decreases entries,
{
    if entries.len() == 0 {
        Seq::empty()
    } else {
        entries_view(entries.drop_last()).push((entries.last().0@, entries.last().1@))
    }
}

/// The trees of a sequence's items, in order.
pub open spec fn items_view(items: Seq<Node>) -> Seq<Tree>
    decreases items,
{
    if items.len() == 0 {
        Seq::empty()
    } else {
        items_view(items.drop_last()).push(items.last()@)
    }
}

impl View for Node {
    type V = Tree;

    open spec fn view(&self) -> Tree
        decreases self,
    {
        match self {
            Node::Mapping(entries) => Tree::Mapping(entries_view(entries@)),
            Node::Sequence(items) => Tree::Sequence(items_view(items@)),
            Node::Real(text) => Tree::Real(text@),
            Node::Integer(value) => Tree::Integer(*value as int),
            Node::Text(text) => Tree::Text(text@),
            Node::Boolean(value) => Tree::Boolean(*value),
            Node::Null => Tree::Null,
            Node::Other => Tree::Other,
        }
    }
}

/// The view of a mapping, entry by entry.
pub proof fn lemma_entries_view(entries: Seq<(Node, Node)>)
    ensures
        entries_view(entries).len() == entries.len(),
        forall|k: int|
            0 <= k < entries.len() ==> #[trigger] entries_view(entries)[k] == (
                entries[k].0@,
                entries[k].1@,
            ),
    decreases entries.len(),
{
    if entries.len() > 0 {
        lemma_entries_view(entries.drop_last());
        assert(entries_view(entries) == entries_view(entries.drop_last()).push(
            (entries.last().0@, entries.last().1@),
        ));
    } else {
        assert(entries_view(entries) == Seq::<(Tree, Tree)>::empty());
    }
}

/// The view of a sequence, item by item.
pub proof fn lemma_items_view(items: Seq<Node>)
    ensures
        items_view(items).len() == items.len(),
        forall|k: int| 0 <= k < items.len() ==> #[trigger] items_view(items)[k] == items[k]@,
    decreases items.len(),
{
    if items.len() > 0 {
        lemma_items_view(items.drop_last());
        assert(items_view(items) == items_view(items.drop_last()).push(items.last()@));
    } else {
        assert(items_view(items) == Seq::<Tree>::empty());
    }
}

/// A value of the YAML parser. Nothing of it is read but through `node_of`.
#[verifier::external_type_specification]
#[verifier::external_body]
pub struct ExYaml(Yaml);

/// The parser's report of malformed text: a message and the place.
#[verifier::external_type_specification]
#[verifier::external_body]
pub struct ExScanError(ScanError);

/// What `YamlLoader::load_from_str` returns for `text`: the documents that
/// it reads, each as a tree, or its report where the text is malformed.
pub uninterp spec fn yaml_documents(text: Seq<char>) -> Result<Seq<Tree>, ScanError>;

/// The tree that a value of the parser stands for.
pub uninterp spec fn yaml_tree(value: Yaml) -> Tree;

/// The trees of the parser's values.
pub open spec fn yaml_trees(values: Seq<Yaml>) -> Seq<Tree> {
    Seq::new(values.len(), |i: int| yaml_tree(values[i]))
}

/// `YamlLoader::load_from_str`: reads every document of `text`, or reports
/// the first malformed place. What it returns, the report too, depends on
/// `text` alone; the contract claims no more than that.
#[verifier::external_body]
fn load_documents(text: &str) -> (r: Result<Vec<Yaml>, ScanError>)
    ensures
        match r {
            Ok(values) => yaml_documents(text@) == Ok::<Seq<Tree>, ScanError>(
                yaml_trees(values@),
            ),
            Err(report) => yaml_documents(text@) == Err::<Seq<Tree>, ScanError>(report),
        },
{
    YamlLoader::load_from_str(text)
}

/// Copies a value of the parser into a `Node`, variant by variant: a hash
/// becomes a mapping with its entries in their order, an array a sequence,
/// an alias and a bad value `Other`. The contract claims only that the copy
/// depends on the value alone.
#[verifier::external_body]
fn node_of(value: &Yaml) -> (node: Node)
    ensures
        node@ == yaml_tree(*value),
{
    match value {
        Yaml::Real(text) => Node::Real(text.clone()),
        Yaml::Integer(number) => Node::Integer(*number),
        Yaml::String(text) => Node::Text(text.clone()),
        Yaml::Boolean(flag) => Node::Boolean(*flag),
        Yaml::Array(items) => Node::Sequence(items.iter().map(node_of).collect()),
        Yaml::Hash(entries) => Node::Mapping(
            entries.iter().map(|(key, item)| (node_of(key), node_of(item))).collect(),
        ),
        Yaml::Null => Node::Null,
        Yaml::Alias(_) => Node::Other,
        Yaml::BadValue => Node::Other,
    }
}

/// The views of `nodes`, in order.
pub open spec fn trees_of(nodes: Seq<Node>) -> Seq<Tree> {
    Seq::new(nodes.len(), |i: int| nodes[i]@)
}

/// Parses `text` as YAML: its documents, in order, or the parser's report
/// where the text is malformed.
///
/// The parser calls itself once for each level of nesting, and so does the
/// copy of what it read into nodes: a document nested very deeply costs call
/// stack here, before any flattening.
pub fn parse_documents(text: &str) -> (r: Result<Vec<Node>, ScanError>)
    ensures
        match r {
            Ok(nodes) => yaml_documents(text@) == Ok::<Seq<Tree>, ScanError>(trees_of(nodes@)),
            Err(report) => yaml_documents(text@) == Err::<Seq<Tree>, ScanError>(report),
        },
{
    match load_documents(text) {
        Ok(values) => {
            let mut nodes: Vec<Node> = Vec::new();
            let mut i: usize = 0;
            while i < values.len()
                invariant
                    i <= values.len(),
                    nodes@.len() == i,
                    forall|k: int| 0 <= k < i ==> (#[trigger] nodes@[k])@ == yaml_tree(values@[k]),
                decreases values.len() - i,
            {
                nodes.push(node_of(&values[i]));
                i += 1;
            }
            assert(trees_of(nodes@) =~= yaml_trees(values@));
            Ok(nodes)
        },
        Err(error) => Err(error),
    }
}

} // verus!
