//! From a document tree to a flat list of dotted paths and string values.

use crate::metadata::Metadata;
use crate::text::{decimal, push_decimal, signed_decimal, signed_decimal_string};
use crate::yaml::{lemma_entries_view, lemma_items_view, Node, Tree};
use vstd::prelude::*;
use vstd::string::StringExecFns;

verus! {

/// The path of a child: the parent's path, a dot and the child's own segment;
/// under the empty path, the segment alone.
pub open spec fn join(prefix: Seq<char>, segment: Seq<char>) -> Seq<char> {
    if prefix.len() == 0 {
        segment
    } else {
        prefix + seq!['.'] + segment
    }
}

/// The string that stands for a scalar. A node that is no scalar has the
/// empty string.
pub open spec fn stringify(t: Tree) -> Seq<char> {
    match t {
        Tree::Real(text) => text,
        Tree::Integer(value) => signed_decimal(value),
        Tree::Text(text) => text,
        Tree::Boolean(value) => if value {
            seq!['t', 'r', 'u', 'e']
        } else {
            seq!['f', 'a', 'l', 's', 'e']
        },
        Tree::Null => seq!['n', 'u', 'l', 'l'],
        _ => Seq::empty(),
    }
}

/// The scalars below `t`, each with its path, in document order. `prefix` is
/// the path of `t` itself.
pub open spec fn leaves(t: Tree, prefix: Seq<char>) -> Seq<(Seq<char>, Seq<char>)>
    decreases t,
{
    match t {
        Tree::Mapping(entries) => mapping_leaves(entries, prefix),
        Tree::Sequence(items) => sequence_leaves(items, prefix),
        _ => seq![(prefix, stringify(t))],
    }
}

/// The leaves of one entry of a mapping: those of its value, below its key.
/// An entry whose key is not a string has none.
pub open spec fn entry_leaves(entry: (Tree, Tree), prefix: Seq<char>) -> Seq<
    (Seq<char>, Seq<char>),
>
    decreases entry,
{
    match entry.0 {
        Tree::Text(name) => leaves(entry.1, join(prefix, name)),
        _ => Seq::empty(),
    }
}

/// The leaves of the entries of a mapping, entry after entry.
pub open spec fn mapping_leaves(entries: Seq<(Tree, Tree)>, prefix: Seq<char>) -> Seq<
    (Seq<char>, Seq<char>),
>
    decreases entries,
{
    if entries.len() == 0 {
        Seq::empty()
    } else {
        mapping_leaves(entries.drop_last(), prefix) + entry_leaves(entries.last(), prefix)
    }
}

/// The leaves of the items of a sequence, item after item. An item's segment
/// is its index in decimal.
pub open spec fn sequence_leaves(items: Seq<Tree>, prefix: Seq<char>) -> Seq<
    (Seq<char>, Seq<char>),
>
    decreases items,
{
    if items.len() == 0 {
        Seq::empty()
    } else {
        sequence_leaves(items.drop_last(), prefix) + leaves(
            items.last(),
            join(prefix, decimal((items.len() - 1) as nat)),
        )
    }
}

/// `base` after the entries are written to it from the last to the first:
/// of two entries with one path the earlier stays.
pub open spec fn written_back_onto(
    base: Map<Seq<char>, Seq<char>>,
    entries: Seq<(Seq<char>, Seq<char>)>,
) -> Map<Seq<char>, Seq<char>>
    decreases entries.len(),
{
    if entries.len() == 0 {
        base
    } else {
        written_back_onto(base, entries.drop_first()).insert(entries[0].0, entries[0].1)
    }
}

/// The flat map of a document: its leaves, under their paths. Of two leaves
/// with one path the one that stands earlier in the document stays.
pub open spec fn flattened(t: Tree) -> Map<Seq<char>, Seq<char>> {
    written_back_onto(Map::empty(), leaves(t, Seq::empty()))
}

/// Whether some entry has the path `path`.
pub open spec fn has_path(entries: Seq<(Seq<char>, Seq<char>)>, path: Seq<char>) -> bool {
    exists|i: int| 0 <= i < entries.len() && (#[trigger] entries[i]).0 == path
}

/// Whether the entry at `index` is the first one with the path `path`.
pub open spec fn is_first_with(
    entries: Seq<(Seq<char>, Seq<char>)>,
    path: Seq<char>,
    index: int,
) -> bool {
    &&& 0 <= index < entries.len()
    &&& entries[index].0 == path
    &&& forall|j: int| 0 <= j < index ==> (#[trigger] entries[j]).0 != path
}

/// After entries are written back to a map, it has a path exactly if it had
/// the path before or some entry has it; a path that no entry has holds what
/// it held.
pub proof fn lemma_written_back_paths(
    base: Map<Seq<char>, Seq<char>>,
    entries: Seq<(Seq<char>, Seq<char>)>,
    path: Seq<char>,
)
    ensures
        written_back_onto(base, entries).contains_key(path) <==> base.contains_key(path)
            || has_path(entries, path),
        !has_path(entries, path) ==> written_back_onto(base, entries)[path] == base[path],
    decreases entries.len(),
{
    if entries.len() > 0 {
        let tail = entries.drop_first();
        lemma_written_back_paths(base, tail, path);
        if has_path(tail, path) {
            let i = choose|i: int| 0 <= i < tail.len() && (#[trigger] tail[i]).0 == path;
            assert(entries[i + 1].0 == path);
        }
        if entries[0].0 == path {
            assert(has_path(entries, path));
        }
        if has_path(entries, path) && entries[0].0 != path {
            let i = choose|i: int| 0 <= i < entries.len() && (#[trigger] entries[i]).0 == path;
            assert(tail[i - 1].0 == path);
        }
    }
}

/// After entries are written back to a map, a path that some entry has holds
/// the value of the first such entry.
pub proof fn lemma_written_back_value(
    base: Map<Seq<char>, Seq<char>>,
    entries: Seq<(Seq<char>, Seq<char>)>,
    path: Seq<char>,
    index: int,
)
    requires
        is_first_with(entries, path, index),
    ensures
        written_back_onto(base, entries).contains_key(path),
        written_back_onto(base, entries)[path] == entries[index].1,
    decreases entries.len(),
{
    if index > 0 {
        let tail = entries.drop_first();
        assert(entries[0].0 != path);
        assert(is_first_with(tail, path, index - 1)) by {
            assert forall|j: int| 0 <= j < index - 1 implies (#[trigger] tail[j]).0 != path by {
                assert(entries[j + 1].0 != path);
            }
        }
        lemma_written_back_value(base, tail, path, index - 1);
    }
}

/// The nodes that flattening visits among the entries of a mapping, the
/// mapping itself not counted.
spec fn mapping_weight(entries: Seq<(Tree, Tree)>) -> nat
    decreases entries,
{
    if entries.len() == 0 {
        0
    } else {
        mapping_weight(entries.drop_last()) + entry_weight(entries.last())
    }
}

/// The nodes that flattening visits in one entry of a mapping.
spec fn entry_weight(entry: (Tree, Tree)) -> nat
    decreases entry,
{
    match entry.0 {
        Tree::Text(_) => weight(entry.1),
        _ => 0,
    }
}

/// The nodes that flattening visits among the items of a sequence.
spec fn sequence_weight(items: Seq<Tree>) -> nat
    decreases items,
{
    if items.len() == 0 {
        0
    } else {
        sequence_weight(items.drop_last()) + weight(items.last())
    }
}

/// The number of nodes that flattening `t` visits.
spec fn weight(t: Tree) -> nat
    decreases t,
{
    match t {
        Tree::Mapping(entries) => 1 + mapping_weight(entries),
        Tree::Sequence(items) => 1 + sequence_weight(items),
        _ => 1,
    }
}

/// A work list by what its items stand for: each node with its path.
spec fn work_view(work: Seq<(String, &Node)>) -> Seq<(Seq<char>, Tree)> {
    Seq::new(work.len(), |i: int| (work[i].0@, work[i].1@))
}

/// The leaves that a work list still owes, in document order. The work list
/// is taken from its end, so the last of these leaves is reached first.
spec fn pending(work: Seq<(Seq<char>, Tree)>) -> Seq<(Seq<char>, Seq<char>)>
    decreases work.len(),
{
    if work.len() == 0 {
        Seq::empty()
    } else {
        pending(work.drop_last()) + leaves(work.last().1, work.last().0)
    }
}

/// The nodes that a work list still has to visit.
spec fn pending_weight(work: Seq<(Seq<char>, Tree)>) -> nat
    decreases work.len(),
{
    if work.len() == 0 {
        0
    } else {
        pending_weight(work.drop_last()) + weight(work.last().1)
    }
}

proof fn lemma_mapping_view(entries: Vec<(Node, Node)>)
    ensures
        Node::Mapping(entries)@ is Mapping,
        Node::Mapping(entries)@->Mapping_0.len() == entries@.len(),
        forall|k: int|
            0 <= k < entries@.len() ==> #[trigger] Node::Mapping(entries)@->Mapping_0[k] == (
                entries@[k].0@,
                entries@[k].1@,
            ),
{
    lemma_entries_view(entries@);
}

proof fn lemma_sequence_view(items: Vec<Node>)
    ensures
        Node::Sequence(items)@ is Sequence,
        Node::Sequence(items)@->Sequence_0.len() == items@.len(),
        forall|k: int|
            0 <= k < items@.len() ==> #[trigger] Node::Sequence(items)@->Sequence_0[k]
                == items@[k]@,
{
    lemma_items_view(items@);
}

proof fn lemma_mapping_step(entries: Seq<(Tree, Tree)>, prefix: Seq<char>, i: int)
    requires
        0 <= i < entries.len(),
    ensures
        mapping_leaves(entries.take(i + 1), prefix) == mapping_leaves(entries.take(i), prefix)
            + entry_leaves(entries[i], prefix),
        mapping_weight(entries.take(i + 1)) == mapping_weight(entries.take(i)) + entry_weight(
            entries[i],
        ),
{
    let longer = entries.take(i + 1);
    assert(longer.drop_last() =~= entries.take(i));
    assert(longer.last() == entries[i]);
    assert(mapping_leaves(longer, prefix) == mapping_leaves(longer.drop_last(), prefix)
        + entry_leaves(longer.last(), prefix));
    assert(mapping_weight(longer) == mapping_weight(longer.drop_last()) + entry_weight(
        longer.last(),
    ));
}

proof fn lemma_sequence_step(items: Seq<Tree>, prefix: Seq<char>, i: int)
    requires
        0 <= i < items.len(),
    ensures
        sequence_leaves(items.take(i + 1), prefix) == sequence_leaves(items.take(i), prefix)
            + leaves(items[i], join(prefix, decimal(i as nat))),
        sequence_weight(items.take(i + 1)) == sequence_weight(items.take(i)) + weight(items[i]),
{
    let longer = items.take(i + 1);
    assert(longer.drop_last() =~= items.take(i));
    assert(longer.last() == items[i]);
    assert(sequence_leaves(longer, prefix) == sequence_leaves(longer.drop_last(), prefix)
        + leaves(longer.last(), join(prefix, decimal((longer.len() - 1) as nat))));
    assert(sequence_weight(longer) == sequence_weight(longer.drop_last()) + weight(
        longer.last(),
    ));
}

proof fn lemma_work_push(work: Seq<(String, &Node)>, path: String, node: &Node)
    ensures
        pending(work_view(work.push((path, node)))) == pending(work_view(work)) + leaves(
            node@,
            path@,
        ),
        pending_weight(work_view(work.push((path, node)))) == pending_weight(work_view(work))
            + weight(node@),
{
    let longer = work_view(work.push((path, node)));
    assert(longer.drop_last() =~= work_view(work));
    assert(longer.last() == (path@, node@));
}

proof fn lemma_work_pop(work: Seq<(String, &Node)>)
    requires
        work.len() > 0,
    ensures
        pending(work_view(work)) == pending(work_view(work.drop_last())) + leaves(
            work.last().1@,
            work.last().0@,
        ),
        pending_weight(work_view(work)) == pending_weight(work_view(work.drop_last())) + weight(
            work.last().1@,
        ),
{
    let whole = work_view(work);
    assert(whole.drop_last() =~= work_view(work.drop_last()));
    assert(whole.last() == (work.last().0@, work.last().1@));
}

/// The string that stands for a scalar node; the empty string for any other.
pub fn stringify_yaml(node: &Node) -> (s: String)
    ensures
        s@ == stringify(node@),
{
    match node {
        Node::Real(text) => text.clone(),
        Node::Integer(value) => signed_decimal_string(*value),
        Node::Text(text) => text.clone(),
        Node::Boolean(value) => {
            if *value {
                proof {
                    reveal_strlit("true");
                }
                String::from_str("true")
            } else {
                proof {
                    reveal_strlit("false");
                }
                String::from_str("false")
            }
        },
        Node::Null => {
            proof {
                reveal_strlit("null");
            }
            String::from_str("null")
        },
        _ => String::new(),
    }
}

/// The path of the child `name` under `prefix`.
fn child_path(prefix: &String, name: &str) -> (path: String)
    ensures
        path@ == join(prefix@, name@),
{
    if prefix.as_str().is_empty() {
        String::from_str(name)
    } else {
        let mut path = prefix.clone();
        proof {
            reveal_strlit(".");
        }
        path.append(".");
        path.append(name);
        assert(path@ =~= prefix@ + seq!['.'] + name@);
        path
    }
}

/// The path of the item at `index` under `prefix`.
fn item_path(prefix: &String, index: usize) -> (path: String)
    ensures
        path@ == join(prefix@, decimal(index as nat)),
{
    let mut path = prefix.clone();
    if !prefix.as_str().is_empty() {
        proof {
            reveal_strlit(".");
        }
        path.append(".");
    }
    push_decimal(&mut path, index as u64);
    assert(path@ =~= join(prefix@, decimal(index as nat)));
    path
}

/// Writes every scalar below `root` to `metadata`, under its dotted path. Of
/// two scalars with one path the one that stands earlier in the document
/// stays. The tree is walked with a work list, so that a deep document costs
/// no call stack.
pub fn flatten_yaml(root: &Node, metadata: &mut Metadata)
    ensures
        final(metadata)@ == written_back_onto(old(metadata)@, leaves(root@, Seq::empty())),
{
    let mut queue: Vec<(String, &Node)> = Vec::new();
    queue.push((String::new(), root));
    let ghost mut done: Seq<(Seq<char>, Seq<char>)> = Seq::empty();
    proof {
        lemma_work_push(Seq::empty(), queue@[0].0, root);
        assert(queue@ =~= Seq::<(String, &Node)>::empty().push(queue@[0]));
        assert(work_view(Seq::<(String, &Node)>::empty()) =~= Seq::empty());
        assert(pending(work_view(queue@)) + done =~= leaves(root@, Seq::empty()));
    }
    while queue.len() > 0
        invariant
            metadata@ == written_back_onto(old(metadata)@, done),
            pending(work_view(queue@)) + done == leaves(root@, Seq::empty()),
        decreases pending_weight(work_view(queue@)),
    {
        proof {
            lemma_work_pop(queue@);
        }
        let ghost before = queue@;
        let (prefix, node) = queue.pop().unwrap();
        let ghost rest = queue@;
        assert(rest == before.drop_last());
        match node {
            Node::Mapping(entries) => {
                let ghost trees = node@->Mapping_0;
                proof {
                    lemma_mapping_view(*entries);
                    assert(trees.take(0) =~= Seq::<(Tree, Tree)>::empty());
                    assert(pending(work_view(rest)) + mapping_leaves(trees.take(0), prefix@)
                        =~= pending(work_view(rest)));
                }
                let mut i: usize = 0;
                while i < entries.len()
                    invariant
                        i <= entries.len(),
                        trees.len() == entries@.len(),
                        forall|k: int|
                            0 <= k < trees.len() ==> #[trigger] trees[k] == (
                                entries@[k].0@,
                                entries@[k].1@,
                            ),
                        pending(work_view(queue@)) == pending(work_view(rest)) + mapping_leaves(
                            trees.take(i as int),
                            prefix@,
                        ),
                        pending_weight(work_view(queue@)) == pending_weight(work_view(rest))
                            + mapping_weight(trees.take(i as int)),
                    decreases entries.len() - i,
                {
                    proof {
                        lemma_mapping_step(trees, prefix@, i as int);
                        assert(trees[i as int] == (entries@[i as int].0@, entries@[i as int].1@));
                    }
                    match &entries[i].0 {
                        Node::Text(name) => {
                            let path = child_path(&prefix, name.as_str());
                            proof {
                                lemma_work_push(queue@, path, &entries@[i as int].1);
                                assert(pending(work_view(rest)) + mapping_leaves(
                                    trees.take(i + 1),
                                    prefix@,
                                ) =~= (pending(work_view(rest)) + mapping_leaves(
                                    trees.take(i as int),
                                    prefix@,
                                )) + leaves(entries@[i as int].1@, path@));
                            }
                            queue.push((path, &entries[i].1));
                        },
                        _ => {
                            assert(mapping_leaves(trees.take(i + 1), prefix@) =~= mapping_leaves(
                                trees.take(i as int),
                                prefix@,
                            ));
                        },
                    }
                    i += 1;
                }
                proof {
                    assert(trees.take(i as int) =~= trees);
                }
            },
            Node::Sequence(items) => {
                let ghost trees = node@->Sequence_0;
                proof {
                    lemma_sequence_view(*items);
                    assert(trees.take(0) =~= Seq::<Tree>::empty());
                    assert(pending(work_view(rest)) + sequence_leaves(trees.take(0), prefix@)
                        =~= pending(work_view(rest)));
                }
                let mut i: usize = 0;
                while i < items.len()
                    invariant
                        i <= items.len(),
                        trees.len() == items@.len(),
                        forall|k: int| 0 <= k < trees.len() ==> #[trigger] trees[k] == items@[k]@,
                        pending(work_view(queue@)) == pending(work_view(rest)) + sequence_leaves(
                            trees.take(i as int),
                            prefix@,
                        ),
                        pending_weight(work_view(queue@)) == pending_weight(work_view(rest))
                            + sequence_weight(trees.take(i as int)),
                    decreases items.len() - i,
                {
                    let path = item_path(&prefix, i);
                    proof {
                        lemma_sequence_step(trees, prefix@, i as int);
                        assert(trees[i as int] == items@[i as int]@);
                        lemma_work_push(queue@, path, &items@[i as int]);
                        assert(pending(work_view(rest)) + sequence_leaves(
                            trees.take(i + 1),
                            prefix@,
                        ) =~= (pending(work_view(rest)) + sequence_leaves(
                            trees.take(i as int),
                            prefix@,
                        )) + leaves(items@[i as int]@, path@));
                    }
                    queue.push((path, &items[i]));
                    i += 1;
                }
                proof {
                    assert(trees.take(i as int) =~= trees);
                }
            },
            _ => {
                let value = stringify_yaml(node);
                proof {
                    let entry = (prefix@, value@);
                    let longer = seq![entry] + done;
                    assert(leaves(node@, prefix@) =~= seq![entry]);
                    assert(longer.drop_first() =~= done);
                    assert(longer[0] == entry);
                    assert(pending(work_view(rest)) + longer =~= pending(work_view(before))
                        + done);
                    done = longer;
                }
                metadata.insert(prefix, value);
            },
        }
    }
    assert(Seq::<(Seq<char>, Seq<char>)>::empty() + done =~= done);
}

} // verus!
