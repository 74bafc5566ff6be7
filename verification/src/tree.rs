//! The tree cleaner.
//!
//! A directory tree is modelled as a recursive datatype: a file
//! carries the outcome of sniffing its first line, a directory
//! carries its entries. `recursive_clear` walks such a tree
//! depth-first and removes every entry that the classification rules
//! of [`crate::rules`] mark for deletion, skipping ignored entries
//! together with everything beneath them and never descending into a
//! deleted directory.

use vstd::prelude::*;
use crate::rules;

verus! {

/// A file's content as far as the cleaner reads it, or a directory's
/// entries.
///
/// For a file, `first_line` is the outcome of the content sniff:
/// `None` when the file cannot be read, `Some(l)` when its first
/// line is `l` (the empty string for an empty file).
#[derive(Debug, PartialEq, Eq)]
pub enum Node {
    File { first_line: Option<String> },
    Dir { entries: Vec<Entry> },
}

/// One directory entry: a basename together with what it holds.
#[derive(Debug, PartialEq, Eq)]
pub struct Entry {
    pub name: String,
    pub node: Node,
}

/// Mathematical model of a [`Node`].
#[verifier::ext_equal]
pub enum NodeModel {
    File { first_line: Option<Seq<char>> },
    Dir { entries: Seq<EntryModel> },
}

/// Mathematical model of an [`Entry`].
#[verifier::ext_equal]
pub struct EntryModel {
    pub name: Seq<char>,
    pub node: NodeModel,
}

/// The model of a node.
pub open spec fn node_model(n: Node) -> NodeModel
    decreases n,
{
    match n {
        Node::File { first_line } => NodeModel::File {
            first_line: match first_line {
                Some(l) => Some(l@),
                None => None,
            },
        },
        Node::Dir { entries } => NodeModel::Dir { entries: entries_model(entries@) },
    }
}

/// The model of one entry.
pub open spec fn entry_model(e: Entry) -> EntryModel
    decreases e,
{
    EntryModel { name: e.name@, node: node_model(e.node) }
}

/// The models of a sequence of entries, in order.
pub open spec fn entries_model(es: Seq<Entry>) -> Seq<EntryModel>
    decreases es,
{
    if es.len() == 0 {
        Seq::empty()
    } else {
        entries_model(es.drop_last()).push(entry_model(es.last()))
    }
}

impl View for Node {
    type V = NodeModel;

    open spec fn view(&self) -> NodeModel {
        node_model(*self)
    }
}

impl View for Entry {
    type V = EntryModel;

    open spec fn view(&self) -> EntryModel {
        entry_model(*self)
    }
}

/// What the content sniff yields for a node: a directory is not
/// readable as a file, so sniffing it yields nothing.
pub open spec fn sniffed_line(n: NodeModel) -> Option<Seq<char>> {
    match n {
        NodeModel::File { first_line } => first_line,
        NodeModel::Dir { .. } => None,
    }
}

/// True when the entry matches a deletion rule: by basename, or by
/// sniffable extension together with a marked first line.
pub open spec fn entry_should_delete(e: EntryModel) -> bool {
    rules::should_delete(e.name, sniffed_line(e.node))
}

/// True when the scan removes this entry: it matches a deletion rule
/// and is not ignore-listed (the ignore check comes first).
pub open spec fn entry_is_deleted(e: EntryModel) -> bool {
    !rules::is_ignored_name(e.name) && entry_should_delete(e)
}

/// What the scan leaves of one kept entry: an ignored entry is left
/// untouched with its whole subtree, any other kept entry keeps its
/// name and has its node cleaned.
pub open spec fn clean_entry(e: EntryModel) -> EntryModel
    decreases e,
{
    if rules::is_ignored_name(e.name) {
        e
    } else {
        EntryModel { name: e.name, node: clean_node(e.node) }
    }
}

/// What the scan leaves of a sequence of entries: deleted entries
/// are gone, the others stand cleaned, in their original order.
pub open spec fn clean_entries(es: Seq<EntryModel>) -> Seq<EntryModel>
    decreases es,
{
    if es.len() == 0 {
        es
    } else {
        let rest = clean_entries(es.drop_last());
        if entry_is_deleted(es.last()) {
            rest
        } else {
            rest.push(clean_entry(es.last()))
        }
    }
}

/// What the scan leaves of a node: a file is left as it is, a
/// directory has its entries cleaned.
pub open spec fn clean_node(n: NodeModel) -> NodeModel
    decreases n,
{
    match n {
        NodeModel::File { .. } => n,
        NodeModel::Dir { entries } => NodeModel::Dir { entries: clean_entries(entries) },
    }
}

/// Pushing an entry commutes with taking models.
proof fn lemma_entries_model_push(es: Seq<Entry>, e: Entry)
    ensures
        entries_model(es.push(e)) == entries_model(es).push(entry_model(e)),
{
    assert(es.push(e).drop_last() =~= es);
    assert(es.push(e).last() == e);
}

/// One unfolding of `clean_entries` at the end of a sequence.
proof fn lemma_clean_entries_push(es: Seq<EntryModel>, e: EntryModel)
    ensures
        clean_entries(es.push(e)) == (if entry_is_deleted(e) {
            clean_entries(es)
        } else {
            clean_entries(es).push(clean_entry(e))
        }),
{
    assert(es.push(e).drop_last() =~= es);
    assert(es.push(e).last() == e);
}

/// Cleans a list of sibling entries: visits each entry once, skips
/// ignored ones, drops deleted ones wholesale, and descends into the
/// remaining directories.
pub fn clear_entries(entries: Vec<Entry>) -> (r: Vec<Entry>)
    ensures
        entries_model(r@) == clean_entries(entries_model(entries@)),
    decreases entries@,
{
    let mut work = entries;
    if work.len() == 0 {
        return work;
    }
    let e = work.pop().unwrap();
    proof {
        assert(entries@ =~= entries@.drop_last().push(e));
        lemma_entries_model_push(entries@.drop_last(), e);
        lemma_clean_entries_push(entries_model(entries@.drop_last()), entry_model(e));
    }
    let mut cleaned = clear_entries(work);
    let ignored = rules::check_if_should_be_ignored(e.name.as_str());
    if ignored {
        proof {
            lemma_entries_model_push(cleaned@, e);
        }
        cleaned.push(e);
        return cleaned;
    }
    let first_line_opt: Option<&str> = match &e.node {
        Node::File { first_line } => match first_line {
            Some(l) => Some(l.as_str()),
            None => None,
        },
        Node::Dir { .. } => None,
    };
    proof {
        assert(first_line_opt.deep_view() == sniffed_line(node_model(e.node)));
    }
    let deleted = rules::check_if_should_be_deleted(e.name.as_str(), first_line_opt);
    if deleted {
        return cleaned;
    }
    match e {
        Entry { name, node: Node::Dir { entries: child } } => {
            let child_clean = clear_entries(child);
            let kept = Entry { name, node: Node::Dir { entries: child_clean } };
            proof {
                lemma_entries_model_push(cleaned@, kept);
            }
            cleaned.push(kept);
        },
        Entry { name, node: Node::File { first_line } } => {
            let kept = Entry { name, node: Node::File { first_line } };
            proof {
                lemma_entries_model_push(cleaned@, kept);
            }
            cleaned.push(kept);
        },
    }
    cleaned
}

/// True when a scan of this entry would change nothing: the entry is
/// ignore-listed, or it matches no deletion rule and its own subtree
/// is artifact-free in the same sense.
pub open spec fn entry_artifact_free(e: EntryModel) -> bool
    decreases e,
{
    ||| rules::is_ignored_name(e.name)
    ||| (!entry_should_delete(e) && tree_artifact_free(e.node))
}

/// True when a scan of this tree would change nothing: no reachable
/// entry outside ignored subtrees matches a deletion rule.
pub open spec fn tree_artifact_free(n: NodeModel) -> bool
    decreases n,
{
    match n {
        NodeModel::File { .. } => true,
        NodeModel::Dir { entries } => forall|i: int|
            0 <= i < entries.len() ==> entry_artifact_free(#[trigger] entries[i]),
    }
}

/// Cleaning neither renames an entry nor changes how the deletion
/// rules classify it: a file keeps its first line, and a directory
/// stays a directory, which the content rule never applies to.
proof fn lemma_clean_entry_same_classification(e: EntryModel)
    ensures
        clean_entry(e).name == e.name,
        entry_should_delete(clean_entry(e)) == entry_should_delete(e),
        entry_is_deleted(clean_entry(e)) == entry_is_deleted(e),
{
    if !rules::is_ignored_name(e.name) {
        assert(sniffed_line(clean_node(e.node)) == sniffed_line(e.node));
    }
}

/// After a scan, every entry that is left is artifact-free: it is
/// ignored, or it matches no deletion rule and neither does anything
/// beneath it. This covers the name rules and the content rule
/// alike: no reachable deletable entry survives.
pub proof fn lemma_clear_entries_artifact_free(es: Seq<EntryModel>)
    ensures
        forall|i: int|
            0 <= i < clean_entries(es).len() ==> entry_artifact_free(
                #[trigger] clean_entries(es)[i],
            ),
    decreases es,
{
    if es.len() != 0 {
        lemma_clear_entries_artifact_free(es.drop_last());
        let e = es.last();
        let rest = clean_entries(es.drop_last());
        if !entry_is_deleted(e) {
            lemma_clean_entry_artifact_free(e);
            assert(forall|i: int|
                0 <= i < rest.push(clean_entry(e)).len() ==> entry_artifact_free(
                    #[trigger] rest.push(clean_entry(e))[i],
                ));
        }
    }
}

/// A kept entry comes out of the scan artifact-free.
proof fn lemma_clean_entry_artifact_free(e: EntryModel)
    requires
        !entry_is_deleted(e),
    ensures
        entry_artifact_free(clean_entry(e)),
    decreases e,
{
    if !rules::is_ignored_name(e.name) {
        lemma_clean_entry_same_classification(e);
        lemma_clean_node_artifact_free(e.node);
    }
}

/// After a scan, the whole tree is artifact-free.
pub proof fn lemma_clean_node_artifact_free(n: NodeModel)
    ensures
        tree_artifact_free(clean_node(n)),
    decreases n,
{
    match n {
        NodeModel::File { .. } => {
            assert(clean_node(n) == n);
            assert(tree_artifact_free(n));
        },
        NodeModel::Dir { entries } => {
            lemma_clear_entries_artifact_free(entries);
            let cleaned = clean_entries(entries);
            assert(clean_node(n) == NodeModel::Dir { entries: cleaned });
            assert(forall|i: int|
                0 <= i < cleaned.len() ==> entry_artifact_free(#[trigger] cleaned[i]));
            assert(tree_artifact_free(NodeModel::Dir { entries: cleaned }));
        },
    }
}

/// On an artifact-free entry the scan is the identity.
proof fn lemma_artifact_free_entry_fixpoint(e: EntryModel)
    requires
        entry_artifact_free(e),
    ensures
        !entry_is_deleted(e),
        clean_entry(e) == e,
    decreases e,
{
    if !rules::is_ignored_name(e.name) {
        lemma_artifact_free_node_fixpoint(e.node);
        assert(clean_entry(e) =~= e);
    }
}

/// On an artifact-free sequence of entries the scan is the identity.
pub proof fn lemma_artifact_free_entries_fixpoint(es: Seq<EntryModel>)
    requires
        forall|i: int| 0 <= i < es.len() ==> entry_artifact_free(#[trigger] es[i]),
    ensures
        clean_entries(es) == es,
    decreases es,
{
    if es.len() != 0 {
        lemma_artifact_free_entries_fixpoint(es.drop_last());
        lemma_artifact_free_entry_fixpoint(es.last());
        assert(clean_entries(es) =~= es);
    }
}

/// A scan of an artifact-free tree deletes nothing and changes
/// nothing.
pub proof fn lemma_artifact_free_node_fixpoint(n: NodeModel)
    requires
        tree_artifact_free(n),
    ensures
        clean_node(n) == n,
    decreases n,
{
    match n {
        NodeModel::File { .. } => {
        },
        NodeModel::Dir { entries } => {
            lemma_artifact_free_entries_fixpoint(entries);
        },
    }
}

/// Idempotence: scanning a tree twice in succession leaves the same
/// tree as scanning it once — the second scan deletes nothing
/// further.
pub proof fn lemma_clear_idempotent(n: NodeModel)
    ensures
        clean_node(clean_node(n)) == clean_node(n),
{
    lemma_clean_node_artifact_free(n);
    lemma_artifact_free_node_fixpoint(clean_node(n));
}

/// Every sibling entry that no deletion rule removes survives the
/// scan, cleaned: in particular its name and, for a file, its whole
/// content are untouched.
pub proof fn lemma_kept_entry_preserved(es: Seq<EntryModel>, i: int)
    requires
        0 <= i < es.len(),
        !entry_is_deleted(es[i]),
    ensures
        clean_entries(es).contains(clean_entry(es[i])),
    decreases es,
{
    let rest = clean_entries(es.drop_last());
    if i == es.len() - 1 {
        assert(clean_entries(es) == rest.push(clean_entry(es[i])));
        assert(rest.push(clean_entry(es[i]))[rest.len() as int] == clean_entry(es[i]));
    } else {
        lemma_kept_entry_preserved(es.drop_last(), i);
        assert(es.drop_last()[i] == es[i]);
        let j = choose|j: int| 0 <= j < rest.len() && rest[j] == clean_entry(es[i]);
        assert(clean_entries(es)[j] == clean_entry(es[i]));
    }
}

/// An ignore-listed entry is left completely untouched by the scan:
/// the entry, with everything beneath it, stands unchanged among the
/// survivors.
pub proof fn lemma_ignored_entry_untouched(es: Seq<EntryModel>, i: int)
    requires
        0 <= i < es.len(),
        rules::is_ignored_name(es[i].name),
    ensures
        clean_entries(es).contains(es[i]),
{
    rules::lemma_ignored_name_not_deletion(es[i].name);
    lemma_kept_entry_preserved(es, i);
}

/// A file that matches no deletion rule — its basename is not in the
/// deletion set, and its first line carries no marker or its
/// extension is not sniffable — still exists after the scan.
pub proof fn lemma_plain_file_kept(es: Seq<EntryModel>, i: int)
    requires
        0 <= i < es.len(),
        es[i].node is File,
        !entry_should_delete(es[i]),
    ensures
        clean_entries(es).contains(es[i]),
{
    assert(clean_entry(es[i]) =~= es[i]);
    lemma_kept_entry_preserved(es, i);
}

/// No deleted entry survives a scan of its siblings: whatever else
/// stands in the sequence, no survivor equals an entry that the
/// rules delete — its whole subtree is removed with it.
pub proof fn lemma_deleted_entry_gone(es: Seq<EntryModel>, e: EntryModel)
    requires
        entry_is_deleted(e),
    ensures
        !clean_entries(es).contains(e),
{
    lemma_clear_entries_artifact_free(es);
    if clean_entries(es).contains(e) {
        let i = choose|i: int|
            0 <= i < clean_entries(es).len() && clean_entries(es)[i] == e;
        assert(entry_artifact_free(clean_entries(es)[i]));
    }
}

/// An entry whose basename matches a deletion rule no longer exists
/// after the scan, whatever its type or contents.
pub proof fn lemma_deletion_name_gone(es: Seq<EntryModel>, e: EntryModel)
    requires
        rules::is_deletion_name(e.name),
    ensures
        !clean_entries(es).contains(e),
{
    rules::lemma_ignored_name_not_deletion(e.name);
    lemma_deleted_entry_gone(es, e);
}

/// A readable file with a sniffable extension whose first line
/// carries a generated-file marker no longer exists after the scan,
/// even when its basename matches no deletion rule.
pub proof fn lemma_marked_file_gone(es: Seq<EntryModel>, e: EntryModel)
    requires
        rules::has_sniff_extension(e.name),
        sniffed_line(e.node) is Some,
        rules::line_has_marker(sniffed_line(e.node)->0),
    ensures
        !clean_entries(es).contains(e),
{
    rules::lemma_ignored_name_not_sniffable(e.name);
    lemma_deleted_entry_gone(es, e);
}

/// Cleans a whole tree, rooted at a directory that is itself never
/// examined: every entry beneath the root is visited exactly once,
/// depth-first, and handled by the per-entry decision procedure.
pub fn recursive_clear(root: Node) -> (r: Node)
    ensures
        r@ == clean_node(root@),
    decreases root,
{
    match root {
        Node::File { first_line } => Node::File { first_line },
        Node::Dir { entries } => Node::Dir { entries: clear_entries(entries) },
    }
}

} // verus!
