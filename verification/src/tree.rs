//! A model of a directory tree, the data the copy/move engine works on.
//!
//! A `Node` is one filesystem object: a regular file with its bytes, a
//! directory with a list of named entries, or something else (a broken
//! symlink, a device file, ...) that the engine does not transfer.
//!
//! The mathematical shape of a node is a `Tree`, in which a directory is a
//! map from entry name to subtree.  Two directories are the same tree
//! exactly when they hold the same names with the same contents, whatever
//! the order of their entry lists; this matches a real directory, whose
//! enumeration order is not meaningful.

use vstd::prelude::*;

verus! {

/// One filesystem object.
#[derive(Debug)]
pub enum Node {
    /// A regular file and its contents.
    File { data: Vec<u8> },
    /// A directory: a list of (name, child) entries.
    Dir { entries: Vec<(String, Node)> },
    /// Anything that is neither a regular file nor a directory.
    Special,
}

/// The mathematical shape of a `Node`.
pub enum Tree {
    File { data: Seq<u8> },
    Dir { entries: Map<Seq<char>, Tree> },
    Special,
}

/// The tree denoted by a node.
pub open spec fn node_view(n: Node) -> Tree
    decreases n, 1int,
{
    match n {
        Node::File { data } => Tree::File { data: data@ },
        Node::Dir { entries } => Tree::Dir {
            entries: entries_view_upto(entries@, entries@.len() as int),
        },
        Node::Special => Tree::Special,
    }
}

/// The map held by the first `k` entries of a directory's entry list; a
/// later entry with a repeated name would override an earlier one.
pub open spec fn entries_view_upto(s: Seq<(String, Node)>, k: int) -> Map<Seq<char>, Tree>
    decreases s, k,
{
    if k <= 0 || k > s.len() {
        Map::empty()
    } else {
        entries_view_upto(s, k - 1).insert(s[k - 1].0@, node_view(s[k - 1].1))
    }
}

/// The map of a whole entry list.
pub open spec fn entries_view(s: Seq<(String, Node)>) -> Map<Seq<char>, Tree> {
    entries_view_upto(s, s.len() as int)
}

/// The tree denoted by an optional node, `None` standing for a path with
/// nothing at it.
pub open spec fn opt_node_view(n: Option<Node>) -> Option<Tree> {
    match n {
        Option::None => Option::None,
        Option::Some(inner) => Option::Some(node_view(inner)),
    }
}

/// Entry names are pairwise distinct.
pub open spec fn unique_names(s: Seq<(String, Node)>) -> bool {
    forall|i: int, j: int| 0 <= i < j < s.len() ==> s[i].0@ != s[j].0@
}

/// Well-formed: every directory's entry names are distinct, as they are in
/// a real directory.
pub open spec fn node_wf(n: Node) -> bool
    decreases n,
{
    match n {
        Node::Dir { entries } => {
            &&& unique_names(entries@)
            &&& forall|i: int|
                0 <= i < entries@.len() ==> node_wf(#[trigger] entries@[i].1)
        },
        _ => true,
    }
}

/// Well-formed, for an optional node.
pub open spec fn opt_node_wf(n: Option<Node>) -> bool {
    match n {
        Option::None => true,
        Option::Some(inner) => node_wf(inner),
    }
}

/// Regular: the node holds only files and directories, nothing the engine
/// would skip or reject.
pub open spec fn node_regular(n: Node) -> bool
    decreases n,
{
    match n {
        Node::File { .. } => true,
        Node::Dir { entries } => forall|i: int|
            0 <= i < entries@.len() ==> node_regular(#[trigger] entries@[i].1),
        Node::Special => false,
    }
}

/// How many regular files the node holds, recursively.  Directories and
/// special entries are not counted.
pub open spec fn file_count(n: Node) -> nat
    decreases n, 1int,
{
    match n {
        Node::File { .. } => 1,
        Node::Dir { entries } => entries_file_count(entries@, entries@.len() as int),
        Node::Special => 0,
    }
}

/// The files held by the first `k` entries of an entry list.
pub open spec fn entries_file_count(s: Seq<(String, Node)>, k: int) -> nat
    decreases s, k,
{
    if k <= 0 || k > s.len() {
        0
    } else {
        entries_file_count(s, k - 1) + file_count(s[k - 1].1)
    }
}

/// How many bytes the node's regular files hold, recursively.
pub open spec fn byte_count(n: Node) -> nat
    decreases n, 1int,
{
    match n {
        Node::File { data } => data@.len(),
        Node::Dir { entries } => entries_byte_count(entries@, entries@.len() as int),
        Node::Special => 0,
    }
}

/// The bytes held by the first `k` entries of an entry list.
pub open spec fn entries_byte_count(s: Seq<(String, Node)>, k: int) -> nat
    decreases s, k,
{
    if k <= 0 || k > s.len() {
        0
    } else {
        entries_byte_count(s, k - 1) + byte_count(s[k - 1].1)
    }
}

/// What a directory map holds at a name, if anything.
pub open spec fn dir_lookup(m: Map<Seq<char>, Tree>, name: Seq<char>) -> Option<Tree> {
    if m.dom().contains(name) {
        Option::Some(m[name])
    } else {
        Option::None
    }
}

} // verus!
