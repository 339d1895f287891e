//! What the engine guarantees, stated on its own: a transferred file or
//! tree arrives identical, a moved source is gone, and copying is
//! repeatable.

use vstd::prelude::*;

use crate::transfer::dest_entries_map;
use crate::transfer::lemma_entries_view_lookup_hit;
use crate::transfer::entries_merge_ok;
use crate::transfer::merge_ok;
use crate::transfer::merged;
use crate::transfer::merged_entries;
use crate::transfer::request_ok;
use crate::transfer::request_placed;
use crate::transfer::residue;
use crate::transfer::residue_entries;
use crate::tree::Node;
use crate::tree::Tree;
use crate::tree::dir_lookup;
use crate::tree::entries_view;
use crate::tree::entries_view_upto;
use crate::tree::file_count;
use crate::tree::node_regular;
use crate::tree::node_view;
use crate::tree::node_wf;
use crate::tree::unique_names;

verus! {

/// A regular file is carried whole, whatever stood at the target: the
/// tree placed is the file itself, byte for byte; it counts as one file;
/// and with the source deleted nothing of it remains behind.
pub proof fn lemma_file_transfer_exact(n: Node, dest: Option<Tree>)
    requires
        n is File,
    ensures
        merged(dest, n) == node_view(n),
        file_count(n) == 1,
        residue(n) is None,
{
}

/// A whole tree of regular files and directories is carried onto a fresh
/// destination identically: the transfer is accepted, the tree placed is
/// the source's own, and with the source deleted nothing of it remains.
pub proof fn lemma_tree_transfer_identical(n: Node)
    requires
        node_regular(n),
    ensures
        merge_ok(Option::None, n),
        merged(Option::None, n) == node_view(n),
        residue(n) is None,
    decreases n, 1int,
{
    match n {
        Node::Dir { entries } => {
            lemma_tree_entries_fresh(entries@, entries@.len() as int);
        },
        _ => {},
    }
}

/// As `lemma_tree_transfer_identical`, over the first `k` entries of a
/// directory.
proof fn lemma_tree_entries_fresh(s: Seq<(String, Node)>, k: int)
    requires
        forall|a: int| 0 <= a < s.len() ==> node_regular(#[trigger] s[a].1),
    ensures
        entries_merge_ok(Map::empty(), s, k),
        merged_entries(Map::empty(), s, k) == entries_view_upto(s, k),
        residue_entries(s, k) == Map::<Seq<char>, Tree>::empty(),
    decreases s, k,
{
    if 0 < k <= s.len() {
        lemma_tree_entries_fresh(s, k - 1);
        lemma_tree_transfer_identical(s[k - 1].1);
        assert(dir_lookup(Map::empty(), s[k - 1].0@) == Option::None::<Tree>);
    }
}

/// Copying a file is repeatable: after one copy has succeeded, the same
/// request succeeds again and leaves the same tree at the target.
pub proof fn lemma_file_copy_repeatable(src: Node, name: Seq<char>, dest: Option<Tree>)
    requires
        src is File,
        request_ok(src, name, dest),
    ensures
        request_ok(src, name, Option::Some(request_placed(src, name, dest))),
        request_placed(src, name, Option::Some(request_placed(src, name, dest)))
            == request_placed(src, name, dest),
{
    let once = request_placed(src, name, dest);
    match dest {
        Option::Some(Tree::Dir { entries }) => {
            let m = dest_entries_map(Option::Some(once));
            assert(m.insert(name, merged(dir_lookup(m, name), src)) =~= m);
        },
        _ => {},
    }
}

/// Copying a whole tree is repeatable: carrying a regular, well-formed
/// tree onto its own image succeeds and changes nothing, so a second run
/// of the same copy leaves the destination as the first did.
pub proof fn lemma_tree_copy_repeatable(n: Node)
    requires
        node_regular(n),
        node_wf(n),
    ensures
        merge_ok(Option::Some(node_view(n)), n),
        merged(Option::Some(node_view(n)), n) == node_view(n),
    decreases n, 1int,
{
    match n {
        Node::Dir { entries } => {
            lemma_tree_entries_self(entries@, entries@.len() as int);
        },
        _ => {},
    }
}

/// As `lemma_tree_copy_repeatable`, over the first `k` entries of a
/// directory merged into the directory's own map.
proof fn lemma_tree_entries_self(s: Seq<(String, Node)>, k: int)
    requires
        0 <= k <= s.len(),
        unique_names(s),
        forall|a: int| 0 <= a < s.len() ==> node_regular(#[trigger] s[a].1),
        forall|a: int| 0 <= a < s.len() ==> node_wf(#[trigger] s[a].1),
    ensures
        entries_merge_ok(entries_view(s), s, k),
        merged_entries(entries_view(s), s, k) == entries_view(s),
    decreases s, k,
{
    if 0 < k {
        lemma_tree_entries_self(s, k - 1);
        lemma_entries_view_lookup_hit(s, k - 1, s.len() as int);
        lemma_tree_copy_repeatable(s[k - 1].1);
        assert(merged_entries(entries_view(s), s, k) =~= entries_view(s));
    }
}

} // verus!
