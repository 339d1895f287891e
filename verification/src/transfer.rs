//! The recursive copy/move engine over the tree model.
//!
//! `transfer_node` carries one source node into an optional existing
//! destination node and returns the node now standing at the destination,
//! what remains of the source, and the counts of files and bytes carried.
//! `transfer` adds the path-level rules: a missing source is rejected, and
//! a single file aimed at an existing directory lands inside it under the
//! source's own name.
//!
//! A rename and a copy leave the same tree behind, so the model does not
//! distinguish the same-filesystem fast path from the cross-device
//! fallback; the text heuristic that picks between them at run time is in
//! `errtext`.

use vstd::prelude::*;

use crate::tree::Node;
use crate::tree::Tree;
use crate::tree::byte_count;
use crate::tree::dir_lookup;
use crate::tree::entries_byte_count;
use crate::tree::entries_file_count;
use crate::tree::entries_view;
use crate::tree::entries_view_upto;
use crate::tree::file_count;
use crate::tree::node_view;
use crate::tree::node_wf;
use crate::tree::opt_node_view;
use crate::tree::opt_node_wf;
use crate::tree::unique_names;

verus! {

/// Why a transfer was refused.
#[derive(Clone, Copy, Debug, PartialEq, Eq, Structural)]
pub enum TransferError {
    /// The source path holds nothing.
    NotFound,
    /// The destination exists but is not a directory where one is needed.
    InvalidDestination,
    /// The source is neither a regular file nor a directory.
    UnsupportedSourceType,
    /// An underlying read, write or remove cannot be carried out; in the
    /// model, a file aimed at a name that an unwritable object occupies.
    IoFailure,
}

/// What a transfer carried: how many regular files, and how many of their
/// bytes.
#[derive(Clone, Copy, Debug, PartialEq, Eq, Structural)]
pub struct TransferResult {
    pub files_processed: u64,
    pub bytes_processed: u64,
}

/// The entry map of an existing destination directory; empty when the
/// destination is absent.
pub open spec fn dest_entries_map(dest: Option<Tree>) -> Map<Seq<char>, Tree> {
    match dest {
        Option::Some(Tree::Dir { entries }) => entries,
        _ => Map::empty(),
    }
}

/// Whether carrying `src` onto an existing `dest` goes through.  A file
/// may land where nothing, or another file, stands; a directory needs the
/// destination to be absent or a directory, and every entry that is not
/// skipped must go through in turn.
pub open spec fn merge_ok(dest: Option<Tree>, src: Node) -> bool
    decreases src, 1int,
{
    match src {
        Node::File { .. } => match dest {
            Option::None => true,
            Option::Some(Tree::File { .. }) => true,
            _ => false,
        },
        Node::Special => false,
        Node::Dir { entries } => match dest {
            Option::Some(Tree::File { .. }) => false,
            Option::Some(Tree::Special) => false,
            _ => entries_merge_ok(
                dest_entries_map(dest),
                entries@,
                entries@.len() as int,
            ),
        },
    }
}

/// `merge_ok` over the first `k` entries of a source directory, against
/// the destination's entry map `m`.  Special entries are skipped.
pub open spec fn entries_merge_ok(m: Map<Seq<char>, Tree>, s: Seq<(String, Node)>, k: int) -> bool
    decreases s, k,
{
    if k <= 0 || k > s.len() {
        true
    } else {
        entries_merge_ok(m, s, k - 1) && (s[k - 1].1 is Special || merge_ok(
            dir_lookup(m, s[k - 1].0@),
            s[k - 1].1,
        ))
    }
}

/// The tree standing at the destination after a successful transfer: a
/// file replaces what stood there; a directory's entries are merged into
/// the destination's, entry by entry, skipping special ones.
pub open spec fn merged(dest: Option<Tree>, src: Node) -> Tree
    decreases src, 1int,
{
    match src {
        Node::File { data } => Tree::File { data: data@ },
        Node::Special => Tree::Special,
        Node::Dir { entries } => Tree::Dir {
            entries: merged_entries(dest_entries_map(dest), entries@, entries@.len() as int),
        },
    }
}

/// The destination's entry map after the first `k` source entries have
/// been merged into it.
pub open spec fn merged_entries(
    m: Map<Seq<char>, Tree>,
    s: Seq<(String, Node)>,
    k: int,
) -> Map<Seq<char>, Tree>
    decreases s, k,
{
    if k <= 0 || k > s.len() {
        m
    } else {
        let rest = merged_entries(m, s, k - 1);
        if s[k - 1].1 is Special {
            rest
        } else {
            rest.insert(s[k - 1].0@, merged(dir_lookup(m, s[k - 1].0@), s[k - 1].1))
        }
    }
}

/// Which error a refused transfer reports: the special source is named,
/// a directory aimed at a non-directory is an invalid destination, a file
/// aimed at a non-file cannot be written, and a directory's entries report
/// the first clash among them.  Meaningful only when `merge_ok` fails.
pub open spec fn merge_err(dest: Option<Tree>, src: Node) -> TransferError
    decreases src, 1int,
{
    match src {
        Node::File { .. } => TransferError::IoFailure,
        Node::Special => TransferError::UnsupportedSourceType,
        Node::Dir { entries } => match dest {
            Option::Some(Tree::File { .. }) => TransferError::InvalidDestination,
            Option::Some(Tree::Special) => TransferError::InvalidDestination,
            _ => entries_merge_err(dest_entries_map(dest), entries@, entries@.len() as int),
        },
    }
}

/// The error of the first source entry among the first `k` that does not
/// go through.
pub open spec fn entries_merge_err(
    m: Map<Seq<char>, Tree>,
    s: Seq<(String, Node)>,
    k: int,
) -> TransferError
    decreases s, k,
{
    if k <= 0 || k > s.len() {
        TransferError::IoFailure
    } else if !entries_merge_ok(m, s, k - 1) {
        entries_merge_err(m, s, k - 1)
    } else {
        merge_err(dir_lookup(m, s[k - 1].0@), s[k - 1].1)
    }
}

/// What remains of the source after a successful transfer with
/// `delete_source` set: files are removed, special entries stay, and a
/// directory stays exactly when something stays inside it.
pub open spec fn residue(n: Node) -> Option<Tree>
    decreases n, 1int,
{
    match n {
        Node::File { .. } => Option::None,
        Node::Special => Option::Some(Tree::Special),
        Node::Dir { entries } => {
            let m = residue_entries(entries@, entries@.len() as int);
            if m == Map::<Seq<char>, Tree>::empty() {
                Option::None
            } else {
                Option::Some(Tree::Dir { entries: m })
            }
        },
    }
}

/// The residues of the first `k` entries of a directory, as an entry map.
pub open spec fn residue_entries(s: Seq<(String, Node)>, k: int) -> Map<Seq<char>, Tree>
    decreases s, k,
{
    if k <= 0 || k > s.len() {
        Map::empty()
    } else {
        let rest = residue_entries(s, k - 1);
        match residue(s[k - 1].1) {
            Option::None => rest,
            Option::Some(t) => rest.insert(s[k - 1].0@, t),
        }
    }
}

/// Pushing an entry does not change the map of a shorter prefix.
proof fn lemma_entries_view_upto_push(s: Seq<(String, Node)>, p: (String, Node), k: int)
    requires
        0 <= k <= s.len(),
    ensures
        entries_view_upto(s.push(p), k) == entries_view_upto(s, k),
    decreases k,
{
    if k > 0 {
        lemma_entries_view_upto_push(s, p, k - 1);
        assert(s.push(p)[k - 1] == s[k - 1]);
    }
}

/// Replacing the one entry that carries a name rewrites that name's image
/// in the map and nothing else.
proof fn lemma_entries_view_upto_update(s: Seq<(String, Node)>, i: int, p: (String, Node), k: int)
    requires
        0 <= i < s.len(),
        p.0@ == s[i].0@,
        unique_names(s),
        0 <= k <= s.len(),
    ensures
        k <= i ==> entries_view_upto(s.update(i, p), k) == entries_view_upto(s, k),
        k > i ==> entries_view_upto(s.update(i, p), k) == entries_view_upto(s, k).insert(
            p.0@,
            node_view(p.1),
        ),
    decreases k,
{
    if k > 0 {
        lemma_entries_view_upto_update(s, i, p, k - 1);
        let s2 = s.update(i, p);
        if k - 1 < i {
            assert(s2[k - 1] == s[k - 1]);
        } else if k - 1 == i {
            assert(entries_view_upto(s, k - 1).insert(p.0@, node_view(p.1)) == entries_view_upto(
                s,
                k,
            ).insert(p.0@, node_view(p.1))) by {
                assert(entries_view_upto(s, k - 1).insert(p.0@, node_view(p.1)) =~= entries_view_upto(
                    s,
                    k,
                ).insert(p.0@, node_view(p.1)));
            }
        } else {
            assert(s2[k - 1] == s[k - 1]);
            assert(s[k - 1].0@ != p.0@);
            assert(entries_view_upto(s, k - 1).insert(p.0@, node_view(p.1)).insert(
                s[k - 1].0@,
                node_view(s[k - 1].1),
            ) == entries_view_upto(s, k).insert(p.0@, node_view(p.1))) by {
                assert(entries_view_upto(s, k - 1).insert(p.0@, node_view(p.1)).insert(
                    s[k - 1].0@,
                    node_view(s[k - 1].1),
                ) =~= entries_view_upto(s, k).insert(p.0@, node_view(p.1)));
            }
        }
    }
}

/// With distinct names, the map holds at a listed name exactly that
/// entry's subtree.
pub(crate) proof fn lemma_entries_view_lookup_hit(s: Seq<(String, Node)>, i: int, k: int)
    requires
        unique_names(s),
        0 <= i < k <= s.len(),
    ensures
        dir_lookup(entries_view_upto(s, k), s[i].0@) == Option::Some(node_view(s[i].1)),
    decreases k,
{
    if k - 1 > i {
        assert(s[k - 1].0@ != s[i].0@);
        lemma_entries_view_lookup_hit(s, i, k - 1);
    }
}

/// A name no listed entry carries is not in the map.
proof fn lemma_entries_view_lookup_miss(s: Seq<(String, Node)>, x: Seq<char>, k: int)
    requires
        0 <= k <= s.len(),
        forall|j: int| 0 <= j < k ==> s[j].0@ != x,
    ensures
        dir_lookup(entries_view_upto(s, k), x) == Option::None::<Tree>,
    decreases k,
{
    if k > 0 {
        lemma_entries_view_lookup_miss(s, x, k - 1);
    }
}

/// Prefix sums of file counts grow with the prefix.
proof fn lemma_entries_file_count_mono(s: Seq<(String, Node)>, k1: int, k2: int)
    requires
        0 <= k1 <= k2 <= s.len(),
    ensures
        entries_file_count(s, k1) <= entries_file_count(s, k2),
    decreases k2,
{
    if k1 < k2 {
        lemma_entries_file_count_mono(s, k1, k2 - 1);
    }
}

/// Prefix sums of byte counts grow with the prefix.
proof fn lemma_entries_byte_count_mono(s: Seq<(String, Node)>, k1: int, k2: int)
    requires
        0 <= k1 <= k2 <= s.len(),
    ensures
        entries_byte_count(s, k1) <= entries_byte_count(s, k2),
    decreases k2,
{
    if k1 < k2 {
        lemma_entries_byte_count_mono(s, k1, k2 - 1);
    }
}

/// If every entry of a longer prefix goes through, so does every entry of
/// a shorter one.
proof fn lemma_entries_merge_ok_mono(
    m: Map<Seq<char>, Tree>,
    s: Seq<(String, Node)>,
    k1: int,
    k2: int,
)
    requires
        0 <= k1 <= k2 <= s.len(),
        entries_merge_ok(m, s, k2),
    ensures
        entries_merge_ok(m, s, k1),
    decreases k2,
{
    if k1 < k2 {
        lemma_entries_merge_ok_mono(m, s, k1, k2 - 1);
    }
}

/// Once a prefix has failed, every longer prefix fails and reports the
/// same first error.
proof fn lemma_entries_merge_err_stable(
    m: Map<Seq<char>, Tree>,
    s: Seq<(String, Node)>,
    k1: int,
    k2: int,
)
    requires
        0 < k1 <= k2 <= s.len(),
        !entries_merge_ok(m, s, k1),
    ensures
        !entries_merge_ok(m, s, k2),
        entries_merge_err(m, s, k2) == entries_merge_err(m, s, k1),
    decreases k2,
{
    if k1 < k2 {
        lemma_entries_merge_err_stable(m, s, k1, k2 - 1);
    }
}

/// Merging entries touches no name outside the listed ones.
proof fn lemma_merged_entries_lookup_untouched(
    m: Map<Seq<char>, Tree>,
    s: Seq<(String, Node)>,
    k: int,
    x: Seq<char>,
)
    requires
        0 <= k <= s.len(),
        forall|j: int| 0 <= j < k ==> s[j].0@ != x,
    ensures
        dir_lookup(merged_entries(m, s, k), x) == dir_lookup(m, x),
    decreases k,
{
    if k > 0 {
        lemma_merged_entries_lookup_untouched(m, s, k - 1, x);
    }
}

/// Entry lists with the same names and the same subtrees denote the same
/// map.
proof fn lemma_entries_view_congruent(s1: Seq<(String, Node)>, s2: Seq<(String, Node)>, k: int)
    requires
        s1.len() == s2.len(),
        0 <= k <= s1.len(),
        forall|a: int| 0 <= a < s1.len() ==> s1[a].0@ == s2[a].0@,
        forall|a: int| 0 <= a < s1.len() ==> node_view(s1[a].1) == node_view(s2[a].1),
    ensures
        entries_view_upto(s1, k) == entries_view_upto(s2, k),
    decreases k,
{
    if k > 0 {
        lemma_entries_view_congruent(s1, s2, k - 1);
    }
}

/// A fresh copy of a file's bytes.
#[verifier::loop_isolation(false)]
fn clone_bytes(v: &Vec<u8>) -> (r: Vec<u8>)
    ensures
        r@ == v@,
{
    let mut r: Vec<u8> = Vec::new();
    let mut i: usize = 0;
    while i < v.len()
        invariant
            i <= v@.len(),
            r@ == v@.subrange(0, i as int),
        decreases v@.len() - i,
    {
        r.push(v[i]);
        proof {
            assert(v@.subrange(0, i + 1 as int) =~= v@.subrange(0, i as int).push(v@[i as int]));
        }
        i = i + 1;
    }
    proof {
        assert(r@ =~= v@);
    }
    r
}

/// A fresh copy of a node, denoting the same tree.
#[verifier::loop_isolation(false)]
fn clone_node(n: &Node) -> (r: Node)
    requires
        node_wf(*n),
    ensures
        node_view(r) == node_view(*n),
        node_wf(r),
    decreases *n,
{
    match n {
        Node::Special => Node::Special,
        Node::File { data } => Node::File { data: clone_bytes(data) },
        Node::Dir { entries } => {
            let mut out: Vec<(String, Node)> = Vec::new();
            let mut i: usize = 0;
            while i < entries.len()
                invariant
                    i <= entries@.len(),
                    out@.len() == i as int,
                    forall|a: int| 0 <= a < i ==> out@[a].0@ == entries@[a].0@,
                    forall|a: int|
                        0 <= a < i ==> node_view(#[trigger] out@[a].1) == node_view(entries@[a].1),
                    forall|a: int| 0 <= a < i ==> node_wf(#[trigger] out@[a].1),
                decreases entries@.len() - i,
            {
                let pair = &entries[i];
                let c = clone_node(&pair.1);
                out.push((pair.0.clone(), c));
                i = i + 1;
            }
            proof {
                lemma_entries_view_congruent(out@, entries@, entries@.len() as int);
            }
            Node::Dir { entries: out }
        },
    }
}

/// The position of a name in an entry list, if it is there.
#[verifier::loop_isolation(false)]
fn find_entry(s: &Vec<(String, Node)>, name: &String) -> (r: Option<usize>)
    ensures
        (r matches Some(idx) ==> idx < s@.len() && s@[idx as int].0@ == name@),
        (r is None ==> forall|j: int| 0 <= j < s@.len() ==> s@[j].0@ != name@),
{
    let mut j: usize = 0;
    while j < s.len()
        invariant
            j <= s@.len(),
            forall|a: int| 0 <= a < j ==> s@[a].0@ != name@,
        decreases s@.len() - j,
    {
        if s[j].0 == *name {
            return Some(j);
        }
        j = j + 1;
    }
    None
}

/// Carry `src` onto the optional node standing at the destination path.
///
/// On success, returns the node now standing there, what remains of the
/// source (`delete` asks for the source to be removed as it is carried;
/// without it the source stays as it was), and the counts of regular
/// files and of their bytes carried.  Succeeds exactly when the source
/// and destination shapes allow the merge; the error otherwise is that of
/// the first entry refused, in entry order.
#[verifier::loop_isolation(false)]
pub fn transfer_node(src: &Node, dest: Option<Node>, delete: bool) -> (res: Result<
    (Node, Option<Node>, TransferResult),
    TransferError,
>)
    requires
        node_wf(*src),
        opt_node_wf(dest),
        file_count(*src) <= u64::MAX,
        byte_count(*src) <= u64::MAX,
    ensures
        res is Ok <==> merge_ok(opt_node_view(dest), *src),
        (res matches Ok(o) ==> {
            &&& node_view(o.0) == merged(opt_node_view(dest), *src)
            &&& node_wf(o.0)
            &&& (delete ==> opt_node_view(o.1) == residue(*src) && opt_node_wf(o.1))
            &&& (!delete ==> (o.1 matches Some(rem) && node_view(rem) == node_view(*src)
                && node_wf(rem)))
            &&& o.2.files_processed as nat == file_count(*src)
            &&& o.2.bytes_processed as nat == byte_count(*src)
        }),
        (res matches Err(e) ==> e == merge_err(opt_node_view(dest), *src)),
    decreases *src,
{
    let ghost dest_t = opt_node_view(dest);
    match src {
        Node::Special => Err(TransferError::UnsupportedSourceType),
        Node::File { data } => {
            let dest_clear = match &dest {
                Option::None => true,
                Option::Some(Node::File { .. }) => true,
                Option::Some(_) => false,
            };
            if !dest_clear {
                return Err(TransferError::IoFailure);
            }
            let placed = Node::File { data: clone_bytes(data) };
            let remaining = if delete {
                None
            } else {
                Some(Node::File { data: clone_bytes(data) })
            };
            let bytes: u64 = data.len() as u64;
            Ok((placed, remaining, TransferResult { files_processed: 1, bytes_processed: bytes }))
        },
        Node::Dir { entries } => {
            let mut out: Vec<(String, Node)> = match dest {
                Option::None => Vec::new(),
                Option::Some(Node::Dir { entries: dest_entries }) => dest_entries,
                Option::Some(_) => {
                    return Err(TransferError::InvalidDestination);
                },
            };
            let ghost m = dest_entries_map(dest_t);
            let ghost s = entries@;
            proof {
                assert(entries_view(out@) == m);
            }
            let mut rem: Vec<(String, Node)> = Vec::new();
            let mut files: u64 = 0;
            let mut bytes: u64 = 0;
            let mut i: usize = 0;
            while i < entries.len()
                invariant
                    i <= s.len(),
                    entries_view(out@) == merged_entries(m, s, i as int),
                    unique_names(out@),
                    forall|a: int| 0 <= a < out@.len() ==> node_wf(#[trigger] out@[a].1),
                    entries_merge_ok(m, s, i as int),
                    files as nat == entries_file_count(s, i as int),
                    bytes as nat == entries_byte_count(s, i as int),
                    delete ==> entries_view(rem@) == residue_entries(s, i as int),
                    delete ==> unique_names(rem@),
                    delete ==> forall|a: int| 0 <= a < rem@.len() ==> node_wf(#[trigger] rem@[a].1),
                    delete ==> forall|a: int, j: int|
                        #![trigger rem@[a].0@, s[j].0@]
                        0 <= a < rem@.len() && i <= j < s.len() ==> rem@[a].0@ != s[j].0@,
                decreases s.len() - i,
            {
                let pair = &entries[i];
                proof {
                    lemma_entries_file_count_mono(s, i + 1 as int, s.len() as int);
                    lemma_entries_byte_count_mono(s, i + 1 as int, s.len() as int);
                }
                match &pair.1 {
                    Node::Special => {
                        proof {
                            assert(byte_count(s[i as int].1) == 0);
                            assert(entries_byte_count(s, i as int + 1) == entries_byte_count(
                                s,
                                i as int,
                            ) + byte_count(s[i as int].1));
                        }
                        if delete {
                            let ghost rem0 = rem@;
                            rem.push((pair.0.clone(), Node::Special));
                            proof {
                                lemma_entries_view_upto_push(
                                    rem0,
                                    rem@[rem0.len() as int],
                                    rem0.len() as int,
                                );
                                assert(rem@ == rem0.push(rem@[rem0.len() as int]));
                                assert(rem@[rem0.len() as int].0@ == s[i as int].0@);
                                assert(rem@[rem0.len() as int].1 == Node::Special);
                                assert(residue(s[i as int].1) == Option::Some(Tree::Special));
                                assert(residue_entries(s, i as int + 1) == residue_entries(
                                    s,
                                    i as int,
                                ).insert(s[i as int].0@, Tree::Special));
                                assert(entries_view_upto(rem@, rem0.len() as int)
                                    == entries_view_upto(rem0, rem0.len() as int));
                                assert(entries_view(rem@) == entries_view_upto(
                                    rem@,
                                    rem0.len() as int,
                                ).insert(
                                    rem@[rem0.len() as int].0@,
                                    node_view(rem@[rem0.len() as int].1),
                                ));
                                assert(entries_view(rem@) == residue_entries(s, i as int + 1));
                            }
                        }
                    },
                    _ => {
                        let idx_opt = find_entry(&out, &pair.0);
                        let existing: Option<Node> = match idx_opt {
                            Some(idx) => Some(clone_node(&out[idx].1)),
                            None => None,
                        };
                        proof {
                            match idx_opt {
                                Some(idx) => {
                                    lemma_entries_view_lookup_hit(
                                        out@,
                                        idx as int,
                                        out@.len() as int,
                                    );
                                },
                                None => {
                                    lemma_entries_view_lookup_miss(
                                        out@,
                                        pair.0@,
                                        out@.len() as int,
                                    );
                                },
                            }
                            lemma_merged_entries_lookup_untouched(m, s, i as int, s[i as int].0@);
                            assert(opt_node_view(existing) == dir_lookup(m, s[i as int].0@));
                        }
                        let sub = transfer_node(&pair.1, existing, delete);
                        match sub {
                            Err(e) => {
                                proof {
                                    assert(!entries_merge_ok(m, s, i + 1 as int));
                                    if entries_merge_ok(m, s, s.len() as int) {
                                        lemma_entries_merge_ok_mono(
                                            m,
                                            s,
                                            i + 1 as int,
                                            s.len() as int,
                                        );
                                    }
                                    lemma_entries_merge_err_stable(
                                        m,
                                        s,
                                        i + 1 as int,
                                        s.len() as int,
                                    );
                                }
                                return Err(e);
                            },
                            Ok(sub_out) => {
                                let (placed_child, child_rem, child_tr) = sub_out;
                                proof {
                                    assert(child_tr.bytes_processed as nat == byte_count(
                                        s[i as int].1,
                                    ));
                                    assert(entries_byte_count(s, i as int + 1) == entries_byte_count(
                                        s,
                                        i as int,
                                    ) + byte_count(s[i as int].1));
                                }
                                files = files + child_tr.files_processed;
                                bytes = bytes + child_tr.bytes_processed;
                                let new_pair = (pair.0.clone(), placed_child);
                                match idx_opt {
                                    Some(idx) => {
                                        let ghost out0 = out@;
                                        out[idx] = new_pair;
                                        proof {
                                            lemma_entries_view_upto_update(
                                                out0,
                                                idx as int,
                                                out0[idx as int],
                                                out0.len() as int,
                                            );
                                            assert(out@ == out0.update(idx as int, out@[idx as int]));
                                            lemma_entries_view_upto_update(
                                                out0,
                                                idx as int,
                                                out@[idx as int],
                                                out0.len() as int,
                                            );
                                            assert(unique_names(out@));
                                        }
                                    },
                                    None => {
                                        let ghost out0 = out@;
                                        out.push(new_pair);
                                        proof {
                                            lemma_entries_view_upto_push(
                                                out0,
                                                out@[out0.len() as int],
                                                out0.len() as int,
                                            );
                                        }
                                    },
                                }
                                if delete {
                                    match child_rem {
                                        Some(r) => {
                                            let ghost rem0 = rem@;
                                            rem.push((pair.0.clone(), r));
                                            proof {
                                                lemma_entries_view_upto_push(
                                                    rem0,
                                                    rem@[rem0.len() as int],
                                                    rem0.len() as int,
                                                );
                                                assert(entries_view(rem@) == residue_entries(
                                                    s,
                                                    i as int + 1,
                                                ));
                                            }
                                        },
                                        None => {
                                            proof {
                                                assert(entries_view(rem@) == residue_entries(
                                                    s,
                                                    i as int + 1,
                                                ));
                                            }
                                        },
                                    }
                                }
                            },
                        }
                    },
                }
                i = i + 1;
            }
            let placed = Node::Dir { entries: out };
            let remaining: Option<Node> = if delete {
                if rem.len() == 0 {
                    proof {
                        assert(residue_entries(s, s.len() as int) == Map::<Seq<char>, Tree>::empty());
                    }
                    None
                } else {
                    proof {
                        let last = rem@.len() - 1;
                        assert(entries_view(rem@).dom().contains(rem@[last].0@));
                        assert(!Map::<Seq<char>, Tree>::empty().dom().contains(rem@[last].0@));
                    }
                    Some(Node::Dir { entries: rem })
                }
            } else {
                Some(clone_node(src))
            };
            Ok((
                placed,
                remaining,
                TransferResult { files_processed: files, bytes_processed: bytes },
            ))
        },
    }
}

/// A refused merge never reports a missing source; that error belongs to
/// the path level alone.
proof fn lemma_merge_err_not_notfound(dest: Option<Tree>, src: Node)
    ensures
        merge_err(dest, src) != TransferError::NotFound,
    decreases src, 1int,
{
    match src {
        Node::Dir { entries } => {
            lemma_entries_merge_err_not_notfound(
                dest_entries_map(dest),
                entries@,
                entries@.len() as int,
            );
        },
        _ => {},
    }
}

/// As `lemma_merge_err_not_notfound`, for an entry list.
proof fn lemma_entries_merge_err_not_notfound(
    m: Map<Seq<char>, Tree>,
    s: Seq<(String, Node)>,
    k: int,
)
    ensures
        entries_merge_err(m, s, k) != TransferError::NotFound,
    decreases s, k,
{
    if 0 < k <= s.len() {
        if !entries_merge_ok(m, s, k - 1) {
            lemma_entries_merge_err_not_notfound(m, s, k - 1);
        } else {
            lemma_merge_err_not_notfound(dir_lookup(m, s[k - 1].0@), s[k - 1].1);
        }
    }
}

/// Whether the whole request goes through, once the source is known to
/// exist: a file aimed at an existing directory lands inside it under
/// `name`; everything else is carried onto the destination itself.
pub open spec fn request_ok(src: Node, name: Seq<char>, dest: Option<Tree>) -> bool {
    match (src, dest) {
        (Node::File { data }, Option::Some(Tree::Dir { entries })) => merge_ok(
            dir_lookup(entries, name),
            Node::File { data },
        ),
        (other, d) => merge_ok(d, other),
    }
}

/// The tree at the destination path after a successful request.
pub open spec fn request_placed(src: Node, name: Seq<char>, dest: Option<Tree>) -> Tree {
    match (src, dest) {
        (Node::File { data }, Option::Some(Tree::Dir { entries })) => Tree::Dir {
            entries: entries.insert(
                name,
                merged(dir_lookup(entries, name), Node::File { data }),
            ),
        },
        (other, d) => merged(d, other),
    }
}

/// The error a refused request reports, once the source is known to
/// exist.
pub open spec fn request_err(src: Node, name: Seq<char>, dest: Option<Tree>) -> TransferError {
    match (src, dest) {
        (Node::File { data }, Option::Some(Tree::Dir { entries })) => merge_err(
            dir_lookup(entries, name),
            Node::File { data },
        ),
        (other, d) => merge_err(d, other),
    }
}

/// One transfer request: carry what stands at the source path (`source`,
/// `None` when the path holds nothing; `source_name` its base name) onto
/// the destination path, copying, or moving when `delete` is set.
///
/// A missing source is refused with `NotFound` and nothing is touched.  A
/// regular file aimed at an existing directory lands inside it under the
/// source's own name; in every other case the destination path itself is
/// the target.
#[verifier::loop_isolation(false)]
pub fn transfer(source: Option<&Node>, source_name: &String, dest: Option<Node>, delete: bool) -> (res:
    Result<(Node, Option<Node>, TransferResult), TransferError>)
    requires
        (source matches Some(src) ==> node_wf(*src) && file_count(*src) <= u64::MAX && byte_count(
            *src,
        ) <= u64::MAX),
        opt_node_wf(dest),
    ensures
        (source is None <==> res == Err::<(Node, Option<Node>, TransferResult), TransferError>(
            TransferError::NotFound,
        )),
        (source matches Some(src) ==> {
            &&& (res is Ok <==> request_ok(*src, source_name@, opt_node_view(dest)))
            &&& (res matches Ok(o) ==> {
                &&& node_view(o.0) == request_placed(*src, source_name@, opt_node_view(dest))
                &&& node_wf(o.0)
                &&& (delete ==> opt_node_view(o.1) == residue(*src) && opt_node_wf(o.1))
                &&& (!delete ==> (o.1 matches Some(rem) && node_view(rem) == node_view(*src)
                    && node_wf(rem)))
                &&& o.2.files_processed as nat == file_count(*src)
                &&& o.2.bytes_processed as nat == byte_count(*src)
            })
            &&& (res matches Err(e) ==> e == request_err(*src, source_name@, opt_node_view(dest)))
        }),
{
    let ghost dest_t = opt_node_view(dest);
    let src = match source {
        None => {
            return Err(TransferError::NotFound);
        },
        Some(src) => src,
    };
    let src_is_file = match src {
        Node::File { .. } => true,
        _ => false,
    };
    let dest_is_dir = match &dest {
        Option::Some(Node::Dir { .. }) => true,
        _ => false,
    };
    if src_is_file && dest_is_dir {
        let dest_entries = match dest {
            Option::Some(Node::Dir { entries }) => entries,
            _ => {
                return Err(TransferError::IoFailure);  // unreachable: dest_is_dir
            },
        };
        let ghost m = dest_entries_map(dest_t);
        proof {
            assert(entries_view(dest_entries@) == m);
        }
        let idx_opt = find_entry(&dest_entries, source_name);
        let existing: Option<Node> = match idx_opt {
            Some(idx) => Some(clone_node(&dest_entries[idx].1)),
            None => None,
        };
        proof {
            match idx_opt {
                Some(idx) => {
                    lemma_entries_view_lookup_hit(dest_entries@, idx as int, dest_entries@.len() as int);
                },
                None => {
                    lemma_entries_view_lookup_miss(dest_entries@, source_name@, dest_entries@.len() as int);
                },
            }
            assert(opt_node_view(existing) == dir_lookup(m, source_name@));
        }
        match transfer_node(src, existing, delete) {
            Err(e) => {
                proof {
                    lemma_merge_err_not_notfound(dir_lookup(m, source_name@), *src);
                }
                Err(e)
            },
            Ok(sub_out) => {
                let (placed_file, remaining, tr) = sub_out;
                let mut out = dest_entries;
                match idx_opt {
                    Some(idx) => {
                        let ghost out0 = out@;
                        out[idx] = (source_name.clone(), placed_file);
                        proof {
                            lemma_entries_view_upto_update(
                                out0,
                                idx as int,
                                out@[idx as int],
                                out0.len() as int,
                            );
                            assert(entries_view(out@) == m.insert(
                                source_name@,
                                merged(dir_lookup(m, source_name@), *src),
                            ));
                        }
                    },
                    None => {
                        let ghost out0 = out@;
                        out.push((source_name.clone(), placed_file));
                        proof {
                            lemma_entries_view_upto_push(
                                out0,
                                out@[out0.len() as int],
                                out0.len() as int,
                            );
                            assert(entries_view(out@) == m.insert(
                                source_name@,
                                merged(dir_lookup(m, source_name@), *src),
                            ));
                        }
                    },
                }
                Ok((Node::Dir { entries: out }, remaining, tr))
            },
        }
    } else {
        let r = transfer_node(src, dest, delete);
        proof {
            lemma_merge_err_not_notfound(dest_t, *src);
        }
        r
    }
}

} // verus!
