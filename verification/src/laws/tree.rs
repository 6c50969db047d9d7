//! The inode list of a source tree.
use crate::inode;
use crate::names;
use crate::tree;
use crate::tree::{SourceContent, SourceEntry, SourceKind, SourceNode};
use vstd::prelude::*;

verus! {

// ---------------------------------------------------------------------------
// Names
// ---------------------------------------------------------------------------

/// Two names agree in their first `k` bytes.
proof fn lemma_order_from(a: Seq<u8>, b: Seq<u8>, i: nat)
    requires
        i <= a.len(),
        i <= b.len(),
        forall|j: int| 0 <= j < i ==> a[j] == b[j],
    ensures
        names::name_le_from(a, b, i) <==> exists|k: int|
            0 <= k <= a.len() && k <= b.len() && #[trigger] a.take(k) == b.take(k) && (k == a.len()
                || (k < b.len() && a[k] < b[k])),
    decreases a.len() - i,
{
    let k = i as int;
    assert(a.take(k) =~= b.take(k));
    if i < a.len() && i < b.len() && a[k] == b[k] {
        lemma_order_from(a, b, i + 1);
    } else if i < a.len() && (i >= b.len() || a[k] > b[k]) {
        assert forall|l: int|
            !(0 <= l <= a.len() && l <= b.len() && #[trigger] a.take(l) == b.take(l) && (l
                == a.len() || (l < b.len() && a[l] < b[l]))) by {
            if 0 <= l <= a.len() && l <= b.len() && a.take(l) == b.take(l) {
                if l < k {
                    assert(a[l] == b[l]);
                } else if l > k {
                    assert(a.take(l)[k] == b.take(l)[k]);
                }
            }
        }
    }
}

/// A name is not after another one exactly if it is a start of it, or has the
/// smaller byte where they first differ.
pub proof fn law_names_are_ordered_by_bytes(a: Seq<u8>, b: Seq<u8>)
    ensures
        names::name_le(a, b) <==> exists|k: int|
            0 <= k <= a.len() && k <= b.len() && #[trigger] a.take(k) == b.take(k) && (k == a.len()
                || (k < b.len() && a[k] < b[k])),
{
    lemma_order_from(a, b, 0);
}

/// A list without repetition of `n` numbers below `n` has them all.
proof fn lemma_all_listed(order: Seq<usize>, n: nat, e: int)
    requires
        order.len() == n,
        order.no_duplicates(),
        forall|i: int| 0 <= i < n ==> 0 <= #[trigger] order[i] < n,
        0 <= e < n,
    ensures
        exists|k: int| 0 <= k < n && #[trigger] order[k] == e,
{
    let ints = Seq::new(n, |i: int| order[i] as int);
    let below = vstd::set_lib::set_int_range(0, n as int);
    assert(ints.no_duplicates());
    ints.unique_seq_to_set();
    vstd::set_lib::lemma_int_range(0, n as int);
    assert(ints.to_set().subset_of(below)) by {
        assert forall|x: int| ints.to_set().contains(x) implies below.contains(x) by {
            let i = choose|i: int| 0 <= i < ints.len() && ints[i] == x;
            assert(0 <= order[i] < n);
        }
    }
    vstd::set_lib::lemma_subset_equality(ints.to_set(), below);
    assert(below.contains(e));
    let k = choose|k: int| 0 <= k < ints.len() && ints[k] == e;
    assert(order[k] == e);
}

/// The entries of a directory are taken each once, in the byte order of their
/// names.
pub proof fn law_entries_are_taken_in_byte_order(entries: Vec<SourceEntry>, k: int, l: int)
    ensures
        ({
            let order = tree::entry_order(entries@);
            &&& order.len() == entries@.len()
            &&& 0 <= k < l < order.len() ==> {
                let a = entries@[order[k] as int].file_name@;
                let b = entries@[order[l] as int].file_name@;
                &&& order[k] != order[l]
                &&& order[k] < entries@.len() && order[l] < entries@.len()
                &&& exists|j: int|
                    0 <= j <= a.len() && j <= b.len() && #[trigger] a.take(j) == b.take(j) && (j
                        == a.len() || (j < b.len() && a[j] < b[j]))
            }
            &&& 0 <= k < order.len() ==> exists|j: int|
                0 <= j < order.len() && #[trigger] order[j] == k
        }),
{
    let order = tree::entry_order(entries@);
    assert(entries.len() <= usize::MAX);
    names::law_sorted_order(tree::file_names(entries@));
    if 0 <= k < l < order.len() {
        let a = entries@[order[k] as int].file_name@;
        let b = entries@[order[l] as int].file_name@;
        assert(0 <= order[k] < entries@.len() && 0 <= order[l] < entries@.len());
        assert(names::name_le(a, b));
        law_names_are_ordered_by_bytes(a, b);
    }
    if 0 <= k < order.len() {
        lemma_all_listed(order, entries@.len(), k);
    }
}

// ---------------------------------------------------------------------------
// Inodes
// ---------------------------------------------------------------------------

/// The kind of a source file depends on the file type bits of its mode alone.
pub proof fn law_kinds_of_files(mode: u32)
    ensures
        mode / 4096 % 16 == 4 <==> tree::kind_of(mode) == SourceKind::Directory,
        mode / 4096 % 16 == 8 <==> tree::kind_of(mode) == SourceKind::File,
        mode / 4096 % 16 == 10 <==> tree::kind_of(mode) == SourceKind::Symlink,
{
    assert(mode & 0o170000 == mode / 4096 % 16 * 4096) by (bit_vector);
}

/// An inode has the attributes of the file that it is made from: the low 16
/// bits of the mode, owner, group, time, the low 32 bits of the link count, the
/// whole size of a regular file, the target of a symbolic link with its length,
/// the number of a device; and it needs the extended format exactly if its size,
/// owner, group or link count do not fit into the compact one.
proof fn lemma_attributes(m: inode::InodeModel, node: SourceNode)
    requires
        made_from(m, node),
    ensures
        m.mode == node.meta.mode % 0x1_0000,
        m.uid == node.meta.uid,
        m.gid == node.meta.gid,
        node.meta.mtime >= 0 ==> m.mtime == node.meta.mtime,
        node.meta.mtime < 0 ==> m.mtime == node.meta.mtime + 0x1_0000_0000_0000_0000,
        0 <= node.meta.mtime_nsec < 0x1_0000_0000 ==> m.mtime_nsec == node.meta.mtime_nsec,
        m.nlink == node.meta.nlink % 0x1_0000_0000,
        m.is_extended <==> node.meta.size >= 0x1_0000_0000 || node.meta.uid >= 0x1_0000
            || node.meta.gid >= 0x1_0000 || node.meta.nlink % 0x1_0000_0000 >= 2,
        match node.content {
            SourceContent::Directory { .. } => m.data is Directory && m.size == 0,
            SourceContent::File { .. } => m.data == (inode::DataModel::RegularFile {
                chunk_indexes: Seq::empty(),
            }) && m.size == node.meta.size,
            SourceContent::Symlink { target } => m.data == (inode::DataModel::Symlink {
                target: target@,
            }) && (target@.len() <= u64::MAX ==> m.size == target@.len()),
            SourceContent::Special => m.size == 0 && m.data == (if node.meta.mode / 4096 % 16 == 2
                || node.meta.mode / 4096 % 16 == 6 {
                inode::DataModel::SpecialDev { rdev: (node.meta.rdev % 0x1_0000_0000) as u32 }
            } else {
                inode::DataModel::SpecialNoData
            }),
        },
{
    let t: i64 = node.meta.mtime;
    assert(t < 0 ==> t as u64 == t + 0x1_0000_0000_0000_0000) by (bit_vector);
    let mode: u32 = node.meta.mode;
    let low: u16 = (mode % 0x1_0000) as u16;
    assert(low & 0o170000 == low / 4096 * 4096) by (bit_vector);
    assert(low / 4096 == mode / 4096 % 16);
}

/// The inode is made from the node; a directory may have its children by now.
spec fn made_from(m: inode::InodeModel, node: SourceNode) -> bool {
    &&& m == (inode::InodeModel { data: m.data, ..node.inode(m.ino) })
    &&& if node.content is Directory {
        m.data is Directory
    } else {
        m.data == node.inode(m.ino).data
    }
}

/// Inode `i` is made from the entry of a reference to it from an inode before it.
spec fn inode_made(st: tree::TreeState, refs: Seq<tree::Reference>, i: int) -> bool {
    exists|j: int|
        0 <= j < refs.len() && (#[trigger] refs[j]).idx == i && refs[j].dir < i && made_from(
            st.inodes[i],
            refs[j].entry.node,
        )
}

/// The file to write is the entry of a reference to its inode.
spec fn job_made(refs: Seq<tree::Reference>, job: tree::FileJob) -> bool {
    exists|j: int|
        0 <= j < refs.len() && (#[trigger] refs[j]).idx == job.inode_idx
            && refs[j].entry.node.content == (SourceContent::File { source: job.source })
            && refs[j].entry.node.meta.size == job.size
}

/// Every inode but the first and every file to write is made from an entry.
spec fn all_made(st: tree::TreeState, refs: Seq<tree::Reference>) -> bool {
    &&& forall|i: int| 0 < i < st.inodes.len() ==> #[trigger] inode_made(st, refs, i)
    &&& forall|f: int| 0 <= f < st.files.len() ==> job_made(refs, #[trigger] st.files[f])
}

proof fn lemma_made_added(
    st: tree::TreeState,
    refs: Seq<tree::Reference>,
    entry: SourceEntry,
    dir: int,
    pos: int,
    after: tree::TreeState,
)
    requires
        all_made(st, refs),
        0 < st.inodes.len() <= usize::MAX,
        0 <= dir < st.inodes.len(),
        after == (if st.knows(entry.node) {
            st
        } else {
            st.enter(entry.node).register(entry.node, st.inodes.len() as int)
        }),
    ensures
        all_made(
            after,
            refs.push(tree::Reference { entry, dir, pos, idx: st.index_for(entry.node) }),
        ),
{
    let new = tree::Reference { entry, dir, pos, idx: st.index_for(entry.node) };
    let all = refs.push(new);
    let len = st.inodes.len() as int;
    assert(len as usize == len);
    assert forall|i: int| 0 < i < after.inodes.len() implies #[trigger] inode_made(
        after,
        all,
        i,
    ) by {
        if i < len {
            assert(inode_made(st, refs, i));
            let j = choose|j: int|
                0 <= j < refs.len() && (#[trigger] refs[j]).idx == i && refs[j].dir < i
                    && made_from(st.inodes[i], refs[j].entry.node);
            assert(after.inodes[i] == st.inodes[i]);
            assert(all[j] == refs[j]);
        } else {
            assert(all[refs.len() as int] == new);
            assert(made_from(after.inodes[i], entry.node));
        }
    }
    assert forall|f: int| 0 <= f < after.files.len() implies job_made(
        all,
        #[trigger] after.files[f],
    ) by {
        if f < st.files.len() {
            assert(after.files[f] == st.files[f]);
            assert(job_made(refs, st.files[f]));
            let k = choose|k: int|
                0 <= k < refs.len() && (#[trigger] refs[k]).idx == st.files[f].inode_idx
                    && refs[k].entry.node.content == (SourceContent::File {
                    source: st.files[f].source,
                }) && refs[k].entry.node.meta.size == st.files[f].size;
            assert(all[k] == refs[k]);
        } else {
            assert(all[refs.len() as int] == new);
        }
    }
}

proof fn lemma_made_in(
    entries: Vec<SourceEntry>,
    n: nat,
    st: tree::TreeState,
    dir: int,
    refs: Seq<tree::Reference>,
)
    requires
        n <= entries@.len(),
        st.ino == st.inodes.len(),
        tree::visit_entries(entries, n, st).ino <= u32::MAX,
        all_made(st, refs),
        0 <= dir < st.inodes.len(),
    ensures
        all_made(
            tree::visit_entries(entries, n, st),
            refs + tree::references_in(entries, n, st, dir),
        ),
    decreases entries, n,
{
    if n == 0 {
        assert(refs + tree::references_in(entries, n, st, dir) =~= refs);
    } else {
        let m = (n - 1) as nat;
        let before = tree::visit_entries(entries, m, st);
        tree::lemma_entries_extend(entries, m, n, st);
        tree::lemma_entries_extend(entries, 0, m, st);
        assert(tree::visit_entries(entries, 0, st) == st);
        lemma_made_in(entries, m, st, dir, refs);
        assert(entries.len() <= usize::MAX);
        names::law_sorted_order(tree::file_names(entries@));
        let at = tree::entry_order(entries@)[n - 1] as int;
        assert(0 <= tree::entry_order(entries@)[n - 1] < entries@.len());
        let earlier = refs + tree::references_in(entries, m, st, dir);
        lemma_made_of(entries@[at], before, dir, n - 1, earlier);
        assert(refs + tree::references_in(entries, n, st, dir) =~= earlier + tree::references_of(
            entries@[at],
            before,
            dir,
            n - 1,
        ));
    }
}

proof fn lemma_made_of(
    entry: SourceEntry,
    st: tree::TreeState,
    dir: int,
    pos: int,
    refs: Seq<tree::Reference>,
)
    requires
        st.ino == st.inodes.len(),
        tree::visit_entry(entry, st).ino <= u32::MAX,
        all_made(st, refs),
        0 <= dir < st.inodes.len(),
    ensures
        all_made(
            tree::visit_entry(entry, st),
            refs + tree::references_of(entry, st, dir, pos),
        ),
    decreases entry, 0nat,
{
    let own = tree::Reference { entry, dir, pos, idx: st.index_for(entry.node) };
    tree::lemma_entry_extends(entry, st);
    if st.knows(entry.node) {
        lemma_made_added(st, refs, entry, dir, pos, st);
        assert(refs + tree::references_of(entry, st, dir, pos) =~= refs.push(own));
    } else {
        let idx = st.inodes.len() as int;
        let opened = st.enter(entry.node).register(entry.node, idx);
        tree::lemma_visit_extends(entry.node, st);
        lemma_made_added(st, refs, entry, dir, pos, opened);
        match entry.node.content {
            SourceContent::Directory { entries } => {
                let n = entries@.len();
                let walked = tree::visit_entries(entries, n, opened);
                let inner = tree::references(entry.node, st);
                lemma_made_in(entries, n, opened, idx, refs.push(own));
                tree::lemma_entries_extend(entries, 0, n, opened);
                assert(tree::visit_entries(entries, 0, opened) == opened);
                lemma_made_kept(
                    walked,
                    idx,
                    tree::child_entries(entries, n, opened),
                    refs.push(own) + inner,
                );
                assert(refs + tree::references_of(entry, st, dir, pos) =~= refs.push(own) + inner);
                assert(tree::visit_entry(entry, st) == walked.set_children(
                    idx,
                    tree::child_entries(entries, n, opened),
                ));
            },
            _ => {
                assert(refs + tree::references_of(entry, st, dir, pos) =~= refs.push(own));
            },
        }
    }
}

/// Setting the children of a directory leaves it made from its entry.
proof fn lemma_made_kept(
    st: tree::TreeState,
    idx: int,
    children: Seq<inode::DirEntryModel>,
    refs: Seq<tree::Reference>,
)
    requires
        0 <= idx < st.inodes.len(),
        st.inodes[idx].data is Directory,
        all_made(st, refs),
    ensures
        all_made(st.set_children(idx, children), refs),
{
    let after = st.set_children(idx, children);
    assert forall|i: int| 0 < i < after.inodes.len() implies #[trigger] inode_made(
        after,
        refs,
        i,
    ) by {
        assert(inode_made(st, refs, i));
        let j = choose|j: int|
            0 <= j < refs.len() && (#[trigger] refs[j]).idx == i && refs[j].dir < i && made_from(
                st.inodes[i],
                refs[j].entry.node,
            );
        assert(made_from(after.inodes[i], refs[j].entry.node));
    }
    assert forall|f: int| 0 <= f < after.files.len() implies job_made(
        refs,
        #[trigger] after.files[f],
    ) by {
        assert(job_made(refs, st.files[f]));
    }
}

/// Every inode of a tree but the first and every file to write is made from an
/// entry, and the first inode from the source.
proof fn lemma_tree_made(source: SourceNode)
    requires
        tree::tree_of(source).ino <= u32::MAX,
    ensures
        source.content is Directory ==> all_made(
            tree::tree_of(source),
            tree::tree_references(source),
        ),
        made_from(tree::tree_of(source).inodes[0], source),
        tree::tree_of(source).inodes[0].ino == 1,
{
    let start = tree::TreeState::start();
    let opened = start.enter(source);
    match source.content {
        SourceContent::Directory { entries } => {
            let n = entries@.len();
            let none = Seq::<tree::Reference>::empty();
            let walked = tree::visit_entries(entries, n, opened);
            let refs = tree::tree_references(source);
            tree::lemma_entries_extend(entries, 0, n, opened);
            assert(tree::visit_entries(entries, 0, opened) == opened);
            tree::lemma_visit_extends(source, start);
            lemma_made_in(entries, n, opened, 0, none);
            assert(none + tree::references_in(entries, n, opened, 0) =~= refs);
            lemma_made_kept(walked, 0, tree::child_entries(entries, n, opened), refs);
            assert(walked.inodes[0] == opened.inodes[0]);
        },
        _ => {},
    }
}

/// Every inode of the list but the first is made from an entry of the source
/// tree that refers to it from a directory before it, and has the attributes and
/// the size of that entry's file.
pub proof fn law_inodes_have_their_files_attributes(source: SourceNode, i: int) -> (j: int)
    requires
        tree::tree_of(source).ino <= u32::MAX,
        0 < i < tree::tree_of(source).inodes.len(),
    ensures
        0 <= j < tree::tree_references(source).len(),
        tree::tree_references(source)[j].idx == i,
        tree::tree_references(source)[j].dir < i,
        ({
            let m = tree::tree_of(source).inodes[i];
            let node = tree::tree_references(source)[j].entry.node;
            &&& m.mode == node.meta.mode % 0x1_0000
            &&& m.uid == node.meta.uid
            &&& m.gid == node.meta.gid
            &&& node.meta.mtime >= 0 ==> m.mtime == node.meta.mtime
            &&& node.meta.mtime < 0 ==> m.mtime == node.meta.mtime + 0x1_0000_0000_0000_0000
            &&& 0 <= node.meta.mtime_nsec < 0x1_0000_0000 ==> m.mtime_nsec == node.meta.mtime_nsec
            &&& m.nlink == node.meta.nlink % 0x1_0000_0000
            &&& m.ino == i + 1
            &&& m.is_extended <==> node.meta.size >= 0x1_0000_0000 || node.meta.uid >= 0x1_0000
                || node.meta.gid >= 0x1_0000 || node.meta.nlink % 0x1_0000_0000 >= 2
            &&& match node.content {
                SourceContent::Directory { .. } => m.data is Directory && m.size == 0,
                SourceContent::File { .. } => m.data == (inode::DataModel::RegularFile {
                    chunk_indexes: Seq::empty(),
                }) && m.size == node.meta.size,
                SourceContent::Symlink { target } => m.data == (inode::DataModel::Symlink {
                    target: target@,
                }) && (target@.len() <= u64::MAX ==> m.size == target@.len()),
                SourceContent::Special => m.size == 0 && m.data == (if node.meta.mode / 4096 % 16
                    == 2 || node.meta.mode / 4096 % 16 == 6 {
                    inode::DataModel::SpecialDev { rdev: (node.meta.rdev % 0x1_0000_0000) as u32 }
                } else {
                    inode::DataModel::SpecialNoData
                }),
            }
        }),
{
    let st = tree::tree_of(source);
    let refs = tree::tree_references(source);
    lemma_tree_made(source);
    tree::law_tree_consistent(source);
    assert(st.inodes[i].ino == i + 1);
    assert(inode_made(st, refs, i));
    let j = choose|j: int|
        0 <= j < refs.len() && (#[trigger] refs[j]).idx == i && refs[j].dir < i && made_from(
            st.inodes[i],
            refs[j].entry.node,
        );
    lemma_attributes(st.inodes[i], refs[j].entry.node);
    j
}

/// The first inode has the attributes and the size of the source itself, and the
/// inode number 1; a source that is no directory has no other inode.
pub proof fn law_root_has_the_sources_attributes(source: SourceNode)
    requires
        tree::tree_of(source).ino <= u32::MAX,
    ensures
        tree::tree_of(source).inodes.len() > 0,
        !(source.content is Directory) ==> tree::tree_of(source).inodes.len() == 1,
        ({
            let m = tree::tree_of(source).inodes[0];
            &&& m.mode == source.meta.mode % 0x1_0000
            &&& m.uid == source.meta.uid
            &&& m.gid == source.meta.gid
            &&& source.meta.mtime >= 0 ==> m.mtime == source.meta.mtime
            &&& source.meta.mtime < 0 ==> m.mtime == source.meta.mtime + 0x1_0000_0000_0000_0000
            &&& 0 <= source.meta.mtime_nsec < 0x1_0000_0000 ==> m.mtime_nsec
                == source.meta.mtime_nsec
            &&& m.nlink == source.meta.nlink % 0x1_0000_0000
            &&& m.ino == 1
            &&& m.is_extended <==> source.meta.size >= 0x1_0000_0000 || source.meta.uid >= 0x1_0000
                || source.meta.gid >= 0x1_0000 || source.meta.nlink % 0x1_0000_0000 >= 2
            &&& source.content is Directory <==> m.data is Directory
            &&& source.content is Directory ==> m.size == 0
            &&& source.content is File ==> m.size == source.meta.size
        }),
{
    tree::law_node_before_its_children(source, tree::TreeState::start());
    lemma_tree_made(source);
    lemma_attributes(tree::tree_of(source).inodes[0], source);
}

/// Every file to write is a regular file of the source tree, under the caller's
/// number for it and in its whole size, and its inode has that size.
pub proof fn law_files_are_written_whole(source: SourceNode, f: int) -> (j: int)
    requires
        tree::tree_of(source).ino <= u32::MAX,
        source.content is Directory,
        0 <= f < tree::tree_of(source).files.len(),
    ensures
        0 <= j < tree::tree_references(source).len(),
        ({
            let job = tree::tree_of(source).files[f];
            let r = tree::tree_references(source)[j];
            &&& r.idx == job.inode_idx
            &&& r.entry.node.content == (SourceContent::File { source: job.source })
            &&& job.size == r.entry.node.meta.size
            &&& tree::tree_of(source).inodes[job.inode_idx as int].size == r.entry.node.meta.size
        }),
{
    let st = tree::tree_of(source);
    let refs = tree::tree_references(source);
    lemma_tree_made(source);
    tree::law_tree_consistent(source);
    assert(job_made(refs, st.files[f]));
    choose|j: int|
        0 <= j < refs.len() && (#[trigger] refs[j]).idx == st.files[f].inode_idx
            && refs[j].entry.node.content == (SourceContent::File { source: st.files[f].source })
            && refs[j].entry.node.meta.size == st.files[f].size
}

/// Every regular file of the list is written once.
pub proof fn law_every_file_is_written_once(source: SourceNode, i: int)
    requires
        tree::tree_of(source).ino <= u32::MAX,
        0 <= i < tree::tree_of(source).inodes.len(),
        tree::tree_of(source).inodes[i].data is RegularFile,
    ensures
        exists|f: int|
            0 <= f < tree::tree_of(source).files.len() && (#[trigger] tree::tree_of(
                source,
            ).files[f]).inode_idx == i,
        forall|f: int, g: int|
            #![trigger tree::tree_of(source).files[f], tree::tree_of(source).files[g]]
            0 <= f < tree::tree_of(source).files.len() && 0 <= g < tree::tree_of(
                source,
            ).files.len() && tree::tree_of(source).files[f].inode_idx == i && tree::tree_of(
                source,
            ).files[g].inode_idx == i ==> f == g,
{
    tree::law_tree_consistent(source);
    let st = tree::tree_of(source);
    assert(st.inodes[i].data is RegularFile);
}

/// A child in the list has its entry's name as text, the type of its entry's
/// mode, and the inode that its entry refers to.
pub proof fn law_children_have_their_entries_names(source: SourceNode, j: int)
    requires
        0 <= j < tree::tree_references(source).len(),
    ensures
        ({
            let r = tree::tree_references(source)[j];
            let st = tree::tree_of(source);
            &&& 0 <= r.dir < st.inodes.len()
            &&& st.inodes[r.dir].data is Directory
            &&& 0 <= r.pos < st.inodes[r.dir].data->children.len()
            &&& st.inodes[r.dir].data->children[r.pos].name == tree::lossy_text(
                r.entry.file_name@,
            )
            &&& st.inodes[r.dir].data->children[r.pos].inode_idx == r.idx
            &&& st.inodes[r.dir].data->children[r.pos].file_type == inode::file_type_of(
                (r.entry.node.meta.mode % 0x1_0000) as u16,
            )
        }),
{
    tree::law_references_are_children(source);
    assert(tree::reference_stands(tree::tree_of(source), tree::tree_references(source)[j]));
}

/// A directory has one child for each of its entries, in the byte order of their
/// names, each with its entry's name as text and the type of its entry's mode.
pub proof fn law_children_are_the_entries_in_order(
    node: SourceNode,
    st: tree::TreeState,
    k: int,
    l: int,
)
    requires
        node.content is Directory,
        0 <= k < l < node.content->entries@.len(),
    ensures
        ({
            let entries = node.content->entries@;
            let m = tree::visit(node, st).inodes[st.inodes.len() as int];
            let children = m.data->children;
            let order = tree::entry_order(entries);
            let a = entries[order[k] as int].file_name@;
            let b = entries[order[l] as int].file_name@;
            &&& m.data is Directory
            &&& children.len() == entries.len()
            &&& order[k] != order[l]
            &&& order[k] < entries.len() && order[l] < entries.len()
            &&& children[k].name == tree::lossy_text(a)
            &&& children[l].name == tree::lossy_text(b)
            &&& children[k].file_type == inode::file_type_of(
                (entries[order[k] as int].node.meta.mode % 0x1_0000) as u16,
            )
            &&& exists|j: int|
                0 <= j <= a.len() && j <= b.len() && #[trigger] a.take(j) == b.take(j) && (j
                    == a.len() || (j < b.len() && a[j] < b[j]))
        }),
{
    if let SourceContent::Directory { entries } = node.content {
        let n = entries@.len();
        tree::lemma_entries_extend(entries, 0, n, st.enter(node));
        assert(tree::visit_entries(entries, 0, st.enter(node)) == st.enter(node));
        tree::law_children_sorted(entries, n, st.enter(node));
        law_entries_are_taken_in_byte_order(entries, k, l);
        let children = tree::child_entries(entries, n, st.enter(node));
        let walked = tree::visit_entries(entries, n, st.enter(node));
        let idx = st.inodes.len() as int;
        let out = tree::visit(node, st);
        assert(out == walked.set_children(idx, children));
        assert(idx < walked.inodes.len());
        assert(out.inodes[idx].data->children == children);
        assert(children[k].name == tree::lossy_text(
            entries@[tree::entry_order(entries@)[k] as int].file_name@,
        ));
        assert(children[l].name == tree::lossy_text(
            entries@[tree::entry_order(entries@)[l] as int].file_name@,
        ));
    }
}

// ---------------------------------------------------------------------------
// Nothing is left out
// ---------------------------------------------------------------------------

/// Some reference is that of the entry in the directory inode `dir`.
pub open spec fn entry_listed(
    refs: Seq<tree::Reference>,
    entry: SourceEntry,
    dir: int,
) -> bool {
    exists|k: int| 0 <= k < refs.len() && (#[trigger] refs[k]).entry == entry && refs[k].dir == dir
}

/// Every entry of a directory is listed in the directory inode `dir`.
pub open spec fn all_listed(refs: Seq<tree::Reference>, node: SourceNode, dir: int) -> bool {
    node.content matches SourceContent::Directory { entries } ==> forall|e: int|
        0 <= e < entries@.len() ==> entry_listed(refs, #[trigger] entries@[e], dir)
}

/// Every directory among the references has all its entries among them.
spec fn inner_listed(refs: Seq<tree::Reference>) -> bool {
    forall|j: int|
        0 <= j < refs.len() ==> all_listed(refs, (#[trigger] refs[j]).entry.node, refs[j].idx)
}

proof fn lemma_entry_listed(
    a: Seq<tree::Reference>,
    b: Seq<tree::Reference>,
    entry: SourceEntry,
    dir: int,
)
    requires
        entry_listed(a, entry, dir) || entry_listed(b, entry, dir),
    ensures
        entry_listed(a + b, entry, dir),
{
    if entry_listed(a, entry, dir) {
        let k = choose|k: int|
            0 <= k < a.len() && (#[trigger] a[k]).entry == entry && a[k].dir == dir;
        assert((a + b)[k] == a[k]);
    } else {
        let k = choose|k: int|
            0 <= k < b.len() && (#[trigger] b[k]).entry == entry && b[k].dir == dir;
        assert((a + b)[a.len() + k] == b[k]);
    }
}

proof fn lemma_all_listed_more(
    a: Seq<tree::Reference>,
    b: Seq<tree::Reference>,
    node: SourceNode,
    dir: int,
)
    requires
        all_listed(a, node, dir) || all_listed(b, node, dir),
    ensures
        all_listed(a + b, node, dir),
{
    if let SourceContent::Directory { entries } = node.content {
        assert forall|e: int| 0 <= e < entries@.len() implies entry_listed(
            a + b,
            #[trigger] entries@[e],
            dir,
        ) by {
            lemma_entry_listed(a, b, entries@[e], dir);
        }
    }
}

proof fn lemma_inner_listed(a: Seq<tree::Reference>, b: Seq<tree::Reference>)
    requires
        inner_listed(a),
        inner_listed(b),
    ensures
        inner_listed(a + b),
{
    assert forall|j: int| 0 <= j < (a + b).len() implies all_listed(
        a + b,
        (#[trigger] (a + b)[j]).entry.node,
        (a + b)[j].idx,
    ) by {
        if j < a.len() {
            assert(all_listed(a, a[j].entry.node, a[j].idx));
            lemma_all_listed_more(a, b, a[j].entry.node, a[j].idx);
        } else {
            let k = j - a.len();
            assert(all_listed(b, b[k].entry.node, b[k].idx));
            lemma_all_listed_more(a, b, b[k].entry.node, b[k].idx);
        }
    }
}

proof fn lemma_visit_listed(node: SourceNode, st: tree::TreeState)
    ensures
        all_listed(tree::references(node, st), node, st.inodes.len() as int),
        inner_listed(tree::references(node, st)),
    decreases node, 0nat,
{
    if let SourceContent::Directory { entries } = node.content {
        let n = entries@.len();
        let refs = tree::references(node, st);
        let dir = st.inodes.len() as int;
        lemma_entries_listed(entries, n, st.enter(node), dir);
        assert(refs == tree::references_in(entries, n, st.enter(node), dir));
        assert forall|e: int| 0 <= e < n implies entry_listed(refs, #[trigger] entries@[e], dir) by {
            law_entries_are_taken_in_byte_order(entries, e, e);
            let k = choose|k: int|
                0 <= k < n && #[trigger] tree::entry_order(entries@)[k] == e;
            assert(entry_listed(refs, entries@[tree::entry_order(entries@)[k] as int], dir));
        }
    }
}

proof fn lemma_entries_listed(
    entries: Vec<SourceEntry>,
    n: nat,
    st: tree::TreeState,
    dir: int,
)
    requires
        n <= entries@.len(),
    ensures
        forall|k: int|
            0 <= k < n ==> entry_listed(
                tree::references_in(entries, n, st, dir),
                entries@[#[trigger] tree::entry_order(entries@)[k] as int],
                dir,
            ),
        inner_listed(tree::references_in(entries, n, st, dir)),
    decreases entries, n,
{
    if n > 0 {
        let m = (n - 1) as nat;
        let order = tree::entry_order(entries@);
        let before = tree::visit_entries(entries, m, st);
        assert(entries.len() <= usize::MAX);
        names::law_sorted_order(tree::file_names(entries@));
        let at = order[n - 1] as int;
        assert(0 <= order[n - 1] < entries@.len());
        let had = tree::references_in(entries, m, st, dir);
        let more = tree::references_of(entries@[at], before, dir, n - 1);
        lemma_entries_listed(entries, m, st, dir);
        lemma_one_listed(entries@[at], before, dir, n - 1);
        lemma_inner_listed(had, more);
        assert(tree::references_in(entries, n, st, dir) == had + more);
        assert forall|k: int| 0 <= k < n implies entry_listed(
            had + more,
            entries@[#[trigger] order[k] as int],
            dir,
        ) by {
            lemma_entry_listed(had, more, entries@[order[k] as int], dir);
        }
    }
}

proof fn lemma_one_listed(entry: SourceEntry, st: tree::TreeState, dir: int, pos: int)
    ensures
        entry_listed(tree::references_of(entry, st, dir, pos), entry, dir),
        inner_listed(tree::references_of(entry, st, dir, pos)),
    decreases entry, 0nat,
{
    let refs = tree::references_of(entry, st, dir, pos);
    let own = seq![tree::Reference { entry, dir, pos, idx: st.index_for(entry.node) }];
    assert(refs[0].entry == entry && refs[0].dir == dir);
    if !st.knows(entry.node) {
        let inner = tree::references(entry.node, st);
        lemma_visit_listed(entry.node, st);
        assert(refs == own + inner);
        assert forall|j: int| 0 <= j < refs.len() implies all_listed(
            refs,
            (#[trigger] refs[j]).entry.node,
            refs[j].idx,
        ) by {
            if j == 0 {
                lemma_all_listed_more(own, inner, entry.node, st.inodes.len() as int);
            } else {
                assert(refs[j] == inner[j - 1]);
                assert(all_listed(inner, inner[j - 1].entry.node, inner[j - 1].idx));
                lemma_all_listed_more(own, inner, inner[j - 1].entry.node, inner[j - 1].idx);
            }
        }
    } else {
        assert(refs == own);
    }
}

/// Nothing of a source tree is left out: every entry of the source directory
/// stands in the first inode, and every entry of a directory that an entry
/// refers to stands in the inode that it refers to.
pub proof fn law_no_entry_is_left_out(source: SourceNode, j: int, e: int)
    ensures
        ({
            let refs = tree::tree_references(source);
            &&& source.content matches SourceContent::Directory { entries } ==> 0 <= e
                < entries@.len() ==> exists|k: int|
                0 <= k < refs.len() && (#[trigger] refs[k]).entry == entries@[e] && refs[k].dir == 0
            &&& 0 <= j < refs.len() ==> (refs[j].entry.node.content matches SourceContent::Directory {
                entries,
            } ==> 0 <= e < entries@.len() ==> exists|k: int|
                0 <= k < refs.len() && (#[trigger] refs[k]).entry == entries@[e] && refs[k].dir
                    == refs[j].idx)
        }),
{
    let refs = tree::tree_references(source);
    lemma_visit_listed(source, tree::TreeState::start());
    if let SourceContent::Directory { entries } = source.content {
        if 0 <= e < entries@.len() {
            assert(entry_listed(refs, entries@[e], 0));
        }
    }
    if 0 <= j < refs.len() {
        assert(all_listed(refs, refs[j].entry.node, refs[j].idx));
        if let SourceContent::Directory { entries } = refs[j].entry.node.content {
            if 0 <= e < entries@.len() {
                assert(entry_listed(refs, entries@[e], refs[j].idx));
            }
        }
    }
}

} // verus!
