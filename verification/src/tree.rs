//! Building the flat inode list of a source tree.
use crate::blobchunk::ChunkIndex;
use crate::bytes;
use crate::inode;
use crate::inode::{mode_to_file_type, DirEntry, InodeData, InodeInfo};
use crate::names;
use std::collections::HashMap;
use vstd::prelude::*;

verus! {

/// What `lstat` says of a source file.
#[derive(Clone, Copy, PartialEq, Eq, Structural, Debug)]
pub struct FileMeta {
    pub dev: u64,
    pub ino: u64,
    pub mode: u32,
    pub nlink: u64,
    pub uid: u32,
    pub gid: u32,
    pub rdev: u64,
    pub size: u64,
    pub mtime: i64,
    pub mtime_nsec: i64,
}

/// A source file.
pub struct SourceNode {
    pub meta: FileMeta,
    pub content: SourceContent,
}

/// What a source file holds.
pub enum SourceContent {
    Directory { entries: Vec<SourceEntry> },
    /// A regular file, which the caller knows by the number `source`.
    File { source: usize },
    Symlink { target: Vec<u8> },
    /// Device, FIFO or socket.
    Special,
}

/// An entry of a source directory.
pub struct SourceEntry {
    /// The name as it stands in the directory; entries are sorted by it.
    pub file_name: Vec<u8>,
    pub node: SourceNode,
}

/// The kinds of source files.
#[derive(Clone, Copy, PartialEq, Eq, Structural, Debug)]
pub enum SourceKind {
    Directory,
    File,
    Symlink,
    Special,
}

/// A regular file whose chunks have to be written.
#[derive(Clone, Copy, PartialEq, Eq, Structural, Debug)]
pub struct FileJob {
    /// Index of its inode.
    pub inode_idx: usize,
    /// The caller's number for the file.
    pub source: usize,
    pub size: u64,
}

/// The inodes of a source tree, and the files whose chunks have to be written.
pub struct TreePlan {
    /// In depth-first pre-order; the root is the first.
    pub inodes: Vec<InodeInfo>,
    /// In the order of their inodes.
    pub files: Vec<FileJob>,
}

// ---------------------------------------------------------------------------
// Model
// ---------------------------------------------------------------------------

/// `bytes` as text, with replacement characters for what is not UTF-8.
pub uninterp spec fn lossy_text(bytes: Seq<u8>) -> Seq<char>;

/// The kind of file that a mode names.
pub open spec fn kind_of(mode: u32) -> SourceKind {
    let fmt = mode & 0o170000;
    if fmt == 0o040000 {
        SourceKind::Directory
    } else if fmt == 0o100000 {
        SourceKind::File
    } else if fmt == 0o120000 {
        SourceKind::Symlink
    } else {
        SourceKind::Special
    }
}

impl FileMeta {
    pub open spec fn mode16(self) -> u16 {
        (self.mode % 0x1_0000) as u16
    }

    pub open spec fn nlink32(self) -> u32 {
        (self.nlink % 0x1_0000_0000) as u32
    }

    /// A field does not fit into a compact inode.
    pub open spec fn needs_extended(self) -> bool {
        self.size > 0xFFFF_FFFF || self.uid > 0xFFFF || self.gid > 0xFFFF || self.nlink32() > 1
    }

    /// The mode is that of a character or block device.
    pub open spec fn is_device(self) -> bool {
        self.mode16() & 0o170000 == 0o020000 || self.mode16() & 0o170000 == 0o060000
    }

    /// Device and inode number in one integer.
    pub open spec fn link_key(self) -> u128 {
        (self.dev * 0x1_0000_0000_0000_0000 + self.ino) as u128
    }
}

impl SourceNode {
    /// The node may have more than one name.
    pub open spec fn linkable(self) -> bool {
        !(self.content is Directory) && self.meta.nlink > 1
    }

    /// The inode of the node, with the number `ino`; a directory starts
    /// without children, a regular file without chunks.
    pub open spec fn inode(self, ino: u32) -> inode::InodeModel {
        inode::InodeModel {
            mode: self.meta.mode16(),
            uid: self.meta.uid,
            gid: self.meta.gid,
            size: match self.content {
                SourceContent::File { .. } => self.meta.size,
                SourceContent::Symlink { target } => target@.len() as u64,
                _ => 0,
            },
            mtime: self.meta.mtime as u64,
            mtime_nsec: self.meta.mtime_nsec as u32,
            nlink: self.meta.nlink32(),
            ino,
            nid: 0,
            meta_offset: 0,
            is_extended: self.meta.needs_extended(),
            data: match self.content {
                SourceContent::Directory { .. } => inode::DataModel::Directory {
                    children: Seq::empty(),
                    startblk: 0,
                    dir_data_size: 0,
                    parent_nid: 0,
                },
                SourceContent::File { .. } => inode::DataModel::RegularFile {
                    chunk_indexes: Seq::empty(),
                },
                SourceContent::Symlink { target } => inode::DataModel::Symlink { target: target@ },
                SourceContent::Special => if self.meta.is_device() {
                    inode::DataModel::SpecialDev { rdev: bytes::low32(self.meta.rdev) }
                } else {
                    inode::DataModel::SpecialNoData
                },
            },
        }
    }
}

impl SourceEntry {
    /// The directory entry for this name, once its inode is known.
    pub open spec fn dir_entry(self, inode_idx: int) -> inode::DirEntryModel {
        inode::DirEntryModel {
            name: lossy_text(self.file_name@),
            file_type: inode::file_type_of(self.node.meta.mode16()),
            inode_idx,
        }
    }
}

/// The file names of a directory.
pub open spec fn file_names(entries: Seq<SourceEntry>) -> Seq<Seq<u8>> {
    Seq::new(entries.len(), |i: int| entries[i].file_name@)
}

/// The entries of a directory, in the order of their names.
pub open spec fn entry_order(entries: Seq<SourceEntry>) -> Seq<usize> {
    names::sorted_order(file_names(entries))
}

/// What the walk of a source tree has found so far.
#[verifier::ext_equal]
pub struct TreeState {
    pub inodes: Seq<inode::InodeModel>,
    /// Inode numbers given out.
    pub ino: int,
    /// Inode index of each file that has several names.
    pub links: Map<u128, usize>,
    pub files: Seq<FileJob>,
}

impl TreeState {
    /// Nothing found yet.
    pub open spec fn start() -> TreeState {
        TreeState { inodes: Seq::empty(), ino: 0, links: Map::empty(), files: Seq::empty() }
    }

    /// Give the node the next inode number and the next place in the list.
    pub open spec fn enter(self, node: SourceNode) -> TreeState {
        TreeState {
            inodes: self.inodes.push(node.inode((self.ino + 1) as u32)),
            ino: self.ino + 1,
            links: self.links,
            files: match node.content {
                SourceContent::File { source } => self.files.push(
                    FileJob { inode_idx: self.inodes.len() as usize, source, size: node.meta.size },
                ),
                _ => self.files,
            },
        }
    }

    /// Set the children of the directory inode `idx`.
    pub open spec fn set_children(
        self,
        idx: int,
        children: Seq<inode::DirEntryModel>,
    ) -> TreeState {
        TreeState {
            inodes: self.inodes.update(
                idx,
                inode::InodeModel {
                    data: inode::DataModel::Directory {
                        children,
                        startblk: 0,
                        dir_data_size: 0,
                        parent_nid: 0,
                    },
                    ..self.inodes[idx]
                },
            ),
            ..self
        }
    }

    /// Remember the inode of a file that has several names.
    pub open spec fn register(self, node: SourceNode, idx: int) -> TreeState {
        if node.linkable() {
            TreeState { links: self.links.insert(node.meta.link_key(), idx as usize), ..self }
        } else {
            self
        }
    }

    /// The node is a further name of a file that was found before.
    pub open spec fn knows(self, node: SourceNode) -> bool {
        node.linkable() && self.links.dom().contains(node.meta.link_key())
    }

    /// The inode index that the next entry refers to.
    pub open spec fn index_for(self, node: SourceNode) -> int {
        if self.knows(node) {
            self.links[node.meta.link_key()] as int
        } else {
            self.inodes.len() as int
        }
    }
}

/// The walk of a node in depth-first pre-order.
pub open spec fn visit(node: SourceNode, st: TreeState) -> TreeState
    decreases node, 0nat,
{
    match node.content {
        SourceContent::Directory { entries } => {
            let walked = visit_entries(entries, entries@.len(), st.enter(node));
            walked.set_children(
                st.inodes.len() as int,
                child_entries(entries, entries@.len(), st.enter(node)),
            )
        },
        _ => st.enter(node),
    }
}

/// The walk of the first `n` entries of a directory, in the order of their
/// names.
pub open spec fn visit_entries(entries: Vec<SourceEntry>, n: nat, st: TreeState) -> TreeState
    decreases entries, n,
{
    if n == 0 {
        st
    } else {
        let before = visit_entries(entries, (n - 1) as nat, st);
        let at = entry_order(entries@)[n - 1] as int;
        if at < entries@.len() {
            visit_entry(entries@[at], before)
        } else {
            before
        }
    }
}

/// The walk of one entry: a file that is known by another name is not entered
/// again.
pub open spec fn visit_entry(entry: SourceEntry, st: TreeState) -> TreeState
    decreases entry, 0nat,
{
    if st.knows(entry.node) {
        st
    } else {
        visit(entry.node, st).register(entry.node, st.inodes.len() as int)
    }
}

/// The directory entries that the first `n` entries of a directory become.
pub open spec fn child_entries(
    entries: Vec<SourceEntry>,
    n: nat,
    st: TreeState,
) -> Seq<inode::DirEntryModel>
    decreases entries, n,
{
    if n == 0 {
        Seq::empty()
    } else {
        let entry = entries@[entry_order(entries@)[n - 1] as int];
        child_entries(entries, (n - 1) as nat, st).push(
            entry.dir_entry(visit_entries(entries, (n - 1) as nat, st).index_for(entry.node)),
        )
    }
}

/// The walk of a whole tree.
pub open spec fn tree_of(source: SourceNode) -> TreeState {
    visit(source, TreeState::start())
}

/// The inodes of a list, by their views.
pub open spec fn inodes_view(inodes: Seq<InodeInfo>) -> Seq<inode::InodeModel> {
    Seq::new(inodes.len(), |i: int| inodes[i]@)
}

// ---------------------------------------------------------------------------
// The walk only adds
// ---------------------------------------------------------------------------

/// `b` has all that `a` has: the same inodes first, the same links, the same
/// files first, and one inode number for each further inode.
pub open spec fn extends(a: TreeState, b: TreeState) -> bool {
    &&& a.inodes.len() <= b.inodes.len()
    &&& b.inodes.len() - a.inodes.len() == b.ino - a.ino
    &&& forall|i: int| 0 <= i < a.inodes.len() ==> #[trigger] b.inodes[i] == a.inodes[i]
    &&& forall|key: u128| #[trigger]
        a.links.dom().contains(key) ==> b.links.dom().contains(key) && b.links[key] == a.links[key]
    &&& a.files.len() <= b.files.len()
    &&& forall|i: int| 0 <= i < a.files.len() ==> #[trigger] b.files[i] == a.files[i]
}

pub proof fn lemma_visit_extends(node: SourceNode, st: TreeState)
    ensures
        extends(st, visit(node, st)),
        visit(node, st).inodes.len() > st.inodes.len(),
    decreases node, 0nat,
{
    match node.content {
        SourceContent::Directory { entries } => {
            let opened = st.enter(node);
            let walked = visit_entries(entries, entries@.len(), opened);
            lemma_entries_extend(entries, 0, entries@.len(), opened);
            assert(visit_entries(entries, 0, opened) == opened);
            assert forall|i: int| 0 <= i < st.inodes.len() implies #[trigger] visit(
                node,
                st,
            ).inodes[i] == st.inodes[i] by {
                assert(walked.inodes[i] == opened.inodes[i]);
            }
            assert forall|i: int| 0 <= i < st.files.len() implies #[trigger] visit(
                node,
                st,
            ).files[i] == st.files[i] by {
                assert(walked.files[i] == opened.files[i]);
            }
            let out = visit(node, st);
            assert(out == walked.set_children(
                st.inodes.len() as int,
                child_entries(entries, entries@.len(), opened),
            ));
            assert(out.links == walked.links && out.files == walked.files);
            assert forall|key: u128| #[trigger] st.links.dom().contains(key) implies out.links.dom()
                .contains(key) && out.links[key] == st.links[key] by {
                assert(opened.links.dom().contains(key));
            }
        },
        _ => {},
    }
}

pub proof fn lemma_entries_extend(entries: Vec<SourceEntry>, m: nat, n: nat, st: TreeState)
    requires
        m <= n,
    ensures
        extends(visit_entries(entries, m, st), visit_entries(entries, n, st)),
    decreases entries, n,
{
    if m < n {
        lemma_entries_extend(entries, m, (n - 1) as nat, st);
        let before = visit_entries(entries, (n - 1) as nat, st);
        let at = entry_order(entries@)[n - 1] as int;
        if at < entries@.len() {
            lemma_entry_extends(entries@[at], before);
        }
    }
}

pub proof fn lemma_entry_extends(entry: SourceEntry, st: TreeState)
    ensures
        extends(st, visit_entry(entry, st)),
    decreases entry, 0nat,
{
    if !st.knows(entry.node) {
        lemma_visit_extends(entry.node, st);
    }
}

// ---------------------------------------------------------------------------
// Building
// ---------------------------------------------------------------------------

/// Tell the kind of a source file by its mode.
pub fn source_kind(mode: u32) -> (r: SourceKind)
    ensures
        r == kind_of(mode),
{
    let fmt: u32 = mode & 0o170000;
    if fmt == 0o040000 {
        SourceKind::Directory
    } else if fmt == 0o100000 {
        SourceKind::File
    } else if fmt == 0o120000 {
        SourceKind::Symlink
    } else {
        SourceKind::Special
    }
}

/// Calls `String::from_utf8_lossy`, which decodes UTF-8 and puts replacement
/// characters for what is not: a function of the bytes alone. Bytes that are
/// UTF-8 are decoded as they are.
#[verifier::external_body]
fn text_of(file_name: &[u8]) -> (r: String)
    ensures
        r@ == lossy_text(file_name@),
        vstd::utf8::valid_utf8(file_name@) ==> r@ == vstd::utf8::decode_utf8(file_name@),
{
    String::from_utf8_lossy(file_name).into_owned()
}

/// The directory entry for a name, once its inode is known.
pub fn dir_entry(name: String, mode: u32, inode_idx: usize) -> (r: DirEntry)
    ensures
        r@ == (inode::DirEntryModel {
            name: name@,
            file_type: inode::file_type_of((mode % 0x1_0000) as u16),
            inode_idx: inode_idx as int,
        }),
{
    DirEntry { name, file_type: mode_to_file_type((mode % 0x1_0000) as u16), inode_idx }
}

/// The directory entry for a file name, as text.
pub fn child_entry(file_name: &[u8], mode: u32, inode_idx: usize) -> (r: DirEntry)
    ensures
        r@ == (inode::DirEntryModel {
            name: lossy_text(file_name@),
            file_type: inode::file_type_of((mode % 0x1_0000) as u16),
            inode_idx: inode_idx as int,
        }),
        vstd::utf8::valid_utf8(file_name@) ==> r@.name == vstd::utf8::decode_utf8(file_name@),
{
    dir_entry(text_of(file_name), mode, inode_idx)
}

fn link_key(meta: &FileMeta) -> (r: u128)
    ensures
        r == meta.link_key(),
{
    (meta.dev as u128) * 0x1_0000_0000_0000_0000 + (meta.ino as u128)
}

fn linkable(node: &SourceNode) -> (r: bool)
    ensures
        r == node.linkable(),
{
    match &node.content {
        SourceContent::Directory { .. } => false,
        _ => node.meta.nlink > 1,
    }
}

/// A walk in progress.
struct TreeBuilder {
    inodes: Vec<InodeInfo>,
    ino_counter: u32,
    hardlinks: HashMap<u128, usize>,
    files: Vec<FileJob>,
}

impl View for TreeBuilder {
    type V = TreeState;

    closed spec fn view(&self) -> TreeState {
        TreeState {
            inodes: inodes_view(self.inodes@),
            ino: self.ino_counter as int,
            links: self.hardlinks@,
            files: self.files@,
        }
    }
}

impl TreeBuilder {
    /// Give the node an inode.
    fn enter(&mut self, node: &SourceNode) -> (r: usize)
        requires
            old(self)@.ino < u32::MAX,
        ensures
            final(self)@ == old(self)@.enter(*node),
            r == old(self)@.inodes.len(),
    {
        let idx: usize = self.inodes.len();
        let meta = &node.meta;
        let nlink: u32 = bytes::low_u32(meta.nlink);
        let mode: u16 = (meta.mode % 0x1_0000) as u16;
        self.ino_counter = self.ino_counter + 1;
        let size: u64;
        let data: InodeData;
        match &node.content {
            SourceContent::Directory { .. } => {
                size = 0;
                data = InodeData::Directory {
                    children: Vec::new(),
                    startblk: 0,
                    dir_data_size: 0,
                    parent_nid: 0,
                };
                assert(data@->children =~= Seq::<inode::DirEntryModel>::empty());
            },
            SourceContent::File { source } => {
                size = meta.size;
                data = InodeData::RegularFile { chunk_indexes: Vec::new() };
                self.files.push(FileJob { inode_idx: idx, source: *source, size: meta.size });
            },
            SourceContent::Symlink { target } => {
                size = target.len() as u64;
                data = InodeData::Symlink { target: vstd::slice::slice_to_vec(target) };
            },
            SourceContent::Special => {
                size = 0;
                if mode & 0o170000 == 0o020000 || mode & 0o170000 == 0o060000 {
                    data = InodeData::SpecialDev { rdev: bytes::low_u32(meta.rdev) };
                } else {
                    data = InodeData::SpecialNoData;
                }
            },
        }
        let is_extended = meta.size > 0xFFFF_FFFF || meta.uid > 0xFFFF || meta.gid > 0xFFFF || nlink
            > 1;
        let info = InodeInfo {
            mode,
            uid: meta.uid,
            gid: meta.gid,
            size,
            mtime: meta.mtime as u64,
            mtime_nsec: meta.mtime_nsec as u32,
            nlink,
            ino: self.ino_counter,
            nid: 0,
            meta_offset: 0,
            is_extended,
            data,
        };
        assert(info@ =~= node.inode((old(self)@.ino + 1) as u32));
        self.inodes.push(info);
        assert(self@.inodes =~= old(self)@.enter(*node).inodes);
        assert(self@.files =~= old(self)@.enter(*node).files);
        idx
    }

    /// Walk a node; fails once the inode numbers run out.
    fn build(&mut self, node: &SourceNode) -> (r: Option<usize>)
        requires
            old(self)@.ino <= u32::MAX,
        ensures
            match r {
                Some(idx) => final(self)@ == visit(*node, old(self)@) && idx == old(
                    self,
                )@.inodes.len(),
                None => visit(*node, old(self)@).ino > u32::MAX,
            },
        decreases node, 0nat,
    {
        let ghost st = self@;
        let ghost opened = st.enter(*node);
        proof {
            lemma_visit_extends(*node, st);
        }
        if self.ino_counter == u32::MAX {
            return None;
        }
        let idx: usize = self.enter(node);
        match &node.content {
            SourceContent::Directory { entries } => {
                let children: Vec<DirEntry> = match self.build_entries(entries) {
                    Some(children) => children,
                    None => {
                        return None;
                    },
                };
                let ghost walked = self@;
                proof {
                    lemma_entries_extend(*entries, 0, entries@.len(), opened);
                }
                self.inodes[idx].data = InodeData::Directory {
                    children,
                    startblk: 0,
                    dir_data_size: 0,
                    parent_nid: 0,
                };
                assert(self@.inodes =~= walked.set_children(
                    idx as int,
                    inode::entries_view(children@),
                ).inodes);
                Some(idx)
            },
            _ => Some(idx),
        }
    }

    /// Walk the entries of a directory, in the order of their names.
    fn build_entries(&mut self, entries: &Vec<SourceEntry>) -> (r: Option<Vec<DirEntry>>)
        requires
            old(self)@.ino <= u32::MAX,
        ensures
            match r {
                Some(children) => {
                    &&& final(self)@ == visit_entries(*entries, entries@.len(), old(self)@)
                    &&& inode::entries_view(children@) == child_entries(
                        *entries,
                        entries@.len(),
                        old(self)@,
                    )
                },
                None => visit_entries(*entries, entries@.len(), old(self)@).ino > u32::MAX,
            },
        decreases entries, entries@.len(),
    {
        broadcast use vstd::std_specs::hash::group_hash_axioms;

        let ghost st = self@;
        let mut names: Vec<&Vec<u8>> = Vec::new();
        let mut i: usize = 0;
        while i < entries.len()
            invariant
                i <= entries@.len(),
                names@.len() == i,
                forall|j: int| 0 <= j < i ==> (#[trigger] names@[j])@ == entries@[j].file_name@,
            decreases entries@.len() - i,
        {
            names.push(&entries[i].file_name);
            i += 1;
        }
        let order: Vec<usize> = names::sort_by_name(&names);
        proof {
            assert(Seq::new(names@.len(), |i: int| names@[i]@) =~= file_names(entries@));
            assert(entries.len() <= usize::MAX);
            names::law_sorted_order(file_names(entries@));
        }
        let mut children: Vec<DirEntry> = Vec::new();
        let mut k: usize = 0;
        assert(inode::entries_view(children@) =~= child_entries(*entries, 0, st));
        while k < entries.len()
            invariant
                k <= entries@.len(),
                st == old(self)@,
                order@ == entry_order(entries@),
                names::is_permutation(order@, entries@.len()),
                self@ == visit_entries(*entries, k as nat, st),
                inode::entries_view(children@) == child_entries(*entries, k as nat, st),
                self@.ino <= u32::MAX,
            decreases entries@.len() - k,
        {
            let ghost before = self@;
            let at: usize = order[k];
            assert(0 <= order@[k as int] < entries@.len());
            let entry = &entries[at];
            proof {
                lemma_entries_extend(*entries, (k + 1) as nat, entries@.len(), st);
                assert(visit_entries(*entries, (k + 1) as nat, st) == visit_entry(*entry, before));
            }
            let many = linkable(&entry.node);
            let known: Option<usize> = if many {
                match self.hardlinks.get(&link_key(&entry.node.meta)) {
                    Some(idx) => Some(*idx),
                    None => None,
                }
            } else {
                None
            };
            let inode_idx: usize = match known {
                Some(idx) => idx,
                None => {
                    match self.build(&entry.node) {
                        Some(idx) => {
                            if many {
                                self.hardlinks.insert(link_key(&entry.node.meta), idx);
                            }
                            idx
                        },
                        None => {
                            return None;
                        },
                    }
                },
            };
            let child = child_entry(&entry.file_name, entry.node.meta.mode, inode_idx);
            let ghost had = children@;
            children.push(child);
            k += 1;
            proof {
                assert(self@ =~= visit_entry(*entry, before));
                assert(inode::entries_view(children@) =~= inode::entries_view(had).push(child@));
            }
        }
        Some(children)
    }
}

/// Build the flat inode list of a source tree.
///
/// Regular files have no chunks yet: `files` tells which ones to write, and
/// `attach_chunks` sets the indexes. There is no plan for a tree with more
/// inodes than there are inode numbers.
pub fn build_tree(source: &SourceNode) -> (r: Option<TreePlan>)
    ensures
        match r {
            Some(plan) => {
                &&& tree_of(*source).ino <= u32::MAX
                &&& inodes_view(plan.inodes@) == tree_of(*source).inodes
                &&& plan.files@ == tree_of(*source).files
            },
            None => tree_of(*source).ino > u32::MAX,
        },
{
    let mut builder = TreeBuilder {
        inodes: Vec::new(),
        ino_counter: 0,
        hardlinks: HashMap::new(),
        files: Vec::new(),
    };
    assert(builder@ =~= TreeState::start());
    match builder.build(source) {
        Some(_) => Some(TreePlan { inodes: builder.inodes, files: builder.files }),
        None => None,
    }
}

/// Set the chunk indexes of a regular file.
pub fn attach_chunks(inodes: &mut Vec<InodeInfo>, idx: usize, chunks: Vec<ChunkIndex>)
    requires
        idx < old(inodes)@.len(),
        old(inodes)@[idx as int].data is RegularFile,
    ensures
        inodes_view(final(inodes)@) == inodes_view(old(inodes)@).update(
            idx as int,
            inode::InodeModel {
                data: inode::DataModel::RegularFile { chunk_indexes: chunks@ },
                ..old(inodes)@[idx as int]@
            },
        ),
{
    inodes[idx].data = InodeData::RegularFile { chunk_indexes: chunks };
    assert(inodes_view(inodes@) =~= inodes_view(old(inodes)@).update(
        idx as int,
        inode::InodeModel {
            data: inode::DataModel::RegularFile { chunk_indexes: chunks@ },
            ..old(inodes)@[idx as int]@
        },
    ));
}

// ---------------------------------------------------------------------------
// Laws
// ---------------------------------------------------------------------------

/// Inode numbers count the list from 1.
pub open spec fn numbered(st: TreeState) -> bool {
    &&& st.ino == st.inodes.len()
    &&& forall|i: int| 0 <= i < st.inodes.len() ==> (#[trigger] st.inodes[i]).ino == i + 1
}

/// Every directory entry and every link refers to an inode of the list.
pub open spec fn references_valid(st: TreeState) -> bool {
    &&& forall|i: int, k: int|
        #![trigger st.inodes[i].data->children[k]]
        0 <= i < st.inodes.len() && st.inodes[i].data is Directory && 0 <= k
            < st.inodes[i].data->children.len() ==> 0 <= st.inodes[i].data->children[k].inode_idx
            < st.inodes.len()
    &&& forall|key: u128| #[trigger]
        st.links.dom().contains(key) ==> st.links[key] < st.inodes.len()
}

/// `files` lists the regular files, each once, in the order of their inodes.
pub open spec fn files_listed(st: TreeState) -> bool {
    &&& forall|j: int|
        0 <= j < st.files.len() ==> {
            &&& (#[trigger] st.files[j]).inode_idx < st.inodes.len()
            &&& st.inodes[st.files[j].inode_idx as int].data is RegularFile
            &&& st.inodes[st.files[j].inode_idx as int].size == st.files[j].size
        }
    &&& forall|j: int, k: int|
        #![trigger st.files[j], st.files[k]]
        0 <= j < k < st.files.len() ==> st.files[j].inode_idx < st.files[k].inode_idx
    &&& forall|i: int|
        0 <= i < st.inodes.len() && (#[trigger] st.inodes[i]).data is RegularFile ==> exists|j: int|
            0 <= j < st.files.len() && (#[trigger] st.files[j]).inode_idx == i
}

pub open spec fn tree_inv(st: TreeState) -> bool {
    &&& numbered(st)
    &&& references_valid(st)
    &&& files_listed(st)
}

proof fn lemma_enter_inv(node: SourceNode, st: TreeState)
    requires
        tree_inv(st),
        st.ino < u32::MAX,
    ensures
        tree_inv(st.enter(node)),
{
    let out = st.enter(node);
    assert(st.inodes.len() as usize == st.inodes.len());
    assert forall|i: int|
        0 <= i < out.inodes.len() && (#[trigger] out.inodes[i]).data is RegularFile implies exists|
        j: int,
    |
        0 <= j < out.files.len() && (#[trigger] out.files[j]).inode_idx == i by {
        if i < st.inodes.len() {
            assert(st.inodes[i].data is RegularFile);
            let j = choose|j: int|
                0 <= j < st.files.len() && (#[trigger] st.files[j]).inode_idx == i;
            assert(out.files[j].inode_idx == i);
        } else {
            assert(out.files[out.files.len() - 1].inode_idx == i);
        }
    }
}

proof fn lemma_visit_inv(node: SourceNode, st: TreeState)
    requires
        tree_inv(st),
        visit(node, st).ino <= u32::MAX,
    ensures
        tree_inv(visit(node, st)),
    decreases node, 0nat,
{
    let opened = st.enter(node);
    lemma_visit_extends(node, st);
    lemma_enter_inv(node, st);
    match node.content {
        SourceContent::Directory { entries } => {
            let n = entries@.len();
            let idx = st.inodes.len() as int;
            let walked = visit_entries(entries, n, opened);
            let out = visit(node, st);
            let children = child_entries(entries, n, opened);
            lemma_entries_inv(entries, n, opened);
            lemma_entries_extend(entries, 0, n, opened);
            assert(visit_entries(entries, 0, opened) == opened);
            assert(walked.inodes[idx] == opened.inodes[idx]);
            assert(out == walked.set_children(idx, children));
            assert forall|i: int| 0 <= i < out.inodes.len() && i != idx implies
                #[trigger] out.inodes[i] == walked.inodes[i] by {}
            assert forall|i: int|
                0 <= i < out.inodes.len() && (#[trigger] out.inodes[i]).data is RegularFile implies exists|
                j: int,
            |
                0 <= j < out.files.len() && (#[trigger] out.files[j]).inode_idx == i by {
                assert(walked.inodes[i].data is RegularFile);
            }
            assert forall|j: int| 0 <= j < out.files.len() implies {
                &&& (#[trigger] out.files[j]).inode_idx < out.inodes.len()
                &&& out.inodes[out.files[j].inode_idx as int].data is RegularFile
                &&& out.inodes[out.files[j].inode_idx as int].size == out.files[j].size
            } by {
                assert(walked.files[j].inode_idx != idx);
            }
        },
        _ => {},
    }
}

proof fn lemma_entries_inv(entries: Vec<SourceEntry>, n: nat, st: TreeState)
    requires
        tree_inv(st),
        visit_entries(entries, n, st).ino <= u32::MAX,
        n <= entries@.len(),
    ensures
        tree_inv(visit_entries(entries, n, st)),
        child_entries(entries, n, st).len() == n,
        forall|k: int|
            0 <= k < n ==> 0 <= (#[trigger] child_entries(entries, n, st)[k]).inode_idx
                < visit_entries(entries, n, st).inodes.len(),
    decreases entries, n,
{
    if n > 0 {
        lemma_entries_extend(entries, (n - 1) as nat, n, st);
        lemma_entries_inv(entries, (n - 1) as nat, st);
        let before = visit_entries(entries, (n - 1) as nat, st);
        assert(entries.len() <= usize::MAX);
        names::law_sorted_order(file_names(entries@));
        let at = entry_order(entries@)[n - 1] as int;
        assert(0 <= entry_order(entries@)[n - 1] < entries@.len());
        lemma_entry_inv(entries@[at], before);
        let had = child_entries(entries, (n - 1) as nat, st);
        assert forall|k: int| 0 <= k < n implies 0 <= (#[trigger] child_entries(
            entries,
            n,
            st,
        )[k]).inode_idx < visit_entries(entries, n, st).inodes.len() by {
            if k < n - 1 {
                assert(child_entries(entries, n, st)[k] == had[k]);
            }
        }
    }
}

proof fn lemma_entry_inv(entry: SourceEntry, st: TreeState)
    requires
        tree_inv(st),
        visit_entry(entry, st).ino <= u32::MAX,
    ensures
        tree_inv(visit_entry(entry, st)),
        0 <= st.index_for(entry.node) < visit_entry(entry, st).inodes.len(),
    decreases entry, 0nat,
{
    if !st.knows(entry.node) {
        lemma_visit_inv(entry.node, st);
        lemma_visit_extends(entry.node, st);
    }
}

/// Inode numbers count the inode list from 1; every directory entry refers to
/// an inode of the list; the listed files are the regular files of the list.
pub proof fn law_tree_consistent(source: SourceNode)
    requires
        tree_of(source).ino <= u32::MAX,
    ensures
        numbered(tree_of(source)),
        references_valid(tree_of(source)),
        files_listed(tree_of(source)),
{
    lemma_visit_inv(source, TreeState::start());
}

/// Depth-first pre-order: a node comes right behind what was found before it,
/// and nothing that was found before changes. So the root is the first inode.
pub proof fn law_node_before_its_children(node: SourceNode, st: TreeState)
    ensures
        extends(st, visit(node, st)),
        visit(node, st).inodes.len() > st.inodes.len(),
        visit(node, st).inodes[st.inodes.len() as int] == (match node.content {
            SourceContent::Directory { entries } => inode::InodeModel {
                data: inode::DataModel::Directory {
                    children: child_entries(entries, entries@.len(), st.enter(node)),
                    startblk: 0,
                    dir_data_size: 0,
                    parent_nid: 0,
                },
                ..node.inode((st.ino + 1) as u32)
            },
            _ => node.inode((st.ino + 1) as u32),
        }),
{
    lemma_visit_extends(node, st);
    match node.content {
        SourceContent::Directory { entries } => {
            let opened = st.enter(node);
            lemma_entries_extend(entries, 0, entries@.len(), opened);
            assert(visit_entries(entries, 0, opened) == opened);
            let walked = visit_entries(entries, entries@.len(), opened);
            let idx = st.inodes.len() as int;
            assert(walked.inodes[idx] == opened.inodes[idx]);
        },
        _ => {},
    }
}

/// The children of a directory are its entries, sorted by file name.
pub proof fn law_children_sorted(entries: Vec<SourceEntry>, n: nat, st: TreeState)
    requires
        n <= entries@.len(),
    ensures
        child_entries(entries, n, st).len() == n,
        names::is_permutation(entry_order(entries@), entries@.len()),
        names::is_sorted(entry_order(entries@), file_names(entries@)),
        forall|k: int|
            0 <= k < n ==> #[trigger] child_entries(entries, n, st)[k] == ({
                let entry = entries@[entry_order(entries@)[k] as int];
                entry.dir_entry(visit_entries(entries, k as nat, st).index_for(entry.node))
            }),
    decreases n,
{
    assert(entries.len() <= usize::MAX);
    names::law_sorted_order(file_names(entries@));
    if n > 0 {
        law_children_sorted(entries, (n - 1) as nat, st);
        let had = child_entries(entries, (n - 1) as nat, st);
        assert forall|k: int| 0 <= k < n implies #[trigger] child_entries(entries, n, st)[k] == ({
            let entry = entries@[entry_order(entries@)[k] as int];
            entry.dir_entry(visit_entries(entries, k as nat, st).index_for(entry.node))
        }) by {
            if k < n - 1 {
                assert(child_entries(entries, n, st)[k] == had[k]);
            }
        }
    }
}

/// A reference of a walk: entry `pos` of the directory inode `dir` refers to the
/// inode `idx`.
pub struct Reference {
    pub entry: SourceEntry,
    pub dir: int,
    pub pos: int,
    pub idx: int,
}

/// The references that the walk of a node makes, in the order of the walk.
pub open spec fn references(node: SourceNode, st: TreeState) -> Seq<Reference>
    decreases node, 0nat,
{
    match node.content {
        SourceContent::Directory { entries } => references_in(
            entries,
            entries@.len(),
            st.enter(node),
            st.inodes.len() as int,
        ),
        _ => Seq::empty(),
    }
}

/// The references that the walk of the first `n` entries of the directory inode
/// `dir` makes.
pub open spec fn references_in(
    entries: Vec<SourceEntry>,
    n: nat,
    st: TreeState,
    dir: int,
) -> Seq<Reference>
    decreases entries, n,
{
    if n == 0 {
        Seq::empty()
    } else {
        let before = visit_entries(entries, (n - 1) as nat, st);
        let at = entry_order(entries@)[n - 1] as int;
        let earlier = references_in(entries, (n - 1) as nat, st, dir);
        if at < entries@.len() {
            earlier + references_of(entries@[at], before, dir, n - 1)
        } else {
            earlier
        }
    }
}

/// The references that the walk of one entry makes: its own, and those inside.
pub open spec fn references_of(
    entry: SourceEntry,
    st: TreeState,
    dir: int,
    pos: int,
) -> Seq<Reference>
    decreases entry, 0nat,
{
    let own = seq![Reference { entry, dir, pos, idx: st.index_for(entry.node) }];
    if st.knows(entry.node) {
        own
    } else {
        own + references(entry.node, st)
    }
}

/// The links lead to inodes of the list that are no directories, and no two of
/// them to the same one.
pub open spec fn links_distinct(st: TreeState) -> bool {
    &&& forall|key: u128| #[trigger]
        st.links.dom().contains(key) ==> 0 < st.links[key] < st.inodes.len() && !(
        st.inodes[st.links[key] as int].data is Directory)
    &&& forall|a: u128, b: u128|
        #![trigger st.links[a], st.links[b]]
        st.links.dom().contains(a) && st.links.dom().contains(b) && st.links[a] == st.links[b]
            ==> a == b
}

/// What holds of one reference of a walk that has come to `st`.
pub open spec fn reference_holds(st: TreeState, r: Reference) -> bool {
    let key = r.entry.node.meta.link_key();
    &&& 0 < r.idx < st.inodes.len()
    &&& r.entry.node.linkable() ==> st.links.dom().contains(key) && st.links[key] == r.idx
    &&& !r.entry.node.linkable() ==> forall|k: u128| #[trigger]
        st.links.dom().contains(k) ==> st.links[k] != r.idx
}

/// Every reference holds; no two references of files with a single name lead to
/// the same inode; every inode but the root has a reference from an inode before
/// it.
pub open spec fn references_hold(st: TreeState, refs: Seq<Reference>) -> bool {
    &&& forall|j: int| 0 <= j < refs.len() ==> reference_holds(st, #[trigger] refs[j])
    &&& forall|j: int, k: int|
        #![trigger refs[j], refs[k]]
        0 <= j < k < refs.len() && !refs[j].entry.node.linkable()
            && !refs[k].entry.node.linkable() ==> refs[j].idx != refs[k].idx
    &&& forall|i: int| 0 < i < st.inodes.len() ==> #[trigger] referred_to(refs, i)
}

/// Some reference leads to inode `i`, from an inode before it.
pub open spec fn referred_to(refs: Seq<Reference>, i: int) -> bool {
    exists|j: int| 0 <= j < refs.len() && (#[trigger] refs[j]).idx == i && refs[j].dir < i
}

/// A new reference to the next inode, or to one that a link leads to.
proof fn lemma_add_reference(
    st: TreeState,
    refs: Seq<Reference>,
    entry: SourceEntry,
    dir: int,
    pos: int,
    after: TreeState,
)
    requires
        links_distinct(st),
        references_hold(st, refs),
        0 < st.inodes.len() <= usize::MAX,
        0 <= dir < st.inodes.len(),
        after == (if st.knows(entry.node) {
            st
        } else {
            st.enter(entry.node).register(entry.node, st.inodes.len() as int)
        }),
    ensures
        links_distinct(after),
        references_hold(
            after,
            refs.push(Reference { entry, dir, pos, idx: st.index_for(entry.node) }),
        ),
{
    let new = Reference { entry, dir, pos, idx: st.index_for(entry.node) };
    let all = refs.push(new);
    let len = st.inodes.len() as int;
    let key = entry.node.meta.link_key();
    assert(len as usize == len);
    assert forall|j: int| 0 <= j < all.len() implies reference_holds(after, #[trigger] all[j]) by {
        if j < refs.len() {
            assert(reference_holds(st, refs[j]));
        }
    }
    assert forall|i: int| 0 < i < after.inodes.len() implies #[trigger] referred_to(all, i) by {
        if i < len {
            assert(referred_to(refs, i));
            let j = choose|j: int|
                0 <= j < refs.len() && (#[trigger] refs[j]).idx == i && refs[j].dir < i;
            assert(all[j].idx == i && all[j].dir < i);
        } else {
            assert(all[refs.len() as int].idx == i);
        }
    }
    assert forall|j: int, k: int|
        #![trigger all[j], all[k]]
        0 <= j < k < all.len() && !all[j].entry.node.linkable()
            && !all[k].entry.node.linkable() implies all[j].idx != all[k].idx by {
        assert(reference_holds(st, refs[j]));
        if k < refs.len() {
            assert(refs[j].idx != refs[k].idx);
        }
    }
}

proof fn lemma_references_in(
    entries: Vec<SourceEntry>,
    n: nat,
    st: TreeState,
    dir: int,
    refs: Seq<Reference>,
)
    requires
        n <= entries@.len(),
        st.ino == st.inodes.len(),
        visit_entries(entries, n, st).ino <= u32::MAX,
        links_distinct(st),
        references_hold(st, refs),
        0 <= dir < st.inodes.len(),
    ensures
        links_distinct(visit_entries(entries, n, st)),
        references_hold(
            visit_entries(entries, n, st),
            refs + references_in(entries, n, st, dir),
        ),
    decreases entries, n,
{
    if n == 0 {
        assert(refs + references_in(entries, n, st, dir) =~= refs);
    } else {
        let m = (n - 1) as nat;
        let before = visit_entries(entries, m, st);
        lemma_entries_extend(entries, m, n, st);
        lemma_entries_extend(entries, 0, m, st);
        assert(visit_entries(entries, 0, st) == st);
        lemma_references_in(entries, m, st, dir, refs);
        assert(entries.len() <= usize::MAX);
        names::law_sorted_order(file_names(entries@));
        let at = entry_order(entries@)[n - 1] as int;
        assert(0 <= entry_order(entries@)[n - 1] < entries@.len());
        let earlier = refs + references_in(entries, m, st, dir);
        lemma_references_of(entries@[at], before, dir, n - 1, earlier);
        assert(refs + references_in(entries, n, st, dir) =~= earlier + references_of(
            entries@[at],
            before,
            dir,
            n - 1,
        ));
    }
}

proof fn lemma_references_of(
    entry: SourceEntry,
    st: TreeState,
    dir: int,
    pos: int,
    refs: Seq<Reference>,
)
    requires
        st.ino == st.inodes.len(),
        visit_entry(entry, st).ino <= u32::MAX,
        links_distinct(st),
        references_hold(st, refs),
        0 <= dir < st.inodes.len(),
    ensures
        links_distinct(visit_entry(entry, st)),
        references_hold(visit_entry(entry, st), refs + references_of(entry, st, dir, pos)),
    decreases entry, 0nat,
{
    let own = Reference { entry, dir, pos, idx: st.index_for(entry.node) };
    lemma_entry_extends(entry, st);
    if st.knows(entry.node) {
        lemma_add_reference(st, refs, entry, dir, pos, st);
        assert(refs + references_of(entry, st, dir, pos) =~= refs.push(own));
    } else {
        let opened = st.enter(entry.node).register(entry.node, st.inodes.len() as int);
        lemma_add_reference(st, refs, entry, dir, pos, opened);
        match entry.node.content {
            SourceContent::Directory { entries } => {
                let walked = visit_entries(entries, entries@.len(), opened);
                let inner = references(entry.node, st);
                lemma_visit_extends(entry.node, st);
                lemma_references_in(
                    entries,
                    entries@.len(),
                    opened,
                    st.inodes.len() as int,
                    refs.push(own),
                );
                let out = visit_entry(entry, st);
                lemma_entries_extend(entries, 0, entries@.len(), opened);
                assert(visit_entries(entries, 0, opened) == opened);
                lemma_children_keep_references(
                    walked,
                    st.inodes.len() as int,
                    child_entries(entries, entries@.len(), opened),
                    refs.push(own) + inner,
                );
                assert(refs + references_of(entry, st, dir, pos) =~= refs.push(own) + inner);
                assert(out == walked.set_children(
                    st.inodes.len() as int,
                    child_entries(entries, entries@.len(), opened),
                ));
            },
            _ => {
                assert(refs + references_of(entry, st, dir, pos) =~= refs.push(own));
            },
        }
    }
}

/// Setting the children of a directory changes no reference.
proof fn lemma_children_keep_references(
    st: TreeState,
    idx: int,
    children: Seq<inode::DirEntryModel>,
    refs: Seq<Reference>,
)
    requires
        0 <= idx < st.inodes.len(),
        st.inodes[idx].data is Directory,
        links_distinct(st),
        references_hold(st, refs),
    ensures
        links_distinct(st.set_children(idx, children)),
        references_hold(st.set_children(idx, children), refs),
{
    let after = st.set_children(idx, children);
    assert forall|j: int| 0 <= j < refs.len() implies reference_holds(after, #[trigger] refs[j]) by {
        assert(reference_holds(st, refs[j]));
    }
    assert forall|i: int| 0 < i < after.inodes.len() implies #[trigger] referred_to(refs, i) by {
        assert(0 < i < st.inodes.len());
    }
}

/// The reference stands in the list as a child of its directory.
pub open spec fn reference_stands(st: TreeState, r: Reference) -> bool {
    &&& 0 <= r.dir < st.inodes.len()
    &&& st.inodes[r.dir].data is Directory
    &&& 0 <= r.pos < st.inodes[r.dir].data->children.len()
    &&& st.inodes[r.dir].data->children[r.pos] == r.entry.dir_entry(r.idx)
}

/// Child `pos` of the directory inode `dir` has a reference.
pub open spec fn has_reference(refs: Seq<Reference>, dir: int, pos: int) -> bool {
    exists|j: int| 0 <= j < refs.len() && (#[trigger] refs[j]).dir == dir && refs[j].pos == pos
}

/// The directory inode `dir` has a child `pos`.
pub open spec fn has_child(st: TreeState, dir: int, pos: int) -> bool {
    &&& 0 <= dir < st.inodes.len()
    &&& st.inodes[dir].data is Directory
    &&& 0 <= pos < st.inodes[dir].data->children.len()
}

/// The references are the children of the directories from inode `from` on, one
/// for one.
pub open spec fn references_match(st: TreeState, from: int, refs: Seq<Reference>) -> bool {
    &&& forall|j: int|
        0 <= j < refs.len() ==> (#[trigger] refs[j]).dir >= from && reference_stands(st, refs[j])
    &&& forall|d: int, k: int|
        d >= from && #[trigger] has_child(st, d, k) ==> has_reference(refs, d, k)
}

/// The references of the first `n` entries of a directory that is not filled in
/// yet: its own, and those of the directories from inode `from` on.
spec fn references_partly_match(
    st: TreeState,
    from: int,
    refs: Seq<Reference>,
    dir: int,
    children: Seq<inode::DirEntryModel>,
) -> bool {
    &&& forall|j: int|
        0 <= j < refs.len() ==> {
            ||| (#[trigger] refs[j]).dir >= from && reference_stands(st, refs[j])
            ||| refs[j].dir == dir && 0 <= refs[j].pos < children.len() && children[refs[j].pos]
                == refs[j].entry.dir_entry(refs[j].idx)
        }
    &&& forall|d: int, k: int|
        d >= from && #[trigger] has_child(st, d, k) ==> has_reference(refs, d, k)
    &&& forall|k: int| 0 <= k < children.len() ==> #[trigger] has_reference(refs, dir, k)
}

/// More references keep the ones that are there.
proof fn lemma_has_reference(a: Seq<Reference>, b: Seq<Reference>, dir: int, pos: int)
    requires
        has_reference(a, dir, pos) || has_reference(b, dir, pos),
    ensures
        has_reference(a + b, dir, pos),
{
    if has_reference(a, dir, pos) {
        let j = choose|j: int|
            0 <= j < a.len() && (#[trigger] a[j]).dir == dir && a[j].pos == pos;
        assert((a + b)[j] == a[j]);
    } else {
        let j = choose|j: int|
            0 <= j < b.len() && (#[trigger] b[j]).dir == dir && b[j].pos == pos;
        assert((a + b)[a.len() + j] == b[j]);
    }
}

proof fn lemma_visit_match(node: SourceNode, st: TreeState)
    ensures
        references_match(visit(node, st), st.inodes.len() as int, references(node, st)),
    decreases node, 0nat,
{
    match node.content {
        SourceContent::Directory { entries } => {
            let opened = st.enter(node);
            let n = entries@.len();
            let dir = st.inodes.len() as int;
            let walked = visit_entries(entries, n, opened);
            let children = child_entries(entries, n, opened);
            let refs = references(node, st);
            lemma_entries_match(entries, n, opened, dir);
            lemma_entries_extend(entries, 0, n, opened);
            assert(visit_entries(entries, 0, opened) == opened);
            let out = walked.set_children(dir, children);
            assert(out == visit(node, st));
            assert forall|j: int| 0 <= j < refs.len() implies (#[trigger] refs[j]).dir >= dir
                && reference_stands(out, refs[j]) by {
                if refs[j].dir >= dir + 1 {
                    assert(reference_stands(walked, refs[j]));
                    assert(out.inodes[refs[j].dir] == walked.inodes[refs[j].dir]);
                }
            }
            assert forall|d: int, k: int|
                d >= dir && #[trigger] has_child(out, d, k) implies has_reference(refs, d, k) by {
                if d > dir {
                    assert(out.inodes[d] == walked.inodes[d]);
                    assert(has_child(walked, d, k));
                } else {
                    assert(has_reference(refs, dir, k));
                }
            }
        },
        _ => {},
    }
}

proof fn lemma_entries_match(entries: Vec<SourceEntry>, n: nat, st: TreeState, dir: int)
    requires
        n <= entries@.len(),
        dir < st.inodes.len(),
    ensures
        references_partly_match(
            visit_entries(entries, n, st),
            st.inodes.len() as int,
            references_in(entries, n, st, dir),
            dir,
            child_entries(entries, n, st),
        ),
        child_entries(entries, n, st).len() == n,
    decreases entries, n,
{
    if n > 0 {
        let m = (n - 1) as nat;
        let from = st.inodes.len() as int;
        let before = visit_entries(entries, m, st);
        let out = visit_entries(entries, n, st);
        assert(entries.len() <= usize::MAX);
        names::law_sorted_order(file_names(entries@));
        let at = entry_order(entries@)[n - 1] as int;
        assert(0 <= entry_order(entries@)[n - 1] < entries@.len());
        let entry = entries@[at];
        let had = references_in(entries, m, st, dir);
        let more = references_of(entry, before, dir, n - 1);
        let refs = references_in(entries, n, st, dir);
        let had_children = child_entries(entries, m, st);
        let children = child_entries(entries, n, st);
        lemma_entries_extend(entries, m, n, st);
        lemma_entries_extend(entries, 0, m, st);
        assert(visit_entries(entries, 0, st) == st);
        lemma_entries_match(entries, m, st, dir);
        lemma_entry_match(entry, before, dir, n - 1);
        assert(refs == had + more);
        assert(out == visit_entry(entry, before));
        assert(children == had_children.push(entry.dir_entry(before.index_for(entry.node))));
        assert forall|j: int| 0 <= j < refs.len() implies {
            ||| (#[trigger] refs[j]).dir >= from && reference_stands(out, refs[j])
            ||| refs[j].dir == dir && 0 <= refs[j].pos < children.len() && children[refs[j].pos]
                == refs[j].entry.dir_entry(refs[j].idx)
        } by {
            if j < had.len() {
                assert(refs[j] == had[j]);
                if had[j].dir >= from && reference_stands(before, had[j]) {
                    assert(out.inodes[had[j].dir] == before.inodes[had[j].dir]);
                }
            } else {
                assert(refs[j] == more[j - had.len()]);
            }
        }
        assert forall|d: int, k: int|
            d >= from && #[trigger] has_child(out, d, k) implies has_reference(refs, d, k) by {
            if d < before.inodes.len() {
                assert(out.inodes[d] == before.inodes[d]);
                assert(has_child(before, d, k));
                assert(has_reference(had, d, k));
            } else {
                assert(has_reference(more, d, k));
            }
            lemma_has_reference(had, more, d, k);
        }
        assert forall|k: int| 0 <= k < children.len() implies #[trigger] has_reference(
            refs,
            dir,
            k,
        ) by {
            if k < m {
                assert(has_reference(had, dir, k));
            } else {
                assert(more[0].dir == dir && more[0].pos == k);
                assert(has_reference(more, dir, k));
            }
            lemma_has_reference(had, more, dir, k);
        }
    }
}

proof fn lemma_entry_match(entry: SourceEntry, st: TreeState, dir: int, pos: int)
    ensures
        ({
            let refs = references_of(entry, st, dir, pos);
            let out = visit_entry(entry, st);
            &&& refs.len() > 0
            &&& refs[0] == (Reference { entry, dir, pos, idx: st.index_for(entry.node) })
            &&& forall|j: int|
                0 < j < refs.len() ==> (#[trigger] refs[j]).dir >= st.inodes.len()
                    && reference_stands(out, refs[j])
            &&& forall|d: int, k: int|
                d >= st.inodes.len() && #[trigger] has_child(out, d, k) ==> has_reference(refs, d, k)
        }),
    decreases entry, 0nat,
{
    let refs = references_of(entry, st, dir, pos);
    let out = visit_entry(entry, st);
    if !st.knows(entry.node) {
        let inner = references(entry.node, st);
        let own = seq![Reference { entry, dir, pos, idx: st.index_for(entry.node) }];
        let walked = visit(entry.node, st);
        lemma_visit_match(entry.node, st);
        assert(refs == own + inner);
        assert forall|j: int| 0 < j < refs.len() implies (#[trigger] refs[j]).dir
            >= st.inodes.len() && reference_stands(out, refs[j]) by {
            assert(refs[j] == inner[j - 1]);
            assert(reference_stands(walked, inner[j - 1]));
        }
        assert forall|d: int, k: int|
            d >= st.inodes.len() && #[trigger] has_child(out, d, k) implies has_reference(
            refs,
            d,
            k,
        ) by {
            assert(has_child(walked, d, k));
            lemma_has_reference(own, inner, d, k);
        }
    }
}

/// The references that the walk of a whole tree makes.
pub open spec fn tree_references(source: SourceNode) -> Seq<Reference> {
    references(source, TreeState::start())
}

/// The references of a walk are the children of its directories, one for one:
/// each stands in the list under its entry's name and type, and there are no
/// other children.
pub proof fn law_references_are_children(source: SourceNode)
    ensures
        references_match(tree_of(source), 0, tree_references(source)),
{
    lemma_visit_match(source, TreeState::start());
}

proof fn lemma_tree_references(source: SourceNode)
    requires
        tree_of(source).ino <= u32::MAX,
    ensures
        links_distinct(tree_of(source)),
        references_hold(tree_of(source), tree_references(source)),
{
    let start = TreeState::start();
    let opened = start.enter(source);
    match source.content {
        SourceContent::Directory { entries } => {
            let n = entries@.len();
            let none = Seq::<Reference>::empty();
            let walked = visit_entries(entries, n, opened);
            let refs = tree_references(source);
            lemma_entries_extend(entries, 0, n, opened);
            assert(visit_entries(entries, 0, opened) == opened);
            lemma_visit_extends(source, start);
            lemma_references_in(entries, n, opened, 0, none);
            assert(none + references_in(entries, n, opened, 0) =~= refs);
            lemma_children_keep_references(walked, 0, child_entries(entries, n, opened), refs);
        },
        _ => {},
    }
}

/// Two entries of a walk refer to the same inode exactly if they are names of
/// one file: both have several names, and the same device and inode number.
pub proof fn law_shared_exactly_by_links(source: SourceNode, j: int, k: int)
    requires
        tree_of(source).ino <= u32::MAX,
        0 <= j < k < tree_references(source).len(),
    ensures
        ({
            let a = tree_references(source)[j];
            let b = tree_references(source)[k];
            a.idx == b.idx <==> {
                &&& !(a.entry.node.content is Directory) && a.entry.node.meta.nlink > 1
                &&& !(b.entry.node.content is Directory) && b.entry.node.meta.nlink > 1
                &&& a.entry.node.meta.dev == b.entry.node.meta.dev
                &&& a.entry.node.meta.ino == b.entry.node.meta.ino
            }
        }),
{
    let st = tree_of(source);
    let refs = tree_references(source);
    let a = refs[j];
    let b = refs[k];
    lemma_tree_references(source);
    assert(reference_holds(st, a) && reference_holds(st, b));
    law_link_keys_distinct(a.entry.node.meta, b.entry.node.meta);
    let key_a = a.entry.node.meta.link_key();
    let key_b = b.entry.node.meta.link_key();
    if a.entry.node.linkable() && b.entry.node.linkable() {
        assert(st.links[key_a] == a.idx && st.links[key_b] == b.idx);
    } else if a.entry.node.linkable() {
        assert(st.links.dom().contains(key_a));
    } else if b.entry.node.linkable() {
        assert(st.links.dom().contains(key_b));
    }
}

/// Child `pos` of the directory inode `dir` refers to inode `i`.
pub open spec fn is_child(st: TreeState, dir: int, pos: int, i: int) -> bool {
    has_child(st, dir, pos) && st.inodes[dir].data->children[pos].inode_idx == i
}

/// Inode `i` is a child of a directory before it.
pub open spec fn has_parent_before(st: TreeState, i: int) -> bool {
    exists|d: int, k: int| d < i && #[trigger] is_child(st, d, k, i)
}

/// Pre-order: every inode but the root is a child of a directory before it, and
/// the root is no child.
pub proof fn law_every_inode_has_a_parent(source: SourceNode)
    requires
        tree_of(source).ino <= u32::MAX,
    ensures
        forall|i: int|
            0 < i < tree_of(source).inodes.len() ==> #[trigger] has_parent_before(
                tree_of(source),
                i,
            ),
        forall|d: int, k: int| !#[trigger] is_child(tree_of(source), d, k, 0),
{
    let st = tree_of(source);
    let refs = tree_references(source);
    lemma_tree_references(source);
    law_references_are_children(source);
    assert forall|i: int| 0 < i < st.inodes.len() implies #[trigger] has_parent_before(
        st,
        i,
    ) by {
        assert(referred_to(refs, i));
        let j = choose|j: int|
            0 <= j < refs.len() && (#[trigger] refs[j]).idx == i && refs[j].dir < i;
        assert(reference_stands(st, refs[j]));
        assert(is_child(st, refs[j].dir, refs[j].pos, i));
    }
    assert forall|d: int, k: int| !#[trigger] is_child(st, d, k, 0) by {
        if is_child(st, d, k, 0) {
            assert(has_child(st, d, k));
            let j = choose|j: int|
                0 <= j < refs.len() && (#[trigger] refs[j]).dir == d && refs[j].pos == k;
            assert(reference_holds(st, refs[j]));
            assert(reference_stands(st, refs[j]));
        }
    }
}

/// A directory is one child of one directory.
pub proof fn law_directory_has_one_parent(
    source: SourceNode,
    i: int,
    d: int,
    k: int,
    e: int,
    l: int,
)
    requires
        tree_of(source).ino <= u32::MAX,
        0 <= i < tree_of(source).inodes.len(),
        tree_of(source).inodes[i].data is Directory,
        is_child(tree_of(source), d, k, i),
        is_child(tree_of(source), e, l, i),
    ensures
        d == e && k == l,
{
    let st = tree_of(source);
    let refs = tree_references(source);
    lemma_tree_references(source);
    law_references_are_children(source);
    assert(has_child(st, d, k) && has_child(st, e, l));
    let a = choose|j: int|
        0 <= j < refs.len() && (#[trigger] refs[j]).dir == d && refs[j].pos == k;
    let b = choose|j: int|
        0 <= j < refs.len() && (#[trigger] refs[j]).dir == e && refs[j].pos == l;
    assert(reference_stands(st, refs[a]) && reference_stands(st, refs[b]));
    assert(reference_holds(st, refs[a]) && reference_holds(st, refs[b]));
    if a < b {
        law_shared_exactly_by_links(source, a, b);
    } else if b < a {
        law_shared_exactly_by_links(source, b, a);
    }
    if a != b {
        let key = refs[a].entry.node.meta.link_key();
        assert(st.links.dom().contains(key) && st.links[key] == i);
    }
}

/// Two names of one file share an inode: once one of them was walked, every
/// further one refers to the same inode and adds none.
pub proof fn law_hard_links_share(first: SourceEntry, again: SourceEntry, st: TreeState, later: TreeState)
    requires
        first.node.linkable(),
        again.node.linkable(),
        first.node.meta.dev == again.node.meta.dev,
        first.node.meta.ino == again.node.meta.ino,
        st.inodes.len() <= usize::MAX,
        extends(visit_entry(first, st), later),
    ensures
        later.knows(again.node),
        later.index_for(again.node) == st.index_for(first.node),
        visit_entry(again, later) == later,
{
    let key = first.node.meta.link_key();
    lemma_entry_extends(first, st);
    assert(visit_entry(first, st).links.dom().contains(key));
}

/// Files of different devices or with different numbers have different keys.
pub proof fn law_link_keys_distinct(a: FileMeta, b: FileMeta)
    ensures
        a.link_key() == b.link_key() <==> a.dev == b.dev && a.ino == b.ino,
{
}

} // verus!
