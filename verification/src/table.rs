//! The inode table builder: turns an ordered sequence of (metadata record,
//! content identifier) pairs into an inode-keyed table of file entries plus a
//! directory membership map. Inode 1 is the synthesized root directory; each
//! record gets the next inode in supply order. The builder never fails: a
//! record whose fields do not parse still gets an inode with default
//! attributes.

use vstd::prelude::*;

use crate::meta::{parse_meta, parse_meta_spec, AttrsView, TimePair};

verus! {

/// One metadata record, as raw text, paired with the remote content
/// identifier of the blob it describes.
#[derive(Clone)]
pub struct MyMeta {
    pub meta: String,
    pub id: i32,
}

/// The mathematical model of a record: its text and its content identifier.
pub struct MyMetaView {
    pub meta: Seq<char>,
    pub id: i32,
}

impl View for MyMeta {
    type V = MyMetaView;

    open spec fn view(&self) -> MyMetaView {
        MyMetaView { meta: self.meta@, id: self.id }
    }
}

/// The kind of a filesystem entry: the root is the only directory, every
/// entry derived from metadata is a regular file.
#[derive(Clone, Copy, PartialEq, Eq, Structural, Debug)]
pub enum FileKind {
    Directory,
    RegularFile,
}

/// One entry of the inode table: attributes fixed at build time plus a
/// content cache populated lazily on first read.
pub struct FileEntry {
    pub ino: u64,
    pub name: Vec<char>,
    pub size: u64,
    pub atime: TimePair,
    pub mtime: TimePair,
    pub ctime: TimePair,
    pub crtime: TimePair,
    pub perms: u16,
    pub uid: u32,
    pub gid: u32,
    pub kind: FileKind,
    pub content_id: i32,
    pub content: Option<Vec<u8>>,
}

/// The mathematical model of a file entry.
#[verifier::ext_equal]
pub struct FileEntryView {
    pub ino: u64,
    pub name: Seq<char>,
    pub size: u64,
    pub atime: TimePair,
    pub mtime: TimePair,
    pub ctime: TimePair,
    pub crtime: TimePair,
    pub perms: u16,
    pub uid: u32,
    pub gid: u32,
    pub kind: FileKind,
    pub content_id: i32,
    pub content: Option<Seq<u8>>,
}

impl View for FileEntry {
    type V = FileEntryView;

    open spec fn view(&self) -> FileEntryView {
        FileEntryView {
            ino: self.ino,
            name: self.name@,
            size: self.size,
            atime: self.atime,
            mtime: self.mtime,
            ctime: self.ctime,
            crtime: self.crtime,
            perms: self.perms,
            uid: self.uid,
            gid: self.gid,
            kind: self.kind,
            content_id: self.content_id,
            content: match self.content {
                Some(ref v) => Some(v@),
                None => None,
            },
        }
    }
}

/// The inode table: the entry with inode `i` sits at index `i - 1`.
pub struct InodeTable {
    pub entries: Vec<FileEntry>,
}

impl View for InodeTable {
    type V = Seq<FileEntryView>;

    open spec fn view(&self) -> Seq<FileEntryView> {
        self.entries@.map_values(|e: FileEntry| e@)
    }
}

/// One directory with its ordered child inodes.
pub struct DirNode {
    pub ino: u64,
    pub children: Vec<u64>,
}

/// The mathematical model of a directory node.
#[verifier::ext_equal]
pub struct DirNodeView {
    pub ino: u64,
    pub children: Seq<u64>,
}

impl View for DirNode {
    type V = DirNodeView;

    open spec fn view(&self) -> DirNodeView {
        DirNodeView { ino: self.ino, children: self.children@ }
    }
}

/// The directory membership map: directory inode to ordered child inodes.
pub struct DirectoryMap {
    pub dirs: Vec<DirNode>,
}

impl View for DirectoryMap {
    type V = Seq<DirNodeView>;

    open spec fn view(&self) -> Seq<DirNodeView> {
        self.dirs@.map_values(|d: DirNode| d@)
    }
}

/// The children of the first directory node keyed `ino`, if any.
pub open spec fn dir_children(dirs: Seq<DirNodeView>, ino: u64) -> Option<Seq<u64>>
    decreases dirs.len(),
{
    if dirs.len() == 0 {
        None
    } else if dirs[0].ino == ino {
        Some(dirs[0].children)
    } else {
        dir_children(dirs.drop_first(), ino)
    }
}

/// The children a directory map yields for a known directory satisfy every
/// bound that holds of each of the map's child lists.
pub proof fn lemma_dir_children_found(dirs: Seq<DirNodeView>, ino: u64, n: int)
    requires
        forall|d: int| 0 <= d < dirs.len() ==> child_list_ok((#[trigger] dirs[d]).children, n),
        dir_children(dirs, ino) is Some,
    ensures
        child_list_ok(dir_children(dirs, ino)->Some_0, n),
    decreases dirs.len(),
{
    if dirs.len() > 0 && dirs[0].ino != ino {
        assert(forall|d: int|
            0 <= d < dirs.drop_first().len() ==> child_list_ok(
                (#[trigger] dirs.drop_first()[d]).children,
                n,
            ));
        lemma_dir_children_found(dirs.drop_first(), ino, n);
    }
}

/// The synthesized attributes of the root directory: directory kind, fixed
/// permissions, zero size, no backing content.
pub open spec fn root_entry_view() -> FileEntryView {
    FileEntryView {
        ino: 1,
        name: seq!['.'],
        size: 0,
        atime: TimePair { sec: 0, nsec: 0 },
        mtime: TimePair { sec: 0, nsec: 0 },
        ctime: TimePair { sec: 0, nsec: 0 },
        crtime: TimePair { sec: 0, nsec: 0 },
        perms: 0o755,
        uid: 501,
        gid: 20,
        kind: FileKind::Directory,
        content_id: -1i32,
        content: None,
    }
}

/// The entry built from one parsed record: its attributes, a fresh inode,
/// the record's content identifier, and an empty content cache.
pub open spec fn entry_of(a: AttrsView, id: i32, ino: u64) -> FileEntryView {
    FileEntryView {
        ino: ino,
        name: a.name,
        size: a.size,
        atime: a.atime,
        mtime: a.mtime,
        ctime: a.ctime,
        crtime: a.crtime,
        perms: a.perms,
        uid: a.uid,
        gid: a.gid,
        kind: FileKind::RegularFile,
        content_id: id,
        content: None,
    }
}

/// What the builder produces for `metas`: the root at inode 1, then one
/// entry per record, in supply order, at inodes 2, 3, 4, ...
pub open spec fn table_spec(metas: Seq<MyMetaView>) -> Seq<FileEntryView> {
    seq![root_entry_view()] + Seq::new(
        metas.len(),
        |i: int| entry_of(parse_meta_spec(metas[i].meta), metas[i].id, (i + 2) as u64),
    )
}

/// The directory map the builder produces for `n` records: the root alone,
/// with every file inode as its child, in build order.
pub open spec fn dirs_spec(n: nat) -> Seq<DirNodeView> {
    seq![DirNodeView { ino: 1, children: Seq::new(n, |i: int| (i + 2) as u64) }]
}

/// A bound on every child list: valid inodes only, and short enough that a
/// listing position always fits in the protocol's counters.
pub open spec fn child_list_ok(ch: Seq<u64>, n: int) -> bool {
    &&& ch.len() + 2 <= u64::MAX
    &&& forall|k: int| 0 <= k < ch.len() ==> 1 <= #[trigger] ch[k] <= n
}

/// The filesystem adapter's snapshot: an immutable inode table and directory
/// map, built once per mount, plus the per-entry content caches.
pub struct FsAdapter {
    pub table: InodeTable,
    pub dirs: DirectoryMap,
}

impl FsAdapter {
    /// Well-formedness: inode numbers are contiguous from 1, and every child
    /// recorded in a directory is an inode of the table.
    pub open spec fn wf(self) -> bool {
        &&& self.table@.len() <= u64::MAX
        &&& forall|i: int|
            0 <= i < self.table@.len() ==> (#[trigger] self.table@[i]).ino == i + 1
        &&& forall|d: int|
            0 <= d < self.dirs@.len() ==> child_list_ok(
                (#[trigger] self.dirs@[d]).children,
                self.table@.len() as int,
            )
    }
}

/// Builds the mount snapshot from the ordered records. Assigns inode 1 to
/// the synthesized root, then the next integer inode to each record in
/// order; registers every file as a child of the root. Never fails: records
/// whose fields do not parse get default attributes.
pub fn build(records: Vec<MyMeta>) -> (fs: FsAdapter)
    requires
        records@.len() + 2 <= u64::MAX,
    ensures
        fs.wf(),
        fs.table@ == table_spec(records@.map_values(|m: MyMeta| m@)),
        fs.dirs@ == dirs_spec(records@.len()),
{
    let ghost rv = records@.map_values(|m: MyMeta| m@);
    let mut root_name: Vec<char> = Vec::new();
    root_name.push('.');
    proof {
        assert(root_name@ =~= seq!['.']);
    }
    let root = FileEntry {
        ino: 1,
        name: root_name,
        size: 0,
        atime: TimePair { sec: 0, nsec: 0 },
        mtime: TimePair { sec: 0, nsec: 0 },
        ctime: TimePair { sec: 0, nsec: 0 },
        crtime: TimePair { sec: 0, nsec: 0 },
        perms: 0o755,
        uid: 501,
        gid: 20,
        kind: FileKind::Directory,
        content_id: -1i32,
        content: None,
    };
    proof {
        assert(root@ =~= root_entry_view());
    }
    let mut entries: Vec<FileEntry> = Vec::new();
    entries.push(root);
    let mut children: Vec<u64> = Vec::new();
    let mut i: usize = 0;
    while i < records.len()
        invariant
            i <= records@.len(),
            records@.len() + 2 <= u64::MAX,
            rv == records@.map_values(|m: MyMeta| m@),
            entries@.len() == i + 1,
            entries@[0]@ == root_entry_view(),
            forall|j: int|
                1 <= j <= i ==> (#[trigger] entries@[j])@ == entry_of(
                    parse_meta_spec(rv[j - 1].meta),
                    rv[j - 1].id,
                    (j + 1) as u64,
                ),
            children@.len() == i,
            forall|j: int| 0 <= j < i ==> #[trigger] children@[j] == (j + 2) as u64,
        decreases records@.len() - i,
    {
        let rec = &records[i];
        let a = parse_meta(rec.meta.as_str());
        proof {
            assert(rv[i as int] == records@[i as int]@);
        }
        let entry = FileEntry {
            ino: (i as u64) + 2,
            name: a.name,
            size: a.size,
            atime: a.atime,
            mtime: a.mtime,
            ctime: a.ctime,
            crtime: a.crtime,
            perms: a.perms,
            uid: a.uid,
            gid: a.gid,
            kind: FileKind::RegularFile,
            content_id: rec.id,
            content: None,
        };
        proof {
            assert(entry@ =~= entry_of(parse_meta_spec(rv[i as int].meta), rv[i as int].id, (i + 2) as u64));
        }
        entries.push(entry);
        children.push((i as u64) + 2);
        i += 1;
    }
    let table = InodeTable { entries };
    let dirs = DirectoryMap { dirs: vec_of_root(children) };
    let fs = FsAdapter { table, dirs };
    proof {
        let ts = table_spec(rv);
        assert(fs.table@.len() == ts.len());
        assert forall|k: int| 0 <= k < ts.len() implies fs.table@[k] == ts[k] by {
            assert(fs.table@[k] == fs.table.entries@[k]@);
            if k >= 1 {
                assert(fs.table.entries@[k]@ == entry_of(
                    parse_meta_spec(rv[k - 1].meta),
                    rv[k - 1].id,
                    (k + 1) as u64,
                ));
                assert(ts[k] == entry_of(
                    parse_meta_spec(rv[k - 1].meta),
                    rv[k - 1].id,
                    (k + 1) as u64,
                ));
            }
        }
        assert(fs.table@ =~~= ts);
        assert(fs.dirs@[0].children =~= dirs_spec(records@.len())[0].children);
        assert(fs.dirs@ =~~= dirs_spec(records@.len()));
        assert forall|k: int| 0 <= k < fs.table@.len() implies (#[trigger] fs.table@[k]).ino == k
            + 1 by {
            if k >= 1 {
                assert(fs.table@[k] == entry_of(
                    parse_meta_spec(rv[k - 1].meta),
                    rv[k - 1].id,
                    (k + 1) as u64,
                ));
            }
        }
        assert(child_list_ok(fs.dirs@[0].children, fs.table@.len() as int));
    }
    fs
}

/// A directory map holding the root directory alone, with the given children.
fn vec_of_root(children: Vec<u64>) -> (r: Vec<DirNode>)
    ensures
        r@.len() == 1,
        r@[0]@ == (DirNodeView { ino: 1, children: children@ }),
{
    let mut r: Vec<DirNode> = Vec::new();
    r.push(DirNode { ino: 1, children });
    r
}

} // verus!
