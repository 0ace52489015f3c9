//! The filesystem adapter: entry lookup, attribute retrieval, directory
//! listing and content read over the built snapshot. Every operation is a
//! self-contained request/response pair; the only mutable state is the
//! per-entry content cache that a completed fetch populates.

use vstd::prelude::*;

use crate::meta::copy_chars;
use crate::table::{dir_children, DirNodeView, FileEntry, FileEntryView, FileKind, FsAdapter};
use crate::text::chars_eq;
use crate::FsError;

verus! {

/// The first child in `ch` whose table entry bears `name`, if any.
pub open spec fn first_named(t: Seq<FileEntryView>, ch: Seq<u64>, name: Seq<char>) -> Option<u64>
    decreases ch.len(),
{
    if ch.len() == 0 {
        None
    } else if 1 <= ch[0] <= t.len() && t[ch[0] - 1].name == name {
        Some(ch[0])
    } else {
        first_named(t, ch.drop_first(), name)
    }
}

/// What `lookup` resolves: the first child of directory `parent` whose name
/// matches `name` exactly, or nothing when the directory is unknown or no
/// child matches.
pub open spec fn lookup_spec(
    t: Seq<FileEntryView>,
    dirs: Seq<DirNodeView>,
    parent: u64,
    name: Seq<char>,
) -> Option<u64> {
    match dir_children(dirs, parent) {
        None => None,
        Some(ch) => first_named(t, ch, name),
    }
}

pub proof fn lemma_first_named_valid(t: Seq<FileEntryView>, ch: Seq<u64>, name: Seq<char>)
    requires
        first_named(t, ch, name) is Some,
    ensures
        ({
            let c = first_named(t, ch, name)->Some_0;
            &&& 1 <= c <= t.len()
            &&& t[c - 1].name == name
        }),
    decreases ch.len(),
{
    if ch.len() > 0 {
        if !(1 <= ch[0] <= t.len() && t[ch[0] - 1].name == name) {
            lemma_first_named_valid(t, ch.drop_first(), name);
        }
    }
}

pub proof fn lemma_first_named_some(t: Seq<FileEntryView>, ch: Seq<u64>, name: Seq<char>, k: int)
    requires
        0 <= k < ch.len(),
        1 <= ch[k] <= t.len(),
        t[ch[k] - 1].name == name,
    ensures
        first_named(t, ch, name) is Some,
    decreases ch.len(),
{
    if !(1 <= ch[0] <= t.len() && t[ch[0] - 1].name == name) {
        assert(ch.drop_first()[k - 1] == ch[k]);
        lemma_first_named_some(t, ch.drop_first(), name, k - 1);
    }
}

/// The children of `ch` that survive the self-reference guard: every child
/// except the listed directory itself.
pub open spec fn vis_children(ch: Seq<u64>, ino: u64) -> Seq<u64>
    decreases ch.len(),
{
    if ch.len() == 0 {
        Seq::empty()
    } else if ch[0] == ino {
        vis_children(ch.drop_first(), ino)
    } else {
        seq![ch[0]] + vis_children(ch.drop_first(), ino)
    }
}

pub proof fn lemma_vis_children_len(ch: Seq<u64>, ino: u64)
    ensures
        vis_children(ch, ino).len() <= ch.len(),
    decreases ch.len(),
{
    if ch.len() > 0 {
        lemma_vis_children_len(ch.drop_first(), ino);
    }
}

pub proof fn lemma_vis_children_range(ch: Seq<u64>, ino: u64, lo: u64, hi: int)
    requires
        forall|k: int| 0 <= k < ch.len() ==> lo <= #[trigger] ch[k] <= hi,
    ensures
        forall|k: int|
            0 <= k < vis_children(ch, ino).len() ==> lo <= #[trigger] vis_children(ch, ino)[k]
                <= hi,
    decreases ch.len(),
{
    if ch.len() > 0 {
        assert(forall|k: int|
            0 <= k < ch.drop_first().len() ==> lo <= #[trigger] ch.drop_first()[k] <= hi);
        lemma_vis_children_range(ch.drop_first(), ino, lo, hi);
        let rest = vis_children(ch.drop_first(), ino);
        if ch[0] != ino {
            assert forall|k: int|
                0 <= k < vis_children(ch, ino).len() implies lo <= #[trigger] vis_children(
                ch,
                ino,
            )[k] <= hi by {
                if k == 0 {
                    assert(vis_children(ch, ino)[0] == ch[0]);
                } else {
                    assert(vis_children(ch, ino)[k] == rest[k - 1]);
                }
            }
        }
    }
}

/// When no child is the directory itself, the guard removes nothing.
pub proof fn lemma_vis_children_id(ch: Seq<u64>, ino: u64)
    requires
        forall|k: int| 0 <= k < ch.len() ==> #[trigger] ch[k] != ino,
    ensures
        vis_children(ch, ino) == ch,
    decreases ch.len(),
{
    if ch.len() > 0 {
        assert(forall|k: int|
            0 <= k < ch.drop_first().len() ==> #[trigger] ch.drop_first()[k] != ino);
        lemma_vis_children_id(ch.drop_first(), ino);
        assert(seq![ch[0]] + ch.drop_first() =~= ch);
    }
}

/// One produced directory entry: the child inode, its implied position in
/// the full listing (for resumption), its kind and its name.
pub struct DirEntry {
    pub ino: u64,
    pub pos: u64,
    pub kind: FileKind,
    pub name: Vec<char>,
}

/// The mathematical model of a produced directory entry.
#[verifier::ext_equal]
pub struct DirEntryView {
    pub ino: u64,
    pub pos: u64,
    pub kind: FileKind,
    pub name: Seq<char>,
}

impl View for DirEntry {
    type V = DirEntryView;

    open spec fn view(&self) -> DirEntryView {
        DirEntryView { ino: self.ino, pos: self.pos, kind: self.kind, name: self.name@ }
    }
}

pub open spec fn dents_view(s: Seq<DirEntry>) -> Seq<DirEntryView> {
    s.map_values(|d: DirEntry| d@)
}

/// Entry `k` of the full listing of directory `ino`: `.` first, `..` second
/// (both naming the directory itself), then the visible children in order,
/// each entry carrying its position `k + 1`.
pub open spec fn listing_entry(
    t: Seq<FileEntryView>,
    vis: Seq<u64>,
    ino: u64,
    k: int,
) -> DirEntryView {
    if k == 0 {
        DirEntryView { ino: ino, pos: 1, kind: FileKind::Directory, name: seq!['.'] }
    } else if k == 1 {
        DirEntryView { ino: ino, pos: 2, kind: FileKind::Directory, name: seq!['.', '.'] }
    } else {
        DirEntryView {
            ino: vis[k - 2],
            pos: (k + 1) as u64,
            kind: t[vis[k - 2] - 1].kind,
            name: t[vis[k - 2] - 1].name,
        }
    }
}

/// The full listing of directory `ino` with child list `ch`.
pub open spec fn dir_listing(t: Seq<FileEntryView>, ch: Seq<u64>, ino: u64) -> Seq<DirEntryView> {
    let vis = vis_children(ch, ino);
    Seq::new(vis.len() + 2, |k: int| listing_entry(t, vis, ino, k))
}

/// What `readdir` yields: nothing when `ino` is not a known directory, else
/// the full listing resumed from `offset`.
pub open spec fn readdir_spec(
    t: Seq<FileEntryView>,
    dirs: Seq<DirNodeView>,
    ino: u64,
    offset: int,
) -> Option<Seq<DirEntryView>> {
    match dir_children(dirs, ino) {
        None => None,
        Some(ch) => {
            let full = dir_listing(t, ch, ino);
            if offset <= full.len() {
                Some(full.skip(offset))
            } else {
                Some(Seq::empty())
            }
        },
    }
}

/// The requested slice of cached content: empty at or past end of content,
/// otherwise the bytes from `offset` on, clamped to at most `len`.
pub open spec fn read_range(c: Seq<u8>, offset: u64, len: u32) -> Seq<u8> {
    if offset >= c.len() {
        Seq::empty()
    } else if offset + len <= c.len() {
        c.subrange(offset as int, offset as int + len as int)
    } else {
        c.subrange(offset as int, c.len() as int)
    }
}

/// One step of a content read.
pub enum ReadStep {
    /// The requested slice, served from the entry's cache.
    Data(Vec<u8>),
    /// The cache is empty: the caller must fetch this content identifier
    /// and store the bytes before retrying.
    Fetch(i32),
}

/// The mathematical model of a read step.
#[verifier::ext_equal]
pub enum ReadStepView {
    Data(Seq<u8>),
    Fetch(i32),
}

impl View for ReadStep {
    type V = ReadStepView;

    open spec fn view(&self) -> ReadStepView {
        match self {
            ReadStep::Data(v) => ReadStepView::Data(v@),
            ReadStep::Fetch(id) => ReadStepView::Fetch(*id),
        }
    }
}

/// What one read step yields: the error for an unknown inode or a
/// non-regular file, a fetch request while the cache is empty, and the
/// clamped slice of the cached bytes once it is full.
pub open spec fn read_step_spec(
    t: Seq<FileEntryView>,
    ino: u64,
    offset: u64,
    len: u32,
) -> Result<ReadStepView, FsError> {
    if !(1 <= ino <= t.len()) {
        Err(FsError::NotFound)
    } else if t[ino - 1].kind != FileKind::RegularFile {
        Err(FsError::TypeMismatch)
    } else {
        match t[ino - 1].content {
            None => Ok(ReadStepView::Fetch(t[ino - 1].content_id)),
            Some(c) => Ok(ReadStepView::Data(read_range(c, offset, len))),
        }
    }
}

/// The table after a completed fetch for `ino` stores `bytes` in that
/// entry's cache; a table without such an entry is left unchanged.
pub open spec fn store_spec(t: Seq<FileEntryView>, ino: u64, bytes: Seq<u8>) -> Seq<
    FileEntryView,
> {
    if 1 <= ino <= t.len() && t[ino - 1].kind == FileKind::RegularFile {
        t.update(ino - 1, FileEntryView { content: Some(bytes), ..t[ino - 1] })
    } else {
        t
    }
}

impl FsAdapter {
    /// The table entry of a valid inode.
    fn entry_at(&self, ino: u64) -> (e: &FileEntry)
        requires
            self.wf(),
            1 <= ino <= self.table@.len(),
        ensures
            e@ == self.table@[ino - 1],
            e.ino == ino,
    {
        let n = self.table.entries.len();
        proof {
            assert(n == self.table@.len());
        }
        let e = &self.table.entries[(ino - 1) as usize];
        proof {
            assert(e@ == self.table@[ino - 1]);
        }
        e
    }

    /// The children of the directory `ino`, if the map knows it.
    fn find_dir(&self, ino: u64) -> (r: Option<&Vec<u64>>)
        ensures
            match r {
                Some(ch) => dir_children(self.dirs@, ino) == Some(ch@),
                None => dir_children(self.dirs@, ino) is None,
            },
    {
        let ghost dv = self.dirs@;
        let mut i: usize = 0;
        proof {
            assert(dv.skip(0) =~= dv);
        }
        while i < self.dirs.dirs.len()
            invariant
                i <= dv.len(),
                dv == self.dirs@,
                dir_children(dv, ino) == dir_children(dv.skip(i as int), ino),
            decreases dv.len() - i,
        {
            proof {
                assert(dv.skip(i as int)[0] == dv[i as int]);
                assert(dv[i as int] == self.dirs.dirs@[i as int]@);
                assert(dv.skip(i as int).drop_first() =~= dv.skip(i as int + 1));
            }
            if self.dirs.dirs[i].ino == ino {
                return Some(&self.dirs.dirs[i].children);
            }
            i += 1;
        }
        proof {
            assert(dv.skip(i as int) =~= Seq::<DirNodeView>::empty());
        }
        None
    }

    /// Entry lookup: scans the children of `parent` for the first one whose
    /// name matches `name` exactly; `NotFound` when the directory is unknown
    /// or no child matches.
    pub fn lookup(&self, parent: u64, name: &Vec<char>) -> (r: Result<&FileEntry, FsError>)
        requires
            self.wf(),
        ensures
            match r {
                Ok(e) => {
                    &&& lookup_spec(self.table@, self.dirs@, parent, name@) == Some(e.ino)
                    &&& 1 <= e.ino <= self.table@.len()
                    &&& e@ == self.table@[e.ino - 1]
                },
                Err(err) => {
                    &&& err == FsError::NotFound
                    &&& lookup_spec(self.table@, self.dirs@, parent, name@) is None
                },
            },
    {
        let ghost t = self.table@;
        let ch = match self.find_dir(parent) {
            Some(ch) => ch,
            None => {
                return Err(FsError::NotFound);
            },
        };
        let ghost chv = ch@;
        let mut i: usize = 0;
        proof {
            assert(chv.skip(0) =~= chv);
            crate::table::lemma_dir_children_found(self.dirs@, parent, self.table@.len() as int);
        }
        while i < ch.len()
            invariant
                self.wf(),
                i <= chv.len(),
                chv == ch@,
                crate::table::child_list_ok(chv, t.len() as int),
                t == self.table@,
                dir_children(self.dirs@, parent) == Some(chv),
                first_named(t, chv, name@) == first_named(t, chv.skip(i as int), name@),
            decreases chv.len() - i,
        {
            proof {
                assert(chv.skip(i as int)[0] == chv[i as int]);
                assert(chv.skip(i as int).drop_first() =~= chv.skip(i as int + 1));
            }
            let c = ch[i];
            proof {
                assert(1 <= chv[i as int] <= t.len());
            }
            let e = self.entry_at(c);
            if chars_eq(&e.name, name) {
                proof {
                    assert(t[c - 1].name == name@);
                    assert(first_named(t, chv.skip(i as int), name@) == Some(c));
                }
                return Ok(e);
            }
            i += 1;
        }
        proof {
            assert(chv.skip(i as int) =~= Seq::<u64>::empty());
        }
        Err(FsError::NotFound)
    }

    /// Attribute retrieval: the entry's full attribute set, unchanged from
    /// build time; `NotFound` when the inode is absent from the table.
    pub fn getattr(&self, ino: u64) -> (r: Result<&FileEntry, FsError>)
        requires
            self.wf(),
        ensures
            match r {
                Ok(e) => {
                    &&& 1 <= ino <= self.table@.len()
                    &&& e@ == self.table@[ino - 1]
                    &&& e.ino == ino
                },
                Err(err) => {
                    &&& err == FsError::NotFound
                    &&& !(1 <= ino <= self.table@.len())
                },
            },
    {
        if 1 <= ino && ino <= self.table.entries.len() as u64 {
            let e = &self.table.entries[(ino - 1) as usize];
            proof {
                assert(e@ == self.table@[ino - 1]);
            }
            Ok(e)
        } else {
            Err(FsError::NotFound)
        }
    }

    /// Directory listing: `.` and `..` (both naming `ino` itself), then
    /// every child but the directory itself, in map order, resumed from
    /// `offset`; `NotFound` when `ino` is not a known directory.
    pub fn readdir(&self, ino: u64, offset: usize) -> (r: Result<Vec<DirEntry>, FsError>)
        requires
            self.wf(),
        ensures
            match r {
                Ok(v) => readdir_spec(self.table@, self.dirs@, ino, offset as int) == Some(
                    dents_view(v@),
                ),
                Err(err) => {
                    &&& err == FsError::NotFound
                    &&& readdir_spec(self.table@, self.dirs@, ino, offset as int) is None
                },
            },
    {
        let ghost t = self.table@;
        let ch = match self.find_dir(ino) {
            Some(ch) => ch,
            None => {
                return Err(FsError::NotFound);
            },
        };
        let ghost chv = ch@;
        proof {
            crate::table::lemma_dir_children_found(self.dirs@, ino, self.table@.len() as int);
            lemma_vis_children_len(chv, ino);
            lemma_vis_children_range(chv, ino, 1, t.len() as int);
        }
        // Collect the visible children: every child except the directory itself.
        let mut vis: Vec<u64> = Vec::new();
        let mut i: usize = 0;
        proof {
            assert(chv.skip(0) =~= chv);
            assert(vis@ + vis_children(chv, ino) =~= vis_children(chv, ino));
        }
        while i < ch.len()
            invariant
                i <= chv.len(),
                chv == ch@,
                vis_children(chv, ino) == vis@ + vis_children(chv.skip(i as int), ino),
            decreases chv.len() - i,
        {
            proof {
                assert(chv.skip(i as int)[0] == chv[i as int]);
                assert(chv.skip(i as int).drop_first() =~= chv.skip(i as int + 1));
            }
            let c = ch[i];
            if c != ino {
                proof {
                    assert((vis@ + seq![c]) + vis_children(chv.skip(i as int + 1), ino) =~= vis@
                        + (seq![c] + vis_children(chv.skip(i as int + 1), ino)));
                }
                vis.push(c);
            }
            i += 1;
        }
        proof {
            assert(chv.skip(i as int) =~= Seq::<u64>::empty());
            assert(vis@ + vis_children(chv.skip(i as int), ino) =~= vis@);
        }
        let ghost visv = vis_children(chv, ino);
        let ghost full = dir_listing(t, chv, ino);
        let full_len: u64 = (vis.len() as u64) + 2;
        let start: u64 = if (offset as u64) > full_len {
            full_len
        } else {
            offset as u64
        };
        let mut out: Vec<DirEntry> = Vec::new();
        let mut k: u64 = start;
        proof {
            assert(dents_view(out@) =~= full.subrange(start as int, start as int));
        }
        while k < full_len
            invariant
                self.wf(),
                t == self.table@,
                start <= k <= full_len,
                full_len == visv.len() + 2,
                visv == vis_children(chv, ino),
                vis@ == visv,
                full == dir_listing(t, chv, ino),
                forall|j: int| 0 <= j < visv.len() ==> 1 <= #[trigger] visv[j] <= t.len(),
                dents_view(out@) == full.subrange(start as int, k as int),
            decreases full_len - k,
        {
            let d: DirEntry;
            if k == 0 {
                let mut nm: Vec<char> = Vec::new();
                nm.push('.');
                proof {
                    assert(nm@ =~= seq!['.']);
                }
                d = DirEntry { ino: ino, pos: 1, kind: FileKind::Directory, name: nm };
            } else if k == 1 {
                let mut nm: Vec<char> = Vec::new();
                nm.push('.');
                nm.push('.');
                proof {
                    assert(nm@ =~= seq!['.', '.']);
                }
                d = DirEntry { ino: ino, pos: 2, kind: FileKind::Directory, name: nm };
            } else {
                let c = vis[(k - 2) as usize];
                let e = self.entry_at(c);
                d = DirEntry { ino: c, pos: k + 1, kind: e.kind, name: copy_chars(&e.name) };
            }
            proof {
                assert(d@ =~= full[k as int]);
                assert(dents_view(out@.push(d)) =~~= dents_view(out@).push(d@));
                assert(full.subrange(start as int, k as int).push(full[k as int]) =~= full
                    .subrange(start as int, k as int + 1));
            }
            out.push(d);
            k += 1;
        }
        proof {
            assert(full.subrange(start as int, full_len as int) =~= full.skip(start as int));
            if offset <= full.len() {
                assert(start as int == offset as int);
            } else {
                assert(full.skip(start as int) =~= Seq::<DirEntryView>::empty());
            }
        }
        Ok(out)
    }

    /// One step of a content read. Serves the clamped slice from the cache
    /// when it is populated; otherwise asks the caller to fetch the entry's
    /// content identifier. `NotFound` for an unknown inode, `TypeMismatch`
    /// for an inode that is not a regular file.
    pub fn read_step(&self, ino: u64, offset: u64, len: u32) -> (r: Result<ReadStep, FsError>)
        requires
            self.wf(),
        ensures
            match r {
                Ok(step) => read_step_spec(self.table@, ino, offset, len) == Ok::<
                    ReadStepView,
                    FsError,
                >(step@),
                Err(err) => read_step_spec(self.table@, ino, offset, len) == Err::<
                    ReadStepView,
                    FsError,
                >(err),
            },
    {
        if !(1 <= ino && ino <= self.table.entries.len() as u64) {
            return Err(FsError::NotFound);
        }
        let e = &self.table.entries[(ino - 1) as usize];
        proof {
            assert(e@ == self.table@[ino - 1]);
        }
        if !matches!(e.kind, FileKind::RegularFile) {
            return Err(FsError::TypeMismatch);
        }
        match &e.content {
            None => Ok(ReadStep::Fetch(e.content_id)),
            Some(data) => Ok(ReadStep::Data(slice_range(data, offset, len))),
        }
    }

    /// Stores the bytes of a completed fetch in the entry's content cache.
    /// A failed fetch must not be stored: the caller reports the read error
    /// and a later read retries the fetch.
    pub fn store_content(&mut self, ino: u64, bytes: Vec<u8>)
        requires
            old(self).wf(),
        ensures
            final(self).wf(),
            final(self).dirs@ == old(self).dirs@,
            final(self).table@ == store_spec(old(self).table@, ino, bytes@),
    {
        let ghost t0 = self.table@;
        if 1 <= ino && ino <= self.table.entries.len() as u64 {
            let idx = (ino - 1) as usize;
            let regular = matches!(self.table.entries[idx].kind, FileKind::RegularFile);
            if regular {
                let e = &mut self.table.entries[idx];
                e.content = Some(bytes);
                proof {
                    assert(self.table.entries@[idx as int]@ =~= (FileEntryView {
                        content: Some(bytes@),
                        ..t0[ino - 1]
                    }));
                    assert(self.table@ =~~= store_spec(t0, ino, bytes@));
                    assert(forall|d: int|
                        0 <= d < self.dirs@.len() ==> crate::table::child_list_ok(
                            (#[trigger] self.dirs@[d]).children,
                            self.table@.len() as int,
                        ));
                    assert forall|j: int|
                        0 <= j < self.table@.len() implies (#[trigger] self.table@[j]).ino == j
                        + 1 by {
                        if j != ino - 1 {
                            assert(self.table@[j] == t0[j]);
                        }
                    }
                }
                return ;
            }
        }
        proof {
            assert(self.table@ =~~= store_spec(t0, ino, bytes@));
        }
    }
}

/// The `[offset, offset + len)` slice of `data`, clamped to the available
/// content: fewer bytes past the end, no bytes at or past end-of-content.
pub fn slice_range(data: &Vec<u8>, offset: u64, len: u32) -> (r: Vec<u8>)
    ensures
        r@ == read_range(data@, offset, len),
{
    let n = data.len();
    if offset >= n as u64 {
        let r: Vec<u8> = Vec::new();
        proof {
            assert(r@ =~= read_range(data@, offset, len));
        }
        return r;
    }
    let start = offset as usize;
    let remaining: u64 = (n as u64) - offset;
    let end: usize = if remaining <= len as u64 {
        n
    } else {
        start + (len as usize)
    };
    let mut r: Vec<u8> = Vec::new();
    let mut k: usize = start;
    proof {
        assert(r@ =~= data@.subrange(start as int, start as int));
    }
    while k < end
        invariant
            start <= k <= end <= data@.len(),
            r@ == data@.subrange(start as int, k as int),
        decreases end - k,
    {
        r.push(data[k]);
        proof {
            assert(data@.subrange(start as int, k as int).push(data@[k as int]) =~= data@
                .subrange(start as int, k as int + 1));
        }
        k += 1;
    }
    proof {
        assert(r@ =~= read_range(data@, offset, len));
    }
    r
}

} // verus!
