//! The laws of the built filesystem, stated and proved over the builder's
//! and adapter's specifications.

use vstd::prelude::*;

use crate::fs::{
    dir_listing, first_named, lemma_first_named_some, lemma_first_named_valid,
    lemma_vis_children_id, lookup_spec, read_range, read_step_spec, readdir_spec, store_spec,
    DirEntryView, ReadStepView,
};
use crate::meta::parse_meta_spec;
use crate::table::{
    dir_children, dirs_spec, entry_of, table_spec, DirNodeView, FileEntryView, FileKind,
    MyMetaView,
};
use crate::FsError;

verus! {

/// Law: in every built snapshot, inode 1 is present and is a directory, and
/// both the `.` and `..` entries of its listing point back at inode 1
/// itself: the root has no parent other than itself.
pub proof fn lemma_root_directory(metas: Seq<MyMetaView>)
    requires
        metas.len() + 2 <= u64::MAX,
    ensures
        table_spec(metas).len() >= 1,
        table_spec(metas)[0].ino == 1,
        table_spec(metas)[0].kind == FileKind::Directory,
        dir_children(dirs_spec(metas.len()), 1) is Some,
        readdir_spec(table_spec(metas), dirs_spec(metas.len()), 1, 0) is Some,
        readdir_spec(table_spec(metas), dirs_spec(metas.len()), 1, 0)->Some_0[0].ino == 1,
        readdir_spec(table_spec(metas), dirs_spec(metas.len()), 1, 0)->Some_0[1].ino == 1,
{
    let t = table_spec(metas);
    let d = dirs_spec(metas.len());
    let ch = Seq::new(metas.len(), |i: int| (i + 2) as u64);
    assert(dir_children(d, 1) == Some(ch));
    assert(forall|k: int| 0 <= k < ch.len() ==> #[trigger] ch[k] != 1);
    lemma_vis_children_id(ch, 1);
    let full = dir_listing(t, ch, 1);
    assert(full.skip(0) =~= full);
}

/// Law: looking up any table entry's name under the root resolves to an
/// inode of the table bearing exactly that name — so the attributes lookup
/// hands out are the very attributes `getattr` returns for that inode.
pub proof fn lemma_lookup_matches_getattr(metas: Seq<MyMetaView>, j: int)
    requires
        metas.len() + 2 <= u64::MAX,
        1 <= j < table_spec(metas).len(),
    ensures
        ({
            let t = table_spec(metas);
            let r = lookup_spec(t, dirs_spec(metas.len()), 1, t[j].name);
            &&& r is Some
            &&& 1 <= r->Some_0 <= t.len()
            &&& t[r->Some_0 - 1].name == t[j].name
        }),
{
    let t = table_spec(metas);
    let d = dirs_spec(metas.len());
    let ch = Seq::new(metas.len(), |i: int| (i + 2) as u64);
    assert(dir_children(d, 1) == Some(ch));
    assert(ch[j - 1] == (j + 1) as u64);
    lemma_first_named_some(t, ch, t[j].name, j - 1);
    lemma_first_named_valid(t, ch, t[j].name);
}

/// Law: listing the root from offset zero yields `.`, `..`, then exactly
/// one entry per built file, in build order, each at its own position —
/// no duplicates, no omissions.
pub proof fn lemma_readdir_complete(metas: Seq<MyMetaView>)
    requires
        metas.len() + 2 <= u64::MAX,
    ensures
        ({
            let r = readdir_spec(table_spec(metas), dirs_spec(metas.len()), 1, 0);
            &&& r is Some
            &&& r->Some_0.len() == 2 + metas.len()
            &&& r->Some_0[0] == (DirEntryView {
                ino: 1,
                pos: 1,
                kind: FileKind::Directory,
                name: seq!['.'],
            })
            &&& r->Some_0[1] == (DirEntryView {
                ino: 1,
                pos: 2,
                kind: FileKind::Directory,
                name: seq!['.', '.'],
            })
            &&& forall|k: int|
                2 <= k < r->Some_0.len() ==> #[trigger] r->Some_0[k] == (DirEntryView {
                    ino: k as u64,
                    pos: (k + 1) as u64,
                    kind: FileKind::RegularFile,
                    name: parse_meta_spec(metas[k - 2].meta).name,
                })
        }),
{
    let t = table_spec(metas);
    let d = dirs_spec(metas.len());
    let ch = Seq::new(metas.len(), |i: int| (i + 2) as u64);
    assert(dir_children(d, 1) == Some(ch));
    assert(forall|k: int| 0 <= k < ch.len() ==> #[trigger] ch[k] != 1);
    lemma_vis_children_id(ch, 1);
    let full = dir_listing(t, ch, 1);
    assert(full.skip(0) =~= full);
    assert forall|k: int| 2 <= k < full.len() implies #[trigger] full[k] == (DirEntryView {
        ino: k as u64,
        pos: (k + 1) as u64,
        kind: FileKind::RegularFile,
        name: parse_meta_spec(metas[k - 2].meta).name,
    }) by {
        assert(ch[k - 2] == k as u64);
        assert(t[k - 1] == entry_of(
            parse_meta_spec(metas[k - 2].meta),
            metas[k - 2].id,
            k as u64,
        ));
    }
}

/// Law: a read at or past the end of the content yields no bytes; below
/// it, exactly `min(len, size - offset)` bytes, each one the content byte
/// at its own offset, unchanged.
pub proof fn lemma_read_clamping(c: Seq<u8>, offset: u64, len: u32)
    ensures
        offset >= c.len() ==> read_range(c, offset, len) == Seq::<u8>::empty(),
        offset < c.len() ==> read_range(c, offset, len).len() == (if len as int <= c.len()
            - offset {
            len as int
        } else {
            c.len() - offset
        }),
        forall|i: int|
            0 <= i < read_range(c, offset, len).len() ==> #[trigger] read_range(c, offset, len)[i]
                == c[offset + i],
{
}

/// Law: once a completed fetch has stored an entry's bytes, a read of that
/// inode is served from the cache — it requests no further fetch — and
/// returns exactly the clamped slice of the stored bytes.
pub proof fn lemma_no_second_fetch(
    t: Seq<FileEntryView>,
    ino: u64,
    bytes: Seq<u8>,
    offset: u64,
    len: u32,
)
    requires
        1 <= ino <= t.len(),
        t[ino - 1].kind == FileKind::RegularFile,
    ensures
        read_step_spec(store_spec(t, ino, bytes), ino, offset, len) == Ok::<
            ReadStepView,
            FsError,
        >(ReadStepView::Data(read_range(bytes, offset, len))),
{
    let t2 = store_spec(t, ino, bytes);
    assert(t2[ino - 1].content == Some(bytes));
    assert(t2[ino - 1].kind == FileKind::RegularFile);
}

/// Law: lookup is deterministic on duplicate names — when no child before
/// position `k` of the directory matches and the child at `k` does, the
/// match at `k` is the one resolved, never a later one.
pub proof fn lemma_first_named_first(t: Seq<FileEntryView>, ch: Seq<u64>, name: Seq<char>, k: int)
    requires
        0 <= k < ch.len(),
        1 <= ch[k] <= t.len(),
        t[ch[k] - 1].name == name,
        forall|j: int|
            0 <= j < k ==> !(1 <= #[trigger] ch[j] <= t.len() && t[ch[j] - 1].name == name),
    ensures
        first_named(t, ch, name) == Some(ch[k]),
    decreases ch.len(),
{
    if k > 0 {
        assert(!(1 <= ch[0] <= t.len() && t[ch[0] - 1].name == name));
        assert(ch.drop_first()[k - 1] == ch[k]);
        assert(forall|j: int|
            0 <= j < k - 1 ==> !(1 <= #[trigger] ch.drop_first()[j] <= t.len() && t[ch.drop_first()[j]
                - 1].name == name));
        lemma_first_named_first(t, ch.drop_first(), name, k - 1);
    }
}

/// No child of a directory bears `name`: the scan finds nothing.
pub proof fn lemma_first_named_none(t: Seq<FileEntryView>, ch: Seq<u64>, name: Seq<char>)
    requires
        forall|j: int| 0 <= j < t.len() ==> (#[trigger] t[j]).name != name,
    ensures
        first_named(t, ch, name) is None,
    decreases ch.len(),
{
    if ch.len() > 0 {
        lemma_first_named_none(t, ch.drop_first(), name);
    }
}

/// Law: when no entry of the table bears the requested name, lookup under
/// any directory reports nothing — the `NotFound` case.
pub proof fn lemma_lookup_missing(
    t: Seq<FileEntryView>,
    dirs: Seq<DirNodeView>,
    parent: u64,
    name: Seq<char>,
)
    requires
        forall|j: int| 0 <= j < t.len() ==> (#[trigger] t[j]).name != name,
    ensures
        lookup_spec(t, dirs, parent, name) is None,
{
    if dir_children(dirs, parent) is Some {
        lemma_first_named_none(t, dir_children(dirs, parent)->Some_0, name);
    }
}

} // verus!
