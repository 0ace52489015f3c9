use blobfs::fs::ReadStep;
use blobfs::table::{build, FileKind, FsAdapter, MyMeta};
use blobfs::FsError;

fn chars(s: &str) -> Vec<char> {
    s.chars().collect()
}

fn rec(meta: &str, id: i32) -> MyMeta {
    MyMeta { meta: meta.to_string(), id }
}

fn sample() -> FsAdapter {
    build(vec![
        rec("name:report.pdf\nsize:1024\nperms:33188\nuid:501\ngid:20", 11),
        rec("name:notes.txt\nsize:3", 22),
        rec("name:photo.jpg\nsize:9000\nmtime:1700000000,5", 33),
    ])
}

#[test]
fn root_is_a_directory() {
    let fs = sample();
    let root = fs.getattr(1).unwrap_or_else(|_| panic!("inode 1 missing"));
    assert_eq!(root.ino, 1);
    assert!(matches!(root.kind, FileKind::Directory));
    // `..` of the root resolves to the root itself.
    let listing = fs.readdir(1, 0).unwrap_or_else(|_| panic!("root not listable"));
    assert_eq!(listing[0].name, chars("."));
    assert_eq!(listing[0].ino, 1);
    assert_eq!(listing[1].name, chars(".."));
    assert_eq!(listing[1].ino, 1);
}

#[test]
fn empty_mount_has_only_dots() {
    let fs = build(Vec::new());
    let listing = fs.readdir(1, 0).unwrap_or_else(|_| panic!("root not listable"));
    assert_eq!(listing.len(), 2);
    assert!(matches!(fs.lookup(1, &chars("anything")), Err(FsError::NotFound)));
}

#[test]
fn lookup_agrees_with_getattr() {
    let fs = sample();
    let e = fs.lookup(1, &chars("notes.txt")).unwrap_or_else(|_| panic!("lookup failed"));
    let ino = e.ino;
    let name = e.name.clone();
    let size = e.size;
    let g = fs.getattr(ino).unwrap_or_else(|_| panic!("getattr failed"));
    assert_eq!(g.ino, ino);
    assert_eq!(g.name, name);
    assert_eq!(g.size, size);
    assert_eq!(size, 3);
    assert_eq!(ino, 3);
}

#[test]
fn lookup_missing_name_is_not_found() {
    let fs = sample();
    assert!(matches!(fs.lookup(1, &chars("missing.txt")), Err(FsError::NotFound)));
}

#[test]
fn lookup_in_unknown_directory_is_not_found() {
    let fs = sample();
    assert!(matches!(fs.lookup(2, &chars("notes.txt")), Err(FsError::NotFound)));
    assert!(matches!(fs.lookup(99, &chars("notes.txt")), Err(FsError::NotFound)));
}

#[test]
fn duplicate_names_resolve_to_first() {
    let fs = build(vec![
        rec("name:twin\nsize:1", 1),
        rec("name:twin\nsize:2", 2),
    ]);
    let e = fs.lookup(1, &chars("twin")).unwrap_or_else(|_| panic!("lookup failed"));
    assert_eq!(e.ino, 2);
    assert_eq!(e.size, 1);
}

#[test]
fn getattr_unknown_inode_is_not_found() {
    let fs = sample();
    assert!(matches!(fs.getattr(0), Err(FsError::NotFound)));
    assert!(matches!(fs.getattr(5), Err(FsError::NotFound)));
}

#[test]
fn readdir_lists_every_entry_in_build_order() {
    let fs = sample();
    let listing = fs.readdir(1, 0).unwrap_or_else(|_| panic!("root not listable"));
    assert_eq!(listing.len(), 5);
    assert_eq!(listing[0].name, chars("."));
    assert_eq!(listing[1].name, chars(".."));
    assert_eq!(listing[2].name, chars("report.pdf"));
    assert_eq!(listing[3].name, chars("notes.txt"));
    assert_eq!(listing[4].name, chars("photo.jpg"));
    for (k, d) in listing.iter().enumerate() {
        assert_eq!(d.pos, k as u64 + 1);
        if k >= 2 {
            assert_eq!(d.ino, k as u64);
            assert!(matches!(d.kind, FileKind::RegularFile));
        }
    }
}

#[test]
fn readdir_resumes_without_skips_or_duplicates() {
    let fs = sample();
    let full = fs.readdir(1, 0).unwrap_or_else(|_| panic!("root not listable"));
    let tail = fs.readdir(1, 3).unwrap_or_else(|_| panic!("root not listable"));
    assert_eq!(tail.len(), full.len() - 3);
    for (k, d) in tail.iter().enumerate() {
        assert_eq!(d.ino, full[k + 3].ino);
        assert_eq!(d.pos, full[k + 3].pos);
        assert_eq!(d.name, full[k + 3].name);
    }
    let beyond = fs.readdir(1, 99).unwrap_or_else(|_| panic!("root not listable"));
    assert_eq!(beyond.len(), 0);
}

#[test]
fn readdir_unknown_directory_is_not_found() {
    let fs = sample();
    assert!(matches!(fs.readdir(2, 0), Err(FsError::NotFound)));
}

#[test]
fn read_unknown_inode_is_not_found() {
    let fs = sample();
    assert!(matches!(fs.read_step(9, 0, 16), Err(FsError::NotFound)));
}

#[test]
fn read_on_directory_is_type_mismatch() {
    let fs = sample();
    assert!(matches!(fs.read_step(1, 0, 16), Err(FsError::TypeMismatch)));
}

#[test]
fn read_fetches_once_then_serves_from_cache() {
    let mut fs = sample();
    let mut fetches: u32 = 0;
    // First read: the cache is empty, so exactly one fetch is requested.
    let id = match fs.read_step(3, 0, 8) {
        Ok(ReadStep::Fetch(id)) => {
            fetches += 1;
            id
        },
        _ => panic!("expected a fetch request"),
    };
    assert_eq!(id, 22);
    fs.store_content(3, b"abcdefgh".to_vec());
    // Every later read is served from the cache: no second fetch.
    for _ in 0..3 {
        match fs.read_step(3, 0, 8) {
            Ok(ReadStep::Data(d)) => assert_eq!(d, b"abcdefgh".to_vec()),
            Ok(ReadStep::Fetch(_)) => fetches += 1,
            Err(_) => panic!("read failed"),
        }
    }
    assert_eq!(fetches, 1);
}

#[test]
fn read_clamps_to_content() {
    let mut fs = sample();
    fs.store_content(2, b"hello world".to_vec());
    // offset at or past end-of-content: zero bytes.
    match fs.read_step(2, 11, 4) {
        Ok(ReadStep::Data(d)) => assert_eq!(d.len(), 0),
        _ => panic!("expected data"),
    }
    match fs.read_step(2, 200, 4) {
        Ok(ReadStep::Data(d)) => assert_eq!(d.len(), 0),
        _ => panic!("expected data"),
    }
    // inside: min(length, size - offset) bytes, matching the content.
    match fs.read_step(2, 6, 3) {
        Ok(ReadStep::Data(d)) => assert_eq!(d, b"wor".to_vec()),
        _ => panic!("expected data"),
    }
    match fs.read_step(2, 6, 100) {
        Ok(ReadStep::Data(d)) => assert_eq!(d, b"world".to_vec()),
        _ => panic!("expected data"),
    }
    match fs.read_step(2, 0, 11) {
        Ok(ReadStep::Data(d)) => assert_eq!(d, b"hello world".to_vec()),
        _ => panic!("expected data"),
    }
}

#[test]
fn failed_fetch_is_not_cached() {
    let mut fs = sample();
    // The fetch for inode 2 fails: nothing is stored, so the next read
    // requests the fetch again instead of serving empty content.
    match fs.read_step(2, 0, 4) {
        Ok(ReadStep::Fetch(id)) => assert_eq!(id, 11),
        _ => panic!("expected a fetch request"),
    }
    match fs.read_step(2, 0, 4) {
        Ok(ReadStep::Fetch(id)) => assert_eq!(id, 11),
        _ => panic!("expected a fetch request"),
    }
}

#[test]
fn malformed_record_still_mounts() {
    let fs = build(vec![
        rec("name:good.txt\nsize:4", 1),
        rec("size:notanumber", 2),
        rec("name:other.txt\nsize:6", 3),
    ]);
    // The malformed record gets an inode with default attributes.
    let bad = fs.getattr(3).unwrap_or_else(|_| panic!("inode 3 missing"));
    assert_eq!(bad.size, 0);
    assert_eq!(bad.name, Vec::<char>::new());
    // Every other entry is intact.
    let good = fs.lookup(1, &chars("good.txt")).unwrap_or_else(|_| panic!("lookup failed"));
    assert_eq!(good.size, 4);
    let other = fs.lookup(1, &chars("other.txt")).unwrap_or_else(|_| panic!("lookup failed"));
    assert_eq!(other.size, 6);
    assert_eq!(fs.readdir(1, 0).unwrap_or_else(|_| panic!("not listable")).len(), 5);
}

#[test]
fn content_identifiers_carry_over() {
    let fs = sample();
    let e = fs.getattr(4).unwrap_or_else(|_| panic!("inode 4 missing"));
    assert_eq!(e.content_id, 33);
    assert!(e.content.is_none());
}
