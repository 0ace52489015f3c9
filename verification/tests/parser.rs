use blobfs::meta::parse_meta;

fn chars(s: &str) -> Vec<char> {
    s.chars().collect()
}

#[test]
fn round_trip_full_record() {
    let block = "name:report.pdf\nsize:1024\nperms:33188\nuid:501\ngid:20\natime:1700000000,0\nmtime:1700000000,0\nctime:1700000000,0\ncrtime:1700000000,0";
    let a = parse_meta(block);
    assert_eq!(a.name, chars("report.pdf"));
    assert_eq!(a.size, 1024);
    assert_eq!(a.perms, 0o100644);
    assert_eq!(a.perms, 33188);
    assert_eq!(a.uid, 501);
    assert_eq!(a.gid, 20);
    assert_eq!((a.atime.sec, a.atime.nsec), (1700000000, 0));
    assert_eq!((a.mtime.sec, a.mtime.nsec), (1700000000, 0));
    assert_eq!((a.ctime.sec, a.ctime.nsec), (1700000000, 0));
    assert_eq!((a.crtime.sec, a.crtime.nsec), (1700000000, 0));
}

#[test]
fn malformed_size_defaults_to_zero() {
    let a = parse_meta("size:notanumber");
    assert_eq!(a.size, 0);
    assert_eq!(a.name, Vec::<char>::new());
}

#[test]
fn empty_text_gives_defaults() {
    let a = parse_meta("");
    assert_eq!(a.name, Vec::<char>::new());
    assert_eq!(a.size, 0);
    assert_eq!(a.perms, 0);
    assert_eq!(a.uid, 0);
    assert_eq!(a.gid, 0);
    assert_eq!((a.atime.sec, a.atime.nsec), (0, 0));
}

#[test]
fn unknown_keys_are_ignored() {
    let a = parse_meta("color:blue\nname:a.txt\nflavour:sour");
    assert_eq!(a.name, chars("a.txt"));
    assert_eq!(a.size, 0);
}

#[test]
fn field_order_does_not_matter() {
    let a = parse_meta("gid:7\nname:x\nsize:9\nuid:3");
    assert_eq!(a.name, chars("x"));
    assert_eq!(a.size, 9);
    assert_eq!(a.uid, 3);
    assert_eq!(a.gid, 7);
}

#[test]
fn last_occurrence_wins() {
    let a = parse_meta("size:1\nsize:2");
    assert_eq!(a.size, 2);
}

#[test]
fn malformed_occurrence_keeps_earlier_value() {
    let a = parse_meta("size:5\nsize:bad");
    assert_eq!(a.size, 5);
}

#[test]
fn key_without_value_is_skipped() {
    let a = parse_meta("size");
    assert_eq!(a.size, 0);
    let b = parse_meta("name");
    assert_eq!(b.name, Vec::<char>::new());
}

#[test]
fn key_found_after_unknown_segment() {
    // Every segment of a line is scanned as a potential key, so a key that
    // follows an unrecognized segment still takes the next segment as value.
    let a = parse_meta("foo:size:12");
    assert_eq!(a.size, 12);
}

#[test]
fn timestamp_needs_two_parts() {
    let a = parse_meta("atime:5");
    assert_eq!((a.atime.sec, a.atime.nsec), (0, 0));
    let b = parse_meta("atime:5,6");
    assert_eq!((b.atime.sec, b.atime.nsec), (5, 6));
    let c = parse_meta("atime:5,6,7");
    assert_eq!((c.atime.sec, c.atime.nsec), (5, 6));
}

#[test]
fn timestamp_may_be_negative() {
    let a = parse_meta("mtime:-3,-4");
    assert_eq!((a.mtime.sec, a.mtime.nsec), (-3, -4));
}

#[test]
fn malformed_timestamp_is_skipped() {
    let a = parse_meta("ctime:x,0\ncrtime:1,y");
    assert_eq!((a.ctime.sec, a.ctime.nsec), (0, 0));
    assert_eq!((a.crtime.sec, a.crtime.nsec), (0, 0));
}

#[test]
fn numbers_out_of_range_are_skipped() {
    // perms is 16-bit, uid 32-bit, size 64-bit; a value that does not fit
    // leaves the field at its default.
    let a = parse_meta("perms:70000\nuid:4294967296\nsize:18446744073709551616");
    assert_eq!(a.perms, 0);
    assert_eq!(a.uid, 0);
    assert_eq!(a.size, 0);
}

#[test]
fn largest_values_fit() {
    let a = parse_meta("perms:65535\nuid:4294967295\nsize:18446744073709551615");
    assert_eq!(a.perms, u16::MAX);
    assert_eq!(a.uid, u32::MAX);
    assert_eq!(a.size, u64::MAX);
}

#[test]
fn unsigned_sign_handling() {
    let a = parse_meta("size:+5");
    assert_eq!(a.size, 5);
    let b = parse_meta("size:-5");
    assert_eq!(b.size, 0);
}

#[test]
fn name_value_may_spell_a_key() {
    // The segment after a recognized key is consumed as its value, even if
    // it spells a key itself.
    let a = parse_meta("name:size:5");
    assert_eq!(a.name, chars("size"));
    assert_eq!(a.size, 0);
    let b = parse_meta("name:size:5\nsize:7");
    assert_eq!(b.name, chars("size"));
    assert_eq!(b.size, 7);
}
