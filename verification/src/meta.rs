//! The metadata record parser: decodes a newline-separated `key:value` text
//! blob into a structured attribute set. Parsing never fails; absent or
//! malformed fields fall back to their defaults.

use vstd::prelude::*;

use crate::text::{
    chars_of, dec_signed, dec_unsigned, parse_i32, parse_i64, parse_u16, parse_u32, parse_u64,
    pieces_view, split_char, split_on,
};

verus! {

/// A timestamp as a pair of seconds and nanoseconds.
#[derive(Clone, Copy, PartialEq, Eq, Structural, Debug)]
pub struct TimePair {
    pub sec: i64,
    pub nsec: i32,
}

/// The attribute set recovered from one metadata record.
pub struct Attrs {
    pub name: Vec<char>,
    pub size: u64,
    pub atime: TimePair,
    pub mtime: TimePair,
    pub ctime: TimePair,
    pub crtime: TimePair,
    pub perms: u16,
    pub uid: u32,
    pub gid: u32,
}

/// The mathematical model of an attribute set.
#[verifier::ext_equal]
pub struct AttrsView {
    pub name: Seq<char>,
    pub size: u64,
    pub atime: TimePair,
    pub mtime: TimePair,
    pub ctime: TimePair,
    pub crtime: TimePair,
    pub perms: u16,
    pub uid: u32,
    pub gid: u32,
}

impl View for Attrs {
    type V = AttrsView;

    open spec fn view(&self) -> AttrsView {
        AttrsView {
            name: self.name@,
            size: self.size,
            atime: self.atime,
            mtime: self.mtime,
            ctime: self.ctime,
            crtime: self.crtime,
            perms: self.perms,
            uid: self.uid,
            gid: self.gid,
        }
    }
}

pub open spec fn zero_time() -> TimePair {
    TimePair { sec: 0, nsec: 0 }
}

/// The defaults every field starts from: empty name, zero numbers.
pub open spec fn default_attrs() -> AttrsView {
    AttrsView {
        name: Seq::empty(),
        size: 0,
        atime: zero_time(),
        mtime: zero_time(),
        ctime: zero_time(),
        crtime: zero_time(),
        perms: 0,
        uid: 0,
        gid: 0,
    }
}

/// The recognized metadata field keys.
#[derive(Clone, Copy, PartialEq, Eq, Structural, Debug)]
pub enum Key {
    Name,
    Size,
    Atime,
    Mtime,
    Ctime,
    Crtime,
    Perms,
    Uid,
    Gid,
    Unknown,
}

/// Which recognized key, if any, the segment `s` spells.
pub open spec fn key_of(s: Seq<char>) -> Key {
    if s == seq!['n', 'a', 'm', 'e'] {
        Key::Name
    } else if s == seq!['s', 'i', 'z', 'e'] {
        Key::Size
    } else if s == seq!['a', 't', 'i', 'm', 'e'] {
        Key::Atime
    } else if s == seq!['m', 't', 'i', 'm', 'e'] {
        Key::Mtime
    } else if s == seq!['c', 't', 'i', 'm', 'e'] {
        Key::Ctime
    } else if s == seq!['c', 'r', 't', 'i', 'm', 'e'] {
        Key::Crtime
    } else if s == seq!['p', 'e', 'r', 'm', 's'] {
        Key::Perms
    } else if s == seq!['u', 'i', 'd'] {
        Key::Uid
    } else if s == seq!['g', 'i', 'd'] {
        Key::Gid
    } else {
        Key::Unknown
    }
}

/// A timestamp value `seconds,nanoseconds`: the piece before the first comma
/// read as a signed 64-bit count of seconds, the piece after it as a signed
/// 32-bit count of nanoseconds; anything else is malformed.
pub open spec fn time_of(val: Seq<char>) -> Option<TimePair> {
    let parts = split_on(val, ',');
    if parts.len() >= 2 {
        match (
            dec_signed(parts[0], i64::MIN as int, i64::MAX as int),
            dec_signed(parts[1], i32::MIN as int, i32::MAX as int),
        ) {
            (Some(sec), Some(nsec)) => Some(TimePair { sec: sec as i64, nsec: nsec as i32 }),
            _ => None,
        }
    } else {
        None
    }
}

/// The attribute set `a` updated by one `key:value` assignment. A value that
/// does not parse leaves the attribute set unchanged.
pub open spec fn set_field(k: Key, val: Seq<char>, a: AttrsView) -> AttrsView {
    match k {
        Key::Name => AttrsView { name: val, ..a },
        Key::Size => match dec_unsigned(val, u64::MAX as int) {
            Some(v) => AttrsView { size: v as u64, ..a },
            None => a,
        },
        Key::Atime => match time_of(val) {
            Some(t) => AttrsView { atime: t, ..a },
            None => a,
        },
        Key::Mtime => match time_of(val) {
            Some(t) => AttrsView { mtime: t, ..a },
            None => a,
        },
        Key::Ctime => match time_of(val) {
            Some(t) => AttrsView { ctime: t, ..a },
            None => a,
        },
        Key::Crtime => match time_of(val) {
            Some(t) => AttrsView { crtime: t, ..a },
            None => a,
        },
        Key::Perms => match dec_unsigned(val, u16::MAX as int) {
            Some(v) => AttrsView { perms: v as u16, ..a },
            None => a,
        },
        Key::Uid => match dec_unsigned(val, u32::MAX as int) {
            Some(v) => AttrsView { uid: v as u32, ..a },
            None => a,
        },
        Key::Gid => match dec_unsigned(val, u32::MAX as int) {
            Some(v) => AttrsView { gid: v as u32, ..a },
            None => a,
        },
        Key::Unknown => a,
    }
}

/// Walks the `:`-separated segments of one line. A segment that spells a
/// recognized key takes the following segment as its value; every other
/// segment is skipped.
pub open spec fn apply_segments(segs: Seq<Seq<char>>, a: AttrsView) -> AttrsView
    decreases segs.len(),
{
    if segs.len() == 0 {
        a
    } else if key_of(segs[0]) != Key::Unknown && segs.len() >= 2 {
        apply_segments(segs.skip(2), set_field(key_of(segs[0]), segs[1], a))
    } else {
        apply_segments(segs.skip(1), a)
    }
}

pub open spec fn apply_line(line: Seq<char>, a: AttrsView) -> AttrsView {
    apply_segments(split_on(line, ':'), a)
}

pub open spec fn parse_lines(lines: Seq<Seq<char>>, a: AttrsView) -> AttrsView
    decreases lines.len(),
{
    if lines.len() == 0 {
        a
    } else {
        parse_lines(lines.drop_first(), apply_line(lines[0], a))
    }
}

/// What the metadata record parser yields for the raw text `raw`: the lines
/// of `raw` applied in order to the default attribute set.
pub open spec fn parse_meta_spec(raw: Seq<char>) -> AttrsView {
    parse_lines(split_on(raw, '\n'), default_attrs())
}

/// A copy of a character vector.
pub fn copy_chars(v: &Vec<char>) -> (r: Vec<char>)
    ensures
        r@ == v@,
{
    let mut r: Vec<char> = Vec::new();
    let mut i: usize = 0;
    while i < v.len()
        invariant
            i <= v@.len(),
            r@ == v@.take(i as int),
        decreases v@.len() - i,
    {
        r.push(v[i]);
        proof {
            assert(v@.take(i as int).push(v@[i as int]) =~= v@.take(i as int + 1));
        }
        i += 1;
    }
    proof {
        assert(v@.take(i as int) =~= v@);
    }
    r
}

/// Which recognized key the segment spells, if any.
fn key_code(seg: &Vec<char>) -> (k: Key)
    ensures
        k == key_of(seg@),
{
    let n = seg.len();
    if n == 4 && seg[0] == 'n' && seg[1] == 'a' && seg[2] == 'm' && seg[3] == 'e' {
        proof {
            assert(seg@ =~= seq!['n', 'a', 'm', 'e']);
        }
        Key::Name
    } else if n == 4 && seg[0] == 's' && seg[1] == 'i' && seg[2] == 'z' && seg[3] == 'e' {
        proof {
            assert(seg@ =~= seq!['s', 'i', 'z', 'e']);
        }
        Key::Size
    } else if n == 5 && seg[0] == 'a' && seg[1] == 't' && seg[2] == 'i' && seg[3] == 'm' && seg[4]
        == 'e' {
        proof {
            assert(seg@ =~= seq!['a', 't', 'i', 'm', 'e']);
        }
        Key::Atime
    } else if n == 5 && seg[0] == 'm' && seg[1] == 't' && seg[2] == 'i' && seg[3] == 'm' && seg[4]
        == 'e' {
        proof {
            assert(seg@ =~= seq!['m', 't', 'i', 'm', 'e']);
        }
        Key::Mtime
    } else if n == 5 && seg[0] == 'c' && seg[1] == 't' && seg[2] == 'i' && seg[3] == 'm' && seg[4]
        == 'e' {
        proof {
            assert(seg@ =~= seq!['c', 't', 'i', 'm', 'e']);
        }
        Key::Ctime
    } else if n == 6 && seg[0] == 'c' && seg[1] == 'r' && seg[2] == 't' && seg[3] == 'i' && seg[4]
        == 'm' && seg[5] == 'e' {
        proof {
            assert(seg@ =~= seq!['c', 'r', 't', 'i', 'm', 'e']);
        }
        Key::Crtime
    } else if n == 5 && seg[0] == 'p' && seg[1] == 'e' && seg[2] == 'r' && seg[3] == 'm' && seg[4]
        == 's' {
        proof {
            assert(seg@ =~= seq!['p', 'e', 'r', 'm', 's']);
        }
        Key::Perms
    } else if n == 3 && seg[0] == 'u' && seg[1] == 'i' && seg[2] == 'd' {
        proof {
            assert(seg@ =~= seq!['u', 'i', 'd']);
        }
        Key::Uid
    } else if n == 3 && seg[0] == 'g' && seg[1] == 'i' && seg[2] == 'd' {
        proof {
            assert(seg@ =~= seq!['g', 'i', 'd']);
        }
        Key::Gid
    } else {
        Key::Unknown
    }
}

/// Reads a `seconds,nanoseconds` timestamp value.
fn parse_time(val: &Vec<char>) -> (r: Option<TimePair>)
    ensures
        r == time_of(val@),
{
    let parts = split_char(val.as_slice(), ',');
    if parts.len() >= 2 {
        proof {
            assert(pieces_view(parts@)[0] == parts@[0]@);
            assert(pieces_view(parts@)[1] == parts@[1]@);
        }
        let sec = parse_i64(parts[0].as_slice());
        let nsec = parse_i32(parts[1].as_slice());
        match (sec, nsec) {
            (Some(s), Some(n)) => Some(TimePair { sec: s, nsec: n }),
            _ => None,
        }
    } else {
        None
    }
}

/// The attribute set `a` updated by one assignment of `val` to the field `k`.
fn set_field_exec(k: Key, val: &Vec<char>, a: Attrs) -> (r: Attrs)
    ensures
        r@ == set_field(k, val@, a@),
{
    let mut r = a;
    match k {
        Key::Name => {
            r.name = copy_chars(val);
        },
        Key::Size => {
            if let Some(v) = parse_u64(val.as_slice()) {
                r.size = v;
            }
        },
        Key::Atime => {
            if let Some(t) = parse_time(val) {
                r.atime = t;
            }
        },
        Key::Mtime => {
            if let Some(t) = parse_time(val) {
                r.mtime = t;
            }
        },
        Key::Ctime => {
            if let Some(t) = parse_time(val) {
                r.ctime = t;
            }
        },
        Key::Crtime => {
            if let Some(t) = parse_time(val) {
                r.crtime = t;
            }
        },
        Key::Perms => {
            if let Some(v) = parse_u16(val.as_slice()) {
                r.perms = v;
            }
        },
        Key::Uid => {
            if let Some(v) = parse_u32(val.as_slice()) {
                r.uid = v;
            }
        },
        Key::Gid => {
            if let Some(v) = parse_u32(val.as_slice()) {
                r.gid = v;
            }
        },
        Key::Unknown => {},
    }
    proof {
        assert(r@ =~= set_field(k, val@, a@));
    }
    r
}

/// Parses one metadata record held as a character vector.
pub fn parse_meta_chars(cs: &Vec<char>) -> (a: Attrs)
    ensures
        a@ == parse_meta_spec(cs@),
{
    let lines = split_char(cs.as_slice(), '\n');
    let ghost linesv = pieces_view(lines@);
    let mut a = Attrs {
        name: Vec::new(),
        size: 0,
        atime: TimePair { sec: 0, nsec: 0 },
        mtime: TimePair { sec: 0, nsec: 0 },
        ctime: TimePair { sec: 0, nsec: 0 },
        crtime: TimePair { sec: 0, nsec: 0 },
        perms: 0,
        uid: 0,
        gid: 0,
    };
    proof {
        assert(a@ =~= default_attrs());
        assert(linesv.skip(0) =~= linesv);
    }
    let mut li: usize = 0;
    while li < lines.len()
        invariant
            li <= lines@.len(),
            linesv == pieces_view(lines@),
            parse_meta_spec(cs@) == parse_lines(linesv.skip(li as int), a@),
        decreases lines@.len() - li,
    {
        proof {
            assert(linesv[li as int] == lines@[li as int]@);
        }
        let segs = split_char(lines[li].as_slice(), ':');
        let ghost segsv = pieces_view(segs@);
        let ghost target = apply_line(linesv[li as int], a@);
        proof {
            assert(segsv.skip(0) =~= segsv);
        }
        let mut j: usize = 0;
        while j < segs.len()
            invariant
                j <= segs@.len(),
                segsv == pieces_view(segs@),
                target == apply_segments(segsv.skip(j as int), a@),
            decreases segs@.len() - j,
        {
            proof {
                assert(segsv.skip(j as int)[0] == segsv[j as int]);
                assert(segsv[j as int] == segs@[j as int]@);
            }
            let k = key_code(&segs[j]);
            if !matches!(k, Key::Unknown) && j + 1 < segs.len() {
                proof {
                    assert(segsv.skip(j as int)[1] == segsv[j as int + 1]);
                    assert(segsv[j as int + 1] == segs@[j as int + 1]@);
                    assert(segsv.skip(j as int).skip(2) =~= segsv.skip(j as int + 2));
                }
                a = set_field_exec(k, &segs[j + 1], a);
                j += 2;
            } else {
                proof {
                    assert(segsv.skip(j as int).skip(1) =~= segsv.skip(j as int + 1));
                    if !(k == Key::Unknown) {
                        assert(segsv.skip(j as int).len() < 2);
                    }
                }
                j += 1;
            }
        }
        proof {
            assert(segsv.skip(j as int) =~= Seq::<Seq<char>>::empty());
            assert(target == a@);
            assert(linesv.skip(li as int).drop_first() =~= linesv.skip(li as int + 1));
            assert(linesv.skip(li as int)[0] == linesv[li as int]);
        }
        li += 1;
    }
    proof {
        assert(linesv.skip(li as int) =~= Seq::<Seq<char>>::empty());
    }
    a
}

/// Parses one metadata record: free-form text in, attribute set out.
pub fn parse_meta(raw: &str) -> (a: Attrs)
    ensures
        a@ == parse_meta_spec(raw@),
{
    let cs = chars_of(raw);
    parse_meta_chars(&cs)
}

} // verus!
