//! Splitting and decimal-numeral decoding over character sequences, the
//! groundwork for the metadata record parser.

use vstd::prelude::*;

verus! {

broadcast use vstd::string::axiom_spec_iter;

/// The characters of `s`, collected into a vector.
pub fn chars_of(s: &str) -> (r: Vec<char>)
    ensures
        r@ == s@,
{
    let mut r: Vec<char> = Vec::new();
    for c in it: s.chars()
        invariant
            r@ == it.seq().take(it.index() as int),
    {
        r.push(c);
    }
    proof {
        assert(r@ =~= s@);
    }
    r
}

/// True when no character of `s` equals `sep`.
pub open spec fn sep_free(s: Seq<char>, sep: char) -> bool {
    forall|i: int| 0 <= i < s.len() ==> s[i] != sep
}

/// The pieces of `s` between occurrences of `sep`, in order. There is always
/// at least one piece: the empty sequence splits into one empty piece, and a
/// trailing separator contributes a final empty piece.
pub open spec fn split_on(s: Seq<char>, sep: char) -> Seq<Seq<char>>
    decreases s.len(),
{
    if s.len() == 0 {
        seq![Seq::<char>::empty()]
    } else if s[0] == sep {
        seq![Seq::<char>::empty()] + split_on(s.drop_first(), sep)
    } else {
        let rest = split_on(s.drop_first(), sep);
        seq![seq![s[0]] + rest[0]] + rest.drop_first()
    }
}

pub proof fn lemma_split_on_nonempty(s: Seq<char>, sep: char)
    ensures
        split_on(s, sep).len() >= 1,
    decreases s.len(),
{
    if s.len() != 0 {
        lemma_split_on_nonempty(s.drop_first(), sep);
    }
}

/// Splitting a sequence that begins with a separator-free prefix `a` glues
/// `a` onto the first piece of the split of the remainder.
pub proof fn lemma_split_on_prefix(a: Seq<char>, b: Seq<char>, sep: char)
    requires
        sep_free(a, sep),
    ensures
        ({
            let r = split_on(b, sep);
            split_on(a + b, sep) == seq![a + r[0]] + r.drop_first()
        }),
    decreases a.len(),
{
    lemma_split_on_nonempty(b, sep);
    let r = split_on(b, sep);
    if a.len() == 0 {
        assert(a + b =~= b);
        assert(a + r[0] =~= r[0]);
        assert(seq![a + r[0]] + r.drop_first() =~~= r);
    } else {
        let ab = a + b;
        assert(ab.len() > 0 && ab[0] == a[0] && a[0] != sep);
        assert(ab.drop_first() =~= a.drop_first() + b);
        lemma_split_on_prefix(a.drop_first(), b, sep);
        let rr = split_on(ab.drop_first(), sep);
        assert(rr[0] == a.drop_first() + r[0]);
        assert(seq![ab[0]] + rr[0] =~= a + r[0]);
        assert(split_on(ab, sep) == seq![seq![ab[0]] + rr[0]] + rr.drop_first());
        assert(seq![seq![ab[0]] + rr[0]] + rr.drop_first() =~~= seq![a + r[0]] + r.drop_first());
    }
}

/// The views of a vector of character vectors.
pub open spec fn pieces_view(v: Seq<Vec<char>>) -> Seq<Seq<char>> {
    v.map_values(|p: Vec<char>| p@)
}

/// Splits `s` on `sep`, yielding the pieces of `split_on` in order.
pub fn split_char(s: &[char], sep: char) -> (r: Vec<Vec<char>>)
    ensures
        pieces_view(r@) == split_on(s@, sep),
{
    let ghost whole = s@;
    let mut parts: Vec<Vec<char>> = Vec::new();
    let mut cur: Vec<char> = Vec::new();
    let mut i: usize = 0;
    proof {
        assert(cur@ + whole.skip(0) =~= whole);
        assert(pieces_view(parts@) + split_on(whole, sep) =~~= split_on(whole, sep));
    }
    while i < s.len()
        invariant
            i <= whole.len(),
            s@ == whole,
            sep_free(cur@, sep),
            split_on(whole, sep) == pieces_view(parts@) + split_on(cur@ + whole.skip(i as int), sep),
        decreases whole.len() - i,
    {
        let c = s[i];
        if c == sep {
            proof {
                let rest = whole.skip(i as int);
                assert(rest.len() > 0 && rest[0] == sep);
                assert(rest.drop_first() =~= whole.skip(i as int + 1));
                lemma_split_on_prefix(cur@, rest, sep);
                let r = split_on(rest, sep);
                assert(r == seq![Seq::<char>::empty()] + split_on(rest.drop_first(), sep));
                assert(cur@ + r[0] =~= cur@);
                assert(r.drop_first() =~= split_on(whole.skip(i as int + 1), sep));
                assert(pieces_view(parts@.push(cur)) =~~= pieces_view(parts@) + seq![cur@]);
                assert((pieces_view(parts@) + seq![cur@]) + split_on(whole.skip(i as int + 1), sep)
                    =~~= pieces_view(parts@) + (seq![cur@] + split_on(whole.skip(i as int + 1), sep)));
            }
            parts.push(cur);
            cur = Vec::new();
        } else {
            proof {
                assert(cur@.push(c) + whole.skip(i as int + 1) =~= cur@ + whole.skip(i as int));
            }
            cur.push(c);
        }
        i += 1;
    }
    proof {
        assert(cur@ + whole.skip(i as int) =~= cur@ + Seq::<char>::empty());
        lemma_split_on_prefix(cur@, Seq::empty(), sep);
        let r = split_on(Seq::<char>::empty(), sep);
        assert(r == seq![Seq::<char>::empty()]);
        assert(cur@ + r[0] =~= cur@);
        assert(seq![cur@ + r[0]] + r.drop_first() =~~= seq![cur@]);
        assert(pieces_view(parts@.push(cur)) =~~= pieces_view(parts@) + seq![cur@]);
    }
    parts.push(cur);
    parts
}

/// Exact character-for-character equality of two names.
pub fn chars_eq(a: &Vec<char>, b: &Vec<char>) -> (r: bool)
    ensures
        r == (a@ == b@),
{
    if a.len() != b.len() {
        return false;
    }
    let mut i: usize = 0;
    while i < a.len()
        invariant
            i <= a@.len(),
            a@.len() == b@.len(),
            forall|j: int| 0 <= j < i ==> a@[j] == b@[j],
        decreases a@.len() - i,
    {
        if a[i] != b[i] {
            return false;
        }
        i += 1;
    }
    proof {
        assert(a@ =~= b@);
    }
    true
}

/// True when `c` is a decimal digit.
pub open spec fn is_digit(c: char) -> bool {
    48 <= c as u32 <= 57
}

/// The value of a digit character.
pub open spec fn digit_val(c: char) -> int {
    c as u32 - 48
}

/// True when every character of `s` is a decimal digit.
pub open spec fn all_digits(s: Seq<char>) -> bool {
    forall|i: int| 0 <= i < s.len() ==> is_digit(s[i])
}

/// The value of a sequence of digit characters read in base ten.
pub open spec fn digits_val(s: Seq<char>) -> int
    decreases s.len(),
{
    if s.len() == 0 {
        0
    } else {
        digits_val(s.drop_last()) * 10 + digit_val(s.last())
    }
}

pub proof fn lemma_digits_val_nonneg(s: Seq<char>)
    requires
        all_digits(s),
    ensures
        digits_val(s) >= 0,
    decreases s.len(),
{
    if s.len() > 0 {
        assert(all_digits(s.drop_last()));
        lemma_digits_val_nonneg(s.drop_last());
    }
}

/// The value of a numeral with an optional leading `+`, when it is made of
/// digits and lies within `0 ..= max`; `None` otherwise. This is how the
/// standard library reads an unsigned decimal.
pub open spec fn dec_unsigned(s: Seq<char>, max: int) -> Option<int> {
    if s.len() > 0 && s[0] == '+' {
        dec_magnitude(s.drop_first(), false, 0, max)
    } else {
        dec_magnitude(s, false, 0, max)
    }
}

/// The value of a numeral with an optional leading `+` or `-`, when its
/// digits give a value within `min ..= max`; `None` otherwise. This is how
/// the standard library reads a signed decimal.
pub open spec fn dec_signed(s: Seq<char>, min: int, max: int) -> Option<int> {
    if s.len() > 0 && s[0] == '-' {
        dec_magnitude(s.drop_first(), true, min, max)
    } else if s.len() > 0 && s[0] == '+' {
        dec_magnitude(s.drop_first(), false, min, max)
    } else {
        dec_magnitude(s, false, min, max)
    }
}

/// The signed value of a bare digit string, range-checked.
pub open spec fn dec_magnitude(t: Seq<char>, neg: bool, min: int, max: int) -> Option<int> {
    if t.len() > 0 && all_digits(t) {
        let v: int = if neg {
            -digits_val(t)
        } else {
            digits_val(t)
        };
        if min <= v <= max {
            Some(v)
        } else {
            None
        }
    } else {
        None
    }
}

/// Reads the digits of `s` starting at `start` as a base-ten value, detecting
/// values that do not fit in `u64`.
fn parse_digits(s: &[char], start: usize) -> (r: Option<u64>)
    requires
        start <= s@.len(),
    ensures
        ({
            let t = s@.skip(start as int);
            match r {
                Some(v) => t.len() > 0 && all_digits(t) && digits_val(t) == v as int,
                None => t.len() == 0 || !all_digits(t) || digits_val(t) > u64::MAX,
            }
        }),
{
    let ghost t = s@.skip(start as int);
    if start == s.len() {
        return None;
    }
    let mut v: u64 = 0;
    let mut over = false;
    let mut i: usize = start;
    while i < s.len()
        invariant
            start <= i <= s@.len(),
            t == s@.skip(start as int),
            all_digits(t.take(i - start)),
            !over ==> v as int == digits_val(t.take(i - start)),
            over ==> digits_val(t.take(i - start)) > u64::MAX,
        decreases s@.len() - i,
    {
        let u = s[i] as u32;
        if u < 48 || u > 57 {
            assert(!is_digit(t[i - start]));
            return None;
        }
        let d = (u - 48) as u64;
        proof {
            let k = i - start;
            assert(t.take(k + 1).drop_last() =~= t.take(k));
            assert(t.take(k + 1).last() == t[k]);
            assert(digits_val(t.take(k + 1)) == digits_val(t.take(k)) * 10 + digit_val(t[k]));
            assert(all_digits(t.take(k + 1)));
        }
        if over {
            proof {
                let k = i - start;
                lemma_digits_val_nonneg(t.take(k));
                assert(digits_val(t.take(k)) * 10 >= digits_val(t.take(k))) by (nonlinear_arith)
                    requires digits_val(t.take(k)) >= 0;
            }
        } else if v > (u64::MAX - d) / 10 {
            over = true;
            proof {
                let k = i - start;
                assert(v as int * 10 + d as int > u64::MAX) by (nonlinear_arith)
                    requires
                        v as int > (u64::MAX - d as int) / 10,
                        0 <= d as int <= 9,
                        v as int >= 0;
            }
        } else {
            proof {
                assert(v as int * 10 + d as int <= u64::MAX) by (nonlinear_arith)
                    requires
                        v as int <= (u64::MAX - d as int) / 10,
                        0 <= d as int <= 9,
                        v as int >= 0;
            }
            v = v * 10 + d;
        }
        i += 1;
    }
    proof {
        assert(t.take(i - start) =~= t);
    }
    if over {
        None
    } else {
        Some(v)
    }
}

/// Reads `s` as an unsigned decimal that fits in `u64`, exactly as the
/// standard library would.
pub fn parse_u64(s: &[char]) -> (r: Option<u64>)
    ensures
        match r {
            Some(v) => dec_unsigned(s@, u64::MAX as int) == Some(v as int),
            None => dec_unsigned(s@, u64::MAX as int) is None,
        },
{
    let start: usize = if s.len() > 0 && s[0] == '+' {
        1
    } else {
        0
    };
    proof {
        if s@.len() > 0 && s@[0] == '+' {
            assert(s@.skip(1) =~= s@.drop_first());
        } else {
            assert(s@.skip(0) =~= s@);
        }
        if dec_unsigned(s@, u64::MAX as int) is Some {
            lemma_digits_val_nonneg(s@.skip(start as int));
        }
    }
    parse_digits(s, start)
}

/// Reads `s` as an unsigned decimal that fits in `u32`.
pub fn parse_u32(s: &[char]) -> (r: Option<u32>)
    ensures
        match r {
            Some(v) => dec_unsigned(s@, u32::MAX as int) == Some(v as int),
            None => dec_unsigned(s@, u32::MAX as int) is None,
        },
{
    match parse_u64(s) {
        Some(v) if v <= u32::MAX as u64 => Some(v as u32),
        _ => None,
    }
}

/// Reads `s` as an unsigned decimal that fits in `u16`.
pub fn parse_u16(s: &[char]) -> (r: Option<u16>)
    ensures
        match r {
            Some(v) => dec_unsigned(s@, u16::MAX as int) == Some(v as int),
            None => dec_unsigned(s@, u16::MAX as int) is None,
        },
{
    match parse_u64(s) {
        Some(v) if v <= u16::MAX as u64 => Some(v as u16),
        _ => None,
    }
}

/// Reads `s` as a signed decimal that fits in `i64`, exactly as the standard
/// library would.
pub fn parse_i64(s: &[char]) -> (r: Option<i64>)
    ensures
        match r {
            Some(v) => dec_signed(s@, i64::MIN as int, i64::MAX as int) == Some(v as int),
            None => dec_signed(s@, i64::MIN as int, i64::MAX as int) is None,
        },
{
    let neg = s.len() > 0 && s[0] == '-';
    let start: usize = if neg || (s.len() > 0 && s[0] == '+') {
        1
    } else {
        0
    };
    proof {
        if s@.len() > 0 && (s@[0] == '-' || s@[0] == '+') {
            assert(s@.skip(1) =~= s@.drop_first());
        } else {
            assert(s@.skip(0) =~= s@);
        }
        if s@.skip(start as int).len() > 0 && all_digits(s@.skip(start as int)) {
            lemma_digits_val_nonneg(s@.skip(start as int));
        }
    }
    match parse_digits(s, start) {
        Some(mag) => {
            if neg {
                if mag <= i64::MAX as u64 {
                    Some(-(mag as i64))
                } else if mag == 9223372036854775808u64 {
                    Some(i64::MIN)
                } else {
                    None
                }
            } else {
                if mag <= i64::MAX as u64 {
                    Some(mag as i64)
                } else {
                    None
                }
            }
        },
        None => None,
    }
}

/// Reads `s` as a signed decimal that fits in `i32`.
pub fn parse_i32(s: &[char]) -> (r: Option<i32>)
    ensures
        match r {
            Some(v) => dec_signed(s@, i32::MIN as int, i32::MAX as int) == Some(v as int),
            None => dec_signed(s@, i32::MIN as int, i32::MAX as int) is None,
        },
{
    match parse_i64(s) {
        Some(v) if i32::MIN as i64 <= v && v <= i32::MAX as i64 => Some(v as i32),
        _ => None,
    }
}

} // verus!
