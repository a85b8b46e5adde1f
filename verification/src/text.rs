//! Verified helpers over `String` and `&str`: equality, prefix/suffix tests,
//! decimal rendering, and the few path operations the library needs (paths are
//! carried as plain strings).

use vstd::prelude::*;

verus! {

use vstd::string::StrSliceExecFns;
use vstd::string::StringExecFns;
use vstd::string::StringSliceAdditionalSpecFns;

/// Equality of two string slices, stated over their character views.
pub fn str_eq(a: &str, b: &str) -> (r: bool)
    ensures
        r == (a@ == b@),
{
    let va = a.as_bytes_vec();
    let vb = b.as_bytes_vec();
    let r = va == vb;
    proof {
        broadcast use vstd::utf8::encode_utf8_decode_utf8;

        if a.spec_bytes() == b.spec_bytes() {
            assert(vstd::utf8::decode_utf8(vstd::utf8::encode_utf8(a@)) == a@);
            assert(vstd::utf8::decode_utf8(vstd::utf8::encode_utf8(b@)) == b@);
            assert(a@ == b@);
        }
        if a@ == b@ {
            assert(a.spec_bytes() =~= b.spec_bytes());
        }
        if r {
            assert(va@ =~= vb@);
        } else {
            assert(!(va@ =~= vb@));
        }
    }
    r
}

pub open spec fn spec_starts_with(s: Seq<char>, p: Seq<char>) -> bool {
    p.len() <= s.len() && s.subrange(0, p.len() as int) == p
}

pub open spec fn spec_ends_with(s: Seq<char>, p: Seq<char>) -> bool {
    p.len() <= s.len() && s.subrange(s.len() - p.len(), s.len() as int) == p
}

pub fn str_starts_with(s: &str, p: &str) -> (r: bool)
    ensures
        r == spec_starts_with(s@, p@),
{
    let n = p.unicode_len();
    let m = s.unicode_len();
    if n > m {
        false
    } else {
        str_eq(s.substring_char(0, n), p)
    }
}

pub fn str_ends_with(s: &str, p: &str) -> (r: bool)
    ensures
        r == spec_ends_with(s@, p@),
{
    let n = p.unicode_len();
    let m = s.unicode_len();
    if n > m {
        false
    } else {
        str_eq(s.substring_char(m - n, m), p)
    }
}

/// `s + t`, with the view of the result pinned down.
pub fn str_concat(s: &str, t: &str) -> (r: String)
    ensures
        r@ == s@ + t@,
{
    let mut out = s.to_owned();
    out.append(t);
    out
}

pub open spec fn spec_digit_char(d: int) -> char {
    if d == 0 {
        '0'
    } else if d == 1 {
        '1'
    } else if d == 2 {
        '2'
    } else if d == 3 {
        '3'
    } else if d == 4 {
        '4'
    } else if d == 5 {
        '5'
    } else if d == 6 {
        '6'
    } else if d == 7 {
        '7'
    } else if d == 8 {
        '8'
    } else {
        '9'
    }
}

/// The usual base-10 rendering of a non-negative integer, most significant
/// digit first.
pub open spec fn spec_decimal(n: int) -> Seq<char>
    decreases n,
{
    if n < 10 {
        seq![spec_digit_char(n)]
    } else {
        spec_decimal(n / 10).push(spec_digit_char(n % 10))
    }
}

fn digit_str(d: u64) -> (r: &'static str)
    requires
        d < 10,
    ensures
        r@ =~= seq![spec_digit_char(d as int)],
{
    proof {
        reveal_strlit("0");
        reveal_strlit("1");
        reveal_strlit("2");
        reveal_strlit("3");
        reveal_strlit("4");
        reveal_strlit("5");
        reveal_strlit("6");
        reveal_strlit("7");
        reveal_strlit("8");
        reveal_strlit("9");
    }
    match d {
        0 => "0",
        1 => "1",
        2 => "2",
        3 => "3",
        4 => "4",
        5 => "5",
        6 => "6",
        7 => "7",
        8 => "8",
        _ => "9",
    }
}

/// Renders `n` in decimal.
pub fn u64_to_string(n: u64) -> (r: String)
    ensures
        r@ == spec_decimal(n as int),
    decreases n,
{
    if n < 10 {
        digit_str(n).to_owned()
    } else {
        let prefix = u64_to_string(n / 10);
        let r = prefix.concat(digit_str(n % 10));
        proof {
            assert(r@ =~= spec_decimal(n as int));
        }
        r
    }
}

/// Index of the last occurrence of `c` in `s`, if any.
pub open spec fn spec_rfind(s: Seq<char>, c: char) -> Option<int>
    decreases s.len(),
{
    if s.len() == 0 {
        None
    } else if s.last() == c {
        Some(s.len() - 1)
    } else {
        spec_rfind(s.drop_last(), c)
    }
}

pub fn str_rfind(s: &str, c: char) -> (r: Option<usize>)
    ensures
        match r {
            Some(i) => spec_rfind(s@, c) == Some(i as int),
            None => spec_rfind(s@, c) is None,
        },
{
    let mut i = s.unicode_len();
    proof {
        assert(s@.take(i as int) =~= s@);
    }
    while i > 0
        invariant
            i <= s@.len(),
            spec_rfind(s@, c) == spec_rfind(s@.take(i as int), c),
        decreases i,
    {
        i = i - 1;
        let ch = s.get_char(i);
        proof {
            assert(s@.take(i + 1).last() == s@[i as int]);
            assert(s@.take(i + 1).drop_last() =~= s@.take(i as int));
        }
        if ch == c {
            return Some(i);
        }
    }
    proof {
        assert(s@.take(0) =~= Seq::<char>::empty());
    }
    None
}

pub open spec fn spec_path_join(a: Seq<char>, b: Seq<char>) -> Seq<char> {
    if b.len() > 0 && b[0] == '/' {
        b
    } else if a.len() == 0 {
        b
    } else if a.last() == '/' {
        a + b
    } else {
        a + seq!['/'] + b
    }
}

/// Joins two path fragments as `Path::join` would for plain relative and
/// absolute string paths.
pub fn path_join(a: &str, b: &str) -> (r: String)
    ensures
        r@ == spec_path_join(a@, b@),
{
    let blen = b.unicode_len();
    if blen > 0 && b.get_char(0) == '/' {
        b.to_owned()
    } else {
        let alen = a.unicode_len();
        if alen == 0 {
            b.to_owned()
        } else if a.get_char(alen - 1) == '/' {
            str_concat(a, b)
        } else {
            let mut out = a.to_owned();
            out.append("/");
            out.append(b);
            proof {
                reveal_strlit("/");
                assert(out@ =~= a@ + seq!['/'] + b@);
            }
            out
        }
    }
}

pub open spec fn spec_path_parent(s: Seq<char>) -> Seq<char> {
    match spec_rfind(s, '/') {
        None => Seq::<char>::empty(),
        Some(i) => if i == 0 {
            seq!['/']
        } else {
            s.take(i)
        },
    }
}

/// The directory part of a path: everything before the last `/`, the empty
/// string when there is none, and `/` itself for entries of the root.
pub fn path_parent(s: &str) -> (r: String)
    ensures
        r@ == spec_path_parent(s@),
{
    match str_rfind(s, '/') {
        None => {
            let r = String::new();
            proof {
                assert(r@ =~= Seq::<char>::empty());
            }
            r
        },
        Some(i) => {
            if i == 0 {
                let r = "/".to_owned();
                proof {
                    reveal_strlit("/");
                    assert(r@ =~= seq!['/']);
                }
                r
            } else {
                proof {
                    lemma_rfind_in_range(s@, '/');
                    assert(s@.subrange(0, i as int) =~= s@.take(i as int));
                }
                s.substring_char(0, i).to_owned()
            }
        },
    }
}

proof fn lemma_rfind_in_range(s: Seq<char>, c: char)
    ensures
        spec_rfind(s, c) matches Some(i) ==> 0 <= i < s.len() && s[i] == c,
    decreases s.len(),
{
    if s.len() > 0 && s.last() != c {
        lemma_rfind_in_range(s.drop_last(), c);
    }
}

pub open spec fn spec_file_name(s: Seq<char>) -> Seq<char> {
    match spec_rfind(s, '/') {
        None => s,
        Some(i) => s.skip(i + 1),
    }
}

/// The last path component: everything after the last `/`.
pub fn path_file_name(s: &str) -> (r: String)
    ensures
        r@ == spec_file_name(s@),
{
    match str_rfind(s, '/') {
        None => s.to_owned(),
        Some(i) => {
            let n = s.unicode_len();
            proof {
                lemma_rfind_in_range(s@, '/');
                assert(s@.subrange(i + 1, s@.len() as int) =~= s@.skip(i + 1));
            }
            s.substring_char(i + 1, n).to_owned()
        },
    }
}

pub open spec fn spec_extension(s: Seq<char>) -> Option<Seq<char>> {
    let name = spec_file_name(s);
    match spec_rfind(name, '.') {
        None => None,
        Some(j) => if j == 0 {
            None
        } else {
            Some(name.skip(j + 1))
        },
    }
}

/// The extension of a path's last component, as `Path::extension` computes it
/// for plain names: the part after the last dot, unless the dot leads the
/// component.
pub fn path_extension(s: &str) -> (r: Option<String>)
    ensures
        match r {
            Some(e) => spec_extension(s@) == Some(e@),
            None => spec_extension(s@) is None,
        },
{
    let name = path_file_name(s);
    match str_rfind(name.as_str(), '.') {
        None => None,
        Some(j) => {
            if j == 0 {
                None
            } else {
                let n = name.as_str().unicode_len();
                proof {
                    lemma_rfind_in_range(name@, '.');
                    assert(name@.subrange(j + 1, name@.len() as int) =~= name@.skip(j + 1));
                }
                Some(name.as_str().substring_char(j + 1, n).to_owned())
            }
        },
    }
}

} // verus!
