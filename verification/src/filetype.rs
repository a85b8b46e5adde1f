//! File-type sniffing: classifying files by magic bytes and archive contents,
//! memoized in an explicit cache object that the caller owns and threads
//! through. The cache also carries file-contents overrides, so tests (and
//! callers that read files themselves) can resolve and classify without
//! touching a filesystem: during resolution the cache stands in for the
//! filesystem.

use vstd::prelude::*;

verus! {

use vstd::string::StrSliceExecFns;
use vstd::string::StringSliceAdditionalSpecFns;
use crate::text;
use crate::ldtools;

#[derive(Copy, Clone, Debug, Eq, PartialEq, Structural)]
pub enum Subtype {
    Bitcode,
}

#[derive(Copy, Clone, Debug, Eq, PartialEq, Structural)]
pub enum Type {
    Archive(Subtype),
    Object(Subtype),
    Pexe,
    Wasm,
}

/// Raw LLVM bitcode: `BC\xc0\xde`.
pub open spec fn spec_raw_bitcode_magic(b: Seq<u8>) -> bool {
    b.len() >= 4 && b[0] == 0x42u8 && b[1] == 0x43u8 && b[2] == 0xc0u8 && b[3] == 0xdeu8
}

/// Bitcode in an object wrapper: `\xde\xc0\x17\x0b`.
pub open spec fn spec_wrapped_bitcode_magic(b: Seq<u8>) -> bool {
    b.len() >= 4 && b[0] == 0xdeu8 && b[1] == 0xc0u8 && b[2] == 0x17u8 && b[3] == 0x0bu8
}

/// A portable bitcode executable: `PEXE`.
pub open spec fn spec_pexe_magic(b: Seq<u8>) -> bool {
    b.len() >= 4 && b[0] == 0x50u8 && b[1] == 0x45u8 && b[2] == 0x58u8 && b[3] == 0x45u8
}

/// A WebAssembly module: `\0asm`.
pub open spec fn spec_wasm_magic(b: Seq<u8>) -> bool {
    b.len() >= 4 && b[0] == 0x00u8 && b[1] == 0x61u8 && b[2] == 0x73u8 && b[3] == 0x6du8
}

/// A Unix archive: `!<arch>\n`, or `!<thin>\n` for thin archives.
pub open spec fn spec_archive_magic(b: Seq<u8>) -> bool {
    b.len() >= 8 && b[0] == 0x21u8 && b[1] == 0x3cu8 && ((b[2] == 0x61u8 && b[3] == 0x72u8 && b[4]
        == 0x63u8 && b[5] == 0x68u8) || (b[2] == 0x74u8 && b[3] == 0x68u8 && b[4] == 0x69u8 && b[5]
        == 0x6eu8)) && b[6] == 0x3eu8 && b[7] == 0x0au8
}

pub fn is_stream_raw_llvm_bitcode(b: &Vec<u8>) -> (r: bool)
    ensures
        r == spec_raw_bitcode_magic(b@),
{
    b.len() >= 4 && b[0] == 0x42u8 && b[1] == 0x43u8 && b[2] == 0xc0u8 && b[3] == 0xdeu8
}

pub fn is_stream_wrapped_llvm_bitcode(b: &Vec<u8>) -> (r: bool)
    ensures
        r == spec_wrapped_bitcode_magic(b@),
{
    b.len() >= 4 && b[0] == 0xdeu8 && b[1] == 0xc0u8 && b[2] == 0x17u8 && b[3] == 0x0bu8
}

pub fn is_stream_llvm_bitcode(b: &Vec<u8>) -> (r: bool)
    ensures
        r == (spec_raw_bitcode_magic(b@) || spec_wrapped_bitcode_magic(b@)),
{
    is_stream_raw_llvm_bitcode(b) || is_stream_wrapped_llvm_bitcode(b)
}

pub fn is_stream_pnacl_bitcode(b: &Vec<u8>) -> (r: bool)
    ensures
        r == spec_pexe_magic(b@),
{
    b.len() >= 4 && b[0] == 0x50u8 && b[1] == 0x45u8 && b[2] == 0x58u8 && b[3] == 0x45u8
}

pub fn is_stream_wasm_module(b: &Vec<u8>) -> (r: bool)
    ensures
        r == spec_wasm_magic(b@),
{
    b.len() >= 4 && b[0] == 0x00u8 && b[1] == 0x61u8 && b[2] == 0x73u8 && b[3] == 0x6du8
}

pub fn is_buffer_an_archive(b: &Vec<u8>) -> (r: bool)
    ensures
        r == spec_archive_magic(b@),
{
    b.len() >= 8 && b[0] == 0x21u8 && b[1] == 0x3cu8 && ((b[2] == 0x61u8 && b[3] == 0x72u8 && b[4]
        == 0x63u8 && b[5] == 0x68u8) || (b[2] == 0x74u8 && b[3] == 0x68u8 && b[4] == 0x69u8 && b[5]
        == 0x6eu8)) && b[6] == 0x3eu8 && b[7] == 0x0au8
}

/// A plain (non-thin) archive: exactly `!<arch>\n`, the only form whose
/// members can be walked in place.
pub open spec fn spec_common_archive_magic(b: Seq<u8>) -> bool {
    b.len() >= 8 && b[0] == 0x21u8 && b[1] == 0x3cu8 && b[2] == 0x61u8 && b[3] == 0x72u8 && b[4]
        == 0x63u8 && b[5] == 0x68u8 && b[6] == 0x3eu8 && b[7] == 0x0au8
}

/// How many leading bytes are ASCII decimal digits.
pub open spec fn spec_lead_digits(s: Seq<u8>) -> int
    decreases s.len(),
{
    if s.len() == 0 {
        0
    } else if 0x30u8 <= s[0] <= 0x39u8 {
        1 + spec_lead_digits(s.drop_first())
    } else {
        0
    }
}

proof fn lemma_lead_digits(s: Seq<u8>, k: int)
    requires
        0 <= k <= s.len(),
        forall|j: int| 0 <= j < k ==> 0x30u8 <= #[trigger] s[j] <= 0x39u8,
        k < s.len() ==> !(0x30u8 <= s[k as int] <= 0x39u8),
    ensures
        spec_lead_digits(s) == k,
    decreases s.len(),
{
    if s.len() > 0 && k > 0 {
        lemma_lead_digits(s.drop_first(), k - 1);
    }
}

/// An archive member's size field: one or more decimal digits padded to the
/// right with spaces, and a value that fits.
pub open spec fn spec_size_field(s: Seq<u8>) -> Option<int> {
    let k = spec_lead_digits(s);
    if k > 0 && (forall|i: int| k <= i < s.len() ==> #[trigger] s[i] == 0x20u8) && 0
        <= spec_digits_value(s.take(k)) <= u64::MAX {
        Some(spec_digits_value(s.take(k)))
    } else {
        None
    }
}

/// Reads the size field of the member header that starts at `o`.
fn size_field_at(b: &Vec<u8>, o: usize) -> (r: Option<u64>)
    requires
        o + 60 <= b@.len(),
    ensures
        match r {
            Some(v) => spec_size_field(b@.subrange(o + 48, o + 58)) == Some(v as int),
            None => spec_size_field(b@.subrange(o + 48, o + 58)) is None,
        },
{
    let ghost s = b@.subrange(o + 48, o + 58);
    let n = b.len();
    let mut k: usize = 0;
    while k < 10
        invariant
            k <= 10,
            o + 60 <= n,
            n == b@.len(),
            s == b@.subrange(o + 48, o + 58),
            forall|j: int| 0 <= j < k ==> 0x30u8 <= #[trigger] s[j] <= 0x39u8,
        ensures
            k <= 10,
            o + 60 <= n,
            n == b@.len(),
            forall|j: int| 0 <= j < k ==> 0x30u8 <= #[trigger] s[j] <= 0x39u8,
            k < 10 ==> !(0x30u8 <= s[k as int] <= 0x39u8),
        decreases 10 - k,
    {
        let byte = b[o + 48 + k];
        proof {
            assert(s[k as int] == b@[o + 48 + k]);
        }
        if byte < 0x30 || byte > 0x39 {
            break;
        }
        k = k + 1;
    }
    proof {
        lemma_lead_digits(s, k as int);
    }
    if k == 0 {
        return None;
    }
    let mut i: usize = k;
    while i < 10
        invariant
            k <= i <= 10,
            o + 60 <= n,
            n == b@.len(),
            s == b@.subrange(o + 48, o + 58),
            spec_lead_digits(s) == k as int,
            forall|t: int| 0 <= t < k ==> 0x30u8 <= #[trigger] s[t] <= 0x39u8,
            forall|j: int| k <= j < i ==> #[trigger] s[j] == 0x20u8,
        decreases 10 - i,
    {
        let byte = b[o + 48 + i];
        proof {
            assert(s[i as int] == b@[o + 48 + i]);
        }
        if byte != 0x20 {
            proof {
                assert(!(forall|t: int| k <= t < s.len() ==> #[trigger] s[t] == 0x20u8));
                assert(spec_size_field(s) is None);
            }
            return None;
        }
        i = i + 1;
    }
    let mut acc: u64 = 0;
    let mut j: usize = 0;
    proof {
        assert(s.take(0) =~= Seq::<u8>::empty());
    }
    while j < k
        invariant
            j <= k <= 10,
            o + 60 <= n,
            n == b@.len(),
            s == b@.subrange(o + 48, o + 58),
            spec_lead_digits(s) == k as int,
            forall|t: int| 0 <= t < k ==> 0x30u8 <= #[trigger] s[t] <= 0x39u8,
            forall|t: int| k <= t < s.len() ==> #[trigger] s[t] == 0x20u8,
            acc == spec_digits_value(s.take(j as int)),
        decreases k - j,
    {
        let byte = b[o + 48 + j];
        proof {
            assert(s[j as int] == b@[o + 48 + j]);
            assert(s.take(j as int + 1).drop_last() =~= s.take(j as int));
            assert(s.take(j as int + 1).last() == s[j as int]);
        }
        let d = (byte - 0x30) as u64;
        if acc > (u64::MAX - d) / 10 {
            proof {
                assert(spec_digits_value(s.take(j as int + 1)) > u64::MAX);
                lemma_digits_value_mono_prefix(s, j as int + 1, k as int);
                assert(spec_size_field(s) is None);
            }
            return None;
        }
        acc = acc * 10 + d;
        j = j + 1;
    }
    proof {
        assert(spec_size_field(s) == Some(acc as int));
    }
    Some(acc)
}

proof fn lemma_digits_value_mono_prefix(s: Seq<u8>, i: int, k: int)
    requires
        0 <= i <= k <= s.len(),
        forall|t: int| 0 <= t < k ==> 0x30u8 <= #[trigger] s[t] <= 0x39u8,
    ensures
        spec_digits_value(s.take(i)) <= spec_digits_value(s.take(k)),
    decreases k - i,
{
    if i < k {
        assert(s.take(i + 1).drop_last() =~= s.take(i));
        assert(s.take(i + 1).last() == s[i]);
        assert(forall|t: int| 0 <= t < s.take(i).len() ==> 0x30u8 <= #[trigger] s.take(i)[t]
            <= 0x39u8);
        lemma_digits_value_nonneg(s.take(i));
        lemma_digits_value_mono_prefix(s, i + 1, k);
    }
}

/// A name field that marks a symbol or string table rather than a regular
/// member.
pub open spec fn spec_special_member_name(n: Seq<u8>) -> bool {
    spec_svr4_symtab_name(n) || spec_llvm_symtab_name(n) || spec_bsd4_symtab_name(n)
        || spec_strtab_name(n)
}

fn special_name_at(b: &Vec<u8>, o: usize) -> (r: bool)
    requires
        o + 16 <= b@.len(),
    ensures
        r == spec_special_member_name(b@.subrange(o as int, o + 16)),
{
    let ghost n = b@.subrange(o as int, o + 16);
    let len = b.len();
    let svr4 = {
        if b[o] == 0x2f {
            let mut i: usize = 1;
            let mut all_spaces = true;
            while i < 16
                invariant
                    1 <= i <= 16,
                    o + 16 <= len,
                    len == b@.len(),
                    n == b@.subrange(o as int, o + 16),
                    all_spaces == (forall|j: int| 1 <= j < i ==> #[trigger] n[j] == 0x20u8),
                decreases 16 - i,
            {
                proof {
                    assert(n[i as int] == b@[o + i]);
                }
                if b[o + i] != 0x20 {
                    all_spaces = false;
                }
                i = i + 1;
            }
            all_spaces
        } else {
            false
        }
    };
    let strtab = {
        if b[o] == 0x2f && b[o + 1] == 0x2f {
            let mut i: usize = 2;
            let mut all_spaces = true;
            while i < 16
                invariant
                    2 <= i <= 16,
                    o + 16 <= len,
                    len == b@.len(),
                    n == b@.subrange(o as int, o + 16),
                    all_spaces == (forall|j: int| 2 <= j < i ==> #[trigger] n[j] == 0x20u8),
                decreases 16 - i,
            {
                proof {
                    assert(n[i as int] == b@[o + i]);
                }
                if b[o + i] != 0x20 {
                    all_spaces = false;
                }
                i = i + 1;
            }
            all_spaces
        } else {
            false
        }
    };
    let llvm = b[o] == 0x23 && b[o + 1] == 0x5f && b[o + 2] == 0x4c && b[o + 3] == 0x4c && b[o + 4]
        == 0x56 && b[o + 5] == 0x4d && b[o + 6] == 0x5f && b[o + 7] == 0x53 && b[o + 8] == 0x59
        && b[o + 9] == 0x4d && b[o + 10] == 0x5f && b[o + 11] == 0x54 && b[o + 12] == 0x41 && b[o
        + 13] == 0x42 && b[o + 14] == 0x5f && b[o + 15] == 0x23;
    let bsd4 = b[o] == 0x5f && b[o + 1] == 0x5f && b[o + 2] == 0x2e && b[o + 3] == 0x53 && b[o + 4]
        == 0x59 && b[o + 5] == 0x4d && b[o + 6] == 0x44 && b[o + 7] == 0x45 && b[o + 8] == 0x46
        && b[o + 9] == 0x20 && b[o + 10] == 0x53 && b[o + 11] == 0x4f && b[o + 12] == 0x52 && b[o
        + 13] == 0x54 && b[o + 14] == 0x45 && b[o + 15] == 0x44;
    proof {
        assert forall|j: int| 0 <= j < 16 implies n[j] == b@[o + j] by {}
        assert(svr4 == spec_svr4_symtab_name(n));
        assert(strtab == spec_strtab_name(n));
        assert(llvm == spec_llvm_symtab_name(n));
        assert(bsd4 == spec_bsd4_symtab_name(n));
    }
    svr4 || strtab || llvm || bsd4
}

/// The member walk: from offset `o`, the contents of the first regular
/// member — symbol and string tables are stepped over, members are 2-byte
/// aligned, and any malformed header ends the walk with nothing.
pub open spec fn spec_member_walk(b: Seq<u8>, o: int) -> Option<Seq<u8>>
    decreases b.len() - o,
{
    if o < 0 || o + 60 > b.len() {
        None
    } else if !(b[o + 58] == 0x60u8 && b[o + 59] == 0x0au8) {
        None
    } else {
        match spec_size_field(b.subrange(o + 48, o + 58)) {
            None => None,
            Some(size) => if o + 60 + size > b.len() {
                None
            } else if spec_special_member_name(b.subrange(o, o + 16)) {
                let next = o + 60 + size + (if size % 2 == 1 {
                    1int
                } else {
                    0int
                });
                if next > b.len() {
                    None
                } else {
                    spec_member_walk(b, next)
                }
            } else {
                Some(b.subrange(o + 60, o + 60 + size))
            },
        }
    }
}

/// The contents of an archive's first regular member, `None` when the bytes
/// are not a plain archive or no regular member can be read. Regular means
/// what `MemberHeader` means by it: not a symbol or string table.
pub open spec fn spec_first_regular_member(b: Seq<u8>) -> Option<Seq<u8>> {
    if spec_common_archive_magic(b) {
        spec_member_walk(b, 8)
    } else {
        None
    }
}

/// Finds the first regular member, returned as the bounds of its contents.
pub fn first_regular_member(b: &Vec<u8>) -> (r: Option<(usize, usize)>)
    ensures
        match r {
            Some(bounds) => bounds.0 <= bounds.1 <= b@.len() && spec_first_regular_member(b@)
                == Some(b@.subrange(bounds.0 as int, bounds.1 as int)),
            None => spec_first_regular_member(b@) is None,
        },
{
    let magic = b.len() >= 8 && b[0] == 0x21 && b[1] == 0x3c && b[2] == 0x61 && b[3] == 0x72
        && b[4] == 0x63 && b[5] == 0x68 && b[6] == 0x3e && b[7] == 0x0a;
    if !magic {
        return None;
    }
    let mut o: usize = 8;
    while o <= b.len()
        invariant
            8 <= o <= b@.len(),
            spec_common_archive_magic(b@),
            spec_member_walk(b@, 8) == spec_member_walk(b@, o as int),
        decreases b@.len() - o,
    {
        if b.len() - o < 60 {
            proof {
                assert(spec_member_walk(b@, o as int) is None);
            }
            return None;
        }
        if !(b[o + 58] == 0x60 && b[o + 59] == 0x0a) {
            proof {
                assert(spec_member_walk(b@, o as int) is None);
            }
            return None;
        }
        let size64 = match size_field_at(b, o) {
            None => {
                proof {
                    assert(spec_member_walk(b@, o as int) is None);
                }
                return None;
            },
            Some(v) => v,
        };
        let avail = b.len() - o - 60;
        if size64 > avail as u64 {
            proof {
                assert(spec_member_walk(b@, o as int) is None);
            }
            return None;
        }
        let size: usize = size64 as usize;
        proof {
            assert(size as int == size64 as int);
        }
        let data_start = o + 60;
        let data_end = data_start + size;
        if !special_name_at(b, o) {
            proof {
                assert(spec_member_walk(b@, o as int) == Some(
                    b@.subrange(data_start as int, data_end as int),
                ));
            }
            return Some((data_start, data_end));
        }
        let pad: usize = if size % 2 == 1 {
            1
        } else {
            0
        };
        if pad == 1 && data_end >= b.len() {
            proof {
                assert(spec_member_walk(b@, o as int) is None);
            }
            return None;
        }
        let next = data_end + pad;
        if next > b.len() {
            proof {
                assert(spec_member_walk(b@, o as int) is None);
            }
            return None;
        }
        proof {
            assert(spec_member_walk(b@, o as int) == spec_member_walk(b@, next as int));
        }
        o = next;
    }
    None
}

/// Whether the given range of the bytes starts with a raw or wrapped bitcode
/// magic.
fn is_bitcode_in(b: &Vec<u8>, start: usize, end: usize) -> (r: bool)
    requires
        start <= end <= b@.len(),
    ensures
        r == (spec_raw_bitcode_magic(b@.subrange(start as int, end as int))
            || spec_wrapped_bitcode_magic(b@.subrange(start as int, end as int))),
{
    let ghost m = b@.subrange(start as int, end as int);
    proof {
        assert forall|j: int| 0 <= j < m.len() implies m[j] == b@[start + j] by {}
    }
    if end - start < 4 {
        return false;
    }
    (b[start] == 0x42 && b[start + 1] == 0x43 && b[start + 2] == 0xc0 && b[start + 3] == 0xde) || (
    b[start] == 0xde && b[start + 1] == 0xc0 && b[start + 2] == 0x17 && b[start + 3] == 0x0b)
}

/// Association-list lookup, later entries shadowing earlier ones.
pub open spec fn spec_assoc<V>(entries: Seq<(String, V)>, key: Seq<char>) -> Option<V>
    decreases entries.len(),
{
    if entries.len() == 0 {
        None
    } else if entries.last().0@ == key {
        Some(entries.last().1)
    } else {
        spec_assoc(entries.drop_last(), key)
    }
}

proof fn lemma_assoc_push<V>(entries: Seq<(String, V)>, e: (String, V), key: Seq<char>)
    ensures
        spec_assoc(entries.push(e), key) == if e.0@ == key {
            Some(e.1)
        } else {
            spec_assoc(entries, key)
        },
{
    assert(entries.push(e).drop_last() =~= entries);
    assert(entries.push(e).last() == e);
}

/// The entries with the given key removed.
pub open spec fn spec_assoc_remove<V>(entries: Seq<(String, V)>, key: Seq<char>) -> Seq<(String, V)>
    decreases entries.len(),
{
    if entries.len() == 0 {
        Seq::empty()
    } else if entries.last().0@ == key {
        spec_assoc_remove(entries.drop_last(), key)
    } else {
        spec_assoc_remove(entries.drop_last(), key).push(entries.last())
    }
}

proof fn lemma_assoc_remove<V>(entries: Seq<(String, V)>, key: Seq<char>, q: Seq<char>)
    ensures
        spec_assoc(spec_assoc_remove(entries, key), q) == if q == key {
            None::<V>
        } else {
            spec_assoc(entries, q)
        },
    decreases entries.len(),
{
    if entries.len() > 0 {
        lemma_assoc_remove(entries.drop_last(), key, q);
        if entries.last().0@ != key {
            lemma_assoc_push(spec_assoc_remove(entries.drop_last(), key), entries.last(), q);
        }
    }
}

/// As `spec_assoc`, over the views of the stored byte vectors.
pub open spec fn spec_assoc_bytes(entries: Seq<(String, Vec<u8>)>, key: Seq<char>) -> Option<
    Seq<u8>,
>
    decreases entries.len(),
{
    if entries.len() == 0 {
        None
    } else if entries.last().0@ == key {
        Some(entries.last().1@)
    } else {
        spec_assoc_bytes(entries.drop_last(), key)
    }
}

proof fn lemma_assoc_bytes_push(entries: Seq<(String, Vec<u8>)>, e: (String, Vec<u8>), key: Seq<char>)
    ensures
        spec_assoc_bytes(entries.push(e), key) == if e.0@ == key {
            Some(e.1@)
        } else {
            spec_assoc_bytes(entries, key)
        },
{
    assert(entries.push(e).drop_last() =~= entries);
    assert(entries.push(e).last() == e);
}

/// The explicit file-type cache: memoized classifications, and file-contents
/// overrides that stand in for the filesystem.
#[derive(Debug)]
pub struct FileTypeCache {
    types: Vec<(String, Type)>,
    contents: Vec<(String, Vec<u8>)>,
}

impl FileTypeCache {
    pub closed spec fn spec_types(&self) -> Seq<(String, Type)> {
        self.types@
    }

    pub closed spec fn spec_contents(&self) -> Seq<(String, Vec<u8>)> {
        self.contents@
    }

    /// The classification recorded for a path, if any.
    pub open spec fn spec_type_of(&self, q: Seq<char>) -> Option<Type> {
        spec_assoc(self.spec_types(), q)
    }

    /// The contents recorded for a path, if any.
    pub open spec fn spec_contents_of(&self, q: Seq<char>) -> Option<Seq<u8>> {
        spec_assoc_bytes(self.spec_contents(), q)
    }

    pub fn new() -> (r: FileTypeCache)
        ensures
            forall|q: Seq<char>| r.spec_type_of(q) is None,
            forall|q: Seq<char>| r.spec_contents_of(q) is None,
    {
        FileTypeCache { types: Vec::new(), contents: Vec::new() }
    }

    /// Forces the classification of a path, shadowing any earlier one.
    pub fn override_filetype(&mut self, p: &str, t: Type)
        ensures
            final(self).spec_type_of(p@) == Some(t),
            forall|q: Seq<char>| q != p@ ==> final(self).spec_type_of(q) == old(self).spec_type_of(
                q,
            ),
            final(self).spec_contents() == old(self).spec_contents(),
    {
        let entry = (p.to_owned(), t);
        proof {
            assert forall|q: Seq<char>| true implies spec_assoc(
                old(self).spec_types().push(entry),
                q,
            ) == (if entry.0@ == q {
                Some(entry.1)
            } else {
                spec_assoc(old(self).spec_types(), q)
            }) by {
                lemma_assoc_push(old(self).spec_types(), entry, q);
            }
        }
        self.types.push(entry);
    }

    /// Drops the recorded classification of one path.
    pub fn clear_filetype(&mut self, p: &str)
        ensures
            final(self).spec_type_of(p@) is None,
            forall|q: Seq<char>| q != p@ ==> final(self).spec_type_of(q) == old(self).spec_type_of(
                q,
            ),
            final(self).spec_contents() == old(self).spec_contents(),
    {
        let ghost entries0 = self.types@;
        let mut kept: Vec<(String, Type)> = Vec::new();
        let mut i: usize = 0;
        proof {
            assert(entries0.take(0) =~= Seq::<(String, Type)>::empty());
        }
        while i < self.types.len()
            invariant
                i <= self.types@.len(),
                self.types@ == entries0,
                kept@ == spec_assoc_remove(entries0.take(i as int), p@),
            decreases self.types@.len() - i,
        {
            proof {
                assert(entries0.take(i as int + 1).drop_last() =~= entries0.take(i as int));
                assert(entries0.take(i as int + 1).last() == entries0[i as int]);
            }
            let keep = !text::str_eq(self.types[i].0.as_str(), p);
            if keep {
                let entry = (self.types[i].0.clone(), self.types[i].1);
                proof {
                    assert(entry == entries0[i as int]);
                }
                kept.push(entry);
            }
            i = i + 1;
        }
        proof {
            assert(entries0.take(entries0.len() as int) =~= entries0);
            assert forall|q: Seq<char>| true implies spec_assoc(
                spec_assoc_remove(entries0, p@),
                q,
            ) == (if q == p@ {
                None::<Type>
            } else {
                spec_assoc(entries0, q)
            }) by {
                lemma_assoc_remove(entries0, p@, q);
            }
        }
        self.types = kept;
    }

    /// Drops every recorded classification.
    pub fn clear_filetypes(&mut self)
        ensures
            forall|q: Seq<char>| final(self).spec_type_of(q) is None,
            final(self).spec_contents() == old(self).spec_contents(),
    {
        self.types = Vec::new();
    }

    pub fn get_cached_filetype(&self, p: &str) -> (r: Option<Type>)
        ensures
            r == self.spec_type_of(p@),
    {
        let mut i = self.types.len();
        proof {
            assert(self.types@.take(i as int) =~= self.types@);
        }
        while i > 0
            invariant
                i <= self.types@.len(),
                self.spec_type_of(p@) == spec_assoc(self.types@.take(i as int), p@),
            decreases i,
        {
            i = i - 1;
            proof {
                assert(self.types@.take(i as int + 1).drop_last() =~= self.types@.take(i as int));
                assert(self.types@.take(i as int + 1).last() == self.types@[i as int]);
            }
            if text::str_eq(self.types[i].0.as_str(), p) {
                return Some(self.types[i].1);
            }
        }
        proof {
            assert(self.types@.take(0) =~= Seq::<(String, Type)>::empty());
        }
        None
    }

    /// Records file contents for a path, shadowing any earlier record; the
    /// sniffing and resolution functions then treat the path as an existing
    /// file with these contents.
    pub fn override_file_contents(&mut self, p: &str, data: Vec<u8>)
        ensures
            final(self).spec_contents_of(p@) == Some(data@),
            forall|q: Seq<char>| q != p@ ==> final(self).spec_contents_of(q) == old(
                self,
            ).spec_contents_of(q),
            final(self).spec_types() == old(self).spec_types(),
    {
        let entry = (p.to_owned(), data);
        proof {
            assert forall|q: Seq<char>| true implies spec_assoc_bytes(
                old(self).spec_contents().push(entry),
                q,
            ) == (if entry.0@ == q {
                Some(entry.1@)
            } else {
                spec_assoc_bytes(old(self).spec_contents(), q)
            }) by {
                lemma_assoc_bytes_push(old(self).spec_contents(), entry, q);
            }
        }
        self.contents.push(entry);
    }

    /// Drops the recorded contents of one path.
    pub fn clear_file_contents_cache(&mut self, p: &str)
        ensures
            final(self).spec_contents_of(p@) is None,
            forall|q: Seq<char>| q != p@ ==> final(self).spec_contents_of(q) == old(
                self,
            ).spec_contents_of(q),
            final(self).spec_types() == old(self).spec_types(),
    {
        let ghost entries0 = self.contents@;
        let mut kept: Vec<(String, Vec<u8>)> = Vec::new();
        let mut i: usize = 0;
        proof {
            assert(entries0.take(0) =~= Seq::<(String, Vec<u8>)>::empty());
        }
        while i < self.contents.len()
            invariant
                i <= self.contents@.len(),
                self.contents@ == entries0,
                forall|q: Seq<char>| #[trigger] spec_assoc_bytes(kept@, q) == (if q == p@ {
                    None::<Seq<u8>>
                } else {
                    spec_assoc_bytes(entries0.take(i as int), q)
                }),
            decreases self.contents@.len() - i,
        {
            let ghost kept0 = kept@;
            proof {
                assert(entries0.take(i as int + 1).drop_last() =~= entries0.take(i as int));
                assert(entries0.take(i as int + 1).last() == entries0[i as int]);
            }
            let keep = !text::str_eq(self.contents[i].0.as_str(), p);
            if keep {
                let entry = (self.contents[i].0.clone(), self.contents[i].1.clone());
                proof {
                    assert(entry.0@ == entries0[i as int].0@);
                    assert(entry.1@ == entries0[i as int].1@);
                }
                kept.push(entry);
                proof {
                    assert forall|q: Seq<char>| #[trigger] spec_assoc_bytes(kept@, q) == (if q
                        == p@ {
                        None::<Seq<u8>>
                    } else {
                        spec_assoc_bytes(entries0.take(i as int + 1), q)
                    }) by {
                        assert(kept@ == kept0.push(kept@.last()));
                        lemma_assoc_bytes_push(kept0, kept@.last(), q);
                    }
                }
            }
            i = i + 1;
        }
        proof {
            assert(entries0.take(entries0.len() as int) =~= entries0);
        }
        self.contents = kept;
    }

    /// A borrowed view of the contents recorded for a path.
    pub fn contents_ref(&self, p: &str) -> (r: Option<&Vec<u8>>)
        ensures
            match r {
                Some(b) => self.spec_contents_of(p@) == Some(b@),
                None => self.spec_contents_of(p@) is None,
            },
    {
        let mut i = self.contents.len();
        proof {
            assert(self.contents@.take(i as int) =~= self.contents@);
        }
        while i > 0
            invariant
                i <= self.contents@.len(),
                spec_assoc_bytes(self.contents@, p@) == spec_assoc_bytes(
                    self.contents@.take(i as int),
                    p@,
                ),
            decreases i,
        {
            i = i - 1;
            proof {
                assert(self.contents@.take(i as int + 1).drop_last() =~= self.contents@.take(
                    i as int,
                ));
                assert(self.contents@.take(i as int + 1).last() == self.contents@[i as int]);
            }
            if text::str_eq(self.contents[i].0.as_str(), p) {
                return Some(&self.contents[i].1);
            }
        }
        proof {
            assert(self.contents@.take(0) =~= Seq::<(String, Vec<u8>)>::empty());
        }
        None
    }

    /// Whether the cache knows the path as a file: only recorded contents
    /// count, a forced classification alone does not.
    pub fn file_exists(&self, p: &str) -> (r: bool)
        ensures
            r == (self.spec_contents_of(p@) is Some),
    {
        match self.contents_ref(p) {
            Some(_) => true,
            None => false,
        }
    }
}

pub open spec fn spec_data_view(d: Option<&Vec<u8>>) -> Option<Seq<u8>> {
    match d {
        Some(b) => Some(b@),
        None => None,
    }
}

/// The bytes a sniffing call works on: recorded contents shadow whatever the
/// caller read from disk.
pub open spec fn spec_effective(c: FileTypeCache, q: Seq<char>, data: Option<Seq<u8>>) -> Option<
    Seq<u8>,
> {
    if c.spec_contents_of(q) is Some {
        c.spec_contents_of(q)
    } else {
        data
    }
}

/// What magic-byte classification says of a byte string.
pub open spec fn spec_bytes_type(b: Seq<u8>) -> Option<Type> {
    if spec_raw_bitcode_magic(b) || spec_wrapped_bitcode_magic(b) {
        Some(Type::Object(Subtype::Bitcode))
    } else if spec_pexe_magic(b) {
        Some(Type::Pexe)
    } else if spec_wasm_magic(b) {
        Some(Type::Wasm)
    } else if spec_first_regular_member(b) matches Some(m) && (spec_raw_bitcode_magic(m)
        || spec_wrapped_bitcode_magic(m)) {
        Some(Type::Archive(Subtype::Bitcode))
    } else {
        None
    }
}

/// The classification of a path: the recorded one, else what the bytes say.
pub open spec fn spec_file_type(c: FileTypeCache, q: Seq<char>, data: Option<Seq<u8>>) -> Option<
    Type,
> {
    match c.spec_type_of(q) {
        Some(t) => Some(t),
        None => match spec_effective(c, q, data) {
            Some(b) => spec_bytes_type(b),
            None => None,
        },
    }
}

fn effective_bytes<'a>(cache: &'a FileTypeCache, path: &str, data: Option<&'a Vec<u8>>) -> (r:
    Option<&'a Vec<u8>>)
    ensures
        spec_data_view(r) == spec_effective(*cache, path@, spec_data_view(data)),
{
    match cache.contents_ref(path) {
        Some(b) => Some(b),
        None => data,
    }
}

/// Classifies a path, memoizing the result: a classification once recorded is
/// returned as is, whatever bytes are offered, so classifying the same path
/// twice gives identical results and needs the file's bytes at most once.
pub fn file_type(cache: &mut FileTypeCache, path: &String, data: Option<&Vec<u8>>) -> (r: Option<
    Type,
>)
    ensures
        r == spec_file_type(*old(cache), path@, spec_data_view(data)),
        old(cache).spec_type_of(path@) is Some ==> *final(cache) == *old(cache),
        r matches Some(t) ==> final(cache).spec_type_of(path@) == Some(t),
        r is None ==> *final(cache) == *old(cache),
        forall|q: Seq<char>| q != path@ ==> final(cache).spec_type_of(q) == old(
            cache,
        ).spec_type_of(q),
        final(cache).spec_contents() == old(cache).spec_contents(),
{
    match cache.get_cached_filetype(path.as_str()) {
        Some(t) => {
            return Some(t);
        },
        None => {},
    }
    let bytes = match effective_bytes(cache, path.as_str(), data) {
        Some(b) => b,
        None => {
            return None;
        },
    };
    let t: Option<Type> = if is_stream_llvm_bitcode(bytes) {
        Some(Type::Object(Subtype::Bitcode))
    } else if is_stream_pnacl_bitcode(bytes) {
        Some(Type::Pexe)
    } else if is_stream_wasm_module(bytes) {
        Some(Type::Wasm)
    } else {
        match first_regular_member(bytes) {
            Some((ms, me)) => {
                if is_bitcode_in(bytes, ms, me) {
                    Some(Type::Archive(Subtype::Bitcode))
                } else {
                    None
                }
            },
            None => None,
        }
    };
    match t {
        Some(t) => {
            cache.override_filetype(path.as_str(), t);
            Some(t)
        },
        None => None,
    }
}

/// Once a path is classified, later classifications agree whatever bytes they
/// are offered: sniffing is idempotent and reads a file at most once.
pub proof fn lemma_file_type_idempotent(
    c1: FileTypeCache,
    c2: FileTypeCache,
    q: Seq<char>,
    d1: Option<Seq<u8>>,
    d2: Option<Seq<u8>>,
)
    requires
        spec_file_type(c1, q, d1) is Some,
        c2.spec_type_of(q) == spec_file_type(c1, q, d1),
    ensures
        spec_file_type(c2, q, d2) == spec_file_type(c1, q, d1),
{
}

pub open spec fn spec_type_is_native(t: Type) -> bool {
    !(t == Type::Object(Subtype::Bitcode) || t == Type::Archive(Subtype::Bitcode) || t
        == Type::Pexe)
}

/// Whether a path counts as native: it is, unless it is recognized as
/// bitcode, wrapped bitcode or a portable executable, or as an archive whose
/// first member is bitcode — unrecognized files default to native.
pub open spec fn spec_is_native(c: FileTypeCache, q: Seq<char>, data: Option<Seq<u8>>) -> bool {
    match c.spec_type_of(q) {
        Some(t) => spec_type_is_native(t),
        None => match spec_effective(c, q, data) {
            Some(b) => !(spec_raw_bitcode_magic(b) || spec_wrapped_bitcode_magic(b)
                || spec_pexe_magic(b) || (spec_first_regular_member(b) matches Some(m) && (
            spec_raw_bitcode_magic(m) || spec_wrapped_bitcode_magic(m)))),
            None => true,
        },
    }
}

/// The native test, reading the cache only: classification recorded for the
/// path decides; otherwise the recorded contents (or the offered bytes) are
/// sniffed; a path with neither defaults to native.
pub fn is_file_native(cache: &FileTypeCache, path: &String, data: Option<&Vec<u8>>) -> (r: bool)
    ensures
        r == spec_is_native(*cache, path@, spec_data_view(data)),
{
    match cache.get_cached_filetype(path.as_str()) {
        Some(t) => {
            return !(t == Type::Object(Subtype::Bitcode) || t == Type::Archive(Subtype::Bitcode)
                || t == Type::Pexe);
        },
        None => {},
    }
    let bytes = match effective_bytes(cache, path.as_str(), data) {
        Some(b) => b,
        None => {
            return true;
        },
    };
    if is_stream_llvm_bitcode(bytes) || is_stream_pnacl_bitcode(bytes) {
        return false;
    }
    match first_regular_member(bytes) {
        Some((ms, me)) => !is_bitcode_in(bytes, ms, me),
        None => true,
    }
}

/// Whether a path is an archive: a recorded archive classification counts,
/// else the archive magic on the available bytes.
pub open spec fn spec_is_archive(c: FileTypeCache, q: Seq<char>, data: Option<Seq<u8>>) -> bool {
    if c.spec_type_of(q) matches Some(Type::Archive(_)) {
        true
    } else {
        match spec_effective(c, q, data) {
            Some(b) => spec_archive_magic(b),
            None => false,
        }
    }
}

pub fn is_file_an_archive(cache: &FileTypeCache, path: &String, data: Option<&Vec<u8>>) -> (r:
    bool)
    ensures
        r == spec_is_archive(*cache, path@, spec_data_view(data)),
{
    match cache.get_cached_filetype(path.as_str()) {
        Some(Type::Archive(_)) => {
            return true;
        },
        _ => {},
    }
    match effective_bytes(cache, path.as_str(), data) {
        Some(b) => is_buffer_an_archive(b),
        None => false,
    }
}

/// The kind of archive a path is, judged by its first member: `Bitcode` when
/// that member carries a bitcode magic. A recorded archive classification is
/// taken as is.
pub open spec fn spec_archive_type(c: FileTypeCache, q: Seq<char>, data: Option<Seq<u8>>) -> Option<
    Subtype,
> {
    match c.spec_type_of(q) {
        Some(Type::Archive(s)) => Some(s),
        Some(_) => None,
        None => match spec_effective(c, q, data) {
            Some(b) => if spec_first_regular_member(b) matches Some(m) && (
            spec_raw_bitcode_magic(m) || spec_wrapped_bitcode_magic(m)) {
                Some(Subtype::Bitcode)
            } else {
                None
            },
            None => None,
        },
    }
}

pub fn archive_type(cache: &FileTypeCache, path: &String, data: Option<&Vec<u8>>) -> (r: Option<
    Subtype,
>)
    ensures
        r == spec_archive_type(*cache, path@, spec_data_view(data)),
{
    match cache.get_cached_filetype(path.as_str()) {
        Some(Type::Archive(s)) => {
            return Some(s);
        },
        Some(_) => {
            return None;
        },
        None => {},
    }
    let bytes = match effective_bytes(cache, path.as_str(), data) {
        Some(b) => b,
        None => {
            return None;
        },
    };
    match first_regular_member(bytes) {
        Some((ms, me)) => {
            if is_bitcode_in(bytes, ms, me) {
                Some(Subtype::Bitcode)
            } else {
                None
            }
        },
        None => None,
    }
}

/// Whether a path's raw or wrapped bitcode magic shows, a recorded bitcode
/// classification counting as either form.
pub open spec fn spec_is_bitcode_file(c: FileTypeCache, q: Seq<char>, data: Option<Seq<u8>>)
    -> bool {
    if c.spec_type_of(q) == Some(Type::Object(Subtype::Bitcode)) {
        true
    } else {
        match spec_effective(c, q, data) {
            Some(b) => spec_raw_bitcode_magic(b) || spec_wrapped_bitcode_magic(b),
            None => false,
        }
    }
}

pub open spec fn spec_script_extension(q: Seq<char>) -> bool {
    match text::spec_extension(q) {
        Some(e) => e == "o"@ || e == "so"@ || e == "a"@ || e == "po"@ || e == "pa"@ || e == "x"@,
        None => false,
    }
}

/// The linker-script heuristic: a library-like extension, and neither an
/// archive nor raw or wrapped bitcode.
pub open spec fn spec_could_be_linker_script(
    c: FileTypeCache,
    q: Seq<char>,
    data: Option<Seq<u8>>,
) -> bool {
    spec_script_extension(q) && !spec_is_archive(c, q, data) && !spec_is_bitcode_file(c, q, data)
}

pub fn could_be_linker_script(cache: &FileTypeCache, path: &String, data: Option<&Vec<u8>>) -> (r:
    bool)
    ensures
        r == spec_could_be_linker_script(*cache, path@, spec_data_view(data)),
{
    let ext_ok = match text::path_extension(path.as_str()) {
        Some(e) => text::str_eq(e.as_str(), "o") || text::str_eq(e.as_str(), "so") || text::str_eq(
            e.as_str(),
            "a",
        ) || text::str_eq(e.as_str(), "po") || text::str_eq(e.as_str(), "pa") || text::str_eq(
            e.as_str(),
            "x",
        ),
        None => false,
    };
    if !ext_ok {
        return false;
    }
    if is_file_an_archive(cache, path, data) {
        return false;
    }
    let bitcode = if cache_has_bitcode_object(cache, path) {
        true
    } else {
        match effective_bytes(cache, path.as_str(), data) {
            Some(b) => is_stream_llvm_bitcode(b),
            None => false,
        }
    };
    !bitcode
}

fn cache_has_bitcode_object(cache: &FileTypeCache, path: &String) -> (r: bool)
    ensures
        r == (cache.spec_type_of(path@) == Some(Type::Object(Subtype::Bitcode))),
{
    match cache.get_cached_filetype(path.as_str()) {
        Some(t) => t == Type::Object(Subtype::Bitcode),
        None => false,
    }
}

/// Whether the path both looks like a linker script and parses as one.
pub open spec fn spec_is_linker_script(c: FileTypeCache, q: Seq<char>, data: Option<Seq<u8>>)
    -> bool {
    &&& spec_could_be_linker_script(c, q, data)
    &&& match spec_effective(c, q, data) {
        Some(b) => vstd::utf8::valid_utf8(b) && ldtools::spec_parse_script(
            vstd::utf8::decode_utf8(b),
            text::spec_path_parent(q),
        ) is Some,
        None => false,
    }
}

/// Relies on `String::from_utf8`: decodes bytes as UTF-8, `None` exactly when
/// they are not valid UTF-8.
#[verifier::external_body]
pub(crate) fn bytes_to_string(b: &Vec<u8>) -> (r: Option<String>)
    ensures
        r is Some <==> vstd::utf8::valid_utf8(b@),
        r matches Some(s) ==> vstd::utf8::encode_utf8(s@) == b@,
{
    String::from_utf8(b.clone()).ok()
}

pub fn is_linker_script(cache: &FileTypeCache, path: &String, data: Option<&Vec<u8>>) -> (r: bool)
    ensures
        r == spec_is_linker_script(*cache, path@, spec_data_view(data)),
{
    if !could_be_linker_script(cache, path, data) {
        return false;
    }
    let bytes = match effective_bytes(cache, path.as_str(), data) {
        Some(b) => b,
        None => {
            return false;
        },
    };
    let textual = match bytes_to_string(bytes) {
        Some(s) => s,
        None => {
            return false;
        },
    };
    proof {
        broadcast use vstd::utf8::encode_utf8_decode_utf8;

        assert(vstd::utf8::decode_utf8(bytes@) == textual@);
    }
    let dir = text::path_parent(path.as_str());
    match ldtools::parse_linker_script(textual.as_str(), dir.as_str()) {
        Some(_) => true,
        None => false,
    }
}

/// Whether every byte is an ASCII decimal digit (and there is at least one).
pub open spec fn spec_all_digits(s: Seq<u8>) -> bool {
    s.len() > 0 && forall|i: int| 0 <= i < s.len() ==> 0x30u8 <= #[trigger] s[i] <= 0x39u8
}

/// The number the digit string spells.
pub open spec fn spec_digits_value(s: Seq<u8>) -> int
    decreases s.len(),
{
    if s.len() == 0 {
        0
    } else {
        spec_digits_value(s.drop_last()) * 10 + (s.last() - 0x30u8)
    }
}

proof fn lemma_digits_value_mono(s: Seq<u8>, i: int)
    requires
        0 <= i <= s.len(),
        forall|k: int| 0 <= k < s.len() ==> 0x30u8 <= #[trigger] s[k] <= 0x39u8,
    ensures
        spec_digits_value(s.take(i)) <= spec_digits_value(s),
    decreases s.len() - i,
{
    if i < s.len() {
        assert(s.take(i + 1).drop_last() =~= s.take(i));
        assert(s.take(i + 1).last() == s[i]);
        assert(spec_digits_value(s.take(i)) >= 0) by {
            lemma_digits_value_nonneg(s.take(i));
        }
        assert(spec_digits_value(s.take(i)) <= spec_digits_value(s.take(i + 1)));
        lemma_digits_value_mono(s, i + 1);
    } else {
        assert(s.take(i) =~= s);
    }
}

proof fn lemma_digits_value_nonneg(s: Seq<u8>)
    requires
        forall|k: int| 0 <= k < s.len() ==> 0x30u8 <= #[trigger] s[k] <= 0x39u8,
    ensures
        spec_digits_value(s) >= 0,
    decreases s.len(),
{
    if s.len() > 0 {
        assert(forall|k: int| 0 <= k < s.drop_last().len() ==> 0x30u8 <= #[trigger] s.drop_last()[k]
            <= 0x39u8);
        lemma_digits_value_nonneg(s.drop_last());
    }
}

/// Parses a decimal byte string as the archive member size field is written:
/// digits only, no sign, no padding, and the value must fit.
pub fn parse_decimal_size(s: &Vec<u8>) -> (r: Result<u64, String>)
    ensures
        r matches Ok(v) ==> spec_all_digits(s@) && v == spec_digits_value(s@) && spec_digits_value(
            s@,
        ) <= u64::MAX,
        spec_all_digits(s@) && spec_digits_value(s@) <= u64::MAX ==> (r matches Ok(v) && v
            == spec_digits_value(s@)),
{
    if s.len() == 0 {
        return Err("empty size field".to_owned());
    }
    let mut acc: u64 = 0;
    let mut i: usize = 0;
    proof {
        assert(s@.take(0) =~= Seq::<u8>::empty());
    }
    while i < s.len()
        invariant
            i <= s@.len(),
            s@.len() > 0,
            forall|k: int| 0 <= k < i ==> 0x30u8 <= #[trigger] s@[k] <= 0x39u8,
            acc == spec_digits_value(s@.take(i as int)),
        decreases s@.len() - i,
    {
        let b = s[i];
        if b < 0x30 || b > 0x39 {
            return Err("size field is not a number".to_owned());
        }
        let d = (b - 0x30) as u64;
        proof {
            assert(s@.take(i as int + 1).drop_last() =~= s@.take(i as int));
            assert(s@.take(i as int + 1).last() == s@[i as int]);
        }
        if acc > (u64::MAX - d) / 10 {
            proof {
                assert(spec_digits_value(s@.take(i as int + 1)) > u64::MAX);
                if spec_all_digits(s@) {
                    lemma_digits_value_mono(s@, i as int + 1);
                }
            }
            return Err("size field overflows".to_owned());
        }
        acc = acc * 10 + d;
        i = i + 1;
    }
    proof {
        assert(s@.take(s@.len() as int) =~= s@);
    }
    Ok(acc)
}

/// The fixed name-field contents that mark archive symbol and string tables.
pub open spec fn spec_svr4_symtab_name(s: Seq<u8>) -> bool {
    s.len() == 16 && s[0] == 0x2fu8 && forall|i: int| 1 <= i < 16 ==> #[trigger] s[i] == 0x20u8
}

pub open spec fn spec_strtab_name(s: Seq<u8>) -> bool {
    s.len() == 16 && s[0] == 0x2fu8 && s[1] == 0x2fu8 && forall|i: int|
        2 <= i < 16 ==> #[trigger] s[i] == 0x20u8
}

/// `#_LLVM_SYM_TAB_#`.
pub open spec fn spec_llvm_symtab_name(s: Seq<u8>) -> bool {
    s.len() == 16 && s[0] == 0x23u8 && s[1] == 0x5fu8 && s[2] == 0x4cu8 && s[3] == 0x4cu8 && s[4]
        == 0x56u8 && s[5] == 0x4du8 && s[6] == 0x5fu8 && s[7] == 0x53u8 && s[8] == 0x59u8 && s[9]
        == 0x4du8 && s[10] == 0x5fu8 && s[11] == 0x54u8 && s[12] == 0x41u8 && s[13] == 0x42u8
        && s[14] == 0x5fu8 && s[15] == 0x23u8
}

/// `__.SYMDEF SORTED`.
pub open spec fn spec_bsd4_symtab_name(s: Seq<u8>) -> bool {
    s.len() == 16 && s[0] == 0x5fu8 && s[1] == 0x5fu8 && s[2] == 0x2eu8 && s[3] == 0x53u8 && s[4]
        == 0x59u8 && s[5] == 0x4du8 && s[6] == 0x44u8 && s[7] == 0x45u8 && s[8] == 0x46u8 && s[9]
        == 0x20u8 && s[10] == 0x53u8 && s[11] == 0x4fu8 && s[12] == 0x52u8 && s[13] == 0x54u8
        && s[14] == 0x45u8 && s[15] == 0x44u8
}

/// `#1/`, the BSD long-name prefix.
pub open spec fn spec_bsd_long_name(s: Seq<u8>) -> bool {
    s.len() >= 3 && s[0] == 0x23u8 && s[1] == 0x31u8 && s[2] == 0x2fu8
}

/// One parsed archive member header: where the member's data starts, its
/// 16-byte name field, and its size.
pub struct MemberHeader {
    pub start: u64,
    name: Vec<u8>,
    pub size: u64,
}

impl MemberHeader {
    pub closed spec fn spec_name(&self) -> Seq<u8> {
        self.name@
    }

    pub closed spec fn spec_start(&self) -> u64 {
        self.start
    }

    pub closed spec fn spec_size(&self) -> u64 {
        self.size
    }

    /// Everything a well-formed header satisfies: a 60-byte header whose
    /// closing magic is backtick-newline, a plain decimal size, and no
    /// BSD-style long name.
    pub open spec fn spec_header_ok(header: Seq<u8>) -> bool {
        &&& header.len() >= 60
        &&& header[58] == 0x60u8
        &&& header[59] == 0x0au8
        &&& spec_all_digits(header.subrange(48, 58))
        &&& spec_digits_value(header.subrange(48, 58)) <= u64::MAX
        &&& !spec_bsd_long_name(header.subrange(0, 16))
    }

    /// Parses the 60-byte member header that starts an archive member,
    /// `start` being the offset at which the member's data follows.
    pub fn parse(header: &Vec<u8>, start: u64) -> (r: Result<MemberHeader, String>)
        ensures
            r is Ok <==> Self::spec_header_ok(header@),
            r matches Ok(m) ==> m.spec_start() == start && m.spec_name() == header@.subrange(
                0,
                16,
            ) && m.spec_size() == spec_digits_value(header@.subrange(48, 58)),
    {
        if header.len() < 60 {
            return Err("short count reading archive member header".to_owned());
        }
        if !(header[58] == 0x60 && header[59] == 0x0a) {
            return Err("invalid archive member header magic".to_owned());
        }
        let mut size_field: Vec<u8> = Vec::new();
        let mut i: usize = 48;
        while i < 58
            invariant
                48 <= i <= 58,
                header@.len() >= 60,
                size_field@ =~= header@.subrange(48, i as int),
            decreases 58 - i,
        {
            size_field.push(header[i]);
            proof {
                assert(size_field@ =~= header@.subrange(48, i as int + 1));
            }
            i = i + 1;
        }
        let size = match parse_decimal_size(&size_field) {
            Ok(v) => v,
            Err(e) => {
                return Err(e);
            },
        };
        let mut name: Vec<u8> = Vec::new();
        let mut j: usize = 0;
        while j < 16
            invariant
                j <= 16,
                header@.len() >= 60,
                name@ =~= header@.subrange(0, j as int),
            decreases 16 - j,
        {
            name.push(header[j]);
            proof {
                assert(name@ =~= header@.subrange(0, j as int + 1));
            }
            j = j + 1;
        }
        if name[0] == 0x23 && name[1] == 0x31 && name[2] == 0x2f {
            return Err("BSD-style long file names not supported".to_owned());
        }
        Ok(MemberHeader { start, name, size })
    }

    /// The raw 16-byte name field.
    pub fn name(&self) -> (r: &Vec<u8>)
        ensures
            r@ == self.spec_name(),
    {
        &self.name
    }

    pub fn is_svr4_symtab(&self) -> (r: bool)
        ensures
            r == spec_svr4_symtab_name(self.spec_name()),
    {
        if self.name.len() != 16 || self.name[0] != 0x2f {
            return false;
        }
        let mut i: usize = 1;
        while i < 16
            invariant
                1 <= i <= 16,
                self.name@.len() == 16,
                forall|k: int| 1 <= k < i ==> #[trigger] self.name@[k] == 0x20u8,
            decreases 16 - i,
        {
            if self.name[i] != 0x20 {
                return false;
            }
            i = i + 1;
        }
        true
    }

    pub fn is_llvm_symtab(&self) -> (r: bool)
        ensures
            r == spec_llvm_symtab_name(self.spec_name()),
    {
        self.name.len() == 16 && self.name[0] == 0x23 && self.name[1] == 0x5f && self.name[2]
            == 0x4c && self.name[3] == 0x4c && self.name[4] == 0x56 && self.name[5] == 0x4d
            && self.name[6] == 0x5f && self.name[7] == 0x53 && self.name[8] == 0x59 && self.name[9]
            == 0x4d && self.name[10] == 0x5f && self.name[11] == 0x54 && self.name[12] == 0x41
            && self.name[13] == 0x42 && self.name[14] == 0x5f && self.name[15] == 0x23
    }

    pub fn is_bsd4_symtab(&self) -> (r: bool)
        ensures
            r == spec_bsd4_symtab_name(self.spec_name()),
    {
        self.name.len() == 16 && self.name[0] == 0x5f && self.name[1] == 0x5f && self.name[2]
            == 0x2e && self.name[3] == 0x53 && self.name[4] == 0x59 && self.name[5] == 0x4d
            && self.name[6] == 0x44 && self.name[7] == 0x45 && self.name[8] == 0x46 && self.name[9]
            == 0x20 && self.name[10] == 0x53 && self.name[11] == 0x4f && self.name[12] == 0x52
            && self.name[13] == 0x54 && self.name[14] == 0x45 && self.name[15] == 0x44
    }

    pub fn is_strtab(&self) -> (r: bool)
        ensures
            r == spec_strtab_name(self.spec_name()),
    {
        if self.name.len() != 16 || self.name[0] != 0x2f || self.name[1] != 0x2f {
            return false;
        }
        let mut i: usize = 2;
        while i < 16
            invariant
                2 <= i <= 16,
                self.name@.len() == 16,
                forall|k: int| 2 <= k < i ==> #[trigger] self.name@[k] == 0x20u8,
            decreases 16 - i,
        {
            if self.name[i] != 0x20 {
                return false;
            }
            i = i + 1;
        }
        true
    }

    /// A regular member: none of the symbol or string tables.
    pub open spec fn spec_regular(&self) -> bool {
        !spec_svr4_symtab_name(self.spec_name()) && !spec_llvm_symtab_name(self.spec_name())
            && !spec_bsd4_symtab_name(self.spec_name()) && !spec_strtab_name(self.spec_name())
    }

    pub fn is_regular_member(&self) -> (r: bool)
        ensures
            r == self.spec_regular(),
    {
        !self.is_svr4_symtab() && !self.is_llvm_symtab() && !self.is_bsd4_symtab()
            && !self.is_strtab()
    }

    /// A regular member whose name field begins with `/`: a GNU long-name
    /// reference.
    pub fn is_long_name(&self) -> (r: bool)
        ensures
            r == (self.spec_regular() && self.spec_name().len() > 0 && self.spec_name()[0]
                == 0x2fu8),
    {
        if !self.is_regular_member() {
            return false;
        }
        self.name.len() > 0 && self.name[0] == 0x2f
    }
}

} // verus!
