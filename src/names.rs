//! Rules on single file names, held as bytes.
use vstd::prelude::*;

verus! {

/// Whether a byte is an uppercase ASCII letter.
pub open spec fn is_upper(b: u8) -> bool {
    65 <= b && b <= 90
}

/// Whether a byte is an ASCII decimal digit.
pub open spec fn is_digit(b: u8) -> bool {
    48 <= b && b <= 57
}

/// ASCII lowercase of one byte; other bytes are kept.
pub open spec fn lower_byte(b: u8) -> u8 {
    if is_upper(b) { (b + 32) as u8 } else { b }
}

/// ASCII uppercase of one byte; other bytes are kept.
pub open spec fn upper_byte(b: u8) -> u8 {
    if 97 <= b && b <= 122 { (b - 32) as u8 } else { b }
}

pub open spec fn lower(s: Seq<u8>) -> Seq<u8> {
    s.map_values(|b: u8| lower_byte(b))
}

pub open spec fn upper(s: Seq<u8>) -> Seq<u8> {
    s.map_values(|b: u8| upper_byte(b))
}

pub open spec fn has_upper_spec(s: Seq<u8>) -> bool {
    exists|i: int| 0 <= i < s.len() && is_upper(#[trigger] s[i])
}

pub open spec fn ends_with_spec(s: Seq<u8>, suffix: Seq<u8>) -> bool {
    suffix.len() <= s.len() && s.subrange(s.len() - suffix.len(), s.len() as int) == suffix
}

pub open spec fn lib_ext() -> Seq<u8> {
    seq![46u8, 108u8, 105u8, 98u8]
}

pub open spec fn pdb_ext() -> Seq<u8> {
    seq![46u8, 112u8, 100u8, 98u8]
}

/// `d_netcore`
pub open spec fn netcore_suffix() -> Seq<u8> {
    seq![100u8, 95u8, 110u8, 101u8, 116u8, 99u8, 111u8, 114u8, 101u8]
}

/// The letter `d`.
pub open spec fn d_byte() -> u8 {
    100u8
}

/// A library stem that names a debug build: it ends in `d`, in `d_netcore`, or in
/// `d` followed by one decimal digit.
pub open spec fn is_debug_stem(stem: Seq<u8>) -> bool {
    (stem.len() >= 1 && stem.last() == d_byte())
        || ends_with_spec(stem, netcore_suffix())
        || (stem.len() >= 2 && is_digit(stem.last()) && stem[stem.len() - 2] == d_byte())
}

/// A `.lib` file, or the `.pdb` symbols of one, whose stem names a debug build.
pub open spec fn is_debug_lib_spec(name: Seq<u8>) -> bool {
    (ends_with_spec(name, lib_ext()) || ends_with_spec(name, pdb_ext())) && is_debug_stem(
        name.subrange(0, name.len() - 4),
    )
}

pub open spec fn is_debug_symbols_spec(name: Seq<u8>) -> bool {
    ends_with_spec(name, pdb_ext())
}

/// The part after the last `/`, or the whole name where it holds none.
pub open spec fn basename_spec(s: Seq<u8>) -> Seq<u8>
    decreases s.len(),
{
    if s.len() == 0 {
        s
    } else if s.last() == 47u8 {
        seq![]
    } else {
        basename_spec(s.drop_last()).push(s.last())
    }
}

/// ASCII lowercase copy of a name.
pub fn ascii_lowercase(s: &Vec<u8>) -> (r: Vec<u8>)
    ensures
        r@ == lower(s@),
{
    let mut r: Vec<u8> = Vec::new();
    let mut i: usize = 0;
    while i < s.len()
        invariant
            i <= s.len(),
            r@ == lower(s@.subrange(0, i as int)),
        decreases s.len() - i,
    {
        let b = s[i];
        let l: u8 = if 65 <= b && b <= 90 { b + 32 } else { b };
        r.push(l);
        i = i + 1;
        assert(s@.subrange(0, i as int) == s@.subrange(0, i - 1).push(b));
    }
    assert(s@.subrange(0, s.len() as int) == s@);
    r
}

/// ASCII uppercase copy of a name.
pub fn ascii_uppercase(s: &Vec<u8>) -> (r: Vec<u8>)
    ensures
        r@ == upper(s@),
{
    let mut r: Vec<u8> = Vec::new();
    let mut i: usize = 0;
    while i < s.len()
        invariant
            i <= s.len(),
            r@ == upper(s@.subrange(0, i as int)),
        decreases s.len() - i,
    {
        let b = s[i];
        let u: u8 = if 97 <= b && b <= 122 { b - 32 } else { b };
        r.push(u);
        i = i + 1;
        assert(s@.subrange(0, i as int) == s@.subrange(0, i - 1).push(b));
    }
    assert(s@.subrange(0, s.len() as int) == s@);
    r
}

/// Whether a name holds an uppercase ASCII letter.
pub fn has_upper(s: &Vec<u8>) -> (r: bool)
    ensures
        r == has_upper_spec(s@),
{
    let mut i: usize = 0;
    while i < s.len()
        invariant
            i <= s.len(),
            forall|j: int| 0 <= j < i ==> !is_upper(#[trigger] s@[j]),
        decreases s.len() - i,
    {
        if 65 <= s[i] && s[i] <= 90 {
            return true;
        }
        i = i + 1;
    }
    false
}

/// Byte-wise equality of two names.
pub fn bytes_eq(a: &Vec<u8>, b: &Vec<u8>) -> (r: bool)
    ensures
        r == (a@ == b@),
{
    if a.len() != b.len() {
        return false;
    }
    let mut i: usize = 0;
    while i < a.len()
        invariant
            i <= a.len(),
            a.len() == b.len(),
            forall|j: int| 0 <= j < i ==> a@[j] == b@[j],
        decreases a.len() - i,
    {
        if a[i] != b[i] {
            return false;
        }
        i = i + 1;
    }
    assert(a@ =~= b@);
    true
}

/// Whether `s` ends with `suffix`.
pub fn ends_with(s: &Vec<u8>, suffix: &Vec<u8>) -> (r: bool)
    ensures
        r == ends_with_spec(s@, suffix@),
{
    if suffix.len() > s.len() {
        return false;
    }
    let off: usize = s.len() - suffix.len();
    let mut i: usize = 0;
    while i < suffix.len()
        invariant
            i <= suffix.len(),
            off + suffix.len() == s.len(),
            forall|j: int| 0 <= j < i ==> s@[off + j] == suffix@[j],
        decreases suffix.len() - i,
    {
        if s[off + i] != suffix[i] {
            assert(s@.subrange(off as int, s.len() as int)[i as int] != suffix@[i as int]);
            return false;
        }
        i = i + 1;
    }
    assert(s@.subrange(off as int, s.len() as int) =~= suffix@);
    true
}

pub fn lib_ext_bytes() -> (r: Vec<u8>)
    ensures
        r@ == lib_ext(),
{
    let r = from_slice(&[46u8, 108u8, 105u8, 98u8]);
    assert(r@ =~= lib_ext());
    r
}

fn pdb_ext_bytes() -> (r: Vec<u8>)
    ensures
        r@ == pdb_ext(),
{
    let r = from_slice(&[46u8, 112u8, 100u8, 98u8]);
    assert(r@ =~= pdb_ext());
    r
}

fn netcore_bytes() -> (r: Vec<u8>)
    ensures
        r@ == netcore_suffix(),
{
    let r = from_slice(&[100u8, 95u8, 110u8, 101u8, 116u8, 99u8, 111u8, 114u8, 101u8]);
    assert(r@ =~= netcore_suffix());
    r
}

/// A name from a slice of bytes.
pub fn from_slice(a: &[u8]) -> (r: Vec<u8>)
    ensures
        r@ == a@,
{
    let mut r: Vec<u8> = Vec::new();
    let mut i: usize = 0;
    while i < a.len()
        invariant
            i <= a@.len(),
            r@ == a@.subrange(0, i as int),
        decreases a.len() - i,
    {
        r.push(a[i]);
        i = i + 1;
        assert(r@ =~= a@.subrange(0, i as int));
    }
    assert(r@ =~= a@);
    r
}

/// The first `n` bytes of a name.
pub fn prefix(s: &Vec<u8>, n: usize) -> (r: Vec<u8>)
    requires
        n <= s.len(),
    ensures
        r@ == s@.subrange(0, n as int),
{
    let mut r: Vec<u8> = Vec::new();
    let mut i: usize = 0;
    while i < n
        invariant
            i <= n <= s.len(),
            r@ == s@.subrange(0, i as int),
        decreases n - i,
    {
        r.push(s[i]);
        i = i + 1;
        assert(r@ =~= s@.subrange(0, i as int));
    }
    r
}

/// The bytes after position `n` of a name.
pub fn suffix_from(s: &Vec<u8>, n: usize) -> (r: Vec<u8>)
    requires
        n <= s.len(),
    ensures
        r@ == s@.subrange(n as int, s.len() as int),
{
    let mut r: Vec<u8> = Vec::new();
    let mut i: usize = n;
    while i < s.len()
        invariant
            n <= i <= s.len(),
            r@ == s@.subrange(n as int, i as int),
        decreases s.len() - i,
    {
        r.push(s[i]);
        i = i + 1;
        assert(r@ =~= s@.subrange(n as int, i as int));
    }
    r
}

/// Whether a name is a `.lib` of a debug build (`msvcrtd.lib`, `libcpmtd0.lib`,
/// `msvcprtd_netcore.lib`), or the `.pdb` of one (`vcruntime140d.pdb`).
pub fn is_debug_lib(name: &Vec<u8>) -> (r: bool)
    ensures
        r == is_debug_lib_spec(name@),
{
    let ext = lib_ext_bytes();
    let sym = pdb_ext_bytes();
    if !ends_with(name, &ext) && !ends_with(name, &sym) {
        return false;
    }
    let stem = prefix(name, name.len() - 4);
    let n = stem.len();
    if n >= 1 && stem[n - 1] == 100u8 {
        return true;
    }
    let nc = netcore_bytes();
    if ends_with(&stem, &nc) {
        return true;
    }
    n >= 2 && 48 <= stem[n - 1] && stem[n - 1] <= 57 && stem[n - 2] == 100u8
}

/// Whether a name is a file of debug symbols (`.pdb`).
pub fn is_debug_symbols(name: &Vec<u8>) -> (r: bool)
    ensures
        r == is_debug_symbols_spec(name@),
{
    let ext = pdb_ext_bytes();
    ends_with(name, &ext)
}

/// The last component of a `/`-separated name.
pub fn basename(s: &Vec<u8>) -> (r: Vec<u8>)
    ensures
        r@ == basename_spec(s@),
{
    let mut i: usize = s.len();
    assert(s@.subrange(0, i as int) =~= s@);
    assert(basename_spec(s@) + s@.subrange(i as int, i as int) =~= basename_spec(s@));
    while i > 0 && s[i - 1] != 47u8
        invariant
            i <= s.len(),
            basename_spec(s@) == basename_spec(s@.subrange(0, i as int)) + s@.subrange(
                i as int,
                s.len() as int,
            ),
        decreases i,
    {
        let ghost pre = s@.subrange(0, i as int);
        assert(pre.drop_last() =~= s@.subrange(0, i - 1));
        assert(s@.subrange(i - 1, s.len() as int) =~= seq![pre.last()] + s@.subrange(
            i as int,
            s.len() as int,
        ));
        i = i - 1;
    }
    let ghost pre = s@.subrange(0, i as int);
    assert(basename_spec(pre) =~= seq![]);
    assert(seq![] + s@.subrange(i as int, s.len() as int) =~= s@.subrange(i as int, s.len() as int));
    suffix_from(s, i)
}

} // verus!
