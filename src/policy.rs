//! What happens to one file: whether it is kept, and which casing repair it gets.
use vstd::prelude::*;
use crate::model::PayloadKind;
use crate::names::{
    ascii_lowercase, ascii_uppercase, bytes_eq, ends_with, ends_with_spec, is_debug_lib,
    is_debug_lib_spec, is_debug_symbols, is_debug_symbols_spec, lib_ext, lib_ext_bytes, lower,
    prefix, upper,
};

verus! {

/// The casing repair that a kind of payload gets after a file is placed.
#[derive(Clone, Copy, Debug, PartialEq, Eq, Structural)]
pub enum Repair {
    /// Nothing: the files are consistent among themselves, or are seen to later.
    Keep,
    /// A link at the uppercase name of a few import libraries.
    UppercaseAlias,
    /// The file goes under its lowercase name, with a link at its own name.
    LowercaseCanonical,
}

pub open spec fn repair_spec(kind: PayloadKind) -> Repair {
    match kind {
        PayloadKind::CrtLibs => Repair::UppercaseAlias,
        PayloadKind::SdkLibs => Repair::LowercaseCanonical,
        PayloadKind::SdkStoreLibs => Repair::LowercaseCanonical,
        _ => Repair::Keep,
    }
}

/// The table from kind of payload to casing repair.
pub fn repair_for(kind: PayloadKind) -> (r: Repair)
    ensures
        r == repair_spec(kind),
{
    match kind {
        PayloadKind::CrtLibs => Repair::UppercaseAlias,
        PayloadKind::SdkLibs => Repair::LowercaseCanonical,
        PayloadKind::SdkStoreLibs => Repair::LowercaseCanonical,
        _ => Repair::Keep,
    }
}

/// The kinds whose debug files are filtered out.
pub open spec fn filtered_kind(kind: PayloadKind) -> bool {
    kind == PayloadKind::CrtLibs || kind == PayloadKind::Ucrt
}

/// A file is kept unless its kind is filtered and it is debug symbols or a debug
/// library that the options do not ask for.
pub open spec fn keep_file_spec(
    kind: PayloadKind,
    name: Seq<u8>,
    include_debug_libs: bool,
    include_debug_symbols: bool,
) -> bool {
    !filtered_kind(kind) || ((!is_debug_symbols_spec(name) || include_debug_symbols) && (
    !is_debug_lib_spec(name) || include_debug_libs))
}

/// Whether a file of the given kind goes to the destination.
pub fn keep_file(
    kind: PayloadKind,
    name: &Vec<u8>,
    include_debug_libs: bool,
    include_debug_symbols: bool,
) -> (r: bool)
    ensures
        r == keep_file_spec(kind, name@, include_debug_libs, include_debug_symbols),
{
    if kind != PayloadKind::CrtLibs && kind != PayloadKind::Ucrt {
        return true;
    }
    if !include_debug_symbols && is_debug_symbols(name) {
        return false;
    }
    if !include_debug_libs && is_debug_lib(name) {
        return false;
    }
    true
}

/// `libcmt`, `msvcrt`, `oldnames`: import libraries that linkers are often told to
/// find by their uppercase names.
pub open spec fn is_angry_stem(lower_stem: Seq<u8>) -> bool {
    lower_stem == seq![108u8, 105u8, 98u8, 99u8, 109u8, 116u8] || lower_stem == seq![
        109u8,
        115u8,
        118u8,
        99u8,
        114u8,
        116u8,
    ] || lower_stem == seq![111u8, 108u8, 100u8, 110u8, 97u8, 109u8, 101u8, 115u8]
}

pub open spec fn stem_of(name: Seq<u8>) -> Seq<u8> {
    name.subrange(0, name.len() - 4)
}

/// The uppercase alias of an import library: for `libcmt.lib` (in any casing)
/// `LIBCMT.lib`, unless the file already has that name.
pub open spec fn angry_alias_spec(name: Seq<u8>) -> Option<Seq<u8>> {
    if ends_with_spec(name, lib_ext()) && is_angry_stem(lower(stem_of(name))) && upper(
        stem_of(name),
    ) + lib_ext() != name {
        Some(upper(stem_of(name)) + lib_ext())
    } else {
        None
    }
}

fn angry_stems() -> (r: Vec<Vec<u8>>)
    ensures
        r@.len() == 3,
        forall|s: Seq<u8>| is_angry_stem(s) <==> exists|i: int| 0 <= i < 3 && r@[i]@ == s,
{
    let mut a: Vec<u8> = Vec::new();
    a.push(108u8);
    a.push(105u8);
    a.push(98u8);
    a.push(99u8);
    a.push(109u8);
    a.push(116u8);
    let mut b: Vec<u8> = Vec::new();
    b.push(109u8);
    b.push(115u8);
    b.push(118u8);
    b.push(99u8);
    b.push(114u8);
    b.push(116u8);
    let mut c: Vec<u8> = Vec::new();
    c.push(111u8);
    c.push(108u8);
    c.push(100u8);
    c.push(110u8);
    c.push(97u8);
    c.push(109u8);
    c.push(101u8);
    c.push(115u8);
    assert(a@ =~= seq![108u8, 105u8, 98u8, 99u8, 109u8, 116u8]);
    assert(b@ =~= seq![109u8, 115u8, 118u8, 99u8, 114u8, 116u8]);
    assert(c@ =~= seq![111u8, 108u8, 100u8, 110u8, 97u8, 109u8, 101u8, 115u8]);
    let mut r: Vec<Vec<u8>> = Vec::new();
    r.push(a);
    r.push(b);
    r.push(c);
    assert forall|s: Seq<u8>| is_angry_stem(s) <==> exists|i: int| 0 <= i < 3 && r@[i]@ == s by {
        if is_angry_stem(s) {
            if s == a@ {
                assert(r@[0]@ == s);
            } else if s == b@ {
                assert(r@[1]@ == s);
            } else {
                assert(r@[2]@ == s);
            }
        }
    }
    r
}

/// The uppercase alias that a placed import library gets, if any.
pub fn angry_alias(name: &Vec<u8>) -> (r: Option<Vec<u8>>)
    ensures
        r matches Some(a) ==> angry_alias_spec(name@) == Some(a@),
        r is None ==> angry_alias_spec(name@) is None,
{
    let ext = lib_ext_bytes();
    if !ends_with(name, &ext) {
        return None;
    }
    let stem = prefix(name, name.len() - 4);
    let lstem = ascii_lowercase(&stem);
    let stems = angry_stems();
    let mut hit = false;
    let mut i: usize = 0;
    while i < 3
        invariant
            i <= 3,
            stems@.len() == 3,
            hit <==> exists|j: int| 0 <= j < i && stems@[j]@ == lstem@,
        decreases 3 - i,
    {
        if bytes_eq(&stems[i], &lstem) {
            hit = true;
        }
        i = i + 1;
    }
    if !hit {
        return None;
    }
    let mut alias = ascii_uppercase(&stem);
    let ghost ustem = alias@;
    let mut k: usize = 0;
    while k < 4
        invariant
            k <= 4,
            ext@ == lib_ext(),
            alias@ == ustem + lib_ext().subrange(0, k as int),
        decreases 4 - k,
    {
        alias.push(ext[k]);
        k = k + 1;
        assert(alias@ =~= ustem + lib_ext().subrange(0, k as int));
    }
    assert(lib_ext().subrange(0, 4) =~= lib_ext());
    if bytes_eq(&alias, name) {
        None
    } else {
        Some(alias)
    }
}

} // verus!
