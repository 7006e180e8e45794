//! Turns a payload into the source subtrees it provides and where each one goes.
use vstd::prelude::*;
use crate::names::from_slice;
use crate::model::{Arch, PayloadKind, Variant, arches_in, has_variant, ms_name, plain_name};
use crate::place::{Mapping, copy_bytes, copy_path};
use crate::registry::path_view;
use crate::tree::{FileTree, lookup};

verus! {

/// A staged payload: the name of its subtree under the staging root, what it
/// holds, and the variant and architecture it was fetched for.
pub struct PayloadDescriptor {
    pub filename: Vec<u8>,
    pub kind: PayloadKind,
    pub variant: Option<Variant>,
    pub target_arch: Option<Arch>,
}

/// Why a payload cannot be mapped.
#[derive(Debug)]
pub enum ResolveError {
    /// CRT libraries without a variant.
    MissingVariant,
    /// CRT or SDK libraries without an architecture.
    MissingArch,
    /// The staged tree lacks a directory the payload's kind must have; the path is
    /// relative to the payload's own subtree.
    MissingSubtree { path: Vec<Vec<u8>> },
}

pub open spec fn seg_inc() -> Seq<u8> {
    seq![105u8, 110u8, 99u8, 108u8, 117u8, 100u8, 101u8]
}

pub open spec fn seg_crt() -> Seq<u8> {
    seq![99u8, 114u8, 116u8]
}

pub open spec fn seg_sdk() -> Seq<u8> {
    seq![115u8, 100u8, 107u8]
}

pub open spec fn seg_lib() -> Seq<u8> {
    seq![108u8, 105u8, 98u8]
}

pub open spec fn seg_spectre() -> Seq<u8> {
    seq![115u8, 112u8, 101u8, 99u8, 116u8, 114u8, 101u8]
}

pub open spec fn seg_onecore() -> Seq<u8> {
    seq![111u8, 110u8, 101u8, 99u8, 111u8, 114u8, 101u8]
}

pub open spec fn seg_um() -> Seq<u8> {
    seq![117u8, 109u8]
}

pub open spec fn seg_ucrt() -> Seq<u8> {
    seq![117u8, 99u8, 114u8, 116u8]
}

/// The architecture's token in destination paths.
pub open spec fn arch_token(a: Arch, preserve: bool) -> Seq<u8> {
    if preserve {
        ms_name(a)
    } else {
        plain_name(a)
    }
}

/// The segments between `lib` and the architecture for CRT libraries.
pub open spec fn crt_variant_segs(variant: Variant, spectre: bool) -> Seq<Seq<u8>> {
    let sp = if spectre {
        seq![seg_spectre()]
    } else {
        seq![]
    };
    match variant {
        Variant::Desktop => sp,
        Variant::OneCore => sp.push(seg_onecore()),
        _ => seq![],
    }
}

/// The library directory of one architecture under `lib/<group>`.
pub open spec fn lib_pair(group: Seq<u8>, a: Arch, preserve: bool) -> (Seq<Seq<u8>>, Seq<Seq<u8>>) {
    (
        seq![seg_lib(), group, ms_name(a)],
        seq![seg_sdk(), seg_lib(), group, arch_token(a, preserve)],
    )
}

/// The (source, destination) pairs of a payload, the source relative to its own
/// subtree and the destination to the output directory.
pub open spec fn planned_pairs(
    kind: PayloadKind,
    variant: Variant,
    arch: Arch,
    arches: Seq<Arch>,
    spectre: bool,
    preserve: bool,
) -> Seq<(Seq<Seq<u8>>, Seq<Seq<u8>>)> {
    match kind {
        PayloadKind::CrtHeaders => seq![(seq![seg_inc()], seq![seg_crt(), seg_inc()])],
        PayloadKind::CrtLibs => seq![
            (
                seq![seg_lib()] + crt_variant_segs(variant, spectre) + seq![ms_name(arch)],
                seq![seg_crt(), seg_lib()] + crt_variant_segs(variant, spectre) + seq![
                    arch_token(arch, preserve),
                ],
            ),
        ],
        PayloadKind::SdkHeaders => seq![(seq![seg_inc()], seq![seg_sdk(), seg_inc()])],
        PayloadKind::SdkLibs => seq![lib_pair(seg_um(), arch, preserve)],
        PayloadKind::SdkStoreLibs => arches.map_values(|a: Arch| lib_pair(seg_um(), a, preserve)),
        PayloadKind::Ucrt => seq![
            (seq![seg_inc(), seg_ucrt()], seq![seg_sdk(), seg_inc(), seg_ucrt()]),
        ] + arches.map_values(|a: Arch| lib_pair(seg_ucrt(), a, preserve)),
    }
}

fn push_seg(p: &mut Vec<Vec<u8>>, s: Vec<u8>)
    ensures
        path_view(final(p)@) == path_view(old(p)@).push(s@),
{
    let ghost before = p@;
    p.push(s);
    assert(path_view(p@) =~= path_view(before).push(s@));
}

fn arch_seg(a: Arch, preserve: bool) -> (r: Vec<u8>)
    ensures
        r@ == arch_token(a, preserve),
{
    if preserve {
        a.as_ms_str()
    } else {
        a.as_str()
    }
}

fn lib_pair_exec(group: &Vec<u8>, a: Arch, preserve: bool) -> (r: (Vec<Vec<u8>>, Vec<Vec<u8>>))
    ensures
        (path_view(r.0@), path_view(r.1@)) == lib_pair(group@, a, preserve),
{
    let mut s: Vec<Vec<u8>> = Vec::new();
    push_seg(&mut s, from_slice(&[108u8, 105u8, 98u8]));  // `lib`
    push_seg(&mut s, copy_bytes(group));
    push_seg(&mut s, a.as_ms_str());
    let mut t: Vec<Vec<u8>> = Vec::new();
    push_seg(&mut t, from_slice(&[115u8, 100u8, 107u8]));  // `sdk`
    push_seg(&mut t, from_slice(&[108u8, 105u8, 98u8]));  // `lib`
    push_seg(&mut t, copy_bytes(group));
    push_seg(&mut t, arch_seg(a, preserve));
    assert(path_view(s@) =~= lib_pair(group@, a, preserve).0);
    assert(path_view(t@) =~= lib_pair(group@, a, preserve).1);
    (s, t)
}

pub open spec fn pairs_view(v: Seq<(Vec<Vec<u8>>, Vec<Vec<u8>>)>) -> Seq<(Seq<Seq<u8>>, Seq<Seq<u8>>)> {
    v.map_values(|p: (Vec<Vec<u8>>, Vec<Vec<u8>>)| (path_view(p.0@), path_view(p.1@)))
}

fn push_pair(v: &mut Vec<(Vec<Vec<u8>>, Vec<Vec<u8>>)>, p: (Vec<Vec<u8>>, Vec<Vec<u8>>))
    ensures
        pairs_view(final(v)@) == pairs_view(old(v)@).push((path_view(p.0@), path_view(p.1@))),
{
    let ghost before = v@;
    v.push(p);
    assert(pairs_view(v@) =~= pairs_view(before).push((path_view(p.0@), path_view(p.1@))));
}

fn arch_pairs(
    group: &Vec<u8>,
    arches: &Vec<Arch>,
    preserve: bool,
    out: &mut Vec<(Vec<Vec<u8>>, Vec<Vec<u8>>)>,
)
    ensures
        pairs_view(final(out)@) == pairs_view(old(out)@) + arches@.map_values(
            |a: Arch| lib_pair(group@, a, preserve),
        ),
{
    let ghost start = pairs_view(out@);
    let mut i: usize = 0;
    while i < arches.len()
        invariant
            i <= arches@.len(),
            pairs_view(out@) == start + arches@.subrange(0, i as int).map_values(
                |a: Arch| lib_pair(group@, a, preserve),
            ),
        decreases arches.len() - i,
    {
        let pair = lib_pair_exec(group, arches[i], preserve);
        push_pair(out, pair);
        i = i + 1;
        assert(start + arches@.subrange(0, i as int).map_values(
            |a: Arch| lib_pair(group@, a, preserve),
        ) =~= start + arches@.subrange(0, i - 1).map_values(
            |a: Arch| lib_pair(group@, a, preserve),
        ).push(lib_pair(group@, arches@[i - 1], preserve)));
    }
    assert(arches@.subrange(0, arches@.len() as int) =~= arches@);
}

/// The (source, destination) pairs of a payload, from the policy table.
pub fn planned(
    kind: PayloadKind,
    variant: Variant,
    arch: Arch,
    arches: u32,
    spectre: bool,
    preserve: bool,
) -> (r: Vec<(Vec<Vec<u8>>, Vec<Vec<u8>>)>)
    ensures
        pairs_view(r@) == planned_pairs(kind, variant, arch, arches_in(arches), spectre, preserve),
{
    let mut out: Vec<(Vec<Vec<u8>>, Vec<Vec<u8>>)> = Vec::new();
    let ghost e = pairs_view(out@);
    assert(e =~= Seq::empty());
    match kind {
        PayloadKind::CrtHeaders | PayloadKind::SdkHeaders => {
            let mut s: Vec<Vec<u8>> = Vec::new();
            push_seg(&mut s, from_slice(&[105u8, 110u8, 99u8, 108u8, 117u8, 100u8, 101u8]));  // `include`
            let mut t: Vec<Vec<u8>> = Vec::new();
            if kind == PayloadKind::CrtHeaders {
                push_seg(&mut t, from_slice(&[99u8, 114u8, 116u8]));  // `crt`
            } else {
                push_seg(&mut t, from_slice(&[115u8, 100u8, 107u8]));  // `sdk`
            }
            push_seg(&mut t, from_slice(&[105u8, 110u8, 99u8, 108u8, 117u8, 100u8, 101u8]));  // `include`
            assert(path_view(s@) =~= seq![seg_inc()]);
            if kind == PayloadKind::CrtHeaders {
                assert(path_view(t@) =~= seq![seg_crt(), seg_inc()]);
            } else {
                assert(path_view(t@) =~= seq![seg_sdk(), seg_inc()]);
            }
            push_pair(&mut out, (s, t));
            assert(pairs_view(out@) =~= planned_pairs(kind, variant, arch, arches_in(arches), spectre, preserve));
        },
        PayloadKind::CrtLibs => {
            let mut s: Vec<Vec<u8>> = Vec::new();
            let mut t: Vec<Vec<u8>> = Vec::new();
            push_seg(&mut s, from_slice(&[108u8, 105u8, 98u8]));  // `lib`
            push_seg(&mut t, from_slice(&[99u8, 114u8, 116u8]));  // `crt`
            push_seg(&mut t, from_slice(&[108u8, 105u8, 98u8]));  // `lib`
            let ghost s0 = path_view(s@);
            let ghost t0 = path_view(t@);
            if spectre && (variant == Variant::Desktop || variant == Variant::OneCore) {
                push_seg(&mut s, from_slice(&[115u8, 112u8, 101u8, 99u8, 116u8, 114u8, 101u8]));  // `spectre`
                push_seg(&mut t, from_slice(&[115u8, 112u8, 101u8, 99u8, 116u8, 114u8, 101u8]));  // `spectre`
            }
            if variant == Variant::OneCore {
                push_seg(&mut s, from_slice(&[111u8, 110u8, 101u8, 99u8, 111u8, 114u8, 101u8]));  // `onecore`
                push_seg(&mut t, from_slice(&[111u8, 110u8, 101u8, 99u8, 111u8, 114u8, 101u8]));  // `onecore`
            }
            assert(path_view(s@) =~= s0 + crt_variant_segs(variant, spectre));
            assert(path_view(t@) =~= t0 + crt_variant_segs(variant, spectre));
            push_seg(&mut s, arch.as_ms_str());
            push_seg(&mut t, arch_seg(arch, preserve));
            assert(s0 =~= seq![seg_lib()]);
            assert(t0 =~= seq![seg_crt(), seg_lib()]);
            assert(path_view(s@) =~= seq![seg_lib()] + crt_variant_segs(variant, spectre) + seq![
                ms_name(arch),
            ]);
            assert(path_view(t@) =~= seq![seg_crt(), seg_lib()] + crt_variant_segs(variant, spectre)
                + seq![arch_token(arch, preserve)]);
            push_pair(&mut out, (s, t));
            assert(pairs_view(out@) =~= planned_pairs(kind, variant, arch, arches_in(arches), spectre, preserve));
        },
        PayloadKind::SdkLibs => {
            let pair = lib_pair_exec(&from_slice(&[117u8, 109u8]), arch, preserve);  // `um`
            push_pair(&mut out, pair);
            assert(pairs_view(out@) =~= planned_pairs(kind, variant, arch, arches_in(arches), spectre, preserve));
        },
        PayloadKind::SdkStoreLibs => {
            let list = Arch::iter(arches);
            arch_pairs(&from_slice(&[117u8, 109u8]), &list, preserve, &mut out);  // `um`
            assert(pairs_view(out@) =~= planned_pairs(kind, variant, arch, arches_in(arches), spectre, preserve));
        },
        PayloadKind::Ucrt => {
            let mut s: Vec<Vec<u8>> = Vec::new();
            push_seg(&mut s, from_slice(&[105u8, 110u8, 99u8, 108u8, 117u8, 100u8, 101u8]));  // `include`
            push_seg(&mut s, from_slice(&[117u8, 99u8, 114u8, 116u8]));  // `ucrt`
            let mut t: Vec<Vec<u8>> = Vec::new();
            push_seg(&mut t, from_slice(&[115u8, 100u8, 107u8]));  // `sdk`
            push_seg(&mut t, from_slice(&[105u8, 110u8, 99u8, 108u8, 117u8, 100u8, 101u8]));  // `include`
            push_seg(&mut t, from_slice(&[117u8, 99u8, 114u8, 116u8]));  // `ucrt`
            assert(path_view(s@) =~= seq![seg_inc(), seg_ucrt()]);
            assert(path_view(t@) =~= seq![seg_sdk(), seg_inc(), seg_ucrt()]);
            push_pair(&mut out, (s, t));
            let list = Arch::iter(arches);
            arch_pairs(&from_slice(&[117u8, 99u8, 114u8, 116u8]), &list, preserve, &mut out);  // `ucrt`
            assert(pairs_view(out@) =~= planned_pairs(kind, variant, arch, arches_in(arches), spectre, preserve));
        },
    }
    out
}

/// The variant that a payload's mapping uses (only CRT libraries read it).
pub open spec fn variant_of(d: PayloadDescriptor) -> Variant {
    match d.variant {
        Some(v) => v,
        None => Variant::Desktop,
    }
}

/// The architecture that a payload's mapping uses (only library payloads read it).
pub open spec fn arch_of(d: PayloadDescriptor) -> Arch {
    match d.target_arch {
        Some(a) => a,
        None => Arch::X86,
    }
}

pub open spec fn lacks_variant(d: PayloadDescriptor) -> bool {
    d.kind == PayloadKind::CrtLibs && d.variant is None
}

pub open spec fn lacks_arch(d: PayloadDescriptor) -> bool {
    (d.kind == PayloadKind::CrtLibs || d.kind == PayloadKind::SdkLibs) && d.target_arch is None
}

/// The payload's pairs under the run's request.
pub open spec fn payload_pairs(d: PayloadDescriptor, arches: u32, variants: u32, preserve: bool) -> Seq<
    (Seq<Seq<u8>>, Seq<Seq<u8>>),
> {
    planned_pairs(
        d.kind,
        variant_of(d),
        arch_of(d),
        arches_in(arches),
        has_variant(variants, Variant::Spectre),
        preserve,
    )
}

fn prepend(first: &Vec<u8>, rest: &Vec<Vec<u8>>) -> (r: Vec<Vec<u8>>)
    ensures
        path_view(r@) == seq![first@] + path_view(rest@),
{
    let mut r: Vec<Vec<u8>> = Vec::new();
    push_seg(&mut r, copy_bytes(first));
    let mut i: usize = 0;
    while i < rest.len()
        invariant
            i <= rest@.len(),
            path_view(r@) == seq![first@] + path_view(rest@).subrange(0, i as int),
        decreases rest.len() - i,
    {
        push_seg(&mut r, copy_bytes(&rest[i]));
        i = i + 1;
        assert(seq![first@] + path_view(rest@).subrange(0, i as int) =~= (seq![first@] + path_view(
            rest@,
        ).subrange(0, i - 1)).push(rest@[i - 1]@));
    }
    assert(path_view(rest@).subrange(0, rest@.len() as int) =~= path_view(rest@));
    r
}

/// Resolves a payload into its mappings, in the order of the policy table, each
/// with its source path (under the staging root), its destination and its node in
/// the payload's staged tree.
///
/// Fails where CRT libraries lack a variant, where library payloads that name one
/// architecture lack it, or with the first source directory that the tree lacks.
pub fn resolve_mappings(
    d: &PayloadDescriptor,
    tree: &FileTree,
    arches: u32,
    variants: u32,
    preserve: bool,
) -> (r: Result<Vec<Mapping>, ResolveError>)
    requires
        tree.wf(),
        d.kind == PayloadKind::CrtLibs ==> d.variant != Some(Variant::Spectre),
    ensures
        lacks_variant(*d) ==> r matches Err(ResolveError::MissingVariant),
        !lacks_variant(*d) && lacks_arch(*d) ==> r matches Err(ResolveError::MissingArch),
        r matches Ok(ms) ==> {
            let pp = payload_pairs(*d, arches, variants, preserve);
            &&& !lacks_variant(*d) && !lacks_arch(*d)
            &&& ms@.len() == pp.len()
            &&& forall|i: int|
                0 <= i < pp.len() ==> {
                    &&& path_view((#[trigger] ms@[i]).src@) == seq![d.filename@] + pp[i].0
                    &&& path_view(ms@[i].target@) == pp[i].1
                    &&& lookup(tree.nodes@, 0, pp[i].0) == Some(ms@[i].node)
                    &&& ms@[i].kind == d.kind
                    &&& ms@[i].variant == d.variant
                }
        },
        r matches Err(ResolveError::MissingSubtree { path }) ==> exists|i: int|
            0 <= i < payload_pairs(*d, arches, variants, preserve).len() && (#[trigger] payload_pairs(
                *d,
                arches,
                variants,
                preserve,
            )[i]).0 == path_view(path@) && lookup(
                tree.nodes@,
                0,
                payload_pairs(*d, arches, variants, preserve)[i].0,
            ) is None,
        r matches Err(ResolveError::MissingVariant) ==> lacks_variant(*d),
        r matches Err(ResolveError::MissingArch) ==> !lacks_variant(*d) && lacks_arch(*d),
{
    if d.kind == PayloadKind::CrtLibs && d.variant.is_none() {
        return Err(ResolveError::MissingVariant);
    }
    if (d.kind == PayloadKind::CrtLibs || d.kind == PayloadKind::SdkLibs) && d.target_arch.is_none() {
        return Err(ResolveError::MissingArch);
    }
    let variant = match d.variant {
        Some(v) => v,
        None => Variant::Desktop,
    };
    let arch = match d.target_arch {
        Some(a) => a,
        None => Arch::X86,
    };
    let spectre = (variants & Variant::Spectre.bit()) != 0;
    let pairs = planned(d.kind, variant, arch, arches, spectre, preserve);
    let ghost pp = payload_pairs(*d, arches, variants, preserve);
    assert(pairs_view(pairs@) == pp);
    let mut ms: Vec<Mapping> = Vec::new();
    let mut i: usize = 0;
    while i < pairs.len()
        invariant
            tree.wf(),
            !lacks_variant(*d),
            !lacks_arch(*d),
            pp == payload_pairs(*d, arches, variants, preserve),
            pairs_view(pairs@) == pp,
            i <= pairs@.len(),
            ms@.len() == i,
            forall|j: int|
                0 <= j < i ==> {
                    &&& path_view((#[trigger] ms@[j]).src@) == seq![d.filename@] + pp[j].0
                    &&& path_view(ms@[j].target@) == pp[j].1
                    &&& lookup(tree.nodes@, 0, pp[j].0) == Some(ms@[j].node)
                    &&& ms@[j].kind == d.kind
                    &&& ms@[j].variant == d.variant
                },
            forall|j: int| 0 <= j < i ==> lookup(tree.nodes@, 0, (#[trigger] pp[j]).0) is Some,
        decreases pairs.len() - i,
    {
        let pair = &pairs[i];
        assert(pp[i as int] == (path_view(pair.0@), path_view(pair.1@)));
        match tree.subtree(0, &pair.0) {
            None => {
                let path = copy_path(&pair.0);
                assert(pp[i as int].0 == path_view(path@));
                assert(lookup(tree.nodes@, 0, pp[i as int].0) is None);
                assert(payload_pairs(*d, arches, variants, preserve)[i as int].0 == path_view(path@));
                return Err(ResolveError::MissingSubtree { path });
            },
            Some(node) => {
                let m = Mapping {
                    src: prepend(&d.filename, &pair.0),
                    target: copy_path(&pair.1),
                    node,
                    kind: d.kind,
                    variant: d.variant,
                };
                ms.push(m);
            },
        }
        i = i + 1;
    }
    Ok(ms)
}

} // verus!
