//! One payload from descriptor to plans.
use vstd::prelude::*;
use crate::model::{PayloadKind, SplatConfig, Variant};
use crate::place::{
    Step, covers, keys_kept, lemma_plans_share_no_key, places_claimed, places_kept, plan_mapping,
    progress_total, steps_view, store_pruned, walk_scope,
};
use crate::registry::{has_key, path_view};
use crate::hash::dedup_key;
use crate::tree::{FileAt, subtree_names};
use crate::registry::DedupRegistry;
use crate::resolve::{PayloadDescriptor, ResolveError, lacks_arch, lacks_variant, payload_pairs, resolve_mappings};
use crate::tree::{FileTree, lookup};

verus! {

/// The steps of all plans, one plan after the other.
pub open spec fn flatten(ps: Seq<Vec<Step>>) -> Seq<Step>
    decreases ps.len(),
{
    if ps.len() == 0 {
        seq![]
    } else {
        flatten(ps.drop_last()) + ps.last()@
    }
}

/// Whether the payload maps: the fields its kind needs are there, and the staged
/// tree has every source directory of the policy table.
pub open spec fn payload_maps(
    d: PayloadDescriptor,
    tree: &FileTree,
    arches: u32,
    variants: u32,
    preserve: bool,
) -> bool {
    !lacks_variant(d) && !lacks_arch(d) && forall|i: int|
        0 <= i < payload_pairs(d, arches, variants, preserve).len() ==> lookup(
            tree.nodes@,
            0,
            (#[trigger] payload_pairs(d, arches, variants, preserve)[i]).0,
        ) is Some
}

/// Resolves a payload and plans each of its mappings, in order, on the shared
/// registry. Each plan counts every byte below its source directory and places
/// only files that pass the payload's filter. Where the payload does not map,
/// the error is that of `resolve_mappings` and the registry is left as it was.
pub fn plan_payload(
    d: &PayloadDescriptor,
    tree: &FileTree,
    arches: u32,
    variants: u32,
    cfg: &SplatConfig,
    registry: &mut DedupRegistry,
) -> (r: Result<Vec<Vec<Step>>, ResolveError>)
    requires
        tree.wf(),
        d.kind == PayloadKind::CrtLibs ==> d.variant != Some(Variant::Spectre),
    ensures
        final(registry).wf(),
        keys_kept(old(registry)@, final(registry)@),
        d.kind != PayloadKind::SdkHeaders ==> final(registry)@ == old(registry)@,
        r is Ok <==> payload_maps(*d, tree, arches, variants, cfg.preserve_ms_arch_notation),
        r is Err ==> final(registry)@ == old(registry)@,
        lacks_variant(*d) ==> r matches Err(ResolveError::MissingVariant),
        !lacks_variant(*d) && lacks_arch(*d) ==> r matches Err(ResolveError::MissingArch),
        r matches Ok(plans) ==> {
            let pp = payload_pairs(*d, arches, variants, cfg.preserve_ms_arch_notation);
            &&& plans@.len() == pp.len()
            &&& forall|i: int|
                0 <= i < pp.len() ==> {
                    &&& progress_total((#[trigger] plans@[i])@) == tree.bytes_below(
                        lookup(tree.nodes@, 0, pp[i].0).unwrap() as int,
                    )
                    &&& places_kept(plans@[i]@, d.kind, cfg.include_debug_libs, cfg.include_debug_symbols)
                    &&& forall|e: FileAt|
                        #[trigger] walk_scope(
                            tree.nodes@,
                            lookup(tree.nodes@, 0, pp[i].0).unwrap() as int,
                            store_pruned(d.kind, d.variant, variants),
                            seq![d.filename@] + pp[i].0,
                            pp[i].1,
                        ).contains(e) ==> covers(
                            steps_view(plans@[i]@),
                            e,
                            d.kind,
                            cfg.disable_symlinks,
                            cfg.include_debug_libs,
                            cfg.include_debug_symbols,
                        )
                    &&& d.kind == PayloadKind::SdkHeaders ==> forall|n: Seq<u8>|
                        #[trigger] subtree_names(
                            tree.nodes@,
                            lookup(tree.nodes@, 0, pp[i].0).unwrap() as int,
                        ).contains(n) ==> has_key(final(registry)@, dedup_key(n))
                }
            &&& d.kind == PayloadKind::SdkHeaders ==> places_claimed(
                flatten(plans@),
                old(registry)@,
                final(registry)@,
            )
        },
{
    proof {
        use_type_invariant(&*registry);
    }
    let ghost pp = payload_pairs(*d, arches, variants, cfg.preserve_ms_arch_notation);
    let ghost reg0 = registry@;
    let ms = match resolve_mappings(d, tree, arches, variants, cfg.preserve_ms_arch_notation) {
        Ok(ms) => ms,
        Err(e) => {
            return Err(e);
        },
    };
    let mut plans: Vec<Vec<Step>> = Vec::new();
    assert(flatten(plans@) =~= Seq::<Step>::empty());
    let mut i: usize = 0;
    while i < ms.len()
        invariant
            tree.wf(),
            registry.wf(),
            keys_kept(reg0, registry@),
            d.kind != PayloadKind::SdkHeaders ==> registry@ == reg0,
            i <= ms@.len(),
            ms@.len() == pp.len(),
            !lacks_variant(*d),
            !lacks_arch(*d),
            pp == payload_pairs(*d, arches, variants, cfg.preserve_ms_arch_notation),
            plans@.len() == i,
            forall|j: int|
                0 <= j < pp.len() ==> lookup(tree.nodes@, 0, pp[j].0) == Some((#[trigger] ms@[j]).node)
                    && ms@[j].kind == d.kind,
            forall|j: int|
                0 <= j < i ==> {
                    &&& progress_total((#[trigger] plans@[j])@) == tree.bytes_below(
                        lookup(tree.nodes@, 0, pp[j].0).unwrap() as int,
                    )
                    &&& places_kept(plans@[j]@, d.kind, cfg.include_debug_libs, cfg.include_debug_symbols)
                    &&& forall|e: FileAt|
                        #[trigger] walk_scope(
                            tree.nodes@,
                            lookup(tree.nodes@, 0, pp[j].0).unwrap() as int,
                            store_pruned(d.kind, d.variant, variants),
                            seq![d.filename@] + pp[j].0,
                            pp[j].1,
                        ).contains(e) ==> covers(
                            steps_view(plans@[j]@),
                            e,
                            d.kind,
                            cfg.disable_symlinks,
                            cfg.include_debug_libs,
                            cfg.include_debug_symbols,
                        )
                    &&& d.kind == PayloadKind::SdkHeaders ==> forall|n: Seq<u8>|
                        #[trigger] subtree_names(
                            tree.nodes@,
                            lookup(tree.nodes@, 0, pp[j].0).unwrap() as int,
                        ).contains(n) ==> has_key(registry@, dedup_key(n))
                },
            forall|j: int|
                0 <= j < pp.len() ==> path_view((#[trigger] ms@[j]).src@) == seq![d.filename@] + pp[j].0
                    && path_view(ms@[j].target@) == pp[j].1 && ms@[j].variant == d.variant,
            d.kind == PayloadKind::SdkHeaders ==> places_claimed(flatten(plans@), reg0, registry@),
        decreases ms.len() - i,
    {
        assert(lookup(tree.nodes@, 0, pp[i as int].0) == Some(ms@[i as int].node));
        assert(ms@[i as int].node < tree.nodes@.len()) by {
            crate::tree::lemma_lookup_in_range(tree, 0, pp[i as int].0);
        }
        let ghost r_before = registry@;
        let ghost before = plans@;
        let steps = plan_mapping(tree, &ms[i], variants, cfg, registry);
        proof {
            if d.kind == PayloadKind::SdkHeaders {
                lemma_plans_share_no_key(flatten(before), steps@, reg0, r_before, registry@);
            }
        }
        plans.push(steps);
        assert(plans@.drop_last() =~= before);
        assert(flatten(plans@) == flatten(before) + plans@[i as int]@);
        assert forall|j: int| 0 <= j < i implies #[trigger] plans@[j] == before[j] by {}
        i = i + 1;
    }
    assert forall|j: int| 0 <= j < pp.len() implies lookup(tree.nodes@, 0, (#[trigger] pp[j]).0) is Some by {
        assert(lookup(tree.nodes@, 0, pp[j].0) == Some(ms@[j].node));
    }
    Ok(plans)
}

} // verus!
