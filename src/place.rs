//! Walks one mapping's subtree and plans each directory, file and link it yields.
use vstd::prelude::*;
use crate::hash::{calc_lower_hash, dedup_key};
use crate::model::{PayloadKind, SplatConfig, Variant, has_variant};
use crate::names::{ascii_lowercase, has_upper, has_upper_spec, lower};
use crate::policy::{Repair, angry_alias, angry_alias_spec, keep_file, keep_file_spec, repair_for, repair_spec};
use crate::registry::{DedupRegistry, after_claim, has_key, lemma_claim_keeps_keys, path_view};
use crate::tree::{
    DirNode, FileAt, FileEntry, FileTree, dirs_entries, dirs_names, dirs_weight, node_bytes,
    node_unit, own_entries, subtree_entries, subtree_names, subtree_weight,
};

verus! {

/// One thing for the caller to do, in order. Source paths are relative to the
/// staging root, destination paths to the output directory.
pub enum Step {
    /// Make the directory, with its ancestors, where it is absent.
    CreateDir { dir: Vec<Vec<u8>> },
    /// Count bytes of the source as surveyed.
    Progress { bytes: u64 },
    /// Copy or move (as the options say) the file at `src` to `dst`.
    Place { src: Vec<Vec<u8>>, dst: Vec<Vec<u8>> },
    /// Make a symbolic link at `link` whose content is the name `target`.
    Link { target: Vec<u8>, link: Vec<Vec<u8>> },
}

/// A source subtree and where it goes.
pub struct Mapping {
    /// The subtree's path, relative to the staging root.
    pub src: Vec<Vec<u8>>,
    /// Its destination, relative to the output directory.
    pub target: Vec<Vec<u8>>,
    /// Its node in the staged tree.
    pub node: usize,
    pub kind: PayloadKind,
    pub variant: Option<Variant>,
}

/// The bytes that the steps count as surveyed.
pub open spec fn progress_total(s: Seq<Step>) -> nat
    decreases s.len(),
{
    if s.len() == 0 {
        0
    } else {
        progress_total(s.drop_last()) + match s.last() {
            Step::Progress { bytes } => bytes as nat,
            _ => 0nat,
        }
    }
}

pub open spec fn is_place(s: Step) -> bool {
    s is Place
}

pub open spec fn place_src(s: Step) -> Seq<Seq<u8>> {
    match s {
        Step::Place { src, dst } => path_view(src@),
        _ => seq![],
    }
}

pub open spec fn place_dst(s: Step) -> Seq<Seq<u8>> {
    match s {
        Step::Place { src, dst } => path_view(dst@),
        _ => seq![],
    }
}

/// The key of the file that a step places.
pub open spec fn place_key(s: Step) -> u64 {
    dedup_key(place_dst(s).last())
}

/// A mapping whose subdirectories are skipped: CRT libraries of the Store variant,
/// in a run that does not ask for Store.
pub open spec fn store_pruned(kind: PayloadKind, variant: Option<Variant>, variants: u32) -> bool {
    kind == PayloadKind::CrtLibs && variant == Some(Variant::Store) && !has_variant(
        variants,
        Variant::Store,
    )
}

/// Each placed file passed the filter of its kind.
pub open spec fn places_kept(s: Seq<Step>, kind: PayloadKind, dl: bool, ds: bool) -> bool {
    forall|i: int|
        0 <= i < s.len() && is_place(#[trigger] s[i]) ==> place_src(s[i]).len() >= 1
            && keep_file_spec(kind, place_src(s[i]).last(), dl, ds)
}

/// Each placed file lies directly in the mapping's own directory.
pub open spec fn places_top(s: Seq<Step>, depth: nat) -> bool {
    forall|i: int| 0 <= i < s.len() && is_place(#[trigger] s[i]) ==> place_src(s[i]).len() == depth + 1
}

/// Each placed header's key was new to `before` and is in `after`, and no two
/// placed headers share a key.
pub open spec fn places_claimed(
    s: Seq<Step>,
    before: Seq<(u64, Seq<Seq<u8>>)>,
    after: Seq<(u64, Seq<Seq<u8>>)>,
) -> bool {
    &&& forall|i: int|
        0 <= i < s.len() && is_place(#[trigger] s[i]) ==> place_dst(s[i]).len() >= 1 && !has_key(
            before,
            place_key(s[i]),
        ) && has_key(after, place_key(s[i]))
    &&& forall|i: int, j: int|
        0 <= i < j < s.len() && is_place(#[trigger] s[i]) && is_place(#[trigger] s[j])
            ==> place_key(s[i]) != place_key(s[j])
}

/// Each placed file keeps, under the mapping's destination, the path it had below
/// the mapping's source; only its own name may be lowercased.
pub open spec fn places_mirror(s: Seq<Step>, src: Seq<Seq<u8>>, target: Seq<Seq<u8>>) -> bool {
    forall|i: int|
        0 <= i < s.len() && is_place(#[trigger] s[i]) ==> {
            let ps = place_src(s[i]);
            let pd = place_dst(s[i]);
            &&& ps.len() > src.len()
            &&& ps.subrange(0, src.len() as int) == src
            &&& pd == target + ps.subrange(src.len() as int, ps.len() - 1).push(pd.last())
            &&& (pd.last() == ps.last() || pd.last() == lower(ps.last()))
        }
}

/// A path with one more component.
pub fn join(p: &Vec<Vec<u8>>, seg: &Vec<u8>) -> (r: Vec<Vec<u8>>)
    ensures
        path_view(r@) == path_view(p@).push(seg@),
        r@.len() == p@.len() + 1,
{
    let mut r: Vec<Vec<u8>> = Vec::new();
    let mut i: usize = 0;
    while i < p.len()
        invariant
            i <= p.len(),
            path_view(r@) == path_view(p@).subrange(0, i as int),
        decreases p.len() - i,
    {
        let c = copy_bytes(&p[i]);
        proof {
            lemma_path_push(r@, c);
        }
        r.push(c);
        i = i + 1;
        assert(path_view(r@) =~= path_view(p@).subrange(0, i as int));
    }
    let c = copy_bytes(seg);
    proof {
        lemma_path_push(r@, c);
    }
    r.push(c);
    assert(path_view(r@) =~= path_view(p@).push(seg@));
    assert(r@.len() == path_view(r@).len());
    r
}

/// A copy of a name.
pub fn copy_bytes(s: &Vec<u8>) -> (r: Vec<u8>)
    ensures
        r@ == s@,
{
    let mut r: Vec<u8> = Vec::new();
    let mut i: usize = 0;
    while i < s.len()
        invariant
            i <= s.len(),
            r@ == s@.subrange(0, i as int),
        decreases s.len() - i,
    {
        r.push(s[i]);
        i = i + 1;
        assert(r@ =~= s@.subrange(0, i as int));
    }
    assert(r@ =~= s@);
    r
}

/// A copy of a path.
pub fn copy_path(p: &Vec<Vec<u8>>) -> (r: Vec<Vec<u8>>)
    ensures
        path_view(r@) == path_view(p@),
        r@.len() == p@.len(),
{
    let mut r: Vec<Vec<u8>> = Vec::new();
    let mut i: usize = 0;
    while i < p.len()
        invariant
            i <= p.len(),
            path_view(r@) == path_view(p@).subrange(0, i as int),
        decreases p.len() - i,
    {
        let c = copy_bytes(&p[i]);
        proof {
            lemma_path_push(r@, c);
        }
        r.push(c);
        i = i + 1;
        assert(path_view(r@) =~= path_view(p@).subrange(0, i as int));
    }
    assert(path_view(r@) =~= path_view(p@));
    assert(r@.len() == path_view(r@).len());
    r
}

pub proof fn lemma_path_push(p: Seq<Vec<u8>>, c: Vec<u8>)
    ensures
        path_view(p.push(c)) == path_view(p).push(c@),
{
    assert(path_view(p.push(c)) =~= path_view(p).push(c@));
}

proof fn lemma_progress_push(s: Seq<Step>, x: Step)
    ensures
        place_count(s.push(x)) == place_count(s) + if x is Place {
            1nat
        } else {
            0nat
        },
        progress_total(s.push(x)) == progress_total(s) + match x {
            Step::Progress { bytes } => bytes as nat,
            _ => 0nat,
        },
{
    assert(s.push(x).drop_last() =~= s);
}

/// What a step says, as sequences.
pub enum StepView {
    CreateDir(Seq<Seq<u8>>),
    Progress(u64),
    Place(Seq<Seq<u8>>, Seq<Seq<u8>>),
    Link(Seq<u8>, Seq<Seq<u8>>),
}

pub open spec fn step_view(s: Step) -> StepView {
    match s {
        Step::CreateDir { dir } => StepView::CreateDir(path_view(dir@)),
        Step::Progress { bytes } => StepView::Progress(bytes),
        Step::Place { src, dst } => StepView::Place(path_view(src@), path_view(dst@)),
        Step::Link { target, link } => StepView::Link(target@, path_view(link@)),
    }
}

pub open spec fn steps_view(s: Seq<Step>) -> Seq<StepView> {
    s.map_values(|x: Step| step_view(x))
}

/// Whether a counted file goes on to be placed: it passes its kind's filter and,
/// for headers, its key is new to the registry.
pub open spec fn proceeds(
    kind: PayloadKind,
    dl: bool,
    ds: bool,
    name: Seq<u8>,
    reg: Seq<(u64, Seq<Seq<u8>>)>,
) -> bool {
    keep_file_spec(kind, name, dl, ds) && (kind != PayloadKind::SdkHeaders || !has_key(
        reg,
        dedup_key(name),
    ))
}

/// The steps for one file of a directory: its bytes are counted; where it proceeds
/// it is placed, under its lowercase name with a link at its own name (SDK
/// libraries with an uppercase letter), or under its own name with a link at its
/// uppercase alias (the few CRT import libraries that have one), or else plainly.
/// With links disabled no name is changed and no link is made.
pub open spec fn file_steps(
    kind: PayloadKind,
    no_links: bool,
    name: Seq<u8>,
    size: u64,
    src_dir: Seq<Seq<u8>>,
    dst_dir: Seq<Seq<u8>>,
    proceed: bool,
) -> Seq<StepView> {
    let counted = seq![StepView::Progress(size)];
    if !proceed {
        counted
    } else if repair_spec(kind) == Repair::LowercaseCanonical && !no_links && has_upper_spec(name) {
        counted + seq![
            StepView::Place(src_dir.push(name), dst_dir.push(lower(name))),
            StepView::Link(lower(name), dst_dir.push(name)),
        ]
    } else if repair_spec(kind) == Repair::UppercaseAlias && !no_links && angry_alias_spec(name) is Some {
        counted + seq![
            StepView::Place(src_dir.push(name), dst_dir.push(name)),
            StepView::Link(name, dst_dir.push(angry_alias_spec(name).unwrap())),
        ]
    } else {
        counted + seq![StepView::Place(src_dir.push(name), dst_dir.push(name))]
    }
}

/// The steps hold, one after the other, the steps that `file_steps` gives the
/// file: for a header either of its two outcomes (its key may have been taken), for
/// other kinds the one that its filter decides.
pub open spec fn covers(sv: Seq<StepView>, e: FileAt, kind: PayloadKind, no_links: bool, dl: bool, ds: bool) -> bool {
    exists|i: int, p: bool|
        0 <= i && i + file_steps(kind, no_links, e.2, e.3, e.0, e.1, p).len() <= sv.len() && #[trigger] sv.subrange(
            i,
            i + file_steps(kind, no_links, e.2, e.3, e.0, e.1, p).len(),
        ) == file_steps(kind, no_links, e.2, e.3, e.0, e.1, p) && (kind
            != PayloadKind::SdkHeaders ==> p == keep_file_spec(kind, e.2, dl, ds))
}

/// The files that a walk from node `i` plans: those of its own directory where
/// the mapping is pruned, else all below it.
pub open spec fn walk_scope(ns: Seq<DirNode>, i: int, pruned: bool, sd: Seq<Seq<u8>>, dd: Seq<Seq<u8>>) -> Set<FileAt> {
    if pruned {
        own_entries(ns[i].files@, sd, dd)
    } else {
        subtree_entries(ns, i, sd, dd)
    }
}

/// Every directory that the steps create is `dir`.
pub open spec fn dirs_only(sv: Seq<StepView>, dir: Seq<Seq<u8>>) -> bool {
    forall|i: int| 0 <= i < sv.len() ==> match #[trigger] sv[i] {
        StepView::CreateDir(d) => d == dir,
        _ => true,
    }
}

proof fn lemma_covers_grow(sv: Seq<StepView>, more: Seq<StepView>, e: FileAt, kind: PayloadKind, nl: bool, dl: bool, ds: bool)
    requires
        covers(sv, e, kind, nl, dl, ds),
    ensures
        covers(sv + more, e, kind, nl, dl, ds),
{
    let (i, p) = choose|i: int, p: bool|
        0 <= i && i + file_steps(kind, nl, e.2, e.3, e.0, e.1, p).len() <= sv.len() && #[trigger] sv.subrange(
            i,
            i + file_steps(kind, nl, e.2, e.3, e.0, e.1, p).len(),
        ) == file_steps(kind, nl, e.2, e.3, e.0, e.1, p) && (kind
            != PayloadKind::SdkHeaders ==> p == keep_file_spec(kind, e.2, dl, ds));
    let fsx = file_steps(kind, nl, e.2, e.3, e.0, e.1, p);
    assert((sv + more).subrange(i, i + fsx.len()) =~= sv.subrange(i, i + fsx.len()));
}

proof fn lemma_after_file(
    sv0: Seq<StepView>,
    sv: Seq<StepView>,
    e: FileAt,
    p: bool,
    kind: PayloadKind,
    nl: bool,
    dl: bool,
    ds: bool,
    dir: Seq<Seq<u8>>,
    pruned: bool,
)
    requires
        sv == sv0 + file_steps(kind, nl, e.2, e.3, e.0, e.1, p),
        kind != PayloadKind::SdkHeaders ==> p == keep_file_spec(kind, e.2, dl, ds),
        pruned ==> dirs_only(sv0, dir),
    ensures
        covers(sv, e, kind, nl, dl, ds),
        forall|e2: FileAt| covers(sv0, e2, kind, nl, dl, ds) ==> covers(sv, e2, kind, nl, dl, ds),
        pruned ==> dirs_only(sv, dir),
{
    let fsx = file_steps(kind, nl, e.2, e.3, e.0, e.1, p);
    assert forall|e2: FileAt| covers(sv0, e2, kind, nl, dl, ds) implies covers(sv, e2, kind, nl, dl, ds) by {
        lemma_covers_grow(sv0, fsx, e2, kind, nl, dl, ds);
    }
    let i = sv0.len() as int;
    assert(sv.subrange(i, i + fsx.len()) =~= fsx);
    assert(0 <= i && i + fsx.len() <= sv.len());
    if pruned {
        assert forall|k: int| 0 <= k < sv.len() implies match #[trigger] sv[k] {
            StepView::CreateDir(d) => d == dir,
            _ => true,
        } by {
            if k < sv0.len() {
                assert(sv[k] == sv0[k]);
            } else {
                assert(sv[k] == fsx[k - sv0.len()]);
            }
        }
    }
}

proof fn lemma_view_push(s: Seq<Step>, x: Step)
    ensures
        steps_view(s.push(x)) == steps_view(s) + seq![step_view(x)],
{
    assert(steps_view(s.push(x)) =~= steps_view(s) + seq![step_view(x)]);
}

/// Every key of `a` is a key of `b`.
pub open spec fn keys_kept(a: Seq<(u64, Seq<Seq<u8>>)>, b: Seq<(u64, Seq<Seq<u8>>)>) -> bool {
    forall|k: u64| has_key(a, k) ==> has_key(b, k)
}

/// Plans one file of a directory: counts its bytes, then filters it, claims it
/// (headers), places it and repairs its casing as its kind asks.
fn place_file(
    kind: PayloadKind,
    cfg: &SplatConfig,
    name: &Vec<u8>,
    size: u64,
    src_dir: &Vec<Vec<u8>>,
    dst_dir: &Vec<Vec<u8>>,
    registry: &mut DedupRegistry,
    steps: &mut Vec<Step>,
    Ghost(reg0): Ghost<Seq<(u64, Seq<Seq<u8>>)>>,
)
    requires
        old(registry).wf(),
        keys_kept(reg0, old(registry)@),
        places_kept(old(steps)@, kind, cfg.include_debug_libs, cfg.include_debug_symbols),
        kind == PayloadKind::SdkHeaders ==> places_claimed(old(steps)@, reg0, old(registry)@),
    ensures
        final(registry).wf(),
        keys_kept(reg0, final(registry)@),
        kind != PayloadKind::SdkHeaders ==> final(registry)@ == old(registry)@,
        progress_total(final(steps)@) == progress_total(old(steps)@) + size,
        kind != PayloadKind::SdkHeaders ==> place_count(final(steps)@) == place_count(old(steps)@)
            + if keep_file_spec(kind, name@, cfg.include_debug_libs, cfg.include_debug_symbols) {
            1nat
        } else {
            0nat
        },
        kind == PayloadKind::SdkHeaders ==> place_count(final(steps)@) + old(registry)@.len()
            == place_count(old(steps)@) + final(registry)@.len(),
        places_kept(final(steps)@, kind, cfg.include_debug_libs, cfg.include_debug_symbols),
        kind == PayloadKind::SdkHeaders ==> places_claimed(final(steps)@, reg0, final(registry)@),
        steps_view(final(steps)@) == steps_view(old(steps)@) + file_steps(
            kind,
            cfg.disable_symlinks,
            name@,
            size,
            path_view(src_dir@),
            path_view(dst_dir@),
            proceeds(kind, cfg.include_debug_libs, cfg.include_debug_symbols, name@, old(registry)@),
        ),
        kind == PayloadKind::SdkHeaders && keep_file_spec(kind, name@, cfg.include_debug_libs, cfg.include_debug_symbols)
            ==> final(registry)@ == after_claim(old(registry)@, dedup_key(name@), path_view(dst_dir@).push(name@)),
        !keep_file_spec(kind, name@, cfg.include_debug_libs, cfg.include_debug_symbols) ==> final(registry)@ == old(registry)@,
        kind == PayloadKind::SdkHeaders ==> has_key(final(registry)@, dedup_key(name@)),
        keys_kept(old(registry)@, final(registry)@),
        forall|k: u64|
            #[trigger] has_key(final(registry)@, k) && !has_key(old(registry)@, k) ==> exists|i: int|
                old(steps)@.len() <= i < final(steps)@.len() && is_place(final(steps)@[i]) && place_key(
                    final(steps)@[i],
                ) == k,
        old(steps)@.len() <= final(steps)@.len(),
        forall|i: int| 0 <= i < old(steps)@.len() ==> final(steps)@[i] == old(steps)@[i],
        forall|i: int|
            old(steps)@.len() <= i < final(steps)@.len() && is_place(#[trigger] final(steps)@[i])
                ==> place_src(final(steps)@[i]).len() == src_dir@.len() + 1,
        forall|i: int|
            old(steps)@.len() <= i < final(steps)@.len() && is_place(#[trigger] final(steps)@[i])
                ==> place_src(final(steps)@[i]) == path_view(src_dir@).push(name@) && (place_dst(
                final(steps)@[i],
            ) == path_view(dst_dir@).push(name@) || place_dst(final(steps)@[i]) == path_view(
                dst_dir@,
            ).push(lower(name@))),
{
    let ghost s0 = steps@;
    let ghost r0 = registry@;
    let ghost want = file_steps(
        kind,
        cfg.disable_symlinks,
        name@,
        size,
        path_view(src_dir@),
        path_view(dst_dir@),
        proceeds(kind, cfg.include_debug_libs, cfg.include_debug_symbols, name@, r0),
    );
    proof {
        lemma_progress_push(steps@, Step::Progress { bytes: size });
    }
    steps.push(Step::Progress { bytes: size });
    if !keep_file(kind, name, cfg.include_debug_libs, cfg.include_debug_symbols) {
        assert(steps_view(steps@) =~= steps_view(s0) + want);
        return ;
    }
    if kind == PayloadKind::SdkHeaders {
        let key = calc_lower_hash(name);
        let dst = join(dst_dir, name);
        proof {
            lemma_claim_keeps_keys(registry@, key, path_view(dst@));
        }
        if !registry.claim(key, dst) {
            assert(steps_view(steps@) =~= steps_view(s0) + want);
            return ;
        }
        assert(!has_key(reg0, key));
    }
    let ghost s1 = steps@;
    let ghost r1 = registry@;
    let src = join(src_dir, name);
    let repair = repair_for(kind);
    let lowercase = repair == Repair::LowercaseCanonical && !cfg.disable_symlinks && has_upper(
        name,
    );
    if lowercase {
        let lname = ascii_lowercase(name);
        let dst = join(dst_dir, &lname);
        let link = join(dst_dir, name);
        let placed = Step::Place { src, dst };
        proof {
            lemma_progress_push(steps@, placed);
        }
        steps.push(placed);
        let linked = Step::Link { target: lname, link };
        proof {
            lemma_progress_push(steps@, linked);
        }
        steps.push(linked);
    } else {
        let dst = join(dst_dir, name);
        let placed = Step::Place { src, dst };
        proof {
            lemma_progress_push(steps@, placed);
        }
        steps.push(placed);
        if repair == Repair::UppercaseAlias && !cfg.disable_symlinks {
            match angry_alias(name) {
                Some(alias) => {
                    let link = join(dst_dir, &alias);
                    let linked = Step::Link { target: copy_bytes(name), link };
                    proof {
                        lemma_progress_push(steps@, linked);
                    }
                    steps.push(linked);
                },
                None => {},
            }
        }
    }
    assert(is_place(steps@[s1.len() as int]));
    assert forall|i: int| 0 <= i < s1.len() implies steps@[i] == s1[i] by {}
    assert(steps_view(steps@) =~= steps_view(s0) + want);
    assert(place_src(steps@[s1.len() as int]).last() == name@);
    if kind == PayloadKind::SdkHeaders {
        let ghost key = dedup_key(name@);
        assert(place_key(steps@[s1.len() as int]) == key);
        assert forall|k: u64| #[trigger] has_key(registry@, k) && !has_key(r0, k) implies k == key by {
            let i = choose|i: int| 0 <= i < registry@.len() && (#[trigger] registry@[i]).0 == k;
            if i < r0.len() {
                assert(registry@[i] == r0[i]);
            }
        }
        assert(!has_key(r0, key));
        assert forall|i: int|
            0 <= i < steps@.len() && is_place(#[trigger] steps@[i]) implies place_dst(
            steps@[i],
        ).len() >= 1 && !has_key(reg0, place_key(steps@[i])) && has_key(
            registry@,
            place_key(steps@[i]),
        ) by {
            if i < s1.len() {
                assert(steps@[i] == s0[i]);
            }
        }
        assert forall|i: int, j: int|
            0 <= i < j < steps@.len() && is_place(#[trigger] steps@[i]) && is_place(
                #[trigger] steps@[j],
            ) implies place_key(steps@[i]) != place_key(steps@[j]) by {
            if j < s1.len() {
                assert(steps@[i] == s0[i]);
                assert(steps@[j] == s0[j]);
            } else {
                assert(j == s1.len());
                assert(steps@[i] == s0[i]);
                assert(has_key(r0, place_key(s0[i])));
            }
        }
    }
}

/// A directory still to visit: where it is, where it goes, and whether its files
/// are only counted.
struct Frame {
    src: Vec<Vec<u8>>,
    dst: Vec<Vec<u8>>,
    node: usize,
    survey: bool,
}

/// A frame's destination mirrors its source below the mapping.
spec fn frame_mirrors(f: Frame, src: Seq<Seq<u8>>, target: Seq<Seq<u8>>) -> bool {
    let fs = path_view(f.src@);
    &&& fs.len() >= src.len()
    &&& fs.subrange(0, src.len() as int) == src
    &&& path_view(f.dst@) == target + fs.subrange(src.len() as int, fs.len() as int)
}

proof fn lemma_mirror_step(
    before: Seq<Step>,
    after: Seq<Step>,
    f: Frame,
    src: Seq<Seq<u8>>,
    target: Seq<Seq<u8>>,
    name: Seq<u8>,
)
    requires
        places_mirror(before, src, target),
        frame_mirrors(f, src, target),
        before.len() <= after.len(),
        forall|i: int| 0 <= i < before.len() ==> after[i] == before[i],
        forall|i: int|
            before.len() <= i < after.len() && is_place(#[trigger] after[i]) ==> place_src(after[i])
                == path_view(f.src@).push(name) && (place_dst(after[i]) == path_view(f.dst@).push(name)
                || place_dst(after[i]) == path_view(f.dst@).push(lower(name))),
    ensures
        places_mirror(after, src, target),
{
    let fs = path_view(f.src@);
    assert forall|i: int| 0 <= i < after.len() && is_place(#[trigger] after[i]) implies {
        let ps = place_src(after[i]);
        let pd = place_dst(after[i]);
        &&& ps.len() > src.len()
        &&& ps.subrange(0, src.len() as int) == src
        &&& pd == target + ps.subrange(src.len() as int, ps.len() - 1).push(pd.last())
        &&& (pd.last() == ps.last() || pd.last() == lower(ps.last()))
    } by {
        if i < before.len() {
            assert(after[i] == before[i]);
        } else {
            let ps = place_src(after[i]);
            let pd = place_dst(after[i]);
            assert(ps.subrange(0, src.len() as int) =~= fs.subrange(0, src.len() as int));
            assert(ps.subrange(src.len() as int, ps.len() - 1) =~= fs.subrange(src.len() as int, fs.len() as int));
            assert(pd =~= target + ps.subrange(src.len() as int, ps.len() - 1).push(pd.last()));
        }
    }
}

/// The files that a frame still owes: none for a frame that only counts; for a
/// pruned mapping its own files; else all the files of its subtree.
spec fn frame_part(ns: Seq<DirNode>, f: Frame, pruned: bool) -> Set<FileAt> {
    if f.survey {
        Set::empty()
    } else if pruned {
        if 0 <= f.node < ns.len() {
            own_entries(ns[f.node as int].files@, path_view(f.src@), path_view(f.dst@))
        } else {
            Set::empty()
        }
    } else {
        subtree_entries(ns, f.node as int, path_view(f.src@), path_view(f.dst@))
    }
}

spec fn stack_entries(ns: Seq<DirNode>, st: Seq<Frame>, pruned: bool) -> Set<FileAt>
    decreases st.len(),
{
    if st.len() == 0 {
        Set::empty()
    } else {
        stack_entries(ns, st.drop_last(), pruned) + frame_part(ns, st.last(), pruned)
    }
}

spec fn stack_names(ns: Seq<DirNode>, st: Seq<Frame>) -> Set<Seq<u8>>
    decreases st.len(),
{
    if st.len() == 0 {
        Set::empty()
    } else {
        stack_names(ns, st.drop_last()) + subtree_names(ns, st.last().node as int)
    }
}

spec fn stack_weight(ns: Seq<DirNode>, st: Seq<Frame>, w: spec_fn(DirNode) -> nat) -> nat
    decreases st.len(),
{
    if st.len() == 0 {
        0
    } else {
        stack_weight(ns, st.drop_last(), w) + subtree_weight(ns, st.last().node as int, w)
    }
}

/// The files that frames still to visit will place: none for a frame that only
/// counts; for a pruned mapping its own files; else all the files of its subtree.
spec fn stack_kept(ns: Seq<DirNode>, st: Seq<Frame>, w: spec_fn(DirNode) -> nat, pruned: bool) -> nat
    decreases st.len(),
{
    if st.len() == 0 {
        0
    } else {
        let f = st.last();
        stack_kept(ns, st.drop_last(), w, pruned) + if f.survey {
            0
        } else if pruned {
            if 0 <= f.node < ns.len() { w(ns[f.node as int]) } else { 0 }
        } else {
            subtree_weight(ns, f.node as int, w)
        }
    }
}

proof fn lemma_stack_push(ns: Seq<DirNode>, st: Seq<Frame>, f: Frame, w: spec_fn(DirNode) -> nat, pruned: bool)
    ensures
        stack_weight(ns, st.push(f), w) == stack_weight(ns, st, w) + subtree_weight(ns, f.node as int, w),
        stack_names(ns, st.push(f)) == stack_names(ns, st) + subtree_names(ns, f.node as int),
        stack_entries(ns, st.push(f), pruned) == stack_entries(ns, st, pruned) + frame_part(ns, f, pruned),
        stack_kept(ns, st.push(f), w, pruned) == stack_kept(ns, st, w, pruned) + if f.survey {
            0
        } else if pruned {
            if 0 <= f.node < ns.len() { w(ns[f.node as int]) } else { 0 }
        } else {
            subtree_weight(ns, f.node as int, w)
        },
{
    assert(st.push(f).drop_last() =~= st);
    assert(stack_names(ns, st.push(f)) == stack_names(ns, st) + subtree_names(ns, f.node as int));
}

/// The number of files placed by the steps.
pub open spec fn place_count(s: Seq<Step>) -> nat
    decreases s.len(),
{
    if s.len() == 0 {
        0
    } else {
        place_count(s.drop_last()) + if s.last() is Place {
            1nat
        } else {
            0nat
        }
    }
}

/// The number of files of a list that pass their kind's filter.
pub open spec fn kept_count(fs: Seq<FileEntry>, kind: PayloadKind, dl: bool, ds: bool) -> nat
    decreases fs.len(),
{
    if fs.len() == 0 {
        0
    } else {
        kept_count(fs.drop_last(), kind, dl, ds) + if keep_file_spec(kind, fs.last().name@, dl, ds) {
            1nat
        } else {
            0nat
        }
    }
}

/// A node's own weight: its files that pass the filter.
pub open spec fn node_kept(kind: PayloadKind, dl: bool, ds: bool) -> spec_fn(DirNode) -> nat {
    |n: DirNode| kept_count(n.files@, kind, dl, ds)
}

/// Two plans made one after the other on one registry never place two files with
/// one key: together they write at most one file per case-insensitive name.
pub proof fn lemma_plans_share_no_key(
    first: Seq<Step>,
    second: Seq<Step>,
    r0: Seq<(u64, Seq<Seq<u8>>)>,
    r1: Seq<(u64, Seq<Seq<u8>>)>,
    r2: Seq<(u64, Seq<Seq<u8>>)>,
)
    requires
        places_claimed(first, r0, r1),
        places_claimed(second, r1, r2),
        keys_kept(r0, r1),
        keys_kept(r1, r2),
    ensures
        forall|i: int, j: int|
            0 <= i < first.len() && 0 <= j < second.len() && is_place(#[trigger] first[i]) && is_place(
                #[trigger] second[j],
            ) ==> place_key(first[i]) != place_key(second[j]),
        places_claimed(first + second, r0, r2),
{
    let all = first + second;
    {
        assert forall|i: int|
            0 <= i < all.len() && is_place(#[trigger] all[i]) implies place_dst(all[i]).len() >= 1
            && !has_key(r0, place_key(all[i])) && has_key(r2, place_key(all[i])) by {
            if i >= first.len() {
                assert(all[i] == second[i - first.len()]);
                assert(!has_key(r1, place_key(all[i])));
            } else {
                assert(all[i] == first[i]);
            }
        }
        assert forall|i: int, j: int|
            0 <= i < j < all.len() && is_place(#[trigger] all[i]) && is_place(#[trigger] all[j])
                implies place_key(all[i]) != place_key(all[j]) by {
            if j < first.len() {
                assert(all[i] == first[i] && all[j] == first[j]);
            } else if i < first.len() {
                assert(all[i] == first[i] && all[j] == second[j - first.len()]);
                assert(has_key(r1, place_key(first[i])));
                assert(!has_key(r1, place_key(second[j - first.len()])));
            } else {
                assert(all[i] == second[i - first.len()] && all[j] == second[j - first.len()]);
            }
        }
    }
    assert forall|i: int, j: int|
        0 <= i < first.len() && 0 <= j < second.len() && is_place(#[trigger] first[i]) && is_place(
            #[trigger] second[j],
        ) implies place_key(first[i]) != place_key(second[j]) by {
        assert(has_key(r1, place_key(first[i])));
        assert(!has_key(r1, place_key(second[j])));
    }
}

/// Plans the placement of one mapping: a depth-first walk of its subtree that
/// creates each destination directory and plans each of its files.
///
/// The bytes counted as surveyed are those of every file below the mapping, placed
/// or not. Only files that pass their kind's filter are placed, each at the path it
/// had below the source, under the destination; besides headers, every such file
/// is placed once. Where the mapping is pruned (Store CRT libraries, Store not
/// asked for), only the files of its own directory are placed. A header is placed
/// only by the claim that first records its key, so no two placed headers share a
/// key, also across calls that share the registry; and every header's key is in
/// the registry afterwards.
#[verifier::rlimit(60)]
pub fn plan_mapping(
    tree: &FileTree,
    m: &Mapping,
    variants: u32,
    cfg: &SplatConfig,
    registry: &mut DedupRegistry,
) -> (r: Vec<Step>)
    requires
        tree.wf(),
        m.node < tree.nodes@.len(),
    ensures
        final(registry).wf(),
        keys_kept(old(registry)@, final(registry)@),
        m.kind != PayloadKind::SdkHeaders ==> final(registry)@ == old(registry)@,
        progress_total(r@) == tree.bytes_below(m.node as int),
        m.kind != PayloadKind::SdkHeaders ==> place_count(r@) == if store_pruned(m.kind, m.variant, variants) {
            kept_count(tree.nodes@[m.node as int].files@, m.kind, cfg.include_debug_libs, cfg.include_debug_symbols)
        } else {
            subtree_weight(tree.nodes@, m.node as int, node_kept(m.kind, cfg.include_debug_libs, cfg.include_debug_symbols))
        },
        m.kind == PayloadKind::SdkHeaders ==> place_count(r@) == final(registry)@.len() - old(registry)@.len(),
        places_kept(r@, m.kind, cfg.include_debug_libs, cfg.include_debug_symbols),
        store_pruned(m.kind, m.variant, variants) ==> places_top(r@, m.src@.len()),
        m.kind == PayloadKind::SdkHeaders ==> places_claimed(r@, old(registry)@, final(registry)@),
        places_mirror(r@, path_view(m.src@), path_view(m.target@)),
        m.kind == PayloadKind::SdkHeaders ==> forall|n: Seq<u8>|
            #[trigger] subtree_names(tree.nodes@, m.node as int).contains(n) ==> has_key(
                final(registry)@,
                dedup_key(n),
            ),
        forall|e: FileAt|
            #[trigger] walk_scope(
                tree.nodes@,
                m.node as int,
                store_pruned(m.kind, m.variant, variants),
                path_view(m.src@),
                path_view(m.target@),
            ).contains(e) ==> covers(
                steps_view(r@),
                e,
                m.kind,
                cfg.disable_symlinks,
                cfg.include_debug_libs,
                cfg.include_debug_symbols,
            ),
        store_pruned(m.kind, m.variant, variants) ==> dirs_only(steps_view(r@), path_view(m.target@)),
        m.kind == PayloadKind::SdkHeaders ==> forall|n: Seq<u8>|
            #[trigger] subtree_names(tree.nodes@, m.node as int).contains(n) && !has_key(
                old(registry)@,
                dedup_key(n),
            ) ==> exists|i: int|
                0 <= i < r@.len() && is_place(r@[i]) && place_key(r@[i]) == dedup_key(n) && forall|
                    j: int,
                | 0 <= j < r@.len() && is_place(#[trigger] r@[j]) && place_key(r@[j]) == dedup_key(n)
                    ==> j == i,
{
    proof {
        use_type_invariant(&*registry);
    }
    let ghost ns = tree.nodes@;
    let ghost reg0 = registry@;
    let ghost root = m.node as int;
    let kind = m.kind;
    let pruned = kind == PayloadKind::CrtLibs && m.variant == Some(Variant::Store) && (variants
        & Variant::Store.bit()) == 0;
    let ghost base = m.src@.len();
    let ghost msrc = path_view(m.src@);
    let ghost mtgt = path_view(m.target@);
    let ghost kw = node_kept(kind, cfg.include_debug_libs, cfg.include_debug_symbols);
    let ghost goal = if pruned {
        kept_count(ns[root].files@, kind, cfg.include_debug_libs, cfg.include_debug_symbols)
    } else {
        subtree_weight(ns, root, kw)
    };
    let ghost nl = cfg.disable_symlinks;
    let ghost dl = cfg.include_debug_libs;
    let ghost ds = cfg.include_debug_symbols;
    let ghost goal_e = walk_scope(ns, root, pruned, msrc, mtgt);
    let mut stack: Vec<Frame> = Vec::new();
    let top = Frame { src: copy_path(&m.src), dst: copy_path(&m.target), node: m.node, survey: false };
    assert(frame_mirrors(top, msrc, mtgt)) by {
        assert(path_view(top.src@).subrange(0, msrc.len() as int) =~= msrc);
        assert(mtgt + path_view(top.src@).subrange(msrc.len() as int, msrc.len() as int) =~= mtgt);
    }
    proof {
        lemma_stack_push(ns, stack@, top, node_unit(), pruned);
        lemma_stack_push(ns, stack@, top, node_bytes(), pruned);
        lemma_stack_push(ns, stack@, top, kw, pruned);
    }
    stack.push(top);
    assert(stack_entries(ns, stack@, pruned) =~= goal_e);
    let mut steps: Vec<Step> = Vec::new();
    assert(dirs_only(steps_view(steps@), mtgt));
    proof {
        assert(forall|k: u64| has_key(reg0, k) ==> has_key(registry@, k));
    }
    while stack.len() > 0
        invariant
            tree.wf(),
            ns == tree.nodes@,
            registry.wf(),
            keys_kept(reg0, registry@),
            kind == m.kind,
            pruned == store_pruned(m.kind, m.variant, variants),
            0 <= root < ns.len(),
            forall|i: int| 0 <= i < stack@.len() ==> (#[trigger] stack@[i]).node < ns.len(),
            progress_total(steps@) + stack_weight(ns, stack@, node_bytes()) == subtree_weight(
                ns,
                root,
                node_bytes(),
            ),
            kw == node_kept(kind, cfg.include_debug_libs, cfg.include_debug_symbols),
            goal == if pruned {
                kept_count(ns[root].files@, kind, cfg.include_debug_libs, cfg.include_debug_symbols)
            } else {
                subtree_weight(ns, root, kw)
            },
            kind != PayloadKind::SdkHeaders ==> place_count(steps@) + stack_kept(ns, stack@, kw, pruned) == goal,
            kind == PayloadKind::SdkHeaders ==> place_count(steps@) + reg0.len() == registry@.len(),
            places_kept(steps@, kind, cfg.include_debug_libs, cfg.include_debug_symbols),
            pruned ==> places_top(steps@, base),
            pruned ==> forall|i: int|
                0 <= i < stack@.len() ==> (#[trigger] stack@[i]).survey || stack@[i].src@.len()
                    == base,
            kind == PayloadKind::SdkHeaders ==> places_claimed(steps@, reg0, registry@),
            kind != PayloadKind::SdkHeaders ==> registry@ == reg0,
            msrc == path_view(m.src@),
            mtgt == path_view(m.target@),
            base == msrc.len(),
            places_mirror(steps@, msrc, mtgt),
            forall|i: int| 0 <= i < stack@.len() ==> frame_mirrors(#[trigger] stack@[i], msrc, mtgt),
            kind == PayloadKind::SdkHeaders ==> forall|n: Seq<u8>|
                #[trigger] subtree_names(ns, root).contains(n) ==> stack_names(ns, stack@).contains(n)
                    || has_key(registry@, dedup_key(n)),
            !pruned ==> forall|i: int| 0 <= i < stack@.len() ==> !(#[trigger] stack@[i]).survey,
            nl == cfg.disable_symlinks,
            dl == cfg.include_debug_libs,
            ds == cfg.include_debug_symbols,
            goal_e == walk_scope(ns, root, pruned, msrc, mtgt),
            forall|e: FileAt|
                #[trigger] goal_e.contains(e) ==> stack_entries(ns, stack@, pruned).contains(e) || covers(
                    steps_view(steps@),
                    e,
                    kind,
                    nl,
                    dl,
                    ds,
                ),
            pruned ==> dirs_only(steps_view(steps@), mtgt),
            kind == PayloadKind::SdkHeaders ==> forall|k: u64|
                #[trigger] has_key(registry@, k) && !has_key(reg0, k) ==> exists|i: int|
                    0 <= i < steps@.len() && is_place(steps@[i]) && place_key(steps@[i]) == k,
        decreases stack_weight(ns, stack@, node_unit()),
    {
        let ghost st0 = stack@;
        let f = stack.pop().unwrap();
        assert(stack@ == st0.drop_last());
        assert(f == st0.last());
        assert(frame_mirrors(f, msrc, mtgt)) by {
            assert(st0[st0.len() - 1] == f);
        }
        assert forall|i: int| 0 <= i < stack@.len() implies frame_mirrors(#[trigger] stack@[i], msrc, mtgt) by {
            assert(stack@[i] == st0[i]);
        }
        assert(!pruned ==> !f.survey) by {
            if !pruned {
                assert(!st0[st0.len() - 1].survey);
            }
        }
        assert forall|i: int| 0 <= i < stack@.len() && !pruned implies !(#[trigger] stack@[i]).survey by {
            assert(stack@[i] == st0[i]);
        }
        assert(st0.drop_last() == stack@);
        assert(f.node < ns.len());
        assert(stack_entries(ns, st0, pruned) == stack_entries(ns, stack@, pruned) + frame_part(ns, f, pruned));
        if !f.survey {
            let dir = Step::CreateDir { dir: copy_path(&f.dst) };
            let ghost sv0 = steps_view(steps@);
            proof {
                lemma_progress_push(steps@, dir);
                lemma_view_push(steps@, dir);
                if pruned {
                    let fs = path_view(f.src@);
                    assert(fs.len() == base);
                    assert(fs.subrange(base as int, fs.len() as int) =~= Seq::<Seq<u8>>::empty());
                    assert(path_view(f.dst@) =~= mtgt);
                }
            }
            let ghost sd0 = steps@;
            steps.push(dir);
            assert forall|k: u64| #[trigger] has_key(registry@, k) && !has_key(reg0, k) && kind
                == PayloadKind::SdkHeaders implies exists|i: int|
                0 <= i < steps@.len() && is_place(steps@[i]) && place_key(steps@[i]) == k by {
                let i = choose|i: int| 0 <= i < sd0.len() && is_place(sd0[i]) && place_key(sd0[i]) == k;
                assert(steps@[i] == sd0[i]);
            }
            proof {
                assert forall|e: FileAt| covers(sv0, e, kind, nl, dl, ds) implies covers(
                    steps_view(steps@),
                    e,
                    kind,
                    nl,
                    dl,
                    ds,
                ) by {
                    lemma_covers_grow(sv0, seq![step_view(dir)], e, kind, nl, dl, ds);
                }
                if pruned {
                    let sv = steps_view(steps@);
                    assert forall|i: int| 0 <= i < sv.len() implies match #[trigger] sv[i] {
                        StepView::CreateDir(d) => d == mtgt,
                        _ => true,
                    } by {
                        if i < sv0.len() {
                            assert(sv[i] == sv0[i]);
                        }
                    }
                }
            }
        }
        let ghost fsd = path_view(f.src@);
        let ghost fdd = path_view(f.dst@);
        let node = &tree.nodes[f.node];
        let ghost p0 = progress_total(steps@);
        let ghost c0 = place_count(steps@);
        let mut j: usize = 0;
        while j < node.files.len()
            invariant
                tree.wf(),
                ns == tree.nodes@,
                node == ns[f.node as int],
                j <= node.files@.len(),
                registry.wf(),
                keys_kept(reg0, registry@),
                kind == m.kind,
                progress_total(steps@) == p0 + crate::tree::files_bytes(
                    node.files@.subrange(0, j as int),
                ),
                kind != PayloadKind::SdkHeaders ==> place_count(steps@) == c0 + if f.survey {
                    0
                } else {
                    kept_count(node.files@.subrange(0, j as int), kind, cfg.include_debug_libs, cfg.include_debug_symbols)
                },
                kind == PayloadKind::SdkHeaders ==> place_count(steps@) + reg0.len() == registry@.len(),
                places_kept(steps@, kind, cfg.include_debug_libs, cfg.include_debug_symbols),
                pruned ==> places_top(steps@, base),
                pruned ==> (f.survey || f.src@.len() == base),
                kind == PayloadKind::SdkHeaders ==> places_claimed(steps@, reg0, registry@),
                kind != PayloadKind::SdkHeaders ==> registry@ == reg0,
                places_mirror(steps@, msrc, mtgt),
                frame_mirrors(f, msrc, mtgt),
                base == msrc.len(),
                forall|i: int| 0 <= i < stack@.len() ==> frame_mirrors(#[trigger] stack@[i], msrc, mtgt),
                kind == PayloadKind::SdkHeaders ==> forall|n: Seq<u8>|
                    #[trigger] subtree_names(ns, root).contains(n) ==> stack_names(ns, stack@).contains(n)
                        || subtree_names(ns, f.node as int).contains(n) || has_key(registry@, dedup_key(n)),
                kind == PayloadKind::SdkHeaders ==> forall|k: int|
                    0 <= k < j ==> has_key(registry@, dedup_key((#[trigger] node.files@[k]).name@)),
                !pruned ==> !f.survey,
                pruned ==> kind == PayloadKind::CrtLibs,
                nl == cfg.disable_symlinks,
                dl == cfg.include_debug_libs,
                ds == cfg.include_debug_symbols,
                fsd == path_view(f.src@),
                fdd == path_view(f.dst@),
                forall|e: FileAt|
                    #[trigger] goal_e.contains(e) ==> stack_entries(ns, stack@, pruned).contains(e)
                        || frame_part(ns, f, pruned).contains(e) || covers(steps_view(steps@), e, kind, nl, dl, ds),
                !f.survey ==> forall|k: int|
                    0 <= k < j ==> covers(
                        steps_view(steps@),
                        (fsd, fdd, (#[trigger] node.files@[k]).name@, node.files@[k].size),
                        kind,
                        nl,
                        dl,
                        ds,
                    ),
                pruned ==> dirs_only(steps_view(steps@), mtgt),
                kind == PayloadKind::SdkHeaders ==> forall|k: u64|
                    #[trigger] has_key(registry@, k) && !has_key(reg0, k) ==> exists|i: int|
                        0 <= i < steps@.len() && is_place(steps@[i]) && place_key(steps@[i]) == k,
            decreases node.files.len() - j,
        {
            let file = &node.files[j];
            let ghost sj = steps@;
            let ghost rj = registry@;
            if f.survey {
                let counted = Step::Progress { bytes: file.size };
                proof {
                    lemma_progress_push(steps@, counted);
                }
                proof {
                    lemma_view_push(steps@, counted);
                }
                steps.push(counted);
                assert forall|i: int| 0 <= i < steps@.len() && is_place(#[trigger] steps@[i]) implies
                    i < sj.len() by {}
                assert forall|k: u64| #[trigger] has_key(registry@, k) && !has_key(reg0, k) && kind
                    == PayloadKind::SdkHeaders implies exists|i: int|
                    0 <= i < steps@.len() && is_place(steps@[i]) && place_key(steps@[i]) == k by {
                    let i = choose|i: int| 0 <= i < sj.len() && is_place(sj[i]) && place_key(sj[i]) == k;
                    assert(steps@[i] == sj[i]);
                }
                proof {
                    let sv0 = steps_view(sj);
                    assert forall|e: FileAt| covers(sv0, e, kind, nl, dl, ds) implies covers(
                        steps_view(steps@),
                        e,
                        kind,
                        nl,
                        dl,
                        ds,
                    ) by {
                        lemma_covers_grow(sv0, seq![step_view(counted)], e, kind, nl, dl, ds);
                    }
                    if pruned {
                        let sv = steps_view(steps@);
                        assert forall|i: int| 0 <= i < sv.len() implies match #[trigger] sv[i] {
                            StepView::CreateDir(d) => d == mtgt,
                            _ => true,
                        } by {
                            if i < sv0.len() {
                                assert(sv[i] == sv0[i]);
                            }
                        }
                    }
                }
            } else {
                place_file(
                    kind,
                    cfg,
                    &file.name,
                    file.size,
                    &f.src,
                    &f.dst,
                    registry,
                    &mut steps,
                    Ghost(reg0),
                );
                assert forall|i: int| 0 <= i < steps@.len() && is_place(#[trigger] steps@[i]) && pruned
                    implies place_src(steps@[i]).len() == base + 1 by {
                    if i < sj.len() {
                        assert(steps@[i] == sj[i]);
                    }
                }
                assert forall|k: u64| #[trigger] has_key(registry@, k) && !has_key(reg0, k) && kind
                    == PayloadKind::SdkHeaders implies exists|i: int|
                    0 <= i < steps@.len() && is_place(steps@[i]) && place_key(steps@[i]) == k by {
                    if has_key(rj, k) {
                        let i = choose|i: int| 0 <= i < sj.len() && is_place(sj[i]) && place_key(sj[i]) == k;
                        assert(steps@[i] == sj[i]);
                    }
                }
                proof {
                    lemma_mirror_step(sj, steps@, f, msrc, mtgt, file.name@);
                    lemma_after_file(
                        steps_view(sj),
                        steps_view(steps@),
                        (fsd, fdd, file.name@, file.size),
                        proceeds(kind, dl, ds, file.name@, rj),
                        kind,
                        nl,
                        dl,
                        ds,
                        mtgt,
                        pruned,
                    );
                    assert forall|k: int| 0 <= k < j + 1 implies covers(
                        steps_view(steps@),
                        (fsd, fdd, (#[trigger] node.files@[k]).name@, node.files@[k].size),
                        kind,
                        nl,
                        dl,
                        ds,
                    ) by {
                        if k == j {
                            assert(node.files@[k] == *file);
                        }
                    }
                }
                assert forall|k: int| 0 <= k < j + 1 && kind == PayloadKind::SdkHeaders implies has_key(
                    registry@,
                    dedup_key((#[trigger] node.files@[k]).name@),
                ) by {
                    if k < j {
                        assert(has_key(rj, dedup_key(node.files@[k].name@)));
                    }
                }
            }
            assert(node.files@.subrange(0, j + 1).drop_last() =~= node.files@.subrange(0, j as int));
            assert(node.files@.subrange(0, j + 1).last() == *file);
            j = j + 1;
        }
        assert(node.files@.subrange(0, node.files@.len() as int) =~= node.files@);
        let child_survey = f.survey || pruned;
        let ghost sw0 = stack@;
        let ghost svf = steps_view(steps@);
        let mut k: usize = 0;
        while k < node.dirs.len()
            invariant
                tree.wf(),
                ns == tree.nodes@,
                node == ns[f.node as int],
                f.node < ns.len(),
                k <= node.dirs@.len(),
                forall|i: int| 0 <= i < stack@.len() ==> (#[trigger] stack@[i]).node < ns.len(),
                stack_weight(ns, stack@, node_unit()) == stack_weight(ns, sw0, node_unit()) + dirs_weight(
                    ns,
                    f.node as int,
                    k as int,
                    node_unit(),
                ),
                stack_weight(ns, stack@, node_bytes()) == stack_weight(ns, sw0, node_bytes()) + dirs_weight(
                    ns,
                    f.node as int,
                    k as int,
                    node_bytes(),
                ),
                stack_kept(ns, stack@, kw, pruned) == stack_kept(ns, sw0, kw, pruned) + if child_survey {
                    0
                } else {
                    dirs_weight(ns, f.node as int, k as int, kw)
                },
                child_survey == (f.survey || pruned),
                base == msrc.len(),
                frame_mirrors(f, msrc, mtgt),
                forall|i: int| 0 <= i < stack@.len() ==> frame_mirrors(#[trigger] stack@[i], msrc, mtgt),
                pruned ==> forall|i: int|
                    0 <= i < stack@.len() ==> (#[trigger] stack@[i]).survey || stack@[i].src@.len()
                        == base,
                stack_names(ns, stack@) == stack_names(ns, sw0) + dirs_names(ns, f.node as int, k as int),
                !pruned ==> !child_survey,
                !pruned ==> forall|i: int| 0 <= i < stack@.len() ==> !(#[trigger] stack@[i]).survey,
                svf == steps_view(steps@),
                fsd == path_view(f.src@),
                fdd == path_view(f.dst@),
                stack_entries(ns, stack@, pruned) == stack_entries(ns, sw0, pruned) + if child_survey {
                    Set::<FileAt>::empty()
                } else {
                    dirs_entries(ns, f.node as int, k as int, fsd, fdd)
                },
            decreases node.dirs.len() - k,
        {
            let d = &node.dirs[k];
            assert(f.node < d.node < ns.len());
            let ghost fs = path_view(f.src@);
            assert(fs.len() >= base);
            assert(fs.push(d.name@).subrange(0, base as int) =~= fs.subrange(0, base as int));
            assert(fs.push(d.name@).subrange(base as int, fs.len() + 1int) =~= fs.subrange(base as int, fs.len() as int).push(d.name@));
            let child = Frame {
                src: join(&f.src, &d.name),
                dst: join(&f.dst, &d.name),
                node: d.node,
                survey: child_survey,
            };
            assert(frame_mirrors(child, msrc, mtgt)) by {
                assert(path_view(child.dst@) =~= mtgt + fs.push(d.name@).subrange(base as int, fs.len() + 1int));
            }
            let ghost sk = stack@;
            assert(path_view(child.src@) == fsd.push(d.name@));
            assert(path_view(child.dst@) == fdd.push(d.name@));
            assert(d.name@ == ns[f.node as int].dirs@[k as int].name@);
            assert(dirs_entries(ns, f.node as int, k + 1, fsd, fdd) == dirs_entries(ns, f.node as int, k as int, fsd, fdd)
                + subtree_entries(ns, d.node as int, fsd.push(d.name@), fdd.push(d.name@)));
            proof {
                lemma_stack_push(ns, stack@, child, node_unit(), pruned);
                lemma_stack_push(ns, stack@, child, node_bytes(), pruned);
                lemma_stack_push(ns, stack@, child, kw, pruned);
            }
            stack.push(child);
            assert(stack_entries(ns, stack@, pruned) =~= stack_entries(ns, sw0, pruned) + if child_survey {
                Set::<FileAt>::empty()
            } else {
                dirs_entries(ns, f.node as int, k + 1, fsd, fdd)
            });
            assert forall|i: int| 0 <= i < stack@.len() implies frame_mirrors(#[trigger] stack@[i], msrc, mtgt) by {
                if i < sk.len() {
                    assert(stack@[i] == sk[i]);
                }
            }
            assert forall|i: int| 0 <= i < stack@.len() && !pruned implies !(#[trigger] stack@[i]).survey by {
                if i < sk.len() {
                    assert(stack@[i] == sk[i]);
                }
            }
            k = k + 1;
        }
        proof {
            assert forall|e: FileAt| #[trigger] goal_e.contains(e) implies stack_entries(ns, stack@, pruned).contains(e)
                || covers(steps_view(steps@), e, kind, nl, dl, ds) by {
                if frame_part(ns, f, pruned).contains(e) && !stack_entries(ns, sw0, pruned).contains(e)
                    && !covers(steps_view(steps@), e, kind, nl, dl, ds) {
                    if own_entries(node.files@, fsd, fdd).contains(e) {
                        let k = choose|k: int|
                            0 <= k < node.files@.len() && (#[trigger] node.files@[k]).name@ == e.2
                                && node.files@[k].size == e.3;
                        assert(e == (fsd, fdd, node.files@[k].name@, node.files@[k].size));
                    } else {
                        assert(!pruned);
                        assert(subtree_entries(ns, f.node as int, fsd, fdd) == own_entries(node.files@, fsd, fdd)
                            + dirs_entries(ns, f.node as int, node.dirs@.len() as int, fsd, fdd));
                    }
                }
            }
            assert(subtree_weight(ns, f.node as int, node_unit()) == 1 + dirs_weight(
                ns,
                f.node as int,
                node.dirs@.len() as int,
                node_unit(),
            ));
            assert(subtree_weight(ns, f.node as int, kw) == kept_count(node.files@, kind, cfg.include_debug_libs, cfg.include_debug_symbols) + dirs_weight(
                ns,
                f.node as int,
                node.dirs@.len() as int,
                kw,
            ));
        }
    }
    assert(stack_weight(ns, stack@, node_bytes()) == 0);
    assert(stack_entries(ns, stack@, pruned) == Set::<FileAt>::empty());
    steps
}

} // verus!
