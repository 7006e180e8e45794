use splat::model::{Arch, PayloadKind, SplatConfig, Variant, ARCH_X86, ARCH_X86_64, VARIANT_DESKTOP, VARIANT_SPECTRE, VARIANT_STORE};
use splat::place::{plan_mapping, Mapping, Step};
use splat::registry::DedupRegistry;
use splat::resolve::{resolve_mappings, PayloadDescriptor, ResolveError};
use splat::tree::{DirEntry, DirNode, FileEntry, FileTree};

fn b(s: &str) -> Vec<u8> {
    s.as_bytes().to_vec()
}

fn p(s: &str) -> Vec<Vec<u8>> {
    s.split('/').filter(|x| !x.is_empty()).map(b).collect()
}

/// Builds a tree from (directory path, files) pairs; parents are listed first.
fn tree(dirs: &[(&str, &[(&str, u64)])]) -> FileTree {
    let mut nodes: Vec<DirNode> = Vec::new();
    let mut paths: Vec<String> = Vec::new();
    for (path, files) in dirs {
        let idx = nodes.len();
        nodes.push(DirNode {
            files: files.iter().map(|(n, s)| FileEntry { name: b(n), size: *s }).collect(),
            dirs: Vec::new(),
        });
        if !path.is_empty() {
            let (parent, name) = match path.rfind('/') {
                Some(i) => (&path[..i], &path[i + 1..]),
                None => ("", &path[..]),
            };
            let pi = paths.iter().position(|x| x == parent).unwrap();
            nodes[pi].dirs.push(DirEntry { name: b(name), node: idx });
        }
        paths.push(path.to_string());
    }
    FileTree { nodes }
}

fn config(debug_libs: bool, debug_symbols: bool) -> SplatConfig {
    SplatConfig {
        include_debug_libs: debug_libs,
        include_debug_symbols: debug_symbols,
        disable_symlinks: false,
        preserve_ms_arch_notation: false,
        output: String::from("out"),
        copy: true,
    }
}

fn payload(kind: PayloadKind, variant: Option<Variant>, arch: Option<Arch>) -> PayloadDescriptor {
    PayloadDescriptor { filename: b("pl"), kind, variant, target_arch: arch }
}

fn progress(steps: &[Step]) -> u64 {
    steps.iter().map(|s| if let Step::Progress { bytes } = s { *bytes } else { 0 }).sum()
}

fn placed(steps: &[Step]) -> Vec<(Vec<Vec<u8>>, Vec<Vec<u8>>)> {
    steps
        .iter()
        .filter_map(|s| if let Step::Place { src, dst } = s { Some((src.clone(), dst.clone())) } else { None })
        .collect()
}

fn links(steps: &[Step]) -> Vec<(Vec<u8>, Vec<Vec<u8>>)> {
    steps
        .iter()
        .filter_map(|s| if let Step::Link { target, link } = s { Some((target.clone(), link.clone())) } else { None })
        .collect()
}

#[test]
fn crt_libs_onecore_spectre_paths() {
    let t = tree(&[("", &[]), ("lib", &[]), ("lib/spectre", &[]), ("lib/spectre/onecore", &[]), ("lib/spectre/onecore/x64", &[("a.lib", 1)])]);
    let d = payload(PayloadKind::CrtLibs, Some(Variant::OneCore), Some(Arch::X86_64));
    let ms = resolve_mappings(&d, &t, ARCH_X86_64, VARIANT_DESKTOP | VARIANT_SPECTRE, false).unwrap();
    assert_eq!(ms.len(), 1);
    assert_eq!(ms[0].src, p("pl/lib/spectre/onecore/x64"));
    assert_eq!(ms[0].target, p("crt/lib/spectre/onecore/x86_64"));
    assert_eq!(ms[0].node, 4);
    let ms = resolve_mappings(&d, &t, ARCH_X86_64, VARIANT_DESKTOP | VARIANT_SPECTRE, true).unwrap();
    assert_eq!(ms[0].target, p("crt/lib/spectre/onecore/x64"));
}

#[test]
fn ucrt_fans_out_per_arch() {
    let t = tree(&[("", &[]), ("include", &[]), ("include/ucrt", &[]), ("lib", &[]), ("lib/ucrt", &[]), ("lib/ucrt/x86", &[]), ("lib/ucrt/x64", &[])]);
    let d = payload(PayloadKind::Ucrt, None, None);
    let ms = resolve_mappings(&d, &t, ARCH_X86 | ARCH_X86_64, VARIANT_DESKTOP, false).unwrap();
    let targets: Vec<_> = ms.iter().map(|m| m.target.clone()).collect();
    assert_eq!(targets, vec![p("sdk/include/ucrt"), p("sdk/lib/ucrt/x86"), p("sdk/lib/ucrt/x86_64")]);
    assert_eq!(ms[2].src, p("pl/lib/ucrt/x64"));
}

#[test]
fn resolve_errors() {
    let t = tree(&[("", &[])]);
    let e = resolve_mappings(&payload(PayloadKind::CrtLibs, None, Some(Arch::X86)), &t, ARCH_X86, 1, false);
    assert!(matches!(e, Err(ResolveError::MissingVariant)));
    let e = resolve_mappings(&payload(PayloadKind::SdkLibs, None, None), &t, ARCH_X86, 1, false);
    assert!(matches!(e, Err(ResolveError::MissingArch)));
    let e = resolve_mappings(&payload(PayloadKind::SdkHeaders, None, None), &t, ARCH_X86, 1, false);
    match e {
        Err(ResolveError::MissingSubtree { path }) => assert_eq!(path, p("include")),
        _ => panic!("expected a missing subtree"),
    }
}

#[test]
fn crt_filter_in_placement() {
    let t = tree(&[("", &[("msvcrt.lib", 10), ("msvcrtd.lib", 20), ("vcruntime140d.pdb", 30)])]);
    let m = Mapping { src: p("pl/lib/x64"), target: p("crt/lib/x86_64"), node: 0, kind: PayloadKind::CrtLibs, variant: Some(Variant::Desktop) };
    let mut reg = DedupRegistry::new();
    let steps = plan_mapping(&t, &m, VARIANT_DESKTOP, &config(false, false), &mut reg);
    let names: Vec<_> = placed(&steps).into_iter().map(|(_, d)| d.last().unwrap().clone()).collect();
    assert_eq!(names, vec![b("msvcrt.lib")]);
    assert_eq!(progress(&steps), 60);
    let steps = plan_mapping(&t, &m, VARIANT_DESKTOP, &config(true, true), &mut reg);
    assert_eq!(placed(&steps).len(), 3);
}

#[test]
fn store_variant_pruned() {
    let t = tree(&[("", &[("a.lib", 5)]), ("store", &[("b.lib", 7)]), ("store/uwp", &[("c.lib", 11)])]);
    let m = Mapping { src: p("pl/lib/x64"), target: p("crt/lib/x86_64"), node: 0, kind: PayloadKind::CrtLibs, variant: Some(Variant::Store) };
    let mut reg = DedupRegistry::new();
    let steps = plan_mapping(&t, &m, VARIANT_DESKTOP, &config(false, false), &mut reg);
    assert_eq!(placed(&steps), vec![(p("pl/lib/x64/a.lib"), p("crt/lib/x86_64/a.lib"))]);
    assert_eq!(progress(&steps), 23);
    let steps = plan_mapping(&t, &m, VARIANT_DESKTOP | VARIANT_STORE, &config(false, false), &mut reg);
    assert_eq!(placed(&steps).len(), 3);
    assert_eq!(progress(&steps), 23);
}

#[test]
fn angry_lib_gets_uppercase_link() {
    let t = tree(&[("", &[("libcmt.lib", 1)])]);
    let m = Mapping { src: p("pl/lib/x64"), target: p("crt/lib/x86_64"), node: 0, kind: PayloadKind::CrtLibs, variant: Some(Variant::Desktop) };
    let mut reg = DedupRegistry::new();
    let steps = plan_mapping(&t, &m, VARIANT_DESKTOP, &config(false, false), &mut reg);
    assert_eq!(links(&steps), vec![(b("libcmt.lib"), p("crt/lib/x86_64/LIBCMT.lib"))]);
}

#[test]
fn sdk_libs_lowercased() {
    let t = tree(&[("", &[("AdvAPI32.Lib", 1), ("kernel32.lib", 2)])]);
    let m = Mapping { src: p("pl/lib/um/x64"), target: p("sdk/lib/um/x86_64"), node: 0, kind: PayloadKind::SdkLibs, variant: None };
    let mut reg = DedupRegistry::new();
    let steps = plan_mapping(&t, &m, VARIANT_DESKTOP, &config(false, false), &mut reg);
    assert_eq!(
        placed(&steps),
        vec![
            (p("pl/lib/um/x64/AdvAPI32.Lib"), p("sdk/lib/um/x86_64/advapi32.lib")),
            (p("pl/lib/um/x64/kernel32.lib"), p("sdk/lib/um/x86_64/kernel32.lib")),
        ]
    );
    assert_eq!(links(&steps), vec![(b("advapi32.lib"), p("sdk/lib/um/x86_64/AdvAPI32.Lib"))]);
}

#[test]
fn headers_written_once_across_subtrees() {
    let t = tree(&[("", &[]), ("um", &[("Windows.h", 3), ("a.h", 1)]), ("shared", &[("windows.h", 3), ("b.h", 1)])]);
    let m = Mapping { src: p("pl/include"), target: p("sdk/include"), node: 0, kind: PayloadKind::SdkHeaders, variant: None };
    let mut reg = DedupRegistry::new();
    let steps = plan_mapping(&t, &m, VARIANT_DESKTOP, &config(false, false), &mut reg);
    let placed = placed(&steps);
    let windows: Vec<_> = placed.iter().filter(|(_, d)| d.last().unwrap().eq_ignore_ascii_case(b"windows.h")).collect();
    assert_eq!(windows.len(), 1);
    assert_eq!(placed.len(), 3);
    assert_eq!(reg.len(), 3);
    assert_eq!(progress(&steps), 8);
    // a second mapping sharing the registry places none of them again
    let again = plan_mapping(&t, &m, VARIANT_DESKTOP, &config(false, false), &mut reg);
    assert!(placed_none(&again));
}

fn placed_none(steps: &[Step]) -> bool {
    placed(steps).is_empty()
}

#[test]
fn planning_is_repeatable() {
    let t = tree(&[("", &[("A.Lib", 1)]), ("sub", &[("b.lib", 2)])]);
    let m = Mapping { src: p("pl/lib/um/x86"), target: p("sdk/lib/um/x86"), node: 0, kind: PayloadKind::SdkLibs, variant: None };
    let mut r1 = DedupRegistry::new();
    let mut r2 = DedupRegistry::new();
    let a = plan_mapping(&t, &m, VARIANT_DESKTOP, &config(false, false), &mut r1);
    let c = plan_mapping(&t, &m, VARIANT_DESKTOP, &config(false, false), &mut r2);
    assert_eq!(placed(&a), placed(&c));
    assert_eq!(links(&a), links(&c));
}

#[test]
fn payload_plans_every_mapping() {
    let t = tree(&[("", &[]), ("lib", &[]), ("lib/um", &[]), ("lib/um/x86", &[("A.lib", 4)]), ("lib/um/x64", &[("b.lib", 6)])]);
    let d = payload(PayloadKind::SdkStoreLibs, None, None);
    let mut reg = DedupRegistry::new();
    let plans = splat::payload::plan_payload(&d, &t, ARCH_X86 | ARCH_X86_64, VARIANT_DESKTOP, &config(false, false), &mut reg).unwrap();
    assert_eq!(plans.len(), 2);
    assert_eq!(progress(&plans[0]), 4);
    assert_eq!(progress(&plans[1]), 6);
    assert_eq!(placed(&plans[0]), vec![(p("pl/lib/um/x86/A.lib"), p("sdk/lib/um/x86/a.lib"))]);
    assert_eq!(reg.len(), 0);
}

#[test]
fn payload_missing_arch_dir() {
    let t = tree(&[("", &[]), ("lib", &[]), ("lib/um", &[]), ("lib/um/x86", &[])]);
    let d = payload(PayloadKind::SdkStoreLibs, None, None);
    let mut reg = DedupRegistry::new();
    let r = splat::payload::plan_payload(&d, &t, ARCH_X86 | ARCH_X86_64, VARIANT_DESKTOP, &config(false, false), &mut reg);
    match r {
        Err(ResolveError::MissingSubtree { path }) => assert_eq!(path, p("lib/um/x64")),
        _ => panic!("expected a missing subtree"),
    }
}

#[test]
fn tree_well_formedness() {
    let good = tree(&[("", &[("a", 1)]), ("x", &[]), ("x/y", &[])]);
    assert!(good.is_wf());
    assert!(!FileTree { nodes: Vec::new() }.is_wf());
    let mut back = tree(&[("", &[]), ("x", &[])]);
    back.nodes[1].dirs.push(DirEntry { name: b("up"), node: 0 });
    assert!(!back.is_wf());
    let mut twice = tree(&[("", &[]), ("x", &[])]);
    twice.nodes[0].dirs.push(DirEntry { name: b("x"), node: 1 });
    assert!(!twice.is_wf());
}

#[test]
fn subtree_lookup() {
    let t = tree(&[("", &[]), ("a", &[]), ("a/b", &[])]);
    assert_eq!(t.subtree(0, &p("a/b")), Some(2));
    assert_eq!(t.subtree(0, &p("")), Some(0));
    assert_eq!(t.subtree(0, &p("a/c")), None);
}

#[test]
fn nested_crt_lib_lands_at_same_relative_path() {
    let t = tree(&[("", &[]), ("r", &[("msvcrt.lib", 3), ("msvcrtd.lib", 4)])]);
    let m = Mapping { src: p("pl/lib/spectre/x64"), target: p("crt/lib/spectre/x86_64"), node: 0, kind: PayloadKind::CrtLibs, variant: Some(Variant::Desktop) };
    let mut reg = DedupRegistry::new();
    let steps = plan_mapping(&t, &m, VARIANT_DESKTOP, &config(false, false), &mut reg);
    assert_eq!(placed(&steps), vec![(p("pl/lib/spectre/x64/r/msvcrt.lib"), p("crt/lib/spectre/x86_64/r/msvcrt.lib"))]);
    let dirs: Vec<_> = steps.iter().filter_map(|s| if let Step::CreateDir { dir } = s { Some(dir.clone()) } else { None }).collect();
    assert_eq!(dirs, vec![p("crt/lib/spectre/x86_64"), p("crt/lib/spectre/x86_64/r")]);
}

#[test]
fn pruned_store_creates_no_subdirectory() {
    let t = tree(&[("", &[("a.lib", 1)]), ("uwp", &[("b.lib", 2)])]);
    let m = Mapping { src: p("pl/lib/x64"), target: p("crt/lib/x64"), node: 0, kind: PayloadKind::CrtLibs, variant: Some(Variant::Store) };
    let mut reg = DedupRegistry::new();
    let steps = plan_mapping(&t, &m, VARIANT_DESKTOP, &config(false, false), &mut reg);
    let dirs: Vec<_> = steps.iter().filter_map(|s| if let Step::CreateDir { dir } = s { Some(dir.clone()) } else { None }).collect();
    assert_eq!(dirs, vec![p("crt/lib/x64")]);
}
