use splat::finalize::{finalize_plan, referenced_names, scan_targets, FinalizeError};
use splat::hash::calc_lower_hash;
use splat::place::Step;
use splat::registry::DedupRegistry;

fn b(s: &str) -> Vec<u8> {
    s.as_bytes().to_vec()
}

fn p(s: &str) -> Vec<Vec<u8>> {
    s.split('/').map(b).collect()
}

fn registry(paths: &[&str]) -> DedupRegistry {
    let mut reg = DedupRegistry::new();
    for path in paths {
        let path = p(path);
        assert!(reg.claim(calc_lower_hash(path.last().unwrap()), path));
    }
    reg
}

fn links(steps: &[Step]) -> Vec<(Vec<u8>, Vec<Vec<u8>>)> {
    steps
        .iter()
        .filter_map(|s| if let Step::Link { target, link } = s { Some((target.clone(), link.clone())) } else { None })
        .collect()
}

#[test]
fn mismatched_reference_gets_link() {
    let reg = registry(&["sdk/include/um/foo.h", "sdk/include/um/bar.h"]);
    let targets = vec![vec![b("Foo.H"), b("nonexistent.h")], vec![]];
    let steps = finalize_plan(&reg, &targets, false).unwrap();
    assert_eq!(
        links(&steps),
        vec![(b("foo.h"), p("sdk/include/um/Foo.H")), (b("gl"), p("sdk/include/um/GL"))]
    );
}

#[test]
fn uppercase_file_gets_lowercase_link() {
    let reg = registry(&["sdk/include/um/Windows.h"]);
    let targets = vec![vec![b("Windows.h")]];
    let steps = finalize_plan(&reg, &targets, false).unwrap();
    assert_eq!(
        links(&steps),
        vec![(b("Windows.h"), p("sdk/include/um/windows.h")), (b("gl"), p("sdk/include/um/GL"))]
    );
}

#[test]
fn names_are_collected_once() {
    let reg = registry(&["sdk/include/um/Windows.h", "sdk/include/shared/a.h"]);
    let targets = vec![vec![b("sys/types.h"), b("windows.h")], vec![b("types.h")]];
    let names = referenced_names(&reg, &targets).unwrap();
    assert_eq!(names, vec![b("windows.h"), b("types.h")]);
}

#[test]
fn non_text_target_fails() {
    let reg = registry(&["sdk/include/um/a.h", "sdk/include/um/b.h"]);
    let targets = vec![vec![b("ok.h")], vec![vec![0xff, 0xfe]]];
    assert!(matches!(finalize_plan(&reg, &targets, false), Err(FinalizeError::NonUtf8Target { file: 1 })));
}

#[test]
fn scanning_captures_targets() {
    let text = b"#include <windows.h>\n#include \"sys/Types.h\"\nint x;\n".to_vec();
    assert_eq!(scan_targets(&text).unwrap(), vec![b("windows.h"), b("sys/Types.h")]);
}

#[test]
fn disabled_links_plan_nothing() {
    let reg = registry(&["sdk/include/um/foo.h"]);
    let targets = vec![vec![b("Foo.H")]];
    assert!(finalize_plan(&reg, &targets, true).unwrap().is_empty());
}

#[test]
fn registry_lookup_by_key() {
    let mut reg = registry(&["sdk/include/um/Foo.h"]);
    assert_eq!(reg.get(calc_lower_hash(&b("FOO.H"))), Some(&p("sdk/include/um/Foo.h")));
    assert_eq!(reg.get(calc_lower_hash(&b("bar.h"))), None);
    assert!(!reg.claim(calc_lower_hash(&b("foo.h")), p("sdk/include/shared/foo.h")));
    assert_eq!(reg.path_at(0), &p("sdk/include/um/Foo.h"));
    assert_eq!(reg.len(), 1);
}

#[test]
fn scan_skips_other_lines() {
    let text = b"// #include is mentioned\nint y;\n#include   <a/b/C.h>".to_vec();
    assert_eq!(scan_targets(&text).unwrap(), vec![b("a/b/C.h")]);
}
