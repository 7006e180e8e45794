use splat::model::PayloadKind;
use splat::names::{ascii_lowercase, basename, ends_with, has_upper, is_debug_lib, is_debug_symbols};
use splat::policy::{angry_alias, keep_file};

fn b(s: &str) -> Vec<u8> {
    s.as_bytes().to_vec()
}

#[test]
fn lowercase_only_ascii() {
    assert_eq!(ascii_lowercase(&b("WinSock2.H")), b("winsock2.h"));
    assert_eq!(ascii_lowercase(&b("")), b(""));
}

#[test]
fn uppercase_detection() {
    assert!(has_upper(&b("Windows.h")));
    assert!(!has_upper(&b("windows.h")));
    assert!(!has_upper(&b("")));
}

#[test]
fn suffix_checks() {
    assert!(ends_with(&b("a.lib"), &b(".lib")));
    assert!(!ends_with(&b("lib"), &b(".lib")));
}

#[test]
fn debug_lib_names() {
    assert!(is_debug_lib(&b("msvcrtd.lib")));
    assert!(is_debug_lib(&b("msvcprtd_netcore.lib")));
    assert!(is_debug_lib(&b("libcpmtd0.lib")));
    assert!(!is_debug_lib(&b("msvcrt.lib")));
    assert!(!is_debug_lib(&b("vcruntime140.lib")));
    assert!(is_debug_lib(&b("vcruntime140d.pdb")));
    assert!(!is_debug_lib(&b("vcruntime140.pdb")));
}

#[test]
fn debug_symbol_names() {
    assert!(is_debug_symbols(&b("vcruntime140d.pdb")));
    assert!(!is_debug_symbols(&b("vcruntime140d.lib")));
}

#[test]
fn filter_by_flags() {
    let k = PayloadKind::CrtLibs;
    assert!(keep_file(k, &b("msvcrt.lib"), false, false));
    assert!(!keep_file(k, &b("msvcrtd.lib"), false, false));
    assert!(keep_file(k, &b("msvcrtd.lib"), true, false));
    assert!(!keep_file(k, &b("vcruntime140d.pdb"), true, false));
    assert!(!keep_file(k, &b("vcruntime140d.pdb"), false, true));
    assert!(keep_file(k, &b("vcruntime140d.pdb"), true, true));
    assert!(!keep_file(PayloadKind::Ucrt, &b("ucrtd.lib"), false, false));
    assert!(keep_file(PayloadKind::SdkLibs, &b("foo.pdb"), false, false));
}

#[test]
fn angry_aliases() {
    assert_eq!(angry_alias(&b("libcmt.lib")), Some(b("LIBCMT.lib")));
    assert_eq!(angry_alias(&b("msvcrt.lib")), Some(b("MSVCRT.lib")));
    assert_eq!(angry_alias(&b("OldNames.lib")), Some(b("OLDNAMES.lib")));
    assert_eq!(angry_alias(&b("LIBCMT.lib")), None);
    assert_eq!(angry_alias(&b("libcmtd.lib")), None);
    assert_eq!(angry_alias(&b("libcmt.pdb")), None);
}

#[test]
fn basename_of_target() {
    assert_eq!(basename(&b("sys/Types.h")), b("Types.h"));
    assert_eq!(basename(&b("windows.h")), b("windows.h"));
    assert_eq!(basename(&b("a/")), b(""));
}
