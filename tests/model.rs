use splat::model::{Arch, Variant, ARCH_AARCH64, ARCH_X86, ARCH_X86_64, VARIANT_STORE};

#[test]
fn arch_tokens() {
    assert_eq!(Arch::X86_64.as_ms_str(), b"x64".to_vec());
    assert_eq!(Arch::X86_64.as_str(), b"x86_64".to_vec());
    assert_eq!(Arch::Aarch64.as_ms_str(), b"arm64".to_vec());
    assert_eq!(Arch::Aarch.as_str(), b"aarch".to_vec());
}

#[test]
fn arch_set_order() {
    assert_eq!(Arch::iter(ARCH_AARCH64 | ARCH_X86 | ARCH_X86_64), vec![Arch::X86, Arch::X86_64, Arch::Aarch64]);
    assert!(Arch::iter(0).is_empty());
}

#[test]
fn variant_bits() {
    assert_eq!(Variant::Store.bit(), VARIANT_STORE);
    assert_eq!(Variant::Spectre.bit() & Variant::Desktop.bit(), 0);
}
