use splat::hash::calc_lower_hash;

#[test]
fn key_ignores_ascii_case() {
    let a = calc_lower_hash(&b"Windows.H".to_vec());
    let c = calc_lower_hash(&b"windows.h".to_vec());
    assert_eq!(a, c);
    assert_ne!(a, calc_lower_hash(&b"winbase.h".to_vec()));
}

#[test]
fn key_of_empty_name() {
    assert_eq!(calc_lower_hash(&Vec::new()), 0xEF46DB3751D8E999u64);
}
