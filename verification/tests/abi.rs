use nastalli::abi::SYSCALL_VECTOR;

#[test]
fn syscall_vector_does_not_overlap_cpu_exceptions_or_legacy_pic() {
    assert!(SYSCALL_VECTOR >= 48);
}

#[test]
fn syscall_vector_is_0x80() {
    assert_eq!(SYSCALL_VECTOR, 0x80);
}
