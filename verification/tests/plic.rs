use rustyvisor::plic::{claim_register, complete, enable_interrupt, get_claim};

#[test]
fn plic_enable_writes() {
    assert_eq!(
        enable_interrupt(),
        [(0x0c00_0004, 1), (0x0c00_0028, 1), (0x0c00_2080, (1 << 1) | (1 << 10)), (0x0c20_1000, 0)]
    );
}

#[test]
fn plic_claim_and_complete() {
    assert_eq!(claim_register(), 0x0c20_1004);
    assert_eq!(get_claim(0), None);
    assert_eq!(get_claim(10), Some(10));
    assert_eq!(complete(10), (0x0c20_1004, 10));
}
