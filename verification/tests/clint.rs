use rustyvisor::clint::clint;

#[test]
fn clint_reset_values() {
    let c = clint::new();
    assert_eq!(c.mtime.get_time(), 0xaa);
    assert_eq!((c.msip.h0_h1, c.msip.h2_h3, c.msip.h4), (0xda, 0xad, 0xbe));
    assert_eq!((c.mtimecmp.h0, c.mtimecmp.h4), (0xde, 0xf0));
}

#[test]
fn msip_nibbles() {
    let mut c = clint::new();
    c.msip.h0_h1 = 0;
    c.msip.h2_h3 = 0;
    c.msip.h4 = 0;
    c.msip.h0_set(0x1f3);
    assert_eq!(c.msip.h0_h1, 0x3);
    c.msip.h1_set(0x50);
    assert_eq!(c.msip.h0_h1, 0x53);
    c.msip.h2_set(0x2);
    c.msip.h3_set(0x90);
    assert_eq!(c.msip.h2_h3, 0x92);
    // hart 4 is set on top of the byte of harts 2 and 3
    c.msip.h4_set(0x1);
    assert_eq!(c.msip.h4, 0x93);
}

#[test]
fn msip_reads() {
    let c = clint::new();
    assert_eq!(c.msip.h0_read(), 0xa);
    let c = clint::new();
    assert_eq!(c.msip.h1_read(), 0xd);
    let c = clint::new();
    assert_eq!(c.msip.h2_read(), 0xd);
    let c = clint::new();
    assert_eq!(c.msip.h3_read(), 0xa);
    let c = clint::new();
    assert_eq!(c.msip.h4_read(), 0xe);
}
