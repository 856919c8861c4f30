use dtoolkit::error::FdtErrorKind;
use dtoolkit::fdt::Fdt;

/// `/memreserve/ 0x1000 0x100; /memreserve/ 0x2000 0x200; / { };`
const TEST_MEMRESERVE: [u8; 104] = [
    0xd0, 0x0d, 0xfe, 0xed, 0x00, 0x00, 0x00, 0x68, 0x00, 0x00, 0x00, 0x58,
    0x00, 0x00, 0x00, 0x68, 0x00, 0x00, 0x00, 0x28, 0x00, 0x00, 0x00, 0x11,
    0x00, 0x00, 0x00, 0x10, 0x00, 0x00, 0x00, 0x00, 0x00, 0x00, 0x00, 0x00,
    0x00, 0x00, 0x00, 0x10, 0x00, 0x00, 0x00, 0x00, 0x00, 0x00, 0x10, 0x00,
    0x00, 0x00, 0x00, 0x00, 0x00, 0x00, 0x01, 0x00, 0x00, 0x00, 0x00, 0x00,
    0x00, 0x00, 0x20, 0x00, 0x00, 0x00, 0x00, 0x00, 0x00, 0x00, 0x02, 0x00,
    0x00, 0x00, 0x00, 0x00, 0x00, 0x00, 0x00, 0x00, 0x00, 0x00, 0x00, 0x00,
    0x00, 0x00, 0x00, 0x00, 0x00, 0x00, 0x00, 0x01, 0x00, 0x00, 0x00, 0x00,
    0x00, 0x00, 0x00, 0x02, 0x00, 0x00, 0x00, 0x09,
];

#[test]
fn memreserve() {
    let fdt = Fdt::new(&TEST_MEMRESERVE).unwrap();

    let reservations: Vec<_> = fdt.memory_reservations();
    assert_eq!(reservations.len(), 2);
    assert_eq!(reservations[0].address(), 0x1000);
    assert_eq!(reservations[0].size(), 0x100);
    assert_eq!(reservations[1].address(), 0x2000);
    assert_eq!(reservations[1].size(), 0x200);

    let dts = fdt.to_string();
    assert!(dts.contains("/memreserve/ 0x1000 0x100;"));
    assert!(dts.contains("/memreserve/ 0x2000 0x200;"));
}

#[test]
fn memreserve_without_terminator() {
    let mut blob = TEST_MEMRESERVE.to_vec();
    // Overwrite the terminating entry with a third reservation.
    blob[40 + 32 + 7] = 0x30;
    blob[40 + 32 + 15] = 0x03;
    let error = Fdt::new(&blob).unwrap_err();
    assert_eq!(error.kind, FdtErrorKind::MemReserveNotTerminated);
    assert_eq!(error.offset(), 40 + 48);
}
