use dtoolkit::error::{PropertyError, StandardError};
use dtoolkit::fdt::Fdt;
use dtoolkit::model::{DeviceTree, DeviceTreeNode, DeviceTreeProperty};
use dtoolkit::standard::{InitialMappedArea, Memory, Range, Reg, Status};
use dtoolkit::{Cells, Node, Property};

/// A tree with the standard nodes and properties:
///
/// ```text
/// / {
///     #address-cells = <2>; #size-cells = <1>;
///     model = "test,model"; compatible = "vendor,board", "generic";
///     memory@80000000 {
///         device_type = "memory"; reg = <0x0 0x80000000 0x10000000>;
///         initial-mapped-area = <0 0x1000 0 0x2000 0x3000>; hotpluggable;
///     };
///     cpus {
///         #address-cells = <1>; #size-cells = <0>;
///         cpu@0 { reg = <0>; status = "okay"; compatible = "arm,cortex-a53"; };
///         cpu@1 { reg = <1>; status = "disabled"; };
///         cpu-map { };
///         cpu@2 { status = "reserved"; };
///     };
///     soc {
///         #address-cells = <1>; #size-cells = <1>;
///         ranges = <0x0 0x0 0xe0000000 0x100000>;
///         dma-ranges = <0x4000 0x1 0x80000000 0x2000 0x8000 0x2 0x0 0x1000>;
///         dma-coherent; phandle = <7>;
///         uart@1000 {
///             reg = <0x1000 0x100 0x2000 0x200>; virtual-reg = <0xf000>;
///             status = "fail-sss"; compatible = "ns16550a";
///         };
///         bad {
///             status = "nope"; reg = <1 2 3>; phandle = [01 02];
///             model = [6e 6f ...] (no terminator); #address-cells = [01];
///             compatible = "one", [74 77 6f] (no terminator);
///         };
///         timer { status = "fail"; compatible = "generic", "vendor,timer"; };
///     };
/// };
/// ```
const TEST_STANDARD: [u8; 1131] = [
    0xd0, 0x0d, 0xfe, 0xed, 0x00, 0x00, 0x04, 0x6b, 0x00, 0x00, 0x00, 0x38,
    0x00, 0x00, 0x03, 0xd4, 0x00, 0x00, 0x00, 0x28, 0x00, 0x00, 0x00, 0x11,
    0x00, 0x00, 0x00, 0x10, 0x00, 0x00, 0x00, 0x00, 0x00, 0x00, 0x00, 0x97,
    0x00, 0x00, 0x03, 0x9c, 0x00, 0x00, 0x00, 0x00, 0x00, 0x00, 0x00, 0x00,
    0x00, 0x00, 0x00, 0x00, 0x00, 0x00, 0x00, 0x00, 0x00, 0x00, 0x00, 0x01,
    0x00, 0x00, 0x00, 0x00, 0x00, 0x00, 0x00, 0x03, 0x00, 0x00, 0x00, 0x04,
    0x00, 0x00, 0x00, 0x00, 0x00, 0x00, 0x00, 0x02, 0x00, 0x00, 0x00, 0x03,
    0x00, 0x00, 0x00, 0x04, 0x00, 0x00, 0x00, 0x0f, 0x00, 0x00, 0x00, 0x01,
    0x00, 0x00, 0x00, 0x03, 0x00, 0x00, 0x00, 0x0b, 0x00, 0x00, 0x00, 0x1b,
    0x74, 0x65, 0x73, 0x74, 0x2c, 0x6d, 0x6f, 0x64, 0x65, 0x6c, 0x00, 0x00,
    0x00, 0x00, 0x00, 0x03, 0x00, 0x00, 0x00, 0x15, 0x00, 0x00, 0x00, 0x21,
    0x76, 0x65, 0x6e, 0x64, 0x6f, 0x72, 0x2c, 0x62, 0x6f, 0x61, 0x72, 0x64,
    0x00, 0x67, 0x65, 0x6e, 0x65, 0x72, 0x69, 0x63, 0x00, 0x00, 0x00, 0x00,
    0x00, 0x00, 0x00, 0x01, 0x6d, 0x65, 0x6d, 0x6f, 0x72, 0x79, 0x40, 0x38,
    0x30, 0x30, 0x30, 0x30, 0x30, 0x30, 0x30, 0x00, 0x00, 0x00, 0x00, 0x03,
    0x00, 0x00, 0x00, 0x07, 0x00, 0x00, 0x00, 0x2c, 0x6d, 0x65, 0x6d, 0x6f,
    0x72, 0x79, 0x00, 0x00, 0x00, 0x00, 0x00, 0x03, 0x00, 0x00, 0x00, 0x0c,
    0x00, 0x00, 0x00, 0x38, 0x00, 0x00, 0x00, 0x00, 0x80, 0x00, 0x00, 0x00,
    0x10, 0x00, 0x00, 0x00, 0x00, 0x00, 0x00, 0x03, 0x00, 0x00, 0x00, 0x14,
    0x00, 0x00, 0x00, 0x3c, 0x00, 0x00, 0x00, 0x00, 0x00, 0x00, 0x10, 0x00,
    0x00, 0x00, 0x00, 0x00, 0x00, 0x00, 0x20, 0x00, 0x00, 0x00, 0x30, 0x00,
    0x00, 0x00, 0x00, 0x03, 0x00, 0x00, 0x00, 0x00, 0x00, 0x00, 0x00, 0x50,
    0x00, 0x00, 0x00, 0x02, 0x00, 0x00, 0x00, 0x01, 0x63, 0x70, 0x75, 0x73,
    0x00, 0x00, 0x00, 0x00, 0x00, 0x00, 0x00, 0x03, 0x00, 0x00, 0x00, 0x04,
    0x00, 0x00, 0x00, 0x00, 0x00, 0x00, 0x00, 0x01, 0x00, 0x00, 0x00, 0x03,
    0x00, 0x00, 0x00, 0x04, 0x00, 0x00, 0x00, 0x0f, 0x00, 0x00, 0x00, 0x00,
    0x00, 0x00, 0x00, 0x01, 0x63, 0x70, 0x75, 0x40, 0x30, 0x00, 0x00, 0x00,
    0x00, 0x00, 0x00, 0x03, 0x00, 0x00, 0x00, 0x04, 0x00, 0x00, 0x00, 0x38,
    0x00, 0x00, 0x00, 0x00, 0x00, 0x00, 0x00, 0x03, 0x00, 0x00, 0x00, 0x05,
    0x00, 0x00, 0x00, 0x5d, 0x6f, 0x6b, 0x61, 0x79, 0x00, 0x00, 0x00, 0x00,
    0x00, 0x00, 0x00, 0x03, 0x00, 0x00, 0x00, 0x0f, 0x00, 0x00, 0x00, 0x21,
    0x61, 0x72, 0x6d, 0x2c, 0x63, 0x6f, 0x72, 0x74, 0x65, 0x78, 0x2d, 0x61,
    0x35, 0x33, 0x00, 0x00, 0x00, 0x00, 0x00, 0x02, 0x00, 0x00, 0x00, 0x01,
    0x63, 0x70, 0x75, 0x40, 0x31, 0x00, 0x00, 0x00, 0x00, 0x00, 0x00, 0x03,
    0x00, 0x00, 0x00, 0x04, 0x00, 0x00, 0x00, 0x38, 0x00, 0x00, 0x00, 0x01,
    0x00, 0x00, 0x00, 0x03, 0x00, 0x00, 0x00, 0x09, 0x00, 0x00, 0x00, 0x5d,
    0x64, 0x69, 0x73, 0x61, 0x62, 0x6c, 0x65, 0x64, 0x00, 0x00, 0x00, 0x00,
    0x00, 0x00, 0x00, 0x02, 0x00, 0x00, 0x00, 0x01, 0x63, 0x70, 0x75, 0x2d,
    0x6d, 0x61, 0x70, 0x00, 0x00, 0x00, 0x00, 0x02, 0x00, 0x00, 0x00, 0x01,
    0x63, 0x70, 0x75, 0x40, 0x32, 0x00, 0x00, 0x00, 0x00, 0x00, 0x00, 0x03,
    0x00, 0x00, 0x00, 0x09, 0x00, 0x00, 0x00, 0x5d, 0x72, 0x65, 0x73, 0x65,
    0x72, 0x76, 0x65, 0x64, 0x00, 0x00, 0x00, 0x00, 0x00, 0x00, 0x00, 0x02,
    0x00, 0x00, 0x00, 0x02, 0x00, 0x00, 0x00, 0x01, 0x73, 0x6f, 0x63, 0x00,
    0x00, 0x00, 0x00, 0x03, 0x00, 0x00, 0x00, 0x04, 0x00, 0x00, 0x00, 0x00,
    0x00, 0x00, 0x00, 0x01, 0x00, 0x00, 0x00, 0x03, 0x00, 0x00, 0x00, 0x04,
    0x00, 0x00, 0x00, 0x0f, 0x00, 0x00, 0x00, 0x01, 0x00, 0x00, 0x00, 0x03,
    0x00, 0x00, 0x00, 0x10, 0x00, 0x00, 0x00, 0x64, 0x00, 0x00, 0x00, 0x00,
    0x00, 0x00, 0x00, 0x00, 0xe0, 0x00, 0x00, 0x00, 0x00, 0x10, 0x00, 0x00,
    0x00, 0x00, 0x00, 0x03, 0x00, 0x00, 0x00, 0x20, 0x00, 0x00, 0x00, 0x6b,
    0x00, 0x00, 0x40, 0x00, 0x00, 0x00, 0x00, 0x01, 0x80, 0x00, 0x00, 0x00,
    0x00, 0x00, 0x20, 0x00, 0x00, 0x00, 0x80, 0x00, 0x00, 0x00, 0x00, 0x02,
    0x00, 0x00, 0x00, 0x00, 0x00, 0x00, 0x10, 0x00, 0x00, 0x00, 0x00, 0x03,
    0x00, 0x00, 0x00, 0x00, 0x00, 0x00, 0x00, 0x76, 0x00, 0x00, 0x00, 0x03,
    0x00, 0x00, 0x00, 0x04, 0x00, 0x00, 0x00, 0x83, 0x00, 0x00, 0x00, 0x07,
    0x00, 0x00, 0x00, 0x01, 0x75, 0x61, 0x72, 0x74, 0x40, 0x31, 0x30, 0x30,
    0x30, 0x00, 0x00, 0x00, 0x00, 0x00, 0x00, 0x03, 0x00, 0x00, 0x00, 0x10,
    0x00, 0x00, 0x00, 0x38, 0x00, 0x00, 0x10, 0x00, 0x00, 0x00, 0x01, 0x00,
    0x00, 0x00, 0x20, 0x00, 0x00, 0x00, 0x02, 0x00, 0x00, 0x00, 0x00, 0x03,
    0x00, 0x00, 0x00, 0x04, 0x00, 0x00, 0x00, 0x8b, 0x00, 0x00, 0xf0, 0x00,
    0x00, 0x00, 0x00, 0x03, 0x00, 0x00, 0x00, 0x09, 0x00, 0x00, 0x00, 0x5d,
    0x66, 0x61, 0x69, 0x6c, 0x2d, 0x73, 0x73, 0x73, 0x00, 0x00, 0x00, 0x00,
    0x00, 0x00, 0x00, 0x03, 0x00, 0x00, 0x00, 0x09, 0x00, 0x00, 0x00, 0x21,
    0x6e, 0x73, 0x31, 0x36, 0x35, 0x35, 0x30, 0x61, 0x00, 0x00, 0x00, 0x00,
    0x00, 0x00, 0x00, 0x02, 0x00, 0x00, 0x00, 0x01, 0x62, 0x61, 0x64, 0x00,
    0x00, 0x00, 0x00, 0x03, 0x00, 0x00, 0x00, 0x05, 0x00, 0x00, 0x00, 0x5d,
    0x6e, 0x6f, 0x70, 0x65, 0x00, 0x00, 0x00, 0x00, 0x00, 0x00, 0x00, 0x03,
    0x00, 0x00, 0x00, 0x0c, 0x00, 0x00, 0x00, 0x38, 0x00, 0x00, 0x00, 0x01,
    0x00, 0x00, 0x00, 0x02, 0x00, 0x00, 0x00, 0x03, 0x00, 0x00, 0x00, 0x03,
    0x00, 0x00, 0x00, 0x02, 0x00, 0x00, 0x00, 0x83, 0x01, 0x02, 0x00, 0x00,
    0x00, 0x00, 0x00, 0x03, 0x00, 0x00, 0x00, 0x0d, 0x00, 0x00, 0x00, 0x1b,
    0x6e, 0x6f, 0x20, 0x74, 0x65, 0x72, 0x6d, 0x69, 0x6e, 0x61, 0x74, 0x6f,
    0x72, 0x00, 0x00, 0x00, 0x00, 0x00, 0x00, 0x03, 0x00, 0x00, 0x00, 0x01,
    0x00, 0x00, 0x00, 0x00, 0x01, 0x00, 0x00, 0x00, 0x00, 0x00, 0x00, 0x03,
    0x00, 0x00, 0x00, 0x07, 0x00, 0x00, 0x00, 0x21, 0x6f, 0x6e, 0x65, 0x00,
    0x74, 0x77, 0x6f, 0x00, 0x00, 0x00, 0x00, 0x02, 0x00, 0x00, 0x00, 0x01,
    0x74, 0x69, 0x6d, 0x65, 0x72, 0x00, 0x00, 0x00, 0x00, 0x00, 0x00, 0x03,
    0x00, 0x00, 0x00, 0x05, 0x00, 0x00, 0x00, 0x5d, 0x66, 0x61, 0x69, 0x6c,
    0x00, 0x00, 0x00, 0x00, 0x00, 0x00, 0x00, 0x03, 0x00, 0x00, 0x00, 0x15,
    0x00, 0x00, 0x00, 0x21, 0x67, 0x65, 0x6e, 0x65, 0x72, 0x69, 0x63, 0x00,
    0x76, 0x65, 0x6e, 0x64, 0x6f, 0x72, 0x2c, 0x74, 0x69, 0x6d, 0x65, 0x72,
    0x00, 0x00, 0x00, 0x00, 0x00, 0x00, 0x00, 0x02, 0x00, 0x00, 0x00, 0x02,
    0x00, 0x00, 0x00, 0x02, 0x00, 0x00, 0x00, 0x09, 0x23, 0x61, 0x64, 0x64,
    0x72, 0x65, 0x73, 0x73, 0x2d, 0x63, 0x65, 0x6c, 0x6c, 0x73, 0x00, 0x23,
    0x73, 0x69, 0x7a, 0x65, 0x2d, 0x63, 0x65, 0x6c, 0x6c, 0x73, 0x00, 0x6d,
    0x6f, 0x64, 0x65, 0x6c, 0x00, 0x63, 0x6f, 0x6d, 0x70, 0x61, 0x74, 0x69,
    0x62, 0x6c, 0x65, 0x00, 0x64, 0x65, 0x76, 0x69, 0x63, 0x65, 0x5f, 0x74,
    0x79, 0x70, 0x65, 0x00, 0x72, 0x65, 0x67, 0x00, 0x69, 0x6e, 0x69, 0x74,
    0x69, 0x61, 0x6c, 0x2d, 0x6d, 0x61, 0x70, 0x70, 0x65, 0x64, 0x2d, 0x61,
    0x72, 0x65, 0x61, 0x00, 0x68, 0x6f, 0x74, 0x70, 0x6c, 0x75, 0x67, 0x67,
    0x61, 0x62, 0x6c, 0x65, 0x00, 0x73, 0x74, 0x61, 0x74, 0x75, 0x73, 0x00,
    0x72, 0x61, 0x6e, 0x67, 0x65, 0x73, 0x00, 0x64, 0x6d, 0x61, 0x2d, 0x72,
    0x61, 0x6e, 0x67, 0x65, 0x73, 0x00, 0x64, 0x6d, 0x61, 0x2d, 0x63, 0x6f,
    0x68, 0x65, 0x72, 0x65, 0x6e, 0x74, 0x00, 0x70, 0x68, 0x61, 0x6e, 0x64,
    0x6c, 0x65, 0x00, 0x76, 0x69, 0x72, 0x74, 0x75, 0x61, 0x6c, 0x2d, 0x72,
    0x65, 0x67, 0x00,
];

fn standard() -> Fdt<'static> {
    Fdt::new(&TEST_STANDARD).unwrap()
}

#[test]
fn address_size() {
    let address = [0x12, 0x34, 0x56, 0x78, 0xab, 0xcd, 0x00, 0x00];
    let size = [0x11, 0x22, 0x33, 0x44];
    let reg = Reg {
        address: Cells::new(&address).unwrap(),
        size: Cells::new(&size).unwrap(),
    };
    assert_eq!(
        reg.address::<u32>(),
        Err(StandardError::TooManyCells { cells: 2 })
    );
    assert_eq!(reg.address::<u64>(), Ok(0x1234_5678_abcd_0000));
    assert_eq!(reg.size::<u32>(), Ok(0x1122_3344));
    assert_eq!(reg.size::<u64>(), Ok(0x1122_3344));
}

#[test]
fn range_fields_are_converted() {
    let child_bus_address = [0, 0, 0, 0, 0, 0, 0x40, 0];
    let parent_bus_address = [0xe0, 0, 0, 0];
    let length = [0, 0x10, 0, 0];
    let range = Range {
        child_bus_address: Cells::new(&child_bus_address).unwrap(),
        parent_bus_address: Cells::new(&parent_bus_address).unwrap(),
        length: Cells::new(&length).unwrap(),
    };
    assert_eq!(range.child_bus_address::<u64>(), Ok(0x4000));
    assert_eq!(
        range.child_bus_address::<u32>(),
        Err(StandardError::TooManyCells { cells: 2 })
    );
    assert_eq!(range.parent_bus_address::<u32>(), Ok(0xe000_0000));
    assert_eq!(range.length::<u128>(), Ok(0x10_0000));
}

#[test]
fn status_is_read_from_its_name() {
    assert_eq!(Status::parse("okay"), Ok(Status::Okay));
    assert_eq!(Status::parse("disabled"), Ok(Status::Disabled));
    assert_eq!(Status::parse("reserved"), Ok(Status::Reserved));
    assert_eq!(Status::parse("fail"), Ok(Status::Fail));
    assert_eq!(Status::parse("fail-sss"), Ok(Status::FailSss));
    assert_eq!(Status::parse("disadbled"), Err(StandardError::InvalidStatus));
    assert_eq!(Status::parse(""), Err(StandardError::InvalidStatus));
    assert_eq!("fail".parse::<Status>(), Ok(Status::Fail));
    assert_eq!(Status::default(), Status::Okay);
    for status in [
        Status::Okay,
        Status::Disabled,
        Status::Reserved,
        Status::Fail,
        Status::FailSss,
    ] {
        assert_eq!(Status::parse(status.as_str()), Ok(status));
    }
}

#[test]
fn standard_properties_of_the_root() {
    let root = standard().root();
    assert_eq!(root.model(), Ok(Some("test,model")));
    assert_eq!(root.compatible(), Some(vec!["vendor,board", "generic"]));
    assert!(root.is_compatible("generic"));
    assert!(root.is_compatible("vendor,board"));
    assert!(!root.is_compatible("vendor"));
    assert_eq!(root.address_cells(), Ok(2));
    assert_eq!(root.size_cells(), Ok(1));
    assert_eq!(root.status(), Ok(Status::Okay));
    assert_eq!(root.phandle(), Ok(None));
    assert_eq!(root.virtual_reg(), Ok(None));
    assert!(!root.dma_coherent());
    assert_eq!(root.reg().unwrap(), None);
    assert_eq!(root.ranges().unwrap(), None);
    assert_eq!(root.dma_ranges().unwrap(), None);
}

#[test]
fn standard_properties_have_defaults() {
    let fdt = standard();
    let node = fdt.find_node("/cpus/cpu-map").unwrap();
    assert_eq!(node.model(), Ok(None));
    assert_eq!(node.compatible(), None);
    assert!(!node.is_compatible("generic"));
    assert_eq!(node.address_cells(), Ok(2));
    assert_eq!(node.size_cells(), Ok(1));
    let space = node.address_space();
    assert_eq!((space.address_cells, space.size_cells), (2, 1));
    // The node is a child of `/cpus`, which has one address cell and no
    // size cell.
    let parent = node.parent_address_space();
    assert_eq!((parent.address_cells, parent.size_cells), (1, 0));
}

#[test]
fn standard_properties_of_a_device() {
    let fdt = standard();
    let soc = fdt.find_node("/soc").unwrap();
    assert_eq!(soc.phandle(), Ok(Some(7)));
    assert!(soc.dma_coherent());
    let uart = soc.child("uart").unwrap();
    assert_eq!(uart.name(), "uart@1000");
    assert_eq!(uart.virtual_reg(), Ok(Some(0xf000)));
    assert_eq!(uart.status(), Ok(Status::FailSss));
    assert_eq!(fdt.find_node("/soc/timer").unwrap().status(), Ok(Status::Fail));
    let regs = uart.reg().unwrap().unwrap();
    assert_eq!(regs.len(), 2);
    assert_eq!(regs[0].address::<u32>(), Ok(0x1000));
    assert_eq!(regs[0].size::<u32>(), Ok(0x100));
    assert_eq!(regs[1].address::<u64>(), Ok(0x2000));
    assert_eq!(regs[1].size::<u64>(), Ok(0x200));
}

#[test]
fn standard_properties_with_invalid_values() {
    let fdt = standard();
    let bad = fdt.find_node("/soc/bad").unwrap();
    assert_eq!(bad.status(), Err(StandardError::InvalidStatus));
    assert_eq!(
        bad.phandle(),
        Err(StandardError::PropertyConversion(
            PropertyError::InvalidLength
        ))
    );
    assert_eq!(
        bad.model(),
        Err(StandardError::PropertyConversion(
            PropertyError::InvalidString
        ))
    );
    assert_eq!(
        bad.address_cells(),
        Err(StandardError::PropertyConversion(
            PropertyError::InvalidLength
        ))
    );
    // What cannot be read is replaced by its default.
    assert_eq!(bad.address_space().address_cells, 2);
    assert_eq!(bad.address_space().size_cells, 1);
    // Twelve bytes are no whole number of elements of two cells.
    assert_eq!(
        bad.reg().unwrap_err(),
        StandardError::PropEncodedArraySizeMismatch { size: 12, chunk: 2 }
    );
    // The string list ends before the string without a terminator.
    assert_eq!(bad.compatible(), Some(vec!["one"]));
    assert!(bad.is_compatible("one"));
    assert!(!bad.is_compatible("two"));
}

#[test]
fn ranges_are_split_by_three_address_spaces() {
    let fdt = standard();
    let soc = fdt.find_node("/soc").unwrap();
    let ranges = soc.ranges().unwrap().unwrap();
    assert_eq!(ranges.len(), 1);
    assert_eq!(ranges[0].child_bus_address::<u32>(), Ok(0));
    assert_eq!(ranges[0].parent_bus_address::<u64>(), Ok(0xe000_0000));
    assert_eq!(
        ranges[0].parent_bus_address::<u32>(),
        Err(StandardError::TooManyCells { cells: 2 })
    );
    assert_eq!(ranges[0].length::<u32>(), Ok(0x10_0000));

    let dma = soc.dma_ranges().unwrap().unwrap();
    assert_eq!(dma.len(), 2);
    assert_eq!(dma[0].child_bus_address::<u32>(), Ok(0x4000));
    assert_eq!(dma[0].parent_bus_address::<u64>(), Ok(0x1_8000_0000));
    assert_eq!(dma[0].length::<u32>(), Ok(0x2000));
    assert_eq!(dma[1].child_bus_address::<u32>(), Ok(0x8000));
    assert_eq!(dma[1].parent_bus_address::<u64>(), Ok(0x2_0000_0000));
    assert_eq!(dma[1].length::<u32>(), Ok(0x1000));
}

#[test]
fn find_compatible_keeps_the_order_of_the_children() {
    let fdt = standard();
    let soc = fdt.find_node("/soc").unwrap();
    let names: Vec<_> = soc
        .find_compatible("generic")
        .iter()
        .map(|node| node.name())
        .collect();
    assert_eq!(names, vec!["timer"]);
    let names: Vec<_> = soc
        .find_compatible("ns16550a")
        .iter()
        .map(|node| node.name())
        .collect();
    assert_eq!(names, vec!["uart@1000"]);
    assert!(soc.find_compatible("none").is_empty());
}

#[test]
fn cpus_are_the_children_named_cpu() {
    let fdt = standard();
    let cpus = fdt.cpus().unwrap();
    assert_eq!(cpus.node().name(), "cpus");
    let list = cpus.cpus();
    let names: Vec<_> = list.iter().map(|cpu| cpu.node().name()).collect();
    assert_eq!(names, vec!["cpu@0", "cpu@1", "cpu@2"]);

    let ids = list[1].ids().unwrap();
    assert_eq!(ids.len(), 1);
    assert_eq!(ids[0].to_int::<u32>(), Ok(1));
    assert_eq!(list[1].node().status(), Ok(Status::Disabled));
    assert_eq!(list[2].node().status(), Ok(Status::Reserved));
    assert_eq!(list[2].ids().unwrap_err(), StandardError::CpuMissingReg);
    // The size of a CPU id has no cells.
    let regs = list[0].node().reg().unwrap().unwrap();
    assert_eq!(regs[0].size.len(), 0);
    assert_eq!(regs[0].size::<u32>(), Ok(0));
}

#[test]
fn memory_node_is_found() {
    let fdt = standard();
    let memory = fdt.memory().unwrap();
    assert_eq!(memory.node().name(), "memory@80000000");
    assert!(memory.hotpluggable());
    assert_eq!(
        memory.initial_mapped_area(),
        Ok(Some(vec![InitialMappedArea {
            effective_address: 0x1000,
            physical_address: 0x2000,
            size: 0x3000,
        }]))
    );
    let regs = memory.node().reg().unwrap().unwrap();
    assert_eq!(regs[0].address::<u64>(), Ok(0x8000_0000));
    assert_eq!(regs[0].size::<u32>(), Ok(0x1000_0000));
}

#[test]
fn missing_standard_nodes_are_reported() {
    let dtb = DeviceTree::new().to_dtb();
    let fdt = Fdt::new(&dtb).unwrap();
    assert_eq!(fdt.cpus().unwrap_err(), StandardError::CpusMissing);
    assert_eq!(fdt.memory().unwrap_err(), StandardError::MemoryMissing);
}

#[test]
fn memory_of_an_owned_tree() {
    let node = DeviceTreeNode::builder("memory")
        .property(DeviceTreeProperty::new(
            "initial-mapped-area",
            vec![0, 0, 0, 1, 0, 0, 0, 2, 0, 0, 0, 3, 0, 0, 0, 4, 0, 0, 0, 5],
        ))
        .build();
    let memory = Memory::new(&node);
    assert!(!memory.hotpluggable());
    assert_eq!(
        memory.initial_mapped_area(),
        Ok(Some(vec![InitialMappedArea {
            effective_address: 0x1_0000_0002,
            physical_address: 0x3_0000_0004,
            size: 5,
        }]))
    );
    let short = DeviceTreeNode::builder("memory")
        .property(DeviceTreeProperty::new("initial-mapped-area", vec![0; 8]))
        .build();
    assert_eq!(
        Memory::new(&short).initial_mapped_area(),
        Err(StandardError::PropEncodedArraySizeMismatch { size: 8, chunk: 5 })
    );
    let none = DeviceTreeNode::new("memory");
    assert_eq!(Memory::new(&none).initial_mapped_area(), Ok(None));
}

#[test]
fn owned_nodes_have_the_standard_properties() {
    let node = DeviceTreeNode::builder("uart@1000")
        .property(DeviceTreeProperty::new("status", b"disabled\0".to_vec()))
        .property(DeviceTreeProperty::new("phandle", vec![0, 0, 0, 9]))
        .property(DeviceTreeProperty::new(
            "compatible",
            b"a,b\0c\0".to_vec(),
        ))
        .build();
    let node = &node;
    assert_eq!(Node::name(&node), "uart@1000");
    assert_eq!(node.name_without_address(), "uart");
    assert_eq!(node.status(), Ok(Status::Disabled));
    assert_eq!(node.phandle(), Ok(Some(9)));
    assert!(node.is_compatible("c"));
    assert_eq!(Node::property(&node, "phandle").unwrap().as_u32(), Ok(9));
    assert!(Node::children(&node).is_empty());
    assert_eq!(Node::properties(&node).len(), 3);
}
