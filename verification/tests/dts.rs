use dtoolkit::fdt::Fdt;
use dtoolkit::model::{DeviceTree, DeviceTreeNode, DeviceTreeProperty};
use dtoolkit::standard::{Range, Reg};
use dtoolkit::{Cells, Node};

const TEST_CHILDREN: [u8; 108] = [
    0xd0, 0x0d, 0xfe, 0xed, 0x00, 0x00, 0x00, 0x6c, 0x00, 0x00, 0x00, 0x38,
    0x00, 0x00, 0x00, 0x6c, 0x00, 0x00, 0x00, 0x28, 0x00, 0x00, 0x00, 0x11,
    0x00, 0x00, 0x00, 0x10, 0x00, 0x00, 0x00, 0x00, 0x00, 0x00, 0x00, 0x00,
    0x00, 0x00, 0x00, 0x34, 0x00, 0x00, 0x00, 0x00, 0x00, 0x00, 0x00, 0x00,
    0x00, 0x00, 0x00, 0x00, 0x00, 0x00, 0x00, 0x00, 0x00, 0x00, 0x00, 0x01,
    0x00, 0x00, 0x00, 0x00, 0x00, 0x00, 0x00, 0x01, 0x63, 0x68, 0x69, 0x6c,
    0x64, 0x31, 0x00, 0x00, 0x00, 0x00, 0x00, 0x02, 0x00, 0x00, 0x00, 0x01,
    0x63, 0x68, 0x69, 0x6c, 0x64, 0x32, 0x40, 0x34, 0x32, 0x00, 0x00, 0x00,
    0x00, 0x00, 0x00, 0x02, 0x00, 0x00, 0x00, 0x02, 0x00, 0x00, 0x00, 0x09,
];

const TEST_PROPS: [u8; 225] = [
    0xd0, 0x0d, 0xfe, 0xed, 0x00, 0x00, 0x00, 0xe1, 0x00, 0x00, 0x00, 0x38,
    0x00, 0x00, 0x00, 0xb8, 0x00, 0x00, 0x00, 0x28, 0x00, 0x00, 0x00, 0x11,
    0x00, 0x00, 0x00, 0x10, 0x00, 0x00, 0x00, 0x00, 0x00, 0x00, 0x00, 0x29,
    0x00, 0x00, 0x00, 0x80, 0x00, 0x00, 0x00, 0x00, 0x00, 0x00, 0x00, 0x00,
    0x00, 0x00, 0x00, 0x00, 0x00, 0x00, 0x00, 0x00, 0x00, 0x00, 0x00, 0x01,
    0x00, 0x00, 0x00, 0x00, 0x00, 0x00, 0x00, 0x01, 0x74, 0x65, 0x73, 0x74,
    0x2d, 0x70, 0x72, 0x6f, 0x70, 0x73, 0x00, 0x00, 0x00, 0x00, 0x00, 0x03,
    0x00, 0x00, 0x00, 0x04, 0x00, 0x00, 0x00, 0x00, 0x12, 0x34, 0x56, 0x78,
    0x00, 0x00, 0x00, 0x03, 0x00, 0x00, 0x00, 0x08, 0x00, 0x00, 0x00, 0x09,
    0x11, 0x22, 0x33, 0x44, 0x55, 0x66, 0x77, 0x88, 0x00, 0x00, 0x00, 0x03,
    0x00, 0x00, 0x00, 0x0c, 0x00, 0x00, 0x00, 0x12, 0x68, 0x65, 0x6c, 0x6c,
    0x6f, 0x20, 0x77, 0x6f, 0x72, 0x6c, 0x64, 0x00, 0x00, 0x00, 0x00, 0x03,
    0x00, 0x00, 0x00, 0x13, 0x00, 0x00, 0x00, 0x1b, 0x66, 0x69, 0x72, 0x73,
    0x74, 0x00, 0x73, 0x65, 0x63, 0x6f, 0x6e, 0x64, 0x00, 0x74, 0x68, 0x69,
    0x72, 0x64, 0x00, 0x00, 0x00, 0x00, 0x00, 0x02, 0x00, 0x00, 0x00, 0x02,
    0x00, 0x00, 0x00, 0x09, 0x75, 0x33, 0x32, 0x2d, 0x70, 0x72, 0x6f, 0x70,
    0x00, 0x75, 0x36, 0x34, 0x2d, 0x70, 0x72, 0x6f, 0x70, 0x00, 0x73, 0x74,
    0x72, 0x2d, 0x70, 0x72, 0x6f, 0x70, 0x00, 0x73, 0x74, 0x72, 0x2d, 0x6c,
    0x69, 0x73, 0x74, 0x2d, 0x70, 0x72, 0x6f, 0x70, 0x00,
];

const TEST_CHILDREN_NESTED: [u8; 186] = [
    0xd0, 0x0d, 0xfe, 0xed, 0x00, 0x00, 0x00, 0xba, 0x00, 0x00, 0x00, 0x38,
    0x00, 0x00, 0x00, 0xa8, 0x00, 0x00, 0x00, 0x28, 0x00, 0x00, 0x00, 0x11,
    0x00, 0x00, 0x00, 0x10, 0x00, 0x00, 0x00, 0x00, 0x00, 0x00, 0x00, 0x12,
    0x00, 0x00, 0x00, 0x70, 0x00, 0x00, 0x00, 0x00, 0x00, 0x00, 0x00, 0x00,
    0x00, 0x00, 0x00, 0x00, 0x00, 0x00, 0x00, 0x00, 0x00, 0x00, 0x00, 0x01,
    0x00, 0x00, 0x00, 0x00, 0x00, 0x00, 0x00, 0x01, 0x63, 0x68, 0x69, 0x6c,
    0x64, 0x31, 0x00, 0x00, 0x00, 0x00, 0x00, 0x03, 0x00, 0x00, 0x00, 0x04,
    0x00, 0x00, 0x00, 0x00, 0x00, 0x00, 0x00, 0x01, 0x00, 0x00, 0x00, 0x01,
    0x63, 0x68, 0x69, 0x6c, 0x64, 0x32, 0x00, 0x00, 0x00, 0x00, 0x00, 0x03,
    0x00, 0x00, 0x00, 0x04, 0x00, 0x00, 0x00, 0x06, 0x00, 0x00, 0x00, 0x02,
    0x00, 0x00, 0x00, 0x02, 0x00, 0x00, 0x00, 0x02, 0x00, 0x00, 0x00, 0x01,
    0x63, 0x68, 0x69, 0x6c, 0x64, 0x33, 0x00, 0x00, 0x00, 0x00, 0x00, 0x03,
    0x00, 0x00, 0x00, 0x04, 0x00, 0x00, 0x00, 0x0c, 0x00, 0x00, 0x00, 0x03,
    0x00, 0x00, 0x00, 0x02, 0x00, 0x00, 0x00, 0x02, 0x00, 0x00, 0x00, 0x09,
    0x70, 0x72, 0x6f, 0x70, 0x31, 0x00, 0x70, 0x72, 0x6f, 0x70, 0x32, 0x00,
    0x70, 0x72, 0x6f, 0x70, 0x33, 0x00,
];

const TEST_TRAVERSAL: [u8; 120] = [
    0xd0, 0x0d, 0xfe, 0xed, 0x00, 0x00, 0x00, 0x78, 0x00, 0x00, 0x00, 0x38,
    0x00, 0x00, 0x00, 0x78, 0x00, 0x00, 0x00, 0x28, 0x00, 0x00, 0x00, 0x11,
    0x00, 0x00, 0x00, 0x10, 0x00, 0x00, 0x00, 0x00, 0x00, 0x00, 0x00, 0x00,
    0x00, 0x00, 0x00, 0x40, 0x00, 0x00, 0x00, 0x00, 0x00, 0x00, 0x00, 0x00,
    0x00, 0x00, 0x00, 0x00, 0x00, 0x00, 0x00, 0x00, 0x00, 0x00, 0x00, 0x01,
    0x00, 0x00, 0x00, 0x00, 0x00, 0x00, 0x00, 0x01, 0x61, 0x00, 0x00, 0x00,
    0x00, 0x00, 0x00, 0x01, 0x62, 0x00, 0x00, 0x00, 0x00, 0x00, 0x00, 0x01,
    0x63, 0x00, 0x00, 0x00, 0x00, 0x00, 0x00, 0x02, 0x00, 0x00, 0x00, 0x02,
    0x00, 0x00, 0x00, 0x02, 0x00, 0x00, 0x00, 0x01, 0x64, 0x00, 0x00, 0x00,
    0x00, 0x00, 0x00, 0x02, 0x00, 0x00, 0x00, 0x02, 0x00, 0x00, 0x00, 0x09,
];

const TEST_MEMRESERVE: [u8; 104] = [
    0xd0, 0x0d, 0xfe, 0xed, 0x00, 0x00, 0x00, 0x68, 0x00, 0x00, 0x00, 0x58,
    0x00, 0x00, 0x00, 0x68, 0x00, 0x00, 0x00, 0x28, 0x00, 0x00, 0x00, 0x11,
    0x00, 0x00, 0x00, 0x10, 0x00, 0x00, 0x00, 0x00, 0x00, 0x00, 0x00, 0x00,
    0x00, 0x00, 0x00, 0x10, 0x00, 0x00, 0x00, 0x00, 0x00, 0x00, 0x10, 0x00,
    0x00, 0x00, 0x00, 0x00, 0x00, 0x00, 0x01, 0x00, 0x00, 0x00, 0x00, 0x00,
    0x00, 0x00, 0x20, 0x00, 0x00, 0x00, 0x00, 0x00, 0x00, 0x00, 0x02, 0x00,
    0x00, 0x00, 0x00, 0x00, 0x00, 0x00, 0x00, 0x00, 0x00, 0x00, 0x00, 0x00,
    0x00, 0x00, 0x00, 0x00, 0x00, 0x00, 0x00, 0x01, 0x00, 0x00, 0x00, 0x00,
    0x00, 0x00, 0x00, 0x02, 0x00, 0x00, 0x00, 0x09,
];

const TEST_PRETTY_PRINT: [u8; 414] = [
    0xd0, 0x0d, 0xfe, 0xed, 0x00, 0x00, 0x01, 0x9e, 0x00, 0x00, 0x00, 0x58,
    0x00, 0x00, 0x01, 0x60, 0x00, 0x00, 0x00, 0x28, 0x00, 0x00, 0x00, 0x11,
    0x00, 0x00, 0x00, 0x10, 0x00, 0x00, 0x00, 0x00, 0x00, 0x00, 0x00, 0x3e,
    0x00, 0x00, 0x01, 0x08, 0x00, 0x00, 0x00, 0x00, 0x00, 0x00, 0x00, 0x00,
    0x00, 0x00, 0x00, 0x00, 0x00, 0x00, 0x00, 0x10, 0xff, 0xff, 0xff, 0xff,
    0xff, 0xff, 0xff, 0xff, 0x00, 0x00, 0x00, 0x00, 0x00, 0x00, 0x00, 0x01,
    0x00, 0x00, 0x00, 0x00, 0x00, 0x00, 0x00, 0x00, 0x00, 0x00, 0x00, 0x00,
    0x00, 0x00, 0x00, 0x00, 0x00, 0x00, 0x00, 0x01, 0x00, 0x00, 0x00, 0x00,
    0x00, 0x00, 0x00, 0x03, 0x00, 0x00, 0x00, 0x0d, 0x00, 0x00, 0x00, 0x00,
    0x70, 0x72, 0x65, 0x74, 0x74, 0x79, 0x2c, 0x70, 0x72, 0x69, 0x6e, 0x74,
    0x00, 0x00, 0x00, 0x00, 0x00, 0x00, 0x00, 0x03, 0x00, 0x00, 0x00, 0x04,
    0x00, 0x00, 0x00, 0x06, 0x00, 0x00, 0x00, 0x02, 0x00, 0x00, 0x00, 0x01,
    0x6e, 0x6f, 0x64, 0x65, 0x40, 0x30, 0x00, 0x00, 0x00, 0x00, 0x00, 0x03,
    0x00, 0x00, 0x00, 0x03, 0x00, 0x00, 0x00, 0x15, 0x01, 0x02, 0x03, 0x00,
    0x00, 0x00, 0x00, 0x03, 0x00, 0x00, 0x00, 0x00, 0x00, 0x00, 0x00, 0x1b,
    0x00, 0x00, 0x00, 0x03, 0x00, 0x00, 0x00, 0x0c, 0x00, 0x00, 0x00, 0x21,
    0x00, 0x00, 0x00, 0x00, 0xde, 0xad, 0xbe, 0xef, 0x00, 0x00, 0x00, 0x10,
    0x00, 0x00, 0x00, 0x03, 0x00, 0x00, 0x00, 0x06, 0x00, 0x00, 0x00, 0x27,
    0x61, 0x20, 0x62, 0x00, 0x63, 0x00, 0x00, 0x00, 0x00, 0x00, 0x00, 0x03,
    0x00, 0x00, 0x00, 0x04, 0x00, 0x00, 0x00, 0x2c, 0x61, 0x62, 0x00, 0x00,
    0x00, 0x00, 0x00, 0x03, 0x00, 0x00, 0x00, 0x05, 0x00, 0x00, 0x00, 0x30,
    0x00, 0x00, 0x00, 0x00, 0x00, 0x00, 0x00, 0x00, 0x00, 0x00, 0x00, 0x03,
    0x00, 0x00, 0x00, 0x01, 0x00, 0x00, 0x00, 0x36, 0x00, 0x00, 0x00, 0x00,
    0x00, 0x00, 0x00, 0x01, 0x6c, 0x65, 0x61, 0x66, 0x00, 0x00, 0x00, 0x00,
    0x00, 0x00, 0x00, 0x02, 0x00, 0x00, 0x00, 0x01, 0x6f, 0x74, 0x68, 0x65,
    0x72, 0x00, 0x00, 0x00, 0x00, 0x00, 0x00, 0x03, 0x00, 0x00, 0x00, 0x04,
    0x00, 0x00, 0x00, 0x3c, 0x00, 0x00, 0x00, 0x05, 0x00, 0x00, 0x00, 0x02,
    0x00, 0x00, 0x00, 0x02, 0x00, 0x00, 0x00, 0x01, 0x6c, 0x61, 0x73, 0x74,
    0x00, 0x00, 0x00, 0x00, 0x00, 0x00, 0x00, 0x02, 0x00, 0x00, 0x00, 0x02,
    0x00, 0x00, 0x00, 0x09, 0x6d, 0x6f, 0x64, 0x65, 0x6c, 0x00, 0x23, 0x61,
    0x64, 0x64, 0x72, 0x65, 0x73, 0x73, 0x2d, 0x63, 0x65, 0x6c, 0x6c, 0x73,
    0x00, 0x62, 0x79, 0x74, 0x65, 0x73, 0x00, 0x65, 0x6d, 0x70, 0x74, 0x79,
    0x00, 0x77, 0x6f, 0x72, 0x64, 0x73, 0x00, 0x74, 0x65, 0x78, 0x74, 0x00,
    0x6f, 0x64, 0x64, 0x00, 0x7a, 0x65, 0x72, 0x6f, 0x73, 0x00, 0x62, 0x6c,
    0x61, 0x6e, 0x6b, 0x00, 0x78, 0x00,
];

const ALL_DT_FILES: &[(&[u8], &str, &str)] = &[
    (
        &TEST_CHILDREN_NESTED,
        "/dts-v1/;\n\n/ {\n    child1 {\n        prop1 = <0x01>;\n\n        child2 {\n            prop2 = <0x02>;\n        };\n    };\n\n    child3 {\n        prop3 = <0x03>;\n    };\n};\n",
        "test_children_nested",
    ),
    (
        &TEST_CHILDREN,
        "/dts-v1/;\n\n/ {\n    child1 {\n    };\n\n    child2@42 {\n    };\n};\n",
        "test_children",
    ),
    (
        &TEST_MEMRESERVE,
        "/dts-v1/;\n/memreserve/ 0x1000 0x100;\n/memreserve/ 0x2000 0x200;\n\n/ {\n};\n",
        "test_memreserve",
    ),
    (
        &TEST_PRETTY_PRINT,
        "/dts-v1/;\n/memreserve/ 0x0 0x10;\n/memreserve/ 0xffffffffffffffff 0x1;\n\n/ {\n    model = \"pretty,print\";\n    #address-cells = <0x02>;\n\n    node@0 {\n        bytes = [01 02 03];\n        empty;\n        words = <0x00 0xdeadbeef 0x10>;\n        text = \"a b\", \"c\";\n        odd = <0x61620000>;\n        zeros = [00 00 00 00 00];\n        blank = \"\";\n\n        leaf {\n        };\n\n        other {\n            x = <0x05>;\n        };\n    };\n\n    last {\n    };\n};\n",
        "test_pretty_print",
    ),
    (
        &TEST_PROPS,
        "/dts-v1/;\n\n/ {\n    test-props {\n        u32-prop = <0x12345678>;\n        u64-prop = <0x11223344 0x55667788>;\n        str-prop = \"hello world\";\n        str-list-prop = \"first\", \"second\", \"third\";\n    };\n};\n",
        "test_props",
    ),
    (
        &TEST_TRAVERSAL,
        "/dts-v1/;\n\n/ {\n    a {\n        b {\n            c {\n            };\n        };\n    };\n\n    d {\n    };\n};\n",
        "test_traversal",
    ),
];

#[test]
fn pretty_print() {
    for (dtb, expected_dts, name) in ALL_DT_FILES {
        let fdt = Fdt::new(dtb).unwrap();
        let s = fdt.to_string();
        let expected = expected_dts
            // account for Windows newlines, if needed
            .replace("\r\n", "\n");
        assert_eq!(s, expected, "Mismatch for {name}");
    }
}

#[test]
fn format_range() {
    let child_bus_address = [0x00, 0x00, 0x00, 0x00, 0x00, 0x00, 0x40, 0x00];
    let parent_bus_address = [0xe0, 0x00, 0x00, 0x00];
    let length = [0x00, 0x10, 0x00, 0x00];
    let range = Range {
        child_bus_address: Cells::new(&child_bus_address).unwrap(),
        parent_bus_address: Cells::new(&parent_bus_address).unwrap(),
        length: Cells::new(&length).unwrap(),
    };
    assert_eq!(
        range.to_string(),
        "0x0000000000004000 0xe0000000 0x00100000"
    );
}

#[test]
fn format_reg() {
    let address = [0x12, 0x34, 0x56, 0x78, 0xab, 0xcd, 0x00, 0x00];
    let size = [0x11, 0x22, 0x33, 0x44];
    let reg = Reg {
        address: Cells::new(&address).unwrap(),
        size: Cells::new(&size).unwrap(),
    };
    assert_eq!(reg.to_string(), "0x12345678abcd0000 0x11223344");
}

#[test]
fn cells_are_shown_as_one_number() {
    assert_eq!(Cells::default().to_string(), "0x");
    assert_eq!(Cells::new(&[0, 0, 0, 0]).unwrap().to_string(), "0x00000000");
    assert_eq!(
        Cells::new(&[0xff, 0xfe, 0x0d, 0x01, 0, 0, 0, 0x0a])
            .unwrap()
            .to_string(),
        "0xfffe0d010000000a"
    );
    assert_eq!(Reg::default().to_string(), "0x 0x");
    assert_eq!(Range::default().to_string(), "0x 0x 0x");
}

#[test]
fn nodes_and_properties_are_shown_alone() {
    let fdt = Fdt::new(&TEST_PRETTY_PRINT).unwrap();
    let node = fdt.find_node("/node@0/other").unwrap();
    assert_eq!(node.to_string(), "other {\n    x = <0x05>;\n};\n");
    let props = fdt.root().properties();
    assert_eq!(props[0].to_string(), "model = \"pretty,print\";\n");
    assert_eq!(props[1].to_string(), "#address-cells = <0x02>;\n");
}

#[test]
fn the_empty_tree_is_shown_as_a_root() {
    let blob = [
        0xd0, 0x0d, 0xfe, 0xed, 0x00, 0x00, 0x00, 0x3c, 0x00, 0x00, 0x00, 0x38, 0x00, 0x00,
        0x00, 0x3c, 0x00, 0x00, 0x00, 0x28, 0x00, 0x00, 0x00, 0x11, 0x00, 0x00, 0x00, 0x10,
        0x00, 0x00, 0x00, 0x00, 0x00, 0x00, 0x00, 0x00, 0x00, 0x00, 0x00, 0x04, 0x00, 0x00,
        0x00, 0x00, 0x00, 0x00, 0x00, 0x00, 0x00, 0x00, 0x00, 0x00, 0x00, 0x00, 0x00, 0x00,
        0x00, 0x00, 0x00, 0x09,
    ];
    let fdt = Fdt::new(&blob).unwrap();
    assert_eq!(fdt.to_string(), "/dts-v1/;\n\n/ {\n};\n");
}

#[test]
fn owned_trees_are_shown_through_their_blob() {
    let mut tree = DeviceTree::new();
    tree.root.add_child(
        DeviceTreeNode::builder("child")
            .property(DeviceTreeProperty::new("my-property", b"hello\0".to_vec()))
            .build(),
    );
    assert_eq!(
        tree.to_string().unwrap(),
        "/dts-v1/;\n\n/ {\n    child {\n        my-property = \"hello\";\n    };\n};\n"
    );
    // A name with a zero byte cuts the structure block short.
    let mut broken = DeviceTree::new();
    broken.root.add_child(DeviceTreeNode::new("a\0\0\0\0\0\0"));
    assert_eq!(broken.to_string(), None);
}
