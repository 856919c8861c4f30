use dtoolkit::error::FdtErrorKind;
use dtoolkit::fdt::Fdt;
use dtoolkit::{Node, Property};

const FDT_HEADER_OK: &[u8] = &[
    0xd0, 0x0d, 0xfe, 0xed, // magic
    0x00, 0x00, 0x00, 0x3c, // totalsize = 60
    0x00, 0x00, 0x00, 0x38, // off_dt_struct = 56
    0x00, 0x00, 0x00, 0x3c, // off_dt_strings = 60
    0x00, 0x00, 0x00, 0x28, // off_mem_rsvmap = 40
    0x00, 0x00, 0x00, 0x11, // version = 17
    0x00, 0x00, 0x00, 0x10, // last_comp_version = 16
    0x00, 0x00, 0x00, 0x00, // boot_cpuid_phys = 0
    0x00, 0x00, 0x00, 0x00, // size_dt_strings = 0
    0x00, 0x00, 0x00, 0x04, // size_dt_struct = 4
    0x00, 0x00, 0x00, 0x00, // memory reservation
    0x00, 0x00, 0x00, 0x00, // ...
    0x00, 0x00, 0x00, 0x00, // ...
    0x00, 0x00, 0x00, 0x00, // ...
    0x00, 0x00, 0x00, 0x09, // dt struct
];

/// `/ { child1 { }; child2@42 { }; };`
const TEST_CHILDREN: [u8; 108] = [
    0xd0, 0x0d, 0xfe, 0xed, 0x00, 0x00, 0x00, 0x6c, 0x00, 0x00, 0x00, 0x38,
    0x00, 0x00, 0x00, 0x6c, 0x00, 0x00, 0x00, 0x28, 0x00, 0x00, 0x00, 0x11,
    0x00, 0x00, 0x00, 0x10, 0x00, 0x00, 0x00, 0x00, 0x00, 0x00, 0x00, 0x00,
    0x00, 0x00, 0x00, 0x34, 0x00, 0x00, 0x00, 0x00, 0x00, 0x00, 0x00, 0x00,
    0x00, 0x00, 0x00, 0x00, 0x00, 0x00, 0x00, 0x00, 0x00, 0x00, 0x00, 0x01,
    0x00, 0x00, 0x00, 0x00, 0x00, 0x00, 0x00, 0x01, 0x63, 0x68, 0x69, 0x6c,
    0x64, 0x31, 0x00, 0x00, 0x00, 0x00, 0x00, 0x02, 0x00, 0x00, 0x00, 0x01,
    0x63, 0x68, 0x69, 0x6c, 0x64, 0x32, 0x40, 0x34, 0x32, 0x00, 0x00, 0x00,
    0x00, 0x00, 0x00, 0x02, 0x00, 0x00, 0x00, 0x02, 0x00, 0x00, 0x00, 0x09,
];

/// `/ { test-props { u32-prop = <0x12345678>; u64-prop = <0x11223344 0x55667788>;
/// str-prop = "hello world"; str-list-prop = "first", "second", "third"; }; };`
const TEST_PROPS: [u8; 225] = [
    0xd0, 0x0d, 0xfe, 0xed, 0x00, 0x00, 0x00, 0xe1, 0x00, 0x00, 0x00, 0x38,
    0x00, 0x00, 0x00, 0xb8, 0x00, 0x00, 0x00, 0x28, 0x00, 0x00, 0x00, 0x11,
    0x00, 0x00, 0x00, 0x10, 0x00, 0x00, 0x00, 0x00, 0x00, 0x00, 0x00, 0x29,
    0x00, 0x00, 0x00, 0x80, 0x00, 0x00, 0x00, 0x00, 0x00, 0x00, 0x00, 0x00,
    0x00, 0x00, 0x00, 0x00, 0x00, 0x00, 0x00, 0x00, 0x00, 0x00, 0x00, 0x01,
    0x00, 0x00, 0x00, 0x00, 0x00, 0x00, 0x00, 0x01, 0x74, 0x65, 0x73, 0x74,
    0x2d, 0x70, 0x72, 0x6f, 0x70, 0x73, 0x00, 0x00, 0x00, 0x00, 0x00, 0x03,
    0x00, 0x00, 0x00, 0x04, 0x00, 0x00, 0x00, 0x00, 0x12, 0x34, 0x56, 0x78,
    0x00, 0x00, 0x00, 0x03, 0x00, 0x00, 0x00, 0x08, 0x00, 0x00, 0x00, 0x09,
    0x11, 0x22, 0x33, 0x44, 0x55, 0x66, 0x77, 0x88, 0x00, 0x00, 0x00, 0x03,
    0x00, 0x00, 0x00, 0x0c, 0x00, 0x00, 0x00, 0x12, 0x68, 0x65, 0x6c, 0x6c,
    0x6f, 0x20, 0x77, 0x6f, 0x72, 0x6c, 0x64, 0x00, 0x00, 0x00, 0x00, 0x03,
    0x00, 0x00, 0x00, 0x13, 0x00, 0x00, 0x00, 0x1b, 0x66, 0x69, 0x72, 0x73,
    0x74, 0x00, 0x73, 0x65, 0x63, 0x6f, 0x6e, 0x64, 0x00, 0x74, 0x68, 0x69,
    0x72, 0x64, 0x00, 0x00, 0x00, 0x00, 0x00, 0x02, 0x00, 0x00, 0x00, 0x02,
    0x00, 0x00, 0x00, 0x09, 0x75, 0x33, 0x32, 0x2d, 0x70, 0x72, 0x6f, 0x70,
    0x00, 0x75, 0x36, 0x34, 0x2d, 0x70, 0x72, 0x6f, 0x70, 0x00, 0x73, 0x74,
    0x72, 0x2d, 0x70, 0x72, 0x6f, 0x70, 0x00, 0x73, 0x74, 0x72, 0x2d, 0x6c,
    0x69, 0x73, 0x74, 0x2d, 0x70, 0x72, 0x6f, 0x70, 0x00,
];

/// `/ { child1 { prop1 = <1>; child2 { prop2 = <2>; }; }; child3 { prop3 = <3>; }; };`
const TEST_CHILDREN_NESTED: [u8; 186] = [
    0xd0, 0x0d, 0xfe, 0xed, 0x00, 0x00, 0x00, 0xba, 0x00, 0x00, 0x00, 0x38,
    0x00, 0x00, 0x00, 0xa8, 0x00, 0x00, 0x00, 0x28, 0x00, 0x00, 0x00, 0x11,
    0x00, 0x00, 0x00, 0x10, 0x00, 0x00, 0x00, 0x00, 0x00, 0x00, 0x00, 0x12,
    0x00, 0x00, 0x00, 0x70, 0x00, 0x00, 0x00, 0x00, 0x00, 0x00, 0x00, 0x00,
    0x00, 0x00, 0x00, 0x00, 0x00, 0x00, 0x00, 0x00, 0x00, 0x00, 0x00, 0x01,
    0x00, 0x00, 0x00, 0x00, 0x00, 0x00, 0x00, 0x01, 0x63, 0x68, 0x69, 0x6c,
    0x64, 0x31, 0x00, 0x00, 0x00, 0x00, 0x00, 0x03, 0x00, 0x00, 0x00, 0x04,
    0x00, 0x00, 0x00, 0x00, 0x00, 0x00, 0x00, 0x01, 0x00, 0x00, 0x00, 0x01,
    0x63, 0x68, 0x69, 0x6c, 0x64, 0x32, 0x00, 0x00, 0x00, 0x00, 0x00, 0x03,
    0x00, 0x00, 0x00, 0x04, 0x00, 0x00, 0x00, 0x06, 0x00, 0x00, 0x00, 0x02,
    0x00, 0x00, 0x00, 0x02, 0x00, 0x00, 0x00, 0x02, 0x00, 0x00, 0x00, 0x01,
    0x63, 0x68, 0x69, 0x6c, 0x64, 0x33, 0x00, 0x00, 0x00, 0x00, 0x00, 0x03,
    0x00, 0x00, 0x00, 0x04, 0x00, 0x00, 0x00, 0x0c, 0x00, 0x00, 0x00, 0x03,
    0x00, 0x00, 0x00, 0x02, 0x00, 0x00, 0x00, 0x02, 0x00, 0x00, 0x00, 0x09,
    0x70, 0x72, 0x6f, 0x70, 0x31, 0x00, 0x70, 0x72, 0x6f, 0x70, 0x32, 0x00,
    0x70, 0x72, 0x6f, 0x70, 0x33, 0x00,
];

/// `/ { a { b { c { }; }; }; d { }; };`
const TEST_TRAVERSAL: [u8; 120] = [
    0xd0, 0x0d, 0xfe, 0xed, 0x00, 0x00, 0x00, 0x78, 0x00, 0x00, 0x00, 0x38,
    0x00, 0x00, 0x00, 0x78, 0x00, 0x00, 0x00, 0x28, 0x00, 0x00, 0x00, 0x11,
    0x00, 0x00, 0x00, 0x10, 0x00, 0x00, 0x00, 0x00, 0x00, 0x00, 0x00, 0x00,
    0x00, 0x00, 0x00, 0x40, 0x00, 0x00, 0x00, 0x00, 0x00, 0x00, 0x00, 0x00,
    0x00, 0x00, 0x00, 0x00, 0x00, 0x00, 0x00, 0x00, 0x00, 0x00, 0x00, 0x01,
    0x00, 0x00, 0x00, 0x00, 0x00, 0x00, 0x00, 0x01, 0x61, 0x00, 0x00, 0x00,
    0x00, 0x00, 0x00, 0x01, 0x62, 0x00, 0x00, 0x00, 0x00, 0x00, 0x00, 0x01,
    0x63, 0x00, 0x00, 0x00, 0x00, 0x00, 0x00, 0x02, 0x00, 0x00, 0x00, 0x02,
    0x00, 0x00, 0x00, 0x02, 0x00, 0x00, 0x00, 0x01, 0x64, 0x00, 0x00, 0x00,
    0x00, 0x00, 0x00, 0x02, 0x00, 0x00, 0x00, 0x02, 0x00, 0x00, 0x00, 0x09,
];

#[test]
fn header_is_parsed_correctly() {
    let fdt = Fdt::new(FDT_HEADER_OK).unwrap();
    let header = fdt.header();

    assert_eq!(header.totalsize(), 60);
    assert_eq!(header.off_dt_struct(), 56);
    assert_eq!(header.off_dt_strings(), 60);
    assert_eq!(header.off_mem_rsvmap(), 40);
    assert_eq!(header.version(), 17);
    assert_eq!(header.last_comp_version(), 16);
    assert_eq!(header.boot_cpuid_phys(), 0);
    assert_eq!(header.size_dt_strings(), 0);
    assert_eq!(header.size_dt_struct(), 4);
}

#[test]
fn invalid_magic() {
    let mut header = FDT_HEADER_OK.to_vec();
    header[0] = 0x00;
    let result = Fdt::new(&header);
    assert!(matches!(result, Err(e) if matches!(e.kind, FdtErrorKind::InvalidMagic)));
}

#[test]
fn invalid_length() {
    let header = &FDT_HEADER_OK[..10];
    let result = Fdt::new(header);
    assert!(matches!(result, Err(e) if matches!(e.kind, FdtErrorKind::InvalidLength)));
}

#[test]
fn unsupported_version() {
    let mut header = FDT_HEADER_OK.to_vec();
    header[23] = 0x10;
    let result = Fdt::new(&header);
    assert!(matches!(result, Err(e) if matches!(e.kind, FdtErrorKind::UnsupportedVersion(16))));
}

#[test]
fn read_child_nodes() {
    let fdt = Fdt::new(&TEST_CHILDREN).unwrap();
    let root = fdt.root();
    let children = root.children();
    let mut children = children.iter();

    let child1 = children.next().unwrap();
    assert_eq!(child1.name(), "child1");
    assert_eq!(child1.name_without_address(), "child1");

    let child3 = children.next().unwrap();
    assert_eq!(child3.name(), "child2@42");
    assert_eq!(child3.name_without_address(), "child2");

    assert!(children.next().is_none());
}

#[test]
fn read_prop_values() {
    let fdt = Fdt::new(&TEST_PROPS).unwrap();
    let root = fdt.root();
    let children = root.children();
    let mut children = children.iter();
    let node = children.next().unwrap();
    assert_eq!(node.name(), "test-props");

    let props = node.properties();
    let mut props = props.iter();

    let prop = props.next().unwrap();
    assert_eq!(prop.name(), "u32-prop");
    assert_eq!(prop.as_u32().unwrap(), 0x1234_5678);

    let prop = props.next().unwrap();
    assert_eq!(prop.name(), "u64-prop");
    assert_eq!(prop.as_u64().unwrap(), 0x1122_3344_5566_7788);

    let prop = props.next().unwrap();
    assert_eq!(prop.name(), "str-prop");
    assert_eq!(prop.as_str().unwrap(), "hello world");

    let prop = props.next().unwrap();
    assert_eq!(prop.name(), "str-list-prop");
    let str_list = prop.as_str_list();
    let mut str_list = str_list.iter().copied();
    assert_eq!(str_list.next(), Some("first"));
    assert_eq!(str_list.next(), Some("second"));
    assert_eq!(str_list.next(), Some("third"));
    assert_eq!(str_list.next(), None);

    assert!(props.next().is_none());
}

#[test]
fn get_property_by_name() {
    let fdt = Fdt::new(&TEST_PROPS).unwrap();
    let root = fdt.root();
    let node = root.child("test-props").unwrap();

    let prop = node.property("u32-prop").unwrap();
    assert_eq!(prop.name(), "u32-prop");
    assert_eq!(prop.as_u32().unwrap(), 0x1234_5678);

    let prop = node.property("str-prop").unwrap();
    assert_eq!(prop.name(), "str-prop");
    assert_eq!(prop.as_str().unwrap(), "hello world");

    assert!(node.property("non-existent-prop").is_none());
}

#[test]
fn get_child_by_name() {
    let fdt = Fdt::new(&TEST_CHILDREN).unwrap();
    let root = fdt.root();

    let child1 = root.child("child1").unwrap();
    assert_eq!(child1.name(), "child1");

    let child2 = root.child("child2").unwrap();
    assert_eq!(child2.name(), "child2@42");

    let child2_with_address = root.child("child2@42").unwrap();
    assert_eq!(child2_with_address.name(), "child2@42");

    assert!(root.child("non-existent-child").is_none());
}

#[test]
fn children_nested() {
    let fdt = Fdt::new(&TEST_CHILDREN_NESTED).unwrap();
    let root = fdt.root();

    for child in root.children() {
        println!("{}", child.name());
    }

    let children_names: Vec<_> = root
        .children()
        .iter()
        .map(|child| child.name())
        .collect();
    assert_eq!(children_names, vec!["child1", "child3"]);

    let child1 = root.child("child1").unwrap();
    let child2 = child1.child("child2").unwrap();
    let nested_properties: Vec<_> = child2
        .properties()
        .iter()
        .map(|prop| prop.name().to_owned())
        .collect();
    assert_eq!(nested_properties, vec!["prop2"]);
}

#[test]
fn find_node_by_path() {
    let fdt = Fdt::new(&TEST_TRAVERSAL).unwrap();

    let root = fdt.find_node("/").unwrap();
    assert_eq!(root.name(), "");

    let a = fdt.find_node("/a").unwrap();
    assert_eq!(a.name(), "a");

    let b = fdt.find_node("/a/b").unwrap();
    assert_eq!(b.name(), "b");

    let c = fdt.find_node("/a/b/c").unwrap();
    assert_eq!(c.name(), "c");

    let d = fdt.find_node("/d").unwrap();
    assert_eq!(d.name(), "d");

    assert!(fdt.find_node("/a/c").is_none());
    assert!(fdt.find_node("/x").is_none());
    assert!(fdt.find_node("").is_none());
}

#[test]
fn accepted_blobs_have_a_consistent_header() {
    for blob in [
        &TEST_CHILDREN[..],
        &TEST_PROPS[..],
        &TEST_CHILDREN_NESTED[..],
        &TEST_TRAVERSAL[..],
        FDT_HEADER_OK,
    ] {
        let fdt = Fdt::new(blob).unwrap();
        let header = fdt.header();
        assert_eq!(header.magic(), 0xd00d_feed);
        assert_eq!(header.totalsize() as usize, blob.len());
        assert!(header.last_comp_version() <= 17 && 17 <= header.version());
        assert!(header.off_mem_rsvmap() <= header.off_dt_struct());
        assert!(header.off_dt_struct() + header.size_dt_struct() <= header.off_dt_strings());
        assert!(header.off_dt_strings() + header.size_dt_strings() <= header.totalsize());
        assert_eq!(header.off_mem_rsvmap() % 8, 0);
        assert_eq!(header.off_dt_struct() % 4, 0);
    }
}

#[test]
fn path_of_a_walk_is_found_again_in_a_blob() {
    for blob in [
        &TEST_CHILDREN[..],
        &TEST_PROPS[..],
        &TEST_CHILDREN_NESTED[..],
        &TEST_TRAVERSAL[..],
    ] {
        let fdt = Fdt::new(blob).unwrap();
        let mut stack = vec![(String::new(), fdt.root())];
        let mut seen = 0;
        while let Some((path, node)) = stack.pop() {
            let lookup = if path.is_empty() { "/" } else { path.as_str() };
            let found = fdt.find_node(lookup).unwrap();
            assert_eq!(found.offset(), node.offset());
            assert_eq!(found.name(), node.name());
            seen += 1;
            for child in node.children() {
                stack.push((format!("{}/{}", path, child.name()), child));
            }
        }
        assert!(seen > 1);
    }
}
