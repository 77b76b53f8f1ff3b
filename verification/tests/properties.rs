use cros_fdt::Error;
use cros_fdt::Fdt;
use cros_fdt::FdtNode;
use cros_fdt::FdtPropval;
use cros_fdt::FdtReserveEntry;
use cros_fdt::align_pad_len;
use cros_fdt::is_valid_node_name;
use cros_fdt::is_valid_prop_name;
use cros_fdt::propval_to_bytes;

fn be32_at(blob: &[u8], off: usize) -> u32 {
    ((blob[off] as u32) << 24)
        | ((blob[off + 1] as u32) << 16)
        | ((blob[off + 2] as u32) << 8)
        | (blob[off + 3] as u32)
}

fn sample_tree() -> Fdt {
    let mut fdt = Fdt::new(&[FdtReserveEntry::new(0x1000, 0x200)]);
    let root = fdt.root_mut();
    root.set_prop("model", FdtPropval::Str("sample".to_string()))
        .unwrap();
    root.set_prop("#address-cells", FdtPropval::U32(2)).unwrap();
    let chosen = root.subnode_mut("chosen").unwrap();
    chosen
        .set_prop("bootargs", FdtPropval::Str("console=hvc0".to_string()))
        .unwrap();
    let memory = root.subnode_mut("memory@0").unwrap();
    memory
        .set_prop("reg", FdtPropval::U64Array(vec![0, 0x4000_0000]))
        .unwrap();
    fdt
}

#[test]
fn finish_is_deterministic() {
    let mut fdt = sample_tree();
    let first = fdt.finish().unwrap();
    let second = fdt.finish().unwrap();
    assert_eq!(first, second);
}

#[test]
fn sibling_order_does_not_matter() {
    let mut a = Fdt::new(&[]);
    {
        let root = a.root_mut();
        root.set_prop("alpha", FdtPropval::U32(1)).unwrap();
        root.set_prop("beta", FdtPropval::U32(2)).unwrap();
        root.subnode_mut("left").unwrap();
        root.subnode_mut("right").unwrap();
    }
    let mut b = Fdt::new(&[]);
    {
        let root = b.root_mut();
        root.subnode_mut("right").unwrap();
        root.subnode_mut("left").unwrap();
        root.set_prop("beta", FdtPropval::U32(2)).unwrap();
        root.set_prop("alpha", FdtPropval::U32(1)).unwrap();
    }
    assert_eq!(a.finish().unwrap(), b.finish().unwrap());
}

#[test]
fn repeated_set_prop_overwrites_in_place() {
    let mut a = Fdt::new(&[]);
    a.root_mut().set_prop("x", FdtPropval::U32(1)).unwrap();
    a.root_mut().set_prop("x", FdtPropval::U32(2)).unwrap();
    let mut b = Fdt::new(&[]);
    b.root_mut().set_prop("x", FdtPropval::U32(2)).unwrap();
    assert_eq!(a.finish().unwrap(), b.finish().unwrap());
}

#[test]
fn subnode_mut_is_idempotent() {
    let mut a = Fdt::new(&[]);
    {
        let root = a.root_mut();
        root.subnode_mut("child").unwrap().set_prop("p", FdtPropval::U32(7)).unwrap();
        root.subnode_mut("child").unwrap().set_prop("q", FdtPropval::U32(8)).unwrap();
    }
    let mut b = Fdt::new(&[]);
    {
        let root = b.root_mut();
        let child = root.subnode_mut("child").unwrap();
        child.set_prop("p", FdtPropval::U32(7)).unwrap();
        child.set_prop("q", FdtPropval::U32(8)).unwrap();
    }
    assert_eq!(a.finish().unwrap(), b.finish().unwrap());
}

#[test]
fn block_boundaries_are_aligned() {
    let mut fdt = sample_tree();
    let blob = fdt.finish().unwrap();
    let off_dt_struct = be32_at(&blob, 0x08) as usize;
    let off_dt_strings = be32_at(&blob, 0x0c) as usize;
    let off_mem_rsvmap = be32_at(&blob, 0x10) as usize;
    assert_eq!(off_mem_rsvmap % 8, 0);
    assert_eq!(off_dt_struct % 8, 0);
    assert_eq!(off_mem_rsvmap % 4, 0);
    assert_eq!(off_dt_struct % 4, 0);
    assert_eq!(off_dt_strings % 4, 0);
}

#[test]
fn header_sizes_account_for_every_byte() {
    let mut fdt = sample_tree();
    let blob = fdt.finish().unwrap();
    let total_size = be32_at(&blob, 0x04) as usize;
    let off_dt_struct = be32_at(&blob, 0x08) as usize;
    let off_dt_strings = be32_at(&blob, 0x0c) as usize;
    let size_dt_strings = be32_at(&blob, 0x20) as usize;
    let size_dt_struct = be32_at(&blob, 0x24) as usize;
    assert_eq!(total_size, blob.len());
    assert_eq!(size_dt_strings + off_dt_strings, total_size);
    assert_eq!(off_dt_strings - off_dt_struct, size_dt_struct);
}

#[test]
fn bad_property_name_is_rejected() {
    let mut fdt = Fdt::new(&[]);
    let err = fdt
        .root_mut()
        .set_prop("bad name!", FdtPropval::U32(0))
        .unwrap_err();
    assert!(matches!(err, Error::InvalidName(s) if s == "bad name!"));
}

#[test]
fn bad_node_name_is_rejected() {
    let mut fdt = Fdt::new(&[]);
    let err = fdt.root_mut().subnode_mut("a\u{0}b").unwrap_err();
    assert!(matches!(err, Error::InvalidName(s) if s == "a\u{0}b"));
}

#[test]
fn embedded_terminator_in_string_value_is_rejected() {
    let mut fdt = Fdt::new(&[]);
    let err = fdt
        .root_mut()
        .set_prop("ok-name", FdtPropval::Str("em\0bedded".to_string()))
        .unwrap_err();
    assert!(matches!(err, Error::InvalidString(s) if s == "em\0bedded"));
}

#[test]
fn rejected_operations_leave_the_tree_unchanged() {
    let mut fdt = sample_tree();
    let before = fdt.finish().unwrap();
    assert!(fdt.root_mut().set_prop("bad name!", FdtPropval::U32(0)).is_err());
    assert!(fdt.root_mut().subnode_mut("bad!").is_err());
    assert!(fdt
        .root_mut()
        .set_prop("s", FdtPropval::Str("a\0b".to_string()))
        .is_err());
    assert_eq!(fdt.finish().unwrap(), before);
}

#[test]
fn name_validators_follow_the_grammar() {
    assert!(is_valid_prop_name("compatible"));
    assert!(is_valid_prop_name("#address-cells"));
    assert!(is_valid_prop_name("a.b,c_d+e?f-0"));
    assert!(!is_valid_prop_name("has space"));
    assert!(!is_valid_prop_name("at@sign"));
    assert!(!is_valid_prop_name("nul\0name"));
    assert!(is_valid_node_name(""));
    assert!(is_valid_node_name("cpu@0"));
    assert!(is_valid_node_name("a.b,c_d+e-f"));
    assert!(!is_valid_node_name("two@at@signs"));
    assert!(!is_valid_node_name("query?"));
    assert!(!is_valid_node_name("nul\0name"));
}

#[test]
fn propval_encodings_are_exact() {
    assert_eq!(propval_to_bytes(&FdtPropval::Null).unwrap(), Vec::<u8>::new());
    assert_eq!(
        propval_to_bytes(&FdtPropval::U32(0x11223344)).unwrap(),
        [0x11, 0x22, 0x33, 0x44]
    );
    assert_eq!(
        propval_to_bytes(&FdtPropval::U64(0x1122334455667788)).unwrap(),
        [0x11, 0x22, 0x33, 0x44, 0x55, 0x66, 0x77, 0x88]
    );
    assert_eq!(
        propval_to_bytes(&FdtPropval::U32Array(vec![1, 2])).unwrap(),
        [0, 0, 0, 1, 0, 0, 0, 2]
    );
    assert_eq!(
        propval_to_bytes(&FdtPropval::U64Array(vec![3])).unwrap(),
        [0, 0, 0, 0, 0, 0, 0, 3]
    );
    assert_eq!(
        propval_to_bytes(&FdtPropval::Str("hi".to_string())).unwrap(),
        [b'h', b'i', 0]
    );
    assert_eq!(
        propval_to_bytes(&FdtPropval::StrList(vec!["hi".to_string(), "bye".to_string()]))
            .unwrap(),
        [b'h', b'i', 0, b'b', b'y', b'e', 0]
    );
    let err = propval_to_bytes(&FdtPropval::StrList(vec![
        "ok".to_string(),
        "a\0b".to_string(),
    ]))
    .unwrap_err();
    assert!(matches!(err, Error::InvalidString(s) if s == "a\0b"));
}

#[test]
fn node_constructor_validates_and_sorts() {
    let node = FdtNode::new(
        "cpu@1",
        vec![
            ("b-prop".to_string(), vec![1u8]),
            ("a-prop".to_string(), vec![2u8]),
        ],
        Vec::new(),
    )
    .unwrap();
    assert_eq!(node.name, b"cpu@1".to_vec());
    assert_eq!(
        node.props,
        vec![
            (b"a-prop".to_vec(), vec![2u8]),
            (b"b-prop".to_vec(), vec![1u8]),
        ]
    );
    let err = FdtNode::new("bad name", Vec::new(), Vec::new()).unwrap_err();
    assert!(matches!(err, Error::InvalidName(s) if s == "bad name"));
    let err = FdtNode::new(
        "fine",
        vec![("bad prop".to_string(), vec![])],
        Vec::new(),
    )
    .unwrap_err();
    assert!(matches!(err, Error::InvalidName(s) if s == "bad prop"));
}

#[test]
fn boot_cpuid_lands_in_the_header() {
    let mut fdt = Fdt::new(&[]);
    fdt.set_boot_cpuid_phys(0xdeadbeef);
    let blob = fdt.finish().unwrap();
    assert_eq!(be32_at(&blob, 0x1c), 0xdeadbeef);
}

#[test]
fn alignment_padding_is_minimal() {
    assert_eq!(align_pad_len(0, 4), 0);
    assert_eq!(align_pad_len(1, 4), 3);
    assert_eq!(align_pad_len(4, 4), 0);
    assert_eq!(align_pad_len(41, 8), 7);
    assert_eq!(align_pad_len(48, 8), 0);
}
