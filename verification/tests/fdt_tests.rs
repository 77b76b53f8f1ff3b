use cros_fdt::Fdt;
use cros_fdt::FdtPropval;
use cros_fdt::FdtReserveEntry;

#[test]
fn minimal() {
    let mut fdt = Fdt::new(&[]);
    assert_eq!(
        fdt.finish().unwrap(),
        [
            0xd0, 0x0d, 0xfe, 0xed, // 0000: magic (0xd00dfeed)
            0x00, 0x00, 0x00, 0x48, // 0004: totalsize (0x48)
            0x00, 0x00, 0x00, 0x38, // 0008: off_dt_struct (0x38)
            0x00, 0x00, 0x00, 0x48, // 000C: off_dt_strings (0x48)
            0x00, 0x00, 0x00, 0x28, // 0010: off_mem_rsvmap (0x28)
            0x00, 0x00, 0x00, 0x11, // 0014: version (0x11 = 17)
            0x00, 0x00, 0x00, 0x10, // 0018: last_comp_version (0x10 = 16)
            0x00, 0x00, 0x00, 0x00, // 001C: boot_cpuid_phys (0)
            0x00, 0x00, 0x00, 0x00, // 0020: size_dt_strings (0)
            0x00, 0x00, 0x00, 0x10, // 0024: size_dt_struct (0x10)
            0x00, 0x00, 0x00, 0x00, // 0028: rsvmap terminator (address = 0 high)
            0x00, 0x00, 0x00, 0x00, // 002C: rsvmap terminator (address = 0 low)
            0x00, 0x00, 0x00, 0x00, // 0030: rsvmap terminator (size = 0 high)
            0x00, 0x00, 0x00, 0x00, // 0034: rsvmap terminator (size = 0 low)
            0x00, 0x00, 0x00, 0x01, // 0038: FDT_BEGIN_NODE
            0x00, 0x00, 0x00, 0x00, // 003C: node name ("") + padding
            0x00, 0x00, 0x00, 0x02, // 0040: FDT_END_NODE
            0x00, 0x00, 0x00, 0x09, // 0044: FDT_END
        ]
    );
}

#[test]
fn reservemap() {
    let mut fdt = Fdt::new(&[
        FdtReserveEntry {
            address: 0x12345678AABBCCDD,
            size: 0x1234,
        },
        FdtReserveEntry {
            address: 0x1020304050607080,
            size: 0x5678,
        },
    ]);
    assert_eq!(
        fdt.finish().unwrap(),
        [
            0xd0, 0x0d, 0xfe, 0xed, // 0000: magic (0xd00dfeed)
            0x00, 0x00, 0x00, 0x68, // 0004: totalsize (0x68)
            0x00, 0x00, 0x00, 0x58, // 0008: off_dt_struct (0x58)
            0x00, 0x00, 0x00, 0x68, // 000C: off_dt_strings (0x68)
            0x00, 0x00, 0x00, 0x28, // 0010: off_mem_rsvmap (0x28)
            0x00, 0x00, 0x00, 0x11, // 0014: version (0x11 = 17)
            0x00, 0x00, 0x00, 0x10, // 0018: last_comp_version (0x10 = 16)
            0x00, 0x00, 0x00, 0x00, // 001C: boot_cpuid_phys (0)
            0x00, 0x00, 0x00, 0x00, // 0020: size_dt_strings (0)
            0x00, 0x00, 0x00, 0x10, // 0024: size_dt_struct (0x10)
            0x12, 0x34, 0x56, 0x78, // 0028: rsvmap entry 0 address high
            0xAA, 0xBB, 0xCC, 0xDD, // 002C: rsvmap entry 0 address low
            0x00, 0x00, 0x00, 0x00, // 0030: rsvmap entry 0 size high
            0x00, 0x00, 0x12, 0x34, // 0034: rsvmap entry 0 size low
            0x10, 0x20, 0x30, 0x40, // 0038: rsvmap entry 1 address high
            0x50, 0x60, 0x70, 0x80, // 003C: rsvmap entry 1 address low
            0x00, 0x00, 0x00, 0x00, // 0040: rsvmap entry 1 size high
            0x00, 0x00, 0x56, 0x78, // 0044: rsvmap entry 1 size low
            0x00, 0x00, 0x00, 0x00, // 0048: rsvmap terminator (address = 0 high)
            0x00, 0x00, 0x00, 0x00, // 004C: rsvmap terminator (address = 0 low)
            0x00, 0x00, 0x00, 0x00, // 0050: rsvmap terminator (size = 0 high)
            0x00, 0x00, 0x00, 0x00, // 0054: rsvmap terminator (size = 0 low)
            0x00, 0x00, 0x00, 0x01, // 0058: FDT_BEGIN_NODE
            0x00, 0x00, 0x00, 0x00, // 005C: node name ("") + padding
            0x00, 0x00, 0x00, 0x02, // 0060: FDT_END_NODE
            0x00, 0x00, 0x00, 0x09, // 0064: FDT_END
        ]
    );
}

#[test]
fn prop_null() {
    let mut fdt = Fdt::new(&[]);
    let root_node = fdt.root_mut();
    root_node.set_prop("null", FdtPropval::Null).unwrap();
    assert_eq!(
        fdt.finish().unwrap(),
        [
            0xd0, 0x0d, 0xfe, 0xed, // 0000: magic (0xd00dfeed)
            0x00, 0x00, 0x00, 0x59, // 0004: totalsize (0x59)
            0x00, 0x00, 0x00, 0x38, // 0008: off_dt_struct (0x38)
            0x00, 0x00, 0x00, 0x54, // 000C: off_dt_strings (0x54)
            0x00, 0x00, 0x00, 0x28, // 0010: off_mem_rsvmap (0x28)
            0x00, 0x00, 0x00, 0x11, // 0014: version (0x11 = 17)
            0x00, 0x00, 0x00, 0x10, // 0018: last_comp_version (0x10 = 16)
            0x00, 0x00, 0x00, 0x00, // 001C: boot_cpuid_phys (0)
            0x00, 0x00, 0x00, 0x05, // 0020: size_dt_strings (0x05)
            0x00, 0x00, 0x00, 0x1c, // 0024: size_dt_struct (0x1C)
            0x00, 0x00, 0x00, 0x00, // 0028: rsvmap terminator (address = 0 high)
            0x00, 0x00, 0x00, 0x00, // 002C: rsvmap terminator (address = 0 low)
            0x00, 0x00, 0x00, 0x00, // 0030: rsvmap terminator (size = 0 high)
            0x00, 0x00, 0x00, 0x00, // 0034: rsvmap terminator (size = 0 low)
            0x00, 0x00, 0x00, 0x01, // 0038: FDT_BEGIN_NODE
            0x00, 0x00, 0x00, 0x00, // 003C: node name ("") + padding
            0x00, 0x00, 0x00, 0x03, // 0040: FDT_PROP
            0x00, 0x00, 0x00, 0x00, // 0044: prop len (0)
            0x00, 0x00, 0x00, 0x00, // 0048: prop nameoff (0)
            0x00, 0x00, 0x00, 0x02, // 004C: FDT_END_NODE
            0x00, 0x00, 0x00, 0x09, // 0050: FDT_END
            b'n', b'u', b'l', b'l', 0x00, // 0054: strings block
        ]
    );
}

#[test]
fn prop_u32() {
    let mut fdt = Fdt::new(&[]);
    let root_node = fdt.root_mut();
    root_node.set_prop("u32", FdtPropval::U32(0x12345678)).unwrap();
    assert_eq!(
        fdt.finish().unwrap(),
        [
            0xd0, 0x0d, 0xfe, 0xed, // 0000: magic (0xd00dfeed)
            0x00, 0x00, 0x00, 0x5c, // 0004: totalsize (0x5C)
            0x00, 0x00, 0x00, 0x38, // 0008: off_dt_struct (0x38)
            0x00, 0x00, 0x00, 0x58, // 000C: off_dt_strings (0x58)
            0x00, 0x00, 0x00, 0x28, // 0010: off_mem_rsvmap (0x28)
            0x00, 0x00, 0x00, 0x11, // 0014: version (0x11 = 17)
            0x00, 0x00, 0x00, 0x10, // 0018: last_comp_version (0x10 = 16)
            0x00, 0x00, 0x00, 0x00, // 001C: boot_cpuid_phys (0)
            0x00, 0x00, 0x00, 0x04, // 0020: size_dt_strings (0x04)
            0x00, 0x00, 0x00, 0x20, // 0024: size_dt_struct (0x20)
            0x00, 0x00, 0x00, 0x00, // 0028: rsvmap terminator (address = 0 high)
            0x00, 0x00, 0x00, 0x00, // 002C: rsvmap terminator (address = 0 low)
            0x00, 0x00, 0x00, 0x00, // 0030: rsvmap terminator (size = 0 high)
            0x00, 0x00, 0x00, 0x00, // 0034: rsvmap terminator (size = 0 low)
            0x00, 0x00, 0x00, 0x01, // 0038: FDT_BEGIN_NODE
            0x00, 0x00, 0x00, 0x00, // 003C: node name ("") + padding
            0x00, 0x00, 0x00, 0x03, // 0040: FDT_PROP
            0x00, 0x00, 0x00, 0x04, // 0044: prop len (4)
            0x00, 0x00, 0x00, 0x00, // 0048: prop nameoff (0)
            0x12, 0x34, 0x56, 0x78, // 004C: prop u32 value (0x12345678)
            0x00, 0x00, 0x00, 0x02, // 0050: FDT_END_NODE
            0x00, 0x00, 0x00, 0x09, // 0054: FDT_END
            b'u', b'3', b'2', 0x00, // 0058: strings block
        ]
    );
}

#[test]
fn all_props() {
    let mut fdt = Fdt::new(&[]);
    let root_node = fdt.root_mut();
    root_node
        .set_prop(
            "arru32",
            FdtPropval::U32Array(vec![0x12345678u32, 0xAABBCCDDu32]),
        )
        .unwrap();
    root_node
        .set_prop("arru64", FdtPropval::U64Array(vec![0x1234567887654321u64]))
        .unwrap();
    root_node.set_prop("null", FdtPropval::Null).unwrap();
    root_node
        .set_prop("str", FdtPropval::Str("hello".to_string()))
        .unwrap();
    root_node
        .set_prop(
            "strlst",
            FdtPropval::StrList(vec!["hi".to_string(), "bye".to_string()]),
        )
        .unwrap();
    root_node.set_prop("u32", FdtPropval::U32(0x12345678)).unwrap();
    root_node
        .set_prop("u64", FdtPropval::U64(0x1234567887654321))
        .unwrap();
    assert_eq!(
        fdt.finish().unwrap(),
        [
            0xd0, 0x0d, 0xfe, 0xed, // 0000: magic (0xd00dfeed)
            0x00, 0x00, 0x00, 0xee, // 0004: totalsize (0xEE)
            0x00, 0x00, 0x00, 0x38, // 0008: off_dt_struct (0x38)
            0x00, 0x00, 0x00, 0xc8, // 000C: off_dt_strings (0xC8)
            0x00, 0x00, 0x00, 0x28, // 0010: off_mem_rsvmap (0x28)
            0x00, 0x00, 0x00, 0x11, // 0014: version (0x11 = 17)
            0x00, 0x00, 0x00, 0x10, // 0018: last_comp_version (0x10 = 16)
            0x00, 0x00, 0x00, 0x00, // 001C: boot_cpuid_phys (0)
            0x00, 0x00, 0x00, 0x26, // 0020: size_dt_strings (0x26)
            0x00, 0x00, 0x00, 0x90, // 0024: size_dt_struct (0x90)
            0x00, 0x00, 0x00, 0x00, // 0028: rsvmap terminator (address = 0 high)
            0x00, 0x00, 0x00, 0x00, // 002C: rsvmap terminator (address = 0 low)
            0x00, 0x00, 0x00, 0x00, // 0030: rsvmap terminator (size = 0 high)
            0x00, 0x00, 0x00, 0x00, // 0034: rsvmap terminator (size = 0 low)
            0x00, 0x00, 0x00, 0x01, // 0038: FDT_BEGIN_NODE
            0x00, 0x00, 0x00, 0x00, // 003C: node name ("") + padding
            0x00, 0x00, 0x00, 0x03, // 0040: FDT_PROP (u32 array)
            0x00, 0x00, 0x00, 0x08, // 0044: prop len (8)
            0x00, 0x00, 0x00, 0x00, // 0048: prop nameoff (0x00)
            0x12, 0x34, 0x56, 0x78, // 004C: prop value 0
            0xAA, 0xBB, 0xCC, 0xDD, // 0050: prop value 1
            0x00, 0x00, 0x00, 0x03, // 0054: FDT_PROP (u64 array)
            0x00, 0x00, 0x00, 0x08, // 0058: prop len (8)
            0x00, 0x00, 0x00, 0x07, // 005C: prop nameoff (0x07)
            0x12, 0x34, 0x56, 0x78, // 0060: prop u64 value 0 high
            0x87, 0x65, 0x43, 0x21, // 0064: prop u64 value 0 low
            0x00, 0x00, 0x00, 0x03, // 0068: FDT_PROP (null)
            0x00, 0x00, 0x00, 0x00, // 006C: prop len (0)
            0x00, 0x00, 0x00, 0x0E, // 0070: prop nameoff (0x0e)
            0x00, 0x00, 0x00, 0x03, // 0074: FDT_PROP (string)
            0x00, 0x00, 0x00, 0x06, // 0078: prop len (6)
            0x00, 0x00, 0x00, 0x13, // 007C: prop nameoff (0x13)
            b'h', b'e', b'l', b'l', // 0080: prop str value ("hello") + padding
            b'o', 0x00, 0x00, 0x00, // 0084: "o\0" + padding
            0x00, 0x00, 0x00, 0x03, // 0088: FDT_PROP (string list)
            0x00, 0x00, 0x00, 0x07, // 008C: prop len (7)
            0x00, 0x00, 0x00, 0x17, // 0090: prop nameoff (0x17)
            b'h', b'i', 0x00, b'b', // 0094: prop value ("hi", "bye")
            b'y', b'e', 0x00, 0x00, // 0098: "ye\0" + padding
            0x00, 0x00, 0x00, 0x03, // 009C: FDT_PROP (u32)
            0x00, 0x00, 0x00, 0x04, // 00A0: prop len (4)
            0x00, 0x00, 0x00, 0x1E, // 00A4: prop nameoff (0x1E)
            0x12, 0x34, 0x56, 0x78, // 00A8: prop u32 value (0x12345678)
            0x00, 0x00, 0x00, 0x03, // 00AC: FDT_PROP (u64)
            0x00, 0x00, 0x00, 0x08, // 00B0: prop len (8)
            0x00, 0x00, 0x00, 0x22, // 00B4: prop nameoff (0x22)
            0x12, 0x34, 0x56, 0x78, // 00B8: prop u64 value high (0x12345678)
            0x87, 0x65, 0x43, 0x21, // 00BC: prop u64 value low (0x87654321)
            0x00, 0x00, 0x00, 0x02, // 00C0: FDT_END_NODE
            0x00, 0x00, 0x00, 0x09, // 00C4: FDT_END
            b'a', b'r', b'r', b'u', b'3', b'2', 0x00, // 00C8: strings + 0x00: "arru32"
            b'a', b'r', b'r', b'u', b'6', b'4', 0x00, // 00CF: strings + 0x07: "arru64"
            b'n', b'u', b'l', b'l', 0x00, // 00D6: strings + 0x0E: "null"
            b's', b't', b'r', 0x00, // 00DB: strings + 0x13: "str"
            b's', b't', b'r', b'l', b's', b't', 0x00, // 00DF: strings + 0x17: "strlst"
            b'u', b'3', b'2', 0x00, // 00E6: strings + 0x1E: "u32"
            b'u', b'6', b'4', 0x00, // 00EA: strings + 0x22: "u64"
        ]
    );
}

#[test]
fn nested_nodes() {
    let mut fdt = Fdt::new(&[]);
    let root_node = fdt.root_mut();
    root_node.set_prop("abc", FdtPropval::U32(0x13579024)).unwrap();
    let nested_node = root_node.subnode_mut("nested").unwrap();
    nested_node.set_prop("def", FdtPropval::U32(0x12121212)).unwrap();
    assert_eq!(
        fdt.finish().unwrap(),
        [
            0xd0, 0x0d, 0xfe, 0xed, // 0000: magic (0xd00dfeed)
            0x00, 0x00, 0x00, 0x80, // 0004: totalsize (0x80)
            0x00, 0x00, 0x00, 0x38, // 0008: off_dt_struct (0x38)
            0x00, 0x00, 0x00, 0x78, // 000C: off_dt_strings (0x78)
            0x00, 0x00, 0x00, 0x28, // 0010: off_mem_rsvmap (0x28)
            0x00, 0x00, 0x00, 0x11, // 0014: version (0x11 = 17)
            0x00, 0x00, 0x00, 0x10, // 0018: last_comp_version (0x10 = 16)
            0x00, 0x00, 0x00, 0x00, // 001C: boot_cpuid_phys (0)
            0x00, 0x00, 0x00, 0x08, // 0020: size_dt_strings (0x08)
            0x00, 0x00, 0x00, 0x40, // 0024: size_dt_struct (0x40)
            0x00, 0x00, 0x00, 0x00, // 0028: rsvmap terminator (address = 0 high)
            0x00, 0x00, 0x00, 0x00, // 002C: rsvmap terminator (address = 0 low)
            0x00, 0x00, 0x00, 0x00, // 0030: rsvmap terminator (size = 0 high)
            0x00, 0x00, 0x00, 0x00, // 0034: rsvmap terminator (size = 0 low)
            0x00, 0x00, 0x00, 0x01, // 0038: FDT_BEGIN_NODE
            0x00, 0x00, 0x00, 0x00, // 003C: node name ("") + padding
            0x00, 0x00, 0x00, 0x03, // 0040: FDT_PROP
            0x00, 0x00, 0x00, 0x04, // 0044: prop len (4)
            0x00, 0x00, 0x00, 0x00, // 0048: prop nameoff (0x00)
            0x13, 0x57, 0x90, 0x24, // 004C: prop u32 value (0x13579024)
            0x00, 0x00, 0x00, 0x01, // 0050: FDT_BEGIN_NODE
            b'n', b'e', b's', b't', // 0054: Node name ("nested")
            b'e', b'd', 0x00, 0x00, // 0058: "ed\0" + pad
            0x00, 0x00, 0x00, 0x03, // 005C: FDT_PROP
            0x00, 0x00, 0x00, 0x04, // 0060: prop len (4)
            0x00, 0x00, 0x00, 0x04, // 0064: prop nameoff (0x04)
            0x12, 0x12, 0x12, 0x12, // 0068: prop u32 value (0x12121212)
            0x00, 0x00, 0x00, 0x02, // 006C: FDT_END_NODE ("nested")
            0x00, 0x00, 0x00, 0x02, // 0070: FDT_END_NODE ("")
            0x00, 0x00, 0x00, 0x09, // 0074: FDT_END
            b'a', b'b', b'c', 0x00, // 0078: strings + 0x00: "abc"
            b'd', b'e', b'f', 0x00, // 007C: strings + 0x04: "def"
        ]
    );
}

#[test]
fn prop_name_string_reuse() {
    let mut fdt = Fdt::new(&[]);
    let root_node = fdt.root_mut();
    root_node.set_prop("abc", FdtPropval::U32(0x13579024)).unwrap();
    let nested = root_node.subnode_mut("nested").unwrap();
    nested.set_prop("abc", FdtPropval::U32(0x12121212)).unwrap(); // This should reuse the "abc" string.
    nested.set_prop("def", FdtPropval::U32(0x12121212)).unwrap();
    assert_eq!(
        fdt.finish().unwrap(),
        [
            0xd0, 0x0d, 0xfe, 0xed, // 0000: magic (0xd00dfeed)
            0x00, 0x00, 0x00, 0x90, // 0004: totalsize (0x90)
            0x00, 0x00, 0x00, 0x38, // 0008: off_dt_struct (0x38)
            0x00, 0x00, 0x00, 0x88, // 000C: off_dt_strings (0x88)
            0x00, 0x00, 0x00, 0x28, // 0010: off_mem_rsvmap (0x28)
            0x00, 0x00, 0x00, 0x11, // 0014: version (0x11 = 17)
            0x00, 0x00, 0x00, 0x10, // 0018: last_comp_version (0x10 = 16)
            0x00, 0x00, 0x00, 0x00, // 001C: boot_cpuid_phys (0)
            0x00, 0x00, 0x00, 0x08, // 0020: size_dt_strings (0x08)
            0x00, 0x00, 0x00, 0x50, // 0024: size_dt_struct (0x50)
            0x00, 0x00, 0x00, 0x00, // 0028: rsvmap terminator (address = 0 high)
            0x00, 0x00, 0x00, 0x00, // 002C: rsvmap terminator (address = 0 low)
            0x00, 0x00, 0x00, 0x00, // 0030: rsvmap terminator (size = 0 high)
            0x00, 0x00, 0x00, 0x00, // 0034: rsvmap terminator (size = 0 low)
            0x00, 0x00, 0x00, 0x01, // 0038: FDT_BEGIN_NODE
            0x00, 0x00, 0x00, 0x00, // 003C: node name ("") + padding
            0x00, 0x00, 0x00, 0x03, // 0040: FDT_PROP
            0x00, 0x00, 0x00, 0x04, // 0044: prop len (4)
            0x00, 0x00, 0x00, 0x00, // 0048: prop nameoff (0x00)
            0x13, 0x57, 0x90, 0x24, // 004C: prop u32 value (0x13579024)
            0x00, 0x00, 0x00, 0x01, // 0050: FDT_BEGIN_NODE
            b'n', b'e', b's', b't', // 0054: Node name ("nested")
            b'e', b'd', 0x00, 0x00, // 0058: "ed\0" + pad
            0x00, 0x00, 0x00, 0x03, // 005C: FDT_PROP
            0x00, 0x00, 0x00, 0x04, // 0060: prop len (4)
            0x00, 0x00, 0x00, 0x00, // 0064: prop nameoff (0x00 - reuse)
            0x12, 0x12, 0x12, 0x12, // 0068: prop u32 value (0x12121212)
            0x00, 0x00, 0x00, 0x03, // 006C: FDT_PROP
            0x00, 0x00, 0x00, 0x04, // 0070: prop len (4)
            0x00, 0x00, 0x00, 0x04, // 0074: prop nameoff (0x04)
            0x12, 0x12, 0x12, 0x12, // 0078: prop u32 value (0x12121212)
            0x00, 0x00, 0x00, 0x02, // 007C: FDT_END_NODE ("nested")
            0x00, 0x00, 0x00, 0x02, // 0080: FDT_END_NODE ("")
            0x00, 0x00, 0x00, 0x09, // 0084: FDT_END
            b'a', b'b', b'c', 0x00, // 0088: strings + 0x00: "abc"
            b'd', b'e', b'f', 0x00, // 008C: strings + 0x04: "def"
        ]
    );
}

#[test]
fn invalid_node_name_nul() {
    let mut fdt = Fdt::new(&[]);
    let root_node = fdt.root_mut();
    root_node
        .subnode_mut("abc\0def")
        .expect_err("node name with embedded NUL");
}

#[test]
fn invalid_prop_name_nul() {
    let mut fdt = Fdt::new(&[]);
    let root_node = fdt.root_mut();
    root_node
        .set_prop("abc\0def", FdtPropval::U32(0))
        .expect_err("property name with embedded NUL");
}

#[test]
fn invalid_prop_string_value_nul() {
    let mut fdt = Fdt::new(&[]);
    let root_node = fdt.root_mut();
    root_node
        .set_prop("mystr", FdtPropval::Str("abc\0def".to_string()))
        .expect_err("string property value with embedded NUL");
}

#[test]
fn invalid_prop_string_list_value_nul() {
    let mut fdt = Fdt::new(&[]);
    let root_node = fdt.root_mut();
    let strs = ["test", "abc\0def"];
    root_node
        .set_prop(
            "mystr",
            FdtPropval::StrList(strs.iter().map(|s| s.to_string()).collect()),
        )
        .expect_err("stringlist property value with embedded NUL");
}
