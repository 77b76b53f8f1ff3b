//! The fixed 40-byte blob header: ten 32-bit big-endian words.

use vstd::prelude::*;
use vstd::assert_seqs_equal;

use crate::util::push_be32;
use crate::util::spec_be32;

verus! {

/// The magic word opening every devicetree blob.
pub const FDT_MAGIC: u32 = 0xd00dfeed;

/// The blob format version this serializer emits.
pub const FDT_VERSION: u32 = 17;

/// The oldest blob format version the output stays compatible with.
pub const FDT_LAST_COMP_VERSION: u32 = 16;

/// The header's size in bytes: ten 32-bit words.
pub const FDT_HEADER_SIZE: usize = 40;

/// The blob header, positioned first in the blob but computed last, once
/// every block's offset and size is known.
#[derive(Debug, PartialEq, Eq, Structural)]
pub struct FdtHeader {
    /// Magic word identifying a devicetree blob.
    pub magic: u32,
    /// Total size of the blob in bytes.
    pub total_size: u32,
    /// Byte offset of the structure block.
    pub off_dt_struct: u32,
    /// Byte offset of the strings block.
    pub off_dt_strings: u32,
    /// Byte offset of the reserved-memory block.
    pub off_mem_rsvmap: u32,
    /// Blob format version.
    pub version: u32,
    /// Oldest compatible blob format version.
    pub last_comp_version: u32,
    /// Physical ID of the CPU the system boots on.
    pub boot_cpuid_phys: u32,
    /// Size of the strings block in bytes.
    pub size_dt_strings: u32,
    /// Size of the structure block in bytes.
    pub size_dt_struct: u32,
}

/// The header's 40-byte encoding: its ten words, big-endian, in order.
pub open spec fn spec_header_bytes(h: FdtHeader) -> Seq<u8> {
    spec_be32(h.magic) + spec_be32(h.total_size) + spec_be32(h.off_dt_struct) + spec_be32(
        h.off_dt_strings,
    ) + spec_be32(h.off_mem_rsvmap) + spec_be32(h.version) + spec_be32(h.last_comp_version)
        + spec_be32(h.boot_cpuid_phys) + spec_be32(h.size_dt_strings) + spec_be32(h.size_dt_struct)
}

impl FdtHeader {
    /// Build a header with the given offsets and sizes, the fixed magic word,
    /// and the fixed version pair.
    pub fn new(
        total_size: u32,
        off_dt_struct: u32,
        off_dt_strings: u32,
        off_mem_rsvmap: u32,
        boot_cpuid_phys: u32,
        size_dt_strings: u32,
        size_dt_struct: u32,
    ) -> (r: FdtHeader)
        ensures
            r == (FdtHeader {
                magic: FDT_MAGIC,
                total_size,
                off_dt_struct,
                off_dt_strings,
                off_mem_rsvmap,
                version: FDT_VERSION,
                last_comp_version: FDT_LAST_COMP_VERSION,
                boot_cpuid_phys,
                size_dt_strings,
                size_dt_struct,
            }),
    {
        FdtHeader {
            magic: FDT_MAGIC,
            total_size,
            off_dt_struct,
            off_dt_strings,
            off_mem_rsvmap,
            version: FDT_VERSION,
            last_comp_version: FDT_LAST_COMP_VERSION,
            boot_cpuid_phys,
            size_dt_strings,
            size_dt_struct,
        }
    }

    /// Append the header's ten words, big-endian, to `out`.
    #[verifier::rlimit(100)]
    pub fn write_blob(&self, out: &mut Vec<u8>)
        ensures
            final(out)@ == old(out)@ + spec_header_bytes(*self),
            final(out)@.len() == old(out)@.len() + FDT_HEADER_SIZE,
    {
        let ghost out0 = out@;
        push_be32(out, self.magic);
        push_be32(out, self.total_size);
        push_be32(out, self.off_dt_struct);
        push_be32(out, self.off_dt_strings);
        push_be32(out, self.off_mem_rsvmap);
        push_be32(out, self.version);
        push_be32(out, self.last_comp_version);
        push_be32(out, self.boot_cpuid_phys);
        push_be32(out, self.size_dt_strings);
        push_be32(out, self.size_dt_struct);
        proof {
            assert_seqs_equal!(out@ == out0 + spec_header_bytes(*self));
        }
    }
}

} // verus!
