//! The blob assembler: a whole devicetree and its serialization into one
//! aligned, concatenated blob.
//!
//! The blob is laid out as the 40-byte header, the reserved-memory block on
//! an 8-byte boundary, the structure block on an 8-byte boundary, and the
//! strings block on a 4-byte boundary; the header is computed last, once all
//! offsets and sizes are known, but stands first.

use vstd::prelude::*;
use vstd::assert_seqs_equal;
use vstd::slice::slice_to_vec;

use crate::error::Error;
use crate::header::FdtHeader;
use crate::header::FDT_HEADER_SIZE;
use crate::header::FDT_MAGIC;
use crate::header::FDT_VERSION;
use crate::header::FDT_LAST_COMP_VERSION;
use crate::header::spec_header_bytes;
use crate::node::FdtNode;
use crate::node::is_empty_node;
use crate::reserve::FdtReserveEntry;
use crate::reserve::spec_rsv_entries_bytes;
use crate::reserve::spec_rsvmap_bytes;
use crate::strings::FdtStrings;
use crate::strings::tbl_blob;
use crate::structure::FDT_END;
use crate::structure::spec_node_bytes;
use crate::structure::spec_node_tbl;
use crate::util::align_data;
use crate::util::push_be32;
use crate::util::push_tail;
use crate::util::push_zeros;
use crate::util::spec_align_up;
use crate::util::spec_be32;
use crate::util::spec_pad_len;
use crate::util::spec_zeros;

verus! {

/// A flattened devicetree: the root node, the reserved-memory list, and the
/// boot CPU id carried in the header.
#[derive(Debug)]
pub struct Fdt {
    /// Reserved physical memory ranges, serialized in this order.
    pub reserved_memory: Vec<FdtReserveEntry>,
    /// The root node, whose name is empty.
    pub root: FdtNode,
    /// The `boot_cpuid_phys` header field.
    pub boot_cpuid_phys: u32,
}

/// The byte offset of the reserved-memory block: right after the header,
/// which already sits on an 8-byte boundary.
pub open spec fn spec_off_mem_rsvmap() -> int {
    spec_align_up(FDT_HEADER_SIZE as int, 8)
}

/// The byte offset of the structure block: past the reserved-memory block,
/// on an 8-byte boundary.
pub open spec fn spec_off_dt_struct(rsv: Seq<FdtReserveEntry>) -> int {
    spec_align_up(spec_off_mem_rsvmap() + spec_rsvmap_bytes(rsv).len(), 8)
}

/// The structure block: the root node's encoding against an empty string
/// table, closed by the end token.
pub open spec fn spec_struct_block_bytes(root: FdtNode) -> Seq<u8> {
    spec_node_bytes(root, Seq::empty()) + spec_be32(FDT_END)
}

/// The strings block: the blob of the table the root node's serialization
/// populates, starting from empty.
pub open spec fn spec_strings_block_bytes(root: FdtNode) -> Seq<u8> {
    tbl_blob(spec_node_tbl(root, Seq::empty()))
}

/// The byte offset of the strings block: past the structure block, on a
/// 4-byte boundary.
pub open spec fn spec_off_dt_strings(root: FdtNode, rsv: Seq<FdtReserveEntry>) -> int {
    spec_align_up(spec_off_dt_struct(rsv) + spec_struct_block_bytes(root).len(), 4)
}

/// The finished blob's byte length.
pub open spec fn spec_total_size(root: FdtNode, rsv: Seq<FdtReserveEntry>) -> int {
    spec_off_dt_strings(root, rsv) + spec_strings_block_bytes(root).len()
}

/// The header the finished blob carries.
pub open spec fn spec_fdt_header(root: FdtNode, rsv: Seq<FdtReserveEntry>, boot: u32) -> FdtHeader {
    FdtHeader {
        magic: FDT_MAGIC,
        total_size: spec_total_size(root, rsv) as u32,
        off_dt_struct: spec_off_dt_struct(rsv) as u32,
        off_dt_strings: spec_off_dt_strings(root, rsv) as u32,
        off_mem_rsvmap: spec_off_mem_rsvmap() as u32,
        version: FDT_VERSION,
        last_comp_version: FDT_LAST_COMP_VERSION,
        boot_cpuid_phys: boot,
        size_dt_strings: spec_strings_block_bytes(root).len() as u32,
        size_dt_struct: (spec_off_dt_strings(root, rsv) - spec_off_dt_struct(rsv)) as u32,
    }
}

/// The blob as first assembled: a zeroed header-sized region, then each block
/// at its offset, with zero padding between blocks.
pub open spec fn spec_fdt_body(root: FdtNode, rsv: Seq<FdtReserveEntry>) -> Seq<u8> {
    let b1 = spec_zeros(FDT_HEADER_SIZE as int) + spec_rsvmap_bytes(rsv);
    let b2 = b1 + spec_zeros(spec_pad_len(b1.len() as int, 8));
    let b3 = b2 + spec_struct_block_bytes(root);
    let b4 = b3 + spec_zeros(spec_pad_len(b3.len() as int, 4));
    b4 + spec_strings_block_bytes(root)
}

/// The finished blob: the computed header over the assembled body.
pub open spec fn spec_fdt_bytes(root: FdtNode, rsv: Seq<FdtReserveEntry>, boot: u32) -> Seq<u8> {
    spec_header_bytes(spec_fdt_header(root, rsv, boot)) + spec_fdt_body(root, rsv).skip(
        FDT_HEADER_SIZE as int,
    )
}

impl Fdt {
    /// The tree is sound: the root node is well-formed and carries the empty
    /// name reserved for the root.
    pub open spec fn wf(&self) -> bool {
        &&& self.root.wf()
        &&& self.root.name@.len() == 0
    }

    /// Create a new flattened device tree instance with an initialized root
    /// node and the given reserved physical memory regions.
    pub fn new(mem_reservations: &[FdtReserveEntry]) -> (r: Fdt)
        ensures
            r.wf(),
            is_empty_node(r.root, Seq::empty()),
            r.reserved_memory@ == mem_reservations@,
            r.boot_cpuid_phys == 0,
    {
        Fdt {
            reserved_memory: slice_to_vec(mem_reservations),
            root: FdtNode { name: Vec::new(), props: Vec::new(), subnodes: Vec::new() },
            boot_cpuid_phys: 0u32,
        }
    }

    /// Set the `boot_cpuid_phys` field of the devicetree header.
    pub fn set_boot_cpuid_phys(&mut self, boot_cpuid_phys: u32)
        ensures
            *final(self) == (Fdt { boot_cpuid_phys, ..*old(self) }),
    {
        self.boot_cpuid_phys = boot_cpuid_phys;
    }

    /// Return a mutable reference to the root node of the FDT.
    pub fn root_mut(&mut self) -> (r: &mut FdtNode)
        ensures
            *r == old(self).root,
            *final(self) == (Fdt { root: *final(r), ..*old(self) }),
    {
        &mut self.root
    }

    /// Append the reserved-memory block: every entry in order, then the
    /// all-zero terminator entry.
    #[verifier::loop_isolation(false)]
    fn write_reserved_memory(&self, out: &mut Vec<u8>)
        ensures
            final(out)@ == old(out)@ + spec_rsvmap_bytes(self.reserved_memory@),
    {
        let ghost out0 = out@;
        let ghost es = self.reserved_memory@;
        let mut i: usize = 0;
        proof {
            assert(es.take(0) =~= Seq::<FdtReserveEntry>::empty());
            assert_seqs_equal!(out@ == out0 + spec_rsv_entries_bytes(es.take(0)));
        }
        while i < self.reserved_memory.len()
            invariant
                i <= es.len(),
                out@ == out0 + spec_rsv_entries_bytes(es.take(i as int)),
            decreases es.len() - i,
        {
            self.reserved_memory[i].write_blob(out);
            i = i + 1;
            proof {
                assert(es.take(i as int).drop_last() =~= es.take(i as int - 1));
                assert(es.take(i as int).last() == es[i as int - 1]);
            }
        }
        proof {
            assert(es.take(es.len() as int) =~= es);
        }
        let terminator = FdtReserveEntry::new(0, 0);
        terminator.write_blob(out);
    }

    /// Append the structure block: the root node's encoding, interning its
    /// property names into `strings`, closed by the end token.
    fn write_struct(&self, out: &mut Vec<u8>, strings: &mut FdtStrings) -> (r: Result<(), Error>)
        requires
            self.wf(),
            old(strings).wf(),
        ensures
            final(strings).wf(),
            match r {
                Ok(()) => {
                    &&& final(out)@ == old(out)@ + spec_node_bytes(self.root, old(strings)@)
                        + spec_be32(FDT_END)
                    &&& final(strings)@ == spec_node_tbl(self.root, old(strings)@)
                },
                Err(e) => e == Error::TotalSizeTooLarge,
            },
            r is Ok <==> tbl_blob(spec_node_tbl(self.root, old(strings)@)).len() <= u32::MAX,
    {
        let ghost out0 = out@;
        match self.root.write_blob(out, strings) {
            Ok(()) => {},
            Err(e) => {
                return Err(e);
            },
        }
        push_be32(out, FDT_END);
        Ok(())
    }

    /// Finish writing the Devicetree Blob (DTB) and return it as bytes: the
    /// header, then the reserved-memory, structure and strings blocks, each
    /// padded to its alignment.  The tree itself is left untouched, so the
    /// call can be repeated.  Fails exactly when the blob's total size does
    /// not fit the header's 32-bit size field.
    #[verifier::loop_isolation(false)]
    #[verifier::rlimit(100)]
    pub fn finish(&mut self) -> (r: Result<Vec<u8>, Error>)
        requires
            old(self).wf(),
        ensures
            *final(self) == *old(self),
            match r {
                Ok(blob) => {
                    &&& blob@ == spec_fdt_bytes(
                        old(self).root,
                        old(self).reserved_memory@,
                        old(self).boot_cpuid_phys,
                    )
                    &&& blob@.len() == spec_total_size(old(self).root, old(self).reserved_memory@)
                },
                Err(e) => e == Error::TotalSizeTooLarge,
            },
            r is Ok <==> spec_total_size(old(self).root, old(self).reserved_memory@) <= u32::MAX,
    {
        let ghost root = self.root;
        let ghost rsv = self.reserved_memory@;
        let mut result: Vec<u8> = Vec::new();
        push_zeros(&mut result, FDT_HEADER_SIZE);
        align_data(&mut result, 8);
        proof {
            assert(result@ =~= spec_zeros(FDT_HEADER_SIZE as int));
        }

        let off_mem_rsvmap = result.len();
        self.write_reserved_memory(&mut result);
        align_data(&mut result, 8);

        let off_dt_struct = result.len();
        let mut strings = FdtStrings::new();
        match self.write_struct(&mut result, &mut strings) {
            Ok(()) => {},
            Err(e) => {
                proof {
                    // The strings blob alone outgrew 32 bits, so the total —
                    // which contains it whole — cannot fit either.
                    assert(spec_strings_block_bytes(root).len() > u32::MAX);
                }
                return Err(e);
            },
        }
        align_data(&mut result, 4);

        let off_dt_strings = result.len();
        strings.write_blob(&mut result);
        let total_size = result.len();
        proof {
            assert(result@ =~= spec_fdt_body(root, rsv));
            assert(off_mem_rsvmap as int == spec_off_mem_rsvmap());
            assert(off_dt_struct as int == spec_off_dt_struct(rsv));
            assert(off_dt_strings as int == spec_off_dt_strings(root, rsv));
            assert(total_size as int == spec_total_size(root, rsv));
        }
        if total_size > u32::MAX as usize {
            return Err(Error::TotalSizeTooLarge);
        }

        let header = FdtHeader::new(
            total_size as u32,
            off_dt_struct as u32,
            off_dt_strings as u32,
            off_mem_rsvmap as u32,
            self.boot_cpuid_phys,
            (total_size - off_dt_strings) as u32,
            (off_dt_strings - off_dt_struct) as u32,
        );
        let mut blob: Vec<u8> = Vec::new();
        header.write_blob(&mut blob);
        push_tail(&mut blob, &result, FDT_HEADER_SIZE);
        proof {
            assert(header == spec_fdt_header(root, rsv, self.boot_cpuid_phys));
            assert(blob@ == spec_fdt_bytes(root, rsv, self.boot_cpuid_phys));
            assert(blob@.len() == total_size as int);
        }
        Ok(blob)
    }
}

} // verus!
