//! The reserved-memory block: physical ranges the operating system must
//! leave alone, serialized in caller order and closed by an all-zero entry.

use vstd::prelude::*;
use vstd::assert_seqs_equal;

use crate::util::push_be64;
use crate::util::spec_be64;

verus! {

/// Reserved physical memory region.
///
/// An area of physical memory reserved by the firmware and unusable by the
/// OS — for example bootloader code or data used at runtime.
#[derive(Debug, Clone, Copy, PartialEq, Eq, Structural)]
pub struct FdtReserveEntry {
    /// Physical address of the beginning of the reserved region.
    pub address: u64,
    /// Size of the reserved region in bytes.
    pub size: u64,
}

/// One entry's encoding: address then size, big-endian.
pub open spec fn spec_rsv_entry_bytes(e: FdtReserveEntry) -> Seq<u8> {
    spec_be64(e.address) + spec_be64(e.size)
}

/// The encodings of a list of entries, in order.
pub open spec fn spec_rsv_entries_bytes(es: Seq<FdtReserveEntry>) -> Seq<u8>
    decreases es.len(),
{
    if es.len() == 0 {
        Seq::empty()
    } else {
        spec_rsv_entries_bytes(es.drop_last()) + spec_rsv_entry_bytes(es.last())
    }
}

/// The whole reserved-memory block: every entry in caller order, closed by
/// the all-zero terminator entry.
pub open spec fn spec_rsvmap_bytes(es: Seq<FdtReserveEntry>) -> Seq<u8> {
    spec_rsv_entries_bytes(es) + spec_rsv_entry_bytes(FdtReserveEntry { address: 0, size: 0 })
}

impl FdtReserveEntry {
    /// Create a new entry for the region starting at `address`, `size` bytes
    /// long.
    pub fn new(address: u64, size: u64) -> (r: FdtReserveEntry)
        ensures
            r == (FdtReserveEntry { address, size }),
    {
        FdtReserveEntry { address, size }
    }

    /// Append the entry's encoding — address then size, big-endian — to `out`.
    pub fn write_blob(&self, out: &mut Vec<u8>)
        ensures
            final(out)@ == old(out)@ + spec_rsv_entry_bytes(*self),
    {
        let ghost out0 = out@;
        push_be64(out, self.address);
        push_be64(out, self.size);
        proof {
            assert_seqs_equal!(out@ == out0 + spec_rsv_entry_bytes(*self));
        }
    }
}

} // verus!
