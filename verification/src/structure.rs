//! Serialization of the node tree into the blob's structure block.
//!
//! Each node is emitted as a begin-node token, the zero-terminated node name
//! padded to a 4-byte boundary, one record per property in name order, every
//! child in name order, and an end-node token.  A property record holds the
//! property token, the 32-bit value length, the 32-bit offset of the interned
//! property name in the strings block, and the value padded to a 4-byte
//! boundary.  The string table threads through the whole traversal, so name
//! offsets depend on first use.

use vstd::prelude::*;
use vstd::assert_seqs_equal;

use crate::error::Error;
use crate::node::FdtNode;
use crate::node::props_view;
use crate::strings::FdtStrings;
use crate::strings::tbl_blob;
use crate::strings::tbl_contains;
use crate::strings::tbl_intern;
use crate::strings::tbl_offset;
use crate::util::align_pad_len;
use crate::util::push_be32;
use crate::util::push_bytes;
use crate::util::push_zeros;
use crate::util::spec_be32;
use crate::util::spec_pad_len;
use crate::util::spec_zeros;

verus! {

/// Token opening a node in the structure block.
pub const FDT_BEGIN_NODE: u32 = 0x00000001;

/// Token closing a node in the structure block.
pub const FDT_END_NODE: u32 = 0x00000002;

/// Token opening a property record in the structure block.
pub const FDT_PROP: u32 = 0x00000003;

/// Token closing the whole structure block.
pub const FDT_END: u32 = 0x00000009;

/// A node's opening: the begin-node token and the zero-terminated name,
/// padded to a 4-byte boundary.
pub open spec fn spec_node_header_bytes(name: Seq<u8>) -> Seq<u8> {
    spec_be32(FDT_BEGIN_NODE) + name + seq![0u8] + spec_zeros(
        spec_pad_len(name.len() as int + 1, 4),
    )
}

/// One property record, with the name offset the table `tbl` assigns.
pub open spec fn spec_prop_record(p: (Seq<u8>, Seq<u8>), tbl: Seq<Seq<u8>>) -> Seq<u8> {
    spec_be32(FDT_PROP) + spec_be32(p.1.len() as u32) + spec_be32(
        tbl_offset(tbl_intern(tbl, p.0), p.0) as u32,
    ) + p.1 + spec_zeros(spec_pad_len(p.1.len() as int, 4))
}

/// The records of a property list, each against the table its predecessors
/// left behind.
pub open spec fn spec_props_bytes(props: Seq<(Seq<u8>, Seq<u8>)>, tbl: Seq<Seq<u8>>) -> Seq<u8>
    decreases props.len(),
{
    if props.len() == 0 {
        Seq::empty()
    } else {
        spec_props_bytes(props.drop_last(), tbl) + spec_prop_record(
            props.last(),
            spec_props_tbl(props.drop_last(), tbl),
        )
    }
}

/// The table after interning a property list's names, in order.
pub open spec fn spec_props_tbl(props: Seq<(Seq<u8>, Seq<u8>)>, tbl: Seq<Seq<u8>>) -> Seq<Seq<u8>>
    decreases props.len(),
{
    if props.len() == 0 {
        tbl
    } else {
        tbl_intern(spec_props_tbl(props.drop_last(), tbl), props.last().0)
    }
}

/// The structure-block encoding of one node against table `tbl`: its header,
/// its property records, its children in order, and the end-node token.
pub open spec fn spec_node_bytes(n: FdtNode, tbl: Seq<Seq<u8>>) -> Seq<u8>
    decreases n, 1int,
{
    spec_node_header_bytes(n.name@) + spec_props_bytes(props_view(n.props@), tbl)
        + spec_subnodes_bytes(n.subnodes@, spec_props_tbl(props_view(n.props@), tbl)) + spec_be32(
        FDT_END_NODE,
    )
}

/// The table after serializing one node against table `tbl`.
pub open spec fn spec_node_tbl(n: FdtNode, tbl: Seq<Seq<u8>>) -> Seq<Seq<u8>>
    decreases n, 1int,
{
    spec_subnodes_tbl(n.subnodes@, spec_props_tbl(props_view(n.props@), tbl))
}

/// The encodings of a list of nodes, each against the table its predecessors
/// left behind.
pub open spec fn spec_subnodes_bytes(ns: Seq<FdtNode>, tbl: Seq<Seq<u8>>) -> Seq<u8>
    decreases ns, 0int,
{
    if ns.len() == 0 {
        Seq::empty()
    } else {
        spec_subnodes_bytes(ns.drop_last(), tbl) + spec_node_bytes(
            ns.last(),
            spec_subnodes_tbl(ns.drop_last(), tbl),
        )
    }
}

/// The table after serializing a list of nodes, in order.
pub open spec fn spec_subnodes_tbl(ns: Seq<FdtNode>, tbl: Seq<Seq<u8>>) -> Seq<Seq<u8>>
    decreases ns, 0int,
{
    if ns.len() == 0 {
        tbl
    } else {
        spec_node_tbl(ns.last(), spec_subnodes_tbl(ns.drop_last(), tbl))
    }
}

/// Interning only ever lengthens the strings blob.
proof fn lemma_tbl_intern_grows(tbl: Seq<Seq<u8>>, name: Seq<u8>)
    ensures
        tbl_blob(tbl_intern(tbl, name)).len() >= tbl_blob(tbl).len(),
{
    if !tbl_contains(tbl, name) {
        assert(tbl.push(name).drop_last() =~= tbl);
    }
}

/// Serializing a property list only ever lengthens the strings blob.
proof fn lemma_props_tbl_grows(props: Seq<(Seq<u8>, Seq<u8>)>, tbl: Seq<Seq<u8>>)
    ensures
        tbl_blob(spec_props_tbl(props, tbl)).len() >= tbl_blob(tbl).len(),
    decreases props.len(),
{
    if props.len() > 0 {
        lemma_props_tbl_grows(props.drop_last(), tbl);
        lemma_tbl_intern_grows(spec_props_tbl(props.drop_last(), tbl), props.last().0);
    }
}

/// Serializing a node only ever lengthens the strings blob.
proof fn lemma_node_tbl_grows(n: FdtNode, tbl: Seq<Seq<u8>>)
    ensures
        tbl_blob(spec_node_tbl(n, tbl)).len() >= tbl_blob(tbl).len(),
    decreases n, 1int,
{
    lemma_props_tbl_grows(props_view(n.props@), tbl);
    lemma_subnodes_tbl_grows(n.subnodes@, spec_props_tbl(props_view(n.props@), tbl));
}

/// Serializing a list of nodes only ever lengthens the strings blob.
proof fn lemma_subnodes_tbl_grows(ns: Seq<FdtNode>, tbl: Seq<Seq<u8>>)
    ensures
        tbl_blob(spec_subnodes_tbl(ns, tbl)).len() >= tbl_blob(tbl).len(),
    decreases ns, 0int,
{
    if ns.len() > 0 {
        lemma_subnodes_tbl_grows(ns.drop_last(), tbl);
        lemma_node_tbl_grows(ns.last(), spec_subnodes_tbl(ns.drop_last(), tbl));
    }
}

/// A property list's table can be computed in two runs: first a prefix, then
/// the rest on top of it.
proof fn lemma_props_tbl_split(props: Seq<(Seq<u8>, Seq<u8>)>, tbl: Seq<Seq<u8>>, j: int)
    requires
        0 <= j <= props.len(),
    ensures
        spec_props_tbl(props, tbl) == spec_props_tbl(
            props.skip(j),
            spec_props_tbl(props.take(j), tbl),
        ),
    decreases props.len(),
{
    if j == props.len() {
        assert(props.take(j) =~= props);
        assert(props.skip(j).len() == 0);
    } else {
        lemma_props_tbl_split(props.drop_last(), tbl, j);
        assert(props.drop_last().take(j) =~= props.take(j));
        assert(props.skip(j).drop_last() =~= props.drop_last().skip(j));
        assert(props.skip(j).last() == props.last());
    }
}

/// A node list's table can be computed in two runs: first a prefix, then the
/// rest on top of it.
proof fn lemma_subnodes_tbl_split(ns: Seq<FdtNode>, tbl: Seq<Seq<u8>>, j: int)
    requires
        0 <= j <= ns.len(),
    ensures
        spec_subnodes_tbl(ns, tbl) == spec_subnodes_tbl(
            ns.skip(j),
            spec_subnodes_tbl(ns.take(j), tbl),
        ),
    decreases ns.len(),
{
    if j == ns.len() {
        assert(ns.take(j) =~= ns);
        assert(ns.skip(j).len() == 0);
    } else {
        lemma_subnodes_tbl_split(ns.drop_last(), tbl, j);
        assert(ns.drop_last().take(j) =~= ns.take(j));
        assert(ns.skip(j).drop_last() =~= ns.drop_last().skip(j));
        assert(ns.skip(j).last() == ns.last());
    }
}

/// Append a node's opening — begin-node token, zero-terminated name, padding
/// to a 4-byte boundary — to `out`.
fn write_node_header(out: &mut Vec<u8>, name: &[u8])
    ensures
        final(out)@ == old(out)@ + spec_node_header_bytes(name@),
{
    let ghost out0 = out@;
    push_be32(out, FDT_BEGIN_NODE);
    push_bytes(out, name);
    out.push(0u8);
    let pad = align_pad_len(name.len() % 4 + 1, 4);
    proof {
        vstd::arithmetic::div_mod::lemma_add_mod_noop(name@.len() as int, 1int, 4int);
        assert(pad == spec_pad_len(name@.len() as int + 1, 4));
    }
    push_zeros(out, pad);
    proof {
        assert_seqs_equal!(out@ == out0 + spec_node_header_bytes(name@));
    }
}

/// Append one property record to `out`, interning the property's name into
/// `strings`.  Fails only when the strings blob outgrows its 32-bit offsets,
/// leaving the table unchanged; nothing is promised of `out` then.
fn write_prop_record(out: &mut Vec<u8>, strings: &mut FdtStrings, pname: &[u8], value: &[u8]) -> (r:
    Result<(), Error>)
    requires
        old(strings).wf(),
        value@.len() <= u32::MAX,
    ensures
        final(strings).wf(),
        match r {
            Ok(()) => {
                &&& final(out)@ == old(out)@ + spec_prop_record(
                    (pname@, value@),
                    old(strings)@,
                )
                &&& final(strings)@ == tbl_intern(old(strings)@, pname@)
            },
            Err(e) => e == Error::TotalSizeTooLarge && *final(strings) == *old(strings),
        },
        r is Ok <==> tbl_blob(tbl_intern(old(strings)@, pname@)).len() <= u32::MAX,
{
    let ghost out0 = out@;
    let ghost tbl0 = strings@;
    push_be32(out, FDT_PROP);
    push_be32(out, value.len() as u32);
    let off = match strings.intern_string(pname) {
        Ok(o) => o,
        Err(e) => {
            proof {
                assert(tbl0.push(pname@).drop_last() =~= tbl0);
                assert(tbl_blob(tbl_intern(tbl0, pname@)).len() > u32::MAX);
            }
            return Err(e);
        },
    };
    proof {
        if !tbl_contains(tbl0, pname@) {
            assert(tbl0.push(pname@).drop_last() =~= tbl0);
        }
    }
    push_be32(out, off);
    push_bytes(out, value);
    push_zeros(out, align_pad_len(value.len(), 4));
    proof {
        assert(off as u32 == tbl_offset(tbl_intern(tbl0, pname@), pname@) as u32);
        assert_seqs_equal!(out@ == out0 + spec_prop_record((pname@, value@), tbl0));
        strings.lemma_wf_blob_len();
    }
    Ok(())
}

impl FdtNode {
    /// Append the node's structure-block encoding to `out`, interning its
    /// property names — and those of every node below it — into `strings`.
    /// Fails only when the strings blob outgrows its 32-bit offsets, which
    /// dooms the total size; nothing is promised of `out` then.
    #[verifier::loop_isolation(false)]
    #[verifier::rlimit(100)]
    pub fn write_blob(&self, out: &mut Vec<u8>, strings: &mut FdtStrings) -> (r: Result<
        (),
        Error,
    >)
        requires
            self.wf(),
            old(strings).wf(),
        ensures
            final(strings).wf(),
            match r {
                Ok(()) => {
                    &&& final(out)@ == old(out)@ + spec_node_bytes(*self, old(strings)@)
                    &&& final(strings)@ == spec_node_tbl(*self, old(strings)@)
                },
                Err(e) => e == Error::TotalSizeTooLarge,
            },
            r is Ok <==> tbl_blob(spec_node_tbl(*self, old(strings)@)).len() <= u32::MAX,
        decreases *self,
    {
        let ghost tbl0 = strings@;
        let ghost out0 = out@;
        write_node_header(out, self.name.as_slice());
        let ghost header = spec_node_header_bytes(self.name@);
        // Property records, in name order.
        let ghost pv = props_view(self.props@);
        let mut i: usize = 0;
        proof {
            assert(pv.take(0) =~= Seq::<(Seq<u8>, Seq<u8>)>::empty());
            assert_seqs_equal!(out@ == out0 + header + spec_props_bytes(pv.take(0), tbl0));
        }
        while i < self.props.len()
            invariant
                i <= self.props@.len(),
                strings.wf(),
                strings@ == spec_props_tbl(pv.take(i as int), tbl0),
                out@ == out0 + header + spec_props_bytes(pv.take(i as int), tbl0),
            decreases self.props@.len() - i,
        {
            let ghost tbl_before = strings@;
            match write_prop_record(
                out,
                strings,
                self.props[i].0.as_slice(),
                self.props[i].1.as_slice(),
            ) {
                Ok(()) => {},
                Err(e) => {
                    proof {
                        // The blob was about to outgrow 32 bits; the finished
                        // table could only be longer still.
                        let stepped = tbl_intern(tbl_before, pv[i as int].0);
                        assert(pv.take(i as int + 1).drop_last() =~= pv.take(i as int));
                        assert(pv.take(i as int + 1).last() == pv[i as int]);
                        assert(stepped == spec_props_tbl(pv.take(i as int + 1), tbl0));
                        lemma_props_tbl_split(pv, tbl0, i as int + 1);
                        lemma_props_tbl_grows(pv.skip(i as int + 1), stepped);
                        lemma_subnodes_tbl_grows(self.subnodes@, spec_props_tbl(pv, tbl0));
                    }
                    return Err(e);
                },
            }
            i = i + 1;
            proof {
                assert(pv.take(i as int).drop_last() =~= pv.take(i as int - 1));
                assert(pv.take(i as int).last() == pv[i as int - 1]);
                assert_seqs_equal!(out@ == out0 + header + spec_props_bytes(pv.take(i as int), tbl0));
            }
        }
        proof {
            assert(pv.take(self.props@.len() as int) =~= pv);
        }
        // Child nodes, in name order.
        let ghost ptbl = spec_props_tbl(pv, tbl0);
        let ghost ns = self.subnodes@;
        let mut j: usize = 0;
        proof {
            assert(ns.take(0) =~= Seq::<FdtNode>::empty());
            assert_seqs_equal!(out@ == out0 + header + spec_props_bytes(pv, tbl0) + spec_subnodes_bytes(ns.take(0), ptbl));
        }
        while j < self.subnodes.len()
            invariant
                j <= self.subnodes@.len(),
                strings.wf(),
                strings@ == spec_subnodes_tbl(ns.take(j as int), ptbl),
                out@ == out0 + header + spec_props_bytes(pv, tbl0) + spec_subnodes_bytes(
                    ns.take(j as int),
                    ptbl,
                ),
            decreases self.subnodes@.len() - j,
        {
            let ghost tbl_before = strings@;
            match self.subnodes[j].write_blob(out, strings) {
                Ok(()) => {},
                Err(e) => {
                    proof {
                        assert(tbl_blob(spec_node_tbl(ns[j as int], tbl_before)).len()
                            > u32::MAX);
                        assert(ns.take(j as int + 1).drop_last() =~= ns.take(j as int));
                        assert(ns.take(j as int + 1).last() == ns[j as int]);
                        lemma_subnodes_tbl_split(ns, ptbl, j as int + 1);
                        lemma_subnodes_tbl_grows(
                            ns.skip(j as int + 1),
                            spec_subnodes_tbl(ns.take(j as int + 1), ptbl),
                        );
                    }
                    return Err(e);
                },
            }
            j = j + 1;
            proof {
                assert(ns.take(j as int).drop_last() =~= ns.take(j as int - 1));
                assert(ns.take(j as int).last() == ns[j as int - 1]);
                assert_seqs_equal!(out@ == out0 + header + spec_props_bytes(pv, tbl0) + spec_subnodes_bytes(ns.take(j as int), ptbl));
            }
        }
        proof {
            assert(ns.take(self.subnodes@.len() as int) =~= ns);
        }
        // End-node token.
        push_be32(out, FDT_END_NODE);
        proof {
            assert_seqs_equal!(out@ == out0 + spec_node_bytes(*self, tbl0));
            strings.lemma_wf_blob_len();
        }
        Ok(())
    }
}

} // verus!
