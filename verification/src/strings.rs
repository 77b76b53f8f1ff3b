//! The deduplicating string table backing the strings block.
//!
//! Property names are interned: the first use of a name appends it, followed
//! by one terminator byte, to the strings blob and records its byte offset;
//! every later use of an equal name returns the recorded offset and appends
//! nothing.  The blob is emitted verbatim as the blob's strings block, in
//! first-use order.

use vstd::prelude::*;
use vstd::assert_seqs_equal;
use vstd::slice::slice_to_vec;

use crate::error::Error;
use crate::util::push_bytes;
use crate::util::bytes_eq;

verus! {

/// The strings blob described by a table: each name, in first-use order,
/// followed by one terminator byte.
pub open spec fn tbl_blob(tbl: Seq<Seq<u8>>) -> Seq<u8>
    decreases tbl.len(),
{
    if tbl.len() == 0 {
        Seq::empty()
    } else {
        tbl_blob(tbl.drop_last()) + tbl.last() + seq![0u8]
    }
}

/// Whether `name` was already interned into the table.
pub open spec fn tbl_contains(tbl: Seq<Seq<u8>>, name: Seq<u8>) -> bool {
    exists|i: int| 0 <= i < tbl.len() && tbl[i] == name
}

/// The byte offset of `name`'s first occurrence in the blob of `tbl`.
pub open spec fn tbl_offset(tbl: Seq<Seq<u8>>, name: Seq<u8>) -> int
    recommends
        tbl_contains(tbl, name),
    decreases tbl.len(),
{
    if tbl.len() == 0 {
        0
    } else if tbl.last() == name && !tbl_contains(tbl.drop_last(), name) {
        tbl_blob(tbl.drop_last()).len() as int
    } else {
        tbl_offset(tbl.drop_last(), name)
    }
}

/// The table after interning `name`: unchanged when present, else appended.
pub open spec fn tbl_intern(tbl: Seq<Seq<u8>>, name: Seq<u8>) -> Seq<Seq<u8>> {
    if tbl_contains(tbl, name) {
        tbl
    } else {
        tbl.push(name)
    }
}

/// No two entries of the table hold the same name.
pub open spec fn tbl_distinct(tbl: Seq<Seq<u8>>) -> bool {
    forall|i: int, j: int| 0 <= i < j < tbl.len() ==> tbl[i] != tbl[j]
}

/// Interning another name never moves an interned name's offset.
pub proof fn lemma_tbl_offset_stable(tbl: Seq<Seq<u8>>, name: Seq<u8>, other: Seq<u8>)
    requires
        tbl_contains(tbl, name),
    ensures
        tbl_contains(tbl_intern(tbl, other), name),
        tbl_offset(tbl_intern(tbl, other), name) == tbl_offset(tbl, name),
{
    if !tbl_contains(tbl, other) {
        let pushed = tbl.push(other);
        assert(pushed.drop_last() =~= tbl);
        assert(pushed.last() == other);
        let i = choose|i: int| 0 <= i < tbl.len() && tbl[i] == name;
        assert(pushed[i] == name);
    }
}

/// The offset of a distinct table's entry `i` is the length of the blob of
/// the entries before it.
proof fn lemma_tbl_offset_at(tbl: Seq<Seq<u8>>, i: int)
    requires
        tbl_distinct(tbl),
        0 <= i < tbl.len(),
    ensures
        tbl_offset(tbl, tbl[i]) == tbl_blob(tbl.take(i)).len(),
    decreases tbl.len(),
{
    if i == tbl.len() - 1 {
        assert(!tbl_contains(tbl.drop_last(), tbl[i]));
        assert(tbl.take(i) =~= tbl.drop_last());
    } else {
        assert(tbl.last() != tbl[i]);
        assert(tbl.drop_last()[i] == tbl[i]);
        lemma_tbl_offset_at(tbl.drop_last(), i);
        assert(tbl.drop_last().take(i) =~= tbl.take(i));
    }
}

/// A deduplicating table of property names and the strings blob they form.
#[derive(Debug)]
pub struct FdtStrings {
    /// The accumulated strings blob: every interned name, zero-terminated.
    blob: Vec<u8>,
    /// Each distinct interned name, in first-use order.
    names: Vec<Vec<u8>>,
    /// The byte offset in `blob` at which the matching name starts.
    offsets: Vec<u32>,
}

impl View for FdtStrings {
    type V = Seq<Seq<u8>>;

    closed spec fn view(&self) -> Seq<Seq<u8>> {
        self.names@.map_values(|n: Vec<u8>| n@)
    }
}

impl FdtStrings {
    /// The table's bookkeeping matches its model: the blob is the model's
    /// blob, names are distinct, every offset is the blob length before its
    /// name, and the blob fits the 32-bit offsets the format encodes.
    pub closed spec fn wf(&self) -> bool {
        &&& self.names@.len() == self.offsets@.len()
        &&& self.blob@ == tbl_blob(self@)
        &&& tbl_distinct(self@)
        &&& self.blob@.len() <= u32::MAX
        &&& forall|i: int|
            0 <= i < self@.len() ==> self.offsets@[i] as int == tbl_blob(
                #[trigger] self@.take(i),
            ).len()
    }

    /// A well-formed table's blob fits the 32-bit offsets the format encodes.
    pub proof fn lemma_wf_blob_len(&self)
        requires
            self.wf(),
        ensures
            tbl_blob(self@).len() <= u32::MAX,
    {
    }

    /// Create an empty string table.
    pub fn new() -> (r: FdtStrings)
        ensures
            r.wf(),
            r@ == Seq::<Seq<u8>>::empty(),
    {
        let r = FdtStrings { blob: Vec::new(), names: Vec::new(), offsets: Vec::new() };
        proof {
            assert(r@ =~= Seq::<Seq<u8>>::empty());
        }
        r
    }

    /// Find an existing instance of `name`, or append it and one terminator
    /// byte to the strings blob.  Returns the offset of `name` in the blob;
    /// fails only when the blob would outgrow the 32-bit offsets.
    #[verifier::loop_isolation(false)]
    pub fn intern_string(&mut self, name: &[u8]) -> (r: Result<u32, Error>)
        requires
            old(self).wf(),
        ensures
            final(self).wf(),
            match r {
                Ok(off) => {
                    &&& final(self)@ == tbl_intern(old(self)@, name@)
                    &&& off as int == tbl_offset(final(self)@, name@)
                    &&& tbl_contains(final(self)@, name@)
                },
                Err(e) => {
                    &&& e == Error::TotalSizeTooLarge
                    &&& *final(self) == *old(self)
                },
            },
            r is Err <==> !tbl_contains(old(self)@, name@) && tbl_blob(old(self)@).len()
                + name@.len() + 1 > u32::MAX,
    {
        let n = self.names.len();
        let mut i: usize = 0;
        while i < n
            invariant
                i <= n,
                forall|j: int| 0 <= j < i ==> self@[j] != name@,
            decreases n - i,
        {
            if bytes_eq(self.names[i].as_slice(), name) {
                proof {
                    assert(self@[i as int] == name@);
                    lemma_tbl_offset_at(self@, i as int);
                }
                return Ok(self.offsets[i]);
            }
            i = i + 1;
        }
        proof {
            assert(!tbl_contains(self@, name@));
        }
        // The name is new: it starts at the current end of the blob.
        if name.len() >= (u32::MAX as usize) - self.blob.len() {
            return Err(Error::TotalSizeTooLarge);
        }
        let off: u32 = self.blob.len() as u32;
        let ghost old_view = self@;
        self.names.push(slice_to_vec(name));
        self.offsets.push(off);
        push_bytes(&mut self.blob, name);
        self.blob.push(0u8);
        proof {
            let new_view = self@;
            assert(new_view =~= old_view.push(name@));
            assert(new_view.drop_last() =~= old_view);
            assert(tbl_blob(new_view) == tbl_blob(old_view) + name@ + seq![0u8]);
            assert_seqs_equal!(self.blob@ == tbl_blob(new_view));
            assert forall|k: int| 0 <= k < new_view.len() implies self.offsets@[k] as int
                == tbl_blob(#[trigger] new_view.take(k)).len() by {
                if k < old_view.len() {
                    assert(new_view.take(k) =~= old_view.take(k));
                } else {
                    assert(new_view.take(k) =~= old_view);
                }
            };
        }
        Ok(off)
    }

    /// Append the accumulated strings blob, verbatim, to `out`.
    pub fn write_blob(&self, out: &mut Vec<u8>)
        requires
            self.wf(),
        ensures
            final(out)@ == old(out)@ + tbl_blob(self@),
    {
        push_bytes(out, self.blob.as_slice());
    }
}

} // verus!
